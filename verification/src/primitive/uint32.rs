//! `u32` as a register of 32 bits.

use vstd::prelude::*;
use vstd::std_specs::bits::axiom_u32_trailing_zeros;
use vstd::std_specs::bits::u32_trailing_zeros;
use crate::bits;
use crate::bits::bit_at;
use crate::bits::bit_of;
use crate::bits::bits_of;
use super::reverse::reverse_u32;
use super::ValueType;

verus! {

/// What the operations on a `u32` do to bit `i`.
proof fn lemma_bitwise(a: u32, b: u32, c: u8, n: u32, i: u64)
    by (bit_vector)
    requires
        i < 32,
    ensures
        bit_at((a ^ b) as u64, i) == (bit_at(a as u64, i) != bit_at(b as u64, i)),
        bit_at((a & b) as u64, i) == (bit_at(a as u64, i) && bit_at(b as u64, i)),
        bit_at((!a) as u64, i) == !bit_at(a as u64, i),
        n < 32 ==> bit_at((a << n) as u64, i) == (n <= i && bit_at(a as u64, (i - n) as u64)),
        n < 32 ==> bit_at((a >> n) as u64, i) == (i + n < 32 && bit_at(a as u64, (i + n) as u64)),
        bit_at((c as u32) as u64, i) == (i < 8 && bit_at(c as u64, i)),
        i < 8 ==> bit_at((a as u8) as u64, i) == bit_at(a as u64, i),
        !bit_at(0, i),
        ((a >> (i as u32)) & 1u32 == 1u32) == bit_at(a as u64, i),
        a ^ b == 0 ==> a == b,
{
}

impl ValueType for u32 {
    open spec fn spec_width() -> nat {
        32
    }

    open spec fn bits(self) -> Seq<bool> {
        bits_of(self as u64, 32)
    }

    proof fn lemma_width() {
        broadcast use vstd::layout::layout_of_primitives;
    }

    proof fn lemma_bits_len(self) {
    }

    proof fn lemma_bits_injective(self, other: u32) {
        if self != other {
            // The lowest bit in which the two differ.
            let d = self ^ other;
            let t = u32_trailing_zeros(d);
            lemma_bitwise(self, other, 0, 0, 0);
            axiom_u32_trailing_zeros(d);
            lemma_bitwise(self, other, 0, 0, t as u64);
            lemma_bitwise(d, 0, 0, 0, t as u64);
            assert(bit_of(self as u64, t as int) != bit_of(other as u64, t as int));
            assert(self.bits()[t as int] == bit_of(self as u64, t as int));
            assert(other.bits()[t as int] == bit_of(other as u64, t as int));
        }
    }

    fn from_u8(byte: u8) -> (r: u32) {
        let r = byte as u32;
        proof {
            assert forall|i: int| 0 <= i < 32 implies #[trigger] bit_of(r as u64, i) == (i < 8
                && bit_of(byte as u64, i)) by {
                lemma_bitwise(0, 0, byte, 0, i as u64);
            }
            assert(r.bits() =~= bits::resize(bits::byte_bits(byte), 32));
        }
        r
    }

    fn not(self) -> (r: u32) {
        let r = !self;
        proof {
            assert forall|i: int| 0 <= i < 32 implies #[trigger] bit_of(r as u64, i) == !bit_of(
                self as u64,
                i,
            ) by {
                lemma_bitwise(self, 0, 0, 0, i as u64);
            }
            assert(r.bits() =~= bits::not(self.bits()));
        }
        r
    }

    fn shl(self, n: u8) -> (r: u32) {
        let r = if n < 32 {
            self << n
        } else {
            0
        };
        proof {
            assert forall|i: int| 0 <= i < 32 implies #[trigger] bit_of(r as u64, i) == (n <= i
                && bit_of(self as u64, i - n)) by {
                lemma_bitwise(self, 0, 0, n as u32, i as u64);
            }
            assert(r.bits() =~= bits::shl(self.bits(), n as nat));
        }
        r
    }

    fn shr(self, n: u8) -> (r: u32) {
        let r = if n < 32 {
            self >> n
        } else {
            0
        };
        proof {
            assert forall|i: int| 0 <= i < 32 implies #[trigger] bit_of(r as u64, i) == (i + n < 32
                && bit_of(self as u64, i + n)) by {
                lemma_bitwise(self, 0, 0, n as u32, i as u64);
            }
            assert(r.bits() =~= bits::shr(self.bits(), n as nat));
        }
        r
    }

    fn swap_bits(self) -> (r: u32) {
        reverse_u32(self)
    }

    fn xor(self, other: u32) -> (r: u32) {
        let r = self ^ other;
        proof {
            assert forall|i: int| 0 <= i < 32 implies #[trigger] bit_of(r as u64, i) == (bit_of(
                self as u64,
                i,
            ) != bit_of(other as u64, i)) by {
                lemma_bitwise(self, other, 0, 0, i as u64);
            }
            assert(r.bits() =~= bits::xor(self.bits(), other.bits()));
        }
        r
    }

    fn and(self, other: u32) -> (r: u32) {
        let r = self & other;
        proof {
            assert forall|i: int| 0 <= i < 32 implies #[trigger] bit_of(r as u64, i) == (bit_of(
                self as u64,
                i,
            ) && bit_of(other as u64, i)) by {
                lemma_bitwise(self, other, 0, 0, i as u64);
            }
            assert(r.bits() =~= bits::and(self.bits(), other.bits()));
        }
        r
    }

    fn equals(self, other: u32) -> (r: bool) {
        self == other
    }

    fn to_u8(self) -> (r: u8) {
        let r = self as u8;
        proof {
            assert forall|i: int| 0 <= i < 8 implies #[trigger] bit_of(r as u64, i) == bit_of(
                self as u64,
                i,
            ) by {
                lemma_bitwise(self, 0, 0, 0, i as u64);
            }
            assert(bits::byte_bits(r) =~= bits::resize(self.bits(), 8));
        }
        r
    }
}

} // verus!
