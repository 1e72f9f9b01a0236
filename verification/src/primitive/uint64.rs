//! `u64` as a register of 64 bits.

use vstd::prelude::*;
use vstd::std_specs::bits::axiom_u64_trailing_zeros;
use vstd::std_specs::bits::u64_trailing_zeros;
use crate::bits;
use crate::bits::bit_at;
use crate::bits::bit_of;
use crate::bits::bits_of;
use super::reverse::reverse_u64;
use super::ValueType;

verus! {

/// What the operations on a `u64` do to bit `i`.
proof fn lemma_bitwise(a: u64, b: u64, c: u8, n: u64, i: u64)
    by (bit_vector)
    requires
        i < 64,
    ensures
        bit_at(a ^ b, i) == (bit_at(a, i) != bit_at(b, i)),
        bit_at(a & b, i) == (bit_at(a, i) && bit_at(b, i)),
        bit_at(!a, i) == !bit_at(a, i),
        n < 64 ==> bit_at(a << n, i) == (n <= i && bit_at(a, (i - n) as u64)),
        n < 64 ==> bit_at(a >> n, i) == (i + n < 64 && bit_at(a, (i + n) as u64)),
        bit_at(c as u64, i) ==> i < 8,
        i < 8 ==> bit_at((a as u8) as u64, i) == bit_at(a, i),
        !bit_at(0, i),
        a ^ b == 0 ==> a == b,
{
}

impl ValueType for u64 {
    open spec fn spec_width() -> nat {
        64
    }

    open spec fn bits(self) -> Seq<bool> {
        bits_of(self, 64)
    }

    proof fn lemma_width() {
        broadcast use vstd::layout::layout_of_primitives;
    }

    proof fn lemma_bits_len(self) {
    }

    proof fn lemma_bits_injective(self, other: u64) {
        if self != other {
            // The lowest bit in which the two differ.
            let d = self ^ other;
            let t = u64_trailing_zeros(d);
            lemma_bitwise(self, other, 0, 0, 0);
            axiom_u64_trailing_zeros(d);
            lemma_bitwise(self, other, 0, 0, t as u64);
            assert(bit_of(self, t as int) != bit_of(other, t as int));
            assert(self.bits()[t as int] == bit_of(self, t as int));
            assert(other.bits()[t as int] == bit_of(other, t as int));
        }
    }

    fn from_u8(byte: u8) -> (r: u64) {
        let r = byte as u64;
        proof {
            assert forall|i: int| 0 <= i < 64 implies #[trigger] bit_of(r, i) == (i < 8
                && bit_of(byte as u64, i)) by {
                lemma_bitwise(0, 0, byte, 0, i as u64);
            }
            assert(r.bits() =~= bits::resize(bits::byte_bits(byte), 64));
        }
        r
    }

    fn not(self) -> (r: u64) {
        let r = !self;
        proof {
            assert forall|i: int| 0 <= i < 64 implies #[trigger] bit_of(r, i) == !bit_of(
                self,
                i,
            ) by {
                lemma_bitwise(self, 0, 0, 0, i as u64);
            }
            assert(r.bits() =~= bits::not(self.bits()));
        }
        r
    }

    fn shl(self, n: u8) -> (r: u64) {
        let r = if n < 64 {
            self << n
        } else {
            0
        };
        proof {
            assert forall|i: int| 0 <= i < 64 implies #[trigger] bit_of(r, i) == (n <= i
                && bit_of(self, i - n)) by {
                lemma_bitwise(self, 0, 0, n as u64, i as u64);
            }
            assert(r.bits() =~= bits::shl(self.bits(), n as nat));
        }
        r
    }

    fn shr(self, n: u8) -> (r: u64) {
        let r = if n < 64 {
            self >> n
        } else {
            0
        };
        proof {
            assert forall|i: int| 0 <= i < 64 implies #[trigger] bit_of(r, i) == (i + n < 64
                && bit_of(self, i + n)) by {
                lemma_bitwise(self, 0, 0, n as u64, i as u64);
            }
            assert(r.bits() =~= bits::shr(self.bits(), n as nat));
        }
        r
    }

    fn swap_bits(self) -> (r: u64) {
        reverse_u64(self)
    }

    fn xor(self, other: u64) -> (r: u64) {
        let r = self ^ other;
        proof {
            assert forall|i: int| 0 <= i < 64 implies #[trigger] bit_of(r, i) == (bit_of(
                self,
                i,
            ) != bit_of(other, i)) by {
                lemma_bitwise(self, other, 0, 0, i as u64);
            }
            assert(r.bits() =~= bits::xor(self.bits(), other.bits()));
        }
        r
    }

    fn and(self, other: u64) -> (r: u64) {
        let r = self & other;
        proof {
            assert forall|i: int| 0 <= i < 64 implies #[trigger] bit_of(r, i) == (bit_of(
                self,
                i,
            ) && bit_of(other, i)) by {
                lemma_bitwise(self, other, 0, 0, i as u64);
            }
            assert(r.bits() =~= bits::and(self.bits(), other.bits()));
        }
        r
    }

    fn equals(self, other: u64) -> (r: bool) {
        self == other
    }

    fn to_u8(self) -> (r: u8) {
        let r = self as u8;
        proof {
            assert forall|i: int| 0 <= i < 8 implies #[trigger] bit_of(r as u64, i) == bit_of(
                self,
                i,
            ) by {
                lemma_bitwise(self, 0, 0, 0, i as u64);
            }
            assert(bits::byte_bits(r) =~= bits::resize(self.bits(), 8));
        }
        r
    }
}

} // verus!
