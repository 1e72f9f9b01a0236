//! `usize` as a register of the machine's word size, 32 or 64 bits.

use vstd::prelude::*;
use vstd::std_specs::bits::axiom_u64_trailing_zeros;
use vstd::std_specs::bits::u64_trailing_zeros;
use crate::bits;
use crate::bits::bit_at;
use crate::bits::bit_of;
use crate::bits::bits_of;
use super::reverse::reverse_usize;
use super::ValueType;

verus! {

/// What the operations on a `usize` do to bit `i`.
proof fn lemma_bitwise(a: usize, b: usize, c: u8, n: usize, i: u64)
    by (bit_vector)
    requires
        i < usize::BITS,
    ensures
        bit_at((a ^ b) as u64, i) == (bit_at(a as u64, i) != bit_at(b as u64, i)),
        bit_at((a & b) as u64, i) == (bit_at(a as u64, i) && bit_at(b as u64, i)),
        bit_at((!a) as u64, i) == !bit_at(a as u64, i),
        n < usize::BITS ==> bit_at((a << n) as u64, i) == (n <= i && bit_at(
            a as u64,
            (i - n) as u64,
        )),
        n < usize::BITS ==> bit_at((a >> n) as u64, i) == (i + n < usize::BITS && bit_at(
            a as u64,
            (i + n) as u64,
        )),
        bit_at((c as usize) as u64, i) == (i < 8 && bit_at(c as u64, i)),
        i < 8 ==> bit_at((a as u8) as u64, i) == bit_at(a as u64, i),
        !bit_at(0, i),
        a ^ b == 0 ==> a == b,
{
}

/// A bit that is set lies within the word.
proof fn lemma_set_bit(a: usize, i: u64)
    by (bit_vector)
    requires
        i < 64,
        bit_at(a as u64, i),
    ensures
        i < usize::BITS,
{
}

impl ValueType for usize {
    open spec fn spec_width() -> nat {
        usize::BITS as nat
    }

    open spec fn bits(self) -> Seq<bool> {
        bits_of(self as u64, usize::BITS as nat)
    }

    proof fn lemma_width() {
        broadcast use vstd::layout::layout_of_primitives;
    }

    proof fn lemma_bits_len(self) {
    }

    proof fn lemma_bits_injective(self, other: usize) {
        if self != other {
            // The lowest bit in which the two differ.
            let d = self ^ other;
            let t = u64_trailing_zeros(d as u64);
            lemma_bitwise(self, other, 0, 0, 0);
            axiom_u64_trailing_zeros(d as u64);
            lemma_set_bit(d, t as u64);
            lemma_bitwise(self, other, 0, 0, t as u64);
            assert(bit_of(self as u64, t as int) != bit_of(other as u64, t as int));
            assert(self.bits()[t as int] == bit_of(self as u64, t as int));
            assert(other.bits()[t as int] == bit_of(other as u64, t as int));
        }
    }

    fn from_u8(byte: u8) -> (r: usize) {
        let r = byte as usize;
        proof {
            assert forall|i: int| 0 <= i < usize::BITS implies #[trigger] bit_of(r as u64, i)
                == (i < 8 && bit_of(byte as u64, i)) by {
                lemma_bitwise(0, 0, byte, 0, i as u64);
            }
            assert(r.bits() =~= bits::resize(bits::byte_bits(byte), usize::BITS as nat));
        }
        r
    }

    fn not(self) -> (r: usize) {
        let r = !self;
        proof {
            assert forall|i: int| 0 <= i < usize::BITS implies #[trigger] bit_of(r as u64, i)
                == !bit_of(self as u64, i) by {
                lemma_bitwise(self, 0, 0, 0, i as u64);
            }
            assert(r.bits() =~= bits::not(self.bits()));
        }
        r
    }

    fn shl(self, n: u8) -> (r: usize) {
        let r = if (n as u32) < usize::BITS {
            self << n
        } else {
            0
        };
        proof {
            assert forall|i: int| 0 <= i < usize::BITS implies #[trigger] bit_of(r as u64, i)
                == (n <= i && bit_of(self as u64, i - n)) by {
                lemma_bitwise(self, 0, 0, n as usize, i as u64);
            }
            assert(r.bits() =~= bits::shl(self.bits(), n as nat));
        }
        r
    }

    fn shr(self, n: u8) -> (r: usize) {
        let r = if (n as u32) < usize::BITS {
            self >> n
        } else {
            0
        };
        proof {
            assert forall|i: int| 0 <= i < usize::BITS implies #[trigger] bit_of(r as u64, i)
                == (i + n < usize::BITS && bit_of(self as u64, i + n)) by {
                lemma_bitwise(self, 0, 0, n as usize, i as u64);
            }
            assert(r.bits() =~= bits::shr(self.bits(), n as nat));
        }
        r
    }

    fn swap_bits(self) -> (r: usize) {
        reverse_usize(self)
    }

    fn xor(self, other: usize) -> (r: usize) {
        let r = self ^ other;
        proof {
            assert forall|i: int| 0 <= i < usize::BITS implies #[trigger] bit_of(r as u64, i)
                == (bit_of(self as u64, i) != bit_of(other as u64, i)) by {
                lemma_bitwise(self, other, 0, 0, i as u64);
            }
            assert(r.bits() =~= bits::xor(self.bits(), other.bits()));
        }
        r
    }

    fn and(self, other: usize) -> (r: usize) {
        let r = self & other;
        proof {
            assert forall|i: int| 0 <= i < usize::BITS implies #[trigger] bit_of(r as u64, i)
                == (bit_of(self as u64, i) && bit_of(other as u64, i)) by {
                lemma_bitwise(self, other, 0, 0, i as u64);
            }
            assert(r.bits() =~= bits::and(self.bits(), other.bits()));
        }
        r
    }

    fn equals(self, other: usize) -> (r: bool) {
        self == other
    }

    fn to_u8(self) -> (r: u8) {
        let r = self as u8;
        proof {
            assert forall|i: int| 0 <= i < 8 implies #[trigger] bit_of(r as u64, i) == bit_of(
                self as u64,
                i,
            ) by {
                lemma_bitwise(self, 0, 0, 0, i as u64);
            }
            assert(bits::byte_bits(r) =~= bits::resize(self.bits(), 8));
        }
        r
    }
}

} // verus!
