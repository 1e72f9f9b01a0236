//! Registers as sequences of bits.
//!
//! A register of width `w` is modelled as a `Seq<bool>` of length `w` whose
//! element `i` is bit `i` of the register, bit 0 being the least significant.
//! Read as a polynomial over GF(2), element `i` is a coefficient, XOR is
//! addition and a shift is a multiplication or division by a power of `x`.

use vstd::prelude::*;

verus! {

/// Whether bit `i` of `x` is set; bit 0 is the least significant.
pub open spec fn bit_at(x: u64, i: u64) -> bool {
    (x >> i) & 1 == 1
}

/// Whether bit `i` of `x` is set, for an index into a sequence.
pub open spec fn bit_of(x: u64, i: int) -> bool {
    bit_at(x, i as u64)
}

/// The low `w` bits of `x`, least significant first.
pub open spec fn bits_of(x: u64, w: nat) -> Seq<bool> {
    Seq::new(w, |i: int| bit_of(x, i))
}

/// The bits of a byte.
pub open spec fn byte_bits(byte: u8) -> Seq<bool> {
    bits_of(byte as u64, 8)
}

/// The all-zero register of width `w`.
pub open spec fn zeros(w: nat) -> Seq<bool> {
    Seq::new(w, |i: int| false)
}

/// Bitwise exclusive or; the result has the width of `a`.
pub open spec fn xor(a: Seq<bool>, b: Seq<bool>) -> Seq<bool> {
    Seq::new(a.len(), |i: int| a[i] != b[i])
}

/// Bitwise and; the result has the width of `a`.
pub open spec fn and(a: Seq<bool>, b: Seq<bool>) -> Seq<bool> {
    Seq::new(a.len(), |i: int| a[i] && b[i])
}

/// Bitwise complement.
pub open spec fn not(a: Seq<bool>) -> Seq<bool> {
    Seq::new(a.len(), |i: int| !a[i])
}

/// Shift towards the most significant end by `n` places. Bits that leave the
/// register are lost and zeros enter at the bottom.
pub open spec fn shl(a: Seq<bool>, n: nat) -> Seq<bool> {
    Seq::new(a.len(), |i: int| n <= i && a[i - n])
}

/// Shift towards the least significant end by `n` places. Bits that leave the
/// register are lost and zeros enter at the top.
pub open spec fn shr(a: Seq<bool>, n: nat) -> Seq<bool> {
    Seq::new(a.len(), |i: int| i + n < a.len() && a[i + n])
}

/// The register with its bits in opposite order: bit `i` of the result is
/// bit `len - 1 - i` of `a`.
pub open spec fn reverse(a: Seq<bool>) -> Seq<bool> {
    Seq::new(a.len(), |i: int| a[a.len() - 1 - i])
}

/// The low `w` bits of `a`, filled up with zeros at the top where `a` is
/// narrower than `w`.
pub open spec fn resize(a: Seq<bool>, w: nat) -> Seq<bool> {
    Seq::new(w, |i: int| i < a.len() && a[i])
}

/// The register of width `w` in which bit `at` alone is set.
pub open spec fn single(w: nat, at: int) -> Seq<bool> {
    Seq::new(w, |i: int| i == at)
}

proof fn lemma_bit_facts(a: u8, b: u8, i: u64)
    by (bit_vector)
    ensures
        i < 8 ==> bit_at((a ^ b) as u64, i) == (bit_at(a as u64, i) != bit_at(b as u64, i)),
        !bit_at(0, i),
        bit_at(1, i) == (i == 0),
{
}

/// The bits of the XOR of two bytes are the XOR of their bits.
pub proof fn lemma_byte_bits_xor(a: u8, b: u8)
    ensures
        byte_bits(a ^ b) == xor(byte_bits(a), byte_bits(b)),
{
    assert forall|i: int| 0 <= i < 8 implies #[trigger] bit_of((a ^ b) as u64, i) == (bit_of(
        a as u64,
        i,
    ) != bit_of(b as u64, i)) by {
        lemma_bit_facts(a, b, i as u64);
    }
    assert(byte_bits(a ^ b) =~= xor(byte_bits(a), byte_bits(b)));
}

/// The number 0 has no bit set.
pub proof fn lemma_bits_of_zero(w: nat)
    ensures
        bits_of(0, w) == zeros(w),
{
    assert forall|i: int| 0 <= i < w implies !#[trigger] bit_of(0, i) by {
        lemma_bit_facts(0, 0, i as u64);
    }
    assert(bits_of(0, w) =~= zeros(w));
}

/// The number 1 has bit 0 alone set.
pub proof fn lemma_bits_of_one(w: nat)
    requires
        w <= 64,
    ensures
        bits_of(1, w) == single(w, 0),
{
    assert forall|i: int| 0 <= i < w implies #[trigger] bit_of(1, i) == (i == 0) by {
        lemma_bit_facts(0, 0, i as u64);
    }
    assert(bits_of(1, w) =~= single(w, 0));
}

} // verus!
