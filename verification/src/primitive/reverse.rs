//! Bit reversal of the primitive register types, done by the `bit_reverse`
//! crate.

use vstd::prelude::*;
use crate::bits::bits_of;
use crate::bits::reverse;

verus! {

/// `bit_reverse::ParallelReverse::swap_bits` on a `u8`. Not verified: the
/// contract restates what the crate does, a reversal of all 8 bits, so that
/// bit `i` of the result is bit `7 - i` of the argument.
#[verifier::external_body]
pub(crate) fn reverse_u8(x: u8) -> (r: u8)
    ensures
        bits_of(r as u64, 8) == reverse(bits_of(x as u64, 8)),
{
    bit_reverse::ParallelReverse::swap_bits(x)
}

/// `bit_reverse::ParallelReverse::swap_bits` on a `u16`. Not verified: the
/// contract restates what the crate does, a reversal of all 16 bits, so that
/// bit `i` of the result is bit `15 - i` of the argument.
#[verifier::external_body]
pub(crate) fn reverse_u16(x: u16) -> (r: u16)
    ensures
        bits_of(r as u64, 16) == reverse(bits_of(x as u64, 16)),
{
    bit_reverse::ParallelReverse::swap_bits(x)
}

/// `bit_reverse::ParallelReverse::swap_bits` on a `u32`. Not verified: the
/// contract restates what the crate does, a reversal of all 32 bits, so that
/// bit `i` of the result is bit `31 - i` of the argument.
#[verifier::external_body]
pub(crate) fn reverse_u32(x: u32) -> (r: u32)
    ensures
        bits_of(r as u64, 32) == reverse(bits_of(x as u64, 32)),
{
    bit_reverse::ParallelReverse::swap_bits(x)
}

/// `bit_reverse::ParallelReverse::swap_bits` on a `u64`. Not verified: the
/// contract restates what the crate does, a reversal of all 64 bits, so that
/// bit `i` of the result is bit `63 - i` of the argument.
#[verifier::external_body]
pub(crate) fn reverse_u64(x: u64) -> (r: u64)
    ensures
        bits_of(r, 64) == reverse(bits_of(x, 64)),
{
    bit_reverse::ParallelReverse::swap_bits(x)
}

/// `bit_reverse::ParallelReverse::swap_bits` on a `usize`. Not verified: the
/// contract restates what the crate does, a reversal of all bits of the
/// machine word, so that bit `i` of the result is bit `usize::BITS - 1 - i`
/// of the argument.
#[verifier::external_body]
pub(crate) fn reverse_usize(x: usize) -> (r: usize)
    ensures
        bits_of(r as u64, usize::BITS as nat) == reverse(bits_of(x as u64, usize::BITS as nat)),
{
    bit_reverse::ParallelReverse::swap_bits(x)
}

} // verus!
