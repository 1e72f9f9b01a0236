//! CRC computation over the primitive register types `u8`, `u16`, `u32`,
//! `u64` and `usize`. The width of the polynomial is the bit size of the
//! type: the CRC-32 variants are backed by `u32`.
//!
//! # Examples
//!
//! The check value of the POSIX variant of CRC-32, the one that the `cksum`
//! program computes:
//!
//! ```
//! use crc_rocksoft::CrcHasher;
//! use crc_rocksoft::primitive::CrcTable;
//! use crc_rocksoft::primitive::CrcTableHasher;
//!
//! let spec = CrcTable::new(0x04C11DB7u32, 0u32, false, false, 0xFFFFFFFFu32);
//! let mut hasher = CrcTableHasher::from(spec);
//! hasher.update_from_slice(b"123456789");
//! assert_eq!(hasher.finish(), 0x765E7680);
//! ```

use vstd::prelude::*;
use vstd::layout::size_of;
use crate::bits;

mod crc_table;
mod hasher;
mod reverse;
mod table;
mod uint16;
mod uint32;
mod uint64;
mod uint8;
mod word;

pub use self::crc_table::CrcTable;
pub use self::hasher::CrcTableHasher;
pub use self::hasher::SpecRef;
pub use self::table::fill_table;
pub use self::table::is_table;
pub use self::table::Table;

verus! {

/// The operations a register type offers to the CRC engine. Only bitwise
/// operations are asked for: a CRC is a division of polynomials over GF(2).
///
/// Every operation is described by what it does to the register's bits.
pub trait ValueType: Copy + Sized {
    /// The number of bits in a register.
    spec fn spec_width() -> nat;

    /// The register's bits, least significant first.
    spec fn bits(self) -> Seq<bool>;

    /// A register is at least one byte wide, and its width is the bit size
    /// of the type.
    proof fn lemma_width()
        ensures
            8 <= Self::spec_width() <= 255,
            Self::spec_width() == 8 * size_of::<Self>(),
    ;

    /// Every register has `spec_width()` bits.
    proof fn lemma_bits_len(self)
        ensures
            self.bits().len() == Self::spec_width(),
    ;

    /// Two registers with the same bits are the same register.
    proof fn lemma_bits_injective(self, other: Self)
        requires
            self.bits() == other.bits(),
        ensures
            self == other,
    ;

    /// The register whose low eight bits are those of `byte` and whose other
    /// bits are zero.
    fn from_u8(byte: u8) -> (r: Self)
        ensures
            r.bits() == bits::resize(bits::byte_bits(byte), Self::spec_width()),
    ;

    /// Bitwise complement.
    fn not(self) -> (r: Self)
        ensures
            r.bits() == bits::not(self.bits()),
    ;

    /// Shift left by `n` places; a shift by the width or more leaves zero.
    fn shl(self, n: u8) -> (r: Self)
        ensures
            r.bits() == bits::shl(self.bits(), n as nat),
    ;

    /// Shift right by `n` places; a shift by the width or more leaves zero.
    fn shr(self, n: u8) -> (r: Self)
        ensures
            r.bits() == bits::shr(self.bits(), n as nat),
    ;

    /// Reversal of the whole register: bit `i` changes places with bit
    /// `spec_width() - 1 - i`.
    fn swap_bits(self) -> (r: Self)
        ensures
            r.bits() == bits::reverse(self.bits()),
    ;

    /// Bitwise exclusive or.
    fn xor(self, other: Self) -> (r: Self)
        ensures
            r.bits() == bits::xor(self.bits(), other.bits()),
    ;

    /// Bitwise and.
    fn and(self, other: Self) -> (r: Self)
        ensures
            r.bits() == bits::and(self.bits(), other.bits()),
    ;

    /// Whether two registers are equal.
    fn equals(self, other: Self) -> (r: bool)
        ensures
            r == (self == other),
    ;

    /// The low eight bits of the register.
    fn to_u8(self) -> (r: u8)
        ensures
            bits::byte_bits(r) == bits::resize(self.bits(), 8),
    ;
}

/// The width of the register type `T` in bits: eight times its size in
/// bytes.
pub fn width_of<T: ValueType>() -> (w: usize)
    ensures
        w == T::spec_width(),
        8 <= w <= 255,
{
    proof {
        T::lemma_width();
    }
    core::mem::size_of::<T>() * 8
}

} // verus!
