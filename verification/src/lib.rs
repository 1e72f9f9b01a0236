//! Cyclic redundancy checks in the parameterized model of Ross Williams'
//! 1993 paper, the "Rocksoft Model": a polynomial, an initial register value,
//! two reflection flags and a final XOR value over a register of 8, 16, 32 or
//! 64 bits.
//!
//! The crate computes with a lookup table of 256 entries and proves that
//! this is the division of polynomials that defines a CRC:
//!
//! - `bits` models a register as a sequence of bits;
//! - `model` defines the division, one bit at a time, and the checksum of a
//!   message, and proves that a step by table lookup is a step of the
//!   division;
//! - `primitive` holds the register types, the table, the parameter set
//!   `CrcTable` and the hasher `CrcTableHasher`;
//! - `laws` states what holds of all hashers and parameter sets.

use vstd::prelude::*;
use crate::model::Params;
use crate::primitive::ValueType;

pub mod bits;
pub mod laws;
pub mod model;
pub mod primitive;

verus! {

/// Accessors for the elements of a CRC algorithm specification.
///
/// The elements are those of the 1993 paper by Ross Williams, with one
/// exception: see `refout`.
pub trait CrcSpec<T> {
    /// The width that `width` returns.
    spec fn spec_width(&self) -> nat;

    /// The polynomial that `poly` returns.
    spec fn spec_poly(&self) -> T;

    /// The initial value that `init` returns.
    spec fn spec_init(&self) -> T;

    /// The flag that `refin` returns.
    spec fn spec_refin(&self) -> bool;

    /// The flag that `refout` returns.
    spec fn spec_refout(&self) -> bool;

    /// The value that `xorout` returns.
    spec fn spec_xorout(&self) -> T;

    /// The width of the algorithm in bits. This is one less than the width
    /// of the polynomial with its top bit.
    fn width(&self) -> (w: usize)
        ensures
            w == self.spec_width(),
    ;

    /// The polynomial, without its top bit, and never reflected: its bottom
    /// bit is the least significant bit of the divisor whether or not the
    /// algorithm is reflected.
    fn poly(&self) -> (p: T)
        ensures
            p == self.spec_poly(),
    ;

    /// The value of the register when the algorithm starts. Reflection does
    /// not touch it: its bits go to the register as they are.
    fn init(&self) -> (v: T)
        ensures
            v == self.spec_init(),
    ;

    /// Whether input bytes are reflected: if false, bit 7 of an input byte
    /// is processed as its most significant bit.
    fn refin(&self) -> (b: bool)
        ensures
            b == self.spec_refin(),
    ;

    /// If this is the same as `refin`, the last register goes to the XOR
    /// stage as it is; otherwise it is reflected first.
    ///
    /// The paper has the last register reflected whenever this flag is set.
    /// The two readings agree on every algorithm whose two flags are equal
    /// once the register is kept reflected throughout, as it is here.
    fn refout(&self) -> (b: bool)
        ensures
            b == self.spec_refout(),
    ;

    /// The value that is XORed to the last register, after the reflection
    /// stage, to give the checksum.
    fn xorout(&self) -> (v: T)
        ensures
            v == self.spec_xorout(),
    ;
}

/// An object that computes a CRC in its own register.
///
/// Which algorithm it computes is fixed when it is made, and given by
/// `params`.
pub trait CrcHasher<T: ValueType> {
    /// The parameters of the algorithm that is computed.
    spec fn params(&self) -> Params;

    /// The bits of the register.
    spec fn register(&self) -> Seq<bool>;

    /// Puts the register back to the initial value: the hasher takes new
    /// data as if it were newly made.
    fn reset(&mut self)
        ensures
            final(self).params() == old(self).params(),
            final(self).register() == old(self).params().init,
    ;

    /// Takes one byte of data into the register.
    fn update(&mut self, byte: u8)
        ensures
            final(self).params() == old(self).params(),
            final(self).register() == old(self).params().update(old(self).register(), byte),
    ;

    /// The checksum of the data taken so far. The register is left as it
    /// is, so that more data can follow.
    fn finish(&self) -> (checksum: T)
        ensures
            checksum.bits() == self.params().finish(self.register()),
    ;

    /// Takes all bytes of `bytes`, first to last, into the register.
    fn update_from_slice(&mut self, bytes: &[u8])
        ensures
            final(self).params() == old(self).params(),
            final(self).register() == old(self).params().update_all(
                old(self).register(),
                bytes@,
            ),
    {
        let mut taken: usize = 0;
        while taken < bytes.len()
            invariant
                taken <= bytes.len(),
                self.params() == old(self).params(),
                self.register() == old(self).params().update_all(
                    old(self).register(),
                    bytes@.take(taken as int),
                ),
            decreases bytes.len() - taken,
        {
            proof {
                assert(bytes@.take(taken + 1).drop_last() =~= bytes@.take(taken as int));
            }
            self.update(bytes[taken]);
            taken = taken + 1;
        }
        proof {
            assert(bytes@.take(taken as int) =~= bytes@);
        }
    }
}

} // verus!
