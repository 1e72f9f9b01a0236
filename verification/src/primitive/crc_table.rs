//! A parameter set with its lookup table.

use vstd::prelude::*;
use vstd::layout::size_of;
use crate::bits::lemma_byte_bits_xor;
use crate::model::lemma_update_by_table;
use crate::model::update_by_table;
use crate::model::Params;
use crate::CrcSpec;
use super::table::fill_table;
use super::table::is_table;
use super::table::Table;
use super::width_of;
use super::ValueType;

verus! {

/// The parameters of a CRC algorithm together with the lookup table that
/// belongs to them. The table is built once, by `new`, and never changes.
pub struct CrcTable<T: ValueType> {
    poly: T,
    init: T,
    refin: bool,
    refout: bool,
    xorout: T,
    table: Table<T>,
}

impl<T: ValueType> View for CrcTable<T> {
    type V = Params;

    /// The parameters as bits.
    open spec fn view(&self) -> Params {
        Params {
            poly: self.spec_poly().bits(),
            init: self.spec_init().bits(),
            refin: self.spec_refin(),
            refout: self.spec_refout(),
            xorout: self.spec_xorout().bits(),
        }
    }
}

impl<T: ValueType> CrcTable<T> {
    #[verifier::type_invariant]
    spec fn table_built(self) -> bool {
        is_table(self.table@, self.poly.bits(), self.refin)
    }

    /// The lookup table that the parameter set holds.
    pub closed spec fn spec_table(&self) -> Seq<T> {
        self.table@
    }

    /// Makes a parameter set and builds its table. Every combination of
    /// parameters is accepted.
    pub fn new(poly: T, init: T, refin: bool, refout: bool, xorout: T) -> (spec: CrcTable<T>)
        ensures
            spec.spec_poly() == poly,
            spec.spec_init() == init,
            spec.spec_refin() == refin,
            spec.spec_refout() == refout,
            spec.spec_xorout() == xorout,
            is_table(spec.spec_table(), poly.bits(), refin),
    {
        let mut table: Table<T> = [T::from_u8(0); 256];
        fill_table(&mut table, poly, refin);
        CrcTable { poly, init, refin, refout, xorout, table }
    }

    /// The register after one more byte: `value` moved by eight bits and
    /// XORed with the table entry that the byte leaving it and `byte` select.
    /// This is what eight rounds of division, one bit at a time, give.
    pub fn update(&self, value: T, byte: u8) -> (next: T)
        ensures
            next.bits() == self@.update(value.bits(), byte),
            next.bits() == update_by_table(self@.poly, self@.refin, value.bits(), byte),
    {
        proof {
            use_type_invariant(self);
            T::lemma_width();
            value.lemma_bits_len();
            self.poly.lemma_bits_len();
            lemma_update_by_table(self.poly.bits(), self.refin, value.bits(), byte);
        }
        if self.refin {
            let leaving = value.to_u8();
            let index = leaving ^ byte;
            proof {
                lemma_byte_bits_xor(leaving, byte);
            }
            value.shr(8).xor(self.table[index as usize])
        } else {
            let leaving = value.shr((width_of::<T>() - 8) as u8).to_u8();
            let index = leaving ^ byte;
            proof {
                lemma_byte_bits_xor(leaving, byte);
            }
            value.shl(8).xor(self.table[index as usize])
        }
    }

    /// The checksum for the register `value`: the register, reversed where
    /// `refin` and `refout` differ, XORed with `xorout`.
    pub fn finish(&self, value: T) -> (checksum: T)
        ensures
            checksum.bits() == self@.finish(value.bits()),
    {
        let reflected = if self.refin != self.refout {
            value.swap_bits()
        } else {
            value
        };
        reflected.xor(self.xorout)
    }
}

impl<T: ValueType> CrcSpec<T> for CrcTable<T> {
    open spec fn spec_width(&self) -> nat {
        T::spec_width()
    }

    closed spec fn spec_poly(&self) -> T {
        self.poly
    }

    closed spec fn spec_init(&self) -> T {
        self.init
    }

    closed spec fn spec_refin(&self) -> bool {
        self.refin
    }

    closed spec fn spec_refout(&self) -> bool {
        self.refout
    }

    closed spec fn spec_xorout(&self) -> T {
        self.xorout
    }

    fn width(&self) -> (w: usize)
        ensures
            w == 8 * size_of::<T>(),
    {
        proof {
            T::lemma_width();
        }
        width_of::<T>()
    }

    fn poly(&self) -> (p: T) {
        self.poly
    }

    fn init(&self) -> (v: T) {
        self.init
    }

    fn refin(&self) -> (b: bool) {
        self.refin
    }

    fn refout(&self) -> (b: bool) {
        self.refout
    }

    fn xorout(&self) -> (v: T) {
        self.xorout
    }
}

} // verus!
