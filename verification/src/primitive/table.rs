//! The lookup table of the table-driven algorithm.

use vstd::prelude::*;
use crate::bits;
use crate::bits::byte_bits;
use crate::model::divide;
use crate::model::divide_bit;
use crate::model::place;
use crate::model::table_entry;
use super::ValueType;
use super::width_of;

verus! {

/// One register for every value of a byte.
pub type Table<T> = [T; 256];

/// Whether `table` is the lookup table for `poly` and `refin`: entry `i` is
/// what eight rounds of division leave of the register that holds only the
/// byte `i`.
pub open spec fn is_table<T: ValueType>(table: Seq<T>, poly: Seq<bool>, refin: bool) -> bool {
    &&& table.len() == 256
    &&& forall|i: int|
        0 <= i < 256 ==> (#[trigger] table[i]).bits() == table_entry(
            poly,
            refin,
            byte_bits(i as u8),
        )
}

/// The polynomial as the rounds of division use it: reversed where the
/// division runs from the least significant end.
pub open spec fn divisor_of(poly: Seq<bool>, refin: bool) -> Seq<bool> {
    if refin {
        bits::reverse(poly)
    } else {
        poly
    }
}

/// The position of the bit that leaves the register in a round.
pub open spec fn leaving_bit(width: nat, refin: bool) -> int {
    if refin {
        0
    } else {
        width - 1
    }
}

/// One round of division on a register. `leaving` selects the bit that
/// leaves the register.
fn divide_round<T: ValueType>(
    reg: T,
    poly: Ghost<Seq<bool>>,
    divisor: T,
    leaving: T,
    zero: T,
    refin: bool,
) -> (r: T)
    requires
        poly@.len() == T::spec_width(),
        divisor.bits() == divisor_of(poly@, refin),
        leaving.bits() == bits::single(T::spec_width(), leaving_bit(T::spec_width(), refin)),
        zero.bits() == bits::zeros(T::spec_width()),
    ensures
        r.bits() == divide_bit(reg.bits(), poly@, refin),
{
    proof {
        T::lemma_width();
        reg.lemma_bits_len();
    }
    let moved = if refin {
        reg.shr(1)
    } else {
        reg.shl(1)
    };
    let out = reg.and(leaving);
    let at = Ghost(leaving_bit(T::spec_width(), refin));
    if out.equals(zero) {
        proof {
            assert(!out.bits()[at@]);
        }
        moved
    } else {
        proof {
            if !reg.bits()[at@] {
                assert(out.bits() =~= zero.bits());
                out.lemma_bits_injective(zero);
            }
        }
        moved.xor(divisor)
    }
}

/// The table entry for the byte `index`.
fn entry<T: ValueType>(
    index: u8,
    poly: Ghost<Seq<bool>>,
    divisor: T,
    leaving: T,
    zero: T,
    refin: bool,
) -> (r: T)
    requires
        poly@.len() == T::spec_width(),
        divisor.bits() == divisor_of(poly@, refin),
        leaving.bits() == bits::single(T::spec_width(), leaving_bit(T::spec_width(), refin)),
        zero.bits() == bits::zeros(T::spec_width()),
    ensures
        r.bits() == table_entry(poly@, refin, byte_bits(index)),
{
    let width = width_of::<T>();
    let mut reg = if refin {
        T::from_u8(index)
    } else {
        T::from_u8(index).shl((width - 8) as u8)
    };
    let ghost start = place(byte_bits(index), T::spec_width(), refin);
    let mut rounds: u8 = 0;
    while rounds < 8
        invariant
            rounds <= 8,
            poly@.len() == T::spec_width(),
            divisor.bits() == divisor_of(poly@, refin),
            leaving.bits() == bits::single(T::spec_width(), leaving_bit(T::spec_width(), refin)),
            zero.bits() == bits::zeros(T::spec_width()),
            reg.bits() == divide(start, poly@, refin, rounds as nat),
        decreases 8 - rounds,
    {
        reg = divide_round(reg, poly, divisor, leaving, zero, refin);
        rounds = rounds + 1;
    }
    reg
}

/// Fills `table` with the lookup table for `poly` and `refin`.
pub fn fill_table<T: ValueType>(table: &mut Table<T>, poly: T, refin: bool)
    ensures
        is_table(final(table)@, poly.bits(), refin),
{
    let zero = T::from_u8(0);
    let divisor = if refin {
        poly.swap_bits()
    } else {
        poly
    };
    let leaving = if refin {
        T::from_u8(1)
    } else {
        zero.not().shr(1).not()
    };
    proof {
        T::lemma_width();
        poly.lemma_bits_len();
        bits::lemma_bits_of_zero(8);
        bits::lemma_bits_of_one(8);
        let width = T::spec_width();
        assert(zero.bits() =~= bits::zeros(width));
        assert(leaving.bits() =~= bits::single(width, leaving_bit(width, refin)));
    }
    let mut i: usize = 0;
    while i < 256
        invariant
            i <= 256,
            poly.bits().len() == T::spec_width(),
            divisor.bits() == divisor_of(poly.bits(), refin),
            leaving.bits() == bits::single(T::spec_width(), leaving_bit(T::spec_width(), refin)),
            zero.bits() == bits::zeros(T::spec_width()),
            forall|j: int|
                0 <= j < i ==> (#[trigger] table@[j]).bits() == table_entry(
                    poly.bits(),
                    refin,
                    byte_bits(j as u8),
                ),
        decreases 256 - i,
    {
        table[i] = entry(i as u8, Ghost(poly.bits()), divisor, leaving, zero, refin);
        i = i + 1;
    }
}

} // verus!
