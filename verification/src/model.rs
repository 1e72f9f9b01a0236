//! The parameterized CRC model, stated on bits.
//!
//! A CRC is the remainder of a division of polynomials over GF(2). The
//! division is defined here one bit at a time; everything else in the crate
//! is proved equal to it.

use vstd::prelude::*;
use crate::bits::byte_bits;
use crate::bits::resize;
use crate::bits::reverse;
use crate::bits::shl;
use crate::bits::shr;
use crate::bits::xor;

verus! {

/// The five parameters of a CRC algorithm. The width of the algorithm is the
/// number of bits of `poly`.
pub struct Params {
    /// The divisor without its top bit, never reflected.
    pub poly: Seq<bool>,
    /// The register before the first byte.
    pub init: Seq<bool>,
    /// Whether input enters at the least significant end of the register.
    pub refin: bool,
    /// Together with `refin`, decides whether the last register is reversed.
    pub refout: bool,
    /// What is XORed into the last register.
    pub xorout: Seq<bool>,
}

/// One round of the division: the register moves by one bit, and where the
/// bit that leaves it is set, the polynomial is subtracted. With `refin` the
/// register moves towards its least significant end and the polynomial is
/// taken reversed; without it, the mirror image.
pub open spec fn divide_bit(reg: Seq<bool>, poly: Seq<bool>, refin: bool) -> Seq<bool> {
    if refin {
        if reg[0] {
            xor(shr(reg, 1), reverse(poly))
        } else {
            shr(reg, 1)
        }
    } else {
        if reg[reg.len() - 1] {
            xor(shl(reg, 1), poly)
        } else {
            shl(reg, 1)
        }
    }
}

/// `rounds` rounds of the division.
pub open spec fn divide(reg: Seq<bool>, poly: Seq<bool>, refin: bool, rounds: nat) -> Seq<bool>
    decreases rounds,
{
    if rounds == 0 {
        reg
    } else {
        divide_bit(divide(reg, poly, refin, (rounds - 1) as nat), poly, refin)
    }
}

/// The register of `width` bits that holds the eight bits `byte` at the end
/// that leaves first, and zeros elsewhere.
pub open spec fn place(byte: Seq<bool>, width: nat, refin: bool) -> Seq<bool> {
    if refin {
        resize(byte, width)
    } else {
        shl(resize(byte, width), (width - 8) as nat)
    }
}

/// The register after one more byte of input: the byte is added to the end
/// of the register that leaves first, and eight rounds of division follow.
pub open spec fn update(poly: Seq<bool>, refin: bool, reg: Seq<bool>, byte: u8) -> Seq<bool> {
    divide(xor(reg, place(byte_bits(byte), poly.len(), refin)), poly, refin, 8)
}

/// The register after the bytes of `bytes`, first to last.
pub open spec fn update_all(poly: Seq<bool>, refin: bool, reg: Seq<bool>, bytes: Seq<u8>) -> Seq<
    bool,
>
    decreases bytes.len(),
{
    if bytes.len() == 0 {
        reg
    } else {
        update(poly, refin, update_all(poly, refin, reg, bytes.drop_last()), bytes.last())
    }
}

/// Entry `index` of the lookup table for `poly` and `refin`: what eight
/// rounds of division leave of a register that holds only the byte `index`.
pub open spec fn table_entry(poly: Seq<bool>, refin: bool, index: Seq<bool>) -> Seq<bool> {
    divide(place(index, poly.len(), refin), poly, refin, 8)
}

/// The byte that selects the table entry for one step: the eight bits of
/// the register that leave first, XORed with the input byte.
pub open spec fn table_index(reg: Seq<bool>, byte: u8, refin: bool) -> Seq<bool> {
    if refin {
        xor(resize(reg, 8), byte_bits(byte))
    } else {
        xor(resize(shr(reg, (reg.len() - 8) as nat), 8), byte_bits(byte))
    }
}

/// One step by table lookup: the register moves by eight bits and the
/// selected table entry is XORed in.
pub open spec fn update_by_table(poly: Seq<bool>, refin: bool, reg: Seq<bool>, byte: u8) -> Seq<
    bool,
> {
    let entry = table_entry(poly, refin, table_index(reg, byte, refin));
    if refin {
        xor(shr(reg, 8), entry)
    } else {
        xor(shl(reg, 8), entry)
    }
}

impl Params {
    /// The width of the algorithm in bits.
    pub open spec fn width(self) -> nat {
        self.poly.len()
    }

    /// The register after one more byte of input.
    pub open spec fn update(self, reg: Seq<bool>, byte: u8) -> Seq<bool> {
        update(self.poly, self.refin, reg, byte)
    }

    /// The register after the bytes of `bytes`, first to last.
    pub open spec fn update_all(self, reg: Seq<bool>, bytes: Seq<u8>) -> Seq<bool> {
        update_all(self.poly, self.refin, reg, bytes)
    }

    /// The checksum that a register stands for: the register, reversed
    /// where `refin` and `refout` differ, XORed with `xorout`.
    pub open spec fn finish(self, reg: Seq<bool>) -> Seq<bool> {
        xor(
            if self.refin != self.refout {
                reverse(reg)
            } else {
                reg
            },
            self.xorout,
        )
    }

    /// The checksum of a whole message.
    pub open spec fn checksum(self, bytes: Seq<u8>) -> Seq<bool> {
        self.finish(self.update_all(self.init, bytes))
    }
}

/// Division keeps the width of the register.
pub proof fn lemma_divide_len(reg: Seq<bool>, poly: Seq<bool>, refin: bool, rounds: nat)
    ensures
        divide(reg, poly, refin, rounds).len() == reg.len(),
    decreases rounds,
{
    if rounds > 0 {
        lemma_divide_len(reg, poly, refin, (rounds - 1) as nat);
    }
}

/// One round of division is linear: it distributes over XOR.
pub proof fn lemma_divide_bit_xor(a: Seq<bool>, b: Seq<bool>, poly: Seq<bool>, refin: bool)
    requires
        0 < poly.len(),
        a.len() == poly.len(),
        b.len() == poly.len(),
    ensures
        divide_bit(xor(a, b), poly, refin) == xor(
            divide_bit(a, poly, refin),
            divide_bit(b, poly, refin),
        ),
{
    assert(divide_bit(xor(a, b), poly, refin) =~= xor(
        divide_bit(a, poly, refin),
        divide_bit(b, poly, refin),
    ));
}

/// Division is linear: it distributes over XOR.
pub proof fn lemma_divide_xor(
    a: Seq<bool>,
    b: Seq<bool>,
    poly: Seq<bool>,
    refin: bool,
    rounds: nat,
)
    requires
        0 < poly.len(),
        a.len() == poly.len(),
        b.len() == poly.len(),
    ensures
        divide(xor(a, b), poly, refin, rounds) == xor(
            divide(a, poly, refin, rounds),
            divide(b, poly, refin, rounds),
        ),
    decreases rounds,
{
    if rounds > 0 {
        let before = (rounds - 1) as nat;
        lemma_divide_xor(a, b, poly, refin, before);
        lemma_divide_len(a, poly, refin, before);
        lemma_divide_len(b, poly, refin, before);
        lemma_divide_bit_xor(
            divide(a, poly, refin, before),
            divide(b, poly, refin, before),
            poly,
            refin,
        );
    }
}

/// Whether the `count` bits of `reg` that leave first are all zero.
pub open spec fn leading_zeros(reg: Seq<bool>, refin: bool, count: nat) -> bool {
    if refin {
        forall|i: int| 0 <= i < count ==> !#[trigger] reg[i]
    } else {
        forall|i: int| reg.len() - count <= i < reg.len() ==> !#[trigger] reg[i]
    }
}

/// The register moved by `count` bits in the direction of the division.
pub open spec fn advance(reg: Seq<bool>, refin: bool, count: nat) -> Seq<bool> {
    if refin {
        shr(reg, count)
    } else {
        shl(reg, count)
    }
}

/// While only zeros leave the register, nothing is subtracted: the division
/// is a shift.
pub proof fn lemma_divide_advances(reg: Seq<bool>, poly: Seq<bool>, refin: bool, rounds: nat)
    requires
        reg.len() == poly.len(),
        rounds <= reg.len(),
        leading_zeros(reg, refin, rounds),
    ensures
        divide(reg, poly, refin, rounds) == advance(reg, refin, rounds),
    decreases rounds,
{
    if rounds == 0 {
        assert(advance(reg, refin, 0) =~= reg);
    } else {
        let before = (rounds - 1) as nat;
        lemma_divide_advances(reg, poly, refin, before);
        let moved = advance(reg, refin, before);
        if refin {
            assert(!reg[before as int]);
            assert(!moved[0]);
        } else {
            assert(!reg[reg.len() - rounds]);
            assert(!moved[moved.len() - 1]);
        }
        assert(divide_bit(moved, poly, refin) =~= advance(reg, refin, rounds));
    }
}

/// A step by table lookup is a step of the division: looking up the byte
/// that leaves the register does what eight rounds, one bit at a time, do.
pub proof fn lemma_update_by_table(poly: Seq<bool>, refin: bool, reg: Seq<bool>, byte: u8)
    requires
        8 <= poly.len(),
        reg.len() == poly.len(),
    ensures
        update(poly, refin, reg, byte) == update_by_table(poly, refin, reg, byte),
{
    let width = poly.len();
    // The register with the byte added splits into the eight bits that
    // leave first and the rest.
    let head = place(table_index(reg, byte, refin), width, refin);
    let rest = if refin {
        Seq::new(width, |i: int| 8 <= i && reg[i])
    } else {
        Seq::new(width, |i: int| i < width - 8 && reg[i])
    };
    assert(xor(reg, place(byte_bits(byte), width, refin)) =~= xor(head, rest));
    lemma_divide_xor(head, rest, poly, refin, 8);
    lemma_divide_advances(rest, poly, refin, 8);
    lemma_divide_len(head, poly, refin, 8);
    assert(advance(rest, refin, 8) =~= advance(reg, refin, 8));
    assert(xor(divide(head, poly, refin, 8), advance(reg, refin, 8)) =~= xor(
        advance(reg, refin, 8),
        divide(head, poly, refin, 8),
    ));
}

/// The table entry for a byte is the step that takes the zero register and
/// that byte.
pub proof fn lemma_table_entry_is_update(poly: Seq<bool>, refin: bool, byte: u8)
    requires
        8 <= poly.len(),
    ensures
        table_entry(poly, refin, byte_bits(byte)) == update(
            poly,
            refin,
            crate::bits::zeros(poly.len()),
            byte,
        ),
{
    let start = place(byte_bits(byte), poly.len(), refin);
    assert(xor(crate::bits::zeros(poly.len()), start) =~= start);
}

/// Feeding a message in two parts is feeding it whole.
pub proof fn lemma_update_all_concat(
    poly: Seq<bool>,
    refin: bool,
    reg: Seq<bool>,
    first: Seq<u8>,
    second: Seq<u8>,
)
    ensures
        update_all(poly, refin, reg, first + second) == update_all(
            poly,
            refin,
            update_all(poly, refin, reg, first),
            second,
        ),
    decreases second.len(),
{
    if second.len() == 0 {
        assert(first + second =~= first);
    } else {
        lemma_update_all_concat(poly, refin, reg, first, second.drop_last());
        assert((first + second).drop_last() =~= first + second.drop_last());
        assert((first + second).last() == second.last());
    }
}

/// The division from the least significant end is the mirror image of the
/// division from the most significant end: one round.
pub proof fn lemma_divide_bit_mirror(reg: Seq<bool>, poly: Seq<bool>)
    requires
        0 < poly.len(),
        reg.len() == poly.len(),
    ensures
        divide_bit(reverse(reg), poly, true) == reverse(divide_bit(reg, poly, false)),
{
    assert(divide_bit(reverse(reg), poly, true) =~= reverse(divide_bit(reg, poly, false)));
}

/// The division from the least significant end is the mirror image of the
/// division from the most significant end.
pub proof fn lemma_divide_mirror(reg: Seq<bool>, poly: Seq<bool>, rounds: nat)
    requires
        0 < poly.len(),
        reg.len() == poly.len(),
    ensures
        divide(reverse(reg), poly, true, rounds) == reverse(divide(reg, poly, false, rounds)),
    decreases rounds,
{
    if rounds > 0 {
        let before = (rounds - 1) as nat;
        lemma_divide_mirror(reg, poly, before);
        lemma_divide_len(reg, poly, false, before);
        lemma_divide_bit_mirror(divide(reg, poly, false, before), poly);
    }
}

/// What `refin` means for the input: a step with `refin` on the mirror
/// image of a register is the mirror image of the step without `refin`
/// that takes the byte with its bits reversed.
pub proof fn lemma_update_mirror(poly: Seq<bool>, reg: Seq<bool>, byte: u8, mirrored: u8)
    requires
        8 <= poly.len(),
        reg.len() == poly.len(),
        byte_bits(mirrored) == reverse(byte_bits(byte)),
    ensures
        update(poly, true, reverse(reg), byte) == reverse(update(poly, false, reg, mirrored)),
{
    let width = poly.len();
    let plain = xor(reg, place(byte_bits(mirrored), width, false));
    assert forall|i: int| 0 <= i < 8 implies byte_bits(byte)[i] == byte_bits(mirrored)[7 - i] by {
        assert(byte_bits(mirrored)[7 - i] == reverse(byte_bits(byte))[7 - i]);
    }
    assert(xor(reverse(reg), place(byte_bits(byte), width, true)) =~= reverse(plain));
    lemma_divide_mirror(plain, poly, 8);
}

/// A step keeps the width of the register.
pub proof fn lemma_update_len(poly: Seq<bool>, refin: bool, reg: Seq<bool>, byte: u8)
    ensures
        update(poly, refin, reg, byte).len() == reg.len(),
{
    lemma_divide_len(xor(reg, place(byte_bits(byte), poly.len(), refin)), poly, refin, 8);
}

/// Any number of steps keeps the width of the register.
pub proof fn lemma_update_all_len(poly: Seq<bool>, refin: bool, reg: Seq<bool>, bytes: Seq<u8>)
    ensures
        update_all(poly, refin, reg, bytes).len() == reg.len(),
    decreases bytes.len(),
{
    if bytes.len() > 0 {
        let before = update_all(poly, refin, reg, bytes.drop_last());
        lemma_update_all_len(poly, refin, reg, bytes.drop_last());
        lemma_update_len(poly, refin, before, bytes.last());
    }
}

/// What `refin` means for a message: with `refin`, the register is at every
/// time the mirror image of the register that the division without `refin`
/// holds when it is given every byte with its bits reversed.
pub proof fn lemma_update_all_mirror(
    poly: Seq<bool>,
    reg: Seq<bool>,
    bytes: Seq<u8>,
    mirrored: Seq<u8>,
)
    requires
        8 <= poly.len(),
        reg.len() == poly.len(),
        mirrored.len() == bytes.len(),
        forall|k: int|
            0 <= k < bytes.len() ==> byte_bits(#[trigger] mirrored[k]) == reverse(
                byte_bits(bytes[k]),
            ),
    ensures
        update_all(poly, true, reverse(reg), bytes) == reverse(
            update_all(poly, false, reg, mirrored),
        ),
    decreases bytes.len(),
{
    if bytes.len() > 0 {
        let before = update_all(poly, false, reg, mirrored.drop_last());
        lemma_update_all_mirror(poly, reg, bytes.drop_last(), mirrored.drop_last());
        lemma_update_all_len(poly, false, reg, mirrored.drop_last());
        lemma_update_mirror(poly, before, bytes.last(), mirrored.last());
    }
}

} // verus!
