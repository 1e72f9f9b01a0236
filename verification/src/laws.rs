//! What holds of every hasher and every parameter set.
//!
//! The statements are made over the same functions as the contracts of
//! `CrcHasher`, `CrcSpec` and `CrcTable`: a hypothesis here is what a call
//! there ensures.

use vstd::prelude::*;
use crate::model::lemma_update_all_concat;
use crate::model::Params;
use crate::primitive::is_table;
use crate::primitive::CrcTable;
use crate::primitive::ValueType;
use crate::CrcHasher;
use crate::CrcSpec;

verus! {

/// Whether `hasher` is as `reset` leaves a hasher: its register holds the
/// initial value.
pub open spec fn is_reset<T: ValueType, H: CrcHasher<T>>(hasher: H) -> bool {
    hasher.register() == hasher.params().init
}

/// Whether `after` is as `update` leaves the hasher `before` when it is
/// given `byte`.
pub open spec fn has_taken_byte<T: ValueType, H: CrcHasher<T>>(
    before: H,
    byte: u8,
    after: H,
) -> bool {
    &&& after.params() == before.params()
    &&& after.register() == before.params().update(before.register(), byte)
}

/// Whether `after` is as `update_from_slice` leaves the hasher `before` when
/// it is given `bytes`.
pub open spec fn has_taken<T: ValueType, H: CrcHasher<T>>(
    before: H,
    bytes: Seq<u8>,
    after: H,
) -> bool {
    &&& after.params() == before.params()
    &&& after.register() == before.params().update_all(before.register(), bytes)
}

/// Whether `checksum` is what `finish` returns of `hasher`.
pub open spec fn is_checksum<T: ValueType, H: CrcHasher<T>>(hasher: H, checksum: T) -> bool {
    checksum.bits() == hasher.params().finish(hasher.register())
}

/// A full run is a function of the parameters and the message: a hasher
/// that starts at the initial value and takes `bytes` gives the checksum
/// `params().checksum(bytes)`, and two such runs with the same parameters
/// give the same checksum, whatever kind of hasher makes them.
pub proof fn lemma_runs_agree<T: ValueType, A: CrcHasher<T>, B: CrcHasher<T>>(
    bytes: Seq<u8>,
    first: A,
    first_fed: A,
    first_checksum: T,
    second: B,
    second_fed: B,
    second_checksum: T,
)
    requires
        first.params() == second.params(),
        is_reset(first),
        is_reset(second),
        has_taken(first, bytes, first_fed),
        has_taken(second, bytes, second_fed),
        is_checksum(first_fed, first_checksum),
        is_checksum(second_fed, second_checksum),
    ensures
        first_checksum.bits() == first.params().checksum(bytes),
        first_checksum == second_checksum,
{
    first_checksum.lemma_bits_injective(second_checksum);
}

/// `finish` may be called any number of times: while the hasher takes no
/// data, it returns the same checksum.
pub proof fn lemma_finish_repeats<T: ValueType, H: CrcHasher<T>>(hasher: H, first: T, second: T)
    requires
        is_checksum(hasher, first),
        is_checksum(hasher, second),
    ensures
        first == second,
{
    first.lemma_bits_injective(second);
}

/// Registers that follow one another by single steps end where all the
/// steps taken at once end.
pub proof fn lemma_steps_are_update_all(params: Params, regs: Seq<Seq<bool>>, bytes: Seq<u8>)
    requires
        regs.len() == bytes.len() + 1,
        forall|k: int|
            0 < k <= bytes.len() ==> #[trigger] regs[k] == params.update(regs[k - 1], bytes[k - 1]),
    ensures
        regs.last() == params.update_all(regs[0], bytes),
    decreases bytes.len(),
{
    if bytes.len() > 0 {
        lemma_steps_are_update_all(params, regs.drop_last(), bytes.drop_last());
    }
}

/// Taking a message byte by byte with `update` leaves the hasher as taking
/// it at once with `update_from_slice` does, and the checksums are the same.
/// `states` are the states of the hasher that takes single bytes, from
/// before the first byte to after the last.
pub proof fn lemma_slice_is_loop<T: ValueType, H: CrcHasher<T>>(
    bytes: Seq<u8>,
    states: Seq<H>,
    at_once: H,
    loop_checksum: T,
    slice_checksum: T,
)
    requires
        states.len() == bytes.len() + 1,
        forall|k: int|
            0 < k <= bytes.len() ==> has_taken_byte(
                states[k - 1],
                bytes[k - 1],
                #[trigger] states[k],
            ),
        has_taken(states[0], bytes, at_once),
        is_checksum(states.last(), loop_checksum),
        is_checksum(at_once, slice_checksum),
    ensures
        states.last().params() == at_once.params(),
        states.last().register() == at_once.register(),
        loop_checksum == slice_checksum,
{
    let params = states[0].params();
    assert forall|k: int| 0 <= k <= bytes.len() implies (#[trigger] states[k]).params()
        == params by {
        lemma_params_stay(bytes, states, k);
    }
    let regs = Seq::new(states.len(), |k: int| states[k].register());
    assert forall|k: int| 0 < k <= bytes.len() implies #[trigger] regs[k] == params.update(
        regs[k - 1],
        bytes[k - 1],
    ) by {
        assert(has_taken_byte(states[k - 1], bytes[k - 1], states[k]));
        assert(states[k - 1].params() == params);
    }
    lemma_steps_are_update_all(params, regs, bytes);
    loop_checksum.lemma_bits_injective(slice_checksum);
}

/// Single steps keep the parameters.
proof fn lemma_params_stay<T: ValueType, H: CrcHasher<T>>(bytes: Seq<u8>, states: Seq<H>, k: int)
    requires
        states.len() == bytes.len() + 1,
        forall|k: int|
            0 < k <= bytes.len() ==> has_taken_byte(
                states[k - 1],
                bytes[k - 1],
                #[trigger] states[k],
            ),
        0 <= k <= bytes.len(),
    ensures
        states[k].params() == states[0].params(),
    decreases k,
{
    if k > 0 {
        lemma_params_stay(bytes, states, k - 1);
        assert(has_taken_byte(states[k - 1], bytes[k - 1], states[k]));
    }
}

/// Taking a message in two parts, one after the other, leaves the hasher
/// as taking it whole does.
pub proof fn lemma_parts_are_whole<T: ValueType, H: CrcHasher<T>>(
    first: Seq<u8>,
    second: Seq<u8>,
    before: H,
    between: H,
    after: H,
)
    requires
        has_taken(before, first, between),
        has_taken(between, second, after),
    ensures
        has_taken(before, first + second, after),
{
    let params = before.params();
    lemma_update_all_concat(params.poly, params.refin, before.register(), first, second);
}

/// After `reset` a hasher does what a new one does: whatever `used` had
/// taken before, once `reset` has left it as `again`, it gives for every
/// message the checksum that the new hasher `new` gives.
pub proof fn lemma_reset_is_new<T: ValueType, A: CrcHasher<T>, B: CrcHasher<T>>(
    bytes: Seq<u8>,
    used: A,
    again: A,
    again_fed: A,
    again_checksum: T,
    new: B,
    new_fed: B,
    new_checksum: T,
)
    requires
        used.params() == new.params(),
        again.params() == used.params(),
        again.register() == used.params().init,
        is_reset(new),
        has_taken(again, bytes, again_fed),
        has_taken(new, bytes, new_fed),
        is_checksum(again_fed, again_checksum),
        is_checksum(new_fed, new_checksum),
    ensures
        again_checksum == new_checksum,
{
    lemma_runs_agree(bytes, again, again_fed, again_checksum, new, new_fed, new_checksum);
}

/// The step of a parameter set depends on its polynomial and on `refin`
/// alone: two parameter sets that agree on these take every register to
/// the same register on every byte, whatever their other parameters are.
pub proof fn lemma_step_ignores_the_rest<T: ValueType>(
    a: CrcTable<T>,
    b: CrcTable<T>,
    value: T,
    byte: u8,
    by_a: T,
    by_b: T,
)
    requires
        a.spec_poly() == b.spec_poly(),
        a.spec_refin() == b.spec_refin(),
        by_a.bits() == a@.update(value.bits(), byte),
        by_b.bits() == b@.update(value.bits(), byte),
    ensures
        by_a == by_b,
{
    by_a.lemma_bits_injective(by_b);
}

/// The lookup table is a function of the polynomial and `refin` alone:
/// two tables for the same two are the same table, entry for entry.
pub proof fn lemma_table_is_unique<T: ValueType>(a: Seq<T>, b: Seq<T>, poly: Seq<bool>, refin: bool)
    requires
        is_table(a, poly, refin),
        is_table(b, poly, refin),
    ensures
        a == b,
{
    assert forall|i: int| 0 <= i < 256 implies a[i] == b[i] by {
        a[i].lemma_bits_injective(b[i]);
    }
    assert(a =~= b);
}

} // verus!
