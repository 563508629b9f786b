//! Collects the outcomes of decoding, slice by slice, in slice order.
//!
//! Slices may be decoded in any order and on any number of workers. Each
//! outcome is put into the slot of its own slice, so the sequence that comes
//! out is aligned with the order of the slice files whatever the order of
//! arrival. One failed slice fails the batch: the failure reported is that of
//! the first failed slice in slice order, and no slice is handed on.

use vstd::prelude::*;
use crate::decoder::{container_outcome, decode_slice};
use crate::error::{DecodeFault, ErrorKind, PipelineError};
use crate::slice::{DecodedSlice, Grid};

verus! {

/// Slice `index` is the first that failed to decode.
pub open spec fn first_fault(
    outcomes: Seq<Result<DecodedSlice, DecodeFault>>,
    index: int,
) -> bool {
    &&& 0 <= index < outcomes.len()
    &&& outcomes[index] is Err
    &&& forall|i: int| 0 <= i < index ==> (#[trigger] outcomes[i]) is Ok
}

/// Every slice was decoded, and `slices` are the decoded slices in order.
pub open spec fn all_decoded(
    outcomes: Seq<Result<DecodedSlice, DecodeFault>>,
    slices: Seq<DecodedSlice>,
) -> bool {
    &&& slices.len() == outcomes.len()
    &&& forall|i: int| 0 <= i < outcomes.len() ==> #[trigger] outcomes[i] == Ok::<
        DecodedSlice,
        DecodeFault,
    >(slices[i])
}

/// The failure `e` is that of the first slice that failed to decode, and it
/// names that slice.
pub open spec fn batch_failure(
    outcomes: Seq<Result<DecodedSlice, DecodeFault>>,
    e: PipelineError,
) -> bool {
    &&& e.place() matches Some(index)
    &&& first_fault(outcomes, index as int)
    &&& outcomes[index as int] matches Err(fault)
    &&& e == fault.at(index)
}

/// Turns the outcomes of a batch, given in slice order, into the sequence of
/// decoded slices, or into the failure of the first slice that failed.
pub fn gather(outcomes: Vec<Result<DecodedSlice, DecodeFault>>) -> (r: Result<
    Vec<DecodedSlice>,
    PipelineError,
>)
    ensures
        r is Ok <==> forall|i: int| 0 <= i < outcomes.len() ==> (#[trigger] outcomes[i]) is Ok,
        r matches Ok(slices) ==> all_decoded(outcomes@, slices@),
        r matches Err(e) ==> batch_failure(outcomes@, e),
{
    let ghost given = outcomes@;
    let count = outcomes.len();
    let mut slices: Vec<DecodedSlice> = Vec::new();
    let mut index: usize = 0;
    for outcome in it: outcomes
        invariant
            index == it.index(),
            it.seq() == given,
            given.len() == count,
            slices.len() == index,
            forall|i: int| 0 <= i < index ==> #[trigger] given[i] == Ok::<
                DecodedSlice,
                DecodeFault,
            >(slices[i]),
    {
        match outcome {
            Ok(slice) => {
                slices.push(slice);
            },
            Err(fault) => {
                assert(first_fault(given, index as int));
                return Err(fault.at(index));
            },
        }
        index += 1;
    }
    Ok(slices)
}

/// The failure of a batch is a function of its outcomes.
pub proof fn lemma_batch_failure_is_determined(
    outcomes: Seq<Result<DecodedSlice, DecodeFault>>,
    a: PipelineError,
    b: PipelineError,
)
    requires
        batch_failure(outcomes, a),
        batch_failure(outcomes, b),
    ensures
        a == b,
{
}

/// The decoded slices of a batch are a function of its outcomes.
pub proof fn lemma_decoded_is_determined(
    outcomes: Seq<Result<DecodedSlice, DecodeFault>>,
    a: Seq<DecodedSlice>,
    b: Seq<DecodedSlice>,
)
    requires
        all_decoded(outcomes, a),
        all_decoded(outcomes, b),
    ensures
        a == b,
{
    assert forall|i: int| 0 <= i < a.len() implies a[i] == b[i] by {
        assert(outcomes[i] == Ok::<DecodedSlice, DecodeFault>(a[i]));
        assert(outcomes[i] == Ok::<DecodedSlice, DecodeFault>(b[i]));
    }
    assert(a =~= b);
}

/// Where exactly one slice failed to decode, the failure of the batch names
/// that slice.
pub proof fn lemma_single_fault_is_named(
    outcomes: Seq<Result<DecodedSlice, DecodeFault>>,
    failed: int,
    e: PipelineError,
)
    requires
        0 <= failed < outcomes.len(),
        outcomes[failed] is Err,
        forall|i: int| 0 <= i < outcomes.len() && i != failed ==> (#[trigger] outcomes[i]) is Ok,
        batch_failure(outcomes, e),
    ensures
        e.place() == Some(failed as usize),
        outcomes[failed] matches Err(fault) && e == fault.at(failed as usize),
{
}

/// The failure `e` is that of a slice of a batch of `count` slices that could
/// not be decoded.
pub open spec fn decode_failure(count: nat, e: PipelineError) -> bool {
    &&& e.place() matches Some(index)
    &&& index < count
    &&& (e.kind() == ErrorKind::Decode || e.kind() == ErrorKind::UnsupportedEncoding || e.kind()
        == ErrorKind::Conversion)
}

/// Every container decodes, and `slices` are what they decode to, in order.
pub open spec fn all_decode(containers: Seq<Vec<u8>>, slices: Seq<DecodedSlice>) -> bool {
    &&& slices.len() == containers.len()
    &&& forall|i: int|
        0 <= i < containers.len() ==> container_outcome(containers[i]@) == Ok::<
            Grid,
            DecodeFault,
        >((#[trigger] slices[i])@)
}

/// The failure `e` is that of the first container that does not decode, and
/// it names that container.
pub open spec fn first_decode_failure(containers: Seq<Vec<u8>>, e: PipelineError) -> bool {
    &&& e.place() matches Some(index)
    &&& index < containers.len()
    &&& container_outcome(containers[index as int]@) matches Err(fault)
    &&& e == fault.at(index)
    &&& forall|j: int| 0 <= j < index ==> container_outcome((#[trigger] containers[j])@) is Ok
}

/// Decodes the containers one after the other, in their order, and stops at
/// the first that fails: the batch then fails with the failure of that slice.
/// Otherwise there is one decoded slice for each container, in the same
/// order.
pub fn decode_all(containers: &Vec<Vec<u8>>) -> (r: Result<Vec<DecodedSlice>, PipelineError>)
    ensures
        r matches Ok(slices) ==> all_decode(containers@, slices@),
        r matches Ok(slices) ==> forall|i: int|
            0 <= i < slices.len() ==> (#[trigger] slices[i])@.filled(),
        r matches Err(e) ==> first_decode_failure(containers@, e),
        r matches Err(e) ==> decode_failure(containers.len() as nat, e),
{
    let mut slices: Vec<DecodedSlice> = Vec::new();
    let mut index: usize = 0;
    while index < containers.len()
        invariant
            index <= containers.len(),
            slices.len() == index,
            forall|i: int|
                0 <= i < index ==> container_outcome(containers[i]@) == Ok::<Grid, DecodeFault>(
                    (#[trigger] slices[i])@,
                ),
            forall|i: int| 0 <= i < index ==> container_outcome((#[trigger] containers[i])@) is Ok,
            forall|i: int| 0 <= i < index ==> (#[trigger] slices[i])@.filled(),
        decreases containers.len() - index,
    {
        match decode_slice(containers[index].as_slice()) {
            Ok(slice) => {
                slices.push(slice);
            },
            Err(fault) => {
                return Err(fault.at(index));
            },
        }
        index += 1;
    }
    Ok(slices)
}

/// The slots of a board for `count` slices, all of them empty.
pub open spec fn empty_slots(count: nat) -> Seq<Option<Result<DecodedSlice, DecodeFault>>> {
    Seq::new(count, |i: int| None)
}

/// The slots after the outcome for slice `index` has arrived: it fills the
/// slot of that slice if there is such a slot and it is empty, and changes
/// nothing otherwise.
pub open spec fn slots_after(
    slots: Seq<Option<Result<DecodedSlice, DecodeFault>>>,
    index: usize,
    outcome: Result<DecodedSlice, DecodeFault>,
) -> Seq<Option<Result<DecodedSlice, DecodeFault>>> {
    if index < slots.len() && slots[index as int] is None {
        slots.update(index as int, Some(outcome))
    } else {
        slots
    }
}

/// The slots after the outcomes have arrived one after the other, each with
/// the position of its slice.
pub open spec fn slots_after_all(
    slots: Seq<Option<Result<DecodedSlice, DecodeFault>>>,
    arrivals: Seq<(usize, Result<DecodedSlice, DecodeFault>)>,
) -> Seq<Option<Result<DecodedSlice, DecodeFault>>>
    decreases arrivals.len(),
{
    if arrivals.len() == 0 {
        slots
    } else {
        slots_after(
            slots_after_all(slots, arrivals.drop_last()),
            arrivals.last().0,
            arrivals.last().1,
        )
    }
}

/// The order of arrival does not matter: after the outcomes of different
/// slices have arrived on an empty board, in whatever order, the slot of each
/// of these slices holds the outcome that arrived for it, and every other
/// slot is empty.
pub proof fn lemma_arrival_order_is_immaterial(
    count: nat,
    arrivals: Seq<(usize, Result<DecodedSlice, DecodeFault>)>,
)
    requires
        forall|k: int| 0 <= k < arrivals.len() ==> (#[trigger] arrivals[k]).0 < count,
        forall|k: int, l: int|
            0 <= k < l < arrivals.len() ==> (#[trigger] arrivals[k]).0 != (#[trigger] arrivals[l]).0,
    ensures
        slots_after_all(empty_slots(count), arrivals).len() == count,
        forall|k: int|
            0 <= k < arrivals.len() ==> slots_after_all(empty_slots(count), arrivals)[(
            #[trigger] arrivals[k]).0 as int] == Some(arrivals[k].1),
        forall|i: int|
            0 <= i < count && (forall|k: int|
                0 <= k < arrivals.len() ==> (#[trigger] arrivals[k]).0 != i) ==> (
            #[trigger] slots_after_all(empty_slots(count), arrivals)[i]) is None,
    decreases arrivals.len(),
{
    if arrivals.len() > 0 {
        let earlier = arrivals.drop_last();
        let last = arrivals.last();
        assert forall|k: int| 0 <= k < earlier.len() implies (#[trigger] earlier[k]).0 < count by {
            assert(earlier[k] == arrivals[k]);
        }
        assert forall|k: int, l: int| 0 <= k < l < earlier.len() implies (#[trigger] earlier[k]).0
            != (#[trigger] earlier[l]).0 by {
            assert(earlier[k] == arrivals[k]);
            assert(earlier[l] == arrivals[l]);
        }
        lemma_arrival_order_is_immaterial(count, earlier);
        let before = slots_after_all(empty_slots(count), earlier);
        let after = slots_after_all(empty_slots(count), arrivals);
        assert(last == arrivals[arrivals.len() - 1]);
        assert(before[last.0 as int] is None) by {
            assert forall|k: int| 0 <= k < earlier.len() implies (#[trigger] earlier[k]).0
                != last.0 by {
                assert(earlier[k] == arrivals[k]);
            }
        }
        assert(after == before.update(last.0 as int, Some(last.1)));
        assert forall|k: int| 0 <= k < arrivals.len() implies after[(#[trigger] arrivals[k]).0 as int]
            == Some(arrivals[k].1) by {
            if k < earlier.len() {
                assert(earlier[k] == arrivals[k]);
                assert(before[earlier[k].0 as int] == Some(earlier[k].1));
            }
        }
        assert forall|i: int|
            0 <= i < count && (forall|k: int|
                0 <= k < arrivals.len() ==> (#[trigger] arrivals[k]).0 != i) implies (
        #[trigger] after[i]) is None by {
            assert(last.0 != i);
            assert forall|k: int| 0 <= k < earlier.len() implies (#[trigger] earlier[k]).0
                != i by {
                assert(earlier[k] == arrivals[k]);
            }
            assert(before[i] is None);
        }
    }
}

/// A board with one slot for each slice of a batch. The slots are there from
/// the start, and an outcome goes into the slot of its own slice.
#[derive(Debug)]
pub struct DecodeBoard {
    slots: Vec<Option<Result<DecodedSlice, DecodeFault>>>,
}

impl View for DecodeBoard {
    type V = Seq<Option<Result<DecodedSlice, DecodeFault>>>;

    closed spec fn view(&self) -> Seq<Option<Result<DecodedSlice, DecodeFault>>> {
        self.slots@
    }
}

/// No slot is empty.
pub open spec fn complete(slots: Seq<Option<Result<DecodedSlice, DecodeFault>>>) -> bool {
    forall|i: int| 0 <= i < slots.len() ==> (#[trigger] slots[i]) is Some
}

/// What the slots hold, where none is empty.
pub open spec fn outcomes_of(slots: Seq<Option<Result<DecodedSlice, DecodeFault>>>) -> Seq<
    Result<DecodedSlice, DecodeFault>,
> {
    Seq::new(slots.len(), |i: int| slots[i]->0)
}

impl DecodeBoard {
    /// A board for `count` slices, with every slot empty.
    pub fn new(count: usize) -> (board: DecodeBoard)
        ensures
            board@ == empty_slots(count as nat),
    {
        let mut slots: Vec<Option<Result<DecodedSlice, DecodeFault>>> = Vec::new();
        let mut i: usize = 0;
        while i < count
            invariant
                i <= count,
                slots@ == empty_slots(i as nat),
            decreases count - i,
        {
            slots.push(None);
            assert(slots@ =~= empty_slots((i + 1) as nat));
            i += 1;
        }
        DecodeBoard { slots }
    }

    /// The number of slots.
    pub fn len(&self) -> (count: usize)
        ensures
            count == self@.len(),
    {
        self.slots.len()
    }

    /// Whether there is a slot for slice `index` and it is empty.
    pub fn is_vacant(&self, index: usize) -> (r: bool)
        ensures
            r <==> index < self@.len() && self@[index as int] is None,
    {
        index < self.slots.len() && self.slots[index].is_none()
    }

    /// Puts the outcome for slice `index` into its slot. It says whether it
    /// did: an outcome for a slice that the batch does not have, or for a
    /// slice whose outcome is there already, is dropped and changes nothing.
    pub fn place(&mut self, index: usize, outcome: Result<DecodedSlice, DecodeFault>) -> (placed:
        bool)
        ensures
            placed <==> index < old(self)@.len() && old(self)@[index as int] is None,
            final(self)@ == slots_after(old(self)@, index, outcome),
    {
        if index < self.slots.len() && self.slots[index].is_none() {
            self.slots[index] = Some(outcome);
            true
        } else {
            false
        }
    }

    /// Whether the outcome of every slice has arrived.
    pub fn is_complete(&self) -> (r: bool)
        ensures
            r <==> complete(self@),
    {
        let mut i: usize = 0;
        while i < self.slots.len()
            invariant
                i <= self.slots.len(),
                forall|j: int| 0 <= j < i ==> (#[trigger] self.slots@[j]) is Some,
            decreases self.slots.len() - i,
        {
            if self.slots[i].is_none() {
                return false;
            }
            i += 1;
        }
        true
    }

    /// Ends the batch. Before every outcome has arrived there is no result.
    /// After that the result is the sequence of decoded slices in slice order,
    /// or the failure of the first slice that failed.
    pub fn finish(self) -> (r: Option<Result<Vec<DecodedSlice>, PipelineError>>)
        ensures
            r is Some <==> complete(self@),
            r matches Some(Ok(slices)) ==> all_decoded(outcomes_of(self@), slices@),
            r matches Some(Err(e)) ==> batch_failure(outcomes_of(self@), e),
            r matches Some(batch) ==> (batch is Ok <==> forall|i: int|
                0 <= i < self@.len() ==> (#[trigger] self@[i]) matches Some(Ok(_))),
    {
        if !self.is_complete() {
            return None;
        }
        let ghost given = self.slots@;
        let count = self.slots.len();
        let mut outcomes: Vec<Result<DecodedSlice, DecodeFault>> = Vec::new();
        for slot in it: self.slots
            invariant
                it.seq() == given,
                given.len() == count,
                complete(given),
                outcomes@ == outcomes_of(given.take(it.index() as int)),
        {
            proof {
                let i = it.index() as int;
                assert(given[i] is Some);
                assert(given.take(i + 1) =~= given.take(i).push(given[i]));
            }
            match slot {
                Some(outcome) => {
                    outcomes.push(outcome);
                    assert(outcomes@ =~= outcomes_of(given.take(it.index() + 1)));
                },
                None => {
                    assert(false);
                },
            }
        }
        assert(given.take(given.len() as int) =~= given);
        let batch = gather(outcomes);
        proof {
            let all = outcomes_of(given);
            if forall|i: int| 0 <= i < given.len() ==> (#[trigger] given[i]) matches Some(Ok(_)) {
                assert forall|i: int| 0 <= i < all.len() implies (#[trigger] all[i]) is Ok by {
                    assert(given[i] matches Some(Ok(_)));
                }
            }
            if batch is Ok {
                assert forall|i: int| 0 <= i < given.len() implies (
                #[trigger] given[i]) matches Some(Ok(_)) by {
                    assert(all[i] is Ok);
                    assert(given[i] is Some);
                }
            }
        }
        Some(batch)
    }
}

} // verus!
