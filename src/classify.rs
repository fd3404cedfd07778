//! Telling the hidden class slot from the visible ones.
use vstd::prelude::*;
use crate::error::{Counted, EditError, PathStep};
use crate::tree::{guid_of, get_guid, Element, Field};

verus! {

/// Identifier of the slot that belongs to no playable class but still counts
/// towards the blue level: `d6d5686e-4547-e66f-46c5-ce8e28b16827`.
pub const HIDDEN_SLOT_ID: u128 = 0xd6d5686e_4547_e66f_46c5_ce8e28b16827u128;

/// Number of class slots in a save: the visible classes and the hidden slot.
pub const SLOT_COUNT: usize = 5;

/// The fields of a slot that is a list of properties; empty for any other.
pub open spec fn record_fields(e: Element) -> Seq<Field> {
    match e {
        Element::Record(fields) => fields@,
        Element::Other(_) => Seq::empty(),
    }
}

/// Whether a slot carries the hidden slot's identifier in `SavegameID`.
pub open spec fn is_hidden(e: Element) -> bool {
    e is Record && guid_of(record_fields(e), "SavegameID"@) == Some(HIDDEN_SLOT_ID)
}

/// How many slots carry the hidden slot's identifier.
pub open spec fn hidden_count(slots: Seq<Element>) -> nat
    decreases slots.len(),
{
    if slots.len() == 0 {
        0
    } else {
        hidden_count(slots.drop_last()) + if is_hidden(slots.last()) {
            1nat
        } else {
            0nat
        }
    }
}

/// Index of the first slot at or after `i` that is not a list of properties,
/// or -1.
pub open spec fn first_non_record_from(slots: Seq<Element>, i: int) -> int
    decreases slots.len() - i,
{
    if i < 0 || i >= slots.len() {
        -1
    } else if slots[i] is Other {
        i
    } else {
        first_non_record_from(slots, i + 1)
    }
}

/// The count or shape error of a slot array, checked in that order.
pub open spec fn slots_error(slots: Seq<Element>) -> Option<EditError> {
    if slots.len() != SLOT_COUNT {
        Some(EditError::CountMismatch { counted: Counted::Slots, expected: SLOT_COUNT, found: slots.len() as usize })
    } else if first_non_record_from(slots, 0) >= 0 {
        Some(EditError::ShapeMismatch(PathStep::Slot(first_non_record_from(slots, 0) as usize)))
    } else {
        None
    }
}

pub proof fn lemma_first_non_record(slots: Seq<Element>, i: int)
    requires
        0 <= i,
    ensures
        first_non_record_from(slots, i) == -1 ==> forall|k: int| i <= k < slots.len() ==> slots[k] is Record,
        first_non_record_from(slots, i) != -1 ==> i <= first_non_record_from(slots, i) < slots.len()
            && slots[first_non_record_from(slots, i)] is Other,
    decreases slots.len() - i,
{
    if i < slots.len() && slots[i] is Record {
        lemma_first_non_record(slots, i + 1);
    }
}

/// Checks that there are `SLOT_COUNT` slots and that each is a list of properties.
pub fn check_slots(slots: &Vec<Element>) -> (r: Result<(), EditError>)
    ensures
        match slots_error(slots@) {
            None => r is Ok && forall|k: int| 0 <= k < slots@.len() ==> (#[trigger] slots@[k]) is Record,
            Some(e) => r == Err::<(), EditError>(e),
        },
{
    proof {
        lemma_first_non_record(slots@, 0);
    }
    if slots.len() != SLOT_COUNT {
        return Err(EditError::CountMismatch { counted: Counted::Slots, expected: SLOT_COUNT, found: slots.len() });
    }
    let mut i: usize = 0;
    while i < slots.len()
        invariant
            i <= slots@.len(),
            slots@.len() == SLOT_COUNT,
            first_non_record_from(slots@, 0) == first_non_record_from(slots@, i as int),
        decreases slots@.len() - i,
    {
        if let Element::Other(_) = &slots[i] {
            assert(first_non_record_from(slots@, i as int) == i as int);
            return Err(EditError::ShapeMismatch(PathStep::Slot(i)));
        }
        i = i + 1;
    }
    Ok(())
}

/// Whether one slot is the hidden slot.
pub fn slot_is_hidden(e: &Element) -> (r: bool)
    ensures
        r == is_hidden(*e),
{
    match e {
        Element::Record(fields) => get_guid(fields, "SavegameID") == Some(HIDDEN_SLOT_ID),
        Element::Other(_) => false,
    }
}

/// Partitions the slots: the index of the one hidden slot, every other slot
/// being visible. Fails, having changed nothing, unless exactly one slot
/// carries the hidden identifier.
pub fn classify(slots: &Vec<Element>) -> (r: Result<usize, EditError>)
    ensures
        r is Ok <==> hidden_count(slots@) == 1,
        match r {
            Ok(h) => h < slots@.len() && is_hidden(slots@[h as int])
                && forall|k: int| 0 <= k < slots@.len() && k != h ==> !is_hidden(#[trigger] slots@[k]),
            Err(e) => e == EditError::CountMismatch {
                counted: Counted::HiddenSlots,
                expected: 1,
                found: hidden_count(slots@) as usize,
            },
        },
{
    let mut count: usize = 0;
    let mut hidden: usize = 0;
    let mut i: usize = 0;
    while i < slots.len()
        invariant
            i <= slots@.len(),
            count == hidden_count(slots@.take(i as int)),
            count <= i,
            count == 0 ==> forall|k: int| 0 <= k < i ==> !is_hidden(#[trigger] slots@[k]),
            count >= 1 ==> hidden < i && is_hidden(slots@[hidden as int]),
            count == 1 ==> forall|k: int| 0 <= k < i && k != hidden ==> !is_hidden(#[trigger] slots@[k]),
        decreases slots@.len() - i,
    {
        proof {
            assert(slots@.take(i as int + 1).drop_last() =~= slots@.take(i as int));
        }
        if slot_is_hidden(&slots[i]) {
            if count == 0 {
                hidden = i;
            }
            count = count + 1;
        }
        i = i + 1;
    }
    proof {
        assert(slots@.take(i as int) =~= slots@);
    }
    if count == 1 {
        Ok(hidden)
    } else {
        Err(EditError::CountMismatch { counted: Counted::HiddenSlots, expected: 1, found: count })
    }
}

} // verus!
