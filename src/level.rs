//! Reading the blue level that a tree's class slots imply.
use vstd::prelude::*;
use crate::classify::record_fields;
use crate::edit::{missing_field, red_levels, slots_complete, times_retired};
use crate::navigate::{locate_slots, shape_error, slots_of};
use crate::solver::{blue_of, slot_red_total};
use crate::tree::{ArrayBody, Element, Field, Node, get_int, int_of};

verus! {

/// The red-level total of one complete slot.
pub open spec fn slot_total(e: Element) -> int {
    slot_red_total(
        int_of(record_fields(e), times_retired()).unwrap() as int,
        int_of(record_fields(e), red_levels()).unwrap() as int,
    )
}

/// The red-level total of all slots.
pub open spec fn red_total(slots: Seq<Element>) -> int
    decreases slots.len(),
{
    if slots.len() == 0 {
        0
    } else {
        red_total(slots.drop_last()) + slot_total(slots.last())
    }
}

/// The blue level of a tree: its slots' red-level total over three, rounded
/// down; `None` where the path to the slots has the wrong shape or a slot
/// lacks one of the two fields.
pub open spec fn blue_level_of(root: Seq<Field>) -> Option<int> {
    if shape_error(root) is None && slots_complete(slots_of(root)) {
        Some(blue_of(red_total(slots_of(root))))
    } else {
        None
    }
}

/// Bound on the red-level total of one slot.
pub open spec fn slot_total_bound() -> int {
    0x40_0000_0000
}

proof fn lemma_floor_third(t: int)
    requires
        t < 0,
    ensures
        t / 3 == -((-t + 2) / 3),
{
    let m = -t;
    let q = (m + 2) / 3;
    let r = (m + 2) % 3;
    assert(m + 2 == 3 * q + r && 0 <= r < 3);
    assert(t == 3 * (-q) + (2 - r));
    assert(0 <= 2 - r < 3);
    vstd::arithmetic::div_mod::lemma_fundamental_div_mod_converse(t, 3, -q, 2 - r);
}

/// The blue level that a tree's slots imply, as `blue_level_of` gives it.
pub fn blue_level(root: &Vec<Field>) -> (r: Option<i128>)
    ensures
        match blue_level_of(root@) {
            Some(b) => r == Some(b as i128),
            None => r is None,
        },
{
    let p = match locate_slots(root) {
        Ok(p) => p,
        Err(_) => return None,
    };
    let slots = match &root[p].node {
        Node::Array { body: ArrayBody::Structs { elements, .. }, .. } => elements,
        _ => return None,
    };
    assert(slots@ == slots_of(root@));
    let mut total: i128 = 0;
    let mut k: usize = 0;
    while k < slots.len()
        invariant
            k <= slots@.len(),
            shape_error(root@) is None,
            slots@ == slots_of(root@),
            forall|j: int| 0 <= j < k ==> (#[trigger] slots@[j]) is Record
                && missing_field(record_fields(slots@[j])) is None,
            total == red_total(slots@.take(k as int)),
            -(k as int) * slot_total_bound() <= total <= (k as int) * slot_total_bound(),
        decreases slots@.len() - k,
    {
        proof {
            assert(slots@.take(k as int + 1).drop_last() =~= slots@.take(k as int));
        }
        let fields = match &slots[k] {
            Element::Record(fields) => fields,
            Element::Other(_) => {
                assert(!(slots@[k as int] is Record));
                return None;
            },
        };
        let promotions = match get_int(fields, "TimesRetired") {
            Some(v) => v,
            None => {
                assert(missing_field(record_fields(slots@[k as int])) is Some);
                return None;
            },
        };
        let red = match get_int(fields, "RetiredCharacterLevels") {
            Some(v) => v,
            None => {
                assert(missing_field(record_fields(slots@[k as int])) is Some);
                return None;
            },
        };
        assert(k < 0x1_0000_0000_0000_0000int);
        assert((k as int + 1) * slot_total_bound() == k as int * slot_total_bound() + slot_total_bound())
            by (nonlinear_arith);
        total = total + 25 * (promotions as i128) + (red as i128);
        k = k + 1;
    }
    proof {
        assert(slots@.take(k as int) =~= slots@);
    }
    if total >= 0 {
        Some(total / 3)
    } else {
        proof {
            lemma_floor_third(total as int);
        }
        Some(-((-total + 2) / 3))
    }
}

} // verus!
