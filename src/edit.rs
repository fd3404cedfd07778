//! Writing solved values into the class slots, and the whole reset as one
//! all-or-nothing edit of the tree.
use vstd::prelude::*;
use crate::classify::{
    SLOT_COUNT, check_slots, classify, hidden_count, is_hidden, record_fields, slot_is_hidden, slots_error,
};
use crate::error::{Counted, EditError, SlotField};
use crate::navigate::{elements_of, locate_slots, shape_error, slots_field_name, slots_of};
use crate::solver::{
    VISIBLE_PROMOTIONS, VISIBLE_RED_LEVELS, fits_i32, hidden_red_levels, solve,
};
use crate::tree::{
    ArrayBody, Element, Field, Node, get_int, int_of, lemma_position_from_bounds, lemma_set_int, position,
    set_int, set_int_spec,
};

verus! {

/// Name of a slot's promotion count.
pub open spec fn times_retired() -> Seq<char> {
    "TimesRetired"@
}

/// Name of a slot's residual red levels.
pub open spec fn red_levels() -> Seq<char> {
    "RetiredCharacterLevels"@
}

/// The first field that a slot lacks as an integer, if any.
pub open spec fn missing_field(fields: Seq<Field>) -> Option<SlotField> {
    if int_of(fields, times_retired()) is None {
        Some(SlotField::TimesRetired)
    } else if int_of(fields, red_levels()) is None {
        Some(SlotField::RetiredCharacterLevels)
    } else {
        None
    }
}

/// Name of a slot's experience counter, which not every save holds.
pub open spec fn xp() -> Seq<char> {
    "XP"@
}

/// A slot's fields after its promotions and red levels are written, and its
/// experience where `xp` is given and the slot holds it as an integer.
pub open spec fn applied_with_xp(fields: Seq<Field>, promotions: i32, red: i32, xp_value: Option<i32>) -> Seq<Field> {
    if xp_value is Some && int_of(fields, xp()) is Some {
        set_int_spec(applied(fields, promotions, red), xp(), xp_value.unwrap())
    } else {
        applied(fields, promotions, red)
    }
}

/// A slot's fields after its promotions and red levels are written.
pub open spec fn applied(fields: Seq<Field>, promotions: i32, red: i32) -> Seq<Field> {
    set_int_spec(set_int_spec(fields, times_retired(), promotions), red_levels(), red)
}

proof fn lemma_names_differ()
    ensures
        times_retired() != red_levels(),
        times_retired() != "SavegameID"@,
        red_levels() != "SavegameID"@,
        xp() != times_retired(),
        xp() != red_levels(),
{
    reveal_strlit("TimesRetired");
    reveal_strlit("RetiredCharacterLevels");
    reveal_strlit("SavegameID");
    reveal_strlit("XP");
    assert(xp().len() != times_retired().len());
    assert(xp().len() != red_levels().len());
    assert(times_retired().len() != red_levels().len());
    assert(times_retired().len() != "SavegameID"@.len());
    assert(red_levels().len() != "SavegameID"@.len());
}

/// Writing a slot's values keeps its field names, its identifier and the
/// place of each field; it leaves the two fields at the values written, and
/// writing the same values again changes nothing.
pub proof fn lemma_applied(fields: Seq<Field>, promotions: i32, red: i32)
    requires
        missing_field(fields) is None,
    ensures
        applied(fields, promotions, red).len() == fields.len(),
        forall|k: int| 0 <= k < fields.len() ==> (#[trigger] applied(fields, promotions, red)[k]).name == fields[k].name,
        int_of(applied(fields, promotions, red), times_retired()) == Some(promotions),
        int_of(applied(fields, promotions, red), red_levels()) == Some(red),
        crate::tree::guid_of(applied(fields, promotions, red), "SavegameID"@)
            == crate::tree::guid_of(fields, "SavegameID"@),
        applied(applied(fields, promotions, red), promotions, red) == applied(fields, promotions, red),
{
    lemma_names_differ();
    let s1 = set_int_spec(fields, times_retired(), promotions);
    lemma_set_int(fields, times_retired(), promotions, red_levels());
    lemma_set_int(fields, times_retired(), promotions, "SavegameID"@);
    let s2 = set_int_spec(s1, red_levels(), red);
    lemma_set_int(s1, red_levels(), red, times_retired());
    lemma_set_int(s1, red_levels(), red, "SavegameID"@);
    let s3 = set_int_spec(s2, times_retired(), promotions);
    lemma_set_int(s2, times_retired(), promotions, red_levels());
    let s4 = set_int_spec(s3, red_levels(), red);
    lemma_set_int(s3, red_levels(), red, times_retired());
    lemma_position_from_bounds(fields, times_retired(), 0);
    lemma_position_from_bounds(fields, red_levels(), 0);
    assert(position(fields, times_retired()) != position(fields, red_levels()));
    assert(s3 =~= s2);
    assert(s4 =~= s2);
}

/// Writes a slot's promotions and red levels, and its experience where
/// `xp_value` is given and the slot holds an integer `XP`. Fails with
/// `FieldMissing`, naming `slot` and the field, and changes nothing, where
/// the slot lacks promotions or red levels as an integer; no other field is
/// touched.
pub fn apply_slot(fields: &mut Vec<Field>, slot: usize, promotions: i32, red: i32, xp_value: Option<i32>) -> (r: Result<(), EditError>)
    ensures
        match missing_field(old(fields)@) {
            Some(f) => r == Err::<(), EditError>(EditError::FieldMissing { slot, field: f })
                && *final(fields) == *old(fields),
            None => r is Ok && final(fields)@ == applied_with_xp(old(fields)@, promotions, red, xp_value),
        },
{
    if get_int(fields, "TimesRetired").is_none() {
        return Err(EditError::FieldMissing { slot, field: SlotField::TimesRetired });
    }
    if get_int(fields, "RetiredCharacterLevels").is_none() {
        return Err(EditError::FieldMissing { slot, field: SlotField::RetiredCharacterLevels });
    }
    let has_xp = get_int(fields, "XP").is_some();
    proof {
        lemma_names_differ();
        lemma_set_int(fields@, times_retired(), promotions, red_levels());
        lemma_set_int(fields@, times_retired(), promotions, xp());
        lemma_set_int(set_int_spec(fields@, times_retired(), promotions), red_levels(), red, xp());
    }
    set_int(fields, "TimesRetired", promotions);
    set_int(fields, "RetiredCharacterLevels", red);
    if let Some(x) = xp_value {
        if has_xp {
            set_int(fields, "XP", x);
        }
    }
    Ok(())
}

/// The red levels the hidden slot is given for a target blue level.
pub open spec fn hidden_red_for(target: int) -> int {
    hidden_red_levels((SLOT_COUNT - 1) as int, target, VISIBLE_PROMOTIONS as int, VISIBLE_RED_LEVELS as int)
}

/// The `(TimesRetired, RetiredCharacterLevels)` a slot is reset to.
pub open spec fn reset_values(e: Element, hidden_red: i32) -> (i32, i32) {
    if is_hidden(e) {
        (0i32, hidden_red)
    } else {
        (VISIBLE_PROMOTIONS, VISIBLE_RED_LEVELS)
    }
}

/// Index of the first slot at or after `i` that lacks a field the reset
/// writes, or -1.
pub open spec fn first_incomplete_from(slots: Seq<Element>, i: int) -> int
    decreases slots.len() - i,
{
    if i < 0 || i >= slots.len() {
        -1
    } else if missing_field(record_fields(slots[i])) is Some {
        i
    } else {
        first_incomplete_from(slots, i + 1)
    }
}

/// Whether every slot is a list of properties with both fields the reset
/// writes.
pub open spec fn slots_complete(slots: Seq<Element>) -> bool {
    forall|k: int| 0 <= k < slots.len() ==> (#[trigger] slots[k]) is Record
        && missing_field(record_fields(slots[k])) is None
}

/// Why a reset of the slots of a correctly shaped tree fails, checked in
/// this order: slot count and kinds, hidden slot count, missing fields, and
/// the range of the hidden slot's value.
pub open spec fn plan_error(slots: Seq<Element>, target: i32) -> Option<EditError> {
    if slots_error(slots) is Some {
        slots_error(slots)
    } else if hidden_count(slots) != 1 {
        Some(EditError::CountMismatch { counted: Counted::HiddenSlots, expected: 1, found: hidden_count(slots) as usize })
    } else if first_incomplete_from(slots, 0) >= 0 {
        Some(EditError::FieldMissing {
            slot: first_incomplete_from(slots, 0) as usize,
            field: missing_field(record_fields(slots[first_incomplete_from(slots, 0)])).unwrap(),
        })
    } else if !fits_i32(hidden_red_for(target as int)) {
        Some(EditError::OutOfRange)
    } else {
        None
    }
}

/// Why a reset of the tree to `target` fails, if it does.
pub open spec fn reset_error(root: Seq<Field>, target: i32) -> Option<EditError> {
    match shape_error(root) {
        Some(step) => Some(EditError::ShapeMismatch(step)),
        None => plan_error(slots_of(root), target),
    }
}

/// Two slot-array nodes that agree in everything but their elements.
pub open spec fn same_shell(a: Node, b: Node) -> bool {
    match (a, b) {
        (
            Node::Array {
                id: i1,
                array_type: t1,
                body: ArrayBody::Structs { wrapper_type: w1, name: n1, struct_type: s1, id: d1, .. },
            },
            Node::Array {
                id: i2,
                array_type: t2,
                body: ArrayBody::Structs { wrapper_type: w2, name: n2, struct_type: s2, id: d2, .. },
            },
        ) => i1 == i2 && t1 == t2 && w1 == w2 && n1 == n2 && s1 == s2 && d1 == d2,
        _ => false,
    }
}

/// One slot reset: it stays a list of properties, with the values chosen by
/// its hidden-ness written into it.
pub open spec fn slot_reset(before: Element, after: Element, hidden_red: i32) -> bool {
    &&& after is Record
    &&& record_fields(after) == applied(
        record_fields(before),
        reset_values(before, hidden_red).0,
        reset_values(before, hidden_red).1,
    )
}

/// `after` is `before` with every slot reset for `target`, and nothing else
/// changed.
pub open spec fn reset_relation(before: Seq<Field>, after: Seq<Field>, target: i32) -> bool {
    let p = position(before, slots_field_name());
    let old_slots = elements_of(before[p].node);
    let new_slots = elements_of(after[p].node);
    &&& after.len() == before.len()
    &&& forall|i: int| 0 <= i < before.len() && i != p ==> after[i] == before[i]
    &&& after[p].name == before[p].name
    &&& same_shell(before[p].node, after[p].node)
    &&& new_slots.len() == old_slots.len()
    &&& forall|k: int| 0 <= k < old_slots.len() ==> slot_reset(
        #[trigger] old_slots[k],
        new_slots[k],
        hidden_red_for(target as int) as i32,
    )
}

pub proof fn lemma_first_incomplete(slots: Seq<Element>, i: int)
    requires
        0 <= i,
    ensures
        first_incomplete_from(slots, i) == -1 ==> forall|k: int|
            i <= k < slots.len() ==> missing_field(record_fields(#[trigger] slots[k])) is None,
        first_incomplete_from(slots, i) != -1 ==> i <= first_incomplete_from(slots, i) < slots.len()
            && missing_field(record_fields(slots[first_incomplete_from(slots, i)])) is Some,
    decreases slots.len() - i,
{
    if i < slots.len() && missing_field(record_fields(slots[i])) is None {
        lemma_first_incomplete(slots, i + 1);
    }
}

/// Finds the first slot that lacks a field the reset writes.
fn check_fields(slots: &Vec<Element>) -> (r: Result<(), EditError>)
    requires
        forall|k: int| 0 <= k < slots@.len() ==> (#[trigger] slots@[k]) is Record,
    ensures
        first_incomplete_from(slots@, 0) < 0 ==> r is Ok,
        first_incomplete_from(slots@, 0) >= 0 ==> r == Err::<(), EditError>(EditError::FieldMissing {
            slot: first_incomplete_from(slots@, 0) as usize,
            field: missing_field(record_fields(slots@[first_incomplete_from(slots@, 0)])).unwrap(),
        }),
{
    proof {
        lemma_first_incomplete(slots@, 0);
    }
    let mut i: usize = 0;
    while i < slots.len()
        invariant
            i <= slots@.len(),
            forall|k: int| 0 <= k < slots@.len() ==> (#[trigger] slots@[k]) is Record,
            first_incomplete_from(slots@, 0) == first_incomplete_from(slots@, i as int),
        decreases slots@.len() - i,
    {
        if let Element::Record(fields) = &slots[i] {
            if get_int(fields, "TimesRetired").is_none() {
                assert(first_incomplete_from(slots@, i as int) == i as int);
                return Err(EditError::FieldMissing { slot: i, field: SlotField::TimesRetired });
            }
            if get_int(fields, "RetiredCharacterLevels").is_none() {
                assert(first_incomplete_from(slots@, i as int) == i as int);
                return Err(EditError::FieldMissing { slot: i, field: SlotField::RetiredCharacterLevels });
            }
        }
        i = i + 1;
    }
    Ok(())
}

/// Checks every condition of a reset on the slots, before anything is
/// written, and solves for the hidden slot's red levels.
fn plan(slots: &Vec<Element>, target: i32) -> (r: Result<i32, EditError>)
    ensures
        match plan_error(slots@, target) {
            Some(e) => r == Err::<i32, EditError>(e),
            None => r == Ok::<i32, EditError>(hidden_red_for(target as int) as i32)
                && slots_complete(slots@) && hidden_count(slots@) == 1,
        },
{
    proof {
        lemma_first_incomplete(slots@, 0);
    }
    match check_slots(slots) {
        Err(e) => return Err(e),
        Ok(()) => {},
    }
    match classify(slots) {
        Err(e) => return Err(e),
        Ok(_) => {},
    }
    match check_fields(slots) {
        Err(e) => return Err(e),
        Ok(()) => {},
    }
    match solve(SLOT_COUNT - 1, target, VISIBLE_PROMOTIONS, VISIBLE_RED_LEVELS) {
        None => Err(EditError::OutOfRange),
        Some((_, red)) => Ok(red),
    }
}

/// Resets every slot: the hidden one to no promotions and `hidden_red` red
/// levels, the visible ones to the fixed values.
fn reset_slots(slots: &mut Vec<Element>, hidden_red: i32)
    requires
        slots_complete(old(slots)@),
    ensures
        final(slots)@.len() == old(slots)@.len(),
        forall|k: int| 0 <= k < old(slots)@.len() ==> slot_reset(#[trigger] old(slots)@[k], final(slots)@[k], hidden_red),
{
    let ghost before = slots@;
    let mut k: usize = 0;
    while k < slots.len()
        invariant
            k <= slots@.len(),
            slots@.len() == before.len(),
            slots_complete(before),
            forall|j: int| 0 <= j < k ==> slot_reset(#[trigger] before[j], slots@[j], hidden_red),
            forall|j: int| k <= j < before.len() ==> #[trigger] slots@[j] == before[j],
        decreases before.len() - k,
    {
        let hidden = slot_is_hidden(&slots[k]);
        let (promotions, red) = if hidden {
            (0i32, hidden_red)
        } else {
            (VISIBLE_PROMOTIONS, VISIBLE_RED_LEVELS)
        };
        let e = slots.remove(k);
        let e2 = match e {
            Element::Record(mut fields) => {
                let _ = apply_slot(&mut fields, k, promotions, red, None);
                Element::Record(fields)
            },
            other => other,
        };
        slots.insert(k, e2);
        proof {
            assert(slot_reset(before[k as int], slots@[k as int], hidden_red));
        }
        k = k + 1;
    }
}

/// Resets the tree's blue level to `target`: every visible slot gets
/// `VISIBLE_PROMOTIONS` and `VISIBLE_RED_LEVELS`, the hidden slot no
/// promotions and the red levels that make the total exactly three times
/// `target`. Every check runs before anything is written, so on an error
/// the tree is unchanged.
pub fn reset_blue_level(root: &mut Vec<Field>, target: i32) -> (r: Result<(), EditError>)
    ensures
        match reset_error(old(root)@, target) {
            Some(e) => r == Err::<(), EditError>(e) && *final(root) == *old(root),
            None => r is Ok && reset_relation(old(root)@, final(root)@, target),
        },
{
    let p = match locate_slots(root) {
        Ok(p) => p,
        Err(e) => return Err(e),
    };
    assert(shape_error(root@) is None);
    assert(p as int == position(root@, slots_field_name()));
    let hidden_red = match &root[p].node {
        Node::Array { body: ArrayBody::Structs { elements, .. }, .. } => match plan(elements, target) {
            Err(e) => {
                assert(elements@ == slots_of(root@));
                return Err(e);
            },
            Ok(v) => v,
        },
        _ => return Err(EditError::OutOfRange),
    };
    let ghost before = root@;
    let field = root.remove(p);
    let Field { name, node } = field;
    let node2 = match node {
        Node::Array {
            id,
            array_type,
            body: ArrayBody::Structs { wrapper_type, name: wrapper_name, struct_type, id: body_id, mut elements },
        } => {
            reset_slots(&mut elements, hidden_red);
            Node::Array {
                id,
                array_type,
                body: ArrayBody::Structs { wrapper_type, name: wrapper_name, struct_type, id: body_id, elements },
            }
        },
        other => other,
    };
    root.insert(p, Field { name, node: node2 });
    proof {
        assert(root@ =~= before.update(p as int, root@[p as int]));
    }
    Ok(())
}

} // verus!
