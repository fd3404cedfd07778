//! What holds of a reset as a whole.
use vstd::prelude::*;
use crate::classify::{
    SLOT_COUNT, hidden_count, is_hidden, lemma_first_non_record, record_fields,
    slots_error,
};
use crate::edit::{
    applied, hidden_red_for, lemma_applied, lemma_first_incomplete, missing_field,
    plan_error, reset_error, reset_relation, reset_values, same_shell, slot_reset, slots_complete,
};
use crate::error::{Counted, EditError, PathStep};
use crate::level::{blue_level_of, red_total, slot_total};
use crate::navigate::{elements_of, node_shape, shape_error, slots_field_name, slots_of};
use crate::solver::{
    VISIBLE_PROMOTIONS, VISIBLE_RED_LEVELS, lemma_solution_reaches_target, slot_red_total,
};
use crate::tree::{ArrayBody, Field, Node, StructTag, lemma_position_same_names, position};

verus! {

/// Two trees that agree everywhere but in the slots' fields, whose field lists
/// are equal too: they hold the same values.
pub open spec fn same_values(a: Seq<Field>, b: Seq<Field>) -> bool {
    let p = position(a, slots_field_name());
    let sa = elements_of(a[p].node);
    let sb = elements_of(b[p].node);
    &&& b.len() == a.len()
    &&& forall|i: int| 0 <= i < a.len() && i != p ==> b[i] == a[i]
    &&& b[p].name == a[p].name
    &&& same_shell(a[p].node, b[p].node)
    &&& sb.len() == sa.len()
    &&& forall|k: int| 0 <= k < sa.len() ==> (#[trigger] sb[k]) is Record
        && record_fields(sb[k]) == record_fields(sa[k])
}

proof fn lemma_hidden_count_same(a: Seq<crate::tree::Element>, b: Seq<crate::tree::Element>)
    requires
        a.len() == b.len(),
        forall|k: int| 0 <= k < a.len() ==> is_hidden(#[trigger] a[k]) == is_hidden(b[k]),
    ensures
        hidden_count(a) == hidden_count(b),
    decreases a.len(),
{
    if a.len() > 0 {
        lemma_hidden_count_same(a.drop_last(), b.drop_last());
    }
}

proof fn lemma_red_total_split(
    before: Seq<crate::tree::Element>,
    after: Seq<crate::tree::Element>,
    visible: int,
    hidden: int,
)
    requires
        before.len() == after.len(),
        forall|k: int| 0 <= k < before.len() ==> slot_total(#[trigger] after[k]) == if is_hidden(before[k]) {
            hidden
        } else {
            visible
        },
    ensures
        red_total(after) == (before.len() - hidden_count(before)) * visible + hidden_count(before) * hidden,
    decreases before.len(),
{
    if before.len() > 0 {
        let n = before.len() as int;
        lemma_red_total_split(before.drop_last(), after.drop_last(), visible, hidden);
        let c = hidden_count(before.drop_last()) as int;
        let rest = red_total(after.drop_last());
        assert(rest == (n - 1 - c) * visible + c * hidden);
        assert(red_total(after) == rest + slot_total(after[n - 1]));
        if is_hidden(before[n - 1]) {
            assert(hidden_count(before) == c + 1);
            assert((c + 1) * hidden == c * hidden + hidden) by (nonlinear_arith);
            assert((n - (c + 1)) * visible == (n - 1 - c) * visible) by (nonlinear_arith);
            assert(slot_total(after[n - 1]) == hidden);
            assert(red_total(after) == (n - (c + 1)) * visible + (c + 1) * hidden);
        } else {
            assert(hidden_count(before) == c);
            assert((n - c) * visible == (n - 1 - c) * visible + visible) by (nonlinear_arith);
            assert(slot_total(after[n - 1]) == visible);
            assert(red_total(after) == (n - c) * visible + c * hidden);
        }
    } else {
        assert(0 * visible == 0 && 0 * hidden == 0) by (nonlinear_arith);
    }
}

/// What a successful reset leaves: the path to the slots keeps its shape,
/// each slot is complete, keeps its hidden-ness and carries the values it
/// was reset to.
proof fn lemma_reset_result(before: Seq<Field>, after: Seq<Field>, target: i32)
    requires
        reset_error(before, target) is None,
        reset_relation(before, after, target),
    ensures
        position(after, slots_field_name()) == position(before, slots_field_name()),
        shape_error(after) is None,
        slots_of(after).len() == slots_of(before).len(),
        forall|k: int| 0 <= k < slots_of(before).len() ==> {
            &&& is_hidden(#[trigger] slots_of(after)[k]) == is_hidden(slots_of(before)[k])
            &&& slots_of(after)[k] is Record
            &&& missing_field(record_fields(slots_of(after)[k])) is None
            &&& record_fields(slots_of(after)[k]) == applied(
                record_fields(slots_of(before)[k]),
                reset_values(slots_of(before)[k], hidden_red_for(target as int) as i32).0,
                reset_values(slots_of(before)[k], hidden_red_for(target as int) as i32).1,
            )
            &&& slot_total(slots_of(after)[k]) == slot_red_total(
                reset_values(slots_of(before)[k], hidden_red_for(target as int) as i32).0 as int,
                reset_values(slots_of(before)[k], hidden_red_for(target as int) as i32).1 as int,
            )
        },
        slots_complete(slots_of(after)),
{
    let p = position(before, slots_field_name());
    assert forall|k: int| 0 <= k < after.len() implies (#[trigger] after[k]).name@ == before[k].name@ by {}
    lemma_position_same_names(after, before, slots_field_name());
    assert(node_shape(after[p].node) == node_shape(before[p].node));
    let old_slots = slots_of(before);
    let new_slots = slots_of(after);
    lemma_first_non_record(old_slots, 0);
    lemma_first_incomplete(old_slots, 0);
    let h = hidden_red_for(target as int) as i32;
    assert forall|k: int| 0 <= k < old_slots.len() implies {
        &&& is_hidden(#[trigger] new_slots[k]) == is_hidden(old_slots[k])
        &&& new_slots[k] is Record
        &&& missing_field(record_fields(new_slots[k])) is None
        &&& record_fields(new_slots[k]) == applied(
            record_fields(old_slots[k]),
            reset_values(old_slots[k], h).0,
            reset_values(old_slots[k], h).1,
        )
        &&& slot_total(new_slots[k]) == slot_red_total(
            reset_values(old_slots[k], h).0 as int,
            reset_values(old_slots[k], h).1 as int,
        )
    } by {
        assert(slot_reset(old_slots[k], new_slots[k], h));
        lemma_applied(record_fields(old_slots[k]), reset_values(old_slots[k], h).0, reset_values(old_slots[k], h).1);
    }
}

/// After a successful reset the slots imply exactly the target blue level.
pub proof fn lemma_reset_reaches_target(before: Seq<Field>, after: Seq<Field>, target: i32)
    requires
        reset_error(before, target) is None,
        reset_relation(before, after, target),
    ensures
        blue_level_of(after) == Some(target as int),
{
    lemma_reset_result(before, after, target);
    let old_slots = slots_of(before);
    let new_slots = slots_of(after);
    let visible = slot_red_total(VISIBLE_PROMOTIONS as int, VISIBLE_RED_LEVELS as int);
    let hidden = slot_red_total(0, hidden_red_for(target as int));
    assert forall|k: int| 0 <= k < old_slots.len() implies slot_total(#[trigger] new_slots[k]) == if is_hidden(
        old_slots[k],
    ) {
        hidden
    } else {
        visible
    } by {}
    lemma_red_total_split(old_slots, new_slots, visible, hidden);
    lemma_solution_reaches_target((SLOT_COUNT - 1) as int, target as int, VISIBLE_PROMOTIONS as int, VISIBLE_RED_LEVELS as int);
}

/// Resetting a tree that was just reset succeeds and leaves the same values,
/// hence the same blue level.
pub proof fn lemma_reset_idempotent(before: Seq<Field>, after: Seq<Field>, again: Seq<Field>, target: i32)
    requires
        reset_error(before, target) is None,
        reset_relation(before, after, target),
    ensures
        reset_error(after, target) is None,
        reset_relation(after, again, target) ==> same_values(after, again) && blue_level_of(again)
            == blue_level_of(after),
{
    lemma_reset_result(before, after, target);
    let old_slots = slots_of(before);
    let new_slots = slots_of(after);
    let h = hidden_red_for(target as int) as i32;
    lemma_hidden_count_same(new_slots, old_slots);
    lemma_first_non_record(new_slots, 0);
    lemma_first_incomplete(new_slots, 0);
    assert(plan_error(new_slots, target) is None);
    lemma_reset_reaches_target(before, after, target);
    if reset_relation(after, again, target) {
        lemma_reset_result(after, again, target);
        lemma_reset_reaches_target(after, again, target);
        let p = position(after, slots_field_name());
        let again_slots = slots_of(again);
        assert forall|k: int| 0 <= k < new_slots.len() implies (#[trigger] again_slots[k]) is Record
            && record_fields(again_slots[k]) == record_fields(new_slots[k]) by {
            lemma_first_incomplete(old_slots, 0);
            lemma_applied(record_fields(old_slots[k]), reset_values(old_slots[k], h).0, reset_values(old_slots[k], h).1);
        }
    }
}

/// A tree whose slots do not hold exactly one hidden slot is refused with a
/// count mismatch; the reset then changes nothing.
pub proof fn lemma_hidden_count_refused(root: Seq<Field>, target: i32)
    requires
        shape_error(root) is None,
        slots_error(slots_of(root)) is None,
        hidden_count(slots_of(root)) != 1,
    ensures
        reset_error(root, target) == Some(EditError::CountMismatch {
            counted: Counted::HiddenSlots,
            expected: 1,
            found: hidden_count(slots_of(root)) as usize,
        }),
{
}

/// A tree without a `CharacterSaves` field is refused with a shape mismatch
/// at that step.
pub proof fn lemma_missing_slots_refused(root: Seq<Field>, target: i32)
    requires
        position(root, slots_field_name()) == -1,
    ensures
        reset_error(root, target) == Some(EditError::ShapeMismatch(PathStep::CharacterSaves)),
{
}

/// A `CharacterSaves` array whose declared element type, or whose element
/// struct type, is not the expected one is refused with a shape mismatch at
/// that step.
pub proof fn lemma_wrong_element_type_refused(root: Seq<Field>, target: i32)
    requires
        position(root, slots_field_name()) >= 0,
        root[position(root, slots_field_name())].node matches Node::Array { array_type, body, .. } && (
        array_type is Other || (body matches ArrayBody::Structs { wrapper_type, name, struct_type, .. }
            && wrapper_type@ == "CharacterSaves"@ && name@ == "StructProperty"@ && !(struct_type matches StructTag::Named(Some(s)) && s@ == "CharacterSave"@))),
    ensures
        reset_error(root, target) == Some(EditError::ShapeMismatch(PathStep::ArrayType))
            || reset_error(root, target) == Some(EditError::ShapeMismatch(PathStep::ElementType)),
{
}

} // verus!
