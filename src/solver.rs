//! Working out the field values that bring the blue level to a target.
use vstd::prelude::*;

verus! {

/// Red levels that one promotion stands for.
pub const RED_LEVELS_PER_PROMOTION: i32 = 25;

/// Promotions each visible class keeps, so that deep dives stay playable.
pub const VISIBLE_PROMOTIONS: i32 = 1;

/// Red levels each visible class keeps, which locks its red levels until it
/// is promoted again.
pub const VISIBLE_RED_LEVELS: i32 = 25;

/// The blue level that a save is reset to.
pub const TARGET_BLUE_LEVEL: i32 = -69;

/// The red-level total that one slot contributes.
pub open spec fn slot_red_total(promotions: int, red_levels: int) -> int {
    RED_LEVELS_PER_PROMOTION * promotions + red_levels
}

/// The blue level implied by a red-level total: the total over three, rounded
/// down, negative totals included.
pub open spec fn blue_of(red_total: int) -> int {
    red_total / 3
}

/// The red levels the hidden slot must carry, with no promotions, so that
/// `visible_count` visible slots at the fixed values and the hidden slot sum
/// to exactly three times the target.
pub open spec fn hidden_red_levels(visible_count: int, target: int, promotions: int, red_levels: int) -> int {
    3 * target - visible_count * slot_red_total(promotions, red_levels)
}

/// Whether an integer fits an `i32` field.
pub open spec fn fits_i32(v: int) -> bool {
    i32::MIN <= v <= i32::MAX
}

/// The hidden slot's `(TimesRetired, RetiredCharacterLevels)`, given how many
/// visible slots there are, the target blue level and the values every
/// visible slot is set to; `None` where the red levels do not fit an `i32`.
/// The result may be negative and is never clamped.
pub fn solve(visible_count: usize, target: i32, promotions: i32, red_levels: i32) -> (r: Option<(i32, i32)>)
    ensures
        r == if fits_i32(hidden_red_levels(visible_count as int, target as int, promotions as int, red_levels as int)) {
            Some((0i32, hidden_red_levels(visible_count as int, target as int, promotions as int, red_levels as int) as i32))
        } else {
            None::<(i32, i32)>
        },
{
    let per_promotion: i128 = RED_LEVELS_PER_PROMOTION as i128;
    assert(per_promotion == 25);
    let per_slot: i128 = per_promotion * (promotions as i128) + (red_levels as i128);
    assert(-0x40_0000_0000i128 <= per_slot <= 0x40_0000_0000i128);
    let n: i128 = visible_count as i128;
    assert(0 <= n * per_slot <= 0x40_0000_0000i128 * 0x1_0000_0000_0000_0000i128 || (-0x40_0000_0000i128 * 0x1_0000_0000_0000_0000i128 <= n * per_slot <= 0)) by (nonlinear_arith)
        requires
            0 <= n < 0x1_0000_0000_0000_0000i128,
            -0x40_0000_0000i128 <= per_slot <= 0x40_0000_0000i128,
    ;
    let v: i128 = 3 * (target as i128) - n * per_slot;
    if v < i32::MIN as i128 || v > i32::MAX as i128 {
        None
    } else {
        Some((0, v as i32))
    }
}

/// Solving with the visible slots at their fixed values and summing every
/// slot gives exactly the target blue level.
pub proof fn lemma_solution_reaches_target(visible_count: int, target: int, promotions: int, red_levels: int)
    ensures
        blue_of(visible_count * slot_red_total(promotions, red_levels)
            + slot_red_total(0, hidden_red_levels(visible_count, target, promotions, red_levels))) == target,
{
    assert(visible_count * slot_red_total(promotions, red_levels)
        + slot_red_total(0, hidden_red_levels(visible_count, target, promotions, red_levels)) == 3 * target);
}

} // verus!
