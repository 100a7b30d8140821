//! Placing and breaking blocks: what the player's buttons ask for.
use vstd::prelude::*;

verus! {

/// What a frame's button state asks to do to the block the player looks at.
#[derive(Clone, Copy, Debug, PartialEq, Eq, Structural)]
pub enum WorldInteraction {
    /// Replace the block looked at by the held block (both buttons).
    Replace,
    /// Break the block looked at.
    Break,
    /// Place the held block against the face looked at.
    Place,
    /// Do nothing.
    Nothing,
}

/// The interaction asked for: a button counts when it was pressed this
/// frame, or when it is held and the cooldown has passed. Both buttons
/// replace the block, and placing needs the face that was hit; breaking
/// does not.
pub open spec fn spec_interaction(
    just_place: bool,
    just_break: bool,
    held_place: bool,
    held_break: bool,
    cooldown_passed: bool,
    has_face: bool,
) -> WorldInteraction {
    let place = just_place || (cooldown_passed && held_place);
    let brk = just_break || (cooldown_passed && held_break);
    if place && brk {
        if has_face {
            WorldInteraction::Replace
        } else {
            WorldInteraction::Nothing
        }
    } else if brk {
        WorldInteraction::Break
    } else if place && has_face {
        WorldInteraction::Place
    } else {
        WorldInteraction::Nothing
    }
}

/// The interaction the buttons ask for this frame.
pub fn decide_interaction(
    just_place: bool,
    just_break: bool,
    held_place: bool,
    held_break: bool,
    cooldown_passed: bool,
    has_face: bool,
) -> (r: WorldInteraction)
    ensures
        r == spec_interaction(just_place, just_break, held_place, held_break, cooldown_passed, has_face),
{
    let mut should_place = just_place;
    let mut should_break = just_break;
    if cooldown_passed {
        should_place = should_place || held_place;
        should_break = should_break || held_break;
    }
    if should_place && should_break {
        if has_face {
            WorldInteraction::Replace
        } else {
            WorldInteraction::Nothing
        }
    } else if should_break {
        WorldInteraction::Break
    } else if should_place {
        if has_face {
            WorldInteraction::Place
        } else {
            WorldInteraction::Nothing
        }
    } else {
        WorldInteraction::Nothing
    }
}

/// Once the cooldown has passed, a held button counts as if it had just been
/// pressed; before that, held buttons count for nothing.
pub proof fn lemma_held_buttons_after_cooldown(
    just_place: bool,
    just_break: bool,
    held_place: bool,
    held_break: bool,
    has_face: bool,
)
    ensures
        spec_interaction(just_place, just_break, held_place, held_break, true, has_face) == spec_interaction(
            just_place || held_place,
            just_break || held_break,
            false,
            false,
            false,
            has_face,
        ),
        spec_interaction(just_place, just_break, held_place, held_break, false, has_face) == spec_interaction(
            just_place,
            just_break,
            false,
            false,
            true,
            has_face,
        ),
{
}

/// What one press does: the place button places on the face looked at, the
/// break button breaks whether or not a face was hit, both together replace
/// the block on a face, and no button does nothing.
pub proof fn lemma_single_presses(cooldown_passed: bool, has_face: bool)
    ensures
        spec_interaction(true, false, false, false, cooldown_passed, has_face) == (if has_face {
            WorldInteraction::Place
        } else {
            WorldInteraction::Nothing
        }),
        spec_interaction(false, true, false, false, cooldown_passed, has_face) == WorldInteraction::Break,
        spec_interaction(true, true, false, false, cooldown_passed, has_face) == (if has_face {
            WorldInteraction::Replace
        } else {
            WorldInteraction::Nothing
        }),
        spec_interaction(false, false, false, false, cooldown_passed, has_face) == WorldInteraction::Nothing,
{
}

/// Holding a single button after the cooldown repeats it: the place button
/// places on a face, the break button breaks.
pub proof fn lemma_held_button_repeats(has_face: bool)
    ensures
        has_face ==> spec_interaction(false, false, true, false, true, has_face) == WorldInteraction::Place,
        spec_interaction(false, false, false, true, true, has_face) == WorldInteraction::Break,
        spec_interaction(false, false, true, false, false, has_face) == WorldInteraction::Nothing,
        spec_interaction(false, false, false, true, false, has_face) == WorldInteraction::Nothing,
{
}

} // verus!
