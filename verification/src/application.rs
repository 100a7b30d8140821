//! Application state: cursor capture, the pause menu, the block bar focus,
//! and the cooldown between world interactions.
use vstd::prelude::*;
use std::time::Instant;
use crate::save::{instant_now, nanos_since};

verus! {

/// Whether the cursor is captured by the window.
#[derive(Debug)]
pub struct CaptureState(bool);

impl CaptureState {
    pub closed spec fn spec_captured(&self) -> bool {
        self.0
    }

    /// A capture state, captured or released.
    pub fn new(captured: bool) -> (s: CaptureState)
        ensures
            s.spec_captured() == captured,
    {
        CaptureState(captured)
    }

    /// Captures or releases the cursor.
    pub fn set(&mut self, captured: bool)
        ensures
            final(self).spec_captured() == captured,
    {
        self.0 = captured;
    }

    /// Whether the cursor is captured.
    pub fn is_captured(&self) -> (b: bool)
        ensures
            b == self.spec_captured(),
    {
        self.0
    }

    /// Flips the capture state and hands back the new state.
    pub fn toggle(&mut self) -> (b: bool)
        ensures
            b == !old(self).spec_captured(),
            final(self).spec_captured() == b,
    {
        let next = !self.0;
        self.set(next);
        next
    }
}

/// Whether the game is paused.
#[derive(Debug)]
pub struct IsPaused(bool);

impl Default for IsPaused {
    /// The game running, not paused.
    fn default() -> (p: IsPaused)
        ensures
            !p.spec_paused(),
    {
        IsPaused(false)
    }
}

impl IsPaused {
    pub closed spec fn spec_paused(&self) -> bool {
        self.0
    }

    /// A pause state, paused or running.
    pub fn new(initial: bool) -> (p: IsPaused)
        ensures
            p.spec_paused() == initial,
    {
        IsPaused(initial)
    }

    /// Pauses or resumes the game.
    pub fn set_without_event(&mut self, set: bool)
        ensures
            final(self).spec_paused() == set,
    {
        self.0 = set;
    }

    /// Whether the game is paused.
    pub fn is_paused(&self) -> (b: bool)
        ensures
            b == self.spec_paused(),
    {
        self.0
    }
}

/// Marks that the pause menu key was pressed this frame.
#[derive(Debug)]
pub struct ToggleGuiPressed;

/// Handles the pause menu key: when `pressed`, flips the pause state and
/// hands back whether the cursor is to be captured (it is, exactly when the
/// game runs again); otherwise changes nothing.
pub fn toggle_pause_menu(pause: &mut IsPaused, pressed: Option<ToggleGuiPressed>) -> (capture: Option<bool>)
    ensures
        pressed is None ==> capture is None && final(pause).spec_paused() == old(pause).spec_paused(),
        pressed is Some ==> final(pause).spec_paused() == !old(pause).spec_paused() && capture == Some(
            !final(pause).spec_paused(),
        ),
{
    match pressed {
        None => None,
        Some(ToggleGuiPressed) => {
            let prev = pause.is_paused();
            pause.set_without_event(!prev);
            Some(!pause.is_paused())
        },
    }
}

/// Which inventory slot each block bar slot shows.
#[derive(Debug, Clone)]
pub struct BlockBarFocus {
    pub focus: [Option<usize>; 9],
    pub inventory_size: usize,
}

impl BlockBarFocus {
    /// A block bar showing no slot, for an inventory of `inventory_size` slots.
    pub fn new(inventory_size: usize) -> (f: BlockBarFocus)
        ensures
            f.inventory_size == inventory_size,
            forall|i: int| 0 <= i < 9 ==> (#[trigger] f.focus@[i]) is None,
    {
        BlockBarFocus { focus: [None, None, None, None, None, None, None, None, None], inventory_size }
    }
}

/// Minimum time, in nanoseconds, between two held-button world interactions:
/// `0.2f32` seconds, rounded to the nanosecond.
pub const COOLDOWN_NANOS: u64 = 200_000_003;

/// Whether `elapsed` nanoseconds are enough to interact with the world again.
pub fn cooldown_elapsed(elapsed: u64) -> (b: bool)
    ensures
        b == (elapsed >= COOLDOWN_NANOS),
{
    elapsed >= COOLDOWN_NANOS
}

/// The instant of the last world interaction.
#[derive(Debug)]
pub struct LastWorldInteraction(pub Instant);

impl LastWorldInteraction {
    /// Whether the cooldown has passed since the last interaction: the
    /// answer of `cooldown_elapsed` for the time the clock reports since then.
    pub fn cooldown_passed(&self) -> bool {
        let elapsed = nanos_since(&self.0);
        cooldown_elapsed(elapsed)
    }

    /// Restarts the cooldown from now.
    pub fn reset_cooldown(&mut self) {
        self.0 = instant_now();
    }
}

impl Default for LastWorldInteraction {
    /// An interaction at the present instant.
    fn default() -> (l: LastWorldInteraction) {
        LastWorldInteraction(instant_now())
    }
}

} // verus!
