//! Player input: the actions the engine knows, which physical keys and
//! buttons trigger them, and which actions are held or were just pressed.
use vstd::prelude::*;

verus! {

/// Number of actions.
pub const ACTION_COUNT: usize = 20;

/// Number of bits held by an action bit set.
pub const ACTION_BITS: usize = 24;

/// Something the player can ask the engine to do.
#[derive(Clone, Copy, Debug, PartialEq, Eq, Hash, Structural)]
pub enum Action {
    MoveForward,
    MoveBackward,
    MoveLeft,
    MoveRight,
    Jump,
    Sneak,
    PlaceBlock,
    BreakBlock,
    ToggleGamemode,
    ToggleFullscreen,
    ToggleBlockBar,
    BlockBar1,
    BlockBar2,
    BlockBar3,
    BlockBar4,
    BlockBar5,
    BlockBar6,
    BlockBar7,
    BlockBar8,
    BlockBar9,
}

/// The keyboard keys that trigger actions; every other key is `Other`.
#[derive(Clone, Copy, Debug, PartialEq, Eq, Hash, Structural)]
pub enum Key {
    KeyW,
    KeyS,
    KeyA,
    KeyD,
    Space,
    ShiftLeft,
    F4,
    F11,
    KeyI,
    Digit1,
    Digit2,
    Digit3,
    Digit4,
    Digit5,
    Digit6,
    Digit7,
    Digit8,
    Digit9,
    Other,
}

/// The mouse buttons that trigger actions; every other button is `Other`.
#[derive(Clone, Copy, Debug, PartialEq, Eq, Hash, Structural)]
pub enum Button {
    Left,
    Right,
    Other,
}

/// An input that triggers no action.
#[derive(Clone, Copy, Debug, PartialEq, Eq, Structural)]
pub struct UnmappedAction;

impl Action {
    /// Position of the action in declaration order.
    pub open spec fn spec_index(self) -> int {
        match self {
            Action::MoveForward => 0,
            Action::MoveBackward => 1,
            Action::MoveLeft => 2,
            Action::MoveRight => 3,
            Action::Jump => 4,
            Action::Sneak => 5,
            Action::PlaceBlock => 6,
            Action::BreakBlock => 7,
            Action::ToggleGamemode => 8,
            Action::ToggleFullscreen => 9,
            Action::ToggleBlockBar => 10,
            Action::BlockBar1 => 11,
            Action::BlockBar2 => 12,
            Action::BlockBar3 => 13,
            Action::BlockBar4 => 14,
            Action::BlockBar5 => 15,
            Action::BlockBar6 => 16,
            Action::BlockBar7 => 17,
            Action::BlockBar8 => 18,
            Action::BlockBar9 => 19,
        }
    }

    /// Position of the action in declaration order.
    pub fn index(&self) -> (i: usize)
        ensures
            i == self.spec_index(),
            i < ACTION_COUNT,
    {
        match self {
            Action::MoveForward => 0,
            Action::MoveBackward => 1,
            Action::MoveLeft => 2,
            Action::MoveRight => 3,
            Action::Jump => 4,
            Action::Sneak => 5,
            Action::PlaceBlock => 6,
            Action::BreakBlock => 7,
            Action::ToggleGamemode => 8,
            Action::ToggleFullscreen => 9,
            Action::ToggleBlockBar => 10,
            Action::BlockBar1 => 11,
            Action::BlockBar2 => 12,
            Action::BlockBar3 => 13,
            Action::BlockBar4 => 14,
            Action::BlockBar5 => 15,
            Action::BlockBar6 => 16,
            Action::BlockBar7 => 17,
            Action::BlockBar8 => 18,
            Action::BlockBar9 => 19,
        }
    }

    /// The block bar slot actions, in slot order.
    pub fn block_bar() -> (r: [Action; 9])
        ensures
            forall|i: int| 0 <= i < 9 ==> (#[trigger] r@[i]).spec_index() == 11 + i,
    {
        [
            Action::BlockBar1,
            Action::BlockBar2,
            Action::BlockBar3,
            Action::BlockBar4,
            Action::BlockBar5,
            Action::BlockBar6,
            Action::BlockBar7,
            Action::BlockBar8,
            Action::BlockBar9,
        ]
    }

    /// The action a keyboard key triggers.
    pub open spec fn spec_from_key(key: Key) -> Result<Action, UnmappedAction> {
        match key {
            Key::KeyW => Ok(Action::MoveForward),
            Key::KeyS => Ok(Action::MoveBackward),
            Key::KeyA => Ok(Action::MoveLeft),
            Key::KeyD => Ok(Action::MoveRight),
            Key::Space => Ok(Action::Jump),
            Key::ShiftLeft => Ok(Action::Sneak),
            Key::F4 => Ok(Action::ToggleGamemode),
            Key::F11 => Ok(Action::ToggleFullscreen),
            Key::KeyI => Ok(Action::ToggleBlockBar),
            Key::Digit1 => Ok(Action::BlockBar1),
            Key::Digit2 => Ok(Action::BlockBar2),
            Key::Digit3 => Ok(Action::BlockBar3),
            Key::Digit4 => Ok(Action::BlockBar4),
            Key::Digit5 => Ok(Action::BlockBar5),
            Key::Digit6 => Ok(Action::BlockBar6),
            Key::Digit7 => Ok(Action::BlockBar7),
            Key::Digit8 => Ok(Action::BlockBar8),
            Key::Digit9 => Ok(Action::BlockBar9),
            Key::Other => Err(UnmappedAction),
        }
    }

    /// The action a keyboard key triggers.
    pub fn try_from_key(key: &Key) -> (r: Result<Action, UnmappedAction>)
        ensures
            r == Action::spec_from_key(*key),
    {
        match key {
            Key::KeyW => Ok(Action::MoveForward),
            Key::KeyS => Ok(Action::MoveBackward),
            Key::KeyA => Ok(Action::MoveLeft),
            Key::KeyD => Ok(Action::MoveRight),
            Key::Space => Ok(Action::Jump),
            Key::ShiftLeft => Ok(Action::Sneak),
            Key::F4 => Ok(Action::ToggleGamemode),
            Key::F11 => Ok(Action::ToggleFullscreen),
            Key::KeyI => Ok(Action::ToggleBlockBar),
            Key::Digit1 => Ok(Action::BlockBar1),
            Key::Digit2 => Ok(Action::BlockBar2),
            Key::Digit3 => Ok(Action::BlockBar3),
            Key::Digit4 => Ok(Action::BlockBar4),
            Key::Digit5 => Ok(Action::BlockBar5),
            Key::Digit6 => Ok(Action::BlockBar6),
            Key::Digit7 => Ok(Action::BlockBar7),
            Key::Digit8 => Ok(Action::BlockBar8),
            Key::Digit9 => Ok(Action::BlockBar9),
            Key::Other => Err(UnmappedAction),
        }
    }

    /// The action a mouse button triggers.
    pub fn try_from_button(button: &Button) -> (r: Result<Action, UnmappedAction>)
        ensures
            *button == Button::Left ==> r == Ok::<Action, UnmappedAction>(Action::BreakBlock),
            *button == Button::Right ==> r == Ok::<Action, UnmappedAction>(Action::PlaceBlock),
            *button == Button::Other ==> r == Err::<Action, UnmappedAction>(UnmappedAction),
    {
        match button {
            Button::Left => Ok(Action::BreakBlock),
            Button::Right => Ok(Action::PlaceBlock),
            Button::Other => Err(UnmappedAction),
        }
    }
}

/// A set of action bits held in a `tinybitset::TinyBitSet<u8, 3>`.
#[verifier::external_body]
#[derive(Debug)]
pub struct ActionBits {
    bits: tinybitset::TinyBitSet<u8, 3>,
}

/// The bits held by an action bit set, lowest first.
pub uninterp spec fn action_bits(b: ActionBits) -> Seq<bool>;

/// Twenty-four cleared bits.
pub open spec fn all_clear() -> Seq<bool> {
    Seq::new(ACTION_BITS as nat, |i: int| false)
}

impl ActionBits {
    /// `TinyBitSet::new`: every bit cleared.
    #[verifier::external_body]
    fn new() -> (b: ActionBits)
        ensures
            action_bits(b) == all_clear(),
    {
        ActionBits { bits: tinybitset::TinyBitSet::new() }
    }

    /// `TinyBitSet::assign`: sets bit `bit` to `value`.
    #[verifier::external_body]
    fn assign(&mut self, bit: usize, value: bool)
        requires
            bit < ACTION_BITS,
        ensures
            action_bits(*final(self)) == action_bits(*old(self)).update(bit as int, value),
    {
        self.bits.assign(bit, value)
    }

    /// `TinyBitSet`'s indexing: the value of bit `bit`.
    #[verifier::external_body]
    fn get(&self, bit: usize) -> (b: bool)
        requires
            bit < ACTION_BITS,
        ensures
            b == action_bits(*self)[bit as int],
    {
        self.bits[bit]
    }
}

impl Clone for ActionBits {
    /// A copy of the bit set (`TinyBitSet` is `Copy`).
    #[verifier::external_body]
    fn clone(&self) -> (r: ActionBits)
        ensures
            action_bits(r) == action_bits(*self),
    {
        ActionBits { bits: self.bits }
    }
}

/// Which actions are set.
#[derive(Clone, Debug)]
pub struct ActionMap(ActionBits);

impl ActionMap {
    /// The state of every action, by action index (and three unused bits).
    pub closed spec fn view(&self) -> Seq<bool> {
        action_bits(self.0)
    }

    /// Whether the map holds one bit per slot of the bit set.
    pub open spec fn wf(&self) -> bool {
        self.view().len() == ACTION_BITS
    }

    /// A map with no action set.
    pub fn new() -> (m: ActionMap)
        ensures
            m@ == all_clear(),
            m.wf(),
    {
        ActionMap(ActionBits::new())
    }

    /// Records a key or button event: a mapped input sets its action to
    /// `is_pressed` and reports `true`; an unmapped one changes nothing.
    pub fn process_input(&mut self, input: Result<Action, UnmappedAction>, is_pressed: bool) -> (r: bool)
        requires
            old(self).wf(),
        ensures
            r == input is Ok,
            input matches Ok(a) ==> final(self)@ == old(self)@.update(a.spec_index(), is_pressed),
            input is Err ==> final(self)@ == old(self)@,
            final(self).wf(),
    {
        match input {
            Ok(action) => {
                self.set_action(action, is_pressed);
                true
            },
            Err(_) => false,
        }
    }

    /// Sets `action` to `is_pressed`.
    pub fn set_action(&mut self, action: Action, is_pressed: bool)
        requires
            old(self).wf(),
        ensures
            final(self)@ == old(self)@.update(action.spec_index(), is_pressed),
            final(self).wf(),
    {
        let i = action.index();
        self.0.assign(i, is_pressed);
    }

    /// Whether `action` is set.
    pub fn get_action(&self, action: Action) -> (b: bool)
        requires
            self.wf(),
        ensures
            b == self@[action.spec_index()],
    {
        let i = action.index();
        self.0.get(i)
    }

    /// `1` when only `positive` is set, `-1` when only `negative` is, else `0`.
    pub fn get_axis(&self, positive: Action, negative: Action) -> (r: i8)
        requires
            self.wf(),
        ensures
            r == (if self@[positive.spec_index()] { 1int } else { 0int }) - (if self@[negative.spec_index()] {
                1int
            } else {
                0int
            }),
    {
        let p: i8 = if self.get_action(positive) {
            1
        } else {
            0
        };
        let n: i8 = if self.get_action(negative) {
            1
        } else {
            0
        };
        p - n
    }

    /// Clears every action.
    pub fn reset_all(&mut self)
        ensures
            final(self)@ == all_clear(),
            final(self).wf(),
    {
        *self = ActionMap::new();
    }
}

impl Default for ActionMap {
    /// A map with no action set.
    fn default() -> (m: ActionMap)
        ensures
            m@ == all_clear(),
    {
        ActionMap::new()
    }
}

/// Held and just-pressed actions after applying the queued events `q`, in
/// order, to the held actions `pressed` and the just-pressed actions `just`:
/// an event sets its action's held state, and a press of an action that was
/// not held makes it just pressed.
pub open spec fn apply_queue(pressed: Seq<bool>, just: Seq<bool>, q: Seq<(Action, bool)>) -> (Seq<bool>, Seq<bool>)
    decreases q.len(),
{
    if q.len() == 0 {
        (pressed, just)
    } else {
        let prev = apply_queue(pressed, just, q.drop_last());
        let (a, s) = q.last();
        let i = a.spec_index();
        (prev.0.update(i, s), if s && !prev.0[i] { prev.1.update(i, true) } else { prev.1 })
    }
}

/// The state of the action inputs between frames: what is held, what was
/// pressed this frame, and the events waiting for the next frame.
#[derive(Debug)]
pub struct InputManager {
    pressed: ActionMap,
    just_pressed: ActionMap,
    queue: Vec<(Action, bool)>,
}

impl InputManager {
    /// The held actions.
    pub closed spec fn pressed_view(&self) -> Seq<bool> {
        self.pressed@
    }

    /// The actions pressed this frame.
    pub closed spec fn just_pressed_view(&self) -> Seq<bool> {
        self.just_pressed@
    }

    /// The events waiting for the next frame, oldest first.
    pub closed spec fn queue_view(&self) -> Seq<(Action, bool)> {
        self.queue@
    }

    /// Whether both action maps are well formed.
    pub closed spec fn wf(&self) -> bool {
        self.pressed.wf() && self.just_pressed.wf()
    }

    /// No action held or pressed, no event waiting.
    pub fn new() -> (m: InputManager)
        ensures
            m.wf(),
            m.pressed_view() == all_clear(),
            m.just_pressed_view() == all_clear(),
            m.queue_view().len() == 0,
    {
        InputManager { pressed: ActionMap::new(), just_pressed: ActionMap::new(), queue: Vec::new() }
    }

    /// Queues a key or button event for the next frame; reports whether the
    /// input triggers an action.
    pub fn process_input(&mut self, input: Result<Action, UnmappedAction>, is_pressed: bool) -> (r: bool)
        ensures
            r == input is Ok,
            input matches Ok(a) ==> final(self).queue_view() == old(self).queue_view().push((a, is_pressed)),
            input is Err ==> final(self).queue_view() == old(self).queue_view(),
            final(self).pressed_view() == old(self).pressed_view(),
            final(self).just_pressed_view() == old(self).just_pressed_view(),
            final(self).wf() == old(self).wf(),
    {
        match input {
            Ok(action) => {
                self.queue.push((action, is_pressed));
                true
            },
            Err(_) => false,
        }
    }

    /// Starts a frame: applies the queued events in order, so that the held
    /// actions follow them and the actions pressed while not held become the
    /// frame's just-pressed actions; the queue is emptied.
    pub fn process(&mut self)
        requires
            old(self).wf(),
        ensures
            final(self).wf(),
            (final(self).pressed_view(), final(self).just_pressed_view()) == apply_queue(
                old(self).pressed_view(),
                all_clear(),
                old(self).queue_view(),
            ),
            final(self).queue_view().len() == 0,
    {
        self.just_pressed.reset_all();
        let ghost q = self.queue@;
        let ghost p0 = self.pressed@;
        let mut i: usize = 0;
        while i < self.queue.len()
            invariant
                i <= q.len(),
                self.queue@ == q,
                self.pressed.wf(),
                self.just_pressed.wf(),
                (self.pressed@, self.just_pressed@) == apply_queue(p0, all_clear(), q.take(i as int)),
            decreases q.len() - i,
        {
            let (action, state) = self.queue[i];
            let held = self.pressed.get_action(action);
            if state && !held {
                self.just_pressed.set_action(action, true);
            }
            self.pressed.set_action(action, state);
            proof {
                assert(q.take(i + 1).drop_last() =~= q.take(i as int));
                assert(q.take(i + 1).last() == q[i as int]);
            }
            i = i + 1;
        }
        proof {
            assert(q.take(q.len() as int) =~= q);
        }
        self.queue.clear();
    }

    /// The held actions.
    pub fn pressed(&self) -> (m: &ActionMap)
        ensures
            m@ == self.pressed_view(),
            self.wf() ==> m.wf(),
    {
        &self.pressed
    }

    /// The actions pressed this frame.
    pub fn just_pressed(&self) -> (m: &ActionMap)
        ensures
            m@ == self.just_pressed_view(),
            self.wf() ==> m.wf(),
    {
        &self.just_pressed
    }

    /// Forgets every held and pressed action and every waiting event.
    pub fn reset_all(&mut self)
        ensures
            final(self).wf(),
            final(self).pressed_view() == all_clear(),
            final(self).just_pressed_view() == all_clear(),
            final(self).queue_view().len() == 0,
    {
        self.pressed.reset_all();
        self.just_pressed.reset_all();
        self.queue.clear();
    }
}

impl Default for InputManager {
    /// No action held or pressed, no event waiting.
    fn default() -> (m: InputManager)
        ensures
            m.wf(),
            m.pressed_view() == all_clear(),
            m.just_pressed_view() == all_clear(),
            m.queue_view().len() == 0,
    {
        InputManager::new()
    }
}

/// Whether an event for the action at index `i` occurs in `q`.
pub open spec fn queued_for(q: Seq<(Action, bool)>, i: int) -> bool {
    exists|k: int| 0 <= k < q.len() && (#[trigger] q[k]).0.spec_index() == i
}

/// The key table: movement on W, A, S, D, jumping on space, sneaking on left
/// shift, gamemode on F4, fullscreen on F11, the block bar on I and its
/// slots on the digits 1 to 9; every other key triggers nothing.
pub proof fn lemma_key_table()
    ensures
        Action::spec_from_key(Key::KeyW) == Ok::<Action, UnmappedAction>(Action::MoveForward),
        Action::spec_from_key(Key::KeyS) == Ok::<Action, UnmappedAction>(Action::MoveBackward),
        Action::spec_from_key(Key::KeyA) == Ok::<Action, UnmappedAction>(Action::MoveLeft),
        Action::spec_from_key(Key::KeyD) == Ok::<Action, UnmappedAction>(Action::MoveRight),
        Action::spec_from_key(Key::Space) == Ok::<Action, UnmappedAction>(Action::Jump),
        Action::spec_from_key(Key::ShiftLeft) == Ok::<Action, UnmappedAction>(Action::Sneak),
        Action::spec_from_key(Key::F4) == Ok::<Action, UnmappedAction>(Action::ToggleGamemode),
        Action::spec_from_key(Key::F11) == Ok::<Action, UnmappedAction>(Action::ToggleFullscreen),
        Action::spec_from_key(Key::KeyI) == Ok::<Action, UnmappedAction>(Action::ToggleBlockBar),
        Action::spec_from_key(Key::Digit1) == Ok::<Action, UnmappedAction>(Action::BlockBar1),
        Action::spec_from_key(Key::Digit2) == Ok::<Action, UnmappedAction>(Action::BlockBar2),
        Action::spec_from_key(Key::Digit3) == Ok::<Action, UnmappedAction>(Action::BlockBar3),
        Action::spec_from_key(Key::Digit4) == Ok::<Action, UnmappedAction>(Action::BlockBar4),
        Action::spec_from_key(Key::Digit5) == Ok::<Action, UnmappedAction>(Action::BlockBar5),
        Action::spec_from_key(Key::Digit6) == Ok::<Action, UnmappedAction>(Action::BlockBar6),
        Action::spec_from_key(Key::Digit7) == Ok::<Action, UnmappedAction>(Action::BlockBar7),
        Action::spec_from_key(Key::Digit8) == Ok::<Action, UnmappedAction>(Action::BlockBar8),
        Action::spec_from_key(Key::Digit9) == Ok::<Action, UnmappedAction>(Action::BlockBar9),
        Action::spec_from_key(Key::Other) == Err::<Action, UnmappedAction>(UnmappedAction),
{
}

/// No two keys trigger the same action, and no key triggers a mouse
/// button's action.
pub proof fn lemma_keys_distinct(k1: Key, k2: Key)
    ensures
        Action::spec_from_key(k1) is Ok && Action::spec_from_key(k1) == Action::spec_from_key(k2) ==> k1 == k2,
        Action::spec_from_key(k1) != Ok::<Action, UnmappedAction>(Action::PlaceBlock),
        Action::spec_from_key(k1) != Ok::<Action, UnmappedAction>(Action::BreakBlock),
{
}

/// The block bar slots follow the digits in order: digit `n` triggers the
/// action of slot `n`, whose index is that of the slot's action in
/// `block_bar`.
pub proof fn lemma_digits_select_slots()
    ensures
        Action::spec_from_key(Key::Digit1)->Ok_0.spec_index() == 11,
        Action::spec_from_key(Key::Digit2)->Ok_0.spec_index() == 12,
        Action::spec_from_key(Key::Digit3)->Ok_0.spec_index() == 13,
        Action::spec_from_key(Key::Digit4)->Ok_0.spec_index() == 14,
        Action::spec_from_key(Key::Digit5)->Ok_0.spec_index() == 15,
        Action::spec_from_key(Key::Digit6)->Ok_0.spec_index() == 16,
        Action::spec_from_key(Key::Digit7)->Ok_0.spec_index() == 17,
        Action::spec_from_key(Key::Digit8)->Ok_0.spec_index() == 18,
        Action::spec_from_key(Key::Digit9)->Ok_0.spec_index() == 19,
{
}

/// An action without queued events keeps its held state and is not newly
/// pressed by the frame's processing.
pub proof fn lemma_untouched_action(pressed: Seq<bool>, just: Seq<bool>, q: Seq<(Action, bool)>, i: int)
    requires
        pressed.len() == ACTION_BITS,
        just.len() == ACTION_BITS,
        0 <= i < ACTION_BITS,
        !queued_for(q, i),
    ensures
        apply_queue(pressed, just, q).0[i] == pressed[i],
        apply_queue(pressed, just, q).1[i] == just[i],
        apply_queue(pressed, just, q).0.len() == ACTION_BITS,
        apply_queue(pressed, just, q).1.len() == ACTION_BITS,
    decreases q.len(),
{
    if q.len() > 0 {
        let d = q.drop_last();
        assert(!queued_for(d, i)) by {
            if queued_for(d, i) {
                let k = choose|k: int| 0 <= k < d.len() && (#[trigger] d[k]).0.spec_index() == i;
                assert(q[k] == d[k]);
            }
        }
        lemma_untouched_action(pressed, just, d, i);
        assert(q.last() == q[q.len() - 1]);
    }
}

/// After the frame's processing an action is held exactly when its last
/// queued event is a press.
pub proof fn lemma_last_event_wins(pressed: Seq<bool>, just: Seq<bool>, q: Seq<(Action, bool)>, k: int)
    requires
        pressed.len() == ACTION_BITS,
        just.len() == ACTION_BITS,
        0 <= k < q.len(),
        forall|m: int| k < m < q.len() ==> (#[trigger] q[m]).0.spec_index() != q[k].0.spec_index(),
    ensures
        apply_queue(pressed, just, q).0[q[k].0.spec_index()] == q[k].1,
    decreases q.len(),
{
    let i = q[k].0.spec_index();
    if k == q.len() - 1 {
        lemma_apply_queue_len(pressed, just, q.drop_last());
    } else {
        let d = q.drop_last();
        assert(d[k] == q[k]);
        assert forall|m: int| k < m < d.len() implies (#[trigger] d[m]).0.spec_index() != d[k].0.spec_index() by {
            assert(d[m] == q[m]);
        }
        lemma_last_event_wins(pressed, just, d, k);
        lemma_apply_queue_len(pressed, just, d);
        assert(q.last() == q[q.len() - 1]);
    }
}

/// A press of an action that is not held and has no other queued event
/// makes the action just pressed; the action is then held.
pub proof fn lemma_single_press(pressed: Seq<bool>, q: Seq<(Action, bool)>, k: int)
    requires
        pressed.len() == ACTION_BITS,
        0 <= k < q.len(),
        q[k].1,
        !pressed[q[k].0.spec_index()],
        forall|m: int| 0 <= m < q.len() && m != k ==> (#[trigger] q[m]).0.spec_index() != q[k].0.spec_index(),
    ensures
        apply_queue(pressed, all_clear(), q).1[q[k].0.spec_index()],
        apply_queue(pressed, all_clear(), q).0[q[k].0.spec_index()],
{
    let i = q[k].0.spec_index();
    let before = q.take(k);
    assert forall|m: int| k < m < q.len() implies (#[trigger] q[m]).0.spec_index() != q[k].0.spec_index() by {}
    lemma_last_event_wins(pressed, all_clear(), q, k);
    assert(!queued_for(before, i)) by {
        if queued_for(before, i) {
            let m = choose|m: int| 0 <= m < before.len() && (#[trigger] before[m]).0.spec_index() == i;
            assert(q[m] == before[m]);
        }
    }
    lemma_untouched_action(pressed, all_clear(), before, i);
    lemma_prefix_press(pressed, q, k);
}

/// Applying a queue through its `k`-th event, a press of an action not held
/// at that point, marks the action just pressed; later events keep the mark.
proof fn lemma_prefix_press(pressed: Seq<bool>, q: Seq<(Action, bool)>, k: int)
    requires
        pressed.len() == ACTION_BITS,
        0 <= k < q.len(),
        q[k].1,
        !apply_queue(pressed, all_clear(), q.take(k)).0[q[k].0.spec_index()],
    ensures
        apply_queue(pressed, all_clear(), q).1[q[k].0.spec_index()],
    decreases q.len(),
{
    let i = q[k].0.spec_index();
    if k == q.len() - 1 {
        assert(q.drop_last() =~= q.take(k));
        lemma_apply_queue_len(pressed, all_clear(), q.drop_last());
    } else {
        let d = q.drop_last();
        assert(d.take(k) =~= q.take(k));
        assert(d[k] == q[k]);
        lemma_prefix_press(pressed, d, k);
        lemma_apply_queue_len(pressed, all_clear(), d);
    }
}

/// Applying a queue keeps both action sequences at their length.
pub proof fn lemma_apply_queue_len(pressed: Seq<bool>, just: Seq<bool>, q: Seq<(Action, bool)>)
    requires
        pressed.len() == ACTION_BITS,
        just.len() == ACTION_BITS,
    ensures
        apply_queue(pressed, just, q).0.len() == ACTION_BITS,
        apply_queue(pressed, just, q).1.len() == ACTION_BITS,
    decreases q.len(),
{
    if q.len() > 0 {
        lemma_apply_queue_len(pressed, just, q.drop_last());
    }
}

} // verus!
