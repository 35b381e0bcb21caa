//! Input tracking: folds a sequence of raw keyboard events into a
//! four-direction held-key state and a loop-liveness flag.
//!
//! The event source itself (a windowing backend's event pump) is an outside
//! collaborator; it hands the tracker plain [`RawEvent`] values, already
//! drained in arrival order.

use vstd::prelude::*;

verus! {

/// One of the four tracked directions.
#[derive(Debug, Copy, Clone, PartialEq, Eq, Structural)]
pub enum Direction {
    Up,
    Down,
    Left,
    Right,
}

/// A key identifier carried by a key event. Keys the tracker does not react
/// to are collapsed into `Other`; an event without a key identifier is
/// represented the same way.
#[derive(Debug, Copy, Clone, PartialEq, Eq, Structural)]
pub enum Key {
    Escape,
    Up,
    Down,
    Left,
    Right,
    Other,
}

/// One raw event handed in by the event source on a poll.
#[derive(Debug, Copy, Clone, PartialEq, Eq, Structural)]
pub enum RawEvent {
    /// The window manager asked the process to quit.
    Quit,
    /// A key was pressed.
    KeyDown(Key),
    /// A key was released.
    KeyUp(Key),
    /// Any event the tracker does not react to.
    Other,
}

/// The key that presses and releases a given direction's flag.
pub open spec fn key_of(d: Direction) -> Key {
    match d {
        Direction::Up => Key::Up,
        Direction::Down => Key::Down,
        Direction::Left => Key::Left,
        Direction::Right => Key::Right,
    }
}

/// The four directional flags: one boolean per direction, true while the
/// matching key is held.
#[derive(Debug, Copy, Clone, PartialEq, Eq, Structural)]
#[allow(non_snake_case)]
pub struct ControllerInput {
    pub U: bool,
    pub D: bool,
    pub L: bool,
    pub R: bool,
}

impl ControllerInput {
    /// The state at program start: no direction held.
    pub open spec fn all_released() -> ControllerInput {
        ControllerInput { U: false, D: false, L: false, R: false }
    }

    /// The flag tracking direction `d`.
    pub open spec fn flag(self, d: Direction) -> bool {
        match d {
            Direction::Up => self.U,
            Direction::Down => self.D,
            Direction::Left => self.L,
            Direction::Right => self.R,
        }
    }

    /// The same flags with direction `d` set to `v`.
    pub open spec fn with_flag(self, d: Direction, v: bool) -> ControllerInput {
        match d {
            Direction::Up => ControllerInput { U: v, ..self },
            Direction::Down => ControllerInput { D: v, ..self },
            Direction::Left => ControllerInput { L: v, ..self },
            Direction::Right => ControllerInput { R: v, ..self },
        }
    }

    pub fn new() -> (r: ControllerInput)
        ensures
            r == ControllerInput::all_released(),
    {
        ControllerInput { U: false, D: false, L: false, R: false }
    }
}

/// Directional flags together with the loop-liveness flag. The frame loop
/// runs while `is_available` holds; a quit signal or an escape key-down
/// clears it for good.
#[derive(Debug, Copy, Clone, PartialEq, Eq, Structural)]
pub struct InputTracker {
    pub input: ControllerInput,
    pub is_available: bool,
}

/// The tracker at program start: no direction held, loop live.
pub open spec fn start_state() -> InputTracker {
    InputTracker { input: ControllerInput::all_released(), is_available: true }
}

/// The transition relation: how one raw event changes the tracker.
pub open spec fn spec_step(s: InputTracker, e: RawEvent) -> InputTracker {
    match e {
        RawEvent::Quit => InputTracker { input: s.input, is_available: false },
        RawEvent::KeyDown(k) => match k {
            Key::Escape => InputTracker { input: s.input, is_available: false },
            Key::Up => InputTracker { input: s.input.with_flag(Direction::Up, true), ..s },
            Key::Down => InputTracker { input: s.input.with_flag(Direction::Down, true), ..s },
            Key::Left => InputTracker { input: s.input.with_flag(Direction::Left, true), ..s },
            Key::Right => InputTracker { input: s.input.with_flag(Direction::Right, true), ..s },
            Key::Other => s,
        },
        RawEvent::KeyUp(k) => match k {
            Key::Up => InputTracker { input: s.input.with_flag(Direction::Up, false), ..s },
            Key::Down => InputTracker { input: s.input.with_flag(Direction::Down, false), ..s },
            Key::Left => InputTracker { input: s.input.with_flag(Direction::Left, false), ..s },
            Key::Right => InputTracker { input: s.input.with_flag(Direction::Right, false), ..s },
            _ => s,
        },
        RawEvent::Other => s,
    }
}

/// The transition relation folded over a whole event sequence, oldest first.
pub open spec fn spec_run(s: InputTracker, evs: Seq<RawEvent>) -> InputTracker
    decreases evs.len(),
{
    if evs.len() == 0 {
        s
    } else {
        spec_step(spec_run(s, evs.drop_last()), evs.last())
    }
}

impl InputTracker {
    pub fn new() -> (r: InputTracker)
        ensures
            r == start_state(),
    {
        InputTracker { input: ControllerInput::new(), is_available: true }
    }

    /// Fold one event into the state. Pure state mutation: never fails,
    /// duplicate and out-of-order events are absorbed.
    pub fn apply(&mut self, e: RawEvent)
        ensures
            *final(self) == spec_step(*old(self), e),
    {
        match e {
            RawEvent::Quit => {
                self.is_available = false;
            },
            RawEvent::KeyDown(Key::Escape) => {
                self.is_available = false;
            },
            RawEvent::KeyDown(Key::Up) => {
                self.input.U = true;
            },
            RawEvent::KeyDown(Key::Down) => {
                self.input.D = true;
            },
            RawEvent::KeyDown(Key::Left) => {
                self.input.L = true;
            },
            RawEvent::KeyDown(Key::Right) => {
                self.input.R = true;
            },
            RawEvent::KeyUp(Key::Up) => {
                self.input.U = false;
            },
            RawEvent::KeyUp(Key::Down) => {
                self.input.D = false;
            },
            RawEvent::KeyUp(Key::Left) => {
                self.input.L = false;
            },
            RawEvent::KeyUp(Key::Right) => {
                self.input.R = false;
            },
            _ => {},
        }
    }

    /// Fold a whole batch of polled events, in arrival order.
    pub fn apply_all(&mut self, events: &Vec<RawEvent>)
        ensures
            *final(self) == spec_run(*old(self), events@),
    {
        let ghost s0: InputTracker = *self;
        let mut i: usize = 0;
        while i < events.len()
            invariant
                0 <= i <= events.len(),
                *self == spec_run(s0, events@.take(i as int)),
            decreases events.len() - i,
        {
            self.apply(events[i]);
            proof {
                assert(events@.take(i + 1 as int).drop_last() =~= events@.take(i as int));
                assert(events@.take(i + 1 as int).last() == events@[i as int]);
            }
            i = i + 1;
        }
        proof {
            assert(events@.take(events@.len() as int) =~= events@);
        }
    }

    /// The current directional flags, as the frame loop reads them once per
    /// iteration.
    pub fn get_controller_input(&self) -> (r: ControllerInput)
        ensures
            r == self.input,
    {
        self.input
    }

    /// Whether the frame loop may run another iteration.
    pub fn live(&self) -> (r: bool)
        ensures
            r == self.is_available,
    {
        self.is_available
    }
}

/// Whether `e` presses direction `d`.
pub open spec fn is_down_event(e: RawEvent, d: Direction) -> bool {
    e == RawEvent::KeyDown(key_of(d))
}

/// Whether `e` releases direction `d`.
pub open spec fn is_up_event(e: RawEvent, d: Direction) -> bool {
    e == RawEvent::KeyUp(key_of(d))
}

/// What the last direction-`d` event in `evs` did: `Some(true)` for a
/// key-down, `Some(false)` for a key-up, `None` when no such event occurs.
pub open spec fn last_dir_action(evs: Seq<RawEvent>, d: Direction) -> Option<bool>
    decreases evs.len(),
{
    if evs.len() == 0 {
        None
    } else if is_down_event(evs.last(), d) {
        Some(true)
    } else if is_up_event(evs.last(), d) {
        Some(false)
    } else {
        last_dir_action(evs.drop_last(), d)
    }
}

/// A direction's flag is decided by the last event for that direction alone:
/// after folding `evs`, the flag equals what that event set it to, and keeps
/// its prior value when no such event occurs.
pub proof fn lemma_flag_tracks_last_event(s: InputTracker, evs: Seq<RawEvent>, d: Direction)
    ensures
        spec_run(s, evs).input.flag(d) == (match last_dir_action(evs, d) {
            Some(b) => b,
            None => s.input.flag(d),
        }),
    decreases evs.len(),
{
    if evs.len() > 0 {
        lemma_flag_tracks_last_event(s, evs.drop_last(), d);
    }
}

/// Starting from the all-released state, the final flag for direction `d` is
/// true iff the last direction-`d` event in the sequence was a key-down; it
/// is false when that event was a key-up or when no such event occurred.
pub proof fn lemma_final_flag_iff_last_keydown(evs: Seq<RawEvent>, d: Direction)
    ensures
        spec_run(start_state(), evs).input.flag(d) <==> last_dir_action(evs, d) == Some(true),
{
    lemma_flag_tracks_last_event(start_state(), evs, d);
}

/// Key-repeat is absorbed: applying the same key-down event twice in a row
/// leaves the state identical to applying it once.
pub proof fn lemma_keydown_idempotent(s: InputTracker, k: Key)
    ensures
        spec_step(spec_step(s, RawEvent::KeyDown(k)), RawEvent::KeyDown(k)) == spec_step(
            s,
            RawEvent::KeyDown(k),
        ),
{
}

/// Whether `e` is a quit signal or an escape key-down: the two events that
/// end the loop.
pub open spec fn is_quit_event(e: RawEvent) -> bool {
    e == RawEvent::Quit || e == RawEvent::KeyDown(Key::Escape)
}

/// No single event resurrects the liveness flag: if it is live after a step,
/// it was live before.
pub proof fn lemma_step_liveness_monotone(s: InputTracker, e: RawEvent)
    ensures
        spec_step(s, e).is_available ==> s.is_available,
{
}

/// Once the liveness flag is false it stays false for the remainder of the
/// run, whatever events follow.
pub proof fn lemma_liveness_never_reverts(s: InputTracker, evs: Seq<RawEvent>)
    requires
        !s.is_available,
    ensures
        !spec_run(s, evs).is_available,
    decreases evs.len(),
{
    if evs.len() > 0 {
        lemma_liveness_never_reverts(s, evs.drop_last());
    }
}

/// A run that contains a quit signal or an escape key-down ends with the
/// liveness flag false: the flag transitions to false at that event and, by
/// `lemma_liveness_never_reverts`, never comes back.
pub proof fn lemma_quit_ends_run(s: InputTracker, evs: Seq<RawEvent>, i: int)
    requires
        0 <= i < evs.len(),
        is_quit_event(evs[i]),
    ensures
        !spec_run(s, evs).is_available,
    decreases evs.len(),
{
    if i == evs.len() - 1 {
        assert(evs.last() == evs[i]);
    } else {
        lemma_quit_ends_run(s, evs.drop_last(), i);
        lemma_step_liveness_monotone(spec_run(s, evs.drop_last()), evs.last());
    }
}

} // verus!
