//! The top-level game state machine.

use vstd::prelude::*;

verus! {

/// The coarse states the game moves through.
#[derive(Clone, Copy, Debug, PartialEq, Eq, Structural)]
pub enum GameState {
    Boot,
    Running,
    Paused,
    Quit,
}

/// Holds the current game state; every transition reports where it came from.
pub struct StateMachine {
    state: GameState,
}

impl StateMachine {
    /// The state the machine is in.
    pub closed spec fn view_state(&self) -> GameState {
        self.state
    }

    /// A fresh machine starts in `Boot`.
    pub fn new() -> (machine: Self)
        ensures
            machine.view_state() == GameState::Boot,
    {
        StateMachine { state: GameState::Boot }
    }

    /// The current state.
    pub fn state(&self) -> (current: GameState)
        ensures
            current == self.view_state(),
    {
        self.state
    }

    /// Moves to `next` unconditionally and returns `(previous, next)`.
    pub fn transition(&mut self, next: GameState) -> (change: (GameState, GameState))
        ensures
            change == (old(self).view_state(), next),
            final(self).view_state() == next,
    {
        let previous = self.state;
        self.state = next;
        (previous, next)
    }
}

/// Where the pause key takes the game: running and paused swap, other states stay.
pub open spec fn spec_pause_toggle(state: GameState) -> Option<GameState> {
    match state {
        GameState::Running => Some(GameState::Paused),
        GameState::Paused => Some(GameState::Running),
        _ => None,
    }
}

/// The state the pause key moves the game to, if it moves it at all.
pub fn pause_toggle(state: GameState) -> (target: Option<GameState>)
    ensures
        target == spec_pause_toggle(state),
{
    match state {
        GameState::Running => Some(GameState::Paused),
        GameState::Paused => Some(GameState::Running),
        _ => None,
    }
}

/// The state changes one frame makes: the pause key first, where it moves the game,
/// then the quit key, which moves it to `Quit` whatever state it is in.
pub open spec fn frame_changes(state: GameState, escape_pressed: bool, quit_pressed: bool) -> Seq<
    (GameState, GameState),
> {
    let toggled: Seq<(GameState, GameState)> = match spec_pause_toggle(state) {
        Some(target) if escape_pressed => seq![(state, target)],
        _ => Seq::empty(),
    };
    let mid = frame_after_pause(state, escape_pressed);
    if quit_pressed {
        toggled.push((mid, GameState::Quit))
    } else {
        toggled
    }
}

/// The state after the pause key of a frame has been handled.
pub open spec fn frame_after_pause(state: GameState, escape_pressed: bool) -> GameState {
    match spec_pause_toggle(state) {
        Some(target) if escape_pressed => target,
        _ => state,
    }
}

/// The state a frame leaves the game in.
pub open spec fn frame_end_state(state: GameState, escape_pressed: bool, quit_pressed: bool) -> GameState {
    if quit_pressed {
        GameState::Quit
    } else {
        frame_after_pause(state, escape_pressed)
    }
}

/// What one frame of the main loop decided.
pub struct FrameDecision {
    /// Every `(from, to)` transition made, in order; each is reported as a state change.
    pub changes: Vec<(GameState, GameState)>,
    /// The loop ends: the game has quit.
    pub stop: bool,
    /// The world is stepped this frame: the game is running.
    pub update: bool,
}

impl StateMachine {
    /// Handles the keys of one frame: the pause key toggles between running and paused,
    /// the quit key moves to `Quit`; then says whether the loop stops and whether the
    /// world is updated.
    pub fn frame(&mut self, escape_pressed: bool, quit_pressed: bool) -> (decision: FrameDecision)
        ensures
            decision.changes@ == frame_changes(old(self).view_state(), escape_pressed, quit_pressed),
            final(self).view_state() == frame_end_state(
                old(self).view_state(),
                escape_pressed,
                quit_pressed,
            ),
            decision.stop == (final(self).view_state() == GameState::Quit),
            decision.update == (final(self).view_state() == GameState::Running),
    {
        let mut changes: Vec<(GameState, GameState)> = Vec::new();
        if escape_pressed {
            if let Some(target) = pause_toggle(self.state()) {
                let change = self.transition(target);
                changes.push(change);
            }
        }
        if quit_pressed {
            let change = self.transition(GameState::Quit);
            changes.push(change);
        }
        let current = self.state();
        let stop = match current {
            GameState::Quit => true,
            _ => false,
        };
        let update = match current {
            GameState::Running => true,
            _ => false,
        };
        assert(changes@ =~= frame_changes(old(self).view_state(), escape_pressed, quit_pressed));
        FrameDecision { changes, stop, update }
    }
}

/// Pressing pause twice from a running or paused game comes back to where it started.
pub proof fn lemma_pause_toggle_twice(state: GameState)
    requires
        state == GameState::Running || state == GameState::Paused,
    ensures
        spec_pause_toggle(spec_pause_toggle(state)->Some_0) == Some(state),
{
}

} // verus!
