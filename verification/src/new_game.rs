//! Restarting the game: a restart is requested, the game is paused, and a
//! fixed number of pause updates later the new game starts, provided the
//! game is still paused.
use vstd::prelude::*;

verus! {

/// Pause updates between a restart request and the new game.
pub const PAUSE_FRAME: u8 = 8;

/// What the game has to do after a restart decision.
#[derive(Clone, Copy, PartialEq, Eq, Structural, Debug)]
pub enum PauseAction {
    /// Nothing.
    Idle,
    /// Start a new game.
    NewGame,
    /// Pause the game.
    Pause,
}

/// The restart bookkeeping: the pause updates left before the restart (0
/// when no restart is pending) and whether paused frames still simulate.
#[derive(Clone, Copy, PartialEq, Eq, Structural, Debug)]
pub struct RestartState {
    pub do_restart: u8,
    pub pause_simulate: bool,
}

/// One pause update on countdown `c`, given whether the game is paused:
/// the next countdown and the action.
pub open spec fn restart_step(c: u8, is_paused: bool) -> (u8, PauseAction) {
    if c == 0 {
        (0, PauseAction::Idle)
    } else if c == 1 {
        if is_paused {
            (0, PauseAction::NewGame)
        } else {
            (PAUSE_FRAME, PauseAction::Pause)
        }
    } else {
        ((c - 1) as u8, PauseAction::Idle)
    }
}

/// Runs pause updates on countdown `c`, one per entry of `paused`: the
/// final countdown and the actions, in order.
pub open spec fn restart_run(c: u8, paused: Seq<bool>) -> (u8, Seq<PauseAction>)
    decreases paused.len(),
{
    if paused.len() == 0 {
        (c, Seq::empty())
    } else {
        let (c1, acts) = restart_run(c, paused.drop_last());
        let (c2, a) = restart_step(c1, paused.last());
        (c2, acts.push(a))
    }
}

/// Requests a restart: starts the countdown, stops simulating paused
/// frames, and asks for the game to be paused.
pub fn delay_new_game(state: &mut RestartState) -> (a: PauseAction)
    ensures
        final(state).do_restart == PAUSE_FRAME,
        !final(state).pause_simulate,
        a == PauseAction::Pause,
{
    state.do_restart = PAUSE_FRAME;
    state.pause_simulate = false;
    PauseAction::Pause
}

/// One pause update: counts down a pending restart; when it is due, starts
/// the new game if the game is paused, or pauses it and counts down again.
pub fn new_game_pause_update(state: &mut RestartState, is_paused: bool) -> (a: PauseAction)
    ensures
        (final(state).do_restart, a) == restart_step(old(state).do_restart, is_paused),
        final(state).pause_simulate == old(state).pause_simulate,
{
    match state.do_restart {
        0 => PauseAction::Idle,
        1 => {
            if is_paused {
                state.do_restart = 0;
                PauseAction::NewGame
            } else {
                state.do_restart = PAUSE_FRAME;
                PauseAction::Pause
            }
        },
        s => {
            state.do_restart = s - 1;
            PauseAction::Idle
        },
    }
}

/// A countdown `c >= 1` goes quiet for `c - 1` updates and then decides at
/// the `c`-th one: a new game when the game is paused then, otherwise a new
/// pause and a fresh countdown.
pub proof fn lemma_restart_fires(c: u8, paused: Seq<bool>)
    requires
        c >= 1,
        paused.len() == c,
    ensures
        ({
            let (c2, acts) = restart_run(c, paused);
            &&& acts.len() == c
            &&& forall|i: int| 0 <= i < c - 1 ==> #[trigger] acts[i] == PauseAction::Idle
            &&& acts[c - 1] == if paused.last() {
                PauseAction::NewGame
            } else {
                PauseAction::Pause
            }
            &&& c2 == if paused.last() {
                0
            } else {
                PAUSE_FRAME
            }
        }),
{
    lemma_restart_countdown(c, paused.drop_last());
}

/// `k < c` updates on countdown `c` only count down.
pub proof fn lemma_restart_countdown(c: u8, paused: Seq<bool>)
    requires
        paused.len() < c,
    ensures
        restart_run(c, paused).0 == c - paused.len(),
        restart_run(c, paused).1.len() == paused.len(),
        forall|i: int|
            0 <= i < paused.len() ==> #[trigger] restart_run(c, paused).1[i] == PauseAction::Idle,
    decreases paused.len(),
{
    if paused.len() > 0 {
        lemma_restart_countdown(c, paused.drop_last());
    }
}

/// Whether the pause hook simulates one more frame while the game is
/// paused.
pub fn pause_extra_frame(pause_simulate: bool, is_paused: bool) -> (r: bool)
    ensures
        r == (pause_simulate && is_paused),
{
    pause_simulate && is_paused
}

/// Whether an item pickup goes through: pickups are only blocked for the
/// player, and only while blocking is on.
pub fn item_pickup_allowed(disable_item_pickup: bool, entity_id: usize, player_id: usize) -> (r:
    bool)
    ensures
        r == (!disable_item_pickup || entity_id != player_id),
{
    !disable_item_pickup || entity_id != player_id
}

/// With no restart pending, any run of pause updates, paused or not, does
/// nothing and leaves nothing pending.
pub proof fn lemma_no_restart_stays_idle(paused: Seq<bool>)
    ensures
        restart_run(0, paused).0 == 0,
        restart_run(0, paused).1.len() == paused.len(),
        forall|i: int|
            0 <= i < paused.len() ==> #[trigger] restart_run(0, paused).1[i] == PauseAction::Idle,
    decreases paused.len(),
{
    if paused.len() > 0 {
        lemma_no_restart_stays_idle(paused.drop_last());
    }
}

/// A pause update pauses the game only when the countdown was due and the
/// game was running, and then counts down afresh; it starts a new game only
/// when the countdown was due and the game was paused, and then nothing is
/// pending; otherwise it only counts down a pending restart.
pub proof fn lemma_restart_actions(c: u8, is_paused: bool)
    ensures
        restart_step(c, is_paused).1 == PauseAction::Pause ==> c == 1 && !is_paused
            && restart_step(c, is_paused).0 == PAUSE_FRAME,
        restart_step(c, is_paused).1 == PauseAction::NewGame ==> c == 1 && is_paused
            && restart_step(c, is_paused).0 == 0,
        restart_step(c, is_paused).1 == PauseAction::Idle ==> restart_step(c, is_paused).0 == if c
            == 0 {
            0
        } else {
            c - 1
        },
        c == 0 ==> restart_step(c, is_paused).1 == PauseAction::Idle,
{
}

} // verus!
