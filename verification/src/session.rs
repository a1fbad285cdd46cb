//! The session loop's decision logic. The caller polls the terminal, reads
//! the shared timer state and performs the rendering; each iteration it
//! hands one observation here and applies the decision: keep running, or
//! finish for one of four reasons. Scoring and the summary are owed exactly
//! on the ends that are not a quit.

use vstd::prelude::*;

use crate::game::Game;
use crate::keyboard::handle_input;
use crate::keyboard::input_step;
use crate::keyboard::InputAction;
use crate::keyboard::RenderCmd;
use crate::stats::Stats;

verus! {

/// What one poll iteration observed: a typed character, the quit key
/// combination, or nothing within the poll timeout.
pub enum SessionEvent {
    Key(char),
    Quit,
    Idle,
}

/// Why a session ended.
pub enum EndReason {
    /// The cursor advanced past the last line.
    Exhausted,
    /// The countdown expired.
    TimedOut,
    /// The quit key combination: scoring and summary are skipped.
    Quit,
    /// The classifier signalled the end itself.
    Signaled,
}

/// The loop decision: poll again, or leave the loop.
pub enum SessionControl {
    Running,
    Finished(EndReason),
}

/// One iteration of the session loop, in the loop's strict order: grid
/// exhaustion ends the session first, an observed expiry second, the quit
/// combination third (marking the session as quit), and only then is a
/// typed character classified; `Break` from the classifier also ends the
/// session. On a quit the caller must also set the shared expiry flag.
pub fn session_step(game: &mut Game, stats: &mut Stats, expired: bool, ev: SessionEvent) -> (r: (
    SessionControl,
    RenderCmd,
))
    requires
        old(game)@.wf(),
        old(stats).letter_count < u64::MAX,
        old(stats).incorrect_letters < u64::MAX,
    ensures
        final(game)@.wf(),
        old(game)@.y == old(game)@.lines.len() ==> {
            &&& final(game)@ == old(game)@
            &&& *final(stats) == *old(stats)
            &&& r.0 == SessionControl::Finished(EndReason::Exhausted)
            &&& (r.1@ is Nothing)
        },
        old(game)@.y < old(game)@.lines.len() && expired ==> {
            &&& final(game)@ == old(game)@
            &&& *final(stats) == *old(stats)
            &&& r.0 == SessionControl::Finished(EndReason::TimedOut)
            &&& (r.1@ is Nothing)
        },
        old(game)@.y < old(game)@.lines.len() && !expired && (ev is Quit) ==> {
            &&& final(game)@ == (crate::game::GameModel { quit: true, ..old(game)@ })
            &&& *final(stats) == *old(stats)
            &&& r.0 == SessionControl::Finished(EndReason::Quit)
            &&& (r.1@ is Nothing)
        },
        old(game)@.y < old(game)@.lines.len() && !expired && (ev is Idle) ==> {
            &&& final(game)@ == old(game)@
            &&& *final(stats) == *old(stats)
            &&& r.0 == SessionControl::Running
            &&& (r.1@ is Nothing)
        },
        old(game)@.y < old(game)@.lines.len() && !expired ==> (ev matches SessionEvent::Key(c)
            ==> {
                let so = input_step(old(game)@, c);
                &&& final(game)@ == so.m
                &&& r.1@ == so.rend
                &&& r.0 == (if so.act is Break {
                    SessionControl::Finished(EndReason::Signaled)
                } else {
                    SessionControl::Running
                })
                &&& final(stats).letter_count as int == old(stats).letter_count as int + (
                if so.key is Some {
                    1int
                } else {
                    0int
                })
                &&& final(stats).incorrect_letters as int == old(stats).incorrect_letters as int
                    + (if so.key == Some(false) {
                    1int
                } else {
                    0int
                })
            }),
{
    if game.player.position_y == game.list.len() {
        return (SessionControl::Finished(EndReason::Exhausted), RenderCmd::Nothing);
    }
    if expired {
        return (SessionControl::Finished(EndReason::TimedOut), RenderCmd::Nothing);
    }
    match ev {
        SessionEvent::Quit => {
            game.quit = true;
            (SessionControl::Finished(EndReason::Quit), RenderCmd::Nothing)
        },
        SessionEvent::Idle => (SessionControl::Running, RenderCmd::Nothing),
        SessionEvent::Key(c) => {
            let (act, rend) = handle_input(game, stats, c);
            match act {
                InputAction::Break => (SessionControl::Finished(EndReason::Signaled), rend),
                _ => (SessionControl::Running, rend),
            }
        },
    }
}

/// The per-second stats tick is owed exactly when the displayed remaining
/// time differs from the last observed value: one tick per observed
/// change, duplicates suppressed.
pub fn observe_second(previous: u64, remaining: u64) -> (tick: bool)
    ensures
        tick == (remaining != previous),
{
    remaining != previous
}

/// Scoring and the summary are owed exactly when the session was not quit.
pub fn should_persist(game: &Game) -> (r: bool)
    ensures
        r == !game@.quit,
{
    !game.quit
}

} // verus!
