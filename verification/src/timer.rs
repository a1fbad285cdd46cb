//! The countdown's decision rule. The caller owns the clock, the shared
//! expiry flag and the sleep; each second it reports the elapsed time and
//! the flag, and this rule decides whether the countdown stops or which
//! remaining-seconds value it publishes.

use vstd::prelude::*;

verus! {

/// One countdown decision: publish the remaining seconds and keep
/// counting, or stop and mark the session expired.
pub enum TimerStep {
    Tick(u64),
    Finish,
}

/// The countdown rule: once the duration has elapsed, or once the expiry
/// flag was set from outside, the countdown finishes (and the flag is set,
/// exactly once, false to true, never back); before that it publishes
/// `duration - elapsed`, which strictly decreases as seconds elapse.
pub fn timer_tick(duration: u64, elapsed: u64, expired: bool) -> (r: TimerStep)
    ensures
        r == timer_tick_spec(duration, elapsed, expired),
        (expired || elapsed >= duration) <==> (r is Finish),
        !expired && elapsed < duration ==> r == TimerStep::Tick((duration - elapsed) as u64),
{
    if elapsed >= duration {
        TimerStep::Finish
    } else if expired {
        TimerStep::Finish
    } else {
        TimerStep::Tick(duration - elapsed)
    }
}

/// While the countdown runs, the published remaining seconds strictly
/// decrease: a later second always publishes a smaller value.
pub proof fn lemma_remaining_strictly_decreases(duration: u64, e1: u64, e2: u64)
    requires
        e1 < e2 < duration,
    ensures
        duration - e2 < duration - e1,
        timer_tick_spec(duration, e1, false) == TimerStep::Tick((duration - e1) as u64),
        timer_tick_spec(duration, e2, false) == TimerStep::Tick((duration - e2) as u64),
{
}

/// The countdown rule as a spec function, for stating its laws.
pub open spec fn timer_tick_spec(duration: u64, elapsed: u64, expired: bool) -> TimerStep {
    if elapsed >= duration {
        TimerStep::Finish
    } else if expired {
        TimerStep::Finish
    } else {
        TimerStep::Tick((duration - elapsed) as u64)
    }
}

} // verus!
