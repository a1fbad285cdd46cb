use typy::game::{tokens_well_formed, Game};
use typy::keyboard::RenderCmd;
use typy::session::{
    observe_second, session_step, should_persist, EndReason, SessionControl, SessionEvent,
};
use typy::stats::Stats;
use typy::text::{join_tokens, split_whitespace_tokens};
use typy::timer::{timer_tick, TimerStep};

fn fresh(words: &[&str]) -> Game {
    let list: Vec<Vec<String>> = vec![words.iter().map(|w| w.to_string()).collect()];
    assert!(tokens_well_formed(&list));
    Game::new(list)
}

#[test]
fn session_ends_by_exhaustion_not_by_break_and_scores_once() {
    let mut g = fresh(&["hi"]);
    let mut stats = Stats::new();
    for ev in [
        SessionEvent::Key('h'),
        SessionEvent::Key('i'),
        SessionEvent::Key(' '),
    ] {
        let (control, _rend) = session_step(&mut g, &mut stats, false, ev);
        assert!(matches!(control, SessionControl::Running));
    }
    assert_eq!(g.player.position_y, 1);
    let (control, _rend) = session_step(&mut g, &mut stats, false, SessionEvent::Idle);
    assert!(matches!(
        control,
        SessionControl::Finished(EndReason::Exhausted)
    ));
    // scoring is owed exactly once, on this non-quit end
    assert!(should_persist(&g));
}

#[test]
fn quit_ends_immediately_and_skips_scoring() {
    let mut g = fresh(&["hi"]);
    let mut stats = Stats::new();
    session_step(&mut g, &mut stats, false, SessionEvent::Key('h'));
    let (control, _rend) = session_step(&mut g, &mut stats, false, SessionEvent::Quit);
    assert!(matches!(control, SessionControl::Finished(EndReason::Quit)));
    assert!(!should_persist(&g));
    assert_eq!(stats.letter_count, 1);
}

#[test]
fn observed_expiry_ends_the_session() {
    let mut g = fresh(&["hi"]);
    let mut stats = Stats::new();
    let (control, rend) = session_step(&mut g, &mut stats, true, SessionEvent::Key('h'));
    assert!(matches!(
        control,
        SessionControl::Finished(EndReason::TimedOut)
    ));
    assert!(matches!(rend, RenderCmd::Nothing));
    assert_eq!(stats.letter_count, 0);
}

#[test]
fn countdown_publishes_strictly_decreasing_seconds_then_finishes() {
    assert!(matches!(timer_tick(3, 0, false), TimerStep::Tick(3)));
    assert!(matches!(timer_tick(3, 1, false), TimerStep::Tick(2)));
    assert!(matches!(timer_tick(3, 2, false), TimerStep::Tick(1)));
    assert!(matches!(timer_tick(3, 3, false), TimerStep::Finish));
    assert!(matches!(timer_tick(3, 4, false), TimerStep::Finish));
}

#[test]
fn countdown_stops_at_once_on_external_expiry() {
    assert!(matches!(timer_tick(60, 5, true), TimerStep::Finish));
    assert!(matches!(timer_tick(60, 0, true), TimerStep::Finish));
}

#[test]
fn one_stats_tick_per_observed_change_of_remaining_time() {
    assert!(observe_second(60, 59));
    assert!(!observe_second(59, 59));
    assert!(observe_second(59, 58));
}

#[test]
fn split_drops_empty_runs_and_join_restores_text() {
    let toks = split_whitespace_tokens("  ab  cd ");
    assert_eq!(toks, vec!["ab".to_string(), "cd".to_string()]);
    assert_eq!(join_tokens(&toks), "ab cd");
    let empty: Vec<String> = split_whitespace_tokens("   ");
    assert!(empty.is_empty());
    assert_eq!(join_tokens(&Vec::new()), "");
}
