use typy::game::{tokens_well_formed, Game};
use typy::keyboard::{handle_input, InputAction, RenderCmd, MAX_WORD_LENGTH};
use typy::stats::Stats;

fn grid(lines: &[&[&str]]) -> Vec<Vec<String>> {
    lines
        .iter()
        .map(|l| l.iter().map(|w| w.to_string()).collect())
        .collect()
}

fn fresh(lines: &[&[&str]]) -> Game {
    let list = grid(lines);
    assert!(tokens_well_formed(&list));
    Game::new(list)
}

#[test]
fn line_text_joins_tokens_with_single_spaces() {
    let g = fresh(&[&["ab", "cd"], &["x"]]);
    assert_eq!(g.get_word_string(0), "ab cd");
    assert_eq!(g.get_word_string(1), "x");
    assert_eq!(g.line_length(0), 5);
    assert_eq!(g.char_at(0, 2), ' ');
}

#[test]
fn insert_resplits_line_and_keeps_join_invariant() {
    let mut g = fresh(&[&["ab", "cd"]]);
    g.insert_char(0, 2, 'x');
    assert_eq!(g.list[0], vec!["abx".to_string(), "cd".to_string()]);
    assert_eq!(g.get_word_string(0), "abx cd");
}

#[test]
fn inserting_a_space_splits_a_token_in_two() {
    let mut g = fresh(&[&["ab"]]);
    g.insert_char(0, 1, ' ');
    assert_eq!(g.list[0], vec!["a".to_string(), "b".to_string()]);
    assert_eq!(g.get_word_string(0), "a b");
}

#[test]
fn typing_exact_line_is_all_correct_and_reaches_line_length() {
    let mut g = fresh(&[&["ab", "cd"]]);
    let mut stats = Stats::new();
    for c in "ab cd".chars() {
        let (act, _rend) = handle_input(&mut g, &mut stats, c);
        assert!(!matches!(act, InputAction::Break));
    }
    assert_eq!(g.player.position_x, 5);
    assert_eq!(g.player.position_y, 0);
    assert_eq!(g.line_length(0), 5);
    assert_eq!(stats.letter_count, 5);
    assert_eq!(stats.incorrect_letters, 0);
}

#[test]
fn space_at_start_of_line_changes_nothing() {
    let mut g = fresh(&[&["ab", "cd"]]);
    let mut stats = Stats::new();
    let (act, rend) = handle_input(&mut g, &mut stats, ' ');
    assert!(matches!(act, InputAction::Continue));
    assert!(matches!(rend, RenderCmd::Nothing));
    assert_eq!(g.player.position_x, 0);
    assert_eq!(g.selected_word_index, 0);
    assert_eq!(stats.letter_count, 0);
}

#[test]
fn double_space_makes_at_most_one_jump() {
    let mut g = fresh(&[&["ab", "cd"]]);
    let mut stats = Stats::new();
    handle_input(&mut g, &mut stats, 'a');
    handle_input(&mut g, &mut stats, 'b');
    // first space: jumps to the gap and is typed there
    handle_input(&mut g, &mut stats, ' ');
    assert_eq!(g.player.position_x, 3);
    assert_eq!(g.selected_word_index, 1);
    assert_eq!(g.jump_position, 2);
    // second space: swallowed by a guard, nothing moves
    let (act, _) = handle_input(&mut g, &mut stats, ' ');
    assert!(matches!(act, InputAction::Continue));
    assert_eq!(g.player.position_x, 3);
    assert_eq!(g.selected_word_index, 1);
}

#[test]
fn nonspace_typed_at_gap_splices_without_advancing_word_index() {
    let mut g = fresh(&[&["ab", "cd"]]);
    let mut stats = Stats::new();
    handle_input(&mut g, &mut stats, 'a');
    handle_input(&mut g, &mut stats, 'b');
    assert_eq!(g.player.position_x, 2);
    let (act, rend) = handle_input(&mut g, &mut stats, 'x');
    assert!(matches!(act, InputAction::NoOp));
    match rend {
        RenderCmd::Inserted { glyph, tail } => {
            assert_eq!(glyph, 'x');
            assert_eq!(tail, " cd");
        }
        _ => panic!("expected a splice"),
    }
    assert_eq!(g.list[0], vec!["abx".to_string(), "cd".to_string()]);
    assert_eq!(g.selected_word_index, 0);
    assert_eq!(g.player.position_x, 3);
}

#[test]
fn wrong_character_renders_expected_glyph_and_counts_incorrect() {
    let mut g = fresh(&[&["ab"]]);
    let mut stats = Stats::new();
    let (act, rend) = handle_input(&mut g, &mut stats, 'z');
    assert!(matches!(act, InputAction::NoOp));
    match rend {
        RenderCmd::Typed { glyph, correct } => {
            assert_eq!(glyph, 'a');
            assert!(!correct);
        }
        _ => panic!("expected a typed glyph"),
    }
    assert_eq!(stats.letter_count, 1);
    assert_eq!(stats.incorrect_letters, 1);
    assert_eq!(g.player.position_x, 1);
}

#[test]
fn line_never_grows_past_the_cap_and_excess_keystroke_is_a_noop() {
    let long: String = "a".repeat(99);
    let list = vec![vec![long]];
    assert!(tokens_well_formed(&list));
    let mut g = Game::new(list);
    let mut stats = Stats::new();
    // skip to the end of the known text by typing it
    for _ in 0..99 {
        handle_input(&mut g, &mut stats, 'a');
    }
    assert_eq!(g.player.position_x, 99);
    // overflow typing grows the line to the cap, unscored
    handle_input(&mut g, &mut stats, 'b');
    assert_eq!(g.line_length(0), MAX_WORD_LENGTH);
    assert_eq!(g.player.position_x, 100);
    assert_eq!(stats.letter_count, 99);
    // the excess keystroke changes nothing at all
    let (act, rend) = handle_input(&mut g, &mut stats, 'c');
    assert!(matches!(act, InputAction::NoOp));
    assert!(matches!(rend, RenderCmd::Nothing));
    assert_eq!(g.line_length(0), MAX_WORD_LENGTH);
    assert_eq!(g.player.position_x, 100);
    assert_eq!(stats.letter_count, 99);
}

#[test]
fn overflow_typing_is_not_scored() {
    let mut g = fresh(&[&["hi"]]);
    let mut stats = Stats::new();
    handle_input(&mut g, &mut stats, 'h');
    handle_input(&mut g, &mut stats, 'i');
    assert_eq!(stats.letter_count, 2);
    handle_input(&mut g, &mut stats, 'z');
    assert_eq!(g.get_word_string(0), "hiz");
    assert_eq!(stats.letter_count, 2);
    assert_eq!(stats.incorrect_letters, 0);
}

#[test]
fn splitting_rejects_malformed_grids() {
    assert!(!tokens_well_formed(&vec![vec!["".to_string()]]));
    assert!(!tokens_well_formed(&vec![vec!["a b".to_string()]]));
    assert!(tokens_well_formed(&vec![vec![]]));
    assert!(tokens_well_formed(&vec![]));
}
