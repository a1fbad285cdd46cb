//! The keystroke classifier: the session's state machine. Given the grid,
//! the cursor and one pressed key it decides the render instruction, the
//! grid mutation, the cursor update and the control signal. The space key
//! walks a strict chain of guards before it may jump to the next word;
//! character keys are classified against the expected character and may
//! splice themselves into the line.

use vstd::prelude::*;

use crate::game::Game;
use crate::game::GameModel;
use crate::stats::Stats;
use crate::text::lemma_join_canonical;
use crate::text::lemma_prefix_units_bounds;
use crate::text::lemma_prefix_units_step;
use crate::text::lemma_short_line_no_space;
use crate::text::lemma_space_position;
use crate::text::lemma_spaces_take_le;
use crate::text::lemma_spaces_total;
use crate::text::lemma_splice_token_count;
use crate::text::lemma_spliced_canonical;
use crate::text::spaces_in;
use crate::text::prefix_units;
use crate::text::spliced;
use crate::text::split_ws;
use crate::text::wf_token;

verus! {

/// A line is never grown beyond this many characters; the excess keystroke
/// is discarded.
pub const MAX_WORD_LENGTH: usize = 100;

/// The classifier's control signal: keep polling with no visible effect,
/// end the session, or fall through to the next rule.
pub enum InputAction {
    Continue,
    Break,
    NoOp,
}

/// What the caller must draw: nothing, one classified glyph at the cursor,
/// or a spliced-in glyph followed by the shifted rest of the line.
pub enum RenderCmd {
    Nothing,
    Typed { glyph: char, correct: bool },
    Inserted { glyph: char, tail: String },
}

/// The mathematical image of a render instruction.
pub enum RenderModel {
    Nothing,
    Typed { glyph: char, correct: bool },
    Inserted { glyph: char, tail: Seq<char> },
}

impl View for RenderCmd {
    type V = RenderModel;

    open spec fn view(&self) -> RenderModel {
        match self {
            RenderCmd::Nothing => RenderModel::Nothing,
            RenderCmd::Typed { glyph, correct } => RenderModel::Typed {
                glyph: *glyph,
                correct: *correct,
            },
            RenderCmd::Inserted { glyph, tail } => RenderModel::Inserted {
                glyph: *glyph,
                tail: tail@,
            },
        }
    }
}

/// One classified keystroke: the state afterwards, the control signal, the
/// recorded correctness (if the keystroke was scored) and the render
/// instruction.
pub struct StepOut {
    pub m: GameModel,
    pub act: InputAction,
    pub key: Option<bool>,
    pub rend: RenderModel,
}

/// Space guard: the character just before the cursor is already a space,
/// so repeated jumps must not stack.
pub open spec fn double_space_guard(m: GameModel) -> bool {
    m.x > 0 && m.cur_text()[m.x - 1] == ' '
}

/// Space guard: the cursor has already skipped past every word of the
/// line.
pub open spec fn end_of_line_guard(m: GameModel) -> bool {
    m.sel == m.count() - 1
}

/// Space guard: the cursor sits right after the most recent jump.
pub open spec fn repeat_jump_guard(m: GameModel) -> bool {
    m.jump + 1 == m.x && m.jump != 0
}

/// Moving to the start of the next line.
pub open spec fn advance_line(m: GameModel) -> GameModel {
    GameModel { x: 0, y: m.y + 1, jump: 1, sel: 0, ..m }
}

/// The column of a word-skip jump: the cumulative length of the first
/// `sel + 1` tokens, one unit per token for its separating space, minus
/// one — the gap right before the next word.
pub open spec fn jump_col(m: GameModel) -> int {
    prefix_units(m.toks(m.y), m.sel + 1) - 1
}

/// A word-skip jump: the cursor and the jump bookkeeping move to the gap,
/// and one more word counts as skipped.
pub open spec fn do_jump(m: GameModel) -> GameModel {
    GameModel { x: jump_col(m), jump: jump_col(m), sel: m.sel + 1, ..m }
}

/// The space key performs a jump exactly when none of its guards applies.
pub open spec fn space_jumps(m: GameModel) -> bool {
    &&& !double_space_guard(m)
    &&& m.x != 0
    &&& !end_of_line_guard(m)
    &&& !repeat_jump_guard(m)
}

/// The space key's decision chain, guards in strict priority order.
pub open spec fn space_step(m: GameModel) -> (GameModel, InputAction) {
    if double_space_guard(m) {
        (m, InputAction::Continue)
    } else if m.x == 0 {
        (m, InputAction::Continue)
    } else if end_of_line_guard(m) {
        if m.y == m.lines.len() {
            (m, InputAction::Break)
        } else {
            (advance_line(m), InputAction::Continue)
        }
    } else if repeat_jump_guard(m) {
        (m, InputAction::Continue)
    } else {
        (do_jump(m), InputAction::NoOp)
    }
}

/// The grid after splicing `c` into the current line at the cursor column
/// and re-splitting the line on spaces.
pub open spec fn splice_line(m: GameModel, c: char) -> GameModel {
    GameModel { lines: m.lines.update(m.y, split_ws(spliced(m.cur_text(), m.x, c))), ..m }
}

/// Whether the keystroke matches the character now under the cursor.
pub open spec fn keystroke_correct(m: GameModel, c: char) -> bool {
    c == m.cur_text()[m.x]
}

/// The bookkeeping after a classified character: the column advances by
/// one, and a non-space typed where the (current) line shows a space marks
/// the start of a new word.
pub open spec fn update_state(m: GameModel, c: char) -> GameModel {
    GameModel {
        sel: if m.cur_text()[m.x] == ' ' && c != ' ' {
            m.sel + 1
        } else {
            m.sel
        },
        x: m.x + 1,
        ..m
    }
}

/// A character key inside the known text: correct match, splice into a
/// space gap (length-capped), or a plain miss.
pub open spec fn char_step(m: GameModel, c: char) -> StepOut {
    let t = m.cur_text();
    let e = t[m.x];
    if c == e {
        StepOut {
            m: update_state(m, c),
            act: InputAction::NoOp,
            key: Some(true),
            rend: RenderModel::Typed { glyph: c, correct: true },
        }
    } else if e == ' ' {
        if t.len() >= MAX_WORD_LENGTH {
            StepOut { m, act: InputAction::Continue, key: None, rend: RenderModel::Nothing }
        } else {
            let m1 = splice_line(m, c);
            StepOut {
                m: update_state(m1, c),
                act: InputAction::NoOp,
                key: Some(keystroke_correct(m1, c)),
                rend: RenderModel::Inserted { glyph: c, tail: t.skip(m.x) },
            }
        }
    } else {
        StepOut {
            m: update_state(m, c),
            act: InputAction::NoOp,
            key: Some(false),
            rend: RenderModel::Typed { glyph: e, correct: false },
        }
    }
}

/// The character phase of a keystroke: classify inside the known text,
/// splice past its end while the cap allows, otherwise ignore. Overflow
/// characters are not scored.
pub open spec fn char_phase(m: GameModel, c: char) -> StepOut {
    let t = m.cur_text();
    if m.x < t.len() {
        char_step(m, c)
    } else if t.len() < MAX_WORD_LENGTH {
        let m1 = splice_line(m, c);
        StepOut {
            m: GameModel { x: m.x + 1, ..m1 },
            act: InputAction::NoOp,
            key: None,
            rend: RenderModel::Inserted { glyph: c, tail: t.skip(m.x) },
        }
    } else {
        StepOut { m, act: InputAction::NoOp, key: None, rend: RenderModel::Nothing }
    }
}

/// One full keystroke: a space first walks the guard chain and, if it
/// jumped, is then classified at the jumped-to gap like any character.
pub open spec fn input_step(m: GameModel, c: char) -> StepOut {
    if c == ' ' {
        let (m1, act) = space_step(m);
        if act is NoOp {
            char_phase(m1, c)
        } else {
            StepOut { m: m1, act, key: None, rend: RenderModel::Nothing }
        }
    } else {
        char_phase(m, c)
    }
}

/// Where a word-skip jump lands: strictly inside the line, past the first
/// column — the gap right before the next word.
pub proof fn lemma_jump_bounds(m: GameModel)
    requires
        m.wf(),
        m.y < m.lines.len(),
        m.x != 0,
        !end_of_line_guard(m),
    ensures
        1 <= jump_col(m) < m.cur_text().len(),
{
    let toks = m.toks(m.y);
    if m.count() == 0 {
        assert(m.cur_text().len() == 0);
        assert(false);
    }
    assert(m.sel + 1 <= m.count() - 1);
    lemma_prefix_units_bounds(toks, m.sel + 1);
    lemma_prefix_units_bounds(toks, m.count());
    lemma_prefix_units_step(toks, m.sel + 1, m.count() - 1);
    assert(prefix_units(toks, m.count()) == prefix_units(toks, m.count() - 1) + toks[m.count()
        - 1].len() + 1);
    assert(wf_token(toks[m.count() - 1]));
}

/// A space at the start of a line is ignored: it changes nothing — not the
/// column, not the word-skip counter, not the grid.
pub proof fn lemma_space_at_start_of_line(m: GameModel)
    requires
        m.wf(),
        m.y < m.lines.len(),
        m.x == 0,
    ensures
        input_step(m, ' ').m == m,
        input_step(m, ' ').act == InputAction::Continue,
        input_step(m, ' ').key is None,
{
}

/// Two spaces in immediate succession make at most one word-skip jump:
/// after a space that jumped, the next space hits a guard and jumps
/// nowhere.
pub proof fn lemma_double_space_single_jump(m: GameModel)
    requires
        m.wf(),
        m.y < m.lines.len(),
        space_jumps(m),
    ensures
        !space_jumps(input_step(m, ' ').m),
{
    let m1 = do_jump(m);
    lemma_jump_bounds(m);
    assert(input_step(m, ' ') == char_phase(m1, ' '));
    let t = m1.cur_text();
    let e = t[m1.x];
    let m2 = input_step(m, ' ').m;
    if ' ' == e {
        assert(m2 == update_state(m1, ' '));
    } else {
        assert(m2 == update_state(m1, ' '));
    }
    assert(m2.jump == jump_col(m));
    assert(m2.x == jump_col(m) + 1);
    assert(repeat_jump_guard(m2));
}

/// No keystroke grows the current line beyond the maximum length; the
/// excess keystroke at the cap leaves the whole grid unchanged.
pub proof fn lemma_line_length_capped(m: GameModel, c: char)
    requires
        m.wf(),
        m.y < m.lines.len(),
        m.cur_text().len() <= MAX_WORD_LENGTH,
    ensures
        input_step(m, c).m.text(m.y).len() <= MAX_WORD_LENGTH,
        m.cur_text().len() == MAX_WORD_LENGTH ==> input_step(m, c).m.lines == m.lines,
{
    lemma_join_canonical(m.toks(m.y));
    if c == ' ' {
        let (m1, act) = space_step(m);
        if act is NoOp {
            lemma_jump_bounds(m);
            // the jump lands inside the line, so the space is classified
            // there and nothing is spliced
            assert(m1.cur_text() == m.cur_text());
            assert(input_step(m, c).m.lines == m.lines);
        } else {
            assert(input_step(m, c).m.text(m.y) == m.text(m.y));
        }
    } else {
        let t = m.cur_text();
        if m.x < t.len() && c != t[m.x] && t[m.x] == ' ' && t.len() < MAX_WORD_LENGTH {
            lemma_spliced_canonical(t, m.x, c);
            crate::text::lemma_join_split_canonical(spliced(t, m.x, c));
            assert(input_step(m, c).m.text(m.y) == spliced(t, m.x, c));
        } else if m.x >= t.len() && t.len() < MAX_WORD_LENGTH {
            lemma_spliced_canonical(t, m.x, c);
            crate::text::lemma_join_split_canonical(spliced(t, m.x, c));
            assert(input_step(m, c).m.text(m.y) == spliced(t, m.x, c));
        }
    }
}

/// The shape a state has while a line is typed through exactly, from a
/// fresh cursor: the word-skip counter equals the spaces typed so far, and
/// the jump bookkeeping points at a typed space (or is still zero).
pub open spec fn typing_stage(m: GameModel) -> bool {
    &&& m.wf()
    &&& m.y < m.lines.len()
    &&& m.sel == spaces_in(m.cur_text().take(m.x))
    &&& (m.jump == 0 || (1 <= m.jump && m.jump < m.x && m.cur_text()[m.jump] == ' '))
}

/// The state after the next `k` characters of the current line are typed
/// exactly as they stand.
pub open spec fn type_exact(m: GameModel, k: nat) -> GameModel
    decreases k,
{
    if k == 0 {
        m
    } else {
        type_exact(input_step(m, m.cur_text()[m.x]).m, (k - 1) as nat)
    }
}

/// Every one of the next `k` exactly-typed characters is scored as a
/// correct keystroke.
pub open spec fn types_all_correct(m: GameModel, k: nat) -> bool
    decreases k,
{
    k == 0 || (input_step(m, m.cur_text()[m.x]).key == Some(true) && types_all_correct(
        input_step(m, m.cur_text()[m.x]).m,
        (k - 1) as nat,
    ))
}

/// One exactly-typed character: scored correct, the column advances by
/// one, the grid stays untouched, and the stage shape is preserved.
proof fn lemma_type_exact_step(m: GameModel)
    requires
        typing_stage(m),
        m.x < m.cur_text().len(),
    ensures
        ({
            let so = input_step(m, m.cur_text()[m.x]);
            &&& so.m.lines == m.lines
            &&& so.m.y == m.y
            &&& so.m.quit == m.quit
            &&& so.m.x == m.x + 1
            &&& typing_stage(so.m)
            &&& so.key == Some(true)
        }),
{
    let t = m.cur_text();
    let c = t[m.x];
    lemma_join_canonical(m.toks(m.y));
    assert(t.take(m.x + 1).drop_last() =~= t.take(m.x));
    assert(t.take(m.x + 1).last() == c);
    if c != ' ' {
        assert(input_step(m, c) == char_step(m, c));
        assert(spaces_in(t.take(m.x + 1)) == m.sel);
    } else {
        assert(m.x >= 1) by {
            assert(t[0] != ' ');
        }
        assert(!double_space_guard(m)) by {
            assert(!(t[m.x - 1] == ' ' && t[m.x] == ' '));
        }
        assert(!end_of_line_guard(m)) by {
            lemma_spaces_total(m.toks(m.y));
            lemma_spaces_take_le(t, m.x + 1);
            assert(spaces_in(t.take(m.x + 1)) == m.sel + 1);
            assert(m.sel + 1 <= m.count() - 1);
        }
        assert(!repeat_jump_guard(m)) by {
            if m.jump + 1 == m.x && m.jump != 0 {
                assert(t[m.jump] == ' ');
                assert(!(t[m.x - 1] == ' ' && t[m.x] == ' '));
                assert(false);
            }
        }
        lemma_space_position(m.toks(m.y), m.x);
        assert(jump_col(m) == m.x);
        let m1 = do_jump(m);
        assert(m1.cur_text() == t);
        assert(space_step(m).0 == m1);
        assert(space_step(m).1 is NoOp);
        assert(input_step(m, c) == char_step(m1, c));
        assert(input_step(m, c).m == update_state(m1, c));
        assert(spaces_in(t.take(m.x + 1)) == m.sel + 1);
    }
}

/// Typing the exact text of a line, character by character from a fresh
/// cursor, classifies every keystroke as correct and advances the column
/// to the line's length, the grid untouched. (Fresh means the jump
/// bookkeeping is still zero: on a line entered by a space-advance it
/// starts at one, and there the repeat-jump guard can swallow an expected
/// space at column two.)
pub proof fn lemma_typing_exact_line(m: GameModel)
    requires
        m.wf(),
        m.y < m.lines.len(),
        m.x == 0,
        m.sel == 0,
        m.jump == 0,
    ensures
        ({
            let mk = type_exact(m, m.cur_text().len() as nat);
            &&& mk.x == m.cur_text().len()
            &&& mk.lines == m.lines
            &&& mk.y == m.y
            &&& types_all_correct(m, m.cur_text().len() as nat)
        }),
{
    assert(m.cur_text().take(0) =~= Seq::<char>::empty());
    assert(spaces_in(m.cur_text().take(0)) == 0);
    lemma_typing_from_stage(m, m.cur_text().len() as nat);
}

/// The induction behind the exact-typing law, from any stage state.
proof fn lemma_typing_from_stage(m: GameModel, k: nat)
    requires
        typing_stage(m),
        m.x + k <= m.cur_text().len(),
    ensures
        ({
            let mk = type_exact(m, k);
            &&& mk.x == m.x + k
            &&& mk.lines == m.lines
            &&& mk.y == m.y
            &&& types_all_correct(m, k)
        }),
    decreases k,
{
    if k > 0 {
        lemma_type_exact_step(m);
        let m1 = input_step(m, m.cur_text()[m.x]).m;
        assert(m1.cur_text() == m.cur_text());
        lemma_typing_from_stage(m1, (k - 1) as nat);
    }
}

/// Space guard: repeated jumps must not stack — the character just before
/// the cursor is already a space.
pub fn handle_space_at_start(game: &Game) -> (r: InputAction)
    requires
        game@.wf(),
        game@.y < game@.lines.len(),
    ensures
        (r is Continue) <==> double_space_guard(game@),
        !(r is Break),
{
    if game.player.position_x == 0 {
        return InputAction::NoOp;
    }
    let prev = game.char_at(game.player.position_y, game.player.position_x - 1);
    if prev == ' ' {
        InputAction::Continue
    } else {
        InputAction::NoOp
    }
}

/// Space guard: a space at the very start of a line is ignored.
pub fn handle_start_of_line(game: &Game) -> (r: InputAction)
    ensures
        (r is Continue) <==> game@.x == 0,
        !(r is Break),
{
    if game.player.position_x == 0 {
        InputAction::Continue
    } else {
        InputAction::NoOp
    }
}

/// Space rule: once every word of the line has been skipped, a space
/// advances the cursor to the start of the next line.
pub fn handle_end_of_line(game: &mut Game) -> (r: InputAction)
    requires
        old(game)@.wf(),
        old(game)@.y < old(game)@.lines.len(),
    ensures
        end_of_line_guard(old(game)@) ==> final(game)@ == advance_line(old(game)@) && (
        r is Continue),
        !end_of_line_guard(old(game)@) ==> final(game)@ == old(game)@ && (r is NoOp),
        final(game)@.wf(),
{
    let y = game.player.position_y;
    let cnt = game.list[y].len();
    proof {
        assert(game@.count() == cnt);
    }
    if game.selected_word_index + 1 == cnt {
        if game.player.position_y == game.list.len() {
            // mirrors the pre-advance exhaustion check; unreachable while
            // the line index is live
            return InputAction::Break;
        }
        game.player.position_x = 0;
        game.player.position_y = y + 1;
        game.jump_position = 1;
        game.selected_word_index = 0;
        proof {
            assert(game@ =~= advance_line(old(game)@));
        }
        return InputAction::Continue;
    }
    InputAction::NoOp
}

/// Space rule: the word-skip jump itself. The cursor moves to the gap
/// right before the next word, strictly inside the line.
pub fn handle_jump_position(game: &mut Game)
    requires
        old(game)@.wf(),
        old(game)@.y < old(game)@.lines.len(),
        old(game)@.x != 0,
        !end_of_line_guard(old(game)@),
    ensures
        final(game)@ == do_jump(old(game)@),
        final(game)@.wf(),
        1 <= final(game)@.x < final(game)@.cur_text().len(),
{
    let ghost m = game@;
    let ghost toks = m.toks(m.y);
    proof {
        if m.count() == 0 {
            assert(m.cur_text().len() == 0);
            assert(false);
        }
        lemma_join_canonical(toks);
        // the guard failed and the counter is below the count, so at least
        // one word is left beyond the skipped ones
        assert(m.sel + 1 <= m.count() - 1);
        lemma_prefix_units_bounds(toks, m.sel + 1);
        lemma_prefix_units_bounds(toks, m.count());
        lemma_prefix_units_step(toks, m.sel + 1, m.count() - 1);
        assert(prefix_units(toks, m.count()) == prefix_units(toks, m.count() - 1) + toks[m.count()
            - 1].len() + 1);
        assert(wf_token(toks[m.count() - 1]));
    }
    let y = game.player.position_y;
    let sel = game.selected_word_index;
    let mut sum: usize = 0;
    let mut k: usize = 0;
    while k <= sel
        invariant
            game@ == m,
            m.wf(),
            m.y < m.lines.len(),
            y == m.y,
            sel == m.sel,
            m.sel + 1 <= m.count() - 1,
            toks == m.toks(m.y),
            k <= sel + 1,
            sum == prefix_units(toks, k as int),
            prefix_units(toks, m.sel + 1) <= m.cur_text().len(),
            2 * m.count() <= m.cur_text().len() + 1,
            m.cur_text().len() < usize::MAX,
        decreases sel + 1 - k,
    {
        proof {
            lemma_prefix_units_step(toks, k + 1, m.sel + 1);
            assert(toks[k as int] == game.list@[y as int]@[k as int]@);
        }
        let wlen = game.list[y][k].as_str().unicode_len();
        sum = sum + wlen + 1;
        k = k + 1;
    }
    proof {
        lemma_prefix_units_bounds(toks, m.sel + 1);
    }
    game.jump_position = sum - 1;
    game.player.position_x = sum - 1;
    game.selected_word_index = sel + 1;
    proof {
        assert(game@ =~= do_jump(m));
    }
}

/// The space key: the guard chain in strict priority order, then the jump.
pub fn handle_space(game: &mut Game) -> (r: InputAction)
    requires
        old(game)@.wf(),
        old(game)@.y < old(game)@.lines.len(),
    ensures
        final(game)@ == space_step(old(game)@).0,
        r == space_step(old(game)@).1,
        final(game)@.wf(),
        (r is NoOp) <==> space_jumps(old(game)@),
        space_jumps(old(game)@) ==> 1 <= final(game)@.x < final(game)@.cur_text().len(),
{
    match handle_space_at_start(game) {
        InputAction::Continue => {
            return InputAction::Continue;
        },
        _ => {},
    }
    match handle_start_of_line(game) {
        InputAction::Continue => {
            return InputAction::Continue;
        },
        _ => {},
    }
    match handle_end_of_line(game) {
        InputAction::Continue => {
            return InputAction::Continue;
        },
        InputAction::Break => {
            return InputAction::Break;
        },
        _ => {},
    }
    if game.player.position_x - 1 == game.jump_position && game.jump_position != 0 {
        return InputAction::Continue;
    }
    handle_jump_position(game);
    InputAction::NoOp
}

/// The bookkeeping step after a classified character key: scores the
/// keystroke against the character now under the cursor, counts a begun
/// word, and advances the column.
pub fn update_game_state(game: &mut Game, stats: &mut Stats, c: char)
    requires
        old(game)@.wf(),
        old(game)@.y < old(game)@.lines.len(),
        old(game)@.x < old(game)@.cur_text().len(),
        old(stats).letter_count < u64::MAX,
        old(stats).incorrect_letters < u64::MAX,
    ensures
        final(game)@ == update_state(old(game)@, c),
        final(stats).letter_count == old(stats).letter_count + 1,
        final(stats).incorrect_letters == old(stats).incorrect_letters + (if keystroke_correct(
            old(game)@,
            c,
        ) {
            0u64
        } else {
            1u64
        }),
{
    let e = game.char_at(game.player.position_y, game.player.position_x);
    if c == e {
        stats.letter_count = stats.letter_count + 1;
    } else {
        stats.incorrect_letters = stats.incorrect_letters + 1;
        stats.letter_count = stats.letter_count + 1;
    }
    if e == ' ' && c != ' ' {
        proof {
            if game@.count() <= 1 {
                lemma_short_line_no_space(game@.toks(game@.y));
                assert(false);
            }
            lemma_prefix_units_bounds(game@.toks(game@.y), game@.count());
        }
        game.selected_word_index = game.selected_word_index + 1;
    }
    game.player.position_x = game.player.position_x + 1;
    proof {
        assert(game@ =~= update_state(old(game)@, c));
    }
}

/// Splices a mistyped character into the line — the grid's only mutation
/// path — unless the line already has the maximum length, in which case
/// the keystroke is discarded with no effect at all.
pub fn add_incorrect_char(game: &mut Game, c: char) -> (r: (InputAction, RenderCmd))
    requires
        old(game)@.wf(),
        old(game)@.y < old(game)@.lines.len(),
        old(game)@.x <= old(game)@.cur_text().len(),
        c != ' ',
    ensures
        old(game)@.cur_text().len() >= MAX_WORD_LENGTH ==> final(game)@ == old(game)@ && (
        r.0 is Continue) && r.1@ is Nothing,
        old(game)@.cur_text().len() < MAX_WORD_LENGTH ==> {
            &&& final(game)@ == splice_line(old(game)@, c)
            &&& final(game)@.cur_text() == spliced(old(game)@.cur_text(), old(game)@.x, c)
            &&& final(game)@.count() == if old(game)@.count() == 0 {
                1int
            } else {
                old(game)@.count()
            }
            &&& (r.0 is NoOp)
            &&& r.1@ == (RenderModel::Inserted { glyph: c, tail: old(game)@.cur_text().skip(old(game)@.x) })
        },
        final(game)@.wf(),
{
    let y = game.player.position_y;
    let x = game.player.position_x;
    let n = game.line_length(y);
    if n >= MAX_WORD_LENGTH {
        return (InputAction::Continue, RenderCmd::Nothing);
    }
    let s = game.get_word_string(y);
    let after_str = s.as_str().substring_char(x, n);
    let after = String::from_str(after_str);
    proof {
        assert(s@.subrange(x as int, n as int) =~= game@.cur_text().skip(x as int));
    }
    let ghost m = game@;
    game.insert_char(y, x, c);
    proof {
        lemma_splice_token_count(m.toks(m.y), m.x, c);
        assert(game@ =~= splice_line(m, c));
        lemma_join_canonical(game@.toks(game@.y));
    }
    (InputAction::NoOp, RenderCmd::Inserted { glyph: c, tail: after })
}

/// A character key inside the known text: render decision, optional
/// splice, then the bookkeeping step.
pub fn handle_chars(game: &mut Game, stats: &mut Stats, c: char) -> (r: (InputAction, RenderCmd))
    requires
        old(game)@.wf(),
        old(game)@.y < old(game)@.lines.len(),
        old(game)@.x < old(game)@.cur_text().len(),
        old(stats).letter_count < u64::MAX,
        old(stats).incorrect_letters < u64::MAX,
    ensures
        ({
            let so = char_step(old(game)@, c);
            &&& final(game)@ == so.m
            &&& r.0 == so.act
            &&& r.1@ == so.rend
            &&& final(game)@.wf()
            &&& final(stats).letter_count as int == old(stats).letter_count as int + (
            if so.key is Some {
                1int
            } else {
                0int
            })
            &&& final(stats).incorrect_letters as int == old(stats).incorrect_letters as int + (
            if so.key == Some(false) {
                1int
            } else {
                0int
            })
        }),
{
    let expected = game.char_at(game.player.position_y, game.player.position_x);
    if c == expected {
        update_game_state(game, stats, c);
        (InputAction::NoOp, RenderCmd::Typed { glyph: c, correct: true })
    } else if expected == ' ' {
        let ghost m = game@;
        let (act, rend) = add_incorrect_char(game, c);
        match act {
            InputAction::Continue => (InputAction::Continue, RenderCmd::Nothing),
            _ => {
                proof {
                    let m1 = splice_line(m, c);
                    assert(game@ == m1);
                    assert(game@.cur_text() == spliced(m.cur_text(), m.x, c));
                    assert(game@.cur_text()[m.x] == c) by {
                        assert(m.cur_text().take(m.x).len() == m.x);
                    }
                }
                update_game_state(game, stats, c);
                (InputAction::NoOp, rend)
            },
        }
    } else {
        update_game_state(game, stats, c);
        (InputAction::NoOp, RenderCmd::Typed { glyph: expected, correct: false })
    }
}

/// One keystroke of the session: spaces walk the guard chain (and, after
/// a jump, are classified at the gap they reached); all other characters
/// go through the character phase, splicing past the end of the line
/// while the cap allows.
pub fn handle_input(game: &mut Game, stats: &mut Stats, c: char) -> (r: (InputAction, RenderCmd))
    requires
        old(game)@.wf(),
        old(game)@.y < old(game)@.lines.len(),
        old(stats).letter_count < u64::MAX,
        old(stats).incorrect_letters < u64::MAX,
    ensures
        ({
            let so = input_step(old(game)@, c);
            &&& final(game)@ == so.m
            &&& r.0 == so.act
            &&& r.1@ == so.rend
            &&& final(game)@.wf()
            &&& final(stats).letter_count as int == old(stats).letter_count as int + (
            if so.key is Some {
                1int
            } else {
                0int
            })
            &&& final(stats).incorrect_letters as int == old(stats).incorrect_letters as int + (
            if so.key == Some(false) {
                1int
            } else {
                0int
            })
        }),
{
    if c == ' ' {
        match handle_space(game) {
            InputAction::Continue => {
                return (InputAction::Continue, RenderCmd::Nothing);
            },
            InputAction::Break => {
                return (InputAction::Break, RenderCmd::Nothing);
            },
            InputAction::NoOp => {},
        }
    }
    let y = game.player.position_y;
    let x = game.player.position_x;
    let n = game.line_length(y);
    if x < n {
        handle_chars(game, stats, c)
    } else if n < MAX_WORD_LENGTH {
        let (_act, rend) = add_incorrect_char(game, c);
        game.player.position_x = x + 1;
        proof {
            let so = input_step(old(game)@, c);
            assert(game@ =~= so.m);
        }
        (InputAction::NoOp, rend)
    } else {
        (InputAction::NoOp, RenderCmd::Nothing)
    }
}

} // verus!
