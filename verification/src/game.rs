//! The word grid and the player's position in it. The grid owns the line
//! contents as word tokens; a line's rendered text is its tokens joined by
//! single spaces, and the only mutation is splicing one character into that
//! text and re-splitting it on spaces.

use vstd::prelude::*;

use crate::text::join;
use crate::text::join_tokens;
use crate::text::lemma_join_canonical;
use crate::text::lemma_join_split_canonical;
use crate::text::lemma_spliced_canonical;
use crate::text::lemma_split_shape;
use crate::text::push_char;
use crate::text::split_whitespace_tokens;
use crate::text::split_ws;
use crate::text::spliced;
use crate::text::wf_token;
use crate::text::wf_tokens;

verus! {

/// The player's position: `position_x` is the column in the current line's
/// rendered text, `position_y` the line.
pub struct Player {
    pub position_x: usize,
    pub position_y: usize,
}

impl Player {
    pub fn new() -> (p: Player)
        ensures
            p.position_x == 0,
            p.position_y == 0,
    {
        Player { position_x: 0, position_y: 0 }
    }
}

/// The session state: the word grid, the player position, and the word-skip
/// bookkeeping (column of the last jump, count of jumps in the current line).
pub struct Game {
    pub list: Vec<Vec<String>>,
    pub player: Player,
    pub jump_position: usize,
    pub selected_word_index: usize,
    pub quit: bool,
}

/// The mathematical image of a `Game`: lines of tokens as character
/// sequences, and the cursor fields as integers.
#[verifier::ext_equal]
pub struct GameModel {
    pub lines: Seq<Seq<Seq<char>>>,
    pub x: int,
    pub y: int,
    pub jump: int,
    pub sel: int,
    pub quit: bool,
}

/// Every line of the grid holds only well-formed tokens and renders to a
/// text whose length fits the machine.
pub open spec fn lines_wf(lines: Seq<Seq<Seq<char>>>) -> bool {
    forall|i: int|
        0 <= i < lines.len() ==> wf_tokens(#[trigger] lines[i]) && join(lines[i]).len()
            < usize::MAX
}

impl GameModel {
    /// The tokens of line `i`.
    pub open spec fn toks(self, i: int) -> Seq<Seq<char>> {
        self.lines[i]
    }

    /// The rendered text of line `i`.
    pub open spec fn text(self, i: int) -> Seq<char> {
        join(self.lines[i])
    }

    /// The rendered text of the current line.
    pub open spec fn cur_text(self) -> Seq<char> {
        self.text(self.y)
    }

    /// The token count of the current line.
    pub open spec fn count(self) -> int {
        self.lines[self.y].len() as int
    }

    /// The state invariant: the line index stays within the grid (equality
    /// marks exhaustion), the grid lines are well-formed, and within a live
    /// line the column stays inside the text and the word-skip counter
    /// stays below the token count.
    pub open spec fn wf(self) -> bool {
        &&& 0 <= self.y <= self.lines.len()
        &&& lines_wf(self.lines)
        &&& (self.y < self.lines.len() ==> {
            &&& 0 <= self.x <= self.cur_text().len()
            &&& 0 <= self.jump
            &&& 0 <= self.sel
            &&& (self.count() == 0 ==> self.sel == 0)
            &&& (self.count() >= 1 ==> self.sel < self.count())
        })
    }
}

impl View for Game {
    type V = GameModel;

    open spec fn view(&self) -> GameModel {
        GameModel {
            lines: self.list.deep_view(),
            x: self.player.position_x as int,
            y: self.player.position_y as int,
            jump: self.jump_position as int,
            sel: self.selected_word_index as int,
            quit: self.quit,
        }
    }
}

/// Decides whether a grid is well-formed: every token non-empty and free
/// of spaces, every line's rendered text short enough for the machine.
/// Callers check a freshly acquired word grid with this before building a
/// `Game` from it.
pub fn tokens_well_formed(list: &Vec<Vec<String>>) -> (b: bool)
    ensures
        b == lines_wf(list.deep_view()),
{
    let ghost lines = list.deep_view();
    let mut i: usize = 0;
    while i < list.len()
        invariant
            lines == list.deep_view(),
            i <= list.len(),
            forall|q: int|
                0 <= q < i ==> wf_tokens(#[trigger] lines[q]) && join(lines[q]).len() < usize::MAX,
        decreases list.len() - i,
    {
        let line = &list[i];
        let ghost toks = lines[i as int];
        let mut j: usize = 0;
        while j < line.len()
            invariant
                lines == list.deep_view(),
                i < list.len(),
                line == &list[i as int],
                toks == lines[i as int],
                j <= line.len(),
                toks.len() == line.len(),
                forall|q: int| 0 <= q < j ==> wf_token(#[trigger] toks[q]),
            decreases line.len() - j,
        {
            let w = line[j].as_str();
            let n = w.unicode_len();
            proof {
                assert(toks[j as int] == line@[j as int]@);
            }
            if n == 0 {
                proof {
                    assert(!wf_token(toks[j as int]));
                }
                return false;
            }
            let mut p: usize = 0;
            while p < n
                invariant
                    lines == list.deep_view(),
                    i < list.len(),
                    j < line.len(),
                    toks == lines[i as int],
                    j < toks.len(),
                    w@ == toks[j as int],
                    n == w@.len(),
                    p <= n,
                    forall|q: int| 0 <= q < p ==> w@[q] != ' ',
                decreases n - p,
            {
                if w.get_char(p) == ' ' {
                    proof {
                        assert(toks[j as int][p as int] == ' ');
                        assert(!wf_token(toks[j as int]));
                        assert(!wf_tokens(lines[i as int]));
                        assert(!lines_wf(lines));
                    }
                    return false;
                }
                p += 1;
            }
            proof {
                assert(wf_token(toks[j as int]));
            }
            j += 1;
        }
        let text = join_tokens(line);
        let len = text.as_str().unicode_len();
        if len == usize::MAX {
            proof {
                assert(join(lines[i as int]).len() == usize::MAX);
            }
            return false;
        }
        proof {
            assert(wf_tokens(lines[i as int]));
            assert(join(lines[i as int]).len() < usize::MAX);
        }
        i += 1;
    }
    true
}

impl Game {
    /// A fresh session over the given grid: cursor at the origin, no jump
    /// recorded, not quit.
    pub fn new(list: Vec<Vec<String>>) -> (g: Game)
        requires
            lines_wf(list.deep_view()),
        ensures
            g@.lines == list.deep_view(),
            g@.x == 0 && g@.y == 0 && g@.jump == 0 && g@.sel == 0 && !g@.quit,
            g@.wf(),
    {
        let g = Game {
            list,
            player: Player::new(),
            jump_position: 0,
            selected_word_index: 0,
            quit: false,
        };
        g
    }

    /// The rendered text of line `index`: its tokens joined by single
    /// spaces.
    pub fn get_word_string(&self, index: usize) -> (r: String)
        requires
            index < self@.lines.len(),
        ensures
            r@ == self@.text(index as int),
    {
        let r = join_tokens(&self.list[index]);
        proof {
            assert(self.list[index as int].deep_view() =~= self@.lines[index as int]);
        }
        r
    }

    /// The length of line `index`'s rendered text.
    pub fn line_length(&self, index: usize) -> (n: usize)
        requires
            index < self@.lines.len(),
        ensures
            n == self@.text(index as int).len(),
    {
        let s = self.get_word_string(index);
        s.as_str().unicode_len()
    }

    /// The character at column `col` of line `index`'s rendered text.
    pub fn char_at(&self, index: usize, col: usize) -> (c: char)
        requires
            index < self@.lines.len(),
            col < self@.text(index as int).len(),
        ensures
            c == self@.text(index as int)[col as int],
    {
        let s = self.get_word_string(index);
        s.as_str().get_char(col)
    }

    /// Splices `c` into line `index` at column `col` and re-splits the line
    /// on spaces; the grid's only mutation. For a non-space character the
    /// new rendered text is exactly the spliced text, one character longer.
    pub fn insert_char(&mut self, index: usize, col: usize, c: char)
        requires
            index < old(self)@.lines.len(),
            wf_tokens(old(self)@.toks(index as int)),
            col <= old(self)@.text(index as int).len(),
            old(self)@.text(index as int).len() < usize::MAX,
        ensures
            final(self)@.lines == old(self)@.lines.update(
                index as int,
                split_ws(spliced(old(self)@.text(index as int), col as int, c)),
            ),
            final(self).player == old(self).player,
            final(self).jump_position == old(self).jump_position,
            final(self).selected_word_index == old(self).selected_word_index,
            final(self).quit == old(self).quit,
            wf_tokens(final(self)@.toks(index as int)),
            c != ' ' ==> final(self)@.text(index as int) == spliced(
                old(self)@.text(index as int),
                col as int,
                c,
            ) && final(self)@.text(index as int).len() == old(self)@.text(index as int).len() + 1,
    {
        let ghost t0 = self@.text(index as int);
        let s = self.get_word_string(index);
        let n = s.as_str().unicode_len();
        let before = s.as_str().substring_char(0, col);
        let mut t = String::from_str(before);
        push_char(&mut t, c);
        let after = s.as_str().substring_char(col, n);
        t.append(after);
        proof {
            assert(s@.subrange(0, col as int) =~= t0.take(col as int));
            assert(s@.subrange(col as int, n as int) =~= t0.skip(col as int));
            assert(t@ == spliced(t0, col as int, c));
        }
        let toks = split_whitespace_tokens(t.as_str());
        self.list.set(index, toks);
        proof {
            assert(self@.lines =~= old(self)@.lines.update(
                index as int,
                split_ws(spliced(t0, col as int, c)),
            ));
            lemma_split_shape(spliced(t0, col as int, c));
            if c != ' ' {
                lemma_join_canonical(old(self)@.toks(index as int));
                lemma_spliced_canonical(t0, col as int, c);
                lemma_join_split_canonical(spliced(t0, col as int, c));
            }
        }
    }
}

} // verus!
