//! The textual model of one grid line: a sequence of word tokens, rendered
//! as the tokens joined by single spaces, and re-split on spaces after a
//! character has been spliced in.

use vstd::prelude::*;

verus! {

/// A well-formed word token: non-empty, with no embedded space.
pub open spec fn wf_token(t: Seq<char>) -> bool {
    t.len() > 0 && forall|i: int| 0 <= i < t.len() ==> t[i] != ' '
}

/// Every token of the line is well-formed.
pub open spec fn wf_tokens(ts: Seq<Seq<char>>) -> bool {
    forall|k: int| 0 <= k < ts.len() ==> wf_token(#[trigger] ts[k])
}

/// The rendered text of a line: its tokens joined by single spaces.
pub open spec fn join(ts: Seq<Seq<char>>) -> Seq<char>
    decreases ts.len(),
{
    if ts.len() == 0 {
        Seq::empty()
    } else if ts.len() == 1 {
        ts[0]
    } else {
        join(ts.drop_last()) + seq![' '] + ts.last()
    }
}

/// Splitting a text on spaces: the maximal runs of non-space characters,
/// in order, with empty runs dropped.
pub open spec fn split_ws(s: Seq<char>) -> Seq<Seq<char>>
    decreases s.len(),
{
    if s.len() == 0 {
        Seq::empty()
    } else {
        let prefix = split_ws(s.drop_last());
        let c = s.last();
        if c == ' ' {
            prefix
        } else if s.len() == 1 || s[s.len() - 2] == ' ' {
            prefix.push(seq![c])
        } else {
            prefix.update(prefix.len() - 1, prefix.last().push(c))
        }
    }
}

/// The shape a join of well-formed tokens always has: no leading space,
/// no trailing space, no two adjacent spaces.
pub open spec fn canonical(s: Seq<char>) -> bool {
    &&& s.len() > 0 ==> s[0] != ' ' && s[s.len() - 1] != ' '
    &&& forall|i: int| 0 < i < s.len() ==> !(s[i - 1] == ' ' && #[trigger] s[i] == ' ')
}

/// The text with one character spliced in at position `p`.
pub open spec fn spliced(t: Seq<char>, p: int, c: char) -> Seq<char> {
    t.take(p) + seq![c] + t.skip(p)
}

/// `1 + length` units of the first `k` tokens: each token plus the space
/// that follows it. The word-skip target column is one less than this sum.
pub open spec fn prefix_units(ts: Seq<Seq<char>>, k: int) -> int
    decreases k,
{
    if k <= 0 {
        0
    } else {
        prefix_units(ts, k - 1) + ts[k - 1].len() + 1
    }
}

/// Splitting yields only well-formed tokens, and a text that does not end
/// in a space ends in the last character of its last token.
pub proof fn lemma_split_shape(s: Seq<char>)
    ensures
        wf_tokens(split_ws(s)),
        s.len() > 0 && s[s.len() - 1] != ' ' ==> split_ws(s).len() > 0 && split_ws(
            s,
        ).last().last() == s[s.len() - 1],
    decreases s.len(),
{
    if s.len() == 0 {
    } else {
        lemma_split_shape(s.drop_last());
        let prefix = split_ws(s.drop_last());
        let c = s.last();
        if c == ' ' {
        } else if s.len() == 1 || s[s.len() - 2] == ' ' {
            assert(wf_token(seq![c]));
            assert forall|k: int| 0 <= k < prefix.push(seq![c]).len() implies wf_token(
                #[trigger] prefix.push(seq![c])[k],
            ) by {
                if k < prefix.len() {
                    assert(wf_token(prefix[k]));
                }
            }
        } else {
            assert(s.drop_last()[s.drop_last().len() - 1] == s[s.len() - 2]);
            assert(prefix.len() > 0);
            let r = prefix.update(prefix.len() - 1, prefix.last().push(c));
            assert(wf_token(prefix.last()));
            assert(wf_token(prefix.last().push(c))) by {
                assert forall|i: int| 0 <= i < prefix.last().push(c).len() implies prefix.last()
                    .push(c)[i] != ' ' by {
                    if i < prefix.last().len() {
                        assert(prefix.last()[i] != ' ');
                    }
                }
            }
            assert forall|k: int| 0 <= k < r.len() implies wf_token(#[trigger] r[k]) by {
                if k < prefix.len() - 1 {
                    assert(wf_token(prefix[k]));
                }
            }
        }
    }
}

/// A join of well-formed tokens is canonical, and at least one character
/// long as soon as there is a token.
pub proof fn lemma_join_canonical(ts: Seq<Seq<char>>)
    requires
        wf_tokens(ts),
    ensures
        canonical(join(ts)),
        ts.len() > 0 ==> join(ts).len() > 0,
        ts.len() > 1 ==> join(ts)[join(ts).len() - 1] == ts.last().last(),
    decreases ts.len(),
{
    if ts.len() == 0 {
    } else if ts.len() == 1 {
        assert(wf_token(ts[0]));
    } else {
        assert(wf_tokens(ts.drop_last())) by {
            assert forall|k: int| 0 <= k < ts.drop_last().len() implies wf_token(
                #[trigger] ts.drop_last()[k],
            ) by {
                assert(ts.drop_last()[k] == ts[k]);
                assert(wf_token(ts[k]));
            }
        }
        lemma_join_canonical(ts.drop_last());
        let a = join(ts.drop_last());
        let w = ts.last();
        assert(wf_token(w));
        let s = a + seq![' '] + w;
        assert(s[0] != ' ') by {
            assert(s[0] == a[0]);
        }
        assert(s[s.len() - 1] == w[w.len() - 1]);
        assert forall|i: int| 0 < i < s.len() implies !(s[i - 1] == ' ' && #[trigger] s[i]
            == ' ') by {
            if i < a.len() {
            } else if i == a.len() {
                assert(s[i - 1] == a[a.len() - 1]);
            } else if i == a.len() + 1 {
                assert(s[i] == w[0]);
            } else {
                assert(s[i] == w[i - a.len() - 1]);
                assert(w[i - a.len() - 1] != ' ');
            }
        }
    }
}

/// Splitting undoes joining: the tokens of a line are recovered exactly
/// from its rendered text.
pub proof fn lemma_split_join(ts: Seq<Seq<char>>)
    requires
        wf_tokens(ts),
    ensures
        split_ws(join(ts)) == ts,
    decreases ts.len(),
{
    if ts.len() == 0 {
        assert(split_ws(join(ts)) =~= ts);
    } else if ts.len() == 1 {
        lemma_split_single_token(ts[0]);
        assert(split_ws(join(ts)) =~= ts);
    } else {
        assert(wf_tokens(ts.drop_last())) by {
            assert forall|k: int| 0 <= k < ts.drop_last().len() implies wf_token(
                #[trigger] ts.drop_last()[k],
            ) by {
                assert(ts.drop_last()[k] == ts[k]);
            }
        }
        lemma_split_join(ts.drop_last());
        lemma_split_word_after_space(join(ts.drop_last()), ts.last());
        assert(split_ws(join(ts)) =~= ts);
    }
}

/// A single well-formed token splits to itself.
proof fn lemma_split_single_token(w: Seq<char>)
    requires
        wf_token(w),
    ensures
        split_ws(w) == seq![w],
    decreases w.len(),
{
    if w.len() == 1 {
        assert(seq![w.last()] =~= w);
        assert(w.drop_last().len() == 0);
        assert(split_ws(w.drop_last()) =~= Seq::<Seq<char>>::empty());
        assert(split_ws(w) == split_ws(w.drop_last()).push(seq![w.last()]));
        assert(split_ws(w) =~= seq![w]);
    } else {
        assert(wf_token(w.drop_last()));
        lemma_split_single_token(w.drop_last());
        assert(w[w.len() - 2] != ' ');
        assert(split_ws(w) =~= seq![w]) by {
            assert(split_ws(w.drop_last()).last().push(w.last()) =~= w);
        }
    }
}

/// Appending a space and then a well-formed token to any text appends
/// exactly one token to its split.
proof fn lemma_split_word_after_space(a: Seq<char>, w: Seq<char>)
    requires
        wf_token(w),
    ensures
        split_ws(a + seq![' '] + w) == split_ws(a).push(w),
    decreases w.len(),
{
    let s = a + seq![' '] + w;
    if w.len() == 1 {
        assert(s.drop_last() =~= a + seq![' ']);
        assert((a + seq![' ']).drop_last() =~= a);
        assert(s[s.len() - 2] == ' ');
        assert(split_ws(a + seq![' ']) == split_ws(a));
        assert(split_ws(s) =~= split_ws(a).push(w)) by {
            assert(seq![s.last()] =~= w);
        }
    } else {
        assert(wf_token(w.drop_last()));
        lemma_split_word_after_space(a, w.drop_last());
        assert(s.drop_last() =~= a + seq![' '] + w.drop_last());
        assert(s[s.len() - 2] == w[w.len() - 2]);
        assert(w[w.len() - 2] != ' ');
        let prefix = split_ws(a).push(w.drop_last());
        assert(prefix.last() == w.drop_last());
        assert(split_ws(s) == prefix.update(prefix.len() - 1, prefix.last().push(w.last())));
        assert(split_ws(s) =~= split_ws(a).push(w)) by {
            assert(w.drop_last().push(w.last()) =~= w);
        }
    }
}

/// Joining undoes splitting on canonical text: re-splitting the text of a
/// line and joining the pieces gives the same text back.
pub proof fn lemma_join_split_canonical(s: Seq<char>)
    requires
        canonical(s),
    ensures
        join(split_ws(s)) == s,
    decreases s.len(),
{
    if s.len() == 0 {
        assert(join(split_ws(s)) =~= s);
    } else {
        let c = s.last();
        assert(c != ' ');
        if s.len() == 1 {
            assert(s.drop_last().len() == 0);
            assert(split_ws(s.drop_last()) =~= Seq::<Seq<char>>::empty());
            assert(split_ws(s) == split_ws(s.drop_last()).push(seq![c]));
            assert(split_ws(s).len() == 1);
            assert(join(split_ws(s)) == seq![c]);
            assert(seq![c] =~= s);
        } else if s[s.len() - 2] == ' ' {
            // the text ends in " c": peel both characters off
            let s2 = s.drop_last().drop_last();
            assert(s2.len() == s.len() - 2);
            assert(s.len() >= 3) by {
                assert(s[0] != ' ');
            }
            assert(canonical(s2)) by {
                assert(s2[0] == s[0]);
                assert(s2[s2.len() - 1] == s[s.len() - 3]);
                assert(!(s[s.len() - 3] == ' ' && s[s.len() - 2] == ' '));
                assert(forall|i: int|
                    0 < i < s2.len() ==> !(s2[i - 1] == ' ' && #[trigger] s2[i] == ' '));
            }
            lemma_join_split_canonical(s2);
            lemma_split_shape(s2);
            assert(s.drop_last().drop_last() == s2);
            assert(s.drop_last().last() == ' ');
            assert(split_ws(s.drop_last()) == split_ws(s2));
            let r = split_ws(s2).push(seq![c]);
            assert(split_ws(s) == r);
            assert(split_ws(s2).len() > 0) by {
                assert(s2[s2.len() - 1] != ' ');
            }
            assert(r.drop_last() =~= split_ws(s2));
            assert(join(r) == join(split_ws(s2)) + seq![' '] + seq![c]);
            assert(join(split_ws(s)) =~= s);
        } else {
            let s1 = s.drop_last();
            assert(canonical(s1)) by {
                assert(s1[0] == s[0]);
                assert(s1[s1.len() - 1] == s[s.len() - 2]);
            }
            lemma_join_split_canonical(s1);
            lemma_split_shape(s1);
            let prefix = split_ws(s1);
            assert(prefix.len() > 0) by {
                assert(s1[s1.len() - 1] != ' ');
            }
            let r = prefix.update(prefix.len() - 1, prefix.last().push(c));
            assert(split_ws(s) == r);
            if prefix.len() == 1 {
                assert(r.len() == 1);
                assert(join(r) == r[0]);
                assert(join(prefix) == prefix[0]);
                assert(r[0] == prefix.last().push(c));
                assert(prefix[0] == prefix.last());
                assert(join(split_ws(s)) == s1.push(c));
                assert(s1.push(c) =~= s);
            } else {
                assert(r.drop_last() =~= prefix.drop_last());
                assert(r.last() == prefix.last().push(c));
                assert(join(r) == join(prefix.drop_last()) + seq![' '] + prefix.last().push(c));
                assert(join(prefix) == join(prefix.drop_last()) + seq![' '] + prefix.last());
                assert(join(prefix.drop_last()) + seq![' '] + prefix.last().push(c) =~= (join(
                    prefix.drop_last(),
                ) + seq![' '] + prefix.last()).push(c));
                assert(join(split_ws(s)) == s1.push(c));
                assert(s1.push(c) =~= s);
            }
        }
    }
}

/// Splicing a non-space character into canonical text keeps it canonical.
pub proof fn lemma_spliced_canonical(t: Seq<char>, p: int, c: char)
    requires
        canonical(t),
        0 <= p <= t.len(),
        c != ' ',
    ensures
        canonical(spliced(t, p, c)),
        spliced(t, p, c).len() == t.len() + 1,
{
    let s = spliced(t, p, c);
    assert(s.len() == t.len() + 1);
    assert forall|i: int| 0 <= i < s.len() implies #[trigger] s[i] == (if i < p {
        t[i]
    } else if i == p {
        c
    } else {
        t[i - 1]
    }) by {}
    assert(s[0] != ' ');
    assert(s[s.len() - 1] != ' ');
    assert forall|i: int| 0 < i < s.len() implies !(s[i - 1] == ' ' && #[trigger] s[i] == ' ') by {
        if i < p {
        } else if i == p || i == p + 1 {
        } else {
            assert(s[i] == t[i - 1] && s[i - 1] == t[i - 2]);
        }
    }
}

/// A line of at most one token renders with no space in it.
pub proof fn lemma_short_line_no_space(ts: Seq<Seq<char>>)
    requires
        wf_tokens(ts),
        ts.len() <= 1,
    ensures
        forall|i: int| 0 <= i < join(ts).len() ==> join(ts)[i] != ' ',
{
    if ts.len() == 1 {
        assert(wf_token(ts[0]));
    }
}

/// The prefix-unit sums grow with `k`, and reach exactly one more than the
/// rendered length at the token count.
pub proof fn lemma_prefix_units_bounds(ts: Seq<Seq<char>>, k: int)
    requires
        wf_tokens(ts),
        0 <= k <= ts.len(),
    ensures
        2 * k <= prefix_units(ts, k),
        ts.len() > 0 ==> prefix_units(ts, ts.len() as int) == join(ts).len() + 1,
        prefix_units(ts, k) <= prefix_units(ts, ts.len() as int),
    decreases ts.len(),
{
    lemma_prefix_units_mono(ts, k);
    lemma_prefix_units_mono(ts, ts.len() as int);
    if k < ts.len() {
        lemma_prefix_units_step(ts, k, ts.len() as int);
    }
    if ts.len() > 0 {
        lemma_join_units(ts);
    }
}

/// Each token contributes at least two units: one character and the space.
proof fn lemma_prefix_units_mono(ts: Seq<Seq<char>>, k: int)
    requires
        wf_tokens(ts),
        0 <= k <= ts.len(),
    ensures
        2 * k <= prefix_units(ts, k),
    decreases k,
{
    if k > 0 {
        lemma_prefix_units_mono(ts, k - 1);
        assert(wf_token(ts[k - 1]));
    }
}

/// The sums are monotone between any two cuts.
pub proof fn lemma_prefix_units_step(ts: Seq<Seq<char>>, k1: int, k2: int)
    requires
        wf_tokens(ts),
        0 <= k1 <= k2 <= ts.len(),
    ensures
        prefix_units(ts, k1) <= prefix_units(ts, k2),
    decreases k2 - k1,
{
    if k1 < k2 {
        lemma_prefix_units_step(ts, k1, k2 - 1);
        assert(wf_token(ts[k2 - 1]));
    }
}

/// The rendered length is the full unit sum minus the space that no token
/// follows.
proof fn lemma_join_units(ts: Seq<Seq<char>>)
    requires
        wf_tokens(ts),
        ts.len() > 0,
    ensures
        prefix_units(ts, ts.len() as int) == join(ts).len() + 1,
    decreases ts.len(),
{
    if ts.len() == 1 {
        assert(prefix_units(ts, 0) == 0);
        assert(prefix_units(ts, 1) == ts[0].len() + 1);
    } else {
        assert(wf_tokens(ts.drop_last())) by {
            assert(forall|k: int|
                0 <= k < ts.drop_last().len() ==> #[trigger] ts.drop_last()[k] == ts[k]);
        }
        lemma_join_units(ts.drop_last());
        lemma_prefix_units_agree(ts, ts.len() - 1);
        assert(prefix_units(ts, ts.len() as int) == prefix_units(ts, ts.len() - 1) + ts[ts.len()
            - 1].len() + 1);
        assert(join(ts) == join(ts.drop_last()) + seq![' '] + ts.last());
    }
}

/// Dropping the last token does not change the earlier sums.
pub proof fn lemma_prefix_units_agree(ts: Seq<Seq<char>>, k: int)
    requires
        0 <= k <= ts.len() - 1,
    ensures
        prefix_units(ts.drop_last(), k) == prefix_units(ts, k),
    decreases k,
{
    if k > 0 {
        lemma_prefix_units_agree(ts, k - 1);
        assert(ts.drop_last()[k - 1] == ts[k - 1]);
    }
}

/// How many spaces a text holds.
pub open spec fn spaces_in(s: Seq<char>) -> int
    decreases s.len(),
{
    if s.len() == 0 {
        0
    } else {
        spaces_in(s.drop_last()) + if s.last() == ' ' {
            1int
        } else {
            0int
        }
    }
}

/// A space count is never negative.
pub proof fn lemma_spaces_nonneg(s: Seq<char>)
    ensures
        spaces_in(s) >= 0,
    decreases s.len(),
{
    if s.len() > 0 {
        lemma_spaces_nonneg(s.drop_last());
    }
}

/// A prefix never holds more spaces than the whole text.
pub proof fn lemma_spaces_take_le(s: Seq<char>, i: int)
    requires
        0 <= i <= s.len(),
    ensures
        spaces_in(s.take(i)) <= spaces_in(s),
    decreases s.len(),
{
    if i == s.len() {
        assert(s.take(i) =~= s);
    } else {
        assert(s.take(i) =~= s.drop_last().take(i));
        lemma_spaces_take_le(s.drop_last(), i);
    }
}

/// A space-free text counts no spaces.
proof fn lemma_spaces_in_word(w: Seq<char>)
    requires
        forall|i: int| 0 <= i < w.len() ==> w[i] != ' ',
    ensures
        spaces_in(w) == 0,
    decreases w.len(),
{
    if w.len() > 0 {
        assert(forall|i: int| 0 <= i < w.drop_last().len() ==> w.drop_last()[i] != ' ');
        lemma_spaces_in_word(w.drop_last());
    }
}

/// Appending a separator and a token adds exactly one space.
proof fn lemma_spaces_append_word(a: Seq<char>, w: Seq<char>)
    requires
        wf_token(w),
    ensures
        spaces_in(a + seq![' '] + w) == spaces_in(a) + 1,
    decreases w.len(),
{
    if w.len() == 1 {
        assert((a + seq![' '] + w).drop_last() =~= a + seq![' ']);
        assert((a + seq![' ']).drop_last() =~= a);
        assert((a + seq![' ']).last() == ' ');
        assert(spaces_in(a + seq![' ']) == spaces_in(a) + 1);
        assert((a + seq![' '] + w).last() == w[0]);
        assert(spaces_in(a + seq![' '] + w) == spaces_in(a + seq![' ']));
    } else {
        assert(wf_token(w.drop_last()));
        lemma_spaces_append_word(a, w.drop_last());
        assert((a + seq![' '] + w).drop_last() =~= a + seq![' '] + w.drop_last());
        assert((a + seq![' '] + w).last() == w.last());
    }
}

/// A line of `n` tokens renders with exactly `n - 1` spaces.
pub proof fn lemma_spaces_total(ts: Seq<Seq<char>>)
    requires
        wf_tokens(ts),
        ts.len() >= 1,
    ensures
        spaces_in(join(ts)) == ts.len() - 1,
    decreases ts.len(),
{
    if ts.len() == 1 {
        assert(wf_token(ts[0]));
        lemma_spaces_in_word(ts[0]);
    } else {
        assert(wf_tokens(ts.drop_last())) by {
            assert(forall|k: int|
                0 <= k < ts.drop_last().len() ==> #[trigger] ts.drop_last()[k] == ts[k]);
        }
        lemma_spaces_total(ts.drop_last());
        assert(wf_token(ts.last()));
        lemma_spaces_append_word(join(ts.drop_last()), ts.last());
    }
}

/// A space of the rendered text sits exactly at the unit sum of the tokens
/// before it: the `k + 1`-st space is at column `prefix_units(ts, k + 1) - 1`,
/// where `k` counts the spaces to its left.
pub proof fn lemma_space_position(ts: Seq<Seq<char>>, i: int)
    requires
        wf_tokens(ts),
        0 <= i < join(ts).len(),
        join(ts)[i] == ' ',
    ensures
        spaces_in(join(ts).take(i)) + 2 <= ts.len(),
        i == prefix_units(ts, spaces_in(join(ts).take(i)) + 1) - 1,
    decreases ts.len(),
{
    if ts.len() <= 1 {
        lemma_short_line_no_space(ts);
        assert(false);
    } else {
        let dl = ts.drop_last();
        let w = ts.last();
        let a = join(dl);
        let t = join(ts);
        assert(wf_tokens(dl)) by {
            assert(forall|k: int| 0 <= k < dl.len() ==> #[trigger] dl[k] == ts[k]);
        }
        assert(wf_token(w));
        assert(t == a + seq![' '] + w);
        if i < a.len() {
            assert(a[i] == ' ');
            lemma_space_position(dl, i);
            assert(t.take(i) =~= a.take(i));
            lemma_prefix_units_agree(ts, spaces_in(a.take(i)) + 1);
        } else if i == a.len() {
            assert(t.take(i) =~= a);
            lemma_spaces_total(dl);
            lemma_prefix_units_bounds(dl, 0);
            lemma_prefix_units_agree(ts, dl.len() as int);
        } else {
            assert(t[i] == w[i - a.len() - 1]);
            assert(false);
        }
    }
}

/// Splicing a non-space character into a line's rendered text keeps the
/// token count, except that it gives an empty line its first token.
pub proof fn lemma_splice_token_count(ts: Seq<Seq<char>>, p: int, c: char)
    requires
        wf_tokens(ts),
        0 <= p <= join(ts).len(),
        c != ' ',
    ensures
        split_ws(spliced(join(ts), p, c)).len() == if ts.len() == 0 {
            1int
        } else {
            ts.len() as int
        },
    decreases ts.len(),
{
    let s = join(ts);
    let sp = spliced(s, p, c);
    if ts.len() == 0 {
        assert(s.len() == 0);
        assert(sp =~= seq![c]);
        assert(wf_token(seq![c]));
        lemma_split_single_token(seq![c]);
    } else if ts.len() == 1 {
        assert(wf_token(ts[0]));
        assert(s == ts[0]);
        assert(wf_token(sp)) by {
            assert forall|i: int| 0 <= i < sp.len() implies sp[i] != ' ' by {
                if i < p {
                    assert(sp[i] == s[i]);
                } else if i > p {
                    assert(sp[i] == s[i - 1]);
                }
            }
        }
        lemma_split_single_token(sp);
    } else {
        let dl = ts.drop_last();
        let w = ts.last();
        let a = join(dl);
        assert(wf_tokens(dl)) by {
            assert(forall|k: int| 0 <= k < dl.len() ==> #[trigger] dl[k] == ts[k]);
        }
        assert(wf_token(w));
        assert(s == a + seq![' '] + w);
        if p <= a.len() {
            assert(sp =~= spliced(a, p, c) + seq![' '] + w);
            lemma_splice_token_count(dl, p, c);
            lemma_split_word_after_space(spliced(a, p, c), w);
        } else {
            let q = p - a.len() - 1;
            assert(0 <= q <= w.len());
            assert(sp =~= a + seq![' '] + spliced(w, q, c));
            assert(wf_token(spliced(w, q, c))) by {
                let wp = spliced(w, q, c);
                assert forall|i: int| 0 <= i < wp.len() implies wp[i] != ' ' by {
                    if i < q {
                        assert(wp[i] == w[i]);
                    } else if i > q {
                        assert(wp[i] == w[i - 1]);
                    }
                }
            }
            lemma_split_join(dl);
            lemma_split_word_after_space(a, spliced(w, q, c));
        }
    }
}

/// Relies on `String::push`: appends exactly one character at the end.
#[verifier::external_body]
pub(crate) fn push_char(s: &mut String, c: char)
    ensures
        final(s)@ == old(s)@.push(c),
{
    s.push(c);
}

/// Splits a text on spaces into its word tokens, exactly as `split_ws`
/// describes.
pub fn split_whitespace_tokens(s: &str) -> (r: Vec<String>)
    ensures
        r.deep_view() == split_ws(s@),
{
    let n = s.unicode_len();
    let mut toks: Vec<String> = Vec::new();
    let mut cur: String = String::new();
    let mut i: usize = 0;
    while i < n
        invariant
            n == s@.len(),
            i <= n,
            cur@.len() == 0 ==> toks.deep_view() == split_ws(s@.take(i as int)) && (i == 0 || s@[i as int - 1] == ' '),
            cur@.len() > 0 ==> toks.deep_view().push(cur@) == split_ws(s@.take(i as int)) && i > 0
                && s@[i as int - 1] != ' ',
        decreases n - i,
    {
        let c = s.get_char(i);
        proof {
            assert(s@.take(i + 1).drop_last() =~= s@.take(i as int));
            assert(s@.take(i + 1).last() == s@[i as int]);
        }
        if c == ' ' {
            if !cur.as_str().is_empty() {
                let ghost old_toks = toks.deep_view();
                let ghost cur_view = cur@;
                toks.push(cur);
                cur = String::new();
                proof {
                    assert(toks.deep_view() =~= old_toks.push(cur_view));
                }
            }
        } else {
            let ghost old_toks = toks.deep_view();
            let ghost cur_view = cur@;
            push_char(&mut cur, c);
            proof {
                if cur_view.len() == 0 {
                    assert(cur@ =~= seq![c]);
                    assert(split_ws(s@.take(i + 1)) == split_ws(s@.take(i as int)).push(seq![c]));
                } else {
                    let prev = old_toks.push(cur_view);
                    assert(split_ws(s@.take(i + 1)) == prev.update(
                        prev.len() - 1,
                        prev.last().push(c),
                    ));
                    assert(prev.update(prev.len() - 1, prev.last().push(c)) =~= old_toks.push(
                        cur_view.push(c),
                    ));
                }
            }
        }
        i += 1;
    }
    proof {
        assert(s@.take(n as int) =~= s@);
    }
    if !cur.as_str().is_empty() {
        let ghost old_toks = toks.deep_view();
        let ghost cur_view = cur@;
        toks.push(cur);
        proof {
            assert(toks.deep_view() =~= old_toks.push(cur_view));
        }
    }
    toks
}

/// Joins word tokens with single spaces, exactly as `join` describes.
pub fn join_tokens(ts: &Vec<String>) -> (r: String)
    ensures
        r@ == join(ts.deep_view()),
{
    let mut r = String::new();
    let mut k: usize = 0;
    while k < ts.len()
        invariant
            k <= ts.len(),
            r@ == join(ts.deep_view().take(k as int)),
        decreases ts.len() - k,
    {
        proof {
            reveal_strlit(" ");
            let dv = ts.deep_view();
            assert(dv.take(k + 1).drop_last() =~= dv.take(k as int));
            assert(dv.take(k + 1).last() == dv[k as int]);
        }
        if k > 0 {
            r.append(" ");
        }
        r.append(ts[k].as_str());
        proof {
            reveal_strlit(" ");
            assert(" "@ =~= seq![' ']);
            let dv = ts.deep_view();
            if k == 0 {
                assert(r@ =~= join(dv.take(1)));
            } else {
                assert(r@ =~= join(dv.take(k + 1)));
            }
        }
        k += 1;
    }
    proof {
        assert(ts.deep_view().take(ts.len() as int) =~= ts.deep_view());
    }
    r
}

} // verus!
