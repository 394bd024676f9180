//! Texts put together from pieces, and what words, lines and numbers in words are.
use vstd::prelude::*;
use crate::text::{is_space, joined, nonempty, split_by, starts, white, words_of};

verus! {

/// Pieces one behind the other.
pub open spec fn flat(rows: Seq<Seq<char>>) -> Seq<char>
    decreases rows.len(),
{
    if rows.len() == 0 {
        Seq::empty()
    } else {
        flat(rows.drop_last()) + rows.last()
    }
}

pub proof fn lemma_flat_push(rows: Seq<Seq<char>>, r: Seq<char>)
    ensures
        flat(rows.push(r)) == flat(rows) + r,
{
    assert(rows.push(r).drop_last() =~= rows);
}

/// Whether `part` stands somewhere in `s`.
pub open spec fn shows(s: Seq<char>, part: Seq<char>) -> bool {
    exists|a: Seq<char>, b: Seq<char>| s == #[trigger] around(a, part, b)
}

pub open spec fn around(a: Seq<char>, part: Seq<char>, b: Seq<char>) -> Seq<char> {
    a + part + b
}

/// A text starts with what it is continued from.
pub proof fn lemma_starts_add(s: Seq<char>, a: Seq<char>, b: Seq<char>)
    requires
        s == a + b,
    ensures
        starts(s, a),
{
    assert(s.take(a.len() as int) =~= a);
}

/// Of two texts that a text starts with, neither departs from the other.
pub proof fn lemma_starts_both(s: Seq<char>, a: Seq<char>, b: Seq<char>, i: int)
    requires
        starts(s, a),
        starts(s, b),
        0 <= i < a.len(),
        i < b.len(),
    ensures
        a[i] == b[i],
{
    assert(s.take(a.len() as int)[i] == s[i]);
    assert(s.take(b.len() as int)[i] == s[i]);
}

// ---------------------------------------------------------------------------
// Words

/// A word: not empty and without white space.
pub open spec fn solid(w: Seq<char>) -> bool {
    w.len() > 0 && forall|i: int| 0 <= i < w.len() ==> !white(#[trigger] w[i])
}

pub open spec fn all_solid(ws: Seq<Seq<char>>) -> bool {
    forall|i: int| 0 <= i < ws.len() ==> solid(#[trigger] ws[i])
}

proof fn lemma_parts_clean(s: Seq<char>)
    ensures
        split_by(s, is_space()).len() > 0,
        forall|i: int, j: int|
            0 <= i < split_by(s, is_space()).len() && 0 <= j < split_by(s, is_space())[i].len()
                ==> !white(#[trigger] split_by(s, is_space())[i][j]),
    decreases s.len(),
{
    let p = is_space();
    let v = split_by(s, p);
    if s.len() > 0 {
        lemma_parts_clean(s.drop_last());
        let w = split_by(s.drop_last(), p);
        assert forall|i: int, j: int| 0 <= i < v.len() && 0 <= j < v[i].len() implies !white(
            #[trigger] v[i][j],
        ) by {
            if i < w.len() - 1 {
                assert(v[i] == w[i]);
                assert(!white(w[i][j]));
            } else if i == w.len() - 1 {
                if j < w[i].len() {
                    assert(!white(w[i][j]));
                    assert(v[i][j] == w[i][j]);
                }
            }
        }
    }
}

/// The words of a text have no white space and none of them is empty.
pub proof fn law_words_are_solid(s: Seq<char>)
    ensures
        all_solid(words_of(s)),
{
    let parts = split_by(s, is_space());
    lemma_parts_clean(s);
    let ws = words_of(s);
    assert forall|i: int| 0 <= i < ws.len() implies solid(#[trigger] ws[i]) by {
        parts.lemma_filter_pred(nonempty(), i);
        assert(ws.contains(ws[i]));
        parts.lemma_filter_contains_rev(nonempty(), ws[i]);
        let k = choose|k: int| 0 <= k < parts.len() && parts[k] == ws[i];
        assert forall|j: int| 0 <= j < ws[i].len() implies !white(#[trigger] ws[i][j]) by {
            assert(!white(parts[k][j]));
        }
    }
}

/// Words that are joined by single spaces can be told apart again: different lists of
/// words give different texts.
pub proof fn law_joined_words_differ(a: Seq<Seq<char>>, b: Seq<Seq<char>>)
    requires
        all_solid(a),
        all_solid(b),
        joined(a, " "@) == joined(b, " "@),
    ensures
        a == b,
    decreases a.len(),
{
    reveal_strlit(" ");
    let x = joined(a, " "@);
    if a.len() == 0 || b.len() == 0 {
        if b.len() > 0 {
            lemma_joined_long(b);
        }
        if a.len() > 0 {
            lemma_joined_long(a);
        }
        assert(a =~= b);
    } else {
        let v = a.last();
        let w = b.last();
        assert(solid(a[a.len() - 1]) && solid(b[b.len() - 1]));
        lemma_last_word(a, x);
        lemma_last_word(b, x);
        if v.len() < w.len() {
            assert(!white(w[w.len() - v.len() - 1]));
            assert(x[x.len() - v.len() - 1] == w[w.len() - v.len() - 1]);
        } else if w.len() < v.len() {
            assert(!white(v[v.len() - w.len() - 1]));
            assert(x[x.len() - w.len() - 1] == v[v.len() - w.len() - 1]);
        }
        assert(v =~= w) by {
            assert forall|i: int| 0 <= i < v.len() implies v[i] == w[i] by {
                assert(x[x.len() - v.len() + i] == v[i]);
                assert(x[x.len() - v.len() + i] == w[i]);
            }
        }
        assert forall|i: int| 0 <= i < a.drop_last().len() implies solid(
            #[trigger] a.drop_last()[i],
        ) by {
            assert(solid(a[i]));
        }
        assert forall|i: int| 0 <= i < b.drop_last().len() implies solid(
            #[trigger] b.drop_last()[i],
        ) by {
            assert(solid(b[i]));
        }
        if a.len() == 1 || b.len() == 1 {
            if a.len() > 1 {
                lemma_joined_long(a.drop_last());
            }
            if b.len() > 1 {
                lemma_joined_long(b.drop_last());
            }
        } else {
            assert(joined(a.drop_last(), " "@) =~= x.take(x.len() - v.len() - 1));
            assert(joined(b.drop_last(), " "@) =~= x.take(x.len() - v.len() - 1));
            law_joined_words_differ(a.drop_last(), b.drop_last());
            assert(a =~= a.drop_last().push(v));
            assert(b =~= b.drop_last().push(w));
        }
        assert(a =~= b);
    }
}

proof fn lemma_joined_long(a: Seq<Seq<char>>)
    requires
        all_solid(a),
        a.len() > 0,
    ensures
        joined(a, " "@).len() > 0,
{
    assert(solid(a[a.len() - 1]));
    assert(solid(a[0]));
}

proof fn lemma_last_word(a: Seq<Seq<char>>, x: Seq<char>)
    requires
        all_solid(a),
        a.len() > 0,
        x == joined(a, " "@),
    ensures
        x.len() >= a.last().len(),
        x.skip(x.len() - a.last().len()) == a.last(),
        a.len() > 1 ==> x.len() > a.last().len() && white(x[x.len() - a.last().len() - 1]),
        a.len() == 1 ==> x.len() == a.last().len(),
        forall|i: int|
            0 <= i < a.last().len() ==> #[trigger] a.last()[i] == x[x.len() - a.last().len() + i],
{
    reveal_strlit(" ");
    if a.len() > 1 {
        let f = joined(a.drop_last(), " "@);
        assert(x == f + " "@ + a.last());
        assert(x[f.len() as int] == ' ');
        assert(x.skip(x.len() - a.last().len()) =~= a.last());
    } else {
        assert(x.skip(0) =~= a.last());
    }
}

} // verus!
