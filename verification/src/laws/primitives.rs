//! What the parts, numbers and orders of texts are.
use vstd::prelude::*;
use crate::izakaya::replay::{distinct, names};
use crate::smap::{ascending, at, lemma_at_put, lemma_put_ascending};
use crate::text::{
    all_digits, chomp_cr, dec, digit, digits_value, find_from, is_char, is_digit, joined,
    lemma_split_nonempty, lemma_split_parts, lex_lt, lines_of, lower_char, lowered, occurs_at,
    padded_left, padded_right, parsed, replaced, split_by, split_on, starts, trim_end_by,
    trim_start_by, trimmed, trimmed_end_of, trimmed_start_of, white,
};

verus! {

// ---------------------------------------------------------------------------
// Numbers

/// A number that was written is read again.
pub proof fn law_written_number_is_read(n: nat, max: nat)
    requires
        n <= max,
    ensures
        parsed(dec(n), max) == Some(n),
{
    lemma_dec(n);
}

proof fn lemma_dec(n: nat)
    ensures
        all_digits(dec(n)),
        dec(n).len() > 0,
        digits_value(dec(n)) == n,
        dec(n)[0] != '+',
    decreases n,
{
    lemma_digit((n % 10) as int);
    if n < 10 {
        assert(dec(n) =~= seq![digit(n as int)]);
        assert(dec(n).drop_last() =~= Seq::<char>::empty());
        assert(digits_value(dec(n).drop_last()) == 0);
    } else {
        lemma_dec(n / 10);
        let t = dec(n / 10);
        let s = dec(n);
        assert(s == t.push(digit((n % 10) as int)));
        assert(s.drop_last() =~= t);
        assert forall|i: int| 0 <= i < s.len() implies is_digit(#[trigger] s[i]) by {
            if i < t.len() {
                assert(s[i] == t[i]);
            }
        }
        assert(s[0] == t[0]);
    }
}

proof fn lemma_digit(d: int)
    requires
        0 <= d < 10,
    ensures
        is_digit(digit(d)),
        (digit(d) as u32) - ('0' as u32) == d,
{
    let all = seq!['0', '1', '2', '3', '4', '5', '6', '7', '8', '9'];
    assert(digit(d) == all[d]);
}

/// Numbers that differ are written differently.
pub proof fn law_numbers_differ_in_writing(m: nat, n: nat)
    ensures
        dec(m) == dec(n) <==> m == n,
{
    lemma_dec(m);
    lemma_dec(n);
}

// ---------------------------------------------------------------------------
// Parts

/// The parts of a text, put together again, are the text, and none holds the separator.
pub proof fn law_parts_make_the_text(s: Seq<char>, c: char)
    ensures
        joined(split_on(s, c), seq![c]) == s,
        split_on(s, c).len() > 0,
        forall|i: int, j: int|
            0 <= i < split_on(s, c).len() && 0 <= j < split_on(s, c)[i].len() ==> #[trigger] split_on(
                s,
                c,
            )[i][j] != c,
{
    lemma_split_nonempty(s, is_char(c));
    lemma_split_parts(s, is_char(c));
    lemma_joined_split(s, c);
}

proof fn lemma_joined_split(s: Seq<char>, c: char)
    ensures
        joined(split_on(s, c), seq![c]) == s,
    decreases s.len(),
{
    let p = is_char(c);
    let v = split_on(s, c);
    if s.len() == 0 {
        assert(v =~= seq![Seq::<char>::empty()]);
        assert(v[0] =~= s);
    } else {
        let t = s.drop_last();
        lemma_joined_split(t, c);
        lemma_split_nonempty(t, p);
        let r = split_by(t, p);
        if s.last() == c {
            assert(v == r.push(Seq::empty()));
            assert(v.drop_last() =~= r);
            assert(joined(v, seq![c]) =~= t + seq![c]);
            assert(t + seq![c] =~= s);
        } else {
            let last = r.last().push(s.last());
            assert(v == r.drop_last().push(last));
            if r.len() == 1 {
                assert(joined(v, seq![c]) == last);
                assert(last =~= s);
            } else {
                assert(v.drop_last() =~= r.drop_last());
                assert(joined(v, seq![c]) =~= joined(r, seq![c]).push(s.last()));
            }
            assert(t.push(s.last()) =~= s);
        }
    }
}

/// A text is what was trimmed of it, with nothing but white space around, and what is
/// left neither begins nor ends with white space.
pub proof fn law_trimming_takes_white_space(s: Seq<char>) -> (r: (int, int))
    ensures
        0 <= r.0 <= r.1 <= s.len(),
        trimmed(s) == s.subrange(r.0, r.1),
        forall|i: int| 0 <= i < r.0 || r.1 <= i < s.len() ==> white(#[trigger] s[i]),
        r.0 < r.1 ==> !white(s[r.0]) && !white(s[r.1 - 1]),
{
    let p = |c: char| white(c);
    let a = lemma_start(s, p);
    let u = s.skip(a);
    let n = lemma_end(u, p);
    assert(trimmed(s) =~= s.subrange(a, a + n));
    assert forall|i: int| 0 <= i < a || a + n <= i < s.len() implies white(#[trigger] s[i]) by {
        if i >= a + n {
            assert(u[i - a] == s[i]);
        }
    }
    if n > 0 {
        assert(u[n - 1] == s[a + n - 1]);
        if a == s.len() {
            assert(u.len() == 0);
        }
    }
    (a, a + n)
}

/// What is trimmed of one character at an end has it there no more, and had it there
/// as often as it became shorter.
pub proof fn law_trimming_one_character(s: Seq<char>, c: char) -> (r: (int, int))
    ensures
        0 <= r.0 <= s.len(),
        trimmed_start_of(s, c) == s.skip(r.0),
        forall|i: int| 0 <= i < r.0 ==> #[trigger] s[i] == c,
        r.0 < s.len() ==> s[r.0] != c,
        0 <= r.1 <= s.len(),
        trimmed_end_of(s, c) == s.take(r.1),
        forall|i: int| r.1 <= i < s.len() ==> #[trigger] s[i] == c,
        r.1 > 0 ==> s[r.1 - 1] != c,
{
    (lemma_start(s, is_char(c)), lemma_end(s, is_char(c)))
}

proof fn lemma_start(s: Seq<char>, p: spec_fn(char) -> bool) -> (n: int)
    ensures
        0 <= n <= s.len(),
        forall|j: int| 0 <= j < n ==> p(#[trigger] s[j]),
        n == s.len() || !p(s[n]),
        trim_start_by(s, p) == s.skip(n),
    decreases s.len(),
{
    if s.len() > 0 && p(s[0]) {
        let t = s.drop_first();
        let m = lemma_start(t, p);
        assert forall|j: int| 0 <= j < m + 1 implies p(#[trigger] s[j]) by {
            if j > 0 {
                assert(s[j] == t[j - 1]);
            }
        }
        assert(t.skip(m) =~= s.skip(m + 1));
        assert(m < t.len() ==> t[m] == s[m + 1]);
        m + 1
    } else {
        assert(s.skip(0) =~= s);
        0
    }
}

proof fn lemma_end(s: Seq<char>, p: spec_fn(char) -> bool) -> (n: int)
    ensures
        0 <= n <= s.len(),
        forall|j: int| n <= j < s.len() ==> p(#[trigger] s[j]),
        n == 0 || !p(s[n - 1]),
        trim_end_by(s, p) == s.take(n),
    decreases s.len(),
{
    if s.len() > 0 && p(s.last()) {
        let t = s.drop_last();
        let m = lemma_end(t, p);
        assert forall|j: int| m <= j < s.len() implies p(#[trigger] s[j]) by {
            if j < t.len() {
                assert(s[j] == t[j]);
            }
        }
        assert(t.take(m) =~= s.take(m));
        assert(m > 0 ==> t[m - 1] == s[m - 1]);
        m
    } else {
        assert(s.take(s.len() as int) =~= s);
        s.len() as int
    }
}

/// The first occurrence is found, and no earlier one exists.
pub proof fn law_first_occurrence_is_found(s: Seq<char>, pat: Seq<char>, from: int)
    requires
        0 <= from,
    ensures
        match find_from(s, pat, from) {
            Some(i) => from <= i && occurs_at(s, pat, i) && forall|j: int|
                from <= j < i ==> !#[trigger] occurs_at(s, pat, j),
            None => forall|j: int| from <= j ==> !#[trigger] occurs_at(s, pat, j),
        },
    decreases s.len() - from,
{
    if from + pat.len() <= s.len() && !occurs_at(s, pat, from) && from < s.len() {
        law_first_occurrence_is_found(s, pat, from + 1);
    }
}

/// A text without line feed is one line; with a line feed behind it, it still is; and
/// what stands behind a line feed are further lines.
pub proof fn law_lines_end_at_line_feeds(a: Seq<char>, b: Seq<char>)
    requires
        forall|i: int| 0 <= i < a.len() ==> #[trigger] a[i] != '\n',
    ensures
        lines_of(a) == if a.len() > 0 {
            seq![a]
        } else {
            Seq::empty()
        },
        lines_of(a + seq!['\n'] + b) == seq![chomp_cr(a)] + lines_of(b),
{
    let p = is_char('\n');
    lemma_one_part(a, '\n');
    let l = a.push('\n');
    assert(l.drop_last() =~= a);
    assert(split_on(l, '\n') =~= seq![a, Seq::<char>::empty()]);
    crate::text::lemma_split_concat(l, b, p);
    let parts = split_on(b, '\n');
    assert(a + seq!['\n'] + b =~= l + b);
    let all = split_on(l + b, '\n');
    assert(all =~= seq![a] + parts);
    assert(lines_of(a) =~= if a.len() > 0 {
        seq![a]
    } else {
        Seq::empty()
    });
    let f = |t: Seq<char>| chomp_cr(t);
    assert(all.drop_last() =~= seq![a] + parts.drop_last());
    assert(all.drop_last().map_values(f) =~= seq![chomp_cr(a)] + parts.drop_last().map_values(f));
    assert(all.last() == parts.last());
    assert(lines_of(l + b) =~= seq![chomp_cr(a)] + lines_of(b));
}

proof fn lemma_one_part(a: Seq<char>, c: char)
    requires
        forall|i: int| 0 <= i < a.len() ==> #[trigger] a[i] != c,
    ensures
        split_on(a, c) == seq![a],
    decreases a.len(),
{
    let p = is_char(c);
    if a.len() == 0 {
        assert(split_by(a, p) =~= seq![Seq::<char>::empty()]);
        assert(a =~= Seq::<char>::empty());
    } else {
        let t = a.drop_last();
        assert forall|i: int| 0 <= i < t.len() implies #[trigger] t[i] != c by {
            assert(t[i] == a[i]);
        }
        lemma_one_part(t, c);
        assert(a.last() == a[a.len() - 1]);
        assert(split_by(a, p) =~= seq![t.push(a.last())]);
        assert(t.push(a.last()) =~= a);
    }
}

// ---------------------------------------------------------------------------
// Letters

/// Lowering changes the capital letters of ASCII to the small ones and nothing else.
pub proof fn law_lowered_letters(s: Seq<char>, i: int)
    requires
        0 <= i < s.len(),
    ensures
        lowered(s).len() == s.len(),
        'A' <= s[i] <= 'Z' ==> lowered(s)[i] as u32 == s[i] as u32 + 32,
        !('A' <= s[i] <= 'Z') ==> lowered(s)[i] == s[i],
        lowered(lowered(s)) == lowered(s),
{
    let t = lowered(s);
    assert forall|k: int| 0 <= k < s.len() implies lower_char(#[trigger] t[k]) == t[k] by {
        let c = s[k];
        assert(t[k] == lower_char(c));
    }
    assert(lowered(t) =~= t);
}

/// Replacing a character changes its copies and nothing else.
pub proof fn law_replaced_characters(s: Seq<char>, from: char, to: char, i: int)
    requires
        0 <= i < s.len(),
    ensures
        replaced(s, from, to).len() == s.len(),
        s[i] == from ==> replaced(s, from, to)[i] == to,
        s[i] != from ==> replaced(s, from, to)[i] == s[i],
{
}

/// Padding fills a text up to a width with spaces, on the side that it is named for.
pub proof fn law_padding_fills_up(s: Seq<char>, w: nat)
    ensures
        padded_right(s, w).len() == if s.len() > w {
            s.len()
        } else {
            w
        },
        padded_left(s, w).len() == padded_right(s, w).len(),
        starts(padded_right(s, w), s),
        crate::text::ends(padded_left(s, w), s),
        forall|i: int|
            s.len() <= i < padded_right(s, w).len() ==> #[trigger] padded_right(s, w)[i] == ' ',
        forall|i: int|
            0 <= i < padded_left(s, w).len() - s.len() ==> #[trigger] padded_left(s, w)[i] == ' ',
{
    let r = padded_right(s, w);
    let l = padded_left(s, w);
    assert(r.take(s.len() as int) =~= s);
    assert(l.skip(l.len() - s.len()) =~= s);
}

// ---------------------------------------------------------------------------
// Names without repetition

/// What is left of a list without repetition is what was in it, in ascending order.
pub proof fn law_distinct_names(v: Seq<Seq<char>>, t: Seq<char>)
    ensures
        distinct(v).contains(t) <==> v.contains(t),
        forall|i: int, j: int|
            0 <= i < j < distinct(v).len() ==> lex_lt(
                #[trigger] distinct(v)[i],
                #[trigger] distinct(v)[j],
            ),
{
    let m = names(v, v.len());
    let d = distinct(v);
    lemma_names(v, v.len(), t);
    assert(v.take(v.len() as int) =~= v);
    assert(d.len() == m.len());
    assert forall|i: int, j: int| 0 <= i < j < d.len() implies lex_lt(
        #[trigger] d[i],
        #[trigger] d[j],
    ) by {
        assert(m[i].0 == d[i] && m[j].0 == d[j]);
    }
    if d.contains(t) {
        let i = choose|i: int| 0 <= i < d.len() && d[i] == t;
        assert(m[i].0 == t);
        lemma_at_some(m, t, i);
    }
    if at(m, t) is Some {
        let i = lemma_at_place(m, t);
        assert(d[i] == t);
    }
}

proof fn lemma_at_some<T>(m: Seq<(Seq<char>, T)>, key: Seq<char>, i: int)
    requires
        0 <= i < m.len(),
        m[i].0 == key,
    ensures
        at(m, key) is Some,
    decreases m.len(),
{
    if m[0].0 != key {
        assert(m.drop_first()[i - 1] == m[i]);
        lemma_at_some(m.drop_first(), key, i - 1);
    }
}

proof fn lemma_at_place<T>(m: Seq<(Seq<char>, T)>, key: Seq<char>) -> (i: int)
    requires
        at(m, key) is Some,
    ensures
        0 <= i < m.len(),
        m[i].0 == key,
        at(m, key) == Some(m[i].1),
    decreases m.len(),
{
    if m[0].0 == key {
        0
    } else {
        let i = lemma_at_place(m.drop_first(), key);
        assert(m.drop_first()[i] == m[i + 1]);
        i + 1
    }
}

proof fn lemma_names(v: Seq<Seq<char>>, n: nat, t: Seq<char>)
    requires
        n <= v.len(),
    ensures
        ascending(names(v, n)),
        at(names(v, n), t) is Some <==> v.take(n as int).contains(t),
    decreases n,
{
    if n > 0 {
        let m = (n - 1) as nat;
        lemma_names(v, m, t);
        lemma_at_put(names(v, m), v[n - 1], true, t);
        lemma_put_ascending(names(v, m), v[n - 1], true);
        assert(v.take(n as int) =~= v.take(m as int).push(v[n - 1]));
        crate::laws::lists::lemma_contains_push(v.take(m as int), v[n - 1], t);
    }
}

/// The order of texts compares the first characters in which they differ; a text that
/// the other goes on from comes first.
pub proof fn law_order_of_texts(p: Seq<char>, a: Seq<char>, b: Seq<char>)
    ensures
        lex_lt(p + a, p + b) <==> lex_lt(a, b),
        a.len() > 0 && b.len() > 0 && a[0] != b[0] ==> (lex_lt(a, b) <==> a[0] < b[0]),
        a.len() == 0 ==> (lex_lt(a, b) <==> b.len() > 0),
        b.len() == 0 ==> !lex_lt(a, b),
    decreases p.len(),
{
    if p.len() == 0 {
        assert(p + a =~= a);
        assert(p + b =~= b);
    } else {
        law_order_of_texts(p.drop_first(), a, b);
        assert((p + a).drop_first() =~= p.drop_first() + a);
        assert((p + b).drop_first() =~= p.drop_first() + b);
    }
}

} // verus!
