//! How a diff is read and shown: its parts, what they touch, and what of them fits.
use vstd::prelude::*;
use crate::json::{bool_or, str_or, u64_or, Json};
use crate::lang::Lang;
use crate::laws::texts::{flat, lemma_flat_push};
use crate::symbol_def::{names_agree, spans_of, InfoView, SpanView};
use crate::symbol_diff::{
    body_excerpt, capped_from, changed_text, closed, diff_ask_of, diffed, hunk_head, hunk_line,
    hunks_from, hunks_of, hunks_upto, last_line, lies_in, lines_from, new_range, old_definition,
    overlaps, signature_change, span_from, touching, with_hunks, DiffAskView, HunkView, PlaceView,
    Unusable,
};
use crate::text::{
    blen, dec, is_char, is_space, joined, lemma_blen_add, lemma_split_concat, lines_of, listed,
    parsed, split_by, split_on, starts, trimmed, words_of,
};

verus! {

// ---------------------------------------------------------------------------
// Reading a diff

/// Whether a line is the head of a hunk.
pub open spec fn heads(line: Seq<char>) -> bool {
    line.len() >= 2 && line[0] == '@' && line[1] == '@'
}

proof fn lemma_heads(line: Seq<char>)
    ensures
        starts(line, "@@"@) <==> heads(line),
{
    reveal_strlit("@@");
    assert("@@"@.len() == 2 && "@@"@[0] == '@' && "@@"@[1] == '@');
    if heads(line) {
        assert(line.take(2) =~= "@@"@);
    }
    if starts(line, "@@"@) {
        assert(line.take(2)[0] == line[0] && line.take(2)[1] == line[1]);
    }
}

/// Whether a line of a hunk is added, removed or kept.
pub open spec fn told(line: Seq<char>) -> bool {
    line.len() > 0 && (line[0] == '+' || line[0] == '-' || line[0] == ' ')
}

proof fn lemma_told(line: Seq<char>)
    ensures
        hunk_line(line) <==> told(line),
{
    reveal_strlit("+");
    reveal_strlit("-");
    reveal_strlit(" ");
    assert("+"@.len() == 1 && "+"@[0] == '+');
    assert("-"@.len() == 1 && "-"@[0] == '-');
    assert(" "@.len() == 1 && " "@[0] == ' ');
    if line.len() > 0 {
        assert(line.take(1)[0] == line[0]);
        assert(line.take(1) =~= seq![line[0]]);
        assert("+"@ =~= seq!['+']);
        assert("-"@ =~= seq!['-']);
        assert(" "@ =~= seq![' ']);
    }
}

proof fn lemma_hunks_behind(a: Seq<Seq<char>>, b: Seq<Seq<char>>, m: nat)
    requires
        0 < m <= b.len(),
        heads(b[0]),
    ensures
        ({
            let s = hunks_upto(a + b, a.len() + m);
            let t = hunks_upto(b, m);
            s.open == t.open && s.done == closed(hunks_upto(a, a.len())) + t.done
        }),
    decreases m,
{
    let ls = a + b;
    let n = a.len() + m;
    assert(ls[n - 1] == b[m - 1]);
    if m == 1 {
        lemma_heads(b[0]);
        lemma_hunks_same(a, b, a.len());
        assert(hunks_upto(b, 0).done.len() == 0);
        let c = closed(hunks_upto(a, a.len()));
        assert(hunks_upto(b, 1).done =~= Seq::empty());
        assert(c + hunks_upto(b, 1).done =~= c);
        assert(hunks_upto(ls, a.len()) == hunks_upto(a, a.len()));
    } else {
        lemma_hunks_behind(a, b, (m - 1) as nat);
        let s = hunks_upto(ls, (n - 1) as nat);
        let t = hunks_upto(b, (m - 1) as nat);
        let c = closed(hunks_upto(a, a.len()));
        assert(closed(s) =~= c + closed(t));
    }
}

proof fn lemma_hunks_same(a: Seq<Seq<char>>, b: Seq<Seq<char>>, n: nat)
    requires
        n <= a.len(),
    ensures
        hunks_upto(a + b, n) == hunks_upto(a, n),
    decreases n,
{
    if n > 0 {
        lemma_hunks_same(a, b, (n - 1) as nat);
        assert((a + b)[n - 1] == a[n - 1]);
    }
}

/// A head begins a hunk: what stands before it and what begins with it are read apart.
pub proof fn law_heads_part_a_diff(a: Seq<Seq<char>>, b: Seq<Seq<char>>)
    requires
        b.len() > 0,
        heads(b[0]),
    ensures
        closed(hunks_upto(a + b, a.len() + b.len())) == closed(hunks_upto(a, a.len())) + closed(
            hunks_upto(b, b.len()),
        ),
{
    lemma_hunks_behind(a, b, b.len());
    let s = hunks_upto(a + b, a.len() + b.len());
    assert(closed(s) =~= closed(hunks_upto(a, a.len())) + closed(hunks_upto(b, b.len())));
}

/// Without a head there is no hunk.
pub proof fn law_no_hunk_without_a_head(ls: Seq<Seq<char>>, n: nat)
    requires
        n <= ls.len(),
        forall|i: int| 0 <= i < ls.len() ==> !heads(#[trigger] ls[i]),
    ensures
        closed(hunks_upto(ls, n)).len() == 0,
        hunks_upto(ls, n).open is None,
    decreases n,
{
    if n > 0 {
        law_no_hunk_without_a_head(ls, (n - 1) as nat);
        lemma_heads(ls[n - 1]);
    }
}

/// What is told behind a head, up to the next one, is its hunk: a head that gives no lines of
/// the new file begins none.
pub proof fn law_one_head_one_hunk(ls: Seq<Seq<char>>, n: nat)
    requires
        0 < n <= ls.len(),
        heads(ls[0]),
        forall|i: int| 0 < i < ls.len() ==> !heads(#[trigger] ls[i]),
    ensures
        new_range(ls[0]) is None ==> closed(hunks_upto(ls, n)).len() == 0,
        new_range(ls[0]) matches Some(r) ==> {
            let hs = closed(hunks_upto(ls, n));
            &&& hs.len() == 1
            &&& hs[0].new_start == r.0
            &&& hs[0].new_count == r.1
            &&& hs[0].lines == ls.subrange(1, n as int).filter(|l: Seq<char>| told(l))
        },
        hunks_upto(ls, n).done.len() == 0,
        new_range(ls[0]) is None <==> hunks_upto(ls, n).open is None,
    decreases n,
{
    let f = |l: Seq<char>| told(l);
    let line = ls[n - 1];
    lemma_heads(line);
    lemma_told(line);
    if n == 1 {
        reveal(Seq::filter);
        assert(hunks_upto(ls, 0).done.len() == 0);
        assert(ls.subrange(1, 1) =~= Seq::<Seq<char>>::empty());
        assert(ls.subrange(1, 1).filter(f) =~= Seq::<Seq<char>>::empty());
    } else {
        law_one_head_one_hunk(ls, (n - 1) as nat);
        let before = ls.subrange(1, n - 1);
        assert(ls.subrange(1, n as int) =~= before.push(line));
        before.lemma_filter_push(line, f);
    }
}

/// A head names the lines of the new file behind its first `+`, up to white space: where they
/// begin and, behind a comma, how many there are, or else one.
pub proof fn law_lines_that_a_head_names(
    before: Seq<char>,
    range: Seq<char>,
    behind: Seq<char>,
    start: Seq<char>,
    count: Seq<char>,
)
    requires
        forall|i: int| 0 <= i < before.len() ==> before[i] != '+',
        forall|i: int| 0 <= i < behind.len() ==> behind[i] != '+',
        forall|i: int| 0 <= i < start.len() ==> start[i] != ',' && start[i] != '+',
        forall|i: int| 0 <= i < count.len() ==> count[i] != ',' && count[i] != '+',
        behind.len() > 0 && is_space()(behind[0]),
        start.len() > 0,
        forall|i: int| 0 <= i < start.len() ==> !is_space()(#[trigger] start[i]),
        forall|i: int| 0 <= i < count.len() ==> !is_space()(#[trigger] count[i]),
        range == start || range == start + seq![','] + count,
    ensures
        range == start ==> new_range(before + seq!['+'] + range + behind) == (match parsed(
            start,
            u64::MAX as nat,
        ) {
            Some(n) => Some((n, 1nat)),
            None => None,
        }),
        range == start + seq![','] + count ==> new_range(before + seq!['+'] + range + behind)
            == (match (parsed(start, u64::MAX as nat), parsed(count, u64::MAX as nat)) {
            (Some(n), Some(c)) => Some((n, c)),
            _ => None,
        }),
{
    let rest = range + behind;
    let line = before + seq!['+'] + rest;
    assert(line =~= before + seq!['+'] + range + behind);
    assert(forall|i: int| 0 <= i < rest.len() ==> rest[i] != '+');
    lemma_parts(before, rest, is_char('+'), '+');
    assert(split_on(line, '+')[1] == rest);
    assert(forall|i: int| 0 <= i < range.len() ==> !is_space()(#[trigger] range[i]));
    lemma_first_word(range, behind);
    if range == start + seq![','] + count {
        lemma_parts(start, count, is_char(','), ',');
        assert(start != range) by {
            assert(start.len() < range.len());
        }
    } else {
        lemma_whole(start, is_char(','));
    }
}

/// A text without a separator is its only part.
pub proof fn lemma_whole(s: Seq<char>, p: spec_fn(char) -> bool)
    requires
        forall|i: int| 0 <= i < s.len() ==> !p(#[trigger] s[i]),
    ensures
        split_by(s, p) == seq![s],
    decreases s.len(),
{
    if s.len() > 0 {
        let t = s.drop_last();
        assert(forall|i: int| 0 <= i < t.len() ==> t[i] == s[i]);
        lemma_whole(t, p);
        assert(split_by(s, p) =~= seq![s]) by {
            assert(t.push(s.last()) =~= s);
        }
    } else {
        assert(s =~= Seq::empty());
    }
}

proof fn lemma_parts(a: Seq<char>, b: Seq<char>, p: spec_fn(char) -> bool, c: char)
    requires
        p(c),
        forall|i: int| 0 <= i < a.len() ==> !p(#[trigger] a[i]),
        forall|i: int| 0 <= i < b.len() ==> !p(#[trigger] b[i]),
    ensures
        split_by(a + seq![c] + b, p) == seq![a, b],
{
    let first = a + seq![c];
    lemma_whole(a, p);
    lemma_whole(b, p);
    lemma_split_concat(first, b, p);
    assert(first.drop_last() =~= a);
    assert(split_by(first, p) =~= seq![a].push(Seq::empty()));
    assert(split_by(first + b, p) =~= seq![a, b]);
}

proof fn lemma_first_word(w: Seq<char>, behind: Seq<char>)
    requires
        w.len() > 0,
        forall|i: int| 0 <= i < w.len() ==> !is_space()(#[trigger] w[i]),
        behind.len() > 0,
        is_space()(behind[0]),
    ensures
        words_of(w + behind).len() > 0,
        words_of(w + behind)[0] == w,
{
    let p = is_space();
    let first = w + seq![behind[0]];
    let rest = behind.drop_first();
    assert(w + behind =~= first + rest);
    lemma_whole(w, p);
    lemma_split_concat(first, rest, p);
    assert(first.drop_last() =~= w);
    assert(split_by(first, p) =~= seq![w].push(Seq::empty()));
    let parts = split_by(w + behind, p);
    assert(parts == seq![w] + split_by(rest, p)) by {
        assert(split_by(first, p).drop_last() =~= seq![w]);
    }
    lemma_filter_head(parts);
}

proof fn lemma_filter_head(parts: Seq<Seq<char>>)
    requires
        parts.len() > 0,
        parts[0].len() > 0,
    ensures
        parts.filter(crate::text::nonempty()).len() > 0,
        parts.filter(crate::text::nonempty())[0] == parts[0],
    decreases parts.len(),
{
    reveal(Seq::filter);
    let f = crate::text::nonempty();
    if parts.len() == 1 {
        assert(parts.drop_last() =~= Seq::<Seq<char>>::empty());
        assert(parts.drop_last().filter(f) =~= Seq::<Seq<char>>::empty());
        assert(parts.filter(f) =~= seq![parts[0]]);
    } else {
        lemma_filter_head(parts.drop_last());
    }
}

/// A hunk touches lines where the two ranges meet; one that only removes lines touches the
/// line that it stands at, which is the first one at least.
pub proof fn law_where_a_hunk_touches(h: HunkView, first: nat, last: nat)
    requires
        first <= last,
        h.new_start + h.new_count <= u64::MAX,
    ensures
        h.new_count > 0 ==> (overlaps(h, first, last) <==> h.new_start <= last && first
            < h.new_start + h.new_count),
        h.new_count == 0 && h.new_start > 0 ==> (overlaps(h, first, last) <==> first <= h.new_start
            <= last),
        h.new_count == 0 && h.new_start == 0 ==> (overlaps(h, first, last) <==> first <= 1
            <= last),
{
    if h.new_count > 0 {
        if h.new_start <= last && first < h.new_start + h.new_count {
            let l = if h.new_start <= first {
                first
            } else {
                h.new_start
            };
            assert(lies_in(l, h.new_start, last_line(h)) && lies_in(l, first, last));
        }
    }
}

/// A hunk is shown if and only if it is one of the diff and touches the lines.
pub proof fn law_hunks_that_are_shown(diff: Seq<char>, first: nat, last: nat, h: HunkView)
    ensures
        hunks_of(diff).filter(touching(first, last)).contains(h) <==> hunks_of(diff).contains(h)
            && overlaps(h, first, last),
{
    let f = touching(first, last);
    let all = hunks_of(diff);
    if all.filter(f).contains(h) {
        all.lemma_filter_contains_rev(f, h);
        let k = choose|k: int| 0 <= k < all.filter(f).len() && all.filter(f)[k] == h;
        all.lemma_filter_pred(f, k);
    }
    if all.contains(h) && f(h) {
        let i = choose|i: int| 0 <= i < all.len() && all[i] == h;
        all.lemma_filter_contains(f, i);
    }
}

// ---------------------------------------------------------------------------
// What stood there before

proof fn lemma_span_at(v: Seq<SpanView>, symbol: Seq<char>, k: int, i: int)
    requires
        0 <= i <= k <= v.len(),
        forall|m: int| 0 <= m < k ==> !names_agree((#[trigger] v[m]).name, symbol),
        k < v.len() ==> names_agree(v[k].name, symbol),
    ensures
        span_from(v, symbol, i) == (if k < v.len() {
            Some(v[k])
        } else {
            None
        }),
    decreases k - i,
{
    if i < k {
        lemma_span_at(v, symbol, k, i + 1);
    }
}

/// What stood there before is the first definition whose name agrees, with its signature and
/// its lines.
pub proof fn law_old_definition_is_the_first_that_agrees(
    src: Seq<char>,
    lang: Lang,
    symbol: Seq<char>,
    k: int,
)
    requires
        0 <= k < spans_of(lang, src).len(),
        names_agree(spans_of(lang, src)[k].name, symbol),
        forall|m: int|
            0 <= m < k ==> !names_agree((#[trigger] spans_of(lang, src)[m]).name, symbol),
        0 < spans_of(lang, src)[k].start <= spans_of(lang, src)[k].end <= lines_of(src).len(),
    ensures
        ({
            let sp = spans_of(lang, src)[k];
            old_definition(src, lang, symbol) == Some(
                (
                    sp.signature,
                    joined(lines_of(src).subrange(sp.start - 1, sp.end as int), "\n"@),
                ),
            )
        }),
{
    lemma_span_at(spans_of(lang, src), symbol, k, 0);
}

/// Where no name agrees, nothing stood there before.
pub proof fn law_no_old_definition(src: Seq<char>, lang: Lang, symbol: Seq<char>)
    requires
        forall|m: int|
            0 <= m < spans_of(lang, src).len() ==> !names_agree(
                (#[trigger] spans_of(lang, src)[m]).name,
                symbol,
            ),
    ensures
        old_definition(src, lang, symbol) is None,
{
    lemma_span_at(spans_of(lang, src), symbol, spans_of(lang, src).len() as int, 0);
}

// ---------------------------------------------------------------------------
// What fits

/// Lines, each with its end.
pub open spec fn ended_lines(ls: Seq<Seq<char>>) -> Seq<char> {
    flat(Seq::new(ls.len(), |i: int| ls[i] + "\n"@))
}

proof fn lemma_ended_next(ls: Seq<Seq<char>>, k: int)
    requires
        0 <= k < ls.len(),
    ensures
        ended_lines(ls.take(k + 1)) == ended_lines(ls.take(k)) + ls[k] + "\n"@,
{
    let a = Seq::new(k as nat, |i: int| ls.take(k)[i] + "\n"@);
    let b = Seq::new((k + 1) as nat, |i: int| ls.take(k + 1)[i] + "\n"@);
    lemma_flat_push(a, ls[k] + "\n"@);
    assert(b =~= a.push(ls[k] + "\n"@));
    assert(ls.take(k).len() == k && ls.take(k + 1).len() == k + 1);
    assert(flat(a) + (ls[k] + "\n"@) =~= flat(a) + ls[k] + "\n"@);
}

proof fn lemma_capped_rest(
    out: Seq<char>,
    ls: Seq<Seq<char>>,
    budget: nat,
    n: int,
    k: int,
)
    requires
        0 <= k <= n <= ls.len(),
        forall|i: int|
            0 <= i < n ==> blen(out + #[trigger] ended_lines(ls.take(i))) / 4 <= budget,
        n < ls.len() ==> blen(out + ended_lines(ls.take(n))) / 4 > budget,
    ensures
        ({
            let shown = out + ended_lines(ls.take(n));
            let all = if n < ls.len() {
                shown + "… (truncated by token_budget)\n"@
            } else {
                shown
            };
            &&& capped_from(out + ended_lines(ls.take(k)), ls, budget, k) == all
            &&& lines_from(out + ended_lines(ls.take(k)), ls, budget, k) == (all, n < ls.len())
        }),
    decreases n - k,
{
    if k < n {
        lemma_ended_next(ls, k);
        let e = ended_lines(ls.take(k));
        assert(out + (e + ls[k] + "\n"@) =~= out + e + ls[k] + "\n"@);
        lemma_capped_rest(out, ls, budget, n, k + 1);
    }
}

/// Lines are shown up to the first that would stand behind a text over the budget, and a note
/// stands in place of the rest.
pub proof fn law_lines_up_to_the_budget(out: Seq<char>, ls: Seq<Seq<char>>, budget: nat, n: int)
    requires
        0 <= n <= ls.len(),
        forall|i: int|
            0 <= i < n ==> blen(out + #[trigger] ended_lines(ls.take(i))) / 4 <= budget,
        n < ls.len() ==> blen(out + ended_lines(ls.take(n))) / 4 > budget,
    ensures
        n == ls.len() ==> capped_from(out, ls, budget, 0) == out + ended_lines(ls),
        n < ls.len() ==> capped_from(out, ls, budget, 0) == out + ended_lines(ls.take(n))
            + "… (truncated by token_budget)\n"@,
        lines_from(out, ls, budget, 0) == (capped_from(out, ls, budget, 0), n < ls.len()),
{
    lemma_capped_rest(out, ls, budget, n, 0);
    let none = Seq::new(0, |i: int| ls.take(0)[i] + "\n"@);
    assert(none =~= Seq::<Seq<char>>::empty());
    assert(out + ended_lines(ls.take(0)) =~= out);
    assert(ls.take(ls.len() as int) =~= ls);
}

proof fn lemma_prefix_fits(out: Seq<char>, ls: Seq<Seq<char>>, budget: nat, i: int)
    requires
        0 <= i <= ls.len(),
        blen(out + ended_lines(ls)) / 4 <= budget,
    ensures
        blen(out + ended_lines(ls.take(i))) / 4 <= budget,
    decreases ls.len() - i,
{
    if i < ls.len() {
        lemma_prefix_fits(out, ls, budget, i + 1);
        lemma_ended_next(ls, i);
        let e = ended_lines(ls.take(i));
        assert(out + (e + ls[i] + "\n"@) =~= (out + e) + (ls[i] + "\n"@));
        lemma_blen_add(out + e, ls[i] + "\n"@);
    } else {
        assert(ls.take(i) =~= ls);
    }
}

/// What fits is shown in full.
pub proof fn law_what_fits_is_shown(out: Seq<char>, ls: Seq<Seq<char>>, budget: nat)
    requires
        blen(out + ended_lines(ls)) / 4 <= budget,
    ensures
        capped_from(out, ls, budget, 0) == out + ended_lines(ls),
        lines_from(out, ls, budget, 0) == (out + ended_lines(ls), false),
{
    assert forall|i: int| 0 <= i < ls.len() implies blen(
        out + #[trigger] ended_lines(ls.take(i)),
    ) / 4 <= budget by {
        lemma_prefix_fits(out, ls, budget, i);
    }
    law_lines_up_to_the_budget(out, ls, budget, ls.len() as int);
}

/// A hunk as it is shown: the lines that it spans, what it tells, and an empty line.
pub open spec fn shown_hunk(h: HunkView) -> Seq<char> {
    "@@ lines "@ + dec(h.new_start) + "-"@ + dec(last_line(h)) + " @@\n"@ + ended_lines(h.lines)
        + "\n"@
}

/// Hunks as they are shown.
pub open spec fn shown_hunks(hs: Seq<HunkView>) -> Seq<char> {
    flat(Seq::new(hs.len(), |i: int| shown_hunk(hs[i])))
}

proof fn lemma_hunks_next(hs: Seq<HunkView>, k: int)
    requires
        0 <= k < hs.len(),
    ensures
        shown_hunks(hs.take(k + 1)) == shown_hunks(hs.take(k)) + shown_hunk(hs[k]),
{
    let a = Seq::new(k as nat, |i: int| shown_hunk(hs.take(k)[i]));
    let b = Seq::new((k + 1) as nat, |i: int| shown_hunk(hs.take(k + 1)[i]));
    lemma_flat_push(a, shown_hunk(hs[k]));
    assert(b =~= a.push(shown_hunk(hs[k])));
    assert(hs.take(k).len() == k && hs.take(k + 1).len() == k + 1);
}

proof fn lemma_hunks_fit(out: Seq<char>, hs: Seq<HunkView>, budget: nat, i: int)
    requires
        0 <= i <= hs.len(),
        blen(out + shown_hunks(hs)) / 4 <= budget,
    ensures
        blen(out + shown_hunks(hs.take(i))) / 4 <= budget,
    decreases hs.len() - i,
{
    if i < hs.len() {
        lemma_hunks_fit(out, hs, budget, i + 1);
        lemma_hunks_next(hs, i);
        let e = shown_hunks(hs.take(i));
        assert(out + (e + shown_hunk(hs[i])) =~= (out + e) + shown_hunk(hs[i]));
        lemma_blen_add(out + e, shown_hunk(hs[i]));
    } else {
        assert(hs.take(i) =~= hs);
    }
}

proof fn lemma_hunks_rest(out: Seq<char>, hs: Seq<HunkView>, budget: nat, k: int)
    requires
        0 <= k <= hs.len(),
        blen(out + shown_hunks(hs)) / 4 <= budget,
    ensures
        hunks_from(out + shown_hunks(hs.take(k)), hs, budget, k) == out + shown_hunks(hs),
    decreases hs.len() - k,
{
    if k < hs.len() {
        let e = out + shown_hunks(hs.take(k));
        let h = hs[k];
        let head = e + hunk_head(h);
        lemma_hunks_fit(out, hs, budget, k + 1);
        lemma_hunks_next(hs, k);
        let full = out + shown_hunks(hs.take(k + 1));
        assert(full =~= (head + ended_lines(h.lines)) + "\n"@);
        lemma_blen_add(head + ended_lines(h.lines), "\n"@);
        law_what_fits_is_shown(head, h.lines, budget);
        lemma_hunks_rest(out, hs, budget, k + 1);
    } else {
        assert(hs.take(k) =~= hs);
    }
}

/// Hunks that fit are shown in full and in order; where none touches the definition, the
/// answer says so.
pub proof fn law_hunks_that_fit_are_shown(out: Seq<char>, hs: Seq<HunkView>, budget: nat)
    ensures
        hs.len() > 0 && blen(out + shown_hunks(hs)) / 4 <= budget ==> with_hunks(out, hs, budget)
            == out + shown_hunks(hs),
        hs.len() == 0 ==> with_hunks(out, hs, budget) == out
            + "(diff touches the file but no hunk overlaps this symbol's span)\n"@,
{
    if hs.len() > 0 && blen(out + shown_hunks(hs)) / 4 <= budget {
        lemma_hunks_rest(out, hs, budget, 0);
        let none = Seq::new(0, |i: int| shown_hunk(hs.take(0)[i]));
        assert(none =~= Seq::<Seq<char>>::empty());
        assert(out + shown_hunks(hs.take(0)) =~= out);
    }
}

/// The last line of a hunk: it spans as many lines as it counts, or stands at one.
pub proof fn law_last_line_of_a_hunk(h: HunkView)
    requires
        h.new_start + h.new_count <= u64::MAX,
    ensures
        h.new_count > 0 ==> last_line(h) + 1 == h.new_start + h.new_count,
        h.new_count == 0 ==> last_line(h) == h.new_start,
{
}

// ---------------------------------------------------------------------------
// Answers

/// The first line of an answer.
pub open spec fn first_line(p: PlaceView, what: Seq<char>) -> Seq<char> {
    "symbol_diff - \""@ + p.name + "\" at "@ + p.rel + ":"@ + dec(p.start) + "-"@ + dec(p.end)
        + "  (vs "@ + p.gitref + what + ")\n\n"@
}

/// Where only the body changed, both are shown, the old one first, as far as they fit.
pub proof fn law_both_bodies_are_shown(
    p: PlaceView,
    old_body: Seq<char>,
    new_body: Seq<char>,
    budget: nat,
)
    requires
        blen(
            first_line(p, ", body-only"@) + "--- old ("@ + p.gitref + ") ---\n"@ + ended_lines(
                lines_of(old_body),
            ) + "\n"@ + "+++ new (working) ---\n"@ + ended_lines(lines_of(new_body)),
        ) / 4 <= budget,
    ensures
        body_excerpt(p, old_body, new_body, budget) == first_line(p, ", body-only"@) + "--- old ("@
            + p.gitref + ") ---\n"@ + ended_lines(lines_of(old_body)) + "\n"@
            + "+++ new (working) ---\n"@ + ended_lines(lines_of(new_body)),
{
    let a = first_line(p, ", body-only"@) + "--- old ("@ + p.gitref + ") ---\n"@;
    let old_lines = a + ended_lines(lines_of(old_body));
    let b = old_lines + "\n"@ + "+++ new (working) ---\n"@;
    lemma_blen_add(b, ended_lines(lines_of(new_body)));
    lemma_blen_add(old_lines + "\n"@, "+++ new (working) ---\n"@);
    lemma_blen_add(old_lines, "\n"@);
    law_what_fits_is_shown(a, lines_of(old_body), budget);
    law_what_fits_is_shown(b, lines_of(new_body), budget);
}

/// Where the signature changed, the hunks are shown, and the bodies behind them if and only if
/// they are given.
pub proof fn law_bodies_behind_the_hunks(
    p: PlaceView,
    old_sig: Seq<char>,
    new_sig: Seq<char>,
    hs: Seq<HunkView>,
    old_body: Seq<char>,
    new_body: Seq<char>,
    budget: nat,
)
    ensures
        ({
            let head = first_line(p, ", signature changed"@) + "signature:\n"@ + "- "@ + old_sig
                + "\n"@ + "+ "@ + new_sig + "\n\n"@;
            let short = with_hunks(head, hs, budget);
            let old_lines = short + "\n"@ + "--- old body ("@ + p.gitref + ") ---\n"@ + ended_lines(
                lines_of(old_body),
            );
            let new_head = old_lines + "\n"@ + "+++ new body (working) ---\n"@;
            let whole = new_head + ended_lines(lines_of(new_body));
            &&& signature_change(p, old_sig, new_sig, hs, None, budget) == short
            &&& blen(whole) / 4 <= budget ==> signature_change(
                p,
                old_sig,
                new_sig,
                hs,
                Some((old_body, new_body)),
                budget,
            ) == whole
        }),
{
    let head = first_line(p, ", signature changed"@) + "signature:\n"@ + "- "@ + old_sig + "\n"@
        + "+ "@ + new_sig + "\n\n"@;
    let short = with_hunks(head, hs, budget);
    let c = short + "\n"@ + "--- old body ("@ + p.gitref + ") ---\n"@;
    let old_lines = c + ended_lines(lines_of(old_body));
    let new_head = old_lines + "\n"@ + "+++ new body (working) ---\n"@;
    let whole = new_head + ended_lines(lines_of(new_body));
    if blen(whole) / 4 <= budget {
        lemma_blen_add(new_head, ended_lines(lines_of(new_body)));
        lemma_blen_add(old_lines + "\n"@, "+++ new body (working) ---\n"@);
        lemma_blen_add(old_lines, "\n"@);
        law_what_fits_is_shown(c, lines_of(old_body), budget);
        law_what_fits_is_shown(new_head, lines_of(new_body), budget);
    }
}

/// What is answered where there is nothing to show: no definition, no diff, or no change.
pub proof fn law_answers_without_a_change(
    a: DiffAskView,
    paths: Seq<Seq<char>>,
    d: InfoView,
    scanned: u64,
    diff: Seq<char>,
    msg: Seq<char>,
    old_src: Option<Seq<char>>,
    any: Result<Seq<char>, Seq<char>>,
)
    requires
        trimmed(diff).len() == 0,
    ensures
        diffed(a, paths, None, scanned, any, old_src).text == "symbol_diff - no definition of \""@
            + a.symbol + "\" in scope "@ + listed(paths) + "\n"@,
        diffed(a, paths, None, scanned, any, old_src).baseline == 0,
        diffed(a, paths, Some(d), scanned, Err(msg), old_src).text == "symbol_diff - "@ + msg,
        diffed(a, paths, Some(d), scanned, Err(msg), old_src).baseline == scanned as nat / 4,
        diffed(a, paths, Some(d), scanned, Ok(diff), old_src).text == "symbol_diff - \""@ + d.name
            + "\" at "@ + d.rel + ":"@ + dec(d.line) + "  (no changes vs "@ + a.gitref
            + " in this file)\n"@,
        diffed(a, paths, Some(d), scanned, Ok(diff), old_src).baseline == scanned as nat / 4,
{
}

/// An answer with a change counts what was scanned and the diff, and what it gives back
/// itself.
pub proof fn law_what_a_diff_saves(
    a: DiffAskView,
    paths: Seq<Seq<char>>,
    d: InfoView,
    scanned: u64,
    diff: Seq<char>,
    old_src: Option<Seq<char>>,
)
    requires
        trimmed(diff).len() > 0,
        scanned + blen(diff) <= u64::MAX,
    ensures
        ({
            let b = diffed(a, paths, Some(d), scanned, Ok(diff), old_src);
            &&& b.baseline == (scanned + blen(diff)) / 4
            &&& b.returned == blen(b.text) / 4
            &&& b.text == changed_text(a, d, diff, old_src)
        }),
{
}

/// Where nothing is known of what stood there before, the hunks alone are shown.
pub proof fn law_hunks_alone(a: DiffAskView, d: InfoView, diff: Seq<char>)
    ensures
        changed_text(a, d, diff, None) == with_hunks(
            "symbol_diff - \""@ + d.name + "\" at "@ + d.rel + ":"@ + dec(d.line) + "-"@ + dec(
                d.end_line,
            ) + "  (vs "@ + a.gitref + ""@ + ")\n\n"@,
            hunks_of(diff).filter(touching(d.line, d.end_line)),
            a.budget as nat,
        ),
{
}

/// What a request asks for, and when it cannot be used: a symbol is needed, and a revision that
/// is no option.
pub proof fn law_what_a_diff_is_asked_for(args: Json)
    ensures
        ({
            let symbol = trimmed(str_or(args, "symbol"@, ""@));
            let gitref = trimmed(str_or(args, "ref"@, "HEAD"@));
            let plain = gitref.len() > 0 && gitref[0] != '-';
            &&& symbol.len() == 0 ==> diff_ask_of(args) == Err::<DiffAskView, Unusable>(
                Unusable::NoSymbol,
            )
            &&& symbol.len() > 0 && !plain ==> diff_ask_of(args) == Err::<DiffAskView, Unusable>(
                Unusable::BadRef,
            )
            &&& symbol.len() > 0 && plain ==> (diff_ask_of(args) matches Ok(q) && q.symbol == symbol
                && q.gitref == gitref && q.context == u64_or(args, "context"@, 3) && q.show_body
                == bool_or(args, "body"@, false) && q.budget == u64_or(
                args,
                "token_budget"@,
                1200,
            ))
        }),
{
    let gitref = trimmed(str_or(args, "ref"@, "HEAD"@));
    reveal_strlit("-");
    assert("-"@.len() == 1 && "-"@[0] == '-');
    if gitref.len() > 0 {
        assert(gitref.take(1)[0] == gitref[0]);
        if gitref[0] == '-' {
            assert(gitref.take(1) =~= "-"@);
        }
    }
}

} // verus!
