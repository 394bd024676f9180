//! How close names are, which names are suggested, and how a name is resolved.
use vstd::prelude::*;
use crate::izakaya::replay::distinct;
use crate::laws::lists::{lemma_arranged_items, lemma_contains_push};
use crate::laws::primitives::law_distinct_names;
use crate::laws::texts::{flat, lemma_flat_push};
use crate::order::{key_lt, lemma_sort_order, positioned, sort_order};
use crate::symbol_def::{segment, segment_from};
use crate::symbol_resolve::{
    alike, edits, first_named, hint_of, hit_row, hits_upto, ident_leaf, name_rows, normalized,
    outside, profile_hits, ranked, resolved, run_names, score, score_keys, scored_upto, suggested,
    ElsewhereView, WantedView,
};
use crate::text::{among, blen, dec, ends, holds, joined, listed, lowered, starts};

verus! {

// ---------------------------------------------------------------------------
// Names

/// The last segment of a qualified name is what stands behind its last double colon.
pub proof fn law_last_segment(a: Seq<char>, b: Seq<char>)
    requires
        forall|i: int, j: int|
            0 <= i && j == i + 1 && j < b.len() ==> !(#[trigger] b[i] == ':' && #[trigger] b[j]
                == ':'),
        b.len() > 0 ==> b[0] != ':',
    ensures
        segment(a + "::"@ + b) == b,
        segment(b) == b,
{
    reveal_strlit("::");
    assert("::"@.len() == 2 && "::"@[0] == ':' && "::"@[1] == ':');
    let s = a + "::"@ + b;
    let k = a.len() + 2;
    assert forall|i: int| k <= i < s.len() implies #[trigger] s[i] == b[i - k] by {}
    lemma_segment(s, k as int, s.len() as int);
    assert(s.skip(k as int) =~= b);
    lemma_no_segment(b, b.len() as int);
}

proof fn lemma_segment(s: Seq<char>, k: int, n: int)
    requires
        2 <= k <= n <= s.len(),
        s[k - 2] == ':' && s[k - 1] == ':',
        k < s.len() ==> s[k] != ':',
        forall|i: int, j: int|
            k <= i && j == i + 1 && j < s.len() ==> !(#[trigger] s[i] == ':' && #[trigger] s[j]
                == ':'),
    ensures
        segment_from(s, n) == s.skip(k),
    decreases n,
{
    if n > k {
        if n - 2 >= k {
            assert(!(s[n - 2] == ':' && s[n - 1] == ':'));
        } else {
            assert(s[n - 1] == s[k]);
        }
        lemma_segment(s, k, n - 1);
    }
}

proof fn lemma_no_segment(s: Seq<char>, n: int)
    requires
        0 <= n <= s.len(),
        forall|i: int, j: int|
            0 <= i && j == i + 1 && j < s.len() ==> !(#[trigger] s[i] == ':' && #[trigger] s[j]
                == ':'),
    ensures
        segment_from(s, n) == s,
    decreases n,
{
    if n >= 2 {
        assert(!(s[n - 2] == ':' && s[n - 1] == ':'));
        lemma_no_segment(s, n - 1);
    }
}

/// A text without angle brackets.
pub open spec fn angleless(s: Seq<char>) -> bool {
    forall|i: int| 0 <= i < s.len() ==> #[trigger] s[i] != '<' && s[i] != '>'
}

proof fn lemma_outside_plain(s: Seq<char>, n: nat, k: nat)
    requires
        k <= n <= s.len(),
        forall|i: int| k <= i < n ==> #[trigger] s[i] != '<' && s[i] != '>',
    ensures
        outside(s, n).1 == outside(s, k).1,
        outside(s, k).1 == 0 ==> outside(s, n).0 == outside(s, k).0 + s.subrange(k as int, n as int),
        outside(s, k).1 > 0 ==> outside(s, n).0 == outside(s, k).0,
    decreases n,
{
    if n == k {
        assert(outside(s, k).0 + s.subrange(k as int, n as int) =~= outside(s, k).0);
    } else {
        lemma_outside_plain(s, (n - 1) as nat, k);
        assert(s[n - 1] != '<' && s[n - 1] != '>');
        assert(s.subrange(k as int, n as int) =~= s.subrange(k as int, n - 1).push(s[n - 1]));
        assert(outside(s, k).0 + s.subrange(k as int, n - 1).push(s[n - 1]) =~= (outside(s, k).0
            + s.subrange(k as int, n - 1)).push(s[n - 1]));
    }
}

/// What stands in angle brackets is left out of a name, and what stands outside stays.
pub proof fn law_arguments_are_left_out(a: Seq<char>, x: Seq<char>, b: Seq<char>)
    requires
        angleless(a),
        angleless(x),
        angleless(b),
    ensures
        ({
            let s = a + seq!['<'] + x + seq!['>'] + b;
            outside(s, s.len()).0 == a + b
        }),
{
    let s = a + seq!['<'] + x + seq!['>'] + b;
    let i = a.len();
    let j = (i + 1 + x.len()) as nat;
    assert(s[i as int] == '<' && s[j as int] == '>');
    assert forall|k: int| 0 <= k < i implies #[trigger] s[k] != '<' && s[k] != '>' by {
        assert(s[k] == a[k]);
    }
    assert forall|k: int| i < k < j implies #[trigger] s[k] != '<' && s[k] != '>' by {
        assert(s[k] == x[k - i - 1]);
    }
    assert forall|k: int| j < k < s.len() implies #[trigger] s[k] != '<' && s[k] != '>' by {
        assert(s[k] == b[k - j - 1]);
    }
    lemma_outside_plain(s, i, 0);
    assert(outside(s, 0).0 + s.subrange(0, i as int) =~= a);
    assert(outside(s, i + 1) == (a, 1nat));
    lemma_outside_plain(s, j, i + 1);
    assert(outside(s, j + 1) == (a, 0nat));
    lemma_outside_plain(s, s.len(), j + 1);
    assert(s.subrange(j as int + 1, s.len() as int) =~= b);
}

// ---------------------------------------------------------------------------
// Edits

/// Texts that no edit is needed between are the same, and as many edits are needed as
/// the lengths differ at least, and as the longer is long at most.
pub proof fn law_edits_measure_difference(a: Seq<char>, b: Seq<char>, i: nat, j: nat)
    requires
        i <= a.len(),
        j <= b.len(),
    ensures
        edits(a, b, i, j) == 0 ==> a.take(i as int) == b.take(j as int),
        edits(a, b, i, j) >= i - j,
        edits(a, b, i, j) >= j - i,
        edits(a, b, i, j) <= if i > j {
            i
        } else {
            j
        },
    decreases i + j,
{
    if i == 0 || j == 0 {
        assert(a.take(0) =~= b.take(0));
    } else {
        law_edits_measure_difference(a, b, (i - 1) as nat, j);
        law_edits_measure_difference(a, b, i, (j - 1) as nat);
        law_edits_measure_difference(a, b, (i - 1) as nat, (j - 1) as nat);
        if edits(a, b, i, j) == 0 {
            assert(a.take(i as int) =~= a.take(i - 1).push(a[i - 1]));
            assert(b.take(j as int) =~= b.take(j - 1).push(b[j - 1]));
        }
    }
}

/// Adding, leaving out or replacing the last character takes one edit at most.
pub proof fn law_one_edit_each(a: Seq<char>, b: Seq<char>, i: nat, j: nat)
    requires
        0 < i <= a.len(),
        0 < j <= b.len(),
    ensures
        edits(a, b, i, j) <= edits(a, b, (i - 1) as nat, j) + 1,
        edits(a, b, i, j) <= edits(a, b, i, (j - 1) as nat) + 1,
        edits(a, b, i, j) <= edits(a, b, (i - 1) as nat, (j - 1) as nat) + 1,
        a[i - 1] == b[j - 1] ==> edits(a, b, i, j) <= edits(a, b, (i - 1) as nat, (j - 1) as nat),
        edits(a, b, i, j) == edits(a, b, (i - 1) as nat, j) + 1 || edits(a, b, i, j) == edits(
            a,
            b,
            i,
            (j - 1) as nat,
        ) + 1 || (edits(a, b, i, j) == edits(a, b, (i - 1) as nat, (j - 1) as nat) + if a[i - 1]
            == b[j - 1] {
            0nat
        } else {
            1
        }),
{
}

// ---------------------------------------------------------------------------
// Scores

/// Which names are close to a name, and how close: the name itself, the name but for
/// the case, one that ends the other, one with few edits, and one that holds the other.
pub proof fn law_scores_of_names(needle: Seq<char>, cand: Seq<char>)
    ensures
        ({
            let n = lowered(needle);
            let c = lowered(cand);
            let (nl, cl) = (blen(n), blen(c));
            let gap = if nl > cl {
                nl - cl
            } else {
                cl - nl
            };
            let leaf = blen(cand) >= 3 && exists|i: int|
                0 <= i < cand.len() && (('a' <= #[trigger] cand[i] && cand[i] <= 'z') || ('A'
                    <= cand[i] && cand[i] <= 'Z'));
            let near = (cl >= nl || cl >= 4) && nl > 0 && cl > 0 && nl <= 2 * cl && cl <= 2 * nl;
            let tail = near && (ends(c, n) || ends(n, c));
            let part = near && (holds(c, n) || (nl >= 4 && holds(n, c)));
            let e = edits(n, c, n.len(), c.len());
            let typo = nl <= 40 && 4 <= cl && cl <= 40 && gap <= 2 && alike(n, c) && e <= 2;
            &&& !leaf ==> score(needle, cand) is None
            &&& leaf ==> (score(needle, cand) == Some(0nat) <==> needle == cand)
            &&& leaf && needle != cand ==> (score(needle, cand) == Some(1nat) <==> n == c)
            &&& leaf && n != c && tail ==> score(needle, cand) == Some((10 + gap) as nat)
            &&& leaf && n != c && !tail && part ==> score(needle, cand) == Some((40 + gap) as nat)
            &&& leaf && n != c && !tail && !part && typo ==> score(needle, cand) == Some(20 + e)
            &&& n != c && !tail && !part && !typo ==> score(needle, cand) is None
        }),
{
    let n = lowered(needle);
    let c = lowered(cand);
    assert(ident_leaf(cand) <==> blen(cand) >= 3 && exists|i: int|
        0 <= i < cand.len() && (('a' <= #[trigger] cand[i] && cand[i] <= 'z') || ('A' <= cand[i]
            && cand[i] <= 'Z'))) by {
        if exists|i: int| 0 <= i < cand.len() && crate::symbol_resolve::letter(#[trigger] cand[i]) {
            let i = choose|i: int|
                0 <= i < cand.len() && crate::symbol_resolve::letter(#[trigger] cand[i]);
            assert(('a' <= cand[i] && cand[i] <= 'z') || ('A' <= cand[i] && cand[i] <= 'Z'));
        }
        if exists|i: int|
            0 <= i < cand.len() && (('a' <= #[trigger] cand[i] && cand[i] <= 'z') || ('A' <= cand[i]
                && cand[i] <= 'Z')) {
            let i = choose|i: int|
                0 <= i < cand.len() && (('a' <= #[trigger] cand[i] && cand[i] <= 'z') || ('A'
                    <= cand[i] && cand[i] <= 'Z'));
            assert(crate::symbol_resolve::letter(cand[i]));
        }
    }
}

// ---------------------------------------------------------------------------
// Suggestions

proof fn lemma_scored(names: Seq<Seq<char>>, needle: Seq<char>, n: nat, x: (nat, Seq<char>))
    requires
        n <= names.len(),
    ensures
        scored_upto(names, needle, n).contains(x) <==> score(needle, x.1) == Some(x.0) && exists|
            i: int,
        |
            0 <= i < n && segment(#[trigger] names[i]) == x.1,
    decreases n,
{
    if n > 0 {
        let m = (n - 1) as nat;
        lemma_scored(names, needle, m, x);
        let s = segment(names[n - 1]);
        if let Some(k) = score(needle, s) {
            lemma_contains_push(scored_upto(names, needle, m), (k, s), x);
        }
        if scored_upto(names, needle, m).contains(x) {
            let i = choose|i: int| 0 <= i < m && segment(#[trigger] names[i]) == x.1;
            assert(segment(names[i]) == x.1);
        }
    }
}

proof fn lemma_runs(v: Seq<(nat, Seq<char>)>, n: nat, t: Seq<char>)
    requires
        n <= v.len(),
    ensures
        run_names(v, n).contains(t) <==> exists|i: int| 0 <= i < n && (#[trigger] v[i]).1 == t,
        n > 0 ==> run_names(v, n).len() > 0 && run_names(v, n).last() == v[n - 1].1,
        run_names(v, n).len() <= n,
    decreases n,
{
    if n > 0 {
        let m = (n - 1) as nat;
        lemma_runs(v, m, t);
        let rest = run_names(v, m);
        lemma_contains_push(rest, v[n - 1].1, t);
        if rest.contains(t) {
            let i = choose|i: int| 0 <= i < m && (#[trigger] v[i]).1 == t;
            assert(v[i].1 == t);
        }
        if rest.len() > 0 && rest.last() == v[n - 1].1 {
            assert(rest[rest.len() - 1] == v[n - 1].1);
        }
    }
}

/// A name is suggested exactly where it is the last segment of a known name and close
/// to what was asked for, as long as there is room for all.
pub proof fn law_close_names_are_suggested(
    names: Seq<Seq<char>>,
    symbol: Seq<char>,
    max: nat,
    t: Seq<char>,
)
    requires
        normalized(symbol).len() > 0,
        max >= run_names(
            ranked(scored_upto(distinct(names), normalized(symbol), distinct(names).len())),
            scored_upto(distinct(names), normalized(symbol), distinct(names).len()).len(),
        ).len(),
        max > 0,
    ensures
        suggested(names, symbol, max).contains(t) <==> score(normalized(symbol), t) is Some
            && exists|i: int| 0 <= i < names.len() && segment(#[trigger] names[i]) == t,
{
    let needle = normalized(symbol);
    let all = distinct(names);
    let w = scored_upto(all, needle, all.len());
    let v = ranked(w);
    assert(positioned(score_keys(w)));
    lemma_arranged_items(w, score_keys(w));
    lemma_runs(v, v.len(), t);
    assert(suggested(names, symbol, max) == run_names(v, v.len()));
    if suggested(names, symbol, max).contains(t) {
        let i = choose|i: int| 0 <= i < v.len() && (#[trigger] v[i]).1 == t;
        assert(v.contains(v[i]));
        lemma_scored(all, needle, all.len(), v[i]);
        let k = choose|k: int| 0 <= k < all.len() && segment(#[trigger] all[k]) == t;
        assert(all.contains(all[k]));
        law_distinct_names(names, all[k]);
        let j = choose|j: int| 0 <= j < names.len() && names[j] == all[k];
        assert(segment(names[j]) == t);
    }
    if score(needle, t) is Some && exists|i: int|
        0 <= i < names.len() && segment(#[trigger] names[i]) == t {
        let i = choose|i: int| 0 <= i < names.len() && segment(#[trigger] names[i]) == t;
        law_distinct_names(names, names[i]);
        assert(names.contains(names[i]));
        let k = choose|k: int| 0 <= k < all.len() && all[k] == names[i];
        assert(segment(all[k]) == t);
        let x = (score(needle, t)->Some_0, t);
        lemma_scored(all, needle, all.len(), x);
        assert(v.contains(x));
        let j = choose|j: int| 0 <= j < v.len() && v[j] == x;
        assert(v[j].1 == t);
    }
}

/// With less room the first of the suggestions are left.
pub proof fn law_fewer_suggestions_are_the_first(
    names: Seq<Seq<char>>,
    symbol: Seq<char>,
    few: nat,
    many: nat,
)
    requires
        few <= many,
    ensures
        suggested(names, symbol, many).len() <= few ==> suggested(names, symbol, few) == suggested(
            names,
            symbol,
            many,
        ),
        suggested(names, symbol, many).len() > few ==> suggested(names, symbol, few) == suggested(
            names,
            symbol,
            many,
        ).take(few as int),
{
    let a = suggested(names, symbol, few);
    let b = suggested(names, symbol, many);
    if b.len() <= few {
        assert(a =~= b);
    } else {
        assert(a =~= b.take(few as int));
    }
}

proof fn lemma_runs_ascend(v: Seq<(nat, Seq<char>)>, needle: Seq<char>, n: nat)
    requires
        n <= v.len(),
        forall|i: int, j: int| 0 <= i < j < v.len() ==> (#[trigger] v[i]).0 <= (#[trigger] v[j]).0,
        forall|i: int| 0 <= i < v.len() ==> score(needle, (#[trigger] v[i]).1) == Some(v[i].0),
    ensures
        forall|i: int|
            0 <= i < run_names(v, n).len() ==> score(needle, #[trigger] run_names(v, n)[i]) is Some,
        forall|i: int|
            n > 0 && 0 <= i < run_names(v, n).len() ==> score(needle, #[trigger] run_names(v, n)[i])->Some_0
                <= v[n - 1].0,
        forall|i: int, j: int|
            0 <= i < j < run_names(v, n).len() ==> score(
                needle,
                #[trigger] run_names(v, n)[i],
            )->Some_0 <= score(needle, #[trigger] run_names(v, n)[j])->Some_0,
    decreases n,
{
    if n > 0 {
        let m = (n - 1) as nat;
        lemma_runs_ascend(v, needle, m);
        let rest = run_names(v, m);
        let q = run_names(v, n);
        assert(score(needle, v[n - 1].1) == Some(v[n - 1].0));
        if m > 0 {
            assert(v[m - 1].0 <= v[n - 1].0);
        }
        assert forall|i: int| 0 <= i < q.len() implies score(needle, #[trigger] q[i]) is Some
            && score(needle, q[i])->Some_0 <= v[n - 1].0 by {
            if i < rest.len() {
                assert(q[i] == rest[i]);
            }
        }
        assert forall|i: int, j: int| 0 <= i < j < q.len() implies score(
            needle,
            #[trigger] q[i],
        )->Some_0 <= score(needle, #[trigger] q[j])->Some_0 by {
            assert(q[i] == rest[i]);
            if j < rest.len() {
                assert(q[j] == rest[j]);
            }
        }
    }
}

/// The closest names are suggested first.
pub proof fn law_closest_names_come_first(
    names: Seq<Seq<char>>,
    symbol: Seq<char>,
    max: nat,
    i: int,
    j: int,
)
    requires
        0 <= i < j < suggested(names, symbol, max).len(),
        blen(lowered(normalized(symbol))) + 40 <= u64::MAX,
    ensures
        score(normalized(symbol), suggested(names, symbol, max)[i])->Some_0 <= score(
            normalized(symbol),
            suggested(names, symbol, max)[j],
        )->Some_0,
{
    let needle = normalized(symbol);
    let all = distinct(names);
    let w = scored_upto(all, needle, all.len());
    let keys = score_keys(w);
    let v = ranked(w);
    assert(positioned(keys));
    lemma_arranged_items(w, keys);
    lemma_sort_order(keys);
    assert forall|a: int| 0 <= a < v.len() implies score(needle, (#[trigger] v[a]).1) == Some(
        v[a].0,
    ) by {
        assert(v.contains(v[a]));
        lemma_scored(all, needle, all.len(), v[a]);
    }
    assert forall|a: int, b: int| 0 <= a < b < v.len() implies (#[trigger] v[a]).0 <= (
    #[trigger] v[b]).0 by {
        let p = sort_order(keys)[a];
        let q = sort_order(keys)[b];
        assert(v[a] == w[p] && v[b] == w[q]);
        assert(!key_lt(keys[q], keys[p]));
        assert(score(needle, v[a].1) == Some(v[a].0));
        assert(score(needle, v[b].1) == Some(v[b].0));
    }
    lemma_runs_ascend(v, needle, v.len());
    let all_names = run_names(v, v.len());
    let s = suggested(names, symbol, max);
    assert(s[i] == all_names[i] && s[j] == all_names[j]);
}

/// A hint names the suggestions, five at most, and the first other profile.
pub proof fn law_hint_names_suggestions(
    names: Seq<Seq<char>>,
    symbol: Seq<char>,
    profiles: Seq<Seq<char>>,
)
    ensures
        ({
            let s = suggested(names, symbol, 5);
            let h = hint_of(names, symbol, profiles);
            &&& s.len() == 0 ==> h.len() == 0
            &&& s.len() > 0 && profiles.len() == 0 ==> h == "\ndid you mean: "@ + joined(s, ", "@)
                + "?"@
            &&& s.len() > 0 && profiles.len() > 0 ==> h == "\ndid you mean: "@ + joined(s, ", "@)
                + "?"@ + (" (or pass profile:\""@ + profiles[0] + "\")"@)
        }),
{
    reveal_strlit("");
    let t = "\ndid you mean: "@ + joined(suggested(names, symbol, 5), ", "@) + "?"@;
    assert(t + ""@ =~= t);
}

// ---------------------------------------------------------------------------
// Other profiles

/// Whether a definition was found under another profile that reaches beyond the paths
/// at hand, and how it is shown.
pub open spec fn found_elsewhere(
    e: ElsewhereView,
    current: Seq<Seq<char>>,
    row: Seq<char>,
) -> bool {
    &&& e.paths matches Some(p) && exists|i: int|
        0 <= i < p.len() && !current.contains(#[trigger] p[i])
    &&& e.found matches Some(d) && row == "  profile:\""@ + e.name + "\"  "@ + d.rel + ":"@ + dec(
        d.line,
    ) + "  ("@ + d.kind.text() + ")\n"@
}

proof fn lemma_hit_row(e: ElsewhereView, current: Seq<Seq<char>>, row: Seq<char>)
    ensures
        hit_row(e, current) == Some(row) <==> found_elsewhere(e, current, row),
{
    if let Some(p) = e.paths {
        if crate::symbol_resolve::within_paths(p, current) {
            assert forall|i: int| 0 <= i < p.len() implies current.contains(#[trigger] p[i]) by {
                assert(among(current, p[i]));
            }
        } else {
            let i = choose|i: int| 0 <= i < p.len() && !among(current, #[trigger] p[i]);
            assert(!current.contains(p[i]));
        }
    }
}

/// Whether a row is that of one of some profiles.
pub open spec fn row_among(v: Seq<ElsewhereView>, current: Seq<Seq<char>>, row: Seq<char>) -> bool {
    exists|i: int| 0 <= i < v.len() && found_elsewhere(#[trigger] v[i], current, row)
}

proof fn lemma_hits(
    v: Seq<ElsewhereView>,
    current: Seq<Seq<char>>,
    skip: Option<Seq<char>>,
    rows: Seq<Seq<char>>,
    k: int,
)
    requires
        0 <= k <= v.len(),
        rows.len() <= 3,
        forall|i: int| 0 <= i < rows.len() ==> row_among(v, current, #[trigger] rows[i]),
    ensures
        ({
            let r = hits_upto(v, current, skip, rows, k);
            &&& rows.len() <= r.len() <= 3
            &&& r.take(rows.len() as int) == rows
            &&& forall|i: int| 0 <= i < r.len() ==> row_among(v, current, #[trigger] r[i])
            &&& r.len() < 3 && skip is None ==> forall|i: int, row: Seq<char>|
                k <= i < v.len() && #[trigger] found_elsewhere(v[i], current, row) ==> r.contains(
                    row,
                )
        }),
    decreases v.len() - k,
{
    let r = hits_upto(v, current, skip, rows, k);
    if k >= v.len() || rows.len() >= 3 {
        assert(rows.take(rows.len() as int) =~= rows);
    } else if skip == Some(v[k].name) && first_named(v, v[k].name, 0) == Some(k) {
        lemma_hits(v, current, skip, rows, k + 1);
    } else {
        match hit_row(v[k], current) {
            Some(x) => {
                lemma_hit_row(v[k], current, x);
                let more = rows.push(x);
                assert forall|i: int| 0 <= i < more.len() implies row_among(
                    v,
                    current,
                    #[trigger] more[i],
                ) by {
                    if i < rows.len() {
                        assert(more[i] == rows[i]);
                    } else {
                        assert(found_elsewhere(v[k], current, x));
                    }
                }
                lemma_hits(v, current, skip, more, k + 1);
                assert(r.take(rows.len() as int) =~= r.take(more.len() as int).take(
                    rows.len() as int,
                ));
                assert(more.take(rows.len() as int) =~= rows);
                assert(r[rows.len() as int] == r.take(more.len() as int)[rows.len() as int]);
                assert(r.contains(x));
                assert forall|i: int, row: Seq<char>|
                    r.len() < 3 && skip is None && k <= i < v.len() && #[trigger] found_elsewhere(
                        v[i],
                        current,
                        row,
                    ) implies r.contains(row) by {
                    if i == k {
                        lemma_hit_row(v[k], current, row);
                    }
                }
            },
            None => {
                lemma_hits(v, current, skip, rows, k + 1);
                assert forall|i: int, row: Seq<char>|
                    r.len() < 3 && skip is None && k <= i < v.len() && #[trigger] found_elsewhere(
                        v[i],
                        current,
                        row,
                    ) implies r.contains(row) by {
                    if i == k {
                        lemma_hit_row(v[k], current, row);
                    }
                }
            },
        }
    }
}

proof fn lemma_first_named(v: Seq<ElsewhereView>, name: Seq<char>, k: int)
    requires
        0 <= k <= v.len(),
    ensures
        match first_named(v, name, k) {
            Some(i) => k <= i < v.len() && v[i].name == name && forall|j: int|
                k <= j < i ==> (#[trigger] v[j]).name != name,
            None => forall|j: int| k <= j < v.len() ==> (#[trigger] v[j]).name != name,
        },
    decreases v.len() - k,
{
    if k < v.len() && v[k].name != name {
        lemma_first_named(v, name, k + 1);
    }
}

/// Under other profiles three definitions are shown at most, each of them found there;
/// the one of the profile that a hint names comes first; and where there are fewer than
/// three and no hint, none is missing.
pub proof fn law_definitions_elsewhere(
    v: Seq<ElsewhereView>,
    current: Seq<Seq<char>>,
    hint: Option<Seq<char>>,
)
    ensures
        ({
            let r = profile_hits(v, current, hint);
            &&& r.len() <= 3
            &&& forall|i: int| 0 <= i < r.len() ==> row_among(v, current, #[trigger] r[i])
            &&& forall|k: int, row: Seq<char>|
                0 <= k < v.len() && hint == Some(v[k].name) && (forall|j: int|
                    0 <= j < k ==> (#[trigger] v[j]).name != v[k].name)
                    && #[trigger] found_elsewhere(v[k], current, row) ==> r.len() > 0 && r[0] == row
            &&& hint is None && r.len() < 3 ==> forall|i: int, row: Seq<char>|
                0 <= i < v.len() && #[trigger] found_elsewhere(v[i], current, row) ==> r.contains(
                    row,
                )
        }),
{
    let none = Seq::<Seq<char>>::empty();
    lemma_hits(v, current, None, none, 0);
    lemma_hits(v, current, hint, none, 0);
    if let Some(h) = hint {
        lemma_first_named(v, h, 0);
        if let Some(k) = first_named(v, h, 0) {
            if let Some(x) = hit_row(v[k], current) {
                lemma_hit_row(v[k], current, x);
                assert(found_elsewhere(v[k], current, x));
                let one = seq![x];
                assert forall|i: int| 0 <= i < one.len() implies row_among(
                    v,
                    current,
                    #[trigger] one[i],
                ) by {}
                lemma_hits(v, current, hint, one, 0);
                let r = profile_hits(v, current, hint);
                assert(r.take(1)[0] == one[0]);
            }
        }
        assert forall|k: int, row: Seq<char>|
            0 <= k < v.len() && hint == Some(v[k].name) && (forall|j: int|
                0 <= j < k ==> (#[trigger] v[j]).name != v[k].name) && #[trigger] found_elsewhere(
                v[k],
                current,
                row,
            ) implies profile_hits(v, current, hint).len() > 0 && profile_hits(v, current, hint)[0]
            == row by {
            lemma_hit_row(v[k], current, row);
            let f = first_named(v, h, 0)->Some_0;
            if f < k {
                assert(v[f].name != v[k].name);
            }
            if k < f {
                assert(v[k].name != h);
            }
        }
    }
}

// ---------------------------------------------------------------------------
// The answer

proof fn lemma_name_rows(v: Seq<Seq<char>>, n: nat)
    requires
        n <= v.len(),
    ensures
        name_rows(v, n) == flat(Seq::new(n, |i: int| "  "@ + v[i] + "\n"@)),
    decreases n,
{
    let rows = Seq::new(n, |i: int| "  "@ + v[i] + "\n"@);
    reveal_strlit("");
    if n > 0 {
        let m = (n - 1) as nat;
        lemma_name_rows(v, m);
        let before = Seq::new(m, |i: int| "  "@ + v[i] + "\n"@);
        lemma_flat_push(before, rows[n - 1]);
        assert(rows =~= before.push(rows[n - 1]));
        assert(name_rows(v, m) + "  "@ + v[n - 1] + "\n"@ =~= name_rows(v, m) + ("  "@ + v[n - 1]
            + "\n"@));
    } else {
        assert(rows =~= Seq::<Seq<char>>::empty());
    }
}

/// A name that is defined is shown with its place and signature.
pub proof fn law_definition_is_shown(
    w: WantedView,
    d: crate::symbol_def::InfoView,
    paths: Seq<Seq<char>>,
    others: Seq<ElsewhereView>,
    hint: Option<Seq<char>>,
    names: Seq<Seq<char>>,
)
    ensures
        resolved(w, Some(d), paths, others, hint, names) == "symbol_resolve - \""@ + w.raw
            + "\" → \""@ + w.symbol + "\"\n  "@ + d.rel + ":"@ + dec(d.line) + "  ("@
            + d.kind.text() + ")\n  "@ + d.signature + "\n"@,
{
}

/// What is said of a name that is not defined: what was found under other profiles,
/// unless paths or a profile were given, else the suggestions.
pub proof fn law_missing_definition_is_told(
    w: WantedView,
    paths: Seq<Seq<char>>,
    others: Seq<ElsewhereView>,
    hint: Option<Seq<char>>,
    names: Seq<Seq<char>>,
)
    ensures
        ({
            let text = resolved(w, None, paths, others, hint, names);
            let head = "symbol_resolve - \""@ + w.raw + "\" → \""@ + w.symbol
                + "\": no definition under "@ + listed(paths) + "\n"@;
            let hits = profile_hits(others, paths, hint);
            let s = suggested(names, w.symbol, w.max as nat);
            &&& starts(text, head)
            &&& !w.scoped && hits.len() > 0 ==> text == head + (
            "\nfound under other profile(s):\n"@ + joined(hits, ""@)
                + "\nRe-run with that profile, or broaden paths.\n"@)
            &&& (w.scoped || hits.len() == 0) && s.len() > 0 ==> starts(
                text,
                head + "\nsuggestions (ranked):\n"@ + flat(
                    Seq::new(s.len(), |i: int| "  "@ + s[i] + "\n"@),
                ),
            )
        }),
{
    let text = resolved(w, None, paths, others, hint, names);
    let head = "symbol_resolve - \""@ + w.raw + "\" → \""@ + w.symbol
        + "\": no definition under "@ + listed(paths) + "\n"@;
    let hits = if w.scoped {
        Seq::empty()
    } else {
        profile_hits(others, paths, hint)
    };
    let profiles = others.map_values(|e: ElsewhereView| e.name);
    let s = suggested(names, w.symbol, w.max as nat);
    if hits.len() > 0 {
        crate::laws::texts::lemma_starts_add(
            text,
            head,
            "\nfound under other profile(s):\n"@ + joined(hits, ""@)
                + "\nRe-run with that profile, or broaden paths.\n"@,
        );
    } else {
        let rest = crate::symbol_resolve::suggestion_text(w, paths, names, profiles);
        crate::laws::texts::lemma_starts_add(text, head, rest);
        if s.len() > 0 {
            lemma_name_rows(s, s.len());
            let rows = name_rows(s, s.len());
            let a = "\nsuggestions (ranked):\n"@ + rows;
            let b = hint_of(names, w.symbol, profiles);
            assert(rest == a + b + ""@);
            assert(head + rest =~= (head + "\nsuggestions (ranked):\n"@ + rows) + (b + ""@));
            crate::laws::texts::lemma_starts_add(
                text,
                head + "\nsuggestions (ranked):\n"@ + rows,
                b + ""@,
            );
        }
    }
}

} // verus!
