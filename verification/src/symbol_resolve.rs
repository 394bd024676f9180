//! Finding a symbol by a name that may be qualified, templated or misspelt.
use vstd::prelude::*;
use crate::izakaya::replay::{arranged, distinct, sort_distinct};
use crate::json::{get, number_or, str_or, string_or, u64_or, Datum, Json};
use crate::order::{key_views, positioned, sort, sort_order, Key, KeyView};
use crate::symbol_def::{seg, segment, DefInfo, InfoView};
use crate::text::{
    among, blen, contains, copy, dec, decimal, ends, ends_with, has_char, holds, is_among, is_blank, join,
    joined, list_text, listed, lower_ascii, lowered, opt_text, same, size, strip_start,
    stripped_start, strs, to_chars, trim, trimmed,
};

verus! {

// ---------------------------------------------------------------------------
// Names

/// What stands outside angle brackets among the first `n` characters, and how
/// many brackets are open behind them.
pub open spec fn outside(s: Seq<char>, n: nat) -> (Seq<char>, nat)
    decreases n,
{
    if n == 0 {
        (Seq::empty(), 0)
    } else {
        let (t, open) = outside(s, (n - 1) as nat);
        let c = s[n - 1];
        if c == '<' {
            (t, open + 1)
        } else if c == '>' && open > 0 {
            (t, (open - 1) as nat)
        } else if open == 0 {
            (t.push(c), open)
        } else {
            (t, open)
        }
    }
}

/// A name as it is looked up: without leading colons, template arguments and
/// qualification.
pub open spec fn normalized(raw: Seq<char>) -> Seq<char> {
    let a = trimmed(stripped_start(trimmed(raw), "::"@));
    let b = trimmed(outside(a, a.len()).0);
    trimmed(segment(b))
}

fn strip_template_args(s: &str) -> (r: String)
    ensures
        r@ == outside(s@, s@.len()).0,
{
    let v = to_chars(s);
    let mut out = String::new();
    let mut open: usize = 0;
    for i in 0..v.len()
        invariant
            v@ == s@,
            open <= i,
            (out@, open as nat) == outside(s@, i as nat),
    {
        assert(v@.len() == v.len());
        let c: char = v[i];
        if c == '<' {
            open = open + 1;
        } else if c == '>' && open > 0 {
            open = open - 1;
        } else if open == 0 {
            out.push(c);
        }
    }
    out
}

pub fn normalize_symbol(raw: &str) -> (r: String)
    ensures
        r@ == normalized(raw@),
{
    let t = trim(raw);
    let a = strip_start(t.as_str(), "::");
    let b = trim(a.as_str());
    let c = strip_template_args(b.as_str());
    let d = trim(c.as_str());
    let e = seg(d.as_str());
    trim(e.as_str())
}

// ---------------------------------------------------------------------------
// Closeness

/// The edits that turn the first `i` characters of `a` into the first `j` of `b`.
pub open spec fn edits(a: Seq<char>, b: Seq<char>, i: nat, j: nat) -> nat
    decreases i + j,
{
    if i == 0 {
        j
    } else if j == 0 {
        i
    } else {
        let cost: nat = if a[i - 1] == b[j - 1] {
            0
        } else {
            1
        };
        least(
            least(edits(a, b, (i - 1) as nat, j) + 1, edits(a, b, i, (j - 1) as nat) + 1),
            edits(a, b, (i - 1) as nat, (j - 1) as nat) + cost,
        )
    }
}

pub open spec fn least(x: nat, y: nat) -> nat {
    if x <= y {
        x
    } else {
        y
    }
}

proof fn lemma_edits_bound(a: Seq<char>, b: Seq<char>, i: nat, j: nat)
    ensures
        edits(a, b, i, j) <= i + j,
    decreases i + j,
{
    if i > 0 && j > 0 {
        lemma_edits_bound(a, b, (i - 1) as nat, j);
        lemma_edits_bound(a, b, i, (j - 1) as nat);
        lemma_edits_bound(a, b, (i - 1) as nat, (j - 1) as nat);
    }
}

/// One row of the table of edits, from the row before it.
fn next_row(a: &Vec<char>, b: &Vec<char>, i: usize, prev: &Vec<usize>) -> (r: Vec<usize>)
    requires
        0 < i <= a@.len(),
        a@.len() + b@.len() < usize::MAX,
        prev@.len() == b@.len() + 1,
        forall|j: int|
            0 <= j <= b@.len() ==> #[trigger] prev@[j] == edits(a@, b@, (i - 1) as nat, j as nat),
    ensures
        r@.len() == b@.len() + 1,
        forall|j: int| 0 <= j <= b@.len() ==> #[trigger] r@[j] == edits(a@, b@, i as nat, j as nat),
{
    let mut cur: Vec<usize> = Vec::new();
    cur.push(i);
    let mut j: usize = 1;
    while j <= b.len()
        invariant
            0 < i <= a@.len(),
            a@.len() + b@.len() < usize::MAX,
            1 <= j <= b@.len() + 1,
            prev@.len() == b@.len() + 1,
            forall|k: int|
                0 <= k <= b@.len() ==> #[trigger] prev@[k] == edits(
                    a@,
                    b@,
                    (i - 1) as nat,
                    k as nat,
                ),
            cur@.len() == j,
            forall|k: int| 0 <= k < j ==> #[trigger] cur@[k] == edits(a@, b@, i as nat, k as nat),
        decreases b@.len() + 1 - j,
    {
        proof {
            lemma_edits_bound(a@, b@, (i - 1) as nat, j as nat);
            lemma_edits_bound(a@, b@, i as nat, (j - 1) as nat);
            lemma_edits_bound(a@, b@, (i - 1) as nat, (j - 1) as nat);
        }
        let cost: usize = if a[i - 1] == b[j - 1] {
            0
        } else {
            1
        };
        let up: usize = prev[j] + 1;
        let left: usize = cur[j - 1] + 1;
        let across: usize = prev[j - 1] + cost;
        let near: usize = if up <= left {
            up
        } else {
            left
        };
        cur.push(
            if near <= across {
                near
            } else {
                across
            },
        );
        j = j + 1;
    }
    cur
}

/// The edits that turn one text into another.
pub fn levenshtein(x: &str, y: &str) -> (r: usize)
    requires
        x@.len() + y@.len() < usize::MAX,
    ensures
        r == edits(x@, y@, x@.len(), y@.len()),
{
    let a = to_chars(x);
    let b = to_chars(y);
    let mut row: Vec<usize> = Vec::new();
    for j in 0..b.len() + 1
        invariant
            b@.len() < usize::MAX,
            row@.len() == j,
            forall|k: int| 0 <= k < j ==> #[trigger] row@[k] == edits(a@, b@, 0, k as nat),
    {
        row.push(j);
    }
    let mut i: usize = 0;
    while i < a.len()
        invariant
            i <= a@.len(),
            a@.len() + b@.len() < usize::MAX,
            row@.len() == b@.len() + 1,
            forall|k: int|
                0 <= k <= b@.len() ==> #[trigger] row@[k] == edits(a@, b@, i as nat, k as nat),
        decreases a@.len() - i,
    {
        i = i + 1;
        row = next_row(&a, &b, i, &row);
    }
    row[b.len()]
}

/// A letter of the Latin alphabet.
pub open spec fn letter(c: char) -> bool {
    ('a' <= c && c <= 'z') || ('A' <= c && c <= 'Z')
}

/// Whether a name can be suggested: it has a letter and at least three bytes.
pub open spec fn ident_leaf(s: Seq<char>) -> bool {
    blen(s) >= 3 && exists|i: int| 0 <= i < s.len() && letter(#[trigger] s[i])
}

fn is_ident_leaf(s: &str) -> (r: bool)
    ensures
        r == ident_leaf(s@),
{
    if size(s) < 3 {
        return false;
    }
    let v = to_chars(s);
    for i in 0..v.len()
        invariant
            v@ == s@,
            blen(s@) >= 3,
            forall|k: int| 0 <= k < i ==> !letter(#[trigger] s@[k]),
    {
        let c: char = v[i];
        if ('a' <= c && c <= 'z') || ('A' <= c && c <= 'Z') {
            assert(letter(s@[i as int]));
            return true;
        }
    }
    false
}

/// Whether neither length is more than twice the other.
pub open spec fn comparable(a: nat, b: nat) -> bool {
    a > 0 && b > 0 && a <= 2 * b && b <= 2 * a
}

fn length_ratio_ok(a: usize, b: usize) -> (r: bool)
    ensures
        r == comparable(a as nat, b as nat),
{
    let (lo, hi): (usize, usize) = if a <= b {
        (a, b)
    } else {
        (b, a)
    };
    lo > 0 && hi - lo <= lo
}

/// Whether a character has been seen among the first `n`.
pub open spec fn seen(s: Seq<char>, c: char, n: nat) -> bool {
    exists|k: int| 0 <= k < n && #[trigger] s[k] == c
}

/// How many different characters the first `n` of `a` share with `b`.
pub open spec fn shared(a: Seq<char>, b: Seq<char>, n: nat) -> nat
    decreases n,
{
    if n == 0 {
        0
    } else {
        shared(a, b, (n - 1) as nat) + if !seen(a, a[n - 1], (n - 1) as nat) && seen(
            b,
            a[n - 1],
            b.len(),
        ) {
            1nat
        } else {
            0
        }
    }
}

/// Whether two texts start with the same three characters, or share half as many
/// different characters as the longer one has bytes.
pub open spec fn alike(a: Seq<char>, b: Seq<char>) -> bool {
    let longer = if blen(a) >= blen(b) {
        blen(a)
    } else {
        blen(b)
    };
    (a.len() >= 3 && b.len() >= 3 && a.take(3) == b.take(3)) || shared(a, b, a.len()) * 2 >= (
    if longer == 0 {
        1
    } else {
        longer
    })
}

fn has_seen(v: &Vec<char>, c: char, n: usize) -> (r: bool)
    requires
        n <= v@.len(),
    ensures
        r == seen(v@, c, n as nat),
{
    for i in 0..n
        invariant
            n <= v@.len(),
            forall|k: int| 0 <= k < i ==> #[trigger] v@[k] != c,
    {
        if v[i] == c {
            return true;
        }
    }
    false
}

fn shares_prefix_or_overlap(x: &str, y: &str) -> (r: bool)
    ensures
        r == alike(x@, y@),
{
    let a = to_chars(x);
    let b = to_chars(y);
    if a.len() >= 3 && b.len() >= 3 && a[0] == b[0] && a[1] == b[1] && a[2] == b[2] {
        assert(x@.take(3) =~= y@.take(3));
        return true;
    }
    proof {
        if x@.len() >= 3 && y@.len() >= 3 && x@.take(3) == y@.take(3) {
            assert(x@.take(3)[0] == y@.take(3)[0]);
            assert(x@.take(3)[1] == y@.take(3)[1]);
            assert(x@.take(3)[2] == y@.take(3)[2]);
        }
    }
    let mut n: usize = 0;
    for i in 0..a.len()
        invariant
            a@ == x@,
            b@ == y@,
            n <= i,
            n == shared(x@, y@, i as nat),
    {
        assert(a@.len() == a.len());
        if !has_seen(&a, a[i], i) && has_seen(&b, a[i], b.len()) {
            n = n + 1;
        }
    }
    let la: usize = size(x);
    let lb: usize = size(y);
    let longer: usize = if la >= lb {
        la
    } else {
        lb
    };
    let longer: usize = if longer == 0 {
        1
    } else {
        longer
    };
    n >= longer || n >= longer - n
}

pub open spec fn apart(a: nat, b: nat) -> nat {
    if a >= b {
        (a - b) as nat
    } else {
        (b - a) as nat
    }
}

/// How far a name is from what was asked for; lower is closer. `None` where the
/// name is no candidate.
pub open spec fn score(needle: Seq<char>, cand: Seq<char>) -> Option<nat> {
    let n = lowered(needle);
    let c = lowered(cand);
    let gap = apart(blen(c), blen(n));
    let near = blen(c) >= least(blen(n), 4) && comparable(blen(n), blen(c));
    if !ident_leaf(cand) {
        None
    } else if needle == cand {
        Some(0)
    } else if n == c {
        Some(1)
    } else if near && (ends(c, n) || ends(n, c)) {
        Some(10 + gap)
    } else if near && (holds(c, n) || (blen(n) >= 4 && holds(n, c))) {
        Some(40 + gap)
    } else if blen(n) <= 40 && 4 <= blen(c) <= 40 && gap <= 2 && alike(n, c) && edits(
        n,
        c,
        n.len(),
        c.len(),
    ) <= 2 {
        Some(20 + edits(n, c, n.len(), c.len()))
    } else {
        None
    }
}

pub open spec fn opt_nat(n: Option<u64>) -> Option<nat> {
    match n {
        Some(k) => Some(k as nat),
        None => None,
    }
}

pub fn score_candidate(needle: &str, cand: &str) -> (r: Option<u64>)
    ensures
        opt_nat(r) == score(needle@, cand@),
{
    if !is_ident_leaf(cand) {
        return None;
    }
    if same(needle, cand) {
        return Some(0);
    }
    let n = lower_ascii(needle);
    let c = lower_ascii(cand);
    if same(n.as_str(), c.as_str()) {
        return Some(1);
    }
    let nl: usize = size(n.as_str());
    let cl: usize = size(c.as_str());
    let gap: usize = if cl >= nl {
        cl - nl
    } else {
        nl - cl
    };
    let side: usize = if nl <= 4 {
        nl
    } else {
        4
    };
    if cl >= side && length_ratio_ok(nl, cl) {
        if ends_with(c.as_str(), n.as_str()) || ends_with(n.as_str(), c.as_str()) {
            return Some(10 + gap as u64);
        }
        if contains(c.as_str(), n.as_str()) || (nl >= 4 && contains(n.as_str(), c.as_str())) {
            return Some(40 + gap as u64);
        }
    }
    if nl <= 40 && cl >= 4 && cl <= 40 && gap <= 2 && shares_prefix_or_overlap(
        n.as_str(),
        c.as_str(),
    ) {
        proof {
            crate::text::lemma_blen_take(n@, n@.len() as int);
            crate::text::lemma_blen_take(c@, c@.len() as int);
            assert(n@.take(n@.len() as int) =~= n@);
            assert(c@.take(c@.len() as int) =~= c@);
        }
        let d: usize = levenshtein(n.as_str(), c.as_str());
        if d <= 2 {
            return Some(20 + d as u64);
        }
    }
    None
}

// ---------------------------------------------------------------------------
// Suggestions

/// The last segments of the candidates among the first `n` names, with their scores.
pub open spec fn scored_upto(names: Seq<Seq<char>>, needle: Seq<char>, n: nat) -> Seq<
    (nat, Seq<char>),
>
    decreases n,
{
    if n == 0 {
        Seq::empty()
    } else {
        let rest = scored_upto(names, needle, (n - 1) as nat);
        match score(needle, segment(names[n - 1])) {
            Some(k) => rest.push((k, segment(names[n - 1]))),
            None => rest,
        }
    }
}

pub open spec fn score_keys(v: Seq<(nat, Seq<char>)>) -> Seq<KeyView> {
    Seq::new(
        v.len(),
        |i: int| KeyView { rank: v[i].0 as u64, name: v[i].1, number: 0, at: i as nat },
    )
}

/// Candidates by score and name.
pub open spec fn ranked(v: Seq<(nat, Seq<char>)>) -> Seq<(nat, Seq<char>)> {
    arranged(v, sort_order(score_keys(v)))
}

/// The names of the first `n`, without one that repeats the name before it.
pub open spec fn run_names(v: Seq<(nat, Seq<char>)>, n: nat) -> Seq<Seq<char>>
    decreases n,
{
    if n == 0 {
        Seq::empty()
    } else {
        let rest = run_names(v, (n - 1) as nat);
        if rest.len() > 0 && rest.last() == v[n - 1].1 {
            rest
        } else {
            rest.push(v[n - 1].1)
        }
    }
}

/// The closest names, at most `max`.
pub open spec fn suggested(names: Seq<Seq<char>>, symbol: Seq<char>, max: nat) -> Seq<Seq<char>> {
    let needle = normalized(symbol);
    let all = distinct(names);
    let v = ranked(scored_upto(all, needle, all.len()));
    let out = run_names(v, v.len());
    if needle.len() == 0 || max == 0 {
        Seq::empty()
    } else if out.len() > max {
        out.take(max as int)
    } else {
        out
    }
}

fn score_all(names: &Vec<String>, needle: &str) -> (r: Vec<(u64, String)>)
    ensures
        scored_views(r@) == scored_upto(strs(names@), needle@, strs(names@).len()),
{
    let ghost all = strs(names@);
    let mut out: Vec<(u64, String)> = Vec::new();
    assert(scored_views(out@) =~= Seq::<(nat, Seq<char>)>::empty());
    assert(all.len() == names@.len());
    for i in 0..names.len()
        invariant
            all == strs(names@),
            all.len() == names@.len(),
            scored_views(out@) == scored_upto(all, needle@, i as nat),
    {
        assert(all[i as int] == names@[i as int]@);
        let leaf = seg(names[i].as_str());
        if let Some(k) = score_candidate(needle, leaf.as_str()) {
            let ghost before = out@;
            let ghost lv = leaf@;
            out.push((k, leaf));
            assert(scored_views(out@) =~= scored_views(before).push((k as nat, lv)));
        }
    }
    out
}

pub open spec fn scored_views(v: Seq<(u64, String)>) -> Seq<(nat, Seq<char>)> {
    Seq::new(v.len(), |i: int| (v[i].0 as nat, v[i].1@))
}

fn rank_all(v: &Vec<(u64, String)>) -> (r: Vec<String>)
    ensures
        strs(r@) == run_names(ranked(scored_views(v@)), ranked(scored_views(v@)).len()),
{
    let ghost all = scored_views(v@);
    let mut keys: Vec<Key> = Vec::new();
    for i in 0..v.len()
        invariant
            keys@.len() == i,
            all == scored_views(v@),
            forall|k: int|
                0 <= k < i ==> (#[trigger] keys@[k])@ == (KeyView {
                    rank: all[k].0 as u64,
                    name: all[k].1,
                    number: 0,
                    at: k as nat,
                }),
    {
        keys.push(Key { rank: v[i].0, name: copy(v[i].1.as_str()), number: 0, at: i });
    }
    assert(key_views(keys@) =~= score_keys(all));
    assert(positioned(key_views(keys@)));
    let order = sort(keys);
    let ghost sorted = ranked(all);
    let mut out = crate::text::no_strings();
    for i in 0..order.len()
        invariant
            all == scored_views(v@),
            sorted == ranked(all),
            sorted.len() == order@.len(),
            forall|k: int|
                0 <= k < order@.len() ==> (#[trigger] order@[k] as int) == sort_order(
                    score_keys(all),
                )[k] && order@[k] < v@.len(),
            strs(out@) == run_names(sorted, i as nat),
    {
        let p: usize = order[i];
        assert(order@[i as int] as int == sort_order(score_keys(all))[i as int]);
        assert(sorted[i as int] == all[p as int]);
        assert(strs(out@).len() == out@.len());
        let again: bool = if out.len() > 0 {
            assert(strs(out@).last() == out@[out@.len() - 1]@);
            same(out[out.len() - 1].as_str(), v[p].1.as_str())
        } else {
            false
        };
        if !again {
            crate::izakaya::board::add_line(&mut out, copy(v[p].1.as_str()));
        }
    }
    out
}

/// The names closest to a symbol: the same but for case, then those that one ends
/// in the other, then those a few edits away, then those that one holds.
pub fn suggestions(names: &Vec<String>, symbol: &str, max: u64) -> (r: Vec<String>)
    ensures
        strs(r@) == suggested(strs(names@), symbol@, max as nat),
{
    let needle = normalize_symbol(symbol);
    if is_blank(needle.as_str()) || max == 0 {
        return crate::text::no_strings();
    }
    let all = sort_distinct(names);
    let v = score_all(&all, needle.as_str());
    let mut out = rank_all(&v);
    assert(strs(out@).len() == out@.len());
    if out.len() as u64 > max {
        let ghost before = strs(out@);
        out.truncate(max as usize);
        assert(strs(out@) =~= before.take(max as int));
    }
    out
}

/// What to say of close names: nothing where there are none.
pub open spec fn hint_of(
    names: Seq<Seq<char>>,
    symbol: Seq<char>,
    profiles: Seq<Seq<char>>,
) -> Seq<char> {
    let s = suggested(names, symbol, 5);
    if s.len() == 0 {
        ""@
    } else {
        "\ndid you mean: "@ + joined(s, ", "@) + "?"@ + (if profiles.len() == 0 {
            ""@
        } else {
            " (or pass profile:\""@ + profiles[0] + "\")"@
        })
    }
}

pub fn did_you_mean_hint(names: &Vec<String>, symbol: &str, profiles: &Vec<String>) -> (r: String)
    ensures
        r@ == hint_of(strs(names@), symbol@, strs(profiles@)),
{
    let s = suggestions(names, symbol, 5);
    assert(strs(s@).len() == s@.len());
    if s.len() == 0 {
        return copy("");
    }
    let mut t = copy("\ndid you mean: ");
    t.append(join(&s, ", ").as_str());
    t.append("?");
    assert(strs(profiles@).len() == profiles@.len());
    let mut note = copy("");
    if profiles.len() > 0 {
        assert(strs(profiles@)[0] == profiles@[0]@);
        note = copy(" (or pass profile:\"");
        note.append(profiles[0].as_str());
        note.append("\")");
    }
    t.append(note.as_str());
    t
}

// ---------------------------------------------------------------------------
// Other profiles

/// A named set of paths, and what is defined for the symbol under them.
pub struct Elsewhere {
    pub name: String,
    pub paths: Option<Vec<String>>,
    pub found: Option<DefInfo>,
}

/// The values of an [`Elsewhere`].
pub struct ElsewhereView {
    pub name: Seq<char>,
    pub paths: Option<Seq<Seq<char>>>,
    pub found: Option<InfoView>,
}

impl View for Elsewhere {
    type V = ElsewhereView;

    open spec fn view(&self) -> ElsewhereView {
        ElsewhereView {
            name: self.name@,
            paths: match self.paths {
                Some(v) => Some(strs(v@)),
                None => None,
            },
            found: match self.found {
                Some(d) => Some(d@),
                None => None,
            },
        }
    }
}

pub open spec fn elsewhere_views(v: Seq<Elsewhere>) -> Seq<ElsewhereView> {
    Seq::new(v.len(), |i: int| v[i]@)
}

/// Whether every path of a set is in another.
pub open spec fn within_paths(v: Seq<Seq<char>>, w: Seq<Seq<char>>) -> bool {
    forall|i: int| 0 <= i < v.len() ==> among(w, #[trigger] v[i])
}

pub fn is_within_paths(v: &Vec<String>, w: &Vec<String>) -> (r: bool)
    ensures
        r == within_paths(strs(v@), strs(w@)),
{
    for i in 0..v.len()
        invariant
            forall|k: int| 0 <= k < i ==> among(strs(w@), #[trigger] strs(v@)[k]),
    {
        assert(strs(v@)[i as int] == v@[i as int]@);
        if !is_among(w, v[i].as_str()) {
            return false;
        }
    }
    assert(strs(v@).len() == v@.len());
    true
}

/// The row of a definition under another profile; nothing where the profile has
/// no paths of its own or no definition.
pub open spec fn hit_row(e: ElsewhereView, current: Seq<Seq<char>>) -> Option<Seq<char>> {
    match (e.paths, e.found) {
        (Some(p), Some(d)) => if within_paths(p, current) {
            None
        } else {
            Some(
                "  profile:\""@ + e.name + "\"  "@ + d.rel + ":"@ + dec(d.line) + "  ("@
                    + d.kind.text() + ")\n"@,
            )
        },
        _ => None,
    }
}

/// The rows of the profiles from `k` on that have a definition, until three are
/// found; the one at `hint` has been looked at before the others.
pub open spec fn hits_upto(
    v: Seq<ElsewhereView>,
    current: Seq<Seq<char>>,
    skip: Option<Seq<char>>,
    rows: Seq<Seq<char>>,
    k: int,
) -> Seq<Seq<char>>
    decreases v.len() - k,
{
    if k < 0 || k >= v.len() || rows.len() >= 3 {
        rows
    } else if skip == Some(v[k].name) && first_named(v, v[k].name, 0) == Some(k) {
        hits_upto(v, current, skip, rows, k + 1)
    } else {
        match hit_row(v[k], current) {
            Some(r) => hits_upto(v, current, skip, rows.push(r), k + 1),
            None => hits_upto(v, current, skip, rows, k + 1),
        }
    }
}

pub open spec fn first_named(v: Seq<ElsewhereView>, name: Seq<char>, k: int) -> Option<int>
    decreases v.len() - k,
{
    if k < 0 || k >= v.len() {
        None
    } else if v[k].name == name {
        Some(k)
    } else {
        first_named(v, name, k + 1)
    }
}

/// The rows of the profiles that have a definition. The profile that the name
/// hints at comes first.
pub open spec fn profile_hits(
    v: Seq<ElsewhereView>,
    current: Seq<Seq<char>>,
    hint: Option<Seq<char>>,
) -> Seq<Seq<char>> {
    match hint {
        Some(h) => match first_named(v, h, 0) {
            Some(k) => match hit_row(v[k], current) {
                Some(r) => hits_upto(v, current, hint, seq![r], 0),
                None => hits_upto(v, current, hint, Seq::empty(), 0),
            },
            None => hits_upto(v, current, None, Seq::empty(), 0),
        },
        None => hits_upto(v, current, None, Seq::empty(), 0),
    }
}

fn make_hit_row(e: &Elsewhere, current: &Vec<String>) -> (r: Option<String>)
    ensures
        opt_text(r) == hit_row(e@, strs(current@)),
{
    match (&e.paths, &e.found) {
        (Some(p), Some(d)) => {
            if is_within_paths(p, current) {
                return None;
            }
            let mut t = copy("  profile:\"");
            t.append(e.name.as_str());
            t.append("\"  ");
            t.append(d.rel.as_str());
            t.append(":");
            t.append(decimal(d.line).as_str());
            t.append("  (");
            t.append(d.kind.label());
            t.append(")\n");
            Some(t)
        },
        _ => None,
    }
}

fn find_named(v: &Vec<Elsewhere>, name: &str) -> (r: Option<usize>)
    ensures
        crate::syntax::place(r) == first_named(elsewhere_views(v@), name@, 0),
        r matches Some(k) ==> k < v@.len(),
{
    for i in 0..v.len()
        invariant
            first_named(elsewhere_views(v@), name@, 0) == first_named(
                elsewhere_views(v@),
                name@,
                i as int,
            ),
    {
        assert(elsewhere_views(v@)[i as int] == v@[i as int]@);
        if same(v[i].name.as_str(), name) {
            return Some(i);
        }
    }
    None
}

proof fn lemma_first_named(v: Seq<ElsewhereView>, name: Seq<char>, k: int)
    requires
        0 <= k,
    ensures
        first_named(v, name, k) matches Some(p) ==> k <= p < v.len() && v[p].name == name,
    decreases v.len() - k,
{
    if k < v.len() && v[k].name != name {
        lemma_first_named(v, name, k + 1);
    }
}

pub fn find_profile_hits(
    v: &Vec<Elsewhere>,
    current: &Vec<String>,
    hint: &Option<String>,
) -> (r: Vec<String>)
    ensures
        strs(r@) == profile_hits(elsewhere_views(v@), strs(current@), opt_text(*hint)),
{
    let ghost all = elsewhere_views(v@);
    let ghost cur = strs(current@);
    let mut rows = crate::text::no_strings();
    let first: Option<usize> = match hint {
        Some(h) => find_named(v, h.as_str()),
        None => None,
    };
    let ghost skip: Option<Seq<char>> = if first is Some {
        opt_text(*hint)
    } else {
        None
    };
    if let Some(k) = first {
        assert(all[k as int] == v@[k as int]@);
        if let Some(r) = make_hit_row(&v[k], current) {
            let ghost rv = r@;
            crate::izakaya::board::add_line(&mut rows, r);
            assert(strs(rows@) =~= seq![rv]);
        }
    }
    let ghost want = profile_hits(all, cur, opt_text(*hint));
    assert(want == hits_upto(all, cur, skip, strs(rows@), 0));
    for i in 0..v.len()
        invariant
            all == elsewhere_views(v@),
            cur == strs(current@),
            first matches Some(f) ==> skip is Some && first_named(all, skip->Some_0, 0) == Some(
                f as int,
            ),
            first is None ==> skip is None,
            want == profile_hits(all, cur, opt_text(*hint)),
            want == hits_upto(all, cur, skip, strs(rows@), i as int),
    {
        assert(all[i as int] == v@[i as int]@);
        assert(strs(rows@).len() == rows@.len());
        if rows.len() >= 3 {
            return rows;
        }
        let done: bool = match first {
            Some(f) => f == i,
            None => false,
        };
        proof {
            if skip is Some {
                lemma_first_named(all, skip->Some_0, 0);
            }
        }
        if !done {
            if let Some(r) = make_hit_row(&v[i], current) {
                crate::izakaya::board::add_line(&mut rows, r);
            }
        }
    }
    rows
}

// ---------------------------------------------------------------------------
// The answer

/// What is asked for: the name as given, the name to look up, how many suggestions
/// to make, and whether the paths were given.
pub struct Wanted {
    pub raw: String,
    pub symbol: String,
    pub max: u64,
    pub scoped: bool,
}

/// The values of a [`Wanted`].
pub struct WantedView {
    pub raw: Seq<char>,
    pub symbol: Seq<char>,
    pub max: u64,
    pub scoped: bool,
}

impl View for Wanted {
    type V = WantedView;

    open spec fn view(&self) -> WantedView {
        WantedView {
            raw: self.raw@,
            symbol: self.symbol@,
            max: self.max,
            scoped: self.scoped,
        }
    }
}

/// What the arguments ask for; nothing where they name no symbol.
pub open spec fn wanted_of(args: Json) -> Option<WantedView> {
    let raw = trimmed(str_or(args, "symbol"@, ""@));
    let symbol = normalized(raw);
    let max = u64_or(args, "max"@, 8);
    if raw.len() == 0 || symbol.len() == 0 {
        None
    } else {
        Some(
            WantedView {
                raw,
                symbol,
                max: if max > 1 {
                    max
                } else {
                    1
                },
                scoped: get(args, "paths"@) is Some || get(args, "profile"@) is Some,
            },
        )
    }
}

pub fn read_wanted(args: &Datum) -> (r: Option<Wanted>)
    ensures
        match r {
            Some(q) => wanted_of(args@) == Some(q@),
            None => wanted_of(args@) is None,
        },
{
    let raw = trim(string_or(args, "symbol", "").as_str());
    let symbol = normalize_symbol(raw.as_str());
    if is_blank(raw.as_str()) || is_blank(symbol.as_str()) {
        return None;
    }
    let max: u64 = number_or(args, "max", 8);
    Some(
        Wanted {
            raw,
            symbol,
            max: if max > 1 {
                max
            } else {
                1
            },
            scoped: args.get("paths").is_some() || args.get("profile").is_some(),
        },
    )
}

/// The answer where the symbol is defined under the paths.
pub open spec fn hit_text(w: WantedView, d: InfoView) -> Seq<char> {
    "symbol_resolve - \""@ + w.raw + "\" → \""@ + w.symbol + "\"\n  "@ + d.rel + ":"@ + dec(d.line)
        + "  ("@ + d.kind.text() + ")\n  "@ + d.signature + "\n"@
}

/// The first `n` names, each on a row of its own.
pub open spec fn name_rows(v: Seq<Seq<char>>, n: nat) -> Seq<char>
    decreases n,
{
    if n == 0 {
        ""@
    } else {
        name_rows(v, (n - 1) as nat) + "  "@ + v[n - 1] + "\n"@
    }
}

/// What is suggested where no profile has the symbol.
pub open spec fn suggestion_text(
    w: WantedView,
    paths: Seq<Seq<char>>,
    names: Seq<Seq<char>>,
    profiles: Seq<Seq<char>>,
) -> Seq<char> {
    let s = suggested(names, w.symbol, w.max as nat);
    (if s.len() > 0 {
        "\nsuggestions (ranked):\n"@ + name_rows(s, s.len())
    } else {
        ""@
    }) + hint_of(names, w.symbol, profiles) + (if s.len() == 0 && profiles.len() > 0 {
        "\nNo close names under "@ + listed(paths) + "; try profile one of "@ + listed(profiles)
            + ".\n"@
    } else {
        ""@
    })
}

/// The answer where the symbol is not defined under the paths.
pub open spec fn miss_text(
    w: WantedView,
    paths: Seq<Seq<char>>,
    hits: Seq<Seq<char>>,
    names: Seq<Seq<char>>,
    profiles: Seq<Seq<char>>,
) -> Seq<char> {
    "symbol_resolve - \""@ + w.raw + "\" → \""@ + w.symbol + "\": no definition under "@ + listed(
        paths,
    ) + "\n"@ + (if hits.len() > 0 {
        "\nfound under other profile(s):\n"@ + joined(hits, ""@)
            + "\nRe-run with that profile, or broaden paths.\n"@
    } else {
        suggestion_text(w, paths, names, profiles)
    })
}

/// The answer: where the symbol is defined, or else what may help to find it. Other
/// profiles are looked at only where the paths were not given.
pub open spec fn resolved(
    w: WantedView,
    info: Option<InfoView>,
    paths: Seq<Seq<char>>,
    others: Seq<ElsewhereView>,
    hint: Option<Seq<char>>,
    names: Seq<Seq<char>>,
) -> Seq<char> {
    match info {
        Some(d) => hit_text(w, d),
        None => miss_text(
            w,
            paths,
            if w.scoped {
                Seq::empty()
            } else {
                profile_hits(others, paths, hint)
            },
            names,
            others.map_values(|e: ElsewhereView| e.name),
        ),
    }
}

fn make_suggestion_text(
    w: &Wanted,
    paths: &Vec<String>,
    names: &Vec<String>,
    profiles: &Vec<String>,
) -> (r: String)
    ensures
        r@ == suggestion_text(w@, strs(paths@), strs(names@), strs(profiles@)),
{
    let s = suggestions(names, w.symbol.as_str(), w.max);
    let ghost sv = strs(s@);
    assert(sv.len() == s@.len());
    let mut t = copy("");
    if s.len() > 0 {
        t = copy("\nsuggestions (ranked):\n");
        let ghost head = t@;
        assert(head + name_rows(sv, 0) =~= head) by {
            reveal_strlit("");
        }
        for i in 0..s.len()
            invariant
                sv == strs(s@),
                t@ == head + name_rows(sv, i as nat),
        {
            assert(sv[i as int] == s@[i as int]@);
            let ghost rows = name_rows(sv, i as nat);
            t.append("  ");
            t.append(s[i].as_str());
            t.append("\n");
            assert(t@ =~= head + (rows + "  "@ + sv[i as int] + "\n"@));
        }
    }
    t.append(did_you_mean_hint(names, w.symbol.as_str(), profiles).as_str());
    assert(strs(profiles@).len() == profiles@.len());
    let mut more = copy("");
    if s.len() == 0 && profiles.len() > 0 {
        more = copy("\nNo close names under ");
        more.append(list_text(paths).as_str());
        more.append("; try profile one of ");
        more.append(list_text(profiles).as_str());
        more.append(".\n");
    }
    t.append(more.as_str());
    t
}

pub fn resolve(
    w: &Wanted,
    info: &Option<DefInfo>,
    paths: &Vec<String>,
    others: &Vec<Elsewhere>,
    hint: &Option<String>,
    names: &Vec<String>,
) -> (r: String)
    ensures
        r@ == resolved(
            w@,
            match *info {
                Some(d) => Some(d@),
                None => None,
            },
            strs(paths@),
            elsewhere_views(others@),
            opt_text(*hint),
            strs(names@),
        ),
{
    let mut t = copy("symbol_resolve - \"");
    t.append(w.raw.as_str());
    t.append("\" → \"");
    t.append(w.symbol.as_str());
    if let Some(d) = info {
        t.append("\"\n  ");
        t.append(d.rel.as_str());
        t.append(":");
        t.append(decimal(d.line).as_str());
        t.append("  (");
        t.append(d.kind.label());
        t.append(")\n  ");
        t.append(d.signature.as_str());
        t.append("\n");
        return t;
    }
    t.append("\": no definition under ");
    t.append(list_text(paths).as_str());
    t.append("\n");
    let mut profiles: Vec<String> = Vec::new();
    let ghost all = elsewhere_views(others@);
    for i in 0..others.len()
        invariant
            all == elsewhere_views(others@),
            profiles@.len() == i,
            forall|k: int| 0 <= k < i ==> (#[trigger] profiles@[k])@ == all[k].name,
    {
        profiles.push(copy(others[i].name.as_str()));
    }
    assert(strs(profiles@) =~= all.map_values(|e: ElsewhereView| e.name));
    let hits: Vec<String> = if w.scoped {
        crate::text::no_strings()
    } else {
        find_profile_hits(others, paths, hint)
    };
    assert(strs(hits@).len() == hits@.len());
    if hits.len() > 0 {
        let mut m = copy("\nfound under other profile(s):\n");
        m.append(join(&hits, "").as_str());
        m.append("\nRe-run with that profile, or broaden paths.\n");
        t.append(m.as_str());
    } else {
        t.append(make_suggestion_text(w, paths, names, &profiles).as_str());
    }
    t
}

// ---------------------------------------------------------------------------
// Laws

/// No edit turns a text into itself.
pub proof fn law_no_edits_to_itself(a: Seq<char>, i: nat)
    requires
        i <= a.len(),
    ensures
        edits(a, a, i, i) == 0,
    decreases i,
{
    if i > 0 {
        law_no_edits_to_itself(a, (i - 1) as nat);
    }
}

/// As many edits lead from one text to another as lead back.
pub proof fn law_edits_are_symmetric(a: Seq<char>, b: Seq<char>, i: nat, j: nat)
    requires
        i <= a.len(),
        j <= b.len(),
    ensures
        edits(a, b, i, j) == edits(b, a, j, i),
    decreases i + j,
{
    if i > 0 && j > 0 {
        law_edits_are_symmetric(a, b, (i - 1) as nat, j);
        law_edits_are_symmetric(a, b, i, (j - 1) as nat);
        law_edits_are_symmetric(a, b, (i - 1) as nat, (j - 1) as nat);
    }
}

/// What is suggested has a letter and at least three bytes, and there are no more
/// suggestions than asked for.
pub proof fn law_suggestions_are_names(names: Seq<Seq<char>>, symbol: Seq<char>, max: nat)
    ensures
        suggested(names, symbol, max).len() <= max,
        forall|i: int|
            0 <= i < suggested(names, symbol, max).len() ==> ident_leaf(
                #[trigger] suggested(names, symbol, max)[i],
            ),
{
    let needle = normalized(symbol);
    let all = distinct(names);
    let v = scored_upto(all, needle, all.len());
    lemma_scored_leaves(all, needle, all.len());
    let keys = score_keys(v);
    crate::order::lemma_sort_order(keys);
    let w = ranked(v);
    assert forall|i: int| 0 <= i < w.len() implies ident_leaf((#[trigger] w[i]).1) by {
        assert(w[i] == v[sort_order(keys)[i]]);
    }
    lemma_run_leaves(w, w.len());
}

proof fn lemma_scored_leaves(names: Seq<Seq<char>>, needle: Seq<char>, n: nat)
    ensures
        forall|i: int|
            0 <= i < scored_upto(names, needle, n).len() ==> ident_leaf(
                (#[trigger] scored_upto(names, needle, n)[i]).1,
            ),
    decreases n,
{
    if n > 0 {
        lemma_scored_leaves(names, needle, (n - 1) as nat);
        let rest = scored_upto(names, needle, (n - 1) as nat);
        let q = scored_upto(names, needle, n);
        assert forall|i: int| 0 <= i < q.len() implies ident_leaf((#[trigger] q[i]).1) by {
            if i < rest.len() {
                assert(q[i] == rest[i]);
            }
        }
    }
}

proof fn lemma_run_leaves(v: Seq<(nat, Seq<char>)>, n: nat)
    requires
        n <= v.len(),
        forall|i: int| 0 <= i < v.len() ==> ident_leaf((#[trigger] v[i]).1),
    ensures
        forall|i: int| 0 <= i < run_names(v, n).len() ==> ident_leaf(#[trigger] run_names(v, n)[i]),
    decreases n,
{
    if n > 0 {
        lemma_run_leaves(v, (n - 1) as nat);
        let rest = run_names(v, (n - 1) as nat);
        let q = run_names(v, n);
        assert forall|i: int| 0 <= i < q.len() implies ident_leaf(#[trigger] q[i]) by {
            if i < rest.len() {
                assert(q[i] == rest[i]);
            } else {
                assert(ident_leaf(v[n - 1].1));
            }
        }
    }
}

proof fn lemma_outside(s: Seq<char>, n: nat)
    requires
        n <= s.len(),
    ensures
        !has_char(outside(s, n).0, '<'),
        !has_char(s, '<') ==> outside(s, n) == (s.take(n as int), 0nat),
    decreases n,
{
    if n > 0 {
        lemma_outside(s, (n - 1) as nat);
        let t = outside(s, (n - 1) as nat).0;
        let c = s[n - 1];
        assert forall|i: int| 0 <= i < outside(s, n).0.len() implies outside(s, n).0[i] != '<' by {
            if i < t.len() {
                assert(t[i] != '<');
            }
        }
        if !has_char(s, '<') {
            assert(c != '<');
            assert(s.take(n - 1).push(c) =~= s.take(n as int));
        }
    } else {
        assert(outside(s, n).0 =~= s.take(0));
    }
}

/// No two colons follow each other.
spec fn unqualified(s: Seq<char>) -> bool {
    forall|i: int, j: int|
        0 <= i && j == i + 1 && j < s.len() ==> !(#[trigger] s[i] == ':' && #[trigger] s[j] == ':')
}

proof fn lemma_segment(s: Seq<char>, n: int)
    requires
        0 <= n <= s.len(),
        forall|i: int, j: int|
            n - 1 <= i && 0 <= i && j == i + 1 && j < s.len() ==> !(#[trigger] s[i] == ':'
                && #[trigger] s[j] == ':'),
    ensures
        unqualified(crate::symbol_def::segment_from(s, n)),
        exists|a: int|
            0 <= a <= s.len() && #[trigger] s.skip(a) == crate::symbol_def::segment_from(s, n),
        unqualified(s) ==> crate::symbol_def::segment_from(s, n) == s,
    decreases n,
{
    if n < 2 {
        assert(s.skip(0) =~= s);
        assert forall|i: int, j: int| 0 <= i && j == i + 1 && j < s.len() implies !(
        #[trigger] s[i] == ':' && #[trigger] s[j] == ':') by {}
    } else if s[n - 2] == ':' && s[n - 1] == ':' {
        let t = s.skip(n);
        assert forall|i: int, j: int| 0 <= i && j == i + 1 && j < t.len() implies !(
        #[trigger] t[i] == ':' && #[trigger] t[j] == ':') by {
            assert(t[i] == s[i + n] && t[j] == s[j + n]);
        }
    } else {
        lemma_segment(s, n - 1);
    }
}

proof fn lemma_trimmed_part(s: Seq<char>)
    ensures
        !has_char(s, '<') ==> !has_char(trimmed(s), '<'),
        unqualified(s) ==> unqualified(trimmed(s)),
        trimmed(trimmed(s)) == trimmed(s),
{
    let p = crate::text::is_space();
    crate::text::lemma_trim_shape(s, p);
    let t = trimmed(s);
    let a = choose|a: int| 0 <= a && a + t.len() <= s.len() && t == #[trigger] s.subrange(
        a,
        a + t.len(),
    );
    assert forall|i: int| 0 <= i < t.len() implies t[i] == s[a + i] by {}
    if unqualified(s) {
        assert forall|i: int, j: int| 0 <= i && j == i + 1 && j < t.len() implies !(
        #[trigger] t[i] == ':' && #[trigger] t[j] == ':') by {
            assert(t[i] == s[a + i] && t[j] == s[a + j]);
        }
    }
    lemma_trimmed_tight(t);
}

/// A text without white space around it stays as it is.
proof fn lemma_trimmed_tight(t: Seq<char>)
    requires
        t.len() > 0 ==> !crate::text::white(t[0]) && !crate::text::white(t.last()),
    ensures
        trimmed(t) == t,
{
    let p = crate::text::is_space();
    crate::text::lemma_trim_start_at(t, p, 0);
    assert(t.skip(0) =~= t);
    crate::text::lemma_trim_end_at(t, p, t.len() as int);
    assert(t.take(t.len() as int) =~= t);
}

/// A name that is normalized has no qualifier, no template arguments and no white
/// space around it, and normalizing it again changes nothing.
pub proof fn law_normalized_twice(raw: Seq<char>)
    ensures
        !holds(normalized(raw), "::"@),
        !has_char(normalized(raw), '<'),
        trimmed(normalized(raw)) == normalized(raw),
        normalized(normalized(raw)) == normalized(raw),
{
    reveal_strlit("::");
    let a = trimmed(stripped_start(trimmed(raw), "::"@));
    let o = outside(a, a.len()).0;
    let b = trimmed(o);
    let s = segment(b);
    let n = trimmed(s);
    lemma_outside(a, a.len());
    lemma_trimmed_part(o);
    lemma_segment(b, b.len() as int);
    let k = choose|k: int| 0 <= k <= b.len() && #[trigger] b.skip(k) == s;
    assert forall|i: int| 0 <= i < s.len() implies s[i] != '<' by {
        assert(s[i] == b[i + k]);
    }
    lemma_trimmed_part(s);
    crate::text::lemma_find_from(n, "::"@, 0);
    if holds(n, "::"@) {
        let i = crate::text::find_from(n, "::"@, 0)->0;
        assert(n.subrange(i, i + 2) == "::"@);
        assert(n.subrange(i, i + 2)[0] == n[i] && n.subrange(i, i + 2)[1] == n[i + 1]);
    }
    // Normalizing once more.
    assert(!crate::text::starts(n, "::"@)) by {
        if crate::text::starts(n, "::"@) {
            assert(n.take(2)[0] == n[0] && n.take(2)[1] == n[1]);
        }
    }
    assert(stripped_start(trimmed(n), "::"@) == n);
    lemma_outside(n, n.len());
    assert(n.take(n.len() as int) =~= n);
    lemma_segment(n, n.len() as int);
}

proof fn lemma_colons(raw: Seq<char>)
    requires
        raw.len() > 0 ==> !crate::text::white(raw.last()),
    ensures
        trimmed("::"@ + raw) == "::"@ + raw,
        stripped_start("::"@ + raw, "::"@) == stripped_start(raw, "::"@),
{
    reveal_strlit("::");
    let t = "::"@ + raw;
    assert(t[0] == ':');
    assert(!crate::text::white(':'));
    if raw.len() > 0 {
        assert(t.last() == raw.last());
    } else {
        assert(t.last() == ':');
    }
    lemma_trimmed_tight(t);
    assert(t.take(2) =~= "::"@);
    assert(t.skip(2) =~= raw);
    assert(crate::text::starts(t, "::"@));
}

/// Colons before a name make no difference to how it is looked up.
pub proof fn law_leading_colons_do_not_count(raw: Seq<char>)
    requires
        trimmed(raw) == raw,
    ensures
        normalized("::"@ + raw) == normalized(raw),
{
    crate::text::lemma_trim_shape(raw, crate::text::is_space());
    let t = trimmed(raw);
    if t.len() > 0 {
        assert(!crate::text::is_space()(t.last()));
    }
    lemma_colons(raw);
}

} // verus!
