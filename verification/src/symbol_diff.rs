//! How the definition of one symbol changed against a revision.
use vstd::prelude::*;
use crate::json::{bool_or, flag_or, number_or, str_or, string_or, u64_or, Datum, Json};
use crate::lang::{path_lang, Lang};
use crate::repo_map::{Built, BuiltView};
use crate::symbol_def::{
    function_spans_from_str, names_agree, span_views, spans_of, DefInfo, InfoView, SpanView,
};
use crate::text::{
    blen, capped, copy, count_up, dec, decimal, is_blank, join, joined, lines, lines_of,
    list_text, listed, outcome, parse_u64, parsed, same, size, split_char, split_on, starts,
    starts_with, strs, trim, trimmed, words, words_of,
};

verus! {

// ---------------------------------------------------------------------------
// Hunks

/// A changed part of a file: where it lies in the new file, and its lines.
pub struct Hunk {
    pub new_start: u64,
    pub new_count: u64,
    pub lines: Vec<String>,
}

/// The values of a [`Hunk`].
pub struct HunkView {
    pub new_start: nat,
    pub new_count: nat,
    pub lines: Seq<Seq<char>>,
}

impl View for Hunk {
    type V = HunkView;

    open spec fn view(&self) -> HunkView {
        HunkView {
            new_start: self.new_start as nat,
            new_count: self.new_count as nat,
            lines: strs(self.lines@),
        }
    }
}

pub open spec fn hunk_views(v: Seq<Hunk>) -> Seq<HunkView> {
    Seq::new(v.len(), |i: int| v[i]@)
}

/// The start and the count that a hunk header gives for the new file.
pub open spec fn new_range(line: Seq<char>) -> Option<(nat, nat)> {
    let plus = split_on(line, '+');
    if plus.len() < 2 {
        None
    } else {
        let ws = words_of(plus[1]);
        if ws.len() == 0 {
            None
        } else {
            let parts = split_on(ws[0], ',');
            match parsed(parts[0], u64::MAX as nat) {
                None => None,
                Some(start) => if parts.len() < 2 {
                    Some((start, 1))
                } else {
                    match parsed(parts[1], u64::MAX as nat) {
                        None => None,
                        Some(count) => Some((start, count)),
                    }
                },
            }
        }
    }
}

pub fn hunk_new_range(line: &str) -> (r: Option<(u64, u64)>)
    ensures
        match r {
            Some(p) => new_range(line@) == Some((p.0 as nat, p.1 as nat)),
            None => new_range(line@) is None,
        },
{
    let plus = split_char(line, '+');
    assert(strs(plus@).len() == plus@.len());
    if plus.len() < 2 {
        return None;
    }
    assert(strs(plus@)[1] == plus@[1]@);
    let ws = words(plus[1].as_str());
    assert(strs(ws@).len() == ws@.len());
    if ws.len() == 0 {
        return None;
    }
    assert(strs(ws@)[0] == ws@[0]@);
    let parts = split_char(ws[0].as_str(), ',');
    assert(strs(parts@).len() == parts@.len());
    assert(strs(parts@)[0] == parts@[0]@);
    let start: u64 = match parse_u64(parts[0].as_str()) {
        Some(n) => n,
        None => {
            return None;
        },
    };
    if parts.len() < 2 {
        return Some((start, 1));
    }
    assert(strs(parts@)[1] == parts@[1]@);
    match parse_u64(parts[1].as_str()) {
        Some(n) => Some((start, n)),
        None => None,
    }
}

/// The hunks read so far, and the one that is being read.
pub struct HunkState {
    pub done: Seq<HunkView>,
    pub open: Option<HunkView>,
}

pub open spec fn closed(s: HunkState) -> Seq<HunkView> {
    match s.open {
        Some(h) => s.done.push(h),
        None => s.done,
    }
}

/// Whether a line belongs to the hunk that is being read.
pub open spec fn hunk_line(line: Seq<char>) -> bool {
    starts(line, "+"@) || starts(line, "-"@) || starts(line, " "@)
}

pub open spec fn hunks_upto(ls: Seq<Seq<char>>, n: nat) -> HunkState
    decreases n,
{
    if n == 0 {
        HunkState { done: Seq::empty(), open: None }
    } else {
        let s = hunks_upto(ls, (n - 1) as nat);
        let line = ls[n - 1];
        if starts(line, "@@"@) {
            HunkState {
                done: closed(s),
                open: match new_range(line) {
                    Some((start, count)) => Some(
                        HunkView { new_start: start, new_count: count, lines: Seq::empty() },
                    ),
                    None => None,
                },
            }
        } else {
            match s.open {
                Some(h) => if hunk_line(line) {
                    HunkState {
                        done: s.done,
                        open: Some(HunkView { lines: h.lines.push(line), ..h }),
                    }
                } else {
                    s
                },
                None => s,
            }
        }
    }
}

/// The hunks of a diff.
pub open spec fn hunks_of(diff: Seq<char>) -> Seq<HunkView> {
    closed(hunks_upto(lines_of(diff), lines_of(diff).len()))
}

pub open spec fn opt_hunk(h: Option<Hunk>) -> Option<HunkView> {
    match h {
        Some(h) => Some(h@),
        None => None,
    }
}

pub fn parse_hunks(diff: &str) -> (r: Vec<Hunk>)
    ensures
        hunk_views(r@) == hunks_of(diff@),
{
    let ls = lines(diff);
    let ghost all = lines_of(diff@);
    assert(strs(ls@).len() == ls@.len());
    let mut done: Vec<Hunk> = Vec::new();
    let mut open: Option<Hunk> = None;
    assert(hunk_views(done@) =~= Seq::<HunkView>::empty());
    for i in 0..ls.len()
        invariant
            all == strs(ls@),
            hunk_views(done@) == hunks_upto(all, i as nat).done,
            opt_hunk(open) == hunks_upto(all, i as nat).open,
    {
        assert(all[i as int] == ls@[i as int]@);
        let line = ls[i].as_str();
        if starts_with(line, "@@") {
            if let Some(h) = open {
                let ghost before = done@;
                let ghost hv = h@;
                done.push(h);
                assert(hunk_views(done@) =~= hunk_views(before).push(hv));
            }
            open = match hunk_new_range(line) {
                Some((start, count)) => {
                    let h = Hunk {
                        new_start: start,
                        new_count: count,
                        lines: crate::text::no_strings(),
                    };
                    assert(h@.lines =~= Seq::<Seq<char>>::empty());
                    Some(h)
                },
                None => None,
            };
        } else {
            open = match open {
                Some(h) => {
                    let mut h = h;
                    if starts_with(line, "+") || starts_with(line, "-") || starts_with(line, " ") {
                        crate::izakaya::board::add_line(&mut h.lines, copy(line));
                    }
                    Some(h)
                },
                None => None,
            };
        }
    }
    if let Some(h) = open {
        let ghost before = done@;
        let ghost hv = h@;
        done.push(h);
        assert(hunk_views(done@) =~= hunk_views(before).push(hv));
    }
    done
}

/// The last line of a hunk in the new file, as far as it fits.
pub open spec fn last_line(h: HunkView) -> nat {
    capped(
        if h.new_count == 0 {
            h.new_start
        } else {
            (h.new_start + h.new_count - 1) as nat
        },
    ) as nat
}

pub open spec fn lies_in(l: nat, first: nat, last: nat) -> bool {
    first <= l <= last
}

/// Whether a hunk touches a line of a span. One without lines touches the line
/// that it stands at.
pub open spec fn overlaps(h: HunkView, first: nat, last: nat) -> bool {
    if h.new_count == 0 {
        first <= (if h.new_start == 0 {
            1
        } else {
            h.new_start
        }) <= last
    } else {
        exists|l: nat|
            #[trigger] lies_in(l, h.new_start, last_line(h)) && lies_in(l, first, last)
    }
}

fn find_last_line(h: &Hunk) -> (r: u64)
    ensures
        r == last_line(h@),
{
    if h.new_count == 0 {
        h.new_start
    } else {
        count_up(h.new_start, h.new_count - 1)
    }
}

pub fn hunk_overlaps_span(h: &Hunk, first: u64, last: u64) -> (r: bool)
    ensures
        r == overlaps(h@, first as nat, last as nat),
{
    if h.new_count == 0 {
        let at: u64 = if h.new_start == 0 {
            1
        } else {
            h.new_start
        };
        return first <= at && at <= last;
    }
    let end: u64 = find_last_line(h);
    let lo: u64 = if h.new_start >= first {
        h.new_start
    } else {
        first
    };
    let hi: u64 = if end <= last {
        end
    } else {
        last
    };
    proof {
        if lo <= hi {
            let l = lo as nat;
            assert(lies_in(l, h@.new_start, last_line(h@)) && lies_in(l, first as nat, last as nat));
        }
    }
    lo <= hi
}

/// The hunks that touch a span.
pub open spec fn touching(first: nat, last: nat) -> spec_fn(HunkView) -> bool {
    |h: HunkView| overlaps(h, first, last)
}

fn keep_touching(hunks: Vec<Hunk>, first: u64, last: u64) -> (r: Vec<Hunk>)
    ensures
        hunk_views(r@) == hunk_views(hunks@).filter(touching(first as nat, last as nat)),
{
    let ghost all = hunk_views(hunks@);
    let ghost keep = touching(first as nat, last as nat);
    let mut out: Vec<Hunk> = Vec::new();
    let mut rest = hunks;
    proof {
        reveal(Seq::filter);
        assert(all.skip(all.len() as int) =~= Seq::<HunkView>::empty());
        assert(hunk_views(out@) =~= all.skip(all.len() as int).filter(keep));
    }
    assert(hunk_views(rest@) =~= all.take(all.len() as int));
    while rest.len() > 0
        invariant
            keep == touching(first as nat, last as nat),
            rest@.len() <= all.len(),
            hunk_views(rest@) == all.take(rest@.len() as int),
            hunk_views(out@) == all.skip(rest@.len() as int).filter(keep),
        decreases rest@.len(),
    {
        let ghost n = rest@.len() - 1;
        let ghost was = rest@;
        let h = rest.pop().unwrap();
        proof {
            assert(was[n]@ == all.take(n + 1)[n]);
            assert(h@ == all[n]);
            assert(hunk_views(rest@) =~= all.take(n));
            assert(all.skip(n) =~= seq![all[n]] + all.skip(n + 1));
            Seq::filter_distributes_over_add(seq![all[n]], all.skip(n + 1), keep);
            reveal(Seq::filter);
            assert(seq![all[n]].drop_last() =~= Seq::<HunkView>::empty());
            let e = Seq::<HunkView>::empty();
            assert(e.filter(keep) =~= e);
            assert(seq![all[n]].filter(keep) =~= if keep(all[n]) {
                seq![all[n]]
            } else {
                e
            });
        }
        if hunk_overlaps_span(&h, first, last) {
            let ghost before = out@;
            let ghost hv = h@;
            out.insert(0, h);
            assert(hunk_views(out@) =~= seq![hv] + hunk_views(before));
        } else {
            assert(hunk_views(out@) =~= Seq::<HunkView>::empty() + hunk_views(out@));
        }
    }
    assert(all.skip(0) =~= all);
    out
}

// ---------------------------------------------------------------------------
// The old definition

/// A signature with single spaces.
pub open spec fn plain_sig(s: Seq<char>) -> Seq<char> {
    joined(words_of(s), " "@)
}

/// Whether two signatures are the same but for white space.
pub fn body_only(old_sig: &str, new_sig: &str) -> (r: bool)
    ensures
        r == (plain_sig(old_sig@) == plain_sig(new_sig@)),
{
    let a = join(&words(old_sig), " ");
    let b = join(&words(new_sig), " ");
    same(a.as_str(), b.as_str())
}

/// The first span, from `k` on, whose name ends as the symbol does.
pub open spec fn span_from(v: Seq<SpanView>, symbol: Seq<char>, k: int) -> Option<SpanView>
    decreases v.len() - k,
{
    if k < 0 || k >= v.len() {
        None
    } else if names_agree(v[k].name, symbol) {
        Some(v[k])
    } else {
        span_from(v, symbol, k + 1)
    }
}

/// The signature and the lines of a function as an older source has it.
pub open spec fn old_definition(src: Seq<char>, lang: Lang, symbol: Seq<char>) -> Option<
    (Seq<char>, Seq<char>),
> {
    match span_from(spans_of(lang, src), symbol, 0) {
        None => None,
        Some(sp) => {
            let ls = lines_of(src);
            let start: int = if sp.start == 0 {
                0
            } else {
                sp.start - 1
            };
            let end: int = if sp.end <= ls.len() {
                sp.end as int
            } else {
                ls.len() as int
            };
            if start >= end {
                None
            } else {
                Some((sp.signature, joined(ls.subrange(start, end), "\n"@)))
            }
        },
    }
}

pub open spec fn pair_text(p: Option<(String, String)>) -> Option<(Seq<char>, Seq<char>)> {
    match p {
        Some(p) => Some((p.0@, p.1@)),
        None => None,
    }
}

pub fn old_body_for_symbol(src: &str, lang: Lang, symbol: &str) -> (r: Option<(String, String)>)
    ensures
        pair_text(r) == old_definition(src@, lang, symbol@),
{
    let spans = function_spans_from_str(lang, src);
    let ghost sv = spans_of(lang, src@);
    for k in 0..spans.len()
        invariant
            sv == span_views(spans@),
            sv == spans_of(lang, src@),
            span_from(sv, symbol@, 0) == span_from(sv, symbol@, k as int),
    {
        let sp = &spans[k];
        assert(sv[k as int] == sp@);
        if crate::symbol_def::name_matches(sp.name.as_str(), symbol) {
            let ls = lines(src);
            assert(strs(ls@).len() == ls@.len());
            let start: u64 = if sp.start == 0 {
                0
            } else {
                sp.start - 1
            };
            let end: u64 = if sp.end <= ls.len() as u64 {
                sp.end
            } else {
                ls.len() as u64
            };
            if start >= end {
                return None;
            }
            let mut part: Vec<String> = Vec::new();
            for i in start as usize..end as usize
                invariant
                    start < end <= ls@.len(),
                    part@.len() == i - start,
                    forall|m: int|
                        0 <= m < part@.len() ==> (#[trigger] part@[m])@ == ls@[start + m]@,
            {
                part.push(copy(ls[i].as_str()));
            }
            assert(strs(part@) =~= strs(ls@).subrange(start as int, end as int));
            return Some((copy(sp.signature.as_str()), join(&part, "\n")));
        }
    }
    None
}

// ---------------------------------------------------------------------------
// Rendering

/// A text with the lines from `k` on behind it, until the budget is used up.
pub open spec fn capped_from(out: Seq<char>, ls: Seq<Seq<char>>, budget: nat, k: int) -> Seq<char>
    decreases ls.len() - k,
{
    if k < 0 || k >= ls.len() {
        out
    } else if blen(out) / 4 > budget {
        out + "… (truncated by token_budget)\n"@
    } else {
        capped_from(out + ls[k] + "\n"@, ls, budget, k + 1)
    }
}

/// The same for hunk lines, and whether the budget was used up.
pub open spec fn lines_from(out: Seq<char>, ls: Seq<Seq<char>>, budget: nat, k: int) -> (
    Seq<char>,
    bool,
)
    decreases ls.len() - k,
{
    if k < 0 || k >= ls.len() {
        (out, false)
    } else if blen(out) / 4 > budget {
        (out + "… (truncated by token_budget)\n"@, true)
    } else {
        lines_from(out + ls[k] + "\n"@, ls, budget, k + 1)
    }
}

pub open spec fn hunk_head(h: HunkView) -> Seq<char> {
    "@@ lines "@ + dec(h.new_start) + "-"@ + dec(last_line(h)) + " @@\n"@
}

/// A text with the hunks from `k` on behind it.
pub open spec fn hunks_from(out: Seq<char>, hs: Seq<HunkView>, budget: nat, k: int) -> Seq<char>
    decreases hs.len() - k,
{
    if k < 0 || k >= hs.len() {
        out
    } else {
        let (t, full) = lines_from(out + hunk_head(hs[k]), hs[k].lines, budget, 0);
        if full {
            t
        } else {
            hunks_from(t + "\n"@, hs, budget, k + 1)
        }
    }
}

pub open spec fn with_hunks(out: Seq<char>, hs: Seq<HunkView>, budget: nat) -> Seq<char> {
    if hs.len() == 0 {
        out + "(diff touches the file but no hunk overlaps this symbol's span)\n"@
    } else {
        hunks_from(out, hs, budget, 0)
    }
}

fn append_capped(out: String, text: &str, budget: u64) -> (r: String)
    ensures
        r@ == capped_from(out@, lines_of(text@), budget as nat, 0),
{
    let ls = lines(text);
    let ghost all = lines_of(text@);
    let ghost want = capped_from(out@, all, budget as nat, 0);
    let mut t = out;
    assert(strs(ls@).len() == ls@.len());
    for k in 0..ls.len()
        invariant
            all == strs(ls@),
            want == capped_from(t@, all, budget as nat, k as int),
            want == capped_from(out@, lines_of(text@), budget as nat, 0),
    {
        assert(all[k as int] == ls@[k as int]@);
        if (size(t.as_str()) / 4) as u64 > budget {
            t.append("… (truncated by token_budget)\n");
            return t;
        }
        t.append(ls[k].as_str());
        t.append("\n");
    }
    t
}

fn append_lines(out: String, ls: &Vec<String>, budget: u64) -> (r: (String, bool))
    ensures
        (r.0@, r.1) == lines_from(out@, strs(ls@), budget as nat, 0),
{
    let ghost all = strs(ls@);
    let ghost want = lines_from(out@, all, budget as nat, 0);
    let mut t = out;
    assert(all.len() == ls@.len());
    for k in 0..ls.len()
        invariant
            all == strs(ls@),
            want == lines_from(t@, all, budget as nat, k as int),
            want == lines_from(out@, strs(ls@), budget as nat, 0),
    {
        assert(all[k as int] == ls@[k as int]@);
        if (size(t.as_str()) / 4) as u64 > budget {
            t.append("… (truncated by token_budget)\n");
            return (t, true);
        }
        t.append(ls[k].as_str());
        t.append("\n");
    }
    (t, false)
}

fn append_hunks(out: String, hunks: &Vec<Hunk>, budget: u64) -> (r: String)
    ensures
        r@ == with_hunks(out@, hunk_views(hunks@), budget as nat),
{
    let ghost hs = hunk_views(hunks@);
    let ghost want = with_hunks(out@, hs, budget as nat);
    let mut t = out;
    if hunks.len() == 0 {
        t.append("(diff touches the file but no hunk overlaps this symbol's span)\n");
        return t;
    }
    for k in 0..hunks.len()
        invariant
            hs == hunk_views(hunks@),
            want == hunks_from(t@, hs, budget as nat, k as int),
            want == with_hunks(out@, hunk_views(hunks@), budget as nat),
    {
        let h = &hunks[k];
        assert(hs[k as int] == h@);
        let mut head = copy("@@ lines ");
        head.append(decimal(h.new_start).as_str());
        head.append("-");
        head.append(decimal(find_last_line(h)).as_str());
        head.append(" @@\n");
        t.append(head.as_str());
        let (more, full) = append_lines(t, &h.lines, budget);
        if full {
            return more;
        }
        t = more;
        t.append("\n");
    }
    t
}

/// Where a definition lies, and against what it is held.
pub struct Place {
    pub gitref: String,
    pub name: String,
    pub rel: String,
    pub start: u64,
    pub end: u64,
}

/// The values of a [`Place`].
pub struct PlaceView {
    pub gitref: Seq<char>,
    pub name: Seq<char>,
    pub rel: Seq<char>,
    pub start: nat,
    pub end: nat,
}

impl View for Place {
    type V = PlaceView;

    open spec fn view(&self) -> PlaceView {
        PlaceView {
            gitref: self.gitref@,
            name: self.name@,
            rel: self.rel@,
            start: self.start as nat,
            end: self.end as nat,
        }
    }
}

pub open spec fn diff_head(p: PlaceView, what: Seq<char>) -> Seq<char> {
    "symbol_diff - \""@ + p.name + "\" at "@ + p.rel + ":"@ + dec(p.start) + "-"@ + dec(p.end)
        + "  (vs "@ + p.gitref + what + ")\n\n"@
}

fn make_head(p: &Place, what: &str) -> (r: String)
    ensures
        r@ == diff_head(p@, what@),
{
    let mut t = copy("symbol_diff - \"");
    t.append(p.name.as_str());
    t.append("\" at ");
    t.append(p.rel.as_str());
    t.append(":");
    t.append(decimal(p.start).as_str());
    t.append("-");
    t.append(decimal(p.end).as_str());
    t.append("  (vs ");
    t.append(p.gitref.as_str());
    t.append(what);
    t.append(")\n\n");
    t
}

/// The old and the new body, one above the other.
pub open spec fn body_excerpt(
    p: PlaceView,
    old_body: Seq<char>,
    new_body: Seq<char>,
    budget: nat,
) -> Seq<char> {
    let a = diff_head(p, ", body-only"@) + "--- old ("@ + p.gitref + ") ---\n"@;
    let b = capped_from(a, lines_of(old_body), budget, 0) + "\n"@ + "+++ new (working) ---\n"@;
    capped_from(b, lines_of(new_body), budget, 0)
}

pub fn render_body_excerpt(p: &Place, old_body: &str, new_body: &str, budget: u64) -> (r: String)
    ensures
        r@ == body_excerpt(p@, old_body@, new_body@, budget as nat),
{
    let mut t = make_head(p, ", body-only");
    t.append("--- old (");
    t.append(p.gitref.as_str());
    t.append(") ---\n");
    let mut t = append_capped(t, old_body, budget);
    t.append("\n");
    t.append("+++ new (working) ---\n");
    append_capped(t, new_body, budget)
}

/// The old and the new signature, the hunks, and the bodies where they are asked for.
pub open spec fn signature_change(
    p: PlaceView,
    old_sig: Seq<char>,
    new_sig: Seq<char>,
    hs: Seq<HunkView>,
    bodies: Option<(Seq<char>, Seq<char>)>,
    budget: nat,
) -> Seq<char> {
    let a = diff_head(p, ", signature changed"@) + "signature:\n"@ + "- "@ + old_sig + "\n"@ + "+ "@
        + new_sig + "\n\n"@;
    let b = with_hunks(a, hs, budget);
    match bodies {
        None => b,
        Some((old_body, new_body)) => {
            let c = b + "\n"@ + "--- old body ("@ + p.gitref + ") ---\n"@;
            let d = capped_from(c, lines_of(old_body), budget, 0) + "\n"@
                + "+++ new body (working) ---\n"@;
            capped_from(d, lines_of(new_body), budget, 0)
        },
    }
}

pub fn render_signature_change(
    p: &Place,
    old_sig: &str,
    new_sig: &str,
    hunks: &Vec<Hunk>,
    bodies: Option<(&str, &str)>,
    budget: u64,
) -> (r: String)
    ensures
        r@ == signature_change(
            p@,
            old_sig@,
            new_sig@,
            hunk_views(hunks@),
            match bodies {
                Some(b) => Some((b.0@, b.1@)),
                None => None,
            },
            budget as nat,
        ),
{
    let mut t = make_head(p, ", signature changed");
    t.append("signature:\n");
    t.append("- ");
    t.append(old_sig);
    t.append("\n");
    t.append("+ ");
    t.append(new_sig);
    t.append("\n\n");
    let mut t = append_hunks(t, hunks, budget);
    match bodies {
        None => t,
        Some((old_body, new_body)) => {
            t.append("\n");
            t.append("--- old body (");
            t.append(p.gitref.as_str());
            t.append(") ---\n");
            let mut t = append_capped(t, old_body, budget);
            t.append("\n");
            t.append("+++ new body (working) ---\n");
            append_capped(t, new_body, budget)
        },
    }
}

// ---------------------------------------------------------------------------
// The answer

/// What is asked for.
pub struct DiffAsk {
    pub symbol: String,
    pub gitref: String,
    pub context: u64,
    pub show_body: bool,
    pub budget: u64,
}

/// The values of a [`DiffAsk`].
pub struct DiffAskView {
    pub symbol: Seq<char>,
    pub gitref: Seq<char>,
    pub context: u64,
    pub show_body: bool,
    pub budget: u64,
}

impl View for DiffAsk {
    type V = DiffAskView;

    open spec fn view(&self) -> DiffAskView {
        DiffAskView {
            symbol: self.symbol@,
            gitref: self.gitref@,
            context: self.context,
            show_body: self.show_body,
            budget: self.budget,
        }
    }
}

/// Why arguments cannot be used.
#[derive(PartialEq, Eq, Structural, Clone, Copy)]
pub enum Unusable {
    NoSymbol,
    BadRef,
}

impl Unusable {
    pub open spec fn text(self, no_symbol: Seq<char>) -> Seq<char> {
        match self {
            Unusable::NoSymbol => no_symbol,
            Unusable::BadRef => "ref must be a git revision, not an option"@,
        }
    }

    /// What to answer; `no_symbol` is what is said where no symbol is named.
    pub fn message(self, no_symbol: &str) -> (r: String)
        ensures
            r@ == self.text(no_symbol@),
    {
        match self {
            Unusable::NoSymbol => copy(no_symbol),
            Unusable::BadRef => copy("ref must be a git revision, not an option"),
        }
    }
}

/// What the arguments ask for.
pub open spec fn diff_ask_of(args: Json) -> Result<DiffAskView, Unusable> {
    let symbol = trimmed(str_or(args, "symbol"@, ""@));
    let gitref = trimmed(str_or(args, "ref"@, "HEAD"@));
    if symbol.len() == 0 {
        Err(Unusable::NoSymbol)
    } else if gitref.len() == 0 || starts(gitref, "-"@) {
        Err(Unusable::BadRef)
    } else {
        Ok(
            DiffAskView {
                symbol,
                gitref,
                context: u64_or(args, "context"@, 3),
                show_body: bool_or(args, "body"@, false),
                budget: u64_or(args, "token_budget"@, 1200),
            },
        )
    }
}

pub fn read_diff_ask(args: &Datum) -> (r: Result<DiffAsk, Unusable>)
    ensures
        match r {
            Ok(q) => diff_ask_of(args@) == Ok::<DiffAskView, Unusable>(q@),
            Err(e) => diff_ask_of(args@) == Err::<DiffAskView, Unusable>(e),
        },
{
    let symbol = trim(string_or(args, "symbol", "").as_str());
    if is_blank(symbol.as_str()) {
        return Err(Unusable::NoSymbol);
    }
    let gitref = trim(string_or(args, "ref", "HEAD").as_str());
    if is_blank(gitref.as_str()) || starts_with(gitref.as_str(), "-") {
        return Err(Unusable::BadRef);
    }
    Ok(
        DiffAsk {
            symbol,
            gitref,
            context: number_or(args, "context", 3),
            show_body: flag_or(args, "body", false),
            budget: number_or(args, "token_budget", 1200),
        },
    )
}

pub open spec fn built(text: Seq<char>, baseline: nat) -> BuiltView {
    BuiltView { text, baseline, returned: blen(text) / 4 }
}

fn finish(text: String, baseline: u64) -> (r: Built)
    ensures
        r@ == built(text@, baseline as nat),
{
    let returned: u64 = (size(text.as_str()) / 4) as u64;
    Built { text, baseline, returned }
}

/// The answer where a definition was found and the file differs.
pub open spec fn changed_text(
    a: DiffAskView,
    d: InfoView,
    diff: Seq<char>,
    old_src: Option<Seq<char>>,
) -> Seq<char> {
    let p = PlaceView {
        gitref: a.gitref,
        name: d.name,
        rel: d.rel,
        start: d.line,
        end: d.end_line,
    };
    let hs = hunks_of(diff).filter(touching(d.line, d.end_line));
    let old = match (path_lang(d.rel), old_src) {
        (Some(l), Some(s)) => old_definition(s, l, d.name),
        _ => None,
    };
    match old {
        Some((old_sig, old_body)) => if plain_sig(old_sig) == plain_sig(d.signature) {
            body_excerpt(p, old_body, d.body, a.budget as nat)
        } else {
            signature_change(
                p,
                old_sig,
                d.signature,
                hs,
                if a.show_body {
                    Some((old_body, d.body))
                } else {
                    None
                },
                a.budget as nat,
            )
        },
        None => with_hunks(diff_head(p, ""@), hs, a.budget as nat),
    }
}

/// The answer: how a definition changed, given the diff of its file against the
/// revision and the file as the revision has it.
pub open spec fn diffed(
    a: DiffAskView,
    paths: Seq<Seq<char>>,
    info: Option<InfoView>,
    scanned: u64,
    diff: Result<Seq<char>, Seq<char>>,
    old_src: Option<Seq<char>>,
) -> BuiltView {
    match info {
        None => built(
            "symbol_diff - no definition of \""@ + a.symbol + "\" in scope "@ + listed(paths)
                + "\n"@,
            0,
        ),
        Some(d) => match diff {
            Err(msg) => built("symbol_diff - "@ + msg, scanned as nat / 4),
            Ok(text) => if trimmed(text).len() == 0 {
                built(
                    "symbol_diff - \""@ + d.name + "\" at "@ + d.rel + ":"@ + dec(d.line)
                        + "  (no changes vs "@ + a.gitref + " in this file)\n"@,
                    scanned as nat / 4,
                )
            } else {
                built(
                    changed_text(a, d, text, old_src),
                    capped(scanned as nat + blen(text)) as nat / 4,
                )
            },
        },
    }
}

fn render_changed(a: &DiffAsk, d: &DefInfo, diff: &str, old_src: &Option<String>) -> (r: String)
    ensures
        r@ == changed_text(a@, d@, diff@, crate::text::opt_text(*old_src)),
{
    let p = Place {
        gitref: copy(a.gitref.as_str()),
        name: copy(d.name.as_str()),
        rel: copy(d.rel.as_str()),
        start: d.line,
        end: d.end_line,
    };
    let hs = keep_touching(parse_hunks(diff), d.line, d.end_line);
    let old: Option<(String, String)> = match (Lang::from_path(d.rel.as_str()), old_src) {
        (Some(l), Some(s)) => old_body_for_symbol(s.as_str(), l, d.name.as_str()),
        _ => None,
    };
    match old {
        Some((old_sig, old_body)) => if body_only(old_sig.as_str(), d.signature.as_str()) {
            render_body_excerpt(&p, old_body.as_str(), d.body.as_str(), a.budget)
        } else {
            let bodies: Option<(&str, &str)> = if a.show_body {
                Some((old_body.as_str(), d.body.as_str()))
            } else {
                None
            };
            render_signature_change(
                &p,
                old_sig.as_str(),
                d.signature.as_str(),
                &hs,
                bodies,
                a.budget,
            )
        },
        None => {
            let t = make_head(&p, "");
            append_hunks(t, &hs, a.budget)
        },
    }
}

pub fn build(
    a: &DiffAsk,
    paths: &Vec<String>,
    info: &Option<DefInfo>,
    scanned: u64,
    diff: &Result<String, String>,
    old_src: &Option<String>,
) -> (r: Built)
    ensures
        r@ == diffed(
            a@,
            strs(paths@),
            match *info {
                Some(d) => Some(d@),
                None => None,
            },
            scanned,
            outcome(*diff),
            crate::text::opt_text(*old_src),
        ),
{
    let d = match info {
        Some(d) => d,
        None => {
            let mut t = copy("symbol_diff - no definition of \"");
            t.append(a.symbol.as_str());
            t.append("\" in scope ");
            t.append(list_text(paths).as_str());
            t.append("\n");
            return finish(t, 0);
        },
    };
    match diff {
        Err(msg) => {
            let mut t = copy("symbol_diff - ");
            t.append(msg.as_str());
            finish(t, scanned / 4)
        },
        Ok(text) => if is_blank(trim(text.as_str()).as_str()) {
            let mut t = copy("symbol_diff - \"");
            t.append(d.name.as_str());
            t.append("\" at ");
            t.append(d.rel.as_str());
            t.append(":");
            t.append(decimal(d.line).as_str());
            t.append("  (no changes vs ");
            t.append(a.gitref.as_str());
            t.append(" in this file)\n");
            finish(t, scanned / 4)
        } else {
            let t = render_changed(a, d, text.as_str(), old_src);
            let n: usize = size(text.as_str());
            finish(t, count_up(scanned, n as u64) / 4)
        },
    }
}

// ---------------------------------------------------------------------------
// Laws

/// Hunks that do not touch the definition are never shown.
pub proof fn law_shown_hunks_touch(diff: Seq<char>, first: nat, last: nat, i: int)
    requires
        0 <= i < hunks_of(diff).filter(touching(first, last)).len(),
    ensures
        overlaps(hunks_of(diff).filter(touching(first, last))[i], first, last),
{
    hunks_of(diff).lemma_filter_pred(touching(first, last), i);
}

/// Every line of a hunk is an added, a removed or a context line.
pub proof fn law_hunk_lines_are_diff_lines(ls: Seq<Seq<char>>, n: nat)
    requires
        n <= ls.len(),
    ensures
        forall|i: int, j: int|
            0 <= i < closed(hunks_upto(ls, n)).len() && 0 <= j < closed(
                hunks_upto(ls, n),
            )[i].lines.len() ==> hunk_line(#[trigger] closed(hunks_upto(ls, n))[i].lines[j]),
    decreases n,
{
    if n > 0 {
        law_hunk_lines_are_diff_lines(ls, (n - 1) as nat);
        let s = hunks_upto(ls, (n - 1) as nat);
        let c = closed(s);
        let q = closed(hunks_upto(ls, n));
        assert forall|i: int, j: int| 0 <= i < q.len() && 0 <= j < q[i].lines.len() implies hunk_line(
            #[trigger] q[i].lines[j],
        ) by {
            if i < s.done.len() {
                assert(q[i] == c[i]);
                assert(hunk_line(c[i].lines[j]));
            } else if s.open is Some && i == s.done.len() {
                let h = s.open->Some_0;
                assert(c[i] == h);
                if j < h.lines.len() {
                    assert(q[i].lines[j] == c[i].lines[j]);
                }
            }
        }
    }
}

} // verus!
