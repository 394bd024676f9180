//! Searching notes for the terms of a query.
//!
//! What the ranking needs to know of each section is counted here; the weights
//! themselves are real numbers and come in as scores.
use vstd::prelude::*;
use crate::izakaya::replay::arranged;
use crate::json::{number_or, string_or, str_or, u64_or, Datum, Json};
use crate::knowledge::{chunk_views, terms_of, tokenize, Chunk, ChunkView};
use crate::order::{key_views, positioned, sort, sort_order, Key, KeyView};
use crate::smap::at;
use crate::text::{
    blen, contains, copy, dec, decimal, first_chars, holds, is_blank, lines, lines_of, lowercase,
    quote, quoted, replace_char, replaced, size, strs, take_chars, to_chars, to_lower, trim, trimmed,
};

verus! {

/// The characters that a snippet shows.
pub const SNIPPET_CHARS: usize = 280;

// ---------------------------------------------------------------------------
// The request

/// What a search asks for.
pub struct SearchAsk {
    pub query: String,
    pub k: u64,
    pub budget: u64,
}

#[verifier::ext_equal]
pub struct SearchAskView {
    pub query: Seq<char>,
    pub k: u64,
    pub budget: u64,
}

impl View for SearchAsk {
    type V = SearchAskView;

    open spec fn view(&self) -> SearchAskView {
        SearchAskView { query: self.query@, k: self.k, budget: self.budget }
    }
}

pub open spec fn search_ask(j: Json) -> Result<SearchAskView, Seq<char>> {
    let query = trimmed(str_or(j, "query"@, ""@));
    if query.len() == 0 {
        Err("query is required"@)
    } else {
        Ok(
            SearchAskView {
                query,
                k: if u64_or(j, "k"@, 5) < 1 {
                    1
                } else {
                    u64_or(j, "k"@, 5)
                },
                budget: u64_or(j, "token_budget"@, 1200),
            },
        )
    }
}

pub open spec fn search_ask_view(r: Result<SearchAsk, String>) -> Result<SearchAskView, Seq<char>> {
    match r {
        Ok(a) => Ok(a@),
        Err(e) => Err(e@),
    }
}

/// Reads a search request.
pub fn read_search(args: &Datum) -> (r: Result<SearchAsk, String>)
    ensures
        search_ask_view(r) == search_ask(args@),
{
    let query = trim(string_or(args, "query", "").as_str());
    if is_blank(query.as_str()) {
        return Err(copy("query is required"));
    }
    let k: u64 = number_or(args, "k", 5);
    Ok(
        SearchAsk {
            query,
            k: if k < 1 {
                1
            } else {
                k
            },
            budget: number_or(args, "token_budget", 1200),
        },
    )
}

// ---------------------------------------------------------------------------
// Counting

/// The number of the first `n` sections that hold a term.
pub open spec fn sections_with(cs: Seq<ChunkView>, n: nat, t: Seq<char>) -> nat
    decreases n,
{
    if n == 0 {
        0
    } else {
        sections_with(cs, (n - 1) as nat, t) + if at(cs[n - 1].tf, t) is Some {
            1nat
        } else {
            0nat
        }
    }
}

fn count_sections(cs: &Vec<Chunk>, t: &str) -> (r: u64)
    ensures
        r == sections_with(chunk_views(cs@), cs@.len(), t@),
{
    let ghost all = chunk_views(cs@);
    let mut n: u64 = 0;
    for i in 0..cs.len()
        invariant
            all == chunk_views(cs@),
            n == sections_with(all, i as nat, t@),
            n <= i,
    {
        assert(all[i as int] == cs@[i as int]@);
        assert(cs@.len() == cs.len());
        if cs[i].tf.get(t).is_some() {
            n += 1;
        }
    }
    n
}

/// A query term that a section holds: how often it occurs there, and in how many
/// sections it occurs at all.
#[derive(Clone, Copy)]
pub struct Hit {
    pub times: u64,
    pub sections: u64,
}

/// The hits of the first `n` query terms in a section.
pub open spec fn hits_of(
    cs: Seq<ChunkView>,
    c: ChunkView,
    terms: Seq<Seq<char>>,
    n: nat,
) -> Seq<Hit>
    decreases n,
{
    if n == 0 {
        Seq::empty()
    } else {
        let before = hits_of(cs, c, terms, (n - 1) as nat);
        match at(c.tf, terms[n - 1]) {
            Some(f) => if f == 0 {
                before
            } else {
                before.push(
                    Hit { times: f, sections: sections_with(cs, cs.len(), terms[n - 1]) as u64 },
                )
            },
            None => before,
        }
    }
}

/// A section that holds a query term, and what its weight depends on.
pub struct Candidate {
    pub at: usize,
    pub len: u64,
    pub hits: Vec<Hit>,
}

#[verifier::ext_equal]
pub struct CandidateView {
    pub at: int,
    pub len: u64,
    pub hits: Seq<Hit>,
}

impl View for Candidate {
    type V = CandidateView;

    open spec fn view(&self) -> CandidateView {
        CandidateView { at: self.at as int, len: self.len, hits: self.hits@ }
    }
}

pub open spec fn candidate_views(v: Seq<Candidate>) -> Seq<CandidateView> {
    Seq::new(v.len(), |i: int| v[i]@)
}

/// The candidates among the first `n` sections.
pub open spec fn candidates_of(
    cs: Seq<ChunkView>,
    terms: Seq<Seq<char>>,
    n: nat,
) -> Seq<CandidateView>
    decreases n,
{
    if n == 0 {
        Seq::empty()
    } else {
        let before = candidates_of(cs, terms, (n - 1) as nat);
        let c = cs[n - 1];
        let hits = hits_of(cs, c, terms, terms.len());
        if hits.len() == 0 {
            before
        } else {
            before.push(CandidateView { at: n - 1, len: c.len, hits })
        }
    }
}

fn find_hits(cs: &Vec<Chunk>, i: usize, terms: &Vec<String>, spread: &Vec<u64>) -> (r: Vec<Hit>)
    requires
        i < cs@.len(),
        spread@.len() == terms@.len(),
        forall|k: int|
            0 <= k < terms@.len() ==> (#[trigger] spread@[k]) == sections_with(
                chunk_views(cs@),
                cs@.len(),
                strs(terms@)[k],
            ),
    ensures
        r@ == hits_of(chunk_views(cs@), cs@[i as int]@, strs(terms@), terms@.len()),
{
    let ghost all = chunk_views(cs@);
    let ghost tv = strs(terms@);
    let ghost c = cs@[i as int]@;
    let mut out: Vec<Hit> = Vec::new();
    for k in 0..terms.len()
        invariant
            i < cs@.len(),
            all == chunk_views(cs@),
            tv == strs(terms@),
            c == cs@[i as int]@,
            spread@.len() == terms@.len(),
            forall|k: int|
                0 <= k < terms@.len() ==> (#[trigger] spread@[k]) == sections_with(
                    all,
                    cs@.len(),
                    tv[k],
                ),
            out@ == hits_of(all, c, tv, k as nat),
    {
        assert(tv[k as int] == terms@[k as int]@);
        assert(spread@[k as int] == sections_with(all, all.len(), tv[k as int]));
        match cs[i].tf.get(terms[k].as_str()) {
            Some(f) => {
                if *f != 0 {
                    out.push(Hit { times: *f, sections: spread[k] });
                }
            },
            None => {},
        }
    }
    out
}

/// The sections that hold a query term, in order.
pub fn candidates(cs: &Vec<Chunk>, terms: &Vec<String>) -> (r: Vec<Candidate>)
    ensures
        candidate_views(r@) == candidates_of(chunk_views(cs@), strs(terms@), cs@.len()),
{
    let ghost all = chunk_views(cs@);
    let ghost tv = strs(terms@);
    assert(tv.len() == terms@.len());
    let mut spread: Vec<u64> = Vec::new();
    for k in 0..terms.len()
        invariant
            all == chunk_views(cs@),
            tv == strs(terms@),
            spread@.len() == k,
            forall|m: int|
                0 <= m < k ==> (#[trigger] spread@[m]) == sections_with(all, cs@.len(), tv[m]),
    {
        assert(tv[k as int] == terms@[k as int]@);
        spread.push(count_sections(cs, terms[k].as_str()));
    }
    let mut out: Vec<Candidate> = Vec::new();
    assert(candidate_views(out@) =~= Seq::<CandidateView>::empty());
    for i in 0..cs.len()
        invariant
            all == chunk_views(cs@),
            tv == strs(terms@),
            tv.len() == terms@.len(),
            spread@.len() == terms@.len(),
            forall|m: int|
                0 <= m < terms@.len() ==> (#[trigger] spread@[m]) == sections_with(
                    all,
                    cs@.len(),
                    tv[m],
                ),
            candidate_views(out@) == candidates_of(all, tv, i as nat),
    {
        assert(all[i as int] == cs@[i as int]@);
        let hits = find_hits(cs, i, terms, &spread);
        if hits.len() > 0 {
            let ghost before = out@;
            let c = Candidate { at: i, len: cs[i].len, hits };
            out.push(c);
            assert(candidate_views(out@) =~= candidate_views(before).push(c@));
        }
    }
    out
}

/// The number of terms in the first `n` sections.
pub open spec fn terms_in(cs: Seq<ChunkView>, n: nat) -> nat
    decreases n,
{
    if n == 0 {
        0
    } else {
        terms_in(cs, (n - 1) as nat) + cs[n - 1].len as nat
    }
}

/// What a search can rank.
pub struct Facts {
    pub terms: Vec<String>,
    /// The number of sections.
    pub sections: u64,
    /// The number of terms in all of them.
    pub length: u128,
    pub candidates: Vec<Candidate>,
}

/// What comes of a search before anything is ranked.
pub enum Start {
    Answer(String),
    Refusal(String),
    Rank(Facts),
}

pub enum StartView {
    Answer(Seq<char>),
    Refusal(Seq<char>),
    Rank(Seq<Seq<char>>, nat, nat, Seq<CandidateView>),
}

impl View for Start {
    type V = StartView;

    open spec fn view(&self) -> StartView {
        match self {
            Start::Answer(s) => StartView::Answer(s@),
            Start::Refusal(e) => StartView::Refusal(e@),
            Start::Rank(f) => StartView::Rank(
                strs(f.terms@),
                f.sections as nat,
                f.length as nat,
                candidate_views(f.candidates@),
            ),
        }
    }
}

/// Without sections there is nothing to search; without terms there is nothing
/// to search for.
pub open spec fn start_of(query: Seq<char>, cs: Seq<ChunkView>) -> StartView {
    let terms = terms_of(query);
    if cs.len() == 0 {
        StartView::Answer("knowledge_search: no documents indexed"@)
    } else if terms.len() == 0 {
        StartView::Refusal("query has no searchable terms"@)
    } else {
        StartView::Rank(terms, cs.len(), terms_in(cs, cs.len()), candidates_of(cs, terms, cs.len()))
    }
}

/// Counts what the ranking of the sections depends on.
pub fn start(query: &str, cs: &Vec<Chunk>) -> (r: Start)
    ensures
        r@ == start_of(query@, chunk_views(cs@)),
{
    let ghost all = chunk_views(cs@);
    assert(all.len() == cs@.len());
    if cs.len() == 0 {
        return Start::Answer(copy("knowledge_search: no documents indexed"));
    }
    let terms = tokenize(query);
    assert(strs(terms@).len() == terms@.len());
    if terms.len() == 0 {
        return Start::Refusal(copy("query has no searchable terms"));
    }
    let mut length: u128 = 0;
    for i in 0..cs.len()
        invariant
            all == chunk_views(cs@),
            length == terms_in(all, i as nat),
            length <= i * u64::MAX,
    {
        assert(all[i as int] == cs@[i as int]@);
        assert(cs@.len() == cs.len());
        assert((i + 1) * u64::MAX == i * u64::MAX + u64::MAX) by (nonlinear_arith);
        assert((i + 1) * u64::MAX <= u128::MAX) by (nonlinear_arith)
            requires
                i + 1 <= u64::MAX,
        ;
        length = length + cs[i].len as u128;
    }
    let cands = candidates(cs, &terms);
    let sections: u64 = cs.len() as u64;
    Start::Rank(Facts { terms, sections, length, candidates: cands })
}

// ---------------------------------------------------------------------------
// Ranking

/// A section with its score. The score is given by the bits of a number that is
/// not negative: such numbers are ordered as their bits are.
#[derive(Clone, Copy)]
pub struct Scored {
    pub bits: u64,
    pub at: usize,
}

pub open spec fn score_keys(v: Seq<Scored>) -> Seq<KeyView> {
    Seq::new(
        v.len(),
        |i: int|
            KeyView { rank: (u64::MAX - v[i].bits) as u64, name: ""@, number: 0, at: i as nat },
    )
}

/// In descending order of their scores; equal ones stay in the order they have.
pub open spec fn by_score(v: Seq<Scored>) -> Seq<Scored> {
    arranged(v, sort_order(score_keys(v)))
}

pub fn rank(v: &Vec<Scored>) -> (r: Vec<Scored>)
    ensures
        r@ == by_score(v@),
{
    let ghost ks = score_keys(v@);
    let mut keys: Vec<Key> = Vec::new();
    for i in 0..v.len()
        invariant
            ks == score_keys(v@),
            keys@.len() == i,
            forall|k: int| 0 <= k < i ==> (#[trigger] keys@[k])@ == ks[k],
    {
        keys.push(Key { rank: u64::MAX - v[i].bits, name: copy(""), number: 0, at: i });
    }
    assert(key_views(keys@) =~= ks);
    assert(positioned(key_views(keys@)));
    let order = sort(keys);
    let mut out: Vec<Scored> = Vec::new();
    for i in 0..order.len()
        invariant
            out@.len() == i,
            forall|k: int|
                0 <= k < order@.len() ==> (#[trigger] order@[k] as int) == sort_order(ks)[k]
                    && order@[k] < v@.len(),
            forall|k: int| 0 <= k < i ==> (#[trigger] out@[k]) == v@[sort_order(ks)[k]],
    {
        let p: usize = order[i];
        assert(order@[i as int] as int == sort_order(ks)[i as int]);
        out.push(v[p]);
    }
    assert(out@ =~= by_score(v@));
    out
}

/// In a ranking no section stands behind one with a lower score.
pub proof fn law_ranking_descends(v: Seq<Scored>, i: int, j: int)
    requires
        0 <= i < j < by_score(v).len(),
    ensures
        by_score(v)[i].bits >= by_score(v)[j].bits,
{
    let ks = score_keys(v);
    let o = sort_order(ks);
    crate::order::lemma_sort_order(ks);
    crate::order::lemma_key_order();
    let s = crate::order::sorted_keys(ks);
    ks.lemma_sort_by_ensures(crate::order::key_le());
    assert(crate::order::key_le()(s[i], s[j]));
    assert(ks.to_multiset().contains(s[i])) by {
        assert(s.contains(s[i]));
        s.to_multiset_ensures();
    }
    assert(ks.to_multiset().contains(s[j])) by {
        assert(s.contains(s[j]));
        s.to_multiset_ensures();
    }
    ks.to_multiset_ensures();
    let a = choose|a: int| 0 <= a < ks.len() && ks[a] == s[i];
    let b = choose|b: int| 0 <= b < ks.len() && ks[b] == s[j];
    assert(o[i] == a && o[j] == b);
}

// ---------------------------------------------------------------------------
// Snippets

/// Whether a line holds one of the terms, in whatever case.
pub open spec fn line_hit(line: Seq<char>, terms: Seq<Seq<char>>) -> bool {
    exists|k: int| 0 <= k < terms.len() && holds(lowercase(line), #[trigger] terms[k])
}

/// The first line, from the one numbered `i` on, that holds one of the terms.
pub open spec fn hit_line(ls: Seq<Seq<char>>, terms: Seq<Seq<char>>, i: nat) -> Option<Seq<char>>
    decreases ls.len() - i,
{
    if i >= ls.len() {
        None
    } else if line_hit(ls[i as int], terms) {
        Some(ls[i as int])
    } else {
        hit_line(ls, terms, i + 1)
    }
}

/// A text on one line and within the characters allowed.
pub open spec fn shortened(text: Seq<char>, max: nat) -> Seq<char> {
    let shown = trimmed(replaced(first_chars(text, max), '\n', ' '));
    if text.len() > max {
        shown + " …"@
    } else {
        shown
    }
}

/// The first line of a body that holds one of the terms, within the characters
/// allowed. Where no line does, the beginning of the body.
pub open spec fn snippet(body: Seq<char>, terms: Seq<Seq<char>>, max: nat) -> Seq<char> {
    match hit_line(lines_of(body), terms, 0) {
        Some(line) => shortened(line, max),
        None => shortened(body, max),
    }
}

fn is_line_hit(line: &str, terms: &Vec<String>) -> (r: bool)
    ensures
        r == line_hit(line@, strs(terms@)),
{
    let ghost tv = strs(terms@);
    assert(tv.len() == terms@.len());
    let lower = to_lower(line);
    for k in 0..terms.len()
        invariant
            tv == strs(terms@),
            lower@ == lowercase(line@),
            forall|m: int| 0 <= m < k ==> !holds(lower@, #[trigger] tv[m]),
    {
        assert(tv[k as int] == terms@[k as int]@);
        if contains(lower.as_str(), terms[k].as_str()) {
            return true;
        }
    }
    false
}

fn shorten(text: &str, max: usize) -> (r: String)
    ensures
        r@ == shortened(text@, max as nat),
{
    let flat = replace_char(take_chars(text, max).as_str(), '\n', ' ');
    let mut shown = trim(flat.as_str());
    if to_chars(text).len() > max {
        shown.append(" …");
    }
    shown
}

pub fn snippet_for(body: &str, terms: &Vec<String>, max_chars: usize) -> (r: String)
    ensures
        r@ == snippet(body@, strs(terms@), max_chars as nat),
{
    let ls = lines(body);
    let ghost all = strs(ls@);
    assert(all.len() == ls@.len());
    for i in 0..ls.len()
        invariant
            all == strs(ls@),
            all == lines_of(body@),
            hit_line(all, strs(terms@), 0) == hit_line(all, strs(terms@), i as nat),
    {
        assert(all[i as int] == ls@[i as int]@);
        if is_line_hit(ls[i].as_str(), terms) {
            return shorten(ls[i].as_str(), max_chars);
        }
    }
    shorten(body, max_chars)
}

// ---------------------------------------------------------------------------
// The answer

/// A section that a search found, and its score in words.
pub struct Ranked {
    pub at: usize,
    pub score: String,
}

/// The values of a [`Ranked`].
#[verifier::ext_equal]
pub struct RankedView {
    pub at: int,
    pub score: Seq<char>,
}

impl View for Ranked {
    type V = RankedView;

    open spec fn view(&self) -> RankedView {
        RankedView { at: self.at as int, score: self.score@ }
    }
}

pub open spec fn ranked_views(v: Seq<Ranked>) -> Seq<RankedView> {
    Seq::new(v.len(), |i: int| v[i]@)
}

/// One section of the answer.
pub open spec fn block(
    cs: Seq<ChunkView>,
    terms: Seq<Seq<char>>,
    m: RankedView,
    rank: nat,
) -> Seq<char> {
    let c = cs[m.at];
    "\n["@ + dec(rank + 1) + "] "@ + c.path + " - "@ + c.heading + "  (score "@ + m.score + ")\n"@
        + snippet(c.body, terms, SNIPPET_CHARS as nat) + "\n"@
}

fn render_block(cs: &Vec<Chunk>, terms: &Vec<String>, m: &Ranked, rank: usize) -> (r: String)
    requires
        m.at < cs@.len(),
        rank < usize::MAX,
    ensures
        r@ == block(chunk_views(cs@), strs(terms@), m@, rank as nat),
{
    let c = &cs[m.at];
    assert(chunk_views(cs@)[m.at as int] == c@);
    let mut b = copy("\n[");
    b.append(decimal((rank + 1) as u64).as_str());
    b.append("] ");
    b.append(c.path.as_str());
    b.append(" - ");
    b.append(c.heading.as_str());
    b.append("  (score ");
    b.append(m.score.as_str());
    b.append(")\n");
    b.append(snippet_for(c.body.as_str(), terms, SNIPPET_CHARS).as_str());
    b.append("\n");
    b
}

/// The first line of the answer.
pub open spec fn headline(q: SearchAskView, matches: nat) -> Seq<char> {
    "knowledge_search - query "@ + quoted(q.query) + ", top "@ + dec(
        if q.k < matches {
            q.k as nat
        } else {
            matches
        },
    ) + " of "@ + dec(matches) + " matches\n"@
}

pub open spec fn omitted() -> Seq<char> {
    "\n… (further matches omitted by token_budget)\n"@
}

/// Shows the matches from the one ranked `i` on, as long as the budget lasts; the
/// first is always shown.
pub open spec fn shown_from(
    q: SearchAskView,
    cs: Seq<ChunkView>,
    terms: Seq<Seq<char>>,
    ms: Seq<RankedView>,
    i: nat,
    used: nat,
    out: Seq<char>,
) -> Seq<char>
    decreases ms.len() - i,
{
    if i >= ms.len() || i >= q.k {
        out
    } else {
        let b = block(cs, terms, ms[i as int], i);
        if used + blen(b) / 4 > q.budget && i > 0 {
            out + omitted()
        } else {
            shown_from(q, cs, terms, ms, i + 1, used + blen(b) / 4, out + b)
        }
    }
}

/// The answer to a search, given what it matched in the order of rank.
pub open spec fn answer(
    q: SearchAskView,
    cs: Seq<ChunkView>,
    terms: Seq<Seq<char>>,
    ms: Seq<RankedView>,
) -> Seq<char> {
    if ms.len() == 0 {
        "knowledge_search: no matches for "@ + quoted(q.query)
    } else {
        let head = headline(q, ms.len());
        shown_from(q, cs, terms, ms, 0, blen(head) / 4, head)
    }
}

/// Renders the matches of a search, best first.
pub fn render(q: &SearchAsk, cs: &Vec<Chunk>, terms: &Vec<String>, ms: &Vec<Ranked>) -> (r: String)
    requires
        forall|i: int| 0 <= i < ms@.len() ==> (#[trigger] ms@[i]).at < cs@.len(),
    ensures
        r@ == answer(q@, chunk_views(cs@), strs(terms@), ranked_views(ms@)),
{
    let ghost all = chunk_views(cs@);
    let ghost tv = strs(terms@);
    let ghost mv = ranked_views(ms@);
    assert(mv.len() == ms@.len());
    if ms.len() == 0 {
        let mut none = copy("knowledge_search: no matches for ");
        none.append(quote(q.query.as_str()).as_str());
        return none;
    }
    let n: u64 = ms.len() as u64;
    let mut out = copy("knowledge_search - query ");
    out.append(quote(q.query.as_str()).as_str());
    out.append(", top ");
    out.append(
        decimal(
            if q.k < n {
                q.k
            } else {
                n
            },
        ).as_str(),
    );
    out.append(" of ");
    out.append(decimal(n).as_str());
    out.append(" matches\n");
    let ghost want = answer(q@, all, tv, mv);
    let mut used: usize = size(out.as_str()) / 4;
    let mut i: usize = 0;
    while i < ms.len() && (i as u64) < q.k
        invariant
            i <= ms@.len(),
            all == chunk_views(cs@),
            tv == strs(terms@),
            forall|i: int| 0 <= i < ms@.len() ==> (#[trigger] ms@[i]).at < cs@.len(),
            used * 4 <= blen(out@),
            mv == ranked_views(ms@),
            want == answer(q@, all, tv, mv),
            want == shown_from(q@, all, tv, mv, i as nat, used as nat, out@),
        decreases ms@.len() - i,
    {
        assert(ms@[i as int].at < cs@.len());
        assert(mv[i as int] == ms@[i as int]@);
        assert(ms@.len() == ms.len());
        let b = render_block(cs, terms, &ms[i], i);
        let cost: usize = size(b.as_str()) / 4;
        let ghost before = out@;
        if (used as u128) + (cost as u128) > (q.budget as u128) && i > 0 {
            out.append("\n… (further matches omitted by token_budget)\n");
            return out;
        }
        out.append(b.as_str());
        let total: usize = size(out.as_str());
        proof {
            crate::text::lemma_blen_add(before, b@);
        }
        used = used + cost;
        i += 1;
    }
    out
}

/// The weight of a candidate: the bits of a number that is not negative, and the number
/// in words.
pub struct Weight {
    pub bits: u64,
    pub shown: String,
}

/// The values of a [`Weight`].
#[verifier::ext_equal]
pub struct WeightView {
    pub bits: u64,
    pub shown: Seq<char>,
}

impl View for Weight {
    type V = WeightView;

    open spec fn view(&self) -> WeightView {
        WeightView { bits: self.bits, shown: self.shown@ }
    }
}

pub open spec fn weight_views(v: Seq<Weight>) -> Seq<WeightView> {
    Seq::new(v.len(), |i: int| v[i]@)
}

/// The candidates with their weights.
pub open spec fn weighed(cands: Seq<CandidateView>, ws: Seq<WeightView>) -> Seq<Scored> {
    Seq::new(cands.len(), |i: int| Scored { bits: ws[i].bits, at: cands[i].at as usize })
}

/// The candidates in descending order of their weights, as they are shown.
pub open spec fn matches_of(cands: Seq<CandidateView>, ws: Seq<WeightView>) -> Seq<RankedView> {
    let order = sort_order(score_keys(weighed(cands, ws)));
    Seq::new(
        cands.len(),
        |i: int| RankedView { at: cands[order[i]].at, score: ws[order[i]].shown },
    )
}

/// Answers a search from the weights of its candidates, best first.
pub fn conclude(q: &SearchAsk, cs: &Vec<Chunk>, facts: &Facts, ws: &Vec<Weight>) -> (r: String)
    requires
        ws@.len() == facts.candidates@.len(),
        forall|i: int|
            0 <= i < facts.candidates@.len() ==> (#[trigger] facts.candidates@[i]).at < cs@.len(),
    ensures
        r@ == answer(
            q@,
            chunk_views(cs@),
            strs(facts.terms@),
            matches_of(candidate_views(facts.candidates@), weight_views(ws@)),
        ),
{
    let ghost cands = candidate_views(facts.candidates@);
    let ghost wv = weight_views(ws@);
    let ghost ks = score_keys(weighed(cands, wv));
    assert(cands.len() == ws@.len());
    let mut keys: Vec<Key> = Vec::new();
    for i in 0..ws.len()
        invariant
            cands.len() == ws@.len(),
            wv == weight_views(ws@),
            ks == score_keys(weighed(cands, wv)),
            keys@.len() == i,
            forall|k: int| 0 <= k < i ==> (#[trigger] keys@[k])@ == ks[k],
    {
        assert(wv[i as int] == ws@[i as int]@);
        keys.push(Key { rank: u64::MAX - ws[i].bits, name: copy(""), number: 0, at: i });
    }
    assert(key_views(keys@) =~= ks);
    assert(positioned(key_views(keys@)));
    let order = sort(keys);
    let ghost want = matches_of(cands, wv);
    let mut ms: Vec<Ranked> = Vec::new();
    for i in 0..order.len()
        invariant
            cands == candidate_views(facts.candidates@),
            wv == weight_views(ws@),
            cands.len() == ws@.len(),
            ks == score_keys(weighed(cands, wv)),
            want == matches_of(cands, wv),
            order@.len() == cands.len(),
            ms@.len() == i,
            forall|k: int|
                0 <= k < order@.len() ==> (#[trigger] order@[k] as int) == sort_order(ks)[k]
                    && order@[k] < ws@.len(),
            forall|k: int| 0 <= k < i ==> (#[trigger] ms@[k])@ == want[k],
            forall|k: int|
                0 <= k < facts.candidates@.len() ==> (#[trigger] facts.candidates@[k]).at
                    < cs@.len(),
            forall|k: int| 0 <= k < i ==> (#[trigger] ms@[k]).at < cs@.len(),
    {
        let p: usize = order[i];
        assert(order@[i as int] as int == sort_order(ks)[i as int]);
        assert(cands[p as int] == facts.candidates@[p as int]@);
        assert(wv[p as int] == ws@[p as int]@);
        ms.push(Ranked { at: facts.candidates[p].at, score: copy(ws[p].shown.as_str()) });
    }
    assert(ranked_views(ms@) =~= want);
    render(q, cs, &facts.terms, &ms)
}

/// What a search of sections comes to, given the weights of its candidates.
pub open spec fn searched(j: Json, cs: Seq<ChunkView>, ws: Seq<WeightView>) -> Result<
    Seq<char>,
    Seq<char>,
> {
    match search_ask(j) {
        Err(e) => Err(e),
        Ok(q) => match start_of(q.query, cs) {
            StartView::Answer(text) => Ok(text),
            StartView::Refusal(e) => Err(e),
            StartView::Rank(terms, _, _, cands) => Ok(
                answer(q, cs, terms, matches_of(cands, ws)),
            ),
        },
    }
}

// ---------------------------------------------------------------------------
// Laws

/// The first `m` matches as they are shown.
pub open spec fn first_blocks(
    cs: Seq<ChunkView>,
    terms: Seq<Seq<char>>,
    ms: Seq<RankedView>,
    m: nat,
) -> Seq<char>
    decreases m,
{
    if m == 0 {
        ""@
    } else {
        first_blocks(cs, terms, ms, (m - 1) as nat) + block(cs, terms, ms[m - 1], (m - 1) as nat)
    }
}

/// The tokens of the first `m` matches, each for itself.
pub open spec fn block_tokens(
    cs: Seq<ChunkView>,
    terms: Seq<Seq<char>>,
    ms: Seq<RankedView>,
    m: nat,
) -> nat
    decreases m,
{
    if m == 0 {
        0
    } else {
        block_tokens(cs, terms, ms, (m - 1) as nat) + blen(
            block(cs, terms, ms[m - 1], (m - 1) as nat),
        ) / 4
    }
}

/// How many matches may be shown: those asked for, as far as there are any.
pub open spec fn most_shown(q: SearchAskView, matches: nat) -> nat {
    if q.k < matches {
        q.k as nat
    } else {
        matches
    }
}

/// `m` matches are as many as may be shown and the budget has room for: beyond the
/// first they fit, and one more would not.
pub open spec fn blocks_fill(
    q: SearchAskView,
    cs: Seq<ChunkView>,
    terms: Seq<Seq<char>>,
    ms: Seq<RankedView>,
    used: nat,
    m: nat,
) -> bool {
    &&& m <= most_shown(q, ms.len())
    &&& m > 1 ==> used + block_tokens(cs, terms, ms, m) <= q.budget
    &&& m < most_shown(q, ms.len()) ==> m > 0 && used + block_tokens(cs, terms, ms, m + 1)
        > q.budget
}

proof fn lemma_blocks_fill(
    head: Seq<char>,
    q: SearchAskView,
    cs: Seq<ChunkView>,
    terms: Seq<Seq<char>>,
    ms: Seq<RankedView>,
    used: nat,
    k: nat,
) -> (m: nat)
    requires
        k <= most_shown(q, ms.len()),
        k > 1 ==> used + block_tokens(cs, terms, ms, k) <= q.budget,
    ensures
        blocks_fill(q, cs, terms, ms, used, m),
        shown_from(
            q,
            cs,
            terms,
            ms,
            k,
            used + block_tokens(cs, terms, ms, k),
            head + first_blocks(cs, terms, ms, k),
        ) == head + first_blocks(cs, terms, ms, m) + (if m < most_shown(q, ms.len()) {
            omitted()
        } else {
            ""@
        }),
    decreases ms.len() - k,
{
    let out = head + first_blocks(cs, terms, ms, k);
    reveal_strlit("");
    if k == most_shown(q, ms.len()) {
        assert(out + ""@ =~= out);
        k
    } else {
        let b = block(cs, terms, ms[k as int], k);
        if used + block_tokens(cs, terms, ms, k) + blen(b) / 4 > q.budget && k > 0 {
            k
        } else {
            assert(out + b =~= head + first_blocks(cs, terms, ms, k + 1));
            lemma_blocks_fill(head, q, cs, terms, ms, used, k + 1)
        }
    }
}

/// An answer shows the best matches, as many as were asked for and the budget has
/// room for but at least one, and says where it left some out.
pub proof fn law_answer_fills_its_budget(
    q: SearchAskView,
    cs: Seq<ChunkView>,
    terms: Seq<Seq<char>>,
    ms: Seq<RankedView>,
)
    requires
        ms.len() > 0,
        q.k > 0,
    ensures
        ({
            let head = headline(q, ms.len());
            exists|m: nat|
                m > 0 && #[trigger] blocks_fill(q, cs, terms, ms, blen(head) / 4, m) && answer(
                    q,
                    cs,
                    terms,
                    ms,
                ) == head + first_blocks(cs, terms, ms, m) + (if m < most_shown(q, ms.len()) {
                    omitted()
                } else {
                    ""@
                })
        }),
{
    let head = headline(q, ms.len());
    reveal_strlit("");
    assert(head + first_blocks(cs, terms, ms, 0) =~= head);
    let m = lemma_blocks_fill(head, q, cs, terms, ms, blen(head) / 4, 0);
    assert(blocks_fill(q, cs, terms, ms, blen(head) / 4, m));
}

/// Whether a section holds one of the terms.
pub open spec fn section_hit(c: ChunkView, terms: Seq<Seq<char>>) -> bool {
    exists|k: int|
        0 <= k < terms.len() && (at(c.tf, #[trigger] terms[k]) matches Some(f) && f > 0)
}

proof fn lemma_hits(cs: Seq<ChunkView>, c: ChunkView, terms: Seq<Seq<char>>, n: nat)
    requires
        n <= terms.len(),
    ensures
        hits_of(cs, c, terms, n).len() > 0 <==> section_hit(c, terms.take(n as int)),
    decreases n,
{
    let front = terms.take(n as int);
    if n > 0 {
        let m = (n - 1) as nat;
        lemma_hits(cs, c, terms, m);
        let less = terms.take(m as int);
        assert(front[n - 1] == terms[n - 1]);
        if section_hit(c, less) {
            let k = choose|k: int|
                0 <= k < less.len() && (at(c.tf, #[trigger] less[k]) matches Some(f) && f > 0);
            assert(front[k] == less[k]);
        }
        if section_hit(c, front) {
            let k = choose|k: int|
                0 <= k < front.len() && (at(c.tf, #[trigger] front[k]) matches Some(f) && f > 0);
            if k < m {
                assert(front[k] == less[k]);
            }
        }
    }
}

/// The candidates of a search are the sections that hold one of its terms: each of
/// them does, and every section that does is one of them.
pub proof fn law_candidates_hold_a_term(cs: Seq<ChunkView>, terms: Seq<Seq<char>>, n: nat)
    requires
        n <= cs.len(),
    ensures
        forall|i: int|
            0 <= i < candidates_of(cs, terms, n).len() ==> {
                let c = #[trigger] candidates_of(cs, terms, n)[i];
                0 <= c.at < n && section_hit(cs[c.at], terms)
            },
        forall|a: int|
            0 <= a < n && section_hit(#[trigger] cs[a], terms) ==> exists|i: int|
                0 <= i < candidates_of(cs, terms, n).len() && (#[trigger] candidates_of(
                    cs,
                    terms,
                    n,
                )[i]).at == a,
    decreases n,
{
    if n > 0 {
        let m = (n - 1) as nat;
        let before = candidates_of(cs, terms, m);
        let all = candidates_of(cs, terms, n);
        law_candidates_hold_a_term(cs, terms, m);
        lemma_hits(cs, cs[n - 1], terms, terms.len());
        assert(terms.take(terms.len() as int) =~= terms);
        assert forall|i: int| 0 <= i < all.len() implies {
            let c = #[trigger] all[i];
            0 <= c.at < n && section_hit(cs[c.at], terms)
        } by {
            if i < before.len() {
                assert(all[i] == before[i]);
            }
        }
        assert forall|a: int| 0 <= a < n && section_hit(#[trigger] cs[a], terms) implies exists|
            i: int,
        |
            0 <= i < all.len() && (#[trigger] all[i]).at == a by {
            if a < m {
                let i = choose|i: int| 0 <= i < before.len() && (#[trigger] before[i]).at == a;
                assert(all[i] == before[i]);
            } else {
                assert(all[all.len() - 1].at == a);
            }
        }
    }
}

/// A search that finds sections lists the best of them: at most as many as were asked
/// for, in descending order of their weights, and each of them holds one of the terms.
/// It says nothing was found only where no section holds one.
pub proof fn law_search_lists_the_best(
    j: Json,
    q: SearchAskView,
    cs: Seq<ChunkView>,
    ws: Seq<WeightView>,
)
    requires
        search_ask(j) == Ok::<SearchAskView, Seq<char>>(q),
        cs.len() > 0,
        terms_of(q.query).len() > 0,
        ws.len() == candidates_of(cs, terms_of(q.query), cs.len()).len(),
        cs.len() <= usize::MAX,
    ensures
        ({
            let terms = terms_of(q.query);
            let cands = candidates_of(cs, terms, cs.len());
            let best = by_score(weighed(cands, ws));
            let ms = matches_of(cands, ws);
            &&& ms.len() == best.len()
            &&& forall|i: int|
                0 <= i < ms.len() ==> (#[trigger] ms[i]).at == best[i].at && 0 <= ms[i].at
                    < cs.len() && section_hit(cs[ms[i].at], terms)
            &&& forall|i: int, k: int|
                0 <= i < k < best.len() ==> (#[trigger] best[i]).bits >= (#[trigger] best[k]).bits
            &&& ms.len() == 0 ==> searched(j, cs, ws) == Ok::<Seq<char>, Seq<char>>(
                "knowledge_search: no matches for "@ + quoted(q.query),
            ) && forall|a: int| 0 <= a < cs.len() ==> !section_hit(#[trigger] cs[a], terms)
            &&& ms.len() > 0 ==> exists|m: nat|
                0 < m <= q.k && m <= ms.len() && searched(j, cs, ws) == Ok::<Seq<char>, Seq<char>>(
                    headline(q, ms.len()) + #[trigger] first_blocks(cs, terms, ms, m) + (if m
                        < most_shown(q, ms.len()) {
                        omitted()
                    } else {
                        ""@
                    }),
                )
        }),
{
    let terms = terms_of(q.query);
    let cands = candidates_of(cs, terms, cs.len());
    let scored = weighed(cands, ws);
    let best = by_score(scored);
    let ms = matches_of(cands, ws);
    let ks = score_keys(scored);
    crate::order::lemma_sort_order(ks);
    law_candidates_hold_a_term(cs, terms, cs.len());
    assert forall|i: int| 0 <= i < ms.len() implies (#[trigger] ms[i]).at == best[i].at && 0
        <= ms[i].at < cs.len() && section_hit(cs[ms[i].at], terms) by {
        let p = sort_order(ks)[i];
        assert(best[i] == scored[p]);
        assert(0 <= cands[p].at < cs.len());
    }
    assert forall|i: int, k: int| 0 <= i < k < best.len() implies (#[trigger] best[i]).bits >= (
    #[trigger] best[k]).bits by {
        law_ranking_descends(scored, i, k);
    }
    if ms.len() > 0 {
        law_answer_fills_its_budget(q, cs, terms, ms);
        let head = headline(q, ms.len());
        let m = choose|m: nat|
            m > 0 && #[trigger] blocks_fill(q, cs, terms, ms, blen(head) / 4, m) && answer(
                q,
                cs,
                terms,
                ms,
            ) == head + first_blocks(cs, terms, ms, m) + (if m < most_shown(q, ms.len()) {
                omitted()
            } else {
                ""@
            });
        assert(0 < m <= q.k && m <= ms.len());
        assert(first_blocks(cs, terms, ms, m) == first_blocks(cs, terms, ms, m));
    }
}

} // verus!
