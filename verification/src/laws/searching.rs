//! What notes are found by, what is shown of them, and how they are written.
use vstd::prelude::*;
use crate::args::text_at;
use crate::json::{bool_or, str_or, u64_or, Json};
use crate::knowledge::search::{
    block, candidates_of, first_blocks, headline, hit_line, hits_of, line_hit, search_ask,
    sections_with, shortened, snippet, start_of, terms_in, CandidateView, Hit, RankedView,
    SearchAskView, StartView,
};
use crate::knowledge::upsert::{
    appended, below, ended, entry_of, front_matter, hashes, heading_from, is_heading, level,
    next_heading, path_check, section, section_replaced, write_answer, write_result, written_body,
    EntryView, Mode,
};
use crate::knowledge::{
    chunk_of, cut_line, gap, stop_word, terms_among, terms_of, with_section, ChunkView, Cutting,
};
use crate::laws::lists::lemma_contains_push;
use crate::laws::texts::{flat, lemma_flat_push};
use crate::smap::at;
use crate::text::{
    alphanumeric, blen, dec, ends, holds, lines_of, lowercase, quoted, replaced, split_by,
    split_on, starts, trimmed, trimmed_end, trimmed_start_of,
};

verus! {

// ---------------------------------------------------------------------------
// Terms

/// The words that nothing is found by.
pub open spec fn common_words() -> Seq<Seq<char>> {
    seq!["the"@, "and"@, "for"@, "with"@, "that"@, "this"@, "from"@, "are"@, "was"@, "but"@, "not"@, "you"@, "your"@, "use"@, "using"@, "into"@, "when"@, "which"@, "have"@, "has"@, "its"@, "can"@]
}

proof fn lemma_common(w: Seq<char>)
    ensures
        stop_word(w) <==> common_words().contains(w),
{
    let v = common_words();
    assert(v[0] == "the"@);
    assert(v[1] == "and"@);
    assert(v[2] == "for"@);
    assert(v[3] == "with"@);
    assert(v[4] == "that"@);
    assert(v[5] == "this"@);
    assert(v[6] == "from"@);
    assert(v[7] == "are"@);
    assert(v[8] == "was"@);
    assert(v[9] == "but"@);
    assert(v[10] == "not"@);
    assert(v[11] == "you"@);
    assert(v[12] == "your"@);
    assert(v[13] == "use"@);
    assert(v[14] == "using"@);
    assert(v[15] == "into"@);
    assert(v[16] == "when"@);
    assert(v[17] == "which"@);
    assert(v[18] == "have"@);
    assert(v[19] == "has"@);
    assert(v[20] == "its"@);
    assert(v[21] == "can"@);
    if v.contains(w) {
        let i = choose|i: int| 0 <= i < v.len() && v[i] == w;
        assert(v.len() == 22);
    }
}

/// A text is found by its words: letters and digits in a row, two bytes at least, in lower
/// case, without those that are too common.
pub proof fn law_terms_of_a_text(text: Seq<char>, t: Seq<char>)
    ensures
        terms_of(text).contains(t) <==> !common_words().contains(t) && exists|i: int|
            0 <= i < split_by(text, gap()).len() && blen(#[trigger] split_by(text, gap())[i]) >= 2
                && t == lowercase(split_by(text, gap())[i]),
        forall|i: int, k: int|
            0 <= i < split_by(text, gap()).len() && 0 <= k < split_by(text, gap())[i].len()
                ==> alphanumeric(#[trigger] split_by(text, gap())[i][k]),
{
    let ws = split_by(text, gap());
    lemma_terms(ws, ws.len(), t);
    crate::text::lemma_split_parts(text, gap());
}

proof fn lemma_terms(ws: Seq<Seq<char>>, n: nat, t: Seq<char>)
    requires
        n <= ws.len(),
    ensures
        terms_among(ws, n).contains(t) <==> !common_words().contains(t) && exists|i: int|
            0 <= i < n && blen(#[trigger] ws[i]) >= 2 && t == lowercase(ws[i]),
    decreases n,
{
    if n > 0 {
        let m = (n - 1) as nat;
        lemma_terms(ws, m, t);
        lemma_common(lowercase(ws[n - 1]));
        lemma_contains_push(terms_among(ws, m), lowercase(ws[n - 1]), t);
        if exists|i: int| 0 <= i < m && blen(#[trigger] ws[i]) >= 2 && t == lowercase(ws[i]) {
            let i = choose|i: int|
                0 <= i < m && blen(#[trigger] ws[i]) >= 2 && t == lowercase(ws[i]);
            assert(blen(ws[i]) >= 2);
        }
        if blen(ws[n - 1]) >= 2 && t == lowercase(ws[n - 1]) {
            assert(0 <= n - 1 < n);
        }
    }
}

// ---------------------------------------------------------------------------
// Sections

/// A section is kept with its heading and text, and the number of its terms; without a term
/// it is not kept.
pub proof fn law_sections_have_terms(path: Seq<char>, heading: Seq<char>, body: Seq<char>)
    ensures
        ({
            let n = terms_of(heading + "\n"@ + body).len();
            &&& chunk_of(path, heading, body) is Some <==> n > 0
            &&& chunk_of(path, heading, body) matches Some(c) ==> c.path == path && c.heading
                == heading && c.body == body && c.len == n as u64
        }),
{
}

/// How a note is cut into sections, line by line. Blank lines before anything else do not
/// count; a rule there begins the front matter, which the next rule ends; a line with a `#`
/// in front ends a section and heads the next; every other line belongs to its section.
pub proof fn law_notes_are_cut_at_headings(c: Cutting, path: Seq<char>, line: Seq<char>)
    ensures
        ({
            let r = cut_line(c, path, line);
            let blank = trimmed(line).len() == 0;
            let rule = trimmed(line) == "---"@;
            let head = line.len() > 0 && line[0] == '#';
            let open = (c.begun && !c.front) || (!c.begun && !blank && !rule);
            &&& !c.begun && blank ==> r == c
            &&& !c.begun && rule && !blank ==> r.front && r.begun && r.found == c.found && r.buf
                == c.buf && r.heading == c.heading
            &&& c.begun && c.front ==> (r.front <==> !rule) && r.begun && r.found == c.found && r.buf
                == c.buf && r.heading == c.heading
            &&& open && head ==> {
                let t = trimmed(trimmed_start_of(line.skip(1), '#'));
                &&& r.heading == (if t.len() > 0 {
                    t
                } else {
                    "(section)"@
                })
                &&& r.buf.len() == 0 && r.begun && !r.front
                &&& r.found == with_section(c.found, path, c.heading, c.buf)
            }
            &&& open && !head ==> r.buf == c.buf + line + "\n"@ && r.heading == c.heading && r.found
                == c.found && r.begun && !r.front
        }),
{
    reveal_strlit("#");
    reveal_strlit("");
    reveal_strlit("---");
    assert("#"@ =~= seq!['#']);
    assert("---"@.len() == 3);
    if line.len() > 0 {
        assert(line.take(1) =~= seq![line[0]]);
        assert(seq![line[0]][0] == line[0] && seq!['#'][0] == '#');
    }
}

/// A section without text is passed over, and what surrounds its text is left out.
pub proof fn law_sections_with_text_are_kept(
    found: Seq<ChunkView>,
    path: Seq<char>,
    heading: Seq<char>,
    buf: Seq<char>,
)
    ensures
        ({
            let c = chunk_of(path, heading, trimmed(buf));
            &&& trimmed(buf).len() > 0 && c is Some ==> with_section(found, path, heading, buf)
                == found.push(c->Some_0)
            &&& trimmed(buf).len() == 0 || c is None ==> with_section(found, path, heading, buf)
                == found
        }),
{
}

// ---------------------------------------------------------------------------
// Searching

/// What a search asks.
pub proof fn law_what_a_search_asks(j: Json)
    ensures
        search_ask(j) is Ok <==> trimmed(str_or(j, "query"@, ""@)).len() > 0,
        search_ask(j) matches Ok(q) ==> {
            &&& q.query == trimmed(str_or(j, "query"@, ""@))
            &&& q.k == (if u64_or(j, "k"@, 5) == 0 {
                1
            } else {
                u64_or(j, "k"@, 5)
            })
            &&& q.budget == u64_or(j, "token_budget"@, 1200)
        },
{
}

/// The sections with a term are counted: all of them and none twice.
pub proof fn law_sections_with_a_term(cs: Seq<ChunkView>, n: nat, t: Seq<char>)
    requires
        n <= cs.len(),
    ensures
        sections_with(cs, n, t) == cs.take(n as int).filter(
            |c: ChunkView| at(c.tf, t) is Some,
        ).len(),
    decreases n,
{
    let f = |c: ChunkView| at(c.tf, t) is Some;
    if n > 0 {
        let m = (n - 1) as nat;
        law_sections_with_a_term(cs, m, t);
        assert(cs.take(n as int) =~= cs.take(m as int).push(cs[n - 1]));
        cs.take(m as int).lemma_filter_push(cs[n - 1], f);
    } else {
        reveal(Seq::filter);
        assert(cs.take(0) =~= Seq::<ChunkView>::empty());
    }
}

/// Whether a hit is that of a term of the query in a section: how often it occurs there, and
/// in how many sections it does at all.
pub open spec fn hit_by(cs: Seq<ChunkView>, c: ChunkView, t: Seq<char>, h: Hit) -> bool {
    at(c.tf, t) == Some(h.times) && h.times > 0 && h.sections == sections_with(
        cs,
        cs.len(),
        t,
    ) as u64
}

/// A section is hit by the terms of the query that it holds.
pub proof fn law_hits_of_a_section(
    cs: Seq<ChunkView>,
    c: ChunkView,
    terms: Seq<Seq<char>>,
    n: nat,
    h: Hit,
)
    requires
        n <= terms.len(),
    ensures
        hits_of(cs, c, terms, n).contains(h) <==> exists|i: int|
            0 <= i < n && hit_by(cs, c, #[trigger] terms[i], h),
    decreases n,
{
    if n > 0 {
        let m = (n - 1) as nat;
        law_hits_of_a_section(cs, c, terms, m, h);
        let t = terms[n - 1];
        if let Some(f) = at(c.tf, t) {
            let x = Hit { times: f, sections: sections_with(cs, cs.len(), t) as u64 };
            lemma_contains_push(hits_of(cs, c, terms, m), x, h);
        }
        if exists|i: int| 0 <= i < m && hit_by(cs, c, #[trigger] terms[i], h) {
            let i = choose|i: int| 0 <= i < m && hit_by(cs, c, #[trigger] terms[i], h);
            assert(hit_by(cs, c, terms[i], h));
        }
        if hit_by(cs, c, terms[n - 1], h) {
            assert(0 <= n - 1 < n);
        }
    }
}

/// A section that was hit is ranked by its hits and its length.
pub proof fn law_candidates_tell_their_hits(
    cs: Seq<ChunkView>,
    terms: Seq<Seq<char>>,
    n: nat,
    x: CandidateView,
)
    requires
        n <= cs.len(),
    ensures
        candidates_of(cs, terms, n).contains(x) <==> 0 <= x.at < n && x.len == cs[x.at].len && x.hits
            == hits_of(cs, cs[x.at], terms, terms.len()) && x.hits.len() > 0,
    decreases n,
{
    if n > 0 {
        let m = (n - 1) as nat;
        law_candidates_tell_their_hits(cs, terms, m, x);
        let c = cs[n - 1];
        let y = CandidateView {
            at: n - 1,
            len: c.len,
            hits: hits_of(cs, c, terms, terms.len()),
        };
        lemma_contains_push(candidates_of(cs, terms, m), y, x);
    }
}

/// How a search begins: without notes there is nothing to find, without terms nothing to
/// find by; else the sections are ranked.
pub proof fn law_search_begins(query: Seq<char>, cs: Seq<ChunkView>)
    ensures
        cs.len() == 0 ==> start_of(query, cs) == StartView::Answer(
            "knowledge_search: no documents indexed"@,
        ),
        cs.len() > 0 && terms_of(query).len() == 0 ==> start_of(query, cs) is Refusal,
        cs.len() > 0 && terms_of(query).len() > 0 ==> start_of(query, cs) == StartView::Rank(
            terms_of(query),
            cs.len(),
            terms_in(cs, cs.len()),
            candidates_of(cs, terms_of(query), cs.len()),
        ),
{
}

proof fn lemma_hit_line(ls: Seq<Seq<char>>, terms: Seq<Seq<char>>, i: nat)
    requires
        i <= ls.len(),
    ensures
        match hit_line(ls, terms, i) {
            Some(l) => exists|k: int|
                i <= k < ls.len() && #[trigger] ls[k] == l && line_hit(l, terms) && forall|j: int|
                    i <= j < k ==> !line_hit(#[trigger] ls[j], terms),
            None => forall|j: int| i <= j < ls.len() ==> !line_hit(#[trigger] ls[j], terms),
        },
    decreases ls.len() - i,
{
    if i < ls.len() {
        if line_hit(ls[i as int], terms) {
            assert(ls[i as int] == ls[i as int]);
        } else {
            lemma_hit_line(ls, terms, i + 1);
            if let Some(l) = hit_line(ls, terms, i + 1) {
                let k = choose|k: int|
                    i + 1 <= k < ls.len() && #[trigger] ls[k] == l && line_hit(l, terms)
                        && forall|j: int| i + 1 <= j < k ==> !line_hit(#[trigger] ls[j], terms);
                assert(ls[k] == l);
                assert forall|j: int| i <= j < k implies !line_hit(#[trigger] ls[j], terms) by {}
            }
        }
    }
}

/// What is shown of a section: the first line that holds a term, else its beginning.
pub proof fn law_snippet_of_a_section(body: Seq<char>, terms: Seq<Seq<char>>, max: nat, k: int)
    ensures
        0 <= k < lines_of(body).len() && line_hit(lines_of(body)[k], terms) && (forall|j: int|
            0 <= j < k ==> !line_hit(#[trigger] lines_of(body)[j], terms)) ==> snippet(
            body,
            terms,
            max,
        ) == shortened(lines_of(body)[k], max),
        (forall|j: int|
            0 <= j < lines_of(body).len() ==> !line_hit(#[trigger] lines_of(body)[j], terms))
            ==> snippet(body, terms, max) == shortened(body, max),
{
    let ls = lines_of(body);
    lemma_hit_line(ls, terms, 0);
    if 0 <= k < ls.len() && line_hit(ls[k], terms) && (forall|j: int|
        0 <= j < k ==> !line_hit(#[trigger] ls[j], terms)) {
        if let Some(l) = hit_line(ls, terms, 0) {
            let i = choose|i: int|
                0 <= i < ls.len() && #[trigger] ls[i] == l && line_hit(l, terms) && forall|j: int|
                    0 <= j < i ==> !line_hit(#[trigger] ls[j], terms);
            if i < k {
                assert(!line_hit(ls[i], terms));
            }
            if k < i {
                assert(!line_hit(ls[k], terms));
            }
        } else {
            assert(!line_hit(ls[k], terms));
        }
    }
    if forall|j: int| 0 <= j < ls.len() ==> !line_hit(#[trigger] ls[j], terms) {
        if let Some(l) = hit_line(ls, terms, 0) {
            let i = choose|i: int|
                0 <= i < ls.len() && #[trigger] ls[i] == l && line_hit(l, terms) && forall|j: int|
                    0 <= j < i ==> !line_hit(#[trigger] ls[j], terms);
            assert(!line_hit(ls[i], terms));
        }
    }
}

/// A text is shown on one line; one that is too long is cut and says so.
pub proof fn law_long_snippets_are_cut(text: Seq<char>, max: nat)
    ensures
        text.len() <= max ==> shortened(text, max) == trimmed(replaced(text, '\n', ' ')),
        text.len() > max ==> shortened(text, max) == trimmed(
            replaced(text.take(max as int), '\n', ' '),
        ) + " …"@,
{
}

/// What is shown of a match: its rank, its note and heading, its score and a snippet.
pub proof fn law_matches_are_shown(
    cs: Seq<ChunkView>,
    terms: Seq<Seq<char>>,
    ms: Seq<RankedView>,
    m: nat,
)
    requires
        m <= ms.len(),
    ensures
        first_blocks(cs, terms, ms, m) == flat(
            Seq::new(m, |i: int| shown_match(cs[ms[i].at], terms, ms[i].score, i)),
        ),
    decreases m,
{
    reveal_strlit("");
    let rows = Seq::new(m, |i: int| shown_match(cs[ms[i].at], terms, ms[i].score, i));
    if m > 0 {
        let n = (m - 1) as nat;
        law_matches_are_shown(cs, terms, ms, n);
        let before = Seq::new(n, |i: int| shown_match(cs[ms[i].at], terms, ms[i].score, i));
        lemma_flat_push(before, rows[m - 1]);
        assert(rows =~= before.push(rows[m - 1]));
        assert(block(cs, terms, ms[m - 1], n) == rows[m - 1]);
    } else {
        assert(rows =~= Seq::<Seq<char>>::empty());
    }
}

/// A match as it is shown.
pub open spec fn shown_match(c: ChunkView, terms: Seq<Seq<char>>, score: Seq<char>, i: int) -> Seq<
    char,
> {
    "\n["@ + dec((i + 1) as nat) + "] "@ + c.path + " - "@ + c.heading + "  (score "@ + score + ")\n"@
        + snippet(c.body, terms, 280) + "\n"@
}

/// What an answer begins with: the query, and how many matches are shown of how many.
pub proof fn law_headline_counts_matches(q: SearchAskView, matches: nat)
    ensures
        headline(q, matches) == "knowledge_search - query "@ + quoted(q.query) + ", top "@ + dec(
            if matches > q.k {
                q.k as nat
            } else {
                matches
            },
        ) + " of "@ + dec(matches) + " matches\n"@,
{
}

// ---------------------------------------------------------------------------
// Writing

proof fn lemma_hashes(line: Seq<char>)
    ensures
        hashes(line) <= line.len(),
        forall|i: int| 0 <= i < hashes(line) ==> #[trigger] line[i] == '#',
        hashes(line) < line.len() ==> line[hashes(line) as int] != '#',
    decreases line.len(),
{
    if line.len() > 0 && line[0] == '#' {
        let t = line.drop_first();
        lemma_hashes(t);
        assert forall|i: int| 0 <= i < hashes(line) implies #[trigger] line[i] == '#' by {
            if i > 0 {
                assert(line[i] == t[i - 1]);
            }
        }
        if hashes(line) < line.len() {
            assert(line[hashes(line) as int] == t[hashes(t) as int]);
        }
    }
}

/// A heading begins with some `#`, one at least, and white space behind them.
pub proof fn law_headings_have_levels(line: Seq<char>, n: nat)
    ensures
        level(line) == Some(n) <==> 0 < n < line.len() && (forall|i: int|
            0 <= i < n ==> #[trigger] line[i] == '#') && (line[n as int] == ' ' || line[n as int]
            == '\t' || line[n as int] == '\n' || line[n as int] == '\r' || line[n as int]
            == '\u{c}'),
{
    lemma_hashes(line);
    let h = hashes(line);
    if 0 < n < line.len() && (forall|i: int| 0 <= i < n ==> #[trigger] line[i] == '#') && line[n as int]
        != '#' {
        if h < n {
            assert(line[h as int] == '#');
        }
        if n < h {
            assert(line[n as int] == '#');
        }
    }
}

proof fn lemma_heading_from(ls: Seq<Seq<char>>, heading: Seq<char>, i: nat)
    requires
        i <= ls.len(),
    ensures
        i <= heading_from(ls, heading, i) <= ls.len(),
        heading_from(ls, heading, i) < ls.len() ==> is_heading(
            ls[heading_from(ls, heading, i) as int],
            heading,
        ),
        forall|k: int|
            i <= k < heading_from(ls, heading, i) ==> !is_heading(#[trigger] ls[k], heading),
    decreases ls.len() - i,
{
    if i < ls.len() && !is_heading(ls[i as int], heading) {
        lemma_heading_from(ls, heading, i + 1);
    }
}

proof fn lemma_next_heading(ls: Seq<Seq<char>>, i: nat)
    requires
        i <= ls.len(),
    ensures
        i <= next_heading(ls, i) <= ls.len(),
        next_heading(ls, i) < ls.len() ==> level(ls[next_heading(ls, i) as int]) is Some,
        forall|k: int| i <= k < next_heading(ls, i) ==> level(#[trigger] ls[k]) is None,
    decreases ls.len() - i,
{
    if i < ls.len() && level(ls[i as int]) is None {
        lemma_next_heading(ls, i + 1);
    }
}

proof fn lemma_ended(ls: Seq<Seq<char>>, a: int, b: int)
    requires
        0 <= a <= b <= ls.len(),
    ensures
        ended(ls, a, b) == flat(Seq::new((b - a) as nat, |i: int| ls[a + i] + "\n"@)),
    decreases b - a,
{
    reveal_strlit("");
    let rows = Seq::new((b - a) as nat, |i: int| ls[a + i] + "\n"@);
    if a < b {
        lemma_ended(ls, a, b - 1);
        let before = Seq::new((b - 1 - a) as nat, |i: int| ls[a + i] + "\n"@);
        lemma_flat_push(before, ls[b - 1] + "\n"@);
        assert(rows =~= before.push(ls[b - 1] + "\n"@));
        assert(ended(ls, a, b - 1) + ls[b - 1] + "\n"@ =~= ended(ls, a, b - 1) + (ls[b - 1]
            + "\n"@));
    } else {
        assert(rows =~= Seq::<Seq<char>>::empty());
    }
}

/// Lines `a` to `b`, each with its line feed.
pub open spec fn lines_between(ls: Seq<Seq<char>>, a: int, b: int) -> Seq<char> {
    flat(Seq::new((b - a) as nat, |i: int| ls[a + i] + "\n"@))
}

/// Replacing a section leaves the lines before its heading, the heading, and the lines from
/// the next heading on; between them stands the new text. Only the first section of a
/// heading is replaced.
pub proof fn law_section_is_replaced(
    src: Seq<char>,
    heading: Seq<char>,
    body: Seq<char>,
    a: int,
    b: int,
)
    requires
        0 <= a < b <= lines_of(src).len(),
        is_heading(lines_of(src)[a], heading),
        forall|k: int| 0 <= k < a ==> !is_heading(#[trigger] lines_of(src)[k], heading),
        b < lines_of(src).len() ==> level(lines_of(src)[b]) is Some,
        forall|k: int| a < k < b ==> level(#[trigger] lines_of(src)[k]) is None,
    ensures
        section_replaced(src, heading, body) == Some(
            trimmed_end(
                lines_between(lines_of(src), 0, a) + (lines_of(src)[a] + "\n\n"@ + body + "\n"@)
                    + lines_between(lines_of(src), b, lines_of(src).len() as int),
            ) + "\n"@,
        ),
{
    let ls = lines_of(src);
    lemma_heading_from(ls, heading, 0);
    let h = heading_from(ls, heading, 0);
    if h < a {
        assert(!is_heading(ls[h as int], heading));
    }
    if a < h {
        assert(!is_heading(ls[a], heading));
    }
    assert(h == a);
    lemma_next_heading(ls, (a + 1) as nat);
    let n = next_heading(ls, (a + 1) as nat);
    if n < b {
        assert(level(ls[n as int]) is None);
    }
    if b < n {
        assert(level(ls[b]) is None);
    }
    lemma_ended(ls, 0, a);
    lemma_ended(ls, b, ls.len() as int);
}

/// A section that is not there is not replaced.
pub proof fn law_missing_section(src: Seq<char>, heading: Seq<char>, body: Seq<char>)
    requires
        forall|k: int|
            0 <= k < lines_of(src).len() ==> !is_heading(#[trigger] lines_of(src)[k], heading),
    ensures
        section_replaced(src, heading, body) is None,
{
    let ls = lines_of(src);
    lemma_heading_from(ls, heading, 0);
    let h = heading_from(ls, heading, 0);
    if h < ls.len() {
        assert(!is_heading(ls[h as int], heading));
    }
}

/// How a note is written: a file is replaced as a whole, a section is appended, or put in
/// the place of the one with its heading; and a file that is not there is begun.
pub proof fn law_how_notes_are_written(
    e: EntryView,
    body: Seq<char>,
    j: Json,
    existing: Option<Seq<char>>,
)
    ensures
        ({
            let r = write_result(e, body, j, existing);
            let one = "# "@ + e.heading + "\n\n"@ + body + "\n"@;
            let fresh = front_matter(e.path, j) + one;
            let whole = body.len() > 0 && (starts(body, "---"@) || body[0] == '#');
            match e.mode {
                Mode::ReplaceFile => r.1 == "replaced file"@ && r.0 == (if whole {
                    body + "\n"@
                } else {
                    fresh
                }),
                Mode::AppendSection => match existing {
                    Some(src) => r == (src + "\n\n"@ + one, "appended section"@),
                    None => r == (fresh, "created file"@),
                },
                Mode::UpsertSection | Mode::Pitfall => match existing {
                    Some(src) => match section_replaced(src, e.heading, body) {
                        Some(t) => r == (t, "updated section"@),
                        None => r == (src + "\n\n"@ + one, "appended section"@),
                    },
                    None => r == (fresh, "created file"@),
                },
            }
        }),
{
    reveal_strlit("#");
    reveal_strlit("---");
    assert("#"@ =~= seq!['#']);
    assert("---"@.len() == 3);
    if body.len() > 0 {
        assert(body.take(1) =~= seq![body[0]]);
        assert(seq![body[0]][0] == body[0] && seq!['#'][0] == '#');
    }
}

/// A rule file begins with its front matter, and no other note does.
pub proof fn law_front_matter(path: Seq<char>, j: Json)
    ensures
        !ends(path, ".mdc"@) ==> front_matter(path, j).len() == 0,
        ends(path, ".mdc"@) ==> front_matter(path, j) == "---\ndescription: "@ + trimmed(
            str_or(j, "description"@, "Agent-maintained project notes"@),
        ) + "\nalwaysApply: "@ + (if bool_or(j, "always_apply"@, false) {
            "true"@
        } else {
            "false"@
        }) + "\n\n---\n\n"@,
{
    reveal_strlit("");
}

/// What an entry needs: a path and a known mode, a heading and a text, or, for a pitfall,
/// its symptom, cause and fix.
pub proof fn law_what_an_entry_needs(j: Json)
    ensures
        ({
            let mode = str_or(j, "mode"@, "upsert_section"@);
            let known = mode == "upsert_section"@ || mode == "append_section"@ || mode
                == "replace_file"@;
            &&& mode == "pitfall"@ ==> (entry_of(j) is Ok <==> text_at(j, "path"@) is Some && text_at(
                j,
                "symptom"@,
            ) is Some && text_at(j, "root_cause"@) is Some && text_at(j, "fix"@) is Some)
            &&& mode != "pitfall"@ ==> (entry_of(j) is Ok <==> text_at(j, "path"@) is Some && text_at(
                j,
                "heading"@,
            ) is Some && text_at(j, "body"@) is Some && known)
            &&& entry_of(j) matches Ok(e) ==> {
                &&& Some(e.path) == text_at(j, "path"@)
                &&& mode == "pitfall"@ <==> e.mode == Mode::Pitfall
                &&& mode == "append_section"@ <==> e.mode == Mode::AppendSection
                &&& mode == "replace_file"@ <==> e.mode == Mode::ReplaceFile
                &&& mode == "upsert_section"@ <==> e.mode == Mode::UpsertSection
                &&& mode != "pitfall"@ ==> Some(e.heading) == text_at(j, "heading"@) && Some(e.body)
                    == text_at(j, "body"@) && e.tag is None
                &&& mode == "pitfall"@ ==> e.body == "**Symptom:** "@ + text_at(
                    j,
                    "symptom"@,
                )->Some_0 + "\n\n**Root cause:** "@ + text_at(j, "root_cause"@)->Some_0
                    + "\n\n**Fix:** "@ + text_at(j, "fix"@)->Some_0 + "\n"@
            }
        }),
{
    reveal_strlit("upsert_section");
    reveal_strlit("append_section");
    reveal_strlit("replace_file");
    reveal_strlit("pitfall");
    assert("upsert_section"@.len() == 14);
    assert("append_section"@.len() == 14);
    assert("replace_file"@.len() == 12);
    assert("pitfall"@.len() == 7);
    assert("upsert_section"@[0] == 'u');
    assert("append_section"@[0] == 'a');
}

/// Where notes may be written: below three directories, in files of three kinds.
pub proof fn law_where_notes_are_written(path: Seq<char>)
    ensures
        ({
            let e = split_on(path, '.').last();
            path_check(path) is Ok <==> (below(path, ".cursor/rules"@) || below(path, "docs"@)
                || below(path, ".wordkeep/notes"@)) && (e == "md"@ || e == "mdc"@ || e
                == "markdown"@)
        }),
{
}

/// A pitfall with tests says how they are run.
pub proof fn law_pitfall_says_how_to_verify(e: EntryView, hint: Seq<char>)
    ensures
        e.tag is None ==> written_body(e, hint) == e.body,
        e.tag is Some ==> written_body(e, hint) == e.body + "\n**Verify:** `"@ + hint + "`\n"@,
{
}

/// What is answered to a note that was written.
pub proof fn law_written_note_is_answered(e: EntryView, action: Seq<char>, note: Seq<char>)
    ensures
        ({
            let rest = action + ": "@ + e.path + " (heading "@ + quoted(e.heading) + ", "@ + dec(
                blen(note),
            ) + " bytes)"@;
            &&& e.mode == Mode::Pitfall ==> write_answer(e, action, note)
                == "knowledge_upsert - pitfall "@ + rest
            &&& e.mode != Mode::Pitfall ==> write_answer(e, action, note) == "knowledge_upsert - "@
                + rest
        }),
{
    reveal_strlit("knowledge_upsert - ");
    reveal_strlit("pitfall ");
    reveal_strlit("knowledge_upsert - pitfall ");
    reveal_strlit("");
    assert("knowledge_upsert - "@ + "pitfall "@ =~= "knowledge_upsert - pitfall "@);
    let rest = action + ": "@ + e.path + " (heading "@ + quoted(e.heading) + ", "@ + dec(
        blen(note),
    ) + " bytes)"@;
    let w = write_answer(e, action, note);
    if e.mode == Mode::Pitfall {
        assert(w =~= "knowledge_upsert - "@ + "pitfall "@ + rest);
    } else {
        assert(w =~= "knowledge_upsert - "@ + rest);
    }
}

} // verus!
