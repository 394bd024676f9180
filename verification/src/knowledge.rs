//! Project notes in Markdown: terms, and the sections that notes are cut into.
use vstd::prelude::*;
use crate::json::{add_member, build, get, get_str, members, no_members, record, str_value, Datum, Json};
use crate::json::lemma_record_get;
use crate::smap::{at, lemma_at_put, put, StrMap};
use crate::text::{alphanumeric, blen, copy, is_alphanumeric, is_blank, lines, lines_of, lowercase, same};
use crate::text::{size, split_by, strip_prefix, strs, to_chars, to_lower, trim, trim_start_of, trimmed};
use crate::text::{behind, trimmed_start_of};

pub mod embed;
pub mod retrieval;
pub mod search;
pub mod upsert;

verus! {

// ---------------------------------------------------------------------------
// Terms

/// Words that say nothing about what a text is about.
pub open spec fn stop_word(s: Seq<char>) -> bool {
    ||| s == "the"@ || s == "and"@ || s == "for"@ || s == "with"@ || s == "that"@
    ||| s == "this"@ || s == "from"@ || s == "are"@ || s == "was"@ || s == "but"@
    ||| s == "not"@ || s == "you"@ || s == "your"@ || s == "use"@ || s == "using"@
    ||| s == "into"@ || s == "when"@ || s == "which"@ || s == "have"@ || s == "has"@
    ||| s == "its"@ || s == "can"@
}

fn is_stop_word(s: &str) -> (r: bool)
    ensures
        r == stop_word(s@),
{
    same(s, "the") || same(s, "and") || same(s, "for") || same(s, "with") || same(s, "that")
        || same(s, "this") || same(s, "from") || same(s, "are") || same(s, "was") || same(s, "but")
        || same(s, "not") || same(s, "you") || same(s, "your") || same(s, "use") || same(s, "using")
        || same(s, "into") || same(s, "when") || same(s, "which") || same(s, "have")
        || same(s, "has") || same(s, "its") || same(s, "can")
}

/// Characters that stand between words.
pub open spec fn gap() -> spec_fn(char) -> bool {
    |c: char| !alphanumeric(c)
}

/// The terms among the first `n` words: words of two bytes or more, in lower
/// case, that are no stop words.
pub open spec fn terms_among(words: Seq<Seq<char>>, n: nat) -> Seq<Seq<char>>
    decreases n,
{
    if n == 0 {
        Seq::empty()
    } else {
        let before = terms_among(words, (n - 1) as nat);
        let w = words[n - 1];
        if blen(w) >= 2 && !stop_word(lowercase(w)) {
            before.push(lowercase(w))
        } else {
            before
        }
    }
}

/// The terms of a text.
pub open spec fn terms_of(text: Seq<char>) -> Seq<Seq<char>> {
    terms_among(split_by(text, gap()), split_by(text, gap()).len())
}

fn split_words(s: &str) -> (r: Vec<String>)
    ensures
        strs(r@) == split_by(s@, gap()),
{
    let v = to_chars(s);
    let ghost p = gap();
    let mut out: Vec<String> = Vec::new();
    let mut cur = String::new();
    assert(split_by(s@.take(0), p) =~= seq![Seq::<char>::empty()]);
    for i in 0..v.len()
        invariant
            v@ == s@,
            p == gap(),
            split_by(s@.take(i as int), p) == strs(out@).push(cur@),
    {
        let x: char = v[i];
        proof {
            assert(s@.take(i + 1).drop_last() =~= s@.take(i as int));
            assert(s@.take(i + 1).last() == x);
            assert(strs(out@).push(cur@).drop_last() =~= strs(out@));
        }
        let ghost before = out@;
        if !is_alphanumeric(x) {
            out.push(cur);
            cur = String::new();
            assert(strs(out@) =~= strs(before).push(out@.last()@));
        } else {
            cur.push(x);
        }
    }
    assert(s@.take(s@.len() as int) =~= s@);
    let ghost before = out@;
    out.push(cur);
    assert(strs(out@) =~= strs(before).push(out@.last()@));
    out
}

/// The terms of a text, in order.
pub fn tokenize(text: &str) -> (r: Vec<String>)
    ensures
        strs(r@) == terms_of(text@),
{
    let words = split_words(text);
    let ghost ws = strs(words@);
    assert(ws.len() == words@.len());
    let mut out: Vec<String> = Vec::new();
    assert(strs(out@) =~= Seq::<Seq<char>>::empty());
    for i in 0..words.len()
        invariant
            ws == strs(words@),
            strs(out@) == terms_among(ws, i as nat),
    {
        assert(ws[i as int] == words@[i as int]@);
        if size(words[i].as_str()) >= 2 {
            let t = to_lower(words[i].as_str());
            if !is_stop_word(t.as_str()) {
                let ghost before = out@;
                out.push(t);
                assert(strs(out@) =~= strs(before).push(t@));
            }
        }
    }
    out
}

/// How often each of the first `n` terms occurs among them.
pub open spec fn counts(terms: Seq<Seq<char>>, n: nat) -> Seq<(Seq<char>, u64)>
    decreases n,
{
    if n == 0 {
        Seq::empty()
    } else {
        let before = counts(terms, (n - 1) as nat);
        let t = terms[n - 1];
        put(
            before,
            t,
            match at(before, t) {
                Some(k) => (k + 1) as u64,
                None => 1,
            },
        )
    }
}

/// The number of times that a term occurs among the first `n`.
pub open spec fn occurrences(terms: Seq<Seq<char>>, n: nat, t: Seq<char>) -> nat
    decreases n,
{
    if n == 0 {
        0
    } else {
        occurrences(terms, (n - 1) as nat, t) + if terms[n - 1] == t {
            1nat
        } else {
            0nat
        }
    }
}

proof fn lemma_occurrences_bound(terms: Seq<Seq<char>>, n: nat, t: Seq<char>)
    ensures
        occurrences(terms, n, t) <= n,
    decreases n,
{
    if n > 0 {
        lemma_occurrences_bound(terms, (n - 1) as nat, t);
    }
}

/// A term is counted as often as it occurs, and what does not occur is not
/// counted.
pub proof fn law_counts_are_occurrences(terms: Seq<Seq<char>>, n: nat, t: Seq<char>)
    requires
        n <= terms.len(),
        n <= u64::MAX,
    ensures
        at(counts(terms, n), t) == (if occurrences(terms, n, t) == 0 {
            None
        } else {
            Some(occurrences(terms, n, t) as u64)
        }),
        crate::smap::ascending(counts(terms, n)),
    decreases n,
{
    if n > 0 {
        let m = (n - 1) as nat;
        law_counts_are_occurrences(terms, m, t);
        law_counts_are_occurrences(terms, m, terms[n - 1]);
        lemma_occurrences_bound(terms, m, terms[n - 1]);
        lemma_occurrences_bound(terms, n, t);
        let before = counts(terms, m);
        let v: u64 = match at(before, terms[n - 1]) {
            Some(k) => (k + 1) as u64,
            None => 1,
        };
        lemma_at_put(before, terms[n - 1], v, t);
        crate::smap::lemma_put_ascending(before, terms[n - 1], v);
    }
}

/// How often each term of a text occurs in it.
pub fn term_freqs(text: &str) -> (r: StrMap<u64>)
    ensures
        r@ == counts(terms_of(text@), terms_of(text@).len()),
        r.wf(),
{
    let ts = tokenize(text);
    count_terms(&ts)
}

fn count_terms(ts: &Vec<String>) -> (r: StrMap<u64>)
    ensures
        r@ == counts(strs(ts@), strs(ts@).len()),
        r.wf(),
{
    let ghost all = strs(ts@);
    assert(all.len() == ts@.len());
    let mut m: StrMap<u64> = StrMap::new();
    for i in 0..ts.len()
        invariant
            all == strs(ts@),
            all.len() == ts@.len(),
            m.wf(),
            m@ == counts(all, i as nat),
    {
        assert(ts@.len() == ts.len());
        assert(all[i as int] == ts@[i as int]@);
        let k: u64 = match m.get(ts[i].as_str()) {
            Some(k) => *k,
            None => 0,
        };
        proof {
            law_counts_are_occurrences(all, i as nat, all[i as int]);
            lemma_occurrences_bound(all, i as nat, all[i as int]);
        }
        m.insert(ts[i].as_str(), k + 1);
    }
    m
}

/// The sum of the counts.
pub open spec fn total(s: Seq<(Seq<char>, u64)>) -> nat
    decreases s.len(),
{
    if s.len() == 0 {
        0
    } else {
        s[0].1 as nat + total(s.drop_first())
    }
}

proof fn lemma_total_put(s: Seq<(Seq<char>, u64)>, key: Seq<char>, v: u64)
    requires
        crate::smap::ascending(s),
    ensures
        total(put(s, key, v)) == total(s) + v - (match at(s, key) {
            Some(k) => k as int,
            None => 0,
        }),
    decreases s.len(),
{
    reveal_with_fuel(total, 2);
    let r = put(s, key, v);
    if s.len() == 0 {
        assert(r.drop_first() =~= Seq::<(Seq<char>, u64)>::empty());
    } else if s[0].0 == key {
        assert(r.drop_first() =~= s.drop_first());
    } else if crate::text::lex_lt(key, s[0].0) {
        assert(r.drop_first() =~= s);
        assert forall|j: int| 0 <= j < s.len() implies (#[trigger] s[j]).0 != key by {
            crate::text::lemma_lex_total(key, s[0].0);
            if j > 0 {
                assert(crate::text::lex_lt(s[0].0, s[j].0));
                crate::text::lemma_lex_trans(key, s[0].0, s[j].0);
                crate::text::lemma_lex_total(key, s[j].0);
            }
        }
        crate::smap::lemma_at_index(s, key, s.len() as int);
    } else {
        assert(crate::smap::ascending(s.drop_first())) by {
            let d = s.drop_first();
            assert forall|i: int, j: int| 0 <= i < j < d.len() implies crate::text::lex_lt(
                (#[trigger] d[i]).0,
                (#[trigger] d[j]).0,
            ) by {
                assert(crate::text::lex_lt(s[i + 1].0, s[j + 1].0));
            }
        }
        lemma_total_put(s.drop_first(), key, v);
        assert(r.drop_first() =~= put(s.drop_first(), key, v));
        assert(r[0] == s[0]);
    }
}

/// The counts of the terms sum up to the number of terms.
pub proof fn law_counts_sum_up(terms: Seq<Seq<char>>, n: nat)
    requires
        n <= terms.len(),
        n <= u64::MAX,
    ensures
        total(counts(terms, n)) == n,
    decreases n,
{
    if n > 0 {
        let m = (n - 1) as nat;
        law_counts_sum_up(terms, m);
        law_counts_are_occurrences(terms, m, terms[n - 1]);
        lemma_occurrences_bound(terms, m, terms[n - 1]);
        let before = counts(terms, m);
        let v: u64 = match at(before, terms[n - 1]) {
            Some(k) => (k + 1) as u64,
            None => 1,
        };
        lemma_total_put(before, terms[n - 1], v);
    }
}

// ---------------------------------------------------------------------------
// Sections

/// One section of a note, with how often its terms occur.
pub struct Chunk {
    pub path: String,
    pub heading: String,
    pub body: String,
    pub tf: StrMap<u64>,
    pub len: u64,
}

#[verifier::ext_equal]
pub struct ChunkView {
    pub path: Seq<char>,
    pub heading: Seq<char>,
    pub body: Seq<char>,
    pub tf: Seq<(Seq<char>, u64)>,
    pub len: u64,
}

impl View for Chunk {
    type V = ChunkView;

    open spec fn view(&self) -> ChunkView {
        ChunkView {
            path: self.path@,
            heading: self.heading@,
            body: self.body@,
            tf: self.tf@,
            len: self.len,
        }
    }
}

pub open spec fn chunk_views(v: Seq<Chunk>) -> Seq<ChunkView> {
    Seq::new(v.len(), |i: int| v[i]@)
}

/// The section with a heading and a body; nothing where it holds no term.
pub open spec fn chunk_of(path: Seq<char>, heading: Seq<char>, body: Seq<char>) -> Option<ChunkView> {
    let ts = terms_of(heading + "\n"@ + body);
    if ts.len() == 0 {
        None
    } else {
        Some(ChunkView { path, heading, body, tf: counts(ts, ts.len()), len: ts.len() as u64 })
    }
}

pub open spec fn opt_chunk(c: Option<Chunk>) -> Option<ChunkView> {
    match c {
        Some(c) => Some(c@),
        None => None,
    }
}

fn make_chunk(path: &str, heading: &str, body: &str) -> (r: Option<Chunk>)
    ensures
        opt_chunk(r) == chunk_of(path@, heading@, body@),
{
    let mut text = copy(heading);
    text.append("\n");
    text.append(body);
    let ts = tokenize(text.as_str());
    assert(strs(ts@).len() == ts@.len());
    if ts.len() == 0 {
        return None;
    }
    let tf = count_terms(&ts);
    assert(ts@.len() == ts.len());
    Some(
        Chunk {
            path: copy(path),
            heading: copy(heading),
            body: copy(body),
            tf,
            len: ts.len() as u64,
        },
    )
}

/// The sections found, with the next one if it says anything.
pub open spec fn with_section(
    found: Seq<ChunkView>,
    path: Seq<char>,
    heading: Seq<char>,
    buf: Seq<char>,
) -> Seq<ChunkView> {
    let body = trimmed(buf);
    if body.len() == 0 {
        found
    } else {
        match chunk_of(path, heading, body) {
            Some(c) => found.push(c),
            None => found,
        }
    }
}

fn push_chunk(out: &mut Vec<Chunk>, path: &str, heading: &str, buf: &str)
    ensures
        chunk_views(final(out)@) == with_section(
            chunk_views(old(out)@),
            path@,
            heading@,
            buf@,
        ),
{
    let body = trim(buf);
    if is_blank(body.as_str()) {
        return;
    }
    match make_chunk(path, heading, body.as_str()) {
        Some(c) => {
            let ghost before = out@;
            out.push(c);
            assert(chunk_views(out@) =~= chunk_views(before).push(c@));
        },
        None => {},
    }
}

/// The state of cutting a note into sections.
#[verifier::ext_equal]
pub struct Cutting {
    pub heading: Seq<char>,
    pub buf: Seq<char>,
    pub front: bool,
    pub begun: bool,
    pub found: Seq<ChunkView>,
}

pub open spec fn uncut() -> Cutting {
    Cutting {
        heading: "(intro)"@,
        buf: ""@,
        front: false,
        begun: false,
        found: Seq::empty(),
    }
}

/// The heading on a line, of which the first `#` is taken off.
pub open spec fn heading_text(rest: Seq<char>) -> Seq<char> {
    let h = trimmed(trimmed_start_of(rest, '#'));
    if h.len() == 0 {
        "(section)"@
    } else {
        h
    }
}

/// Reads a line outside of front matter.
pub open spec fn cut_body_line(c: Cutting, path: Seq<char>, line: Seq<char>) -> Cutting {
    match behind(line, "#"@) {
        Some(rest) => Cutting {
            heading: heading_text(rest),
            buf: ""@,
            front: false,
            begun: true,
            found: with_section(c.found, path, c.heading, c.buf),
        },
        None => Cutting { buf: c.buf + line + "\n"@, front: false, begun: true, ..c },
    }
}

/// Reads a line. Blank lines at the top are skipped; a note that begins with
/// `---` has front matter up to the next such line, which is skipped too.
pub open spec fn cut_line(c: Cutting, path: Seq<char>, line: Seq<char>) -> Cutting {
    let mark = trimmed(line) == "---"@;
    if !c.begun && trimmed(line).len() == 0 {
        c
    } else if !c.begun && mark {
        Cutting { front: true, begun: true, ..c }
    } else if c.begun && c.front {
        Cutting { front: !mark, ..c }
    } else {
        cut_body_line(c, path, line)
    }
}

/// Reads the first `n` lines.
pub open spec fn cut_lines(path: Seq<char>, ls: Seq<Seq<char>>, n: nat) -> Cutting
    decreases n,
{
    if n == 0 {
        uncut()
    } else {
        cut_line(cut_lines(path, ls, (n - 1) as nat), path, ls[n - 1])
    }
}

/// The sections of a note.
pub open spec fn chunks_of(path: Seq<char>, src: Seq<char>) -> Seq<ChunkView> {
    let c = cut_lines(path, lines_of(src), lines_of(src).len());
    with_section(c.found, path, c.heading, c.buf)
}

/// Splits a note into sections at its headings and adds them to `out`. Front
/// matter is left out.
pub fn chunk_file(path: &str, src: &str, out: &mut Vec<Chunk>)
    ensures
        chunk_views(final(out)@) == chunk_views(old(out)@) + chunks_of(path@, src@),
{
    let cut = cut_file(path, src);
    let ghost first = chunk_views(out@);
    let ghost all = chunk_views(cut@);
    let mut rest = cut;
    out.append(&mut rest);
    assert(chunk_views(out@) =~= first + all);
}

fn cut_file(path: &str, src: &str) -> (r: Vec<Chunk>)
    ensures
        chunk_views(r@) == chunks_of(path@, src@),
{
    let ls = lines(src);
    let ghost lv = strs(ls@);
    assert(lv.len() == ls@.len());
    let mut out: Vec<Chunk> = Vec::new();
    let mut heading = copy("(intro)");
    let mut buf = copy("");
    let mut front: bool = false;
    let mut begun: bool = false;
    assert(chunk_views(out@) =~= Seq::<ChunkView>::empty());
    for i in 0..ls.len()
        invariant
            lv == strs(ls@),
            front ==> begun,
            cut_lines(path@, lv, i as nat) == (Cutting {
                heading: heading@,
                buf: buf@,
                front,
                begun,
                found: chunk_views(out@),
            }),
    {
        assert(lv[i as int] == ls@[i as int]@);
        let line = ls[i].as_str();
        let t = trim(line);
        if !begun && is_blank(t.as_str()) {
        } else if !begun && same(t.as_str(), "---") {
            begun = true;
            front = true;
        } else if begun && front {
            front = !same(t.as_str(), "---");
        } else {
            begun = true;
            front = false;
            match strip_prefix(line, "#") {
                Some(rest) => {
                    push_chunk(&mut out, path, heading.as_str(), buf.as_str());
                    buf = copy("");
                    let h = trim(trim_start_of(rest.as_str(), '#').as_str());
                    heading = if is_blank(h.as_str()) {
                        copy("(section)")
                    } else {
                        h
                    };
                },
                None => {
                    buf.append(line);
                    buf.append("\n");
                },
            }
        }
    }
    push_chunk(&mut out, path, heading.as_str(), buf.as_str());
    out
}

// ---------------------------------------------------------------------------
// Keeping sections

/// What is kept of a section.
pub open spec fn chunk_json(c: ChunkView) -> Json {
    record(chunk_members(c))
}

pub open spec fn chunk_members(c: ChunkView) -> Seq<(Seq<char>, Json)> {
    seq![
        ("path"@, Json::Str(c.path)),
        ("heading"@, Json::Str(c.heading)),
        ("body"@, Json::Str(c.body)),
    ]
}

pub fn chunk_to_value(c: &Chunk) -> (r: Datum)
    ensures
        r@ == chunk_json(c@),
{
    let mut ms = no_members();
    add_member(&mut ms, "path", str_value(c.path.as_str()));
    add_member(&mut ms, "heading", str_value(c.heading.as_str()));
    add_member(&mut ms, "body", str_value(c.body.as_str()));
    assert(members(ms@) =~= chunk_members(c@));
    build(ms)
}

/// The section that was kept. Its terms are counted anew.
pub open spec fn kept_chunk(j: Json) -> Option<ChunkView> {
    match (get(j, "path"@), get(j, "heading"@), get(j, "body"@)) {
        (Some(Json::Str(p)), Some(Json::Str(h)), Some(Json::Str(b))) => chunk_of(p, h, b),
        _ => None,
    }
}

pub fn chunk_from_value(v: &Datum) -> (r: Option<Chunk>)
    ensures
        opt_chunk(r) == kept_chunk(v@),
{
    let path = match get_str(v, "path") {
        Some(s) => s,
        None => {
            return None;
        },
    };
    let heading = match get_str(v, "heading") {
        Some(s) => s,
        None => {
            return None;
        },
    };
    let body = match get_str(v, "body") {
        Some(s) => s,
        None => {
            return None;
        },
    };
    make_chunk(path.as_str(), heading.as_str(), body.as_str())
}

/// A section that was made as `chunk_of` makes it.
pub open spec fn sound_chunk(c: ChunkView) -> bool {
    chunk_of(c.path, c.heading, c.body) == Some(c)
}

proof fn lemma_cut_sound(path: Seq<char>, ls: Seq<Seq<char>>, n: nat)
    ensures
        forall|i: int|
            0 <= i < cut_lines(path, ls, n).found.len() ==> good_section(
                path,
                #[trigger] cut_lines(path, ls, n).found[i],
            ),
    decreases n,
{
    if n > 0 {
        lemma_cut_sound(path, ls, (n - 1) as nat);
        let c = cut_lines(path, ls, (n - 1) as nat);
        crate::text::lemma_trim_idempotent(c.buf);
    }
}

/// A section of a note at a path: it says something, has no white space around
/// its body, and carries the counts of its own terms.
pub open spec fn good_section(path: Seq<char>, c: ChunkView) -> bool {
    &&& c.path == path
    &&& sound_chunk(c)
    &&& c.body.len() > 0
    &&& trimmed(c.body) == c.body
}

/// Every section of a note is one of that note, says something, has no white
/// space around its body, and carries the counts of its own terms.
pub proof fn law_sections_are_sound(path: Seq<char>, src: Seq<char>)
    ensures
        forall|i: int|
            0 <= i < chunks_of(path, src).len() ==> good_section(
                path,
                #[trigger] chunks_of(path, src)[i],
            ),
{
    let ls = lines_of(src);
    lemma_cut_sound(path, ls, ls.len());
    let c = cut_lines(path, ls, ls.len());
    crate::text::lemma_trim_idempotent(c.buf);
    assert forall|i: int| 0 <= i < chunks_of(path, src).len() implies good_section(
        path,
        #[trigger] chunks_of(path, src)[i],
    ) by {
        if i < c.found.len() {
            assert(chunks_of(path, src)[i] == c.found[i]);
        }
    }
}

/// A kept section comes back as it was, counts included.
pub proof fn law_kept_section_comes_back(c: ChunkView)
    requires
        sound_chunk(c),
    ensures
        kept_chunk(chunk_json(c)) == Some(c),
{
    reveal_strlit("path");
    reveal_strlit("heading");
    reveal_strlit("body");
    assert("path"@[0] == 'p' && "body"@[0] == 'b' && "heading"@[0] == 'h');
    let ms = chunk_members(c);
    lemma_record_get(ms, 0);
    lemma_record_get(ms, 1);
    lemma_record_get(ms, 2);
    assert(get(chunk_json(c), "path"@) == Some(Json::Str(c.path)));
    assert(get(chunk_json(c), "heading"@) == Some(Json::Str(c.heading)));
    assert(get(chunk_json(c), "body"@) == Some(Json::Str(c.body)));
}

} // verus!
