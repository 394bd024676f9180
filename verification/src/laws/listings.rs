//! What the lists of tests and the outlines of files show.
use vstd::prelude::*;
use crate::json::{get, str_or, strings_at, u64_or, Json};
use crate::lang::Lang;
use crate::laws::lists::{lemma_contains_add, lemma_contains_push};
use crate::laws::primitives::law_distinct_names;
use crate::laws::texts::{flat, lemma_flat_push};
use crate::outline::{
    batch_from, batch_of, outline_of, request_of, row_of, starts_upto, text_outline, OpenedView,
    RequestView,
};
use crate::repo_map::symbols_in;
use crate::test_map::{
    bare_tags, file_tags, first_rows, last_quote, last_quoted, line_tags, rows_note, tag_among,
    tag_parts, tagged, tags_of, tags_upto, test_ask_of, test_row, tests_text, TestAskView,
    TestFileView,
};
use crate::text::{
    blen, dec, holds, joined, lines_of, listed, lowered, padded_left, padded_right, split_on,
    trimmed, trimmed_end_of, trimmed_names, trimmed_start_of,
};

verus! {

// ---------------------------------------------------------------------------
// Tags

/// A text without quotes.
pub open spec fn unquoted(s: Seq<char>) -> bool {
    forall|i: int| 0 <= i < s.len() ==> #[trigger] s[i] != '"'
}

proof fn lemma_last_quote(s: Seq<char>, n: nat)
    requires
        n <= s.len(),
    ensures
        match last_quote(s, n) {
            Some(i) => 0 <= i < n && s[i] == '"' && forall|j: int|
                i < j < n ==> #[trigger] s[j] != '"',
            None => forall|j: int| 0 <= j < n ==> #[trigger] s[j] != '"',
        },
    decreases n,
{
    if n > 0 && s[n - 1] != '"' {
        lemma_last_quote(s, (n - 1) as nat);
    }
}

/// The last quoted part of a line stands between its last two quotes.
pub proof fn law_last_quoted_part(a: Seq<char>, q: Seq<char>, b: Seq<char>)
    requires
        unquoted(q),
        unquoted(b),
    ensures
        last_quoted(a + seq!['"'] + q + seq!['"'] + b) == Some(q),
{
    let s = a + seq!['"'] + q + seq!['"'] + b;
    let j = a.len() as int;
    let i = j + 1 + q.len();
    assert(s[j] == '"' && s[i] == '"');
    assert forall|k: int| i < k < s.len() implies #[trigger] s[k] != '"' by {
        assert(s[k] == b[k - i - 1]);
    }
    assert forall|k: int| j < k < i implies #[trigger] s[k] != '"' by {
        assert(s[k] == q[k - j - 1]);
    }
    lemma_last_quote(s, s.len());
    assert(last_quote(s, s.len()) == Some(i));
    lemma_last_quote(s, i as nat);
    assert(last_quote(s, i as nat) == Some(j));
    assert(s.subrange(j + 1, i) =~= q);
}

/// Whether `t` is one of the tags in brackets: what stands before a closing bracket
/// or at the end, without opening brackets and white space around.
pub open spec fn bracketed(q: Seq<char>, t: Seq<char>) -> bool {
    t.len() > 0 && exists|i: int|
        0 <= i < split_on(q, ']').len() && t == trimmed(
            trimmed_start_of(#[trigger] split_on(q, ']')[i], '['),
        )
}

/// Whether a line names the tag `t` for a test.
pub open spec fn names_tag(line: Seq<char>, t: Seq<char>) -> bool {
    holds(line, "TEST_CASE"@) && (last_quoted(line) matches Some(q) && q.len() > 0 && q[0] == '['
        && bracketed(q, t))
}

proof fn lemma_tag_parts(parts: Seq<Seq<char>>, n: nat, t: Seq<char>)
    requires
        n <= parts.len(),
    ensures
        tag_parts(parts, n).contains(t) <==> t.len() > 0 && exists|i: int|
            0 <= i < n && t == trimmed(trimmed_start_of(#[trigger] parts[i], '[')),
    decreases n,
{
    if n > 0 {
        let m = (n - 1) as nat;
        lemma_tag_parts(parts, m, t);
        let x = trimmed(trimmed_start_of(parts[n - 1], '['));
        lemma_contains_push(tag_parts(parts, m), x, t);
        if tag_parts(parts, m).contains(t) {
            let i = choose|i: int|
                0 <= i < m && t == trimmed(trimmed_start_of(#[trigger] parts[i], '['));
            assert(t == trimmed(trimmed_start_of(parts[i], '[')));
        }
    }
}

proof fn lemma_line_tags(line: Seq<char>, t: Seq<char>)
    ensures
        line_tags(line).contains(t) <==> names_tag(line, t),
{
    if let Some(q) = last_quoted(line) {
        let parts = split_on(q, ']');
        lemma_tag_parts(parts, parts.len(), t);
        reveal_strlit("[");
        assert("["@ =~= seq!['[']);
        if q.len() > 0 {
            assert(q.take(1) =~= seq![q[0]]);
            assert(seq![q[0]][0] == q[0] && seq!['['][0] == '[');
        }
    }
}

proof fn lemma_tags_upto(ls: Seq<Seq<char>>, n: nat, t: Seq<char>)
    requires
        n <= ls.len(),
    ensures
        tags_upto(ls, n).contains(t) <==> exists|i: int| 0 <= i < n && names_tag(#[trigger] ls[i], t),
    decreases n,
{
    if n > 0 {
        let m = (n - 1) as nat;
        lemma_tags_upto(ls, m, t);
        lemma_line_tags(ls[n - 1], t);
        lemma_contains_add(tags_upto(ls, m), line_tags(ls[n - 1]), t);
        if tags_upto(ls, m).contains(t) {
            let i = choose|i: int| 0 <= i < m && names_tag(#[trigger] ls[i], t);
            assert(names_tag(ls[i], t));
        }
        if names_tag(ls[n - 1], t) {
            assert(0 <= n - 1 < n);
        }
    }
}

/// The tags of a file are those that its lines name for tests.
pub proof fn law_tags_are_named_in_lines(src: Seq<char>, t: Seq<char>)
    ensures
        tags_of(src).contains(t) <==> exists|i: int|
            0 <= i < lines_of(src).len() && names_tag(#[trigger] lines_of(src)[i], t),
{
    let ls = lines_of(src);
    lemma_tags_upto(ls, ls.len(), t);
    law_distinct_names(tags_upto(ls, ls.len()), t);
}

/// Whether a tag is among others, whatever the case.
pub open spec fn has_tag(have: Seq<Seq<char>>, t: Seq<char>) -> bool {
    exists|i: int| 0 <= i < have.len() && lowered(#[trigger] have[i]) == lowered(t)
}

/// A test file is listed exactly where it has each wanted tag, whatever the case.
pub proof fn law_tagged_files_are_listed(
    files: Seq<TestFileView>,
    wanted: Seq<Seq<char>>,
    f: TestFileView,
)
    ensures
        files.filter(tagged(wanted)).contains(f) <==> files.contains(f) && forall|j: int|
            0 <= j < wanted.len() ==> has_tag(file_tags(f.text), #[trigger] wanted[j]),
{
    let p = tagged(wanted);
    let have = file_tags(f.text);
    assert(p(f) <==> forall|j: int| 0 <= j < wanted.len() ==> has_tag(have, #[trigger] wanted[j]))
        by {
        if p(f) {
            assert forall|j: int| 0 <= j < wanted.len() implies has_tag(
                have,
                #[trigger] wanted[j],
            ) by {
                assert(tag_among(have, wanted[j]));
            }
        } else {
            let j = choose|j: int|
                0 <= j < wanted.len() && !tag_among(have, #[trigger] wanted[j]);
            assert(!has_tag(have, wanted[j]));
        }
    }
    if files.filter(p).contains(f) {
        let i = choose|i: int| 0 <= i < files.filter(p).len() && files.filter(p)[i] == f;
        files.lemma_filter_pred(p, i);
        files.lemma_filter_contains_rev(p, f);
    }
    if files.contains(f) && p(f) {
        let i = choose|i: int| 0 <= i < files.len() && files[i] == f;
        files.lemma_filter_contains(p, i);
    }
}

// ---------------------------------------------------------------------------
// The list of tests

/// What a test file is listed with: its name, how often it speaks of the symbol, how
/// often as a definition, a call and a reference, and its tags.
pub open spec fn listing(f: TestFileView, tags: Seq<Seq<char>>) -> Seq<char> {
    let r = f.refs;
    let sum = if r.defs + r.calls + r.refs > u64::MAX {
        u64::MAX as nat
    } else {
        r.defs + r.calls + r.refs
    };
    let counts = padded_right(r.rel, 44) + " "@ + dec(sum) + " hit(s)  ("@ + dec(r.defs) + " def, "@
        + dec(r.calls) + " call, "@ + dec(r.refs) + " ref)"@;
    if tags.len() == 0 {
        "  "@ + counts + "\n"@
    } else {
        "  "@ + counts + "  ["@ + joined(tags, "]["@) + "]\n"@
    }
}

proof fn lemma_listing(f: TestFileView)
    ensures
        test_row(f) == listing(f, file_tags(f.text)),
{
    let tags = file_tags(f.text);
    reveal_strlit("");
    reveal_strlit("]");
    reveal_strlit("\n");
    reveal_strlit("]\n");
    assert("]"@ + "\n"@ =~= "]\n"@);
    let r = f.refs;
    let counts = padded_right(r.rel, 44) + " "@ + dec(crate::test_map::hits(r) as nat)
        + " hit(s)  ("@ + dec(r.defs) + " def, "@ + dec(r.calls) + " call, "@ + dec(r.refs)
        + " ref)"@;
    let row = test_row(f);
    if tags.len() == 0 {
        assert(row =~= "  "@ + counts + "\n"@);
    } else {
        let t = joined(tags, "]["@);
        assert(row =~= "  "@ + counts + "  ["@ + t + ("]"@ + "\n"@));
    }
}

/// The first `m` files of a list, one behind the other.
pub open spec fn listings(v: Seq<TestFileView>, m: nat) -> Seq<char> {
    flat(Seq::new(m, |i: int| listing(v[i], file_tags(v[i].text))))
}

proof fn lemma_first_rows(v: Seq<TestFileView>, m: nat)
    requires
        m <= v.len(),
    ensures
        first_rows(v, m) == listings(v, m),
    decreases m,
{
    let rows = Seq::new(m, |i: int| listing(v[i], file_tags(v[i].text)));
    reveal_strlit("");
    if m > 0 {
        let n = (m - 1) as nat;
        lemma_first_rows(v, n);
        lemma_listing(v[m - 1]);
        let before = Seq::new(n, |i: int| listing(v[i], file_tags(v[i].text)));
        lemma_flat_push(before, rows[m - 1]);
        assert(rows =~= before.push(rows[m - 1]));
    } else {
        assert(rows =~= Seq::<Seq<char>>::empty());
    }
}

/// What a list of tests begins with: the symbol, where it was looked for, and the
/// tags that were asked for.
pub open spec fn list_head(a: TestAskView, paths: Seq<Seq<char>>) -> Seq<char> {
    let at = "test_map - \""@ + a.symbol + "\"  (roots "@ + listed(paths) + ")"@;
    if a.tags.len() > 0 {
        at + ("  tags ["@ + listed(a.tags) + "]"@) + "\n"@
    } else {
        at + "\n"@
    }
}

/// The files that are asked for: all, or those with the wanted tags.
pub open spec fn wanted_files(a: TestAskView, files: Seq<TestFileView>) -> Seq<TestFileView> {
    if a.tags.len() > 0 {
        files.filter(tagged(a.tags))
    } else {
        files
    }
}

/// What a list of tests ends with.
pub open spec fn list_end(a: TestAskView, hint: Seq<char>) -> Seq<char> {
    let end = "\nRun the top file(s) first rather than the whole suite.\n"@;
    if a.tags.len() > 0 {
        end + ("Test filter example: "@ + hint + "\n"@)
    } else {
        end
    }
}

proof fn lemma_list_frame(a: TestAskView, paths: Seq<Seq<char>>, hint: Seq<char>)
    ensures
        crate::test_map::test_head(a, paths) == list_head(a, paths),
        "\nRun the top file(s) first rather than the whole suite.\n"@ + (if a.tags.len() > 0 {
            "Test filter example: "@ + hint + "\n"@
        } else {
            ""@
        }) == list_end(a, hint),
{
    reveal_strlit("");
    if a.tags.len() == 0 {
        let at = "test_map - \""@ + a.symbol + "\"  (roots "@ + listed(paths) + ")"@;
        assert(at + ""@ =~= at);
        let end = "\nRun the top file(s) first rather than the whole suite.\n"@;
        assert(end + ""@ =~= end);
    }
}

/// The answer lists the test files, those with the wanted tags where tags are wanted,
/// in their order from the first one on, and says how many there are; `max` files are
/// listed at most. Without such a file it says so.
pub proof fn law_tests_are_listed(
    a: TestAskView,
    paths: Seq<Seq<char>>,
    files: Seq<TestFileView>,
    hint: Seq<char>,
)
    requires
        a.max > 0,
    ensures
        ({
            let v = wanted_files(a, files);
            let text = tests_text(a, paths, files, hint);
            let head = list_head(a, paths);
            if v.len() > 0 {
                exists|m: nat|
                    0 < m <= v.len() && m <= a.max && text == head + "\n"@ + dec(v.len())
                        + " test file(s) reference it (most relevant first):\n"@
                        + #[trigger] listings(v, m) + rows_note(v.len(), a.max as nat, m)
                        + list_end(a, hint)
            } else if a.tags.len() > 0 {
                text == head + "\n(no test files with tags "@ + listed(a.tags) + " reference \""@
                    + a.symbol + "\")\n"@ + "Run with fewer tags or omit \"tags\" to broaden.\n"@
            } else {
                text == head + "\n(no test file references this symbol - it may be untested)\n"@
            }
        }),
{
    let v = wanted_files(a, files);
    lemma_list_frame(a, paths, hint);
    if v.len() > 0 {
        let top = list_head(a, paths) + "\n"@ + dec(v.len())
            + " test file(s) reference it (most relevant first):\n"@;
        let (max, budget, used) = (a.max as nat, a.budget as nat, blen(top) / 4);
        let m = lemma_some_rows(top, v, max, budget);
        lemma_first_rows(v, m);
        let rows = crate::test_map::rows_from(top, v, max, budget, used, 0);
        let first = "\nRun the top file(s) first rather than the whole suite.\n"@;
        let second = if a.tags.len() > 0 {
            "Test filter example: "@ + hint + "\n"@
        } else {
            ""@
        };
        assert(rows + first + second =~= rows + (first + second));
    }
}

proof fn lemma_some_rows(top: Seq<char>, v: Seq<TestFileView>, max: nat, budget: nat) -> (m: nat)
    requires
        max > 0,
        v.len() > 0,
    ensures
        0 < m <= v.len(),
        m <= max,
        crate::test_map::rows_from(top, v, max, budget, blen(top) / 4, 0) == top + first_rows(v, m)
            + rows_note(v.len(), max, m),
{
    crate::test_map::law_list_fills_its_budget(top, v, max, budget);
    choose|m: nat|
        (v.len() > 0 ==> m > 0) && #[trigger] crate::test_map::rows_fill(
            v,
            max,
            budget,
            blen(top) / 4,
            m,
        ) && crate::test_map::rows_from(top, v, max, budget, blen(top) / 4, 0) == top + first_rows(
            v,
            m,
        ) + rows_note(v.len(), max, m)
}

/// The note behind a list says how many files are left, and what holds them back.
pub proof fn law_note_counts_the_rest(total: nat, max: nat, m: nat)
    ensures
        m >= total ==> rows_note(total, max, m).len() == 0,
        m < total && m >= max ==> rows_note(total, max, m) == "  … (+"@ + dec((total - m) as nat)
            + " more; raise \"max\")\n"@,
        m < total && m < max ==> rows_note(total, max, m) == "  … (+"@ + dec((total - m) as nat)
            + " more; raise token_budget)\n"@,
{
    reveal_strlit("");
}

/// What a request for tests asks: the symbol without white space around, and the tags
/// without brackets and white space around, as far as something is left of them.
pub proof fn law_request_for_tests(args: Json, t: Seq<char>)
    ensures
        match test_ask_of(args) {
            None => trimmed(str_or(args, "symbol"@, ""@)).len() == 0,
            Some(a) => {
                &&& a.symbol == trimmed(str_or(args, "symbol"@, ""@))
                &&& a.symbol.len() > 0
                &&& a.max >= 1
                &&& u64_or(args, "max"@, 40) >= 1 ==> a.max == u64_or(args, "max"@, 40)
                &&& a.budget == u64_or(args, "token_budget"@, 1200)
                &&& a.tags.contains(t) <==> t.len() > 0 && exists|i: int|
                    0 <= i < strings_at(args, "tags"@).len() && t == trimmed_end_of(
                        trimmed_start_of(trimmed(#[trigger] strings_at(args, "tags"@)[i]), '['),
                        ']',
                    )
            },
        },
{
    let tags = strings_at(args, "tags"@);
    lemma_bare_tags(tags, tags.len(), t);
}

proof fn lemma_bare_tags(v: Seq<Seq<char>>, n: nat, t: Seq<char>)
    requires
        n <= v.len(),
    ensures
        bare_tags(v, n).contains(t) <==> t.len() > 0 && exists|i: int|
            0 <= i < n && t == trimmed_end_of(
                trimmed_start_of(trimmed(#[trigger] v[i]), '['),
                ']',
            ),
    decreases n,
{
    if n > 0 {
        let m = (n - 1) as nat;
        lemma_bare_tags(v, m, t);
        let x = crate::test_map::bare_tag(v[n - 1]);
        lemma_contains_push(bare_tags(v, m), x, t);
        if bare_tags(v, m).contains(t) {
            let i = choose|i: int|
                0 <= i < m && t == trimmed_end_of(
                    trimmed_start_of(trimmed(#[trigger] v[i]), '['),
                    ']',
                );
            assert(t == trimmed_end_of(trimmed_start_of(trimmed(v[i]), '['), ']'));
        }
        if t == x && t.len() > 0 {
            assert(t == trimmed_end_of(trimmed_start_of(trimmed(v[n - 1]), '['), ']'));
        }
    }
}

// ---------------------------------------------------------------------------
// Outlines

/// A row of an outline gives the line on which a symbol starts, counted by the line
/// feeds before it, and the symbol.
pub proof fn law_outline_rows_give_lines(text: Seq<char>, n: nat, symbol: Seq<char>)
    requires
        n <= text.len(),
    ensures
        row_of(starts_upto(text, text.len()), (blen(text.take(n as int)), symbol)) == "  "@
            + padded_left(dec(1 + crate::lang::breaks(text.take(n as int))), 5) + "  "@ + symbol
            + "\n"@,
{
    crate::outline::law_line_counts_line_feeds(text, n);
}

/// The rows of an outline are those of the first symbols, one behind the other.
pub proof fn law_outline_lists_symbols(rel: Seq<char>, lang: Lang, text: Seq<char>, budget: nat)
    ensures
        ({
            let v = symbols_in(lang, text);
            let st = starts_upto(text, text.len());
            let out = text_outline(rel, lang, text, budget);
            if v.len() == 0 {
                out == "outline - "@ + rel + ": no top-level symbols found"@
            } else {
                exists|m: nat|
                    0 < m <= v.len() && out == "outline - "@ + rel + "  ("@ + dec(v.len())
                        + " symbol(s))\n\n"@ + (flat(Seq::new(m, |i: int| row_of(st, v[i])))
                        + #[trigger] crate::outline::rows_note(v.len(), m))
            }
        }),
{
    let v = symbols_in(lang, text);
    let st = starts_upto(text, text.len());
    if v.len() > 0 {
        crate::outline::law_outline_fills_its_budget(rel, lang, text, budget);
        let head = "outline - "@ + rel + "  ("@ + dec(v.len()) + " symbol(s))\n\n"@;
        let m = choose|m: nat|
            m > 0 && #[trigger] crate::outline::rows_fill(v, st, budget, blen(head) / 4, m)
                && text_outline(rel, lang, text, budget) == head + (crate::outline::first_rows(
                v,
                st,
                m,
            ) + crate::outline::rows_note(v.len(), m));
        lemma_outline_rows(v, st, m);
        assert(crate::outline::rows_note(v.len(), m) == crate::outline::rows_note(v.len(), m));
    }
}

proof fn lemma_outline_rows(v: Seq<(nat, Seq<char>)>, st: Seq<nat>, m: nat)
    requires
        m <= v.len(),
    ensures
        crate::outline::first_rows(v, st, m) == flat(Seq::new(m, |i: int| row_of(st, v[i]))),
    decreases m,
{
    let rows = Seq::new(m, |i: int| row_of(st, v[i]));
    reveal_strlit("");
    if m > 0 {
        let n = (m - 1) as nat;
        lemma_outline_rows(v, st, n);
        let before = Seq::new(n, |i: int| row_of(st, v[i]));
        lemma_flat_push(before, rows[m - 1]);
        assert(rows =~= before.push(rows[m - 1]));
    } else {
        assert(rows =~= Seq::<Seq<char>>::empty());
    }
}

/// What is said of a file that cannot be outlined, and that it is charged for nothing.
pub proof fn law_outline_says_what_is_wrong(file: Seq<char>, o: OpenedView, budget: nat)
    ensures
        match o {
            OpenedView::Missing { error, candidates } => outline_of(file, o, budget).1 == 0
                && outline_of(file, o, budget).0 == "outline - "@ + file + ": not found ("@ + error
                + "); pass a repo-relative path or widen default_paths in .wordkeep/config.json"@ + (
            match candidates {
                Some(c) => "\ncandidates: "@ + c,
                None => Seq::empty(),
            }),
            OpenedView::Unsupported { rel } => outline_of(file, o, budget) == (
                "outline - "@ + rel + ": unsupported file type"@,
                0nat,
            ),
            OpenedView::Unreadable { rel } => outline_of(file, o, budget) == (
                "outline - "@ + rel + ": cannot read file"@,
                0nat,
            ),
            OpenedView::Text { rel, lang, text } => outline_of(file, o, budget) == (
                text_outline(rel, lang, text, budget),
                blen(text) / 4,
            ),
        },
{
    if let OpenedView::Missing { error, candidates } = o {
        let t = "outline - "@ + file + ": not found ("@ + error
            + "); pass a repo-relative path or widen default_paths in .wordkeep/config.json"@;
        match candidates {
            Some(c) => {
                assert(t + "\ncandidates: "@ + c =~= t + ("\ncandidates: "@ + c));
            },
            None => {
                assert(t + Seq::<char>::empty() =~= t);
            },
        }
    }
}

/// Whether `piece` is the outline of a file as it stands in a batch: behind a line
/// feed, unless it comes first.
pub open spec fn piece_of(
    piece: Seq<char>,
    file: Seq<char>,
    o: OpenedView,
    first: bool,
    budget: nat,
) -> bool {
    piece == if first {
        outline_of(file, o, budget).0
    } else {
        "\n"@ + outline_of(file, o, budget).0
    }
}

/// Whether piece `i` is the outline of file `at + i`, with a room of sixty-four tokens
/// at least.
pub open spec fn placed(
    pieces: Seq<Seq<char>>,
    files: Seq<Seq<char>>,
    opened: Seq<OpenedView>,
    at: nat,
    i: int,
) -> bool {
    let first = i == 0;
    let piece = pieces[i];
    let file = files[at + i];
    let o = opened[at + i];
    exists|b: nat| b >= 64 && #[trigger] piece_of(piece, file, o, first, b)
}

/// Whether pieces are the outlines of the files of a batch from `at` on.
pub open spec fn pieces_of(
    pieces: Seq<Seq<char>>,
    files: Seq<Seq<char>>,
    opened: Seq<OpenedView>,
    at: nat,
) -> bool {
    forall|i: int| 0 <= i < pieces.len() ==> #[trigger] placed(pieces, files, opened, at, i)
}

proof fn lemma_batch(
    files: Seq<Seq<char>>,
    opened: Seq<OpenedView>,
    resume_at: nat,
    budget: nat,
    head: Seq<char>,
    pieces: Seq<Seq<char>>,
    baseline: nat,
    k: nat,
) -> (all: Seq<Seq<char>>)
    requires
        k == resume_at + pieces.len(),
        k <= files.len(),
        pieces_of(pieces, files, opened, resume_at),
    ensures
        ({
            let r = batch_from(
                files,
                opened,
                resume_at,
                budget,
                head + flat(pieces),
                baseline,
                k,
            );
            &&& r.0 == head + flat(all)
            &&& pieces_of(all, files, opened, resume_at)
            &&& resume_at + all.len() == match r.2 {
                Some(c) => c,
                None => files.len(),
            }
        }),
    decreases files.len() - k,
{
    let text = head + flat(pieces);
    let used = blen(text) / 4;
    if k >= files.len() || (used >= budget && k > resume_at) {
        pieces
    } else {
        let b = crate::outline::room(budget, used);
        let (block, tokens) = outline_of(files[k as int], opened[k as int], b);
        if used + blen(block) / 4 > budget && k > resume_at {
            pieces
        } else {
            let piece = if k > resume_at {
                "\n"@ + block
            } else {
                block
            };
            let more = pieces.push(piece);
            lemma_flat_push(pieces, piece);
            assert(head + (flat(pieces) + piece) =~= text + piece);
            if k > resume_at {
                assert(text + ("\n"@ + block) =~= text + "\n"@ + block);
            }
            assert(piece_of(piece, files[k as int], opened[k as int], k == resume_at, b));
            assert(pieces_of(more, files, opened, resume_at)) by {
                assert forall|i: int| 0 <= i < more.len() implies #[trigger] placed(
                    more,
                    files,
                    opened,
                    resume_at,
                    i,
                ) by {
                    if i < pieces.len() {
                        assert(placed(pieces, files, opened, resume_at, i));
                        assert(more[i] == pieces[i]);
                    }
                }
            }
            lemma_batch(files, opened, resume_at, budget, head, more, baseline + tokens, k + 1)
        }
    }
}

/// A batch holds the outlines of its files from the one that it starts with up to the
/// one before which it was cut, all of them and in order.
pub proof fn law_batch_outlines_its_files(
    files: Seq<Seq<char>>,
    opened: Seq<OpenedView>,
    resume_at: nat,
    budget: nat,
) -> (pieces: Seq<Seq<char>>)
    requires
        resume_at <= files.len(),
    ensures
        ({
            let b = batch_of(files, opened, resume_at, budget);
            &&& b.text == "outline - batch ("@ + dec(files.len()) + " file(s))"@ + (if resume_at
                > 0 {
                " [continuation from file #"@ + dec(resume_at) + "]"@
            } else {
                ""@
            }) + "\n"@ + flat(pieces)
            &&& pieces_of(pieces, files, opened, resume_at)
            &&& resume_at + pieces.len() == match b.cut {
                Some(c) => c,
                None => files.len(),
            }
        }),
{
    let head = crate::outline::batch_head(files.len(), resume_at);
    let none = Seq::<Seq<char>>::empty();
    assert(head + flat(none) =~= head);
    lemma_batch(files, opened, resume_at, budget, head, none, 0, resume_at)
}

/// What a request for an outline asks: the files of a batch that have a name, else the
/// one file, which may also be given as a path.
pub proof fn law_request_for_outlines(args: Json)
    ensures
        ({
            let given = strings_at(args, "files"@);
            let batch = trimmed_names(given, given.len());
            let one = match get(args, "file"@) {
                Some(Json::Str(s)) => trimmed(s),
                Some(_) => Seq::empty(),
                None => match get(args, "path"@) {
                    Some(Json::Str(s)) => trimmed(s),
                    _ => Seq::empty(),
                },
            };
            &&& batch.len() > 0 <==> (request_of(args) matches Some(RequestView::Batch(_)))
            &&& request_of(args) matches Some(RequestView::Batch(v)) ==> v == batch
            &&& (batch.len() == 0 && one.len() > 0) <==> (request_of(args) matches Some(
                RequestView::One(_),
            ))
            &&& request_of(args) matches Some(RequestView::One(f)) ==> f == one
        }),
{
    reveal_strlit("");
    assert(""@ =~= Seq::<char>::empty());
    assert(trimmed(""@) =~= Seq::<char>::empty());
}

/// The names of a batch are those that are left without white space around.
pub proof fn law_names_of_a_batch(v: Seq<Seq<char>>, n: nat, t: Seq<char>)
    requires
        n <= v.len(),
    ensures
        trimmed_names(v, n).contains(t) <==> t.len() > 0 && exists|i: int|
            0 <= i < n && t == trimmed(#[trigger] v[i]),
    decreases n,
{
    if n > 0 {
        let m = (n - 1) as nat;
        law_names_of_a_batch(v, m, t);
        lemma_contains_push(trimmed_names(v, m), trimmed(v[n - 1]), t);
        if trimmed_names(v, m).contains(t) {
            let i = choose|i: int| 0 <= i < m && t == trimmed(#[trigger] v[i]);
            assert(t == trimmed(v[i]));
        }
        if t == trimmed(v[n - 1]) && t.len() > 0 {
            assert(0 <= n - 1 < n);
        }
    }
}

} // verus!
