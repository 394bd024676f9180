//! Which test files exercise a symbol.
use vstd::prelude::*;
use crate::izakaya::board::add_line;
use crate::izakaya::replay::{distinct, sort_distinct};
use crate::json::{get_strings, number_or, str_or, string_or, strings_at, u64_or, Datum, Json};
use crate::module_map::one_or_more;
use crate::repo_map::{Built, BuiltView};
use crate::symbol_refs::{FileRefs, FileRefsView};
use crate::text::{
    blen, capped, contains, copy, count_up, dec, decimal, holds, is_blank, join, joined, lines, lines_of,
    list_text, listed, lower_ascii, lowered, opt_text, pad_right, padded_right, same, size, slice,
    split_char, split_on, starts, starts_with, strs, to_chars, trim, trim_end_of, trim_start_of,
    trimmed, trimmed_end_of, trimmed_start_of,
};

verus! {

// ---------------------------------------------------------------------------
// Tags

/// The last double quote among the first `n` characters.
pub open spec fn last_quote(s: Seq<char>, n: nat) -> Option<int>
    decreases n,
{
    if n == 0 || n > s.len() {
        None
    } else if s[n - 1] == '"' {
        Some(n - 1)
    } else {
        last_quote(s, (n - 1) as nat)
    }
}

proof fn lemma_last_quote(s: Seq<char>, n: nat)
    ensures
        last_quote(s, n) matches Some(i) ==> 0 <= i < n && i < s.len() && s[i] == '"',
    decreases n,
{
    if 0 < n <= s.len() && s[n - 1] != '"' {
        lemma_last_quote(s, (n - 1) as nat);
    }
}

/// The last text in double quotes on a line.
pub open spec fn last_quoted(s: Seq<char>) -> Option<Seq<char>> {
    match last_quote(s, s.len()) {
        None => None,
        Some(i) => match last_quote(s, i as nat) {
            None => None,
            Some(j) => Some(s.subrange(j + 1, i)),
        },
    }
}

/// The tags among the first `n` parts of a tag list.
pub open spec fn tag_parts(parts: Seq<Seq<char>>, n: nat) -> Seq<Seq<char>>
    decreases n,
{
    if n == 0 {
        Seq::empty()
    } else {
        let rest = tag_parts(parts, (n - 1) as nat);
        let t = trimmed(trimmed_start_of(parts[n - 1], '['));
        if t.len() > 0 {
            rest.push(t)
        } else {
            rest
        }
    }
}

/// The tags that a line gives a test.
pub open spec fn line_tags(line: Seq<char>) -> Seq<Seq<char>> {
    if !holds(line, "TEST_CASE"@) {
        Seq::empty()
    } else {
        match last_quoted(line) {
            None => Seq::empty(),
            Some(t) => if starts(t, "["@) {
                tag_parts(split_on(t, ']'), split_on(t, ']').len())
            } else {
                Seq::empty()
            },
        }
    }
}

/// The tags on the first `n` lines.
pub open spec fn tags_upto(ls: Seq<Seq<char>>, n: nat) -> Seq<Seq<char>>
    decreases n,
{
    if n == 0 {
        Seq::empty()
    } else {
        tags_upto(ls, (n - 1) as nat) + line_tags(ls[n - 1])
    }
}

/// The tags of a test file, each once and in ascending order.
pub open spec fn tags_of(src: Seq<char>) -> Seq<Seq<char>> {
    distinct(tags_upto(lines_of(src), lines_of(src).len()))
}

fn find_last_quote(v: &Vec<char>, n: usize) -> (r: Option<usize>)
    requires
        n <= v@.len(),
    ensures
        crate::syntax::place(r) == last_quote(v@, n as nat),
        r matches Some(i) ==> i < n,
{
    let mut m: usize = n;
    while m > 0
        invariant
            m <= n <= v@.len(),
            last_quote(v@, n as nat) == last_quote(v@, m as nat),
        decreases m,
    {
        if v[m - 1] == '"' {
            return Some(m - 1);
        }
        m = m - 1;
    }
    None
}

fn find_last_quoted(line: &str) -> (r: Option<String>)
    ensures
        opt_text(r) == last_quoted(line@),
{
    let v = to_chars(line);
    match find_last_quote(&v, v.len()) {
        None => None,
        Some(i) => match find_last_quote(&v, i) {
            None => None,
            Some(j) => Some(slice(&v, j + 1, i)),
        },
    }
}

fn find_line_tags(line: &str) -> (r: Vec<String>)
    ensures
        strs(r@) == line_tags(line@),
{
    let mut out = crate::text::no_strings();
    if !contains(line, "TEST_CASE") {
        return out;
    }
    if let Some(t) = find_last_quoted(line) {
        if starts_with(t.as_str(), "[") {
            let parts = split_char(t.as_str(), ']');
            let ghost all = split_on(t@, ']');
            assert(all.len() == parts@.len());
            for i in 0..parts.len()
                invariant
                    all == strs(parts@),
                    strs(out@) == tag_parts(all, i as nat),
            {
                assert(all[i as int] == parts@[i as int]@);
                let p = trim(trim_start_of(parts[i].as_str(), '[').as_str());
                if !is_blank(p.as_str()) {
                    add_line(&mut out, p);
                }
            }
        }
    }
    out
}

pub fn catch2_tags(src: &str) -> (r: Vec<String>)
    ensures
        strs(r@) == tags_of(src@),
{
    let ls = lines(src);
    let ghost all = lines_of(src@);
    assert(all.len() == ls@.len());
    let mut out = crate::text::no_strings();
    for i in 0..ls.len()
        invariant
            all == strs(ls@),
            strs(out@) == tags_upto(all, i as nat),
    {
        assert(all[i as int] == ls@[i as int]@);
        let mut more = find_line_tags(ls[i].as_str());
        let ghost before = out@;
        let ghost added = more@;
        out.append(&mut more);
        assert(strs(out@) =~= strs(before) + strs(added));
    }
    sort_distinct(&out)
}

/// The tags of a file; none where it could not be read.
pub open spec fn file_tags(src: Option<Seq<char>>) -> Seq<Seq<char>> {
    match src {
        Some(s) => tags_of(s),
        None => Seq::empty(),
    }
}

fn find_file_tags(src: &Option<String>) -> (r: Vec<String>)
    ensures
        strs(r@) == file_tags(opt_text(*src)),
{
    match src {
        Some(s) => catch2_tags(s.as_str()),
        None => crate::text::no_strings(),
    }
}

/// Whether a tag is among others, whatever the case of its letters.
pub open spec fn tag_among(have: Seq<Seq<char>>, t: Seq<char>) -> bool {
    exists|i: int| 0 <= i < have.len() && lowered(#[trigger] have[i]) == lowered(t)
}

/// Whether all the tags asked for are there.
pub open spec fn all_tags(have: Seq<Seq<char>>, wanted: Seq<Seq<char>>) -> bool {
    forall|i: int| 0 <= i < wanted.len() ==> tag_among(have, #[trigger] wanted[i])
}

pub fn is_tag_among(have: &Vec<String>, t: &str) -> (r: bool)
    ensures
        r == tag_among(strs(have@), t@),
{
    let want = lower_ascii(t);
    for i in 0..have.len()
        invariant
            want@ == lowered(t@),
            forall|k: int| 0 <= k < i ==> lowered(#[trigger] strs(have@)[k]) != lowered(t@),
    {
        assert(strs(have@)[i as int] == have@[i as int]@);
        let h = lower_ascii(have[i].as_str());
        if same(h.as_str(), want.as_str()) {
            return true;
        }
    }
    assert(strs(have@).len() == have@.len());
    false
}

fn has_all_tags(have: &Vec<String>, wanted: &Vec<String>) -> (r: bool)
    ensures
        r == all_tags(strs(have@), strs(wanted@)),
{
    for i in 0..wanted.len()
        invariant
            forall|k: int| 0 <= k < i ==> tag_among(strs(have@), #[trigger] strs(wanted@)[k]),
    {
        assert(strs(wanted@)[i as int] == wanted@[i as int]@);
        if !is_tag_among(have, wanted[i].as_str()) {
            return false;
        }
    }
    assert(strs(wanted@).len() == wanted@.len());
    true
}

// ---------------------------------------------------------------------------
// The map

/// A test file that names the symbol, with its text where it could be read.
pub struct TestFile {
    pub refs: FileRefs,
    pub text: Option<String>,
}

/// The values of a [`TestFile`].
pub struct TestFileView {
    pub refs: FileRefsView,
    pub text: Option<Seq<char>>,
}

impl View for TestFile {
    type V = TestFileView;

    open spec fn view(&self) -> TestFileView {
        TestFileView { refs: self.refs@, text: opt_text(self.text) }
    }
}

pub open spec fn test_views(v: Seq<TestFile>) -> Seq<TestFileView> {
    Seq::new(v.len(), |i: int| v[i]@)
}

/// What is asked for.
pub struct TestAsk {
    pub symbol: String,
    pub max: u64,
    pub budget: u64,
    pub tags: Vec<String>,
}

/// The values of a [`TestAsk`].
pub struct TestAskView {
    pub symbol: Seq<char>,
    pub max: u64,
    pub budget: u64,
    pub tags: Seq<Seq<char>>,
}

impl View for TestAsk {
    type V = TestAskView;

    open spec fn view(&self) -> TestAskView {
        TestAskView {
            symbol: self.symbol@,
            max: self.max,
            budget: self.budget,
            tags: strs(self.tags@),
        }
    }
}

/// A tag without the brackets around it.
pub open spec fn bare_tag(t: Seq<char>) -> Seq<char> {
    trimmed_end_of(trimmed_start_of(trimmed(t), '['), ']')
}

/// The tags among the first `n`, without brackets; empty ones are left out.
pub open spec fn bare_tags(v: Seq<Seq<char>>, n: nat) -> Seq<Seq<char>>
    decreases n,
{
    if n == 0 {
        Seq::empty()
    } else {
        let rest = bare_tags(v, (n - 1) as nat);
        let t = bare_tag(v[n - 1]);
        if t.len() > 0 {
            rest.push(t)
        } else {
            rest
        }
    }
}

/// What the arguments ask for; nothing where they name no symbol.
pub open spec fn test_ask_of(args: Json) -> Option<TestAskView> {
    let symbol = trimmed(str_or(args, "symbol"@, ""@));
    let tags = strings_at(args, "tags"@);
    if symbol.len() == 0 {
        None
    } else {
        Some(
            TestAskView {
                symbol,
                max: one_or_more(u64_or(args, "max"@, 40)),
                budget: u64_or(args, "token_budget"@, 1200),
                tags: bare_tags(tags, tags.len()),
            },
        )
    }
}

pub fn read_test_ask(args: &Datum) -> (r: Result<TestAsk, String>)
    ensures
        match r {
            Ok(q) => test_ask_of(args@) == Some(q@),
            Err(e) => test_ask_of(args@) is None && e@ == "symbol is required"@,
        },
{
    let symbol = trim(string_or(args, "symbol", "").as_str());
    if is_blank(symbol.as_str()) {
        return Err(copy("symbol is required"));
    }
    let raw = get_strings(args, "tags");
    let mut tags = crate::text::no_strings();
    assert(strs(raw@).len() == raw@.len());
    for i in 0..raw.len()
        invariant
            strs(tags@) == bare_tags(strs(raw@), i as nat),
    {
        assert(strs(raw@)[i as int] == raw@[i as int]@);
        let a = trim(raw[i].as_str());
        let b = trim_start_of(a.as_str(), '[');
        let c = trim_end_of(b.as_str(), ']');
        if !is_blank(c.as_str()) {
            add_line(&mut tags, c);
        }
    }
    let max: u64 = number_or(args, "max", 40);
    Ok(
        TestAsk {
            symbol,
            max: if max > 1 {
                max
            } else {
                1
            },
            budget: number_or(args, "token_budget", 1200),
            tags,
        },
    )
}

/// The tags as they are written one after the other.
pub open spec fn tag_chain(tags: Seq<Seq<char>>) -> Seq<char> {
    joined(tags, "]["@)
}

pub fn chain_tags(tags: &Vec<String>) -> (r: String)
    ensures
        r@ == tag_chain(strs(tags@)),
{
    join(tags, "][")
}

/// How often a file names the symbol.
pub open spec fn hits(f: FileRefsView) -> u64 {
    capped(f.defs + f.calls + f.refs)
}

/// The row of a file.
pub open spec fn test_row(f: TestFileView) -> Seq<char> {
    let tags = file_tags(f.text);
    "  "@ + padded_right(f.refs.rel, 44) + " "@ + dec(hits(f.refs) as nat) + " hit(s)  ("@ + dec(
        f.refs.defs,
    ) + " def, "@ + dec(f.refs.calls) + " call, "@ + dec(f.refs.refs) + " ref)"@ + (
    if tags.len() == 0 {
        ""@
    } else {
        "  ["@ + tag_chain(tags) + "]"@
    }) + "\n"@
}

fn make_test_row(f: &TestFile) -> (r: String)
    ensures
        r@ == test_row(f@),
{
    let tags = find_file_tags(&f.text);
    assert(strs(tags@).len() == tags@.len());
    let n: u64 = count_up(
        count_up(f.refs.defs as u64, f.refs.calls as u64),
        f.refs.refs as u64,
    );
    let mut t = copy("  ");
    t.append(pad_right(f.refs.rel.as_str(), 44).as_str());
    t.append(" ");
    t.append(decimal(n).as_str());
    t.append(" hit(s)  (");
    t.append(decimal(f.refs.defs as u64).as_str());
    t.append(" def, ");
    t.append(decimal(f.refs.calls as u64).as_str());
    t.append(" call, ");
    t.append(decimal(f.refs.refs as u64).as_str());
    t.append(" ref)");
    let mut note = copy("");
    if tags.len() > 0 {
        note = copy("  [");
        note.append(chain_tags(&tags).as_str());
        note.append("]");
    }
    t.append(note.as_str());
    t.append("\n");
    t
}

/// Files that have all the tags asked for.
pub open spec fn tagged(wanted: Seq<Seq<char>>) -> spec_fn(TestFileView) -> bool {
    |f: TestFileView| all_tags(file_tags(f.text), wanted)
}

/// The rows from file `k` on, behind a text.
pub open spec fn rows_from(
    out: Seq<char>,
    v: Seq<TestFileView>,
    max: nat,
    budget: nat,
    used: nat,
    k: int,
) -> Seq<char>
    decreases v.len() - k,
{
    if k < 0 || k >= v.len() {
        out
    } else if k >= max {
        out + "  … (+"@ + dec((v.len() - k) as nat) + " more; raise \"max\")\n"@
    } else {
        let tokens = blen(test_row(v[k])) / 4;
        if used + tokens > budget && k > 0 {
            out + "  … (+"@ + dec((v.len() - k) as nat) + " more; raise token_budget)\n"@
        } else {
            rows_from(out + test_row(v[k]), v, max, budget, used + tokens, k + 1)
        }
    }
}

pub open spec fn test_head(a: TestAskView, paths: Seq<Seq<char>>) -> Seq<char> {
    "test_map - \""@ + a.symbol + "\"  (roots "@ + listed(paths) + ")"@ + (if a.tags.len() > 0 {
        "  tags ["@ + listed(a.tags) + "]"@
    } else {
        ""@
    }) + "\n"@
}

/// The map: the test files that name a symbol, in the order given. `hint` tells how
/// to run tests with the tags asked for.
pub open spec fn tests_text(
    a: TestAskView,
    paths: Seq<Seq<char>>,
    files: Seq<TestFileView>,
    hint: Seq<char>,
) -> Seq<char> {
    let head = test_head(a, paths);
    let v = if a.tags.len() > 0 {
        files.filter(tagged(a.tags))
    } else {
        files
    };
    if v.len() == 0 {
        if a.tags.len() > 0 {
            head + "\n(no test files with tags "@ + listed(a.tags) + " reference \""@ + a.symbol
                + "\")\n"@ + "Run with fewer tags or omit \"tags\" to broaden.\n"@
        } else {
            head + "\n(no test file references this symbol - it may be untested)\n"@
        }
    } else {
        let top = head + "\n"@ + dec(v.len())
            + " test file(s) reference it (most relevant first):\n"@;
        rows_from(top, v, a.max as nat, a.budget as nat, blen(top) / 4, 0)
            + "\nRun the top file(s) first rather than the whole suite.\n"@ + (
        if a.tags.len() > 0 {
            "Test filter example: "@ + hint + "\n"@
        } else {
            ""@
        })
    }
}

fn copy_file(f: &TestFile) -> (r: TestFile)
    ensures
        r@ == f@,
{
    TestFile {
        refs: FileRefs {
            rel: copy(f.refs.rel.as_str()),
            defs: f.refs.defs,
            calls: f.refs.calls,
            refs: f.refs.refs,
        },
        text: crate::text::copy_opt(&f.text),
    }
}

fn keep_tagged(files: &Vec<TestFile>, wanted: &Vec<String>) -> (r: Vec<TestFile>)
    ensures
        test_views(r@) == test_views(files@).filter(tagged(strs(wanted@))),
{
    let ghost all = test_views(files@);
    let ghost keep = tagged(strs(wanted@));
    let mut out: Vec<TestFile> = Vec::new();
    proof {
        reveal(Seq::filter);
        assert(all.take(0) =~= Seq::<TestFileView>::empty());
        assert(test_views(out@) =~= all.take(0).filter(keep));
    }
    for i in 0..files.len()
        invariant
            all == test_views(files@),
            keep == tagged(strs(wanted@)),
            test_views(out@) == all.take(i as int).filter(keep),
    {
        proof {
            assert(all.take(i + 1) =~= all.take(i as int).push(all[i as int]));
            all.take(i as int).lemma_filter_push(all[i as int], keep);
        }
        assert(all[i as int] == files@[i as int]@);
        let have = find_file_tags(&files[i].text);
        if has_all_tags(&have, wanted) {
            let ghost before = out@;
            let f = copy_file(&files[i]);
            out.push(f);
            assert(test_views(out@) =~= test_views(before).push(f@));
        }
    }
    assert(all.take(all.len() as int) =~= all);
    out
}

fn copy_files(files: &Vec<TestFile>) -> (r: Vec<TestFile>)
    ensures
        test_views(r@) == test_views(files@),
{
    let mut out: Vec<TestFile> = Vec::new();
    for i in 0..files.len()
        invariant
            out@.len() == i,
            forall|k: int| 0 <= k < i ==> (#[trigger] out@[k])@ == files@[k]@,
    {
        out.push(copy_file(&files[i]));
    }
    assert(test_views(out@) =~= test_views(files@));
    out
}

fn append_rows(out: String, v: &Vec<TestFile>, max: u64, budget: u64) -> (r: String)
    ensures
        r@ == rows_from(
            out@,
            test_views(v@),
            max as nat,
            budget as nat,
            blen(out@) / 4,
            0,
        ),
{
    let ghost all = test_views(v@);
    let mut t = out;
    let mut used: usize = size(t.as_str()) / 4;
    let ghost want = rows_from(out@, all, max as nat, budget as nat, used as nat, 0);
    for k in 0..v.len()
        invariant
            all == test_views(v@),
            used * 4 <= blen(t@),
            want == rows_from(out@, all, max as nat, budget as nat, blen(out@) / 4, 0),
            want == rows_from(t@, all, max as nat, budget as nat, used as nat, k as int),
    {
        assert(all[k as int] == v@[k as int]@);
        if k as u64 >= max {
            t.append("  … (+");
            t.append(decimal((v.len() - k) as u64).as_str());
            t.append(" more; raise \"max\")\n");
            return t;
        }
        let row = make_test_row(&v[k]);
        let whole: usize = size(t.as_str());
        let tokens: usize = size(row.as_str()) / 4;
        if (used + tokens) as u64 > budget && k > 0 {
            t.append("  … (+");
            t.append(decimal((v.len() - k) as u64).as_str());
            t.append(" more; raise token_budget)\n");
            return t;
        }
        proof {
            crate::text::lemma_blen_add(t@, row@);
        }
        used = used + tokens;
        t.append(row.as_str());
    }
    t
}

/// Builds the map of the test files that name a symbol.
pub fn build(
    a: &TestAsk,
    paths: &Vec<String>,
    files: &Vec<TestFile>,
    scanned: u64,
    hint: &str,
) -> (r: Built)
    ensures
        r@ == (BuiltView {
            text: tests_text(a@, strs(paths@), test_views(files@), hint@),
            baseline: scanned as nat / 4,
            returned: blen(tests_text(a@, strs(paths@), test_views(files@), hint@)) / 4,
        }),
{
    let mut t = copy("test_map - \"");
    t.append(a.symbol.as_str());
    t.append("\"  (roots ");
    t.append(list_text(paths).as_str());
    t.append(")");
    let mut note = copy("");
    assert(strs(a.tags@).len() == a.tags@.len());
    if a.tags.len() > 0 {
        note = copy("  tags [");
        note.append(list_text(&a.tags).as_str());
        note.append("]");
    }
    t.append(note.as_str());
    t.append("\n");
    assert(t@ == test_head(a@, strs(paths@)));
    let v: Vec<TestFile> = if a.tags.len() > 0 {
        keep_tagged(files, &a.tags)
    } else {
        copy_files(files)
    };
    assert(test_views(v@).len() == v@.len());
    let baseline: u64 = scanned / 4;
    if v.len() == 0 {
        if a.tags.len() > 0 {
            t.append("\n(no test files with tags ");
            t.append(list_text(&a.tags).as_str());
            t.append(" reference \"");
            t.append(a.symbol.as_str());
            t.append("\")\n");
            t.append("Run with fewer tags or omit \"tags\" to broaden.\n");
        } else {
            t.append("\n(no test file references this symbol - it may be untested)\n");
        }
        let returned: u64 = (size(t.as_str()) / 4) as u64;
        return Built { text: t, baseline, returned };
    }
    t.append("\n");
    t.append(decimal(v.len() as u64).as_str());
    t.append(" test file(s) reference it (most relevant first):\n");
    let mut t = append_rows(t, &v, a.max, a.budget);
    t.append("\nRun the top file(s) first rather than the whole suite.\n");
    let mut tail = copy("");
    if a.tags.len() > 0 {
        tail = copy("Test filter example: ");
        tail.append(hint);
        tail.append("\n");
    }
    t.append(tail.as_str());
    let returned: u64 = (size(t.as_str()) / 4) as u64;
    Built { text: t, baseline, returned }
}

/// A file that is listed for tags has each of them.
pub proof fn law_listed_files_have_the_tags(
    files: Seq<TestFileView>,
    wanted: Seq<Seq<char>>,
    i: int,
    j: int,
)
    requires
        0 <= i < files.filter(tagged(wanted)).len(),
        0 <= j < wanted.len(),
    ensures
        tag_among(file_tags(files.filter(tagged(wanted))[i].text), wanted[j]),
{
    files.lemma_filter_pred(tagged(wanted), i);
}

/// The rows of the first `m` files.
pub open spec fn first_rows(v: Seq<TestFileView>, m: nat) -> Seq<char>
    decreases m,
{
    if m == 0 {
        ""@
    } else {
        first_rows(v, (m - 1) as nat) + test_row(v[m - 1])
    }
}

/// The tokens of the first `m` rows, each for itself.
pub open spec fn row_tokens(v: Seq<TestFileView>, m: nat) -> nat
    decreases m,
{
    if m == 0 {
        0
    } else {
        row_tokens(v, (m - 1) as nat) + blen(test_row(v[m - 1])) / 4
    }
}

/// What stands behind the first `m` rows: how many files are left, and why.
pub open spec fn rows_note(total: nat, max: nat, m: nat) -> Seq<char> {
    if m >= total {
        ""@
    } else {
        "  … (+"@ + dec((total - m) as nat) + (if m >= max {
            " more; raise \"max\")\n"@
        } else {
            " more; raise token_budget)\n"@
        })
    }
}

/// `m` rows are as many as there may be: no more than asked for, beyond the first
/// within the budget, and one more would not do.
pub open spec fn rows_fill(
    v: Seq<TestFileView>,
    max: nat,
    budget: nat,
    used: nat,
    m: nat,
) -> bool {
    &&& m <= v.len()
    &&& m <= max
    &&& m > 1 ==> used + row_tokens(v, m) <= budget
    &&& m < v.len() && m < max ==> m > 0 && used + row_tokens(v, m + 1) > budget
}

proof fn lemma_rows_fill(
    top: Seq<char>,
    v: Seq<TestFileView>,
    max: nat,
    budget: nat,
    used: nat,
    k: nat,
) -> (m: nat)
    requires
        k <= v.len(),
        k <= max,
        k > 1 ==> used + row_tokens(v, k) <= budget,
    ensures
        rows_fill(v, max, budget, used, m),
        rows_from(top + first_rows(v, k), v, max, budget, used + row_tokens(v, k), k as int) == top
            + first_rows(v, m) + rows_note(v.len(), max, m),
    decreases v.len() - k,
{
    let out = top + first_rows(v, k);
    let left = dec((v.len() - k) as nat);
    reveal_strlit("");
    if k == v.len() {
        assert(out + ""@ =~= out);
        k
    } else if k >= max {
        assert(out + "  … (+"@ + left + " more; raise \"max\")\n"@ =~= out + ("  … (+"@ + left
            + " more; raise \"max\")\n"@));
        k
    } else {
        let row = test_row(v[k as int]);
        if used + row_tokens(v, k) + blen(row) / 4 > budget && k > 0 {
            assert(out + "  … (+"@ + left + " more; raise token_budget)\n"@ =~= out + ("  … (+"@
                + left + " more; raise token_budget)\n"@));
            k
        } else {
            assert(out + row =~= top + first_rows(v, k + 1));
            lemma_rows_fill(top, v, max, budget, used, k + 1)
        }
    }
}

/// The list of test files holds the first ones, as many as were asked for and the
/// budget has room for but at least one, and says how many are left.
pub proof fn law_list_fills_its_budget(
    top: Seq<char>,
    v: Seq<TestFileView>,
    max: nat,
    budget: nat,
)
    requires
        max > 0,
    ensures
        exists|m: nat|
            (v.len() > 0 ==> m > 0) && #[trigger] rows_fill(v, max, budget, blen(top) / 4, m)
                && rows_from(top, v, max, budget, blen(top) / 4, 0) == top + first_rows(v, m)
                + rows_note(v.len(), max, m),
{
    let m = lemma_rows_fill(top, v, max, budget, blen(top) / 4, 0);
    reveal_strlit("");
    assert(top + first_rows(v, 0) =~= top);
    assert(rows_fill(v, max, budget, blen(top) / 4, m));
}

} // verus!
