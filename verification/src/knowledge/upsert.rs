//! Writing a section of a note.
use vstd::prelude::*;
use crate::args::{optional_str, text_at};
use crate::json::{bool_or, flag_or, str_or, string_or, Datum, Json};
use crate::paths::{is_absolute, law_accepted_path_stays_below, rel_path, validate_rel_path};
use crate::syntax::{at_byte, Source};
use crate::text::{blen, copy, dec, decimal, ends, ends_with, lines, lines_of};
use crate::text::{lowercase, opt_text, outcome, quote, quoted, same, size, slice, split_char, split_on};
use crate::text::{starts, starts_with, strs, to_chars, to_lower, trim, trim_end, trim_end_of};
use crate::text::{trim_start_by, trim_start_of, trimmed, trimmed_end, trimmed_end_of, trimmed_start_of};
use crate::text::{verdict, lemma_trim_start_at};

verus! {

// ---------------------------------------------------------------------------
// Sections of a text

/// White space of ASCII.
pub open spec fn ascii_white(c: char) -> bool {
    c == ' ' || c == '\t' || c == '\n' || c == '\u{c}' || c == '\r'
}

/// The number of `#` at the beginning of a line.
pub open spec fn hashes(line: Seq<char>) -> nat
    decreases line.len(),
{
    if line.len() > 0 && line[0] == '#' {
        1 + hashes(line.drop_first())
    } else {
        0
    }
}

/// The level of the heading that a line is: `#` once or more, then white space.
pub open spec fn level(line: Seq<char>) -> Option<nat> {
    let n = hashes(line);
    if 0 < n < line.len() && ascii_white(line[n as int]) {
        Some(n)
    } else {
        None
    }
}

proof fn lemma_hashes_at(line: Seq<char>, n: int)
    requires
        0 <= n <= line.len(),
        forall|k: int| 0 <= k < n ==> #[trigger] line[k] == '#',
        n == line.len() || line[n] != '#',
    ensures
        hashes(line) == n,
    decreases n,
{
    if n > 0 {
        let d = line.drop_first();
        assert(line[0] == '#');
        assert forall|k: int| 0 <= k < n - 1 implies #[trigger] d[k] == '#' by {
            assert(line[k + 1] == '#');
        }
        lemma_hashes_at(d, n - 1);
    }
}

pub proof fn lemma_hashes(line: Seq<char>)
    ensures
        hashes(line) <= line.len(),
        forall|k: int| 0 <= k < hashes(line) ==> #[trigger] line[k] == '#',
        hashes(line) < line.len() ==> line[hashes(line) as int] != '#',
    decreases line.len(),
{
    if line.len() > 0 && line[0] == '#' {
        let d = line.drop_first();
        lemma_hashes(d);
        assert forall|k: int| 0 <= k < hashes(line) implies #[trigger] line[k] == '#' by {
            if k > 0 {
                assert(d[k - 1] == '#');
            }
        }
    }
}

pub fn heading_level(line: &str) -> (r: Option<usize>)
    ensures
        match r {
            Some(n) => level(line@) == Some(n as nat),
            None => level(line@) is None,
        },
{
    let v = to_chars(line);
    let mut n: usize = 0;
    while n < v.len() && v[n] == '#'
        invariant
            n <= v@.len(),
            v@ == line@,
            forall|k: int| 0 <= k < n ==> #[trigger] v@[k] == '#',
        decreases v@.len() - n,
    {
        n += 1;
    }
    proof {
        lemma_hashes_at(line@, n as int);
    }
    if n == 0 || n >= v.len() {
        return None;
    }
    let c: char = v[n];
    if c == ' ' || c == '\t' || c == '\n' || c == '\u{c}' || c == '\r' {
        Some(n)
    } else {
        None
    }
}

/// Whether a line is a heading with this text, case aside.
pub open spec fn is_heading(line: Seq<char>, heading: Seq<char>) -> bool {
    match level(line) {
        Some(n) => lowercase(trimmed(line.skip(n as int))) == lowercase(heading),
        None => false,
    }
}

fn heads(line: &str, target: &str, heading: Ghost<Seq<char>>) -> (r: bool)
    requires
        target@ == lowercase(heading@),
    ensures
        r == is_heading(line@, heading@),
{
    match heading_level(line) {
        Some(n) => {
            let v = to_chars(line);
            proof {
                lemma_hashes(line@);
            }
            let rest = slice(&v, n, v.len());
            assert(rest@ =~= line@.skip(n as int));
            same(to_lower(trim(rest.as_str()).as_str()).as_str(), target)
        },
        None => false,
    }
}

/// The first line from `i` on that is a heading with this text, or the number of
/// lines.
pub open spec fn heading_from(ls: Seq<Seq<char>>, heading: Seq<char>, i: nat) -> nat
    decreases ls.len() - i,
{
    if i >= ls.len() || is_heading(ls[i as int], heading) {
        i
    } else {
        heading_from(ls, heading, i + 1)
    }
}

/// The first line from `i` on that is a heading, or the number of lines.
pub open spec fn next_heading(ls: Seq<Seq<char>>, i: nat) -> nat
    decreases ls.len() - i,
{
    if i >= ls.len() || level(ls[i as int]) is Some {
        i
    } else {
        next_heading(ls, i + 1)
    }
}

/// The lines from `a` up to `b`, each ended by a line feed.
pub open spec fn ended(ls: Seq<Seq<char>>, a: int, b: int) -> Seq<char>
    decreases b - a,
{
    if b <= a {
        ""@
    } else {
        ended(ls, a, b - 1) + ls[b - 1] + "\n"@
    }
}

/// A body under the line of its heading.
pub open spec fn under(line: Seq<char>, body: Seq<char>) -> Seq<char> {
    line + "\n\n"@ + body + "\n"@
}

/// A section as it is written.
pub open spec fn section(heading: Seq<char>, body: Seq<char>) -> Seq<char> {
    under("# "@ + heading, body)
}

/// A note with the body under a heading replaced: the first line with that heading
/// stays, and what follows it up to the next heading gives way to the new body.
/// Nothing where there is no such heading.
pub open spec fn section_replaced(
    src: Seq<char>,
    heading: Seq<char>,
    body: Seq<char>,
) -> Option<Seq<char>> {
    let ls = lines_of(src);
    let a = heading_from(ls, heading, 0);
    if a >= ls.len() {
        None
    } else {
        let b = next_heading(ls, a + 1);
        Some(
            trimmed_end(
                ended(ls, 0, a as int) + under(ls[a as int], body) + ended(
                    ls,
                    b as int,
                    ls.len() as int,
                ),
            ) + "\n"@,
        )
    }
}

fn write_lines(out: &mut String, ls: &Vec<String>, a: usize, b: usize)
    requires
        a <= b <= ls@.len(),
    ensures
        final(out)@ == old(out)@ + ended(strs(ls@), a as int, b as int),
{
    let ghost lv = strs(ls@);
    let ghost first = out@;
    assert(first + ""@ =~= first) by {
        reveal_strlit("");
    }
    for i in a..b
        invariant
            a <= b <= ls@.len(),
            lv == strs(ls@),
            out@ == first + ended(lv, a as int, i as int),
    {
        assert(lv[i as int] == ls@[i as int]@);
        let ghost so_far = ended(lv, a as int, i as int);
        out.append(ls[i].as_str());
        out.append("\n");
        assert(out@ =~= first + (so_far + lv[i as int] + "\n"@));
    }
}

fn write_under(out: &mut String, line: &str, body: &str)
    ensures
        final(out)@ == old(out)@ + under(line@, body@),
{
    let ghost first = out@;
    out.append(line);
    out.append("\n\n");
    out.append(body);
    out.append("\n");
    assert(out@ =~= first + under(line@, body@));
}

fn write_section(out: &mut String, heading: &str, body: &str)
    ensures
        final(out)@ == old(out)@ + section(heading@, body@),
{
    let mut line = copy("# ");
    line.append(heading);
    write_under(out, line.as_str(), body);
}

/// Replaces the body under a heading. Returns whether the heading was found;
/// where it was not, the text stays as it is.
pub fn replace_section(src: &mut String, heading: &str, body: &str) -> (r: bool)
    ensures
        r == (section_replaced(old(src)@, heading@, body@) is Some),
        final(src)@ == (match section_replaced(old(src)@, heading@, body@) {
            Some(t) => t,
            None => old(src)@,
        }),
{
    let ls = lines(src.as_str());
    let ghost lv = strs(ls@);
    assert(lv.len() == ls@.len());
    let target = to_lower(heading);
    let mut a: usize = 0;
    while a < ls.len() && !heads(ls[a].as_str(), target.as_str(), Ghost(heading@))
        invariant
            a <= ls@.len(),
            lv == strs(ls@),
            lv.len() == ls@.len(),
            target@ == lowercase(heading@),
            heading_from(lv, heading@, 0) == heading_from(lv, heading@, a as nat),
        decreases ls@.len() - a,
    {
        assert(lv[a as int] == ls@[a as int]@);
        a += 1;
    }
    if a < ls.len() {
        assert(lv[a as int] == ls@[a as int]@);
    }
    if a >= ls.len() {
        return false;
    }
    let mut b: usize = a + 1;
    while b < ls.len() && heading_level(ls[b].as_str()).is_none()
        invariant
            a < b <= ls@.len(),
            lv == strs(ls@),
            lv.len() == ls@.len(),
            next_heading(lv, (a + 1) as nat) == next_heading(lv, b as nat),
        decreases ls@.len() - b,
    {
        assert(lv[b as int] == ls@[b as int]@);
        b += 1;
    }
    if b < ls.len() {
        assert(lv[b as int] == ls@[b as int]@);
    }
    let mut rebuilt = copy("");
    write_lines(&mut rebuilt, &ls, 0, a);
    assert(rebuilt@ =~= ended(lv, 0, a as int)) by {
        reveal_strlit("");
    }
    write_under(&mut rebuilt, ls[a].as_str(), body);
    write_lines(&mut rebuilt, &ls, b, ls.len());
    let mut t = trim_end(rebuilt.as_str());
    t.append("\n");
    *src = t;
    true
}

// ---------------------------------------------------------------------------
// The request

/// The modes of writing.
#[derive(Clone, Copy, PartialEq, Eq, Structural)]
pub enum Mode {
    UpsertSection,
    AppendSection,
    ReplaceFile,
    Pitfall,
}

pub open spec fn mode_named(s: Seq<char>) -> Option<Mode> {
    if s == "upsert_section"@ {
        Some(Mode::UpsertSection)
    } else if s == "append_section"@ {
        Some(Mode::AppendSection)
    } else if s == "replace_file"@ {
        Some(Mode::ReplaceFile)
    } else if s == "pitfall"@ {
        Some(Mode::Pitfall)
    } else {
        None
    }
}

fn read_mode(s: &str) -> (r: Option<Mode>)
    ensures
        r == mode_named(s@),
{
    if same(s, "upsert_section") {
        Some(Mode::UpsertSection)
    } else if same(s, "append_section") {
        Some(Mode::AppendSection)
    } else if same(s, "replace_file") {
        Some(Mode::ReplaceFile)
    } else if same(s, "pitfall") {
        Some(Mode::Pitfall)
    } else {
        None
    }
}

/// What is to be written.
pub struct Entry {
    pub path: String,
    pub mode: Mode,
    pub heading: String,
    pub body: String,
    /// The tag of the tests that verify a pitfall.
    pub tag: Option<String>,
}

#[verifier::ext_equal]
pub struct EntryView {
    pub path: Seq<char>,
    pub mode: Mode,
    pub heading: Seq<char>,
    pub body: Seq<char>,
    pub tag: Option<Seq<char>>,
}

impl View for Entry {
    type V = EntryView;

    open spec fn view(&self) -> EntryView {
        EntryView {
            path: self.path@,
            mode: self.mode,
            heading: self.heading@,
            body: self.body@,
            tag: opt_text(self.tag),
        }
    }
}

pub open spec fn entry_outcome(r: Result<Entry, String>) -> Result<EntryView, Seq<char>> {
    match r {
        Ok(e) => Ok(e@),
        Err(e) => Err(e@),
    }
}

/// The first line of a symptom.
pub open spec fn symptom_line(symptom: Seq<char>) -> Seq<char> {
    let ls = lines_of(symptom);
    trimmed(
        if ls.len() > 0 {
            ls[0]
        } else {
            symptom
        },
    )
}

/// Whether a heading can be made of a symptom: its first line is short, or can be
/// cut where headings are cut.
pub open spec fn makes_heading(symptom: Seq<char>) -> bool {
    blen(symptom_line(symptom)) > 72 ==> at_byte(symptom_line(symptom), 69) is Some
}

/// The heading for a pitfall: the first line of its symptom, cut to 72 bytes.
pub open spec fn pitfall_heading(symptom: Seq<char>) -> Seq<char> {
    let line = symptom_line(symptom);
    if blen(line) > 72 {
        line.take(at_byte(line, 69)->0) + "..."@
    } else {
        line
    }
}

fn read_symptom_line(symptom: &str) -> (r: String)
    ensures
        r@ == symptom_line(symptom@),
{
    let ls = lines(symptom);
    assert(strs(ls@).len() == ls@.len());
    if ls.len() > 0 {
        assert(strs(ls@)[0] == ls@[0]@);
        trim(ls[0].as_str())
    } else {
        trim(symptom)
    }
}

pub fn can_make_heading(symptom: &str) -> (r: bool)
    ensures
        r == makes_heading(symptom@),
{
    let line = read_symptom_line(symptom);
    size(line.as_str()) <= 72 || Source::new(line.as_str()).position(69).is_some()
}

pub fn pitfall_heading_from_symptom(symptom: &str) -> (r: String)
    requires
        makes_heading(symptom@),
    ensures
        r@ == pitfall_heading(symptom@),
{
    let line = read_symptom_line(symptom);
    if size(line.as_str()) > 72 {
        let src = Source::new(line.as_str());
        let n: usize = match src.position(69) {
            Some(n) => n,
            None => 0,
        };
        let mut h = slice(&src.chars, 0, n);
        assert(h@ =~= line@.take(n as int));
        h.append("...");
        h
    } else {
        line
    }
}

/// The body of a pitfall.
pub open spec fn pitfall_body(symptom: Seq<char>, cause: Seq<char>, fix: Seq<char>) -> Seq<char> {
    "**Symptom:** "@ + symptom + "\n\n**Root cause:** "@ + cause + "\n\n**Fix:** "@ + fix + "\n"@
}

pub open spec fn bare_tag(tag: Seq<char>) -> Seq<char> {
    trimmed_end_of(trimmed_start_of(tag, '['), ']')
}

/// The entry that reports a pitfall.
pub open spec fn pitfall_entry(j: Json, path: Seq<char>) -> Result<EntryView, Seq<char>> {
    match text_at(j, "symptom"@) {
        None => Err("symptom is required for mode pitfall"@),
        Some(symptom) => match text_at(j, "root_cause"@) {
            None => Err("root_cause is required for mode pitfall"@),
            Some(cause) => match text_at(j, "fix"@) {
                None => Err("fix is required for mode pitfall"@),
                Some(fix) => Ok(
                    EntryView {
                        path,
                        mode: Mode::Pitfall,
                        heading: match text_at(j, "heading"@) {
                            Some(h) => h,
                            None => pitfall_heading(symptom),
                        },
                        body: pitfall_body(symptom, cause, fix),
                        tag: match text_at(j, "test_tag"@) {
                            Some(t) => Some(bare_tag(t)),
                            None => None,
                        },
                    },
                ),
            },
        },
    }
}

/// The entry that gives a heading and a body.
pub open spec fn plain_entry(
    j: Json,
    path: Seq<char>,
    mode: Seq<char>,
) -> Result<EntryView, Seq<char>> {
    match text_at(j, "heading"@) {
        None => Err("heading is required"@),
        Some(heading) => match text_at(j, "body"@) {
            None => Err("body is required"@),
            Some(body) => match mode_named(mode) {
                Some(mode) => Ok(EntryView { path, mode, heading, body, tag: None }),
                None => Err(
                    "unknown mode "@ + quoted(mode)
                        + "; use upsert_section, append_section, replace_file, or pitfall"@,
                ),
            },
        },
    }
}

/// The entry that a request describes.
pub open spec fn entry_of(j: Json) -> Result<EntryView, Seq<char>> {
    match text_at(j, "path"@) {
        None => Err("path is required"@),
        Some(path) => {
            let mode = str_or(j, "mode"@, "upsert_section"@);
            if mode == "pitfall"@ {
                pitfall_entry(j, path)
            } else {
                plain_entry(j, path, mode)
            }
        },
    }
}

/// Whether a request that needs a heading made of its symptom has one that can be
/// made.
pub open spec fn headable(j: Json) -> bool {
    str_or(j, "mode"@, "upsert_section"@) == "pitfall"@ && text_at(j, "path"@) is Some ==> pitfall_headable(j)
}

pub open spec fn pitfall_headable(j: Json) -> bool {
    text_at(j, "root_cause"@) is Some && text_at(j, "fix"@) is Some && text_at(
        j,
        "heading"@,
    ) is None ==> (match text_at(j, "symptom"@) {
        Some(s) => makes_heading(s),
        None => true,
    })
}

pub fn is_headable(args: &Datum) -> (r: bool)
    ensures
        r == headable(args@),
{
    if same(string_or(args, "mode", "upsert_section").as_str(), "pitfall") && optional_str(
        args,
        "path",
    ).is_some() && optional_str(args, "root_cause").is_some() && optional_str(args, "fix").is_some()
        && optional_str(args, "heading").is_none() {
        match optional_str(args, "symptom") {
            Some(s) => can_make_heading(s.as_str()),
            None => true,
        }
    } else {
        true
    }
}

fn read_pitfall(args: &Datum, path: String) -> (r: Result<Entry, String>)
    requires
        pitfall_headable(args@),
    ensures
        entry_outcome(r) == pitfall_entry(args@, path@),
{
    let symptom = match optional_str(args, "symptom") {
        Some(s) => s,
        None => {
            return Err(copy("symptom is required for mode pitfall"));
        },
    };
    let cause = match optional_str(args, "root_cause") {
        Some(s) => s,
        None => {
            return Err(copy("root_cause is required for mode pitfall"));
        },
    };
    let fix = match optional_str(args, "fix") {
        Some(s) => s,
        None => {
            return Err(copy("fix is required for mode pitfall"));
        },
    };
    let heading = match optional_str(args, "heading") {
        Some(h) => h,
        None => pitfall_heading_from_symptom(symptom.as_str()),
    };
    let mut body = copy("**Symptom:** ");
    body.append(symptom.as_str());
    body.append("\n\n**Root cause:** ");
    body.append(cause.as_str());
    body.append("\n\n**Fix:** ");
    body.append(fix.as_str());
    body.append("\n");
    let tag = match optional_str(args, "test_tag") {
        Some(t) => Some(trim_end_of(trim_start_of(t.as_str(), '[').as_str(), ']')),
        None => None,
    };
    Ok(Entry { path, mode: Mode::Pitfall, heading, body, tag })
}

/// Reads a request to write.
pub fn read_entry(args: &Datum) -> (r: Result<Entry, String>)
    requires
        headable(args@),
    ensures
        entry_outcome(r) == entry_of(args@),
{
    let path = match optional_str(args, "path") {
        Some(s) => s,
        None => {
            return Err(copy("path is required"));
        },
    };
    let mode = string_or(args, "mode", "upsert_section");
    if same(mode.as_str(), "pitfall") {
        return read_pitfall(args, path);
    }
    let heading = match optional_str(args, "heading") {
        Some(s) => s,
        None => {
            return Err(copy("heading is required"));
        },
    };
    let body = match optional_str(args, "body") {
        Some(s) => s,
        None => {
            return Err(copy("body is required"));
        },
    };
    match read_mode(mode.as_str()) {
        Some(mode) => Ok(Entry { path, mode, heading, body, tag: None }),
        None => {
            let mut e = copy("unknown mode ");
            e.append(quote(mode.as_str()).as_str());
            e.append("; use upsert_section, append_section, replace_file, or pitfall");
            Err(e)
        },
    }
}

// ---------------------------------------------------------------------------
// The path

/// The predicate of being a slash of either kind.
pub open spec fn is_slash() -> spec_fn(char) -> bool {
    |c: char| c == '/' || c == '\\'
}

/// A path as it is checked: without the slashes that it begins with.
pub open spec fn unrooted(path: Seq<char>) -> Seq<char> {
    trim_start_by(trimmed(path), is_slash())
}

fn unroot(path: &str) -> (r: String)
    ensures
        r@ == unrooted(path@),
{
    let t = trim(path);
    let v = to_chars(t.as_str());
    let mut n: usize = 0;
    while n < v.len() && (v[n] == '/' || v[n] == '\\')
        invariant
            n <= v@.len(),
            v@ == t@,
            forall|k: int| 0 <= k < n ==> is_slash()(#[trigger] v@[k]),
        decreases v@.len() - n,
    {
        n += 1;
    }
    proof {
        lemma_trim_start_at(t@, is_slash(), n as int);
    }
    let r = slice(&v, n, v.len());
    assert(r@ =~= t@.skip(n as int));
    r
}

/// Whether a path lies at or below a directory.
pub open spec fn below(path: Seq<char>, dir: Seq<char>) -> bool {
    path == dir || starts(path, dir + "/"@)
}

fn lies_below(path: &str, dir: &str) -> (r: bool)
    ensures
        r == below(path@, dir@),
{
    let mut d = copy(dir);
    d.append("/");
    same(path, dir) || starts_with(path, d.as_str())
}

/// What follows the last dot of a path.
pub open spec fn extension(path: Seq<char>) -> Seq<char> {
    split_on(path, '.').last()
}

/// Notes may be written to the directories of rules, documents and notes, as
/// Markdown.
pub open spec fn path_check(path: Seq<char>) -> Result<(), Seq<char>> {
    let e = extension(path);
    if !(below(path, ".cursor/rules"@) || below(path, "docs"@) || below(path, ".wordkeep/notes"@)) {
        Err("path must be under one of: .cursor/rules, docs, .wordkeep/notes"@)
    } else if !is_doc_ext(e) {
        Err("path must end with .md, .mdc, or .markdown"@)
    } else {
        Ok(())
    }
}

/// The extensions of notes.
pub open spec fn is_doc_ext(e: Seq<char>) -> bool {
    e == "md"@ || e == "mdc"@ || e == "markdown"@
}

pub fn doc_ext(e: &str) -> (r: bool)
    ensures
        r == is_doc_ext(e@),
{
    same(e, "md") || same(e, "mdc") || same(e, "markdown")
}

fn check_path(path: &str) -> (r: Result<(), String>)
    ensures
        verdict(r) == path_check(path@),
{
    if !(lies_below(path, ".cursor/rules") || lies_below(path, "docs") || lies_below(
        path,
        ".wordkeep/notes",
    )) {
        return Err(copy("path must be under one of: .cursor/rules, docs, .wordkeep/notes"));
    }
    let parts = split_char(path, '.');
    let n: usize = parts.len();
    assert(strs(parts@).last() == parts@[n - 1]@);
    if doc_ext(parts[n - 1].as_str()) {
        Ok(())
    } else {
        Err(copy("path must end with .md, .mdc, or .markdown"))
    }
}

/// The path below the root that a note is written to.
pub open spec fn upsert_path(path: Seq<char>) -> Result<Seq<char>, Seq<char>> {
    match rel_path(unrooted(path)) {
        Err(e) => Err(e),
        Ok(p) => match path_check(p) {
            Err(e) => Err(e),
            Ok(_) => Ok(p),
        },
    }
}

/// Finds where a note is to be written, if it may be written there.
pub fn resolve_upsert_path(path: &str) -> (r: Result<String, String>)
    ensures
        outcome(r) == upsert_path(path@),
{
    match validate_rel_path(unroot(path).as_str()) {
        Err(e) => Err(e),
        Ok(p) => match check_path(p.as_str()) {
            Err(e) => Err(e),
            Ok(_) => Ok(p),
        },
    }
}

/// What a request writes, and the path below the root that it writes to.
pub open spec fn upsert_of(j: Json) -> Result<(EntryView, Seq<char>), Seq<char>> {
    match entry_of(j) {
        Err(e) => Err(e),
        Ok(entry) => match upsert_path(entry.path) {
            Err(e) => Err(e),
            Ok(p) => Ok((entry, p)),
        },
    }
}

/// Reads a request to write and finds where it may write.
pub fn read_upsert(args: &Datum) -> (r: Result<(Entry, String), String>)
    requires
        headable(args@),
    ensures
        match (r, upsert_of(args@)) {
            (Ok(a), Ok(b)) => a.0@ == b.0 && a.1@ == b.1,
            (Err(a), Err(b)) => a@ == b,
            _ => false,
        },
{
    match read_entry(args) {
        Err(e) => Err(e),
        Ok(entry) => match resolve_upsert_path(entry.path.as_str()) {
            Err(e) => Err(e),
            Ok(p) => Ok((entry, p)),
        },
    }
}

proof fn lemma_extension(path: Seq<char>)
    ensures
        split_on(path, '.').len() > 0,
        ends(path, extension(path)),
    decreases path.len(),
{
    if path.len() > 0 {
        let front = path.drop_last();
        lemma_extension(front);
        let last = extension(front);
        assert(front.subrange(front.len() - last.len(), front.len() as int) == last);
        let e = extension(path);
        if path.last() != '.' {
            assert(e == last.push(path.last()));
            assert(path.subrange(path.len() - e.len(), path.len() as int) =~= e);
        } else {
            assert(e =~= Seq::empty());
            assert(path.subrange(path.len() - 0, path.len() as int) =~= e);
        }
    } else {
        assert(path.subrange(0, 0) =~= extension(path));
    }
}

/// A note is only ever written below the directories of rules, documents and notes:
/// the path that it is written to is relative, no part of it is `..`, and it lies
/// below one of the three.
pub proof fn law_notes_stay_in_their_directories(path: Seq<char>)
    ensures
        upsert_path(path) matches Ok(p) ==> {
            &&& !is_absolute(p)
            &&& forall|i: int|
                0 <= i < split_on(p, '/').len() ==> #[trigger] split_on(p, '/')[i] != ".."@
            &&& starts(p, ".cursor/rules/"@) || starts(p, "docs/"@) || starts(
                p,
                ".wordkeep/notes/"@,
            )
        },
{
    law_accepted_path_stays_below(unrooted(path));
    if let Ok(p) = upsert_path(path) {
        lemma_extension(p);
        reveal_strlit("md");
        reveal_strlit("mdc");
        reveal_strlit("markdown");
        reveal_strlit("/");
        reveal_strlit(".cursor/rules");
        reveal_strlit("docs");
        reveal_strlit(".wordkeep/notes");
        reveal_strlit(".cursor/rules/");
        reveal_strlit("docs/");
        reveal_strlit(".wordkeep/notes/");
        assert(".cursor/rules"@ + "/"@ =~= ".cursor/rules/"@);
        assert("docs"@ + "/"@ =~= "docs/"@);
        assert(".wordkeep/notes"@ + "/"@ =~= ".wordkeep/notes/"@);
        let e = extension(p);
        assert(p.subrange(p.len() - e.len(), p.len() as int)[e.len() - 1] == p.last());
        assert(e.last() == 'd' || e.last() == 'c' || e.last() == 'n');
        assert(".cursor/rules"@.last() == 's');
        assert("docs"@.last() == 's');
        assert(".wordkeep/notes"@.last() == 's');
    }
}

// ---------------------------------------------------------------------------
// Writing

/// A new note. A rule file begins with front matter.
pub open spec fn new_file(
    path: Seq<char>,
    heading: Seq<char>,
    body: Seq<char>,
    j: Json,
) -> Seq<char> {
    front_matter(path, j) + section(heading, body)
}

pub open spec fn front_matter(path: Seq<char>, j: Json) -> Seq<char> {
    if ends(path, ".mdc"@) {
        "---\ndescription: "@ + trimmed(
            str_or(j, "description"@, "Agent-maintained project notes"@),
        ) + "\nalwaysApply: "@ + (if bool_or(j, "always_apply"@, false) {
            "true"@
        } else {
            "false"@
        }) + "\n\n---\n\n"@
    } else {
        ""@
    }
}

pub fn build_new_file(path: &str, heading: &str, body: &str, args: &Datum) -> (r: String)
    ensures
        r@ == new_file(path@, heading@, body@, args@),
{
    let mut out = if ends_with(path, ".mdc") {
        let mut t = copy("---\ndescription: ");
        t.append(
            trim(string_or(args, "description", "Agent-maintained project notes").as_str()).as_str(),
        );
        t.append("\nalwaysApply: ");
        t.append(
            if flag_or(args, "always_apply", false) {
                "true"
            } else {
                "false"
            },
        );
        t.append("\n\n---\n\n");
        t
    } else {
        copy("")
    };
    write_section(&mut out, heading, body);
    out
}

/// The body that an entry writes, with the command that verifies a pitfall.
pub open spec fn written_body(e: EntryView, hint: Seq<char>) -> Seq<char> {
    if e.tag is Some {
        e.body + "\n**Verify:** `"@ + hint + "`\n"@
    } else {
        e.body
    }
}

/// A note with a section added at its end.
pub open spec fn appended(src: Seq<char>, heading: Seq<char>, body: Seq<char>) -> Seq<char> {
    src + "\n\n"@ + section(heading, body)
}

/// The note after writing, and what was done to it.
pub open spec fn write_result(
    e: EntryView,
    body: Seq<char>,
    j: Json,
    existing: Option<Seq<char>>,
) -> (Seq<char>, Seq<char>) {
    let fresh = new_file(e.path, e.heading, body, j);
    match e.mode {
        Mode::ReplaceFile => (
            if starts(body, "---"@) || starts(body, "#"@) {
                body + "\n"@
            } else {
                fresh
            },
            "replaced file"@,
        ),
        Mode::AppendSection => match existing {
            None => (fresh, "created file"@),
            Some(src) => (appended(src, e.heading, body), "appended section"@),
        },
        _ => match existing {
            None => (fresh, "created file"@),
            Some(src) => match section_replaced(src, e.heading, body) {
                Some(t) => (t, "updated section"@),
                None => (appended(src, e.heading, body), "appended section"@),
            },
        },
    }
}

/// What was written and the answer to it.
pub struct Written {
    pub note: String,
    pub answer: String,
}

/// The answer to a request to write.
pub open spec fn write_answer(e: EntryView, action: Seq<char>, note: Seq<char>) -> Seq<char> {
    "knowledge_upsert - "@ + (if e.mode == Mode::Pitfall {
        "pitfall "@
    } else {
        ""@
    }) + action + ": "@ + e.path + " (heading "@ + quoted(e.heading) + ", "@ + dec(blen(note))
        + " bytes)"@
}

fn append_section(src: &str, heading: &str, body: &str) -> (r: String)
    ensures
        r@ == appended(src@, heading@, body@),
{
    let mut out = copy(src);
    out.append("\n\n");
    write_section(&mut out, heading, body);
    out
}

/// Writes an entry into the note that exists, or into a new one. The hint is the
/// command that runs the tests of the entry's tag.
pub fn write(e: &Entry, args: &Datum, existing: &Option<String>, hint: &str) -> (r: Written)
    ensures
        ({
            let body = written_body(e@, hint@);
            let (note, action) = write_result(e@, body, args@, opt_text(*existing));
            r.note@ == note && r.answer@ == write_answer(e@, action, note)
        }),
{
    let mut body = copy(e.body.as_str());
    if e.tag.is_some() {
        body.append("\n**Verify:** `");
        body.append(hint);
        body.append("`\n");
    }
    let heading = e.heading.as_str();
    let path = e.path.as_str();
    let (note, action): (String, &str) = match e.mode {
        Mode::ReplaceFile => {
            let note = if starts_with(body.as_str(), "---") || starts_with(body.as_str(), "#") {
                let mut t = copy(body.as_str());
                t.append("\n");
                t
            } else {
                build_new_file(path, heading, body.as_str(), args)
            };
            (note, "replaced file")
        },
        Mode::AppendSection => match existing {
            None => (build_new_file(path, heading, body.as_str(), args), "created file"),
            Some(src) => (
                append_section(src.as_str(), heading, body.as_str()),
                "appended section",
            ),
        },
        _ => match existing {
            None => (build_new_file(path, heading, body.as_str(), args), "created file"),
            Some(src) => {
                let mut t = copy(src.as_str());
                if replace_section(&mut t, heading, body.as_str()) {
                    (t, "updated section")
                } else {
                    (append_section(src.as_str(), heading, body.as_str()), "appended section")
                }
            },
        },
    };
    let mut answer = copy("knowledge_upsert - ");
    answer.append(
        if e.mode == Mode::Pitfall {
            "pitfall "
        } else {
            ""
        },
    );
    answer.append(action);
    answer.append(": ");
    answer.append(path);
    answer.append(" (heading ");
    answer.append(quote(heading).as_str());
    answer.append(", ");
    answer.append(decimal(size(note.as_str()) as u64).as_str());
    answer.append(" bytes)");
    Written { note, answer }
}

} // verus!
