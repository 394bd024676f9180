//! What is written into a note is found when the note is cut into sections.
use vstd::prelude::*;
use crate::json::Json;
use crate::knowledge::{chunk_of, chunks_of, cut_body_line, cut_line, cut_lines, heading_text};
use crate::knowledge::{with_section, ChunkView, Cutting};
use crate::knowledge::upsert::{ended, front_matter, heading_from, is_heading, level, next_heading};
use crate::knowledge::upsert::{section, section_replaced, under, write_result, EntryView, Mode};
use crate::text::{behind, chomp_cr, has_char, is_char, is_space, lemma_split_concat, lemma_split_one};
use crate::text::{lemma_trim_end_at, lemma_trim_start_at};
use crate::text::{lines_of, split_by, split_on, starts, trim_end_by, trim_start_by, trimmed, trimmed_end};
use crate::text::{trimmed_start_of, white};

verus! {

// ---------------------------------------------------------------------------
// Lines

pub open spec fn whole_lines(a: Seq<char>) -> bool {
    a.len() == 0 || a.last() == '\n'
}

/// The lines of two texts, of which the first ends with a line.
pub proof fn lemma_lines_concat(a: Seq<char>, b: Seq<char>)
    requires
        whole_lines(a),
    ensures
        lines_of(a + b) == lines_of(a) + lines_of(b),
{
    lemma_split_concat(a, b, is_char('\n'));
    let f = |t: Seq<char>| chomp_cr(t);
    let pa = split_on(a, '\n');
    let pb = split_on(b, '\n');
    let pc = split_on(a + b, '\n');
    assert(pc.drop_last() =~= pa.drop_last() + pb.drop_last());
    assert(pc.last() == pb.last());
    assert(pc.drop_last().map_values(f) =~= pa.drop_last().map_values(f)
        + pb.drop_last().map_values(f));
    assert(lines_of(a) =~= pa.drop_last().map_values(f));
    assert(lines_of(a + b) =~= lines_of(a) + lines_of(b));
}

/// A text that is one line, ended.
proof fn lemma_one_line(t: Seq<char>)
    requires
        !has_char(t, '\n'),
    ensures
        lines_of(t.push('\n')) == seq![chomp_cr(t)],
{
    lemma_split_one(t);
    let s = t.push('\n');
    assert(s.drop_last() =~= t);
    let parts = split_on(s, '\n');
    assert(parts =~= seq![t, Seq::empty()]);
    assert(lines_of(s) =~= seq![chomp_cr(t)]);
}

// ---------------------------------------------------------------------------
// Cutting

/// Reads `n` lines more.
pub open spec fn cut_on(c: Cutting, path: Seq<char>, ls: Seq<Seq<char>>, n: nat) -> Cutting
    decreases n,
{
    if n == 0 {
        c
    } else {
        cut_line(cut_on(c, path, ls, (n - 1) as nat), path, ls[n - 1])
    }
}

proof fn lemma_cut_concat(path: Seq<char>, a: Seq<Seq<char>>, b: Seq<Seq<char>>, n: nat)
    requires
        n <= b.len(),
    ensures
        cut_lines(path, a + b, a.len() + n) == cut_on(cut_lines(path, a, a.len()), path, b, n),
    decreases n,
{
    if n == 0 {
        lemma_cut_prefix(path, a, b, a.len());
    } else {
        lemma_cut_concat(path, a, b, (n - 1) as nat);
        assert((a + b)[a.len() + n - 1] == b[n - 1]);
    }
}

proof fn lemma_cut_prefix(path: Seq<char>, a: Seq<Seq<char>>, b: Seq<Seq<char>>, n: nat)
    requires
        n <= a.len(),
    ensures
        cut_lines(path, a + b, n) == cut_lines(path, a, n),
    decreases n,
{
    if n > 0 {
        lemma_cut_prefix(path, a, b, (n - 1) as nat);
        assert((a + b)[n - 1] == a[n - 1]);
    }
}

proof fn lemma_cut_on_concat(
    c: Cutting,
    path: Seq<char>,
    a: Seq<Seq<char>>,
    b: Seq<Seq<char>>,
    n: nat,
)
    requires
        n <= b.len(),
    ensures
        cut_on(c, path, a + b, a.len() + n) == cut_on(cut_on(c, path, a, a.len()), path, b, n),
    decreases n,
{
    if n == 0 {
        lemma_cut_on_prefix(c, path, a, b, a.len());
    } else {
        lemma_cut_on_concat(c, path, a, b, (n - 1) as nat);
        assert((a + b)[a.len() + n - 1] == b[n - 1]);
    }
}

proof fn lemma_cut_on_prefix(
    c: Cutting,
    path: Seq<char>,
    a: Seq<Seq<char>>,
    b: Seq<Seq<char>>,
    n: nat,
)
    requires
        n <= a.len(),
    ensures
        cut_on(c, path, a + b, n) == cut_on(c, path, a, n),
    decreases n,
{
    if n > 0 {
        lemma_cut_on_prefix(c, path, a, b, (n - 1) as nat);
        assert((a + b)[n - 1] == a[n - 1]);
    }
}

/// Sections that were found stay found.
proof fn lemma_found_stays(c: Cutting, path: Seq<char>, ls: Seq<Seq<char>>, n: nat, x: ChunkView)
    requires
        c.found.contains(x),
    ensures
        cut_on(c, path, ls, n).found.contains(x),
    decreases n,
{
    if n > 0 {
        lemma_found_stays(c, path, ls, (n - 1) as nat, x);
        let d = cut_on(c, path, ls, (n - 1) as nat);
        lemma_section_stays(d.found, path, d.heading, d.buf, x);
    }
}

proof fn lemma_section_stays(
    found: Seq<ChunkView>,
    path: Seq<char>,
    heading: Seq<char>,
    buf: Seq<char>,
    x: ChunkView,
)
    requires
        found.contains(x),
    ensures
        with_section(found, path, heading, buf).contains(x),
{
    let i = choose|i: int| 0 <= i < found.len() && found[i] == x;
    assert(with_section(found, path, heading, buf)[i] == x);
}

/// No line begins with the mark of a heading.
pub open spec fn no_headings(ls: Seq<Seq<char>>) -> bool {
    forall|i: int| 0 <= i < ls.len() ==> !starts(#[trigger] ls[i], "#"@)
}

proof fn lemma_cut_body(c: Cutting, path: Seq<char>, ls: Seq<Seq<char>>, n: nat)
    requires
        c.begun,
        !c.front,
        no_headings(ls),
        n <= ls.len(),
    ensures
        cut_on(c, path, ls, n) == (Cutting { buf: c.buf + ended(ls, 0, n as int), ..c }),
    decreases n,
{
    reveal_strlit("");
    if n == 0 {
        assert(c.buf + ""@ =~= c.buf);
    } else {
        lemma_cut_body(c, path, ls, (n - 1) as nat);
        assert(!starts(ls[n - 1], "#"@));
        let so_far = ended(ls, 0, n - 1);
        assert(c.buf + so_far + ls[n - 1] + "\n"@ =~= c.buf + (so_far + ls[n - 1] + "\n"@));
    }
}

// ---------------------------------------------------------------------------
// White space

proof fn lemma_trim_end_keeps(x: Seq<char>, y: Seq<char>, n: int)
    requires
        0 < n <= y.len(),
        !white(y[n - 1]),
        forall|k: int| n <= k < y.len() ==> white(#[trigger] y[k]),
    ensures
        trimmed_end(x + y) == x + y.take(n),
        trimmed_end(y) == y.take(n),
{
    let p = is_space();
    let s = x + y;
    assert forall|k: int| x.len() + n <= k < s.len() implies p(#[trigger] s[k]) by {
        assert(white(y[k - x.len()]));
    }
    lemma_trim_end_at(s, p, x.len() + n);
    lemma_trim_end_at(y, p, n);
    assert(s.take(x.len() + n) =~= x + y.take(n));
}

/// The place behind the last character that is no white space.
proof fn lemma_last_solid(y: Seq<char>, i: int) -> (n: int)
    requires
        0 <= i < y.len(),
        !white(y[i]),
    ensures
        i < n <= y.len(),
        !white(y[n - 1]),
        forall|k: int| n <= k < y.len() ==> white(#[trigger] y[k]),
    decreases y.len(),
{
    if !white(y.last()) {
        y.len() as int
    } else {
        let d = y.drop_last();
        let n = lemma_last_solid(d, i);
        assert(d[n - 1] == y[n - 1]);
        assert forall|k: int| n <= k < y.len() implies white(#[trigger] y[k]) by {
            if k < d.len() {
                assert(white(d[k]));
            }
        }
        n
    }
}

proof fn lemma_trim_leading(c: char, s: Seq<char>)
    requires
        white(c),
    ensures
        trimmed(seq![c] + s) == trimmed(s),
{
    let t = seq![c] + s;
    assert(t.drop_first() =~= s);
    assert(is_space()(t[0]));
    assert(trim_start_by(t, is_space()) == trim_start_by(s, is_space()));
}

// ---------------------------------------------------------------------------
// The section

/// A heading that a note gives back: on one line, without white space around,
/// and not beginning with the mark of a heading.
pub open spec fn plain_heading(h: Seq<char>) -> bool {
    &&& h.len() > 0
    &&& trimmed(h) == h
    &&& !has_char(h, '\n')
    &&& h[0] != '#'
}

/// A body that is one section: no line of it begins with the mark of a heading.
pub open spec fn plain_body(b: Seq<char>) -> bool {
    no_headings(lines_of(b + "\n"@))
}

/// A body as a section gives it back: with plain line ends and without white
/// space around.
pub open spec fn settled(b: Seq<char>) -> Seq<char> {
    let ls = lines_of(b + "\n"@);
    trimmed(ended(ls, 0, ls.len() as int))
}

/// Whether the lines of a text leave front matter open.
pub open spec fn front_open(path: Seq<char>, a: Seq<char>) -> bool {
    cut_lines(path, lines_of(a), lines_of(a).len()).front
}

proof fn lemma_trimmed_ends(h: Seq<char>)
    requires
        h.len() > 0,
        trimmed(h) == h,
    ensures
        !white(h[0]),
        !white(h.last()),
{
    crate::text::lemma_trim_shape(h, is_space());
    let a = trim_start_by(h, is_space());
    assert(trimmed(h) == trim_end_by(a, is_space()));
    if white(h[0]) {
        assert(is_space()(h[0]));
        lemma_trim_shorter(h.drop_first());
    } else {
        assert(a == h);
        if white(h.last()) {
            assert(is_space()(h.last()));
            lemma_trim_end_shorter(h.drop_last());
        }
    }
}

proof fn lemma_trim_shorter(s: Seq<char>)
    ensures
        trim_end_by(trim_start_by(s, is_space()), is_space()).len() <= s.len(),
        trim_start_by(s, is_space()).len() <= s.len(),
    decreases s.len(),
{
    if s.len() > 0 && is_space()(s[0]) {
        lemma_trim_shorter(s.drop_first());
    }
    lemma_trim_end_shorter(trim_start_by(s, is_space()));
}

proof fn lemma_trim_end_shorter(s: Seq<char>)
    ensures
        trim_end_by(s, is_space()).len() <= s.len(),
    decreases s.len(),
{
    if s.len() > 0 && is_space()(s.last()) {
        lemma_trim_end_shorter(s.drop_last());
    }
}

/// A line that is read as a heading.
pub open spec fn heading_line(line: Seq<char>) -> bool {
    &&& line.len() > 1
    &&& line[0] == '#'
    &&& !has_char(line, '\n')
}

/// The heading that is read from a line.
pub open spec fn heading_on(line: Seq<char>) -> Seq<char> {
    heading_text(chomp_cr(line).skip(1))
}

/// The state behind the heading line of a section.
proof fn lemma_cut_heading(c: Cutting, path: Seq<char>, line: Seq<char>)
    requires
        !c.front,
        line.len() > 0,
        line[0] == '#',
    ensures
        cut_line(c, path, line) == (Cutting {
            heading: heading_text(line.skip(1)),
            buf: ""@,
            front: false,
            begun: true,
            found: with_section(c.found, path, c.heading, c.buf),
        }),
{
    reveal_strlit("#");
    reveal_strlit("---");
    let rest = line.skip(1);
    assert("#"@ =~= seq!['#']);
    assert(line.take(1) =~= "#"@);
    assert(starts(line, "#"@));
    // The line is neither blank nor a mark of front matter.
    let n = lemma_last_solid(line, 0);
    lemma_trim_start_at(line, is_space(), 0);
    assert(line.skip(0) =~= line);
    lemma_trim_end_at(line, is_space(), n);
    assert(trimmed(line) == line.take(n));
    assert(trimmed(line)[0] == '#');
    assert("---"@[0] == '-');
    assert(behind(line, "#"@) == Some(rest));
    assert(cut_line(c, path, line) == cut_body_line(c, path, line));
}

/// The line of a heading as it is written gives the heading back.
proof fn lemma_written_heading(h: Seq<char>)
    requires
        plain_heading(h),
    ensures
        heading_line("# "@ + h),
        heading_on("# "@ + h) == h,
{
    reveal_strlit("# ");
    let line = "# "@ + h;
    lemma_trimmed_ends(h);
    assert(line[0] == '#' && line[1] == ' ' && line.last() == h.last());
    assert forall|i: int| 0 <= i < line.len() implies line[i] != '\n' by {
        if i >= 2 {
            assert(h[i - 2] != '\n');
        }
    }
    assert(chomp_cr(line) == line);
    let rest = line.skip(1);
    assert(rest =~= seq![' '] + h);
    lemma_trim_start_at(rest, is_char('#'), 0);
    assert(rest.skip(0) =~= rest);
    assert(trimmed_start_of(rest, '#') == rest);
    lemma_trim_leading(' ', h);
}

/// The state behind a section.
proof fn lemma_cut_section(c: Cutting, path: Seq<char>, line: Seq<char>, b: Seq<char>)
    requires
        !c.front,
        heading_line(line),
        plain_body(b),
    ensures
        ({
            let ls = lines_of(under(line, b));
            let bl = lines_of(b + "\n"@);
            cut_on(c, path, ls, ls.len()) == (Cutting {
                heading: heading_on(line),
                buf: "\n"@ + ended(bl, 0, bl.len() as int),
                front: false,
                begun: true,
                found: with_section(c.found, path, c.heading, c.buf),
            })
        }),
        whole_lines(under(line, b)),
        under(line, b).len() > 0,
{
    reveal_strlit("\n\n");
    reveal_strlit("\n");
    reveal_strlit("");
    reveal_strlit("#");
    let first = chomp_cr(line);
    let none = Seq::<char>::empty();
    let tail = b + "\n"@;
    lemma_cut_heading(c, path, first);
    assert(under(line, b) =~= line.push('\n') + (none.push('\n') + tail));
    assert(under(line, b).last() == '\n');
    lemma_one_line(line);
    assert(!has_char(none, '\n'));
    lemma_one_line(none);
    assert(chomp_cr(none) == none);
    lemma_lines_concat(none.push('\n'), tail);
    lemma_lines_concat(line.push('\n'), none.push('\n') + tail);
    let bl = lines_of(tail);
    let two = seq![none] + bl;
    let ls = lines_of(under(line, b));
    assert(ls == seq![first] + two);
    lemma_cut_on_concat(c, path, seq![first], two, two.len());
    reveal_with_fuel(cut_on, 2);
    let c1 = cut_on(c, path, seq![first], 1);
    assert(seq![first][0] == first);
    assert(c1 == cut_line(c, path, first));
    lemma_cut_on_concat(c1, path, seq![none], bl, bl.len());
    let c2 = cut_on(c1, path, seq![none], 1);
    assert(seq![none][0] == none);
    assert(!starts(none, "#"@));
    assert(c2 == cut_line(c1, path, none));
    assert(c1.buf + none + "\n"@ =~= "\n"@);
    assert(c2 == (Cutting { buf: "\n"@, ..c1 }));
    lemma_cut_body(c2, path, bl, bl.len());
}

/// A body that stands under a heading in a note is found there, if it says
/// anything: what stands before it ends with a line and leaves no front matter
/// open, and what follows it begins with a heading.
pub proof fn law_section_is_found(
    path: Seq<char>,
    before: Seq<char>,
    line: Seq<char>,
    b: Seq<char>,
    after: Seq<char>,
)
    requires
        whole_lines(before),
        !front_open(path, before),
        heading_line(line),
        plain_body(b),
        settled(b).len() > 0,
        chunk_of(path, heading_on(line), settled(b)) is Some,
        after.len() == 0 || after[0] == '#',
    ensures
        chunks_of(path, before + under(line, b) + after).contains(
            chunk_of(path, heading_on(line), settled(b))->0,
        ),
{
    reveal_strlit("#");
    reveal_strlit("\n");
    let x = chunk_of(path, heading_on(line), settled(b))->0;
    let la = lines_of(before);
    let lb = lines_of(under(line, b));
    let lc = lines_of(after);
    let c0 = cut_lines(path, la, la.len());
    lemma_cut_section(c0, path, line, b);
    let note = before + under(line, b) + after;
    lemma_lines_concat(before, under(line, b));
    assert((before + under(line, b)).last() == under(line, b).last());
    lemma_lines_concat(before + under(line, b), after);
    let ls = lines_of(note);
    assert(ls == (la + lb) + lc);
    assert((la + lb) + lc =~= la + (lb + lc));
    lemma_cut_concat(path, la, lb + lc, (lb + lc).len());
    lemma_cut_on_concat(c0, path, lb, lc, lc.len());
    let c1 = cut_on(c0, path, lb, lb.len());
    let bl = lines_of(b + "\n"@);
    let text = ended(bl, 0, bl.len() as int);
    assert("\n"@ + text =~= seq!['\n'] + text);
    lemma_trim_leading('\n', text);
    assert(trimmed(c1.buf) == settled(b));
    let done = with_section(c1.found, path, heading_on(line), c1.buf);
    assert(done == c1.found.push(x));
    assert(done[done.len() - 1] == x);
    assert(done.contains(x));
    let c2 = cut_on(c1, path, lc, lc.len());
    assert(cut_lines(path, ls, ls.len()) == c2);
    if lc.len() == 0 {
        assert(chunks_of(path, note) == done);
    } else {
        lemma_first_line(after);
        let c3 = cut_on(c1, path, lc, 1);
        reveal_with_fuel(cut_on, 2);
        assert(starts(lc[0], "#"@));
        assert(c3.found == done);
        lemma_cut_on_rest(c1, path, lc, lc.len());
        lemma_found_stays(c3, path, lc.skip(1), (lc.len() - 1) as nat, x);
        lemma_section_stays(c2.found, path, c2.heading, c2.buf, x);
    }
}

proof fn lemma_cut_on_rest(c: Cutting, path: Seq<char>, ls: Seq<Seq<char>>, n: nat)
    requires
        1 <= n <= ls.len(),
    ensures
        cut_on(c, path, ls, n) == cut_on(cut_on(c, path, ls, 1), path, ls.skip(1), (n - 1) as nat),
    decreases n,
{
    if n > 1 {
        lemma_cut_on_rest(c, path, ls, (n - 1) as nat);
        assert(ls.skip(1)[n - 2] == ls[n - 1]);
    }
}

/// The first line of a text begins as the text does.
proof fn lemma_first_line(s: Seq<char>)
    requires
        s.len() > 0,
        s[0] == '#',
    ensures
        lines_of(s).len() > 0,
        starts(lines_of(s)[0], "#"@),
        !starts(lines_of(s)[0], "---"@),
{
    reveal_strlit("#");
    reveal_strlit("---");
    lemma_first_part(s);
    let parts = split_on(s, '\n');
    let f = |t: Seq<char>| chomp_cr(t);
    assert("#"@ =~= seq!['#']);
    if parts.len() == 1 {
        assert(lines_of(s)[0] == parts[0]);
    } else {
        assert(parts.drop_last().map_values(f)[0] == chomp_cr(parts[0]));
        assert(lines_of(s)[0] == chomp_cr(parts[0]));
        assert(chomp_cr(parts[0])[0] == '#');
    }
    assert(lines_of(s)[0].take(1) =~= "#"@);
    assert("---"@[0] == '-');
    assert(lines_of(s)[0].len() >= 3 ==> lines_of(s)[0].take(3)[0] == '#');
}

proof fn lemma_first_part(s: Seq<char>)
    requires
        s.len() > 0,
        s[0] == '#',
    ensures
        split_on(s, '\n').len() > 0,
        split_on(s, '\n')[0].len() > 0,
        split_on(s, '\n')[0][0] == '#',
    decreases s.len(),
{
    let d = s.drop_last();
    if d.len() > 0 {
        lemma_first_part(d);
    } else {
        assert(d =~= Seq::empty());
        reveal_with_fuel(split_by, 2);
    }
}

/// A body without carriage returns is given back as it is, but for the white
/// space around it.
pub proof fn law_plain_lines_settle(b: Seq<char>)
    requires
        !has_char(b, '\r'),
    ensures
        settled(b) == trimmed(b),
{
    reveal_strlit("\n");
    let s = b + "\n"@;
    assert(s =~= b.push('\n'));
    assert(s.drop_last() =~= b);
    let parts = split_on(b, '\n');
    let f = |t: Seq<char>| chomp_cr(t);
    crate::text::lemma_split_nonempty(b, is_char('\n'));
    assert(split_on(s, '\n') == parts.push(Seq::empty()));
    assert(split_on(s, '\n').drop_last() =~= parts);
    let ls = lines_of(s);
    assert(ls =~= parts.map_values(f));
    lemma_ended_lines(b);
    assert(ended(ls, 0, ls.len() as int) == b.push('\n'));
    lemma_trim_trailing(b);
}

proof fn lemma_ended_lines(b: Seq<char>)
    requires
        !has_char(b, '\r'),
    ensures
        ({
            let ls = split_on(b, '\n').map_values(|t: Seq<char>| chomp_cr(t));
            ended(ls, 0, ls.len() as int) == b.push('\n')
        }),
    decreases b.len(),
{
    reveal_strlit("\n");
    reveal_strlit("");
    let f = |t: Seq<char>| chomp_cr(t);
    let parts = split_on(b, '\n');
    let ls = parts.map_values(f);
    if b.len() == 0 {
        assert(parts =~= seq![Seq::<char>::empty()]);
        assert(ls[0] == Seq::<char>::empty());
        reveal_with_fuel(ended, 2);
        assert(ended(ls, 0, 1) =~= b.push('\n'));
    } else {
        let d = b.drop_last();
        assert forall|i: int| 0 <= i < d.len() implies d[i] != '\r' by {
            assert(b[i] != '\r');
        }
        lemma_ended_lines(d);
        crate::text::lemma_split_nonempty(d, is_char('\n'));
        let dp = split_on(d, '\n');
        let dl = dp.map_values(f);
        let c = b.last();
        assert(b[b.len() - 1] != '\r');
        if c == '\n' {
            assert(parts == dp.push(Seq::empty()));
            assert(ls =~= dl.push(Seq::empty()));
            lemma_ended_prefix(dl, ls, dl.len() as int);
            assert(ended(ls, 0, ls.len() as int) =~= d.push('\n') + Seq::empty() + "\n"@);
            assert(d.push('\n') =~= b);
            assert(ended(ls, 0, ls.len() as int) =~= b.push('\n'));
        } else {
            let last = dp.last();
            assert(parts == dp.drop_last().push(last.push(c)));
            lemma_last_part(d);
            assert(chomp_cr(last) == last);
            assert(chomp_cr(last.push(c)) == last.push(c));
            let n = dl.len() as int;
            assert(ls.len() == n);
            assert(ls[n - 1] == last.push(c));
            assert(dl[n - 1] == last);
            assert forall|i: int| 0 <= i < n - 1 implies ls[i] == dl[i] by {
                assert(parts[i] == dp[i]);
            }
            lemma_ended_prefix(dl, ls, n - 1);
            let e = ended(dl, 0, n - 1);
            assert(e + last + "\n"@ == d.push('\n'));
            assert((e + last + "\n"@).drop_last() =~= e + last);
            assert(d.push('\n').drop_last() =~= d);
            assert(e + last =~= d);
            assert(ended(ls, 0, n) =~= e + last.push(c) + "\n"@);
            assert(e + last.push(c) + "\n"@ =~= d.push(c).push('\n'));
            assert(d.push(c) =~= b);
        }
    }
}

proof fn lemma_ended_prefix(a: Seq<Seq<char>>, b: Seq<Seq<char>>, n: int)
    requires
        n <= a.len(),
        n <= b.len(),
        forall|i: int| 0 <= i < n ==> a[i] == b[i],
    ensures
        ended(a, 0, n) == ended(b, 0, n),
    decreases n,
{
    if n > 0 {
        lemma_ended_prefix(a, b, n - 1);
        assert(a[n - 1] == b[n - 1]);
    }
}

proof fn lemma_last_part(d: Seq<char>)
    requires
        !has_char(d, '\r'),
    ensures
        chomp_cr(split_on(d, '\n').last()) == split_on(d, '\n').last(),
{
    crate::text::lemma_split_nonempty(d, is_char('\n'));
    if d.len() > 0 {
        assert(d[d.len() - 1] != '\r');
    }
}

proof fn lemma_trim_trailing(b: Seq<char>)
    ensures
        trimmed(b.push('\n')) == trimmed(b),
{
    lemma_trim_trailing_white(b, '\n');
}

proof fn lemma_trim_trailing_white(b: Seq<char>, c: char)
    requires
        white(c),
    ensures
        trimmed(b.push(c)) == trimmed(b),
    decreases b.len(),
{
    let s = b.push(c);
    let p = is_space();
    if b.len() == 0 {
        assert(s[0] == c);
        assert(s.drop_first() =~= b);
        assert(trim_start_by(s, p) == trim_start_by(b, p));
    } else if white(b[0]) {
        assert(s[0] == b[0]);
        assert(p(b[0]));
        assert(s.drop_first() =~= b.drop_first().push(c));
        lemma_trim_trailing_white(b.drop_first(), c);
    } else {
        assert(s[0] == b[0]);
        assert(trim_start_by(s, p) == s);
        assert(trim_start_by(b, p) == b);
        assert(s.drop_last() =~= b);
        assert(p(s.last()));
    }
}

// ---------------------------------------------------------------------------
// Writing

/// The note that an entry is written into: none where the file is replaced.
pub open spec fn written_into(e: EntryView, existing: Option<Seq<char>>) -> Option<Seq<char>> {
    if e.mode == Mode::ReplaceFile {
        None
    } else {
        existing
    }
}

/// The line of the note that an entry is written under, where there is one.
pub open spec fn line_found(e: EntryView, existing: Option<Seq<char>>) -> Option<nat> {
    match written_into(e, existing) {
        None => None,
        Some(src) => {
            let a = heading_from(lines_of(src), e.heading, 0);
            if e.mode != Mode::AppendSection && a < lines_of(src).len() {
                Some(a)
            } else {
                None
            }
        },
    }
}

/// The line of the heading that an entry is written under.
pub open spec fn line_kept(e: EntryView, existing: Option<Seq<char>>) -> Seq<char> {
    match line_found(e, existing) {
        Some(a) => lines_of(existing->0)[a as int],
        None => "# "@ + e.heading,
    }
}

/// What stands in a note before the line of the heading.
pub open spec fn written_after(e: EntryView, j: Json, existing: Option<Seq<char>>) -> Seq<char> {
    match written_into(e, existing) {
        None => front_matter(e.path, j),
        Some(src) => match line_found(e, existing) {
            Some(a) => ended(lines_of(src), 0, a as int),
            None => src + "\n\n"@,
        },
    }
}

/// The body as the note keeps it. A section that is replaced at the end of its
/// note loses the white space behind it.
pub open spec fn body_kept(e: EntryView, body: Seq<char>, existing: Option<Seq<char>>) -> Seq<char> {
    match line_found(e, existing) {
        Some(a) => if next_heading(lines_of(existing->0), a + 1) >= lines_of(existing->0).len() {
            trimmed_end(body)
        } else {
            body
        },
        None => body,
    }
}

proof fn lemma_ended_whole(ls: Seq<Seq<char>>, a: int, b: int)
    ensures
        whole_lines(ended(ls, a, b)),
    decreases b - a,
{
    reveal_strlit("\n");
    reveal_strlit("");
    if b > a {
        assert(ended(ls, a, b).last() == '\n');
    }
}

proof fn lemma_next_heading(ls: Seq<Seq<char>>, i: nat)
    ensures
        next_heading(ls, i) < ls.len() ==> level(ls[next_heading(ls, i) as int]) is Some,
        i <= ls.len() ==> i <= next_heading(ls, i) <= ls.len(),
    decreases ls.len() - i,
{
    if i < ls.len() && level(ls[i as int]) is None {
        lemma_next_heading(ls, i + 1);
    }
}

proof fn lemma_ended_first(ls: Seq<Seq<char>>, a: int, b: int)
    requires
        0 <= a < b <= ls.len(),
        ls[a].len() > 0,
    ensures
        ended(ls, a, b).len() > 0,
        ended(ls, a, b)[0] == ls[a][0],
    decreases b - a,
{
    reveal_strlit("\n");
    reveal_strlit("");
    if b - 1 > a {
        lemma_ended_first(ls, a, b - 1);
        assert(ended(ls, a, b)[0] == ended(ls, a, b - 1)[0]);
    } else {
        assert(ended(ls, a, b - 1) == ""@);
        assert(ended(ls, a, b)[0] == ls[a][0]);
    }
}

/// What `write_result` writes, taken apart at the section.
proof fn lemma_replaced_shape(src: Seq<char>, h: Seq<char>, body: Seq<char>) -> (after: Seq<char>)
    requires
        section_replaced(src, h, body) is Some,
        trimmed_end(body).len() > 0,
    ensures
        ({
            let ls = lines_of(src);
            let a = heading_from(ls, h, 0);
            let b = next_heading(ls, a + 1);
            let kept = if b >= ls.len() {
                trimmed_end(body)
            } else {
                body
            };
            section_replaced(src, h, body) == Some(
                ended(ls, 0, a as int) + under(ls[a as int], kept) + after,
            )
        }),
        after.len() == 0 || after[0] == '#',
{
    reveal_strlit("\n\n");
    reveal_strlit("\n");
    reveal_strlit("");
    let ls = lines_of(src);
    let a = heading_from(ls, h, 0);
    let b = next_heading(ls, a + 1);
    lemma_next_heading(ls, a + 1);
    let head = ended(ls, 0, a as int);
    let line = ls[a as int];
    let sec = under(line, body);
    let tail = ended(ls, b as int, ls.len() as int);
    let solid = lemma_solid_of(body);
    if b >= ls.len() {
        assert(tail =~= ""@);
        let lead = head + (line + "\n\n"@);
        let y = body + "\n"@;
        let m = lemma_last_solid(y, solid);
        assert(head + sec + tail =~= lead + y);
        assert(m <= body.len()) by {
            if m == y.len() {
                assert(y[m - 1] == '\n');
            }
        }
        lemma_trim_end_keeps(lead, y, m);
        assert(y.take(m) =~= body.take(m));
        assert forall|k: int| m <= k < body.len() implies white(#[trigger] body[k]) by {
            assert(white(y[k]));
        }
        assert(body[m - 1] == y[m - 1]);
        lemma_trim_end_keeps(lead, body, m);
        let kept = trimmed_end(body);
        assert(lead + kept + "\n"@ =~= head + under(line, kept) + Seq::empty());
        Seq::empty()
    } else {
        let l = level(ls[b as int]);
        assert(ls[b as int][0] == '#');
        lemma_ended_first(ls, b as int, ls.len() as int);
        let m = lemma_last_solid(tail, 0);
        lemma_trim_end_keeps(head + sec, tail, m);
        let after = tail.take(m) + "\n"@;
        assert(after[0] == '#');
        assert(head + sec + tail.take(m) + "\n"@ =~= head + sec + after);
        after
    }
}

/// A character that is no white space, in a text that has one.
proof fn lemma_solid_of(s: Seq<char>) -> (i: int)
    requires
        trimmed_end(s).len() > 0,
    ensures
        0 <= i < s.len(),
        !white(s[i]),
    decreases s.len(),
{
    if s.len() > 0 && !white(s.last()) {
        assert(!is_space()(s.last()));
        s.len() - 1
    } else {
        if s.len() > 0 {
            assert(is_space()(s.last()));
        }
        let i = lemma_solid_of(s.drop_last());
        i
    }
}

proof fn lemma_heading_from(ls: Seq<Seq<char>>, h: Seq<char>, i: nat)
    ensures
        heading_from(ls, h, i) < ls.len() ==> is_heading(ls[heading_from(ls, h, i) as int], h),
    decreases ls.len() - i,
{
    if i < ls.len() && !is_heading(ls[i as int], h) {
        lemma_heading_from(ls, h, i + 1);
    }
}

proof fn lemma_lines_hold_no_feed(src: Seq<char>, i: int)
    requires
        0 <= i < lines_of(src).len(),
    ensures
        !has_char(lines_of(src)[i], '\n'),
{
    let p = is_char('\n');
    let parts = split_by(src, p);
    crate::text::lemma_split_parts(src, p);
    crate::text::lemma_split_nonempty(src, p);
    let line = lines_of(src)[i];
    let part = parts[i];
    assert forall|k: int| 0 <= k < line.len() implies line[k] != '\n' by {
        assert(line[k] == part[k]);
        assert(!p(parts[i][k]));
    }
}

/// The text that follows the marks of a heading.
pub open spec fn text_on(line: Seq<char>) -> Seq<char> {
    trimmed(line.skip(level(line)->0 as int))
}

/// A line that is a heading is read as one, with the text that follows its marks.
proof fn lemma_heading_on(line: Seq<char>)
    requires
        level(line) is Some,
    ensures
        line.len() > 1,
        line[0] == '#',
        text_on(line).len() > 0 ==> heading_on(line) == text_on(line),
{
    let n = level(line)->0 as int;
    crate::knowledge::upsert::lemma_hashes(line);
    assert(line[0] == '#');
    let text = line.skip(n);
    crate::text::lemma_trim_shape(text, is_space());
    let short = chomp_cr(line);
    if line.last() == '\r' {
        assert(white('\r'));
        assert(text.last() == '\r');
        assert(text =~= text.drop_last().push('\r'));
        lemma_trim_trailing_white(text.drop_last(), '\r');
        assert(short.skip(n) =~= text.drop_last());
    }
    assert(trimmed(short.skip(n)) == trimmed(text));
    let rest = short.skip(1);
    if short.len() > n {
        assert(short[n] == line[n]);
        assert(rest[n - 1] == line[n]);
        assert(line[n] != '#');
    }
    assert forall|k: int| 0 <= k < n - 1 implies is_char('#')(#[trigger] rest[k]) by {
        assert(rest[k] == line[k + 1]);
    }
    lemma_trim_start_at(rest, is_char('#'), n - 1);
    assert(rest.skip(n - 1) =~= short.skip(n));
}

/// A body that is written into a note is found in it, under its heading: a new one,
/// or the one that the note has for it, which differs in case at most. Left out
/// are bodies that replace a note as they are, new headings that no line of a note
/// can hold, bodies that hold headings of their own, and notes whose front matter
/// is not closed before the heading.
pub proof fn law_written_section_is_found(
    e: EntryView,
    body: Seq<char>,
    j: Json,
    existing: Option<Seq<char>>,
)
    requires
        e.mode == Mode::ReplaceFile ==> !starts(body, "---"@) && !starts(body, "#"@),
        line_found(e, existing) is None ==> plain_heading(e.heading),
        trimmed_end(body).len() > 0,
        !front_open(e.path, written_after(e, j, existing)),
        plain_body(body_kept(e, body, existing)),
        settled(body_kept(e, body, existing)).len() > 0,
        chunk_of(
            e.path,
            heading_on(line_kept(e, existing)),
            settled(body_kept(e, body, existing)),
        ) is Some,
    ensures
        line_found(e, existing) is None ==> heading_on(line_kept(e, existing)) == e.heading,
        line_found(e, existing) is Some ==> {
            let line = line_kept(e, existing);
            &&& is_heading(line, e.heading)
            &&& text_on(line).len() > 0 ==> heading_on(line) == text_on(line)
        },
        chunks_of(e.path, write_result(e, body, j, existing).0).contains(
            chunk_of(
                e.path,
                heading_on(line_kept(e, existing)),
                settled(body_kept(e, body, existing)),
            )->0,
        ),
{
    reveal_strlit("\n\n");
    reveal_strlit("\n\n---\n\n");
    reveal_strlit("");
    let before = written_after(e, j, existing);
    let kept = body_kept(e, body, existing);
    let line = line_kept(e, existing);
    let note = write_result(e, body, j, existing).0;
    match line_found(e, existing) {
        Some(a) => {
            let src = existing->0;
            let ls = lines_of(src);
            lemma_heading_from(ls, e.heading, 0);
            lemma_heading_on(line);
            lemma_lines_hold_no_feed(src, a as int);
            let after = lemma_replaced_shape(src, e.heading, body);
            lemma_ended_whole(ls, 0, a as int);
            law_section_is_found(e.path, before, line, kept, after);
        },
        None => {
            lemma_written_heading(e.heading);
            if written_into(e, existing) is None {
                if crate::text::ends(e.path, ".mdc"@) {
                    assert(before.last() == '\n');
                }
            } else {
                assert(before.last() == '\n');
            }
            law_section_is_found(e.path, before, line, kept, Seq::empty());
            assert(before + section(e.heading, kept) + Seq::empty() =~= note);
        },
    }
}

} // verus!
