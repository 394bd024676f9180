//! A table of contents of a file: what it declares, with line numbers.
use vstd::prelude::*;
use crate::json::{get, get_strings, number_or, strings_at, u64_or, Datum, Json};
use crate::lang::Lang;
use crate::repo_map::{located_views, symbols_in, symbols_located};
use crate::text::{
    blen, capped, char_width, copy, count_up, dec, decimal, is_blank, pad_left, padded_left,
    size, strs, to_chars, trim, trim_names, trimmed, trimmed_names,
};

verus! {

// ---------------------------------------------------------------------------
// Lines

/// Where the lines among the first `n` characters begin, in bytes.
pub open spec fn starts_upto(s: Seq<char>, n: nat) -> Seq<nat>
    decreases n,
{
    if n == 0 {
        seq![0nat]
    } else {
        let rest = starts_upto(s, (n - 1) as nat);
        if s[n - 1] == '\n' {
            rest.push(blen(s.take(n as int)))
        } else {
            rest
        }
    }
}

pub open spec fn places(v: Seq<usize>) -> Seq<nat> {
    Seq::new(v.len(), |i: int| v[i] as nat)
}

/// The byte at which each line begins; the first begins at zero.
pub fn line_starts(src: &str) -> (r: Vec<usize>)
    ensures
        places(r@) == starts_upto(src@, src@.len()),
{
    let v = to_chars(src);
    let whole: usize = size(src);
    let mut out: Vec<usize> = Vec::new();
    out.push(0);
    assert(places(out@) =~= seq![0nat]);
    let mut at: usize = 0;
    assert(blen(src@.take(0)) == 0) by {
        assert(src@.take(0) =~= Seq::<char>::empty());
    }
    for i in 0..v.len()
        invariant
            v@ == src@,
            whole == blen(src@),
            at == blen(src@.take(i as int)),
            places(out@) == starts_upto(src@, i as nat),
    {
        proof {
            assert(src@.take(i + 1) =~= src@.take(i as int).push(src@[i as int]));
            crate::text::lemma_blen_push(src@.take(i as int), src@[i as int]);
            crate::text::lemma_blen_take(src@, i + 1);
        }
        at = at + char_width(v[i]);
        if v[i] == '\n' {
            let ghost before = out@;
            out.push(at);
            assert(places(out@) =~= places(before).push(at as nat));
        }
    }
    assert(src@.take(src@.len() as int) =~= src@);
    out
}

/// How many of the first `n` places are at or before a place.
pub open spec fn reached(starts: Seq<nat>, off: nat, n: nat) -> nat
    decreases n,
{
    if n == 0 {
        0
    } else {
        reached(starts, off, (n - 1) as nat) + if starts[n - 1] <= off {
            1nat
        } else {
            0
        }
    }
}

/// The line, counted from one, that holds a place.
pub open spec fn line_at(starts: Seq<nat>, off: nat) -> nat {
    let n = reached(starts, off, starts.len());
    if n == 0 {
        1
    } else {
        n
    }
}

pub fn line_of(starts: &Vec<usize>, off: usize) -> (r: usize)
    ensures
        r == line_at(places(starts@), off as nat),
{
    let mut n: usize = 0;
    for i in 0..starts.len()
        invariant
            n <= i,
            n == reached(places(starts@), off as nat, i as nat),
    {
        assert(places(starts@)[i as int] == starts@[i as int]);
        assert(starts@.len() == starts.len());
        if starts[i] <= off {
            n = n + 1;
        }
    }
    assert(places(starts@).len() == starts@.len());
    if n == 0 {
        1
    } else {
        n
    }
}

// ---------------------------------------------------------------------------
// One file

/// What came of opening a file.
pub enum Opened {
    /// The name leads nowhere: why, and what it may have meant.
    Missing { error: String, candidates: Option<String> },
    /// No language has this kind of file.
    Unsupported { rel: String },
    /// The file cannot be read as text.
    Unreadable { rel: String },
    Text { rel: String, lang: Lang, text: String },
}

/// The values of an [`Opened`].
pub enum OpenedView {
    Missing { error: Seq<char>, candidates: Option<Seq<char>> },
    Unsupported { rel: Seq<char> },
    Unreadable { rel: Seq<char> },
    Text { rel: Seq<char>, lang: Lang, text: Seq<char> },
}

impl View for Opened {
    type V = OpenedView;

    open spec fn view(&self) -> OpenedView {
        match *self {
            Opened::Missing { error, candidates } => OpenedView::Missing {
                error: error@,
                candidates: crate::text::opt_text(candidates),
            },
            Opened::Unsupported { rel } => OpenedView::Unsupported { rel: rel@ },
            Opened::Unreadable { rel } => OpenedView::Unreadable { rel: rel@ },
            Opened::Text { rel, lang, text } => OpenedView::Text { rel: rel@, lang, text: text@ },
        }
    }
}

/// The row of a symbol.
pub open spec fn row_of(starts: Seq<nat>, e: (nat, Seq<char>)) -> Seq<char> {
    "  "@ + padded_left(dec(line_at(starts, e.0)), 5) + "  "@ + e.1 + "\n"@
}

/// The rows from symbol `k` on, until the budget is used up. The first symbol is
/// always shown.
pub open spec fn rows_from(
    v: Seq<(nat, Seq<char>)>,
    starts: Seq<nat>,
    budget: nat,
    used: nat,
    k: int,
) -> Seq<char>
    decreases v.len() - k,
{
    if k < 0 || k >= v.len() {
        ""@
    } else {
        let row = row_of(starts, v[k]);
        let tokens = blen(row) / 4;
        if used + tokens > budget && k > 0 {
            "  … (+"@ + dec((v.len() - k) as nat) + " more; raise token_budget)\n"@
        } else {
            row + rows_from(v, starts, budget, used + tokens, k + 1)
        }
    }
}

/// The outline of a file whose text could be read.
pub open spec fn text_outline(
    rel: Seq<char>,
    lang: Lang,
    text: Seq<char>,
    budget: nat,
) -> Seq<char> {
    let v = symbols_in(lang, text);
    if v.len() == 0 {
        "outline - "@ + rel + ": no top-level symbols found"@
    } else {
        let head = "outline - "@ + rel + "  ("@ + dec(v.len()) + " symbol(s))\n\n"@;
        head + rows_from(v, starts_upto(text, text.len()), budget, blen(head) / 4, 0)
    }
}

/// The outline of a file, and the tokens that reading it would have taken.
pub open spec fn outline_of(file: Seq<char>, o: OpenedView, budget: nat) -> (Seq<char>, nat) {
    match o {
        OpenedView::Missing { error, candidates } => {
            let t = "outline - "@ + file + ": not found ("@ + error
                + "); pass a repo-relative path or widen default_paths in .wordkeep/config.json"@;
            match candidates {
                Some(c) => (t + "\ncandidates: "@ + c, 0),
                None => (t, 0),
            }
        },
        OpenedView::Unsupported { rel } => (
            "outline - "@ + rel + ": unsupported file type"@,
            0,
        ),
        OpenedView::Unreadable { rel } => ("outline - "@ + rel + ": cannot read file"@, 0),
        OpenedView::Text { rel, lang, text } => (
            text_outline(rel, lang, text, budget),
            blen(text) / 4,
        ),
    }
}

fn make_row(starts: &Vec<usize>, off: usize, sym: &str) -> (r: String)
    ensures
        r@ == row_of(places(starts@), (off as nat, sym@)),
{
    let mut row = copy("  ");
    let line: usize = line_of(starts, off);
    row.append(pad_left(decimal(line as u64).as_str(), 5).as_str());
    row.append("  ");
    row.append(sym);
    row.append("\n");
    row
}

fn outline_text(rel: &str, lang: Lang, text: &str, budget: u64) -> (r: String)
    ensures
        r@ == text_outline(rel@, lang, text@, budget as nat),
{
    let located = symbols_located(lang, text);
    let ghost v = symbols_in(lang, text@);
    assert(v.len() == located@.len());
    let mut out = copy("outline - ");
    out.append(rel);
    if located.len() == 0 {
        out.append(": no top-level symbols found");
        return out;
    }
    out.append("  (");
    out.append(decimal(located.len() as u64).as_str());
    out.append(" symbol(s))\n\n");
    let starts = line_starts(text);
    let ghost sv = starts_upto(text@, text@.len());
    let ghost head = out@;
    let mut used: usize = size(out.as_str()) / 4;
    let ghost want = head + rows_from(v, sv, budget as nat, used as nat, 0);
    let mut k: usize = 0;
    while k < located.len()
        invariant
            v == located_views(located@),
            sv == places(starts@),
            k <= located@.len(),
            used * 4 <= blen(out@),
            want == out@ + rows_from(v, sv, budget as nat, used as nat, k as int),
            want == text_outline(rel@, lang, text@, budget as nat),
        decreases located@.len() - k,
    {
        let e = &located[k];
        assert(v[k as int] == (e.0 as nat, e.1@));
        let row = make_row(&starts, e.0, e.1.as_str());
        let whole: usize = size(out.as_str());
        let tokens: usize = size(row.as_str()) / 4;
        if (used + tokens) as u64 > budget && k > 0 {
            let ghost before = out@;
            out.append("  … (+");
            out.append(decimal((located.len() - k) as u64).as_str());
            out.append(" more; raise token_budget)\n");
            assert(out@ =~= want);
            return out;
        }
        proof {
            crate::text::lemma_blen_add(out@, row@);
            assert(out@ + (row@ + rows_from(v, sv, budget as nat, (used + tokens) as nat, k + 1))
                =~= (out@ + row@) + rows_from(
                v,
                sv,
                budget as nat,
                (used + tokens) as nat,
                k + 1,
            ));
        }
        used = used + tokens;
        out.append(row.as_str());
        k = k + 1;
    }
    assert(out@ + ""@ =~= out@) by {
        reveal_strlit("");
    }
    out
}

/// The outline of a file, and the tokens that reading it would have taken.
pub fn outline_one(file: &str, opened: &Opened, budget: u64) -> (r: (String, u64))
    ensures
        (r.0@, r.1 as nat) == outline_of(file@, opened@, budget as nat),
{
    match opened {
        Opened::Missing { error, candidates } => {
            let mut t = copy("outline - ");
            t.append(file);
            t.append(": not found (");
            t.append(error.as_str());
            t.append(
                "); pass a repo-relative path or widen default_paths in .wordkeep/config.json",
            );
            if let Some(c) = candidates {
                t.append("\ncandidates: ");
                t.append(c.as_str());
            }
            (t, 0)
        },
        Opened::Unsupported { rel } => {
            let mut t = copy("outline - ");
            t.append(rel.as_str());
            t.append(": unsupported file type");
            (t, 0)
        },
        Opened::Unreadable { rel } => {
            let mut t = copy("outline - ");
            t.append(rel.as_str());
            t.append(": cannot read file");
            (t, 0)
        },
        Opened::Text { rel, lang, text } => {
            let t = outline_text(rel.as_str(), *lang, text.as_str(), budget);
            let n: usize = size(text.as_str());
            (t, (n / 4) as u64)
        },
    }
}

// ---------------------------------------------------------------------------
// Several files

/// What is asked for.
pub enum Request {
    One(String),
    Batch(Vec<String>),
}

/// The values of a [`Request`].
pub enum RequestView {
    One(Seq<char>),
    Batch(Seq<Seq<char>>),
}

impl View for Request {
    type V = RequestView;

    open spec fn view(&self) -> RequestView {
        match *self {
            Request::One(f) => RequestView::One(f@),
            Request::Batch(v) => RequestView::Batch(strs(v@)),
        }
    }
}

/// What the arguments ask for: several files where `files` names any, else the
/// one that `file` or `path` names.
pub open spec fn request_of(args: Json) -> Option<RequestView> {
    let batch = trimmed_names(strings_at(args, "files"@), strings_at(args, "files"@).len());
    let given = match get(args, "file"@) {
        Some(f) => Some(f),
        None => get(args, "path"@),
    };
    let one = match given {
        Some(Json::Str(s)) => trimmed(s),
        _ => trimmed(""@),
    };
    if batch.len() > 0 {
        Some(RequestView::Batch(batch))
    } else if one.len() > 0 {
        Some(RequestView::One(one))
    } else {
        None
    }
}

/// Reads what the arguments ask for, and refuses arguments that name no file.
pub fn read_request(args: &Datum) -> (r: Result<Request, String>)
    ensures
        match r {
            Ok(q) => request_of(args@) == Some(q@),
            Err(e) => request_of(args@) is None && e@
                == "file (or path) is required; or pass files:[...] for a batch"@,
        },
{
    let names = get_strings(args, "files");
    let batch = trim_names(&names);
    assert(strs(names@).len() == names@.len());
    assert(strs(batch@).len() == batch@.len());
    if batch.len() > 0 {
        return Ok(Request::Batch(batch));
    }
    let given = match args.get("file") {
        Some(f) => Some(f),
        None => args.get("path"),
    };
    let one = match given {
        Some(v) => match v.text() {
            Some(s) => trim(s.as_str()),
            None => trim(""),
        },
        None => trim(""),
    };
    if is_blank(one.as_str()) {
        Err(copy("file (or path) is required; or pass files:[...] for a batch"))
    } else {
        Ok(Request::One(one))
    }
}

/// The tokens that an outline may take.
pub fn read_budget(args: &Datum) -> (r: u64)
    ensures
        r == u64_or(args@, "token_budget"@, 2400),
{
    number_or(args, "token_budget", 2400)
}

/// The outlines of several files: the text, the tokens that reading them would have
/// taken, and the first file that did not fit.
pub struct Batch {
    pub text: String,
    pub baseline: u64,
    pub cut: Option<usize>,
}

/// The values of a [`Batch`].
pub struct BatchView {
    pub text: Seq<char>,
    pub baseline: nat,
    pub cut: Option<nat>,
}

impl View for Batch {
    type V = BatchView;

    open spec fn view(&self) -> BatchView {
        BatchView {
            text: self.text@,
            baseline: self.baseline as nat,
            cut: match self.cut {
                Some(i) => Some(i as nat),
                None => None,
            },
        }
    }
}

pub open spec fn opened_views(v: Seq<Opened>) -> Seq<OpenedView> {
    Seq::new(v.len(), |i: int| v[i]@)
}

/// What is left of a budget, but no less than room for a few rows.
pub open spec fn room(budget: nat, used: nat) -> nat {
    if budget >= used + 64 {
        (budget - used) as nat
    } else {
        64
    }
}

/// The outlines of the files from `k` on, behind `text`. The file with which the
/// work starts is always shown.
pub open spec fn batch_from(
    files: Seq<Seq<char>>,
    opened: Seq<OpenedView>,
    resume_at: nat,
    budget: nat,
    text: Seq<char>,
    baseline: nat,
    k: nat,
) -> (Seq<char>, nat, Option<nat>)
    decreases files.len() - k,
{
    let used = blen(text) / 4;
    if k >= files.len() {
        (text, baseline, None)
    } else if used >= budget && k > resume_at {
        (text, baseline, Some(k))
    } else {
        let (block, tokens) = outline_of(files[k as int], opened[k as int], room(budget, used));
        if used + blen(block) / 4 > budget && k > resume_at {
            (text, baseline + tokens, Some(k))
        } else {
            let sep = if k > resume_at {
                text + "\n"@
            } else {
                text
            };
            batch_from(files, opened, resume_at, budget, sep + block, baseline + tokens, k + 1)
        }
    }
}

pub open spec fn batch_head(n: nat, resume_at: nat) -> Seq<char> {
    "outline - batch ("@ + dec(n) + " file(s))"@ + (if resume_at > 0 {
        " [continuation from file #"@ + dec(resume_at) + "]"@
    } else {
        ""@
    }) + "\n"@
}

/// The outlines of several files, from file `resume_at` on.
pub open spec fn batch_of(
    files: Seq<Seq<char>>,
    opened: Seq<OpenedView>,
    resume_at: nat,
    budget: nat,
) -> BatchView {
    let r = batch_from(
        files,
        opened,
        resume_at,
        budget,
        batch_head(files.len(), resume_at),
        0,
        resume_at,
    );
    BatchView { text: r.0, baseline: capped(r.1) as nat, cut: r.2 }
}

pub fn build_batch(
    files: &Vec<String>,
    opened: &Vec<Opened>,
    resume_at: usize,
    budget: u64,
) -> (r: Batch)
    requires
        files@.len() == opened@.len(),
    ensures
        r@ == batch_of(strs(files@), opened_views(opened@), resume_at as nat, budget as nat),
{
    let mut out = copy("outline - batch (");
    out.append(decimal(files.len() as u64).as_str());
    out.append(" file(s))");
    let mut note = copy("");
    if resume_at > 0 {
        note = copy(" [continuation from file #");
        note.append(decimal(resume_at as u64).as_str());
        note.append("]");
    }
    out.append(note.as_str());
    out.append("\n");
    let ghost fs = strs(files@);
    let ghost os = opened_views(opened@);
    assert(fs.len() == files@.len());
    assert(out@ == batch_head(fs.len(), resume_at as nat));
    let ghost want = batch_from(
        fs,
        os,
        resume_at as nat,
        budget as nat,
        out@,
        0,
        resume_at as nat,
    );
    let mut baseline: u64 = 0;
    let ghost mut total: nat = 0;
    let mut k: usize = resume_at;
    while k < files.len()
        invariant
            fs == strs(files@),
            os == opened_views(opened@),
            files@.len() == opened@.len(),
            resume_at <= k,
            baseline == capped(total),
            want == batch_from(
                fs,
                os,
                resume_at as nat,
                budget as nat,
                batch_head(fs.len(), resume_at as nat),
                0,
                resume_at as nat,
            ),
            want == batch_from(
                fs,
                os,
                resume_at as nat,
                budget as nat,
                out@,
                total,
                k as nat,
            ),
        decreases files@.len() - k,
    {
        let used: u64 = (size(out.as_str()) / 4) as u64;
        if used >= budget && k > resume_at {
            return Batch { text: out, baseline, cut: Some(k) };
        }
        assert(fs[k as int] == files@[k as int]@);
        assert(os[k as int] == opened@[k as int]@);
        assert(files@.len() == files.len());
        let left: u64 = if budget >= used && budget - used >= 64 {
            budget - used
        } else {
            64
        };
        let (block, tokens) = outline_one(files[k].as_str(), &opened[k], left);
        baseline = count_up(baseline, tokens);
        proof {
            total = total + tokens as nat;
        }
        let more: u64 = (size(block.as_str()) / 4) as u64;
        if (used as u128 + more as u128) > budget as u128 && k > resume_at {
            return Batch { text: out, baseline, cut: Some(k) };
        }
        if k > resume_at {
            out.append("\n");
        }
        out.append(block.as_str());
        k = k + 1;
    }
    Batch { text: out, baseline, cut: None }
}

// ---------------------------------------------------------------------------
// Laws

/// The line of a place is one more than the number of line feeds before it.
pub proof fn law_line_counts_line_feeds(src: Seq<char>, n: nat)
    requires
        n <= src.len(),
    ensures
        line_at(starts_upto(src, src.len()), blen(src.take(n as int))) == 1
            + crate::lang::breaks(src.take(n as int)),
{
    let off = blen(src.take(n as int));
    lemma_starts(src, src.len(), n);
    let st = starts_upto(src, src.len());
    assert(reached(st, off, st.len()) == 1 + crate::lang::breaks(src.take(n as int)));
}

proof fn lemma_reached_push(st: Seq<nat>, x: nat, off: nat, n: nat)
    requires
        n <= st.len(),
    ensures
        reached(st.push(x), off, n) == reached(st, off, n),
    decreases n,
{
    if n > 0 {
        lemma_reached_push(st, x, off, (n - 1) as nat);
    }
}

proof fn lemma_starts(src: Seq<char>, m: nat, n: nat)
    requires
        m <= src.len(),
        n <= src.len(),
    ensures
        reached(starts_upto(src, m), blen(src.take(n as int)), starts_upto(src, m).len()) == 1
            + crate::lang::breaks(
            src.take(
                if m <= n {
                    m as int
                } else {
                    n as int
                },
            ),
        ),
    decreases m,
{
    let off = blen(src.take(n as int));
    let st = starts_upto(src, m);
    if m == 0 {
        assert(src.take(0) =~= Seq::<char>::empty());
        assert(reached(st, off, 0) == 0);
        assert(st[0] == 0);
    } else {
        let rest = starts_upto(src, (m - 1) as nat);
        lemma_starts(src, (m - 1) as nat, n);
        assert(src.take(m as int) =~= src.take(m - 1).push(src[m - 1]));
        assert(src.take(m as int).drop_last() =~= src.take(m - 1));
        if src[m - 1] == '\n' {
            let x = blen(src.take(m as int));
            lemma_reached_push(rest, x, off, rest.len());
            assert(st == rest.push(x));
            if m <= n {
                crate::text::lemma_blen_take(src.take(n as int), m as int);
                assert(src.take(n as int).take(m as int) =~= src.take(m as int));
            } else {
                crate::syntax::lemma_blen_strict(src, n as int, m as int);
            }
        }
    }
}

/// A batch that was cut says where to go on: the cut lies behind the file with
/// which the work started.
pub proof fn law_cut_lies_ahead(
    files: Seq<Seq<char>>,
    opened: Seq<OpenedView>,
    resume_at: nat,
    budget: nat,
)
    ensures
        batch_of(files, opened, resume_at, budget).cut matches Some(k) ==> resume_at < k
            < files.len(),
{
    lemma_cut(files, opened, resume_at, budget, batch_head(files.len(), resume_at), 0, resume_at);
}

proof fn lemma_cut(
    files: Seq<Seq<char>>,
    opened: Seq<OpenedView>,
    resume_at: nat,
    budget: nat,
    text: Seq<char>,
    baseline: nat,
    k: nat,
)
    requires
        resume_at <= k,
    ensures
        batch_from(files, opened, resume_at, budget, text, baseline, k).2 matches Some(c)
            ==> resume_at < c < files.len(),
    decreases files.len() - k,
{
    let used = blen(text) / 4;
    if k < files.len() && !(used >= budget && k > resume_at) {
        let (block, tokens) = outline_of(files[k as int], opened[k as int], room(budget, used));
        let sep = if k > resume_at {
            text + "\n"@
        } else {
            text
        };
        lemma_cut(files, opened, resume_at, budget, sep + block, baseline + tokens, k + 1);
    }
}

/// The rows of the first `m` symbols.
pub open spec fn first_rows(v: Seq<(nat, Seq<char>)>, starts: Seq<nat>, m: nat) -> Seq<char>
    decreases m,
{
    if m == 0 {
        ""@
    } else {
        first_rows(v, starts, (m - 1) as nat) + row_of(starts, v[m - 1])
    }
}

/// The tokens of the first `m` rows, each for itself.
pub open spec fn row_tokens(v: Seq<(nat, Seq<char>)>, starts: Seq<nat>, m: nat) -> nat
    decreases m,
{
    if m == 0 {
        0
    } else {
        row_tokens(v, starts, (m - 1) as nat) + blen(row_of(starts, v[m - 1])) / 4
    }
}

/// What stands behind the first `m` rows: how many symbols are left.
pub open spec fn rows_note(total: nat, m: nat) -> Seq<char> {
    if m < total {
        "  … (+"@ + dec((total - m) as nat) + " more; raise token_budget)\n"@
    } else {
        ""@
    }
}

/// `m` rows are as many as the budget has room for: beyond the first they fit, and
/// one more would not.
pub open spec fn rows_fill(
    v: Seq<(nat, Seq<char>)>,
    starts: Seq<nat>,
    budget: nat,
    used: nat,
    m: nat,
) -> bool {
    &&& m <= v.len()
    &&& m > 1 ==> used + row_tokens(v, starts, m) <= budget
    &&& m < v.len() ==> m > 0 && used + row_tokens(v, starts, m + 1) > budget
}

proof fn lemma_rows_fill(
    v: Seq<(nat, Seq<char>)>,
    starts: Seq<nat>,
    budget: nat,
    used: nat,
    k: nat,
) -> (m: nat)
    requires
        k <= v.len(),
        k > 1 ==> used + row_tokens(v, starts, k) <= budget,
    ensures
        rows_fill(v, starts, budget, used, m),
        first_rows(v, starts, k) + rows_from(
            v,
            starts,
            budget,
            used + row_tokens(v, starts, k),
            k as int,
        ) == first_rows(v, starts, m) + rows_note(v.len(), m),
    decreases v.len() - k,
{
    let now = used + row_tokens(v, starts, k);
    if k == v.len() {
        k
    } else {
        let row = row_of(starts, v[k as int]);
        if now + blen(row) / 4 > budget && k > 0 {
            k
        } else {
            let m = lemma_rows_fill(v, starts, budget, used, k + 1);
            let rest = rows_from(v, starts, budget, now + blen(row) / 4, k as int + 1);
            assert(first_rows(v, starts, k) + (row + rest) =~= (first_rows(v, starts, k) + row)
                + rest);
            m
        }
    }
}

/// An outline lists the first symbols of a file, as many as its budget has room
/// for but at least one, and says how many are left.
pub proof fn law_outline_fills_its_budget(
    rel: Seq<char>,
    lang: Lang,
    text: Seq<char>,
    budget: nat,
)
    requires
        symbols_in(lang, text).len() > 0,
    ensures
        ({
            let v = symbols_in(lang, text);
            let starts = starts_upto(text, text.len());
            let head = "outline - "@ + rel + "  ("@ + dec(v.len()) + " symbol(s))\n\n"@;
            exists|m: nat|
                m > 0 && #[trigger] rows_fill(v, starts, budget, blen(head) / 4, m)
                    && text_outline(rel, lang, text, budget) == head + (first_rows(v, starts, m)
                    + rows_note(v.len(), m))
        }),
{
    let v = symbols_in(lang, text);
    let starts = starts_upto(text, text.len());
    let head = "outline - "@ + rel + "  ("@ + dec(v.len()) + " symbol(s))\n\n"@;
    let m = lemma_rows_fill(v, starts, budget, blen(head) / 4, 0);
    reveal_strlit("");
    let rows = rows_from(v, starts, budget, blen(head) / 4, 0);
    assert(first_rows(v, starts, 0) + rows =~= rows);
    assert(rows_fill(v, starts, budget, blen(head) / 4, m));
}

} // verus!
