//! What is needed to edit a symbol: its definition, what it calls, who calls it,
//! and how its fields lie.
use vstd::prelude::*;
use crate::json::{number_or, str_or, string_or, u64_or, Datum, Json};
use crate::symbol_def::{DefInfo, InfoView};
use crate::text::{
    copy, dec, decimal, first_chars, is_blank, join, joined, lines, lines_of, list_text, listed,
    opt_text, strs, take_chars, to_chars, trim, trimmed,
};

verus! {

/// A place that calls the symbol.
pub struct Caller {
    pub name: String,
    pub rel: String,
    pub line: u64,
}

/// The values of a [`Caller`].
pub struct CallerView {
    pub name: Seq<char>,
    pub rel: Seq<char>,
    pub line: nat,
}

impl View for Caller {
    type V = CallerView;

    open spec fn view(&self) -> CallerView {
        CallerView { name: self.name@, rel: self.rel@, line: self.line as nat }
    }
}

pub open spec fn caller_views(v: Seq<Caller>) -> Seq<CallerView> {
    Seq::new(v.len(), |i: int| v[i]@)
}

/// What is asked for.
pub struct Ask {
    pub symbol: String,
    pub max: u64,
    pub budget: u64,
}

/// The values of an [`Ask`].
pub struct AskView {
    pub symbol: Seq<char>,
    pub max: u64,
    pub budget: u64,
}

impl View for Ask {
    type V = AskView;

    open spec fn view(&self) -> AskView {
        AskView { symbol: self.symbol@, max: self.max, budget: self.budget }
    }
}

/// What the arguments ask for; nothing where they name no symbol.
pub open spec fn ask_of(args: Json) -> Option<AskView> {
    let symbol = trimmed(str_or(args, "symbol"@, ""@));
    let max = u64_or(args, "max"@, 40);
    if symbol.len() == 0 {
        None
    } else {
        Some(
            AskView {
                symbol,
                max: if max > 1 {
                    max
                } else {
                    1
                },
                budget: u64_or(args, "token_budget"@, 1600),
            },
        )
    }
}

pub fn read_ask(args: &Datum) -> (r: Option<Ask>)
    ensures
        match r {
            Some(q) => ask_of(args@) == Some(q@),
            None => ask_of(args@) is None,
        },
{
    let symbol = trim(string_or(args, "symbol", "").as_str());
    if is_blank(symbol.as_str()) {
        return None;
    }
    let max: u64 = number_or(args, "max", 40);
    Some(
        Ask {
            symbol,
            max: if max > 1 {
                max
            } else {
                1
            },
            budget: number_or(args, "token_budget", 1600),
        },
    )
}

/// The first `n` lines, each indented and with a line feed.
pub open spec fn indented(ls: Seq<Seq<char>>, n: nat) -> Seq<char>
    decreases n,
{
    if n == 0 {
        ""@
    } else {
        indented(ls, (n - 1) as nat) + "  "@ + ls[n - 1] + "\n"@
    }
}

pub fn indent(ls: &Vec<String>) -> (r: String)
    ensures
        r@ == indented(strs(ls@), ls@.len()),
{
    let mut out = copy("");
    for i in 0..ls.len()
        invariant
            out@ == indented(strs(ls@), i as nat),
    {
        assert(strs(ls@)[i as int] == ls@[i as int]@);
        out.append("  ");
        out.append(ls[i].as_str());
        out.append("\n");
    }
    out
}

/// A body cut to `cap` characters, with a note where something was cut, and
/// indented.
pub open spec fn clipped(body: Seq<char>, cap: nat) -> Seq<char> {
    let t = if body.len() > cap {
        first_chars(body, cap) + "\n… (truncated; raise token_budget)"@
    } else {
        body
    };
    indented(lines_of(t), lines_of(t).len())
}

pub fn indent_clip(body: &str, cap: u64) -> (r: String)
    ensures
        r@ == clipped(body@, cap as nat),
{
    let v = to_chars(body);
    let t: String = if v.len() as u64 > cap {
        let mut t = take_chars(body, cap as usize);
        t.append("\n… (truncated; raise token_budget)");
        t
    } else {
        copy(body)
    };
    let ls = lines(t.as_str());
    assert(strs(ls@).len() == ls@.len());
    indent(&ls)
}

/// The part of a budget, in characters, that a body may take.
pub open spec fn body_cap(budget: u64) -> nat {
    let four = if budget * 4 > u64::MAX {
        u64::MAX as nat
    } else {
        (budget * 4) as nat
    };
    let twelve = if four * 3 > u64::MAX {
        u64::MAX as nat
    } else {
        four * 3
    };
    twelve / 5
}

fn find_body_cap(budget: u64) -> (r: u64)
    ensures
        r == body_cap(budget),
{
    let four: u64 = if budget > u64::MAX / 4 {
        u64::MAX
    } else {
        budget * 4
    };
    let twelve: u64 = if four > u64::MAX / 3 {
        u64::MAX
    } else {
        four * 3
    };
    twelve / 5
}

/// What the symbol calls.
pub open spec fn calls_text(callees: Seq<Seq<char>>, max: nat) -> Seq<char> {
    let head = "\ncalls ("@ + dec(callees.len()) + "):"@;
    if callees.len() == 0 {
        head + " (none)\n"@
    } else if callees.len() > max {
        head + "\n  "@ + joined(callees.take(max as int), ", "@) + " … (+"@ + dec(
            (callees.len() - max) as nat,
        ) + " more)"@ + "\n"@
    } else {
        head + "\n  "@ + joined(callees, ", "@) + "\n"@
    }
}

pub open spec fn caller_row(c: CallerView) -> Seq<char> {
    "  "@ + c.name + "   "@ + c.rel + ":"@ + dec(c.line) + "\n"@
}

pub open spec fn caller_rows(v: Seq<CallerView>, n: nat) -> Seq<char>
    decreases n,
{
    if n == 0 {
        ""@
    } else {
        caller_rows(v, (n - 1) as nat) + caller_row(v[n - 1])
    }
}

/// Who calls the symbol.
pub open spec fn callers_text(v: Seq<CallerView>, max: nat) -> Seq<char> {
    let head = "\ncalled by ("@ + dec(v.len()) + "):\n"@;
    if v.len() == 0 {
        head + "  (none)\n"@
    } else if v.len() > max {
        head + (caller_rows(v, max) + "  … (+"@ + dec((v.len() - max) as nat) + " more)\n"@)
    } else {
        head + caller_rows(v, v.len())
    }
}

/// Everything known of a symbol.
pub open spec fn rendered(
    a: AskView,
    d: InfoView,
    callees: Seq<Seq<char>>,
    callers: Seq<CallerView>,
    layout: Option<Seq<char>>,
) -> Seq<char> {
    "symbol_context - \""@ + a.symbol + "\"  "@ + d.rel + ":"@ + dec(d.line) + "-"@ + dec(
        d.end_line,
    ) + "  ("@ + d.kind.text() + ")\n\n"@ + "signature:\n  "@ + d.signature + "\n"@ + (
    if d.doc.len() > 0 {
        "\ndoc:\n"@ + indented(d.doc, d.doc.len())
    } else {
        ""@
    }) + "\ndefinition:\n"@ + clipped(d.body, body_cap(a.budget)) + calls_text(
        callees,
        a.max as nat,
    ) + callers_text(callers, a.max as nat) + (match layout {
        Some(t) => "\nlayout:\n"@ + indented(lines_of(t), lines_of(t).len()),
        None => ""@,
    })
}

fn make_calls(callees: &Vec<String>, max: u64) -> (r: String)
    ensures
        r@ == calls_text(strs(callees@), max as nat),
{
    let mut t = copy("\ncalls (");
    assert(strs(callees@).len() == callees@.len());
    t.append(decimal(callees.len() as u64).as_str());
    t.append("):");
    if callees.len() == 0 {
        t.append(" (none)\n");
        return t;
    }
    t.append("\n  ");
    if callees.len() as u64 > max {
        let mut some: Vec<String> = Vec::new();
        for i in 0..max as usize
            invariant
                max <= callees@.len(),
                some@.len() == i,
                forall|k: int| 0 <= k < i ==> (#[trigger] some@[k])@ == callees@[k]@,
        {
            some.push(copy(callees[i].as_str()));
        }
        assert(strs(some@) =~= strs(callees@).take(max as int));
        t.append(join(&some, ", ").as_str());
        t.append(" … (+");
        t.append(decimal(callees.len() as u64 - max).as_str());
        t.append(" more)");
    } else {
        t.append(join(callees, ", ").as_str());
    }
    t.append("\n");
    t
}

fn make_caller_rows(callers: &Vec<Caller>, n: usize) -> (r: String)
    requires
        n <= callers@.len(),
    ensures
        r@ == caller_rows(caller_views(callers@), n as nat),
{
    let mut t = copy("");
    for i in 0..n
        invariant
            n <= callers@.len(),
            t@ == caller_rows(caller_views(callers@), i as nat),
    {
        let c = &callers[i];
        assert(caller_views(callers@)[i as int] == c@);
        let mut row = copy("  ");
        row.append(c.name.as_str());
        row.append("   ");
        row.append(c.rel.as_str());
        row.append(":");
        row.append(decimal(c.line).as_str());
        row.append("\n");
        t.append(row.as_str());
    }
    t
}

fn make_callers(callers: &Vec<Caller>, max: u64) -> (r: String)
    ensures
        r@ == callers_text(caller_views(callers@), max as nat),
{
    let mut t = copy("\ncalled by (");
    t.append(decimal(callers.len() as u64).as_str());
    t.append("):\n");
    if callers.len() == 0 {
        t.append("  (none)\n");
    } else if callers.len() as u64 > max {
        let mut rows = make_caller_rows(callers, max as usize);
        rows.append("  … (+");
        rows.append(decimal(callers.len() as u64 - max).as_str());
        rows.append(" more)\n");
        t.append(rows.as_str());
    } else {
        t.append(make_caller_rows(callers, callers.len()).as_str());
    }
    t
}

/// Renders what is known of a symbol.
pub fn render(
    ask: &Ask,
    info: &DefInfo,
    callees: &Vec<String>,
    callers: &Vec<Caller>,
    layout: &Option<String>,
) -> (r: String)
    ensures
        r@ == rendered(ask@, info@, strs(callees@), caller_views(callers@), opt_text(*layout)),
{
    let mut t = copy("symbol_context - \"");
    t.append(ask.symbol.as_str());
    t.append("\"  ");
    t.append(info.rel.as_str());
    t.append(":");
    t.append(decimal(info.line).as_str());
    t.append("-");
    t.append(decimal(info.end_line).as_str());
    t.append("  (");
    t.append(info.kind.label());
    t.append(")\n\n");
    t.append("signature:\n  ");
    t.append(info.signature.as_str());
    t.append("\n");
    let mut doc = copy("");
    assert(strs(info.doc@).len() == info.doc@.len());
    if info.doc.len() > 0 {
        doc = copy("\ndoc:\n");
        doc.append(indent(&info.doc).as_str());
    }
    t.append(doc.as_str());
    t.append("\ndefinition:\n");
    t.append(indent_clip(info.body.as_str(), find_body_cap(ask.budget)).as_str());
    t.append(make_calls(callees, ask.max).as_str());
    t.append(make_callers(callers, ask.max).as_str());
    let tail: String = match layout {
        Some(l) => {
            let ls = lines(l.as_str());
            assert(strs(ls@).len() == ls@.len());
            let mut m = copy("\nlayout:\n");
            m.append(indent(&ls).as_str());
            m
        },
        None => copy(""),
    };
    t.append(tail.as_str());
    t
}

/// What is said where the symbol is not defined.
pub open spec fn missing(
    symbol: Seq<char>,
    paths: Seq<Seq<char>>,
    hint: Seq<char>,
) -> Seq<char> {
    "symbol_context - \""@ + symbol + "\": no definition found under "@ + listed(paths) + "\n"@
        + hint
}

pub fn render_missing(symbol: &str, paths: &Vec<String>, hint: &str) -> (r: String)
    ensures
        r@ == missing(symbol@, strs(paths@), hint@),
{
    let mut t = copy("symbol_context - \"");
    t.append(symbol);
    t.append("\": no definition found under ");
    t.append(list_text(paths).as_str());
    t.append("\n");
    t.append(hint);
    t
}

/// The share of the budget left to the layout of a record.
pub fn layout_budget(ask: &Ask) -> (r: u64)
    ensures
        r == ask@.budget / 3,
{
    ask.budget / 3
}

} // verus!
