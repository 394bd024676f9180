//! What an answer on a symbol shows of its callers and of what it calls.
use vstd::prelude::*;
use crate::laws::texts::{around, flat, lemma_flat_push, shows};
use crate::symbol_context::{
    caller_rows, callers_text, calls_text, clipped, indented, rendered, AskView, CallerView,
};
use crate::symbol_def::InfoView;
use crate::text::{dec, joined};

verus! {

/// The smaller of two numbers.
pub open spec fn fewer(a: nat, b: nat) -> nat {
    if a < b {
        a
    } else {
        b
    }
}

/// Whether these are the rows of the first callers, in order, as many as may be shown.
pub open spec fn rows_of(rows: Seq<Seq<char>>, callers: Seq<CallerView>, max: nat) -> bool {
    &&& rows.len() == fewer(max, callers.len())
    &&& forall|i: int|
        0 <= i < rows.len() ==> (#[trigger] rows[i]) == "  "@ + callers[i].name + "   "@
            + callers[i].rel + ":"@ + dec(callers[i].line) + "\n"@
}

proof fn lemma_rows(callers: Seq<CallerView>, n: nat) -> (rows: Seq<Seq<char>>)
    requires
        n <= callers.len(),
    ensures
        rows.len() == n,
        forall|i: int|
            0 <= i < rows.len() ==> (#[trigger] rows[i]) == "  "@ + callers[i].name + "   "@
                + callers[i].rel + ":"@ + dec(callers[i].line) + "\n"@,
        flat(rows) == caller_rows(callers, n),
    decreases n,
{
    if n == 0 {
        reveal_strlit("");
        assert(flat(Seq::<Seq<char>>::empty()) =~= caller_rows(callers, 0));
        Seq::empty()
    } else {
        let rest = lemma_rows(callers, (n - 1) as nat);
        let c = callers[n - 1];
        let row = "  "@ + c.name + "   "@ + c.rel + ":"@ + dec(c.line) + "\n"@;
        lemma_flat_push(rest, row);
        rest.push(row)
    }
}

/// The note on what is not shown: none where everything is.
pub open spec fn rest_note(
    before: Seq<char>,
    all: nat,
    shown: nat,
    behind: Seq<char>,
) -> Seq<char> {
    if all > shown {
        before + "… (+"@ + dec((all - shown) as nat) + " more)"@ + behind
    } else {
        Seq::empty()
    }
}

/// An answer names how many callers there are and shows a row for each of the first of
/// them, in order, as many as may be shown. Where that is not all, it says how many are
/// left; the rows and those make up all callers.
pub proof fn law_callers_are_shown(
    a: AskView,
    d: InfoView,
    callees: Seq<Seq<char>>,
    callers: Seq<CallerView>,
    layout: Option<Seq<char>>,
)
    requires
        callers.len() > 0,
    ensures
        exists|rows: Seq<Seq<char>>|
            #[trigger] rows_of(rows, callers, a.max as nat) && shows(
                rendered(a, d, callees, callers, layout),
                "\ncalled by ("@ + dec(callers.len()) + "):\n"@ + flat(rows) + rest_note(
                    "  "@,
                    callers.len(),
                    rows.len(),
                    "\n"@,
                ),
            ),
{
    let max = a.max as nat;
    let rows = lemma_rows(callers, fewer(max, callers.len()));
    assert(rows_of(rows, callers, max));
    let part = "\ncalled by ("@ + dec(callers.len()) + "):\n"@ + flat(rows) + rest_note(
        "  "@,
        callers.len(),
        rows.len(),
        "\n"@,
    );
    reveal_strlit("  … (+");
    reveal_strlit("  ");
    reveal_strlit("… (+");
    reveal_strlit(" more)\n");
    reveal_strlit(" more)");
    reveal_strlit("\n");
    assert(part =~= callers_text(callers, max));
    let t = rendered(a, d, callees, callers, layout);
    lemma_sections(a, d, callees, callers, layout);
}

/// Where nothing calls the symbol, the answer says so.
pub proof fn law_no_caller_is_told(
    a: AskView,
    d: InfoView,
    callees: Seq<Seq<char>>,
    layout: Option<Seq<char>>,
)
    ensures
        shows(
            rendered(a, d, callees, Seq::empty(), layout),
            "\ncalled by ("@ + dec(0) + "):\n  (none)\n"@,
        ),
{
    lemma_sections(a, d, callees, Seq::empty(), layout);
    reveal_strlit("):\n");
    reveal_strlit("  (none)\n");
    reveal_strlit("):\n  (none)\n");
    assert("\ncalled by ("@ + dec(0) + "):\n  (none)\n"@ =~= callers_text(
        Seq::empty(),
        a.max as nat,
    ));
}

/// An answer names how many functions the symbol calls and lists the first of them, in
/// order, as many as may be shown, with a note on those that are left.
pub proof fn law_callees_are_shown(
    a: AskView,
    d: InfoView,
    callees: Seq<Seq<char>>,
    callers: Seq<CallerView>,
    layout: Option<Seq<char>>,
)
    ensures
        ({
            let shown = fewer(a.max as nat, callees.len());
            shows(
                rendered(a, d, callees, callers, layout),
                "\ncalls ("@ + dec(callees.len()) + "):"@ + (if callees.len() == 0 {
                    " (none)"@
                } else {
                    "\n  "@ + joined(callees.take(shown as int), ", "@) + rest_note(
                        " "@,
                        callees.len(),
                        shown,
                        ""@,
                    )
                }) + "\n"@,
            )
        }),
{
    let max = a.max as nat;
    let shown = fewer(max, callees.len());
    lemma_sections(a, d, callees, callers, layout);
    reveal_strlit(" (none)\n");
    reveal_strlit(" (none)");
    reveal_strlit(" … (+");
    reveal_strlit(" ");
    reveal_strlit("… (+");
    reveal_strlit("");
    reveal_strlit("\n");
    let part = "\ncalls ("@ + dec(callees.len()) + "):"@ + (if callees.len() == 0 {
        " (none)"@
    } else {
        "\n  "@ + joined(callees.take(shown as int), ", "@) + rest_note(
            " "@,
            callees.len(),
            shown,
            ""@,
        )
    }) + "\n"@;
    assert(callees.take(callees.len() as int) =~= callees);
    assert(part =~= calls_text(callees, max));
}

/// An answer begins with where the symbol lies, what it is and its signature.
pub proof fn law_context_begins_with_the_definition(
    a: AskView,
    d: InfoView,
    callees: Seq<Seq<char>>,
    callers: Seq<CallerView>,
    layout: Option<Seq<char>>,
)
    ensures
        crate::text::starts(
            rendered(a, d, callees, callers, layout),
            "symbol_context - \""@ + a.symbol + "\"  "@ + d.rel + ":"@ + dec(d.line) + "-"@ + dec(
                d.end_line,
            ) + "  ("@ + d.kind.text() + ")\n\nsignature:\n  "@ + d.signature + "\n"@,
        ),
{
    let h = "symbol_context - \""@ + a.symbol + "\"  "@ + d.rel + ":"@ + dec(d.line) + "-"@ + dec(
        d.end_line,
    ) + "  ("@ + d.kind.text() + ")\n\nsignature:\n  "@ + d.signature + "\n"@;
    reveal_strlit(")\n\n");
    reveal_strlit("signature:\n  ");
    reveal_strlit(")\n\nsignature:\n  ");
    let t = rendered(a, d, callees, callers, layout);
    assert(t.take(h.len() as int) =~= h);
}

proof fn lemma_sections(
    a: AskView,
    d: InfoView,
    callees: Seq<Seq<char>>,
    callers: Seq<CallerView>,
    layout: Option<Seq<char>>,
)
    ensures
        shows(rendered(a, d, callees, callers, layout), calls_text(callees, a.max as nat)),
        shows(rendered(a, d, callees, callers, layout), callers_text(callers, a.max as nat)),
{
    let t = rendered(a, d, callees, callers, layout);
    let pre = "symbol_context - \""@ + a.symbol + "\"  "@ + d.rel + ":"@ + dec(d.line) + "-"@
        + dec(d.end_line) + "  ("@ + d.kind.text() + ")\n\n"@ + "signature:\n  "@ + d.signature
        + "\n"@ + (if d.doc.len() > 0 {
        "\ndoc:\n"@ + indented(d.doc, d.doc.len())
    } else {
        ""@
    }) + "\ndefinition:\n"@ + clipped(d.body, crate::symbol_context::body_cap(a.budget));
    let x = calls_text(callees, a.max as nat);
    let y = callers_text(callers, a.max as nat);
    let post = match layout {
        Some(l) => "\nlayout:\n"@ + indented(
            crate::text::lines_of(l),
            crate::text::lines_of(l).len(),
        ),
        None => ""@,
    };
    assert(t == pre + x + y + post);
    assert(t =~= around(pre, x, y + post));
    assert(t =~= around(pre + x, y, post));
}

} // verus!
