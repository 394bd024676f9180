//! Closing a session, and the prompt with which the next one begins.
use vstd::prelude::*;
use crate::args::{optional_str, required_at, required_str, text_at};
use crate::izakaya::replay::{distinct, sort_distinct};
use crate::json::{bool_or, flag_or, Datum, Json};
use crate::mas::posting::{estimate_tokens, tokens, truncate_to_tokens, truncated};
use crate::mas::{
    entry_views, is_same_word, same_word, session_error, Entry, EntryView, Session, SessionView,
};
use crate::runs::{run_views, Run, RunView};
use crate::text::{
    capped, copy, copy_opt, count_up, dec, decimal, join, joined, opt_text, outcome, same, strs,
};

verus! {

/// A defect that is not resolved.
pub struct DefectBrief {
    pub status: String,
    pub id: String,
    pub summary: String,
}

/// The values of a [`DefectBrief`].
pub struct DefectView {
    pub status: Seq<char>,
    pub id: Seq<char>,
    pub summary: Seq<char>,
}

impl View for DefectBrief {
    type V = DefectView;

    open spec fn view(&self) -> DefectView {
        DefectView { status: self.status@, id: self.id@, summary: self.summary@ }
    }
}

pub open spec fn defect_views(v: Seq<DefectBrief>) -> Seq<DefectView> {
    Seq::new(v.len(), |i: int| v[i]@)
}

// ---------------------------------------------------------------------------
// What the entries say together

/// Which list of an entry is meant.
#[derive(Clone, Copy, PartialEq, Eq, Structural)]
pub enum Part {
    Anchors,
    Commands,
    Constraints,
    Questions,
    Decisions,
}

pub open spec fn part_of(e: EntryView, p: Part) -> Seq<Seq<char>> {
    match p {
        Part::Anchors => e.anchors,
        Part::Commands => e.commands,
        Part::Constraints => e.constraints,
        Part::Questions => e.open_questions,
        Part::Decisions => e.decisions,
    }
}

/// The lists of the first `n` entries, one behind the other.
pub open spec fn gathered(v: Seq<EntryView>, p: Part, n: nat) -> Seq<Seq<char>>
    decreases n,
{
    if n == 0 {
        Seq::empty()
    } else {
        gathered(v, p, (n - 1) as nat) + part_of(v[n - 1], p)
    }
}

fn gather(v: &Vec<Entry>, p: Part) -> (r: Vec<String>)
    ensures
        strs(r@) == gathered(entry_views(v@), p, v@.len()),
{
    let ghost all = entry_views(v@);
    let mut out = crate::text::no_strings();
    for i in 0..v.len()
        invariant
            all == entry_views(v@),
            strs(out@) == gathered(all, p, i as nat),
    {
        assert(all[i as int] == v@[i as int]@);
        let e = &v[i];
        let src: &Vec<String> = match p {
            Part::Anchors => &e.anchors,
            Part::Commands => &e.commands,
            Part::Constraints => &e.constraints,
            Part::Questions => &e.open_questions,
            Part::Decisions => &e.decisions,
        };
        let mut more = crate::text::copy_all(src);
        let ghost before = out@;
        let ghost added = more@;
        out.append(&mut more);
        assert(strs(out@) =~= strs(before) + strs(added));
    }
    out
}

/// Rows of items, each behind a dash, from the last backwards.
pub open spec fn last_rows(v: Seq<Seq<char>>, n: nat) -> Seq<char>
    decreases n,
{
    if n == 0 {
        ""@
    } else {
        last_rows(v, (n - 1) as nat) + "- "@ + v[v.len() - n] + "\n"@
    }
}

/// The last few items under a heading, the last first.
pub open spec fn last_section(head: Seq<char>, v: Seq<Seq<char>>, cap: nat) -> Seq<char> {
    if v.len() == 0 {
        ""@
    } else {
        head + last_rows(v, crate::runs::few(v.len(), cap)) + "\n"@
    }
}

fn make_last_section(head: &str, v: &Vec<String>, cap: usize) -> (r: String)
    ensures
        r@ == last_section(head@, strs(v@), cap as nat),
{
    let ghost all = strs(v@);
    assert(all.len() == v@.len());
    if v.len() == 0 {
        return copy("");
    }
    let n: usize = if v.len() > cap {
        cap
    } else {
        v.len()
    };
    let mut rows = copy("");
    for i in 0..n
        invariant
            all == strs(v@),
            n <= v@.len(),
            rows@ == last_rows(all, i as nat),
    {
        let p: usize = v.len() - 1 - i;
        assert(all[p as int] == v@[p as int]@);
        assert(all[all.len() - (i + 1)] == v@[p as int]@);
        rows.append("- ");
        rows.append(v[p].as_str());
        rows.append("\n");
    }
    let mut t = copy(head);
    t.append(rows.as_str());
    t.append("\n");
    t
}

/// Rows of items between two marks.
pub open spec fn marked_rows(v: Seq<Seq<char>>, open: Seq<char>, close: Seq<char>, n: nat) -> Seq<
    char,
>
    decreases n,
{
    if n == 0 {
        ""@
    } else {
        marked_rows(v, open, close, (n - 1) as nat) + open + v[n - 1] + close
    }
}

pub open spec fn marked_section(
    head: Seq<char>,
    v: Seq<Seq<char>>,
    open: Seq<char>,
    close: Seq<char>,
) -> Seq<char> {
    if v.len() == 0 {
        ""@
    } else {
        head + marked_rows(v, open, close, v.len()) + "\n"@
    }
}

fn make_marked_section(head: &str, v: &Vec<String>, open: &str, close: &str) -> (r: String)
    ensures
        r@ == marked_section(head@, strs(v@), open@, close@),
{
    let ghost all = strs(v@);
    assert(all.len() == v@.len());
    if v.len() == 0 {
        return copy("");
    }
    let mut rows = copy("");
    for i in 0..v.len()
        invariant
            all == strs(v@),
            rows@ == marked_rows(all, open@, close@, i as nat),
    {
        assert(all[i as int] == v@[i as int]@);
        rows.append(open);
        rows.append(v[i].as_str());
        rows.append(close);
    }
    let mut t = copy(head);
    t.append(rows.as_str());
    t.append("\n");
    t
}

pub open spec fn defect_rows(v: Seq<DefectView>, n: nat) -> Seq<char>
    decreases n,
{
    if n == 0 {
        ""@
    } else {
        let d = v[n - 1];
        defect_rows(v, (n - 1) as nat) + "- ["@ + d.status + "] "@ + d.id + " — "@ + d.summary
            + "\n"@
    }
}

/// The defects that are not resolved, at most `cap`.
pub open spec fn defects_text(v: Seq<DefectView>, cap: nat) -> Seq<char> {
    "## Priority defects (unresolved)\n\n"@ + (if v.len() == 0 {
        "(none)\n\n"@
    } else {
        defect_rows(v, crate::runs::few(v.len(), cap)) + "\n"@
    })
}

pub open spec fn brief_rows(v: Seq<RunView>, n: nat) -> Seq<char>
    decreases n,
{
    if n == 0 {
        ""@
    } else {
        let r = v[n - 1];
        brief_rows(v, (n - 1) as nat) + "- ["@ + r.status + "] "@ + r.id + " — "@ + r.command
            + "\n"@
    }
}

pub open spec fn runs_text(v: Seq<RunView>) -> Seq<char> {
    "## Recent gate runs\n\n"@ + (if v.len() == 0 {
        "(none recorded)\n\n"@
    } else {
        brief_rows(v, v.len()) + "\n"@
    })
}

fn make_defects(v: &Vec<DefectBrief>, cap: usize) -> (r: String)
    ensures
        r@ == defects_text(defect_views(v@), cap as nat),
{
    let ghost all = defect_views(v@);
    let mut t = copy("## Priority defects (unresolved)\n\n");
    if v.len() == 0 {
        t.append("(none)\n\n");
        return t;
    }
    let n: usize = if v.len() > cap {
        cap
    } else {
        v.len()
    };
    let mut rows = copy("");
    for i in 0..n
        invariant
            all == defect_views(v@),
            n <= v@.len(),
            rows@ == defect_rows(all, i as nat),
    {
        let d = &v[i];
        assert(all[i as int] == d@);
        rows.append("- [");
        rows.append(d.status.as_str());
        rows.append("] ");
        rows.append(d.id.as_str());
        rows.append(" — ");
        rows.append(d.summary.as_str());
        rows.append("\n");
    }
    rows.append("\n");
    t.append(rows.as_str());
    t
}

fn make_runs(v: &Vec<Run>) -> (r: String)
    ensures
        r@ == runs_text(run_views(v@)),
{
    let ghost all = run_views(v@);
    let mut t = copy("## Recent gate runs\n\n");
    if v.len() == 0 {
        t.append("(none recorded)\n\n");
        return t;
    }
    let mut rows = copy("");
    for i in 0..v.len()
        invariant
            all == run_views(v@),
            rows@ == brief_rows(all, i as nat),
    {
        let r = &v[i];
        assert(all[i as int] == r@);
        rows.append("- [");
        rows.append(r.status.as_str());
        rows.append("] ");
        rows.append(r.id.as_str());
        rows.append(" — ");
        rows.append(r.command.as_str());
        rows.append("\n");
    }
    rows.append("\n");
    t.append(rows.as_str());
    t
}

/// Entries of the kind that hands work over.
pub open spec fn handoff_kind() -> spec_fn(EntryView) -> bool {
    |e: EntryView| same_word(e.kind, "handoff"@)
}

pub open spec fn handoff_note(e: EntryView) -> Seq<char> {
    "### entry "@ + dec(e.id as nat) + " ("@ + e.role + ")\n"@ + e.summary + "\n"@ + (
    match e.note_ref {
        Some(n) => "note_ref: "@ + n + "\n"@,
        None => ""@,
    }) + "\n"@
}

pub open spec fn handoff_notes(v: Seq<EntryView>, n: nat) -> Seq<char>
    decreases n,
{
    if n == 0 {
        ""@
    } else {
        handoff_notes(v, (n - 1) as nat) + handoff_note(v[v.len() - n])
    }
}

/// The last few handoffs, the last first.
pub open spec fn handoffs_text(v: Seq<EntryView>) -> Seq<char> {
    let hs = v.filter(handoff_kind());
    if hs.len() == 0 {
        ""@
    } else {
        "## Handoff notes\n\n"@ + handoff_notes(hs, crate::runs::few(hs.len(), 3))
    }
}

fn make_handoffs(v: &Vec<Entry>) -> (r: String)
    ensures
        r@ == handoffs_text(entry_views(v@)),
{
    let ghost all = entry_views(v@);
    let ghost keep = handoff_kind();
    let mut hs: Vec<Entry> = Vec::new();
    proof {
        reveal(Seq::filter);
        assert(all.take(0) =~= Seq::<EntryView>::empty());
        assert(entry_views(hs@) =~= all.take(0).filter(keep));
    }
    for i in 0..v.len()
        invariant
            all == entry_views(v@),
            keep == handoff_kind(),
            entry_views(hs@) == all.take(i as int).filter(keep),
    {
        proof {
            assert(all.take(i + 1) =~= all.take(i as int).push(all[i as int]));
            all.take(i as int).lemma_filter_push(all[i as int], keep);
        }
        assert(all[i as int] == v@[i as int]@);
        if is_same_word(v[i].kind.as_str(), "handoff") {
            let ghost before = hs@;
            let e = v[i].copy();
            hs.push(e);
            assert(entry_views(hs@) =~= entry_views(before).push(e@));
        }
    }
    assert(all.take(all.len() as int) =~= all);
    let ghost hv = entry_views(hs@);
    assert(hv.len() == hs@.len());
    if hs.len() == 0 {
        return copy("");
    }
    let n: usize = if hs.len() > 3 {
        3
    } else {
        hs.len()
    };
    let mut rows = copy("");
    for i in 0..n
        invariant
            hv == entry_views(hs@),
            n <= hs@.len(),
            rows@ == handoff_notes(hv, i as nat),
    {
        let p: usize = hs.len() - 1 - i;
        let e = &hs[p];
        assert(hv[p as int] == e@);
        assert(hv[hv.len() - (i + 1)] == e@);
        let mut m = copy("### entry ");
        m.append(decimal(e.id).as_str());
        m.append(" (");
        m.append(e.role.as_str());
        m.append(")\n");
        m.append(e.summary.as_str());
        m.append("\n");
        let note: String = match &e.note_ref {
            Some(x) => {
                let mut k = copy("note_ref: ");
                k.append(x.as_str());
                k.append("\n");
                k
            },
            None => copy(""),
        };
        m.append(note.as_str());
        m.append("\n");
        rows.append(m.as_str());
    }
    let mut t = copy("## Handoff notes\n\n");
    t.append(rows.as_str());
    t
}

// ---------------------------------------------------------------------------
// The prompt

/// The parts of a prompt that come from the lists of the entries.
pub open spec fn lists_text(v: Seq<EntryView>) -> Seq<char> {
    let anchors = distinct(gathered(v, Part::Anchors, v.len()));
    last_section("## Decisions\n\n"@, gathered(v, Part::Decisions, v.len()), 12) + last_section(
        "## Open questions\n\n"@,
        gathered(v, Part::Questions, v.len()),
        12,
    ) + (if anchors.len() == 0 {
        ""@
    } else {
        "## Anchors\n\n"@ + joined(anchors, ", "@) + "\n\n"@
    }) + marked_section(
        "## Commands\n\n"@,
        distinct(gathered(v, Part::Commands, v.len())),
        "- `"@,
        "`\n"@,
    ) + marked_section(
        "## Constraints\n\n"@,
        distinct(gathered(v, Part::Constraints, v.len())),
        "- "@,
        "\n"@,
    )
}

/// The prompt with which the next session begins. A result that is given takes the
/// place of the one of the session.
pub open spec fn prompt_text(
    workspace: Seq<char>,
    s: SessionView,
    extra: Option<Seq<char>>,
    defects: Seq<DefectView>,
    runs: Seq<RunView>,
) -> Seq<char> {
    let result = match extra {
        Some(r) => Some(r),
        None => s.result,
    };
    "# Next-session prime (Wordkeep handoff)\n\n"@ + "Workspace: "@ + workspace + "\nSession: "@
        + s.session + " (status="@ + s.status + ", round "@ + dec(s.round as nat) + "/"@ + dec(
        s.max_rounds as nat,
    ) + ")\n\n"@ + (match result {
        Some(r) => "## Result / goal\n\n"@ + r + "\n\n"@,
        None => ""@,
    }) + defects_text(defects, 12) + runs_text(runs) + lists_text(s.entries) + handoffs_text(
        s.entries,
    )
        + "## Suggested first tools\n\n         1. `defect_list`\n         2. `session_pressure`\n         3. `run_history`\n         4. `knowledge_search` for the active subsystem\n"@
}

fn make_lists(v: &Vec<Entry>) -> (r: String)
    ensures
        r@ == lists_text(entry_views(v@)),
{
    assert(entry_views(v@).len() == v@.len());
    let mut t = make_last_section("## Decisions\n\n", &gather(v, Part::Decisions), 12);
    t.append(
        make_last_section("## Open questions\n\n", &gather(v, Part::Questions), 12).as_str(),
    );
    let anchors = sort_distinct(&gather(v, Part::Anchors));
    assert(strs(anchors@).len() == anchors@.len());
    let mut m = copy("");
    if anchors.len() > 0 {
        m = copy("## Anchors\n\n");
        m.append(join(&anchors, ", ").as_str());
        m.append("\n\n");
    }
    t.append(m.as_str());
    let commands = sort_distinct(&gather(v, Part::Commands));
    t.append(make_marked_section("## Commands\n\n", &commands, "- `", "`\n").as_str());
    let constraints = sort_distinct(&gather(v, Part::Constraints));
    t.append(make_marked_section("## Constraints\n\n", &constraints, "- ", "\n").as_str());
    t
}

pub fn format_handoff_prompt(
    workspace: &str,
    s: &Session,
    extra: &Option<String>,
    defects: &Vec<DefectBrief>,
    runs: &Vec<Run>,
) -> (r: String)
    ensures
        r@ == prompt_text(workspace@, s@, opt_text(*extra), defect_views(defects@), run_views(runs@)),
{
    let mut t = copy("# Next-session prime (Wordkeep handoff)\n\n");
    t.append("Workspace: ");
    t.append(workspace);
    t.append("\nSession: ");
    t.append(s.session.as_str());
    t.append(" (status=");
    t.append(s.status.as_str());
    t.append(", round ");
    t.append(decimal(s.round).as_str());
    t.append("/");
    t.append(decimal(s.max_rounds).as_str());
    t.append(")\n\n");
    let result: Option<String> = match extra {
        Some(r) => Some(copy(r.as_str())),
        None => copy_opt(&s.result),
    };
    let goal: String = match result {
        Some(r) => {
            let mut m = copy("## Result / goal\n\n");
            m.append(r.as_str());
            m.append("\n\n");
            m
        },
        None => copy(""),
    };
    t.append(goal.as_str());
    t.append(make_defects(defects, 12).as_str());
    t.append(make_runs(runs).as_str());
    t.append(make_lists(&s.entries).as_str());
    t.append(make_handoffs(&s.entries).as_str());
    t.append(
        "## Suggested first tools\n\n         1. `defect_list`\n         2. `session_pressure`\n         3. `run_history`\n         4. `knowledge_search` for the active subsystem\n",
    );
    t
}

/// A draft of a prompt where no session is known.
pub open spec fn draft_text(
    workspace: Seq<char>,
    session: Option<Seq<char>>,
    defects: Seq<DefectView>,
    runs: Seq<RunView>,
) -> Seq<char> {
    "# Next-session prime (Wordkeep autopilot draft)\n\n"@ + "Workspace: "@ + workspace + "\n"@ + (
    match session {
        Some(s) => "Session hint: "@ + s + "\n"@,
        None => ""@,
    }) + "\nNOTE: draft only — call `session_handoff` to persist / reset pressure.\n\n"@
        + defects_text(defects, 8) + runs_text(runs)
        + "## Suggested first tools\n\n1. `defect_list`\n2. `session_pressure`\n3. `run_history`\n4. `knowledge_search` for the active subsystem\n"@
}

fn compact_pressure_handoff(
    workspace: &str,
    session: &Option<String>,
    defects: &Vec<DefectBrief>,
    runs: &Vec<Run>,
) -> (r: String)
    ensures
        r@ == draft_text(
            workspace@,
            opt_text(*session),
            defect_views(defects@),
            run_views(runs@),
        ),
{
    let mut t = copy("# Next-session prime (Wordkeep autopilot draft)\n\n");
    t.append("Workspace: ");
    t.append(workspace);
    t.append("\n");
    let hint: String = match session {
        Some(s) => {
            let mut m = copy("Session hint: ");
            m.append(s.as_str());
            m.append("\n");
            m
        },
        None => copy(""),
    };
    t.append(hint.as_str());
    t.append("\nNOTE: draft only — call `session_handoff` to persist / reset pressure.\n\n");
    t.append(make_defects(defects, 8).as_str());
    t.append(make_runs(runs).as_str());
    t.append(
        "## Suggested first tools\n\n1. `defect_list`\n2. `session_pressure`\n3. `run_history`\n4. `knowledge_search` for the active subsystem\n",
    );
    t
}

/// A draft of the next prompt, cut to a budget. `found` is the session that is named,
/// where there is one.
pub fn draft_autopilot_handoff(
    workspace: &str,
    session: &Option<String>,
    found: &Option<Session>,
    defects: &Vec<DefectBrief>,
    runs: &Vec<Run>,
    max_tokens: u64,
) -> (r: String)
    ensures
        r@ == truncated(
            match (session, found) {
                (Some(name), Some(s)) => if name@.len() > 0 {
                    prompt_text(workspace@, s@, None, defect_views(defects@), run_views(runs@))
                } else {
                    draft_text(workspace@, None, defect_views(defects@), run_views(runs@))
                },
                (Some(name), None) => draft_text(
                    workspace@,
                    if name@.len() > 0 {
                        Some(name@)
                    } else {
                        None
                    },
                    defect_views(defects@),
                    run_views(runs@),
                ),
                (None, _) => draft_text(
                    workspace@,
                    None,
                    defect_views(defects@),
                    run_views(runs@),
                ),
            },
            if max_tokens >= 64 {
                max_tokens
            } else {
                64
            },
        ),
{
    let name: Option<String> = match session {
        Some(n) => if crate::text::is_blank(n.as_str()) {
            None
        } else {
            Some(copy(n.as_str()))
        },
        None => None,
    };
    let none: Option<String> = None;
    let draft: String = match found {
        Some(s) => if name.is_some() {
            format_handoff_prompt(workspace, s, &none, defects, runs)
        } else {
            compact_pressure_handoff(workspace, &none, defects, runs)
        },
        None => compact_pressure_handoff(workspace, &name, defects, runs),
    };
    let cap: u64 = if max_tokens >= 64 {
        max_tokens
    } else {
        64
    };
    truncate_to_tokens(draft.as_str(), cap)
}

// ---------------------------------------------------------------------------
// Finalizing

/// How a session is to be closed.
pub struct Closing {
    pub session: String,
    pub result: String,
    pub promote: bool,
    pub include_prompt: bool,
    pub note_path: Option<String>,
    pub note_heading: Option<String>,
    pub effects: Option<String>,
}

/// The values of a [`Closing`].
pub struct ClosingView {
    pub session: Seq<char>,
    pub result: Seq<char>,
    pub promote: bool,
    pub include_prompt: bool,
    pub note_path: Option<Seq<char>>,
    pub note_heading: Option<Seq<char>>,
    pub effects: Option<Seq<char>>,
}

impl View for Closing {
    type V = ClosingView;

    open spec fn view(&self) -> ClosingView {
        ClosingView {
            session: self.session@,
            result: self.result@,
            promote: self.promote,
            include_prompt: self.include_prompt,
            note_path: opt_text(self.note_path),
            note_heading: opt_text(self.note_heading),
            effects: opt_text(self.effects),
        }
    }
}

/// How the arguments close a session. Whether the result becomes a note goes by
/// `auto` where they do not say.
pub open spec fn closing_of(args: Json, auto: bool) -> Result<ClosingView, Seq<char>> {
    match (required_at(args, "session"@), required_at(args, "result"@)) {
        (Err(e), _) => Err(e),
        (Ok(_), Err(e)) => Err(e),
        (Ok(session), Ok(result)) => Ok(
            ClosingView {
                session,
                result,
                promote: bool_or(args, "promote"@, auto),
                include_prompt: bool_or(args, "include_handoff_prompt"@, true),
                note_path: text_at(args, "note_path"@),
                note_heading: text_at(args, "note_heading"@),
                effects: text_at(args, "effects"@),
            },
        ),
    }
}

pub open spec fn closing_outcome(r: Result<Closing, String>) -> Result<ClosingView, Seq<char>> {
    match r {
        Ok(c) => Ok(c@),
        Err(e) => Err(e@),
    }
}

pub fn read_closing(args: &Datum, auto: bool) -> (r: Result<Closing, String>)
    ensures
        closing_outcome(r) == closing_of(args@, auto),
{
    let session: String = match required_str(args, "session") {
        Ok(s) => s,
        Err(e) => {
            return Err(e);
        },
    };
    let result: String = match required_str(args, "result") {
        Ok(s) => s,
        Err(e) => {
            return Err(e);
        },
    };
    Ok(
        Closing {
            session,
            result,
            promote: flag_or(args, "promote", auto),
            include_prompt: flag_or(args, "include_handoff_prompt", true),
            note_path: optional_str(args, "note_path"),
            note_heading: optional_str(args, "note_heading"),
            effects: optional_str(args, "effects"),
        },
    )
}

/// What is decided on the writes that wait: nothing, or what the closing says. Where
/// writes wait it has to say something.
pub open spec fn effects_decision(c: ClosingView, pending: bool) -> Result<
    Option<Seq<char>>,
    Seq<char>,
> {
    match c.effects {
        Some(d) => Ok(Some(d)),
        None => if pending {
            Err(
                "session "@ + c.session
                    + " has pending effect writes; pass effects: \"commit\" or \"recover\""@,
            )
        } else {
            Ok(None)
        },
    }
}

pub fn decide_effects(c: &Closing, pending: bool) -> (r: Result<Option<String>, String>)
    ensures
        (match r {
            Ok(d) => Ok(opt_text(d)),
            Err(e) => Err(e@),
        }) == effects_decision(c@, pending),
{
    match &c.effects {
        Some(d) => Ok(Some(copy(d.as_str()))),
        None => if pending {
            Err(
                session_error(
                    c.session.as_str(),
                    " has pending effect writes; pass effects: \"commit\" or \"recover\"",
                ),
            )
        } else {
            Ok(None)
        },
    }
}

/// Whether a closing ends with the recovery of writes, and the session stays open.
pub open spec fn only_recovers(c: ClosingView, pending: bool) -> bool {
    pending && c.effects == Some("recover"@)
}

pub fn is_recovery(c: &Closing, pending: bool) -> (r: bool)
    ensures
        r == only_recovers(c@, pending),
{
    match &c.effects {
        Some(d) => pending && same(d.as_str(), "recover"),
        None => false,
    }
}

/// What is answered where writes were recovered, given what was said of them.
pub fn recovered_text(c: &Closing, message: &str) -> (r: String)
    ensures
        r@ == message@ + "\n"@ + "mas_finalize - session "@ + c@.session
            + " not finalized (effects recovered)\n"@,
{
    let mut t = copy(message);
    t.append("\n");
    t.append("mas_finalize - session ");
    t.append(c.session.as_str());
    t.append(" not finalized (effects recovered)\n");
    t
}

/// A session that is closed, with a result. One that was closed before keeps the
/// result it has.
pub open spec fn closed(s: SessionView, result: Seq<char>, now: u64) -> SessionView {
    if s.status != "final"@ {
        SessionView { status: "final"@, result: Some(result), updated: now, ..s }
    } else if s.result is None {
        SessionView { result: Some(result), updated: now, ..s }
    } else {
        s
    }
}

/// Closes a session; whether it changed.
pub fn mark_final(s: Session, result: &str, now: u64) -> (r: (Session, bool))
    ensures
        r.0@ == closed(s@, result@, now),
        r.1 == (s@.status != "final"@ || s@.result is None),
{
    let mut s = s;
    if !same(s.status.as_str(), "final") {
        s.status = copy("final");
        s.result = Some(copy(result));
        s.updated = now;
        (s, true)
    } else if s.result.is_none() {
        s.result = Some(copy(result));
        s.updated = now;
        (s, true)
    } else {
        (s, false)
    }
}

/// The note that a result becomes.
pub open spec fn promotion_of(c: ClosingView, s: SessionView) -> Option<
    crate::mas::posting::SpillView,
> {
    if c.promote {
        Some(
            crate::mas::posting::SpillView {
                path: match c.note_path {
                    Some(p) => p,
                    None => ".wordkeep/notes/mas-"@ + c.session + ".md"@,
                },
                heading: match c.note_heading {
                    Some(h) => h,
                    None => "MAS session "@ + c.session,
                },
                body: "**Result:**\n\n"@ + c.result + "\n\n**Rounds:** "@ + dec(s.round as nat)
                    + "/"@ + dec(s.max_rounds as nat) + "\n\n**Entries:** "@ + dec(s.entries.len())
                    + "\n"@,
            },
        )
    } else {
        None
    }
}

pub fn make_promotion(c: &Closing, s: &Session) -> (r: Option<crate::mas::posting::Spill>)
    ensures
        crate::mas::posting::opt_spill(r) == promotion_of(c@, s@),
{
    if !c.promote {
        return None;
    }
    let path: String = match &c.note_path {
        Some(p) => copy(p.as_str()),
        None => {
            let mut p = copy(".wordkeep/notes/mas-");
            p.append(c.session.as_str());
            p.append(".md");
            p
        },
    };
    let heading: String = match &c.note_heading {
        Some(h) => copy(h.as_str()),
        None => {
            let mut h = copy("MAS session ");
            h.append(c.session.as_str());
            h
        },
    };
    let mut body = copy("**Result:**\n\n");
    body.append(c.result.as_str());
    body.append("\n\n**Rounds:** ");
    body.append(decimal(s.round).as_str());
    body.append("/");
    body.append(decimal(s.max_rounds).as_str());
    body.append("\n\n**Entries:** ");
    assert(s@.entries.len() == s.entries@.len());
    body.append(decimal(s.entries.len() as u64).as_str());
    body.append("\n");
    Some(crate::mas::posting::Spill { path, heading, body })
}

/// What a closing is answered: what was said of writes, the state of the session,
/// what came of the note, and the prompt.
pub open spec fn closing_text(
    c: ClosingView,
    s: SessionView,
    effects: Option<Seq<char>>,
    promoted: Option<Result<Seq<char>, Seq<char>>>,
    prompt: Option<Seq<char>>,
) -> Seq<char> {
    (match effects {
        Some(m) => m + "\n"@,
        None => ""@,
    }) + "mas_finalize - session "@ + c.session + " marked final ("@ + dec(s.entries.len())
        + " entries, round "@ + dec(s.round as nat) + "/"@ + dec(s.max_rounds as nat) + ")\n"@ + (
    match promoted {
        Some(Ok(m)) => "promoted: "@ + m + "\n"@,
        Some(Err(e)) => "promote failed: "@ + e + "\n"@,
        None => ""@,
    }) + (match prompt {
        Some(p) => "\n--- paste-ready next-session prompt ---\n"@ + p,
        None => ""@,
    })
}

pub open spec fn opt_outcome(r: Option<Result<String, String>>) -> Option<
    Result<Seq<char>, Seq<char>>,
> {
    match r {
        Some(x) => Some(outcome(x)),
        None => None,
    }
}

pub fn render_closing(
    c: &Closing,
    s: &Session,
    effects: &Option<String>,
    promoted: &Option<Result<String, String>>,
    prompt: &Option<String>,
) -> (r: String)
    ensures
        r@ == closing_text(
            c@,
            s@,
            opt_text(*effects),
            opt_outcome(*promoted),
            opt_text(*prompt),
        ),
{
    let mut t: String = match effects {
        Some(m) => {
            let mut x = copy(m.as_str());
            x.append("\n");
            x
        },
        None => copy(""),
    };
    t.append("mas_finalize - session ");
    t.append(c.session.as_str());
    t.append(" marked final (");
    assert(s@.entries.len() == s.entries@.len());
    t.append(decimal(s.entries.len() as u64).as_str());
    t.append(" entries, round ");
    t.append(decimal(s.round).as_str());
    t.append("/");
    t.append(decimal(s.max_rounds).as_str());
    t.append(")\n");
    let note: String = match promoted {
        Some(Ok(m)) => {
            let mut x = copy("promoted: ");
            x.append(m.as_str());
            x.append("\n");
            x
        },
        Some(Err(e)) => {
            let mut x = copy("promote failed: ");
            x.append(e.as_str());
            x.append("\n");
            x
        },
        None => copy(""),
    };
    t.append(note.as_str());
    let tail: String = match prompt {
        Some(p) => {
            let mut x = copy("\n--- paste-ready next-session prompt ---\n");
            x.append(p.as_str());
            x
        },
        None => copy(""),
    };
    t.append(tail.as_str());
    t
}

/// What is counted as read for a closing.
pub open spec fn closing_baseline(c: ClosingView, s: SessionView) -> u64 {
    capped(tokens(c.result) + s.entries.len() * 64)
}

pub fn find_closing_baseline(c: &Closing, s: &Session) -> (r: u64)
    ensures
        r == closing_baseline(c@, s@),
{
    let n: u64 = s.entries.len() as u64;
    assert(s@.entries.len() == n);
    let m: u64 = if n > u64::MAX / 64 {
        u64::MAX
    } else {
        n * 64
    };
    count_up(estimate_tokens(c.result.as_str()), m)
}

// ---------------------------------------------------------------------------
// Handing over

/// How a session is handed over: whether it is closed with it, and with what result.
pub struct HandingOver {
    pub session: String,
    pub result: Option<String>,
    pub closing: Option<Closing>,
}

/// The values of a [`HandingOver`].
pub struct HandingView {
    pub session: Seq<char>,
    pub result: Option<Seq<char>>,
    pub closing: Option<ClosingView>,
}

impl View for HandingOver {
    type V = HandingView;

    open spec fn view(&self) -> HandingView {
        HandingView {
            session: self.session@,
            result: opt_text(self.result),
            closing: match self.closing {
                Some(c) => Some(c@),
                None => None,
            },
        }
    }
}

/// How the arguments hand a session over.
pub open spec fn handing_of(args: Json, auto: bool) -> Result<HandingView, Seq<char>> {
    match required_at(args, "session"@) {
        Err(e) => Err(e),
        Ok(session) => Ok(
            HandingView {
                session,
                result: text_at(args, "result"@),
                closing: if bool_or(args, "finalize"@, false) {
                    Some(
                        ClosingView {
                            session,
                            result: match text_at(args, "result"@) {
                                Some(r) => r,
                                None => "session handoff"@,
                            },
                            promote: bool_or(args, "promote"@, auto),
                            include_prompt: true,
                            note_path: text_at(args, "note_path"@),
                            note_heading: text_at(args, "note_heading"@),
                            effects: text_at(args, "effects"@),
                        },
                    )
                } else {
                    None
                },
            },
        ),
    }
}

pub open spec fn handing_outcome(r: Result<HandingOver, String>) -> Result<HandingView, Seq<char>> {
    match r {
        Ok(h) => Ok(h@),
        Err(e) => Err(e@),
    }
}

pub fn read_handing_over(args: &Datum, auto: bool) -> (r: Result<HandingOver, String>)
    ensures
        handing_outcome(r) == handing_of(args@, auto),
{
    let session: String = match required_str(args, "session") {
        Ok(s) => s,
        Err(e) => {
            return Err(e);
        },
    };
    let result = optional_str(args, "result");
    let closing: Option<Closing> = if flag_or(args, "finalize", false) {
        let text: String = match &result {
            Some(r) => copy(r.as_str()),
            None => copy("session handoff"),
        };
        Some(
            Closing {
                session: copy(session.as_str()),
                result: text,
                promote: flag_or(args, "promote", auto),
                include_prompt: true,
                note_path: optional_str(args, "note_path"),
                note_heading: optional_str(args, "note_heading"),
                effects: optional_str(args, "effects"),
            },
        )
    } else {
        None
    };
    Ok(HandingOver { session, result, closing })
}

/// What is answered with a prompt.
pub fn render_handing_over(session: &str, s: &Session, prompt: &str) -> (r: String)
    ensures
        r@ == "session_handoff - session "@ + session@ + " status="@ + s@.status + "\n\n"@ + prompt@,
{
    let mut t = copy("session_handoff - session ");
    t.append(session);
    t.append(" status=");
    t.append(s.status.as_str());
    t.append("\n\n");
    t.append(prompt);
    t
}

// ---------------------------------------------------------------------------
// Laws

/// Closing closes a session for good: it is final, has a result, keeps its entries,
/// and closing it again changes nothing.
pub proof fn law_closing_is_final(
    s: SessionView,
    result: Seq<char>,
    again: Seq<char>,
    now: u64,
    later: u64,
)
    ensures
        closed(s, result, now).status == "final"@,
        closed(s, result, now).result is Some,
        closed(s, result, now).entries == s.entries,
        s.status != "final"@ ==> closed(s, result, now).result == Some(result),
        closed(closed(s, result, now), again, later) == closed(s, result, now),
{
}

/// Writes that wait are never passed over: a closing that says nothing of them is
/// refused.
pub proof fn law_pending_writes_are_decided(c: ClosingView)
    requires
        c.effects is None,
    ensures
        effects_decision(c, true) is Err,
        effects_decision(c, false) == Ok::<Option<Seq<char>>, Seq<char>>(None),
{
}

} // verus!
