//! Posting to the board of a session: short entries, cut to a budget, and rounds.
use vstd::prelude::*;
use crate::args::{optional_str, required_at, required_str, string_array, text_at, texts_at};
use crate::json::{as_bool, as_u64, get, get_bool, get_u64, Datum, Json};
use crate::mas::{
    at_least_one, entry_views, find_last_critic, is_same_word, last_critic, open_outcome, rounds_left,
    same_word, session_error, Entry, EntryView, Session, SessionView,
};
use crate::smap::{at, put, StrMap};
use crate::text::{
    blen, capped, copy, count_up, dec, decimal, first_chars, join, joined, list_text, listed,
    opt_text, quote, quoted, same, size, strs, take_chars,
};

verus! {

// ---------------------------------------------------------------------------
// Budgets

/// The tokens of a text, roughly.
pub open spec fn tokens(s: Seq<char>) -> nat {
    blen(s) / 4
}

pub fn estimate_tokens(s: &str) -> (r: u64)
    ensures
        r == tokens(s@),
{
    (size(s) / 4) as u64
}

/// Four times a number of tokens, as far as it fits.
pub open spec fn budget_chars(max: u64) -> u64 {
    capped(max as nat * 4)
}

pub open spec fn minus(a: u64, b: u64) -> u64 {
    if a >= b {
        (a - b) as u64
    } else {
        0
    }
}

/// A text cut to a number of tokens, with a note where something was cut.
pub open spec fn truncated(s: Seq<char>, max: u64) -> Seq<char> {
    if blen(s) <= budget_chars(max) {
        s
    } else {
        first_chars(s, minus(budget_chars(max), 16) as nat) + " … (truncated)"@
    }
}

pub fn truncate_to_tokens(s: &str, max: u64) -> (r: String)
    ensures
        r@ == truncated(s@, max),
{
    let room: u64 = if max > u64::MAX / 4 {
        u64::MAX
    } else {
        max * 4
    };
    if size(s) as u64 <= room {
        return copy(s);
    }
    let keep: u64 = if room >= 16 {
        room - 16
    } else {
        0
    };
    proof {
        crate::text::lemma_blen_take(s@, s@.len() as int);
    }
    let mut t = take_chars(s, keep as usize);
    t.append(" … (truncated)");
    t
}

/// How many items, from `k` on, fit behind what is used, and what is used then.
pub open spec fn fit_from(v: Seq<Seq<char>>, used: nat, max: nat, k: nat) -> (nat, nat)
    decreases v.len() - k,
{
    if k >= v.len() || used + tokens(v[k as int]) > max {
        (k, used)
    } else {
        fit_from(v, used + tokens(v[k as int]), max, k + 1)
    }
}

fn fit(v: Vec<String>, used: u64, max: u64) -> (r: (Vec<String>, u64))
    ensures
        strs(r.0@) == strs(v@).take(fit_from(strs(v@), used as nat, max as nat, 0).0 as int),
        r.1 == fit_from(strs(v@), used as nat, max as nat, 0).1,
        fit_from(strs(v@), used as nat, max as nat, 0).0 <= strs(v@).len(),
{
    let ghost all = strs(v@);
    let ghost want = fit_from(all, used as nat, max as nat, 0);
    let mut k: usize = 0;
    let mut n: u64 = used;
    let mut v = v;
    assert(all.len() == v@.len());
    while k < v.len()
        invariant_except_break
            want == fit_from(all, n as nat, max as nat, k as nat),
        invariant
            all == strs(v@),
            k <= v@.len(),
        ensures
            want == (k as nat, n as nat),
        decreases v@.len() - k,
    {
        assert(all[k as int] == v@[k as int]@);
        let more: u64 = estimate_tokens(v[k].as_str());
        if (n as u128 + more as u128) > max as u128 {
            break;
        }
        n = n + more;
        k = k + 1;
    }
    v.truncate(k);
    assert(strs(v@) =~= all.take(k as int));
    (v, n)
}

/// A list without so many items from its end that it fits beside a summary.
pub open spec fn shrunk(v: Seq<Seq<char>>, beside: nat, max: nat) -> Seq<Seq<char>>
    decreases v.len(),
{
    if v.len() > 0 && tokens(joined(v, "\n"@)) + beside > max {
        shrunk(v.drop_last(), beside, max)
    } else {
        v
    }
}

fn shrink(v: Vec<String>, beside: u64, max: u64) -> (r: Vec<String>)
    ensures
        strs(r@) == shrunk(strs(v@), beside as nat, max as nat),
{
    let ghost want = shrunk(strs(v@), beside as nat, max as nat);
    let mut v = v;
    while v.len() > 0
        invariant_except_break
            want == shrunk(strs(v@), beside as nat, max as nat),
        ensures
            want == strs(v@),
        decreases v@.len(),
    {
        assert(strs(v@).len() == v@.len());
        let n: u64 = estimate_tokens(join(&v, "\n").as_str());
        if !((n as u128 + beside as u128) > max as u128) {
            break;
        }
        let ghost before = strs(v@);
        let _ = v.pop();
        assert(strs(v@) =~= before.drop_last());
    }
    assert(strs(v@).len() == v@.len());
    v
}

// ---------------------------------------------------------------------------
// What is posted

/// What is posted to a session.
pub struct Note {
    pub session: String,
    pub role: String,
    pub kind: String,
    pub summary: String,
    pub claims: Vec<String>,
    pub decisions: Vec<String>,
    pub open_questions: Vec<String>,
    pub anchors: Vec<String>,
    pub commands: Vec<String>,
    pub constraints: Vec<String>,
    pub handoff_to: Option<String>,
    pub note_ref: Option<String>,
    pub tags: Vec<String>,
    pub approved: Option<bool>,
    pub max_rounds: Option<u64>,
}

/// The values of a [`Note`].
pub struct NoteView {
    pub session: Seq<char>,
    pub role: Seq<char>,
    pub kind: Seq<char>,
    pub summary: Seq<char>,
    pub claims: Seq<Seq<char>>,
    pub decisions: Seq<Seq<char>>,
    pub open_questions: Seq<Seq<char>>,
    pub anchors: Seq<Seq<char>>,
    pub commands: Seq<Seq<char>>,
    pub constraints: Seq<Seq<char>>,
    pub handoff_to: Option<Seq<char>>,
    pub note_ref: Option<Seq<char>>,
    pub tags: Seq<Seq<char>>,
    pub approved: Option<bool>,
    pub max_rounds: Option<u64>,
}

impl View for Note {
    type V = NoteView;

    open spec fn view(&self) -> NoteView {
        NoteView {
            session: self.session@,
            role: self.role@,
            kind: self.kind@,
            summary: self.summary@,
            claims: strs(self.claims@),
            decisions: strs(self.decisions@),
            open_questions: strs(self.open_questions@),
            anchors: strs(self.anchors@),
            commands: strs(self.commands@),
            constraints: strs(self.constraints@),
            handoff_to: opt_text(self.handoff_to),
            note_ref: opt_text(self.note_ref),
            tags: strs(self.tags@),
            approved: self.approved,
            max_rounds: self.max_rounds,
        }
    }
}

/// The rounds that the arguments ask for.
pub open spec fn rounds_at(args: Json) -> Option<u64> {
    match as_u64(get(args, "max_rounds"@)) {
        Some(n) => Some(at_least_one(n)),
        None => None,
    }
}

pub fn read_rounds(args: &Datum) -> (r: Option<u64>)
    ensures
        r == rounds_at(args@),
{
    match get_u64(args, "max_rounds") {
        Some(n) => Some(
            if n > 1 {
                n
            } else {
                1
            },
        ),
        None => None,
    }
}

/// What the arguments post. Session, role and summary have to be there.
pub open spec fn note_of(args: Json) -> Result<NoteView, Seq<char>> {
    match (
        required_at(args, "session"@),
        required_at(args, "role"@),
        required_at(args, "summary"@),
    ) {
        (Err(e), _, _) => Err(e),
        (Ok(_), Err(e), _) => Err(e),
        (Ok(_), Ok(_), Err(e)) => Err(e),
        (Ok(session), Ok(role), Ok(summary)) => Ok(
            NoteView {
                session,
                role,
                kind: match text_at(args, "kind"@) {
                    Some(k) => k,
                    None => "note"@,
                },
                summary,
                claims: texts_at(args, "claims"@),
                decisions: texts_at(args, "decisions"@),
                open_questions: texts_at(args, "open_questions"@),
                anchors: texts_at(args, "anchors"@),
                commands: texts_at(args, "commands"@),
                constraints: texts_at(args, "constraints"@),
                handoff_to: text_at(args, "handoff_to"@),
                note_ref: text_at(args, "note_ref"@),
                tags: texts_at(args, "tags"@),
                approved: as_bool(get(args, "approved"@)),
                max_rounds: rounds_at(args),
            },
        ),
    }
}

pub open spec fn note_outcome(r: Result<Note, String>) -> Result<NoteView, Seq<char>> {
    match r {
        Ok(n) => Ok(n@),
        Err(e) => Err(e@),
    }
}

pub fn read_note(args: &Datum) -> (r: Result<Note, String>)
    ensures
        note_outcome(r) == note_of(args@),
{
    let session: String = match required_str(args, "session") {
        Ok(s) => s,
        Err(e) => {
            return Err(e);
        },
    };
    let role: String = match required_str(args, "role") {
        Ok(s) => s,
        Err(e) => {
            return Err(e);
        },
    };
    let summary: String = match required_str(args, "summary") {
        Ok(s) => s,
        Err(e) => {
            return Err(e);
        },
    };
    Ok(
        Note {
            session,
            role,
            kind: match optional_str(args, "kind") {
                Some(k) => k,
                None => copy("note"),
            },
            summary,
            claims: string_array(args, "claims"),
            decisions: string_array(args, "decisions"),
            open_questions: string_array(args, "open_questions"),
            anchors: string_array(args, "anchors"),
            commands: string_array(args, "commands"),
            constraints: string_array(args, "constraints"),
            handoff_to: optional_str(args, "handoff_to"),
            note_ref: optional_str(args, "note_ref"),
            tags: string_array(args, "tags"),
            approved: get_bool(args, "approved"),
            max_rounds: read_rounds(args),
        },
    )
}

/// A text to be written to a note of its own.
pub struct Spill {
    pub path: String,
    pub heading: String,
    pub body: String,
}

/// The values of a [`Spill`].
pub struct SpillView {
    pub path: Seq<char>,
    pub heading: Seq<char>,
    pub body: Seq<char>,
}

impl View for Spill {
    type V = SpillView;

    open spec fn view(&self) -> SpillView {
        SpillView { path: self.path@, heading: self.heading@, body: self.body@ }
    }
}

pub open spec fn opt_spill(s: Option<Spill>) -> Option<SpillView> {
    match s {
        Some(x) => Some(x@),
        None => None,
    }
}

/// Everything that a note says.
pub open spec fn full_text(n: NoteView) -> Seq<char> {
    n.summary + "\n\nclaims: "@ + listed(n.claims) + "\ndecisions: "@ + listed(n.decisions)
        + "\nopen_questions: "@ + listed(n.open_questions) + "\ncommands: "@ + listed(n.commands)
        + "\nconstraints: "@ + listed(n.constraints) + "\n"@
}

pub open spec fn spill_path(session: Seq<char>, id: u64) -> Seq<char> {
    ".wordkeep/notes/mas-"@ + session + "-handoff-"@ + dec(id as nat) + ".md"@
}

/// The note of its own that a handoff needs: one that does not fit its budget.
pub open spec fn spill_of(n: NoteView, id: u64, cap: u64) -> Option<SpillView> {
    if same_word(n.kind, "handoff"@) && tokens(full_text(n)) > cap {
        Some(
            SpillView {
                path: spill_path(n.session, id),
                heading: "MAS handoff spill "@ + n.session + "#"@ + dec(id as nat),
                body: full_text(n),
            },
        )
    } else {
        None
    }
}

/// What of a note goes on the board: all that fits, or where the rest was written.
pub open spec fn board_entry(
    n: NoteView,
    spill: Option<SpillView>,
    cap: u64,
    id: u64,
    round: u64,
    now: u64,
) -> EntryView {
    let e = Seq::<Seq<char>>::empty();
    match spill {
        Some(s) => EntryView {
            id,
            round,
            role: n.role,
            kind: n.kind,
            ts: now,
            summary: truncated(n.summary, minus(cap, 40)) + "\n(full handoff spilled to "@ + s.path
                + ")"@,
            claims: e,
            decisions: e,
            open_questions: e,
            anchors: n.anchors,
            commands: e,
            constraints: e,
            handoff_to: n.handoff_to,
            note_ref: Some(s.path),
            tags: n.tags,
            approved: n.approved,
        },
        None => {
            let summary = truncated(n.summary, cap);
            let a = fit_from(n.claims, tokens(summary), cap as nat, 0);
            let b = fit_from(n.decisions, a.1, cap as nat, 0);
            let c = fit_from(n.open_questions, b.1, cap as nat, 0);
            EntryView {
                id,
                round,
                role: n.role,
                kind: n.kind,
                ts: now,
                summary,
                claims: n.claims.take(a.0 as int),
                decisions: n.decisions.take(b.0 as int),
                open_questions: n.open_questions.take(c.0 as int),
                anchors: n.anchors,
                commands: shrunk(n.commands, tokens(summary), cap as nat),
                constraints: shrunk(n.constraints, tokens(summary), cap as nat),
                handoff_to: n.handoff_to,
                note_ref: n.note_ref,
                tags: n.tags,
                approved: n.approved,
            }
        },
    }
}

/// The tokens of the first `n` texts together.
pub open spec fn list_tokens(v: Seq<Seq<char>>, n: nat) -> nat
    decreases n,
{
    if n == 0 {
        0
    } else {
        list_tokens(v, (n - 1) as nat) + tokens(v[n - 1])
    }
}

/// The tokens of what an entry says.
pub open spec fn entry_tokens(e: EntryView) -> nat {
    tokens(e.summary) + list_tokens(e.claims, e.claims.len()) + list_tokens(
        e.decisions,
        e.decisions.len(),
    ) + list_tokens(e.open_questions, e.open_questions.len())
}

fn sum_tokens(v: &Vec<String>, start: u64, before: Ghost<nat>) -> (r: u64)
    requires
        start == capped(before@),
    ensures
        r == capped(before@ + list_tokens(strs(v@), v@.len())),
{
    let mut n: u64 = start;
    for i in 0..v.len()
        invariant
            n == capped(before@ + list_tokens(strs(v@), i as nat)),
    {
        assert(strs(v@)[i as int] == v@[i as int]@);
        n = count_up(n, estimate_tokens(v[i].as_str()));
    }
    n
}

fn count_entry(e: &Entry) -> (r: u64)
    ensures
        r == capped(entry_tokens(e@)),
{
    let ghost ev = e@;
    assert(ev.claims.len() == e.claims@.len());
    assert(ev.decisions.len() == e.decisions@.len());
    assert(ev.open_questions.len() == e.open_questions@.len());
    let a: u64 = estimate_tokens(e.summary.as_str());
    let ghost t0 = tokens(ev.summary);
    let b: u64 = sum_tokens(&e.claims, a, Ghost(t0));
    let ghost t1 = t0 + list_tokens(ev.claims, ev.claims.len());
    let c: u64 = sum_tokens(&e.decisions, b, Ghost(t1));
    let ghost t2 = t1 + list_tokens(ev.decisions, ev.decisions.len());
    sum_tokens(&e.open_questions, c, Ghost(t2))
}

/// What a post comes to: the session, the note to write first, the answer, and the
/// tokens of what went on the board.
pub struct Posted {
    pub session: Session,
    pub spill: Option<Spill>,
    pub text: String,
    pub distilled: u64,
}

/// The values of a [`Posted`].
pub struct PostedView {
    pub session: SessionView,
    pub spill: Option<SpillView>,
    pub text: Seq<char>,
    pub distilled: u64,
}

impl View for Posted {
    type V = PostedView;

    open spec fn view(&self) -> PostedView {
        PostedView {
            session: self.session@,
            spill: opt_spill(self.spill),
            text: self.text@,
            distilled: self.distilled,
        }
    }
}

/// A session with one more entry.
pub open spec fn with_entry(s: SessionView, e: EntryView, now: u64) -> SessionView {
    SessionView {
        entries: s.entries.push(e),
        next_id: (s.next_id + 1) as u64,
        updated: now,
        ..s
    }
}

pub open spec fn post_text(n: NoteView, s: SessionView, spill: Option<SpillView>) -> Seq<char> {
    "mas_post - session "@ + n.session + ", entry id="@ + dec(s.next_id as nat) + ", round "@ + dec(
        s.round as nat,
    ) + "/"@ + dec(s.max_rounds as nat) + ", role "@ + quoted(n.role) + ", kind "@ + quoted(n.kind)
        + (match n.handoff_to {
        Some(h) => ", handoff_to "@ + quoted(h),
        None => ""@,
    }) + (match spill {
        Some(x) => ", spilled_to "@ + x.path,
        None => ""@,
    })
}

/// What a post to a session comes to. A finalized session takes none, nor one that
/// is past its rounds.
pub open spec fn posted(
    n: NoteView,
    s: SessionView,
    entry_cap: u64,
    handoff_cap: u64,
    now: u64,
) -> Result<PostedView, Seq<char>> {
    let cap = if same_word(n.kind, "handoff"@) {
        handoff_cap
    } else {
        entry_cap
    };
    if s.status == "final"@ {
        Err("session "@ + n.session + " is finalized; open a new session"@)
    } else if s.round > s.max_rounds {
        Err(
            "session "@ + n.session + " is past max_rounds ("@ + dec(s.round as nat) + "/"@ + dec(
                s.max_rounds as nat,
            ) + ")"@,
        )
    } else {
        let spill = spill_of(n, s.next_id, cap);
        let e = board_entry(n, spill, cap, s.next_id, s.round, now);
        Ok(
            PostedView {
                session: with_entry(s, e, now),
                spill,
                text: post_text(n, s, spill),
                distilled: capped(entry_tokens(e)),
            },
        )
    }
}

pub open spec fn post_outcome(r: Result<Posted, String>) -> Result<PostedView, Seq<char>> {
    match r {
        Ok(p) => Ok(p@),
        Err(e) => Err(e@),
    }
}

fn make_full_text(n: &Note) -> (r: String)
    ensures
        r@ == full_text(n@),
{
    let mut t = copy(n.summary.as_str());
    t.append("\n\nclaims: ");
    t.append(list_text(&n.claims).as_str());
    t.append("\ndecisions: ");
    t.append(list_text(&n.decisions).as_str());
    t.append("\nopen_questions: ");
    t.append(list_text(&n.open_questions).as_str());
    t.append("\ncommands: ");
    t.append(list_text(&n.commands).as_str());
    t.append("\nconstraints: ");
    t.append(list_text(&n.constraints).as_str());
    t.append("\n");
    t
}

fn make_spill(n: &Note, id: u64, cap: u64) -> (r: Option<Spill>)
    ensures
        opt_spill(r) == spill_of(n@, id, cap),
{
    if !is_same_word(n.kind.as_str(), "handoff") {
        return None;
    }
    let body = make_full_text(n);
    if estimate_tokens(body.as_str()) <= cap {
        return None;
    }
    let mut path = copy(".wordkeep/notes/mas-");
    path.append(n.session.as_str());
    path.append("-handoff-");
    path.append(decimal(id).as_str());
    path.append(".md");
    let mut heading = copy("MAS handoff spill ");
    heading.append(n.session.as_str());
    heading.append("#");
    heading.append(decimal(id).as_str());
    Some(Spill { path, heading, body })
}

fn spilled_entry(n: Note, path: &str, cap: u64, id: u64, round: u64, now: u64) -> (r: Entry)
    ensures
        forall|s: SpillView|
            s.path == path@ ==> r@ == #[trigger] board_entry(n@, Some(s), cap, id, round, now),
{
    let keep: u64 = if cap >= 40 {
        cap - 40
    } else {
        0
    };
    let mut summary = truncate_to_tokens(n.summary.as_str(), keep);
    summary.append("\n(full handoff spilled to ");
    summary.append(path);
    summary.append(")");
    Entry {
        id,
        round,
        role: n.role,
        kind: n.kind,
        ts: now,
        summary,
        claims: crate::text::no_strings(),
        decisions: crate::text::no_strings(),
        open_questions: crate::text::no_strings(),
        anchors: n.anchors,
        commands: crate::text::no_strings(),
        constraints: crate::text::no_strings(),
        handoff_to: n.handoff_to,
        note_ref: Some(copy(path)),
        tags: n.tags,
        approved: n.approved,
    }
}

fn fitted_entry(n: Note, cap: u64, id: u64, round: u64, now: u64) -> (r: Entry)
    ensures
        r@ == board_entry(n@, None, cap, id, round, now),
{
    let summary = truncate_to_tokens(n.summary.as_str(), cap);
    let used: u64 = estimate_tokens(summary.as_str());
    let (claims, a) = fit(n.claims, used, cap);
    let (decisions, b) = fit(n.decisions, a, cap);
    let (open_questions, c) = fit(n.open_questions, b, cap);
    let commands = shrink(n.commands, used, cap);
    let constraints = shrink(n.constraints, used, cap);
    Entry {
        id,
        round,
        role: n.role,
        kind: n.kind,
        ts: now,
        summary,
        claims,
        decisions,
        open_questions,
        anchors: n.anchors,
        commands,
        constraints,
        handoff_to: n.handoff_to,
        note_ref: n.note_ref,
        tags: n.tags,
        approved: n.approved,
    }
}

fn make_post_text(n: &Note, s: &Session, spill: &Option<Spill>) -> (r: String)
    ensures
        r@ == post_text(n@, s@, opt_spill(*spill)),
{
    let mut t = copy("mas_post - session ");
    t.append(n.session.as_str());
    t.append(", entry id=");
    t.append(decimal(s.next_id).as_str());
    t.append(", round ");
    t.append(decimal(s.round).as_str());
    t.append("/");
    t.append(decimal(s.max_rounds).as_str());
    t.append(", role ");
    t.append(quote(n.role.as_str()).as_str());
    t.append(", kind ");
    t.append(quote(n.kind.as_str()).as_str());
    let to: String = match &n.handoff_to {
        Some(h) => {
            let mut m = copy(", handoff_to ");
            m.append(quote(h.as_str()).as_str());
            m
        },
        None => copy(""),
    };
    t.append(to.as_str());
    let at: String = match spill {
        Some(x) => {
            let mut m = copy(", spilled_to ");
            m.append(x.path.as_str());
            m
        },
        None => copy(""),
    };
    t.append(at.as_str());
    t
}

/// Posts a note to a session. The note that comes back has to be written first.
pub fn post(n: Note, s: Session, entry_cap: u64, handoff_cap: u64, now: u64) -> (r: Result<
    Posted,
    String,
>)
    requires
        s.next_id < u64::MAX,
    ensures
        post_outcome(r) == posted(n@, s@, entry_cap, handoff_cap, now),
{
    if same(s.status.as_str(), "final") {
        return Err(session_error(n.session.as_str(), " is finalized; open a new session"));
    }
    if s.round > s.max_rounds {
        let mut e = copy("session ");
        e.append(n.session.as_str());
        e.append(" is past max_rounds (");
        e.append(decimal(s.round).as_str());
        e.append("/");
        e.append(decimal(s.max_rounds).as_str());
        e.append(")");
        return Err(e);
    }
    let ghost nv = n@;
    let ghost sv = s@;
    let cap: u64 = if is_same_word(n.kind.as_str(), "handoff") {
        handoff_cap
    } else {
        entry_cap
    };
    let spill = make_spill(&n, s.next_id, cap);
    let text = make_post_text(&n, &s, &spill);
    let e: Entry = match &spill {
        Some(x) => {
            let e = spilled_entry(n, x.path.as_str(), cap, s.next_id, s.round, now);
            assert(e@ == board_entry(nv, Some(x@), cap, s.next_id, s.round, now));
            e
        },
        None => fitted_entry(n, cap, s.next_id, s.round, now),
    };
    let distilled: u64 = count_entry(&e);
    let ghost ev = e@;
    assert(ev == board_entry(nv, opt_spill(spill), cap, sv.next_id, sv.round, now));
    let mut s = s;
    let ghost before = entry_views(s.entries@);
    s.entries.push(e);
    assert(entry_views(s.entries@) =~= before.push(ev));
    s.next_id = s.next_id + 1;
    s.updated = now;
    assert(s@ == with_entry(sv, ev, now));
    Ok(Posted { session: s, spill, text, distilled })
}

// ---------------------------------------------------------------------------
// Rounds

/// A session one round further. A finalized one stays, and so does one in its last
/// round.
pub open spec fn advanced(session: Seq<char>, s: SessionView, now: u64) -> Result<
    SessionView,
    Seq<char>,
> {
    if s.status == "final"@ {
        Err("session "@ + session + " is finalized"@)
    } else if s.round >= s.max_rounds {
        Err(
            "session "@ + session + " at max_rounds ("@ + dec(s.round as nat) + "/"@ + dec(
                s.max_rounds as nat,
            ) + ")"@,
        )
    } else {
        Ok(SessionView { round: (s.round + 1) as u64, updated: now, ..s })
    }
}

pub fn advance(session: &str, s: Session, now: u64) -> (r: Result<Session, String>)
    ensures
        open_outcome(r) == advanced(session@, s@, now),
{
    if same(s.status.as_str(), "final") {
        return Err(session_error(session, " is finalized"));
    }
    if s.round >= s.max_rounds {
        let mut e = copy("session ");
        e.append(session);
        e.append(" at max_rounds (");
        e.append(decimal(s.round).as_str());
        e.append("/");
        e.append(decimal(s.max_rounds).as_str());
        e.append(")");
        return Err(e);
    }
    let mut s = s;
    s.round = s.round + 1;
    s.updated = now;
    Ok(s)
}

// ---------------------------------------------------------------------------
// Status

/// How many entries each role made, among the first `n`.
pub open spec fn roles_upto(v: Seq<EntryView>, n: nat) -> Seq<(Seq<char>, u64)>
    decreases n,
{
    if n == 0 {
        Seq::empty()
    } else {
        let rest = roles_upto(v, (n - 1) as nat);
        let was = match at(rest, v[n - 1].role) {
            Some(k) => k,
            None => 0,
        };
        put(rest, v[n - 1].role, capped(was as nat + 1))
    }
}

pub open spec fn role_rows(v: Seq<(Seq<char>, u64)>, n: nat) -> Seq<char>
    decreases n,
{
    if n == 0 {
        ""@
    } else {
        role_rows(v, (n - 1) as nat) + "  "@ + v[n - 1].0 + ": "@ + dec(v[n - 1].1 as nat) + "\n"@
    }
}

/// Whether the work has come to an end, by the last word of a critic.
pub open spec fn convergence(v: Seq<EntryView>) -> Seq<char> {
    match last_critic(v, v.len()) {
        Some(k) => if v[k].approved == Some(true) {
            if v[k].open_questions.len() == 0 {
                "likely converged (critic approved, no open questions)"@
            } else {
                "partial convergence (critic approved, "@ + dec(v[k].open_questions.len())
                    + " open question(s))"@
            }
        } else {
            "not converged (critic has not approved)"@
        },
        None => "not converged (no critic entry yet)"@,
    }
}

/// The state of a session, with the budget of an entry and the writes that wait.
pub open spec fn status_text(
    session: Seq<char>,
    s: SessionView,
    entry_cap: u64,
    pending: u64,
) -> Seq<char> {
    let roles = roles_upto(s.entries, s.entries.len());
    "mas_status - session "@ + session + "\nstatus: "@ + s.status + "\nround: "@ + dec(
        s.round as nat,
    ) + "/"@ + dec(s.max_rounds as nat) + "\nrounds_remaining: "@ + dec(rounds_left(s) as nat)
        + "\nentry_cap_tokens: "@ + dec(entry_cap as nat) + "\n"@ + (if pending > 0 {
        "pending_effect_writes: "@ + dec(pending as nat)
            + " (finalize with effects: commit|recover)\n"@
    } else {
        ""@
    }) + "entries_by_role:\n"@ + (if roles.len() == 0 {
        "  (none)\n"@
    } else {
        role_rows(roles, roles.len())
    }) + "convergence: "@ + convergence(s.entries) + "\n"@
}

fn count_roles(v: &Vec<Entry>) -> (r: StrMap<u64>)
    ensures
        r.wf(),
        r@ == roles_upto(entry_views(v@), v@.len()),
{
    let ghost all = entry_views(v@);
    let mut m: StrMap<u64> = StrMap::new();
    for i in 0..v.len()
        invariant
            all == entry_views(v@),
            m.wf(),
            m@ == roles_upto(all, i as nat),
    {
        assert(all[i as int] == v@[i as int]@);
        let was: u64 = match m.get(v[i].role.as_str()) {
            Some(k) => *k,
            None => 0,
        };
        m.insert(v[i].role.as_str(), count_up(was, 1));
    }
    m
}

fn convergence_hint(v: &Vec<Entry>) -> (r: String)
    ensures
        r@ == convergence(entry_views(v@)),
{
    match find_last_critic(v) {
        Some(k) => {
            assert(entry_views(v@)[k as int] == v@[k as int]@);
            let e = &v[k];
            assert(e@.open_questions.len() == e.open_questions@.len());
            let yes: bool = match e.approved {
                Some(b) => b,
                None => false,
            };
            if yes {
                if e.open_questions.len() == 0 {
                    copy("likely converged (critic approved, no open questions)")
                } else {
                    let mut t = copy("partial convergence (critic approved, ");
                    t.append(decimal(e.open_questions.len() as u64).as_str());
                    t.append(" open question(s))");
                    t
                }
            } else {
                copy("not converged (critic has not approved)")
            }
        },
        None => copy("not converged (no critic entry yet)"),
    }
}

pub fn render_status(session: &str, s: &Session, entry_cap: u64, pending: u64) -> (r: String)
    ensures
        r@ == status_text(session@, s@, entry_cap, pending),
{
    let roles = count_roles(&s.entries);
    let ghost rv = roles@;
    assert(s@.entries.len() == s.entries@.len());
    assert(rv.len() == roles.entries@.len());
    let mut rows = copy("");
    for i in 0..roles.entries.len()
        invariant
            rv == roles@,
            rows@ == role_rows(rv, i as nat),
    {
        let e = &roles.entries[i];
        assert(rv[i as int] == (e.0@, e.1));
        rows.append("  ");
        rows.append(e.0.as_str());
        rows.append(": ");
        rows.append(decimal(e.1).as_str());
        rows.append("\n");
    }
    if roles.entries.len() == 0 {
        rows = copy("  (none)\n");
    }
    let mut t = copy("mas_status - session ");
    t.append(session);
    t.append("\nstatus: ");
    t.append(s.status.as_str());
    t.append("\nround: ");
    t.append(decimal(s.round).as_str());
    t.append("/");
    t.append(decimal(s.max_rounds).as_str());
    t.append("\nrounds_remaining: ");
    let left: u64 = if s.max_rounds >= s.round {
        s.max_rounds - s.round
    } else {
        0
    };
    t.append(decimal(left).as_str());
    t.append("\nentry_cap_tokens: ");
    t.append(decimal(entry_cap).as_str());
    t.append("\n");
    let mut waiting = copy("");
    if pending > 0 {
        waiting = copy("pending_effect_writes: ");
        waiting.append(decimal(pending).as_str());
        waiting.append(" (finalize with effects: commit|recover)\n");
    }
    t.append(waiting.as_str());
    t.append("entries_by_role:\n");
    t.append(rows.as_str());
    t.append("convergence: ");
    t.append(convergence_hint(&s.entries).as_str());
    t.append("\n");
    t
}

// ---------------------------------------------------------------------------
// Laws

/// A finalized session takes no post and goes no round further.
pub proof fn law_final_session_is_closed(
    n: NoteView,
    s: SessionView,
    entry_cap: u64,
    handoff_cap: u64,
    now: u64,
)
    requires
        s.status == "final"@,
    ensures
        posted(n, s, entry_cap, handoff_cap, now) is Err,
        advanced(n.session, s, now) is Err,
{
}

/// A post adds one entry under the next id and leaves the others as they were.
pub proof fn law_post_appends(
    n: NoteView,
    s: SessionView,
    entry_cap: u64,
    handoff_cap: u64,
    now: u64,
)
    requires
        s.next_id < u64::MAX,
    ensures
        posted(n, s, entry_cap, handoff_cap, now) matches Ok(p) ==> {
            &&& p.session.entries.len() == s.entries.len() + 1
            &&& p.session.entries.drop_last() == s.entries
            &&& p.session.entries.last().id == s.next_id
            &&& p.session.entries.last().round == s.round
            &&& p.session.next_id == s.next_id + 1
            &&& p.session.status == s.status
            &&& p.session.round == s.round
        },
{
    if let Ok(p) = posted(n, s, entry_cap, handoff_cap, now) {
        assert(p.session.entries.drop_last() =~= s.entries);
    }
}

/// The round of a session never passes its last one.
pub proof fn law_rounds_are_bounded(session: Seq<char>, s: SessionView, now: u64)
    ensures
        advanced(session, s, now) matches Ok(t) ==> t.round == s.round + 1 && t.round
            <= t.max_rounds,
{
}

/// The claims, decisions and questions that stay with a summary fit the budget, if
/// the summary does.
pub proof fn law_entry_fits_its_budget(n: NoteView, cap: u64, id: u64, round: u64, now: u64)
    requires
        tokens(truncated(n.summary, cap)) <= cap,
    ensures
        entry_tokens(board_entry(n, None, cap, id, round, now)) <= cap,
{
    let s = tokens(truncated(n.summary, cap));
    let a = fit_from(n.claims, s, cap as nat, 0);
    let b = fit_from(n.decisions, a.1, cap as nat, 0);
    let c = fit_from(n.open_questions, b.1, cap as nat, 0);
    lemma_fit(n.claims, s, cap as nat, 0);
    lemma_fit(n.decisions, a.1, cap as nat, 0);
    lemma_fit(n.open_questions, b.1, cap as nat, 0);
    lemma_list_take(n.claims, a.0, a.0);
    lemma_list_take(n.decisions, b.0, b.0);
    lemma_list_take(n.open_questions, c.0, c.0);
}

proof fn lemma_fit(v: Seq<Seq<char>>, used: nat, max: nat, k: nat)
    requires
        k <= v.len(),
        used <= max,
    ensures
        k <= fit_from(v, used, max, k).0 <= v.len(),
        fit_from(v, used, max, k).1 <= max,
        fit_from(v, used, max, k).1 == used + list_tokens(v, fit_from(v, used, max, k).0)
            - list_tokens(v, k),
    decreases v.len() - k,
{
    if k < v.len() && used + tokens(v[k as int]) <= max {
        lemma_fit(v, used + tokens(v[k as int]), max, k + 1);
    }
}

proof fn lemma_list_take(v: Seq<Seq<char>>, m: nat, n: nat)
    requires
        n <= m <= v.len(),
    ensures
        list_tokens(v.take(m as int), n) == list_tokens(v, n),
    decreases n,
{
    if n > 0 {
        lemma_list_take(v, m, (n - 1) as nat);
    }
}

} // verus!
