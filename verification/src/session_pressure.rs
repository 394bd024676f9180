//! How loaded a working session is, judged by what happened since the last handoff.
use vstd::prelude::*;
use crate::json::{add_member, as_u64, build, get, get_u64, no_members, record, str_value, Datum, Json};
use crate::mas::{SessionSnapshot, SnapshotView};
use crate::text::{copy, dec, decimal, same, strs};

verus! {

/// The level of a score.
pub open spec fn level_of(score: nat) -> Seq<char> {
    if score <= 2 {
        "low"@
    } else if score <= 5 {
        "medium"@
    } else if score <= 8 {
        "high"@
    } else {
        "critical"@
    }
}

pub fn level_from_score(score: u32) -> (r: &'static str)
    ensures
        r@ == level_of(score as nat),
{
    if score <= 2 {
        "low"
    } else if score <= 5 {
        "medium"
    } else if score <= 8 {
        "high"
    } else {
        "critical"
    }
}

/// What is known of a session when its load is judged.
pub struct Signals {
    /// When the last handoff was, if there was one.
    pub since: Option<u64>,
    /// How each tool call since then came out.
    pub outcomes: Vec<String>,
    /// The states of the defects that are not resolved.
    pub defects: Vec<String>,
    pub failed_runs: u64,
    /// The shared session that is asked about, if it exists.
    pub session: Option<(String, SessionSnapshot)>,
}

/// The values of a [`Signals`].
pub struct SignalsView {
    pub since: Option<u64>,
    pub outcomes: Seq<Seq<char>>,
    pub defects: Seq<Seq<char>>,
    pub failed_runs: u64,
    pub session: Option<(Seq<char>, SnapshotView)>,
}

impl View for Signals {
    type V = SignalsView;

    open spec fn view(&self) -> SignalsView {
        SignalsView {
            since: self.since,
            outcomes: strs(self.outcomes@),
            defects: strs(self.defects@),
            failed_runs: self.failed_runs,
            session: match self.session {
                Some(p) => Some((p.0@, p.1@)),
                None => None,
            },
        }
    }
}

/// How many of the first `n` texts are a given one.
pub open spec fn count_of(v: Seq<Seq<char>>, s: Seq<char>, n: nat) -> nat
    decreases n,
{
    if n == 0 {
        0
    } else {
        count_of(v, s, (n - 1) as nat) + if v[n - 1] == s {
            1nat
        } else {
            0
        }
    }
}

fn count_texts(v: &Vec<String>, s: &str) -> (r: u64)
    ensures
        r == count_of(strs(v@), s@, v@.len()),
        r <= v@.len(),
{
    let mut n: u64 = 0;
    for i in 0..v.len()
        invariant
            n <= i,
            n == count_of(strs(v@), s@, i as nat),
    {
        assert(strs(v@)[i as int] == v@[i as int]@);
        assert(v@.len() == v.len());
        if same(v[i].as_str(), s) {
            n = n + 1;
        }
    }
    n
}

/// A share in percent, rounded down; zero where there is nothing to share or the
/// part is too large to be multiplied.
pub open spec fn percent(part: nat, total: nat) -> nat {
    if total == 0 || part * 100 > u64::MAX {
        0
    } else {
        part * 100 / total
    }
}

fn find_percent(part: u64, total: u64) -> (r: u64)
    ensures
        r == percent(part as nat, total as nat),
{
    if total == 0 || part > u64::MAX / 100 {
        0
    } else {
        part * 100 / total
    }
}

/// A reason for the load, and what it adds to the score.
pub struct Factor {
    pub points: nat,
    pub text: Seq<char>,
}

pub open spec fn event_factor(total: nat) -> Option<Factor> {
    if total >= 80 {
        Some(
            Factor {
                points: 3,
                text: "many tool events since handoff ("@ + dec(total) + ")"@,
            },
        )
    } else if total >= 40 {
        Some(
            Factor {
                points: 2,
                text: "elevated tool events since handoff ("@ + dec(total) + ")"@,
            },
        )
    } else if total >= 20 {
        Some(
            Factor {
                points: 1,
                text: "moderate tool events since handoff ("@ + dec(total) + ")"@,
            },
        )
    } else {
        None
    }
}

pub open spec fn error_factor(rate: nat) -> Option<Factor> {
    if rate >= 20 {
        Some(Factor { points: 2, text: "high error rate ("@ + dec(rate) + "%)"@ })
    } else if rate >= 10 {
        Some(Factor { points: 1, text: "elevated error rate ("@ + dec(rate) + "%)"@ })
    } else {
        None
    }
}

pub open spec fn truncation_factor(rate: nat) -> Option<Factor> {
    if rate >= 20 {
        Some(Factor { points: 1, text: "high truncation rate ("@ + dec(rate) + "%)"@ })
    } else {
        None
    }
}

pub open spec fn defect_factor(eyeball: nat, unresolved: nat) -> Option<Factor> {
    if eyeball > 0 {
        Some(Factor { points: 3, text: dec(eyeball) + " eyeball_fail defect(s)"@ })
    } else if unresolved > 0 {
        Some(Factor { points: 1, text: dec(unresolved) + " unresolved defect(s)"@ })
    } else {
        None
    }
}

pub open spec fn run_factor(failed: nat) -> Option<Factor> {
    if failed >= 3 {
        Some(Factor { points: 2, text: dec(failed) + " recent failed runs"@ })
    } else if failed > 0 {
        Some(Factor { points: 1, text: dec(failed) + " recent failed run(s)"@ })
    } else {
        None
    }
}

pub open spec fn question_factor(s: Seq<char>, n: nat) -> Option<Factor> {
    if n > 5 {
        Some(
            Factor {
                points: 2,
                text: "MAS session "@ + s + ": "@ + dec(n) + " open questions"@,
            },
        )
    } else if n > 0 {
        Some(
            Factor {
                points: 1,
                text: "MAS session "@ + s + ": "@ + dec(n) + " open question(s)"@,
            },
        )
    } else {
        None
    }
}

pub open spec fn round_factor(s: Seq<char>, remaining: u64, status: Seq<char>) -> Option<Factor> {
    if remaining == 0 && status != "final"@ {
        Some(Factor { points: 2, text: "MAS session "@ + s + ": round budget exhausted"@ })
    } else if remaining == 1 {
        Some(Factor { points: 1, text: "MAS session "@ + s + ": 1 round remaining"@ })
    } else {
        None
    }
}

/// The reasons that there are, in order.
pub open spec fn present(v: Seq<Option<Factor>>, n: nat) -> Seq<Factor>
    decreases n,
{
    if n == 0 {
        Seq::empty()
    } else {
        let rest = present(v, (n - 1) as nat);
        match v[n - 1] {
            Some(f) => rest.push(f),
            None => rest,
        }
    }
}

pub open spec fn error_count(s: SignalsView) -> nat {
    count_of(s.outcomes, "error"@, s.outcomes.len())
}

pub open spec fn truncation_count(s: SignalsView) -> nat {
    count_of(s.outcomes, "truncated"@, s.outcomes.len())
}

pub open spec fn eyeball_count(s: SignalsView) -> nat {
    count_of(s.defects, "eyeball_fail"@, s.defects.len())
}

/// All that can add to the load.
pub open spec fn possible(s: SignalsView) -> Seq<Option<Factor>> {
    let total = s.outcomes.len();
    seq![
        event_factor(total),
        error_factor(percent(error_count(s), total)),
        truncation_factor(percent(truncation_count(s), total)),
        defect_factor(eyeball_count(s), s.defects.len()),
        run_factor(s.failed_runs as nat),
        question_part(s),
        round_part(s),
    ]
}

pub open spec fn question_part(s: SignalsView) -> Option<Factor> {
    match s.session {
        Some((name, snap)) => question_factor(name, snap.open_questions),
        None => None,
    }
}

pub open spec fn round_part(s: SignalsView) -> Option<Factor> {
    match s.session {
        Some((name, snap)) => round_factor(name, snap.rounds_remaining, snap.status),
        None => None,
    }
}

/// What adds to the load.
pub open spec fn factors(s: SignalsView) -> Seq<Factor> {
    present(possible(s), 7)
}

pub open spec fn points_of(v: Seq<Factor>, n: nat) -> nat
    decreases n,
{
    if n == 0 {
        0
    } else {
        points_of(v, (n - 1) as nat) + v[n - 1].points
    }
}

/// The score: what the reasons add up to.
pub open spec fn score_of(s: SignalsView) -> nat {
    points_of(factors(s), factors(s).len())
}

pub open spec fn factor_rows(v: Seq<Factor>, n: nat) -> Seq<char>
    decreases n,
{
    if n == 0 {
        ""@
    } else {
        factor_rows(v, (n - 1) as nat) + "  • "@ + v[n - 1].text + "\n"@
    }
}

pub open spec fn advice_of(level: Seq<char>) -> Seq<char> {
    if level == "high"@ || level == "critical"@ {
        "advice: call session_handoff (or mas_finalize with promote) before continuing.\n"@
    } else if level == "medium"@ {
        "advice: consider session_handoff soon if more exploratory work remains.\n"@
    } else {
        "advice: continue; pressure is within normal bounds.\n"@
    }
}

/// The report on a session.
pub open spec fn report_text(s: SignalsView) -> Seq<char> {
    let total = s.outcomes.len();
    let fs = factors(s);
    let level = level_of(score_of(s));
    "session_pressure - level="@ + level + " score="@ + dec(score_of(s))
        + "\nNOTE: host turn count / context-window usage is unavailable; this is a workspace heuristic only.\n"@
        + "events_since_handoff: "@ + dec(total) + " (errors="@ + dec(error_count(s)) + "/"@ + dec(
        percent(error_count(s), total),
    ) + "%, trunc="@ + dec(truncation_count(s)) + "/"@ + dec(percent(truncation_count(s), total))
        + "%)\nlast_handoff_ts: "@ + (match s.since {
        Some(t) => if t == 0 {
            "never"@
        } else {
            dec(t as nat)
        },
        None => "never"@,
    }) + "\nunresolved_defects: "@ + dec(s.defects.len()) + " (eyeball_fail="@ + dec(
        eyeball_count(s),
    ) + ")\nrecent_failed_runs: "@ + dec(s.failed_runs as nat) + "\n"@ + (if fs.len() == 0 {
        "factors: (none — pressure low)\n"@
    } else {
        "factors:\n"@ + factor_rows(fs, fs.len())
    }) + advice_of(level)
}

/// Reasons as they are gathered: their points together, and their texts.
pub struct Gathered {
    pub score: u32,
    pub texts: Vec<String>,
}

impl Gathered {
    pub open spec fn holds(&self, fs: Seq<Factor>) -> bool {
        &&& self.score == points_of(fs, fs.len())
        &&& self.texts@.len() == fs.len()
        &&& forall|i: int| 0 <= i < fs.len() ==> (#[trigger] self.texts@[i])@ == fs[i].text
    }
}

proof fn lemma_points_push(v: Seq<Factor>, f: Factor, n: nat)
    requires
        n <= v.len(),
    ensures
        points_of(v.push(f), n) == points_of(v, n),
    decreases n,
{
    if n > 0 {
        lemma_points_push(v, f, (n - 1) as nat);
    }
}

fn gather(g: &mut Gathered, points: u32, text: String, fs: Ghost<Seq<Factor>>)
    requires
        old(g).holds(fs@),
        old(g).score + points <= u32::MAX,
    ensures
        final(g).holds(fs@.push(Factor { points: points as nat, text: text@ })),
        final(g).score == old(g).score + points,
{
    let ghost f = Factor { points: points as nat, text: text@ };
    proof {
        lemma_points_push(fs@, f, fs@.len());
    }
    g.score = g.score + points;
    g.texts.push(text);
    assert(g.holds(fs@.push(f)));
}

fn numbered(before: &str, n: u64, after: &str) -> (r: String)
    ensures
        r@ == before@ + dec(n as nat) + after@,
{
    let mut t = copy(before);
    t.append(decimal(n).as_str());
    t.append(after);
    t
}

fn plain_numbered(n: u64, after: &str) -> (r: String)
    ensures
        r@ == dec(n as nat) + after@,
{
    let mut t = decimal(n);
    t.append(after);
    t
}

fn session_text(s: &str, rest: &str) -> (r: String)
    ensures
        r@ == "MAS session "@ + s@ + rest@,
{
    let mut t = copy("MAS session ");
    t.append(s);
    t.append(rest);
    t
}

fn session_numbered(s: &str, n: u64, after: &str) -> (r: String)
    ensures
        r@ == "MAS session "@ + s@ + ": "@ + dec(n as nat) + after@,
{
    let mut t = copy("MAS session ");
    t.append(s);
    t.append(": ");
    t.append(decimal(n).as_str());
    t.append(after);
    t
}

/// What happened since the handoff: events, errors and truncations.
fn gather_events(g: &mut Gathered, total: u64, err_rate: u64, trunc_rate: u64)
    requires
        old(g).holds(Seq::empty()),
    ensures
        final(g).holds(
            present(
                seq![
                    event_factor(total as nat),
                    error_factor(err_rate as nat),
                    truncation_factor(trunc_rate as nat),
                ],
                3,
            ),
        ),
        final(g).score <= 6,
{
    let ghost v = seq![
        event_factor(total as nat),
        error_factor(err_rate as nat),
        truncation_factor(trunc_rate as nat),
    ];
    proof {
        reveal_with_fuel(present, 4);
    }
    let ghost a = present(v, 0);
    assert(g.score == 0);
    if total >= 80 {
        gather(g, 3, numbered("many tool events since handoff (", total, ")"), Ghost(a));
    } else if total >= 40 {
        gather(g, 2, numbered("elevated tool events since handoff (", total, ")"), Ghost(a));
    } else if total >= 20 {
        gather(g, 1, numbered("moderate tool events since handoff (", total, ")"), Ghost(a));
    }
    let ghost b = present(v, 1);
    assert(g.holds(b));
    if err_rate >= 20 {
        gather(g, 2, numbered("high error rate (", err_rate, "%)"), Ghost(b));
    } else if err_rate >= 10 {
        gather(g, 1, numbered("elevated error rate (", err_rate, "%)"), Ghost(b));
    }
    let ghost c = present(v, 2);
    assert(g.holds(c));
    if trunc_rate >= 20 {
        gather(g, 1, numbered("high truncation rate (", trunc_rate, "%)"), Ghost(c));
    }
    assert(g.holds(present(v, 3)));
}

fn gather_defects(g: &mut Gathered, eyeball: u64, unresolved: u64, fs: Ghost<Seq<Factor>>)
    requires
        old(g).holds(fs@),
        old(g).score <= 6,
    ensures
        final(g).holds(
            match defect_factor(eyeball as nat, unresolved as nat) {
                Some(f) => fs@.push(f),
                None => fs@,
            },
        ),
        final(g).score <= 9,
{
    if eyeball > 0 {
        gather(g, 3, plain_numbered(eyeball, " eyeball_fail defect(s)"), fs);
    } else if unresolved > 0 {
        gather(g, 1, plain_numbered(unresolved, " unresolved defect(s)"), fs);
    }
}

fn gather_runs(g: &mut Gathered, failed: u64, fs: Ghost<Seq<Factor>>)
    requires
        old(g).holds(fs@),
        old(g).score <= 9,
    ensures
        final(g).holds(
            match run_factor(failed as nat) {
                Some(f) => fs@.push(f),
                None => fs@,
            },
        ),
        final(g).score <= 11,
{
    if failed >= 3 {
        gather(g, 2, plain_numbered(failed, " recent failed runs"), fs);
    } else if failed > 0 {
        gather(g, 1, plain_numbered(failed, " recent failed run(s)"), fs);
    }
}

fn gather_questions(g: &mut Gathered, s: &str, n: u64, fs: Ghost<Seq<Factor>>)
    requires
        old(g).holds(fs@),
        old(g).score <= 11,
    ensures
        final(g).holds(
            match question_factor(s@, n as nat) {
                Some(f) => fs@.push(f),
                None => fs@,
            },
        ),
        final(g).score <= 13,
{
    if n > 5 {
        gather(g, 2, session_numbered(s, n, " open questions"), fs);
    } else if n > 0 {
        gather(g, 1, session_numbered(s, n, " open question(s)"), fs);
    }
}

fn gather_rounds(g: &mut Gathered, s: &str, remaining: u64, status: &str, fs: Ghost<Seq<Factor>>)
    requires
        old(g).holds(fs@),
        old(g).score <= 13,
    ensures
        final(g).holds(
            match round_factor(s@, remaining, status@) {
                Some(f) => fs@.push(f),
                None => fs@,
            },
        ),
        final(g).score <= 15,
{
    if remaining == 0 && !same(status, "final") {
        gather(g, 2, session_text(s, ": round budget exhausted"), fs);
    } else if remaining == 1 {
        gather(g, 1, session_text(s, ": 1 round remaining"), fs);
    }
}

fn gather_all(s: &Signals) -> (g: Gathered)
    ensures
        g.holds(factors(s@)),
{
    let total: u64 = s.outcomes.len() as u64;
    let ghost sv = s@;
    assert(sv.outcomes.len() == s.outcomes@.len());
    assert(sv.defects.len() == s.defects@.len());
    let errors: u64 = count_texts(&s.outcomes, "error");
    let truncs: u64 = count_texts(&s.outcomes, "truncated");
    let eyeball: u64 = count_texts(&s.defects, "eyeball_fail");
    let mut g = Gathered { score: 0, texts: crate::text::no_strings() };
    assert(strs(g.texts@).len() == g.texts@.len());
    assert(g.holds(Seq::empty()));
    let err_rate: u64 = find_percent(errors, total);
    let trunc_rate: u64 = find_percent(truncs, total);
    gather_events(&mut g, total, err_rate, trunc_rate);
    let ghost v = possible(sv);
    let ghost w = seq![
        event_factor(total as nat),
        error_factor(err_rate as nat),
        truncation_factor(trunc_rate as nat),
    ];
    proof {
        reveal_with_fuel(present, 8);
        assert(present(w, 3) == present(v, 3));
    }
    let ghost a = present(v, 3);
    gather_defects(&mut g, eyeball, s.defects.len() as u64, Ghost(a));
    let ghost b = present(v, 4);
    assert(g.holds(b));
    gather_runs(&mut g, s.failed_runs, Ghost(b));
    let ghost c = present(v, 5);
    assert(g.holds(c));
    if let Some((name, snap)) = &s.session {
        gather_questions(&mut g, name.as_str(), snap.open_questions as u64, Ghost(c));
        let ghost d = present(v, 6);
        assert(g.holds(d));
        gather_rounds(
            &mut g,
            name.as_str(),
            snap.rounds_remaining,
            snap.status.as_str(),
            Ghost(d),
        );
    }
    assert(g.holds(present(v, 7)));
    g
}

/// Reports how loaded a session is.
pub fn report(s: &Signals) -> (r: String)
    ensures
        r@ == report_text(s@),
{
    let g = gather_all(s);
    let ghost fs = factors(s@);
    let total: u64 = s.outcomes.len() as u64;
    let errors: u64 = count_texts(&s.outcomes, "error");
    let truncs: u64 = count_texts(&s.outcomes, "truncated");
    let eyeball: u64 = count_texts(&s.defects, "eyeball_fail");
    assert(s@.outcomes.len() == s.outcomes@.len());
    assert(s@.defects.len() == s.defects@.len());
    let level = level_from_score(g.score);
    let mut t = copy("session_pressure - level=");
    t.append(level);
    t.append(" score=");
    t.append(decimal(g.score as u64).as_str());
    t.append(
        "\nNOTE: host turn count / context-window usage is unavailable; this is a workspace heuristic only.\n",
    );
    t.append("events_since_handoff: ");
    t.append(decimal(total).as_str());
    t.append(" (errors=");
    t.append(decimal(errors).as_str());
    t.append("/");
    t.append(decimal(find_percent(errors, total)).as_str());
    t.append("%, trunc=");
    t.append(decimal(truncs).as_str());
    t.append("/");
    t.append(decimal(find_percent(truncs, total)).as_str());
    t.append("%)\nlast_handoff_ts: ");
    let since: String = match s.since {
        Some(n) => if n == 0 {
            copy("never")
        } else {
            decimal(n)
        },
        None => copy("never"),
    };
    t.append(since.as_str());
    t.append("\nunresolved_defects: ");
    t.append(decimal(s.defects.len() as u64).as_str());
    t.append(" (eyeball_fail=");
    t.append(decimal(eyeball).as_str());
    t.append(")\nrecent_failed_runs: ");
    t.append(decimal(s.failed_runs).as_str());
    t.append("\n");
    let mut rows = copy("");
    for i in 0..g.texts.len()
        invariant
            g.holds(fs),
            rows@ == factor_rows(fs, i as nat),
    {
        rows.append("  • ");
        rows.append(g.texts[i].as_str());
        rows.append("\n");
    }
    let reasons: String = if g.texts.len() == 0 {
        copy("factors: (none — pressure low)\n")
    } else {
        let mut m = copy("factors:\n");
        m.append(rows.as_str());
        m
    };
    t.append(reasons.as_str());
    let advice: &str = if same(level, "high") || same(level, "critical") {
        "advice: call session_handoff (or mas_finalize with promote) before continuing.\n"
    } else if same(level, "medium") {
        "advice: consider session_handoff soon if more exploratory work remains.\n"
    } else {
        "advice: continue; pressure is within normal bounds.\n"
    };
    t.append(advice);
    t
}

// ---------------------------------------------------------------------------
// The marker of a handoff

pub open spec fn marker_of(now: u64, workspace: Seq<char>) -> Json {
    record(seq![("ts"@, Json::UInt(now)), ("workspace_id"@, Json::Str(workspace))])
}

/// The document that marks a handoff.
pub fn mark_handoff(now: u64, workspace: &str) -> (r: Datum)
    ensures
        r@ == marker_of(now, workspace@),
{
    let mut ms = no_members();
    add_member(&mut ms, "ts", Datum::UInt(now));
    add_member(&mut ms, "workspace_id", str_value(workspace));
    assert(crate::json::members(ms@) =~= seq![
        ("ts"@, Json::UInt(now)),
        ("workspace_id"@, Json::Str(workspace@)),
    ]);
    build(ms)
}

/// When the last handoff was, by the document that marks it.
pub fn last_handoff_ts(doc: Option<&Datum>) -> (r: Option<u64>)
    ensures
        r == (match doc {
            Some(d) => as_u64(get(d@, "ts"@)),
            None => None,
        }),
{
    match doc {
        Some(d) => get_u64(d, "ts"),
        None => None,
    }
}

// ---------------------------------------------------------------------------
// Laws

/// The time of a handoff is read from its marker.
pub proof fn law_marker_tells_the_time(now: u64, workspace: Seq<char>)
    ensures
        as_u64(get(marker_of(now, workspace), "ts"@)) == Some(now),
{
    let ms = seq![("ts"@, Json::UInt(now)), ("workspace_id"@, Json::Str(workspace))];
    reveal_strlit("ts");
    reveal_strlit("workspace_id");
    assert("ts"@.len() == 2);
    assert("workspace_id"@.len() == 12);
    crate::json::lemma_record_get(ms, 0);
}

/// The load is low where nothing adds to it, and the score never exceeds what all
/// reasons together can add.
pub proof fn law_score_is_bounded(s: SignalsView)
    ensures
        score_of(s) <= 15,
        factors(s).len() == 0 ==> level_of(score_of(s)) == "low"@,
{
    let v = possible(s);
    reveal_with_fuel(present, 8);
    assert(v[0] matches Some(f) ==> f.points <= 3);
    assert(v[1] matches Some(f) ==> f.points <= 2);
    assert(v[2] matches Some(f) ==> f.points <= 1);
    assert(v[3] matches Some(f) ==> f.points <= 3);
    assert(v[4] matches Some(f) ==> f.points <= 2);
    assert(v[5] matches Some(f) ==> f.points <= 2);
    assert(v[6] matches Some(f) ==> f.points <= 2);
    lemma_present_points(v, 1);
    lemma_present_points(v, 2);
    lemma_present_points(v, 3);
    lemma_present_points(v, 4);
    lemma_present_points(v, 5);
    lemma_present_points(v, 6);
    lemma_present_points(v, 7);
    assert(points_of(present(v, 0), 0) == 0);
}

proof fn lemma_present_points(v: Seq<Option<Factor>>, n: nat)
    requires
        0 < n <= v.len(),
    ensures
        points_of(present(v, n), present(v, n).len()) == points_of(
            present(v, (n - 1) as nat),
            present(v, (n - 1) as nat).len(),
        ) + (match v[n - 1] {
            Some(f) => f.points,
            None => 0,
        }),
{
    let rest = present(v, (n - 1) as nat);
    if let Some(f) = v[n - 1] {
        lemma_points_push(rest, f, rest.len());
    }
}

} // verus!
