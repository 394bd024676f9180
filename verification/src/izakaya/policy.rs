//! Advisory policies. Promotion never changes presence, Git, or claims, and
//! advice only reads.
use vstd::prelude::*;
use crate::izakaya::board::add_line;
use crate::izakaya::commit::{
    agent_views, all_seen, call_view, commit, committed, Answer, AnswerView, Committed,
    CommittedView, Prepared, PreparedView,
};
use crate::izakaya::model::{
    advisory_findings, finding_views, findings, payload_fault, reject_unsafe_payload, slug,
    validate_slug, FindingView,
};
use crate::izakaya::records::{HandoffView, PolicyView};
use crate::izakaya::replay::{incumbent_doc, incumbent_spec, parse_spec, spec_from, Spec, SpecView};
use crate::izakaya::store::{
    derived_handoff_status, handoff_status, PolicyRec, Projection, ProjectionView,
};
use crate::json::{
    add_member, array, as_bool, build, double_at, get, get_bool, json_strs, members, no_members,
    read_double, record, str_or, str_value, string_or, strs_value, views, Datum, Json,
};
use crate::text::{among, copy, is_among, join, joined, same, strs};

verus! {

// ---------------------------------------------------------------------------
// Listing

pub open spec fn id_lines(ids: Seq<Seq<char>>) -> Seq<Seq<char>> {
    ids.map_values(|id: Seq<char>| "  - "@ + id)
}

/// The line of a policy; its support comes with three decimals.
pub open spec fn policy_text(p: PolicyView, support: Seq<char>) -> Seq<char> {
    "  - "@ + p.id + " status="@ + p.status + " support="@ + support + " profile="@ + p.profile
}

pub open spec fn policy_lines(ps: Seq<PolicyView>, supports: Seq<Seq<char>>) -> Seq<Seq<char>> {
    Seq::new(ps.len(), |i: int| policy_text(ps[i], supports[i]))
}

pub open spec fn list_lines(
    p: ProjectionView,
    ids: Seq<Seq<char>>,
    supports: Seq<Seq<char>>,
) -> Seq<Seq<char>> {
    seq!["izakaya policy list"@, "profiles:"@] + id_lines(ids) + seq!["promoted:"@] + (
    if p.policies.len() == 0 {
        seq!["  (none)"@]
    } else {
        policy_lines(p.policies, supports)
    }) + seq![
        "active: "@ + (match p.active_policy {
            Some(s) => s,
            None => "(none)"@,
        }),
    ]
}

/// The profiles that can be asked for and the policies that were promoted.
pub fn list(proj: &Projection, ids: &Vec<String>, supports: &Vec<String>) -> (r: Datum)
    requires
        supports@.len() == proj.policies@.len(),
    ensures
        r@ == record(
            seq![
                ("read_only"@, Json::Bool(true)),
                (
                    "text"@,
                    Json::Str(
                        joined(list_lines(proj@, strs(ids@), strs(supports@)), "\n"@) + "\n"@,
                    ),
                ),
            ],
        ),
{
    let mut lines = crate::text::no_strings();
    add_line(&mut lines, copy("izakaya policy list"));
    add_line(&mut lines, copy("profiles:"));
    assert(strs(lines@) =~= seq!["izakaya policy list"@, "profiles:"@]);
    let ghost head = strs(lines@);
    let ghost named = id_lines(strs(ids@));
    assert(head + named.take(0) =~= head);
    for i in 0..ids.len()
        invariant
            named == id_lines(strs(ids@)),
            strs(lines@) == head + named.take(i as int),
    {
        let mut l = copy("  - ");
        l.append(ids[i].as_str());
        assert(strs(ids@)[i as int] == ids@[i as int]@);
        assert(head + named.take(i + 1) =~= (head + named.take(i as int)).push(named[i as int]));
        add_line(&mut lines, l);
    }
    assert(named.take(named.len() as int) =~= named);
    let ghost l1 = strs(lines@);
    add_line(&mut lines, copy("promoted:"));
    assert(strs(lines@) =~= l1 + seq!["promoted:"@]);
    let ghost l2 = strs(lines@);
    let ghost told = policy_lines(proj@.policies, strs(supports@));
    if proj.policies.len() == 0 {
        add_line(&mut lines, copy("  (none)"));
        assert(strs(lines@) =~= l2 + seq!["  (none)"@]);
    } else {
        assert(l2 + told.take(0) =~= l2);
        for i in 0..proj.policies.len()
            invariant
                supports@.len() == proj.policies@.len(),
                told == policy_lines(proj@.policies, strs(supports@)),
                strs(lines@) == l2 + told.take(i as int),
        {
            let p = &proj.policies[i];
            assert(proj@.policies[i as int] == p@);
            let mut l = copy("  - ");
            l.append(p.id.as_str());
            l.append(" status=");
            l.append(p.status.as_str());
            l.append(" support=");
            l.append(supports[i].as_str());
            l.append(" profile=");
            l.append(p.profile.as_str());
            assert(strs(supports@)[i as int] == supports@[i as int]@);
            assert(l2 + told.take(i + 1) =~= (l2 + told.take(i as int)).push(told[i as int]));
            add_line(&mut lines, l);
        }
        assert(told.take(told.len() as int) =~= told);
    }
    let ghost l3 = strs(lines@);
    let mut last = copy("active: ");
    let active = match &proj.active_policy {
        Some(s) => copy(s.as_str()),
        None => copy("(none)"),
    };
    last.append(active.as_str());
    let ghost shown = last@;
    add_line(&mut lines, last);
    assert(strs(lines@) =~= l3 + seq![shown]);
    assert(strs(lines@) =~= list_lines(proj@, strs(ids@), strs(supports@)));
    let mut text = join(&lines, "\n");
    text.append("\n");
    let ghost full = text@;
    let mut ms = no_members();
    add_member(&mut ms, "read_only", Datum::Bool(true));
    add_member(&mut ms, "text", Datum::Str(text));
    assert(members(ms@) =~= seq![("read_only"@, Json::Bool(true)), ("text"@, Json::Str(full))]);
    build(ms)
}

// ---------------------------------------------------------------------------
// Promoting and retiring

/// The support that a report gives for the holdout, as a double.
pub open spec fn holdout_support(report: Json) -> Json {
    double_at(report, "holdout_support"@, "0.0"@)
}

pub open spec fn promote_change(
    id: Seq<char>,
    doc: Json,
    profile: Seq<char>,
    report: Json,
    shown: Seq<char>,
) -> PreparedView {
    PreparedView {
        kind: "policy_promote"@,
        agent_id: "policy"@,
        lease_id: ""@,
        idempotency_key: None,
        body: record(
            seq![
                ("id"@, Json::Str(id)),
                ("profile"@, Json::Str(profile)),
                ("report_hash"@, Json::Str(str_or(report, "report_hash"@, ""@))),
                ("spec"@, doc),
                ("support"@, holdout_support(report)),
            ],
        ),
        answer: AnswerView::Promote(shown),
    }
}

/// What a promotion comes to: only a report that allows it lets it through.
pub open spec fn promoted(
    p: ProjectionView,
    doc: Json,
    profile: Seq<char>,
    report: Json,
    shown: Seq<char>,
    ts: u64,
) -> Result<CommittedView, Seq<char>> {
    match spec_from(doc) {
        Err(e) => Err(e),
        Ok(s) => if as_bool(get(report, "promotion_ok"@)) != Some(true) {
            Err(
                "refusing to promote "@ + s.id
                    + ": holdout gates, support >= 0.70, zero out-of-support, and a non-empty holdout are required\n"@
                    + str_or(report, "text"@, ""@),
            )
        } else {
            Ok(committed(p, promote_change(s.id, doc, profile, report, shown), ts))
        },
    }
}

/// Promotes a policy whose report allows it. `shown` is the support as it is
/// shown to people.
pub fn promote(
    proj: Projection,
    doc: &Datum,
    profile: &str,
    report: &Datum,
    shown: &str,
    ts: u64,
) -> (r: Result<Committed, String>)
    requires
        proj.wf(),
        proj.seq < u64::MAX,
    ensures
        call_view(r) == promoted(proj@, doc@, profile@, report@, shown@, ts),
        r matches Ok(Committed::Appended(_, _, q)) ==> q.wf(),
{
    let s = match parse_spec(doc) {
        Ok(s) => s,
        Err(e) => {
            return Err(e);
        },
    };
    let allowed: bool = match get_bool(report, "promotion_ok") {
        Some(b) => b,
        None => false,
    };
    if !allowed {
        let mut e = copy("refusing to promote ");
        e.append(s.id.as_str());
        e.append(
            ": holdout gates, support >= 0.70, zero out-of-support, and a non-empty holdout are required\n",
        );
        e.append(string_or(report, "text", "").as_str());
        return Err(e);
    }
    let mut ms = no_members();
    add_member(&mut ms, "id", str_value(s.id.as_str()));
    add_member(&mut ms, "profile", str_value(profile));
    add_member(&mut ms, "report_hash", Datum::Str(string_or(report, "report_hash", "")));
    add_member(&mut ms, "spec", doc.copy());
    add_member(&mut ms, "support", read_double(report, "holdout_support", "0.0"));
    assert(members(ms@) =~= seq![
        ("id"@, Json::Str(s@.id)),
        ("profile"@, Json::Str(profile@)),
        ("report_hash"@, Json::Str(str_or(report@, "report_hash"@, ""@))),
        ("spec"@, doc@),
        ("support"@, holdout_support(report@)),
    ]);
    let prepared = Prepared {
        kind: copy("policy_promote"),
        agent_id: copy("policy"),
        lease_id: copy(""),
        idempotency_key: None,
        body: build(ms),
        answer: Answer::Promote(copy(shown)),
    };
    Ok(commit(proj, prepared, ts))
}

pub open spec fn policy_known(ps: Seq<PolicyView>, id: Seq<char>) -> bool {
    exists|i: int| 0 <= i < ps.len() && (#[trigger] ps[i]).id == id
}

pub open spec fn retire_change(id: Seq<char>) -> PreparedView {
    PreparedView {
        kind: "policy_retire"@,
        agent_id: "policy"@,
        lease_id: ""@,
        idempotency_key: None,
        body: record(seq![("id"@, Json::Str(id))]),
        answer: AnswerView::Retire,
    }
}

/// What retiring a policy comes to.
pub open spec fn retired_policy(p: ProjectionView, raw: Seq<char>, ts: u64) -> Result<
    CommittedView,
    Seq<char>,
> {
    match slug("policy.id"@, raw) {
        Err(e) => Err(e),
        Ok(id) => if !policy_known(p.policies, id) {
            Err("unknown policy "@ + id)
        } else {
            Ok(committed(p, retire_change(id), ts))
        },
    }
}

fn knows_policy(proj: &Projection, id: &str) -> (r: bool)
    ensures
        r == policy_known(proj@.policies, id@),
{
    for i in 0..proj.policies.len()
        invariant
            forall|k: int| 0 <= k < i ==> (#[trigger] proj@.policies[k]).id != id@,
    {
        assert(proj@.policies[i as int] == proj.policies@[i as int]@);
        if same(proj.policies[i].id.as_str(), id) {
            return true;
        }
    }
    false
}

pub fn retire(proj: Projection, id: &str, ts: u64) -> (r: Result<Committed, String>)
    requires
        proj.wf(),
        proj.seq < u64::MAX,
    ensures
        call_view(r) == retired_policy(proj@, id@, ts),
        r matches Ok(Committed::Appended(_, _, q)) ==> q.wf(),
{
    let id = match validate_slug("policy.id", id) {
        Ok(s) => s,
        Err(e) => {
            return Err(e);
        },
    };
    if !knows_policy(&proj, id.as_str()) {
        let mut e = copy("unknown policy ");
        e.append(id.as_str());
        return Err(e);
    }
    let mut ms = no_members();
    add_member(&mut ms, "id", str_value(id.as_str()));
    assert(members(ms@) =~= seq![("id"@, Json::Str(id@))]);
    let prepared = Prepared {
        kind: copy("policy_retire"),
        agent_id: copy("policy"),
        lease_id: copy(""),
        idempotency_key: None,
        body: build(ms),
        answer: Answer::Retire,
    };
    Ok(commit(proj, prepared, ts))
}

// ---------------------------------------------------------------------------
// Advice

/// The latest active record of a policy, among the first `n`.
pub open spec fn active_record(ps: Seq<PolicyView>, id: Seq<char>, n: nat) -> Option<PolicyView>
    decreases n,
{
    if n == 0 {
        None
    } else if ps[n - 1].id == id && ps[n - 1].status == "active"@ {
        Some(ps[n - 1])
    } else {
        active_record(ps, id, (n - 1) as nat)
    }
}

pub fn find_active<'a>(proj: &'a Projection, id: &str) -> (r: Option<&'a PolicyRec>)
    ensures
        match r {
            Some(p) => active_record(proj@.policies, id@, proj@.policies.len()) == Some(p@),
            None => active_record(proj@.policies, id@, proj@.policies.len()) is None,
        },
{
    let mut n: usize = proj.policies.len();
    while n > 0
        invariant
            n <= proj.policies@.len(),
            active_record(proj@.policies, id@, proj@.policies.len()) == active_record(
                proj@.policies,
                id@,
                n as nat,
            ),
        decreases n,
    {
        let p = &proj.policies[n - 1];
        assert(proj@.policies[n - 1] == p@);
        if same(p.id.as_str(), id) && same(p.status.as_str(), "active") {
            return Some(p);
        }
        n = n - 1;
    }
    None
}

pub open spec fn features_of(s: SpecView) -> Seq<Seq<char>> {
    s.prefer.map_values(|m: (Seq<char>, Json)| m.0)
}

/// What a policy prefers; one that cannot be read counts as the incumbent.
pub open spec fn policy_features(doc: Json) -> Result<Seq<Seq<char>>, Seq<char>> {
    match spec_from(incumbent_doc()) {
        Err(e) => Err(e),
        Ok(inc) => match spec_from(doc) {
            Ok(s) => Ok(features_of(s)),
            Err(_) => Ok(features_of(inc)),
        },
    }
}

fn list_features(s: &Spec) -> (r: Vec<String>)
    ensures
        strs(r@) == features_of(s@),
{
    let mut out: Vec<String> = Vec::new();
    for i in 0..s.prefer.len()
        invariant
            out@.len() == i,
            forall|k: int| 0 <= k < i ==> (#[trigger] out@[k])@ == s.prefer@[k].0@,
    {
        out.push(copy(s.prefer[i].0.as_str()));
    }
    assert(strs(out@) =~= features_of(s@));
    out
}

fn read_features(doc: &Datum) -> (r: Result<Vec<String>, String>)
    ensures
        match (r, policy_features(doc@)) {
            (Ok(a), Ok(b)) => strs(a@) == b,
            (Err(a), Err(b)) => a@ == b,
            _ => false,
        },
{
    let inc = match parse_spec(&incumbent_spec()) {
        Ok(s) => s,
        Err(e) => {
            return Err(e);
        },
    };
    match parse_spec(doc) {
        Ok(s) => Ok(list_features(&s)),
        Err(_) => Ok(list_features(&inc)),
    }
}

/// Whether a policy has something to say on a finding.
pub open spec fn wanted(kind: Seq<char>, prefers: Seq<Seq<char>>) -> bool {
    if kind == "path_overlap"@ || kind == "symbol_overlap"@ || kind == "drift"@ {
        among(prefers, "non_overlapping"@)
    } else {
        kind == "stale"@
    }
}

pub open spec fn finding_advice(f: FindingView, confidence: Seq<char>) -> Seq<char> {
    "advisory: "@ + f.detail + " (confidence "@ + confidence + ")"@
}

pub open spec fn finding_recs(
    fs: Seq<FindingView>,
    prefers: Seq<Seq<char>>,
    confidence: Seq<char>,
    n: nat,
) -> Seq<Seq<char>>
    decreases n,
{
    if n == 0 {
        Seq::empty()
    } else {
        let rest = finding_recs(fs, prefers, confidence, (n - 1) as nat);
        if wanted(fs[n - 1].kind, prefers) {
            rest.push(finding_advice(fs[n - 1], confidence))
        } else {
            rest
        }
    }
}

pub open spec fn handoff_advice(h: HandoffView) -> Seq<char> {
    "advisory: handoff "@ + h.id + " from "@ + h.from + " to "@ + h.to
        + " is unclaimed — accept only by checking in"@
}

pub open spec fn handoff_recs(
    p: ProjectionView,
    prefers: Seq<Seq<char>>,
    now: u64,
    orphan_secs: u64,
    n: nat,
) -> Seq<Seq<char>>
    decreases n,
{
    if n == 0 {
        Seq::empty()
    } else {
        let rest = handoff_recs(p, prefers, now, orphan_secs, (n - 1) as nat);
        let h = p.handoffs[n - 1];
        if handoff_status(h, p.agents, now, orphan_secs) == "offered"@ && (among(
            prefers,
            "handoff"@,
        ) || prefers.len() == 0) {
            rest.push(handoff_advice(h))
        } else {
            rest
        }
    }
}

/// What a policy recommends. It always ends with what it may not do.
pub open spec fn recommendations(
    p: ProjectionView,
    prefers: Seq<Seq<char>>,
    confidence: Seq<char>,
    now: u64,
    orphan_secs: u64,
) -> Seq<Seq<char>> {
    let fs = findings(all_seen(p), now);
    let all = finding_recs(fs, prefers, confidence, fs.len()) + handoff_recs(
        p,
        prefers,
        now,
        orphan_secs,
        p.handoffs.len(),
    );
    (if all.len() == 0 {
        seq!["advisory: no change recommended"@]
    } else {
        all
    }).push(
        "authority: read-only; this call does not check in, suspend, check out, or run git"@,
    )
}

/// The answer where there is nothing to go by.
pub open spec fn inert(text: Seq<char>) -> Json {
    record(
        seq![
            ("recommendations"@, Json::Array(Seq::empty())),
            ("side_effects"@, Json::Bool(false)),
            ("text"@, Json::Str(text)),
        ],
    )
}

fn inert_reply(text: &str) -> (r: Datum)
    ensures
        r@ == inert(text@),
{
    let none: Vec<Datum> = Vec::new();
    assert(views(none@) =~= Seq::<Json>::empty());
    let mut ms = no_members();
    add_member(&mut ms, "recommendations", array(none));
    add_member(&mut ms, "side_effects", Datum::Bool(false));
    add_member(&mut ms, "text", str_value(text));
    assert(members(ms@) =~= seq![
        ("recommendations"@, Json::Array(Seq::empty())),
        ("side_effects"@, Json::Bool(false)),
        ("text"@, Json::Str(text@)),
    ]);
    build(ms)
}

pub open spec fn advice_json(
    p: ProjectionView,
    rec: PolicyView,
    recs: Seq<Seq<char>>,
) -> Json {
    record(
        seq![
            ("policy_id"@, Json::Str(rec.id)),
            ("recommendations"@, json_strs(recs)),
            ("seq"@, Json::UInt(p.seq)),
            ("side_effects"@, Json::Bool(false)),
            ("support"@, rec.support),
            (
                "text"@,
                Json::Str(
                    "izakaya_advise - policy "@ + rec.id + "\n"@ + joined(recs, "\n"@) + "\n"@,
                ),
            ),
        ],
    )
}

/// The advice of the active policy. `confidence` is its support with two
/// decimals.
pub open spec fn advised(
    p: ProjectionView,
    j: Json,
    now: u64,
    orphan_secs: u64,
    confidence: Seq<char>,
) -> Result<Json, Seq<char>> {
    match payload_fault(j) {
        Err(e) => Err(e),
        Ok(_) => match p.active_policy {
            None => Ok(
                inert(
                    "izakaya_advise - no promoted advisory policy; recommendations are inert\n"@,
                ),
            ),
            Some(id) => match active_record(p.policies, id, p.policies.len()) {
                None => Ok(
                    inert(
                        "izakaya_advise - active policy record missing; recommendations are inert\n"@,
                    ),
                ),
                Some(rec) => match policy_features(rec.spec_doc) {
                    Err(e) => Err(e),
                    Ok(prefers) => Ok(
                        advice_json(
                            p,
                            rec,
                            recommendations(p, prefers, confidence, now, orphan_secs),
                        ),
                    ),
                },
            },
        },
    }
}

fn is_wanted(kind: &str, prefers: &Vec<String>) -> (r: bool)
    ensures
        r == wanted(kind@, strs(prefers@)),
{
    if same(kind, "path_overlap") || same(kind, "symbol_overlap") || same(kind, "drift") {
        is_among(prefers, "non_overlapping")
    } else {
        same(kind, "stale")
    }
}

fn recommend(
    proj: &Projection,
    prefers: &Vec<String>,
    confidence: &str,
    now: u64,
    orphan_secs: u64,
) -> (r: Vec<String>)
    requires
        proj.wf(),
    ensures
        strs(r@) == recommendations(proj@, strs(prefers@), confidence@, now, orphan_secs),
{
    let seen = agent_views(proj);
    let found = advisory_findings(seen.as_slice(), now);
    let ghost fs = finding_views(found@);
    let ghost want = strs(prefers@);
    let mut recs = crate::text::no_strings();
    for i in 0..found.len()
        invariant
            fs == finding_views(found@),
            want == strs(prefers@),
            strs(recs@) == finding_recs(fs, want, confidence@, i as nat),
    {
        let f = &found[i];
        assert(fs[i as int] == f@);
        if is_wanted(f.kind.as_str(), prefers) {
            let mut t = copy("advisory: ");
            t.append(f.detail.as_str());
            t.append(" (confidence ");
            t.append(confidence);
            t.append(")");
            add_line(&mut recs, t);
        }
    }
    let ghost first = strs(recs@);
    assert(fs.len() == found@.len());
    assert(want.len() == prefers@.len());
    assert(first + handoff_recs(proj@, want, now, orphan_secs, 0) =~= first);
    for i in 0..proj.handoffs.len()
        invariant
            proj.wf(),
            want == strs(prefers@),
            want.len() == prefers@.len(),
            strs(recs@) == first + handoff_recs(proj@, want, now, orphan_secs, i as nat),
    {
        let h = &proj.handoffs[i];
        assert(proj@.handoffs[i as int] == h@);
        let status = derived_handoff_status(h, &proj.agents, now, orphan_secs);
        if same(status.as_str(), "offered") && (is_among(prefers, "handoff") || prefers.len() == 0) {
            let mut t = copy("advisory: handoff ");
            t.append(h.id.as_str());
            t.append(" from ");
            t.append(h.from.as_str());
            t.append(" to ");
            t.append(h.to.as_str());
            t.append(" is unclaimed — accept only by checking in");
            let ghost before = strs(recs@);
            add_line(&mut recs, t);
            assert(strs(recs@) =~= first + handoff_recs(
                proj@,
                want,
                now,
                orphan_secs,
                (i + 1) as nat,
            ));
        }
    }
    assert(strs(recs@).len() == recs@.len());
    if recs.len() == 0 {
        add_line(&mut recs, copy("advisory: no change recommended"));
        assert(strs(recs@) =~= seq!["advisory: no change recommended"@]);
    }
    add_line(
        &mut recs,
        copy("authority: read-only; this call does not check in, suspend, check out, or run git"),
    );
    recs
}

pub fn advise(
    proj: &Projection,
    args: &Datum,
    now: u64,
    orphan_secs: u64,
    confidence: &str,
) -> (r: Result<Datum, String>)
    requires
        proj.wf(),
    ensures
        match (r, advised(proj@, args@, now, orphan_secs, confidence@)) {
            (Ok(a), Ok(b)) => a@ == b,
            (Err(a), Err(b)) => a@ == b,
            _ => false,
        },
{
    if let Err(e) = reject_unsafe_payload(args) {
        return Err(e);
    }
    let active = match &proj.active_policy {
        Some(s) => s.as_str(),
        None => {
            return Ok(
                inert_reply(
                    "izakaya_advise - no promoted advisory policy; recommendations are inert\n",
                ),
            );
        },
    };
    let rec = match find_active(proj, active) {
        Some(p) => p,
        None => {
            return Ok(
                inert_reply(
                    "izakaya_advise - active policy record missing; recommendations are inert\n",
                ),
            );
        },
    };
    let prefers = match read_features(&rec.spec_doc) {
        Ok(f) => f,
        Err(e) => {
            return Err(e);
        },
    };
    let recs = recommend(proj, &prefers, confidence, now, orphan_secs);
    let mut text = copy("izakaya_advise - policy ");
    text.append(rec.id.as_str());
    text.append("\n");
    text.append(join(&recs, "\n").as_str());
    text.append("\n");
    let ghost full = text@;
    let mut ms = no_members();
    add_member(&mut ms, "policy_id", str_value(rec.id.as_str()));
    add_member(&mut ms, "recommendations", strs_value(&recs));
    add_member(&mut ms, "seq", Datum::UInt(proj.seq));
    add_member(&mut ms, "side_effects", Datum::Bool(false));
    add_member(&mut ms, "support", rec.support.copy());
    add_member(&mut ms, "text", Datum::Str(text));
    assert(members(ms@) =~= seq![
        ("policy_id"@, Json::Str(rec@.id)),
        ("recommendations"@, json_strs(strs(recs@))),
        ("seq"@, Json::UInt(proj.seq)),
        ("side_effects"@, Json::Bool(false)),
        ("support"@, rec@.support),
        ("text"@, Json::Str(full)),
    ]);
    Ok(build(ms))
}

/// A promotion or a retirement leaves every agent, hand-off and message as it is.
pub proof fn law_policies_leave_presence(
    p: ProjectionView,
    doc: Json,
    profile: Seq<char>,
    report: Json,
    shown: Seq<char>,
    id: Seq<char>,
    ts: u64,
)
    ensures
        promoted(p, doc, profile, report, shown, ts) matches Ok(
            CommittedView::Appended(_, _, q),
        ) ==> q.agents == p.agents && q.handoffs == p.handoffs && q.messages == p.messages,
        retired_policy(p, id, ts) matches Ok(CommittedView::Appended(_, _, q)) ==> q.agents
            == p.agents && q.handoffs == p.handoffs && q.messages == p.messages,
{
    reveal_strlit("policy_promote");
    reveal_strlit("policy_retire");
    reveal_strlit("check_in");
    reveal_strlit("update");
    reveal_strlit("check_out");
    reveal_strlit("malformed");
    assert("policy_promote"@.len() == 14 && "policy_retire"@.len() == 13);
    assert("check_in"@.len() == 8 && "update"@.len() == 6 && "check_out"@.len() == 9);
    assert("malformed"@.len() == 9);
}

} // verus!
