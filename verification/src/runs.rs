//! The history of runs: what was run, how it ended, and what it left behind.
//! Nothing here runs a command.
use vstd::prelude::*;
use crate::args::{
    optional_str, required_at, required_str, string_array, text_at, texts_at, tidy_text, tidy_texts,
};
use crate::izakaya::board::add_line;
use crate::izakaya::replay::arranged;
use crate::json::{
    add_member, array, as_i64, as_u64, build, get_i64, get_items, get_u64, json_opt_i64,
    json_opt_str, json_opt_u64, json_strs, no_members, number_or, opt_i64_value, opt_str_value,
    opt_u64_value, ordered, set_member, str_or, str_value, string_or, strs_value, u64_or,
    with_member, Datum, Json,
};
use crate::module_map::one_or_more;
use crate::order::{key_views, positioned, sort, sort_order, Key, KeyView};
use crate::text::{
    among, copy, copy_all, copy_opt, dec, dec_int, decimal, decimal_int, is_among, is_blank,
    join, joined, lower_ascii, lowered, opt_text, parse_i64, parse_u64, parsed, parsed_int,
    quote, quoted, same, starts, starts_with, strs, verdict,
};

verus! {

/// Runs that are kept.
pub const MAX_RUNS: usize = 200;

/// A recorded run.
pub struct Run {
    pub id: String,
    pub command: String,
    pub status: String,
    pub exit_code: Option<i64>,
    pub duration_ms: Option<u64>,
    pub summary: String,
    pub log_path: Option<String>,
    pub key_failures: Vec<String>,
    pub artifacts: Vec<String>,
    pub tags: Vec<String>,
    pub defect_ids: Vec<String>,
    pub created: u64,
    pub updated: u64,
}

/// The values of a [`Run`].
pub struct RunView {
    pub id: Seq<char>,
    pub command: Seq<char>,
    pub status: Seq<char>,
    pub exit_code: Option<i64>,
    pub duration_ms: Option<u64>,
    pub summary: Seq<char>,
    pub log_path: Option<Seq<char>>,
    pub key_failures: Seq<Seq<char>>,
    pub artifacts: Seq<Seq<char>>,
    pub tags: Seq<Seq<char>>,
    pub defect_ids: Seq<Seq<char>>,
    pub created: u64,
    pub updated: u64,
}

impl View for Run {
    type V = RunView;

    open spec fn view(&self) -> RunView {
        RunView {
            id: self.id@,
            command: self.command@,
            status: self.status@,
            exit_code: self.exit_code,
            duration_ms: self.duration_ms,
            summary: self.summary@,
            log_path: opt_text(self.log_path),
            key_failures: strs(self.key_failures@),
            artifacts: strs(self.artifacts@),
            tags: strs(self.tags@),
            defect_ids: strs(self.defect_ids@),
            created: self.created,
            updated: self.updated,
        }
    }
}

pub open spec fn run_views(v: Seq<Run>) -> Seq<RunView> {
    Seq::new(v.len(), |i: int| v[i]@)
}

impl Run {
    pub fn copy(&self) -> (r: Run)
        ensures
            r@ == self@,
    {
        Run {
            id: copy(self.id.as_str()),
            command: copy(self.command.as_str()),
            status: copy(self.status.as_str()),
            exit_code: self.exit_code,
            duration_ms: self.duration_ms,
            summary: copy(self.summary.as_str()),
            log_path: copy_opt(&self.log_path),
            key_failures: copy_all(&self.key_failures),
            artifacts: copy_all(&self.artifacts),
            tags: copy_all(&self.tags),
            defect_ids: copy_all(&self.defect_ids),
            created: self.created,
            updated: self.updated,
        }
    }
}

// ---------------------------------------------------------------------------
// The store

/// A run as it is stored: how it went.
pub open spec fn run_fields(r: RunView) -> Seq<(Seq<char>, Json)> {
    seq![
        ("id"@, Json::Str(r.id)),
        ("command"@, Json::Str(r.command)),
        ("status"@, Json::Str(r.status)),
        ("exit_code"@, json_opt_i64(r.exit_code)),
        ("duration_ms"@, json_opt_u64(r.duration_ms)),
        ("summary"@, Json::Str(r.summary)),
        ("log_path"@, json_opt_str(r.log_path)),
    ]
}

/// A run as it is stored: what it left behind.
pub open spec fn run_lists(r: RunView) -> Seq<(Seq<char>, Json)> {
    seq![
        ("key_failures"@, json_strs(r.key_failures)),
        ("artifacts"@, json_strs(r.artifacts)),
        ("tags"@, json_strs(r.tags)),
        ("defect_ids"@, json_strs(r.defect_ids)),
        ("created"@, Json::UInt(r.created)),
        ("updated"@, Json::UInt(r.updated)),
    ]
}

pub open spec fn run_json(r: RunView) -> Json {
    crate::json::record(run_fields(r) + run_lists(r))
}

fn field_members(r: &Run) -> (ms: Vec<(String, Datum)>)
    ensures
        crate::json::members(ms@) == run_fields(r@),
{
    let mut ms = no_members();
    add_member(&mut ms, "id", str_value(r.id.as_str()));
    add_member(&mut ms, "command", str_value(r.command.as_str()));
    add_member(&mut ms, "status", str_value(r.status.as_str()));
    add_member(&mut ms, "exit_code", opt_i64_value(r.exit_code));
    add_member(&mut ms, "duration_ms", opt_u64_value(r.duration_ms));
    add_member(&mut ms, "summary", str_value(r.summary.as_str()));
    add_member(&mut ms, "log_path", opt_str_value(&r.log_path));
    assert(crate::json::members(ms@) =~= run_fields(r@));
    ms
}

fn add_lists(ms: &mut Vec<(String, Datum)>, r: &Run)
    ensures
        crate::json::members(final(ms)@) == crate::json::members(old(ms)@) + run_lists(r@),
{
    let ghost before = crate::json::members(ms@);
    add_member(ms, "key_failures", strs_value(&r.key_failures));
    add_member(ms, "artifacts", strs_value(&r.artifacts));
    add_member(ms, "tags", strs_value(&r.tags));
    add_member(ms, "defect_ids", strs_value(&r.defect_ids));
    add_member(ms, "created", Datum::UInt(r.created));
    add_member(ms, "updated", Datum::UInt(r.updated));
    assert(crate::json::members(ms@) =~= before + run_lists(r@));
}

pub fn run_to_value(r: &Run) -> (v: Datum)
    ensures
        v@ == run_json(r@),
{
    let mut ms = field_members(r);
    add_lists(&mut ms, r);
    build(ms)
}

/// A stored run; nothing where it has no id.
pub open spec fn run_of(v: Json) -> Option<RunView> {
    match crate::json::get(v, "id"@) {
        Some(Json::Str(id)) => Some(
            RunView {
                id,
                command: str_or(v, "command"@, ""@),
                status: str_or(v, "status"@, "running"@),
                exit_code: as_i64(crate::json::get(v, "exit_code"@)),
                duration_ms: as_u64(crate::json::get(v, "duration_ms"@)),
                summary: str_or(v, "summary"@, ""@),
                log_path: text_at(v, "log_path"@),
                key_failures: texts_at(v, "key_failures"@),
                artifacts: texts_at(v, "artifacts"@),
                tags: texts_at(v, "tags"@),
                defect_ids: texts_at(v, "defect_ids"@),
                created: u64_or(v, "created"@, 0),
                updated: u64_or(v, "updated"@, 0),
            },
        ),
        _ => None,
    }
}

pub open spec fn opt_run(r: Option<Run>) -> Option<RunView> {
    match r {
        Some(x) => Some(x@),
        None => None,
    }
}

pub fn run_from_value(v: &Datum) -> (r: Option<Run>)
    ensures
        opt_run(r) == run_of(v@),
{
    match crate::json::get_str(v, "id") {
        None => None,
        Some(id) => Some(
            Run {
                id: copy(id.as_str()),
                command: string_or(v, "command", ""),
                status: string_or(v, "status", "running"),
                exit_code: get_i64(v, "exit_code"),
                duration_ms: get_u64(v, "duration_ms"),
                summary: string_or(v, "summary", ""),
                log_path: optional_str(v, "log_path"),
                key_failures: string_array(v, "key_failures"),
                artifacts: string_array(v, "artifacts"),
                tags: string_array(v, "tags"),
                defect_ids: string_array(v, "defect_ids"),
                created: number_or(v, "created", 0),
                updated: number_or(v, "updated", 0),
            },
        ),
    }
}

pub open spec fn read_run() -> spec_fn(Json) -> Option<RunView> {
    |j: Json| run_of(j)
}

/// The runs in a store; none where there is no store.
pub open spec fn runs_of(doc: Option<Json>) -> Seq<RunView> {
    match doc {
        Some(v) => match crate::json::get(v, "runs"@) {
            Some(Json::Array(items)) => items.filter_map(read_run()),
            _ => Seq::empty(),
        },
        None => Seq::empty(),
    }
}

pub fn load_all(doc: Option<&Datum>) -> (r: Vec<Run>)
    ensures
        run_views(r@) == runs_of(crate::json::opt_view(doc)),
{
    let mut out: Vec<Run> = Vec::new();
    assert(run_views(out@) =~= Seq::<RunView>::empty());
    if let Some(v) = doc {
        if let Some(items) = get_items(v, "runs") {
            let ghost all = crate::json::views(items@);
            assert(all.take(0).filter_map(read_run()) =~= Seq::<RunView>::empty());
            for i in 0..items.len()
                invariant
                    all == crate::json::views(items@),
                    run_views(out@) == all.take(i as int).filter_map(read_run()),
            {
                proof {
                    all.lemma_filter_map_take_succ(read_run(), i as int);
                }
                assert(all[i as int] == items@[i as int]@);
                let ghost before = out@;
                if let Some(r) = run_from_value(&items[i]) {
                    let ghost rv = r@;
                    out.push(r);
                    assert(run_views(out@) =~= run_views(before) + seq![rv]);
                } else {
                    assert(run_views(out@) =~= run_views(before) + Seq::<RunView>::empty());
                }
            }
            assert(all.take(all.len() as int) =~= all);
        }
    }
    out
}

pub open spec fn age_keys(v: Seq<RunView>) -> Seq<KeyView> {
    Seq::new(
        v.len(),
        |i: int| KeyView { rank: v[i].updated, name: ""@, number: 0, at: i as nat },
    )
}

pub open spec fn newest_keys(v: Seq<RunView>) -> Seq<KeyView> {
    Seq::new(
        v.len(),
        |i: int|
            KeyView { rank: (u64::MAX - v[i].updated) as u64, name: ""@, number: 0, at: i as nat },
    )
}

/// Runs from the one updated first to the one updated last.
pub open spec fn by_age(v: Seq<RunView>) -> Seq<RunView> {
    arranged(v, sort_order(age_keys(v)))
}

/// Runs from the one updated last to the one updated first.
pub open spec fn newest_first(v: Seq<RunView>) -> Seq<RunView> {
    arranged(v, sort_order(newest_keys(v)))
}

/// The runs that are kept: all, or those updated last.
pub open spec fn kept_runs(v: Seq<RunView>) -> Seq<RunView> {
    if v.len() > MAX_RUNS {
        by_age(v).skip(v.len() - MAX_RUNS)
    } else {
        v
    }
}

fn sort_runs(v: &Vec<Run>, newest: bool) -> (r: Vec<Run>)
    ensures
        run_views(r@) == (if newest {
            newest_first(run_views(v@))
        } else {
            by_age(run_views(v@))
        }),
        r@.len() == v@.len(),
{
    let ghost all = run_views(v@);
    let ghost ks = if newest {
        newest_keys(all)
    } else {
        age_keys(all)
    };
    let mut keys: Vec<Key> = Vec::new();
    for i in 0..v.len()
        invariant
            all == run_views(v@),
            keys@.len() == i,
            ks == (if newest {
                newest_keys(all)
            } else {
                age_keys(all)
            }),
            forall|k: int| 0 <= k < i ==> (#[trigger] keys@[k])@ == ks[k],
    {
        let rank: u64 = if newest {
            u64::MAX - v[i].updated
        } else {
            v[i].updated
        };
        keys.push(Key { rank, name: copy(""), number: 0, at: i });
    }
    assert(key_views(keys@) =~= ks);
    assert(positioned(key_views(keys@)));
    let order = sort(keys);
    let mut out: Vec<Run> = Vec::new();
    for i in 0..order.len()
        invariant
            all == run_views(v@),
            out@.len() == i,
            forall|k: int|
                0 <= k < order@.len() ==> (#[trigger] order@[k] as int) == sort_order(ks)[k]
                    && order@[k] < v@.len(),
            forall|k: int| 0 <= k < i ==> (#[trigger] out@[k])@ == all[sort_order(ks)[k]],
    {
        let p: usize = order[i];
        assert(order@[i as int] as int == sort_order(ks)[i as int]);
        out.push(v[p].copy());
    }
    assert(run_views(out@) =~= arranged(all, sort_order(ks)));
    out
}

/// The store with its runs.
pub open spec fn store_json(v: Seq<RunView>, workspace: Seq<char>, now: u64) -> Json {
    crate::json::record(
        seq![
            ("version"@, Json::UInt(1)),
            ("workspace_id"@, Json::Str(workspace)),
            ("updated"@, Json::UInt(now)),
            ("runs"@, Json::Array(kept_runs(v).map_values(|r: RunView| run_json(r)))),
        ],
    )
}

/// The document that keeps runs.
pub fn save_all(v: &Vec<Run>, workspace: &str, now: u64) -> (r: Datum)
    ensures
        r@ == store_json(run_views(v@), workspace@, now),
{
    let ghost all = run_views(v@);
    let mut items: Vec<Datum> = Vec::new();
    if v.len() > MAX_RUNS {
        let sorted = sort_runs(v, false);
        let drop: usize = sorted.len() - MAX_RUNS;
        let ghost sv = by_age(all);
        for i in drop..sorted.len()
            invariant
                drop == sorted@.len() - MAX_RUNS,
                sv == run_views(sorted@),
                items@.len() == i - drop,
                forall|k: int|
                    0 <= k < items@.len() ==> (#[trigger] items@[k])@ == run_json(sv[drop + k]),
        {
            assert(sv[i as int] == sorted@[i as int]@);
            items.push(run_to_value(&sorted[i]));
        }
        assert(crate::json::views(items@) =~= kept_runs(all).map_values(
            |r: RunView| run_json(r),
        ));
    } else {
        for i in 0..v.len()
            invariant
                all == run_views(v@),
                items@.len() == i,
                forall|k: int| 0 <= k < i ==> (#[trigger] items@[k])@ == run_json(all[k]),
        {
            assert(all[i as int] == v@[i as int]@);
            items.push(run_to_value(&v[i]));
        }
        assert(crate::json::views(items@) =~= kept_runs(all).map_values(
            |r: RunView| run_json(r),
        ));
    }
    let list = array(items);
    let ghost lv = list@;
    let mut ms = no_members();
    add_member(&mut ms, "version", Datum::UInt(1));
    add_member(&mut ms, "workspace_id", str_value(workspace));
    add_member(&mut ms, "updated", Datum::UInt(now));
    add_member(&mut ms, "runs", list);
    assert(crate::json::members(ms@) =~= seq![
        ("version"@, Json::UInt(1)),
        ("workspace_id"@, Json::Str(workspace@)),
        ("updated"@, Json::UInt(now)),
        ("runs"@, lv),
    ]);
    build(ms)
}

// ---------------------------------------------------------------------------
// Recording

/// Whether a status is known.
pub open spec fn known_status(s: Seq<char>) -> bool {
    s == "running"@ || s == "passed"@ || s == "failed"@ || s == "cancelled"@
}

pub open spec fn status_verdict(s: Seq<char>) -> Result<(), Seq<char>> {
    if known_status(s) {
        Ok(())
    } else {
        Err(
            "unknown status "@ + quoted(s)
                + "; use running, passed, failed, or cancelled"@,
        )
    }
}

pub fn validate_status(s: &str) -> (r: Result<(), String>)
    ensures
        verdict(r) == status_verdict(s@),
{
    if same(s, "running") || same(s, "passed") || same(s, "failed") || same(s, "cancelled") {
        Ok(())
    } else {
        let mut e = copy("unknown status ");
        e.append(quote(s).as_str());
        e.append("; use running, passed, failed, or cancelled");
        Err(e)
    }
}

pub open spec fn run_from(v: Seq<RunView>, id: Seq<char>, k: int) -> Option<int>
    decreases v.len() - k,
{
    if k < 0 || k >= v.len() {
        None
    } else if v[k].id == id {
        Some(k)
    } else {
        run_from(v, id, k + 1)
    }
}

/// What is reported of a run.
pub open spec fn reported(args: Json, id: Seq<char>, now: u64) -> RunView {
    RunView {
        id,
        command: text_at(args, "command"@)->Some_0,
        status: status_in(args),
        exit_code: as_i64(crate::json::get(args, "exit_code"@)),
        duration_ms: as_u64(crate::json::get(args, "duration_ms"@)),
        summary: match text_at(args, "summary"@) {
            Some(s) => s,
            None => ""@,
        },
        log_path: text_at(args, "log_path"@),
        key_failures: texts_at(args, "key_failures"@),
        artifacts: texts_at(args, "artifacts"@),
        tags: texts_at(args, "tags"@),
        defect_ids: texts_at(args, "defect_ids"@),
        created: now,
        updated: now,
    }
}

pub open spec fn status_in(args: Json) -> Seq<char> {
    match text_at(args, "status"@) {
        Some(s) => s,
        None => "running"@,
    }
}

pub open spec fn either<T>(new: Option<T>, old: Option<T>) -> Option<T> {
    if new is Some {
        new
    } else {
        old
    }
}

pub open spec fn filled<T>(new: Seq<T>, old: Seq<T>) -> Seq<T> {
    if new.len() > 0 {
        new
    } else {
        old
    }
}

/// An earlier record with what is reported now. What is not reported stays.
pub open spec fn updated_run(old: RunView, new: RunView) -> RunView {
    RunView {
        id: old.id,
        command: new.command,
        status: new.status,
        exit_code: either(new.exit_code, old.exit_code),
        duration_ms: either(new.duration_ms, old.duration_ms),
        summary: filled(new.summary, old.summary),
        log_path: either(new.log_path, old.log_path),
        key_failures: filled(new.key_failures, old.key_failures),
        artifacts: filled(new.artifacts, old.artifacts),
        tags: filled(new.tags, old.tags),
        defect_ids: filled(new.defect_ids, old.defect_ids),
        created: old.created,
        updated: new.updated,
    }
}

/// The runs with one more report.
pub open spec fn with_report(v: Seq<RunView>, new: RunView) -> Seq<RunView> {
    match run_from(v, new.id, 0) {
        Some(k) => v.update(k, updated_run(v[k], new)),
        None => v.push(new),
    }
}

pub open spec fn run_id(args: Json, now: u64) -> Seq<char> {
    match text_at(args, "id"@) {
        Some(id) => id,
        None => "run-"@ + dec(now as nat),
    }
}

/// What a report comes to: the runs and the answer.
pub open spec fn recorded(v: Seq<RunView>, args: Json, now: u64) -> Result<
    (Seq<RunView>, Seq<char>),
    Seq<char>,
> {
    match required_at(args, "command"@) {
        Err(e) => Err(e),
        Ok(command) => match status_verdict(status_in(args)) {
            Err(e) => Err(e),
            Ok(_) => {
                let id = run_id(args, now);
                let new = reported(args, id, now);
                Ok(
                    (
                        with_report(v, new),
                        "run_record - "@ + (if run_from(v, id, 0) is Some {
                            "updated"@
                        } else {
                            "created"@
                        }) + " "@ + id + " status="@ + new.status + " cmd="@ + quoted(command),
                    ),
                )
            },
        },
    }
}

pub open spec fn recorded_view(r: Result<(Vec<Run>, String), String>) -> Result<
    (Seq<RunView>, Seq<char>),
    Seq<char>,
> {
    match r {
        Ok(p) => Ok((run_views(p.0@), p.1@)),
        Err(e) => Err(e@),
    }
}

fn find_run(v: &Vec<Run>, id: &str) -> (r: Option<usize>)
    ensures
        crate::syntax::place(r) == run_from(run_views(v@), id@, 0),
        r matches Some(k) ==> k < v@.len(),
{
    for k in 0..v.len()
        invariant
            run_from(run_views(v@), id@, 0) == run_from(run_views(v@), id@, k as int),
    {
        assert(run_views(v@)[k as int] == v@[k as int]@);
        if same(v[k].id.as_str(), id) {
            return Some(k);
        }
    }
    None
}

fn merge_lists(new: Vec<String>, old: &Vec<String>) -> (r: Vec<String>)
    ensures
        strs(r@) == filled(strs(new@), strs(old@)),
{
    assert(strs(new@).len() == new@.len());
    if new.len() > 0 {
        new
    } else {
        copy_all(old)
    }
}

fn merge_run(old: &Run, new: Run) -> (r: Run)
    ensures
        r@ == updated_run(old@, new@),
{
    let ghost nv = new@;
    let summary: String = if is_blank(new.summary.as_str()) {
        copy(old.summary.as_str())
    } else {
        new.summary
    };
    Run {
        id: copy(old.id.as_str()),
        command: new.command,
        status: new.status,
        exit_code: if new.exit_code.is_some() {
            new.exit_code
        } else {
            old.exit_code
        },
        duration_ms: if new.duration_ms.is_some() {
            new.duration_ms
        } else {
            old.duration_ms
        },
        summary,
        log_path: match new.log_path {
            Some(p) => Some(p),
            None => copy_opt(&old.log_path),
        },
        key_failures: merge_lists(new.key_failures, &old.key_failures),
        artifacts: merge_lists(new.artifacts, &old.artifacts),
        tags: merge_lists(new.tags, &old.tags),
        defect_ids: merge_lists(new.defect_ids, &old.defect_ids),
        created: old.created,
        updated: new.updated,
    }
}

/// Records what is reported of a run: the runs and the answer.
pub fn record(runs: Vec<Run>, args: &Datum, now: u64) -> (r: Result<
    (Vec<Run>, String),
    String,
>)
    ensures
        recorded_view(r) == recorded(run_views(runs@), args@, now),
{
    let command: String = match required_str(args, "command") {
        Ok(c) => c,
        Err(e) => {
            return Err(e);
        },
    };
    let status: String = match optional_str(args, "status") {
        Some(s) => s,
        None => copy("running"),
    };
    if let Err(e) = validate_status(status.as_str()) {
        return Err(e);
    }
    let id: String = match optional_str(args, "id") {
        Some(s) => s,
        None => {
            let mut s = copy("run-");
            s.append(decimal(now).as_str());
            s
        },
    };
    let summary: String = match optional_str(args, "summary") {
        Some(s) => s,
        None => copy(""),
    };
    let new = Run {
        id: copy(id.as_str()),
        command: copy(command.as_str()),
        status: copy(status.as_str()),
        exit_code: get_i64(args, "exit_code"),
        duration_ms: get_u64(args, "duration_ms"),
        summary,
        log_path: optional_str(args, "log_path"),
        key_failures: string_array(args, "key_failures"),
        artifacts: string_array(args, "artifacts"),
        tags: string_array(args, "tags"),
        defect_ids: string_array(args, "defect_ids"),
        created: now,
        updated: now,
    };
    assert(new@ == reported(args@, id@, now));
    let ghost all = run_views(runs@);
    let mut v = runs;
    let found = find_run(&v, id.as_str());
    match found {
        Some(k) => {
            let old = v.remove(k);
            assert(old@ == all[k as int]);
            let m = merge_run(&old, new);
            let ghost mv = m@;
            v.insert(k, m);
            assert(run_views(v@) =~= all.update(k as int, mv));
        },
        None => {
            let ghost nv = new@;
            v.push(new);
            assert(run_views(v@) =~= all.push(nv));
        },
    }
    let mut t = copy("run_record - ");
    t.append(
        if found.is_some() {
            "updated"
        } else {
            "created"
        },
    );
    t.append(" ");
    t.append(id.as_str());
    t.append(" status=");
    t.append(status.as_str());
    t.append(" cmd=");
    t.append(quote(command.as_str()).as_str());
    Ok((v, t))
}

// ---------------------------------------------------------------------------
// Looking back

/// The first runs of a list.
pub open spec fn firsts(v: Seq<RunView>, limit: nat) -> Seq<RunView> {
    if v.len() > limit {
        v.take(limit as int)
    } else {
        v
    }
}

fn take_runs(v: Vec<Run>, limit: u64) -> (r: Vec<Run>)
    ensures
        run_views(r@) == firsts(run_views(v@), limit as nat),
{
    let mut v = v;
    let ghost all = run_views(v@);
    if v.len() as u64 > limit {
        v.truncate(limit as usize);
        assert(run_views(v@) =~= all.take(limit as int));
    }
    v
}

/// The runs updated last.
pub fn recent(runs: &Vec<Run>, limit: u64) -> (r: Vec<Run>)
    ensures
        run_views(r@) == firsts(newest_first(run_views(runs@)), limit as nat),
{
    take_runs(sort_runs(runs, true), limit)
}

pub open spec fn failed() -> spec_fn(RunView) -> bool {
    |r: RunView| r.status == "failed"@
}

/// The failed runs updated last.
pub fn recent_failed(runs: &Vec<Run>, limit: u64) -> (r: Vec<Run>)
    ensures
        run_views(r@) == firsts(newest_first(run_views(runs@).filter(failed())), limit as nat),
{
    let ghost all = run_views(runs@);
    let mut some: Vec<Run> = Vec::new();
    proof {
        reveal(Seq::filter);
        assert(all.take(0) =~= Seq::<RunView>::empty());
        assert(run_views(some@) =~= all.take(0).filter(failed()));
    }
    for i in 0..runs.len()
        invariant
            all == run_views(runs@),
            run_views(some@) == all.take(i as int).filter(failed()),
    {
        proof {
            assert(all.take(i + 1) =~= all.take(i as int).push(all[i as int]));
            all.take(i as int).lemma_filter_push(all[i as int], failed());
        }
        assert(all[i as int] == runs@[i as int]@);
        if same(runs[i].status.as_str(), "failed") {
            let ghost before = some@;
            let r = runs[i].copy();
            some.push(r);
            assert(run_views(some@) =~= run_views(before).push(r@));
        }
    }
    assert(all.take(all.len() as int) =~= all);
    take_runs(sort_runs(&some, true), limit)
}

/// The run with an id.
pub fn get(runs: &Vec<Run>, id: &str) -> (r: Option<Run>)
    ensures
        opt_run(r) == (match run_from(run_views(runs@), id@, 0) {
            Some(k) => Some(run_views(runs@)[k]),
            None => None,
        }),
{
    match find_run(runs, id) {
        Some(k) => Some(runs[k].copy()),
        None => None,
    }
}

// ---------------------------------------------------------------------------
// History

/// Whether a run has the status and the tag asked for, whatever the case.
pub open spec fn matching(status: Option<Seq<char>>, tag: Option<Seq<char>>) -> spec_fn(
    RunView,
) -> bool {
    |r: RunView|
        (match status {
            Some(s) => lowered(r.status) == lowered(s),
            None => true,
        }) && (match tag {
            Some(t) => crate::test_map::tag_among(r.tags, t),
            None => true,
        })
}

pub open spec fn history_keys(v: Seq<RunView>) -> Seq<KeyView> {
    Seq::new(
        v.len(),
        |i: int|
            KeyView {
                rank: v[i].updated,
                name: v[i].id,
                number: (u64::MAX - i) as u64,
                at: i as nat,
            },
    )
}

/// Runs from the one updated last; of two updated at once, the greater id first.
pub open spec fn history_order(v: Seq<RunView>) -> Seq<RunView> {
    arranged(v, sort_order(history_keys(v)).reverse())
}

/// What is missing of what a run left behind.
pub open spec fn flags_of(r: RunView, missing: Seq<Seq<char>>, n: nat) -> Seq<Seq<char>>
    decreases n,
{
    if n == 0 {
        match r.log_path {
            Some(l) => if among(missing, l) {
                seq!["missing log: "@ + l]
            } else {
                Seq::empty()
            },
            None => Seq::empty(),
        }
    } else {
        let rest = flags_of(r, missing, (n - 1) as nat);
        if among(missing, r.artifacts[n - 1]) {
            rest.push("missing artifact: "@ + r.artifacts[n - 1])
        } else {
            rest
        }
    }
}

pub open spec fn failure_rows(v: Seq<Seq<char>>, n: nat) -> Seq<char>
    decreases n,
{
    if n == 0 {
        ""@
    } else {
        failure_rows(v, (n - 1) as nat) + "    - "@ + v[n - 1] + "\n"@
    }
}

pub open spec fn few(n: nat, cap: nat) -> nat {
    if n > cap {
        cap
    } else {
        n
    }
}

/// A list behind a label, where it is not empty.
pub open spec fn labelled(label: Seq<char>, v: Seq<Seq<char>>, sep: Seq<char>) -> Seq<char> {
    if v.len() > 0 {
        label + joined(v, sep) + "\n"@
    } else {
        ""@
    }
}

/// What the history shows of a run.
pub open spec fn run_text(r: RunView, missing: Seq<Seq<char>>) -> Seq<char> {
    "\n["@ + r.status + "] "@ + r.id + " — "@ + dec(r.updated as nat) + "\n  command: "@ + r.command
        + "\n"@ + (match r.exit_code {
        Some(c) => "  exit_code: "@ + dec_int(c as int) + "\n"@,
        None => ""@,
    }) + (match r.duration_ms {
        Some(n) => "  duration_ms: "@ + dec(n as nat) + "\n"@,
        None => ""@,
    }) + (if r.summary.len() > 0 {
        "  summary: "@ + r.summary + "\n"@
    } else {
        ""@
    }) + (match r.log_path {
        Some(l) => "  log: "@ + l + "\n"@,
        None => ""@,
    }) + (if r.key_failures.len() > 0 {
        "  key_failures:\n"@ + failure_rows(r.key_failures, few(r.key_failures.len(), 5))
    } else {
        ""@
    }) + labelled("  artifacts: "@, r.artifacts, ", "@) + labelled("  tags: "@, r.tags, ", "@)
        + labelled("  defects: "@, r.defect_ids, ", "@) + labelled(
        "  warnings: "@,
        flags_of(r, missing, r.artifacts.len()),
        "; "@,
    )
}

pub open spec fn history_rows(v: Seq<RunView>, missing: Seq<Seq<char>>, n: nat) -> Seq<char>
    decreases n,
{
    if n == 0 {
        ""@
    } else {
        history_rows(v, missing, (n - 1) as nat) + run_text(v[n - 1], missing)
    }
}

/// The history that the arguments ask for, given the paths that are missing.
pub open spec fn history_text(v: Seq<RunView>, args: Json, missing: Seq<Seq<char>>) -> Seq<char> {
    let some = v.filter(matching(text_at(args, "status"@), text_at(args, "tag"@)));
    let shown = firsts(history_order(some), one_or_more(u64_or(args, "limit"@, 20)) as nat);
    "run_history - "@ + dec(shown.len()) + " run(s)\n"@ + history_rows(shown, missing, shown.len())
        + (if shown.len() == 0 {
        "\n(no matching runs)\n"@
    } else {
        ""@
    })
}

pub fn make_labelled(label: &str, v: &Vec<String>, sep: &str) -> (r: String)
    ensures
        r@ == labelled(label@, strs(v@), sep@),
{
    assert(strs(v@).len() == v@.len());
    if v.len() > 0 {
        let mut t = copy(label);
        t.append(join(v, sep).as_str());
        t.append("\n");
        t
    } else {
        copy("")
    }
}

fn missing_flags(r: &Run, missing: &Vec<String>) -> (f: Vec<String>)
    ensures
        strs(f@) == flags_of(r@, strs(missing@), r@.artifacts.len()),
{
    let mut out = crate::text::no_strings();
    let ghost mv = strs(missing@);
    if let Some(l) = &r.log_path {
        if is_among(missing, l.as_str()) {
            let mut t = copy("missing log: ");
            t.append(l.as_str());
            let ghost tv = t@;
            add_line(&mut out, t);
            assert(strs(out@) =~= seq![tv]);
        }
    }
    assert(r@.artifacts.len() == r.artifacts@.len());
    for i in 0..r.artifacts.len()
        invariant
            mv == strs(missing@),
            strs(out@) == flags_of(r@, mv, i as nat),
    {
        assert(r@.artifacts[i as int] == r.artifacts@[i as int]@);
        if is_among(missing, r.artifacts[i].as_str()) {
            let mut t = copy("missing artifact: ");
            t.append(r.artifacts[i].as_str());
            add_line(&mut out, t);
        }
    }
    out
}

fn make_failures(v: &Vec<String>) -> (r: String)
    ensures
        r@ == (if strs(v@).len() > 0 {
            "  key_failures:\n"@ + failure_rows(strs(v@), few(strs(v@).len(), 5))
        } else {
            ""@
        }),
{
    assert(strs(v@).len() == v@.len());
    if v.len() == 0 {
        return copy("");
    }
    let n: usize = if v.len() > 5 {
        5
    } else {
        v.len()
    };
    let mut rows = copy("");
    for i in 0..n
        invariant
            n <= v@.len(),
            rows@ == failure_rows(strs(v@), i as nat),
    {
        assert(strs(v@)[i as int] == v@[i as int]@);
        rows.append("    - ");
        rows.append(v[i].as_str());
        rows.append("\n");
    }
    let mut t = copy("  key_failures:\n");
    t.append(rows.as_str());
    t
}

fn make_run_text(r: &Run, missing: &Vec<String>) -> (s: String)
    ensures
        s@ == run_text(r@, strs(missing@)),
{
    let mut t = copy("\n[");
    t.append(r.status.as_str());
    t.append("] ");
    t.append(r.id.as_str());
    t.append(" — ");
    t.append(decimal(r.updated).as_str());
    t.append("\n  command: ");
    t.append(r.command.as_str());
    t.append("\n");
    let code: String = match r.exit_code {
        Some(c) => {
            let mut m = copy("  exit_code: ");
            m.append(decimal_int(c).as_str());
            m.append("\n");
            m
        },
        None => copy(""),
    };
    t.append(code.as_str());
    let ms: String = match r.duration_ms {
        Some(n) => {
            let mut m = copy("  duration_ms: ");
            m.append(decimal(n).as_str());
            m.append("\n");
            m
        },
        None => copy(""),
    };
    t.append(ms.as_str());
    let mut summary = copy("");
    if !is_blank(r.summary.as_str()) {
        summary = copy("  summary: ");
        summary.append(r.summary.as_str());
        summary.append("\n");
    }
    t.append(summary.as_str());
    let log: String = match &r.log_path {
        Some(l) => {
            let mut m = copy("  log: ");
            m.append(l.as_str());
            m.append("\n");
            m
        },
        None => copy(""),
    };
    t.append(log.as_str());
    t.append(make_failures(&r.key_failures).as_str());
    t.append(make_labelled("  artifacts: ", &r.artifacts, ", ").as_str());
    t.append(make_labelled("  tags: ", &r.tags, ", ").as_str());
    t.append(make_labelled("  defects: ", &r.defect_ids, ", ").as_str());
    let flags = missing_flags(r, missing);
    t.append(make_labelled("  warnings: ", &flags, "; ").as_str());
    t
}

fn is_matching(r: &Run, status: &Option<String>, tag: &Option<String>) -> (b: bool)
    ensures
        b == matching(opt_text(*status), opt_text(*tag))(r@),
{
    let a: bool = match status {
        Some(s) => {
            let x = lower_ascii(r.status.as_str());
            let y = lower_ascii(s.as_str());
            same(x.as_str(), y.as_str())
        },
        None => true,
    };
    let b: bool = match tag {
        Some(t) => crate::test_map::is_tag_among(&r.tags, t.as_str()),
        None => true,
    };
    a && b
}

fn order_history(v: &Vec<Run>) -> (r: Vec<Run>)
    ensures
        run_views(r@) == history_order(run_views(v@)),
{
    let ghost all = run_views(v@);
    let ghost ks = history_keys(all);
    let mut keys: Vec<Key> = Vec::new();
    for i in 0..v.len()
        invariant
            all == run_views(v@),
            ks == history_keys(all),
            keys@.len() == i,
            forall|k: int| 0 <= k < i ==> (#[trigger] keys@[k])@ == ks[k],
    {
        keys.push(
            Key {
                rank: v[i].updated,
                name: copy(v[i].id.as_str()),
                number: u64::MAX - i as u64,
                at: i,
            },
        );
    }
    assert(key_views(keys@) =~= ks);
    assert(positioned(key_views(keys@)));
    let order = sort(keys);
    let ghost back = sort_order(ks).reverse();
    let mut out: Vec<Run> = Vec::new();
    let n: usize = order.len();
    for i in 0..n
        invariant
            all == run_views(v@),
            n == order@.len(),
            back == sort_order(ks).reverse(),
            sort_order(ks).len() == n,
            out@.len() == i,
            forall|k: int|
                0 <= k < order@.len() ==> (#[trigger] order@[k] as int) == sort_order(ks)[k]
                    && order@[k] < v@.len(),
            forall|k: int| 0 <= k < i ==> (#[trigger] out@[k])@ == all[back[k]],
    {
        let p: usize = order[n - 1 - i];
        assert(order@[n - 1 - i] as int == sort_order(ks)[n - 1 - i]);
        assert(back[i as int] == sort_order(ks)[n - 1 - i]);
        out.push(v[p].copy());
    }
    assert(run_views(out@) =~= arranged(all, back));
    out
}

/// The history that the arguments ask for. `missing` holds the paths that runs name
/// and that do not exist.
pub fn history(runs: &Vec<Run>, args: &Datum, missing: &Vec<String>) -> (r: String)
    ensures
        r@ == history_text(run_views(runs@), args@, strs(missing@)),
{
    let status = optional_str(args, "status");
    let tag = optional_str(args, "tag");
    let ghost keep = matching(opt_text(status), opt_text(tag));
    let ghost all = run_views(runs@);
    let limit: u64 = number_or(args, "limit", 20);
    let limit: u64 = if limit > 1 {
        limit
    } else {
        1
    };
    let mut some: Vec<Run> = Vec::new();
    proof {
        reveal(Seq::filter);
        assert(all.take(0) =~= Seq::<RunView>::empty());
        assert(run_views(some@) =~= all.take(0).filter(keep));
    }
    for i in 0..runs.len()
        invariant
            all == run_views(runs@),
            keep == matching(opt_text(status), opt_text(tag)),
            run_views(some@) == all.take(i as int).filter(keep),
    {
        proof {
            assert(all.take(i + 1) =~= all.take(i as int).push(all[i as int]));
            all.take(i as int).lemma_filter_push(all[i as int], keep);
        }
        assert(all[i as int] == runs@[i as int]@);
        if is_matching(&runs[i], &status, &tag) {
            let ghost before = some@;
            let r = runs[i].copy();
            some.push(r);
            assert(run_views(some@) =~= run_views(before).push(r@));
        }
    }
    assert(all.take(all.len() as int) =~= all);
    let shown = take_runs(order_history(&some), limit);
    let ghost sv = run_views(shown@);
    assert(sv.len() == shown@.len());
    let mut t = copy("run_history - ");
    t.append(decimal(shown.len() as u64).as_str());
    t.append(" run(s)\n");
    let mut rows = copy("");
    for i in 0..shown.len()
        invariant
            sv == run_views(shown@),
            rows@ == history_rows(sv, strs(missing@), i as nat),
    {
        assert(sv[i as int] == shown@[i as int]@);
        rows.append(make_run_text(&shown[i], missing).as_str());
    }
    t.append(rows.as_str());
    t.append(
        if shown.len() == 0 {
            "\n(no matching runs)\n"
        } else {
            ""
        },
    );
    t
}

// ---------------------------------------------------------------------------
// The command line

/// What a command line comes to.
pub enum CliArgs {
    /// The usage is asked for.
    Help,
    /// It cannot be used: why.
    Bad(String),
    Report(Datum),
}

/// The values of a [`CliArgs`].
pub enum CliArgsView {
    Help,
    Bad(Seq<char>),
    Report(Json),
}

impl View for CliArgs {
    type V = CliArgsView;

    open spec fn view(&self) -> CliArgsView {
        match *self {
            CliArgs::Help => CliArgsView::Help,
            CliArgs::Bad(e) => CliArgsView::Bad(e@),
            CliArgs::Report(d) => CliArgsView::Report(d@),
        }
    }
}

/// The member that a flag sets, and whether it adds to a list.
pub open spec fn flag_key(a: Seq<char>) -> Option<(Seq<char>, bool)> {
    if a == "--id"@ {
        Some(("id"@, false))
    } else if a == "--command"@ || a == "-c"@ {
        Some(("command"@, false))
    } else if a == "--status"@ || a == "-s"@ {
        Some(("status"@, false))
    } else if a == "--exit-code"@ {
        Some(("exit_code"@, false))
    } else if a == "--duration-ms"@ {
        Some(("duration_ms"@, false))
    } else if a == "--summary"@ {
        Some(("summary"@, false))
    } else if a == "--log"@ {
        Some(("log_path"@, false))
    } else if a == "--tag"@ {
        Some(("tags"@, true))
    } else if a == "--artifact"@ {
        Some(("artifacts"@, true))
    } else if a == "--defect"@ {
        Some(("defect_ids"@, true))
    } else if a == "--failure"@ {
        Some(("key_failures"@, true))
    } else {
        None
    }
}

fn find_flag_key(a: &str) -> (r: Option<(&'static str, bool)>)
    ensures
        match r {
            Some(p) => flag_key(a@) == Some((p.0@, p.1)),
            None => flag_key(a@) is None,
        },
{
    if same(a, "--id") {
        Some(("id", false))
    } else if same(a, "--command") || same(a, "-c") {
        Some(("command", false))
    } else if same(a, "--status") || same(a, "-s") {
        Some(("status", false))
    } else if same(a, "--exit-code") {
        Some(("exit_code", false))
    } else if same(a, "--duration-ms") {
        Some(("duration_ms", false))
    } else if same(a, "--summary") {
        Some(("summary", false))
    } else if same(a, "--log") {
        Some(("log_path", false))
    } else if same(a, "--tag") {
        Some(("tags", true))
    } else if same(a, "--artifact") {
        Some(("artifacts", true))
    } else if same(a, "--defect") {
        Some(("defect_ids", true))
    } else if same(a, "--failure") {
        Some(("key_failures", true))
    } else {
        None
    }
}

/// The list at a member with one more text.
pub open spec fn with_item(args: Json, key: Seq<char>, val: Seq<char>) -> Json {
    let items = match crate::json::get(args, key) {
        Some(Json::Array(a)) => a,
        _ => Seq::empty(),
    };
    with_member(args, key, Json::Array(items.push(Json::Str(val))))
}

/// The arguments with the value of a flag; why not, where it is no number and has
/// to be one.
pub open spec fn with_flag(args: Json, key: Seq<char>, many: bool, val: Seq<char>) -> Result<
    Json,
    Seq<char>,
> {
    if many {
        Ok(with_item(args, key, val))
    } else if key == "exit_code"@ {
        match parsed_int(val) {
            Some(n) => Ok(with_member(args, key, crate::json::json_i64(n as i64))),
            None => Err("--exit-code must be an integer"@),
        }
    } else if key == "duration_ms"@ {
        match parsed(val, u64::MAX as nat) {
            Some(n) => Ok(with_member(args, key, Json::UInt(n as u64))),
            None => Err("--duration-ms must be an integer"@),
        }
    } else {
        Ok(with_member(args, key, Json::Str(val)))
    }
}

/// What the words from `k` on come to, behind the arguments read so far.
pub open spec fn cli_from(argv: Seq<Seq<char>>, args: Json, k: int) -> CliArgsView
    decreases argv.len() - k,
{
    if k < 0 || k >= argv.len() {
        CliArgsView::Report(args)
    } else {
        let a = argv[k];
        match flag_key(a) {
            None => if a == "--help"@ || a == "-h"@ {
                CliArgsView::Help
            } else if starts(a, "-"@) {
                CliArgsView::Bad("unknown flag "@ + a)
            } else {
                cli_from(argv, args, k + 1)
            },
            Some((key, many)) => if k + 1 >= argv.len() {
                CliArgsView::Bad("missing value for "@ + a)
            } else {
                match with_flag(args, key, many, argv[k + 1]) {
                    Err(e) => CliArgsView::Bad(e),
                    Ok(next) => cli_from(argv, next, k + 2),
                }
            },
        }
    }
}

fn add_item(args: Datum, key: &str, val: &str) -> (r: Datum)
    requires
        ordered(args@),
    ensures
        r@ == with_item(args@, key@, val@),
        ordered(r@),
{
    let mut items: Vec<Datum> = Vec::new();
    assert(crate::json::views(items@) =~= Seq::<Json>::empty());
    let ghost had: Seq<Json> = match crate::json::get(args@, key@) {
        Some(Json::Array(a)) => a,
        _ => Seq::empty(),
    };
    if let Some(old) = get_items(&args, key) {
        for i in 0..old.len()
            invariant
                had == crate::json::views(old@),
                items@.len() == i,
                forall|k: int| 0 <= k < i ==> (#[trigger] items@[k])@ == had[k],
        {
            items.push(old[i].copy());
        }
        assert(crate::json::views(items@) =~= had);
    }
    let ghost before = items@;
    items.push(str_value(val));
    assert(crate::json::views(items@) =~= had.push(Json::Str(val@)));
    set_member(args, key, array(items))
}

pub open spec fn flag_outcome(r: Result<Datum, String>) -> Result<Json, Seq<char>> {
    match r {
        Ok(d) => Ok(d@),
        Err(e) => Err(e@),
    }
}

fn set_flag(args: Datum, key: &str, many: bool, val: &str) -> (r: Result<Datum, String>)
    requires
        ordered(args@),
    ensures
        flag_outcome(r) == with_flag(args@, key@, many, val@),
        r matches Ok(d) ==> ordered(d@),
{
    if many {
        Ok(add_item(args, key, val))
    } else if same(key, "exit_code") {
        match parse_i64(val) {
            Some(n) => Ok(set_member(args, key, crate::json::i64_value(n))),
            None => Err(copy("--exit-code must be an integer")),
        }
    } else if same(key, "duration_ms") {
        match parse_u64(val) {
            Some(n) => Ok(set_member(args, key, Datum::UInt(n))),
            None => Err(copy("--duration-ms must be an integer")),
        }
    } else {
        Ok(set_member(args, key, str_value(val)))
    }
}

/// Reads the command line of a report.
pub fn cli_args(argv: &Vec<String>) -> (r: CliArgs)
    ensures
        r@ == cli_from(strs(argv@), crate::json::record(Seq::empty()), 0),
{
    let ghost all = strs(argv@);
    let ms = no_members();
    let mut args = build(ms);
    let ghost want = cli_from(all, args@, 0);
    let mut k: usize = 0;
    while k < argv.len()
        invariant
            all == strs(argv@),
            k <= argv@.len(),
            ordered(args@),
            want == cli_from(all, args@, k as int),
            want == cli_from(strs(argv@), crate::json::record(Seq::empty()), 0),
        decreases argv@.len() - k,
    {
        assert(argv@.len() == argv.len());
        let a = argv[k].as_str();
        assert(all[k as int] == a@);
        match find_flag_key(a) {
            None => {
                if same(a, "--help") || same(a, "-h") {
                    return CliArgs::Help;
                }
                if starts_with(a, "-") {
                    let mut e = copy("unknown flag ");
                    e.append(a);
                    return CliArgs::Bad(e);
                }
                k = k + 1;
            },
            Some((key, many)) => {
                if argv.len() - k < 2 {
                    let mut e = copy("missing value for ");
                    e.append(a);
                    return CliArgs::Bad(e);
                }
                assert(all[k + 1] == argv@[k + 1]@);
                match set_flag(args, key, many, argv[k + 1].as_str()) {
                    Err(e) => {
                        return CliArgs::Bad(e);
                    },
                    Ok(next) => {
                        args = next;
                    },
                }
                k = k + 2;
            },
        }
    }
    CliArgs::Report(args)
}

// ---------------------------------------------------------------------------
// Laws

/// The store never holds more runs than are kept.
pub proof fn law_store_is_bounded(v: Seq<RunView>)
    ensures
        kept_runs(v).len() <= MAX_RUNS,
{
    if v.len() > MAX_RUNS {
        crate::order::lemma_sort_order(age_keys(v));
    }
}

/// A report on a run leaves every other run as it was, and the run is there
/// afterwards under its id with the status reported.
pub proof fn law_report_changes_one_run(v: Seq<RunView>, new: RunView)
    ensures
        run_from(with_report(v, new), new.id, 0) matches Some(k) && with_report(v, new)[k].status
            == new.status,
        forall|i: int|
            0 <= i < v.len() && (#[trigger] v[i]).id != new.id ==> with_report(v, new)[i] == v[i],
{
    lemma_run_from(v, new.id, 0);
    match run_from(v, new.id, 0) {
        Some(k) => {
            lemma_run_from_update(v, new.id, 0, k, updated_run(v[k], new));
        },
        None => {
            lemma_run_from_push(v, new, 0);
        },
    }
}

proof fn lemma_run_from(v: Seq<RunView>, id: Seq<char>, k: int)
    requires
        0 <= k,
    ensures
        run_from(v, id, k) matches Some(p) ==> k <= p < v.len() && v[p].id == id,
    decreases v.len() - k,
{
    if k < v.len() && v[k].id != id {
        lemma_run_from(v, id, k + 1);
    }
}

proof fn lemma_run_from_update(v: Seq<RunView>, id: Seq<char>, k: int, p: int, r: RunView)
    requires
        0 <= k,
        run_from(v, id, k) == Some(p),
        r.id == id,
    ensures
        run_from(v.update(p, r), id, k) == Some(p),
    decreases v.len() - k,
{
    lemma_run_from(v, id, k);
    if v[k].id != id {
        lemma_run_from_update(v, id, k + 1, p, r);
    }
}

proof fn lemma_run_from_push(v: Seq<RunView>, r: RunView, k: int)
    requires
        0 <= k <= v.len(),
        run_from(v, r.id, k) is None,
    ensures
        run_from(v.push(r), r.id, k) == Some(v.len() as int),
    decreases v.len() - k,
{
    if k < v.len() {
        lemma_run_from_push(v, r, k + 1);
    }
}

/// A run that was read or reported: its texts carry no white space around them.
pub open spec fn tidy_run(r: RunView) -> bool {
    &&& r.log_path matches Some(l) ==> tidy_text(l)
    &&& tidy_texts(r.key_failures)
    &&& tidy_texts(r.artifacts)
    &&& tidy_texts(r.tags)
    &&& tidy_texts(r.defect_ids)
}

/// A run comes back from the store as it went in.
pub proof fn law_run_round_trip(r: RunView)
    requires
        tidy_run(r),
    ensures
        run_of(run_json(r)) == Some(r),
{
    let ms = run_fields(r) + run_lists(r);
    lemma_run_keys();
    assert forall|i: int, j: int| 0 <= i < j < ms.len() implies (#[trigger] ms[i]).0
        != (#[trigger] ms[j]).0 by {
        assert(ms[i].0 == run_keys()[i]);
        assert(ms[j].0 == run_keys()[j]);
    }
    assert forall|i: int| 0 <= i < 13 implies crate::json::get(run_json(r), (#[trigger] ms[i]).0) == Some(
        ms[i].1,
    ) by {
        crate::json::lemma_record_get(ms, i);
    }
    assert(crate::json::get(run_json(r), ms[0].0) == Some(ms[0].1));
    assert(crate::json::get(run_json(r), ms[1].0) == Some(ms[1].1));
    assert(crate::json::get(run_json(r), ms[2].0) == Some(ms[2].1));
    assert(crate::json::get(run_json(r), ms[3].0) == Some(ms[3].1));
    assert(crate::json::get(run_json(r), ms[4].0) == Some(ms[4].1));
    assert(crate::json::get(run_json(r), ms[5].0) == Some(ms[5].1));
    assert(crate::json::get(run_json(r), ms[6].0) == Some(ms[6].1));
    assert(crate::json::get(run_json(r), ms[7].0) == Some(ms[7].1));
    assert(crate::json::get(run_json(r), ms[8].0) == Some(ms[8].1));
    assert(crate::json::get(run_json(r), ms[9].0) == Some(ms[9].1));
    assert(crate::json::get(run_json(r), ms[10].0) == Some(ms[10].1));
    assert(crate::json::get(run_json(r), ms[11].0) == Some(ms[11].1));
    assert(crate::json::get(run_json(r), ms[12].0) == Some(ms[12].1));
    lemma_list_back(run_json(r), "key_failures"@, r.key_failures);
    lemma_list_back(run_json(r), "artifacts"@, r.artifacts);
    lemma_list_back(run_json(r), "tags"@, r.tags);
    lemma_list_back(run_json(r), "defect_ids"@, r.defect_ids);
}

/// The list of tidy texts at a member is read as it was stored.
pub proof fn lemma_list_back(j: Json, key: Seq<char>, v: Seq<Seq<char>>)
    requires
        crate::json::get(j, key) == Some(json_strs(v)),
        tidy_texts(v),
    ensures
        texts_at(j, key) == v,
{
    crate::json::lemma_texts_of_strs(v);
    assert(Seq::new(v.len(), |i: int| Json::Str(v[i])) =~= v.map_values(
        |s: Seq<char>| Json::Str(s),
    ));
    crate::args::lemma_tidy_names(v, v.len());
    assert(v.take(v.len() as int) =~= v);
}

pub open spec fn run_keys() -> Seq<Seq<char>> {
    seq![
        "id"@,
        "command"@,
        "status"@,
        "exit_code"@,
        "duration_ms"@,
        "summary"@,
        "log_path"@,
        "key_failures"@,
        "artifacts"@,
        "tags"@,
        "defect_ids"@,
        "created"@,
        "updated"@,
    ]
}

proof fn lemma_run_keys()
    ensures
        forall|i: int, j: int|
            0 <= i < j < run_keys().len() ==> (#[trigger] run_keys()[i]) != (
            #[trigger] run_keys()[j]),
{
    reveal_strlit("id");
    reveal_strlit("command");
    reveal_strlit("status");
    reveal_strlit("exit_code");
    reveal_strlit("duration_ms");
    reveal_strlit("summary");
    reveal_strlit("log_path");
    reveal_strlit("key_failures");
    reveal_strlit("artifacts");
    reveal_strlit("tags");
    reveal_strlit("defect_ids");
    reveal_strlit("created");
    reveal_strlit("updated");
    assert("id"@.len() == 2);
    assert("command"@.len() == 7 && "command"@[0] == 'c' && "command"@[1] == 'o');
    assert("status"@.len() == 6);
    assert("exit_code"@.len() == 9 && "exit_code"@[0] == 'e');
    assert("duration_ms"@.len() == 11);
    assert("summary"@.len() == 7 && "summary"@[0] == 's');
    assert("log_path"@.len() == 8);
    assert("key_failures"@.len() == 12);
    assert("artifacts"@.len() == 9 && "artifacts"@[0] == 'a');
    assert("tags"@.len() == 4);
    assert("defect_ids"@.len() == 10);
    assert("created"@.len() == 7 && "created"@[0] == 'c' && "created"@[1] == 'r');
    assert("updated"@.len() == 7 && "updated"@[0] == 'u');
}

/// Of two runs the one updated later comes first.
pub proof fn law_newest_runs_come_first(v: Seq<RunView>, i: int, j: int)
    requires
        0 <= i < j < v.len(),
    ensures
        newest_first(v).len() == v.len(),
        newest_first(v)[i].updated >= newest_first(v)[j].updated,
{
    let ks = newest_keys(v);
    crate::order::lemma_sort_order(ks);
    let p = sort_order(ks)[i];
    let q = sort_order(ks)[j];
    assert(!crate::order::key_lt(ks[q], ks[p]));
}

/// Runs from newest to oldest with one more, behind those that are as new.
spec fn with_run(s: Seq<RunView>, r: RunView) -> Seq<RunView>
    decreases s.len(),
{
    if s.len() == 0 {
        seq![r]
    } else if s.last().updated >= r.updated {
        s.push(r)
    } else {
        with_run(s.drop_last(), r).push(s.last())
    }
}

/// The runs at the positions of keys.
spec fn runs_at(v: Seq<RunView>, s: Seq<KeyView>) -> Seq<RunView> {
    Seq::new(s.len(), |i: int| v[s[i].at as int])
}

proof fn lemma_with_run(v: Seq<RunView>, r: RunView, s: Seq<KeyView>)
    requires
        forall|i: int|
            0 <= i < s.len() ==> (#[trigger] s[i]).at < v.len() && s[i] == newest_keys(
                v,
            )[s[i].at as int],
    ensures
        ({
            let all = v.push(r);
            let k = newest_keys(all)[v.len() as int];
            runs_at(all, crate::order::with_key(s, k)) == with_run(runs_at(v, s), r)
        }),
    decreases s.len(),
{
    let all = v.push(r);
    let k = newest_keys(all)[v.len() as int];
    if s.len() == 0 {
        assert(runs_at(all, crate::order::with_key(s, k)) =~= with_run(runs_at(v, s), r));
    } else {
        let last = s.last();
        assert(s[s.len() - 1].at < v.len());
        assert(last == newest_keys(v)[last.at as int]);
        let front = s.drop_last();
        assert forall|i: int| 0 <= i < front.len() implies (#[trigger] front[i]).at < v.len()
            && front[i] == newest_keys(v)[front[i].at as int] by {
            assert(s[i].at < v.len());
        }
        assert(runs_at(v, s).drop_last() =~= runs_at(v, front));
        assert(runs_at(v, s).last() == v[last.at as int]);
        if crate::order::key_le()(last, k) {
            assert(runs_at(all, s.push(k)) =~= runs_at(v, s).push(r)) by {
                assert forall|i: int| 0 <= i < s.len() implies all[(#[trigger] s[i]).at as int]
                    == v[s[i].at as int] by {}
            }
        } else {
            lemma_with_run(v, r, front);
            let q = crate::order::with_key(front, k);
            assert(runs_at(all, q.push(last)) =~= runs_at(all, q).push(v[last.at as int]));
        }
    }
}

/// A run behind the others is sorted in behind those that are as new.
proof fn lemma_newest_push(v: Seq<RunView>, r: RunView)
    ensures
        newest_first(v.push(r)) == with_run(newest_first(v), r),
{
    let all = v.push(r);
    let ks = newest_keys(v);
    let k = newest_keys(all)[v.len() as int];
    assert(newest_keys(all) =~= ks.push(k));
    crate::order::lemma_sorted_push(ks, k);
    crate::order::lemma_sorted_positions(ks);
    let s = crate::order::sorted_keys(ks);
    assert forall|i: int| 0 <= i < s.len() implies (#[trigger] s[i]).at < v.len() && s[i]
        == newest_keys(v)[s[i].at as int] by {}
    lemma_with_run(v, r, s);
    assert(newest_first(v) =~= runs_at(v, s));
    assert(newest_first(all) =~= runs_at(all, crate::order::with_key(s, k)));
}

proof fn lemma_with_run_filtered(s: Seq<RunView>, r: RunView, f: spec_fn(RunView) -> bool)
    requires
        forall|i: int, j: int|
            0 <= i < j < s.len() ==> (#[trigger] s[i]).updated >= (#[trigger] s[j]).updated,
    ensures
        with_run(s, r).filter(f) == (if f(r) {
            with_run(s.filter(f), r)
        } else {
            s.filter(f)
        }),
    decreases s.len(),
{
    reveal(Seq::filter);
    if s.len() == 0 {
        assert(with_run(s, r) =~= s.push(r));
        s.lemma_filter_push(r, f);
        assert(s.filter(f) =~= Seq::empty());
        assert(s.filter(f).push(r) =~= seq![r]);
    } else if s.last().updated >= r.updated {
        s.lemma_filter_push(r, f);
        let t = s.filter(f);
        if t.len() > 0 {
            s.lemma_filter_contains_rev(f, t.last());
            let m = choose|m: int| 0 <= m < s.len() && s[m] == t.last();
            if m < s.len() - 1 {
                assert(s[m].updated >= s[s.len() - 1].updated);
            }
        } else {
            assert(t.push(r) =~= seq![r]);
        }
    } else {
        let front = s.drop_last();
        let last = s.last();
        assert forall|i: int, j: int| 0 <= i < j < front.len() implies (#[trigger] front[i]).updated
            >= (#[trigger] front[j]).updated by {
            assert(s[i].updated >= s[j].updated);
        }
        lemma_with_run_filtered(front, r, f);
        let q = with_run(front, r);
        q.lemma_filter_push(last, f);
        front.lemma_filter_push(last, f);
        assert(front.push(last) =~= s);
        let t = front.filter(f);
        if f(last) {
            assert(t.push(last).drop_last() =~= t);
        }
    }
}

/// The failed runs updated last are those that failed among all runs, newest first,
/// as many as are asked for.
pub proof fn law_recent_failed_are_recent(v: Seq<RunView>, limit: nat)
    ensures
        firsts(newest_first(v.filter(failed())), limit) == firsts(
            newest_first(v).filter(failed()),
            limit,
        ),
{
    lemma_newest_filtered(v, failed());
}

proof fn lemma_newest_filtered(v: Seq<RunView>, f: spec_fn(RunView) -> bool)
    ensures
        newest_first(v.filter(f)) == newest_first(v).filter(f),
    decreases v.len(),
{
    reveal(Seq::filter);
    if v.len() == 0 {
        assert(v.filter(f) =~= v);
        crate::order::lemma_sorted_positions(newest_keys(v));
        assert(newest_first(v) =~= v);
    } else {
        let front = v.drop_last();
        let r = v.last();
        lemma_newest_filtered(front, f);
        assert(front.push(r) =~= v);
        front.lemma_filter_push(r, f);
        lemma_newest_push(front, r);
        let s = newest_first(front);
        assert forall|i: int, j: int| 0 <= i < j < s.len() implies (#[trigger] s[i]).updated
            >= (#[trigger] s[j]).updated by {
            crate::order::lemma_sort_order(newest_keys(front));
            law_newest_runs_come_first(front, i, j);
        }
        lemma_with_run_filtered(s, r, f);
        if f(r) {
            lemma_newest_push(front.filter(f), r);
        }
    }
}

} // verus!
