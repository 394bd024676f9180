//! What is kept of runs, and what is shown of them.
use vstd::prelude::*;
use crate::args::{text_at, texts_at};
use crate::json::{as_i64, as_u64, u64_or, with_member, Json};
use crate::laws::lists::{lemma_arranged_items, lemma_contains_push};
use crate::laws::texts::{flat, lemma_flat_push};
use crate::order::{key_lt, lemma_sort_covers, lemma_sort_order, positioned, sort_order};
use crate::runs::{
    age_keys, by_age, cli_from, failure_rows, firsts, flags_of, history_keys, history_order,
    history_rows, history_text, kept_runs, matching, recorded, run_from, run_text, updated_run,
    with_report, CliArgsView, RunView,
};
use crate::text::{among, dec, dec_int, joined, lowered, parsed, parsed_int};

verus! {

// ---------------------------------------------------------------------------
// Reports

proof fn lemma_run_from(v: Seq<RunView>, id: Seq<char>, k: int)
    requires
        0 <= k <= v.len(),
    ensures
        match run_from(v, id, k) {
            Some(i) => k <= i < v.len() && v[i].id == id && forall|j: int|
                k <= j < i ==> (#[trigger] v[j]).id != id,
            None => forall|j: int| k <= j < v.len() ==> (#[trigger] v[j]).id != id,
        },
    decreases v.len() - k,
{
    if k < v.len() && v[k].id != id {
        lemma_run_from(v, id, k + 1);
    }
}

/// What a report says of a run that is new: what was given, and when.
pub open spec fn as_given(r: RunView, args: Json, now: u64) -> bool {
    &&& r.id == (match text_at(args, "id"@) {
        Some(id) => id,
        None => "run-"@ + dec(now as nat),
    })
    &&& Some(r.command) == text_at(args, "command"@)
    &&& r.status == (match text_at(args, "status"@) {
        Some(s) => s,
        None => "running"@,
    })
    &&& r.exit_code == as_i64(crate::json::get(args, "exit_code"@))
    &&& r.duration_ms == as_u64(crate::json::get(args, "duration_ms"@))
    &&& r.summary == (match text_at(args, "summary"@) {
        Some(s) => s,
        None => Seq::empty(),
    })
    &&& r.log_path == text_at(args, "log_path"@)
    &&& r.key_failures == texts_at(args, "key_failures"@)
    &&& r.artifacts == texts_at(args, "artifacts"@)
    &&& r.tags == texts_at(args, "tags"@)
    &&& r.defect_ids == texts_at(args, "defect_ids"@)
    &&& r.created == now
    &&& r.updated == now
}

/// Whether a run of a name is known.
pub open spec fn run_is_known(v: Seq<RunView>, id: Seq<char>) -> bool {
    exists|i: int| 0 <= i < v.len() && (#[trigger] v[i]).id == id
}

/// The name of the run that a report is about.
pub open spec fn run_meant(args: Json, now: u64) -> Seq<char> {
    match text_at(args, "id"@) {
        Some(id) => id,
        None => "run-"@ + dec(now as nat),
    }
}

/// The status that a report gives.
pub open spec fn status_meant(args: Json) -> Seq<char> {
    match text_at(args, "status"@) {
        Some(s) => s,
        None => "running"@,
    }
}

/// A report is taken where it names a command and a known status, or none.
pub proof fn law_reports_are_taken(v: Seq<RunView>, args: Json, now: u64)
    ensures
        recorded(v, args, now) is Ok <==> text_at(args, "command"@) is Some && (status_meant(args)
            == "running"@ || status_meant(args) == "passed"@ || status_meant(args) == "failed"@
            || status_meant(args) == "cancelled"@),
{
}

/// A run that is not known yet is added as it was given, and one that is known is not
/// added again.
pub proof fn law_new_runs_are_added(v: Seq<RunView>, args: Json, now: u64)
    requires
        recorded(v, args, now) is Ok,
    ensures
        ({
            let w = recorded(v, args, now)->Ok_0.0;
            let known = run_is_known(v, run_meant(args, now));
            &&& !known ==> w.len() == v.len() + 1 && w.drop_last() == v && as_given(
                w.last(),
                args,
                now,
            )
            &&& known ==> w.len() == v.len()
        }),
{
    let id = run_meant(args, now);
    assert(id == crate::runs::run_id(args, now));
    lemma_run_from(v, id, 0);
    reveal_strlit("");
    assert(""@ =~= Seq::<char>::empty());
    let new = crate::runs::reported(args, id, now);
    assert(as_given(new, args, now));
    assert(v.push(new).drop_last() =~= v);
    if let Some(k) = run_from(v, id, 0) {
        assert(v[k].id == id);
        assert(run_is_known(v, id));
    }
}

/// The answer to a report says whether the run was new, and what was reported.
pub proof fn law_report_is_answered(v: Seq<RunView>, args: Json, now: u64)
    requires
        recorded(v, args, now) is Ok,
    ensures
        ({
            let text = recorded(v, args, now)->Ok_0.1;
            let rest = " "@ + run_meant(args, now) + " status="@ + status_meant(args) + " cmd="@
                + crate::text::quoted(text_at(args, "command"@)->Some_0);
            &&& run_is_known(v, run_meant(args, now)) ==> text == "run_record - updated"@ + rest
            &&& !run_is_known(v, run_meant(args, now)) ==> text == "run_record - created"@ + rest
        }),
{
    let id = run_meant(args, now);
    assert(id == crate::runs::run_id(args, now));
    lemma_run_from(v, id, 0);
    if let Some(k) = run_from(v, id, 0) {
        assert(v[k].id == id);
    }
    reveal_strlit("run_record - ");
    reveal_strlit("updated");
    reveal_strlit("created");
    reveal_strlit("run_record - updated");
    reveal_strlit("run_record - created");
    assert("run_record - "@ + "updated"@ =~= "run_record - updated"@);
    assert("run_record - "@ + "created"@ =~= "run_record - created"@);
    let rest = " "@ + id + " status="@ + status_meant(args) + " cmd="@ + crate::text::quoted(
        text_at(args, "command"@)->Some_0,
    );
    let text = recorded(v, args, now)->Ok_0.1;
    if run_from(v, id, 0) is Some {
        assert(text =~= "run_record - "@ + "updated"@ + rest);
    } else {
        assert(text =~= "run_record - "@ + "created"@ + rest);
    }
}

/// What a report changes of a known run: the command and the status, the time of the
/// change, and what it gives; what it leaves out stays, and so does the time at which the
/// run began.
pub proof fn law_report_of_a_known_run(old: RunView, new: RunView)
    ensures
        ({
            let r = updated_run(old, new);
            &&& r.id == old.id && r.created == old.created
            &&& r.command == new.command && r.status == new.status && r.updated == new.updated
            &&& new.exit_code is Some ==> r.exit_code == new.exit_code
            &&& new.exit_code is None ==> r.exit_code == old.exit_code
            &&& new.duration_ms is Some ==> r.duration_ms == new.duration_ms
            &&& new.duration_ms is None ==> r.duration_ms == old.duration_ms
            &&& new.log_path is Some ==> r.log_path == new.log_path
            &&& new.log_path is None ==> r.log_path == old.log_path
            &&& new.summary.len() > 0 ==> r.summary == new.summary
            &&& new.summary.len() == 0 ==> r.summary == old.summary
            &&& new.key_failures.len() > 0 ==> r.key_failures == new.key_failures
            &&& new.key_failures.len() == 0 ==> r.key_failures == old.key_failures
            &&& new.artifacts.len() > 0 ==> r.artifacts == new.artifacts
            &&& new.artifacts.len() == 0 ==> r.artifacts == old.artifacts
            &&& new.tags.len() > 0 ==> r.tags == new.tags
            &&& new.tags.len() == 0 ==> r.tags == old.tags
            &&& new.defect_ids.len() > 0 ==> r.defect_ids == new.defect_ids
            &&& new.defect_ids.len() == 0 ==> r.defect_ids == old.defect_ids
        }),
{
}

/// The first run of a name takes the report; the others stay.
pub proof fn law_first_run_of_a_name(v: Seq<RunView>, new: RunView, k: int)
    requires
        0 <= k < v.len(),
        v[k].id == new.id,
        forall|j: int| 0 <= j < k ==> (#[trigger] v[j]).id != new.id,
    ensures
        with_report(v, new) == v.update(k, updated_run(v[k], new)),
{
    lemma_run_from(v, new.id, 0);
    let i = run_from(v, new.id, 0);
    if let Some(i) = i {
        if i < k {
            assert(v[i].id != new.id);
        }
        if k < i {
            assert(v[k].id != new.id);
        }
    } else {
        assert(v[k].id != new.id);
    }
}

// ---------------------------------------------------------------------------
// What is kept

/// All runs are kept up to two hundred; beyond that the latest two hundred are.
pub proof fn law_latest_runs_are_kept(v: Seq<RunView>, a: RunView, b: RunView)
    ensures
        v.len() <= 200 ==> kept_runs(v) == v,
        v.len() > 200 ==> kept_runs(v).len() == 200,
        kept_runs(v).contains(a) ==> v.contains(a),
        v.contains(b) && !kept_runs(v).contains(b) && kept_runs(v).contains(a) ==> b.updated
            <= a.updated,
{
    let keys = age_keys(v);
    assert(positioned(keys));
    lemma_arranged_items(v, keys);
    lemma_sort_order(keys);
    let o = sort_order(keys);
    let s = by_age(v);
    let k = kept_runs(v);
    if v.len() > 200 {
        let cut = v.len() - 200;
        if k.contains(a) {
            let i = choose|i: int| 0 <= i < k.len() && k[i] == a;
            assert(s[cut + i] == a);
            assert(s.contains(a));
            if v.contains(b) && !k.contains(b) {
                assert(s.contains(b));
                let j = choose|j: int| 0 <= j < s.len() && s[j] == b;
                if j >= cut {
                    assert(k[j - cut] == b);
                }
                assert(!key_lt(keys[o[cut + i]], keys[o[j]]));
            }
        }
    }
}

// ---------------------------------------------------------------------------
// What is shown

/// Which runs a history is about: those with the wanted status and the wanted tag,
/// whatever the case.
pub proof fn law_history_is_about(
    v: Seq<RunView>,
    status: Option<Seq<char>>,
    tag: Option<Seq<char>>,
    r: RunView,
)
    ensures
        v.filter(matching(status, tag)).contains(r) <==> v.contains(r) && (status matches Some(s)
            ==> lowered(r.status) == lowered(s)) && (tag matches Some(t) ==> exists|i: int|
            0 <= i < r.tags.len() && lowered(#[trigger] r.tags[i]) == lowered(t)),
{
    let f = matching(status, tag);
    if v.filter(f).contains(r) {
        let i = choose|i: int| 0 <= i < v.filter(f).len() && v.filter(f)[i] == r;
        v.lemma_filter_pred(f, i);
        v.lemma_filter_contains_rev(f, r);
    }
    if v.contains(r) && f(r) {
        let i = choose|i: int| 0 <= i < v.len() && v[i] == r;
        v.lemma_filter_contains(f, i);
    }
}

/// A history shows what it is about, the latest first.
pub proof fn law_history_is_latest_first(v: Seq<RunView>, r: RunView, i: int, j: int)
    requires
        v.len() <= u64::MAX,
    ensures
        history_order(v).len() == v.len(),
        history_order(v).contains(r) <==> v.contains(r),
        0 <= i < j < v.len() ==> history_order(v)[i].updated >= history_order(v)[j].updated,
{
    let keys = history_keys(v);
    assert(positioned(keys));
    lemma_sort_order(keys);
    lemma_sort_covers(keys);
    let o = sort_order(keys);
    let h = history_order(v);
    let n = v.len();
    assert forall|k: int| 0 <= k < n implies #[trigger] h[k] == v[o[n - 1 - k]] by {
        assert(o.reverse()[k] == o[n - 1 - k]);
    }
    if h.contains(r) {
        let k = choose|k: int| 0 <= k < h.len() && h[k] == r;
        assert(v[o[n - 1 - k]] == r);
    }
    if v.contains(r) {
        let p = choose|p: int| 0 <= p < v.len() && v[p] == r;
        assert(o.contains(p));
        let k = choose|k: int| 0 <= k < o.len() && o[k] == p;
        assert(h[n - 1 - k] == r);
    }
    if 0 <= i < j < n {
        assert(!key_lt(keys[o[n - 1 - i]], keys[o[n - 1 - j]]));
    }
}

/// The texts of runs.
pub open spec fn run_texts(v: Seq<RunView>, missing: Seq<Seq<char>>) -> Seq<Seq<char>> {
    Seq::new(v.len(), |i: int| run_text(v[i], missing))
}

proof fn lemma_history_rows(v: Seq<RunView>, missing: Seq<Seq<char>>, n: nat)
    requires
        n <= v.len(),
    ensures
        history_rows(v, missing, n) == flat(run_texts(v.take(n as int), missing)),
    decreases n,
{
    reveal_strlit("");
    let rows = run_texts(v.take(n as int), missing);
    if n > 0 {
        let m = (n - 1) as nat;
        lemma_history_rows(v, missing, m);
        let before = run_texts(v.take(m as int), missing);
        lemma_flat_push(before, run_text(v[n - 1], missing));
        assert(rows =~= before.push(run_text(v[n - 1], missing)));
    } else {
        assert(rows =~= Seq::<Seq<char>>::empty());
    }
}

/// A history says how many runs it shows, and shows each; `limit` of them, twenty where
/// nothing is said, one at least.
pub proof fn law_history_shows_runs(v: Seq<RunView>, args: Json, missing: Seq<Seq<char>>)
    ensures
        ({
            let all = history_order(
                v.filter(matching(text_at(args, "status"@), text_at(args, "tag"@))),
            );
            let limit = if u64_or(args, "limit"@, 20) == 0 {
                1nat
            } else {
                u64_or(args, "limit"@, 20) as nat
            };
            let shown = if all.len() > limit {
                all.take(limit as int)
            } else {
                all
            };
            let text = history_text(v, args, missing);
            &&& shown.len() > 0 ==> text == "run_history - "@ + dec(shown.len()) + " run(s)\n"@
                + flat(run_texts(shown, missing))
            &&& shown.len() == 0 ==> text == "run_history - "@ + dec(0) + " run(s)\n"@
                + "\n(no matching runs)\n"@
        }),
{
    let all = history_order(v.filter(matching(text_at(args, "status"@), text_at(args, "tag"@))));
    let limit = crate::module_map::one_or_more(u64_or(args, "limit"@, 20)) as nat;
    let shown = firsts(all, limit);
    lemma_history_rows(shown, missing, shown.len());
    assert(shown.take(shown.len() as int) =~= shown);
    reveal_strlit("");
    let head = "run_history - "@ + dec(shown.len()) + " run(s)\n"@;
    let rows = history_rows(shown, missing, shown.len());
    if shown.len() > 0 {
        assert(head + rows + ""@ =~= head + rows);
    } else {
        assert(head + rows =~= head);
    }
}

/// What is shown of a run: its status, name and time, its command, and what else is known
/// of it.
pub proof fn law_text_of_a_run(r: RunView, missing: Seq<Seq<char>>)
    ensures
        ({
            let line = |label: Seq<char>, v: Seq<Seq<char>>, sep: Seq<char>|
                if v.len() > 0 {
                    label + joined(v, sep) + "\n"@
                } else {
                    ""@
                };
            run_text(r, missing) == "\n["@ + r.status + "] "@ + r.id + " — "@ + dec(
                r.updated as nat,
            ) + "\n  command: "@ + r.command + "\n"@ + (if r.exit_code is Some {
                "  exit_code: "@ + dec_int(r.exit_code->Some_0 as int) + "\n"@
            } else {
                ""@
            }) + (if r.duration_ms is Some {
                "  duration_ms: "@ + dec(r.duration_ms->Some_0 as nat) + "\n"@
            } else {
                ""@
            }) + (if r.summary.len() > 0 {
                "  summary: "@ + r.summary + "\n"@
            } else {
                ""@
            }) + (if r.log_path is Some {
                "  log: "@ + r.log_path->Some_0 + "\n"@
            } else {
                ""@
            }) + (if r.key_failures.len() > 0 {
                "  key_failures:\n"@ + failure_rows(
                    r.key_failures,
                    if r.key_failures.len() > 5 {
                        5
                    } else {
                        r.key_failures.len()
                    },
                )
            } else {
                ""@
            }) + line("  artifacts: "@, r.artifacts, ", "@) + line("  tags: "@, r.tags, ", "@)
                + line("  defects: "@, r.defect_ids, ", "@) + line(
                "  warnings: "@,
                flags_of(r, missing, r.artifacts.len()),
                "; "@,
            )
        }),
{
}

/// Failures are shown one to a line.
pub proof fn law_failures_are_shown(v: Seq<Seq<char>>, n: nat)
    requires
        n <= v.len(),
    ensures
        failure_rows(v, n) == flat(Seq::new(n, |i: int| "    - "@ + v[i] + "\n"@)),
    decreases n,
{
    reveal_strlit("");
    let rows = Seq::new(n, |i: int| "    - "@ + v[i] + "\n"@);
    if n > 0 {
        let m = (n - 1) as nat;
        law_failures_are_shown(v, m);
        let before = Seq::new(m, |i: int| "    - "@ + v[i] + "\n"@);
        lemma_flat_push(before, rows[n - 1]);
        assert(rows =~= before.push(rows[n - 1]));
        assert(failure_rows(v, m) + "    - "@ + v[n - 1] + "\n"@ =~= failure_rows(v, m) + (
        "    - "@ + v[n - 1] + "\n"@));
    } else {
        assert(rows =~= Seq::<Seq<char>>::empty());
    }
}

/// What is warned of: the log and the artifacts that are missing, and nothing else.
pub proof fn law_missing_files_are_flagged(
    r: RunView,
    missing: Seq<Seq<char>>,
    n: nat,
    t: Seq<char>,
)
    requires
        n <= r.artifacts.len(),
    ensures
        flags_of(r, missing, n).contains(t) <==> (r.log_path matches Some(l) && missing.contains(l)
            && t == "missing log: "@ + l) || exists|i: int|
            0 <= i < n && missing.contains(#[trigger] r.artifacts[i]) && t == "missing artifact: "@
                + r.artifacts[i],
    decreases n,
{
    assert forall|x: Seq<char>| among(missing, x) <==> missing.contains(x) by {}
    if n > 0 {
        let m = (n - 1) as nat;
        law_missing_files_are_flagged(r, missing, m, t);
        let x = "missing artifact: "@ + r.artifacts[n - 1];
        lemma_contains_push(flags_of(r, missing, m), x, t);
        if exists|i: int|
            0 <= i < m && missing.contains(#[trigger] r.artifacts[i]) && t == "missing artifact: "@
                + r.artifacts[i] {
            let i = choose|i: int|
                0 <= i < m && missing.contains(#[trigger] r.artifacts[i]) && t
                    == "missing artifact: "@ + r.artifacts[i];
            assert(missing.contains(r.artifacts[i]));
        }
        if missing.contains(r.artifacts[n - 1]) && t == x {
            assert(0 <= n - 1 < n);
        }
    } else if let Some(l) = r.log_path {
        let x = "missing log: "@ + l;
        assert(seq![x][0] == x);
        assert(seq![x].contains(t) <==> t == x);
    }
}

// ---------------------------------------------------------------------------
// Arguments

/// What each flag with its value adds to a report: a text, a number, or one more item of a
/// list.
pub proof fn law_flags_of_a_report(argv: Seq<Seq<char>>, args: Json, k: int)
    requires
        0 <= k,
        k + 1 < argv.len(),
    ensures
        ({
            let a = argv[k];
            let val = argv[k + 1];
            let next = |d: Json| cli_from(argv, d, k + 2);
            &&& a == "--id"@ ==> cli_from(argv, args, k) == next(with_member(args, "id"@, Json::Str(val)))
            &&& a == "--command"@ ==> cli_from(argv, args, k) == next(with_member(args, "command"@, Json::Str(val)))
            &&& a == "-c"@ ==> cli_from(argv, args, k) == next(with_member(args, "command"@, Json::Str(val)))
            &&& a == "--status"@ ==> cli_from(argv, args, k) == next(with_member(args, "status"@, Json::Str(val)))
            &&& a == "-s"@ ==> cli_from(argv, args, k) == next(with_member(args, "status"@, Json::Str(val)))
            &&& a == "--exit-code"@ ==> match parsed_int(val) {
                Some(n) => cli_from(argv, args, k) == next(
                    with_member(args, "exit_code"@, crate::json::json_i64(n as i64)),
                ),
                None => cli_from(argv, args, k) is Bad,
            }
            &&& a == "--duration-ms"@ ==> match parsed(val, u64::MAX as nat) {
                Some(n) => cli_from(argv, args, k) == next(
                    with_member(args, "duration_ms"@, Json::UInt(n as u64)),
                ),
                None => cli_from(argv, args, k) is Bad,
            }
            &&& a == "--summary"@ ==> cli_from(argv, args, k) == next(with_member(args, "summary"@, Json::Str(val)))
            &&& a == "--log"@ ==> cli_from(argv, args, k) == next(with_member(args, "log_path"@, Json::Str(val)))
            &&& a == "--tag"@ ==> cli_from(argv, args, k) == next(with_one_more(args, "tags"@, val))
            &&& a == "--artifact"@ ==> cli_from(argv, args, k) == next(with_one_more(args, "artifacts"@, val))
            &&& a == "--defect"@ ==> cli_from(argv, args, k) == next(with_one_more(args, "defect_ids"@, val))
            &&& a == "--failure"@ ==> cli_from(argv, args, k) == next(with_one_more(args, "key_failures"@, val))
        }),
{
    reveal_strlit("--id");
    reveal_strlit("--command");
    reveal_strlit("-c");
    reveal_strlit("--status");
    reveal_strlit("-s");
    reveal_strlit("--exit-code");
    reveal_strlit("--duration-ms");
    reveal_strlit("--summary");
    reveal_strlit("--log");
    reveal_strlit("--tag");
    reveal_strlit("--artifact");
    reveal_strlit("--defect");
    reveal_strlit("--failure");
    reveal_strlit("--help");
    reveal_strlit("-h");
    assert("--id"@.len() == 4);
    assert("--command"@.len() == 9);
    assert("-c"@.len() == 2);
    assert("--status"@.len() == 8);
    assert("-s"@.len() == 2);
    assert("--exit-code"@.len() == 11);
    assert("--duration-ms"@.len() == 13);
    assert("--summary"@.len() == 9);
    assert("--log"@.len() == 5);
    assert("--tag"@.len() == 5);
    assert("--artifact"@.len() == 10);
    assert("--defect"@.len() == 8);
    assert("--failure"@.len() == 9);
    assert("--help"@.len() == 6);
    assert("-h"@.len() == 2);
    assert("--command"@[2] == 'c');
    assert("-c"@[1] == 'c');
    assert("--status"@[2] == 's');
    assert("-s"@[1] == 's');
    assert("--summary"@[2] == 's');
    assert("--log"@[2] == 'l');
    assert("--tag"@[2] == 't');
    assert("--defect"@[2] == 'd');
    assert("--failure"@[2] == 'f');
    assert("-h"@[1] == 'h');
    reveal_strlit("artifacts");
    reveal_strlit("command");
    reveal_strlit("defect_ids");
    reveal_strlit("duration_ms");
    reveal_strlit("exit_code");
    reveal_strlit("id");
    reveal_strlit("key_failures");
    reveal_strlit("log_path");
    reveal_strlit("status");
    reveal_strlit("summary");
    reveal_strlit("tags");
    assert("artifacts"@.len() == 9);
    assert("command"@.len() == 7);
    assert("defect_ids"@.len() == 10);
    assert("duration_ms"@.len() == 11);
    assert("exit_code"@.len() == 9);
    assert("id"@.len() == 2);
    assert("key_failures"@.len() == 12);
    assert("log_path"@.len() == 8);
    assert("status"@.len() == 6);
    assert("summary"@.len() == 7);
    assert("tags"@.len() == 4);
    assert("artifacts"@[0] == 'a');
    assert("command"@[0] == 'c');
    assert("exit_code"@[0] == 'e');
    assert("summary"@[0] == 's');
}

/// A list with one more item.
pub open spec fn with_one_more(args: Json, key: Seq<char>, val: Seq<char>) -> Json {
    match crate::json::get(args, key) {
        Some(Json::Array(a)) => with_member(args, key, Json::Array(a.push(Json::Str(val)))),
        _ => with_member(args, key, Json::Array(seq![Json::Str(val)])),
    }
}

/// A flag that is not known is refused, one without its value is too, and help is given to
/// who asks for it; what is no flag is passed over.
pub proof fn law_other_arguments(argv: Seq<Seq<char>>, args: Json, k: int)
    requires
        0 <= k < argv.len(),
    ensures
        ({
            let a = argv[k];
            let known = a == "--id"@ || a == "--command"@ || a == "-c"@ || a == "--status"@ || a == "-s"@ || a == "--exit-code"@ || a == "--duration-ms"@ || a == "--summary"@ || a == "--log"@ || a == "--tag"@ || a == "--artifact"@ || a == "--defect"@ || a == "--failure"@;
            let help = a == "--help"@ || a == "-h"@;
            &&& help ==> cli_from(argv, args, k) == CliArgsView::Help
            &&& !known && !help && a.len() > 0 && a[0] == '-' ==> cli_from(argv, args, k)
                == CliArgsView::Bad("unknown flag "@ + a)
            &&& !known && !help && (a.len() == 0 || a[0] != '-') ==> cli_from(argv, args, k)
                == cli_from(argv, args, k + 1)
            &&& known && k + 1 == argv.len() ==> cli_from(argv, args, k) == CliArgsView::Bad(
                "missing value for "@ + a,
            )
        }),
{
    reveal_strlit("--id");
    reveal_strlit("--command");
    reveal_strlit("-c");
    reveal_strlit("--status");
    reveal_strlit("-s");
    reveal_strlit("--exit-code");
    reveal_strlit("--duration-ms");
    reveal_strlit("--summary");
    reveal_strlit("--log");
    reveal_strlit("--tag");
    reveal_strlit("--artifact");
    reveal_strlit("--defect");
    reveal_strlit("--failure");
    reveal_strlit("--help");
    reveal_strlit("-h");
    assert("--id"@.len() == 4);
    assert("--command"@.len() == 9);
    assert("-c"@.len() == 2);
    assert("--status"@.len() == 8);
    assert("-s"@.len() == 2);
    assert("--exit-code"@.len() == 11);
    assert("--duration-ms"@.len() == 13);
    assert("--summary"@.len() == 9);
    assert("--log"@.len() == 5);
    assert("--tag"@.len() == 5);
    assert("--artifact"@.len() == 10);
    assert("--defect"@.len() == 8);
    assert("--failure"@.len() == 9);
    assert("--help"@.len() == 6);
    assert("-h"@.len() == 2);
    assert("--command"@[2] == 'c');
    assert("-c"@[1] == 'c');
    assert("--status"@[2] == 's');
    assert("-s"@[1] == 's');
    assert("--summary"@[2] == 's');
    assert("--log"@[2] == 'l');
    assert("--tag"@[2] == 't');
    assert("--defect"@[2] == 'd');
    assert("--failure"@[2] == 'f');
    assert("-h"@[1] == 'h');
    let a = argv[k];
    reveal_strlit("-");
    assert("-"@ =~= seq!['-']);
    if a.len() > 0 {
        assert(a.take(1) =~= seq![a[0]]);
        assert(seq![a[0]][0] == a[0] && seq!['-'][0] == '-');
    }
}

} // verus!
