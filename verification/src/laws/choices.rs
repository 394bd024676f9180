//! Which profiles there are and what they ask for, and what is planned for a new one.
use vstd::prelude::*;
use crate::izakaya::profiles::{
    adapted, adapter_from, adapter_value, coordination, executable, executable_fault,
    executable_item, executable_member, items_at, loaded, merged, named, names_of, number_begins,
    number_end, number_in, objective_from, points, profile_from, running_key, runs_something,
    with_new, AdapterView, ObjectiveView, ProfileView, RunView,
};
use crate::json::{
    as_str, bool_or, double_at, double_json, get, json_strs, lemma_record_get, record, str_or,
    strings_at, u64_or, Json,
};
use crate::laws::lists::{lemma_arranged_items, lemma_contains_add, lemma_contains_push};
use crate::order::positioned;
use crate::profile_upsert::{
    candidate_dirs, covered_by, covers, derived_name, discovered, hinted, hints_for, hints_upto,
    mode_of, name_for, name_keys, open_dirs, patch_of, planned, profile_name, slashed, symbol_of,
    term_hints, PlanView,
};
use crate::smap::{at, lemma_at_put};
use crate::text::{
    among, blen, dec, ends, is_digit, lowered, quoted, split_on, starts, trimmed, trimmed_end_of,
};

verus! {

// ---------------------------------------------------------------------------
// Profiles

proof fn lemma_running_key(ms: Seq<(Seq<char>, Json)>, n: nat)
    requires
        n <= ms.len(),
    ensures
        running_key(ms, n) is Some <==> exists|i: int|
            0 <= i < n && runs_something((#[trigger] ms[i]).0),
        running_key(ms, n) matches Some(k) ==> runs_something(k),
    decreases n,
{
    if n > 0 {
        lemma_running_key(ms, (n - 1) as nat);
        if runs_something(ms[n - 1].0) {
            assert(0 <= n - 1 < n);
        }
    }
}

proof fn lemma_executable_item(a: Seq<Json>, n: nat)
    requires
        n <= a.len(),
    ensures
        executable_item(a, n) is Some <==> exists|i: int|
            0 <= i < n && executable(#[trigger] a[i]) is Some,
    decreases n,
{
    if n > 0 {
        lemma_executable_item(a, (n - 1) as nat);
        if executable(a[n - 1]) is Some {
            assert(0 <= n - 1 < n);
        }
    }
}

proof fn lemma_executable_member(ms: Seq<(Seq<char>, Json)>, n: nat)
    requires
        n <= ms.len(),
    ensures
        executable_member(ms, n) is Some <==> exists|i: int|
            0 <= i < n && executable((#[trigger] ms[i]).1) is Some,
    decreases n,
{
    if n > 0 {
        lemma_executable_member(ms, (n - 1) as nat);
        if executable(ms[n - 1].1) is Some {
            assert(0 <= n - 1 < n);
        }
    }
}

/// Whether a member asks to run something.
pub open spec fn asks_to_run(key: Seq<char>) -> bool {
    seq!["exec"@, "shell"@, "command"@, "cmd"@].contains(key)
}

/// A profile is refused if and only if it asks to run something, however deep that lies.
pub proof fn law_profiles_run_nothing(s: Seq<char>, a: Seq<Json>, ms: Seq<(Seq<char>, Json)>)
    ensures
        executable(Json::Str(s)) is None,
        executable(Json::Array(a)) is Some <==> exists|i: int|
            0 <= i < a.len() && executable(#[trigger] a[i]) is Some,
        executable(Json::Object(ms)) is Some <==> exists|i: int|
            0 <= i < ms.len() && (asks_to_run((#[trigger] ms[i]).0) || executable(
                ms[i].1,
            ) is Some),
{
    lemma_executable_item(a, a.len());
    lemma_executable_member(ms, ms.len());
    lemma_running_key(ms, ms.len());
    let all = seq!["exec"@, "shell"@, "command"@, "cmd"@];
    assert(all[0] == "exec"@ && all[1] == "shell"@ && all[2] == "command"@ && all[3] == "cmd"@);
    assert forall|key: Seq<char>| asks_to_run(key) <==> #[trigger] runs_something(key) by {
        if asks_to_run(key) {
            let i = choose|i: int| 0 <= i < all.len() && all[i] == key;
            assert(i == 0 || i == 1 || i == 2 || i == 3);
        }
        if runs_something(key) {
            assert(all[0] == key || all[1] == key || all[2] == key || all[3] == key);
        }
    }
    if exists|i: int| 0 <= i < ms.len() && asks_to_run((#[trigger] ms[i]).0) {
        let i = choose|i: int| 0 <= i < ms.len() && asks_to_run((#[trigger] ms[i]).0);
        assert(runs_something(ms[i].0));
    }
    if exists|i: int| 0 <= i < ms.len() && runs_something((#[trigger] ms[i]).0) {
        let i = choose|i: int| 0 <= i < ms.len() && runs_something((#[trigger] ms[i]).0);
        assert(asks_to_run(ms[i].0));
    }
}

/// The refusal names what the profile asked to run.
pub proof fn law_refusal_names_the_key(j: Json)
    ensures
        executable(j) is None ==> executable_fault(j) is Ok,
        executable(j) matches Some(k) ==> executable_fault(j) == Err::<(), Seq<char>>(
            "discovery profiles cannot declare "@ + k
                + "; adapters read recorded run metadata only"@,
        ),
{
}

/// An objective is read where it names a metric and a direction, the smaller the better unless
/// it says so; it weighs one unless it says so.
pub proof fn law_objectives_are_read(j: Json)
    ensures
        ({
            let d = str_or(j, "direction"@, "min"@);
            let m = as_str(get(j, "metric"@));
            let r = objective_from()(j);
            &&& r is Some <==> m is Some && (d == "min"@ || d == "max"@)
            &&& r matches Some(o) ==> Some(o.metric) == m && o.direction == d && o.weight
                == double_at(j, "weight"@, "1.0"@)
        }),
{
}

/// An adapter is read where it names a tag and a metric; it reads the number of the summary,
/// and the larger the better, unless it says so.
pub proof fn law_adapters_are_read(j: Json)
    ensures
        ({
            let t = as_str(get(j, "tag"@));
            let m = as_str(get(j, "metric"@));
            let r = adapter_from()(j);
            &&& r is Some <==> t is Some && m is Some
            &&& r matches Some(a) ==> Some(a.tag) == t && Some(a.metric) == m && a.from == str_or(
                j,
                "from"@,
                "summary_number"@,
            ) && a.direction == str_or(j, "direction"@, "max"@)
        }),
{
}

/// A profile is read if and only if it has a name and is of the first version.
pub proof fn law_profiles_are_read(j: Json)
    ensures
        ({
            let id = as_str(get(j, "id"@));
            let version = u64_or(j, "version"@, 1);
            let r = profile_from(j);
            &&& r is Ok <==> id is Some && version == 1
            &&& id is None ==> r == Err::<ProfileView, Seq<char>>("profile.id is required"@)
            &&& id is Some && version != 1 ==> r == Err::<ProfileView, Seq<char>>(
                "unsupported profile version "@ + dec(version as nat),
            )
            &&& r matches Ok(p) ==> Some(p.id) == id && p.version == 1 && p.gates == strings_at(
                j,
                "gates"@,
            ) && p.features == strings_at(j, "features"@) && p.objectives == items_at(
                j,
                "objectives"@,
            ).filter_map(objective_from()) && p.run_adapters == items_at(
                j,
                "run_adapters"@,
            ).filter_map(adapter_from())
        }),
{
}

/// The built-in profile: what it gates and what it makes small.
pub proof fn law_built_in_profile()
    ensures
        ({
            let p = coordination();
            let weighs = |i: int, m: Seq<char>, w: Seq<char>|
                p.objectives[i] == ObjectiveView {
                    metric: m,
                    direction: "min"@,
                    weight: Json::Real(w),
                };
            &&& p.id == "coordination"@
            &&& p.version == 1
            &&& p.gates == seq!["correctness"@, "integration"@]
            &&& p.objectives.len() == 4
            &&& weighs(0, "conflicts"@, "1.0"@)
            &&& weighs(1, "handoff_delay"@, "1.0"@)
            &&& weighs(2, "cost"@, "0.5"@)
            &&& weighs(3, "critical_path"@, "1.0"@)
            &&& p.features == seq!["overlap"@, "handoff"@, "gate"@, "cost"@, "censoring"@]
            &&& p.run_adapters.len() == 0
        }),
{
}

/// What is new is added behind what there is, and nothing twice.
pub proof fn law_new_items_are_added(
    base: Seq<Seq<char>>,
    more: Seq<Seq<char>>,
    n: nat,
    x: Seq<char>,
)
    requires
        n <= more.len(),
    ensures
        with_new(base, more, n).contains(x) <==> base.contains(x) || more.take(n as int).contains(
            x,
        ),
        base.len() <= with_new(base, more, n).len(),
        base == with_new(base, more, n).take(base.len() as int),
        base.no_duplicates() ==> with_new(base, more, n).no_duplicates(),
    decreases n,
{
    if n > 0 {
        let m = (n - 1) as nat;
        let rest = with_new(base, more, m);
        let y = more[n - 1];
        law_new_items_are_added(base, more, m, x);
        lemma_contains_push(rest, y, x);
        lemma_contains_push(more.take(m as int), y, x);
        assert(more.take(n as int) =~= more.take(m as int).push(y));
        if among(rest, y) {
            let i = choose|i: int| 0 <= i < rest.len() && rest[i] == y;
            assert(rest.contains(y));
            assert(rest[i] == y);
        } else {
            assert(rest.push(y).take(base.len() as int) =~= rest.take(base.len() as int));
            if base.no_duplicates() {
                assert forall|i: int, j: int|
                    0 <= i < rest.push(y).len() && 0 <= j < rest.push(y).len() && i
                        != j implies rest.push(y)[i] != rest.push(y)[j] by {
                    if i < rest.len() && j < rest.len() {
                        assert(rest[i] != rest[j]);
                    } else if i < rest.len() {
                        assert(rest[i] != y);
                    } else {
                        assert(rest[j] != y);
                    }
                }
            }
        }
    } else {
        assert(base.take(base.len() as int) =~= base);
        assert(!more.take(0).contains(x)) by {
            assert(more.take(0).len() == 0);
        }
    }
}

/// A profile that extends another keeps its own name and objectives, where it has some, adds
/// its gates and features to those of the other, and its adapters behind them.
pub proof fn law_profiles_extend(base: ProfileView, own: ProfileView, x: Seq<char>)
    ensures
        ({
            let p = merged(base, own);
            &&& p.id == own.id && p.version == own.version
            &&& p.gates.contains(x) <==> base.gates.contains(x) || own.gates.contains(x)
            &&& p.features.contains(x) <==> base.features.contains(x) || own.features.contains(x)
            &&& own.objectives.len() > 0 ==> p.objectives == own.objectives
            &&& own.objectives.len() == 0 ==> p.objectives == base.objectives
            &&& p.run_adapters == base.run_adapters + own.run_adapters
        }),
{
    law_new_items_are_added(base.gates, own.gates, own.gates.len(), x);
    law_new_items_are_added(base.features, own.features, own.features.len(), x);
    assert(own.gates.take(own.gates.len() as int) =~= own.gates);
    assert(own.features.take(own.features.len() as int) =~= own.features);
}

/// How a profile is loaded: from its file, on the one that it extends; only the built-in one
/// needs none.
pub proof fn law_profiles_are_loaded(
    id: Seq<char>,
    file: Json,
    rest: Seq<Option<Json>>,
    dir: Seq<char>,
)
    ensures
        ({
            let none = loaded(id, seq![None] + rest, dir);
            let r = loaded(id, seq![Some(file)] + rest, dir);
            let up = as_str(get(file, "extends"@));
            let sound = executable_fault(file) is Ok && profile_from(file) is Ok;
            let own = profile_from(file)->Ok_0;
            &&& id == "coordination"@ ==> none == Ok::<ProfileView, Seq<char>>(coordination())
            &&& id != "coordination"@ ==> none == Err::<ProfileView, Seq<char>>(
                "unknown discovery profile "@ + quoted(id)
                    + "; expected coordination or a file under "@ + dir,
            )
            &&& executable_fault(file) is Err ==> r == Err::<ProfileView, Seq<char>>(
                executable_fault(file)->Err_0,
            )
            &&& sound && up is None && own.id == id ==> r == Ok::<ProfileView, Seq<char>>(own)
            &&& sound && up is None && own.id != id ==> r == Err::<ProfileView, Seq<char>>(
                "profile id "@ + own.id + " does not match requested "@ + id,
            )
            &&& sound && up == Some(id) ==> r == Err::<ProfileView, Seq<char>>(
                "profile "@ + id + " cannot extend itself"@,
            )
            &&& sound && up is Some && up != Some(id) && loaded(up->Some_0, rest, dir) is Err ==> r
                == Err::<ProfileView, Seq<char>>(loaded(up->Some_0, rest, dir)->Err_0)
            &&& sound && up is Some && up != Some(id) && loaded(up->Some_0, rest, dir) is Ok
                && own.id == id ==> r == Ok::<ProfileView, Seq<char>>(
                merged(loaded(up->Some_0, rest, dir)->Ok_0, own),
            )
        }),
{
    assert((seq![Some(file)] + rest).drop_first() =~= rest);
    assert((seq![Some(file)] + rest)[0] == Some(file));
    assert((seq![None::<Json>] + rest)[0] == None::<Json>);
}

/// Which profiles there are: the built-in one, and each file with a name that runs nothing.
pub proof fn law_profiles_that_there_are(files: Seq<Json>, n: nat, id: Seq<char>)
    requires
        n <= files.len(),
    ensures
        at(names_of(files, n), id) is Some <==> id == "coordination"@ || exists|i: int|
            0 <= i < n && executable_fault(files[i]) is Ok && #[trigger] as_str(
                get(files[i], "id"@),
            ) == Some(id),
    decreases n,
{
    if n > 0 {
        let m = (n - 1) as nat;
        law_profiles_that_there_are(files, m, id);
        let rest = names_of(files, m);
        if let Some(k) = as_str(get(files[n - 1], "id"@)) {
            lemma_at_put(rest, k, true, id);
            if executable_fault(files[n - 1]) is Ok && k == id {
                assert(as_str(get(files[n - 1], "id"@)) == Some(id));
            }
        }
    } else {
        let s = seq![("coordination"@, true)];
        assert(s[0].0 == "coordination"@);
        if id == "coordination"@ {
            crate::smap::lemma_at_index(s, id, 0);
        } else {
            crate::smap::lemma_at_index(s, id, 1);
        }
    }
}

/// What an adapter reads of a run: how long it took, whether it passed, or the number of its
/// summary; nothing else.
pub proof fn law_what_adapters_read(a: AdapterView, run: RunView)
    ensures
        a.from == "duration_ms"@ ==> adapter_value(a, run) == (match run.duration {
            Some(ms) => Some(double_json(Json::UInt(ms))),
            None => None,
        }),
        a.from == "status_pass"@ && run.status == "passed"@ ==> adapter_value(a, run) == Some(
            Json::Real("1.0"@),
        ),
        a.from == "status_pass"@ && run.status != "passed"@ ==> adapter_value(a, run) == Some(
            Json::Real("0.0"@),
        ),
        a.from == "summary_number"@ ==> adapter_value(a, run) == run.number,
        a.from != "duration_ms"@ && a.from != "status_pass"@ && a.from != "summary_number"@
            ==> adapter_value(a, run) is None,
{
    reveal_strlit("duration_ms");
    reveal_strlit("status_pass");
    reveal_strlit("summary_number");
    assert("duration_ms"@.len() == 11 && "duration_ms"@[0] == 'd');
    assert("status_pass"@.len() == 11 && "status_pass"@[0] == 's');
    assert("summary_number"@.len() == 14);
}

/// Whether an adapter gives a metric of a run.
pub open spec fn gives(a: AdapterView, run: RunView, metric: Seq<char>) -> bool {
    a.metric == metric && adapter_value(a, run) is Some && among(run.tags, a.tag) && (a.direction
        == "min"@ || a.direction == "max"@)
}

/// A metric of a run is what the last adapter that gives it reads; where none does, it stays.
pub proof fn law_last_adapter_gives_the_metric(
    m: Seq<(Seq<char>, Json)>,
    adapters: Seq<AdapterView>,
    run: RunView,
    n: nat,
    k: int,
    metric: Seq<char>,
)
    requires
        -1 <= k < n <= adapters.len(),
        k >= 0 ==> gives(adapters[k], run, metric),
        forall|i: int| k < i < n ==> !gives(#[trigger] adapters[i], run, metric),
    ensures
        k >= 0 ==> at(adapted(m, adapters, run, n), metric) == adapter_value(adapters[k], run),
        k < 0 ==> at(adapted(m, adapters, run, n), metric) == at(m, metric),
    decreases n,
{
    if n > 0 {
        let j = (n - 1) as nat;
        let a = adapters[n - 1];
        if let Some(v) = adapter_value(a, run) {
            lemma_at_put(adapted(m, adapters, run, j), a.metric, v, metric);
        }
        if k < n - 1 && n > 1 {
            law_last_adapter_gives_the_metric(m, adapters, run, j, k, metric);
        }
    }
}

proof fn lemma_number_end(s: Seq<char>, i: int)
    requires
        0 <= i <= s.len(),
    ensures
        i <= number_end(s, i) <= s.len(),
        forall|k: int| i <= k < number_end(s, i) ==> is_digit(#[trigger] s[k]) || s[k] == '.',
        number_end(s, i) < s.len() ==> !is_digit(s[number_end(s, i)]) && s[number_end(s, i)] != '.',
    decreases s.len() - i,
{
    if i < s.len() && (is_digit(s[i]) || s[i] == '.') {
        lemma_number_end(s, i + 1);
    }
}

/// The number of a summary is a run of digits with at most one point, as long as it goes, with
/// a minus sign before it where there is one.
pub proof fn law_number_of_a_summary(s: Seq<char>, from: int) -> (r: (int, int))
    requires
        0 <= from <= s.len(),
    ensures
        number_in(s, from) matches Some(t) ==> {
            &&& from <= r.0 < r.1 <= s.len()
            &&& t == s.subrange(r.0, r.1)
            &&& is_digit(t[0]) || (t[0] == '-' && t.len() > 1 && is_digit(t[1]))
            &&& forall|k: int| 0 < k < t.len() ==> is_digit(#[trigger] t[k]) || t[k] == '.'
            &&& points(s, r.0, r.1) <= 1
            &&& r.1 < s.len() ==> !is_digit(s[r.1]) && s[r.1] != '.'
        },
        (forall|k: int| from <= k < s.len() ==> !is_digit(#[trigger] s[k])) ==> number_in(
            s,
            from,
        ) is None,
    decreases s.len() + 1 - from,
{
    if from >= s.len() {
        (0, 0)
    } else if number_begins(s, from) {
        lemma_number_end(s, from + 1);
        let e = number_end(s, from + 1);
        if points(s, from, e) <= 1 {
            let t = s.subrange(from, e);
            assert forall|k: int| 0 < k < t.len() implies is_digit(#[trigger] t[k]) || t[k]
                == '.' by {
                assert(t[k] == s[from + k]);
            }
            if s[from] == '-' {
                assert(is_digit(s[from + 1]));
                reveal_with_fuel(number_end, 2);
                assert(e >= from + 2);
            }
            (from, e)
        } else if e + 1 <= s.len() {
            law_number_of_a_summary(s, e + 1)
        } else {
            (0, 0)
        }
    } else {
        law_number_of_a_summary(s, from + 1)
    }
}

// ---------------------------------------------------------------------------
// Plans for path profiles

/// The mode of a request is to propose unless it says to apply; other modes are refused.
pub proof fn law_modes_of_a_plan(
    args: Json,
    given: Result<Seq<Seq<char>>, Seq<char>>,
    found: Result<Seq<Seq<char>>, Seq<char>>,
    missing: Option<Seq<char>>,
    existing: Seq<Seq<char>>,
)
    ensures
        ({
            let mode = trimmed(str_or(args, "mode"@, "propose"@));
            let r = planned(args, given, found, missing, existing);
            &&& mode != "propose"@ && mode != "apply"@ ==> r == Err::<PlanView, Seq<char>>(
                "unknown mode "@ + quoted(mode) + "; expected \"propose\" or \"apply\""@,
            )
            &&& r matches Ok(p) ==> (p.apply <==> mode == "apply"@)
        }),
{
}

/// What a plan holds, and when there is none: the paths are those given, or those found for a
/// symbol where none is; there has to be one, and all of them have to exist; a name that is
/// taken has to be forced.
pub proof fn law_what_is_planned(
    args: Json,
    given: Result<Seq<Seq<char>>, Seq<char>>,
    found: Result<Seq<Seq<char>>, Seq<char>>,
    missing: Option<Seq<char>>,
    existing: Seq<Seq<char>>,
)
    requires
        mode_of(args) == "propose"@ || mode_of(args) == "apply"@,
    ensures
        ({
            let r = planned(args, given, found, missing, existing);
            let seek = given is Ok && given->Ok_0.len() == 0 && symbol_of(args) is Some;
            let paths = if seek {
                found
            } else {
                given
            };
            let some = paths is Ok && paths->Ok_0.len() > 0;
            let name = name_for(args, paths->Ok_0);
            let taken = name is Ok && existing.contains(name->Ok_0);
            let force = bool_or(args, "force"@, false);
            &&& paths is Err ==> r == Err::<PlanView, Seq<char>>(paths->Err_0)
            &&& paths is Ok && !some ==> r == Err::<PlanView, Seq<char>>(
                "paths is required (or provide symbol so profile_upsert can discover a tree)"@,
            )
            &&& some && missing is Some ==> r == Err::<PlanView, Seq<char>>(
                "path does not exist under --root: "@ + missing->Some_0,
            )
            &&& some && missing is None && name is Err ==> r == Err::<PlanView, Seq<char>>(
                name->Err_0,
            )
            &&& some && missing is None && taken && mode_of(args) == "apply"@ && !force ==> r
                == Err::<PlanView, Seq<char>>(
                "path profile "@ + quoted(name->Ok_0)
                    + " already exists; pass force:true to overwrite, or pick another name"@,
            )
            &&& some && missing is None && name is Ok && !(taken && mode_of(args) == "apply"@
                && !force) ==> (r matches Ok(p) && p.name == name->Ok_0 && p.paths == paths->Ok_0
                && p.symbol == symbol_of(args) && (p.collision <==> taken) && p.set_default
                == bool_or(args, "set_default"@, false) && p.hints == hints_for(args, paths->Ok_0)
                && p.commit_paths == paths->Ok_0.map_values(|q: Seq<char>| slashed(q)))
        }),
{
    let seek = given is Ok && given->Ok_0.len() == 0 && symbol_of(args) is Some;
    let paths = if seek {
        found
    } else {
        given
    };
    let name = name_for(args, paths->Ok_0);
    if name is Ok {
        let x = name->Ok_0;
        assert(among(existing, x) <==> existing.contains(x));
    }
}

/// A path to commit ends with one slash at least, added where there is none.
pub proof fn law_paths_to_commit(p: Seq<char>)
    ensures
        p.len() > 0 && p.last() == '/' ==> slashed(p) == p,
        p.len() == 0 || p.last() != '/' ==> slashed(p) == p + seq!['/'],
{
    reveal_strlit("/");
    assert("/"@ =~= seq!['/']);
    if p.len() > 0 {
        assert(p.skip(p.len() - 1)[0] == p.last());
        assert(p.skip(p.len() - 1) =~= seq![p.last()]);
    }
}

/// Whether a character may stand in the name of a profile.
pub open spec fn fits_a_name(c: char) -> bool {
    crate::text::plain_char(c)
}

/// A name for a profile is taken in lower case, without white space round it, if and only if
/// something is left and all of it fits.
pub proof fn law_names_of_profiles(name: Seq<char>)
    ensures
        ({
            let n = lowered(trimmed(name));
            &&& profile_name(name) is Ok <==> n.len() > 0 && forall|i: int|
                0 <= i < n.len() ==> fits_a_name(#[trigger] n[i])
            &&& profile_name(name) matches Ok(m) ==> m == n
            &&& n.len() == 0 ==> profile_name(name) == Err::<Seq<char>, Seq<char>>(
                "name must not be empty"@,
            )
        }),
{
    let n = lowered(trimmed(name));
    if n.len() > 0 && forall|i: int| 0 <= i < n.len() ==> fits_a_name(#[trigger] n[i]) {
        assert forall|i: int| 0 <= i < n.len() implies crate::text::plain_char(
            #[trigger] n[i],
        ) by {
            assert(fits_a_name(n[i]));
        }
    }
}

/// Without a name, a profile is named for the last part of its first path.
pub proof fn law_derived_names(dir: Seq<char>, last: Seq<char>, more: Seq<Seq<char>>)
    requires
        dir.len() > 0 ==> dir.last() == '/',
        last.len() > 0,
        forall|i: int| 0 <= i < last.len() ==> last[i] != '/',
    ensures
        derived_name(seq![dir + last] + more) == profile_name(trimmed(last)),
        derived_name(Seq::empty()) is Err,
{
    let path = dir + last;
    let p = crate::text::is_char('/');
    assert(!p(path.last()));
    assert(trimmed_end_of(path, '/') == path);
    crate::laws::hunks::lemma_whole(last, p);
    crate::text::lemma_split_concat(dir, last, p);
    assert(split_on(path, '/').last() == last);
    assert((seq![path] + more)[0] == path);
}

/// Hints are few, none is empty, none is there twice in other letters, and each is one that
/// was offered.
pub proof fn law_hints_are_few(v: Seq<Seq<char>>, n: nat)
    requires
        n <= v.len(),
    ensures
        hints_upto(v, n).len() <= 8,
        forall|i: int|
            0 <= i < hints_upto(v, n).len() ==> (#[trigger] hints_upto(v, n)[i]).len() > 0
                && v.contains(hints_upto(v, n)[i]),
        forall|i: int, j: int|
            0 <= i < j < hints_upto(v, n).len() ==> lowered(#[trigger] hints_upto(v, n)[i])
                != lowered(#[trigger] hints_upto(v, n)[j]),
        forall|i: int|
            0 <= i < n && v[i].len() > 0 && hints_upto(v, n).len() < 8 ==> hinted(
                hints_upto(v, n),
                #[trigger] v[i],
            ),
    decreases n,
{
    if n > 0 {
        let m = (n - 1) as nat;
        let rest = hints_upto(v, m);
        let r = hints_upto(v, n);
        law_hints_are_few(v, m);
        assert(v.contains(v[n - 1]));
        assert forall|i: int| 0 <= i < n && v[i].len() > 0 && r.len() < 8 implies hinted(
            r,
            #[trigger] v[i],
        ) by {
            if i < m {
                assert(hinted(rest, v[i]));
                let k = choose|k: int|
                    0 <= k < rest.len() && lowered(#[trigger] rest[k]) == lowered(v[i]);
                assert(r[k] == rest[k]);
            } else if !hinted(rest, v[i]) {
                assert(r[rest.len() as int] == v[i]);
            }
        }
    }
}

/// Words of the question are hints where they are long enough, in lower case.
pub proof fn law_words_that_are_hints(terms: Seq<Seq<char>>, n: nat, x: Seq<char>)
    requires
        n <= terms.len(),
    ensures
        term_hints(terms, n).contains(x) <==> blen(x) >= 3 && exists|i: int|
            0 <= i < n && lowered(trimmed(#[trigger] terms[i])) == x,
    decreases n,
{
    if n > 0 {
        let m = (n - 1) as nat;
        law_words_that_are_hints(terms, m, x);
        lemma_contains_push(term_hints(terms, m), lowered(trimmed(terms[n - 1])), x);
        if lowered(trimmed(terms[n - 1])) == x {
            assert(0 <= n - 1 < n);
        }
    }
}

/// A directory is covered by itself, by one above it, and by one below it.
pub proof fn law_what_covers_a_directory(c: Seq<char>, r: Seq<char>)
    ensures
        covers(c, r) <==> r == c || starts(r, c + "/"@) || starts(c, r + "/"@),
        covers(c, r) <==> covers(r, c),
{
}

/// Directories are open for a profile where nothing covers them and they are not hidden.
pub proof fn law_open_directories(
    base: Seq<char>,
    names: Seq<Seq<char>>,
    covered: Seq<Seq<char>>,
    n: nat,
    x: Seq<char>,
)
    requires
        n <= names.len(),
    ensures
        open_dirs(base, names, covered, n).contains(x) <==> exists|i: int|
            0 <= i < n && !starts(#[trigger] names[i], "."@) && x == base + "/"@ + names[i]
                && !covered_by(x, covered),
    decreases n,
{
    if n > 0 {
        let m = (n - 1) as nat;
        law_open_directories(base, names, covered, m, x);
        let rel = base + "/"@ + names[n - 1];
        lemma_contains_push(open_dirs(base, names, covered, m), rel, x);
    }
}

/// Candidates are the open directories of the web and of the tools, and the scripts where
/// there are some and nothing covers them.
pub proof fn law_candidates(
    web: Seq<Seq<char>>,
    tools: Seq<Seq<char>>,
    scripts: bool,
    covered: Seq<Seq<char>>,
    x: Seq<char>,
)
    ensures
        candidate_dirs(web, tools, scripts, covered).contains(x) <==> {
            ||| open_dirs("web"@, web, covered, web.len()).contains(x)
            ||| open_dirs("tools"@, tools, covered, tools.len()).contains(x)
            ||| scripts && !covered_by("assets/scripts"@, covered) && x == "assets/scripts"@
        },
{
    let a = open_dirs("web"@, web, covered, web.len());
    let b = open_dirs("tools"@, tools, covered, tools.len());
    lemma_contains_add(a, b, x);
    lemma_contains_push(a + b, "assets/scripts"@, x);
    let all = if scripts && !covered_by("assets/scripts"@, covered) {
        (a + b).push("assets/scripts"@)
    } else {
        a + b
    };
    assert(positioned(name_keys(all)));
    lemma_arranged_items(all, name_keys(all));
}

/// Where nothing was found for a symbol, the plan fails and says so.
pub proof fn law_nothing_found(hits: Seq<Seq<char>>, symbol: Seq<char>)
    ensures
        hits.len() > 0 ==> discovered(hits, symbol) == Ok::<Seq<Seq<char>>, Seq<char>>(hits),
        hits.len() == 0 ==> discovered(hits, symbol) == Err::<Seq<Seq<char>>, Seq<char>>(
            "symbol "@ + quoted(symbol)
                + ": no hits under unprofiled web/*, tools/*, or assets/scripts"@,
        ),
{
}

/// What a plan would write: paths, hints and scopes of commits, each under the name.
pub proof fn law_what_a_plan_writes(p: PlanView)
    ensures
        ({
            let j = patch_of(p);
            let under = |v: Seq<Seq<char>>| Some(record(seq![(p.name, json_strs(v))]));
            &&& get(j, "path_profiles"@) == under(p.paths)
            &&& get(j, "profile_hints"@) == under(p.hints)
            &&& get(j, "commit_scopes"@) == under(p.commit_paths)
        }),
{
    let one = |v: Seq<Seq<char>>| record(seq![(p.name, json_strs(v))]);
    let ms = seq![
        ("path_profiles"@, one(p.paths)),
        ("profile_hints"@, one(p.hints)),
        ("commit_scopes"@, one(p.commit_paths)),
    ];
    reveal_strlit("path_profiles");
    reveal_strlit("profile_hints");
    reveal_strlit("commit_scopes");
    assert("path_profiles"@.len() == 13 && "path_profiles"@[1] == 'a');
    assert("profile_hints"@.len() == 13 && "profile_hints"@[1] == 'r');
    assert("commit_scopes"@.len() == 13 && "commit_scopes"@[1] == 'o');
    assert(ms[0].0 == "path_profiles"@ && ms[1].0 == "profile_hints"@ && ms[2].0
        == "commit_scopes"@);
    assert(patch_of(p) == record(ms));
    lemma_record_get(ms, 0);
    lemma_record_get(ms, 1);
    lemma_record_get(ms, 2);
}

} // verus!
