//! Declarative discovery profiles.
//!
//! Profiles name gates, objectives, and adapters from run metadata. They never
//! execute anything.
use vstd::prelude::*;
use crate::json::{
    as_array, as_str, double_at, double_json, get, get_items, get_str, get_strings, members,
    number_or, read_double, str_or, string_or, strings_at, u64_or, views, Datum, Json,
};
use crate::smap::{at, put, StrMap};
use crate::text::{
    among, copy, dec, decimal, is_among, is_digit, quote, quoted, same, slice, strs, to_chars,
    verdict,
};

verus! {

/// What a policy is measured by. The weight is a double.
pub struct Objective {
    pub metric: String,
    pub direction: String,
    pub weight: Datum,
}

/// The values of an [`Objective`].
pub struct ObjectiveView {
    pub metric: Seq<char>,
    pub direction: Seq<char>,
    pub weight: Json,
}

impl View for Objective {
    type V = ObjectiveView;

    open spec fn view(&self) -> ObjectiveView {
        ObjectiveView {
            metric: self.metric@,
            direction: self.direction@,
            weight: self.weight@,
        }
    }
}

/// How a recorded run becomes a metric.
pub struct RunAdapter {
    pub tag: String,
    pub metric: String,
    pub from: String,
    pub direction: String,
}

/// The values of a [`RunAdapter`].
pub struct AdapterView {
    pub tag: Seq<char>,
    pub metric: Seq<char>,
    pub from: Seq<char>,
    pub direction: Seq<char>,
}

impl View for RunAdapter {
    type V = AdapterView;

    open spec fn view(&self) -> AdapterView {
        AdapterView {
            tag: self.tag@,
            metric: self.metric@,
            from: self.from@,
            direction: self.direction@,
        }
    }
}

pub struct Profile {
    pub id: String,
    pub version: u64,
    pub gates: Vec<String>,
    pub objectives: Vec<Objective>,
    pub features: Vec<String>,
    pub run_adapters: Vec<RunAdapter>,
}

/// The values of a [`Profile`].
pub struct ProfileView {
    pub id: Seq<char>,
    pub version: u64,
    pub gates: Seq<Seq<char>>,
    pub objectives: Seq<ObjectiveView>,
    pub features: Seq<Seq<char>>,
    pub run_adapters: Seq<AdapterView>,
}

pub open spec fn objective_views(v: Seq<Objective>) -> Seq<ObjectiveView> {
    Seq::new(v.len(), |i: int| v[i]@)
}

pub open spec fn adapter_views(v: Seq<RunAdapter>) -> Seq<AdapterView> {
    Seq::new(v.len(), |i: int| v[i]@)
}

impl View for Profile {
    type V = ProfileView;

    open spec fn view(&self) -> ProfileView {
        ProfileView {
            id: self.id@,
            version: self.version,
            gates: strs(self.gates@),
            objectives: objective_views(self.objectives@),
            features: strs(self.features@),
            run_adapters: adapter_views(self.run_adapters@),
        }
    }
}

pub open spec fn least(metric: Seq<char>, weight: Seq<char>) -> ObjectiveView {
    ObjectiveView { metric, direction: "min"@, weight: Json::Real(weight) }
}

/// The profile that is always there.
pub open spec fn coordination() -> ProfileView {
    ProfileView {
        id: "coordination"@,
        version: 1,
        gates: seq!["correctness"@, "integration"@],
        objectives: seq![
            least("conflicts"@, "1.0"@),
            least("handoff_delay"@, "1.0"@),
            least("cost"@, "0.5"@),
            least("critical_path"@, "1.0"@),
        ],
        features: seq!["overlap"@, "handoff"@, "gate"@, "cost"@, "censoring"@],
        run_adapters: Seq::empty(),
    }
}

fn minimum(metric: &str, weight: &str) -> (r: Objective)
    ensures
        r@ == least(metric@, weight@),
{
    Objective { metric: copy(metric), direction: copy("min"), weight: Datum::Real(copy(weight)) }
}

pub fn builtin_coordination() -> (r: Profile)
    ensures
        r@ == coordination(),
{
    let mut gates: Vec<String> = Vec::new();
    gates.push(copy("correctness"));
    gates.push(copy("integration"));
    assert(strs(gates@) =~= coordination().gates);
    let mut objectives: Vec<Objective> = Vec::new();
    objectives.push(minimum("conflicts", "1.0"));
    objectives.push(minimum("handoff_delay", "1.0"));
    objectives.push(minimum("cost", "0.5"));
    objectives.push(minimum("critical_path", "1.0"));
    assert(objective_views(objectives@) =~= coordination().objectives);
    let mut features: Vec<String> = Vec::new();
    features.push(copy("overlap"));
    features.push(copy("handoff"));
    features.push(copy("gate"));
    features.push(copy("cost"));
    features.push(copy("censoring"));
    assert(strs(features@) =~= coordination().features);
    let run_adapters: Vec<RunAdapter> = Vec::new();
    assert(adapter_views(run_adapters@) =~= coordination().run_adapters);
    Profile {
        id: copy("coordination"),
        version: 1,
        gates,
        objectives,
        features,
        run_adapters,
    }
}

// ---------------------------------------------------------------------------
// Refusing what executes

/// A name that asks for something to be run.
pub open spec fn runs_something(key: Seq<char>) -> bool {
    key == "exec"@ || key == "shell"@ || key == "command"@ || key == "cmd"@
}

/// The first of the first `n` members whose name asks for a run.
pub open spec fn running_key(ms: Seq<(Seq<char>, Json)>, n: nat) -> Option<Seq<char>>
    decreases n,
{
    if n == 0 {
        None
    } else {
        match running_key(ms, (n - 1) as nat) {
            Some(k) => Some(k),
            None => if runs_something(ms[n - 1].0) {
                Some(ms[n - 1].0)
            } else {
                None
            },
        }
    }
}

/// The name, anywhere in a value, that asks for a run: the names of an object
/// come before what its members hold.
pub open spec fn executable(j: Json) -> Option<Seq<char>>
    decreases j, 0nat,
{
    match j {
        Json::Object(ms) => match running_key(ms, ms.len()) {
            Some(k) => Some(k),
            None => executable_member(ms, ms.len()),
        },
        Json::Array(items) => executable_item(items, items.len()),
        _ => None,
    }
}

pub open spec fn executable_item(items: Seq<Json>, n: nat) -> Option<Seq<char>>
    decreases items, n,
{
    if n == 0 || n > items.len() {
        None
    } else {
        match executable_item(items, (n - 1) as nat) {
            Some(k) => Some(k),
            None => executable(items[n - 1]),
        }
    }
}

pub open spec fn executable_member(ms: Seq<(Seq<char>, Json)>, n: nat) -> Option<Seq<char>>
    decreases ms, n,
{
    if n == 0 || n > ms.len() {
        None
    } else {
        match executable_member(ms, (n - 1) as nat) {
            Some(k) => Some(k),
            None => executable(ms[n - 1].1),
        }
    }
}

pub open spec fn executable_fault(j: Json) -> Result<(), Seq<char>> {
    match executable(j) {
        Some(k) => Err(
            "discovery profiles cannot declare "@ + k
                + "; adapters read recorded run metadata only"@,
        ),
        None => Ok(()),
    }
}

fn find_running(ms: &Vec<(String, Datum)>) -> (r: Option<&String>)
    ensures
        match r {
            Some(k) => running_key(members(ms@), ms@.len()) == Some(k@),
            None => running_key(members(ms@), ms@.len()) is None,
        },
{
    for i in 0..ms.len()
        invariant
            running_key(members(ms@), i as nat) is None,
    {
        assert(members(ms@)[i as int].0 == ms@[i as int].0@);
        let k = ms[i].0.as_str();
        if same(k, "exec") || same(k, "shell") || same(k, "command") || same(k, "cmd") {
            proof {
                lemma_running_found(members(ms@), (i + 1) as nat, ms@.len());
            }
            return Some(&ms[i].0);
        }
    }
    None
}

proof fn lemma_running_found(ms: Seq<(Seq<char>, Json)>, k: nat, n: nat)
    requires
        k <= n,
        running_key(ms, k) is Some,
    ensures
        running_key(ms, n) == running_key(ms, k),
    decreases n,
{
    if k < n {
        lemma_running_found(ms, k, (n - 1) as nat);
    }
}

proof fn lemma_item_found(items: Seq<Json>, k: nat, n: nat)
    requires
        k <= n <= items.len(),
        executable_item(items, k) is Some,
    ensures
        executable_item(items, n) == executable_item(items, k),
    decreases n,
{
    if k < n {
        lemma_item_found(items, k, (n - 1) as nat);
    }
}

proof fn lemma_member_found(ms: Seq<(Seq<char>, Json)>, k: nat, n: nat)
    requires
        k <= n <= ms.len(),
        executable_member(ms, k) is Some,
    ensures
        executable_member(ms, n) == executable_member(ms, k),
    decreases n,
{
    if k < n {
        lemma_member_found(ms, k, (n - 1) as nat);
    }
}

fn find_executable(v: &Datum) -> (r: Option<String>)
    ensures
        match r {
            Some(k) => executable(v@) == Some(k@),
            None => executable(v@) is None,
        },
    decreases v,
{
    match v {
        Datum::Object(ms) => {
            proof {
                crate::json::lemma_object_view(*ms);
            }
            assert(v@ == Json::Object(members(ms@)));
            if let Some(k) = find_running(ms) {
                return Some(copy(k.as_str()));
            }
            for i in 0..ms.len()
                invariant
                    v@ == Json::Object(members(ms@)),
                    *v == Datum::Object(*ms),
                    running_key(members(ms@), ms@.len()) is None,
                    executable_member(members(ms@), i as nat) is None,
            {
                assert(members(ms@)[i as int].1 == ms@[i as int].1@);
                assert(decreases_to!(*v => (*v)->Object_0));
                assert(decreases_to!(*ms => ms@));
                assert(decreases_to!(ms@ => ms@[i as int]));
                assert(decreases_to!(ms@[i as int] => ms@[i as int].1));
                if let Some(k) = find_executable(&ms[i].1) {
                    proof {
                        lemma_member_found(members(ms@), (i + 1) as nat, members(ms@).len());
                    }
                    return Some(k);
                }
            }
            None
        },
        Datum::Array(items) => {
            proof {
                crate::json::lemma_array_view(*items);
            }
            assert(v@ == Json::Array(views(items@)));
            for i in 0..items.len()
                invariant
                    v@ == Json::Array(views(items@)),
                    *v == Datum::Array(*items),
                    executable_item(views(items@), i as nat) is None,
            {
                assert(views(items@)[i as int] == items@[i as int]@);
                assert(decreases_to!(*v => (*v)->Array_0));
                assert(decreases_to!(*items => items@));
                assert(decreases_to!(items@ => items@[i as int]));
                if let Some(k) = find_executable(&items[i]) {
                    proof {
                        lemma_item_found(views(items@), (i + 1) as nat, views(items@).len());
                    }
                    return Some(k);
                }
            }
            None
        },
        _ => None,
    }
}

pub fn reject_executable(v: &Datum) -> (r: Result<(), String>)
    ensures
        verdict(r) == executable_fault(v@),
{
    match find_executable(v) {
        Some(k) => {
            let mut e = copy("discovery profiles cannot declare ");
            e.append(k.as_str());
            e.append("; adapters read recorded run metadata only");
            Err(e)
        },
        None => Ok(()),
    }
}

// ---------------------------------------------------------------------------
// Reading

pub open spec fn min_or_max(s: Seq<char>) -> bool {
    s == "min"@ || s == "max"@
}

fn is_min_or_max(s: &str) -> (r: bool)
    ensures
        r == min_or_max(s@),
{
    same(s, "min") || same(s, "max")
}

/// A weight as a double, one where none is given.
pub open spec fn weight_of(j: Json) -> Json {
    double_at(j, "weight"@, "1.0"@)
}

pub fn read_weight(v: &Datum) -> (r: Datum)
    ensures
        r@ == weight_of(v@),
{
    read_double(v, "weight", "1.0")
}

/// The objective that a JSON value describes; one without a metric, or with an
/// unknown direction, is passed over.
pub open spec fn objective_from() -> spec_fn(Json) -> Option<ObjectiveView> {
    |j: Json|
        match as_str(get(j, "metric"@)) {
            None => None,
            Some(metric) => if min_or_max(str_or(j, "direction"@, "min"@)) {
                Some(
                    ObjectiveView {
                        metric,
                        direction: str_or(j, "direction"@, "min"@),
                        weight: weight_of(j),
                    },
                )
            } else {
                None
            },
        }
}

/// The adapter that a JSON value describes.
pub open spec fn adapter_from() -> spec_fn(Json) -> Option<AdapterView> {
    |j: Json|
        match (as_str(get(j, "tag"@)), as_str(get(j, "metric"@))) {
            (Some(tag), Some(metric)) => Some(
                AdapterView {
                    tag,
                    metric,
                    from: str_or(j, "from"@, "summary_number"@),
                    direction: str_or(j, "direction"@, "max"@),
                },
            ),
            _ => None,
        }
}

pub open spec fn items_at(j: Json, key: Seq<char>) -> Seq<Json> {
    match as_array(get(j, key)) {
        Some(a) => a,
        None => Seq::empty(),
    }
}

/// The profile that a JSON value describes.
pub open spec fn profile_from(j: Json) -> Result<ProfileView, Seq<char>> {
    match as_str(get(j, "id"@)) {
        None => Err("profile.id is required"@),
        Some(id) => {
            let version = u64_or(j, "version"@, 1);
            if version != 1 {
                Err("unsupported profile version "@ + dec(version as nat))
            } else {
                Ok(
                    ProfileView {
                        id,
                        version,
                        gates: strings_at(j, "gates"@),
                        objectives: items_at(j, "objectives"@).filter_map(objective_from()),
                        features: strings_at(j, "features"@),
                        run_adapters: items_at(j, "run_adapters"@).filter_map(adapter_from()),
                    },
                )
            }
        },
    }
}

pub open spec fn profile_result(r: Result<Profile, String>) -> Result<ProfileView, Seq<char>> {
    match r {
        Ok(p) => Ok(p@),
        Err(e) => Err(e@),
    }
}

fn read_objective(v: &Datum) -> (r: Option<Objective>)
    ensures
        match r {
            Some(o) => objective_from()(v@) == Some(o@),
            None => objective_from()(v@) is None,
        },
{
    match get_str(v, "metric") {
        None => None,
        Some(m) => {
            let direction = string_or(v, "direction", "min");
            if is_min_or_max(direction.as_str()) {
                Some(Objective { metric: copy(m.as_str()), direction, weight: read_weight(v) })
            } else {
                None
            }
        },
    }
}

fn read_adapter(v: &Datum) -> (r: Option<RunAdapter>)
    ensures
        match r {
            Some(o) => adapter_from()(v@) == Some(o@),
            None => adapter_from()(v@) is None,
        },
{
    match get_str(v, "tag") {
        None => None,
        Some(tag) => match get_str(v, "metric") {
            None => None,
            Some(m) => Some(
                RunAdapter {
                    tag: copy(tag.as_str()),
                    metric: copy(m.as_str()),
                    from: string_or(v, "from", "summary_number"),
                    direction: string_or(v, "direction", "max"),
                },
            ),
        },
    }
}

fn read_objectives(v: &Datum) -> (r: Vec<Objective>)
    ensures
        objective_views(r@) == items_at(v@, "objectives"@).filter_map(objective_from()),
{
    let mut out: Vec<Objective> = Vec::new();
    assert(objective_views(out@) =~= Seq::<ObjectiveView>::empty());
    let items = match get_items(v, "objectives") {
        Some(a) => a,
        None => {
            assert(Seq::<Json>::empty().filter_map(objective_from()) =~= Seq::<
                ObjectiveView,
            >::empty());
            return out;
        },
    };
    let ghost all = views(items@);
    assert(all.take(0).filter_map(objective_from()) =~= Seq::<ObjectiveView>::empty());
    for i in 0..items.len()
        invariant
            all == views(items@),
            objective_views(out@) == all.take(i as int).filter_map(objective_from()),
    {
        proof {
            all.lemma_filter_map_take_succ(objective_from(), i as int);
        }
        assert(all[i as int] == items@[i as int]@);
        if let Some(o) = read_objective(&items[i]) {
            let ghost before = out@;
            out.push(o);
            assert(objective_views(out@) =~= objective_views(before).push(o@));
        }
    }
    assert(all.take(all.len() as int) =~= all);
    out
}

fn read_adapters(v: &Datum) -> (r: Vec<RunAdapter>)
    ensures
        adapter_views(r@) == items_at(v@, "run_adapters"@).filter_map(adapter_from()),
{
    let mut out: Vec<RunAdapter> = Vec::new();
    assert(adapter_views(out@) =~= Seq::<AdapterView>::empty());
    let items = match get_items(v, "run_adapters") {
        Some(a) => a,
        None => {
            assert(Seq::<Json>::empty().filter_map(adapter_from()) =~= Seq::<
                AdapterView,
            >::empty());
            return out;
        },
    };
    let ghost all = views(items@);
    assert(all.take(0).filter_map(adapter_from()) =~= Seq::<AdapterView>::empty());
    for i in 0..items.len()
        invariant
            all == views(items@),
            adapter_views(out@) == all.take(i as int).filter_map(adapter_from()),
    {
        proof {
            all.lemma_filter_map_take_succ(adapter_from(), i as int);
        }
        assert(all[i as int] == items@[i as int]@);
        if let Some(o) = read_adapter(&items[i]) {
            let ghost before = out@;
            out.push(o);
            assert(adapter_views(out@) =~= adapter_views(before).push(o@));
        }
    }
    assert(all.take(all.len() as int) =~= all);
    out
}

pub fn profile_from_value(v: &Datum) -> (r: Result<Profile, String>)
    ensures
        profile_result(r) == profile_from(v@),
{
    let id = match get_str(v, "id") {
        Some(s) => copy(s.as_str()),
        None => {
            return Err(copy("profile.id is required"));
        },
    };
    let version: u64 = number_or(v, "version", 1);
    if version != 1 {
        let mut e = copy("unsupported profile version ");
        e.append(decimal(version).as_str());
        return Err(e);
    }
    Ok(
        Profile {
            id,
            version,
            gates: get_strings(v, "gates"),
            objectives: read_objectives(v),
            features: get_strings(v, "features"),
            run_adapters: read_adapters(v),
        },
    )
}

// ---------------------------------------------------------------------------
// Extending

/// `base` with the texts of the first `n` of `more` that it lacks.
pub open spec fn with_new(base: Seq<Seq<char>>, more: Seq<Seq<char>>, n: nat) -> Seq<Seq<char>>
    decreases n,
{
    if n == 0 {
        base
    } else {
        let rest = with_new(base, more, (n - 1) as nat);
        if among(rest, more[n - 1]) {
            rest
        } else {
            rest.push(more[n - 1])
        }
    }
}

/// A profile on top of the one that it extends: gates, features and adapters
/// add up, objectives replace if there are any.
pub open spec fn merged(base: ProfileView, child: ProfileView) -> ProfileView {
    ProfileView {
        id: child.id,
        version: child.version,
        gates: with_new(base.gates, child.gates, child.gates.len()),
        objectives: if child.objectives.len() > 0 {
            child.objectives
        } else {
            base.objectives
        },
        features: with_new(base.features, child.features, child.features.len()),
        run_adapters: base.run_adapters + child.run_adapters,
    }
}

fn add_new(base: Vec<String>, more: &Vec<String>) -> (r: Vec<String>)
    ensures
        strs(r@) == with_new(strs(base@), strs(more@), more@.len()),
{
    let ghost start = strs(base@);
    let mut out = base;
    for i in 0..more.len()
        invariant
            strs(out@) == with_new(start, strs(more@), i as nat),
    {
        assert(strs(more@)[i as int] == more@[i as int]@);
        if !is_among(&out, more[i].as_str()) {
            let ghost before = out@;
            out.push(copy(more[i].as_str()));
            assert(strs(out@) =~= strs(before).push(more@[i as int]@));
        }
    }
    out
}

pub fn merge(base: Profile, child: Profile) -> (r: Profile)
    ensures
        r@ == merged(base@, child@),
{
    let ghost b = base@;
    let ghost c = child@;
    let gates = add_new(base.gates, &child.gates);
    let features = add_new(base.features, &child.features);
    let mut run_adapters = base.run_adapters;
    let mut more = child.run_adapters;
    let ghost first = run_adapters@;
    let ghost second = more@;
    run_adapters.append(&mut more);
    assert(adapter_views(run_adapters@) =~= adapter_views(first) + adapter_views(second));
    let objectives = if child.objectives.len() > 0 {
        child.objectives
    } else {
        base.objectives
    };
    Profile { id: child.id, version: child.version, gates, objectives, features, run_adapters }
}

/// The profile that a JSON value extends.
pub fn parent_of(v: &Datum) -> (r: Option<&String>)
    ensures
        match r {
            Some(s) => as_str(get(v@, "extends"@)) == Some(s@),
            None => as_str(get(v@, "extends"@)) is None,
        },
{
    get_str(v, "extends")
}

pub open spec fn files_view(v: Seq<Option<Datum>>) -> Seq<Option<Json>> {
    Seq::new(
        v.len(),
        |i: int|
            match v[i] {
                Some(d) => Some(d@),
                None => None,
            },
    )
}

/// Whether `files` holds what was found for a profile and, as long as they are
/// needed, for the ones that it extends.
pub open spec fn chain_complete(id: Seq<char>, files: Seq<Option<Json>>) -> bool
    decreases files.len(),
{
    files.len() > 0 && match files[0] {
        None => true,
        Some(v) => match as_str(get(v, "extends"@)) {
            None => true,
            Some(parent) => parent == id || chain_complete(parent, files.drop_first()),
        },
    }
}

/// The profile that is asked for: the file found for it, on top of what it
/// extends, or the one that is always there.
pub open spec fn loaded(id: Seq<char>, files: Seq<Option<Json>>, dir: Seq<char>) -> Result<
    ProfileView,
    Seq<char>,
>
    decreases files.len(),
{
    if files.len() == 0 {
        Err(""@)
    } else {
        match files[0] {
            None => if id == "coordination"@ {
                Ok(coordination())
            } else {
                Err(
                    "unknown discovery profile "@ + quoted(id)
                        + "; expected coordination or a file under "@ + dir,
                )
            },
            Some(v) => match executable_fault(v) {
                Err(e) => Err(e),
                Ok(_) => match profile_from(v) {
                    Err(e) => Err(e),
                    Ok(own) => match as_str(get(v, "extends"@)) {
                        None => named(own, id),
                        Some(parent) => if parent == id {
                            Err("profile "@ + id + " cannot extend itself"@)
                        } else {
                            match loaded(parent, files.drop_first(), dir) {
                                Err(e) => Err(e),
                                Ok(base) => named(merged(base, own), id),
                            }
                        },
                    },
                },
            },
        }
    }
}

pub open spec fn named(p: ProfileView, id: Seq<char>) -> Result<ProfileView, Seq<char>> {
    if p.id != id {
        Err("profile id "@ + p.id + " does not match requested "@ + id)
    } else {
        Ok(p)
    }
}

fn check_name(p: Profile, id: &str) -> (r: Result<Profile, String>)
    ensures
        profile_result(r) == named(p@, id@),
{
    if !same(p.id.as_str(), id) {
        let mut e = copy("profile id ");
        e.append(p.id.as_str());
        e.append(" does not match requested ");
        e.append(id);
        Err(e)
    } else {
        Ok(p)
    }
}

fn load_from(id: &str, files: &Vec<Option<Datum>>, at: usize, dir: &str) -> (r: Result<
    Profile,
    String,
>)
    requires
        at <= files@.len(),
        chain_complete(id@, files_view(files@).skip(at as int)),
    ensures
        profile_result(r) == loaded(id@, files_view(files@).skip(at as int), dir@),
    decreases files@.len() - at,
{
    let ghost rest = files_view(files@).skip(at as int);
    assert(rest.drop_first() =~= files_view(files@).skip(at + 1));
    assert(rest.len() == files@.len() - at);
    assert(files@.len() == files.len());
    match &files[at] {
        None => if same(id, "coordination") {
            Ok(builtin_coordination())
        } else {
            let mut e = copy("unknown discovery profile ");
            e.append(quote(id).as_str());
            e.append("; expected coordination or a file under ");
            e.append(dir);
            Err(e)
        },
        Some(v) => {
            assert(rest[0] == Some(v@));
            if let Err(e) = reject_executable(v) {
                return Err(e);
            }
            let own = match profile_from_value(v) {
                Ok(p) => p,
                Err(e) => {
                    return Err(e);
                },
            };
            match parent_of(v) {
                None => check_name(own, id),
                Some(parent) => if same(parent.as_str(), id) {
                    let mut e = copy("profile ");
                    e.append(id);
                    e.append(" cannot extend itself");
                    Err(e)
                } else {
                    match load_from(parent.as_str(), files, at + 1, dir) {
                        Err(e) => Err(e),
                        Ok(base) => check_name(merge(base, own), id),
                    }
                },
            }
        },
    }
}

pub fn load(id: &str, files: &Vec<Option<Datum>>, dir: &str) -> (r: Result<Profile, String>)
    requires
        chain_complete(id@, files_view(files@)),
    ensures
        profile_result(r) == loaded(id@, files_view(files@), dir@),
{
    assert(files_view(files@).skip(0) =~= files_view(files@));
    load_from(id, files, 0, dir)
}

/// The profiles that can be asked for, by name: the one that is always there and
/// every readable file that executes nothing and has an id.
pub open spec fn names_of(files: Seq<Json>, n: nat) -> Seq<(Seq<char>, bool)>
    decreases n,
{
    if n == 0 {
        seq![("coordination"@, true)]
    } else {
        let rest = names_of(files, (n - 1) as nat);
        match (executable_fault(files[n - 1]), as_str(get(files[n - 1], "id"@))) {
            (Ok(_), Some(id)) => put(rest, id, true),
            _ => rest,
        }
    }
}

pub fn list_ids(files: &Vec<Datum>) -> (r: Vec<String>)
    ensures
        strs(r@) == names_of(views(files@), files@.len()).map_values(
            |kv: (Seq<char>, bool)| kv.0,
        ),
{
    let mut names: StrMap<bool> = StrMap::new();
    names.insert("coordination", true);
    assert(names@ =~= seq![("coordination"@, true)]);
    for i in 0..files.len()
        invariant
            names.wf(),
            names@ == names_of(views(files@), i as nat),
    {
        assert(views(files@)[i as int] == files@[i as int]@);
        if reject_executable(&files[i]).is_ok() {
            if let Some(id) = get_str(&files[i], "id") {
                names.insert(id.as_str(), true);
            }
        }
    }
    let ghost all = names@;
    let mut out: Vec<String> = Vec::new();
    for i in 0..names.entries.len()
        invariant
            all == names@,
            out@.len() == i,
            forall|k: int| 0 <= k < i ==> (#[trigger] out@[k])@ == all[k].0,
    {
        out.push(copy(names.entries[i].0.as_str()));
    }
    assert(strs(out@) =~= all.map_values(|kv: (Seq<char>, bool)| kv.0));
    out
}

// ---------------------------------------------------------------------------
// Metrics of runs

/// What the adapters read of a recorded run. Numbers are as JSON has them: the
/// duration, and the first number in the summary.
pub struct RunFacts {
    pub status: String,
    pub tags: Vec<String>,
    pub duration: Option<u64>,
    pub number: Option<Datum>,
}

/// The values of a [`RunFacts`].
pub struct RunView {
    pub status: Seq<char>,
    pub tags: Seq<Seq<char>>,
    pub duration: Option<u64>,
    pub number: Option<Json>,
}

pub open spec fn opt_datum(d: Option<Datum>) -> Option<Json> {
    match d {
        Some(v) => Some(v@),
        None => None,
    }
}

impl View for RunFacts {
    type V = RunView;

    open spec fn view(&self) -> RunView {
        RunView {
            status: self.status@,
            tags: strs(self.tags@),
            duration: self.duration,
            number: opt_datum(self.number),
        }
    }
}

pub open spec fn run_views(v: Seq<RunFacts>) -> Seq<RunView> {
    Seq::new(v.len(), |i: int| v[i]@)
}

/// The value that an adapter takes from a run.
pub open spec fn adapter_value(a: AdapterView, run: RunView) -> Option<Json> {
    if a.from == "duration_ms"@ {
        match run.duration {
            Some(ms) => Some(double_json(Json::UInt(ms))),
            None => None,
        }
    } else if a.from == "status_pass"@ {
        Some(
            Json::Real(
                if run.status == "passed"@ {
                    "1.0"@
                } else {
                    "0.0"@
                },
            ),
        )
    } else if a.from == "summary_number"@ {
        run.number
    } else {
        None
    }
}

/// Metrics after the first `n` adapters have looked at a run. An adapter acts on
/// runs with its tag, if its direction is known.
pub open spec fn adapted(
    m: Seq<(Seq<char>, Json)>,
    adapters: Seq<AdapterView>,
    run: RunView,
    n: nat,
) -> Seq<(Seq<char>, Json)>
    decreases n,
{
    if n == 0 {
        m
    } else {
        let rest = adapted(m, adapters, run, (n - 1) as nat);
        let a = adapters[n - 1];
        match adapter_value(a, run) {
            Some(v) => if among(run.tags, a.tag) && min_or_max(a.direction) {
                put(rest, a.metric, v)
            } else {
                rest
            },
            None => rest,
        }
    }
}

fn copy_datum(d: &Option<Datum>) -> (r: Option<Datum>)
    ensures
        opt_datum(r) == opt_datum(*d),
{
    match d {
        Some(v) => Some(v.copy()),
        None => None,
    }
}

fn take_value(a: &RunAdapter, run: &RunFacts) -> (r: Option<Datum>)
    ensures
        opt_datum(r) == adapter_value(a@, run@),
{
    let from = a.from.as_str();
    if same(from, "duration_ms") {
        match run.duration {
            Some(ms) => Some(Datum::UInt(ms).double()),
            None => None,
        }
    } else if same(from, "status_pass") {
        Some(
            Datum::Real(
                if same(run.status.as_str(), "passed") {
                    copy("1.0")
                } else {
                    copy("0.0")
                },
            ),
        )
    } else if same(from, "summary_number") {
        copy_datum(&run.number)
    } else {
        None
    }
}

pub fn apply_run_adapters(
    adapters: &Vec<RunAdapter>,
    run: &RunFacts,
    metrics: &mut StrMap<Datum>,
)
    requires
        old(metrics).wf(),
    ensures
        final(metrics).wf(),
        final(metrics)@ == adapted(
            old(metrics)@,
            adapter_views(adapters@),
            run@,
            adapters@.len(),
        ),
{
    let ghost start = metrics@;
    for i in 0..adapters.len()
        invariant
            metrics.wf(),
            metrics@ == adapted(start, adapter_views(adapters@), run@, i as nat),
    {
        let a = &adapters[i];
        assert(adapter_views(adapters@)[i as int] == a@);
        if let Some(v) = take_value(a, run) {
            if is_among(&run.tags, a.tag.as_str()) && is_min_or_max(a.direction.as_str()) {
                metrics.insert(a.metric.as_str(), v);
            }
        }
    }
}

/// Whether a number begins at a place: a digit, or a minus sign before one.
pub open spec fn number_begins(s: Seq<char>, i: int) -> bool {
    0 <= i < s.len() && (is_digit(s[i]) || (s[i] == '-' && i + 1 < s.len() && is_digit(s[i + 1])))
}

/// Where a run of digits and points ends.
pub open spec fn number_end(s: Seq<char>, i: int) -> int
    decreases s.len() - i,
{
    if i < 0 || i >= s.len() || !(is_digit(s[i]) || s[i] == '.') {
        i
    } else {
        number_end(s, i + 1)
    }
}

/// How many points stand between two places.
pub open spec fn points(s: Seq<char>, a: int, b: int) -> nat
    decreases b - a,
{
    if a >= b {
        0
    } else {
        points(s, a, b - 1) + (if s[b - 1] == '.' {
            1nat
        } else {
            0
        })
    }
}

/// The first number at or after a place: digits with at most one point, and
/// perhaps a sign. Where there are more points, the search goes on behind the
/// character that follows.
pub open spec fn number_in(s: Seq<char>, i: int) -> Option<Seq<char>>
    decreases s.len() + 1 - i,
{
    if i < 0 || i >= s.len() {
        None
    } else if number_begins(s, i) {
        let e = number_end(s, i + 1);
        if e < i + 1 || e > s.len() {
            None
        } else if points(s, i, e) <= 1 {
            Some(s.subrange(i, e))
        } else {
            number_in(s, e + 1)
        }
    } else {
        number_in(s, i + 1)
    }
}

fn is_ascii_digit(c: char) -> (r: bool)
    ensures
        r == is_digit(c),
{
    '0' <= c && c <= '9'
}

/// The text of the first number in a summary.
pub fn first_number(text: &str) -> (r: Option<String>)
    ensures
        match r {
            Some(n) => number_in(text@, 0) == Some(n@),
            None => number_in(text@, 0) is None,
        },
{
    let s = to_chars(text);
    let mut i: usize = 0;
    while i < s.len()
        invariant
            s@ == text@,
            i <= s@.len(),
            number_in(text@, 0) == number_in(text@, i as int),
        decreases s@.len() - i,
    {
        let begins: bool = is_ascii_digit(s[i]) || (s[i] == '-' && i + 1 < s.len()
            && is_ascii_digit(s[i + 1]));
        if begins {
            let start: usize = i;
            let mut e: usize = i + 1;
            let mut dots: usize = if s[i] == '.' {
                1
            } else {
                0
            };
            assert(points(s@, start as int, start + 1) == dots) by {
                assert(points(s@, start as int, start as int) == 0);
            }
            while e < s.len() && (is_ascii_digit(s[e]) || s[e] == '.')
                invariant
                    s@ == text@,
                    start < e <= s@.len(),
                    dots <= e - start,
                    dots == points(s@, start as int, e as int),
                    number_end(s@, start + 1) == number_end(s@, e as int),
                decreases s@.len() - e,
            {
                if s[e] == '.' {
                    dots = dots + 1;
                }
                e = e + 1;
            }
            assert(number_end(s@, start + 1) == e);
            if dots <= 1 {
                return Some(slice(&s, start, e));
            }
            if e >= s.len() {
                assert(number_in(text@, e + 1) is None);
                return None;
            }
            i = e + 1;
        } else {
            i = i + 1;
        }
    }
    None
}

} // verus!
