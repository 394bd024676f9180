//! Proposing or writing a named set of search paths in the project's configuration.
use vstd::prelude::*;
use crate::izakaya::board::add_line;
use crate::izakaya::replay::arranged;
use crate::json::{
    add_member, bool_or, build, flag_or, get, get_str, get_strings, json_pretty, json_strs,
    no_members, ordered, pretty, record, serde_held, set_member, str_or, str_value, string_or,
    strings_at, strs_value, texts, texts_of, with_member, Datum, Json,
};
use crate::order::{key_views, positioned, sort, sort_order, Key, KeyView};
use crate::text::{
    among, copy, copy_all, ends, ends_with, is_among, is_blank, is_plain_char, list_text, listed,
    lower_ascii, lowered, opt_text, outcome, parting, plain_char, quote, quoted, same, size,
    split_by, split_char, split_on, split_terms, starts, starts_with, strs, to_chars, trim,
    trim_end_of, trim_names, trimmed, trimmed_end_of, trimmed_names,
};

verus! {

/// Hints kept for one profile.
pub const MAX_HINTS: usize = 8;

// ---------------------------------------------------------------------------
// Names

/// A profile name: in lower case, of letters, digits, underscores and hyphens.
pub open spec fn profile_name(name: Seq<char>) -> Result<Seq<char>, Seq<char>> {
    let n = lowered(trimmed(name));
    if n.len() == 0 {
        Err("name must not be empty"@)
    } else if exists|i: int| 0 <= i < n.len() && !plain_char(#[trigger] n[i]) {
        Err("name must be alphanumeric/[_-]: "@ + quoted(name))
    } else {
        Ok(n)
    }
}

fn sanitize_profile_name(name: &str) -> (r: Result<String, String>)
    ensures
        outcome(r) == profile_name(name@),
{
    let n = lower_ascii(trim(name).as_str());
    if is_blank(n.as_str()) {
        return Err(copy("name must not be empty"));
    }
    let v = to_chars(n.as_str());
    for i in 0..v.len()
        invariant
            v@ == n@,
            n@ == lowered(trimmed(name@)),
            n@.len() > 0,
            forall|k: int| 0 <= k < i ==> plain_char(#[trigger] n@[k]),
    {
        if !is_plain_char(v[i]) {
            assert(!plain_char(n@[i as int]));
            let mut e = copy("name must be alphanumeric/[_-]: ");
            e.append(quote(name).as_str());
            return Err(e);
        }
    }
    Ok(n)
}

/// The last part of a path.
pub open spec fn last_part(p: Seq<char>) -> Seq<char> {
    split_on(p, '/').last()
}

fn find_last_part(p: &str) -> (r: String)
    ensures
        r@ == last_part(p@),
{
    let parts = split_char(p, '/');
    let n: usize = parts.len() - 1;
    assert(strs(parts@).last() == parts@[n as int]@);
    copy(parts[n].as_str())
}

/// The name that paths suggest: the last part of the first one.
pub open spec fn derived_name(paths: Seq<Seq<char>>) -> Result<Seq<char>, Seq<char>> {
    if paths.len() == 0 {
        Err("paths is required to derive a profile name"@)
    } else {
        profile_name(trimmed(last_part(trimmed_end_of(paths[0], '/'))))
    }
}

pub fn derive_name(paths: &Vec<String>) -> (r: Result<String, String>)
    ensures
        outcome(r) == derived_name(strs(paths@)),
{
    assert(strs(paths@).len() == paths@.len());
    if paths.len() == 0 {
        return Err(copy("paths is required to derive a profile name"));
    }
    assert(strs(paths@)[0] == paths@[0]@);
    let p = trim_end_of(paths[0].as_str(), '/');
    let s = trim(find_last_part(p.as_str()).as_str());
    sanitize_profile_name(s.as_str())
}

// ---------------------------------------------------------------------------
// Hints

/// What the first `n` paths hint at: themselves and their last parts.
pub open spec fn path_hints(paths: Seq<Seq<char>>, n: nat) -> Seq<Seq<char>>
    decreases n,
{
    if n == 0 {
        Seq::empty()
    } else {
        let rest = path_hints(paths, (n - 1) as nat);
        let t = trimmed_end_of(paths[n - 1], '/');
        let base = last_part(t);
        let a = if t.len() > 0 {
            rest.push(t)
        } else {
            rest
        };
        if base.len() > 0 {
            a.push(base)
        } else {
            a
        }
    }
}

/// What the first `n` terms of a query hint at: those of at least three letters.
pub open spec fn term_hints(terms: Seq<Seq<char>>, n: nat) -> Seq<Seq<char>>
    decreases n,
{
    if n == 0 {
        Seq::empty()
    } else {
        let rest = term_hints(terms, (n - 1) as nat);
        let t = lowered(trimmed(terms[n - 1]));
        if crate::text::blen(t) >= 3 {
            rest.push(t)
        } else {
            rest
        }
    }
}

pub open spec fn query_hints(query: Seq<char>) -> Seq<Seq<char>> {
    let terms = split_by(query, parting());
    term_hints(terms, terms.len())
}

fn seed_hints_from_paths(paths: &Vec<String>) -> (r: Vec<String>)
    ensures
        strs(r@) == path_hints(strs(paths@), paths@.len()),
{
    let mut out = crate::text::no_strings();
    for i in 0..paths.len()
        invariant
            strs(out@) == path_hints(strs(paths@), i as nat),
    {
        assert(strs(paths@)[i as int] == paths@[i as int]@);
        let t = trim_end_of(paths[i].as_str(), '/');
        let base = find_last_part(t.as_str());
        if !is_blank(t.as_str()) {
            add_line(&mut out, t);
        }
        if !is_blank(base.as_str()) {
            add_line(&mut out, base);
        }
    }
    out
}

fn seed_hints_from_query(query: &str) -> (r: Vec<String>)
    ensures
        strs(r@) == query_hints(query@),
{
    let terms = split_terms(query);
    let ghost all = split_by(query@, parting());
    assert(all.len() == terms@.len());
    let mut out = crate::text::no_strings();
    for i in 0..terms.len()
        invariant
            all == strs(terms@),
            strs(out@) == term_hints(all, i as nat),
    {
        assert(all[i as int] == terms@[i as int]@);
        let t = lower_ascii(trim(terms[i].as_str()).as_str());
        if size(t.as_str()) >= 3 {
            add_line(&mut out, t);
        }
    }
    out
}

/// Whether a hint was given, whatever the case of its letters.
pub open spec fn hinted(v: Seq<Seq<char>>, h: Seq<char>) -> bool {
    exists|i: int| 0 <= i < v.len() && lowered(#[trigger] v[i]) == lowered(h)
}

/// The hints among the first `n`, each once, and no more than are kept.
pub open spec fn hints_upto(v: Seq<Seq<char>>, n: nat) -> Seq<Seq<char>>
    decreases n,
{
    if n == 0 {
        Seq::empty()
    } else {
        let rest = hints_upto(v, (n - 1) as nat);
        if rest.len() >= MAX_HINTS || v[n - 1].len() == 0 || hinted(rest, v[n - 1]) {
            rest
        } else {
            rest.push(v[n - 1])
        }
    }
}

fn is_hinted(v: &Vec<String>, h: &str) -> (r: bool)
    ensures
        r == hinted(strs(v@), h@),
{
    let want = lower_ascii(h);
    for i in 0..v.len()
        invariant
            want@ == lowered(h@),
            forall|k: int| 0 <= k < i ==> lowered(#[trigger] strs(v@)[k]) != lowered(h@),
    {
        assert(strs(v@)[i as int] == v@[i as int]@);
        let x = lower_ascii(v[i].as_str());
        if same(x.as_str(), want.as_str()) {
            return true;
        }
    }
    assert(strs(v@).len() == v@.len());
    false
}

fn dedupe_hints(v: &Vec<String>) -> (r: Vec<String>)
    ensures
        strs(r@) == hints_upto(strs(v@), v@.len()),
{
    let mut out = crate::text::no_strings();
    for i in 0..v.len()
        invariant
            strs(out@) == hints_upto(strs(v@), i as nat),
    {
        assert(strs(v@)[i as int] == v@[i as int]@);
        assert(strs(out@).len() == out@.len());
        if out.len() < MAX_HINTS && !is_blank(v[i].as_str()) && !is_hinted(&out, v[i].as_str()) {
            add_line(&mut out, copy(v[i].as_str()));
        }
    }
    out
}

// ---------------------------------------------------------------------------
// Discovery

/// Whether a path lies in a covered one, or holds one.
pub open spec fn covers(c: Seq<char>, r: Seq<char>) -> bool {
    r == c || starts(r, c + "/"@) || starts(c, r + "/"@)
}

pub open spec fn covered_by(rel: Seq<char>, covered: Seq<Seq<char>>) -> bool {
    exists|i: int|
        0 <= i < covered.len() && covers(#[trigger] covered[i], trimmed_end_of(rel, '/'))
}

pub fn is_covered(rel: &str, covered: &Vec<String>) -> (r: bool)
    ensures
        r == covered_by(rel@, strs(covered@)),
{
    let r = trim_end_of(rel, '/');
    let mut below = copy(r.as_str());
    below.append("/");
    for i in 0..covered.len()
        invariant
            r@ == trimmed_end_of(rel@, '/'),
            below@ == r@ + "/"@,
            forall|k: int| 0 <= k < i ==> !covers(#[trigger] strs(covered@)[k], r@),
    {
        assert(strs(covered@)[i as int] == covered@[i as int]@);
        let c = covered[i].as_str();
        let mut inside = copy(c);
        inside.append("/");
        if same(r.as_str(), c) || starts_with(r.as_str(), inside.as_str()) || starts_with(
            c,
            below.as_str(),
        ) {
            assert(covers(strs(covered@)[i as int], r@));
            return true;
        }
    }
    assert(strs(covered@).len() == covered@.len());
    false
}

/// The first `n` paths without the slashes behind them.
pub open spec fn unslashed(v: Seq<Seq<char>>, n: nat) -> Seq<Seq<char>>
    decreases n,
{
    if n == 0 {
        Seq::empty()
    } else {
        unslashed(v, (n - 1) as nat).push(trimmed_end_of(v[n - 1], '/'))
    }
}

/// The paths of the first `n` members of an object that are lists.
pub open spec fn member_paths(ms: Seq<(Seq<char>, Json)>, n: nat) -> Seq<Seq<char>>
    decreases n,
{
    if n == 0 {
        Seq::empty()
    } else {
        let rest = member_paths(ms, (n - 1) as nat);
        match ms[n - 1].1 {
            Json::Array(items) => rest + unslashed(texts_of(items), texts_of(items).len()),
            _ => rest,
        }
    }
}

/// The paths that a configuration already covers.
pub open spec fn covered_paths(cfg: Json) -> Seq<Seq<char>> {
    let profiles = match get(cfg, "path_profiles"@) {
        Some(Json::Object(ms)) => member_paths(ms, ms.len()),
        _ => Seq::empty(),
    };
    let defaults = strings_at(cfg, "default_paths"@);
    profiles + unslashed(defaults, defaults.len())
}

fn strip_slashes(v: &Vec<String>) -> (r: Vec<String>)
    ensures
        strs(r@) == unslashed(strs(v@), v@.len()),
{
    let mut out = crate::text::no_strings();
    for i in 0..v.len()
        invariant
            strs(out@) == unslashed(strs(v@), i as nat),
    {
        assert(strs(v@)[i as int] == v@[i as int]@);
        add_line(&mut out, trim_end_of(v[i].as_str(), '/'));
    }
    out
}

pub fn covered_path_prefixes(cfg: &Datum) -> (r: Vec<String>)
    ensures
        strs(r@) == covered_paths(cfg@),
{
    let mut out = crate::text::no_strings();
    if let Some(p) = cfg.get("path_profiles") {
        if let Some(ms) = p.fields() {
            let ghost all = crate::json::members(ms@);
            assert(p@ == Json::Object(all));
            for i in 0..ms.len()
                invariant
                    all == crate::json::members(ms@),
                    strs(out@) == member_paths(all, i as nat),
            {
                assert(all[i as int] == (ms@[i as int].0@, ms@[i as int].1@));
                if let Some(items) = ms[i].1.items() {
                    let ts = texts(items);
                    assert(strs(ts@).len() == ts@.len());
                    let mut more = strip_slashes(&ts);
                    let ghost before = out@;
                    let ghost added = more@;
                    out.append(&mut more);
                    assert(strs(out@) =~= strs(before) + strs(added));
                }
            }
        }
    }
    let defaults = get_strings(cfg, "default_paths");
    assert(strs(defaults@).len() == defaults@.len());
    let mut more = strip_slashes(&defaults);
    let ghost before = out@;
    let ghost added = more@;
    out.append(&mut more);
    assert(strs(out@) =~= strs(before) + strs(added));
    out
}

/// The directories below a base that no profile covers, among the first `n`.
pub open spec fn open_dirs(
    base: Seq<char>,
    names: Seq<Seq<char>>,
    covered: Seq<Seq<char>>,
    n: nat,
) -> Seq<Seq<char>>
    decreases n,
{
    if n == 0 {
        Seq::empty()
    } else {
        let rest = open_dirs(base, names, covered, (n - 1) as nat);
        let rel = base + "/"@ + names[n - 1];
        if starts(names[n - 1], "."@) || covered_by(rel, covered) {
            rest
        } else {
            rest.push(rel)
        }
    }
}

pub open spec fn name_keys(v: Seq<Seq<char>>) -> Seq<KeyView> {
    Seq::new(v.len(), |i: int| KeyView { rank: 0, name: v[i], number: 0, at: i as nat })
}

/// The directories in which a symbol is looked for, in ascending order: those below
/// `web` and `tools`, and the scripts where there are any.
pub open spec fn candidate_dirs(
    web: Seq<Seq<char>>,
    tools: Seq<Seq<char>>,
    scripts: bool,
    covered: Seq<Seq<char>>,
) -> Seq<Seq<char>> {
    let dirs = open_dirs("web"@, web, covered, web.len()) + open_dirs(
        "tools"@,
        tools,
        covered,
        tools.len(),
    );
    let all = if scripts && !covered_by("assets/scripts"@, covered) {
        dirs.push("assets/scripts"@)
    } else {
        dirs
    };
    arranged(all, sort_order(name_keys(all)))
}

fn find_open_dirs(base: &str, names: &Vec<String>, covered: &Vec<String>) -> (r: Vec<String>)
    ensures
        strs(r@) == open_dirs(base@, strs(names@), strs(covered@), names@.len()),
{
    let mut out = crate::text::no_strings();
    for i in 0..names.len()
        invariant
            strs(out@) == open_dirs(base@, strs(names@), strs(covered@), i as nat),
    {
        assert(strs(names@)[i as int] == names@[i as int]@);
        let mut rel = copy(base);
        rel.append("/");
        rel.append(names[i].as_str());
        if !starts_with(names[i].as_str(), ".") && !is_covered(rel.as_str(), covered) {
            add_line(&mut out, rel);
        }
    }
    out
}

pub fn candidates(
    web: &Vec<String>,
    tools: &Vec<String>,
    scripts: bool,
    covered: &Vec<String>,
) -> (r: Vec<String>)
    ensures
        strs(r@) == candidate_dirs(strs(web@), strs(tools@), scripts, strs(covered@)),
{
    assert(strs(web@).len() == web@.len());
    assert(strs(tools@).len() == tools@.len());
    let mut all = find_open_dirs("web", web, covered);
    let mut more = find_open_dirs("tools", tools, covered);
    let ghost a = all@;
    let ghost b = more@;
    all.append(&mut more);
    assert(strs(all@) =~= strs(a) + strs(b));
    if scripts && !is_covered("assets/scripts", covered) {
        add_line(&mut all, copy("assets/scripts"));
    }
    let ghost v = strs(all@);
    let mut keys: Vec<Key> = Vec::new();
    for i in 0..all.len()
        invariant
            v == strs(all@),
            keys@.len() == i,
            forall|k: int|
                0 <= k < i ==> (#[trigger] keys@[k])@ == (KeyView {
                    rank: 0,
                    name: v[k],
                    number: 0,
                    at: k as nat,
                }),
    {
        keys.push(Key { rank: 0, name: copy(all[i].as_str()), number: 0, at: i });
    }
    assert(key_views(keys@) =~= name_keys(v));
    assert(positioned(key_views(keys@)));
    let order = sort(keys);
    let mut out: Vec<String> = Vec::new();
    for i in 0..order.len()
        invariant
            v == strs(all@),
            out@.len() == i,
            forall|k: int|
                0 <= k < order@.len() ==> (#[trigger] order@[k] as int) == sort_order(
                    name_keys(v),
                )[k] && order@[k] < all@.len(),
            forall|k: int| 0 <= k < i ==> (#[trigger] out@[k])@ == v[sort_order(name_keys(v))[k]],
    {
        let p: usize = order[i];
        assert(order@[i as int] as int == sort_order(name_keys(v))[i as int]);
        out.push(copy(all[p].as_str()));
    }
    assert(strs(out@) =~= arranged(v, sort_order(name_keys(v))));
    out
}

/// The directories that name the symbol, or why there are none.
pub open spec fn discovered(hits: Seq<Seq<char>>, symbol: Seq<char>) -> Result<
    Seq<Seq<char>>,
    Seq<char>,
> {
    if hits.len() == 0 {
        Err(
            "symbol "@ + quoted(symbol)
                + ": no hits under unprofiled web/*, tools/*, or assets/scripts"@,
        )
    } else {
        Ok(hits)
    }
}

pub open spec fn paths_outcome(r: Result<Vec<String>, String>) -> Result<
    Seq<Seq<char>>,
    Seq<char>,
> {
    match r {
        Ok(v) => Ok(strs(v@)),
        Err(e) => Err(e@),
    }
}

pub fn discover(hits: Vec<String>, symbol: &str) -> (r: Result<Vec<String>, String>)
    ensures
        paths_outcome(r) == discovered(strs(hits@), symbol@),
{
    assert(strs(hits@).len() == hits@.len());
    if hits.len() == 0 {
        let mut e = copy("symbol ");
        e.append(quote(symbol).as_str());
        e.append(": no hits under unprofiled web/*, tools/*, or assets/scripts");
        Err(e)
    } else {
        Ok(hits)
    }
}

// ---------------------------------------------------------------------------
// The plan

/// A profile to propose or to write.
pub struct Plan {
    pub apply: bool,
    pub set_default: bool,
    pub symbol: Option<String>,
    pub name: String,
    pub paths: Vec<String>,
    pub hints: Vec<String>,
    pub commit_paths: Vec<String>,
    pub collision: bool,
}

/// The values of a [`Plan`].
pub struct PlanView {
    pub apply: bool,
    pub set_default: bool,
    pub symbol: Option<Seq<char>>,
    pub name: Seq<char>,
    pub paths: Seq<Seq<char>>,
    pub hints: Seq<Seq<char>>,
    pub commit_paths: Seq<Seq<char>>,
    pub collision: bool,
}

impl View for Plan {
    type V = PlanView;

    open spec fn view(&self) -> PlanView {
        PlanView {
            apply: self.apply,
            set_default: self.set_default,
            symbol: opt_text(self.symbol),
            name: self.name@,
            paths: strs(self.paths@),
            hints: strs(self.hints@),
            commit_paths: strs(self.commit_paths@),
            collision: self.collision,
        }
    }
}

/// The symbol that the arguments name.
pub open spec fn symbol_of(args: Json) -> Option<Seq<char>> {
    match get(args, "symbol"@) {
        Some(Json::Str(s)) => if trimmed(s).len() > 0 {
            Some(trimmed(s))
        } else {
            None
        },
        _ => None,
    }
}

pub fn read_symbol(args: &Datum) -> (r: Option<String>)
    ensures
        opt_text(r) == symbol_of(args@),
{
    match get_str(args, "symbol") {
        Some(s) => {
            let t = trim(s.as_str());
            if is_blank(t.as_str()) {
                None
            } else {
                Some(t)
            }
        },
        None => None,
    }
}

/// A path with a slash behind it.
pub open spec fn slashed(p: Seq<char>) -> Seq<char> {
    if ends(p, "/"@) {
        p
    } else {
        p + "/"@
    }
}

/// The mode that the arguments name.
pub open spec fn mode_of(args: Json) -> Seq<char> {
    trimmed(str_or(args, "mode"@, "propose"@))
}

/// The name of the profile: the one given, or the one that the paths suggest.
pub open spec fn name_for(args: Json, paths: Seq<Seq<char>>) -> Result<Seq<char>, Seq<char>> {
    match get(args, "name"@) {
        Some(Json::Str(n)) => if trimmed(n).len() > 0 {
            profile_name(trimmed(n))
        } else {
            derived_name(paths)
        },
        _ => derived_name(paths),
    }
}

/// The hints for a profile: those given, those of its paths, those of the query.
pub open spec fn hints_for(args: Json, paths: Seq<Seq<char>>) -> Seq<Seq<char>> {
    let given = strings_at(args, "hints"@);
    let all = trimmed_names(given, given.len()) + path_hints(paths, paths.len()) + query_hints(
        trimmed(str_or(args, "query"@, ""@)),
    );
    hints_upto(all, all.len())
}

/// The paths of the profile: those given, or those found through the symbol.
pub open spec fn paths_for(
    args: Json,
    given: Result<Seq<Seq<char>>, Seq<char>>,
    found: Result<Seq<Seq<char>>, Seq<char>>,
) -> Result<Seq<Seq<char>>, Seq<char>> {
    match given {
        Err(e) => Err(e),
        Ok(p) => if p.len() == 0 && symbol_of(args) is Some {
            found
        } else {
            Ok(p)
        },
    }
}

/// The plan for a set of paths that all exist.
pub open spec fn plan_for(args: Json, paths: Seq<Seq<char>>, existing: Seq<Seq<char>>) -> Result<
    PlanView,
    Seq<char>,
> {
    match name_for(args, paths) {
        Err(e) => Err(e),
        Ok(name) => if among(existing, name) && mode_of(args) == "apply"@ && !bool_or(
            args,
            "force"@,
            false,
        ) {
            Err(
                "path profile "@ + quoted(name)
                    + " already exists; pass force:true to overwrite, or pick another name"@,
            )
        } else {
            Ok(
                PlanView {
                    apply: mode_of(args) == "apply"@,
                    set_default: bool_or(args, "set_default"@, false),
                    symbol: symbol_of(args),
                    name,
                    paths,
                    hints: hints_for(args, paths),
                    commit_paths: paths.map_values(|p: Seq<char>| slashed(p)),
                    collision: among(existing, name),
                },
            )
        },
    }
}

/// What the arguments come to, given the search paths that they name, the
/// directories that name the symbol, the first path that does not exist, and the
/// profiles that there are.
pub open spec fn planned(
    args: Json,
    given: Result<Seq<Seq<char>>, Seq<char>>,
    found: Result<Seq<Seq<char>>, Seq<char>>,
    missing: Option<Seq<char>>,
    existing: Seq<Seq<char>>,
) -> Result<PlanView, Seq<char>> {
    let mode = mode_of(args);
    if mode != "propose"@ && mode != "apply"@ {
        Err("unknown mode "@ + quoted(mode) + "; expected \"propose\" or \"apply\""@)
    } else {
        match paths_for(args, given, found) {
            Err(e) => Err(e),
            Ok(paths) => if paths.len() == 0 {
                Err(
                    "paths is required (or provide symbol so profile_upsert can discover a tree)"@,
                )
            } else {
                match missing {
                    Some(p) => Err("path does not exist under --root: "@ + p),
                    None => plan_for(args, paths, existing),
                }
            },
        }
    }
}

pub open spec fn plan_outcome(r: Result<Plan, String>) -> Result<PlanView, Seq<char>> {
    match r {
        Ok(p) => Ok(p@),
        Err(e) => Err(e@),
    }
}

fn make_name(args: &Datum, paths: &Vec<String>) -> (r: Result<String, String>)
    ensures
        outcome(r) == name_for(args@, strs(paths@)),
{
    match get_str(args, "name") {
        Some(n) => {
            let t = trim(n.as_str());
            if is_blank(t.as_str()) {
                derive_name(paths)
            } else {
                sanitize_profile_name(t.as_str())
            }
        },
        None => derive_name(paths),
    }
}

fn make_hints(args: &Datum, paths: &Vec<String>) -> (r: Vec<String>)
    ensures
        strs(r@) == hints_for(args@, strs(paths@)),
{
    let given = get_strings(args, "hints");
    assert(strs(given@).len() == given@.len());
    assert(strs(paths@).len() == paths@.len());
    let mut all = trim_names(&given);
    let mut a = seed_hints_from_paths(paths);
    let mut b = seed_hints_from_query(trim(string_or(args, "query", "").as_str()).as_str());
    let ghost x = all@;
    let ghost y = a@;
    let ghost z = b@;
    all.append(&mut a);
    all.append(&mut b);
    assert(strs(all@) =~= strs(x) + strs(y) + strs(z));
    assert(strs(all@).len() == all@.len());
    dedupe_hints(&all)
}

fn slash(paths: &Vec<String>) -> (r: Vec<String>)
    ensures
        strs(r@) == strs(paths@).map_values(|p: Seq<char>| slashed(p)),
{
    let mut out: Vec<String> = Vec::new();
    for i in 0..paths.len()
        invariant
            out@.len() == i,
            forall|k: int| 0 <= k < i ==> (#[trigger] out@[k])@ == slashed(paths@[k]@),
    {
        let mut p = copy(paths[i].as_str());
        if !ends_with(paths[i].as_str(), "/") {
            p.append("/");
        }
        out.push(p);
    }
    assert(strs(out@) =~= strs(paths@).map_values(|p: Seq<char>| slashed(p)));
    out
}

pub fn plan(
    args: &Datum,
    given: &Result<Vec<String>, String>,
    found: &Result<Vec<String>, String>,
    missing: &Option<String>,
    existing: &Vec<String>,
) -> (r: Result<Plan, String>)
    ensures
        plan_outcome(r) == planned(
            args@,
            paths_outcome(*given),
            paths_outcome(*found),
            opt_text(*missing),
            strs(existing@),
        ),
{
    let mode = trim(string_or(args, "mode", "propose").as_str());
    let apply: bool = same(mode.as_str(), "apply");
    if !apply && !same(mode.as_str(), "propose") {
        let mut e = copy("unknown mode ");
        e.append(quote(mode.as_str()).as_str());
        e.append("; expected \"propose\" or \"apply\"");
        return Err(e);
    }
    let symbol = read_symbol(args);
    let paths: Vec<String> = match given {
        Err(e) => {
            return Err(copy(e.as_str()));
        },
        Ok(p) => {
            assert(strs(p@).len() == p@.len());
            if p.len() == 0 && symbol.is_some() {
                match found {
                    Err(e) => {
                        return Err(copy(e.as_str()));
                    },
                    Ok(f) => copy_all(f),
                }
            } else {
                copy_all(p)
            }
        },
    };
    assert(strs(paths@).len() == paths@.len());
    if paths.len() == 0 {
        return Err(
            copy("paths is required (or provide symbol so profile_upsert can discover a tree)"),
        );
    }
    if let Some(p) = missing {
        let mut e = copy("path does not exist under --root: ");
        e.append(p.as_str());
        return Err(e);
    }
    let name: String = match make_name(args, &paths) {
        Ok(n) => n,
        Err(e) => {
            return Err(e);
        },
    };
    let collision: bool = is_among(existing, name.as_str());
    if collision && apply && !flag_or(args, "force", false) {
        let mut e = copy("path profile ");
        e.append(quote(name.as_str()).as_str());
        e.append(" already exists; pass force:true to overwrite, or pick another name");
        return Err(e);
    }
    let hints = make_hints(args, &paths);
    let commit_paths = slash(&paths);
    Ok(
        Plan {
            apply,
            set_default: flag_or(args, "set_default", false),
            symbol,
            name,
            paths,
            hints,
            commit_paths,
            collision,
        },
    )
}

// ---------------------------------------------------------------------------
// The answer

pub open spec fn named_list(name: Seq<char>, v: Seq<Seq<char>>) -> Json {
    record(seq![(name, json_strs(v))])
}

/// What would be merged into the configuration.
pub open spec fn patch_of(p: PlanView) -> Json {
    record(
        seq![
            ("path_profiles"@, named_list(p.name, p.paths)),
            ("profile_hints"@, named_list(p.name, p.hints)),
            ("commit_scopes"@, named_list(p.name, p.commit_paths)),
        ],
    )
}

fn make_named_list(name: &str, v: &Vec<String>) -> (r: Datum)
    ensures
        r@ == named_list(name@, strs(v@)),
{
    let mut ms = no_members();
    add_member(&mut ms, name, strs_value(v));
    assert(crate::json::members(ms@) =~= seq![(name@, json_strs(strs(v@)))]);
    build(ms)
}

pub fn make_patch(p: &Plan) -> (r: Datum)
    ensures
        r@ == patch_of(p@),
{
    let mut ms = no_members();
    add_member(&mut ms, "path_profiles", make_named_list(p.name.as_str(), &p.paths));
    add_member(&mut ms, "profile_hints", make_named_list(p.name.as_str(), &p.hints));
    add_member(&mut ms, "commit_scopes", make_named_list(p.name.as_str(), &p.commit_paths));
    assert(crate::json::members(ms@) =~= seq![
        ("path_profiles"@, named_list(p@.name, p@.paths)),
        ("profile_hints"@, named_list(p@.name, p@.hints)),
        ("commit_scopes"@, named_list(p@.name, p@.commit_paths)),
    ]);
    build(ms)
}

/// What is answered.
pub open spec fn plan_text(p: PlanView) -> Seq<char> {
    "profile_upsert - mode="@ + (if p.apply {
        "apply"@
    } else {
        "propose"@
    }) + " name="@ + quoted(p.name) + "\npaths: "@ + listed(p.paths) + "\nhints: "@ + listed(
        p.hints,
    ) + "\ncommit_scopes: "@ + listed(p.commit_paths) + "\n"@ + (if p.set_default {
        "set_default: true (will update default_profile)\n"@
    } else {
        ""@
    }) + (if p.collision {
        "(profile name already exists — apply needs force:true)\n"@
    } else {
        ""@
    }) + (match p.symbol {
        Some(s) => "discovered via symbol: "@ + quoted(s) + "\n"@,
        None => ""@,
    }) + (if p.apply {
        "\nwrote .wordkeep/config.json; use profile:"@ + quoted(p.name) + " on symbol tools.\n"@
    } else {
        "\n(dry-run; pass mode:\"apply\" to write .wordkeep/config.json)\n"@
            + "\ncandidate patch:\n"@ + json_pretty(serde_held(patch_of(p))) + "\n"@
    })
}

pub fn render(p: &Plan) -> (r: String)
    ensures
        r@ == plan_text(p@),
{
    let mut t = copy("profile_upsert - mode=");
    t.append(
        if p.apply {
            "apply"
        } else {
            "propose"
        },
    );
    t.append(" name=");
    t.append(quote(p.name.as_str()).as_str());
    t.append("\npaths: ");
    t.append(list_text(&p.paths).as_str());
    t.append("\nhints: ");
    t.append(list_text(&p.hints).as_str());
    t.append("\ncommit_scopes: ");
    t.append(list_text(&p.commit_paths).as_str());
    t.append("\n");
    t.append(
        if p.set_default {
            "set_default: true (will update default_profile)\n"
        } else {
            ""
        },
    );
    t.append(
        if p.collision {
            "(profile name already exists — apply needs force:true)\n"
        } else {
            ""
        },
    );
    let via: String = match &p.symbol {
        Some(s) => {
            let mut m = copy("discovered via symbol: ");
            m.append(quote(s.as_str()).as_str());
            m.append("\n");
            m
        },
        None => copy(""),
    };
    t.append(via.as_str());
    let tail: String = if p.apply {
        let mut m = copy("\nwrote .wordkeep/config.json; use profile:");
        m.append(quote(p.name.as_str()).as_str());
        m.append(" on symbol tools.\n");
        m
    } else {
        let mut m = copy("\n(dry-run; pass mode:\"apply\" to write .wordkeep/config.json)\n");
        m.append("\ncandidate patch:\n");
        m.append(pretty(&make_patch(p)).as_str());
        m.append("\n");
        m
    };
    t.append(tail.as_str());
    t
}

/// An object with its members in order; an empty one in place of anything else.
pub open spec fn object_or_empty(j: Option<Json>) -> Json {
    match j {
        Some(Json::Object(ms)) => record(ms),
        _ => record(Seq::empty()),
    }
}

/// A configuration with a list set in one of its objects.
pub open spec fn with_entry(
    cfg: Json,
    key: Seq<char>,
    name: Seq<char>,
    v: Seq<Seq<char>>,
) -> Json {
    with_member(cfg, key, with_member(object_or_empty(get(cfg, key)), name, json_strs(v)))
}

/// A configuration with the plan merged into it.
pub open spec fn merged(cfg: Json, p: PlanView) -> Result<Json, Seq<char>> {
    match cfg {
        Json::Object(ms) => {
            let a = with_entry(record(ms), "path_profiles"@, p.name, p.paths);
            let b = with_entry(a, "profile_hints"@, p.name, p.hints);
            let c = with_entry(b, "commit_scopes"@, p.name, p.commit_paths);
            Ok(
                if p.set_default {
                    with_member(c, "default_profile"@, Json::Str(p.name))
                } else {
                    c
                },
            )
        },
        _ => Err(".wordkeep/config.json root must be a JSON object"@),
    }
}

fn tidy(v: Option<&Datum>) -> (r: Datum)
    ensures
        r@ == object_or_empty(crate::json::opt_view(v)),
        ordered(r@),
{
    match v {
        Some(d) => match d.fields() {
            Some(ms) => {
                let mut out = no_members();
                for i in 0..ms.len()
                    invariant
                        crate::json::members(out@) == crate::json::members(ms@).take(i as int),
                {
                    let ghost before = crate::json::members(out@);
                    add_member(&mut out, ms[i].0.as_str(), ms[i].1.copy());
                    assert(crate::json::members(ms@).take(i + 1) =~= before.push(
                        crate::json::members(ms@)[i as int],
                    ));
                }
                assert(crate::json::members(ms@).take(ms@.len() as int) =~= crate::json::members(
                    ms@,
                ));
                build(out)
            },
            None => {
                let ms = no_members();
                build(ms)
            },
        },
        None => {
            let ms = no_members();
            build(ms)
        },
    }
}

fn set_entry(cfg: Datum, key: &str, name: &str, v: &Vec<String>) -> (r: Datum)
    requires
        ordered(cfg@),
    ensures
        r@ == with_entry(cfg@, key@, name@, strs(v@)),
        ordered(r@),
{
    let inner = tidy(cfg.get(key));
    let inner = set_member(inner, name, strs_value(v));
    set_member(cfg, key, inner)
}

pub open spec fn datum_outcome(r: Result<Datum, String>) -> Result<Json, Seq<char>> {
    match r {
        Ok(d) => Ok(d@),
        Err(e) => Err(e@),
    }
}

/// Merges a plan into a configuration; what is not part of it stays.
pub fn merge(cfg: &Datum, p: &Plan) -> (r: Result<Datum, String>)
    ensures
        datum_outcome(r) == merged(cfg@, p@),
{
    if cfg.fields().is_none() {
        return Err(copy(".wordkeep/config.json root must be a JSON object"));
    }
    let c = tidy(Some(cfg));
    let c = set_entry(c, "path_profiles", p.name.as_str(), &p.paths);
    let c = set_entry(c, "profile_hints", p.name.as_str(), &p.hints);
    let c = set_entry(c, "commit_scopes", p.name.as_str(), &p.commit_paths);
    if p.set_default {
        Ok(set_member(c, "default_profile", str_value(p.name.as_str())))
    } else {
        Ok(c)
    }
}

/// The text of a configuration as it is written.
pub fn config_text(cfg: &Datum) -> (r: String)
    ensures
        r@ == json_pretty(serde_held(cfg@)) + "\n"@,
{
    let mut t = pretty(cfg);
    t.append("\n");
    t
}

// ---------------------------------------------------------------------------
// Laws

/// Merging a plan leaves every other member of the configuration as it was.
pub proof fn law_merge_keeps_the_rest(cfg: Json, p: PlanView, key: Seq<char>)
    requires
        cfg is Object,
        ordered(cfg),
        key != "path_profiles"@,
        key != "profile_hints"@,
        key != "commit_scopes"@,
        key != "default_profile"@,
    ensures
        merged(cfg, p) matches Ok(m) && get(m, key) == get(cfg, key),
{
    let ms = cfg->Object_0;
    crate::json::lemma_put_all_ascending(ms);
    let r = record(ms);
    let a = with_entry(r, "path_profiles"@, p.name, p.paths);
    let b = with_entry(a, "profile_hints"@, p.name, p.hints);
    let c = with_entry(b, "commit_scopes"@, p.name, p.commit_paths);
    lemma_with_member(
        r,
        "path_profiles"@,
        with_member(object_or_empty(get(r, "path_profiles"@)), p.name, json_strs(p.paths)),
        key,
    );
    lemma_with_member(
        a,
        "profile_hints"@,
        with_member(object_or_empty(get(a, "profile_hints"@)), p.name, json_strs(p.hints)),
        key,
    );
    lemma_with_member(
        b,
        "commit_scopes"@,
        with_member(object_or_empty(get(b, "commit_scopes"@)), p.name, json_strs(p.commit_paths)),
        key,
    );
    lemma_with_member(c, "default_profile"@, Json::Str(p.name), key);
}

proof fn lemma_with_member(j: Json, key: Seq<char>, value: Json, other: Seq<char>)
    requires
        j is Object,
    ensures
        with_member(j, key, value) is Object,
        get(with_member(j, key, value), other) == (if other == key {
            Some(value)
        } else {
            get(j, other)
        }),
{
    let ms = j->Object_0;
    crate::smap::lemma_at_put(ms, key, value, other);
    crate::json::lemma_lookup_at(crate::smap::put(ms, key, value), other);
    crate::json::lemma_lookup_at(ms, other);
}

/// What an object of a configuration has under a name.
pub open spec fn entry_at(cfg: Json, key: Seq<char>, name: Seq<char>) -> Option<Json> {
    match get(cfg, key) {
        Some(x) => get(x, name),
        None => None,
    }
}

/// After a merge the profile has the paths, the hints and the scopes of the plan.
pub proof fn law_merge_sets_the_profile(cfg: Json, p: PlanView)
    requires
        cfg is Object,
    ensures
        merged(cfg, p) matches Ok(m) ==> {
            &&& entry_at(m, "path_profiles"@, p.name) == Some(json_strs(p.paths))
            &&& entry_at(m, "profile_hints"@, p.name) == Some(json_strs(p.hints))
            &&& entry_at(m, "commit_scopes"@, p.name) == Some(json_strs(p.commit_paths))
        },
        merged(cfg, p) is Ok,
{
    reveal_strlit("path_profiles");
    reveal_strlit("profile_hints");
    reveal_strlit("commit_scopes");
    reveal_strlit("default_profile");
    assert("path_profiles"@[0] == 'p' && "path_profiles"@[1] == 'a');
    assert("profile_hints"@[0] == 'p' && "profile_hints"@[1] == 'r');
    assert("commit_scopes"@[0] == 'c');
    assert("default_profile"@[0] == 'd');
    let ms = cfg->Object_0;
    let r = record(ms);
    let ra = object_or_empty(get(r, "path_profiles"@));
    let va = with_member(ra, p.name, json_strs(p.paths));
    let a = with_entry(r, "path_profiles"@, p.name, p.paths);
    let rb = object_or_empty(get(a, "profile_hints"@));
    let vb = with_member(rb, p.name, json_strs(p.hints));
    let b = with_entry(a, "profile_hints"@, p.name, p.hints);
    let rc = object_or_empty(get(b, "commit_scopes"@));
    let vc = with_member(rc, p.name, json_strs(p.commit_paths));
    let c = with_entry(b, "commit_scopes"@, p.name, p.commit_paths);
    lemma_with_member(ra, p.name, json_strs(p.paths), p.name);
    lemma_with_member(rb, p.name, json_strs(p.hints), p.name);
    lemma_with_member(rc, p.name, json_strs(p.commit_paths), p.name);
    lemma_with_member(r, "path_profiles"@, va, "path_profiles"@);
    lemma_with_member(a, "profile_hints"@, vb, "path_profiles"@);
    lemma_with_member(a, "profile_hints"@, vb, "profile_hints"@);
    lemma_with_member(b, "commit_scopes"@, vc, "path_profiles"@);
    lemma_with_member(b, "commit_scopes"@, vc, "profile_hints"@);
    lemma_with_member(b, "commit_scopes"@, vc, "commit_scopes"@);
    lemma_with_member(c, "default_profile"@, Json::Str(p.name), "path_profiles"@);
    lemma_with_member(c, "default_profile"@, Json::Str(p.name), "profile_hints"@);
    lemma_with_member(c, "default_profile"@, Json::Str(p.name), "commit_scopes"@);
}

/// A profile that is there is written over only where that was forced.
pub proof fn law_no_overwrite_unforced(
    args: Json,
    given: Result<Seq<Seq<char>>, Seq<char>>,
    found: Result<Seq<Seq<char>>, Seq<char>>,
    missing: Option<Seq<char>>,
    existing: Seq<Seq<char>>,
)
    requires
        !bool_or(args, "force"@, false),
    ensures
        planned(args, given, found, missing, existing) matches Ok(p) ==> p.apply ==> !among(
            existing,
            p.name,
        ),
{
}

} // verus!
