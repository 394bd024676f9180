//! What is said when a session is handed on, what requests ask for, and what is kept of
//! embeddings.
use vstd::prelude::*;
use crate::izakaya::replay::distinct;
use crate::json::{get, json_pretty, serde_held, str_or, strings_at, texts_of, u64_or, Json};
use crate::knowledge::embed::{
    batch_of, embed_key, embed_text, fnv_bytes, fnv_parts, fnv_step, head_keys, head_size,
    head_texts, kept_at, misses_of, no_embeddings, offered, reranked, taken_in, CacheView,
};
use crate::knowledge::search::{by_score, Scored};
use crate::knowledge::upsert::{entry_of, upsert_of, upsert_path, EntryView as PageEntry};
use crate::knowledge::ChunkView;
use crate::lang::Lang;
use crate::laws::texts::{flat, lemma_flat_push};
use crate::mas::closing::{
    brief_rows, closing_baseline, defect_rows, defects_text, draft_text, gathered, handoff_kind,
    handoff_notes, handoffs_text, last_rows, last_section, lists_text, marked_rows, marked_section,
    prompt_text, runs_text, ClosingView, DefectView, Part,
};
use crate::mas::posting::{convergence, role_rows, roles_upto, status_text};
use crate::mas::{rounds_left, EntryView, SessionView};
use crate::module_map::map_ask_of;
use crate::profile_upsert::{covered_paths, member_paths, patch_of, plan_text, unslashed, PlanView};
use crate::runs::RunView;
use crate::runtime::{
    delta_line, diff_text, inner, kinds_of, member_values, named_deltas, number_of, numeric,
    pools_of,
};
use crate::smap::{at, lemma_at_put};
use crate::stats::report::{log_of, reset_text, stat_of, EventLog, ToolStat};
use crate::stats::{events_in, logged, EventView, Tool};
use crate::symbol_def::{briefs_of, briefs_upto, has_definitions, located, located_in_source};
use crate::symbol_refs::{classified, found_text, query_of, PageView, QueryView};
use crate::symbol_resolve::{normalized, wanted_of};
use crate::syntax::source_nodes;
use crate::text::{blen, dec, joined, listed, lowercase, quoted, trimmed, trimmed_end_of};

verus! {

// ---------------------------------------------------------------------------
// Handing on

/// A section of the latest items has a heading, and is left out without any.
pub proof fn law_section_of_the_latest(heading: Seq<char>, v: Seq<Seq<char>>, cap: nat)
    ensures
        v.len() == 0 ==> last_section(heading, v, cap).len() == 0,
        0 < v.len() <= cap ==> last_section(heading, v, cap) == heading + last_rows(v, v.len())
            + "\n"@,
        v.len() > cap ==> last_section(heading, v, cap) == heading + last_rows(v, cap) + "\n"@,
{
    reveal_strlit("");
}

proof fn lemma_marked_rows(v: Seq<Seq<char>>, open: Seq<char>, close: Seq<char>, n: nat)
    requires
        n <= v.len(),
    ensures
        marked_rows(v, open, close, n) == flat(Seq::new(n, |i: int| open + v[i] + close)),
    decreases n,
{
    reveal_strlit("");
    let all = Seq::new(n, |i: int| open + v[i] + close);
    if n > 0 {
        let m = (n - 1) as nat;
        lemma_marked_rows(v, open, close, m);
        let before = Seq::new(m, |i: int| open + v[i] + close);
        lemma_flat_push(before, all[n - 1]);
        assert(all =~= before.push(all[n - 1]));
        let e = marked_rows(v, open, close, m);
        assert(e + (open + v[n - 1] + close) =~= e + open + v[n - 1] + close);
    } else {
        assert(all =~= Seq::<Seq<char>>::empty());
    }
}

/// A section of marked items has a row for each, between its marks, and is left out without
/// any.
pub proof fn law_section_of_marked_items(
    heading: Seq<char>,
    v: Seq<Seq<char>>,
    open: Seq<char>,
    close: Seq<char>,
)
    ensures
        v.len() == 0 ==> marked_section(heading, v, open, close).len() == 0,
        v.len() > 0 ==> marked_section(heading, v, open, close) == heading + flat(
            Seq::new(v.len(), |i: int| open + v[i] + close),
        ) + "\n"@,
{
    reveal_strlit("");
    lemma_marked_rows(v, open, close, v.len());
}

/// Defects are shown, as many as may be, or none.
pub proof fn law_defects_in_a_prompt(v: Seq<DefectView>, cap: nat)
    ensures
        v.len() == 0 ==> defects_text(v, cap) == "## Priority defects (unresolved)\n\n"@
            + "(none)\n\n"@,
        0 < v.len() <= cap ==> defects_text(v, cap) == "## Priority defects (unresolved)\n\n"@ + (
        defect_rows(v, v.len()) + "\n"@),
        v.len() > cap ==> defects_text(v, cap) == "## Priority defects (unresolved)\n\n"@ + (
        defect_rows(v, cap) + "\n"@),
{
}

proof fn lemma_brief_rows(v: Seq<RunView>, n: nat)
    requires
        n <= v.len(),
    ensures
        brief_rows(v, n) == flat(
            Seq::new(
                n,
                |i: int| "- ["@ + v[i].status + "] "@ + v[i].id + " — "@ + v[i].command + "\n"@,
            ),
        ),
    decreases n,
{
    reveal_strlit("");
    let f = |i: int| "- ["@ + v[i].status + "] "@ + v[i].id + " — "@ + v[i].command + "\n"@;
    let all = Seq::new(n, f);
    if n > 0 {
        let m = (n - 1) as nat;
        lemma_brief_rows(v, m);
        let before = Seq::new(m, f);
        lemma_flat_push(before, all[n - 1]);
        assert(all =~= before.push(all[n - 1]));
        let e = brief_rows(v, m);
        let r = v[n - 1];
        assert(e + ("- ["@ + r.status + "] "@ + r.id + " — "@ + r.command + "\n"@) =~= e + "- ["@
            + r.status + "] "@ + r.id + " — "@ + r.command + "\n"@);
    } else {
        assert(all =~= Seq::<Seq<char>>::empty());
    }
}

/// Runs are shown one to a row with their status, name and command, or none is recorded.
pub proof fn law_runs_in_a_prompt(v: Seq<RunView>)
    ensures
        v.len() == 0 ==> runs_text(v) == "## Recent gate runs\n\n"@ + "(none recorded)\n\n"@,
        v.len() > 0 ==> runs_text(v) == "## Recent gate runs\n\n"@ + (flat(
            Seq::new(
                v.len(),
                |i: int| "- ["@ + v[i].status + "] "@ + v[i].id + " — "@ + v[i].command + "\n"@,
            ),
        ) + "\n"@),
{
    lemma_brief_rows(v, v.len());
}

/// The latest three handoffs of a session are shown, where it has some.
pub proof fn law_handoffs_in_a_prompt(v: Seq<EntryView>)
    ensures
        ({
            let hs = v.filter(handoff_kind());
            let n = if hs.len() > 3 {
                3
            } else {
                hs.len()
            };
            &&& hs.len() == 0 ==> handoffs_text(v).len() == 0
            &&& hs.len() > 0 ==> handoffs_text(v) == "## Handoff notes\n\n"@ + handoff_notes(hs, n)
        }),
{
    reveal_strlit("");
}

/// The lists of a session stand in this order: decisions, questions, anchors, commands and
/// constraints; the last three without repeats.
pub proof fn law_lists_in_a_prompt(v: Seq<EntryView>)
    ensures
        ({
            let n = v.len();
            let decisions = last_section(
                "## Decisions\n\n"@,
                gathered(v, Part::Decisions, n),
                12,
            );
            let questions = last_section(
                "## Open questions\n\n"@,
                gathered(v, Part::Questions, n),
                12,
            );
            let anchors = distinct(gathered(v, Part::Anchors, n));
            let commands = marked_section(
                "## Commands\n\n"@,
                distinct(gathered(v, Part::Commands, n)),
                "- `"@,
                "`\n"@,
            );
            let constraints = marked_section(
                "## Constraints\n\n"@,
                distinct(gathered(v, Part::Constraints, n)),
                "- "@,
                "\n"@,
            );
            &&& anchors.len() == 0 ==> lists_text(v) == decisions + questions + commands
                + constraints
            &&& anchors.len() > 0 ==> lists_text(v) == decisions + questions + ("## Anchors\n\n"@
                + joined(anchors, ", "@) + "\n\n"@) + commands + constraints
        }),
{
    reveal_strlit("");
    let n = v.len();
    let a = last_section("## Decisions\n\n"@, gathered(v, Part::Decisions, n), 12) + last_section(
        "## Open questions\n\n"@,
        gathered(v, Part::Questions, n),
        12,
    );
    assert(a + ""@ =~= a);
}

/// What a session is handed on with: where it was, its result, the defects, runs, lists and
/// handoffs, and which tools come first.
pub proof fn law_what_is_handed_on(
    workspace: Seq<char>,
    s: SessionView,
    extra: Option<Seq<char>>,
    defects: Seq<DefectView>,
    runs: Seq<RunView>,
)
    ensures
        ({
            let start = "# Next-session prime (Wordkeep handoff)\n\n"@ + "Workspace: "@ + workspace
                + "\nSession: "@ + s.session + " (status="@ + s.status + ", round "@ + dec(
                s.round as nat,
            ) + "/"@ + dec(s.max_rounds as nat) + ")\n\n"@;
            let tools =
                "## Suggested first tools\n\n         1. `defect_list`\n         2. `session_pressure`\n         3. `run_history`\n         4. `knowledge_search` for the active subsystem\n"@;
            let r = prompt_text(workspace, s, extra, defects, runs);
            let goal = |g: Seq<char>| start + ("## Result / goal\n\n"@ + g + "\n\n"@);
            let rest = |t: Seq<char>|
                t + defects_text(defects, 12) + runs_text(runs) + lists_text(s.entries)
                    + handoffs_text(s.entries) + tools;
            &&& extra matches Some(g) ==> r == rest(goal(g))
            &&& extra is None && s.result is Some ==> r == rest(goal(s.result->Some_0))
            &&& extra is None && s.result is None ==> r == rest(start)
        }),
{
    reveal_strlit("");
    let start = "# Next-session prime (Wordkeep handoff)\n\n"@ + "Workspace: "@ + workspace
        + "\nSession: "@ + s.session + " (status="@ + s.status + ", round "@ + dec(s.round as nat)
        + "/"@ + dec(s.max_rounds as nat) + ")\n\n"@;
    assert(start + ""@ =~= start);
}

/// What a draft says: that it is one, which session it may be, and defects and runs.
pub proof fn law_what_a_draft_says(
    workspace: Seq<char>,
    session: Option<Seq<char>>,
    defects: Seq<DefectView>,
    runs: Seq<RunView>,
)
    ensures
        ({
            let start = "# Next-session prime (Wordkeep autopilot draft)\n\n"@ + "Workspace: "@
                + workspace + "\n"@;
            let note =
                "\nNOTE: draft only — call `session_handoff` to persist / reset pressure.\n\n"@;
            let tools =
                "## Suggested first tools\n\n1. `defect_list`\n2. `session_pressure`\n3. `run_history`\n4. `knowledge_search` for the active subsystem\n"@;
            let r = draft_text(workspace, session, defects, runs);
            let rest = |t: Seq<char>|
                t + note + defects_text(defects, 8) + runs_text(runs) + tools;
            &&& session is None ==> r == rest(start)
            &&& session matches Some(n) ==> r == rest(start + ("Session hint: "@ + n + "\n"@))
        }),
{
    reveal_strlit("");
    let start = "# Next-session prime (Wordkeep autopilot draft)\n\n"@ + "Workspace: "@ + workspace
        + "\n"@;
    assert(start + ""@ =~= start);
}

/// Closing a session counts its result and some for each entry.
pub proof fn law_what_closing_counts(c: ClosingView, s: SessionView)
    requires
        blen(c.result) / 4 + s.entries.len() * 64 <= u64::MAX,
    ensures
        closing_baseline(c, s) == blen(c.result) / 4 + s.entries.len() * 64,
{
}

proof fn lemma_role_rows(v: Seq<(Seq<char>, u64)>, n: nat)
    requires
        n <= v.len(),
    ensures
        role_rows(v, n) == flat(
            Seq::new(n, |i: int| "  "@ + v[i].0 + ": "@ + dec(v[i].1 as nat) + "\n"@),
        ),
    decreases n,
{
    reveal_strlit("");
    let f = |i: int| "  "@ + v[i].0 + ": "@ + dec(v[i].1 as nat) + "\n"@;
    let all = Seq::new(n, f);
    if n > 0 {
        let m = (n - 1) as nat;
        lemma_role_rows(v, m);
        let before = Seq::new(m, f);
        lemma_flat_push(before, all[n - 1]);
        assert(all =~= before.push(all[n - 1]));
        let e = role_rows(v, m);
        assert(e + ("  "@ + v[n - 1].0 + ": "@ + dec(v[n - 1].1 as nat) + "\n"@) =~= e + "  "@
            + v[n - 1].0 + ": "@ + dec(v[n - 1].1 as nat) + "\n"@);
    } else {
        assert(all =~= Seq::<Seq<char>>::empty());
    }
}

/// What is said of a session: its status, rounds and those left, how large an entry may be,
/// what waits to be written, how many entries each role has, and whether it converges.
pub proof fn law_what_is_said_of_a_session(
    session: Seq<char>,
    s: SessionView,
    entry_cap: u64,
    pending: u64,
)
    ensures
        ({
            let roles = roles_upto(s.entries, s.entries.len());
            let left = if s.max_rounds > s.round {
                s.max_rounds - s.round
            } else {
                0
            };
            let start = "mas_status - session "@ + session + "\nstatus: "@ + s.status + "\nround: "@
                + dec(s.round as nat) + "/"@ + dec(s.max_rounds as nat) + "\nrounds_remaining: "@
                + dec(left as nat) + "\nentry_cap_tokens: "@ + dec(entry_cap as nat) + "\n"@;
            let waits = start + ("pending_effect_writes: "@ + dec(pending as nat)
                + " (finalize with effects: commit|recover)\n"@);
            let rows = if roles.len() == 0 {
                "  (none)\n"@
            } else {
                flat(
                    Seq::new(
                        roles.len(),
                        |i: int| "  "@ + roles[i].0 + ": "@ + dec(roles[i].1 as nat) + "\n"@,
                    ),
                )
            };
            let end = |t: Seq<char>|
                t + "entries_by_role:\n"@ + rows + "convergence: "@ + convergence(s.entries)
                    + "\n"@;
            &&& pending == 0 ==> status_text(session, s, entry_cap, pending) == end(start)
            &&& pending > 0 ==> status_text(session, s, entry_cap, pending) == end(waits)
        }),
{
    reveal_strlit("");
    let roles = roles_upto(s.entries, s.entries.len());
    lemma_role_rows(roles, roles.len());
    let start = "mas_status - session "@ + session + "\nstatus: "@ + s.status + "\nround: "@ + dec(
        s.round as nat,
    ) + "/"@ + dec(s.max_rounds as nat) + "\nrounds_remaining: "@ + dec(rounds_left(s) as nat)
        + "\nentry_cap_tokens: "@ + dec(entry_cap as nat) + "\n"@;
    assert(start + ""@ =~= start);
}

// ---------------------------------------------------------------------------
// Requests

/// What references are asked for: a symbol, a role, how many at least, and how much may be
/// given back.
pub proof fn law_what_references_are_asked_for(j: Json, resume_at: u64)
    ensures
        ({
            let symbol = trimmed(str_or(j, "symbol"@, ""@));
            let max = u64_or(j, "max"@, 60);
            &&& query_of(j, resume_at) is None <==> symbol.len() == 0
            &&& query_of(j, resume_at) matches Some(q) ==> q.symbol == symbol && q.kind == lowercase(
                str_or(j, "kind"@, "all"@),
            ) && (max >= 1 ==> q.max == max) && (max == 0 ==> q.max == 1) && q.budget == u64_or(
                j,
                "token_budget"@,
                1200,
            ) && q.resume_at == resume_at
        }),
{
}

/// Where nothing is found from the start, that is said, with a hint.
pub proof fn law_nothing_is_found(p: PageView, q: QueryView, hint: Seq<char>)
    ensures
        p.shown == 0 && q.resume_at == 0 ==> found_text(p, q, hint) == p.text
            + "(no matching occurrences)\n"@ + hint,
        p.shown > 0 || q.resume_at > 0 ==> found_text(p, q, hint) == p.text,
{
}

/// What a map of modules is asked for: numbers that have to be one at least are.
pub proof fn law_what_a_map_of_modules_is_asked_for(args: Json, resume_at: u64)
    ensures
        ({
            let at_least = |n: u64|
                if n == 0 {
                    1u64
                } else {
                    n
                };
            let m = map_ask_of(args, resume_at);
            let depth = crate::json::as_u64(get(args, "depth"@));
            &&& depth is None ==> m.depth is None
            &&& depth matches Some(d) ==> m.depth == Some(at_least(d))
            &&& m.max == at_least(u64_or(args, "max"@, 40))
            &&& m.samples == u64_or(args, "samples"@, 3)
            &&& m.min_edge == at_least(u64_or(args, "min_edge"@, 1))
            &&& m.focus == trimmed(str_or(args, "focus"@, ""@))
            &&& m.budget == u64_or(args, "token_budget"@, 1200)
            &&& m.resume_at == resume_at
        }),
{
}

/// What is to be resolved: a symbol that something is left of, how many suggestions at least,
/// and whether it was said where to look.
pub proof fn law_what_is_to_be_resolved(args: Json)
    ensures
        ({
            let raw = trimmed(str_or(args, "symbol"@, ""@));
            let max = u64_or(args, "max"@, 8);
            &&& wanted_of(args) is None <==> raw.len() == 0 || normalized(raw).len() == 0
            &&& wanted_of(args) matches Some(w) ==> w.raw == raw && w.symbol == normalized(raw) && (
            max >= 1 ==> w.max == max) && (max == 0 ==> w.max == 1) && (w.scoped <==> get(
                args,
                "paths"@,
            ) is Some || get(args, "profile"@) is Some)
        }),
{
}

/// A page of notes is written where its entry is sound and its path is taken.
pub proof fn law_pages_that_are_written(j: Json)
    ensures
        entry_of(j) matches Err(e) ==> upsert_of(j) == Err::<(PageEntry, Seq<char>), Seq<char>>(e),
        entry_of(j) matches Ok(e) ==> {
            &&& upsert_path(e.path) matches Err(f) ==> upsert_of(j) == Err::<
                (PageEntry, Seq<char>),
                Seq<char>,
            >(f)
            &&& upsert_path(e.path) matches Ok(p) ==> upsert_of(j) == Ok::<
                (PageEntry, Seq<char>),
                Seq<char>,
            >((e, p))
        },
{
}

/// Languages without a grammar have no definitions and no roles.
pub proof fn law_languages_with_definitions(lang: Lang)
    ensures
        has_definitions(lang) <==> lang.grammar() is Some,
        classified(lang) <==> lang.grammar() is Some,
{
}

/// Definitions are looked for in what can be parsed; where nothing can, there is none.
pub proof fn law_definitions_of_a_source(
    lang: Lang,
    raw: Seq<char>,
    rel: Seq<char>,
    symbol: Seq<char>,
    want_body: bool,
)
    ensures
        source_nodes(lang, raw) is None ==> located_in_source(
            lang,
            raw,
            rel,
            symbol,
            want_body,
        ) is None && briefs_of(lang, raw).len() == 0,
        source_nodes(lang, raw) matches Some(ns) ==> located_in_source(
            lang,
            raw,
            rel,
            symbol,
            want_body,
        ) == located(lang, ns, lang.prepared(raw), rel, symbol, want_body) && briefs_of(lang, raw)
            == briefs_upto(lang, ns, lang.prepared(raw), ns.len()),
{
}

// ---------------------------------------------------------------------------
// Profiles

/// What a plan says: what it would do, under which name, and on which paths; what is set, what
/// is in its way, how the paths were found, and whether it was written.
pub proof fn law_what_a_plan_says(p: PlanView)
    ensures
        ({
            let mode = if p.apply {
                "apply"@
            } else {
                "propose"@
            };
            let start = "profile_upsert - mode="@ + mode + " name="@ + quoted(p.name) + "\npaths: "@
                + listed(p.paths) + "\nhints: "@ + listed(p.hints) + "\ncommit_scopes: "@ + listed(
                p.commit_paths,
            ) + "\n"@;
            let a = if p.set_default {
                start + "set_default: true (will update default_profile)\n"@
            } else {
                start
            };
            let b = if p.collision {
                a + "(profile name already exists — apply needs force:true)\n"@
            } else {
                a
            };
            let c = match p.symbol {
                Some(s) => b + ("discovered via symbol: "@ + quoted(s) + "\n"@),
                None => b,
            };
            &&& p.apply ==> plan_text(p) == c + ("\nwrote .wordkeep/config.json; use profile:"@
                + quoted(p.name) + " on symbol tools.\n"@)
            &&& !p.apply ==> plan_text(p) == c + (
            "\n(dry-run; pass mode:\"apply\" to write .wordkeep/config.json)\n"@
                + "\ncandidate patch:\n"@ + json_pretty(serde_held(patch_of(p))) + "\n"@)
        }),
{
    reveal_strlit("");
    let mode = if p.apply {
        "apply"@
    } else {
        "propose"@
    };
    let start = "profile_upsert - mode="@ + mode + " name="@ + quoted(p.name) + "\npaths: "@
        + listed(p.paths) + "\nhints: "@ + listed(p.hints) + "\ncommit_scopes: "@ + listed(
        p.commit_paths,
    ) + "\n"@;
    let a = if p.set_default {
        start + "set_default: true (will update default_profile)\n"@
    } else {
        start
    };
    assert(start + ""@ =~= start);
    let b = if p.collision {
        a + "(profile name already exists — apply needs force:true)\n"@
    } else {
        a
    };
    assert(a + ""@ =~= a);
    assert(b + ""@ =~= b);
}

/// Paths are compared without the slashes at their end.
pub proof fn law_paths_without_slashes(v: Seq<Seq<char>>, n: nat)
    requires
        n <= v.len(),
    ensures
        unslashed(v, n) == Seq::new(n, |i: int| trimmed_end_of(v[i], '/')),
    decreases n,
{
    if n > 0 {
        law_paths_without_slashes(v, (n - 1) as nat);
        assert(unslashed(v, n) =~= Seq::new(n, |i: int| trimmed_end_of(v[i], '/')));
    } else {
        assert(unslashed(v, 0) =~= Seq::new(0, |i: int| trimmed_end_of(v[i], '/')));
    }
}

/// A directory that a profile names is covered, and so is one that is there by default.
pub proof fn law_what_profiles_cover(
    cfg: Json,
    ms: Seq<(Seq<char>, Json)>,
    items: Seq<Json>,
    n: nat,
    k: int,
    i: int,
)
    requires
        0 <= k < n <= ms.len(),
        ms[k].1 == Json::Array(items),
        0 <= i < texts_of(items).len(),
    ensures
        member_paths(ms, n).contains(trimmed_end_of(texts_of(items)[i], '/')),
    decreases n,
{
    let x = trimmed_end_of(texts_of(items)[i], '/');
    if k < n - 1 {
        law_what_profiles_cover(cfg, ms, items, (n - 1) as nat, k, i);
        if let Json::Array(a) = ms[n - 1].1 {
            crate::laws::lists::lemma_contains_add(
                member_paths(ms, (n - 1) as nat),
                unslashed(texts_of(a), texts_of(a).len()),
                x,
            );
        }
    } else {
        let t = texts_of(items);
        law_paths_without_slashes(t, t.len());
        assert(unslashed(t, t.len())[i] == x);
        crate::laws::lists::lemma_contains_add(
            member_paths(ms, (n - 1) as nat),
            unslashed(t, t.len()),
            x,
        );
    }
}

/// What is covered: what the profiles name, and behind it what is there by default.
pub proof fn law_covered_paths(cfg: Json, ms: Seq<(Seq<char>, Json)>)
    ensures
        ({
            let defaults = strings_at(cfg, "default_paths"@);
            let tail = Seq::new(defaults.len(), |i: int| trimmed_end_of(defaults[i], '/'));
            &&& get(cfg, "path_profiles"@) == Some(Json::Object(ms)) ==> covered_paths(cfg)
                == member_paths(ms, ms.len()) + tail
            &&& get(cfg, "path_profiles"@) is None ==> covered_paths(cfg) == tail
        }),
{
    let defaults = strings_at(cfg, "default_paths"@);
    law_paths_without_slashes(defaults, defaults.len());
    let tail = unslashed(defaults, defaults.len());
    assert(Seq::<Seq<char>>::empty() + tail =~= tail);
}

// ---------------------------------------------------------------------------
// Memory

/// What two captures are compared by, in order.
pub proof fn law_what_captures_are_compared_by(
    base_id: Seq<char>,
    a: Json,
    current_id: Seq<char>,
    b: Json,
)
    ensures
        ({
            let line = |label: Seq<char>, key: Seq<char>|
                delta_line(label, number_of(get(a, key)), number_of(get(b, key)));
            let deep = |label: Seq<char>, key: Seq<char>, part: Seq<char>|
                delta_line(label, number_of(inner(a, key, part)), number_of(inner(b, key, part)));
            diff_text(base_id, a, current_id, b) == "memory_diff - "@ + base_id + " → "@ + current_id
                + "\n"@ + line("RSS"@, "rss_bytes"@) + line("committed VA"@, "committed_va_bytes"@)
                + line("swap"@, "swap_bytes"@) + deep("Flecs bytes"@, "flecs"@, "bytes"@) + deep(
                "Flecs unused columns"@,
                "flecs"@,
                "bytes_table_components_unused"@,
            ) + deep("Jolt temp"@, "jolt"@, "temp_used"@) + named_deltas(
                "pools (in_use)"@,
                pools_of(a),
                pools_of(b),
                false,
            ) + named_deltas("mapping kinds"@, kinds_of(a), kinds_of(b), true)
        }),
{
}

/// The numbers of a record, by name: the last of a name counts.
pub proof fn law_numbers_of_a_record(
    ms: Seq<(Seq<char>, Json)>,
    n: nat,
    k: int,
    name: Seq<char>,
)
    requires
        -1 <= k < n <= ms.len(),
        k >= 0 ==> ms[k].0 == name && numeric(ms[k].1) is Some,
        forall|i: int| k < i < n ==> (#[trigger] ms[i]).0 != name || numeric(ms[i].1) is None,
    ensures
        k >= 0 ==> at(member_values(ms, n), name) == numeric(ms[k].1),
        k < 0 ==> at(member_values(ms, n), name) is None,
    decreases n,
{
    if n > 0 {
        let m = (n - 1) as nat;
        if let Some(v) = numeric(ms[n - 1].1) {
            lemma_at_put(member_values(ms, m), ms[n - 1].0, v, name);
        }
        if k < n - 1 && n > 1 {
            law_numbers_of_a_record(ms, m, k, name);
        }
    }
}

// ---------------------------------------------------------------------------
// Counters

/// What is shown of the counters of a tool: times in milliseconds, the rest as it is.
pub proof fn law_shown_counters(s: ToolStat, name: Seq<char>, t: Tool)
    requires
        stat_of(s, name, t),
    ensures
        s.name@ == name,
        s.calls == t.calls,
        s.baseline_tokens == t.baseline_tokens && s.returned_tokens == t.returned_tokens,
        s.peak_baseline == t.peak_baseline && s.peak_returned == t.peak_returned,
        s.peak_saved == t.peak_saved,
        s.last_ts == t.last_ts,
        1000 * s.total_ms <= t.total_us < 1000 * s.total_ms + 1000,
        1000 * s.peak_ms <= t.peak_us < 1000 * s.peak_ms + 1000,
        s.trunc_count == t.trunc_count && s.error_count == t.error_count,
        s.low_yield_count == t.low_yield_count,
{
}

/// What is shown of a call.
pub proof fn law_shown_calls(l: EventLog, e: EventView)
    requires
        log_of(l, e),
    ensures
        l.ts == e.ts && l.tool@ == e.tool && l.baseline == e.baseline && l.returned == e.returned,
        1000 * l.elapsed_ms <= e.elapsed_us < 1000 * l.elapsed_ms + 1000,
        l.outcome@ == e.outcome,
{
}

/// What is said when the counters begin anew.
pub proof fn law_counters_begin_anew()
    ensures
        reset_text() == "wordkeep estimated context avoided - counters reset."@,
{
}

/// The calls of a log are those of its lines that can be read, in order.
pub proof fn law_calls_of_a_log(lines: Seq<Seq<char>>, line: Seq<char>)
    ensures
        events_in(lines, 0).len() == 0,
        logged(line) matches Some(e) ==> events_in(lines.push(line), lines.len() + 1) == events_in(
            lines,
            lines.len(),
        ).push(e),
        logged(line) is None ==> events_in(lines.push(line), lines.len() + 1) == events_in(
            lines,
            lines.len(),
        ),
{
    lemma_log_same(lines, line, lines.len());
    assert(lines.push(line)[lines.len() as int] == line);
}

proof fn lemma_log_same(lines: Seq<Seq<char>>, line: Seq<char>, n: nat)
    requires
        n <= lines.len(),
    ensures
        events_in(lines.push(line), n) == events_in(lines, n),
    decreases n,
{
    if n > 0 {
        lemma_log_same(lines, line, (n - 1) as nat);
        assert(lines.push(line)[n - 1] == lines[n - 1]);
    }
}

// ---------------------------------------------------------------------------
// Embeddings

/// What is embedded of a chunk: its heading and its body.
pub proof fn law_what_is_embedded(c: ChunkView)
    ensures
        embed_text(c) == c.heading + "\n"@ + c.body,
{
}

/// Texts are hashed byte by byte, from the offset on, each part with an end of its own.
pub proof fn law_texts_are_hashed(tag: Seq<char>, text: Seq<char>)
    ensures
        ({
            let a = vstd::utf8::encode_utf8(tag);
            let b = vstd::utf8::encode_utf8(text);
            let first = fnv_step(fnv_bytes(0xcbf2_9ce4_8422_2325, a, a.len()), 0xff);
            embed_key(tag, text) == fnv_step(fnv_bytes(first, b, b.len()), 0xff)
        }),
{
    reveal_with_fuel(fnv_parts, 3);
}

/// A step of the hash.
pub proof fn law_step_of_the_hash(h: u64, b: u8)
    ensures
        fnv_step(h, b) == (h ^ (b as u64)).wrapping_mul(0x0000_0100_0000_01b3),
{
}

/// Only the head of a ranking is embedded: as many as may be.
pub proof fn law_head_of_a_ranking(cs: Seq<ChunkView>, ranked: Seq<Scored>, tag: Seq<char>, i: int)
    ensures
        ranked.len() <= 24 ==> head_size(ranked.len()) == ranked.len(),
        ranked.len() > 24 ==> head_size(ranked.len()) == 24,
        0 <= i < head_size(ranked.len()) ==> head_texts(cs, ranked)[i] == embed_text(
            cs[ranked[i].at as int],
        ) && head_keys(cs, ranked, tag)[i] == embed_key(tag, head_texts(cs, ranked)[i]),
{
}

/// What has to be embedded is what is not kept, in order.
pub proof fn law_what_has_to_be_embedded(keys: Seq<u64>, c: CacheView, n: nat, i: int)
    requires
        n <= keys.len(),
    ensures
        misses_of(keys, c, n).contains(i) <==> 0 <= i < n && kept_at(c.entries, keys[i]) is None,
    decreases n,
{
    if n > 0 {
        law_what_has_to_be_embedded(keys, c, (n - 1) as nat, i);
        crate::laws::lists::lemma_contains_push(misses_of(keys, c, (n - 1) as nat), n - 1, i);
    }
}

/// The question is embedded first, and behind it each text that is not kept.
pub proof fn law_what_is_embedded_together(
    query: Seq<char>,
    cs: Seq<ChunkView>,
    ranked: Seq<Scored>,
    tag: Seq<char>,
    c: CacheView,
    k: int,
)
    ensures
        ({
            let keys = head_keys(cs, ranked, tag);
            let lacking = misses_of(keys, c, keys.len());
            let b = batch_of(query, cs, ranked, tag, c);
            &&& b.len() == 1 + lacking.len()
            &&& b[0] == query
            &&& 0 <= k < lacking.len() ==> b[1 + k] == head_texts(cs, ranked)[lacking[k]]
        }),
{
}

/// The first embedding fixes how long all of them are.
pub proof fn law_first_embedding_fixes_the_length(key: u64, v: Seq<u32>)
    ensures
        offered(no_embeddings(), key, v).dim == v.len(),
        v.len() > 0 ==> kept_at(offered(no_embeddings(), key, v).entries, key) == Some(v)
            && offered(no_embeddings(), key, v).dirty,
{
    reveal_with_fuel(crate::knowledge::embed::key_from, 2);
}

/// What came back is kept under the key that it was asked for: the first is the question's
/// own.
pub proof fn law_what_came_back_is_kept(
    c: CacheView,
    keys: Seq<u64>,
    lacking: Seq<int>,
    found: Seq<Seq<u32>>,
    n: nat,
)
    ensures
        taken_in(c, keys, lacking, found, 0) == c,
        taken_in(c, keys, lacking, found, n + 1) == offered(
            taken_in(c, keys, lacking, found, n),
            keys[lacking[n as int]],
            found[n as int + 1],
        ),
{
}

/// Only the head is ranked anew; what is behind it stays.
pub proof fn law_only_the_head_is_ranked_anew(scores: Seq<Scored>, ranked: Seq<Scored>)
    requires
        scores.len() == head_size(ranked.len()),
    ensures
        reranked(scores, ranked) == by_score(scores) + ranked.skip(scores.len() as int),
{
}

} // verus!
