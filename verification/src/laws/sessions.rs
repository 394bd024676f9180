//! What is posted to a session, read from it, and left of it once it is closed.
use vstd::prelude::*;
use crate::args::{text_at, texts_at};
use crate::json::{as_bool, as_u64, bool_or, get, u64_or, Json};
use crate::laws::lists::{lemma_arranged_items, lemma_contains_add};
use crate::laws::texts::{flat, lemma_flat_push};
use crate::mas::closing::{
    closing_of, closing_text, defect_rows, gathered, handing_of, handoff_note, handoff_notes,
    last_rows, only_recovers, part_of, promotion_of, ClosingView, DefectView, Part,
};
use crate::mas::posting::{
    advanced, board_entry, convergence, fit_from, full_text, list_tokens, note_of, posted,
    roles_upto, shrunk, spill_of, tokens, truncated, NoteView, SpillView,
};
use crate::mas::reading::{
    block_text, entry_text, first_blocks, id_keys, item_rows, read_ask_of, read_baseline,
    read_head, read_text, section, selected, wanted, ReadAskView,
};
use crate::mas::{
    last_critic, open_count, open_verdict, opened, session_of, session_verdict, snapshot_of,
    EntryView, SessionView, StoredView,
};
use crate::order::positioned;
use crate::smap::{at, lemma_at_put};
use crate::text::{blen, dec, holds, joined, listed, lowered, quoted, trimmed};

verus! {

// ---------------------------------------------------------------------------
// Sessions

/// A session may be named by letters and digits of ASCII, dots, underlines and hyphens,
/// without two dots in a row.
pub proof fn law_names_of_sessions(session: Seq<char>)
    ensures
        session_verdict(session) is Ok <==> {
            let s = trimmed(session);
            &&& s.len() > 0
            &&& !holds(s, ".."@)
            &&& forall|i: int|
                0 <= i < s.len() ==> {
                    let c = #[trigger] s[i];
                    ('a' <= c <= 'z') || ('A' <= c <= 'Z') || ('0' <= c <= '9') || c == '.' || c
                        == '_' || c == '-'
                }
        },
{
    let s = trimmed(session);
    if session_verdict(session) is Ok {
        assert forall|i: int| 0 <= i < s.len() implies {
            let c = #[trigger] s[i];
            ('a' <= c <= 'z') || ('A' <= c <= 'Z') || ('0' <= c <= '9') || c == '.' || c == '_'
                || c == '-'
        } by {
            assert(crate::mas::slug_char(s[i]));
        }
    } else if s.len() > 0 && !holds(s, ".."@) {
        if crate::text::has_char(s, '/') {
            let i = choose|i: int| 0 <= i < s.len() && s[i] == '/';
            assert(s[i] == '/');
        } else if crate::text::has_char(s, '\\') {
            let i = choose|i: int| 0 <= i < s.len() && s[i] == '\\';
            assert(s[i] == '\\');
        } else {
            let i = choose|i: int|
                0 <= i < s.len() && !crate::mas::slug_char(#[trigger] s[i]);
            assert(!crate::mas::slug_char(s[i]));
        }
    }
}

/// A session at hand is taken before a stored one; a stored one that cannot be read is an
/// error; where there is none a new one is begun.
pub proof fn law_opening_a_session(
    cache: Seq<(Seq<char>, SessionView)>,
    workspace: Seq<char>,
    session: Seq<char>,
    stored: StoredView,
    path: Seq<char>,
    max_rounds: Option<u64>,
    now: u64,
)
    requires
        session_verdict(session) is Ok,
    ensures
        ({
            let r = opened(cache, workspace, session, stored, path, max_rounds, now);
            match at(cache, workspace + "::"@ + session) {
                Some(s) => r == Ok::<SessionView, Seq<char>>(s),
                None => match stored {
                    StoredView::Absent => r matches Ok(s) && s.session == session && s.created == now
                        && s.updated == now && s.round == 1 && s.status == "active"@
                        && s.entries.len() == 0 && s.result is None && s.next_id == 1
                        && s.max_rounds == (match max_rounds {
                        Some(n) => if n == 0 {
                            1
                        } else {
                            n
                        },
                        None => 3,
                    }),
                    StoredView::Failed(e) => r == Err::<SessionView, Seq<char>>(e),
                    StoredView::Value(v) => match session_of(v) {
                        None => r is Err,
                        Some(s) => r matches Ok(t) && t.entries == s.entries && t.status == s.status
                            && t.round == s.round && t.max_rounds == (match max_rounds {
                            Some(n) => if n == 0 {
                                1
                            } else {
                                n
                            },
                            None => s.max_rounds,
                        }),
                    },
                },
            }
        }),
{
}

/// A session is open where it is there and not final.
pub proof fn law_open_sessions(session: Seq<char>, s: Result<Option<SessionView>, Seq<char>>)
    ensures
        open_verdict(session, s) is Ok <==> (s matches Ok(Some(t)) && t.status != "final"@),
{
}

proof fn lemma_last_critic(v: Seq<EntryView>, n: nat)
    requires
        n <= v.len(),
    ensures
        match last_critic(v, n) {
            Some(k) => 0 <= k < n && lowered(v[k].role) == lowered("critic"@) && forall|j: int|
                k < j < n ==> lowered((#[trigger] v[j]).role) != lowered("critic"@),
            None => forall|j: int|
                0 <= j < n ==> lowered((#[trigger] v[j]).role) != lowered("critic"@),
        },
    decreases n,
{
    if n > 0 && lowered(v[n - 1].role) != lowered("critic"@) {
        lemma_last_critic(v, (n - 1) as nat);
    }
}

/// Whether an entry is the last of a critic, whatever the case.
pub open spec fn last_of_critic(v: Seq<EntryView>, k: int) -> bool {
    &&& 0 <= k < v.len()
    &&& lowered(v[k].role) == lowered("critic"@)
    &&& forall|j: int| k < j < v.len() ==> lowered((#[trigger] v[j]).role) != lowered("critic"@)
}

/// The questions that are open are those of the last critic, or, without one, of the last
/// entry; and a session has converged once that critic approved and asks nothing more.
pub proof fn law_critic_decides(v: Seq<EntryView>, k: int)
    ensures
        last_of_critic(v, k) ==> {
            &&& open_count(v) == v[k].open_questions.len()
            &&& convergence(v) == (if v[k].approved != Some(true) {
                "not converged (critic has not approved)"@
            } else if v[k].open_questions.len() > 0 {
                "partial convergence (critic approved, "@ + dec(v[k].open_questions.len())
                    + " open question(s))"@
            } else {
                "likely converged (critic approved, no open questions)"@
            })
        },
        (forall|j: int| !#[trigger] last_of_critic(v, j)) ==> {
            &&& open_count(v) == if v.len() == 0 {
                0
            } else {
                v[v.len() - 1].open_questions.len()
            }
            &&& convergence(v) == "not converged (no critic entry yet)"@
        },
{
    lemma_last_critic(v, v.len());
    if let Some(c) = last_critic(v, v.len()) {
        assert(last_of_critic(v, c));
        if last_of_critic(v, k) {
            if c < k {
                assert(lowered(v[k].role) != lowered("critic"@));
            }
            if k < c {
                assert(lowered(v[c].role) != lowered("critic"@));
            }
        }
    } else if last_of_critic(v, k) {
        assert(lowered(v[k].role) != lowered("critic"@));
    }
}

/// What a session looks like from outside.
pub proof fn law_session_from_outside(s: SessionView)
    ensures
        ({
            let n = snapshot_of(s);
            &&& n.status == s.status && n.round == s.round && n.max_rounds == s.max_rounds
            &&& n.entries == s.entries.len() && n.result == s.result
            &&& n.open_questions == open_count(s.entries)
            &&& s.round <= s.max_rounds ==> n.rounds_remaining + s.round == s.max_rounds
            &&& s.round > s.max_rounds ==> n.rounds_remaining == 0
        }),
{
}

// ---------------------------------------------------------------------------
// Posting

/// A note needs a session, a role and a summary; the rest of it is what was given.
pub proof fn law_what_a_note_says(args: Json)
    ensures
        note_of(args) is Ok <==> text_at(args, "session"@) is Some && text_at(args, "role"@) is Some
            && text_at(args, "summary"@) is Some,
        note_of(args) matches Ok(n) ==> {
            &&& Some(n.session) == text_at(args, "session"@)
            &&& Some(n.role) == text_at(args, "role"@)
            &&& Some(n.summary) == text_at(args, "summary"@)
            &&& text_at(args, "kind"@) is Some ==> Some(n.kind) == text_at(args, "kind"@)
            &&& text_at(args, "kind"@) is None ==> n.kind == "note"@
            &&& n.claims == texts_at(args, "claims"@)
            &&& n.decisions == texts_at(args, "decisions"@)
            &&& n.open_questions == texts_at(args, "open_questions"@)
            &&& n.anchors == texts_at(args, "anchors"@)
            &&& n.commands == texts_at(args, "commands"@)
            &&& n.constraints == texts_at(args, "constraints"@)
            &&& n.handoff_to == text_at(args, "handoff_to"@)
            &&& n.note_ref == text_at(args, "note_ref"@)
            &&& n.tags == texts_at(args, "tags"@)
            &&& n.approved == as_bool(get(args, "approved"@))
            &&& n.max_rounds is Some <==> as_u64(get(args, "max_rounds"@)) is Some
            &&& as_u64(get(args, "max_rounds"@)) matches Some(m) ==> m > 0 ==> n.max_rounds == Some(
                m,
            )
        },
{
}

/// A text within the budget stays; one beyond it is cut and says so.
pub proof fn law_long_texts_are_cut(s: Seq<char>, max: u64)
    requires
        max * 4 <= u64::MAX,
    ensures
        blen(s) <= max * 4 ==> truncated(s, max) == s,
        blen(s) > max * 4 ==> exists|n: int|
            0 <= n <= s.len() && truncated(s, max) == #[trigger] s.take(n) + " … (truncated)"@ && (n
                == s.len() || n == (if max * 4 >= 16 {
                max * 4 - 16
            } else {
                0
            })),
{
    if blen(s) > max * 4 {
        let k = crate::mas::posting::minus(crate::mas::posting::budget_chars(max), 16) as nat;
        if s.len() <= k {
            assert(s.take(s.len() as int) =~= s);
        } else {
            assert(truncated(s, max) == s.take(k as int) + " … (truncated)"@);
        }
    }
}

/// As many items from the first one on are taken as the budget has room for.
pub proof fn law_items_fit_from_the_first(v: Seq<Seq<char>>, used: nat, max: nat)
    requires
        used <= max,
    ensures
        ({
            let (k, n) = fit_from(v, used, max, 0);
            &&& k <= v.len()
            &&& n == used + list_tokens(v, k)
            &&& n <= max
            &&& k < v.len() ==> n + blen(v[k as int]) / 4 > max
        }),
{
    lemma_fit(v, used, max, 0);
}

proof fn lemma_fit(v: Seq<Seq<char>>, used: nat, max: nat, k: nat)
    requires
        k <= v.len(),
        used + list_tokens(v, k) <= max,
    ensures
        ({
            let (m, n) = fit_from(v, used + list_tokens(v, k), max, k);
            &&& k <= m <= v.len()
            &&& n == used + list_tokens(v, m)
            &&& n <= max
            &&& m < v.len() ==> n + blen(v[m as int]) / 4 > max
        }),
    decreases v.len() - k,
{
    let now = used + list_tokens(v, k);
    if k < v.len() && now + tokens(v[k as int]) <= max {
        assert(list_tokens(v, k + 1) == list_tokens(v, k) + tokens(v[k as int]));
        lemma_fit(v, used, max, k + 1);
    }
}

/// As many commands are kept, from the first one on, as fit beside the summary together.
pub proof fn law_commands_fit_together(v: Seq<Seq<char>>, beside: nat, max: nat)
    ensures
        ({
            let s = shrunk(v, beside, max);
            &&& s.len() <= v.len()
            &&& s == v.take(s.len() as int)
            &&& s.len() == 0 || blen(joined(s, "\n"@)) / 4 + beside <= max
            &&& s.len() < v.len() ==> blen(joined(v.take(s.len() as int + 1), "\n"@)) / 4 + beside
                > max
        }),
    decreases v.len(),
{
    if v.len() > 0 && tokens(joined(v, "\n"@)) + beside > max {
        let t = v.drop_last();
        law_commands_fit_together(t, beside, max);
        let s = shrunk(t, beside, max);
        assert(t.take(s.len() as int) =~= v.take(s.len() as int));
        if s.len() < t.len() {
            assert(t.take(s.len() as int + 1) =~= v.take(s.len() as int + 1));
        } else {
            assert(v.take(s.len() as int + 1) =~= v);
        }
    } else {
        assert(v.take(v.len() as int) =~= v);
    }
}

/// A handoff that is too long is put into a note of its own, and nothing else is.
pub proof fn law_long_handoffs_are_spilled(n: NoteView, id: u64, cap: u64)
    ensures
        spill_of(n, id, cap) is Some <==> lowered(n.kind) == lowered("handoff"@) && blen(
            full_text(n),
        ) / 4 > cap,
        spill_of(n, id, cap) matches Some(s) ==> {
            &&& s.path == ".wordkeep/notes/mas-"@ + n.session + "-handoff-"@ + dec(id as nat)
                + ".md"@
            &&& s.heading == "MAS handoff spill "@ + n.session + "#"@ + dec(id as nat)
            &&& s.body == n.summary + "\n\nclaims: "@ + listed(n.claims) + "\ndecisions: "@ + listed(
                n.decisions,
            ) + "\nopen_questions: "@ + listed(n.open_questions) + "\ncommands: "@ + listed(
                n.commands,
            ) + "\nconstraints: "@ + listed(n.constraints) + "\n"@
        },
{
}

/// An entry says what the note said, as far as there is room; one whose note was spilled
/// says where.
pub proof fn law_entry_says_what_the_note_said(
    n: NoteView,
    spill: Option<SpillView>,
    cap: u64,
    id: u64,
    round: u64,
    now: u64,
)
    ensures
        ({
            let e = board_entry(n, spill, cap, id, round, now);
            &&& e.id == id && e.round == round && e.ts == now
            &&& e.role == n.role && e.kind == n.kind && e.tags == n.tags && e.approved == n.approved
            &&& e.anchors == n.anchors && e.handoff_to == n.handoff_to
            &&& spill is None ==> {
                &&& e.summary == truncated(n.summary, cap)
                &&& e.note_ref == n.note_ref
                &&& e.claims == n.claims.take(e.claims.len() as int)
                &&& e.decisions == n.decisions.take(e.decisions.len() as int)
                &&& e.open_questions == n.open_questions.take(e.open_questions.len() as int)
                &&& e.commands == shrunk(n.commands, blen(e.summary) / 4, cap as nat)
                &&& e.constraints == shrunk(n.constraints, blen(e.summary) / 4, cap as nat)
            }
            &&& spill matches Some(s) ==> {
                &&& e.note_ref == Some(s.path)
                &&& e.claims.len() == 0 && e.decisions.len() == 0 && e.open_questions.len() == 0
                &&& e.commands.len() == 0 && e.constraints.len() == 0
                &&& e.summary == truncated(
                    n.summary,
                    if cap >= 40 {
                        (cap - 40) as u64
                    } else {
                        0
                    },
                ) + "\n(full handoff spilled to "@ + s.path + ")"@
            }
        }),
{
    if spill is None {
        let summary = truncated(n.summary, cap);
        let a = fit_from(n.claims, tokens(summary), cap as nat, 0);
        let b = fit_from(n.decisions, a.1, cap as nat, 0);
        let c = fit_from(n.open_questions, b.1, cap as nat, 0);
        lemma_fit_len(n.claims, tokens(summary), cap as nat, 0);
        lemma_fit_len(n.decisions, a.1, cap as nat, 0);
        lemma_fit_len(n.open_questions, b.1, cap as nat, 0);
    }
}

proof fn lemma_fit_len(v: Seq<Seq<char>>, used: nat, max: nat, k: nat)
    requires
        k <= v.len(),
    ensures
        k <= fit_from(v, used, max, k).0 <= v.len(),
    decreases v.len() - k,
{
    if k < v.len() && used + tokens(v[k as int]) <= max {
        lemma_fit_len(v, used + tokens(v[k as int]), max, k + 1);
    }
}

/// A note is posted to a session that is not final and whose rounds are not over; the
/// answer gives the entry, the round and whom it is from.
pub proof fn law_notes_are_posted(
    n: NoteView,
    s: SessionView,
    entry_cap: u64,
    handoff_cap: u64,
    now: u64,
)
    ensures
        posted(n, s, entry_cap, handoff_cap, now) is Ok <==> s.status != "final"@ && s.round
            <= s.max_rounds,
        posted(n, s, entry_cap, handoff_cap, now) matches Ok(p) ==> {
            let cap = if lowered(n.kind) == lowered("handoff"@) {
                handoff_cap
            } else {
                entry_cap
            };
            &&& p.spill == spill_of(n, s.next_id, cap)
            &&& p.session.entries == s.entries.push(
                board_entry(n, p.spill, cap, s.next_id, s.round, now),
            )
            &&& p.session.updated == now
            &&& p.text == "mas_post - session "@ + n.session + ", entry id="@ + dec(
                s.next_id as nat,
            ) + ", round "@ + dec(s.round as nat) + "/"@ + dec(s.max_rounds as nat) + ", role "@
                + quoted(n.role) + ", kind "@ + quoted(n.kind) + (if n.handoff_to is Some {
                ", handoff_to "@ + quoted(n.handoff_to->Some_0)
            } else {
                ""@
            }) + (if p.spill is Some {
                ", spilled_to "@ + p.spill->Some_0.path
            } else {
                ""@
            })
        },
{
}

/// A session goes on to its next round while it is not final and rounds are left.
pub proof fn law_rounds_go_on(session: Seq<char>, s: SessionView, now: u64)
    ensures
        advanced(session, s, now) is Ok <==> s.status != "final"@ && s.round < s.max_rounds,
        advanced(session, s, now) matches Ok(t) ==> t.round == s.round + 1 && t.updated == now
            && t.entries == s.entries && t.status == s.status && t.max_rounds == s.max_rounds,
{
}

/// How many of the first `n` entries are of a role.
pub open spec fn of_role(v: Seq<EntryView>, role: Seq<char>, n: nat) -> nat
    decreases n,
{
    if n == 0 {
        0
    } else {
        of_role(v, role, (n - 1) as nat) + if v[n - 1].role == role {
            1nat
        } else {
            0
        }
    }
}

/// Entries are counted by role.
pub proof fn law_entries_by_role(v: Seq<EntryView>, role: Seq<char>, n: nat)
    requires
        n <= v.len(),
        n < u64::MAX,
    ensures
        of_role(v, role, n) <= n,
        of_role(v, role, n) > 0 ==> at(roles_upto(v, n), role) == Some(of_role(v, role, n) as u64),
        of_role(v, role, n) == 0 ==> at(roles_upto(v, n), role) is None,
    decreases n,
{
    if n > 0 {
        let m = (n - 1) as nat;
        law_entries_by_role(v, role, m);
        let rest = roles_upto(v, m);
        let r = v[n - 1].role;
        let was = match at(rest, r) {
            Some(k) => k,
            None => 0,
        };
        lemma_at_put(rest, r, crate::text::capped(was as nat + 1), role);
    }
}

// ---------------------------------------------------------------------------
// Reading

/// What a reading asks for.
pub proof fn law_what_a_reading_asks(args: Json)
    ensures
        read_ask_of(args) is Ok <==> text_at(args, "session"@) is Some,
        read_ask_of(args) matches Ok(q) ==> {
            &&& Some(q.session) == text_at(args, "session"@)
            &&& q.budget == u64_or(args, "token_budget"@, 1200)
            &&& q.recipient == text_at(args, "recipient"@)
            &&& q.role == text_at(args, "role"@)
            &&& q.round == as_u64(get(args, "round"@))
            &&& q.tag == text_at(args, "tag"@)
            &&& q.since_id == as_u64(get(args, "since_id"@))
        },
{
}

/// Whether an entry is asked for: by whom it is for, its role, its round, a tag, and whether
/// it came after another.
pub open spec fn asked_for(q: ReadAskView, e: EntryView) -> bool {
    &&& q.recipient matches Some(r) ==> (e.handoff_to matches Some(h) && lowered(h) == lowered(r))
    &&& q.role matches Some(r) ==> lowered(e.role) == lowered(r)
    &&& q.round matches Some(n) ==> e.round == n
    &&& q.tag matches Some(t) ==> exists|i: int|
        0 <= i < e.tags.len() && lowered(#[trigger] e.tags[i]) == lowered(t)
    &&& q.since_id matches Some(n) ==> e.id > n
}

/// A reading gives the entries that were asked for, and no others.
pub proof fn law_reading_gives_what_was_asked(v: Seq<EntryView>, q: ReadAskView, e: EntryView)
    ensures
        selected(v, q).contains(e) <==> v.contains(e) && asked_for(q, e),
{
    let f = wanted(q);
    let some = v.filter(f);
    assert(positioned(id_keys(some)));
    lemma_arranged_items(some, id_keys(some));
    assert(f(e) <==> asked_for(q, e));
    if some.contains(e) {
        let i = choose|i: int| 0 <= i < some.len() && some[i] == e;
        v.lemma_filter_pred(f, i);
        v.lemma_filter_contains_rev(f, e);
    }
    if v.contains(e) && f(e) {
        let i = choose|i: int| 0 <= i < v.len() && v[i] == e;
        v.lemma_filter_contains(f, i);
    }
}

/// The items of a section, one to a line; a section without items is left out.
pub proof fn law_sections_list_items(head: Seq<char>, v: Seq<Seq<char>>)
    ensures
        v.len() == 0 ==> section(head, v).len() == 0,
        v.len() > 0 ==> section(head, v) == head + flat(
            Seq::new(v.len(), |i: int| "  - "@ + v[i] + "\n"@),
        ),
{
    reveal_strlit("");
    lemma_items(v, v.len());
}

proof fn lemma_items(v: Seq<Seq<char>>, n: nat)
    requires
        n <= v.len(),
    ensures
        item_rows(v, n) == flat(Seq::new(n, |i: int| "  - "@ + v[i] + "\n"@)),
    decreases n,
{
    reveal_strlit("");
    let rows = Seq::new(n, |i: int| "  - "@ + v[i] + "\n"@);
    if n > 0 {
        let m = (n - 1) as nat;
        lemma_items(v, m);
        let before = Seq::new(m, |i: int| "  - "@ + v[i] + "\n"@);
        lemma_flat_push(before, rows[n - 1]);
        assert(rows =~= before.push(rows[n - 1]));
        assert(item_rows(v, m) + "  - "@ + v[n - 1] + "\n"@ =~= item_rows(v, m) + ("  - "@ + v[n
            - 1] + "\n"@));
    } else {
        assert(rows =~= Seq::<Seq<char>>::empty());
    }
}

/// What an entry is shown as.
pub proof fn law_text_of_an_entry(e: EntryView)
    ensures
        ({
            let line = |label: Seq<char>, v: Seq<Seq<char>>|
                if v.len() > 0 {
                    label + joined(v, ", "@) + "\n"@
                } else {
                    ""@
                };
            entry_text(e) == "["@ + dec(e.ts as nat) + "] round "@ + dec(e.round as nat) + " role="@
                + e.role + " id="@ + dec(e.id as nat) + "\n"@ + e.summary + "\n"@ + section(
                "claims:\n"@,
                e.claims,
            ) + section("decisions:\n"@, e.decisions) + section(
                "open_questions:\n"@,
                e.open_questions,
            ) + line("anchors: "@, e.anchors) + (if e.handoff_to is Some {
                "handoff_to: "@ + e.handoff_to->Some_0 + "\n"@
            } else {
                ""@
            }) + line("tags: "@, e.tags) + (if e.approved == Some(true) {
                "approved: true\n"@
            } else if e.approved == Some(false) {
                "approved: false\n"@
            } else {
                ""@
            })
        }),
{
}

/// What a reading begins with, and what it says where nothing is to be read.
pub proof fn law_reading_says_how_many(q: ReadAskView, s: SessionView)
    ensures
        ({
            let n = selected(s.entries, q).len();
            let head = "mas_read - session "@ + q.session + ", round "@ + dec(s.round as nat) + "/"@
                + dec(s.max_rounds as nat) + ", status "@ + s.status + ", "@ + dec(n)
                + " match(es)\n"@;
            &&& crate::text::starts(read_text(q, s), head)
            &&& n == 0 ==> read_text(q, s) == head + "\n(no matching entries)\n"@
        }),
{
    let v = selected(s.entries, q);
    let head = read_head(q, s, v.len());
    if v.len() > 0 {
        crate::mas::reading::law_reading_fills_its_budget(q, s);
        let m = choose|m: nat|
            m > 0 && #[trigger] crate::mas::reading::blocks_fill(
                v,
                q.budget as nat,
                tokens(head),
                m,
            ) && read_text(q, s) == head + first_blocks(v, m) + crate::mas::reading::blocks_note(
                v.len(),
                m,
            );
        let rest = first_blocks(v, m) + crate::mas::reading::blocks_note(v.len(), m);
        assert(read_text(q, s) =~= head + rest);
        crate::laws::texts::lemma_starts_add(read_text(q, s), head, rest);
    } else {
        crate::laws::texts::lemma_starts_add(
            read_text(q, s),
            head,
            "\n(no matching entries)\n"@,
        );
    }
}

/// The blocks of a reading are those of its entries, each behind a rule.
pub proof fn law_blocks_of_a_reading(v: Seq<EntryView>, m: nat)
    requires
        m <= v.len(),
    ensures
        first_blocks(v, m) == flat(Seq::new(m, |i: int| "\n---\n"@ + entry_text(v[i]))),
    decreases m,
{
    reveal_strlit("");
    let rows = Seq::new(m, |i: int| "\n---\n"@ + entry_text(v[i]));
    if m > 0 {
        let n = (m - 1) as nat;
        law_blocks_of_a_reading(v, n);
        let before = Seq::new(n, |i: int| "\n---\n"@ + entry_text(v[i]));
        lemma_flat_push(before, rows[m - 1]);
        assert(rows =~= before.push(rows[m - 1]));
        assert(block_text(v[m - 1]) == rows[m - 1]);
    } else {
        assert(rows =~= Seq::<Seq<char>>::empty());
    }
}

/// What a reading is measured against: the whole board, or its file where that is longer,
/// sixty-four tokens at least.
pub proof fn law_reading_is_measured(s: SessionView, file_tokens: u64)
    requires
        crate::mas::reading::board_tokens(s.entries, s.entries.len()) <= u64::MAX,
    ensures
        ({
            let b = read_baseline(s, file_tokens);
            let all = crate::mas::reading::board_tokens(s.entries, s.entries.len());
            &&& b >= 64 && b >= all && b >= file_tokens
            &&& b == 64 || b == all || b == file_tokens
        }),
{
}

// ---------------------------------------------------------------------------
// Closing

/// What closing a session asks: the session and its result are needed.
pub proof fn law_what_closing_asks(args: Json, auto: bool)
    ensures
        closing_of(args, auto) is Ok <==> text_at(args, "session"@) is Some && text_at(
            args,
            "result"@,
        ) is Some,
        closing_of(args, auto) matches Ok(c) ==> {
            &&& Some(c.session) == text_at(args, "session"@)
            &&& Some(c.result) == text_at(args, "result"@)
            &&& c.promote == bool_or(args, "promote"@, auto)
            &&& c.include_prompt == bool_or(args, "include_handoff_prompt"@, true)
            &&& c.note_path == text_at(args, "note_path"@)
            &&& c.note_heading == text_at(args, "note_heading"@)
            &&& c.effects == text_at(args, "effects"@)
        },
{
}

/// What handing a session over asks: it is closed too where that is wanted.
pub proof fn law_what_handing_over_asks(args: Json, auto: bool)
    ensures
        handing_of(args, auto) is Ok <==> text_at(args, "session"@) is Some,
        handing_of(args, auto) matches Ok(h) ==> {
            &&& Some(h.session) == text_at(args, "session"@)
            &&& h.result == text_at(args, "result"@)
            &&& h.closing is Some <==> bool_or(args, "finalize"@, false)
            &&& h.closing matches Some(c) ==> {
                &&& c.session == h.session
                &&& c.result == (match h.result {
                    Some(r) => r,
                    None => "session handoff"@,
                })
                &&& c.promote == bool_or(args, "promote"@, auto)
                &&& c.include_prompt
                &&& c.note_path == text_at(args, "note_path"@)
                &&& c.note_heading == text_at(args, "note_heading"@)
                &&& c.effects == text_at(args, "effects"@)
            }
        },
{
}

/// Writes that wait are only undone where that is asked for.
pub proof fn law_writes_are_undone(c: ClosingView, pending: bool)
    ensures
        only_recovers(c, pending) <==> pending && (c.effects matches Some(e) && e == "recover"@),
{
}

/// What is promoted of a session: its result, its rounds and how many entries it had, to the
/// note that was named or its own.
pub proof fn law_promoted_result(c: ClosingView, s: SessionView)
    ensures
        promotion_of(c, s) is Some <==> c.promote,
        promotion_of(c, s) matches Some(p) ==> {
            &&& c.note_path is Some ==> Some(p.path) == c.note_path
            &&& c.note_path is None ==> p.path == ".wordkeep/notes/mas-"@ + c.session + ".md"@
            &&& c.note_heading is Some ==> Some(p.heading) == c.note_heading
            &&& c.note_heading is None ==> p.heading == "MAS session "@ + c.session
            &&& p.body == "**Result:**\n\n"@ + c.result + "\n\n**Rounds:** "@ + dec(s.round as nat)
                + "/"@ + dec(s.max_rounds as nat) + "\n\n**Entries:** "@ + dec(s.entries.len())
                + "\n"@
        },
{
}

/// What is answered to a closing.
pub proof fn law_closing_is_answered(
    c: ClosingView,
    s: SessionView,
    effects: Option<Seq<char>>,
    promoted: Option<Result<Seq<char>, Seq<char>>>,
    prompt: Option<Seq<char>>,
)
    ensures
        closing_text(c, s, effects, promoted, prompt) == (if effects is Some {
            effects->Some_0 + "\n"@
        } else {
            ""@
        }) + "mas_finalize - session "@ + c.session + " marked final ("@ + dec(s.entries.len())
            + " entries, round "@ + dec(s.round as nat) + "/"@ + dec(s.max_rounds as nat) + ")\n"@
            + (if promoted is None {
            ""@
        } else if promoted->Some_0 is Ok {
            "promoted: "@ + promoted->Some_0->Ok_0 + "\n"@
        } else {
            "promote failed: "@ + promoted->Some_0->Err_0 + "\n"@
        }) + (if prompt is Some {
            "\n--- paste-ready next-session prompt ---\n"@ + prompt->Some_0
        } else {
            ""@
        }),
{
}

/// Whether an entry has an item in one of its parts.
pub open spec fn has_item(e: EntryView, p: Part, x: Seq<char>) -> bool {
    match p {
        Part::Anchors => e.anchors.contains(x),
        Part::Commands => e.commands.contains(x),
        Part::Constraints => e.constraints.contains(x),
        Part::Questions => e.open_questions.contains(x),
        Part::Decisions => e.decisions.contains(x),
    }
}

/// What is gathered of the entries is what one of them has.
pub proof fn law_parts_are_gathered(v: Seq<EntryView>, p: Part, n: nat, x: Seq<char>)
    requires
        n <= v.len(),
    ensures
        gathered(v, p, n).contains(x) <==> exists|i: int| 0 <= i < n && has_item(#[trigger] v[i], p, x),
    decreases n,
{
    if n > 0 {
        let m = (n - 1) as nat;
        law_parts_are_gathered(v, p, m, x);
        lemma_contains_add(gathered(v, p, m), part_of(v[n - 1], p), x);
        if gathered(v, p, m).contains(x) {
            let i = choose|i: int| 0 <= i < m && has_item(#[trigger] v[i], p, x);
            assert(has_item(v[i], p, x));
        }
        if has_item(v[n - 1], p, x) {
            assert(0 <= n - 1 < n);
        }
    }
}

/// The latest items are shown, the last one first.
pub proof fn law_latest_items_are_shown(v: Seq<Seq<char>>, n: nat)
    requires
        n <= v.len(),
    ensures
        last_rows(v, n) == flat(Seq::new(n, |i: int| "- "@ + v[v.len() - 1 - i] + "\n"@)),
    decreases n,
{
    reveal_strlit("");
    let rows = Seq::new(n, |i: int| "- "@ + v[v.len() - 1 - i] + "\n"@);
    if n > 0 {
        let m = (n - 1) as nat;
        law_latest_items_are_shown(v, m);
        let before = Seq::new(m, |i: int| "- "@ + v[v.len() - 1 - i] + "\n"@);
        lemma_flat_push(before, rows[n - 1]);
        assert(rows =~= before.push(rows[n - 1]));
        let x = v[v.len() - n];
        assert(last_rows(v, m) + "- "@ + x + "\n"@ =~= last_rows(v, m) + ("- "@ + x + "\n"@));
    } else {
        assert(rows =~= Seq::<Seq<char>>::empty());
    }
}

/// Defects are shown with their status, name and summary.
pub proof fn law_defects_are_shown(v: Seq<DefectView>, n: nat)
    requires
        n <= v.len(),
    ensures
        defect_rows(v, n) == flat(
            Seq::new(
                n,
                |i: int| "- ["@ + v[i].status + "] "@ + v[i].id + " — "@ + v[i].summary + "\n"@,
            ),
        ),
    decreases n,
{
    reveal_strlit("");
    let rows = Seq::new(
        n,
        |i: int| "- ["@ + v[i].status + "] "@ + v[i].id + " — "@ + v[i].summary + "\n"@,
    );
    if n > 0 {
        let m = (n - 1) as nat;
        law_defects_are_shown(v, m);
        let before = Seq::new(
            m,
            |i: int| "- ["@ + v[i].status + "] "@ + v[i].id + " — "@ + v[i].summary + "\n"@,
        );
        lemma_flat_push(before, rows[n - 1]);
        assert(rows =~= before.push(rows[n - 1]));
        assert(defect_rows(v, n) =~= defect_rows(v, m) + rows[n - 1]);
    } else {
        assert(rows =~= Seq::<Seq<char>>::empty());
    }
}

/// The notes of the latest handoffs are shown, the last one first.
pub proof fn law_latest_handoffs_are_shown(v: Seq<EntryView>, n: nat)
    requires
        n <= v.len(),
    ensures
        handoff_notes(v, n) == flat(Seq::new(n, |i: int| handoff_note(v[v.len() - 1 - i]))),
    decreases n,
{
    reveal_strlit("");
    let rows = Seq::new(n, |i: int| handoff_note(v[v.len() - 1 - i]));
    if n > 0 {
        let m = (n - 1) as nat;
        law_latest_handoffs_are_shown(v, m);
        let before = Seq::new(m, |i: int| handoff_note(v[v.len() - 1 - i]));
        lemma_flat_push(before, rows[n - 1]);
        assert(rows =~= before.push(rows[n - 1]));
    } else {
        assert(rows =~= Seq::<Seq<char>>::empty());
    }
}

} // verus!
