//! How much pressure a session is under, and what is advised.
use vstd::prelude::*;
use crate::laws::texts::{flat, lemma_flat_push};
use crate::session_pressure::{
    advice_of, count_of, defect_factor, error_factor, event_factor, factor_rows, factors, level_of,
    percent, points_of, possible, present, question_factor, report_text, run_factor, score_of,
    truncation_factor, Factor, SignalsView,
};
use crate::text::dec;

verus! {

/// How many items of a list are `x`.
pub open spec fn times(v: Seq<Seq<char>>, x: Seq<char>) -> nat
    decreases v.len(),
{
    if v.len() == 0 {
        0
    } else if v.last() == x {
        times(v.drop_last(), x) + 1
    } else {
        times(v.drop_last(), x)
    }
}

proof fn lemma_times(v: Seq<Seq<char>>, x: Seq<char>, n: nat)
    requires
        n <= v.len(),
    ensures
        count_of(v, x, n) == times(v.take(n as int), x),
    decreases n,
{
    if n > 0 {
        lemma_times(v, x, (n - 1) as nat);
        assert(v.take(n as int).drop_last() =~= v.take(n - 1));
        assert(v.take(n as int).last() == v[n - 1]);
    }
}

/// A share in percent, rounded down.
pub open spec fn share(part: nat, total: nat) -> nat {
    if total == 0 {
        0
    } else {
        part * 100 / total
    }
}

/// The points that the signals of a session come to, one by one.
pub open spec fn points(s: SignalsView) -> nat {
    let n = s.outcomes.len();
    let errors = share(times(s.outcomes, "error"@), n);
    let cut = share(times(s.outcomes, "truncated"@), n);
    let calls: nat = if n >= 80 {
        3
    } else if n >= 40 {
        2
    } else if n >= 20 {
        1
    } else {
        0
    };
    let failing: nat = if errors >= 20 {
        2
    } else if errors >= 10 {
        1
    } else {
        0
    };
    let short: nat = if cut >= 20 {
        1
    } else {
        0
    };
    let defects: nat = if times(s.defects, "eyeball_fail"@) > 0 {
        3
    } else if s.defects.len() > 0 {
        1
    } else {
        0
    };
    let runs: nat = if s.failed_runs >= 3 {
        2
    } else if s.failed_runs > 0 {
        1
    } else {
        0
    };
    let questions: nat = match s.session {
        Some((_, t)) => if t.open_questions > 5 {
            2
        } else if t.open_questions > 0 {
            1
        } else {
            0
        },
        None => 0,
    };
    let rounds: nat = match s.session {
        Some((_, t)) => if t.rounds_remaining == 0 && t.status != "final"@ {
            2
        } else if t.rounds_remaining == 1 {
            1
        } else {
            0
        },
        None => 0,
    };
    calls + failing + short + defects + runs + questions + rounds
}

spec fn worth(f: Option<Factor>) -> nat {
    match f {
        Some(x) => x.points,
        None => 0,
    }
}

spec fn worth_of(v: Seq<Option<Factor>>, n: nat) -> nat
    decreases n,
{
    if n == 0 {
        0
    } else {
        worth_of(v, (n - 1) as nat) + worth(v[n - 1])
    }
}

proof fn lemma_points_push(v: Seq<Factor>, f: Factor, n: nat)
    requires
        n <= v.len(),
    ensures
        points_of(v.push(f), n) == points_of(v, n),
    decreases n,
{
    if n > 0 {
        lemma_points_push(v, f, (n - 1) as nat);
    }
}

proof fn lemma_present(v: Seq<Option<Factor>>, n: nat)
    requires
        n <= v.len(),
    ensures
        points_of(present(v, n), present(v, n).len()) == worth_of(v, n),
    decreases n,
{
    if n > 0 {
        let m = (n - 1) as nat;
        lemma_present(v, m);
        if let Some(f) = v[n - 1] {
            let rest = present(v, m);
            lemma_points_push(rest, f, rest.len());
            assert(rest.push(f).len() == rest.len() + 1);
        }
    }
}

/// The pressure of a session is the sum of what its signals come to: how many calls there
/// were, how many failed or were cut short, the defects, the failed runs, and the questions
/// and rounds of its board.
pub proof fn law_pressure_is_the_sum(s: SignalsView)
    requires
        s.outcomes.len() * 100 <= u64::MAX,
    ensures
        score_of(s) == points(s),
{
    lemma_times(s.outcomes, "error"@, s.outcomes.len());
    lemma_times(s.outcomes, "truncated"@, s.outcomes.len());
    lemma_times(s.defects, "eyeball_fail"@, s.defects.len());
    assert(s.outcomes.take(s.outcomes.len() as int) =~= s.outcomes);
    assert(s.defects.take(s.defects.len() as int) =~= s.defects);
    lemma_times_bound(s.outcomes, "error"@);
    lemma_times_bound(s.outcomes, "truncated"@);
    let v = possible(s);
    lemma_present(v, 7);
    reveal_with_fuel(worth_of, 8);
    assert(worth_of(v, 7) == worth(v[0]) + worth(v[1]) + worth(v[2]) + worth(v[3]) + worth(v[4])
        + worth(v[5]) + worth(v[6]));
}

proof fn lemma_times_bound(v: Seq<Seq<char>>, x: Seq<char>)
    ensures
        times(v, x) <= v.len(),
    decreases v.len(),
{
    if v.len() > 0 {
        lemma_times_bound(v.drop_last(), x);
    }
}

/// The levels of pressure: low up to two points, medium up to five, high up to eight.
pub proof fn law_levels_of_pressure(n: nat)
    ensures
        level_of(n) == "low"@ <==> n <= 2,
        level_of(n) == "medium"@ <==> 3 <= n <= 5,
        level_of(n) == "high"@ <==> 6 <= n <= 8,
        level_of(n) == "critical"@ <==> n >= 9,
{
    reveal_strlit("low");
    reveal_strlit("medium");
    reveal_strlit("high");
    reveal_strlit("critical");
    assert("low"@.len() == 3);
    assert("medium"@.len() == 6);
    assert("high"@.len() == 4);
    assert("critical"@.len() == 8);
}

/// What is advised: to hand over from a high level on, to think of it at a medium one, and
/// to go on else.
pub proof fn law_advice(n: nat)
    ensures
        n >= 6 ==> advice_of(level_of(n))
            == "advice: call session_handoff (or mas_finalize with promote) before continuing.\n"@,
        3 <= n <= 5 ==> advice_of(level_of(n))
            == "advice: consider session_handoff soon if more exploratory work remains.\n"@,
        n <= 2 ==> advice_of(level_of(n))
            == "advice: continue; pressure is within normal bounds.\n"@,
{
    reveal_strlit("low");
    reveal_strlit("medium");
    reveal_strlit("high");
    reveal_strlit("critical");
    assert("low"@.len() == 3);
    assert("medium"@.len() == 6);
    assert("high"@.len() == 4);
    assert("critical"@.len() == 8);
}

/// What is said of each signal.
pub proof fn law_what_signals_say(total: nat, rate: nat, k: nat, name: Seq<char>)
    ensures
        event_factor(total) matches Some(f) ==> f.text == (if total >= 80 {
            "many tool events since handoff ("@
        } else if total >= 40 {
            "elevated tool events since handoff ("@
        } else {
            "moderate tool events since handoff ("@
        }) + dec(total) + ")"@,
        error_factor(rate) matches Some(f) ==> f.text == (if rate >= 20 {
            "high error rate ("@
        } else {
            "elevated error rate ("@
        }) + dec(rate) + "%)"@,
        truncation_factor(rate) matches Some(f) ==> f.text == "high truncation rate ("@ + dec(rate)
            + "%)"@,
        k > 0 ==> (defect_factor(k, total) matches Some(f) && f.text == dec(k)
            + " eyeball_fail defect(s)"@),
        total > 0 ==> (defect_factor(0, total) matches Some(f) && f.text == dec(total)
            + " unresolved defect(s)"@),
        run_factor(k) matches Some(f) ==> f.text == dec(k) + (if k >= 3 {
            " recent failed runs"@
        } else {
            " recent failed run(s)"@
        }),
        question_factor(name, k) matches Some(f) ==> f.text == "MAS session "@ + name + ": "@ + dec(
            k,
        ) + (if k > 5 {
            " open questions"@
        } else {
            " open question(s)"@
        }),
{
}

/// The signals that count are listed, one to a line.
pub proof fn law_signals_are_listed(v: Seq<Factor>, n: nat)
    requires
        n <= v.len(),
    ensures
        factor_rows(v, n) == flat(Seq::new(n, |i: int| "  • "@ + v[i].text + "\n"@)),
    decreases n,
{
    reveal_strlit("");
    let rows = Seq::new(n, |i: int| "  • "@ + v[i].text + "\n"@);
    if n > 0 {
        let m = (n - 1) as nat;
        law_signals_are_listed(v, m);
        let before = Seq::new(m, |i: int| "  • "@ + v[i].text + "\n"@);
        lemma_flat_push(before, rows[n - 1]);
        assert(rows =~= before.push(rows[n - 1]));
        assert(factor_rows(v, m) + "  • "@ + v[n - 1].text + "\n"@ =~= factor_rows(v, m) + (
        "  • "@ + v[n - 1].text + "\n"@));
    } else {
        assert(rows =~= Seq::<Seq<char>>::empty());
    }
}

/// What is reported of the pressure.
pub proof fn law_report_of_pressure(s: SignalsView)
    requires
        s.outcomes.len() * 100 <= u64::MAX,
    ensures
        ({
            let n = s.outcomes.len();
            let errors = times(s.outcomes, "error"@);
            let cut = times(s.outcomes, "truncated"@);
            report_text(s) == "session_pressure - level="@ + level_of(points(s)) + " score="@ + dec(
                points(s),
            )
                + "\nNOTE: host turn count / context-window usage is unavailable; this is a workspace heuristic only.\n"@
                + "events_since_handoff: "@ + dec(n) + " (errors="@ + dec(errors) + "/"@ + dec(
                share(errors, n),
            ) + "%, trunc="@ + dec(cut) + "/"@ + dec(share(cut, n)) + "%)\nlast_handoff_ts: "@ + (
            if s.since is None || s.since == Some(0u64) {
                "never"@
            } else {
                dec(s.since->Some_0 as nat)
            }) + "\nunresolved_defects: "@ + dec(s.defects.len()) + " (eyeball_fail="@ + dec(
                times(s.defects, "eyeball_fail"@),
            ) + ")\nrecent_failed_runs: "@ + dec(s.failed_runs as nat) + "\n"@ + (if factors(
                s,
            ).len() == 0 {
                "factors: (none — pressure low)\n"@
            } else {
                "factors:\n"@ + factor_rows(factors(s), factors(s).len())
            }) + advice_of(level_of(points(s)))
        }),
{
    law_pressure_is_the_sum(s);
    lemma_times(s.outcomes, "error"@, s.outcomes.len());
    lemma_times(s.outcomes, "truncated"@, s.outcomes.len());
    lemma_times(s.defects, "eyeball_fail"@, s.defects.len());
    assert(s.outcomes.take(s.outcomes.len() as int) =~= s.outcomes);
    assert(s.defects.take(s.defects.len() as int) =~= s.defects);
    lemma_times_bound(s.outcomes, "error"@);
    lemma_times_bound(s.outcomes, "truncated"@);
}

} // verus!
