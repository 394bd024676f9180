//! How numbers are rounded and written, and what else is decided on single values.
use vstd::prelude::*;
use crate::binary::{
    half_up, hundredths_text, in_digits, rounded, shift_of, step_of, tenths_text, two_to, DIGITS,
    HALF,
};
use crate::izakaya::replay::cell;
use crate::json::{is_number, Json};
use crate::knowledge::upsert::{is_heading, level};
use crate::mas::{spared, SessionView};
use crate::text::{dec, lowercase, parsed, parsed_int, starts, trimmed};

verus! {

/// A quotient is rounded to the nearest number, and halfway to the even one.
pub proof fn law_quotients_are_rounded(num: nat, den: nat)
    requires
        den > 0,
    ensures
        ({
            let r = rounded(num, den);
            &&& 2 * (r * den - num) <= den
            &&& 2 * (num - r * den) <= den
            &&& 2 * (r * den - num) == den || 2 * (num - r * den) == den ==> r % 2 == 0
        }),
{
    let q = num / den;
    let m = num % den;
    assert(num == q * den + m && 0 <= m < den) by (nonlinear_arith)
        requires
            q == num / den,
            m == num % den,
            den > 0,
    ;
    assert((q + 1) * den == q * den + den) by (nonlinear_arith);
}

/// A quotient is rounded to the nearest number, and halfway up.
pub proof fn law_halves_are_rounded_up(num: nat, den: nat)
    requires
        den > 0,
    ensures
        ({
            let r = half_up(num, den);
            &&& 2 * (num - r * den) < den
            &&& 2 * (r * den - num) <= den
        }),
{
    let r = half_up(num, den);
    let x = 2 * num + den;
    let d = 2 * den;
    let m = x % d;
    assert(x == r * d + m && 0 <= m < d) by (nonlinear_arith)
        requires
            r == x / d,
            m == x % d,
            d > 0,
    ;
    assert(r * d == 2 * (r * den)) by (nonlinear_arith)
        requires
            d == 2 * den,
    ;
}

/// Powers of two.
pub proof fn law_powers_of_two(a: nat, b: nat)
    ensures
        two_to(0) == 1,
        two_to(1) == 2,
        two_to(a + b) == two_to(a) * two_to(b),
    decreases b,
{
    reveal_with_fuel(two_to, 3);
    if b > 0 {
        law_powers_of_two(a, (b - 1) as nat);
        let (x, y) = (two_to(a), two_to((b - 1) as nat));
        assert(2 * (x * y) == x * (2 * y)) by (nonlinear_arith);
        assert((a + b - 1) as nat == a + (b - 1) as nat);
        assert(two_to(a + b) == 2 * two_to((a + b - 1) as nat));
    } else {
        assert(two_to(a) * 1 == two_to(a)) by (nonlinear_arith);
    }
}

/// Numbers that the binary digits of a fraction can hold stay as they are.
pub proof fn law_small_numbers_stay(n: nat)
    requires
        n < 0x20_0000_0000_0000,
    ensures
        in_digits(n) == n,
{
    assert(step_of(n, 1) == 1);
    assert(n / 1 == n && n % 1 == 0);
    assert(rounded(n, 1) == n);
    assert(n * 1 == n) by (nonlinear_arith);
}

/// The step between numbers is the first power of two that is large enough.
pub proof fn law_steps_between_numbers(n: nat, u: nat)
    requires
        u > 0,
    ensures
        n < 0x20_0000_0000_0000 * step_of(n, u),
        step_of(n, u) == u || n >= 0x10_0000_0000_0000 * step_of(n, u),
    decreases n - u,
{
    if n >= DIGITS * u {
        law_steps_between_numbers(n, 2 * u);
    }
}

/// A fraction is doubled until it has enough binary digits, and no further.
pub proof fn law_fractions_are_doubled(num: nat, den: nat, s: nat)
    requires
        num > 0,
        den > 0,
    ensures
        ({
            let t = shift_of(num, den, s);
            &&& t >= s
            &&& num * two_to((t - s) as nat) >= 0x10_0000_0000_0000 * den
            &&& t > s ==> num * two_to((t - s - 1) as nat) < 0x10_0000_0000_0000 * den
        }),
    decreases
            if num >= HALF * den {
                0int
            } else {
                HALF * den - num
            },
{
    reveal_with_fuel(two_to, 2);
    if num < HALF * den {
        law_fractions_are_doubled(2 * num, den, s + 1);
        let t = shift_of(num, den, s);
        let x = two_to((t - s - 1) as nat);
        assert(two_to((t - s) as nat) == 2 * x);
        assert((2 * num) * x == num * (2 * x)) by (nonlinear_arith);
        if t > s + 1 {
            let y = two_to((t - s - 2) as nat);
            assert(x == 2 * y);
            assert((2 * num) * y == num * (2 * y)) by (nonlinear_arith);
        } else {
            assert(num * two_to(0) == num) by (nonlinear_arith)
                requires
                    two_to(0) == 1,
            ;
        }
    } else {
        assert(num * two_to(0) == num) by (nonlinear_arith)
            requires
                two_to(0) == 1,
        ;
    }
}

/// Tenths and hundredths are written behind a point.
pub proof fn law_parts_behind_the_point(whole: nat, part: nat)
    ensures
        part < 10 ==> tenths_text(10 * whole + part) == dec(whole) + "."@ + dec(part),
        part < 10 ==> hundredths_text(100 * whole + part) == dec(whole) + "."@ + "0"@ + dec(part),
        10 <= part < 100 ==> hundredths_text(100 * whole + part) == dec(whole) + "."@ + dec(part),
{
    reveal_strlit("");
    assert(dec(whole) + "."@ + ""@ =~= dec(whole) + "."@);
}

/// A number with a minus sign is read without it, and turned; a second sign is none of a
/// number.
pub proof fn law_signed_numbers_are_read(s: Seq<char>)
    ensures
        s.len() == 0 || s[0] != '-' ==> parsed_int(s) == (match parsed(s, i64::MAX as nat) {
            Some(n) => Some(n as int),
            None => None,
        }),
        s.len() > 1 && s[0] == '-' && s[1] == '+' ==> parsed_int(s) is None,
        s.len() > 0 && s[0] == '-' && (s.len() == 1 || s[1] != '+') ==> parsed_int(s) == (
        match parsed(s.drop_first(), 0x8000_0000_0000_0000) {
            Some(n) => Some(-(n as int)),
            None => None,
        }),
{
}

/// Each kind of action has a cell of its own, with overlaps and without.
pub proof fn law_cells_of_actions(other: Seq<char>)
    requires
        other != "continue"@ && other != "root"@ && other != "handoff"@,
    ensures
        cell(true, "continue"@) == 0,
        cell(true, "root"@) == 1,
        cell(true, "handoff"@) == 2,
        cell(true, other) == 3,
        cell(false, "continue"@) == 4,
        cell(false, "root"@) == 5,
        cell(false, "handoff"@) == 6,
        cell(false, other) == 7,
{
    reveal_strlit("continue");
    reveal_strlit("root");
    reveal_strlit("handoff");
    assert("continue"@.len() == 8);
    assert("root"@.len() == 4);
    assert("handoff"@.len() == 7);
}

/// What is a number: whole ones, with and without a sign, and fractions.
pub proof fn law_what_is_a_number(n: u64, i: i64, s: Seq<char>, a: Seq<Json>, b: bool)
    ensures
        is_number(Json::UInt(n)) && is_number(Json::NInt(i)) && is_number(Json::Real(s)),
        !is_number(Json::Str(s)) && !is_number(Json::Bool(b)) && !is_number(Json::Null),
        !is_number(Json::Array(a)),
{
}

/// A line is the heading that is looked for where it is one, and its text agrees but for
/// capital letters.
pub proof fn law_headings_that_are_looked_for(line: Seq<char>, heading: Seq<char>)
    ensures
        level(line) is None ==> !is_heading(line, heading),
        level(line) matches Some(n) ==> (is_heading(line, heading) <==> lowercase(
            trimmed(line.skip(n as int)),
        ) == lowercase(heading)),
{
}

/// Dropping a session spares all others; dropping a workspace spares those of others.
pub proof fn law_sessions_that_are_spared(
    all: Seq<(Seq<char>, SessionView)>,
    key: Seq<char>,
    whole: bool,
    e: (Seq<char>, SessionView),
)
    ensures
        all.filter(spared(key, whole)).contains(e) <==> all.contains(e) && (if whole {
            !starts(e.0, key)
        } else {
            e.0 != key
        }),
{
    let f = spared(key, whole);
    if all.filter(f).contains(e) {
        all.lemma_filter_contains_rev(f, e);
        let k = choose|k: int| 0 <= k < all.filter(f).len() && all.filter(f)[k] == e;
        all.lemma_filter_pred(f, k);
    }
    if all.contains(e) && f(e) {
        let i = choose|i: int| 0 <= i < all.len() && all[i] == e;
        all.lemma_filter_contains(f, i);
    }
}

} // verus!
