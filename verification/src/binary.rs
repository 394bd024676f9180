//! Numbers with 53 binary digits, and their decimal rendering.
//!
//! Quotients and products are rounded to the nearest number with 53 binary digits,
//! halfway to the even one, as double precision does. They are held exactly: as an
//! integer over a power of two.
use vstd::prelude::*;
use crate::text::{dec, decimal};

verus! {

/// The number of values that 53 binary digits can hold.
pub const DIGITS: u128 = 0x20_0000_0000_0000;

/// Half of it.
pub const HALF: u128 = 0x10_0000_0000_0000;

/// Numbers that are computed with stay below this.
pub const LARGE: u128 = 0x100_0000_0000_0000_0000_0000_0000_0000;

/// The quotient of two numbers, rounded to the nearest integer; halfway it goes
/// to the even one.
pub open spec fn rounded(num: nat, den: nat) -> nat {
    let q = num / den;
    let r = num % den;
    if 2 * r > den || (2 * r == den && q % 2 == 1) {
        q + 1
    } else {
        q
    }
}

/// The step between the numbers that 53 binary digits can hold near `n`: the
/// first power of two from `u` on that is large enough.
pub open spec fn step_of(n: nat, u: nat) -> nat
    decreases n - u,
{
    if u == 0 || n < DIGITS * u {
        u
    } else {
        step_of(n, 2 * u)
    }
}

/// A number rounded to 53 binary digits.
pub open spec fn in_digits(n: nat) -> nat {
    rounded(n, step_of(n, 1)) * step_of(n, 1)
}

/// A power of two.
pub open spec fn two_to(s: nat) -> nat
    decreases s,
{
    if s == 0 {
        1
    } else {
        2 * two_to((s - 1) as nat)
    }
}

/// How often `num` has to be doubled, `s` times already, until its quotient by
/// `den` has 53 binary digits.
pub open spec fn shift_of(num: nat, den: nat, s: nat) -> nat
    decreases
            if num >= HALF * den {
                0int
            } else {
                HALF * den - num
            },
{
    if num == 0 || num >= HALF * den {
        s
    } else {
        shift_of(2 * num, den, s + 1)
    }
}

/// The quotient of two numbers, rounded to 53 binary digits: this many times the
/// `quotient_shift` power of a half.
pub open spec fn quotient(num: nat, den: nat) -> nat {
    if num >= DIGITS * den {
        rounded(num, den * step_of(num / den, 1)) * step_of(num / den, 1)
    } else {
        rounded(num * two_to(quotient_shift(num, den)), den)
    }
}

pub open spec fn quotient_shift(num: nat, den: nat) -> nat {
    if num >= DIGITS * den {
        0
    } else {
        shift_of(num, den, 0)
    }
}

/// Rounds to the nearest integer, halfway up.
pub open spec fn half_up(num: nat, den: nat) -> nat {
    (2 * num + den) / (2 * den)
}

pub proof fn lemma_rounded(num: nat, den: nat)
    requires
        den > 0,
    ensures
        rounded(num, den) <= num / den + 1,
        num / den <= rounded(num, den),
        num / den <= num,
{
    assert(num / den <= num) by (nonlinear_arith)
        requires
            den >= 1,
    ;
}

pub fn round_even(num: u128, den: u128) -> (r: u128)
    requires
        0 < den < LARGE,
        num < LARGE,
    ensures
        r == rounded(num as nat, den as nat),
        r <= num / den + 1,
        r <= num + 1,
{
    let q: u128 = num / den;
    let r: u128 = num % den;
    proof {
        lemma_rounded(num as nat, den as nat);
    }
    if 2 * r > den || (2 * r == den && q % 2 == 1) {
        q + 1
    } else {
        q
    }
}

pub proof fn lemma_step(n: nat, u: nat)
    requires
        u >= 1,
        u == 1 || DIGITS * u <= 2 * n,
    ensures
        step_of(n, u) >= 1,
        step_of(n, u) == 1 || DIGITS * step_of(n, u) <= 2 * n,
    decreases n - u,
{
    if n >= DIGITS * u {
        lemma_step(n, 2 * u);
    }
}

fn find_step(n: u128) -> (u: u128)
    requires
        n < LARGE,
    ensures
        u == step_of(n as nat, 1),
        u >= 1,
        u == 1 || DIGITS * u <= 2 * n,
        n < DIGITS ==> u == 1,
{
    let mut u: u128 = 1;
    while n >= DIGITS * u
        invariant
            n < LARGE,
            1 <= u,
            u == 1 || DIGITS * u <= 2 * n,
            n < DIGITS ==> u == 1,
            step_of(n as nat, u as nat) == step_of(n as nat, 1),
        decreases n - u,
    {
        u = 2 * u;
    }
    u
}

/// Rounds to 53 binary digits.
pub fn to_digits(n: u128) -> (r: u128)
    requires
        n < LARGE,
    ensures
        r == in_digits(n as nat),
        n <= 2 * r,
        r <= 2 * n,
        n < DIGITS ==> r == n,
{
    let u: u128 = find_step(n);
    let q: u128 = round_even(n, u);
    proof {
        assert((n / u) * u <= n) by (nonlinear_arith)
            requires
                u >= 1,
        ;
        assert(q * u <= (n / u + 1) * u) by (nonlinear_arith)
            requires
                q <= n / u + 1,
        ;
        assert((n / u + 1) * u == (n / u) * u + u) by (nonlinear_arith);
        if u == 1 {
            assert(n / 1 == n && n % 1 == 0);
            assert(q == n);
            assert(q * u == n);
        } else {
            assert(q * u <= n + u);
            lemma_rounded(n as nat, u as nat);
            assert((n / u) * u <= q * u) by (nonlinear_arith)
                requires
                    n / u <= q,
            ;
            assert(n < (n / u) * u + u) by (nonlinear_arith)
                requires
                    u >= 1,
            ;
        }
    }
    q * u
}

/// A quotient of 53 binary digits.
pub struct Quotient {
    /// The number of units.
    pub count: u128,
    /// How often a unit goes into one.
    pub unit: u128,
}

/// Divides two numbers. The quotient stays below 53 binary digits and a half.
pub fn divide(num: u128, den: u128) -> (r: Quotient)
    requires
        0 < den <= 0x2_0000_0000_0000_0000,
        num <= 0x2_0000_0000_0000_0000,
    ensures
        r.count == quotient(num as nat, den as nat),
        r.unit == two_to(quotient_shift(num as nat, den as nat)),
        1 <= r.unit <= 0x40_0000_0000_0000_0000_0000_0000_0000,
        num < DIGITS * den ==> r.count <= DIGITS + 1,
        r.count <= 0x8_0000_0000_0000_0000,
{
    let ghost n = num as nat;
    let ghost d = den as nat;
    if num >= DIGITS * den {
        let whole: u128 = num / den;
        assert(whole <= num) by (nonlinear_arith)
            requires
                whole == num / den,
                den >= 1,
        ;
        let u: u128 = find_step(whole);
        assert(whole * den <= num) by (nonlinear_arith)
            requires
                whole == num / den,
                den >= 1,
        ;
        assert(u * den <= 2 * num) by (nonlinear_arith)
            requires
                u == 1 || 0x20_0000_0000_0000 * u <= 2 * whole,
                whole * den <= num,
                den <= num,
                den >= 1,
                u >= 1,
        ;
        assert(u * den >= 1) by (nonlinear_arith)
            requires
                u >= 1,
                den >= 1,
        ;
        let w: u128 = den * u;
        let q: u128 = round_even(num, w);
        proof {
            let k = num as int / w as int;
            assert(k * w <= num && k >= 0) by (nonlinear_arith)
                requires
                    k == num as int / w as int,
                    w >= 1,
            ;
            assert(k * u <= k * w) by (nonlinear_arith)
                requires
                    k >= 0,
                    w == den * u,
                    den >= 1,
                    u >= 1,
            ;
            assert(q * u <= (k + 1) * u) by (nonlinear_arith)
                requires
                    q <= k + 1,
                    u >= 1,
            ;
            assert((k + 1) * u == k * u + u) by (nonlinear_arith);
            assert(whole <= 0x2_0000_0000_0000_0000);
        }
        return Quotient { count: q * u, unit: 1 };
    }
    if num == 0 {
        assert(rounded(0, d) == 0) by {
            assert(0nat / d == 0 && 0nat % d == 0) by (nonlinear_arith)
                requires
                    d > 0,
            ;
        }
        assert(n * two_to(quotient_shift(n, d)) == 0);
        return Quotient { count: 0, unit: 1 };
    }
    let mut x: u128 = num;
    let mut unit: u128 = 1;
    let ghost mut s: nat = 0;
    while x < HALF * den
        invariant
            0 < den <= 0x2_0000_0000_0000_0000,
            0 < num < DIGITS * den,
            n == num as nat,
            d == den as nat,
            1 <= num <= x < DIGITS * den,
            unit == two_to(s),
            1 <= unit <= x,
            x == num * unit,
            shift_of(n, d, 0) == shift_of(x as nat, d, s),
        decreases
                if x >= HALF * den {
                    0int
                } else {
                    HALF * den - x
                },
    {
        assert(num * (2 * unit) == 2 * (num * unit)) by (nonlinear_arith);
        x = 2 * x;
        unit = 2 * unit;
        proof {
            s = s + 1;
        }
    }
    assert(shift_of(n, d, 0) == s);
    let q: u128 = round_even(x, den);
    assert(x / den <= DIGITS) by (nonlinear_arith)
        requires
            x < 0x20_0000_0000_0000 * den,
            den >= 1,
    ;
    Quotient { count: q, unit }
}

/// A number of tenths or hundredths in decimal notation.
pub open spec fn tenths_text(t: nat) -> Seq<char> {
    dec(t / 10) + "."@ + dec(t % 10)
}

pub open spec fn hundredths_text(t: nat) -> Seq<char> {
    dec(t / 100) + "."@ + (if t % 100 < 10 {
        "0"@
    } else {
        ""@
    }) + dec(t % 100)
}

pub fn write_tenths(t: u128) -> (r: String)
    requires
        t < 0xa_0000_0000_0000_0000,
    ensures
        r@ == tenths_text(t as nat),
{
    let mut out = decimal((t / 10) as u64);
    out.append(".");
    out.append(decimal((t % 10) as u64).as_str());
    out
}

pub fn write_hundredths(t: u128) -> (r: String)
    requires
        t < 0x64_0000_0000_0000_0000,
    ensures
        r@ == hundredths_text(t as nat),
{
    let b: u64 = (t % 100) as u64;
    let mut out = decimal((t / 100) as u64);
    out.append(".");
    out.append(
        if b < 10 {
            "0"
        } else {
            ""
        },
    );
    out.append(decimal(b).as_str());
    out
}

} // verus!
