//! Figures in the tables of the statistics.
use vstd::prelude::*;
use crate::binary::{divide, half_up, hundredths_text, in_digits, quotient, quotient_shift, round_even};
use crate::binary::{rounded, tenths_text, to_digits, two_to, write_hundredths, write_tenths, DIGITS};
use crate::izakaya::replay::arranged;
use crate::order::{key_views, positioned, sort, sort_order, Key, KeyView};
use crate::text::{copy, dec, decimal, to_chars, trim_end_of, trimmed_end_of};

verus! {

// ---------------------------------------------------------------------------
// Percentages

/// A part of a whole in percent, as a number of units.
pub open spec fn percent_units(part: u64, whole: u64) -> nat {
    in_digits(quotient(in_digits(part as nat), in_digits(whole as nat)) * 100)
}

/// How many of those units go into one percent.
pub open spec fn percent_scale(part: u64, whole: u64) -> nat {
    two_to(quotient_shift(in_digits(part as nat), in_digits(whole as nat)))
}

fn divide_percent(part: u64, whole: u64) -> (r: (u128, u128))
    requires
        whole > 0,
    ensures
        r.0 == percent_units(part, whole),
        r.1 == percent_scale(part, whole),
        1 <= r.1 <= 0x40_0000_0000_0000_0000_0000_0000_0000,
        r.0 <= 0x800_0000_0000_0000_0000,
        part < whole ==> r.0 <= 0x2000_0000_0000_0000,
{
    let a: u128 = to_digits(part as u128);
    let b: u128 = to_digits(whole as u128);
    let q = divide(a, b);
    let p: u128 = to_digits(q.count * 100);
    assert(part < whole ==> a < DIGITS * b);
    (p, q.unit)
}

/// A part of a whole in percent, rounded; nothing is no part.
pub open spec fn percent(part: u64, whole: u64) -> u64 {
    if whole == 0 {
        0
    } else {
        let n = half_up(percent_units(part, whole), percent_scale(part, whole));
        if n > u64::MAX {
            u64::MAX
        } else {
            n as u64
        }
    }
}

pub fn pct(saved: u64, baseline: u64) -> (r: u64)
    ensures
        r == percent(saved, baseline),
{
    if baseline == 0 {
        return 0;
    }
    let (p, unit): (u128, u128) = divide_percent(saved, baseline);
    let n: u128 = (2 * p + unit) / (2 * unit);
    if n > u64::MAX as u128 {
        u64::MAX
    } else {
        n as u64
    }
}

/// A part of a whole in percent with one decimal place. Only the whole, or more,
/// is `100`: what rounds to it is `99.9`.
pub open spec fn percent_text(part: u64, whole: u64) -> Seq<char> {
    if whole == 0 {
        "0"@
    } else if part >= whole {
        "100"@
    } else {
        let t = rounded(percent_units(part, whole) * 10, percent_scale(part, whole));
        if t == 1000 {
            "99.9"@
        } else {
            tenths_text(t)
        }
    }
}

pub fn pct_precise(saved: u64, baseline: u64) -> (r: String)
    ensures
        r@ == percent_text(saved, baseline),
{
    if baseline == 0 {
        return copy("0");
    }
    if saved >= baseline {
        return copy("100");
    }
    let (p, unit): (u128, u128) = divide_percent(saved, baseline);
    let t: u128 = round_even(p * 10, unit);
    if t == 1000 {
        copy("99.9")
    } else {
        write_tenths(t)
    }
}

// ---------------------------------------------------------------------------
// Counts

/// The first `n` digits, with a comma before each group of three.
pub open spec fn grouped(s: Seq<char>, n: nat) -> Seq<char>
    decreases n,
{
    if n == 0 {
        ""@
    } else {
        let before = grouped(s, (n - 1) as nat);
        if n > 1 && (s.len() - (n - 1)) % 3 == 0 {
            before.push(',').push(s[n - 1])
        } else {
            before.push(s[n - 1])
        }
    }
}

/// A count in short: so many units with up to two decimal places.
pub open spec fn short_count(n: u64, unit: nat) -> Seq<char> {
    let a = in_digits(n as nat);
    let t = rounded(quotient(a, unit) * 100, two_to(quotient_shift(a, unit)));
    trimmed_end_of(trimmed_end_of(hundredths_text(t), '0'), '.')
}

/// A count: with its digits in groups below one million, in short from there on.
pub open spec fn count_text(n: u64) -> Seq<char> {
    if n >= 1_000_000_000_000_000 {
        short_count(n, 1_000_000_000_000_000) + "Q"@
    } else if n >= 1_000_000_000_000 {
        short_count(n, 1_000_000_000_000) + "T"@
    } else if n >= 1_000_000_000 {
        short_count(n, 1_000_000_000) + "B"@
    } else if n >= 1_000_000 {
        short_count(n, 1_000_000) + "M"@
    } else {
        grouped(dec(n as nat), dec(n as nat).len())
    }
}

fn write_short(n: u64, unit: u64) -> (r: String)
    requires
        1_000_000 <= unit <= 1_000_000_000_000_000,
    ensures
        r@ == short_count(n, unit as nat),
{
    let a: u128 = to_digits(n as u128);
    proof {
        assert(DIGITS * unit >= 0x20_0000_0000_0000 * 1_000_000) by (nonlinear_arith)
            requires
                unit >= 1_000_000,
        ;
    }
    let q = divide(a, unit as u128);
    let t: u128 = round_even(q.count * 100, q.unit);
    let raw = write_hundredths(t);
    trim_end_of(trim_end_of(raw.as_str(), '0').as_str(), '.')
}

pub fn commafy(n: u64) -> (r: String)
    ensures
        r@ == count_text(n),
{
    if n >= 1_000_000 {
        let (unit, suffix): (u64, &str) = if n >= 1_000_000_000_000_000 {
            (1_000_000_000_000_000, "Q")
        } else if n >= 1_000_000_000_000 {
            (1_000_000_000_000, "T")
        } else if n >= 1_000_000_000 {
            (1_000_000_000, "B")
        } else {
            (1_000_000, "M")
        };
        let mut t = write_short(n, unit);
        t.append(suffix);
        return t;
    }
    let digits = decimal(n);
    let v = to_chars(digits.as_str());
    let mut out = copy("");
    for i in 0..v.len()
        invariant
            v@ == digits@,
            out@ == grouped(digits@, i as nat),
    {
        if i != 0 && (v.len() - i) % 3 == 0 {
            out.push(',');
        }
        out.push(v[i]);
    }
    out
}

// ---------------------------------------------------------------------------
// Times

/// How long ago something was.
pub open spec fn age(since: u64, now: u64) -> Seq<char> {
    let secs = if now < since {
        0
    } else {
        now - since
    };
    let days = secs / 86_400;
    let hours = (secs % 86_400) / 3_600;
    let mins = (secs % 3_600) / 60;
    if days > 0 {
        dec(days as nat) + "d "@ + dec(hours as nat) + "h ago"@
    } else if hours > 0 {
        dec(hours as nat) + "h "@ + dec(mins as nat) + "m ago"@
    } else {
        dec(mins as nat) + "m ago"@
    }
}

pub fn elapsed(since: u64, now: u64) -> (r: String)
    ensures
        r@ == age(since, now),
{
    let secs: u64 = if now < since {
        0
    } else {
        now - since
    };
    let days: u64 = secs / 86_400;
    let hours: u64 = (secs % 86_400) / 3_600;
    let mins: u64 = (secs % 3_600) / 60;
    if days > 0 {
        let mut t = decimal(days);
        t.append("d ");
        t.append(decimal(hours).as_str());
        t.append("h ago");
        t
    } else if hours > 0 {
        let mut t = decimal(hours);
        t.append("h ");
        t.append(decimal(mins).as_str());
        t.append("m ago");
        t
    } else {
        let mut t = decimal(mins);
        t.append("m ago");
        t
    }
}

// ---------------------------------------------------------------------------
// Percentiles

pub open spec fn sample_keys(v: Seq<u64>) -> Seq<KeyView> {
    Seq::new(v.len(), |i: int| KeyView { rank: v[i], name: ""@, number: 0, at: i as nat })
}

/// The samples in ascending order.
pub open spec fn ascending_samples(v: Seq<u64>) -> Seq<u64> {
    arranged(v, sort_order(sample_keys(v)))
}

/// Where the `p`th percentile of `n` samples stands; beyond the hundredth it is the
/// last one.
pub open spec fn percentile_place(n: nat, p: u64) -> nat {
    let span = in_digits((in_digits(n) - 1) as nat);
    let at = half_up(
        in_digits(quotient(p as nat, 100) * span),
        two_to(quotient_shift(p as nat, 100)),
    );
    if p <= 100 && at < n {
        at
    } else {
        (n - 1) as nat
    }
}

/// The `p`th percentile of samples.
pub open spec fn percentile(v: Seq<u64>, p: u64) -> Option<u64> {
    if v.len() == 0 {
        None
    } else {
        Some(ascending_samples(v)[percentile_place(v.len(), p) as int])
    }
}

fn find_place(n: usize, p: u64) -> (r: usize)
    requires
        n > 0,
    ensures
        r == percentile_place(n as nat, p),
        r < n,
{
    if p > 100 {
        return n - 1;
    }
    let d: u128 = to_digits(n as u128);
    let span: u128 = to_digits(d - 1);
    let q = divide(p as u128, 100);
    proof {
        assert(q.count * span <= (0x20_0000_0000_0000 + 1) * 0x4_0000_0000_0000_0000)
            by (nonlinear_arith)
            requires
                q.count <= 0x20_0000_0000_0000 + 1,
                span <= 0x4_0000_0000_0000_0000,
        ;
    }
    let x: u128 = to_digits(q.count * span);
    let at: u128 = (2 * x + q.unit) / (2 * q.unit);
    if at < n as u128 {
        at as usize
    } else {
        n - 1
    }
}

pub fn percentile_us(samples: &Vec<u64>, p: u64) -> (r: Option<u64>)
    ensures
        r == percentile(samples@, p),
{
    if samples.len() == 0 {
        return None;
    }
    let ghost ks = sample_keys(samples@);
    let mut keys: Vec<Key> = Vec::new();
    for i in 0..samples.len()
        invariant
            ks == sample_keys(samples@),
            keys@.len() == i,
            forall|k: int| 0 <= k < i ==> (#[trigger] keys@[k])@ == ks[k],
    {
        keys.push(Key { rank: samples[i], name: copy(""), number: 0, at: i });
    }
    assert(key_views(keys@) =~= ks);
    assert(positioned(key_views(keys@)));
    let order = sort(keys);
    let at: usize = find_place(samples.len(), p);
    let place: usize = order[at];
    assert(order@[at as int] as int == sort_order(ks)[at as int]);
    Some(samples[place])
}

} // verus!
