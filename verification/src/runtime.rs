//! Snapshots of a running program's memory: rendering one, comparing two, and the
//! places where memory accesses are slow.
use vstd::prelude::*;
use crate::binary::{hundredths_text, in_digits, round_even, rounded, tenths_text, to_digits};
use crate::binary::{write_hundredths, write_tenths};
use crate::izakaya::replay::{arranged, distinct, sort_distinct};
use crate::json::{as_array, as_object, as_str, compact, get, get_items, get_str, json_compact};
use crate::json::{lemma_array_view, lemma_object_view, members, number_or, opt_view, serde_held, str_or};
use crate::json::{string_or, u64_or, views, Datum, Json};
use crate::order::{key_views, positioned, sort, sort_order, Key, KeyView};
use crate::smap::{at, put, StrMap};
use crate::text::{all_digits, behind, blen, copy, cut, cut_to, dec, dec_int, decimal, decimal_int};
use crate::text::{ends, is_blank, is_digit, join, joined, lines, lines_of, magnitude, opt_text, outcome};
use crate::text::{pad_left, pad_right, padded_left, padded_right, same, size, strip_prefix, strs};
use crate::text::{to_chars, trim, trimmed};

verus! {

pub const DEFAULT_BUDGET: u64 = 1_600;

pub const DEFAULT_TOP: u64 = 12;

// ---------------------------------------------------------------------------
// Numbers of bytes

/// A number of units with `places` decimal places, one or two.
pub open spec fn in_units(n: nat, unit: nat, places: nat) -> Seq<char> {
    if places == 1 {
        tenths_text(rounded(in_digits(n) * 10, unit))
    } else {
        hundredths_text(rounded(in_digits(n) * 100, unit))
    }
}

pub open spec fn magnitude_of(n: i64) -> nat {
    if n < 0 {
        (-(n as int)) as nat
    } else {
        n as nat
    }
}

pub open spec fn minus(n: i64) -> Seq<char> {
    if n < 0 {
        "-"@
    } else {
        ""@
    }
}

/// A number of bytes in words.
pub open spec fn bytes_text(n: i64) -> Seq<char> {
    let m = magnitude_of(n);
    if in_digits(m) >= 0x4000_0000 {
        minus(n) + in_units(m, 0x4000_0000, 2) + " GiB"@
    } else if in_digits(m) >= 0x10_0000 {
        minus(n) + in_units(m, 0x10_0000, 2) + " MiB"@
    } else if in_digits(m) >= 0x400 {
        minus(n) + in_units(m, 0x400, 1) + " KiB"@
    } else {
        dec_int(n as int) + " B"@
    }
}

/// A change of a number of bytes in words.
pub open spec fn change_text(n: i64) -> Seq<char> {
    if n >= 0 {
        "+"@ + bytes_text(n)
    } else {
        bytes_text(n)
    }
}

fn write_units(n: u64, unit: u64, places: u64) -> (r: String)
    requires
        n <= 0x8000_0000_0000_0000,
        0x400 <= unit <= 0x4000_0000,
        places == 1 || places == 2,
    ensures
        r@ == in_units(n as nat, unit as nat, places as nat),
{
    let d: u128 = to_digits(n as u128);
    if places == 1 {
        let whole: u128 = d * 10;
        let t: u128 = round_even(whole, unit as u128);
        assert(t < 0xa_0000_0000_0000_0000) by (nonlinear_arith)
            requires
                t <= whole / (unit as u128) + 1,
                whole <= 0xa_0000_0000_0000_0000,
                unit >= 0x400,
        ;
        write_tenths(t)
    } else {
        let whole: u128 = d * 100;
        let t: u128 = round_even(whole, unit as u128);
        assert(t < 0x64_0000_0000_0000_0000) by (nonlinear_arith)
            requires
                t <= whole / (unit as u128) + 1,
                whole <= 0x64_0000_0000_0000_0000,
                unit >= 0x400,
        ;
        write_hundredths(t)
    }
}

pub fn fmt_bytes(n: i64) -> (r: String)
    ensures
        r@ == bytes_text(n),
{
    let m: u64 = magnitude(n);
    let d: u128 = to_digits(m as u128);
    let mut out = copy(
        if n < 0 {
            "-"
        } else {
            ""
        },
    );
    if d >= 0x4000_0000 {
        out.append(write_units(m, 0x4000_0000, 2).as_str());
        out.append(" GiB");
        out
    } else if d >= 0x10_0000 {
        out.append(write_units(m, 0x10_0000, 2).as_str());
        out.append(" MiB");
        out
    } else if d >= 0x400 {
        out.append(write_units(m, 0x400, 1).as_str());
        out.append(" KiB");
        out
    } else {
        let mut t = decimal_int(n);
        t.append(" B");
        t
    }
}

pub fn fmt_signed_bytes(n: i64) -> (r: String)
    ensures
        r@ == change_text(n),
{
    if n >= 0 {
        let mut t = copy("+");
        t.append(fmt_bytes(n).as_str());
        t
    } else {
        fmt_bytes(n)
    }
}

// ---------------------------------------------------------------------------
// Reading values

/// A member of a member.
pub open spec fn inner(j: Json, a: Seq<char>, b: Seq<char>) -> Option<Json> {
    match get(j, a) {
        Some(v) => get(v, b),
        None => None,
    }
}

fn get_inner<'a>(v: &'a Datum, a: &str, b: &str) -> (r: Option<&'a Datum>)
    ensures
        opt_view(r) == inner(v@, a@, b@),
{
    match v.get(a) {
        Some(x) => x.get(b),
        None => None,
    }
}

/// A value in words.
pub open spec fn shown(j: Option<Json>) -> Seq<char> {
    match j {
        None => "unavailable"@,
        Some(Json::Null) => "unavailable"@,
        Some(Json::Str(s)) => if s.len() == 0 {
            "—"@
        } else {
            s
        },
        Some(Json::Bool(b)) => if b {
            "true"@
        } else {
            "false"@
        },
        Some(Json::UInt(n)) => dec(n as nat),
        Some(Json::NInt(n)) => dec_int(n as int),
        Some(other) => json_compact(serde_held(other)),
    }
}

fn show(v: Option<&Datum>) -> (r: String)
    ensures
        r@ == shown(opt_view(v)),
{
    match v {
        None => copy("unavailable"),
        Some(d) => match d {
            Datum::Null => copy("unavailable"),
            Datum::Str(s) => if is_blank(s.as_str()) {
                copy("—")
            } else {
                copy(s.as_str())
            },
            Datum::Bool(b) => copy(
                if *b {
                    "true"
                } else {
                    "false"
                },
            ),
            Datum::UInt(n) => decimal(*n),
            Datum::NInt(n) => decimal_int(*n),
            Datum::Real(_) => compact(d),
            Datum::Array(a) => {
                proof {
                    lemma_array_view(*a);
                }
                compact(d)
            },
            Datum::Object(a) => {
                proof {
                    lemma_object_view(*a);
                }
                compact(d)
            },
        },
    }
}

fn text(v: &Datum, key: &str) -> (r: String)
    ensures
        r@ == shown(get(v@, key@)),
{
    show(v.get(key))
}

/// The integer that a value is; one that is too large counts as the largest.
pub open spec fn numeric(j: Json) -> Option<i64> {
    match j {
        Json::UInt(n) => if n <= i64::MAX {
            Some(n as i64)
        } else {
            Some(i64::MAX)
        },
        Json::NInt(n) => Some(n),
        _ => None,
    }
}

fn read_numeric(v: &Datum) -> (r: Option<i64>)
    ensures
        r == numeric(v@),
{
    match v {
        Datum::UInt(n) => if *n <= 0x7fff_ffff_ffff_ffff {
            Some(*n as i64)
        } else {
            Some(i64::MAX)
        },
        Datum::NInt(n) => Some(*n),
        Datum::Array(a) => {
            proof {
                lemma_array_view(*a);
            }
            None
        },
        Datum::Object(a) => {
            proof {
                lemma_object_view(*a);
            }
            None
        },
        _ => None,
    }
}

pub open spec fn number_of(j: Option<Json>) -> Option<i64> {
    match j {
        Some(v) => numeric(v),
        None => None,
    }
}

fn read_number(v: Option<&Datum>) -> (r: Option<i64>)
    ensures
        r == number_of(opt_view(v)),
{
    match v {
        Some(d) => read_numeric(d),
        None => None,
    }
}

pub open spec fn bytes_of(j: Option<Json>) -> Seq<char> {
    match number_of(j) {
        Some(n) => bytes_text(n),
        None => "unavailable"@,
    }
}

fn show_bytes(v: Option<&Datum>) -> (r: String)
    ensures
        r@ == bytes_of(opt_view(v)),
{
    match read_number(v) {
        Some(n) => fmt_bytes(n),
        None => copy("unavailable"),
    }
}

// ---------------------------------------------------------------------------
// One snapshot

pub open spec fn census_line(id: Seq<char>, j: Json) -> Seq<char> {
    "runtime_snapshot - "@ + id + "\nsource="@ + shown(get(j, "source"@)) + " pid="@ + shown(
        get(j, "pid"@),
    ) + " seq="@ + shown(get(j, "seq"@)) + " tier="@ + shown(get(j, "tier"@))
        + " coverage_start_ns="@ + shown(get(j, "coverage_start_ns"@)) + "\n"@
}

fn write_census(id: &str, v: &Datum) -> (r: String)
    ensures
        r@ == census_line(id@, v@),
{
    let mut t = copy("runtime_snapshot - ");
    t.append(id);
    t.append("\nsource=");
    t.append(text(v, "source").as_str());
    t.append(" pid=");
    t.append(text(v, "pid").as_str());
    t.append(" seq=");
    t.append(text(v, "seq").as_str());
    t.append(" tier=");
    t.append(text(v, "tier").as_str());
    t.append(" coverage_start_ns=");
    t.append(text(v, "coverage_start_ns").as_str());
    t.append("\n");
    t
}

pub open spec fn usage_line(j: Json) -> Seq<char> {
    "RSS "@ + bytes_of(get(j, "rss_bytes"@)) + " ["@ + shown(inner(j, "quality"@, "rss_bytes"@))
        + "]  committed VA "@ + bytes_of(get(j, "committed_va_bytes"@)) + " ["@ + shown(
        inner(j, "quality"@, "committed_va_bytes"@),
    ) + "]  swap "@ + bytes_of(get(j, "swap_bytes"@)) + "\n"@
}

fn write_usage(v: &Datum) -> (r: String)
    ensures
        r@ == usage_line(v@),
{
    let mut t = copy("RSS ");
    t.append(show_bytes(v.get("rss_bytes")).as_str());
    t.append(" [");
    t.append(show(get_inner(v, "quality", "rss_bytes")).as_str());
    t.append("]  committed VA ");
    t.append(show_bytes(v.get("committed_va_bytes")).as_str());
    t.append(" [");
    t.append(show(get_inner(v, "quality", "committed_va_bytes")).as_str());
    t.append("]  swap ");
    t.append(show_bytes(v.get("swap_bytes")).as_str());
    t.append("\n");
    t
}

pub open spec fn engine_line(j: Json) -> Seq<char> {
    "Flecs "@ + bytes_of(inner(j, "flecs"@, "bytes"@)) + " (unused columns "@ + bytes_of(
        inner(j, "flecs"@, "bytes_table_components_unused"@),
    ) + ")  Jolt temp "@ + bytes_of(inner(j, "jolt"@, "temp_used"@)) + " / "@ + bytes_of(
        inner(j, "jolt"@, "temp_cap"@),
    ) + "\n"@
}

fn write_engine(v: &Datum) -> (r: String)
    ensures
        r@ == engine_line(v@),
{
    let mut t = copy("Flecs ");
    t.append(show_bytes(get_inner(v, "flecs", "bytes")).as_str());
    t.append(" (unused columns ");
    t.append(show_bytes(get_inner(v, "flecs", "bytes_table_components_unused")).as_str());
    t.append(")  Jolt temp ");
    t.append(show_bytes(get_inner(v, "jolt", "temp_used")).as_str());
    t.append(" / ");
    t.append(show_bytes(get_inner(v, "jolt", "temp_cap")).as_str());
    t.append("\n");
    t
}

pub open spec fn gpu_line(j: Json) -> Seq<char> {
    match get(j, "gpu"@) {
        Some(g) => "GPU particles "@ + shown(get(g, "particles"@)) + " / "@ + shown(
            get(g, "particle_cap"@),
        ) + " ["@ + shown(get(g, "quality"@)) + "]  driver "@ + bytes_of(
            get(g, "driver_available_kb"@),
        ) + "\n"@,
        None => ""@,
    }
}

fn write_gpu(v: &Datum) -> (r: String)
    ensures
        r@ == gpu_line(v@),
{
    match v.get("gpu") {
        Some(g) => {
            let mut t = copy("GPU particles ");
            t.append(text(g, "particles").as_str());
            t.append(" / ");
            t.append(text(g, "particle_cap").as_str());
            t.append(" [");
            t.append(text(g, "quality").as_str());
            t.append("]  driver ");
            t.append(show_bytes(g.get("driver_available_kb")).as_str());
            t.append("\n");
            t
        },
        None => copy(""),
    }
}

/// The lists of a snapshot.
#[derive(Clone, Copy, PartialEq, Eq, Structural)]
pub enum Row {
    Violation,
    Pool,
    Region,
    Hint,
}

/// A row of a list.
pub open spec fn row_line(kind: Row, j: Json) -> Seq<char> {
    match kind {
        Row::Violation => "  "@ + shown(get(j, "metric"@)) + " actual="@ + shown(get(j, "actual"@))
            + " limit="@ + shown(get(j, "limit"@)) + " ["@ + shown(get(j, "quality"@)) + "]\n"@,
        Row::Pool => "  "@ + shown(get(j, "name"@)) + ": "@ + shown(get(j, "in_use"@)) + " / "@
            + shown(get(j, "cap"@)) + " ["@ + shown(get(j, "quality"@)) + "]\n"@,
        Row::Region => "  "@ + padded_left(bytes_of(get(j, "size"@)), 10) + "  "@ + padded_right(
            shown(get(j, "kind"@)),
            7,
        ) + " "@ + shown(get(j, "perm"@)) + " "@ + shown(get(j, "path"@)) + "\n"@,
        Row::Hint => "  ["@ + shown(get(j, "kind"@)) + "] "@ + shown(get(j, "label"@)) + " — "@
            + shown(get(j, "detail"@)) + "\n"@,
    }
}

fn write_row(kind: Row, v: &Datum) -> (r: String)
    ensures
        r@ == row_line(kind, v@),
{
    match kind {
        Row::Violation => {
            let mut t = copy("  ");
            t.append(text(v, "metric").as_str());
            t.append(" actual=");
            t.append(text(v, "actual").as_str());
            t.append(" limit=");
            t.append(text(v, "limit").as_str());
            t.append(" [");
            t.append(text(v, "quality").as_str());
            t.append("]\n");
            t
        },
        Row::Pool => {
            let mut t = copy("  ");
            t.append(text(v, "name").as_str());
            t.append(": ");
            t.append(text(v, "in_use").as_str());
            t.append(" / ");
            t.append(text(v, "cap").as_str());
            t.append(" [");
            t.append(text(v, "quality").as_str());
            t.append("]\n");
            t
        },
        Row::Region => {
            let mut t = copy("  ");
            t.append(pad_left(show_bytes(v.get("size")).as_str(), 10).as_str());
            t.append("  ");
            t.append(pad_right(text(v, "kind").as_str(), 7).as_str());
            t.append(" ");
            t.append(text(v, "perm").as_str());
            t.append(" ");
            t.append(text(v, "path").as_str());
            t.append("\n");
            t
        },
        Row::Hint => {
            let mut t = copy("  [");
            t.append(text(v, "kind").as_str());
            t.append("] ");
            t.append(text(v, "label").as_str());
            t.append(" — ");
            t.append(text(v, "detail").as_str());
            t.append("\n");
            t
        },
    }
}

/// The first `n` rows of a list.
pub open spec fn row_lines(kind: Row, rows: Seq<Json>, n: nat) -> Seq<char>
    decreases n,
{
    if n == 0 {
        ""@
    } else {
        row_lines(kind, rows, (n - 1) as nat) + row_line(kind, rows[n - 1])
    }
}

/// The smaller of a limit and a length.
pub open spec fn limited(top: u64, n: nat) -> nat {
    if top < n {
        top as nat
    } else {
        n
    }
}

fn limit(top: u64, n: usize) -> (r: usize)
    ensures
        r == limited(top, n as nat),
        r <= n,
{
    if top < n as u64 {
        top as usize
    } else {
        n
    }
}

fn write_rows(kind: Row, rows: &Vec<Datum>, top: u64) -> (r: String)
    ensures
        r@ == row_lines(kind, views(rows@), limited(top, rows@.len())),
{
    let ghost all = views(rows@);
    let n: usize = limit(top, rows.len());
    let mut out = copy("");
    for i in 0..n
        invariant
            n <= rows@.len(),
            all == views(rows@),
            out@ == row_lines(kind, all, i as nat),
    {
        assert(all[i as int] == rows@[i as int]@);
        out.append(write_row(kind, &rows[i]).as_str());
    }
    out
}

pub open spec fn budget_lines(j: Json, top: u64) -> Seq<char> {
    match get(j, "budget"@) {
        Some(b) => "budget "@ + shown(get(b, "name"@)) + " ok="@ + shown(get(b, "ok"@))
            + " checked="@ + shown(get(b, "checked"@)) + " unavailable="@ + shown(
            get(b, "unavailable"@),
        ) + "\n"@ + (match as_array(get(b, "violations"@)) {
            Some(vs) => row_lines(Row::Violation, vs, limited(top, vs.len())),
            None => ""@,
        }),
        None => ""@,
    }
}

fn write_budget(v: &Datum, top: u64) -> (r: String)
    ensures
        r@ == budget_lines(v@, top),
{
    match v.get("budget") {
        Some(b) => {
            let mut t = copy("budget ");
            t.append(text(b, "name").as_str());
            t.append(" ok=");
            t.append(text(b, "ok").as_str());
            t.append(" checked=");
            t.append(text(b, "checked").as_str());
            t.append(" unavailable=");
            t.append(text(b, "unavailable").as_str());
            t.append("\n");
            let rows = match get_items(b, "violations") {
                Some(vs) => {
                    assert(views(vs@).len() == vs@.len());
                    write_rows(Row::Violation, vs, top)
                },
                None => copy(""),
            };
            t.append(rows.as_str());
            t
        },
        None => copy(""),
    }
}

pub open spec fn pool_lines(j: Json, top: u64) -> Seq<char> {
    match as_array(get(j, "pools"@)) {
        Some(vs) => "pools:\n"@ + row_lines(Row::Pool, vs, limited(top, vs.len())),
        None => ""@,
    }
}

pub open spec fn region_lines(j: Json, top: u64) -> Seq<char> {
    match as_array(get(j, "regions"@)) {
        Some(vs) => "largest mappings (top "@ + dec(limited(top, vs.len())) + "):\n"@ + row_lines(
            Row::Region,
            vs,
            limited(top, vs.len()),
        ),
        None => ""@,
    }
}

pub open spec fn hint_lines(j: Json, top: u64) -> Seq<char> {
    match as_array(get(j, "hints"@)) {
        Some(vs) => if vs.len() == 0 {
            ""@
        } else {
            "hints:\n"@ + row_lines(Row::Hint, vs, limited(top, vs.len()))
        },
        None => ""@,
    }
}

fn write_lists(v: &Datum, top: u64) -> (r: String)
    ensures
        r@ == pool_lines(v@, top) + region_lines(v@, top) + hint_lines(v@, top),
{
    let mut pools = match get_items(v, "pools") {
        Some(vs) => {
            assert(views(vs@).len() == vs@.len());
            let mut t = copy("pools:\n");
            t.append(write_rows(Row::Pool, vs, top).as_str());
            t
        },
        None => copy(""),
    };
    let regions = match get_items(v, "regions") {
        Some(vs) => {
            assert(views(vs@).len() == vs@.len());
            let mut t = copy("largest mappings (top ");
            t.append(decimal(limit(top, vs.len()) as u64).as_str());
            t.append("):\n");
            t.append(write_rows(Row::Region, vs, top).as_str());
            t
        },
        None => copy(""),
    };
    let hints = match get_items(v, "hints") {
        Some(vs) => {
            assert(views(vs@).len() == vs@.len());
            if vs.len() == 0 {
                copy("")
            } else {
                let mut t = copy("hints:\n");
                t.append(write_rows(Row::Hint, vs, top).as_str());
                t
            }
        },
        None => copy(""),
    };
    pools.append(regions.as_str());
    pools.append(hints.as_str());
    pools
}

/// A snapshot in words, with at most `top` rows of each list.
pub open spec fn snapshot_text(id: Seq<char>, j: Json, top: u64) -> Seq<char> {
    census_line(id, j) + usage_line(j) + engine_line(j) + gpu_line(j) + budget_lines(j, top) + (
    pool_lines(j, top) + region_lines(j, top) + hint_lines(j, top))
}

pub fn render_snapshot(id: &str, value: &Datum, top: u64) -> (r: String)
    ensures
        r@ == snapshot_text(id@, value@, top),
{
    let mut out = write_census(id, value);
    out.append(write_usage(value).as_str());
    out.append(write_engine(value).as_str());
    out.append(write_gpu(value).as_str());
    out.append(write_budget(value, top).as_str());
    out.append(write_lists(value, top).as_str());
    out
}

// ---------------------------------------------------------------------------
// Two snapshots

/// The difference of two numbers, kept within 64 bits.
pub open spec fn change(a: i64, b: i64) -> i64 {
    if b - a > i64::MAX {
        i64::MAX
    } else if b - a < i64::MIN {
        i64::MIN
    } else {
        (b - a) as i64
    }
}

fn changed(a: i64, b: i64) -> (r: i64)
    ensures
        r == change(a, b),
{
    let d: i128 = b as i128 - a as i128;
    if d > i64::MAX as i128 {
        i64::MAX
    } else if d < i64::MIN as i128 {
        i64::MIN
    } else {
        d as i64
    }
}

pub open spec fn delta_line(label: Seq<char>, a: Option<i64>, b: Option<i64>) -> Seq<char> {
    match (a, b) {
        (Some(a), Some(b)) => label + ": "@ + bytes_text(a) + " → "@ + bytes_text(b) + " ("@
            + change_text(change(a, b)) + ")\n"@,
        _ => label + ": unavailable\n"@,
    }
}

fn format_delta(label: &str, base: Option<i64>, current: Option<i64>) -> (r: String)
    ensures
        r@ == delta_line(label@, base, current),
{
    let mut t = copy(label);
    match (base, current) {
        (Some(a), Some(b)) => {
            t.append(": ");
            t.append(fmt_bytes(a).as_str());
            t.append(" → ");
            t.append(fmt_bytes(b).as_str());
            t.append(" (");
            t.append(fmt_signed_bytes(changed(a, b)).as_str());
            t.append(")\n");
        },
        _ => {
            t.append(": unavailable\n");
        },
    }
    t
}

/// How the values of a name compare: as numbers of bytes, or as plain numbers.
pub open spec fn named_delta(name: Seq<char>, a: i64, b: i64, bytes: bool) -> Seq<char> {
    if bytes {
        "  "@ + name + ": "@ + bytes_text(a) + " → "@ + bytes_text(b) + " ("@ + change_text(
            change(a, b),
        ) + ")\n"@
    } else {
        "  "@ + name + ": "@ + dec_int(a as int) + " → "@ + dec_int(b as int) + " ("@ + (if change(
            a,
            b,
        ) >= 0 {
            "+"@
        } else {
            ""@
        }) + dec_int(change(a, b) as int) + ")\n"@
    }
}

fn write_named(name: &str, a: i64, b: i64, bytes: bool) -> (r: String)
    ensures
        r@ == named_delta(name@, a, b, bytes),
{
    let d: i64 = changed(a, b);
    let mut t = copy("  ");
    t.append(name);
    t.append(": ");
    if bytes {
        t.append(fmt_bytes(a).as_str());
        t.append(" → ");
        t.append(fmt_bytes(b).as_str());
        t.append(" (");
        t.append(fmt_signed_bytes(d).as_str());
        t.append(")\n");
    } else {
        t.append(decimal_int(a).as_str());
        t.append(" → ");
        t.append(decimal_int(b).as_str());
        t.append(" (");
        t.append(
            if d >= 0 {
                "+"
            } else {
                ""
            },
        );
        t.append(decimal_int(d).as_str());
        t.append(")\n");
    }
    t
}

pub open spec fn names_in(m: Seq<(Seq<char>, i64)>) -> Seq<Seq<char>> {
    m.map_values(|kv: (Seq<char>, i64)| kv.0)
}

/// The names of two maps, in order.
pub open spec fn names_of_both(
    a: Seq<(Seq<char>, i64)>,
    b: Seq<(Seq<char>, i64)>,
) -> Seq<Seq<char>> {
    distinct(names_in(a) + names_in(b))
}

pub open spec fn value_or_zero(m: Seq<(Seq<char>, i64)>, name: Seq<char>) -> i64 {
    match at(m, name) {
        Some(n) => n,
        None => 0,
    }
}

fn read_or_zero(m: &StrMap<i64>, name: &str) -> (r: i64)
    ensures
        r == value_or_zero(m@, name@),
{
    match m.get(name) {
        Some(n) => *n,
        None => 0,
    }
}

/// The lines of the first `n` names.
pub open spec fn named_lines(
    names: Seq<Seq<char>>,
    a: Seq<(Seq<char>, i64)>,
    b: Seq<(Seq<char>, i64)>,
    bytes: bool,
    n: nat,
) -> Seq<char>
    decreases n,
{
    if n == 0 {
        ""@
    } else {
        named_lines(names, a, b, bytes, (n - 1) as nat) + named_delta(
            names[n - 1],
            value_or_zero(a, names[n - 1]),
            value_or_zero(b, names[n - 1]),
            bytes,
        )
    }
}

/// How the values of two maps compare; nothing where both are empty.
pub open spec fn named_deltas(
    heading: Seq<char>,
    a: Seq<(Seq<char>, i64)>,
    b: Seq<(Seq<char>, i64)>,
    bytes: bool,
) -> Seq<char> {
    let names = names_of_both(a, b);
    if names.len() == 0 {
        ""@
    } else {
        heading + ":\n"@ + named_lines(names, a, b, bytes, names.len())
    }
}

fn push_names(out: &mut Vec<String>, m: &StrMap<i64>)
    ensures
        strs(final(out)@) == strs(old(out)@) + names_in(m@),
{
    let ghost first = strs(out@);
    let ghost all = names_in(m@);
    assert(first + all.take(0) =~= first);
    for i in 0..m.entries.len()
        invariant
            all == names_in(m@),
            strs(out@) == first + all.take(i as int),
    {
        let ghost before = out@;
        assert(m@[i as int].0 == m.entries@[i as int].0@);
        out.push(copy(m.entries[i].0.as_str()));
        assert(strs(out@) =~= strs(before).push(all[i as int]));
        assert(first + all.take(i + 1) =~= (first + all.take(i as int)).push(all[i as int]));
    }
    assert(all.take(all.len() as int) =~= all);
    assert(m@.len() == m.entries@.len());
}

fn write_named_deltas(heading: &str, a: &StrMap<i64>, b: &StrMap<i64>, bytes: bool) -> (r: String)
    ensures
        r@ == named_deltas(heading@, a@, b@, bytes),
{
    let mut both: Vec<String> = Vec::new();
    assert(strs(both@) =~= Seq::<Seq<char>>::empty());
    push_names(&mut both, a);
    push_names(&mut both, b);
    assert(strs(both@) =~= names_in(a@) + names_in(b@));
    let names = sort_distinct(&both);
    let ghost nv = strs(names@);
    assert(nv.len() == names@.len());
    if names.len() == 0 {
        return copy("");
    }
    let mut rows = copy("");
    for i in 0..names.len()
        invariant
            nv == strs(names@),
            rows@ == named_lines(nv, a@, b@, bytes, i as nat),
    {
        assert(nv[i as int] == names@[i as int]@);
        let name = names[i].as_str();
        let x: i64 = read_or_zero(a, name);
        let y: i64 = read_or_zero(b, name);
        rows.append(write_named(name, x, y, bytes).as_str());
    }
    let mut out = copy(heading);
    out.append(":\n");
    out.append(rows.as_str());
    out
}

/// The numbers of the first `n` rows, by name; of several with one name the last.
pub open spec fn named_values(
    rows: Seq<Json>,
    key: Seq<char>,
    metric: Seq<char>,
    n: nat,
) -> Seq<(Seq<char>, i64)>
    decreases n,
{
    if n == 0 {
        Seq::empty()
    } else {
        let before = named_values(rows, key, metric, (n - 1) as nat);
        match (as_str(get(rows[n - 1], key)), number_of(get(rows[n - 1], metric))) {
            (Some(name), Some(v)) => put(before, name, v),
            _ => before,
        }
    }
}

/// The numbers of the first `n` members.
pub open spec fn member_values(ms: Seq<(Seq<char>, Json)>, n: nat) -> Seq<(Seq<char>, i64)>
    decreases n,
{
    if n == 0 {
        Seq::empty()
    } else {
        let before = member_values(ms, (n - 1) as nat);
        match numeric(ms[n - 1].1) {
            Some(v) => put(before, ms[n - 1].0, v),
            None => before,
        }
    }
}

/// The pools in use, by name.
pub open spec fn pools_of(j: Json) -> Seq<(Seq<char>, i64)> {
    match as_array(get(j, "pools"@)) {
        Some(rows) => named_values(rows, "name"@, "in_use"@, rows.len()),
        None => Seq::empty(),
    }
}

/// The sizes of mappings, by kind.
pub open spec fn kinds_of(j: Json) -> Seq<(Seq<char>, i64)> {
    match as_object(get(j, "kinds"@)) {
        Some(ms) => member_values(ms, ms.len()),
        None => Seq::empty(),
    }
}

fn read_pools(v: &Datum) -> (r: StrMap<i64>)
    ensures
        r@ == pools_of(v@),
        r.wf(),
{
    let mut m: StrMap<i64> = StrMap::new();
    match get_items(v, "pools") {
        Some(rows) => {
            let ghost all = views(rows@);
            assert(all.len() == rows@.len());
            for i in 0..rows.len()
                invariant
                    all == views(rows@),
                    m.wf(),
                    m@ == named_values(all, "name"@, "in_use"@, i as nat),
            {
                assert(all[i as int] == rows@[i as int]@);
                match (get_str(&rows[i], "name"), read_number(rows[i].get("in_use"))) {
                    (Some(name), Some(n)) => {
                        m.insert(name.as_str(), n);
                    },
                    _ => {},
                }
            }
        },
        None => {},
    }
    m
}

fn read_kinds(v: &Datum) -> (r: StrMap<i64>)
    ensures
        r@ == kinds_of(v@),
        r.wf(),
{
    let mut m: StrMap<i64> = StrMap::new();
    let kinds = match v.get("kinds") {
        Some(k) => k,
        None => {
            return m;
        },
    };
    match kinds.fields() {
        Some(ms) => {
            let ghost all = members(ms@);
            assert(all.len() == ms@.len());
            for i in 0..ms.len()
                invariant
                    all == members(ms@),
                    m.wf(),
                    m@ == member_values(all, i as nat),
            {
                assert(all[i as int] == (ms@[i as int].0@, ms@[i as int].1@));
                match read_numeric(&ms[i].1) {
                    Some(n) => {
                        m.insert(ms[i].0.as_str(), n);
                    },
                    None => {},
                }
            }
        },
        None => {},
    }
    m
}

/// How two snapshots compare.
pub open spec fn diff_text(base_id: Seq<char>, a: Json, current_id: Seq<char>, b: Json) -> Seq<
    char,
> {
    "memory_diff - "@ + base_id + " → "@ + current_id + "\n"@ + delta_line(
        "RSS"@,
        number_of(get(a, "rss_bytes"@)),
        number_of(get(b, "rss_bytes"@)),
    ) + delta_line(
        "committed VA"@,
        number_of(get(a, "committed_va_bytes"@)),
        number_of(get(b, "committed_va_bytes"@)),
    ) + delta_line(
        "swap"@,
        number_of(get(a, "swap_bytes"@)),
        number_of(get(b, "swap_bytes"@)),
    ) + delta_line(
        "Flecs bytes"@,
        number_of(inner(a, "flecs"@, "bytes"@)),
        number_of(inner(b, "flecs"@, "bytes"@)),
    ) + delta_line(
        "Flecs unused columns"@,
        number_of(inner(a, "flecs"@, "bytes_table_components_unused"@)),
        number_of(inner(b, "flecs"@, "bytes_table_components_unused"@)),
    ) + delta_line(
        "Jolt temp"@,
        number_of(inner(a, "jolt"@, "temp_used"@)),
        number_of(inner(b, "jolt"@, "temp_used"@)),
    ) + named_deltas("pools (in_use)"@, pools_of(a), pools_of(b), false) + named_deltas(
        "mapping kinds"@,
        kinds_of(a),
        kinds_of(b),
        true,
    )
}

fn delta_of(label: &str, a: &Datum, b: &Datum, key: &str) -> (r: String)
    ensures
        r@ == delta_line(label@, number_of(get(a@, key@)), number_of(get(b@, key@))),
{
    format_delta(label, read_number(a.get(key)), read_number(b.get(key)))
}

fn delta_inner(label: &str, a: &Datum, b: &Datum, outer: &str, key: &str) -> (r: String)
    ensures
        r@ == delta_line(
            label@,
            number_of(inner(a@, outer@, key@)),
            number_of(inner(b@, outer@, key@)),
        ),
{
    format_delta(
        label,
        read_number(get_inner(a, outer, key)),
        read_number(get_inner(b, outer, key)),
    )
}

pub fn render_diff(base_id: &str, base: &Datum, current_id: &str, current: &Datum) -> (r: String)
    ensures
        r@ == diff_text(base_id@, base@, current_id@, current@),
{
    let mut out = copy("memory_diff - ");
    out.append(base_id);
    out.append(" → ");
    out.append(current_id);
    out.append("\n");
    out.append(delta_of("RSS", base, current, "rss_bytes").as_str());
    out.append(delta_of("committed VA", base, current, "committed_va_bytes").as_str());
    out.append(delta_of("swap", base, current, "swap_bytes").as_str());
    out.append(delta_inner("Flecs bytes", base, current, "flecs", "bytes").as_str());
    out.append(
        delta_inner(
            "Flecs unused columns",
            base,
            current,
            "flecs",
            "bytes_table_components_unused",
        ).as_str(),
    );
    out.append(delta_inner("Jolt temp", base, current, "jolt", "temp_used").as_str());
    out.append(
        write_named_deltas("pools (in_use)", &read_pools(base), &read_pools(current), false).as_str(),
    );
    out.append(
        write_named_deltas("mapping kinds", &read_kinds(base), &read_kinds(current), true).as_str(),
    );
    out
}

// ---------------------------------------------------------------------------
// Locality

pub open spec fn samples_of(j: Json) -> i64 {
    match number_of(get(j, "samples"@)) {
        Some(n) => n,
        None => 0,
    }
}

fn read_samples(v: &Datum) -> (r: i64)
    ensures
        r == samples_of(v@),
{
    match read_number(v.get("samples")) {
        Some(n) => n,
        None => 0,
    }
}

/// A limit as a signed number of 64 bits: what does not fit wraps around.
pub open spec fn signed(n: u64) -> int {
    if n <= i64::MAX {
        n as int
    } else {
        n - 0x1_0000_0000_0000_0000
    }
}

fn as_signed(n: u64) -> (r: i64)
    ensures
        r == signed(n),
{
    if n <= 0x7fff_ffff_ffff_ffff {
        n as i64
    } else {
        let rest: u64 = u64::MAX - n;
        -(rest as i64) - 1
    }
}

/// Which of the first `n` rows have enough samples.
pub open spec fn frequent(rows: Seq<Json>, min: u64, n: nat) -> Seq<int>
    decreases n,
{
    if n == 0 {
        Seq::empty()
    } else {
        let before = frequent(rows, min, (n - 1) as nat);
        if samples_of(rows[n - 1]) >= signed(min) {
            before.push(n - 1)
        } else {
            before
        }
    }
}

pub open spec fn sample_keys(rows: Seq<Json>, kept: Seq<int>) -> Seq<KeyView> {
    Seq::new(
        kept.len(),
        |i: int|
            KeyView {
                rank: (i64::MAX - samples_of(rows[kept[i]])) as u64,
                name: ""@,
                number: 0,
                at: i as nat,
            },
    )
}

/// The rows with enough samples, those with most first.
pub open spec fn hottest(rows: Seq<Json>, min: u64) -> Seq<int> {
    let kept = frequent(rows, min, rows.len());
    arranged(kept, sort_order(sample_keys(rows, kept)))
}

pub open spec fn hotspot_line(j: Json) -> Seq<char> {
    "  samples="@ + shown(get(j, "samples"@)) + " misses="@ + shown(get(j, "misses"@))
        + " weight="@ + shown(get(j, "weight"@)) + " addr="@ + shown(get(j, "addr"@))
        + " thread="@ + shown(get(j, "thread"@)) + " "@ + shown(get(j, "symbol"@)) + " ["@ + shown(
        get(j, "data_source"@),
    ) + "]\n"@
}

fn write_hotspot(v: &Datum) -> (r: String)
    ensures
        r@ == hotspot_line(v@),
{
    let mut t = copy("  samples=");
    t.append(text(v, "samples").as_str());
    t.append(" misses=");
    t.append(text(v, "misses").as_str());
    t.append(" weight=");
    t.append(text(v, "weight").as_str());
    t.append(" addr=");
    t.append(text(v, "addr").as_str());
    t.append(" thread=");
    t.append(text(v, "thread").as_str());
    t.append(" ");
    t.append(text(v, "symbol").as_str());
    t.append(" [");
    t.append(text(v, "data_source").as_str());
    t.append("]\n");
    t
}

pub open spec fn hotspot_lines(rows: Seq<Json>, order: Seq<int>, n: nat) -> Seq<char>
    decreases n,
{
    if n == 0 {
        ""@
    } else {
        hotspot_lines(rows, order, (n - 1) as nat) + hotspot_line(rows[order[n - 1]])
    }
}

pub open spec fn no_samples(id: Seq<char>) -> Seq<char> {
    "locality_hotspots - "@ + id
        + "\nquality=unavailable\nNo PMC/ETW/perf address samples are present; VA adjacency is not treated as cache locality.\nSoft-route: enable sampling in wiki Health → Runtime (PMC/ETW/perf) before Capture, or use runtime_snapshot / memory_diff for RSS/VA/pool census without locality.\n"@
}

/// The places with most samples. Without samples nothing is inferred.
pub open spec fn locality_text(id: Seq<char>, j: Json, top: u64, min: u64) -> Seq<char> {
    match get(j, "locality"@) {
        None => no_samples(id),
        Some(l) => match as_array(get(l, "hotspots"@)) {
            None => "locality_hotspots - "@ + id + "\nquality="@ + shown(get(l, "quality"@))
                + "\nNo attributed hotspot records.\nSoft-route: re-capture with locality sampling enabled in wiki Health → Runtime.\n"@,
            Some(rows) => {
                let order = hottest(rows, min);
                "locality_hotspots - "@ + id + "\nquality="@ + shown(get(l, "quality"@))
                    + " total_samples="@ + shown(get(l, "samples"@)) + "\n"@ + hotspot_lines(
                    rows,
                    order,
                    limited(top, order.len()),
                )
            },
        },
    }
}

pub open spec fn places(v: Seq<usize>) -> Seq<int> {
    v.map_values(|i: usize| i as int)
}

fn find_hottest(rows: &Vec<Datum>, min: u64) -> (r: Vec<usize>)
    ensures
        places(r@) == hottest(views(rows@), min),
        forall|i: int| 0 <= i < r@.len() ==> #[trigger] r@[i] < rows@.len(),
{
    let ghost all = views(rows@);
    assert(all.len() == rows@.len());
    let least: i64 = as_signed(min);
    let mut kept: Vec<usize> = Vec::new();
    assert(places(kept@) =~= Seq::<int>::empty());
    for i in 0..rows.len()
        invariant
            all == views(rows@),
            least == signed(min),
            places(kept@) == frequent(all, min, i as nat),
            forall|k: int| 0 <= k < kept@.len() ==> #[trigger] kept@[k] < i,
    {
        assert(all[i as int] == rows@[i as int]@);
        if read_samples(&rows[i]) >= least {
            let ghost before = kept@;
            kept.push(i);
            assert(places(kept@) =~= places(before).push(i as int));
        }
    }
    let ghost kv = places(kept@);
    let ghost ks = sample_keys(all, kv);
    let mut keys: Vec<Key> = Vec::new();
    for i in 0..kept.len()
        invariant
            all == views(rows@),
            kv == places(kept@),
            ks == sample_keys(all, kv),
            forall|k: int| 0 <= k < kept@.len() ==> #[trigger] kept@[k] < rows@.len(),
            keys@.len() == i,
            forall|k: int| 0 <= k < i ==> (#[trigger] keys@[k])@ == ks[k],
    {
        let p: usize = kept[i];
        assert(kv[i as int] == p);
        assert(all[p as int] == rows@[p as int]@);
        let n: i64 = read_samples(&rows[p]);
        let rank: u64 = (i64::MAX as i128 - n as i128) as u64;
        keys.push(Key { rank, name: copy(""), number: 0, at: i });
    }
    assert(key_views(keys@) =~= ks);
    assert(positioned(key_views(keys@)));
    let order = sort(keys);
    let mut out: Vec<usize> = Vec::new();
    for i in 0..order.len()
        invariant
            kv == places(kept@),
            forall|k: int| 0 <= k < kept@.len() ==> #[trigger] kept@[k] < rows@.len(),
            out@.len() == i,
            forall|k: int|
                0 <= k < order@.len() ==> (#[trigger] order@[k] as int) == sort_order(ks)[k]
                    && order@[k] < kept@.len(),
            forall|k: int| 0 <= k < i ==> (#[trigger] out@[k]) as int == kv[sort_order(ks)[k]],
            forall|k: int| 0 <= k < i ==> #[trigger] out@[k] < rows@.len(),
    {
        let p: usize = order[i];
        assert(order@[i as int] as int == sort_order(ks)[i as int]);
        assert(kv[p as int] == kept@[p as int]);
        out.push(kept[p]);
    }
    assert(places(out@) =~= hottest(all, min));
    out
}

pub fn render_locality(id: &str, value: &Datum, top: u64, min_samples: u64) -> (r: String)
    ensures
        r@ == locality_text(id@, value@, top, min_samples),
{
    let mut out = copy("locality_hotspots - ");
    out.append(id);
    let l = match value.get("locality") {
        Some(l) => l,
        None => {
            out.append(
                "\nquality=unavailable\nNo PMC/ETW/perf address samples are present; VA adjacency is not treated as cache locality.\nSoft-route: enable sampling in wiki Health → Runtime (PMC/ETW/perf) before Capture, or use runtime_snapshot / memory_diff for RSS/VA/pool census without locality.\n",
            );
            return out;
        },
    };
    out.append("\nquality=");
    out.append(text(l, "quality").as_str());
    let rows = match get_items(l, "hotspots") {
        Some(rows) => rows,
        None => {
            out.append(
                "\nNo attributed hotspot records.\nSoft-route: re-capture with locality sampling enabled in wiki Health → Runtime.\n",
            );
            return out;
        },
    };
    out.append(" total_samples=");
    out.append(text(l, "samples").as_str());
    out.append("\n");
    let order = find_hottest(rows, min_samples);
    let ghost all = views(rows@);
    let ghost ov = places(order@);
    assert(ov.len() == order@.len());
    let n: usize = limit(top, order.len());
    let mut list = copy("");
    for i in 0..n
        invariant
            n <= order@.len(),
            all == views(rows@),
            ov == places(order@),
            forall|k: int| 0 <= k < order@.len() ==> #[trigger] order@[k] < rows@.len(),
            list@ == hotspot_lines(all, ov, i as nat),
    {
        let p: usize = order[i];
        assert(ov[i as int] == p);
        assert(all[p as int] == rows@[p as int]@);
        list.append(write_hotspot(&rows[p]).as_str());
    }
    out.append(list.as_str());
    out
}

proof fn lemma_frequent(rows: Seq<Json>, min: u64, n: nat)
    requires
        n <= rows.len(),
    ensures
        forall|i: int|
            0 <= i < frequent(rows, min, n).len() ==> 0 <= #[trigger] frequent(rows, min, n)[i] < n
                && samples_of(rows[frequent(rows, min, n)[i]]) >= signed(min),
    decreases n,
{
    if n > 0 {
        lemma_frequent(rows, min, (n - 1) as nat);
        let before = frequent(rows, min, (n - 1) as nat);
        let now = frequent(rows, min, n);
        assert forall|i: int| 0 <= i < now.len() implies 0 <= #[trigger] now[i] < n && samples_of(
            rows[now[i]],
        ) >= signed(min) by {
            if i < before.len() {
                assert(now[i] == before[i]);
            }
        }
    }
}

/// Every place that is listed has enough samples, and none stands behind one with
/// fewer.
pub proof fn law_hottest_first(rows: Seq<Json>, min: u64, i: int, j: int)
    requires
        0 <= i <= j < hottest(rows, min).len(),
    ensures
        0 <= hottest(rows, min)[i] < rows.len(),
        samples_of(rows[hottest(rows, min)[i]]) >= signed(min),
        samples_of(rows[hottest(rows, min)[i]]) >= samples_of(rows[hottest(rows, min)[j]]),
{
    let kept = frequent(rows, min, rows.len());
    let ks = sample_keys(rows, kept);
    lemma_frequent(rows, min, rows.len());
    crate::order::lemma_sort_order(ks);
    crate::order::lemma_key_order();
    let s = crate::order::sorted_keys(ks);
    ks.lemma_sort_by_ensures(crate::order::key_le());
    s.to_multiset_ensures();
    ks.to_multiset_ensures();
    assert(s.contains(s[i]) && s.contains(s[j]));
    assert(ks.to_multiset().contains(s[i]) && ks.to_multiset().contains(s[j]));
    let a = choose|a: int| 0 <= a < ks.len() && ks[a] == s[i];
    let b = choose|b: int| 0 <= b < ks.len() && ks[b] == s[j];
    assert(sort_order(ks)[i] == a && sort_order(ks)[j] == b);
    assert(0 <= kept[a] < rows.len());
    assert(0 <= kept[b] < rows.len());
    if i < j {
        assert(crate::order::key_le()(s[i], s[j]));
    } else {
        assert(a == b);
    }
}

// ---------------------------------------------------------------------------
// Captures

/// `live`, or the digits of a capture.
pub open spec fn is_capture_id(id: Seq<char>) -> bool {
    id == "live"@ || (id.len() > 0 && all_digits(id))
}

pub fn valid_capture_id(id: &str) -> (r: bool)
    ensures
        r == is_capture_id(id@),
{
    if same(id, "live") {
        return true;
    }
    let v = to_chars(id);
    for i in 0..v.len()
        invariant
            v@ == id@,
            id@ != "live"@,
            forall|k: int| 0 <= k < i ==> is_digit(#[trigger] id@[k]),
    {
        if !('0' <= v[i] && v[i] <= '9') {
            assert(!is_digit(id@[i as int]));
            return false;
        }
    }
    v.len() > 0
}

/// The id that the name of a capture's file holds.
pub open spec fn id_in_name(name: Seq<char>) -> Option<Seq<char>> {
    match behind(name, "capture-"@) {
        Some(rest) => if ends(rest, ".jsonl"@) {
            let id = rest.take(rest.len() - ".jsonl"@.len());
            if is_capture_id(id) && id != "live"@ {
                Some(id)
            } else {
                None
            }
        } else {
            None
        },
        None => None,
    }
}

fn read_id(name: &str) -> (r: Option<String>)
    ensures
        opt_text(r) == id_in_name(name@),
{
    match strip_prefix(name, "capture-") {
        Some(rest) => if crate::text::ends_with(rest.as_str(), ".jsonl") {
            let v = to_chars(rest.as_str());
            let tail = to_chars(".jsonl");
            let id = crate::text::slice(&v, 0, v.len() - tail.len());
            assert(id@ =~= rest@.take(rest@.len() - ".jsonl"@.len()));
            if valid_capture_id(id.as_str()) && !same(id.as_str(), "live") {
                Some(id)
            } else {
                None
            }
        } else {
            None
        },
        None => None,
    }
}

pub open spec fn ids_among(names: Seq<Seq<char>>, n: nat) -> Seq<Seq<char>>
    decreases n,
{
    if n == 0 {
        Seq::empty()
    } else {
        match id_in_name(names[n - 1]) {
            Some(id) => ids_among(names, (n - 1) as nat).push(id),
            None => ids_among(names, (n - 1) as nat),
        }
    }
}

/// The captures among the files of a directory, in order.
pub open spec fn capture_ids(names: Seq<Seq<char>>) -> Seq<Seq<char>> {
    distinct(ids_among(names, names.len()))
}

pub fn list_capture_ids(names: &Vec<String>) -> (r: Vec<String>)
    ensures
        strs(r@) == capture_ids(strs(names@)),
{
    let ghost nv = strs(names@);
    assert(nv.len() == names@.len());
    let mut ids: Vec<String> = Vec::new();
    assert(strs(ids@) =~= Seq::<Seq<char>>::empty());
    for i in 0..names.len()
        invariant
            nv == strs(names@),
            strs(ids@) == ids_among(nv, i as nat),
    {
        assert(nv[i as int] == names@[i as int]@);
        match read_id(names[i].as_str()) {
            Some(id) => {
                let ghost before = ids@;
                ids.push(id);
                assert(strs(ids@) =~= strs(before).push(id@));
            },
            None => {},
        }
    }
    sort_distinct(&ids)
}

/// What captures there are, in words.
pub open spec fn captures_hint(names: Seq<Seq<char>>, live: bool) -> Seq<char> {
    let ids = if live {
        seq!["live"@] + capture_ids(names)
    } else {
        capture_ids(names)
    };
    if ids.len() == 0 {
        "(none — open wiki Health → Runtime or run Betwixt)"@
    } else {
        joined(ids, ", "@)
    }
}

pub fn available_captures_hint(names: &Vec<String>, live: bool) -> (r: String)
    ensures
        r@ == captures_hint(strs(names@), live),
{
    let ids = list_capture_ids(names);
    let ghost cv = capture_ids(strs(names@));
    let mut all: Vec<String> = Vec::new();
    assert(strs(all@) =~= Seq::<Seq<char>>::empty());
    if live {
        all.push(copy("live"));
        assert(strs(all@) =~= seq!["live"@]);
    }
    let ghost head = strs(all@);
    assert(head + cv.take(0) =~= head);
    for i in 0..ids.len()
        invariant
            cv == strs(ids@),
            strs(all@) == head + cv.take(i as int),
    {
        assert(cv[i as int] == ids@[i as int]@);
        let ghost before = all@;
        all.push(copy(ids[i].as_str()));
        assert(strs(all@) =~= strs(before).push(cv[i as int]));
        assert(head + cv.take(i + 1) =~= (head + cv.take(i as int)).push(cv[i as int]));
    }
    assert(cv.len() == ids@.len());
    assert(cv.take(cv.len() as int) =~= cv);
    assert(Seq::<Seq<char>>::empty() + cv =~= cv);
    assert(strs(all@).len() == all@.len());
    if all.len() == 0 {
        copy("(none — open wiki Health → Runtime or run Betwixt)")
    } else {
        join(&all, ", ")
    }
}

/// The name of the file that holds a capture.
pub fn capture_name(id: &str) -> (r: String)
    ensures
        r@ == "capture-"@ + id@ + ".jsonl"@,
{
    let mut t = copy("capture-");
    t.append(id);
    t.append(".jsonl");
    t
}

/// A capture's file is listed under the capture's id.
pub proof fn law_capture_names_are_listed(id: Seq<char>)
    requires
        is_capture_id(id),
        id != "live"@,
    ensures
        id_in_name("capture-"@ + id + ".jsonl"@) == Some(id),
{
    let name = "capture-"@ + id + ".jsonl"@;
    let n = "capture-"@.len() as int;
    let rest = name.skip(n);
    assert(name.take(n) =~= "capture-"@);
    assert(rest =~= id + ".jsonl"@);
    assert(rest.skip(rest.len() - ".jsonl"@.len()) =~= ".jsonl"@);
    assert(rest.take(rest.len() - ".jsonl"@.len()) =~= id);
}

/// Where a snapshot is read from.
#[derive(Clone, Copy, PartialEq, Eq, Structural)]
pub enum Place {
    Merged,
    Cooperative,
    Capture,
}

/// What there is to read.
#[derive(Clone, Copy)]
pub struct Present {
    pub merged: bool,
    pub cooperative: bool,
    pub capture: bool,
}

/// Where the snapshot with an id is, or why there is none.
pub open spec fn place_of(
    id: Seq<char>,
    has: Present,
    path: Seq<char>,
    hint: Seq<char>,
) -> Result<Place, Seq<char>> {
    if !is_capture_id(id) {
        Err("capture id must be `live` or digits; got `"@ + id + "`. Available: "@ + hint)
    } else if id == "live"@ {
        if has.merged {
            Ok(Place::Merged)
        } else if has.cooperative {
            Ok(Place::Cooperative)
        } else {
            Err(
                "no runtime snapshot. Produce one via: (1) wiki Health → Runtime while Betwixt runs, or (2) run Betwixt from the workspace root (writes `.wordkeep/runtime/latest.json`). Then call runtime_snapshot / memory_diff / locality_hotspots. Soft-route: after a Tracy hitch hunt, compare two wiki Capture ids with memory_diff."@,
            )
        }
    } else if has.capture {
        Ok(Place::Capture)
    } else {
        Err(
            "no capture `"@ + id + "` at "@ + path
                + ". Produce numbered captures via wiki Health → Runtime → Capture (writes capture-<id>.jsonl). Available: "@
                + hint
                + ". Soft-route: use capture=`live` for the merged census, or runtime_snapshot first to confirm a snapshot exists."@,
        )
    }
}

pub open spec fn place_outcome(r: Result<Place, String>) -> Result<Place, Seq<char>> {
    match r {
        Ok(p) => Ok(p),
        Err(e) => Err(e@),
    }
}

pub fn locate(id: &str, present: Present, path: &str, hint: &str) -> (r: Result<Place, String>)
    ensures
        place_outcome(r) == place_of(id@, present, path@, hint@),
{
    if !valid_capture_id(id) {
        let mut e = copy("capture id must be `live` or digits; got `");
        e.append(id);
        e.append("`. Available: ");
        e.append(hint);
        return Err(e);
    }
    if same(id, "live") {
        if present.merged {
            return Ok(Place::Merged);
        }
        if present.cooperative {
            return Ok(Place::Cooperative);
        }
        return Err(
            copy(
                "no runtime snapshot. Produce one via: (1) wiki Health → Runtime while Betwixt runs, or (2) run Betwixt from the workspace root (writes `.wordkeep/runtime/latest.json`). Then call runtime_snapshot / memory_diff / locality_hotspots. Soft-route: after a Tracy hitch hunt, compare two wiki Capture ids with memory_diff.",
            ),
        );
    }
    if present.capture {
        return Ok(Place::Capture);
    }
    let mut e = copy("no capture `");
    e.append(id);
    e.append("` at ");
    e.append(path);
    e.append(
        ". Produce numbered captures via wiki Health → Runtime → Capture (writes capture-<id>.jsonl). Available: ",
    );
    e.append(hint);
    e.append(
        ". Soft-route: use capture=`live` for the merged census, or runtime_snapshot first to confirm a snapshot exists.",
    );
    Err(e)
}

/// The last of the first `n` lines that is not blank.
pub open spec fn last_solid(ls: Seq<Seq<char>>, n: nat) -> Option<Seq<char>>
    decreases n,
{
    if n == 0 {
        None
    } else if trimmed(ls[n - 1]).len() > 0 {
        Some(ls[n - 1])
    } else {
        last_solid(ls, (n - 1) as nat)
    }
}

/// The line of a capture that holds its last state.
pub fn last_line(text: &str, path: &str) -> (r: Result<String, String>)
    ensures
        outcome(r) == (match last_solid(lines_of(text@), lines_of(text@).len()) {
            Some(l) => Ok(l),
            None => Err("capture "@ + path@ + " is empty"@),
        }),
{
    let ls = lines(text);
    let ghost lv = strs(ls@);
    assert(lv.len() == ls@.len());
    let mut i: usize = ls.len();
    while i > 0
        invariant
            i <= ls@.len(),
            lv == strs(ls@),
            lv == lines_of(text@),
            last_solid(lv, lv.len()) == last_solid(lv, i as nat),
        decreases i,
    {
        assert(lv[i - 1] == ls@[i - 1]@);
        if !is_blank(trim(ls[i - 1].as_str()).as_str()) {
            return Ok(copy(ls[i - 1].as_str()));
        }
        i -= 1;
    }
    let mut e = copy("capture ");
    e.append(path);
    e.append(" is empty");
    Err(e)
}

// ---------------------------------------------------------------------------
// Requests

/// How many bytes an answer may have.
pub open spec fn byte_cap(tokens: u64) -> nat {
    let t = if tokens < 64 {
        64nat
    } else {
        tokens as nat
    };
    if t * 4 > u64::MAX {
        u64::MAX as nat
    } else {
        t * 4
    }
}

/// An answer within its budget.
pub open spec fn clipped(text: Seq<char>, tokens: u64) -> Seq<char> {
    if blen(text) <= byte_cap(tokens) {
        text
    } else {
        cut_to(text, byte_cap(tokens)) + "\n… output clipped by token_budget\n"@
    }
}

pub fn clip(text: String, tokens: u64) -> (r: String)
    ensures
        r@ == clipped(text@, tokens),
{
    let t: u64 = if tokens < 64 {
        64
    } else {
        tokens
    };
    let cap: u64 = if t > u64::MAX / 4 {
        u64::MAX
    } else {
        t * 4
    };
    if size(text.as_str()) as u64 <= cap {
        return text;
    }
    let mut out = cut(text.as_str(), cap as usize);
    out.append("\n… output clipped by token_budget\n");
    out
}

pub open spec fn top_of(j: Json) -> u64 {
    if u64_or(j, "top"@, DEFAULT_TOP) > 64 {
        64
    } else {
        u64_or(j, "top"@, DEFAULT_TOP)
    }
}

fn read_top(args: &Datum) -> (r: u64)
    ensures
        r == top_of(args@),
{
    let n: u64 = number_or(args, "top", DEFAULT_TOP);
    if n > 64 {
        64
    } else {
        n
    }
}

/// The capture that a request asks for.
pub fn read_capture(args: &Datum) -> (r: String)
    ensures
        r@ == str_or(args@, "capture"@, "live"@),
{
    string_or(args, "capture", "live")
}

/// The answer to a request for a snapshot.
pub fn snapshot(args: &Datum, id: &str, value: &Datum) -> (r: String)
    ensures
        r@ == clipped(
            snapshot_text(id@, value@, top_of(args@)),
            u64_or(args@, "token_budget"@, DEFAULT_BUDGET),
        ),
{
    clip(
        render_snapshot(id, value, read_top(args)),
        number_or(args, "token_budget", DEFAULT_BUDGET),
    )
}

pub open spec fn diff_ids(j: Json, hint: Seq<char>) -> Result<(Seq<char>, Seq<char>), Seq<char>> {
    match as_str(get(j, "base"@)) {
        Some(base) => Ok((base, str_or(j, "current"@, "live"@))),
        None => Err(
            "base is required (capture id digits). Produce captures via wiki Health → Runtime (Capture), then pass the numeric id. Available: "@
                + hint,
        ),
    }
}

pub open spec fn ids_outcome(r: Result<(String, String), String>) -> Result<
    (Seq<char>, Seq<char>),
    Seq<char>,
> {
    match r {
        Ok((a, b)) => Ok((a@, b@)),
        Err(e) => Err(e@),
    }
}

/// The two captures that a comparison asks for.
pub fn read_diff_ids(args: &Datum, hint: &str) -> (r: Result<(String, String), String>)
    ensures
        ids_outcome(r) == diff_ids(args@, hint@),
{
    match get_str(args, "base") {
        Some(base) => Ok((copy(base.as_str()), string_or(args, "current", "live"))),
        None => {
            let mut e = copy(
                "base is required (capture id digits). Produce captures via wiki Health → Runtime (Capture), then pass the numeric id. Available: ",
            );
            e.append(hint);
            Err(e)
        },
    }
}

/// The answer to a request for a comparison.
pub fn memory_diff(args: &Datum, base_id: &str, a: &Datum, current_id: &str, b: &Datum) -> (r:
    String)
    ensures
        r@ == clipped(
            diff_text(base_id@, a@, current_id@, b@),
            u64_or(args@, "token_budget"@, DEFAULT_BUDGET),
        ),
{
    clip(
        render_diff(base_id, a, current_id, b),
        number_or(args, "token_budget", DEFAULT_BUDGET),
    )
}

/// The answer to a request for the places where accesses are slow.
pub fn locality_hotspots(args: &Datum, id: &str, value: &Datum) -> (r: String)
    ensures
        r@ == clipped(
            locality_text(id@, value@, top_of(args@), u64_or(args@, "min_samples"@, 1)),
            u64_or(args@, "token_budget"@, DEFAULT_BUDGET),
        ),
{
    clip(
        render_locality(id, value, read_top(args), number_or(args, "min_samples", 1)),
        number_or(args, "token_budget", DEFAULT_BUDGET),
    )
}

/// An answer is no longer than its budget allows, but for the note that it was
/// cut.
pub proof fn law_answers_are_bounded(text: Seq<char>, tokens: u64)
    ensures
        blen(clipped(text, tokens)) <= byte_cap(tokens) + blen(
            "\n… output clipped by token_budget\n"@,
        ),
{
    let note = "\n… output clipped by token_budget\n"@;
    crate::text::lemma_cut(text, byte_cap(tokens));
    crate::text::lemma_blen_add(cut_to(text, byte_cap(tokens)), note);
}

} // verus!
