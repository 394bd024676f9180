//! What is shown of captures, of the change between two of them, and of what is hot.
use vstd::prelude::*;
use crate::json::{as_array, as_str, get, str_or, u64_or, Json};
use crate::laws::lists::{lemma_arranged_items, lemma_contains_add, lemma_contains_push};
use crate::laws::primitives::law_distinct_names;
use crate::laws::texts::{flat, lemma_flat_push};
use crate::order::positioned;
use crate::runtime::{
    bytes_of, bytes_text, capture_ids, captures_hint, change, change_text, clipped, delta_line,
    diff_ids, frequent, hottest, hotspot_line, hotspot_lines, id_in_name, ids_among, in_units,
    last_solid, limited, locality_text, named_delta, named_deltas, named_lines, named_values,
    names_in, names_of_both, number_of, numeric, place_of, row_line, row_lines, sample_keys,
    samples_of, shown, signed, snapshot_text, top_of, Place, Present, Row,
};
use crate::smap::{at, lemma_at_put};
use crate::binary::in_digits;
use crate::text::{blen, dec, dec_int, joined, padded_left, padded_right, trimmed};

verus! {

// ---------------------------------------------------------------------------
// Values

/// Sizes are shown in bytes below a thousand and twenty-four, and in the largest unit that
/// they reach above; what is negative has a sign in front.
pub proof fn law_sizes_are_shown(n: i64)
    ensures
        ({
            let m = if n < 0 {
                (-(n as int)) as nat
            } else {
                n as nat
            };
            let d = in_digits(m);
            let sign = if n < 0 {
                "-"@
            } else {
                ""@
            };
            &&& d < 1024 ==> bytes_text(n) == dec_int(n as int) + " B"@
            &&& 1024 <= d < 1024 * 1024 ==> bytes_text(n) == sign + in_units(m, 1024, 1) + " KiB"@
            &&& 1024 * 1024 <= d < 1024 * 1024 * 1024 ==> bytes_text(n) == sign + in_units(
                m,
                1024 * 1024,
                2,
            ) + " MiB"@
            &&& d >= 1024 * 1024 * 1024 ==> bytes_text(n) == sign + in_units(
                m,
                1024 * 1024 * 1024,
                2,
            ) + " GiB"@
        }),
{
}

/// A change is shown with its sign, and is the difference of the later value and the earlier
/// one, as far as a number can hold it.
pub proof fn law_changes_are_differences(a: i64, b: i64)
    ensures
        i64::MIN <= b - a <= i64::MAX ==> change(a, b) == b - a,
        b - a > i64::MAX ==> change(a, b) == i64::MAX,
        b - a < i64::MIN ==> change(a, b) == i64::MIN,
        a >= 0 ==> change_text(a) == "+"@ + bytes_text(a),
        a < 0 ==> change_text(a) == bytes_text(a),
{
}

/// What a value is shown as.
pub proof fn law_values_are_shown(s: Seq<char>, n: u64, i: i64)
    ensures
        shown(None) == "unavailable"@,
        shown(Some(Json::Null)) == "unavailable"@,
        s.len() > 0 ==> shown(Some(Json::Str(s))) == s,
        s.len() == 0 ==> shown(Some(Json::Str(s))) == "—"@,
        shown(Some(Json::Bool(true))) == "true"@,
        shown(Some(Json::Bool(false))) == "false"@,
        shown(Some(Json::UInt(n))) == dec(n as nat),
        shown(Some(Json::NInt(i))) == dec_int(i as int),
{
}

/// Which values are numbers: whole ones, the largest of which count as the largest signed
/// one.
pub proof fn law_whole_numbers(j: Json)
    ensures
        numeric(j) is Some <==> j is UInt || j is NInt,
        j matches Json::UInt(n) ==> numeric(j) == Some(
            if n > i64::MAX {
                i64::MAX
            } else {
                n as i64
            },
        ),
        j matches Json::NInt(n) ==> numeric(j) == Some(n),
        bytes_of(None) == "unavailable"@,
        bytes_of(Some(j)) == (match numeric(j) {
            Some(n) => bytes_text(n),
            None => "unavailable"@,
        }),
{
}

// ---------------------------------------------------------------------------
// A capture

/// Rows are shown one behind the other.
pub proof fn law_rows_are_shown(kind: Row, rows: Seq<Json>, n: nat)
    requires
        n <= rows.len(),
    ensures
        row_lines(kind, rows, n) == flat(Seq::new(n, |i: int| row_line(kind, rows[i]))),
    decreases n,
{
    reveal_strlit("");
    let all = Seq::new(n, |i: int| row_line(kind, rows[i]));
    if n > 0 {
        let m = (n - 1) as nat;
        law_rows_are_shown(kind, rows, m);
        let before = Seq::new(m, |i: int| row_line(kind, rows[i]));
        lemma_flat_push(before, all[n - 1]);
        assert(all =~= before.push(all[n - 1]));
    } else {
        assert(all =~= Seq::<Seq<char>>::empty());
    }
}

/// What a row of each kind shows.
pub proof fn law_what_rows_show(j: Json)
    ensures
        row_line(Row::Violation, j) == "  "@ + shown(get(j, "metric"@)) + " actual="@ + shown(
            get(j, "actual"@),
        ) + " limit="@ + shown(get(j, "limit"@)) + " ["@ + shown(get(j, "quality"@)) + "]\n"@,
        row_line(Row::Pool, j) == "  "@ + shown(get(j, "name"@)) + ": "@ + shown(get(j, "in_use"@))
            + " / "@ + shown(get(j, "cap"@)) + " ["@ + shown(get(j, "quality"@)) + "]\n"@,
        row_line(Row::Region, j) == "  "@ + padded_left(bytes_of(get(j, "size"@)), 10) + "  "@
            + padded_right(shown(get(j, "kind"@)), 7) + " "@ + shown(get(j, "perm"@)) + " "@ + shown(
            get(j, "path"@),
        ) + "\n"@,
        row_line(Row::Hint, j) == "  ["@ + shown(get(j, "kind"@)) + "] "@ + shown(get(j, "label"@))
            + " — "@ + shown(get(j, "detail"@)) + "\n"@,
{
}

/// At most `top` rows are shown.
pub proof fn law_rows_are_limited(top: u64, n: nat)
    ensures
        limited(top, n) <= n,
        limited(top, n) <= top,
        limited(top, n) == n || limited(top, n) == top,
{
}

/// A member of a member, where both are there.
pub open spec fn deep(j: Json, a: Seq<char>, b: Seq<char>) -> Option<Json> {
    if get(j, a) is Some {
        get(get(j, a)->Some_0, b)
    } else {
        None
    }
}

/// The first `top` items of a list.
pub open spec fn head_rows(kind: Row, rows: Seq<Json>, top: u64) -> Seq<char> {
    row_lines(
        kind,
        rows,
        if rows.len() > top {
            top as nat
        } else {
            rows.len()
        },
    )
}

/// What is shown of a capture: where it comes from, what memory it tells of, and its
/// budgets, pools, mappings and hints where it has them.
pub proof fn law_what_a_capture_shows(id: Seq<char>, j: Json, top: u64)
    ensures
        ({
            let source = "runtime_snapshot - "@ + id + "\nsource="@ + shown(get(j, "source"@))
                + " pid="@ + shown(get(j, "pid"@)) + " seq="@ + shown(get(j, "seq"@)) + " tier="@
                + shown(get(j, "tier"@)) + " coverage_start_ns="@ + shown(
                get(j, "coverage_start_ns"@),
            ) + "\n"@;
            let memory = "RSS "@ + bytes_of(get(j, "rss_bytes"@)) + " ["@ + shown(
                deep(j, "quality"@, "rss_bytes"@),
            ) + "]  committed VA "@ + bytes_of(get(j, "committed_va_bytes"@)) + " ["@ + shown(
                deep(j, "quality"@, "committed_va_bytes"@),
            ) + "]  swap "@ + bytes_of(get(j, "swap_bytes"@)) + "\n"@;
            let engine = "Flecs "@ + bytes_of(deep(j, "flecs"@, "bytes"@)) + " (unused columns "@
                + bytes_of(deep(j, "flecs"@, "bytes_table_components_unused"@)) + ")  Jolt temp "@
                + bytes_of(deep(j, "jolt"@, "temp_used"@)) + " / "@ + bytes_of(
                deep(j, "jolt"@, "temp_cap"@),
            ) + "\n"@;
            let gpu = if get(j, "gpu"@) is Some {
                let g = get(j, "gpu"@)->Some_0;
                "GPU particles "@ + shown(get(g, "particles"@)) + " / "@ + shown(
                    get(g, "particle_cap"@),
                ) + " ["@ + shown(get(g, "quality"@)) + "]  driver "@ + bytes_of(
                    get(g, "driver_available_kb"@),
                ) + "\n"@
            } else {
                ""@
            };
            let budget = if get(j, "budget"@) is Some {
                let b = get(j, "budget"@)->Some_0;
                "budget "@ + shown(get(b, "name"@)) + " ok="@ + shown(get(b, "ok"@)) + " checked="@
                    + shown(get(b, "checked"@)) + " unavailable="@ + shown(get(b, "unavailable"@))
                    + "\n"@ + (if as_array(get(b, "violations"@)) is Some {
                    head_rows(Row::Violation, as_array(get(b, "violations"@))->Some_0, top)
                } else {
                    ""@
                })
            } else {
                ""@
            };
            let pools = if as_array(get(j, "pools"@)) is Some {
                "pools:\n"@ + head_rows(Row::Pool, as_array(get(j, "pools"@))->Some_0, top)
            } else {
                ""@
            };
            let regions = if as_array(get(j, "regions"@)) is Some {
                let v = as_array(get(j, "regions"@))->Some_0;
                "largest mappings (top "@ + dec(
                    if v.len() > top {
                        top as nat
                    } else {
                        v.len()
                    },
                ) + "):\n"@ + head_rows(Row::Region, v, top)
            } else {
                ""@
            };
            let hints = if as_array(get(j, "hints"@)) is Some && as_array(
                get(j, "hints"@),
            )->Some_0.len() > 0 {
                "hints:\n"@ + head_rows(Row::Hint, as_array(get(j, "hints"@))->Some_0, top)
            } else {
                ""@
            };
            snapshot_text(id, j, top) == source + memory + engine + gpu + budget + (pools + regions
                + hints)
        }),
{
}

// ---------------------------------------------------------------------------
// The change between two captures

/// A line of a comparison gives the earlier value, the later one and the change between
/// them; where one is not known it says so.
pub proof fn law_line_of_a_comparison(label: Seq<char>, a: Option<i64>, b: Option<i64>)
    ensures
        a is Some && b is Some ==> delta_line(label, a, b) == label + ": "@ + bytes_text(
            a->Some_0,
        ) + " → "@ + bytes_text(b->Some_0) + " ("@ + change_text(change(a->Some_0, b->Some_0))
            + ")\n"@,
        a is None || b is None ==> delta_line(label, a, b) == label + ": unavailable\n"@,
{
}

/// The value of a name is the one that its last row gives.
pub proof fn law_last_row_of_a_name(
    rows: Seq<Json>,
    key: Seq<char>,
    metric: Seq<char>,
    n: nat,
    name: Seq<char>,
)
    requires
        n <= rows.len(),
    ensures
        match at(named_values(rows, key, metric, n), name) {
            Some(v) => exists|i: int|
                0 <= i < n && #[trigger] row_gives(rows[i], key, metric, name, v) && forall|k: int|
                    i < k < n ==> !row_names(#[trigger] rows[k], key, metric, name),
            None => forall|k: int| 0 <= k < n ==> !row_names(#[trigger] rows[k], key, metric, name),
        },
    decreases n,
{
    if n > 0 {
        let m = (n - 1) as nat;
        law_last_row_of_a_name(rows, key, metric, m, name);
        let r = rows[n - 1];
        let before = named_values(rows, key, metric, m);
        if let (Some(s), Some(v)) = (as_str(get(r, key)), number_of(get(r, metric))) {
            lemma_at_put(before, s, v, name);
            if s == name {
                assert(row_gives(rows[n - 1], key, metric, name, v));
            }
        }
        if !row_names(r, key, metric, name) {
            if let Some(v) = at(before, name) {
                let i = choose|i: int|
                    0 <= i < m && #[trigger] row_gives(rows[i], key, metric, name, v) && forall|
                        k: int,
                    |
                        i < k < m ==> !row_names(#[trigger] rows[k], key, metric, name);
                assert(row_gives(rows[i], key, metric, name, v));
                assert forall|k: int| i < k < n implies !row_names(
                    #[trigger] rows[k],
                    key,
                    metric,
                    name,
                ) by {}
            }
        }
    }
}

/// Whether a row gives a value for a name.
pub open spec fn row_gives(
    r: Json,
    key: Seq<char>,
    metric: Seq<char>,
    name: Seq<char>,
    v: i64,
) -> bool {
    as_str(get(r, key)) == Some(name) && number_of(get(r, metric)) == Some(v)
}

/// Whether a row gives some value for a name.
pub open spec fn row_names(r: Json, key: Seq<char>, metric: Seq<char>, name: Seq<char>) -> bool {
    as_str(get(r, key)) == Some(name) && number_of(get(r, metric)) is Some
}

/// What is compared by name is compared for each name that one of the captures has.
pub proof fn law_names_of_both(a: Seq<(Seq<char>, i64)>, b: Seq<(Seq<char>, i64)>, name: Seq<char>)
    ensures
        names_of_both(a, b).contains(name) <==> (exists|i: int|
            0 <= i < a.len() && (#[trigger] a[i]).0 == name) || (exists|i: int|
            0 <= i < b.len() && (#[trigger] b[i]).0 == name),
{
    law_distinct_names(names_in(a) + names_in(b), name);
    lemma_contains_add(names_in(a), names_in(b), name);
    lemma_names_in(a, name);
    lemma_names_in(b, name);
}

proof fn lemma_names_in(m: Seq<(Seq<char>, i64)>, name: Seq<char>)
    ensures
        names_in(m).contains(name) <==> exists|i: int|
            0 <= i < m.len() && (#[trigger] m[i]).0 == name,
{
    let v = names_in(m);
    if v.contains(name) {
        let i = choose|i: int| 0 <= i < v.len() && v[i] == name;
        assert(m[i].0 == name);
    }
    if exists|i: int| 0 <= i < m.len() && (#[trigger] m[i]).0 == name {
        let i = choose|i: int| 0 <= i < m.len() && (#[trigger] m[i]).0 == name;
        assert(v[i] == name);
    }
}

/// Each name is compared on a line of its own, and a name that a capture lacks counts as
/// nothing there.
pub proof fn law_lines_by_name(
    heading: Seq<char>,
    a: Seq<(Seq<char>, i64)>,
    b: Seq<(Seq<char>, i64)>,
    bytes: bool,
)
    ensures
        ({
            let names = names_of_both(a, b);
            &&& names.len() == 0 ==> named_deltas(heading, a, b, bytes).len() == 0
            &&& names.len() > 0 ==> named_deltas(heading, a, b, bytes) == heading + ":\n"@ + flat(
                Seq::new(names.len(), |i: int| compared(names[i], a, b, bytes)),
            )
        }),
{
    reveal_strlit("");
    let names = names_of_both(a, b);
    lemma_named(names, a, b, bytes, names.len());
}

/// The line of a name.
pub open spec fn compared(
    name: Seq<char>,
    a: Seq<(Seq<char>, i64)>,
    b: Seq<(Seq<char>, i64)>,
    bytes: bool,
) -> Seq<char> {
    let x = if at(a, name) is Some {
        at(a, name)->Some_0
    } else {
        0i64
    };
    let y = if at(b, name) is Some {
        at(b, name)->Some_0
    } else {
        0i64
    };
    named_delta(name, x, y, bytes)
}

proof fn lemma_named(
    names: Seq<Seq<char>>,
    a: Seq<(Seq<char>, i64)>,
    b: Seq<(Seq<char>, i64)>,
    bytes: bool,
    n: nat,
)
    requires
        n <= names.len(),
    ensures
        named_lines(names, a, b, bytes, n) == flat(
            Seq::new(n, |i: int| compared(names[i], a, b, bytes)),
        ),
    decreases n,
{
    reveal_strlit("");
    let all = Seq::new(n, |i: int| compared(names[i], a, b, bytes));
    if n > 0 {
        let m = (n - 1) as nat;
        lemma_named(names, a, b, bytes, m);
        let before = Seq::new(m, |i: int| compared(names[i], a, b, bytes));
        lemma_flat_push(before, all[n - 1]);
        assert(all =~= before.push(all[n - 1]));
    } else {
        assert(all =~= Seq::<Seq<char>>::empty());
    }
}

/// What the line of a name says.
pub proof fn law_line_of_a_name(name: Seq<char>, a: i64, b: i64)
    ensures
        named_delta(name, a, b, true) == "  "@ + name + ": "@ + bytes_text(a) + " → "@ + bytes_text(
            b,
        ) + " ("@ + change_text(change(a, b)) + ")\n"@,
        change(a, b) >= 0 ==> named_delta(name, a, b, false) == "  "@ + name + ": "@ + dec_int(
            a as int,
        ) + " → "@ + dec_int(b as int) + " ("@ + "+"@ + dec_int(change(a, b) as int) + ")\n"@,
        change(a, b) < 0 ==> named_delta(name, a, b, false) == "  "@ + name + ": "@ + dec_int(
            a as int,
        ) + " → "@ + dec_int(b as int) + " ("@ + ""@ + dec_int(change(a, b) as int) + ")\n"@,
{
}

// ---------------------------------------------------------------------------
// Hot spots

/// A row is shown where it has enough samples, and no other is.
pub proof fn law_rows_with_enough_samples(rows: Seq<Json>, min: u64, i: int)
    requires
        0 <= i < rows.len(),
    ensures
        hottest(rows, min).contains(i) <==> samples_of(rows[i]) >= signed(min),
        samples_of(rows[i]) == (match get(rows[i], "samples"@) {
            Some(v) => match numeric(v) {
                Some(n) => n,
                None => 0,
            },
            None => 0,
        }),
{
    let kept = frequent(rows, min, rows.len());
    assert(positioned(sample_keys(rows, kept)));
    lemma_arranged_items(kept, sample_keys(rows, kept));
    lemma_frequent(rows, min, rows.len(), i);
}

proof fn lemma_frequent(rows: Seq<Json>, min: u64, n: nat, i: int)
    requires
        n <= rows.len(),
    ensures
        frequent(rows, min, n).contains(i) <==> 0 <= i < n && samples_of(rows[i]) >= signed(min),
    decreases n,
{
    if n > 0 {
        lemma_frequent(rows, min, (n - 1) as nat, i);
        lemma_contains_push(frequent(rows, min, (n - 1) as nat), n - 1, i);
    }
}

/// What is said of what is hot: that nothing was sampled, that nothing was attributed, or
/// the hottest rows, `top` at most.
pub proof fn law_what_is_said_of_hot_spots(id: Seq<char>, j: Json, top: u64, min: u64)
    ensures
        get(j, "locality"@) matches Some(l) ==> {
            let quality = "locality_hotspots - "@ + id + "\nquality="@ + shown(get(l, "quality"@));
            match as_array(get(l, "hotspots"@)) {
                None => crate::text::starts(locality_text(id, j, top, min), quality),
                Some(rows) => {
                    let order = hottest(rows, min);
                    locality_text(id, j, top, min) == quality + " total_samples="@ + shown(
                        get(l, "samples"@),
                    ) + "\n"@ + flat(
                        Seq::new(
                            if order.len() > top {
                                top as nat
                            } else {
                                order.len()
                            },
                            |i: int| hotspot_line(rows[order[i]]),
                        ),
                    )
                },
            }
        },
        get(j, "locality"@) is None ==> locality_text(id, j, top, min)
            == crate::runtime::no_samples(id),
{
    if let Some(l) = get(j, "locality"@) {
        let quality = "locality_hotspots - "@ + id + "\nquality="@ + shown(get(l, "quality"@));
        match as_array(get(l, "hotspots"@)) {
            None => {
                let rest =
                    "\nNo attributed hotspot records.\nSoft-route: re-capture with locality sampling enabled in wiki Health → Runtime.\n"@;
                crate::laws::texts::lemma_starts_add(
                    locality_text(id, j, top, min),
                    quality,
                    rest,
                );
            },
            Some(rows) => {
                let order = hottest(rows, min);
                lemma_hotspots(rows, order, limited(top, order.len()));
            },
        }
    }
}

proof fn lemma_hotspots(rows: Seq<Json>, order: Seq<int>, n: nat)
    requires
        n <= order.len(),
    ensures
        hotspot_lines(rows, order, n) == flat(
            Seq::new(n, |i: int| hotspot_line(rows[order[i]])),
        ),
    decreases n,
{
    reveal_strlit("");
    let all = Seq::new(n, |i: int| hotspot_line(rows[order[i]]));
    if n > 0 {
        let m = (n - 1) as nat;
        lemma_hotspots(rows, order, m);
        let before = Seq::new(m, |i: int| hotspot_line(rows[order[i]]));
        lemma_flat_push(before, all[n - 1]);
        assert(all =~= before.push(all[n - 1]));
    } else {
        assert(all =~= Seq::<Seq<char>>::empty());
    }
}

/// What a row of hot spots shows.
pub proof fn law_row_of_hot_spots(j: Json)
    ensures
        hotspot_line(j) == "  samples="@ + shown(get(j, "samples"@)) + " misses="@ + shown(
            get(j, "misses"@),
        ) + " weight="@ + shown(get(j, "weight"@)) + " addr="@ + shown(get(j, "addr"@))
            + " thread="@ + shown(get(j, "thread"@)) + " "@ + shown(get(j, "symbol"@)) + " ["@
            + shown(get(j, "data_source"@)) + "]\n"@,
{
}

// ---------------------------------------------------------------------------
// Where captures are

/// Where a capture is read from: the live one from what was merged, else from what the
/// program wrote; a numbered one from its own file.
pub proof fn law_where_captures_are(
    id: Seq<char>,
    there: Present,
    path: Seq<char>,
    hint: Seq<char>,
)
    ensures
        ({
            let r = place_of(id, there, path, hint);
            let numbered = id.len() > 0 && forall|i: int|
                0 <= i < id.len() ==> '0' <= #[trigger] id[i] <= '9';
            &&& id == "live"@ ==> (r is Ok <==> there.merged || there.cooperative)
            &&& id == "live"@ && there.merged ==> r == Ok::<Place, Seq<char>>(Place::Merged)
            &&& id == "live"@ && !there.merged && there.cooperative ==> r == Ok::<Place, Seq<char>>(
                Place::Cooperative,
            )
            &&& id != "live"@ ==> (r is Ok <==> numbered && there.capture)
            &&& id != "live"@ && r is Ok ==> r == Ok::<Place, Seq<char>>(Place::Capture)
        }),
{
    if id.len() > 0 {
        if crate::text::all_digits(id) {
            assert forall|i: int| 0 <= i < id.len() implies '0' <= #[trigger] id[i] <= '9' by {
                assert(crate::text::is_digit(id[i]));
            }
        } else {
            let i = choose|i: int|
                0 <= i < id.len() && !crate::text::is_digit(#[trigger] id[i]);
            assert(!('0' <= id[i] <= '9'));
        }
    }
}

/// The captures that there are: those whose files are named for them, and the live one
/// where it is there.
pub proof fn law_captures_that_there_are(names: Seq<Seq<char>>, id: Seq<char>)
    ensures
        capture_ids(names).contains(id) <==> exists|i: int|
            0 <= i < names.len() && id_in_name(#[trigger] names[i]) == Some(id),
        capture_ids(names).len() == 0 ==> captures_hint(names, true) == "live"@,
        capture_ids(names).len() == 0 ==> captures_hint(names, false)
            == "(none — open wiki Health → Runtime or run Betwixt)"@,
        capture_ids(names).len() > 0 ==> captures_hint(names, false) == joined(
            capture_ids(names),
            ", "@,
        ),
        captures_hint(names, true) == joined(seq!["live"@] + capture_ids(names), ", "@),
{
    lemma_ids(names, names.len(), id);
    law_distinct_names(ids_among(names, names.len()), id);
    if capture_ids(names).len() == 0 {
        assert(seq!["live"@] + capture_ids(names) =~= seq!["live"@]);
    }
}

proof fn lemma_ids(names: Seq<Seq<char>>, n: nat, id: Seq<char>)
    requires
        n <= names.len(),
    ensures
        ids_among(names, n).contains(id) <==> exists|i: int|
            0 <= i < n && id_in_name(#[trigger] names[i]) == Some(id),
    decreases n,
{
    if n > 0 {
        let m = (n - 1) as nat;
        lemma_ids(names, m, id);
        if let Some(x) = id_in_name(names[n - 1]) {
            lemma_contains_push(ids_among(names, m), x, id);
        }
        if exists|i: int| 0 <= i < m && id_in_name(#[trigger] names[i]) == Some(id) {
            let i = choose|i: int| 0 <= i < m && id_in_name(#[trigger] names[i]) == Some(id);
            assert(id_in_name(names[i]) == Some(id));
        }
        if id_in_name(names[n - 1]) == Some(id) {
            assert(0 <= n - 1 < n);
        }
    }
}

/// A capture that grows line by line is read at its last line that is not blank.
pub proof fn law_last_line_of_a_capture(ls: Seq<Seq<char>>, n: nat)
    requires
        n <= ls.len(),
    ensures
        match last_solid(ls, n) {
            Some(l) => exists|i: int|
                0 <= i < n && #[trigger] ls[i] == l && trimmed(l).len() > 0 && forall|k: int|
                    i < k < n ==> trimmed(#[trigger] ls[k]).len() == 0,
            None => forall|k: int| 0 <= k < n ==> trimmed(#[trigger] ls[k]).len() == 0,
        },
    decreases n,
{
    if n > 0 {
        if trimmed(ls[n - 1]).len() > 0 {
            assert(ls[n - 1] == ls[n - 1]);
        } else {
            let m = (n - 1) as nat;
            law_last_line_of_a_capture(ls, m);
            if let Some(l) = last_solid(ls, m) {
                let i = choose|i: int|
                    0 <= i < m && #[trigger] ls[i] == l && trimmed(l).len() > 0 && forall|k: int|
                        i < k < m ==> trimmed(#[trigger] ls[k]).len() == 0;
                assert(ls[i] == l);
                assert forall|k: int| i < k < n implies trimmed(#[trigger] ls[k]).len() == 0 by {}
            }
        }
    }
}

/// An answer that fits its budget stays as it is; one that does not is cut and says so.
pub proof fn law_long_answers_are_clipped(text: Seq<char>, tokens: u64)
    requires
        tokens * 4 <= u64::MAX,
    ensures
        ({
            let cap = if tokens < 64 {
                256
            } else {
                tokens * 4
            };
            &&& blen(text) <= cap ==> clipped(text, tokens) == text
            &&& blen(text) > cap ==> clipped(text, tokens) == crate::text::cut_to(
                text,
                cap as nat,
            ) + "\n… output clipped by token_budget\n"@
        }),
{
}

/// How many rows are asked for: twelve where nothing is said, and sixty-four at most.
pub proof fn law_rows_that_are_asked_for(j: Json)
    ensures
        top_of(j) <= 64,
        u64_or(j, "top"@, 12) <= 64 ==> top_of(j) == u64_or(j, "top"@, 12),
        u64_or(j, "top"@, 12) > 64 ==> top_of(j) == 64,
{
}

/// A comparison needs an earlier capture; the later one is the live one where none is named.
pub proof fn law_captures_to_compare(j: Json, hint: Seq<char>)
    ensures
        diff_ids(j, hint) is Ok <==> as_str(get(j, "base"@)) is Some,
        diff_ids(j, hint) matches Ok((a, b)) ==> Some(a) == as_str(get(j, "base"@)) && b == str_or(
            j,
            "current"@,
            "live"@,
        ),
{
}

} // verus!
