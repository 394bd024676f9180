//! The totals of a symbol: what is counted by file, by name, by call and in the
//! heading of an answer is the same.
use vstd::prelude::*;
use crate::izakaya::replay::arranged;
use crate::order::{lemma_key_order, lemma_sort_order, lemma_sorted_positions, positioned};
use crate::order::{key_le, sort_order, sorted_keys, KeyView};
use crate::smap::{at, lemma_at_put};
use crate::symbol_refs::{
    all_hits, calls_in, calls_sorted, calls_upto, count_role, counted, counts_in, counts_upto,
    file_hits, files_hit, found_page, heading, hit_keys, hits_in, ordered_hits, page_step, pages,
    refs_keys, refs_of, refs_sorted, refs_upto, site_keys, tally, total, CountsView, FileRefsView,
    FileView, HitView, OccView, QueryView, Role, SiteView,
};
use crate::text::{dec, lex_lt, starts};

verus! {

// ---------------------------------------------------------------------------
// Sums

/// The sum of what the items of a list count for.
pub open spec fn sum<T>(s: Seq<T>, f: spec_fn(T) -> nat) -> nat
    decreases s.len(),
{
    if s.len() == 0 {
        0
    } else {
        sum(s.drop_last(), f) + f(s.last())
    }
}

pub proof fn lemma_sum_push<T>(s: Seq<T>, x: T, f: spec_fn(T) -> nat)
    ensures
        sum(s.push(x), f) == sum(s, f) + f(x),
{
    assert(s.push(x).drop_last() =~= s);
}

pub proof fn lemma_sum_add<T>(a: Seq<T>, b: Seq<T>, f: spec_fn(T) -> nat)
    ensures
        sum(a + b, f) == sum(a, f) + sum(b, f),
    decreases b.len(),
{
    if b.len() == 0 {
        assert(a + b =~= a);
    } else {
        lemma_sum_add(a, b.drop_last(), f);
        assert((a + b).drop_last() =~= a + b.drop_last());
    }
}

pub proof fn lemma_sum_remove<T>(s: Seq<T>, i: int, f: spec_fn(T) -> nat)
    requires
        0 <= i < s.len(),
    ensures
        sum(s, f) == sum(s.remove(i), f) + f(s[i]),
{
    let a = s.take(i);
    let b = s.skip(i + 1);
    assert(s =~= a.push(s[i]) + b);
    assert(s.remove(i) =~= a + b);
    lemma_sum_add(a.push(s[i]), b, f);
    lemma_sum_push(a, s[i], f);
    lemma_sum_add(a, b, f);
}

/// Lists with the same items have the same sum.
pub proof fn lemma_sum_multiset<T>(a: Seq<T>, b: Seq<T>, f: spec_fn(T) -> nat)
    requires
        a.to_multiset() == b.to_multiset(),
    ensures
        sum(a, f) == sum(b, f),
    decreases a.len(),
{
    broadcast use vstd::seq_lib::group_to_multiset_ensures;

    assert(a.to_multiset().len() == a.len());
    assert(b.to_multiset().len() == b.len());
    if a.len() > 0 {
        let x = a.last();
        let n = a.len() - 1;
        assert(a.contains(a[n]));
        assert(a.to_multiset().count(x) > 0);
        assert(b.to_multiset().count(x) > 0);
        assert(b.contains(x));
        let m = choose|m: int| 0 <= m < b.len() && b[m] == x;
        assert(a.remove(n) =~= a.drop_last());
        assert(a.remove(n).to_multiset() =~= b.remove(m).to_multiset());
        lemma_sum_multiset(a.drop_last(), b.remove(m), f);
        lemma_sum_remove(b, m, f);
    }
}

/// A list that is sorted by keys sums up as before, whatever is counted.
pub proof fn lemma_sum_sorted<T>(v: Seq<T>, keys: Seq<KeyView>, f: spec_fn(T) -> nat)
    requires
        positioned(keys),
        keys.len() == v.len(),
    ensures
        sum(arranged(v, sort_order(keys)), f) == sum(v, f),
        arranged(v, sort_order(keys)).len() == v.len(),
{
    let s = sorted_keys(keys);
    let g = |k: KeyView| f(v[k.at as int]);
    lemma_key_order();
    lemma_sorted_positions(keys);
    keys.lemma_sort_by_ensures(key_le());
    lemma_sum_multiset(s, keys, g);
    lemma_sum_mapped(s, g, arranged(v, sort_order(keys)), f);
    lemma_sum_mapped(keys, g, v, f);
}

pub proof fn lemma_sum_mapped<A, B>(a: Seq<A>, g: spec_fn(A) -> nat, b: Seq<B>, f: spec_fn(B) -> nat)
    requires
        a.len() == b.len(),
        forall|i: int| 0 <= i < a.len() ==> g(#[trigger] a[i]) == f(b[i]),
    ensures
        sum(a, g) == sum(b, f),
    decreases a.len(),
{
    if a.len() > 0 {
        let n = a.len() - 1;
        assert forall|i: int| 0 <= i < a.drop_last().len() implies g(#[trigger] a.drop_last()[i])
            == f(b.drop_last()[i]) by {
            assert(g(a[i]) == f(b[i]));
        }
        lemma_sum_mapped(a.drop_last(), g, b.drop_last(), f);
        assert(g(a[n]) == f(b[n]));
    }
}

// ---------------------------------------------------------------------------
// By file

/// What a file counts in a role.
pub open spec fn in_role(r: FileRefsView, role: Role) -> nat {
    match role {
        Role::Def => r.defs,
        Role::Call => r.calls,
        Role::Ref => r.refs,
    }
}

/// What all files count in a role.
pub open spec fn total_in(rs: Seq<FileRefsView>, role: Role) -> nat {
    sum(rs, |r: FileRefsView| in_role(r, role))
}

/// How often a name occurs in a role in the first `n` files.
spec fn tally_upto(fs: Seq<FileView>, name: Seq<char>, role: Role, n: nat) -> nat
    decreases n,
{
    if n == 0 {
        0
    } else {
        tally_upto(fs, name, role, (n - 1) as nat) + tally(
            fs[n - 1].occs,
            name,
            role,
            fs[n - 1].occs.len(),
        )
    }
}

proof fn lemma_total_upto(fs: Seq<FileView>, symbol: Seq<char>, role: Role, n: nat)
    ensures
        total_in(refs_upto(fs, symbol, n), role) == tally_upto(fs, symbol, role, n),
    decreases n,
{
    if n > 0 {
        lemma_total_upto(fs, symbol, role, (n - 1) as nat);
        lemma_sum_push(
            refs_upto(fs, symbol, (n - 1) as nat),
            refs_of(fs[n - 1], symbol),
            |r: FileRefsView| in_role(r, role),
        );
    }
}

proof fn lemma_total_sorted(fs: Seq<FileView>, symbol: Seq<char>, role: Role)
    requires
        symbol.len() > 0,
    ensures
        total_in(refs_sorted(fs, symbol), role) == tally_upto(fs, symbol, role, fs.len()),
        refs_sorted(fs, symbol).len() == refs_upto(fs, symbol, fs.len()).len(),
{
    let rs = refs_upto(fs, symbol, fs.len());
    lemma_total_upto(fs, symbol, role, fs.len());
    lemma_sum_sorted(rs, refs_keys(rs), |r: FileRefsView| in_role(r, role));
}

proof fn lemma_refs_some(fs: Seq<FileView>, symbol: Seq<char>, n: nat)
    ensures
        refs_upto(fs, symbol, n).len() == 0 <==> tally_upto(fs, symbol, Role::Def, n) + tally_upto(
            fs,
            symbol,
            Role::Call,
            n,
        ) + tally_upto(fs, symbol, Role::Ref, n) == 0,
    decreases n,
{
    if n > 0 {
        lemma_refs_some(fs, symbol, (n - 1) as nat);
    }
}

// ---------------------------------------------------------------------------
// By name

/// The counts at a name, all of them 0 where it does not occur.
spec fn at_name(m: Seq<(Seq<char>, CountsView)>, name: Seq<char>) -> CountsView {
    match at(m, name) {
        Some(c) => c,
        None => CountsView { defs: 0, calls: 0, refs: 0 },
    }
}

/// No name is counted without occurring.
spec fn counts_something(m: Seq<(Seq<char>, CountsView)>, name: Seq<char>) -> bool {
    at(m, name) matches Some(c) ==> c.defs + c.calls + c.refs > 0
}

proof fn lemma_counts_in(
    m: Seq<(Seq<char>, CountsView)>,
    os: Seq<OccView>,
    name: Seq<char>,
    n: nat,
)
    requires
        counts_something(m, name),
    ensures
        ({
            let c = at_name(m, name);
            at_name(counts_in(m, os, n), name) == (CountsView {
                defs: c.defs + tally(os, name, Role::Def, n),
                calls: c.calls + tally(os, name, Role::Call, n),
                refs: c.refs + tally(os, name, Role::Ref, n),
            })
        }),
        counts_something(counts_in(m, os, n), name),
    decreases n,
{
    if n > 0 {
        lemma_counts_in(m, os, name, (n - 1) as nat);
        let before = counts_in(m, os, (n - 1) as nat);
        let o = os[n - 1];
        let c = at_name(before, o.name);
        let d = match o.role {
            Role::Def => CountsView { defs: c.defs + 1, ..c },
            Role::Call => CountsView { calls: c.calls + 1, ..c },
            Role::Ref => CountsView { refs: c.refs + 1, ..c },
        };
        lemma_at_put(before, o.name, d, name);
    }
}

proof fn lemma_counts_upto(fs: Seq<FileView>, name: Seq<char>, n: nat)
    ensures
        at_name(counts_upto(fs, n), name) == (CountsView {
            defs: tally_upto(fs, name, Role::Def, n),
            calls: tally_upto(fs, name, Role::Call, n),
            refs: tally_upto(fs, name, Role::Ref, n),
        }),
        counts_something(counts_upto(fs, n), name),
    decreases n,
{
    if n > 0 {
        lemma_counts_upto(fs, name, (n - 1) as nat);
        lemma_counts_in(
            counts_upto(fs, (n - 1) as nat),
            fs[n - 1].occs,
            name,
            fs[n - 1].occs.len(),
        );
    }
}

/// The tallies of a name are the sums of what is counted by file. A name is tallied
/// exactly if a file is counted for it, and no tally is empty.
pub proof fn law_tallies_are_sums(fs: Seq<FileView>, symbol: Seq<char>)
    requires
        symbol.len() > 0,
    ensures
        ({
            let rs = refs_sorted(fs, symbol);
            at(counts_upto(fs, fs.len()), symbol) == (if rs.len() == 0 {
                None
            } else {
                Some(
                    CountsView {
                        defs: total_in(rs, Role::Def),
                        calls: total_in(rs, Role::Call),
                        refs: total_in(rs, Role::Ref),
                    },
                )
            })
        }),
        forall|name: Seq<char>|
            #[trigger] at(counts_upto(fs, fs.len()), name) matches Some(c) ==> c.defs + c.calls
                + c.refs > 0,
{
    assert forall|name: Seq<char>|
        #[trigger] at(counts_upto(fs, fs.len()), name) matches Some(c) ==> c.defs + c.calls
            + c.refs > 0 by {
        lemma_counts_upto(fs, name, fs.len());
    }
    lemma_counts_upto(fs, symbol, fs.len());
    lemma_refs_some(fs, symbol, fs.len());
    lemma_total_sorted(fs, symbol, Role::Def);
    lemma_total_sorted(fs, symbol, Role::Call);
    lemma_total_sorted(fs, symbol, Role::Ref);
}

// ---------------------------------------------------------------------------
// By call

/// How many call sites lie in a file.
pub open spec fn sites_in(ss: Seq<SiteView>, rel: Seq<char>) -> nat {
    sum(
        ss,
        |s: SiteView|
            if s.rel == rel {
                1nat
            } else {
                0
            },
    )
}

/// No two files have one path.
pub open spec fn paths_differ(fs: Seq<FileView>) -> bool {
    forall|i: int, j: int|
        0 <= i < j < fs.len() ==> (#[trigger] fs[i]).rel != (#[trigger] fs[j]).rel
}

proof fn lemma_calls_in(f: FileView, symbol: Seq<char>, rel: Seq<char>, n: nat)
    ensures
        sites_in(calls_in(f, symbol, n), rel) == (if f.rel == rel {
            tally(f.occs, symbol, Role::Call, n)
        } else {
            0
        }),
        forall|i: int|
            0 <= i < calls_in(f, symbol, n).len() ==> (#[trigger] calls_in(f, symbol, n)[i]).rel
                == f.rel,
        calls_in(f, symbol, n).len() == tally(f.occs, symbol, Role::Call, n),
    decreases n,
{
    if n > 0 {
        lemma_calls_in(f, symbol, rel, (n - 1) as nat);
        let rest = calls_in(f, symbol, (n - 1) as nat);
        let x = SiteView { rel: f.rel, line: f.occs[n - 1].line };
        lemma_sum_push(
            rest,
            x,
            |s: SiteView|
                if s.rel == rel {
                    1nat
                } else {
                    0
                },
        );
        assert forall|i: int| 0 <= i < calls_in(f, symbol, n).len() implies (#[trigger] calls_in(
            f,
            symbol,
            n,
        )[i]).rel == f.rel by {
            if i < rest.len() {
                assert(calls_in(f, symbol, n)[i] == rest[i]);
            }
        }
    }
}

proof fn lemma_calls_upto(fs: Seq<FileView>, symbol: Seq<char>, k: int, n: nat)
    requires
        paths_differ(fs),
        0 <= k < fs.len(),
        n <= fs.len(),
    ensures
        sites_in(calls_upto(fs, symbol, n), fs[k].rel) == (if k < n {
            refs_of(fs[k], symbol).calls
        } else {
            0
        }),
    decreases n,
{
    let rel = fs[k].rel;
    if n > 0 {
        lemma_calls_upto(fs, symbol, k, (n - 1) as nat);
        lemma_calls_in(fs[n - 1], symbol, rel, fs[n - 1].occs.len());
        lemma_sum_add(
            calls_upto(fs, symbol, (n - 1) as nat),
            calls_in(fs[n - 1], symbol, fs[n - 1].occs.len()),
            |s: SiteView|
                if s.rel == rel {
                    1nat
                } else {
                    0
                },
        );
        if k < n - 1 {
            assert(fs[k].rel != fs[n - 1].rel);
        } else if n - 1 < k {
            assert(fs[n - 1].rel != fs[k].rel);
        }
    }
}

/// Each call site lies in a file that calls the symbol.
proof fn lemma_site_file(fs: Seq<FileView>, symbol: Seq<char>, n: nat, i: int) -> (k: int)
    requires
        n <= fs.len(),
        0 <= i < calls_upto(fs, symbol, n).len(),
    ensures
        0 <= k < n,
        fs[k].rel == calls_upto(fs, symbol, n)[i].rel,
        refs_of(fs[k], symbol).calls > 0,
    decreases n,
{
    let before = calls_upto(fs, symbol, (n - 1) as nat);
    let here = calls_in(fs[n - 1], symbol, fs[n - 1].occs.len());
    lemma_calls_in(fs[n - 1], symbol, fs[n - 1].rel, fs[n - 1].occs.len());
    if i < before.len() {
        assert(calls_upto(fs, symbol, n)[i] == before[i]);
        lemma_site_file(fs, symbol, (n - 1) as nat, i)
    } else {
        assert(calls_upto(fs, symbol, n)[i] == here[i - before.len()]);
        n - 1
    }
}

/// Whether this is what one of the first `n` files counts.
spec fn of_a_file(fs: Seq<FileView>, symbol: Seq<char>, n: nat, r: FileRefsView) -> bool {
    exists|k: int| 0 <= k < n && r == refs_of(#[trigger] fs[k], symbol)
}

/// What is counted by file is the count of a file, and every file that has one is
/// counted.
proof fn lemma_refs_files(fs: Seq<FileView>, symbol: Seq<char>, n: nat)
    requires
        n <= fs.len(),
    ensures
        forall|i: int|
            0 <= i < refs_upto(fs, symbol, n).len() ==> of_a_file(
                fs,
                symbol,
                n,
                #[trigger] refs_upto(fs, symbol, n)[i],
            ),
        forall|k: int|
            0 <= k < n && total(refs_of(#[trigger] fs[k], symbol)) > 0 ==> refs_upto(
                fs,
                symbol,
                n,
            ).contains(refs_of(fs[k], symbol)),
    decreases n,
{
    if n > 0 {
        lemma_refs_files(fs, symbol, (n - 1) as nat);
        let rest = refs_upto(fs, symbol, (n - 1) as nat);
        let all = refs_upto(fs, symbol, n);
        assert forall|i: int| 0 <= i < all.len() implies of_a_file(
            fs,
            symbol,
            n,
            #[trigger] all[i],
        ) by {
            if i < rest.len() {
                assert(all[i] == rest[i]);
                assert(of_a_file(fs, symbol, (n - 1) as nat, rest[i]));
                let k = choose|k: int|
                    0 <= k < n - 1 && rest[i] == refs_of(#[trigger] fs[k], symbol);
                assert(all[i] == refs_of(fs[k], symbol));
            } else {
                assert(all[i] == refs_of(fs[n - 1], symbol));
            }
        }
        assert forall|k: int|
            0 <= k < n && total(refs_of(#[trigger] fs[k], symbol)) > 0 implies all.contains(
            refs_of(fs[k], symbol),
        ) by {
            let x = refs_of(fs[k], symbol);
            if k < n - 1 {
                assert(rest.contains(x));
                let m = choose|m: int| 0 <= m < rest.len() && rest[m] == x;
                assert(all[m] == x);
            } else {
                assert(all[all.len() - 1] == x);
            }
        }
    }
}

/// What stands in a list stands in it when it is sorted.
proof fn lemma_sorted_holds<T>(v: Seq<T>, keys: Seq<KeyView>, x: T)
    requires
        positioned(keys),
        keys.len() == v.len(),
        v.contains(x),
    ensures
        arranged(v, sort_order(keys)).contains(x),
{
    let f = |y: T|
        if y == x {
            1nat
        } else {
            0
        };
    lemma_sum_sorted(v, keys, f);
    let m = choose|m: int| 0 <= m < v.len() && v[m] == x;
    lemma_sum_remove(v, m, f);
    lemma_sum_found(arranged(v, sort_order(keys)), x, f);
}

pub proof fn lemma_sum_found<T>(s: Seq<T>, x: T, f: spec_fn(T) -> nat)
    requires
        sum(s, f) > 0,
        forall|y: T| #[trigger] f(y) > 0 ==> y == x,
    ensures
        s.contains(x),
    decreases s.len(),
{
    if f(s.last()) > 0 {
        assert(s[s.len() - 1] == x);
    } else {
        lemma_sum_found(s.drop_last(), x, f);
        let m = choose|m: int| 0 <= m < s.drop_last().len() && s.drop_last()[m] == x;
        assert(s[m] == x);
    }
}

/// Whether a file is counted.
pub open spec fn is_counted(rs: Seq<FileRefsView>, rel: Seq<char>) -> bool {
    exists|k: int| 0 <= k < rs.len() && (#[trigger] rs[k]).rel == rel
}

/// The call sites of a symbol agree with what is counted by file: each file has as
/// many sites as calls are counted in it, and no site lies in a file that is not
/// counted. They are in the order of their paths and lines.
pub proof fn law_call_sites_are_the_calls(fs: Seq<FileView>, symbol: Seq<char>)
    requires
        symbol.len() > 0,
        paths_differ(fs),
    ensures
        forall|i: int|
            0 <= i < refs_sorted(fs, symbol).len() ==> sites_in(
                calls_sorted(fs, symbol),
                (#[trigger] refs_sorted(fs, symbol)[i]).rel,
            ) == refs_sorted(fs, symbol)[i].calls,
        forall|i: int|
            0 <= i < calls_sorted(fs, symbol).len() ==> is_counted(
                refs_sorted(fs, symbol),
                (#[trigger] calls_sorted(fs, symbol)[i]).rel,
            ),
        (forall|i: int, j: int|
            0 <= i < fs.len() && 0 <= j < fs[i].occs.len() ==> (#[trigger] fs[i].occs[j]).line
                <= u64::MAX) ==> forall|i: int, j: int|
            0 <= i < j < calls_sorted(fs, symbol).len() ==> {
                let a = #[trigger] calls_sorted(fs, symbol)[i];
                let b = #[trigger] calls_sorted(fs, symbol)[j];
                lex_lt(a.rel, b.rel) || (a.rel == b.rel && a.line <= b.line)
            },
{
    let n = fs.len();
    let rs = refs_upto(fs, symbol, n);
    let ss = calls_upto(fs, symbol, n);
    let refs = refs_sorted(fs, symbol);
    let sites = calls_sorted(fs, symbol);
    lemma_sort_order(refs_keys(rs));
    lemma_sort_order(site_keys(ss));
    lemma_refs_files(fs, symbol, n);
    assert forall|i: int| 0 <= i < refs.len() implies sites_in(
        sites,
        (#[trigger] refs[i]).rel,
    ) == refs[i].calls by {
        let p = sort_order(refs_keys(rs))[i];
        assert(refs[i] == rs[p]);
        assert(of_a_file(fs, symbol, n, rs[p]));
        let k = choose|k: int| 0 <= k < n && rs[p] == refs_of(#[trigger] fs[k], symbol);
        let rel = fs[k].rel;
        lemma_calls_upto(fs, symbol, k, n);
        lemma_sum_sorted(
            ss,
            site_keys(ss),
            |s: SiteView|
                if s.rel == rel {
                    1nat
                } else {
                    0
                },
        );
    }
    assert forall|i: int| 0 <= i < sites.len() implies is_counted(
        refs,
        (#[trigger] sites[i]).rel,
    ) by {
        let p = sort_order(site_keys(ss))[i];
        assert(sites[i] == ss[p]);
        let k = lemma_site_file(fs, symbol, n, p);
        let x = refs_of(fs[k], symbol);
        lemma_sorted_holds(rs, refs_keys(rs), x);
        let m = choose|m: int| 0 <= m < refs.len() && refs[m] == x;
        assert(refs[m].rel == sites[i].rel);
    }
    if forall|i: int, j: int|
        0 <= i < fs.len() && 0 <= j < fs[i].occs.len() ==> (#[trigger] fs[i].occs[j]).line
            <= u64::MAX {
        lemma_lines_fit(fs, symbol, n);
        assert forall|i: int, j: int| 0 <= i < j < sites.len() implies {
            let a = #[trigger] sites[i];
            let b = #[trigger] sites[j];
            lex_lt(a.rel, b.rel) || (a.rel == b.rel && a.line <= b.line)
        } by {
            let p = sort_order(site_keys(ss))[i];
            let q = sort_order(site_keys(ss))[j];
            assert(sites[i] == ss[p] && sites[j] == ss[q]);
            assert(!crate::order::key_lt(site_keys(ss)[q], site_keys(ss)[p]));
            crate::text::lemma_lex_total(ss[p].rel, ss[q].rel);
        }
    }
}

proof fn lemma_lines_fit(fs: Seq<FileView>, symbol: Seq<char>, n: nat)
    requires
        n <= fs.len(),
        forall|i: int, j: int|
            0 <= i < fs.len() && 0 <= j < fs[i].occs.len() ==> (#[trigger] fs[i].occs[j]).line
                <= u64::MAX,
    ensures
        forall|i: int|
            0 <= i < calls_upto(fs, symbol, n).len() ==> (#[trigger] calls_upto(
                fs,
                symbol,
                n,
            )[i]).line <= u64::MAX,
    decreases n,
{
    if n > 0 {
        lemma_lines_fit(fs, symbol, (n - 1) as nat);
        let f = fs[n - 1];
        let before = calls_upto(fs, symbol, (n - 1) as nat);
        let here = calls_in(f, symbol, f.occs.len());
        lemma_file_lines_fit(fs, n - 1, symbol, f.occs.len());
        assert forall|i: int| 0 <= i < calls_upto(fs, symbol, n).len() implies (
        #[trigger] calls_upto(fs, symbol, n)[i]).line <= u64::MAX by {
            if i < before.len() {
                assert(calls_upto(fs, symbol, n)[i] == before[i]);
            } else {
                assert(calls_upto(fs, symbol, n)[i] == here[i - before.len()]);
            }
        }
    }
}

proof fn lemma_file_lines_fit(fs: Seq<FileView>, k: int, symbol: Seq<char>, n: nat)
    requires
        0 <= k < fs.len(),
        n <= fs[k].occs.len(),
        forall|i: int, j: int|
            0 <= i < fs.len() && 0 <= j < fs[i].occs.len() ==> (#[trigger] fs[i].occs[j]).line
                <= u64::MAX,
    ensures
        forall|i: int|
            0 <= i < calls_in(fs[k], symbol, n).len() ==> (#[trigger] calls_in(
                fs[k],
                symbol,
                n,
            )[i]).line <= u64::MAX,
    decreases n,
{
    if n > 0 {
        lemma_file_lines_fit(fs, k, symbol, (n - 1) as nat);
        let rest = calls_in(fs[k], symbol, (n - 1) as nat);
        assert(fs[k].occs[n - 1].line <= u64::MAX);
        assert forall|i: int| 0 <= i < calls_in(fs[k], symbol, n).len() implies (
        #[trigger] calls_in(fs[k], symbol, n)[i]).line <= u64::MAX by {
            if i < rest.len() {
                assert(calls_in(fs[k], symbol, n)[i] == rest[i]);
            }
        }
    }
}

// ---------------------------------------------------------------------------
// In the heading

/// One for a hit in a role.
spec fn of_role(role: Role) -> spec_fn(HitView) -> nat {
    |h: HitView|
        if h.role == role {
            1nat
        } else {
            0
        }
}

proof fn lemma_count_role(hs: Seq<HitView>, role: Role, n: nat)
    requires
        n <= hs.len(),
    ensures
        count_role(hs, role, n) == sum(hs.take(n as int), of_role(role)),
    decreases n,
{
    if n > 0 {
        lemma_count_role(hs, role, (n - 1) as nat);
        assert(hs.take(n as int) =~= hs.take(n - 1).push(hs[n - 1]));
        lemma_sum_push(hs.take(n - 1), hs[n - 1], of_role(role));
    }
}

proof fn lemma_hits_in(f: FileView, q: QueryView, role: Role, n: nat)
    requires
        q.kind == "def"@ ==> role == Role::Def,
    ensures
        sum(hits_in(f, q, n), of_role(role)) == tally(f.occs, q.symbol, role, n),
    decreases n,
{
    if n > 0 {
        lemma_hits_in(f, q, role, (n - 1) as nat);
        let o = f.occs[n - 1];
        lemma_sum_push(
            hits_in(f, q, (n - 1) as nat),
            HitView {
                role: o.role,
                rel: f.rel,
                line: o.line,
                text: crate::symbol_refs::shown_line(f.text, o.line),
            },
            of_role(role),
        );
    }
}

proof fn lemma_hits_len(f: FileView, q: QueryView, n: nat)
    requires
        q.kind != "def"@,
    ensures
        hits_in(f, q, n).len() == tally(f.occs, q.symbol, Role::Def, n) + tally(
            f.occs,
            q.symbol,
            Role::Call,
            n,
        ) + tally(f.occs, q.symbol, Role::Ref, n),
    decreases n,
{
    if n > 0 {
        lemma_hits_len(f, q, (n - 1) as nat);
    }
}

proof fn lemma_all_hits(fs: Seq<FileView>, q: QueryView, role: Role, n: nat)
    requires
        q.kind == "def"@ ==> role == Role::Def,
    ensures
        sum(all_hits(fs, q, n), of_role(role)) == tally_upto(fs, q.symbol, role, n),
    decreases n,
{
    if n > 0 {
        lemma_all_hits(fs, q, role, (n - 1) as nat);
        lemma_hits_in(fs[n - 1], q, role, fs[n - 1].occs.len());
        lemma_sum_add(
            all_hits(fs, q, (n - 1) as nat),
            file_hits(fs[n - 1], q),
            of_role(role),
        );
    }
}

proof fn lemma_files_hit(fs: Seq<FileView>, q: QueryView, n: nat)
    requires
        q.kind != "def"@,
    ensures
        files_hit(fs, q, n) == refs_upto(fs, q.symbol, n).len(),
    decreases n,
{
    if n > 0 {
        lemma_files_hit(fs, q, (n - 1) as nat);
        lemma_hits_len(fs[n - 1], q, fs[n - 1].occs.len());
    }
}

proof fn lemma_page_starts(start: Seq<char>, hs: Seq<HitView>, q: QueryView, n: nat)
    ensures
        starts(pages(start, hs, q, n).text, start),
    decreases n,
{
    if n == 0 {
        assert(start.take(start.len() as int) =~= start);
    } else {
        lemma_page_starts(start, hs, q, (n - 1) as nat);
        let a = pages(start, hs, q, (n - 1) as nat).text;
        let b = pages(start, hs, q, n).text;
        assert(starts(b, a) && b.take(a.len() as int) =~= a) by {
            assert(b.take(a.len() as int) =~= a);
        }
        assert(b.take(start.len() as int) =~= a.take(start.len() as int));
    }
}

/// The totals that an answer begins with are the sums of what is counted by file,
/// and it speaks of as many files as are counted. Where definitions alone are asked
/// for, it says so and gives their total.
pub proof fn law_heading_gives_the_sums(fs: Seq<FileView>, q: QueryView)
    requires
        q.symbol.len() > 0,
    ensures
        ({
            let rs = refs_sorted(fs, q.symbol);
            let nd = dec(total_in(rs, Role::Def));
            let nc = dec(total_in(rs, Role::Call));
            let nr = dec(total_in(rs, Role::Ref));
            let name = "symbol_refs - \""@ + q.symbol + "\": "@;
            if q.kind == "def"@ {
                starts(
                    found_page(fs, q).text,
                    name + nd + " def across "@ + dec(files_hit(fs, q, fs.len()))
                        + " file(s) (definition-only)"@,
                )
            } else {
                starts(
                    found_page(fs, q).text,
                    name + nd + " def, "@ + nc + " call, "@ + nr + " ref across "@ + dec(rs.len())
                        + " file(s)"@,
                )
            }
        }),
{
    let n = fs.len();
    let raw = all_hits(fs, q, n);
    let hs = ordered_hits(raw);
    let files = files_hit(fs, q, n);
    let top = heading(q, hs, files);
    lemma_role_total(fs, q, Role::Def);
    if q.kind != "def"@ {
        lemma_role_total(fs, q, Role::Call);
        lemma_role_total(fs, q, Role::Ref);
        lemma_files_hit(fs, q, n);
        lemma_total_sorted(fs, q.symbol, Role::Def);
    }
    lemma_page_starts(top, hs, q, hs.len());
    let rs = refs_sorted(fs, q.symbol);
    let name = "symbol_refs - \""@ + q.symbol + "\": "@;
    let line = if q.kind == "def"@ {
        name + dec(total_in(rs, Role::Def)) + " def across "@ + dec(files)
            + " file(s) (definition-only)"@
    } else {
        name + dec(total_in(rs, Role::Def)) + " def, "@ + dec(total_in(rs, Role::Call))
            + " call, "@ + dec(total_in(rs, Role::Ref)) + " ref across "@ + dec(rs.len())
            + " file(s)"@
    };
    let text = found_page(fs, q).text;
    assert(top.take(line.len() as int) =~= line);
    assert(text.take(line.len() as int) =~= top.take(line.len() as int)) by {
        assert(text.take(top.len() as int) == top);
        assert forall|i: int| 0 <= i < line.len() implies text[i] == top[i] by {
            assert(text.take(top.len() as int)[i] == text[i]);
        }
    }
}

proof fn lemma_role_total(fs: Seq<FileView>, q: QueryView, role: Role)
    requires
        q.symbol.len() > 0,
        q.kind == "def"@ ==> role == Role::Def,
    ensures
        ({
            let hs = ordered_hits(all_hits(fs, q, fs.len()));
            count_role(hs, role, hs.len()) == total_in(refs_sorted(fs, q.symbol), role)
        }),
{
    let raw = all_hits(fs, q, fs.len());
    let hs = ordered_hits(raw);
    lemma_count_role(hs, role, hs.len());
    assert(hs.take(hs.len() as int) =~= hs);
    lemma_sum_sorted(raw, hit_keys(raw), of_role(role));
    lemma_all_hits(fs, q, role, fs.len());
    lemma_total_sorted(fs, q.symbol, role);
}

} // verus!
