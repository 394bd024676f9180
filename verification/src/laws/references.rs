//! What an answer on the references of a symbol lists, and in which order.
use vstd::prelude::*;
use crate::laws::lists::{lemma_arranged_items, lemma_contains_add, lemma_contains_push};
use crate::laws::texts::{flat, lemma_flat_push};
use crate::symbol_refs::{
    all_hits, file_hits, found_page, hit_keys, hits_in, ordered_hits, page_step, pages, shown_line,
    FileView, HitView, PageView, QueryView, Role,
};
use crate::text::{dec, starts};

verus! {

/// Whether a hit is an occurrence of the symbol in a file: with its role, its path, its
/// line and what stands on that line. Where definitions alone are asked for, it is one.
pub open spec fn hit_at(f: FileView, q: QueryView, k: int, h: HitView) -> bool {
    &&& 0 <= k < f.occs.len()
    &&& f.occs[k].name == q.symbol
    &&& q.kind == "def"@ ==> f.occs[k].role == Role::Def
    &&& h == HitView {
        role: f.occs[k].role,
        rel: f.rel,
        line: f.occs[k].line,
        text: shown_line(f.text, f.occs[k].line),
    }
}

proof fn lemma_hits_in(f: FileView, q: QueryView, n: nat, h: HitView)
    requires
        n <= f.occs.len(),
    ensures
        hits_in(f, q, n).contains(h) <==> exists|k: int| k < n && #[trigger] hit_at(f, q, k, h),
    decreases n,
{
    if n > 0 {
        let m = (n - 1) as nat;
        lemma_hits_in(f, q, m, h);
        let o = f.occs[n - 1];
        let here = HitView {
            role: o.role,
            rel: f.rel,
            line: o.line,
            text: shown_line(f.text, o.line),
        };
        lemma_contains_push(hits_in(f, q, m), here, h);
        if o.name == q.symbol && (q.kind == "def"@ ==> o.role == Role::Def) && h == here {
            assert(hit_at(f, q, n - 1, h));
        }
    }
}

proof fn lemma_all_hits(fs: Seq<FileView>, q: QueryView, n: nat, h: HitView)
    requires
        n <= fs.len(),
    ensures
        all_hits(fs, q, n).contains(h) <==> exists|i: int, k: int|
            0 <= i < n && #[trigger] hit_at(fs[i], q, k, h),
    decreases n,
{
    if n > 0 {
        let m = (n - 1) as nat;
        lemma_all_hits(fs, q, m, h);
        lemma_hits_in(fs[n - 1], q, fs[n - 1].occs.len(), h);
        lemma_contains_add(all_hits(fs, q, m), file_hits(fs[n - 1], q), h);
        if exists|i: int, k: int| 0 <= i < n && #[trigger] hit_at(fs[i], q, k, h) {
            let (i, k) = choose|i: int, k: int| 0 <= i < n && #[trigger] hit_at(fs[i], q, k, h);
            assert(i < m || i == n - 1);
        }
    }
}

/// The hits of a question are the occurrences of its symbol in the files, all of them and
/// no others.
pub proof fn law_hits_are_the_occurrences(fs: Seq<FileView>, q: QueryView, h: HitView)
    ensures
        ordered_hits(all_hits(fs, q, fs.len())).contains(h) <==> exists|i: int, k: int|
            0 <= i < fs.len() && #[trigger] hit_at(fs[i], q, k, h),
{
    lemma_all_hits(fs, q, fs.len(), h);
    let v = all_hits(fs, q, fs.len());
    lemma_arranged_items(v, hit_keys(v));
}

/// Whether a role is asked for: a kind of question that names one role asks for that one,
/// and any other kind for all.
pub open spec fn asked(kind: Seq<char>) -> spec_fn(HitView) -> bool {
    |h: HitView|
        (kind == "def"@ ==> h.role == Role::Def) && (kind == "call"@ ==> h.role == Role::Call) && (
        kind == "ref"@ ==> h.role == Role::Ref)
}

/// The heading of the hits of a role.
pub open spec fn role_heading(r: Role) -> Seq<char> {
    match r {
        Role::Def => "definitions:\n"@,
        Role::Call => "calls:\n"@,
        Role::Ref => "references:\n"@,
    }
}

/// The row of a hit, under a heading where its role is another than that of the hit
/// before.
pub open spec fn row_of(w: Seq<HitView>, first: int, i: int) -> Seq<char> {
    let h = w[i];
    (if i == first || w[i - 1].role != h.role {
        role_heading(h.role)
    } else {
        Seq::empty()
    }) + ("  "@ + h.rel + ":"@ + dec(h.line) + "  "@ + h.text + "\n"@)
}

/// Whether these are the rows of the hits from the one numbered `first` on.
pub open spec fn rows_of(rows: Seq<Seq<char>>, w: Seq<HitView>, first: int) -> bool {
    first + rows.len() <= w.len() && forall|i: int|
        0 <= i < rows.len() ==> (#[trigger] rows[i]) == row_of(w, first, first + i)
}

spec fn written(
    p: PageView,
    start: Seq<char>,
    w: Seq<HitView>,
    q: QueryView,
    rows: Seq<Seq<char>>,
) -> bool {
    let r = q.resume_at as int;
    &&& p.shown == rows.len()
    &&& p.shown > 0 ==> rows_of(rows, w, r)
    &&& p.shown <= q.max
    &&& !p.full && p.cut is None ==> p.index == w.len() && p.text == start + flat(rows)
        && p.shown == (if w.len() >= r {
        w.len() - r
    } else {
        0
    }) && p.last == (if p.shown == 0 {
        None
    } else {
        Some(w.last().role)
    })
    &&& starts(p.text, start + flat(rows))
    &&& p.full ==> p.shown == q.max && w.len() > r + p.shown
    &&& p.cut matches Some(c) ==> c == r + p.shown && w.len() > c && p.shown > 0
}

proof fn lemma_rows_grow(rows: Seq<Seq<char>>, w: Seq<HitView>, x: HitView, first: int)
    requires
        rows_of(rows, w, first),
        first >= 0,
    ensures
        rows_of(rows, w.push(x), first),
{
    assert forall|i: int| 0 <= i < rows.len() implies (#[trigger] rows[i]) == row_of(
        w.push(x),
        first,
        first + i,
    ) by {
        assert(rows[i] == row_of(w, first, first + i));
    }
}

proof fn lemma_next_row(
    p: PageView,
    start: Seq<char>,
    w: Seq<HitView>,
    h: HitView,
    q: QueryView,
    rows: Seq<Seq<char>>,
) -> (all: Seq<Seq<char>>)
    requires
        written(p, start, w, q, rows),
        !p.full,
        p.cut is None,
        p.index >= q.resume_at,
        p.shown < q.max,
        crate::symbol_refs::wants(q.kind, h.role),
        !(p.used + crate::text::blen(crate::symbol_refs::hit_text(h)) / 4 > q.budget && p.shown > 0),
    ensures
        written(page_step(p, h, q), start, w.push(h), q, all),
{
    let r = q.resume_at as int;
    let v = w.push(h);
    let row = row_of(v, r, r + p.shown);
    let headed = if p.last == Some(h.role) {
        p.text
    } else {
        p.text + crate::symbol_refs::label_of(h.role) + ":\n"@
    };
    if p.shown > 0 {
        assert(v[r + p.shown - 1] == w.last());
    }
    lemma_heading(h.role);
    let line = crate::symbol_refs::hit_text(h);
    let t = page_step(p, h, q).text;
    assert(t == headed + line);
    if p.last == Some(h.role) {
        assert(Seq::<char>::empty() + line =~= line);
        assert(row == line);
    } else {
        assert(p.text + crate::symbol_refs::label_of(h.role) + ":\n"@ =~= p.text + (
        crate::symbol_refs::label_of(h.role) + ":\n"@));
        assert(p.text + role_heading(h.role) + line =~= p.text + (role_heading(h.role) + line));
    }
    assert(t == p.text + row);
    lemma_flat_push(rows, row);
    let all = rows.push(row);
    assert(start + flat(rows) + row =~= start + (flat(rows) + row));
    assert(rows_of(all, v, r)) by {
        if p.shown > 0 {
            lemma_rows_grow(rows, w, h, r);
        }
        assert forall|i: int| 0 <= i < all.len() implies (#[trigger] all[i]) == row_of(
            v,
            r,
            r + i,
        ) by {
            if i < rows.len() {
                assert(all[i] == rows[i]);
            }
        }
    }
    assert(t.take(t.len() as int) =~= t);
    all
}

proof fn lemma_starts_more(t: Seq<char>, e: Seq<char>)
    ensures
        starts(t + e, t),
{
    assert((t + e).take(t.len() as int) =~= t);
}

proof fn lemma_pages(start: Seq<char>, hs: Seq<HitView>, q: QueryView, n: nat) -> (rows: Seq<
    Seq<char>,
>)
    requires
        n <= hs.len(),
    ensures
        written(pages(start, hs, q, n), start, hs.take(n as int).filter(asked(q.kind)), q, rows),
    decreases n,
{
    let f = asked(q.kind);
    let r = q.resume_at as int;
    if n == 0 {
        let none = Seq::<Seq<char>>::empty();
        reveal(Seq::filter);
        assert(hs.take(0) =~= Seq::<HitView>::empty());
        assert(hs.take(0).filter(f) =~= Seq::<HitView>::empty());
        assert(start + flat(none) =~= start);
        assert(start.take(start.len() as int) =~= start);
        none
    } else {
        let m = (n - 1) as nat;
        let rows = lemma_pages(start, hs, q, m);
        let h = hs[n - 1];
        let w = hs.take(m as int).filter(f);
        let p = pages(start, hs, q, m);
        assert(hs.take(n as int) =~= hs.take(m as int).push(h));
        hs.take(m as int).lemma_filter_push(h, f);
        let v = hs.take(n as int).filter(f);
        lemma_asked(q.kind, h);
        if !f(h) {
            assert(v == w);
            rows
        } else {
            assert(v == w.push(h));
            if p.shown > 0 {
                lemma_rows_grow(rows, w, h, r);
            }
            let t = start + flat(rows);
            if p.full || p.cut is Some {
                rows
            } else if p.index < q.resume_at {
                rows
            } else if p.shown >= q.max {
                lemma_starts_more(t, "… (more hits; raise \"max\")\n"@);
                rows
            } else {
                let cost = crate::text::blen(crate::symbol_refs::hit_text(h)) / 4;
                if p.used + cost > q.budget && p.shown > 0 {
                    let l = crate::symbol_refs::label_of(h.role);
                    lemma_starts_more(t, l + ":\n"@);
                    assert(t + l + ":\n"@ =~= t + (l + ":\n"@));
                    rows
                } else {
                    lemma_next_row(p, start, w, h, q, rows)
                }
            }
        }
    }
}

proof fn lemma_asked(kind: Seq<char>, h: HitView)
    ensures
        asked(kind)(h) == crate::symbol_refs::wants(kind, h.role),
{
    reveal_strlit("def");
    reveal_strlit("call");
    reveal_strlit("ref");
    assert("def"@.len() == 3 && "call"@.len() == 4 && "ref"@.len() == 3 && "def"@[0] == 'd'
        && "ref"@[0] == 'r');
}

proof fn lemma_heading(r: Role)
    ensures
        crate::symbol_refs::label_of(r) + ":\n"@ == role_heading(r),
{
    reveal_strlit("definitions");
    reveal_strlit("calls");
    reveal_strlit("references");
    reveal_strlit(":\n");
    reveal_strlit("definitions:\n");
    reveal_strlit("calls:\n");
    reveal_strlit("references:\n");
    assert(crate::symbol_refs::label_of(r) + ":\n"@ =~= role_heading(r));
}

/// An answer lists, behind its heading, the hits that were asked for, one row each, from
/// the one where it resumes on, in the order of the hits. It lists all of them unless it
/// has as many as may be shown or its budget is used up, and says so.
pub proof fn law_answer_lists_the_hits(fs: Seq<FileView>, q: QueryView) -> (r: (
    Seq<char>,
    Seq<Seq<char>>,
))
    ensures
        ({
            let p = found_page(fs, q);
            let w = ordered_hits(all_hits(fs, q, fs.len())).filter(asked(q.kind));
            &&& starts(p.text, r.0 + flat(r.1))
            &&& r.1.len() == p.shown
            &&& p.shown > 0 ==> rows_of(r.1, w, q.resume_at as int)
            &&& p.cut is None && !p.full && w.len() >= q.resume_at ==> p.shown == w.len()
                - q.resume_at
            &&& p.full ==> p.shown == q.max
            &&& p.cut matches Some(c) ==> c == q.resume_at + p.shown && c < w.len()
        }),
{
    let hs = ordered_hits(all_hits(fs, q, fs.len()));
    let start = crate::symbol_refs::heading(q, hs, crate::symbol_refs::files_hit(fs, q, fs.len()));
    let rows = lemma_pages(start, hs, q, hs.len());
    assert(hs.take(hs.len() as int) =~= hs);
    (start, rows)
}

} // verus!
