//! Embeddings of sections: their keys, the file that keeps them, and which ones a
//! search has to compute.
//!
//! An embedding is held by the bits of its numbers. Computing embeddings and
//! weighing them is left to the caller.
use vstd::prelude::*;
use vstd::utf8::encode_utf8;
use crate::knowledge::{chunk_views, Chunk, ChunkView};
use crate::knowledge::search::{by_score, rank, Scored};
use crate::text::{copy, strs};

verus! {

/// The sections that are weighed by meaning.
pub const HEAD: usize = 24;

pub const PRIME: u64 = 0x0000_0100_0000_01b3;

pub const OFFSET: u64 = 0xcbf2_9ce4_8422_2325;

// ---------------------------------------------------------------------------
// Keys

/// One byte taken into an FNV-1a hash.
pub open spec fn fnv_step(h: u64, b: u8) -> u64 {
    (h ^ (b as u64)).wrapping_mul(PRIME)
}

/// The first `n` bytes taken into a hash.
pub open spec fn fnv_bytes(h: u64, bytes: Seq<u8>, n: nat) -> u64
    decreases n,
{
    if n == 0 {
        h
    } else {
        fnv_step(fnv_bytes(h, bytes, (n - 1) as nat), bytes[n - 1])
    }
}

/// The hash of the first `n` parts: the bytes of each, then a byte that no UTF-8
/// text holds.
pub open spec fn fnv_parts(parts: Seq<Seq<char>>, n: nat) -> u64
    decreases n,
{
    if n == 0 {
        OFFSET
    } else {
        let bytes = encode_utf8(parts[n - 1]);
        fnv_step(fnv_bytes(fnv_parts(parts, (n - 1) as nat), bytes, bytes.len()), 0xff)
    }
}

pub open spec fn slices(v: Seq<&str>) -> Seq<Seq<char>> {
    Seq::new(v.len(), |i: int| v[i]@)
}

fn take_in(h: u64, b: u8) -> (r: u64)
    ensures
        r == fnv_step(h, b),
{
    (h ^ (b as u64)).wrapping_mul(PRIME)
}

/// The 64-bit FNV-1a hash of several texts, which stay apart.
pub fn fnv1a(parts: &[&str]) -> (r: u64)
    ensures
        r == fnv_parts(slices(parts@), parts@.len()),
{
    let ghost all = slices(parts@);
    let mut h: u64 = OFFSET;
    for i in 0..parts.len()
        invariant
            all == slices(parts@),
            h == fnv_parts(all, i as nat),
    {
        let bytes = parts[i].as_bytes();
        assert(bytes@ == encode_utf8(all[i as int]));
        let ghost first = h;
        for k in 0..bytes.len()
            invariant
                h == fnv_bytes(first, bytes@, k as nat),
        {
            h = take_in(h, bytes[k]);
        }
        h = take_in(h, 0xff);
    }
    h
}

/// The text of a section that is embedded.
pub open spec fn embed_text(c: ChunkView) -> Seq<char> {
    c.heading + "\n"@ + c.body
}

/// The key of a text under a model.
pub open spec fn embed_key(tag: Seq<char>, text: Seq<char>) -> u64 {
    fnv_parts(seq![tag, text], 2)
}

fn key_of(tag: &str, text: &str) -> (r: u64)
    ensures
        r == embed_key(tag@, text@),
{
    let parts: [&str; 2] = [tag, text];
    assert(slices(parts@) =~= seq![tag@, text@]);
    fnv1a(&parts)
}

// ---------------------------------------------------------------------------
// Numbers as bytes

/// A number as `w` bytes, the lowest first.
pub open spec fn low_first(n: nat, w: nat) -> Seq<u8>
    decreases w,
{
    if w == 0 {
        Seq::empty()
    } else {
        seq![(n % 256) as u8] + low_first(n / 256, (w - 1) as nat)
    }
}

/// The number that bytes give, the lowest first.
pub open spec fn low_first_value(s: Seq<u8>) -> nat
    decreases s.len(),
{
    if s.len() == 0 {
        0
    } else {
        s[0] as nat + 256 * low_first_value(s.drop_first())
    }
}

/// The number of values that `w` bytes can hold.
pub open spec fn room(w: nat) -> nat
    decreases w,
{
    if w == 0 {
        1
    } else {
        256 * room((w - 1) as nat)
    }
}

proof fn lemma_low_first(n: nat, w: nat)
    requires
        n < room(w),
    ensures
        low_first(n, w).len() == w,
        low_first_value(low_first(n, w)) == n,
    decreases w,
{
    if w > 0 {
        lemma_low_first(n / 256, (w - 1) as nat);
        assert(low_first(n, w).drop_first() =~= low_first(n / 256, (w - 1) as nat));
        assert(low_first(n, w)[0] == (n % 256) as u8);
    }
}

proof fn lemma_low_first_len(n: nat, w: nat)
    ensures
        low_first(n, w).len() == w,
    decreases w,
{
    if w > 0 {
        lemma_low_first_len(n / 256, (w - 1) as nat);
    }
}

proof fn lemma_value_room(s: Seq<u8>)
    ensures
        low_first_value(s) < room(s.len()),
    decreases s.len(),
{
    if s.len() > 0 {
        lemma_value_room(s.drop_first());
    }
}

proof fn lemma_room()
    ensures
        room(4) == 0x1_0000_0000,
        room(8) == 0x1_0000_0000_0000_0000,
{
    reveal_with_fuel(room, 9);
}

proof fn lemma_room_grows(a: nat, b: nat)
    requires
        a <= b,
    ensures
        room(a) <= room(b),
        room(a) > 0,
    decreases b,
{
    if a < b {
        lemma_room_grows(a, (b - 1) as nat);
    } else if a > 0 {
        lemma_room_grows((a - 1) as nat, (a - 1) as nat);
    }
}

fn write_number(out: &mut Vec<u8>, n: u64, w: usize)
    ensures
        final(out)@ == old(out)@ + low_first(n as nat, w as nat),
{
    let ghost first = out@;
    let mut rest: u64 = n;
    let mut i: usize = 0;
    assert(first + low_first(n as nat, w as nat) =~= out@ + low_first(rest as nat, (w - i) as nat));
    while i < w
        invariant
            i <= w,
            first + low_first(n as nat, w as nat) == out@ + low_first(rest as nat, (w - i) as nat),
        decreases w - i,
    {
        let b: u8 = (rest % 256) as u8;
        proof {
            let m = rest as nat;
            let k = (w - i) as nat;
            assert(low_first(m, k) == seq![(m % 256) as u8] + low_first(m / 256, (k - 1) as nat));
            assert(out@.push(b) + low_first(m / 256, (k - 1) as nat) =~= out@ + low_first(m, k));
        }
        out.push(b);
        rest = rest / 256;
        i += 1;
    }
    assert(out@ + low_first(rest as nat, 0) =~= out@);
}

fn read_number(bytes: &Vec<u8>, at: usize, w: usize) -> (r: u64)
    requires
        w <= 8,
        at + w <= bytes@.len(),
    ensures
        r == low_first_value(bytes@.subrange(at as int, at + w)),
{
    let mut value: u64 = 0;
    let mut i: usize = w;
    proof {
        lemma_room();
        assert(bytes@.subrange(at + w, at + w) =~= Seq::empty());
    }
    while i > 0
        invariant
            i <= w <= 8,
            at + w <= bytes@.len(),
            value == low_first_value(bytes@.subrange(at + i, at + w)),
        decreases i,
    {
        assert(bytes@.len() == bytes.len());
        let b: u8 = bytes[at + (i - 1)];
        proof {
            let s = bytes@.subrange(at + i - 1, at + w);
            assert(s.drop_first() =~= bytes@.subrange(at + i, at + w));
            lemma_value_room(s);
            lemma_room_grows(s.len(), 8);
            lemma_room();
            assert(low_first_value(s) == b as nat + 256 * value as nat);
        }
        value = (b as u64) + 256 * value;
        i -= 1;
    }
    value
}

// ---------------------------------------------------------------------------
// The kept embeddings

/// Embeddings by key, all of one length.
pub struct Cache {
    pub dim: usize,
    pub entries: Vec<(u64, Vec<u32>)>,
    /// Whether there are some that the file does not have.
    pub dirty: bool,
}

#[verifier::ext_equal]
pub struct CacheView {
    pub dim: nat,
    pub entries: Seq<(u64, Seq<u32>)>,
    pub dirty: bool,
}

pub open spec fn entry_views(v: Seq<(u64, Vec<u32>)>) -> Seq<(u64, Seq<u32>)> {
    Seq::new(v.len(), |i: int| (v[i].0, v[i].1@))
}

impl View for Cache {
    type V = CacheView;

    open spec fn view(&self) -> CacheView {
        CacheView {
            dim: self.dim as nat,
            entries: entry_views(self.entries@),
            dirty: self.dirty,
        }
    }
}

impl CacheView {
    /// No key occurs twice, and every embedding has the common length.
    pub open spec fn wf(self) -> bool {
        &&& forall|i: int, j: int|
            0 <= i < j < self.entries.len() ==> (#[trigger] self.entries[i]).0 != (
            #[trigger] self.entries[j]).0
        &&& forall|i: int|
            0 <= i < self.entries.len() ==> (#[trigger] self.entries[i]).1.len() == self.dim
    }

    /// Without a common length there are no embeddings yet.
    pub open spec fn sound(self) -> bool {
        self.wf() && (self.dim == 0 ==> self.entries.len() == 0)
    }
}

/// The first entry from `i` on with a key, or the number of entries.
pub open spec fn key_from(s: Seq<(u64, Seq<u32>)>, key: u64, i: nat) -> nat
    decreases s.len() - i,
{
    if i >= s.len() || s[i as int].0 == key {
        i
    } else {
        key_from(s, key, i + 1)
    }
}

/// The embedding with a key.
pub open spec fn kept_at(s: Seq<(u64, Seq<u32>)>, key: u64) -> Option<Seq<u32>> {
    if key_from(s, key, 0) < s.len() {
        Some(s[key_from(s, key, 0) as int].1)
    } else {
        None
    }
}

/// The embeddings with one set.
pub open spec fn keep(s: Seq<(u64, Seq<u32>)>, key: u64, v: Seq<u32>) -> Seq<(u64, Seq<u32>)> {
    let p = key_from(s, key, 0);
    if p < s.len() {
        s.update(p as int, (key, v))
    } else {
        s.push((key, v))
    }
}

proof fn lemma_key_from(s: Seq<(u64, Seq<u32>)>, key: u64, i: nat)
    requires
        i <= s.len(),
    ensures
        i <= key_from(s, key, i) <= s.len(),
        forall|k: int| i <= k < key_from(s, key, i) ==> (#[trigger] s[k]).0 != key,
        key_from(s, key, i) < s.len() ==> s[key_from(s, key, i) as int].0 == key,
    decreases s.len() - i,
{
    if i < s.len() && s[i as int].0 != key {
        lemma_key_from(s, key, i + 1);
    }
}

proof fn lemma_keep_wf(c: CacheView, key: u64, v: Seq<u32>)
    requires
        c.wf(),
        v.len() == c.dim,
    ensures
        (CacheView { entries: keep(c.entries, key, v), ..c }).wf(),
{
    lemma_key_from(c.entries, key, 0);
    let d = CacheView { entries: keep(c.entries, key, v), ..c };
    let p = key_from(c.entries, key, 0) as int;
    assert forall|i: int, j: int| 0 <= i < j < d.entries.len() implies (#[trigger] d.entries[i]).0
        != (#[trigger] d.entries[j]).0 by {
        if p < c.entries.len() {
            assert(d.entries[i].0 == c.entries[i].0);
            assert(d.entries[j].0 == c.entries[j].0);
        } else if j < p {
            assert(d.entries[i] == c.entries[i] && d.entries[j] == c.entries[j]);
        } else {
            assert(d.entries[i] == c.entries[i]);
        }
    }
    assert forall|i: int| 0 <= i < d.entries.len() implies (#[trigger] d.entries[i]).1.len()
        == d.dim by {
        if i != p {
            assert(d.entries[i] == c.entries[i]);
        }
    }
}

fn find_key(v: &Vec<(u64, Vec<u32>)>, key: u64) -> (r: usize)
    ensures
        r == key_from(entry_views(v@), key, 0),
        r <= v@.len(),
{
    let ghost s = entry_views(v@);
    let mut i: usize = 0;
    while i < v.len() && v[i].0 != key
        invariant
            i <= v@.len(),
            s == entry_views(v@),
            key_from(s, key, 0) == key_from(s, key, i as nat),
        decreases v@.len() - i,
    {
        assert(s[i as int].0 == v@[i as int].0);
        i += 1;
    }
    if i < v.len() {
        assert(s[i as int].0 == v@[i as int].0);
    }
    i
}

fn keep_entry(v: &mut Vec<(u64, Vec<u32>)>, key: u64, e: Vec<u32>)
    ensures
        entry_views(final(v)@) == keep(entry_views(old(v)@), key, e@),
{
    let p: usize = find_key(v, key);
    let ghost before = entry_views(v@);
    if p < v.len() {
        v.set(p, (key, e));
        assert(entry_views(v@) =~= before.update(p as int, (key, e@)));
    } else {
        v.push((key, e));
        assert(entry_views(v@) =~= before.push((key, e@)));
    }
}

pub open spec fn opt_bits(r: Option<&Vec<u32>>) -> Option<Seq<u32>> {
    match r {
        Some(v) => Some(v@),
        None => None,
    }
}

/// No embeddings.
pub open spec fn no_embeddings() -> CacheView {
    CacheView { dim: 0, entries: Seq::empty(), dirty: false }
}

/// The embeddings after one was offered: the first one sets the length, and one
/// of another length is not taken. One that is taken is new to the file.
pub open spec fn offered(c: CacheView, key: u64, v: Seq<u32>) -> CacheView {
    let dim = if c.dim == 0 {
        v.len()
    } else {
        c.dim
    };
    if v.len() != dim {
        CacheView { dim, ..c }
    } else {
        CacheView { dim, entries: keep(c.entries, key, v), dirty: true }
    }
}

impl Cache {
    pub fn new() -> (r: Cache)
        ensures
            r@ == no_embeddings(),
            r@.wf(),
    {
        let r = Cache { dim: 0, entries: Vec::new(), dirty: false };
        assert(entry_views(r.entries@) =~= Seq::empty());
        r
    }

    pub fn contains(&self, key: u64) -> (r: bool)
        ensures
            r == (kept_at(self@.entries, key) is Some),
    {
        assert(entry_views(self.entries@).len() == self.entries@.len());
        find_key(&self.entries, key) < self.entries.len()
    }

    pub fn get(&self, key: u64) -> (r: Option<&Vec<u32>>)
        ensures
            opt_bits(r) == kept_at(self@.entries, key),
    {
        assert(entry_views(self.entries@).len() == self.entries@.len());
        let p: usize = find_key(&self.entries, key);
        if p < self.entries.len() {
            Some(&self.entries[p].1)
        } else {
            None
        }
    }

    pub fn insert(&mut self, key: u64, v: Vec<u32>)
        ensures
            final(self)@ == offered(old(self)@, key, v@),
            old(self)@.sound() && v@.len() > 0 ==> final(self)@.sound(),
    {
        if self.dim == 0 {
            self.dim = v.len();
        }
        if v.len() != self.dim {
            return;
        }
        proof {
            let c = CacheView { dim: self.dim as nat, dirty: true, ..old(self)@ };
            if old(self)@.sound() {
                lemma_keep_wf(c, key, v@);
            }
        }
        keep_entry(&mut self.entries, key, v);
        self.dirty = true;
    }
}

// ---------------------------------------------------------------------------
// The file

/// The mark that a file begins with.
pub open spec fn magic() -> Seq<u8> {
    seq![67u8, 66u8, 69u8, 49u8]
}

/// The size of a record.
pub open spec fn record_size(dim: nat) -> nat {
    8 + dim * 4
}

/// The numbers of an embedding, from a place in a file.
pub open spec fn numbers_at(bytes: Seq<u8>, at: int, n: nat) -> Seq<u32> {
    Seq::new(n, |i: int| low_first_value(bytes.subrange(at + 4 * i, at + 4 * i + 4)) as u32)
}

/// The embeddings of the first `n` records of a file.
pub open spec fn records_of(bytes: Seq<u8>, dim: nat, n: nat) -> Seq<(u64, Seq<u32>)>
    decreases n,
{
    if n == 0 {
        Seq::empty()
    } else {
        let at = 12 + (n - 1) * record_size(dim);
        keep(
            records_of(bytes, dim, (n - 1) as nat),
            low_first_value(bytes.subrange(at, at + 8)) as u64,
            numbers_at(bytes, at + 8, dim),
        )
    }
}

/// Whether a file has the form that embeddings are kept in: the mark, a length
/// other than 0, and at least as many records as it says.
pub open spec fn well_formed(bytes: Seq<u8>) -> bool {
    &&& bytes.len() >= 12
    &&& bytes.take(4) == magic()
    &&& low_first_value(bytes.subrange(4, 8)) > 0
    &&& 12 + low_first_value(bytes.subrange(8, 12)) * record_size(
        low_first_value(bytes.subrange(4, 8)),
    ) <= bytes.len()
}

/// The embeddings that a file keeps; none where it is no such file.
pub open spec fn file_cache(bytes: Seq<u8>) -> CacheView {
    if well_formed(bytes) {
        let dim = low_first_value(bytes.subrange(4, 8));
        CacheView {
            dim,
            entries: records_of(bytes, dim, low_first_value(bytes.subrange(8, 12))),
            dirty: false,
        }
    } else {
        no_embeddings()
    }
}

fn read_numbers(bytes: &Vec<u8>, at: usize, n: usize) -> (r: Vec<u32>)
    requires
        at + 4 * n <= bytes@.len(),
    ensures
        r@ == numbers_at(bytes@, at as int, n as nat),
{
    let mut out: Vec<u32> = Vec::new();
    let mut p: usize = at;
    for i in 0..n
        invariant
            p == at + 4 * i,
            at + 4 * n <= bytes@.len(),
            out@.len() == i,
            forall|k: int| 0 <= k < i ==> #[trigger] out@[k] == numbers_at(bytes@, at as int, n as nat)[k],
    {
        assert(bytes@.len() == bytes.len());
        proof {
            lemma_value_room(bytes@.subrange(p as int, p + 4));
            lemma_room();
        }
        out.push(read_number(bytes, p, 4) as u32);
        p = p + 4;
    }
    assert(out@ =~= numbers_at(bytes@, at as int, n as nat));
    out
}

fn has_magic(bytes: &Vec<u8>) -> (r: bool)
    requires
        bytes@.len() >= 4,
    ensures
        r == (bytes@.take(4) == magic()),
{
    let r: bool = bytes[0] == 67 && bytes[1] == 66 && bytes[2] == 69 && bytes[3] == 49;
    proof {
        if r {
            assert(bytes@.take(4) =~= magic());
        } else {
            assert(bytes@.take(4)[0] == bytes@[0] && bytes@.take(4)[1] == bytes@[1]
                && bytes@.take(4)[2] == bytes@[2] && bytes@.take(4)[3] == bytes@[3]);
            assert(magic()[0] == 67 && magic()[1] == 66 && magic()[2] == 69 && magic()[3] == 49);
        }
    }
    r
}

proof fn lemma_records_wf(bytes: Seq<u8>, dim: nat, n: nat)
    ensures
        (CacheView { dim, entries: records_of(bytes, dim, n), dirty: false }).wf(),
    decreases n,
{
    if n > 0 {
        lemma_records_wf(bytes, dim, (n - 1) as nat);
        let before = records_of(bytes, dim, (n - 1) as nat);
        let at = 12 + (n - 1) * record_size(dim);
        lemma_keep_wf(
            CacheView { dim, entries: before, dirty: false },
            low_first_value(bytes.subrange(at, at + 8)) as u64,
            numbers_at(bytes, at + 8, dim),
        );
    }
}

/// Reads the embeddings that a file keeps.
pub fn read_cache(bytes: &Vec<u8>) -> (r: Cache)
    ensures
        r@ == file_cache(bytes@),
        r@.wf(),
{
    if bytes.len() < 12 || !has_magic(bytes) {
        return Cache::new();
    }
    let d: u64 = read_number(bytes, 4, 4);
    let count: u64 = read_number(bytes, 8, 4);
    proof {
        lemma_room();
        lemma_value_room(bytes@.subrange(4, 8));
        lemma_value_room(bytes@.subrange(8, 12));
    }
    let size: u64 = bytes.len() as u64;
    let width: u64 = 8 + d * 4;
    let ghost dn = d as nat;
    assert(count * width <= 0x1_0000_0000 * 0x10_0000_0000) by (nonlinear_arith)
        requires
            count < 0x1_0000_0000,
            width < 0x10_0000_0000,
    ;
    if d == 0 || 12 + (count as u128) * (width as u128) > size as u128 {
        return Cache::new();
    }
    let dim: usize = d as usize;
    let mut entries: Vec<(u64, Vec<u32>)> = Vec::new();
    assert(entry_views(entries@) =~= Seq::empty());
    let mut at: u64 = 12;
    assert(0 * width == 0) by (nonlinear_arith);
    for i in 0..count
        invariant
            d < 0x1_0000_0000,
            dn == d as nat,
            dim == d,
            width == record_size(dn),
            size == bytes@.len(),
            12 + count * width <= size,
            at == 12 + i * width,
            entry_views(entries@) == records_of(bytes@, dn, i as nat),
    {
        assert((i + 1) * width == i * width + width) by (nonlinear_arith);
        assert((i + 1) * width <= count * width) by (nonlinear_arith)
            requires
                i + 1 <= count,
                width >= 0,
        ;
        assert(bytes@.len() == bytes.len());
        let p: usize = at as usize;
        let key: u64 = read_number(bytes, p, 8);
        let v = read_numbers(bytes, p + 8, dim);
        keep_entry(&mut entries, key, v);
        assert(12 + i * record_size(dn) == at);
        at = at + width;
    }
    proof {
        lemma_records_wf(bytes@, dn, count as nat);
    }
    Cache { dim, entries, dirty: false }
}

/// An embedding as bytes.
pub open spec fn numbers_bytes(v: Seq<u32>, n: nat) -> Seq<u8>
    decreases n,
{
    if n == 0 {
        Seq::empty()
    } else {
        numbers_bytes(v, (n - 1) as nat) + low_first(v[n - 1] as nat, 4)
    }
}

/// The first `n` embeddings as bytes.
pub open spec fn records_bytes(s: Seq<(u64, Seq<u32>)>, n: nat) -> Seq<u8>
    decreases n,
{
    if n == 0 {
        Seq::empty()
    } else {
        let e = s[n - 1];
        records_bytes(s, (n - 1) as nat) + low_first(e.0 as nat, 8) + numbers_bytes(
            e.1,
            e.1.len(),
        )
    }
}

/// The file that keeps embeddings.
pub open spec fn cache_file(c: CacheView) -> Seq<u8> {
    magic() + low_first(c.dim, 4) + low_first(c.entries.len(), 4) + records_bytes(
        c.entries,
        c.entries.len(),
    )
}

/// Writes the file that keeps embeddings.
pub fn write_cache(c: &Cache) -> (r: Vec<u8>)
    ensures
        r@ == cache_file(c@),
{
    let ghost s = entry_views(c.entries@);
    let mut out: Vec<u8> = Vec::new();
    out.push(67);
    out.push(66);
    out.push(69);
    out.push(49);
    assert(out@ =~= magic());
    write_number(&mut out, c.dim as u64, 4);
    write_number(&mut out, c.entries.len() as u64, 4);
    let ghost head = out@;
    assert(head =~= head + records_bytes(s, 0));
    for i in 0..c.entries.len()
        invariant
            s == entry_views(c.entries@),
            out@ == head + records_bytes(s, i as nat),
    {
        let e = &c.entries[i].1;
        assert(s[i as int] == (c.entries@[i as int].0, e@));
        write_number(&mut out, c.entries[i].0, 8);
        let ghost here = out@;
        assert(here =~= here + numbers_bytes(e@, 0));
        for k in 0..e.len()
            invariant
                out@ == here + numbers_bytes(e@, k as nat),
        {
            let ghost last = out@;
            write_number(&mut out, e[k] as u64, 4);
            assert(out@ =~= here + (numbers_bytes(e@, k as nat) + low_first(e@[k as int] as nat, 4)));
        }
        assert(out@ =~= head + (records_bytes(s, i as nat) + low_first(s[i as int].0 as nat, 8)
            + numbers_bytes(e@, e@.len())));
    }
    out
}

proof fn lemma_numbers_len(v: Seq<u32>, n: nat)
    requires
        n <= v.len(),
    ensures
        numbers_bytes(v, n).len() == 4 * n,
    decreases n,
{
    if n > 0 {
        lemma_numbers_len(v, (n - 1) as nat);
        lemma_low_first_len(v[n - 1] as nat, 4);
    }
}

proof fn lemma_numbers_at(v: Seq<u32>, n: nat, i: int)
    requires
        n <= v.len(),
        0 <= i < n,
    ensures
        numbers_bytes(v, n).len() == 4 * n,
        numbers_bytes(v, n).subrange(4 * i, 4 * i + 4) == low_first(v[i] as nat, 4),
    decreases n,
{
    lemma_numbers_len(v, n);
    lemma_numbers_len(v, (n - 1) as nat);
    lemma_low_first_len(v[n - 1] as nat, 4);
    let a = numbers_bytes(v, (n - 1) as nat);
    let b = low_first(v[n - 1] as nat, 4);
    if i == n - 1 {
        assert((a + b).subrange(4 * i, 4 * i + 4) =~= b);
    } else {
        lemma_numbers_at(v, (n - 1) as nat, i);
        assert((a + b).subrange(4 * i, 4 * i + 4) =~= a.subrange(4 * i, 4 * i + 4));
    }
}

proof fn lemma_records_len(c: CacheView, n: nat)
    requires
        c.wf(),
        n <= c.entries.len(),
    ensures
        records_bytes(c.entries, n).len() == n * record_size(c.dim),
    decreases n,
{
    if n > 0 {
        lemma_records_len(c, (n - 1) as nat);
        let e = c.entries[n - 1];
        assert(e.1.len() == c.dim);
        lemma_low_first_len(e.0 as nat, 8);
        lemma_numbers_len(e.1, e.1.len());
        let w = record_size(c.dim);
        assert((n - 1) * w + w == n * w) by (nonlinear_arith);
    } else {
        assert(n * record_size(c.dim) == 0) by (nonlinear_arith)
            requires
                n == 0,
        ;
    }
}

/// The bytes of the record at `i`.
proof fn lemma_records_at(c: CacheView, n: nat, i: int)
    requires
        c.wf(),
        n <= c.entries.len(),
        0 <= i < n,
    ensures
        records_bytes(c.entries, n).len() == n * record_size(c.dim),
        (i + 1) * record_size(c.dim) <= n * record_size(c.dim),
        records_bytes(c.entries, n).subrange(
            i * record_size(c.dim),
            (i + 1) * record_size(c.dim),
        ) == low_first(c.entries[i].0 as nat, 8) + numbers_bytes(c.entries[i].1, c.dim),
    decreases n,
{
    let w = record_size(c.dim);
    lemma_records_len(c, n);
    lemma_records_len(c, (n - 1) as nat);
    let e = c.entries[n - 1];
    assert(e.1.len() == c.dim);
    let a = records_bytes(c.entries, (n - 1) as nat);
    let b = low_first(e.0 as nat, 8) + numbers_bytes(e.1, e.1.len());
    assert(records_bytes(c.entries, n) =~= a + b);
    assert((n - 1) * w + w == n * w) by (nonlinear_arith);
    assert((i + 1) * w == i * w + w) by (nonlinear_arith);
    if i == n - 1 {
        assert((a + b).subrange(i * w, (i + 1) * w) =~= b);
    } else {
        lemma_records_at(c, (n - 1) as nat, i);
        assert((i + 1) * w <= (n - 1) * w) by (nonlinear_arith)
            requires
                i + 1 <= n - 1,
                w >= 0,
        ;
        assert(i * w >= 0) by (nonlinear_arith)
            requires
                i >= 0,
                w >= 0,
        ;
        assert((a + b).subrange(i * w, (i + 1) * w) =~= a.subrange(i * w, (i + 1) * w));
    }
}

proof fn lemma_records_back(c: CacheView, bytes: Seq<u8>, n: nat)
    requires
        c.wf(),
        c.entries.len() <= u32::MAX,
        n <= c.entries.len(),
        bytes == cache_file(c),
    ensures
        records_of(bytes, c.dim, n) == c.entries.take(n as int),
    decreases n,
{
    if n == 0 {
        assert(c.entries.take(0) =~= Seq::empty());
    } else {
        lemma_records_back(c, bytes, (n - 1) as nat);
        lemma_room();
        let all = c.entries.len();
        let i = n - 1;
        let w = record_size(c.dim);
        let rb = records_bytes(c.entries, all);
        lemma_records_at(c, all, i);
        lemma_low_first_len(c.dim, 4);
        lemma_low_first_len(all, 4);
        let head = magic() + low_first(c.dim, 4) + low_first(all, 4);
        assert(head.len() == 12);
        assert(bytes == head + rb);
        let at = 12 + i * w;
        assert((i + 1) * w == i * w + w) by (nonlinear_arith);
        assert(i * w >= 0) by (nonlinear_arith)
            requires
                i >= 0,
                w >= 0,
        ;
        let e = c.entries[i];
        let rec = rb.subrange(i * w, (i + 1) * w);
        assert(e.1.len() == c.dim);
        lemma_low_first(e.0 as nat, 8);
        lemma_numbers_len(e.1, c.dim);
        assert(bytes.subrange(at, at + w) =~= rec);
        assert(bytes.subrange(at, at + 8) =~= rec.subrange(0, 8));
        assert(rec.subrange(0, 8) =~= low_first(e.0 as nat, 8));
        let got = numbers_at(bytes, at + 8, c.dim);
        assert forall|k: int| 0 <= k < c.dim implies got[k] == e.1[k] by {
            lemma_numbers_at(e.1, c.dim, k);
            let nb = numbers_bytes(e.1, c.dim);
            assert(bytes.subrange(at + 8 + 4 * k, at + 8 + 4 * k + 4) =~= nb.subrange(
                4 * k,
                4 * k + 4,
            )) by {
                assert(rec =~= low_first(e.0 as nat, 8) + nb);
                assert(bytes.subrange(at + 8 + 4 * k, at + 8 + 4 * k + 4) =~= bytes.subrange(
                    at,
                    at + w,
                ).subrange(8 + 4 * k, 8 + 4 * k + 4));
                assert(rec.subrange(8 + 4 * k, 8 + 4 * k + 4) =~= nb.subrange(4 * k, 4 * k + 4));
            }
            lemma_low_first(e.1[k] as nat, 4);
        }
        assert(got =~= e.1);
        let before = c.entries.take(i);
        lemma_key_from(before, e.0, 0);
        assert(key_from(before, e.0, 0) == before.len()) by {
            let p = key_from(before, e.0, 0) as int;
            if p < before.len() {
                assert(c.entries[p].0 != c.entries[i].0);
            }
        }
        assert(c.entries.take(n as int) =~= before.push(e));
    }
}

impl Cache {
    /// The file to write, where there is something new to keep.
    pub fn save(&self) -> (r: Option<Vec<u8>>)
        ensures
            r is Some <==> self@.dirty && self@.dim > 0,
            r matches Some(file) ==> file@ == cache_file(self@),
    {
        if self.dirty && self.dim > 0 {
            Some(write_cache(self))
        } else {
            None
        }
    }
}

/// Embeddings that are written come back as they were, and then the file has all
/// of them.
pub proof fn law_cache_round_trip(c: CacheView)
    requires
        c.wf(),
        0 < c.dim <= u32::MAX,
        c.entries.len() <= u32::MAX,
    ensures
        file_cache(cache_file(c)) == (CacheView { dirty: false, ..c }),
{
    let bytes = cache_file(c);
    let all = c.entries.len();
    lemma_room();
    lemma_low_first(c.dim, 4);
    lemma_low_first(all, 4);
    lemma_records_len(c, all);
    lemma_records_back(c, bytes, all);
    let rb = records_bytes(c.entries, all);
    assert(bytes.take(4) =~= magic());
    assert(bytes.subrange(4, 8) =~= low_first(c.dim, 4));
    assert(bytes.subrange(8, 12) =~= low_first(all, 4));
    assert(bytes.len() == 12 + all * record_size(c.dim));
    assert(c.entries.take(all as int) =~= c.entries);
}

/// An embedding of another length than the kept ones is not taken, and those stay
/// as they are.
pub proof fn law_other_lengths_are_refused(c: CacheView, key: u64, v: Seq<u32>)
    requires
        c.dim != 0,
        v.len() != c.dim,
    ensures
        offered(c, key, v) == c,
{
}

/// An embedding of the right length is found under its key, and the others stay.
pub proof fn law_kept_embedding_is_found(c: CacheView, key: u64, v: Seq<u32>, other: u64)
    requires
        c.wf(),
        v.len() == c.dim,
    ensures
        kept_at(offered(c, key, v).entries, key) == Some(v),
        other != key ==> kept_at(offered(c, key, v).entries, other) == kept_at(c.entries, other),
{
    let s = c.entries;
    let t = keep(s, key, v);
    let p = key_from(s, key, 0);
    lemma_key_from(s, key, 0);
    lemma_key_from(t, key, 0);
    lemma_keep_wf(c, key, v);
    let q = key_from(t, key, 0) as int;
    assert(t[p as int].0 == key);
    if q < p {
        assert(t[q] == s[q]);
    }
    assert(q == p);
    if other != key {
        lemma_key_from(s, other, 0);
        lemma_key_from(t, other, 0);
        let a = key_from(s, other, 0) as int;
        let b = key_from(t, other, 0) as int;
        if a < s.len() {
            assert(a != p);
            assert(t[a] == s[a]);
            if b < a {
                assert(t[b].0 == other);
                if b != p {
                    assert(t[b] == s[b]);
                }
            }
            assert(a == b);
        } else if b < t.len() {
            assert(b != p);
            assert(t[b] == s[b]);
        }
    }
}

// ---------------------------------------------------------------------------
// What a search has to embed

/// The sections that are weighed: the first of the ranking.
pub open spec fn head_size(n: nat) -> nat {
    if n < HEAD {
        n
    } else {
        HEAD as nat
    }
}

pub open spec fn head_texts(cs: Seq<ChunkView>, ranked: Seq<Scored>) -> Seq<Seq<char>> {
    Seq::new(head_size(ranked.len()), |i: int| embed_text(cs[ranked[i].at as int]))
}

pub open spec fn head_keys(cs: Seq<ChunkView>, ranked: Seq<Scored>, tag: Seq<char>) -> Seq<u64> {
    head_texts(cs, ranked).map_values(|t: Seq<char>| embed_key(tag, t))
}

/// The first `n` of the head of which no embedding is kept.
pub open spec fn misses_of(keys: Seq<u64>, c: CacheView, n: nat) -> Seq<int>
    decreases n,
{
    if n == 0 {
        Seq::empty()
    } else {
        let before = misses_of(keys, c, (n - 1) as nat);
        if kept_at(c.entries, keys[n - 1]) is None {
            before.push(n - 1)
        } else {
            before
        }
    }
}

/// What has to be embedded: the query, then each text of which no embedding is
/// kept.
pub open spec fn batch_of(
    query: Seq<char>,
    cs: Seq<ChunkView>,
    ranked: Seq<Scored>,
    tag: Seq<char>,
    c: CacheView,
) -> Seq<Seq<char>> {
    let keys = head_keys(cs, ranked, tag);
    seq![query] + misses_of(keys, c, keys.len()).map_values(|i: int| head_texts(cs, ranked)[i])
}

/// The texts to embed, the keys of the head, and which of them are missing.
pub struct Batch {
    pub texts: Vec<String>,
    pub keys: Vec<u64>,
    pub misses: Vec<usize>,
}

pub open spec fn positions(v: Seq<usize>) -> Seq<int> {
    v.map_values(|i: usize| i as int)
}

/// Decides what a search has to embed. With one section or none there is nothing
/// to weigh.
pub fn plan_batch(
    query: &str,
    cs: &Vec<Chunk>,
    ranked: &Vec<Scored>,
    tag: &str,
    cache: &Cache,
) -> (r: Option<Batch>)
    requires
        forall|i: int| 0 <= i < ranked@.len() ==> (#[trigger] ranked@[i]).at < cs@.len(),
    ensures
        r is None <==> ranked@.len() <= 1,
        r matches Some(b) ==> b.keys@ == head_keys(chunk_views(cs@), ranked@, tag@) && positions(
            b.misses@,
        ) == misses_of(b.keys@, cache@, b.keys@.len()) && strs(b.texts@) == batch_of(
            query@,
            chunk_views(cs@),
            ranked@,
            tag@,
            cache@,
        ),
{
    if ranked.len() <= 1 {
        return None;
    }
    let ghost all = chunk_views(cs@);
    let ghost texts_all = head_texts(all, ranked@);
    let ghost keys_all = head_keys(all, ranked@, tag@);
    let n: usize = if ranked.len() < HEAD {
        ranked.len()
    } else {
        HEAD
    };
    let mut texts: Vec<String> = Vec::new();
    texts.push(copy(query));
    assert(strs(texts@) =~= seq![query@]);
    let mut keys: Vec<u64> = Vec::new();
    let mut misses: Vec<usize> = Vec::new();
    let ghost pick = |i: int| texts_all[i];
    assert(positions(misses@) =~= Seq::empty());
    assert(seq![query@] + Seq::<int>::empty().map_values(pick) =~= seq![query@]);
    for i in 0..n
        invariant
            n == head_size(ranked@.len()),
            n <= ranked@.len(),
            all == chunk_views(cs@),
            texts_all == head_texts(all, ranked@),
            keys_all == head_keys(all, ranked@, tag@),
            pick == (|i: int| texts_all[i]),
            forall|i: int| 0 <= i < ranked@.len() ==> (#[trigger] ranked@[i]).at < cs@.len(),
            keys@.len() == i,
            forall|k: int| 0 <= k < i ==> #[trigger] keys@[k] == keys_all[k],
            positions(misses@) == misses_of(keys_all, cache@, i as nat),
            strs(texts@) == seq![query@] + misses_of(keys_all, cache@, i as nat).map_values(pick),
    {
        let p: usize = ranked[i].at;
        assert(ranked@[i as int].at < cs@.len());
        assert(all[p as int] == cs@[p as int]@);
        let mut t = copy(cs[p].heading.as_str());
        t.append("\n");
        t.append(cs[p].body.as_str());
        assert(t@ == texts_all[i as int]);
        let key: u64 = key_of(tag, t.as_str());
        keys.push(key);
        if !cache.contains(key) {
            let ghost old_misses = misses@;
            let ghost old_texts = texts@;
            let ghost ms = misses_of(keys_all, cache@, i as nat);
            misses.push(i);
            texts.push(t);
            assert(positions(misses@) =~= positions(old_misses).push(i as int));
            assert(strs(texts@) =~= strs(old_texts).push(t@));
            assert(ms.push(i as int).map_values(pick) =~= ms.map_values(pick).push(t@));
            assert(seq![query@] + ms.map_values(pick).push(t@) =~= (seq![query@] + ms.map_values(
                pick,
            )).push(t@));
        }
    }
    assert(keys@ =~= keys_all);
    assert(misses_of(keys_all, cache@, n as nat).map_values(pick) =~= misses_of(
        keys_all,
        cache@,
        n as nat,
    ).map_values(|i: int| head_texts(all, ranked@)[i]));
    Some(Batch { texts, keys, misses })
}

/// The embeddings after those of the first `n` missing texts were taken in.
pub open spec fn taken_in(
    c: CacheView,
    keys: Seq<u64>,
    misses: Seq<int>,
    found: Seq<Seq<u32>>,
    n: nat,
) -> CacheView
    decreases n,
{
    if n == 0 {
        c
    } else {
        offered(
            taken_in(c, keys, misses, found, (n - 1) as nat),
            keys[misses[n - 1]],
            found[n as int],
        )
    }
}

pub open spec fn bit_views(v: Seq<Vec<u32>>) -> Seq<Seq<u32>> {
    Seq::new(v.len(), |i: int| v[i]@)
}

fn copy_bits(v: &Vec<u32>) -> (r: Vec<u32>)
    ensures
        r@ == v@,
{
    let mut out: Vec<u32> = Vec::new();
    for i in 0..v.len()
        invariant
            out@ == v@.take(i as int),
    {
        out.push(v[i]);
        assert(v@.take(i + 1) =~= v@.take(i as int).push(v@[i as int]));
    }
    assert(v@.take(v@.len() as int) =~= v@);
    out
}

/// Takes in the embeddings of a batch; the first of them is the query's, which is
/// not kept. There is something to write if there was before, or if one was taken.
pub fn take_batch(cache: &mut Cache, b: &Batch, found: &Vec<Vec<u32>>)
    requires
        found@.len() > b.misses@.len(),
        forall|i: int| 0 <= i < b.misses@.len() ==> (#[trigger] b.misses@[i]) < b.keys@.len(),
    ensures
        final(cache)@ == taken_in(
            old(cache)@,
            b.keys@,
            positions(b.misses@),
            bit_views(found@),
            b.misses@.len(),
        ),
        old(cache)@.sound() && (forall|i: int|
            0 <= i < found@.len() ==> (#[trigger] found@[i])@.len() > 0) ==> final(cache)@.sound(),
{
    let ghost first = cache@;
    let ghost ms = positions(b.misses@);
    let ghost fv = bit_views(found@);
    for i in 0..b.misses.len()
        invariant
            ms == positions(b.misses@),
            fv == bit_views(found@),
            found@.len() > b.misses@.len(),
            forall|i: int| 0 <= i < b.misses@.len() ==> (#[trigger] b.misses@[i]) < b.keys@.len(),
            first.sound() && (forall|i: int|
                0 <= i < found@.len() ==> (#[trigger] found@[i])@.len() > 0) ==> cache@.sound(),
            cache@ == taken_in(first, b.keys@, ms, fv, i as nat),
    {
        let p: usize = b.misses[i];
        assert(b.misses@[i as int] < b.keys@.len());
        assert(ms[i as int] == p);
        assert(found@.len() == found.len());
        let e = copy_bits(&found[i + 1]);
        assert(found@[i + 1]@ == e@);
        assert(fv[i + 1] == e@);
        cache.insert(b.keys[p], e);
    }
}

/// A ranking of which the head was weighed anew: the head in its new order, then
/// the rest as it was.
pub open spec fn reranked(head: Seq<Scored>, ranked: Seq<Scored>) -> Seq<Scored> {
    by_score(head) + ranked.skip(head_size(ranked.len()) as int)
}

pub fn rerank(head: &Vec<Scored>, ranked: &Vec<Scored>) -> (r: Vec<Scored>)
    ensures
        r@ == reranked(head@, ranked@),
{
    let mut out = rank(head);
    let n: usize = if ranked.len() < HEAD {
        ranked.len()
    } else {
        HEAD
    };
    let ghost sorted = out@;
    for i in n..ranked.len()
        invariant
            n == head_size(ranked@.len()),
            n <= ranked@.len(),
            out@ == sorted + ranked@.subrange(n as int, i as int),
    {
        out.push(ranked[i]);
        assert(ranked@.subrange(n as int, i + 1) =~= ranked@.subrange(n as int, i as int).push(
            ranked@[i as int],
        ));
    }
    assert(out@ =~= reranked(head@, ranked@));
    out
}

} // verus!
