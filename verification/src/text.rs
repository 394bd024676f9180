//! Text as sequences of characters: trimming, splitting, searching, cutting by
//! encoded size, and decimal numbers.
use vstd::prelude::*;
use vstd::utf8::{encode_scalar, encode_utf8};

verus! {

/// `String::push` appends one character at the end.
pub assume_specification[ String::push ](s: &mut String, c: char)
    ensures
        final(s)@ == old(s)@.push(c),
;

/// Equality of two string slices (`str`'s `==`): they hold the same characters.
#[verifier::external_body]
pub(crate) fn same(a: &str, b: &str) -> (r: bool)
    ensures
        r == (a@ == b@),
{
    a == b
}

/// What `{:?}` prints for a text: quoted and escaped.
pub uninterp spec fn quoted(s: Seq<char>) -> Seq<char>;

/// The `Debug` rendering of a `str` (`format!("{s:?}")`). Its escapes follow
/// std's own tables, so the result is only named.
#[verifier::external_body]
pub(crate) fn quote(s: &str) -> (r: String)
    ensures
        r@ == quoted(s@),
{
    format!("{s:?}")
}

/// The text of a result and of its error.
pub open spec fn outcome(r: Result<String, String>) -> Result<Seq<char>, Seq<char>> {
    match r {
        Ok(s) => Ok(s@),
        Err(s) => Err(s@),
    }
}

/// The error text of a result that carries no value.
pub open spec fn verdict(r: Result<(), String>) -> Result<(), Seq<char>> {
    match r {
        Ok(()) => Ok(()),
        Err(s) => Err(s@),
    }
}

/// The characters with the Unicode property `White_Space`.
pub open spec fn white(c: char) -> bool {
    let u = c as u32;
    ||| 0x09 <= u <= 0x0d
    ||| u == 0x20
    ||| u == 0x85
    ||| u == 0xa0
    ||| u == 0x1680
    ||| 0x2000 <= u <= 0x200a
    ||| u == 0x2028
    ||| u == 0x2029
    ||| u == 0x202f
    ||| u == 0x205f
    ||| u == 0x3000
}

pub fn is_white(c: char) -> (r: bool)
    ensures
        r == white(c),
{
    let u: u32 = c as u32;
    (0x09 <= u && u <= 0x0d) || u == 0x20 || u == 0x85 || u == 0xa0 || u == 0x1680 || (0x2000 <= u
        && u <= 0x200a) || u == 0x2028 || u == 0x2029 || u == 0x202f || u == 0x205f || u == 0x3000
}

/// The texts of a list of strings.
pub open spec fn strs(v: Seq<String>) -> Seq<Seq<char>> {
    Seq::new(v.len(), |i: int| v[i]@)
}

/// The size of a text in UTF-8 bytes.
pub open spec fn blen(s: Seq<char>) -> nat {
    encode_utf8(s).len()
}

/// The size of one character in UTF-8 bytes.
pub open spec fn width(c: char) -> nat {
    let u = c as u32;
    if u <= 0x7f {
        1
    } else if u <= 0x7ff {
        2
    } else if u <= 0xffff {
        3
    } else {
        4
    }
}

pub proof fn lemma_blen_cons(c: char, s: Seq<char>)
    ensures
        blen(seq![c] + s) == width(c) + blen(s),
{
    let t = seq![c] + s;
    assert(t.drop_first() =~= s);
    assert(t[0] == c);
    vstd::utf8::char_is_scalar(c);
}

/// Sizes add up under concatenation.
pub proof fn lemma_blen_add(a: Seq<char>, b: Seq<char>)
    ensures
        blen(a + b) == blen(a) + blen(b),
    decreases a.len(),
{
    if a.len() == 0 {
        assert(a + b =~= b);
        assert(blen(a) == 0);
    } else {
        let t = a.drop_first();
        assert(a =~= seq![a[0]] + t);
        assert(a + b =~= seq![a[0]] + (t + b));
        lemma_blen_cons(a[0], t + b);
        lemma_blen_cons(a[0], t);
        lemma_blen_add(t, b);
    }
}

pub proof fn lemma_blen_push(a: Seq<char>, c: char)
    ensures
        blen(a.push(c)) == blen(a) + width(c),
{
    let e = Seq::<char>::empty();
    assert(a.push(c) =~= a + (seq![c] + e));
    lemma_blen_add(a, seq![c] + e);
    lemma_blen_cons(c, e);
    assert(blen(e) == 0);
}

/// A prefix is no larger than the whole.
pub proof fn lemma_blen_take(s: Seq<char>, n: int)
    requires
        0 <= n <= s.len(),
    ensures
        n <= blen(s.take(n)) <= blen(s),
        blen(s.take(n)) <= 4 * n,
    decreases n,
{
    assert(s =~= s.take(n) + s.skip(n));
    lemma_blen_add(s.take(n), s.skip(n));
    if n > 0 {
        lemma_blen_take(s, n - 1);
        assert(s.take(n) =~= s.take(n - 1).push(s[n - 1]));
        lemma_blen_push(s.take(n - 1), s[n - 1]);
    }
}

/// The bytes of texts that are put together stand one behind the other.
pub proof fn lemma_bytes_add(a: Seq<char>, b: Seq<char>)
    ensures
        encode_utf8(a + b) == encode_utf8(a) + encode_utf8(b),
    decreases a.len(),
{
    if a.len() == 0 {
        assert(a + b =~= b);
        assert(encode_utf8(a) + encode_utf8(b) =~= encode_utf8(b));
    } else {
        assert((a + b).drop_first() =~= a.drop_first() + b);
        lemma_bytes_add(a.drop_first(), b);
        assert(encode_utf8(a + b) =~= encode_utf8(a) + encode_utf8(b));
    }
}

/// The bytes of one character.
pub proof fn lemma_bytes_one(c: char)
    ensures
        encode_utf8(seq![c]) == encode_scalar(c as u32),
        encode_scalar(c as u32).len() == width(c),
{
    assert(seq![c].drop_first() =~= Seq::<char>::empty());
    assert(encode_utf8(Seq::<char>::empty()) =~= Seq::<u8>::empty());
    assert(encode_utf8(seq![c]) =~= encode_scalar(c as u32));
    vstd::utf8::char_is_scalar(c);
}

/// The bytes of a character stand behind those of the characters before it.
pub proof fn lemma_byte_at(s: Seq<char>, i: int, d: int)
    requires
        0 <= i < s.len(),
        0 <= d < width(s[i]),
    ensures
        0 <= blen(s.take(i)) + d < blen(s),
        encode_utf8(s)[blen(s.take(i)) + d] == encode_scalar(s[i] as u32)[d],
{
    assert(s =~= s.take(i) + seq![s[i]] + s.skip(i + 1));
    lemma_bytes_add(s.take(i) + seq![s[i]], s.skip(i + 1));
    lemma_bytes_add(s.take(i), seq![s[i]]);
    lemma_bytes_one(s[i]);
}

/// No byte of a character is a line feed but that of the line feed.
pub proof fn lemma_line_feed(c: char, d: int)
    requires
        0 <= d < width(c),
    ensures
        encode_scalar(c as u32)[d] == 0x0a <==> c == '\n',
{
    let u = c as u32;
    vstd::utf8::char_is_scalar(c);
    assert(u <= 0x7f ==> ((u & 0x7f) as u8 == 0x0a <==> u == 0x0a)) by (bit_vector);
    assert(forall|x: u8| #[trigger] (0xc0 | x) != 0x0a) by (bit_vector);
    assert(forall|x: u8| #[trigger] (0xe0 | x) != 0x0a) by (bit_vector);
    assert(forall|x: u8| #[trigger] (0xf0 | x) != 0x0a) by (bit_vector);
    assert(forall|x: u8| #[trigger] (0x80 | x) != 0x0a) by (bit_vector);
}

/// The UTF-8 size of a string slice.
pub fn size(s: &str) -> (r: usize)
    ensures
        r == blen(s@),
{
    s.as_bytes().len()
}

pub fn to_chars(s: &str) -> (r: Vec<char>)
    ensures
        r@ == s@,
{
    let mut out: Vec<char> = Vec::new();
    for c in it: s.chars()
        invariant
            out@ == it.seq().take(it.index()),
            it.seq() == s@,
    {
        out.push(c);
    }
    out
}

/// The characters from `a` up to `b`.
pub fn slice(v: &Vec<char>, a: usize, b: usize) -> (r: String)
    requires
        a <= b <= v@.len(),
    ensures
        r@ == v@.subrange(a as int, b as int),
{
    let mut out = String::new();
    let mut i: usize = a;
    while i < b
        invariant
            a <= i <= b <= v@.len(),
            out@ == v@.subrange(a as int, i as int),
        decreases b - i,
    {
        out.push(v[i]);
        assert(v@.subrange(a as int, i + 1) =~= v@.subrange(a as int, i as int).push(v@[i as int]));
        i += 1;
    }
    out
}

pub fn copy(s: &str) -> (r: String)
    ensures
        r@ == s@,
{
    s.to_owned()
}

pub fn copy_opt(s: &Option<String>) -> (r: Option<String>)
    ensures
        opt_text(r) == opt_text(*s),
{
    match s {
        Some(t) => Some(copy(t.as_str())),
        None => None,
    }
}

/// Whether a list holds a text.
pub open spec fn among(v: Seq<Seq<char>>, s: Seq<char>) -> bool {
    exists|i: int| 0 <= i < v.len() && v[i] == s
}

pub fn is_among(v: &Vec<String>, s: &str) -> (r: bool)
    ensures
        r == among(strs(v@), s@),
{
    for i in 0..v.len()
        invariant
            forall|j: int| 0 <= j < i ==> v@[j]@ != s@,
    {
        if same(v[i].as_str(), s) {
            assert(strs(v@)[i as int] == s@);
            return true;
        }
    }
    assert forall|j: int| 0 <= j < strs(v@).len() implies strs(v@)[j] != s@ by {
        assert(v@[j]@ != s@);
    }
    false
}

/// Whether two lists hold the same texts in the same order.
pub fn same_all(a: &Vec<String>, b: &Vec<String>) -> (r: bool)
    ensures
        r == (strs(a@) == strs(b@)),
{
    if a.len() != b.len() {
        assert(strs(a@).len() != strs(b@).len());
        return false;
    }
    for i in 0..a.len()
        invariant
            a@.len() == b@.len(),
            forall|j: int| 0 <= j < i ==> a@[j]@ == b@[j]@,
    {
        if !same(a[i].as_str(), b[i].as_str()) {
            assert(strs(a@)[i as int] != strs(b@)[i as int]);
            return false;
        }
    }
    assert(strs(a@) =~= strs(b@));
    true
}

/// Appends one string to a list.
pub proof fn lemma_strs_push(v: Seq<String>, s: String)
    ensures
        strs(v.push(s)) == strs(v).push(s@),
{
    assert(strs(v.push(s)) =~= strs(v).push(s@));
}

pub fn no_strings() -> (r: Vec<String>)
    ensures
        strs(r@) == Seq::<Seq<char>>::empty(),
{
    let out: Vec<String> = Vec::new();
    assert(strs(out@) =~= Seq::<Seq<char>>::empty());
    out
}

/// Whether a text holds no character.
pub fn is_blank(s: &str) -> (r: bool)
    ensures
        r == (s@.len() == 0),
        r == (s@ == Seq::<char>::empty()),
{
    let r: bool = s.is_empty();
    assert(s@.len() == 0 ==> s@ =~= Seq::<char>::empty());
    r
}

/// The text of an optional string.
pub open spec fn opt_text(s: Option<String>) -> Option<Seq<char>> {
    match s {
        Some(t) => Some(t@),
        None => None,
    }
}

pub fn copy_all(v: &Vec<String>) -> (r: Vec<String>)
    ensures
        strs(r@) == strs(v@),
{
    let mut out: Vec<String> = Vec::new();
    for i in 0..v.len()
        invariant
            out@.len() == i,
            forall|j: int| 0 <= j < i ==> out@[j]@ == v@[j]@,
    {
        out.push(copy(v[i].as_str()));
    }
    assert(strs(out@) =~= strs(v@));
    out
}

/// Whether `pat` stands in `s` at position `i`.
pub open spec fn occurs_at(s: Seq<char>, pat: Seq<char>, i: int) -> bool {
    0 <= i && i + pat.len() <= s.len() && s.subrange(i, i + pat.len()) == pat
}

/// The first position at or behind `from` where `pat` stands in `s`.
pub open spec fn find_from(s: Seq<char>, pat: Seq<char>, from: int) -> Option<int>
    decreases s.len() - from,
{
    if from < 0 || from + pat.len() > s.len() {
        None
    } else if occurs_at(s, pat, from) {
        Some(from)
    } else if from < s.len() {
        find_from(s, pat, from + 1)
    } else {
        None
    }
}

/// Whether `pat` stands anywhere in `s`.
pub open spec fn holds(s: Seq<char>, pat: Seq<char>) -> bool {
    find_from(s, pat, 0) is Some
}

pub proof fn lemma_find_from(s: Seq<char>, pat: Seq<char>, from: int)
    requires
        0 <= from,
    ensures
        match find_from(s, pat, from) {
            Some(i) => from <= i && occurs_at(s, pat, i) && (forall|j: int|
                from <= j < i ==> !occurs_at(s, pat, j)),
            None => forall|j: int| from <= j ==> !occurs_at(s, pat, j),
        },
    decreases s.len() - from,
{
    if from + pat.len() > s.len() {
    } else if occurs_at(s, pat, from) {
    } else if from < s.len() {
        lemma_find_from(s, pat, from + 1);
    }
}

/// A text holds a pattern if and only if the pattern occurs at some place in it.
pub proof fn law_held_where_it_occurs(s: Seq<char>, pat: Seq<char>)
    ensures
        holds(s, pat) <==> exists|i: int| occurs_at(s, pat, i),
{
    lemma_find_from(s, pat, 0);
    if exists|i: int| occurs_at(s, pat, i) {
        let i = choose|i: int| occurs_at(s, pat, i);
        assert(0 <= i);
    }
}

pub fn stands_at(s: &Vec<char>, pat: &Vec<char>, at: usize) -> (r: bool)
    ensures
        r == occurs_at(s@, pat@, at as int),
{
    if at > s.len() || pat.len() > s.len() - at {
        return false;
    }
    let mut k: usize = 0;
    while k < pat.len()
        invariant
            k <= pat@.len(),
            at + pat.len() <= s.len(),
            forall|j: int| 0 <= j < k ==> s@[at + j] == pat@[j],
        decreases pat@.len() - k,
    {
        if s[at + k] != pat[k] {
            assert(s@.subrange(at as int, at + pat@.len())[k as int] != pat@[k as int]);
            return false;
        }
        k += 1;
    }
    assert(s@.subrange(at as int, at + pat@.len()) =~= pat@);
    true
}

pub fn find(s: &Vec<char>, pat: &Vec<char>, from: usize) -> (r: Option<usize>)
    ensures
        match r {
            Some(i) => find_from(s@, pat@, from as int) == Some(i as int) && i + pat@.len()
                <= s@.len(),
            None => find_from(s@, pat@, from as int) is None,
        },
{
    let mut i: usize = from;
    while i <= s.len() && pat.len() <= s.len() - i
        invariant
            from <= i,
            from <= s@.len() ==> i <= s@.len() + 1,
            find_from(s@, pat@, from as int) == find_from(s@, pat@, i as int),
        decreases s@.len() + 1 - i,
    {
        if stands_at(s, pat, i) {
            return Some(i);
        }
        if i == s.len() {
            return None;
        }
        i += 1;
    }
    None
}

pub fn contains(s: &str, pat: &str) -> (r: bool)
    ensures
        r == holds(s@, pat@),
{
    let a = to_chars(s);
    let b = to_chars(pat);
    find(&a, &b, 0).is_some()
}

pub open spec fn starts(s: Seq<char>, pat: Seq<char>) -> bool {
    pat.len() <= s.len() && s.take(pat.len() as int) == pat
}

pub open spec fn ends(s: Seq<char>, pat: Seq<char>) -> bool {
    pat.len() <= s.len() && s.skip(s.len() - pat.len()) == pat
}

pub fn starts_with(s: &str, pat: &str) -> (r: bool)
    ensures
        r == starts(s@, pat@),
{
    let a = to_chars(s);
    let b = to_chars(pat);
    assert(pat@.len() <= s@.len() ==> s@.take(pat@.len() as int) =~= s@.subrange(
        0,
        pat@.len() as int,
    ));
    stands_at(&a, &b, 0)
}

pub fn ends_with(s: &str, pat: &str) -> (r: bool)
    ensures
        r == ends(s@, pat@),
{
    let a = to_chars(s);
    let b = to_chars(pat);
    if b.len() > a.len() {
        return false;
    }
    let at: usize = a.len() - b.len();
    assert(s@.skip(at as int) =~= s@.subrange(at as int, at + pat@.len()));
    stands_at(&a, &b, at)
}

pub open spec fn has_char(s: Seq<char>, c: char) -> bool {
    exists|i: int| 0 <= i < s.len() && s[i] == c
}

pub fn contains_char(s: &str, c: char) -> (r: bool)
    ensures
        r == has_char(s@, c),
{
    let v = to_chars(s);
    for i in 0..v.len()
        invariant
            v@ == s@,
            forall|j: int| 0 <= j < i ==> v@[j] != c,
    {
        if v[i] == c {
            return true;
        }
    }
    false
}

// ---------------------------------------------------------------------------
// Trimming

/// Without the leading characters that satisfy `p`.
pub open spec fn trim_start_by(s: Seq<char>, p: spec_fn(char) -> bool) -> Seq<char>
    decreases s.len(),
{
    if s.len() > 0 && p(s[0]) {
        trim_start_by(s.drop_first(), p)
    } else {
        s
    }
}

/// Without the trailing characters that satisfy `p`.
pub open spec fn trim_end_by(s: Seq<char>, p: spec_fn(char) -> bool) -> Seq<char>
    decreases s.len(),
{
    if s.len() > 0 && p(s.last()) {
        trim_end_by(s.drop_last(), p)
    } else {
        s
    }
}

/// Without the white space at both ends.
pub open spec fn trimmed(s: Seq<char>) -> Seq<char> {
    trim_end_by(trim_start_by(s, |c: char| white(c)), |c: char| white(c))
}

/// The predicate of being the character `c`.
pub open spec fn is_char(c: char) -> spec_fn(char) -> bool {
    |x: char| x == c
}

/// Without the character `c` at both ends.
pub open spec fn trimmed_of(s: Seq<char>, c: char) -> Seq<char> {
    trim_end_by(trim_start_by(s, is_char(c)), is_char(c))
}

pub proof fn lemma_trim_start_at(s: Seq<char>, p: spec_fn(char) -> bool, n: int)
    requires
        0 <= n <= s.len(),
        forall|j: int| 0 <= j < n ==> p(#[trigger] s[j]),
        n == s.len() || !p(s[n]),
    ensures
        trim_start_by(s, p) == s.skip(n),
    decreases n,
{
    if n == 0 {
        assert(s.skip(0) =~= s);
    } else {
        assert(p(s[0]));
        let t = s.drop_first();
        assert forall|j: int| 0 <= j < n - 1 implies p(#[trigger] t[j]) by {
            assert(t[j] == s[j + 1]);
        }
        lemma_trim_start_at(t, p, n - 1);
        assert(t.skip(n - 1) =~= s.skip(n));
    }
}

pub proof fn lemma_trim_end_at(s: Seq<char>, p: spec_fn(char) -> bool, n: int)
    requires
        0 <= n <= s.len(),
        forall|j: int| n <= j < s.len() ==> p(#[trigger] s[j]),
        n == 0 || !p(s[n - 1]),
    ensures
        trim_end_by(s, p) == s.take(n),
    decreases s.len() - n,
{
    if n == s.len() {
        assert(s.take(n) =~= s);
    } else {
        assert(p(s[s.len() - 1]));
        let t = s.drop_last();
        assert forall|j: int| n <= j < t.len() implies p(#[trigger] t[j]) by {
            assert(t[j] == s[j]);
        }
        assert(n > 0 ==> t[n - 1] == s[n - 1]);
        lemma_trim_end_at(t, p, n);
        assert(t.take(n) =~= s.take(n));
    }
}

/// Trimming leaves a part of the text, whose ends do not satisfy `p`.
pub proof fn lemma_trim_shape(s: Seq<char>, p: spec_fn(char) -> bool)
    ensures
        ({
            let t = trim_end_by(trim_start_by(s, p), p);
            &&& t.len() <= s.len()
            &&& t.len() > 0 ==> !p(t[0]) && !p(t.last())
            &&& exists|a: int| 0 <= a && a + t.len() <= s.len() && t == #[trigger] s.subrange(
                a,
                a + t.len(),
            )
        }),
{
    let a = lemma_start_index(s, p);
    let u = s.skip(a);
    let n = lemma_end_index(u, p);
    let t = u.take(n);
    assert(t =~= s.subrange(a, a + n));
    if n > 0 {
        assert(t[0] == s[a]);
        assert(t.last() == u[n - 1]);
    }
}

proof fn lemma_start_index(s: Seq<char>, p: spec_fn(char) -> bool) -> (n: int)
    ensures
        0 <= n <= s.len(),
        forall|j: int| 0 <= j < n ==> p(#[trigger] s[j]),
        n == s.len() || !p(s[n]),
        trim_start_by(s, p) == s.skip(n),
    decreases s.len(),
{
    if s.len() > 0 && p(s[0]) {
        let t = s.drop_first();
        let m = lemma_start_index(t, p);
        assert forall|j: int| 0 <= j < m + 1 implies p(#[trigger] s[j]) by {
            if j > 0 {
                assert(s[j] == t[j - 1]);
            }
        }
        assert(t.skip(m) =~= s.skip(m + 1));
        assert(m < t.len() ==> t[m] == s[m + 1]);
        m + 1
    } else {
        assert(s.skip(0) =~= s);
        0
    }
}

proof fn lemma_end_index(s: Seq<char>, p: spec_fn(char) -> bool) -> (n: int)
    ensures
        0 <= n <= s.len(),
        forall|j: int| n <= j < s.len() ==> p(#[trigger] s[j]),
        n == 0 || !p(s[n - 1]),
        trim_end_by(s, p) == s.take(n),
    decreases s.len(),
{
    if s.len() > 0 && p(s.last()) {
        let t = s.drop_last();
        let m = lemma_end_index(t, p);
        assert forall|j: int| m <= j < s.len() implies p(#[trigger] s[j]) by {
            if j < t.len() {
                assert(s[j] == t[j]);
            }
        }
        assert(t.take(m) =~= s.take(m));
        assert(m > 0 ==> t[m - 1] == s[m - 1]);
        m
    } else {
        assert(s.take(s.len() as int) =~= s);
        s.len() as int
    }
}

/// Trimming a trimmed text changes nothing.
pub proof fn lemma_trim_idempotent(s: Seq<char>)
    ensures
        trimmed(trimmed(s)) == trimmed(s),
{
    let p = |c: char| white(c);
    lemma_trim_shape(s, p);
    let t = trimmed(s);
    lemma_trim_start_at(t, p, 0);
    assert(t.skip(0) =~= t);
    lemma_trim_end_at(t, p, t.len() as int);
    assert(t.take(t.len() as int) =~= t);
}

pub fn trim(s: &str) -> (r: String)
    ensures
        r@ == trimmed(s@),
{
    let v = to_chars(s);
    let ghost p = |c: char| white(c);
    let mut a: usize = 0;
    while a < v.len() && is_white(v[a])
        invariant
            v@ == s@,
            a <= v@.len(),
            p == (|c: char| white(c)),
            forall|j: int| 0 <= j < a ==> p(#[trigger] v@[j]),
        decreases v@.len() - a,
    {
        a += 1;
    }
    proof {
        lemma_trim_start_at(s@, p, a as int);
    }
    let ghost u = s@.skip(a as int);
    let mut b: usize = v.len();
    while b > a && is_white(v[b - 1])
        invariant
            v@ == s@,
            a <= b <= v@.len(),
            p == (|c: char| white(c)),
            u == s@.skip(a as int),
            forall|j: int| b - a <= j < u.len() ==> p(#[trigger] u[j]),
        decreases b,
    {
        b -= 1;
    }
    proof {
        assert(b > a ==> u[b - a - 1] == v@[b - 1]);
        lemma_trim_end_at(u, p, b - a);
        assert(u.take(b - a) =~= s@.subrange(a as int, b as int));
    }
    slice(&v, a, b)
}

pub fn trim_of(s: &str, c: char) -> (r: String)
    ensures
        r@ == trimmed_of(s@, c),
{
    let v = to_chars(s);
    let ghost p = is_char(c);
    let mut a: usize = 0;
    while a < v.len() && v[a] == c
        invariant
            v@ == s@,
            a <= v@.len(),
            p == is_char(c),
            forall|j: int| 0 <= j < a ==> p(#[trigger] v@[j]),
        decreases v@.len() - a,
    {
        a += 1;
    }
    proof {
        lemma_trim_start_at(s@, p, a as int);
    }
    let t = slice(&v, a, v.len());
    assert(t@ =~= s@.skip(a as int));
    trim_end_of(t.as_str(), c)
}

/// Without the trailing copies of `c`.
pub open spec fn trimmed_end_of(s: Seq<char>, c: char) -> Seq<char> {
    trim_end_by(s, is_char(c))
}

pub fn trim_end_of(s: &str, c: char) -> (r: String)
    ensures
        r@ == trimmed_end_of(s@, c),
{
    let v = to_chars(s);
    let ghost p = is_char(c);
    let mut b: usize = v.len();
    while b > 0 && v[b - 1] == c
        invariant
            v@ == s@,
            b <= v@.len(),
            p == is_char(c),
            forall|j: int| b <= j < s@.len() ==> p(#[trigger] s@[j]),
        decreases b,
    {
        b -= 1;
    }
    proof {
        lemma_trim_end_at(s@, p, b as int);
        assert(s@.take(b as int) =~= s@.subrange(0, b as int));
    }
    slice(&v, 0, b)
}

/// Without the white space at the end.
pub open spec fn trimmed_end(s: Seq<char>) -> Seq<char> {
    trim_end_by(s, is_space())
}

pub fn trim_end(s: &str) -> (r: String)
    ensures
        r@ == trimmed_end(s@),
{
    let v = to_chars(s);
    let mut n: usize = v.len();
    assert(s@.take(s@.len() as int) =~= s@);
    while n > 0 && is_white(v[n - 1])
        invariant
            v@ == s@,
            n <= v@.len(),
            trimmed_end(s@) == trimmed_end(s@.take(n as int)),
        decreases n,
    {
        assert(s@.take(n as int).drop_last() =~= s@.take(n - 1));
        n = n - 1;
    }
    assert(s@.subrange(0, n as int) =~= s@.take(n as int));
    slice(&v, 0, n)
}

/// Without the white space at the start.
pub open spec fn trimmed_start(s: Seq<char>) -> Seq<char> {
    trim_start_by(s, is_space())
}

pub fn trim_start(s: &str) -> (r: String)
    ensures
        r@ == trimmed_start(s@),
{
    let v = to_chars(s);
    let mut n: usize = 0;
    assert(s@.skip(0) =~= s@);
    while n < v.len() && is_white(v[n])
        invariant
            v@ == s@,
            n <= v@.len(),
            trimmed_start(s@) == trimmed_start(s@.skip(n as int)),
        decreases v@.len() - n,
    {
        assert(s@.skip(n as int).drop_first() =~= s@.skip(n + 1));
        n = n + 1;
    }
    assert(s@.subrange(n as int, s@.len() as int) =~= s@.skip(n as int));
    slice(&v, n, v.len())
}

/// Without the leading copies of `c`.
pub open spec fn trimmed_start_of(s: Seq<char>, c: char) -> Seq<char> {
    trim_start_by(s, is_char(c))
}

pub fn trim_start_of(s: &str, c: char) -> (r: String)
    ensures
        r@ == trimmed_start_of(s@, c),
{
    let v = to_chars(s);
    let mut n: usize = 0;
    assert(s@.skip(0) =~= s@);
    while n < v.len() && v[n] == c
        invariant
            v@ == s@,
            n <= v@.len(),
            trimmed_start_of(s@, c) == trimmed_start_of(s@.skip(n as int), c),
        decreases v@.len() - n,
    {
        assert(s@.skip(n as int).drop_first() =~= s@.skip(n + 1));
        n = n + 1;
    }
    assert(s@.subrange(n as int, s@.len() as int) =~= s@.skip(n as int));
    slice(&v, n, v.len())
}

/// Without the leading copies of a text.
pub open spec fn stripped_start(s: Seq<char>, pat: Seq<char>) -> Seq<char>
    decreases s.len(),
{
    if pat.len() > 0 && starts(s, pat) {
        stripped_start(s.skip(pat.len() as int), pat)
    } else {
        s
    }
}

/// Without the trailing copies of a text.
pub open spec fn stripped_end(s: Seq<char>, pat: Seq<char>) -> Seq<char>
    decreases s.len(),
{
    if pat.len() > 0 && ends(s, pat) {
        stripped_end(s.take(s.len() - pat.len()), pat)
    } else {
        s
    }
}

pub fn strip_start(s: &str, pat: &str) -> (r: String)
    ensures
        r@ == stripped_start(s@, pat@),
{
    let v = to_chars(s);
    let p = to_chars(pat);
    let mut n: usize = 0;
    assert(s@.skip(0) =~= s@);
    while p.len() > 0 && stands_at(&v, &p, n)
        invariant
            v@ == s@,
            p@ == pat@,
            n <= v@.len(),
            stripped_start(s@, pat@) == stripped_start(s@.skip(n as int), pat@),
        decreases v@.len() - n,
    {
        let ghost t = s@.skip(n as int);
        assert(t.subrange(0, pat@.len() as int) =~= s@.subrange(n as int, n + pat@.len()));
        assert(t.skip(pat@.len() as int) =~= s@.skip(n + pat@.len()));
        assert(v@.len() == v.len());
        n = n + p.len();
    }
    proof {
        let t = s@.skip(n as int);
        if p@.len() > 0 && starts(t, pat@) {
            assert(t.subrange(0, pat@.len() as int) =~= s@.subrange(n as int, n + pat@.len()));
        }
    }
    assert(s@.subrange(n as int, s@.len() as int) =~= s@.skip(n as int));
    slice(&v, n, v.len())
}

pub fn strip_end(s: &str, pat: &str) -> (r: String)
    ensures
        r@ == stripped_end(s@, pat@),
{
    let v = to_chars(s);
    let p = to_chars(pat);
    let mut n: usize = v.len();
    assert(s@.take(s@.len() as int) =~= s@);
    while p.len() > 0 && p.len() <= n && stands_at(&v, &p, n - p.len())
        invariant
            v@ == s@,
            p@ == pat@,
            n <= v@.len(),
            stripped_end(s@, pat@) == stripped_end(s@.take(n as int), pat@),
        decreases n,
    {
        let ghost t = s@.take(n as int);
        let ghost k = pat@.len();
        assert(t.subrange(n - k, n as int) =~= s@.subrange(n - k, n - k + k));
        assert(t.take(n - k) =~= s@.take(n - k));
        n = n - p.len();
    }
    proof {
        let t = s@.take(n as int);
        let k = pat@.len();
        if k > 0 && ends(t, pat@) {
            assert(t.subrange(n - k, n as int) =~= s@.subrange(n - k, n - k + k));
        }
    }
    assert(s@.subrange(0, n as int) =~= s@.take(n as int));
    slice(&v, 0, n)
}

// ---------------------------------------------------------------------------
// Splitting and joining

/// The parts of `s` between the characters that satisfy `p`.
pub open spec fn split_by(s: Seq<char>, p: spec_fn(char) -> bool) -> Seq<Seq<char>>
    decreases s.len(),
{
    if s.len() == 0 {
        seq![Seq::empty()]
    } else {
        let r = split_by(s.drop_last(), p);
        if p(s.last()) {
            r.push(Seq::empty())
        } else {
            r.drop_last().push(r.last().push(s.last()))
        }
    }
}

pub proof fn lemma_split_nonempty(s: Seq<char>, p: spec_fn(char) -> bool)
    ensures
        split_by(s, p).len() > 0,
    decreases s.len(),
{
    if s.len() > 0 {
        lemma_split_nonempty(s.drop_last(), p);
    }
}

/// No part of a split holds a separator.
pub proof fn lemma_split_parts(s: Seq<char>, p: spec_fn(char) -> bool)
    ensures
        forall|i: int, j: int|
            0 <= i < split_by(s, p).len() && 0 <= j < split_by(s, p)[i].len() ==> !p(
                #[trigger] split_by(s, p)[i][j],
            ),
    decreases s.len(),
{
    lemma_split_nonempty(s, p);
    if s.len() > 0 {
        lemma_split_parts(s.drop_last(), p);
        lemma_split_nonempty(s.drop_last(), p);
        let r = split_by(s.drop_last(), p);
        let q = split_by(s, p);
        assert forall|i: int, j: int| 0 <= i < q.len() && 0 <= j < q[i].len() implies !p(
            #[trigger] q[i][j],
        ) by {
            if p(s.last()) {
                assert(i < r.len());
                assert(q[i] == r[i]);
                assert(!p(r[i][j]));
            } else if i < r.len() - 1 {
                assert(q[i] == r[i]);
                assert(!p(r[i][j]));
            } else if j < r.last().len() {
                assert(q[i][j] == r[r.len() - 1][j]);
            }
        }
    }
}

/// The parts of `s` between the copies of `c`.
pub open spec fn split_on(s: Seq<char>, c: char) -> Seq<Seq<char>> {
    split_by(s, is_char(c))
}

/// The parts of two texts, of which the first ends with a separator.
pub proof fn lemma_split_concat(a: Seq<char>, b: Seq<char>, p: spec_fn(char) -> bool)
    requires
        a.len() == 0 || p(a.last()),
    ensures
        split_by(a + b, p) == split_by(a, p).drop_last() + split_by(b, p),
        split_by(b, p).len() > 0,
        split_by(a, p).last().len() == 0,
        split_by(a, p).len() > 0,
    decreases b.len(),
{
    let d = split_by(a, p).drop_last();
    assert(split_by(a, p) =~= d.push(Seq::empty()));
    if b.len() == 0 {
        assert(a + b =~= a);
        assert(split_by(b, p) =~= seq![Seq::<char>::empty()]);
    } else {
        lemma_split_concat(a, b.drop_last(), p);
        assert((a + b).drop_last() =~= a + b.drop_last());
        let s = split_by(b.drop_last(), p);
        let r = d + s;
        assert(r.drop_last() =~= d + s.drop_last());
        if p(b.last()) {
            assert(r.push(Seq::empty()) =~= d + s.push(Seq::empty()));
        } else {
            assert(r.drop_last().push(r.last().push(b.last())) =~= d + s.drop_last().push(
                s.last().push(b.last()),
            ));
        }
    }
}

/// A text without a separator is one part.
pub proof fn lemma_split_one(t: Seq<char>)
    requires
        !has_char(t, '\n'),
    ensures
        split_on(t, '\n') == seq![t],
    decreases t.len(),
{
    if t.len() == 0 {
        assert(t =~= Seq::empty());
    } else {
        assert forall|i: int| 0 <= i < t.drop_last().len() implies t.drop_last()[i] != '\n' by {
            assert(t[i] != '\n');
        }
        lemma_split_one(t.drop_last());
        assert(t[t.len() - 1] != '\n');
        let r = seq![t.drop_last()];
        assert(t.drop_last().push(t.last()) =~= t);
        assert(r.drop_last().push(r.last().push(t.last())) =~= seq![t]);
    }
}

pub fn split_char(s: &str, c: char) -> (r: Vec<String>)
    ensures
        strs(r@) == split_on(s@, c),
        r@.len() > 0,
{
    let v = to_chars(s);
    let mut out: Vec<String> = Vec::new();
    let mut cur = String::new();
    assert(split_on(s@.take(0), c) =~= seq![Seq::<char>::empty()]);
    for i in 0..v.len()
        invariant
            v@ == s@,
            split_on(s@.take(i as int), c) == strs(out@).push(cur@),
    {
        let x: char = v[i];
        proof {
            assert(s@.take(i + 1).drop_last() =~= s@.take(i as int));
            assert(s@.take(i + 1).last() == x);
            assert(strs(out@).push(cur@).drop_last() =~= strs(out@));
        }
        let ghost before = out@;
        if x == c {
            out.push(cur);
            cur = String::new();
            assert(strs(out@) =~= strs(before).push(out@.last()@));
        } else {
            cur.push(x);
        }
    }
    assert(s@.take(s@.len() as int) =~= s@);
    let ghost before = out@;
    out.push(cur);
    assert(strs(out@) =~= strs(before).push(out@.last()@));
    out
}

/// The predicate of being white space.
pub open spec fn is_space() -> spec_fn(char) -> bool {
    |c: char| white(c)
}

/// The predicate of being a text with at least one character.
pub open spec fn nonempty() -> spec_fn(Seq<char>) -> bool {
    |t: Seq<char>| t.len() > 0
}

/// The maximal runs of characters that are no white space.
pub open spec fn words_of(s: Seq<char>) -> Seq<Seq<char>> {
    split_by(s, is_space()).filter(nonempty())
}

pub fn words(s: &str) -> (r: Vec<String>)
    ensures
        strs(r@) == words_of(s@),
{
    let v = to_chars(s);
    let mut out: Vec<String> = Vec::new();
    let mut cur = String::new();
    let ghost mut parts: Seq<Seq<char>> = Seq::empty();
    proof {
        reveal(Seq::filter);
        assert(split_by(s@.take(0), is_space()) =~= parts.push(cur@));
        assert(parts.filter(nonempty()) =~= strs(out@));
    }
    for i in 0..v.len()
        invariant
            v@ == s@,
            split_by(s@.take(i as int), is_space()) == parts.push(cur@),
            strs(out@) == parts.filter(nonempty()),
    {
        let x: char = v[i];
        proof {
            assert(s@.take(i + 1).drop_last() =~= s@.take(i as int));
            assert(s@.take(i + 1).last() == x);
            assert(parts.push(cur@).drop_last() =~= parts);
        }
        let ghost before = out@;
        if is_white(x) {
            proof {
                parts.lemma_filter_push(cur@, nonempty());
                parts = parts.push(cur@);
            }
            let full: bool = size(cur.as_str()) > 0;
            proof {
                lemma_blen_take(cur@, cur@.len() as int);
                assert(cur@.take(cur@.len() as int) =~= cur@);
                assert(cur@.len() == 0 ==> cur@ =~= Seq::<char>::empty());
            }
            if full {
                out.push(cur);
                assert(strs(out@) =~= strs(before).push(out@.last()@));
            }
            cur = String::new();
        } else {
            cur.push(x);
        }
    }
    assert(s@.take(s@.len() as int) =~= s@);
    proof {
        parts.lemma_filter_push(cur@, nonempty());
        lemma_blen_take(cur@, cur@.len() as int);
        assert(cur@.take(cur@.len() as int) =~= cur@);
        assert(cur@.len() == 0 ==> cur@ =~= Seq::<char>::empty());
    }
    let ghost before = out@;
    if size(cur.as_str()) > 0 {
        out.push(cur);
        assert(strs(out@) =~= strs(before).push(out@.last()@));
    }
    out
}

/// Without one trailing carriage return.
pub open spec fn chomp_cr(s: Seq<char>) -> Seq<char> {
    if s.len() > 0 && s.last() == '\r' {
        s.drop_last()
    } else {
        s
    }
}

/// The lines of a text: what stands before each line feed, without the carriage
/// return that may precede it, and what stands behind the last line feed if
/// that is not empty.
pub open spec fn lines_of(s: Seq<char>) -> Seq<Seq<char>> {
    let parts = split_on(s, '\n');
    let done = parts.drop_last().map_values(|t: Seq<char>| chomp_cr(t));
    if parts.last().len() > 0 {
        done.push(parts.last())
    } else {
        done
    }
}

pub fn chomp(s: &str) -> (r: String)
    ensures
        r@ == chomp_cr(s@),
{
    let v = to_chars(s);
    let n: usize = v.len();
    if n > 0 && v[n - 1] == '\r' {
        slice(&v, 0, n - 1)
    } else {
        slice(&v, 0, n)
    }
}

pub fn lines(s: &str) -> (r: Vec<String>)
    ensures
        strs(r@) == lines_of(s@),
{
    let parts = split_char(s, '\n');
    let mut out: Vec<String> = Vec::new();
    let n: usize = parts.len() - 1;
    for i in 0..n
        invariant
            n + 1 == parts@.len(),
            out@.len() == i,
            forall|j: int| 0 <= j < i ==> out@[j]@ == chomp_cr(parts@[j]@),
    {
        out.push(chomp(parts[i].as_str()));
    }
    let ghost all = split_on(s@, '\n');
    assert(all == strs(parts@));
    assert(strs(out@) =~= all.drop_last().map_values(|t: Seq<char>| chomp_cr(t)));
    let ghost before = out@;
    if size(parts[n].as_str()) > 0 {
        out.push(copy(parts[n].as_str()));
        assert(strs(out@) =~= strs(before).push(all.last()));
    }
    proof {
        let l = all.last();
        lemma_blen_take(l, l.len() as int);
        assert(l.take(l.len() as int) =~= l);
        assert(l.len() == 0 ==> l =~= Seq::<char>::empty());
    }
    out
}

/// The texts with `sep` between them.
pub open spec fn joined(parts: Seq<Seq<char>>, sep: Seq<char>) -> Seq<char>
    decreases parts.len(),
{
    if parts.len() == 0 {
        Seq::empty()
    } else if parts.len() == 1 {
        parts[0]
    } else {
        joined(parts.drop_last(), sep) + sep + parts.last()
    }
}

pub fn join(parts: &Vec<String>, sep: &str) -> (r: String)
    ensures
        r@ == joined(strs(parts@), sep@),
{
    let mut out = String::new();
    for i in 0..parts.len()
        invariant
            out@ == joined(strs(parts@).take(i as int), sep@),
    {
        let ghost t = strs(parts@).take(i + 1);
        assert(t.drop_last() =~= strs(parts@).take(i as int));
        if i > 0 {
            out.append(sep);
            out.append(parts[i].as_str());
        } else {
            out.append(parts[i].as_str());
            assert(out@ =~= parts@[0]@);
        }
    }
    assert(strs(parts@).take(parts@.len() as int) =~= strs(parts@));
    out
}

// ---------------------------------------------------------------------------
// Letters, cutting and padding

pub open spec fn lower_char(c: char) -> char {
    if 'A' <= c <= 'Z' {
        ((c as u32 + 32) as u32) as char
    } else {
        c
    }
}

/// With the ASCII capital letters replaced by small ones.
pub open spec fn lowered(s: Seq<char>) -> Seq<char> {
    Seq::new(s.len(), |i: int| lower_char(s[i]))
}

pub fn lower_ascii_char(c: char) -> (r: char)
    ensures
        r == lower_char(c),
{
    if 'A' <= c && c <= 'Z' {
        ((c as u8) + 32) as char
    } else {
        c
    }
}

pub fn lower_ascii(s: &str) -> (r: String)
    ensures
        r@ == lowered(s@),
{
    let v = to_chars(s);
    let mut out = String::new();
    for i in 0..v.len()
        invariant
            v@ == s@,
            out@ == lowered(s@.take(i as int)),
    {
        out.push(lower_ascii_char(v[i]));
        assert(lowered(s@.take(i + 1)) =~= lowered(s@.take(i as int)).push(
            lower_char(s@[i as int]),
        ));
    }
    assert(s@.take(s@.len() as int) =~= s@);
    out
}

/// The longest prefix of at most `max` bytes.
pub open spec fn cut_to(s: Seq<char>, max: nat) -> Seq<char>
    decreases s.len(),
{
    if s.len() == 0 || blen(s) <= max {
        s
    } else {
        cut_to(s.drop_last(), max)
    }
}

pub proof fn lemma_cut_at(s: Seq<char>, max: nat, n: int)
    requires
        0 <= n <= s.len(),
        blen(s.take(n)) <= max,
        n == s.len() || blen(s.take(n + 1)) > max,
    ensures
        cut_to(s, max) == s.take(n),
    decreases s.len() - n,
{
    if n == s.len() {
        assert(s.take(n) =~= s);
    } else {
        lemma_blen_take(s, n + 1);
        let t = s.drop_last();
        assert(t.take(n) =~= s.take(n));
        if n < t.len() {
            assert(t.take(n + 1) =~= s.take(n + 1));
        }
        lemma_cut_at(t, max, n);
    }
}

/// A cut text is a prefix that fits, and a text that fits is not cut.
pub proof fn lemma_cut(s: Seq<char>, max: nat)
    ensures
        blen(cut_to(s, max)) <= max,
        cut_to(s, max).len() <= s.len(),
        cut_to(s, max) == s.take(cut_to(s, max).len() as int),
        blen(s) <= max ==> cut_to(s, max) == s,
    decreases s.len(),
{
    if s.len() == 0 {
        assert(s =~= s.take(0));
    } else if blen(s) <= max {
        assert(s =~= s.take(s.len() as int));
    } else {
        let t = s.drop_last();
        lemma_cut(t, max);
        let n = cut_to(t, max).len() as int;
        assert(t.take(n) =~= s.take(n));
    }
}

pub fn char_width(c: char) -> (r: usize)
    ensures
        r == width(c),
        1 <= r <= 4,
{
    let u: u32 = c as u32;
    if u <= 0x7f {
        1
    } else if u <= 0x7ff {
        2
    } else if u <= 0xffff {
        3
    } else {
        4
    }
}

pub fn cut(s: &str, max: usize) -> (r: String)
    ensures
        r@ == cut_to(s@, max as nat),
{
    let v = to_chars(s);
    let mut n: usize = 0;
    let mut used: usize = 0;
    while n < v.len() && char_width(v[n]) <= max - used
        invariant
            v@ == s@,
            n <= v@.len(),
            used <= max,
            used == blen(s@.take(n as int)),
        decreases v@.len() - n,
    {
        proof {
            assert(s@.take(n + 1) =~= s@.take(n as int).push(s@[n as int]));
            lemma_blen_push(s@.take(n as int), s@[n as int]);
        }
        used += char_width(v[n]);
        n += 1;
    }
    proof {
        if n < s@.len() {
            assert(s@.take(n + 1) =~= s@.take(n as int).push(s@[n as int]));
            lemma_blen_push(s@.take(n as int), s@[n as int]);
        }
        lemma_cut_at(s@, max as nat, n as int);
        assert(s@.take(n as int) =~= s@.subrange(0, n as int));
    }
    slice(&v, 0, n)
}

/// At most the first `n` characters.
pub open spec fn first_chars(s: Seq<char>, n: nat) -> Seq<char> {
    if s.len() <= n {
        s
    } else {
        s.take(n as int)
    }
}

pub fn take_chars(s: &str, n: usize) -> (r: String)
    ensures
        r@ == first_chars(s@, n as nat),
{
    let v = to_chars(s);
    if v.len() <= n {
        copy(s)
    } else {
        assert(s@.take(n as int) =~= s@.subrange(0, n as int));
        slice(&v, 0, n)
    }
}

pub open spec fn spaces(n: nat) -> Seq<char> {
    Seq::new(n, |i: int| ' ')
}

pub fn push_spaces(out: &mut String, n: usize)
    ensures
        final(out)@ == old(out)@ + spaces(n as nat),
{
    let ghost start = out@;
    for i in 0..n
        invariant
            out@ == start + spaces(i as nat),
    {
        out.push(' ');
        assert(spaces((i + 1) as nat) =~= spaces(i as nat).push(' '));
        assert(out@ =~= start + spaces((i + 1) as nat));
    }
}

/// At least `w` characters, filled with spaces behind the text.
pub open spec fn padded_right(s: Seq<char>, w: nat) -> Seq<char> {
    if s.len() >= w {
        s
    } else {
        s + spaces((w - s.len()) as nat)
    }
}

/// At least `w` characters, filled with spaces before the text.
pub open spec fn padded_left(s: Seq<char>, w: nat) -> Seq<char> {
    if s.len() >= w {
        s
    } else {
        spaces((w - s.len()) as nat) + s
    }
}

pub fn pad_right(s: &str, w: usize) -> (r: String)
    ensures
        r@ == padded_right(s@, w as nat),
{
    let n: usize = s.unicode_len();
    let mut out = copy(s);
    if n < w {
        push_spaces(&mut out, w - n);
    }
    out
}

pub fn pad_left(s: &str, w: usize) -> (r: String)
    ensures
        r@ == padded_left(s@, w as nat),
{
    let n: usize = s.unicode_len();
    let mut out = String::new();
    if n < w {
        push_spaces(&mut out, w - n);
        assert(out@ =~= spaces((w - n) as nat));
    }
    out.append(s);
    assert(n >= w ==> out@ =~= s@);
    out
}

// ---------------------------------------------------------------------------
// Decimal numbers

pub open spec fn digit(d: int) -> char {
    seq!['0', '1', '2', '3', '4', '5', '6', '7', '8', '9'][d]
}

/// The decimal digits of a number.
pub open spec fn dec(n: nat) -> Seq<char>
    decreases n,
{
    if n < 10 {
        seq![digit(n as int)]
    } else {
        dec(n / 10).push(digit((n % 10) as int))
    }
}

pub fn digit_char(d: u64) -> (r: char)
    requires
        d < 10,
    ensures
        r == digit(d as int),
{
    if d == 0 {
        '0'
    } else if d == 1 {
        '1'
    } else if d == 2 {
        '2'
    } else if d == 3 {
        '3'
    } else if d == 4 {
        '4'
    } else if d == 5 {
        '5'
    } else if d == 6 {
        '6'
    } else if d == 7 {
        '7'
    } else if d == 8 {
        '8'
    } else {
        '9'
    }
}

pub fn decimal(n: u64) -> (r: String)
    ensures
        r@ == dec(n as nat),
    decreases n,
{
    if n < 10 {
        let mut s = String::new();
        s.push(digit_char(n));
        assert(s@ =~= seq![digit(n as int)]);
        s
    } else {
        let mut s = decimal(n / 10);
        s.push(digit_char(n % 10));
        s
    }
}

/// A whole number in decimal, with `-` before a negative one.
pub open spec fn dec_int(n: int) -> Seq<char> {
    if n < 0 {
        seq!['-'] + dec((-n) as nat)
    } else {
        dec(n as nat)
    }
}

pub fn magnitude(n: i64) -> (r: u64)
    ensures
        r == (if n < 0 { -(n as int) } else { n as int }),
{
    if n >= 0 {
        n as u64
    } else if n == i64::MIN {
        0x8000_0000_0000_0000
    } else {
        (-n) as u64
    }
}

pub fn decimal_int(n: i64) -> (r: String)
    ensures
        r@ == dec_int(n as int),
{
    if n >= 0 {
        decimal(n as u64)
    } else {
        let mut s = String::new();
        s.push('-');
        s.append(decimal(magnitude(n)).as_str());
        assert(s@ =~= seq!['-'] + dec((-(n as int)) as nat));
        s
    }
}

pub open spec fn is_digit(c: char) -> bool {
    '0' <= c <= '9'
}

pub open spec fn all_digits(s: Seq<char>) -> bool {
    forall|i: int| 0 <= i < s.len() ==> is_digit(#[trigger] s[i])
}

/// The number that a run of digits stands for.
pub open spec fn digits_value(s: Seq<char>) -> nat
    decreases s.len(),
{
    if s.len() == 0 {
        0
    } else {
        digits_value(s.drop_last()) * 10 + ((s.last() as u32) - ('0' as u32)) as nat
    }
}

/// Reads an unsigned decimal number up to `max`: an optional `+`, then at least
/// one digit and nothing else.
pub open spec fn parsed(s: Seq<char>, max: nat) -> Option<nat> {
    let t = if s.len() > 0 && s[0] == '+' {
        s.drop_first()
    } else {
        s
    };
    if t.len() > 0 && all_digits(t) && digits_value(t) <= max {
        Some(digits_value(t))
    } else {
        None
    }
}

proof fn lemma_digits_grow(s: Seq<char>, n: int)
    requires
        0 <= n <= s.len(),
        all_digits(s),
    ensures
        digits_value(s.take(n)) <= digits_value(s),
    decreases s.len() - n,
{
    if n == s.len() {
        assert(s.take(n) =~= s);
    } else {
        let t = s.drop_last();
        assert(t.take(n) =~= s.take(n));
        assert forall|i: int| 0 <= i < t.len() implies is_digit(#[trigger] t[i]) by {
            assert(t[i] == s[i]);
        }
        lemma_digits_grow(t, n);
        assert(is_digit(s[s.len() - 1]));
    }
}

pub fn parse_u64(s: &str) -> (r: Option<u64>)
    ensures
        match r {
            Some(n) => parsed(s@, u64::MAX as nat) == Some(n as nat),
            None => parsed(s@, u64::MAX as nat) is None,
        },
{
    let v = to_chars(s);
    let a: usize = if v.len() > 0 && v[0] == '+' {
        1
    } else {
        0
    };
    let ghost t = s@.skip(a as int);
    assert(a == 1 ==> t =~= s@.drop_first());
    assert(a == 0 ==> t =~= s@);
    if a == v.len() {
        return None;
    }
    let mut n: u64 = 0;
    let mut i: usize = a;
    while i < v.len()
        invariant
            v@ == s@,
            a <= i <= v@.len(),
            t == s@.skip(a as int),
            t.len() > 0,
            forall|j: int| 0 <= j < i - a ==> is_digit(#[trigger] t[j]),
            n == digits_value(t.take(i - a)),
            parsed(s@, u64::MAX as nat) == (if t.len() > 0 && all_digits(t) && digits_value(t)
                <= u64::MAX {
                Some(digits_value(t))
            } else {
                None
            }),
        decreases v@.len() - i,
    {
        let c: char = v[i];
        assert(t[i - a] == c);
        if !('0' <= c && c <= '9') {
            return None;
        }
        let d: u64 = (c as u64) - ('0' as u64);
        proof {
            assert(t.take(i - a + 1).drop_last() =~= t.take(i - a));
            assert(digits_value(t.take(i - a + 1)) == n * 10 + d);
            if all_digits(t) {
                lemma_digits_grow(t, i - a + 1);
            }
        }
        if n > (u64::MAX - d) / 10 {
            return None;
        }
        n = n * 10 + d;
        i += 1;
    }
    assert(t.take(t.len() as int) =~= t);
    Some(n)
}

// ---------------------------------------------------------------------------
// Order

/// The order of texts by their characters, as `str` compares.
pub open spec fn lex_lt(a: Seq<char>, b: Seq<char>) -> bool
    decreases a.len(),
{
    if b.len() == 0 {
        false
    } else if a.len() == 0 {
        true
    } else if a[0] != b[0] {
        a[0] < b[0]
    } else {
        lex_lt(a.drop_first(), b.drop_first())
    }
}

pub proof fn lemma_lex_total(a: Seq<char>, b: Seq<char>)
    ensures
        lex_lt(a, b) || lex_lt(b, a) || a == b,
        !(lex_lt(a, b) && lex_lt(b, a)),
        !lex_lt(a, a),
    decreases a.len(),
{
    if a.len() == 0 {
        assert(b.len() == 0 ==> a =~= b);
    } else {
        lemma_lex_total(a.drop_first(), a.drop_first());
        if b.len() > 0 && a[0] == b[0] {
            lemma_lex_total(a.drop_first(), b.drop_first());
            if a.drop_first() == b.drop_first() {
                assert(a =~= seq![a[0]] + a.drop_first());
                assert(b =~= seq![b[0]] + b.drop_first());
            }
        }
    }
}

pub proof fn lemma_lex_trans(a: Seq<char>, b: Seq<char>, c: Seq<char>)
    requires
        lex_lt(a, b),
        lex_lt(b, c),
    ensures
        lex_lt(a, c),
    decreases a.len(),
{
    if a.len() > 0 && b.len() > 0 && c.len() > 0 && a[0] == b[0] && b[0] == c[0] {
        lemma_lex_trans(a.drop_first(), b.drop_first(), c.drop_first());
    }
}

pub fn less(a: &str, b: &str) -> (r: bool)
    ensures
        r == lex_lt(a@, b@),
{
    let x = to_chars(a);
    let y = to_chars(b);
    let mut i: usize = 0;
    assert(a@.skip(0) =~= a@);
    assert(b@.skip(0) =~= b@);
    while i < x.len() && i < y.len()
        invariant
            x@ == a@,
            y@ == b@,
            i <= x@.len(),
            i <= y@.len(),
            lex_lt(a@, b@) == lex_lt(a@.skip(i as int), b@.skip(i as int)),
        decreases x@.len() - i,
    {
        if x[i] != y[i] {
            return x[i] < y[i];
        }
        assert(a@.skip(i as int).drop_first() =~= a@.skip(i + 1));
        assert(b@.skip(i as int).drop_first() =~= b@.skip(i + 1));
        i += 1;
    }
    i < y.len()
}

// ---------------------------------------------------------------------------
// Hexadecimal numbers

pub open spec fn hex_digit(d: int) -> char {
    seq![
        '0', '1', '2', '3', '4', '5', '6', '7', '8', '9', 'a', 'b', 'c', 'd', 'e', 'f',
    ][d]
}

/// The last `w` hexadecimal digits of a number.
pub open spec fn hex_of(n: nat, w: nat) -> Seq<char>
    decreases w,
{
    if w == 0 {
        Seq::empty()
    } else {
        hex_of(n / 16, (w - 1) as nat).push(hex_digit((n % 16) as int))
    }
}

pub fn hex_char(d: u64) -> (r: char)
    requires
        d < 16,
    ensures
        r == hex_digit(d as int),
{
    if d < 10 {
        digit_char(d)
    } else if d == 10 {
        'a'
    } else if d == 11 {
        'b'
    } else if d == 12 {
        'c'
    } else if d == 13 {
        'd'
    } else if d == 14 {
        'e'
    } else {
        'f'
    }
}

pub fn hex(n: u64, w: usize) -> (r: String)
    ensures
        r@ == hex_of(n as nat, w as nat),
    decreases w,
{
    if w == 0 {
        String::new()
    } else {
        let mut s = hex(n / 16, w - 1);
        s.push(hex_char(n % 16));
        s
    }
}

// ---------------------------------------------------------------------------
// Case folding and bytes

/// The Unicode lower-case form of a text.
pub uninterp spec fn lowercase(s: Seq<char>) -> Seq<char>;

/// `str::to_lowercase`. It follows std's Unicode tables, so the result is only
/// named.
#[verifier::external_body]
pub(crate) fn to_lower(s: &str) -> (r: String)
    ensures
        r@ == lowercase(s@),
{
    s.to_lowercase()
}

/// The text that bytes hold, with what is no UTF-8 replaced.
pub uninterp spec fn decoded(b: Seq<u8>) -> Seq<char>;

/// `String::from_utf8_lossy`, which replaces invalid sequences. Bytes that are
/// valid UTF-8 decode to the text that they encode.
#[verifier::external_body]
pub(crate) fn decode(b: &[u8]) -> (r: String)
    ensures
        r@ == decoded(b@),
        vstd::utf8::valid_utf8(b@) ==> r@ == vstd::utf8::decode_utf8(b@),
{
    String::from_utf8_lossy(b).into_owned()
}

/// With every copy of one character replaced by another.
pub open spec fn replaced(s: Seq<char>, from: char, to: char) -> Seq<char> {
    Seq::new(
        s.len(),
        |i: int|
            if s[i] == from {
                to
            } else {
                s[i]
            },
    )
}

pub fn replace_char(s: &str, from: char, to: char) -> (r: String)
    ensures
        r@ == replaced(s@, from, to),
{
    let v = to_chars(s);
    let mut out = String::new();
    for i in 0..v.len()
        invariant
            v@ == s@,
            out@ == replaced(s@.take(i as int), from, to),
    {
        let c: char = if v[i] == from {
            to
        } else {
            v[i]
        };
        out.push(c);
        assert(replaced(s@.take(i + 1), from, to) =~= replaced(s@.take(i as int), from, to).push(
            c,
        ));
    }
    assert(s@.take(s@.len() as int) =~= s@);
    out
}

/// Texts as a bracketed list of quoted texts.
pub open spec fn listed(v: Seq<Seq<char>>) -> Seq<char> {
    "["@ + joined(v.map_values(|s: Seq<char>| quoted(s)), ", "@) + "]"@
}

pub fn list_text(v: &Vec<String>) -> (r: String)
    ensures
        r@ == listed(strs(v@)),
{
    let mut parts: Vec<String> = Vec::new();
    for i in 0..v.len()
        invariant
            parts@.len() == i,
            forall|k: int| 0 <= k < i ==> (#[trigger] parts@[k])@ == quoted(v@[k]@),
    {
        parts.push(quote(v[i].as_str()));
    }
    assert(strs(parts@) =~= strs(v@).map_values(|s: Seq<char>| quoted(s)));
    let mut r = copy("[");
    r.append(join(&parts, ", ").as_str());
    r.append("]");
    r
}

/// What `char::is_alphanumeric` says of a character.
pub uninterp spec fn alphanumeric(c: char) -> bool;

/// `char::is_alphanumeric`: whether a character is a letter or a number by the
/// Unicode tables.
#[verifier::external_body]
pub(crate) fn is_alphanumeric(c: char) -> (r: bool)
    ensures
        r == alphanumeric(c),
{
    c.is_alphanumeric()
}

/// What follows a prefix, if a text has it.
pub open spec fn behind(s: Seq<char>, pat: Seq<char>) -> Option<Seq<char>> {
    if starts(s, pat) {
        Some(s.skip(pat.len() as int))
    } else {
        None
    }
}

pub fn strip_prefix(s: &str, pat: &str) -> (r: Option<String>)
    ensures
        opt_text(r) == behind(s@, pat@),
{
    if starts_with(s, pat) {
        let v = to_chars(s);
        let p = to_chars(pat);
        assert(s@.subrange(pat@.len() as int, s@.len() as int) =~= s@.skip(pat@.len() as int));
        Some(slice(&v, p.len(), v.len()))
    } else {
        None
    }
}

/// The bytes of the first `n` texts, each with one byte behind it.
pub open spec fn spread(ls: Seq<Seq<char>>, n: nat) -> nat
    decreases n,
{
    if n == 0 {
        0
    } else {
        spread(ls, (n - 1) as nat) + blen(ls[n - 1]) + 1
    }
}

proof fn lemma_spread_same(a: Seq<Seq<char>>, b: Seq<Seq<char>>, n: nat)
    requires
        n <= a.len(),
        n <= b.len(),
        forall|i: int| 0 <= i < n ==> (#[trigger] a[i]) == b[i],
    ensures
        spread(a, n) == spread(b, n),
    decreases n,
{
    if n > 0 {
        lemma_spread_same(a, b, (n - 1) as nat);
        assert(a[n - 1] == b[n - 1]);
    }
}

/// The lines of a text, each with a line feed, take a byte more than the text does.
pub proof fn lemma_spread_split(s: Seq<char>)
    ensures
        spread(split_on(s, '\n'), split_on(s, '\n').len()) == blen(s) + 1,
    decreases s.len(),
{
    let q = split_on(s, '\n');
    let e = Seq::<char>::empty();
    if s.len() == 0 {
        assert(q[0] =~= e);
        assert(s =~= e);
        assert(spread(q, 0) == 0);
    } else {
        let front = s.drop_last();
        let r = split_on(front, '\n');
        lemma_split_nonempty(front, is_char('\n'));
        lemma_spread_split(front);
        assert(s =~= front.push(s.last()));
        lemma_blen_push(front, s.last());
        if s.last() == '\n' {
            assert(q == r.push(e));
            lemma_spread_same(q, r, r.len());
            assert(q[r.len() as int] == e);
            lemma_blen_empty();
            assert(width('\n') == 1);
        } else {
            lemma_spread_same(q, r, (r.len() - 1) as nat);
            assert(q.last() == r.last().push(s.last()));
            lemma_blen_push(r.last(), s.last());
        }
    }
}

/// Where the line at `i` begins: at the byte that the lines before it take, right
/// behind a line feed or at the beginning of the text.
pub proof fn lemma_line_place(s: Seq<char>, i: int) -> (k: int)
    requires
        0 <= i < split_on(s, '\n').len(),
    ensures
        0 <= k <= s.len(),
        blen(s.take(k)) == spread(split_on(s, '\n'), i as nat),
        k == 0 || s[k - 1] == '\n',
        starts(s.skip(k), split_on(s, '\n')[i]),
    decreases s.len(),
{
    let q = split_on(s, '\n');
    let e = Seq::<char>::empty();
    lemma_blen_empty();
    if s.len() == 0 {
        assert(s.take(0) =~= e);
        assert(s.skip(0).take(0) =~= q[0]);
        0
    } else {
        let front = s.drop_last();
        let r = split_on(front, '\n');
        lemma_split_nonempty(front, is_char('\n'));
        if s.last() == '\n' && i == r.len() {
            lemma_spread_split(front);
            lemma_spread_same(q, r, r.len());
            assert(s =~= front.push('\n'));
            lemma_blen_push(front, '\n');
            assert(width('\n') == 1);
            let k = s.len() as int;
            assert(s.take(k) =~= s);
            assert(q[i] =~= e);
            assert(s.skip(k).take(0) =~= e);
            k
        } else {
            let k = lemma_line_place(front, i);
            assert(s.take(k) =~= front.take(k));
            lemma_spread_same(q, r, i as nat);
            let rest = front.skip(k);
            assert(rest.take(r[i].len() as int) == r[i]);
            if i == r.len() - 1 && s.last() != '\n' {
                assert(q[i] == r[i].push(s.last()));
                assert(rest =~= r[i]) by {
                    lemma_spread_split(front);
                    assert(front =~= front.take(k) + rest);
                    lemma_blen_add(front.take(k), rest);
                    assert(rest =~= r[i] + rest.skip(r[i].len() as int));
                    lemma_blen_add(r[i], rest.skip(r[i].len() as int));
                    lemma_blen_none(rest.skip(r[i].len() as int));
                }
                assert(s.skip(k) =~= rest.push(s.last()));
                assert(s.skip(k).take(q[i].len() as int) =~= q[i]);
            } else {
                assert(q[i] == r[i]);
                assert(s.skip(k).take(r[i].len() as int) =~= rest.take(r[i].len() as int));
            }
            k
        }
    }
}

/// A text that takes no byte is empty.
proof fn lemma_blen_none(s: Seq<char>)
    requires
        blen(s) == 0,
    ensures
        s.len() == 0,
{
    if s.len() > 0 {
        assert(s =~= s.drop_last().push(s.last()));
        lemma_blen_push(s.drop_last(), s.last());
    }
}

proof fn lemma_blen_empty()
    ensures
        blen(Seq::<char>::empty()) == 0,
{
}

pub proof fn lemma_spread_prefix(ls: Seq<Seq<char>>, a: nat, b: nat)
    requires
        a <= b,
    ensures
        spread(ls, a) <= spread(ls, b),
        a < b ==> spread(ls, a) + blen(ls[a as int]) + 1 <= spread(ls, b),
    decreases b,
{
    if a < b {
        lemma_spread_prefix(ls, a, (b - 1) as nat);
    }
}

/// A count of bytes, as far as it fits.
pub open spec fn capped(n: nat) -> u64 {
    if n > u64::MAX {
        u64::MAX
    } else {
        n as u64
    }
}

/// Adds to a count of bytes, as far as it fits.
pub fn count_up(n: u64, more: u64) -> (r: u64)
    ensures
        r == capped((n + more) as nat),
{
    if n > u64::MAX - more {
        u64::MAX
    } else {
        n + more
    }
}

/// The texts that are not blank, trimmed, among the first `n`.
pub open spec fn trimmed_names(v: Seq<Seq<char>>, n: nat) -> Seq<Seq<char>>
    decreases n,
{
    if n == 0 {
        Seq::empty()
    } else {
        let rest = trimmed_names(v, (n - 1) as nat);
        let t = trimmed(v[n - 1]);
        if t.len() > 0 {
            rest.push(t)
        } else {
            rest
        }
    }
}

pub fn trim_names(v: &Vec<String>) -> (r: Vec<String>)
    ensures
        strs(r@) == trimmed_names(strs(v@), v@.len()),
{
    let mut out = no_strings();
    for i in 0..v.len()
        invariant
            strs(out@) == trimmed_names(strs(v@), i as nat),
    {
        assert(strs(v@)[i as int] == v@[i as int]@);
        let t = trim(v[i].as_str());
        if !is_blank(t.as_str()) {
            let ghost before = out@;
            out.push(t);
            assert(strs(out@) =~= strs(before).push(t@));
        }
    }
    out
}

/// ASCII letters and digits, the underscore and the hyphen.
pub open spec fn plain_char(c: char) -> bool {
    ('a' <= c && c <= 'z') || ('A' <= c && c <= 'Z') || ('0' <= c && c <= '9') || c == '_' || c
        == '-'
}

pub fn is_plain_char(c: char) -> (r: bool)
    ensures
        r == plain_char(c),
{
    ('a' <= c && c <= 'z') || ('A' <= c && c <= 'Z') || ('0' <= c && c <= '9') || c == '_' || c
        == '-'
}

/// Characters that part the terms of a query.
pub open spec fn parting() -> spec_fn(char) -> bool {
    |c: char| !plain_char(c)
}

/// The terms of a text: what stands between characters that are no ASCII letter,
/// digit, underscore or hyphen.
pub fn split_terms(s: &str) -> (r: Vec<String>)
    ensures
        strs(r@) == split_by(s@, parting()),
{
    let v = to_chars(s);
    let ghost p = parting();
    let mut out: Vec<String> = Vec::new();
    let mut cur = String::new();
    assert(split_by(s@.take(0), p) =~= seq![Seq::<char>::empty()]);
    for i in 0..v.len()
        invariant
            v@ == s@,
            p == parting(),
            split_by(s@.take(i as int), p) == strs(out@).push(cur@),
    {
        let x: char = v[i];
        proof {
            assert(s@.take(i + 1).drop_last() =~= s@.take(i as int));
            assert(s@.take(i + 1).last() == x);
            assert(strs(out@).push(cur@).drop_last() =~= strs(out@));
        }
        let ghost before = out@;
        if !is_plain_char(x) {
            out.push(cur);
            cur = String::new();
            assert(strs(out@) =~= strs(before).push(out@.last()@));
        } else {
            cur.push(x);
        }
    }
    assert(s@.take(s@.len() as int) =~= s@);
    let ghost before = out@;
    out.push(cur);
    assert(strs(out@) =~= strs(before).push(out@.last()@));
    out
}

/// Reads a signed decimal number: an optional sign, then at least one digit and
/// nothing else, within 64 bits.
pub open spec fn parsed_int(s: Seq<char>) -> Option<int> {
    if s.len() > 0 && s[0] == '-' {
        let t = s.drop_first();
        if t.len() > 0 && t[0] == '+' {
            None
        } else {
            match parsed(t, 0x8000_0000_0000_0000) {
                Some(n) => Some(-(n as int)),
                None => None,
            }
        }
    } else {
        match parsed(s, i64::MAX as nat) {
            Some(n) => Some(n as int),
            None => None,
        }
    }
}

pub fn parse_i64(s: &str) -> (r: Option<i64>)
    ensures
        match r {
            Some(n) => parsed_int(s@) == Some(n as int),
            None => parsed_int(s@) is None,
        },
{
    let v = to_chars(s);
    if v.len() > 0 && v[0] == '-' {
        let t = slice(&v, 1, v.len());
        assert(t@ =~= s@.drop_first());
        if v.len() > 1 && v[1] == '+' {
            return None;
        }
        match parse_u64(t.as_str()) {
            Some(n) => if n == 0x8000_0000_0000_0000 {
                Some(i64::MIN)
            } else if n < 0x8000_0000_0000_0000 {
                Some(-(n as i64))
            } else {
                None
            },
            None => None,
        }
    } else {
        match parse_u64(s) {
            Some(n) => if n <= 0x7fff_ffff_ffff_ffff {
                Some(n as i64)
            } else {
                None
            },
            None => None,
        }
    }
}

/// A text on one line: its words with single spaces between them, and no more
/// than `cap` characters, the last one an ellipsis where something was cut.
pub open spec fn squeezed(s: Seq<char>, cap: nat) -> Seq<char> {
    let one = joined(words_of(s), " "@);
    if one.len() <= cap {
        one
    } else {
        first_chars(
            one,
            if cap == 0 {
                0
            } else {
                (cap - 1) as nat
            },
        ) + "…"@
    }
}

pub fn squeeze(s: &str, cap: usize) -> (r: String)
    ensures
        r@ == squeezed(s@, cap as nat),
{
    let one = join(&words(s), " ");
    let v = to_chars(one.as_str());
    if v.len() <= cap {
        one
    } else {
        let keep: usize = if cap == 0 {
            0
        } else {
            cap - 1
        };
        let mut t = take_chars(one.as_str(), keep);
        t.append("…");
        t
    }
}

/// A text on one line has at most the characters allowed, if any are.
pub proof fn law_squeezed_fits(s: Seq<char>, cap: nat)
    requires
        cap > 0,
    ensures
        squeezed(s, cap).len() <= cap,
{
    reveal_strlit("…");
}

/// A text on one line as it is squeezed: no white space around it, and single spaces
/// as all the white space in it.
pub open spec fn even(t: Seq<char>) -> bool {
    &&& t.len() > 0 ==> !white(t[0]) && !white(t.last())
    &&& forall|i: int| 0 <= i < t.len() && white(#[trigger] t[i]) ==> t[i] == ' '
    &&& forall|i: int, j: int|
        0 <= i && j == i + 1 && j < t.len() ==> !(white(#[trigger] t[i]) && white(#[trigger] t[j]))
}

proof fn lemma_split_joined(t: Seq<char>)
    requires
        forall|i: int| 0 <= i < t.len() && white(#[trigger] t[i]) ==> t[i] == ' ',
    ensures
        joined(split_by(t, is_space()), " "@) == t,
    decreases t.len(),
{
    reveal_strlit(" ");
    let p = is_space();
    lemma_split_nonempty(t, p);
    if t.len() == 0 {
        assert(joined(split_by(t, p), " "@) =~= t);
    } else {
        let front = t.drop_last();
        assert forall|i: int| 0 <= i < front.len() && white(#[trigger] front[i]) implies front[i]
            == ' ' by {
            assert(front[i] == t[i]);
        }
        lemma_split_joined(front);
        lemma_split_nonempty(front, p);
        let r = split_by(front, p);
        let q = split_by(t, p);
        assert(front.push(t.last()) =~= t);
        if p(t.last()) {
            assert(t[t.len() - 1] == ' ');
            assert(q.drop_last() =~= r);
            assert(joined(q, " "@) == joined(r, " "@) + " "@ + Seq::<char>::empty());
            assert(joined(q, " "@) =~= front.push(' '));
        } else {
            assert(q.drop_last() =~= r.drop_last());
            assert(q.last() == r.last().push(t.last()));
            if r.len() == 1 {
                assert(joined(q, " "@) == q[0]);
                assert(joined(r, " "@) == r[0]);
            } else {
                assert(joined(q, " "@) == joined(r.drop_last(), " "@) + " "@ + q.last());
                assert(joined(q, " "@) =~= joined(r, " "@).push(t.last()));
            }
        }
    }
}

proof fn lemma_split_filled(t: Seq<char>)
    requires
        t.len() > 0 ==> !white(t[0]),
        forall|i: int, j: int|
            0 <= i && j == i + 1 && j < t.len() ==> !(white(#[trigger] t[i]) && white(
                #[trigger] t[j],
            )),
    ensures
        split_by(t, is_space()).len() > 0,
        forall|k: int|
            0 <= k < split_by(t, is_space()).len() - 1 ==> (#[trigger] split_by(
                t,
                is_space(),
            )[k]).len() > 0,
        split_by(t, is_space()).last().len() == 0 <==> t.len() == 0 || white(t.last()),
    decreases t.len(),
{
    let p = is_space();
    lemma_split_nonempty(t, p);
    if t.len() > 0 {
        let front = t.drop_last();
        if front.len() > 0 {
            assert(front[0] == t[0]);
        }
        assert forall|i: int, j: int| 0 <= i && j == i + 1 && j < front.len() implies !(white(
            #[trigger] front[i],
        ) && white(#[trigger] front[j])) by {
            assert(front[i] == t[i] && front[j] == t[j]);
        }
        lemma_split_filled(front);
        let r = split_by(front, p);
        let q = split_by(t, p);
        if p(t.last()) {
            assert(front.len() > 0);
            assert(t[t.len() - 2] == front.last());
            assert(!(white(t[t.len() - 2]) && white(t[t.len() - 1])));
            assert(q.drop_last() =~= r);
            assert forall|k: int| 0 <= k < q.len() - 1 implies (#[trigger] q[k]).len() > 0 by {
                assert(q[k] == r[k]);
            }
        } else {
            assert forall|k: int| 0 <= k < q.len() - 1 implies (#[trigger] q[k]).len() > 0 by {
                assert(q[k] == r[k]);
            }
        }
    }
}

proof fn lemma_filter_all(v: Seq<Seq<char>>)
    requires
        forall|k: int| 0 <= k < v.len() ==> (#[trigger] v[k]).len() > 0,
    ensures
        v.filter(nonempty()) == v,
    decreases v.len(),
{
    reveal(Seq::filter);
    if v.len() > 0 {
        assert forall|k: int| 0 <= k < v.drop_last().len() implies (#[trigger] v.drop_last()[k]).len()
            > 0 by {
            assert(v[k].len() > 0);
        }
        lemma_filter_all(v.drop_last());
        assert(v[v.len() - 1].len() > 0);
        assert(v.drop_last().push(v.last()) =~= v);
    } else {
        assert(v.filter(nonempty()) =~= v);
    }
}

/// An even text is its words with single spaces between them.
proof fn lemma_even_words(t: Seq<char>)
    requires
        even(t),
    ensures
        joined(words_of(t), " "@) == t,
{
    let q = split_by(t, is_space());
    lemma_split_filled(t);
    lemma_split_joined(t);
    if t.len() == 0 {
        reveal_with_fuel(Seq::filter, 2);
        assert(q =~= seq![Seq::<char>::empty()]);
        assert(q.drop_last() =~= Seq::empty());
        assert(!nonempty()(q.last()));
        assert(q.filter(nonempty()) =~= Seq::empty());
        assert(joined(words_of(t), " "@) =~= t);
    } else {
        assert forall|k: int| 0 <= k < q.len() implies (#[trigger] q[k]).len() > 0 by {
            if k == q.len() - 1 {
                assert(q[k] == q.last());
            }
        }
        lemma_filter_all(q);
    }
}

proof fn lemma_joined_even(v: Seq<Seq<char>>)
    requires
        forall|k: int| 0 <= k < v.len() ==> (#[trigger] v[k]).len() > 0,
        forall|k: int, i: int|
            0 <= k < v.len() && 0 <= i < v[k].len() ==> !white(#[trigger] v[k][i]),
    ensures
        even(joined(v, " "@)),
        v.len() > 0 ==> joined(v, " "@).len() > 0,
    decreases v.len(),
{
    reveal_strlit(" ");
    if v.len() == 1 {
        let t = joined(v, " "@);
        assert(t == v[0]);
        assert forall|i: int| 0 <= i < t.len() implies !white(#[trigger] t[i]) by {
            assert(!white(v[0][i]));
        }
        assert(!white(v[0][0]) && !white(v[0][v[0].len() - 1]));
    } else if v.len() > 1 {
        let front = v.drop_last();
        assert forall|k: int| 0 <= k < front.len() implies (#[trigger] front[k]).len() > 0 by {
            assert(v[k].len() > 0);
        }
        assert forall|k: int, i: int| 0 <= k < front.len() && 0 <= i < front[k].len() implies !white(
            #[trigger] front[k][i],
        ) by {
            assert(!white(v[k][i]));
        }
        lemma_joined_even(front);
        let a = joined(front, " "@);
        let b = v.last();
        let t = joined(v, " "@);
        let n = a.len() as int;
        assert(v[v.len() - 1].len() > 0);
        assert(t == a + " "@ + b);
        assert(t[0] == a[0]);
        assert(!white(v[v.len() - 1][b.len() - 1]));
        assert(t.last() == b.last());
        assert forall|i: int| 0 <= i < t.len() && white(#[trigger] t[i]) implies t[i] == ' ' by {
            if i < n {
                assert(t[i] == a[i]);
            } else if i > n {
                assert(t[i] == b[i - n - 1]);
                assert(!white(v[v.len() - 1][i - n - 1]));
            }
        }
        assert forall|i: int, j: int| 0 <= i && j == i + 1 && j < t.len() implies !(white(
            #[trigger] t[i],
        ) && white(#[trigger] t[j])) by {
            if j < n {
                assert(t[i] == a[i] && t[j] == a[j]);
                assert(!(white(a[i]) && white(a[j])));
            } else if j == n {
                assert(t[i] == a[n - 1]);
                assert(a.last() == a[n - 1]);
            } else {
                assert(t[j] == b[j - n - 1]);
                assert(!white(v[v.len() - 1][j - n - 1]));
            }
        }
    }
}

/// Squeezing a text twice changes nothing.
pub proof fn law_squeezed_twice(s: Seq<char>, cap: nat)
    ensures
        squeezed(squeezed(s, cap), cap) == squeezed(s, cap),
{
    let p = is_space();
    let q = split_by(s, p);
    let w = words_of(s);
    lemma_split_parts(s, p);
    assert forall|k: int| 0 <= k < w.len() implies (#[trigger] w[k]).len() > 0 by {
        q.lemma_filter_pred(nonempty(), k);
    }
    assert forall|k: int, i: int| 0 <= k < w.len() && 0 <= i < w[k].len() implies !white(
        #[trigger] w[k][i],
    ) by {
        q.lemma_filter_contains_rev(nonempty(), w[k]);
        let m = choose|m: int| 0 <= m < q.len() && q[m] == w[k];
        assert(!p(q[m][i]));
    }
    lemma_joined_even(w);
    let one = joined(w, " "@);
    let t = squeezed(s, cap);
    if one.len() <= cap {
        lemma_even_words(one);
    } else {
        reveal_strlit("…");
        let n: nat = if cap == 0 {
            0
        } else {
            (cap - 1) as nat
        };
        assert(t == one.take(n as int) + "…"@);
        assert(t.last() == '…');
        assert(!white('…'));
        assert forall|i: int| 0 <= i < t.len() && white(#[trigger] t[i]) implies t[i] == ' ' by {
            if i < n {
                assert(t[i] == one[i]);
            }
        }
        assert forall|i: int, j: int| 0 <= i && j == i + 1 && j < t.len() implies !(white(
            #[trigger] t[i],
        ) && white(#[trigger] t[j])) by {
            if j < n {
                assert(t[i] == one[i] && t[j] == one[j]);
            }
        }
        if n > 0 {
            assert(t[0] == one[0]);
        }
        lemma_even_words(t);
        if cap > 0 {
            assert(t.len() == cap);
        } else {
            assert(one.take(0) + "…"@ =~= "…"@);
            assert(t.take(0) + "…"@ =~= t);
        }
    }
}

} // verus!
