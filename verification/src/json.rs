//! JSON values that the library reads and builds, and their exchange with
//! `serde_json`.
use serde_json::Value;
use vstd::prelude::*;
use crate::smap::{ascending, at, entries_view, lemma_at_put, put, StrMap};
use crate::text::{copy, dec, has_char, same, strs, trimmed};

verus! {

/// A JSON value. A number that is no integer of 64 bits is kept as its text.
pub enum Datum {
    Null,
    Bool(bool),
    UInt(u64),
    NInt(i64),
    Real(String),
    Str(String),
    Array(Vec<Datum>),
    Object(Vec<(String, Datum)>),
}

/// The mathematical JSON value that a [`Datum`] stands for.
pub enum Json {
    Null,
    Bool(bool),
    UInt(u64),
    NInt(i64),
    Real(Seq<char>),
    Str(Seq<char>),
    Array(Seq<Json>),
    Object(Seq<(Seq<char>, Json)>),
}

pub open spec fn value_view(v: Datum) -> Json
    decreases v,
{
    match v {
        Datum::Null => Json::Null,
        Datum::Bool(b) => Json::Bool(b),
        Datum::UInt(n) => Json::UInt(n),
        Datum::NInt(n) => Json::NInt(n),
        Datum::Real(s) => Json::Real(s@),
        Datum::Str(s) => Json::Str(s@),
        Datum::Array(a) => Json::Array(
            Seq::new(
                a@.len(),
                |i: int|
                    if 0 <= i < a@.len() {
                        value_view(a@[i])
                    } else {
                        Json::Null
                    },
            ),
        ),
        Datum::Object(a) => Json::Object(
            Seq::new(
                a@.len(),
                |i: int|
                    if 0 <= i < a@.len() {
                        (a@[i].0@, value_view(a@[i].1))
                    } else {
                        (Seq::empty(), Json::Null)
                    },
            ),
        ),
    }
}

impl View for Datum {
    type V = Json;

    open spec fn view(&self) -> Json {
        value_view(*self)
    }
}

/// The views of a list of values.
pub open spec fn views(v: Seq<Datum>) -> Seq<Json> {
    Seq::new(v.len(), |i: int| v[i]@)
}

/// The views of a list of members.
pub open spec fn members(v: Seq<(String, Datum)>) -> Seq<(Seq<char>, Json)> {
    Seq::new(v.len(), |i: int| (v[i].0@, v[i].1@))
}

pub proof fn lemma_array_view(a: Vec<Datum>)
    ensures
        Datum::Array(a)@ == Json::Array(views(a@)),
{
    let s = Datum::Array(a)@->Array_0;
    assert(s =~= views(a@));
}

pub proof fn lemma_object_view(a: Vec<(String, Datum)>)
    ensures
        Datum::Object(a)@ == Json::Object(members(a@)),
{
    let s = Datum::Object(a)@->Object_0;
    assert(s =~= members(a@));
}

/// The value of the first member named `key`.
pub open spec fn lookup(ms: Seq<(Seq<char>, Json)>, key: Seq<char>) -> Option<Json>
    decreases ms.len(),
{
    if ms.len() == 0 {
        None
    } else if ms[0].0 == key {
        Some(ms[0].1)
    } else {
        lookup(ms.drop_first(), key)
    }
}

/// The member `key` of an object; other values have no members.
pub open spec fn get(j: Json, key: Seq<char>) -> Option<Json> {
    match j {
        Json::Object(ms) => lookup(ms, key),
        _ => None,
    }
}

pub open spec fn as_str(j: Option<Json>) -> Option<Seq<char>> {
    match j {
        Some(Json::Str(s)) => Some(s),
        _ => None,
    }
}

pub open spec fn as_u64(j: Option<Json>) -> Option<u64> {
    match j {
        Some(Json::UInt(n)) => Some(n),
        _ => None,
    }
}

pub open spec fn as_i64(j: Option<Json>) -> Option<i64> {
    match j {
        Some(Json::UInt(n)) if n <= i64::MAX => Some(n as i64),
        Some(Json::NInt(n)) => Some(n),
        _ => None,
    }
}

pub open spec fn as_bool(j: Option<Json>) -> Option<bool> {
    match j {
        Some(Json::Bool(b)) => Some(b),
        _ => None,
    }
}

pub open spec fn as_array(j: Option<Json>) -> Option<Seq<Json>> {
    match j {
        Some(Json::Array(a)) => Some(a),
        _ => None,
    }
}

pub open spec fn as_object(j: Option<Json>) -> Option<Seq<(Seq<char>, Json)>> {
    match j {
        Some(Json::Object(a)) => Some(a),
        _ => None,
    }
}

/// The view of an optional reference to a value.
pub open spec fn opt_view(v: Option<&Datum>) -> Option<Json> {
    match v {
        Some(x) => Some(x@),
        None => None,
    }
}

impl Datum {
    pub fn get(&self, key: &str) -> (r: Option<&Datum>)
        ensures
            opt_view(r) == get(self@, key@),
    {
        match self {
            Datum::Object(ms) => {
                proof {
                    lemma_object_view(*ms);
                }
                let ghost all = members(ms@);
                assert(all.skip(0) =~= all);
                for i in 0..ms.len()
                    invariant
                        all == members(ms@),
                        self@ == Json::Object(all),
                        lookup(all, key@) == lookup(all.skip(i as int), key@),
                {
                    if same(ms[i].0.as_str(), key) {
                        return Some(&ms[i].1);
                    }
                    assert(all.skip(i as int).drop_first() =~= all.skip(i + 1));
                }
                None
            },
            _ => None,
        }
    }

    pub fn text(&self) -> (r: Option<&String>)
        ensures
            match r {
                Some(s) => as_str(Some(self@)) == Some(s@),
                None => as_str(Some(self@)) is None,
            },
    {
        match self {
            Datum::Str(s) => Some(s),
            _ => None,
        }
    }

    pub fn items(&self) -> (r: Option<&Vec<Datum>>)
        ensures
            match r {
                Some(a) => as_array(Some(self@)) == Some(views(a@)),
                None => as_array(Some(self@)) is None,
            },
    {
        match self {
            Datum::Array(a) => {
                proof {
                    lemma_array_view(*a);
                }
                Some(a)
            },
            _ => None,
        }
    }

    pub fn fields(&self) -> (r: Option<&Vec<(String, Datum)>>)
        ensures
            match r {
                Some(a) => as_object(Some(self@)) == Some(members(a@)),
                None => as_object(Some(self@)) is None,
            },
    {
        match self {
            Datum::Object(a) => {
                proof {
                    lemma_object_view(*a);
                }
                Some(a)
            },
            _ => None,
        }
    }

    pub fn copy(&self) -> (r: Datum)
        ensures
            r@ == self@,
        decreases self,
    {
        match self {
            Datum::Null => Datum::Null,
            Datum::Bool(b) => Datum::Bool(*b),
            Datum::UInt(n) => Datum::UInt(*n),
            Datum::NInt(n) => Datum::NInt(*n),
            Datum::Real(s) => Datum::Real(copy(s.as_str())),
            Datum::Str(s) => Datum::Str(copy(s.as_str())),
            Datum::Array(a) => {
                let mut out: Vec<Datum> = Vec::new();
                for i in 0..a.len()
                    invariant
                        out@.len() == i,
                        *self == Datum::Array(*a),
                        forall|j: int| 0 <= j < i ==> out@[j]@ == a@[j]@,
                {
                    let x: &Datum = &a[i];
                    assert(decreases_to!(self => x)) by {
                        let b = (*self)->Array_0;
                        assert(decreases_to!(*self => (*self)->Array_0));
                        assert(decreases_to!(b => b@));
                        assert(decreases_to!(b@ => b@[i as int]));
                    }
                    out.push(x.copy());
                }
                proof {
                    lemma_array_view(*a);
                    lemma_array_view(out);
                    assert(views(out@) =~= views(a@));
                }
                Datum::Array(out)
            },
            Datum::Object(a) => {
                let mut out: Vec<(String, Datum)> = Vec::new();
                for i in 0..a.len()
                    invariant
                        out@.len() == i,
                        *self == Datum::Object(*a),
                        forall|j: int|
                            0 <= j < i ==> (#[trigger] out@[j]).0@ == a@[j].0@ && out@[j].1@
                                == a@[j].1@,
                {
                    let x: &Datum = &a[i].1;
                    assert(decreases_to!(self => x)) by {
                        let b = (*self)->Object_0;
                        assert(decreases_to!(*self => (*self)->Object_0));
                        assert(decreases_to!(b => b@));
                        assert(decreases_to!(b@ => b@[i as int]));
                        assert(decreases_to!(b@[i as int] => b@[i as int].1));
                    }
                    out.push((copy(a[i].0.as_str()), x.copy()));
                }
                proof {
                    lemma_object_view(*a);
                    lemma_object_view(out);
                    assert(members(out@) =~= members(a@));
                }
                Datum::Object(out)
            },
        }
    }
}

/// The value of member `key` if it is a string.
pub fn get_str<'a>(v: &'a Datum, key: &str) -> (r: Option<&'a String>)
    ensures
        match r {
            Some(s) => as_str(get(v@, key@)) == Some(s@),
            None => as_str(get(v@, key@)) is None,
        },
{
    match v.get(key) {
        Some(x) => x.text(),
        None => None,
    }
}

pub fn get_u64(v: &Datum, key: &str) -> (r: Option<u64>)
    ensures
        r == as_u64(get(v@, key@)),
{
    match v.get(key) {
        Some(Datum::UInt(n)) => Some(*n),
        _ => None,
    }
}

pub fn get_i64(v: &Datum, key: &str) -> (r: Option<i64>)
    ensures
        r == as_i64(get(v@, key@)),
{
    match v.get(key) {
        Some(Datum::UInt(n)) => if *n <= 0x7fff_ffff_ffff_ffff {
            Some(*n as i64)
        } else {
            None
        },
        Some(Datum::NInt(n)) => Some(*n),
        _ => None,
    }
}

pub fn get_bool(v: &Datum, key: &str) -> (r: Option<bool>)
    ensures
        r == as_bool(get(v@, key@)),
{
    match v.get(key) {
        Some(Datum::Bool(b)) => Some(*b),
        _ => None,
    }
}

pub fn get_items<'a>(v: &'a Datum, key: &str) -> (r: Option<&'a Vec<Datum>>)
    ensures
        match r {
            Some(a) => as_array(get(v@, key@)) == Some(views(a@)),
            None => as_array(get(v@, key@)) is None,
        },
{
    match v.get(key) {
        Some(x) => x.items(),
        None => None,
    }
}

/// The string `s` of a member, or the text `default`.
pub open spec fn str_or(j: Json, key: Seq<char>, default: Seq<char>) -> Seq<char> {
    match as_str(get(j, key)) {
        Some(s) => s,
        None => default,
    }
}

pub open spec fn u64_or(j: Json, key: Seq<char>, default: u64) -> u64 {
    match as_u64(get(j, key)) {
        Some(n) => n,
        None => default,
    }
}

pub open spec fn bool_or(j: Json, key: Seq<char>, default: bool) -> bool {
    match as_bool(get(j, key)) {
        Some(b) => b,
        None => default,
    }
}

pub fn string_or(v: &Datum, key: &str, default: &str) -> (r: String)
    ensures
        r@ == str_or(v@, key@, default@),
{
    match get_str(v, key) {
        Some(s) => copy(s.as_str()),
        None => copy(default),
    }
}

pub fn number_or(v: &Datum, key: &str, default: u64) -> (r: u64)
    ensures
        r == u64_or(v@, key@, default),
{
    match get_u64(v, key) {
        Some(n) => n,
        None => default,
    }
}

pub fn flag_or(v: &Datum, key: &str, default: bool) -> (r: bool)
    ensures
        r == bool_or(v@, key@, default),
{
    match get_bool(v, key) {
        Some(b) => b,
        None => default,
    }
}

/// The text of each string in a list; other values give nothing.
pub open spec fn text_of() -> spec_fn(Json) -> Option<Seq<char>> {
    |j: Json| as_str(Some(j))
}

/// The strings of a list, in order; other values are left out.
pub open spec fn texts_of(items: Seq<Json>) -> Seq<Seq<char>> {
    items.filter_map(text_of())
}

pub fn texts(items: &Vec<Datum>) -> (r: Vec<String>)
    ensures
        strs(r@) == texts_of(views(items@)),
{
    let ghost all = views(items@);
    let mut out: Vec<String> = Vec::new();
    assert(strs(out@) =~= texts_of(all.take(0)));
    for i in 0..items.len()
        invariant
            all == views(items@),
            strs(out@) == texts_of(all.take(i as int)),
    {
        proof {
            all.lemma_filter_map_take_succ(text_of(), i as int);
        }
        let ghost before = out@;
        if let Some(s) = items[i].text() {
            out.push(copy(s.as_str()));
            assert(strs(out@) =~= strs(before).push(s@));
            assert(strs(out@) =~= texts_of(all.take(i as int)) + seq![s@]);
        } else {
            assert(strs(out@) =~= texts_of(all.take(i as int)) + Seq::<Seq<char>>::empty());
        }
    }
    assert(all.take(all.len() as int) =~= all);
    out
}

/// Strings read from a list of strings are those strings.
pub proof fn lemma_texts_of_strs(v: Seq<Seq<char>>)
    ensures
        texts_of(v.map_values(|s: Seq<char>| Json::Str(s))) == v,
    decreases v.len(),
{
    let all = v.map_values(|s: Seq<char>| Json::Str(s));
    if v.len() == 0 {
        assert(all.take(0) =~= all);
        assert(texts_of(all) =~= v);
    } else {
        let n = v.len() - 1;
        lemma_texts_of_strs(v.drop_last());
        all.lemma_filter_map_take_succ(text_of(), n);
        assert(all.take(n) =~= v.drop_last().map_values(|s: Seq<char>| Json::Str(s)));
        assert(all.take(n + 1) =~= all);
        assert(texts_of(all) =~= v.drop_last() + seq![v.last()]);
        assert(v =~= v.drop_last().push(v.last()));
    }
}

/// The strings of the list at member `key`; nothing where there is no list.
pub open spec fn strings_at(j: Json, key: Seq<char>) -> Seq<Seq<char>> {
    match as_array(get(j, key)) {
        Some(a) => texts_of(a),
        None => Seq::empty(),
    }
}

pub fn get_strings(v: &Datum, key: &str) -> (r: Vec<String>)
    ensures
        strs(r@) == strings_at(v@, key@),
{
    match get_items(v, key) {
        Some(a) => texts(a),
        None => {
            let out: Vec<String> = Vec::new();
            assert(strs(out@) =~= Seq::<Seq<char>>::empty());
            out
        },
    }
}

// ---------------------------------------------------------------------------
// Building

/// A list of strings as a JSON array.
pub open spec fn json_strs(v: Seq<Seq<char>>) -> Json {
    Json::Array(Seq::new(v.len(), |i: int| Json::Str(v[i])))
}

pub open spec fn json_opt_str(s: Option<Seq<char>>) -> Json {
    match s {
        Some(t) => Json::Str(t),
        None => Json::Null,
    }
}

pub open spec fn json_opt_u64(n: Option<u64>) -> Json {
    match n {
        Some(x) => Json::UInt(x),
        None => Json::Null,
    }
}

/// A signed integer as JSON has it.
pub open spec fn json_i64(n: i64) -> Json {
    if n >= 0 {
        Json::UInt(n as u64)
    } else {
        Json::NInt(n)
    }
}

pub open spec fn json_opt_i64(n: Option<i64>) -> Json {
    match n {
        Some(k) => json_i64(k),
        None => Json::Null,
    }
}

pub fn i64_value(n: i64) -> (r: Datum)
    ensures
        r@ == json_i64(n),
{
    if n >= 0 {
        Datum::UInt(n as u64)
    } else {
        Datum::NInt(n)
    }
}

pub fn opt_i64_value(n: Option<i64>) -> (r: Datum)
    ensures
        r@ == json_opt_i64(n),
{
    match n {
        Some(k) => i64_value(k),
        None => Datum::Null,
    }
}

pub fn str_value(s: &str) -> (r: Datum)
    ensures
        r@ == Json::Str(s@),
{
    Datum::Str(copy(s))
}

pub fn opt_str_value(s: &Option<String>) -> (r: Datum)
    ensures
        r@ == json_opt_str(crate::text::opt_text(*s)),
{
    match s {
        Some(t) => Datum::Str(copy(t.as_str())),
        None => Datum::Null,
    }
}

pub fn opt_u64_value(n: Option<u64>) -> (r: Datum)
    ensures
        r@ == json_opt_u64(n),
{
    match n {
        Some(x) => Datum::UInt(x),
        None => Datum::Null,
    }
}

pub fn strs_value(v: &Vec<String>) -> (r: Datum)
    ensures
        r@ == json_strs(strs(v@)),
{
    let mut out: Vec<Datum> = Vec::new();
    for i in 0..v.len()
        invariant
            out@.len() == i,
            forall|j: int| 0 <= j < i ==> out@[j]@ == Json::Str(v@[j]@),
    {
        out.push(str_value(v[i].as_str()));
    }
    proof {
        lemma_array_view(out);
        assert(views(out@) =~= Seq::new(strs(v@).len(), |i: int| Json::Str(strs(v@)[i])));
    }
    Datum::Array(out)
}

/// Adds one member at the end of an object under construction.
pub fn add_member(out: &mut Vec<(String, Datum)>, key: &str, value: Datum)
    ensures
        members(final(out)@) == members(old(out)@).push((key@, value@)),
{
    let ghost before = out@;
    out.push((copy(key), value));
    assert(members(out@) =~= members(before).push((key@, value@)));
}

pub fn no_members() -> (r: Vec<(String, Datum)>)
    ensures
        members(r@) == Seq::<(Seq<char>, Json)>::empty(),
{
    let out: Vec<(String, Datum)> = Vec::new();
    assert(members(out@) =~= Seq::<(Seq<char>, Json)>::empty());
    out
}

pub fn object(ms: Vec<(String, Datum)>) -> (r: Datum)
    ensures
        r@ == Json::Object(members(ms@)),
{
    proof {
        lemma_object_view(ms);
    }
    Datum::Object(ms)
}

pub fn array(items: Vec<Datum>) -> (r: Datum)
    ensures
        r@ == Json::Array(views(items@)),
{
    proof {
        lemma_array_view(items);
    }
    Datum::Array(items)
}

/// An object with one member set; other values stay as they are.
pub open spec fn with_member(j: Json, key: Seq<char>, value: Json) -> Json {
    match j {
        Json::Object(ms) => Json::Object(put(ms, key, value)),
        _ => j,
    }
}

/// Whether the members of an object stand in ascending order of their names.
pub open spec fn ordered(j: Json) -> bool {
    match j {
        Json::Object(ms) => ascending(ms),
        _ => true,
    }
}

pub fn set_member(v: Datum, key: &str, value: Datum) -> (r: Datum)
    requires
        ordered(v@),
    ensures
        r@ == with_member(v@, key@, value@),
        ordered(r@),
{
    match v {
        Datum::Object(ms) => {
            proof {
                lemma_object_view(ms);
                assert(members(ms@) =~= entries_view(ms@));
            }
            let mut map = StrMap { entries: ms };
            map.insert(key, value);
            proof {
                assert(members(map.entries@) =~= entries_view(map.entries@));
            }
            object(map.entries)
        },
        _ => v,
    }
}

/// Members put one after the other: of two with one name, the later one counts.
pub open spec fn put_all(ms: Seq<(Seq<char>, Json)>) -> Seq<(Seq<char>, Json)>
    decreases ms.len(),
{
    if ms.len() == 0 {
        Seq::empty()
    } else {
        put(put_all(ms.drop_last()), ms.last().0, ms.last().1)
    }
}

/// The object with the given members, in the order of their names.
pub open spec fn record(ms: Seq<(Seq<char>, Json)>) -> Json {
    Json::Object(put_all(ms))
}

pub fn build(ms: Vec<(String, Datum)>) -> (r: Datum)
    ensures
        r@ == record(members(ms@)),
        ordered(r@),
{
    let ghost all = members(ms@);
    let mut map: StrMap<Datum> = StrMap::new();
    assert(all.take(0) =~= Seq::<(Seq<char>, Json)>::empty());
    for i in 0..ms.len()
        invariant
            all == members(ms@),
            map.wf(),
            map@ == put_all(all.take(i as int)),
    {
        assert(all.take(i + 1).drop_last() =~= all.take(i as int));
        assert(all[i as int] == (ms@[i as int].0@, ms@[i as int].1@));
        map.insert(ms[i].0.as_str(), ms[i].1.copy());
    }
    assert(all.take(all.len() as int) =~= all);
    assert(members(map.entries@) =~= map@);
    object(map.entries)
}

pub proof fn lemma_lookup_at(ms: Seq<(Seq<char>, Json)>, key: Seq<char>)
    ensures
        lookup(ms, key) == at(ms, key),
    decreases ms.len(),
{
    if ms.len() > 0 {
        lemma_lookup_at(ms.drop_first(), key);
    }
}

/// A member of a record is the last one given under its name.
pub proof fn lemma_record_get(ms: Seq<(Seq<char>, Json)>, i: int)
    requires
        0 <= i < ms.len(),
        forall|j: int| i < j < ms.len() ==> (#[trigger] ms[j]).0 != ms[i].0,
    ensures
        get(record(ms), ms[i].0) == Some(ms[i].1),
    decreases ms.len(),
{
    let front = ms.drop_last();
    lemma_at_put(put_all(front), ms.last().0, ms.last().1, ms[i].0);
    lemma_lookup_at(put_all(ms), ms[i].0);
    if i < ms.len() - 1 {
        assert(front[i] == ms[i]);
        assert forall|j: int| i < j < front.len() implies (#[trigger] front[j]).0
            != front[i].0 by {
            assert(front[j] == ms[j]);
        }
        lemma_record_get(front, i);
        lemma_lookup_at(put_all(front), ms[i].0);
    }
}

/// A record has no member under a name that was not given.
pub proof fn lemma_record_none(ms: Seq<(Seq<char>, Json)>, key: Seq<char>)
    requires
        forall|j: int| 0 <= j < ms.len() ==> (#[trigger] ms[j]).0 != key,
    ensures
        get(record(ms), key) is None,
    decreases ms.len(),
{
    lemma_lookup_at(put_all(ms), key);
    if ms.len() > 0 {
        let front = ms.drop_last();
        assert forall|j: int| 0 <= j < front.len() implies (#[trigger] front[j]).0 != key by {
            assert(front[j] == ms[j]);
        }
        lemma_at_put(put_all(front), ms.last().0, ms.last().1, key);
        lemma_record_none(front, key);
        lemma_lookup_at(put_all(front), key);
    }
}

/// An integer, or any other number, as JSON has it.
pub open spec fn is_number(j: Json) -> bool {
    j is UInt || j is NInt || j is Real
}

impl Datum {
    pub fn is_null(&self) -> (r: bool)
        ensures
            r == (self@ == Json::Null),
    {
        match self {
            Datum::Null => true,
            Datum::Array(a) => {
                proof {
                    lemma_array_view(*a);
                }
                false
            },
            Datum::Object(a) => {
                proof {
                    lemma_object_view(*a);
                }
                false
            },
            _ => false,
        }
    }

    pub fn number(&self) -> (r: bool)
        ensures
            r == is_number(self@),
    {
        match self {
            Datum::UInt(_) => true,
            Datum::NInt(_) => true,
            Datum::Real(_) => true,
            _ => false,
        }
    }
}

// ---------------------------------------------------------------------------
// Exchange with serde_json

#[verifier::external_type_specification]
#[verifier::external_body]
pub struct ExSerdeValue(serde_json::Value);

/// What a `serde_json::Value` holds.
pub uninterp spec fn json_of(v: serde_json::Value) -> Json;

/// What `serde_json` reads from a text, if the text is JSON.
pub uninterp spec fn json_parsed(text: Seq<char>) -> Option<Json>;

/// The compact text that `serde_json` writes for a value.
pub uninterp spec fn json_compact(j: Json) -> Seq<char>;

/// What `serde_json` holds of a value that is handed to it: numbers that were kept
/// as texts are read, and the members of objects are brought into order.
pub uninterp spec fn serde_held(j: Json) -> Json;

/// The text that `serde_json` writes for the double nearest to an integer.
pub uninterp spec fn double_text(n: int) -> Seq<char>;

/// The integers up to this one, and those down to its negative, are doubles and are
/// written with all their digits.
pub const EXACT: u64 = 1_000_000_000_000_000;

/// The text of the double nearest to an integer.
pub open spec fn double_of(n: int) -> Seq<char> {
    if 0 <= n <= EXACT {
        dec(n as nat) + ".0"@
    } else if -EXACT <= n < 0 {
        "-"@ + dec((-n) as nat) + ".0"@
    } else {
        double_text(n)
    }
}

/// A value with an integer taken as a double.
pub open spec fn double_json(j: Json) -> Json {
    match j {
        Json::UInt(n) => Json::Real(double_of(n as int)),
        Json::NInt(n) => Json::Real(double_of(n as int)),
        _ => j,
    }
}

/// The number at a member as a double, or what stands for it where there is none.
pub open spec fn double_at(j: Json, key: Seq<char>, default: Seq<char>) -> Json {
    match get(j, key) {
        Some(v) => if is_number(v) {
            double_json(v)
        } else {
            Json::Real(default)
        },
        None => Json::Real(default),
    }
}

/// Digits around a point at `k`, at most fifteen of them, without a zero that could be
/// left out, and of a number that is zero or no less than 0.0001.
pub open spec fn short_digits(t: Seq<char>, k: int) -> bool {
    &&& 0 < k < t.len() - 1
    &&& t.len() <= 16
    &&& t[k] == '.'
    &&& forall|i: int| 0 <= i < t.len() && i != k ==> '0' <= #[trigger] t[i] <= '9'
    &&& t[0] != '0' || k == 1
    &&& t.last() != '0' || k == t.len() - 2
    &&& t[0] != '0' || t[2] != '0' || t.len() <= 6
}

/// The text of a double that is written with a point and with at most fifteen digits.
pub open spec fn short_real(t: Seq<char>) -> bool {
    ||| exists|k: int| short_digits(t, k)
    ||| t.len() > 0 && t[0] == '-' && exists|k: int| short_digits(t.skip(1), k)
}

/// Values that a map with ordered, unique names can hold: members in ascending
/// order, negative integers only where they are negative, other numbers only as
/// short texts of doubles, and at most `depth` levels of nesting.
pub open spec fn plain(j: Json, depth: nat) -> bool
    decreases depth, 1nat, 0nat,
{
    match j {
        Json::NInt(n) => n < 0,
        Json::Real(t) => short_real(t),
        Json::Array(a) => depth > 0 && plain_items(a, (depth - 1) as nat, a.len()),
        Json::Object(ms) => depth > 0 && ascending(ms) && plain_members(
            ms,
            (depth - 1) as nat,
            ms.len(),
        ),
        _ => true,
    }
}

pub open spec fn plain_items(a: Seq<Json>, depth: nat, n: nat) -> bool
    decreases depth, 2nat, n,
{
    n == 0 || n > a.len() || (plain(a[n - 1], depth) && plain_items(a, depth, (n - 1) as nat))
}

pub open spec fn plain_members(ms: Seq<(Seq<char>, Json)>, depth: nat, n: nat) -> bool
    decreases depth, 2nat, n,
{
    n == 0 || n > ms.len() || (plain(ms[n - 1].1, depth) && plain_members(
        ms,
        depth,
        (n - 1) as nat,
    ))
}

proof fn lemma_items_plain(a: Seq<Json>, depth: nat, n: nat)
    requires
        forall|i: int| 0 <= i < a.len() ==> (#[trigger] a[i]) is Str,
    ensures
        plain_items(a, depth, n),
    decreases n,
{
    if n > 0 && n <= a.len() {
        lemma_items_plain(a, depth, (n - 1) as nat);
        assert(a[n - 1] is Str);
        assert(plain(a[n - 1], depth));
    }
}

/// A list of texts is plain.
pub proof fn lemma_strs_plain(v: Seq<Seq<char>>)
    ensures
        plain(json_strs(v), 1),
{
    let a = json_strs(v)->Array_0;
    assert forall|i: int| 0 <= i < a.len() implies (#[trigger] a[i]) is Str by {}
    lemma_items_plain(a, 0, a.len());
}

/// `serde_json::from_str` into a `serde_json::Value`: the value that the text
/// holds, or nothing where the text is not JSON.
#[verifier::external_body]
fn read_serde(text: &str) -> (r: Option<serde_json::Value>)
    ensures
        match r {
            Some(v) => json_parsed(text@) == Some(json_of(v)),
            None => json_parsed(text@) is None,
        },
{
    serde_json::from_str(text).ok()
}

/// A `serde_json::Value` taken apart: variant for variant, with the entries of
/// an object in the order in which the map yields them, and a number that is no
/// integer of 64 bits as its text.
#[verifier::external_body]
fn from_serde(v: &serde_json::Value) -> (r: Datum)
    ensures
        r@ == json_of(*v),
{
    match v {
        Value::Null => Datum::Null,
        Value::Bool(b) => Datum::Bool(*b),
        Value::Number(n) => match (n.as_u64(), n.as_i64()) {
            (Some(u), _) => Datum::UInt(u),
            (None, Some(i)) => Datum::NInt(i),
            (None, None) => Datum::Real(n.to_string()),
        },
        Value::String(s) => Datum::Str(s.clone()),
        Value::Array(a) => Datum::Array(a.iter().map(from_serde).collect()),
        Value::Object(m) => {
            Datum::Object(m.iter().map(|(k, x)| (k.clone(), from_serde(x))).collect())
        },
    }
}

/// A value as a `serde_json::Value`, variant for variant; a number kept as text
/// is read back as a number. It holds what it was made from wherever the names
/// of members are unique and ascending and every number is an integer or the text of
/// a double with at most fifteen digits, which no other text of so few denotes.
#[verifier::external_body]
fn to_serde(v: &Datum) -> (r: serde_json::Value)
    ensures
        json_of(r) == serde_held(v@),
        forall|d: nat| plain(v@, d) ==> json_of(r) == v@,
{
    match v {
        Datum::Null => Value::Null,
        Datum::Bool(b) => Value::Bool(*b),
        Datum::UInt(n) => Value::from(*n),
        Datum::NInt(n) => Value::from(*n),
        Datum::Real(s) => serde_json::from_str(s).unwrap_or(Value::Null),
        Datum::Str(s) => Value::String(s.clone()),
        Datum::Array(a) => Value::Array(a.iter().map(to_serde).collect()),
        Datum::Object(m) => {
            Value::Object(m.iter().map(|(k, x)| (k.clone(), to_serde(x))).collect())
        },
    }
}

/// `serde_json::Value::as_f64`, as a value again: the double nearest to an integer,
/// which is written with its digits and a zero behind the point as long as it is small
/// enough. A number that is a double stays as it is, and what is no number gives none.
#[verifier::external_body]
fn as_double(v: &serde_json::Value) -> (r: serde_json::Value)
    ensures
        match json_of(*v) {
            Json::UInt(n) => json_of(r) == Json::Real(
                if n <= EXACT {
                    dec(n as nat) + ".0"@
                } else {
                    double_text(n as int)
                },
            ),
            Json::NInt(n) => json_of(r) == Json::Real(
                if n >= -EXACT {
                    "-"@ + dec((-n) as nat) + ".0"@
                } else {
                    double_text(n as int)
                },
            ),
            Json::Real(_) => json_of(r) == json_of(*v),
            _ => json_of(r) is Null,
        },
{
    Value::from(v.as_f64())
}

/// `to_string` of a `serde_json::Value`: the compact text of a value, which is one
/// line and not blank. Reading it gives the value back where it holds integers of 64
/// bits, doubles with at most fifteen digits, strings, lists and objects that are not
/// nested too deep. Nothing is said of reading back a double with more digits, whose
/// last bit the default reader may miss, or a value nested so deep that the reader may
/// refuse it.
#[verifier::external_body]
fn write_serde(v: &serde_json::Value) -> (r: String)
    ensures
        r@ == json_compact(json_of(*v)),
        !has_char(r@, '\n'),
        trimmed(r@).len() > 0,
        plain(json_of(*v), 100) ==> json_parsed(r@) == Some(json_of(*v)),
{
    v.to_string()
}

impl Datum {
    /// The value with an integer taken as a double.
    pub fn double(&self) -> (r: Datum)
        ensures
            r@ == double_json(self@),
    {
        match self {
            Datum::UInt(_) => {
                assert(plain(self@, 0));
                from_serde(&as_double(&to_serde(self)))
            },
            Datum::NInt(n) => if *n < 0 {
                assert(plain(self@, 0));
                from_serde(&as_double(&to_serde(self)))
            } else {
                let m = Datum::UInt(*n as u64);
                assert(plain(m@, 0));
                from_serde(&as_double(&to_serde(&m)))
            },
            _ => {
                assert(self@ == double_json(self@)) by {
                    if let Datum::Array(a) = self {
                        lemma_array_view(*a);
                    }
                    if let Datum::Object(a) = self {
                        lemma_object_view(*a);
                    }
                }
                self.copy()
            },
        }
    }
}

/// Reads the number at a member as a double.
pub fn read_double(v: &Datum, key: &str, default: &str) -> (r: Datum)
    ensures
        r@ == double_at(v@, key@, default@),
{
    match v.get(key) {
        Some(n) => if n.number() {
            n.double()
        } else {
            Datum::Real(copy(default))
        },
        None => Datum::Real(copy(default)),
    }
}

/// The indented text of a value.
pub uninterp spec fn json_pretty(j: Json) -> Seq<char>;

/// `serde_json::to_string_pretty` of a `serde_json::Value`: the text of a value on
/// indented lines. Reading it gives the value back where reading its compact text
/// does.
#[verifier::external_body]
fn write_pretty(v: &serde_json::Value) -> (r: String)
    ensures
        r@ == json_pretty(json_of(*v)),
        plain(json_of(*v), 100) ==> json_parsed(r@) == Some(json_of(*v)),
{
    serde_json::to_string_pretty(v).unwrap_or_default()
}

/// The indented text of a value.
pub fn pretty(v: &Datum) -> (r: String)
    ensures
        r@ == json_pretty(serde_held(v@)),
        forall|d: nat| plain(v@, d) ==> r@ == json_pretty(v@),
        plain(v@, 100) ==> json_parsed(r@) == Some(v@),
{
    write_pretty(&to_serde(v))
}

/// Members in ascending order are put as they are.
pub proof fn lemma_put_all_ascending(ms: Seq<(Seq<char>, Json)>)
    requires
        ascending(ms),
    ensures
        put_all(ms) == ms,
    decreases ms.len(),
{
    if ms.len() > 0 {
        let front = ms.drop_last();
        assert forall|i: int, j: int| 0 <= i < j < front.len() implies crate::text::lex_lt(
            #[trigger] front[i].0,
            #[trigger] front[j].0,
        ) by {
            assert(crate::text::lex_lt(ms[i].0, ms[j].0));
        }
        lemma_put_all_ascending(front);
        let n = front.len() as int;
        assert forall|i: int| 0 <= i < n implies crate::text::lex_lt(
            (#[trigger] front[i]).0,
            ms.last().0,
        ) by {
            assert(crate::text::lex_lt(ms[i].0, ms[n].0));
        }
        crate::smap::lemma_put_index(front, ms.last().0, ms.last().1, n);
        assert(put(front, ms.last().0, ms.last().1) =~= ms);
    } else {
        assert(put_all(ms) =~= ms);
    }
}

/// Reads a JSON text.
pub fn parse(text: &str) -> (r: Option<Datum>)
    ensures
        match r {
            Some(v) => json_parsed(text@) == Some(v@),
            None => json_parsed(text@) is None,
        },
{
    match read_serde(text) {
        Some(v) => Some(from_serde(&v)),
        None => None,
    }
}

/// The compact text of a value.
pub fn compact(v: &Datum) -> (r: String)
    ensures
        r@ == json_compact(serde_held(v@)),
        forall|d: nat| plain(v@, d) ==> r@ == json_compact(v@),
        plain(v@, 100) ==> json_parsed(r@) == Some(v@),
        !has_char(r@, '\n'),
        trimmed(r@).len() > 0,
{
    write_serde(&to_serde(v))
}

// ---------------------------------------------------------------------------
// Laws

/// Ten to the power of `k`.
spec fn tens(k: nat) -> nat
    decreases k,
{
    if k == 0 {
        1
    } else {
        10 * tens((k - 1) as nat)
    }
}

proof fn lemma_dec_digits(n: nat, k: nat)
    requires
        k > 0,
        n < tens(k),
    ensures
        0 < dec(n).len() <= k,
        forall|i: int| 0 <= i < dec(n).len() ==> '0' <= #[trigger] dec(n)[i] <= '9',
        dec(n)[0] != '0' || dec(n).len() == 1,
        n > 0 ==> dec(n)[0] != '0',
    decreases n,
{
    if n >= 10 {
        if k == 1 {
            assert(tens(1) == 10 * tens(0));
        }
        assert(n / 10 < tens((k - 1) as nat));
        lemma_dec_digits(n / 10, (k - 1) as nat);
        let rest = dec(n / 10);
        assert forall|i: int| 0 <= i < dec(n).len() implies '0' <= #[trigger] dec(n)[i]
            <= '9' by {
            if i < rest.len() {
                assert(dec(n)[i] == rest[i]);
            }
        }
        assert(dec(n)[0] == rest[0]);
    }
}

proof fn lemma_whole_digits(n: nat)
    requires
        n < 100_000_000_000_000,
    ensures
        short_digits(dec(n) + ".0"@, dec(n).len() as int),
{
    assert(tens(14) == 100_000_000_000_000) by {
        reveal_with_fuel(tens, 15);
    }
    lemma_dec_digits(n, 14);
    reveal_strlit(".0");
    let k = dec(n).len() as int;
    let t = dec(n) + ".0"@;
    assert forall|i: int| 0 <= i < t.len() && i != k implies '0' <= #[trigger] t[i] <= '9' by {
        if i < k {
            assert(t[i] == dec(n)[i]);
        }
    }
    assert(t[0] == dec(n)[0]);
}

/// An integer of fewer than fifteen digits, taken as a double, is among the numbers that
/// are read back as they were written.
pub proof fn law_whole_doubles_are_short(n: int)
    requires
        -100_000_000_000_000 < n < 100_000_000_000_000,
    ensures
        short_real(double_of(n)),
{
    if n >= 0 {
        lemma_whole_digits(n as nat);
    } else {
        let m = (-n) as nat;
        lemma_whole_digits(m);
        reveal_strlit("-");
        assert(double_of(n).skip(1) =~= dec(m) + ".0"@);
    }
}

} // verus!
