//! A JSON document as plain data, with the lookups the feed and reply
//! parsers make (`value["key"]`, `as_str`, `as_i64`, ...).

use vstd::prelude::*;

verus! {

/// A JSON value. Numbers are kept by the class a reader can ask for:
/// integers that fit in `i64`, larger unsigned integers, and all other
/// numbers by their decimal text.
#[derive(Debug, PartialEq)]
pub enum Json {
    Null,
    Bool(bool),
    Int(i64),
    UInt(u64),
    Float(String),
    Str(String),
    Array(Vec<Json>),
    Object(Vec<(String, Json)>),
}

/// The mathematical value of a [`Json`].
pub enum JsonV {
    Null,
    Bool(bool),
    Int(i64),
    UInt(u64),
    Float(Seq<char>),
    Str(Seq<char>),
    Array(Seq<JsonV>),
    Object(Seq<(Seq<char>, JsonV)>),
}

pub open spec fn json_view(j: Json) -> JsonV
    decreases j, 0nat,
{
    match j {
        Json::Null => JsonV::Null,
        Json::Bool(b) => JsonV::Bool(b),
        Json::Int(i) => JsonV::Int(i),
        Json::UInt(u) => JsonV::UInt(u),
        Json::Float(t) => JsonV::Float(t@),
        Json::Str(s) => JsonV::Str(s@),
        Json::Array(items) => JsonV::Array(items_view(items@)),
        Json::Object(entries) => JsonV::Object(entries_view(entries@)),
    }
}

pub open spec fn items_view(s: Seq<Json>) -> Seq<JsonV>
    decreases s, s.len(),
{
    if s.len() == 0 {
        Seq::empty()
    } else {
        items_view(s.subrange(0, s.len() - 1)).push(json_view(s[s.len() - 1]))
    }
}

pub open spec fn entries_view(s: Seq<(String, Json)>) -> Seq<(Seq<char>, JsonV)>
    decreases s, s.len(),
{
    if s.len() == 0 {
        Seq::empty()
    } else {
        entries_view(s.subrange(0, s.len() - 1)).push(
            (s[s.len() - 1].0@, json_view(s[s.len() - 1].1)),
        )
    }
}


impl View for Json {
    type V = JsonV;

    open spec fn view(&self) -> JsonV {
        json_view(*self)
    }
}

pub proof fn lemma_items_view(s: Seq<Json>)
    ensures
        items_view(s).len() == s.len(),
        forall|i: int| 0 <= i < s.len() ==> #[trigger] items_view(s)[i] == json_view(s[i]),
    decreases s.len(),
{
    if s.len() > 0 {
        lemma_items_view(s.subrange(0, s.len() - 1));
    }
}

pub proof fn lemma_entries_view(s: Seq<(String, Json)>)
    ensures
        entries_view(s).len() == s.len(),
        forall|i: int|
            0 <= i < s.len() ==> #[trigger] entries_view(s)[i] == (s[i].0@, json_view(s[i].1)),
    decreases s.len(),
{
    if s.len() > 0 {
        lemma_entries_view(s.subrange(0, s.len() - 1));
    }
}

/// The value stored under `key` among object entries (the first entry
/// with that key), if any.
pub open spec fn entries_get(entries: Seq<(Seq<char>, JsonV)>, key: Seq<char>) -> Option<JsonV>
    decreases entries.len(),
{
    if entries.len() == 0 {
        None
    } else if entries[0].0 == key {
        Some(entries[0].1)
    } else {
        entries_get(entries.drop_first(), key)
    }
}

impl JsonV {
    /// `self[key]`: the member named `key` of an object, `Null` for a
    /// missing member or for a value that is not an object.
    pub open spec fn at(self, key: Seq<char>) -> JsonV {
        match self {
            JsonV::Object(entries) => match entries_get(entries, key) {
                Some(v) => v,
                None => JsonV::Null,
            },
            _ => JsonV::Null,
        }
    }

    pub open spec fn str_of(self) -> Option<Seq<char>> {
        match self {
            JsonV::Str(s) => Some(s),
            _ => None,
        }
    }

    pub open spec fn i64_of(self) -> Option<i64> {
        match self {
            JsonV::Int(i) => Some(i),
            _ => None,
        }
    }

    pub open spec fn bool_of(self) -> Option<bool> {
        match self {
            JsonV::Bool(b) => Some(b),
            _ => None,
        }
    }

    pub open spec fn array_of(self) -> Option<Seq<JsonV>> {
        match self {
            JsonV::Array(items) => Some(items),
            _ => None,
        }
    }
}

/// A looked-up member, where `None` stands for a missing member (read as `Null`).
pub open spec fn or_null(v: Option<&Json>) -> JsonV {
    match v {
        Some(j) => j@,
        None => JsonV::Null,
    }
}

/// A looked-up string, by its characters.
pub open spec fn opt_str_view(r: Option<&str>) -> Option<Seq<char>> {
    match r {
        Some(s) => Some(s@),
        None => None,
    }
}

/// Text equality of an owned string and a slice.
pub fn text_eq(a: &String, b: &str) -> (r: bool)
    ensures
        r == (a@ == b@),
{
    let owned: String = b.to_owned();
    *a == owned
}

proof fn lemma_entries_get_step(entries: Seq<(Seq<char>, JsonV)>, key: Seq<char>, i: int)
    requires
        0 <= i < entries.len(),
    ensures
        entries_get(entries.skip(i), key) == if entries[i].0 == key {
            Some(entries[i].1)
        } else {
            entries_get(entries.skip(i + 1), key)
        },
{
    assert(entries.skip(i).drop_first() =~= entries.skip(i + 1));
}

/// `v[key]`: the member `key` of a looked-up value (`None` for a missing
/// one). A member found is a part of the object it was found in.
pub fn member<'a>(v: Option<&'a Json>, key: &str) -> (r: Option<&'a Json>)
    ensures
        or_null(r) == or_null(v).at(key@),
        r matches Some(x) ==> (v matches Some(j) && decreases_to!(*j => *x)),
{
    match v {
        Some(Json::Object(entries)) => {
            let n = entries.len();
            let ghost ev = entries_view(entries@);
            proof {
                lemma_entries_view(entries@);
                assert(ev.skip(0) =~= ev);
            }
            let mut i: usize = 0;
            while i < n
                invariant
                    n == entries@.len(),
                    v matches Some(j) && *j == Json::Object(*entries),
                    or_null(v) == JsonV::Object(ev),
                    ev == entries_view(entries@),
                    ev.len() == n,
                    forall|k: int|
                        0 <= k < n ==> #[trigger] ev[k] == (entries@[k].0@, json_view(entries@[k].1)),
                    i <= n,
                    entries_get(ev, key@) == entries_get(ev.skip(i as int), key@),
                decreases n - i,
            {
                proof {
                    lemma_entries_get_step(ev, key@, i as int);
                }
                if text_eq(&entries[i].0, key) {
                    proof {
                        let j = *v->0;
                        assert(j == Json::Object(*entries));
                        assert(decreases_to!(j => j->Object_0));
                        assert(ev[i as int].0 == key@);
                        assert(entries_get(ev, key@) == Some(json_view(entries@[i as int].1)));
                        assert(decreases_to!(*entries => entries@));
                        assert(decreases_to!(entries@ => entries@[i as int]));
                        assert(decreases_to!(entries@[i as int] => entries@[i as int].1));
                    }
                    return Some(&entries[i].1);
                }
                i = i + 1;
            }
            proof {
                assert(ev.skip(n as int).len() == 0);
            }
            None
        },
        _ => None,
    }
}

/// `v.as_str()`
pub fn as_str<'a>(v: Option<&'a Json>) -> (r: Option<&'a str>)
    ensures
        opt_str_view(r) == or_null(v).str_of(),
{
    match v {
        Some(Json::Str(s)) => Some(s.as_str()),
        _ => None,
    }
}

/// `v.as_i64()`
pub fn as_i64(v: Option<&Json>) -> (r: Option<i64>)
    ensures
        r == or_null(v).i64_of(),
{
    match v {
        Some(Json::Int(i)) => Some(*i),
        _ => None,
    }
}

/// `v.as_bool()`
pub fn as_bool(v: Option<&Json>) -> (r: Option<bool>)
    ensures
        r == or_null(v).bool_of(),
{
    match v {
        Some(Json::Bool(b)) => Some(*b),
        _ => None,
    }
}

/// `v.as_array()`
pub fn as_array<'a>(v: Option<&'a Json>) -> (r: Option<&'a Vec<Json>>)
    ensures
        or_null(v).array_of() == (match r {
            Some(a) => Some(items_view(a@)),
            None => None,
        }),
        r matches Some(a) ==> (v matches Some(j) && decreases_to!(*j => *a)),
{
    match v {
        Some(Json::Array(items)) => {
            proof {
                assert(decreases_to!(*v->0 => *items));
            }
            Some(items)
        },
        _ => None,
    }
}

/// `v.is_null()`
pub fn is_null(v: Option<&Json>) -> (r: bool)
    ensures
        r == (or_null(v) is Null),
{
    match v {
        Some(Json::Null) => true,
        Some(_) => false,
        None => true,
    }
}

impl Json {
    /// A copy of the whole value.
    pub fn deep_copy(&self) -> (r: Json)
        ensures
            r@ == self@,
        decreases *self,
    {
        match self {
            Json::Null => Json::Null,
            Json::Bool(b) => Json::Bool(*b),
            Json::Int(i) => Json::Int(*i),
            Json::UInt(u) => Json::UInt(*u),
            Json::Float(t) => Json::Float(t.clone()),
            Json::Str(s) => Json::Str(s.clone()),
            Json::Array(items) => {
                let mut out: Vec<Json> = Vec::new();
                let n = items.len();
                proof {
                    lemma_items_view(items@);
                }
                for i in 0..n
                    invariant
                        n == items@.len(),
                        *self == Json::Array(*items),
                        out@.len() == i,
                        items_view(items@).len() == n,
                        forall|k: int|
                            0 <= k < n ==> #[trigger] items_view(items@)[k] == json_view(items@[k]),
                        forall|k: int| 0 <= k < i ==> #[trigger] json_view(out@[k]) == json_view(items@[k]),
                {
                    proof {
                        assert(decreases_to!(*self => self->Array_0));
                        assert(decreases_to!(*items => items@));
                        assert(decreases_to!(items@ => items@[i as int]));
                    }
                    let c = items[i].deep_copy();
                    out.push(c);
                }
                proof {
                    lemma_items_view(out@);
                    assert(items_view(out@) =~= items_view(items@));
                }
                Json::Array(out)
            },
            Json::Object(entries) => {
                let mut out: Vec<(String, Json)> = Vec::new();
                let n = entries.len();
                proof {
                    lemma_entries_view(entries@);
                }
                for i in 0..n
                    invariant
                        n == entries@.len(),
                        *self == Json::Object(*entries),
                        out@.len() == i,
                        entries_view(entries@).len() == n,
                        forall|k: int|
                            0 <= k < n ==> #[trigger] entries_view(entries@)[k] == (
                                entries@[k].0@,
                                json_view(entries@[k].1),
                            ),
                        forall|k: int| 0 <= k < i ==> (#[trigger] out@[k]).0@ == entries@[k].0@,
                        forall|k: int|
                            0 <= k < i ==> json_view((#[trigger] out@[k]).1) == json_view(
                                entries@[k].1,
                            ),
                {
                    proof {
                        assert(decreases_to!(*self => self->Object_0));
                        assert(decreases_to!(*entries => entries@));
                        assert(decreases_to!(entries@ => entries@[i as int]));
                        assert(decreases_to!(entries@[i as int] => entries@[i as int].1));
                    }
                    let k = entries[i].0.clone();
                    let c = entries[i].1.deep_copy();
                    out.push((k, c));
                }
                proof {
                    lemma_entries_view(out@);
                    assert(entries_view(out@) =~= entries_view(entries@));
                }
                Json::Object(out)
            },
        }
    }
}


proof fn lemma_entries_get_in(entries: Seq<(Seq<char>, JsonV)>, key: Seq<char>)
    requires
        entries_get(entries, key) is Some,
    ensures
        exists|i: int| 0 <= i < entries.len() && entries[i].1 == entries_get(entries, key)->0,
    decreases entries.len(),
{
    if entries[0].0 == key {
        assert(entries[0].1 == entries_get(entries, key)->0);
    } else {
        lemma_entries_get_in(entries.drop_first(), key);
        let i = choose|i: int|
            0 <= i < entries.drop_first().len() && entries.drop_first()[i].1 == entries_get(
                entries.drop_first(),
                key,
            )->0;
        assert(entries[i + 1].1 == entries_get(entries, key)->0);
    }
}

/// A member that is not `Null` is a part of the value it was read from.
pub proof fn lemma_at_decreases(v: JsonV, key: Seq<char>)
    requires
        !(v.at(key) is Null),
    ensures
        decreases_to!(v => v.at(key)),
{
    let entries = v->Object_0;
    lemma_entries_get_in(entries, key);
    let i = choose|i: int| 0 <= i < entries.len() && entries[i].1 == entries_get(entries, key)->0;
    assert(decreases_to!(v => entries));
    assert(decreases_to!(entries => entries[i]));
    assert(decreases_to!(entries[i] => entries[i].1));
}

/// The text of a looked-up string, or `default` (`as_str().unwrap_or(default)`).
pub open spec fn str_or(v: JsonV, default: Seq<char>) -> Seq<char> {
    match v.str_of() {
        Some(s) => s,
        None => default,
    }
}

/// A copy of a looked-up value, `Null` for a missing one.
pub fn copy_or_null(v: Option<&Json>) -> (r: Json)
    ensures
        r@ == or_null(v),
{
    match v {
        Some(j) => j.deep_copy(),
        None => Json::Null,
    }
}

/// `v.as_str().unwrap_or(default).to_string()`
pub fn string_or(v: Option<&Json>, default: &str) -> (r: String)
    ensures
        r@ == str_or(or_null(v), default@),
{
    match as_str(v) {
        Some(s) => s.to_owned(),
        None => default.to_owned(),
    }
}

} // verus!
