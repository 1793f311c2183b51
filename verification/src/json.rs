//! The library's own model of a JSON value.
//!
//! Upstream responses arrive as dynamic JSON; the surrounding process turns
//! them one-for-one into this type, and every field access with its default
//! lives here, where it is verified.  A number that fits in `u64` is `UInt`,
//! one that fits in `i64` is `Int`, and any other number is `FNum`, which no
//! accessor reads (matching how the upstream values are consumed).

use vstd::prelude::*;

verus! {

use crate::text::str_eq;

/// An owned JSON value.
#[derive(Debug, PartialEq)]
pub enum Json {
    Null,
    Bool(bool),
    UInt(u64),
    Int(i64),
    FNum,
    Str(String),
    Arr(Vec<Json>),
    Obj(Vec<(String, Json)>),
}

/// The mathematical shape of a JSON value: strings are character sequences,
/// arrays and objects are sequences.
pub enum JsonV {
    Null,
    Bool(bool),
    UInt(u64),
    Int(i64),
    FNum,
    Str(Seq<char>),
    Arr(Seq<JsonV>),
    Obj(Seq<(Seq<char>, JsonV)>),
}

/// The view of a JSON value.
pub open spec fn jview(j: Json) -> JsonV
    decreases j,
{
    match j {
        Json::Null => JsonV::Null,
        Json::Bool(b) => JsonV::Bool(b),
        Json::UInt(n) => JsonV::UInt(n),
        Json::Int(n) => JsonV::Int(n),
        Json::FNum => JsonV::FNum,
        Json::Str(s) => JsonV::Str(s@),
        Json::Arr(v) => JsonV::Arr(jview_seq(v@)),
        Json::Obj(es) => JsonV::Obj(jview_entries(es@)),
    }
}

/// The views of the elements of a JSON array.
pub open spec fn jview_seq(s: Seq<Json>) -> Seq<JsonV>
    decreases s,
{
    if s.len() == 0 {
        Seq::empty()
    } else {
        seq![jview(s[0])] + jview_seq(s.drop_first())
    }
}

/// The views of the entries of a JSON object.
pub open spec fn jview_entries(s: Seq<(String, Json)>) -> Seq<(Seq<char>, JsonV)>
    decreases s,
{
    if s.len() == 0 {
        Seq::empty()
    } else {
        seq![(s[0].0@, jview(s[0].1))] + jview_entries(s.drop_first())
    }
}

impl View for Json {
    type V = JsonV;

    open spec fn view(&self) -> JsonV {
        jview(*self)
    }
}

/// `jview_seq` maps `jview` over the sequence, pointwise.
pub proof fn lemma_jview_seq(s: Seq<Json>)
    ensures
        jview_seq(s).len() == s.len(),
        forall|i: int| 0 <= i < s.len() ==> jview_seq(s)[i] == jview(s[i]),
    decreases s.len(),
{
    if s.len() > 0 {
        lemma_jview_seq(s.drop_first());
    }
}

/// `jview_entries` maps key view and value view over the entries, pointwise.
pub proof fn lemma_jview_entries(s: Seq<(String, Json)>)
    ensures
        jview_entries(s).len() == s.len(),
        forall|i: int|
            0 <= i < s.len() ==> jview_entries(s)[i] == (s[i].0@, jview(s[i].1)),
    decreases s.len(),
{
    if s.len() > 0 {
        lemma_jview_entries(s.drop_first());
    }
}

/// First entry of `es` whose key is `key`, if any.
pub open spec fn lookup(es: Seq<(Seq<char>, JsonV)>, key: Seq<char>) -> Option<JsonV>
    decreases es,
{
    if es.len() == 0 {
        None
    } else if es[0].0 == key {
        Some(es[0].1)
    } else {
        lookup(es.drop_first(), key)
    }
}

impl JsonV {
    /// The number as a `u64`, as the upstream decoder reads it.
    pub open spec fn as_u64(self) -> Option<u64> {
        match self {
            JsonV::UInt(n) => Some(n),
            _ => None,
        }
    }

    /// The number as an `i64`, as the upstream decoder reads it.
    pub open spec fn as_i64(self) -> Option<i64> {
        match self {
            JsonV::UInt(n) => if n <= i64::MAX as u64 {
                Some(n as i64)
            } else {
                None
            },
            JsonV::Int(n) => Some(n),
            _ => None,
        }
    }

    /// The field of an object under `key`, if this is an object that has it.
    pub open spec fn get(self, key: Seq<char>) -> Option<JsonV> {
        match self {
            JsonV::Obj(es) => lookup(es, key),
            _ => None,
        }
    }
}

impl Json {
    /// Whether this value is JSON `null`.
    pub fn is_null(&self) -> (r: bool)
        ensures
            r == (self@ is Null),
    {
        match self {
            Json::Null => true,
            _ => false,
        }
    }

    /// The value as a boolean, if it is one.
    pub fn as_bool(&self) -> (r: Option<bool>)
        ensures
            match r {
                Some(b) => self@ == JsonV::Bool(b),
                None => !(self@ is Bool),
            },
    {
        match self {
            Json::Bool(b) => Some(*b),
            _ => None,
        }
    }

    /// The value as a `u64`, if it is an unsigned number.
    pub fn as_u64(&self) -> (r: Option<u64>)
        ensures
            r == self@.as_u64(),
    {
        match self {
            Json::UInt(n) => Some(*n),
            _ => None,
        }
    }

    /// The value as an `i64`, if it is a number in its range.
    pub fn as_i64(&self) -> (r: Option<i64>)
        ensures
            r == self@.as_i64(),
    {
        match self {
            Json::UInt(n) => if *n <= i64::MAX as u64 {
                Some(*n as i64)
            } else {
                None
            },
            Json::Int(n) => Some(*n),
            _ => None,
        }
    }

    /// The value as a string slice, if it is a string.
    pub fn as_str(&self) -> (r: Option<&str>)
        ensures
            match r {
                Some(s) => self@ == JsonV::Str(s@),
                None => !(self@ is Str),
            },
    {
        match self {
            Json::Str(s) => Some(s.as_str()),
            _ => None,
        }
    }

    /// The value as an array, if it is one.
    pub fn as_array(&self) -> (r: Option<&Vec<Json>>)
        ensures
            match r {
                Some(v) => self@ == JsonV::Arr(jview_seq(v@)),
                None => !(self@ is Arr),
            },
    {
        match self {
            Json::Arr(v) => Some(v),
            _ => None,
        }
    }

    /// The value as an object, if it is one.
    pub fn as_object(&self) -> (r: Option<&Vec<(String, Json)>>)
        ensures
            match r {
                Some(es) => self@ == JsonV::Obj(jview_entries(es@)),
                None => !(self@ is Obj),
            },
    {
        match self {
            Json::Obj(es) => Some(es),
            _ => None,
        }
    }

    /// The field of an object under `key`: the first entry with that key.
    pub fn get<'a>(&'a self, key: &str) -> (r: Option<&'a Json>)
        ensures
            match r {
                Some(v) => self@.get(key@) == Some(v@),
                None => self@.get(key@) is None,
            },
    {
        match self {
            Json::Obj(entries) => {
                proof {
                    lemma_jview_entries(entries@);
                }
                let ghost es = jview_entries(entries@);
                proof {
                    assert(es.skip(0) =~= es);
                }
                let mut i: usize = 0;
                while i < entries.len()
                    invariant
                        *self == Json::Obj(*entries),
                        i <= entries@.len(),
                        es == jview_entries(entries@),
                        es.len() == entries@.len(),
                        forall|j: int|
                            0 <= j < entries@.len() ==> es[j] == (
                            entries@[j].0@,
                            jview(entries@[j].1),
                            ),
                        lookup(es, key@) == lookup(es.skip(i as int), key@),
                    decreases entries@.len() - i,
                {
                    if str_eq(entries[i].0.as_str(), key) {
                        proof {
                            assert(es.skip(i as int)[0] == es[i as int]);
                            assert(lookup(es.skip(i as int), key@) == Some(es[i as int].1));
                        }
                        return Some(&entries[i].1);
                    }
                    proof {
                        assert(es.skip(i as int)[0] == es[i as int]);
                        assert(es.skip(i as int).drop_first() =~= es.skip(i as int + 1));
                    }
                    i += 1;
                }
                proof {
                    assert(es.skip(i as int) =~= Seq::<(Seq<char>, JsonV)>::empty());
                }
                None
            },
            _ => None,
        }
    }

    /// The field under `key` followed by the field under `key2`.
    pub fn get2<'a>(&'a self, key: &str, key2: &str) -> (r: Option<&'a Json>)
        ensures
            match r {
                Some(v) => {
                    &&& self@.get(key@) is Some
                    &&& self@.get(key@).unwrap().get(key2@) == Some(v@)
                },
                None => self@.get(key@) is None || self@.get(key@).unwrap().get(
                    key2@,
                ) is None,
            },
    {
        match self.get(key) {
            Some(inner) => inner.get(key2),
            None => None,
        }
    }
}

/// Deep copy of a vector of JSON values, preserving the views.
fn clone_json_vec(v: &Vec<Json>) -> (res: Vec<Json>)
    ensures
        jview_seq(res@) == jview_seq(v@),
    decreases *v,
{
    let mut out: Vec<Json> = Vec::new();
    let mut i: usize = 0;
    while i < v.len()
        invariant
            i <= v@.len(),
            out@.len() == i,
            forall|j: int| 0 <= j < i ==> jview(#[trigger] out@[j]) == jview(v@[j]),
        decreases v@.len() - i,
    {
        out.push(v[i].clone());
        i += 1;
    }
    proof {
        lemma_jview_seq(out@);
        lemma_jview_seq(v@);
        assert(jview_seq(out@) =~= jview_seq(v@));
    }
    out
}

/// Deep copy of the entries of a JSON object, preserving the views.
fn clone_json_entries(entries: &Vec<(String, Json)>) -> (res: Vec<(String, Json)>)
    ensures
        jview_entries(res@) == jview_entries(entries@),
    decreases *entries,
{
    let mut out: Vec<(String, Json)> = Vec::new();
    let mut i: usize = 0;
    while i < entries.len()
        invariant
            i <= entries@.len(),
            out@.len() == i,
            forall|j: int|
                0 <= j < i ==> (#[trigger] out@[j]).0@ == entries@[j].0@ && jview(out@[j].1)
                    == jview(entries@[j].1),
        decreases entries@.len() - i,
    {
        let k = entries[i].0.clone();
        let val = entries[i].1.clone();
        out.push((k, val));
        i += 1;
    }
    proof {
        lemma_jview_entries(out@);
        lemma_jview_entries(entries@);
        assert(jview_entries(out@) =~= jview_entries(entries@));
    }
    out
}

impl Clone for Json {
    /// A deep copy: the clone has the same view as the original.
    fn clone(&self) -> (res: Json)
        ensures
            res@ == self@,
        decreases *self,
    {
        match self {
            Json::Null => Json::Null,
            Json::Bool(b) => Json::Bool(*b),
            Json::UInt(n) => Json::UInt(*n),
            Json::Int(n) => Json::Int(*n),
            Json::FNum => Json::FNum,
            Json::Str(s) => Json::Str(s.clone()),
            Json::Arr(v) => Json::Arr(clone_json_vec(v)),
            Json::Obj(entries) => Json::Obj(clone_json_entries(entries)),
        }
    }
}

} // verus!
