//! A plain model of a parsed JSON document (what podman prints), so that the
//! code reading podman's output is verified. Numbers keep only what the
//! readers use: their value as an integer, when they have one.

use vstd::prelude::*;
use crate::text::same_text;

verus! {

/// A JSON number: a non-negative integer, a negative integer, or a number
/// with a fraction or exponent (whose value no reader here needs).
#[derive(Clone, Copy, Debug)]
pub enum JsonNumber {
    PosInt(u64),
    NegInt(i64),
    Float,
}

/// A JSON value. Object members keep the document's order.
#[derive(Debug)]
pub enum Json {
    Null,
    Bool(bool),
    Number(JsonNumber),
    Str(String),
    Array(Vec<Json>),
    Object(Vec<(String, Json)>),
}

/// Index of the first member named `k`.
pub open spec fn member_index(es: Seq<(String, Json)>, k: Seq<char>) -> Option<int>
    decreases es.len(),
{
    if es.len() == 0 {
        None
    } else if es[0].0@ == k {
        Some(0)
    } else {
        match member_index(es.drop_first(), k) {
            Some(i) => Some(i + 1),
            None => None,
        }
    }
}

/// `value.get(key)`: the member `k` of an object.
pub open spec fn jget(v: Option<Json>, k: Seq<char>) -> Option<Json> {
    match v {
        Some(Json::Object(es)) => match member_index(es@, k) {
            Some(i) => Some(es@[i].1),
            None => None,
        },
        _ => None,
    }
}

/// `as_str`.
pub open spec fn jstr(v: Option<Json>) -> Option<Seq<char>> {
    match v {
        Some(Json::Str(s)) => Some(s@),
        _ => None,
    }
}

/// `as_str().unwrap_or(d)`.
pub open spec fn jstr_or(v: Option<Json>, d: Seq<char>) -> Seq<char> {
    match jstr(v) {
        Some(s) => s,
        None => d,
    }
}

/// A member that is a string, or the empty text.
pub open spec fn text_of(v: Option<Json>, key: Seq<char>) -> Seq<char> {
    jstr_or(jget(v, key), seq![])
}

/// The elements of a JSON array; nothing for any other value.
pub open spec fn items(v: Option<Json>) -> Seq<Json> {
    match jarray(v) {
        Some(a) => a,
        None => seq![],
    }
}

/// The first element of an array value.
pub open spec fn first_of(v: Option<Json>) -> Option<Json> {
    match jarray(v) {
        Some(a) => if a.len() > 0 {
            Some(a[0])
        } else {
            None
        },
        None => None,
    }
}

/// `as_bool`.
pub open spec fn jbool(v: Option<Json>) -> Option<bool> {
    match v {
        Some(Json::Bool(b)) => Some(b),
        _ => None,
    }
}

/// `as_i64`.
pub open spec fn ji64(v: Option<Json>) -> Option<i64> {
    match v {
        Some(Json::Number(JsonNumber::PosInt(u))) => if u <= i64::MAX {
            Some(u as i64)
        } else {
            None
        },
        Some(Json::Number(JsonNumber::NegInt(i))) => Some(i),
        _ => None,
    }
}

/// `as_u64`.
pub open spec fn ju64(v: Option<Json>) -> Option<u64> {
    match v {
        Some(Json::Number(JsonNumber::PosInt(u))) => Some(u),
        _ => None,
    }
}

/// `as_array`.
pub open spec fn jarray(v: Option<Json>) -> Option<Seq<Json>> {
    match v {
        Some(Json::Array(a)) => Some(a@),
        _ => None,
    }
}

/// `as_object`.
pub open spec fn jobject(v: Option<Json>) -> Option<Seq<(String, Json)>> {
    match v {
        Some(Json::Object(es)) => Some(es@),
        _ => None,
    }
}

/// The value behind an optional reference.
pub open spec fn opt(r: Option<&Json>) -> Option<Json> {
    match r {
        Some(x) => Some(*x),
        None => None,
    }
}

/// `v.and_then(|v| v.get(key))`.
#[verifier::loop_isolation(false)]
pub fn get<'a>(v: Option<&'a Json>, key: &str) -> (r: Option<&'a Json>)
    ensures
        opt(r) == jget(opt(v), key@),
{
    match v {
        Some(Json::Object(es)) => {
            let mut i: usize = 0;
            assert(es@.skip(0) =~= es@);
            while i < es.len()
                invariant
                    i <= es.len(),
                    forall|j: int| 0 <= j < i ==> (#[trigger] es@[j]).0@ != key@,
                    member_index(es@, key@) == match member_index(es@.skip(i as int), key@) {
                        Some(m) => Some(m + i),
                        None => None,
                    },
                decreases es.len() - i,
            {
                assert(es@.skip(i as int)[0] == es@[i as int]);
                if same_text(es[i].0.as_str(), key) {
                    return Some(&es[i].1);
                }
                assert(es@.skip(i as int).drop_first() =~= es@.skip(i + 1));
                i = i + 1;
            }
            assert(es@.skip(i as int).len() == 0);
            None
        },
        _ => None,
    }
}

/// `v.and_then(|v| v.as_str())`.
pub fn as_str(v: Option<&Json>) -> (r: Option<&str>)
    ensures
        match r {
            Some(s) => jstr(opt(v)) == Some(s@),
            None => jstr(opt(v)) is None,
        },
{
    match v {
        Some(Json::Str(s)) => Some(s.as_str()),
        _ => None,
    }
}

/// `v.and_then(|v| v.as_str()).unwrap_or(d)`, as an owned string.
pub fn str_or(v: Option<&Json>, d: &str) -> (r: String)
    ensures
        r@ == jstr_or(opt(v), d@),
{
    match v {
        Some(Json::Str(s)) => s.clone(),
        _ => d.to_owned(),
    }
}

/// `v.and_then(|v| v.get(key)).and_then(|v| v.as_str()).unwrap_or("")`,
/// as an owned string.
pub fn text(v: Option<&Json>, key: &str) -> (r: String)
    ensures
        r@ == text_of(opt(v), key@),
{
    proof {
        reveal_strlit("");
    }
    str_or(get(v, key), "")
}

/// `v.and_then(|v| v.as_bool())`.
pub fn as_bool(v: Option<&Json>) -> (r: Option<bool>)
    ensures
        r == jbool(opt(v)),
{
    match v {
        Some(Json::Bool(b)) => Some(*b),
        _ => None,
    }
}

/// `v.and_then(|v| v.as_i64())`.
pub fn as_i64(v: Option<&Json>) -> (r: Option<i64>)
    ensures
        r == ji64(opt(v)),
{
    match v {
        Some(Json::Number(JsonNumber::PosInt(u))) => if *u <= i64::MAX as u64 {
            Some(*u as i64)
        } else {
            None
        },
        Some(Json::Number(JsonNumber::NegInt(i))) => Some(*i),
        _ => None,
    }
}

/// `v.and_then(|v| v.as_u64())`.
pub fn as_u64(v: Option<&Json>) -> (r: Option<u64>)
    ensures
        r == ju64(opt(v)),
{
    match v {
        Some(Json::Number(JsonNumber::PosInt(u))) => Some(*u),
        _ => None,
    }
}

/// `v.and_then(|v| v.as_array())`.
pub fn as_array(v: Option<&Json>) -> (r: Option<&Vec<Json>>)
    ensures
        match r {
            Some(a) => jarray(opt(v)) == Some(a@),
            None => jarray(opt(v)) is None,
        },
{
    match v {
        Some(Json::Array(a)) => Some(a),
        _ => None,
    }
}

/// `v.and_then(|v| v.as_object())`.
pub fn as_object(v: Option<&Json>) -> (r: Option<&Vec<(String, Json)>>)
    ensures
        match r {
            Some(es) => jobject(opt(v)) == Some(es@),
            None => jobject(opt(v)) is None,
        },
{
    match v {
        Some(Json::Object(es)) => Some(es),
        _ => None,
    }
}

} // verus!
