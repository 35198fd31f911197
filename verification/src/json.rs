//! JSON values as the files and web responses this crate reads hold them.
//!
//! Turning text into a value, and a value into text, is the caller's part;
//! this is the value itself and the lookups the readers make on it.

use vstd::prelude::*;
use crate::map::StrMap;

verus! {

/// A JSON value. Numbers keep their text, since nothing here computes with
/// them. Object fields keep the order they were given in.
#[derive(Debug, PartialEq, Eq)]
pub enum Json {
    Null,
    Bool(bool),
    Number(String),
    Str(String),
    Array(Vec<Json>),
    Object(Vec<(String, Json)>),
}

/// The value of the first field called `key` in `fields`.
pub open spec fn field(fields: Seq<(String, Json)>, key: Seq<char>) -> Option<Json>
    decreases fields.len(),
{
    if fields.len() == 0 {
        None
    } else if fields[0].0@ == key {
        Some(fields[0].1)
    } else {
        field(fields.drop_first(), key)
    }
}

/// The member `key` of an object, as `Value::get` finds it; anything but an
/// object has no members.
pub open spec fn get(v: Json, key: Seq<char>) -> Option<Json> {
    match v {
        Json::Object(fields) => field(fields@, key),
        _ => None,
    }
}

/// The text of a string value, as `Value::as_str` gives it.
pub open spec fn as_str(v: Option<Json>) -> Option<Seq<char>> {
    match v {
        Some(Json::Str(s)) => Some(s@),
        _ => None,
    }
}

/// An object's fields as a map, a later field with the same key winning, as
/// reading an object into a `BTreeMap` keeps them.
pub open spec fn object_map(fields: Seq<(String, Json)>) -> Map<Seq<char>, Json>
    decreases fields.len(),
{
    if fields.len() == 0 {
        Map::empty()
    } else {
        object_map(fields.drop_last()).insert(fields.last().0@, fields.last().1)
    }
}

/// The string members of an array, in order, others skipped.
pub open spec fn strings_of(items: Seq<Json>) -> Seq<Seq<char>>
    decreases items.len(),
{
    if items.len() == 0 {
        Seq::empty()
    } else {
        let rest = strings_of(items.drop_last());
        match items.last() {
            Json::Str(s) => rest.push(s@),
            _ => rest,
        }
    }
}

/// The first field called `key`, if any.
pub fn json_get<'a>(v: &'a Json, key: &str) -> (r: Option<&'a Json>)
    ensures
        match r {
            Some(x) => get(*v, key@) == Some(*x),
            None => get(*v, key@) is None,
        },
{
    match v {
        Json::Object(fields) => {
            let mut i: usize = 0;
            assert(fields@.skip(0) =~= fields@);
            while i < fields.len()
                invariant
                    i <= fields.len(),
                    get(*v, key@) == field(fields@, key@),
                    field(fields@, key@) == field(fields@.skip(i as int), key@),
                decreases fields.len() - i,
            {
                let ghost rest = fields@.skip(i as int);
                assert(rest.drop_first() =~= fields@.skip(i + 1));
                assert(rest[0] == fields@[i as int]);
                if crate::text::same(fields[i].0.as_str(), key) {
                    assert(rest.len() > 0);
                    assert(field(rest, key@) == Some(rest[0].1));
                    return Some(&fields[i].1);
                }
                i += 1;
            }
            None
        },
        _ => None,
    }
}

/// The text of a string value.
pub fn json_str(v: Option<&Json>) -> (r: Option<&String>)
    ensures
        match r {
            Some(s) => v matches Some(x) && as_str(Some(*x)) == Some(s@),
            None => v matches Some(x) ==> as_str(Some(*x)) is None,
        },
{
    match v {
        Some(Json::Str(s)) => Some(s),
        _ => None,
    }
}

/// The string members of an array.
pub fn json_strings(items: &Vec<Json>) -> (r: Vec<String>)
    ensures
        r@.map_values(|s: String| s@) == strings_of(items@),
{
    let mut r: Vec<String> = Vec::new();
    let mut i: usize = 0;
    while i < items.len()
        invariant
            i <= items.len(),
            r@.map_values(|s: String| s@) == strings_of(items@.take(i as int)),
        decreases items.len() - i,
    {
        assert(items@.take(i + 1).drop_last() =~= items@.take(i as int));
        match &items[i] {
            Json::Str(s) => {
                let ghost before = r@;
                r.push(s.clone());
                assert(r@.map_values(|s: String| s@) =~= before.map_values(|s: String| s@).push(s@));
            },
            _ => {},
        }
        i += 1;
    }
    assert(items@.take(items.len() as int) =~= items@);
    r
}

/// Where each key of an object has its winning field, in key order.
pub fn object_index(fields: &Vec<(String, Json)>) -> (r: StrMap<usize>)
    ensures
        r@.dom() == object_map(fields@).dom(),
        forall|k: Seq<char>|
            #[trigger] r@.contains_key(k) ==> r@[k] < fields.len() && fields@[r@[k] as int].0@ == k
                && fields@[r@[k] as int].1 == object_map(fields@)[k],
{
    let mut r: StrMap<usize> = StrMap::new();
    let mut i: usize = 0;
    while i < fields.len()
        invariant
            i <= fields.len(),
            r@.dom() == object_map(fields@.take(i as int)).dom(),
            forall|k: Seq<char>|
                #[trigger] r@.contains_key(k) ==> r@[k] < i && fields@[r@[k] as int].0@ == k
                    && fields@[r@[k] as int].1 == object_map(fields@.take(i as int))[k],
        decreases fields.len() - i,
    {
        assert(fields@.take(i + 1).drop_last() =~= fields@.take(i as int));
        assert(fields@.take(i + 1).last() == fields@[i as int]);
        let key = fields[i].0.clone();
        r.insert(key, i);
        assert(r@.dom() =~= object_map(fields@.take(i + 1)).dom());
        i += 1;
    }
    assert(fields@.take(fields.len() as int) =~= fields@);
    r
}

} // verus!
