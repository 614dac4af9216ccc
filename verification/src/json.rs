//! A JSON document as plain values, and the lookups the extractors make on it.
//!
//! Objects hold their members in a list; a document read from text has each
//! key once, and a lookup gives the first member with the key.
use vstd::prelude::*;
use crate::text::chars_of;

verus! {

/// A JSON value.
#[derive(Debug)]
pub enum JsonValue {
    Null,
    Bool(bool),
    /// A number: its value when it is an integer that fits in an `i64`, else
    /// `None` (a fraction, or an integer out of that range).
    Number(Option<i64>),
    Str(String),
    Array(Vec<JsonValue>),
    Object(Vec<(String, JsonValue)>),
}

/// The first member named `key` among `entries`.
pub open spec fn member(entries: Seq<(String, JsonValue)>, key: Seq<char>) -> Option<JsonValue>
    decreases entries.len(),
{
    if entries.len() == 0 {
        None
    } else if entries[0].0@ == key {
        Some(entries[0].1)
    } else {
        member(entries.drop_first(), key)
    }
}

/// `value.get(key)`: the member `key` of an object; nothing for other values.
pub open spec fn get(v: JsonValue, key: Seq<char>) -> Option<JsonValue> {
    match v {
        JsonValue::Object(entries) => member(entries@, key),
        _ => None,
    }
}

/// `get` on an optional value.
pub open spec fn get_opt(v: Option<JsonValue>, key: Seq<char>) -> Option<JsonValue> {
    match v {
        Some(x) => get(x, key),
        None => None,
    }
}

/// `as_str`: the text of a string value.
pub open spec fn str_of(v: Option<JsonValue>) -> Option<Seq<char>> {
    match v {
        Some(JsonValue::Str(s)) => Some(s@),
        _ => None,
    }
}

/// `as_array`: the elements of an array value.
pub open spec fn array_of(v: Option<JsonValue>) -> Option<Seq<JsonValue>> {
    match v {
        Some(JsonValue::Array(a)) => Some(a@),
        _ => None,
    }
}

/// `as_i64`: an integer value that fits in an `i64`.
pub open spec fn int_of(v: JsonValue) -> Option<i64> {
    match v {
        JsonValue::Number(n) => n,
        _ => None,
    }
}

/// The first element of an optional array.
pub open spec fn first_of(a: Option<Seq<JsonValue>>) -> Option<JsonValue> {
    match a {
        Some(s) => if s.len() > 0 {
            Some(s[0])
        } else {
            None
        },
        None => None,
    }
}

/// Whether two string slices hold the same characters.
pub fn same_text(a: &str, b: &str) -> (r: bool)
    ensures
        r == (a@ == b@),
{
    let x = chars_of(a);
    let y = chars_of(b);
    if x.len() != y.len() {
        return false;
    }
    let mut i: usize = 0;
    while i < x.len()
        invariant
            i <= x.len(),
            x.len() == y.len(),
            x@ == a@,
            y@ == b@,
            forall|j: int| 0 <= j < i ==> x@[j] == y@[j],
        decreases x.len() - i,
    {
        if x[i] != y[i] {
            assert(x@[i as int] != y@[i as int]);
            return false;
        }
        i = i + 1;
    }
    assert(x@ =~= y@);
    true
}

impl JsonValue {
    /// The member `key` of an object.
    pub fn get(&self, key: &str) -> (r: Option<&JsonValue>)
        ensures
            match r {
                Some(x) => get(*self, key@) == Some(*x),
                None => get(*self, key@) is None,
            },
    {
        match self {
            JsonValue::Object(entries) => {
                let mut i: usize = 0;
                assert(entries@.skip(0) =~= entries@);
                while i < entries.len()
                    invariant
                        i <= entries.len(),
                        get(*self, key@) == member(entries@, key@),
                        member(entries@, key@) == member(entries@.skip(i as int), key@),
                    decreases entries.len() - i,
                {
                    assert(entries@.skip(i as int).drop_first() =~= entries@.skip(i + 1));
                    assert(entries@.skip(i as int)[0] == entries@[i as int]);
                    if same_text(entries[i].0.as_str(), key) {
                        assert(member(entries@.skip(i as int), key@) == Some(entries@[i as int].1));
                        return Some(&entries[i].1);
                    }
                    i = i + 1;
                }
                None
            },
            _ => None,
        }
    }

    /// The text of a string value.
    pub fn as_str(&self) -> (r: Option<&String>)
        ensures
            match r {
                Some(s) => str_of(Some(*self)) == Some(s@),
                None => str_of(Some(*self)) is None,
            },
    {
        match self {
            JsonValue::Str(s) => Some(s),
            _ => None,
        }
    }

    /// The elements of an array value.
    pub fn as_array(&self) -> (r: Option<&Vec<JsonValue>>)
        ensures
            match r {
                Some(a) => array_of(Some(*self)) == Some(a@),
                None => array_of(Some(*self)) is None,
            },
    {
        match self {
            JsonValue::Array(a) => Some(a),
            _ => None,
        }
    }

    /// The value of an integer that fits in an `i64`.
    pub fn as_i64(&self) -> (r: Option<i64>)
        ensures
            r == int_of(*self),
    {
        match self {
            JsonValue::Number(n) => *n,
            _ => None,
        }
    }
}

/// The text of the string member `key`, copied out.
pub fn member_text(v: &JsonValue, key: &str) -> (r: Option<String>)
    ensures
        r.deep_view() == str_of(get(*v, key@)),
{
    match v.get(key) {
        Some(x) => match x.as_str() {
            Some(s) => Some(s.clone()),
            None => None,
        },
        None => None,
    }
}

/// The text of a string value, copied out.
pub fn text_of(v: &JsonValue) -> (r: Option<String>)
    ensures
        r.deep_view() == str_of(Some(*v)),
{
    match v.as_str() {
        Some(s) => Some(s.clone()),
        None => None,
    }
}

/// The first element of an array value.
pub fn first_element(v: &JsonValue) -> (r: Option<&JsonValue>)
    ensures
        match r {
            Some(x) => first_of(array_of(Some(*v))) == Some(*x),
            None => first_of(array_of(Some(*v))) is None,
        },
{
    match v.as_array() {
        Some(a) => if a.len() > 0 {
            Some(&a[0])
        } else {
            None
        },
        None => None,
    }
}

} // verus!
