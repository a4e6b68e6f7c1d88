//! JSON values as the protocol handlers read and build them. Numbers keep
//! their decimal text, so no value is rounded on the way through.
use vstd::prelude::*;
use crate::text::{chars_of, decimal_string, natural_value, parse_natural, str_eq, string_from_chars};

verus! {

/// A JSON value. A number is held as the text JSON writes it in; an
/// object as its members in order, each key once.
#[derive(Debug)]
pub enum Json {
    Null,
    Bool(bool),
    Number(String),
    Str(String),
    Array(Vec<Json>),
    Object(Vec<(String, Json)>),
}

/// The plain content of a JSON value.
pub enum JsonView {
    Null,
    Bool(bool),
    Number(Seq<char>),
    Str(Seq<char>),
    Array(Seq<JsonView>),
    Object(Seq<(Seq<char>, JsonView)>),
}

/// The plain content of a JSON value.
pub open spec fn json_view(j: Json) -> JsonView
    decreases j,
{
    match j {
        Json::Null => JsonView::Null,
        Json::Bool(b) => JsonView::Bool(b),
        Json::Number(t) => JsonView::Number(t@),
        Json::Str(s) => JsonView::Str(s@),
        Json::Array(items) => JsonView::Array(Seq::new(items@.len(), |i: int|
            if 0 <= i < items@.len() {
                proof {
                    assert(decreases_to!(items => items@));
                    assert(decreases_to!(items@ => items@[i]));
                }
                json_view(items@[i])
            } else {
                JsonView::Null
            })),
        Json::Object(fields) => JsonView::Object(Seq::new(fields@.len(), |i: int|
            if 0 <= i < fields@.len() {
                proof {
                    assert(decreases_to!(fields => fields@));
                    assert(decreases_to!(fields@ => fields@[i]));
                    assert(decreases_to!(fields@[i] => fields@[i].1));
                }
                (fields@[i].0@, json_view(fields@[i].1))
            } else {
                (Seq::empty(), JsonView::Null)
            })),
    }
}

/// The position of the first member with the key.
pub open spec fn first_key(fields: Seq<(String, Json)>, key: Seq<char>) -> Option<int>
    decreases fields.len(),
{
    if fields.len() == 0 {
        None
    } else {
        match first_key(fields.drop_last(), key) {
            Some(j) => Some(j),
            None => if fields.last().0@ == key {
                Some(fields.len() - 1)
            } else {
                None
            },
        }
    }
}

/// The member value under the key, for an object (`Value::get`).
pub open spec fn json_get(j: Json, key: Seq<char>) -> Option<Json> {
    match j {
        Json::Object(fields) => match first_key(fields@, key) {
            Some(i) => Some(fields@[i].1),
            None => None,
        },
        _ => None,
    }
}

/// The value as an unsigned 64-bit number, for a number written as digits
/// only that fits (`Value::as_u64`).
pub open spec fn json_u64(j: Json) -> Option<u64> {
    match j {
        Json::Number(text) => match natural_value(text@) {
            Some(v) => if v <= u64::MAX { Some(v as u64) } else { None },
            None => None,
        },
        _ => None,
    }
}

/// The characters of a string value (`Value::as_str`).
pub open spec fn json_str(j: Json) -> Option<Seq<char>> {
    match j {
        Json::Str(s) => Some(s@),
        _ => None,
    }
}

proof fn lemma_first_key_prefix(fields: Seq<(String, Json)>, k: int, key: Seq<char>)
    requires
        0 <= k <= fields.len(),
        first_key(fields.take(k), key) is Some,
    ensures
        first_key(fields, key) == first_key(fields.take(k), key),
    decreases fields.len() - k,
{
    if k < fields.len() {
        assert(fields.take(k + 1).drop_last() =~= fields.take(k));
        lemma_first_key_prefix(fields, k + 1, key);
    } else {
        assert(fields.take(k) =~= fields);
    }
}

impl Json {
    /// The member under the key, for an object; `None` for a missing key or
    /// a value that is no object.
    pub fn get(&self, key: &str) -> (r: Option<&Json>)
        ensures
            match json_get(*self, key@) {
                Some(v) => r matches Some(x) && *x == v,
                None => r is None,
            },
    {
        match self {
            Json::Object(fields) => {
                let n = fields.len();
                for i in 0..n
                    invariant
                        n == fields@.len(),
                        *self == Json::Object(*fields),
                        first_key(fields@.take(i as int), key@) is None,
                {
                    assert(fields@.take(i + 1).drop_last() =~= fields@.take(i as int));
                    if str_eq(fields[i].0.as_str(), key) {
                        proof {
                            assert(fields@.take(i + 1).last() == fields@[i as int]);
                            assert(first_key(fields@.take(i + 1), key@) == Some(i as int));
                            lemma_first_key_prefix(fields@, i + 1, key@);
                        }
                        let found = &fields[i].1;
                        assert(*found == fields@[i as int].1);
                        return Some(found);
                    }
                }
                assert(fields@.take(n as int) =~= fields@);
                None
            },
            _ => None,
        }
    }

    /// The value as an unsigned 64-bit number.
    pub fn as_u64(&self) -> (r: Option<u64>)
        ensures
            r == json_u64(*self),
    {
        match self {
            Json::Number(text) => {
                let chars = chars_of(text.as_str());
                parse_natural(chars.as_slice(), u64::MAX)
            },
            _ => None,
        }
    }

    /// The value as a string slice.
    pub fn as_str(&self) -> (r: Option<&str>)
        ensures
            match json_str(*self) {
                Some(s) => r matches Some(x) && x@ == s,
                None => r is None,
            },
    {
        match self {
            Json::Str(s) => Some(s.as_str()),
            _ => None,
        }
    }

    /// A string value with the characters of `s`.
    pub fn text(s: &str) -> (r: Json)
        ensures
            r matches Json::Str(t) && t@ == s@,
    {
        Json::Str(string_from_chars(chars_of(s).as_slice()))
    }

    /// A copy with the same content.
    pub fn copy(&self) -> (r: Json)
        ensures
            json_view(r) == json_view(*self),
        decreases self,
    {
        match self {
            Json::Null => Json::Null,
            Json::Bool(b) => Json::Bool(*b),
            Json::Number(t) => Json::Number(t.clone()),
            Json::Str(t) => Json::Str(t.clone()),
            Json::Array(items) => {
                let mut out: Vec<Json> = Vec::new();
                let n = items.len();
                for i in 0..n
                    invariant
                        n == items@.len(),
                        *self == Json::Array(*items),
                        out@.len() == i,
                        forall|k: int| #![trigger out@[k]] 0 <= k < i ==> json_view(out@[k]) == json_view(items@[k]),
                {
                    assert(decreases_to!(*self => self->Array_0));
                    assert(self->Array_0 == *items);
                    assert(decreases_to!(*items => items@));
                    assert(decreases_to!(items@ => items@[i as int]));
                    let c = items[i].copy();
                    out.push(c);
                }
                let ghost ov = out@;
                let r = Json::Array(out);
                assert forall|k: int| 0 <= k < n implies #[trigger] json_view(r)->Array_0[k] == json_view(*self)->Array_0[k] by {
                    assert(json_view(ov[k]) == json_view(items@[k]));
                }
                assert(json_view(r)->Array_0 =~= json_view(*self)->Array_0);
                r
            },
            Json::Object(fields) => {
                let mut out: Vec<(String, Json)> = Vec::new();
                let n = fields.len();
                for i in 0..n
                    invariant
                        n == fields@.len(),
                        *self == Json::Object(*fields),
                        out@.len() == i,
                        forall|k: int| #![trigger out@[k]] 0 <= k < i ==> out@[k].0@ == fields@[k].0@
                            && json_view(out@[k].1) == json_view(fields@[k].1),
                {
                    assert(decreases_to!(*self => self->Object_0));
                    assert(self->Object_0 == *fields);
                    assert(decreases_to!(*fields => fields@));
                    assert(decreases_to!(fields@ => fields@[i as int]));
                    assert(decreases_to!(fields@[i as int] => fields@[i as int].1));
                    let c = fields[i].1.copy();
                    out.push((fields[i].0.clone(), c));
                }
                let ghost ov = out@;
                let r = Json::Object(out);
                assert forall|k: int| 0 <= k < n implies #[trigger] json_view(r)->Object_0[k] == json_view(*self)->Object_0[k] by {
                    assert(ov[k].0@ == fields@[k].0@ && json_view(ov[k].1) == json_view(fields@[k].1));
                }
                assert(json_view(r)->Object_0 =~= json_view(*self)->Object_0);
                r
            },
        }
    }

    /// An object with the given members, in order.
    pub fn object(fields: Vec<(String, Json)>) -> (r: Json)
        ensures
            json_view(r) is Object,
            json_view(r)->Object_0.len() == fields@.len(),
            forall|i: int| 0 <= i < fields@.len() ==> #[trigger] json_view(r)->Object_0[i] == (fields@[i].0@, json_view(fields@[i].1)),
    {
        Json::Object(fields)
    }

    /// A member: the key with the characters of `key`, and the value.
    pub fn member(key: &str, value: Json) -> (r: (String, Json))
        ensures
            r.0@ == key@,
            r.1 == value,
    {
        (string_from_chars(chars_of(key).as_slice()), value)
    }

    /// A number value written as the decimal digits of `n`.
    pub fn unsigned(n: u64) -> (r: Json)
        ensures
            r matches Json::Number(t) && t@ == crate::text::decimal(n as nat),
    {
        Json::Number(decimal_string(n as u128))
    }
}

} // verus!
