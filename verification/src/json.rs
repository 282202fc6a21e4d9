//! JSON values as the app-server sends them, and the lookups the stream
//! handling makes on them. Numbers keep what the handling reads of them:
//! whether and which unsigned integer they are.
use vstd::prelude::*;

use crate::text::{chars_eq, chars_of, text_eq};

verus! {

/// A JSON number.
#[derive(Debug, Clone, PartialEq)]
pub enum JsonNumber {
    /// A non-negative integer.
    Unsigned(u64),
    /// A negative integer.
    Negative(i64),
    /// A number with a fraction or an exponent.
    Fractional,
}

/// A JSON value; an object keeps its members in order.
#[derive(Debug, PartialEq)]
pub enum JsonValue {
    Null,
    Bool(bool),
    Number(JsonNumber),
    Str(String),
    Array(Vec<JsonValue>),
    Object(Vec<JsonMember>),
}

/// A member of a JSON object.
#[derive(Debug, PartialEq)]
pub struct JsonMember {
    pub key: String,
    pub value: JsonValue,
}

/// The position of the first member with key `k`, or -1.
#[verifier::opaque]
pub open spec fn member_pos(ms: Seq<JsonMember>, k: Seq<char>) -> int {
    if exists|i: int| 0 <= i < ms.len() && ms[i].key@ == k {
        choose|i: int|
            0 <= i < ms.len() && ms[i].key@ == k && (forall|j: int|
                0 <= j < i ==> ms[j].key@ != k)
    } else {
        -1
    }
}

/// The member `k` of an object; nothing for other values.
pub open spec fn member_of(v: JsonValue, k: Seq<char>) -> Option<JsonValue> {
    match v {
        JsonValue::Object(ms) => {
            let i = member_pos(ms@, k);
            if i >= 0 {
                Some(ms@[i].value)
            } else {
                None
            }
        },
        _ => None,
    }
}

/// The text of a string value.
pub open spec fn str_of(v: Option<JsonValue>) -> Option<Seq<char>> {
    match v {
        Some(JsonValue::Str(s)) => Some(s@),
        _ => None,
    }
}

/// The text of the member `k`, when it is a string.
pub open spec fn str_at(v: JsonValue, k: Seq<char>) -> Option<Seq<char>> {
    str_of(member_of(v, k))
}

/// The member `k` walked down a path of keys (`Value::pointer` with
/// object keys only).
pub open spec fn at_path(v: JsonValue, path: Seq<Seq<char>>) -> Option<JsonValue>
    decreases path.len(),
{
    if path.len() == 0 {
        Some(v)
    } else {
        match at_path(v, path.drop_last()) {
            Some(w) => member_of(w, path.last()),
            None => None,
        }
    }
}

/// The elements of an array value.
pub open spec fn items_of(v: Option<JsonValue>) -> Option<Seq<JsonValue>> {
    match v {
        Some(JsonValue::Array(xs)) => Some(xs@),
        _ => None,
    }
}

/// The unsigned integer of a number value (`Value::as_u64`).
pub open spec fn u64_of(v: Option<JsonValue>) -> Option<u64> {
    match v {
        Some(JsonValue::Number(JsonNumber::Unsigned(n))) => Some(n),
        _ => None,
    }
}

/// The boolean of a bool value.
pub open spec fn bool_of(v: Option<JsonValue>) -> Option<bool> {
    match v {
        Some(JsonValue::Bool(b)) => Some(b),
        _ => None,
    }
}

proof fn lemma_member_pos_found(ms: Seq<JsonMember>, k: Seq<char>, i: int)
    requires
        0 <= i < ms.len(),
        ms[i].key@ == k,
        forall|j: int| 0 <= j < i ==> ms[j].key@ != k,
    ensures
        member_pos(ms, k) == i,
{
    reveal(member_pos);
    let c = member_pos(ms, k);
    if c < i {
    } else if c > i {
    }
}

proof fn lemma_member_pos_none(ms: Seq<JsonMember>, k: Seq<char>)
    requires
        forall|j: int| 0 <= j < ms.len() ==> ms[j].key@ != k,
    ensures
        member_pos(ms, k) == -1,
{
    reveal(member_pos);
}

impl JsonValue {
    /// The member `key` of an object.
    pub fn get(&self, key: &str) -> (r: Option<&JsonValue>)
        ensures
            match r {
                Some(x) => member_of(*self, key@) == Some(*x),
                None => member_of(*self, key@) is None,
            },
    {
        match self {
            JsonValue::Object(ms) => {
                let k = chars_of(key);
                let mut i: usize = 0;
                while i < ms.len()
                    invariant
                        *self == JsonValue::Object(*ms),
                        i <= ms.len(),
                        k@ == key@,
                        forall|j: int| 0 <= j < i ==> ms@[j].key@ != key@,
                    decreases ms.len() - i,
                {
                    if chars_eq(&chars_of(ms[i].key.as_str()), &k) {
                        proof {
                            lemma_member_pos_found(ms@, key@, i as int);
                            assert(*self == JsonValue::Object(*ms));
                            assert(member_pos(ms@, key@) == i);
                            assert(member_of(*self, key@) == Some(ms@[i as int].value));
                        }
                        return Some(&ms[i].value);
                    }
                    i = i + 1;
                }
                proof {
                    lemma_member_pos_none(ms@, key@);
                }
                None
            },
            _ => None,
        }
    }

    /// The text of a string value.
    pub fn as_str(&self) -> (r: Option<&str>)
        ensures
            match r {
                Some(s) => str_of(Some(*self)) == Some(s@),
                None => str_of(Some(*self)) is None,
            },
    {
        match self {
            JsonValue::Str(s) => Some(s.as_str()),
            _ => None,
        }
    }

    /// The elements of an array value.
    pub fn as_array(&self) -> (r: Option<&Vec<JsonValue>>)
        ensures
            match r {
                Some(xs) => items_of(Some(*self)) == Some(xs@),
                None => items_of(Some(*self)) is None,
            },
    {
        match self {
            JsonValue::Array(xs) => Some(xs),
            _ => None,
        }
    }

    /// The unsigned integer of a number value.
    pub fn as_u64(&self) -> (r: Option<u64>)
        ensures
            r == u64_of(Some(*self)),
    {
        match self {
            JsonValue::Number(JsonNumber::Unsigned(n)) => Some(*n),
            _ => None,
        }
    }

    /// The boolean of a bool value.
    pub fn as_bool(&self) -> (r: Option<bool>)
        ensures
            r == bool_of(Some(*self)),
    {
        match self {
            JsonValue::Bool(b) => Some(*b),
            _ => None,
        }
    }

    /// Whether the value is null.
    pub fn is_null(&self) -> (b: bool)
        ensures
            b == (*self is Null),
    {
        match self {
            JsonValue::Null => true,
            _ => false,
        }
    }
}

/// The member `key` of an object, taken out of it.
pub fn take_member(v: JsonValue, key: &str) -> (r: Option<JsonValue>)
    ensures
        r == member_of(v, key@),
{
    let ghost whole = v;
    match v {
        JsonValue::Object(ms) => {
            let mut ms = ms;
            let ghost orig = ms@;
            let k = chars_of(key);
            let mut i: usize = 0;
            while i < ms.len()
                invariant
                    whole == v,
                    whole == JsonValue::Object(ms),
                    ms@ == orig,
                    i <= ms.len(),
                    k@ == key@,
                    forall|j: int| 0 <= j < i ==> ms@[j].key@ != key@,
                decreases ms.len() - i,
            {
                if chars_eq(&chars_of(ms[i].key.as_str()), &k) {
                    proof {
                        lemma_member_pos_found(ms@, key@, i as int);
                        assert(member_of(whole, key@) == Some(orig[i as int].value));
                    }
                    let m = ms.remove(i);
                    let r = Some(m.value);
                    assert(r == member_of(whole, key@));
                    return r;
                }
                i = i + 1;
            }
            proof {
                lemma_member_pos_none(ms@, key@);
            }
            None
        },
        _ => None,
    }
}

/// The text of the member `key` of `v`, when it is a string.
pub fn str_member<'a>(v: &'a JsonValue, key: &str) -> (r: Option<&'a str>)
    ensures
        match r {
            Some(s) => str_at(*v, key@) == Some(s@),
            None => str_at(*v, key@) is None,
        },
{
    match v.get(key) {
        Some(x) => x.as_str(),
        None => None,
    }
}

/// The value at the path `a`, `b` of keys.
pub fn member2<'a>(v: &'a JsonValue, a: &str, b: &str) -> (r: Option<&'a JsonValue>)
    ensures
        match r {
            Some(x) => at_path(*v, seq![a@, b@]) == Some(*x),
            None => at_path(*v, seq![a@, b@]) is None,
        },
{
    proof {
        assert(seq![a@, b@].drop_last() == seq![a@]);
        assert(seq![a@].drop_last() == Seq::<Seq<char>>::empty());
        reveal_with_fuel(at_path, 3);
    }
    match v.get(a) {
        Some(x) => x.get(b),
        None => None,
    }
}

/// The value at the path `a`, `b`, `c` of keys.
pub fn member3<'a>(v: &'a JsonValue, a: &str, b: &str, c: &str) -> (r: Option<&'a JsonValue>)
    ensures
        match r {
            Some(x) => at_path(*v, seq![a@, b@, c@]) == Some(*x),
            None => at_path(*v, seq![a@, b@, c@]) is None,
        },
{
    proof {
        assert(seq![a@, b@, c@].drop_last() == seq![a@, b@]);
        reveal_with_fuel(at_path, 2);
    }
    match member2(v, a, b) {
        Some(x) => x.get(c),
        None => None,
    }
}

} // verus!
