//! JSON documents as plain values, read through serde_json.
use vstd::prelude::*;
use crate::text::str_eq;

verus! {

#[verifier::external_type_specification]
#[verifier::external_body]
pub struct ExSerdeValue(serde_json::Value);

/// A JSON document. Numbers that fit an `i64` are held as `Int`; any other
/// number keeps its decimal text in `Num`. Objects read from text have their
/// members sorted by name; equality of objects ignores member order.
pub enum JsonValue {
    Null,
    Bool(bool),
    Int(i64),
    Num(String),
    Str(String),
    Array(Vec<JsonValue>),
    Object(Vec<(String, JsonValue)>),
}

/// What `serde_json` reads from a text, if it is one JSON document.
pub uninterp spec fn json_parse_of(s: Seq<char>) -> Option<JsonValue>;

/// Relies on `serde_json::from_str::<serde_json::Value>`: the document that the
/// text holds, or `None` where the text is not exactly one JSON value.
#[verifier::external_body]
pub fn parse_json(s: &str) -> (r: Option<JsonValue>)
    ensures
        r == json_parse_of(s@),
{
    serde_json::from_str::<serde_json::Value>(s).ok().map(from_serde)
}

/// Relies on the variants of `serde_json::Value`: each becomes the variant of the
/// same name, a number becomes `Int` where `Number::as_i64` gives one and its
/// text otherwise.
#[verifier::external_body]
fn from_serde(v: serde_json::Value) -> JsonValue {
    match v {
        serde_json::Value::Null => JsonValue::Null,
        serde_json::Value::Bool(b) => JsonValue::Bool(b),
        serde_json::Value::Number(n) => match n.as_i64() {
            Some(i) => JsonValue::Int(i),
            None => JsonValue::Num(n.to_string()),
        },
        serde_json::Value::String(s) => JsonValue::Str(s),
        serde_json::Value::Array(a) => JsonValue::Array(a.into_iter().map(from_serde).collect()),
        serde_json::Value::Object(o) => JsonValue::Object(
            o.into_iter().map(|(k, x)| (k, from_serde(x))).collect(),
        ),
    }
}

/// Two documents are equal: same shape, same scalars, same members in the same order.
pub open spec fn json_same(a: JsonValue, b: JsonValue) -> bool
    decreases a, 0int,
{
    match a {
        JsonValue::Null => b is Null,
        JsonValue::Bool(x) => b is Bool && b->Bool_0 == x,
        JsonValue::Int(x) => b is Int && b->Int_0 == x,
        JsonValue::Num(x) => b is Num && b->Num_0@ == x@,
        JsonValue::Str(x) => b is Str && b->Str_0@ == x@,
        JsonValue::Array(xs) => b is Array && items_same(xs@, b->Array_0@),
        JsonValue::Object(xs) => b is Object && xs@.len() == b->Object_0@.len() && members_in(
            xs@,
            b->Object_0@,
        ) && names_in(b->Object_0@, xs@),
    }
}

/// Element-wise equality of two lists of documents.
pub open spec fn items_same(xs: Seq<JsonValue>, ys: Seq<JsonValue>) -> bool
    decreases xs, 1int,
{
    if xs.len() != ys.len() {
        false
    } else if xs.len() == 0 {
        true
    } else {
        json_same(xs[0], ys[0]) && items_same(xs.drop_first(), ys.drop_first())
    }
}

/// Every member of `xs` has a value equal to that of the first member of `ys`
/// with its name.
pub open spec fn members_in(xs: Seq<(String, JsonValue)>, ys: Seq<(String, JsonValue)>) -> bool
    decreases xs, 1int,
{
    if xs.len() == 0 {
        true
    } else {
        match field_of(ys, xs[0].0@) {
            Some(y) => json_same(xs[0].1, y) && members_in(xs.drop_first(), ys),
            None => false,
        }
    }
}

/// Every member name of `ys` names a member of `xs`.
pub open spec fn names_in(ys: Seq<(String, JsonValue)>, xs: Seq<(String, JsonValue)>) -> bool {
    forall|k: int| 0 <= k < ys.len() ==> field_of(xs, (#[trigger] ys[k]).0@) is Some
}

/// Structural equality of two documents.
pub fn json_eq(a: &JsonValue, b: &JsonValue) -> (r: bool)
    ensures
        r == json_same(*a, *b),
    decreases a,
{
    match (a, b) {
        (JsonValue::Null, JsonValue::Null) => true,
        (JsonValue::Bool(x), JsonValue::Bool(y)) => *x == *y,
        (JsonValue::Int(x), JsonValue::Int(y)) => *x == *y,
        (JsonValue::Num(x), JsonValue::Num(y)) => str_eq(x, y),
        (JsonValue::Str(x), JsonValue::Str(y)) => str_eq(x, y),
        (JsonValue::Array(xs), JsonValue::Array(ys)) => {
            if xs.len() != ys.len() {
                return false;
            }
            let n = xs.len();
            let mut i: usize = 0;
            assert(xs@.subrange(0, n as int) =~= xs@);
            assert(ys@.subrange(0, n as int) =~= ys@);
            while i < n
                invariant
                    *a == JsonValue::Array(*xs),
                    *b == JsonValue::Array(*ys),
                    n == xs@.len(),
                    xs@.len() == ys@.len(),
                    0 <= i <= n,
                    items_same(xs@, ys@) == items_same(
                        xs@.subrange(i as int, n as int),
                        ys@.subrange(i as int, n as int),
                    ),
                decreases n - i,
            {
                proof {
                    assert(decreases_to!(*a => (*a)->Array_0));
                    assert(decreases_to!(*xs => xs@));
                    assert(decreases_to!(xs@ => xs@[i as int]));
                    assert(xs@.subrange(i as int, n as int).drop_first() =~= xs@.subrange(i + 1, n as int));
                    assert(ys@.subrange(i as int, n as int).drop_first() =~= ys@.subrange(i + 1, n as int));
                    assert(xs@.subrange(i as int, n as int)[0] == xs@[i as int]);
                    assert(ys@.subrange(i as int, n as int)[0] == ys@[i as int]);
                }
                if !json_eq(&xs[i], &ys[i]) {
                    return false;
                }
                i = i + 1;
            }
            true
        },
        (JsonValue::Object(xs), JsonValue::Object(ys)) => {
            if xs.len() != ys.len() {
                return false;
            }
            let n = xs.len();
            let mut i: usize = 0;
            assert(xs@.subrange(0, n as int) =~= xs@);
            while i < n
                invariant
                    *a == JsonValue::Object(*xs),
                    *b == JsonValue::Object(*ys),
                    n == xs@.len(),
                    0 <= i <= n,
                    members_in(xs@, ys@) == members_in(xs@.subrange(i as int, n as int), ys@),
                decreases n - i,
            {
                proof {
                    assert(decreases_to!(*a => (*a)->Object_0));
                    assert(decreases_to!(*xs => xs@));
                    assert(decreases_to!(xs@ => xs@[i as int]));
                    assert(decreases_to!(xs@[i as int] => xs@[i as int].1));
                    assert(xs@.subrange(i as int, n as int).drop_first() =~= xs@.subrange(i + 1, n as int));
                    assert(xs@.subrange(i as int, n as int)[0] == xs@[i as int]);
                }
                match lookup_field(ys, xs[i].0.as_str()) {
                    Some(y) => {
                        if !json_eq(&xs[i].1, y) {
                            return false;
                        }
                    },
                    None => {
                        return false;
                    },
                }
                i = i + 1;
            }
            let mut k: usize = 0;
            while k < ys.len()
                invariant
                    *a == JsonValue::Object(*xs),
                    *b == JsonValue::Object(*ys),
                    members_in(xs@, ys@),
                    xs@.len() == ys@.len(),
                    0 <= k <= ys@.len(),
                    forall|t: int| 0 <= t < k ==> field_of(xs@, (#[trigger] ys@[t]).0@) is Some,
                decreases ys.len() - k,
            {
                if lookup_field(xs, ys[k].0.as_str()).is_none() {
                    return false;
                }
                k = k + 1;
            }
            true
        },
        _ => false,
    }
}

/// The value of the first member of `fields` named `key`.
pub open spec fn field_of(fields: Seq<(String, JsonValue)>, key: Seq<char>) -> Option<JsonValue>
    decreases fields.len(),
{
    if fields.len() == 0 {
        None
    } else if fields[0].0@ == key {
        Some(fields[0].1)
    } else {
        field_of(fields.drop_first(), key)
    }
}

/// The member `key` of an object; `None` for a missing member or a value that is
/// no object.
pub open spec fn member(v: JsonValue, key: Seq<char>) -> Option<JsonValue> {
    match v {
        JsonValue::Object(fields) => field_of(fields@, key),
        _ => None,
    }
}

/// The value of the first member named `key`.
pub fn lookup_field<'a>(fields: &'a Vec<(String, JsonValue)>, key: &str) -> (r: Option<&'a JsonValue>)
    ensures
        r matches Some(x) ==> field_of(fields@, key@) == Some(*x),
        r is None ==> field_of(fields@, key@) is None,
{
    let k = String::from_str(key);
    let mut i: usize = 0;
    assert(fields@.subrange(0, fields@.len() as int) =~= fields@);
    while i < fields.len()
        invariant
            0 <= i <= fields@.len(),
            k@ == key@,
            field_of(fields@, key@) == field_of(fields@.subrange(i as int, fields@.len() as int), key@),
        decreases fields.len() - i,
    {
        let ghost rest = fields@.subrange(i as int, fields@.len() as int);
        assert(rest.drop_first() =~= fields@.subrange(i + 1, fields@.len() as int));
        assert(rest[0] == fields@[i as int]);
        if str_eq(&fields[i].0, &k) {
            return Some(&fields[i].1);
        }
        i = i + 1;
    }
    None
}

/// Looks up the member `key` of an object.
pub fn get_member<'a>(v: &'a JsonValue, key: &str) -> (r: Option<&'a JsonValue>)
    ensures
        r matches Some(x) ==> member(*v, key@) == Some(*x),
        r is None ==> member(*v, key@) is None,
{
    match v {
        JsonValue::Object(fields) => lookup_field(fields, key),
        _ => None,
    }
}

/// Takes the member `key` out of an object.
pub fn take_member(v: JsonValue, key: &str) -> (r: Option<JsonValue>)
    ensures
        r == member(v, key@),
{
    match v {
        JsonValue::Object(fields) => take_field(fields, key),
        _ => None,
    }
}

/// Takes the value of the first member named `key` out of a member list.
fn take_field(fields: Vec<(String, JsonValue)>, key: &str) -> (r: Option<JsonValue>)
    ensures
        r == field_of(fields@, key@),
{
    let ghost orig = fields@;
    let mut list = fields;
    let k = String::from_str(key);
    let mut i: usize = 0;
    assert(orig.subrange(0, orig.len() as int) =~= orig);
    while i < list.len()
        invariant
            list@ == orig,
            orig == fields@,
            0 <= i <= orig.len(),
            k@ == key@,
            field_of(orig, key@) == field_of(orig.subrange(i as int, orig.len() as int), key@),
        decreases list.len() - i,
    {
        let ghost rest = orig.subrange(i as int, orig.len() as int);
        assert(rest.drop_first() =~= orig.subrange(i + 1, orig.len() as int));
        assert(rest[0] == orig[i as int]);
        if str_eq(&list[i].0, &k) {
            assert(field_of(rest, key@) == Some(rest[0].1));
            let (_, x) = list.remove(i);
            assert(Some(x) == field_of(orig, key@));
            return Some(x);
        }
        i = i + 1;
    }
    None
}

/// The text of a string value.
pub open spec fn as_text(v: Option<JsonValue>) -> Option<Seq<char>> {
    match v {
        Some(JsonValue::Str(s)) => Some(s@),
        _ => None,
    }
}

/// The text of the string member `key`, if `v` has one.
pub fn get_text(v: &JsonValue, key: &str) -> (r: Option<String>)
    ensures
        r matches Some(s) ==> as_text(member(*v, key@)) == Some(s@),
        r is None ==> as_text(member(*v, key@)) is None,
{
    match get_member(v, key) {
        Some(JsonValue::Str(s)) => Some(s.clone()),
        _ => None,
    }
}

} // verus!
