//! JSON documents: what a `serde_json::Value` holds, and the calls that read,
//! parse and write one.

use crate::binary64::{encoded, rounded};
use vstd::prelude::*;

verus! {

#[verifier::external_type_specification]
#[verifier::external_body]
pub struct ExValue(serde_json::Value);

#[verifier::external_type_specification]
#[verifier::external_body]
pub struct ExError(serde_json::Error);

/// A JSON number: an integer that is not negative, a negative integer, or the
/// bits of a floating-point number.
pub enum JsonNumber {
    Unsigned(u64),
    Negative(i64),
    Float(u64),
}

/// What a JSON document holds.
pub enum JsonV {
    Null,
    Bool(bool),
    Number(JsonNumber),
    Str(Seq<char>),
    Array(Seq<JsonV>),
    Object(Map<Seq<char>, JsonV>),
}

impl JsonV {
    /// The member of an object under `key`.
    pub open spec fn member(self, key: Seq<char>) -> Option<JsonV> {
        match self {
            JsonV::Object(m) => if m.dom().contains(key) {
                Some(m[key])
            } else {
                None
            },
            _ => None,
        }
    }

    /// The text of a string.
    pub open spec fn text(self) -> Option<Seq<char>> {
        match self {
            JsonV::Str(s) => Some(s),
            _ => None,
        }
    }

    /// The items of an array.
    pub open spec fn items(self) -> Option<Seq<JsonV>> {
        match self {
            JsonV::Array(a) => Some(a),
            _ => None,
        }
    }

    /// An integer that is not negative and fits 64 bits.
    pub open spec fn unsigned(self) -> Option<u64> {
        match self {
            JsonV::Number(JsonNumber::Unsigned(n)) => Some(n),
            _ => None,
        }
    }

    /// An integer that fits 64 bits with a sign.
    pub open spec fn signed(self) -> Option<i64> {
        match self {
            JsonV::Number(JsonNumber::Unsigned(n)) => if n <= i64::MAX {
                Some(n as i64)
            } else {
                None
            },
            JsonV::Number(JsonNumber::Negative(n)) => Some(n),
            _ => None,
        }
    }

    /// A truth value.
    pub open spec fn truth(self) -> Option<bool> {
        match self {
            JsonV::Bool(b) => Some(b),
            _ => None,
        }
    }

    /// The bits of a number as a binary64; of an integer, those of the nearest one.
    pub open spec fn double(self) -> Option<u64> {
        match self {
            JsonV::Number(JsonNumber::Unsigned(n)) => Some(encoded(false, rounded(n as int, 1, 0))),
            JsonV::Number(JsonNumber::Negative(n)) => Some(
                encoded(true, rounded(-(n as int), 1, 0)),
            ),
            JsonV::Number(JsonNumber::Float(bits)) => Some(bits),
            _ => None,
        }
    }

    /// The text of the member under `key`, if it is a string.
    pub open spec fn member_text(self, key: Seq<char>) -> Option<Seq<char>> {
        match self.member(key) {
            Some(v) => v.text(),
            None => None,
        }
    }

    /// The member under `key`, if it is an integer that is not negative.
    pub open spec fn member_unsigned(self, key: Seq<char>) -> Option<u64> {
        match self.member(key) {
            Some(v) => v.unsigned(),
            None => None,
        }
    }

    /// The member under `key`, if it is a truth value.
    pub open spec fn member_truth(self, key: Seq<char>) -> Option<bool> {
        match self.member(key) {
            Some(v) => v.truth(),
            None => None,
        }
    }

    /// The bits of the member under `key`, if it is a number.
    pub open spec fn member_double(self, key: Seq<char>) -> Option<u64> {
        match self.member(key) {
            Some(v) => v.double(),
            None => None,
        }
    }

    /// The items of the member under `key`, if it is an array.
    pub open spec fn member_items(self, key: Seq<char>) -> Option<Seq<JsonV>> {
        match self.member(key) {
            Some(v) => v.items(),
            None => None,
        }
    }
}

/// What a document holds.
pub uninterp spec fn json_of(v: serde_json::Value) -> JsonV;

/// What each of several documents holds.
pub open spec fn json_seq(a: Seq<serde_json::Value>) -> Seq<JsonV> {
    a.map_values(|v: serde_json::Value| json_of(v))
}

/// The document that a text writes, if it writes one.
pub uninterp spec fn json_of_text(s: Seq<char>) -> Option<JsonV>;

/// The compact text of a document.
pub uninterp spec fn text_of_json(j: JsonV) -> Seq<char>;

/// `serde_json::Value::get` with a text key: the member of an object under that
/// key; nothing where there is none or where the value is no object.
#[verifier::external_body]
pub(crate) fn get<'a>(v: &'a serde_json::Value, key: &str) -> (r: Option<&'a serde_json::Value>)
    ensures
        match r {
            Some(m) => json_of(*v).member(key@) == Some(json_of(*m)),
            None => json_of(*v).member(key@) is None,
        },
{
    v.get(key)
}

/// `serde_json::Value::as_str`: the text of a string, nothing of another value.
#[verifier::external_body]
pub(crate) fn as_str(v: &serde_json::Value) -> (r: Option<&str>)
    ensures
        match r {
            Some(s) => json_of(*v).text() == Some(s@),
            None => json_of(*v).text() is None,
        },
{
    v.as_str()
}

/// `serde_json::Value::as_array`: the items of an array, in order, nothing of
/// another value.
#[verifier::external_body]
pub(crate) fn as_array(v: &serde_json::Value) -> (r: Option<&Vec<serde_json::Value>>)
    ensures
        match r {
            Some(a) => json_of(*v).items() == Some(json_seq(a@)),
            None => json_of(*v).items() is None,
        },
{
    v.as_array()
}

/// `serde_json::Value::as_u64`: the number where it is an integer from zero to
/// `u64::MAX`, nothing of another value.
#[verifier::external_body]
pub(crate) fn as_u64(v: &serde_json::Value) -> (r: Option<u64>)
    ensures
        r == json_of(*v).unsigned(),
{
    v.as_u64()
}

/// `serde_json::Value::as_i64`: the number where it is an integer from
/// `i64::MIN` to `i64::MAX`, nothing of another value.
#[verifier::external_body]
pub(crate) fn as_i64(v: &serde_json::Value) -> (r: Option<i64>)
    ensures
        r == json_of(*v).signed(),
{
    v.as_i64()
}

/// `serde_json::Value::as_bool`: the truth value, nothing of another value.
#[verifier::external_body]
pub(crate) fn as_bool(v: &serde_json::Value) -> (r: Option<bool>)
    ensures
        r == json_of(*v).truth(),
{
    v.as_bool()
}

/// `serde_json::Value::as_f64`, by its bits: a floating-point number as it is,
/// an integer as the nearest one, the even one of two; nothing of a value that
/// is no number.
#[verifier::external_body]
pub(crate) fn as_double(v: &serde_json::Value) -> (r: Option<u64>)
    ensures
        r == json_of(*v).double(),
{
    v.as_f64().map(|x| x.to_bits())
}

/// `serde_json::from_str` into a `Value`: the document that the text writes, or
/// an error where it writes none. Which texts write a document, and which
/// document, is a function of the text alone; it is not stated further.
#[verifier::external_body]
pub(crate) fn parse(s: &str) -> (r: Result<serde_json::Value, serde_json::Error>)
    ensures
        match r {
            Ok(v) => json_of_text(s@) == Some(json_of(v)),
            Err(_) => json_of_text(s@) is None,
        },
{
    serde_json::from_str(s)
}

/// `serde_json::to_string` of a `Value`: its compact text, a function of what
/// the value holds. A `Value` holds no map with other than text keys, so it
/// can always be written.
#[verifier::external_body]
pub(crate) fn write(v: &serde_json::Value) -> (r: Result<String, serde_json::Error>)
    ensures
        r is Ok,
        r->Ok_0@ == text_of_json(json_of(*v)),
{
    serde_json::to_string(v)
}

/// `serde_json::Value::clone`: the clone holds what the value holds.
#[verifier::external_body]
pub(crate) fn copy(v: &serde_json::Value) -> (r: serde_json::Value)
    ensures
        json_of(r) == json_of(*v),
{
    v.clone()
}

/// `serde_json::Value::Object` of `serde_json::Map::new`: an object without members.
#[verifier::external_body]
pub(crate) fn empty_object() -> (r: serde_json::Value)
    ensures
        json_of(r) == JsonV::Object(Map::empty()),
{
    serde_json::Value::Object(serde_json::Map::new())
}

/// `serde_json::Value::Null`: nothing.
#[verifier::external_body]
pub(crate) fn null() -> (r: serde_json::Value)
    ensures
        json_of(r) == JsonV::Null,
{
    serde_json::Value::Null
}

/// `serde_json::Value::String` of a text.
#[verifier::external_body]
pub(crate) fn string(s: &str) -> (r: serde_json::Value)
    ensures
        json_of(r) == JsonV::Str(s@),
{
    serde_json::Value::String(s.to_string())
}

/// `serde_json::Value::Bool` of a truth value.
#[verifier::external_body]
pub(crate) fn truth_value(b: bool) -> (r: serde_json::Value)
    ensures
        json_of(r) == JsonV::Bool(b),
{
    serde_json::Value::Bool(b)
}

/// `serde_json::Value::from` of an integer that is not negative.
#[verifier::external_body]
pub(crate) fn integer(n: u64) -> (r: serde_json::Value)
    ensures
        json_of(r) == JsonV::Number(JsonNumber::Unsigned(n)),
{
    serde_json::Value::from(n)
}

/// `serde_json::Value::is_null`: whether the value is nothing.
#[verifier::external_body]
pub(crate) fn is_null(v: &serde_json::Value) -> (r: bool)
    ensures
        r == (json_of(*v) is Null),
{
    v.is_null()
}

/// `serde_json::Map::insert` on the members of an object, which
/// `serde_json::Value::as_object_mut` gives: the object has the member under
/// the key and otherwise those it had. Another value stays as it is.
#[verifier::external_body]
pub(crate) fn insert(v: &mut serde_json::Value, key: &str, member: serde_json::Value)
    ensures
        json_of(*final(v)) == (match json_of(*old(v)) {
            JsonV::Object(m) => JsonV::Object(m.insert(key@, json_of(member))),
            other => other,
        }),
{
    if let Some(map) = v.as_object_mut() {
        map.insert(key.to_string(), member);
    }
}

/// The keys of a row of members.
pub open spec fn keys_of(members: Seq<(Seq<char>, JsonV)>) -> Seq<Seq<char>> {
    members.map_values(|p: (Seq<char>, JsonV)| p.0)
}

/// Whether a row holds an object's members, by ascending keys.
pub open spec fn is_listing(m: Map<Seq<char>, JsonV>, members: Seq<(Seq<char>, JsonV)>) -> bool {
    &&& crate::text::ascending(keys_of(members))
    &&& forall|key: Seq<char>| #[trigger]
        keys_of(members).contains(key) <==> m.dom().contains(key)
    &&& forall|i: int| 0 <= i < members.len() ==> (#[trigger] members[i]).1 == m[members[i].0]
}

/// An object's members, by ascending keys.
pub open spec fn listing_of(m: Map<Seq<char>, JsonV>) -> Seq<(Seq<char>, JsonV)> {
    choose|members: Seq<(Seq<char>, JsonV)>| is_listing(m, members)
}

/// There is one row of an object's members by ascending keys.
pub proof fn listing_is_unique(m: Map<Seq<char>, JsonV>, members: Seq<(Seq<char>, JsonV)>)
    requires
        is_listing(m, members),
    ensures
        listing_of(m) == members,
{
    let other = listing_of(m);
    assert(is_listing(m, other));
    let a = keys_of(members);
    let b = keys_of(other);
    assert forall|x: Seq<char>| #[trigger] a.contains(x) <==> b.contains(x) by {
        assert(keys_of(other).contains(x) <==> m.dom().contains(x));
    }
    crate::text::ascending_is_unique(a, b);
    assert(members.len() == a.len() && other.len() == b.len());
    assert forall|i: int| 0 <= i < members.len() implies members[i] == other[i] by {
        assert(a[i] == members[i].0 && b[i] == other[i].0);
    }
    assert(members =~= other);
}

proof fn keys_listed(keys: Set<Seq<char>>) -> (list: Seq<Seq<char>>)
    requires
        keys.finite(),
    ensures
        forall|x: Seq<char>| #[trigger] list.contains(x) <==> keys.contains(x),
    decreases keys.len(),
{
    if keys.is_empty() {
        let list = Seq::<Seq<char>>::empty();
        list
    } else {
        let k = keys.choose();
        let init = keys_listed(keys.remove(k));
        let list = init.push(k);
        assert forall|x: Seq<char>| #[trigger] list.contains(x) <==> keys.contains(x) by {
            assert(list[init.len() as int] == k);
            if init.contains(x) {
                let i = choose|i: int| 0 <= i < init.len() && init[i] == x;
                assert(list[i] == x);
            }
            if list.contains(x) {
                let i = choose|i: int| 0 <= i < list.len() && list[i] == x;
                if i < init.len() {
                    assert(init[i] == x);
                    assert(init.contains(x));
                }
            }
            assert(init.contains(x) <==> keys.remove(k).contains(x));
        }
        list
    }
}

/// An object's members can be put into a row by ascending keys.
pub proof fn listing_exists(m: Map<Seq<char>, JsonV>)
    requires
        m.dom().finite(),
    ensures
        is_listing(m, listing_of(m)),
{
    let listed = keys_listed(m.dom());
    let keys = crate::text::ascending_exists(listed);
    assert forall|key: Seq<char>| #[trigger] keys.contains(key) <==> m.dom().contains(key) by {
        assert(listed.contains(key) <==> m.dom().contains(key));
    }
    let members = Seq::new(keys.len(), |i: int| (keys[i], m[keys[i]]));
    assert(keys_of(members) =~= keys);
    assert(is_listing(m, members));
}

/// What each of several members holds.
pub open spec fn members_view(members: Seq<(String, serde_json::Value)>) -> Seq<
    (Seq<char>, JsonV),
> {
    members.map_values(|p: (String, serde_json::Value)| (p.0@, json_of(p.1)))
}

/// `serde_json::Value::as_object` and the map's iterator: the members of an
/// object, nothing of another value. The map is backed by a `BTreeMap`, which
/// is walked by ascending keys; keys are texts, whose order is that of their
/// characters.
#[verifier::external_body]
pub(crate) fn members(v: &serde_json::Value) -> (r: Option<Vec<(String, serde_json::Value)>>)
    ensures
        match json_of(*v) {
            JsonV::Object(m) => r is Some && is_listing(m, members_view(r->Some_0@)),
            _ => r is None,
        },
{
    v.as_object().map(|m| m.iter().map(|(k, x)| (k.clone(), x.clone())).collect())
}

/// The document that bytes write, if they write one.
pub uninterp spec fn json_of_bytes(bytes: Seq<u8>) -> Option<JsonV>;

/// `serde_json::from_slice` into a `Value`: the document that the bytes write,
/// or an error where they write none. Which bytes write a document, and which
/// document, is a function of the bytes alone; it is not stated further.
#[verifier::external_body]
pub(crate) fn parse_bytes(bytes: &[u8]) -> (r: Result<serde_json::Value, serde_json::Error>)
    ensures
        match r {
            Ok(v) => json_of_bytes(bytes@) == Some(json_of(v)),
            Err(_) => json_of_bytes(bytes@) is None,
        },
{
    serde_json::from_slice(bytes)
}

/// The text of the member under `key`, if it is a string.
pub fn member_text<'a>(v: &'a serde_json::Value, key: &str) -> (r: Option<&'a str>)
    ensures
        match r {
            Some(s) => json_of(*v).member_text(key@) == Some(s@),
            None => json_of(*v).member_text(key@) is None,
        },
{
    match get(v, key) {
        Some(m) => as_str(m),
        None => None,
    }
}

/// The member under `key`, if it is an integer that is not negative.
pub fn member_unsigned(v: &serde_json::Value, key: &str) -> (r: Option<u64>)
    ensures
        r == json_of(*v).member_unsigned(key@),
{
    match get(v, key) {
        Some(m) => as_u64(m),
        None => None,
    }
}

/// The member under `key`, if it is a truth value.
pub fn member_truth(v: &serde_json::Value, key: &str) -> (r: Option<bool>)
    ensures
        r == json_of(*v).member_truth(key@),
{
    match get(v, key) {
        Some(m) => as_bool(m),
        None => None,
    }
}

/// The bits of the member under `key`, if it is a number.
pub fn member_double(v: &serde_json::Value, key: &str) -> (r: Option<u64>)
    ensures
        r == json_of(*v).member_double(key@),
{
    match get(v, key) {
        Some(m) => as_double(m),
        None => None,
    }
}

/// The items of the member under `key`, if it is an array.
pub fn member_items<'a>(v: &'a serde_json::Value, key: &str) -> (r: Option<
    &'a Vec<serde_json::Value>,
>)
    ensures
        match r {
            Some(a) => json_of(*v).member_items(key@) == Some(json_seq(a@)),
            None => json_of(*v).member_items(key@) is None,
        },
{
    match get(v, key) {
        Some(m) => as_array(m),
        None => None,
    }
}

} // verus!
