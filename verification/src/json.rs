//! JSON documents, handled through `serde_json`.
//!
//! A document is carried as a `serde_json::Value`. The contracts speak of it
//! through two maps: the members of a JSON object with the compact text of each,
//! and those members that are unsigned integers with their values.

use vstd::prelude::*;

verus! {

#[verifier::external_type_specification]
#[verifier::external_body]
pub struct ExJsonValue(serde_json::Value);

#[verifier::external_type_specification]
#[verifier::external_body]
pub struct ExJsonError(serde_json::Error);

/// The members of a JSON object: each key with the compact text of its value.
/// A document that is not an object has no members.
pub uninterp spec fn json_members(v: serde_json::Value) -> Map<Seq<char>, Seq<char>>;

/// The members of a JSON object whose value is an integer between zero and
/// `u64::MAX`, each with that integer.
pub uninterp spec fn json_integers(v: serde_json::Value) -> Map<Seq<char>, u64>;

/// The integer that a document is: a JSON number that is an integer between
/// zero and `u64::MAX`. Any other document is none.
pub uninterp spec fn json_as_integer(v: serde_json::Value) -> Option<u64>;

/// What parsing a text as JSON yields: nothing where the text is not valid
/// JSON, else the members and the integer members of the document.
pub uninterp spec fn json_parse(text: Seq<char>) -> Option<(Map<Seq<char>, Seq<char>>, Map<Seq<char>, u64>)>;

/// The compact text of the JSON object that has the given members.
pub uninterp spec fn json_compact(members: Map<Seq<char>, Seq<char>>) -> Seq<char>;

/// The decimal digit for a number below ten.
pub open spec fn digit_char(d: nat) -> char {
    if d == 0 {
        '0'
    } else if d == 1 {
        '1'
    } else if d == 2 {
        '2'
    } else if d == 3 {
        '3'
    } else if d == 4 {
        '4'
    } else if d == 5 {
        '5'
    } else if d == 6 {
        '6'
    } else if d == 7 {
        '7'
    } else if d == 8 {
        '8'
    } else {
        '9'
    }
}

/// The decimal numeral of `n`, without sign and without leading zeros.
pub open spec fn decimal_text(n: nat) -> Seq<char>
    decreases n,
{
    if n < 10 {
        seq![digit_char(n)]
    } else {
        decimal_text(n / 10).push(digit_char(n % 10))
    }
}

/// Whether the document is a JSON object with at least one member.
pub open spec fn json_has_members(v: serde_json::Value) -> bool {
    exists|k: Seq<char>| #[trigger] json_members(v).contains_key(k)
}

/// The integer under `key`, where the document is an object with such a member
/// and the member is an integer between zero and `u64::MAX`.
pub open spec fn integer_member(integers: Map<Seq<char>, u64>, key: Seq<char>) -> Option<u64> {
    if integers.contains_key(key) {
        Some(integers[key])
    } else {
        None
    }
}

/// `serde_json::from_str` at type `Value`: fails exactly on the texts that are not
/// valid JSON, and otherwise returns the document that the text denotes.
#[verifier::external_body]
pub(crate) fn json_from_str(s: &str) -> (res: Result<serde_json::Value, serde_json::Error>)
    ensures
        match res {
            Ok(v) => json_parse(s@) == Some((json_members(v), json_integers(v))),
            Err(_) => json_parse(s@) is None,
        },
{
    serde_json::from_str::<serde_json::Value>(s)
}

/// `Value::get` with a string key: the member under `key`, where the document
/// is an object that has one. Whether the member is an unsigned integer, and
/// which, is what the integer members of the document say of `key`.
#[verifier::external_body]
pub(crate) fn json_get<'a>(v: &'a serde_json::Value, key: &str) -> (res: Option<&'a serde_json::Value>)
    ensures
        res is Some <==> json_members(*v).contains_key(key@),
        match res {
            Some(member) => json_as_integer(*member) == integer_member(json_integers(*v), key@),
            None => integer_member(json_integers(*v), key@) is None,
        },
{
    v.get(key)
}

/// `Value::as_u64`: the number that the document is, where it is an integer
/// between zero and `u64::MAX`.
#[verifier::external_body]
pub(crate) fn json_as_u64(v: &serde_json::Value) -> (res: Option<u64>)
    ensures
        res == json_as_integer(*v),
{
    v.as_u64()
}

/// Index assignment on a `Value` with a string key and `Value::from(u32)`: on
/// an object, the member `key` is set to the number `n` and every other member
/// stays. (On a value that is neither an object nor null the assignment panics,
/// so such values are left out.)
#[verifier::external_body]
pub(crate) fn json_set_u32(v: &mut serde_json::Value, key: &str, n: u32)
    requires
        json_has_members(*old(v)),
    ensures
        json_members(*final(v)) == json_members(*old(v)).insert(key@, decimal_text(n as nat)),
        json_integers(*final(v)) == json_integers(*old(v)).insert(key@, n as u64),
{
    v[key] = serde_json::Value::from(n);
}

/// `Value::clone`: the copy is the same document.
#[verifier::external_body]
pub(crate) fn json_clone(v: &serde_json::Value) -> (res: serde_json::Value)
    ensures
        res == *v,
{
    v.clone()
}

/// `serde_json::to_string` on a `Value`: for an object with members, the
/// compact text of those members, which stand in the order of their keys.
/// Writing such a document never fails: it goes into memory, every key is a
/// string and every number has a text.
#[verifier::external_body]
pub(crate) fn json_to_string(v: &serde_json::Value) -> (res: Result<String, serde_json::Error>)
    ensures
        json_has_members(*v) ==> res is Ok,
        json_has_members(*v) ==> (res matches Ok(s) ==> s@ == json_compact(json_members(*v))),
{
    serde_json::to_string(v)
}

} // verus!
