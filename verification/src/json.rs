//! JSON values as `serde_json` reads them, and the lookups the library makes
//! in them.
use vstd::prelude::*;
use crate::text;

verus! {

broadcast use vstd::string::group_string_axioms;

/// A JSON number: a non-negative integer that fits in a `u64`, a negative one
/// that fits in an `i64`, or any other number (its value is not kept).
#[derive(Debug)]
pub enum JsonNumber {
    PosInt(u64),
    NegInt(i64),
    Other,
}

/// A JSON value. Object members come in key order, each key once.
#[derive(Debug)]
pub enum Json {
    Null,
    Bool(bool),
    Number(JsonNumber),
    Str(String),
    Array(Vec<Json>),
    Object(Vec<(String, Json)>),
}

#[verifier::external_type_specification]
#[verifier::external_body]
pub struct ExJsonValue(serde_json::Value);

/// What `serde_json::from_str::<Value>(text)` reads, as a [`Json`]; `None` when
/// the text is not JSON.
pub uninterp spec fn json_parse_result(text: Seq<char>) -> Option<Json>;

/// A lower-case hexadecimal digit.
pub open spec fn hex_digit(n: int) -> char {
    seq!['0', '1', '2', '3', '4', '5', '6', '7', '8', '9', 'a', 'b', 'c', 'd', 'e', 'f'][n]
}

/// How `serde_json` writes one character inside a string literal: `"` and
/// `\` escaped, the short escapes for backspace, tab, line feed, form feed and
/// carriage return, `\u00XX` for the other control characters, anything
/// else as it is.
pub open spec fn json_escape(c: char) -> Seq<char> {
    if c == '"' {
        seq!['\\', '"']
    } else if c == '\\' {
        seq!['\\', '\\']
    } else if c == '\u{8}' {
        seq!['\\', 'b']
    } else if c == '\t' {
        seq!['\\', 't']
    } else if c == '\n' {
        seq!['\\', 'n']
    } else if c == '\u{c}' {
        seq!['\\', 'f']
    } else if c == '\r' {
        seq!['\\', 'r']
    } else if (c as int) < 0x20 {
        seq!['\\', 'u', '0', '0', hex_digit((c as int) / 16), hex_digit((c as int) % 16)]
    } else {
        seq![c]
    }
}

/// The escaped characters of `s`.
pub open spec fn json_escaped(s: Seq<char>) -> Seq<char>
    decreases s.len(),
{
    if s.len() == 0 {
        seq![]
    } else {
        json_escaped(s.drop_last()) + json_escape(s.last())
    }
}

/// The JSON string literal of `s` as `serde_json` writes it.
pub open spec fn json_string_literal(s: Seq<char>) -> Seq<char> {
    seq!['"'] + json_escaped(s) + seq!['"']
}

#[verifier::external_type_specification]
#[verifier::external_body]
pub struct ExJsonNumberValue(serde_json::Number);

/// One `serde_json::Number` as a [`JsonNumber`], through `Number::as_u64` and
/// `Number::as_i64`.
#[verifier::external_body]
fn number_of(n: &serde_json::Number) -> JsonNumber {
    match (n.as_u64(), n.as_i64()) {
        (Some(u), _) => JsonNumber::PosInt(u),
        (None, Some(i)) => JsonNumber::NegInt(i),
        (None, None) => JsonNumber::Other,
    }
}

/// One `serde_json::Value` as a [`Json`], variant by variant.
#[verifier::external_body]
fn json_of(v: &serde_json::Value) -> Json {
    match v {
        serde_json::Value::Null => Json::Null,
        serde_json::Value::Bool(b) => Json::Bool(*b),
        serde_json::Value::Number(n) => Json::Number(number_of(n)),
        serde_json::Value::String(s) => Json::Str(s.clone()),
        serde_json::Value::Array(a) => Json::Array(a.iter().map(json_of).collect()),
        serde_json::Value::Object(o) => Json::Object(o.iter().map(|(k, x)| (k.clone(), json_of(x))).collect()),
    }
}

/// Calls `serde_json::from_str::<serde_json::Value>(text)`. The contract only
/// names the result: the value read, or `None` for text that is not JSON.
#[verifier::external_body]
pub(crate) fn json_parse(text: &str) -> (r: Option<Json>)
    ensures
        r == json_parse_result(text@),
{
    match serde_json::from_str::<serde_json::Value>(text) {
        Ok(v) => Some(json_of(&v)),
        Err(_) => None,
    }
}

// ---------------------------------------------------------------------------
// Writing
// ---------------------------------------------------------------------------

/// A number as `serde_json` writes it: decimal digits, `-` before a negative
/// one.
pub open spec fn number_text(n: JsonNumber) -> Seq<char> {
    match n {
        JsonNumber::PosInt(u) => text::decimal(u as nat),
        JsonNumber::NegInt(i) => seq!['-'] + text::decimal((-i) as nat),
        JsonNumber::Other => seq![],
    }
}

/// The compact text `serde_json` writes for a value (`Value`'s `Display`),
/// for values nested less than `d` deep: `null`, `true`, `false`, numbers,
/// string literals, `[a,b]` and `{"k":v}` with no spaces.
pub open spec fn json_text(j: Json, d: nat) -> Seq<char>
    decreases d, 0nat,
{
    if d == 0 {
        seq![]
    } else {
        match j {
            Json::Null => seq!['n', 'u', 'l', 'l'],
            Json::Bool(b) => if b {
                seq!['t', 'r', 'u', 'e']
            } else {
                seq!['f', 'a', 'l', 's', 'e']
            },
            Json::Number(n) => number_text(n),
            Json::Str(s) => json_string_literal(s@),
            Json::Array(a) => seq!['['] + items_text(a@, (d - 1) as nat) + seq![']'],
            Json::Object(ms) => seq!['{'] + members_text(ms@, (d - 1) as nat) + seq!['}'],
        }
    }
}

/// The elements of an array, separated by commas.
pub open spec fn items_text(s: Seq<Json>, d: nat) -> Seq<char>
    decreases d, s.len(),
{
    if s.len() == 0 {
        seq![]
    } else if s.len() == 1 {
        json_text(s[0], d)
    } else {
        items_text(s.drop_last(), d) + seq![','] + json_text(s.last(), d)
    }
}

/// The members of an object, `"key":value`, separated by commas.
pub open spec fn members_text(ms: Seq<(String, Json)>, d: nat) -> Seq<char>
    decreases d, ms.len(),
{
    if ms.len() == 0 {
        seq![]
    } else if ms.len() == 1 {
        json_string_literal(ms[0].0@) + seq![':'] + json_text(ms[0].1, d)
    } else {
        members_text(ms.drop_last(), d) + seq![','] + json_string_literal(ms.last().0@) + seq![':'] + json_text(
            ms.last().1,
            d,
        )
    }
}

/// Object keys in strictly increasing order, the order `serde_json`'s map
/// keeps them in.
pub open spec fn keys_sorted(ms: Seq<(String, Json)>) -> bool {
    forall|i: int, j: int| 0 <= i < j < ms.len() ==> crate::services::text_lt(#[trigger] ms[i].0@, #[trigger] ms[j].0@)
}

/// A value that `serde_json` writes as [`json_text`] says, nested less than
/// `d` deep: integer numbers only (a negative one as `NegInt`), object keys
/// in increasing order.
pub open spec fn writable(j: Json, d: nat) -> bool
    decreases d, 0nat,
{
    if d == 0 {
        false
    } else {
        match j {
            Json::Number(n) => match n {
                JsonNumber::PosInt(_) => true,
                JsonNumber::NegInt(i) => i < 0,
                JsonNumber::Other => false,
            },
            Json::Array(a) => items_writable(a@, (d - 1) as nat),
            Json::Object(ms) => keys_sorted(ms@) && members_writable(ms@, (d - 1) as nat),
            _ => true,
        }
    }
}

pub open spec fn items_writable(s: Seq<Json>, d: nat) -> bool
    decreases d, s.len(),
{
    if s.len() == 0 {
        true
    } else {
        items_writable(s.drop_last(), d) && writable(s.last(), d)
    }
}

pub open spec fn members_writable(ms: Seq<(String, Json)>, d: nat) -> bool
    decreases d, ms.len(),
{
    if ms.len() == 0 {
        true
    } else {
        members_writable(ms.drop_last(), d) && writable(ms.last().1, d)
    }
}

/// One [`Json`] as a `serde_json::Value`, variant by variant.
#[verifier::external_body]
fn value_of(j: &Json) -> serde_json::Value {
    match j {
        Json::Null => serde_json::Value::Null,
        Json::Bool(b) => serde_json::Value::Bool(*b),
        Json::Number(JsonNumber::PosInt(u)) => serde_json::Value::from(*u),
        Json::Number(JsonNumber::NegInt(i)) => serde_json::Value::from(*i),
        Json::Number(JsonNumber::Other) => serde_json::Value::Null,
        Json::Str(s) => serde_json::Value::String(s.clone()),
        Json::Array(a) => serde_json::Value::Array(a.iter().map(value_of).collect()),
        Json::Object(ms) => serde_json::Value::Object(ms.iter().map(|(k, x)| (k.clone(), value_of(x))).collect()),
    }
}

/// Calls `Value::to_string` (its `Display`: the compact serializer). The
/// contract states what `serde_json` writes for values of integer numbers
/// and sorted keys (its `Map` keeps keys in order), nested less than 64 deep:
/// no spaces, strings escaped as [`json_string_literal`], integers in decimal.
#[verifier::external_body]
pub(crate) fn json_write(j: &Json) -> (r: String)
    requires
        writable(*j, 64),
    ensures
        r@ == json_text(*j, 64),
{
    value_of(j).to_string()
}

/// The member `k` of an object (`Value::get`).
pub open spec fn member(j: Json, k: Seq<char>) -> Option<Json> {
    match j {
        Json::Object(ms) => member_in(ms@, k),
        _ => None,
    }
}

pub open spec fn member_in(ms: Seq<(String, Json)>, k: Seq<char>) -> Option<Json>
    decreases ms.len(),
{
    if ms.len() == 0 {
        None
    } else if ms[0].0@ == k {
        Some(ms[0].1)
    } else {
        member_in(ms.drop_first(), k)
    }
}

/// The text of a string value (`Value::as_str`).
pub open spec fn str_of(j: Option<Json>) -> Option<Seq<char>> {
    match j {
        Some(Json::Str(s)) => Some(s@),
        _ => None,
    }
}

/// The member `k` of an object.
pub fn get<'a>(j: &'a Json, k: &str) -> (r: Option<&'a Json>)
    ensures
        r matches Some(x) ==> member(*j, k@) == Some(*x),
        r is None ==> member(*j, k@) is None,
{
    match j {
        Json::Object(ms) => {
            let mut i: usize = 0;
            assert(ms@.skip(0) =~= ms@);
            assert(member(*j, k@) == member_in(ms@, k@));
            while i < ms.len()
                invariant
                    i <= ms@.len(),
                    member(*j, k@) == member_in(ms@, k@),
                    member_in(ms@, k@) == member_in(ms@.skip(i as int), k@),
                decreases ms@.len() - i,
            {
                assert(ms@.skip(i as int)[0] == ms@[i as int]);
                assert(ms@.skip(i as int).drop_first() =~= ms@.skip(i + 1));
                if text::str_eq(ms[i].0.as_str(), k) {
                    return Some(&ms[i].1);
                }
                i = i + 1;
            }
            None
        },
        _ => None,
    }
}

/// The text of the string member `k` of an object.
pub fn get_str<'a>(j: &'a Json, k: &str) -> (r: Option<&'a str>)
    ensures
        r matches Some(s) ==> str_of(member(*j, k@)) == Some(s@),
        r is None ==> str_of(member(*j, k@)) is None,
{
    match get(j, k) {
        Some(Json::Str(s)) => Some(s.as_str()),
        _ => None,
    }
}

/// The member `k` of an object, taking the object apart.
pub fn take_member(j: Json, k: &str) -> (r: Option<Json>)
    ensures
        r == member(j, k@),
{
    let ghost j0 = j;
    match j {
        Json::Object(ms) => {
            let mut ms = ms;
            let mut i: usize = 0;
            assert(ms@.skip(0) =~= ms@);
            while i < ms.len()
                invariant
                    i <= ms@.len(),
                    j0 == j,
                    member(j0, k@) == member_in(ms@.skip(i as int), k@),
                decreases ms@.len() - i,
            {
                assert(ms@.skip(i as int)[0] == ms@[i as int]);
                assert(ms@.skip(i as int).drop_first() =~= ms@.skip(i + 1));
                if text::str_eq(ms[i].0.as_str(), k) {
                    let ghost e = ms@[i as int];
                    assert(member(j0, k@) == Some(e.1));
                    let (_, x) = ms.remove(i);
                    assert(x == e.1);
                    return Some(x);
                }
                i = i + 1;
            }
            None
        },
        _ => None,
    }
}

} // verus!
