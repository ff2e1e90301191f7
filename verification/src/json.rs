//! JSON texts read and written with `serde_json`: the members of a request
//! body, and the objects of the replies. Each text that `serde_json`
//! produces or reads is named by a function of the arguments alone; with
//! `serde_json`'s `Map` a sorted map (its `preserve_order` feature is off),
//! the members of a written object come in key order.

use vstd::prelude::*;
use crate::storage::db::Message;
use crate::text::{byte_len, decimal};

verus! {

// ----------------------------------------------------------------------
// Reading
// ----------------------------------------------------------------------

/// Text that `serde_json` writes inside quotes as it is: no `"`, no `\`
/// and no control character below U+0020.
pub open spec fn plain_text(s: Seq<char>) -> bool {
    forall|i: int| 0 <= i < s.len() ==> s[i] != '"' && s[i] != '\\' && (s[i] as u32) >= 0x20
}

/// `s` in double quotes.
pub open spec fn quoted(s: Seq<char>) -> Seq<char> {
    seq!['"'] + s + seq!['"']
}

/// The compact JSON object `{"key":"value"}` of plain texts.
pub open spec fn string_object(key: Seq<char>, value: Seq<char>) -> Seq<char> {
    seq!['{'] + quoted(key) + seq![':'] + quoted(value) + seq!['}']
}

/// The compact JSON object `{"key":n}` of a plain key.
pub open spec fn number_object(key: Seq<char>, n: u64) -> Seq<char> {
    seq!['{'] + quoted(key) + seq![':'] + decimal(n as nat) + seq!['}']
}

/// The compact JSON object `{"k1":"v1","k2":n}` of plain texts, `k1`
/// coming first in key order.
pub open spec fn pair_object(k1: Seq<char>, v1: Seq<char>, k2: Seq<char>, n: u64) -> Seq<char> {
    seq!['{'] + quoted(k1) + seq![':'] + quoted(v1) + seq![','] + quoted(k2) + seq![':']
        + decimal(n as nat) + seq!['}']
}

/// Whether `text` parses as a JSON value.
pub uninterp spec fn parses_as_json(text: Seq<char>) -> bool;

/// The string member `key` of the JSON text `text`: none when `text` does
/// not parse, is not an object, or has no string under `key`.
pub uninterp spec fn json_str_member(text: Seq<char>, key: Seq<char>) -> Option<Seq<char>>;

/// The member `key` of the JSON text `text` when it is a number that fits
/// a `u64`.
pub uninterp spec fn json_u64_member(text: Seq<char>, key: Seq<char>) -> Option<u64>;

/// The member `key` of the JSON text `text` when it is an array: for each
/// element, its string when it is one.
pub uninterp spec fn json_list_member(text: Seq<char>, key: Seq<char>) -> Option<
    Seq<Option<Seq<char>>>,
>;

/// The compact JSON text of the member `key` of the JSON text `text`
/// (`null` when there is no such member); none when `text` does not parse.
pub uninterp spec fn json_member_text(text: Seq<char>, key: Seq<char>) -> Option<Seq<char>>;

/// Parses `text` with `serde_json::from_str::<Value>`. Claims: the result
/// is `parses_as_json(text)`, and an object `{"key":n}` with a plain key
/// parses.
#[verifier::external_body]
pub(crate) fn json_is_valid(text: &str) -> (r: bool)
    ensures
        r == parses_as_json(text@),
        forall|k: Seq<char>, n: u64| plain_text(k) && text@ == #[trigger] number_object(k, n) ==> r,
{
    serde_json::from_str::<serde_json::Value>(text).is_ok()
}

/// Parses `text` with `serde_json::from_str::<Value>` and reads the member
/// `key` with `Value`'s index and `as_str`. Claims: the result is
/// `json_str_member(text, key)`.
#[verifier::external_body]
pub(crate) fn str_member(text: &str, key: &str) -> (r: Option<String>)
    ensures
        match r {
            Some(s) => json_str_member(text@, key@) == Some(s@),
            None => json_str_member(text@, key@) is None,
        },
{
    match serde_json::from_str::<serde_json::Value>(text) {
        Ok(v) => v[key].as_str().map(|s| s.to_string()),
        Err(_) => None,
    }
}

/// Parses `text` with `serde_json::from_str::<Value>` and reads the member
/// `key` with `Value`'s index and `as_u64`. Claims: the result is
/// `json_u64_member(text, key)`, and from the object `{"key":n}` with a
/// plain key it is `n`.
#[verifier::external_body]
pub(crate) fn u64_member(text: &str, key: &str) -> (r: Option<u64>)
    ensures
        r == json_u64_member(text@, key@),
        forall|n: u64| plain_text(key@) && text@ == #[trigger] number_object(key@, n) ==> r == Some(n),
{
    match serde_json::from_str::<serde_json::Value>(text) {
        Ok(v) => v[key].as_u64(),
        Err(_) => None,
    }
}

/// Parses `text` with `serde_json::from_str::<Value>` and reads the member
/// `key` with `Value`'s index and `as_array`, then each element with
/// `as_str`. Claims: the result, element by element, is
/// `json_list_member(text, key)`.
#[verifier::external_body]
pub(crate) fn list_member(text: &str, key: &str) -> (r: Option<Vec<Option<String>>>)
    ensures
        match r {
            Some(v) => json_list_member(text@, key@) == Some(
                v@.map_values(|o: Option<String>| opt_text(o)),
            ),
            None => json_list_member(text@, key@) is None,
        },
{
    match serde_json::from_str::<serde_json::Value>(text) {
        Ok(v) => v[key].as_array().map(|a| a.iter().map(|e| e.as_str().map(|s| s.to_string())).collect()),
        Err(_) => None,
    }
}

/// Parses `text` with `serde_json::from_str::<Value>` and writes the member
/// `key` (found with `Value`'s index) through `Value`'s `Display`. Claims:
/// the result is `json_member_text(text, key)`.
#[verifier::external_body]
pub(crate) fn member_text(text: &str, key: &str) -> (r: Option<String>)
    ensures
        match r {
            Some(s) => json_member_text(text@, key@) == Some(s@),
            None => json_member_text(text@, key@) is None,
        },
{
    match serde_json::from_str::<serde_json::Value>(text) {
        Ok(v) => Some(v[key].to_string()),
        Err(_) => None,
    }
}

/// The text of an optional string, when there is one.
pub open spec fn opt_text(o: Option<String>) -> Option<Seq<char>> {
    match o {
        Some(s) => Some(s@),
        None => None,
    }
}

// ----------------------------------------------------------------------
// Writing
// ----------------------------------------------------------------------

/// The compact JSON text of the object with the one string member
/// `key: value`.
pub uninterp spec fn json_object_text(key: Seq<char>, value: Seq<char>) -> Seq<char>;

/// The compact JSON text of the object with the string member `k1: v1` and
/// the number member `k2: n`.
pub uninterp spec fn json_pair_text(k1: Seq<char>, v1: Seq<char>, k2: Seq<char>, n: u64) -> Seq<
    char,
>;

/// The compact JSON text of the object with the one number member
/// `key: n`.
pub uninterp spec fn json_number_text(key: Seq<char>, n: u64) -> Seq<char>;

/// The compact JSON text of the object with the one member `key`, an array
/// of the strings `names`.
pub uninterp spec fn json_names_text(key: Seq<char>, names: Seq<Seq<char>>) -> Seq<char>;

/// The compact JSON text of the object with the string member `k1: v1` and
/// the member `k2`, an array of two-element arrays `[name, number]`.
pub uninterp spec fn json_rooms_text(
    k1: Seq<char>,
    v1: Seq<char>,
    k2: Seq<char>,
    rooms: Seq<(Seq<char>, u64)>,
) -> Seq<char>;

/// The compact JSON text of the object with the string member `k1: v1`, the
/// member `list_key`, an array of objects `{name_key: name, text_key:
/// text}` (one for each pair of `messages`), and the number member
/// `count_key: count`.
pub uninterp spec fn json_messages_text(
    k1: Seq<char>,
    v1: Seq<char>,
    list_key: Seq<char>,
    name_key: Seq<char>,
    text_key: Seq<char>,
    messages: Seq<(Seq<char>, Seq<char>)>,
    count_key: Seq<char>,
    count: u64,
) -> Seq<char>;

/// The sender and text of each message.
pub open spec fn message_pairs(messages: Seq<Message>) -> Seq<(Seq<char>, Seq<char>)> {
    messages.map_values(|m: Message| (m.username@, m.message@))
}

/// The name and number of each room.
pub open spec fn room_texts(rooms: Seq<(String, u64)>) -> Seq<(Seq<char>, u64)> {
    rooms.map_values(|p: (String, u64)| (p.0@, p.1))
}

/// Writes, with `serde_json`, the object `{key: value}` (a `Value::Object`
/// holding one `Value::String`) through `Value`'s `Display`. Claims: the
/// text is `json_object_text` of the two arguments, which for plain texts
/// is `{"key":"value"}`, and its byte length fits a `usize`.
#[verifier::external_body]
pub(crate) fn json_single_member(key: &str, value: &str) -> (r: String)
    ensures
        r@ == json_object_text(key@, value@),
        plain_text(key@) && plain_text(value@) ==> r@ == string_object(key@, value@),
        byte_len(r@) <= usize::MAX,
{
    let mut map = serde_json::Map::new();
    map.insert(key.to_string(), serde_json::Value::String(value.to_string()));
    serde_json::Value::Object(map).to_string()
}

/// Writes, with `serde_json`, the object `{k1: v1, k2: n}` (a string and a
/// number member) through `Value`'s `Display`. Claims: the text is
/// `json_pair_text` of the four arguments, which for plain texts with `k1`
/// before `k2` in key order (here: a smaller first character) is
/// `{"k1":"v1","k2":n}`, and its byte length fits a `usize`.
#[verifier::external_body]
pub(crate) fn json_pair(k1: &str, v1: &str, k2: &str, n: u64) -> (r: String)
    ensures
        r@ == json_pair_text(k1@, v1@, k2@, n),
        plain_text(k1@) && plain_text(v1@) && plain_text(k2@) && k1@.len() > 0 && k2@.len() > 0
            && k1@[0] < k2@[0] ==> r@ == pair_object(k1@, v1@, k2@, n),
        byte_len(r@) <= usize::MAX,
{
    let mut map = serde_json::Map::new();
    map.insert(k1.to_string(), serde_json::Value::from(v1));
    map.insert(k2.to_string(), serde_json::Value::from(n));
    serde_json::Value::Object(map).to_string()
}

/// Writes, with `serde_json`, the object `{key: n}` through `Value`'s
/// `Display`. Claims: the text is `json_number_text` of the two arguments,
/// which for a plain key is `{"key":n}`.
#[verifier::external_body]
pub(crate) fn json_number(key: &str, n: u64) -> (r: String)
    ensures
        r@ == json_number_text(key@, n),
        plain_text(key@) ==> r@ == number_object(key@, n),
{
    let mut map = serde_json::Map::new();
    map.insert(key.to_string(), serde_json::Value::from(n));
    serde_json::Value::Object(map).to_string()
}

/// Writes, with `serde_json`, the object `{key: [names...]}` through
/// `Value`'s `Display`. Claims: the text is `json_names_text` of the key
/// and the texts of the names, and its byte length fits a `usize`.
#[verifier::external_body]
pub(crate) fn json_names(key: &str, names: &Vec<String>) -> (r: String)
    ensures
        r@ == json_names_text(key@, names@.map_values(|s: String| s@)),
        byte_len(r@) <= usize::MAX,
{
    let mut map = serde_json::Map::new();
    map.insert(key.to_string(), serde_json::Value::from(names.clone()));
    serde_json::Value::Object(map).to_string()
}

/// Writes, with `serde_json`, the object `{k1: v1, k2: rooms}` (the rooms
/// turned into a `Value` by `serde_json::to_value`, which cannot fail on
/// pairs of a string and a number) through `Value`'s `Display`. Claims: the
/// text is `json_rooms_text` of the arguments, and its byte length fits a
/// `usize`.
#[verifier::external_body]
pub(crate) fn json_rooms(k1: &str, v1: &str, k2: &str, rooms: &Vec<(String, u64)>) -> (r: String)
    ensures
        r@ == json_rooms_text(k1@, v1@, k2@, room_texts(rooms@)),
        byte_len(r@) <= usize::MAX,
{
    let mut map = serde_json::Map::new();
    map.insert(k1.to_string(), serde_json::Value::from(v1));
    map.insert(k2.to_string(), serde_json::to_value(rooms).unwrap());
    serde_json::Value::Object(map).to_string()
}

/// Writes, with `serde_json`, the object `{k1: v1, list_key: [{name_key:
/// sender, text_key: text}...], count_key: count}` through `Value`'s
/// `Display`. Claims: the text is `json_messages_text` of the arguments,
/// and its byte length fits a `usize`.
#[verifier::external_body]
pub(crate) fn json_messages(
    k1: &str,
    v1: &str,
    list_key: &str,
    name_key: &str,
    text_key: &str,
    messages: &Vec<Message>,
    count_key: &str,
    count: u64,
) -> (r: String)
    ensures
        r@ == json_messages_text(k1@, v1@, list_key@, name_key@, text_key@, message_pairs(messages@), count_key@, count),
        byte_len(r@) <= usize::MAX,
{
    let list: Vec<serde_json::Value> = messages.iter().map(|m| serde_json::Value::Object(
        [(name_key.to_string(), serde_json::Value::from(m.username.as_str())),
         (text_key.to_string(), serde_json::Value::from(m.message.as_str()))].into_iter().collect(),
    )).collect();
    let mut map = serde_json::Map::new();
    map.insert(k1.to_string(), serde_json::Value::from(v1));
    map.insert(list_key.to_string(), serde_json::Value::Array(list));
    map.insert(count_key.to_string(), serde_json::Value::from(count));
    serde_json::Value::Object(map).to_string()
}

} // verus!
