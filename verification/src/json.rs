//! Flat JSON objects of strings and unsigned numbers, written and read with
//! `serde_json`: the documents of the library (a JWT header, a list cursor)
//! are built here from their members.
use vstd::prelude::*;
use crate::text::{decimal_text, text_less};

verus! {

/// A member value of a flat JSON object.
pub enum JsonScalar {
    /// A string.
    Text(String),
    /// An unsigned number.
    Number(u64),
}

/// What a member value stands for.
pub enum ScalarView {
    /// A string of these characters.
    Text(Seq<char>),
    /// This number.
    Number(nat),
}

impl View for JsonScalar {
    type V = ScalarView;

    open spec fn view(&self) -> ScalarView {
        match self {
            JsonScalar::Text(s) => ScalarView::Text(s@),
            JsonScalar::Number(n) => ScalarView::Number(*n as nat),
        }
    }
}

/// The members of an object, by their views.
pub open spec fn members_view(ms: Seq<(String, JsonScalar)>) -> Seq<(Seq<char>, ScalarView)> {
    ms.map_values(|m: (String, JsonScalar)| (m.0@, m.1@))
}

/// Whether the keys come in strictly ascending order of their characters'
/// code points (which is the order of their UTF-8 bytes).
pub open spec fn keys_ascending(ms: Seq<(Seq<char>, ScalarView)>) -> bool {
    forall|i: int, j: int| 0 <= i < j < ms.len() ==> text_less(#[trigger] ms[i].0, #[trigger] ms[j].0)
}

/// The lower-case hexadecimal digit byte for `d` (below sixteen).
pub open spec fn hex_lower_byte(d: u8) -> u8 {
    if d < 10 { (d + 48) as u8 } else { (d + 87) as u8 }
}

/// The bytes that stand for byte `b` inside a JSON string: a quote and a
/// backslash are escaped by a backslash; the control bytes backspace, tab,
/// line feed, form feed and carriage return by their short escapes, every
/// other control byte by `\u00` and two lower-case hex digits; every other
/// byte stands for itself.
pub open spec fn json_escape_byte(b: u8) -> Seq<u8> {
    if b == 34 || b == 92 {
        seq![92u8, b]
    } else if b == 8 {
        seq![92u8, 98u8]
    } else if b == 9 {
        seq![92u8, 116u8]
    } else if b == 10 {
        seq![92u8, 110u8]
    } else if b == 12 {
        seq![92u8, 102u8]
    } else if b == 13 {
        seq![92u8, 114u8]
    } else if b < 32 {
        seq![92u8, 117u8, 48u8, 48u8, hex_lower_byte(b / 16), hex_lower_byte(b % 16)]
    } else {
        seq![b]
    }
}

/// The bytes `bs` with each byte escaped for a JSON string.
pub open spec fn json_escaped(bs: Seq<u8>) -> Seq<u8>
    decreases bs.len(),
{
    if bs.len() == 0 {
        Seq::empty()
    } else {
        json_escaped(bs.drop_last()) + json_escape_byte(bs.last())
    }
}

/// The JSON string literal of a text, in UTF-8.
pub open spec fn json_string(t: Seq<char>) -> Seq<u8> {
    seq![34u8] + json_escaped(vstd::utf8::encode_utf8(t)) + seq![34u8]
}

/// The JSON text of a member value: a string literal, or the decimal digits
/// of a number.
pub open spec fn scalar_doc(v: ScalarView) -> Seq<u8> {
    match v {
        ScalarView::Text(s) => json_string(s),
        ScalarView::Number(n) => vstd::utf8::encode_utf8(decimal_text(n)),
    }
}

/// The JSON text of a member: its key, a colon and its value.
pub open spec fn member_doc(m: (Seq<char>, ScalarView)) -> Seq<u8> {
    json_string(m.0) + seq![58u8] + scalar_doc(m.1)
}

/// The JSON texts of members, separated by commas.
pub open spec fn members_doc(ms: Seq<(Seq<char>, ScalarView)>) -> Seq<u8>
    decreases ms.len(),
{
    if ms.len() == 0 {
        Seq::empty()
    } else if ms.len() == 1 {
        member_doc(ms[0])
    } else {
        members_doc(ms.drop_last()) + seq![44u8] + member_doc(ms.last())
    }
}

/// The compact JSON object of the members, in the order given.
pub open spec fn json_object_doc(ms: Seq<(Seq<char>, ScalarView)>) -> Seq<u8> {
    seq![123u8] + members_doc(ms) + seq![125u8]
}

/// What `serde_json` reads from `bytes` under `key`: `None` where the bytes
/// are not a JSON document, else the member `key` where there is one and it
/// is an unsigned 64-bit integer.
pub uninterp spec fn json_u64_field(bytes: Seq<u8>, key: Seq<char>) -> Option<Option<u64>>;

/// Writes the object of `members` with `serde_json` (each member into a
/// `Map` by `Value::from`, then `to_vec`).  Claimed: the bytes are the compact
/// object of the members in the order given, which is the order of the
/// `Map` (a `BTreeMap` without the `preserve_order` feature) since the keys
/// come ascending, each string escaped as `format_escaped_str` does and each
/// number in decimal digits (`itoa`); reading a number member back by its key
/// gives the number; and, as every `Vec` of bytes, they are at most
/// `isize::MAX` long.  Serialising a map of strings and numbers does not
/// fail, so the empty fallback is never taken.
#[verifier::external_body]
pub(crate) fn json_object(members: &Vec<(String, JsonScalar)>) -> (bytes: Vec<u8>)
    requires
        keys_ascending(members_view(members@)),
    ensures
        bytes@ == json_object_doc(members_view(members@)),
        bytes@.len() <= isize::MAX,
        forall|i: int|
            0 <= i < members@.len() ==> (#[trigger] members@[i].1 matches JsonScalar::Number(n) ==> json_u64_field(
                bytes@,
                members@[i].0@,
            ) == Some(Some(n))),
{
    let mut m = serde_json::Map::new();
    for (k, v) in members.iter() {
        let value = match v {
            JsonScalar::Text(s) => serde_json::Value::from(s.as_str()),
            JsonScalar::Number(n) => serde_json::Value::from(*n),
        };
        m.insert(k.clone(), value);
    }
    serde_json::to_vec(&serde_json::Value::Object(m)).unwrap_or_default()
}

/// Reads a JSON document with `serde_json` (`from_slice` into a `Value`) and
/// takes its member `key` as a `u64` (`Value::get`, `Value::as_u64`).
/// Claimed: the result is the named reading of the bytes under the key.
#[verifier::external_body]
pub(crate) fn json_u64_member(bytes: &[u8], key: &str) -> (r: Option<Option<u64>>)
    ensures
        r == json_u64_field(bytes@, key@),
{
    match serde_json::from_slice::<serde_json::Value>(bytes) {
        Ok(v) => Some(v.get(key).and_then(serde_json::Value::as_u64)),
        Err(_) => None,
    }
}

} // verus!
