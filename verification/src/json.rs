//! Reading single values out of a JSON document by JSON pointer.
//!
//! A document is read anew for every value: the replies that go through here are
//! small.
use vstd::prelude::*;

verus! {

/// Why a text is no JSON document, in `serde_json`'s words; `None` if it is one.
pub uninterp spec fn json_fault(doc: Seq<char>) -> Option<Seq<char>>;

/// Whether the pointer leads to a value.
pub uninterp spec fn json_has(doc: Seq<char>, pointer: Seq<char>) -> bool;

/// The string at the pointer.
pub uninterp spec fn json_string(doc: Seq<char>, pointer: Seq<char>) -> Option<Seq<char>>;

/// The truth value at the pointer.
pub uninterp spec fn json_bool(doc: Seq<char>, pointer: Seq<char>) -> Option<bool>;

/// The natural number at the pointer.
pub uninterp spec fn json_u64(doc: Seq<char>, pointer: Seq<char>) -> Option<u64>;

/// The whole number at the pointer.
pub uninterp spec fn json_i64(doc: Seq<char>, pointer: Seq<char>) -> Option<i64>;

/// The length of the array at the pointer.
pub uninterp spec fn json_array_len(doc: Seq<char>, pointer: Seq<char>) -> Option<usize>;

/// The whole number at the pointer of a document given as bytes.
pub uninterp spec fn json_bytes_i64(doc: Seq<u8>, pointer: Seq<char>) -> Option<i64>;

/// Calls `serde_json::from_str` on the text, as a `serde_json::Value`, and prints
/// the error where there is one. It depends on the text alone.
#[verifier::external_body]
pub(crate) fn fault(doc: &str) -> (r: Option<String>)
    ensures
        crate::text::opt_text(r) == json_fault(doc@),
{
    match serde_json::from_str::<serde_json::Value>(doc) {
        Ok(_) => None,
        Err(e) => Some(e.to_string()),
    }
}

/// Calls `serde_json::from_str` on the text and `Value::pointer` on the outcome:
/// true where both give a value. It depends on the two texts alone.
#[verifier::external_body]
pub(crate) fn has(doc: &str, pointer: &str) -> (r: bool)
    ensures
        r == json_has(doc@, pointer@),
{
    let value = serde_json::from_str::<serde_json::Value>(doc).ok();
    value.as_ref().and_then(|v| v.pointer(pointer)).is_some()
}

/// Calls `serde_json::from_str` on the text, `Value::pointer` on the outcome and
/// `Value::as_str` on what that finds; `None` where one of them gives nothing. It
/// depends on the two texts alone.
#[verifier::external_body]
pub(crate) fn string_at(doc: &str, pointer: &str) -> (r: Option<String>)
    ensures
        crate::text::opt_text(r) == json_string(doc@, pointer@),
{
    let value = serde_json::from_str::<serde_json::Value>(doc).ok();
    value.as_ref().and_then(|v| v.pointer(pointer)).and_then(|v| v.as_str()).map(String::from)
}

/// As [`string_at`], with `Value::as_bool`.
#[verifier::external_body]
pub(crate) fn bool_at(doc: &str, pointer: &str) -> (r: Option<bool>)
    ensures
        r == json_bool(doc@, pointer@),
{
    let value = serde_json::from_str::<serde_json::Value>(doc).ok();
    value.as_ref().and_then(|v| v.pointer(pointer)).and_then(|v| v.as_bool())
}

/// As [`string_at`], with `Value::as_u64`.
#[verifier::external_body]
pub(crate) fn u64_at(doc: &str, pointer: &str) -> (r: Option<u64>)
    ensures
        r == json_u64(doc@, pointer@),
{
    let value = serde_json::from_str::<serde_json::Value>(doc).ok();
    value.as_ref().and_then(|v| v.pointer(pointer)).and_then(|v| v.as_u64())
}

/// As [`string_at`], with `Value::as_i64`.
#[verifier::external_body]
pub(crate) fn i64_at(doc: &str, pointer: &str) -> (r: Option<i64>)
    ensures
        r == json_i64(doc@, pointer@),
{
    let value = serde_json::from_str::<serde_json::Value>(doc).ok();
    value.as_ref().and_then(|v| v.pointer(pointer)).and_then(|v| v.as_i64())
}

/// As [`string_at`], with `Value::as_array` and the length of the array.
#[verifier::external_body]
pub(crate) fn array_len_at(doc: &str, pointer: &str) -> (r: Option<usize>)
    ensures
        r == json_array_len(doc@, pointer@),
{
    let value = serde_json::from_str::<serde_json::Value>(doc).ok();
    value.as_ref().and_then(|v| v.pointer(pointer)).and_then(|v| v.as_array()).map(|a| a.len())
}

/// Calls `serde_json::from_slice` on the bytes, `Value::pointer` on the outcome and
/// `Value::as_i64` on what that finds; `None` where one of them gives nothing. It
/// depends on the bytes and the pointer alone.
#[verifier::external_body]
pub(crate) fn bytes_i64_at(doc: &Vec<u8>, pointer: &str) -> (r: Option<i64>)
    ensures
        r == json_bytes_i64(doc@, pointer@),
{
    let value = serde_json::from_slice::<serde_json::Value>(doc.as_slice()).ok();
    value.as_ref().and_then(|v| v.pointer(pointer)).and_then(|v| v.as_i64())
}

} // verus!
