//! The library's trusted boundary: existence probes, file reads, and
//! manifest field lookup.  Nothing is promised of results that depend on
//! the state of the disk; the manifest lookup, a pure function of its text,
//! is pinned to a named result.

use vstd::prelude::*;

verus! {

/// Relies on std's `Path::exists`: whether the path points at an existing
/// entity on disk.  The answer depends on the disk, so nothing is promised
/// of it.
#[verifier::external_body]
pub fn path_exists(p: &str) -> bool {
    std::path::Path::new(p).exists()
}

/// Relies on `fs_err::read_to_string`: the entire contents of the file as a
/// UTF-8 string, or `None` when the file cannot be read.  The answer depends
/// on the disk, so nothing is promised of it.
#[verifier::external_body]
pub fn read_text(p: &str) -> Option<String> {
    fs_err::read_to_string(p).ok()
}

/// What the string field under `key` of a JSON manifest text holds: the
/// text parsed as a JSON document, the key looked up in the top-level
/// object, the value read as a string.  `None` when the text does not
/// parse, the key is absent, or the value is not a string.  The result is a
/// function of the text and the key alone.
pub uninterp spec fn manifest_field_of(text: Seq<char>, key: Seq<char>) -> Option<Seq<char>>;

/// Relies on serde_json's `from_str`, `Value::get` and `Value::as_str`,
/// chained: parse the text, look up the key, read the value as a string.
/// Each step's failure gives `None`.  The chain depends on the text and the
/// key alone, so its result carries the name `manifest_field_of`.
#[verifier::external_body]
pub fn manifest_string_field(text: &str, key: &str) -> (r: Option<String>)
    ensures
        r is Some <==> manifest_field_of(text@, key@) is Some,
        r matches Some(s) ==> manifest_field_of(text@, key@) == Option::Some(s@),
{
    serde_json::from_str::<serde_json::Value>(text)
        .ok()
        .and_then(|v| v.get(key).and_then(|f| f.as_str().map(|s| s.to_string())))
}

} // verus!
