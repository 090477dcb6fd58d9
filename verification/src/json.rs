//! Inspection of one envelope header line: does it parse as JSON, and does it
//! carry a string value under a given key? The JSON grammar itself is left to
//! `serde_json`; the library only distinguishes the four possible outcomes.
use vstd::prelude::*;

verus! {

/// Outcome of inspecting one header line for a string value under a key.
#[derive(Debug)]
pub enum LineScan {
    /// The line is not a valid JSON document.
    NotJson,
    /// The line is valid JSON but holds no such key (or is not an object).
    NoKey,
    /// The key is present but its value is not a string.
    KeyNotString,
    /// The key is present with this string value.
    KeyString(String),
}

/// Mathematical counterpart of [`LineScan`], with the string value as a
/// character sequence.
pub enum LineScanView {
    NotJson,
    NoKey,
    KeyNotString,
    KeyString(Seq<char>),
}

impl View for LineScan {
    type V = LineScanView;

    open spec fn view(&self) -> LineScanView {
        match self {
            LineScan::NotJson => LineScanView::NotJson,
            LineScan::NoKey => LineScanView::NoKey,
            LineScan::KeyNotString => LineScanView::KeyNotString,
            LineScan::KeyString(s) => LineScanView::KeyString(s@),
        }
    }
}

/// What JSON inspection yields for a given line and key. The outcome is a
/// function of the two arguments alone; its value is fixed by the JSON
/// grammar, which this library does not restate.
pub uninterp spec fn json_string_lookup(line: Seq<u8>, key: Seq<char>) -> LineScanView;

/// Relies on `serde_json::from_slice::<Value>` to decide whether the line is
/// valid JSON, on `serde_json::Value::get` to look the key up (`None` on
/// non-objects and absent keys), and on `serde_json::Value::as_str` to tell a
/// string value apart; each is a function of the line and key alone.
#[verifier::external_body]
pub(crate) fn scan_line_for_key(line: &Vec<u8>, key: &str) -> (r: LineScan)
    ensures
        r@ == json_string_lookup(line@, key@),
{
    match serde_json::from_slice::<serde_json::Value>(line.as_slice()) {
        Err(_) => LineScan::NotJson,
        Ok(doc) => match doc.get(key) {
            None => LineScan::NoKey,
            Some(value) => match value.as_str() {
                None => LineScan::KeyNotString,
                Some(s) => LineScan::KeyString(s.to_owned()),
            },
        },
    }
}

} // verus!
