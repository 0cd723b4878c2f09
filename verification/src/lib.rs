//! A typed data model for a streaming-platform event payload and its JSON
//! codec: strongly-typed scalar values (UUIDs, URLs, durations, timestamps),
//! the domain entities built from them, and a verified decoder/encoder pair.

use vstd::prelude::*;

pub mod codec;
pub mod json;
pub mod scalar;
pub mod text;
pub mod transform;

verus! {

/// True when `c` may stand unescaped inside a JSON string of this codec:
/// everything but the quote, the backslash and the control characters.
pub open spec fn char_ok(c: char) -> bool {
    c != '"' && c != '\\' && (c as u32) >= 32
}

/// True when every character of `s` may stand inside a JSON string.
pub open spec fn str_ok(s: Seq<char>) -> bool {
    forall|i: int| 0 <= i < s.len() ==> char_ok(#[trigger] s[i])
}

} // verus!
