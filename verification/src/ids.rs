//! Globally unique random identifiers for file records and stored names.
//!
//! Collision-free naming under concurrency comes from a random 128-bit
//! identifier rather than a counter, so no coordination between callers is
//! needed. The identifier itself comes from an outside crate; everything the
//! rest of the library needs to know about its textual shape is stated here.

use vstd::prelude::*;

verus! {

/// True of the characters that can appear in a freshly drawn identifier:
/// lowercase hexadecimal digits and the hyphen. In particular, never a dot,
/// which keeps identifiers distinct from file extensions.
pub open spec fn is_token_char(c: char) -> bool {
    c == '-' || ('0' <= c && c <= '9') || ('a' <= c && c <= 'f')
}

/// Relies on uuid::Uuid::new_v4 and its Display impl: a version-4 UUID
/// rendered as the 36-character lowercase hyphenated form (32 hex digits and
/// 4 hyphens). The value is random, so nothing relates two calls.
#[verifier::external_body]
pub fn fresh_token() -> (r: String)
    ensures
        r@.len() == 36,
        forall|i: int| 0 <= i < 36 ==> is_token_char(#[trigger] r@[i]),
{
    uuid::Uuid::new_v4().to_string()
}

} // verus!
