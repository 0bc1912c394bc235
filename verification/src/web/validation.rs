//! Checks of incoming text.
//!
//! Lengths are counted in characters, not in bytes, and any character may occur in an identifier.
//! Both are choices of this library.

use vstd::prelude::*;

verus! {

/// Whether a text has at least `min` and at most `max` characters.
pub open spec fn has_length(s: Seq<char>, min: nat, max: nat) -> bool {
    min <= s.len() <= max
}

/// The greatest number of characters of an identifier.
pub const MAX_ID_LENGTH: usize = 64;

/// Whether a text can be an identifier.
pub open spec fn valid_id(s: Seq<char>) -> bool {
    has_length(s, 1, MAX_ID_LENGTH as nat)
}

/// Whether a text is neither too short nor too long.
pub fn is_valid_str(s: &str, min: usize, max: usize) -> (r: bool)
    ensures
        r == has_length(s@, min as nat, max as nat),
{
    let len: usize = s.unicode_len();
    min <= len && len <= max
}

/// Whether a text can be an identifier: neither empty nor longer than 64 characters.
pub fn is_valid_id(s: &str) -> (r: bool)
    ensures
        r == valid_id(s@),
{
    is_valid_str(s, 1, MAX_ID_LENGTH)
}

/// A text is valid exactly if it has as many characters as asked for, and an identifier has one to 64.
pub proof fn law_lengths_are_checked(s: &str, min: usize, max: usize, r: bool, id: bool)
    requires
        call_ensures(is_valid_str, (s, min, max), r),
        call_ensures(is_valid_id, (s,), id),
    ensures
        r <==> min <= s@.len() && s@.len() <= max,
        id <==> 1 <= s@.len() <= 64,
{
}

} // verus!
