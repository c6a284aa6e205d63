//! What this library relies on from the `ropey` crate: a rope of text,
//! described by the characters it holds.

use vstd::prelude::*;
use ropey::Rope;
use crate::text::byte_offset;

verus! {

/// `ropey::Rope`, taken as it is: nothing is known of a value but what the
/// items below say.
#[verifier::external_type_specification]
#[verifier::external_body]
pub struct ExRope(Rope);

/// The characters that a rope holds, in order.
pub uninterp spec fn rope_chars(r: Rope) -> Seq<char>;

/// `Rope::from_str` builds the rope that holds the characters of `text`.
pub assume_specification[ Rope::from_str ](text: &str) -> (r: Rope)
    ensures
        rope_chars(r) == text@,
;

/// `Rope::len_chars` counts the characters held.
pub assume_specification[ Rope::len_chars ](r: &Rope) -> (n: usize)
    ensures
        n == rope_chars(*r).len(),
;

/// `Rope::char` reads the character of the given index. It panics at or
/// behind the end.
pub assume_specification[ Rope::char ](r: &Rope, char_idx: usize) -> (c: char)
    requires
        char_idx < rope_chars(*r).len(),
    ensures
        c == rope_chars(*r)[char_idx as int],
;

/// `Rope::char_to_byte` gives the byte offset at which a character starts,
/// and the length in bytes for the index one behind the last. It panics
/// behind that.
pub assume_specification[ Rope::char_to_byte ](r: &Rope, char_idx: usize) -> (b: usize)
    requires
        char_idx <= rope_chars(*r).len(),
    ensures
        b == byte_offset(rope_chars(*r), char_idx as int),
;

/// `Rope::slice` over a range of character indices, turned into a `String`:
/// the characters from `start` up to `end`. The slice panics where the range
/// is reversed or ends behind the last character.
#[verifier::external_body]
pub(crate) fn rope_substring(r: &Rope, start: usize, end: usize) -> (s: String)
    requires
        start <= end <= rope_chars(*r).len(),
    ensures
        s@ == rope_chars(*r).subrange(start as int, end as int),
{
    String::from(r.slice(start..end))
}

} // verus!
