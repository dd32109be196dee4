//! What this crate takes on trust about characters and strings of the
//! standard library.
use vstd::prelude::*;

verus! {

/// Whether a character has the Unicode property Alphabetic, as
/// `char::is_alphabetic` tells it.
pub uninterp spec fn alphabetic(c: char) -> bool;

/// `char::is_alphabetic`: whether the character has the Unicode property
/// Alphabetic.
pub assume_specification[ char::is_alphabetic ](c: char) -> (yes: bool)
    ensures
        yes == alphabetic(c),
;

/// Whether a character has the Unicode property White_Space, as
/// `char::is_whitespace` tells it.
pub uninterp spec fn whitespace(c: char) -> bool;

/// `char::is_whitespace`: whether the character has the Unicode property
/// White_Space.
pub assume_specification[ char::is_whitespace ](c: char) -> (yes: bool)
    ensures
        yes == whitespace(c),
;

/// `String::push`: appends one character to the end of the string.
pub assume_specification[ String::push ](text: &mut String, c: char)
    ensures
        final(text)@ == old(text)@.push(c),
;

} // verus!
