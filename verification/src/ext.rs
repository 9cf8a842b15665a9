//! Contracts for the two std string operations this crate uses that vstd
//! leaves unspecified.
use vstd::prelude::*;

verus! {

/// Whether a character counts as whitespace for token splitting. Named after
/// `char::is_whitespace`, whose result depends on the character alone.
pub uninterp spec fn char_is_whitespace(c: char) -> bool;

/// Relies on `char::is_whitespace`: tests the Unicode `White_Space` property,
/// a pure function of the character.
pub assume_specification[ char::is_whitespace ](c: char) -> (r: bool)
    ensures
        r == char_is_whitespace(c),
;

/// Relies on `String::push`: appends the given character to the end of the
/// string.
pub assume_specification[ String::push ](s: &mut String, c: char)
    ensures
        final(s)@ == old(s)@.push(c),
;

} // verus!
