//! Specifications of the few standard-library operations the library relies on.

use vstd::prelude::*;

use crate::text::{ascending, string_views};

verus! {

/// `<[String]>::sort_unstable`.
///
/// The standard documentation says the slice ends up sorted and holds the same
/// elements; `str` orders lexicographically by bytes, which for UTF-8 is the
/// lexicographic order of code points, [`crate::text::chars_le`].
#[verifier::external_body]
pub fn sort_strings(v: &mut Vec<String>)
    ensures
        final(v)@.len() == old(v)@.len(),
        string_views(final(v)@).to_multiset() == string_views(old(v)@).to_multiset(),
        ascending(string_views(final(v)@)),
{
    v.sort_unstable();
}

} // verus!

verus! {

/// `String::push`: appends one character.
pub assume_specification[ String::push ](s: &mut String, ch: char)
    ensures
        final(s)@ == old(s)@.push(ch),
;

/// `std::io::Error`, carried through opaquely.
#[verifier::external_type_specification]
#[verifier::external_body]
pub struct ExIoError(std::io::Error);

/// The `Display` text of an I/O error.
///
/// Nothing is stated of the text: for errors that come from the operating system
/// it is the system's own description, which varies between machines.
#[verifier::external_body]
pub fn io_error_message(error: &std::io::Error) -> String {
    error.to_string()
}

/// `String::from_utf8`: the bytes become a string exactly when they are valid UTF-8,
/// and the string then holds the characters that the bytes encode.
#[verifier::external_body]
pub fn string_from_utf8(bytes: Vec<u8>) -> (s: Option<String>)
    ensures
        s is Some <==> vstd::utf8::valid_utf8(bytes@),
        s matches Some(text) ==> text@ == vstd::utf8::decode_utf8(bytes@),
{
    String::from_utf8(bytes).ok()
}

} // verus!
