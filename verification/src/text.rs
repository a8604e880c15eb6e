//! Conversions between owned strings and their character sequences.
//!
//! The buffer and the store address text by characters, not bytes; these
//! two trusted conversions are the only place where the byte-oriented
//! `String` meets the character-oriented model.
use vstd::prelude::*;

verus! {

/// Relies on `String: FromIterator<char>`: the resulting string's
/// characters are exactly the input characters, in order.
#[verifier::external_body]
pub fn chars_to_string(v: &Vec<char>) -> (r: String)
    ensures
        r@ == v@,
{
    v.iter().collect()
}

/// Relies on `str::chars` collected into a vector: it yields the
/// characters of the string, in order.
#[verifier::external_body]
pub fn string_to_chars(s: &str) -> (r: Vec<char>)
    ensures
        r@ == s@,
{
    s.chars().collect()
}

} // verus!
