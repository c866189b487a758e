//! Text operations that the standard library and the `regex` crate carry out.
//!
//! Nothing in this file is proved: each function hands its arguments to a
//! function from outside, and its contract repeats what that function's
//! documentation says.

use vstd::prelude::*;

verus! {

/// The error of the `regex` crate, of which nothing is known here.
#[verifier::external_type_specification]
#[verifier::external_body]
pub struct ExRegexError(regex::Error);

/// Whether the regular expression written as `pattern` matches anywhere in
/// `haystack`, by the syntax and the matching rules of the `regex` crate.
pub uninterp spec fn regex_finds(pattern: Seq<char>, haystack: Seq<char>) -> bool;

/// Compiles `pattern` with `regex::Regex::new` and searches `haystack` with
/// `regex::Regex::is_match`.
///
/// Whether the pattern compiles is left open. Where it does, the result tells
/// whether a match exists anywhere in the haystack, which is what `is_match`
/// is documented to return.
#[verifier::external_body]
pub(crate) fn regex_search(pattern: &str, haystack: &str) -> (outcome: Result<bool, regex::Error>)
    ensures
        outcome matches Ok(found) ==> found == regex_finds(pattern@, haystack@),
{
    match regex::Regex::new(pattern) {
        Ok(compiled) => Ok(compiled.is_match(haystack)),
        Err(error) => Err(error),
    }
}

/// The `==` of `str`, which is `PartialEq::eq`: true where both slices hold
/// the same characters.
#[verifier::external_body]
pub(crate) fn str_eq(a: &str, b: &str) -> (equal: bool)
    ensures
        equal == (a@ == b@),
{
    a == b
}

/// `str::starts_with` with a string slice as the pattern: true where `text`
/// begins with the characters of `prefix`.
#[verifier::external_body]
pub(crate) fn str_starts_with(text: &str, prefix: &str) -> (starts: bool)
    ensures
        starts == prefix@.is_prefix_of(text@),
{
    text.starts_with(prefix)
}

} // verus!
