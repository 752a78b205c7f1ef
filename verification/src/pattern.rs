//! Trusted boundary to the `regex` crate: the compiled pattern type,
//! names for the pattern a value was built from and for what matching
//! decides, and one wrapper per call the scanner makes.

use vstd::prelude::*;

verus! {

#[verifier::external_type_specification]
#[verifier::external_body]
pub struct ExRegex(regex::Regex);

/// The pattern text that a compiled `regex::Regex` was built from
/// (the text that `regex::Regex::as_str` would return).
pub uninterp spec fn regex_pattern(re: regex::Regex) -> Seq<char>;

/// Whether the regular expression `pattern` matches somewhere in
/// `text`. `regex::Regex::is_match` is a pure search, so its result is
/// a function of the pattern and the haystack alone.
pub uninterp spec fn regex_match(pattern: Seq<char>, text: Seq<char>) -> bool;

/// Relies on `regex::Regex::new`: on success the compiled value holds
/// exactly the pattern it was given.
#[verifier::external_body]
pub fn regex_new(pattern: &str) -> (r: Option<regex::Regex>)
    ensures
        r is Some ==> regex_pattern(r->0) == pattern@,
{
    match regex::Regex::new(pattern) {
        Ok(re) => Some(re),
        Err(_) => None,
    }
}

/// Relies on `regex::Regex::is_match`: whether the compiled pattern
/// matches somewhere in `text`.
#[verifier::external_body]
pub fn regex_is_match(re: &regex::Regex, text: &str) -> (r: bool)
    ensures
        r == regex_match(regex_pattern(*re), text@),
{
    re.is_match(text)
}

} // verus!
