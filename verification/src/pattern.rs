//! Regular expressions, by way of the `regex` crate.

use vstd::prelude::*;

verus! {

/// Tells whether a text is a regular expression.
pub uninterp spec fn regex_accepted(pattern: Seq<char>) -> bool;

/// A text in which the first match of an expression has been replaced.
pub uninterp spec fn regex_replaced(pattern: Seq<char>, s: Seq<char>, by: Seq<char>) -> Seq<char>;

/// A text in which every match of an expression has been replaced.
pub uninterp spec fn regex_replaced_all(
    pattern: Seq<char>,
    s: Seq<char>,
    by: Seq<char>,
) -> Seq<char>;

/// `regex::Regex::new`: tells whether it takes the text. Which texts it takes is
/// left to it; the same text always has the same outcome.
#[verifier::external_body]
pub(crate) fn is_regex(pattern: &str) -> (r: bool)
    ensures
        r == regex_accepted(pattern@),
{
    regex::Regex::new(pattern).is_ok()
}

/// `regex::Regex::replace` with the expression of the text: the first match is
/// replaced, where the text is an expression. What matches is left to the crate.
#[verifier::external_body]
pub(crate) fn replace(pattern: &str, s: &str, by: &str) -> (r: Option<String>)
    ensures
        match r {
            Some(t) => regex_accepted(pattern@) && t@ == regex_replaced(pattern@, s@, by@),
            None => !regex_accepted(pattern@),
        },
{
    regex::Regex::new(pattern).ok().map(|re| re.replace(s, by).into_owned())
}

/// `regex::Regex::replace_all` with the expression of the text: every match is
/// replaced, where the text is an expression. What matches is left to the crate.
#[verifier::external_body]
pub(crate) fn replace_all(pattern: &str, s: &str, by: &str) -> (r: Option<String>)
    ensures
        match r {
            Some(t) => regex_accepted(pattern@) && t@ == regex_replaced_all(pattern@, s@, by@),
            None => !regex_accepted(pattern@),
        },
{
    regex::Regex::new(pattern).ok().map(|re| re.replace_all(s, by).into_owned())
}

} // verus!
