//! Matching text against a query: by regular expression, and by edit
//! distance.
//!
//! What a regular expression matches and how far two strings are apart is
//! computed by the crates `regex` and `textdistance`. The library does not
//! prove anything of these computations: it names their results and states
//! its own contracts over the names.

use vstd::prelude::*;

verus! {

/// A compiled regular expression of the crate `regex`.
#[verifier::external_type_specification]
#[verifier::external_body]
pub struct ExRegex(regex::Regex);

/// Why the crate `regex` refused a pattern.
#[verifier::external_type_specification]
#[verifier::external_body]
pub struct ExRegexError(regex::Error);

/// Whether `regex::Regex::new` accepts the pattern.
pub uninterp spec fn regex_valid(pattern: Seq<char>) -> bool;

/// The pattern that a compiled expression was made from: what
/// `regex::Regex::as_str` returns for it. The library makes expressions with
/// `regex::Regex::new` only, and takes none from its callers; of such an
/// expression the pattern says all.
pub uninterp spec fn compiled_pattern(re: regex::Regex) -> Seq<char>;

/// Whether the expression compiled from `pattern` matches somewhere in
/// `text`: what `regex::Regex::is_match` returns.
pub uninterp spec fn regex_is_match(pattern: Seq<char>, text: Seq<char>) -> bool;

/// The Sift4 distance of two strings: what
/// `textdistance::str::sift4_simple` returns.
pub uninterp spec fn sift4_distance(a: Seq<char>, b: Seq<char>) -> nat;

/// Compiles a pattern with `regex::Regex::new`. Whether the pattern is
/// accepted depends on the pattern alone, and the compiled expression keeps
/// the pattern it was made from.
#[verifier::external_body]
pub(crate) fn compile(pattern: &str) -> (r: Result<regex::Regex, regex::Error>)
    ensures
        r is Ok == regex_valid(pattern@),
        r matches Ok(re) ==> compiled_pattern(re) == pattern@,
{
    regex::Regex::new(pattern)
}

/// Asks `regex::Regex::is_match` whether the expression matches somewhere in
/// `text`. The answer depends on the expression's pattern and on the text
/// alone.
#[verifier::external_body]
pub(crate) fn is_match(re: &regex::Regex, text: &str) -> (r: bool)
    ensures
        r == regex_is_match(compiled_pattern(*re), text@),
{
    re.is_match(text)
}

/// The Sift4 distance of `a` and `b`, computed by
/// `textdistance::str::sift4_simple`.
#[verifier::external_body]
pub(crate) fn sift4(a: &str, b: &str) -> (d: usize)
    ensures
        d == sift4_distance(a@, b@),
{
    textdistance::str::sift4_simple(a, b)
}

/// Whether the pattern is one that can be searched for.
pub fn is_valid_pattern(pattern: &str) -> (r: bool)
    ensures
        r == regex_valid(pattern@),
{
    compile(pattern).is_ok()
}

} // verus!
