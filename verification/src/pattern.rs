//! Regular-expression searches, done by the `regex` crate. What a search finds
//! is not worked out here: it has a name, and the rest of the library speaks of
//! that name.

use regex::Regex;
use vstd::prelude::*;

verus! {

/// The error of the `regex` crate for a pattern that it cannot compile.
#[verifier::external_type_specification]
#[verifier::external_body]
pub struct ExPatternError(regex::Error);

/// Whether `Regex::new` accepts `pattern`.
pub uninterp spec fn pattern_compiles(pattern: Seq<char>) -> bool;

/// The successive non-overlapping matches of `pattern` in `text`, leftmost
/// first, as `Regex::find_iter` yields them.
pub uninterp spec fn pattern_matches(pattern: Seq<char>, text: Seq<char>) -> Seq<Seq<char>>;

/// `text` with every non-overlapping match of `pattern` replaced by
/// `replacement`, as `Regex::replace_all` returns it.
pub uninterp spec fn pattern_replaced(
    pattern: Seq<char>,
    text: Seq<char>,
    replacement: Seq<char>,
) -> Seq<char>;

/// Compiles `pattern` with `Regex::new` and collects the text of each match
/// that `Regex::find_iter` yields on `text`. The error is that of `Regex::new`,
/// which depends on the pattern alone; the search itself cannot fail.
#[verifier::external_body]
pub(crate) fn find_all(pattern: &str, text: &str) -> (r: Result<Vec<String>, regex::Error>)
    ensures
        r is Ok <==> pattern_compiles(pattern@),
        r matches Ok(found) ==> found.deep_view() == pattern_matches(pattern@, text@),
{
    let re = Regex::new(pattern)?;
    Ok(re.find_iter(text).map(|m| m.as_str().to_string()).collect())
}

/// Compiles `pattern` with `Regex::new` and returns what `Regex::replace_all`
/// makes of `text` and `replacement`. The error is that of `Regex::new`, which
/// depends on the pattern alone; the replacement itself cannot fail.
#[verifier::external_body]
pub(crate) fn replace_all(pattern: &str, text: &str, replacement: &str) -> (r: Result<
    String,
    regex::Error,
>)
    ensures
        r is Ok <==> pattern_compiles(pattern@),
        r matches Ok(replaced) ==> replaced@ == pattern_replaced(pattern@, text@, replacement@),
{
    let re = Regex::new(pattern)?;
    Ok(re.replace_all(text, replacement).into_owned())
}

} // verus!
