//! Regular expressions, as the crate `regex` compiles and runs them.

use vstd::prelude::*;

verus! {

/// `regex::Regex`, a compiled regular expression: nothing inside it is looked at.
#[verifier::external_type_specification]
#[verifier::external_body]
pub struct ExRegex(regex::Regex);

/// `regex::Error`, why a pattern was refused: nothing inside it is looked at.
#[verifier::external_type_specification]
#[verifier::external_body]
pub struct ExRegexError(regex::Error);

/// The pattern that a regular expression was compiled from, which it keeps
/// and `Regex::as_str` hands out.
pub uninterp spec fn regex_source(re: regex::Regex) -> Seq<char>;

/// Whether a regular expression is as `Regex::new` builds it: from its pattern
/// alone, with no option set. One that a builder made with options may match
/// otherwise than its pattern says, and nothing here speaks of it.
pub uninterp spec fn regex_plain(re: regex::Regex) -> bool;

/// Whether the pattern is one that compiles.
pub uninterp spec fn regex_accepts(pattern: Seq<char>) -> bool;

/// Whether the pattern, compiled with no option set, matches somewhere in the text.
pub uninterp spec fn regex_matches(pattern: Seq<char>, text: Seq<char>) -> bool;

/// The text with the first match of the pattern, compiled with no option
/// set, replaced.
pub uninterp spec fn regex_replaced(
    pattern: Seq<char>,
    text: Seq<char>,
    replacement: Seq<char>,
) -> Seq<char>;

/// `Regex::new` compiles a pattern with no option set, or refuses it: which of
/// the two is a function of the pattern, named [`regex_accepts`]. What it
/// compiled keeps the pattern.
pub assume_specification[ regex::Regex::new ](re: &str) -> (compiled: Result<
    regex::Regex,
    regex::Error,
>)
    ensures
        compiled is Ok <==> regex_accepts(re@),
        compiled matches Ok(regex) ==> regex_plain(regex) && regex_source(regex) == re@,
;

/// `Regex::is_match` tells whether the regular expression matches somewhere
/// in the text. For one that `Regex::new` built that is a function of the
/// pattern and the text, named [`regex_matches`].
pub assume_specification[ regex::Regex::is_match ](re: &regex::Regex, haystack: &str) -> (found:
    bool)
    requires
        regex_plain(*re),
    ensures
        found == regex_matches(regex_source(*re), haystack@),
;

/// `Regex::replace` with a replacement text puts it in place of the first
/// match. For a regular expression that `Regex::new` built that is a function
/// of the pattern, the text and the replacement, named [`regex_replaced`].
#[verifier::external_body]
pub(crate) fn replace_first(re: &regex::Regex, text: &str, replacement: &str) -> (out: String)
    requires
        regex_plain(*re),
    ensures
        out@ == regex_replaced(regex_source(*re), text@, replacement@),
{
    re.replace(text, replacement).into_owned()
}

} // verus!
