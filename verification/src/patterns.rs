//! Regular expressions that come from configuration.
use vstd::prelude::*;

verus! {

/// What is wrong with a pattern that is no regular expression.
pub uninterp spec fn pattern_fault(pattern: Seq<char>, ignore_case: bool) -> Option<Seq<char>>;

/// Whether a pattern is a regular expression.
pub open spec fn pattern_compiles(pattern: Seq<char>, ignore_case: bool) -> bool {
    pattern_fault(pattern, ignore_case) is None
}

/// Whether a regular expression matches somewhere in a text.
pub uninterp spec fn pattern_matches(pattern: Seq<char>, ignore_case: bool, text: Seq<char>) -> bool;

/// `regex::RegexBuilder::build`: the text of its error where the pattern does
/// not compile. It depends on the pattern and the flag alone.
#[verifier::external_body]
pub(crate) fn fault(pattern: &str, ignore_case: bool) -> (r: Option<String>)
    ensures
        match pattern_fault(pattern@, ignore_case) {
            Some(s) => r is Some && r->0@ == s,
            None => r is None,
        },
{
    let compiled = regex::RegexBuilder::new(pattern).case_insensitive(ignore_case).build();
    compiled.err().map(|cause| cause.to_string())
}

pub(crate) fn compiles(pattern: &str, ignore_case: bool) -> (r: bool)
    ensures
        r == pattern_compiles(pattern@, ignore_case),
{
    fault(pattern, ignore_case).is_none()
}

/// `regex::Regex::is_match` on the compiled pattern: whether it matches
/// somewhere in the text. A pattern that does not compile yields `None`.
#[verifier::external_body]
pub(crate) fn is_match(pattern: &str, ignore_case: bool, text: &str) -> (r: Option<bool>)
    ensures
        r is Some <==> pattern_compiles(pattern@, ignore_case),
        r is Some ==> r->0 == pattern_matches(pattern@, ignore_case, text@),
{
    let compiled = regex::RegexBuilder::new(pattern).case_insensitive(ignore_case).build();
    match compiled {
        Ok(regex) => Some(regex.is_match(text)),
        Err(_) => None,
    }
}

/// What a group of a pattern captures where the pattern first matches.
pub uninterp spec fn captured(pattern: Seq<char>, text: Seq<char>, group: usize) -> Option<Seq<char>>;

/// `regex::Regex::captures` and `Captures::get`: the text of a group at the
/// leftmost match, which depends on the arguments alone. Nothing if the pattern
/// does not compile or match, or the group takes no part in the match.
#[verifier::external_body]
pub(crate) fn capture(pattern: &str, text: &str, group: usize) -> (r: Option<String>)
    ensures
        match captured(pattern@, text@, group) {
            Some(s) => r is Some && r->0@ == s,
            None => r is None,
        },
{
    let compiled = regex::Regex::new(pattern).ok()?;
    let captures = compiled.captures(text)?;
    captures.get(group).map(|m| m.as_str().to_string())
}

} // verus!
