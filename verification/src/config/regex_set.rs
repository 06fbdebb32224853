//! Regular expressions and the two string operations that the filters need:
//! what the library takes on trust from the `regex` crate and from `str`.

use vstd::prelude::*;

verus! {

/// `regex::RegexSet`: a list of patterns, compiled to be searched for
/// together.
#[verifier::external_type_specification]
#[verifier::external_body]
pub struct ExRegexSet(regex::RegexSet);

/// `regex::SetMatches`: what a search with a set has found.
#[verifier::external_type_specification]
#[verifier::external_body]
pub struct ExSetMatches(regex::SetMatches);

/// `regex::Error`: why a pattern was refused.
#[verifier::external_type_specification]
#[verifier::external_body]
pub struct ExRegexError(regex::Error);

/// Whether `RegexSet::new` accepts a list of patterns.
pub uninterp spec fn set_compiles(patterns: Seq<Seq<char>>) -> bool;

/// The patterns that a set was made of, in the order in which they were
/// given.
pub uninterp spec fn set_patterns(set: regex::RegexSet) -> Seq<Seq<char>>;

/// Whether a pattern matches somewhere in a text, as `RegexSet::matches`
/// reports it for a member of the set.
pub uninterp spec fn pattern_matches(pattern: Seq<char>, text: Seq<char>) -> bool;

/// What a search reports of each pattern of the set, in the order of the
/// patterns: whether it matched.
pub uninterp spec fn match_flags(matches: regex::SetMatches) -> Seq<bool>;

/// What `str::to_lowercase` makes of a text.
pub uninterp spec fn lowercase(text: Seq<char>) -> Seq<char>;

/// A list of strings, seen as plain values.
pub open spec fn strings_of(list: Seq<String>) -> Seq<Seq<char>> {
    Seq::new(list.len(), |i: int| list[i]@)
}

/// Whether `needle` stands somewhere in `hay`, character for character.
pub open spec fn occurs_in(needle: Seq<char>, hay: Seq<char>) -> bool {
    exists|i: int|
        0 <= i && i + needle.len() <= hay.len() && #[trigger] hay.subrange(i, i + needle.len())
            == needle
}

/// Calls `RegexSet::new`.
///
/// Taken on trust: whether the call succeeds depends on the patterns alone,
/// and the set it returns holds the patterns it was given, in their order.
#[verifier::external_body]
pub(crate) fn compile_set(patterns: &Vec<String>) -> (r: Result<regex::RegexSet, regex::Error>)
    ensures
        r is Ok <==> set_compiles(strings_of(patterns@)),
        r matches Ok(set) ==> set_patterns(set) == strings_of(patterns@),
{
    regex::RegexSet::new(patterns)
}

/// Calls `RegexSet::matches`.
///
/// Taken on trust: the search reports on every pattern of the set, and what
/// it reports of a pattern depends on that pattern and the text alone.
#[verifier::external_body]
pub(crate) fn search(set: &regex::RegexSet, text: &str) -> (r: regex::SetMatches)
    ensures
        match_flags(r).len() == set_patterns(*set).len(),
        forall|i: int|
            0 <= i < set_patterns(*set).len() ==> #[trigger] match_flags(r)[i] == pattern_matches(
                set_patterns(*set)[i],
                text@,
            ),
{
    set.matches(text)
}

/// Calls `SetMatches::len`, which gives the number of patterns of the set
/// that was searched, matched or not.
#[verifier::external_body]
pub(crate) fn searched(matches: &regex::SetMatches) -> (r: usize)
    ensures
        r == match_flags(*matches).len(),
{
    matches.len()
}

/// Calls `SetMatches::matched`, which tells whether the pattern at `index`
/// matched. The call panics for an index that names no pattern.
#[verifier::external_body]
pub(crate) fn matched(matches: &regex::SetMatches, index: usize) -> (r: bool)
    requires
        index < match_flags(*matches).len(),
    ensures
        r == match_flags(*matches)[index as int],
{
    matches.matched(index)
}

/// Says in words why a pattern was refused, as the error of the `regex`
/// crate prints itself.
#[verifier::external_body]
pub(crate) fn describe(error: &regex::Error) -> (r: String) {
    error.to_string()
}

/// Calls `str::to_lowercase`.
#[verifier::external_body]
pub(crate) fn to_lowercase(text: &str) -> (r: String)
    ensures
        r@ == lowercase(text@),
{
    text.to_lowercase()
}

/// Calls `str::contains` with a string for a pattern, which tells whether
/// the string stands somewhere in the text.
#[verifier::external_body]
pub(crate) fn contains(hay: &str, needle: &str) -> (r: bool)
    ensures
        r == occurs_in(needle@, hay@),
{
    hay.contains(needle)
}

} // verus!
