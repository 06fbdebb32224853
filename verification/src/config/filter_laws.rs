//! What holds of every filter.

use crate::config::filter::Rule;
use crate::config::regex_set::pattern_matches;
use vstd::prelude::*;

verus! {

/// A filter that asks for two strings in the subject passes the subjects
/// that hold both, and no others.
pub proof fn lemma_both_strings_are_asked_for(
    rule: Rule,
    first: Seq<char>,
    second: Seq<char>,
    subject: Seq<char>,
)
    requires
        rule.contains == seq![first, second],
    ensures
        rule.subject_contains(subject) <==> (rule.subject_has(subject, first)
            && rule.subject_has(subject, second)),
{
    assert(rule.contains[0] == first);
    assert(rule.contains[1] == second);
}

/// A filter that asks for two patterns in the text passes the texts that
/// match both, and no others.
pub proof fn lemma_both_patterns_are_asked_for(
    rule: Rule,
    first: Seq<char>,
    second: Seq<char>,
    text: Seq<char>,
)
    requires
        rule.regex == seq![first, second],
    ensures
        rule.message_regex(text) <==> (pattern_matches(first, text) && pattern_matches(
            second,
            text,
        )),
{
    assert(rule.regex[0] == first);
    assert(rule.regex[1] == second);
}

/// A string that the subject has to hold and does not hold keeps the mail
/// back, whatever else the filter asks for.
pub proof fn lemma_a_missing_string_keeps_back(
    rule: Rule,
    subject: Seq<char>,
    text: Seq<char>,
    k: int,
)
    requires
        0 <= k < rule.contains.len(),
        !rule.subject_has(subject, rule.contains[k]),
    ensures
        !rule.accepts(subject, text),
{
}

/// A string that the subject must not hold and holds keeps the mail back.
pub proof fn lemma_an_unwanted_string_keeps_back(
    rule: Rule,
    subject: Seq<char>,
    text: Seq<char>,
    k: int,
)
    requires
        0 <= k < rule.not_contains.len(),
        rule.subject_has(subject, rule.not_contains[k]),
    ensures
        !rule.accepts(subject, text),
{
}

/// A pattern that the text has to match and does not match keeps the mail
/// back.
pub proof fn lemma_a_missing_pattern_keeps_back(
    rule: Rule,
    subject: Seq<char>,
    text: Seq<char>,
    k: int,
)
    requires
        0 <= k < rule.regex.len(),
        !pattern_matches(rule.regex[k], text),
    ensures
        !rule.accepts(subject, text),
{
}

/// A pattern that the text must not match and matches keeps the mail back.
pub proof fn lemma_an_unwanted_pattern_keeps_back(
    rule: Rule,
    subject: Seq<char>,
    text: Seq<char>,
    k: int,
)
    requires
        0 <= k < rule.not_regex.len(),
        pattern_matches(rule.not_regex[k], text),
    ensures
        !rule.accepts(subject, text),
{
}

/// A filter without lists passes every mail.
pub proof fn lemma_no_lists_ask_for_nothing(rule: Rule, subject: Seq<char>, text: Seq<char>)
    requires
        rule.contains.len() == 0,
        rule.not_contains.len() == 0,
        rule.regex.len() == 0,
        rule.not_regex.len() == 0,
    ensures
        rule.accepts(subject, text),
        rule.compiles(),
{
}

} // verus!
