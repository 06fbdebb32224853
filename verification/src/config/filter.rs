//! The filters that decide which mail is forwarded.
//!
//! A filter looks at the subject and at the text of a mail. The subject has
//! to hold every string of `subject_contains` and none of
//! `subject_not_contains`; the text has to match every pattern of
//! `message_regex` and none of `message_not_regex`. A list that is left out
//! or empty asks for nothing.

use crate::config::regex_set::{
    compile_set, contains, describe, lowercase, match_flags, matched, occurs_in,
    pattern_matches, search, searched, set_compiles, set_patterns, strings_of, to_lowercase,
};
use crate::imap_extention::fetch::Mail;
use vstd::prelude::*;

verus! {

/// One filter as the operator writes it.
#[derive(Debug, Clone)]
pub struct Filter {
    pub subject_case_sensitive: bool,
    pub subject_contains: Option<Vec<String>>,
    pub subject_not_contains: Option<Vec<String>>,
    pub message_regex: Option<Vec<String>>,
    pub message_not_regex: Option<Vec<String>>,
}

/// What a filter asks for, as plain values.
pub struct Rule {
    pub case_sensitive: bool,
    pub contains: Seq<Seq<char>>,
    pub not_contains: Seq<Seq<char>>,
    pub regex: Seq<Seq<char>>,
    pub not_regex: Seq<Seq<char>>,
}

/// The strings of a list that may have been left out.
pub open spec fn texts(list: Option<Vec<String>>) -> Seq<Seq<char>> {
    match list {
        Some(v) => strings_of(v@),
        None => Seq::empty(),
    }
}

impl View for Filter {
    type V = Rule;

    open spec fn view(&self) -> Rule {
        Rule {
            case_sensitive: self.subject_case_sensitive,
            contains: texts(self.subject_contains),
            not_contains: texts(self.subject_not_contains),
            regex: texts(self.message_regex),
            not_regex: texts(self.message_not_regex),
        }
    }
}

/// The number of flags that are set.
pub open spec fn count_set(flags: Seq<bool>) -> nat
    decreases flags.len(),
{
    if flags.len() == 0 {
        0
    } else {
        count_set(flags.drop_last()) + if flags.last() {
            1nat
        } else {
            0nat
        }
    }
}

impl Rule {
    /// Whether a subject holds a string. Where capitals do not count, both
    /// are put in lower case first.
    pub open spec fn subject_has(self, subject: Seq<char>, needle: Seq<char>) -> bool {
        if self.case_sensitive {
            occurs_in(needle, subject)
        } else {
            occurs_in(lowercase(needle), lowercase(subject))
        }
    }

    /// Whether the subject holds every string of `contains`.
    pub open spec fn subject_contains(self, subject: Seq<char>) -> bool {
        forall|k: int|
            0 <= k < self.contains.len() ==> self.subject_has(
                subject,
                #[trigger] self.contains[k],
            )
    }

    /// Whether the subject holds no string of `not_contains`.
    pub open spec fn subject_not_contains(self, subject: Seq<char>) -> bool {
        forall|k: int|
            0 <= k < self.not_contains.len() ==> !self.subject_has(
                subject,
                #[trigger] self.not_contains[k],
            )
    }

    /// Whether the text matches every pattern of `regex`.
    pub open spec fn message_regex(self, text: Seq<char>) -> bool {
        forall|k: int| 0 <= k < self.regex.len() ==> pattern_matches(#[trigger] self.regex[k], text)
    }

    /// Whether the text matches no pattern of `not_regex`.
    pub open spec fn message_not_regex(self, text: Seq<char>) -> bool {
        forall|k: int|
            0 <= k < self.not_regex.len() ==> !pattern_matches(#[trigger] self.not_regex[k], text)
    }

    /// Whether a mail with this subject and this text is forwarded: all four
    /// demands have to be met.
    pub open spec fn accepts(self, subject: Seq<char>, text: Seq<char>) -> bool {
        &&& self.subject_contains(subject)
        &&& self.subject_not_contains(subject)
        &&& self.message_regex(text)
        &&& self.message_not_regex(text)
    }

    /// The key under which the first patterns stand that cannot be
    /// compiled, for a filter that does not compile.
    pub open spec fn refused_key(self) -> Key {
        if self.regex.len() > 0 && !set_compiles(self.regex) {
            Key::MessageRegex
        } else {
            Key::MessageNotRegex
        }
    }

    /// Whether the patterns of the filter can be compiled. An empty list
    /// needs no compiling.
    pub open spec fn compiles(self) -> bool {
        &&& self.regex.len() > 0 ==> set_compiles(self.regex)
        &&& self.not_regex.len() > 0 ==> set_compiles(self.not_regex)
    }
}

/// No more flags are set than there are; all are set where as many are set
/// as there are, and none where none is counted.
pub proof fn lemma_count_set(flags: Seq<bool>)
    ensures
        count_set(flags) <= flags.len(),
        count_set(flags) == flags.len() <==> (forall|k: int| 0 <= k < flags.len() ==> flags[k]),
        count_set(flags) == 0 <==> (forall|k: int| 0 <= k < flags.len() ==> !flags[k]),
    decreases flags.len(),
{
    if flags.len() > 0 {
        let front = flags.drop_last();
        lemma_count_set(front);
        assert forall|k: int| 0 <= k < front.len() implies front[k] == flags[k] by {}
        if count_set(flags) == flags.len() {
            assert forall|k: int| 0 <= k < flags.len() implies flags[k] by {
                if k < front.len() {
                    assert(front[k]);
                }
            }
        }
        if forall|k: int| 0 <= k < flags.len() ==> flags[k] {
            assert forall|k: int| 0 <= k < front.len() implies front[k] by {
                assert(flags[k]);
            }
        }
        if count_set(flags) == 0 {
            assert forall|k: int| 0 <= k < flags.len() implies !flags[k] by {
                if k < front.len() {
                    assert(!front[k]);
                }
            }
        }
        if forall|k: int| 0 <= k < flags.len() ==> !flags[k] {
            assert forall|k: int| 0 <= k < front.len() implies !front[k] by {
                assert(!flags[k]);
            }
        }
    }
}

/// Reads out what a search reports: for each pattern of the set, in the
/// order of the patterns, whether it matched.
pub fn flags_of(matches: &regex::SetMatches) -> (r: Vec<bool>)
    ensures
        r@ == match_flags(*matches),
{
    let n = searched(matches);
    let mut flags: Vec<bool> = Vec::new();
    let mut i: usize = 0;
    while i < n
        invariant
            i <= n,
            n == match_flags(*matches).len(),
            flags@ == match_flags(*matches).take(i as int),
        decreases n - i,
    {
        flags.push(matched(matches, i));
        assert(flags@ =~= match_flags(*matches).take(i + 1));
        i = i + 1;
    }
    assert(match_flags(*matches).take(n as int) =~= match_flags(*matches));
    flags
}

/// Counts the flags that are set.
pub fn count_flags(flags: &Vec<bool>) -> (r: usize)
    ensures
        r == count_set(flags@),
        r <= flags@.len(),
{
    let mut count: usize = 0;
    let mut i: usize = 0;
    assert(flags@.take(0) =~= Seq::<bool>::empty());
    while i < flags.len()
        invariant
            i <= flags.len(),
            count == count_set(flags@.take(i as int)),
            count <= i,
        decreases flags.len() - i,
    {
        proof {
            assert(flags@.take(i + 1).drop_last() =~= flags@.take(i as int));
        }
        if flags[i] {
            count = count + 1;
        }
        i = i + 1;
    }
    assert(flags@.take(flags.len() as int) =~= flags@);
    count
}

/// Tells whether every pattern matched: as many have to be reported as
/// matched as there are patterns.
pub fn all_matched(flags: &Vec<bool>) -> (r: bool)
    ensures
        r == (forall|k: int| 0 <= k < flags@.len() ==> flags@[k]),
        r == (count_set(flags@) == flags@.len()),
{
    proof {
        lemma_count_set(flags@);
    }
    count_flags(flags) == flags.len()
}

/// Tells whether no pattern matched.
pub fn none_matched(flags: &Vec<bool>) -> (r: bool)
    ensures
        r == (forall|k: int| 0 <= k < flags@.len() ==> !flags@[k]),
        r == (count_set(flags@) == 0),
{
    proof {
        lemma_count_set(flags@);
    }
    count_flags(flags) == 0
}

/// The two keys of a filter that hold patterns.
#[derive(Debug, Clone, Copy, PartialEq, Eq, Structural)]
pub enum Key {
    MessageRegex,
    MessageNotRegex,
}

/// What is wrong with the configuration.
#[derive(Debug, Clone, PartialEq, Eq)]
pub enum ConfigError {
    /// A mailbox names a filter that does not exist.
    MissingFilter { name: String },
    /// The patterns under one key of a filter cannot be compiled.
    InvalidRegex { filter: String, key: Key, detail: String },
}

/// A filter that is ready for use: its patterns are compiled.
pub struct Matcher {
    case_sensitive: bool,
    contains: Vec<String>,
    not_contains: Vec<String>,
    required: Option<regex::RegexSet>,
    forbidden: Option<regex::RegexSet>,
}

/// The patterns that a compiled list holds.
pub open spec fn held(set: Option<regex::RegexSet>) -> Seq<Seq<char>> {
    match set {
        Some(s) => set_patterns(s),
        None => Seq::empty(),
    }
}

impl View for Matcher {
    type V = Rule;

    closed spec fn view(&self) -> Rule {
        Rule {
            case_sensitive: self.case_sensitive,
            contains: strings_of(self.contains@),
            not_contains: strings_of(self.not_contains@),
            regex: held(self.required),
            not_regex: held(self.forbidden),
        }
    }
}

/// Copies a list of strings; a list that was left out is copied as empty.
fn copy_list(list: &Option<Vec<String>>) -> (r: Vec<String>)
    ensures
        strings_of(r@) == texts(*list),
{
    let mut out: Vec<String> = Vec::new();
    match list {
        None => {
            assert(strings_of(out@) =~= Seq::<Seq<char>>::empty());
        },
        Some(v) => {
            let mut i: usize = 0;
            while i < v.len()
                invariant
                    i <= v.len(),
                    strings_of(out@) == strings_of(v@).take(i as int),
                decreases v.len() - i,
            {
                let ghost before = strings_of(out@);
                let copy: String = v[i].clone();
                out.push(copy);
                assert(strings_of(out@) =~= before.push(v@[i as int]@));
                assert(strings_of(out@) =~= strings_of(v@).take(i + 1));
                i = i + 1;
            }
            assert(strings_of(v@).take(v.len() as int) =~= strings_of(v@));
        },
    }
    out
}

/// Compiles a list of patterns. A list that is empty or was left out needs
/// no set.
fn compile_list(list: &Option<Vec<String>>) -> (r: Result<Option<regex::RegexSet>, regex::Error>)
    ensures
        r is Ok <==> (texts(*list).len() > 0 ==> set_compiles(texts(*list))),
        r matches Ok(set) ==> held(set) == texts(*list),
{
    match list {
        None => Ok(None),
        Some(v) => {
            if v.len() == 0 {
                assert(strings_of(v@) =~= Seq::<Seq<char>>::empty());
                Ok(None)
            } else {
                match compile_set(v) {
                    Ok(set) => Ok(Some(set)),
                    Err(e) => Err(e),
                }
            }
        },
    }
}

impl Filter {
    /// Compiles the patterns of the filter. This is the place where a bad
    /// pattern shows: the error names the filter and the first key whose
    /// patterns were refused.
    pub fn compile(&self, filter_name: &str) -> (r: Result<Matcher, ConfigError>)
        ensures
            match r {
                Ok(m) => self@.compiles() && m@ == self@,
                Err(e) => {
                    &&& !self@.compiles()
                    &&& e matches ConfigError::InvalidRegex { filter, key, .. }
                    &&& filter@ == filter_name@
                    &&& key == self@.refused_key()
                },
            },
    {
        let required = match compile_list(&self.message_regex) {
            Ok(set) => set,
            Err(e) => {
                return Err(
                    ConfigError::InvalidRegex {
                        filter: filter_name.to_owned(),
                        key: Key::MessageRegex,
                        detail: describe(&e),
                    },
                );
            },
        };
        let forbidden = match compile_list(&self.message_not_regex) {
            Ok(set) => set,
            Err(e) => {
                return Err(
                    ConfigError::InvalidRegex {
                        filter: filter_name.to_owned(),
                        key: Key::MessageNotRegex,
                        detail: describe(&e),
                    },
                );
            },
        };
        Ok(
            Matcher {
                case_sensitive: self.subject_case_sensitive,
                contains: copy_list(&self.subject_contains),
                not_contains: copy_list(&self.subject_not_contains),
                required,
                forbidden,
            },
        )
    }

    /// Judges a mail: compiles the patterns of the filter, then tells
    /// whether the mail is forwarded.
    pub fn check(&self, mail: &Mail, filter_name: &String) -> (r: Result<bool, ConfigError>)
        ensures
            match r {
                Ok(pass) => self@.compiles() && pass == self@.accepts(mail@.subject, mail@.text),
                Err(e) => {
                    &&& !self@.compiles()
                    &&& e matches ConfigError::InvalidRegex { filter, key, .. }
                    &&& filter@ == filter_name@
                    &&& key == self@.refused_key()
                },
            },
    {
        match self.compile(filter_name.as_str()) {
            Ok(matcher) => Ok(matcher.check(mail)),
            Err(e) => Err(e),
        }
    }
}

/// Tells whether a subject holds a string. `lowered` is the subject in
/// lower case, for a filter to which capitals do not count.
fn subject_has(case_sensitive: bool, subject: &str, lowered: &str, needle: &str) -> (r: bool)
    requires
        lowered@ == lowercase(subject@),
    ensures
        r == (Rule {
            case_sensitive,
            contains: Seq::empty(),
            not_contains: Seq::empty(),
            regex: Seq::empty(),
            not_regex: Seq::empty(),
        }).subject_has(subject@, needle@),
{
    if case_sensitive {
        contains(subject, needle)
    } else {
        let low = to_lowercase(needle);
        contains(lowered, low.as_str())
    }
}

impl Matcher {
    /// Tells whether the subject holds every string it has to hold.
    pub fn subject_contains(&self, subject: &str) -> (r: bool)
        ensures
            r == self@.subject_contains(subject@),
    {
        let lowered = to_lowercase(subject);
        let mut i: usize = 0;
        while i < self.contains.len()
            invariant
                i <= self.contains.len(),
                lowered@ == lowercase(subject@),
                forall|k: int|
                    0 <= k < i ==> self@.subject_has(subject@, #[trigger] self@.contains[k]),
            decreases self.contains.len() - i,
        {
            if !subject_has(
                self.case_sensitive,
                subject,
                lowered.as_str(),
                self.contains[i].as_str(),
            ) {
                assert(!self@.subject_has(subject@, self@.contains[i as int]));
                return false;
            }
            assert(self@.subject_has(subject@, self@.contains[i as int]));
            i = i + 1;
        }
        true
    }

    /// Tells whether the subject holds none of the strings it must not hold.
    pub fn subject_not_contains(&self, subject: &str) -> (r: bool)
        ensures
            r == self@.subject_not_contains(subject@),
    {
        let lowered = to_lowercase(subject);
        let mut i: usize = 0;
        while i < self.not_contains.len()
            invariant
                i <= self.not_contains.len(),
                lowered@ == lowercase(subject@),
                forall|k: int|
                    0 <= k < i ==> !self@.subject_has(subject@, #[trigger] self@.not_contains[k]),
            decreases self.not_contains.len() - i,
        {
            if subject_has(
                self.case_sensitive,
                subject,
                lowered.as_str(),
                self.not_contains[i].as_str(),
            ) {
                assert(self@.subject_has(subject@, self@.not_contains[i as int]));
                return false;
            }
            assert(!self@.subject_has(subject@, self@.not_contains[i as int]));
            i = i + 1;
        }
        true
    }

    /// Tells whether the text matches every pattern it has to match: as
    /// many patterns have to match as there are.
    pub fn message_regex(&self, message: &str) -> (r: bool)
        ensures
            r == self@.message_regex(message@),
    {
        match &self.required {
            None => true,
            Some(set) => {
                let flags = flags_of(&search(set, message));
                proof {
                    if forall|k: int| 0 <= k < flags@.len() ==> flags@[k] {
                        assert forall|k: int| 0 <= k < self@.regex.len() implies pattern_matches(
                            #[trigger] self@.regex[k],
                            message@,
                        ) by {
                            assert(flags@[k]);
                        }
                    }
                    if self@.message_regex(message@) {
                        assert forall|k: int| 0 <= k < flags@.len() implies flags@[k] by {
                            assert(pattern_matches(self@.regex[k], message@));
                        }
                    }
                }
                all_matched(&flags)
            },
        }
    }

    /// Tells whether the text matches none of the patterns it must not
    /// match.
    pub fn message_not_regex(&self, message: &str) -> (r: bool)
        ensures
            r == self@.message_not_regex(message@),
    {
        match &self.forbidden {
            None => true,
            Some(set) => {
                let flags = flags_of(&search(set, message));
                proof {
                    if forall|k: int| 0 <= k < flags@.len() ==> !flags@[k] {
                        assert forall|k: int|
                            0 <= k < self@.not_regex.len() implies !pattern_matches(
                            #[trigger] self@.not_regex[k],
                            message@,
                        ) by {
                            assert(!flags@[k]);
                        }
                    }
                    if self@.message_not_regex(message@) {
                        assert forall|k: int| 0 <= k < flags@.len() implies !flags@[k] by {
                            assert(!pattern_matches(self@.not_regex[k], message@));
                        }
                    }
                }
                none_matched(&flags)
            },
        }
    }

    /// Tells whether a mail is forwarded.
    pub fn check(&self, mail: &Mail) -> (r: bool)
        ensures
            r == self@.accepts(mail@.subject, mail@.text),
    {
        self.subject_contains(mail.subject.as_str()) && self.subject_not_contains(
            mail.subject.as_str(),
        ) && self.message_regex(mail.text.as_str()) && self.message_not_regex(mail.text.as_str())
    }
}

/// A filter under its name.
#[derive(Debug, Clone)]
pub struct Entry {
    pub name: String,
    pub filter: Filter,
}

/// An `Entry`, seen as plain values.
pub struct Named {
    pub name: Seq<char>,
    pub rule: Rule,
}

impl View for Entry {
    type V = Named;

    open spec fn view(&self) -> Named {
        Named { name: self.name@, rule: self.filter@ }
    }
}

/// A list of entries, seen as plain values.
pub open spec fn named_of(entries: Seq<Entry>) -> Seq<Named> {
    Seq::new(entries.len(), |i: int| entries[i]@)
}

/// The index of the first entry at or after `from` with the given name, or
/// the number of entries where there is none.
pub open spec fn index_of(table: Seq<Named>, name: Seq<char>, from: int) -> int
    decreases table.len() - from,
{
    if 0 <= from < table.len() && table[from].name != name {
        index_of(table, name, from + 1)
    } else {
        from
    }
}

/// The rule that stands under a name, if any does.
pub open spec fn rule_named(table: Seq<Named>, name: Seq<char>) -> Option<Rule> {
    let i = index_of(table, name, 0);
    if i < table.len() {
        Some(table[i].rule)
    } else {
        None
    }
}

/// Whether no name stands twice in a table.
pub open spec fn distinct_names(table: Seq<Named>) -> bool {
    forall|i: int, j: int|
        0 <= i < j < table.len() ==> (#[trigger] table[i]).name != (#[trigger] table[j]).name
}

/// `index_of` names the first entry with the name.
pub proof fn lemma_index_of(table: Seq<Named>, name: Seq<char>, from: int)
    requires
        0 <= from <= table.len(),
    ensures
        from <= index_of(table, name, from) <= table.len(),
        forall|k: int|
            from <= k < index_of(table, name, from) ==> (#[trigger] table[k]).name != name,
        index_of(table, name, from) < table.len() ==> table[index_of(table, name, from)].name
            == name,
    decreases table.len() - from,
{
    if from < table.len() && table[from].name != name {
        lemma_index_of(table, name, from + 1);
    }
}

/// The first entry with a name is found wherever the search starts before
/// it.
pub proof fn lemma_index_of_at(table: Seq<Named>, name: Seq<char>, from: int, at: int)
    requires
        0 <= from <= at <= table.len(),
        forall|k: int| from <= k < at ==> (#[trigger] table[k]).name != name,
        at < table.len() ==> table[at].name == name,
    ensures
        index_of(table, name, from) == at,
    decreases at - from,
{
    if from < at {
        lemma_index_of_at(table, name, from + 1, at);
    }
}

/// The filters of the relay, each under its name. A table that is built
/// with `new` and `insert` holds no name twice.
#[derive(Debug)]
pub struct Config {
    filter: Vec<Entry>,
}

impl View for Config {
    type V = Seq<Named>;

    closed spec fn view(&self) -> Seq<Named> {
        named_of(self.filter@)
    }
}

impl Filter {
    /// A filter that asks for nothing: the stand-in for a filter that a
    /// mailbox names and the configuration lacks.
    pub fn placeholder() -> (r: Filter)
        ensures
            r@ == (Rule {
                case_sensitive: false,
                contains: Seq::empty(),
                not_contains: Seq::empty(),
                regex: Seq::empty(),
                not_regex: Seq::empty(),
            }),
            r.subject_contains is Some,
            r.subject_not_contains is Some,
            r.message_regex is Some,
            r.message_not_regex is Some,
    {
        let r = Filter {
            subject_case_sensitive: false,
            subject_contains: Some(Vec::new()),
            subject_not_contains: Some(Vec::new()),
            message_regex: Some(Vec::new()),
            message_not_regex: Some(Vec::new()),
        };
        assert(strings_of(Seq::<String>::empty()) =~= Seq::<Seq<char>>::empty());
        r
    }
}

impl Config {
    /// A configuration without filters.
    pub fn new() -> (r: Config)
        ensures
            r@ == Seq::<Named>::empty(),
            distinct_names(r@),
    {
        let r = Config { filter: Vec::new() };
        assert(named_of(r.filter@) =~= Seq::<Named>::empty());
        r
    }

    /// The number of filters.
    pub fn len(&self) -> (r: usize)
        ensures
            r == self@.len(),
    {
        self.filter.len()
    }

    /// The filter at a place of the table, with its name.
    pub fn entry(&self, index: usize) -> (r: &Entry)
        requires
            index < self@.len(),
        ensures
            r@ == self@[index as int],
    {
        &self.filter[index]
    }

    /// Finds the place of the filter with the given name.
    fn find(&self, name: &str) -> (r: usize)
        ensures
            r == index_of(self@, name@, 0),
            r <= self@.len(),
    {
        let mut i: usize = 0;
        while i < self.filter.len() && !same_text(self.filter[i].name.as_str(), name)
            invariant
                i <= self.filter.len(),
                index_of(self@, name@, 0) == index_of(self@, name@, i as int),
            decreases self.filter.len() - i,
        {
            i = i + 1;
        }
        i
    }

    /// Looks a filter up by its name.
    pub fn check_exist(&self, filter: &String) -> (r: Option<&Filter>)
        ensures
            match r {
                Some(f) => rule_named(self@, filter@) == Some(f@),
                None => rule_named(self@, filter@) is None,
            },
    {
        let i = self.find(filter.as_str());
        if i < self.filter.len() {
            Some(&self.filter[i].filter)
        } else {
            None
        }
    }

    /// Judges a mail by the filter with the given name.
    pub fn check(&self, mail: &Mail, filter: &String) -> (r: Result<bool, ConfigError>)
        ensures
            match r {
                Ok(pass) => {
                    &&& rule_named(self@, filter@) matches Some(rule)
                    &&& rule.compiles()
                    &&& pass == rule.accepts(mail@.subject, mail@.text)
                },
                Err(ConfigError::MissingFilter { name }) => {
                    &&& rule_named(self@, filter@) is None
                    &&& name@ == filter@
                },
                Err(ConfigError::InvalidRegex { filter: named, key, .. }) => {
                    &&& rule_named(self@, filter@) matches Some(rule)
                    &&& !rule.compiles()
                    &&& named@ == filter@
                    &&& key == rule.refused_key()
                },
            },
    {
        match self.check_exist(filter) {
            Some(f) => f.check(mail, filter),
            None => Err(ConfigError::MissingFilter { name: filter.clone() }),
        }
    }

    /// Puts a filter under a name. A filter that stood under the name
    /// before gives way; the other filters stay.
    pub fn insert(&mut self, name: String, filter: Filter)
        ensures
            rule_named(final(self)@, name@) == Some(filter@),
            forall|other: Seq<char>|
                other != name@ ==> #[trigger] rule_named(final(self)@, other) == rule_named(
                    old(self)@,
                    other,
                ),
            distinct_names(old(self)@) ==> distinct_names(final(self)@),
            final(self)@.len() == if rule_named(old(self)@, name@) is Some {
                old(self)@.len()
            } else {
                old(self)@.len() + 1
            },
    {
        let ghost before = self@;
        let ghost added = Named { name: name@, rule: filter@ };
        let i = self.find(name.as_str());
        proof {
            lemma_index_of(before, name@, 0);
        }
        if i < self.filter.len() {
            self.filter.set(i, Entry { name, filter });
            proof {
                let after = named_of(self.filter@);
                assert(after =~= before.update(i as int, added));
                lemma_index_of_at(after, added.name, 0, i as int);
                assert forall|other: Seq<char>| other != added.name implies #[trigger] rule_named(
                    after,
                    other,
                ) == rule_named(before, other) by {
                    lemma_index_of(before, other, 0);
                    let at = index_of(before, other, 0);
                    assert forall|k: int| 0 <= k < at implies (#[trigger] after[k]).name
                        != other by {
                        assert(before[k].name != other);
                    }
                    lemma_index_of_at(after, other, 0, at);
                }
                if distinct_names(before) {
                    assert forall|a: int, b: int| 0 <= a < b < after.len() implies (
                    #[trigger] after[a]).name != (#[trigger] after[b]).name by {
                        assert(before[a].name != before[b].name);
                    }
                }
            }
        } else {
            self.filter.push(Entry { name, filter });
            proof {
                let after = named_of(self.filter@);
                assert(after =~= before.push(added));
                assert forall|k: int| 0 <= k < before.len() implies (#[trigger] after[k]).name
                    != added.name by {
                    assert(before[k].name != added.name);
                }
                lemma_index_of_at(after, added.name, 0, before.len() as int);
                assert forall|other: Seq<char>| other != added.name implies #[trigger] rule_named(
                    after,
                    other,
                ) == rule_named(before, other) by {
                    lemma_index_of(before, other, 0);
                    let at = index_of(before, other, 0);
                    assert forall|k: int| 0 <= k < at implies (#[trigger] after[k]).name
                        != other by {
                        assert(before[k].name != other);
                    }
                    if at < before.len() {
                        lemma_index_of_at(after, other, 0, at);
                    } else {
                        lemma_index_of_at(after, other, 0, after.len() as int);
                    }
                }
                if distinct_names(before) {
                    assert forall|a: int, b: int| 0 <= a < b < after.len() implies (
                    #[trigger] after[a]).name != (#[trigger] after[b]).name by {
                        if b < before.len() {
                            assert(before[a].name != before[b].name);
                        } else {
                            assert(before[a].name != added.name);
                        }
                    }
                }
            }
        }
    }

    /// Puts a filter that asks for nothing under a name that a mailbox uses
    /// and the configuration lacks, so that the operator finds the entry to
    /// fill in.
    pub fn add_placeholder(&mut self, name: &String)
        ensures
            rule_named(final(self)@, name@) == Some(Filter::placeholder_rule()),
            forall|other: Seq<char>|
                other != name@ ==> #[trigger] rule_named(final(self)@, other) == rule_named(
                    old(self)@,
                    other,
                ),
            distinct_names(old(self)@) ==> distinct_names(final(self)@),
    {
        self.insert(name.clone(), Filter::placeholder());
    }
}

impl Filter {
    /// What the placeholder asks for: nothing.
    pub open spec fn placeholder_rule() -> Rule {
        Rule {
            case_sensitive: false,
            contains: Seq::empty(),
            not_contains: Seq::empty(),
            regex: Seq::empty(),
            not_regex: Seq::empty(),
        }
    }
}

/// Tells whether two strings are the same.
fn same_text(a: &str, b: &str) -> (r: bool)
    ensures
        r == (a@ == b@),
{
    let x = a.to_owned();
    let y = b.to_owned();
    x == y
}

/// The placeholder forwards every mail and needs no compiling.
pub proof fn lemma_placeholder_accepts_all(subject: Seq<char>, text: Seq<char>)
    ensures
        Filter::placeholder_rule().accepts(subject, text),
        Filter::placeholder_rule().compiles(),
{
}

/// The filters that a new installation starts from: one filter, to show
/// what can be asked for.
pub fn config_template() -> (r: Config)
    ensures
        r@ == seq![
            Named {
                name: "Filter_1"@,
                rule: Rule {
                    case_sensitive: false,
                    contains: seq!["[Something]"@],
                    not_contains: seq!["TEST"@, "REMINDER"@],
                    regex: seq!["WRITE A REGULAR EXPRESSION"@],
                    not_regex: seq!["WRITE A REGULAR EXPRESSION"@],
                },
            },
        ],
        distinct_names(r@),
{
    let mut contains: Vec<String> = Vec::new();
    contains.push("[Something]".to_owned());
    let mut not_contains: Vec<String> = Vec::new();
    not_contains.push("TEST".to_owned());
    not_contains.push("REMINDER".to_owned());
    let mut regex: Vec<String> = Vec::new();
    regex.push("WRITE A REGULAR EXPRESSION".to_owned());
    let mut not_regex: Vec<String> = Vec::new();
    not_regex.push("WRITE A REGULAR EXPRESSION".to_owned());
    assert(strings_of(contains@) =~= seq!["[Something]"@]);
    assert(strings_of(not_contains@) =~= seq!["TEST"@, "REMINDER"@]);
    assert(strings_of(regex@) =~= seq!["WRITE A REGULAR EXPRESSION"@]);
    assert(strings_of(not_regex@) =~= seq!["WRITE A REGULAR EXPRESSION"@]);
    let filter = Filter {
        subject_case_sensitive: false,
        subject_contains: Some(contains),
        subject_not_contains: Some(not_contains),
        message_regex: Some(regex),
        message_not_regex: Some(not_regex),
    };
    let mut r = Config::new();
    r.insert("Filter_1".to_owned(), filter);
    proof {
        assert(r@.len() == 1);
        lemma_index_of(r@, "Filter_1"@, 0);
        assert(r@ =~= seq![Named { name: "Filter_1"@, rule: filter@ }]);
    }
    r
}

} // verus!
