//! The filters made ready for use, and the check of the configuration that
//! the relay makes before it reads any mail.

use crate::config::default::Publish;
use crate::config::filter::{
    index_of, rule_named, Config, ConfigError, Matcher, Named,
};
use vstd::prelude::*;

verus! {

/// A compiled filter under its name.
pub struct Ready {
    name: String,
    matcher: Matcher,
}

/// The filters of the relay, compiled.
pub struct Rules {
    list: Vec<Ready>,
}

impl View for Ready {
    type V = Named;

    closed spec fn view(&self) -> Named {
        Named { name: self.name@, rule: self.matcher@ }
    }
}

/// A list of compiled filters, seen as plain values.
pub closed spec fn ready_of(list: Seq<Ready>) -> Seq<Named> {
    Seq::new(list.len(), |i: int| list[i]@)
}

impl View for Rules {
    type V = Seq<Named>;

    closed spec fn view(&self) -> Seq<Named> {
        ready_of(self.list@)
    }
}

/// The index of the first filter at or after `from` whose patterns cannot
/// be compiled, or the number of filters where all can.
pub open spec fn first_refused(table: Seq<Named>, from: int) -> int
    decreases table.len() - from,
{
    if 0 <= from < table.len() && table[from].rule.compiles() {
        first_refused(table, from + 1)
    } else {
        from
    }
}

/// The index of the first mailbox at or after `from` whose filter does not
/// exist, or the number of mailboxes where every filter does.
pub open spec fn first_missing(publish: Seq<Publish>, table: Seq<Named>, from: int) -> int
    decreases publish.len() - from,
{
    if 0 <= from < publish.len() && (match publish[from].filter {
        Some(name) => rule_named(table, name@) is Some,
        None => true,
    }) {
        first_missing(publish, table, from + 1)
    } else {
        from
    }
}

/// `first_missing` names a mailbox whose filter does not exist, and the
/// first of them.
pub proof fn lemma_first_missing(publish: Seq<Publish>, table: Seq<Named>, from: int)
    requires
        0 <= from <= publish.len(),
    ensures
        from <= first_missing(publish, table, from) <= publish.len(),
        first_missing(publish, table, from) < publish.len() ==> {
            &&& publish[first_missing(publish, table, from)].filter matches Some(name)
            &&& rule_named(table, name@) is None
        },
        forall|k: int|
            from <= k < first_missing(publish, table, from) ==> (match (
            #[trigger] publish[k]).filter {
                Some(name) => rule_named(table, name@) is Some,
                None => true,
            }),
    decreases publish.len() - from,
{
    if from < publish.len() && (match publish[from].filter {
        Some(name) => rule_named(table, name@) is Some,
        None => true,
    }) {
        lemma_first_missing(publish, table, from + 1);
    }
}

/// `first_refused` names a filter that does not compile, and the first of
/// them.
pub proof fn lemma_first_refused(table: Seq<Named>, from: int)
    requires
        0 <= from <= table.len(),
    ensures
        from <= first_refused(table, from) <= table.len(),
        first_refused(table, from) < table.len() ==> !table[first_refused(
            table,
            from,
        )].rule.compiles(),
        forall|k: int|
            from <= k < first_refused(table, from) ==> (#[trigger] table[k]).rule.compiles(),
    decreases table.len() - from,
{
    if from < table.len() && table[from].rule.compiles() {
        lemma_first_refused(table, from + 1);
    }
}

impl Config {
    /// Compiles every filter. The first filter whose patterns are refused
    /// gives the error, which names it and the key.
    pub fn compile(&self) -> (r: Result<Rules, ConfigError>)
        ensures
            match r {
                Ok(rules) => rules@ == self@ && first_refused(self@, 0) == self@.len(),
                Err(e) => {
                    let bad = first_refused(self@, 0);
                    &&& bad < self@.len()
                    &&& e matches ConfigError::InvalidRegex { filter, key, .. }
                    &&& filter@ == self@[bad].name
                    &&& key == self@[bad].rule.refused_key()
                },
            },
    {
        let mut list: Vec<Ready> = Vec::new();
        let mut i: usize = 0;
        assert(ready_of(list@) =~= self@.take(0));
        while i < self.len()
            invariant
                i <= self@.len(),
                ready_of(list@) == self@.take(i as int),
                first_refused(self@, 0) == first_refused(self@, i as int),
            decreases self@.len() - i,
        {
            let entry = self.entry(i);
            match entry.filter.compile(entry.name.as_str()) {
                Ok(matcher) => {
                    let ghost before = ready_of(list@);
                    list.push(Ready { name: entry.name.clone(), matcher });
                    assert(ready_of(list@) =~= before.push(self@[i as int]));
                    assert(ready_of(list@) =~= self@.take(i + 1));
                },
                Err(e) => {
                    return Err(e);
                },
            }
            i = i + 1;
        }
        assert(self@.take(self@.len() as int) =~= self@);
        Ok(Rules { list })
    }

    /// Finds the first mailbox whose filter does not exist.
    pub fn find_missing(&self, publish: &Vec<Publish>) -> (r: usize)
        ensures
            r == first_missing(publish@, self@, 0),
            r <= publish@.len(),
    {
        let mut i: usize = 0;
        while i < publish.len() && publish[i].filter_exist(self)
            invariant
                i <= publish.len(),
                first_missing(publish@, self@, 0) == first_missing(publish@, self@, i as int),
            decreases publish.len() - i,
        {
            i = i + 1;
        }
        i
    }

    /// Checks the configuration and makes the filters ready. A mailbox
    /// whose filter does not exist is the first thing looked for; then the
    /// filters are compiled.
    pub fn validate(&self, publish: &Vec<Publish>) -> (r: Result<Rules, ConfigError>)
        ensures
            match r {
                Ok(rules) => {
                    &&& rules@ == self@
                    &&& first_missing(publish@, self@, 0) == publish@.len()
                    &&& first_refused(self@, 0) == self@.len()
                },
                Err(ConfigError::MissingFilter { name }) => {
                    let lacking = first_missing(publish@, self@, 0);
                    &&& lacking < publish@.len()
                    &&& publish@[lacking].filter matches Some(wanted)
                    &&& name@ == wanted@
                },
                Err(ConfigError::InvalidRegex { filter, key, .. }) => {
                    let bad = first_refused(self@, 0);
                    &&& first_missing(publish@, self@, 0) == publish@.len()
                    &&& bad < self@.len()
                    &&& filter@ == self@[bad].name
                    &&& key == self@[bad].rule.refused_key()
                },
            },
    {
        let lacking = self.find_missing(publish);
        proof {
            lemma_first_missing(publish@, self@, 0);
        }
        if lacking < publish.len() {
            match &publish[lacking].filter {
                Some(name) => {
                    return Err(ConfigError::MissingFilter { name: name.clone() });
                },
                None => {},
            }
        }
        self.compile()
    }
}

impl Rules {
    /// The number of filters.
    pub fn len(&self) -> (r: usize)
        ensures
            r == self@.len(),
    {
        self.list.len()
    }

    /// Looks a compiled filter up by its name.
    pub fn get(&self, name: &str) -> (r: Option<&Matcher>)
        ensures
            match r {
                Some(m) => rule_named(self@, name@) == Some(m@),
                None => rule_named(self@, name@) is None,
            },
    {
        let mut i: usize = 0;
        while i < self.list.len() && !same(self.list[i].name.as_str(), name)
            invariant
                i <= self.list.len(),
                index_of(self@, name@, 0) == index_of(self@, name@, i as int),
            decreases self.list.len() - i,
        {
            i = i + 1;
        }
        if i < self.list.len() {
            Some(&self.list[i].matcher)
        } else {
            None
        }
    }
}

/// Tells whether two strings are the same.
fn same(a: &str, b: &str) -> (r: bool)
    ensures
        r == (a@ == b@),
{
    let x = a.to_owned();
    let y = b.to_owned();
    x == y
}

} // verus!
