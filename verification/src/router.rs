//! What is done with the mail of one mailbox.
//!
//! The relay looks at the mail of a mailbox in the order in which the
//! server listed it. A mail that passes the filter of the mailbox, or any
//! mail where the mailbox has no filter, is sent to every channel of the
//! mailbox. Forwarded or not, each mail is then marked as seen, if the
//! settings say so. The library plans these steps; the program around it
//! takes them.

use crate::config::default::Publish;
use crate::config::filter::{rule_named, ConfigError, Named, Rule};
use crate::config::rules::Rules;
use crate::imap_extention::fetch::{letters_of, Letter, Mail};
use vstd::prelude::*;

verus! {

/// One step of the relay.
#[derive(Debug, Clone, Copy, PartialEq, Eq, Structural)]
pub enum Action {
    /// Send the mail at place `mail` of the list to the channel at place
    /// `channel` of the mailbox.
    Forward { mail: usize, channel: usize },
    /// Ask the server to mark the message with this number as seen.
    MarkSeen { uid: u32 },
}

/// A mail that has been judged: its number, and whether it is forwarded.
#[derive(Debug, Clone, Copy, PartialEq, Eq, Structural)]
pub struct Judged {
    pub uid: u32,
    pub pass: bool,
}

/// Whether a mail is forwarded: it is where there is no filter, and where
/// the filter accepts it.
pub open spec fn forwarded(rule: Option<Rule>, letter: Letter) -> bool {
    match rule {
        Some(r) => r.accepts(letter.subject, letter.text),
        None => true,
    }
}

/// The list of mails, judged by the rule of the mailbox.
pub open spec fn judged_by(rule: Option<Rule>, letters: Seq<Letter>) -> Seq<Judged> {
    Seq::new(
        letters.len(),
        |i: int| Judged { uid: letters[i].uid as u32, pass: forwarded(rule, letters[i]) },
    )
}

/// The steps for the mail at place `index`: one `Forward` for each channel,
/// first channel first, if the mail is forwarded; then one `MarkSeen`, if
/// mail is marked.
pub open spec fn steps(index: int, mail: Judged, channels: nat, mark_seen: bool) -> Seq<Action> {
    (if mail.pass {
        Seq::new(channels, |c: int| Action::Forward { mail: index as usize, channel: c as usize })
    } else {
        Seq::empty()
    }) + (if mark_seen {
        seq![Action::MarkSeen { uid: mail.uid }]
    } else {
        Seq::empty()
    })
}

/// The steps for a list of mails: the steps for each, first mail first.
pub open spec fn plan(mails: Seq<Judged>, channels: nat, mark_seen: bool) -> Seq<Action>
    decreases mails.len(),
{
    if mails.len() == 0 {
        Seq::empty()
    } else {
        plan(mails.drop_last(), channels, mark_seen) + steps(
            mails.len() - 1,
            mails.last(),
            channels,
            mark_seen,
        )
    }
}

/// The rule of a mailbox among the compiled filters: `None` for a mailbox
/// without a filter.
pub open spec fn rule_of(publish: Publish, table: Seq<Named>) -> Option<Rule> {
    match publish.filter {
        Some(name) => rule_named(table, name@),
        None => None,
    }
}

/// Whether a mailbox names a filter that is not among the compiled ones.
pub open spec fn lacks_filter(publish: Publish, table: Seq<Named>) -> bool {
    publish.filter matches Some(name) && rule_named(table, name@) is None
}

/// Plans the steps for mails that have been judged.
pub fn plan_actions(mails: &Vec<Judged>, channels: usize, mark_seen: bool) -> (r: Vec<Action>)
    ensures
        r@ == plan(mails@, channels as nat, mark_seen),
{
    let mut out: Vec<Action> = Vec::new();
    let mut i: usize = 0;
    assert(mails@.take(0) =~= Seq::<Judged>::empty());
    while i < mails.len()
        invariant
            i <= mails.len(),
            out@ == plan(mails@.take(i as int), channels as nat, mark_seen),
        decreases mails.len() - i,
    {
        let ghost before = out@;
        let mail = mails[i];
        if mail.pass {
            let mut c: usize = 0;
            while c < channels
                invariant
                    c <= channels,
                    out@ == before + Seq::new(
                        c as nat,
                        |k: int| Action::Forward { mail: i, channel: k as usize },
                    ),
                decreases channels - c,
            {
                out.push(Action::Forward { mail: i, channel: c });
                c = c + 1;
            }
        }
        if mark_seen {
            out.push(Action::MarkSeen { uid: mail.uid });
        }
        proof {
            assert(mails@.take(i + 1).drop_last() =~= mails@.take(i as int));
            assert(mails@.take(i + 1).last() == mail);
            assert(out@ =~= before + steps(i as int, mail, channels as nat, mark_seen));
        }
        i = i + 1;
    }
    assert(mails@.take(mails.len() as int) =~= mails@);
    out
}

/// Judges the mail of a mailbox by the filter of the mailbox. A mailbox
/// that names a filter that does not exist has its mail judged by nobody:
/// that is an error of the configuration.
pub fn judge(publish: &Publish, rules: &Rules, mails: &Vec<Mail>) -> (r: Result<
    Vec<Judged>,
    ConfigError,
>)
    ensures
        match r {
            Ok(list) => !lacks_filter(*publish, rules@) && list@ == judged_by(
                rule_of(*publish, rules@),
                letters_of(mails@),
            ),
            Err(e) => {
                &&& lacks_filter(*publish, rules@)
                &&& e matches ConfigError::MissingFilter { name }
                &&& publish.filter matches Some(wanted)
                &&& name@ == wanted@
            },
        },
{
    let matcher = match &publish.filter {
        None => None,
        Some(name) => match rules.get(name.as_str()) {
            Some(m) => Some(m),
            None => {
                return Err(ConfigError::MissingFilter { name: name.clone() });
            },
        },
    };
    let ghost rule = rule_of(*publish, rules@);
    let mut out: Vec<Judged> = Vec::new();
    let mut i: usize = 0;
    while i < mails.len()
        invariant
            i <= mails.len(),
            rule == rule_of(*publish, rules@),
            match matcher {
                Some(m) => rule == Some(m@),
                None => rule is None,
            },
            out@ == judged_by(rule, letters_of(mails@)).take(i as int),
        decreases mails.len() - i,
    {
        let pass = match matcher {
            Some(m) => m.check(&mails[i]),
            None => true,
        };
        out.push(Judged { uid: mails[i].uid, pass });
        assert(out@ =~= judged_by(rule, letters_of(mails@)).take(i + 1));
        i = i + 1;
    }
    assert(judged_by(rule, letters_of(mails@)).take(mails.len() as int) =~= judged_by(
        rule,
        letters_of(mails@),
    ));
    Ok(out)
}

/// Plans what is done with the mail of a mailbox.
pub fn route(publish: &Publish, rules: &Rules, mails: &Vec<Mail>, mark_seen: bool) -> (r: Result<
    Vec<Action>,
    ConfigError,
>)
    ensures
        match r {
            Ok(actions) => !lacks_filter(*publish, rules@) && actions@ == plan(
                judged_by(rule_of(*publish, rules@), letters_of(mails@)),
                publish.channel@.len(),
                mark_seen,
            ),
            Err(e) => {
                &&& lacks_filter(*publish, rules@)
                &&& e matches ConfigError::MissingFilter { name }
                &&& publish.filter matches Some(wanted)
                &&& name@ == wanted@
            },
        },
{
    match judge(publish, rules, mails) {
        Ok(list) => Ok(plan_actions(&list, publish.channel.len(), mark_seen)),
        Err(e) => Err(e),
    }
}

} // verus!
