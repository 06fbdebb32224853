//! The settings of the relay: where mail is read, where it goes, and how
//! the relay runs.

use crate::config::filter::rule_named;
use crate::timestamp::{since, start_time};
use vstd::prelude::*;

verus! {

/// The mail server and the account on it.
#[derive(Debug, Clone)]
pub struct Mail {
    pub imap: String,
    pub port: u16,
    pub username: String,
    pub password: String,
}

/// The chat service and the name under which the relay posts.
#[derive(Debug, Clone)]
pub struct Slack {
    pub webhook: String,
    pub username: String,
    pub emoji: String,
}

/// One mailbox, the channels its mail goes to, and the name of the filter
/// that its mail has to pass, if any.
#[derive(Debug, Clone)]
pub struct Publish {
    pub mailbox: String,
    pub channel: Vec<String>,
    pub filter: Option<String>,
}

/// All settings. The four switches may be left out; each then has its
/// default.
#[derive(Debug, Clone)]
pub struct Config {
    pub service: bool,
    pub sleep_time: u64,
    pub mark_mail_as_seen: Option<bool>,
    pub debug: Option<bool>,
    pub debug_imap: Option<bool>,
    pub use_timestamp: Option<bool>,
    pub mail: Mail,
    pub slack: Slack,
    pub publish: Vec<Publish>,
}

/// A switch that may have been left out, with the value it then has.
pub open spec fn switch(set: Option<bool>, default: bool) -> bool {
    match set {
        Some(b) => b,
        None => default,
    }
}

impl Config {
    /// Whether mail is marked as seen once it has been looked at. It is,
    /// unless the operator says otherwise.
    pub fn mark_mail_as_seen(&self) -> (r: bool)
        ensures
            r == switch(self.mark_mail_as_seen, true),
    {
        self.mark_mail_as_seen.unwrap_or(true)
    }

    /// Whether the relay prints what it does. It does not, unless asked to.
    pub fn debug(&self) -> (r: bool)
        ensures
            r == switch(self.debug, false),
    {
        self.debug.unwrap_or(false)
    }

    /// Whether the talk with the mail server is printed. It is not, unless
    /// asked for.
    pub fn debug_imap(&self) -> (r: bool)
        ensures
            r == switch(self.debug_imap, false),
    {
        self.debug_imap.unwrap_or(false)
    }

    /// Whether mail is looked for by its date and not by its flags. It is
    /// not, unless asked for.
    pub fn use_timestamp(&self) -> (r: bool)
        ensures
            r == switch(self.use_timestamp, false),
    {
        self.use_timestamp.unwrap_or(false)
    }
}

impl Config {
    /// The time from which mail is looked at in this run, in seconds since
    /// 1970: the time that the last run stored, and the present time `now`
    /// where nothing is stored or what is stored names no time.
    pub fn get_timestamp(&self, stored: Option<&[u8]>, now: i64) -> (r: i64)
        ensures
            r == start_time(
                match stored {
                    Some(s) => Some(s@),
                    None => None,
                },
                now,
            ),
    {
        since(stored, now)
    }
}

impl Publish {
    /// The name of the filter of this mailbox.
    pub fn filter(&self) -> (r: Option<&String>)
        ensures
            match r {
                Some(name) => self.filter == Some(*name),
                None => self.filter is None,
            },
    {
        self.filter.as_ref()
    }

    /// Whether the filter of this mailbox exists. A mailbox without a
    /// filter lacks nothing.
    pub fn filter_exist(&self, filters: &crate::config::filter::Config) -> (r: bool)
        ensures
            r == match self.filter {
                Some(name) => rule_named(filters@, name@) is Some,
                None => true,
            },
    {
        match &self.filter {
            Some(name) => filters.check_exist(name).is_some(),
            None => true,
        }
    }
}

/// The settings that a new installation starts from.
pub fn config_template() -> (r: Config)
    ensures
        r.service,
        r.sleep_time == 5,
        r.mark_mail_as_seen == Some(true),
        r.debug == Some(false),
        r.debug_imap == Some(false),
        r.use_timestamp == Some(false),
        r.mail.imap@ == "imap.domain.com"@,
        r.mail.port == 993,
        r.mail.username@ == "my@mail.com"@,
        r.mail.password@ == "*******"@,
        r.slack.webhook@ == "https://hooks.slack.com/services/xxx/yyy/zzz"@,
        r.slack.username@ == "BOT"@,
        r.slack.emoji@ == "+1"@,
        r.publish@.len() == 2,
        r.publish@[0].mailbox@ == "Inbox"@,
        r.publish@[0].channel@.len() == 2,
        r.publish@[0].channel@[0]@ == "#testing_1"@,
        r.publish@[0].channel@[1]@ == "#testing_2"@,
        r.publish@[0].filter is None,
        r.publish@[1].mailbox@ == "Archive"@,
        r.publish@[1].channel@.len() == 1,
        r.publish@[1].channel@[0]@ == "#general"@,
        r.publish@[1].filter matches Some(name) && name@ == "Filter_1"@,
{
    let mut testing: Vec<String> = Vec::new();
    testing.push("#testing_1".to_owned());
    testing.push("#testing_2".to_owned());
    let mut general: Vec<String> = Vec::new();
    general.push("#general".to_owned());
    let mut publish: Vec<Publish> = Vec::new();
    publish.push(Publish { mailbox: "Inbox".to_owned(), channel: testing, filter: None });
    publish.push(
        Publish {
            mailbox: "Archive".to_owned(),
            channel: general,
            filter: Some("Filter_1".to_owned()),
        },
    );
    Config {
        service: true,
        sleep_time: 5,
        mark_mail_as_seen: Some(true),
        debug: Some(false),
        debug_imap: Some(false),
        use_timestamp: Some(false),
        mail: Mail {
            imap: "imap.domain.com".to_owned(),
            port: 993,
            username: "my@mail.com".to_owned(),
            password: "*******".to_owned(),
        },
        slack: Slack {
            webhook: "https://hooks.slack.com/services/xxx/yyy/zzz".to_owned(),
            username: "BOT".to_owned(),
            emoji: "+1".to_owned(),
        },
        publish,
    }
}

} // verus!
