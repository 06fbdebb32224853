//! What the relay says in a channel about a mail.

use crate::config::default::Slack;
use crate::imap_extention::fetch::Mail;
use vstd::prelude::*;
use vstd::string::StringExecFns;

verus! {

/// One message to a channel.
#[derive(Debug, Clone, PartialEq, Eq)]
pub struct Notification {
    /// The line above the mail: who sent it, and to whom.
    pub pretext: String,
    /// The subject of the mail.
    pub title: String,
    /// The text of the mail.
    pub text: String,
    /// The channel the message goes to.
    pub channel: String,
    /// The name under which the relay posts.
    pub username: String,
    /// The picture beside the name, between colons.
    pub icon_emoji: String,
}

/// The line that says who sent a mail, and to whom.
pub open spec fn sender_line(from: Seq<char>, to: Seq<char>) -> Seq<char> {
    "From:\t\t"@ + from + "\nTo:\t\t\t"@ + to
}

/// The name of a picture, between colons.
pub open spec fn emoji_code(emoji: Seq<char>) -> Seq<char> {
    ":"@ + emoji + ":"@
}

/// Writes the message that tells a channel of a mail.
pub fn compose(mail: &Mail, channel: &String, slack: &Slack) -> (r: Notification)
    ensures
        r.pretext@ == sender_line(mail@.from, mail@.to),
        r.title@ == mail@.subject,
        r.text@ == mail@.text,
        r.channel@ == channel@,
        r.username@ == slack.username@,
        r.icon_emoji@ == emoji_code(slack.emoji@),
{
    let mut pretext: String = "From:\t\t".to_owned();
    pretext.append(mail.from.as_str());
    pretext.append("\nTo:\t\t\t");
    pretext.append(mail.to.as_str());
    let mut icon_emoji: String = ":".to_owned();
    icon_emoji.append(slack.emoji.as_str());
    icon_emoji.append(":");
    Notification {
        pretext,
        title: mail.subject.clone(),
        text: mail.text.clone(),
        channel: channel.clone(),
        username: slack.username.clone(),
        icon_emoji,
    }
}

/// Writes the messages that tell the channels of a mailbox of a mail, one
/// for each channel, in the order of the channels.
pub fn compose_all(mail: &Mail, channels: &Vec<String>, slack: &Slack) -> (r: Vec<Notification>)
    ensures
        r@.len() == channels@.len(),
        forall|i: int|
            0 <= i < channels@.len() ==> {
                &&& (#[trigger] r@[i]).pretext@ == sender_line(mail@.from, mail@.to)
                &&& r@[i].title@ == mail@.subject
                &&& r@[i].text@ == mail@.text
                &&& r@[i].channel@ == channels@[i]@
                &&& r@[i].username@ == slack.username@
                &&& r@[i].icon_emoji@ == emoji_code(slack.emoji@)
            },
{
    let mut out: Vec<Notification> = Vec::new();
    let mut i: usize = 0;
    while i < channels.len()
        invariant
            i <= channels.len(),
            out@.len() == i,
            forall|k: int|
                0 <= k < i ==> {
                    &&& (#[trigger] out@[k]).pretext@ == sender_line(mail@.from, mail@.to)
                    &&& out@[k].title@ == mail@.subject
                    &&& out@[k].text@ == mail@.text
                    &&& out@[k].channel@ == channels@[k]@
                    &&& out@[k].username@ == slack.username@
                    &&& out@[k].icon_emoji@ == emoji_code(slack.emoji@)
                },
        decreases channels.len() - i,
    {
        out.push(compose(mail, &channels[i], slack));
        i = i + 1;
    }
    out
}

} // verus!
