//! What holds of every plan of the router.

use crate::router::{plan, steps, Action, Judged};
use vstd::prelude::*;

verus! {

/// The numbers of the messages that a list of steps marks as seen, in the
/// order of the steps.
pub open spec fn marked(actions: Seq<Action>) -> Seq<u32>
    decreases actions.len(),
{
    if actions.len() == 0 {
        Seq::empty()
    } else {
        match actions.last() {
            Action::MarkSeen { uid } => marked(actions.drop_last()).push(uid),
            Action::Forward { .. } => marked(actions.drop_last()),
        }
    }
}

/// The numbers of a list of mails, in the order of the list.
pub open spec fn numbers(mails: Seq<Judged>) -> Seq<u32> {
    Seq::new(mails.len(), |i: int| mails[i].uid)
}

/// What two lists of steps mark, one after the other, is what they mark
/// end to end.
pub proof fn lemma_marked_of_both(a: Seq<Action>, b: Seq<Action>)
    ensures
        marked(a + b) == marked(a) + marked(b),
    decreases b.len(),
{
    if b.len() == 0 {
        assert(a + b =~= a);
        assert(marked(a) + marked(b) =~= marked(a));
    } else {
        assert((a + b).drop_last() =~= a + b.drop_last());
        assert((a + b).last() == b.last());
        lemma_marked_of_both(a, b.drop_last());
        assert(marked(a + b) =~= marked(a) + marked(b));
    }
}

/// The steps that forward a mail mark nothing.
pub proof fn lemma_forwarding_marks_nothing(index: int, channels: nat)
    ensures
        marked(
            Seq::new(
                channels,
                |c: int| Action::Forward { mail: index as usize, channel: c as usize },
            ),
        ) == Seq::<u32>::empty(),
    decreases channels,
{
    let all = Seq::new(
        channels,
        |c: int| Action::Forward { mail: index as usize, channel: c as usize },
    );
    if channels > 0 {
        let fewer = Seq::new(
            (channels - 1) as nat,
            |c: int| Action::Forward { mail: index as usize, channel: c as usize },
        );
        assert(all.drop_last() =~= fewer);
        lemma_forwarding_marks_nothing(index, (channels - 1) as nat);
    }
}

/// Where mail is marked as seen, every mail of the list is marked once, in
/// the order of the list and whether it was forwarded or not. Where mail is
/// not marked, none is.
pub proof fn lemma_each_mail_marked_once(mails: Seq<Judged>, channels: nat, mark_seen: bool)
    ensures
        marked(plan(mails, channels, mark_seen)) == if mark_seen {
            numbers(mails)
        } else {
            Seq::<u32>::empty()
        },
    decreases mails.len(),
{
    if mails.len() == 0 {
        assert(numbers(mails) =~= Seq::<u32>::empty());
    } else {
        let front = mails.drop_last();
        let index = mails.len() - 1;
        let sends = if mails.last().pass {
            Seq::new(
                channels,
                |c: int| Action::Forward { mail: index as usize, channel: c as usize },
            )
        } else {
            Seq::empty()
        };
        let marks = if mark_seen {
            seq![Action::MarkSeen { uid: mails.last().uid }]
        } else {
            Seq::empty()
        };
        lemma_each_mail_marked_once(front, channels, mark_seen);
        lemma_forwarding_marks_nothing(index, channels);
        lemma_marked_of_both(sends, marks);
        lemma_marked_of_both(plan(front, channels, mark_seen), sends + marks);
        assert(marked(Seq::<Action>::empty()) =~= Seq::<u32>::empty());
        if mark_seen {
            assert(marks.drop_last() =~= Seq::<Action>::empty());
            assert(marked(marks) =~= seq![mails.last().uid]);
            assert(numbers(mails) =~= numbers(front) + seq![mails.last().uid]);
        }
        assert(marked(sends + marks) =~= marked(marks));
    }
}

/// A plan forwards the mails that pass, each to every channel, and no
/// others: `Forward { mail, channel }` is a step of the plan exactly where
/// `mail` is the place of a mail that passes and `channel` the place of a
/// channel.
pub proof fn lemma_forwards_what_passes(
    mails: Seq<Judged>,
    channels: nat,
    mark_seen: bool,
    mail: usize,
    channel: usize,
)
    requires
        mails.len() <= usize::MAX,
        channels <= usize::MAX,
    ensures
        plan(mails, channels, mark_seen).contains(Action::Forward { mail, channel }) <==> (mail
            < mails.len() && mails[mail as int].pass && channel < channels),
    decreases mails.len(),
{
    let wanted = Action::Forward { mail, channel };
    if mails.len() > 0 {
        let front = mails.drop_last();
        let index = mails.len() - 1;
        let before = plan(front, channels, mark_seen);
        let last = steps(index, mails.last(), channels, mark_seen);
        lemma_forwards_what_passes(front, channels, mark_seen, mail, channel);
        let here = mail == index && mails.last().pass && channel < channels;
        if here {
            assert(last[channel as int] == wanted);
            assert((before + last)[before.len() + channel] == wanted);
        }
        if last.contains(wanted) {
            let k = choose|k: int| 0 <= k < last.len() && last[k] == wanted;
            assert(here);
        }
        if (before + last).contains(wanted) {
            let k = choose|k: int| 0 <= k < (before + last).len() && (before + last)[k] == wanted;
            if k < before.len() {
                assert(before[k] == wanted);
            } else {
                assert(last[k - before.len()] == wanted);
            }
        }
        if before.contains(wanted) {
            let k = choose|k: int| 0 <= k < before.len() && before[k] == wanted;
            assert((before + last)[k] == wanted);
        }
    }
}

} // verus!
