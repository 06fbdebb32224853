//! From the reply to a FETCH command to a mail that can be forwarded.

use crate::bytes::{matches_at, same_bytes, to_vec};
use crate::imap_extention::decode::{
    decode_text, decoded_text, read_text, says, text_of, DecodeError,
};
use crate::imap_extention::literal::{
    assemble, assembled, chunks_of, Message, ProtocolParseError, RawMessage,
};
use crate::imap_extention::mime::{
    fields_of, is_multipart, lemma_view_children, lookup, mime_tree, parse_mail, parts_of,
    text_plain, value_of, Field, Header, MimePart, Part, MAX_NESTING,
};
use vstd::prelude::*;
use vstd::string::StringSliceAdditionalSpecFns;

verus! {

/// One mail, ready to be judged by a filter and forwarded.
#[derive(Debug, PartialEq, Eq)]
pub struct Mail {
    pub uid: u32,
    pub flags: String,
    pub from: String,
    pub to: String,
    pub cc: String,
    pub bcc: String,
    pub reply_to: String,
    pub subject: String,
    pub date: String,
    pub text: String,
    /// Every field of the header under its name in lower case, each name
    /// once: of the fields with one name the first is kept.
    pub headers: Vec<Header>,
}

/// A `Mail`, seen as plain values.
pub struct Letter {
    pub uid: nat,
    pub flags: Seq<char>,
    pub from: Seq<char>,
    pub to: Seq<char>,
    pub cc: Seq<char>,
    pub bcc: Seq<char>,
    pub reply_to: Seq<char>,
    pub subject: Seq<char>,
    pub date: Seq<char>,
    pub text: Seq<char>,
    pub headers: Seq<Field>,
}

impl View for Mail {
    type V = Letter;

    open spec fn view(&self) -> Letter {
        Letter {
            uid: self.uid as nat,
            flags: self.flags@,
            from: self.from@,
            to: self.to@,
            cc: self.cc@,
            bcc: self.bcc@,
            reply_to: self.reply_to@,
            subject: self.subject@,
            date: self.date@,
            text: self.text@,
            headers: fields_of(self.headers@),
        }
    }
}

/// The leaves of content type `text/plain` below a part, in the order in
/// which they stand in the message: a container gives the leaves of its
/// parts, first part first; a leaf gives itself if it is `text/plain`.
pub open spec fn text_leaves(part: Part) -> Seq<Part>
    decreases part,
{
    if is_multipart(part.content_type) {
        leaves_of(part.children)
    } else if part.content_type == text_plain() {
        seq![part]
    } else {
        Seq::empty()
    }
}

/// The `text/plain` leaves below a list of parts, first part first.
pub open spec fn leaves_of(parts: Seq<Part>) -> Seq<Part>
    decreases parts,
{
    if parts.len() == 0 {
        Seq::empty()
    } else {
        leaves_of(parts.drop_last()) + text_leaves(parts.last())
    }
}

/// A list of borrowed parts, seen as plain values.
pub open spec fn leaf_views(parts: Seq<&MimePart>) -> Seq<Part> {
    Seq::new(parts.len(), |i: int| parts[i]@)
}

/// The text that is forwarded for a message: the text of the first
/// `text/plain` leaf, and no text at all where the message has no such leaf.
pub open spec fn body_text(part: Part) -> Result<Seq<char>, DecodeError> {
    if text_leaves(part).len() == 0 {
        Ok(Seq::empty())
    } else {
        decoded_text(text_leaves(part)[0].headers, text_leaves(part)[0].body)
    }
}

/// Adds the `text/plain` leaves below `mail_body` to `mbp`, in the order in
/// which they stand in the message.
pub fn find_mail_body_parts<'a>(mbp: &mut Vec<&'a MimePart>, mail_body: &'a MimePart)
    ensures
        leaf_views(final(mbp)@) == leaf_views(old(mbp)@) + text_leaves(mail_body@),
    decreases mail_body,
{
    proof {
        lemma_view_children(*mail_body);
    }
    let ghost start = leaf_views(mbp@);
    if matches_at(mail_body.content_type.as_slice(), 0, "multipart/".as_bytes()) {
        let ghost kids = parts_of(mail_body.children@);
        let mut i: usize = 0;
        assert(kids.take(0) =~= Seq::<Part>::empty());
        assert(start + leaves_of(kids.take(0)) =~= start);
        while i < mail_body.children.len()
            invariant
                i <= mail_body.children.len(),
                kids == parts_of(mail_body.children@),
                leaf_views(mbp@) == start + leaves_of(kids.take(i as int)),
            decreases mail_body.children.len() - i,
        {
            let ghost before = leaf_views(mbp@);
            find_mail_body_parts(mbp, &mail_body.children[i]);
            proof {
                assert(kids.take(i + 1).drop_last() =~= kids.take(i as int));
                assert(kids.take(i + 1).last() == mail_body.children@[i as int]@);
                assert(leaf_views(mbp@) =~= start + leaves_of(kids.take(i + 1)));
            }
            i = i + 1;
        }
        assert(kids.take(mail_body.children.len() as int) =~= kids);
    } else if same_bytes(mail_body.content_type.as_slice(), "text/plain".as_bytes()) {
        mbp.push(mail_body);
        assert(leaf_views(mbp@) =~= start + seq![mail_body@]);
    } else {
        assert(leaf_views(mbp@) =~= start + Seq::<Part>::empty());
    }
}

/// Chooses the text to forward and decodes it.
pub fn resolve_body(part: &MimePart) -> (r: Result<String, DecodeError>)
    ensures
        says(r, body_text(part@)),
{
    let mut leaves: Vec<&MimePart> = Vec::new();
    assert(leaf_views(leaves@) =~= Seq::<Part>::empty());
    find_mail_body_parts(&mut leaves, part);
    assert(leaf_views(leaves@) =~= text_leaves(part@));
    if leaves.len() == 0 {
        Ok(String::new())
    } else {
        let leaf: &MimePart = leaves[0];
        proof {
            lemma_view_children(*leaf);
            assert(leaf_views(leaves@)[0] == leaf@);
        }
        decode_text(&leaf.headers, leaf.body.as_slice())
    }
}

/// Why a reply did not give a mail.
#[derive(Debug, Clone, Copy, PartialEq, Eq, Structural)]
pub enum FetchError {
    /// The reply could not be read.
    Protocol(ProtocolParseError),
    /// The message could not be turned into text.
    Decode(DecodeError),
}

/// The value of a header field read as text; no text where the header has
/// no such field.
pub open spec fn header_text(headers: Seq<Field>, name: Seq<u8>) -> Result<
    Seq<char>,
    DecodeError,
> {
    match value_of(headers, name) {
        Some(v) => text_of(v),
        None => Ok(Seq::empty()),
    }
}

/// The error of the first text that could not be read, if any.
pub open spec fn first_error(texts: Seq<Result<Seq<char>, DecodeError>>) -> Option<DecodeError>
    decreases texts.len(),
{
    if texts.len() == 0 {
        None
    } else {
        match texts[0] {
            Err(e) => Some(e),
            Ok(_) => first_error(texts.skip(1)),
        }
    }
}

/// The texts of a mail in the order in which they are read: the flags, the
/// fields `From`, `To`, `Cc`, `Bcc`, `Reply-To`, `Subject` and `Date`, and
/// the text to forward.
pub open spec fn texts_of(message: Message) -> Seq<Result<Seq<char>, DecodeError>> {
    let tree = mime_tree(message.data, MAX_NESTING as nat);
    seq![
        text_of(message.flags),
        header_text(tree.headers, "from".spec_bytes()),
        header_text(tree.headers, "to".spec_bytes()),
        header_text(tree.headers, "cc".spec_bytes()),
        header_text(tree.headers, "bcc".spec_bytes()),
        header_text(tree.headers, "reply-to".spec_bytes()),
        header_text(tree.headers, "subject".spec_bytes()),
        header_text(tree.headers, "date".spec_bytes()),
        body_text(tree),
    ]
}

/// The mail that a message gives. Every text of it has to be UTF-8, and
/// the transfer encoding of the text to forward has to be known: the first
/// text that cannot be read gives the error.
pub open spec fn letter_of(message: Message) -> Result<Letter, DecodeError> {
    let texts = texts_of(message);
    match first_error(texts) {
        Some(e) => Err(e),
        None => Ok(
            Letter {
                uid: message.id,
                flags: texts[0]->Ok_0,
                from: texts[1]->Ok_0,
                to: texts[2]->Ok_0,
                cc: texts[3]->Ok_0,
                bcc: texts[4]->Ok_0,
                reply_to: texts[5]->Ok_0,
                subject: texts[6]->Ok_0,
                date: texts[7]->Ok_0,
                text: texts[8]->Ok_0,
                headers: mime_tree(message.data, MAX_NESTING as nat).headers,
            },
        ),
    }
}

/// The mail that the reply to a FETCH gives.
pub open spec fn fetched(chunks: Seq<Seq<u8>>) -> Result<Letter, FetchError> {
    match assembled(chunks) {
        Err(e) => Err(FetchError::Protocol(e)),
        Ok(message) => match letter_of(message) {
            Err(e) => Err(FetchError::Decode(e)),
            Ok(letter) => Ok(letter),
        },
    }
}

/// Reads the value of a header field as text.
pub fn header_string(headers: &Vec<Header>, name: &[u8]) -> (r: Result<String, DecodeError>)
    ensures
        says(r, header_text(fields_of(headers@), name@)),
{
    match lookup(headers, name) {
        Some(v) => read_text(to_vec(v.as_slice())),
        None => Ok(String::new()),
    }
}

/// Makes a mail of a message as the server sent it.
pub fn build_mail(raw: &RawMessage) -> (r: Result<Mail, DecodeError>)
    ensures
        match r {
            Ok(mail) => letter_of(raw@) == Ok::<Letter, DecodeError>(mail@),
            Err(e) => letter_of(raw@) == Err::<Letter, DecodeError>(e),
        },
{
    let tree = parse_mail(raw.data.as_slice());
    proof {
        lemma_view_children(tree);
        reveal_with_fuel(first_error, 10);
    }
    let flags = match read_text(to_vec(raw.flags.as_slice())) {
        Ok(s) => s,
        Err(e) => {
            return Err(e);
        },
    };
    let from = match header_string(&tree.headers, "from".as_bytes()) {
        Ok(s) => s,
        Err(e) => {
            return Err(e);
        },
    };
    let to = match header_string(&tree.headers, "to".as_bytes()) {
        Ok(s) => s,
        Err(e) => {
            return Err(e);
        },
    };
    let cc = match header_string(&tree.headers, "cc".as_bytes()) {
        Ok(s) => s,
        Err(e) => {
            return Err(e);
        },
    };
    let bcc = match header_string(&tree.headers, "bcc".as_bytes()) {
        Ok(s) => s,
        Err(e) => {
            return Err(e);
        },
    };
    let reply_to = match header_string(&tree.headers, "reply-to".as_bytes()) {
        Ok(s) => s,
        Err(e) => {
            return Err(e);
        },
    };
    let subject = match header_string(&tree.headers, "subject".as_bytes()) {
        Ok(s) => s,
        Err(e) => {
            return Err(e);
        },
    };
    let date = match header_string(&tree.headers, "date".as_bytes()) {
        Ok(s) => s,
        Err(e) => {
            return Err(e);
        },
    };
    let text = match resolve_body(&tree) {
        Ok(s) => s,
        Err(e) => {
            return Err(e);
        },
    };
    let headers = tree.headers;
    Ok(Mail { uid: raw.id, flags, from, to, cc, bcc, reply_to, subject, date, text, headers })
}

/// Makes a mail of the reply to a FETCH.
pub fn read_mail(fragments: &Vec<Vec<u8>>) -> (r: Result<Mail, FetchError>)
    ensures
        match r {
            Ok(mail) => fetched(chunks_of(fragments@)) == Ok::<Letter, FetchError>(mail@),
            Err(e) => fetched(chunks_of(fragments@)) == Err::<Letter, FetchError>(e),
        },
{
    match assemble(fragments) {
        Err(e) => Err(FetchError::Protocol(e)),
        Ok(raw) => match build_mail(&raw) {
            Err(e) => Err(FetchError::Decode(e)),
            Ok(mail) => Ok(mail),
        },
    }
}

/// What a batch of replies gives: the mails, and the places in the batch
/// of the replies that could not be read.
#[derive(Debug)]
pub struct Batch {
    pub mails: Vec<Mail>,
    pub skipped: Vec<usize>,
}

/// A `Batch`, seen as plain values.
pub struct Sorted {
    pub mails: Seq<Letter>,
    pub skipped: Seq<usize>,
}

/// A list of mails, seen as plain values.
pub open spec fn letters_of(mails: Seq<Mail>) -> Seq<Letter> {
    Seq::new(mails.len(), |i: int| mails[i]@)
}

impl View for Batch {
    type V = Sorted;

    open spec fn view(&self) -> Sorted {
        Sorted { mails: letters_of(self.mails@), skipped: self.skipped@ }
    }
}

/// A batch of replies, each in chunks, as plain sequences.
pub open spec fn streams_of(batch: Seq<Vec<Vec<u8>>>) -> Seq<Seq<Seq<u8>>> {
    Seq::new(batch.len(), |i: int| chunks_of(batch[i]@))
}

/// What a batch of replies gives, reply by reply in the order in which they
/// came. A reply that cannot be read is left out and its place noted; this
/// does not touch the replies around it. A message that cannot be turned
/// into text ends the batch with its error.
pub open spec fn sorted(streams: Seq<Seq<Seq<u8>>>) -> Result<Sorted, DecodeError>
    decreases streams.len(),
{
    if streams.len() == 0 {
        Ok(Sorted { mails: Seq::empty(), skipped: Seq::empty() })
    } else {
        match sorted(streams.drop_last()) {
            Err(e) => Err(e),
            Ok(before) => match fetched(streams.last()) {
                Ok(letter) => Ok(
                    Sorted { mails: before.mails.push(letter), skipped: before.skipped },
                ),
                Err(FetchError::Protocol(_)) => Ok(
                    Sorted {
                        mails: before.mails,
                        skipped: before.skipped.push((streams.len() - 1) as usize),
                    },
                ),
                Err(FetchError::Decode(e)) => Err(e),
            },
        }
    }
}

/// An error among the first replies of a batch is the error of the batch.
pub proof fn lemma_error_ends_batch(streams: Seq<Seq<Seq<u8>>>, n: int)
    requires
        0 <= n <= streams.len(),
        sorted(streams.take(n)) is Err,
    ensures
        sorted(streams) == sorted(streams.take(n)),
    decreases streams.len() - n,
{
    if n < streams.len() {
        assert(streams.take(n + 1).drop_last() =~= streams.take(n));
        lemma_error_ends_batch(streams, n + 1);
    } else {
        assert(streams.take(n) =~= streams);
    }
}

/// Makes mails of a batch of replies.
pub fn read_mails(batch: &Vec<Vec<Vec<u8>>>) -> (r: Result<Batch, DecodeError>)
    ensures
        match r {
            Ok(b) => sorted(streams_of(batch@)) == Ok::<Sorted, DecodeError>(b@),
            Err(e) => sorted(streams_of(batch@)) == Err::<Sorted, DecodeError>(e),
        },
{
    let ghost streams = streams_of(batch@);
    let mut mails: Vec<Mail> = Vec::new();
    let mut skipped: Vec<usize> = Vec::new();
    let mut i: usize = 0;
    assert(streams.take(0) =~= Seq::<Seq<Seq<u8>>>::empty());
    assert(letters_of(mails@) =~= Seq::<Letter>::empty());
    while i < batch.len()
        invariant
            i <= batch.len(),
            streams == streams_of(batch@),
            sorted(streams.take(i as int)) == Ok::<Sorted, DecodeError>(
                Sorted { mails: letters_of(mails@), skipped: skipped@ },
            ),
        decreases batch.len() - i,
    {
        let ghost before = letters_of(mails@);
        proof {
            assert(streams.take(i + 1).drop_last() =~= streams.take(i as int));
            assert(streams.take(i + 1).last() == chunks_of(batch@[i as int]@));
        }
        match read_mail(&batch[i]) {
            Ok(mail) => {
                mails.push(mail);
                assert(letters_of(mails@) =~= before.push(mail@));
            },
            Err(FetchError::Protocol(_)) => {
                skipped.push(i);
            },
            Err(FetchError::Decode(e)) => {
                proof {
                    lemma_error_ends_batch(streams, i + 1);
                }
                return Err(e);
            },
        }
        i = i + 1;
    }
    assert(streams.take(batch.len() as int) =~= streams);
    Ok(Batch { mails, skipped })
}

} // verus!
