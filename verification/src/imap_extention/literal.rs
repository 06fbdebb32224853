//! Rebuilding a message from the reply to a FETCH command.
//!
//! The reply to `FETCH <n> (FLAGS BODY.PEEK[])` arrives as a sequence of byte
//! chunks. Put end to end, they read
//!
//! ```text
//! * <id> FETCH (FLAGS (<flags>) ... {<size>}CRLF<size bytes> ...
//! ```
//!
//! A `{<size>}CRLF` announces a *literal*: the `<size>` bytes that follow
//! belong to the message, whatever they are. Everything else frames the
//! reply and is dropped.

use crate::bytes::{
    decimal, digits_end, find_byte, holds_at, lemma_find_byte, matches_at, scan_digits,
    seek_byte, CR, LF, SPACE,
};
use vstd::prelude::*;

verus! {

pub const STAR: u8 = 0x2a;

pub const CLOSE_PAREN: u8 = 0x29;

pub const OPEN_BRACE: u8 = 0x7b;

pub const CLOSE_BRACE: u8 = 0x7d;

/// Why the reply to a FETCH command could not be read.
#[derive(Debug, Clone, Copy, PartialEq, Eq, Structural)]
pub enum ProtocolParseError {
    /// No chunk begins with the response marker `*`.
    NoResponse,
    /// The reply does not begin with `* <id> FETCH (FLAGS (<flags>)`.
    BadStatusLine,
    /// The message number is too large for a `u32`.
    IdOutOfRange,
    /// A literal announces more bytes than the reply holds.
    TruncatedLiteral,
}

/// One message as the server sent it.
#[derive(Debug, Clone, PartialEq, Eq)]
pub struct RawMessage {
    /// The number the server gave the message.
    pub id: u32,
    /// The flags, as the text between the brackets of `FLAGS (...)`.
    pub flags: Vec<u8>,
    /// The message: its header, an empty line, its body.
    pub data: Vec<u8>,
}

/// A `RawMessage`, seen as plain values.
pub struct Message {
    pub id: nat,
    pub flags: Seq<u8>,
    pub data: Seq<u8>,
}

impl View for RawMessage {
    type V = Message;

    open spec fn view(&self) -> Message {
        Message { id: self.id as nat, flags: self.flags@, data: self.data@ }
    }
}

/// What the opening of a reply says: the message number, the flags, and the
/// index at which the rest of the reply begins.
pub struct StatusLine {
    pub id: nat,
    pub flags: Seq<u8>,
    pub end: int,
}

/// What announces a literal: the number of bytes it declares, and the index
/// of the first of them.
pub struct Marker {
    pub size: nat,
    pub start: int,
}

/// The bytes of ` FETCH (FLAGS (`, which stand between the message number
/// and the flags.
pub open spec fn fetch_keyword() -> Seq<u8> {
    seq![
        0x20u8, 0x46u8, 0x45u8, 0x54u8, 0x43u8, 0x48u8, 0x20u8, 0x28u8,
        0x46u8, 0x4cu8, 0x41u8, 0x47u8, 0x53u8, 0x20u8, 0x28u8,
    ]
}

/// Reads `* <id> FETCH (FLAGS (<flags>)` at the start of `s`: a star, a
/// space, at least one digit, the keyword, then the flags up to the first
/// closing bracket.
pub open spec fn status_line(s: Seq<u8>) -> Option<StatusLine> {
    let e = digits_end(s, 2);
    let f = e + fetch_keyword().len();
    let c = find_byte(s, f, CLOSE_PAREN);
    if s.len() >= 2 && s[0] == STAR && s[1] == SPACE && e > 2 && holds_at(s, e, fetch_keyword())
        && c < s.len() {
        Some(StatusLine { id: decimal(s.subrange(2, e)), flags: s.subrange(f, c), end: c + 1 })
    } else {
        None
    }
}

/// Reads `{<size>}CRLF` at index `i` of `s`: an opening brace, at least one
/// digit, a closing brace, a carriage return and a line feed.
pub open spec fn marker_at(s: Seq<u8>, i: int) -> Option<Marker> {
    let e = digits_end(s, i + 1);
    if 0 <= i < s.len() && s[i] == OPEN_BRACE && e > i + 1 && e + 2 < s.len() && s[e]
        == CLOSE_BRACE && s[e + 1] == CR && s[e + 2] == LF {
        Some(Marker { size: decimal(s.subrange(i + 1, e)), start: e + 3 })
    } else {
        None
    }
}

/// The literals that `s` holds from index `i` on, end to end. A byte that
/// opens no marker frames the reply and is passed over; a marker is followed
/// by as many bytes as it declares, and the search goes on behind them.
/// `None` where a marker declares more bytes than are left.
pub open spec fn literals(s: Seq<u8>, i: int) -> Option<Seq<u8>>
    decreases s.len() - i,
{
    if i < 0 || i >= s.len() {
        Some(Seq::empty())
    } else {
        match marker_at(s, i) {
            Some(m) => if m.start + m.size <= s.len() {
                match literals(s, m.start + m.size) {
                    Some(rest) => Some(s.subrange(m.start, m.start + m.size) + rest),
                    None => None,
                }
            } else {
                None
            },
            None => literals(s, i + 1),
        }
    }
}

/// What a reply says, read as one stream of bytes.
pub open spec fn read_stream(s: Seq<u8>) -> Result<Message, ProtocolParseError> {
    match status_line(s) {
        None => Err(ProtocolParseError::BadStatusLine),
        Some(line) => if line.id > u32::MAX {
            Err(ProtocolParseError::IdOutOfRange)
        } else {
            match literals(s, line.end) {
                None => Err(ProtocolParseError::TruncatedLiteral),
                Some(data) => Ok(Message { id: line.id, flags: line.flags, data }),
            }
        },
    }
}

/// Whether a chunk begins with the response marker.
pub open spec fn is_response(chunk: Seq<u8>) -> bool {
    chunk.len() > 0 && chunk[0] == STAR
}

/// The index of the first chunk at or after `from` that begins with the
/// response marker, or the number of chunks where none does.
pub open spec fn first_response(chunks: Seq<Seq<u8>>, from: int) -> int
    decreases chunks.len() - from,
{
    if 0 <= from < chunks.len() && !is_response(chunks[from]) {
        first_response(chunks, from + 1)
    } else {
        from
    }
}

/// The chunks put end to end.
pub open spec fn joined(chunks: Seq<Seq<u8>>) -> Seq<u8>
    decreases chunks.len(),
{
    if chunks.len() == 0 {
        Seq::empty()
    } else {
        joined(chunks.drop_last()) + chunks.last()
    }
}

/// The chunks of a reply as plain sequences.
pub open spec fn chunks_of(fragments: Seq<Vec<u8>>) -> Seq<Seq<u8>> {
    Seq::new(fragments.len(), |i: int| fragments[i]@)
}

/// What a reply in chunks says: the chunks from the first that begins with
/// the response marker are put end to end and read as one stream.
pub open spec fn assembled(chunks: Seq<Seq<u8>>) -> Result<Message, ProtocolParseError> {
    let k = first_response(chunks, 0);
    if k >= chunks.len() {
        Err(ProtocolParseError::NoResponse)
    } else {
        read_stream(joined(chunks.subrange(k, chunks.len() as int)))
    }
}

/// Whether a result of the assembler is the result that was to be expected.
pub open spec fn agrees(
    r: Result<RawMessage, ProtocolParseError>,
    expected: Result<Message, ProtocolParseError>,
) -> bool {
    match r {
        Ok(m) => expected == Ok::<Message, ProtocolParseError>(m@),
        Err(e) => expected == Err::<Message, ProtocolParseError>(e),
    }
}

/// Collects the literals of `s` from index `from` on.
pub fn extract_literals(s: &[u8], from: usize) -> (r: Option<Vec<u8>>)
    requires
        from <= s.len(),
    ensures
        match r {
            Some(data) => literals(s@, from as int) == Some(data@),
            None => literals(s@, from as int) is None,
        },
{
    let mut out: Vec<u8> = Vec::new();
    let mut i: usize = from;
    while i < s.len()
        invariant
            from <= i <= s.len(),
            match literals(s@, i as int) {
                Some(rest) => literals(s@, from as int) == Some(out@ + rest),
                None => literals(s@, from as int) is None,
            },
        decreases s.len() - i,
    {
        if s[i] != OPEN_BRACE {
            i = i + 1;
            continue ;
        }
        let (e, size) = scan_digits(s, i + 1);
        if !(e > i + 1 && e < s.len() && s.len() - e > 2 && s[e] == CLOSE_BRACE && s[e + 1] == CR
            && s[e + 2] == LF) {
            i = i + 1;
            continue ;
        }
        let start: usize = e + 3;
        let n: usize = match size {
            Some(v) => {
                if v > (s.len() - start) as u64 {
                    return None;
                }
                v as usize
            },
            None => {
                return None;
            },
        };
        let ghost before = out@;
        out.extend_from_slice(&s[start..start + n]);
        assert(out@ =~= before + s@.subrange(start as int, start + n));
        proof {
            match literals(s@, start + n) {
                Some(rest) => {
                    assert(before + (s@.subrange(start as int, start + n) + rest) =~= out@ + rest);
                },
                None => {},
            }
        }
        i = start + n;
    }
    assert(out@ + Seq::<u8>::empty() =~= out@);
    Some(out)
}

/// Reads the opening of a reply. Returns the message number (`None` where
/// `u64` cannot hold it), the index of the first byte of the flags, and the
/// index of the bracket that closes them.
fn parse_status_line(s: &[u8]) -> (r: Option<(Option<u64>, usize, usize)>)
    ensures
        match r {
            Some((id, f, c)) => {
                &&& f <= c < s.len()
                &&& status_line(s@) == Some(
                    StatusLine {
                        id: decimal(s@.subrange(2, f - 15)),
                        flags: s@.subrange(f as int, c as int),
                        end: c + 1,
                    },
                )
                &&& match id {
                    Some(v) => v == decimal(s@.subrange(2, f - 15)),
                    None => decimal(s@.subrange(2, f - 15)) > u64::MAX,
                }
            },
            None => status_line(s@) is None,
        },
{
    if s.len() < 2 || s[0] != STAR || s[1] != SPACE {
        return None;
    }
    let (e, id) = scan_digits(s, 2);
    if e <= 2 {
        return None;
    }
    let keyword: [u8; 15] = [
        0x20, 0x46, 0x45, 0x54, 0x43, 0x48, 0x20, 0x28,
        0x46, 0x4c, 0x41, 0x47, 0x53, 0x20, 0x28,
    ];
    assert(keyword@ =~= fetch_keyword());
    if !matches_at(s, e, keyword.as_slice()) {
        return None;
    }
    let f: usize = e + 15;
    let c = seek_byte(s, f, CLOSE_PAREN);
    if c >= s.len() {
        return None;
    }
    Some((id, f, c))
}

/// Reads a reply that has been put end to end: the opening, then the
/// literals behind it.
pub fn assemble_stream(s: &[u8]) -> (r: Result<RawMessage, ProtocolParseError>)
    ensures
        agrees(r, read_stream(s@)),
{
    let (id, f, c) = match parse_status_line(s) {
        Some(line) => line,
        None => {
            return Err(ProtocolParseError::BadStatusLine);
        },
    };
    let id: u32 = match id {
        Some(v) => {
            if v > 0xffff_ffff {
                return Err(ProtocolParseError::IdOutOfRange);
            }
            v as u32
        },
        None => {
            return Err(ProtocolParseError::IdOutOfRange);
        },
    };
    let data = match extract_literals(s, c + 1) {
        Some(data) => data,
        None => {
            return Err(ProtocolParseError::TruncatedLiteral);
        },
    };
    let mut flags: Vec<u8> = Vec::new();
    flags.extend_from_slice(&s[f..c]);
    assert(flags@ =~= s@.subrange(f as int, c as int));
    Ok(RawMessage { id, flags, data })
}

/// Finds the first chunk that begins with the response marker.
pub fn find_response(fragments: &Vec<Vec<u8>>) -> (r: usize)
    ensures
        r == first_response(chunks_of(fragments@), 0),
        r <= fragments.len(),
{
    let mut k: usize = 0;
    while k < fragments.len() && !(fragments[k].len() > 0 && fragments[k][0] == STAR)
        invariant
            k <= fragments.len(),
            first_response(chunks_of(fragments@), 0) == first_response(
                chunks_of(fragments@),
                k as int,
            ),
        decreases fragments.len() - k,
    {
        k = k + 1;
    }
    k
}

/// Puts the chunks from index `from` on end to end.
pub fn join(fragments: &Vec<Vec<u8>>, from: usize) -> (r: Vec<u8>)
    requires
        from <= fragments.len(),
    ensures
        r@ == joined(chunks_of(fragments@).subrange(from as int, fragments.len() as int)),
{
    let ghost chunks = chunks_of(fragments@);
    let mut out: Vec<u8> = Vec::new();
    let mut j: usize = from;
    while j < fragments.len()
        invariant
            from <= j <= fragments.len(),
            chunks == chunks_of(fragments@),
            out@ == joined(chunks.subrange(from as int, j as int)),
        decreases fragments.len() - j,
    {
        let ghost before = out@;
        out.extend_from_slice(fragments[j].as_slice());
        proof {
            assert(out@ =~= before + fragments@[j as int]@);
            assert(chunks.subrange(from as int, j + 1).drop_last() =~= chunks.subrange(
                from as int,
                j as int,
            ));
        }
        j = j + 1;
    }
    out
}

/// Rebuilds one message from the chunks of the reply to its FETCH.
///
/// The chunks before the first that begins with `*` are passed over. From
/// there on the chunks are read as one stream, so a literal may run over any
/// number of them. The message is the literals of the reply, end to end.
pub fn assemble(fragments: &Vec<Vec<u8>>) -> (r: Result<RawMessage, ProtocolParseError>)
    ensures
        agrees(r, assembled(chunks_of(fragments@))),
{
    let k = find_response(fragments);
    if k >= fragments.len() {
        return Err(ProtocolParseError::NoResponse);
    }
    let stream = join(fragments, k);
    assemble_stream(stream.as_slice())
}

/// Where the run of bytes that are no spaces ends that starts at `from`.
pub open spec fn token_end(s: Seq<u8>, from: int) -> int {
    find_byte(s, from, SPACE)
}

/// The flags that a flag text names from index `from` on, added to `acc`:
/// each run of bytes between spaces is one flag.
pub open spec fn tokens_from(s: Seq<u8>, from: int, acc: Seq<Seq<u8>>) -> Seq<Seq<u8>>
    decreases s.len() - from,
{
    if from < 0 || from >= s.len() {
        acc
    } else if s[from] == SPACE {
        tokens_from(s, from + 1, acc)
    } else {
        proof {
            lemma_find_byte(s, from, SPACE);
        }
        tokens_from(s, token_end(s, from), acc.push(s.subrange(from, token_end(s, from))))
    }
}

/// The flags that a flag text names, in the order in which they stand.
pub open spec fn flag_tokens(flags: Seq<u8>) -> Seq<Seq<u8>> {
    tokens_from(flags, 0, Seq::empty())
}

/// A list of byte strings, seen as plain values.
pub open spec fn tokens_of(list: Seq<Vec<u8>>) -> Seq<Seq<u8>> {
    Seq::new(list.len(), |i: int| list[i]@)
}

/// Takes a flag text apart into its flags.
pub fn split_flags(flags: &[u8]) -> (r: Vec<Vec<u8>>)
    ensures
        tokens_of(r@) == flag_tokens(flags@),
{
    let mut out: Vec<Vec<u8>> = Vec::new();
    let mut i: usize = 0;
    assert(tokens_of(out@) =~= Seq::<Seq<u8>>::empty());
    while i < flags.len()
        invariant
            i <= flags.len(),
            tokens_from(flags@, i as int, tokens_of(out@)) == flag_tokens(flags@),
        decreases flags.len() - i,
    {
        if flags[i] == SPACE {
            i = i + 1;
        } else {
            let e = seek_byte(flags, i, SPACE);
            let ghost before = tokens_of(out@);
            let mut token: Vec<u8> = Vec::new();
            token.extend_from_slice(&flags[i..e]);
            assert(token@ =~= flags@.subrange(i as int, e as int));
            out.push(token);
            assert(tokens_of(out@) =~= before.push(flags@.subrange(i as int, e as int)));
            proof {
                lemma_find_byte(flags@, i as int, SPACE);
            }
            i = e;
        }
    }
    out
}

} // verus!
