//! What holds of the assembler whatever the server sends.

use crate::bytes::{decimal, digits_end, is_digit, lemma_find_byte, CR, LF};
use crate::imap_extention::literal::{
    assembled, fetch_keyword, first_response, is_response, joined, literals, marker_at,
    status_line, Marker, Message, ProtocolParseError, StatusLine, CLOSE_BRACE, CLOSE_PAREN,
    OPEN_BRACE,
};
use vstd::prelude::*;

verus! {

/// One literal as a server writes it: some framing text, the digits of the
/// marker, and the bytes that the marker announces.
pub struct Piece {
    pub framing: Seq<u8>,
    pub digits: Seq<u8>,
    pub payload: Seq<u8>,
}

/// Whether a text holds no opening brace, so that no marker begins in it.
pub open spec fn brace_free(text: Seq<u8>) -> bool {
    forall|k: int| 0 <= k < text.len() ==> #[trigger] text[k] != OPEN_BRACE
}

/// The marker with the given digits: `{<digits>}CRLF`.
pub open spec fn marker(digits: Seq<u8>) -> Seq<u8> {
    seq![OPEN_BRACE] + digits + seq![CLOSE_BRACE, CR, LF]
}

impl Piece {
    /// A piece is well formed where its framing opens no marker and its
    /// marker declares the length of its payload.
    pub open spec fn well_formed(self) -> bool {
        &&& brace_free(self.framing)
        &&& self.digits.len() > 0
        &&& forall|k: int| 0 <= k < self.digits.len() ==> is_digit(#[trigger] self.digits[k])
        &&& decimal(self.digits) == self.payload.len()
    }

    /// The piece as it stands in the reply.
    pub open spec fn bytes(self) -> Seq<u8> {
        self.framing + marker(self.digits) + self.payload
    }
}

/// The pieces as they stand in the reply, one after the other.
pub open spec fn rendered(pieces: Seq<Piece>) -> Seq<u8>
    decreases pieces.len(),
{
    if pieces.len() == 0 {
        Seq::empty()
    } else {
        pieces[0].bytes() + rendered(pieces.skip(1))
    }
}

/// The payloads of the pieces, end to end.
pub open spec fn payloads(pieces: Seq<Piece>) -> Seq<u8>
    decreases pieces.len(),
{
    if pieces.len() == 0 {
        Seq::empty()
    } else {
        pieces[0].payload + payloads(pieces.skip(1))
    }
}

/// The sum of the sizes that the markers of the pieces declare.
pub open spec fn declared(pieces: Seq<Piece>) -> nat
    decreases pieces.len(),
{
    if pieces.len() == 0 {
        0
    } else {
        decimal(pieces[0].digits) + declared(pieces.skip(1))
    }
}

/// A run of digits that is followed by something else ends where that
/// something stands.
pub proof fn lemma_digits_end_at(s: Seq<u8>, from: int, end: int)
    requires
        0 <= from <= end <= s.len(),
        forall|k: int| from <= k < end ==> is_digit(#[trigger] s[k]),
        end == s.len() || !is_digit(s[end]),
    ensures
        digits_end(s, from) == end,
    decreases end - from,
{
    if from < end {
        lemma_digits_end_at(s, from + 1, end);
    }
}

/// Bytes that open no marker are passed over.
pub proof fn lemma_framing_is_dropped(s: Seq<u8>, i: int, j: int)
    requires
        0 <= i <= j <= s.len(),
        forall|k: int| i <= k < j ==> #[trigger] s[k] != OPEN_BRACE,
    ensures
        literals(s, i) == literals(s, j),
    decreases j - i,
{
    if i < j {
        assert(s[i] != OPEN_BRACE);
        assert(marker_at(s, i) is None);
        lemma_framing_is_dropped(s, i + 1, j);
    }
}

/// Where a marker and the bytes it declares stand at index `i`, they are
/// read as such.
pub proof fn lemma_marker_is_read(s: Seq<u8>, i: int, digits: Seq<u8>, payload: Seq<u8>)
    requires
        0 <= i,
        i + marker(digits).len() + payload.len() <= s.len(),
        s.subrange(i, i + marker(digits).len() + payload.len()) == marker(digits) + payload,
        digits.len() > 0,
        forall|k: int| 0 <= k < digits.len() ==> is_digit(#[trigger] digits[k]),
        decimal(digits) == payload.len(),
    ensures
        marker_at(s, i) == Some(
            Marker { size: payload.len(), start: i + marker(digits).len() },
        ),
        s.subrange(i + marker(digits).len(), i + marker(digits).len() + payload.len())
            == payload,
{
    let m = marker(digits);
    let all = m + payload;
    let e = i + 1 + digits.len();
    assert(m.len() == digits.len() + 4);
    assert forall|k: int| 0 <= k < all.len() implies s[i + k] == all[k] by {
        assert(s.subrange(i, i + all.len())[k] == s[i + k]);
    }
    assert(s[i] == OPEN_BRACE) by {
        assert(all[0] == OPEN_BRACE);
    }
    assert forall|k: int| i + 1 <= k < e implies is_digit(#[trigger] s[k]) by {
        assert(all[k - i] == digits[k - i - 1]);
    }
    assert(s[e] == CLOSE_BRACE && s[e + 1] == CR && s[e + 2] == LF) by {
        assert(all[e - i] == CLOSE_BRACE);
        assert(all[e - i + 1] == CR);
        assert(all[e - i + 2] == LF);
    }
    lemma_digits_end_at(s, i + 1, e);
    assert(s.subrange(i + 1, e) =~= digits) by {
        assert forall|k: int| 0 <= k < digits.len() implies s.subrange(i + 1, e)[k]
            == digits[k] by {
            assert(all[k + 1] == digits[k]);
        }
    }
    assert(s.subrange(i + m.len(), i + m.len() + payload.len()) =~= payload) by {
        assert forall|k: int| 0 <= k < payload.len() implies s[i + m.len() + k]
            == payload[k] by {
            assert(all[m.len() + k] == payload[k]);
        }
    }
}

/// The literals of well-formed pieces are their payloads: each byte of
/// each payload, in order, and nothing else. The reply may open with any
/// `head` and close with any `tail` that opens no marker.
pub proof fn lemma_literals_round_trip(head: Seq<u8>, pieces: Seq<Piece>, tail: Seq<u8>)
    requires
        forall|k: int| 0 <= k < pieces.len() ==> (#[trigger] pieces[k]).well_formed(),
        brace_free(tail),
    ensures
        literals(head + rendered(pieces) + tail, head.len() as int) == Some(payloads(pieces)),
        payloads(pieces).len() == declared(pieces),
    decreases pieces.len(),
{
    let s = head + rendered(pieces) + tail;
    let h = head.len() as int;
    if pieces.len() == 0 {
        assert forall|k: int| h <= k < s.len() implies #[trigger] s[k] != OPEN_BRACE by {
            assert(s[k] == tail[k - h]);
        }
        lemma_framing_is_dropped(s, h, s.len() as int);
    } else {
        let p = pieces[0];
        let rest = pieces.skip(1);
        assert(p.well_formed());
        assert forall|k: int| 0 <= k < rest.len() implies (#[trigger] rest[k]).well_formed() by {
            assert(rest[k] == pieces[k + 1]);
        }
        let m = marker(p.digits);
        let i = h + p.framing.len();
        assert forall|k: int| h <= k < i implies #[trigger] s[k] != OPEN_BRACE by {
            assert(s[k] == p.framing[k - h]);
        }
        lemma_framing_is_dropped(s, h, i);
        assert(s.subrange(i, i + m.len() + p.payload.len()) =~= m + p.payload);
        lemma_marker_is_read(s, i, p.digits, p.payload);
        let next = head + p.bytes();
        assert(next + rendered(rest) + tail =~= s);
        lemma_literals_round_trip(next, rest, tail);
        assert(next.len() == i + m.len() + p.payload.len());
    }
}

/// The round trip of the assembler. Take a reply whose opening reads as
/// message `line.id` with flags `line.flags`, and whose rest is a run of
/// well-formed pieces and a closing text. However the reply is cut into
/// chunks, as long as the first chunk begins with the response marker, the
/// assembler returns that message number, those flags, and the payloads of
/// the pieces byte for byte; its length is the sum of the declared sizes.
pub proof fn lemma_assemble_round_trip(
    chunks: Seq<Seq<u8>>,
    line: StatusLine,
    pieces: Seq<Piece>,
    tail: Seq<u8>,
)
    requires
        chunks.len() > 0,
        is_response(chunks[0]),
        status_line(joined(chunks)) == Some(line),
        line.id <= u32::MAX,
        joined(chunks) == joined(chunks).take(line.end) + rendered(pieces) + tail,
        forall|k: int| 0 <= k < pieces.len() ==> (#[trigger] pieces[k]).well_formed(),
        brace_free(tail),
    ensures
        assembled(chunks) == Ok::<Message, ProtocolParseError>(
            Message { id: line.id, flags: line.flags, data: payloads(pieces) },
        ),
        payloads(pieces).len() == declared(pieces),
{
    let s = joined(chunks);
    assert(first_response(chunks, 0) == 0);
    assert(chunks.subrange(0, chunks.len() as int) =~= chunks);
    lemma_find_byte(s, digits_end(s, 2) + fetch_keyword().len(), CLOSE_PAREN);
    assert(0 <= line.end <= s.len());
    lemma_literals_round_trip(s.take(line.end), pieces, tail);
}

} // verus!
