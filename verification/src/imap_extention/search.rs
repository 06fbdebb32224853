//! Asking the server which messages there are, and reading its answer.

use crate::bytes::{
    decimal, digits_end, holds_at, is_digit, lemma_digits_end, lowered, matches_at, scan_digits,
    to_lower,
};
use vstd::prelude::*;
use vstd::string::{StringExecFns, StringSliceAdditionalSpecFns};

verus! {

/// What to look for in a mailbox.
#[allow(dead_code)]
#[derive(Debug, Clone, Copy, PartialEq, Eq, Structural)]
pub enum SEARCH {
    SEEN,
    UNSEEN,
}

/// The word that the server knows a search key by.
pub open spec fn key_word(s: SEARCH) -> Seq<char> {
    match s {
        SEARCH::SEEN => "SEEN"@,
        SEARCH::UNSEEN => "UNSEEN"@,
    }
}

/// The words of the search keys, each behind a space.
pub open spec fn key_words(filter: Seq<SEARCH>) -> Seq<char>
    decreases filter.len(),
{
    if filter.len() == 0 {
        Seq::empty()
    } else {
        key_words(filter.drop_last()) + " "@ + key_word(filter.last())
    }
}

/// The command that asks for the messages that meet every search key:
/// `SEARCH` and the words of the keys, a space before each.
pub open spec fn command_text(filter: Seq<SEARCH>) -> Seq<char> {
    "SEARCH"@ + key_words(filter)
}

/// The word that the server knows a search key by.
pub fn search2str(s: &SEARCH) -> (r: &'static str)
    ensures
        r@ == key_word(*s),
{
    match s {
        SEARCH::SEEN => "SEEN",
        SEARCH::UNSEEN => "UNSEEN",
    }
}

/// Writes the search command for a list of keys.
pub fn search_command(filter: &Vec<SEARCH>) -> (r: String)
    ensures
        r@ == command_text(filter@),
{
    let mut out: String = "SEARCH".to_owned();
    let mut i: usize = 0;
    assert(filter@.take(0) =~= Seq::<SEARCH>::empty());
    assert(out@ =~= "SEARCH"@ + key_words(filter@.take(0)));
    while i < filter.len()
        invariant
            i <= filter.len(),
            out@ == "SEARCH"@ + key_words(filter@.take(i as int)),
        decreases filter.len() - i,
    {
        let ghost before = out@;
        out.append(" ");
        out.append(search2str(&filter[i]));
        proof {
            assert(filter@.take(i + 1).drop_last() =~= filter@.take(i as int));
            assert(out@ =~= "SEARCH"@ + key_words(filter@.take(i + 1)));
        }
        i = i + 1;
    }
    assert(filter@.take(filter.len() as int) =~= filter@);
    out
}

/// Whether `needle` stands somewhere in `hay`.
pub open spec fn stands_in(needle: Seq<u8>, hay: Seq<u8>) -> bool {
    exists|i: int| #[trigger] holds_at(hay, i, needle)
}

/// Whether an answer is one to a search: it says `SEARCH`, in capitals or
/// not.
pub open spec fn is_search_answer(answer: Seq<u8>) -> bool {
    stands_in("search".spec_bytes(), lowered(answer))
}

/// The numbers that `s` holds from index `from` on, added to `acc`: each
/// run of digits writes one. A number that is too large to be the place of
/// a message is left out.
pub open spec fn numbers_from(s: Seq<u8>, from: int, acc: Seq<usize>) -> Seq<usize>
    decreases s.len() - from,
{
    if from < 0 || from >= s.len() {
        acc
    } else if is_digit(s[from]) {
        let e = digits_end(s, from);
        let n = decimal(s.subrange(from, e));
        proof {
            lemma_digits_end(s, from);
        }
        numbers_from(
            s,
            e,
            if n <= usize::MAX {
                acc.push(n as usize)
            } else {
                acc
            },
        )
    } else {
        numbers_from(s, from + 1, acc)
    }
}

/// The message numbers that an answer lists: every number in an answer to
/// a search, and nothing in any other answer.
pub open spec fn listed(answer: Seq<u8>) -> Seq<usize> {
    if is_search_answer(answer) {
        numbers_from(answer, 0, Seq::empty())
    } else {
        Seq::empty()
    }
}

/// Tells whether `needle` stands somewhere in `hay`.
pub fn find_bytes(hay: &[u8], needle: &[u8]) -> (r: bool)
    ensures
        r == stands_in(needle@, hay@),
{
    if needle.len() > hay.len() {
        assert forall|i: int| !#[trigger] holds_at(hay@, i, needle@) by {}
        return false;
    }
    let last: usize = hay.len() - needle.len();
    let mut i: usize = 0;
    loop
        invariant_except_break
            last == hay.len() - needle.len(),
            i <= last,
            forall|k: int| 0 <= k < i ==> !#[trigger] holds_at(hay@, k, needle@),
        ensures
            forall|k: int| 0 <= k <= last ==> !#[trigger] holds_at(hay@, k, needle@),
            last == hay.len() - needle.len(),
        decreases last - i,
    {
        if matches_at(hay, i, needle) {
            return true;
        }
        if i == last {
            break ;
        }
        i = i + 1;
    }
    assert forall|k: int| !#[trigger] holds_at(hay@, k, needle@) by {}
    false
}

/// Reads the message numbers out of the answer to a search.
pub fn parse_search_response(answer: &[u8]) -> (r: Vec<usize>)
    ensures
        r@ == listed(answer@),
{
    let mut out: Vec<usize> = Vec::new();
    let low = to_lower(answer);
    if !find_bytes(low.as_slice(), "search".as_bytes()) {
        return out;
    }
    let mut i: usize = 0;
    while i < answer.len()
        invariant
            i <= answer.len(),
            numbers_from(answer@, i as int, out@) == numbers_from(answer@, 0, Seq::empty()),
        decreases answer.len() - i,
    {
        if 0x30 <= answer[i] && answer[i] <= 0x39 {
            let (e, value) = scan_digits(answer, i);
            proof {
                lemma_digits_end(answer@, i as int);
            }
            match value {
                Some(v) => {
                    if v <= usize::MAX as u64 {
                        out.push(v as usize);
                    }
                },
                None => {},
            }
            assert(e > i);
            i = e;
        } else {
            i = i + 1;
        }
    }
    out
}

} // verus!
