//! Looking for mail by its date.
//!
//! Where the settings ask for it, the relay keeps the time of its last run
//! and looks only at mail that is not older. The time is kept as a number
//! of seconds since 1970, written in decimal digits.

use crate::bytes::{
    decimal, digits_end, is_digit, scan_digits, to_vec, trim, trim_of, LF, SPACE, TAB,
};
use crate::imap_extention::decode::read_text;
use crate::imap_extention::fetch::{letters_of, Letter, Mail};
use crate::imap_extention::mime::{fields_of, Header};
use crate::imap_extention::search::{command_text, search_command, SEARCH};
use vstd::prelude::*;
use vstd::string::{StringExecFns, StringSliceAdditionalSpecFns};
use vstd::utf8::{decode_utf8, valid_utf8};

verus! {

pub const PLUS: u8 = 0x2b;

pub const MINUS: u8 = 0x2d;

pub const OPEN_PAREN: u8 = 0x28;

pub const CLOSE_PAREN: u8 = 0x29;

/// The seconds of one day.
pub const DAY: i64 = 86_400;

/// `chrono::ParseError`: a text that does not fit a format.
#[verifier::external_type_specification]
#[verifier::external_body]
pub struct ExParseError(chrono::ParseError);

/// The time that a text names when it is read in a format of `chrono`, in
/// seconds since 1970; `None` where the text does not fit the format.
pub uninterp spec fn date_seconds(text: Seq<char>, format: Seq<char>) -> Option<i64>;

/// The day of a time, given in seconds since 1970, as `chrono` writes it
/// in a format; `None` for a time that `chrono` cannot hold.
pub uninterp spec fn date_text(seconds: i64, format: Seq<char>) -> Option<Seq<char>>;

/// The format in which the `Date` field of a mail is read, as in
/// `Mon, 2 Jan 2006 15:04:05 -0700`.
pub open spec fn mail_date_format() -> Seq<char> {
    "%a, %d %b %Y %H:%M:%S %z"@
}

/// The format in which a day is written in a search, as in `2-Jan-2006`.
pub open spec fn search_date_format() -> Seq<char> {
    "%d-%b-%Y"@
}

/// Calls `chrono::DateTime::parse_from_str` and gives the seconds of the
/// time that was read.
///
/// Taken on trust: whether a text is read, and as which time, depends on
/// the text and the format alone.
#[verifier::external_body]
fn parse_date(text: &str, format: &str) -> (r: Result<i64, chrono::ParseError>)
    ensures
        r is Ok <==> date_seconds(text@, format@) is Some,
        r matches Ok(s) ==> date_seconds(text@, format@) == Some(s),
{
    match chrono::DateTime::parse_from_str(text, format) {
        Ok(time) => Ok(time.timestamp()),
        Err(e) => Err(e),
    }
}

/// Calls `chrono::DateTime::from_timestamp` and writes the time with
/// `format`. The format has to be one that `chrono` can write: the one for
/// searches is.
///
/// Taken on trust: whether a time is written, and as what, depends on the
/// time and the format alone.
#[verifier::external_body]
fn write_date(seconds: i64, format: &str) -> (r: Option<String>)
    requires
        format@ == search_date_format(),
    ensures
        r is Some <==> date_text(seconds, format@) is Some,
        r matches Some(s) ==> date_text(seconds, format@) == Some(s@),
{
    match chrono::DateTime::from_timestamp(seconds, 0) {
        Some(time) => Some(time.format(format).to_string()),
        None => None,
    }
}

/// Whether `b` may stand around a stored time: a space, a tab or a line
/// feed.
pub open spec fn is_pad(b: u8) -> bool {
    b == SPACE || b == TAB || b == LF
}

/// Where the run of padding that starts at `from` ends.
pub open spec fn pads_end(s: Seq<u8>, from: int) -> int
    decreases s.len() - from,
{
    if 0 <= from < s.len() && is_pad(s[from]) {
        pads_end(s, from + 1)
    } else {
        from
    }
}

/// Where the run of padding that ends before `to` starts, looking no
/// further back than `from`.
pub open spec fn pads_start(s: Seq<u8>, from: int, to: int) -> int
    decreases to,
{
    if from < to <= s.len() && to > 0 && is_pad(s[to - 1]) {
        pads_start(s, from, to - 1)
    } else {
        to
    }
}

/// `s` without the padding around it.
pub open spec fn unpadded(s: Seq<u8>) -> Seq<u8> {
    let a = pads_end(s, 0);
    s.subrange(a, pads_start(s, a, s.len() as int))
}

/// Whether `s` begins with a sign.
pub open spec fn is_signed(s: Seq<u8>) -> bool {
    s.len() > 0 && (s[0] == PLUS || s[0] == MINUS)
}

/// The time that a stored text names: decimal digits, with or without a
/// sign before them and padding around them, that write a number an `i64`
/// can hold. Any other text names no time.
pub open spec fn stored_time(stored: Seq<u8>) -> Option<i64> {
    let t = unpadded(stored);
    let digits = if is_signed(t) {
        t.skip(1)
    } else {
        t
    };
    let value = if is_signed(t) && t[0] == MINUS {
        -decimal(digits)
    } else {
        decimal(digits) as int
    };
    if digits.len() > 0 && digits_end(digits, 0) == digits.len() && i64::MIN <= value <= i64::MAX {
        Some(value as i64)
    } else {
        None
    }
}

/// The time from which mail is looked at: the stored time of the last run,
/// and the present time where none is stored or what is stored names no
/// time.
pub open spec fn start_time(stored: Option<Seq<u8>>, now: i64) -> i64 {
    match stored {
        Some(s) => match stored_time(s) {
            Some(t) => t,
            None => now,
        },
        None => now,
    }
}

/// Drops the padding around `s`.
fn unpad(s: &[u8]) -> (r: &[u8])
    ensures
        r@ == unpadded(s@),
{
    let mut a: usize = 0;
    while a < s.len() && (s[a] == SPACE || s[a] == TAB || s[a] == LF)
        invariant
            a <= s.len(),
            pads_end(s@, 0) == pads_end(s@, a as int),
        decreases s.len() - a,
    {
        a = a + 1;
    }
    let mut b: usize = s.len();
    while b > a && (s[b - 1] == SPACE || s[b - 1] == TAB || s[b - 1] == LF)
        invariant
            a <= b <= s.len(),
            pads_start(s@, a as int, s.len() as int) == pads_start(s@, a as int, b as int),
        decreases b,
    {
        b = b - 1;
    }
    &s[a..b]
}

/// Reads a stored time.
pub fn read_checkpoint(stored: &[u8]) -> (r: Option<i64>)
    ensures
        r == stored_time(stored@),
{
    let t = unpad(stored);
    let signed = t.len() > 0 && (t[0] == PLUS || t[0] == MINUS);
    let negative = signed && t[0] == MINUS;
    let digits: &[u8] = if signed {
        &t[1..t.len()]
    } else {
        t
    };
    proof {
        if signed {
            assert(digits@ =~= t@.skip(1));
        }
    }
    let (e, value) = scan_digits(digits, 0);
    if digits.len() == 0 || e < digits.len() {
        return None;
    }
    assert(digits@.subrange(0, e as int) =~= digits@);
    match value {
        None => None,
        Some(v) => {
            if negative {
                if v > 0x8000_0000_0000_0000 {
                    None
                } else if v == 0x8000_0000_0000_0000 {
                    Some(i64::MIN)
                } else {
                    Some(-(v as i64))
                }
            } else {
                if v > 0x7fff_ffff_ffff_ffff {
                    None
                } else {
                    Some(v as i64)
                }
            }
        },
    }
}

/// The time from which mail is looked at in this run.
pub fn since(stored: Option<&[u8]>, now: i64) -> (r: i64)
    ensures
        r == start_time(
            match stored {
                Some(s) => Some(s@),
                None => None,
            },
            now,
        ),
{
    match stored {
        Some(s) => match read_checkpoint(s) {
            Some(t) => t,
            None => now,
        },
        None => now,
    }
}

/// Whether `b` is an ASCII letter or digit.
pub open spec fn is_alnum(b: u8) -> bool {
    is_digit(b) || 0x41 <= b <= 0x5a || 0x61 <= b <= 0x7a
}

/// Where the run of letters and digits that starts at `from` ends.
pub open spec fn alnums_end(s: Seq<u8>, from: int) -> int
    decreases s.len() - from,
{
    if 0 <= from < s.len() && is_alnum(s[from]) {
        alnums_end(s, from + 1)
    } else {
        from
    }
}

/// Where the name of a time zone in brackets ends that starts at `i`, as
/// in `(UTC)`: the index behind the closing bracket. Where no such name
/// starts at `i`, the result is `i`.
pub open spec fn zone_name_end(s: Seq<u8>, i: int) -> int {
    let e = alnums_end(s, i + 1);
    if 0 <= i < s.len() && s[i] == OPEN_PAREN && e > i + 1 && e < s.len() && s[e] == CLOSE_PAREN {
        e + 1
    } else {
        i
    }
}

/// `alnums_end` does not go backwards, nor beyond the end.
pub proof fn lemma_alnums_end(s: Seq<u8>, from: int)
    requires
        0 <= from <= s.len(),
    ensures
        from <= alnums_end(s, from) <= s.len(),
    decreases s.len() - from,
{
    if from < s.len() && is_alnum(s[from]) {
        lemma_alnums_end(s, from + 1);
    }
}

/// `s` from index `from` on without the names of time zones in brackets,
/// added to `acc`.
pub open spec fn zone_names_dropped(s: Seq<u8>, from: int, acc: Seq<u8>) -> Seq<u8>
    decreases s.len() - from,
{
    if from < 0 || from >= s.len() {
        acc
    } else if zone_name_end(s, from) > from {
        proof {
            lemma_alnums_end(s, from + 1);
        }
        zone_names_dropped(s, zone_name_end(s, from), acc)
    } else {
        zone_names_dropped(s, from + 1, acc.push(s[from]))
    }
}

/// The time that the `Date` field of a mail names, in seconds since 1970.
/// The name of a time zone in brackets and the blanks around the date do
/// not count.
pub open spec fn mail_time(date: Seq<char>) -> Option<i64> {
    let cleaned = trim(zone_names_dropped(vstd::utf8::encode_utf8(date), 0, Seq::empty()));
    if valid_utf8(cleaned) {
        date_seconds(decode_utf8(cleaned), mail_date_format())
    } else {
        None
    }
}

/// Drops the names of time zones in brackets.
pub fn drop_zone_names(s: &[u8]) -> (r: Vec<u8>)
    ensures
        r@ == zone_names_dropped(s@, 0, Seq::empty()),
{
    let mut out: Vec<u8> = Vec::new();
    let mut i: usize = 0;
    while i < s.len()
        invariant
            i <= s.len(),
            zone_names_dropped(s@, i as int, out@) == zone_names_dropped(s@, 0, Seq::empty()),
        decreases s.len() - i,
    {
        if s[i] == OPEN_PAREN {
            let mut e: usize = i + 1;
            while e < s.len() && ((0x30 <= s[e] && s[e] <= 0x39) || (0x41 <= s[e] && s[e] <= 0x5a)
                || (0x61 <= s[e] && s[e] <= 0x7a))
                invariant
                    i < e <= s.len(),
                    alnums_end(s@, i + 1) == alnums_end(s@, e as int),
                decreases s.len() - e,
            {
                e = e + 1;
            }
            if e > i + 1 && e < s.len() && s[e] == CLOSE_PAREN {
                i = e + 1;
                continue ;
            }
        }
        out.push(s[i]);
        i = i + 1;
    }
    out
}

/// Reads the time that the `Date` field of a mail names.
pub fn read_mail_time(date: &str) -> (r: Option<i64>)
    ensures
        r == mail_time(date@),
{
    let cleaned = drop_zone_names(date.as_bytes());
    let trimmed = to_vec(trim_of(cleaned.as_slice()));
    match read_text(trimmed) {
        Err(_) => None,
        Ok(text) => match parse_date(text.as_str(), "%a, %d %b %Y %H:%M:%S %z") {
            Ok(seconds) => Some(seconds),
            Err(_) => None,
        },
    }
}

/// A mail whose date cannot be read.
#[derive(Debug, Clone, Copy, PartialEq, Eq, Structural)]
pub struct DateError {
    pub uid: u32,
}

/// The time at a place of a list of times; no time beyond its end.
pub open spec fn time_at(times: Seq<Option<i64>>, i: int) -> Option<i64> {
    if 0 <= i < times.len() {
        times[i]
    } else {
        None
    }
}

/// The mails whose time is not before `since`, in the order of the list;
/// `times` holds the time of each mail at the place of the mail. A mail
/// without a time ends the search with its number.
pub open spec fn picked(letters: Seq<Letter>, times: Seq<Option<i64>>, since: i64) -> Result<
    Seq<Letter>,
    DateError,
>
    decreases letters.len(),
{
    if letters.len() == 0 {
        Ok(Seq::empty())
    } else {
        match picked(letters.drop_last(), times, since) {
            Err(e) => Err(e),
            Ok(before) => match time_at(times, letters.len() - 1) {
                None => Err(DateError { uid: letters.last().uid as u32 }),
                Some(t) => if t < since {
                    Ok(before)
                } else {
                    Ok(before.push(letters.last()))
                },
            },
        }
    }
}

/// The times that the `Date` fields of a list of mails name.
pub open spec fn times_of(letters: Seq<Letter>) -> Seq<Option<i64>> {
    Seq::new(letters.len(), |i: int| mail_time(letters[i].date))
}

/// The mails that are not older than `since`, in the order of the list. A
/// mail whose date cannot be read ends the search with its number.
pub open spec fn fresh_of(letters: Seq<Letter>, since: i64) -> Result<Seq<Letter>, DateError> {
    picked(letters, times_of(letters), since)
}

/// An error among the first mails of a list is the error of the list.
pub proof fn lemma_error_ends_search(
    letters: Seq<Letter>,
    times: Seq<Option<i64>>,
    since: i64,
    n: int,
)
    requires
        0 <= n <= letters.len(),
        picked(letters.take(n), times, since) is Err,
    ensures
        picked(letters, times, since) == picked(letters.take(n), times, since),
    decreases letters.len() - n,
{
    if n < letters.len() {
        assert(letters.take(n + 1).drop_last() =~= letters.take(n));
        lemma_error_ends_search(letters, times, since, n + 1);
    } else {
        assert(letters.take(n) =~= letters);
    }
}

/// Copies a list of header fields.
fn copy_headers(headers: &Vec<Header>) -> (r: Vec<Header>)
    ensures
        fields_of(r@) == fields_of(headers@),
{
    let mut out: Vec<Header> = Vec::new();
    let mut i: usize = 0;
    while i < headers.len()
        invariant
            i <= headers.len(),
            fields_of(out@) == fields_of(headers@).take(i as int),
        decreases headers.len() - i,
    {
        let ghost before = fields_of(out@);
        let name = to_vec(headers[i].name.as_slice());
        let value = to_vec(headers[i].value.as_slice());
        out.push(Header { name, value });
        assert(fields_of(out@) =~= before.push(headers@[i as int]@));
        assert(fields_of(out@) =~= fields_of(headers@).take(i + 1));
        i = i + 1;
    }
    assert(fields_of(headers@).take(headers.len() as int) =~= fields_of(headers@));
    out
}

/// Copies a mail.
pub fn copy_mail(mail: &Mail) -> (r: Mail)
    ensures
        r@ == mail@,
{
    Mail {
        uid: mail.uid,
        flags: mail.flags.clone(),
        from: mail.from.clone(),
        to: mail.to.clone(),
        cc: mail.cc.clone(),
        bcc: mail.bcc.clone(),
        reply_to: mail.reply_to.clone(),
        subject: mail.subject.clone(),
        date: mail.date.clone(),
        text: mail.text.clone(),
        headers: copy_headers(&mail.headers),
    }
}

/// Reads the time of each mail of a list.
pub fn read_mail_times(mails: &Vec<Mail>) -> (r: Vec<Option<i64>>)
    ensures
        r@ == times_of(letters_of(mails@)),
{
    let mut times: Vec<Option<i64>> = Vec::new();
    let mut i: usize = 0;
    while i < mails.len()
        invariant
            i <= mails.len(),
            times@ == times_of(letters_of(mails@)).take(i as int),
        decreases mails.len() - i,
    {
        times.push(read_mail_time(mails[i].date.as_str()));
        assert(times@ =~= times_of(letters_of(mails@)).take(i + 1));
        i = i + 1;
    }
    assert(times_of(letters_of(mails@)).take(mails.len() as int) =~= times_of(letters_of(mails@)));
    times
}

/// Picks the mails whose time is not before `since`; `times` holds the
/// time of each mail at the place of the mail.
pub fn pick_fresh(mails: &Vec<Mail>, times: &Vec<Option<i64>>, since: i64) -> (r: Result<
    Vec<Mail>,
    DateError,
>)
    ensures
        match r {
            Ok(kept) => picked(letters_of(mails@), times@, since) == Ok::<Seq<Letter>, DateError>(
                letters_of(kept@),
            ),
            Err(e) => picked(letters_of(mails@), times@, since) == Err::<Seq<Letter>, DateError>(
                e,
            ),
        },
{
    let ghost letters = letters_of(mails@);
    let mut kept: Vec<Mail> = Vec::new();
    let mut i: usize = 0;
    assert(letters.take(0) =~= Seq::<Letter>::empty());
    assert(letters_of(kept@) =~= Seq::<Letter>::empty());
    while i < mails.len()
        invariant
            i <= mails.len(),
            letters == letters_of(mails@),
            picked(letters.take(i as int), times@, since) == Ok::<Seq<Letter>, DateError>(
                letters_of(kept@),
            ),
        decreases mails.len() - i,
    {
        let ghost before = letters_of(kept@);
        proof {
            assert(letters.take(i + 1).drop_last() =~= letters.take(i as int));
            assert(letters.take(i + 1).last() == mails@[i as int]@);
        }
        let time: Option<i64> = if i < times.len() {
            times[i]
        } else {
            None
        };
        match time {
            None => {
                proof {
                    lemma_error_ends_search(letters, times@, since, i + 1);
                }
                return Err(DateError { uid: mails[i].uid });
            },
            Some(t) => {
                if t >= since {
                    kept.push(copy_mail(&mails[i]));
                    assert(letters_of(kept@) =~= before.push(mails@[i as int]@));
                }
            },
        }
        i = i + 1;
    }
    assert(letters.take(mails.len() as int) =~= letters);
    Ok(kept)
}

/// Picks the mails that are not older than `since`.
pub fn fresh(mails: &Vec<Mail>, since: i64) -> (r: Result<Vec<Mail>, DateError>)
    ensures
        match r {
            Ok(kept) => fresh_of(letters_of(mails@), since) == Ok::<Seq<Letter>, DateError>(
                letters_of(kept@),
            ),
            Err(e) => fresh_of(letters_of(mails@), since) == Err::<Seq<Letter>, DateError>(e),
        },
{
    let times = read_mail_times(mails);
    pick_fresh(mails, &times, since)
}

/// The search that asks for the mail since the day before a time. The day
/// before, because the server compares days, not times.
pub open spec fn since_command_text(since: i64) -> Option<Seq<char>> {
    if since - DAY < i64::MIN {
        None
    } else {
        match date_text((since - DAY) as i64, search_date_format()) {
            Some(day) => Some("SEARCH SINCE "@ + day),
            None => None,
        }
    }
}

/// Writes the search that asks for the mail since a day.
pub fn search_since(day: &str) -> (r: String)
    ensures
        r@ == "SEARCH SINCE "@ + day@,
{
    let mut out: String = "SEARCH SINCE ".to_owned();
    out.append(day);
    out
}

/// Writes the search that asks for the mail since the day before a time.
pub fn since_command(since: i64) -> (r: Option<String>)
    ensures
        match r {
            Some(text) => since_command_text(since) == Some(text@),
            None => since_command_text(since) is None,
        },
{
    let from = match since.checked_sub(DAY) {
        Some(t) => t,
        None => {
            return None;
        },
    };
    match write_date(from, "%d-%b-%Y") {
        Some(day) => Some(search_since(day.as_str())),
        None => None,
    }
}

/// The search of a run: by date where a time to start from is given and
/// its day can be written, by the search keys otherwise.
pub open spec fn poll_command_text(filter: Seq<SEARCH>, since: Option<i64>) -> Seq<char> {
    match since {
        Some(time) => match since_command_text(time) {
            Some(text) => text,
            None => command_text(filter),
        },
        None => command_text(filter),
    }
}

/// Writes the search of a run.
pub fn poll_command(filter: &Vec<SEARCH>, since: Option<i64>) -> (r: String)
    ensures
        r@ == poll_command_text(filter@, since),
{
    match since {
        Some(time) => match since_command(time) {
            Some(text) => text,
            None => search_command(filter),
        },
        None => search_command(filter),
    }
}

} // verus!
