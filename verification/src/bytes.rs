//! Byte sequences: the few notions that every parser of this library shares.

use vstd::prelude::*;

verus! {

pub const TAB: u8 = 0x09;

pub const LF: u8 = 0x0a;

pub const CR: u8 = 0x0d;

pub const SPACE: u8 = 0x20;

/// Whether `b` is one of the ASCII digits `0` to `9`.
pub open spec fn is_digit(b: u8) -> bool {
    0x30 <= b <= 0x39
}

/// What a digit counts for; a byte that is no digit counts for nothing.
pub open spec fn digit_value(b: u8) -> nat {
    if is_digit(b) {
        (b - 0x30) as nat
    } else {
        0
    }
}

/// The number that a string of decimal digits writes, most significant digit
/// first. The empty string writes zero.
pub open spec fn decimal(digits: Seq<u8>) -> nat
    decreases digits.len(),
{
    if digits.len() == 0 {
        0
    } else {
        decimal(digits.drop_last()) * 10 + digit_value(digits.last())
    }
}

/// Where the run of digits that starts at `from` ends: the first index at or
/// after `from` that holds no digit, or the length of `s`.
pub open spec fn digits_end(s: Seq<u8>, from: int) -> int
    decreases s.len() - from,
{
    if 0 <= from < s.len() && is_digit(s[from]) {
        digits_end(s, from + 1)
    } else {
        from
    }
}

/// The first index at or after `from` that holds `b`, or the length of `s`
/// where no such index exists.
pub open spec fn find_byte(s: Seq<u8>, from: int, b: u8) -> int
    decreases s.len() - from,
{
    if 0 <= from < s.len() && s[from] != b {
        find_byte(s, from + 1, b)
    } else {
        from
    }
}

/// Whether `s` holds `p` at index `at`.
pub open spec fn holds_at(s: Seq<u8>, at: int, p: Seq<u8>) -> bool {
    0 <= at && at + p.len() <= s.len() && s.subrange(at, at + p.len()) == p
}

/// `digits_end` names the end of a run: everything before it is a digit, and
/// what stands at it, if anything, is none.
pub proof fn lemma_digits_end(s: Seq<u8>, from: int)
    requires
        0 <= from <= s.len(),
    ensures
        from <= digits_end(s, from) <= s.len(),
        forall|k: int| from <= k < digits_end(s, from) ==> is_digit(#[trigger] s[k]),
        digits_end(s, from) < s.len() ==> !is_digit(s[digits_end(s, from)]),
    decreases s.len() - from,
{
    if from < s.len() && is_digit(s[from]) {
        lemma_digits_end(s, from + 1);
    }
}

/// `find_byte` names the first occurrence.
pub proof fn lemma_find_byte(s: Seq<u8>, from: int, b: u8)
    requires
        0 <= from <= s.len(),
    ensures
        from <= find_byte(s, from, b) <= s.len(),
        forall|k: int| from <= k < find_byte(s, from, b) ==> #[trigger] s[k] != b,
        find_byte(s, from, b) < s.len() ==> s[find_byte(s, from, b)] == b,
    decreases s.len() - from,
{
    if from < s.len() && s[from] != b {
        lemma_find_byte(s, from + 1, b);
    }
}

/// Reads the run of digits that starts at `from`. Returns where it ends and
/// the number it writes, or `None` for a number that `u64` cannot hold.
pub fn scan_digits(s: &[u8], from: usize) -> (r: (usize, Option<u64>))
    requires
        from <= s.len(),
    ensures
        r.0 == digits_end(s@, from as int),
        from <= r.0 <= s.len(),
        match r.1 {
            Some(v) => v == decimal(s@.subrange(from as int, r.0 as int)),
            None => decimal(s@.subrange(from as int, r.0 as int)) > u64::MAX,
        },
{
    let mut i: usize = from;
    let mut value: Option<u64> = Some(0);
    while i < s.len() && 0x30 <= s[i] && s[i] <= 0x39
        invariant
            from <= i <= s.len(),
            digits_end(s@, from as int) == digits_end(s@, i as int),
            match value {
                Some(v) => v == decimal(s@.subrange(from as int, i as int)),
                None => decimal(s@.subrange(from as int, i as int)) > u64::MAX,
            },
        decreases s.len() - i,
    {
        let d: u64 = (s[i] - 0x30) as u64;
        proof {
            assert(s@.subrange(from as int, i + 1).drop_last() =~= s@.subrange(
                from as int,
                i as int,
            ));
        }
        value =
        match value {
            Some(v) => match v.checked_mul(10) {
                Some(m) => m.checked_add(d),
                None => None,
            },
            None => None,
        };
        i = i + 1;
    }
    (i, value)
}

/// Finds the first `b` at or after `from`.
pub fn seek_byte(s: &[u8], from: usize, b: u8) -> (r: usize)
    requires
        from <= s.len(),
    ensures
        r == find_byte(s@, from as int, b),
        from <= r <= s.len(),
{
    let mut i: usize = from;
    while i < s.len() && s[i] != b
        invariant
            from <= i <= s.len(),
            find_byte(s@, from as int, b) == find_byte(s@, i as int, b),
        decreases s.len() - i,
    {
        i = i + 1;
    }
    i
}

/// Tells whether `s` holds `p` at index `at`.
pub fn matches_at(s: &[u8], at: usize, p: &[u8]) -> (r: bool)
    ensures
        r == holds_at(s@, at as int, p@),
{
    if at > s.len() || p.len() > s.len() - at {
        return false;
    }
    let mut k: usize = 0;
    while k < p.len()
        invariant
            at + p.len() <= s.len(),
            k <= p.len(),
            forall|j: int| 0 <= j < k ==> s@[at + j] == p@[j],
        decreases p.len() - k,
    {
        if s[at + k] != p[k] {
            proof {
                assert(s@.subrange(at as int, at + p.len())[k as int] == s@[at + k]);
            }
            return false;
        }
        k = k + 1;
    }
    proof {
        assert(s@.subrange(at as int, at + p.len()) =~= p@);
    }
    true
}

/// Whether `b` is a space or a tab.
pub open spec fn is_blank(b: u8) -> bool {
    b == SPACE || b == TAB
}

/// Where the run of blanks that starts at `from` ends.
pub open spec fn blanks_end(s: Seq<u8>, from: int) -> int
    decreases s.len() - from,
{
    if 0 <= from < s.len() && is_blank(s[from]) {
        blanks_end(s, from + 1)
    } else {
        from
    }
}

/// Where the run of blanks that ends before `to` starts.
pub open spec fn blanks_start(s: Seq<u8>, to: int) -> int
    decreases to,
{
    if 0 < to <= s.len() && is_blank(s[to - 1]) {
        blanks_start(s, to - 1)
    } else {
        to
    }
}

/// `s` without the blanks it begins with.
pub open spec fn trim_start(s: Seq<u8>) -> Seq<u8> {
    s.skip(blanks_end(s, 0))
}

/// `s` without the blanks it begins and ends with.
pub open spec fn trim(s: Seq<u8>) -> Seq<u8> {
    let t = trim_start(s);
    t.take(blanks_start(t, t.len() as int))
}

/// The lower-case form of an ASCII capital; any other byte stays.
pub open spec fn lower_byte(b: u8) -> u8 {
    if 0x41 <= b <= 0x5a {
        (b + 0x20) as u8
    } else {
        b
    }
}

/// `s` with each ASCII capital in lower case.
pub open spec fn lowered(s: Seq<u8>) -> Seq<u8> {
    Seq::new(s.len(), |i: int| lower_byte(s[i]))
}

/// Lowering twice is lowering once.
pub proof fn lemma_lowered_twice(s: Seq<u8>)
    ensures
        lowered(lowered(s)) == lowered(s),
{
    assert(lowered(lowered(s)) =~= lowered(s));
}

/// Drops the blanks that `s` begins with.
pub fn trim_start_of(s: &[u8]) -> (r: &[u8])
    ensures
        r@ == trim_start(s@),
{
    let mut i: usize = 0;
    while i < s.len() && (s[i] == SPACE || s[i] == TAB)
        invariant
            i <= s.len(),
            blanks_end(s@, 0) == blanks_end(s@, i as int),
        decreases s.len() - i,
    {
        i = i + 1;
    }
    &s[i..s.len()]
}

/// Drops the blanks that `s` begins and ends with.
pub fn trim_of(s: &[u8]) -> (r: &[u8])
    ensures
        r@ == trim(s@),
{
    let t = trim_start_of(s);
    let mut j: usize = t.len();
    while j > 0 && (t[j - 1] == SPACE || t[j - 1] == TAB)
        invariant
            j <= t.len(),
            blanks_start(t@, t.len() as int) == blanks_start(t@, j as int),
        decreases j,
    {
        j = j - 1;
    }
    &t[0..j]
}

/// Copies `s`, with each ASCII capital in lower case.
pub fn to_lower(s: &[u8]) -> (r: Vec<u8>)
    ensures
        r@ == lowered(s@),
{
    let mut out: Vec<u8> = Vec::new();
    let mut i: usize = 0;
    while i < s.len()
        invariant
            i <= s.len(),
            out@ == lowered(s@.take(i as int)),
        decreases s.len() - i,
    {
        let b = s[i];
        let low: u8 = if 0x41 <= b && b <= 0x5a {
            b + 0x20
        } else {
            b
        };
        out.push(low);
        proof {
            assert(out@ =~= lowered(s@.take(i + 1)));
        }
        i = i + 1;
    }
    proof {
        assert(s@.take(s.len() as int) =~= s@);
    }
    out
}

/// Copies `s`.
pub fn to_vec(s: &[u8]) -> (r: Vec<u8>)
    ensures
        r@ == s@,
{
    let mut out: Vec<u8> = Vec::new();
    out.extend_from_slice(s);
    assert(out@ =~= s@);
    out
}

/// Tells whether two byte strings are the same.
pub fn same_bytes(a: &[u8], b: &[u8]) -> (r: bool)
    ensures
        r == (a@ == b@),
{
    if a.len() != b.len() {
        return false;
    }
    let r = matches_at(a, 0, b);
    proof {
        assert(a@.subrange(0, a@.len() as int) =~= a@);
    }
    r
}

} // verus!
