//! What the server is told: the commands that fetch a message and mark
//! it as seen.

use vstd::prelude::*;
use vstd::string::StringExecFns;

verus! {

/// How a digit is written.
pub open spec fn digit_text(d: nat) -> Seq<char> {
    if d == 0 {
        "0"@
    } else if d == 1 {
        "1"@
    } else if d == 2 {
        "2"@
    } else if d == 3 {
        "3"@
    } else if d == 4 {
        "4"@
    } else if d == 5 {
        "5"@
    } else if d == 6 {
        "6"@
    } else if d == 7 {
        "7"@
    } else if d == 8 {
        "8"@
    } else {
        "9"@
    }
}

/// How a number is written: in decimal digits, without zeros before it.
pub open spec fn number_text(n: nat) -> Seq<char>
    decreases n,
{
    if n < 10 {
        digit_text(n)
    } else {
        number_text(n / 10) + digit_text(n % 10)
    }
}

/// The command that asks for the flags and the whole of the message at a
/// place, and leaves the message unseen.
pub open spec fn fetch_command_text(sequence: nat) -> Seq<char> {
    "FETCH "@ + number_text(sequence) + " (FLAGS BODY.PEEK[])"@
}

/// Writes a digit behind a text.
fn write_digit(d: u64, out: &mut String)
    requires
        d < 10,
    ensures
        final(out)@ == old(out)@ + digit_text(d as nat),
{
    let text = if d == 0 {
        "0"
    } else if d == 1 {
        "1"
    } else if d == 2 {
        "2"
    } else if d == 3 {
        "3"
    } else if d == 4 {
        "4"
    } else if d == 5 {
        "5"
    } else if d == 6 {
        "6"
    } else if d == 7 {
        "7"
    } else if d == 8 {
        "8"
    } else {
        "9"
    };
    out.append(text);
}

/// Writes a number behind a text.
pub fn write_number(n: u64, out: &mut String)
    ensures
        final(out)@ == old(out)@ + number_text(n as nat),
    decreases n,
{
    if n >= 10 {
        write_number(n / 10, out);
    }
    let ghost before = out@;
    write_digit(n % 10, out);
    proof {
        if n >= 10 {
            assert(out@ =~= old(out)@ + (number_text((n / 10) as nat) + digit_text(
                (n % 10) as nat,
            )));
        }
    }
}

/// Writes the command that fetches the message at a place.
pub fn fetch_command(sequence: usize) -> (r: String)
    ensures
        r@ == fetch_command_text(sequence as nat),
{
    let mut out: String = "FETCH ".to_owned();
    write_number(sequence as u64, &mut out);
    out.append(" (FLAGS BODY.PEEK[])");
    out
}

/// Writes the number of a message as the server is told it.
pub fn message_number(uid: u32) -> (r: String)
    ensures
        r@ == number_text(uid as nat),
{
    let mut out: String = String::new();
    write_number(uid as u64, &mut out);
    assert(out@ =~= number_text(uid as nat));
    out
}

/// What the server is told to do to a message to mark it as seen.
pub fn seen_flag() -> (r: &'static str)
    ensures
        r@ == "+FLAGS \\Seen"@,
{
    "+FLAGS \\Seen"
}

} // verus!
