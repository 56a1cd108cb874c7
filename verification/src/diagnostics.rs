//! Labels that say where in the source an error check stands.

use vstd::prelude::*;
use vstd::string::StringExecFns;

verus! {

/// The character for one decimal digit.
pub open spec fn digit_char(d: int) -> char {
    if d == 0 {
        '0'
    } else if d == 1 {
        '1'
    } else if d == 2 {
        '2'
    } else if d == 3 {
        '3'
    } else if d == 4 {
        '4'
    } else if d == 5 {
        '5'
    } else if d == 6 {
        '6'
    } else if d == 7 {
        '7'
    } else if d == 8 {
        '8'
    } else {
        '9'
    }
}

/// `n` written in decimal, without leading zeros.
pub open spec fn decimal(n: nat) -> Seq<char>
    decreases n,
{
    if n < 10 {
        seq![digit_char(n as int)]
    } else {
        decimal(n / 10).push(digit_char((n % 10) as int))
    }
}

/// `file:line`
pub open spec fn location(file: Seq<char>, line: nat) -> Seq<char> {
    file + seq![':'] + decimal(line)
}

/// `file:line`, two spaces, and the message.
pub open spec fn location_with_message(file: Seq<char>, line: nat, message: Seq<char>) -> Seq<
    char,
> {
    location(file, line) + seq![' ', ' '] + message
}

/// `file:line`, one space, and the formatted text.
pub open spec fn location_with_text(file: Seq<char>, line: nat, text: Seq<char>) -> Seq<char> {
    location(file, line) + seq![' '] + text
}

/// The text of one decimal digit.
fn digit_text(d: u32) -> (text: &'static str)
    requires
        d < 10,
    ensures
        text@ == seq![digit_char(d as int)],
{
    proof {
        reveal_strlit("0");
        reveal_strlit("1");
        reveal_strlit("2");
        reveal_strlit("3");
        reveal_strlit("4");
        reveal_strlit("5");
        reveal_strlit("6");
        reveal_strlit("7");
        reveal_strlit("8");
        reveal_strlit("9");
    }
    let text = if d == 0 {
        "0"
    } else if d == 1 {
        "1"
    } else if d == 2 {
        "2"
    } else if d == 3 {
        "3"
    } else if d == 4 {
        "4"
    } else if d == 5 {
        "5"
    } else if d == 6 {
        "6"
    } else if d == 7 {
        "7"
    } else if d == 8 {
        "8"
    } else {
        "9"
    };
    assert(text@ =~= seq![digit_char(d as int)]);
    text
}

/// Appends `n` in decimal to `out`.
fn append_decimal(out: &mut String, n: u32)
    ensures
        final(out)@ == old(out)@ + decimal(n as nat),
    decreases n,
{
    if n >= 10 {
        append_decimal(out, n / 10);
    }
    out.append(digit_text(n % 10));
    assert(final(out)@ =~= old(out)@ + decimal(n as nat));
}

/// The label of a check at `line` of `file`: `file:line`.
pub fn error_location(file: &str, line: u32) -> (label: String)
    ensures
        label@ == location(file@, line as nat),
{
    proof {
        reveal_strlit(":");
    }
    let mut label = String::from_str(file);
    label.append(":");
    append_decimal(&mut label, line);
    assert(label@ =~= location(file@, line as nat));
    label
}

/// The label of a check that carries a message: `file:line`, two spaces,
/// and the message.
pub fn error_location_with_message(file: &str, line: u32, message: &str) -> (label: String)
    ensures
        label@ == location_with_message(file@, line as nat, message@),
{
    proof {
        reveal_strlit("  ");
    }
    let mut label = error_location(file, line);
    label.append("  ");
    label.append(message);
    assert(label@ =~= location_with_message(file@, line as nat, message@));
    label
}

/// The label of a check that carries formatted text: `file:line`, one
/// space, and the text.
pub fn error_location_with_text(file: &str, line: u32, text: &str) -> (label: String)
    ensures
        label@ == location_with_text(file@, line as nat, text@),
{
    proof {
        reveal_strlit(" ");
    }
    let mut label = error_location(file, line);
    label.append(" ");
    label.append(text);
    assert(label@ =~= location_with_text(file@, line as nat, text@));
    label
}

} // verus!
