//! Formatting of version reports.
//!
//! The protocol-version and firmware reports carry a major and a minor byte;
//! the board model keeps them as a string, each component written in octal
//! digits and the two joined by a dot.

use vstd::prelude::*;

verus! {

/// The character for one octal digit.
pub open spec fn oct_digit(d: int) -> char {
    if d == 0 {
        '0'
    } else if d == 1 {
        '1'
    } else if d == 2 {
        '2'
    } else if d == 3 {
        '3'
    } else if d == 4 {
        '4'
    } else if d == 5 {
        '5'
    } else if d == 6 {
        '6'
    } else {
        '7'
    }
}

/// The octal digits of a byte, most significant first, without leading
/// zeroes (a lone zero is written "0").
pub open spec fn oct_chars(n: u8) -> Seq<char> {
    if n < 8 {
        seq![oct_digit(n as int)]
    } else if n < 64 {
        seq![oct_digit(n as int / 8), oct_digit(n as int % 8)]
    } else {
        seq![oct_digit(n as int / 64), oct_digit((n as int / 8) % 8), oct_digit(n as int % 8)]
    }
}

/// A version report's text: the major and minor byte in octal, joined by a
/// dot.
pub open spec fn version_chars(major: u8, minor: u8) -> Seq<char> {
    oct_chars(major) + seq!['.'] + oct_chars(minor)
}

fn oct_digit_str(d: u8) -> (r: &'static str)
    requires
        d < 8,
    ensures
        r@ == seq![oct_digit(d as int)],
{
    proof {
        reveal_strlit("0");
        reveal_strlit("1");
        reveal_strlit("2");
        reveal_strlit("3");
        reveal_strlit("4");
        reveal_strlit("5");
        reveal_strlit("6");
        reveal_strlit("7");
    }
    let r = if d == 0 {
        "0"
    } else if d == 1 {
        "1"
    } else if d == 2 {
        "2"
    } else if d == 3 {
        "3"
    } else if d == 4 {
        "4"
    } else if d == 5 {
        "5"
    } else if d == 6 {
        "6"
    } else {
        "7"
    };
    proof {
        assert(r@ =~= seq![oct_digit(d as int)]);
    }
    r
}

fn push_oct(s: &mut String, n: u8)
    ensures
        final(s)@ == old(s)@ + oct_chars(n),
{
    if n >= 64 {
        s.append(oct_digit_str(n / 64));
    }
    if n >= 8 {
        s.append(oct_digit_str((n / 8) % 8));
    }
    s.append(oct_digit_str(n % 8));
    proof {
        assert(s@ =~= old(s)@ + oct_chars(n));
    }
}

/// Builds the version text that a report with the given major and minor
/// bytes yields.
pub fn version_string(major: u8, minor: u8) -> (r: String)
    ensures
        r@ == version_chars(major, minor),
{
    let mut s = String::new();
    push_oct(&mut s, major);
    s.append(".");
    push_oct(&mut s, minor);
    proof {
        reveal_strlit(".");
        assert(s@ =~= version_chars(major, minor));
    }
    s
}

/// Relies on `String::push`: appends exactly the one character at the end.
#[verifier::external_body]
pub(crate) fn push_char(s: &mut String, c: char)
    ensures
        final(s)@ == old(s)@.push(c),
{
    s.push(c);
}

} // verus!
