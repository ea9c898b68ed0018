//! Hexadecimal labels for token ids.

use vstd::prelude::*;
use vstd::string::*;

verus! {

/// The lower-case hexadecimal digit of a value below sixteen.
pub open spec fn hex_digit(d: nat) -> char {
    if d == 0 {
        '0'
    } else if d == 1 {
        '1'
    } else if d == 2 {
        '2'
    } else if d == 3 {
        '3'
    } else if d == 4 {
        '4'
    } else if d == 5 {
        '5'
    } else if d == 6 {
        '6'
    } else if d == 7 {
        '7'
    } else if d == 8 {
        '8'
    } else if d == 9 {
        '9'
    } else if d == 10 {
        'a'
    } else if d == 11 {
        'b'
    } else if d == 12 {
        'c'
    } else if d == 13 {
        'd'
    } else if d == 14 {
        'e'
    } else {
        'f'
    }
}

/// A number in hexadecimal, most significant digit first, without padding.
pub open spec fn hex_digits(n: nat) -> Seq<char>
    decreases n,
{
    if n < 16 {
        seq![hex_digit(n)]
    } else {
        hex_digits(n / 16).push(hex_digit(n % 16))
    }
}

/// A number in hexadecimal behind the prefix `0x`, padded with zeros to
/// three digits.
pub open spec fn hex_label(n: nat) -> Seq<char> {
    let padding = if n < 0x10 {
        seq!['0', '0']
    } else if n < 0x100 {
        seq!['0']
    } else {
        Seq::<char>::empty()
    };
    seq!['0', 'x'] + padding + hex_digits(n)
}

fn digit_text(d: u32) -> (text: &'static str)
    requires
        d < 16,
    ensures
        text@ == seq![hex_digit(d as nat)],
{
    proof {
        reveal_strlit("0");
        reveal_strlit("1");
        reveal_strlit("2");
        reveal_strlit("3");
        reveal_strlit("4");
        reveal_strlit("5");
        reveal_strlit("6");
        reveal_strlit("7");
        reveal_strlit("8");
        reveal_strlit("9");
        reveal_strlit("a");
        reveal_strlit("b");
        reveal_strlit("c");
        reveal_strlit("d");
        reveal_strlit("e");
        reveal_strlit("f");
    }
    let text = if d == 0 {
        "0"
    } else if d == 1 {
        "1"
    } else if d == 2 {
        "2"
    } else if d == 3 {
        "3"
    } else if d == 4 {
        "4"
    } else if d == 5 {
        "5"
    } else if d == 6 {
        "6"
    } else if d == 7 {
        "7"
    } else if d == 8 {
        "8"
    } else if d == 9 {
        "9"
    } else if d == 10 {
        "a"
    } else if d == 11 {
        "b"
    } else if d == 12 {
        "c"
    } else if d == 13 {
        "d"
    } else if d == 14 {
        "e"
    } else {
        "f"
    };
    assert(text@ =~= seq![hex_digit(d as nat)]);
    text
}

/// Appends a number in hexadecimal, without padding.
pub fn push_hex_digits(text: &mut String, n: u32)
    ensures
        final(text)@ == old(text)@ + hex_digits(n as nat),
    decreases n,
{
    if n >= 16 {
        push_hex_digits(text, n / 16);
    }
    text.append(digit_text(n % 16));
    assert(final(text)@ =~= old(text)@ + hex_digits(n as nat));
}

/// Appends a number in hexadecimal behind the prefix `0x`, padded with zeros
/// to three digits.
pub fn push_hex_label(text: &mut String, n: u32)
    ensures
        final(text)@ == old(text)@ + hex_label(n as nat),
{
    proof {
        reveal_strlit("0x00");
        reveal_strlit("0x0");
        reveal_strlit("0x");
    }
    if n < 0x10 {
        text.append("0x00");
    } else if n < 0x100 {
        text.append("0x0");
    } else {
        text.append("0x");
    }
    let ghost prefixed = text@;
    assert(prefixed + hex_digits(n as nat) =~= old(text)@ + hex_label(n as nat));
    push_hex_digits(text, n);
}

} // verus!
