//! Digits written out as text.

use vstd::prelude::*;

verus! {

/// The upper-case hexadecimal digit for a value below sixteen.
pub open spec fn hex_char(value: u8) -> char {
    if value < 10 {
        (('0' as u8) + value) as char
    } else {
        (('A' as u8) + (value - 10)) as char
    }
}

/// The hexadecimal digits of a sequence of nibbles.
pub open spec fn hex_chars(nibbles: Seq<u8>) -> Seq<char> {
    nibbles.map_values(|nibble: u8| hex_char(nibble))
}

/// A number written out in base ten.
pub open spec fn decimal_chars(value: nat) -> Seq<char>
    decreases value,
{
    if value < 10 {
        seq![hex_char(value as u8)]
    } else {
        decimal_chars(value / 10).push(hex_char((value % 10) as u8))
    }
}

/// Gives the upper-case hexadecimal digit for `value`.
pub fn hex_digit(value: u8) -> (digit: &'static str)
    requires
        value < 16,
    ensures
        digit@ == seq![hex_char(value)],
{
    proof {
        reveal_strlit("0");
        reveal_strlit("1");
        reveal_strlit("2");
        reveal_strlit("3");
        reveal_strlit("4");
        reveal_strlit("5");
        reveal_strlit("6");
        reveal_strlit("7");
        reveal_strlit("8");
        reveal_strlit("9");
        reveal_strlit("A");
        reveal_strlit("B");
        reveal_strlit("C");
        reveal_strlit("D");
        reveal_strlit("E");
        reveal_strlit("F");
    }
    match value {
        0 => "0",
        1 => "1",
        2 => "2",
        3 => "3",
        4 => "4",
        5 => "5",
        6 => "6",
        7 => "7",
        8 => "8",
        9 => "9",
        10 => "A",
        11 => "B",
        12 => "C",
        13 => "D",
        14 => "E",
        _ => "F",
    }
}

/// Writes `value` out in base ten.
pub fn decimal_string(value: usize) -> (text: String)
    ensures
        text@ == decimal_chars(value as nat),
    decreases value,
{
    if value < 10 {
        hex_digit(value as u8).to_owned()
    } else {
        let mut text = decimal_string(value / 10);
        text.append(hex_digit((value % 10) as u8));
        text
    }
}

/// The digits are those that hexadecimal numbers are written with.
pub proof fn law_digits_are_hexadecimal(value: u8)
    requires
        value < 16,
    ensures
        hex_char(value) == "0123456789ABCDEF"@[value as int],
{
    reveal_strlit("0123456789ABCDEF");
}

/// A number in base ten is written digit by digit, the last one being its rest by ten.
pub proof fn law_last_digit_is_the_rest_by_ten(rest: nat, digit: nat)
    requires
        digit < 10,
    ensures
        decimal_chars(10 * rest + digit) == if rest == 0 {
            seq![hex_char(digit as u8)]
        } else {
            decimal_chars(rest).push(hex_char(digit as u8))
        },
{
    assert((10 * rest + digit) / 10 == rest);
    assert((10 * rest + digit) % 10 == digit);
}

} // verus!
