//! Building of messages.

use vstd::prelude::*;
use vstd::string::StringExecFns;

verus! {

/// The digit for a number below ten.
pub open spec fn digit_char(digit: int) -> char {
    if digit == 0 {
        '0'
    } else if digit == 1 {
        '1'
    } else if digit == 2 {
        '2'
    } else if digit == 3 {
        '3'
    } else if digit == 4 {
        '4'
    } else if digit == 5 {
        '5'
    } else if digit == 6 {
        '6'
    } else if digit == 7 {
        '7'
    } else if digit == 8 {
        '8'
    } else {
        '9'
    }
}

/// A number in decimal digits.
pub open spec fn decimal(number: nat) -> Seq<char>
    decreases number,
{
    if number < 10 {
        seq![digit_char(number as int)]
    } else {
        decimal(number / 10).push(digit_char((number % 10) as int))
    }
}

/// The digit for a number below ten, as a string.
fn digit_text(digit: u64) -> (text: &'static str)
    requires
        digit < 10,
    ensures
        text@ == seq![digit_char(digit as int)],
{
    proof {
        reveal_strlit("0");
        reveal_strlit("1");
        reveal_strlit("2");
        reveal_strlit("3");
        reveal_strlit("4");
        reveal_strlit("5");
        reveal_strlit("6");
        reveal_strlit("7");
        reveal_strlit("8");
        reveal_strlit("9");
    }
    let text = match digit {
        0 => "0",
        1 => "1",
        2 => "2",
        3 => "3",
        4 => "4",
        5 => "5",
        6 => "6",
        7 => "7",
        8 => "8",
        _ => "9",
    };
    assert(text@ =~= seq![digit_char(digit as int)]);
    text
}

/// Append a number in decimal digits.
pub fn push_decimal(text: &mut String, number: u64)
    ensures
        final(text)@ == old(text)@ + decimal(number as nat),
    decreases number,
{
    if number >= 10 {
        push_decimal(text, number / 10);
    }
    text.append(digit_text(number % 10));
    assert(text@ =~= old(text)@ + decimal(number as nat));
}

/// A number in decimal digits, with a minus sign where it is negative.
pub open spec fn signed_decimal(number: int) -> Seq<char> {
    if number < 0 {
        "-"@ + decimal((-number) as nat)
    } else {
        decimal(number as nat)
    }
}

/// Append a number in decimal digits, with a minus sign where it is negative.
pub fn push_signed(text: &mut String, number: i32)
    ensures
        final(text)@ == old(text)@ + signed_decimal(number as int),
{
    if number < 0 {
        text.append("-");
        push_decimal(text, (-(number as i64)) as u64);
        assert(text@ =~= old(text)@ + signed_decimal(number as int));
    } else {
        push_decimal(text, number as u64);
    }
}

/// The lower-case hexadecimal digit for a number below sixteen.
pub open spec fn hex_char(digit: int) -> char {
    if digit == 10 {
        'a'
    } else if digit == 11 {
        'b'
    } else if digit == 12 {
        'c'
    } else if digit == 13 {
        'd'
    } else if digit == 14 {
        'e'
    } else if digit == 15 {
        'f'
    } else {
        digit_char(digit)
    }
}

/// The last `digits` hexadecimal digits of a number.
pub open spec fn hexadecimal(number: nat, digits: nat) -> Seq<char>
    decreases digits,
{
    if digits == 0 {
        Seq::empty()
    } else {
        hexadecimal(number / 16, (digits - 1) as nat).push(hex_char((number % 16) as int))
    }
}

/// The hexadecimal digit for a number below sixteen, as a string.
fn hex_text(digit: u32) -> (text: &'static str)
    requires
        digit < 16,
    ensures
        text@ == seq![hex_char(digit as int)],
{
    if digit < 10 {
        return digit_text(digit as u64);
    }
    proof {
        reveal_strlit("a");
        reveal_strlit("b");
        reveal_strlit("c");
        reveal_strlit("d");
        reveal_strlit("e");
        reveal_strlit("f");
    }
    let text = match digit {
        10 => "a",
        11 => "b",
        12 => "c",
        13 => "d",
        14 => "e",
        _ => "f",
    };
    assert(text@ =~= seq![hex_char(digit as int)]);
    text
}

/// Append the last `digits` hexadecimal digits of a number.
pub fn push_hexadecimal(text: &mut String, number: u32, digits: u8)
    ensures
        final(text)@ == old(text)@ + hexadecimal(number as nat, digits as nat),
    decreases digits,
{
    if digits > 0 {
        push_hexadecimal(text, number / 16, digits - 1);
        text.append(hex_text(number % 16));
    }
    assert(text@ =~= old(text)@ + hexadecimal(number as nat, digits as nat));
}

/// A message without numbers.
pub fn plain(words: &str) -> (text: String)
    ensures
        text@ == words@,
{
    let mut text = String::new();
    text.append(words);
    assert(text@ =~= words@);
    text
}

/// A message with a number between two pieces of text.
pub fn with_number(before: &str, number: u64, after: &str) -> (text: String)
    ensures
        text@ == before@ + decimal(number as nat) + after@,
{
    let mut text = plain(before);
    push_decimal(&mut text, number);
    text.append(after);
    text
}

/// A message with two numbers between three pieces of text.
pub fn with_two_numbers(before: &str, first: u64, between: &str, second: u64, after: &str) -> (text:
    String)
    ensures
        text@ == before@ + decimal(first as nat) + between@ + decimal(second as nat) + after@,
{
    let mut text = with_number(before, first, between);
    push_decimal(&mut text, second);
    text.append(after);
    text
}

/// A message with three numbers between four pieces of text.
pub fn with_three_numbers(
    before: &str,
    first: u64,
    between: &str,
    second: u64,
    beyond: &str,
    third: u64,
    after: &str,
) -> (text: String)
    ensures
        text@ == before@ + decimal(first as nat) + between@ + decimal(second as nat) + beyond@
            + decimal(third as nat) + after@,
{
    let mut text = with_two_numbers(before, first, between, second, beyond);
    push_decimal(&mut text, third);
    text.append(after);
    text
}

} // verus!
