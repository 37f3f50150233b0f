//! Numbers as text: reading a decimal integer from a line of input, and
//! writing numbers in decimal, binary and hexadecimal.

use vstd::prelude::*;
use vstd::string::*;

verus! {

/// ASCII white space: the space, and the controls from tab to carriage return.
pub open spec fn is_space(byte: u8) -> bool {
    byte == 32 || 9 <= byte <= 13
}

/// An ASCII decimal digit.
pub open spec fn is_digit(byte: u8) -> bool {
    48 <= byte <= 57
}

pub open spec fn all_digits(text: Seq<u8>) -> bool {
    forall|i: int| 0 <= i < text.len() ==> is_digit(#[trigger] text[i])
}

/// The number that a string of decimal digits denotes.
pub open spec fn digits_value(digits: Seq<u8>) -> int
    decreases digits.len(),
{
    if digits.len() == 0 {
        0
    } else {
        10 * digits_value(digits.drop_last()) + (digits.last() - 48)
    }
}

/// The first position from `from` on that holds no white space.
pub open spec fn trim_start(text: Seq<u8>, from: int) -> int
    decreases text.len() - from,
{
    if 0 <= from < text.len() && is_space(text[from]) {
        trim_start(text, from + 1)
    } else {
        from
    }
}

/// The end of the text before position `to` without the white space that it
/// ends with.
pub open spec fn trim_end(text: Seq<u8>, to: int) -> int
    decreases to,
{
    if 0 < to <= text.len() && is_space(text[to - 1]) {
        trim_end(text, to - 1)
    } else {
        to
    }
}

/// The text without the white space at its start and at its end.
pub open spec fn trimmed(text: Seq<u8>) -> Seq<u8> {
    let start = trim_start(text, 0);
    let end = trim_end(text, text.len() as int);
    if start < end {
        text.subrange(start, end)
    } else {
        Seq::empty()
    }
}

/// The integer that a text denotes in decimal: an optional sign and at least
/// one digit, nothing else.
pub open spec fn decimal_value(text: Seq<u8>) -> Option<int> {
    if text.len() > 0 && (text[0] == 45 || text[0] == 43) {
        let digits = text.subrange(1, text.len() as int);
        if digits.len() > 0 && all_digits(digits) {
            Some(
                if text[0] == 45 {
                    -digits_value(digits)
                } else {
                    digits_value(digits)
                },
            )
        } else {
            None
        }
    } else if text.len() > 0 && all_digits(text) {
        Some(digits_value(text))
    } else {
        None
    }
}

/// The signed 32-bit integer that a line denotes in decimal, white space
/// around it ignored, if it denotes one.
pub open spec fn parse_decimal_spec(line: Seq<u8>) -> Option<i32> {
    match decimal_value(trimmed(line)) {
        Some(value) => if -0x8000_0000 <= value < 0x8000_0000 {
            Some(value as i32)
        } else {
            None
        },
        None => None,
    }
}

/// A string of digits denotes at least what any of its prefixes denotes.
proof fn lemma_digits_value_grows(digits: Seq<u8>, k: int)
    requires
        all_digits(digits),
        0 <= k <= digits.len(),
    ensures
        0 <= digits_value(digits.subrange(0, k)) <= digits_value(digits),
    decreases digits.len(),
{
    if k == digits.len() {
        assert(digits.subrange(0, k) =~= digits);
        if digits.len() > 0 {
            lemma_digits_value_grows(digits.drop_last(), k - 1);
        }
    } else {
        lemma_digits_value_grows(digits.drop_last(), k);
        assert(digits.drop_last().subrange(0, k) =~= digits.subrange(0, k));
    }
}

/// Trimming the end of a text gives a position in the text.
proof fn lemma_trim_end_bound(text: Seq<u8>, to: int)
    requires
        0 <= to <= text.len(),
    ensures
        0 <= trim_end(text, to) <= to,
    decreases to,
{
    if 0 < to && is_space(text[to - 1]) {
        lemma_trim_end_bound(text, to - 1);
    }
}

fn is_space_byte(byte: u8) -> (space: bool)
    ensures
        space == is_space(byte),
{
    byte == 32 || (9 <= byte && byte <= 13)
}

/// Reads a line as a signed decimal integer: white space around it is
/// ignored, a sign may stand before the digits, and the value has to fit in
/// 32 bits.
pub fn parse_decimal(line: &[u8]) -> (value: Option<i32>)
    ensures
        value == parse_decimal_spec(line@),
{
    let mut start: usize = 0;
    while start < line.len() && is_space_byte(line[start])
        invariant
            start <= line@.len(),
            trim_start(line@, start as int) == trim_start(line@, 0),
        decreases line@.len() - start,
    {
        start += 1;
    }
    let mut end: usize = line.len();
    while end > start && is_space_byte(line[end - 1])
        invariant
            start <= end <= line@.len(),
            start == line@.len() || !is_space(line@[start as int]),
            end == start ==> start == line@.len(),
            trim_end(line@, end as int) == trim_end(line@, line@.len() as int),
        decreases end,
    {
        end -= 1;
    }
    if start == end {
        proof {
            lemma_trim_end_bound(line@, line@.len() as int);
        }
        return None;
    }
    let ghost text = line@.subrange(start as int, end as int);
    assert(text == trimmed(line@));
    let negative = line[start] == 45;
    let first = if line[start] == 45 || line[start] == 43 {
        start + 1
    } else {
        start
    };
    let ghost digits = line@.subrange(first as int, end as int);
    assert(text[0] == line@[start as int]);
    assert(first > start ==> digits =~= text.subrange(1, text.len() as int));
    assert(first == start ==> digits =~= text);
    if first == end {
        return None;
    }
    let ghost sign: int = if negative {
        -1
    } else {
        1
    };
    assert(decimal_value(text) == if all_digits(digits) {
        Some(sign * digits_value(digits))
    } else {
        None
    });
    let mut acc: i64 = 0;
    let mut i: usize = first;
    while i < end
        invariant
            first <= i <= end <= line@.len(),
            digits == line@.subrange(first as int, end as int),
            text == trimmed(line@),
            sign == 1 || sign == -1,
            decimal_value(text) == if all_digits(digits) {
                Some(sign * digits_value(digits))
            } else {
                None
            },
            all_digits(digits.subrange(0, i - first)),
            acc == digits_value(digits.subrange(0, i - first)),
            0 <= acc <= 0x8000_0000,
        decreases end - i,
    {
        let byte = line[i];
        if !(48 <= byte && byte <= 57) {
            assert(!is_digit(digits[i - first]));
            return None;
        }
        let ghost prefix = digits.subrange(0, i - first + 1);
        assert(prefix.drop_last() =~= digits.subrange(0, i - first));
        assert(prefix.last() == byte);
        acc = acc * 10 + (byte - 48) as i64;
        if acc > 0x8000_0000 {
            proof {
                if all_digits(digits) {
                    lemma_digits_value_grows(digits, i - first + 1);
                }
            }
            return None;
        }
        i += 1;
    }
    assert(digits.subrange(0, end - first) =~= digits);
    let value = if negative {
        -acc
    } else {
        acc
    };
    if -0x8000_0000 <= value && value < 0x8000_0000 {
        Some(value as i32)
    } else {
        None
    }
}

/// The character of a digit, in any base up to sixteen, letters in lower case.
pub open spec fn digit_char(digit: int) -> char {
    if digit == 0 {
        '0'
    } else if digit == 1 {
        '1'
    } else if digit == 2 {
        '2'
    } else if digit == 3 {
        '3'
    } else if digit == 4 {
        '4'
    } else if digit == 5 {
        '5'
    } else if digit == 6 {
        '6'
    } else if digit == 7 {
        '7'
    } else if digit == 8 {
        '8'
    } else if digit == 9 {
        '9'
    } else if digit == 10 {
        'a'
    } else if digit == 11 {
        'b'
    } else if digit == 12 {
        'c'
    } else if digit == 13 {
        'd'
    } else if digit == 14 {
        'e'
    } else {
        'f'
    }
}

/// A natural number in decimal, without leading zeros.
pub open spec fn decimal(n: nat) -> Seq<char>
    decreases n,
{
    if n < 10 {
        seq![digit_char(n as int)]
    } else {
        decimal(n / 10) + seq![digit_char((n % 10) as int)]
    }
}

/// The hexadecimal digits of a natural number, without leading zeros.
pub open spec fn hexadecimal_digits(n: nat) -> Seq<char>
    decreases n,
{
    if n < 16 {
        seq![digit_char(n as int)]
    } else {
        hexadecimal_digits(n / 16) + seq![digit_char((n % 16) as int)]
    }
}

/// The `width` lowest binary digits of a number, leading zeros kept.
pub open spec fn binary_digits(n: nat, width: nat) -> Seq<char>
    decreases width,
{
    if width == 0 {
        Seq::empty()
    } else {
        binary_digits(n / 2, (width - 1) as nat) + seq![digit_char((n % 2) as int)]
    }
}

/// An integer in decimal, with a minus sign if it is negative.
pub open spec fn signed_decimal(value: int) -> Seq<char> {
    if value < 0 {
        seq!['-'] + decimal((-value) as nat)
    } else {
        decimal(value as nat)
    }
}

/// A natural number in hexadecimal, with the prefix `0x`.
pub open spec fn hexadecimal(n: nat) -> Seq<char> {
    seq!['0', 'x'] + hexadecimal_digits(n)
}

/// The text of one digit.
fn digit_text(digit: u64) -> (text: &'static str)
    requires
        digit < 16,
    ensures
        text@ == seq![digit_char(digit as int)],
{
    proof {
        reveal_strlit("0");
        reveal_strlit("1");
        reveal_strlit("2");
        reveal_strlit("3");
        reveal_strlit("4");
        reveal_strlit("5");
        reveal_strlit("6");
        reveal_strlit("7");
        reveal_strlit("8");
        reveal_strlit("9");
        reveal_strlit("a");
        reveal_strlit("b");
        reveal_strlit("c");
        reveal_strlit("d");
        reveal_strlit("e");
        reveal_strlit("f");
    }
    let text = match digit {
        0 => "0",
        1 => "1",
        2 => "2",
        3 => "3",
        4 => "4",
        5 => "5",
        6 => "6",
        7 => "7",
        8 => "8",
        9 => "9",
        10 => "a",
        11 => "b",
        12 => "c",
        13 => "d",
        14 => "e",
        _ => "f",
    };
    assert(text@ =~= seq![digit_char(digit as int)]);
    text
}

/// Appends a natural number in decimal to a text.
pub fn push_decimal(text: &mut String, n: u32)
    ensures
        final(text)@ == old(text)@ + decimal(n as nat),
    decreases n,
{
    if n >= 10 {
        push_decimal(text, n / 10);
    }
    text.append(digit_text((n % 10) as u64));
    assert(text@ =~= old(text)@ + decimal(n as nat));
}

/// Appends the hexadecimal digits of a natural number to a text.
fn push_hexadecimal_digits(text: &mut String, n: u32)
    ensures
        final(text)@ == old(text)@ + hexadecimal_digits(n as nat),
    decreases n,
{
    if n >= 16 {
        push_hexadecimal_digits(text, n / 16);
    }
    text.append(digit_text((n % 16) as u64));
    assert(text@ =~= old(text)@ + hexadecimal_digits(n as nat));
}

/// Appends the `width` lowest binary digits of a number to a text.
pub fn push_binary(text: &mut String, n: u32, width: u32)
    ensures
        final(text)@ == old(text)@ + binary_digits(n as nat, width as nat),
    decreases width,
{
    if width > 0 {
        push_binary(text, n / 2, width - 1);
        text.append(digit_text((n % 2) as u64));
    }
    assert(text@ =~= old(text)@ + binary_digits(n as nat, width as nat));
}

/// Appends an integer in decimal to a text.
pub fn push_signed_decimal(text: &mut String, value: i32)
    ensures
        final(text)@ == old(text)@ + signed_decimal(value as int),
{
    if value < 0 {
        proof {
            reveal_strlit("-");
        }
        text.append("-");
        push_decimal(text, (-(value as i64)) as u32);
        assert(text@ =~= old(text)@ + signed_decimal(value as int));
    } else {
        push_decimal(text, value as u32);
    }
}

/// Appends a natural number in hexadecimal, with the prefix `0x`, to a text.
pub fn push_hexadecimal(text: &mut String, n: u32)
    ensures
        final(text)@ == old(text)@ + hexadecimal(n as nat),
{
    proof {
        reveal_strlit("0x");
    }
    text.append("0x");
    push_hexadecimal_digits(text, n);
    assert(text@ =~= old(text)@ + hexadecimal(n as nat));
}

} // verus!
