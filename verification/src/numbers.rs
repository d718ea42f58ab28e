//! Numbers as texts.

use vstd::prelude::*;

use crate::chars::to_chars;

verus! {

/// The decimal digit of a number below ten.
pub open spec fn digit_char(d: nat) -> char {
    if d == 0 {
        '0'
    } else if d == 1 {
        '1'
    } else if d == 2 {
        '2'
    } else if d == 3 {
        '3'
    } else if d == 4 {
        '4'
    } else if d == 5 {
        '5'
    } else if d == 6 {
        '6'
    } else if d == 7 {
        '7'
    } else if d == 8 {
        '8'
    } else {
        '9'
    }
}

fn to_digit_char(d: usize) -> (c: char)
    requires
        d < 10,
    ensures
        c == digit_char(d as nat),
{
    match d {
        0 => '0',
        1 => '1',
        2 => '2',
        3 => '3',
        4 => '4',
        5 => '5',
        6 => '6',
        7 => '7',
        8 => '8',
        _ => '9',
    }
}

/// A number in decimal digits.
pub open spec fn decimal(n: nat) -> Seq<char>
    decreases n,
{
    if n < 10 {
        seq![digit_char(n)]
    } else {
        decimal(n / 10).push(digit_char(n % 10))
    }
}

/// A number in decimal digits.
pub fn to_decimal(n: usize) -> (text: String)
    ensures
        text@ == decimal(n as nat),
    decreases n,
{
    if n < 10 {
        let mut text: String = String::new();
        text.push(to_digit_char(n));
        assert(text@ == seq![digit_char(n as nat)]);
        text
    } else {
        let mut text: String = to_decimal(n / 10);
        text.push(to_digit_char(n % 10));
        text
    }
}

/// The value of a decimal digit.
pub open spec fn digit_value(c: char) -> Option<nat> {
    if '0' <= c <= '9' {
        Some((c as nat - '0' as nat) as nat)
    } else {
        None
    }
}

/// The value of a text of decimal digits; an empty text has the value zero.
pub open spec fn digits_value(text: Seq<char>) -> Option<nat>
    decreases text.len(),
{
    if text.len() == 0 {
        Some(0)
    } else {
        match (digits_value(text.drop_last()), digit_value(text.last())) {
            (Some(high), Some(low)) => Some(10 * high + low),
            _ => None,
        }
    }
}

/// The number that a text stands for: decimal digits, perhaps behind a plus sign, with a value that
/// fits.
pub open spec fn number_of(text: Seq<char>) -> Option<nat> {
    let body = if text.len() > 0 && text[0] == '+' {
        text.drop_first()
    } else {
        text
    };
    match digits_value(body) {
        Some(value) => if body.len() > 0 && value <= usize::MAX {
            Some(value)
        } else {
            None
        },
        None => None,
    }
}

/// More digits do not make a value smaller.
proof fn lemma_digits_value_grows(text: Seq<char>, n: int)
    requires
        0 <= n <= text.len(),
        digits_value(text) is Some,
    ensures
        digits_value(text.take(n)) is Some,
        digits_value(text.take(n))->0 <= digits_value(text)->0,
    decreases text.len() - n,
{
    if n == text.len() {
        assert(text.take(n) == text);
    } else {
        lemma_digits_value_grows(text.drop_last(), n);
        assert(text.drop_last().take(n) == text.take(n));
    }
}

/// A text with something that is no digit has no value.
proof fn lemma_digits_value_none(text: Seq<char>, n: int)
    requires
        0 <= n <= text.len(),
        digits_value(text.take(n)) is None,
    ensures
        digits_value(text) is None,
{
    if digits_value(text) is Some {
        lemma_digits_value_grows(text, n);
    }
}

/// The number that a text stands for.
pub fn parse_number(text: &str) -> (r: Option<usize>)
    ensures
        match r {
            Some(n) => number_of(text@) == Some(n as nat),
            None => number_of(text@) is None,
        },
{
    let chars: Vec<char> = to_chars(text);
    let start: usize = if chars.len() > 0 && chars[0] == '+' {
        1
    } else {
        0
    };
    let body: &[char] = vstd::slice::slice_subrange(chars.as_slice(), start, chars.len());
    proof {
        if start == 1 {
            assert(body@ == text@.drop_first());
        } else {
            assert(body@ == text@);
        }
    }
    if body.len() == 0 {
        return None;
    }
    let mut value: usize = 0;
    let mut i: usize = 0;
    assert(body@.take(body@.len() as int) == body@);
    while i < body.len()
        invariant
            i <= body@.len(),
            digits_value(body@.take(i as int)) == Some(value as nat),
            body@.take(body@.len() as int) == body@,
            body@.len() > 0,
            number_of(text@) == (match digits_value(body@) {
                Some(value) => if value <= usize::MAX {
                    Some(value)
                } else {
                    None
                },
                None => None,
            }),
        decreases body@.len() - i,
    {
        let c: char = body[i];
        assert(body@.take(i + 1).drop_last() == body@.take(i as int));
        if c < '0' || '9' < c {
            proof {
                lemma_digits_value_none(body@, i + 1);
            }
            return None;
        }
        let digit: usize = (c as u32 - '0' as u32) as usize;
        if value > (usize::MAX - digit) / 10 {
            proof {
                if digits_value(body@) is Some {
                    lemma_digits_value_grows(body@, i + 1);
                }
            }
            return None;
        }
        value = 10 * value + digit;
        i = i + 1;
    }
    Some(value)
}

/// Reading the digits of a number gives the number.
pub proof fn law_decimal_round_trip(n: nat)
    requires
        n <= usize::MAX,
    ensures
        number_of(decimal(n)) == Some(n),
{
    lemma_decimal_value(n);
}

proof fn lemma_decimal_value(n: nat)
    ensures
        decimal(n).len() > 0,
        decimal(n)[0] != '+',
        digits_value(decimal(n)) == Some(n),
    decreases n,
{
    if n < 10 {
        let text = seq![digit_char(n)];
        assert(text.drop_last() == Seq::<char>::empty());
        reveal_with_fuel(digits_value, 2);
        assert(digits_value(text) == Some(n));
    } else {
        lemma_decimal_value(n / 10);
        assert(decimal(n).drop_last() == decimal(n / 10));
        assert(digit_value(digit_char(n % 10)) == Some(n % 10));
    }
}

/// The hexadecimal digit of a number below sixteen, in lower case.
pub open spec fn hex_char(d: nat) -> char {
    if d < 10 {
        digit_char(d)
    } else if d == 10 {
        'a'
    } else if d == 11 {
        'b'
    } else if d == 12 {
        'c'
    } else if d == 13 {
        'd'
    } else if d == 14 {
        'e'
    } else {
        'f'
    }
}

/// The last hexadecimal digits of a number.
pub open spec fn hex_digits(n: nat, count: nat) -> Seq<char>
    decreases count,
{
    if count == 0 {
        Seq::empty()
    } else {
        hex_digits(n / 16, (count - 1) as nat).push(hex_char(n % 16))
    }
}

/// A number of 64 bits in sixteen hexadecimal digits.
pub fn to_hex(n: u64) -> (text: String)
    ensures
        text@ == hex_digits(n as nat, 16),
{
    push_hex(n, 16)
}

/// The last hexadecimal digits of a number.
fn push_hex(n: u64, count: u8) -> (text: String)
    ensures
        text@ == hex_digits(n as nat, count as nat),
    decreases count,
{
    if count == 0 {
        return String::new();
    }
    let mut text: String = push_hex(n / 16, count - 1);
    let c: char = match n % 16 {
        10 => 'a',
        11 => 'b',
        12 => 'c',
        13 => 'd',
        14 => 'e',
        15 => 'f',
        d => to_digit_char(d as usize),
    };
    text.push(c);
    text
}

/// A number with one more digit is written with that digit behind it, in decimal and in hexadecimal
/// digits.
pub proof fn law_digits_follow_each_other(n: nat, d: nat, count: nat)
    ensures
        d < 10 ==> decimal(d) == seq![('0' as u32 + d) as char],
        d < 10 && n > 0 ==> decimal(10 * n + d) == decimal(n).push(('0' as u32 + d) as char),
        hex_digits(n, 0).len() == 0,
        d < 10 ==> hex_digits(16 * n + d, count + 1) == hex_digits(n, count).push(
            ('0' as u32 + d) as char,
        ),
        10 <= d < 16 ==> hex_digits(16 * n + d, count + 1) == hex_digits(n, count).push(
            ('a' as u32 + (d - 10)) as char,
        ),
{
    if d < 10 {
        assert(digit_char(d) == ('0' as u32 + d) as char);
        assert((10 * n + d) / 10 == n && (10 * n + d) % 10 == d);
    }
    if d < 16 {
        assert((16 * n + d) / 16 == n && (16 * n + d) % 16 == d);
    }
}

} // verus!
