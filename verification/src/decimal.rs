//! Decimal and hexadecimal numerals: what they stand for, writing them and reading them.

use crate::text;
use vstd::prelude::*;

verus! {

/// The character of a digit below ten.
pub open spec fn digit_char(d: nat) -> char {
    (48 + d) as char
}

/// The decimal numeral of `n`, without leading zeros.
pub open spec fn decimal(n: nat) -> Seq<char>
    decreases n,
{
    if n < 10 {
        seq![digit_char(n)]
    } else {
        decimal(n / 10).push(digit_char(n % 10))
    }
}

/// The number that a row of digits stands for.
pub open spec fn digits_value(s: Seq<char>) -> nat
    decreases s.len(),
{
    if s.len() == 0 {
        0
    } else {
        (10 * digits_value(s.drop_last()) + (s.last() as int - 48)) as nat
    }
}

/// The number that `s` is a numeral of: digits, with one plus sign allowed before them.
pub open spec fn numeral(s: Seq<char>) -> Option<nat> {
    let t = if s.len() > 0 && s[0] == '+' {
        s.skip(1)
    } else {
        s
    };
    if t.len() > 0 && text::all_digits(t) {
        Some(digits_value(t))
    } else {
        None
    }
}

/// The numeral's number, where it does not exceed `max`.
pub open spec fn numeral_within(s: Seq<char>, max: nat) -> Option<nat> {
    match numeral(s) {
        Some(n) => if n <= max {
            Some(n)
        } else {
            None
        },
        None => None,
    }
}

/// Writing a number and reading it back gives the number; its numeral is a row of digits.
pub proof fn lemma_decimal(n: nat)
    ensures
        decimal(n).len() > 0,
        text::all_digits(decimal(n)),
        digits_value(decimal(n)) == n,
        numeral(decimal(n)) == Some(n),
    decreases n,
{
    if n < 10 {
        assert(decimal(n).drop_last() =~= Seq::empty());
        assert(digits_value(decimal(n).drop_last()) == 0);
    } else {
        lemma_decimal(n / 10);
        assert(decimal(n).drop_last() =~= decimal(n / 10));
    }
    assert(text::digit(decimal(n)[0]));
}

/// Reads the numeral in `s`, where its number does not exceed `max`.
pub fn parse_within(s: &Vec<char>, max: u64) -> (r: Option<u64>)
    ensures
        match r {
            Some(n) => numeral_within(s@, max as nat) == Some(n as nat),
            None => numeral_within(s@, max as nat) is None,
        },
{
    let mut from: usize = 0;
    if s.len() > 0 && s[0] == '+' {
        from = 1;
    }
    let ghost t = if s@.len() > 0 && s@[0] == '+' {
        s@.skip(1)
    } else {
        s@
    };
    assert(t =~= s@.skip(from as int));
    if from == s.len() {
        return None;
    }
    let mut i: usize = from;
    let mut value: u64 = 0;
    let mut over: bool = false;
    while i < s.len()
        invariant
            from <= i <= s@.len(),
            t == s@.skip(from as int),
            t == (if s@.len() > 0 && s@[0] == '+' {
                s@.skip(1)
            } else {
                s@
            }),
            forall|k: int| 0 <= k < i - from ==> text::digit(#[trigger] t[k]),
            !over ==> value == digits_value(t.take(i - from)) && value <= max,
            over ==> digits_value(t.take(i - from)) > max,
        decreases s@.len() - i,
    {
        if !text::is_digit(s[i]) {
            assert(!text::digit(t[i - from]));
            return None;
        }
        let d: u64 = (s[i] as u32 - 48) as u64;
        assert(t[i - from] == s@[i as int]);
        assert(t.take(i - from + 1).drop_last() =~= t.take(i - from));
        assert(t.take(i - from + 1).last() == s@[i as int]);
        if !over {
            if d > max || value > (max - d) / 10 {
                over = true;
            } else {
                value = value * 10 + d;
            }
        }
        i = i + 1;
    }
    assert(t.take(i - from) =~= t);
    if over {
        None
    } else {
        Some(value)
    }
}

/// Reads the numeral in the text, where it fits a `u64`, as `str::parse` does.
pub fn parse_u64(s: &str) -> (r: Option<u64>)
    ensures
        match r {
            Some(n) => numeral_within(s@, u64::MAX as nat) == Some(n as nat),
            None => numeral_within(s@, u64::MAX as nat) is None,
        },
{
    let chars: Vec<char> = text::chars_of(s);
    parse_within(&chars, u64::MAX)
}

/// Reads the numeral in the text, where it fits a `usize`, as `str::parse` does.
pub fn parse_usize(s: &str) -> (r: Option<usize>)
    ensures
        match r {
            Some(n) => numeral_within(s@, usize::MAX as nat) == Some(n as nat),
            None => numeral_within(s@, usize::MAX as nat) is None,
        },
{
    let chars: Vec<char> = text::chars_of(s);
    match parse_within(&chars, usize::MAX as u64) {
        Some(n) => Some(n as usize),
        None => None,
    }
}

/// Reads the numeral in the text, where it fits a `u32`, as `str::parse` does.
pub fn parse_u32(s: &str) -> (r: Option<u32>)
    ensures
        match r {
            Some(n) => numeral_within(s@, u32::MAX as nat) == Some(n as nat),
            None => numeral_within(s@, u32::MAX as nat) is None,
        },
{
    let chars: Vec<char> = text::chars_of(s);
    match parse_within(&chars, u32::MAX as u64) {
        Some(n) => Some(n as u32),
        None => None,
    }
}

/// Reads the numeral in the text, where it fits a `u16`, as `str::parse` does.
pub fn parse_u16(s: &str) -> (r: Option<u16>)
    ensures
        match r {
            Some(n) => numeral_within(s@, u16::MAX as nat) == Some(n as nat),
            None => numeral_within(s@, u16::MAX as nat) is None,
        },
{
    let chars: Vec<char> = text::chars_of(s);
    match parse_within(&chars, u16::MAX as u64) {
        Some(n) => Some(n as u16),
        None => None,
    }
}

/// The decimal numeral of `n` as characters.
pub fn decimal_chars(n: u64) -> (r: Vec<char>)
    ensures
        r@ == decimal(n as nat),
    decreases n,
{
    let d: char = (48 + (n % 10) as u8) as char;
    if n < 10 {
        let mut out: Vec<char> = Vec::new();
        out.push(d);
        assert(out@ =~= decimal(n as nat));
        out
    } else {
        let mut out: Vec<char> = decimal_chars(n / 10);
        out.push(d);
        out
    }
}

/// The decimal numeral of `n`.
pub fn decimal_text(n: u64) -> (r: String)
    ensures
        r@ == decimal(n as nat),
{
    let chars: Vec<char> = decimal_chars(n);
    text::text_of(&chars)
}

/// The decimal numeral of `n`, filled up on the left to `width` characters.
pub fn decimal_padded(n: u64, width: usize, fill: char) -> (r: String)
    ensures
        r@ == text::pad_left(decimal(n as nat), width as nat, fill),
{
    let chars: Vec<char> = decimal_chars(n);
    let padded: Vec<char> = text::padded_left(&chars, width, fill);
    text::text_of(&padded)
}

fn wide_chars(n: u128) -> (r: Vec<char>)
    ensures
        r@ == decimal(n as nat),
    decreases n,
{
    let d: char = (48 + (n % 10) as u8) as char;
    if n < 10 {
        let mut out: Vec<char> = Vec::new();
        out.push(d);
        assert(out@ =~= decimal(n as nat));
        out
    } else {
        let mut out: Vec<char> = wide_chars(n / 10);
        out.push(d);
        out
    }
}

/// The decimal numeral of a number of any size that a clock counts.
pub fn wide_text(n: u128) -> (r: String)
    ensures
        r@ == decimal(n as nat),
{
    let chars: Vec<char> = wide_chars(n);
    text::text_of(&chars)
}

/// The hexadecimal digit of a value below sixteen.
pub open spec fn hex_char(d: nat) -> char {
    if d < 10 {
        (48 + d) as char
    } else {
        (87 + d) as char
    }
}

/// The hexadecimal numeral of `n`, in small letters.
pub open spec fn hexadecimal(n: nat) -> Seq<char>
    decreases n,
{
    if n < 16 {
        seq![hex_char(n)]
    } else {
        hexadecimal(n / 16).push(hex_char(n % 16))
    }
}

fn hex_chars(n: u64) -> (r: Vec<char>)
    ensures
        r@ == hexadecimal(n as nat),
    decreases n,
{
    let d: u8 = (n % 16) as u8;
    let c: char = if d < 10 {
        (48 + d) as char
    } else {
        (87 + d) as char
    };
    if n < 16 {
        let mut out: Vec<char> = Vec::new();
        out.push(c);
        assert(out@ =~= hexadecimal(n as nat));
        out
    } else {
        let mut out: Vec<char> = hex_chars(n / 16);
        out.push(c);
        out
    }
}

/// The hexadecimal numeral of `n`, filled up on the left with zeros to `width` characters.
pub fn hex_padded(n: u64, width: usize) -> (r: String)
    ensures
        r@ == text::pad_left(hexadecimal(n as nat), width as nat, '0'),
{
    let chars: Vec<char> = hex_chars(n);
    let padded: Vec<char> = text::padded_left(&chars, width, '0');
    text::text_of(&padded)
}

} // verus!
