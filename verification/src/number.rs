//! Unsigned decimal numbers as text: what a line or column field holds, and
//! how a coordinate is written.

use vstd::prelude::*;

verus! {

/// Why a field is no unsigned decimal number.
#[derive(Clone, Copy, Debug, PartialEq, Eq, Structural)]
pub enum NumberError {
    /// The field is empty.
    Empty,
    /// The field holds something else than digits after an optional `+`, or
    /// nothing but the `+`.
    InvalidDigit,
    /// The digits stand for a number above `u64::MAX`.
    Overflow,
}

impl NumberError {
    /// The text that tells a user what is wrong.
    pub open spec fn spec_message(self) -> Seq<char> {
        match self {
            NumberError::Empty => "cannot parse integer from empty string"@,
            NumberError::InvalidDigit => "invalid digit found in string"@,
            NumberError::Overflow => "number too large to fit in target type"@,
        }
    }

    /// The text that tells a user what is wrong.
    pub fn message(&self) -> (res: String)
        ensures
            res@ == self.spec_message(),
    {
        match self {
            NumberError::Empty => "cannot parse integer from empty string".to_owned(),
            NumberError::InvalidDigit => "invalid digit found in string".to_owned(),
            NumberError::Overflow => "number too large to fit in target type".to_owned(),
        }
    }
}

/// One of the ten ASCII digits.
pub open spec fn is_digit(c: char) -> bool {
    '0' <= c <= '9'
}

/// The number that the digit `c` stands for.
pub open spec fn digit_value(c: char) -> nat {
    (c as int - '0' as int) as nat
}

/// The digit that stands for `d`, for `d` below ten.
pub open spec fn digit_char(d: nat) -> char {
    ('0' as int + d) as char
}

/// Whether `s` holds digits only.
pub open spec fn all_digits(s: Seq<char>) -> bool {
    forall|i: int| 0 <= i < s.len() ==> is_digit(#[trigger] s[i])
}

/// The number that a sequence of digits stands for, most significant digit
/// first. The empty sequence stands for zero.
pub open spec fn digits_value(s: Seq<char>) -> nat
    decreases s.len(),
{
    if s.len() == 0 {
        0
    } else {
        digits_value(s.drop_last()) * 10 + digit_value(s.last())
    }
}

/// The digits of a field: the field without its optional leading `+`.
pub open spec fn unsigned_digits(s: Seq<char>) -> Seq<char> {
    if s.len() > 0 && s[0] == '+' {
        s.skip(1)
    } else {
        s
    }
}

/// What a field holds, read as an unsigned decimal number: an optional `+`
/// followed by one or more digits, with a value that fits in a `u64`.
pub open spec fn parsed_u64(s: Seq<char>) -> Result<u64, NumberError> {
    let digits = unsigned_digits(s);
    if s.len() == 0 {
        Err(NumberError::Empty)
    } else if digits.len() == 0 || !all_digits(digits) {
        Err(NumberError::InvalidDigit)
    } else if digits_value(digits) > u64::MAX {
        Err(NumberError::Overflow)
    } else {
        Ok(digits_value(digits) as u64)
    }
}

/// The decimal digits of `n`, without leading zeros.
pub open spec fn decimal(n: nat) -> Seq<char>
    decreases n,
{
    if n < 10 {
        seq![digit_char(n)]
    } else {
        decimal(n / 10).push(digit_char(n % 10))
    }
}

/// A longer sequence of digits stands for no smaller number than any of its
/// prefixes.
pub proof fn lemma_digits_value_prefix(s: Seq<char>, k: int)
    requires
        0 <= k <= s.len(),
    ensures
        digits_value(s.take(k)) <= digits_value(s),
    decreases s.len(),
{
    if k == s.len() {
        assert(s.take(k) == s);
    } else {
        lemma_digits_value_prefix(s.drop_last(), k);
        assert(s.drop_last().take(k) == s.take(k));
    }
}

/// Reading one more digit multiplies by ten and adds the digit.
pub proof fn lemma_digits_value_step(s: Seq<char>, k: int)
    requires
        0 <= k < s.len(),
    ensures
        digits_value(s.take(k + 1)) == digits_value(s.take(k)) * 10 + digit_value(s[k]),
{
    assert(s.take(k + 1).drop_last() == s.take(k));
}

/// Whether `chars` holds digits only.
fn all_digits_slice(chars: &[char]) -> (b: bool)
    ensures
        b == all_digits(chars@),
{
    let mut i: usize = 0;
    while i < chars.len()
        invariant
            i <= chars.len(),
            forall|j: int| 0 <= j < i ==> is_digit(#[trigger] chars@[j]),
        decreases chars.len() - i,
    {
        let c = chars[i];
        if !('0' <= c && c <= '9') {
            return false;
        }
        i += 1;
    }
    true
}

/// The number that the digit `c` stands for.
fn digit_of(c: char) -> (d: u64)
    requires
        is_digit(c),
    ensures
        d == digit_value(c),
        d < 10,
{
    (c as u64) - ('0' as u64)
}

/// Reads a field as an unsigned decimal number.
pub fn parse_u64(chars: &[char]) -> (res: Result<u64, NumberError>)
    ensures
        res == parsed_u64(chars@),
{
    if chars.len() == 0 {
        return Err(NumberError::Empty);
    }
    let digits = if chars[0] == '+' {
        vstd::slice::slice_subrange(chars, 1, chars.len())
    } else {
        chars
    };
    if digits.len() == 0 || !all_digits_slice(digits) {
        return Err(NumberError::InvalidDigit);
    }
    let mut value: u64 = 0;
    let mut i: usize = 0;
    while i < digits.len()
        invariant
            i <= digits.len(),
            chars@.len() > 0,
            digits@.len() > 0,
            digits@ == unsigned_digits(chars@),
            all_digits(digits@),
            value == digits_value(digits@.take(i as int)),
        decreases digits.len() - i,
    {
        let d = digit_of(digits[i]);
        proof {
            lemma_digits_value_step(digits@, i as int);
            lemma_digits_value_prefix(digits@, i + 1);
        }
        if value > (u64::MAX - d) / 10 {
            return Err(NumberError::Overflow);
        }
        value = value * 10 + d;
        i += 1;
    }
    assert(digits@.take(i as int) == digits@);
    Ok(value)
}

/// The digit that stands for `d`.
fn char_of_digit(d: u64) -> (c: char)
    requires
        d < 10,
    ensures
        c == digit_char(d as nat),
{
    if d == 0 {
        '0'
    } else if d == 1 {
        '1'
    } else if d == 2 {
        '2'
    } else if d == 3 {
        '3'
    } else if d == 4 {
        '4'
    } else if d == 5 {
        '5'
    } else if d == 6 {
        '6'
    } else if d == 7 {
        '7'
    } else if d == 8 {
        '8'
    } else {
        '9'
    }
}

/// Appends the decimal digits of `n` to `out`.
pub fn push_decimal(n: u64, out: &mut Vec<char>)
    ensures
        final(out)@ == old(out)@ + decimal(n as nat),
    decreases n,
{
    if n >= 10 {
        push_decimal(n / 10, out);
    }
    out.push(char_of_digit(n % 10));
}

/// The decimal digits of a number are digits, and stand for the number.
pub proof fn lemma_decimal_is_number(n: nat)
    ensures
        decimal(n).len() > 0,
        all_digits(decimal(n)),
        digits_value(decimal(n)) == n,
    decreases n,
{
    if n < 10 {
        assert(decimal(n).drop_last() =~= Seq::<char>::empty());
        assert(digits_value(decimal(n).drop_last()) == 0);
    } else {
        lemma_decimal_is_number(n / 10);
        assert(decimal(n).drop_last() =~= decimal(n / 10));
        assert(is_digit(digit_char(n % 10)));
    }
}

/// A number that is written in decimal digits and read again is the same
/// number.
pub proof fn lemma_decimal_round_trip(n: u64)
    ensures
        parsed_u64(decimal(n as nat)) == Ok::<u64, NumberError>(n),
{
    lemma_decimal_is_number(n as nat);
    assert(is_digit(decimal(n as nat)[0]));
}

} // verus!
