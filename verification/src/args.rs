//! Parsing of operator-supplied numeric settings, such as a shard count.

use vstd::prelude::*;

use crate::text::{chars_of, decimal, digit_char, is_digit, lemma_decimal_digits};

verus! {

/// Why an operator-supplied count was rejected.
#[derive(Debug, Clone, Copy, PartialEq, Eq, Structural)]
pub enum CountError {
    /// No value was supplied.
    Missing,
    /// The value is not an unsigned decimal integer that fits in a `u32`.
    NotANumber,
    /// The value is zero; counts must be positive.
    Zero,
}

/// The value of an ASCII digit.
pub open spec fn digit_value(c: char) -> nat {
    ((c as u32) - 48) as nat
}

/// Whether every character of `s` is an ASCII digit.
pub open spec fn all_digits(s: Seq<char>) -> bool {
    forall|i: int| 0 <= i < s.len() ==> is_digit(#[trigger] s[i])
}

/// The value of a sequence of decimal digits, most significant first.
pub open spec fn digits_value(s: Seq<char>) -> nat
    decreases s.len(),
{
    if s.len() == 0 {
        0
    } else {
        digits_value(s.drop_last()) * 10 + digit_value(s.last())
    }
}

/// The digits of an unsigned integer literal: the text without an optional
/// leading `+`.
pub open spec fn literal_digits(s: Seq<char>) -> Seq<char> {
    if s.len() > 0 && s[0] == '+' {
        s.drop_first()
    } else {
        s
    }
}

/// The `u32` an unsigned decimal literal denotes, as `str::parse::<u32>`
/// reads it: an optional `+`, then at least one ASCII digit, with a value
/// that fits in a `u32`. Anything else (whitespace, signs other than one
/// leading `+`, other characters, overflow) denotes nothing.
pub open spec fn parsed_u32(s: Seq<char>) -> Option<u32> {
    let d = literal_digits(s);
    if d.len() > 0 && all_digits(d) && digits_value(d) <= u32::MAX {
        Some(digits_value(d) as u32)
    } else {
        None
    }
}

/// The outcome of reading a positive count from an optional text.
pub open spec fn count_outcome(value: Option<Seq<char>>) -> Result<u32, CountError> {
    match value {
        None => Err(CountError::Missing),
        Some(text) => match parsed_u32(text) {
            None => Err(CountError::NotANumber),
            Some(n) => if n == 0 {
                Err(CountError::Zero)
            } else {
                Ok(n)
            },
        },
    }
}

/// Every prefix of a digit sequence is worth at most the whole sequence.
proof fn lemma_digits_value_prefix(s: Seq<char>, k: int)
    requires
        0 <= k <= s.len(),
    ensures
        digits_value(s.take(k)) <= digits_value(s),
    decreases s.len() - k,
{
    if k < s.len() {
        lemma_digits_value_prefix(s, k + 1);
        assert(s.take(k + 1).drop_last() =~= s.take(k));
    } else {
        assert(s.take(k) =~= s);
    }
}

/// Read a positive `u32` count from an optional operator-supplied text: a
/// missing value, a value that is not a `u32` literal, and zero are each
/// rejected with their own error.
pub fn parse_u32(value: Option<&str>) -> (count: Result<u32, CountError>)
    ensures
        count == count_outcome(
            match value {
                Some(text) => Some(text@),
                None => None,
            },
        ),
{
    let text = match value {
        None => {
            return Err(CountError::Missing);
        },
        Some(text) => text,
    };
    let chars = chars_of(text);
    let n = chars.len();
    let start: usize = if n > 0 && chars[0] == '+' {
        1
    } else {
        0
    };
    let ghost digits = literal_digits(text@);
    assert(digits =~= chars@.subrange(start as int, n as int));
    if start == n {
        return Err(CountError::NotANumber);
    }
    let mut acc: u32 = 0;
    let mut i: usize = start;
    assert(digits.take(0) =~= Seq::<char>::empty());
    while i < n
        invariant
            value == Some(text),
            chars@ == text@,
            n == chars@.len(),
            start <= i <= n,
            digits == chars@.subrange(start as int, n as int),
            digits == literal_digits(text@),
            forall|j: int| start <= j < i ==> is_digit(#[trigger] chars@[j]),
            acc == digits_value(digits.take(i - start)),
        decreases n - i,
    {
        let c = chars[i];
        if !('0' <= c && c <= '9') {
            assert(!is_digit(digits[i - start]));
            return Err(CountError::NotANumber);
        }
        let d = (c as u32) - 48;
        assert(digits.take(i - start + 1).drop_last() =~= digits.take(i - start));
        assert(digits.take(i - start + 1).last() == c);
        match acc.checked_mul(10) {
            None => {
                proof {
                    if all_digits(digits) {
                        lemma_digits_value_prefix(digits, i - start + 1);
                    }
                }
                return Err(CountError::NotANumber);
            },
            Some(scaled) => match scaled.checked_add(d) {
                None => {
                    proof {
                        if all_digits(digits) {
                            lemma_digits_value_prefix(digits, i - start + 1);
                        }
                    }
                    return Err(CountError::NotANumber);
                },
                Some(next) => {
                    acc = next;
                },
            },
        }
        i = i + 1;
    }
    assert(digits.take(n - start) =~= digits);
    assert(all_digits(digits)) by {
        assert forall|j: int| 0 <= j < digits.len() implies is_digit(#[trigger] digits[j]) by {
            assert(digits[j] == chars@[start + j]);
        }
    }
    if acc == 0 {
        Err(CountError::Zero)
    } else {
        Ok(acc)
    }
}


/// Digits are read most significant first: an empty run is worth 0, and
/// appending a digit multiplies by ten and adds the digit's value (its code
/// point minus that of `0`). A digit is one of `0`..`9`.
pub proof fn lemma_digits_value_is_base_ten(s: Seq<char>, c: char)
    ensures
        digits_value(Seq::<char>::empty()) == 0,
        is_digit(c) ==> digits_value(s.push(c)) == digits_value(s) * 10 + ((c as u32) - (
        '0' as u32)),
        is_digit(c) <==> ('0' as u32) <= (c as u32) <= ('9' as u32),
{
    assert(s.push(c).drop_last() =~= s);
}

/// Writing a number in decimal and reading it back gives the number.
pub proof fn lemma_decimal_reads_back(n: nat)
    ensures
        all_digits(decimal(n)),
        digits_value(decimal(n)) == n,
        decimal(n).len() == 1 || decimal(n)[0] != '0',
    decreases n,
{
    lemma_decimal_digits(n);
    if n >= 10 {
        lemma_decimal_reads_back(n / 10);
        assert(decimal(n)[0] == decimal(n / 10)[0]);
        let m: nat = n / 10;
        if m < 10 {
            assert(decimal(m) == seq![digit_char(m)]);
            assert(digit_char(m) as u32 == 48 + m);
        } else {
            lemma_decimal_digits(m / 10);
            assert(decimal(m).len() == decimal(m / 10).len() + 1);
        }
        let d = decimal(n / 10);
        assert(decimal(n).drop_last() =~= d);
        let c = digit_char((n % 10) as nat);
        assert(c as u32 == 48 + n % 10);
        assert(digit_value(c) == n % 10);
        assert(decimal(n).last() == c);
        assert(digits_value(decimal(n)) == digits_value(d) * 10 + digit_value(c));
        assert((n / 10) * 10 + n % 10 == n);
        assert(digits_value(decimal(n)) == n);
    } else {
        assert(decimal(n).drop_last() =~= Seq::<char>::empty());
        let c = digit_char(n);
        assert(c as u32 == 48 + n);
        assert(digit_value(c) == n);
        assert(decimal(n).last() == c);
        assert(digits_value(decimal(n)) == digits_value(decimal(n).drop_last()) * 10 + digit_value(c));
        assert(digits_value(decimal(n)) == n);
    }
}

/// A `u32` literal is at least one digit, optionally after one `+`, with a
/// value that fits; reading it gives that value. Any other text, such as one
/// with a sign other than a single leading `+`, whitespace, or a non-digit,
/// reads as nothing.
pub proof fn lemma_u32_literals(digits: Seq<char>)
    requires
        digits.len() > 0,
        all_digits(digits),
    ensures
        parsed_u32(digits) == (if digits_value(digits) <= u32::MAX {
            Some(digits_value(digits) as u32)
        } else {
            None
        }),
        parsed_u32(seq!['+'] + digits) == parsed_u32(digits),
        parsed_u32(Seq::<char>::empty()) is None,
        parsed_u32(seq!['+']) is None,
        parsed_u32(seq!['-'] + digits) is None,
        forall|i: int| 0 <= i < digits.len() ==> parsed_u32(#[trigger] digits.update(i, ' ')) is None,
{
    assert(digits[0] != '+');
    assert((seq!['+'] + digits).drop_first() =~= digits);
    assert(!is_digit(' '));
    assert forall|i: int| 0 <= i < digits.len() implies parsed_u32(#[trigger] digits.update(i, ' '))
        is None by {
        let u = digits.update(i, ' ');
        if i == 0 {
            assert(literal_digits(u) == u);
            assert(!is_digit(u[0]));
        } else {
            assert(u[0] == digits[0]);
            assert(literal_digits(u) == u);
            assert(!is_digit(u[i]));
        }
    }
    assert(!is_digit('-'));
    assert((seq!['-'] + digits)[0] == '-');
}

/// Reading a count: nothing supplied is `Missing`, a text that is not a `u32`
/// literal is `NotANumber`, zero is `Zero`, and any other value is returned.
pub proof fn lemma_count_outcomes(text: Seq<char>)
    ensures
        count_outcome(None) == Err::<u32, CountError>(CountError::Missing),
        parsed_u32(text) is None ==> count_outcome(Some(text)) == Err::<u32, CountError>(
            CountError::NotANumber,
        ),
        parsed_u32(text) == Some(0u32) ==> count_outcome(Some(text)) == Err::<u32, CountError>(
            CountError::Zero,
        ),
        forall|n: u32|
            n > 0 && parsed_u32(text) == Some(n) ==> count_outcome(Some(text)) == Ok::<
                u32,
                CountError,
            >(n),
{
}

} // verus!
