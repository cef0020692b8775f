//! Unsigned decimal numbers in text.

use vstd::prelude::*;
use crate::text::chars_of;

verus! {

/// Why a text is not a number within the bound asked for.
#[derive(Clone, Copy, Debug, PartialEq, Eq, Structural)]
pub enum NumberError {
    /// The text has no characters at all.
    Empty,
    /// A character is not a decimal digit, or a sign stands alone.
    InvalidDigit,
    /// The digits read so far already exceed the bound.
    TooLarge,
}

impl NumberError {
    /// The failure in words.
    pub open spec fn text(self) -> Seq<char> {
        match self {
            NumberError::Empty => "cannot parse integer from empty string"@,
            NumberError::InvalidDigit => "invalid digit found in string"@,
            NumberError::TooLarge => "number too large to fit in target type"@,
        }
    }

    /// Says in words what is wrong.
    pub fn to_string(&self) -> (message: String)
        ensures
            message@ == self.text(),
    {
        match self {
            NumberError::Empty => "cannot parse integer from empty string".to_owned(),
            NumberError::InvalidDigit => "invalid digit found in string".to_owned(),
            NumberError::TooLarge => "number too large to fit in target type".to_owned(),
        }
    }
}

/// The value of a decimal digit; `None` for any other character.
pub open spec fn digit_value(c: char) -> Option<nat> {
    if '0' <= c && c <= '9' {
        Some((c as u32 - '0' as u32) as nat)
    } else {
        None
    }
}

/// Whether every character of `text` is a decimal digit.
pub open spec fn all_digits(text: Seq<char>) -> bool {
    forall|i: int| 0 <= i < text.len() ==> (#[trigger] digit_value(text[i])) is Some
}

/// The number that a sequence of decimal digits writes, most significant digit
/// first. The empty sequence writes zero.
pub open spec fn digits_value(digits: Seq<char>) -> nat
    decreases digits.len(),
{
    if digits.len() == 0 {
        0
    } else {
        digits_value(digits.drop_last()) * 10 + digit_value(digits.last()).unwrap_or(0)
    }
}

/// Reading the first `upto` characters of `digits` from the left: the number
/// they write, or the first thing that goes wrong. A character that is no
/// digit is reported before the bound is looked at.
pub open spec fn scanned(digits: Seq<char>, upto: nat, max: nat) -> Result<nat, NumberError>
    decreases upto,
{
    if upto == 0 {
        Ok(0)
    } else {
        match scanned(digits, (upto - 1) as nat, max) {
            Err(e) => Err(e),
            Ok(before) => match digit_value(digits[upto - 1]) {
                None => Err(NumberError::InvalidDigit),
                Some(d) => if before * 10 + d > max {
                    Err(NumberError::TooLarge)
                } else {
                    Ok(before * 10 + d)
                },
            },
        }
    }
}

/// The digits of a number text: the text without one leading plus sign.
pub open spec fn unsigned_part(text: Seq<char>) -> Seq<char> {
    if text.len() > 0 && text[0] == '+' {
        text.skip(1)
    } else {
        text
    }
}

/// What `text` means as an unsigned decimal number of at most `max`: an
/// optional plus sign, then one digit or more, nothing else.
pub open spec fn parsed_number(text: Seq<char>, max: nat) -> Result<nat, NumberError> {
    if text.len() == 0 {
        Err(NumberError::Empty)
    } else if unsigned_part(text).len() == 0 {
        Err(NumberError::InvalidDigit)
    } else {
        scanned(unsigned_part(text), unsigned_part(text).len(), max)
    }
}

/// A text is read as a number exactly when it is an optional plus sign before
/// at least one digit, all digits, and what they write is within the bound; the
/// number read is then what the digits write.
pub proof fn lemma_parsed_number_ok(text: Seq<char>, max: nat)
    ensures
        parsed_number(text, max) is Ok <==> unsigned_part(text).len() > 0 && all_digits(
            unsigned_part(text),
        ) && digits_value(unsigned_part(text)) <= max,
        parsed_number(text, max) is Ok ==> parsed_number(text, max) == Ok::<nat, NumberError>(
            digits_value(unsigned_part(text)),
        ),
{
    let digits = unsigned_part(text);
    lemma_scanned_ok(digits, digits.len(), max);
    assert(digits.take(digits.len() as int) =~= digits);
}

/// The scan of a prefix succeeds exactly when the prefix is all digits and
/// writes a number within the bound, which is then its result.
pub proof fn lemma_scanned_ok(digits: Seq<char>, upto: nat, max: nat)
    requires
        upto <= digits.len(),
    ensures
        scanned(digits, upto, max) is Ok <==> all_digits(digits.take(upto as int)) && digits_value(
            digits.take(upto as int),
        ) <= max,
        scanned(digits, upto, max) is Ok ==> scanned(digits, upto, max) == Ok::<nat, NumberError>(
            digits_value(digits.take(upto as int)),
        ),
    decreases upto,
{
    let prefix = digits.take(upto as int);
    if upto > 0 {
        let shorter = digits.take(upto - 1);
        lemma_scanned_ok(digits, (upto - 1) as nat, max);
        assert(prefix.drop_last() =~= shorter);
        assert(prefix.last() == digits[upto - 1]);
        if all_digits(prefix) {
            assert forall|i: int| 0 <= i < shorter.len() implies (#[trigger] digit_value(
                shorter[i],
            )) is Some by {
                assert(shorter[i] == prefix[i]);
            }
            assert(digit_value(prefix[upto - 1]) is Some);
        }
        if all_digits(shorter) && digit_value(digits[upto - 1]) is Some {
            assert forall|i: int| 0 <= i < prefix.len() implies (#[trigger] digit_value(
                prefix[i],
            )) is Some by {
                if i < upto - 1 {
                    assert(prefix[i] == shorter[i]);
                }
            }
        }
    }
}

/// Reads characters as an unsigned decimal number of at most `max`.
pub fn number_of(text: &Vec<char>, max: u32) -> (number: Result<u32, NumberError>)
    ensures
        match number {
            Ok(n) => parsed_number(text@, max as nat) == Ok::<nat, NumberError>(n as nat),
            Err(e) => parsed_number(text@, max as nat) == Err::<nat, NumberError>(e),
        },
{
    if text.len() == 0 {
        return Err(NumberError::Empty);
    }
    let start: usize = if text[0] == '+' { 1 } else { 0 };
    if start == text.len() {
        return Err(NumberError::InvalidDigit);
    }
    let ghost digits = unsigned_part(text@);
    let mut value: u32 = 0;
    let mut at: usize = start;
    while at < text.len()
        invariant
            start <= at <= text.len(),
            digits == unsigned_part(text@),
            digits =~= text@.skip(start as int),
            digits.len() > 0,
            scanned(digits, (at - start) as nat, max as nat) == Ok::<nat, NumberError>(
                value as nat,
            ),
            value <= max,
        decreases text.len() - at,
    {
        let c: char = text[at];
        assert(digits[at - start] == c);
        if c < '0' || c > '9' {
            proof {
                assert(digit_value(c) is None);
                assert(scanned(digits, (at - start + 1) as nat, max as nat) == Err::<
                    nat,
                    NumberError,
                >(NumberError::InvalidDigit));
                lemma_scan_stays_failed(digits, (at - start + 1) as nat, digits.len(), max as nat);
            }
            return Err(NumberError::InvalidDigit);
        }
        let digit: u64 = (c as u32 - '0' as u32) as u64;
        let next: u64 = value as u64 * 10 + digit;
        if next > max as u64 {
            proof {
                assert(scanned(digits, (at - start + 1) as nat, max as nat) == Err::<
                    nat,
                    NumberError,
                >(NumberError::TooLarge));
                lemma_scan_stays_failed(digits, (at - start + 1) as nat, digits.len(), max as nat);
            }
            return Err(NumberError::TooLarge);
        }
        value = next as u32;
        at += 1;
    }
    Ok(value)
}

/// Reads a text as an unsigned decimal number of at most `max`.
pub fn parse_number(text: &str, max: u32) -> (number: Result<u32, NumberError>)
    ensures
        match number {
            Ok(n) => parsed_number(text@, max as nat) == Ok::<nat, NumberError>(n as nat),
            Err(e) => parsed_number(text@, max as nat) == Err::<nat, NumberError>(e),
        },
{
    let chars = chars_of(text);
    number_of(&chars, max)
}

/// Once a scan has failed, reading further characters keeps the same failure.
proof fn lemma_scan_stays_failed(digits: Seq<char>, from: nat, upto: nat, max: nat)
    requires
        from <= upto,
        scanned(digits, from, max) is Err,
    ensures
        scanned(digits, upto, max) == scanned(digits, from, max),
    decreases upto - from,
{
    if from < upto {
        lemma_scan_stays_failed(digits, from, (upto - 1) as nat, max);
    }
}

} // verus!
