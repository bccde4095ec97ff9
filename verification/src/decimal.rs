//! Decimal numbers as they are written in a `Content-Length` header: how a
//! length is printed, and how a header value is read back as a length.

use vstd::prelude::*;

verus! {

/// The digit `0`; the other digits follow it.
pub const DIGIT_ZERO: u8 = 48;

/// The digit `9`.
pub const DIGIT_NINE: u8 = 57;

/// Whether `b` is one of the digits `0` to `9`.
pub open spec fn is_digit(b: u8) -> bool {
    DIGIT_ZERO <= b <= DIGIT_NINE
}

/// Whether `text` is a decimal number: one digit or more, and nothing else.
pub open spec fn is_number(text: Seq<u8>) -> bool {
    text.len() > 0 && forall|i: int| 0 <= i < text.len() ==> is_digit(#[trigger] text[i])
}

/// The number that the digits of `text` denote, most significant digit first.
pub open spec fn number_of(text: Seq<u8>) -> nat
    decreases text.len(),
{
    if text.len() == 0 {
        0
    } else {
        number_of(text.drop_last()) * 10 + (text.last() - DIGIT_ZERO) as nat
    }
}

/// The decimal digits of `n`, without leading zeros.
pub open spec fn decimal(n: nat) -> Seq<u8>
    decreases n,
{
    if n < 10 {
        seq![(DIGIT_ZERO + n) as u8]
    } else {
        decimal(n / 10).push((DIGIT_ZERO + n % 10) as u8)
    }
}

/// Reading the printed form of a number gives the number back.
pub proof fn lemma_decimal_round_trip(n: nat)
    ensures
        is_number(decimal(n)),
        number_of(decimal(n)) == n,
    decreases n,
{
    if n < 10 {
        let text = decimal(n);
        assert(text.drop_last() =~= Seq::<u8>::empty());
        assert(number_of(text.drop_last()) == 0);
    } else {
        lemma_decimal_round_trip(n / 10);
        let head = decimal(n / 10);
        let text = decimal(n);
        assert(text.drop_last() =~= head);
        assert forall|i: int| 0 <= i < text.len() implies is_digit(#[trigger] text[i]) by {
            if i < head.len() {
                assert(text[i] == head[i]);
            }
        }
    }
}

/// Prints `n` in decimal.
pub fn to_decimal(n: usize) -> (text: Vec<u8>)
    ensures
        text@ == decimal(n as nat),
    decreases n,
{
    if n < 10 {
        let mut text: Vec<u8> = Vec::new();
        text.push(DIGIT_ZERO + n as u8);
        assert(text@ =~= decimal(n as nat));
        text
    } else {
        let mut text = to_decimal(n / 10);
        text.push(DIGIT_ZERO + (n % 10) as u8);
        text
    }
}

/// What a header value says when it is read as a length of at most `limit`.
#[derive(Debug, Clone, Copy, PartialEq, Eq)]
pub enum Reading {
    /// The value is not a decimal number.
    Malformed,
    /// The value is this number, which does not exceed the limit.
    Value(usize),
    /// The value is a number above the limit.
    TooLarge,
}

/// Reads `text` as a decimal number and holds it against `limit`.
///
/// The number may have any count of digits: one that does not fit a machine
/// word is above every limit.
pub fn read_decimal(text: &[u8], limit: usize) -> (reading: Reading)
    ensures
        match reading {
            Reading::Malformed => !is_number(text@),
            Reading::Value(n) => is_number(text@) && n == number_of(text@) && n <= limit,
            Reading::TooLarge => is_number(text@) && number_of(text@) > limit,
        },
{
    if text.len() == 0 {
        return Reading::Malformed;
    }
    let mut value: usize = 0;
    let mut beyond: bool = false;
    let mut i: usize = 0;
    while i < text.len()
        invariant
            i <= text.len(),
            forall|k: int| 0 <= k < i ==> is_digit(#[trigger] text@[k]),
            !beyond ==> value == number_of(text@.take(i as int)) && value <= limit,
            beyond ==> number_of(text@.take(i as int)) > limit,
        decreases text.len() - i,
    {
        let b: u8 = text[i];
        if b < DIGIT_ZERO || b > DIGIT_NINE {
            return Reading::Malformed;
        }
        proof {
            let longer = text@.take(i + 1);
            assert(longer.drop_last() =~= text@.take(i as int));
            assert(longer.last() == b);
        }
        if !beyond {
            let next: u128 = (value as u128) * 10 + ((b - DIGIT_ZERO) as u128);
            if next > limit as u128 {
                beyond = true;
            } else {
                value = next as usize;
            }
        }
        i += 1;
    }
    assert(text@.take(text@.len() as int) =~= text@);
    if beyond {
        Reading::TooLarge
    } else {
        Reading::Value(value)
    }
}

} // verus!
