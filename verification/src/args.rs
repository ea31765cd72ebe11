//! Validation of the top-N bound.

use vstd::prelude::*;
use vstd::string::StringExecFns;

verus! {

/// Whether a character is one of the ten ASCII digits.
pub open spec fn is_digit(c: char) -> bool {
    48 <= c as u32 <= 57
}

/// Every character of the text is an ASCII digit.
pub open spec fn all_digits(text: Seq<char>) -> bool {
    forall|i: int| 0 <= i < text.len() ==> is_digit(#[trigger] text[i])
}

/// The number that a run of ASCII digits denotes in decimal notation.
pub open spec fn digits_value(digits: Seq<char>) -> nat
    decreases digits.len(),
{
    if digits.len() == 0 {
        0
    } else {
        (digits_value(digits.drop_last()) * 10 + (digits.last() as u32 - 48)) as nat
    }
}

/// A text without its leading plus sign, if it has one.
pub open spec fn unsigned_part(text: Seq<char>) -> Seq<char> {
    if text.len() > 0 && text[0] == '+' {
        text.skip(1)
    } else {
        text
    }
}

/// The number that a text denotes: an optional plus sign followed by one
/// or more ASCII digits whose value fits 64 bits. Any other text denotes
/// none.
pub open spec fn decimal_value(text: Seq<char>) -> Option<u64> {
    let digits = unsigned_part(text);
    if digits.len() > 0 && all_digits(digits) && digits_value(digits) <= u64::MAX {
        Some(digits_value(digits) as u64)
    } else {
        None
    }
}

/// Calls `str::parse::<u64>`. Trusted: it accepts an optional plus sign
/// followed by decimal digits only, rejects the empty text, a sign alone
/// and a value that does not fit, and returns the value otherwise.
#[verifier::external_body]
fn parse_decimal(text: &str) -> (r: Option<u64>)
    ensures
        r == decimal_value(text@),
{
    text.parse::<u64>().ok()
}

/// The message for a bound that is no number that the machine can hold.
pub open spec fn not_a_count() -> Seq<char> {
    "La valeur de --top doit être un entier positif"@
}

/// The message for a bound of zero.
pub open spec fn below_one() -> Seq<char> {
    "La valeur de --top doit être au moins 1"@
}

/// The bound that a parsed number stands for, or the message that rejects it.
pub open spec fn top_of_parsed(parsed: Option<u64>) -> Result<usize, Seq<char>> {
    match parsed {
        Some(v) => if v > usize::MAX {
            Err(not_a_count())
        } else if v == 0 {
            Err(below_one())
        } else {
            Ok(v as usize)
        },
        None => Err(not_a_count()),
    }
}

/// Accepts a parsed number as a top-N bound if it is at least one.
pub fn top_from_parsed(parsed: Option<u64>) -> (r: Result<usize, String>)
    ensures
        match r {
            Ok(v) => top_of_parsed(parsed) == Ok::<usize, Seq<char>>(v) && v >= 1,
            Err(e) => top_of_parsed(parsed) == Err::<usize, Seq<char>>(e@),
        },
{
    match parsed {
        Some(v) => {
            if v > usize::MAX as u64 {
                Err(String::from_str("La valeur de --top doit être un entier positif"))
            } else if v == 0 {
                Err(String::from_str("La valeur de --top doit être au moins 1"))
            } else {
                Ok(v as usize)
            }
        },
        None => Err(String::from_str("La valeur de --top doit être un entier positif")),
    }
}

/// Reads a top-N bound: a decimal number of at least one.
pub fn parse_top(input: &str) -> (r: Result<usize, String>)
    ensures
        match r {
            Ok(v) => top_of_parsed(decimal_value(input@)) == Ok::<usize, Seq<char>>(v) && v >= 1,
            Err(e) => top_of_parsed(decimal_value(input@)) == Err::<usize, Seq<char>>(e@),
        },
{
    top_from_parsed(parse_decimal(input))
}

/// A bound of zero is rejected, with the message for a bound below one.
pub proof fn lemma_zero_is_rejected()
    ensures
        decimal_value("0"@) == Some(0u64),
        top_of_parsed(decimal_value("0"@)) == Err::<usize, Seq<char>>(below_one()),
{
    reveal_strlit("0");
    let zero = "0"@;
    assert(zero.len() == 1 && zero[0] == '0');
    assert(unsigned_part(zero) == zero);
    assert(zero.drop_last().len() == 0);
    assert(digits_value(zero.drop_last()) == 0);
    assert(digits_value(zero) == 0);
}

} // verus!
