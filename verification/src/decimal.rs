//! Decimal notation: the value of a run of digits and the digits of a value.

use vstd::prelude::*;
use vstd::string::StringSliceAdditionalSpecFns;

verus! {

/// `c` is one of the ten decimal digits.
pub open spec fn is_digit(c: char) -> bool {
    '0' <= c <= '9'
}

/// Every character of `text` is a decimal digit.
pub open spec fn all_digits(text: Seq<char>) -> bool {
    forall|i: int| 0 <= i < text.len() ==> is_digit(#[trigger] text[i])
}

/// The number a single digit stands for.
pub open spec fn digit_value(c: char) -> nat
    recommends
        is_digit(c),
{
    (c as u32 - '0' as u32) as nat
}

/// The digit that stands for `d`.
pub open spec fn digit_char(d: nat) -> char
    recommends
        d < 10,
{
    (('0' as u32 + d) as u8) as char
}

/// The number that a run of digits denotes in base ten, most significant
/// digit first. Leading zeros do not change it; the empty run denotes zero.
pub open spec fn decimal_value(digits: Seq<char>) -> nat
    decreases digits.len(),
{
    if digits.len() == 0 {
        0
    } else {
        decimal_value(digits.drop_last()) * 10 + digit_value(digits.last())
    }
}

/// The shortest run of digits that denotes `n`.
pub open spec fn decimal_text(n: nat) -> Seq<char>
    decreases n,
{
    if n < 10 {
        seq![digit_char(n)]
    } else {
        decimal_text(n / 10).push(digit_char(n % 10))
    }
}

/// A run of digits denotes at least as much as each of its prefixes.
pub proof fn lemma_prefix_value_bounded(digits: Seq<char>, k: int)
    requires
        0 <= k <= digits.len(),
    ensures
        decimal_value(digits.subrange(0, k)) <= decimal_value(digits),
    decreases digits.len() - k,
{
    if k == digits.len() {
        assert(digits.subrange(0, k) =~= digits);
    } else {
        lemma_prefix_value_bounded(digits, k + 1);
        let longer = digits.subrange(0, k + 1);
        assert(longer.drop_last() =~= digits.subrange(0, k));
    }
}

/// Writing a number down and reading it back gives the number.
pub proof fn lemma_value_of_text(n: nat)
    ensures
        all_digits(decimal_text(n)),
        decimal_text(n).len() >= 1,
        decimal_value(decimal_text(n)) == n,
    decreases n,
{
    if n < 10 {
        let text = decimal_text(n);
        assert(text.drop_last() =~= Seq::<char>::empty());
        assert(decimal_value(text.drop_last()) == 0);
        assert(digit_value(digit_char(n)) == n);
    } else {
        lemma_value_of_text(n / 10);
        let head = decimal_text(n / 10);
        let text = decimal_text(n);
        assert(text.drop_last() =~= head);
        assert(digit_value(digit_char(n % 10)) == n % 10);
    }
}

/// Reads a run of decimal digits as a 32-bit unsigned number.
///
/// Returns the value the run denotes, or `None` exactly when that value does
/// not fit in 32 bits.
pub fn parse_decimal(digits: &str) -> (value: Option<u32>)
    requires
        all_digits(digits@),
    ensures
        value == if decimal_value(digits@) <= u32::MAX {
            Some(decimal_value(digits@) as u32)
        } else {
            None
        },
{
    broadcast use vstd::string::is_ascii_spec_bytes;

    assert(digits.is_ascii());
    let bytes = digits.as_bytes();
    let mut total: u32 = 0;
    let mut i: usize = 0;
    while i < bytes.len()
        invariant
            all_digits(digits@),
            bytes@ == digits.spec_bytes(),
            bytes@.len() == digits@.len(),
            forall|j: int| 0 <= j < bytes@.len() ==> bytes@[j] == digits@[j] as u8,
            0 <= i <= bytes@.len(),
            total == decimal_value(digits@.subrange(0, i as int)),
        decreases bytes@.len() - i,
    {
        let digit: u32 = (bytes[i] - 48u8) as u32;
        proof {
            let shorter = digits@.subrange(0, i as int);
            let longer = digits@.subrange(0, i + 1);
            assert(longer.drop_last() =~= shorter);
            assert(longer.last() == digits@[i as int]);
            assert(is_digit(digits@[i as int]));
            assert(digit == digit_value(digits@[i as int]));
            lemma_prefix_value_bounded(digits@, i + 1);
        }
        if total > (u32::MAX - digit) / 10 {
            return None;
        }
        total = total * 10 + digit;
        i = i + 1;
    }
    proof {
        assert(digits@.subrange(0, i as int) =~= digits@);
    }
    Some(total)
}

/// Appends the decimal notation of `n` to `out`.
fn push_decimal(out: &mut String, n: u32)
    ensures
        final(out)@ == old(out)@ + decimal_text(n as nat),
    decreases n,
{
    if n >= 10 {
        push_decimal(out, n / 10);
    }
    let digit: u8 = (n % 10) as u8;
    out.push((48u8 + digit) as char);
    proof {
        assert((48u8 + digit) as char == digit_char((n % 10) as nat));
        assert(final(out)@ =~= old(out)@ + decimal_text(n as nat));
    }
}

/// The decimal notation of `n`, without leading zeros.
pub fn render_decimal(n: u32) -> (text: String)
    ensures
        text@ == decimal_text(n as nat),
{
    let mut text = String::new();
    push_decimal(&mut text, n);
    proof {
        assert(text@ =~= decimal_text(n as nat));
    }
    text
}

} // verus!
