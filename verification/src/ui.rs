//! Numbers as text.

use crate::text::push_char;
use vstd::prelude::*;

verus! {

/// The character for the decimal digit `d`.
pub open spec fn digit_char(d: nat) -> char {
    (48 + d) as u8 as char
}

/// The decimal digits of `n`, most significant first, without leading zeros.
pub open spec fn decimal_digits(n: nat) -> Seq<char>
    decreases n,
{
    if n < 10 {
        seq![digit_char(n)]
    } else {
        decimal_digits(n / 10).push(digit_char(n % 10))
    }
}

/// `digits` with a comma before every group of three, counted from the right.
pub open spec fn grouped(digits: Seq<char>) -> Seq<char>
    decreases digits.len(),
{
    if digits.len() <= 3 {
        digits
    } else {
        grouped(digits.take(digits.len() - 3)) + seq![','] + digits.skip(digits.len() - 3)
    }
}

/// The decimal digits of `n` as characters, most significant first.
pub fn digits_of(n: u64) -> (digits: Vec<char>)
    ensures
        digits@ == decimal_digits(n as nat),
        digits.len() >= 1,
{
    let mut reversed: Vec<char> = Vec::new();
    let mut rest = n;
    let ghost mut pending: Seq<char> = Seq::empty();
    while rest >= 10
        invariant
            reversed.len() == pending.len(),
            forall|i: int| 0 <= i < pending.len() ==> reversed[i] == pending[pending.len() - 1 - i],
            decimal_digits(n as nat) == decimal_digits(rest as nat) + pending,
        decreases rest,
    {
        let d = (rest % 10) as u8;
        proof {
            let old_pending = pending;
            pending = seq![digit_char((rest % 10) as nat)] + old_pending;
        }
        reversed.push((48u8 + d) as char);
        rest = rest / 10;
    }
    reversed.push((48u8 + (rest as u8)) as char);
    proof {
        let old_pending = pending;
        pending = seq![digit_char(rest as nat)] + old_pending;
    }
    let mut digits: Vec<char> = Vec::new();
    let mut i: usize = reversed.len();
    while i > 0
        invariant
            i <= reversed.len(),
            reversed.len() == pending.len(),
            digits.len() == reversed.len() - i,
            forall|j: int| 0 <= j < pending.len() ==> reversed[j] == pending[pending.len() - 1 - j],
            forall|j: int| 0 <= j < digits.len() ==> digits[j] == pending[j],
        decreases i,
    {
        i -= 1;
        digits.push(reversed[i]);
    }
    digits
}

/// `n` in decimal.
pub fn decimal(n: u64) -> (text: String)
    ensures
        text@ == decimal_digits(n as nat),
{
    crate::text::text_of(&digits_of(n))
}

/// `num` in decimal with a comma between groups of three digits, as in `1,234,567`.
pub fn format_number(num: u64) -> (text: String)
    ensures
        text@ == grouped(decimal_digits(num as nat)),
{
    let digits = digits_of(num);
    let n = digits.len();
    let first: usize = if n % 3 == 0 { 3 } else { n % 3 };
    let mut text = String::new();
    let mut i: usize = 0;
    while i < first
        invariant
            i <= first <= n,
            n == digits.len(),
            text@ =~= digits@.take(i as int),
        decreases first - i,
    {
        push_char(&mut text, digits[i]);
        i += 1;
    }
    while i < n
        invariant
            0 < i <= n,
            n == digits.len(),
            (n - i) % 3 == 0,
            text@ == grouped(digits@.take(i as int)),
        decreases n - i,
    {
        proof {
            let next = digits@.take(i as int + 3);
            assert(next.take(next.len() - 3) =~= digits@.take(i as int));
        }
        push_char(&mut text, ',');
        push_char(&mut text, digits[i]);
        push_char(&mut text, digits[i + 1]);
        push_char(&mut text, digits[i + 2]);
        i += 3;
    }
    assert(digits@.take(n as int) =~= digits@);
    text
}

} // verus!
