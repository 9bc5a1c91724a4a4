//! Field identifiers: a record's field is named by a decimal integer in
//! 0..=255.

use crate::error::Error;
use vstd::prelude::*;
use vstd::string::StrSliceExecFns;

verus! {

/// Whether `c` is one of the ten decimal digits.
pub open spec fn is_digit(c: char) -> bool {
    48 <= c as u32 <= 57
}

/// The number that `digits` spell in base 10.
pub open spec fn decimal(digits: Seq<char>) -> nat
    decreases digits.len(),
{
    if digits.len() == 0 {
        0
    } else {
        decimal(digits.drop_last()) * 10 + (digits.last() as u32 - 48) as nat
    }
}

/// The digits of a field identifier: what follows the one `+` that may
/// stand in front.
pub open spec fn digits_of(key: Seq<char>) -> Seq<char> {
    if key.len() > 0 && key[0] == '+' {
        key.skip(1)
    } else {
        key
    }
}

/// The tag that a field identifier names: its digits, of which there is at
/// least one, spell a number of at most 255. Anything else names no tag.
pub open spec fn field_tag(key: Seq<char>) -> Option<u8> {
    let digits = digits_of(key);
    if digits.len() > 0 && (forall|i: int| 0 <= i < digits.len() ==> is_digit(#[trigger] digits[i]))
        && decimal(digits) <= 255 {
        Some(decimal(digits) as u8)
    } else {
        None
    }
}

/// A run of digits spells no less than any of its prefixes.
proof fn lemma_decimal_grows(digits: Seq<char>, k: int)
    requires
        0 <= k <= digits.len(),
        forall|i: int| 0 <= i < digits.len() ==> is_digit(#[trigger] digits[i]),
    ensures
        decimal(digits.take(k)) <= decimal(digits),
    decreases digits.len() - k,
{
    if k < digits.len() {
        lemma_decimal_grows(digits, k + 1);
        assert(digits.take(k + 1).drop_last() =~= digits.take(k));
    } else {
        assert(digits.take(k) =~= digits);
    }
}

/// Reads a field identifier.
pub fn parse_field_tag(key: &str) -> (r: Result<u8, Error>)
    ensures
        r == match field_tag(key@) {
            Some(tag) => Ok::<u8, Error>(tag),
            None => Err::<u8, Error>(Error::InvalidFieldTag),
        },
{
    let n = key.unicode_len();
    let start: usize = if n > 0 && key.get_char(0) == '+' {
        1
    } else {
        0
    };
    let ghost digits = digits_of(key@);
    if start >= n {
        return Err(Error::InvalidFieldTag);
    }
    let mut acc: u32 = 0;
    let mut i: usize = start;
    assert(digits.take(0) =~= Seq::<char>::empty());
    while i < n
        invariant
            start <= i <= n,
            n == key@.len(),
            start <= 1,
            digits == digits_of(key@),
            digits == key@.skip(start as int),
            acc == decimal(digits.take(i - start)),
            acc <= 255,
            forall|j: int| 0 <= j < i - start ==> is_digit(#[trigger] digits[j]),
        decreases n - i,
    {
        let code = key.get_char(i) as u32;
        assert(digits[i - start] == key@[i as int]);
        if code < 48 || code > 57 {
            return Err(Error::InvalidFieldTag);
        }
        assert(digits.take(i + 1 - start).drop_last() =~= digits.take(i - start));
        let next = acc * 10 + (code - 48);
        if next > 255 {
            proof {
                if forall|j: int| 0 <= j < digits.len() ==> is_digit(#[trigger] digits[j]) {
                    lemma_decimal_grows(digits, i + 1 - start);
                }
            }
            return Err(Error::InvalidFieldTag);
        }
        acc = next;
        i = i + 1;
    }
    assert(digits.take(n - start) =~= digits);
    Ok(acc as u8)
}

} // verus!
