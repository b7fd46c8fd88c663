//! Reading and comparing short texts.

use vstd::prelude::*;
use vstd::std_specs::iter::IteratorSpec;

verus! {

broadcast use vstd::string::group_string_axioms;

/// Tells whether two texts are the same.
pub fn same_text(left: &str, right: &str) -> (same: bool)
    ensures
        same == (left@ == right@),
{
    String::from_str(left) == String::from_str(right)
}

/// `c` is one of the ten ASCII digits.
pub open spec fn is_digit(c: char) -> bool {
    '0' <= c && c <= '9'
}

/// Every character of `text` is an ASCII digit.
pub open spec fn all_digits(text: Seq<char>) -> bool {
    forall|i: int| 0 <= i < text.len() ==> is_digit(#[trigger] text[i])
}

/// The number that a string of ASCII digits writes in base ten.
pub open spec fn decimal_value(digits: Seq<char>) -> int
    decreases digits.len(),
{
    if digits.len() == 0 {
        0
    } else {
        10 * decimal_value(digits.drop_last()) + (digits.last() as int - '0' as int)
    }
}

/// The part of `text` behind its sign, if it has one.
pub open spec fn unsigned_part(text: Seq<char>) -> Seq<char> {
    if text.len() > 0 && (text[0] == '-' || text[0] == '+') {
        text.drop_first()
    } else {
        text
    }
}

/// The signed 16-bit integer that `text` writes: an optional `+` or `-`,
/// then one or more ASCII digits, the whole within the range of the type.
/// Any other text writes none.
pub open spec fn parse_i16_spec(text: Seq<char>) -> Option<i16> {
    let digits = unsigned_part(text);
    let magnitude = decimal_value(digits);
    let value = if text.len() > 0 && text[0] == '-' {
        -magnitude
    } else {
        magnitude
    };
    if digits.len() > 0 && all_digits(digits) && i16::MIN <= value <= i16::MAX {
        Some(value as i16)
    } else {
        None
    }
}

/// A string of digits writes at least what any of its prefixes writes.
pub proof fn lemma_decimal_value_prefix(digits: Seq<char>, n: int)
    requires
        all_digits(digits),
        0 <= n <= digits.len(),
    ensures
        0 <= decimal_value(digits.take(n)) <= decimal_value(digits),
    decreases digits.len() - n,
{
    lemma_decimal_value_nonnegative(digits.take(n));
    if n == digits.len() {
        assert(digits.take(n) =~= digits);
    } else {
        lemma_decimal_value_prefix(digits, n + 1);
        let longer = digits.take(n + 1);
        assert(longer.drop_last() =~= digits.take(n));
        assert(is_digit(longer.last()));
    }
}

/// A string of digits writes no negative number.
pub proof fn lemma_decimal_value_nonnegative(digits: Seq<char>)
    requires
        all_digits(digits),
    ensures
        0 <= decimal_value(digits),
    decreases digits.len(),
{
    if digits.len() > 0 {
        assert(is_digit(digits.last()));
        lemma_decimal_value_nonnegative(digits.drop_last());
    }
}

/// Reads `text` as a signed 16-bit integer in base ten.
pub fn parse_i16(text: &str) -> (parsed: Option<i16>)
    ensures
        parsed == parse_i16_spec(text@),
{
    let ghost digits = unsigned_part(text@);
    let mut chars = text.chars();
    let mut negative = false;
    let mut magnitude: i32 = 0;
    let mut seen = false;
    let ghost mut consumed: int = 0;
    match chars.next() {
        None => {
            return None;
        },
        Some(c) => {
            if c == '-' || c == '+' {
                negative = c == '-';
                proof {
                    assert(digits.take(0) =~= Seq::<char>::empty());
                }
            } else if '0' <= c && c <= '9' {
                magnitude = (c as u32 - '0' as u32) as i32;
                seen = true;
                proof {
                    consumed = 1;
                    let read = digits.take(1);
                    assert(read.drop_last() =~= Seq::<char>::empty());
                    assert(read.last() == c);
                    assert(decimal_value(read.drop_last()) == 0);
                }
            } else {
                proof {
                    assert(!is_digit(digits[0]));
                }
                return None;
            }
        },
    }
    loop
        invariant
            digits == unsigned_part(text@),
            negative == (text@.len() > 0 && text@[0] == '-'),
            0 <= consumed <= digits.len(),
            chars.remaining() == digits.skip(consumed),
            chars.obeys_prophetic_iter_laws(),
            chars.decrease() is Some,
            seen == (consumed > 0),
            all_digits(digits.take(consumed)),
            magnitude == decimal_value(digits.take(consumed)),
            0 <= magnitude <= 32768,
        ensures
            digits == unsigned_part(text@),
            negative == (text@.len() > 0 && text@[0] == '-'),
            seen == (digits.len() > 0),
            all_digits(digits),
            magnitude == decimal_value(digits),
            0 <= magnitude <= 32768,
        decreases chars.decrease()->0,
    {
        match chars.next() {
            None => {
                proof {
                    assert(digits.take(consumed) =~= digits);
                }
                break ;
            },
            Some(c) => {
                let ghost before = digits.take(consumed);
                let ghost after = digits.take(consumed + 1);
                proof {
                    assert(digits.skip(consumed)[0] == digits[consumed]);
                    assert(digits.skip(consumed).drop_first() =~= digits.skip(consumed + 1));
                    assert(after.drop_last() =~= before);
                    assert(after.last() == c);
                }
                if '0' <= c && c <= '9' {
                    let digit: i32 = (c as u32 - '0' as u32) as i32;
                    magnitude = magnitude * 10 + digit;
                    seen = true;
                    proof {
                        assert forall|i: int| 0 <= i < after.len() implies is_digit(
                            #[trigger] after[i],
                        ) by {
                            if i < before.len() {
                                assert(after[i] == before[i]);
                            }
                        }
                        assert(magnitude == decimal_value(after));
                    }
                    if magnitude > 32768 {
                        proof {
                            if all_digits(digits) {
                                lemma_decimal_value_prefix(digits, consumed + 1);
                            }
                        }
                        return None;
                    }
                    proof {
                        consumed = consumed + 1;
                    }
                } else {
                    proof {
                        assert(!is_digit(digits[consumed]));
                    }
                    return None;
                }
            },
        }
    }
    if !seen {
        None
    } else if negative {
        Some((-magnitude) as i16)
    } else if magnitude == 32768 {
        None
    } else {
        Some(magnitude as i16)
    }
}

/// The part of `text` behind its plus sign, if it has one.
pub open spec fn unsigned_digits(text: Seq<char>) -> Seq<char> {
    if text.len() > 0 && text[0] == '+' {
        text.drop_first()
    } else {
        text
    }
}

/// The unsigned 64-bit integer that `text` writes: an optional `+`, then
/// one or more ASCII digits, the whole within the range of the type. Any
/// other text writes none.
pub open spec fn parse_u64_spec(text: Seq<char>) -> Option<u64> {
    let digits = unsigned_digits(text);
    let value = decimal_value(digits);
    if digits.len() > 0 && all_digits(digits) && value <= u64::MAX {
        Some(value as u64)
    } else {
        None
    }
}

/// Reads `text` as an unsigned 64-bit integer in base ten.
pub fn parse_u64(text: &str) -> (parsed: Option<u64>)
    ensures
        parsed == parse_u64_spec(text@),
{
    let ghost digits = unsigned_digits(text@);
    let mut chars = text.chars();
    let mut magnitude: u128 = 0;
    let mut seen = false;
    let ghost mut consumed: int = 0;
    match chars.next() {
        None => {
            return None;
        },
        Some(c) => {
            if c == '+' {
                proof {
                    assert(digits.take(0) =~= Seq::<char>::empty());
                }
            } else if '0' <= c && c <= '9' {
                magnitude = (c as u32 - '0' as u32) as u128;
                seen = true;
                proof {
                    consumed = 1;
                    let read = digits.take(1);
                    assert(read.drop_last() =~= Seq::<char>::empty());
                    assert(read.last() == c);
                    assert(decimal_value(read.drop_last()) == 0);
                }
            } else {
                proof {
                    assert(!is_digit(digits[0]));
                }
                return None;
            }
        },
    }
    loop
        invariant
            digits == unsigned_digits(text@),
            0 <= consumed <= digits.len(),
            chars.remaining() == digits.skip(consumed),
            chars.obeys_prophetic_iter_laws(),
            chars.decrease() is Some,
            seen == (consumed > 0),
            all_digits(digits.take(consumed)),
            magnitude == decimal_value(digits.take(consumed)),
            0 <= magnitude <= u64::MAX,
        ensures
            digits == unsigned_digits(text@),
            seen == (digits.len() > 0),
            all_digits(digits),
            magnitude == decimal_value(digits),
            0 <= magnitude <= u64::MAX,
        decreases chars.decrease()->0,
    {
        match chars.next() {
            None => {
                proof {
                    assert(digits.take(consumed) =~= digits);
                }
                break ;
            },
            Some(c) => {
                let ghost before = digits.take(consumed);
                let ghost after = digits.take(consumed + 1);
                proof {
                    assert(digits.skip(consumed)[0] == digits[consumed]);
                    assert(digits.skip(consumed).drop_first() =~= digits.skip(consumed + 1));
                    assert(after.drop_last() =~= before);
                    assert(after.last() == c);
                }
                if '0' <= c && c <= '9' {
                    let digit: u128 = (c as u32 - '0' as u32) as u128;
                    magnitude = magnitude * 10 + digit;
                    seen = true;
                    proof {
                        assert forall|i: int| 0 <= i < after.len() implies is_digit(
                            #[trigger] after[i],
                        ) by {
                            if i < before.len() {
                                assert(after[i] == before[i]);
                            }
                        }
                        assert(magnitude == decimal_value(after));
                    }
                    if magnitude > 0xffff_ffff_ffff_ffff {
                        proof {
                            if all_digits(digits) {
                                lemma_decimal_value_prefix(digits, consumed + 1);
                            }
                        }
                        return None;
                    }
                    proof {
                        consumed = consumed + 1;
                    }
                } else {
                    proof {
                        assert(!is_digit(digits[consumed]));
                    }
                    return None;
                }
            },
        }
    }
    if !seen {
        None
    } else {
        Some(magnitude as u64)
    }
}

} // verus!
