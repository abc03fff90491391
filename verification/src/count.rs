//! Case counts as they are written in a table: decimal text, or hexadecimal
//! text behind `0x`.

use vstd::prelude::*;

verus! {

/// The value of a byte as a digit, or nothing where it is none: `0` to `9`
/// in both forms, and `a` to `f` in either case in the hexadecimal form.
pub open spec fn digit_value(byte: u8, hex: bool) -> Option<nat> {
    if 0x30 <= byte <= 0x39 {
        Some((byte - 0x30) as nat)
    } else if hex && 0x61 <= byte <= 0x66 {
        Some((byte - 0x61 + 10) as nat)
    } else if hex && 0x41 <= byte <= 0x46 {
        Some((byte - 0x41 + 10) as nat)
    } else {
        None
    }
}

/// True for one or more digits of the form.
pub open spec fn are_digits(digits: Seq<u8>, hex: bool) -> bool {
    digits.len() > 0 && forall|i: int|
        0 <= i < digits.len() ==> digit_value(#[trigger] digits[i], hex) is Some
}

/// A number moved up by one digit of the form.
pub open spec fn shifted(value: nat, hex: bool) -> nat {
    if hex {
        value * 16
    } else {
        value * 10
    }
}

/// The number that a run of digits writes in the form.
pub open spec fn digits_value(digits: Seq<u8>, hex: bool) -> nat
    decreases digits.len(),
{
    if digits.len() == 0 {
        0
    } else {
        shifted(digits_value(digits.drop_last(), hex), hex) + match digit_value(
            digits.last(),
            hex,
        ) {
            Some(digit) => digit,
            None => 0,
        }
    }
}

/// True for a text in the hexadecimal form: one that starts with `0x`.
pub open spec fn is_hex(text: Seq<u8>) -> bool {
    text.len() >= 2 && text[0] == 0x30 && text[1] == 0x78
}

/// The text behind the `0x` of the hexadecimal form, or all of it.
pub open spec fn number_part(text: Seq<u8>) -> Seq<u8> {
    if is_hex(text) {
        text.skip(2)
    } else {
        text
    }
}

/// The text without the plus sign that may stand in front of the digits.
pub open spec fn unsigned_part(text: Seq<u8>) -> Seq<u8> {
    if text.len() > 0 && text[0] == 0x2b {
        text.drop_first()
    } else {
        text
    }
}

/// The count that a text writes: one or more decimal digits, or `0x` and one
/// or more hexadecimal digits, in both forms with or without a plus sign in
/// front of the digits, and with a value that fits the machine's word. Any
/// other text writes no count.
pub open spec fn count_value(text: Seq<u8>) -> Option<usize> {
    let hex = is_hex(text);
    let digits = unsigned_part(number_part(text));
    if are_digits(digits, hex) && digits_value(digits, hex) <= usize::MAX {
        Some(digits_value(digits, hex) as usize)
    } else {
        None
    }
}

/// The digits read so far never write more than all the digits do.
proof fn lemma_digits_value_grows(digits: Seq<u8>, hex: bool, n: int)
    requires
        0 <= n <= digits.len(),
    ensures
        digits_value(digits.take(n), hex) <= digits_value(digits, hex),
    decreases digits.len(),
{
    if n == digits.len() {
        assert(digits.take(n) =~= digits);
    } else {
        lemma_digits_value_grows(digits.drop_last(), hex, n);
        assert(digits.drop_last().take(n) =~= digits.take(n));
    }
}

/// Reads a count from its text.
pub fn parse_count(text: &[u8]) -> (count: Option<usize>)
    ensures
        count == count_value(text@),
{
    let hex = text.len() >= 2 && text[0] == 0x30 && text[1] == 0x78;
    let after: usize = if hex {
        2
    } else {
        0
    };
    let start: usize = if after < text.len() && text[after] == 0x2b {
        after + 1
    } else {
        after
    };
    let ghost digits = unsigned_part(number_part(text@));
    assert(digits =~= text@.skip(start as int));
    if start == text.len() {
        return None;
    }
    let mut value: usize = 0;
    let mut at: usize = start;
    while at < text.len()
        invariant
            start <= at <= text@.len(),
            hex == is_hex(text@),
            digits == text@.skip(start as int),
            digits == unsigned_part(number_part(text@)),
            forall|i: int| 0 <= i < at - start ==> digit_value(#[trigger] digits[i], hex) is Some,
            value == digits_value(digits.take(at - start), hex),
        decreases text@.len() - at,
    {
        let byte: u8 = text[at];
        assert(digits[at - start] == byte);
        let digit: usize = if byte >= 0x30 && byte <= 0x39 {
            (byte - 0x30) as usize
        } else if hex && byte >= 0x61 && byte <= 0x66 {
            (byte - 0x61) as usize + 10
        } else if hex && byte >= 0x41 && byte <= 0x46 {
            (byte - 0x41) as usize + 10
        } else {
            return None;
        };
        proof {
            let longer = digits.take(at - start + 1);
            assert(longer.drop_last() =~= digits.take(at - start));
            assert(longer.last() == byte);
            assert(digits_value(longer, hex) == shifted(value as nat, hex) + digit);
            lemma_digits_value_grows(digits, hex, at - start + 1);
        }
        if hex {
            if value > (usize::MAX - digit) / 16 {
                return None;
            }
            value = value * 16 + digit;
        } else {
            if value > (usize::MAX - digit) / 10 {
                return None;
            }
            value = value * 10 + digit;
        }
        at = at + 1;
    }
    assert(digits.take(at - start) =~= digits);
    Some(value)
}

} // verus!
