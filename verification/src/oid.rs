//! The ids of commits as git writes them.

use crate::text::characters;
use crate::types::NonZeroOid;
use vstd::prelude::*;

verus! {

/// How many hexadecimal digits an id has.
pub const OID_DIGITS: usize = 40;

/// How many of the digits stand for the first number of an id.
pub const OID_HEAD_DIGITS: usize = 32;

/// Whether a character is a hexadecimal digit, in either case.
pub open spec fn is_hex_digit(c: char) -> bool {
    '0' <= c <= '9' || 'a' <= c <= 'f' || 'A' <= c <= 'F'
}

/// The number that a hexadecimal digit stands for.
pub open spec fn hex_digit_value(c: char) -> int {
    if '0' <= c <= '9' {
        c as int - '0' as int
    } else if 'a' <= c <= 'f' {
        c as int - 'a' as int + 10
    } else {
        c as int - 'A' as int + 10
    }
}

/// Whether a text is made of hexadecimal digits alone.
pub open spec fn all_hex_digits(text: Seq<char>) -> bool {
    forall|i: int| 0 <= i < text.len() ==> is_hex_digit(#[trigger] text[i])
}

/// The number that hexadecimal digits stand for, the most significant first.
pub open spec fn hex_value(digits: Seq<char>) -> int
    decreases digits.len(),
{
    if digits.len() == 0 {
        0
    } else {
        hex_value(digits.drop_last()) * 16 + hex_digit_value(digits.last())
    }
}

/// The id that a text writes: forty hexadecimal digits that are not all zero.
pub open spec fn oid_of_text(text: Seq<char>) -> Option<NonZeroOid> {
    let head = hex_value(text.take(OID_HEAD_DIGITS as int));
    let tail = hex_value(text.skip(OID_HEAD_DIGITS as int));
    if text.len() == OID_DIGITS && all_hex_digits(text) && (head != 0 || tail != 0) {
        Some((head as u128, tail as u32))
    } else {
        None
    }
}

/// The digit for a number below sixteen, in lower case.
pub open spec fn hex_digit(value: int) -> char {
    if value < 10 {
        (value + '0' as int) as char
    } else {
        (value - 10 + 'a' as int) as char
    }
}

/// The last `count` hexadecimal digits of a number, the most significant first.
pub open spec fn hex_digits(value: int, count: int) -> Seq<char>
    decreases count,
{
    if count <= 0 {
        Seq::empty()
    } else {
        hex_digits(value / 16, count - 1).push(hex_digit(value % 16))
    }
}

/// An id as git writes it.
pub open spec fn oid_text(oid: NonZeroOid) -> Seq<char> {
    hex_digits(oid.0 as int, OID_HEAD_DIGITS as int) + hex_digits(
        oid.1 as int,
        OID_DIGITS - OID_HEAD_DIGITS,
    )
}

/// A power of sixteen.
pub open spec fn power_of_16(exponent: int) -> int
    decreases exponent,
{
    if exponent <= 0 {
        1
    } else {
        16 * power_of_16(exponent - 1)
    }
}

/// The powers of sixteen that bound the two numbers of an id.
pub proof fn lemma_oid_bounds()
    ensures
        power_of_16(8) == u32::MAX + 1,
        power_of_16(32) == u128::MAX + 1,
{
    reveal_with_fuel(power_of_16, 9);
    assert(power_of_16(8) == 0x1_0000_0000int);
    assert(power_of_16(16) == 0x1_0000_0000_0000_0000int);
    assert(power_of_16(24) == 0x1_0000_0000_0000_0000_0000_0000int);
    assert(power_of_16(32) == 0x1_0000_0000_0000_0000_0000_0000_0000_0000int);
}

/// As many digits stand for a number below the power of sixteen that has one more digit.
pub proof fn lemma_hex_value_bound(digits: Seq<char>)
    requires
        all_hex_digits(digits),
    ensures
        0 <= hex_value(digits) < power_of_16(digits.len() as int),
    decreases digits.len(),
{
    if digits.len() > 0 {
        let front = digits.drop_last();
        assert forall|i: int| 0 <= i < front.len() implies is_hex_digit(#[trigger] front[i]) by {
            assert(is_hex_digit(digits[i]));
        }
        lemma_hex_value_bound(front);
        assert(is_hex_digit(digits[digits.len() - 1]));
    }
}

/// A larger exponent gives no smaller power.
proof fn lemma_power_grows(small: int, large: int)
    requires
        0 <= small <= large,
    ensures
        1 <= power_of_16(small) <= power_of_16(large),
    decreases large,
{
    if small < large {
        lemma_power_grows(small, large - 1);
    } else if small > 0 {
        lemma_power_grows(small - 1, small - 1);
    }
}

/// Writing a number with enough digits and reading them gives the number back.
proof fn lemma_hex_round_trip(value: int, count: int)
    requires
        0 <= count,
        0 <= value < power_of_16(count),
    ensures
        hex_digits(value, count).len() == count,
        all_hex_digits(hex_digits(value, count)),
        hex_value(hex_digits(value, count)) == value,
    decreases count,
{
    if count > 0 {
        lemma_hex_round_trip(value / 16, count - 1);
        let front = hex_digits(value / 16, count - 1);
        let digits = hex_digits(value, count);
        assert(digits.drop_last() =~= front);
        assert(is_hex_digit(hex_digit(value % 16)));
        assert(hex_digit_value(hex_digit(value % 16)) == value % 16);
        assert forall|i: int| 0 <= i < digits.len() implies is_hex_digit(#[trigger] digits[i]) by {
            if i < front.len() {
                assert(digits[i] == front[i]);
            }
        }
    }
}

/// An id that is written as git does is read as the same id.
pub proof fn law_oid_round_trip(oid: NonZeroOid)
    requires
        oid != (0u128, 0u32),
    ensures
        oid_of_text(oid_text(oid)) == Some(oid),
{
    lemma_oid_bounds();
    let head = hex_digits(oid.0 as int, 32);
    let tail = hex_digits(oid.1 as int, 8);
    lemma_hex_round_trip(oid.0 as int, 32);
    lemma_hex_round_trip(oid.1 as int, 8);
    let text = oid_text(oid);
    assert(text.take(32) =~= head);
    assert(text.skip(32) =~= tail);
    assert forall|i: int| 0 <= i < text.len() implies is_hex_digit(#[trigger] text[i]) by {
        if i < 32 {
            assert(text[i] == head[i]);
        } else {
            assert(text[i] == tail[i - 32]);
        }
    }
}

/// Reads a hexadecimal digit.
fn parse_hex_digit(c: char) -> (value: Option<u8>)
    ensures
        match value {
            Some(value) => is_hex_digit(c) && value == hex_digit_value(c),
            None => !is_hex_digit(c),
        },
{
    if '0' <= c && c <= '9' {
        Some((c as u32 - '0' as u32) as u8)
    } else if 'a' <= c && c <= 'f' {
        Some((c as u32 - 'a' as u32 + 10) as u8)
    } else if 'A' <= c && c <= 'F' {
        Some((c as u32 - 'A' as u32 + 10) as u8)
    } else {
        None
    }
}

/// Reads the number that the digits from `start` up to `end` stand for.
fn parse_hex(chars: &Vec<char>, start: usize, end: usize) -> (value: Option<u128>)
    requires
        start <= end <= chars@.len(),
        end - start <= 32,
    ensures
        match value {
            Some(value) => all_hex_digits(chars@.subrange(start as int, end as int)) && value
                == hex_value(chars@.subrange(start as int, end as int)),
            None => !all_hex_digits(chars@.subrange(start as int, end as int)),
        },
{
    let ghost digits = chars@.subrange(start as int, end as int);
    let mut value: u128 = 0;
    let mut i: usize = start;
    assert(digits.take(0) =~= Seq::<char>::empty());
    while i < end
        invariant
            start <= i <= end <= chars@.len(),
            end - start <= 32,
            digits == chars@.subrange(start as int, end as int),
            all_hex_digits(digits.take(i - start)),
            value == hex_value(digits.take(i - start)),
        decreases end - i,
    {
        let ghost next = digits.take(i + 1 - start);
        assert(next.drop_last() =~= digits.take(i - start));
        assert(next.last() == digits[i - start]);
        match parse_hex_digit(chars[i]) {
            Some(digit) => {
                proof {
                    assert forall|j: int| 0 <= j < next.len() implies is_hex_digit(
                        #[trigger] next[j],
                    ) by {
                        if j < i - start {
                            assert(next[j] == digits.take(i - start)[j]);
                        }
                    }
                    lemma_hex_value_bound(next);
                    lemma_power_grows(next.len() as int, 32);
                    lemma_oid_bounds();
                }
                value = value * 16 + digit as u128;
            },
            None => {
                assert(!is_hex_digit(digits[i - start]));
                return None;
            },
        }
        i += 1;
    }
    assert(digits.take(end - start) =~= digits);
    Some(value)
}

/// Reads an id. Only an id that is written out in full is read, and none that is all zeroes.
pub fn parse_oid(text: &str) -> (oid: Option<NonZeroOid>)
    ensures
        oid == oid_of_text(text@),
{
    let chars = characters(text);
    if chars.len() != OID_DIGITS {
        return None;
    }
    let ghost head_text = text@.take(OID_HEAD_DIGITS as int);
    let ghost tail_text = text@.skip(OID_HEAD_DIGITS as int);
    proof {
        assert(head_text =~= text@.subrange(0, OID_HEAD_DIGITS as int));
        assert(tail_text =~= text@.subrange(OID_HEAD_DIGITS as int, OID_DIGITS as int));
        if all_hex_digits(text@) {
            assert forall|i: int| 0 <= i < head_text.len() implies is_hex_digit(
                #[trigger] head_text[i],
            ) by {
                assert(is_hex_digit(text@[i]));
            }
            assert forall|i: int| 0 <= i < tail_text.len() implies is_hex_digit(
                #[trigger] tail_text[i],
            ) by {
                assert(is_hex_digit(text@[i + OID_HEAD_DIGITS]));
            }
        }
        if all_hex_digits(head_text) && all_hex_digits(tail_text) {
            assert forall|i: int| 0 <= i < text@.len() implies is_hex_digit(
                #[trigger] text@[i],
            ) by {
                if i < OID_HEAD_DIGITS {
                    assert(is_hex_digit(head_text[i]));
                } else {
                    assert(is_hex_digit(tail_text[i - OID_HEAD_DIGITS]));
                }
            }
        }
    }
    match (
        parse_hex(&chars, 0, OID_HEAD_DIGITS),
        parse_hex(&chars, OID_HEAD_DIGITS, OID_DIGITS),
    ) {
        (Some(head), Some(tail)) => {
            proof {
                lemma_hex_value_bound(tail_text);
                lemma_oid_bounds();
            }
            if head == 0 && tail == 0 {
                None
            } else {
                Some((head, tail as u32))
            }
        },
        _ => None,
    }
}

/// Adds the last `count` digits of a number to a text.
fn write_hex(value: u128, count: usize, text: &mut String)
    ensures
        final(text)@ == old(text)@ + hex_digits(value as int, count as int),
    decreases count,
{
    let ghost before = text@;
    if count > 0 {
        write_hex(value / 16, count - 1, text);
        let digits = "0123456789abcdef";
        proof {
            reveal_strlit("0123456789abcdef");
        }
        let digit: usize = (value % 16) as usize;
        assert(digits@.subrange(digit as int, digit + 1) =~= seq![hex_digit(value as int % 16)]);
        text.append(digits.substring_char(digit, digit + 1));
    }
    assert(text@ =~= before + hex_digits(value as int, count as int));
}

/// Writes an id as git does.
pub fn write_oid(oid: NonZeroOid) -> (text: String)
    ensures
        text@ == oid_text(oid),
{
    let mut text = String::new();
    write_hex(oid.0, OID_HEAD_DIGITS, &mut text);
    write_hex(oid.1 as u128, OID_DIGITS - OID_HEAD_DIGITS, &mut text);
    text
}

} // verus!
