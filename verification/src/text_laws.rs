//! What reading and writing text gives, told character by character.

use crate::oid::{
    all_hex_digits, hex_digit, hex_digit_value, hex_digits, hex_value, is_hex_digit,
    law_oid_round_trip, lemma_hex_value_bound, lemma_oid_bounds, oid_of_text, oid_text,
    power_of_16,
};
use crate::text::{
    after_last, all_digits, decimal, digit_value, digits_value, first_occurrence,
    is_digit, is_white_space, joined, lemma_digits_grow, lemma_first_occurrence,
    lemma_first_occurrence_exists, occurs_at, occurs_first_at, parsed_usize, stands_last_at,
    trimmed, trimmed_end, trimmed_start, without_plus,
};
use crate::types::NonZeroOid;
use vstd::prelude::*;

verus! {

/// Writing a number in decimal: a number below ten is its digit, and each further digit is put
/// behind those that are written.
pub proof fn law_decimal_digit_by_digit(number: int, digit: int)
    requires
        0 <= digit < 10,
        0 < number,
    ensures
        decimal(digit) == seq!["0123456789"@[digit]],
        decimal(number * 10 + digit) == decimal(number).push("0123456789"@[digit]),
{
    reveal_strlit("0123456789");
    assert((number * 10 + digit) / 10 == number);
    assert((number * 10 + digit) % 10 == digit);
}

/// Reading a number: one digit is its number, and each further digit makes the number ten times as
/// large and adds itself, as long as the number fits. One plus sign may stand in front.
pub proof fn law_number_is_read_digit_by_digit(text: Seq<char>, digit: int)
    requires
        0 <= digit < 10,
    ensures
        parsed_usize(seq!["0123456789"@[digit]]) == Some(digit as usize),
        parsed_usize(text) matches Some(number) ==> parsed_usize(text.push("0123456789"@[digit]))
            == if number * 10 + digit <= usize::MAX {
            Some((number * 10 + digit) as usize)
        } else {
            None
        },
        text.len() > 0 && text[0] != '+' ==> parsed_usize(seq!['+'] + text) == parsed_usize(text),
{
    reveal_strlit("0123456789");
    let c = "0123456789"@[digit];
    assert(is_digit(c) && digit_value(c) == digit);
    let single = seq![c];
    assert(single.drop_last() =~= Seq::<char>::empty());
    assert(digits_value(single.drop_last()) == 0);
    assert(digits_value(single) == digit);
    assert(without_plus(single) == single);
    assert(all_digits(single));
    let longer = text.push(c);
    if parsed_usize(text) is Some {
        assert(without_plus(longer) =~= without_plus(text).push(c));
        assert(without_plus(longer).drop_last() =~= without_plus(text));
        assert(all_digits(without_plus(longer)));
        lemma_digits_grow(without_plus(text), 0);
        assert(digits_value(without_plus(text).take(0)) == 0);
        assert(digits_value(without_plus(longer)) == digits_value(without_plus(text)) * 10 + digit);
    }
    if text.len() > 0 && text[0] != '+' {
        assert(without_plus(seq!['+'] + text) =~= text);
    }
}

/// What is no number: nothing, a lone plus sign, a text with any other character than a digit behind
/// a plus sign that may stand first, and every text that begins with one that is no number and is
/// more than a plus sign.
pub proof fn law_what_is_no_number(text: Seq<char>, k: int, c: char)
    ensures
        parsed_usize(Seq::empty()) is None,
        parsed_usize(seq!['+']) is None,
        0 <= k < text.len() && !('0' <= text[k] <= '9') && (k > 0 || text[k] != '+')
            ==> parsed_usize(text) is None,
        parsed_usize(text) is None && text.len() > 0 && text != seq!['+'] ==> parsed_usize(
            text.push(c),
        ) is None,
{
    assert(without_plus(seq!['+']) =~= Seq::<char>::empty());
    if 0 <= k < text.len() && !('0' <= text[k] <= '9') && (k > 0 || text[k] != '+') {
        let digits = without_plus(text);
        if text[0] == '+' {
            assert(digits[k - 1] == text[k]);
            assert(!is_digit(digits[k - 1]));
        } else {
            assert(!is_digit(digits[k]));
        }
    }
    if parsed_usize(text) is None && text.len() > 0 && text != seq!['+'] {
        let longer = text.push(c);
        let before = without_plus(text);
        let after = without_plus(longer);
        assert(after =~= before.push(c));
        if before.len() == 0 {
            assert(text =~= seq!['+']);
        }
        if all_digits(after) {
            assert forall|i: int| 0 <= i < before.len() implies is_digit(#[trigger] before[i]) by {
                assert(after[i] == before[i]);
            }
            lemma_digits_grow(after, before.len() as int);
            assert(after.take(before.len() as int) =~= before);
        }
    }
}

/// A pattern is found where it stands first, and nowhere if it stands nowhere.
pub proof fn law_pattern_is_found_where_it_stands_first(
    text: Seq<char>,
    pattern: Seq<char>,
    i: int,
)
    ensures
        0 <= i && i + pattern.len() <= text.len() && text.subrange(i, i + pattern.len()) == pattern
            && (forall|j: int| #![trigger text.subrange(j, j + pattern.len())]
            0 <= j < i ==> text.subrange(j, j + pattern.len()) != pattern) ==> first_occurrence(
            text,
            pattern,
        ) == Some(i),
        (forall|j: int| #![trigger text.subrange(j, j + pattern.len())]
            0 <= j && j + pattern.len() <= text.len() ==> text.subrange(j, j + pattern.len())
                != pattern) ==> first_occurrence(text, pattern) is None,
        first_occurrence(text, pattern) == Some(i) ==> 0 <= i && i + pattern.len() <= text.len()
            && text.subrange(i, i + pattern.len()) == pattern,
{
    if 0 <= i && i + pattern.len() <= text.len() && text.subrange(i, i + pattern.len()) == pattern
        && (forall|j: int| #![trigger text.subrange(j, j + pattern.len())]
        0 <= j < i ==> text.subrange(j, j + pattern.len()) != pattern) {
        assert(occurs_at(text, pattern, i));
        assert forall|j: int| #[trigger] occurs_at(text, pattern, j) implies i <= j by {
            if j < i {
                assert(text.subrange(j, j + pattern.len()) != pattern);
            }
        }
        lemma_first_occurrence(text, pattern, i);
    }
    if forall|j: int| #![trigger text.subrange(j, j + pattern.len())]
        0 <= j && j + pattern.len() <= text.len() ==> text.subrange(j, j + pattern.len())
            != pattern {
        assert forall|j: int| !occurs_at(text, pattern, j) by {
            if occurs_at(text, pattern, j) {
                assert(text.subrange(j, j + pattern.len()) != pattern);
            }
        }
    }
    if first_occurrence(text, pattern) == Some(i) {
        let j = choose|j: int| occurs_at(text, pattern, j);
        lemma_first_occurrence_exists(text, pattern, j);
        let first = choose|first: int| occurs_first_at(text, pattern, first);
        lemma_first_occurrence(text, pattern, first);
    }
}

/// What follows the last mark of a text is what was put behind a mark, if it holds no mark itself.
/// Nothing follows the last mark of a text that holds none.
pub proof fn law_text_behind_last_mark(front: Seq<char>, mark: char, back: Seq<char>)
    requires
        !back.contains(mark),
    ensures
        after_last(front.push(mark) + back, mark) == Some(back),
        after_last(back, mark) is None,
{
    let text = front.push(mark) + back;
    let n = front.len() as int;
    assert(text[n] == mark);
    assert forall|j: int| n < j < text.len() implies text[j] != mark by {
        assert(text[j] == back[j - n - 1]);
        assert(back.contains(back[j - n - 1]));
    }
    assert(stands_last_at(text, mark, n));
    let last = choose|i: int| stands_last_at(text, mark, i);
    assert(last == n);
    assert(text.skip(n + 1) =~= back);
    assert forall|i: int| !stands_last_at(back, mark, i) by {
        if stands_last_at(back, mark, i) {
            assert(back.contains(back[i]));
        }
    }
}

/// The code points with the Unicode property `White_Space`, one by one.
pub open spec fn white_code_points() -> Seq<int> {
    seq![
        0x9,
        0xa,
        0xb,
        0xc,
        0xd,
        0x20,
        0x85,
        0xa0,
        0x1680,
        0x2000,
        0x2001,
        0x2002,
        0x2003,
        0x2004,
        0x2005,
        0x2006,
        0x2007,
        0x2008,
        0x2009,
        0x200a,
        0x2028,
        0x2029,
        0x202f,
        0x205f,
        0x3000,
    ]
}

/// A character is white space if its code point has the Unicode property `White_Space`, and no other
/// character is.
pub proof fn law_characters_that_are_white_space(c: char)
    ensures
        is_white_space(c) <==> white_code_points().contains(c as int),
{
    let points = white_code_points();
    let code = c as int;
    if is_white_space(c) {
        let index = if code <= 0xd {
            code - 0x9
        } else if code == 0x20 {
            5
        } else if code == 0x85 {
            6
        } else if code == 0xa0 {
            7
        } else if code == 0x1680 {
            8
        } else if code <= 0x200a {
            code - 0x2000 + 9
        } else if code == 0x2028 {
            20
        } else if code == 0x2029 {
            21
        } else if code == 0x202f {
            22
        } else if code == 0x205f {
            23
        } else {
            24
        };
        assert(points[index] == code);
    }
}

/// Whether a text is made of white space alone.
pub open spec fn all_white(text: Seq<char>) -> bool {
    forall|i: int| 0 <= i < text.len() ==> is_white_space(#[trigger] text[i])
}

proof fn lemma_trimmed_start(white: Seq<char>, text: Seq<char>)
    requires
        all_white(white),
        text.len() > 0 ==> !is_white_space(text[0]),
    ensures
        trimmed_start(white + text) == text,
    decreases white.len(),
{
    if white.len() > 0 {
        let rest = white.drop_first();
        assert forall|i: int| 0 <= i < rest.len() implies is_white_space(#[trigger] rest[i]) by {
            assert(is_white_space(white[i + 1]));
        }
        assert(is_white_space(white[0]));
        assert((white + text).drop_first() =~= rest + text);
        lemma_trimmed_start(rest, text);
    } else {
        assert(white + text =~= text);
    }
}

proof fn lemma_trimmed_end(text: Seq<char>, white: Seq<char>)
    requires
        all_white(white),
        text.len() > 0 ==> !is_white_space(text[text.len() - 1]),
    ensures
        trimmed_end(text + white) == text,
    decreases white.len(),
{
    if white.len() > 0 {
        let rest = white.drop_last();
        assert forall|i: int| 0 <= i < rest.len() implies is_white_space(#[trigger] rest[i]) by {
            assert(is_white_space(white[i]));
        }
        assert(is_white_space(white[white.len() - 1]));
        assert((text + white).drop_last() =~= text + rest);
        lemma_trimmed_end(text, rest);
    } else {
        assert(text + white =~= text);
    }
}

/// Trimming takes the white space off both sides, and nothing else.
pub proof fn law_white_space_is_taken_off(left: Seq<char>, text: Seq<char>, right: Seq<char>)
    requires
        all_white(left),
        all_white(right),
        text.len() > 0 ==> !is_white_space(text[0]) && !is_white_space(text[text.len() - 1]),
    ensures
        trimmed(left + text + right) == text,
{
    if text.len() > 0 {
        assert(left + text + right =~= left + (text + right));
        lemma_trimmed_start(left, text + right);
        lemma_trimmed_end(text, right);
    } else {
        let white = left + right;
        assert forall|i: int| 0 <= i < white.len() implies is_white_space(#[trigger] white[i]) by {
            if i < left.len() {
                assert(is_white_space(left[i]));
            } else {
                assert(is_white_space(right[i - left.len()]));
            }
        }
        assert(left + text + right =~= white + Seq::<char>::empty());
        lemma_trimmed_start(white, Seq::empty());
        assert(text =~= Seq::empty());
    }
}

/// Joining puts each further text behind a separator, and one text alone behind nothing.
pub proof fn law_texts_are_joined(parts: Seq<Seq<char>>, part: Seq<char>, separator: Seq<char>)
    ensures
        joined(Seq::empty(), separator) == Seq::<char>::empty(),
        joined(seq![part], separator) == part,
        parts.len() > 0 ==> joined(parts.push(part), separator) == joined(parts, separator)
            + separator + part,
{
    assert(parts.push(part).drop_last() =~= parts);
}

/// An id is written with forty digits. The last of the first thirty-two is that of the first number,
/// the last of all that of the second, and without them the digits are those of a sixteenth.
pub proof fn law_oid_is_written_digit_by_digit(head: u128, tail: u32)
    ensures
        ({
            let text = oid_text((head, tail));
            let head_less = oid_text(((head / 16) as u128, tail));
            let tail_less = oid_text((head, (tail / 16) as u32));
            &&& text.len() == 40
            &&& text[31] == "0123456789abcdef"@[head as int % 16]
            &&& text[39] == "0123456789abcdef"@[tail as int % 16]
            &&& head_less[0] == '0'
            &&& head_less.subrange(1, 32) == text.take(31)
            &&& head_less.skip(32) == text.skip(32)
            &&& tail_less[32] == '0'
            &&& tail_less.subrange(33, 40) == text.subrange(32, 39)
            &&& tail_less.take(32) == text.take(32)
        }),
{
    reveal_strlit("0123456789abcdef");
    lemma_oid_bounds();
    lemma_hex_digits(head as int, 32);
    lemma_hex_digits(tail as int, 8);
    lemma_hex_digits(head as int / 16, 32);
    lemma_hex_digits(tail as int / 16, 8);
    lemma_hex_digits(head as int / 16, 31);
    lemma_hex_digits(tail as int / 16, 7);
    lemma_leading_zero(head as int / 16, 31);
    lemma_leading_zero(tail as int / 16, 7);
    let text = oid_text((head, tail));
    let head_less = oid_text(((head / 16) as u128, tail));
    let tail_less = oid_text((head, (tail / 16) as u32));
    assert(head_less.subrange(1, 32) =~= text.take(31));
    assert(head_less.skip(32) =~= text.skip(32));
    assert(tail_less.subrange(33, 40) =~= text.subrange(32, 39));
    assert(tail_less.take(32) =~= text.take(32));
}

proof fn lemma_hex_digits(value: int, count: int)
    requires
        0 <= count,
        0 <= value,
    ensures
        hex_digits(value, count).len() == count,
    decreases count,
{
    if count > 0 {
        lemma_hex_digits(value / 16, count - 1);
    }
}

/// One digit more than a number needs is a zero in front.
proof fn lemma_leading_zero(value: int, count: int)
    requires
        0 <= count,
        0 <= value < power_of_16(count),
    ensures
        hex_digits(value, count + 1) == seq!['0'] + hex_digits(value, count),
    decreases count,
{
    if count > 0 {
        lemma_leading_zero(value / 16, count - 1);
        assert(hex_digits(value, count + 1) =~= seq!['0'] + hex_digits(value, count));
    } else {
        assert(value == 0);
        assert(hex_digits(0, 0) =~= Seq::<char>::empty());
        assert(hex_digits(0, 1) =~= seq!['0']);
        assert(hex_digits(value, count + 1) =~= seq!['0'] + hex_digits(value, count));
    }
}

/// Whether two characters are the same hexadecimal digit, in whatever case.
pub open spec fn same_digit(one: char, other: char) -> bool {
    ||| one == other
    ||| 'A' <= one <= 'F' && other as int == one as int + 32
}

proof fn lemma_hex_digits_of_value(digits: Seq<char>)
    requires
        all_hex_digits(digits),
    ensures
        hex_digits(hex_value(digits), digits.len() as int).len() == digits.len(),
        forall|k: int|
            0 <= k < digits.len() ==> same_digit(
                digits[k],
                #[trigger] hex_digits(hex_value(digits), digits.len() as int)[k],
            ),
    decreases digits.len(),
{
    if digits.len() > 0 {
        let front = digits.drop_last();
        let c = digits.last();
        assert(is_hex_digit(digits[digits.len() - 1]));
        assert forall|i: int| 0 <= i < front.len() implies is_hex_digit(#[trigger] front[i]) by {
            assert(is_hex_digit(digits[i]));
        }
        lemma_hex_digits_of_value(front);
        lemma_hex_value_bound(front);
        let value = hex_value(digits);
        let low = hex_digit_value(c);
        assert(0 <= low < 16);
        assert(value / 16 == hex_value(front));
        assert(value % 16 == low);
        assert(same_digit(c, hex_digit(low)));
        let all = hex_digits(value, digits.len() as int);
        assert forall|k: int| 0 <= k < digits.len() implies same_digit(
            digits[k],
            #[trigger] all[k],
        ) by {
            if k < front.len() {
                assert(all[k] == hex_digits(hex_value(front), front.len() as int)[k]);
                assert(front[k] == digits[k]);
            }
        }
    }
}

/// Whether a character is one of the hexadecimal digits.
pub open spec fn is_written_digit(c: char) -> bool {
    "0123456789abcdefABCDEF"@.contains(c)
}

proof fn lemma_written_digit(c: char)
    ensures
        is_written_digit(c) <==> is_hex_digit(c),
{
    reveal_strlit("0123456789abcdefABCDEF");
    let digits = "0123456789abcdefABCDEF"@;
    if is_hex_digit(c) {
        let k = if '0' <= c <= '9' {
            c as int - '0' as int
        } else if 'a' <= c <= 'f' {
            c as int - 'a' as int + 10
        } else {
            c as int - 'A' as int + 16
        };
        assert(digits[k] == c);
    }
}

proof fn lemma_zero_value(digits: Seq<char>)
    requires
        all_hex_digits(digits),
    ensures
        hex_value(digits) == 0 <==> forall|k: int|
            0 <= k < digits.len() ==> #[trigger] digits[k] == '0',
    decreases digits.len(),
{
    if digits.len() > 0 {
        let front = digits.drop_last();
        assert forall|i: int| 0 <= i < front.len() implies is_hex_digit(#[trigger] front[i]) by {
            assert(is_hex_digit(digits[i]));
        }
        lemma_zero_value(front);
        lemma_hex_value_bound(front);
        assert(is_hex_digit(digits[digits.len() - 1]));
        if hex_value(digits) == 0 {
            assert forall|k: int| 0 <= k < digits.len() implies #[trigger] digits[k] == '0' by {
                if k < front.len() {
                    assert(front[k] == digits[k]);
                }
            }
        }
        if forall|k: int| 0 <= k < digits.len() ==> #[trigger] digits[k] == '0' {
            assert forall|k: int| 0 <= k < front.len() implies #[trigger] front[k] == '0' by {
                assert(digits[k] == '0');
            }
            assert(digits[digits.len() - 1] == '0');
        }
    }
}

/// A text is an id if and only if it has forty characters, each a hexadecimal digit in either case,
/// and not all of them zero. Written again, the id has the same digits, in lower case.
pub proof fn law_oid_is_read_digit_by_digit(text: Seq<char>, k: int)
    ensures
        oid_of_text(text) is Some <==> text.len() == 40 && (forall|j: int|
            0 <= j < text.len() ==> is_written_digit(#[trigger] text[j])) && (exists|j: int|
            0 <= j < text.len() && #[trigger] text[j] != '0'),
        oid_of_text(text) is Some && 0 <= k < 40 ==> same_digit(
            text[k],
            oid_text(oid_of_text(text)->0)[k],
        ),
{
    let head = text.take(32);
    let tail = text.skip(32);
    assert forall|j: int| 0 <= j < text.len() implies is_written_digit(#[trigger] text[j])
        == is_hex_digit(text[j]) by {
        lemma_written_digit(text[j]);
    }
    if text.len() == 40 && all_hex_digits(text) {
        assert forall|i: int| 0 <= i < 32 implies is_hex_digit(#[trigger] head[i]) by {
            assert(is_hex_digit(text[i]));
        }
        assert forall|i: int| 0 <= i < 8 implies is_hex_digit(#[trigger] tail[i]) by {
            assert(is_hex_digit(text[i + 32]));
        }
        lemma_zero_value(head);
        lemma_zero_value(tail);
        lemma_hex_value_bound(head);
        lemma_hex_value_bound(tail);
        lemma_oid_bounds();
        lemma_hex_digits_of_value(head);
        lemma_hex_digits_of_value(tail);
        if hex_value(head) == 0 && hex_value(tail) == 0 {
            assert forall|j: int| 0 <= j < text.len() implies #[trigger] text[j] == '0' by {
                if j < 32 {
                    assert(head[j] == '0');
                } else {
                    assert(tail[j - 32] == '0');
                }
            }
        } else if hex_value(head) != 0 {
            let j = choose|j: int| 0 <= j < head.len() && #[trigger] head[j] != '0';
            assert(text[j] != '0');
        } else {
            let j = choose|j: int| 0 <= j < tail.len() && #[trigger] tail[j] != '0';
            assert(text[j + 32] != '0');
        }
        if oid_of_text(text) is Some && 0 <= k < 40 {
            let written = oid_text(oid_of_text(text)->0);
            if k < 32 {
                assert(written[k] == hex_digits(hex_value(head), 32)[k]);
                assert(head[k] == text[k]);
            } else {
                assert(written[k] == hex_digits(hex_value(tail), 8)[k - 32]);
                assert(tail[k - 32] == text[k]);
            }
        }
    }
}

/// No two ids are written alike.
pub proof fn law_ids_are_written_apart(one: NonZeroOid, other: NonZeroOid)
    requires
        one != (0u128, 0u32),
        other != (0u128, 0u32),
        oid_text(one) == oid_text(other),
    ensures
        one == other,
{
    law_oid_round_trip(one);
    law_oid_round_trip(other);
}

} // verus!
