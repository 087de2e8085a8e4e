//! Searching, cutting and writing text, stated over its characters.

use vstd::prelude::*;

verus! {

/// The characters of each text.
pub open spec fn texts(strings: Seq<String>) -> Seq<Seq<char>> {
    Seq::new(strings.len(), |i: int| strings[i]@)
}

/// Takes a text apart into its characters.
pub fn characters(text: &str) -> (chars: Vec<char>)
    ensures
        chars@ == text@,
{
    let mut chars: Vec<char> = Vec::new();
    for c in iter: text.chars()
        invariant
            iter.seq() == text@,
            chars@ == text@.take(iter.index() as int),
    {
        chars.push(c);
    }
    assert(text@.take(text@.len() as int) =~= text@);
    chars
}

/// Whether `pattern` stands in `text` from index `i` on.
pub open spec fn occurs_at(text: Seq<char>, pattern: Seq<char>, i: int) -> bool {
    0 <= i && i + pattern.len() <= text.len() && text.subrange(i, i + pattern.len()) == pattern
}

/// Whether `i` is the first index at which `pattern` stands in `text`.
pub open spec fn occurs_first_at(text: Seq<char>, pattern: Seq<char>, i: int) -> bool {
    occurs_at(text, pattern, i) && forall|j: int| #[trigger] occurs_at(text, pattern, j) ==> i <= j
}

/// Whether `pattern` stands anywhere in `text`.
pub open spec fn contains_text(text: Seq<char>, pattern: Seq<char>) -> bool {
    exists|i: int| occurs_at(text, pattern, i)
}

/// The first index at which `pattern` stands in `text`.
pub open spec fn first_occurrence(text: Seq<char>, pattern: Seq<char>) -> Option<int> {
    if contains_text(text, pattern) {
        Some(choose|i: int| occurs_first_at(text, pattern, i))
    } else {
        None
    }
}

/// An index that is first is the one that [`first_occurrence`] gives.
pub proof fn lemma_first_occurrence(text: Seq<char>, pattern: Seq<char>, i: int)
    requires
        occurs_first_at(text, pattern, i),
    ensures
        first_occurrence(text, pattern) == Some(i),
{
    let found = choose|i: int| occurs_first_at(text, pattern, i);
    assert(occurs_first_at(text, pattern, found));
    assert(occurs_at(text, pattern, i));
}

/// A pattern that stands somewhere in a text stands somewhere first.
pub proof fn lemma_first_occurrence_exists(text: Seq<char>, pattern: Seq<char>, i: int)
    requires
        occurs_at(text, pattern, i),
    ensures
        exists|first: int| occurs_first_at(text, pattern, first),
    decreases i,
{
    if exists|j: int| #[trigger] occurs_at(text, pattern, j) && j < i {
        let j = choose|j: int| #[trigger] occurs_at(text, pattern, j) && j < i;
        lemma_first_occurrence_exists(text, pattern, j);
    } else {
        assert(occurs_first_at(text, pattern, i));
    }
}

/// Whether `pattern` stands in `text` from `start` on.
fn matches_at(text: &Vec<char>, pattern: &Vec<char>, start: usize) -> (found: bool)
    requires
        start + pattern@.len() <= text@.len(),
    ensures
        found == occurs_at(text@, pattern@, start as int),
{
    let length: usize = text.len();
    let mut k: usize = 0;
    while k < pattern.len()
        invariant
            length == text@.len(),
            0 <= k <= pattern@.len(),
            start + pattern@.len() <= text@.len(),
            forall|j: int| 0 <= j < k ==> text@[start + j] == #[trigger] pattern@[j],
        decreases pattern@.len() - k,
    {
        if text[start + k] != pattern[k] {
            assert(text@.subrange(start as int, start + pattern@.len())[k as int] != pattern@[k as int]);
            return false;
        }
        k += 1;
    }
    assert(text@.subrange(start as int, start + pattern@.len()) =~= pattern@);
    true
}

/// Finds the first index at which `pattern` stands in `text`, counted in characters.
pub fn find_text(text: &str, pattern: &str) -> (found: Option<usize>)
    ensures
        match found {
            Some(i) => occurs_first_at(text@, pattern@, i as int) && first_occurrence(
                text@,
                pattern@,
            ) == Some(i as int),
            None => first_occurrence(text@, pattern@) is None,
        },
{
    let text_chars = characters(text);
    let pattern_chars = characters(pattern);
    if pattern_chars.len() > text_chars.len() {
        assert(forall|j: int| !occurs_at(text@, pattern@, j));
        return None;
    }
    let last: usize = text_chars.len() - pattern_chars.len();
    let mut i: usize = 0;
    while i <= last
        invariant
            text_chars@ == text@,
            pattern_chars@ == pattern@,
            last == text@.len() - pattern@.len(),
            0 <= i <= last + 1,
            forall|j: int| #[trigger] occurs_at(text@, pattern@, j) ==> i <= j,
        decreases last + 1 - i,
    {
        if matches_at(&text_chars, &pattern_chars, i) {
            proof {
                lemma_first_occurrence(text@, pattern@, i as int);
            }
            return Some(i);
        }
        if i == last {
            assert(forall|j: int| !occurs_at(text@, pattern@, j));
            return None;
        }
        i += 1;
    }
    None
}

/// Whether `text` begins with `prefix`.
pub fn starts_with(text: &str, prefix: &str) -> (starts: bool)
    ensures
        starts == prefix@.is_prefix_of(text@),
{
    let text_chars = characters(text);
    let prefix_chars = characters(prefix);
    if prefix_chars.len() > text_chars.len() {
        return false;
    }
    matches_at(&text_chars, &prefix_chars, 0)
}

/// Whether `i` is the last index at which `mark` stands in `text`.
pub open spec fn stands_last_at(text: Seq<char>, mark: char, i: int) -> bool {
    0 <= i < text.len() && text[i] == mark && forall|j: int|
        i < j < text.len() ==> text[j] != mark
}

/// What follows the last `mark` in `text`.
pub open spec fn after_last(text: Seq<char>, mark: char) -> Option<Seq<char>> {
    if exists|i: int| stands_last_at(text, mark, i) {
        let last = choose|i: int| stands_last_at(text, mark, i);
        Some(text.skip(last + 1))
    } else {
        None
    }
}

/// Cuts a text behind the last `mark` in it.
pub fn cut_after_last<'a>(text: &'a str, mark: char) -> (rest: Option<&'a str>)
    ensures
        match rest {
            Some(rest) => after_last(text@, mark) == Some(rest@),
            None => after_last(text@, mark) is None,
        },
{
    let chars = characters(text);
    let mut i: usize = chars.len();
    while i > 0
        invariant
            chars@ == text@,
            i <= text@.len(),
            forall|j: int| i <= j < text@.len() ==> text@[j] != mark,
        decreases i,
    {
        if chars[i - 1] == mark {
            proof {
                assert(stands_last_at(text@, mark, i - 1));
                let last = choose|k: int| stands_last_at(text@, mark, k);
                assert(last == i - 1);
                assert(text@.skip(i as int) =~= text@.subrange(i as int, text@.len() as int));
            }
            return Some(text.substring_char(i, chars.len()));
        }
        i -= 1;
    }
    None
}

/// Whether a character is one of the ten decimal digits.
pub open spec fn is_digit(c: char) -> bool {
    '0' <= c <= '9'
}

/// Whether a text is made of digits alone.
pub open spec fn all_digits(text: Seq<char>) -> bool {
    forall|i: int| 0 <= i < text.len() ==> is_digit(#[trigger] text[i])
}

/// A text without the plus sign that it may begin with.
pub open spec fn without_plus(text: Seq<char>) -> Seq<char> {
    if text.len() > 0 && text[0] == '+' {
        text.skip(1)
    } else {
        text
    }
}

/// The number that a digit stands for.
pub open spec fn digit_value(c: char) -> int {
    c as int - '0' as int
}

/// The number that digits stand for, the most significant first.
pub open spec fn digits_value(digits: Seq<char>) -> int
    decreases digits.len(),
{
    if digits.len() == 0 {
        0
    } else {
        digits_value(digits.drop_last()) * 10 + digit_value(digits.last())
    }
}

/// The number that a text writes in decimal: an optional plus sign, then one digit or more.
pub open spec fn decimal_value(text: Seq<char>) -> Option<int> {
    let digits = without_plus(text);
    if digits.len() > 0 && all_digits(digits) {
        Some(digits_value(digits))
    } else {
        None
    }
}

/// The number that a text writes in decimal, where a `usize` can hold it.
pub open spec fn parsed_usize(text: Seq<char>) -> Option<usize> {
    match decimal_value(text) {
        Some(value) => if value <= usize::MAX {
            Some(value as usize)
        } else {
            None
        },
        None => None,
    }
}

/// Digits stand for no negative number, and for no less than those they begin with.
pub proof fn lemma_digits_grow(digits: Seq<char>, n: int)
    requires
        0 <= n <= digits.len(),
        all_digits(digits),
    ensures
        0 <= digits_value(digits.take(n)) <= digits_value(digits),
    decreases digits.len(),
{
    if digits.len() > 0 {
        let front = digits.drop_last();
        assert(forall|i: int| 0 <= i < front.len() ==> front[i] == digits[i]);
        assert(is_digit(digits[digits.len() - 1]));
        if n < digits.len() {
            assert(digits.take(n) =~= front.take(n));
            lemma_digits_grow(front, n);
        } else {
            assert(digits.take(n) =~= digits);
            lemma_digits_grow(front, front.len() as int);
            assert(front.take(front.len() as int) =~= front);
        }
    } else {
        assert(digits.take(n) =~= digits);
    }
}

/// Reads a decimal number, if the text is one and a `usize` can hold it.
pub fn parse_usize(text: &str) -> (number: Option<usize>)
    ensures
        number == parsed_usize(text@),
{
    let chars = characters(text);
    let start: usize = if chars.len() > 0 && chars[0] == '+' {
        1
    } else {
        0
    };
    let ghost digits = without_plus(text@);
    assert(digits =~= text@.skip(start as int));
    if chars.len() == start {
        return None;
    }
    let mut value: usize = 0;
    let mut i: usize = start;
    assert(digits.take(0) =~= Seq::<char>::empty());
    while i < chars.len()
        invariant
            chars@ == text@,
            start <= i <= text@.len(),
            start < text@.len(),
            digits == text@.skip(start as int),
            digits == without_plus(text@),
            forall|j: int| 0 <= j < i - start ==> is_digit(#[trigger] digits[j]),
            value == digits_value(digits.take(i - start)),
        decreases text@.len() - i,
    {
        let c = chars[i];
        assert(digits[i - start] == c);
        if c < '0' || c > '9' {
            assert(!is_digit(digits[i - start]));
            return None;
        }
        let digit: usize = (c as u32 - '0' as u32) as usize;
        let ghost longer = digits.take(i + 1 - start);
        proof {
            assert(longer.drop_last() =~= digits.take(i - start));
            assert(longer.last() == c);
            assert(digits_value(longer) == value * 10 + digit);
            if decimal_value(text@) is Some {
                lemma_digits_grow(digits, i + 1 - start);
            }
        }
        let shifted = match value.checked_mul(10) {
            Some(shifted) => shifted,
            None => {
                return None;
            },
        };
        value = match shifted.checked_add(digit) {
            Some(sum) => sum,
            None => {
                return None;
            },
        };
        i += 1;
    }
    assert(digits.take(text@.len() - start) =~= digits);
    Some(value)
}

/// The digit that stands for a number below ten.
pub open spec fn digit_char(digit: int) -> char {
    ('0' as int + digit) as char
}

/// A number in decimal, without leading zeroes.
pub open spec fn decimal(number: int) -> Seq<char>
    decreases number,
{
    if number < 10 {
        seq![digit_char(number)]
    } else {
        decimal(number / 10).push(digit_char(number % 10))
    }
}

/// The digit that stands for a number below ten, as a text.
fn digit_text(digit: usize) -> (text: &'static str)
    requires
        digit < 10,
    ensures
        text@ == seq![digit_char(digit as int)],
{
    proof {
        reveal_strlit("0");
        reveal_strlit("1");
        reveal_strlit("2");
        reveal_strlit("3");
        reveal_strlit("4");
        reveal_strlit("5");
        reveal_strlit("6");
        reveal_strlit("7");
        reveal_strlit("8");
        reveal_strlit("9");
    }
    match digit {
        0 => "0",
        1 => "1",
        2 => "2",
        3 => "3",
        4 => "4",
        5 => "5",
        6 => "6",
        7 => "7",
        8 => "8",
        _ => "9",
    }
}

/// Writes a number in decimal.
pub fn write_decimal(number: usize) -> (text: String)
    ensures
        text@ == decimal(number as int),
    decreases number,
{
    if number < 10 {
        digit_text(number).to_owned()
    } else {
        let mut text = write_decimal(number / 10);
        text.append(digit_text(number % 10));
        assert(text@ =~= decimal(number as int));
        text
    }
}

/// Digits alone make up a number in decimal, and they stand for that number.
pub proof fn lemma_decimal_digits(number: int)
    requires
        0 <= number,
    ensures
        decimal(number).len() > 0,
        all_digits(decimal(number)),
        digits_value(decimal(number)) == number,
    decreases number,
{
    if number < 10 {
        assert(decimal(number).drop_last() =~= Seq::<char>::empty());
        assert(digits_value(decimal(number).drop_last()) == 0);
    } else {
        lemma_decimal_digits(number / 10);
        assert(decimal(number).drop_last() =~= decimal(number / 10));
        assert(forall|i: int|
            0 <= i < decimal(number / 10).len() ==> decimal(number)[i] == decimal(number / 10)[i]);
    }
}

/// A number that was written in decimal is read back as that number.
pub proof fn law_decimal_round_trip(number: usize)
    ensures
        parsed_usize(decimal(number as int)) == Some(number),
{
    lemma_decimal_digits(number as int);
    assert(is_digit(decimal(number as int)[0]));
}

/// Whether a character is white space: whether it has the Unicode property `White_Space`.
pub open spec fn is_white_space(c: char) -> bool {
    ||| '\u{9}' <= c <= '\u{d}'
    ||| c == '\u{20}'
    ||| c == '\u{85}'
    ||| c == '\u{a0}'
    ||| c == '\u{1680}'
    ||| '\u{2000}' <= c <= '\u{200a}'
    ||| c == '\u{2028}'
    ||| c == '\u{2029}'
    ||| c == '\u{202f}'
    ||| c == '\u{205f}'
    ||| c == '\u{3000}'
}

/// Tells white space from other characters.
pub fn white_space(c: char) -> (is_white: bool)
    ensures
        is_white == is_white_space(c),
{
    ('\u{9}' <= c && c <= '\u{d}') || c == '\u{20}' || c == '\u{85}' || c == '\u{a0}' || c
        == '\u{1680}' || ('\u{2000}' <= c && c <= '\u{200a}') || c == '\u{2028}' || c
        == '\u{2029}' || c == '\u{202f}' || c == '\u{205f}' || c == '\u{3000}'
}

/// A text without the white space that it begins with.
pub open spec fn trimmed_start(text: Seq<char>) -> Seq<char>
    decreases text.len(),
{
    if text.len() > 0 && is_white_space(text.first()) {
        trimmed_start(text.drop_first())
    } else {
        text
    }
}

/// A text without the white space that it ends with.
pub open spec fn trimmed_end(text: Seq<char>) -> Seq<char>
    decreases text.len(),
{
    if text.len() > 0 && is_white_space(text.last()) {
        trimmed_end(text.drop_last())
    } else {
        text
    }
}

/// A text without the white space on both sides of it.
pub open spec fn trimmed(text: Seq<char>) -> Seq<char> {
    trimmed_end(trimmed_start(text))
}

/// Cuts the white space off both sides of a text.
pub fn trim<'a>(text: &'a str) -> (rest: &'a str)
    ensures
        rest@ == trimmed(text@),
{
    let chars = characters(text);
    let mut start: usize = 0;
    assert(text@.skip(0) =~= text@);
    while start < chars.len() && white_space(chars[start])
        invariant
            chars@ == text@,
            start <= text@.len(),
            trimmed_start(text@) == trimmed_start(text@.skip(start as int)),
        decreases text@.len() - start,
    {
        assert(text@.skip(start as int).drop_first() =~= text@.skip(start + 1));
        start += 1;
    }
    let mut end: usize = chars.len();
    assert(trimmed_start(text@) == text@.skip(start as int));
    assert(text@.subrange(start as int, end as int) =~= text@.skip(start as int));
    while end > start && white_space(chars[end - 1])
        invariant
            chars@ == text@,
            start <= end <= text@.len(),
            trimmed(text@) == trimmed_end(text@.subrange(start as int, end as int)),
        decreases end,
    {
        assert(text@.subrange(start as int, end as int).drop_last() =~= text@.subrange(
            start as int,
            end - 1,
        ));
        end -= 1;
    }
    text.substring_char(start, end)
}

/// Texts with a separator between each two that follow each other.
pub open spec fn joined(parts: Seq<Seq<char>>, separator: Seq<char>) -> Seq<char>
    decreases parts.len(),
{
    if parts.len() == 0 {
        Seq::empty()
    } else if parts.len() == 1 {
        parts[0]
    } else {
        joined(parts.drop_last(), separator) + separator + parts.last()
    }
}

/// Joins texts, with a separator between each two that follow each other.
pub fn join(parts: &Vec<String>, separator: &str) -> (text: String)
    ensures
        text@ == joined(texts(parts@), separator@),
{
    let mut text = String::new();
    let mut i: usize = 0;
    assert(texts(parts@).take(0) =~= Seq::<Seq<char>>::empty());
    while i < parts.len()
        invariant
            i <= parts@.len(),
            text@ == joined(texts(parts@).take(i as int), separator@),
        decreases parts@.len() - i,
    {
        let ghost longer = texts(parts@).take(i + 1);
        assert(longer.drop_last() =~= texts(parts@).take(i as int));
        if i > 0 {
            text.append(separator);
        }
        text.append(parts[i].as_str());
        assert(text@ =~= joined(longer, separator@));
        i += 1;
    }
    assert(texts(parts@).take(i as int) =~= texts(parts@));
    text
}

/// Puts one text behind another.
pub fn concat(front: &str, back: &str) -> (text: String)
    ensures
        text@ == front@ + back@,
{
    let mut text = front.to_owned();
    text.append(back);
    text
}

} // verus!
