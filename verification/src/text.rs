//! Plain text: white space, fields between separators, and decimal numbers.

use vstd::prelude::*;

verus! {

/// `String::push` appends one character to the end of a string.
pub assume_specification[ std::string::String::push ](s: &mut String, c: char)
    ensures
        final(s)@ == old(s)@.push(c),
;

/// The texts of a list of string slices.
pub open spec fn texts(list: Seq<&str>) -> Seq<Seq<char>> {
    Seq::new(list.len(), |i: int| list[i]@)
}

/// The texts of a list of strings.
pub open spec fn strings(list: Seq<String>) -> Seq<Seq<char>> {
    Seq::new(list.len(), |i: int| list[i]@)
}

/// The text of an optional string slice.
pub open spec fn slice_view(text: Option<&str>) -> Option<Seq<char>> {
    match text {
        Some(text) => Some(text@),
        None => None,
    }
}

/// The text of an optional string.
pub open spec fn string_view(text: Option<String>) -> Option<Seq<char>> {
    match text {
        Some(text) => Some(text@),
        None => None,
    }
}

/// Whether two texts are the same.
pub fn same_text(left: &str, right: &str) -> (same: bool)
    ensures
        same == (left@ == right@),
{
    left.to_owned() == right.to_owned()
}

/// A copy of an optional string.
pub fn copy_string(text: &Option<String>) -> (copy: Option<String>)
    ensures
        copy == *text,
{
    match text {
        Some(text) => Some(text.clone()),
        None => None,
    }
}

/// The characters of `text`, in order.
pub fn chars_of(text: &str) -> (chars: Vec<char>)
    ensures
        chars@ == text@,
{
    let mut chars: Vec<char> = Vec::new();
    for c in iter: text.chars()
        invariant
            iter.seq() == text@,
            chars@ == text@.take(iter.index()),
    {
        chars.push(c);
    }
    chars
}

/// The text made of `chars` from `from` up to but not including `to`.
pub fn text_between(chars: &Vec<char>, from: usize, to: usize) -> (text: String)
    requires
        from <= to <= chars@.len(),
    ensures
        text@ == chars@.subrange(from as int, to as int),
{
    let mut text = String::new();
    let mut i: usize = from;
    while i < to
        invariant
            from <= i <= to <= chars@.len(),
            text@ == chars@.subrange(from as int, i as int),
        decreases to - i,
    {
        text.push(chars[i]);
        i += 1;
    }
    text
}

// ---- white space ----

/// The characters that Unicode gives the property `White_Space`.
pub open spec fn white_space(c: char) -> bool {
    ||| '\u{9}' <= c <= '\u{d}'
    ||| c == ' '
    ||| c == '\u{85}'
    ||| c == '\u{a0}'
    ||| c == '\u{1680}'
    ||| '\u{2000}' <= c <= '\u{200a}'
    ||| c == '\u{2028}'
    ||| c == '\u{2029}'
    ||| c == '\u{202f}'
    ||| c == '\u{205f}'
    ||| c == '\u{3000}'
}

/// Whether `c` is white space.
pub fn is_white_space(c: char) -> (result: bool)
    ensures
        result == white_space(c),
{
    ('\u{9}' <= c && c <= '\u{d}') || c == ' ' || c == '\u{85}' || c == '\u{a0}' || c == '\u{1680}'
        || ('\u{2000}' <= c && c <= '\u{200a}') || c == '\u{2028}' || c == '\u{2029}'
        || c == '\u{202f}' || c == '\u{205f}' || c == '\u{3000}'
}

/// `text` without the white space at its start.
pub open spec fn trimmed_start(text: Seq<char>) -> Seq<char>
    decreases text.len(),
{
    if text.len() > 0 && white_space(text[0]) {
        trimmed_start(text.skip(1))
    } else {
        text
    }
}

/// `text` without the white space at its end.
pub open spec fn trimmed_end(text: Seq<char>) -> Seq<char>
    decreases text.len(),
{
    if text.len() > 0 && white_space(text.last()) {
        trimmed_end(text.drop_last())
    } else {
        text
    }
}

/// `text` without the white space at either end.
pub open spec fn trimmed(text: Seq<char>) -> Seq<char> {
    trimmed_end(trimmed_start(text))
}

/// `text` without the white space at either end.
pub fn trim(text: &str) -> (result: String)
    ensures
        result@ == trimmed(text@),
{
    let chars = chars_of(text);
    let mut from: usize = 0;
    assert(text@.skip(0) == text@);
    while from < chars.len() && is_white_space(chars[from])
        invariant
            from <= chars@.len(),
            chars@ == text@,
            trimmed_start(text@) == trimmed_start(text@.skip(from as int)),
        decreases chars@.len() - from,
    {
        assert(text@.skip(from as int).skip(1) == text@.skip(from + 1));
        from += 1;
    }
    let ghost start = text@.skip(from as int);
    assert(trimmed_start(text@) == start);
    let mut to: usize = chars.len();
    assert(chars@.subrange(from as int, to as int) == start);
    while from < to && is_white_space(chars[to - 1])
        invariant
            from <= to <= chars@.len(),
            trimmed_end(start) == trimmed_end(chars@.subrange(from as int, to as int)),
        decreases to,
    {
        assert(chars@.subrange(from as int, to as int).drop_last() == chars@.subrange(
            from as int,
            to - 1,
        ));
        to -= 1;
    }
    text_between(&chars, from, to)
}

/// Trimming a text a second time changes nothing, so what has been trimmed once starts and ends
/// with a character that is not white space, or is empty.
pub proof fn trimmed_twice(text: Seq<char>)
    ensures
        trimmed(trimmed(text)) == trimmed(text),
        trimmed(text).len() > 0 ==> !white_space(trimmed(text)[0]) && !white_space(
            trimmed(text).last(),
        ),
{
    trimmed_start_bare(text);
    let start = trimmed_start(text);
    trimmed_end_bare(start);
    let both = trimmed_end(start);
    if both.len() > 0 {
        assert(both[0] == start[0]);
    }
}

proof fn trimmed_start_bare(text: Seq<char>)
    ensures
        trimmed_start(text).len() > 0 ==> !white_space(trimmed_start(text)[0]),
    decreases text.len(),
{
    if text.len() > 0 && white_space(text[0]) {
        trimmed_start_bare(text.skip(1));
    }
}

proof fn trimmed_end_bare(text: Seq<char>)
    ensures
        trimmed_end(text).len() > 0 ==> !white_space(trimmed_end(text).last()),
        trimmed_end(text).len() > 0 ==> trimmed_end(text)[0] == text[0],
        trimmed_end(text).len() <= text.len(),
    decreases text.len(),
{
    if text.len() > 0 && white_space(text.last()) {
        trimmed_end_bare(text.drop_last());
    }
}

// ---- length ----

/// `text`, cut to its first `most` characters when it has more.
pub open spec fn shortened(text: Seq<char>, most: nat) -> Seq<char> {
    if text.len() <= most {
        text
    } else {
        text.take(most as int)
    }
}

/// `text`, cut to its first `most` characters when it has more.
pub fn truncate(text: &str, most: usize) -> (result: String)
    ensures
        result@ == shortened(text@, most as nat),
{
    let chars = chars_of(text);
    let to: usize = if chars.len() <= most {
        chars.len()
    } else {
        most
    };
    let result = text_between(&chars, 0, to);
    assert(result@ == shortened(text@, most as nat));
    result
}

// ---- fields ----

/// Where the first `mark` stands in `text`, or the length of `text` when none does.
pub open spec fn field_end(text: Seq<char>, mark: char) -> int
    decreases text.len(),
{
    if text.len() == 0 || text[0] == mark {
        0
    } else {
        1 + field_end(text.skip(1), mark)
    }
}

/// What stands on either side of the first `mark`.
pub open spec fn split_first(text: Seq<char>, mark: char) -> Option<(Seq<char>, Seq<char>)> {
    let end = field_end(text, mark);
    if end < text.len() {
        Some((text.take(end), text.skip(end + 1)))
    } else {
        None
    }
}

/// Where the last `mark` stands in `text`, or -1 when none does.
pub open spec fn last_mark(text: Seq<char>, mark: char) -> int
    decreases text.len(),
{
    if text.len() == 0 {
        -1
    } else if text.last() == mark {
        text.len() - 1
    } else {
        last_mark(text.drop_last(), mark)
    }
}

/// What stands on either side of the last `mark`.
pub open spec fn split_last(text: Seq<char>, mark: char) -> Option<(Seq<char>, Seq<char>)> {
    let at = last_mark(text, mark);
    if at >= 0 {
        Some((text.take(at), text.skip(at + 1)))
    } else {
        None
    }
}

/// `field_end` is at the first mark, or at the end of a text without one.
pub proof fn field_end_is_first(text: Seq<char>, mark: char)
    ensures
        0 <= field_end(text, mark) <= text.len(),
        forall|i: int| 0 <= i < field_end(text, mark) ==> text[i] != mark,
        field_end(text, mark) < text.len() ==> text[field_end(text, mark)] == mark,
    decreases text.len(),
{
    if text.len() > 0 && text[0] != mark {
        let rest = text.skip(1);
        field_end_is_first(rest, mark);
        assert forall|i: int| 0 <= i < field_end(text, mark) implies text[i] != mark by {
            if i > 0 {
                assert(rest[i - 1] == text[i]);
            }
        }
    }
}

/// `field_end` is the only place that stands at the first mark.
pub proof fn field_end_unique(text: Seq<char>, mark: char, end: int)
    requires
        0 <= end <= text.len(),
        forall|i: int| 0 <= i < end ==> text[i] != mark,
        end < text.len() ==> text[end] == mark,
    ensures
        field_end(text, mark) == end,
{
    field_end_is_first(text, mark);
}

/// `last_mark` is at the last mark, or before the start of a text without one.
pub proof fn last_mark_is_last(text: Seq<char>, mark: char)
    ensures
        -1 <= last_mark(text, mark) < text.len(),
        forall|i: int| last_mark(text, mark) < i < text.len() ==> text[i] != mark,
        last_mark(text, mark) >= 0 ==> text[last_mark(text, mark)] == mark,
    decreases text.len(),
{
    if text.len() > 0 && text.last() != mark {
        last_mark_is_last(text.drop_last(), mark);
        assert forall|i: int| last_mark(text, mark) < i < text.len() implies text[i] != mark by {
            if i < text.len() - 1 {
                assert(text.drop_last()[i] == text[i]);
            }
        }
    }
}

/// What stands on either side of the first `mark`, or `None` when there is no `mark`.
pub fn split_once(text: &str, mark: char) -> (result: Option<(String, String)>)
    ensures
        match result {
            Some((before, after)) => split_first(text@, mark) == Some((before@, after@)),
            None => split_first(text@, mark) is None,
        },
{
    let chars = chars_of(text);
    let mut end: usize = 0;
    while end < chars.len() && chars[end] != mark
        invariant
            end <= chars@.len(),
            forall|i: int| 0 <= i < end ==> chars@[i] != mark,
        decreases chars@.len() - end,
    {
        end += 1;
    }
    proof {
        field_end_unique(text@, mark, end as int);
    }
    if end < chars.len() {
        let before = text_between(&chars, 0, end);
        let after = text_between(&chars, end + 1, chars.len());
        assert(before@ == text@.take(end as int));
        assert(after@ == text@.skip(end + 1));
        Some((before, after))
    } else {
        None
    }
}

/// What stands on either side of the last `mark`, or `None` when there is no `mark`.
pub fn rsplit_once(text: &str, mark: char) -> (result: Option<(String, String)>)
    ensures
        match result {
            Some((before, after)) => split_last(text@, mark) == Some((before@, after@)),
            None => split_last(text@, mark) is None,
        },
{
    let chars = chars_of(text);
    let mut start: usize = chars.len();
    while start > 0 && chars[start - 1] != mark
        invariant
            start <= chars@.len(),
            forall|i: int| start <= i < chars@.len() ==> chars@[i] != mark,
        decreases start,
    {
        start -= 1;
    }
    proof {
        last_mark_is_last(text@, mark);
        assert(last_mark(text@, mark) == start - 1);
    }
    if start > 0 {
        let before = text_between(&chars, 0, start - 1);
        let after = text_between(&chars, start, chars.len());
        assert(before@ == text@.take(start - 1));
        assert(after@ == text@.skip(start as int));
        Some((before, after))
    } else {
        None
    }
}

/// A field without the mark, followed by the mark, is what stands before the first mark.
pub proof fn split_first_of_joined(before: Seq<char>, mark: char, after: Seq<char>)
    requires
        !before.contains(mark),
    ensures
        split_first(before.push(mark) + after, mark) == Some((before, after)),
{
    let text = before.push(mark) + after;
    assert forall|i: int| 0 <= i < before.len() implies text[i] != mark by {
        assert(text[i] == before[i]);
    }
    field_end_unique(text, mark, before.len() as int);
    assert(text.take(before.len() as int) == before);
    assert(text.skip(before.len() as int + 1) == after);
}

/// A field without the mark, behind the mark, is what stands after the last mark.
pub proof fn split_last_of_joined(before: Seq<char>, mark: char, after: Seq<char>)
    requires
        !after.contains(mark),
    ensures
        split_last(before.push(mark) + after, mark) == Some((before, after)),
{
    let text = before.push(mark) + after;
    last_mark_is_last(text, mark);
    assert(text[before.len() as int] == mark);
    assert forall|i: int| before.len() < i < text.len() implies text[i] != mark by {
        assert(text[i] == after[i - before.len() - 1]);
    }
    assert(last_mark(text, mark) == before.len());
    assert(text.take(before.len() as int) == before);
    assert(text.skip(before.len() as int + 1) == after);
}

/// `text` with every `from` turned into `to`.
pub open spec fn replaced(text: Seq<char>, from: char, to: char) -> Seq<char> {
    Seq::new(
        text.len(),
        |i: int|
            if text[i] == from {
                to
            } else {
                text[i]
            },
    )
}

/// `text` with every `from` turned into `to`.
pub fn replace_char(text: &str, from: char, to: char) -> (result: String)
    ensures
        result@ == replaced(text@, from, to),
{
    let mut result = String::new();
    for c in iter: text.chars()
        invariant
            iter.seq() == text@,
            result@ == replaced(text@.take(iter.index()), from, to),
    {
        if c == from {
            result.push(to);
        } else {
            result.push(c);
        }
        assert(result@ == replaced(text@.take(iter.index() + 1), from, to));
    }
    assert(text@.take(text@.len() as int) == text@);
    result
}

// ---- decimal numbers ----

/// Whether `c` is a decimal digit.
pub open spec fn is_digit(c: char) -> bool {
    '0' <= c <= '9'
}

/// The number that a digit stands for.
pub open spec fn digit_value(c: char) -> nat {
    (c as nat - '0' as nat) as nat
}

/// The digit that stands for a number below ten.
pub open spec fn digit(n: nat) -> char {
    ('0' as nat + n) as char
}

/// Whether every character of `text` is a decimal digit.
pub open spec fn all_digits(text: Seq<char>) -> bool {
    forall|i: int| 0 <= i < text.len() ==> is_digit(#[trigger] text[i])
}

/// The number that a row of digits stands for.
pub open spec fn digits_value(text: Seq<char>) -> nat
    decreases text.len(),
{
    if text.len() == 0 {
        0
    } else {
        digits_value(text.drop_last()) * 10 + digit_value(text.last())
    }
}

/// The decimal text of `n`, without leading zeros.
pub open spec fn decimal(n: nat) -> Seq<char>
    decreases n,
{
    if n < 10 {
        seq![digit(n)]
    } else {
        decimal(n / 10).push(digit(n % 10))
    }
}

/// The decimal text of `n`, behind a minus sign when it is negative.
pub open spec fn signed_decimal(n: int) -> Seq<char> {
    if n < 0 {
        seq!['-'] + decimal((-n) as nat)
    } else {
        decimal(n as nat)
    }
}

/// The number that `text` names, when it names one no larger than `most`: an optional plus sign
/// and then digits, at least one, and nothing else.
pub open spec fn parsed(text: Seq<char>, most: nat) -> Option<nat> {
    let digits = if text.len() > 0 && text[0] == '+' {
        text.skip(1)
    } else {
        text
    };
    if digits.len() > 0 && all_digits(digits) && digits_value(digits) <= most {
        Some(digits_value(digits))
    } else {
        None
    }
}

/// The decimal text of `n`.
pub fn decimal_text(n: u64) -> (text: String)
    ensures
        text@ == decimal(n as nat),
    decreases n,
{
    let low: u8 = (n % 10) as u8;
    let c: char = (48u8 + low) as char;
    assert(c == digit((n % 10) as nat));
    let mut text = if n < 10 {
        String::new()
    } else {
        decimal_text(n / 10)
    };
    text.push(c);
    assert(text@ == decimal(n as nat));
    text
}

/// The decimal text of `n`, behind a minus sign when it is negative.
pub fn signed_decimal_text(n: i64) -> (text: String)
    requires
        n > i64::MIN,
    ensures
        text@ == signed_decimal(n as int),
{
    if n < 0 {
        let mut text = String::new();
        text.push('-');
        let size = decimal_text((-n) as u64);
        text.append(size.as_str());
        assert(text@ == signed_decimal(n as int));
        text
    } else {
        decimal_text(n as u64)
    }
}

/// A prefix of a row of digits stands for no more than the whole row.
proof fn digits_value_grows(text: Seq<char>, end: int)
    requires
        0 <= end <= text.len(),
    ensures
        digits_value(text.take(end)) <= digits_value(text),
    decreases text.len() - end,
{
    if end < text.len() {
        digits_value_grows(text, end + 1);
        assert(text.take(end + 1).drop_last() == text.take(end));
    } else {
        assert(text.take(end) == text);
    }
}

/// The number that `text` names, when it names one no larger than `most`.
pub fn parse_number(text: &str, most: u64) -> (result: Option<u64>)
    ensures
        match result {
            Some(n) => parsed(text@, most as nat) == Some(n as nat),
            None => parsed(text@, most as nat) is None,
        },
{
    let chars = chars_of(text);
    let start: usize = if chars.len() > 0 && chars[0] == '+' {
        1
    } else {
        0
    };
    let ghost digits = if text@.len() > 0 && text@[0] == '+' {
        text@.skip(1)
    } else {
        text@
    };
    assert(digits == chars@.skip(start as int));
    if start == chars.len() {
        return None;
    }
    let mut i: usize = start;
    let mut value: u64 = 0;
    while i < chars.len()
        invariant
            start <= i <= chars@.len(),
            start < chars@.len(),
            value <= most,
            digits == chars@.skip(start as int),
            forall|k: int| 0 <= k < i - start ==> is_digit(#[trigger] digits[k]),
            value == digits_value(digits.take(i - start)),
            parsed(text@, most as nat) == if all_digits(digits) && digits_value(digits) <= most {
                Some(digits_value(digits))
            } else {
                None
            },
        decreases chars@.len() - i,
    {
        let c = chars[i];
        assert(digits[i - start] == c);
        if c < '0' || c > '9' {
            assert(!all_digits(digits));
            return None;
        }
        let low: u64 = (c as u32 - '0' as u32) as u64;
        proof {
            assert(digits.take(i + 1 - start).drop_last() == digits.take(i - start));
            assert(digits_value(digits.take(i + 1 - start)) == value * 10 + low);
            digits_value_grows(digits, i + 1 - start);
        }
        if value > most / 10 || low > most - value * 10 {
            return None;
        }
        value = value * 10 + low;
        i += 1;
    }
    assert(digits.take(i - start) == digits);
    Some(value)
}

/// A decimal text is a row of digits that stands for its number, with no zero in front of
/// another digit.
pub proof fn decimal_is_digits(n: nat)
    ensures
        decimal(n).len() > 0,
        all_digits(decimal(n)),
        digits_value(decimal(n)) == n,
        n > 0 ==> decimal(n)[0] != '0',
        n == 0 ==> decimal(n) == seq!['0'],
    decreases n,
{
    if n < 10 {
        let text = decimal(n);
        assert(text.drop_last() == Seq::<char>::empty());
        assert(digits_value(Seq::<char>::empty()) == 0);
    } else {
        let text = decimal(n);
        decimal_is_digits(n / 10);
        assert(text.drop_last() == decimal(n / 10));
        assert forall|i: int| 0 <= i < text.len() implies is_digit(#[trigger] text[i]) by {
            if i < text.len() - 1 {
                assert(text[i] == decimal(n / 10)[i]);
            }
        }
        assert(text[0] == decimal(n / 10)[0]);
    }
}

/// Reading the decimal text of a number gives the number back.
pub proof fn decimal_parses(n: nat, most: nat)
    requires
        n <= most,
    ensures
        parsed(decimal(n), most) == Some(n),
{
    decimal_is_digits(n);
    assert(is_digit(decimal(n)[0]));
}

/// A decimal text holds no character that is not a digit.
pub proof fn decimal_lacks(n: nat, c: char)
    requires
        !is_digit(c),
    ensures
        !decimal(n).contains(c),
{
    decimal_is_digits(n);
    if decimal(n).contains(c) {
        let i = choose|i: int| 0 <= i < decimal(n).len() && decimal(n)[i] == c;
        assert(is_digit(decimal(n)[i]));
    }
}

/// A text that starts and ends with a character that is not white space is its own trimming.
pub proof fn trimmed_of_bare(text: Seq<char>)
    requires
        text.len() > 0,
        !white_space(text[0]),
        !white_space(text.last()),
    ensures
        trimmed(text) == text,
{
}

// ---- laws ----

/// Whether a text is nothing but white space.
pub open spec fn all_white(text: Seq<char>) -> bool {
    forall|i: int| 0 <= i < text.len() ==> white_space(#[trigger] text[i])
}

/// Trimming takes all white space from around a text, and nothing of the text.
pub proof fn white_space_around_is_trimmed(before: Seq<char>, text: Seq<char>, after: Seq<char>)
    requires
        all_white(before),
        all_white(after),
        text.len() > 0 ==> !white_space(text[0]) && !white_space(text.last()),
    ensures
        trimmed(before + text + after) == text,
{
    if text.len() > 0 {
        assert(before + text + after == before + (text + after));
        start_is_trimmed(before, text + after);
        assert((text + after)[0] == text[0]);
        end_is_trimmed(text, after);
    } else {
        let all = before + text + after;
        assert(all_white(all)) by {
            assert forall|i: int| 0 <= i < all.len() implies white_space(#[trigger] all[i]) by {
                if i < before.len() {
                    assert(all[i] == before[i]);
                } else {
                    assert(all[i] == after[i - before.len()]);
                }
            }
        }
        assert(all + Seq::<char>::empty() == all);
        start_is_trimmed(all, Seq::empty());
        assert(text == Seq::<char>::empty());
    }
}

proof fn start_is_trimmed(before: Seq<char>, text: Seq<char>)
    requires
        all_white(before),
        text.len() > 0 ==> !white_space(text[0]),
    ensures
        trimmed_start(before + text) == text,
    decreases before.len(),
{
    if before.len() > 0 {
        let rest = before.skip(1);
        assert forall|i: int| 0 <= i < rest.len() implies white_space(#[trigger] rest[i]) by {
            assert(rest[i] == before[i + 1]);
        }
        start_is_trimmed(rest, text);
        assert((before + text).skip(1) == rest + text);
        assert((before + text)[0] == before[0]);
    } else {
        assert(before + text == text);
    }
}

proof fn end_is_trimmed(text: Seq<char>, after: Seq<char>)
    requires
        all_white(after),
        text.len() > 0 ==> !white_space(text.last()),
    ensures
        trimmed_end(text + after) == text,
    decreases after.len(),
{
    if after.len() > 0 {
        let rest = after.drop_last();
        assert forall|i: int| 0 <= i < rest.len() implies white_space(#[trigger] rest[i]) by {
            assert(rest[i] == after[i]);
        }
        end_is_trimmed(text, rest);
        assert((text + after).drop_last() == text + rest);
        assert((text + after).last() == after[after.len() - 1]);
    } else {
        assert(text + after == text);
    }
}

/// A text without the mark is not split.
pub proof fn text_without_the_mark_is_whole(text: Seq<char>, mark: char)
    requires
        !text.contains(mark),
    ensures
        split_first(text, mark) is None,
        split_last(text, mark) is None,
{
    field_end_is_first(text, mark);
    last_mark_is_last(text, mark);
    if field_end(text, mark) < text.len() {
        assert(text.contains(text[field_end(text, mark)]));
    }
    if last_mark(text, mark) >= 0 {
        assert(text.contains(text[last_mark(text, mark)]));
    }
}

/// What stands on either side of the first or the last mark makes up the text again, and holds no
/// mark on the side where the mark was looked for from.
pub proof fn split_text_joins_again(text: Seq<char>, mark: char)
    ensures
        split_first(text, mark) matches Some((before, after)) ==> before.push(mark) + after == text
            && !before.contains(mark),
        split_last(text, mark) matches Some((before, after)) ==> before.push(mark) + after == text
            && !after.contains(mark),
{
    field_end_is_first(text, mark);
    last_mark_is_last(text, mark);
    if let Some((before, after)) = split_first(text, mark) {
        assert(before.push(mark) + after == text);
        assert forall|i: int| 0 <= i < before.len() implies before[i] != mark by {
            assert(before[i] == text[i]);
        }
    }
    if let Some((before, after)) = split_last(text, mark) {
        let at = last_mark(text, mark);
        assert(before.push(mark) + after == text);
        assert forall|i: int| 0 <= i < after.len() implies after[i] != mark by {
            assert(after[i] == text[at + 1 + i]);
        }
    }
}

/// A number is read only from digits, behind a plus sign at most, and only up to the largest one
/// asked for.
pub proof fn only_numbers_are_read(text: Seq<char>, n: nat, most: nat)
    ensures
        parsed(text, most) matches Some(n) ==> n <= most && text.len() > 0 && forall|i: int|
            0 <= i < text.len() ==> is_digit(#[trigger] text[i]) || i == 0 && text[i] == '+',
        n > most ==> parsed(decimal(n), most) is None,
        n <= most ==> parsed(seq!['+'] + decimal(n), most) == Some(n),
        parsed(Seq::empty(), most) is None,
        parsed(seq!['+'], most) is None,
{
    if let Some(_) = parsed(text, most) {
        if text[0] == '+' {
            assert forall|i: int| 0 < i < text.len() implies is_digit(#[trigger] text[i]) by {
                assert(text.skip(1)[i - 1] == text[i]);
            }
        }
    }
    decimal_is_digits(n);
    assert(is_digit(decimal(n)[0]));
    assert((seq!['+'] + decimal(n)).skip(1) == decimal(n));
    assert(seq!['+'].skip(1) == Seq::<char>::empty());
}

/// A text is cut only where it is too long, and then to as many of its first characters as fit.
pub proof fn cut_text_is_how_it_starts(text: Seq<char>, most: nat)
    ensures
        shortened(text, most).is_prefix_of(text),
        shortened(text, most).len() <= most,
        shortened(text, most).len() == most || shortened(text, most) == text,
{
    let kept = shortened(text, most);
    assert(kept == text.take(kept.len() as int));
}

} // verus!
