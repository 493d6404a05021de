//! Small text functions that the extraction rests on: reading a number,
//! cutting a text at a dash, trimming, searching and comparing without case.

use vstd::prelude::*;

verus! {

/// The characters of a text, one by one.
pub fn chars_of(text: &str) -> (chars: Vec<char>)
    ensures
        chars@ == text@,
{
    let length = text.unicode_len();
    let mut chars: Vec<char> = Vec::new();
    let mut at: usize = 0;
    while at < length
        invariant
            length == text@.len(),
            at <= length,
            chars@ == text@.take(at as int),
        decreases length - at,
    {
        chars.push(text.get_char(at));
        assert(text@.take(at as int + 1) == text@.take(at as int).push(text@[at as int]));
        at = at + 1;
    }
    assert(text@.take(length as int) == text@);
    chars
}

/// Whether a character is a decimal digit.
pub open spec fn is_digit(c: char) -> bool {
    '0' <= c && c <= '9'
}

/// The number that a decimal digit stands for.
pub open spec fn digit_value(c: char) -> int {
    c as int - '0' as int
}

/// The number that a row of decimal digits stands for.
pub open spec fn digits_value(digits: Seq<char>) -> int
    decreases digits.len(),
{
    if digits.len() == 0 {
        0
    } else {
        digits_value(digits.drop_last()) * 10 + digit_value(digits.last())
    }
}

/// Whether every character is a decimal digit.
pub open spec fn all_digits(digits: Seq<char>) -> bool {
    forall|i: int| 0 <= i < digits.len() ==> is_digit(#[trigger] digits[i])
}

/// The text without one leading plus sign.
pub open spec fn without_plus(text: Seq<char>) -> Seq<char> {
    if text.len() > 0 && text[0] == '+' {
        text.drop_first()
    } else {
        text
    }
}

/// The small number that a text spells: an optional plus sign, then one or
/// more decimal digits whose value is at most 255. Anything else spells none.
pub open spec fn decimal_u8(text: Seq<char>) -> Option<u8> {
    let digits = without_plus(text);
    if digits.len() > 0 && all_digits(digits) && digits_value(digits) <= 255 {
        Some(digits_value(digits) as u8)
    } else {
        None
    }
}

/// A row of digits is worth at least as much as any of its prefixes.
pub proof fn lemma_digits_value_grows(digits: Seq<char>, n: int)
    requires
        all_digits(digits),
        0 <= n <= digits.len(),
    ensures
        0 <= digits_value(digits.take(n)) <= digits_value(digits),
    decreases digits.len(),
{
    if digits.len() == 0 {
        assert(digits.take(n) == digits);
    } else if n == digits.len() {
        assert(digits.take(n) == digits);
        lemma_digits_value_grows(digits.drop_last(), n - 1);
        assert(is_digit(digits.last()));
    } else {
        lemma_digits_value_grows(digits.drop_last(), n);
        assert(digits.drop_last().take(n) == digits.take(n));
        assert(is_digit(digits.last()));
    }
}

/// Reads a small number from a text.
pub fn parse_u8(text: &str) -> (number: Option<u8>)
    ensures
        number == decimal_u8(text@),
{
    let chars = chars_of(text);
    let start: usize = if chars.len() > 0 && chars[0] == '+' { 1 } else { 0 };
    let ghost digits = without_plus(text@);
    assert(digits == text@.skip(start as int));
    if chars.len() == start {
        return None;
    }
    let mut value: u32 = 0;
    let mut at: usize = start;
    while at < chars.len()
        invariant
            chars@ == text@,
            digits == without_plus(text@),
            digits == text@.skip(start as int),
            start <= at <= chars.len(),
            all_digits(digits.take(at - start)),
            value == digits_value(digits.take(at - start)),
            value <= 255,
        decreases chars.len() - at,
    {
        let c = chars[at];
        assert(c == digits[at - start]);
        if !('0' <= c && c <= '9') {
            assert(!is_digit(digits[at - start]));
            return None;
        }
        let digit: u32 = c as u32 - '0' as u32;
        let ghost longer = digits.take(at - start + 1);
        assert(longer.drop_last() == digits.take(at - start));
        assert(longer.last() == c);
        assert(all_digits(longer)) by {
            assert forall|i: int| 0 <= i < longer.len() implies is_digit(#[trigger] longer[i]) by {
                if i < longer.len() - 1 {
                    assert(longer[i] == digits.take(at - start)[i]);
                }
            }
        }
        assert(digits_value(longer) == value * 10 + digit);
        if value * 10 + digit > 255 {
            proof {
                if all_digits(digits) {
                    lemma_digits_value_grows(digits, at - start + 1);
                }
            }
            return None;
        }
        value = value * 10 + digit;
        at = at + 1;
    }
    assert(digits.take(at - start) == digits);
    Some(value as u8)
}

/// Where the first dash of a text stands, or its length if it has none.
pub open spec fn dash_position(text: Seq<char>) -> int
    decreases text.len(),
{
    if text.len() == 0 || text[0] == '-' {
        0
    } else {
        1 + dash_position(text.drop_first())
    }
}

/// The part of a text before its first dash; the whole text if it has none.
pub open spec fn before_dash(text: Seq<char>) -> Seq<char> {
    text.take(dash_position(text))
}

/// The dash position is the least index that holds a dash, or the length.
pub proof fn lemma_dash_position(text: Seq<char>)
    ensures
        0 <= dash_position(text) <= text.len(),
        forall|i: int| 0 <= i < dash_position(text) ==> text[i] != '-',
        dash_position(text) < text.len() ==> text[dash_position(text)] == '-',
    decreases text.len(),
{
    if text.len() == 0 || text[0] == '-' {
    } else {
        let rest = text.drop_first();
        lemma_dash_position(rest);
        assert forall|i: int| 0 <= i < dash_position(text) implies text[i] != '-' by {
            if i > 0 {
                assert(text[i] == rest[i - 1]);
            }
        }
    }
}

/// A position before which no dash stands, and which holds one or ends the
/// text, is the dash position.
pub proof fn lemma_dash_position_is(text: Seq<char>, at: int)
    requires
        0 <= at <= text.len(),
        forall|i: int| 0 <= i < at ==> text[i] != '-',
        at < text.len() ==> text[at] == '-',
    ensures
        dash_position(text) == at,
{
    lemma_dash_position(text);
    let found = dash_position(text);
    if found < at {
        assert(text[found] != '-');
    } else if at < found {
        assert(text[at] == '-');
    }
}

/// Whether a character is white space: the characters that Unicode gives the
/// property White_Space.
pub open spec fn is_space(c: char) -> bool {
    let code = c as u32;
    ||| 0x09 <= code <= 0x0D
    ||| code == 0x20
    ||| code == 0x85
    ||| code == 0xA0
    ||| code == 0x1680
    ||| 0x2000 <= code <= 0x200A
    ||| code == 0x2028
    ||| code == 0x2029
    ||| code == 0x202F
    ||| code == 0x205F
    ||| code == 0x3000
}

/// Tells white space from other characters.
pub fn char_is_space(c: char) -> (space: bool)
    ensures
        space == is_space(c),
{
    let code: u32 = c as u32;
    (0x09 <= code && code <= 0x0D) || code == 0x20 || code == 0x85 || code == 0xA0 || code
        == 0x1680 || (0x2000 <= code && code <= 0x200A) || code == 0x2028 || code == 0x2029
        || code == 0x202F || code == 0x205F || code == 0x3000
}

/// How many white space characters a text starts with.
pub open spec fn leading_spaces(text: Seq<char>) -> int
    decreases text.len(),
{
    if text.len() == 0 || !is_space(text[0]) {
        0
    } else {
        1 + leading_spaces(text.drop_first())
    }
}

/// How many white space characters a text ends with.
pub open spec fn trailing_spaces(text: Seq<char>) -> int
    decreases text.len(),
{
    if text.len() == 0 || !is_space(text.last()) {
        0
    } else {
        1 + trailing_spaces(text.drop_last())
    }
}

/// The text without the white space at its start and at its end.
pub open spec fn trimmed(text: Seq<char>) -> Seq<char> {
    let rest = text.skip(leading_spaces(text));
    rest.take(rest.len() - trailing_spaces(rest))
}

/// A position before which all is white space, and which holds another
/// character or ends the text, is the count of leading spaces.
pub proof fn lemma_leading_spaces_is(text: Seq<char>, at: int)
    requires
        0 <= at <= text.len(),
        forall|i: int| 0 <= i < at ==> is_space(#[trigger] text[i]),
        at < text.len() ==> !is_space(text[at]),
    ensures
        leading_spaces(text) == at,
    decreases text.len(),
{
    if at == 0 {
    } else {
        let rest = text.drop_first();
        assert(is_space(text[0]));
        assert forall|i: int| 0 <= i < at - 1 implies is_space(#[trigger] rest[i]) by {
            assert(rest[i] == text[i + 1]);
        }
        lemma_leading_spaces_is(rest, at - 1);
    }
}

/// A position from which all is white space, and before which another
/// character stands or the text begins, leaves the trailing spaces behind it.
pub proof fn lemma_trailing_spaces_is(text: Seq<char>, end: int)
    requires
        0 <= end <= text.len(),
        forall|i: int| end <= i < text.len() ==> is_space(#[trigger] text[i]),
        end > 0 ==> !is_space(text[end - 1]),
    ensures
        trailing_spaces(text) == text.len() - end,
    decreases text.len(),
{
    if end == text.len() {
    } else {
        let rest = text.drop_last();
        assert(is_space(text[text.len() - 1]));
        assert forall|i: int| end <= i < rest.len() implies is_space(#[trigger] rest[i]) by {
            assert(rest[i] == text[i]);
        }
        lemma_trailing_spaces_is(rest, end);
    }
}

/// The date part of a timer text: what stands before the first dash, trimmed.
pub open spec fn date_part(timer: Seq<char>) -> Seq<char> {
    trimmed(before_dash(timer))
}

/// Cuts the date part out of a timer text.
pub fn date_part_of(timer: &str) -> (part: &str)
    ensures
        part@ == date_part(timer@),
{
    let chars = chars_of(timer);
    let mut dash: usize = 0;
    while dash < chars.len() && chars[dash] != '-'
        invariant
            dash <= chars.len(),
            forall|i: int| 0 <= i < dash ==> chars@[i] != '-',
        decreases chars.len() - dash,
    {
        dash = dash + 1;
    }
    proof {
        lemma_dash_position_is(timer@, dash as int);
    }
    let ghost head = before_dash(timer@);
    assert(head == timer@.take(dash as int));
    let mut start: usize = 0;
    while start < dash && char_is_space(chars[start])
        invariant
            start <= dash <= chars.len(),
            forall|i: int| 0 <= i < start ==> is_space(#[trigger] chars@[i]),
        decreases dash - start,
    {
        start = start + 1;
    }
    proof {
        assert forall|i: int| 0 <= i < start implies is_space(#[trigger] head[i]) by {
            assert(head[i] == chars@[i]);
        }
        lemma_leading_spaces_is(head, start as int);
    }
    let ghost rest = head.skip(start as int);
    let mut end: usize = dash;
    while end > start && char_is_space(chars[end - 1])
        invariant
            start <= end <= dash <= chars.len(),
            forall|i: int| end <= i < dash ==> is_space(#[trigger] chars@[i]),
        decreases end,
    {
        end = end - 1;
    }
    proof {
        assert forall|i: int| end - start <= i < rest.len() implies is_space(
            #[trigger] rest[i],
        ) by {
            assert(rest[i] == chars@[i + start]);
        }
        if end > start {
            assert(rest[end - start - 1] == chars@[end - 1]);
        }
        lemma_trailing_spaces_is(rest, end - start);
        assert(rest.take(end - start) == timer@.subrange(start as int, end as int));
    }
    timer.substring_char(start, end)
}

/// Whether `pattern` stands somewhere in `text`, character for character.
pub open spec fn has_part(text: Seq<char>, pattern: Seq<char>) -> bool {
    exists|at: int| part_at(text, pattern, at)
}

/// Whether `pattern` stands in `text` at position `at`.
pub open spec fn part_at(text: Seq<char>, pattern: Seq<char>, at: int) -> bool {
    0 <= at && at + pattern.len() <= text.len() && text.subrange(at, at + pattern.len())
        == pattern
}

/// Tells whether a text holds a pattern.
pub fn contains(text: &str, pattern: &str) -> (found: bool)
    ensures
        found == has_part(text@, pattern@),
{
    let chars = chars_of(text);
    let wanted = chars_of(pattern);
    if wanted.len() > chars.len() {
        return false;
    }
    let last: usize = chars.len() - wanted.len();
    let mut at: usize = 0;
    while at <= last
        invariant
            chars@ == text@,
            wanted@ == pattern@,
            last == chars.len() - wanted.len(),
            at <= last + 1,
            forall|i: int| 0 <= i < at ==> !part_at(text@, pattern@, i),
        decreases last + 1 - at,
    {
        let mut same: usize = 0;
        while same < wanted.len() && chars[at + same] == wanted[same]
            invariant
                at <= last,
                last == chars.len() - wanted.len(),
                same <= wanted.len(),
                forall|j: int| 0 <= j < same ==> chars@[at + j] == wanted@[j],
            decreases wanted.len() - same,
        {
            same = same + 1;
        }
        if same == wanted.len() {
            assert(text@.subrange(at as int, at + pattern@.len()) == pattern@);
            assert(part_at(text@, pattern@, at as int));
            return true;
        }
        assert(!part_at(text@, pattern@, at as int)) by {
            if part_at(text@, pattern@, at as int) {
                assert(text@.subrange(at as int, at + pattern@.len())[same as int]
                    == pattern@[same as int]);
            }
        }
        at = at + 1;
    }
    false
}

/// What `str::to_lowercase` makes of a text.
pub uninterp spec fn lowercase(text: Seq<char>) -> Seq<char>;

/// Calls `str::to_lowercase`, which gives the text in lower case by Unicode's
/// rules and depends on nothing but the text.
#[verifier::external_body]
pub(crate) fn to_lowercase(text: &str) -> (lower: String)
    ensures
        lower@ == lowercase(text@),
{
    text.to_lowercase()
}

/// Whether two texts are the same, character for character.
pub fn equal_text(a: &str, b: &str) -> (same: bool)
    ensures
        same == (a@ == b@),
{
    a.to_owned() == b.to_owned()
}

} // verus!
