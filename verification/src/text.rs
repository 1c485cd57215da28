//! Helpers over text: decimal numbers, trimming, comparison.

use vstd::prelude::*;

verus! {

/// The characters of `text`.
pub fn chars_of(text: &str) -> (chars: Vec<char>)
    ensures
        chars@ == text@,
{
    let mut chars: Vec<char> = Vec::new();
    for c in iter: text.chars()
        invariant
            iter.seq() == text@,
            chars@ == text@.take(iter.index() as int),
    {
        let ghost k = iter.index() as int;
        assert(c == text@[k]);
        chars.push(c);
        assert(text@.take(k + 1) == text@.take(k).push(c));
    }
    assert(text@.take(text@.len() as int) == text@);
    chars
}

/// Whether two texts are equal.
pub fn same_text(left: &str, right: &str) -> (same: bool)
    ensures
        same == (left@ == right@),
{
    let left = chars_of(left);
    let right = chars_of(right);
    if left.len() != right.len() {
        return false;
    }
    matches_at(&left, &right, 0)
}

/// Whether `part` stands in `text` at `at`.
pub open spec fn stands_at(text: Seq<char>, part: Seq<char>, at: int) -> bool {
    0 <= at && at + part.len() <= text.len() && text.subrange(at, at + part.len()) == part
}

/// Whether `part` stands in `text` at `at`.
pub fn matches_at(text: &Vec<char>, part: &Vec<char>, at: usize) -> (found: bool)
    ensures
        found == stands_at(text@, part@, at as int),
        part@.len() == text@.len() && at == 0 ==> found == (text@ == part@),
{
    let length: usize = text.len();
    if at > length || part.len() > length - at {
        return false;
    }
    let mut index: usize = 0;
    while index < part.len()
        invariant
            at + part@.len() <= text@.len() == length,
            index <= part@.len(),
            forall|i: int| 0 <= i < index ==> text@[at + i] == part@[i],
        decreases part@.len() - index,
    {
        if text[at + index] != part[index] {
            assert(text@.subrange(at as int, at + part@.len())[index as int] != part@[index as int]);
            return false;
        }
        index = index + 1;
    }
    assert(text@.subrange(at as int, at + part@.len()) == part@);
    assert(part@.len() == text@.len() && at == 0 ==> text@ == part@);
    true
}

/// Decimal digits of a number, most significant first, without leading zeros.
pub open spec fn decimal(n: nat) -> Seq<char>
    decreases n,
{
    if n < 10 {
        seq![digit(n)]
    } else {
        decimal(n / 10).push(digit(n % 10))
    }
}

/// The decimal digit of a number below ten.
pub open spec fn digit(n: nat) -> char {
    (48 + n) as char
}

/// Writes a number in decimal.
pub fn decimal_text(n: usize) -> (text: String)
    ensures
        text@ == decimal(n as nat),
{
    wide_decimal_text(n as u64)
}

/// Decimal digits of an integer, after a minus sign if it is negative.
pub open spec fn signed_decimal(n: int) -> Seq<char> {
    if n < 0 {
        "-"@ + decimal((-n) as nat)
    } else {
        decimal(n as nat)
    }
}

/// Writes an integer in decimal.
pub fn signed_decimal_text(n: i64) -> (text: String)
    ensures
        text@ == signed_decimal(n as int),
{
    if n < 0 {
        let size: u64 = (-(n as i128)) as u64;
        let mut text: String = "-".to_owned();
        text.append(wide_decimal_text(size).as_str());
        text
    } else {
        wide_decimal_text(n as u64)
    }
}

/// Writes a number in decimal.
pub fn wide_decimal_text(n: u64) -> (text: String)
    ensures
        text@ == decimal(n as nat),
    decreases n,
{
    let last: u64 = n % 10;
    let mut text: String = if n < 10 {
        String::new()
    } else {
        wide_decimal_text(n / 10)
    };
    let ghost before = text@;
    proof {
        reveal_strlit("0");
        reveal_strlit("1");
        reveal_strlit("2");
        reveal_strlit("3");
        reveal_strlit("4");
        reveal_strlit("5");
        reveal_strlit("6");
        reveal_strlit("7");
        reveal_strlit("8");
        reveal_strlit("9");
    }
    let symbol: &str = if last == 0 {
        "0"
    } else if last == 1 {
        "1"
    } else if last == 2 {
        "2"
    } else if last == 3 {
        "3"
    } else if last == 4 {
        "4"
    } else if last == 5 {
        "5"
    } else if last == 6 {
        "6"
    } else if last == 7 {
        "7"
    } else if last == 8 {
        "8"
    } else {
        "9"
    };
    assert(symbol@ == seq![digit(last as nat)]);
    text.append(symbol);
    assert(text@ == before + seq![digit(last as nat)]);
    assert(before + seq![digit(last as nat)] == before.push(digit(last as nat)));
    assert(Seq::<char>::empty().push(digit(last as nat)) == seq![digit(last as nat)]);
    text
}

/// How the standard library shows a text for debugging: in quotes, with special characters
/// escaped.
pub uninterp spec fn quoted(text: Seq<char>) -> Seq<char>;

/// Formats a text with std's `Debug` for `str`. Claims that the result depends on the text alone.
#[verifier::external_body]
pub(crate) fn quoted_text(text: &str) -> (result: String)
    ensures
        result@ == quoted(text@),
{
    format!("{:?}", text)
}

/// Joins five texts.
pub fn joined(first: &str, second: &str, third: &str, fourth: &str, fifth: &str) -> (text: String)
    ensures
        text@ == first@ + second@ + third@ + fourth@ + fifth@,
{
    let mut text: String = first.to_owned();
    text.append(second);
    text.append(third);
    text.append(fourth);
    text.append(fifth);
    text
}

/// The value that a text of decimal digits stands for.
pub open spec fn decimal_value(text: Seq<char>) -> nat
    decreases text.len(),
{
    if text.len() == 0 {
        0
    } else {
        10 * decimal_value(text.drop_last()) + (text.last() as nat - 48) as nat
    }
}

/// Distinct numbers are written differently: reading the digits back gives the number.
pub proof fn decimal_reads_back(n: nat)
    ensures
        decimal_value(decimal(n)) == n,
        decimal(n).len() > 0,
        forall|i: int| 0 <= i < decimal(n).len() ==> '0' <= #[trigger] decimal(n)[i] <= '9',
    decreases n,
{
    if n < 10 {
        let one = seq![digit(n)];
        assert(one.drop_last() == Seq::<char>::empty());
        assert(decimal_value(one.drop_last()) == 0);
    } else {
        decimal_reads_back(n / 10);
        let all = decimal(n);
        assert(all.drop_last() == decimal(n / 10));
        assert(all.last() == digit(n % 10));
    }
}

/// Characters that Unicode counts as white space.
pub open spec fn is_white(c: char) -> bool {
    let code = c as int;
    ||| 0x9 <= code <= 0xd
    ||| code == 0x20
    ||| code == 0x85
    ||| code == 0xa0
    ||| code == 0x1680
    ||| 0x2000 <= code <= 0x200a
    ||| code == 0x2028
    ||| code == 0x2029
    ||| code == 0x202f
    ||| code == 0x205f
    ||| code == 0x3000
}

fn is_white_space(c: char) -> (white: bool)
    ensures
        white == is_white(c),
{
    let code: u32 = c as u32;
    (0x9 <= code && code <= 0xd) || code == 0x20 || code == 0x85 || code == 0xa0 || code == 0x1680
        || (0x2000 <= code && code <= 0x200a) || code == 0x2028 || code == 0x2029 || code == 0x202f
        || code == 0x205f || code == 0x3000
}

/// `text` without white space at its ends.
pub open spec fn trimmed(text: Seq<char>) -> Seq<char>
    decreases text.len(),
{
    if text.len() == 0 {
        text
    } else if is_white(text[0]) {
        trimmed(text.skip(1))
    } else if is_white(text.last()) {
        trimmed(text.drop_last())
    } else {
        text
    }
}

/// What trimming leaves: a part of the text with no white space at either end and nothing but white
/// space around it.
pub proof fn trimming_drops_only_outer_white(text: Seq<char>) -> (range: (int, int))
    ensures
        0 <= range.0 <= range.1 <= text.len(),
        trimmed(text) == text.subrange(range.0, range.1),
        forall|i: int| 0 <= i < range.0 ==> is_white(#[trigger] text[i]),
        forall|i: int| range.1 <= i < text.len() ==> is_white(#[trigger] text[i]),
        trimmed(text).len() > 0 ==> !is_white(trimmed(text)[0]) && !is_white(trimmed(text).last()),
    decreases text.len(),
{
    if text.len() == 0 {
        assert(text.subrange(0, 0) == text);
        (0, 0)
    } else if is_white(text[0]) {
        let inner = trimming_drops_only_outer_white(text.skip(1));
        assert(text.skip(1).subrange(inner.0, inner.1) == text.subrange(inner.0 + 1, inner.1 + 1));
        assert forall|i: int| 0 <= i < inner.0 + 1 implies is_white(#[trigger] text[i]) by {
            if i > 0 {
                assert(text.skip(1)[i - 1] == text[i]);
            }
        }
        assert forall|i: int| inner.1 + 1 <= i < text.len() implies is_white(#[trigger] text[i]) by {
            assert(text.skip(1)[i - 1] == text[i]);
        }
        (inner.0 + 1, inner.1 + 1)
    } else if is_white(text.last()) {
        let shorter = text.drop_last();
        let inner = trimming_drops_only_outer_white(shorter);
        assert(shorter.subrange(inner.0, inner.1) == text.subrange(inner.0, inner.1));
        assert forall|i: int| 0 <= i < inner.0 implies is_white(#[trigger] text[i]) by {
            assert(shorter[i] == text[i]);
        }
        assert forall|i: int| inner.1 <= i < text.len() implies is_white(#[trigger] text[i]) by {
            if i < shorter.len() {
                assert(shorter[i] == text[i]);
            }
        }
        (inner.0, inner.1)
    } else {
        assert(text.subrange(0, text.len() as int) == text);
        (0, text.len() as int)
    }
}

/// The ASCII lower case of a character.
pub open spec fn ascii_lower(c: char) -> char {
    if 'A' <= c <= 'Z' {
        (c as u8 + 32) as char
    } else {
        c
    }
}

fn ascii_lower_case(c: char) -> (lower: char)
    ensures
        lower == ascii_lower(c),
{
    if 'A' <= c && c <= 'Z' {
        let code: u8 = c as u8;
        (code + 32) as char
    } else {
        c
    }
}

/// `text` without white space at its ends and in ASCII lower case.
pub open spec fn normalized(text: Seq<char>) -> Seq<char> {
    trimmed(text).map_values(|c: char| ascii_lower(c))
}

/// `text` without white space at its ends and in ASCII lower case.
pub fn normalize(text: &str) -> (result: Vec<char>)
    ensures
        result@ == normalized(text@),
{
    let chars = chars_of(text);
    let mut start: usize = 0;
    let mut end: usize = chars.len();
    assert(chars@.subrange(0, end as int) == text@);
    while start < end && is_white_space(chars[start])
        invariant
            start <= end == chars@.len(),
            trimmed(chars@.subrange(start as int, end as int)) == trimmed(text@),
        decreases end - start,
    {
        let ghost whole = chars@.subrange(start as int, end as int);
        assert(whole.skip(1) == chars@.subrange(start + 1, end as int));
        assert(whole[0] == chars@[start as int]);
        start = start + 1;
    }
    while start < end && is_white_space(chars[end - 1])
        invariant
            start <= end <= chars@.len(),
            start < end ==> !is_white(chars@[start as int]),
            trimmed(chars@.subrange(start as int, end as int)) == trimmed(text@),
        decreases end - start,
    {
        let ghost whole = chars@.subrange(start as int, end as int);
        assert(whole.drop_last() == chars@.subrange(start as int, end - 1));
        assert(whole[0] == chars@[start as int]);
        assert(whole.last() == chars@[end - 1]);
        end = end - 1;
    }
    let ghost kept = chars@.subrange(start as int, end as int);
    proof {
        if kept.len() > 0 {
            assert(kept[0] == chars@[start as int]);
            assert(kept.last() == chars@[end - 1]);
        }
        assert(trimmed(kept) == kept);
    }
    let mut result: Vec<char> = Vec::new();
    let mut index: usize = start;
    while index < end
        invariant
            start <= index <= end <= chars@.len(),
            kept == chars@.subrange(start as int, end as int),
            result@.len() == index - start,
            forall|i: int| 0 <= i < result@.len() ==> result@[i] == ascii_lower(kept[i]),
        decreases end - index,
    {
        result.push(ascii_lower_case(chars[index]));
        index = index + 1;
    }
    assert(result@ == normalized(text@));
    result
}

/// Only the letters from A to Z change, to the letters thirty-two places on.
pub proof fn lower_case_is_thirty_two_on(c: char)
    ensures
        'A' <= c <= 'Z' ==> ascii_lower(c) as int == c as int + 32,
        !('A' <= c <= 'Z') ==> ascii_lower(c) == c,
        ascii_lower(ascii_lower(c)) == ascii_lower(c),
{
}

} // verus!
