//! Text helpers over the characters of a string.

use vstd::prelude::*;
use vstd::utf8::{decode_utf8, valid_utf8};

verus! {

/// `String::push` appends one character.
pub assume_specification[ String::push ](text: &mut String, character: char)
    ensures
        final(text)@ == old(text)@.push(character),
;

/// Calls `std::str::from_utf8`.
///
/// Claims that the bytes become text exactly where they are valid UTF-8, and that the text is
/// then what they decode to.
#[verifier::external_body]
pub(crate) fn utf8_text(bytes: &[u8]) -> (text: Option<String>)
    ensures
        match text {
            Some(text) => valid_utf8(bytes@) && text@ == decode_utf8(bytes@),
            None => !valid_utf8(bytes@),
        },
{
    match std::str::from_utf8(bytes) {
        Ok(text) => Some(text.to_owned()),
        Err(_) => None,
    }
}

/// The character of a decimal digit.
pub open spec fn digit(value: int) -> char {
    (48 + value) as char
}

pub open spec fn is_digit(character: char) -> bool {
    '0' <= character <= '9'
}

/// The decimal digits of `value`, without leading zeros.
pub open spec fn decimal(value: nat) -> Seq<char>
    decreases value,
{
    if value < 10 {
        seq![digit(value as int)]
    } else {
        decimal(value / 10).push(digit((value % 10) as int))
    }
}

/// Appends the decimal digits of `value`.
pub fn push_decimal(text: &mut String, value: u64)
    ensures
        final(text)@ == old(text)@ + decimal(value as nat),
    decreases value,
{
    if value >= 10 {
        push_decimal(text, value / 10);
    }
    text.push((48 + (value % 10) as u8) as char);
    assert(text@ =~= old(text)@ + decimal(value as nat));
}

/// Appends the decimal digits of a large `value`.
pub fn push_large_decimal(text: &mut String, value: u128)
    ensures
        final(text)@ == old(text)@ + decimal(value as nat),
    decreases value,
{
    if value >= 10 {
        push_large_decimal(text, value / 10);
    }
    text.push((48 + (value % 10) as u8) as char);
    assert(text@ =~= old(text)@ + decimal(value as nat));
}

/// The decimal digits of `value`.
pub fn decimal_text(value: u64) -> (text: String)
    ensures
        text@ == decimal(value as nat),
{
    let mut text: String = String::new();
    push_decimal(&mut text, value);
    assert(text@ =~= decimal(value as nat));
    text
}

/// The decimal form of a number that may be negative.
pub open spec fn signed_decimal(value: int) -> Seq<char> {
    if value < 0 {
        seq!['-'] + decimal((-value) as nat)
    } else {
        decimal(value as nat)
    }
}

/// Appends the decimal form of `value`.
pub fn push_signed(text: &mut String, value: i64)
    ensures
        final(text)@ == old(text)@ + signed_decimal(value as int),
{
    if value < 0 {
        text.push('-');
        let magnitude: u64 = (-(value as i128)) as u64;
        push_decimal(text, magnitude);
        assert(text@ =~= old(text)@ + signed_decimal(value as int));
    } else {
        push_decimal(text, value as u64);
    }
}

/// The value of a run of decimal digits.
pub open spec fn digits_value(digits: Seq<char>) -> nat
    decreases digits.len(),
{
    if digits.len() == 0 {
        0
    } else {
        digits_value(digits.drop_last()) * 10 + (digits.last() as nat - 48) as nat
    }
}

pub open spec fn all_digits(text: Seq<char>) -> bool {
    forall|i: int| 0 <= i < text.len() ==> is_digit(#[trigger] text[i])
}

/// The digits of a number give the number back.
pub proof fn lemma_decimal_round_trips(value: nat)
    ensures
        all_digits(decimal(value)),
        decimal(value).len() > 0,
        digits_value(decimal(value)) == value,
    decreases value,
{
    if value < 10 {
        assert(decimal(value).drop_last() =~= Seq::<char>::empty());
        assert(digits_value(Seq::<char>::empty()) == 0);
    } else {
        lemma_decimal_round_trips(value / 10);
        assert(decimal(value).drop_last() =~= decimal(value / 10));
    }
}

/// A number ends in its last digit, and the digits before that are those of its tenth part, so
/// that no number but zero starts with a zero.
pub proof fn lemma_last_digits(value: nat)
    ensures
        decimal(value).len() >= 1,
        decimal(value).last() as int - '0' as int == value % 10,
        value < 10 ==> decimal(value).len() == 1,
        value >= 10 ==> decimal(value).drop_last() == decimal(value / 10),
        value > 0 ==> decimal(value)[0] != '0',
    decreases value,
{
    if value >= 10 {
        lemma_last_digits(value / 10);
        assert(decimal(value).drop_last() =~= decimal(value / 10));
        assert(decimal(value)[0] == decimal(value / 10)[0]);
    }
}

/// A digit behind a number makes it ten times as large, and the digit more.
pub proof fn lemma_digits_count_tens(digits: Seq<char>, next: char)
    requires
        is_digit(next),
    ensures
        digits_value(digits.push(next)) == 10 * digits_value(digits) + (next as int - '0' as int),
        digits_value(Seq::empty()) == 0,
{
    assert(digits.push(next).drop_last() =~= digits);
}

/// A minus sign stands in front of a negative number and of no other.
pub proof fn lemma_signs(value: int)
    ensures
        signed_decimal(value)[0] == '-' <==> value < 0,
        value < 0 ==> signed_decimal(value).skip(1) == decimal((-value) as nat),
        value >= 0 ==> signed_decimal(value) == decimal(value as nat),
{
    if value < 0 {
        assert(signed_decimal(value).skip(1) =~= decimal((-value) as nat));
    } else {
        lemma_decimal_round_trips(value as nat);
        assert(is_digit(decimal(value as nat)[0]));
    }
}

/// The number that a text spells, as `str::parse` reads an unsigned number: a plus sign may stand
/// in front, nothing but digits may follow, and the value is at most `maximum`.
pub open spec fn unsigned_number(text: Seq<char>, maximum: nat) -> Option<nat> {
    let digits = if text.len() > 0 && text[0] == '+' {
        text.skip(1)
    } else {
        text
    };
    if digits.len() > 0 && all_digits(digits) && digits_value(digits) <= maximum {
        Some(digits_value(digits))
    } else {
        None
    }
}

/// A number is read back from its digits, with or without a plus in front, as far as it is not too
/// large, and a text with anything else in it is no number.
pub proof fn lemma_numbers_are_read_back(value: nat, maximum: nat, other: Seq<char>, place: int)
    ensures
        unsigned_number(decimal(value), maximum) == if value <= maximum {
            Some(value)
        } else {
            None
        },
        unsigned_number(seq!['+'] + decimal(value), maximum) == if value <= maximum {
            Some(value)
        } else {
            None
        },
        unsigned_number(Seq::empty(), maximum) is None,
        unsigned_number(seq!['+'], maximum) is None,
        0 <= place < other.len() && !is_digit(other[place]) && (place > 0 || other[0] != '+')
            ==> unsigned_number(other, maximum) is None,
{
    lemma_decimal_round_trips(value);
    assert(is_digit(decimal(value)[0]));
    assert((seq!['+'] + decimal(value)).skip(1) =~= decimal(value));
    if 0 <= place < other.len() && !is_digit(other[place]) && (place > 0 || other[0] != '+') {
        if other[0] == '+' {
            assert(other.skip(1)[place - 1] == other[place]);
        }
    }
}

proof fn lemma_digits_value_grows(digits: Seq<char>, count: int)
    requires
        0 <= count <= digits.len(),
        all_digits(digits),
    ensures
        digits_value(digits.take(count)) <= digits_value(digits),
    decreases digits.len() - count,
{
    if count == digits.len() {
        assert(digits.take(count) =~= digits);
    } else {
        lemma_digits_value_grows(digits, count + 1);
        assert(digits.take(count + 1).drop_last() =~= digits.take(count));
        assert(is_digit(digits[count]));
    }
}

/// Reads decimal digits from `start` up to `end`.
pub fn parse_digits(text: &[char], start: usize, end: usize, maximum: u64) -> (value: Option<u64>)
    requires
        start <= end <= text@.len(),
    ensures
        ({
            let digits = text@.subrange(start as int, end as int);
            match value {
                Some(value) => all_digits(digits) && value == digits_value(digits) && value
                    <= maximum,
                None => !all_digits(digits) || digits_value(digits) > maximum,
            }
        }),
{
    let ghost digits = text@.subrange(start as int, end as int);
    let mut value: u64 = 0;
    let mut too_large: bool = false;
    let mut index: usize = start;
    assert(digits.take(0) =~= Seq::<char>::empty());
    while index < end
        invariant
            start <= index <= end <= text@.len(),
            digits == text@.subrange(start as int, end as int),
            all_digits(digits.take(index - start)),
            !too_large ==> value == digits_value(digits.take(index - start)) && value <= maximum,
            too_large ==> digits_value(digits.take(index - start)) > maximum,
        decreases end - index,
    {
        let character: char = text[index];
        assert(character == digits[index - start]);
        if !('0' <= character && character <= '9') {
            assert(!all_digits(digits));
            return None;
        }
        let next: u64 = character as u64 - 48;
        proof {
            let longer = digits.take(index + 1 - start);
            assert(longer.drop_last() =~= digits.take(index - start));
            assert forall|i: int| 0 <= i < longer.len() implies is_digit(#[trigger] longer[i]) by {
                if i < index - start {
                    assert(longer[i] == digits.take(index - start)[i]);
                }
            }
        }
        if !too_large {
            if value > (u64::MAX - next) / 10 {
                too_large = true;
            } else if value * 10 + next > maximum {
                too_large = true;
            } else {
                value = value * 10 + next;
            }
        }
        index = index + 1;
    }
    assert(digits.take(end - start) =~= digits);
    if too_large {
        None
    } else {
        Some(value)
    }
}

/// Reads an unsigned number as `str::parse` does.
pub fn parse_unsigned(text: &[char], maximum: u64) -> (value: Option<u64>)
    ensures
        match value {
            Some(value) => unsigned_number(text@, maximum as nat) == Some(value as nat),
            None => unsigned_number(text@, maximum as nat) is None,
        },
{
    let start: usize = if text.len() > 0 && text[0] == '+' {
        1
    } else {
        0
    };
    assert(text@.subrange(start as int, text@.len() as int) =~= if text@.len() > 0 && text@[0]
        == '+' {
        text@.skip(1)
    } else {
        text@
    });
    if start >= text.len() {
        return None;
    }
    parse_digits(text, start, text.len(), maximum)
}

/// The characters of a string.
pub fn characters(text: &str) -> (result: Vec<char>)
    ensures
        result@ == text@,
{
    let mut result: Vec<char> = Vec::new();
    for character in iter: text.chars()
        invariant
            result@ == iter.seq().take(iter.index() as int),
            iter.seq() == text@,
    {
        result.push(character);
    }
    result
}

/// The string of some characters.
pub fn text_of(characters: &[char]) -> (text: String)
    ensures
        text@ == characters@,
{
    subtext(characters, 0, characters.len())
}

/// The string of the characters from `start` up to `end`.
pub fn subtext(characters: &[char], start: usize, end: usize) -> (text: String)
    requires
        start <= end <= characters@.len(),
    ensures
        text@ == characters@.subrange(start as int, end as int),
{
    let mut text: String = String::new();
    let mut index: usize = start;
    while index < end
        invariant
            start <= index <= end <= characters@.len(),
            text@ == characters@.subrange(start as int, index as int),
        decreases end - index,
    {
        text.push(characters[index]);
        index = index + 1;
        assert(text@ =~= characters@.subrange(start as int, index as int));
    }
    text
}

/// The characters from `start` up to `end`.
pub fn subcharacters(characters: &[char], start: usize, end: usize) -> (result: Vec<char>)
    requires
        start <= end <= characters@.len(),
    ensures
        result@ == characters@.subrange(start as int, end as int),
{
    let mut result: Vec<char> = Vec::new();
    let mut index: usize = start;
    while index < end
        invariant
            start <= index <= end <= characters@.len(),
            result@ == characters@.subrange(start as int, index as int),
        decreases end - index,
    {
        result.push(characters[index]);
        index = index + 1;
        assert(result@ =~= characters@.subrange(start as int, index as int));
    }
    result
}

/// Whether some characters spell a literal.
pub fn spells(characters: &[char], literal: &str) -> (result: bool)
    ensures
        result == (characters@ == literal@),
{
    let expected: Vec<char> = self::characters(literal);
    if characters.len() != expected.len() {
        return false;
    }
    let mut index: usize = 0;
    while index < characters.len()
        invariant
            index <= characters@.len(),
            characters@.len() == expected@.len(),
            expected@ == literal@,
            forall|i: int| 0 <= i < index ==> characters@[i] == expected@[i],
        decreases characters@.len() - index,
    {
        if characters[index] != expected[index] {
            return false;
        }
        index = index + 1;
    }
    assert(characters@ =~= literal@);
    true
}

pub open spec fn has_prefix(text: Seq<char>, prefix: Seq<char>) -> bool {
    prefix.len() <= text.len() && text.take(prefix.len() as int) == prefix
}

/// Whether some characters start with a literal.
pub fn starts_with(characters: &[char], literal: &str) -> (result: bool)
    ensures
        result == has_prefix(characters@, literal@),
{
    let prefix: Vec<char> = self::characters(literal);
    if characters.len() < prefix.len() {
        return false;
    }
    let mut index: usize = 0;
    while index < prefix.len()
        invariant
            index <= prefix@.len() <= characters@.len(),
            prefix@ == literal@,
            forall|i: int| 0 <= i < index ==> characters@[i] == prefix@[i],
        decreases prefix@.len() - index,
    {
        if characters[index] != prefix[index] {
            assert(characters@.take(prefix@.len() as int)[index as int] != literal@[index as int]);
            return false;
        }
        index = index + 1;
    }
    assert(characters@.take(prefix@.len() as int) =~= literal@);
    true
}

/// The position of the first `wanted` from `start` on, or the length where there is none.
pub open spec fn index_from(text: Seq<char>, wanted: char, start: int) -> int
    decreases text.len() - start,
{
    if start >= text.len() || text[start] == wanted {
        if start >= text.len() {
            text.len() as int
        } else {
            start
        }
    } else {
        index_from(text, wanted, start + 1)
    }
}

/// The position of the first `wanted`, or the length where there is none.
pub open spec fn index_of_char(text: Seq<char>, wanted: char) -> int {
    index_from(text, wanted, 0)
}

proof fn lemma_index_from(text: Seq<char>, wanted: char, start: int)
    requires
        0 <= start <= text.len(),
    ensures
        start <= index_from(text, wanted, start) <= text.len(),
        index_from(text, wanted, start) < text.len() ==> text[index_from(text, wanted, start)]
            == wanted,
        forall|i: int| start <= i < index_from(text, wanted, start) ==> text[i] != wanted,
    decreases text.len() - start,
{
    if start < text.len() && text[start] != wanted {
        lemma_index_from(text, wanted, start + 1);
    }
}

/// The first position of a character: it stands there, and nowhere before.
pub proof fn lemma_index_of_char(text: Seq<char>, wanted: char)
    ensures
        0 <= index_of_char(text, wanted) <= text.len(),
        index_of_char(text, wanted) < text.len() ==> text[index_of_char(text, wanted)] == wanted,
        forall|i: int| 0 <= i < index_of_char(text, wanted) ==> text[i] != wanted,
        text.contains(wanted) <==> index_of_char(text, wanted) < text.len(),
{
    lemma_index_from(text, wanted, 0);
}

/// The position of the first `wanted`, or the length where there is none.
pub fn find_char(text: &[char], wanted: char) -> (index: usize)
    ensures
        index == index_of_char(text@, wanted),
        index <= text@.len(),
{
    let mut index: usize = 0;
    while index < text.len()
        invariant
            index <= text@.len(),
            index_of_char(text@, wanted) == index_from(text@, wanted, index as int),
        decreases text@.len() - index,
    {
        if text[index] == wanted {
            return index;
        }
        index = index + 1;
    }
    index
}

/// The two parts of a text around the first `separator`.
pub open spec fn split_once(text: Seq<char>, separator: char) -> Option<(Seq<char>, Seq<char>)> {
    let index = index_of_char(text, separator);
    if index < text.len() {
        Some((text.take(index), text.skip(index + 1)))
    } else {
        None
    }
}

/// A text is taken apart at the first separator: what stands before it and what stands behind.
pub proof fn lemma_texts_are_taken_apart(before: Seq<char>, separator: char, after: Seq<char>)
    requires
        !before.contains(separator),
    ensures
        split_once(before + seq![separator] + after, separator) == Some((before, after)),
        split_once(before, separator) is None,
{
    let text = before + seq![separator] + after;
    let index = index_of_char(text, separator);
    lemma_index_of_char(text, separator);
    lemma_index_of_char(before, separator);
    let place = before.len() as int;
    assert(text[place] == separator);
    assert(index <= place);
    if index < place {
        assert(before[index] == text[index]);
        assert(before.contains(before[index]));
    }
    assert(text.take(index) =~= before);
    assert(text.skip(index + 1) =~= after);
}

/// A letter without its case, as far as it is an ASCII letter.
pub open spec fn ascii_lower(character: char) -> char {
    if 'A' <= character <= 'Z' {
        (character as int + 32) as char
    } else {
        character
    }
}

/// An upper-case letter in place of an ASCII lower-case one.
pub open spec fn ascii_upper(character: char) -> char {
    if 'a' <= character <= 'z' {
        (character as int - 32) as char
    } else {
        character
    }
}

pub open spec fn ascii_lowercase(text: Seq<char>) -> Seq<char> {
    text.map_values(|character: char| ascii_lower(character))
}

pub open spec fn ascii_uppercase(text: Seq<char>) -> Seq<char> {
    text.map_values(|character: char| ascii_upper(character))
}

/// A letter without its case, as far as it is an ASCII letter.
pub fn lower(character: char) -> (result: char)
    ensures
        result == ascii_lower(character),
{
    if 'A' <= character && character <= 'Z' {
        (character as u8 + 32) as char
    } else {
        character
    }
}

/// An upper-case letter in place of an ASCII lower-case one.
pub fn upper(character: char) -> (result: char)
    ensures
        result == ascii_upper(character),
{
    if 'a' <= character && character <= 'z' {
        (character as u8 - 32) as char
    } else {
        character
    }
}

/// The text with its ASCII letters in upper case.
pub fn to_ascii_uppercase(text: &[char]) -> (result: String)
    ensures
        result@ == ascii_uppercase(text@),
{
    let mut result: String = String::new();
    let mut index: usize = 0;
    while index < text.len()
        invariant
            index <= text@.len(),
            result@ == ascii_uppercase(text@.take(index as int)),
        decreases text@.len() - index,
    {
        result.push(upper(text[index]));
        index = index + 1;
        assert(result@ =~= ascii_uppercase(text@.take(index as int)));
    }
    assert(text@.take(index as int) =~= text@);
    result
}

/// Upper-case letters become lower-case ones, thirty-two places on, and lower-case ones
/// upper-case; every other character stays.
pub proof fn lemma_letters_keep_their_place(text: Seq<char>, i: int)
    requires
        0 <= i < text.len(),
    ensures
        ascii_lowercase(text).len() == text.len(),
        ascii_uppercase(text).len() == text.len(),
        'A' <= text[i] <= 'Z' ==> ascii_lowercase(text)[i] as int == text[i] as int + 32,
        !('A' <= text[i] <= 'Z') ==> ascii_lowercase(text)[i] == text[i],
        'a' <= text[i] <= 'z' ==> ascii_uppercase(text)[i] as int == text[i] as int - 32,
        !('a' <= text[i] <= 'z') ==> ascii_uppercase(text)[i] == text[i],
{
}

/// The characters with ASCII letters in lower case.
pub fn to_ascii_lowercase(text: &str) -> (result: Vec<char>)
    ensures
        result@ == ascii_lowercase(text@),
{
    let characters: Vec<char> = self::characters(text);
    let mut result: Vec<char> = Vec::new();
    let mut index: usize = 0;
    while index < characters.len()
        invariant
            index <= characters@.len(),
            characters@ == text@,
            result@ == ascii_lowercase(text@.take(index as int)),
        decreases characters@.len() - index,
    {
        result.push(lower(characters[index]));
        index = index + 1;
        assert(result@ =~= ascii_lowercase(text@.take(index as int)));
    }
    assert(text@.take(index as int) =~= text@);
    result
}

/// Whether some characters spell a literal when the case of ASCII letters is left aside.
pub fn spells_ignoring_case(text: &[char], start: usize, end: usize, literal: &str) -> (result: bool)
    requires
        start <= end <= text@.len(),
    ensures
        result == (ascii_lowercase(text@.subrange(start as int, end as int)) == ascii_lowercase(
            literal@,
        )),
{
    let ghost part = text@.subrange(start as int, end as int);
    let expected: Vec<char> = to_ascii_lowercase(literal);
    assert(ascii_lowercase(part).len() == end - start);
    if end - start != expected.len() {
        return false;
    }
    let mut index: usize = 0;
    while index < expected.len()
        invariant
            index <= expected@.len() == end - start,
            start <= end <= text@.len(),
            part == text@.subrange(start as int, end as int),
            expected@ == ascii_lowercase(literal@),
            forall|i: int| 0 <= i < index ==> ascii_lowercase(part)[i] == expected@[i],
        decreases expected@.len() - index,
    {
        assert(ascii_lowercase(part)[index as int] == ascii_lower(text@[start + index]));
        if lower(text[start + index]) != expected[index] {
            return false;
        }
        index = index + 1;
    }
    assert(ascii_lowercase(part) =~= expected@);
    true
}

/// Whether a character is white space by Unicode's property of that name.
pub open spec fn is_white_space(character: char) -> bool {
    let code = character as int;
    ||| 9 <= code <= 13
    ||| code == 0x20
    ||| code == 0x85
    ||| code == 0xa0
    ||| code == 0x1680
    ||| 0x2000 <= code <= 0x200a
    ||| code == 0x2028
    ||| code == 0x2029
    ||| code == 0x202f
    ||| code == 0x205f
    ||| code == 0x3000
}

/// White space is what stands in this list of code points, and nothing else.
pub proof fn lemma_white_space_is_a_list(character: char)
    ensures
        is_white_space(character) <==> seq![
            9int, 10, 11, 12, 13, 32, 133, 160, 5760, 8192, 8193, 8194, 8195, 8196, 8197, 8198, 8199,
            8200, 8201, 8202, 8232, 8233, 8239, 8287, 12288,
        ].contains(character as int),
{
    let list = seq![
        9int, 10, 11, 12, 13, 32, 133, 160, 5760, 8192, 8193, 8194, 8195, 8196, 8197, 8198, 8199,
        8200, 8201, 8202, 8232, 8233, 8239, 8287, 12288,
    ];
    let code = character as int;
    if is_white_space(character) {
        let place = if code <= 13 {
            code - 9
        } else if code == 32 {
            5
        } else if code == 133 {
            6
        } else if code == 160 {
            7
        } else if code == 5760 {
            8
        } else if code <= 8202 {
            code - 8183
        } else if code <= 8233 {
            code - 8212
        } else if code == 8239 {
            22
        } else if code == 8287 {
            23
        } else {
            24
        };
        assert(list[place] == code);
    }
}

/// Whether a character is white space.
pub fn white_space(character: char) -> (result: bool)
    ensures
        result == is_white_space(character),
{
    let code: u32 = character as u32;
    (9 <= code && code <= 13) || code == 0x20 || code == 0x85 || code == 0xa0 || code == 0x1680 || (
    0x2000 <= code && code <= 0x200a) || code == 0x2028 || code == 0x2029 || code == 0x202f || code
        == 0x205f || code == 0x3000
}

/// The position of the first character from `start` on that is no white space.
pub open spec fn skip_white(text: Seq<char>, start: int) -> int
    decreases text.len() - start,
{
    if start >= text.len() {
        text.len() as int
    } else if is_white_space(text[start]) {
        skip_white(text, start + 1)
    } else {
        start
    }
}

/// The position of the first white space from `start` on.
pub open spec fn skip_word(text: Seq<char>, start: int) -> int
    decreases text.len() - start,
{
    if start >= text.len() {
        text.len() as int
    } else if is_white_space(text[start]) {
        start
    } else {
        skip_word(text, start + 1)
    }
}

/// The position after the last character before `end` that is no white space.
pub open spec fn trim_end_from(text: Seq<char>, start: int, end: int) -> int
    decreases end - start,
{
    if end <= start {
        start
    } else if is_white_space(text[end - 1]) {
        trim_end_from(text, start, end - 1)
    } else {
        end
    }
}

/// The text without white space at its ends.
pub open spec fn trimmed(text: Seq<char>) -> Seq<char> {
    let start = skip_white(text, 0);
    text.subrange(start, trim_end_from(text, start, text.len() as int))
}

pub(crate) proof fn lemma_skips(text: Seq<char>, start: int)
    requires
        0 <= start <= text.len(),
    ensures
        start <= skip_white(text, start) <= text.len(),
        start <= skip_word(text, start) <= text.len(),
        start < text.len() && !is_white_space(text[start]) ==> skip_word(text, start) > start,
    decreases text.len() - start,
{
    if start < text.len() {
        lemma_skips(text, start + 1);
    }
}

fn find_non_white(text: &[char], start: usize) -> (index: usize)
    requires
        start <= text@.len(),
    ensures
        index == skip_white(text@, start as int),
        start <= index <= text@.len(),
{
    let mut index: usize = start;
    while index < text.len()
        invariant
            start <= index <= text@.len(),
            skip_white(text@, start as int) == skip_white(text@, index as int),
        decreases text@.len() - index,
    {
        if !white_space(text[index]) {
            return index;
        }
        index = index + 1;
    }
    index
}

fn find_white(text: &[char], start: usize) -> (index: usize)
    requires
        start <= text@.len(),
    ensures
        index == skip_word(text@, start as int),
        start <= index <= text@.len(),
{
    let mut index: usize = start;
    while index < text.len()
        invariant
            start <= index <= text@.len(),
            skip_word(text@, start as int) == skip_word(text@, index as int),
        decreases text@.len() - index,
    {
        if white_space(text[index]) {
            return index;
        }
        index = index + 1;
    }
    index
}

/// The text without white space at its ends.
pub fn trim(text: &[char]) -> (result: Vec<char>)
    ensures
        result@ == trimmed(text@),
{
    let start: usize = find_non_white(text, 0);
    let mut end: usize = text.len();
    while end > start
        invariant
            start <= end <= text@.len(),
            start == skip_white(text@, 0),
            trim_end_from(text@, start as int, text@.len() as int) == trim_end_from(
                text@,
                start as int,
                end as int,
            ),
        decreases end - start,
    {
        if !white_space(text[end - 1]) {
            return subcharacters(text, start, end);
        }
        end = end - 1;
    }
    subcharacters(text, start, end)
}

/// The words of a text from `start` on: the runs of characters between white space.
pub open spec fn words_from(text: Seq<char>, start: int) -> Seq<Seq<char>>
    decreases text.len() - start,
    via words_from_decreases
{
    let first = skip_white(text, start);
    if start < 0 || first >= text.len() {
        Seq::empty()
    } else {
        let end = skip_word(text, first);
        seq![text.subrange(first, end)] + words_from(text, end)
    }
}

#[via_fn]
proof fn words_from_decreases(text: Seq<char>, start: int) {
    if 0 <= start <= text.len() {
        lemma_skips(text, start);
        let first = skip_white(text, start);
        lemma_skips(text, first);
        lemma_skip_white_stops(text, start);
    }
}

proof fn lemma_skip_white_stops(text: Seq<char>, start: int)
    requires
        0 <= start <= text.len(),
    ensures
        skip_white(text, start) < text.len() ==> !is_white_space(text[skip_white(text, start)]),
    decreases text.len() - start,
{
    if start < text.len() {
        lemma_skip_white_stops(text, start + 1);
    }
}

/// The words of a text.
pub open spec fn words(text: Seq<char>) -> Seq<Seq<char>> {
    words_from(text, 0)
}

/// Trimming takes white space off both ends, all of it, and nothing else.
pub proof fn lemma_trimming_takes_white_space_off(text: Seq<char>) -> (range: (int, int))
    ensures
        0 <= range.0 <= range.1 <= text.len(),
        trimmed(text) == text.subrange(range.0, range.1),
        forall|i: int| 0 <= i < range.0 ==> is_white_space(#[trigger] text[i]),
        forall|i: int| range.1 <= i < text.len() ==> is_white_space(#[trigger] text[i]),
        range.0 < range.1 ==> !is_white_space(text[range.0]) && !is_white_space(text[range.1 - 1]),
{
    let start = skip_white(text, 0);
    let end = trim_end_from(text, start, text.len() as int);
    lemma_skips(text, 0);
    lemma_skip_white_stops(text, 0);
    lemma_skipped_white(text, 0);
    lemma_trimmed_end(text, start, text.len() as int);
    (start, end)
}

proof fn lemma_skipped_white(text: Seq<char>, start: int)
    requires
        0 <= start <= text.len(),
    ensures
        forall|i: int| start <= i < skip_white(text, start) ==> is_white_space(#[trigger] text[i]),
    decreases text.len() - start,
{
    if start < text.len() {
        lemma_skipped_white(text, start + 1);
    }
}

proof fn lemma_trimmed_end(text: Seq<char>, start: int, end: int)
    requires
        0 <= start <= end <= text.len(),
    ensures
        start <= trim_end_from(text, start, end) <= end,
        forall|i: int|
            trim_end_from(text, start, end) <= i < end ==> is_white_space(#[trigger] text[i]),
        trim_end_from(text, start, end) > start ==> !is_white_space(
            text[trim_end_from(text, start, end) - 1],
        ),
    decreases end - start,
{
    if end > start {
        lemma_trimmed_end(text, start, end - 1);
    }
}

/// Words with one space between two of them.
pub open spec fn spaced(list: Seq<Seq<char>>) -> Seq<char>
    decreases list.len(),
{
    if list.len() == 0 {
        Seq::empty()
    } else if list.len() == 1 {
        list[0]
    } else {
        list[0] + seq![' '] + spaced(list.drop_first())
    }
}

/// Texts one after the other, with a separator between two of them.
pub open spec fn separated(list: Seq<Seq<char>>, separator: Seq<char>) -> Seq<char>
    decreases list.len(),
{
    if list.len() == 0 {
        Seq::empty()
    } else if list.len() == 1 {
        list[0]
    } else {
        list[0] + separator + separated(list.drop_first(), separator)
    }
}

/// A text that comes last stands behind one more separator.
pub proof fn lemma_separated_texts_go_on(
    list: Seq<Seq<char>>,
    separator: Seq<char>,
    last: Seq<char>,
)
    ensures
        separated(list.push(last), separator) == if list.len() == 0 {
            last
        } else {
            separated(list, separator) + separator + last
        },
    decreases list.len(),
{
    if list.len() == 1 {
        assert(list.push(last).drop_first() =~= seq![last]);
        assert(separated(seq![last], separator) == last);
    } else if list.len() > 1 {
        lemma_separated_texts_go_on(list.drop_first(), separator, last);
        assert(list.push(last).drop_first() =~= list.drop_first().push(last));
        let rest = separated(list.drop_first(), separator);
        assert(list[0] + separator + (rest + separator + last) =~= (list[0] + separator + rest)
            + separator + last);
    }
}

/// Whether a text is one word.
pub open spec fn is_word(text: Seq<char>) -> bool {
    text.len() > 0 && forall|i: int| 0 <= i < text.len() ==> !is_white_space(#[trigger] text[i])
}

/// Words that were joined with spaces are taken apart again.
pub proof fn lemma_words_are_taken_apart(list: Seq<Seq<char>>)
    requires
        forall|i: int| 0 <= i < list.len() ==> is_word(#[trigger] list[i]),
    ensures
        words(spaced(list)) == list,
    decreases list.len(),
{
    let text = spaced(list);
    if list.len() == 0 {
        assert(words(text) =~= list);
    } else if list.len() == 1 {
        assert(is_word(list[0]));
        lemma_word_ends(list[0], Seq::empty(), 0);
        assert(list[0] + Seq::<char>::empty() =~= text);
        assert(text.subrange(0, text.len() as int) =~= list[0]);
        assert(skip_white(text, text.len() as int) == text.len());
        assert(words_from(text, text.len() as int) =~= Seq::empty());
        assert(words(text) =~= list);
    } else {
        let word = list[0];
        let rest = list.drop_first();
        assert(is_word(word));
        assert forall|i: int| 0 <= i < rest.len() implies is_word(#[trigger] rest[i]) by {
            assert(rest[i] == list[i + 1]);
        }
        lemma_words_are_taken_apart(rest);
        let tail = seq![' '] + spaced(rest);
        assert(text =~= word + tail);
        lemma_word_ends(word, tail, 0);
        assert(text.subrange(0, word.len() as int) =~= word);
        lemma_words_do_not_look_back(word, tail, 0);
        lemma_words_do_not_look_back(seq![' '], spaced(rest), 0);
        assert(words_from(tail, 0) == words_from(tail, 1)) by {
            assert(tail[0] == ' ');
            assert(skip_white(tail, 0) == skip_white(tail, 1));
        }
        assert(list =~= seq![word] + rest);
    }
}

proof fn lemma_word_ends(word: Seq<char>, rest: Seq<char>, start: int)
    requires
        is_word(word),
        rest.len() > 0 ==> is_white_space(rest[0]),
        0 <= start <= word.len(),
    ensures
        skip_word(word + rest, start) == word.len(),
        start < word.len() ==> skip_white(word + rest, start) == start,
    decreases word.len() - start,
{
    let text = word + rest;
    if start < word.len() {
        assert(text[start] == word[start]);
        lemma_word_ends(word, rest, start + 1);
    } else if rest.len() > 0 {
        assert(text[start] == rest[0]);
    }
}

proof fn lemma_skips_do_not_look_back(front: Seq<char>, text: Seq<char>, start: int)
    requires
        0 <= start <= text.len(),
    ensures
        skip_white(front + text, front.len() + start) == front.len() + skip_white(text, start),
        skip_word(front + text, front.len() + start) == front.len() + skip_word(text, start),
    decreases text.len() - start,
{
    if start < text.len() {
        assert((front + text)[front.len() + start] == text[start]);
        lemma_skips_do_not_look_back(front, text, start + 1);
    }
}

proof fn lemma_words_do_not_look_back(front: Seq<char>, text: Seq<char>, start: int)
    requires
        0 <= start <= text.len(),
    ensures
        words_from(front + text, front.len() + start) == words_from(text, start),
    decreases text.len() - start,
{
    let whole = front + text;
    lemma_skips_do_not_look_back(front, text, start);
    lemma_skips(text, start);
    let first = skip_white(text, start);
    if first < text.len() {
        lemma_skips_do_not_look_back(front, text, first);
        lemma_skips(text, first);
        lemma_skip_white_stops(text, start);
        let end = skip_word(text, first);
        assert(whole.subrange(front.len() + first, front.len() + end) =~= text.subrange(first, end));
        lemma_words_do_not_look_back(front, text, end);
    }
}

/// Characters in groups, as sequences.
pub open spec fn groups(parts: Seq<Vec<char>>) -> Seq<Seq<char>> {
    parts.map_values(|part: Vec<char>| part@)
}

/// The words of a text.
pub fn split_words(text: &[char]) -> (result: Vec<Vec<char>>)
    ensures
        groups(result@) == words(text@),
{
    let mut result: Vec<Vec<char>> = Vec::new();
    let mut start: usize = 0;
    assert(groups(result@) + words_from(text@, 0) =~= words(text@));
    loop
        invariant
            start <= text@.len(),
            groups(result@) + words_from(text@, start as int) == words(text@),
        decreases text@.len() - start,
    {
        let first: usize = find_non_white(text, start);
        if first >= text.len() {
            assert(groups(result@) + words_from(text@, start as int) =~= groups(result@));
            return result;
        }
        let end: usize = find_white(text, first);
        proof {
            lemma_skips(text@, first as int);
            lemma_skip_white_stops(text@, start as int);
        }
        let word: Vec<char> = subcharacters(text, first, end);
        let ghost before = result@;
        let ghost added = word@;
        result.push(word);
        assert(groups(result@) =~= groups(before).push(added));
        assert(groups(before).push(added) + words_from(text@, end as int) =~= groups(before) + (
        seq![added] + words_from(text@, end as int)));
        start = end;
    }
}

/// The lower-case hexadecimal digit of a value below sixteen.
pub open spec fn hex_digit(value: int) -> char {
    if value < 10 {
        (48 + value) as char
    } else {
        (87 + value) as char
    }
}

/// Two hexadecimal digits for each byte.
pub open spec fn hex_text(bytes: Seq<u8>) -> Seq<char>
    decreases bytes.len(),
{
    if bytes.len() == 0 {
        Seq::empty()
    } else {
        hex_text(bytes.drop_last()).push(hex_digit(bytes.last() as int / 16)).push(
            hex_digit(bytes.last() as int % 16),
        )
    }
}

pub open spec fn is_hex_digit(character: char) -> bool {
    '0' <= character <= '9' || 'a' <= character <= 'f'
}

/// Hexadecimal text has two digits for each byte, and nothing else.
pub proof fn lemma_hex_text_is_hex(bytes: Seq<u8>)
    ensures
        hex_text(bytes).len() == 2 * bytes.len(),
        forall|i: int| 0 <= i < hex_text(bytes).len() ==> is_hex_digit(#[trigger] hex_text(bytes)[i]),
    decreases bytes.len(),
{
    if bytes.len() > 0 {
        lemma_hex_text_is_hex(bytes.drop_last());
        let shorter = hex_text(bytes.drop_last());
        assert forall|i: int| 0 <= i < hex_text(bytes).len() implies is_hex_digit(
            #[trigger] hex_text(bytes)[i],
        ) by {
            if i < shorter.len() {
                assert(hex_text(bytes)[i] == shorter[i]);
            }
        }
    }
}

/// Different bytes have different hexadecimal texts.
pub proof fn lemma_hex_text_is_injective(first: Seq<u8>, second: Seq<u8>)
    requires
        hex_text(first) == hex_text(second),
    ensures
        first == second,
    decreases first.len(),
{
    lemma_hex_text_is_hex(first);
    lemma_hex_text_is_hex(second);
    if first.len() > 0 {
        let a = hex_text(first);
        let b = hex_text(second);
        assert(a[a.len() - 1] == b[b.len() - 1]);
        assert(a[a.len() - 2] == b[b.len() - 2]);
        assert(first.last() == second.last());
        assert(a.take(a.len() - 2) =~= hex_text(first.drop_last()));
        assert(b.take(b.len() - 2) =~= hex_text(second.drop_last()));
        lemma_hex_text_is_injective(first.drop_last(), second.drop_last());
        assert(first =~= first.drop_last().push(first.last()));
        assert(second =~= second.drop_last().push(second.last()));
    } else {
        assert(first =~= second);
    }
}

fn hex_character(value: u8) -> (character: char)
    requires
        value < 16,
    ensures
        character == hex_digit(value as int),
{
    if value < 10 {
        (48 + value) as char
    } else {
        (87 + value) as char
    }
}

/// Two hexadecimal digits for each byte.
pub fn hex(bytes: &[u8]) -> (text: String)
    ensures
        text@ == hex_text(bytes@),
{
    let mut text: String = String::new();
    let mut index: usize = 0;
    assert(bytes@.take(0) =~= Seq::<u8>::empty());
    while index < bytes.len()
        invariant
            index <= bytes@.len(),
            text@ == hex_text(bytes@.take(index as int)),
        decreases bytes@.len() - index,
    {
        text.push(hex_character(bytes[index] / 16));
        text.push(hex_character(bytes[index] % 16));
        index = index + 1;
        assert(bytes@.take(index as int).drop_last() =~= bytes@.take(index - 1));
    }
    assert(bytes@.take(index as int) =~= bytes@);
    text
}

/// The dictionary order of two texts, character by character.
pub open spec fn comes_before(left: Seq<char>, right: Seq<char>) -> bool
    decreases left.len(),
{
    if right.len() == 0 {
        false
    } else if left.len() == 0 {
        true
    } else if left[0] != right[0] {
        left[0] < right[0]
    } else {
        comes_before(left.drop_first(), right.drop_first())
    }
}

/// The value of a hexadecimal digit.
pub open spec fn hex_value(character: char) -> int {
    if '0' <= character <= '9' {
        character as int - '0' as int
    } else {
        character as int - 'a' as int + 10
    }
}

/// Each byte is read back from its two digits, the first of which counts sixteen times.
pub proof fn lemma_hex_text_reads_back(bytes: Seq<u8>, i: int)
    requires
        0 <= i < bytes.len(),
    ensures
        hex_text(bytes).len() == 2 * bytes.len(),
        hex_value(hex_text(bytes)[2 * i]) * 16 + hex_value(hex_text(bytes)[2 * i + 1]) == bytes[i],
    decreases bytes.len(),
{
    let front = bytes.drop_last();
    if front.len() > 0 && i < front.len() {
        lemma_hex_text_reads_back(front, i);
        assert(hex_text(bytes)[2 * i] == hex_text(front)[2 * i]);
        assert(hex_text(bytes)[2 * i + 1] == hex_text(front)[2 * i + 1]);
    } else {
        if front.len() > 0 {
            lemma_hex_text_reads_back(front, 0);
        }
        assert(hex_text(front).len() == 2 * front.len());
    }
}

/// The first character in which two texts differ decides their order, and a text comes before
/// every longer one that starts with it.
pub proof fn lemma_the_first_difference_decides(left: Seq<char>, right: Seq<char>, place: int)
    requires
        0 <= place <= left.len(),
        place <= right.len(),
        forall|i: int| 0 <= i < place ==> left[i] == right[i],
        place < left.len() && place < right.len() ==> left[place] != right[place],
    ensures
        place < left.len() && place < right.len() ==> (comes_before(left, right) <==> left[place]
            < right[place]),
        place == left.len() && place < right.len() ==> comes_before(left, right),
        place == right.len() ==> !comes_before(left, right),
    decreases place,
{
    if place > 0 {
        let l = left.drop_first();
        let r = right.drop_first();
        assert forall|i: int| 0 <= i < place - 1 implies l[i] == r[i] by {
            assert(left[i + 1] == right[i + 1]);
        }
        assert(left[0] == right[0]);
        lemma_the_first_difference_decides(l, r, place - 1);
    }
}

/// The dictionary order is a strict total order.
pub proof fn lemma_dictionary_order(left: Seq<char>, right: Seq<char>)
    ensures
        !comes_before(left, left),
        comes_before(left, right) ==> !comes_before(right, left),
        !comes_before(left, right) && !comes_before(right, left) ==> left == right,
    decreases left.len(),
{
    if left.len() > 0 {
        lemma_dictionary_order(left.drop_first(), left.drop_first());
    }
    if left.len() > 0 && right.len() > 0 {
        lemma_dictionary_order(left.drop_first(), right.drop_first());
        if left[0] == right[0] && !comes_before(left, right) && !comes_before(right, left) {
            assert(left =~= seq![left[0]] + left.drop_first());
            assert(right =~= seq![right[0]] + right.drop_first());
        }
    } else if left.len() == 0 && right.len() == 0 {
        assert(left =~= right);
    }
}

/// The dictionary order is transitive.
pub proof fn lemma_dictionary_order_transitive(a: Seq<char>, b: Seq<char>, c: Seq<char>)
    requires
        comes_before(a, b),
        comes_before(b, c),
    ensures
        comes_before(a, c),
    decreases a.len(),
{
    if a.len() > 0 && a[0] == b[0] && b[0] == c[0] {
        lemma_dictionary_order_transitive(a.drop_first(), b.drop_first(), c.drop_first());
    }
}

proof fn lemma_comes_before_from(left: Seq<char>, right: Seq<char>, count: int)
    requires
        0 <= count <= left.len(),
        count <= right.len(),
        forall|i: int| 0 <= i < count ==> left[i] == right[i],
    ensures
        comes_before(left, right) == comes_before(left.skip(count), right.skip(count)),
    decreases count,
{
    if count == 0 {
        assert(left.skip(0) =~= left);
        assert(right.skip(0) =~= right);
    } else {
        assert(left[0] == right[0]);
        let l = left.drop_first();
        let r = right.drop_first();
        assert forall|i: int| 0 <= i < count - 1 implies l[i] == r[i] by {
            assert(l[i] == left[i + 1] && r[i] == right[i + 1]);
        }
        lemma_comes_before_from(l, r, count - 1);
        assert(l.skip(count - 1) =~= left.skip(count));
        assert(r.skip(count - 1) =~= right.skip(count));
    }
}

/// Whether one text comes before another in dictionary order.
pub fn precedes(left: &[char], right: &[char]) -> (result: bool)
    ensures
        result == comes_before(left@, right@),
{
    let mut index: usize = 0;
    while index < left.len() && index < right.len()
        invariant
            index <= left@.len(),
            index <= right@.len(),
            forall|i: int| 0 <= i < index ==> left@[i] == right@[i],
        decreases left@.len() - index,
    {
        if left[index] != right[index] {
            proof {
                lemma_comes_before_from(left@, right@, index as int);
            }
            return left[index] < right[index];
        }
        index = index + 1;
    }
    proof {
        lemma_comes_before_from(left@, right@, index as int);
    }
    left.len() < right.len()
}

} // verus!
