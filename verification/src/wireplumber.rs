//! What the audio session manager prints of the default output.

use vstd::prelude::*;

use crate::text::{
    characters, decimal, find_char, has_prefix, index_of_char, is_white_space, is_word,
    lemma_decimal_round_trips, lemma_index_of_char, lemma_texts_are_taken_apart,
    lemma_trimming_takes_white_space_off, lemma_words_are_taken_apart, parse_unsigned, spaced,
    spells, split_words, starts_with, subcharacters, subtext, trim, trimmed, unsigned_number, words,
};

verus! {

/// What stands behind "id " in the first line that starts so, apart from white space.
pub open spec fn id_line(output: Seq<char>) -> Option<Seq<char>>
    decreases output.len(),
{
    let end = index_of_char(output, '\n');
    let line = trimmed(output.take(end));
    if has_prefix(line, "id "@) {
        Some(line.skip(3))
    } else if 0 <= end < output.len() {
        id_line(output.skip(end + 1))
    } else {
        None
    }
}

/// The number of the default output.
pub open spec fn device_id(output: Seq<char>) -> Option<nat> {
    match id_line(output) {
        Some(rest) => unsigned_number(
            trimmed(rest.take(index_of_char(rest, ','))),
            u32::MAX as nat,
        ),
        None => None,
    }
}

fn find_id_line(output: &[char]) -> (rest: Option<Vec<char>>)
    ensures
        match rest {
            Some(rest) => id_line(output@) == Some(rest@),
            None => id_line(output@) is None,
        },
    decreases output@.len(),
{
    let end: usize = find_char(output, '\n');
    let raw: Vec<char> = subcharacters(output, 0, end);
    assert(raw@ =~= output@.take(end as int));
    let line: Vec<char> = trim(raw.as_slice());
    if starts_with(line.as_slice(), "id ") {
        proof {
            reveal_strlit("id ");
        }
        let rest: Vec<char> = subcharacters(line.as_slice(), 3, line.len());
        assert(rest@ =~= line@.skip(3));
        return Some(rest);
    }
    if end >= output.len() {
        return None;
    }
    let later: Vec<char> = subcharacters(output, end + 1, output.len());
    assert(later@ =~= output@.skip(end + 1));
    find_id_line(later.as_slice())
}

/// Reads the number of the default output from its description.
pub fn parse_wpctl_device_id(output: &str) -> (id: Option<u32>)
    ensures
        match id {
            Some(id) => device_id(output@) == Some(id as nat),
            None => device_id(output@) is None,
        },
{
    let text: Vec<char> = characters(output);
    match find_id_line(text.as_slice()) {
        None => None,
        Some(rest) => {
            let end: usize = find_char(rest.as_slice(), ',');
            let part: Vec<char> = subcharacters(rest.as_slice(), 0, end);
            assert(part@ =~= rest@.take(end as int));
            let digits: Vec<char> = trim(part.as_slice());
            match parse_unsigned(digits.as_slice(), u32::MAX as u64) {
                Some(id) => Some(id as u32),
                None => None,
            }
        },
    }
}

/// Why the volume of an output cannot be read.
#[derive(Clone, Copy, Debug, PartialEq, Eq, Structural)]
pub enum VolumeError {
    Unexpected,
    Omitted,
}

/// Whether a text holds another.
pub open spec fn holds(text: Seq<char>, part: Seq<char>) -> bool {
    exists|start: int|
        0 <= start <= text.len() - part.len() && #[trigger] text.subrange(start, start + part.len())
            == part
}

fn find_text(text: &[char], part: &str) -> (found: bool)
    ensures
        found == holds(text@, part@),
{
    let wanted: Vec<char> = characters(part);
    if text.len() < wanted.len() {
        return false;
    }
    let total: usize = text.len();
    let last: usize = total - wanted.len();
    let mut start: usize = 0;
    while start <= last
        invariant
            start <= last,
            total == text@.len(),
            last == total - wanted@.len(),
            wanted@ == part@,
            forall|i: int|
                0 <= i < start ==> #[trigger] text@.subrange(i, i + part@.len()) != part@,
        decreases last - start,
    {
        let piece: Vec<char> = subcharacters(text, start, start + wanted.len());
        if spells(piece.as_slice(), part) {
            assert(text@.subrange(start as int, start + part@.len()) == part@);
            return true;
        }
        if start == last {
            return false;
        }
        start = start + 1;
    }
    false
}

/// The volume as it is printed, and whether the output is muted.
pub open spec fn printed_volume(output: Seq<char>) -> Result<(Seq<char>, bool), VolumeError> {
    let parts = words(output);
    if parts.len() == 0 || parts[0] != "Volume:"@ {
        Err(VolumeError::Unexpected)
    } else if parts.len() == 1 {
        Err(VolumeError::Omitted)
    } else {
        Ok((parts[1], holds(output, "[MUTED]"@)))
    }
}

/// The number of the default output is read in the first line, between the word and the comma.
pub proof fn lemma_device_ids_are_read(id: u32, rest: Seq<char>, more: Seq<char>)
    requires
        !rest.contains('\n'),
    ensures
        device_id("id "@ + decimal(id as nat) + seq![','] + rest) == Some(id as nat),
        device_id("id "@ + decimal(id as nat) + seq![','] + rest + seq!['\n'] + more) == Some(
            id as nat,
        ),
{
    reveal_strlit("id ");
    let digits = decimal(id as nat);
    lemma_decimal_round_trips(id as nat);
    assert(crate::text::is_digit(digits[0]));
    let line = "id "@ + digits + seq![','] + rest;
    assert(!line.contains('\n')) by {
        if line.contains('\n') {
            let i = choose|i: int| 0 <= i < line.len() && line[i] == '\n';
            if 3 <= i < 3 + digits.len() {
                assert(crate::text::is_digit(digits[i - 3]));
            } else if i > 3 + digits.len() {
                assert(rest[i - 4 - digits.len()] == '\n');
            }
        }
    }
    lemma_texts_are_taken_apart(line, '\n', more);
    lemma_index_of_char(line, '\n');
    assert(line.take(line.len() as int) =~= line);
    let (start, end) = lemma_trimming_takes_white_space_off(line);
    assert(!is_white_space(line[0]));
    assert(line[3 + digits.len() as int] == ',');
    assert(start == 0);
    assert(end > 3 + digits.len()) by {
        if end <= 3 + digits.len() {
            assert(is_white_space(line[3 + digits.len() as int]));
        }
    }
    let shown = trimmed(line);
    assert(shown.take(3) =~= "id "@);
    let behind = shown.skip(3);
    let kept = rest.take(end - 4 - digits.len());
    assert(behind =~= digits + seq![','] + kept);
    assert(!digits.contains(',')) by {
        if digits.contains(',') {
            let i = choose|i: int| 0 <= i < digits.len() && digits[i] == ',';
            assert(crate::text::is_digit(digits[i]));
        }
    }
    lemma_texts_are_taken_apart(digits, ',', kept);
    assert(behind.take(index_of_char(behind, ',')) == digits);
    let (first, last) = lemma_trimming_takes_white_space_off(digits);
    if first > 0 {
        assert(is_white_space(digits[0]));
    }
    if last < digits.len() {
        assert(is_white_space(digits[last]));
        assert(crate::text::is_digit(digits[last]));
    }
    assert(trimmed(digits) =~= digits);
}

/// The volume is the second word behind its label, and the output is muted where the text says so.
pub proof fn lemma_volumes_are_read(volume: Seq<char>)
    requires
        is_word(volume),
    ensures
        printed_volume(spaced(seq!["Volume:"@, volume])) matches Ok((text, muted)) && text == volume
            && (muted <==> holds(spaced(seq!["Volume:"@, volume]), "[MUTED]"@)),
        printed_volume(spaced(seq!["Volume:"@, volume, "[MUTED]"@])) == Ok::<
            (Seq<char>, bool),
            VolumeError,
        >((volume, true)),
        printed_volume(spaced(seq!["Volume:"@])) == Err::<(Seq<char>, bool), VolumeError>(
            VolumeError::Omitted,
        ),
        printed_volume(spaced(seq![volume])) == Err::<(Seq<char>, bool), VolumeError>(
            if volume == "Volume:"@ {
                VolumeError::Omitted
            } else {
                VolumeError::Unexpected
            },
        ),
{
    reveal_strlit("Volume:");
    reveal_strlit("[MUTED]");
    let label = "Volume:"@;
    let mark = "[MUTED]"@;
    assert(is_word(label)) by {
        assert forall|i: int| 0 <= i < label.len() implies !is_white_space(#[trigger] label[i]) by {}
    }
    assert(is_word(mark)) by {
        assert forall|i: int| 0 <= i < mark.len() implies !is_white_space(#[trigger] mark[i]) by {}
    }
    let two = seq![label, volume];
    let three = seq![label, volume, mark];
    assert forall|i: int| 0 <= i < two.len() implies is_word(#[trigger] two[i]) by {}
    assert forall|i: int| 0 <= i < three.len() implies is_word(#[trigger] three[i]) by {}
    lemma_words_are_taken_apart(two);
    lemma_words_are_taken_apart(three);
    lemma_words_are_taken_apart(seq![label]);
    lemma_words_are_taken_apart(seq![volume]);
    let text = spaced(three);
    assert(three.drop_first() =~= seq![volume, mark]);
    assert(seq![volume, mark].drop_first() =~= seq![mark]);
    assert(spaced(seq![mark]) == mark);
    assert(spaced(seq![volume, mark]) == volume + seq![' '] + mark);
    assert(text == label + seq![' '] + (volume + seq![' '] + mark));
    let start = text.len() - mark.len();
    assert(text.subrange(start, start + mark.len()) =~= mark);
}

/// Reads the volume of an output, as text, and whether it is muted.
pub fn parse_wpctl_volume(output: &str) -> (result: Result<(String, bool), VolumeError>)
    ensures
        match result {
            Ok((volume, muted)) => printed_volume(output@) == Ok::<(Seq<char>, bool), VolumeError>(
                (volume@, muted),
            ),
            Err(error) => printed_volume(output@) == Err::<(Seq<char>, bool), VolumeError>(error),
        },
{
    let text: Vec<char> = characters(output);
    let parts: Vec<Vec<char>> = split_words(text.as_slice());
    let ghost expected = words(output@);
    assert(parts@.len() == expected.len());
    if parts.len() == 0 {
        return Err(VolumeError::Unexpected);
    }
    assert(crate::text::groups(parts@)[0] == parts@[0]@);
    if !spells(parts[0].as_slice(), "Volume:") {
        return Err(VolumeError::Unexpected);
    }
    if parts.len() == 1 {
        return Err(VolumeError::Omitted);
    }
    assert(crate::text::groups(parts@)[1] == parts@[1]@);
    let volume: String = subtext(parts[1].as_slice(), 0, parts[1].len());
    assert(volume@ =~= parts@[1]@);
    Ok((volume, find_text(text.as_slice(), "[MUTED]")))
}

} // verus!
