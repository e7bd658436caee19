//! The process that controls a desktop session, and whether it still runs.

use vstd::prelude::*;

use crate::text::{
    characters, is_word, lemma_words_are_taken_apart, spaced, split_words, subcharacters, subtext,
    words,
};

verus! {

/// Why the record of a process cannot be read.
#[derive(Clone, Copy, Debug, PartialEq, Eq, Structural)]
pub enum StatError {
    Malformed,
    StartTimeMissing,
}

/// The field of a process record, counted behind the name, that holds the start time.
pub const START_TIME_FIELD: usize = 19;

/// The position of the last character `wanted` before `end`, or minus one.
pub open spec fn last_before(text: Seq<char>, wanted: char, end: int) -> int
    decreases end,
{
    if end <= 0 {
        -1
    } else if text[end - 1] == wanted {
        end - 1
    } else {
        last_before(text, wanted, end - 1)
    }
}

/// When the process of a record started. The name stands in parentheses and may hold some itself,
/// so the fields start behind the last one.
pub open spec fn start_time(stat: Seq<char>) -> Result<Seq<char>, StatError> {
    let close = last_before(stat, ')', stat.len() as int);
    let fields = words(stat.skip(close + 1));
    if close < 0 {
        Err(StatError::Malformed)
    } else if fields.len() <= START_TIME_FIELD {
        Err(StatError::StartTimeMissing)
    } else {
        Ok(fields[START_TIME_FIELD as int])
    }
}

/// The start time of a process is the twentieth field behind the last parenthesis, whatever the
/// name in the parentheses holds.
pub proof fn lemma_start_times_are_the_twentieth_field(name: Seq<char>, fields: Seq<Seq<char>>)
    requires
        forall|i: int| 0 <= i < fields.len() ==> is_word(#[trigger] fields[i]),
        !spaced(fields).contains(')'),
    ensures
        fields.len() >= 20 ==> start_time(name + seq![')'] + spaced(fields)) == Ok::<
            Seq<char>,
            StatError,
        >(fields[19]),
        fields.len() < 20 ==> start_time(name + seq![')'] + spaced(fields)) == Err::<
            Seq<char>,
            StatError,
        >(StatError::StartTimeMissing),
        start_time(spaced(fields)) == Err::<Seq<char>, StatError>(StatError::Malformed),
{
    let text = name + seq![')'] + spaced(fields);
    let behind = spaced(fields);
    lemma_words_are_taken_apart(fields);
    lemma_last_before(text, text.len() as int);
    let close = last_before(text, ')', text.len() as int);
    assert(text[name.len() as int] == ')');
    assert(close == name.len()) by {
        if close > name.len() {
            assert(behind[close - name.len() - 1] == ')');
        }
    }
    assert(text.skip(close + 1) =~= behind);
    lemma_last_before(behind, behind.len() as int);
    let none = last_before(behind, ')', behind.len() as int);
    if none >= 0 {
        assert(behind.contains(behind[none]));
    }
}

proof fn lemma_last_before(text: Seq<char>, end: int)
    requires
        0 <= end <= text.len(),
    ensures
        -1 <= last_before(text, ')', end) < end || end == 0,
        last_before(text, ')', end) >= 0 ==> text[last_before(text, ')', end)] == ')',
        forall|i: int| last_before(text, ')', end) < i < end ==> text[i] != ')',
        last_before(text, ')', end) >= -1,
    decreases end,
{
    if end > 0 && text[end - 1] != ')' {
        lemma_last_before(text, end - 1);
    }
}

/// Reads when the process of a record started.
pub fn parse_process_start_time(stat: &str) -> (result: Result<String, StatError>)
    ensures
        match result {
            Ok(time) => start_time(stat@) == Ok::<Seq<char>, StatError>(time@),
            Err(error) => start_time(stat@) == Err::<Seq<char>, StatError>(error),
        },
{
    let text: Vec<char> = characters(stat);
    let mut end: usize = text.len();
    while end > 0 && text[end - 1] != ')'
        invariant
            end <= text@.len(),
            text@ == stat@,
            last_before(stat@, ')', stat@.len() as int) == last_before(stat@, ')', end as int),
        decreases end,
    {
        end = end - 1;
    }
    if end == 0 {
        return Err(StatError::Malformed);
    }
    let rest: Vec<char> = subcharacters(text.as_slice(), end, text.len());
    assert(rest@ =~= stat@.skip(end as int));
    let fields: Vec<Vec<char>> = split_words(rest.as_slice());
    assert(fields@.len() == words(rest@).len());
    if fields.len() <= START_TIME_FIELD {
        return Err(StatError::StartTimeMissing);
    }
    assert(crate::text::groups(fields@)[START_TIME_FIELD as int]
        == fields@[START_TIME_FIELD as int]@);
    let time: String = subtext(
        fields[START_TIME_FIELD].as_slice(),
        0,
        fields[START_TIME_FIELD].len(),
    );
    assert(time@ =~= fields@[START_TIME_FIELD as int]@);
    Ok(time)
}

/// Whether a process can be watched as a controller: another one, and not the first of the
/// system.
pub fn is_other_process(controller: u32, own: u32) -> (result: bool)
    ensures
        result == (controller > 1 && controller != own),
{
    controller > 1 && controller != own
}

/// Why a process cannot be watched as the direct parent.
#[derive(Clone, Copy, Debug, PartialEq, Eq, Structural)]
pub enum ParentError {
    OutOfRange,
    NotTheParent,
}

/// Whether a process is the direct parent. Process numbers are 31 bits long.
pub fn check_parent(controller: u32, own: i32, parent: i32) -> (result: Result<i32, ParentError>)
    ensures
        result == if controller > i32::MAX {
            Err::<i32, ParentError>(ParentError::OutOfRange)
        } else if controller > 1 && controller != own && controller == parent {
            Ok(controller as i32)
        } else {
            Err(ParentError::NotTheParent)
        },
{
    if controller > i32::MAX as u32 {
        return Err(ParentError::OutOfRange);
    }
    let controller: i32 = controller as i32;
    if controller > 1 && controller != own && controller == parent {
        Ok(controller)
    } else {
        Err(ParentError::NotTheParent)
    }
}

/// Whether the controller still runs: a process with its number that started when it did.
pub fn controller_is_alive(expected: &String, current: &Option<String>) -> (alive: bool)
    ensures
        alive == match *current {
            Some(time) => time@ == expected@,
            None => false,
        },
{
    match current {
        Some(time) => time.eq(expected),
        None => false,
    }
}

} // verus!
