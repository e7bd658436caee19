//! The HTTP server that hands one local file to a receiver: requests, byte ranges and responses.

use vstd::prelude::*;
use vstd::utf8::{decode_utf8, valid_utf8};

use crate::text::{
    all_digits, ascii_lowercase, ascii_uppercase, characters, decimal, digits_value, find_char,
    groups, has_prefix, index_of_char, is_word, lemma_decimal_round_trips, lemma_index_of_char,
    lemma_texts_are_taken_apart, lemma_words_are_taken_apart, parse_digits, push_decimal, spaced,
    spells_ignoring_case, split_once, split_words, spells, starts_with, subcharacters, text_of,
    to_ascii_uppercase, trim, trimmed, utf8_text, words,
};

verus! {

pub const MAX_REQUEST_HEADER_BYTES: usize = 16_384;

pub const TRANSFER_BUFFER_BYTES: usize = 65_536;

/// The bytes that one read of a request asks for at most.
pub const REQUEST_CHUNK_BYTES: usize = 1_024;

/// What the server has done so far.
#[derive(Clone, Copy, Debug, PartialEq, Eq, Structural)]
pub struct MediaServerStats {
    pub requests: u64,
    pub full_responses: u64,
    pub range_responses: u64,
    pub bytes_sent: u64,
    pub failures: u64,
}

impl Default for MediaServerStats {
    fn default() -> (stats: Self)
        ensures
            stats == (MediaServerStats {
                requests: 0,
                full_responses: 0,
                range_responses: 0,
                bytes_sent: 0,
                failures: 0,
            }),
    {
        MediaServerStats {
            requests: 0,
            full_responses: 0,
            range_responses: 0,
            bytes_sent: 0,
            failures: 0,
        }
    }
}

/// The counters behind the statistics. They wrap around when they are full.
#[derive(Clone, Copy, Debug, PartialEq, Eq, Structural)]
pub struct MediaServerCounters {
    pub requests: u64,
    pub file_requests: u64,
    pub full_responses: u64,
    pub range_responses: u64,
    pub bytes_sent: u64,
    pub failures: u64,
}

impl MediaServerCounters {
    pub fn new() -> (counters: Self)
        ensures
            counters == (MediaServerCounters {
                requests: 0,
                file_requests: 0,
                full_responses: 0,
                range_responses: 0,
                bytes_sent: 0,
                failures: 0,
            }),
    {
        MediaServerCounters {
            requests: 0,
            file_requests: 0,
            full_responses: 0,
            range_responses: 0,
            bytes_sent: 0,
            failures: 0,
        }
    }

    pub fn snapshot(&self) -> (stats: MediaServerStats)
        ensures
            stats == (MediaServerStats {
                requests: self.requests,
                full_responses: self.full_responses,
                range_responses: self.range_responses,
                bytes_sent: self.bytes_sent,
                failures: self.failures,
            }),
    {
        MediaServerStats {
            requests: self.requests,
            full_responses: self.full_responses,
            range_responses: self.range_responses,
            bytes_sent: self.bytes_sent,
            failures: self.failures,
        }
    }

    /// Whether a receiver has asked for the file.
    pub fn received_request(&self) -> (received: bool)
        ensures
            received == (self.file_requests > 0),
    {
        self.file_requests > 0
    }

    pub fn count_request(&mut self)
        ensures
            *final(self) == (MediaServerCounters {
                requests: old(self).requests.wrapping_add(1),
                ..*old(self)
            }),
    {
        self.requests = self.requests.wrapping_add(1);
    }

    pub fn count_failure(&mut self)
        ensures
            *final(self) == (MediaServerCounters {
                failures: old(self).failures.wrapping_add(1),
                ..*old(self)
            }),
    {
        self.failures = self.failures.wrapping_add(1);
    }
}

/// The kind of an input or output error, as far as the server tells kinds apart.
#[derive(Clone, Copy, Debug, PartialEq, Eq, Structural)]
pub enum IoErrorKind {
    BrokenPipe,
    ConnectionAborted,
    ConnectionReset,
    TimedOut,
    UnexpectedEof,
    Other,
}

/// One link of the chain of causes of a failed request.
#[derive(Clone, Copy, Debug, PartialEq, Eq, Structural)]
pub enum FailureCause {
    Io(IoErrorKind),
    Other,
}

/// A cause that says that the receiver hung up.
pub open spec fn hung_up(cause: FailureCause) -> bool {
    ||| cause == FailureCause::Io(IoErrorKind::BrokenPipe)
    ||| cause == FailureCause::Io(IoErrorKind::ConnectionAborted)
    ||| cause == FailureCause::Io(IoErrorKind::ConnectionReset)
}

/// Whether a request failed because the receiver hung up, as receivers do when they seek.
pub fn is_expected_client_disconnect(chain: &[FailureCause]) -> (expected: bool)
    ensures
        expected == exists|i: int| 0 <= i < chain@.len() && hung_up(#[trigger] chain@[i]),
{
    let mut index: usize = 0;
    while index < chain.len()
        invariant
            index <= chain@.len(),
            forall|i: int| 0 <= i < index ==> !hung_up(#[trigger] chain@[i]),
        decreases chain@.len() - index,
    {
        let expected: bool = match chain[index] {
            FailureCause::Io(IoErrorKind::BrokenPipe) => true,
            FailureCause::Io(IoErrorKind::ConnectionAborted) => true,
            FailureCause::Io(IoErrorKind::ConnectionReset) => true,
            _ => false,
        };
        if expected {
            assert(hung_up(chain@[index as int]));
            return true;
        }
        index = index + 1;
    }
    false
}

/// The part of a file that a request asks for.
#[derive(Clone, Copy, Debug, PartialEq, Eq, Structural)]
pub enum ResolvedRange {
    Full,
    /// From `start` to `end`, both included.
    Partial { start: u64, end: u64 },
}

/// Why a range cannot be served.
#[derive(Clone, Copy, Debug, PartialEq, Eq)]
pub enum RangeError {
    Malformed(&'static str),
    Unsatisfiable,
}

/// Why a range cannot be served.
pub enum RangeProblem {
    Malformed(Seq<char>),
    Unsatisfiable,
}

impl View for RangeError {
    type V = RangeProblem;

    open spec fn view(&self) -> RangeProblem {
        match self {
            RangeError::Malformed(reason) => RangeProblem::Malformed(reason@),
            RangeError::Unsatisfiable => RangeProblem::Unsatisfiable,
        }
    }
}

/// The number in a range: digits only, and not too many.
pub open spec fn range_number(text: Seq<char>) -> Result<u64, RangeProblem> {
    if text.len() == 0 || !all_digits(text) {
        Err(RangeProblem::Malformed("byte range contains a non-number"@))
    } else if digits_value(text) > u64::MAX {
        Err(RangeProblem::Malformed("byte range number is too large"@))
    } else {
        Ok(digits_value(text) as u64)
    }
}

/// The part that `start-end` names of a file of `length` bytes, where `length` is not zero.
pub open spec fn range_between(start: Seq<char>, end: Seq<char>, length: u64) -> Result<
    ResolvedRange,
    RangeProblem,
> {
    if start.len() == 0 {
        match range_number(end) {
            Err(error) => Err(error),
            Ok(suffix) => if suffix == 0 {
                Err(RangeProblem::Unsatisfiable)
            } else {
                Ok(
                    ResolvedRange::Partial {
                        start: if suffix < length {
                            (length - suffix) as u64
                        } else {
                            0
                        },
                        end: (length - 1) as u64,
                    },
                )
            },
        }
    } else {
        match range_number(start) {
            Err(error) => Err(error),
            Ok(first) => if first >= length {
                Err(RangeProblem::Unsatisfiable)
            } else if end.len() == 0 {
                Ok(ResolvedRange::Partial { start: first, end: (length - 1) as u64 })
            } else {
                match range_number(end) {
                    Err(error) => Err(error),
                    Ok(last) => {
                        let last = if last < length {
                            last
                        } else {
                            (length - 1) as u64
                        };
                        if last < first {
                            Err(RangeProblem::Unsatisfiable)
                        } else {
                            Ok(ResolvedRange::Partial { start: first, end: last })
                        }
                    },
                }
            },
        }
    }
}

/// The part of a file of `length` bytes that a Range header asks for. Several ranges at once are
/// answered with the whole file.
pub open spec fn range_for(header: Option<Seq<char>>, length: u64) -> Result<
    ResolvedRange,
    RangeProblem,
> {
    match header {
        None => Ok(ResolvedRange::Full),
        Some(header) => match split_once(header, '=') {
            None => Err(RangeProblem::Malformed("byte range is missing '='"@)),
            Some((unit, specification)) => if ascii_lowercase(unit) != ascii_lowercase("bytes"@) {
                Err(RangeProblem::Malformed("only byte ranges are supported"@))
            } else if specification.contains(',') {
                Ok(ResolvedRange::Full)
            } else {
                match split_once(specification, '-') {
                    None => Err(RangeProblem::Malformed("byte range is missing '-'"@)),
                    Some((start, end)) => if length == 0 {
                        Err(RangeProblem::Unsatisfiable)
                    } else {
                        range_between(start, end, length)
                    },
                }
            },
        },
    }
}

/// Every part that is served lies inside the file, and holds at least one byte.
pub proof fn lemma_ranges_lie_inside_the_file(header: Option<Seq<char>>, length: u64)
    ensures
        range_for(header, length) matches Ok(ResolvedRange::Partial { start, end }) ==> start <= end
            < length,
{
}

proof fn lemma_range_is_taken_apart(start: Seq<char>, end: Seq<char>)
    requires
        all_digits(start),
        all_digits(end),
    ensures
        forall|length: u64|
            length > 0 ==> #[trigger] range_for(
                Some("bytes="@ + start + seq!['-'] + end),
                length,
            ) == range_between(start, end, length),
{
    reveal_strlit("bytes=");
    reveal_strlit("bytes");
    let specification = start + seq!['-'] + end;
    let header = "bytes="@ + start + seq!['-'] + end;
    let unit = "bytes"@;
    assert(header =~= unit + seq!['='] + specification);
    assert(!unit.contains('=')) by {
        assert forall|i: int| 0 <= i < unit.len() implies unit[i] != '=' by {}
    }
    lemma_texts_are_taken_apart(unit, '=', specification);
    assert(!start.contains('-')) by {
        if start.contains('-') {
            let i = choose|i: int| 0 <= i < start.len() && start[i] == '-';
            assert(crate::text::is_digit(start[i]));
        }
    }
    lemma_texts_are_taken_apart(start, '-', end);
    assert(!specification.contains(',')) by {
        if specification.contains(',') {
            let i = choose|i: int| 0 <= i < specification.len() && specification[i] == ',';
            if i < start.len() {
                assert(crate::text::is_digit(start[i]));
            } else if i > start.len() {
                assert(crate::text::is_digit(end[i - start.len() - 1]));
            }
        }
    }
}

/// A range that names its first and its last byte is served from the one to the other, or to the
/// end of the file where that comes first.
pub proof fn lemma_ranges_name_their_bytes(first: u64, last: u64, length: u64)
    ensures
        ({
            let range = range_for(
                Some("bytes="@ + decimal(first as nat) + seq!['-'] + decimal(last as nat)),
                length,
            );
            &&& first < length && first <= last ==> range == Ok::<ResolvedRange, RangeProblem>(
                ResolvedRange::Partial {
                    start: first,
                    end: if last < length {
                        last
                    } else {
                        (length - 1) as u64
                    },
                },
            )
            &&& first >= length || last < first ==> range == Err::<ResolvedRange, RangeProblem>(
                RangeProblem::Unsatisfiable,
            )
        }),
{
    let start = decimal(first as nat);
    let end = decimal(last as nat);
    lemma_decimal_round_trips(first as nat);
    lemma_decimal_round_trips(last as nat);
    lemma_range_is_taken_apart(start, end);
    if length == 0 {
        lemma_empty_files_have_no_ranges(start, end);
    }
}

/// A range without a last byte is served to the end of the file.
pub proof fn lemma_open_ranges_reach_the_end(first: u64, length: u64)
    ensures
        ({
            let range = range_for(
                Some("bytes="@ + decimal(first as nat) + seq!['-'] + Seq::empty()),
                length,
            );
            &&& first < length ==> range == Ok::<ResolvedRange, RangeProblem>(
                ResolvedRange::Partial { start: first, end: (length - 1) as u64 },
            )
            &&& first >= length ==> range == Err::<ResolvedRange, RangeProblem>(
                RangeProblem::Unsatisfiable,
            )
        }),
{
    let start = decimal(first as nat);
    let end = Seq::<char>::empty();
    lemma_decimal_round_trips(first as nat);
    lemma_range_is_taken_apart(start, end);
    if length == 0 {
        lemma_empty_files_have_no_ranges(start, end);
    }
}

/// A range without a first byte is as many of the last bytes as it names, or all of the file.
pub proof fn lemma_suffix_ranges_count_from_the_end(count: u64, length: u64)
    ensures
        ({
            let range = range_for(
                Some("bytes="@ + Seq::empty() + seq!['-'] + decimal(count as nat)),
                length,
            );
            &&& 0 < count && 0 < length ==> (range matches Ok(ResolvedRange::Partial { start, end })
                && end == length - 1 && end + 1 - start == if count < length {
                count as int
            } else {
                length as int
            })
            &&& count == 0 || length == 0 ==> range == Err::<ResolvedRange, RangeProblem>(
                RangeProblem::Unsatisfiable,
            )
        }),
{
    let start = Seq::<char>::empty();
    let end = decimal(count as nat);
    lemma_decimal_round_trips(count as nat);
    lemma_range_is_taken_apart(start, end);
    if length == 0 {
        lemma_empty_files_have_no_ranges(start, end);
    }
}

proof fn lemma_empty_files_have_no_ranges(start: Seq<char>, end: Seq<char>)
    requires
        all_digits(start),
        all_digits(end),
    ensures
        range_for(Some("bytes="@ + start + seq!['-'] + end), 0) == Err::<
            ResolvedRange,
            RangeProblem,
        >(RangeProblem::Unsatisfiable),
{
    reveal_strlit("bytes=");
    reveal_strlit("bytes");
    let specification = start + seq!['-'] + end;
    let header = "bytes="@ + start + seq!['-'] + end;
    let unit = "bytes"@;
    assert(header =~= unit + seq!['='] + specification);
    assert(!unit.contains('=')) by {
        assert forall|i: int| 0 <= i < unit.len() implies unit[i] != '=' by {}
    }
    lemma_texts_are_taken_apart(unit, '=', specification);
    assert(!start.contains('-')) by {
        if start.contains('-') {
            let i = choose|i: int| 0 <= i < start.len() && start[i] == '-';
            assert(crate::text::is_digit(start[i]));
        }
    }
    lemma_texts_are_taken_apart(start, '-', end);
    assert(!specification.contains(',')) by {
        if specification.contains(',') {
            let i = choose|i: int| 0 <= i < specification.len() && specification[i] == ',';
            if i < start.len() {
                assert(crate::text::is_digit(start[i]));
            } else if i > start.len() {
                assert(crate::text::is_digit(end[i - start.len() - 1]));
            }
        }
    }
}

/// A request without a range, or with several, is for the whole file.
pub proof fn lemma_other_requests_are_for_the_whole_file(unit: Seq<char>, ranges: Seq<char>, length: u64)
    requires
        ascii_lowercase(unit) == ascii_lowercase("bytes"@),
        !unit.contains('='),
        ranges.contains(','),
    ensures
        range_for(None, length) == Ok::<ResolvedRange, RangeProblem>(ResolvedRange::Full),
        range_for(Some(unit + seq!['='] + ranges), length) == Ok::<ResolvedRange, RangeProblem>(
            ResolvedRange::Full,
        ),
{
    lemma_texts_are_taken_apart(unit, '=', ranges);
}

/// Reads a number of a byte range.
pub fn parse_range_number(value: &[char], start: usize, end: usize) -> (result: Result<u64, RangeError>)
    requires
        start <= end <= value@.len(),
    ensures
        match (result, range_number(value@.subrange(start as int, end as int))) {
            (Ok(number), Ok(expected)) => number == expected,
            (Err(error), Err(expected)) => error@ == expected,
            _ => false,
        },
{
    let ghost part = value@.subrange(start as int, end as int);
    let mut index: usize = start;
    while index < end
        invariant
            start <= index <= end <= value@.len(),
            part == value@.subrange(start as int, end as int),
            forall|i: int| 0 <= i < index - start ==> crate::text::is_digit(#[trigger] part[i]),
        decreases end - index,
    {
        if !('0' <= value[index] && value[index] <= '9') {
            assert(!crate::text::is_digit(part[index - start]));
            return Err(RangeError::Malformed("byte range contains a non-number"));
        }
        index = index + 1;
    }
    if start == end {
        return Err(RangeError::Malformed("byte range contains a non-number"));
    }
    match parse_digits(value, start, end, u64::MAX) {
        Some(number) => Ok(number),
        None => Err(RangeError::Malformed("byte range number is too large")),
    }
}

/// The part of a file that a Range header asks for.
pub fn resolve_range(header: Option<&str>, length: u64) -> (result: Result<ResolvedRange, RangeError>)
    ensures
        match (
            result,
            range_for(
                match header {
                    Some(header) => Some(header@),
                    None => None,
                },
                length,
            ),
        ) {
            (Ok(range), Ok(expected)) => range == expected,
            (Err(error), Err(expected)) => error@ == expected,
            _ => false,
        },
{
    let header: Vec<char> = match header {
        Some(header) => characters(header),
        None => {
            return Ok(ResolvedRange::Full);
        },
    };
    let equals: usize = find_char(header.as_slice(), '=');
    if equals >= header.len() {
        return Err(RangeError::Malformed("byte range is missing '='"));
    }
    assert(header@.subrange(0, equals as int) =~= header@.take(equals as int));
    if !spells_ignoring_case(header.as_slice(), 0, equals, "bytes") {
        return Err(RangeError::Malformed("only byte ranges are supported"));
    }
    let specification: Vec<char> = subcharacters(header.as_slice(), equals + 1, header.len());
    assert(specification@ =~= header@.skip(equals + 1));
    proof {
        lemma_index_of_char(specification@, ',');
    }
    if find_char(specification.as_slice(), ',') < specification.len() {
        return Ok(ResolvedRange::Full);
    }
    let dash: usize = find_char(specification.as_slice(), '-');
    if dash >= specification.len() {
        return Err(RangeError::Malformed("byte range is missing '-'"));
    }
    if length == 0 {
        return Err(RangeError::Unsatisfiable);
    }
    let ghost first = specification@.take(dash as int);
    let ghost second = specification@.skip(dash + 1);
    assert(specification@.subrange(0, dash as int) =~= first);
    assert(specification@.subrange(dash + 1, specification@.len() as int) =~= second);
    if dash == 0 {
        let suffix: u64 = match parse_range_number(
            specification.as_slice(),
            dash + 1,
            specification.len(),
        ) {
            Ok(suffix) => suffix,
            Err(error) => {
                return Err(error);
            },
        };
        if suffix == 0 {
            return Err(RangeError::Unsatisfiable);
        }
        return Ok(
            ResolvedRange::Partial { start: length.saturating_sub(suffix), end: length - 1 },
        );
    }
    let start: u64 = match parse_range_number(specification.as_slice(), 0, dash) {
        Ok(start) => start,
        Err(error) => {
            return Err(error);
        },
    };
    if start >= length {
        return Err(RangeError::Unsatisfiable);
    }
    let end: u64 = if dash + 1 == specification.len() {
        length - 1
    } else {
        match parse_range_number(specification.as_slice(), dash + 1, specification.len()) {
            Ok(end) => if end < length {
                end
            } else {
                length - 1
            },
            Err(error) => {
                return Err(error);
            },
        }
    };
    if end < start {
        return Err(RangeError::Unsatisfiable);
    }
    Ok(ResolvedRange::Partial { start, end })
}

/// Why a request was refused.
#[derive(Clone, Copy, Debug, PartialEq, Eq, Structural)]
pub enum RequestError {
    HeadersTooLong,
    ClosedEarly,
    NotUtf8,
    MissingMethod,
    MissingTarget,
    MissingVersion,
    MalformedRequestLine,
    MalformedHeader,
    MultipleRanges,
}

/// What a request asks for.
#[derive(Debug)]
pub struct HttpRequest {
    pub method: String,
    pub path: String,
    pub range: Option<String>,
}

/// What a request asks for.
#[verifier::ext_equal]
pub struct RequestView {
    pub method: Seq<char>,
    pub path: Seq<char>,
    pub range: Option<Seq<char>>,
}

impl View for HttpRequest {
    type V = RequestView;

    open spec fn view(&self) -> RequestView {
        RequestView {
            method: self.method@,
            path: self.path@,
            range: match self.range {
                Some(range) => Some(range@),
                None => None,
            },
        }
    }
}

/// Whether an empty line ends the headers somewhere in these bytes.
pub open spec fn headers_complete(raw: Seq<u8>) -> bool {
    exists|i: int| #[trigger] header_end_at(raw, i)
}

/// Whether the headers end at this position.
pub open spec fn header_end_at(raw: Seq<u8>, i: int) -> bool {
    0 <= i && i + 4 <= raw.len() && raw[i] == 13 && raw[i + 1] == 10 && raw[i + 2] == 13 && raw[i
        + 3] == 10
}

/// The position of the first line break from `start` on, or the length where there is none.
pub open spec fn line_break_from(text: Seq<char>, start: int) -> int
    decreases text.len() - start,
{
    if start + 1 >= text.len() {
        text.len() as int
    } else if text[start] == '\r' && text[start + 1] == '\n' {
        start
    } else {
        line_break_from(text, start + 1)
    }
}

proof fn lemma_line_break(text: Seq<char>, start: int)
    requires
        0 <= start <= text.len(),
    ensures
        start <= line_break_from(text, start) <= text.len(),
        line_break_from(text, start) < text.len() ==> line_break_from(text, start) + 2 <= text.len(),
    decreases text.len() - start,
{
    if start + 1 < text.len() {
        lemma_line_break(text, start + 1);
    }
}

/// The lines of a text, from `start` on.
pub open spec fn lines_from(text: Seq<char>, start: int) -> Seq<Seq<char>>
    decreases text.len() - start,
    via lines_from_decreases
{
    let end = line_break_from(text, start);
    if start < 0 || end >= text.len() {
        seq![text.skip(start)]
    } else {
        seq![text.subrange(start, end)] + lines_from(text, end + 2)
    }
}

#[via_fn]
proof fn lines_from_decreases(text: Seq<char>, start: int) {
    if 0 <= start <= text.len() {
        lemma_line_break(text, start);
    }
}

/// The Range header among the header lines from `index` on, up to the first empty line, where
/// `found` stands for one that came before.
pub open spec fn range_header(lines: Seq<Seq<char>>, index: int, found: Option<Seq<char>>) -> Result<
    Option<Seq<char>>,
    RequestError,
>
    decreases lines.len() - index,
{
    if index >= lines.len() || lines[index].len() == 0 {
        Ok(found)
    } else {
        match split_once(lines[index], ':') {
            None => Err(RequestError::MalformedHeader),
            Some((name, value)) => if ascii_lowercase(name) != ascii_lowercase("range"@) {
                range_header(lines, index + 1, found)
            } else if found is Some {
                Err(RequestError::MultipleRanges)
            } else {
                range_header(lines, index + 1, Some(trimmed(value)))
            },
        }
    }
}

/// The request that a text spells.
pub open spec fn request_in(text: Seq<char>) -> Result<RequestView, RequestError> {
    let lines = lines_from(text, 0);
    let parts = words(lines[0]);
    if parts.len() < 1 {
        Err(RequestError::MissingMethod)
    } else if parts.len() < 2 {
        Err(RequestError::MissingTarget)
    } else if parts.len() < 3 {
        Err(RequestError::MissingVersion)
    } else if parts.len() > 3 || !has_prefix(parts[2], "HTTP/1."@) {
        Err(RequestError::MalformedRequestLine)
    } else {
        match range_header(lines, 1, None) {
            Err(error) => Err(error),
            Ok(range) => Ok(
                RequestView { method: ascii_uppercase(parts[0]), path: parts[1], range },
            ),
        }
    }
}

/// The request that these bytes spell.
pub open spec fn request_of(raw: Seq<u8>) -> Result<RequestView, RequestError> {
    if valid_utf8(raw) {
        request_in(decode_utf8(raw))
    } else {
        Err(RequestError::NotUtf8)
    }
}

/// The headers are complete once an empty line has come, whatever follows it, and not before.
pub proof fn lemma_headers_end_with_an_empty_line(before: Seq<u8>, after: Seq<u8>)
    ensures
        headers_complete(before + seq![13u8, 10u8, 13u8, 10u8] + after),
        headers_complete(before) ==> headers_complete(before + after),
        headers_complete(before) ==> exists|i: int|
            0 <= i <= before.len() - 4 && #[trigger] before.subrange(i, i + 4) == seq![
                13u8,
                10u8,
                13u8,
                10u8,
            ],
{
    assert(header_end_at(before + seq![13u8, 10u8, 13u8, 10u8] + after, before.len() as int));
    if headers_complete(before) {
        let i = choose|i: int| #[trigger] header_end_at(before, i);
        assert(header_end_at(before + after, i));
        assert(before.subrange(i, i + 4) =~= seq![13u8, 10u8, 13u8, 10u8]);
    }
}

/// A request that was written as UTF-8 is read by its text.
pub proof fn lemma_requests_are_read_as_text(text: Seq<char>)
    ensures
        request_of(vstd::utf8::encode_utf8(text)) == request_in(text),
{
    broadcast use vstd::utf8::encode_utf8_valid_utf8, vstd::utf8::encode_utf8_decode_utf8;
}

/// Lines with a line break between two of them.
pub open spec fn broken(lines: Seq<Seq<char>>) -> Seq<char>
    decreases lines.len(),
{
    if lines.len() == 0 {
        Seq::empty()
    } else if lines.len() == 1 {
        lines[0]
    } else {
        lines[0] + seq!['\r', '\n'] + broken(lines.drop_first())
    }
}

/// A text is taken apart at its line breaks, all of them and nowhere else: the lines put together
/// again are the text, and none of them has a line break in it.
pub proof fn lemma_lines_are_taken_apart(text: Seq<char>, start: int)
    requires
        0 <= start <= text.len(),
    ensures
        lines_from(text, start).len() > 0,
        broken(lines_from(text, start)) == text.skip(start),
        forall|k: int, i: int|
            #![trigger lines_from(text, start)[k][i]]
            0 <= k < lines_from(text, start).len() && 0 <= i < lines_from(text, start)[k].len() - 1
                ==> !(lines_from(text, start)[k][i] == '\r' && lines_from(text, start)[k][i + 1]
                == '\n'),
    decreases text.len() - start,
{
    let end = line_break_from(text, start);
    let lines = lines_from(text, start);
    lemma_line_break(text, start);
    lemma_line_has_no_break(text, start);
    if end >= text.len() {
        assert forall|k: int, i: int|
            #![trigger lines[k][i]]
            0 <= k < lines.len() && 0 <= i < lines[k].len() - 1 implies !(lines[k][i] == '\r'
            && lines[k][i + 1] == '\n') by {
            assert(lines[k][i] == text[start + i]);
            assert(lines[k][i + 1] == text[start + i + 1]);
        }
    } else {
        let rest = lines_from(text, end + 2);
        lemma_lines_are_taken_apart(text, end + 2);
        let first = text.subrange(start, end);
        assert(lines == seq![first] + rest);
        assert(lines.drop_first() =~= rest);
        assert(broken(lines) =~= text.skip(start)) by {
            assert(text.skip(start) =~= first + seq!['\r', '\n'] + text.skip(end + 2));
        }
        assert forall|k: int, i: int|
            #![trigger lines[k][i]]
            0 <= k < lines.len() && 0 <= i < lines[k].len() - 1 implies !(lines[k][i] == '\r'
            && lines[k][i + 1] == '\n') by {
            if k == 0 {
                assert(lines[k][i] == text[start + i]);
                assert(lines[k][i + 1] == text[start + i + 1]);
            } else {
                assert(lines[k] == rest[k - 1]);
                assert(!(rest[k - 1][i] == '\r' && rest[k - 1][i + 1] == '\n'));
            }
        }
    }
}

proof fn lemma_line_has_no_break(text: Seq<char>, start: int)
    requires
        0 <= start <= text.len(),
    ensures
        forall|i: int|
            start <= i < line_break_from(text, start) && i + 1 < text.len() ==> !(#[trigger] text[i]
                == '\r' && text[i + 1] == '\n'),
        line_break_from(text, start) < text.len() ==> text[line_break_from(text, start)] == '\r'
            && text[line_break_from(text, start) + 1] == '\n',
    decreases text.len() - start,
{
    if start + 1 < text.len() && !(text[start] == '\r' && text[start + 1] == '\n') {
        lemma_line_has_no_break(text, start + 1);
    }
}

/// A request is read by its lines: the first holds the method, in whatever case, the target and
/// the version, and a Range header is read by its name, in whatever case. Headers of other names
/// change nothing.
pub proof fn lemma_requests_are_read_by_their_lines(
    text: Seq<char>,
    method: Seq<char>,
    target: Seq<char>,
    version: Seq<char>,
)
    requires
        is_word(method),
        is_word(target),
        is_word(version),
        lines_from(text, 0)[0] == spaced(seq![method, target, version]),
        has_prefix(version, "HTTP/1."@),
    ensures
        request_in(text) matches Ok(request) ==> request.method == ascii_uppercase(method)
            && request.path == target && range_header(lines_from(text, 0), 1, None) == Ok::<
            Option<Seq<char>>,
            RequestError,
        >(request.range),
        request_in(text) matches Err(error) ==> range_header(lines_from(text, 0), 1, None) == Err::<
            Option<Seq<char>>,
            RequestError,
        >(error),
{
    let list = seq![method, target, version];
    assert forall|i: int| 0 <= i < list.len() implies is_word(#[trigger] list[i]) by {}
    lemma_words_are_taken_apart(list);
}

/// Of the header lines, one with the name of Range gives its value, without the white space around
/// it; a second one is refused, one with another name is passed over, one without a colon is
/// refused, and an empty line ends them.
pub proof fn lemma_range_headers_are_found(
    lines: Seq<Seq<char>>,
    index: int,
    found: Option<Seq<char>>,
    name: Seq<char>,
    value: Seq<char>,
)
    requires
        0 <= index < lines.len(),
        !name.contains(':'),
        name.len() > 0,
    ensures
        lines[index] == name + seq![':'] + value && ascii_lowercase(name) != ascii_lowercase(
            "range"@,
        ) ==> range_header(lines, index, found) == range_header(lines, index + 1, found),
        lines[index] == name + seq![':'] + value && ascii_lowercase(name) == ascii_lowercase(
            "range"@,
        ) ==> range_header(lines, index, found) == if found is None {
            range_header(lines, index + 1, Some(trimmed(value)))
        } else {
            Err(RequestError::MultipleRanges)
        },
        lines[index] == name ==> range_header(lines, index, found) == Err::<
            Option<Seq<char>>,
            RequestError,
        >(RequestError::MalformedHeader),
        lines[index].len() == 0 ==> range_header(lines, index, found) == Ok::<
            Option<Seq<char>>,
            RequestError,
        >(found),
{
    lemma_texts_are_taken_apart(name, ':', value);
}

fn split_lines(text: &[char]) -> (lines: Vec<Vec<char>>)
    ensures
        groups(lines@) == lines_from(text@, 0),
        lines@.len() > 0,
{
    let mut lines: Vec<Vec<char>> = Vec::new();
    let mut start: usize = 0;
    let mut index: usize = 0;
    assert(groups(lines@) + lines_from(text@, 0) =~= lines_from(text@, 0));
    loop
        invariant
            start <= index <= text@.len(),
            line_break_from(text@, start as int) == line_break_from(text@, index as int),
            groups(lines@) + lines_from(text@, start as int) == lines_from(text@, 0),
        decreases text@.len() - index,
    {
        proof {
            lemma_line_break(text@, index as int);
        }
        if text.len() - index < 2 {
            let line: Vec<char> = subcharacters(text, start, text.len());
            let ghost before = lines@;
            let ghost added = line@;
            lines.push(line);
            assert(groups(lines@) =~= groups(before).push(added));
            assert(text@.skip(start as int) =~= added);
            assert(groups(before) + seq![added] =~= groups(before).push(added));
            return lines;
        }
        if text[index] == '\r' && text[index + 1] == '\n' {
            let line: Vec<char> = subcharacters(text, start, index);
            let ghost before = lines@;
            let ghost added = line@;
            lines.push(line);
            assert(groups(lines@) =~= groups(before).push(added));
            assert(groups(before).push(added) + lines_from(text@, index + 2) =~= groups(before) + (
            seq![added] + lines_from(text@, index + 2)));
            index = index + 2;
            start = index;
        } else {
            index = index + 1;
        }
    }
}

/// Finds the Range header.
fn find_range(lines: &Vec<Vec<char>>) -> (result: Result<Option<String>, RequestError>)
    requires
        lines@.len() > 0,
    ensures
        match (result, range_header(groups(lines@), 1, None)) {
            (Ok(Some(range)), Ok(Some(expected))) => range@ == expected,
            (Ok(None), Ok(None)) => true,
            (Err(error), Err(expected)) => error == expected,
            _ => false,
        },
{
    let mut range: Option<String> = None;
    let mut index: usize = 1;
    while index < lines.len()
        invariant
            1 <= index <= lines@.len(),
            range_header(groups(lines@), 1, None) == range_header(
                groups(lines@),
                index as int,
                match range {
                    Some(range) => Some(range@),
                    None => None,
                },
            ),
        decreases lines@.len() - index,
    {
        let line: &Vec<char> = &lines[index];
        assert(groups(lines@)[index as int] == line@);
        if line.len() == 0 {
            return Ok(range);
        }
        let colon: usize = find_char(line.as_slice(), ':');
        if colon >= line.len() {
            return Err(RequestError::MalformedHeader);
        }
        assert(line@.subrange(0, colon as int) =~= line@.take(colon as int));
        if spells_ignoring_case(line.as_slice(), 0, colon, "range") {
            if range.is_some() {
                return Err(RequestError::MultipleRanges);
            }
            let value: Vec<char> = subcharacters(line.as_slice(), colon + 1, line.len());
            assert(value@ =~= line@.skip(colon + 1));
            let value: Vec<char> = trim(value.as_slice());
            range = Some(text_of(value.as_slice()));
        }
        index = index + 1;
    }
    Ok(range)
}

/// Reads a request from its bytes.
pub fn parse_request(raw: &[u8]) -> (result: Result<HttpRequest, RequestError>)
    ensures
        match (result, request_of(raw@)) {
            (Ok(request), Ok(expected)) => request@ == expected,
            (Err(error), Err(expected)) => error == expected,
            _ => false,
        },
{
    let text: String = match utf8_text(raw) {
        Some(text) => text,
        None => {
            return Err(RequestError::NotUtf8);
        },
    };
    let text: Vec<char> = characters(text.as_str());
    let lines: Vec<Vec<char>> = split_lines(text.as_slice());
    assert(groups(lines@)[0] == lines@[0]@);
    let parts: Vec<Vec<char>> = split_words(lines[0].as_slice());
    assert(groups(parts@).len() == parts@.len());
    if parts.len() < 1 {
        return Err(RequestError::MissingMethod);
    }
    if parts.len() < 2 {
        return Err(RequestError::MissingTarget);
    }
    if parts.len() < 3 {
        return Err(RequestError::MissingVersion);
    }
    assert(groups(parts@)[0] == parts@[0]@ && groups(parts@)[1] == parts@[1]@ && groups(parts@)[2]
        == parts@[2]@);
    if parts.len() > 3 || !starts_with(parts[2].as_slice(), "HTTP/1.") {
        return Err(RequestError::MalformedRequestLine);
    }
    match find_range(&lines) {
        Ok(range) => Ok(
            HttpRequest {
                method: to_ascii_uppercase(parts[0].as_slice()),
                path: text_of(parts[1].as_slice()),
                range,
            },
        ),
        Err(error) => Err(error),
    }
}

/// Gathers the bytes of a request until an empty line ends its headers.
pub struct RequestReader {
    raw: Vec<u8>,
}

impl View for RequestReader {
    type V = Seq<u8>;

    closed spec fn view(&self) -> Seq<u8> {
        self.raw@
    }
}

impl RequestReader {
    pub fn new() -> (reader: Self)
        ensures
            reader@ == Seq::<u8>::empty(),
    {
        RequestReader { raw: Vec::new() }
    }

    /// How many bytes the next read may bring.
    pub fn next_read(&self) -> (result: Result<usize, RequestError>)
        requires
            self@.len() <= MAX_REQUEST_HEADER_BYTES,
        ensures
            result == if self@.len() == MAX_REQUEST_HEADER_BYTES {
                Err(RequestError::HeadersTooLong)
            } else if MAX_REQUEST_HEADER_BYTES - self@.len() < REQUEST_CHUNK_BYTES {
                Ok::<usize, RequestError>((MAX_REQUEST_HEADER_BYTES - self@.len()) as usize)
            } else {
                Ok::<usize, RequestError>(REQUEST_CHUNK_BYTES)
            },
    {
        if self.raw.len() == MAX_REQUEST_HEADER_BYTES {
            return Err(RequestError::HeadersTooLong);
        }
        let remaining: usize = MAX_REQUEST_HEADER_BYTES - self.raw.len();
        if remaining < REQUEST_CHUNK_BYTES {
            Ok(remaining)
        } else {
            Ok(REQUEST_CHUNK_BYTES)
        }
    }

    /// Takes the bytes of one read in. Returns whether the headers are complete; a read without
    /// bytes means that the client is gone.
    pub fn feed(&mut self, chunk: &[u8]) -> (result: Result<bool, RequestError>)
        ensures
            final(self)@ == old(self)@ + chunk@,
            result == if chunk@.len() == 0 {
                Err(RequestError::ClosedEarly)
            } else {
                Ok::<bool, RequestError>(headers_complete(old(self)@ + chunk@))
            },
    {
        self.raw.extend_from_slice(chunk);
        assert(self.raw@ =~= old(self)@ + chunk@);
        if chunk.len() == 0 {
            return Err(RequestError::ClosedEarly);
        }
        let mut index: usize = 0;
        while self.raw.len() >= 4 && index <= self.raw.len() - 4
            invariant
                self.raw@ == old(self)@ + chunk@,
                chunk@.len() > 0,
                forall|i: int| 0 <= i < index ==> !#[trigger] header_end_at(self.raw@, i),
            decreases self.raw@.len() - index,
        {
            if self.raw[index] == 13 && self.raw[index + 1] == 10 && self.raw[index + 2] == 13
                && self.raw[index + 3] == 10 {
                assert(header_end_at(self.raw@, index as int));
                return Ok(true);
            }
            index = index + 1;
        }
        assert forall|i: int| !#[trigger] header_end_at(self.raw@, i) by {
            if header_end_at(self.raw@, i) {
                assert(i < index);
            }
        }
        Ok(false)
    }

    /// Reads the request out of the gathered bytes.
    pub fn request(&self) -> (result: Result<HttpRequest, RequestError>)
        ensures
            match (result, request_of(self@)) {
                (Ok(request), Ok(expected)) => request@ == expected,
                (Err(error), Err(expected)) => error == expected,
                _ => false,
            },
    {
        parse_request(self.raw.as_slice())
    }
}

/// Why a file cannot be served.
#[derive(Clone, Copy, Debug, PartialEq, Eq, Structural)]
pub enum ServeError {
    /// The content type is empty or contains a line break.
    InvalidContentType,
    /// The route is empty or contains other characters than letters, digits, `-` and `_`.
    InvalidRoute,
}

pub open spec fn route_character(character: char) -> bool {
    ||| 'a' <= character <= 'z'
    ||| 'A' <= character <= 'Z'
    ||| '0' <= character <= '9'
    ||| character == '-'
    ||| character == '_'
}

pub open spec fn valid_route(route: Seq<char>) -> bool {
    route.len() > 0 && forall|i: int| 0 <= i < route.len() ==> route_character(#[trigger] route[i])
}

/// A route is made of letters, digits, hyphens and underscores: it holds nothing that means
/// something in a request line, and two of them one after the other are one again.
pub proof fn lemma_routes_have_plain_characters(route: Seq<char>, other: Seq<char>)
    ensures
        valid_route(route) ==> !route.contains('/') && !route.contains('?') && !route.contains(' ')
            && !route.contains('.') && !route.contains('%') && !route.contains('\r')
            && !route.contains('\n'),
        valid_route(route) && valid_route(other) ==> valid_route(route + other),
        !valid_route(Seq::empty()),
        forall|character: char| #[trigger]
            route_character(character) <==> 48 <= character as int <= 57 || 65 <= character as int
                <= 90 || 97 <= character as int <= 122 || character as int == 45 || character as int
                == 95,
{
    if valid_route(route) {
        assert forall|i: int| 0 <= i < route.len() implies route_character(#[trigger] route[i]) by {}
    }
}

pub open spec fn valid_content_type(content_type: Seq<char>) -> bool {
    trimmed(content_type).len() > 0 && !content_type.contains('\r') && !content_type.contains('\n')
}

/// The file that a server hands out.
pub struct ServedFile {
    pub length: u64,
    pub content_type: String,
    pub path: String,
}

impl ServedFile {
    /// Sets a file up under a private route.
    pub fn new(length: u64, content_type: String, route: String) -> (result: Result<Self, ServeError>)
        ensures
            result is Ok <==> valid_content_type(content_type@) && valid_route(route@),
            result matches Ok(file) ==> file.length == length && file.content_type == content_type
                && file.path@ == "/"@ + route@ + "/media"@,
            result matches Err(error) ==> error == if valid_content_type(content_type@) {
                ServeError::InvalidRoute
            } else {
                ServeError::InvalidContentType
            },
    {
        let kind: Vec<char> = characters(content_type.as_str());
        proof {
            lemma_index_of_char(kind@, '\r');
            lemma_index_of_char(kind@, '\n');
        }
        if trim(kind.as_slice()).len() == 0 || find_char(kind.as_slice(), '\r') < kind.len()
            || find_char(kind.as_slice(), '\n') < kind.len() {
            return Err(ServeError::InvalidContentType);
        }
        let letters: Vec<char> = characters(route.as_str());
        if letters.len() == 0 {
            return Err(ServeError::InvalidRoute);
        }
        let mut index: usize = 0;
        while index < letters.len()
            invariant
                index <= letters@.len(),
                letters@ == route@,
                valid_content_type(content_type@),
                forall|i: int| 0 <= i < index ==> route_character(#[trigger] letters@[i]),
            decreases letters@.len() - index,
        {
            let letter: char = letters[index];
            if !(('a' <= letter && letter <= 'z') || ('A' <= letter && letter <= 'Z') || ('0'
                <= letter && letter <= '9') || letter == '-' || letter == '_') {
                assert(!route_character(letters@[index as int]));
                return Err(ServeError::InvalidRoute);
            }
            index = index + 1;
        }
        let path: String = "/".to_owned().concat(route.as_str()).concat("/media");
        Ok(ServedFile { length, content_type, path })
    }
}

/// A response: its head, and the part of the file that follows.
pub struct HttpResponse {
    pub head: String,
    /// The first byte and the number of bytes of the file.
    pub body: Option<(u64, u64)>,
    /// What to count once the head is sent.
    pub served: Served,
}

/// What a response does to the counters.
#[derive(Clone, Copy, Debug, PartialEq, Eq, Structural)]
pub enum Served {
    /// The file was not asked for.
    Nothing,
    /// The file was asked for, but the range is none.
    Refused,
    Full,
    Range,
}

pub open spec fn common_headers() -> Seq<char> {
    "Cache-Control: no-store\r\nAccess-Control-Allow-Origin: *\r\nAccess-Control-Allow-Methods: GET, HEAD, OPTIONS\r\nAccess-Control-Allow-Headers: Range\r\nAccess-Control-Expose-Headers: Accept-Ranges, Content-Length, Content-Range\r\n"@
}

/// The head of a response without a body.
pub open spec fn empty_head(status: Seq<char>, extra: Seq<char>) -> Seq<char> {
    "HTTP/1.1 "@ + status + "\r\nContent-Length: 0\r\n"@ + extra + common_headers()
        + "Connection: close\r\n\r\n"@
}

/// The head of a response with a part of the file.
pub open spec fn file_head(
    status: Seq<char>,
    content_type: Seq<char>,
    length: u64,
    content_range: Seq<char>,
) -> Seq<char> {
    "HTTP/1.1 "@ + status + "\r\nContent-Type: "@ + content_type + "\r\nContent-Length: "@ + decimal(
        length as nat,
    ) + "\r\nAccept-Ranges: bytes\r\n"@ + content_range + common_headers()
        + "Connection: close\r\n\r\n"@
}

pub open spec fn allow_header() -> Seq<char> {
    "Allow: GET, HEAD, OPTIONS\r\n"@
}

/// The header that says which part of the file follows.
pub open spec fn content_range_header(start: u64, end: u64, length: u64) -> Seq<char> {
    "Content-Range: bytes "@ + decimal(start as nat) + "-"@ + decimal(end as nat) + "/"@ + decimal(
        length as nat,
    ) + "\r\n"@
}

/// The header of a range that lies outside the file.
pub open spec fn unsatisfied_range_header(length: u64) -> Seq<char> {
    "Content-Range: bytes */"@ + decimal(length as nat) + "\r\n"@
}

/// A request target without its query.
pub open spec fn target_path(target: Seq<char>) -> Seq<char> {
    target.take(index_of_char(target, '?'))
}

/// What the server answers: the head, the part of the file that follows, and what is counted.
pub open spec fn response_to(file: ServedFile, request: Result<RequestView, RequestError>) -> (
    Seq<char>,
    Option<(u64, u64)>,
    Served,
) {
    match request {
        Err(_) => (empty_head("400 Bad Request"@, Seq::empty()), None, Served::Nothing),
        Ok(request) => if target_path(request.path) != file.path@ {
            (empty_head("404 Not Found"@, Seq::empty()), None, Served::Nothing)
        } else if request.method == "OPTIONS"@ {
            (empty_head("204 No Content"@, allow_header()), None, Served::Nothing)
        } else if request.method != "GET"@ && request.method != "HEAD"@ {
            (empty_head("405 Method Not Allowed"@, allow_header()), None, Served::Nothing)
        } else {
            match range_for(request.range, file.length) {
                Err(RangeProblem::Malformed(_)) => (
                    empty_head("400 Bad Request"@, Seq::empty()),
                    None,
                    Served::Refused,
                ),
                Err(RangeProblem::Unsatisfiable) => (
                    empty_head(
                        "416 Range Not Satisfiable"@,
                        unsatisfied_range_header(file.length),
                    ),
                    None,
                    Served::Refused,
                ),
                Ok(ResolvedRange::Full) => (
                    file_head("200 OK"@, file.content_type@, file.length, Seq::empty()),
                    if request.method == "HEAD"@ {
                        None
                    } else {
                        Some((0, file.length))
                    },
                    Served::Full,
                ),
                Ok(ResolvedRange::Partial { start, end }) => (
                    file_head(
                        "206 Partial Content"@,
                        file.content_type@,
                        (end - start + 1) as u64,
                        content_range_header(start, end, file.length),
                    ),
                    if request.method == "HEAD"@ {
                        None
                    } else {
                        Some((start, (end - start + 1) as u64))
                    },
                    Served::Range,
                ),
            }
        },
    }
}

impl MediaServerCounters {
    /// The counters once it is known what a request asks for.
    pub open spec fn with_asked(self, served: Served) -> MediaServerCounters {
        if served is Nothing {
            self
        } else {
            MediaServerCounters { file_requests: self.file_requests.wrapping_add(1), ..self }
        }
    }

    /// Counts a response whose head was sent.
    pub fn count_response(&mut self, served: Served)
        ensures
            *final(self) == match served {
                Served::Full => MediaServerCounters {
                    full_responses: old(self).full_responses.wrapping_add(1),
                    ..*old(self)
                },
                Served::Range => MediaServerCounters {
                    range_responses: old(self).range_responses.wrapping_add(1),
                    ..*old(self)
                },
                _ => *old(self),
            },
    {
        match served {
            Served::Full => {
                self.full_responses = self.full_responses.wrapping_add(1);
            },
            Served::Range => {
                self.range_responses = self.range_responses.wrapping_add(1);
            },
            _ => {},
        }
    }
}

/// A request for another path learns nothing of the file, whatever else it asks: it gets no body,
/// no header of the file, and counts as no request for it.
pub proof fn lemma_the_route_is_private(file: ServedFile, other: ServedFile, request: RequestView)
    requires
        target_path(request.path) != file.path@,
        target_path(request.path) != other.path@,
    ensures
        response_to(file, Ok(request)) == response_to(other, Ok(request)),
        response_to(file, Ok(request)).1 is None,
        response_to(file, Ok(request)).2 is Nothing,
{
}

/// Whatever is asked, the bytes that follow a head lie inside the file, and the head of a HEAD
/// request is the one that the GET request would have got.
pub proof fn lemma_responses_stay_inside_the_file(file: ServedFile, request: RequestView)
    ensures
        response_to(file, Ok(request)).1 matches Some((start, length)) ==> start + length
            <= file.length,
        request.method == "HEAD"@ ==> response_to(file, Ok(request)).1 is None && response_to(
            file,
            Ok(request),
        ).0 == response_to(file, Ok(RequestView { method: "GET"@, ..request })).0,
{
    reveal_strlit("HEAD");
    reveal_strlit("GET");
    reveal_strlit("OPTIONS");
    lemma_ranges_lie_inside_the_file(request.range, file.length);
    assert("HEAD"@.len() != "OPTIONS"@.len());
    assert("GET"@.len() != "OPTIONS"@.len());
    assert("GET"@.len() != "HEAD"@.len());
}

/// What a response announces is what follows: a part of the file comes with status 206, its length
/// and its place, the whole file with status 200 and its length.
pub proof fn lemma_responses_announce_what_follows(file: ServedFile, request: RequestView)
    requires
        target_path(request.path) == file.path@,
        request.method == "GET"@,
    ensures
        ({
            let (head, body, served) = response_to(file, Ok(request));
            match range_for(request.range, file.length) {
                Ok(ResolvedRange::Partial { start, end }) => {
                    &&& body == Some((start, (end + 1 - start) as u64))
                    &&& served == Served::Range
                    &&& ("HTTP/1.1 "@ + "206 Partial Content"@ + "\r\nContent-Type: "@
                        + file.content_type@ + "\r\nContent-Length: "@ + decimal(
                        (end + 1 - start) as nat,
                    ) + "\r\nAccept-Ranges: bytes\r\n"@ + ("Content-Range: bytes "@ + decimal(
                        start as nat,
                    ) + "-"@ + decimal(end as nat) + "/"@ + decimal(file.length as nat)
                        + "\r\n"@)).is_prefix_of(head)
                },
                Ok(ResolvedRange::Full) => {
                    &&& body == Some((0u64, file.length))
                    &&& served == Served::Full
                    &&& ("HTTP/1.1 "@ + "200 OK"@ + "\r\nContent-Type: "@ + file.content_type@
                        + "\r\nContent-Length: "@ + decimal(file.length as nat)
                        + "\r\nAccept-Ranges: bytes\r\n"@).is_prefix_of(head)
                },
                Err(RangeProblem::Unsatisfiable) => {
                    &&& body is None
                    &&& served == Served::Refused
                    &&& ("HTTP/1.1 "@ + "416 Range Not Satisfiable"@ + "\r\nContent-Length: 0\r\n"@
                        + ("Content-Range: bytes */"@ + decimal(file.length as nat)
                        + "\r\n"@)).is_prefix_of(head)
                },
                Err(RangeProblem::Malformed(_)) => {
                    &&& body is None
                    &&& served == Served::Refused
                    &&& ("HTTP/1.1 "@ + "400 Bad Request"@
                        + "\r\nContent-Length: 0\r\n"@).is_prefix_of(head)
                },
            }
        }),
{
    reveal_strlit("GET");
    reveal_strlit("HEAD");
    reveal_strlit("OPTIONS");
    assert("GET"@.len() != "OPTIONS"@.len());
    assert("GET"@.len() != "HEAD"@.len());
    lemma_ranges_lie_inside_the_file(request.range, file.length);
}

/// A request that cannot be read is a bad one, one for another path finds nothing, and one with
/// another method than the three that are allowed is told which they are. None of them gets a
/// byte of the file.
pub proof fn lemma_other_requests_are_refused(file: ServedFile, request: Result<RequestView, RequestError>)
    ensures
        request is Err ==> ("HTTP/1.1 "@ + "400 Bad Request"@).is_prefix_of(
            response_to(file, request).0,
        ) && response_to(file, request).1 is None && response_to(file, request).2 is Nothing,
        request matches Ok(asked) ==> {
            &&& target_path(asked.path) != file.path@ ==> ("HTTP/1.1 "@
                + "404 Not Found"@).is_prefix_of(response_to(file, request).0)
            &&& target_path(asked.path) == file.path@ && asked.method == "OPTIONS"@ ==> (
            "HTTP/1.1 "@ + "204 No Content"@ + "\r\nContent-Length: 0\r\n"@
                + "Allow: GET, HEAD, OPTIONS\r\n"@).is_prefix_of(response_to(file, request).0)
                && response_to(file, request).1 is None && response_to(file, request).2 is Nothing
            &&& target_path(asked.path) == file.path@ && asked.method != "OPTIONS"@ && asked.method
                != "GET"@ && asked.method != "HEAD"@ ==> ("HTTP/1.1 "@ + "405 Method Not Allowed"@
                + "\r\nContent-Length: 0\r\n"@ + "Allow: GET, HEAD, OPTIONS\r\n"@).is_prefix_of(
                response_to(file, request).0,
            ) && response_to(file, request).1 is None && response_to(file, request).2 is Nothing
        },
{
}

/// A query behind the path is left out of it.
pub proof fn lemma_queries_are_left_out(path: Seq<char>, query: Seq<char>)
    requires
        !path.contains('?'),
    ensures
        target_path(path + seq!['?'] + query) == path,
        target_path(path) == path,
{
    lemma_texts_are_taken_apart(path, '?', query);
    lemma_index_of_char(path, '?');
    assert(path.take(path.len() as int) =~= path);
}

fn empty_response(status: &str, extra: &str, served: Served) -> (response: HttpResponse)
    ensures
        response.head@ == empty_head(status@, extra@),
        response.body is None,
        response.served == served,
{
    let head: String = "HTTP/1.1 ".to_owned().concat(status).concat(
        "\r\nContent-Length: 0\r\n",
    ).concat(extra).concat(
        "Cache-Control: no-store\r\nAccess-Control-Allow-Origin: *\r\nAccess-Control-Allow-Methods: GET, HEAD, OPTIONS\r\nAccess-Control-Allow-Headers: Range\r\nAccess-Control-Expose-Headers: Accept-Ranges, Content-Length, Content-Range\r\n",
    ).concat("Connection: close\r\n\r\n");
    HttpResponse { head, body: None, served }
}

fn file_response_head(status: &str, content_type: &str, length: u64, content_range: &str) -> (head:
    String)
    ensures
        head@ == file_head(status@, content_type@, length, content_range@),
{
    let mut head: String = "HTTP/1.1 ".to_owned().concat(status).concat(
        "\r\nContent-Type: ",
    ).concat(content_type).concat("\r\nContent-Length: ");
    push_decimal(&mut head, length);
    head.concat("\r\nAccept-Ranges: bytes\r\n").concat(content_range).concat(
        "Cache-Control: no-store\r\nAccess-Control-Allow-Origin: *\r\nAccess-Control-Allow-Methods: GET, HEAD, OPTIONS\r\nAccess-Control-Allow-Headers: Range\r\nAccess-Control-Expose-Headers: Accept-Ranges, Content-Length, Content-Range\r\n",
    ).concat("Connection: close\r\n\r\n")
}

/// Answers one request, and counts it where it asks for the file.
pub fn respond(
    file: &ServedFile,
    request: Result<HttpRequest, RequestError>,
    counters: &mut MediaServerCounters,
) -> (response: HttpResponse)
    ensures
        ({
            let expected = response_to(
                *file,
                match request {
                    Ok(request) => Ok(request@),
                    Err(error) => Err(error),
                },
            );
            &&& response.head@ == expected.0
            &&& response.body == expected.1
            &&& response.served == expected.2
            &&& *final(counters) == old(counters).with_asked(expected.2)
        }),
{
    proof {
        reveal_strlit("");
    }
    assert(""@ =~= Seq::<char>::empty());
    let request: HttpRequest = match request {
        Ok(request) => request,
        Err(_) => {
            return empty_response("400 Bad Request", "", Served::Nothing);
        },
    };
    let target: Vec<char> = characters(request.path.as_str());
    let query: usize = find_char(target.as_slice(), '?');
    let path: Vec<char> = subcharacters(target.as_slice(), 0, query);
    assert(path@ =~= target_path(request.path@));
    if !spells(path.as_slice(), file.path.as_str()) {
        return empty_response("404 Not Found", "", Served::Nothing);
    }
    let method: Vec<char> = characters(request.method.as_str());
    if spells(method.as_slice(), "OPTIONS") {
        return empty_response(
            "204 No Content",
            "Allow: GET, HEAD, OPTIONS\r\n",
            Served::Nothing,
        );
    }
    let head_only: bool = spells(method.as_slice(), "HEAD");
    if !head_only && !spells(method.as_slice(), "GET") {
        return empty_response(
            "405 Method Not Allowed",
            "Allow: GET, HEAD, OPTIONS\r\n",
            Served::Nothing,
        );
    }
    counters.file_requests = counters.file_requests.wrapping_add(1);
    let range: Option<&str> = match &request.range {
        Some(range) => Some(range.as_str()),
        None => None,
    };
    proof {
        lemma_ranges_lie_inside_the_file(request@.range, file.length);
    }
    match resolve_range(range, file.length) {
        Err(RangeError::Malformed(_)) => empty_response("400 Bad Request", "", Served::Refused),
        Err(RangeError::Unsatisfiable) => {
            let mut header: String = "Content-Range: bytes */".to_owned();
            push_decimal(&mut header, file.length);
            let header: String = header.concat("\r\n");
            empty_response("416 Range Not Satisfiable", header.as_str(), Served::Refused)
        },
        Ok(ResolvedRange::Full) => {
            HttpResponse {
                head: file_response_head("200 OK", file.content_type.as_str(), file.length, ""),
                body: if head_only {
                    None
                } else {
                    Some((0, file.length))
                },
                served: Served::Full,
            }
        },
        Ok(ResolvedRange::Partial { start, end }) => {
            let length: u64 = end - start + 1;
            let mut header: String = "Content-Range: bytes ".to_owned();
            push_decimal(&mut header, start);
            let mut header: String = header.concat("-");
            push_decimal(&mut header, end);
            let mut header: String = header.concat("/");
            push_decimal(&mut header, file.length);
            let header: String = header.concat("\r\n");
            HttpResponse {
                head: file_response_head(
                    "206 Partial Content",
                    file.content_type.as_str(),
                    length,
                    header.as_str(),
                ),
                body: if head_only {
                    None
                } else {
                    Some((start, length))
                },
                served: Served::Range,
            }
        },
    }
}

/// The file ended inside a part that was promised.
#[derive(Clone, Copy, Debug, PartialEq, Eq, Structural)]
pub struct FileEndedEarly {}

/// The part of a file that is still to be sent.
#[derive(Clone, Copy, Debug, PartialEq, Eq, Structural)]
pub struct FileTransfer {
    pub offset: u64,
    pub remaining: u64,
}

impl FileTransfer {
    pub open spec fn well_formed(self) -> bool {
        self.offset + self.remaining <= u64::MAX
    }

    pub fn new(start: u64, length: u64) -> (transfer: Self)
        requires
            start + length <= u64::MAX,
        ensures
            transfer == (FileTransfer { offset: start, remaining: length }),
            transfer.well_formed(),
    {
        FileTransfer { offset: start, remaining: length }
    }

    /// How many bytes to read next: zero once everything was sent.
    pub fn next_read(&self) -> (count: usize)
        ensures
            count == if self.remaining < TRANSFER_BUFFER_BYTES {
                self.remaining as int
            } else {
                TRANSFER_BUFFER_BYTES as int
            },
            count == 0 <==> self.remaining == 0,
    {
        if self.remaining < TRANSFER_BUFFER_BYTES as u64 {
            self.remaining as usize
        } else {
            TRANSFER_BUFFER_BYTES
        }
    }

    /// Takes the bytes of one read in, once they are sent.
    pub fn sent(&mut self, size: usize, counters: &mut MediaServerCounters) -> (result: Result<
        (),
        FileEndedEarly,
    >)
        requires
            old(self).well_formed(),
            size <= old(self).remaining,
        ensures
            final(self).well_formed(),
            result is Err <==> size == 0,
            final(self).offset == old(self).offset + size,
            final(self).remaining == old(self).remaining - size,
            *final(counters) == (MediaServerCounters {
                bytes_sent: old(counters).bytes_sent.wrapping_add(size as u64),
                ..*old(counters)
            }),
    {
        if size == 0 {
            return Err(FileEndedEarly {  });
        }
        counters.bytes_sent = counters.bytes_sent.wrapping_add(size as u64);
        self.offset = self.offset + size as u64;
        self.remaining = self.remaining - size as u64;
        Ok(())
    }
}

} // verus!
