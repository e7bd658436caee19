//! The table of receivers, and small decisions about what the program prints.

use vstd::prelude::*;

use crate::discovery::{CastService, DeviceCapability};
use crate::text::{characters, decimal, decimal_text};

verus! {

/// The columns of the table.
pub const COLUMNS: usize = 5;

/// The header of a column.
pub open spec fn header(column: int) -> Seq<char> {
    if column == 0 {
        "NAME"@
    } else if column == 1 {
        "ADDRESS"@
    } else if column == 2 {
        "PORT"@
    } else if column == 3 {
        "MODEL"@
    } else {
        "CAPABILITY"@
    }
}

/// What a receiver's capability is called.
pub open spec fn capability_label(capability: DeviceCapability) -> Seq<char> {
    match capability {
        DeviceCapability::AudioOnly => "Audio only"@,
        DeviceCapability::Video => "Audio + video"@,
        DeviceCapability::Unknown => "Unknown"@,
    }
}

/// What a receiver shows in a column.
pub open spec fn cell(device: CastService, column: int) -> Seq<char> {
    if column == 0 {
        device.name@
    } else if column == 1 {
        device.address.printed()
    } else if column == 2 {
        decimal(device.port as nat)
    } else if column == 3 {
        device.model@
    } else {
        capability_label(device.capability)
    }
}

/// The characters of the longest text in a column.
pub open spec fn width(devices: Seq<CastService>, column: int) -> nat
    decreases devices.len(),
{
    if devices.len() == 0 {
        header(column).len()
    } else {
        let before = width(devices.drop_last(), column);
        let last = cell(devices.last(), column).len();
        if last > before {
            last
        } else {
            before
        }
    }
}

/// A text with spaces behind it, up to a width.
pub open spec fn padded(text: Seq<char>, width: nat) -> Seq<char> {
    if text.len() < width {
        text + Seq::new((width - text.len()) as nat, |i: int| ' ')
    } else {
        text
    }
}

/// The first columns of a row, with two spaces between them.
pub open spec fn row_start(
    texts: spec_fn(int) -> Seq<char>,
    widths: spec_fn(int) -> nat,
    columns: int,
) -> Seq<char>
    decreases columns,
{
    if columns <= 0 {
        Seq::empty()
    } else if columns == 1 {
        padded(texts(0), widths(0))
    } else {
        row_start(texts, widths, columns - 1) + "  "@ + padded(
            texts(columns - 1),
            widths(columns - 1),
        )
    }
}

/// A row of the table.
pub open spec fn row(texts: spec_fn(int) -> Seq<char>, widths: spec_fn(int) -> nat) -> Seq<char> {
    row_start(texts, widths, COLUMNS as int) + "\n"@
}

/// The widths of the columns of a table.
pub open spec fn widths_of(devices: Seq<CastService>) -> spec_fn(int) -> nat {
    |column: int| width(devices, column)
}

/// The first rows of a table.
pub open spec fn rows(devices: Seq<CastService>, widths: spec_fn(int) -> nat) -> Seq<char>
    decreases devices.len(),
{
    if devices.len() == 0 {
        row(|column: int| header(column), widths)
    } else {
        rows(devices.drop_last(), widths) + row(
            |column: int| cell(devices.last(), column),
            widths,
        )
    }
}

/// The table of receivers.
pub open spec fn table(devices: Seq<CastService>) -> Seq<char> {
    rows(devices, widths_of(devices))
}

/// A column is as wide as its longest text, and no wider.
pub proof fn lemma_columns_fit_their_texts(devices: Seq<CastService>, column: int)
    ensures
        header(column).len() <= width(devices, column),
        forall|i: int|
            0 <= i < devices.len() ==> cell(#[trigger] devices[i], column).len() <= width(
                devices,
                column,
            ),
        width(devices, column) == header(column).len() || exists|i: int|
            0 <= i < devices.len() && cell(#[trigger] devices[i], column).len() == width(
                devices,
                column,
            ),
    decreases devices.len(),
{
    if devices.len() > 0 {
        let front = devices.drop_last();
        lemma_columns_fit_their_texts(front, column);
        assert forall|i: int| 0 <= i < devices.len() implies cell(#[trigger] devices[i], column).len()
            <= width(devices, column) by {
            if i < front.len() {
                assert(front[i] == devices[i]);
            }
        }
        let last = devices.len() - 1;
        if width(devices, column) == width(front, column) {
            if width(front, column) != header(column).len() {
                let i = choose|i: int|
                    0 <= i < front.len() && cell(#[trigger] front[i], column).len() == width(
                        front,
                        column,
                    );
                assert(devices[i] == front[i]);
            }
        } else {
            assert(cell(devices[last], column).len() == width(devices, column));
        }
    }
}

/// A padded text starts with the text, goes on with spaces, and is as long as its column.
pub proof fn lemma_padded_texts_fill_their_column(text: Seq<char>, width: nat)
    ensures
        text.len() <= width ==> padded(text, width).len() == width,
        padded(text, width).take(text.len() as int) == text,
        forall|i: int| text.len() <= i < padded(text, width).len() ==> padded(text, width)[i] == ' ',
{
    assert(padded(text, width).take(text.len() as int) =~= text);
}

/// The table starts with the headers, and each device that is added has a row of its own behind
/// the others: its name, address, port, model and capability, each in its column.
pub proof fn lemma_devices_have_a_row_each(
    devices: Seq<CastService>,
    device: CastService,
    widths: spec_fn(int) -> nat,
)
    ensures
        rows(Seq::empty(), widths) == padded("NAME"@, widths(0)) + "  "@ + padded(
            "ADDRESS"@,
            widths(1),
        ) + "  "@ + padded("PORT"@, widths(2)) + "  "@ + padded("MODEL"@, widths(3)) + "  "@
            + padded("CAPABILITY"@, widths(4)) + "\n"@,
        rows(devices.push(device), widths) == rows(devices, widths) + (padded(
            device.name@,
            widths(0),
        ) + "  "@ + padded(device.address.printed(), widths(1)) + "  "@ + padded(
            decimal(device.port as nat),
            widths(2),
        ) + "  "@ + padded(device.model@, widths(3)) + "  "@ + padded(
            match device.capability {
                DeviceCapability::Video => "Audio + video"@,
                DeviceCapability::AudioOnly => "Audio only"@,
                DeviceCapability::Unknown => "Unknown"@,
            },
            widths(4),
        ) + "\n"@),
{
    reveal_with_fuel(row_start, 6);
    assert(devices.push(device).drop_last() =~= devices);
}

fn header_text(column: usize) -> (text: &'static str)
    ensures
        text@ == header(column as int),
{
    if column == 0 {
        "NAME"
    } else if column == 1 {
        "ADDRESS"
    } else if column == 2 {
        "PORT"
    } else if column == 3 {
        "MODEL"
    } else {
        "CAPABILITY"
    }
}

fn cell_text(device: &CastService, column: usize) -> (text: String)
    ensures
        text@ == cell(*device, column as int),
{
    if column == 0 {
        device.name.clone()
    } else if column == 1 {
        device.address.text()
    } else if column == 2 {
        decimal_text(device.port as u64)
    } else if column == 3 {
        device.model.clone()
    } else {
        device.capability.label().to_owned()
    }
}

fn column_width(devices: &[CastService], column: usize) -> (result: usize)
    ensures
        result == width(devices@, column as int),
{
    let mut result: usize = characters(header_text(column)).len();
    let mut index: usize = 0;
    assert(devices@.take(0) =~= Seq::<CastService>::empty());
    while index < devices.len()
        invariant
            index <= devices@.len(),
            result == width(devices@.take(index as int), column as int),
        decreases devices@.len() - index,
    {
        assert(devices@.take(index + 1).drop_last() =~= devices@.take(index as int));
        let text: String = cell_text(&devices[index], column);
        let count: usize = characters(text.as_str()).len();
        if count > result {
            result = count;
        }
        index = index + 1;
    }
    assert(devices@.take(index as int) =~= devices@);
    result
}

fn push_padded(output: &mut String, text: &str, width: usize)
    ensures
        final(output)@ == old(output)@ + padded(text@, width as nat),
{
    let ghost start = output@;
    let count: usize = characters(text).len();
    let joined: String = output.clone().concat(text);
    *output = joined;
    let mut written: usize = count;
    assert(output@ =~= start + padded(text@, count as nat));
    while written < width
        invariant
            count == text@.len(),
            count <= written,
            written <= width || written == count,
            output@ == start + padded(text@, written as nat),
        decreases width - written,
    {
        output.push(' ');
        written = written + 1;
        assert(output@ =~= start + padded(text@, written as nat));
    }
    assert(output@ =~= start + padded(text@, width as nat));
}

fn write_row(
    output: &mut String,
    row_texts: &Vec<String>,
    row_widths: &Vec<usize>,
    Ghost(texts): Ghost<spec_fn(int) -> Seq<char>>,
    Ghost(widths): Ghost<spec_fn(int) -> nat>,
)
    requires
        row_texts@.len() == COLUMNS,
        row_widths@.len() == COLUMNS,
        forall|i: int| 0 <= i < COLUMNS ==> (#[trigger] row_texts@[i])@ == texts(i),
        forall|i: int| 0 <= i < COLUMNS ==> #[trigger] row_widths@[i] == widths(i),
    ensures
        final(output)@ == old(output)@ + row(texts, widths),
{
    let ghost start = output@;
    let mut column: usize = 0;
    assert(output@ =~= start + row_start(texts, widths, 0));
    while column < COLUMNS
        invariant
            column <= COLUMNS,
            row_texts@.len() == COLUMNS,
            row_widths@.len() == COLUMNS,
            forall|i: int| 0 <= i < COLUMNS ==> (#[trigger] row_texts@[i])@ == texts(i),
            forall|i: int| 0 <= i < COLUMNS ==> #[trigger] row_widths@[i] == widths(i),
            output@ == start + row_start(texts, widths, column as int),
        decreases COLUMNS - column,
    {
        if column > 0 {
            let joined: String = output.clone().concat("  ");
            *output = joined;
        }
        push_padded(output, row_texts[column].as_str(), row_widths[column]);
        assert(output@ =~= start + row_start(texts, widths, column + 1));
        column = column + 1;
    }
    let joined: String = output.clone().concat("\n");
    *output = joined;
    assert(output@ =~= start + row(texts, widths));
}

/// The table of receivers, one row each, with columns as wide as their longest text.
pub fn format_devices(devices: &[CastService]) -> (output: String)
    ensures
        output@ == table(devices@),
{
    let ghost widths = widths_of(devices@);
    let mut row_widths: Vec<usize> = Vec::new();
    let mut headers: Vec<String> = Vec::new();
    let mut column: usize = 0;
    while column < COLUMNS
        invariant
            column <= COLUMNS,
            row_widths@.len() == column,
            headers@.len() == column,
            widths == widths_of(devices@),
            forall|i: int| 0 <= i < column ==> #[trigger] row_widths@[i] == widths(i),
            forall|i: int| 0 <= i < column ==> (#[trigger] headers@[i])@ == header(i),
        decreases COLUMNS - column,
    {
        row_widths.push(column_width(devices, column));
        headers.push(header_text(column).to_owned());
        column = column + 1;
    }
    let mut output: String = String::new();
    write_row(
        &mut output,
        &headers,
        &row_widths,
        Ghost(|column: int| header(column)),
        Ghost(widths),
    );
    let mut index: usize = 0;
    assert(devices@.take(0) =~= Seq::<CastService>::empty());
    assert(output@ =~= rows(devices@.take(0), widths));
    while index < devices.len()
        invariant
            index <= devices@.len(),
            row_widths@.len() == COLUMNS,
            forall|i: int| 0 <= i < COLUMNS ==> #[trigger] row_widths@[i] == widths(i),
            output@ == rows(devices@.take(index as int), widths),
        decreases devices@.len() - index,
    {
        let ghost shown = devices@.take(index + 1);
        assert(shown.drop_last() =~= devices@.take(index as int));
        assert(shown.last() == devices@[index as int]);
        let mut texts: Vec<String> = Vec::new();
        let mut column: usize = 0;
        while column < COLUMNS
            invariant
                column <= COLUMNS,
                index < devices@.len(),
                texts@.len() == column,
                shown.last() == devices@[index as int],
                forall|i: int|
                    0 <= i < column ==> (#[trigger] texts@[i])@ == cell(shown.last(), i),
            decreases COLUMNS - column,
        {
            texts.push(cell_text(&devices[index], column));
            column = column + 1;
        }
        write_row(
            &mut output,
            &texts,
            &row_widths,
            Ghost(|column: int| cell(shown.last(), column)),
            Ghost(widths),
        );
        index = index + 1;
    }
    assert(devices@.take(index as int) =~= devices@);
    output
}

/// Whether playback is controlled on the terminal: only where both ends are terminals, and no
/// diagnostics are asked for.
pub fn interactive_video_output(verbosity: u8, stdin_terminal: bool, stdout_terminal: bool) -> (result: bool)
    ensures
        result == (verbosity == 0 && stdin_terminal && stdout_terminal),
{
    verbosity == 0 && stdin_terminal && stdout_terminal
}

/// Options that the chosen transport does not have.
#[derive(Clone, Copy, Debug, PartialEq, Eq, Structural)]
pub enum TransportConflict {
    /// Only the HLS transport can serve without a receiver.
    ServeOnlyWithMirror,
    /// Only the mirroring transport has a frame deadline and encoder priorities.
    MirrorOptionsWithHls,
}

/// Whether the options of a desktop session belong to its transport.
pub fn check_transport(
    mirror: bool,
    serve_only: bool,
    has_frame_deadline: bool,
    fixed_bitrate: bool,
    quality_priority: bool,
) -> (result: Result<(), TransportConflict>)
    ensures
        result == if mirror && serve_only {
            Err::<(), TransportConflict>(TransportConflict::ServeOnlyWithMirror)
        } else if !mirror && (has_frame_deadline || fixed_bitrate || quality_priority) {
            Err(TransportConflict::MirrorOptionsWithHls)
        } else {
            Ok(())
        },
{
    if mirror {
        if serve_only {
            return Err(TransportConflict::ServeOnlyWithMirror);
        }
    } else if has_frame_deadline || fixed_bitrate || quality_priority {
        return Err(TransportConflict::MirrorOptionsWithHls);
    }
    Ok(())
}

} // verus!
