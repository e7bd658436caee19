//! H.264 byte streams: length-prefixed access units and the Annex-B form that receivers take.

use vstd::prelude::*;

use crate::bytes::{be32, be32_at, lemma_be32_round_trip, push_range, read_u32};

verus! {

/// Why a length-prefixed access unit was refused.
#[derive(Clone, Copy, Debug, PartialEq, Eq, Structural)]
pub enum AvccError {
    /// Fewer than four bytes are left where a NAL length should stand.
    TruncatedLength,
    /// The NAL length is zero or runs past the end of the data.
    InvalidLength(u32),
}

/// The start code in front of every NAL unit of an Annex-B stream.
pub open spec fn start_code() -> Seq<u8> {
    seq![0u8, 0u8, 0u8, 1u8]
}

/// The NAL units of a length-prefixed access unit, from `offset` on.
pub open spec fn avcc_units_from(data: Seq<u8>, offset: int) -> Result<Seq<Seq<u8>>, AvccError>
    decreases data.len() - offset,
{
    if offset >= data.len() {
        Ok(Seq::empty())
    } else if data.len() - offset < 4 {
        Err(AvccError::TruncatedLength)
    } else {
        let length = be32_at(data, offset);
        if length == 0 || length > data.len() - offset - 4 {
            Err(AvccError::InvalidLength(length))
        } else {
            match avcc_units_from(data, offset + 4 + length) {
                Ok(rest) => Ok(
                    seq![data.subrange(offset + 4, offset + 4 + length)] + rest,
                ),
                Err(error) => Err(error),
            }
        }
    }
}

/// The NAL units of a length-prefixed access unit.
pub open spec fn avcc_units(data: Seq<u8>) -> Result<Seq<Seq<u8>>, AvccError> {
    avcc_units_from(data, 0)
}

/// NAL units one after the other, each behind a start code.
pub open spec fn annex_b(units: Seq<Seq<u8>>) -> Seq<u8>
    decreases units.len(),
{
    if units.len() == 0 {
        Seq::empty()
    } else {
        annex_b(units.drop_last()) + start_code() + units.last()
    }
}

/// NAL units one after the other, each behind its length.
pub open spec fn avcc_joined(units: Seq<Seq<u8>>) -> Seq<u8>
    decreases units.len(),
{
    if units.len() == 0 {
        Seq::empty()
    } else {
        be32(units[0].len() as u32) + units[0] + avcc_joined(units.drop_first())
    }
}

/// The length that stands behind `before` is read back, whatever follows it.
proof fn lemma_length_is_read_back(before: Seq<u8>, value: u32, after: Seq<u8>)
    ensures
        be32_at(before + be32(value) + after, before.len() as int) == value,
{
    let bytes = be32(value);
    let data = before + bytes + after;
    let base = before.len() as int;
    assert(data[base] == bytes[0] && data[base + 1] == bytes[1] && data[base + 2] == bytes[2]
        && data[base + 3] == bytes[3]);
    assert(be32_at(data, base) == be32_at(bytes, 0));
    lemma_be32_round_trip(value);
}

/// The first of two joined units is found where the units before it end.
proof fn lemma_first_unit_is_found(prefix: Seq<u8>, unit: Seq<u8>, rest: Seq<u8>)
    requires
        0 < unit.len() <= u32::MAX,
    ensures
        ({
            let data = prefix + be32(unit.len() as u32) + unit + rest;
            let base = prefix.len() as int;
            &&& data.len() == base + 4 + unit.len() + rest.len()
            &&& be32_at(data, base) == unit.len()
            &&& data.subrange(base + 4, base + 4 + unit.len()) == unit
        }),
{
    let length = unit.len() as u32;
    let data = prefix + be32(length) + unit + rest;
    let base = prefix.len() as int;
    assert(be32_at(data, base) == length) by {
        lemma_length_is_read_back(prefix, length, unit + rest);
        assert(prefix + be32(length) + (unit + rest) =~= data);
    }
    assert(data.subrange(base + 4, base + 4 + unit.len()) =~= unit);
}

#[verifier::spinoff_prover]
proof fn lemma_units_of_joined_from(prefix: Seq<u8>, units: Seq<Seq<u8>>)
    requires
        forall|i: int| 0 <= i < units.len() ==> 0 < (#[trigger] units[i]).len() <= u32::MAX,
    ensures
        avcc_units_from(prefix + avcc_joined(units), prefix.len() as int) == Ok::<_, AvccError>(units),
    decreases units.len(),
{
    let data = prefix + avcc_joined(units);
    if units.len() == 0 {
        assert(data =~= prefix);
        assert(units =~= Seq::empty());
    } else {
        let unit = units[0];
        let length = unit.len() as u32;
        let next = prefix + be32(length) + unit;
        let rest = units.drop_first();
        assert forall|i: int| 0 <= i < rest.len() implies 0 < (#[trigger] rest[i]).len()
            <= u32::MAX by {
            assert(rest[i] == units[i + 1]);
        }
        lemma_units_of_joined_from(next, rest);
        assert(next + avcc_joined(rest) =~= data);
        lemma_first_unit_is_found(prefix, unit, avcc_joined(rest));
        assert(next.len() == prefix.len() + 4 + length);
        assert(units =~= seq![unit] + rest);
    }
}

/// Joining non-empty NAL units behind their lengths and taking them apart again gives the same
/// units, whatever they hold.
pub proof fn lemma_joined_units_are_recovered(units: Seq<Seq<u8>>)
    requires
        forall|i: int| 0 <= i < units.len() ==> 0 < (#[trigger] units[i]).len() <= u32::MAX,
    ensures
        avcc_units(avcc_joined(units)) == Ok::<_, AvccError>(units),
{
    lemma_units_of_joined_from(Seq::empty(), units);
    assert(Seq::<u8>::empty() + avcc_joined(units) =~= avcc_joined(units));
}

/// The Annex-B form of an access unit: its parameter sets first, where there are any, and then
/// each NAL unit behind a start code.
pub open spec fn annex_b_of(
    data: Seq<u8>,
    parameter_sets: Option<(Seq<u8>, Seq<u8>)>,
) -> Result<Seq<u8>, AvccError> {
    let sets = match parameter_sets {
        Some((sps, pps)) => seq![sps, pps],
        None => Seq::<Seq<u8>>::empty(),
    };
    match avcc_units(data) {
        Ok(units) => Ok(annex_b(sets + units)),
        Err(error) => Err(error),
    }
}

/// An Annex-B stream is its NAL units in their order, each behind a start code of three zeros and
/// a one.
pub proof fn lemma_every_unit_has_its_start_code(units: Seq<Seq<u8>>)
    ensures
        annex_b(units) == units.map_values(
            |unit: Seq<u8>| seq![0u8, 0u8, 0u8, 1u8] + unit,
        ).flatten(),
    decreases units.len(),
{
    let parts = units.map_values(|unit: Seq<u8>| seq![0u8, 0u8, 0u8, 1u8] + unit);
    if units.len() > 0 {
        let front = units.drop_last();
        lemma_every_unit_has_its_start_code(front);
        let before = front.map_values(|unit: Seq<u8>| seq![0u8, 0u8, 0u8, 1u8] + unit);
        assert(parts.drop_last() =~= before);
        parts.lemma_flatten_and_flatten_alt_are_equivalent();
        before.lemma_flatten_and_flatten_alt_are_equivalent();
        assert(parts.last() == start_code() + units.last());
        assert(annex_b(units) =~= annex_b(front) + (start_code() + units.last()));
    }
}

/// A length-prefixed access unit is its NAL units in their order, each behind its length.
pub proof fn lemma_every_unit_has_its_length(units: Seq<Seq<u8>>)
    ensures
        avcc_joined(units) == units.map_values(
            |unit: Seq<u8>| be32(unit.len() as u32) + unit,
        ).flatten(),
    decreases units.len(),
{
    let parts = units.map_values(|unit: Seq<u8>| be32(unit.len() as u32) + unit);
    if units.len() > 0 {
        let rest = units.drop_first();
        lemma_every_unit_has_its_length(rest);
        let after = rest.map_values(|unit: Seq<u8>| be32(unit.len() as u32) + unit);
        assert(parts.drop_first() =~= after);
        assert(parts.first() == be32(units[0].len() as u32) + units[0]);
    }
}

/// A frame is taken apart at its lengths and put together again with start codes, its parameter
/// sets in front where it has them.
pub proof fn lemma_frames_are_put_together_again(units: Seq<Seq<u8>>, sps: Seq<u8>, pps: Seq<u8>)
    requires
        forall|i: int| 0 <= i < units.len() ==> 0 < (#[trigger] units[i]).len() <= u32::MAX,
    ensures
        annex_b_of(avcc_joined(units), None) == Ok::<Seq<u8>, AvccError>(annex_b(units)),
        annex_b_of(avcc_joined(units), Some((sps, pps))) == Ok::<Seq<u8>, AvccError>(
            annex_b(seq![sps, pps] + units),
        ),
{
    let data = avcc_joined(units);
    assert(avcc_units(data) == Ok::<Seq<Seq<u8>>, AvccError>(units)) by {
        lemma_joined_units_are_recovered(units);
    }
    assert(annex_b_of(data, None) == Ok::<Seq<u8>, AvccError>(annex_b(units))) by {
        assert(Seq::<Seq<u8>>::empty() + units =~= units);
    }
    assert(annex_b_of(data, Some((sps, pps))) == Ok::<Seq<u8>, AvccError>(
        annex_b(seq![sps, pps] + units),
    ));
}

/// The parameter sets stand in front of the frame, the sequence's before the picture's.
pub proof fn lemma_sets_stand_in_front(units: Seq<Seq<u8>>, sps: Seq<u8>, pps: Seq<u8>)
    ensures
        annex_b(seq![sps, pps] + units) == start_code() + sps + start_code() + pps + annex_b(units),
    decreases units.len(),
{
    let sets = seq![sps, pps];
    if units.len() == 0 {
        assert(sets + units =~= sets);
        assert(sets.drop_last() =~= seq![sps]);
        assert(seq![sps].drop_last() =~= Seq::<Seq<u8>>::empty());
        assert(annex_b(Seq::<Seq<u8>>::empty()) =~= Seq::<u8>::empty());
        assert(annex_b(seq![sps]) =~= start_code() + sps);
        assert(annex_b(sets) =~= start_code() + sps + start_code() + pps);
        assert(annex_b(units) =~= Seq::<u8>::empty());
        assert(annex_b(sets + units) =~= start_code() + sps + start_code() + pps + annex_b(units));
    } else {
        let front = units.drop_last();
        lemma_sets_stand_in_front(front, sps, pps);
        assert((sets + units).drop_last() =~= sets + front);
        assert((sets + units).last() == units.last());
        assert(annex_b(sets + units) =~= start_code() + sps + start_code() + pps + annex_b(units));
    }
}

/// A length of zero, or one that runs past the end, is refused by its value, and what is too short
/// for a length is refused too.
pub proof fn lemma_bad_lengths_are_refused(data: Seq<u8>)
    ensures
        data.len() == 0 ==> avcc_units(data) == Ok::<Seq<Seq<u8>>, AvccError>(Seq::empty()),
        0 < data.len() < 4 ==> avcc_units(data) == Err::<Seq<Seq<u8>>, AvccError>(
            AvccError::TruncatedLength,
        ),
        data.len() >= 4 ==> {
            let length = data[0] * 0x100_0000 + data[1] * 0x1_0000 + data[2] * 0x100 + data[3];
            length == 0 || length > data.len() - 4 ==> avcc_units(data) == Err::<
                Seq<Seq<u8>>,
                AvccError,
            >(AvccError::InvalidLength(length as u32))
        },
{
}

fn push_start_code(output: &mut Vec<u8>)
    ensures
        final(output)@ == old(output)@ + start_code(),
{
    output.push(0);
    output.push(0);
    output.push(0);
    output.push(1);
    assert(output@ =~= old(output)@ + start_code());
}

fn push_unit(output: &mut Vec<u8>, unit: &[u8], start: usize, end: usize, Ghost(units): Ghost<Seq<Seq<u8>>>)
    requires
        start <= end <= unit@.len(),
        old(output)@ == annex_b(units),
    ensures
        final(output)@ == annex_b(units.push(unit@.subrange(start as int, end as int))),
{
    push_start_code(output);
    push_range(output, unit, start, end);
    proof {
        let last = unit@.subrange(start as int, end as int);
        assert(units.push(last).drop_last() =~= units);
    }
}

/// Turns a length-prefixed access unit into Annex-B, with the parameter sets in front where the
/// frame needs them.
pub fn avcc_to_annex_b(data: &[u8], parameter_sets: Option<(&Vec<u8>, &Vec<u8>)>) -> (result: Result<
    Vec<u8>,
    AvccError,
>)
    ensures
        match (
            result,
            annex_b_of(
                data@,
                match parameter_sets {
                    Some((sps, pps)) => Some((sps@, pps@)),
                    None => None,
                },
            ),
        ) {
            (Ok(output), Ok(expected)) => output@ == expected,
            (Err(error), Err(expected)) => error == expected,
            _ => false,
        },
{
    let mut output: Vec<u8> = Vec::new();
    let ghost mut units: Seq<Seq<u8>> = Seq::empty();
    assert(output@ =~= annex_b(units));
    let ghost sets: Seq<Seq<u8>> = match parameter_sets {
        Some((sps, pps)) => seq![sps@, pps@],
        None => Seq::<Seq<u8>>::empty(),
    };
    if let Some((sps, pps)) = parameter_sets {
        push_unit(&mut output, sps.as_slice(), 0, sps.len(), Ghost(units));
        proof {
            assert(sps@.subrange(0, sps@.len() as int) =~= sps@);
            units = units.push(sps@);
        }
        push_unit(&mut output, pps.as_slice(), 0, pps.len(), Ghost(units));
        proof {
            assert(pps@.subrange(0, pps@.len() as int) =~= pps@);
            units = units.push(pps@);
        }
    }
    assert(units =~= sets);
    let ghost mut parsed: Seq<Seq<u8>> = Seq::empty();
    assert(sets + parsed =~= sets);

    let mut offset: usize = 0;
    while offset < data.len()
        invariant
            offset <= data@.len(),
            output@ == annex_b(sets + parsed),
            match (avcc_units(data@), avcc_units_from(data@, offset as int)) {
                (Ok(all), Ok(rest)) => all == parsed + rest,
                (Err(all), Err(rest)) => all == rest,
                _ => false,
            },
        decreases data@.len() - offset,
    {
        if data.len() - offset < 4 {
            return Err(AvccError::TruncatedLength);
        }
        let length: u32 = read_u32(data, offset);
        if length == 0 || length as usize > data.len() - offset - 4 {
            return Err(AvccError::InvalidLength(length));
        }
        let start: usize = offset + 4;
        push_unit(&mut output, data, start, start + length as usize, Ghost(sets + parsed));
        proof {
            let unit = data@.subrange(start as int, start + length);
            assert((sets + parsed).push(unit) =~= sets + parsed.push(unit));
            if let Ok(rest) = avcc_units_from(data@, start + length) {
                assert(parsed + (seq![unit] + rest) =~= parsed.push(unit) + rest);
            }
            parsed = parsed.push(unit);
        }
        offset = start + length as usize;
    }
    assert(parsed + Seq::<Seq<u8>>::empty() =~= parsed);
    Ok(output)
}

/// Whether a NAL unit of this type comes before the first malformed length, and the error of
/// that length otherwise.
pub open spec fn contains_nal_from(data: Seq<u8>, offset: int, wanted: u8) -> Result<bool, AvccError>
    decreases data.len() - offset,
{
    if offset >= data.len() {
        Ok(false)
    } else if data.len() - offset < 4 {
        Err(AvccError::TruncatedLength)
    } else {
        let length = be32_at(data, offset);
        if length == 0 || length > data.len() - offset - 4 {
            Err(AvccError::InvalidLength(length))
        } else if data[offset + 4] & 0x1f == wanted {
            Ok(true)
        } else {
            contains_nal_from(data, offset + 4 + length, wanted)
        }
    }
}

/// Whether an access unit holds a NAL unit of the wanted type.
pub fn avcc_contains_nal_type(data: &[u8], wanted: u8) -> (result: Result<bool, AvccError>)
    ensures
        result == contains_nal_from(data@, 0, wanted),
{
    let mut offset: usize = 0;
    while offset < data.len()
        invariant
            offset <= data@.len(),
            contains_nal_from(data@, 0, wanted) == contains_nal_from(data@, offset as int, wanted),
        decreases data@.len() - offset,
    {
        if data.len() - offset < 4 {
            return Err(AvccError::TruncatedLength);
        }
        let length: u32 = read_u32(data, offset);
        if length == 0 || length as usize > data.len() - offset - 4 {
            return Err(AvccError::InvalidLength(length));
        }
        if data[offset + 4] & 0x1f == wanted {
            return Ok(true);
        }
        offset = offset + 4 + length as usize;
    }
    Ok(false)
}

/// Over well-formed access units, the search finds the wanted type exactly where one of the NAL
/// units starts with it.
pub proof fn lemma_contains_nal_type_searches_every_unit(data: Seq<u8>, offset: int, wanted: u8)
    requires
        0 <= offset,
        avcc_units_from(data, offset) is Ok,
    ensures
        contains_nal_from(data, offset, wanted) == Ok::<bool, AvccError>(
            exists|i: int|
                0 <= i < avcc_units_from(data, offset)->Ok_0.len() && (
                #[trigger] avcc_units_from(data, offset)->Ok_0[i])[0] & 0x1f == wanted,
        ),
    decreases data.len() - offset,
{
    if offset < data.len() {
        let length = be32_at(data, offset);
        let units = avcc_units_from(data, offset)->Ok_0;
        let rest = avcc_units_from(data, offset + 4 + length)->Ok_0;
        lemma_contains_nal_type_searches_every_unit(data, offset + 4 + length, wanted);
        assert(units[0][0] == data[offset + 4]);
        assert forall|i: int| 0 <= i < rest.len() implies #[trigger] rest[i] == units[i + 1] by {}
        if exists|i: int| 0 <= i < units.len() && (#[trigger] units[i])[0] & 0x1f == wanted {
            let i = choose|i: int| 0 <= i < units.len() && (#[trigger] units[i])[0] & 0x1f == wanted;
            if i > 0 {
                assert(rest[i - 1] == units[i]);
            }
        }
    }
}

/// An H.264 Baseline level and the codec parameter that names it.
#[derive(Clone, Copy, Debug)]
pub struct H264Level {
    pub name: &'static str,
    pub codec_parameter: &'static str,
}

/// What a stream asks of a decoder.
#[derive(Clone, Copy, Debug, PartialEq, Eq, Structural)]
pub struct StreamDemand {
    pub macroblocks_per_frame: u64,
    pub macroblocks_per_second: u64,
    pub bitrate: u64,
}

/// A stream that exceeds every Baseline level.
#[derive(Clone, Copy, Debug, PartialEq, Eq, Structural)]
pub struct LevelExceeded {
    pub width: u32,
    pub height: u32,
    pub fps: u32,
    pub bitrate: u64,
}

/// The macroblocks of a frame, the macroblocks of a second and the bitrate that a level allows.
/// The levels are 3.1, 3.2, 4.0, 4.1, 4.2, 5.0, 5.1 and 5.2, in this order.
pub open spec fn level_limits(level: int) -> (int, int, int) {
    if level == 0 {
        (3_600, 108_000, 14_000_000)
    } else if level == 1 {
        (5_120, 216_000, 20_000_000)
    } else if level == 2 {
        (8_192, 245_760, 20_000_000)
    } else if level == 3 {
        (8_192, 245_760, 50_000_000)
    } else if level == 4 {
        (8_704, 522_240, 50_000_000)
    } else if level == 5 {
        (22_080, 589_824, 135_000_000)
    } else if level == 6 {
        (36_864, 983_040, 240_000_000)
    } else {
        (36_864, 2_073_600, 240_000_000)
    }
}

pub open spec fn level_name(level: int) -> Seq<char> {
    if level == 0 {
        "3.1"@
    } else if level == 1 {
        "3.2"@
    } else if level == 2 {
        "4.0"@
    } else if level == 3 {
        "4.1"@
    } else if level == 4 {
        "4.2"@
    } else if level == 5 {
        "5.0"@
    } else if level == 6 {
        "5.1"@
    } else {
        "5.2"@
    }
}

pub open spec fn level_codec_parameter(level: int) -> Seq<char> {
    if level == 0 {
        "avc1.42001F"@
    } else if level == 1 {
        "avc1.420020"@
    } else if level == 2 {
        "avc1.420028"@
    } else if level == 3 {
        "avc1.420029"@
    } else if level == 4 {
        "avc1.42002A"@
    } else if level == 5 {
        "avc1.420032"@
    } else if level == 6 {
        "avc1.420033"@
    } else {
        "avc1.420034"@
    }
}

pub open spec fn level_carries(level: int, demand: StreamDemand) -> bool {
    let (frame, second, bitrate) = level_limits(level);
    demand.macroblocks_per_frame <= frame && demand.macroblocks_per_second <= second
        && demand.bitrate <= bitrate
}

/// The lowest level from `level` on that carries the demand.
pub open spec fn lowest_level(level: int, demand: StreamDemand) -> Option<int>
    decreases 8 - level,
{
    if level >= 8 {
        None
    } else if level_carries(level, demand) {
        Some(level)
    } else {
        lowest_level(level + 1, demand)
    }
}

/// The macroblocks along one side of a frame.
pub open spec fn macroblocks(pixels: u32) -> int {
    (pixels + 15) / 16
}

/// What a stream asks of a decoder; a rate that is too large to count fills its counter.
pub open spec fn demand_of(width: u32, height: u32, fps: u32, bitrate: u64) -> StreamDemand {
    let frame = macroblocks(width) * macroblocks(height);
    StreamDemand {
        macroblocks_per_frame: frame as u64,
        macroblocks_per_second: if frame * fps <= u64::MAX {
            (frame * fps) as u64
        } else {
            u64::MAX
        },
        bitrate,
    }
}

/// The level chosen for a stream is the lowest that carries it: it does, and none below it does.
pub proof fn lemma_the_lowest_level_is_chosen(level: int, demand: StreamDemand)
    requires
        0 <= level,
    ensures
        lowest_level(level, demand) matches Some(chosen) ==> level <= chosen < 8 && level_carries(
            chosen,
            demand,
        ) && (forall|lower: int| level <= lower < chosen ==> !#[trigger] level_carries(lower, demand)),
        lowest_level(level, demand) is None ==> forall|any: int|
            level <= any < 8 ==> !#[trigger] level_carries(any, demand),
    decreases 8 - level,
{
    if level < 8 && !level_carries(level, demand) {
        lemma_the_lowest_level_is_chosen(level + 1, demand);
    }
}

/// Levels rise: a higher one carries whatever a lower one does.
pub proof fn lemma_higher_levels_carry_more(lower: int, higher: int, demand: StreamDemand)
    requires
        0 <= lower <= higher < 8,
        level_carries(lower, demand),
    ensures
        level_carries(higher, demand),
{
}

/// What the levels carry: 720 lines at 30 frames a second and 14 Mbit/s take level 3.1, full HD
/// takes level 4.0 at 30 frames a second and 4.2 at 60, four times that takes level 5.1 at 30 and
/// 5.2 at 60.
pub proof fn lemma_common_pictures_have_their_levels(width: u32, height: u32, fps: u32, bitrate: u64)
    ensures
        ({
            let level = lowest_level(0, demand_of(width, height, fps, bitrate));
            &&& width <= 1280 && height <= 720 && fps <= 30 && bitrate <= 14_000_000 ==> level
                == Some(0int)
            &&& 1904 < width <= 1920 && 1072 < height <= 1088 && 0 < fps <= 30 && bitrate
                <= 20_000_000 ==> level == Some(2int)
            &&& 1904 < width <= 1920 && 1072 < height <= 1088 && 31 <= fps <= 60 && bitrate
                <= 50_000_000 ==> level == Some(4int)
            &&& 3824 < width <= 3840 && 2144 < height <= 2160 && 19 <= fps <= 30 && bitrate
                <= 240_000_000 ==> level == Some(6int)
            &&& 3824 < width <= 3840 && 2144 < height <= 2160 && 31 <= fps <= 60 && bitrate
                <= 240_000_000 ==> level == Some(7int)
            &&& bitrate > 240_000_000 ==> level is None
        }),
{
    let across = macroblocks(width);
    let down = macroblocks(height);
    let frame = across * down;
    assert(0 <= frame <= 0x1000_0000 * 0x1000_0000) by (nonlinear_arith)
        requires
            frame == across * down,
            0 <= across <= 0x1000_0000,
            0 <= down <= 0x1000_0000,
    ;
    let second = frame * fps;
    assert(0 <= second) by (nonlinear_arith)
        requires
            second == frame * fps,
            0 <= frame,
    ;
    reveal_with_fuel(lowest_level, 9);
    if width <= 1280 && height <= 720 && fps <= 30 {
        assert(frame <= 3600) by (nonlinear_arith)
            requires
                frame == across * down,
                0 <= across <= 80,
                0 <= down <= 45,
        ;
        assert(second <= 108_000) by (nonlinear_arith)
            requires
                second == frame * fps,
                0 <= frame <= 3600,
                fps <= 30,
        ;
    }
    if 1904 < width <= 1920 && 1072 < height <= 1088 {
        assert(frame == 8160) by (nonlinear_arith)
            requires
                frame == across * down,
                across == 120,
                down == 68,
        ;
        assert(second == 8160 * fps);
    }
    if 3824 < width <= 3840 && 2144 < height <= 2160 {
        assert(frame == 32_400) by (nonlinear_arith)
            requires
                frame == across * down,
                across == 240,
                down == 135,
        ;
        assert(second == 32_400 * fps);
    }
}

/// The codec parameter names the level that it stands for: its last two digits are ten times the
/// level, as a hexadecimal number.
pub proof fn lemma_codec_parameters_name_the_level(level: int)
    requires
        0 <= level < 8,
    ensures
        ({
            let name = level_name(level);
            let parameter = level_codec_parameter(level);
            let number = (name[0] as int - '0' as int) * 10 + (name[2] as int - '0' as int);
            &&& name.len() == 3 && name[1] == '.'
            &&& parameter.len() == 11
            &&& parameter.take(9) == "avc1.4200"@
            &&& upper_hex_value(parameter[9]) * 16 + upper_hex_value(parameter[10]) == number
        }),
{
    reveal_strlit("3.1");
    reveal_strlit("3.2");
    reveal_strlit("4.0");
    reveal_strlit("4.1");
    reveal_strlit("4.2");
    reveal_strlit("5.0");
    reveal_strlit("5.1");
    reveal_strlit("5.2");
    reveal_strlit("avc1.42001F");
    reveal_strlit("avc1.420020");
    reveal_strlit("avc1.420028");
    reveal_strlit("avc1.420029");
    reveal_strlit("avc1.42002A");
    reveal_strlit("avc1.420032");
    reveal_strlit("avc1.420033");
    reveal_strlit("avc1.420034");
    reveal_strlit("avc1.4200");
    assert(level_codec_parameter(level).take(9) =~= "avc1.4200"@);
}

/// The value of an upper-case hexadecimal digit.
pub open spec fn upper_hex_value(character: char) -> int {
    if '0' <= character <= '9' {
        character as int - '0' as int
    } else {
        character as int - 'A' as int + 10
    }
}

fn side_in_macroblocks(pixels: u32) -> (count: u64)
    ensures
        count == macroblocks(pixels),
        count <= 0x1000_0000,
{
    (pixels as u64 + 15) / 16
}

impl H264Level {
    /// The lowest Baseline level that carries a stream.
    pub fn for_stream(width: u32, height: u32, fps: u32, bitrate: u64) -> (result: Result<
        Self,
        LevelExceeded,
    >)
        ensures
            match (result, lowest_level(0, demand_of(width, height, fps, bitrate))) {
                (Ok(level), Some(index)) => level.name@ == level_name(index)
                    && level.codec_parameter@ == level_codec_parameter(index),
                (Err(error), None) => error == (LevelExceeded { width, height, fps, bitrate }),
                _ => false,
            },
    {
        let across: u64 = side_in_macroblocks(width);
        let down: u64 = side_in_macroblocks(height);
        assert(0 <= across * down <= 0x1000_0000 * 0x1000_0000) by (nonlinear_arith)
            requires
                0 <= across <= 0x1000_0000,
                0 <= down <= 0x1000_0000,
        ;
        let frame: u64 = across * down;
        let second: u64 = match frame.checked_mul(fps as u64) {
            Some(second) => second,
            None => u64::MAX,
        };
        proof {
            reveal_with_fuel(lowest_level, 9);
        }
        if frame <= 3_600 && second <= 108_000 && bitrate <= 14_000_000 {
            return Ok(H264Level { name: "3.1", codec_parameter: "avc1.42001F" });
        }
        if frame <= 5_120 && second <= 216_000 && bitrate <= 20_000_000 {
            return Ok(H264Level { name: "3.2", codec_parameter: "avc1.420020" });
        }
        if frame <= 8_192 && second <= 245_760 && bitrate <= 20_000_000 {
            return Ok(H264Level { name: "4.0", codec_parameter: "avc1.420028" });
        }
        if frame <= 8_192 && second <= 245_760 && bitrate <= 50_000_000 {
            return Ok(H264Level { name: "4.1", codec_parameter: "avc1.420029" });
        }
        if frame <= 8_704 && second <= 522_240 && bitrate <= 50_000_000 {
            return Ok(H264Level { name: "4.2", codec_parameter: "avc1.42002A" });
        }
        if frame <= 22_080 && second <= 589_824 && bitrate <= 135_000_000 {
            return Ok(H264Level { name: "5.0", codec_parameter: "avc1.420032" });
        }
        if frame <= 36_864 && second <= 983_040 && bitrate <= 240_000_000 {
            return Ok(H264Level { name: "5.1", codec_parameter: "avc1.420033" });
        }
        if frame <= 36_864 && second <= 2_073_600 && bitrate <= 240_000_000 {
            return Ok(H264Level { name: "5.2", codec_parameter: "avc1.420034" });
        }
        Err(LevelExceeded { width, height, fps, bitrate })
    }
}

} // verus!
