//! Big-endian integers, hexadecimal text and small numeric helpers.

use vstd::prelude::*;

verus! {

/// The two bytes of `value`, most significant first.
pub open spec fn be16(value: u16) -> Seq<u8> {
    seq![(value / 256) as u8, (value % 256) as u8]
}

/// The four bytes of `value`, most significant first.
pub open spec fn be32(value: u32) -> Seq<u8> {
    seq![
        (value / 0x100_0000) as u8,
        ((value / 0x1_0000) % 256) as u8,
        ((value / 0x100) % 256) as u8,
        (value % 256) as u8,
    ]
}

/// The eight bytes of `value`, most significant first.
pub open spec fn be64(value: u64) -> Seq<u8> {
    be32((value / 0x1_0000_0000) as u32) + be32((value % 0x1_0000_0000) as u32)
}

/// The number that the two bytes at `offset` hold, most significant first.
pub open spec fn be16_at(data: Seq<u8>, offset: int) -> u16 {
    (data[offset] * 256 + data[offset + 1]) as u16
}

/// The number that the four bytes at `offset` hold, most significant first.
pub open spec fn be32_at(data: Seq<u8>, offset: int) -> u32 {
    (data[offset] * 0x100_0000 + data[offset + 1] * 0x1_0000 + data[offset + 2] * 0x100 + data[offset
        + 3]) as u32
}

/// Reading back the four bytes of a number gives the number.
pub proof fn lemma_be32_round_trip(value: u32)
    ensures
        be32_at(be32(value), 0) == value,
{
}

/// Reading back the two bytes of a number gives the number.
pub proof fn lemma_be16_round_trip(value: u16)
    ensures
        be16_at(be16(value), 0) == value,
{
}

/// The bytes of a number stand in the order of their weight: the first counts most.
pub proof fn lemma_first_bytes_count_most(short: u16, value: u32, long: u64, data: Seq<u8>, offset: int)
    ensures
        be16(short).len() == 2,
        be16(short)[0] * 0x100 + be16(short)[1] == short,
        be32(value).len() == 4,
        be32(value)[0] * 0x100_0000 + be32(value)[1] * 0x1_0000 + be32(value)[2] * 0x100 + be32(
            value,
        )[3] == value,
        be64(long).len() == 8,
        be64(long)[0] * 0x100_0000_0000_0000 + be64(long)[1] * 0x1_0000_0000_0000 + be64(long)[2]
            * 0x100_0000_0000 + be64(long)[3] * 0x1_0000_0000 + be64(long)[4] * 0x100_0000 + be64(
            long,
        )[5] * 0x1_0000 + be64(long)[6] * 0x100 + be64(long)[7] == long,
        be16_at(data, offset) == data[offset] * 0x100 + data[offset + 1],
        be32_at(data, offset) == data[offset] * 0x100_0000 + data[offset + 1] * 0x1_0000
            + data[offset + 2] * 0x100 + data[offset + 3],
{
    let high = (long / 0x1_0000_0000) as u32;
    let low = (long % 0x1_0000_0000) as u32;
    lemma_weights(value);
    lemma_weights(high);
    lemma_weights(low);
    assert(high * 0x1_0000_0000 + low == long);
    let front = be32(high);
    let back = be32(low);
    let bytes = be64(long);
    assert(bytes == front + back);
    assert(bytes[0] == front[0] && bytes[1] == front[1] && bytes[2] == front[2] && bytes[3]
        == front[3]);
    assert(bytes[4] == back[0] && bytes[5] == back[1] && bytes[6] == back[2] && bytes[7] == back[3]);
}

proof fn lemma_weights(value: u32)
    ensures
        be32(value).len() == 4,
        be32(value)[0] * 0x100_0000 + be32(value)[1] * 0x1_0000 + be32(value)[2] * 0x100 + be32(
            value,
        )[3] == value,
{
}

/// Appends the two bytes of `value`, most significant first.
pub fn push_be16(output: &mut Vec<u8>, value: u16)
    ensures
        final(output)@ == old(output)@ + be16(value),
{
    output.push((value / 256) as u8);
    output.push((value % 256) as u8);
    assert(output@ =~= old(output)@ + be16(value));
}

/// Appends the four bytes of `value`, most significant first.
pub fn push_be32(output: &mut Vec<u8>, value: u32)
    ensures
        final(output)@ == old(output)@ + be32(value),
{
    output.push((value / 0x100_0000) as u8);
    output.push(((value / 0x1_0000) % 256) as u8);
    output.push(((value / 0x100) % 256) as u8);
    output.push((value % 256) as u8);
    assert(output@ =~= old(output)@ + be32(value));
}

/// Appends the eight bytes of `value`, most significant first.
pub fn push_be64(output: &mut Vec<u8>, value: u64)
    ensures
        final(output)@ == old(output)@ + be64(value),
{
    push_be32(output, (value / 0x1_0000_0000) as u32);
    push_be32(output, (value % 0x1_0000_0000) as u32);
    assert(output@ =~= old(output)@ + be64(value));
}

/// Appends a copy of `data`.
pub fn push_bytes(output: &mut Vec<u8>, data: &[u8])
    ensures
        final(output)@ == old(output)@ + data@,
{
    output.extend_from_slice(data);
    assert(output@ =~= old(output)@ + data@);
}

/// Appends a copy of the bytes of `data` from `start` up to `end`.
pub fn push_range(output: &mut Vec<u8>, data: &[u8], start: usize, end: usize)
    requires
        start <= end <= data@.len(),
    ensures
        final(output)@ == old(output)@ + data@.subrange(start as int, end as int),
{
    let mut index: usize = start;
    while index < end
        invariant
            start <= index <= end <= data@.len(),
            output@ == old(output)@ + data@.subrange(start as int, index as int),
        decreases end - index,
    {
        output.push(data[index]);
        index = index + 1;
        assert(data@.subrange(start as int, index as int) =~= data@.subrange(
            start as int,
            index - 1,
        ).push(data@[index - 1]));
        assert(output@ =~= old(output)@ + data@.subrange(start as int, index as int));
    }
}

/// The number in the two bytes at `offset`, most significant first.
pub fn read_u16(data: &[u8], offset: usize) -> (value: u16)
    requires
        offset + 2 <= data@.len(),
    ensures
        value == be16_at(data@, offset as int),
{
    (data[offset] as u16) * 256 + data[offset + 1] as u16
}

/// The number in the four bytes at `offset`, most significant first.
pub fn read_u32(data: &[u8], offset: usize) -> (value: u32)
    requires
        offset + 4 <= data@.len(),
    ensures
        value == be32_at(data@, offset as int),
{
    (data[offset] as u32) * 0x100_0000 + (data[offset + 1] as u32) * 0x1_0000 + (data[offset
        + 2] as u32) * 0x100 + data[offset + 3] as u32
}

/// The largest even number that is not above `value`.
pub fn even(value: u32) -> (result: u32)
    ensures
        result == value - value % 2,
        result % 2 == 0,
        result <= value,
        value <= result + 1,
{
    value - value % 2
}

} // verus!
