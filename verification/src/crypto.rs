//! Cast Streaming frame encryption: AES-128 in counter mode, one nonce per frame.

use aes::cipher::{KeyIvInit, StreamCipher};
use vstd::prelude::*;

use crate::bytes::be32;

verus! {

/// The byte at `position` of the AES-128 counter-mode keystream for this key and this initial
/// counter block.
pub uninterp spec fn aes128_ctr_keystream(key: Seq<u8>, counter: Seq<u8>, position: int) -> u8;

/// Calls `StreamCipher::apply_keystream` on a fresh `ctr::Ctr128BE<aes::Aes128>`.
///
/// Claims that the output is the input with each byte combined by exclusive or with the keystream
/// byte of its position, and that this byte depends on the key, the initial counter block and the
/// position alone. What the keystream is, is left unsaid.
#[verifier::external_body]
fn aes128_ctr(data: &[u8], key: &[u8; 16], counter: &[u8; 16]) -> (output: Vec<u8>)
    ensures
        output@.len() == data@.len(),
        forall|i: int|
            0 <= i < data@.len() ==> #[trigger] output@[i] == data@[i] ^ aes128_ctr_keystream(
                key@,
                counter@,
                i,
            ),
{
    let mut output = data.to_vec();
    let mut cipher = ctr::Ctr128BE::<aes::Aes128>::new(key.into(), counter.into());
    cipher.apply_keystream(&mut output);
    output
}

/// The initial counter block of a frame: the mask with the frame ID worked into bytes 8 to 11.
pub open spec fn frame_nonce(iv_mask: Seq<u8>, frame_id: u32) -> Seq<u8> {
    Seq::new(
        iv_mask.len(),
        |i: int|
            if 8 <= i < 12 {
                iv_mask[i] ^ be32(frame_id)[i - 8]
            } else {
                iv_mask[i]
            },
    )
}

/// A frame combined with the keystream of its frame ID.
pub open spec fn encrypted(data: Seq<u8>, frame_id: u32, key: Seq<u8>, iv_mask: Seq<u8>) -> Seq<u8> {
    Seq::new(
        data.len(),
        |i: int| data[i] ^ aes128_ctr_keystream(key, frame_nonce(iv_mask, frame_id), i),
    )
}

/// Encrypting a frame twice under the same frame ID, key and mask gives the frame back.
pub proof fn lemma_frame_encryption_round_trips(
    data: Seq<u8>,
    frame_id: u32,
    key: Seq<u8>,
    iv_mask: Seq<u8>,
)
    ensures
        encrypted(encrypted(data, frame_id, key, iv_mask), frame_id, key, iv_mask) == data,
{
    let twice = encrypted(encrypted(data, frame_id, key, iv_mask), frame_id, key, iv_mask);
    assert forall|i: int| 0 <= i < data.len() implies twice[i] == data[i] by {
        let byte = data[i];
        let stream = aes128_ctr_keystream(key, frame_nonce(iv_mask, frame_id), i);
        assert((byte ^ stream) ^ stream == byte) by (bit_vector);
    }
    assert(twice =~= data);
}

/// Frames with different IDs never share an initial counter block.
pub proof fn lemma_frame_ids_alter_the_nonce(iv_mask: Seq<u8>, first: u32, second: u32)
    requires
        iv_mask.len() == 16,
        first != second,
    ensures
        frame_nonce(iv_mask, first) != frame_nonce(iv_mask, second),
{
    if frame_nonce(iv_mask, first) == frame_nonce(iv_mask, second) {
        assert forall|i: int| 0 <= i < 4 implies be32(first)[i] == be32(second)[i] by {
            let mask = iv_mask[i + 8];
            let a = be32(first)[i];
            let b = be32(second)[i];
            assert(frame_nonce(iv_mask, first)[i + 8] == frame_nonce(iv_mask, second)[i + 8]);
            assert(mask ^ a == mask ^ b ==> a == b) by (bit_vector);
        }
        assert(be32(first)[0] == be32(second)[0]);
        assert(be32(first)[1] == be32(second)[1]);
        assert(be32(first)[2] == be32(second)[2]);
        assert(be32(first)[3] == be32(second)[3]);
        assert(false);
    }
}

/// The counter block of a frame differs from the mask in bytes 8 to 11 only, and by the frame ID:
/// its most significant byte is worked into the first of them.
pub proof fn lemma_frame_ids_stand_in_the_nonce(iv_mask: Seq<u8>, frame_id: u32)
    requires
        iv_mask.len() == 16,
    ensures
        ({
            let nonce = frame_nonce(iv_mask, frame_id);
            &&& nonce.len() == 16
            &&& nonce.take(8) == iv_mask.take(8)
            &&& nonce.skip(12) == iv_mask.skip(12)
            &&& (nonce[8] ^ iv_mask[8]) * 0x100_0000 + (nonce[9] ^ iv_mask[9]) * 0x1_0000 + (
            nonce[10] ^ iv_mask[10]) * 0x100 + (nonce[11] ^ iv_mask[11]) == frame_id
        }),
{
    let nonce = frame_nonce(iv_mask, frame_id);
    assert(nonce.take(8) =~= iv_mask.take(8));
    assert(nonce.skip(12) =~= iv_mask.skip(12));
    assert forall|mask: u8, part: u8| #[trigger] (mask ^ part) ^ mask == part by {
        assert((mask ^ part) ^ mask == part) by (bit_vector);
    }
    let parts = be32(frame_id);
    assert((iv_mask[8] ^ parts[0]) ^ iv_mask[8] == parts[0]);
    assert((iv_mask[9] ^ parts[1]) ^ iv_mask[9] == parts[1]);
    assert((iv_mask[10] ^ parts[2]) ^ iv_mask[10] == parts[2]);
    assert((iv_mask[11] ^ parts[3]) ^ iv_mask[11] == parts[3]);
}

/// An encrypted frame has the length of the frame, and each of its bytes differs from the frame's
/// by the byte of the keystream at its place.
pub proof fn lemma_encryption_applies_the_keystream(
    data: Seq<u8>,
    frame_id: u32,
    key: Seq<u8>,
    iv_mask: Seq<u8>,
    place: int,
)
    requires
        0 <= place < data.len(),
    ensures
        encrypted(data, frame_id, key, iv_mask).len() == data.len(),
        encrypted(data, frame_id, key, iv_mask)[place] ^ data[place] == aes128_ctr_keystream(
            key,
            frame_nonce(iv_mask, frame_id),
            place,
        ),
{
    let byte = data[place];
    let stream = aes128_ctr_keystream(key, frame_nonce(iv_mask, frame_id), place);
    assert((byte ^ stream) ^ byte == stream) by (bit_vector);
}

/// Encrypts one frame. The same call decrypts it.
pub fn encrypt_frame(data: &[u8], frame_id: u32, key: &[u8; 16], iv_mask: &[u8; 16]) -> (output: Vec<
    u8,
>)
    ensures
        output@ == encrypted(data@, frame_id, key@, iv_mask@),
{
    let mut nonce: [u8; 16] = *iv_mask;
    nonce[8] = nonce[8] ^ (frame_id / 0x100_0000) as u8;
    nonce[9] = nonce[9] ^ ((frame_id / 0x1_0000) % 256) as u8;
    nonce[10] = nonce[10] ^ ((frame_id / 0x100) % 256) as u8;
    nonce[11] = nonce[11] ^ (frame_id % 256) as u8;
    assert(nonce@ =~= frame_nonce(iv_mask@, frame_id));
    let output: Vec<u8> = aes128_ctr(data, key, &nonce);
    assert(output@ =~= encrypted(data@, frame_id, key@, iv_mask@));
    output
}

} // verus!
