//! The fragmented MP4 muxer that live segments come from.

use muxide::api::{MuxerBuilder, MuxerError, VideoCodec};
use muxide::fragmented::{FragmentedError, FragmentedMuxer};
use vstd::prelude::*;

verus! {

/// A fragmented MP4 muxer.
#[verifier::external_type_specification]
#[verifier::external_body]
pub struct ExFragmentedMuxer(FragmentedMuxer);

/// Why a sample was refused.
#[verifier::external_type_specification]
#[verifier::external_body]
pub struct ExFragmentedError(FragmentedError);

/// Why a muxer could not be made.
#[verifier::external_type_specification]
#[verifier::external_body]
pub struct ExMuxerError(MuxerError);

/// Whether a muxer has a single track, of H.264 video in a 90 kHz clock. The names below speak of
/// this track.
pub uninterp spec fn muxes_h264_alone(muxer: FragmentedMuxer) -> bool;

/// What a muxer was made with: the width and the height of the video, its sequence parameter set
/// and its picture parameter set.
pub uninterp spec fn muxer_settings(muxer: FragmentedMuxer) -> (u32, u32, Seq<u8>, Seq<u8>);

/// The samples that wait for the next fragment: presentation time, decode time, bytes, and
/// whether the sample is a keyframe.
pub uninterp spec fn muxer_queue(muxer: FragmentedMuxer) -> Seq<(u64, u64, Seq<u8>, bool)>;

/// Where a muxer stands: the number of its next fragment, the decode time that this fragment will
/// carry, and the decode time of the last sample that it took.
pub uninterp spec fn muxer_timeline(muxer: FragmentedMuxer) -> (u32, u64, Option<u64>);

/// The bytes of the initialization segment of a video of this width and height with these
/// parameter sets.
pub uninterp spec fn init_segment_bytes(
    width: u32,
    height: u32,
    sps: Seq<u8>,
    pps: Seq<u8>,
) -> Seq<u8>;

/// The bytes of the fragment with this number, decode time and samples.
pub uninterp spec fn media_segment_bytes(
    number: u32,
    decode_time: u64,
    samples: Seq<(u64, u64, Seq<u8>, bool)>,
) -> Seq<u8>;

/// The bytes of some samples together.
pub open spec fn sample_bytes(samples: Seq<(u64, u64, Seq<u8>, bool)>) -> int
    decreases samples.len(),
{
    if samples.len() == 0 {
        0
    } else {
        sample_bytes(samples.drop_last()) + samples.last().2.len()
    }
}

/// The bytes of samples add up: those of two groups one after the other are those of both, and one
/// sample counts its own.
pub proof fn lemma_sample_bytes_add_up(
    first: Seq<(u64, u64, Seq<u8>, bool)>,
    second: Seq<(u64, u64, Seq<u8>, bool)>,
)
    ensures
        sample_bytes(first + second) == sample_bytes(first) + sample_bytes(second),
        second.len() == 1 ==> sample_bytes(second) == second[0].2.len(),
        second.len() == 0 ==> sample_bytes(second) == 0,
    decreases second.len(),
{
    if second.len() == 0 {
        assert(first + second =~= first);
    } else {
        lemma_sample_bytes_add_up(first, second.drop_last());
        assert((first + second).drop_last() =~= first + second.drop_last());
    }
}

/// Whether a fragment of these samples fits the 32-bit sizes and offsets of its boxes.
pub open spec fn fragment_fits(samples: Seq<(u64, u64, Seq<u8>, bool)>) -> bool {
    sample_bytes(samples) + 16 * samples.len() + 96 <= u32::MAX
}

/// The decode time of the fragment after one of these samples: the last sample's, and the mean
/// distance between samples. A single sample counts as a thirtieth of a second.
pub open spec fn next_decode_time(samples: Seq<(u64, u64, Seq<u8>, bool)>) -> int {
    let first = samples[0].1;
    let last = samples.last().1;
    if samples.len() >= 2 {
        last + (last - first) / (samples.len() - 1)
    } else {
        first + 3000
    }
}

/// Samples at equal distances go on at that distance.
pub proof fn lemma_even_samples_go_on(samples: Seq<(u64, u64, Seq<u8>, bool)>, first: int, step: int)
    requires
        samples.len() >= 2,
        0 <= step,
        forall|i: int| 0 <= i < samples.len() ==> (#[trigger] samples[i]).1 == first + i * step,
    ensures
        next_decode_time(samples) == first + samples.len() * step,
{
    let gaps = samples.len() - 1;
    assert(samples[0].1 == first + 0 * step);
    assert(samples[gaps].1 == first + gaps * step);
    assert(gaps * step / gaps == step) by (nonlinear_arith)
        requires
            gaps > 0,
    ;
    assert(gaps * step + step == (gaps + 1) * step) by (nonlinear_arith);
}

/// Whether a video of this width and height can be muxed.
pub open spec fn valid_dimensions(width: u32, height: u32) -> bool {
    1 <= width <= 65535 && 1 <= height <= 65535
}

/// Calls `MuxerBuilder::new_with_fragment` on a builder with an H.264 track and its parameter
/// sets.
///
/// Claims that it succeeds for widths and heights from 1 up to 65535 and only for these, and that
/// the muxer then has this track alone, these settings, no samples, fragment number 1 and decode
/// time 0. The frame rate has no effect on a fragmented muxer. Nothing is said of the error.
#[verifier::external_body]
pub(crate) fn h264_muxer(width: u32, height: u32, fps: u32, sps: Vec<u8>, pps: Vec<u8>) -> (result:
    Result<FragmentedMuxer, MuxerError>)
    ensures
        match result {
            Ok(muxer) => valid_dimensions(width, height) && muxes_h264_alone(muxer) && muxer_settings(
                muxer,
            ) == (
                width,
                height,
                sps@,
                pps@,
            ) && muxer_queue(muxer).len() == 0 && muxer_timeline(muxer) == (1u32, 0u64, None::<u64>),
            Err(_) => !valid_dimensions(width, height),
        },
{
    MuxerBuilder::new(Vec::<u8>::new())
        .video(VideoCodec::H264, width, height, fps.into())
        .with_sps(sps)
        .with_pps(pps)
        .new_with_fragment()
}

/// `FragmentedMuxer::init_segment` gives the initialization segment of the muxer's settings and
/// changes none of what the names speak of.
pub assume_specification[ FragmentedMuxer::init_segment ](muxer: &mut FragmentedMuxer) -> (bytes: Vec<
    u8,
>)
    requires
        muxes_h264_alone(*old(muxer)),
    ensures
        muxes_h264_alone(*final(muxer)),
        ({
            let (width, height, sps, pps) = muxer_settings(*old(muxer));
            bytes@ == init_segment_bytes(width, height, sps, pps)
        }),
        muxer_settings(*final(muxer)) == muxer_settings(*old(muxer)),
        muxer_queue(*final(muxer)) == muxer_queue(*old(muxer)),
        muxer_timeline(*final(muxer)) == muxer_timeline(*old(muxer)),
;

/// `FragmentedMuxer::write_video` appends a sample to the queue. It refuses one whose decode time
/// lies before that of the sample before, and then changes nothing. The times have to fit signed
/// 64-bit numbers, as their difference is written.
pub assume_specification[ FragmentedMuxer::write_video ](
    muxer: &mut FragmentedMuxer,
    pts: u64,
    dts: u64,
    data: &[u8],
    is_sync: bool,
) -> (result: Result<(), FragmentedError>)
    requires
        muxes_h264_alone(*old(muxer)),
        pts <= i64::MAX,
        dts <= i64::MAX,
    ensures
        muxes_h264_alone(*final(muxer)),
        ({
            let (number, decode_time, last) = muxer_timeline(*old(muxer));
            let in_order = match last {
                Some(last) => dts >= last,
                None => true,
            };
            &&& result is Ok <==> in_order
            &&& muxer_queue(*final(muxer)) == if in_order {
                muxer_queue(*old(muxer)).push((pts, dts, data@, is_sync))
            } else {
                muxer_queue(*old(muxer))
            }
            &&& muxer_timeline(*final(muxer)) == if in_order {
                (number, decode_time, Some(dts))
            } else {
                muxer_timeline(*old(muxer))
            }
        }),
        muxer_settings(*final(muxer)) == muxer_settings(*old(muxer)),
;

/// `FragmentedMuxer::flush_segment` gives the fragment of all samples in the queue and empties it;
/// without samples there is no fragment and nothing changes. Fragments are numbered one after the
/// other.
///
/// The samples have to fit a fragment, their times signed 64-bit numbers, and the fragment's
/// number 32 bits.
pub assume_specification[ FragmentedMuxer::flush_segment ](muxer: &mut FragmentedMuxer) -> (result: Option<
    Vec<u8>,
>)
    requires
        muxes_h264_alone(*old(muxer)),
        ({
            let (number, decode_time, last) = muxer_timeline(*old(muxer));
            number < u32::MAX
        }),
        fragment_fits(muxer_queue(*old(muxer))),
        forall|i: int|
            0 <= i < muxer_queue(*old(muxer)).len() ==> (
            #[trigger] muxer_queue(*old(muxer))[i]).1 <= i64::MAX,
    ensures
        muxes_h264_alone(*final(muxer)),
        ({
            let (number, decode_time, last) = muxer_timeline(*old(muxer));
            let samples = muxer_queue(*old(muxer));
            if samples.len() == 0 {
                &&& result is None
                &&& muxer_timeline(*final(muxer)) == muxer_timeline(*old(muxer))
            } else {
                &&& result matches Some(bytes)
                &&& bytes@ == media_segment_bytes(number, decode_time, samples)
                &&& muxer_timeline(*final(muxer)) == (
                    (number + 1) as u32,
                    next_decode_time(samples) as u64,
                    last,
                )
            }
        }),
        muxer_queue(*final(muxer)) == Seq::<(u64, u64, Seq<u8>, bool)>::empty(),
        muxer_settings(*final(muxer)) == muxer_settings(*old(muxer)),
;

} // verus!
