//! Handing one encoded frame, or one command, to every receiver of a group.

use std::collections::VecDeque;

use vstd::prelude::*;

use crate::mirror::rtp::FrameTimings;
use crate::output::ReceiverVolumeCommand;
use crate::synthetic::SyntheticPhase;

verus! {

/// The encoded frames that may wait for one receiver.
pub const SENDER_QUEUE_FRAMES: usize = 3;

/// An encoded video frame: Annex-B H.264, with parameter sets on keyframes.
pub struct EncodedVideoFrame {
    pub rtp_timestamp: u32,
    pub keyframe: bool,
    pub data: Vec<u8>,
    pub timings: FrameTimings,
    pub synthetic_phase: Option<SyntheticPhase>,
}

/// An encoded video frame by its bytes.
#[verifier::ext_equal]
pub struct VideoFrameView {
    pub rtp_timestamp: u32,
    pub keyframe: bool,
    pub data: Seq<u8>,
    pub timings: FrameTimings,
    pub synthetic_phase: Option<SyntheticPhase>,
}

impl View for EncodedVideoFrame {
    type V = VideoFrameView;

    open spec fn view(&self) -> VideoFrameView {
        VideoFrameView {
            rtp_timestamp: self.rtp_timestamp,
            keyframe: self.keyframe,
            data: self.data@,
            timings: self.timings,
            synthetic_phase: self.synthetic_phase,
        }
    }
}

impl EncodedVideoFrame {
    /// A copy of the frame.
    pub fn copy(&self) -> (copy: Self)
        ensures
            copy@ == self@,
    {
        let mut data: Vec<u8> = Vec::new();
        data.extend_from_slice(self.data.as_slice());
        assert(data@ =~= self.data@);
        EncodedVideoFrame {
            rtp_timestamp: self.rtp_timestamp,
            keyframe: self.keyframe,
            data,
            timings: self.timings,
            synthetic_phase: self.synthetic_phase,
        }
    }
}

/// An encoded audio frame and its position in samples.
pub struct EncodedAudioFrame {
    pub timestamp: u64,
    pub data: Vec<u8>,
}

impl View for EncodedAudioFrame {
    type V = (u64, Seq<u8>);

    open spec fn view(&self) -> (u64, Seq<u8>) {
        (self.timestamp, self.data@)
    }
}

impl EncodedAudioFrame {
    /// A copy of the frame.
    pub fn copy(&self) -> (copy: Self)
        ensures
            copy@ == self@,
    {
        let mut data: Vec<u8> = Vec::new();
        data.extend_from_slice(self.data.as_slice());
        assert(data@ =~= self.data@);
        EncodedAudioFrame { timestamp: self.timestamp, data }
    }
}

/// Why an output took no frame.
#[derive(Debug)]
pub struct SinkError {
    pub message: String,
}

/// The frames that a sink has taken, oldest first.
pub type TakenVideo = Seq<VideoFrameView>;

/// The audio frames that a sink has taken, oldest first.
pub type TakenAudio = Seq<(u64, Seq<u8>)>;

/// The text of a refusal.
pub type Reason = Seq<char>;

/// An output for encoded video.
pub trait EncodedVideoSink: Sized {
    /// The frames that the output has taken, oldest first.
    spec fn taken(&self) -> TakenVideo;

    /// Whether the output takes another frame.
    spec fn takes(&self) -> bool;

    /// What the output says when it takes no frame.
    spec fn refusal(&self) -> Reason;

    fn submit_video(&mut self, frame: EncodedVideoFrame) -> (result: Result<(), SinkError>)
        ensures
            result is Ok <==> old(self).takes(),
            result is Ok ==> final(self).taken() == old(self).taken().push(frame@),
            result matches Err(error) ==> final(self).taken() == old(self).taken()
                && error.message@ == old(self).refusal(),
    ;
}

/// An output for encoded audio.
pub trait EncodedAudioSink: Sized {
    /// The frames that the output has taken, oldest first.
    spec fn taken(&self) -> TakenAudio;

    /// Whether the output takes another frame.
    spec fn takes(&self) -> bool;

    /// What the output says when it takes no frame.
    spec fn refusal(&self) -> Reason;

    fn submit_audio(&mut self, frame: EncodedAudioFrame) -> (result: Result<(), SinkError>)
        ensures
            result is Ok <==> old(self).takes(),
            result is Ok ==> final(self).taken() == old(self).taken().push(frame@),
            result matches Err(error) ==> final(self).taken() == old(self).taken()
                && error.message@ == old(self).refusal(),
    ;
}

/// Hands a frame to every output in order, and stops at the first that takes none.
pub fn fan_out_video<S: EncodedVideoSink>(outputs: &mut Vec<S>, frame: &EncodedVideoFrame) -> (result:
    Result<(), SinkError>)
    ensures
        final(outputs)@.len() == old(outputs)@.len(),
        result is Ok <==> forall|i: int| 0 <= i < old(outputs)@.len() ==> (#[trigger] old(outputs)@[i]).takes(),
        forall|i: int|
            0 <= i < old(outputs)@.len() ==> (#[trigger] final(outputs)@[i]).taken() == if (forall|
                j: int,
            |
                0 <= j <= i ==> (#[trigger] old(outputs)@[j]).takes()) {
                old(outputs)@[i].taken().push(frame@)
            } else {
                old(outputs)@[i].taken()
            },
        result matches Err(error) ==> exists|first: int|
            #![trigger old(outputs)@[first]]
            0 <= first < old(outputs)@.len() && !old(outputs)@[first].takes() && (forall|i: int|
                0 <= i < first ==> (#[trigger] old(outputs)@[i]).takes()) && (forall|i: int|
                first < i < old(outputs)@.len() ==> #[trigger] final(outputs)@[i] == old(
                    outputs,
                )@[i]) && error.message@ == old(outputs)@[first].refusal(),
{
    let mut index: usize = 0;
    while index < outputs.len()
        invariant
            index <= outputs@.len(),
            outputs@.len() == old(outputs)@.len(),
            forall|i: int| 0 <= i < index ==> (#[trigger] old(outputs)@[i]).takes(),
            forall|i: int|
                0 <= i < index ==> (#[trigger] outputs@[i]).taken() == old(outputs)@[i].taken().push(
                    frame@,
                ),
            forall|i: int| index <= i < outputs@.len() ==> #[trigger] outputs@[i] == old(outputs)@[i],
        decreases outputs@.len() - index,
    {
        let result: Result<(), SinkError> = outputs[index].submit_video(frame.copy());
        if let Err(error) = result {
            assert(!old(outputs)@[index as int].takes());
            return Err(error);
        }
        index = index + 1;
    }
    Ok(())
}

/// Hands a frame to every output in order, and stops at the first that takes none.
pub fn fan_out_audio<S: EncodedAudioSink>(outputs: &mut Vec<S>, frame: &EncodedAudioFrame) -> (result:
    Result<(), SinkError>)
    ensures
        final(outputs)@.len() == old(outputs)@.len(),
        result is Ok <==> forall|i: int| 0 <= i < old(outputs)@.len() ==> (#[trigger] old(outputs)@[i]).takes(),
        forall|i: int|
            0 <= i < old(outputs)@.len() ==> (#[trigger] final(outputs)@[i]).taken() == if (forall|
                j: int,
            |
                0 <= j <= i ==> (#[trigger] old(outputs)@[j]).takes()) {
                old(outputs)@[i].taken().push(frame@)
            } else {
                old(outputs)@[i].taken()
            },
        result matches Err(error) ==> exists|first: int|
            #![trigger old(outputs)@[first]]
            0 <= first < old(outputs)@.len() && !old(outputs)@[first].takes() && (forall|i: int|
                0 <= i < first ==> (#[trigger] old(outputs)@[i]).takes()) && (forall|i: int|
                first < i < old(outputs)@.len() ==> #[trigger] final(outputs)@[i] == old(
                    outputs,
                )@[i]) && error.message@ == old(outputs)@[first].refusal(),
{
    let mut index: usize = 0;
    while index < outputs.len()
        invariant
            index <= outputs@.len(),
            outputs@.len() == old(outputs)@.len(),
            forall|i: int| 0 <= i < index ==> (#[trigger] old(outputs)@[i]).takes(),
            forall|i: int|
                0 <= i < index ==> (#[trigger] outputs@[i]).taken() == old(outputs)@[i].taken().push(
                    frame@,
                ),
            forall|i: int| index <= i < outputs@.len() ==> #[trigger] outputs@[i] == old(outputs)@[i],
        decreases outputs@.len() - index,
    {
        let result: Result<(), SinkError> = outputs[index].submit_audio(frame.copy());
        if let Err(error) = result {
            assert(!old(outputs)@[index as int].takes());
            return Err(error);
        }
        index = index + 1;
    }
    Ok(())
}

/// The frames that wait for the sender of one receiver.
pub struct SenderQueue {
    /// The receiver's address as text.
    pub host: String,
    pub waiting: VecDeque<EncodedVideoFrame>,
    /// Whether the sender still takes frames out.
    pub connected: bool,
    /// Every frame that the queue has taken.
    pub taken: Ghost<Seq<VideoFrameView>>,
}

impl SenderQueue {
    pub fn new(host: String) -> (queue: Self)
        ensures
            queue.host == host,
            queue.waiting@.len() == 0,
            queue.connected,
            queue.taken() == Seq::<VideoFrameView>::empty(),
    {
        SenderQueue { host, waiting: VecDeque::new(), connected: true, taken: Ghost(Seq::empty()) }
    }

    /// Takes the oldest waiting frame out.
    pub fn next(&mut self) -> (frame: Option<EncodedVideoFrame>)
        ensures
            final(self).host == old(self).host,
            final(self).connected == old(self).connected,
            final(self).taken() == old(self).taken(),
            match frame {
                Some(frame) => old(self).waiting@.len() > 0 && frame == old(self).waiting@[0]
                    && final(self).waiting@ == old(self).waiting@.skip(1),
                None => old(self).waiting@.len() == 0 && final(self).waiting@ == old(self).waiting@,
            },
    {
        let frame: Option<EncodedVideoFrame> = self.waiting.pop_front();
        assert(frame is Some ==> self.waiting@ =~= old(self).waiting@.skip(1));
        frame
    }

    /// The message for a receiver that does not keep up.
    pub open spec fn behind_message(&self) -> Seq<char> {
        "Cast receiver "@ + self.host@ + " fell more than 3 encoded frames behind"@
    }

    /// The message for a sender that is gone.
    pub open spec fn stopped_message(&self) -> Seq<char> {
        "Cast sender worker for "@ + self.host@ + " stopped unexpectedly"@
    }
}

impl EncodedVideoSink for SenderQueue {
    open spec fn taken(&self) -> TakenVideo {
        self.taken@
    }

    open spec fn takes(&self) -> bool {
        self.connected && self.waiting@.len() < SENDER_QUEUE_FRAMES
    }

    open spec fn refusal(&self) -> Reason {
        if self.connected {
            self.behind_message()
        } else {
            self.stopped_message()
        }
    }

    fn submit_video(&mut self, frame: EncodedVideoFrame) -> (result: Result<(), SinkError>)
        ensures
            final(self).host == old(self).host,
            final(self).connected == old(self).connected,
            result is Ok ==> final(self).waiting@ == old(self).waiting@.push(frame),
            result is Err ==> *final(self) == *old(self),
    {
        if !self.connected {
            let message: String = "Cast sender worker for ".to_owned().concat(
                self.host.as_str(),
            ).concat(" stopped unexpectedly");
            return Err(SinkError { message });
        }
        if self.waiting.len() >= SENDER_QUEUE_FRAMES {
            let message: String = "Cast receiver ".to_owned().concat(self.host.as_str()).concat(
                " fell more than 3 encoded frames behind",
            );
            return Err(SinkError { message });
        }
        self.taken = Ghost(self.taken@.push(frame@));
        self.waiting.push_back(frame);
        Ok(())
    }
}

/// Up to three frames may wait for a receiver: a fourth is refused, and so is every frame once the
/// sender is gone, each with its own message.
pub proof fn lemma_three_frames_may_wait(queue: SenderQueue)
    ensures
        queue.connected && queue.waiting@.len() <= 2 ==> queue.takes(),
        queue.waiting@.len() >= 3 ==> !queue.takes(),
        !queue.connected ==> !queue.takes() && queue.refusal() == "Cast sender worker for "@
            + queue.host@ + " stopped unexpectedly"@,
        queue.connected ==> queue.refusal() == "Cast receiver "@ + queue.host@
            + " fell more than 3 encoded frames behind"@,
{
}

/// The volume commands that one receiver has been asked for and has not carried out yet.
pub struct ReceiverControlQueue {
    pub commands: Vec<ReceiverVolumeCommand>,
}

/// Asks every receiver for the same command.
pub fn fan_out_receiver_control(
    outputs: &mut Vec<ReceiverControlQueue>,
    command: ReceiverVolumeCommand,
)
    ensures
        final(outputs)@.len() == old(outputs)@.len(),
        forall|i: int|
            0 <= i < old(outputs)@.len() ==> (#[trigger] final(outputs)@[i]).commands@ == old(
                outputs,
            )@[i].commands@.push(command),
{
    let mut index: usize = 0;
    while index < outputs.len()
        invariant
            index <= outputs@.len(),
            outputs@.len() == old(outputs)@.len(),
            forall|i: int|
                0 <= i < index ==> (#[trigger] outputs@[i]).commands@ == old(
                    outputs,
                )@[i].commands@.push(command),
            forall|i: int| index <= i < outputs@.len() ==> #[trigger] outputs@[i] == old(outputs)@[i],
        decreases outputs@.len() - index,
    {
        outputs[index].commands.push(command);
        index = index + 1;
    }
}

} // verus!
