//! H.264 encoders of a Linux desktop: which one is opened and how, when it is opened again, and
//! what its frames and packets are stamped with.

use vstd::prelude::*;

use crate::picture::{validate_frame, FrameError, RawPixelFormat};
use crate::text::{characters, lemma_separated_texts_go_on, separated, spells};

verus! {

/// Whether frames are encoded quickly or well.
#[derive(Clone, Copy, Debug, PartialEq, Eq, Structural)]
pub enum EncodingPriority {
    Speed,
    Quality,
}

impl EncodingPriority {
    pub fn from_speed_priority(speed: bool) -> (priority: Self)
        ensures
            priority == if speed {
                EncodingPriority::Speed
            } else {
                EncodingPriority::Quality
            },
    {
        if speed {
            EncodingPriority::Speed
        } else {
            EncodingPriority::Quality
        }
    }
}

/// Which encoder the user asks for.
#[derive(Clone, Copy, Debug, PartialEq, Eq, Structural)]
pub enum H264Provider {
    Auto,
    Nvenc,
    Vaapi,
    Openh264,
}

/// What was asked for a bitrate of zero.
#[derive(Clone, Copy, Debug, PartialEq, Eq, Structural)]
pub struct ZeroBitrate;

/// What the rate control asks of a running encoder.
#[derive(Clone, Copy, Debug, PartialEq, Eq, Structural)]
pub struct LinuxEncoderControl {
    pub bitrate: u32,
    pub generation: u64,
    pub force_keyframe: bool,
}

impl LinuxEncoderControl {
    pub fn new(bitrate: u32) -> (control: Self)
        ensures
            control == (LinuxEncoderControl { bitrate, generation: 0, force_keyframe: true }),
    {
        LinuxEncoderControl { bitrate, generation: 0, force_keyframe: true }
    }

    /// Asks for a bitrate. Another one than before starts a new generation of the encoder, which
    /// begins with a keyframe.
    pub fn set_bitrate(&mut self, bitrate: u32) -> (result: Result<(), ZeroBitrate>)
        ensures
            result is Err <==> bitrate == 0,
            *final(self) == if bitrate == 0 || bitrate == old(self).bitrate {
                *old(self)
            } else {
                LinuxEncoderControl {
                    bitrate,
                    generation: old(self).generation.wrapping_add(1),
                    force_keyframe: true,
                }
            },
    {
        if bitrate == 0 {
            return Err(ZeroBitrate);
        }
        if self.bitrate != bitrate {
            self.bitrate = bitrate;
            self.generation = self.generation.wrapping_add(1);
            self.force_keyframe = true;
        }
        Ok(())
    }

    /// Asks for a keyframe.
    pub fn force_keyframe(&mut self)
        ensures
            *final(self) == (LinuxEncoderControl { force_keyframe: true, ..*old(self) }),
    {
        self.force_keyframe = true;
    }

    /// Whether the next frame is a keyframe. A request counts once.
    pub fn take_keyframe(&mut self) -> (keyframe: bool)
        ensures
            keyframe == old(self).force_keyframe,
            *final(self) == (LinuxEncoderControl { force_keyframe: false, ..*old(self) }),
    {
        let keyframe: bool = self.force_keyframe;
        self.force_keyframe = false;
        keyframe
    }
}

/// What an encoder is opened with, beside its name.
#[derive(Clone, Copy, Debug, PartialEq, Eq, Structural)]
pub struct OpenSettings {
    pub width: u32,
    pub height: u32,
    pub source_width: u32,
    pub source_height: u32,
    pub fps: u32,
    pub bitrate: u32,
    pub format: RawPixelFormat,
    pub priority: EncodingPriority,
}

/// Why an encoder cannot be set up.
#[derive(Clone, Copy, Debug, PartialEq, Eq, Structural)]
pub struct EmptySettings;

/// The state of an encoder that outlives its being opened again.
#[derive(Clone, Copy, Debug, PartialEq, Eq, Structural)]
pub struct LinuxVideoEncoder {
    pub priority: EncodingPriority,
    pub width: u32,
    pub height: u32,
    pub fps: u32,
    pub applied_generation: u64,
    pub source_width: u32,
    pub source_height: u32,
    pub input_format: RawPixelFormat,
    pub last_timestamp: Option<u64>,
}

/// The stamp of a frame: its own, but later than that of the frame before it.
pub open spec fn stamped(last: Option<u64>, timestamp: u64) -> u64 {
    match last {
        Some(last) => if last < u64::MAX && timestamp < last + 1 {
            (last + 1) as u64
        } else if timestamp < last {
            last
        } else {
            timestamp
        },
        None => timestamp,
    }
}

/// Stamps rise from frame to frame, as long as there is a later one.
pub proof fn lemma_stamps_rise(last: u64, timestamp: u64)
    requires
        last < u64::MAX,
    ensures
        stamped(Some(last), timestamp) > last,
        stamped(Some(last), timestamp) >= timestamp,
{
}

impl LinuxVideoEncoder {
    /// Sets up an encoder of frames of the given size. The settings are what it is opened with
    /// first.
    pub fn new(
        width: u32,
        height: u32,
        fps: u32,
        bitrate: u32,
        input_format: RawPixelFormat,
        priority: EncodingPriority,
    ) -> (result: Result<(LinuxVideoEncoder, LinuxEncoderControl, OpenSettings), EmptySettings>)
        ensures
            result == if width == 0 || height == 0 || fps == 0 || bitrate == 0 {
                Err::<(LinuxVideoEncoder, LinuxEncoderControl, OpenSettings), EmptySettings>(
                    EmptySettings,
                )
            } else {
                Ok(
                    (
                        LinuxVideoEncoder {
                            priority,
                            width,
                            height,
                            fps,
                            applied_generation: 0,
                            source_width: width,
                            source_height: height,
                            input_format,
                            last_timestamp: None,
                        },
                        LinuxEncoderControl { bitrate, generation: 0, force_keyframe: true },
                        OpenSettings {
                            width,
                            height,
                            source_width: width,
                            source_height: height,
                            fps,
                            bitrate,
                            format: input_format,
                            priority,
                        },
                    ),
                )
            },
    {
        if width == 0 || height == 0 || fps == 0 || bitrate == 0 {
            return Err(EmptySettings);
        }
        let encoder: LinuxVideoEncoder = LinuxVideoEncoder {
            priority,
            width,
            height,
            fps,
            applied_generation: 0,
            source_width: width,
            source_height: height,
            input_format,
            last_timestamp: None,
        };
        let settings: OpenSettings = OpenSettings {
            width,
            height,
            source_width: width,
            source_height: height,
            fps,
            bitrate,
            format: input_format,
            priority,
        };
        Ok((encoder, LinuxEncoderControl::new(bitrate), settings))
    }

    /// Whether the frames of a source can go to the encoder that is open.
    pub open spec fn fits(
        self,
        control: LinuxEncoderControl,
        width: u32,
        height: u32,
        format: RawPixelFormat,
    ) -> bool {
        control.generation == self.applied_generation && format == self.input_format && width
            == self.source_width && height == self.source_height
    }

    /// Checks a frame, and says with which settings the encoder has to be opened again before it
    /// gets the frame, if it has to.
    pub fn accept(
        &self,
        control: &LinuxEncoderControl,
        width: u32,
        height: u32,
        stride: usize,
        length: usize,
        format: RawPixelFormat,
    ) -> (result: Result<Option<OpenSettings>, FrameError>)
        ensures
            result == if width == 0 || height == 0 {
                Err::<Option<OpenSettings>, FrameError>(FrameError::Empty)
            } else if stride * height > usize::MAX {
                Err(FrameError::TooLarge)
            } else if stride < width * 4 || length < stride * height {
                Err(FrameError::Short)
            } else if self.fits(*control, width, height, format) {
                Ok(None)
            } else {
                Ok(
                    Some(
                        OpenSettings {
                            width: self.width,
                            height: self.height,
                            source_width: width,
                            source_height: height,
                            fps: self.fps,
                            bitrate: control.bitrate,
                            format,
                            priority: self.priority,
                        },
                    ),
                )
            },
    {
        match validate_frame(width, height, stride, length) {
            Err(error) => {
                return Err(error);
            },
            Ok(()) => {},
        }
        if control.generation == self.applied_generation && format == self.input_format && width
            == self.source_width && height == self.source_height {
            return Ok(None);
        }
        Ok(
            Some(
                OpenSettings {
                    width: self.width,
                    height: self.height,
                    source_width: width,
                    source_height: height,
                    fps: self.fps,
                    bitrate: control.bitrate,
                    format,
                    priority: self.priority,
                },
            ),
        )
    }

    /// Notes that the encoder was opened again, for the generation that was read before. It begins
    /// with a keyframe.
    pub fn reopened(
        &mut self,
        control: &mut LinuxEncoderControl,
        generation: u64,
        settings: OpenSettings,
    )
        ensures
            *final(self) == (LinuxVideoEncoder {
                applied_generation: generation,
                source_width: settings.source_width,
                source_height: settings.source_height,
                input_format: settings.format,
                ..*old(self)
            }),
            *final(control) == (LinuxEncoderControl { force_keyframe: true, ..*old(control) }),
    {
        self.applied_generation = generation;
        self.source_width = settings.source_width;
        self.source_height = settings.source_height;
        self.input_format = settings.format;
        control.force_keyframe = true;
    }

    /// Stamps a frame.
    pub fn stamp(&mut self, timestamp: u64) -> (stamp: u64)
        ensures
            stamp == stamped(old(self).last_timestamp, timestamp),
            *final(self) == (LinuxVideoEncoder { last_timestamp: Some(stamp), ..*old(self) }),
    {
        let stamp: u64 = match self.last_timestamp {
            Some(last) => {
                let next: u64 = if last < u64::MAX {
                    last + 1
                } else {
                    last
                };
                if timestamp < next {
                    next
                } else {
                    timestamp
                }
            },
            None => timestamp,
        };
        self.last_timestamp = Some(stamp);
        stamp
    }

    /// Whether another encoder is needed for frames of the given size and format.
    pub fn is_for(&self, width: u32, height: u32, format: RawPixelFormat) -> (result: bool)
        ensures
            result == (self.width == width && self.height == height && self.input_format
                == format),
    {
        self.width == width && self.height == height && self.input_format == format
    }
}

/// Once an encoder was opened again for a frame, it takes the next frame like it.
pub proof fn lemma_reopened_encoders_fit(
    encoder: LinuxVideoEncoder,
    control: LinuxEncoderControl,
    settings: OpenSettings,
)
    ensures
        (LinuxVideoEncoder {
            applied_generation: control.generation,
            source_width: settings.source_width,
            source_height: settings.source_height,
            input_format: settings.format,
            ..encoder
        }).fits(control, settings.source_width, settings.source_height, settings.format),
{
}

/// The time of an encoded packet: when it is shown, or else when it is decoded, or else zero.
pub fn packet_timestamp(presentation: Option<i64>, decoding: Option<i64>) -> (timestamp: u64)
    ensures
        timestamp == match (presentation, decoding) {
            (Some(time), _) => if time > 0 {
                time as int
            } else {
                0
            },
            (None, Some(time)) => if time > 0 {
                time as int
            } else {
                0
            },
            (None, None) => 0,
        },
{
    let time: i64 = match presentation {
        Some(time) => time,
        None => match decoding {
            Some(time) => time,
            None => 0,
        },
    };
    if time > 0 {
        time as u64
    } else {
        0
    }
}

/// What is done next in the search for an encoder that can be opened.
#[derive(Debug)]
pub enum SearchStep {
    /// The candidate at this place is opened.
    Open(usize),
    /// The candidate at this place was opened.
    Opened(usize),
    Failed(String),
}

/// Each candidate with its error, parted by semicolons.
pub open spec fn failures(candidates: Seq<&'static str>, attempts: Seq<Option<String>>, count: int) -> Seq<
    char,
>
    decreases count,
{
    if count <= 0 {
        Seq::empty()
    } else {
        let before = failures(candidates, attempts, count - 1);
        let own = candidates[count - 1]@ + ": "@ + attempts[count - 1].unwrap()@;
        if count == 1 {
            own
        } else {
            before + "; "@ + own
        }
    }
}

/// The encoders that failed are listed in the order in which they were tried, each with its error.
pub proof fn lemma_failures_are_listed_in_order(
    candidates: Seq<&'static str>,
    attempts: Seq<Option<String>>,
    texts: Seq<Seq<char>>,
)
    requires
        texts.len() <= candidates.len(),
        texts.len() <= attempts.len(),
        forall|i: int|
            0 <= i < texts.len() ==> #[trigger] texts[i] == candidates[i]@ + ": "@
                + attempts[i].unwrap()@,
    ensures
        failures(candidates, attempts, texts.len() as int) == separated(texts, "; "@),
    decreases texts.len(),
{
    if texts.len() > 0 {
        let front = texts.drop_last();
        lemma_failures_are_listed_in_order(candidates, attempts, front);
        lemma_separated_texts_go_on(front, "; "@, texts.last());
        assert(front.push(texts.last()) =~= texts);
    }
}

/// Every encoder is asked for a baseline profile and for headers with each keyframe, and the
/// priority changes one option of an encoder, its own.
pub proof fn lemma_priorities_change_one_option(name: Seq<char>)
    ensures
        ({
            let fast = options_for(name, EncodingPriority::Speed);
            let good = options_for(name, EncodingPriority::Quality);
            &&& fast.len() == good.len()
            &&& fast[0].0 == "profile"@
            &&& good[0] == fast[0]
            &&& fast[1] == ("repeat_headers"@, "1"@)
            &&& good[1] == fast[1]
            &&& name == "h264_nvenc"@ ==> fast[0].1 == "baseline"@ && fast.len() == 5 && fast[2] == (
                "preset"@,
                "p1"@,
            ) && good[2] == ("preset"@, "p5"@) && fast[3] == ("tune"@, "ull"@) && fast[4] == (
                "zerolatency"@,
                "1"@,
            ) && fast.skip(3) == good.skip(3)
            &&& name != "h264_nvenc"@ ==> fast[0].1 == "constrained_baseline"@
            &&& name == "h264_vaapi"@ ==> fast.len() == 3 && fast[2] == ("quality"@, "7"@) && good[2]
                == ("quality"@, "1"@)
            &&& name == "libopenh264"@ ==> fast.len() == 4 && fast[2] == (
                "allow_skip_frames"@,
                "1"@,
            ) && good[2] == fast[2] && fast[3] == ("rc_mode"@, "bitrate"@) && good[3] == (
                "rc_mode"@,
                "quality"@,
            )
        }),
{
    reveal_strlit("h264_nvenc");
    reveal_strlit("h264_vaapi");
    reveal_strlit("libopenh264");
    assert("h264_nvenc"@[5] != "h264_vaapi"@[5]);
    let fast = options_for(name, EncodingPriority::Speed);
    let good = options_for(name, EncodingPriority::Quality);
    if name == "h264_nvenc"@ {
        assert(fast.skip(3) =~= good.skip(3));
    }
}

/// The search for an encoder that can be opened. Each attempt so far is `None` where it succeeded,
/// or its error. Candidates are tried in their order; where one of them was asked for, only the
/// first is.
pub fn try_provider_candidates(
    requested: H264Provider,
    candidates: &[&'static str],
    attempts: &[Option<String>],
) -> (step: SearchStep)
    requires
        attempts@.len() <= candidates@.len(),
    ensures
        match step {
            SearchStep::Opened(index) => index < attempts@.len() && attempts@[index as int] is None
                && forall|i: int|
                0 <= i < index ==> attempts@[i] is Some && requested == H264Provider::Auto,
            SearchStep::Open(index) => index == attempts@.len() && index < candidates@.len()
                && forall|i: int|
                0 <= i < index ==> attempts@[i] is Some && requested == H264Provider::Auto,
            SearchStep::Failed(error) => if requested != H264Provider::Auto && attempts@.len() > 0 {
                attempts@[0] is Some && error@ == "requested Linux H.264 provider "@
                    + candidates@[0]@ + " could not be opened: "@ + attempts@[0].unwrap()@
            } else {
                attempts@.len() == candidates@.len() && (forall|i: int|
                    0 <= i < attempts@.len() ==> attempts@[i] is Some) && error@
                    == "no detected Linux H.264 provider could be opened: "@ + failures(
                    candidates@,
                    attempts@,
                    attempts@.len() as int,
                )
            },
        },
{
    let mut listed: String = "".to_owned();
    let mut index: usize = 0;
    let total: usize = attempts.len();
    proof {
        reveal_strlit("");
        assert(listed@ =~= Seq::<char>::empty());
    }
    while index < total
        invariant
            index <= total,
            total == attempts@.len(),
            attempts@.len() <= candidates@.len(),
            forall|i: int|
                0 <= i < index ==> attempts@[i] is Some && requested == H264Provider::Auto,
            listed@ == failures(candidates@, attempts@, index as int),
        decreases total - index,
    {
        match &attempts[index] {
            None => {
                return SearchStep::Opened(index);
            },
            Some(error) => {
                if requested != H264Provider::Auto {
                    let message: String = "requested Linux H.264 provider ".to_owned().concat(
                        candidates[index],
                    ).concat(" could not be opened: ").concat(error.as_str());
                    return SearchStep::Failed(message);
                }
                if index > 0 {
                    listed = listed.concat("; ");
                }
                let ghost before = listed@;
                listed = listed.concat(candidates[index]).concat(": ").concat(error.as_str());
                assert(listed@ =~= before + (candidates@[index as int]@ + ": "@ + error@));
                assert(listed@ =~= failures(candidates@, attempts@, index + 1));
            },
        }
        index = index + 1;
    }
    if index < candidates.len() {
        return SearchStep::Open(index);
    }
    let message: String = "no detected Linux H.264 provider could be opened: ".to_owned().concat(
        listed.as_str(),
    );
    SearchStep::Failed(message)
}

/// How pixels are laid out for the encoder.
#[derive(Clone, Copy, Debug, PartialEq, Eq, Structural)]
pub enum EncoderSurface {
    Nv12,
    Yuv420p,
}

/// The layout that frames are converted to, and whether they are then uploaded to the device.
pub fn encoder_surface(name: &str, takes_nv12: bool) -> (result: (EncoderSurface, bool))
    ensures
        result.1 == (name@ == "h264_vaapi"@),
        result.0 == if name@ == "h264_vaapi"@ || takes_nv12 {
            EncoderSurface::Nv12
        } else {
            EncoderSurface::Yuv420p
        },
{
    let own: Vec<char> = characters(name);
    let uploads: bool = spells(own.as_slice(), "h264_vaapi");
    if uploads || takes_nv12 {
        (EncoderSurface::Nv12, uploads)
    } else {
        (EncoderSurface::Yuv420p, uploads)
    }
}

/// An option that an encoder is opened with.
#[derive(Clone, Copy, Debug, PartialEq, Eq)]
pub struct EncoderOption {
    pub key: &'static str,
    pub value: &'static str,
}

pub open spec fn option_texts(options: Seq<EncoderOption>) -> Seq<(Seq<char>, Seq<char>)> {
    options.map_values(|option: EncoderOption| (option.key@, option.value@))
}

/// The options that an encoder is opened with. Receivers are offered the Baseline profile, which
/// the encoders know by different names.
pub open spec fn options_for(name: Seq<char>, priority: EncodingPriority) -> Seq<
    (Seq<char>, Seq<char>),
> {
    let fast = priority == EncodingPriority::Speed;
    let profile = if name == "h264_nvenc"@ {
        "baseline"@
    } else {
        "constrained_baseline"@
    };
    let common = seq![("profile"@, profile), ("repeat_headers"@, "1"@)];
    if name == "h264_nvenc"@ {
        common + seq![
            (
                "preset"@,
                if fast {
                    "p1"@
                } else {
                    "p5"@
                },
            ),
            ("tune"@, "ull"@),
            ("zerolatency"@, "1"@),
        ]
    } else if name == "h264_vaapi"@ {
        common + seq![
            (
                "quality"@,
                if fast {
                    "7"@
                } else {
                    "1"@
                },
            ),
        ]
    } else if name == "libopenh264"@ {
        common + seq![
            ("allow_skip_frames"@, "1"@),
            (
                "rc_mode"@,
                if fast {
                    "bitrate"@
                } else {
                    "quality"@
                },
            ),
        ]
    } else {
        common
    }
}

/// The options that an encoder is opened with.
pub fn encoder_options(name: &str, priority: EncodingPriority) -> (options: Vec<EncoderOption>)
    ensures
        option_texts(options@) == options_for(name@, priority),
{
    let own: Vec<char> = characters(name);
    let fast: bool = priority == EncodingPriority::Speed;
    let mut options: Vec<EncoderOption> = Vec::new();
    proof {
        reveal_strlit("h264_nvenc");
        reveal_strlit("h264_vaapi");
        reveal_strlit("libopenh264");
        assert("h264_nvenc"@[5] != "h264_vaapi"@[5]);
        assert("libopenh264"@.len() != "h264_vaapi"@.len());
    }
    if spells(own.as_slice(), "h264_nvenc") {
        options.push(EncoderOption { key: "profile", value: "baseline" });
        options.push(EncoderOption { key: "repeat_headers", value: "1" });
        options.push(
            EncoderOption {
                key: "preset",
                value: if fast {
                    "p1"
                } else {
                    "p5"
                },
            },
        );
        options.push(EncoderOption { key: "tune", value: "ull" });
        options.push(EncoderOption { key: "zerolatency", value: "1" });
    } else {
        options.push(EncoderOption { key: "profile", value: "constrained_baseline" });
        options.push(EncoderOption { key: "repeat_headers", value: "1" });
        if spells(own.as_slice(), "h264_vaapi") {
            options.push(
                EncoderOption {
                    key: "quality",
                    value: if fast {
                        "7"
                    } else {
                        "1"
                    },
                },
            );
        } else if spells(own.as_slice(), "libopenh264") {
            options.push(EncoderOption { key: "allow_skip_frames", value: "1" });
            options.push(
                EncoderOption {
                    key: "rc_mode",
                    value: if fast {
                        "bitrate"
                    } else {
                        "quality"
                    },
                },
            );
        }
    }
    assert(option_texts(options@) =~= options_for(name@, priority));
    options
}

} // verus!
