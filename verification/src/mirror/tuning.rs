//! Automatic tuning: the trials, what they may combine, and which settings win.

use vstd::prelude::*;

use crate::float64::Double;
use crate::mirror::options::{desktop_command, recommended_command, MirrorOptions};
use crate::text::{decimal, push_decimal};

verus! {

pub const AUTO_TUNE_TRIAL_COUNT: usize = 6;

pub const AUTO_TUNE_MINIMUM_SECONDS: u64 = 60;

/// How old a raw frame may get before it is dropped.
#[derive(Clone, Copy, Debug, PartialEq, Eq, Structural)]
pub enum RawFrameDeadline {
    Automatic,
    OneFrame,
    Disabled,
}

/// The controls that a trial varies.
#[derive(Clone, Copy, Debug, PartialEq, Eq, Structural)]
pub struct TuningConfig {
    pub adaptive_bitrate: bool,
    pub prioritize_encoding_speed: bool,
    pub raw_frame_deadline: RawFrameDeadline,
}

/// The settings without any tuning.
pub open spec fn baseline() -> TuningConfig {
    TuningConfig {
        adaptive_bitrate: true,
        prioritize_encoding_speed: true,
        raw_frame_deadline: RawFrameDeadline::Automatic,
    }
}

/// The length of one frame in milliseconds, rounded up.
pub open spec fn one_frame_millis(fps: u32) -> int {
    let rate = if fps == 0 {
        1
    } else {
        fps as int
    };
    (1_000 + rate - 1) / rate
}

fn one_frame_deadline(fps: u32) -> (millis: u64)
    ensures
        millis == one_frame_millis(fps),
        1 <= millis <= 1_000,
{
    let rate: u64 = if fps == 0 {
        1
    } else {
        fps as u64
    };
    let millis: u64 = (1_000 + rate - 1) / rate;
    assert(1 <= millis <= 1_000) by (nonlinear_arith)
        requires
            rate >= 1,
            millis == (1_000 + rate - 1) / rate as int,
    ;
    millis
}

impl TuningConfig {
    /// The settings without any tuning.
    pub fn default_controls() -> (config: Self)
        ensures
            config == baseline(),
    {
        TuningConfig {
            adaptive_bitrate: true,
            prioritize_encoding_speed: true,
            raw_frame_deadline: RawFrameDeadline::Automatic,
        }
    }

    /// The raw-frame age that these controls ask for, in nanoseconds.
    pub open spec fn max_frame_age(self, effective_fps: u32) -> Option<u128> {
        match self.raw_frame_deadline {
            RawFrameDeadline::Automatic => None,
            RawFrameDeadline::OneFrame => Some(
                (one_frame_millis(effective_fps) * 1_000_000) as u128,
            ),
            RawFrameDeadline::Disabled => Some(0),
        }
    }

    /// Applies the controls to a session. Everything else stays as it was asked for.
    pub fn apply(self, options: &mut MirrorOptions, effective_fps: u32)
        ensures
            *final(options) == (MirrorOptions {
                adaptive_bitrate: self.adaptive_bitrate,
                prioritize_encoding_speed: self.prioritize_encoding_speed,
                max_frame_age: self.max_frame_age(effective_fps),
                ..*old(options)
            }),
    {
        options.adaptive_bitrate = self.adaptive_bitrate;
        options.prioritize_encoding_speed = self.prioritize_encoding_speed;
        options.max_frame_age = match self.raw_frame_deadline {
            RawFrameDeadline::Automatic => None,
            RawFrameDeadline::OneFrame => Some(
                one_frame_deadline(effective_fps) as u128 * 1_000_000,
            ),
            RawFrameDeadline::Disabled => Some(0),
        };
    }

    /// The command-line arguments that ask for these controls.
    pub open spec fn arguments(self, effective_fps: u32) -> Seq<char> {
        (match self.raw_frame_deadline {
            RawFrameDeadline::Automatic => Seq::empty(),
            RawFrameDeadline::OneFrame => " --max-frame-age-ms "@ + decimal(
                one_frame_millis(effective_fps) as nat,
            ),
            RawFrameDeadline::Disabled => " --max-frame-age-ms 0"@,
        }) + (if self.adaptive_bitrate {
            Seq::empty()
        } else {
            " --fixed-bitrate"@
        }) + (if self.prioritize_encoding_speed {
            Seq::empty()
        } else {
            " --quality-priority"@
        })
    }

    /// The command-line arguments that ask for these controls.
    pub fn command_arguments(self, effective_fps: u32) -> (arguments: String)
        ensures
            arguments@ == self.arguments(effective_fps),
    {
        let mut arguments: String = String::new();
        match self.raw_frame_deadline {
            RawFrameDeadline::Automatic => {},
            RawFrameDeadline::OneFrame => {
                arguments = arguments.concat(" --max-frame-age-ms ");
                push_decimal(&mut arguments, one_frame_deadline(effective_fps));
            },
            RawFrameDeadline::Disabled => {
                arguments = arguments.concat(" --max-frame-age-ms 0");
            },
        }
        if !self.adaptive_bitrate {
            arguments = arguments.concat(" --fixed-bitrate");
        }
        if !self.prioritize_encoding_speed {
            arguments = arguments.concat(" --quality-priority");
        }
        assert(arguments@ =~= self.arguments(effective_fps));
        arguments
    }

    /// The controls in words.
    pub open spec fn words(self) -> Seq<char> {
        (if self.adaptive_bitrate {
            "adaptive bitrate"@
        } else {
            "fixed bitrate"@
        }) + ", "@ + (if self.prioritize_encoding_speed {
            "speed priority"@
        } else {
            "quality priority"@
        }) + ", "@ + (match self.raw_frame_deadline {
            RawFrameDeadline::Automatic => "automatic two-frame deadline"@,
            RawFrameDeadline::OneFrame => "one-frame deadline"@,
            RawFrameDeadline::Disabled => "deadline disabled"@,
        })
    }

    /// The controls in words.
    pub fn description(self) -> (description: String)
        ensures
            description@ == self.words(),
    {
        let bitrate: &str = if self.adaptive_bitrate {
            "adaptive bitrate"
        } else {
            "fixed bitrate"
        };
        let encoder: &str = if self.prioritize_encoding_speed {
            "speed priority"
        } else {
            "quality priority"
        };
        let deadline: &str = match self.raw_frame_deadline {
            RawFrameDeadline::Automatic => "automatic two-frame deadline",
            RawFrameDeadline::OneFrame => "one-frame deadline",
            RawFrameDeadline::Disabled => "deadline disabled",
        };
        bitrate.to_owned().concat(", ").concat(encoder).concat(", ").concat(deadline)
    }

    /// How many controls differ from the defaults.
    pub open spec fn deviations(self) -> int {
        (if self.adaptive_bitrate {
            0int
        } else {
            1
        }) + (if self.prioritize_encoding_speed {
            0int
        } else {
            1
        }) + (if self.raw_frame_deadline is Automatic {
            0int
        } else {
            1
        })
    }

    /// How many controls differ from the defaults.
    pub fn deviation_count(self) -> (count: u8)
        ensures
            count == self.deviations(),
    {
        let mut count: u8 = 0;
        if !self.adaptive_bitrate {
            count = count + 1;
        }
        if !self.prioritize_encoding_speed {
            count = count + 1;
        }
        match self.raw_frame_deadline {
            RawFrameDeadline::Automatic => {},
            _ => {
                count = count + 1;
            },
        }
        count
    }
}

/// The arguments of the winner ask for its controls and nothing else: settings without any tuning
/// need no arguments.
pub proof fn lemma_defaults_need_no_arguments(fps: u32)
    ensures
        baseline().arguments(fps) == Seq::<char>::empty(),
        baseline().deviations() == 0,
{
    assert(baseline().arguments(fps) =~= Seq::<char>::empty());
}

/// Why tuning was refused.
#[derive(Clone, Copy, Debug, PartialEq, Eq, Structural)]
pub enum AutoTuneError {
    /// Every trial needs the same workload.
    NotSynthetic,
    /// A display cannot be combined with the synthetic workload.
    DisplaySelected,
    /// An extended display cannot be combined with the synthetic workload.
    Extended,
    /// The controls that the trials vary were set by hand.
    ControlsSet,
    /// Too short for every trial to cover a whole cycle of the workload.
    TooShort,
}

/// Why tuning with these options is refused, if it is.
pub open spec fn auto_tune_refusal(options: MirrorOptions, total_duration: u128) -> Option<
    AutoTuneError,
> {
    if !options.synthetic {
        Some(AutoTuneError::NotSynthetic)
    } else if options.display_id is Some {
        Some(AutoTuneError::DisplaySelected)
    } else if options.extend {
        Some(AutoTuneError::Extended)
    } else if options.max_frame_age is Some || !options.adaptive_bitrate
        || !options.prioritize_encoding_speed {
        Some(AutoTuneError::ControlsSet)
    } else if total_duration < AUTO_TUNE_MINIMUM_SECONDS * 1_000_000_000 {
        Some(AutoTuneError::TooShort)
    } else {
        None
    }
}

/// Tuning runs on synthetic frames with every control at its default, on no display, and for a
/// minute at least.
pub proof fn lemma_tuning_starts_from_the_defaults(options: MirrorOptions, total_duration: u128)
    ensures
        auto_tune_refusal(options, total_duration) is None <==> {
            &&& options.synthetic
            &&& options.display_id is None
            &&& !options.extend
            &&& options.max_frame_age is None
            &&& options.adaptive_bitrate
            &&& options.prioritize_encoding_speed
            &&& total_duration >= 60_000_000_000
        },
{
}

/// Checks the options of a tuning run. Returns how long each trial takes, in nanoseconds.
pub fn plan_auto_tune(options: &MirrorOptions, total_duration: u128) -> (result: Result<
    u128,
    AutoTuneError,
>)
    ensures
        match result {
            Ok(trial) => auto_tune_refusal(*options, total_duration) is None && trial
                == total_duration / 6,
            Err(error) => auto_tune_refusal(*options, total_duration) == Some(error),
        },
{
    if !options.synthetic {
        return Err(AutoTuneError::NotSynthetic);
    }
    if options.display_id.is_some() {
        return Err(AutoTuneError::DisplaySelected);
    }
    if options.extend {
        return Err(AutoTuneError::Extended);
    }
    if options.max_frame_age.is_some() || !options.adaptive_bitrate
        || !options.prioritize_encoding_speed {
        return Err(AutoTuneError::ControlsSet);
    }
    if total_duration < AUTO_TUNE_MINIMUM_SECONDS as u128 * 1_000_000_000 {
        return Err(AutoTuneError::TooShort);
    }
    Ok(total_duration / 6)
}

/// The trials together never take longer than was asked for.
pub proof fn lemma_trials_fit_the_budget(total_duration: u128)
    ensures
        total_duration / 6 * AUTO_TUNE_TRIAL_COUNT <= total_duration,
{
}

/// The controls of the first five trials: the defaults, and then one change each.
pub open spec fn trial_config(index: int) -> TuningConfig {
    if index == 1 {
        TuningConfig { adaptive_bitrate: false, ..baseline() }
    } else if index == 2 {
        TuningConfig { prioritize_encoding_speed: false, ..baseline() }
    } else if index == 3 {
        TuningConfig { raw_frame_deadline: RawFrameDeadline::OneFrame, ..baseline() }
    } else if index == 4 {
        TuningConfig { raw_frame_deadline: RawFrameDeadline::Disabled, ..baseline() }
    } else {
        baseline()
    }
}

pub open spec fn trial_name(index: int) -> Seq<char> {
    if index == 0 {
        "baseline defaults"@
    } else if index == 1 {
        "fixed bitrate"@
    } else if index == 2 {
        "quality priority"@
    } else if index == 3 {
        "one-frame deadline"@
    } else if index == 4 {
        "deadline disabled"@
    } else {
        "combined validation"@
    }
}

/// The trials have names of their own.
pub proof fn lemma_trials_have_their_names()
    ensures
        trial_name(0) == "baseline defaults"@,
        trial_name(1) == "fixed bitrate"@,
        trial_name(2) == "quality priority"@,
        trial_name(3) == "one-frame deadline"@,
        trial_name(4) == "deadline disabled"@,
        trial_name(5) == "combined validation"@,
{
}

/// Every trial of a single control deviates from the defaults in that control alone.
pub proof fn lemma_single_trials_deviate_once(index: int)
    requires
        0 <= index < 5,
    ensures
        trial_config(index).deviations() == if index == 0 {
            0int
        } else {
            1
        },
{
}

/// What a finished trial measured.
#[derive(Clone, Copy, Debug, PartialEq, Eq, Structural)]
pub struct TrialOutcome {
    pub config: TuningConfig,
    pub effective_fps: u32,
    pub score: Double,
}

/// What a tuning run does next.
pub enum AutoTuneStep {
    /// Run one of the single-control trials.
    Trial { index: usize, name: &'static str, config: TuningConfig, deadline_fps: u32 },
    /// Combine what improved, and run the last trial.
    Combine { deadline_fps: u32 },
    /// The user stopped the run after so many trials: nothing is recommended.
    Stopped { completed: usize },
    /// Every trial is done.
    Report,
}

/// The frame rate that a one-frame deadline is measured against: what the first trial got, or
/// what was asked for.
pub open spec fn deadline_rate(outcomes: Seq<TrialOutcome>, requested_fps: u32) -> u32 {
    if outcomes.len() > 0 {
        outcomes[0].effective_fps
    } else {
        requested_fps
    }
}

/// What a tuning run does after the trials so far. `interrupted` is only looked at between trials.
pub fn auto_tune_step(outcomes: &Vec<TrialOutcome>, requested_fps: u32, interrupted: bool) -> (step:
    AutoTuneStep)
    ensures
        outcomes@.len() > 0 && interrupted ==> step == (AutoTuneStep::Stopped {
            completed: outcomes@.len() as usize,
        }),
        (outcomes@.len() == 0 || !interrupted) && outcomes@.len() < 5 ==> (step matches AutoTuneStep::Trial {
            index,
            name,
            config,
            deadline_fps,
        } && index == outcomes@.len() && name@ == trial_name(index as int) && config == trial_config(
            index as int,
        ) && deadline_fps == deadline_rate(outcomes@, requested_fps)),
        !interrupted && outcomes@.len() == 5 ==> step == (AutoTuneStep::Combine {
            deadline_fps: deadline_rate(outcomes@, requested_fps),
        }),
        !interrupted && outcomes@.len() > 5 ==> step is Report,
{
    let completed: usize = outcomes.len();
    if completed > 0 && interrupted {
        return AutoTuneStep::Stopped { completed };
    }
    let deadline_fps: u32 = if completed > 0 {
        outcomes[0].effective_fps
    } else {
        requested_fps
    };
    let defaults: TuningConfig = TuningConfig::default_controls();
    if completed == 0 {
        AutoTuneStep::Trial { index: 0, name: "baseline defaults", config: defaults, deadline_fps }
    } else if completed == 1 {
        AutoTuneStep::Trial {
            index: 1,
            name: "fixed bitrate",
            config: TuningConfig { adaptive_bitrate: false, ..defaults },
            deadline_fps,
        }
    } else if completed == 2 {
        AutoTuneStep::Trial {
            index: 2,
            name: "quality priority",
            config: TuningConfig { prioritize_encoding_speed: false, ..defaults },
            deadline_fps,
        }
    } else if completed == 3 {
        AutoTuneStep::Trial {
            index: 3,
            name: "one-frame deadline",
            config: TuningConfig { raw_frame_deadline: RawFrameDeadline::OneFrame, ..defaults },
            deadline_fps,
        }
    } else if completed == 4 {
        AutoTuneStep::Trial {
            index: 4,
            name: "deadline disabled",
            config: TuningConfig { raw_frame_deadline: RawFrameDeadline::Disabled, ..defaults },
            deadline_fps,
        }
    } else if completed == 5 {
        AutoTuneStep::Combine { deadline_fps }
    } else {
        AutoTuneStep::Report
    }
}

/// Of the two deadline trials, the one with the lower score; the one-frame deadline where both
/// are the same.
pub fn better_deadline(one_frame: Double, disabled: Double) -> (better: (RawFrameDeadline, Double))
    ensures
        better == if one_frame.order <= disabled.order {
            (RawFrameDeadline::OneFrame, one_frame)
        } else {
            (RawFrameDeadline::Disabled, disabled)
        },
{
    if one_frame.order <= disabled.order {
        (RawFrameDeadline::OneFrame, one_frame)
    } else {
        (RawFrameDeadline::Disabled, disabled)
    }
}

/// The controls whose own trials improved on the defaults by more than the noise, together.
pub fn combined_tuning_config(
    fixed_bitrate_improves: bool,
    quality_priority_improves: bool,
    deadline: RawFrameDeadline,
    deadline_improves: bool,
) -> (config: TuningConfig)
    ensures
        config == (TuningConfig {
            adaptive_bitrate: !fixed_bitrate_improves,
            prioritize_encoding_speed: !quality_priority_improves,
            raw_frame_deadline: if deadline_improves {
                deadline
            } else {
                RawFrameDeadline::Automatic
            },
        }),
{
    TuningConfig {
        adaptive_bitrate: !fixed_bitrate_improves,
        prioritize_encoding_speed: !quality_priority_improves,
        raw_frame_deadline: if deadline_improves {
            deadline
        } else {
            RawFrameDeadline::Automatic
        },
    }
}

/// A candidate: its controls, its score, and whether the score lies within the noise of the best.
#[derive(Clone, Copy, Debug, PartialEq, Eq, Structural)]
pub struct TuningEntry {
    pub config: TuningConfig,
    pub score: Double,
    pub within_margin: bool,
}

/// Whether one entry is preferred to another: fewer changed controls first, then the lower score.
pub open spec fn preferred(left: TuningEntry, right: TuningEntry) -> bool {
    left.config.deviations() < right.config.deviations() || (left.config.deviations()
        == right.config.deviations() && left.score.order < right.score.order)
}

/// The entry that wins: one within the noise of the best, such that no other such entry is
/// preferred to it and none before it is as good.
pub open spec fn wins(entries: Seq<TuningEntry>, index: int) -> bool {
    &&& 0 <= index < entries.len()
    &&& entries[index].within_margin
    &&& forall|i: int|
        0 <= i < entries.len() && (#[trigger] entries[i]).within_margin ==> !preferred(
            entries[i],
            entries[index],
        )
    &&& forall|i: int|
        0 <= i < index && (#[trigger] entries[i]).within_margin ==> preferred(
            entries[index],
            entries[i],
        )
}

/// A deadline of one frame lasts at least as long as a frame, and less than a millisecond longer;
/// one that is switched off is zero, and the automatic one is not given.
pub proof fn lemma_one_frame_fits_its_deadline(config: TuningConfig, fps: u32)
    requires
        fps > 0,
    ensures
        config.raw_frame_deadline is Automatic ==> config.max_frame_age(fps) is None,
        config.raw_frame_deadline is Disabled ==> config.max_frame_age(fps) == Some(0u128),
        config.raw_frame_deadline is OneFrame ==> {
            let age = config.max_frame_age(fps)->0;
            &&& config.max_frame_age(fps) is Some
            &&& age % 1_000_000 == 0
            &&& (age / 1_000_000) * fps >= 1000
            &&& (age / 1_000_000 - 1) * fps < 1000
        },
{
    let rate = fps as int;
    let millis = (1_000 + rate - 1) / rate;
    assert(1 <= millis <= 1000 && millis * rate >= 1000 && (millis - 1) * rate < 1000)
        by (nonlinear_arith)
        requires
            rate > 0,
            millis == (1_000 + rate - 1) / rate,
    ;
}

/// A configuration is asked for by the controls that it changes: the deadline in milliseconds, a
/// deadline that is switched off as zero, and one word for each of the other two.
pub proof fn lemma_configurations_are_asked_for(config: TuningConfig, fps: u32)
    requires
        fps > 0,
    ensures
        config.raw_frame_deadline is Automatic && config.adaptive_bitrate
            && config.prioritize_encoding_speed ==> config.arguments(fps).len() == 0,
        config.raw_frame_deadline is Automatic && !config.adaptive_bitrate
            && config.prioritize_encoding_speed ==> config.arguments(fps) == " --fixed-bitrate"@,
        config.raw_frame_deadline is Automatic && config.adaptive_bitrate
            && !config.prioritize_encoding_speed ==> config.arguments(fps)
            == " --quality-priority"@,
        config.raw_frame_deadline is Disabled && config.adaptive_bitrate
            && config.prioritize_encoding_speed ==> config.arguments(fps)
            == " --max-frame-age-ms 0"@,
        config.raw_frame_deadline is OneFrame && config.adaptive_bitrate
            && config.prioritize_encoding_speed ==> config.arguments(fps) == " --max-frame-age-ms "@
            + decimal(((config.max_frame_age(fps)->0) / 1_000_000) as nat),
{
    let rate = fps as int;
    let millis = (1_000 + rate - 1) / rate;
    assert(1 <= millis <= 1000) by (nonlinear_arith)
        requires
            rate > 0,
            millis == (1_000 + rate - 1) / rate,
    ;
    assert((millis * 1_000_000) / 1_000_000 == millis);
    if config.raw_frame_deadline is OneFrame {
        assert((config.max_frame_age(fps)->0) / 1_000_000 == millis);
        assert(config.adaptive_bitrate && config.prioritize_encoding_speed ==> config.arguments(fps)
            =~= " --max-frame-age-ms "@ + decimal(millis as nat));
    }
}

/// The winner lies within the margin, and no entry within the margin changes fewer controls, or as
/// many with a lower score.
pub proof fn lemma_the_winner_changes_the_least(entries: Seq<TuningEntry>, winner: int, index: int)
    requires
        wins(entries, winner),
        0 <= index < entries.len(),
        entries[index].within_margin,
    ensures
        entries[winner].within_margin,
        entries[winner].config.deviations() <= entries[index].config.deviations(),
        entries[winner].config.deviations() == entries[index].config.deviations()
            ==> entries[winner].score.order <= entries[index].score.order,
        entries[winner].config.deviations() == entries[index].config.deviations()
            && entries[winner].score.order == entries[index].score.order ==> winner <= index,
{
    assert(!preferred(entries[index], entries[winner]));
    if index < winner {
        assert(preferred(entries[winner], entries[index]));
    }
}

/// The entry that wins.
pub fn select_tuning_winner(entries: &[TuningEntry]) -> (winner: usize)
    requires
        exists|i: int| 0 <= i < entries@.len() && (#[trigger] entries@[i]).within_margin,
    ensures
        wins(entries@, winner as int),
{
    let mut winner: Option<usize> = None;
    let mut index: usize = 0;
    while index < entries.len()
        invariant
            index <= entries@.len(),
            match winner {
                None => forall|i: int|
                    0 <= i < index ==> !(#[trigger] entries@[i]).within_margin,
                Some(best) => wins(entries@.take(index as int), best as int),
            },
        decreases entries@.len() - index,
    {
        let entry: TuningEntry = entries[index];
        let ghost shorter = entries@.take(index as int);
        let ghost longer = entries@.take(index + 1);
        assert(forall|i: int| 0 <= i < index ==> #[trigger] longer[i] == shorter[i]);
        assert(longer[index as int] == entry);
        if entry.within_margin {
            match winner {
                None => {
                    winner = Some(index);
                    assert(wins(longer, index as int));
                },
                Some(best) => {
                    let leader: TuningEntry = entries[best];
                    assert(leader == shorter[best as int]);
                    let mine: u8 = entry.config.deviation_count();
                    let theirs: u8 = leader.config.deviation_count();
                    if mine < theirs || (mine == theirs && entry.score.order < leader.score.order) {
                        winner = Some(index);
                        assert(wins(longer, index as int)) by {
                            assert forall|i: int|
                                0 <= i < longer.len() && (
                                #[trigger] longer[i]).within_margin implies !preferred(
                                longer[i],
                                longer[index as int],
                            ) && (i < index ==> preferred(longer[index as int], longer[i])) by {
                                if i < index {
                                    assert(shorter[i].within_margin);
                                    assert(!preferred(shorter[i], shorter[best as int]));
                                }
                            }
                        }
                    } else {
                        assert(wins(longer, best as int)) by {
                            assert forall|i: int|
                                0 <= i < longer.len() && (
                                #[trigger] longer[i]).within_margin implies !preferred(
                                longer[i],
                                longer[best as int],
                            ) by {
                                if i < index {
                                    assert(shorter[i].within_margin);
                                }
                            }
                            assert forall|i: int|
                                0 <= i < best && (#[trigger] longer[i]).within_margin implies preferred(
                                longer[best as int],
                                longer[i],
                            ) by {
                                assert(shorter[i].within_margin);
                            }
                        }
                    }
                },
            }
        } else {
            if let Some(leader) = winner {
                let ghost best = leader as int;
                assert(wins(longer, best)) by {
                    assert forall|i: int|
                        0 <= i < longer.len() && (
                        #[trigger] longer[i]).within_margin implies !preferred(
                        longer[i],
                        longer[best],
                    ) by {
                        if i < index {
                            assert(shorter[i].within_margin);
                        }
                    }
                    assert forall|i: int|
                        0 <= i < best && (#[trigger] longer[i]).within_margin implies preferred(
                        longer[best],
                        longer[i],
                    ) by {
                        assert(shorter[i].within_margin);
                    }
                }
            }
        }
        index = index + 1;
    }
    assert(entries@.take(index as int) =~= entries@);
    match winner {
        Some(best) => best,
        None => 0,
    }
}

/// There is only one winner.
pub proof fn lemma_the_winner_is_unique(entries: Seq<TuningEntry>, first: int, second: int)
    requires
        wins(entries, first),
        wins(entries, second),
    ensures
        first == second,
{
    assert(entries[first].within_margin);
    assert(entries[second].within_margin);
}

/// Within the noise the defaults win: no entry with changed controls wins while the defaults are
/// within the margin.
pub proof fn lemma_defaults_win_within_the_noise(entries: Seq<TuningEntry>, defaults: int, winner: int)
    requires
        0 <= defaults < entries.len(),
        entries[defaults].within_margin,
        entries[defaults].config == baseline(),
        wins(entries, winner),
    ensures
        entries[winner].config.deviations() == 0,
{
    assert(entries[defaults].within_margin);
    assert(!preferred(entries[defaults], entries[winner]));
}

/// The command that starts a session with the winning settings.
pub fn winning_command(
    options: &MirrorOptions,
    config: TuningConfig,
    balanced_ms: u64,
    effective_fps: u32,
) -> (command: String)
    ensures
        command@ == desktop_command(
            *options,
            Seq::empty(),
            balanced_ms,
            effective_fps,
            config.arguments(effective_fps),
        ),
{
    proof {
        reveal_strlit("");
    }
    assert(""@ =~= Seq::<char>::empty());
    let arguments: String = config.command_arguments(effective_fps);
    recommended_command(options, "", balanced_ms, effective_fps, arguments.as_str())
}

} // verus!
