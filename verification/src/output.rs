//! The local audio output while its sound goes to a receiver: it stays muted, what the user does
//! to it becomes a command for the receiver, and its state is restored at the end.

use vstd::prelude::*;

use crate::float32::Single;

verus! {

/// What the user did to the local output.
#[derive(Clone, Copy, Debug, PartialEq, Eq, Structural)]
pub enum LocalOutputControl {
    Volume(Single),
    ToggleMute,
}

/// What the receiver is asked to do.
#[derive(Clone, Copy, Debug, PartialEq, Eq, Structural)]
pub enum ReceiverVolumeCommand {
    SetLevel(Single),
    ToggleMute,
}

/// The command that forwards a local change.
pub open spec fn command_for(control: LocalOutputControl) -> ReceiverVolumeCommand {
    match control {
        LocalOutputControl::Volume(level) => ReceiverVolumeCommand::SetLevel(level),
        LocalOutputControl::ToggleMute => ReceiverVolumeCommand::ToggleMute,
    }
}

impl From<LocalOutputControl> for ReceiverVolumeCommand {
    fn from(value: LocalOutputControl) -> (command: Self) {
        match value {
            LocalOutputControl::Volume(level) => ReceiverVolumeCommand::SetLevel(level),
            LocalOutputControl::ToggleMute => ReceiverVolumeCommand::ToggleMute,
        }
    }
}

impl vstd::std_specs::convert::FromSpecImpl<LocalOutputControl> for ReceiverVolumeCommand {
    open spec fn obeys_from_spec() -> bool {
        true
    }

    open spec fn from_spec(value: LocalOutputControl) -> Self {
        command_for(value)
    }
}

/// The state of an output device.
#[derive(Clone, Copy, Debug, PartialEq, Eq, Structural)]
pub struct OutputSnapshot {
    pub device_id: u32,
    pub volume: Option<Single>,
    pub muted: Option<bool>,
}

/// The default output device does not expose a controllable mute state.
#[derive(Clone, Copy, Debug, PartialEq, Eq, Structural)]
pub struct MuteNotControllable {}

/// The state to restore, and the last volume that the user was seen to choose.
#[derive(Clone, Copy, Debug, PartialEq, Eq, Structural)]
pub struct OutputTracker {
    original: OutputSnapshot,
    observed_volume: Option<Single>,
}

impl OutputTracker {
    pub closed spec fn original_spec(self) -> OutputSnapshot {
        self.original
    }

    pub closed spec fn observed(self) -> Option<Single> {
        self.observed_volume
    }

    pub fn new(snapshot: OutputSnapshot) -> (result: Result<Self, MuteNotControllable>)
        ensures
            result is Ok <==> snapshot.muted is Some,
            result matches Ok(tracker) ==> tracker.original_spec() == snapshot && tracker.observed()
                == snapshot.volume,
    {
        if snapshot.muted.is_none() {
            return Err(MuteNotControllable {  });
        }
        Ok(OutputTracker { original: snapshot, observed_volume: snapshot.volume })
    }

    pub fn original(&self) -> (snapshot: OutputSnapshot)
        ensures
            snapshot == self.original_spec(),
    {
        self.original
    }

    /// Whether a snapshot changes the volume, where `moved` says that its volume lies at least
    /// a thousandth away from the one observed last.
    pub open spec fn volume_changed(self, snapshot: OutputSnapshot, moved: bool) -> bool {
        moved && self.observed() is Some && snapshot.volume is Some
    }

    /// What a snapshot means: a moved volume is forwarded, brought into range; an output that was
    /// unmuted without that means that the user pressed mute.
    pub open spec fn controls_for(self, snapshot: OutputSnapshot, moved: bool) -> Seq<
        LocalOutputControl,
    > {
        if self.volume_changed(snapshot, moved) {
            seq![LocalOutputControl::Volume(snapshot.volume->0.in_unit_range())]
        } else if snapshot.muted == Some(false) {
            seq![LocalOutputControl::ToggleMute]
        } else {
            Seq::empty()
        }
    }

    /// Takes a snapshot in. Returns what to forward, and whether the output has to be muted
    /// again. `moved` says whether the snapshot's volume lies at least a thousandth away from the
    /// one that `observed_volume` gives.
    pub fn observe(&mut self, snapshot: OutputSnapshot, moved: bool) -> (result: (
        Vec<LocalOutputControl>,
        bool,
    ))
        ensures
            result.0@ == old(self).controls_for(snapshot, moved),
            result.1 == (snapshot.muted == Some(false)),
            final(self).original_spec() == old(self).original_spec(),
            final(self).observed() == if old(self).volume_changed(snapshot, moved) {
                snapshot.volume
            } else {
                old(self).observed()
            },
    {
        let mut controls: Vec<LocalOutputControl> = Vec::new();
        let mut volume_changed: bool = false;
        if self.observed_volume.is_some() && moved {
            if let Some(volume) = snapshot.volume {
                self.observed_volume = Some(volume);
                volume_changed = true;
                controls.push(LocalOutputControl::Volume(volume.clamp_to_unit()));
            }
        }
        let unmuted: bool = match snapshot.muted {
            Some(muted) => !muted,
            None => false,
        };
        if unmuted && !volume_changed {
            controls.push(LocalOutputControl::ToggleMute);
        }
        assert(controls@ =~= old(self).controls_for(snapshot, moved));
        (controls, unmuted)
    }

    /// The volume observed last.
    pub fn observed_volume(&self) -> (volume: Option<Single>)
        ensures
            volume == self.observed(),
    {
        self.observed_volume
    }
}

/// A snapshot leads to one control at most: a volume that was moved is passed on, brought into
/// range; where it was not moved, an output that is no longer muted means that mute was pressed.
pub proof fn lemma_one_control_at_a_time(tracker: OutputTracker, snapshot: OutputSnapshot, moved: bool)
    ensures
        tracker.controls_for(snapshot, moved).len() <= 1,
        moved && tracker.observed() is Some && snapshot.volume is Some ==> tracker.controls_for(
            snapshot,
            moved,
        )[0] == LocalOutputControl::Volume(snapshot.volume->0.in_unit_range()),
        !moved && snapshot.muted == Some(false) ==> tracker.controls_for(snapshot, moved)[0]
            == LocalOutputControl::ToggleMute,
        !moved && snapshot.muted != Some(false) ==> tracker.controls_for(snapshot, moved).len() == 0,
        command_for(LocalOutputControl::ToggleMute) == ReceiverVolumeCommand::ToggleMute,
        snapshot.volume is Some ==> command_for(LocalOutputControl::Volume(snapshot.volume->0))
            == ReceiverVolumeCommand::SetLevel(snapshot.volume->0),
{
}

/// A call on the output device.
#[derive(Clone, Copy, Debug, PartialEq, Eq, Structural)]
pub enum OutputCall {
    SetVolume { device_id: u32, volume: Single },
    SetMuted { device_id: u32, muted: bool },
}

/// The calls that bring an output back to a state.
pub open spec fn restore_calls(snapshot: OutputSnapshot) -> Seq<OutputCall> {
    (match snapshot.volume {
        Some(volume) => seq![OutputCall::SetVolume { device_id: snapshot.device_id, volume }],
        None => Seq::empty(),
    }) + (match snapshot.muted {
        Some(muted) => seq![OutputCall::SetMuted { device_id: snapshot.device_id, muted }],
        None => Seq::empty(),
    })
}

/// The calls that bring an output back to a state.
pub fn restore_output(snapshot: OutputSnapshot) -> (calls: Vec<OutputCall>)
    ensures
        calls@ == restore_calls(snapshot),
{
    let mut calls: Vec<OutputCall> = Vec::new();
    if let Some(volume) = snapshot.volume {
        calls.push(OutputCall::SetVolume { device_id: snapshot.device_id, volume });
    }
    if let Some(muted) = snapshot.muted {
        calls.push(OutputCall::SetMuted { device_id: snapshot.device_id, muted });
    }
    assert(calls@ =~= restore_calls(snapshot));
    calls
}

/// What follows the calls that were made so far to bring an output back.
#[derive(Clone, Copy, Debug, PartialEq, Eq, Structural)]
pub enum RestoreStep {
    /// Make this call.
    Call(OutputCall),
    /// Every call was made and succeeded.
    Done,
    /// Every call was made. The one at this place was the first to fail: its error is the result.
    Fail(usize),
}

/// What follows the calls that were made so far to bring an output back, where `failed` says of
/// each whether it failed. Every call is made, whatever became of those before it.
pub fn restore_step(snapshot: OutputSnapshot, failed: &[bool]) -> (step: RestoreStep)
    ensures
        match step {
            RestoreStep::Call(call) => failed@.len() < restore_calls(snapshot).len() && call
                == restore_calls(snapshot)[failed@.len() as int],
            RestoreStep::Done => failed@.len() >= restore_calls(snapshot).len() && forall|i: int|
                0 <= i < failed@.len() ==> !(#[trigger] failed@[i]),
            RestoreStep::Fail(first) => failed@.len() >= restore_calls(snapshot).len() && first
                < failed@.len() && failed@[first as int] && forall|i: int|
                0 <= i < first ==> !(#[trigger] failed@[i]),
        },
{
    let calls: Vec<OutputCall> = restore_output(snapshot);
    if failed.len() < calls.len() {
        return RestoreStep::Call(calls[failed.len()]);
    }
    let mut index: usize = 0;
    while index < failed.len()
        invariant
            index <= failed@.len(),
            failed@.len() >= restore_calls(snapshot).len(),
            forall|i: int| 0 <= i < index ==> !(#[trigger] failed@[i]),
        decreases failed@.len() - index,
    {
        if failed[index] {
            return RestoreStep::Fail(index);
        }
        index = index + 1;
    }
    RestoreStep::Done
}

/// An output after calls were carried out on it. Calls for another device do not concern it.
pub open spec fn carried_out(state: OutputSnapshot, calls: Seq<OutputCall>) -> OutputSnapshot
    decreases calls.len(),
{
    if calls.len() == 0 {
        state
    } else {
        let before = carried_out(state, calls.drop_last());
        match calls.last() {
            OutputCall::SetVolume { device_id, volume } => if device_id == before.device_id {
                OutputSnapshot { volume: Some(volume), ..before }
            } else {
                before
            },
            OutputCall::SetMuted { device_id, muted } => if device_id == before.device_id {
                OutputSnapshot { muted: Some(muted), ..before }
            } else {
                before
            },
        }
    }
}

/// Whatever state a device was left in, restoring gives it back as it was found. Where it had no
/// volume, the volume is not touched.
pub proof fn lemma_the_output_is_given_back(found: OutputSnapshot, left: OutputSnapshot)
    requires
        found.device_id == left.device_id,
        found.muted is Some,
    ensures
        carried_out(left, restore_calls(found)) == (OutputSnapshot {
            volume: if found.volume is Some {
                found.volume
            } else {
                left.volume
            },
            ..found
        }),
{
    let calls = restore_calls(found);
    reveal_with_fuel(carried_out, 3);
    if found.volume is Some {
        assert(calls.len() == 2);
        assert(calls.drop_last() =~= seq![
            OutputCall::SetVolume { device_id: found.device_id, volume: found.volume->0 },
        ]);
        assert(calls.drop_last().drop_last() =~= Seq::empty());
    } else {
        assert(calls.len() == 1);
        assert(calls.drop_last() =~= Seq::empty());
    }
}

/// What one look at the output leads to.
pub enum RedirectStep {
    /// The default device changed: restore the old one, and mute the new one.
    Switch { restore: OutputSnapshot, mute: u32 },
    /// The default device changed to one that cannot be redirected: restore the old one and end.
    Abandon { restore: OutputSnapshot },
    /// Forward these to the receiver, and mute the device again where `suppress` says so.
    Forward { controls: Vec<LocalOutputControl>, suppress: bool },
}

/// Keeps the local output silent while its sound goes elsewhere.
pub struct LocalOutputRedirect {
    tracker: OutputTracker,
}

impl LocalOutputRedirect {
    pub closed spec fn tracker_spec(self) -> OutputTracker {
        self.tracker
    }

    /// Starts on the default device. It has to be muted first.
    pub fn start(snapshot: OutputSnapshot) -> (result: Result<(Self, OutputCall), MuteNotControllable>)
        ensures
            result is Ok <==> snapshot.muted is Some,
            result matches Ok((redirect, call)) ==> {
                &&& redirect.tracker_spec().original_spec() == snapshot
                &&& redirect.tracker_spec().observed() == snapshot.volume
                &&& call == OutputCall::SetMuted { device_id: snapshot.device_id, muted: true }
            },
    {
        match OutputTracker::new(snapshot) {
            Ok(tracker) => Ok(
                (
                    LocalOutputRedirect { tracker },
                    OutputCall::SetMuted { device_id: snapshot.device_id, muted: true },
                ),
            ),
            Err(error) => Err(error),
        }
    }

    /// The volume that the next look compares with.
    pub fn observed_volume(&self) -> (volume: Option<Single>)
        ensures
            volume == self.tracker_spec().observed(),
    {
        self.tracker.observed_volume()
    }

    /// Takes one look at the output in.
    pub fn poll(&mut self, snapshot: OutputSnapshot, moved: bool) -> (step: RedirectStep)
        ensures
            ({
                let before = old(self).tracker_spec();
                let original = before.original_spec();
                if snapshot.device_id != original.device_id {
                    if snapshot.muted is Some {
                        &&& step == RedirectStep::Switch {
                            restore: original,
                            mute: snapshot.device_id,
                        }
                        &&& final(self).tracker_spec().original_spec() == snapshot
                        &&& final(self).tracker_spec().observed() == snapshot.volume
                    } else {
                        &&& step == RedirectStep::Abandon { restore: original }
                        &&& final(self).tracker_spec() == before
                    }
                } else {
                    &&& step matches RedirectStep::Forward { controls, suppress }
                    &&& controls@ == before.controls_for(snapshot, moved)
                    &&& suppress == (snapshot.muted == Some(false))
                    &&& final(self).tracker_spec().original_spec() == original
                    &&& final(self).tracker_spec().observed() == if before.volume_changed(
                        snapshot,
                        moved,
                    ) {
                        snapshot.volume
                    } else {
                        before.observed()
                    }
                }
            }),
    {
        let original: OutputSnapshot = self.tracker.original();
        if snapshot.device_id != original.device_id {
            return match OutputTracker::new(snapshot) {
                Ok(tracker) => {
                    self.tracker = tracker;
                    RedirectStep::Switch { restore: original, mute: snapshot.device_id }
                },
                Err(_) => RedirectStep::Abandon { restore: original },
            };
        }
        let (controls, suppress) = self.tracker.observe(snapshot, moved);
        RedirectStep::Forward { controls, suppress }
    }

    /// The state that the device is brought back to at the end: the one that it was found in.
    pub fn finish(&self) -> (restore: OutputSnapshot)
        ensures
            restore == self.tracker_spec().original_spec(),
    {
        self.tracker.original()
    }
}

} // verus!
