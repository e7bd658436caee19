use cast::fanout::{fan_out_receiver_control, ReceiverControlQueue};
use cast::float32::Single;
use cast::output::{
    restore_output, restore_step, LocalOutputControl, LocalOutputRedirect, MuteNotControllable, OutputCall,
    OutputSnapshot, OutputTracker, ReceiverVolumeCommand, RedirectStep, RestoreStep,
};

const SILENCE: f32 = 0.0;

fn single(value: f32) -> Single {
    Single { bits: value.to_bits() }
}

fn snapshot(device_id: u32, volume: f32, muted: bool) -> OutputSnapshot {
    OutputSnapshot { device_id, volume: Some(single(volume)), muted: Some(muted) }
}

#[test]
fn output_tracker_forwards_volume_changes_and_reasserts_local_mute() {
    let original = snapshot(7, 0.4, false);
    let mut tracker = OutputTracker::new(original).unwrap();
    assert_eq!(tracker.original(), original);
    let (controls, needs_suppress) = tracker.observe(snapshot(7, 0.55, false), true);
    assert_eq!(controls, vec![LocalOutputControl::Volume(single(0.55))]);
    assert!(needs_suppress);

    let (controls, needs_suppress) = tracker.observe(snapshot(7, 0.55, false), false);
    assert_eq!(controls, vec![LocalOutputControl::ToggleMute]);
    assert!(needs_suppress);
}

#[test]
fn output_tracker_rejects_devices_without_mute_control() {
    let refused = OutputTracker::new(OutputSnapshot {
        device_id: 7,
        volume: Some(single(0.4)),
        muted: None,
    });
    assert_eq!(refused.err(), Some(MuteNotControllable {}));
}

#[test]
fn receiver_controls_map_and_fan_out_to_every_target() {
    let mut outputs = vec![
        ReceiverControlQueue { commands: Vec::new() },
        ReceiverControlQueue { commands: Vec::new() },
    ];
    fan_out_receiver_control(&mut outputs, LocalOutputControl::Volume(single(0.65)).into());
    fan_out_receiver_control(&mut outputs, LocalOutputControl::ToggleMute.into());

    let expected =
        vec![ReceiverVolumeCommand::SetLevel(single(0.65)), ReceiverVolumeCommand::ToggleMute];
    assert_eq!(outputs[0].commands, expected);
    assert_eq!(outputs[1].commands, expected);
}

struct FakeOutput {
    snapshot: OutputSnapshot,
    volume_updates: Vec<Single>,
    mute_updates: Vec<bool>,
}

impl FakeOutput {
    fn carry_out(&mut self, call: OutputCall) {
        match call {
            OutputCall::SetVolume { volume, .. } => {
                self.snapshot.volume = Some(volume);
                self.volume_updates.push(volume);
            }
            OutputCall::SetMuted { muted, .. } => {
                self.snapshot.muted = Some(muted);
                self.mute_updates.push(muted);
            }
        }
    }
}

#[test]
fn output_redirect_uses_a_backend_and_restores_the_original_state() {
    let original = snapshot(7, 0.4, false);
    let mut state =
        FakeOutput { snapshot: original, volume_updates: Vec::new(), mute_updates: Vec::new() };
    let (mut redirect, mute) = LocalOutputRedirect::start(state.snapshot).unwrap();
    state.carry_out(mute);
    assert_eq!(state.snapshot.muted, Some(true));
    state.snapshot.volume = Some(single(0.6));
    state.snapshot.muted = Some(false);
    let RedirectStep::Forward { controls, suppress } = redirect.poll(state.snapshot, true) else {
        panic!("the device did not change");
    };
    assert_eq!(controls[0], LocalOutputControl::Volume(single(0.6)));
    assert!(suppress);
    assert_eq!(redirect.observed_volume(), Some(single(0.6)));
    for call in restore_output(redirect.finish()) {
        state.carry_out(call);
    }
    assert_eq!(state.snapshot, original);
    assert_eq!(state.volume_updates.last(), Some(&single(0.4)));
    assert_eq!(state.mute_updates.last(), Some(&false));
}

#[test]
fn another_default_device_is_muted_in_place_of_the_first() {
    let original = snapshot(7, 0.4, false);
    let (mut redirect, _) = LocalOutputRedirect::start(original).unwrap();
    let RedirectStep::Switch { restore, mute } = redirect.poll(snapshot(8, 0.9, false), false)
    else {
        panic!("the device changed");
    };
    assert_eq!(restore, original);
    assert_eq!(mute, 8);
    let unmutable = OutputSnapshot { device_id: 9, volume: Some(single(SILENCE)), muted: None };
    assert!(matches!(redirect.poll(unmutable, false), RedirectStep::Abandon { .. }));
}

#[test]
fn outputs_are_restored_volume_first() {
    assert_eq!(
        restore_output(snapshot(7, 0.4, true)),
        [
            OutputCall::SetVolume { device_id: 7, volume: single(0.4) },
            OutputCall::SetMuted { device_id: 7, muted: true },
        ]
    );
    let silent = OutputSnapshot { device_id: 7, volume: None, muted: None };
    assert!(restore_output(silent).is_empty());
    assert_eq!(restore_step(silent, &[]), RestoreStep::Done);
}

#[test]
fn outputs_are_restored_whatever_fails() {
    let found = snapshot(7, 0.4, true);
    let volume = OutputCall::SetVolume { device_id: 7, volume: single(0.4) };
    let mute = OutputCall::SetMuted { device_id: 7, muted: true };
    assert_eq!(restore_step(found, &[]), RestoreStep::Call(volume));
    assert_eq!(restore_step(found, &[false]), RestoreStep::Call(mute));
    assert_eq!(restore_step(found, &[true]), RestoreStep::Call(mute));
    assert_eq!(restore_step(found, &[false, false]), RestoreStep::Done);
    assert_eq!(restore_step(found, &[true, true]), RestoreStep::Fail(0));
    assert_eq!(restore_step(found, &[false, true]), RestoreStep::Fail(1));
}

#[test]
fn numbers_are_read_from_their_bits() {
    assert!(single(0.0).is_finite_and_not_negative());
    assert!(!single(0.0).is_finite_and_positive());
    assert!(single(1.0e-30).is_finite_and_positive());
    assert!(!single(f32::NAN).is_finite_and_not_negative());
    assert_eq!(single(-3.0).at_least_zero(), single(0.0));
    assert_eq!(single(7.0).at_most(single(5.0)), single(5.0));
    assert_eq!(single(1.5).clamp_to_unit(), single(1.0));
    assert_eq!(single(0.25).clamp_to_unit(), single(0.25));
}
