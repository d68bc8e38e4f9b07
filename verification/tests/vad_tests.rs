use p2d_core::vad::FRAME_SAMPLES;
use p2d_core::vad::VadState;
use p2d_core::vad::frame_energy_active;

fn uniform_frame(value: i32) -> Vec<i32> {
    vec![value; FRAME_SAMPLES]
}

#[test]
fn rms_exactly_at_threshold_is_not_speech() {
    // 5000 millionths is an RMS of exactly 0.005: not speaking.
    assert!(!frame_energy_active(&uniform_frame(5000)));
    assert!(!frame_energy_active(&uniform_frame(-5000)));
}

#[test]
fn rms_just_above_threshold_is_speech() {
    // 5100 millionths is an RMS of 0.0051: speaking.
    assert!(frame_energy_active(&uniform_frame(5100)));
    assert!(frame_energy_active(&uniform_frame(-5100)));
}

#[test]
fn silence_is_not_speech() {
    assert!(!frame_energy_active(&uniform_frame(0)));
    assert!(!frame_energy_active(&Vec::new()));
}

#[test]
fn single_spike_counts_via_energy() {
    // One loud sample among silence: sum of squares decides, not the peak.
    let mut frame = uniform_frame(0);
    frame[0] = 1_000_000;
    // sum = 1e12 > 1920 * 25e6 = 4.8e10, so this frame is active.
    assert!(frame_energy_active(&frame));
}

#[test]
fn hangover_keeps_talking_for_ten_frames() {
    let mut vad = VadState::new();
    let first = vad.gate_frame(false, true);
    assert_eq!(first.transition, Some(true));
    assert!(first.encode_and_send);
    // Ten quiet frames keep the hangover draining; still talking.
    for _ in 0..9 {
        let out = vad.gate_frame(false, false);
        assert_eq!(out.transition, None);
        assert!(out.encode_and_send);
    }
    // The tenth quiet frame ends the hangover.
    let last = vad.gate_frame(false, false);
    assert_eq!(last.transition, Some(false));
    assert!(!last.encode_and_send);
}

#[test]
fn transitions_are_edge_triggered() {
    let mut vad = VadState::new();
    assert_eq!(vad.gate_frame(false, true).transition, Some(true));
    assert_eq!(vad.gate_frame(false, true).transition, None);
    assert_eq!(vad.gate_frame(false, true).transition, None);
}

#[test]
fn mute_emits_false_once_and_sends_nothing() {
    let mut vad = VadState::new();
    let talking = vad.gate_frame(false, true);
    assert_eq!(talking.transition, Some(true));
    // Frame N+1: mute set.  speaking=false is reported, nothing is sent.
    let muted = vad.gate_frame(true, true);
    assert_eq!(muted.transition, Some(false));
    assert!(!muted.encode_and_send);
    // Staying muted reports nothing further.
    let still = vad.gate_frame(true, true);
    assert_eq!(still.transition, None);
    assert!(!still.encode_and_send);
}
