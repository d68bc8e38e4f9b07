use p2d_core::capture::CaptureState;
use p2d_core::capture::RateRange;
use p2d_core::capture::choose_stream_config;
use p2d_core::vad::FRAME_SAMPLES;

fn loud_block(len: usize) -> Vec<i32> {
    vec![100_000; len]
}

#[test]
fn stereo_block_slices_into_frames_and_sends_while_talking() {
    let mut cap = CaptureState::new();
    let outs = cap.process_block(false, &loud_block(FRAME_SAMPLES), 2);
    assert_eq!(outs.len(), 1);
    assert_eq!(outs[0].transition, Some(true));
    let frame = outs[0].send_frame.as_ref().expect("loud frame must be sent");
    assert_eq!(frame.len(), FRAME_SAMPLES);
    assert!(frame.iter().all(|&s| s == 100_000));
}

#[test]
fn mono_input_is_duplicated_to_stereo() {
    let mut cap = CaptureState::new();
    // 960 mono samples make one 1920-sample stereo frame.
    let outs = cap.process_block(false, &loud_block(960), 1);
    assert_eq!(outs.len(), 1);
    let frame = outs[0].send_frame.as_ref().expect("sent");
    assert_eq!(frame.len(), FRAME_SAMPLES);
}

#[test]
fn surround_input_keeps_first_two_channels() {
    let mut cap = CaptureState::new();
    // 4-channel blocks: every group of 4 contributes its first two samples.
    let mut data: Vec<i32> = Vec::new();
    for i in 0..(FRAME_SAMPLES * 2) {
        data.push(if i % 4 < 2 { 200_000 } else { -1 });
    }
    let outs = cap.process_block(false, &data, 4);
    assert_eq!(outs.len(), 1);
    let frame = outs[0].send_frame.as_ref().expect("sent");
    assert!(frame.iter().all(|&s| s == 200_000));
}

#[test]
fn partial_frames_accumulate_across_blocks() {
    let mut cap = CaptureState::new();
    let outs1 = cap.process_block(false, &loud_block(1000), 2);
    assert!(outs1.is_empty());
    let outs2 = cap.process_block(false, &loud_block(1000), 2);
    assert_eq!(outs2.len(), 1);
}

#[test]
fn quiet_frames_are_dropped_by_dtx() {
    let mut cap = CaptureState::new();
    let outs = cap.process_block(false, &vec![100; FRAME_SAMPLES], 2);
    assert_eq!(outs.len(), 1);
    assert_eq!(outs[0].transition, None);
    assert!(outs[0].send_frame.is_none());
}

#[test]
fn muted_block_drops_everything_and_reports_silence_once() {
    let mut cap = CaptureState::new();
    let talking = cap.process_block(false, &loud_block(FRAME_SAMPLES), 2);
    assert_eq!(talking[0].transition, Some(true));
    // Mute during speech: the transition to silence comes at once, and no
    // frame of the muted block is sent.
    let muted = cap.process_block(true, &loud_block(FRAME_SAMPLES), 2);
    assert_eq!(muted.len(), 1);
    assert_eq!(muted[0].transition, Some(false));
    assert!(muted[0].send_frame.is_none());
    // Still muted: nothing more to report.
    let still = cap.process_block(true, &loud_block(FRAME_SAMPLES), 2);
    assert!(still.is_empty());
}

#[test]
fn config_choice_forces_48khz_on_a_44100_device() {
    // A device that only does 44.1 kHz: its config is picked, and the
    // pipeline still asks for 48 kHz on it.
    let configs = vec![RateRange { min_rate: 44100, max_rate: 44100 }];
    let (idx, rate) = choose_stream_config(&configs).expect("device has a config");
    assert_eq!(idx, 0);
    assert_eq!(rate, 48000);
}

#[test]
fn config_choice_prefers_first_range_admitting_48khz() {
    let configs = vec![
        RateRange { min_rate: 8000, max_rate: 16000 },
        RateRange { min_rate: 16000, max_rate: 96000 },
        RateRange { min_rate: 8000, max_rate: 192000 },
    ];
    let (idx, rate) = choose_stream_config(&configs).expect("supported");
    assert_eq!(idx, 1);
    assert_eq!(rate, 48000);
    assert!(choose_stream_config(&Vec::new()).is_none());
}
