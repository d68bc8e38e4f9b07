use p2d_core::jitter::BUFFER_TARGET;
use p2d_core::jitter::JitterBuffer;

fn frame_of(value: i32, len: usize) -> Vec<i32> {
    vec![value; len]
}

#[test]
fn buffering_outputs_silence_and_keeps_queue() {
    let mut jb = JitterBuffer::new(48000);
    jb.push_frame(&frame_of(7, 1920));
    assert!(jb.is_buffering());
    let out = jb.fill_output(256, false);
    assert_eq!(out, vec![0; 256]);
    // Nothing drained while buffering.
    assert_eq!(jb.queued_len(), 1920);
    assert!(jb.is_buffering());
}

#[test]
fn playback_starts_at_fill_target() {
    let mut jb = JitterBuffer::new(48000);
    jb.push_frame(&frame_of(1000, BUFFER_TARGET));
    assert_eq!(jb.queued_len(), BUFFER_TARGET);
    let out = jb.fill_output(4, false);
    assert!(!jb.is_buffering());
    // At equal rates each output sample is the queue head and drains one.
    assert_eq!(out, vec![1000; 4]);
    assert_eq!(jb.queued_len(), BUFFER_TARGET - 4);
}

#[test]
fn underrun_flips_back_to_buffering_with_empty_queue() {
    let mut jb = JitterBuffer::new(48000);
    jb.push_frame(&frame_of(5, BUFFER_TARGET));
    let _ = jb.fill_output(BUFFER_TARGET, false);
    assert_eq!(jb.queued_len(), 0);
    assert!(!jb.is_buffering());
    // The queue is empty during playback: silence, and buffering again.
    let out = jb.fill_output(64, false);
    assert_eq!(out, vec![0; 64]);
    assert!(jb.is_buffering());
    assert_eq!(jb.queued_len(), 0);
}

#[test]
fn deafened_output_is_zero_with_unchanged_drain() {
    let mut a = JitterBuffer::new(44100);
    let mut b = JitterBuffer::new(44100);
    a.push_frame(&frame_of(1234, BUFFER_TARGET + 500));
    b.push_frame(&frame_of(1234, BUFFER_TARGET + 500));
    let loud = a.fill_output(441, false);
    let deaf = b.fill_output(441, true);
    assert!(loud.iter().any(|&s| s != 0));
    assert_eq!(deaf, vec![0; 441]);
    // Deafening changed no drain: both queues are equally long.
    assert_eq!(a.queued_len(), b.queued_len());
}

#[test]
fn resampler_drains_at_source_over_device_rate() {
    let mut jb = JitterBuffer::new(44100);
    jb.push_frame(&frame_of(100, BUFFER_TARGET + 1000));
    let out = jb.fill_output(441, false);
    assert_eq!(out.len(), 441);
    // 441 output samples at 44.1 kHz consume exactly 480 input samples at
    // 48 kHz, and the fractional position returns to zero.
    assert_eq!(jb.queued_len(), BUFFER_TARGET + 1000 - 480);
}

#[test]
fn interpolation_reads_successive_head_samples() {
    let mut jb = JitterBuffer::new(96000);
    // Ramp input at half-rate output: every second sample interpolates.
    let mut ramp: Vec<i32> = Vec::new();
    for i in 0..(BUFFER_TARGET + 64) {
        ramp.push((i as i32) * 1000);
    }
    jb.push_frame(&ramp);
    let out = jb.fill_output(8, false);
    // ratio = 48000/96000 = 0.5: positions 0, 0.5, 1, 1.5, ...
    assert_eq!(out[0], 0);
    assert_eq!(out[1], 500);
    assert_eq!(out[2], 1000);
    assert_eq!(out[3], 1500);
    assert_eq!(out[4], 2000);
}
