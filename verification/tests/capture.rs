use audpro::capture::{
    check_start_recording, enqueue, enqueue_bounded, init_outcome, select_device,
    capture_outcome, stop_outcome, writer_outcome, CaptureEnd, CaptureInit, WriterEnd, MAX_QUEUED_SAMPLES,
    SAMPLE_RATE,
};
use std::collections::VecDeque;

#[test]
fn queue_keeps_newest_samples() {
    let mut q: VecDeque<i16> = VecDeque::from(vec![1, 2, 3, 4]);
    assert_eq!(enqueue_bounded(&mut q, vec![5, 6, 7], 5), 2);
    assert_eq!(q, VecDeque::from(vec![3, 4, 5, 6, 7]));
}

#[test]
fn queue_drops_at_most_what_it_holds() {
    let mut q: VecDeque<i16> = VecDeque::from(vec![1, 2]);
    assert_eq!(enqueue_bounded(&mut q, vec![3, 4, 5, 6], 3), 2);
    assert_eq!(q, VecDeque::from(vec![3, 4, 5, 6]));
}

#[test]
fn queue_empty_batch_changes_nothing() {
    let mut q: VecDeque<i16> = VecDeque::from(vec![1, 2, 3]);
    assert_eq!(enqueue_bounded(&mut q, Vec::new(), 1), 0);
    assert_eq!(q, VecDeque::from(vec![1, 2, 3]));
}

#[test]
fn queue_within_limit() {
    let mut q: VecDeque<i16> = VecDeque::new();
    assert_eq!(enqueue(&mut q, vec![1, 2, 3]), 0);
    assert_eq!(q.len(), 3);
    assert_eq!(MAX_QUEUED_SAMPLES, SAMPLE_RATE as usize * 60 * 60 * 4);
}

#[test]
fn device_selection() {
    let names = vec!["Built-in Microphone".to_string(), "USB Audio Device".to_string(), "usb headset".to_string()];
    assert_eq!(select_device(&names, Some("usb")), Some(1));
    assert_eq!(select_device(&names, Some("MICRO")), Some(0));
    assert_eq!(select_device(&names, Some("bluetooth")), None);
    assert_eq!(select_device(&names, Some("")), None);
    assert_eq!(select_device(&names, None), None);
}

#[test]
fn init_outcomes() {
    assert_eq!(init_outcome(CaptureInit::Ready), Ok(()));
    assert_eq!(init_outcome(CaptureInit::Failed("no device".to_string())), Err("no device".to_string()));
    assert_eq!(
        init_outcome(CaptureInit::TimedOut),
        Err("Capture stream initialization timed out".to_string())
    );
    assert_eq!(
        init_outcome(CaptureInit::Disconnected),
        Err("Capture thread exited during initialization".to_string())
    );
}

#[test]
fn shutdown_outcomes() {
    assert_eq!(capture_outcome(CaptureEnd::Stopped), Ok(()));
    assert_eq!(capture_outcome(CaptureEnd::StreamError("x".to_string())), Ok(()));
    assert_eq!(capture_outcome(CaptureEnd::Panicked), Err("Capture thread panicked".to_string()));
    assert_eq!(writer_outcome(WriterEnd::Finished(42)), Ok(42));
    assert_eq!(
        writer_outcome(WriterEnd::Failed("disk full".to_string())),
        Err("WAV writer failed: disk full".to_string())
    );
    assert_eq!(writer_outcome(WriterEnd::Panicked), Err("WAV writer thread panicked".to_string()));
}

#[test]
fn stop_outcomes() {
    assert_eq!(
        stop_outcome(true, 10, "a.wav".to_string()),
        Err("Audio input stream reported an error during recording".to_string())
    );
    assert_eq!(stop_outcome(false, 0, "a.wav".to_string()), Err("No audio was captured".to_string()));
    assert_eq!(stop_outcome(false, 10, "a.wav".to_string()), Ok("a.wav".to_string()));
}

#[test]
fn start_checks() {
    assert_eq!(check_start_recording("../x", false), Err("Invalid session ID".to_string()));
    assert_eq!(
        check_start_recording("s1", true),
        Err("A recording is already active".to_string())
    );
    assert_eq!(check_start_recording("s1", false), Ok(()));
}
