use std::collections::VecDeque;

use katara::profiler::{new_cpu_frame_view, push_sample, HISTORY_SIZE};

#[test]
fn history_keeps_the_newest_120_samples() {
    let mut history = VecDeque::new();
    for value in 0..125 {
        push_sample(&mut history, value);
    }
    assert_eq!(history.len(), 120);
    assert_eq!(history.front(), Some(&5));
    assert_eq!(history.back(), Some(&124));
}

#[test]
fn cpu_frame_view_uses_the_gui_history_size() {
    let view = new_cpu_frame_view();
    let frames = view.lock();
    assert_eq!(frames.max_recent(), HISTORY_SIZE);
    assert_eq!(frames.max_slow(), 0);
}

#[test]
fn cpu_frame_view_does_not_pack_frames() {
    let view = new_cpu_frame_view();
    let frames = view.lock();
    assert!(!frames.pack_frames());
}

#[test]
fn history_below_capacity_keeps_every_sample() {
    let mut history = VecDeque::new();
    for value in 0..10u32 {
        push_sample(&mut history, value);
    }
    assert_eq!(history.len(), 10);
    assert_eq!(history.front(), Some(&0));
    assert_eq!(history.back(), Some(&9));
}

#[test]
fn history_at_capacity_drops_only_the_oldest() {
    let mut history: VecDeque<u32> = (0..120).collect();
    push_sample(&mut history, 500);
    assert_eq!(history.len(), HISTORY_SIZE);
    assert_eq!(history.front(), Some(&1));
    assert_eq!(history.back(), Some(&500));
}

#[test]
fn capture_state_records_only_while_capturing() {
    let mut c = katara::profiler::CaptureState::new();
    assert!(!c.records_gpu_samples());
    assert!(!c.begin_frame());
    assert!(!c.closes_frame());
    assert!(c.set_capturing(true));
    assert!(c.records_gpu_samples());
    assert!(!c.closes_frame());
    assert!(c.begin_frame());
    assert!(c.closes_frame());
    assert!(!c.set_capturing(false));
    assert!(c.closes_frame());
    assert!(!c.begin_frame());
}
