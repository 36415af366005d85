use katara::frame::{frame_start, FrameClock, FrameError, SurfaceStatus};

#[test]
fn frame_start_decisions() {
    assert_eq!(frame_start(true, SurfaceStatus::Success), Ok(false));
    assert_eq!(frame_start(true, SurfaceStatus::Suboptimal), Ok(true));
    assert_eq!(frame_start(true, SurfaceStatus::Timeout), Err(FrameError::Timeout));
    assert_eq!(frame_start(true, SurfaceStatus::Occluded), Err(FrameError::Occluded));
    assert_eq!(frame_start(true, SurfaceStatus::Validation), Err(FrameError::Validation));
    assert_eq!(frame_start(true, SurfaceStatus::Outdated), Err(FrameError::Outdated));
    assert_eq!(frame_start(true, SurfaceStatus::Lost), Err(FrameError::Lost));
    assert_eq!(frame_start(false, SurfaceStatus::Success), Err(FrameError::NotConfigured));
}

#[test]
fn frame_error_messages() {
    assert_eq!(FrameError::NotConfigured.message(), "surface not configured yet; skipping render");
    assert_eq!(FrameError::Outdated.message(), "surface outdated; reconfiguring");
    assert_eq!(FrameError::Lost.message(), "Lost device");
    assert!(FrameError::Outdated.reconfigures_surface());
    assert!(!FrameError::Timeout.reconfigures_surface());
}

#[test]
fn clock_ticks_count_frames_and_time() {
    let mut clock = FrameClock::new();
    clock.tick(16);
    clock.tick(17);
    assert_eq!(clock.frame_index, 2);
    assert_eq!(clock.dt_ns, 17);
    assert_eq!(clock.elapsed_ns, 33);
}
