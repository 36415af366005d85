//! Whether a frame can be drawn, given the state of the window surface.
//!
//! A frame is drawn on the texture the surface hands out.  The surface may
//! not be configured yet, or may refuse a texture; such a frame is abandoned
//! with an error that says why, and an outdated surface is reconfigured
//! first.  A texture handed out as suboptimal is drawn on, and the surface is
//! reconfigured once it has been presented.

use vstd::prelude::*;
use crate::stepping::MAX_DURATION_NANOS;

verus! {

/// How the surface answered a request for the next texture.
#[derive(Debug, Clone, Copy, PartialEq, Eq, Structural)]
pub enum SurfaceStatus {
    Success,
    Suboptimal,
    Timeout,
    Occluded,
    Validation,
    Outdated,
    Lost,
}

/// Why a frame was abandoned.
#[derive(Debug, Clone, Copy, PartialEq, Eq, Structural)]
pub enum FrameError {
    NotConfigured,
    Timeout,
    Occluded,
    Validation,
    Outdated,
    Lost,
}

pub open spec fn spec_frame_error_message(e: FrameError) -> Seq<char> {
    match e {
        FrameError::NotConfigured => "surface not configured yet; skipping render"@,
        FrameError::Timeout => "surface texture acquisition timed out; skipping frame"@,
        FrameError::Occluded => "surface is occluded; skipping frame"@,
        FrameError::Validation => "surface texture acquisition failed validation; skipping frame"@,
        FrameError::Outdated => "surface outdated; reconfiguring"@,
        FrameError::Lost => "Lost device"@,
    }
}

impl FrameError {
    /// The message reported for this error.
    pub fn message(&self) -> (s: &'static str)
        ensures
            s@ == spec_frame_error_message(*self),
    {
        match self {
            FrameError::NotConfigured => "surface not configured yet; skipping render",
            FrameError::Timeout => "surface texture acquisition timed out; skipping frame",
            FrameError::Occluded => "surface is occluded; skipping frame",
            FrameError::Validation => "surface texture acquisition failed validation; skipping frame",
            FrameError::Outdated => "surface outdated; reconfiguring",
            FrameError::Lost => "Lost device",
        }
    }

    /// The surface must be reconfigured before the frame is abandoned.
    pub fn reconfigures_surface(&self) -> (b: bool)
        ensures
            b == (*self == FrameError::Outdated),
    {
        match self {
            FrameError::Outdated => true,
            _ => false,
        }
    }
}

/// Whether a frame is drawn: `Ok(reconfigure_after_present)` when the
/// texture is drawn on, or the error that abandons the frame.
pub open spec fn spec_frame_start(configured: bool, status: SurfaceStatus) -> Result<bool, FrameError> {
    if !configured {
        Err(FrameError::NotConfigured)
    } else {
        match status {
            SurfaceStatus::Success => Ok(false),
            SurfaceStatus::Suboptimal => Ok(true),
            SurfaceStatus::Timeout => Err(FrameError::Timeout),
            SurfaceStatus::Occluded => Err(FrameError::Occluded),
            SurfaceStatus::Validation => Err(FrameError::Validation),
            SurfaceStatus::Outdated => Err(FrameError::Outdated),
            SurfaceStatus::Lost => Err(FrameError::Lost),
        }
    }
}

/// Decides the start of a frame.  An unconfigured surface is not asked for
/// a texture, so `status` then plays no part.
pub fn frame_start(configured: bool, status: SurfaceStatus) -> (r: Result<bool, FrameError>)
    ensures
        r == spec_frame_start(configured, status),
{
    if !configured {
        return Err(FrameError::NotConfigured);
    }
    match status {
        SurfaceStatus::Success => Ok(false),
        SurfaceStatus::Suboptimal => Ok(true),
        SurfaceStatus::Timeout => Err(FrameError::Timeout),
        SurfaceStatus::Occluded => Err(FrameError::Occluded),
        SurfaceStatus::Validation => Err(FrameError::Validation),
        SurfaceStatus::Outdated => Err(FrameError::Outdated),
        SurfaceStatus::Lost => Err(FrameError::Lost),
    }
}

/// Frame timing: the time since the previous frame, the time since the
/// clock started, and the index of the current frame.  Durations are in
/// nanoseconds; reading the system clock is left to the caller.
pub struct FrameClock {
    pub dt_ns: u128,
    pub elapsed_ns: u128,
    pub frame_index: u64,
}

impl FrameClock {
    /// A clock that has not ticked yet.
    pub fn new() -> (c: Self)
        ensures
            c.dt_ns == 0,
            c.elapsed_ns == 0,
            c.frame_index == 0,
    {
        FrameClock { dt_ns: 0, elapsed_ns: 0, frame_index: 0 }
    }

    /// Starts the next frame, `dt_ns` after the previous one.
    pub fn tick(&mut self, dt_ns: u128)
        requires
            old(self).elapsed_ns + dt_ns <= MAX_DURATION_NANOS,
            old(self).frame_index < u64::MAX,
        ensures
            final(self).dt_ns == dt_ns,
            final(self).elapsed_ns == old(self).elapsed_ns + dt_ns,
            final(self).frame_index == old(self).frame_index + 1,
    {
        self.dt_ns = dt_ns;
        self.elapsed_ns = self.elapsed_ns + dt_ns;
        self.frame_index = self.frame_index + 1;
    }
}

} // verus!
