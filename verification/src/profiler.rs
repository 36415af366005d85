//! Bounded profiling history and the CPU frame view of the profiler window.
//!
//! The profiler keeps the most recent `HISTORY_SIZE` GPU samples and asks
//! puffin to keep the same number of recent CPU frames, with no slow-frame
//! history and no frame packing.

use vstd::prelude::*;

use std::collections::VecDeque;

verus! {

/// Number of frames of profiling history kept.
pub const HISTORY_SIZE: usize = 120;

/// The history after recording `sample`: the oldest sample is dropped when
/// the history is full.
pub open spec fn spec_push_sample<T>(history: Seq<T>, sample: T) -> Seq<T> {
    if history.len() == HISTORY_SIZE {
        history.drop_first().push(sample)
    } else {
        history.push(sample)
    }
}

/// The history obtained by recording `samples`, in order, into an empty history.
pub open spec fn history_of<T>(samples: Seq<T>) -> Seq<T>
    decreases samples.len(),
{
    if samples.len() == 0 {
        Seq::empty()
    } else {
        spec_push_sample(history_of(samples.drop_last()), samples.last())
    }
}

/// Records `sample` as the newest entry of `history`, dropping the oldest one
/// when `HISTORY_SIZE` samples are already kept.
pub fn push_sample<T>(history: &mut VecDeque<T>, sample: T)
    ensures
        final(history)@ == spec_push_sample(old(history)@, sample),
{
    if history.len() == HISTORY_SIZE {
        history.pop_front();
    }
    history.push_back(sample);
    proof {
        assert(old(history)@.len() == HISTORY_SIZE ==> old(history)@.subrange(
            1,
            old(history)@.len() as int,
        ) =~= old(history)@.drop_first());
    }
}

/// Law: recording samples one by one into an empty history keeps exactly the
/// newest `HISTORY_SIZE` of them, oldest first.
pub proof fn lemma_history_keeps_newest<T>(samples: Seq<T>)
    ensures
        history_of(samples) == samples.subrange(
            if samples.len() > HISTORY_SIZE {
                samples.len() - HISTORY_SIZE
            } else {
                0
            },
            samples.len() as int,
        ),
    decreases samples.len(),
{
    if samples.len() > 0 {
        let prev = samples.drop_last();
        lemma_history_keeps_newest(prev);
        let n = samples.len() as int;
        if prev.len() >= HISTORY_SIZE {
            assert(history_of(samples) =~= samples.subrange(n - HISTORY_SIZE, n));
        } else {
            assert(history_of(samples) =~= samples.subrange(0, n));
        }
    } else {
        assert(history_of(samples) =~= samples.subrange(0, 0));
    }
}

// ---------------------------------------------------------------------------
// puffin frame view
// ---------------------------------------------------------------------------

/// puffin's `GlobalFrameView`: a handle to a bounded store of recent and
/// slow frames.  Its limits change only through the setters below; the
/// frames it holds are added by puffin's global profiler, from any thread,
/// behind the handle, so they are left unnamed here.
#[verifier::external_type_specification]
#[verifier::external_body]
pub struct ExGlobalFrameView(profiling::puffin::GlobalFrameView);

/// How many recent frames the view keeps (`FrameView::max_recent`).
pub uninterp spec fn frame_view_max_recent(view: profiling::puffin::GlobalFrameView) -> usize;

/// How many slow frames the view keeps (`FrameView::max_slow`).
pub uninterp spec fn frame_view_max_slow(view: profiling::puffin::GlobalFrameView) -> usize;

/// Whether the view packs frames (`FrameView::pack_frames`).
pub uninterp spec fn frame_view_packs_frames(view: profiling::puffin::GlobalFrameView) -> bool;

/// `profiling::puffin::GlobalFrameView::default`: a new view registered with the global
/// profiler.  Its source builds it from `FrameView::default()`, which keeps
/// 1000 recent frames and 256 slow ones and packs frames.
#[verifier::external_body]
fn global_frame_view_default() -> (view: profiling::puffin::GlobalFrameView)
    ensures
        frame_view_max_recent(view) == 1000,
        frame_view_max_slow(view) == 256,
        frame_view_packs_frames(view),
{
    profiling::puffin::GlobalFrameView::default()
}

/// `FrameView::set_max_recent` on the locked view: sets the number of recent
/// frames kept and changes no other setting.
#[verifier::external_body]
fn frame_view_set_max_recent(view: &mut profiling::puffin::GlobalFrameView, max_recent: usize)
    ensures
        frame_view_max_recent(*final(view)) == max_recent,
        frame_view_max_slow(*final(view)) == frame_view_max_slow(*old(view)),
        frame_view_packs_frames(*final(view)) == frame_view_packs_frames(*old(view)),
{
    view.lock().set_max_recent(max_recent);
}

/// `FrameView::set_max_slow` on the locked view: sets the number of slow
/// frames kept and changes no other setting.
#[verifier::external_body]
fn frame_view_set_max_slow(view: &mut profiling::puffin::GlobalFrameView, max_slow: usize)
    ensures
        frame_view_max_slow(*final(view)) == max_slow,
        frame_view_max_recent(*final(view)) == frame_view_max_recent(*old(view)),
        frame_view_packs_frames(*final(view)) == frame_view_packs_frames(*old(view)),
{
    view.lock().set_max_slow(max_slow);
}

/// `FrameView::set_pack_frames` on the locked view: sets whether frames are
/// packed and changes no other setting.
#[verifier::external_body]
fn frame_view_set_pack_frames(view: &mut profiling::puffin::GlobalFrameView, pack_frames: bool)
    ensures
        frame_view_packs_frames(*final(view)) == pack_frames,
        frame_view_max_recent(*final(view)) == frame_view_max_recent(*old(view)),
        frame_view_max_slow(*final(view)) == frame_view_max_slow(*old(view)),
{
    view.lock().set_pack_frames(pack_frames);
}

/// A CPU frame view that keeps as many recent frames as the GUI history,
/// no slow frames, and unpacked frames.
pub fn new_cpu_frame_view() -> (view: profiling::puffin::GlobalFrameView)
    ensures
        frame_view_max_recent(view) == HISTORY_SIZE,
        frame_view_max_slow(view) == 0,
        !frame_view_packs_frames(view),
{
    let mut view = global_frame_view_default();
    frame_view_set_max_recent(&mut view, HISTORY_SIZE);
    frame_view_set_max_slow(&mut view, 0);
    frame_view_set_pack_frames(&mut view, false);
    view
}

/// When the profiler records: `capturing` is the window's switch, and
/// `frame_capturing` whether the frame under way records its scopes.
pub struct CaptureState {
    pub capturing: bool,
    pub frame_capturing: bool,
}

impl CaptureState {
    /// The profiler starts frozen.
    pub fn new() -> (c: Self)
        ensures
            !c.capturing,
            !c.frame_capturing,
    {
        CaptureState { capturing: false, frame_capturing: false }
    }

    /// Turns capturing on or off; returns whether the histories start over,
    /// which they do whenever capturing is turned on.
    pub fn set_capturing(&mut self, capturing: bool) -> (restart: bool)
        ensures
            final(self).capturing == capturing,
            final(self).frame_capturing == old(self).frame_capturing,
            restart == capturing,
    {
        self.capturing = capturing;
        capturing
    }

    /// Starts a frame: it records its scopes exactly when capturing is on.
    /// Returns whether it does.
    pub fn begin_frame(&mut self) -> (records: bool)
        ensures
            final(self).frame_capturing == old(self).capturing,
            final(self).capturing == old(self).capturing,
            records == old(self).capturing,
    {
        self.frame_capturing = self.capturing;
        self.frame_capturing
    }

    /// Finished GPU frames are kept in the history only while capturing.
    pub fn records_gpu_samples(&self) -> (b: bool)
        ensures
            b == self.capturing,
    {
        self.capturing
    }

    /// At the end of a frame, the profiler's frame is closed only if the
    /// frame recorded.
    pub fn closes_frame(&self) -> (b: bool)
        ensures
            b == self.frame_capturing,
    {
        self.frame_capturing
    }
}

} // verus!
