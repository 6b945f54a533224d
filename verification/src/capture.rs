//! Capture resilience: masks flaky camera hardware behind a steady frame
//! supply and a health signal.
//!
//! The device itself is read by the surrounding process; each attempt's
//! outcome (a frame, or a failure classified as hardware-transient or
//! other) is handed in here.  A backup of the last successful capture is
//! replayed on failure so transient faults never surface to the caller;
//! consecutive failures beyond a small bound flip the health signal,
//! hinting that the capture rate should be reduced.

use vstd::prelude::*;
use crate::wire::clone_bytes;

verus! {

/// Consecutive failures tolerated before the layer reports unhealthy.
pub const MAX_CONSECUTIVE_FAILURES: u32 = 5;

/// Outcome of one capture attempt, as observed by the surrounding
/// process.
pub enum CaptureEvent {
    /// The device produced a frame.
    Captured { frame: Vec<u8> },
    /// The attempt failed; `hardware` tells whether the error carried a
    /// known hardware-transient signature.
    Failed { hardware: bool },
}

/// Mathematical form of a capture outcome.
pub enum CaptureEventView {
    Captured { frame: Seq<u8> },
    Failed { hardware: bool },
}

impl View for CaptureEvent {
    type V = CaptureEventView;

    open spec fn view(&self) -> CaptureEventView {
        match self {
            CaptureEvent::Captured { frame } => CaptureEventView::Captured { frame: frame@ },
            CaptureEvent::Failed { hardware } => CaptureEventView::Failed { hardware: *hardware },
        }
    }
}

/// The one failure that surfaces: a non-transient capture error before
/// any frame was ever captured, leaving nothing to replay.
#[derive(Clone, Copy, PartialEq, Eq, Structural, Debug)]
pub enum CaptureError {
    NoFrameAvailable,
}

/// Mathematical form of the resilience state.
pub struct CaptureModel {
    pub width: u32,
    pub height: u32,
    pub failures: u32,
    pub backup: Option<Seq<u8>>,
}

/// Bytes in one full frame of the given dimensions.
pub open spec fn frame_size(width: u32, height: u32) -> int {
    width * height * 3
}

/// An all-black frame of `n` bytes.
pub open spec fn zero_frame(n: nat) -> Seq<u8> {
    Seq::new(n, |i: int| 0u8)
}

impl CaptureModel {
    /// Healthy until more than `MAX_CONSECUTIVE_FAILURES` attempts in a
    /// row have failed.
    pub open spec fn healthy(self) -> bool {
        self.failures <= MAX_CONSECUTIVE_FAILURES
    }
}

/// State after one capture outcome: a success resets the failure count
/// and, when the frame fills the buffer exactly, replaces the backup; a
/// failure of either kind counts up (saturating) and leaves the backup
/// alone.
pub open spec fn capture_step(m: CaptureModel, ev: CaptureEventView) -> CaptureModel {
    match ev {
        CaptureEventView::Captured { frame } => CaptureModel {
            failures: 0,
            backup: if frame.len() == frame_size(m.width, m.height) {
                Some(frame)
            } else {
                m.backup
            },
            ..m
        },
        CaptureEventView::Failed { .. } => CaptureModel {
            failures: if m.failures < u32::MAX {
                (m.failures + 1) as u32
            } else {
                m.failures
            },
            ..m
        },
    }
}

/// Frame handed to the caller after one capture outcome: the fresh frame
/// on success; the backup on failure; an all-black frame when a
/// hardware-transient failure arrives before any capture succeeded; and
/// no frame at all (`None`) only for a non-transient failure with no
/// backup.
pub open spec fn capture_result(m: CaptureModel, ev: CaptureEventView) -> Option<Seq<u8>> {
    match ev {
        CaptureEventView::Captured { frame } => Some(frame),
        CaptureEventView::Failed { hardware } => match m.backup {
            Some(b) => Some(b),
            None => if hardware {
                Some(zero_frame(frame_size(m.width, m.height) as nat))
            } else {
                None
            },
        },
    }
}

/// The capture resilience layer: frame dimensions, the consecutive
/// failure count, and the most recent successful capture.
pub struct CameraCapture {
    /// Frame width, in pixels.
    pub width: u32,
    /// Frame height, in pixels.
    pub height: u32,
    /// Capture attempts failed in a row, saturating.
    pub consecutive_failures: u32,
    /// Last successful capture that filled the frame buffer exactly.
    pub backup: Option<Vec<u8>>,
}

impl CameraCapture {
    /// Mathematical form of this state.
    pub open spec fn model(&self) -> CaptureModel {
        CaptureModel {
            width: self.width,
            height: self.height,
            failures: self.consecutive_failures,
            backup: match self.backup {
                Some(ref b) => Some(b@),
                None => None,
            },
        }
    }

    /// The frame dimensions are positive and a whole frame fits in
    /// memory.
    pub open spec fn wf(&self) -> bool {
        &&& self.width >= 1
        &&& self.height >= 1
        &&& frame_size(self.width, self.height) <= usize::MAX
    }

    /// A fresh layer for a stream of `width` by `height` frames: no
    /// failures seen, nothing to replay.
    pub fn new(width: u32, height: u32) -> (c: CameraCapture)
        requires
            width >= 1,
            height >= 1,
            width * height * 3 <= usize::MAX,
        ensures
            c.wf(),
            c.model() == (CaptureModel { width, height, failures: 0, backup: None }),
    {
        CameraCapture { width, height, consecutive_failures: 0, backup: None }
    }

    /// The dimensions every returned frame is sized for.
    pub fn dimensions(&self) -> (r: (u32, u32))
        ensures
            r == (self.width, self.height),
    {
        (self.width, self.height)
    }

    /// Whether capture has been succeeding recently.  `false` is a hint
    /// to reduce the calling rate, not an error.
    pub fn is_healthy(&self) -> (r: bool)
        ensures
            r == self.model().healthy(),
    {
        self.consecutive_failures <= MAX_CONSECUTIVE_FAILURES
    }

    /// Absorbs one capture outcome: advances the state by `capture_step`
    /// and returns the frame `capture_result` owes the caller.
    pub fn get_frame(&mut self, event: CaptureEvent) -> (r: Result<Vec<u8>, CaptureError>)
        requires
            old(self).wf(),
        ensures
            final(self).wf(),
            final(self).model() == capture_step(old(self).model(), event@),
            match capture_result(old(self).model(), event@) {
                Some(bytes) => r matches Ok(out) && out@ == bytes,
                None => r matches Err(e) && e == CaptureError::NoFrameAvailable,
            },
    {
        match event {
            CaptureEvent::Captured { frame } => {
                self.consecutive_failures = 0;
                let expected = (self.width as usize) * (self.height as usize) * 3;
                if frame.len() == expected {
                    self.backup = Some(clone_bytes(&frame));
                }
                Ok(frame)
            },
            CaptureEvent::Failed { hardware } => {
                if self.consecutive_failures < u32::MAX {
                    self.consecutive_failures = self.consecutive_failures + 1;
                }
                match self.backup {
                    Some(ref b) => Ok(clone_bytes(b)),
                    None => {
                        if hardware {
                            let n = (self.width as usize) * (self.height as usize) * 3;
                            Ok(make_zero_frame(n))
                        } else {
                            Err(CaptureError::NoFrameAvailable)
                        }
                    },
                }
            },
        }
    }
}

/// An all-black frame of `n` bytes.
fn make_zero_frame(n: usize) -> (out: Vec<u8>)
    ensures
        out@ == zero_frame(n as nat),
{
    let mut out: Vec<u8> = Vec::new();
    let mut i: usize = 0;
    while i < n
        invariant
            i <= n,
            out@ == zero_frame(i as nat),
        decreases n - i,
    {
        out.push(0);
        proof {
            assert(zero_frame(i as nat).push(0u8) =~= zero_frame(i as nat + 1));
        }
        i = i + 1;
    }
    out
}

/// Whether this tick should attempt a capture: every tick while healthy,
/// every other tick otherwise.
pub fn should_capture(healthy: bool, frame_counter: u32) -> (r: bool)
    ensures
        r == (healthy || frame_counter % 2 == 0),
{
    healthy || frame_counter % 2 == 0
}

/// Times one candidate format is asked to open a stream before the next
/// candidate is tried.
pub const OPEN_ATTEMPTS: u32 = 5;

/// A pixel format worth requesting from the device.
#[derive(Clone, Copy, PartialEq, Eq, Structural, Debug)]
pub enum PixelFormat {
    Yuyv,
    RawRgb,
    Mjpeg,
}

/// One camera format to try at construction: an exact combination, or
/// the highest resolution the device offers near a bound.
#[derive(Clone, Copy, PartialEq, Eq, Structural, Debug)]
pub enum FormatChoice {
    Exact { width: u32, height: u32, format: PixelFormat, fps: u32 },
    HighestNear { width: u32, height: u32 },
}

/// The descending list of format combinations probed at construction:
/// modest exact formats first, then best-effort fallbacks.  The first
/// one that opens a stream on some device index is used.
pub fn probe_plan() -> (plan: Vec<FormatChoice>)
    ensures
        plan@ == seq![
            FormatChoice::Exact { width: 320, height: 240, format: PixelFormat::Yuyv, fps: 15 },
            FormatChoice::Exact { width: 320, height: 240, format: PixelFormat::RawRgb, fps: 15 },
            FormatChoice::Exact { width: 640, height: 480, format: PixelFormat::Yuyv, fps: 15 },
            FormatChoice::Exact { width: 320, height: 240, format: PixelFormat::Mjpeg, fps: 15 },
            FormatChoice::HighestNear { width: 640, height: 480 },
            FormatChoice::HighestNear { width: 160, height: 120 },
        ],
{
    let mut plan: Vec<FormatChoice> = Vec::new();
    plan.push(FormatChoice::Exact { width: 320, height: 240, format: PixelFormat::Yuyv, fps: 15 });
    plan.push(
        FormatChoice::Exact { width: 320, height: 240, format: PixelFormat::RawRgb, fps: 15 },
    );
    plan.push(FormatChoice::Exact { width: 640, height: 480, format: PixelFormat::Yuyv, fps: 15 });
    plan.push(
        FormatChoice::Exact { width: 320, height: 240, format: PixelFormat::Mjpeg, fps: 15 },
    );
    plan.push(FormatChoice::HighestNear { width: 640, height: 480 });
    plan.push(FormatChoice::HighestNear { width: 160, height: 120 });
    proof {
        assert(plan@ =~= seq![
            FormatChoice::Exact { width: 320, height: 240, format: PixelFormat::Yuyv, fps: 15 },
            FormatChoice::Exact { width: 320, height: 240, format: PixelFormat::RawRgb, fps: 15 },
            FormatChoice::Exact { width: 640, height: 480, format: PixelFormat::Yuyv, fps: 15 },
            FormatChoice::Exact { width: 320, height: 240, format: PixelFormat::Mjpeg, fps: 15 },
            FormatChoice::HighestNear { width: 640, height: 480 },
            FormatChoice::HighestNear { width: 160, height: 120 },
        ]);
    }
    plan
}

/// The device indices probed for each format candidate.
pub fn device_indices() -> (r: Vec<u32>)
    ensures
        r@ == seq![0u32, 1u32],
{
    let mut r: Vec<u32> = Vec::new();
    r.push(0);
    r.push(1);
    proof {
        assert(r@ =~= seq![0u32, 1u32]);
    }
    r
}

/// Whether `needle` occurs as a contiguous run within `hay`.
pub open spec fn is_subslice(needle: Seq<u8>, hay: Seq<u8>) -> bool {
    exists|i: int|
        0 <= i && i + needle.len() <= hay.len() && #[trigger] hay.subrange(i, i + needle.len())
            == needle
}

/// Whether `needle` occurs as a contiguous run within `hay`.
pub fn contains_subslice(hay: &[u8], needle: &[u8]) -> (r: bool)
    ensures
        r == is_subslice(needle@, hay@),
{
    let n = needle.len();
    if n > hay.len() {
        assert(!is_subslice(needle@, hay@));
        return false;
    }
    if n == 0 {
        proof {
            assert(hay@.subrange(0, 0 + needle@.len() as int) =~= needle@);
        }
        return true;
    }
    let mut i: usize = 0;
    while i <= hay.len() - n
        invariant
            1 <= n == needle@.len(),
            n <= hay@.len(),
            i <= hay@.len() - n + 1,
            forall|p: int|
                0 <= p < i ==> #[trigger] hay@.subrange(p, p + needle@.len()) != needle@,
        decreases hay@.len() - n + 1 - i,
    {
        let mut j: usize = 0;
        let mut matched = true;
        while j < n
            invariant
                n == needle@.len(),
                n <= hay@.len(),
                hay@.len() <= usize::MAX,
                i + n <= hay@.len(),
                j <= n,
                matched ==> forall|q: int| 0 <= q < j ==> hay@[i + q] == needle@[q],
                !matched ==> hay@.subrange(i as int, i + needle@.len()) != needle@,
            decreases n - j,
        {
            if hay[i + j] != needle[j] {
                proof {
                    assert(hay@.subrange(i as int, i + needle@.len())[j as int] != needle@[j as int]);
                }
                matched = false;
                j = n;
            } else {
                j = j + 1;
            }
        }
        if matched {
            proof {
                assert(hay@.subrange(i as int, i + needle@.len()) =~= needle@);
            }
            return true;
        }
        i = i + 1;
    }
    assert forall|p: int| 0 <= p && p + needle@.len() <= hay@.len() implies #[trigger] hay@.subrange(
        p,
        p + needle@.len(),
    ) != needle@ by {
        assert(p < i);
    }
    false
}

/// The error signatures of hardware-transient capture faults: a vendor
/// error code, the word "hardware", and the media-transform tag "MFT".
pub open spec fn sig_vendor_code() -> Seq<u8> {
    seq![48u8, 120u8, 67u8, 48u8, 48u8, 68u8, 51u8, 55u8, 48u8, 52u8]
}

pub open spec fn sig_hardware() -> Seq<u8> {
    seq![104u8, 97u8, 114u8, 100u8, 119u8, 97u8, 114u8, 101u8]
}

pub open spec fn sig_mft() -> Seq<u8> {
    seq![77u8, 70u8, 84u8]
}

/// Whether a capture error message carries a known hardware-transient
/// signature.
pub open spec fn is_hardware_error(msg: Seq<u8>) -> bool {
    is_subslice(sig_vendor_code(), msg) || is_subslice(sig_hardware(), msg) || is_subslice(
        sig_mft(),
        msg,
    )
}

/// Classifies a capture error message: `true` when it carries one of the
/// known hardware-transient signatures ("0xC00D3704", "hardware", "MFT").
pub fn classify_capture_error(msg: &[u8]) -> (r: bool)
    ensures
        r == is_hardware_error(msg@),
{
    let vendor: [u8; 10] = [48, 120, 67, 48, 48, 68, 51, 55, 48, 52];
    let hardware: [u8; 8] = [104, 97, 114, 100, 119, 97, 114, 101];
    let mft: [u8; 3] = [77, 70, 84];
    proof {
        assert(vendor@ =~= sig_vendor_code());
        assert(hardware@ =~= sig_hardware());
        assert(mft@ =~= sig_mft());
    }
    contains_subslice(msg, vendor.as_slice()) || contains_subslice(msg, hardware.as_slice())
        || contains_subslice(msg, mft.as_slice())
}

/// The state after a whole sequence of capture outcomes.
pub open spec fn capture_steps(m: CaptureModel, evs: Seq<CaptureEventView>) -> CaptureModel
    decreases evs.len(),
{
    if evs.len() == 0 {
        m
    } else {
        capture_steps(capture_step(m, evs[0]), evs.drop_first())
    }
}

/// Whether every outcome in `evs` is a failure.
pub open spec fn all_failures(evs: Seq<CaptureEventView>) -> bool {
    forall|i: int| 0 <= i < evs.len() ==> evs[i] is Failed
}

/// Failures never touch the backup: after any run of failed attempts the
/// stored frame is still the one captured last.
pub proof fn lemma_failures_keep_backup(m: CaptureModel, evs: Seq<CaptureEventView>)
    requires
        all_failures(evs),
    ensures
        capture_steps(m, evs).backup == m.backup,
        capture_steps(m, evs).width == m.width,
        capture_steps(m, evs).height == m.height,
    decreases evs.len(),
{
    if evs.len() > 0 {
        assert(evs[0] is Failed);
        lemma_failures_keep_backup(capture_step(m, evs[0]), evs.drop_first());
    }
}

/// While hardware-transient failures keep arriving after a successful
/// full-size capture — in particular for fewer than 3 of them — every
/// call still hands back bytes identical to that last successful capture.
pub proof fn lemma_transient_failures_replay_backup(
    m: CaptureModel,
    f: Seq<u8>,
    evs: Seq<CaptureEventView>,
    i: int,
)
    requires
        f.len() == frame_size(m.width, m.height),
        evs.len() < 3,
        forall|j: int| 0 <= j < evs.len() ==> evs[j] == (CaptureEventView::Failed {
            hardware: true,
        }),
        0 <= i < evs.len(),
    ensures
        capture_result(
            capture_steps(capture_step(m, CaptureEventView::Captured { frame: f }), evs.take(i)),
            evs[i],
        ) == Some(f),
{
    let m1 = capture_step(m, CaptureEventView::Captured { frame: f });
    assert(m1.backup == Some(f));
    assert(all_failures(evs.take(i)));
    lemma_failures_keep_backup(m1, evs.take(i));
}

/// Counting failures: a run of failed attempts drives the count up to
/// its length (or the counter's ceiling).
proof fn lemma_failures_accumulate(m: CaptureModel, evs: Seq<CaptureEventView>)
    requires
        all_failures(evs),
    ensures
        capture_steps(m, evs).failures >= vstd::math::min(
            m.failures + evs.len() as int,
            u32::MAX as int,
        ),
    decreases evs.len(),
{
    if evs.len() > 0 {
        assert(evs[0] is Failed);
        lemma_failures_accumulate(capture_step(m, evs[0]), evs.drop_first());
    }
}

/// More than `MAX_CONSECUTIVE_FAILURES` consecutive failures leave the
/// layer unhealthy; a single subsequent success makes it healthy again.
pub proof fn lemma_health_flips(m: CaptureModel, evs: Seq<CaptureEventView>, f: Seq<u8>)
    requires
        all_failures(evs),
        evs.len() > MAX_CONSECUTIVE_FAILURES,
    ensures
        !capture_steps(m, evs).healthy(),
        capture_step(capture_steps(m, evs), CaptureEventView::Captured { frame: f }).healthy(),
{
    lemma_failures_accumulate(m, evs);
}

} // verus!
