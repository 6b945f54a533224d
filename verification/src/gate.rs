//! Change gate: decides whether a captured frame is different enough from
//! the last transmitted frame to be worth sending again.
//!
//! Frames are interleaved 3-channel byte buffers.  Pixels are sampled at a
//! stride chosen by total pixel count; a sampled pixel counts as changed
//! when the sum of absolute channel differences exceeds a fixed
//! sensitivity.  The overall changed/sampled ratio is compared against the
//! caller's threshold percentage.

use vstd::prelude::*;
use vstd::math::abs;
use vstd::arithmetic::div_mod::lemma_fundamental_div_mod;
use vstd::arithmetic::mul::lemma_mul_inequality;
use vstd::arithmetic::mul::lemma_mul_upper_bound;

verus! {

/// Sum of absolute channel differences above which one sampled pixel
/// counts as changed.
pub const PIXEL_SENSITIVITY: u16 = 45;

/// Sampling stride for a frame of `len` bytes: finer for small frames,
/// coarser for large ones, in three tiers.
pub open spec fn sample_step(len: nat) -> nat {
    if len / 3 < 1000 {
        3
    } else if len / 3 < 10000 {
        9
    } else {
        15
    }
}

/// Number of samples taken from a frame of `len` bytes: byte offsets
/// `0, step, 2*step, ...` strictly below `len - 2`.
pub open spec fn sample_count(len: nat) -> nat
    recommends
        len >= 3,
{
    (((len - 3) / (sample_step(len) as int)) + 1) as nat
}

/// Whether the sample at byte offset `i` differs between the two frames by
/// more than the per-pixel sensitivity.
pub open spec fn sample_changed(a: Seq<u8>, b: Seq<u8>, i: int) -> bool
    recommends
        0 <= i,
        i + 2 < a.len(),
        a.len() == b.len(),
{
    abs(a[i] - b[i]) + abs(a[i + 1] - b[i + 1]) + abs(a[i + 2] - b[i + 2]) > PIXEL_SENSITIVITY
}

/// How many of the first `k` samples differ between the two frames.
pub open spec fn changed_upto(a: Seq<u8>, b: Seq<u8>, k: nat) -> nat
    decreases k,
{
    if k == 0 {
        0
    } else {
        changed_upto(a, b, (k - 1) as nat) + if sample_changed(
            a,
            b,
            (k - 1) * sample_step(a.len()),
        ) {
            1nat
        } else {
            0nat
        }
    }
}

/// Greatest number of changed samples still considered static for a frame
/// of `len` bytes under threshold percentage `t`.
pub open spec fn allowed_changed(len: nat, t: u8) -> nat {
    (len / 3) * (t as nat) / (100 * (sample_step(len) / 3))
}

/// Whether the candidate frame `a` should be transmitted given the last
/// sent frame `b`: always on size mismatch or when no full pixel exists,
/// otherwise when the changed samples exceed both the allowed count and
/// the threshold percentage of all samples.
pub open spec fn frames_differ_spec(a: Seq<u8>, b: Seq<u8>, t: u8) -> bool {
    if a.len() != b.len() || a.len() < 3 {
        true
    } else {
        let changed = changed_upto(a, b, sample_count(a.len()));
        changed > allowed_changed(a.len(), t) || changed * 100 / sample_count(a.len()) > t as nat
    }
}

proof fn lemma_changed_upto_monotonic(a: Seq<u8>, b: Seq<u8>, k1: nat, k2: nat)
    requires
        k1 <= k2,
    ensures
        changed_upto(a, b, k1) <= changed_upto(a, b, k2),
    decreases k2,
{
    if k1 < k2 {
        lemma_changed_upto_monotonic(a, b, k1, (k2 - 1) as nat);
    }
}

/// Identical frames are never transmitted: with every sample equal, no
/// sample is changed, so neither trigger condition can hold.
pub proof fn lemma_identical_frames_not_sent(a: Seq<u8>, t: u8)
    requires
        a.len() >= 3,
    ensures
        !frames_differ_spec(a, a, t),
{
    lemma_changed_upto_identical(a, sample_count(a.len()));
}

proof fn lemma_changed_upto_identical(a: Seq<u8>, k: nat)
    ensures
        changed_upto(a, a, k) == 0,
    decreases k,
{
    if k > 0 {
        lemma_changed_upto_identical(a, (k - 1) as nat);
    }
}

/// Swapping the candidate and the last-sent frame never changes the
/// decision: the stride and the thresholds depend only on the length,
/// and per-sample differences are absolute.
pub proof fn lemma_frames_differ_symmetric(a: Seq<u8>, b: Seq<u8>, t: u8)
    ensures
        frames_differ_spec(a, b, t) == frames_differ_spec(b, a, t),
{
    if a.len() == b.len() && a.len() >= 3 {
        lemma_changed_upto_symmetric(a, b, sample_count(a.len()));
    }
}

proof fn lemma_changed_upto_symmetric(a: Seq<u8>, b: Seq<u8>, k: nat)
    requires
        a.len() == b.len(),
    ensures
        changed_upto(a, b, k) == changed_upto(b, a, k),
    decreases k,
{
    if k > 0 {
        lemma_changed_upto_symmetric(a, b, (k - 1) as nat);
    }
}

/// Absolute difference of two channel bytes.
fn byte_diff(x: u8, y: u8) -> (d: u16)
    ensures
        d == abs(x - y),
{
    if x >= y {
        (x - y) as u16
    } else {
        (y - x) as u16
    }
}

/// Decides whether `frame1` differs enough from `frame2` to be worth
/// transmitting, under `threshold_percent`.  Scanning stops early once the
/// running changed count already exceeds the allowed maximum.
pub fn frames_differ(frame1: &[u8], frame2: &[u8], threshold_percent: u8) -> (r: bool)
    ensures
        r == frames_differ_spec(frame1@, frame2@, threshold_percent),
{
    let len = frame1.len();
    if len != frame2.len() || len < 3 {
        return true;
    }
    let total_pixels = len / 3;
    let step: usize = if total_pixels < 1000 {
        3
    } else if total_pixels < 10000 {
        9
    } else {
        15
    };
    assert(step == sample_step(frame1@.len()));
    let ns = (len - 3) / step + 1;
    assert(ns == sample_count(frame1@.len()));
    proof {
        lemma_mul_upper_bound(total_pixels as int, usize::MAX as int, threshold_percent as int, 255);
    }
    let max_allowed: u128 = (total_pixels as u128) * (threshold_percent as u128) / (100
        * ((step as u128) / 3));
    assert(max_allowed == allowed_changed(frame1@.len(), threshold_percent));
    let mut k: usize = 0;
    let mut count: usize = 0;
    while k < ns
        invariant
            frame1@.len() == len,
            frame2@.len() == len,
            3 <= len,
            step == sample_step(len as nat),
            ns == sample_count(len as nat),
            max_allowed == allowed_changed(len as nat, threshold_percent),
            k <= ns,
            count == changed_upto(frame1@, frame2@, k as nat),
            count <= k,
            count as u128 <= max_allowed,
        decreases ns - k,
    {
        proof {
            lemma_fundamental_div_mod((len - 3) as int, step as int);
            lemma_mul_inequality(k as int, ((len - 3) as int) / (step as int), step as int);
        }
        let i = k * step;
        assert(i + 2 < len);
        let diff = byte_diff(frame1[i], frame2[i]) + byte_diff(frame1[i + 1], frame2[i + 1])
            + byte_diff(frame1[i + 2], frame2[i + 2]);
        if diff > PIXEL_SENSITIVITY {
            count = count + 1;
            if count as u128 > max_allowed {
                proof {
                    lemma_changed_upto_monotonic(
                        frame1@,
                        frame2@,
                        (k + 1) as nat,
                        sample_count(len as nat),
                    );
                }
                return true;
            }
        }
        k = k + 1;
    }
    (count as u128) * 100 / (ns as u128) > threshold_percent as u128
}

} // verus!
