//! Frame downscaling: normalizes outbound frames to a canonical
//! transmission resolution by nearest-neighbor sampling, bounding message
//! size regardless of the capture resolution.
//!
//! Also provides the synthetic placeholder frame sent while no camera is
//! available, so a session stays send-degraded rather than silent.

use vstd::prelude::*;
use vstd::math::{min, abs};
use vstd::arithmetic::mul::lemma_mul_upper_bound;

verus! {

/// Width every transmitted frame is normalized to.
pub const TRANSMIT_W: u32 = 640;

/// Height every transmitted frame is normalized to.
pub const TRANSMIT_H: u32 = 480;

/// Byte `j` of the resized frame: the channel `j % 3` of the source
/// pixel nearest (by proportional scaling, clamped to the source bounds)
/// to destination pixel `j / 3`; zero where the source frame is too short
/// to hold that pixel.
pub open spec fn resized_channel(
    frame: Seq<u8>,
    src_w: u32,
    src_h: u32,
    dst_w: u32,
    dst_h: u32,
    j: int,
) -> u8 {
    let p = j / 3;
    let c = j % 3;
    let y = p / (dst_w as int);
    let x = p % (dst_w as int);
    let ox = min(x * src_w / (dst_w as int), src_w - 1);
    let oy = min(y * src_h / (dst_h as int), src_h - 1);
    let idx = (oy * src_w + ox) * 3;
    if idx + 2 < frame.len() {
        frame[idx + c]
    } else {
        0
    }
}

/// Resizes `frame` (laid out as `src_w` by `src_h` pixels of 3 bytes) to
/// exactly `dst_w * dst_h * 3` bytes by nearest-neighbor sampling.
pub fn reduce_frame_size(frame: &[u8], src_w: u32, src_h: u32, dst_w: u32, dst_h: u32) -> (out:
    Vec<u8>)
    requires
        src_w >= 1,
        src_h >= 1,
        dst_w >= 1,
        dst_h >= 1,
        dst_w * dst_h * 3 <= usize::MAX,
    ensures
        out@.len() == dst_w * dst_h * 3,
        forall|j: int|
            0 <= j < out@.len() ==> out@[j] == resized_channel(
                frame@,
                src_w,
                src_h,
                dst_w,
                dst_h,
                j,
            ),
{
    let mut out: Vec<u8> = Vec::new();
    let mut y: u32 = 0;
    while y < dst_h
        invariant
            src_w >= 1,
            src_h >= 1,
            dst_w >= 1,
            dst_h >= 1,
            dst_w * dst_h * 3 <= usize::MAX,
            y <= dst_h,
            out@.len() == y * dst_w * 3,
            forall|j: int|
                0 <= j < out@.len() ==> out@[j] == resized_channel(
                    frame@,
                    src_w,
                    src_h,
                    dst_w,
                    dst_h,
                    j,
                ),
        decreases dst_h - y,
    {
        let mut x: u32 = 0;
        proof {
            lemma_mul_upper_bound(y as int, dst_h as int - 1, dst_w as int, dst_w as int);
        }
        while x < dst_w
            invariant
                src_w >= 1,
                src_h >= 1,
                dst_w >= 1,
                dst_h >= 1,
                dst_w * dst_h * 3 <= usize::MAX,
                y < dst_h,
                x <= dst_w,
                out@.len() == (y * dst_w + x) * 3,
                forall|j: int|
                    0 <= j < out@.len() ==> out@[j] == resized_channel(
                        frame@,
                        src_w,
                        src_h,
                        dst_w,
                        dst_h,
                        j,
                    ),
            decreases dst_w - x,
        {
            proof {
                lemma_mul_upper_bound(y as int, dst_h as int - 1, dst_w as int, dst_w as int);
                assert((y * dst_w + x) * 3 + 3 <= dst_w * dst_h * 3) by (nonlinear_arith)
                    requires
                        y < dst_h,
                        x < dst_w,
                        dst_w >= 1,
                ;
            }
            proof {
                lemma_mul_upper_bound(x as int, u32::MAX as int, src_w as int, u32::MAX as int);
                lemma_mul_upper_bound(y as int, u32::MAX as int, src_h as int, u32::MAX as int);
            }
            let ox128 = {
                let v = (x as u128) * (src_w as u128) / (dst_w as u128);
                let c = (src_w - 1) as u128;
                if v > c {
                    c
                } else {
                    v
                }
            };
            let oy128 = {
                let v = (y as u128) * (src_h as u128) / (dst_h as u128);
                let c = (src_h - 1) as u128;
                if v > c {
                    c
                } else {
                    v
                }
            };
            proof {
                lemma_mul_upper_bound(
                    oy128 as int,
                    u32::MAX as int,
                    src_w as int,
                    u32::MAX as int,
                );
            }
            let idx128 = (oy128 * (src_w as u128) + ox128) * 3;
            let ghost p = (y * dst_w + x) as int;
            let ghost out_pre = out@;
            let b0: u8;
            let b1: u8;
            let b2: u8;
            if idx128 + 2 < frame.len() as u128 {
                let idx = idx128 as usize;
                b0 = frame[idx];
                b1 = frame[idx + 1];
                b2 = frame[idx + 2];
            } else {
                b0 = 0;
                b1 = 0;
                b2 = 0;
            }
            out.push(b0);
            out.push(b1);
            out.push(b2);
            proof {
                assert forall|j: int| 0 <= j < out@.len() implies out@[j] == resized_channel(
                    frame@,
                    src_w,
                    src_h,
                    dst_w,
                    dst_h,
                    j,
                ) by {
                    if j < p * 3 {
                        assert(out@[j] == out_pre[j]);
                    } else {
                        let c = j - p * 3;
                        assert(j / 3 == p && j % 3 == c) by (nonlinear_arith)
                            requires
                                0 <= c < 3,
                                p >= 0,
                                j == p * 3 + c,
                        ;
                        assert(p / (dst_w as int) == y && p % (dst_w as int) == x)
                            by (nonlinear_arith)
                            requires
                                p == y * dst_w + x,
                                0 <= x < dst_w,
                                y >= 0,
                        ;
                    }
                }
                assert((y * dst_w + x + 1) * 3 == (y * dst_w + x) * 3 + 3) by (nonlinear_arith);
            }
            x = x + 1;
        }
        proof {
            assert((y + 1) * dst_w * 3 == (y * dst_w + dst_w) * 3) by (nonlinear_arith);
        }
        y = y + 1;
    }
    proof {
        assert(dst_h * dst_w * 3 == dst_w * dst_h * 3) by (nonlinear_arith);
    }
    out
}

/// The pixel at `(x, y)` of the placeholder frame: a white disk at the
/// center over a two-tone red checkerboard of 40-pixel squares.
pub open spec fn placeholder_pixel(x: int, y: int) -> (u8, u8, u8) {
    let dx = abs(x - TRANSMIT_W / 2);
    let dy = abs(y - TRANSMIT_H / 2);
    if dx * dx + dy * dy < 2500 {
        (255u8, 255u8, 255u8)
    } else if (x / 40) % 2 == (y / 40) % 2 {
        (180u8, 40u8, 40u8)
    } else {
        (120u8, 20u8, 20u8)
    }
}

/// The synthetic frame broadcast while no camera is available, at the
/// transmission resolution.
pub fn placeholder_frame() -> (out: Vec<u8>)
    ensures
        out@.len() == TRANSMIT_W * TRANSMIT_H * 3,
        forall|x: int, y: int|
            0 <= x < TRANSMIT_W && 0 <= y < TRANSMIT_H ==> {
                let px = #[trigger] placeholder_pixel(x, y);
                out@[(y * TRANSMIT_W + x) * 3] == px.0 && out@[(y * TRANSMIT_W + x) * 3 + 1]
                    == px.1 && out@[(y * TRANSMIT_W + x) * 3 + 2] == px.2
            },
{
    let mut out: Vec<u8> = Vec::new();
    let mut y: u32 = 0;
    while y < TRANSMIT_H
        invariant
            y <= TRANSMIT_H,
            out@.len() == y * TRANSMIT_W * 3,
            forall|xx: int, yy: int|
                0 <= xx < TRANSMIT_W && 0 <= yy < y ==> {
                    let px = #[trigger] placeholder_pixel(xx, yy);
                    out@[(yy * TRANSMIT_W + xx) * 3] == px.0 && out@[(yy * TRANSMIT_W + xx) * 3
                        + 1] == px.1 && out@[(yy * TRANSMIT_W + xx) * 3 + 2] == px.2
                },
        decreases TRANSMIT_H - y,
    {
        let mut x: u32 = 0;
        while x < TRANSMIT_W
            invariant
                y < TRANSMIT_H,
                x <= TRANSMIT_W,
                out@.len() == (y * TRANSMIT_W + x) * 3,
                forall|xx: int, yy: int|
                    0 <= xx < TRANSMIT_W && 0 <= yy < y ==> {
                        let px = #[trigger] placeholder_pixel(xx, yy);
                        out@[(yy * TRANSMIT_W + xx) * 3] == px.0 && out@[(yy * TRANSMIT_W + xx) * 3
                            + 1] == px.1 && out@[(yy * TRANSMIT_W + xx) * 3 + 2] == px.2
                    },
                forall|xx: int|
                    0 <= xx < x ==> {
                        let px = #[trigger] placeholder_pixel(xx, y as int);
                        out@[(y * TRANSMIT_W + xx) * 3] == px.0 && out@[(y * TRANSMIT_W + xx) * 3
                            + 1] == px.1 && out@[(y * TRANSMIT_W + xx) * 3 + 2] == px.2
                    },
            decreases TRANSMIT_W - x,
        {
            let dx: u32 = if x >= TRANSMIT_W / 2 {
                x - TRANSMIT_W / 2
            } else {
                TRANSMIT_W / 2 - x
            };
            let dy: u32 = if y >= TRANSMIT_H / 2 {
                y - TRANSMIT_H / 2
            } else {
                TRANSMIT_H / 2 - y
            };
            proof {
                lemma_mul_upper_bound(dx as int, 320, dx as int, 320);
                lemma_mul_upper_bound(dy as int, 240, dy as int, 240);
            }
            let (r, g, b): (u8, u8, u8) = if dx * dx + dy * dy < 2500 {
                (255, 255, 255)
            } else if (x / 40) % 2 == (y / 40) % 2 {
                (180, 40, 40)
            } else {
                (120, 20, 20)
            };
            out.push(r);
            out.push(g);
            out.push(b);
            proof {
                assert((y * TRANSMIT_W + x + 1) * 3 == (y * TRANSMIT_W + x) * 3 + 3)
                    by (nonlinear_arith);
            }
            x = x + 1;
        }
        proof {
            assert(((y + 1) * TRANSMIT_W) * 3 == (y * TRANSMIT_W + TRANSMIT_W) * 3)
                by (nonlinear_arith);
        }
        y = y + 1;
    }
    proof {
        assert(TRANSMIT_H * TRANSMIT_W * 3 == TRANSMIT_W * TRANSMIT_H * 3) by (nonlinear_arith);
    }
    out
}

} // verus!
