//! Terminal rendering: paints received frames as colored half-block
//! characters (or a brightness ramp where color is unsupported), with
//! minimal escape-sequence churn between frames.
//!
//! The display is sized from the first received frame's dimensions.  Its
//! layout is re-derived whenever the terminal size changes, which forces a
//! full repaint; otherwise repainting is incremental, emitting a color
//! escape only when a cell's colors differ from the previous cell's.
//!
//! All output is produced as bytes; the surrounding process writes them to
//! the terminal.

use vstd::prelude::*;
use vstd::math::{min, max, max3};
use vstd::arithmetic::mul::lemma_mul_upper_bound;

verus! {

/// Columns kept free of video content at the terminal edges.
pub const TERM_W_MARGIN: usize = 2;

/// Rows kept free of video content for status lines.
pub const TERM_H_MARGIN: usize = 3;

/// Terminal width assumed when the size cannot be probed.
pub const DEFAULT_TERM_W: usize = 120;

/// Terminal height assumed when the size cannot be probed.
pub const DEFAULT_TERM_H: usize = 40;

/// The display context: source frame dimensions, current terminal size,
/// and the layout derived from them.
pub struct TerminalDisplay {
    /// Width of incoming frames, in pixels.
    pub cam_w: u32,
    /// Height of incoming frames, in pixels.
    pub cam_h: u32,
    /// Terminal width, in character cells.
    pub term_w: usize,
    /// Terminal height, in character cells.
    pub term_h: usize,
    /// Character cells per displayed row.
    pub disp_w: usize,
    /// Displayed rows; each shows two vertically stacked source samples.
    pub disp_h: usize,
    /// Integer downscale factor from source pixels to cell columns.
    pub scale: u32,
    /// Blank columns left of the picture.
    pub h_pad: usize,
    /// Blank rows above the picture.
    pub v_pad: usize,
    /// Whether the next frame must repaint the whole screen.
    pub redraw: bool,
    /// Whether the terminal takes 24-bit color escapes.
    pub supports_color: bool,
}

/// Ceiling of `a / b` for positive `b`.
pub open spec fn div_ceil(a: int, b: int) -> int
    recommends
        b >= 1,
{
    (a + b - 1) / b
}

/// Downscale factor for a `cam_w` by `cam_h` frame on a `term_w` by
/// `term_h` terminal: the picture must fit the terminal minus its
/// margins, with two source rows per cell row, and is never shown at a
/// scale below 2.  A terminal too narrow or too flat for any content
/// forces the largest possible factor.
pub open spec fn layout_scale(cam_w: u32, cam_h: u32, term_w: int, term_h: int) -> int {
    let max_w = max(term_w - TERM_W_MARGIN as int, 0);
    let max_h = max(term_h - TERM_H_MARGIN as int, 0);
    let scale_x = if max_w == 0 {
        u32::MAX as int
    } else {
        div_ceil(cam_w as int, max_w)
    };
    let scale_y = if max_h == 0 {
        u32::MAX as int
    } else {
        div_ceil(cam_h as int, 2 * max_h)
    };
    max3(scale_x, scale_y, 2)
}

/// Cell columns at a given scale: the scaled-down width, at least 1.
pub open spec fn layout_disp_w(cam_w: u32, scale: int) -> int {
    max(cam_w as int / scale, 1)
}

/// Cell rows at a given scale: the scaled-down height over row pairs, at
/// least 1.
pub open spec fn layout_disp_h(cam_h: u32, scale: int) -> int {
    max(cam_h as int / (2 * scale), 1)
}

/// Blank cells centering a picture of `inner` in a span of `outer` less
/// `margin`.
pub open spec fn layout_pad(outer: int, inner: int, margin: int) -> int {
    max(outer - inner - margin, 0) / 2
}

impl TerminalDisplay {
    /// The layout fields are those derived from the frame dimensions and
    /// the current terminal size, the frame dimensions are positive, and
    /// a whole frame fits in memory.
    pub open spec fn wf(&self) -> bool {
        &&& self.cam_w >= 1
        &&& self.cam_h >= 1
        &&& self.cam_w * self.cam_h * 3 <= usize::MAX
        &&& self.scale == layout_scale(self.cam_w, self.cam_h, self.term_w as int, self.term_h as int)
        &&& self.disp_w == layout_disp_w(self.cam_w, self.scale as int)
        &&& self.disp_h == layout_disp_h(self.cam_h, self.scale as int)
        &&& self.h_pad == layout_pad(self.term_w as int, self.disp_w as int, 0)
        &&& self.v_pad == layout_pad(self.term_h as int, self.disp_h as int, 2)
    }

    /// A display context for frames of `cam_w` by `cam_h` pixels on a
    /// terminal of the given size.  The first frame repaints fully.
    pub fn new(cam_w: u32, cam_h: u32, term_w: usize, term_h: usize, supports_color: bool) -> (d:
        TerminalDisplay)
        requires
            cam_w >= 1,
            cam_h >= 1,
            cam_w * cam_h * 3 <= usize::MAX,
        ensures
            d.wf(),
            d.cam_w == cam_w,
            d.cam_h == cam_h,
            d.term_w == term_w,
            d.term_h == term_h,
            d.redraw,
            d.supports_color == supports_color,
    {
        let mut d = TerminalDisplay {
            cam_w,
            cam_h,
            term_w,
            term_h,
            disp_w: 1,
            disp_h: 1,
            scale: 2,
            h_pad: 0,
            v_pad: 0,
            redraw: true,
            supports_color,
        };
        d.calc_layout();
        d
    }

    /// Re-derives the layout from the current terminal size and frame
    /// dimensions.
    pub fn calc_layout(&mut self)
        requires
            old(self).cam_w >= 1,
            old(self).cam_h >= 1,
            old(self).cam_w * old(self).cam_h * 3 <= usize::MAX,
        ensures
            final(self).wf(),
            final(self).cam_w == old(self).cam_w,
            final(self).cam_h == old(self).cam_h,
            final(self).term_w == old(self).term_w,
            final(self).term_h == old(self).term_h,
            final(self).redraw == old(self).redraw,
            final(self).supports_color == old(self).supports_color,
    {
        let max_w = if self.term_w >= TERM_W_MARGIN {
            self.term_w - TERM_W_MARGIN
        } else {
            0
        };
        let max_h = if self.term_h >= TERM_H_MARGIN {
            self.term_h - TERM_H_MARGIN
        } else {
            0
        };
        let scale_x: u32 = if max_w == 0 {
            u32::MAX
        } else {
            proof {
                lemma_small_ceil(self.cam_w as int, max_w as int);
            }
            (((self.cam_w as u128) + (max_w as u128) - 1) / (max_w as u128)) as u32
        };
        let scale_y: u32 = if max_h == 0 {
            u32::MAX
        } else {
            proof {
                lemma_small_ceil(self.cam_h as int, 2 * max_h as int);
            }
            (((self.cam_h as u128) + 2 * (max_h as u128) - 1) / (2 * (max_h as u128))) as u32
        };
        let mut scale = if scale_x >= scale_y {
            scale_x
        } else {
            scale_y
        };
        if scale < 2 {
            scale = 2;
        }
        self.scale = scale;
        let dw = self.cam_w / scale;
        self.disp_w = if dw >= 1 {
            dw as usize
        } else {
            1
        };
        let dh = (self.cam_h as u64) / (2 * (scale as u64));
        self.disp_h = if dh >= 1 {
            dh as usize
        } else {
            1
        };
        self.h_pad = if self.term_w >= self.disp_w {
            (self.term_w - self.disp_w) / 2
        } else {
            0
        };
        self.v_pad = if self.term_h >= 2 && self.term_h - 2 >= self.disp_h {
            (self.term_h - 2 - self.disp_h) / 2
        } else {
            0
        };
    }
}

/// `n` copies of the byte `b`.
pub open spec fn byte_repeat(b: u8, n: nat) -> Seq<u8> {
    Seq::new(n, |i: int| b)
}

/// The decimal digits of `n`, as ASCII bytes.
pub open spec fn dec_u8(n: u8) -> Seq<u8> {
    if n < 10 {
        seq![(48 + n) as u8]
    } else if n < 100 {
        seq![(48 + n / 10) as u8, (48 + n % 10) as u8]
    } else {
        seq![(48 + n / 100) as u8, (48 + (n / 10) % 10) as u8, (48 + n % 10) as u8]
    }
}

/// Clear the screen and home the cursor.
pub open spec fn esc_clear_home() -> Seq<u8> {
    seq![27u8, 91u8, 50u8, 74u8, 27u8, 91u8, 72u8]
}

/// Home the cursor.
pub open spec fn esc_home() -> Seq<u8> {
    seq![27u8, 91u8, 72u8]
}

/// Set the foreground to the top sample and the background to the bottom
/// sample, as two 24-bit color escapes.
pub open spec fn color_escape(top: (u8, u8, u8), bot: (u8, u8, u8)) -> Seq<u8> {
    seq![27u8, 91u8, 51u8, 56u8, 59u8, 50u8, 59u8] + dec_u8(top.0) + seq![59u8] + dec_u8(top.1)
        + seq![59u8] + dec_u8(top.2) + seq![109u8] + seq![27u8, 91u8, 52u8, 56u8, 59u8, 50u8, 59u8]
        + dec_u8(bot.0) + seq![59u8] + dec_u8(bot.1) + seq![59u8] + dec_u8(bot.2) + seq![109u8]
}

/// The upper-half-block glyph, in UTF-8.
pub open spec fn half_block() -> Seq<u8> {
    seq![226u8, 150u8, 128u8]
}

/// The brightness ramp used where color is unsupported: five buckets from
/// blank to dense.
pub open spec fn ramp_char(brightness: u8) -> u8 {
    if brightness <= 51 {
        32
    } else if brightness <= 102 {
        46
    } else if brightness <= 153 {
        58
    } else if brightness <= 204 {
        35
    } else {
        64
    }
}

/// The sentinel color state at the start of each row: no escape has been
/// emitted for it, so the first colored cell always emits one.
pub open spec fn color_reset() -> (u8, u8, u8) {
    (255u8, 255u8, 255u8)
}

/// Byte offsets of the top and bottom source samples for cell `(x, y)`:
/// nearest pixels under the downscale factor, clamped to the frame.
pub open spec fn src_offsets(d: TerminalDisplay, x: int, y: int) -> (int, int) {
    let sx = min(x * d.scale, d.cam_w - 1);
    let syt = min(y * d.scale * 2, d.cam_h - 1);
    let syb = min(y * d.scale * 2 + d.scale, d.cam_h - 1);
    ((syt * d.cam_w + sx) * 3, (syb * d.cam_w + sx) * 3)
}

/// Output and new color state for one cell, given the color state left by
/// the preceding cell.  In color mode an escape is emitted only when the
/// cell's two samples differ from that state; out-of-frame cells are
/// blank.
pub open spec fn cell_output(
    d: TerminalDisplay,
    frame: Seq<u8>,
    x: int,
    y: int,
    lt: (u8, u8, u8),
    lb: (u8, u8, u8),
) -> (Seq<u8>, (u8, u8, u8), (u8, u8, u8)) {
    let (ti, bi) = src_offsets(d, x, y);
    if ti + 2 < frame.len() && bi + 2 < frame.len() {
        let top = (frame[ti], frame[ti + 1], frame[ti + 2]);
        let bot = (frame[bi], frame[bi + 1], frame[bi + 2]);
        if d.supports_color {
            if top != lt || bot != lb {
                (color_escape(top, bot) + half_block(), top, bot)
            } else {
                (half_block(), lt, lb)
            }
        } else {
            (seq![ramp_char(((top.0 + top.1 + top.2) / 3) as u8)], lt, lb)
        }
    } else {
        (seq![32u8], lt, lb)
    }
}

/// Output of the cells of row `y` from column `x` on, threading the color
/// state.
pub open spec fn row_cells(
    d: TerminalDisplay,
    frame: Seq<u8>,
    y: int,
    x: int,
    lt: (u8, u8, u8),
    lb: (u8, u8, u8),
) -> Seq<u8>
    decreases d.disp_w - x,
{
    if x < 0 || x >= d.disp_w {
        Seq::empty()
    } else {
        let (bytes, lt2, lb2) = cell_output(d, frame, x, y, lt, lb);
        bytes + row_cells(d, frame, y, x + 1, lt2, lb2)
    }
}

/// Bytes ending a row: in color mode the color is reset before the line
/// break, so each row starts from the sentinel state.
pub open spec fn row_end(d: TerminalDisplay) -> Seq<u8> {
    if d.supports_color {
        seq![27u8, 91u8, 48u8, 109u8, 10u8]
    } else {
        seq![10u8]
    }
}

/// Output of the rows from `y` down: each row is left-padded, rendered
/// from the sentinel color state, and terminated.
pub open spec fn render_rows(d: TerminalDisplay, frame: Seq<u8>, y: int) -> Seq<u8>
    decreases d.disp_h - y,
{
    if y < 0 || y >= d.disp_h {
        Seq::empty()
    } else {
        byte_repeat(32, d.h_pad as nat) + row_cells(d, frame, y, 0, color_reset(), color_reset())
            + row_end(d) + render_rows(d, frame, y + 1)
    }
}

/// Bytes emitted before the picture: a full clear on a forced repaint
/// (blank lines and backspaces where color is unsupported), otherwise
/// just a cursor-home escape.
pub open spec fn render_prefix(d: TerminalDisplay) -> Seq<u8> {
    if d.redraw {
        if d.supports_color {
            esc_clear_home()
        } else {
            byte_repeat(10, d.term_h as nat) + byte_repeat(8, d.term_h as nat)
        }
    } else if d.supports_color {
        esc_home()
    } else {
        Seq::empty()
    }
}

/// Everything emitted for one frame under display state `d`.
pub open spec fn render_output(d: TerminalDisplay, frame: Seq<u8>) -> Seq<u8> {
    render_prefix(d) + byte_repeat(10, d.v_pad as nat) + render_rows(d, frame, 0)
}

/// Appends `n` copies of `b` to `out`.
fn push_repeat(out: &mut Vec<u8>, b: u8, n: usize)
    ensures
        final(out)@ == old(out)@ + byte_repeat(b, n as nat),
{
    let mut i: usize = 0;
    while i < n
        invariant
            i <= n,
            out@ == old(out)@ + byte_repeat(b, i as nat),
        decreases n - i,
    {
        out.push(b);
        proof {
            assert(old(out)@ + byte_repeat(b, i as nat) + seq![b] =~= old(out)@ + byte_repeat(
                b,
                (i + 1) as nat,
            ));
        }
        i = i + 1;
    }
}

/// Appends the decimal digits of `n` to `out`.
fn push_dec(out: &mut Vec<u8>, n: u8)
    ensures
        final(out)@ == old(out)@ + dec_u8(n),
{
    if n < 10 {
        out.push(48 + n);
        proof {
            assert(old(out)@.push((48 + n) as u8) =~= old(out)@ + dec_u8(n));
        }
    } else if n < 100 {
        out.push(48 + n / 10);
        out.push(48 + n % 10);
        proof {
            assert(old(out)@.push((48 + n / 10) as u8).push((48 + n % 10) as u8) =~= old(out)@
                + dec_u8(n));
        }
    } else {
        out.push(48 + n / 100);
        out.push(48 + (n / 10) % 10);
        out.push(48 + n % 10);
        proof {
            assert(old(out)@.push((48 + n / 100) as u8).push((48 + (n / 10) % 10) as u8).push(
                (48 + n % 10) as u8,
            ) =~= old(out)@ + dec_u8(n));
        }
    }
}

/// Appends the two 24-bit color escapes selecting `top` as foreground and
/// `bot` as background.
fn push_color_escape(out: &mut Vec<u8>, top: (u8, u8, u8), bot: (u8, u8, u8))
    ensures
        final(out)@ == old(out)@ + color_escape(top, bot),
{
    out.push(27);
    out.push(91);
    out.push(51);
    out.push(56);
    out.push(59);
    out.push(50);
    out.push(59);
    push_dec(out, top.0);
    out.push(59);
    push_dec(out, top.1);
    out.push(59);
    push_dec(out, top.2);
    out.push(109);
    out.push(27);
    out.push(91);
    out.push(52);
    out.push(56);
    out.push(59);
    out.push(50);
    out.push(59);
    push_dec(out, bot.0);
    out.push(59);
    push_dec(out, bot.1);
    out.push(59);
    push_dec(out, bot.2);
    out.push(109);
    proof {
        assert(out@ =~= old(out)@ + color_escape(top, bot));
    }
}

impl TerminalDisplay {
    /// Renders one cell, appending its bytes and returning the color
    /// state it leaves behind.
    fn render_cell(
        &self,
        frame_bytes: &[u8],
        x: usize,
        y: usize,
        lt: (u8, u8, u8),
        lb: (u8, u8, u8),
        out: &mut Vec<u8>,
    ) -> (lasts: ((u8, u8, u8), (u8, u8, u8)))
        requires
            self.wf(),
            x < self.disp_w,
            y < self.disp_h,
        ensures
            ({
                let (bytes, lt2, lb2) = cell_output(*self, frame_bytes@, x as int, y as int, lt, lb);
                final(out)@ == old(out)@ + bytes && lasts == ((lt2, lb2))
            }),
    {
        proof {
            lemma_mul_upper_bound(x as int, usize::MAX as int, self.scale as int, u32::MAX as int);
            lemma_mul_upper_bound(y as int, usize::MAX as int, self.scale as int, u32::MAX as int);
        }
        let sx128 = {
            let v = (x as u128) * (self.scale as u128);
            let c = (self.cam_w - 1) as u128;
            if v > c {
                c
            } else {
                v
            }
        };
        let syt128 = {
            let v = (y as u128) * (self.scale as u128) * 2;
            let c = (self.cam_h - 1) as u128;
            if v > c {
                c
            } else {
                v
            }
        };
        let syb128 = {
            let v = (y as u128) * (self.scale as u128) * 2 + (self.scale as u128);
            let c = (self.cam_h - 1) as u128;
            if v > c {
                c
            } else {
                v
            }
        };
        proof {
            lemma_mul_upper_bound(
                syt128 as int,
                u32::MAX as int,
                self.cam_w as int,
                u32::MAX as int,
            );
            lemma_mul_upper_bound(
                syb128 as int,
                u32::MAX as int,
                self.cam_w as int,
                u32::MAX as int,
            );
        }
        let ti128 = (syt128 * (self.cam_w as u128) + sx128) * 3;
        let bi128 = (syb128 * (self.cam_w as u128) + sx128) * 3;
        let len128 = frame_bytes.len() as u128;
        if ti128 + 2 < len128 && bi128 + 2 < len128 {
            let ti = ti128 as usize;
            let bi = bi128 as usize;
            let top = (frame_bytes[ti], frame_bytes[ti + 1], frame_bytes[ti + 2]);
            let bot = (frame_bytes[bi], frame_bytes[bi + 1], frame_bytes[bi + 2]);
            if self.supports_color {
                if top.0 != lt.0 || top.1 != lt.1 || top.2 != lt.2 || bot.0 != lb.0 || bot.1 != lb.1
                    || bot.2 != lb.2 {
                    push_color_escape(out, top, bot);
                    out.push(226);
                    out.push(150);
                    out.push(128);
                    proof {
                        assert(out@ =~= old(out)@ + (color_escape(top, bot) + half_block()));
                    }
                    (top, bot)
                } else {
                    out.push(226);
                    out.push(150);
                    out.push(128);
                    proof {
                        assert(out@ =~= old(out)@ + half_block());
                    }
                    (lt, lb)
                }
            } else {
                let brightness = ((top.0 as u16 + top.1 as u16 + top.2 as u16) / 3) as u8;
                let c: u8 = if brightness <= 51 {
                    32
                } else if brightness <= 102 {
                    46
                } else if brightness <= 153 {
                    58
                } else if brightness <= 204 {
                    35
                } else {
                    64
                };
                out.push(c);
                proof {
                    assert(out@ =~= old(out)@ + seq![
                        ramp_char(((top.0 + top.1 + top.2) / 3) as u8),
                    ]);
                }
                (lt, lb)
            }
        } else {
            out.push(32);
            proof {
                assert(out@ =~= old(out)@ + seq![32u8]);
            }
            (lt, lb)
        }
    }

    /// Renders one padded, terminated row.
    fn render_row(&self, frame_bytes: &[u8], y: usize, out: &mut Vec<u8>)
        requires
            self.wf(),
            y < self.disp_h,
        ensures
            final(out)@ == old(out)@ + byte_repeat(32, self.h_pad as nat) + row_cells(
                *self,
                frame_bytes@,
                y as int,
                0,
                color_reset(),
                color_reset(),
            ) + row_end(*self),
    {
        push_repeat(out, 32, self.h_pad);
        let mut lt: (u8, u8, u8) = (255, 255, 255);
        let mut lb: (u8, u8, u8) = (255, 255, 255);
        let mut x: usize = 0;
        while x < self.disp_w
            invariant
                self.wf(),
                y < self.disp_h,
                x <= self.disp_w,
                out@ + row_cells(*self, frame_bytes@, y as int, x as int, lt, lb) == old(out)@
                    + byte_repeat(32, self.h_pad as nat) + row_cells(
                    *self,
                    frame_bytes@,
                    y as int,
                    0,
                    color_reset(),
                    color_reset(),
                ),
            decreases self.disp_w - x,
        {
            let ghost out_pre = out@;
            let ghost lt_pre = lt;
            let ghost lb_pre = lb;
            let lasts = self.render_cell(frame_bytes, x, y, lt, lb, out);
            lt = lasts.0;
            lb = lasts.1;
            proof {
                let (bytes, lt2, lb2) = cell_output(
                    *self,
                    frame_bytes@,
                    x as int,
                    y as int,
                    lt_pre,
                    lb_pre,
                );
                assert(row_cells(*self, frame_bytes@, y as int, x as int, lt_pre, lb_pre) == bytes
                    + row_cells(*self, frame_bytes@, y as int, x as int + 1, lt2, lb2));
                assert(out@ + row_cells(*self, frame_bytes@, y as int, x as int + 1, lt, lb)
                    =~= out_pre + row_cells(*self, frame_bytes@, y as int, x as int, lt_pre, lb_pre));
            }
            x = x + 1;
        }
        if self.supports_color {
            out.push(27);
            out.push(91);
            out.push(48);
            out.push(109);
            out.push(10);
        } else {
            out.push(10);
        }
        proof {
            assert(out@ =~= old(out)@ + byte_repeat(32, self.h_pad as nat) + row_cells(
                *self,
                frame_bytes@,
                y as int,
                0,
                color_reset(),
                color_reset(),
            ) + row_end(*self));
        }
    }

    /// Paints one frame: the full or incremental prefix, the vertical
    /// padding, and every row.  Afterwards the next repaint is
    /// incremental.
    pub fn render_blocks(&mut self, frame_bytes: &[u8]) -> (out: Vec<u8>)
        requires
            old(self).wf(),
        ensures
            *final(self) == (TerminalDisplay { redraw: false, ..*old(self) }),
            out@ == render_output(*old(self), frame_bytes@),
    {
        let ghost d0 = *self;
        let mut out: Vec<u8> = Vec::new();
        if self.redraw {
            if self.supports_color {
                out.push(27);
                out.push(91);
                out.push(50);
                out.push(74);
                out.push(27);
                out.push(91);
                out.push(72);
            } else {
                push_repeat(&mut out, 10, self.term_h);
                push_repeat(&mut out, 8, self.term_h);
            }
        } else if self.supports_color {
            out.push(27);
            out.push(91);
            out.push(72);
        }
        proof {
            assert(out@ =~= render_prefix(d0));
        }
        push_repeat(&mut out, 10, self.v_pad);
        proof {
            assert(out@ =~= render_prefix(d0) + byte_repeat(10, d0.v_pad as nat));
        }
        let mut y: usize = 0;
        while y < self.disp_h
            invariant
                self.wf(),
                *self == d0,
                y <= self.disp_h,
                out@ + render_rows(d0, frame_bytes@, y as int) == render_prefix(d0) + byte_repeat(
                    10,
                    d0.v_pad as nat,
                ) + render_rows(d0, frame_bytes@, 0),
            decreases self.disp_h - y,
        {
            let ghost out_pre = out@;
            self.render_row(frame_bytes, y, &mut out);
            proof {
                assert(render_rows(d0, frame_bytes@, y as int) == byte_repeat(32, d0.h_pad as nat)
                    + row_cells(d0, frame_bytes@, y as int, 0, color_reset(), color_reset())
                    + row_end(d0) + render_rows(d0, frame_bytes@, y as int + 1));
                assert(out@ + render_rows(d0, frame_bytes@, y as int + 1) =~= out_pre + render_rows(
                    d0,
                    frame_bytes@,
                    y as int,
                ));
            }
            y = y + 1;
        }
        self.redraw = false;
        proof {
            assert(out@ =~= render_output(d0, frame_bytes@));
        }
        out
    }

    /// The display state after probing a possibly changed terminal size:
    /// unchanged when the size is the same, otherwise re-laid-out with a
    /// full repaint forced.
    pub open spec fn after_resize(self, term_w: usize, term_h: usize) -> TerminalDisplay {
        if term_w == self.term_w && term_h == self.term_h {
            self
        } else {
            let scale = layout_scale(self.cam_w, self.cam_h, term_w as int, term_h as int);
            TerminalDisplay {
                term_w,
                term_h,
                scale: scale as u32,
                disp_w: layout_disp_w(self.cam_w, scale) as usize,
                disp_h: layout_disp_h(self.cam_h, scale) as usize,
                h_pad: layout_pad(term_w as int, layout_disp_w(self.cam_w, scale), 0) as usize,
                v_pad: layout_pad(term_h as int, layout_disp_h(self.cam_h, scale), 2) as usize,
                redraw: true,
                ..self
            }
        }
    }

    /// Shows one received frame on a terminal currently `term_w` by
    /// `term_h` cells: re-derives the layout if the terminal size changed
    /// since the last frame (forcing a full repaint) and returns the
    /// bytes to write.
    pub fn show_frame(&mut self, frame_bytes: &[u8], term_w: usize, term_h: usize) -> (out: Vec<
        u8,
    >)
        requires
            old(self).wf(),
        ensures
            final(self).wf(),
            *final(self) == (TerminalDisplay {
                redraw: false,
                ..old(self).after_resize(term_w, term_h)
            }),
            out@ == render_output(old(self).after_resize(term_w, term_h), frame_bytes@),
    {
        let ghost d0 = *self;
        if term_w != self.term_w || term_h != self.term_h {
            self.term_w = term_w;
            self.term_h = term_h;
            self.calc_layout();
            self.redraw = true;
            proof {
                assert(*self == d0.after_resize(term_w, term_h));
            }
        }
        self.render_blocks(frame_bytes)
    }
}

/// The terminal size to lay out for, given what the probe returned:
/// the probed size, or a conventional default when it is unavailable.
pub open spec fn default_size(probed: Option<(u16, u16)>) -> (usize, usize) {
    match probed {
        Some((w, h)) => (w as usize, h as usize),
        None => (DEFAULT_TERM_W, DEFAULT_TERM_H),
    }
}

/// Relies on `terminal_size::terminal_size`: probes the controlling
/// terminal's dimensions.  The result depends on the environment, so
/// nothing is promised of it.
#[verifier::external_body]
fn probe_term_size() -> (r: Option<(u16, u16)>) {
    terminal_size::terminal_size().map(|(w, h)| (w.0, h.0))
}

/// The terminal's current size in cells, falling back to a conventional
/// default when it cannot be probed.
pub fn term_size() -> (r: (usize, usize)) {
    let probed = probe_term_size();
    match probed {
        Some((w, h)) => (w as usize, h as usize),
        None => (DEFAULT_TERM_W, DEFAULT_TERM_H),
    }
}

/// The ceiling of `a / b` stays within `u32` when `a` does.
proof fn lemma_small_ceil(a: int, b: int)
    requires
        0 <= a <= u32::MAX,
        b >= 1,
    ensures
        0 <= div_ceil(a, b) <= u32::MAX,
{
    assert((a + b - 1) / b <= a) by (nonlinear_arith)
        requires
            b >= 1,
            a >= 0,
    ;
    assert((a + b - 1) / b >= 0) by (nonlinear_arith)
        requires
            b >= 1,
            a >= 0,
    ;
}

} // verus!
