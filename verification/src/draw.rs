//! Rendering: the affine world-to-screen mapping and the drawing of the
//! whole simulation state (background, ball, paddle, debug overlay, bricks)
//! into a canvas.

use vstd::prelude::*;

verus! {

use crate::canvas::{Canvas, RasterError, circle_covers, draw_circle, draw_rect, draw_subcanvas, rect_covers};
use crate::fixed::SCALE;
use crate::state::{Bricks, GameState};
use crate::text::{
    compute_multiline_text_data,
    line_row,
    max_line_width,
    spec_text_pixel,
    total_height,
    GlyphRun,
    BLANK,
};
use vstd::arithmetic::div_mod::{lemma_div_pos_is_pos, lemma_multiply_divide_le, lemma_multiply_divide_lt};

/// The screen column of world coordinate `wx` on a canvas `sw` pixels wide:
/// the affine map `(wx + 1) / 2 * sw`, truncated.
pub open spec fn spec_screen_x(wx: int, sw: int) -> int {
    sw * (SCALE + wx) / (2 * SCALE)
}

/// The screen row of world coordinate `wy` on a canvas `sh` pixels high:
/// as `spec_screen_x`, then flipped because +y points up in the world but
/// down on the screen.
pub open spec fn spec_screen_y(wy: int, sh: int) -> int {
    sh - sh * (SCALE + wy) / (2 * SCALE)
}

/// A world-unit extent `d` in pixels on a canvas dimension `dim`, rounded
/// down (two world units span the whole canvas).
pub open spec fn spec_screen_extent(d: int, dim: int) -> int {
    d * dim / (2 * SCALE)
}

/// As `spec_screen_extent`, but rounded up.
pub open spec fn spec_screen_extent_ceil(d: int, dim: int) -> int {
    (d * dim + 2 * SCALE - 1) / (2 * SCALE)
}

/// Maps a world position to integer screen coordinates.
pub fn to_screen_coords(world_x: i64, world_y: i64, screen_width: usize, screen_height: usize) -> (r: (
    usize,
    usize,
))
    requires
        -SCALE <= world_x <= SCALE,
        -SCALE <= world_y <= SCALE,
    ensures
        r.0 == spec_screen_x(world_x as int, screen_width as int),
        r.1 == spec_screen_y(world_y as int, screen_height as int),
        r.0 <= screen_width,
        r.1 <= screen_height,
{
    proof {
        assert((screen_width as int) * ((SCALE + world_x) as int) <= (screen_width as int) * (2
            * SCALE as int) && 0 <= (screen_width as int) * ((SCALE + world_x) as int) && (
        screen_height as int) * ((SCALE + world_y) as int) <= (screen_height as int) * (2
            * SCALE as int) && 0 <= (screen_height as int) * ((SCALE + world_y) as int))
            by (nonlinear_arith)
            requires
                0 <= SCALE + world_x <= 2 * SCALE as int,
                0 <= SCALE + world_y <= 2 * SCALE as int,
                0 <= screen_width,
                0 <= screen_height,
        ;
        lemma_multiply_divide_le(
            (screen_width as int) * ((SCALE + world_x) as int),
            2 * SCALE as int,
            screen_width as int,
        );
        lemma_multiply_divide_le(
            (screen_height as int) * ((SCALE + world_y) as int),
            2 * SCALE as int,
            screen_height as int,
        );
        lemma_div_pos_is_pos((screen_width as int) * ((SCALE + world_x) as int), 2 * SCALE as int);
        lemma_div_pos_is_pos(
            (screen_height as int) * ((SCALE + world_y) as int),
            2 * SCALE as int,
        );
        assert((screen_width as int) * (2 * SCALE as int) <= 0xFFFF_FFFF_FFFF_FFFF * 2_000_000
            && (screen_height as int) * (2 * SCALE as int) <= 0xFFFF_FFFF_FFFF_FFFF * 2_000_000)
            by (nonlinear_arith)
            requires
                0 <= screen_width <= 0xFFFF_FFFF_FFFF_FFFFu64,
                0 <= screen_height <= 0xFFFF_FFFF_FFFF_FFFFu64,
        ;
    }
    let fx: u128 = (screen_width as u128) * ((SCALE + world_x) as u128);
    let fy: u128 = (screen_height as u128) * ((SCALE + world_y) as u128);
    let x = (fx / 2_000_000) as usize;
    let y_up = (fy / 2_000_000) as usize;
    let y = screen_height - y_up;
    (x, y)
}

/// The scene under the brick row and the debug overlay: the paddle over the
/// ball over the cleared background.
pub open spec fn spec_scene_base(s: GameState, sw: int, sh: int, r: int, c: int) -> u32 {
    let bx = spec_screen_x(s.ball_pos_x as int, sw);
    let by = spec_screen_y(s.ball_pos_y as int, sh);
    let bd = spec_screen_extent(s.ball_diameter as int, sw);
    let px = spec_screen_x(s.paddle_pos_x as int, sw);
    let py = spec_screen_y(s.paddle_pos_y as int, sh);
    let pw = spec_screen_extent(s.paddle_width as int, sw);
    let ph = spec_screen_extent(s.paddle_height as int, sh);
    if rect_covers(px, py, pw, ph, r, c) {
        s.paddle_color
    } else if circle_covers(bx, by, bd, r, c) {
        s.ball_color
    } else {
        s.background_color
    }
}

/// The first `n` bricks drawn over a base pixel; a later brick wins where
/// bricks overlap.
pub open spec fn bricks_overlay(b: Bricks, n: int, sw: int, sh: int, r: int, c: int, base: u32) -> u32
    decreases n,
{
    if n <= 0 || n > b.x_positions@.len() || b.x_positions@.len() != b.y_positions@.len()
        || b.x_positions@.len() != b.colors@.len() {
        base
    } else {
        let i = n - 1;
        let x = spec_screen_x(b.x_positions@[i] as int, sw);
        let y = spec_screen_y(b.y_positions@[i] as int, sh);
        let w = spec_screen_extent_ceil(b.width as int, sw);
        let h = spec_screen_extent_ceil(b.height as int, sh);
        if rect_covers(x, y, w, h, r, c) {
            b.colors@[i]
        } else {
            bricks_overlay(b, n - 1, sw, sh, r, c, base)
        }
    }
}

/// The debug text block (stacked at the canvas's top-left corner) fits.
pub open spec fn debug_block_fits(dst: Canvas, runs: Seq<GlyphRun>) -> bool {
    max_line_width(runs) == 0 || total_height(runs) == 0 || (max_line_width(runs) <= dst.stride
        && total_height(runs) <= dst.spec_height())
}

impl GameState {
    /// Draws the ball as a filled circle at its screen position.
    pub fn draw_ball(&self, canvas: &mut Canvas)
        requires
            old(canvas).wf(),
            self.wf(),
            old(canvas).stride <= 0x4000_0000,
            old(canvas).spec_height() <= 0x4000_0000,
        ensures
            final(canvas).stride == old(canvas).stride,
            final(canvas).buffer@.len() == old(canvas).buffer@.len(),
            final(canvas).wf(),
            forall|r: int, c: int|
                0 <= r < old(canvas).spec_height() && 0 <= c < old(canvas).stride
                    ==> final(canvas).pixel(r, c) == (if circle_covers(
                    spec_screen_x(self.ball_pos_x as int, old(canvas).stride as int),
                    spec_screen_y(self.ball_pos_y as int, old(canvas).spec_height()),
                    spec_screen_extent(self.ball_diameter as int, old(canvas).stride as int),
                    r,
                    c,
                ) {
                    self.ball_color
                } else {
                    old(canvas).pixel(r, c)
                }),
    {
        let w = canvas.width();
        let h = canvas.height();
        let (x, y) = to_screen_coords(self.ball_pos_x, self.ball_pos_y, w, h);
        let screen_diameter = screen_extent(self.ball_diameter, w);
        draw_circle(canvas, x, y, screen_diameter, self.ball_color);
    }

    /// Draws the paddle as a filled rectangle at its screen position.
    pub fn draw_paddle(&self, canvas: &mut Canvas)
        requires
            old(canvas).wf(),
            self.wf(),
            old(canvas).stride <= 0x4000_0000,
            old(canvas).spec_height() <= 0x4000_0000,
        ensures
            final(canvas).stride == old(canvas).stride,
            final(canvas).buffer@.len() == old(canvas).buffer@.len(),
            final(canvas).wf(),
            forall|r: int, c: int|
                0 <= r < old(canvas).spec_height() && 0 <= c < old(canvas).stride
                    ==> final(canvas).pixel(r, c) == (if rect_covers(
                    spec_screen_x(self.paddle_pos_x as int, old(canvas).stride as int),
                    spec_screen_y(self.paddle_pos_y as int, old(canvas).spec_height()),
                    spec_screen_extent(self.paddle_width as int, old(canvas).stride as int),
                    spec_screen_extent(self.paddle_height as int, old(canvas).spec_height()),
                    r,
                    c,
                ) {
                    self.paddle_color
                } else {
                    old(canvas).pixel(r, c)
                }),
    {
        let w = canvas.width();
        let h = canvas.height();
        let (x, y) = to_screen_coords(self.paddle_pos_x, self.paddle_pos_y, w, h);
        let width = screen_extent(self.paddle_width, w);
        let height = screen_extent(self.paddle_height, h);
        draw_rect(canvas, x, y, width, height, self.paddle_color);
    }

    /// Rasterizes the debug lines and blits the block to the canvas's
    /// top-left corner; reports `OutOfBounds` (leaving the canvas
    /// untouched) when the block does not fit.
    pub fn draw_debug_stats(&self, canvas: &mut Canvas, runs: &Vec<GlyphRun>) -> (res: Result<
        (),
        RasterError,
    >)
        requires
            old(canvas).wf(),
            forall|i: int| 0 <= i < runs@.len() ==> (#[trigger] runs@[i]).wf(),
            total_height(runs@) * max_line_width(runs@) <= usize::MAX,
        ensures
            final(canvas).stride == old(canvas).stride,
            final(canvas).buffer@.len() == old(canvas).buffer@.len(),
            final(canvas).wf(),
            res is Ok <==> debug_block_fits(*old(canvas), runs@),
            res is Err ==> *final(canvas) == *old(canvas),
            res is Ok ==> forall|i: int, r: int, c: int|
                0 <= i < runs@.len() && 0 <= r < runs@[i].height && 0 <= c < max_line_width(runs@)
                    && line_row(runs@, i, r) < old(canvas).spec_height() && c < old(
                    canvas,
                ).stride ==> #[trigger] final(canvas).pixel(line_row(runs@, i, r), c) == (if c
                    < runs@[i].width {
                    spec_text_pixel(runs@[i].glyphs@, c, r)
                } else {
                    BLANK
                }),
            res is Ok ==> forall|r: int, c: int|
                0 <= r < old(canvas).spec_height() && 0 <= c < old(canvas).stride && (r
                    >= total_height(runs@) || c >= max_line_width(runs@)) ==> final(canvas).pixel(
                    r,
                    c,
                ) == old(canvas).pixel(r, c),
    {
        let text_canvas = compute_multiline_text_data(runs);
        let res = draw_subcanvas(canvas, &text_canvas, (0, 0));
        proof {
            let ms = max_line_width(runs@);
            let th = total_height(runs@);
            let n = runs@.len() as int;
            assert(runs@.take(n) =~= runs@);
            crate::text::lemma_total_height_nonneg(runs@, n);
            if text_canvas.stride == 0 {
            } else {
                vstd::arithmetic::div_mod::lemma_div_multiples_vanish(
                    th,
                    text_canvas.stride as int,
                );
                assert(th * text_canvas.stride as int == text_canvas.stride as int * th)
                    by (nonlinear_arith);
            }
            if res is Ok {
                assert forall|i: int, r: int, c: int|
                    0 <= i < runs@.len() && 0 <= r < runs@[i].height && 0 <= c < max_line_width(
                        runs@,
                    ) && line_row(runs@, i, r) < old(canvas).spec_height() && c < old(
                        canvas,
                    ).stride implies #[trigger] canvas.pixel(line_row(runs@, i, r), c) == (if c
                    < runs@[i].width {
                    spec_text_pixel(runs@[i].glyphs@, c, r)
                } else {
                    BLANK
                }) by {
                    crate::text::lemma_total_height_nonneg(runs@, i);
                    crate::text::lemma_total_height_step(runs@, i);
                    crate::text::lemma_total_height_mono(runs@, i + 1, n);
                    let rr = line_row(runs@, i, r);
                    assert(rr < th);
                    assert(text_canvas.pixel(line_row(runs@, i, r), c) == (if c < runs@[i].width {
                        spec_text_pixel(runs@[i].glyphs@, c, r)
                    } else {
                        BLANK
                    }));
                    assert(canvas.pixel(rr, c) == text_canvas.pixel(rr - 0, c - 0));
                }
            }
        }
        res
    }
}

impl GameState {
    /// Renders the whole scene: the cleared background, the ball, the
    /// paddle, the debug overlay (skipped silently when absent, disabled,
    /// or too large for the canvas), and the brick row on top of it all.
    #[verifier::loop_isolation(false)]
    pub fn draw_all(&self, canvas: &mut Canvas, debug_runs: Option<&Vec<GlyphRun>>)
        requires
            old(canvas).wf(),
            self.wf(),
            old(canvas).stride <= 0x4000_0000,
            old(canvas).spec_height() <= 0x4000_0000,
            debug_runs matches Some(runs) ==> (forall|i: int|
                0 <= i < runs@.len() ==> (#[trigger] runs@[i]).wf()) && total_height(runs@)
                * max_line_width(runs@) <= usize::MAX,
        ensures
            final(canvas).stride == old(canvas).stride,
            final(canvas).buffer@.len() == old(canvas).buffer@.len(),
            final(canvas).wf(),
            debug_runs is None || !self.debug_stats ==> forall|r: int, c: int|
                0 <= r < old(canvas).spec_height() && 0 <= c < old(canvas).stride
                    ==> final(canvas).pixel(r, c) == bricks_overlay(
                    self.bricks,
                    self.bricks.x_positions@.len() as int,
                    old(canvas).stride as int,
                    old(canvas).spec_height(),
                    r,
                    c,
                    spec_scene_base(
                        *self,
                        old(canvas).stride as int,
                        old(canvas).spec_height(),
                        r,
                        c,
                    ),
                ),
            debug_runs matches Some(runs) ==> self.debug_stats ==> forall|r: int, c: int|
                0 <= r < old(canvas).spec_height() && 0 <= c < old(canvas).stride && (
                !debug_block_fits(*old(canvas), runs@) || r >= total_height(runs@) || c
                    >= max_line_width(runs@)) ==> final(canvas).pixel(r, c) == bricks_overlay(
                    self.bricks,
                    self.bricks.x_positions@.len() as int,
                    old(canvas).stride as int,
                    old(canvas).spec_height(),
                    r,
                    c,
                    spec_scene_base(
                        *self,
                        old(canvas).stride as int,
                        old(canvas).spec_height(),
                        r,
                        c,
                    ),
                ),
            debug_runs matches Some(runs) ==> self.debug_stats && debug_block_fits(
                *old(canvas),
                runs@,
            ) ==> forall|i: int, r: int, c: int|
                0 <= i < runs@.len() && 0 <= r < runs@[i].height && 0 <= c < max_line_width(runs@)
                    && line_row(runs@, i, r) < old(canvas).spec_height() && c < old(canvas).stride
                    ==> #[trigger] final(canvas).pixel(line_row(runs@, i, r), c) == bricks_overlay(
                    self.bricks,
                    self.bricks.x_positions@.len() as int,
                    old(canvas).stride as int,
                    old(canvas).spec_height(),
                    line_row(runs@, i, r),
                    c,
                    (if c < runs@[i].width {
                        spec_text_pixel(runs@[i].glyphs@, c, r)
                    } else {
                        BLANK
                    }),
                ),
    {
        let ghost sw = old(canvas).stride as int;
        let ghost sh = old(canvas).spec_height();
        let sw_px = canvas.width();
        let sh_px = canvas.height();
        let total = canvas.buffer.len();
        proof {
            assert(sh * sw == total);
        }
        canvas.fill(self.background_color);
        self.draw_ball(canvas);
        self.draw_paddle(canvas);
        proof {
            assert forall|r: int, c: int| 0 <= r < sh && 0 <= c < sw implies canvas.pixel(r, c)
                == spec_scene_base(*self, sw, sh, r, c) by {
                crate::canvas::lemma_row_col_index(sh, sw, r, c);
            }
        }
        let ghost after_base = *canvas;
        if self.debug_stats {
            if let Some(runs) = debug_runs {
                let _overlay_result = self.draw_debug_stats(canvas, runs);
            }
        }
        let ghost after_debug = *canvas;
        let bw = screen_extent_ceil(self.bricks.width, sw_px);
        let bh = screen_extent_ceil(self.bricks.height, sh_px);
        let n = self.bricks.x_positions.len();
        let mut i: usize = 0;
        while i < n
            invariant
                i <= n,
                n == self.bricks.x_positions@.len(),
                canvas.stride == old(canvas).stride,
                canvas.buffer@.len() == old(canvas).buffer@.len(),
                forall|r: int, c: int|
                    0 <= r < sh && 0 <= c < sw ==> canvas.pixel(r, c) == bricks_overlay(
                        self.bricks,
                        i as int,
                        sw,
                        sh,
                        r,
                        c,
                        after_debug.pixel(r, c),
                    ),
            decreases n - i,
        {
            let x_w = self.bricks.x_positions[i];
            let y_w = self.bricks.y_positions[i];
            let color = self.bricks.colors[i];
            let (x, y) = to_screen_coords(x_w, y_w, sw_px, sh_px);
            let ghost prev = *canvas;
            draw_rect(canvas, x, y, bw, bh, color);
            proof {
                assert forall|r: int, c: int| 0 <= r < sh && 0 <= c < sw implies canvas.pixel(r, c)
                    == bricks_overlay(
                    self.bricks,
                    i + 1,
                    sw,
                    sh,
                    r,
                    c,
                    after_debug.pixel(r, c),
                ) by {
                    assert(prev.pixel(r, c) == bricks_overlay(
                        self.bricks,
                        i as int,
                        sw,
                        sh,
                        r,
                        c,
                        after_debug.pixel(r, c),
                    ));
                }
            }
            i = i + 1;
        }
        proof {
            if self.debug_stats {
                match debug_runs {
                    Some(runs) => {
                        if debug_block_fits(*old(canvas), runs@) {
                            assert forall|i2: int, r2: int, c2: int|
                                0 <= i2 < runs@.len() && 0 <= r2 < runs@[i2].height && 0 <= c2
                                    < max_line_width(runs@) && line_row(runs@, i2, r2) < old(
                                    canvas,
                                ).spec_height() && c2 < old(canvas).stride implies #[trigger] canvas
                                .pixel(line_row(runs@, i2, r2), c2) == bricks_overlay(
                                self.bricks,
                                self.bricks.x_positions@.len() as int,
                                sw,
                                sh,
                                line_row(runs@, i2, r2),
                                c2,
                                (if c2 < runs@[i2].width {
                                    spec_text_pixel(runs@[i2].glyphs@, c2, r2)
                                } else {
                                    BLANK
                                }),
                            ) by {
                                crate::text::lemma_total_height_nonneg(runs@, i2);
                                assert(after_debug.pixel(line_row(runs@, i2, r2), c2) == (if c2
                                    < runs@[i2].width {
                                    spec_text_pixel(runs@[i2].glyphs@, c2, r2)
                                } else {
                                    BLANK
                                }));
                            }
                        }
                    },
                    None => {},
                }
            }
        }
    }
}

/// A world-unit extent in pixels, rounded down.
pub fn screen_extent(d: i64, dim: usize) -> (r: usize)
    requires
        0 <= d <= 2 * SCALE,
    ensures
        r == spec_screen_extent(d as int, dim as int),
        r <= dim,
{
    proof {
        assert(0 <= (d as int) * (dim as int) && (d as int) * (dim as int) <= (2 * SCALE as int) * (
        dim as int) && (d as int) * (dim as int) <= 2_000_000 * 0xFFFF_FFFF_FFFF_FFFF)
            by (nonlinear_arith)
            requires
                0 <= d <= 2 * SCALE as int,
                0 <= dim <= 0xFFFF_FFFF_FFFF_FFFFu64,
        ;
        lemma_multiply_divide_le((d as int) * (dim as int), 2 * SCALE as int, dim as int);
        lemma_div_pos_is_pos((d as int) * (dim as int), 2 * SCALE as int);
        assert((2 * SCALE as int) * (dim as int) == (dim as int) * (2 * SCALE as int))
            by (nonlinear_arith);
    }
    let f: u128 = (d as u128) * (dim as u128);
    (f / 2_000_000) as usize
}

/// A world-unit extent in pixels, rounded up.
pub fn screen_extent_ceil(d: i64, dim: usize) -> (r: usize)
    requires
        0 <= d <= 2 * SCALE,
    ensures
        r == spec_screen_extent_ceil(d as int, dim as int),
        r <= dim,
{
    proof {
        assert(0 <= (d as int) * (dim as int) && (d as int) * (dim as int) + 1_999_999 < (2
            * SCALE as int) * ((dim as int) + 1) && (d as int) * (dim as int) <= 2_000_000
            * 0xFFFF_FFFF_FFFF_FFFF) by (nonlinear_arith)
            requires
                0 <= d <= 2 * SCALE as int,
                0 <= dim <= 0xFFFF_FFFF_FFFF_FFFFu64,
        ;
        lemma_multiply_divide_lt(
            (d as int) * (dim as int) + 1_999_999,
            2 * SCALE as int,
            (dim as int) + 1,
        );
        lemma_div_pos_is_pos((d as int) * (dim as int) + 1_999_999, 2 * SCALE as int);
    }
    let f: u128 = (d as u128) * (dim as u128) + (2_000_000 - 1);
    (f / 2_000_000) as usize
}

} // verus!
