//! The text compositor: pastes pre-rasterized glyph coverage bitmaps into a
//! single-line bitmap, and stacks lines of differing widths into one block
//! with a uniform stride.
//!
//! The core never touches font files: a font collaborator shapes a string
//! into `Glyph` values (a coverage bitmap plus placement), and everything
//! from there on is plain pixel arithmetic.

use vstd::prelude::*;

verus! {

use crate::canvas::{Canvas, lemma_row_col_index, lemma_index_injective};

/// The background color of freshly allocated text bitmaps.
pub const BLANK: u32 = 0xFFFFFF;

/// A glyph's anti-aliasing coverage bitmap together with its placement
/// within the line, as handed over by the font collaborator.
pub struct Glyph {
    /// Column of the bitmap's left edge within the line (may be negative).
    pub min_x: i64,
    /// Row of the bitmap's top edge within the line (may be negative).
    pub min_y: i64,
    /// Bitmap width in pixels.
    pub width: usize,
    /// Bitmap height in pixels.
    pub height: usize,
    /// Row-major coverage values: `0` is uncovered, `255` fully covered.
    pub coverage: Vec<u8>,
}

impl Glyph {
    /// The coverage bitmap holds `height` full rows, and offsets and
    /// dimensions are small enough that positions never overflow.
    pub open spec fn wf(self) -> bool {
        &&& self.coverage@.len() == self.height * self.width
        &&& -0x8000_0000 <= self.min_x <= 0x8000_0000
        &&& -0x8000_0000 <= self.min_y <= 0x8000_0000
        &&& self.width <= 0x8000_0000
        &&& self.height <= 0x8000_0000
    }

    /// The glyph bitmap covers line position `(col, row)`.
    pub open spec fn covers(self, col: int, row: int) -> bool {
        self.min_x <= col < self.min_x + self.width && self.min_y <= row < self.min_y
            + self.height
    }

    /// The coverage value at line position `(col, row)`.
    pub open spec fn coverage_at(self, col: int, row: int) -> u8 {
        self.coverage@[(row - self.min_y) * self.width + (col - self.min_x)]
    }
}

/// The grayscale pixel for a coverage value: zero coverage leaves white,
/// full coverage paints black, replicated over the three channels.
pub open spec fn spec_grey(v: u8) -> u32 {
    (((255 - v) * 0x0001_0101) as u32)
}

/// The color of line pixel `(col, row)` after compositing `glyphs` in order
/// onto a blank background; a later glyph wins where bitmaps overlap.
pub open spec fn spec_text_pixel(glyphs: Seq<Glyph>, col: int, row: int) -> u32
    decreases glyphs.len(),
{
    if glyphs.len() == 0 {
        BLANK
    } else if glyphs.last().covers(col, row) {
        spec_grey(glyphs.last().coverage_at(col, row))
    } else {
        spec_text_pixel(glyphs.drop_last(), col, row)
    }
}

/// Rasterizes one pre-shaped line: composites each glyph's coverage bitmap
/// as grayscale onto a blank bitmap of the given dimensions, silently
/// clipping glyph pixels that fall outside it.
#[verifier::loop_isolation(false)]
pub fn compute_text_data(glyphs: &Vec<Glyph>, width: usize, height: usize) -> (out: Canvas)
    requires
        forall|i: int| 0 <= i < glyphs@.len() ==> glyphs@[i].wf(),
        width * height <= usize::MAX,
    ensures
        out.stride == width,
        out.buffer@.len() == width * height,
        out.wf(),
        forall|r: int, c: int|
            0 <= r < height && 0 <= c < width ==> out.pixel(r, c) == spec_text_pixel(
                glyphs@,
                c,
                r,
            ),
{
    let mut line = Canvas::new(width, height, BLANK);
    let total = line.buffer.len();
    proof {
        assert(height as int * width as int == total) by (nonlinear_arith)
            requires
                total == width as int * height as int,
        ;
        assert forall|r: int, c: int| 0 <= r < height && 0 <= c < width implies line.pixel(r, c)
            == spec_text_pixel(glyphs@.take(0), c, r) by {
            lemma_row_col_index(height as int, width as int, r, c);
            assert(glyphs@.take(0).len() == 0);
        }
    }
    let mut i: usize = 0;
    while i < glyphs.len()
        invariant
            i <= glyphs@.len(),
            line.stride == width,
            line.buffer@.len() == total,
            forall|r: int, c: int|
                0 <= r < height && 0 <= c < width ==> line.pixel(r, c) == spec_text_pixel(
                    glyphs@.take(i as int),
                    c,
                    r,
                ),
        decreases glyphs@.len() - i,
    {
        let g = &glyphs[i];
        let gw = g.width;
        let gh = g.height;
        let cov_len = g.coverage.len();
        proof {
            assert(g.wf());
            assert(gh as int * gw as int == cov_len);
        }
        let mut gy: usize = 0;
        while gy < gh
            invariant
                gy <= gh,
                line.stride == width,
                line.buffer@.len() == total,
                forall|r: int, c: int|
                    0 <= r < height && 0 <= c < width ==> line.pixel(r, c) == (if g.covers(c, r)
                        && r - g.min_y < gy {
                        spec_grey(g.coverage_at(c, r))
                    } else {
                        spec_text_pixel(glyphs@.take(i as int), c, r)
                    }),
            decreases gh - gy,
        {
            let mut gx: usize = 0;
            while gx < gw
                invariant
                    gy < gh,
                    gx <= gw,
                    line.stride == width,
                    line.buffer@.len() == total,
                    forall|r: int, c: int|
                        0 <= r < height && 0 <= c < width ==> line.pixel(r, c) == (if g.covers(
                            c,
                            r,
                        ) && (r - g.min_y < gy || (r - g.min_y == gy && c - g.min_x < gx)) {
                            spec_grey(g.coverage_at(c, r))
                        } else {
                            spec_text_pixel(glyphs@.take(i as int), c, r)
                        }),
                decreases gw - gx,
            {
                proof {
                    lemma_row_col_index(gh as int, gw as int, gy as int, gx as int);
                }
                let v = g.coverage[gy * gw + gx];
                let shade: u32 = (255 - (v as u32)) * 0x0001_0101;
                let px_i = g.min_x + (gx as i64);
                let py_i = g.min_y + (gy as i64);
                let ghost prev = line;
                if px_i >= 0 && py_i >= 0 && (px_i as u64) < (width as u64) && (py_i as u64) < (
                height as u64) {
                    let px = px_i as usize;
                    let py = py_i as usize;
                    proof {
                        lemma_row_col_index(height as int, width as int, py as int, px as int);
                    }
                    let idx = py * width + px;
                    line.buffer[idx] = shade;
                }
                proof {
                    assert forall|r: int, c: int| 0 <= r < height && 0 <= c < width implies line
                        .pixel(r, c) == (if g.covers(c, r) && (r - g.min_y < gy || (r - g.min_y
                        == gy && c - g.min_x < gx + 1)) {
                        spec_grey(g.coverage_at(c, r))
                    } else {
                        spec_text_pixel(glyphs@.take(i as int), c, r)
                    }) by {
                        lemma_row_col_index(height as int, width as int, r, c);
                        assert(prev.pixel(r, c) == (if g.covers(c, r) && (r - g.min_y < gy || (r
                            - g.min_y == gy && c - g.min_x < gx)) {
                            spec_grey(g.coverage_at(c, r))
                        } else {
                            spec_text_pixel(glyphs@.take(i as int), c, r)
                        }));
                        if c == px_i && r == py_i {
                            assert(g.coverage_at(c, r) == v);
                        } else {
                            if px_i >= 0 && py_i >= 0 && px_i < width && py_i < height && r * width
                                + c == py_i * width + px_i {
                                lemma_index_injective(width as int, r, c, py_i as int, px_i as int);
                                assert(false);
                            }
                            assert(line.pixel(r, c) == prev.pixel(r, c));
                        }
                    }
                }
                gx = gx + 1;
            }
        gy = gy + 1;
        }
        proof {
            assert(glyphs@.take(i + 1).drop_last() =~= glyphs@.take(i as int));
            assert(glyphs@.take(i + 1).last() == glyphs@[i as int]);
            assert forall|r: int, c: int| 0 <= r < height && 0 <= c < width implies line.pixel(
                r,
                c,
            ) == spec_text_pixel(glyphs@.take(i + 1), c, r) by {
                if g.covers(c, r) {
                    assert(r - g.min_y < gh);
                }
            }
        }
        i = i + 1;
    }
    proof {
        assert(glyphs@.take(glyphs@.len() as int) =~= glyphs@);
    }
    line
}

/// A pre-shaped single line of text: its glyphs and the line bitmap's
/// dimensions, as computed by the font collaborator.
pub struct GlyphRun {
    /// The glyphs of the line, in drawing order.
    pub glyphs: Vec<Glyph>,
    /// Line bitmap width: the line's total advance width in pixels.
    pub width: usize,
    /// Line bitmap height in pixels.
    pub height: usize,
}

impl GlyphRun {
    /// Every glyph is well-formed and the line bitmap fits in memory.
    pub open spec fn wf(self) -> bool {
        &&& forall|i: int| 0 <= i < self.glyphs@.len() ==> (#[trigger] self.glyphs@[i]).wf()
        &&& self.width * self.height <= usize::MAX
    }
}

/// The widest line width among `runs`.
pub open spec fn max_line_width(runs: Seq<GlyphRun>) -> int
    decreases runs.len(),
{
    if runs.len() == 0 {
        0
    } else {
        let rest = max_line_width(runs.drop_last());
        if runs.last().width >= rest {
            runs.last().width as int
        } else {
            rest
        }
    }
}

/// The sum of the line heights of `runs`.
pub open spec fn total_height(runs: Seq<GlyphRun>) -> int
    decreases runs.len(),
{
    if runs.len() == 0 {
        0
    } else {
        total_height(runs.drop_last()) + runs.last().height
    }
}

pub proof fn lemma_total_height_step(runs: Seq<GlyphRun>, i: int)
    requires
        0 <= i < runs.len(),
    ensures
        total_height(runs.take(i + 1)) == total_height(runs.take(i)) + runs[i].height,
{
    assert(runs.take(i + 1).drop_last() =~= runs.take(i));
    assert(runs.take(i + 1).last() == runs[i]);
}

pub proof fn lemma_total_height_mono(runs: Seq<GlyphRun>, i: int, j: int)
    requires
        0 <= i <= j <= runs.len(),
    ensures
        total_height(runs.take(i)) <= total_height(runs.take(j)),
    decreases j - i,
{
    if i < j {
        lemma_total_height_mono(runs, i, j - 1);
        lemma_total_height_step(runs, j - 1);
    }
}

pub proof fn lemma_total_height_nonneg(runs: Seq<GlyphRun>, i: int)
    requires
        0 <= i <= runs.len(),
    ensures
        0 <= total_height(runs.take(i)),
{
    assert(runs.take(0) =~= Seq::<GlyphRun>::empty());
    lemma_total_height_mono(runs, 0, i);
}

/// The output row at which row `r` of line `i` lands: the heights of the
/// lines above it, plus `r`.
pub open spec fn line_row(runs: Seq<GlyphRun>, i: int, r: int) -> int {
    total_height(runs.take(i)) + r
}

/// Stacks the rasterized lines of `runs` top-to-bottom into one bitmap:
/// every line is right-padded with the blank background color up to the
/// widest line's width, so all rows share one stride.
#[verifier::loop_isolation(false)]
pub fn compute_multiline_text_data(runs: &Vec<GlyphRun>) -> (out: Canvas)
    requires
        forall|i: int| 0 <= i < runs@.len() ==> (#[trigger] runs@[i]).wf(),
        total_height(runs@) * max_line_width(runs@) <= usize::MAX,
    ensures
        out.stride == max_line_width(runs@),
        out.buffer@.len() == total_height(runs@) * max_line_width(runs@),
        out.wf(),
        forall|i: int, r: int, c: int|
            0 <= i < runs@.len() && 0 <= r < runs@[i].height && 0 <= c < max_line_width(runs@)
                ==> #[trigger] out.pixel(line_row(runs@, i, r), c) == (if c < runs@[i].width {
                spec_text_pixel(runs@[i].glyphs@, c, r)
            } else {
                BLANK
            }),
{
    let n = runs.len();
    // Rasterize each line independently.
    let mut lines: Vec<Canvas> = Vec::new();
    let mut i: usize = 0;
    while i < n
        invariant
            i <= n,
            lines@.len() == i,
            forall|j: int|
                0 <= j < i ==> (#[trigger] lines@[j]).stride == runs@[j].width
                    && lines@[j].buffer@.len() == runs@[j].width * runs@[j].height && forall|
                    r: int,
                    c: int,
                |
                    0 <= r < runs@[j].height && 0 <= c < runs@[j].width ==> lines@[j].pixel(r, c)
                        == spec_text_pixel(runs@[j].glyphs@, c, r),
        decreases n - i,
    {
        let run = &runs[i];
        let line = compute_text_data(&run.glyphs, run.width, run.height);
        lines.push(line);
        i = i + 1;
    }
    // The shared stride of the output block.
    let mut max_stride: usize = 0;
    let mut k: usize = 0;
    while k < n
        invariant
            k <= n,
            max_stride == max_line_width(runs@.take(k as int)),
        decreases n - k,
    {
        proof {
            assert(runs@.take(k + 1).drop_last() =~= runs@.take(k as int));
            assert(runs@.take(k + 1).last() == runs@[k as int]);
        }
        if runs[k].width > max_stride {
            max_stride = runs[k].width;
        }
        k = k + 1;
    }
    proof {
        assert(runs@.take(n as int) =~= runs@);
    }
    // Concatenate the lines, padding each row up to the shared stride.
    let ms = max_stride;
    let mut buffer: Vec<u32> = Vec::new();
    let mut li: usize = 0;
    while li < n
        invariant
            li <= n,
            buffer@.len() == total_height(runs@.take(li as int)) * ms,
            forall|i2: int, r2: int, c2: int|
                0 <= i2 < li && 0 <= r2 < runs@[i2].height && 0 <= c2 < ms ==> #[trigger] buffer@[(
                total_height(runs@.take(i2)) + r2) * ms + c2] == (if c2 < runs@[i2].width {
                    spec_text_pixel(runs@[i2].glyphs@, c2, r2)
                } else {
                    BLANK
                }),
        decreases n - li,
    {
        let run_h = runs[li].height;
        let run_w = runs[li].width;
        let line = &lines[li];
        let llen = line.buffer.len();
        let ghost th_i = total_height(runs@.take(li as int));
        proof {
            lemma_total_height_nonneg(runs@, li as int);
            assert(run_h as int * run_w as int == llen) by (nonlinear_arith)
                requires
                    llen == run_w as int * run_h as int,
            ;
        }
        let mut r: usize = 0;
        while r < run_h
            invariant
                r <= run_h,
                buffer@.len() == (th_i + r) * ms,
                forall|i2: int, r2: int, c2: int|
                    0 <= i2 < li && 0 <= r2 < runs@[i2].height && 0 <= c2 < ms
                        ==> #[trigger] buffer@[(total_height(runs@.take(i2)) + r2) * ms + c2] == (
                    if c2 < runs@[i2].width {
                        spec_text_pixel(runs@[i2].glyphs@, c2, r2)
                    } else {
                        BLANK
                    }),
                forall|r2: int, c2: int|
                    0 <= r2 < r && 0 <= c2 < ms ==> #[trigger] buffer@[(th_i + r2) * ms + c2] == (
                    if c2 < run_w {
                        spec_text_pixel(runs@[li as int].glyphs@, c2, r2)
                    } else {
                        BLANK
                    }),
            decreases run_h - r,
        {
            let mut c: usize = 0;
            while c < ms
                invariant
                    r < run_h,
                    c <= ms,
                    buffer@.len() == (th_i + r) * ms + c,
                    forall|i2: int, r2: int, c2: int|
                        0 <= i2 < li && 0 <= r2 < runs@[i2].height && 0 <= c2 < ms
                            ==> #[trigger] buffer@[(total_height(runs@.take(i2)) + r2) * ms + c2]
                            == (if c2 < runs@[i2].width {
                            spec_text_pixel(runs@[i2].glyphs@, c2, r2)
                        } else {
                            BLANK
                        }),
                    forall|r2: int, c2: int|
                        0 <= r2 < r && 0 <= c2 < ms ==> #[trigger] buffer@[(th_i + r2) * ms + c2]
                            == (if c2 < run_w {
                            spec_text_pixel(runs@[li as int].glyphs@, c2, r2)
                        } else {
                            BLANK
                        }),
                    forall|c2: int|
                        0 <= c2 < c ==> #[trigger] buffer@[(th_i + r) * ms + c2] == (if c2 < run_w {
                            spec_text_pixel(runs@[li as int].glyphs@, c2, r as int)
                        } else {
                            BLANK
                        }),
                decreases ms - c,
            {
                let value: u32 = if c < run_w {
                    proof {
                        lemma_row_col_index(run_h as int, run_w as int, r as int, c as int);
                    }
                    line.buffer[r * run_w + c]
                } else {
                    BLANK
                };
                buffer.push(value);
                proof {
                    let rcur = th_i + r;
                    if c < run_w {
                        assert(lines@[li as int].pixel(r as int, c as int) == spec_text_pixel(
                            runs@[li as int].glyphs@,
                            c as int,
                            r as int,
                        ));
                        assert(value == lines@[li as int].pixel(r as int, c as int));
                    }
                    assert(buffer@[rcur * ms + c] == value);
                    assert forall|i2: int, r2: int, c2: int|
                        0 <= i2 < li && 0 <= r2 < runs@[i2].height && 0 <= c2 < ms implies #[trigger] buffer@[(
                        total_height(runs@.take(i2)) + r2) * ms + c2] == (if c2 < runs@[i2].width {
                        spec_text_pixel(runs@[i2].glyphs@, c2, r2)
                    } else {
                        BLANK
                    }) by {
                        lemma_total_height_nonneg(runs@, i2);
                        lemma_total_height_step(runs@, i2);
                        lemma_total_height_mono(runs@, i2 + 1, li as int);
                        let rold = total_height(runs@.take(i2)) + r2;
                        assert(rold * ms + c2 < rcur * ms + c) by (nonlinear_arith)
                            requires
                                0 <= rold < rcur,
                                0 <= c2 < ms,
                                0 <= c,
                        ;
                    }
                    assert forall|r2: int, c2: int| 0 <= r2 < r && 0 <= c2 < ms implies #[trigger] buffer@[(
                    th_i + r2) * ms + c2] == (if c2 < run_w {
                        spec_text_pixel(runs@[li as int].glyphs@, c2, r2)
                    } else {
                        BLANK
                    }) by {
                        let rold = th_i + r2;
                        assert(rold * ms + c2 < rcur * ms + c) by (nonlinear_arith)
                            requires
                                0 <= rold < rcur,
                                0 <= c2 < ms,
                                0 <= c,
                        ;
                    }
                }
                c = c + 1;
            }
            proof {
                assert((th_i + r) * ms + ms == (th_i + r + 1) * ms) by (nonlinear_arith);
            }
            r = r + 1;
        }
        proof {
            lemma_total_height_step(runs@, li as int);
            assert((th_i + run_h) * ms == total_height(runs@.take(li + 1)) * ms);
        }
        li = li + 1;
    }
    let out = Canvas { buffer, stride: ms };
    proof {
        assert(runs@.take(n as int) =~= runs@);
        let th = total_height(runs@);
        lemma_total_height_nonneg(runs@, n as int);
        if ms > 0 {
            vstd::arithmetic::div_mod::lemma_div_multiples_vanish(th, ms as int);
            assert(th * ms as int == ms as int * th) by (nonlinear_arith);
        } else {
            assert(out.buffer@.len() == th * 0);
            assert(th * 0 == 0) by (nonlinear_arith);
        }
        assert forall|i2: int, r2: int, c2: int|
            0 <= i2 < runs@.len() && 0 <= r2 < runs@[i2].height && 0 <= c2 < max_line_width(runs@)
                implies #[trigger] out.pixel(line_row(runs@, i2, r2), c2) == (if c2
            < runs@[i2].width {
            spec_text_pixel(runs@[i2].glyphs@, c2, r2)
        } else {
            BLANK
        }) by {
            assert(buffer@[(total_height(runs@.take(i2)) + r2) * ms + c2] == (if c2
                < runs@[i2].width {
                spec_text_pixel(runs@[i2].glyphs@, c2, r2)
            } else {
                BLANK
            }));
        }
    }
    out
}

} // verus!
