//! The rasterization target: a rectangular buffer of packed `0xRRGGBB`
//! pixels with a row stride, and filled-shape primitives.
//!
//! `draw_rect` and `draw_circle` clip against the canvas bounds, so a shape
//! that leaves the canvas is silently cut off rather than corrupting memory;
//! `draw_subcanvas` instead reports a source bitmap that does not fit.

use vstd::prelude::*;

verus! {

/// Failure of a rasterization operation that reports rather than clips.
#[derive(Clone, Copy, PartialEq, Eq, Debug)]
pub enum RasterError {
    /// The source bitmap does not fit inside the target at the given offset.
    OutOfBounds,
}

/// An addressable rectangular buffer of packed-RGB pixels.
pub struct Canvas {
    /// Row-major pixel data; row `r`, column `c` is `buffer[r * stride + c]`.
    pub buffer: Vec<u32>,
    /// Pixels per row.
    pub stride: usize,
}

/// A row/column index pair lies inside a buffer of full rows.
pub proof fn lemma_row_col_index(height: int, stride: int, r: int, c: int)
    requires
        0 <= r < height,
        0 <= c < stride,
    ensures
        0 <= r * stride + c,
        r * stride + c < height * stride,
{
    assert(0 <= r * stride + c && r * stride + c < height * stride) by (nonlinear_arith)
        requires
            0 <= r < height,
            0 <= c < stride,
    ;
}

/// Distinct in-row positions have distinct flat indices.
pub proof fn lemma_index_injective(stride: int, r1: int, c1: int, r2: int, c2: int)
    requires
        0 <= c1 < stride,
        0 <= c2 < stride,
        r1 * stride + c1 == r2 * stride + c2,
    ensures
        r1 == r2,
        c1 == c2,
{
    assert(r1 == r2 && c1 == c2) by (nonlinear_arith)
        requires
            0 <= c1 < stride,
            0 <= c2 < stride,
            r1 * stride + c1 == r2 * stride + c2,
    ;
}

impl Canvas {
    /// Number of pixel rows: the buffer length divided by the stride
    /// (zero for an empty canvas).
    pub open spec fn spec_height(self) -> int {
        if self.stride == 0 {
            0
        } else {
            self.buffer@.len() as int / self.stride as int
        }
    }

    /// The buffer holds exactly `spec_height()` full rows.
    pub open spec fn wf(self) -> bool {
        self.buffer@.len() == self.spec_height() * self.stride
    }

    /// The pixel at row `r`, column `c`.
    pub open spec fn pixel(self, r: int, c: int) -> u32 {
        self.buffer@[r * self.stride + c]
    }

    /// A canvas of the given dimensions with every pixel set to `color`.
    pub fn new(width: usize, height: usize, color: u32) -> (c: Canvas)
        requires
            width * height <= usize::MAX,
        ensures
            c.stride == width,
            c.buffer@.len() == width * height,
            c.spec_height() == if width == 0 { 0int } else { height as int },
            c.wf(),
            forall|i: int| 0 <= i < c.buffer@.len() ==> c.buffer@[i] == color,
    {
        let n = width * height;
        let buffer = vec![color; n];
        let result = Canvas { buffer, stride: width };
        proof {
            if width > 0 {
                vstd::arithmetic::div_mod::lemma_div_multiples_vanish(
                    height as int,
                    width as int,
                );
                assert(width as int * height as int == height as int * width as int)
                    by (nonlinear_arith);
            }
        }
        result
    }

    /// The canvas width in pixels.
    pub fn width(&self) -> (w: usize)
        ensures
            w == self.stride,
    {
        self.stride
    }

    /// The canvas height in pixels.
    pub fn height(&self) -> (h: usize)
        ensures
            h == self.spec_height(),
    {
        if self.stride == 0 {
            0
        } else {
            self.buffer.len() / self.stride
        }
    }

    /// Sets every pixel to `color`.
    #[verifier::loop_isolation(false)]
    pub fn fill(&mut self, color: u32)
        ensures
            final(self).stride == old(self).stride,
            final(self).buffer@.len() == old(self).buffer@.len(),
            forall|i: int|
                0 <= i < final(self).buffer@.len() ==> final(self).buffer@[i] == color,
    {
        let n = self.buffer.len();
        let mut i: usize = 0;
        while i < n
            invariant
                i <= n,
                self.buffer@.len() == n,
                self.stride == old(self).stride,
                forall|j: int| 0 <= j < i ==> self.buffer@[j] == color,
            decreases n - i,
        {
            self.buffer[i] = color;
            i = i + 1;
        }
    }
}

/// `(r, c)` lies in the axis-aligned rectangle anchored at `(x, y)`.
pub open spec fn rect_covers(x: int, y: int, width: int, height: int, r: int, c: int) -> bool {
    x <= c < x + width && y <= r < y + height
}

/// Fills the rectangle `[x, x + width) x [y, y + height)` with `color`,
/// clipped to the canvas.
#[verifier::loop_isolation(false)]
pub fn draw_rect(canvas: &mut Canvas, x: usize, y: usize, width: usize, height: usize, color: u32)
    requires
        old(canvas).wf(),
        x + width <= usize::MAX,
        y + height <= usize::MAX,
    ensures
        final(canvas).stride == old(canvas).stride,
        final(canvas).buffer@.len() == old(canvas).buffer@.len(),
        final(canvas).wf(),
        forall|r: int, c: int|
            0 <= r < old(canvas).spec_height() && 0 <= c < old(canvas).stride
                ==> final(canvas).pixel(r, c) == (if rect_covers(
                x as int,
                y as int,
                width as int,
                height as int,
                r,
                c,
            ) {
                color
            } else {
                old(canvas).pixel(r, c)
            }),
{
    let ch = canvas.height();
    let stride = canvas.stride;
    let total = canvas.buffer.len();
    proof {
        assert(ch as int * stride as int == total);
    }
    let row_end: usize = if y + height < ch { y + height } else { ch };
    let col_end: usize = if x + width < stride { x + width } else { stride };
    let mut row = y;
    while row < row_end
        invariant
            y <= row,
            canvas.stride == old(canvas).stride,
            canvas.buffer@.len() == total,
            forall|r: int, c: int|
                0 <= r < ch && 0 <= c < stride ==> canvas.pixel(r, c) == (if rect_covers(
                    x as int,
                    y as int,
                    width as int,
                    height as int,
                    r,
                    c,
                ) && r < row {
                    color
                } else {
                    old(canvas).pixel(r, c)
                }),
        decreases row_end - row,
    {
        let mut col = x;
        while col < col_end
            invariant
                y <= row < row_end,
                x <= col,
                canvas.stride == old(canvas).stride,
                canvas.buffer@.len() == total,
                forall|r: int, c: int|
                    0 <= r < ch && 0 <= c < stride ==> canvas.pixel(r, c) == (if rect_covers(
                        x as int,
                        y as int,
                        width as int,
                        height as int,
                        r,
                        c,
                    ) && (r < row || (r == row && c < col)) {
                        color
                    } else {
                        old(canvas).pixel(r, c)
                    }),
            decreases col_end - col,
        {
            proof {
                assert(ch as int * stride as int == canvas.buffer@.len());
                lemma_row_col_index(ch as int, stride as int, row as int, col as int);
            }
            let idx = row * stride + col;
            let ghost prev = *canvas;
            canvas.buffer[idx] = color;
            proof {
                assert(canvas.buffer@ == prev.buffer@.update(idx as int, color));
                assert forall|r: int, c: int| 0 <= r < ch && 0 <= c < stride implies canvas.pixel(
                    r,
                    c,
                ) == (if rect_covers(x as int, y as int, width as int, height as int, r, c) && (r
                    < row || (r == row && c < col + 1)) {
                    color
                } else {
                    old(canvas).pixel(r, c)
                }) by {
                    lemma_row_col_index(ch as int, stride as int, r, c);
                    assert(prev.pixel(r, c) == (if rect_covers(
                        x as int,
                        y as int,
                        width as int,
                        height as int,
                        r,
                        c,
                    ) && (r < row || (r == row && c < col)) {
                        color
                    } else {
                        old(canvas).pixel(r, c)
                    }));
                    if r * stride + c == idx {
                        lemma_index_injective(stride as int, r, c, row as int, col as int);
                        assert(canvas.pixel(r, c) == color);
                    } else {
                        assert(canvas.pixel(r, c) == prev.pixel(r, c));
                    }
                }
            }
            col = col + 1;
        }
        row = row + 1;
    }
}

/// `(r, c)` lies inside the filled circle of the given diameter whose
/// bounding square is anchored at `(x, y)`: the squared distance from the
/// square's center is at most the squared radius.
pub open spec fn circle_covers(x: int, y: int, diameter: int, r: int, c: int) -> bool {
    let radius = diameter / 2;
    let cx = x + radius;
    let cy = y + radius;
    x <= c < x + diameter && y <= r < y + diameter && (cx - c) * (cx - c) + (cy - r) * (cy - r)
        <= radius * radius
}

/// Fills the circle of the given diameter whose bounding square is anchored
/// at `(x, y)` with `color`, clipped to the canvas.
#[verifier::loop_isolation(false)]
pub fn draw_circle(canvas: &mut Canvas, x: usize, y: usize, diameter: usize, color: u32)
    requires
        old(canvas).wf(),
        x + diameter <= usize::MAX,
        y + diameter <= usize::MAX,
        diameter <= 0xFFFF_FFFF,
    ensures
        final(canvas).stride == old(canvas).stride,
        final(canvas).buffer@.len() == old(canvas).buffer@.len(),
        final(canvas).wf(),
        forall|r: int, c: int|
            0 <= r < old(canvas).spec_height() && 0 <= c < old(canvas).stride
                ==> final(canvas).pixel(r, c) == (if circle_covers(
                x as int,
                y as int,
                diameter as int,
                r,
                c,
            ) {
                color
            } else {
                old(canvas).pixel(r, c)
            }),
{
    let ch = canvas.height();
    let stride = canvas.stride;
    let total = canvas.buffer.len();
    proof {
        assert(ch as int * stride as int == total);
    }
    let radius = diameter / 2;
    let center_x = x + radius;
    let center_y = y + radius;
    let row_end: usize = if y + diameter < ch { y + diameter } else { ch };
    let col_end: usize = if x + diameter < stride { x + diameter } else { stride };
    let mut row = y;
    while row < row_end
        invariant
            y <= row,
            canvas.stride == old(canvas).stride,
            canvas.buffer@.len() == total,
            forall|r: int, c: int|
                0 <= r < ch && 0 <= c < stride ==> canvas.pixel(r, c) == (if circle_covers(
                    x as int,
                    y as int,
                    diameter as int,
                    r,
                    c,
                ) && r < row {
                    color
                } else {
                    old(canvas).pixel(r, c)
                }),
        decreases row_end - row,
    {
        let mut col = x;
        while col < col_end
            invariant
                y <= row < row_end,
                x <= col,
                canvas.stride == old(canvas).stride,
                canvas.buffer@.len() == total,
                forall|r: int, c: int|
                    0 <= r < ch && 0 <= c < stride ==> canvas.pixel(r, c) == (if circle_covers(
                        x as int,
                        y as int,
                        diameter as int,
                        r,
                        c,
                    ) && (r < row || (r == row && c < col)) {
                        color
                    } else {
                        old(canvas).pixel(r, c)
                    }),
            decreases col_end - col,
        {
            let delta_x: usize = if center_x >= col { center_x - col } else { col - center_x };
            let delta_y: usize = if center_y >= row { center_y - row } else { row - center_y };
            proof {
                assert((delta_x as int) * (delta_x as int) == (center_x as int - col as int) * (
                center_x as int - col as int) && (delta_y as int) * (delta_y as int) == (
                center_y as int - row as int) * (center_y as int - row as int))
                    by (nonlinear_arith)
                    requires
                        delta_x == if center_x >= col {
                            center_x - col as int
                        } else {
                            col - center_x as int
                        },
                        delta_y == if center_y >= row {
                            center_y - row as int
                        } else {
                            row - center_y as int
                        },
                ;
            }
            proof {
                assert(delta_x <= diameter && delta_y <= diameter && radius <= diameter);
                assert((delta_x as int) * (delta_x as int) < 0x1_0000_0000_0000_0000
                    && (delta_y as int) * (delta_y as int) < 0x1_0000_0000_0000_0000
                    && (radius as int) * (radius as int) < 0x1_0000_0000_0000_0000)
                    by (nonlinear_arith)
                    requires
                        0 <= delta_x < 0x1_0000_0000,
                        0 <= delta_y < 0x1_0000_0000,
                        0 <= radius < 0x1_0000_0000,
                ;
            }
            let dist_sq: u128 = (delta_x as u128) * (delta_x as u128) + (delta_y as u128) * (
            delta_y as u128);
            let radius_sq: u128 = (radius as u128) * (radius as u128);
            let ghost prev = *canvas;
            if dist_sq <= radius_sq {
                proof {
                    lemma_row_col_index(ch as int, stride as int, row as int, col as int);
                }
                let idx = row * stride + col;
                canvas.buffer[idx] = color;
            }
            proof {
                assert forall|r: int, c: int| 0 <= r < ch && 0 <= c < stride implies canvas.pixel(
                    r,
                    c,
                ) == (if circle_covers(x as int, y as int, diameter as int, r, c) && (r < row || (r
                    == row && c < col + 1)) {
                    color
                } else {
                    old(canvas).pixel(r, c)
                }) by {
                    lemma_row_col_index(ch as int, stride as int, r, c);
                    assert(prev.pixel(r, c) == (if circle_covers(
                        x as int,
                        y as int,
                        diameter as int,
                        r,
                        c,
                    ) && (r < row || (r == row && c < col)) {
                        color
                    } else {
                        old(canvas).pixel(r, c)
                    }));
                    if r * stride + c == row as int * stride as int + col as int {
                        lemma_index_injective(stride as int, r, c, row as int, col as int);
                    } else {
                        assert(canvas.pixel(r, c) == prev.pixel(r, c));
                    }
                }
            }
            col = col + 1;
        }
        row = row + 1;
    }
}

/// The source bitmap fits inside the destination at the given offset
/// (a source with no rows always fits: there is nothing to copy).
pub open spec fn sub_fits(dst: Canvas, src: Canvas, offset_x: int, offset_y: int) -> bool {
    src.spec_height() == 0 || (offset_x + src.stride <= dst.stride && offset_y + src.spec_height()
        <= dst.spec_height())
}

/// Copies `subcanvas` into `canvas` with its top-left corner at `pos`,
/// or reports `OutOfBounds` (leaving the canvas untouched) if it does not fit.
#[verifier::loop_isolation(false)]
pub fn draw_subcanvas(canvas: &mut Canvas, subcanvas: &Canvas, pos: (usize, usize)) -> (res: Result<
    (),
    RasterError,
>)
    requires
        old(canvas).wf(),
        subcanvas.wf(),
    ensures
        final(canvas).stride == old(canvas).stride,
        final(canvas).buffer@.len() == old(canvas).buffer@.len(),
        final(canvas).wf(),
        res is Ok <==> sub_fits(*old(canvas), *subcanvas, pos.0 as int, pos.1 as int),
        res is Err ==> *final(canvas) == *old(canvas),
        res is Ok ==> forall|r: int, c: int|
            0 <= r < old(canvas).spec_height() && 0 <= c < old(canvas).stride
                ==> final(canvas).pixel(r, c) == (if pos.1 <= r < pos.1 + subcanvas.spec_height()
                && pos.0 <= c < pos.0 + subcanvas.stride {
                subcanvas.pixel(r - pos.1, c - pos.0)
            } else {
                old(canvas).pixel(r, c)
            }),
{
    let (offset_x, offset_y) = pos;
    let sub_h = subcanvas.height();
    let sub_stride = subcanvas.stride;
    if sub_h == 0 {
        return Ok(());
    }
    let ch = canvas.height();
    let stride = canvas.stride;
    let total = canvas.buffer.len();
    let sub_total = subcanvas.buffer.len();
    proof {
        assert(ch as int * stride as int == total);
        assert(subcanvas.spec_height() * sub_stride as int == sub_total);
    }
    if offset_x > stride || sub_stride > stride - offset_x || offset_y > ch || sub_h > ch
        - offset_y {
        return Err(RasterError::OutOfBounds);
    }
    let mut r: usize = 0;
    while r < sub_h
        invariant
            r <= sub_h,
            canvas.stride == old(canvas).stride,
            canvas.buffer@.len() == total,
            forall|rr: int, cc: int|
                0 <= rr < ch && 0 <= cc < stride ==> canvas.pixel(rr, cc) == (if offset_y <= rr
                    < offset_y + r && offset_x <= cc < offset_x + sub_stride {
                    subcanvas.pixel(rr - offset_y, cc - offset_x)
                } else {
                    old(canvas).pixel(rr, cc)
                }),
        decreases sub_h - r,
    {
        let mut c: usize = 0;
        while c < sub_stride
            invariant
                r < sub_h,
                c <= sub_stride,
                canvas.stride == old(canvas).stride,
                canvas.buffer@.len() == total,
                forall|rr: int, cc: int|
                    0 <= rr < ch && 0 <= cc < stride ==> canvas.pixel(rr, cc) == (if (offset_y <= rr
                        < offset_y + r && offset_x <= cc < offset_x + sub_stride) || (rr == offset_y
                        + r && offset_x <= cc < offset_x + c) {
                        subcanvas.pixel(rr - offset_y, cc - offset_x)
                    } else {
                        old(canvas).pixel(rr, cc)
                    }),
            decreases sub_stride - c,
        {
            proof {
                assert(subcanvas.spec_height() * sub_stride as int == subcanvas.buffer@.len());
                assert(ch as int * stride as int == canvas.buffer@.len());
                lemma_row_col_index(subcanvas.spec_height(), sub_stride as int, r as int, c as int);
                lemma_row_col_index(
                    ch as int,
                    stride as int,
                    offset_y + r as int,
                    offset_x + c as int,
                );
            }
            let src_idx = r * sub_stride + c;
            let dst_idx = (offset_y + r) * stride + (offset_x + c);
            let value = subcanvas.buffer[src_idx];
            let ghost prev = *canvas;
            canvas.buffer[dst_idx] = value;
            proof {
                assert(canvas.buffer@ == prev.buffer@.update(dst_idx as int, value));
                assert forall|rr: int, cc: int| 0 <= rr < ch && 0 <= cc < stride implies canvas
                    .pixel(rr, cc) == (if (offset_y <= rr < offset_y + r && offset_x <= cc
                    < offset_x + sub_stride) || (rr == offset_y + r && offset_x <= cc < offset_x + c
                    + 1) {
                    subcanvas.pixel(rr - offset_y, cc - offset_x)
                } else {
                    old(canvas).pixel(rr, cc)
                }) by {
                    lemma_row_col_index(ch as int, stride as int, rr, cc);
                    assert(prev.pixel(rr, cc) == (if (offset_y <= rr < offset_y + r && offset_x
                        <= cc < offset_x + sub_stride) || (rr == offset_y + r && offset_x <= cc
                        < offset_x + c) {
                        subcanvas.pixel(rr - offset_y, cc - offset_x)
                    } else {
                        old(canvas).pixel(rr, cc)
                    }));
                    if rr * stride + cc == dst_idx {
                        lemma_index_injective(
                            stride as int,
                            rr,
                            cc,
                            offset_y + r as int,
                            offset_x + c as int,
                        );
                    } else {
                        assert(canvas.pixel(rr, cc) == prev.pixel(rr, cc));
                    }
                }
            }
            c = c + 1;
        }
        r = r + 1;
    }
    Ok(())
}

} // verus!
