use breakrs::canvas::{draw_circle, draw_rect, draw_subcanvas, Canvas, RasterError};
use breakrs::draw::{screen_extent, screen_extent_ceil, to_screen_coords};
use breakrs::state::{GameState, CYAN, MAGENTA, YELLOW};
use breakrs::text::{compute_multiline_text_data, compute_text_data, Glyph, GlyphRun};

const BLANK: u32 = 0xFFFFFF;

fn pixel(c: &Canvas, r: usize, col: usize) -> u32 {
    c.buffer[r * c.stride + col]
}

#[test]
fn canvas_new_fill_dimensions() {
    let mut c = Canvas::new(4, 3, 0xABCDEF);
    assert_eq!(c.width(), 4);
    assert_eq!(c.height(), 3);
    assert_eq!(c.buffer.len(), 12);
    assert!(c.buffer.iter().all(|&p| p == 0xABCDEF));
    c.fill(7);
    assert!(c.buffer.iter().all(|&p| p == 7));
}

#[test]
fn canvas_empty_dimensions() {
    let c = Canvas::new(0, 5, 0);
    assert_eq!(c.width(), 0);
    assert_eq!(c.height(), 0);
    assert_eq!(c.buffer.len(), 0);
}

#[test]
fn draw_rect_fills_exact_region() {
    let mut c = Canvas::new(4, 4, 0);
    draw_rect(&mut c, 1, 2, 2, 1, 9);
    for r in 0..4 {
        for col in 0..4 {
            let expected = if r == 2 && (col == 1 || col == 2) { 9 } else { 0 };
            assert_eq!(pixel(&c, r, col), expected, "row {r} col {col}");
        }
    }
}

#[test]
fn draw_rect_clips_at_canvas_edge() {
    let mut c = Canvas::new(3, 3, 0);
    draw_rect(&mut c, 2, 2, 5, 5, 4);
    for r in 0..3 {
        for col in 0..3 {
            let expected = if r == 2 && col == 2 { 4 } else { 0 };
            assert_eq!(pixel(&c, r, col), expected);
        }
    }
}

#[test]
fn draw_circle_diameter_three_is_a_plus_shape() {
    // Radius 1, center at (x+1, y+1): the pixels within squared distance 1
    // form a plus sign.
    let mut c = Canvas::new(5, 5, 0);
    draw_circle(&mut c, 1, 1, 3, 5);
    let lit = [(1usize, 2usize), (2, 1), (2, 2), (2, 3), (3, 2)];
    for r in 0..5 {
        for col in 0..5 {
            let expected = if lit.contains(&(r, col)) { 5 } else { 0 };
            assert_eq!(pixel(&c, r, col), expected, "row {r} col {col}");
        }
    }
}

#[test]
fn draw_circle_clips_at_canvas_edge() {
    let mut c = Canvas::new(3, 3, 0);
    // Bounding square sticks out on the right and bottom; no panic, and
    // only in-canvas pixels change.
    draw_circle(&mut c, 1, 1, 3, 5);
    assert_eq!(pixel(&c, 1, 2), 5);
    assert_eq!(pixel(&c, 2, 1), 5);
    assert_eq!(pixel(&c, 2, 2), 5);
    assert_eq!(pixel(&c, 0, 0), 0);
    assert_eq!(pixel(&c, 1, 1), 0);
}

#[test]
fn draw_subcanvas_copies_at_offset() {
    let mut dst = Canvas::new(4, 4, 0);
    let src = Canvas::new(2, 2, 8);
    let res = draw_subcanvas(&mut dst, &src, (1, 2));
    assert_eq!(res, Ok(()));
    for r in 0..4 {
        for col in 0..4 {
            let expected = if (r == 2 || r == 3) && (col == 1 || col == 2) { 8 } else { 0 };
            assert_eq!(pixel(&dst, r, col), expected);
        }
    }
}

#[test]
fn draw_subcanvas_reports_out_of_bounds() {
    let mut dst = Canvas::new(4, 4, 0);
    let src = Canvas::new(2, 2, 8);
    let res = draw_subcanvas(&mut dst, &src, (3, 3));
    assert_eq!(res, Err(RasterError::OutOfBounds));
    assert!(dst.buffer.iter().all(|&p| p == 0));
}

#[test]
fn text_data_composites_coverage_as_grayscale() {
    let glyph = Glyph {
        min_x: 0,
        min_y: 0,
        width: 2,
        height: 2,
        coverage: vec![0, 255, 128, 0],
    };
    let line = compute_text_data(&vec![glyph], 3, 2);
    assert_eq!(line.stride, 3);
    assert_eq!(line.buffer.len(), 6);
    assert_eq!(pixel(&line, 0, 0), BLANK);
    assert_eq!(pixel(&line, 0, 1), 0x000000);
    assert_eq!(pixel(&line, 1, 0), 0x7F7F7F);
    assert_eq!(pixel(&line, 1, 1), BLANK);
    // Columns the glyph does not reach stay blank.
    assert_eq!(pixel(&line, 0, 2), BLANK);
    assert_eq!(pixel(&line, 1, 2), BLANK);
}

#[test]
fn text_data_clips_out_of_line_glyph_pixels() {
    // The glyph hangs one column off the left edge: only its right column
    // lands in the line.
    let glyph = Glyph {
        min_x: -1,
        min_y: 0,
        width: 2,
        height: 1,
        coverage: vec![255, 255],
    };
    let line = compute_text_data(&vec![glyph], 2, 1);
    assert_eq!(pixel(&line, 0, 0), 0x000000);
    assert_eq!(pixel(&line, 0, 1), BLANK);
}

#[test]
fn text_data_later_glyph_wins() {
    let under = Glyph { min_x: 0, min_y: 0, width: 1, height: 1, coverage: vec![255] };
    let over = Glyph { min_x: 0, min_y: 0, width: 1, height: 1, coverage: vec![55] };
    let line = compute_text_data(&vec![under, over], 1, 1);
    assert_eq!(pixel(&line, 0, 0), 200 * 0x010101);
}

#[test]
fn text_data_empty_line() {
    let line = compute_text_data(&Vec::new(), 0, 2);
    assert_eq!(line.stride, 0);
    assert_eq!(line.buffer.len(), 0);
}

#[test]
fn multiline_pads_to_widest_line() {
    // Two lines of widths 2 and 3: the block has one uniform stride of 3,
    // and the shorter line's trailing pixels are the blank background.
    let dark = Glyph { min_x: 0, min_y: 0, width: 2, height: 1, coverage: vec![255, 255] };
    let wide = Glyph { min_x: 0, min_y: 0, width: 3, height: 2, coverage: vec![255; 6] };
    let runs = vec![
        GlyphRun { glyphs: vec![dark], width: 2, height: 1 },
        GlyphRun { glyphs: vec![wide], width: 3, height: 2 },
    ];
    let block = compute_multiline_text_data(&runs);
    assert_eq!(block.stride, 3);
    assert_eq!(block.buffer.len(), 9);
    // First line: two dark pixels, then padding.
    assert_eq!(pixel(&block, 0, 0), 0x000000);
    assert_eq!(pixel(&block, 0, 1), 0x000000);
    assert_eq!(pixel(&block, 0, 2), BLANK);
    // Second line fills its full width on both rows.
    for r in 1..3 {
        for col in 0..3 {
            assert_eq!(pixel(&block, r, col), 0x000000);
        }
    }
}

#[test]
fn multiline_of_nothing_is_empty() {
    let block = compute_multiline_text_data(&Vec::new());
    assert_eq!(block.stride, 0);
    assert_eq!(block.buffer.len(), 0);
}

#[test]
fn world_to_screen_mapping() {
    assert_eq!(to_screen_coords(0, 0, 600, 600), (300, 300));
    assert_eq!(to_screen_coords(-1_000_000, -1_000_000, 600, 600), (0, 600));
    assert_eq!(to_screen_coords(1_000_000, 1_000_000, 600, 600), (600, 0));
    // The default ball start position on a 600x600 canvas.
    assert_eq!(to_screen_coords(-40_000, -800_000, 600, 600), (288, 540));
}

#[test]
fn screen_extents_round_as_documented() {
    // The default ball diameter (0.032) on 600 pixels: 9.6 rounds down.
    assert_eq!(screen_extent(32_000, 600), 9);
    // The brick width (0.1385) on 600 pixels: 41.55 rounds up.
    assert_eq!(screen_extent_ceil(138_500, 600), 42);
    assert_eq!(screen_extent(2_000_000, 600), 600);
    assert_eq!(screen_extent_ceil(0, 600), 0);
}

#[test]
fn draw_all_layers_the_scene() {
    let mut s = GameState::default();
    s.debug_stats = false;
    let mut c = Canvas::new(200, 200, 0);
    s.draw_all(&mut c, None);
    // Above the brick row everything is background.
    assert_eq!(pixel(&c, 0, 0), CYAN);
    // The ball (diameter 3 px) sits at the center of the canvas.
    assert_eq!(pixel(&c, 101, 101), MAGENTA);
    // The paddle's top-left pixel.
    assert_eq!(pixel(&c, 180, 96), YELLOW);
    assert_eq!(pixel(&c, 179, 96), CYAN);
    // A brick pixel: the first brick starts at column 1, row 75.
    assert_eq!(pixel(&c, 75, 1), 0x00FF00);
    assert_eq!(pixel(&c, 74, 1), CYAN);
}

#[test]
fn draw_all_places_debug_overlay_top_left() {
    let mut s = GameState::default();
    s.debug_stats = true;
    let mut c = Canvas::new(200, 200, 0);
    let runs = vec![GlyphRun { glyphs: Vec::new(), width: 2, height: 1 }];
    s.draw_all(&mut c, Some(&runs));
    // The blank 2x1 text block covers the top-left corner.
    assert_eq!(pixel(&c, 0, 0), BLANK);
    assert_eq!(pixel(&c, 0, 1), BLANK);
    // Beyond the block the background shows.
    assert_eq!(pixel(&c, 0, 2), CYAN);
}
