use text_console::cursor::{pen_after, Glyph};
use text_console::screen::{Color, DecodeError, InvalidGeometry, ScreenBuffer};

#[test]
fn hex_round_trip() {
    for h in [0u32, 0xFF_FFFF, 0xAB_CDEF, 0x12_3456, 0xDEAD_BEEF, 0xFFFF_FFFF] {
        assert_eq!(Color::from_hex(h).to_hex_rgb(), h & 0xFF_FFFF);
    }
}

#[test]
fn primary_colors_pack() {
    assert_eq!(Color::red().to_hex_rgb(), 0xFF_0000);
    assert_eq!(Color::green().to_hex_rgb(), 0x00_FF00);
    assert_eq!(Color::blue().to_hex_rgb(), 0x00_00FF);
}

#[test]
fn from_rgb_clamps_channels() {
    let c = Color::from_rgb(300, 10, 20);
    assert_eq!(c.red, 255);
    assert_eq!(c.to_hex_rgb(), (255 << 16) | (10 << 8) | 20);
}

#[test]
fn from_rgba_alpha_is_fixed() {
    let c = Color::from_rgba(1, 2, 3, 77);
    assert_eq!(c.alpha, 255);
    assert_eq!(c.to_hex_rgba(), (1 << 16) | (2 << 8) | 3 | 255);
}

#[test]
fn rand_channels_in_range() {
    for _ in 0..32 {
        let c = Color::rand();
        assert!(c.red < 255 && c.green < 255 && c.blue < 255);
        assert_eq!(c.alpha, 255);
    }
}

#[test]
fn put_pixel_out_of_bounds_is_dropped() {
    let mut s = ScreenBuffer::new(10, 10);
    s.put_pixel(5, 12, Color::red());
    s.put_pixel(3, 10, Color::red());
    s.put_pixel(0, 1000, Color::red());
    assert!(s.buffer.iter().all(|p| *p == 0));
}

#[test]
fn put_pixel_clips_by_index_not_column() {
    // x past the width but with a row-major index inside the buffer wraps to
    // the next row: the documented clip-by-index policy.
    let mut s = ScreenBuffer::new(10, 10);
    s.put_pixel(12, 0, Color::red());
    assert_eq!(s.buffer[12], 0xFF_0000);
}

#[test]
fn put_pixel_reads_back() {
    let mut s = ScreenBuffer::new(10, 10);
    let c = Color::from_rgb(1, 2, 3);
    s.put_pixel(0, 0, c);
    s.put_pixel(9, 9, c);
    s.put_pixel(3, 7, c);
    assert_eq!(s.buffer[0], 0x01_0203);
    assert_eq!(s.buffer[99], 0x01_0203);
    assert_eq!(s.buffer[73], 0x01_0203);
}

#[test]
fn put_pixel_a_packs_alpha() {
    let mut s = ScreenBuffer::new(4, 4);
    s.put_pixel_a(1, 1, Color::from_rgba(9, 8, 7, 6));
    assert_eq!(s.buffer[5], (9 << 16) | (8 << 8) | 7 | 255);
}

#[test]
fn resize_zeroes_everything() {
    let mut s = ScreenBuffer::new(5, 5);
    s.clear(Color::red());
    assert!(s.buffer.iter().all(|p| *p == 0xFF_0000));
    s.resize(7, 3);
    assert_eq!(s.width, 7);
    assert_eq!(s.height, 3);
    assert_eq!(s.buffer.len(), 21);
    assert!(s.buffer.iter().all(|p| *p == 0));
}

#[test]
fn calc_buf_pos_is_row_major() {
    let s = ScreenBuffer::new(10, 4);
    assert_eq!(s.calc_buf_pos(3, 2), 23);
    assert_eq!(s.calc_buf_pos(0, 0), 0);
}

#[test]
fn clear_fills_every_pixel() {
    let mut s = ScreenBuffer::new(3, 2);
    s.clear(Color::from_hex(0x123456));
    assert!(s.buffer.iter().all(|p| *p == 0x12_3456));
}

#[test]
fn draw_rect_clips_at_the_edge() {
    let mut s = ScreenBuffer::new(10, 10);
    s.draw_rect(8, 8, 5, 5, Color::red());
    let affected = [88usize, 89, 90, 91, 92, 98, 99];
    for i in 0..100 {
        if affected.contains(&i) {
            assert_eq!(s.buffer[i], 0xFF_0000, "index {} should be red", i);
        } else {
            assert_eq!(s.buffer[i], 0, "index {} should be untouched", i);
        }
    }
}

#[test]
fn draw_rect_interior() {
    let mut s = ScreenBuffer::new(4, 4);
    s.draw_rect(1, 1, 2, 2, Color::blue());
    for i in 0..16 {
        let inside = [5usize, 6, 9, 10].contains(&i);
        assert_eq!(s.buffer[i], if inside { 0xFF } else { 0 });
    }
}

#[test]
fn draw_line_diagonal() {
    let mut s = ScreenBuffer::new(5, 5);
    let r = s.draw_line(0, 0, 4, 4, Color::red());
    assert!(r.is_ok());
    for i in 0..25 {
        let on_diag = [0usize, 6, 12, 18].contains(&i);
        assert_eq!(s.buffer[i], if on_diag { 0xFF_0000 } else { 0 });
    }
}

#[test]
fn draw_line_rejects_inverted_span() {
    let mut s = ScreenBuffer::new(5, 5);
    let r = s.draw_line(3, 3, 1, 5, Color::red());
    assert_eq!(r, Err(InvalidGeometry));
    assert!(s.buffer.iter().all(|p| *p == 0));
}

#[test]
fn draw_image_rgb_decodes() {
    let mut s = ScreenBuffer::new(3, 3);
    let r = s.draw_image(vec![1, 2, 3, 4, 5, 6], 2, 1, 0);
    assert!(r.is_ok());
    assert_eq!(s.buffer[0], 0x01_0203);
    assert_eq!(s.buffer[1], 0x04_0506);
    assert!(s.buffer[2..].iter().all(|p| *p == 0));
}

#[test]
fn draw_image_rgba_lands_one_pixel_down_right() {
    let mut s = ScreenBuffer::new(3, 3);
    let r = s.draw_image(vec![9, 8, 7, 6], 1, 1, 1);
    assert!(r.is_ok());
    assert_eq!(s.buffer[4], (9 << 16) | (8 << 8) | 7 | 255);
}

#[test]
fn draw_image_rejects_undersized_buffer() {
    let mut s = ScreenBuffer::new(3, 3);
    let r = s.draw_image(vec![1, 2, 3, 4, 5], 2, 1, 0);
    assert_eq!(r, Err(DecodeError));
    assert!(s.buffer.iter().all(|p| *p == 0));
}

#[test]
fn draw_bitmap_splats_rows() {
    let mut s = ScreenBuffer::new(3, 3);
    s.draw_bitmap(vec![vec![1, 2], vec![3]]);
    assert_eq!(s.buffer[0], 1);
    assert_eq!(s.buffer[1], 2);
    assert_eq!(s.buffer[3], 3);
    assert_eq!(s.buffer[2], 0);
}

#[test]
fn blit_glyph_thresholds_coverage() {
    let mut s = ScreenBuffer::new(4, 4);
    let g = Glyph { width: 2, height: 2, ymin: 0, bitmap: vec![255, 0, 0, 1] };
    let fg = Color::from_hex(0xAA_BBCC);
    let bg = Color::from_hex(0x11_2233);
    s.blit_glyph(&g, 0, 0, 2, fg, bg);
    assert_eq!(s.buffer[0], 0xAA_BBCC);
    assert_eq!(s.buffer[1], 0x11_2233);
    assert_eq!(s.buffer[4], 0x11_2233);
    assert_eq!(s.buffer[5], 0xAA_BBCC);
    assert!(s.buffer[6..].iter().all(|p| *p == 0));
}

#[test]
fn blit_glyph_erases_with_background() {
    let mut s = ScreenBuffer::new(4, 4);
    let g = Glyph { width: 2, height: 2, ymin: 0, bitmap: vec![255, 0, 0, 1] };
    let fg = Color::red();
    let bg = Color::from_hex(0x11_2233);
    s.blit_glyph(&g, 0, 0, 2, fg, bg);
    s.blit_glyph(&g, 0, 0, 2, bg, bg);
    assert_eq!(s.buffer[0], 0x11_2233);
    assert_eq!(s.buffer[1], 0x11_2233);
    assert_eq!(s.buffer[4], 0x11_2233);
    assert_eq!(s.buffer[5], 0x11_2233);
}

#[test]
fn blit_glyph_baseline_compensation() {
    // Point size 3 with a 1x2 glyph and ymin -1: rows land at y + (3-2) + 1.
    let mut s = ScreenBuffer::new(4, 6);
    let g = Glyph { width: 1, height: 2, ymin: -1, bitmap: vec![255, 255] };
    s.blit_glyph(&g, 0, 0, 3, Color::red(), Color::from_hex(0));
    assert_eq!(s.buffer[2 * 4], 0xFF_0000);
    assert_eq!(s.buffer[3 * 4], 0xFF_0000);
    assert_eq!(s.buffer[0], 0);
    assert_eq!(s.buffer[4], 0);
}

#[test]
fn pen_advances_one_row_after_println() {
    let p = pen_after(&vec!['X', '\n'], 18, 100);
    assert_eq!(p, (0, 18));
}

#[test]
fn pen_wraps_at_twice_the_font_size() {
    // Boundary height is 2x the font size: the third line wraps back to row 0.
    let two_lines = pen_after(&vec!['A', '\n', 'B', '\n'], 16, 32);
    assert_eq!(two_lines, (0, 0));
    let third_line = pen_after(&vec!['A', '\n', 'B', '\n', 'C'], 16, 32);
    assert_eq!(third_line, (15, 0));
    let three_lines = pen_after(&vec!['A', '\n', 'B', '\n', 'C', '\n'], 16, 32);
    assert_eq!(three_lines, (0, 16));
}

#[test]
fn screen_render_is_a_no_op() {
    let mut s = ScreenBuffer::new(2, 2);
    s.put_pixel(0, 0, Color::red());
    let target = [0u32; 4];
    s.render(&target);
    assert_eq!(s.buffer[0], 0xFF_0000);
    assert_eq!(s.width, 2);
}

#[test]
fn draw_rect_zero_size_is_a_no_op() {
    let mut s = ScreenBuffer::new(4, 4);
    s.draw_rect(1, 1, 0, 3, Color::red());
    s.draw_rect(1, 1, 3, 0, Color::red());
    assert!(s.buffer.iter().all(|p| *p == 0));
}

#[test]
fn draw_line_degenerate_spans_draw_nothing() {
    let mut s = ScreenBuffer::new(4, 4);
    assert!(s.draw_line(2, 2, 2, 2, Color::red()).is_ok());
    assert!(s.buffer.iter().all(|p| *p == 0));
}

#[test]
fn resize_to_zero_empties_buffer() {
    let mut s = ScreenBuffer::new(4, 4);
    s.resize(0, 7);
    assert_eq!(s.buffer.len(), 0);
    s.put_pixel(0, 0, Color::red());
    assert_eq!(s.buffer.len(), 0);
}

#[test]
fn blit_glyph_clips_outside_buffer() {
    let mut s = ScreenBuffer::new(4, 4);
    let g = Glyph { width: 2, height: 2, ymin: 0, bitmap: vec![255, 255, 255, 255] };
    s.blit_glyph(&g, 0, 15, 2, Color::red(), Color::from_hex(0));
    assert!(s.buffer.iter().all(|p| *p == 0));
}
