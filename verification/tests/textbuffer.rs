use text_console::cursor::{Boundaries, Cursor, Typeface};
use text_console::screen::{Color, ScreenBuffer};
use text_console::window::Window;

fn push_u16(v: &mut Vec<u8>, x: u16) {
    v.push((x >> 8) as u8);
    v.push(x as u8);
}

fn push_u32(v: &mut Vec<u8>, x: u32) {
    push_u16(v, (x >> 16) as u16);
    push_u16(v, x as u16);
}

/// A minimal TrueType font: just the three mandatory tables (head, hhea,
/// maxp) with one glyph and no outlines, enough for the rasterizer to accept
/// it and hand back empty glyphs.
fn minimal_font_bytes() -> Vec<u8> {
    let mut v: Vec<u8> = Vec::new();
    push_u32(&mut v, 0x0001_0000); // sfnt version
    push_u16(&mut v, 3); // numTables
    push_u16(&mut v, 48); // searchRange
    push_u16(&mut v, 1); // entrySelector
    push_u16(&mut v, 0); // rangeShift
    // table records, sorted by tag: head, hhea, maxp
    push_u32(&mut v, 0x6865_6164); // "head"
    push_u32(&mut v, 0);
    push_u32(&mut v, 60);
    push_u32(&mut v, 54);
    push_u32(&mut v, 0x6868_6561); // "hhea"
    push_u32(&mut v, 0);
    push_u32(&mut v, 114);
    push_u32(&mut v, 36);
    push_u32(&mut v, 0x6D61_7870); // "maxp"
    push_u32(&mut v, 0);
    push_u32(&mut v, 150);
    push_u32(&mut v, 6);
    // head
    push_u32(&mut v, 0x0001_0000); // version
    push_u32(&mut v, 0); // font revision
    push_u32(&mut v, 0); // checksum adjustment
    push_u32(&mut v, 0x5F0F_3CF5); // magic
    push_u16(&mut v, 0); // flags
    push_u16(&mut v, 1000); // unitsPerEm
    push_u32(&mut v, 0); // created (hi)
    push_u32(&mut v, 0); // created (lo)
    push_u32(&mut v, 0); // modified (hi)
    push_u32(&mut v, 0); // modified (lo)
    push_u16(&mut v, 0); // xMin
    push_u16(&mut v, 0); // yMin
    push_u16(&mut v, 0); // xMax
    push_u16(&mut v, 0); // yMax
    push_u16(&mut v, 0); // macStyle
    push_u16(&mut v, 0); // lowestRecPPEM
    push_u16(&mut v, 0); // fontDirectionHint
    push_u16(&mut v, 0); // indexToLocFormat
    push_u16(&mut v, 0); // glyphDataFormat
    // hhea
    push_u32(&mut v, 0x0001_0000); // version
    push_u16(&mut v, 800); // ascender
    push_u16(&mut v, (-200i16) as u16); // descender
    push_u16(&mut v, 0); // lineGap
    push_u16(&mut v, 0); // advanceWidthMax
    push_u16(&mut v, 0); // minLeftSideBearing
    push_u16(&mut v, 0); // minRightSideBearing
    push_u16(&mut v, 0); // xMaxExtent
    push_u16(&mut v, 0); // caretSlopeRise
    push_u16(&mut v, 0); // caretSlopeRun
    push_u16(&mut v, 0); // caretOffset
    push_u32(&mut v, 0); // reserved
    push_u32(&mut v, 0); // reserved
    push_u16(&mut v, 0); // metricDataFormat
    push_u16(&mut v, 0); // numberOfHMetrics
    // maxp
    push_u32(&mut v, 0x0000_5000); // version 0.5
    push_u16(&mut v, 1); // numGlyphs
    v
}

fn test_font() -> Typeface {
    Typeface::from_bytes(minimal_font_bytes(), 16).unwrap()
}

fn test_cursor() -> Cursor {
    Cursor::new(
        test_font(),
        Boundaries { start_x: 0, start_y: 0, width: 64, height: 64 },
    )
}

#[test]
fn font_from_bytes_accepts_minimal_font() {
    let bytes = minimal_font_bytes();
    let f = Typeface::from_bytes(bytes.clone(), 16).unwrap();
    assert_eq!(f.font_size(), 16);
    assert_eq!(f.font_data(), &bytes);
}

#[test]
fn font_from_bytes_rejects_garbage() {
    assert!(Typeface::from_bytes(vec![1, 2, 3, 4], 16).is_err());
}

#[test]
fn cursor_defaults() {
    let c = test_cursor();
    assert_eq!(c.pos, 0);
    assert!(c.buffer.is_empty());
    assert!(c.case);
    assert!(c.blink);
    assert_eq!(c.color.to_hex_rgb(), 0xFF_FFFF);
    assert_eq!(c.background_color.to_hex_rgb(), 0);
}

#[test]
fn print_backspace_print_leaves_ac() {
    let mut c = test_cursor();
    c.print("AB");
    c.backspace();
    c.print("C");
    let chars: Vec<char> = c.buffer.iter().map(|e| e.char).collect();
    assert_eq!(chars, vec!['A', 'C']);
    assert_eq!(c.pos, 2);
}

#[test]
fn backspace_at_zero_is_a_no_op() {
    let mut c = test_cursor();
    c.backspace();
    assert_eq!(c.pos, 0);
    assert!(c.buffer.is_empty());
}

#[test]
fn println_appends_line_break_and_resets_pos() {
    let mut c = test_cursor();
    c.println("X");
    assert_eq!(c.pos, 0);
    let chars: Vec<char> = c.buffer.iter().map(|e| e.char).collect();
    assert_eq!(chars, vec!['X', '\n']);
}

#[test]
fn new_line_pushes_marker() {
    let mut c = test_cursor();
    c.print("A");
    c.new_line();
    assert_eq!(c.pos, 0);
    assert_eq!(c.buffer.last().unwrap().char, '\n');
    assert!(!c.buffer[0].rendered);
    assert!(c.buffer[0].boundaries.is_none());
}

#[test]
fn render_walks_whole_buffer_without_panic() {
    let mut c = test_cursor();
    c.println("one");
    c.println("two");
    c.println("three");
    let mut s = ScreenBuffer::new(64, 64);
    c.render(&mut s);
    assert_eq!(s.width, 64);
    assert_eq!(s.buffer.len(), 64 * 64);
}

#[test]
fn clear_empties_buffer_and_redraws_in_background() {
    let mut c = test_cursor();
    c.print("Hi");
    let mut s = ScreenBuffer::new(32, 32);
    c.render(&mut s);
    c.clear(&mut s);
    assert!(c.buffer.is_empty());
    assert_eq!(c.pos, 0);
    assert_eq!(c.color.to_hex_rgb(), 0xFF_FFFF);
}

#[test]
fn window_splices_local_buffer_onto_screen() {
    let font = test_font();
    let mut w = Window::new(font, (1, 1), 2, 2);
    let mut screen = ScreenBuffer::new(6, 6);
    screen.clear(Color::red());
    w.render_on_screen(&mut screen);
    // start index 1*6+1 = 7, four local pixels spliced in linearly
    for i in 0..36 {
        let spliced = (7..11).contains(&i);
        assert_eq!(screen.buffer[i], if spliced { 0 } else { 0xFF_0000 });
    }
}

#[test]
fn window_resize_reallocates_draw_buffer() {
    let font = test_font();
    let mut w = Window::new(font, (0, 0), 2, 2);
    w.resize(3, 4);
    assert_eq!(w.height, 3);
    assert_eq!(w.width, 4);
    assert_eq!(w.draw_buffer.width, 4);
    assert_eq!(w.draw_buffer.height, 3);
    assert_eq!(w.draw_buffer.buffer.len(), 12);
    assert!(w.draw_buffer.buffer.iter().all(|p| *p == 0));
}

#[test]
fn print_empty_text_changes_nothing() {
    let mut c = test_cursor();
    c.print("");
    assert_eq!(c.pos, 0);
    assert!(c.buffer.is_empty());
}

#[test]
fn print_unicode_counts_characters() {
    let mut c = test_cursor();
    c.print("héé");
    assert_eq!(c.pos, 3);
    assert_eq!(c.buffer.len(), 3);
    assert_eq!(c.buffer[1].char, 'é');
}
