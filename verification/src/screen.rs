//! Packed-pixel framebuffer: colors, pixel writes with silent clipping, and
//! the rectangle / line / image / glyph drawing primitives.

use vstd::prelude::*;

use crate::cursor::Glyph;
use rand::Rng;

verus! {

/// Rectangle reserved on a character for future incremental redraw.
#[derive(Clone, Copy, Debug)]
pub struct CharBoundary {
    pub start_x: usize,
    pub start_y: usize,
    pub end_x: usize,
    pub end_y: usize,
}

/// A rectangular region of a target framebuffer: origin and size.
#[derive(Clone, Copy, Debug)]
pub struct Boundaries {
    pub start_x: usize,
    pub start_y: usize,
    pub width: usize,
    pub height: usize,
}

/// Degenerate or inverted coordinates handed to a drawing primitive.
#[derive(Clone, Copy, Debug, PartialEq, Eq, Structural)]
pub struct InvalidGeometry;

/// An image byte buffer too small for the dimensions it was declared with.
#[derive(Clone, Copy, Debug, PartialEq, Eq, Structural)]
pub struct DecodeError;

/// A color as four 8-bit-range channels held in wider integers.
#[derive(Clone, Copy, Debug, PartialEq, Eq, Structural)]
pub struct Color {
    pub red: u32,
    pub green: u32,
    pub blue: u32,
    pub alpha: u32,
}

/// Clamp a channel value into the 8-bit range.
pub open spec fn spec_clamp8(v: u32) -> u32 {
    if v > 255 { 255 } else { v }
}

/// The color that `Color::from_hex` decodes from a hex word.
pub open spec fn spec_from_hex(hex: u32) -> Color {
    Color {
        red: (hex >> 16) & 0xFF,
        green: (hex >> 8) & 0xFF,
        blue: hex & 0xFF,
        alpha: 255,
    }
}

impl Color {
    /// All channels are within the 8-bit range.
    pub open spec fn wf(self) -> bool {
        self.red <= 255 && self.green <= 255 && self.blue <= 255 && self.alpha <= 255
    }

    /// The packed 24-bit RGB word: red<<16 | green<<8 | blue.
    pub open spec fn spec_rgb(self) -> u32 {
        (self.red << 16) | (self.green << 8) | self.blue
    }

    /// The packed RGBA word: the RGB word with the alpha channel or-ed in.
    pub open spec fn spec_rgba(self) -> u32 {
        (self.red << 16) | (self.green << 8) | self.blue | self.alpha
    }

    fn clamp8(v: u32) -> (r: u32)
        ensures
            r == spec_clamp8(v),
    {
        if v > 255 {
            255
        } else {
            v
        }
    }

    pub fn from_rgb(r: u32, g: u32, b: u32) -> (c: Color)
        ensures
            c == (Color {
                red: spec_clamp8(r),
                green: spec_clamp8(g),
                blue: spec_clamp8(b),
                alpha: 255,
            }),
            c.wf(),
    {
        Color { red: Self::clamp8(r), green: Self::clamp8(g), blue: Self::clamp8(b), alpha: 255 }
    }

    /// The alpha argument is accepted for symmetry but the stored alpha is
    /// always 255, matching `from_rgb`.
    pub fn from_rgba(r: u32, g: u32, b: u32, a: u32) -> (c: Color)
        ensures
            c == (Color {
                red: spec_clamp8(r),
                green: spec_clamp8(g),
                blue: spec_clamp8(b),
                alpha: 255,
            }),
            c.wf(),
    {
        let _ = a;
        Color { red: Self::clamp8(r), green: Self::clamp8(g), blue: Self::clamp8(b), alpha: 255 }
    }

    pub fn from_hex(hex: u32) -> (c: Color)
        ensures
            c == spec_from_hex(hex),
            c.wf(),
    {
        let red: u32 = (hex >> 16) & 0xFF;
        let green: u32 = (hex >> 8) & 0xFF;
        let blue: u32 = hex & 0xFF;
        proof {
            assert((hex >> 16) & 0xFF <= 255 && (hex >> 8) & 0xFF <= 255 && hex & 0xFF <= 255)
                by (bit_vector);
        }
        Color { red, green, blue, alpha: 255 }
    }

    pub fn red() -> (c: Color)
        ensures
            c == (Color { red: 255, green: 0, blue: 0, alpha: 255 }),
            c.wf(),
    {
        Color::from_rgb(255, 0, 0)
    }

    pub fn green() -> (c: Color)
        ensures
            c == (Color { red: 0, green: 255, blue: 0, alpha: 255 }),
            c.wf(),
    {
        Color::from_rgb(0, 255, 0)
    }

    pub fn blue() -> (c: Color)
        ensures
            c == (Color { red: 0, green: 0, blue: 255, alpha: 255 }),
            c.wf(),
    {
        Color::from_rgb(0, 0, 255)
    }

    pub fn to_hex_rgb(&self) -> (r: u32)
        ensures
            r == self.spec_rgb(),
    {
        (self.red << 16u32) | (self.green << 8u32) | self.blue
    }

    pub fn to_hex_rgba(&self) -> (r: u32)
        ensures
            r == self.spec_rgba(),
    {
        (self.red << 16u32) | (self.green << 8u32) | self.blue | self.alpha
    }
}

/// Decoding a 24-bit hex word and packing it back is the identity on the low
/// 24 bits.
pub proof fn lemma_hex_round_trip(h: u32)
    ensures
        spec_from_hex(h).spec_rgb() == h & 0xFFFFFF,
{
    let r: u32 = (h >> 16) & 0xFF;
    let g: u32 = (h >> 8) & 0xFF;
    let b: u32 = h & 0xFF;
    assert((r << 16) | (g << 8) | b == h & 0xFFFFFF) by (bit_vector)
        requires
            r == (h >> 16) & 0xFF,
            g == (h >> 8) & 0xFF,
            b == h & 0xFF,
    ;
}

/// A flat row-major buffer of packed 32-bit pixels.
#[derive(Clone, Debug)]
pub struct ScreenBuffer {
    pub height: usize,
    pub width: usize,
    pub buffer: Vec<u32>,
}

/// Writing a packed value at a row-major index: the write lands only if the
/// index is inside the buffer, otherwise it is silently dropped.
pub open spec fn spec_put_idx(fb: Seq<u32>, idx: int, v: u32) -> Seq<u32> {
    if 0 <= idx < fb.len() {
        fb.update(idx, v)
    } else {
        fb
    }
}

/// A row-major index stays within 128 bits for any machine-word coordinates.
proof fn lemma_idx_fits_u128(y: int, w: int, x: int, g: int)
    requires
        0 <= y <= 0xffff_ffff_ffff_ffff,
        0 <= w <= 0xffff_ffff_ffff_ffff,
        0 <= x <= 0xffff_ffff_ffff_ffff,
        0 <= g <= 0xffff_ffff_ffff_ffff,
    ensures
        0 <= y * w + x + g <= 0xffff_ffff_ffff_ffff_ffff_ffff_ffff_ffff,
{
    assert(y * w + x + g <= 0xffff_ffff_ffff_ffff_ffff_ffff_ffff_ffff) by (nonlinear_arith)
        requires
            0 <= y <= 0xffff_ffff_ffff_ffff,
            0 <= w <= 0xffff_ffff_ffff_ffff,
            0 <= x <= 0xffff_ffff_ffff_ffff,
            0 <= g <= 0xffff_ffff_ffff_ffff,
    ;
    assert(y * w >= 0) by (nonlinear_arith)
        requires
            0 <= y,
            0 <= w,
    ;
}

/// A fresh zero-filled pixel vector.
fn zeroed(n: usize) -> (v: Vec<u32>)
    ensures
        v@ == Seq::new(n as nat, |i: int| 0u32),
{
    let mut v: Vec<u32> = Vec::new();
    let mut i: usize = 0;
    while i < n
        invariant
            i <= n,
            v@ =~= Seq::new(i as nat, |j: int| 0u32),
        decreases n - i,
    {
        v.push(0);
        i = i + 1;
    }
    proof {
        assert(v@ =~= Seq::new(n as nat, |i: int| 0u32));
    }
    v
}

impl ScreenBuffer {
    /// The buffer length agrees with the stated geometry.
    pub open spec fn wf(self) -> bool {
        self.buffer@.len() == self.width * self.height
    }

    pub fn new(width: usize, height: usize) -> (s: ScreenBuffer)
        requires
            width * height <= usize::MAX,
        ensures
            s.width == width,
            s.height == height,
            s.buffer@ == Seq::new((width * height) as nat, |i: int| 0u32),
            s.wf(),
    {
        ScreenBuffer { width, height, buffer: zeroed(width * height) }
    }

    /// The row-major index of a pixel coordinate.
    pub fn calc_buf_pos(&self, x: usize, y: usize) -> (p: usize)
        requires
            y * self.width + x <= usize::MAX,
        ensures
            p == y * self.width + x,
    {
        y * self.width + x
    }

    /// Overwrites the pixel at (x, y) with the packed RGB value; a write whose
    /// row-major index falls outside the buffer is silently dropped.
    pub fn put_pixel(&mut self, x: usize, y: usize, color: Color)
        ensures
            final(self).width == old(self).width,
            final(self).height == old(self).height,
            final(self).buffer@ == spec_put_idx(
                old(self).buffer@,
                y * old(self).width + x,
                color.spec_rgb(),
            ),
    {
        proof {
            lemma_idx_fits_u128(y as int, self.width as int, x as int, 0);
        }
        let idx: u128 = (y as u128) * (self.width as u128) + (x as u128);
        if idx < self.buffer.len() as u128 {
            let v: u32 = color.to_hex_rgb();
            self.buffer.set(idx as usize, v);
        }
    }

    /// As `put_pixel`, but writes the packed RGBA value.
    pub fn put_pixel_a(&mut self, x: usize, y: usize, color: Color)
        ensures
            final(self).width == old(self).width,
            final(self).height == old(self).height,
            final(self).buffer@ == spec_put_idx(
                old(self).buffer@,
                y * old(self).width + x,
                color.spec_rgba(),
            ),
    {
        proof {
            lemma_idx_fits_u128(y as int, self.width as int, x as int, 0);
        }
        let idx: u128 = (y as u128) * (self.width as u128) + (x as u128);
        if idx < self.buffer.len() as u128 {
            let v: u32 = color.to_hex_rgba();
            self.buffer.set(idx as usize, v);
        }
    }

    /// Replaces the buffer with a zero-filled one of the new geometry; prior
    /// contents are discarded.
    pub fn resize(&mut self, width: usize, height: usize)
        requires
            width * height <= usize::MAX,
        ensures
            final(self).width == width,
            final(self).height == height,
            final(self).buffer@ == Seq::new((width * height) as nat, |i: int| 0u32),
            final(self).wf(),
    {
        self.width = width;
        self.height = height;
        self.buffer = zeroed(width * height);
    }

    /// Present hook kept for API parity; the buffer itself is the output.
    #[allow(unused_variables)]
    pub fn render(&mut self, target_buffer: &[u32])
        ensures
            *final(self) == *old(self),
    {
    }
}

/// The row-major index of the pixel at column cx, row cy.
pub open spec fn pix_at(cx: int, cy: int, bw: int) -> int {
    cy * bw + cx
}

/// Whether index i is the row-major position of some pixel of the rectangle
/// with origin (sx, sy) and size w x h, on a buffer of width bw.
pub open spec fn spec_in_rect(i: int, bw: int, sx: int, sy: int, w: int, h: int) -> bool {
    exists|cx: int, cy: int|
        sx <= cx < sx + w && sy <= cy < sy + h && #[trigger] pix_at(cx, cy, bw) == i
}

/// Whether index i is written by the rectangle fill once it has finished the
/// rows before y and, on row y, the columns before x.
spec fn rect_covered_upto(i: int, bw: int, sx: int, w: int, sy: int, y: int, x: int) -> bool {
    exists|cx: int, cy: int|
        sx <= cx < sx + w && sy <= cy && (cy < y || (cy == y && cx < x)) && #[trigger] pix_at(
            cx,
            cy,
            bw,
        ) == i
}

proof fn lemma_rect_covered_full(i: int, bw: int, sx: int, sy: int, w: int, h: int)
    ensures
        rect_covered_upto(i, bw, sx, w, sy, sy + h, sx) == spec_in_rect(i, bw, sx, sy, w, h),
{
    if rect_covered_upto(i, bw, sx, w, sy, sy + h, sx) {
        let (cx, cy) = choose|cx: int, cy: int|
            sx <= cx < sx + w && sy <= cy && (cy < sy + h || (cy == sy + h && cx < sx))
                && #[trigger] pix_at(cx, cy, bw) == i;
        assert(cy < sy + h);
        assert(spec_in_rect(i, bw, sx, sy, w, h));
    }
    if spec_in_rect(i, bw, sx, sy, w, h) {
        let (cx, cy) = choose|cx: int, cy: int|
            sx <= cx < sx + w && sy <= cy < sy + h && #[trigger] pix_at(cx, cy, bw) == i;
        assert(rect_covered_upto(i, bw, sx, w, sy, sy + h, sx));
    }
}

impl ScreenBuffer {
    /// Fills every pixel of the rectangle, inheriting `put_pixel`'s silent
    /// clipping at the buffer's edge.
    pub fn draw_rect(&mut self, start_x: usize, start_y: usize, width: usize, height: usize, color: Color)
        requires
            start_x + width <= usize::MAX,
            start_y + height <= usize::MAX,
        ensures
            final(self).width == old(self).width,
            final(self).height == old(self).height,
            final(self).buffer@.len() == old(self).buffer@.len(),
            forall|i: int|
                0 <= i < old(self).buffer@.len() ==> final(self).buffer@[i] == (if spec_in_rect(
                    i,
                    old(self).width as int,
                    start_x as int,
                    start_y as int,
                    width as int,
                    height as int,
                ) {
                    color.spec_rgb()
                } else {
                    old(self).buffer@[i]
                }),
    {
        let ghost old_buf: Seq<u32> = self.buffer@;
        let ghost bw: int = self.width as int;
        let ghost sx: int = start_x as int;
        let ghost sy: int = start_y as int;
        let ghost w: int = width as int;
        let ghost cval: u32 = color.spec_rgb();
        let end_x: usize = start_x + width;
        let end_y: usize = start_y + height;
        let mut y: usize = start_y;
        while y < end_y
            invariant
                start_y <= y <= end_y,
                end_x == start_x + width,
                end_y == start_y + height,
                self.width == old(self).width,
                self.height == old(self).height,
                self.buffer@.len() == old_buf.len(),
                old_buf == old(self).buffer@,
                bw == old(self).width as int,
                sx == start_x as int && sy == start_y as int && w == width as int,
                cval == color.spec_rgb(),
                forall|i: int|
                    0 <= i < old_buf.len() ==> self.buffer@[i] == (if rect_covered_upto(
                        i,
                        bw,
                        sx,
                        w,
                        sy,
                        y as int,
                        sx,
                    ) {
                        cval
                    } else {
                        old_buf[i]
                    }),
            decreases end_y - y,
        {
            let mut x: usize = start_x;
            while x < end_x
                invariant
                    start_x <= x <= end_x,
                    start_y <= y < end_y,
                    end_x == start_x + width,
                    end_y == start_y + height,
                    self.width == old(self).width,
                    self.height == old(self).height,
                    self.buffer@.len() == old_buf.len(),
                    old_buf == old(self).buffer@,
                    bw == old(self).width as int,
                    sx == start_x as int && sy == start_y as int && w == width as int,
                    cval == color.spec_rgb(),
                    forall|i: int|
                        0 <= i < old_buf.len() ==> self.buffer@[i] == (if rect_covered_upto(
                            i,
                            bw,
                            sx,
                            w,
                            sy,
                            y as int,
                            x as int,
                        ) {
                            cval
                        } else {
                            old_buf[i]
                        }),
                decreases end_x - x,
            {
                let ghost pre: Seq<u32> = self.buffer@;
                self.put_pixel(x, y, color);
                proof {
                    let idx: int = pix_at(x as int, y as int, bw);
                    assert forall|i: int| 0 <= i < old_buf.len() implies self.buffer@[i] == (
                    if rect_covered_upto(i, bw, sx, w, sy, y as int, x as int + 1) {
                        cval
                    } else {
                        old_buf[i]
                    }) by {
                        if i == idx {
                            assert(pix_at(x as int, y as int, bw) == i);
                            assert(rect_covered_upto(i, bw, sx, w, sy, y as int, x as int + 1));
                            assert(self.buffer@[i] == cval);
                        } else {
                            assert(self.buffer@[i] == pre[i]);
                            if rect_covered_upto(i, bw, sx, w, sy, y as int, x as int + 1) {
                                let (cx, cy) = choose|cx: int, cy: int|
                                    sx <= cx < sx + w && sy <= cy && (cy < y as int || (cy
                                        == y as int && cx < x as int + 1)) && #[trigger] pix_at(
                                        cx,
                                        cy,
                                        bw,
                                    ) == i;
                                assert(!(cx == x as int && cy == y as int));
                                assert(rect_covered_upto(i, bw, sx, w, sy, y as int, x as int));
                            } else {
                                assert(!rect_covered_upto(i, bw, sx, w, sy, y as int, x as int))
                                    by {
                                    if rect_covered_upto(i, bw, sx, w, sy, y as int, x as int) {
                                        let (cx, cy) = choose|cx: int, cy: int|
                                            sx <= cx < sx + w && sy <= cy && (cy < y as int || (cy
                                                == y as int && cx < x as int)) && #[trigger] pix_at(
                                                cx,
                                                cy,
                                                bw,
                                            ) == i;
                                        assert(rect_covered_upto(
                                            i,
                                            bw,
                                            sx,
                                            w,
                                            sy,
                                            y as int,
                                            x as int + 1,
                                        ));
                                    }
                                };
                            }
                        }
                    }
                }
                x = x + 1;
            }
            proof {
                assert forall|i: int| 0 <= i < old_buf.len() implies (rect_covered_upto(
                    i,
                    bw,
                    sx,
                    w,
                    sy,
                    y as int + 1,
                    sx,
                ) == rect_covered_upto(i, bw, sx, w, sy, y as int, x as int)) by {
                    if rect_covered_upto(i, bw, sx, w, sy, y as int + 1, sx) {
                        let (cx, cy) = choose|cx: int, cy: int|
                            sx <= cx < sx + w && sy <= cy && (cy < y as int + 1 || (cy == y as int
                                + 1 && cx < sx)) && #[trigger] pix_at(cx, cy, bw) == i;
                        assert(cy < y as int || (cy == y as int && cx < x as int));
                        assert(rect_covered_upto(i, bw, sx, w, sy, y as int, x as int));
                    }
                    if rect_covered_upto(i, bw, sx, w, sy, y as int, x as int) {
                        let (cx, cy) = choose|cx: int, cy: int|
                            sx <= cx < sx + w && sy <= cy && (cy < y as int || (cy == y as int && cx
                                < x as int)) && #[trigger] pix_at(cx, cy, bw) == i;
                        assert(rect_covered_upto(i, bw, sx, w, sy, y as int + 1, sx));
                    }
                }
            }
            y = y + 1;
        }
        proof {
            assert forall|i: int| 0 <= i < old_buf.len() implies #[trigger] self.buffer@[i] == (
            if spec_in_rect(i, bw, sx, sy, w, height as int) {
                cval
            } else {
                old_buf[i]
            }) by {
                lemma_rect_covered_full(i, bw, sx, sy, w, height as int);
            }
        }
    }

    /// Fills every pixel of the grid with the color; with a well-formed
    /// geometry that is the whole buffer.
    pub fn clear(&mut self, color: Color)
        ensures
            final(self).width == old(self).width,
            final(self).height == old(self).height,
            final(self).buffer@.len() == old(self).buffer@.len(),
            forall|i: int|
                0 <= i < old(self).buffer@.len() ==> final(self).buffer@[i] == (if spec_in_rect(
                    i,
                    old(self).width as int,
                    0,
                    0,
                    old(self).width as int,
                    old(self).height as int,
                ) {
                    color.spec_rgb()
                } else {
                    old(self).buffer@[i]
                }),
            old(self).wf() ==> forall|i: int|
                0 <= i < final(self).buffer@.len() ==> final(self).buffer@[i] == color.spec_rgb(),
    {
        let ghost w: int = self.width as int;
        let ghost h: int = self.height as int;
        let width: usize = self.width;
        let height: usize = self.height;
        self.draw_rect(0, 0, width, height, color);
        proof {
            if old(self).wf() {
                assert forall|i: int| 0 <= i < self.buffer@.len() implies #[trigger] self.buffer@[i]
                    == color.spec_rgb() by {
                    assert(0 <= i < w * h);
                    assert(0 < w) by (nonlinear_arith)
                        requires
                            0 <= i < w * h,
                            0 <= w,
                    ;
                    assert(0 <= i % w < w && i / w * w + i % w == i && 0 <= i / w < h)
                        by (nonlinear_arith)
                        requires
                            0 <= i < w * h,
                            0 < w,
                    ;
                    assert(pix_at(i % w, i / w, w) == i);
                    assert(spec_in_rect(i, w, 0, 0, w, h));
                }
            }
        }
    }
}

/// The horizontal pass of the axis-driven line fill, after its first k steps:
/// step j writes the pixel at (sx + j, sy + dy*j/dx).
pub open spec fn spec_hline_upto(
    fb: Seq<u32>,
    bw: int,
    sx: int,
    sy: int,
    dx: int,
    dy: int,
    v: u32,
    k: nat,
) -> Seq<u32>
    decreases k,
{
    if k == 0 {
        fb
    } else {
        let j: int = k - 1;
        let prev: Seq<u32> = spec_hline_upto(fb, bw, sx, sy, dx, dy, v, (k - 1) as nat);
        spec_put_idx(prev, (sy + dy * j / dx) * bw + (sx + j), v)
    }
}

/// The vertical pass of the axis-driven line fill, after its first k steps:
/// step j writes the pixel at (sx + dx*j/dy, sy + j).
pub open spec fn spec_vline_upto(
    fb: Seq<u32>,
    bw: int,
    sx: int,
    sy: int,
    dx: int,
    dy: int,
    v: u32,
    k: nat,
) -> Seq<u32>
    decreases k,
{
    if k == 0 {
        fb
    } else {
        let j: int = k - 1;
        let prev: Seq<u32> = spec_vline_upto(fb, bw, sx, sy, dx, dy, v, (k - 1) as nat);
        spec_put_idx(prev, (sy + j) * bw + (sx + dx * j / dy), v)
    }
}

/// The whole line fill: the horizontal pass over [sx, ex), then the vertical
/// pass over [sy, ey).
pub open spec fn spec_draw_line(
    fb: Seq<u32>,
    bw: int,
    sx: int,
    sy: int,
    ex: int,
    ey: int,
    v: u32,
) -> Seq<u32> {
    let dx: int = ex - sx;
    let dy: int = ey - sy;
    spec_vline_upto(
        spec_hline_upto(fb, bw, sx, sy, dx, dy, v, dx as nat),
        bw,
        sx,
        sy,
        dx,
        dy,
        v,
        dy as nat,
    )
}

/// One pixel of a decoded image write: pixel j of a w-wide image, either the
/// three-byte RGB form at (x, y) or the four-byte RGBA form, which lands one
/// pixel down and right, as the original placement has it.
pub open spec fn spec_image_upto(
    fb: Seq<u32>,
    bw: int,
    img: Seq<u8>,
    w: int,
    color_type: u8,
    k: nat,
) -> Seq<u32>
    decreases k,
{
    if k == 0 {
        fb
    } else {
        let j: int = k - 1;
        let x: int = j % w;
        let y: int = j / w;
        let prev: Seq<u32> = spec_image_upto(fb, bw, img, w, color_type, (k - 1) as nat);
        if color_type == 0 {
            let c: Color = Color {
                red: img[3 * j] as u32,
                green: img[3 * j + 1] as u32,
                blue: img[3 * j + 2] as u32,
                alpha: 255,
            };
            spec_put_idx(prev, y * bw + x, c.spec_rgb())
        } else {
            let c: Color = Color {
                red: img[4 * j] as u32,
                green: img[4 * j + 1] as u32,
                blue: img[4 * j + 2] as u32,
                alpha: 255,
            };
            spec_put_idx(prev, (y + 1) * bw + (x + 1), c.spec_rgba())
        }
    }
}

/// The whole decoded image: all w*h pixels in row-major order.
pub open spec fn spec_draw_image(
    fb: Seq<u32>,
    bw: int,
    img: Seq<u8>,
    w: int,
    h: int,
    color_type: u8,
) -> Seq<u32> {
    spec_image_upto(fb, bw, img, w, color_type, (w * h) as nat)
}

/// One row of a raw bitmap splat, after its first k columns.
pub open spec fn spec_bitmap_row_upto(fb: Seq<u32>, bw: int, row: Seq<u32>, y: int, k: nat) -> Seq<
    u32,
>
    decreases k,
{
    if k == 0 {
        fb
    } else {
        let j: int = k - 1;
        let prev: Seq<u32> = spec_bitmap_row_upto(fb, bw, row, y, (k - 1) as nat);
        spec_put_idx(prev, y * bw + j, row[j])
    }
}

/// A raw bitmap splat, after its first k rows.
pub open spec fn spec_bitmap_rows_upto(fb: Seq<u32>, bw: int, rows: Seq<Seq<u32>>, k: nat) -> Seq<
    u32,
>
    decreases k,
{
    if k == 0 {
        fb
    } else {
        let j: int = k - 1;
        let prev: Seq<u32> = spec_bitmap_rows_upto(fb, bw, rows, (k - 1) as nat);
        spec_bitmap_row_upto(prev, bw, rows[j], j, rows[j].len())
    }
}

impl ScreenBuffer {
    /// Axis-driven line fill: one pass over the x span, one over the y span.
    /// Inverted spans are rejected with `InvalidGeometry`; degenerate spans
    /// draw nothing on the degenerate axis.
    pub fn draw_line(
        &mut self,
        start_x: usize,
        start_y: usize,
        end_x: usize,
        end_y: usize,
        color: Color,
    ) -> (r: Result<(), InvalidGeometry>)
        ensures
            r is Ok <==> (start_x <= end_x && start_y <= end_y),
            r is Err ==> *final(self) == *old(self),
            final(self).width == old(self).width,
            final(self).height == old(self).height,
            r is Ok ==> final(self).buffer@ == spec_draw_line(
                old(self).buffer@,
                old(self).width as int,
                start_x as int,
                start_y as int,
                end_x as int,
                end_y as int,
                color.spec_rgb(),
            ),
    {
        if end_x < start_x || end_y < start_y {
            return Err(InvalidGeometry);
        }
        let dx: usize = end_x - start_x;
        let dy: usize = end_y - start_y;
        let ghost bw: int = self.width as int;
        let ghost old_buf: Seq<u32> = self.buffer@;
        let ghost v: u32 = color.spec_rgb();
        let mut x: usize = start_x;
        while x < end_x
            invariant
                start_x <= x <= end_x,
                dx == end_x - start_x,
                dy == end_y - start_y,
                self.width == old(self).width,
                self.height == old(self).height,
                bw == old(self).width as int,
                old_buf == old(self).buffer@,
                v == color.spec_rgb(),
                self.buffer@ == spec_hline_upto(
                    old_buf,
                    bw,
                    start_x as int,
                    start_y as int,
                    dx as int,
                    dy as int,
                    v,
                    (x - start_x) as nat,
                ),
            decreases end_x - x,
        {
            let j: usize = x - start_x;
            proof {
                lemma_idx_fits_u128(dy as int, j as int, 0, 0);
                assert((dy as int) * (j as int) / (dx as int) <= dy as int) by (nonlinear_arith)
                    requires
                        0 <= j < dx,
                        0 <= dy,
                ;
            }
            let q: u128 = (dy as u128) * (j as u128) / (dx as u128);
            let yv: usize = start_y + (q as usize);
            self.put_pixel(x, yv, color);
            x = x + 1;
        }
        let mut y: usize = start_y;
        while y < end_y
            invariant
                start_y <= y <= end_y,
                dx == end_x - start_x,
                dy == end_y - start_y,
                self.width == old(self).width,
                self.height == old(self).height,
                bw == old(self).width as int,
                old_buf == old(self).buffer@,
                v == color.spec_rgb(),
                self.buffer@ == spec_vline_upto(
                    spec_hline_upto(
                        old_buf,
                        bw,
                        start_x as int,
                        start_y as int,
                        dx as int,
                        dy as int,
                        v,
                        dx as nat,
                    ),
                    bw,
                    start_x as int,
                    start_y as int,
                    dx as int,
                    dy as int,
                    v,
                    (y - start_y) as nat,
                ),
            decreases end_y - y,
        {
            let j: usize = y - start_y;
            proof {
                lemma_idx_fits_u128(dx as int, j as int, 0, 0);
                assert((dx as int) * (j as int) / (dy as int) <= dx as int) by (nonlinear_arith)
                    requires
                        0 <= j < dy,
                        0 <= dx,
                ;
            }
            let q: u128 = (dx as u128) * (j as u128) / (dy as u128);
            let xv: usize = start_x + (q as usize);
            self.put_pixel(xv, y, color);
            y = y + 1;
        }
        Ok(())
    }

    /// Decodes a flat interleaved byte image (3 bytes per pixel for RGB when
    /// color_type is 0, else 4 for RGBA) and writes its pixels in row-major
    /// order; an undersized byte buffer is rejected with `DecodeError`.
    pub fn draw_image(&mut self, image: Vec<u8>, w: usize, h: usize, color_type: u8) -> (r: Result<
        (),
        DecodeError,
    >)
        ensures
            r is Ok <==> image@.len() >= w * h * (if color_type == 0 {
                3int
            } else {
                4int
            }),
            r is Err ==> *final(self) == *old(self),
            final(self).width == old(self).width,
            final(self).height == old(self).height,
            r is Ok ==> final(self).buffer@ == spec_draw_image(
                old(self).buffer@,
                old(self).width as int,
                image@,
                w as int,
                h as int,
                color_type,
            ),
    {
        let ch: usize = if color_type == 0 {
            3
        } else {
            4
        };
        proof {
            lemma_idx_fits_u128(w as int, h as int, 0, 0);
            assert((image@.len() as int) / (ch as int) >= (w as int) * (h as int) <==> image@.len()
                >= (w as int) * (h as int) * (ch as int)) by (nonlinear_arith)
                requires
                    ch == 3 || ch == 4,
                    image@.len() >= 0,
                    w >= 0,
                    h >= 0,
            ;
        }
        if (image.len() as u128) / (ch as u128) < (w as u128) * (h as u128) {
            return Err(DecodeError);
        }
        let ghost bw: int = self.width as int;
        let ghost old_buf: Seq<u32> = self.buffer@;
        proof {
            assert((w as int) * (h as int) * (ch as int) >= (w as int) * (h as int) && (w as int) * (
            h as int) >= 0) by (nonlinear_arith)
                requires
                    ch >= 3,
                    w >= 0,
                    h >= 0,
            ;
        }
        let mut y: usize = 0;
        while y < h
            invariant
                0 <= y <= h,
                ch == (if color_type == 0 {
                    3usize
                } else {
                    4usize
                }),
                image@.len() >= w * h * ch,
                self.width == old(self).width,
                self.height == old(self).height,
                bw == old(self).width as int,
                old_buf == old(self).buffer@,
                self.buffer@ == spec_image_upto(
                    old_buf,
                    bw,
                    image@,
                    w as int,
                    color_type,
                    (y * w) as nat,
                ),
            decreases h - y,
        {
            let mut x: usize = 0;
            proof {
                assert((y as int) * (w as int) >= 0 && (y as int) * (w as int) + (w as int) == (
                y as int + 1) * (w as int)) by (nonlinear_arith);
            }
            while x < w
                invariant
                    0 <= x <= w,
                    0 <= y < h,
                    ch == (if color_type == 0 {
                        3usize
                    } else {
                        4usize
                    }),
                    image@.len() >= w * h * ch,
                    self.width == old(self).width,
                    self.height == old(self).height,
                    bw == old(self).width as int,
                    old_buf == old(self).buffer@,
                    self.buffer@ == spec_image_upto(
                        old_buf,
                        bw,
                        image@,
                        w as int,
                        color_type,
                        (y * w + x) as nat,
                    ),
                decreases w - x,
            {
                proof {
                    assert(0 <= (y as int) * (w as int) + (x as int) && (y as int) * (w as int) + (
                    x as int) < (w as int) * (h as int) && ((y as int) * (w as int) + (x as int)) * (
                    ch as int) + (ch as int) <= (w as int) * (h as int) * (ch as int))
                        by (nonlinear_arith)
                        requires
                            0 <= x < w,
                            0 <= y < h,
                            ch >= 1,
                    ;
                    assert(((y as int) * (w as int) + (x as int)) % (w as int) == x as int && ((
                    y as int) * (w as int) + (x as int)) / (w as int) == y as int)
                        by (nonlinear_arith)
                        requires
                            0 <= x < w,
                            0 <= y,
                    ;
                    assert((w as int) * (h as int) <= (w as int) * (h as int) * (ch as int))
                        by (nonlinear_arith)
                        requires
                            w >= 0,
                            h >= 0,
                            ch >= 1,
                    ;
                    assert((w as int) * (h as int) * (ch as int) <= image@.len());
                }
                let ilen: usize = image.len();
                let p: usize = y * w + x;
                let base: usize = p * ch;
                if color_type == 0 {
                    let c: Color = Color::from_rgb(
                        image[base] as u32,
                        image[base + 1] as u32,
                        image[base + 2] as u32,
                    );
                    self.put_pixel(x, y, c);
                } else {
                    let c: Color = Color::from_rgba(
                        image[base] as u32,
                        image[base + 1] as u32,
                        image[base + 2] as u32,
                        image[base + 3] as u32,
                    );
                    proof {
                        assert(x as int + 1 <= w && w <= (w as int) * (h as int))
                            by (nonlinear_arith)
                            requires
                                0 <= x < w,
                                1 <= h,
                        ;
                    }
                    self.put_pixel_a(x + 1, y + 1, c);
                }
                x = x + 1;
            }
            y = y + 1;
        }
        proof {
            assert((h as int) * (w as int) == (w as int) * (h as int)) by (nonlinear_arith);
        }
        Ok(())
    }

    /// Splats a bitmap of rows of packed pixels at the buffer's origin; every
    /// target index must lie inside the buffer.
    pub fn draw_bitmap(&mut self, bitmap: Vec<Vec<u32>>)
        requires
            forall|yy: int, xx: int|
                0 <= yy < old(self).bitmap_rows(bitmap@).len() && 0 <= xx < old(self).bitmap_rows(
                    bitmap@,
                )[yy].len() ==> #[trigger] pix_at(xx, yy, old(self).width as int) < old(
                    self,
                ).buffer@.len(),
        ensures
            final(self).width == old(self).width,
            final(self).height == old(self).height,
            final(self).buffer@ == spec_bitmap_rows_upto(
                old(self).buffer@,
                old(self).width as int,
                old(self).bitmap_rows(bitmap@),
                bitmap@.len(),
            ),
    {
        let ghost bw: int = self.width as int;
        let ghost old_buf: Seq<u32> = self.buffer@;
        let ghost rows: Seq<Seq<u32>> = self.bitmap_rows(bitmap@);
        let mut y: usize = 0;
        while y < bitmap.len()
            invariant
                0 <= y <= bitmap@.len(),
                self.width == old(self).width,
                self.height == old(self).height,
                self.buffer@.len() == old_buf.len(),
                bw == old(self).width as int,
                old_buf == old(self).buffer@,
                rows == old(self).bitmap_rows(bitmap@),
                forall|yy: int, xx: int|
                    0 <= yy < rows.len() && 0 <= xx < rows[yy].len() ==> #[trigger] pix_at(
                        xx,
                        yy,
                        bw,
                    ) < old_buf.len(),
                self.buffer@ == spec_bitmap_rows_upto(old_buf, bw, rows, y as nat),
            decreases bitmap@.len() - y,
        {
            let ghost row_base: Seq<u32> = self.buffer@;
            let mut x: usize = 0;
            while x < bitmap[y].len()
                invariant
                    0 <= y < bitmap@.len(),
                    0 <= x <= rows[y as int].len(),
                    self.width == old(self).width,
                    self.height == old(self).height,
                    self.buffer@.len() == old_buf.len(),
                    bw == old(self).width as int,
                    old_buf == old(self).buffer@,
                    rows == old(self).bitmap_rows(bitmap@),
                    rows[y as int] == bitmap@[y as int]@,
                    forall|yy: int, xx: int|
                        0 <= yy < rows.len() && 0 <= xx < rows[yy].len() ==> #[trigger] pix_at(
                            xx,
                            yy,
                            bw,
                        ) < old_buf.len(),
                    self.buffer@ == spec_bitmap_row_upto(row_base, bw, rows[y as int], y as int, x as nat),
                    row_base == spec_bitmap_rows_upto(old_buf, bw, rows, y as nat),
                decreases rows[y as int].len() - x,
            {
                proof {
                    assert(pix_at(x as int, y as int, bw) < old_buf.len());
                    assert((y as int) * bw + (x as int) < old_buf.len());
                    assert((y as int) * bw >= 0) by (nonlinear_arith)
                        requires
                            y >= 0,
                            bw >= 0,
                    ;
                }
                let blen: usize = self.buffer.len();
                let pos: usize = y * self.width + x;
                let v: u32 = bitmap[y][x];
                self.buffer.set(pos, v);
                x = x + 1;
            }
            y = y + 1;
        }
    }

    /// The rows of a bitmap argument, as sequences.
    pub open spec fn bitmap_rows(self, b: Seq<Vec<u32>>) -> Seq<Seq<u32>> {
        b.map_values(|r: Vec<u32>| r@)
    }
}

/// Relies on rand::thread_rng and rand::Rng::gen_range: a draw from the range
/// 0..255 lies below 255; nothing more is assumed of a random value.
#[verifier::external_body]
fn random_channel() -> (r: u32)
    ensures
        r < 255,
{
    rand::thread_rng().gen_range(0..255u32)
}

impl Color {
    /// A color with randomly drawn channels; each lies in the 8-bit range.
    pub fn rand() -> (c: Color)
        ensures
            c.wf(),
            c.red < 255,
            c.green < 255,
            c.blue < 255,
            c.alpha == 255,
    {
        Color { red: random_channel(), green: random_channel(), blue: random_channel(), alpha: 255 }
    }
}

/// A write at pixel (x, y) where y may be negative: negative rows are dropped,
/// other writes clip by row-major index as `spec_put_idx` does.
pub open spec fn spec_put_at(fb: Seq<u32>, bw: int, x: int, y: int, v: u32) -> Seq<u32> {
    if y >= 0 {
        spec_put_idx(fb, y * bw + x, v)
    } else {
        fb
    }
}

/// The glyph blit after its first k coverage bytes, taken in row-major order:
/// byte j paints pixel (x0 + j%w, yb + j/w) in the foreground color where the
/// coverage is non-zero, else in the background color.
pub open spec fn spec_blit_upto(
    fb: Seq<u32>,
    bw: int,
    g: crate::cursor::GlyphView,
    x0: int,
    yb: int,
    fg: Color,
    bg: Color,
    k: nat,
) -> Seq<u32>
    decreases k,
{
    if k == 0 {
        fb
    } else {
        let j: int = k - 1;
        let gx: int = j % (g.width as int);
        let gy: int = j / (g.width as int);
        let v: u32 = if g.bitmap[j] != 0 {
            fg.spec_rgb()
        } else {
            bg.spec_rgb()
        };
        spec_put_at(
            spec_blit_upto(fb, bw, g, x0, yb, fg, bg, (k - 1) as nat),
            bw,
            x0 + gx,
            yb + gy,
            v,
        )
    }
}

/// The row at which a glyph's bitmap starts: the target row padded down when
/// the point size exceeds the glyph's height, compensated by the glyph's
/// ymin metric.
pub open spec fn blit_base_row(g: crate::cursor::GlyphView, y0: int, fs: int) -> int {
    y0 + (if fs < g.height {
        0int
    } else {
        fs - g.height
    }) - g.ymin
}

/// The whole glyph blit at (x0, y0): the glyph's rows start at the baseline
/// row y0, padded down when the point size exceeds the glyph's height and
/// compensated by the glyph's ymin metric.
pub open spec fn spec_blit(
    fb: Seq<u32>,
    bw: int,
    g: crate::cursor::GlyphView,
    x0: int,
    y0: int,
    fs: int,
    fg: Color,
    bg: Color,
) -> Seq<u32> {
    spec_blit_upto(fb, bw, g, x0, blit_base_row(g, y0, fs), fg, bg, (g.width * g.height) as nat)
}


/// Whether step j of a glyph blit lands a write at buffer index idx, on a
/// buffer of the given length.
pub open spec fn blit_writes_at(
    len: int,
    bw: int,
    g: crate::cursor::GlyphView,
    x0: int,
    yb: int,
    j: int,
    idx: int,
) -> bool {
    let gx: int = j % (g.width as int);
    let gy: int = j / (g.width as int);
    yb + gy >= 0 && (yb + gy) * bw + (x0 + gx) == idx && 0 <= idx < len
}

/// Whether the first k steps of a glyph blit write buffer index idx at all.
pub open spec fn blit_upto_touches(
    len: int,
    bw: int,
    g: crate::cursor::GlyphView,
    x0: int,
    yb: int,
    k: nat,
    idx: int,
) -> bool
    decreases k,
{
    k > 0 && (blit_writes_at(len, bw, g, x0, yb, k - 1, idx) || blit_upto_touches(
        len,
        bw,
        g,
        x0,
        yb,
        (k - 1) as nat,
        idx,
    ))
}

/// Whether a whole glyph blit at (x0, y0) writes buffer index idx; this
/// depends only on the geometry, never on the colors.
pub open spec fn spec_blit_touches(
    len: int,
    bw: int,
    g: crate::cursor::GlyphView,
    x0: int,
    y0: int,
    fs: int,
    idx: int,
) -> bool {
    blit_upto_touches(len, bw, g, x0, blit_base_row(g, y0, fs), (g.width * g.height) as nat, idx)
}

/// A glyph blit never changes the buffer's length.
pub proof fn lemma_blit_upto_len(
    fb: Seq<u32>,
    bw: int,
    g: crate::cursor::GlyphView,
    x0: int,
    yb: int,
    fg: Color,
    bg: Color,
    k: nat,
)
    ensures
        spec_blit_upto(fb, bw, g, x0, yb, fg, bg, k).len() == fb.len(),
    decreases k,
{
    if k > 0 {
        lemma_blit_upto_len(fb, bw, g, x0, yb, fg, bg, (k - 1) as nat);
    }
}

/// A buffer index that no step of a glyph blit writes keeps its old value.
pub proof fn lemma_blit_upto_untouched(
    fb: Seq<u32>,
    bw: int,
    g: crate::cursor::GlyphView,
    x0: int,
    yb: int,
    fg: Color,
    bg: Color,
    k: nat,
    idx: int,
)
    requires
        0 <= idx < fb.len(),
        !blit_upto_touches(fb.len() as int, bw, g, x0, yb, k, idx),
    ensures
        spec_blit_upto(fb, bw, g, x0, yb, fg, bg, k)[idx] == fb[idx],
    decreases k,
{
    if k > 0 {
        lemma_blit_upto_untouched(fb, bw, g, x0, yb, fg, bg, (k - 1) as nat, idx);
        lemma_blit_upto_len(fb, bw, g, x0, yb, fg, bg, (k - 1) as nat);
    }
}

/// A glyph blit whose foreground and background agree writes only that color:
/// every index it touches ends up holding it.
pub proof fn lemma_blit_upto_const(
    fb: Seq<u32>,
    bw: int,
    g: crate::cursor::GlyphView,
    x0: int,
    yb: int,
    bg: Color,
    k: nat,
    idx: int,
)
    requires
        0 <= idx < fb.len(),
        blit_upto_touches(fb.len() as int, bw, g, x0, yb, k, idx),
    ensures
        spec_blit_upto(fb, bw, g, x0, yb, bg, bg, k)[idx] == bg.spec_rgb(),
    decreases k,
{
    lemma_blit_upto_len(fb, bw, g, x0, yb, bg, bg, (k - 1) as nat);
    if blit_writes_at(fb.len() as int, bw, g, x0, yb, k - 1, idx) {
    } else {
        lemma_blit_upto_const(fb, bw, g, x0, yb, bg, (k - 1) as nat, idx);
    }
}

impl ScreenBuffer {
    /// Blits a rasterized glyph's coverage bitmap at (x, y): zero coverage
    /// paints the background color, non-zero coverage the foreground color,
    /// with the same silent clipping as `put_pixel`.
    pub fn blit_glyph(
        &mut self,
        g: &Glyph,
        x: usize,
        y: usize,
        font_size: usize,
        color: Color,
        background_color: Color,
    )
        requires
            old(self).wf(),
            g@.wf(),
        ensures
            final(self).width == old(self).width,
            final(self).height == old(self).height,
            final(self).wf(),
            final(self).buffer@ == spec_blit(
                old(self).buffer@,
                old(self).width as int,
                g@,
                x as int,
                y as int,
                font_size as int,
                color,
                background_color,
            ),
    {
        let gw: usize = g.width;
        let gh: usize = g.height;
        let pad: usize = if font_size < gh {
            0
        } else {
            font_size - gh
        };
        let yb: i128 = y as i128 + pad as i128 - g.ymin as i128;
        let ghost old_buf: Seq<u32> = self.buffer@;
        let ghost bw: int = self.width as int;
        let mut gy: usize = 0;
        while gy < gh
            invariant
                0 <= gy <= gh,
                gw == g.width && gh == g.height,
                g@.wf(),
                self.width == old(self).width,
                self.height == old(self).height,
                self.wf(),
                bw == old(self).width as int,
                old_buf == old(self).buffer@,
                yb == y as int + (if font_size < gh {
                    0int
                } else {
                    font_size - gh
                }) - g.ymin,
                self.buffer@ == spec_blit_upto(
                    old_buf,
                    bw,
                    g@,
                    x as int,
                    yb as int,
                    color,
                    background_color,
                    (gy * gw) as nat,
                ),
            decreases gh - gy,
        {
            proof {
                assert((gy as int) * (gw as int) >= 0 && (gy as int) * (gw as int) + (gw as int) <= (
                gw as int) * (gh as int)) by (nonlinear_arith)
                    requires
                        0 <= gy < gh,
                        0 <= gw,
                ;
            }
            let mut gx: usize = 0;
            while gx < gw
                invariant
                    0 <= gx <= gw,
                    0 <= gy < gh,
                    gw == g.width && gh == g.height,
                    g@.wf(),
                    self.width == old(self).width,
                    self.height == old(self).height,
                    self.wf(),
                    bw == old(self).width as int,
                    old_buf == old(self).buffer@,
                    yb == y as int + (if font_size < gh {
                        0int
                    } else {
                        font_size - gh
                    }) - g.ymin,
                    (gy as int) * (gw as int) + (gw as int) <= (gw as int) * (gh as int),
                    self.buffer@ == spec_blit_upto(
                        old_buf,
                        bw,
                        g@,
                        x as int,
                        yb as int,
                        color,
                        background_color,
                        (gy * gw + gx) as nat,
                    ),
                decreases gw - gx,
            {
                proof {
                    assert(((gy as int) * (gw as int) + (gx as int)) % (gw as int) == gx as int && (
                    (gy as int) * (gw as int) + (gx as int)) / (gw as int) == gy as int && 0 <= (
                    gy as int) * (gw as int) + (gx as int)) by (nonlinear_arith)
                        requires
                            0 <= gx < gw,
                            0 <= gy,
                    ;
                }
                let bl: usize = g.bitmap.len();
                let j: usize = gy * gw + gx;
                let cov: u8 = g.bitmap[j];
                let v: u32 = if cov != 0 {
                    color.to_hex_rgb()
                } else {
                    background_color.to_hex_rgb()
                };
                let ty: i128 = yb + gy as i128;
                let len: usize = self.buffer.len();
                let ghost prev: Seq<u32> = self.buffer@;
                if ty >= 0 && ty < len as i128 && self.width > 0 {
                    proof {
                        lemma_idx_fits_u128(ty as int, bw, x as int, gx as int);
                    }
                    let idx: u128 = (ty as u128) * (self.width as u128) + (x as u128) + (
                    gx as u128);
                    if idx < len as u128 {
                        self.buffer.set(idx as usize, v);
                    }
                }
                proof {
                    let tyi: int = ty as int;
                    let idxi: int = tyi * bw + (x as int) + (gx as int);
                    if tyi >= 0 {
                        if self.width == 0 {
                            let hh: int = self.height as int;
                            assert(bw * hh == 0) by (nonlinear_arith)
                                requires
                                    bw == 0,
                            ;
                            assert(prev.len() == 0);
                        } else if tyi >= len {
                            let xi: int = x as int;
                            let gxi: int = gx as int;
                            assert(tyi * bw + xi + gxi >= tyi) by (nonlinear_arith)
                                requires
                                    tyi >= 0,
                                    bw >= 1,
                                    xi >= 0,
                                    gxi >= 0,
                            ;
                        }
                    }
                    assert(self.buffer@ == spec_put_at(
                        prev,
                        bw,
                        x as int + gx as int,
                        tyi,
                        v,
                    ));
                    assert(self.buffer@ == spec_blit_upto(
                        old_buf,
                        bw,
                        g@,
                        x as int,
                        yb as int,
                        color,
                        background_color,
                        (gy * gw + gx + 1) as nat,
                    ));
                }
                gx = gx + 1;
            }
            proof {
                assert((gy as int + 1) * (gw as int) == (gy as int) * (gw as int) + (gw as int))
                    by (nonlinear_arith);
            }
            gy = gy + 1;
        }
        proof {
            assert((gh as int) * (gw as int) == (gw as int) * (gh as int)) by (nonlinear_arith);
        }
    }

    /// Rasterizes a character through the font and blits it at (x, y); the
    /// result is exactly the blit of the glyph the font yields for it.
    pub fn draw_char(
        &mut self,
        chr: char,
        x: usize,
        y: usize,
        color: Color,
        background_color: Color,
        font: &crate::cursor::Typeface,
    )
        requires
            old(self).wf(),
        ensures
            final(self).width == old(self).width,
            final(self).height == old(self).height,
            final(self).wf(),
            final(self).buffer@ == spec_blit(
                old(self).buffer@,
                old(self).width as int,
                crate::cursor::glyph_of(font.bytes(), font.spec_size() as int, chr),
                x as int,
                y as int,
                font.spec_size() as int,
                color,
                background_color,
            ),
    {
        let g: Glyph = crate::cursor::rasterize_glyph(font, chr);
        let fs: usize = font.font_size();
        self.blit_glyph(&g, x, y, fs, color, background_color);
    }
}

/// A write at a pixel below the grid, or right of the grid with a row-major
/// index past the end of the buffer, leaves the buffer unchanged.
pub proof fn lemma_put_pixel_out_of_bounds(fb: Seq<u32>, w: int, h: int, x: int, y: int, v: u32)
    requires
        fb.len() == w * h,
        0 <= x,
        0 <= y,
        0 <= w,
        0 <= h,
        y >= h || (x >= w && y * w + x >= fb.len()),
    ensures
        spec_put_idx(fb, y * w + x, v) == fb,
{
    if y >= h {
        assert(y * w >= h * w) by (nonlinear_arith)
            requires
                y >= h,
                w >= 0,
        ;
        assert(h * w == w * h) by (nonlinear_arith);
    }
}

/// A write at a pixel inside the grid lands at its row-major index and reads
/// back exactly the packed value.
pub proof fn lemma_put_pixel_read_back(fb: Seq<u32>, w: int, h: int, x: int, y: int, v: u32)
    requires
        fb.len() == w * h,
        0 <= x < w,
        0 <= y < h,
    ensures
        spec_put_idx(fb, y * w + x, v)[y * w + x] == v,
        spec_put_idx(fb, y * w + x, v).len() == fb.len(),
{
    assert(0 <= y * w + x < w * h) by (nonlinear_arith)
        requires
            0 <= x < w,
            0 <= y < h,
    ;
}


} // verus!
