//! Fonts, glyph rasterization, and the text cursor buffer that composites
//! typed characters into a framebuffer.

use vstd::prelude::*;

use crate::screen::CharBoundary;
use crate::screen::ScreenBuffer;

verus! {

/// Malformed or unreadable font bytes.
#[derive(Clone, Copy, Debug, PartialEq, Eq, Structural)]
pub struct FontLoadError;

/// Whether fontdue accepts the given bytes as a font at the given size; the
/// answer depends on the bytes and the size alone.
pub uninterp spec fn font_parses(data: Seq<u8>, size: int) -> bool;

/// The glyph that fontdue rasterizes for a character, from the font bytes and
/// the rendering size alone: its bounding-box metrics and coverage bitmap.
pub uninterp spec fn glyph_of(data: Seq<u8>, size: int, c: char) -> GlyphView;

/// The mathematical content of a rasterized glyph.
pub ghost struct GlyphView {
    pub width: nat,
    pub height: nat,
    pub ymin: int,
    pub bitmap: Seq<u8>,
}

impl GlyphView {
    /// The coverage bitmap holds one byte per pixel of the bounding box.
    pub open spec fn wf(self) -> bool {
        self.bitmap.len() == self.width * self.height
    }
}

/// A rasterized glyph: bounding-box metrics and a row-major coverage bitmap,
/// one byte per pixel (0 is background, non-zero is ink).
pub struct Glyph {
    pub width: usize,
    pub height: usize,
    pub ymin: i32,
    pub bitmap: Vec<u8>,
}

impl View for Glyph {
    type V = GlyphView;

    open spec fn view(&self) -> GlyphView {
        GlyphView {
            width: self.width as nat,
            height: self.height as nat,
            ymin: self.ymin as int,
            bitmap: self.bitmap@,
        }
    }
}

/// An immutable font: the raw font-file bytes, the fixed rendering point
/// size, and the rasterization engine built once from the bytes. The engine
/// always matches the bytes and the size because this module builds it in the
/// only constructor.
pub struct Typeface {
    size: usize,
    data: Vec<u8>,
    engine: fontdue::Font,
}

impl Typeface {
    /// The fixed point size rasterization is requested at.
    pub closed spec fn spec_size(&self) -> usize {
        self.size
    }

    /// The raw font-file bytes the engine was built from.
    pub closed spec fn bytes(&self) -> Seq<u8> {
        self.data@
    }

    pub fn font_size(&self) -> (s: usize)
        ensures
            s == self.spec_size(),
    {
        self.size
    }

    pub fn font_data(&self) -> (d: &Vec<u8>)
        ensures
            d@ == self.bytes(),
    {
        &self.data
    }

    /// Relies on fontdue::Font::from_bytes: it builds a rasterization engine
    /// from font-file bytes, succeeding or failing as a function of the bytes
    /// and the settings alone; the settings here are fontdue's defaults with
    /// the scale set to the point size.
    #[verifier::external_body]
    pub fn from_bytes(file: Vec<u8>, font_size: usize) -> (r: Result<Typeface, FontLoadError>)
        ensures
            r is Ok <==> font_parses(file@, font_size as int),
            r matches Ok(f) ==> f.spec_size() == font_size && f.bytes() == file@,
    {
        let settings = fontdue::FontSettings { scale: font_size as _, ..Default::default() };
        match fontdue::Font::from_bytes(file.clone(), settings) {
            Ok(engine) => Ok(Typeface { size: font_size, data: file, engine }),
            Err(_) => Err(FontLoadError),
        }
    }
}

/// Relies on fontdue::Font::rasterize: the metrics and coverage bitmap are a
/// function of the font bytes, the rendering size and the character alone,
/// and the bitmap holds exactly width*height coverage bytes.
#[verifier::external_body]
pub(crate) fn rasterize_glyph(font: &Typeface, c: char) -> (g: Glyph)
    ensures
        g@ == glyph_of(font.bytes(), font.spec_size() as int, c),
        g@.wf(),
{
    let (metrics, bitmap) = font.engine.rasterize(c, font.size as _);
    Glyph { width: metrics.width, height: metrics.height, ymin: metrics.ymin, bitmap }
}

/// One entry of the text buffer: the character, a rendered flag reserved for
/// incremental redraw, and an optional precomputed boundary rectangle.
#[derive(Clone, Copy, Debug)]
pub struct Char {
    pub rendered: bool,
    pub char: char,
    pub boundaries: Option<CharBoundary>,
}

impl Char {
    pub fn build(c: char) -> (r: Char)
        ensures
            r == spec_char_build(c),
    {
        Char { rendered: false, char: c, boundaries: None }
    }
}

/// The buffer entry that `Char::build` makes for a character.
pub open spec fn spec_char_build(c: char) -> Char {
    Char { rendered: false, char: c, boundaries: None }
}

/// The render boundary of a cursor buffer: origin and size of the region of
/// the target framebuffer it draws into and wraps within.
#[derive(Clone, Copy, Debug)]
pub struct Boundaries {
    pub start_x: usize,
    pub start_y: usize,
    pub width: usize,
    pub height: usize,
}

/// The virtual pen after the characters from index i on, starting from
/// column rx and row ry: a line break resets the column and advances the row
/// by the font size, wrapping the row to 0 at the boundary height; a
/// printable character advances the column by the fixed per-character width.
pub open spec fn spec_pen_from(cs: Seq<char>, i: nat, rx: int, ry: int, fs: int, bh: int) -> (
    int,
    int,
)
    decreases cs.len() - i,
{
    if i >= cs.len() {
        (rx, ry)
    } else if cs[i as int] == '\n' {
        let ry2: int = if ry + fs >= bh {
            0int
        } else {
            ry + fs
        };
        spec_pen_from(cs, i + 1, 0, ry2, fs, bh)
    } else {
        spec_pen_from(cs, i + 1, rx + 15, ry, fs, bh)
    }
}

/// The virtual pen after a whole character sequence, from the origin.
pub open spec fn spec_pen(cs: Seq<char>, fs: int, bh: int) -> (int, int) {
    spec_pen_from(cs, 0, 0, 0, fs, bh)
}

/// The framebuffer after rendering the characters from index i on, with the
/// pen at (rx, ry): line breaks move the pen as `spec_pen_from` does, and
/// each printable character blits its rasterized glyph at the boundary origin
/// plus the pen.
pub open spec fn spec_render_from(
    fb: Seq<u32>,
    bw: int,
    cs: Seq<char>,
    i: nat,
    rx: int,
    ry: int,
    fdata: Seq<u8>,
    fs: int,
    sx: int,
    sy: int,
    bh: int,
    fg: crate::screen::Color,
    bg: crate::screen::Color,
) -> Seq<u32>
    decreases cs.len() - i,
{
    if i >= cs.len() {
        fb
    } else if cs[i as int] == '\n' {
        let ry2: int = if ry + fs >= bh {
            0int
        } else {
            ry + fs
        };
        spec_render_from(fb, bw, cs, i + 1, 0, ry2, fdata, fs, sx, sy, bh, fg, bg)
    } else {
        let fb2: Seq<u32> = crate::screen::spec_blit(
            fb,
            bw,
            glyph_of(fdata, fs, cs[i as int]),
            sx + rx,
            sy + ry,
            fs,
            fg,
            bg,
        );
        spec_render_from(fb2, bw, cs, i + 1, rx + 15, ry, fdata, fs, sx, sy, bh, fg, bg)
    }
}

/// The framebuffer after rendering a whole character sequence from the
/// origin pen.
pub open spec fn spec_render(
    fb: Seq<u32>,
    bw: int,
    cs: Seq<char>,
    fdata: Seq<u8>,
    fs: int,
    sx: int,
    sy: int,
    bh: int,
    fg: crate::screen::Color,
    bg: crate::screen::Color,
) -> Seq<u32> {
    spec_render_from(fb, bw, cs, 0, 0, 0, fdata, fs, sx, sy, bh, fg, bg)
}

/// The virtual pen position after walking a character sequence, exactly as
/// `Cursor::render` walks it.
pub fn pen_after(chars: &Vec<char>, font_size: usize, boundary_height: usize) -> (p: (
    usize,
    usize,
))
    requires
        chars@.len() * 15 <= usize::MAX,
        boundary_height + font_size <= usize::MAX,
    ensures
        (p.0 as int, p.1 as int) == spec_pen(chars@, font_size as int, boundary_height as int),
{
    let mut rx: usize = 0;
    let mut ry: usize = 0;
    let mut i: usize = 0;
    let n: usize = chars.len();
    while i < n
        invariant
            i <= n,
            n == chars@.len(),
            chars@.len() * 15 <= usize::MAX,
            boundary_height + font_size <= usize::MAX,
            rx <= 15 * i,
            ry <= boundary_height,
            spec_pen_from(
                chars@,
                i as nat,
                rx as int,
                ry as int,
                font_size as int,
                boundary_height as int,
            ) == spec_pen(chars@, font_size as int, boundary_height as int),
        decreases n - i,
    {
        let c: char = chars[i];
        if c == '\n' {
            rx = 0;
            ry = ry + font_size;
            if ry >= boundary_height {
                ry = 0;
            }
        } else {
            rx = rx + 15;
        }
        i = i + 1;
    }
    (rx, ry)
}

/// An ordered sequence of typed characters with a write index, the colors to
/// composite with, and the boundary the render pen wraps within.
pub struct Cursor {
    pub font: Typeface,
    pub case: bool,
    pub buffer: Vec<Char>,
    pub pos: usize,
    pub blink: bool,
    pub boundaries: Boundaries,
    pub color: crate::screen::Color,
    pub background_color: crate::screen::Color,
}

impl Cursor {
    /// The write index never runs past the buffer.
    pub open spec fn wf(self) -> bool {
        self.pos <= self.buffer@.len()
    }

    /// The characters held in the buffer, in order.
    pub open spec fn chars(self) -> Seq<char> {
        self.buffer@.map_values(|c: Char| c.char)
    }

    pub fn new(font: Typeface, boundaries: Boundaries) -> (c: Cursor)
        ensures
            c.font == font,
            c.case == true,
            c.buffer@ == Seq::<Char>::empty(),
            c.pos == 0,
            c.blink == true,
            c.boundaries == boundaries,
            c.color == (crate::screen::Color { red: 255, green: 255, blue: 255, alpha: 255 }),
            c.background_color == (crate::screen::Color {
                red: 0,
                green: 0,
                blue: 0,
                alpha: 255,
            }),
            c.wf(),
    {
        Cursor {
            font,
            case: true,
            buffer: Vec::new(),
            pos: 0,
            blink: true,
            boundaries,
            color: crate::screen::Color::from_rgb(255, 255, 255),
            background_color: crate::screen::Color::from_rgb(0, 0, 0),
        }
    }

    fn print_char(&mut self, c: char)
        requires
            old(self).wf(),
        ensures
            final(self).buffer@ == old(self).buffer@.push(spec_char_build(c)),
            final(self).pos == old(self).pos + 1,
            final(self).font == old(self).font,
            final(self).case == old(self).case,
            final(self).blink == old(self).blink,
            final(self).boundaries == old(self).boundaries,
            final(self).color == old(self).color,
            final(self).background_color == old(self).background_color,
            final(self).wf(),
    {
        self.buffer.push(Char::build(c));
        let l: usize = self.buffer.len();
        self.pos = self.pos + 1;
    }

    /// Appends one buffer entry per character of the text, advancing the
    /// write index by one per character; no wrapping happens at append time.
    pub fn print(&mut self, text: &str)
        requires
            old(self).wf(),
        ensures
            final(self).buffer@ == old(self).buffer@ + text@.map_values(
                |c: char| spec_char_build(c),
            ),
            final(self).pos == old(self).pos + text@.len(),
            final(self).font == old(self).font,
            final(self).case == old(self).case,
            final(self).blink == old(self).blink,
            final(self).boundaries == old(self).boundaries,
            final(self).color == old(self).color,
            final(self).background_color == old(self).background_color,
            final(self).wf(),
    {
        let n: usize = text.unicode_len();
        let mut i: usize = 0;
        while i < n
            invariant
                i <= n,
                n == text@.len(),
                self.wf(),
                self.buffer@ == old(self).buffer@ + text@.take(i as int).map_values(
                    |c: char| spec_char_build(c),
                ),
                self.pos == old(self).pos + i,
                self.font == old(self).font,
                self.case == old(self).case,
                self.blink == old(self).blink,
                self.boundaries == old(self).boundaries,
                self.color == old(self).color,
                self.background_color == old(self).background_color,
            decreases n - i,
        {
            let c: char = text.get_char(i);
            self.print_char(c);
            proof {
                assert(self.buffer@ =~= old(self).buffer@ + text@.take(i as int + 1).map_values(
                    |c: char| spec_char_build(c),
                ));
            }
            i = i + 1;
        }
        proof {
            assert(text@.take(n as int) =~= text@);
            assert(self.buffer@ =~= old(self).buffer@ + text@.map_values(
                |c: char| spec_char_build(c),
            ));
        }
    }

    /// Resets the write index and appends a line-break entry.
    pub fn new_line(&mut self)
        requires
            old(self).wf(),
        ensures
            final(self).pos == 0,
            final(self).buffer@ == old(self).buffer@.push(spec_char_build('\n')),
            final(self).font == old(self).font,
            final(self).case == old(self).case,
            final(self).blink == old(self).blink,
            final(self).boundaries == old(self).boundaries,
            final(self).color == old(self).color,
            final(self).background_color == old(self).background_color,
            final(self).wf(),
    {
        self.pos = 0;
        self.buffer.push(Char::build('\n'));
    }

    /// `print` followed by a line break.
    pub fn println(&mut self, text: &str)
        requires
            old(self).wf(),
        ensures
            final(self).buffer@ == old(self).buffer@ + text@.map_values(
                |c: char| spec_char_build(c),
            ) + seq![spec_char_build('\n')],
            final(self).pos == 0,
            final(self).font == old(self).font,
            final(self).case == old(self).case,
            final(self).blink == old(self).blink,
            final(self).boundaries == old(self).boundaries,
            final(self).color == old(self).color,
            final(self).background_color == old(self).background_color,
            final(self).wf(),
    {
        self.print(text);
        self.new_line();
        proof {
            assert(self.buffer@ =~= old(self).buffer@ + text@.map_values(
                |c: char| spec_char_build(c),
            ) + seq![spec_char_build('\n')]);
        }
    }

    /// Removes the entry immediately before the write index and steps the
    /// index back; does nothing when the index is at 0.
    pub fn backspace(&mut self)
        requires
            old(self).wf(),
        ensures
            old(self).pos > 0 ==> final(self).buffer@ == old(self).buffer@.remove(
                old(self).pos - 1,
            ),
            old(self).pos > 0 ==> final(self).pos == old(self).pos - 1,
            old(self).pos == 0 ==> *final(self) == *old(self),
            final(self).font == old(self).font,
            final(self).case == old(self).case,
            final(self).blink == old(self).blink,
            final(self).boundaries == old(self).boundaries,
            final(self).color == old(self).color,
            final(self).background_color == old(self).background_color,
            final(self).wf(),
    {
        if self.pos > 0 {
            self.buffer.remove(self.pos - 1);
            self.pos = self.pos - 1;
        }
    }

    /// Walks the buffer in order with a virtual pen from the boundary origin:
    /// line breaks wrap the pen row at the boundary height, and each
    /// printable character's glyph is blitted at the pen, foreground on ink,
    /// background elsewhere.
    pub fn render(&self, screen_buffer: &mut ScreenBuffer)
        requires
            old(screen_buffer).wf(),
            self.boundaries.start_x + self.buffer@.len() * 15 <= usize::MAX,
            self.boundaries.start_y + self.boundaries.height + self.font.spec_size()
                <= usize::MAX,
        ensures
            final(screen_buffer).width == old(screen_buffer).width,
            final(screen_buffer).height == old(screen_buffer).height,
            final(screen_buffer).wf(),
            final(screen_buffer).buffer@ == spec_render(
                old(screen_buffer).buffer@,
                old(screen_buffer).width as int,
                self.chars(),
                self.font.bytes(),
                self.font.spec_size() as int,
                self.boundaries.start_x as int,
                self.boundaries.start_y as int,
                self.boundaries.height as int,
                self.color,
                self.background_color,
            ),
    {
        let fs: usize = self.font.font_size();
        let sx: usize = self.boundaries.start_x;
        let sy: usize = self.boundaries.start_y;
        let bh: usize = self.boundaries.height;
        let n: usize = self.buffer.len();
        let ghost bw: int = screen_buffer.width as int;
        let ghost goal: Seq<u32> = spec_render(
            screen_buffer.buffer@,
            bw,
            self.chars(),
            self.font.bytes(),
            fs as int,
            sx as int,
            sy as int,
            bh as int,
            self.color,
            self.background_color,
        );
        let mut rx: usize = 0;
        let mut ry: usize = 0;
        let mut i: usize = 0;
        while i < n
            invariant
                i <= n,
                n == self.buffer@.len(),
                fs == self.font.spec_size(),
                sx == self.boundaries.start_x,
                sy == self.boundaries.start_y,
                bh == self.boundaries.height,
                sx + n * 15 <= usize::MAX,
                sy + bh + fs <= usize::MAX,
                rx <= 15 * i,
                ry <= bh,
                screen_buffer.width == old(screen_buffer).width,
                screen_buffer.height == old(screen_buffer).height,
                screen_buffer.wf(),
                bw == old(screen_buffer).width as int,
                spec_render_from(
                    screen_buffer.buffer@,
                    bw,
                    self.chars(),
                    i as nat,
                    rx as int,
                    ry as int,
                    self.font.bytes(),
                    fs as int,
                    sx as int,
                    sy as int,
                    bh as int,
                    self.color,
                    self.background_color,
                ) == goal,
            decreases n - i,
        {
            let c: char = self.buffer[i].char;
            proof {
                assert(self.chars()[i as int] == c);
            }
            if c == '\n' {
                rx = 0;
                ry = ry + fs;
                if ry >= bh {
                    ry = 0;
                }
            } else {
                screen_buffer.draw_char(c, sx + rx, sy + ry, self.color, self.background_color, &self.font);
                rx = rx + 15;
            }
            i = i + 1;
        }
        proof {
            assert(spec_render_from(
                screen_buffer.buffer@,
                bw,
                self.chars(),
                n as nat,
                rx as int,
                ry as int,
                self.font.bytes(),
                fs as int,
                sx as int,
                sy as int,
                bh as int,
                self.color,
                self.background_color,
            ) == screen_buffer.buffer@);
        }
    }

    /// Erase-by-redraw, then empty: re-renders the exact sequence with the
    /// background color swapped in for the foreground, then empties the
    /// buffer and resets the write index.
    pub fn clear(&mut self, screen_buffer: &mut ScreenBuffer)
        requires
            old(screen_buffer).wf(),
            old(self).boundaries.start_x + old(self).buffer@.len() * 15 <= usize::MAX,
            old(self).boundaries.start_y + old(self).boundaries.height + old(
                self,
            ).font.spec_size() <= usize::MAX,
        ensures
            final(self).buffer@ == Seq::<Char>::empty(),
            final(self).pos == 0,
            final(self).font == old(self).font,
            final(self).case == old(self).case,
            final(self).blink == old(self).blink,
            final(self).boundaries == old(self).boundaries,
            final(self).color == old(self).color,
            final(self).background_color == old(self).background_color,
            final(self).wf(),
            final(screen_buffer).width == old(screen_buffer).width,
            final(screen_buffer).height == old(screen_buffer).height,
            final(screen_buffer).wf(),
            final(screen_buffer).buffer@ == spec_render(
                old(screen_buffer).buffer@,
                old(screen_buffer).width as int,
                old(self).chars(),
                old(self).font.bytes(),
                old(self).font.spec_size() as int,
                old(self).boundaries.start_x as int,
                old(self).boundaries.start_y as int,
                old(self).boundaries.height as int,
                old(self).background_color,
                old(self).background_color,
            ),
    {
        let old_color: crate::screen::Color = self.color;
        self.color = self.background_color;
        self.render(screen_buffer);
        self.color = old_color;
        self.buffer = Vec::new();
        self.pos = 0;
    }
}

/// Whether rendering the characters from index i on, with the pen at
/// (rx, ry), writes buffer index idx at all; this depends only on the
/// sequence and the geometry, never on the colors.
pub open spec fn render_from_touches(
    len: int,
    bw: int,
    cs: Seq<char>,
    i: nat,
    rx: int,
    ry: int,
    fdata: Seq<u8>,
    fs: int,
    sx: int,
    sy: int,
    bh: int,
    idx: int,
) -> bool
    decreases cs.len() - i,
{
    i < cs.len() && (if cs[i as int] == '\n' {
        let ry2: int = if ry + fs >= bh {
            0int
        } else {
            ry + fs
        };
        render_from_touches(len, bw, cs, i + 1, 0, ry2, fdata, fs, sx, sy, bh, idx)
    } else {
        crate::screen::spec_blit_touches(
            len,
            bw,
            glyph_of(fdata, fs, cs[i as int]),
            sx + rx,
            sy + ry,
            fs,
            idx,
        ) || render_from_touches(len, bw, cs, i + 1, rx + 15, ry, fdata, fs, sx, sy, bh, idx)
    })
}

/// A render never changes the buffer's length.
pub proof fn lemma_render_from_len(
    fb: Seq<u32>,
    bw: int,
    cs: Seq<char>,
    i: nat,
    rx: int,
    ry: int,
    fdata: Seq<u8>,
    fs: int,
    sx: int,
    sy: int,
    bh: int,
    fg: crate::screen::Color,
    bg: crate::screen::Color,
)
    ensures
        spec_render_from(fb, bw, cs, i, rx, ry, fdata, fs, sx, sy, bh, fg, bg).len() == fb.len(),
    decreases cs.len() - i,
{
    if i < cs.len() {
        if cs[i as int] == '\n' {
            let ry2: int = if ry + fs >= bh {
                0int
            } else {
                ry + fs
            };
            lemma_render_from_len(fb, bw, cs, i + 1, 0, ry2, fdata, fs, sx, sy, bh, fg, bg);
        } else {
            let g: GlyphView = glyph_of(fdata, fs, cs[i as int]);
            let fb2: Seq<u32> = crate::screen::spec_blit(fb, bw, g, sx + rx, sy + ry, fs, fg, bg);
            crate::screen::lemma_blit_upto_len(
                fb,
                bw,
                g,
                sx + rx,
                crate::screen::blit_base_row(g, sy + ry, fs),
                fg,
                bg,
                (g.width * g.height) as nat,
            );
            lemma_render_from_len(fb2, bw, cs, i + 1, rx + 15, ry, fdata, fs, sx, sy, bh, fg, bg);
        }
    }
}

/// A buffer index that no step of a render writes keeps its old value.
pub proof fn lemma_render_from_untouched(
    fb: Seq<u32>,
    bw: int,
    cs: Seq<char>,
    i: nat,
    rx: int,
    ry: int,
    fdata: Seq<u8>,
    fs: int,
    sx: int,
    sy: int,
    bh: int,
    fg: crate::screen::Color,
    bg: crate::screen::Color,
    idx: int,
)
    requires
        0 <= idx < fb.len(),
        !render_from_touches(fb.len() as int, bw, cs, i, rx, ry, fdata, fs, sx, sy, bh, idx),
    ensures
        spec_render_from(fb, bw, cs, i, rx, ry, fdata, fs, sx, sy, bh, fg, bg)[idx] == fb[idx],
    decreases cs.len() - i,
{
    if i < cs.len() {
        if cs[i as int] == '\n' {
            let ry2: int = if ry + fs >= bh {
                0int
            } else {
                ry + fs
            };
            lemma_render_from_untouched(
                fb,
                bw,
                cs,
                i + 1,
                0,
                ry2,
                fdata,
                fs,
                sx,
                sy,
                bh,
                fg,
                bg,
                idx,
            );
        } else {
            let g: GlyphView = glyph_of(fdata, fs, cs[i as int]);
            let yb: int = crate::screen::blit_base_row(g, sy + ry, fs);
            let fb2: Seq<u32> = crate::screen::spec_blit(fb, bw, g, sx + rx, sy + ry, fs, fg, bg);
            crate::screen::lemma_blit_upto_len(
                fb,
                bw,
                g,
                sx + rx,
                yb,
                fg,
                bg,
                (g.width * g.height) as nat,
            );
            crate::screen::lemma_blit_upto_untouched(
                fb,
                bw,
                g,
                sx + rx,
                yb,
                fg,
                bg,
                (g.width * g.height) as nat,
                idx,
            );
            lemma_render_from_untouched(
                fb2,
                bw,
                cs,
                i + 1,
                rx + 15,
                ry,
                fdata,
                fs,
                sx,
                sy,
                bh,
                fg,
                bg,
                idx,
            );
        }
    }
}

/// A render whose foreground equals its background writes only that color:
/// every index it touches ends up holding the background's packed value.
pub proof fn lemma_render_from_const(
    fb: Seq<u32>,
    bw: int,
    cs: Seq<char>,
    i: nat,
    rx: int,
    ry: int,
    fdata: Seq<u8>,
    fs: int,
    sx: int,
    sy: int,
    bh: int,
    bg: crate::screen::Color,
    idx: int,
)
    requires
        0 <= idx < fb.len(),
        render_from_touches(fb.len() as int, bw, cs, i, rx, ry, fdata, fs, sx, sy, bh, idx),
    ensures
        spec_render_from(fb, bw, cs, i, rx, ry, fdata, fs, sx, sy, bh, bg, bg)[idx]
            == bg.spec_rgb(),
    decreases cs.len() - i,
{
    if cs[i as int] == '\n' {
        let ry2: int = if ry + fs >= bh {
            0int
        } else {
            ry + fs
        };
        lemma_render_from_const(fb, bw, cs, i + 1, 0, ry2, fdata, fs, sx, sy, bh, bg, idx);
    } else {
        let g: GlyphView = glyph_of(fdata, fs, cs[i as int]);
        let yb: int = crate::screen::blit_base_row(g, sy + ry, fs);
        let fb2: Seq<u32> = crate::screen::spec_blit(fb, bw, g, sx + rx, sy + ry, fs, bg, bg);
        crate::screen::lemma_blit_upto_len(
            fb,
            bw,
            g,
            sx + rx,
            yb,
            bg,
            bg,
            (g.width * g.height) as nat,
        );
        if render_from_touches(fb.len() as int, bw, cs, i + 1, rx + 15, ry, fdata, fs, sx, sy, bh, idx) {
            lemma_render_from_const(fb2, bw, cs, i + 1, rx + 15, ry, fdata, fs, sx, sy, bh, bg, idx);
        } else {
            crate::screen::lemma_blit_upto_const(
                fb,
                bw,
                g,
                sx + rx,
                yb,
                bg,
                (g.width * g.height) as nat,
                idx,
            );
            lemma_render_from_untouched(
                fb2,
                bw,
                cs,
                i + 1,
                rx + 15,
                ry,
                fdata,
                fs,
                sx,
                sy,
                bh,
                bg,
                bg,
                idx,
            );
        }
    }
}

/// Erase by redraw: any pixel that rendering a sequence changed is reset to
/// the background color's packed value by rendering the same sequence again
/// with the background color swapped in for the foreground, exactly as
/// `Cursor::clear` does before emptying the buffer.
pub proof fn lemma_clear_resets_ink(
    fb: Seq<u32>,
    bw: int,
    cs: Seq<char>,
    fdata: Seq<u8>,
    fs: int,
    sx: int,
    sy: int,
    bh: int,
    fg: crate::screen::Color,
    bg: crate::screen::Color,
    idx: int,
)
    requires
        0 <= idx < fb.len(),
        spec_render(fb, bw, cs, fdata, fs, sx, sy, bh, fg, bg)[idx] != fb[idx],
    ensures
        spec_render(
            spec_render(fb, bw, cs, fdata, fs, sx, sy, bh, fg, bg),
            bw,
            cs,
            fdata,
            fs,
            sx,
            sy,
            bh,
            bg,
            bg,
        )[idx] == bg.spec_rgb(),
{
    let shown: Seq<u32> = spec_render(fb, bw, cs, fdata, fs, sx, sy, bh, fg, bg);
    if !render_from_touches(fb.len() as int, bw, cs, 0, 0, 0, fdata, fs, sx, sy, bh, idx) {
        lemma_render_from_untouched(fb, bw, cs, 0, 0, 0, fdata, fs, sx, sy, bh, fg, bg, idx);
    }
    lemma_render_from_len(fb, bw, cs, 0, 0, 0, fdata, fs, sx, sy, bh, fg, bg);
    lemma_render_from_const(shown, bw, cs, 0, 0, 0, fdata, fs, sx, sy, bh, bg, idx);
}

/// Printing one character and a line break advances the virtual pen to
/// column 0 of the next row, one font-size unit down, whenever the boundary
/// is taller than the font; at or past the boundary height the row wraps
/// back to 0.
pub proof fn lemma_pen_after_one_line(c: char, fs: int, bh: int)
    requires
        c != '\n',
        0 <= fs,
    ensures
        fs < bh ==> spec_pen(seq![c, '\n'], fs, bh) == (0int, fs),
        fs >= bh ==> spec_pen(seq![c, '\n'], fs, bh) == (0int, 0int),
{
    reveal_with_fuel(spec_pen_from, 4);
}

/// Backspace undoes the last printed character: appending a non-empty text
/// and then removing the entry just before the write index leaves the buffer
/// holding the prior entries plus all of the text but its last character.
pub proof fn lemma_backspace_after_print(entries: Seq<Char>, text: Seq<char>)
    requires
        text.len() > 0,
    ensures
        (entries + text.map_values(|c: char| spec_char_build(c))).remove(
            entries.len() + text.len() - 1,
        ) == entries + text.take(text.len() - 1).map_values(|c: char| spec_char_build(c)),
{
    assert((entries + text.map_values(|c: char| spec_char_build(c))).remove(
        entries.len() + text.len() - 1,
    ) =~= entries + text.take(text.len() - 1).map_values(|c: char| spec_char_build(c)));
}

} // verus!
