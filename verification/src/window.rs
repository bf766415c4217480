//! A surface: an offset into a screen, a local framebuffer, and a cursor
//! buffer rendered locally and then spliced onto the screen.

use vstd::prelude::*;

use crate::cursor::{Boundaries, Cursor, Typeface};
use crate::screen::ScreenBuffer;

verus! {

/// Splicing a source buffer into a destination at a row-major offset, for a
/// length clipped to the source's size or the remaining destination capacity,
/// whichever is smaller. A source wider than the remaining destination width
/// wraps into the next destination row rather than being clipped per row.
pub open spec fn spec_splice(dst: Seq<u32>, src: Seq<u32>, at: int) -> Seq<u32> {
    let n: int = if src.len() <= dst.len() - at {
        src.len() as int
    } else {
        dst.len() - at
    };
    dst.take(at) + src.take(n) + dst.skip(at + n)
}

/// A window: a cursor buffer, its local framebuffer, and the offset at which
/// the local framebuffer is spliced onto a screen.
pub struct Window {
    pub cursor: Cursor,
    pub draw_buffer: ScreenBuffer,
    pub position: (usize, usize),
    pub height: usize,
    pub width: usize,
}

impl Window {
    pub fn new(font: Typeface, position: (usize, usize), height: usize, width: usize) -> (w:
        Window)
        requires
            width * height <= usize::MAX,
        ensures
            w.position == position,
            w.height == height,
            w.width == width,
            w.cursor.font == font,
            w.cursor.buffer@ == Seq::<crate::cursor::Char>::empty(),
            w.cursor.pos == 0,
            w.cursor.wf(),
            w.cursor.boundaries == (Boundaries { start_x: 0, start_y: 0, width, height }),
            w.cursor.color == (crate::screen::Color { red: 255, green: 255, blue: 255, alpha: 255 }),
            w.cursor.background_color == (crate::screen::Color {
                red: 0,
                green: 0,
                blue: 0,
                alpha: 255,
            }),
            w.draw_buffer.width == width,
            w.draw_buffer.height == height,
            w.draw_buffer.buffer@ == Seq::new((width * height) as nat, |i: int| 0u32),
            w.draw_buffer.wf(),
    {
        Window {
            cursor: Cursor::new(font, Boundaries { start_x: 0, start_y: 0, width, height }),
            position,
            draw_buffer: ScreenBuffer::new(width, height),
            height,
            width,
        }
    }

    /// Adopts the new geometry: the cursor's boundary follows it and the
    /// local framebuffer is reallocated zero-filled.
    pub fn resize(&mut self, height: usize, width: usize)
        requires
            width * height <= usize::MAX,
        ensures
            final(self).height == height,
            final(self).width == width,
            final(self).position == old(self).position,
            final(self).cursor.boundaries == (Boundaries {
                start_x: 0,
                start_y: 0,
                width,
                height,
            }),
            final(self).cursor.font == old(self).cursor.font,
            final(self).cursor.buffer == old(self).cursor.buffer,
            final(self).cursor.pos == old(self).cursor.pos,
            final(self).cursor.color == old(self).cursor.color,
            final(self).cursor.background_color == old(self).cursor.background_color,
            final(self).draw_buffer.width == width,
            final(self).draw_buffer.height == height,
            final(self).draw_buffer.buffer@ == Seq::new((width * height) as nat, |i: int| 0u32),
            final(self).draw_buffer.wf(),
    {
        self.height = height;
        self.width = width;
        self.cursor.boundaries = Boundaries { start_x: 0, start_y: 0, width, height };
        self.draw_buffer.resize(width, height);
    }

    /// Renders the cursor buffer into the local framebuffer, then splices the
    /// local pixels onto the screen at the window's offset, clipped to the
    /// screen's remaining capacity.
    pub fn render_on_screen(&mut self, screen_buffer: &mut ScreenBuffer)
        requires
            old(self).draw_buffer.wf(),
            old(screen_buffer).wf(),
            old(self).cursor.boundaries.start_x + old(self).cursor.buffer@.len() * 15
                <= usize::MAX,
            old(self).cursor.boundaries.start_y + old(self).cursor.boundaries.height + old(
                self,
            ).cursor.font.spec_size() <= usize::MAX,
            old(self).position.1 * old(screen_buffer).width + old(self).position.0 <= old(
                screen_buffer,
            ).buffer@.len(),
        ensures
            final(self).cursor == old(self).cursor,
            final(self).position == old(self).position,
            final(self).height == old(self).height,
            final(self).width == old(self).width,
            final(self).draw_buffer.width == old(self).draw_buffer.width,
            final(self).draw_buffer.height == old(self).draw_buffer.height,
            final(self).draw_buffer.wf(),
            final(self).draw_buffer.buffer@ == crate::cursor::spec_render(
                old(self).draw_buffer.buffer@,
                old(self).draw_buffer.width as int,
                old(self).cursor.chars(),
                old(self).cursor.font.bytes(),
                old(self).cursor.font.spec_size() as int,
                old(self).cursor.boundaries.start_x as int,
                old(self).cursor.boundaries.start_y as int,
                old(self).cursor.boundaries.height as int,
                old(self).cursor.color,
                old(self).cursor.background_color,
            ),
            final(screen_buffer).width == old(screen_buffer).width,
            final(screen_buffer).height == old(screen_buffer).height,
            final(screen_buffer).buffer@ == spec_splice(
                old(screen_buffer).buffer@,
                final(self).draw_buffer.buffer@,
                old(self).position.1 * old(screen_buffer).width + old(self).position.0,
            ),
    {
        self.cursor.render(&mut self.draw_buffer);
        let dlen: usize = self.draw_buffer.buffer.len();
        let slen: usize = screen_buffer.buffer.len();
        let start_pos: usize = screen_buffer.calc_buf_pos(self.position.0, self.position.1);
        let n: usize = if dlen <= slen - start_pos {
            dlen
        } else {
            slen - start_pos
        };
        let ghost old_screen: Seq<u32> = screen_buffer.buffer@;
        let mut i: usize = 0;
        while i < n
            invariant
                0 <= i <= n,
                start_pos + n <= slen,
                n <= dlen,
                slen == screen_buffer.buffer@.len(),
                dlen == self.draw_buffer.buffer@.len(),
                old_screen.len() == slen,
                screen_buffer.width == old(screen_buffer).width,
                screen_buffer.height == old(screen_buffer).height,
                forall|k: int|
                    0 <= k < slen ==> screen_buffer.buffer@[k] == (if start_pos <= k < start_pos
                        + i {
                        self.draw_buffer.buffer@[k - start_pos]
                    } else {
                        old_screen[k]
                    }),
            decreases n - i,
        {
            let v: u32 = self.draw_buffer.buffer[i];
            screen_buffer.buffer.set(start_pos + i, v);
            i = i + 1;
        }
        proof {
            assert(screen_buffer.buffer@ =~= spec_splice(
                old_screen,
                self.draw_buffer.buffer@,
                start_pos as int,
            ));
        }
    }
}

} // verus!
