//! The red bevelled frame drawn around menu screens.
//!
//! The frame is drawn onto the full 320 by 200 screen buffer: four corner
//! stencils, then three-pixel-thick horizontal and vertical border lines,
//! in fixed palette colours.

use vstd::prelude::*;

use crate::bitmap::pixel_color;
use crate::graphics::Size;

verus! {

pub const FRAME_BORDER: u32 = 4;

/// One border pixel write at column `x`, row `y`, palette index `ci`.
pub open spec fn put_spec(buf: Seq<u32>, x: int, y: int, ci: u8, pal: Seq<u8>) -> Seq<u32>
    recommends
        0 <= y * 320 + x < buf.len(),
        ci * 3 + 3 <= pal.len(),
{
    buf.update(y * 320 + x, pixel_color(pal, ci))
}

/// The four corner stencils of a frame with inner width `w` and inner
/// height `h`.
pub open spec fn frame_corners(buf: Seq<u32>, w: int, h: int, pal: Seq<u8>) -> Seq<u32> {
    let b = put_spec(buf, 2, 0, 0x60, pal);
    let b = put_spec(b, 3, 0, 0x60, pal);
    let b = put_spec(b, 1, 1, 0x60, pal);
    let b = put_spec(b, 2, 1, 0x40, pal);
    let b = put_spec(b, 3, 1, 0x20, pal);
    let b = put_spec(b, 0, 2, 0x60, pal);
    let b = put_spec(b, 1, 2, 0x40, pal);
    let b = put_spec(b, 2, 2, 0x20, pal);
    let b = put_spec(b, 3, 2, 0x40, pal);
    let b = put_spec(b, 0, 3, 0x60, pal);
    let b = put_spec(b, 1, 3, 0x20, pal);
    let b = put_spec(b, 2, 3, 0x40, pal);
    let b = put_spec(b, 3, 3, 0x60, pal);
    let b = put_spec(b, w, 0, 0x60, pal);
    let b = put_spec(b, w + 1, 0, 0x60, pal);
    let b = put_spec(b, w, 1, 0x20, pal);
    let b = put_spec(b, w + 1, 1, 0x40, pal);
    let b = put_spec(b, w + 2, 1, 0x60, pal);
    let b = put_spec(b, w, 2, 0x40, pal);
    let b = put_spec(b, w + 1, 2, 0x20, pal);
    let b = put_spec(b, w + 2, 2, 0x40, pal);
    let b = put_spec(b, w + 3, 2, 0x60, pal);
    let b = put_spec(b, w, 3, 0x60, pal);
    let b = put_spec(b, w + 1, 3, 0x40, pal);
    let b = put_spec(b, w + 2, 3, 0x20, pal);
    let b = put_spec(b, w + 3, 3, 0x60, pal);
    let b = put_spec(b, w, h, 0x60, pal);
    let b = put_spec(b, w + 1, h, 0x40, pal);
    let b = put_spec(b, w + 2, h, 0x20, pal);
    let b = put_spec(b, w + 3, h, 0x60, pal);
    let b = put_spec(b, w, h + 1, 0x40, pal);
    let b = put_spec(b, w + 1, h + 1, 0x20, pal);
    let b = put_spec(b, w + 2, h + 1, 0x40, pal);
    let b = put_spec(b, w + 3, h + 1, 0x60, pal);
    let b = put_spec(b, w, h + 2, 0x20, pal);
    let b = put_spec(b, w + 1, h + 2, 0x40, pal);
    let b = put_spec(b, w + 2, h + 2, 0x60, pal);
    let b = put_spec(b, w, h + 3, 0x60, pal);
    let b = put_spec(b, w + 1, h + 3, 0x60, pal);
    let b = put_spec(b, 0, h, 0x60, pal);
    let b = put_spec(b, 1, h, 0x20, pal);
    let b = put_spec(b, 2, h, 0x40, pal);
    let b = put_spec(b, 3, h, 0x60, pal);
    let b = put_spec(b, 0, h + 1, 0x60, pal);
    let b = put_spec(b, 1, h + 1, 0x40, pal);
    let b = put_spec(b, 2, h + 1, 0x20, pal);
    let b = put_spec(b, 3, h + 1, 0x40, pal);
    let b = put_spec(b, 1, h + 2, 0x60, pal);
    let b = put_spec(b, 2, h + 2, 0x40, pal);
    let b = put_spec(b, 3, h + 2, 0x20, pal);
    let b = put_spec(b, 2, h + 3, 0x60, pal);
    let b = put_spec(b, 3, h + 3, 0x60, pal);
    b
}

/// The six border pixels of one column of the top and bottom lines.
pub open spec fn frame_hcol(buf: Seq<u32>, x: int, h: int, pal: Seq<u8>) -> Seq<u32> {
    let b = put_spec(buf, x, 0, 0x60, pal);
    let b = put_spec(b, x, 1, 0x20, pal);
    let b = put_spec(b, x, 2, 0x60, pal);
    let b = put_spec(b, x, h + 1, 0x60, pal);
    let b = put_spec(b, x, h + 2, 0x20, pal);
    let b = put_spec(b, x, h + 3, 0x60, pal);
    b
}

/// The top and bottom border lines from column `x` up to `w`.
pub open spec fn frame_hlines(buf: Seq<u32>, x: int, w: int, h: int, pal: Seq<u8>) -> Seq<u32>
    decreases w - x,
{
    if x >= w {
        buf
    } else {
        frame_hlines(frame_hcol(buf, x, h, pal), x + 1, w, h, pal)
    }
}

/// The six border pixels of one row of the left and right lines.
pub open spec fn frame_vrow(buf: Seq<u32>, y: int, w: int, pal: Seq<u8>) -> Seq<u32> {
    let b = put_spec(buf, 0, y, 0x60, pal);
    let b = put_spec(b, 1, y, 0x20, pal);
    let b = put_spec(b, 2, y, 0x60, pal);
    let b = put_spec(b, w + 1, y, 0x60, pal);
    let b = put_spec(b, w + 2, y, 0x20, pal);
    let b = put_spec(b, w + 3, y, 0x60, pal);
    b
}

/// The left and right border lines from row `y` up to `h`.
pub open spec fn frame_vlines(buf: Seq<u32>, y: int, w: int, h: int, pal: Seq<u8>) -> Seq<u32>
    decreases h - y,
{
    if y >= h {
        buf
    } else {
        frame_vlines(frame_vrow(buf, y, w, pal), y + 1, w, h, pal)
    }
}

/// Everything `Frame::draw` leaves in the buffer: the corners, then the
/// horizontal lines, then the vertical lines.
pub open spec fn frame_spec(buf: Seq<u32>, size: Size, pal: Seq<u8>) -> Seq<u32> {
    let w = size.width - 4;
    let h = size.height - 4;
    frame_vlines(frame_hlines(frame_corners(buf, w, h, pal), 4, w, h, pal), 4, w, h, pal)
}

/// Write one border pixel.
fn put_pixel(x: u32, y: u32, ci: u8, buffer: &mut Vec<u32>, pal: &[u8])
    requires
        x < 320,
        y < 200,
        y * 320 + x < old(buffer)@.len(),
        ci * 3 + 3 <= pal@.len(),
    ensures
        final(buffer)@ == put_spec(old(buffer)@, x as int, y as int, ci, pal@),
        final(buffer)@.len() == old(buffer)@.len(),
{
    let idx = (y * 320 + x) as usize;
    let color: u32 = 0xff000000u32 | (((pal[(ci as usize) * 3] << 2) as u32) << 16) | (((pal[(
    ci as usize) * 3 + 1] << 2) as u32) << 8) | ((pal[(ci as usize) * 3 + 2] << 2) as u32);
    buffer[idx] = color;
}

/// The bevelled frame, sized to enclose a menu screen.
#[derive(Clone, Copy, Debug, PartialEq, Eq, Structural)]
pub struct Frame {
    pub size: Size,
}

impl Frame {
    /// A frame of the given outer size.
    pub fn new(size: Size) -> (r: Frame)
        ensures
            r.size == size,
    {
        Frame { size }
    }

    /// Draw the frame into a full-screen buffer with a 768-byte palette.
    ///
    /// The outer size must leave room for the four-pixel border on a 320 by
    /// 200 screen.
    pub fn draw(&self, buffer: &mut Vec<u32>, pal: &[u8])
        requires
            8 <= self.size.width <= 320,
            8 <= self.size.height <= 200,
            old(buffer)@.len() == 64000,
            pal@.len() >= 291,
        ensures
            final(buffer)@ == frame_spec(old(buffer)@, self.size, pal@),
    {
        let w = self.size.width - 4;
        let h = self.size.height - 4;

        put_pixel(2, 0, 0x60, buffer, pal);
        put_pixel(3, 0, 0x60, buffer, pal);
        put_pixel(1, 1, 0x60, buffer, pal);
        put_pixel(2, 1, 0x40, buffer, pal);
        put_pixel(3, 1, 0x20, buffer, pal);
        put_pixel(0, 2, 0x60, buffer, pal);
        put_pixel(1, 2, 0x40, buffer, pal);
        put_pixel(2, 2, 0x20, buffer, pal);
        put_pixel(3, 2, 0x40, buffer, pal);
        put_pixel(0, 3, 0x60, buffer, pal);
        put_pixel(1, 3, 0x20, buffer, pal);
        put_pixel(2, 3, 0x40, buffer, pal);
        put_pixel(3, 3, 0x60, buffer, pal);
        put_pixel(w, 0, 0x60, buffer, pal);
        put_pixel(w + 1, 0, 0x60, buffer, pal);
        put_pixel(w, 1, 0x20, buffer, pal);
        put_pixel(w + 1, 1, 0x40, buffer, pal);
        put_pixel(w + 2, 1, 0x60, buffer, pal);
        put_pixel(w, 2, 0x40, buffer, pal);
        put_pixel(w + 1, 2, 0x20, buffer, pal);
        put_pixel(w + 2, 2, 0x40, buffer, pal);
        put_pixel(w + 3, 2, 0x60, buffer, pal);
        put_pixel(w, 3, 0x60, buffer, pal);
        put_pixel(w + 1, 3, 0x40, buffer, pal);
        put_pixel(w + 2, 3, 0x20, buffer, pal);
        put_pixel(w + 3, 3, 0x60, buffer, pal);
        put_pixel(w, h, 0x60, buffer, pal);
        put_pixel(w + 1, h, 0x40, buffer, pal);
        put_pixel(w + 2, h, 0x20, buffer, pal);
        put_pixel(w + 3, h, 0x60, buffer, pal);
        put_pixel(w, h + 1, 0x40, buffer, pal);
        put_pixel(w + 1, h + 1, 0x20, buffer, pal);
        put_pixel(w + 2, h + 1, 0x40, buffer, pal);
        put_pixel(w + 3, h + 1, 0x60, buffer, pal);
        put_pixel(w, h + 2, 0x20, buffer, pal);
        put_pixel(w + 1, h + 2, 0x40, buffer, pal);
        put_pixel(w + 2, h + 2, 0x60, buffer, pal);
        put_pixel(w, h + 3, 0x60, buffer, pal);
        put_pixel(w + 1, h + 3, 0x60, buffer, pal);
        put_pixel(0, h, 0x60, buffer, pal);
        put_pixel(1, h, 0x20, buffer, pal);
        put_pixel(2, h, 0x40, buffer, pal);
        put_pixel(3, h, 0x60, buffer, pal);
        put_pixel(0, h + 1, 0x60, buffer, pal);
        put_pixel(1, h + 1, 0x40, buffer, pal);
        put_pixel(2, h + 1, 0x20, buffer, pal);
        put_pixel(3, h + 1, 0x40, buffer, pal);
        put_pixel(1, h + 2, 0x60, buffer, pal);
        put_pixel(2, h + 2, 0x40, buffer, pal);
        put_pixel(3, h + 2, 0x20, buffer, pal);
        put_pixel(2, h + 3, 0x60, buffer, pal);
        put_pixel(3, h + 3, 0x60, buffer, pal);

        let ghost bc = buffer@;
        proof {
            assert(bc == frame_corners(old(buffer)@, w as int, h as int, pal@));
        }

        let mut x: u32 = 4;
        while x < w
            invariant
                4 <= x <= w,
                w == self.size.width - 4,
                w <= 316,
                h == self.size.height - 4,
                4 <= h <= 196,
                pal@.len() >= 291,
                buffer@.len() == 64000,
                frame_hlines(buffer@, x as int, w as int, h as int, pal@) == frame_hlines(
                    bc,
                    4,
                    w as int,
                    h as int,
                    pal@,
                ),
            decreases w - x,
        {
            let ghost bstart = buffer@;
            put_pixel(x, 0, 0x60, buffer, pal);
            put_pixel(x, 1, 0x20, buffer, pal);
            put_pixel(x, 2, 0x60, buffer, pal);
            put_pixel(x, h + 1, 0x60, buffer, pal);
            put_pixel(x, h + 2, 0x20, buffer, pal);
            put_pixel(x, h + 3, 0x60, buffer, pal);
            proof {
                assert(buffer@ == frame_hcol(bstart, x as int, h as int, pal@));
            }
            x = x + 1;
        }
        let ghost bh = buffer@;
        proof {
            assert(bh == frame_hlines(bc, 4, w as int, h as int, pal@));
        }

        let mut y: u32 = 4;
        while y < h
            invariant
                4 <= y <= h,
                w == self.size.width - 4,
                4 <= w <= 316,
                h == self.size.height - 4,
                h <= 196,
                pal@.len() >= 291,
                buffer@.len() == 64000,
                frame_vlines(buffer@, y as int, w as int, h as int, pal@) == frame_vlines(
                    bh,
                    4,
                    w as int,
                    h as int,
                    pal@,
                ),
            decreases h - y,
        {
            let ghost bstart = buffer@;
            put_pixel(0, y, 0x60, buffer, pal);
            put_pixel(1, y, 0x20, buffer, pal);
            put_pixel(2, y, 0x60, buffer, pal);
            put_pixel(w + 1, y, 0x60, buffer, pal);
            put_pixel(w + 2, y, 0x20, buffer, pal);
            put_pixel(w + 3, y, 0x60, buffer, pal);
            proof {
                assert(buffer@ == frame_vrow(bstart, y as int, w as int, pal@));
            }
            y = y + 1;
        }
    }
}

} // verus!
