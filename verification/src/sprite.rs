//! Full-frame and sized sprites: raw palette-indexed pixel rectangles.

use vstd::prelude::*;

use crate::bitmap::pixel_color;
use crate::errors::ErrorKind;
use crate::graphics::Size;

verus! {

/// Draw the pixels from the linear index `k` up to `total`, reading one
/// source byte per pixel, row-major with row width `w`.  The destination
/// index is computed in 32-bit arithmetic, as the screen addressing does.
/// `None` when the source, the palette or the destination runs out.
pub open spec fn sprite_pixels(
    d: Seq<u8>,
    pal: Seq<u8>,
    w: int,
    k: int,
    total: int,
    buf: Seq<u32>,
) -> Option<Seq<u32>>
    recommends
        w >= 1,
        0 <= k,
    decreases total - k,
{
    if k >= total {
        Some(buf)
    } else if k >= d.len() {
        None
    } else {
        let v = d[k];
        if v as int * 3 + 3 > pal.len() {
            None
        } else {
            let y = k / w;
            let x = k % w;
            let idx = (y * 320 + x) % 0x1_0000_0000;
            if idx >= buf.len() {
                None
            } else {
                sprite_pixels(d, pal, w, k + 1, total, buf.update(idx, pixel_color(pal, v)))
            }
        }
    }
}

/// What `Sprite::draw` leaves in the buffer.
pub open spec fn sprite_spec(d: Seq<u8>, size: Size, pal: Seq<u8>, buf: Seq<u32>) -> Option<
    Seq<u32>,
> {
    if size.width == 0 {
        Some(buf)
    } else {
        sprite_pixels(d, pal, size.width as int, 0, size.width as int * size.height as int, buf)
    }
}

/// A palette-indexed pixel rectangle.
pub struct Sprite {
    data: Vec<u8>,
    size: Size,
}

impl View for Sprite {
    type V = (Seq<u8>, Size);

    closed spec fn view(&self) -> (Seq<u8>, Size) {
        (self.data@, self.size)
    }
}

impl Sprite {
    /// A full-screen sprite over the given pixel bytes.
    pub fn from(data: Vec<u8>) -> (r: Sprite)
        ensures
            r@.0 == data@,
            r@.1 == (Size { width: 320, height: 200 }),
    {
        Sprite { data, size: Size { width: 320, height: 200 } }
    }

    /// The same sprite with another size.
    pub fn with_size(self, size: Size) -> (r: Sprite)
        ensures
            r@.0 == self@.0,
            r@.1 == size,
    {
        Sprite { data: self.data, size }
    }

    /// Draw the sprite into a row-major screen buffer with a 768-byte
    /// palette, top-left at the origin.
    ///
    /// Fails with `FormatError` when the source bytes, the palette or the
    /// destination run out; rows already drawn then stay in the buffer.
    pub fn draw(&self, buffer: &mut Vec<u32>, palette: &[u8]) -> (r: Result<(), ErrorKind>)
        ensures
            match r {
                Ok(_) => sprite_spec(self@.0, self@.1, palette@, old(buffer)@) == Some(
                    final(buffer)@,
                ),
                Err(e) => sprite_spec(self@.0, self@.1, palette@, old(buffer)@) is None && e
                    == ErrorKind::FormatError,
            },
    {
        let ghost d = self.data@;
        let ghost buf0 = buffer@;
        let w = self.size.width;
        if w == 0 {
            return Ok(());
        }
        proof {
            assert(w as int * self.size.height as int <= 0xfffffffe00000001) by (nonlinear_arith)
                requires
                    w as int <= 0xffffffff,
                    self.size.height as int <= 0xffffffff,
            ;
        }
        let total: u64 = w as u64 * self.size.height as u64;
        let mut k: u64 = 0;
        while k < total
            invariant
                0 <= k <= total,
                w >= 1,
                w == self.size.width,
                buf0 == old(buffer)@,
                d == self.data@,
                total == w as int * self.size.height as int,
                sprite_pixels(d, palette@, w as int, k as int, total as int, buffer@)
                    == sprite_pixels(d, palette@, w as int, 0, total as int, buf0),
            decreases total - k,
        {
            if k >= self.data.len() as u64 {
                return Err(ErrorKind::FormatError);
            }
            let v = self.data[k as usize];
            if (v as u64) * 3 + 3 > palette.len() as u64 {
                return Err(ErrorKind::FormatError);
            }
            let y: u64 = k / w as u64;
            let x: u64 = k % w as u64;
            let idx: u64 = ((y as u128 * 320 + x as u128) % 0x1_0000_0000) as u64;
            if idx >= buffer.len() as u64 {
                return Err(ErrorKind::FormatError);
            }
            let color = pixel_color_exec(palette, v);
            buffer[idx as usize] = color;
            k = k + 1;
        }
        Ok(())
    }
}

/// One palette entry as a screen pixel.
fn pixel_color_exec(pal: &[u8], v: u8) -> (r: u32)
    requires
        v * 3 + 3 <= pal@.len(),
    ensures
        r == pixel_color(pal@, v),
{
    0xff000000u32 | (((pal[(v as usize) * 3] << 2) as u32) << 16) | (((pal[(v as usize) * 3 + 1]
        << 2) as u32) << 8) | ((pal[(v as usize) * 3 + 2] << 2) as u32)
}

} // verus!
