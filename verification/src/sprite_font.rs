//! The large menu font: byte-per-pixel glyphs in a fixed four-colour
//! palette.
//!
//! Glyphs are sixteen pixels wide and eighteen tall, one source byte per
//! pixel: zero is transparent, one to three pick a fixed grey.

use vstd::prelude::*;
use vstd::string::StringSliceAdditionalSpecFns;

use crate::errors::ErrorKind;
use crate::font::{char_index_from, find_char, wrap_add, wrap_add_exec};

verus! {

/// Glyph order of the menu font.
pub open spec fn sfont_chars() -> Seq<char> {
    seq![
        '0', '1', '2', '3', '4', '5', '6', '7', '8', '9', 'A', 'B', 'C', 'D', 'E', 'F', 'G',
        'H', 'I', 'J', 'K', 'L', 'M', 'N', 'O', 'P', 'Q', 'R', 'S', 'T', 'U', 'V', 'W', 'X',
        'Y', 'Z', '.', '(', ')',
    ]
}

fn build_sfont_chars() -> (r: Vec<char>)
    ensures
        r@ == sfont_chars(),
{
    let v: Vec<char> = vec![
        '0', '1', '2', '3', '4', '5', '6', '7', '8', '9', 'A', 'B', 'C', 'D', 'E', 'F', 'G',
        'H', 'I', 'J', 'K', 'L', 'M', 'N', 'O', 'P', 'Q', 'R', 'S', 'T', 'U', 'V', 'W', 'X',
        'Y', 'Z', '.', '(', ')',
    ];
    proof {
        assert(v@ =~= sfont_chars());
    }
    v
}

/// The fixed colour of a non-transparent pixel value.
pub open spec fn sfont_color(v: u8) -> u32
    recommends
        1 <= v <= 3,
{
    if v == 1 {
        0xffc0c0c0u32
    } else if v == 2 {
        0xff808080u32
    } else {
        0xff000000u32
    }
}

/// The fixed colour of a non-transparent pixel value.
fn sfont_color_exec(v: u8) -> (r: u32)
    ensures
        r == sfont_color(v),
{
    if v == 1 {
        0xffc0c0c0u32
    } else if v == 2 {
        0xff808080u32
    } else {
        0xff000000u32
    }
}

/// Blit glyph pixels from the linear index `k` up to 288, reading one
/// source byte per pixel from glyph `i`'s chunk.  The destination index is
/// computed in 32-bit arithmetic, as the screen addressing does.  `None`
/// when a source read leaves the input, a pixel value leaves the palette,
/// or a write leaves the buffer.
pub open spec fn sglyph_pixels(
    d: Seq<u8>,
    i: int,
    xx: u32,
    yy: u32,
    k: int,
    buf: Seq<u32>,
) -> Option<Seq<u32>>
    decreases 288 - k,
{
    if k >= 288 {
        Some(buf)
    } else {
        let pos = i * 288 + k;
        if pos >= d.len() {
            None
        } else {
            let v = d[pos];
            if v == 0 {
                sglyph_pixels(d, i, xx, yy, k + 1, buf)
            } else if v > 3 {
                None
            } else {
                let y = yy + k / 16;
                let x = xx + k % 16;
                let idx = (y * 320 + x) % 0x1_0000_0000;
                if idx >= buf.len() {
                    None
                } else {
                    sglyph_pixels(d, i, xx, yy, k + 1, buf.update(idx, sfont_color(v)))
                }
            }
        }
    }
}

/// Blit one glyph at the cursor.  A cursor so large that the pixel ranges
/// wrap draws nothing, as the hardware loops would.
pub open spec fn sglyph_spec(d: Seq<u8>, i: int, xx: u32, yy: u32, buf: Seq<u32>) -> Option<
    Seq<u32>,
> {
    if i * 288 >= d.len() {
        None
    } else if yy > u32::MAX - 18 || xx > u32::MAX - 16 {
        Some(buf)
    } else {
        sglyph_pixels(d, i, xx, yy, 0, buf)
    }
}

/// The buffer `SpriteFont::print` leaves behind, walking the text with a
/// cursor: a space advances the cursor, a newline starts the next line, a
/// character of the set blits its glyph, any other character is skipped.
pub open spec fn sfont_print_spec(
    d: Seq<u8>,
    text: Seq<char>,
    xx: u32,
    yy: u32,
    buf: Seq<u32>,
) -> Option<Seq<u32>>
    decreases text.len(),
{
    if text.len() == 0 {
        Some(buf)
    } else {
        let c = text[0];
        if c == ' ' {
            sfont_print_spec(d, text.drop_first(), wrap_add(xx, 14), yy, buf)
        } else if c == '\n' {
            sfont_print_spec(d, text.drop_first(), 0, wrap_add(yy, 24), buf)
        } else {
            match char_index_from(sfont_chars(), c, 0) {
                None => sfont_print_spec(d, text.drop_first(), xx, yy, buf),
                Some(i) => match sglyph_spec(d, i, xx, yy, buf) {
                    None => None,
                    Some(b2) => sfont_print_spec(d, text.drop_first(), wrap_add(xx, 14), yy, b2),
                },
            }
        }
    }
}

/// The menu font over its glyph pixel bytes.
pub struct SpriteFont {
    data: Vec<u8>,
}

impl View for SpriteFont {
    type V = Seq<u8>;

    closed spec fn view(&self) -> Seq<u8> {
        self.data@
    }
}

/// Blit one glyph at the cursor.
fn sglyph_exec(data: &[u8], i: usize, xx: u32, yy: u32, buffer: &mut Vec<u32>) -> (r: Result<
    (),
    ErrorKind,
>)
    ensures
        match r {
            Ok(_) => sglyph_spec(data@, i as int, xx, yy, old(buffer)@) == Some(final(buffer)@),
            Err(e) => sglyph_spec(data@, i as int, xx, yy, old(buffer)@) is None && e
                == ErrorKind::FormatError,
        },
{
    let ghost buf0 = buffer@;
    let i288x: u128 = i as u128 * 288;
    if i288x >= data.len() as u128 {
        return Err(ErrorKind::FormatError);
    }
    let i288: u64 = i288x as u64;
    if yy > u32::MAX - 18 || xx > u32::MAX - 16 {
        return Ok(());
    }
    let mut k: u32 = 0;
    while k < 288
        invariant
            k <= 288,
            i288 == i as int * 288,
            i288 < data@.len(),
            yy <= u32::MAX - 18,
            xx <= u32::MAX - 16,
            buf0 == old(buffer)@,
            sglyph_pixels(data@, i as int, xx, yy, k as int, buffer@) == sglyph_pixels(
                data@,
                i as int,
                xx,
                yy,
                0,
                buf0,
            ),
        decreases 288 - k,
    {
        let pos: u128 = i288 as u128 + k as u128;
        if pos >= data.len() as u128 {
            return Err(ErrorKind::FormatError);
        }
        let v = data[pos as usize];
        if v != 0 {
            if v > 3 {
                return Err(ErrorKind::FormatError);
            }
            let y: u32 = yy + k / 16;
            let x: u32 = xx + k % 16;
            let idx: u64 = ((y as u64 * 320 + x as u64) % 0x1_0000_0000);
            if idx >= buffer.len() as u64 {
                return Err(ErrorKind::FormatError);
            }
            let color = sfont_color_exec(v);
            buffer[idx as usize] = color;
        }
        k = k + 1;
    }
    Ok(())
}

impl SpriteFont {
    /// The menu font over the given glyph bytes.
    pub fn from(data: Vec<u8>) -> (r: SpriteFont)
        ensures
            r@ == data@,
    {
        SpriteFont { data }
    }

    /// Print ASCII text into a full-screen buffer, starting at the
    /// top-left corner.
    ///
    /// Rejects non-ASCII text with `FormatError`, leaving the buffer
    /// untouched; also fails with `FormatError` exactly when a glyph blit
    /// fails, leaving the glyphs already drawn in the buffer.
    pub fn print(&self, buffer: &mut Vec<u32>, text: &str) -> (r: Result<(), ErrorKind>)
        ensures
            match r {
                Ok(_) => vstd::utf8::is_ascii_chars(text@) && sfont_print_spec(
                    self@,
                    text@,
                    0,
                    0,
                    old(buffer)@,
                ) == Some(final(buffer)@),
                Err(e) => e == ErrorKind::FormatError && ((!vstd::utf8::is_ascii_chars(text@)
                    && final(buffer)@ == old(buffer)@) || (vstd::utf8::is_ascii_chars(text@)
                    && sfont_print_spec(self@, text@, 0, 0, old(buffer)@) is None)),
            },
    {
        if !text.is_ascii() {
            return Err(ErrorKind::FormatError);
        }
        let bytes = text.as_bytes();
        let ghost t = text@;
        let ghost buf0 = buffer@;
        proof {
            vstd::string::is_ascii_spec_bytes(text);
        }
        let chars = build_sfont_chars();
        let mut i: usize = 0;
        let mut xx: u32 = 0;
        let mut yy: u32 = 0;
        proof {
            assert(t.skip(0) =~= t);
            assert forall|j: int| 0 <= j < t.len() implies #[trigger] bytes@[j] == t[j] as u8 by {
                assert(bytes@[j] == text.spec_bytes()[j]);
            }
        }
        while i < bytes.len()
            invariant
                i <= t.len(),
                t == text@,
                bytes@.len() == t.len(),
                forall|j: int| 0 <= j < t.len() ==> #[trigger] bytes@[j] == t[j] as u8,
                vstd::utf8::is_ascii_chars(t),
                chars@ == sfont_chars(),
                buf0 == old(buffer)@,
                sfont_print_spec(self@, t.skip(i as int), xx, yy, buffer@) == sfont_print_spec(
                    self@,
                    t,
                    0,
                    0,
                    buf0,
                ),
            decreases t.len() - i,
        {
            let b = bytes[i];
            let c = b as char;
            proof {
                assert(t[i as int] as u8 == b);
                assert((t[i as int] as u8) as char == t[i as int]);
                assert(c == t[i as int]);
                assert(t.skip(i as int)[0] == t[i as int]);
                assert(t.skip(i as int).drop_first() =~= t.skip(i as int + 1));
            }
            if c == ' ' {
                xx = wrap_add_exec(xx, 14);
            } else if c == '\n' {
                xx = 0;
                yy = wrap_add_exec(yy, 24);
            } else {
                match find_char(&chars, c) {
                    None => {},
                    Some(g) => {
                        match sglyph_exec(self.data.as_slice(), g, xx, yy, buffer) {
                            Ok(_) => {},
                            Err(e) => {
                                return Err(e);
                            },
                        }
                        xx = wrap_add_exec(xx, 14);
                    },
                }
            }
            i = i + 1;
        }
        Ok(())
    }
}

} // verus!
