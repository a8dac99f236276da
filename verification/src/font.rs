//! Bitmap fonts: a character set mapped onto the glyph cells of a decoded
//! cell table.

use vstd::prelude::*;
use vstd::string::StringSliceAdditionalSpecFns;

use crate::bitmap::{apply_writes, decode_spec, draw_spec, Bitmap};
use crate::errors::ErrorKind;
use crate::graphics::Point;

verus! {

/// Advance a cursor as the 32-bit hardware does.
pub open spec fn wrap_add(a: u32, n: u32) -> u32 {
    if a + n <= u32::MAX {
        (a + n) as u32
    } else {
        (a + n - 0x1_0000_0000) as u32
    }
}

/// Advance a cursor as the 32-bit hardware does.
pub fn wrap_add_exec(a: u32, n: u32) -> (r: u32)
    ensures
        r == wrap_add(a, n),
{
    if a <= u32::MAX - n {
        a + n
    } else {
        a - (u32::MAX - n) - 1
    }
}

/// First position at or after `i` holding this character.
pub open spec fn char_index_from(chars: Seq<char>, c: char, i: int) -> Option<int>
    decreases chars.len() - i,
{
    if i < 0 || i >= chars.len() {
        None
    } else if chars[i] == c {
        Some(i)
    } else {
        char_index_from(chars, c, i + 1)
    }
}

/// First position of a character in a character set.
pub fn find_char(chars: &Vec<char>, c: char) -> (r: Option<usize>)
    ensures
        match r {
            Some(i) => char_index_from(chars@, c, 0) == Some(i as int),
            None => char_index_from(chars@, c, 0) is None,
        },
{
    let mut i: usize = 0;
    while i < chars.len()
        invariant
            i <= chars@.len(),
            char_index_from(chars@, c, 0) == char_index_from(chars@, c, i as int),
        decreases chars@.len() - i,
    {
        if chars[i] == c {
            return Some(i);
        }
        i = i + 1;
    }
    None
}

/// A character set: the glyph order of a font's cell table and the cursor
/// advances for one glyph and one line.
pub struct CharSet {
    pub chars: Vec<char>,
    pub h_space: u32,
    pub v_space: u32,
}

/// The digits-and-capitals character set with nine-pixel spacing.
pub fn char_set_03() -> (r: CharSet)
    ensures
        r.chars@ == charset_caps(),
        r.h_space == 9,
        r.v_space == 10,
{
    CharSet { chars: build_caps(), h_space: 9, v_space: 10 }
}

/// The digits-and-capitals character set with seven-pixel spacing.
pub fn char_set_04() -> (r: CharSet)
    ensures
        r.chars@ == charset_caps(),
        r.h_space == 7,
        r.v_space == 10,
{
    CharSet { chars: build_caps(), h_space: 7, v_space: 10 }
}

/// Glyph order shared by the capital-letter fonts: digits, letters, a
/// hyphen and an overline.
pub open spec fn charset_caps() -> Seq<char> {
    seq![
        '0', '1', '2', '3', '4', '5', '6', '7', '8', '9', 'A', 'B', 'C', 'D', 'E', 'F', 'G',
        'H', 'I', 'J', 'K', 'L', 'M', 'N', 'O', 'P', 'Q', 'R', 'S', 'T', 'U', 'V', 'W', 'X',
        'Y', 'Z', '-', '\u{203e}',
    ]
}

fn build_caps() -> (r: Vec<char>)
    ensures
        r@ == charset_caps(),
{
    let v: Vec<char> = vec![
        '0', '1', '2', '3', '4', '5', '6', '7', '8', '9', 'A', 'B', 'C', 'D', 'E', 'F', 'G',
        'H', 'I', 'J', 'K', 'L', 'M', 'N', 'O', 'P', 'Q', 'R', 'S', 'T', 'U', 'V', 'W', 'X',
        'Y', 'Z', '-', '\u{203e}',
    ];
    proof {
        assert(v@ =~= charset_caps());
    }
    v
}

/// A font as the specification sees it: the glyph order, the cursor
/// advances, and the decoded cell table.
pub ghost struct FontV {
    pub chars: Seq<char>,
    pub h_space: u32,
    pub v_space: u32,
    pub data: Seq<u8>,
}

/// A character set together with its decoded glyph cell table.
pub struct Font {
    char_set: CharSet,
    bitmap: Bitmap,
}

impl View for Font {
    type V = FontV;

    closed spec fn view(&self) -> FontV {
        FontV {
            chars: self.char_set.chars@,
            h_space: self.char_set.h_space,
            v_space: self.char_set.v_space,
            data: self.bitmap@,
        }
    }
}

/// The buffer `Font::print` leaves behind, walking the text with a cursor:
/// a space advances the cursor, a newline starts the next line, a character
/// of the set blits its glyph cell, any other character is skipped.  `None`
/// exactly when a glyph blit fails.
pub open spec fn font_print_spec(
    f: FontV,
    text: Seq<char>,
    xx: u32,
    yy: u32,
    pal: Seq<u8>,
    buf: Seq<u32>,
) -> Option<Seq<u32>>
    decreases text.len(),
{
    if text.len() == 0 {
        Some(buf)
    } else {
        let c = text[0];
        if c == ' ' {
            font_print_spec(f, text.drop_first(), wrap_add(xx, f.h_space), yy, pal, buf)
        } else if c == '\n' {
            font_print_spec(f, text.drop_first(), 0, wrap_add(yy, f.v_space), pal, buf)
        } else {
            match char_index_from(f.chars, c, 0) {
                None => font_print_spec(f, text.drop_first(), xx, yy, pal, buf),
                Some(i) => match draw_spec(f.data, i, xx as int, yy as int, pal, buf.len() as int) {
                    None => None,
                    Some(ws) => font_print_spec(
                        f,
                        text.drop_first(),
                        wrap_add(xx, f.h_space),
                        yy,
                        pal,
                        apply_writes(buf, ws),
                    ),
                },
            }
        }
    }
}

impl Font {
    /// Decode a font's cell table under the given character set.
    pub fn from(char_set: CharSet, data: Vec<u8>) -> (r: Result<Font, ErrorKind>)
        ensures
            match r {
                Ok(f) => decode_spec(data@, 0, 0) == Some(f@.data) && f@.chars == char_set.chars@
                    && f@.h_space == char_set.h_space && f@.v_space == char_set.v_space,
                Err(e) => decode_spec(data@, 0, 0) is None && e == ErrorKind::DecodeError,
            },
    {
        match Bitmap::from(data, 0, 0) {
            Ok(bitmap) => Ok(Font { char_set, bitmap }),
            Err(e) => Err(e),
        }
    }

    /// Print ASCII text into a full-screen buffer with a 768-byte palette,
    /// starting at the top-left corner.
    ///
    /// Rejects non-ASCII text with `FormatError`, leaving the buffer
    /// untouched; in consequence the character set's own overline glyph
    /// (U+203E), which is not ASCII, cannot be reached through this entry
    /// point.  Fails with `DecodeError` exactly when a glyph blit fails,
    /// leaving the glyphs already drawn in the buffer.
    pub fn print(&self, buffer: &mut Vec<u32>, text: &str, palette: &[u8]) -> (r: Result<
        (),
        ErrorKind,
    >)
        ensures
            match r {
                Ok(_) => vstd::utf8::is_ascii_chars(text@) && font_print_spec(
                    self@,
                    text@,
                    0,
                    0,
                    palette@,
                    old(buffer)@,
                ) == Some(final(buffer)@),
                Err(e) => (e == ErrorKind::FormatError && !vstd::utf8::is_ascii_chars(text@)
                    && final(buffer)@ == old(buffer)@) || (e == ErrorKind::DecodeError
                    && vstd::utf8::is_ascii_chars(text@) && font_print_spec(
                    self@,
                    text@,
                    0,
                    0,
                    palette@,
                    old(buffer)@,
                ) is None),
            },
    {
        if !text.is_ascii() {
            return Err(ErrorKind::FormatError);
        }
        let bytes = text.as_bytes();
        let ghost t = text@;
        let ghost buf0 = buffer@;
        proof {
            vstd::string::is_ascii_spec_bytes(text);
        }
        let mut i: usize = 0;
        let mut xx: u32 = 0;
        let mut yy: u32 = 0;
        proof {
            assert(t.skip(0) =~= t);
            assert forall|j: int| 0 <= j < t.len() implies #[trigger] bytes@[j] == t[j] as u8 by {
                assert(bytes@[j] == text.spec_bytes()[j]);
            }
        }
        while i < bytes.len()
            invariant
                i <= t.len(),
                t == text@,
                bytes@.len() == t.len(),
                forall|j: int| 0 <= j < t.len() ==> #[trigger] bytes@[j] == t[j] as u8,
                vstd::utf8::is_ascii_chars(t),
                buf0 == old(buffer)@,
                font_print_spec(self@, t.skip(i as int), xx, yy, palette@, buffer@)
                    == font_print_spec(self@, t, 0, 0, palette@, buf0),
            decreases t.len() - i,
        {
            let b = bytes[i];
            let c = b as char;
            proof {
                assert(t[i as int] as u8 == b);
                assert((t[i as int] as u8) as char == t[i as int]);
                assert(c == t[i as int]);
                assert(t.skip(i as int)[0] == t[i as int]);
                assert(t.skip(i as int).drop_first() =~= t.skip(i as int + 1));
            }
            if c == ' ' {
                xx = wrap_add_exec(xx, self.char_set.h_space);
            } else if c == '\n' {
                xx = 0;
                yy = wrap_add_exec(yy, self.char_set.v_space);
            } else {
                match find_char(&self.char_set.chars, c) {
                    None => {},
                    Some(g) => {
                        match self.bitmap.draw(g, Point { x: xx, y: yy }, buffer, palette) {
                            Ok(_) => {},
                            Err(e) => {
                                return Err(e);
                            },
                        }
                        xx = wrap_add_exec(xx, self.char_set.h_space);
                    },
                }
            }
            i = i + 1;
        }
        Ok(())
    }
}

} // verus!
