use lotus3::errors::ErrorKind;
use lotus3::font::{char_set_03, char_set_04, Font};
use lotus3::frame::Frame;
use lotus3::graphics::{Canvas, Color, Point, Size};
use lotus3::input::KeyCode;
use lotus3::options::{Acceleration, Config, Course, Model, Race, Transmission};
use lotus3::sprite::Sprite;
use lotus3::sprite_font::SpriteFont;
use lotus3::zip::unpack;

#[test]
fn unpack_merges_long_copy_length() {
    // escape+0x41 sets the high length bits, escape+0x05 the low byte:
    // a copy of 0x105 = 261 literal bytes follows
    let mut data = vec![1u8, 0x1b, 0x41, 0x30, 0x31, 0x1b, 0x41, 0x1b, 0x05];
    data.extend_from_slice(&vec![0x10; 261]);
    assert_eq!(unpack(&data), Ok(vec![0x10; 261]));
}

#[test]
fn unpack_merges_long_fill_length() {
    // escape+0xc1 sets the high length bits, escape+0x04 the low byte:
    // a fill of 0x104 = 260 bytes of the next value follows
    let data = [1u8, 0x1b, 0x41, 0x30, 0x31, 0x1b, 0xc1, 0x1b, 0x04, 0x22];
    assert_eq!(unpack(&data), Ok(vec![0x22; 260]));
}

#[test]
fn keycode_to_char_maps_letters_and_digits() {
    assert_eq!(KeyCode::A.to_char(), Some('A'));
    assert_eq!(KeyCode::Z.to_char(), Some('Z'));
    assert_eq!(KeyCode::Num0.to_char(), Some('0'));
    assert_eq!(KeyCode::Num9.to_char(), Some('9'));
    assert_eq!(KeyCode::Escape.to_char(), None);
    assert_eq!(KeyCode::Space.to_char(), None);
    assert_eq!(KeyCode::Left.to_char(), None);
}

#[test]
fn model_cycles_both_ways() {
    assert!(matches!(Model::Esprit.next(), Model::Elan));
    assert!(matches!(Model::Elan.next(), Model::M200));
    assert!(matches!(Model::M200.next(), Model::Esprit));
    assert!(matches!(Model::Esprit.prev(), Model::M200));
    assert!(matches!(Model::M200.prev(), Model::Elan));
    assert!(matches!(Model::default(), Model::Esprit));
    // prev undoes next for every model
    for m in [Model::Esprit, Model::Elan, Model::M200] {
        assert_eq!(m.next().prev(), m);
        assert_eq!(m.prev().next(), m);
    }
}

#[test]
fn config_defaults() {
    let c = Config::new();
    assert_eq!(c.p1_name, "PLAYER 1");
    assert_eq!(c.p2_name, "PLAYER 2");
    assert_eq!(c.p1_trans, Transmission::Automatic);
    assert_eq!(c.p1_accel, Acceleration::Button);
    assert_eq!(c.race, Race::TimeLimit);
    assert_eq!(c.course, Course::T1);
    assert_eq!(c.players_num, 1);
    assert_eq!(c.code, "VBJD D   -99");
}

#[test]
fn error_messages_name_each_kind() {
    assert_eq!(ErrorKind::IoError.message(), "truncated container image");
    assert_eq!(ErrorKind::NotFound.message(), "item is not found");
    assert_eq!(ErrorKind::FormatError.message(), "payload is too short");
    assert_eq!(ErrorKind::DecodeError.message(), "corrupt compressed data");
}

#[test]
fn canvas_starts_black_and_writes_pixels() {
    let mut c = Canvas::new();
    assert_eq!(c.get().len(), 64000);
    assert!(c.get().iter().all(|&p| p == 0));
    c.raw_at(Point { x: 3, y: 2 }, 0xffaabbcc);
    assert_eq!(c.get()[2 * 320 + 3], 0xffaabbcc);
    c.raw()[5] = 7;
    assert_eq!(c.get()[5], 7);
}

#[test]
fn point_color_size_accessors() {
    let p = Point::xy(17, 4);
    assert_eq!((p.x, p.y), (17, 4));
    assert_eq!(p.index(), 4 * 320 + 17);
    let c = Color::rgb(1, 2, 3);
    assert_eq!((c.r, c.g, c.b), (1, 2, 3));
    let s = Size::wh(160, 112);
    assert_eq!((s.width, s.height), (160, 112));
}

#[test]
fn sprite_draws_rows_at_row_width() {
    // a two-by-two sprite: pixels land at the starts of the first two rows
    let sprite = Sprite::from(vec![1, 2, 3, 4]).with_size(Size::wh(2, 2));
    let mut pal = vec![0u8; 768];
    pal[3..6].copy_from_slice(&[1, 1, 1]); // entry 1
    let mut buffer = vec![0u32; 64000];
    sprite.draw(&mut buffer, &pal).unwrap();
    assert_eq!(buffer[0], 0xff040404);
    assert_ne!(buffer[1], 0);
    assert_ne!(buffer[320], 0);
    assert_ne!(buffer[321], 0);
    assert_eq!(buffer[2], 0);
}

#[test]
fn sprite_draw_fails_when_source_runs_out() {
    let sprite = Sprite::from(vec![1, 2, 3]).with_size(Size::wh(2, 2));
    let pal = vec![0u8; 768];
    let mut buffer = vec![0u32; 64000];
    assert_eq!(
        sprite.draw(&mut buffer, &pal),
        Err(ErrorKind::FormatError)
    );
}

#[test]
fn frame_draws_border_lines() {
    let frame = Frame::new(Size::wh(320, 200));
    let mut pal = vec![0u8; 768];
    // palette entries 0x20 (red), 0x40 (maroon), 0x60 (black)
    pal[0x20 * 3..0x20 * 3 + 3].copy_from_slice(&[63, 0, 0]);
    pal[0x40 * 3..0x40 * 3 + 3].copy_from_slice(&[31, 0, 0]);
    pal[0x60 * 3..0x60 * 3 + 3].copy_from_slice(&[1, 1, 1]);
    let mut buffer = vec![0u32; 64000];
    frame.draw(&mut buffer, &pal);
    let red = 0xff000000u32 | ((63u32 << 2) << 16);
    let black = 0xff000000u32 | (4 << 16) | (4 << 8) | 4;
    // top horizontal line: rows 0 and 2 black, row 1 red
    assert_eq!(buffer[320 + 10], red);
    assert_eq!(buffer[10], black);
    assert_eq!(buffer[2 * 320 + 10], black);
    // left vertical line: columns 0 and 2 black, column 1 red
    assert_eq!(buffer[10 * 320], black);
    assert_eq!(buffer[10 * 320 + 1], red);
    assert_eq!(buffer[10 * 320 + 2], black);
    // corner stencil pixel
    assert_eq!(buffer[2], black);
}

#[test]
fn sprite_font_prints_a_glyph_block() {
    // glyph 0 is all colour 1: printing "0" fills a 16 by 18 block
    let font = SpriteFont::from(vec![1u8; 288]);
    let mut buffer = vec![0u32; 64000];
    font.print(&mut buffer, "0").unwrap();
    for y in 0..18 {
        for x in 0..16 {
            assert_eq!(buffer[y * 320 + x], 0xffc0c0c0, "{x} {y}");
        }
    }
    assert_eq!(buffer[16], 0);
    assert_eq!(buffer[18 * 320], 0);
}

#[test]
fn sprite_font_space_advances_and_unknown_is_skipped() {
    // two glyphs so that '1' (glyph index 1) exists
    let font = SpriteFont::from(vec![2u8; 576]);
    let mut buffer = vec![0u32; 64000];
    // a comma is not in the set: nothing is drawn and the cursor stays
    font.print(&mut buffer, ",").unwrap();
    assert!(buffer.iter().all(|&p| p == 0));
    // a space advances by 14 columns before the glyph
    font.print(&mut buffer, " 1").unwrap();
    assert_eq!(buffer[0], 0);
    assert_eq!(buffer[14], 0xff808080);
}

#[test]
fn sprite_font_rejects_non_ascii_text() {
    let font = SpriteFont::from(vec![1u8; 288]);
    let mut buffer = vec![5u32; 64000];
    assert_eq!(
        font.print(&mut buffer, "caf\u{e9}"),
        Err(ErrorKind::FormatError)
    );
    // the rejection leaves the buffer untouched
    assert!(buffer.iter().all(|&p| p == 5));
}

#[test]
fn font_rejects_non_ascii_text_and_keeps_buffer() {
    let mut d = vec![1u8, 0, 2, 0, 1, 0, 0x0f, 0xff];
    d.extend_from_slice(&[0xaa; 8]);
    d.push(0x23);
    let font = Font::from(char_set_03(), d).unwrap();
    let pal = vec![0u8; 768];
    let mut buffer = vec![5u32; 64000];
    assert_eq!(
        font.print(&mut buffer, "\u{203e}", &pal),
        Err(ErrorKind::FormatError)
    );
    assert!(buffer.iter().all(|&p| p == 5));
}

#[test]
fn sprite_font_transparent_zero_pixels() {
    // glyph bytes alternate 0 and 3: zeros leave the buffer untouched
    let mut data = vec![0u8; 288];
    for (i, b) in data.iter_mut().enumerate() {
        if i % 2 == 1 {
            *b = 3;
        }
    }
    let font = SpriteFont::from(data);
    let mut buffer = vec![7u32; 64000];
    font.print(&mut buffer, "0").unwrap();
    assert_eq!(buffer[0], 7); // transparent
    assert_eq!(buffer[1], 0xff000000); // colour 3
}

#[test]
fn font_from_rejects_undecodable_table() {
    let cs = char_set_03();
    assert_eq!(cs.h_space, 9);
    assert_eq!(char_set_04().h_space, 7);
    assert!(matches!(
        Font::from(char_set_03(), vec![]),
        Err(ErrorKind::DecodeError)
    ));
}

#[test]
fn font_prints_a_decoded_glyph() {
    // a cell table with one glyph: the two-pixel cell from the codec tests
    let mut d = vec![1u8, 0, 2, 0, 1, 0, 0x0f, 0xff];
    d.extend_from_slice(&[0xaa; 8]);
    d.push(0x23);
    let font = Font::from(char_set_03(), d).unwrap();
    let mut pal = vec![0u8; 768];
    pal[6..9].copy_from_slice(&[1, 2, 3]);
    let mut buffer = vec![0u32; 64000];
    // '0' is glyph 0; a leading space shifts it by the nine-pixel advance
    font.print(&mut buffer, " 0", &pal).unwrap();
    assert_eq!(buffer[9], 0xff04080c);
    assert_eq!(buffer[0], 0);
}
