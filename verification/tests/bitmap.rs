use lotus3::bitmap::{create_table, decode, opcode_runs, Bitmap, Code};
use lotus3::graphics::Point;
use lotus3::ErrorKind;

#[test]
fn decode_rejects_empty_input() {
    assert_eq!(decode(&[], 0, 0), Err(ErrorKind::DecodeError));
}

#[test]
fn decode_single_record_no_pixels() {
    // one header record, sentinel 0xFF, zero-length run, one repetition:
    // the record emits a single zero bitmask byte and pads to 16
    let d = [0u8, 0, 0, 0, 1, 0, 0x10, 0xff];
    let out = decode(&d, 0, 0).unwrap();
    assert_eq!(
        out,
        vec![0u8, 0, 0, 0, 1, 0, 0x10, 0xff, 0, 0, 0, 0, 0, 0, 0, 0]
    );
}

#[test]
fn decode_expands_nibble_pairs() {
    // header: data pointer 1 (16-byte units), run of 2, one repetition,
    // marker 0x0f never matches a nibble; the table pointer bytes are
    // overwritten with the output length in 16-byte units (1, 0)
    let mut d = vec![1u8, 0, 2, 0, 1, 0, 0x0f, 0xff];
    d.extend_from_slice(&[0xaa; 8]); // copied as 16-byte padding
    d.push(0x23); // nibbles 2 then 3
    let out = decode(&d, 0, 0).unwrap();
    let mut expect = vec![1u8, 0, 2, 0, 1, 0, 0x0f, 0xff];
    expect.extend_from_slice(&[0xaa; 8]);
    expect.extend_from_slice(&[0xc0, 2, 3]); // bitmask, two opaque pixels
    expect.extend_from_slice(&[0; 13]); // padding to 32
    assert_eq!(out, expect);
}

#[test]
fn decode_applies_bias_base() {
    let mut d = vec![1u8, 0, 2, 0, 1, 0, 0x0f, 0xff];
    d.extend_from_slice(&[0xaa; 8]);
    d.push(0x23);
    let out = decode(&d, 0, 5).unwrap();
    assert_eq!(&out[16..19], &[0xc0, 7, 8]);
}

#[test]
fn decode_skips_transparent_nibbles() {
    // marker 2: the first nibble of 0x23 is transparent, consumed but not
    // emitted; only the second nibble draws
    let mut d = vec![1u8, 0, 2, 0, 1, 0, 0x02, 0xff];
    d.extend_from_slice(&[0xaa; 8]);
    d.push(0x23);
    let out = decode(&d, 0, 0).unwrap();
    assert_eq!(&out[16..18], &[0x40, 3]);
}

#[test]
fn decode_fails_when_pixels_run_out() {
    // the run wants a nibble from position 16 but the input ends at 8
    let d = [1u8, 0, 2, 0, 1, 0, 0x0f, 0xff];
    assert_eq!(decode(&d, 0, 0), Err(ErrorKind::DecodeError));
}

#[test]
fn opcode_runs_for_known_bytes() {
    assert_eq!(opcode_runs(0x00), vec![Code::Skip(8)]);
    assert_eq!(opcode_runs(0xff), vec![Code::Draw(8)]);
    assert_eq!(opcode_runs(0xc0), vec![Code::Draw(2), Code::Skip(6)]);
    assert_eq!(opcode_runs(0x01), vec![Code::Skip(7), Code::Draw(1)]);
    assert_eq!(
        opcode_runs(0xaa),
        vec![
            Code::Draw(1),
            Code::Skip(1),
            Code::Draw(1),
            Code::Skip(1),
            Code::Draw(1),
            Code::Skip(1),
            Code::Draw(1),
            Code::Skip(1),
        ]
    );
}

#[test]
fn opcode_table_is_complete() {
    // for every byte value, the run lengths add up to eight and the runs
    // reproduce the byte's bit pattern, most significant bit first
    let table = create_table();
    assert_eq!(table.len(), 256);
    for (b, runs) in table.iter().enumerate() {
        let mut total = 0u32;
        let mut rebuilt = 0u32;
        let mut pos = 0u32;
        for code in runs {
            let (n, bit) = match code {
                Code::Skip(n) => (*n as u32, 0u32),
                Code::Draw(n) => (*n as u32, 1u32),
            };
            total += n;
            for _ in 0..n {
                rebuilt = (rebuilt << 1) | bit;
                pos += 1;
            }
        }
        assert_eq!(total, 8, "byte {b}");
        assert_eq!(pos, 8, "byte {b}");
        assert_eq!(rebuilt, b as u32, "byte {b}");
    }
}

#[test]
fn bitmap_draw_blits_one_cell() {
    // decode the two-pixel cell and blit it at the origin
    let mut d = vec![1u8, 0, 2, 0, 1, 0, 0x0f, 0xff];
    d.extend_from_slice(&[0xaa; 8]);
    d.push(0x23);
    let bmp = Bitmap::from(d, 0, 0).unwrap();

    let mut pal = vec![0u8; 768];
    pal[6..9].copy_from_slice(&[1, 2, 3]); // palette entry 2
    pal[9..12].copy_from_slice(&[4, 5, 6]); // palette entry 3

    let mut buffer = vec![0u32; 64000];
    bmp.draw(0, Point { x: 0, y: 0 }, &mut buffer, &pal).unwrap();

    // channels are scaled from six to eight bits by a left shift of two
    assert_eq!(buffer[0], 0xff04080c);
    assert_eq!(buffer[1], 0xff101418);
    assert!(buffer[2..].iter().all(|&p| p == 0));
}

#[test]
fn bitmap_draw_at_point_offsets_rows() {
    let mut d = vec![1u8, 0, 2, 0, 1, 0, 0x0f, 0xff];
    d.extend_from_slice(&[0xaa; 8]);
    d.push(0x23);
    let bmp = Bitmap::from(d, 0, 0).unwrap();
    let pal = vec![0u8; 768];
    let mut buffer = vec![0u32; 64000];
    bmp.draw(0, Point { x: 10, y: 3 }, &mut buffer, &pal).unwrap();
    assert_eq!(buffer[3 * 320 + 10], 0xff000000);
    assert_eq!(buffer[3 * 320 + 11], 0xff000000);
    assert_eq!(buffer[0], 0);
}

#[test]
fn bitmap_draw_fails_on_missing_cell() {
    let mut d = vec![1u8, 0, 2, 0, 1, 0, 0x0f, 0xff];
    d.extend_from_slice(&[0xaa; 8]);
    d.push(0x23);
    let bmp = Bitmap::from(d, 0, 0).unwrap();
    let pal = vec![0u8; 768];
    let mut buffer = vec![0u32; 64000];
    let before = buffer.clone();
    assert_eq!(
        bmp.draw(9, Point { x: 0, y: 0 }, &mut buffer, &pal),
        Err(ErrorKind::DecodeError)
    );
    assert_eq!(buffer, before);
}

#[test]
fn decode_two_records_patch_their_pointers() {
    // two header records share the pixel byte at offset 16; each record's
    // first two bytes are overwritten with the output length in 16-byte
    // units at the time the record is processed (1, then 2)
    let mut d = vec![1u8, 0, 2, 0, 1, 0, 0x0f, 0x00];
    d.extend_from_slice(&[1u8, 0, 2, 0, 1, 0, 0x0f, 0xff]);
    d.push(0x23);
    let out = decode(&d, 0, 0).unwrap();
    assert_eq!(out.len(), 48);
    assert_eq!(&out[0..2], &[1, 0]);
    assert_eq!(&out[8..10], &[2, 0]);
    assert_eq!(&out[16..19], &[0xc0, 2, 3]);
    assert_eq!(&out[19..32], &[0; 13]);
    assert_eq!(&out[32..35], &[0xc0, 2, 3]);
    assert_eq!(&out[35..48], &[0; 13]);
}

#[test]
fn decode_zero_repeat_counter_runs_a_full_cycle() {
    // a zero repetition count decrements through the whole 16-bit range:
    // the record's zero-length run emits one bitmask byte 65536 times
    let d = [0u8, 0, 0, 0, 0, 0, 0x10, 0xff];
    let out = decode(&d, 0, 0).unwrap();
    assert_eq!(out.len(), 8 + 65536 + 8);
    assert_eq!(&out[0..8], &[0, 0, 0, 0, 0, 0, 0x10, 0xff]);
    assert!(out[8..].iter().all(|&b| b == 0));
}

#[test]
fn ramp_table_holds_the_recorded_values() {
    // the fixed luminance ramp: 94 entries, gradient start, long zero run,
    // and the exact tail alignment
    let ramp = lotus3::bitmap::build_ramp();
    assert_eq!(ramp.len(), 94);
    assert_eq!(&ramp[0..8], &[0, 0, 0, 0, 0, 0, 0, 0x0a]);
    assert_eq!(&ramp[22..25], &[0x28, 0x28, 0x28]);
    assert_eq!(&ramp[55..58], &[0x96, 0x96, 0x96]);
    assert_eq!(&ramp[58..61], &[0xa0, 0xa0, 0xa0]);
    assert!(ramp[61..90].iter().all(|&b| b == 0));
    assert_eq!(&ramp[90..94], &[0x01, 0x02, 0x07, 0xff]);
}

/// A cell table of `n` records where only the last record draws: one
/// nibble (value 2) read from the sixteen-byte-aligned position after the
/// headers.  Exercises the luminance ramp at record index `n - 1`.
fn tall_table(n: usize) -> Vec<u8> {
    let mut d = Vec::new();
    for _ in 0..n - 1 {
        d.extend_from_slice(&[0, 0, 0, 0, 1, 0, 0, 0]);
    }
    // headers plus the top-up make (n * 8 + 15) / 16 * 16 bytes; the pixel
    // byte sits right after, at a sixteen-byte boundary
    let hdr = n * 8;
    let src = (hdr + 15) / 16 * 16;
    let units = (src / 16) as u16;
    d.extend_from_slice(&[
        (units & 0xff) as u8,
        (units >> 8) as u8,
        1,
        0,
        1,
        0,
        0x0f,
        0xff,
    ]);
    while d.len() < src {
        d.push(0);
    }
    d.push(0x23);
    d
}

#[test]
fn decode_bias_ramp_reaches_the_gradient_tail() {
    // record index 90 adds ramp value 0x01 to the bias when the flag is set
    let d = tall_table(91);
    let flagged = decode(&d, 1, 0).unwrap();
    let plain = decode(&d, 0, 0).unwrap();
    // records 0..=89 each pad to a 16-byte boundary after one bitmask byte
    let body = 736 + 90 * 16;
    assert_eq!(flagged[body], 0x80);
    assert_eq!(flagged[body + 1], 2 + 0x01); // nibble + base 0 + ramp[90]
    assert_eq!(plain[body + 1], 2); // flag clear: no ramp
}

#[test]
fn decode_bias_ramp_index_seven() {
    // record index 7 adds ramp value 0x0a, with the base on top
    let d = tall_table(8);
    let out = decode(&d, 1, 5).unwrap();
    let body = 64 + 7 * 16;
    assert_eq!(out[body], 0x80);
    assert_eq!(out[body + 1], 2 + 5 + 0x0a);
}

#[test]
fn decode_rejects_record_past_the_ramp() {
    // record index 94 has no ramp entry: an error with the flag set, fine
    // without it
    let mut d = Vec::new();
    for _ in 0..94 {
        d.extend_from_slice(&[0, 0, 0, 0, 1, 0, 0, 0]);
    }
    d.extend_from_slice(&[0, 0, 0, 0, 1, 0, 0, 0xff]);
    assert_eq!(decode(&d, 1, 0), Err(ErrorKind::DecodeError));
    assert!(decode(&d, 0, 0).is_ok());
}
