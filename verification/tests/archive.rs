use lotus3::archive::Archive;
use lotus3::ErrorKind;

/// A container image: a twelve-byte header, ten-byte directory records, and
/// resource bytes at sector-scaled offsets.
fn image_with(records: &[(&[u8; 3], u16)], total: usize) -> Vec<u8> {
    let mut img = vec![0u8; 12];
    for (key, sectors) in records {
        img.extend_from_slice(&key[..]);
        img.extend_from_slice(&[0; 5]);
        img.push((sectors & 0xff) as u8);
        img.push((sectors >> 8) as u8);
    }
    img.extend_from_slice(&[0; 10]); // terminating record
    while img.len() < total {
        img.push(0);
    }
    img
}

/// A compressed stream that unpacks to three literal bytes 1, 2, 3.
const PACKED_123: [u8; 10] = [1, 0x1b, 0x41, 0x30, 0x31, 0x1b, 0x03, 1, 2, 3];

#[test]
fn open_fails_on_truncated_directory() {
    // the directory record is cut short: open must fail with IoError
    let mut img = vec![0u8; 12];
    img.extend_from_slice(&[b'A', b'A', b'A', 0, 0]);
    assert!(matches!(Archive::open(img), Err(ErrorKind::IoError)));
    assert!(matches!(Archive::open(vec![0u8; 5]), Err(ErrorKind::IoError)));
}

#[test]
fn open_stops_at_zero_record() {
    // bytes after the terminating record do not change the directory
    let img1 = image_with(&[(b"AAA", 1)], 1024);
    let mut img2 = image_with(&[(b"AAA", 1)], 1024);
    img2.extend_from_slice(b"ZZZ\0\0\0\0\0\x02\0trailing junk");
    let mut img1 = img1;
    img1.extend_from_slice(&vec![0u8; 28]);

    let a1 = Archive::open(img1).unwrap();
    let a2 = Archive::open(img2).unwrap();
    assert_eq!(a1.get_raw("ZZZ"), Err(ErrorKind::NotFound));
    assert_eq!(a2.get_raw("ZZZ"), Err(ErrorKind::NotFound));
    assert_eq!(a1.get_raw("AAA"), a2.get_raw("AAA"));
}

#[test]
fn get_unknown_key_is_not_found() {
    let img = image_with(&[(b"AAA", 1)], 1024);
    let arc = Archive::open(img).unwrap();
    assert_eq!(arc.get("XYZ"), Err(ErrorKind::NotFound));
}

#[test]
fn get_decompresses_the_stored_block() {
    // "AAA" covers [512, 1024); "BBB" is last and has no derived length
    let mut img = image_with(&[(b"AAA", 1), (b"BBB", 2)], 1024);
    img[512..522].copy_from_slice(&PACKED_123);
    let arc = Archive::open(img).unwrap();
    assert_eq!(arc.get("AAA"), Ok(vec![1, 2, 3]));
}

#[test]
fn get_raw_returns_compressed_bytes() {
    let mut img = image_with(&[(b"AAA", 1), (b"BBB", 2)], 1024);
    img[512..522].copy_from_slice(&PACKED_123);
    let arc = Archive::open(img).unwrap();
    let raw = arc.get_raw("AAA").unwrap();
    assert_eq!(raw.len(), 512);
    assert_eq!(&raw[..10], &PACKED_123);
}

#[test]
fn last_entry_has_no_extent() {
    // the final entry's length cannot be derived: it reads zero bytes and
    // the empty stream fails to decode
    let img = image_with(&[(b"AAA", 1), (b"BBB", 2)], 1024);
    let arc = Archive::open(img).unwrap();
    assert_eq!(arc.get("BBB"), Err(ErrorKind::DecodeError));
}

#[test]
fn duplicate_keys_keep_first_occurrence() {
    // AAA appears at sectors 1 and 3; only the first occurrence is
    // addressable, and the derived length comes from the following record
    let mut img = image_with(&[(b"AAA", 1), (b"AAA", 3), (b"BBB", 2)], 2048);
    img[512..522].copy_from_slice(&PACKED_123);
    let arc = Archive::open(img).unwrap();
    // the first occurrence's range is [512, 1024): 512 raw bytes
    assert_eq!(arc.get_raw("AAA").unwrap().len(), 512);
    assert_eq!(arc.get("AAA"), Ok(vec![1, 2, 3]));
}

#[test]
fn get_fails_on_range_past_image_end() {
    // "AAA" covers [512, 1024) but the image ends early
    let img = image_with(&[(b"AAA", 1), (b"BBB", 2)], 600);
    let arc = Archive::open(img).unwrap();
    assert_eq!(arc.get("AAA"), Err(ErrorKind::IoError));
}

#[test]
fn get_deterministic_on_same_image() {
    let mut img = image_with(&[(b"AAA", 1), (b"BBB", 2)], 1024);
    img[512..522].copy_from_slice(&PACKED_123);
    let arc = Archive::open(img).unwrap();
    assert_eq!(arc.get("AAA"), arc.get("AAA"));
}

/// A stream at `at` that unpacks to `n` copies of `value` (n < 16384).
fn put_fill(img: &mut Vec<u8>, at: usize, n: usize, value: u8) {
    // counter 1, escape 0x1b, one record, then merged fill ops
    let mut s = vec![1, 0x1b, 0x41, 0x30, 0x31];
    let mut left = n;
    while left > 0 {
        let step = left.min(63);
        s.push(0x1b);
        s.push(0x80 | step as u8);
        s.push(value);
        left -= step;
    }
    s.push(0x1b);
    s.push(0);
    img[at..at + s.len()].copy_from_slice(&s);
}

#[test]
fn get_with_palette_splits_exact_768_bytes() {
    let mut img = image_with(&[(b"AAA", 1), (b"BBB", 2)], 1024);
    put_fill(&mut img, 512, 800, 7);
    let arc = Archive::open(img).unwrap();
    let (data, pal) = arc.get_with_palette("AAA").unwrap();
    assert_eq!(pal.len(), 768);
    assert_eq!(data.len(), 800 - 768);
    assert_eq!(pal, vec![7u8; 768]);
    assert_eq!(data, vec![7u8; 32]);
}

#[test]
fn get_with_palette_fails_on_short_payload() {
    let mut img = image_with(&[(b"AAA", 1), (b"BBB", 2)], 1024);
    put_fill(&mut img, 512, 767, 7);
    let arc = Archive::open(img).unwrap();
    assert_eq!(arc.get_with_palette("AAA"), Err(ErrorKind::FormatError));
}

#[test]
fn get_series_cuts_equal_chunks_and_drops_remainder() {
    let mut img = image_with(&[(b"AAA", 1), (b"BBB", 2)], 1024);
    put_fill(&mut img, 512, 7, 9);
    let arc = Archive::open(img).unwrap();
    let series = arc.get_series("AAA", 2).unwrap();
    assert_eq!(series.len(), 3);
    for chunk in &series {
        assert_eq!(chunk, &vec![9u8, 9]);
    }
    // a chunk size larger than the payload yields no chunks, not an error
    let none = arc.get_series("AAA", 8).unwrap();
    assert_eq!(none.len(), 0);
    // an exact divisor leaves no remainder
    let exact = arc.get_series("AAA", 7).unwrap();
    assert_eq!(exact, vec![vec![9u8; 7]]);
}

#[test]
fn get_series_keeps_chunk_order() {
    let mut img = image_with(&[(b"AAA", 1), (b"BBB", 2)], 1024);
    // a copy run of six distinct bytes
    let s = [1u8, 0x1b, 0x41, 0x30, 0x31, 0x1b, 0x06, 1, 2, 3, 4, 5, 6];
    img[512..512 + s.len()].copy_from_slice(&s);
    let arc = Archive::open(img).unwrap();
    let series = arc.get_series("AAA", 2).unwrap();
    assert_eq!(series, vec![vec![1u8, 2], vec![3, 4], vec![5, 6]]);
}
