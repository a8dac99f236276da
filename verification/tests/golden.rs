//! Golden-hash regression tests against the real container file.
//!
//! These run only when the container file sits next to the crate; without
//! it each test passes vacuously.  Each vector pins the digest of
//! `decode(unpack(raw bytes of key), flag, base)`.

use lotus3::archive::Archive;
use lotus3::bitmap::decode;

fn golden(key: &str, flag: u8, base: u8, digest: &str) {
    let image = match fs_err::read("lotus.dat") {
        Ok(image) => image,
        Err(_) => return,
    };
    let arc = Archive::open(image).unwrap();
    let raw = arc.get_raw(key).unwrap();
    let unpacked = lotus3::zip::unpack(&raw).unwrap();
    let cells = decode(&unpacked, flag, base).unwrap();
    assert_eq!(digest, format!("{:x}", md5::compute(&cells)), "key {key}");
}

#[test]
fn golden_c00() {
    golden("C00", 0, 224, "ab2ddcf199b25bf16f8429b70724dacc");
}

#[test]
fn golden_c01() {
    golden("C01", 0, 224, "60dd9c511bb694eec8d580aaf512e0b6");
}

#[test]
fn golden_c03() {
    golden("C03", 0, 0, "b80d3b8777676fa41a9ade07a2762c25");
}

#[test]
fn golden_c04() {
    golden("C04", 0, 0, "f5539f421234f9ff2ea198a289d2414a");
}

#[test]
fn golden_c06() {
    golden("C06", 0, 0, "4e650de8919ff91b49f8a98dae63abbf");
}

#[test]
fn golden_s70() {
    golden("S70", 255, 25, "eb53ae6b86479c5f757c0703f2a40326");
}

#[test]
fn golden_s80() {
    golden("S80", 0, 240, "5762bae1900a5307fbdb57ff6bdb1480");
}

#[test]
fn golden_sbe() {
    golden("SBE", 255, 27, "ff645af987ee59f1d783ff4fd5c7b237");
}

#[test]
fn golden_sd1() {
    golden("SD1", 0, 240, "242a72c554090b28a73c04c469688759");
}
