//! Member reading for the tar family: plain `ustar`, `.tgz`, `.tbz2`.

use archive_core::{Archive, Format};
use std::io::Write;

const A_TXT: &[u8] = b"alpha member contents\n";
const B_TXT: &[u8] = "beta member contents \u{2014} second file\n".as_bytes();
const C_TXT: &[u8] = b"gamma nested member\n";
const PAYLOAD_TBZ2: [u8; 206] = [
    0x42, 0x5a, 0x68, 0x39, 0x31, 0x41, 0x59, 0x26, 0x53, 0x59, 0xba, 0x2e, 0x93, 0x27, 0x00, 0x00,
    0xab, 0xdb, 0xe3, 0xcb, 0x90, 0x40, 0x01, 0xf7, 0x80, 0x00, 0x88, 0x7f, 0xe7, 0xde, 0x40, 0x40,
    0x00, 0x04, 0x00, 0x00, 0x40, 0x10, 0x80, 0x08, 0x08, 0x30, 0x00, 0xb9, 0x03, 0x22, 0x4c, 0x14,
    0x68, 0x34, 0x03, 0x4f, 0x50, 0xd3, 0x41, 0xea, 0x7a, 0x9a, 0x7a, 0x86, 0x1a, 0x19, 0x0d, 0x32,
    0x68, 0x06, 0x21, 0xa6, 0x9a, 0x34, 0x34, 0x60, 0xda, 0x55, 0x3f, 0x4a, 0x0f, 0x50, 0x1a, 0x00,
    0x6d, 0x20, 0x1a, 0x00, 0x7e, 0xb4, 0xc4, 0x5c, 0x4c, 0x78, 0x13, 0x48, 0x1c, 0x84, 0x81, 0x65,
    0xaa, 0xae, 0xc4, 0x13, 0x44, 0xa5, 0x18, 0xc9, 0x97, 0xc1, 0x09, 0x89, 0x36, 0x57, 0x6c, 0xe4,
    0x35, 0x45, 0xbc, 0xf5, 0x76, 0xc8, 0xb1, 0x6a, 0x30, 0xa1, 0x29, 0x8d, 0x01, 0x5d, 0x14, 0x01,
    0x06, 0x6a, 0x6c, 0x6e, 0x5b, 0x0a, 0x6d, 0x2c, 0x95, 0x8d, 0x68, 0x81, 0x80, 0x78, 0x45, 0x07,
    0x0b, 0xfc, 0x4a, 0xb8, 0xd8, 0x6b, 0x47, 0x16, 0xe3, 0xd3, 0x78, 0x9a, 0xce, 0x59, 0xa0, 0x50,
    0x5e, 0x5c, 0x8f, 0x8d, 0x27, 0xf3, 0xac, 0x6d, 0x2f, 0x2c, 0xa2, 0xa0, 0x60, 0xc0, 0xe9, 0x69,
    0x61, 0xd0, 0x1d, 0xac, 0xb3, 0xf6, 0x45, 0x6e, 0x02, 0xe0, 0x3e, 0x95, 0xc8, 0xc4, 0xd6, 0xb2,
    0xb5, 0x00, 0x20, 0x7f, 0x17, 0x72, 0x45, 0x38, 0x50, 0x90, 0xba, 0x2e, 0x93, 0x27,
];
/// A `ustar` tar of the three known members.
fn payload_tar() -> Vec<u8> {
    let mut b = tar::Builder::new(Vec::new());
    for (name, data) in [("a.txt", A_TXT), ("b.txt", B_TXT), ("sub/c.txt", C_TXT)] {
        let mut h = tar::Header::new_ustar();
        h.set_size(data.len() as u64);
        h.set_mode(0o644);
        h.set_cksum();
        b.append_data(&mut h, name, data).unwrap();
    }
    b.into_inner().unwrap()
}
fn gzip(data: &[u8]) -> Vec<u8> {
    let mut e = flate2::write::GzEncoder::new(Vec::new(), flate2::Compression::default());
    e.write_all(data).unwrap();
    e.finish().unwrap()
}
fn member_index(a: &Archive, name: &str) -> usize {
    a.entries()
        .iter()
        .position(|e| e.name == name && !e.is_dir)
        .unwrap_or_else(|| panic!("member {name} not found in {:?}", a.entries()))
}
fn assert_three_members(bytes: &[u8], name: &str, expect_fmt: Format) {
    let mut a = Archive::open(bytes, Some(name))
        .unwrap()
        .unwrap_or_else(|| panic!("{name} must open as an archive"));
    assert_eq!(a.format(), expect_fmt);

    let files: Vec<String> = a
        .entries()
        .iter()
        .filter(|e| !e.is_dir)
        .map(|e| e.name.clone())
        .collect();
    for want in ["a.txt", "b.txt", "sub/c.txt"] {
        assert!(files.iter().any(|n| n == want), "missing member {want}");
    }

    let ia = member_index(&a, "a.txt");
    let ib = member_index(&a, "b.txt");
    let ic = member_index(&a, "sub/c.txt");
    assert_eq!(a.read(ia).unwrap(), A_TXT);
    assert_eq!(a.read(ib).unwrap(), B_TXT);
    assert_eq!(a.read(ic).unwrap(), C_TXT);

    // Declared sizes match the extracted bytes.
    assert_eq!(a.entries()[ia].size, A_TXT.len() as u64);
    assert_eq!(a.entries()[ib].size, B_TXT.len() as u64);
}

#[test]
fn reads_plain_tar_members() {
    assert_three_members(&payload_tar(), "payload.tar", Format::Tar);
}

#[test]
fn reads_tgz_members() {
    assert_three_members(&gzip(&payload_tar()), "payload.tgz", Format::TarGz);
}

#[test]
fn reads_tbz2_members() {
    assert_three_members(&PAYLOAD_TBZ2, "payload.tbz2", Format::TarBz2);
}

#[test]
fn out_of_range_index_fails_loud() {
    let mut a = Archive::open(&payload_tar(), Some("payload.tar"))
        .unwrap()
        .unwrap();
    assert!(a.read(9999).is_err());
}

#[test]
fn non_archive_returns_none() {
    let raw = b"not an archive at all \x00\x01\x02";
    assert!(Archive::open(raw, Some("disk.raw")).unwrap().is_none());
}
