//! Member reading for ZIP (`.zip`, `.clbx`).

use archive_core::{Archive, Format};

const A_TXT: &[u8] = b"alpha member contents\n";
const B_TXT: &[u8] = "beta member contents \u{2014} second file\n".as_bytes();
const C_TXT: &[u8] = b"gamma nested member\n";
const PAYLOAD_ZIP: [u8; 372] = [
    0x50, 0x4b, 0x03, 0x04, 0x14, 0x00, 0x00, 0x00, 0x08, 0x00, 0x00, 0x00, 0x21, 0x00, 0x92, 0xca,
    0xf4, 0x75, 0x18, 0x00, 0x00, 0x00, 0x16, 0x00, 0x00, 0x00, 0x05, 0x00, 0x00, 0x00, 0x61, 0x2e,
    0x74, 0x78, 0x74, 0x4b, 0xcc, 0x29, 0xc8, 0x48, 0x54, 0xc8, 0x4d, 0xcd, 0x4d, 0x4a, 0x2d, 0x52,
    0x48, 0xce, 0xcf, 0x2b, 0x49, 0xcd, 0x2b, 0x29, 0xe6, 0x02, 0x00, 0x50, 0x4b, 0x03, 0x04, 0x14,
    0x00, 0x00, 0x00, 0x08, 0x00, 0x00, 0x00, 0x21, 0x00, 0xf7, 0x94, 0xb5, 0x96, 0x26, 0x00, 0x00,
    0x00, 0x25, 0x00, 0x00, 0x00, 0x05, 0x00, 0x00, 0x00, 0x62, 0x2e, 0x74, 0x78, 0x74, 0x4b, 0x4a,
    0x2d, 0x49, 0x54, 0xc8, 0x4d, 0xcd, 0x4d, 0x4a, 0x2d, 0x52, 0x48, 0xce, 0xcf, 0x2b, 0x49, 0xcd,
    0x2b, 0x29, 0x56, 0x78, 0xd4, 0x30, 0x45, 0xa1, 0x38, 0x15, 0xc8, 0x4d, 0x51, 0x48, 0xcb, 0xcc,
    0x49, 0xe5, 0x02, 0x00, 0x50, 0x4b, 0x03, 0x04, 0x14, 0x00, 0x00, 0x00, 0x08, 0x00, 0x00, 0x00,
    0x21, 0x00, 0x0a, 0x7e, 0xbb, 0x60, 0x16, 0x00, 0x00, 0x00, 0x14, 0x00, 0x00, 0x00, 0x09, 0x00,
    0x00, 0x00, 0x73, 0x75, 0x62, 0x2f, 0x63, 0x2e, 0x74, 0x78, 0x74, 0x4b, 0x4f, 0xcc, 0xcd, 0x4d,
    0x54, 0xc8, 0x4b, 0x2d, 0x2e, 0x49, 0x4d, 0x51, 0xc8, 0x4d, 0xcd, 0x4d, 0x4a, 0x2d, 0xe2, 0x02,
    0x00, 0x50, 0x4b, 0x01, 0x02, 0x14, 0x03, 0x14, 0x00, 0x00, 0x00, 0x08, 0x00, 0x00, 0x00, 0x21,
    0x00, 0x92, 0xca, 0xf4, 0x75, 0x18, 0x00, 0x00, 0x00, 0x16, 0x00, 0x00, 0x00, 0x05, 0x00, 0x00,
    0x00, 0x00, 0x00, 0x00, 0x00, 0x00, 0x00, 0x00, 0x00, 0x80, 0x01, 0x00, 0x00, 0x00, 0x00, 0x61,
    0x2e, 0x74, 0x78, 0x74, 0x50, 0x4b, 0x01, 0x02, 0x14, 0x03, 0x14, 0x00, 0x00, 0x00, 0x08, 0x00,
    0x00, 0x00, 0x21, 0x00, 0xf7, 0x94, 0xb5, 0x96, 0x26, 0x00, 0x00, 0x00, 0x25, 0x00, 0x00, 0x00,
    0x05, 0x00, 0x00, 0x00, 0x00, 0x00, 0x00, 0x00, 0x00, 0x00, 0x00, 0x00, 0x80, 0x01, 0x3b, 0x00,
    0x00, 0x00, 0x62, 0x2e, 0x74, 0x78, 0x74, 0x50, 0x4b, 0x01, 0x02, 0x14, 0x03, 0x14, 0x00, 0x00,
    0x00, 0x08, 0x00, 0x00, 0x00, 0x21, 0x00, 0x0a, 0x7e, 0xbb, 0x60, 0x16, 0x00, 0x00, 0x00, 0x14,
    0x00, 0x00, 0x00, 0x09, 0x00, 0x00, 0x00, 0x00, 0x00, 0x00, 0x00, 0x00, 0x00, 0x00, 0x00, 0x80,
    0x01, 0x84, 0x00, 0x00, 0x00, 0x73, 0x75, 0x62, 0x2f, 0x63, 0x2e, 0x74, 0x78, 0x74, 0x50, 0x4b,
    0x05, 0x06, 0x00, 0x00, 0x00, 0x00, 0x03, 0x00, 0x03, 0x00, 0x9d, 0x00, 0x00, 0x00, 0xc1, 0x00,
    0x00, 0x00, 0x00, 0x00,
];
fn member_index(a: &Archive, name: &str) -> usize {
    a.entries()
        .iter()
        .position(|e| e.name == name && !e.is_dir)
        .unwrap_or_else(|| panic!("member {name} not found in {:?}", a.entries()))
}
#[test]
fn reads_zip_members() {
    let mut a = Archive::open(&PAYLOAD_ZIP, Some("payload.zip"))
        .unwrap()
        .expect("payload.zip must open");
    assert_eq!(a.format(), Format::Zip);

    let files: Vec<String> = a
        .entries()
        .iter()
        .filter(|e| !e.is_dir)
        .map(|e| e.name.clone())
        .collect();
    for want in ["a.txt", "b.txt", "sub/c.txt"] {
        assert!(files.iter().any(|n| n == want), "missing member {want}");
    }

    let ia = member_index(&a, "a.txt");
    let ib = member_index(&a, "b.txt");
    let ic = member_index(&a, "sub/c.txt");
    assert_eq!(a.read(ia).unwrap(), A_TXT);
    assert_eq!(a.read(ib).unwrap(), B_TXT);
    assert_eq!(a.read(ic).unwrap(), C_TXT);
    assert_eq!(a.entries()[ib].size, B_TXT.len() as u64);
}

#[test]
fn clbx_extension_opens_as_zip() {
    // A zip payload named `.clbx` opens as Zip by magic regardless of extension.
    let a = Archive::open(&PAYLOAD_ZIP, Some("evidence.clbx"))
        .unwrap()
        .expect("clbx-named zip must open");
    assert_eq!(a.format(), Format::Zip);
}

#[test]
fn zip_out_of_range_fails_loud() {
    let mut a = Archive::open(&PAYLOAD_ZIP, Some("payload.zip"))
        .unwrap()
        .unwrap();
    assert!(a.read(9999).is_err());
}
