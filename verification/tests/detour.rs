//! The single-image detour.

use archive_core::detour::{cap, has_compression_ext};
use archive_core::{
    peel_archive_seekable, peel_detour, ArchiveError, Detour, Limits, PeelSource, ReadSeek,
};
use std::io::Write;

const PAYLOAD_BZ2: [u8; 151] = [
    0x42, 0x5a, 0x68, 0x39, 0x31, 0x41, 0x59, 0x26, 0x53, 0x59, 0xcb, 0xb5, 0x45, 0x00, 0x00, 0x00,
    0xc2, 0xd9, 0xe1, 0x00, 0x10, 0x40, 0x02, 0x10, 0x00, 0x3f, 0x6d, 0xff, 0xf0, 0x40, 0x00, 0x04,
    0x00, 0x10, 0x00, 0x30, 0x00, 0xd8, 0x05, 0x00, 0x00, 0x00, 0x00, 0x28, 0x00, 0x00, 0x00, 0x00,
    0x9a, 0xaa, 0xa7, 0xa4, 0x3c, 0xa3, 0xd0, 0xd4, 0x3c, 0xa1, 0xe9, 0x3d, 0x13, 0x78, 0x74, 0x86,
    0xb0, 0xf8, 0x87, 0xdc, 0x3a, 0x43, 0xda, 0x1d, 0xe1, 0xd6, 0x1c, 0xa1, 0xb4, 0x36, 0x86, 0x70,
    0xc2, 0x1c, 0xe8, 0x7b, 0xc3, 0x58, 0x69, 0x0d, 0x21, 0xac, 0x37, 0x87, 0x58, 0x73, 0x86, 0x50,
    0xc2, 0x1a, 0xc3, 0x78, 0x71, 0x0c, 0x61, 0xca, 0x1c, 0x43, 0x88, 0x76, 0x86, 0x30, 0xeb, 0x0e,
    0xd0, 0xd2, 0x19, 0xd0, 0xce, 0x1a, 0x43, 0xb4, 0x36, 0x87, 0x10, 0xf4, 0xa1, 0x84, 0x38, 0x87,
    0xe4, 0x32, 0x87, 0x95, 0x0c, 0x61, 0x8c, 0x3c, 0x43, 0xc4, 0x32, 0x87, 0xf8, 0xbb, 0x92, 0x29,
    0xc2, 0x84, 0x86, 0x5d, 0xaa, 0x28, 0x00,
];
const PAYLOAD_ZIP: [u8; 372] = [
    0x50, 0x4b, 0x03, 0x04, 0x14, 0x00, 0x00, 0x00, 0x08, 0x00, 0x00, 0x00, 0x21, 0x00, 0x92, 0xca,
    0xf4, 0x75, 0x18, 0x00, 0x00, 0x00, 0x16, 0x00, 0x00, 0x00, 0x05, 0x00, 0x00, 0x00, 0x61, 0x2e,
    0x74, 0x78, 0x74, 0x4b, 0xcc, 0x29, 0xc8, 0x48, 0x54, 0xc8, 0x4d, 0xcd, 0x4d, 0x4a, 0x2d, 0x52,
    0x48, 0xce, 0xcf, 0x2b, 0x49, 0xcd, 0x2b, 0x29, 0xe6, 0x02, 0x00, 0x50, 0x4b, 0x03, 0x04, 0x14,
    0x00, 0x00, 0x00, 0x08, 0x00, 0x00, 0x00, 0x21, 0x00, 0xf7, 0x94, 0xb5, 0x96, 0x26, 0x00, 0x00,
    0x00, 0x25, 0x00, 0x00, 0x00, 0x05, 0x00, 0x00, 0x00, 0x62, 0x2e, 0x74, 0x78, 0x74, 0x4b, 0x4a,
    0x2d, 0x49, 0x54, 0xc8, 0x4d, 0xcd, 0x4d, 0x4a, 0x2d, 0x52, 0x48, 0xce, 0xcf, 0x2b, 0x49, 0xcd,
    0x2b, 0x29, 0x56, 0x78, 0xd4, 0x30, 0x45, 0xa1, 0x38, 0x15, 0xc8, 0x4d, 0x51, 0x48, 0xcb, 0xcc,
    0x49, 0xe5, 0x02, 0x00, 0x50, 0x4b, 0x03, 0x04, 0x14, 0x00, 0x00, 0x00, 0x08, 0x00, 0x00, 0x00,
    0x21, 0x00, 0x0a, 0x7e, 0xbb, 0x60, 0x16, 0x00, 0x00, 0x00, 0x14, 0x00, 0x00, 0x00, 0x09, 0x00,
    0x00, 0x00, 0x73, 0x75, 0x62, 0x2f, 0x63, 0x2e, 0x74, 0x78, 0x74, 0x4b, 0x4f, 0xcc, 0xcd, 0x4d,
    0x54, 0xc8, 0x4b, 0x2d, 0x2e, 0x49, 0x4d, 0x51, 0xc8, 0x4d, 0xcd, 0x4d, 0x4a, 0x2d, 0xe2, 0x02,
    0x00, 0x50, 0x4b, 0x01, 0x02, 0x14, 0x03, 0x14, 0x00, 0x00, 0x00, 0x08, 0x00, 0x00, 0x00, 0x21,
    0x00, 0x92, 0xca, 0xf4, 0x75, 0x18, 0x00, 0x00, 0x00, 0x16, 0x00, 0x00, 0x00, 0x05, 0x00, 0x00,
    0x00, 0x00, 0x00, 0x00, 0x00, 0x00, 0x00, 0x00, 0x00, 0x80, 0x01, 0x00, 0x00, 0x00, 0x00, 0x61,
    0x2e, 0x74, 0x78, 0x74, 0x50, 0x4b, 0x01, 0x02, 0x14, 0x03, 0x14, 0x00, 0x00, 0x00, 0x08, 0x00,
    0x00, 0x00, 0x21, 0x00, 0xf7, 0x94, 0xb5, 0x96, 0x26, 0x00, 0x00, 0x00, 0x25, 0x00, 0x00, 0x00,
    0x05, 0x00, 0x00, 0x00, 0x00, 0x00, 0x00, 0x00, 0x00, 0x00, 0x00, 0x00, 0x80, 0x01, 0x3b, 0x00,
    0x00, 0x00, 0x62, 0x2e, 0x74, 0x78, 0x74, 0x50, 0x4b, 0x01, 0x02, 0x14, 0x03, 0x14, 0x00, 0x00,
    0x00, 0x08, 0x00, 0x00, 0x00, 0x21, 0x00, 0x0a, 0x7e, 0xbb, 0x60, 0x16, 0x00, 0x00, 0x00, 0x14,
    0x00, 0x00, 0x00, 0x09, 0x00, 0x00, 0x00, 0x00, 0x00, 0x00, 0x00, 0x00, 0x00, 0x00, 0x00, 0x80,
    0x01, 0x84, 0x00, 0x00, 0x00, 0x73, 0x75, 0x62, 0x2f, 0x63, 0x2e, 0x74, 0x78, 0x74, 0x50, 0x4b,
    0x05, 0x06, 0x00, 0x00, 0x00, 0x00, 0x03, 0x00, 0x03, 0x00, 0x9d, 0x00, 0x00, 0x00, 0xc1, 0x00,
    0x00, 0x00, 0x00, 0x00,
];
fn gzip(data: &[u8]) -> Vec<u8> {
    let mut e = flate2::write::GzEncoder::new(Vec::new(), flate2::Compression::default());
    e.write_all(data).unwrap();
    e.finish().unwrap()
}
/// A ZIP whose members are each stored uncompressed, in the given order. Each
/// member's checksum is its own, changed by `spoil`.
fn stored_zip_with(members: &[(&str, &[u8])], spoil: u32) -> Vec<u8> {
    let mut z: Vec<u8> = Vec::new();
    let mut central: Vec<u8> = Vec::new();
    let mut count = 0u16;
    for (name, payload) in members {
        let nb = name.as_bytes();
        let mut crc = flate2::Crc::new();
        crc.update(payload);
        let crc = crc.sum() ^ spoil;
        let lho = z.len() as u32;
        let (sz, nlen) = (payload.len() as u32, nb.len() as u16);
        // Local file header.
        z.extend_from_slice(&0x0403_4b50u32.to_le_bytes());
        z.extend_from_slice(&20u16.to_le_bytes()); // version needed
        z.extend_from_slice(&0u16.to_le_bytes()); // flags
        z.extend_from_slice(&0u16.to_le_bytes()); // method: stored
        z.extend_from_slice(&0u16.to_le_bytes()); // mod time
        z.extend_from_slice(&0u16.to_le_bytes()); // mod date
        z.extend_from_slice(&crc.to_le_bytes());
        z.extend_from_slice(&sz.to_le_bytes()); // compressed size
        z.extend_from_slice(&sz.to_le_bytes()); // uncompressed size
        z.extend_from_slice(&nlen.to_le_bytes());
        z.extend_from_slice(&0u16.to_le_bytes()); // extra len
        z.extend_from_slice(nb);
        z.extend_from_slice(payload);
        // Central directory header.
        central.extend_from_slice(&0x0201_4b50u32.to_le_bytes());
        central.extend_from_slice(&20u16.to_le_bytes()); // version made by
        central.extend_from_slice(&20u16.to_le_bytes()); // version needed
        central.extend_from_slice(&0u16.to_le_bytes()); // flags
        central.extend_from_slice(&0u16.to_le_bytes()); // method
        central.extend_from_slice(&0u16.to_le_bytes()); // mod time
        central.extend_from_slice(&0u16.to_le_bytes()); // mod date
        central.extend_from_slice(&crc.to_le_bytes());
        central.extend_from_slice(&sz.to_le_bytes());
        central.extend_from_slice(&sz.to_le_bytes());
        central.extend_from_slice(&nlen.to_le_bytes());
        central.extend_from_slice(&0u16.to_le_bytes()); // extra len
        central.extend_from_slice(&0u16.to_le_bytes()); // comment len
        central.extend_from_slice(&0u16.to_le_bytes()); // disk number start
        central.extend_from_slice(&0u16.to_le_bytes()); // internal attrs
        central.extend_from_slice(&0u32.to_le_bytes()); // outer attrs
        central.extend_from_slice(&lho.to_le_bytes()); // local header offset
        central.extend_from_slice(nb);
        count += 1;
    }
    let cd_offset = z.len() as u32;
    let cd_size = central.len() as u32;
    z.extend_from_slice(&central);
    // End of central directory.
    z.extend_from_slice(&0x0605_4b50u32.to_le_bytes());
    z.extend_from_slice(&0u16.to_le_bytes()); // disk num
    z.extend_from_slice(&0u16.to_le_bytes()); // disk with cd
    z.extend_from_slice(&count.to_le_bytes()); // entries this disk
    z.extend_from_slice(&count.to_le_bytes()); // total entries
    z.extend_from_slice(&cd_size.to_le_bytes());
    z.extend_from_slice(&cd_offset.to_le_bytes());
    z.extend_from_slice(&0u16.to_le_bytes()); // comment len
    z
}

fn stored_zip(members: &[(&str, &[u8])]) -> Vec<u8> {
    stored_zip_with(members, 0)
}
/// Everything from the position on.
fn drain<S: ReadSeek>(source: &mut S) -> Vec<u8> {
    let mut out = Vec::new();
    let mut buf = [0u8; 100];
    loop {
        let n = source.read(&mut buf);
        if n == 0 {
            return out;
        }
        out.extend_from_slice(&buf[..n]);
    }
}
/// A compressed tar with exactly one member.
fn oneimg_tgz() -> Vec<u8> {
    let payload = b"RAW-EVIDENCE-IMAGE-BYTES payload for the single-member detour\n";
    let mut b = tar::Builder::new(Vec::new());
    let mut h = tar::Header::new_ustar();
    h.set_size(payload.len() as u64);
    h.set_mode(0o644);
    h.set_cksum();
    b.append_data(&mut h, "disk.img", &payload[..]).unwrap();
    gzip(&b.into_inner().unwrap())
}

#[test]
fn peels_bare_bzip2_wrapper() {
    let expected = "archive-detour bzip2 test payload \u{2014} the quick brown fox\n"
        .repeat(30)
        .into_bytes();
    match peel_detour(&PAYLOAD_BZ2, Some("payload.bz2"), &Limits::default()).unwrap() {
        Detour::Inner(inner) => assert_eq!(inner, expected),
        Detour::NotPacked => panic!("bare bzip2 with .bz2 name must peel"),
    }
}

#[test]
fn coincidental_magic_without_extension_is_not_packed() {
    // gzip magic but named `.raw`: the guard must decline.
    let raw = gzip(b"inner raw image bytes that happen to be gzipped");
    match peel_detour(&raw, Some("disk.raw"), &Limits::default()).unwrap() {
        Detour::NotPacked => {}
        Detour::Inner(_) => panic!("must NOT peel a gzip-magic file named .raw"),
    }
}

#[test]
fn extracts_single_member_archive() {
    match peel_detour(&oneimg_tgz(), Some("oneimg.tgz"), &Limits::default()).unwrap() {
        Detour::Inner(inner) => assert_eq!(
            inner,
            b"RAW-EVIDENCE-IMAGE-BYTES payload for the single-member detour\n"
        ),
        Detour::NotPacked => panic!("single-member archive must extract"),
    }
}

#[test]
fn multi_member_archive_is_not_packed() {
    match peel_detour(&PAYLOAD_ZIP, Some("payload.zip"), &Limits::default()).unwrap() {
        Detour::NotPacked => {}
        Detour::Inner(_) => panic!("multi-member archive must be left to the caller"),
    }
}

#[test]
fn plain_raw_is_not_packed() {
    let raw = b"\x00\x01\x02 not a wrapper or archive";
    assert!(matches!(
        peel_detour(raw, Some("disk.dd"), &Limits::default()).unwrap(),
        Detour::NotPacked
    ));
}

#[test]
fn over_cap_single_extract_fails_loud() {
    let limits = Limits {
        max_total_inflated: 4,
        ..Limits::default()
    };
    assert!(peel_detour(&oneimg_tgz(), Some("oneimg.tgz"), &limits).is_err());
}

#[test]
fn directories_do_not_count_as_members() {
    let zip = stored_zip(&[("dir/", b""), ("dir/disk.img", b"image")]);
    match peel_detour(&zip, None, &Limits::default()).unwrap() {
        Detour::Inner(inner) => assert_eq!(inner, b"image"),
        Detour::NotPacked => panic!("one file member must extract"),
    }
    let empty = stored_zip(&[("dir/", b"")]);
    assert!(matches!(
        peel_detour(&empty, None, &Limits::default()).unwrap(),
        Detour::NotPacked
    ));
}

#[test]
fn compression_names_are_known_in_any_case() {
    for ext in [
        "gz", "bz2", "xz", "tgz", "taz", "tbz", "tbz2", "txz", "tzst", "tlz", "zst", "z", "GZ",
    ] {
        assert!(has_compression_ext(Some(&format!("disk.{ext}"))), "{ext}");
    }
    assert!(!has_compression_ext(Some("disk.raw")));
    assert!(!has_compression_ext(Some("gz")));
    assert!(!has_compression_ext(None));
}

#[test]
fn extractions_are_held_to_the_cap() {
    let limits = Limits {
        max_total_inflated: 2,
        ..Limits::default()
    };
    assert!(matches!(cap(vec![1, 2], &limits), Ok(Detour::Inner(b)) if b == vec![1, 2]));
    assert!(matches!(
        cap(vec![1, 2, 3], &limits),
        Err(ArchiveError::TotalInflatedExceeded { cap: 2 })
    ));
}

#[test]
fn the_seekable_peel_reads_as_the_detour() {
    let zip = stored_zip(&[("disk.img", b"evidence bytes")]);
    let Detour::Inner(inner) = peel_detour(&zip, Some("d.zip"), &Limits::default()).unwrap() else {
        panic!("a one-member archive must extract");
    };
    let PeelSource::Inner(mut source) =
        peel_archive_seekable(zip, None, &Limits::default()).unwrap()
    else {
        panic!("a one-member archive must peel");
    };
    assert_eq!(drain(&mut source), inner);
    assert_eq!(inner, b"evidence bytes");
}

#[test]
fn an_archive_name_without_a_magic_extracts_nothing() {
    let raw = b"\x00\x01\x02 raw";
    for name in ["disk.zip", "disk.7z", "disk.tar", "disk.tgz", "disk.tbz2", "disk.clbx"] {
        assert!(
            matches!(
                peel_detour(raw, Some(name), &Limits::default()),
                Ok(Detour::NotPacked)
            ),
            "{name}"
        );
    }
}
