//! Peeling one bare compression layer.

use archive_core::peel::{check_cap, decode_bzip2, decode_gzip, finish_decode, limit_past, MAX_INFLATED};
use archive_core::{peel_bytes, sniff, ArchiveError, Format, PeelOutcome};
use std::io::Write;

const PAYLOAD_BZ2: [u8; 151] = [
    0x42, 0x5a, 0x68, 0x39, 0x31, 0x41, 0x59, 0x26, 0x53, 0x59, 0xcb, 0xb5, 0x45, 0x00, 0x00, 0x00,
    0xc2, 0xd9, 0xe1, 0x00, 0x10, 0x40, 0x02, 0x10, 0x00, 0x3f, 0x6d, 0xff, 0xf0, 0x40, 0x00, 0x04,
    0x00, 0x10, 0x00, 0x30, 0x00, 0xd8, 0x05, 0x00, 0x00, 0x00, 0x00, 0x28, 0x00, 0x00, 0x00, 0x00,
    0x9a, 0xaa, 0xa7, 0xa4, 0x3c, 0xa3, 0xd0, 0xd4, 0x3c, 0xa1, 0xe9, 0x3d, 0x13, 0x78, 0x74, 0x86,
    0xb0, 0xf8, 0x87, 0xdc, 0x3a, 0x43, 0xda, 0x1d, 0xe1, 0xd6, 0x1c, 0xa1, 0xb4, 0x36, 0x86, 0x70,
    0xc2, 0x1c, 0xe8, 0x7b, 0xc3, 0x58, 0x69, 0x0d, 0x21, 0xac, 0x37, 0x87, 0x58, 0x73, 0x86, 0x50,
    0xc2, 0x1a, 0xc3, 0x78, 0x71, 0x0c, 0x61, 0xca, 0x1c, 0x43, 0x88, 0x76, 0x86, 0x30, 0xeb, 0x0e,
    0xd0, 0xd2, 0x19, 0xd0, 0xce, 0x1a, 0x43, 0xb4, 0x36, 0x87, 0x10, 0xf4, 0xa1, 0x84, 0x38, 0x87,
    0xe4, 0x32, 0x87, 0x95, 0x0c, 0x61, 0x8c, 0x3c, 0x43, 0xc4, 0x32, 0x87, 0xf8, 0xbb, 0x92, 0x29,
    0xc2, 0x84, 0x86, 0x5d, 0xaa, 0x28, 0x00,
];
fn gzip(data: &[u8]) -> Vec<u8> {
    let mut e = flate2::write::GzEncoder::new(Vec::new(), flate2::Compression::default());
    e.write_all(data).unwrap();
    e.finish().unwrap()
}
#[test]
fn peels_bare_gzip_to_inner_bytes() {
    let inner = b"E01-ish evidence \x00\x01\x02 the quick brown fox".repeat(20);
    let gz = gzip(&inner);
    assert_eq!(sniff(Some("evidence.bin"), &gz), Format::Gzip);
    match peel_bytes(&gz, Some("evidence.dd.gz")).unwrap() {
        PeelOutcome::Peeled { format, inner: got } => {
            assert_eq!(format, Format::Gzip);
            assert_eq!(got, inner);
        }
        other => panic!("expected Peeled, got {other:?}"),
    }
}

#[test]
fn peels_bare_bzip2() {
    let expected = "archive-detour bzip2 test payload — the quick brown fox\n"
        .repeat(30)
        .into_bytes();
    match peel_bytes(&PAYLOAD_BZ2, Some("payload.bz2")).unwrap() {
        PeelOutcome::Peeled { format, inner } => {
            assert_eq!(format, Format::Bzip2);
            assert_eq!(inner, expected);
        }
        other => panic!("expected Peeled, got {other:?}"),
    }
}

#[test]
fn archive_is_not_bare_peeled() {
    // A zip is a member list, not a bare wrapper: it is left alone.
    let zip = b"PK\x03\x04 rest of a zip";
    assert!(matches!(
        peel_bytes(zip, Some("eo.zip")).unwrap(),
        PeelOutcome::NotPacked
    ));
}

#[test]
fn non_packed_passthrough() {
    let raw = b"\x00\x01\x02 not a known wrapper";
    assert!(matches!(
        peel_bytes(raw, Some("disk.raw")).unwrap(),
        PeelOutcome::NotPacked
    ));
}

#[test]
fn magic_beats_extension() {
    let seven = [0x37, 0x7A, 0xBC, 0xAF, 0x27, 0x1C, 0, 0];
    assert_eq!(sniff(Some("foo.gz"), &seven), Format::SevenZip);
}

// A gzip stream whose tail is cut still has its magic, but must fail loud.
#[test]
fn truncated_gzip_fails_loud() {
    let inner = b"disk sector bytes \x00\x01\x02 the quick brown fox".repeat(50);
    let mut gz = gzip(&inner);
    gz.truncate(gz.len() / 2);
    assert_eq!(sniff(Some("disk.dd.gz"), &gz), Format::Gzip);
    match peel_bytes(&gz, Some("disk.dd.gz")) {
        Err(ArchiveError::Decode { format, .. }) => assert_eq!(format, "gzip"),
        other => panic!("expected a loud gzip Decode error, got {other:?}"),
    }
}

#[test]
fn truncated_bzip2_fails_loud() {
    let mut bz = PAYLOAD_BZ2.to_vec();
    bz.truncate(bz.len() / 2);
    assert_eq!(sniff(Some("payload.bz2"), &bz), Format::Bzip2);
    match peel_bytes(&bz, Some("payload.bz2")) {
        Err(ArchiveError::Decode { format, .. }) => assert_eq!(format, "bzip2"),
        other => panic!("expected a loud bzip2 Decode error, got {other:?}"),
    }
}

// A cap is never met by cutting: exactly at it all bytes come back, one below it
// nothing does.
#[test]
fn capped_decodes_give_all_or_fail() {
    let inner = vec![0x5A_u8; 3000];
    let gz = gzip(&inner);
    assert_eq!(decode_gzip(&gz, 3000).unwrap(), inner);
    assert!(matches!(
        decode_gzip(&gz, 2999),
        Err(ArchiveError::TooLarge { cap: 2999 })
    ));
    assert_eq!(decode_gzip(&gz, u64::MAX).unwrap(), inner);
    assert_eq!(decode_bzip2(&PAYLOAD_BZ2, 1740).unwrap().len(), 1740);
    assert!(matches!(
        decode_bzip2(&PAYLOAD_BZ2, 1739),
        Err(ArchiveError::TooLarge { cap: 1739 })
    ));
}

#[test]
fn a_magicless_stream_under_a_wrapper_name_fails_loud() {
    assert!(matches!(
        peel_bytes(b"plain text", Some("notes.gz")),
        Err(ArchiveError::Decode { format: "gzip", .. })
    ));
    assert!(matches!(
        peel_bytes(b"plain text", Some("notes.bz2")),
        Err(ArchiveError::Decode { format: "bzip2", .. })
    ));
}

#[test]
fn decode_results_are_held_to_the_cap() {
    assert_eq!(MAX_INFLATED, 4_294_967_296);
    assert_eq!(limit_past(7), 8);
    assert_eq!(limit_past(u64::MAX), u64::MAX);
    assert_eq!(check_cap(vec![1, 2, 3], 3).unwrap(), vec![1, 2, 3]);
    assert!(matches!(check_cap(vec![1, 2, 3], 2), Err(ArchiveError::TooLarge { cap: 2 })));
    assert_eq!(finish_decode(Ok(vec![9]), "gzip", 1).unwrap(), vec![9]);
    match finish_decode(Err("broken".to_string()), "bzip2", 1) {
        Err(ArchiveError::Decode { format, detail }) => {
            assert_eq!(format, "bzip2");
            assert_eq!(detail, "broken");
        }
        other => panic!("expected Decode, got {other:?}"),
    }
}
