//! The archive layer as an opener.

use archive_core::vfs::{decode_err, ArchiveContents, BytesSource, Gather};
use archive_core::{Archive, ArchiveError, ArchiveOpener};
use std::io::Write;

const PAYLOAD_ZIP: [u8; 372] = [
    0x50, 0x4b, 0x03, 0x04, 0x14, 0x00, 0x00, 0x00, 0x08, 0x00, 0x00, 0x00, 0x21, 0x00, 0x92, 0xca,
    0xf4, 0x75, 0x18, 0x00, 0x00, 0x00, 0x16, 0x00, 0x00, 0x00, 0x05, 0x00, 0x00, 0x00, 0x61, 0x2e,
    0x74, 0x78, 0x74, 0x4b, 0xcc, 0x29, 0xc8, 0x48, 0x54, 0xc8, 0x4d, 0xcd, 0x4d, 0x4a, 0x2d, 0x52,
    0x48, 0xce, 0xcf, 0x2b, 0x49, 0xcd, 0x2b, 0x29, 0xe6, 0x02, 0x00, 0x50, 0x4b, 0x03, 0x04, 0x14,
    0x00, 0x00, 0x00, 0x08, 0x00, 0x00, 0x00, 0x21, 0x00, 0xf7, 0x94, 0xb5, 0x96, 0x26, 0x00, 0x00,
    0x00, 0x25, 0x00, 0x00, 0x00, 0x05, 0x00, 0x00, 0x00, 0x62, 0x2e, 0x74, 0x78, 0x74, 0x4b, 0x4a,
    0x2d, 0x49, 0x54, 0xc8, 0x4d, 0xcd, 0x4d, 0x4a, 0x2d, 0x52, 0x48, 0xce, 0xcf, 0x2b, 0x49, 0xcd,
    0x2b, 0x29, 0x56, 0x78, 0xd4, 0x30, 0x45, 0xa1, 0x38, 0x15, 0xc8, 0x4d, 0x51, 0x48, 0xcb, 0xcc,
    0x49, 0xe5, 0x02, 0x00, 0x50, 0x4b, 0x03, 0x04, 0x14, 0x00, 0x00, 0x00, 0x08, 0x00, 0x00, 0x00,
    0x21, 0x00, 0x0a, 0x7e, 0xbb, 0x60, 0x16, 0x00, 0x00, 0x00, 0x14, 0x00, 0x00, 0x00, 0x09, 0x00,
    0x00, 0x00, 0x73, 0x75, 0x62, 0x2f, 0x63, 0x2e, 0x74, 0x78, 0x74, 0x4b, 0x4f, 0xcc, 0xcd, 0x4d,
    0x54, 0xc8, 0x4b, 0x2d, 0x2e, 0x49, 0x4d, 0x51, 0xc8, 0x4d, 0xcd, 0x4d, 0x4a, 0x2d, 0xe2, 0x02,
    0x00, 0x50, 0x4b, 0x01, 0x02, 0x14, 0x03, 0x14, 0x00, 0x00, 0x00, 0x08, 0x00, 0x00, 0x00, 0x21,
    0x00, 0x92, 0xca, 0xf4, 0x75, 0x18, 0x00, 0x00, 0x00, 0x16, 0x00, 0x00, 0x00, 0x05, 0x00, 0x00,
    0x00, 0x00, 0x00, 0x00, 0x00, 0x00, 0x00, 0x00, 0x00, 0x80, 0x01, 0x00, 0x00, 0x00, 0x00, 0x61,
    0x2e, 0x74, 0x78, 0x74, 0x50, 0x4b, 0x01, 0x02, 0x14, 0x03, 0x14, 0x00, 0x00, 0x00, 0x08, 0x00,
    0x00, 0x00, 0x21, 0x00, 0xf7, 0x94, 0xb5, 0x96, 0x26, 0x00, 0x00, 0x00, 0x25, 0x00, 0x00, 0x00,
    0x05, 0x00, 0x00, 0x00, 0x00, 0x00, 0x00, 0x00, 0x00, 0x00, 0x00, 0x00, 0x80, 0x01, 0x3b, 0x00,
    0x00, 0x00, 0x62, 0x2e, 0x74, 0x78, 0x74, 0x50, 0x4b, 0x01, 0x02, 0x14, 0x03, 0x14, 0x00, 0x00,
    0x00, 0x08, 0x00, 0x00, 0x00, 0x21, 0x00, 0x0a, 0x7e, 0xbb, 0x60, 0x16, 0x00, 0x00, 0x00, 0x14,
    0x00, 0x00, 0x00, 0x09, 0x00, 0x00, 0x00, 0x00, 0x00, 0x00, 0x00, 0x00, 0x00, 0x00, 0x00, 0x80,
    0x01, 0x84, 0x00, 0x00, 0x00, 0x73, 0x75, 0x62, 0x2f, 0x63, 0x2e, 0x74, 0x78, 0x74, 0x50, 0x4b,
    0x05, 0x06, 0x00, 0x00, 0x00, 0x00, 0x03, 0x00, 0x03, 0x00, 0x9d, 0x00, 0x00, 0x00, 0xc1, 0x00,
    0x00, 0x00, 0x00, 0x00,
];
fn gzip(data: &[u8]) -> Vec<u8> {
    let mut e = flate2::write::GzEncoder::new(Vec::new(), flate2::Compression::default());
    e.write_all(data).unwrap();
    e.finish().unwrap()
}
/// An uncompressed tar from `(name, bytes)` members.
fn build_tar(members: &[(&str, Vec<u8>)]) -> Vec<u8> {
    let mut b = tar::Builder::new(Vec::new());
    for (name, data) in members {
        let mut h = tar::Header::new_gnu();
        h.set_size(data.len() as u64);
        h.set_mode(0o644);
        h.set_cksum();
        b.append_data(&mut h, name, data.as_slice()).unwrap();
    }
    b.into_inner().unwrap()
}
/// Everything in a source, through its positioned reads.
fn drain_source(source: &BytesSource) -> Vec<u8> {
    let mut gather = Gather::new(source.len());
    let mut buf = [0u8; 64];
    while let Some(offset) = gather.next_offset() {
        let n = source.read_at(offset, &mut buf);
        if !gather.accept(&buf[..n]) {
            break;
        }
    }
    gather.finish()
}

#[test]
fn probe_recognizes_archive_magics_and_rejects_raw() {
    let op = ArchiveOpener::new();
    let gz = gzip(b"payload");
    assert!(op.probe(&gz).is_some());
    assert!(op.probe(b"PK\x03\x04rest").is_some());
    assert!(op
        .probe(&[0x37, 0x7A, 0xBC, 0xAF, 0x27, 0x1C, 0, 0])
        .is_some());
    // Raw bytes are not an archive layer.
    assert_eq!(op.probe(b"\x00\x01\x02 not packed"), None);
}

#[test]
fn bare_gzip_opens_as_stream() {
    let inner = b"raw disk sector bytes \x00\x01\x02 the quick brown fox".repeat(40);
    let gz = gzip(&inner);
    match ArchiveOpener::new().open(&gz).unwrap() {
        ArchiveContents::Stream(s) => assert_eq!(drain_source(&s), inner),
        _ => panic!("a bare gzip wrapper is a Stream, not Members"),
    }
}

#[test]
fn multi_member_tar_opens_as_members() {
    let a = b"AAAA member one\n".repeat(5);
    let b = b"BBBB member two contents\n".repeat(7);
    let tar = build_tar(&[("alpha.bin", a.clone()), ("beta.bin", b.clone())]);
    match ArchiveOpener::new().open(&tar).unwrap() {
        ArchiveContents::Members(members) => {
            assert_eq!(members.len(), 2, "one Member per file entry");
            assert_eq!(members[0].name, b"alpha.bin");
            assert_eq!(members[1].name, b"beta.bin");
            assert_eq!(drain_source(&members[0].source), a);
            assert_eq!(drain_source(&members[1].source), b);
        }
        _ => panic!("a tar is a Members table, not a Stream"),
    }
}

#[test]
fn committed_zip_members_match_archive_oracle() {
    let mut oracle = Archive::open(&PAYLOAD_ZIP, Some("payload.zip"))
        .unwrap()
        .unwrap();
    let expected: Vec<(Vec<u8>, Vec<u8>)> = oracle
        .entries()
        .to_vec()
        .iter()
        .enumerate()
        .filter(|(_, e)| !e.is_dir)
        .map(|(i, e)| (e.name.as_bytes().to_vec(), oracle.read(i).unwrap()))
        .collect();
    assert!(expected.len() > 1, "payload.zip is multi-member");

    match ArchiveOpener::new().open(&PAYLOAD_ZIP).unwrap() {
        ArchiveContents::Members(members) => {
            assert_eq!(members.len(), expected.len());
            for (m, (name, bytes)) in members.iter().zip(expected.iter()) {
                assert_eq!(&m.name, name);
                assert_eq!(&drain_source(&m.source), bytes);
            }
        }
        _ => panic!("payload.zip is multi-member → Members"),
    }
}

#[test]
fn bytes_source_positioned_read_contract() {
    let s = BytesSource::new((0u8..50).collect());
    assert_eq!(s.len(), 50);
    let mut buf = [0u8; 8];
    let n = s.read_at(45, &mut buf);
    assert_eq!(n, 5);
    assert_eq!(&buf[..5], &[45, 46, 47, 48, 49]);
    assert_eq!(s.read_at(50, &mut buf), 0);
    assert_eq!(s.read_at(999, &mut buf), 0);
}

#[test]
fn open_non_archive_fails_loud() {
    match ArchiveOpener::new().open(b"\x00\x01\x02 not an archive") {
        Err(e) => {
            assert_eq!(e.layer, "archive");
            assert!(!e.bytes.is_empty(), "offending bytes are attached");
        }
        Ok(_) => panic!("expected a loud Decode error, got Ok"),
    }
}

#[test]
fn probes_say_how_a_layer_was_recognized() {
    let op = ArchiveOpener::new();
    assert_eq!(op.probe(&[0x1F, 0x8B]), Some("archive: gzip magic (1f 8b)"));
    assert_eq!(op.probe(b"BZh"), Some("archive: bzip2 magic (BZh)"));
    assert_eq!(
        op.probe(b"PK\x03\x04"),
        Some("archive: zip magic (PK\\x03\\x04)")
    );
    assert_eq!(
        op.probe(&[0x37, 0x7A, 0xBC, 0xAF, 0x27, 0x1C]),
        Some("archive: 7z magic (37 7a bc af 27 1c)")
    );
    let tar = build_tar(&[("a", vec![1])]);
    assert_eq!(op.probe(&tar), Some("archive: ustar magic (offset 257)"));
}

#[test]
fn failures_carry_the_head_bytes() {
    let data: Vec<u8> = (0u8..40).collect();
    let e = ArchiveOpener::new().open(&data).unwrap_err();
    assert_eq!(e.detail, "not a recognized archive layer");
    assert_eq!(e.offset, 0);
    assert_eq!(e.bytes, (0u8..16).collect::<Vec<u8>>());
    let short = decode_err(b"abc", &ArchiveError::TooLarge { cap: 9 });
    assert_eq!(short.detail, "decompressed output exceeds the 9-byte cap");
    assert_eq!(short.bytes, b"abc");
    let broken = ArchiveOpener::new().open(b"\x1f\x8b broken").unwrap_err();
    assert!(broken.detail.starts_with("gzip decode failed: "));
}

#[test]
fn gathering_stops_at_the_length_or_at_an_empty_read() {
    let mut g = Gather::new(5);
    assert_eq!(g.next_offset(), Some(0));
    assert!(g.accept(b"abc"));
    assert_eq!(g.next_offset(), Some(3));
    assert!(g.accept(b"defg"));
    assert_eq!(g.next_offset(), None);
    assert_eq!(g.finish(), b"abcde");
    let mut short = Gather::new(5);
    assert!(short.accept(b"x"));
    assert!(!short.accept(b""));
    assert_eq!(short.finish(), b"x");
}
