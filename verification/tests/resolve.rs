//! Recursive multi-layer peeling.

use archive_core::resolve::{leaf, resolve_into, strip_compression_ext, Budget};
use archive_core::{
    detect, peel_bytes, resolve, sniff, Archive, ArchiveError, Format, Limits, Node,
};
use std::io::Write;

const A_TXT: &[u8] = b"alpha member contents\n";
const B_TXT: &[u8] = "beta member contents \u{2014} second file\n".as_bytes();
const C_TXT: &[u8] = b"gamma nested member\n";
const PAYLOAD_ZIP: [u8; 372] = [
    0x50, 0x4b, 0x03, 0x04, 0x14, 0x00, 0x00, 0x00, 0x08, 0x00, 0x00, 0x00, 0x21, 0x00, 0x92, 0xca,
    0xf4, 0x75, 0x18, 0x00, 0x00, 0x00, 0x16, 0x00, 0x00, 0x00, 0x05, 0x00, 0x00, 0x00, 0x61, 0x2e,
    0x74, 0x78, 0x74, 0x4b, 0xcc, 0x29, 0xc8, 0x48, 0x54, 0xc8, 0x4d, 0xcd, 0x4d, 0x4a, 0x2d, 0x52,
    0x48, 0xce, 0xcf, 0x2b, 0x49, 0xcd, 0x2b, 0x29, 0xe6, 0x02, 0x00, 0x50, 0x4b, 0x03, 0x04, 0x14,
    0x00, 0x00, 0x00, 0x08, 0x00, 0x00, 0x00, 0x21, 0x00, 0xf7, 0x94, 0xb5, 0x96, 0x26, 0x00, 0x00,
    0x00, 0x25, 0x00, 0x00, 0x00, 0x05, 0x00, 0x00, 0x00, 0x62, 0x2e, 0x74, 0x78, 0x74, 0x4b, 0x4a,
    0x2d, 0x49, 0x54, 0xc8, 0x4d, 0xcd, 0x4d, 0x4a, 0x2d, 0x52, 0x48, 0xce, 0xcf, 0x2b, 0x49, 0xcd,
    0x2b, 0x29, 0x56, 0x78, 0xd4, 0x30, 0x45, 0xa1, 0x38, 0x15, 0xc8, 0x4d, 0x51, 0x48, 0xcb, 0xcc,
    0x49, 0xe5, 0x02, 0x00, 0x50, 0x4b, 0x03, 0x04, 0x14, 0x00, 0x00, 0x00, 0x08, 0x00, 0x00, 0x00,
    0x21, 0x00, 0x0a, 0x7e, 0xbb, 0x60, 0x16, 0x00, 0x00, 0x00, 0x14, 0x00, 0x00, 0x00, 0x09, 0x00,
    0x00, 0x00, 0x73, 0x75, 0x62, 0x2f, 0x63, 0x2e, 0x74, 0x78, 0x74, 0x4b, 0x4f, 0xcc, 0xcd, 0x4d,
    0x54, 0xc8, 0x4b, 0x2d, 0x2e, 0x49, 0x4d, 0x51, 0xc8, 0x4d, 0xcd, 0x4d, 0x4a, 0x2d, 0xe2, 0x02,
    0x00, 0x50, 0x4b, 0x01, 0x02, 0x14, 0x03, 0x14, 0x00, 0x00, 0x00, 0x08, 0x00, 0x00, 0x00, 0x21,
    0x00, 0x92, 0xca, 0xf4, 0x75, 0x18, 0x00, 0x00, 0x00, 0x16, 0x00, 0x00, 0x00, 0x05, 0x00, 0x00,
    0x00, 0x00, 0x00, 0x00, 0x00, 0x00, 0x00, 0x00, 0x00, 0x80, 0x01, 0x00, 0x00, 0x00, 0x00, 0x61,
    0x2e, 0x74, 0x78, 0x74, 0x50, 0x4b, 0x01, 0x02, 0x14, 0x03, 0x14, 0x00, 0x00, 0x00, 0x08, 0x00,
    0x00, 0x00, 0x21, 0x00, 0xf7, 0x94, 0xb5, 0x96, 0x26, 0x00, 0x00, 0x00, 0x25, 0x00, 0x00, 0x00,
    0x05, 0x00, 0x00, 0x00, 0x00, 0x00, 0x00, 0x00, 0x00, 0x00, 0x00, 0x00, 0x80, 0x01, 0x3b, 0x00,
    0x00, 0x00, 0x62, 0x2e, 0x74, 0x78, 0x74, 0x50, 0x4b, 0x01, 0x02, 0x14, 0x03, 0x14, 0x00, 0x00,
    0x00, 0x08, 0x00, 0x00, 0x00, 0x21, 0x00, 0x0a, 0x7e, 0xbb, 0x60, 0x16, 0x00, 0x00, 0x00, 0x14,
    0x00, 0x00, 0x00, 0x09, 0x00, 0x00, 0x00, 0x00, 0x00, 0x00, 0x00, 0x00, 0x00, 0x00, 0x00, 0x80,
    0x01, 0x84, 0x00, 0x00, 0x00, 0x73, 0x75, 0x62, 0x2f, 0x63, 0x2e, 0x74, 0x78, 0x74, 0x50, 0x4b,
    0x05, 0x06, 0x00, 0x00, 0x00, 0x00, 0x03, 0x00, 0x03, 0x00, 0x9d, 0x00, 0x00, 0x00, 0xc1, 0x00,
    0x00, 0x00, 0x00, 0x00,
];
const NESTED_TBZ_ZIP: [u8; 323] = [
    0x50, 0x4b, 0x03, 0x04, 0x14, 0x00, 0x00, 0x00, 0x08, 0x00, 0x00, 0x00, 0x21, 0x00, 0xfc, 0xbb,
    0xfd, 0xa5, 0xd3, 0x00, 0x00, 0x00, 0xce, 0x00, 0x00, 0x00, 0x07, 0x00, 0x00, 0x00, 0x66, 0x6f,
    0x6f, 0x2e, 0x74, 0x62, 0x7a, 0x01, 0xce, 0x00, 0x31, 0xff, 0x42, 0x5a, 0x68, 0x39, 0x31, 0x41,
    0x59, 0x26, 0x53, 0x59, 0xba, 0x2e, 0x93, 0x27, 0x00, 0x00, 0xab, 0xdb, 0xe3, 0xcb, 0x90, 0x40,
    0x01, 0xf7, 0x80, 0x00, 0x88, 0x7f, 0xe7, 0xde, 0x40, 0x40, 0x00, 0x04, 0x00, 0x00, 0x40, 0x10,
    0x80, 0x08, 0x08, 0x30, 0x00, 0xb9, 0x03, 0x22, 0x4c, 0x14, 0x68, 0x34, 0x03, 0x4f, 0x50, 0xd3,
    0x41, 0xea, 0x7a, 0x9a, 0x7a, 0x86, 0x1a, 0x19, 0x0d, 0x32, 0x68, 0x06, 0x21, 0xa6, 0x9a, 0x34,
    0x34, 0x60, 0xda, 0x55, 0x3f, 0x4a, 0x0f, 0x50, 0x1a, 0x00, 0x6d, 0x20, 0x1a, 0x00, 0x7e, 0xb4,
    0xc4, 0x5c, 0x4c, 0x78, 0x13, 0x48, 0x1c, 0x84, 0x81, 0x65, 0xaa, 0xae, 0xc4, 0x13, 0x44, 0xa5,
    0x18, 0xc9, 0x97, 0xc1, 0x09, 0x89, 0x36, 0x57, 0x6c, 0xe4, 0x35, 0x45, 0xbc, 0xf5, 0x76, 0xc8,
    0xb1, 0x6a, 0x30, 0xa1, 0x29, 0x8d, 0x01, 0x5d, 0x14, 0x01, 0x06, 0x6a, 0x6c, 0x6e, 0x5b, 0x0a,
    0x6d, 0x2c, 0x95, 0x8d, 0x68, 0x81, 0x80, 0x78, 0x45, 0x07, 0x0b, 0xfc, 0x4a, 0xb8, 0xd8, 0x6b,
    0x47, 0x16, 0xe3, 0xd3, 0x78, 0x9a, 0xce, 0x59, 0xa0, 0x50, 0x5e, 0x5c, 0x8f, 0x8d, 0x27, 0xf3,
    0xac, 0x6d, 0x2f, 0x2c, 0xa2, 0xa0, 0x60, 0xc0, 0xe9, 0x69, 0x61, 0xd0, 0x1d, 0xac, 0xb3, 0xf6,
    0x45, 0x6e, 0x02, 0xe0, 0x3e, 0x95, 0xc8, 0xc4, 0xd6, 0xb2, 0xb5, 0x00, 0x20, 0x7f, 0x17, 0x72,
    0x45, 0x38, 0x50, 0x90, 0xba, 0x2e, 0x93, 0x27, 0x50, 0x4b, 0x01, 0x02, 0x14, 0x03, 0x14, 0x00,
    0x00, 0x00, 0x08, 0x00, 0x00, 0x00, 0x21, 0x00, 0xfc, 0xbb, 0xfd, 0xa5, 0xd3, 0x00, 0x00, 0x00,
    0xce, 0x00, 0x00, 0x00, 0x07, 0x00, 0x00, 0x00, 0x00, 0x00, 0x00, 0x00, 0x00, 0x00, 0x00, 0x00,
    0x80, 0x01, 0x00, 0x00, 0x00, 0x00, 0x66, 0x6f, 0x6f, 0x2e, 0x74, 0x62, 0x7a, 0x50, 0x4b, 0x05,
    0x06, 0x00, 0x00, 0x00, 0x00, 0x01, 0x00, 0x01, 0x00, 0x35, 0x00, 0x00, 0x00, 0xf8, 0x00, 0x00,
    0x00, 0x00, 0x00,
];
/// A `ustar` tar of the three known members.
fn payload_tar() -> Vec<u8> {
    let mut b = tar::Builder::new(Vec::new());
    for (name, data) in [("a.txt", A_TXT), ("b.txt", B_TXT), ("sub/c.txt", C_TXT)] {
        let mut h = tar::Header::new_ustar();
        h.set_size(data.len() as u64);
        h.set_mode(0o644);
        h.set_cksum();
        b.append_data(&mut h, name, data).unwrap();
    }
    b.into_inner().unwrap()
}
/// A 7z archive of the three known members.
fn payload_7z() -> Vec<u8> {
    let mut w = sevenz_rust2::ArchiveWriter::new(std::io::Cursor::new(Vec::new())).unwrap();
    for (name, data) in [("a.txt", A_TXT), ("b.txt", B_TXT), ("sub/c.txt", C_TXT)] {
        w.push_archive_entry(sevenz_rust2::ArchiveEntry::new_file(name), Some(data))
            .unwrap();
    }
    w.finish().unwrap().into_inner()
}
fn gzip(data: &[u8]) -> Vec<u8> {
    let mut e = flate2::write::GzEncoder::new(Vec::new(), flate2::Compression::default());
    e.write_all(data).unwrap();
    e.finish().unwrap()
}
/// A ZIP whose members are each stored uncompressed, in the given order. Each
/// member's checksum is its own, changed by `spoil`.
fn stored_zip_with(members: &[(&str, &[u8])], spoil: u32) -> Vec<u8> {
    let mut z: Vec<u8> = Vec::new();
    let mut central: Vec<u8> = Vec::new();
    let mut count = 0u16;
    for (name, payload) in members {
        let nb = name.as_bytes();
        let mut crc = flate2::Crc::new();
        crc.update(payload);
        let crc = crc.sum() ^ spoil;
        let lho = z.len() as u32;
        let (sz, nlen) = (payload.len() as u32, nb.len() as u16);
        // Local file header.
        z.extend_from_slice(&0x0403_4b50u32.to_le_bytes());
        z.extend_from_slice(&20u16.to_le_bytes()); // version needed
        z.extend_from_slice(&0u16.to_le_bytes()); // flags
        z.extend_from_slice(&0u16.to_le_bytes()); // method: stored
        z.extend_from_slice(&0u16.to_le_bytes()); // mod time
        z.extend_from_slice(&0u16.to_le_bytes()); // mod date
        z.extend_from_slice(&crc.to_le_bytes());
        z.extend_from_slice(&sz.to_le_bytes()); // compressed size
        z.extend_from_slice(&sz.to_le_bytes()); // uncompressed size
        z.extend_from_slice(&nlen.to_le_bytes());
        z.extend_from_slice(&0u16.to_le_bytes()); // extra len
        z.extend_from_slice(nb);
        z.extend_from_slice(payload);
        // Central directory header.
        central.extend_from_slice(&0x0201_4b50u32.to_le_bytes());
        central.extend_from_slice(&20u16.to_le_bytes()); // version made by
        central.extend_from_slice(&20u16.to_le_bytes()); // version needed
        central.extend_from_slice(&0u16.to_le_bytes()); // flags
        central.extend_from_slice(&0u16.to_le_bytes()); // method
        central.extend_from_slice(&0u16.to_le_bytes()); // mod time
        central.extend_from_slice(&0u16.to_le_bytes()); // mod date
        central.extend_from_slice(&crc.to_le_bytes());
        central.extend_from_slice(&sz.to_le_bytes());
        central.extend_from_slice(&sz.to_le_bytes());
        central.extend_from_slice(&nlen.to_le_bytes());
        central.extend_from_slice(&0u16.to_le_bytes()); // extra len
        central.extend_from_slice(&0u16.to_le_bytes()); // comment len
        central.extend_from_slice(&0u16.to_le_bytes()); // disk number start
        central.extend_from_slice(&0u16.to_le_bytes()); // internal attrs
        central.extend_from_slice(&0u32.to_le_bytes()); // outer attrs
        central.extend_from_slice(&lho.to_le_bytes()); // local header offset
        central.extend_from_slice(nb);
        count += 1;
    }
    let cd_offset = z.len() as u32;
    let cd_size = central.len() as u32;
    z.extend_from_slice(&central);
    // End of central directory.
    z.extend_from_slice(&0x0605_4b50u32.to_le_bytes());
    z.extend_from_slice(&0u16.to_le_bytes()); // disk num
    z.extend_from_slice(&0u16.to_le_bytes()); // disk with cd
    z.extend_from_slice(&count.to_le_bytes()); // entries this disk
    z.extend_from_slice(&count.to_le_bytes()); // total entries
    z.extend_from_slice(&cd_size.to_le_bytes());
    z.extend_from_slice(&cd_offset.to_le_bytes());
    z.extend_from_slice(&0u16.to_le_bytes()); // comment len
    z
}

fn stored_zip(members: &[(&str, &[u8])]) -> Vec<u8> {
    stored_zip_with(members, 0)
}
fn files(nodes: &[Node]) -> Vec<(String, Vec<u8>)> {
    nodes
        .iter()
        .filter_map(|n| match n {
            Node::File { name, bytes } => Some((name.clone(), bytes.clone())),
            Node::Dir { .. } => None,
        })
        .collect()
}

fn find<'a>(fs: &'a [(String, Vec<u8>)], suffix: &str) -> &'a [u8] {
    &fs.iter()
        .find(|(n, _)| n.ends_with(suffix))
        .unwrap_or_else(|| panic!("no leaf ending in {suffix}"))
        .1
}

#[test]
fn resolves_nested_tbz_zip_to_leaf_files() {
    // zip -> member foo.tbz (bzip2 tar) -> tar members
    let nodes = resolve(&NESTED_TBZ_ZIP, Some("nested.tbz.zip"), &Limits::default()).unwrap();
    let fs = files(&nodes);
    assert_eq!(find(&fs, "a.txt"), A_TXT);
    assert_eq!(find(&fs, "b.txt"), B_TXT);
    assert_eq!(find(&fs, "c.txt"), C_TXT);
}

#[test]
fn resolves_flat_zip() {
    let nodes = resolve(&PAYLOAD_ZIP, Some("payload.zip"), &Limits::default()).unwrap();
    let fs = files(&nodes);
    assert_eq!(find(&fs, "a.txt"), A_TXT);
    assert_eq!(find(&fs, "sub/c.txt"), C_TXT);
}

#[test]
fn resolves_flat_tgz() {
    let tgz = gzip(&payload_tar());
    let nodes = resolve(&tgz, Some("payload.tgz"), &Limits::default()).unwrap();
    assert_eq!(find(&files(&nodes), "b.txt"), B_TXT);
}

#[test]
fn resolves_double_gzip_bare_wrapper() {
    let twice = gzip(&gzip(b"double gzipped leaf payload\n"));
    let nodes = resolve(&twice, Some("leaf.txt.gz.gz"), &Limits::default()).unwrap();
    let fs = files(&nodes);
    assert_eq!(fs.len(), 1, "one leaf expected, got {fs:?}");
    assert_eq!(fs[0].1, b"double gzipped leaf payload\n");
}

#[test]
fn depth_limit_trips_loud() {
    // A raw leaf in 10 bare-gzip layers; the default depth is 8.
    let mut cur = b"deep".to_vec();
    for _ in 0..10 {
        cur = gzip(&cur);
    }
    let err = resolve(&cur, Some("bomb.gz"), &Limits::default()).unwrap_err();
    let message = err.message();
    assert!(
        message.contains("depth"),
        "expected a depth error, got: {message}"
    );
}

#[test]
fn entry_count_limit_trips_loud() {
    let limits = Limits {
        max_entries: 2,
        ..Limits::default()
    };
    // Three members are more than two.
    let err = resolve(&PAYLOAD_ZIP, Some("payload.zip"), &limits).unwrap_err();
    let message = err.message();
    assert!(message.contains("member count"), "got: {message}");
}

#[test]
fn total_inflated_limit_trips_loud() {
    let limits = Limits {
        max_total_inflated: 8, // smaller than any single member
        ..Limits::default()
    };
    let err = resolve(&PAYLOAD_ZIP, Some("payload.zip"), &limits).unwrap_err();
    let message = err.message();
    assert!(message.contains("inflated"), "got: {message}");
}

#[test]
fn non_packed_input_is_a_single_leaf() {
    let raw = b"just some raw evidence bytes \x00\x01";
    let nodes = resolve(raw, Some("disk.raw"), &Limits::default()).unwrap();
    assert_eq!(nodes.len(), 1);
    assert!(matches!(&nodes[0], Node::File { bytes, .. } if bytes == raw));
}

#[test]
fn the_depth_failure_names_the_layer_chain() {
    let limits = Limits {
        max_depth: 1,
        ..Limits::default()
    };
    let twice = gzip(&gzip(b"leaf"));
    match resolve(&twice, Some("a.gz.gz"), &limits) {
        Err(ArchiveError::DepthExceeded { max, chain }) => {
            assert_eq!(max, 1);
            assert_eq!(chain, "a.gz.gz -> a.gz -> a");
        }
        other => panic!("expected DepthExceeded, got {other:?}"),
    }
    match resolve(&twice, None, &limits) {
        Err(ArchiveError::DepthExceeded { chain, .. }) => {
            assert_eq!(chain, "<input> -> <peeled> -> <peeled>");
        }
        other => panic!("expected DepthExceeded, got {other:?}"),
    }
    let zip = stored_zip(&[("inner.gz", &gzip(b"x"))]);
    match resolve(&zip, Some("o.zip"), &limits) {
        Err(ArchiveError::DepthExceeded { chain, .. }) => {
            assert_eq!(chain, "o.zip -> inner.gz -> inner");
        }
        other => panic!("expected DepthExceeded, got {other:?}"),
    }
    let deep = Limits {
        max_depth: usize::MAX,
        ..Limits::default()
    };
    assert_eq!(resolve(&twice, Some("a.gz.gz"), &deep).unwrap().len(), 1);
}

#[test]
fn totals_are_cumulative_across_layers() {
    // Each layer alone fits; together they do not.
    let inner = vec![0u8; 600];
    let once = gzip(&inner);
    let exact = 600 + once.len() as u64;
    let twice = gzip(&once);
    let fits = Limits {
        max_total_inflated: exact,
        ..Limits::default()
    };
    assert_eq!(resolve(&twice, Some("x.gz.gz"), &fits).unwrap().len(), 1);
    let tight = Limits {
        max_total_inflated: exact - 1,
        ..Limits::default()
    };
    assert!(matches!(
        resolve(&twice, Some("x.gz.gz"), &tight),
        Err(ArchiveError::TotalInflatedExceeded { cap }) if cap == exact - 1
    ));
}

#[test]
fn member_counts_are_cumulative_across_archives() {
    let inner = stored_zip(&[("a", b"1"), ("b", b"2")]);
    let outer = stored_zip(&[("i.zip", &inner), ("j.zip", &inner)]);
    let fits = Limits {
        max_entries: 6,
        ..Limits::default()
    };
    assert_eq!(resolve(&outer, None, &fits).unwrap().len(), 4);
    let tight = Limits {
        max_entries: 5,
        ..Limits::default()
    };
    assert!(matches!(
        resolve(&outer, None, &tight),
        Err(ArchiveError::TooManyEntries { max: 5 })
    ));
}

#[test]
fn a_wrapper_resolves_to_what_it_holds() {
    let tar = payload_tar();
    let plain = resolve(&tar, Some("e.tar"), &Limits::default()).unwrap();
    let packed = resolve(&gzip(&tar), Some("e.tar.gz"), &Limits::default()).unwrap();
    assert_eq!(packed, plain);
    // Under a bare name the wrapper is peeled, and the tar is known by its magic.
    let renamed = resolve(&gzip(&tar), Some("e.bin"), &Limits::default()).unwrap();
    assert_eq!(renamed, plain);
    let raw = resolve(b"image", Some("foo.E01"), &Limits::default()).unwrap();
    let gz = resolve(&gzip(b"image"), Some("foo.E01.gz"), &Limits::default()).unwrap();
    assert_eq!(gz, raw);
}

#[test]
fn an_archive_resolves_to_its_members_in_order() {
    let inner = stored_zip(&[("x.txt", b"x"), ("y.txt", b"y")]);
    let outer = stored_zip(&[("dir/", b""), ("in.zip", &inner), ("z.txt", b"z")]);
    let nodes = resolve(&outer, Some("o.zip"), &Limits::default()).unwrap();
    let mut expected = vec![Node::Dir {
        name: "dir/".to_string(),
    }];
    expected.extend(resolve(&inner, Some("in.zip"), &Limits::default()).unwrap());
    expected.extend(resolve(b"z", Some("z.txt"), &Limits::default()).unwrap());
    assert_eq!(nodes, expected);
}

#[test]
fn a_7z_inside_a_zip_resolves() {
    let zip = stored_zip(&[("p.7z", &payload_7z())]);
    let fs = files(&resolve(&zip, Some("o.zip"), &Limits::default()).unwrap());
    assert_eq!(find(&fs, "a.txt"), A_TXT);
    assert_eq!(find(&fs, "sub/c.txt"), C_TXT);
}

#[test]
fn a_broken_member_propagates_its_error() {
    let zip = stored_zip(&[("bomb.gz", b"\x1f\x8b\x08 not really gzip")]);
    assert!(matches!(
        resolve(&zip, Some("o.zip"), &Limits::default()),
        Err(ArchiveError::Decode { format: "gzip", .. })
    ));
}

#[test]
fn peeled_names_lose_one_extension() {
    let cases = [
        ("disk.dd.gz", "disk.dd"),
        ("DISK.GZ", "DISK"),
        ("a.bz2", "a"),
        ("a.Z", "a"),
        ("a.tbz", "a.tbz"),
        ("a.tgz", "a.tgz"),
        ("é.gz", "é"),
        (".gz", ""),
    ];
    for (name, want) in cases {
        assert_eq!(strip_compression_ext(Some(name)).as_deref(), Some(want));
    }
    assert_eq!(strip_compression_ext(None), None);
    assert_eq!(
        leaf(None, b"x"),
        Node::File {
            name: String::new(),
            bytes: b"x".to_vec()
        }
    );
}

#[test]
fn budgets_saturate_and_trip() {
    let limits = Limits {
        max_total_inflated: 10,
        max_entries: 1,
        ..Limits::default()
    };
    let mut b = Budget {
        total_inflated: 0,
        entries: 0,
    };
    assert!(b.add_inflated(10, &limits).is_ok());
    assert!(matches!(
        b.add_inflated(1, &limits),
        Err(ArchiveError::TotalInflatedExceeded { cap: 10 })
    ));
    assert!(b.add_entry(&limits).is_ok());
    assert!(matches!(
        b.add_entry(&limits),
        Err(ArchiveError::TooManyEntries { max: 1 })
    ));
    let mut full = Budget {
        total_inflated: u64::MAX,
        entries: usize::MAX,
    };
    let open = Limits {
        max_total_inflated: u64::MAX,
        max_entries: usize::MAX,
        ..Limits::default()
    };
    assert!(full.add_inflated(5, &open).is_ok());
    assert!(full.add_entry(&open).is_ok());
    assert_eq!(full.total_inflated, u64::MAX);
}

#[test]
fn default_limits() {
    let l = Limits::default();
    assert_eq!(l.max_depth, 8);
    assert_eq!(l.max_total_inflated, 4 << 30);
    assert_eq!(l.max_entries, 1_000_000);
    assert_eq!(l.max_index_bytes, 512 << 20);
}

#[test]
fn no_leaf_is_itself_packed() {
    let zip = stored_zip(&[
        ("a.tgz", &gzip(&payload_tar())),
        ("b.gz", &gzip(b"text")),
        ("c.txt", b"plain"),
    ]);
    let fs = files(&resolve(&zip, None, &Limits::default()).unwrap());
    assert_eq!(fs.len(), 5);
    for (name, bytes) in fs {
        assert_eq!(sniff(Some(&name), &bytes), Format::Unknown, "{name}");
    }
}

#[test]
fn the_output_stays_within_the_guards() {
    let zip = stored_zip(&[("a", b"12345"), ("b.gz", &gzip(b"1234567890"))]);
    let gz = gzip(b"1234567890").len() as u64;
    let limits = Limits {
        max_entries: 2,
        max_total_inflated: 15 + gz,
        ..Limits::default()
    };
    let nodes = resolve(&zip, None, &limits).unwrap();
    assert_eq!(nodes.len(), 2);
    let total: usize = files(&nodes).iter().map(|(_, b)| b.len()).sum();
    assert_eq!(total, 15);
    // A leaf that was never packed is not held to the inflation cap.
    let nothing = Limits {
        max_depth: 0,
        max_entries: 0,
        max_total_inflated: 0,
        max_index_bytes: 0,
    };
    assert_eq!(resolve(b"raw", Some("d.raw"), &nothing).unwrap().len(), 1);
}

#[test]
fn an_empty_name_says_as_little_as_none() {
    for data in [&b"raw"[..], b"PK\x03\x04", b"\x1f\x8b", b"BZh"] {
        assert_eq!(sniff(Some(""), data), sniff(None, data));
    }
}

// Whatever the bytes, every entry point returns.
#[test]
fn arbitrary_bytes_never_panic() {
    let magics: [&[u8]; 6] = [
        b"",
        b"\x1f\x8b\x08\x00",
        b"BZh9",
        b"PK\x03\x04",
        &[0x37, 0x7A, 0xBC, 0xAF, 0x27, 0x1C, 0, 4],
        b"PK\x05\x06",
    ];
    let names = [None, Some("x.tgz"), Some("x.tbz"), Some("x.zip"), Some("x.7z"), Some("x.tar")];
    let mut seed = 0x2545_F491_4F6C_DD1D_u64;
    let mut next = move || {
        seed ^= seed << 13;
        seed ^= seed >> 7;
        seed ^= seed << 17;
        seed
    };
    let limits = Limits {
        max_depth: 4,
        max_total_inflated: 1 << 20,
        max_entries: 100,
        ..Limits::default()
    };
    for round in 0..600 {
        let mut data = magics[round % magics.len()].to_vec();
        let len = (next() % 400) as usize;
        for _ in 0..len {
            data.push(next() as u8);
        }
        let name = names[(round / magics.len()) % names.len()];
        let _ = peel_bytes(&data, name);
        let _ = resolve(&data, name, &limits);
        let _ = detect(&data);
        if let Ok(Some(mut archive)) = Archive::open(&data, name) {
            for i in 0..archive.entries().len() {
                let _ = archive.read(i);
            }
        }
    }
}

// So does it on archives with one byte changed.
#[test]
fn damaged_archives_never_panic() {
    let whole = [
        NESTED_TBZ_ZIP.to_vec(),
        PAYLOAD_ZIP.to_vec(),
        payload_7z(),
        gzip(&payload_tar()),
    ];
    for data in whole {
        for at in 0..data.len() {
            let mut damaged = data.clone();
            damaged[at] ^= 0x55;
            let _ = resolve(&damaged, Some("x"), &Limits::default());
        }
    }
}

#[test]
fn wider_limits_keep_a_success() {
    let tight = Limits {
        max_depth: 2,
        max_total_inflated: 4096,
        max_entries: 4,
        ..Limits::default()
    };
    let data = gzip(&gzip(b"payload"));
    let nodes = resolve(&data, Some("x.dd.gz.gz"), &tight).unwrap();
    assert_eq!(files(&nodes), vec![("x.dd".to_string(), b"payload".to_vec())]);
    for wide in [
        Limits { max_depth: 9, ..tight },
        Limits { max_total_inflated: u64::MAX, ..tight },
        Limits { max_entries: usize::MAX, ..tight },
        Limits::default(),
    ] {
        assert_eq!(resolve(&data, Some("x.dd.gz.gz"), &wide).unwrap(), nodes);
    }
}

#[test]
fn a_stopped_resolution_keeps_what_it_had() {
    let zip = stored_zip(&[("first.txt", b"one"), ("second.gz", b"\x1f\x8b broken"), ("c", b"")]);
    let mut budget = Budget {
        total_inflated: 10,
        entries: 1,
    };
    let mut out = Vec::new();
    let limits = Limits::default();
    assert!(matches!(
        resolve_into(&zip, None, &limits, 0, "in", &mut budget, &mut out),
        Err(ArchiveError::Decode { .. })
    ));
    assert_eq!(files(&out), vec![("first.txt".to_string(), b"one".to_vec())]);
    assert_eq!(budget.entries, 3);
    assert_eq!(budget.total_inflated, 10 + 3 + 9);
    // Past the depth limit nothing is touched.
    assert!(matches!(
        resolve_into(&zip, None, &limits, 9, "in", &mut budget, &mut out),
        Err(ArchiveError::DepthExceeded { max: 8, .. })
    ));
    assert_eq!((budget.entries, budget.total_inflated, out.len()), (3, 22, 1));
    // A tripped guard has counted what tripped it.
    let tight = Limits {
        max_entries: 3,
        ..limits
    };
    assert!(matches!(
        resolve_into(&zip, None, &tight, 0, "in", &mut budget, &mut out),
        Err(ArchiveError::TooManyEntries { max: 3 })
    ));
    assert_eq!((budget.entries, budget.total_inflated, out.len()), (4, 22, 1));
}
