//! Format determination.

use archive_core::{sniff, Format};

fn tar_head() -> Vec<u8> {
    let mut head = vec![0u8; 512];
    head[257..262].copy_from_slice(b"ustar");
    head
}

#[test]
fn formats_are_wrappers_archives_or_unknown() {
    for f in [Format::Gzip, Format::Bzip2] {
        assert!(f.is_compression_wrapper());
        assert!(!f.is_archive());
    }
    for f in [
        Format::Tar,
        Format::TarGz,
        Format::TarBz2,
        Format::Zip,
        Format::SevenZip,
    ] {
        assert!(f.is_archive());
        assert!(!f.is_compression_wrapper());
    }
    assert!(!Format::Unknown.is_archive());
    assert!(!Format::Unknown.is_compression_wrapper());
}

#[test]
fn containers_are_known_by_magic_under_any_name() {
    for name in [None, Some("x.gz"), Some("x.tbz"), Some("x.7z"), Some("x")] {
        assert_eq!(sniff(name, b"PK\x03\x04"), Format::Zip);
        assert_eq!(
            sniff(name, &[0x37, 0x7A, 0xBC, 0xAF, 0x27, 0x1C]),
            Format::SevenZip
        );
        assert_eq!(sniff(name, &tar_head()), Format::Tar);
    }
    // One byte short of the tar signature.
    assert_eq!(sniff(None, &tar_head()[..261]), Format::Unknown);
    assert_eq!(sniff(None, &tar_head()[..262]), Format::Tar);
}

#[test]
fn the_name_tells_a_compressed_tar_from_a_bare_stream() {
    let gz = [0x1F, 0x8B, 8];
    for name in ["a.tgz", "a.tar.gz", "A.TGZ", "A.Tar.Gz"] {
        assert_eq!(sniff(Some(name), &gz), Format::TarGz);
    }
    for name in ["a.gz", "a.raw", "a", ""] {
        assert_eq!(sniff(Some(name), &gz), Format::Gzip);
    }
    for name in ["a.tbz2", "a.tar.bz2", "a.tbz", "a.tb2", "A.TBZ"] {
        assert_eq!(sniff(Some(name), b"BZh9"), Format::TarBz2);
    }
    for name in ["a.bz2", "a.tgz", "a"] {
        assert_eq!(sniff(Some(name), b"BZh9"), Format::Bzip2);
    }
    assert_eq!(sniff(None, &gz), Format::Gzip);
    assert_eq!(sniff(None, b"BZh"), Format::Bzip2);
}

#[test]
fn a_silent_magic_leaves_it_to_the_name() {
    let cases = [
        ("a.7z", Format::SevenZip),
        ("a.zip", Format::Zip),
        ("a.clbx", Format::Zip),
        ("a.tgz", Format::TarGz),
        ("a.tar.gz", Format::TarGz),
        ("a.tbz2", Format::TarBz2),
        ("a.tar.bz2", Format::TarBz2),
        ("a.tbz", Format::TarBz2),
        ("a.tb2", Format::TarBz2),
        ("a.tar", Format::Tar),
        ("a.gz", Format::Gzip),
        ("a.bz2", Format::Bzip2),
        ("a.xz", Format::Unknown),
        ("a.raw", Format::Unknown),
        ("zip", Format::Unknown),
        ("é.ZIP", Format::Zip),
    ];
    for (name, format) in cases {
        assert_eq!(sniff(Some(name), b"plain"), format, "{name}");
    }
    assert_eq!(sniff(None, b"plain"), Format::Unknown);
    assert_eq!(sniff(None, b""), Format::Unknown);
}
