//! Archives whose declared sizes or offsets would run past 64 bits.

use archive_core::archive::extract_tar_member_streaming;
use archive_core::guard::{zip_archive_fits, SECTION_MAX, SEQUENCES_MAX};
use archive_core::inflate::deflate64_stream_fits;
use archive_core::tape::{check_tar, STEP};
use archive_core::{Archive, ArchiveError, Format};
use std::io::Write;

const VAST_TBZ2: [u8; 116] = [
    0x42, 0x5a, 0x68, 0x39, 0x31, 0x41, 0x59, 0x26, 0x53, 0x59, 0x50, 0x01, 0x22, 0x10, 0x00, 0x00,
    0x33, 0xfb, 0xc2, 0xf8, 0x80, 0x04, 0x00, 0x40, 0x01, 0x6f, 0x00, 0x09, 0x00, 0x72, 0x21, 0x5e,
    0x00, 0x40, 0x00, 0x01, 0x00, 0x00, 0x0c, 0xa0, 0x00, 0x54, 0x35, 0x46, 0x99, 0x1a, 0x61, 0x0d,
    0x06, 0xd2, 0x0f, 0x14, 0x12, 0x92, 0x6c, 0xa0, 0xd0, 0x34, 0x00, 0x34, 0xd1, 0xee, 0xf1, 0xb1,
    0xe8, 0x56, 0xc2, 0x12, 0x70, 0x26, 0x24, 0x26, 0xd8, 0x30, 0xae, 0x02, 0x7f, 0x28, 0x3e, 0x12,
    0xa3, 0xb5, 0x44, 0x4e, 0x1e, 0x45, 0xc6, 0x15, 0xe8, 0x68, 0x45, 0x8c, 0x6f, 0x08, 0x7d, 0xa1,
    0xa3, 0x10, 0x6e, 0x6a, 0xd5, 0x88, 0x01, 0x4a, 0xe6, 0x7e, 0x2e, 0xe4, 0x8a, 0x70, 0xa1, 0x20,
    0xa0, 0x02, 0x44, 0x20,
];
const PAYLOAD_XZ: [u8; 88] = [
    0xfd, 0x37, 0x7a, 0x58, 0x5a, 0x00, 0x00, 0x04, 0xe6, 0xd6, 0xb4, 0x46, 0x02, 0x00, 0x21, 0x01,
    0x16, 0x00, 0x00, 0x00, 0x74, 0x2f, 0xe5, 0xa3, 0xe0, 0x02, 0x2f, 0x00, 0x17, 0x5d, 0x00, 0x30,
    0x9c, 0x88, 0x8a, 0x1c, 0x41, 0x80, 0xa9, 0x79, 0x16, 0xce, 0x7d, 0xfb, 0x45, 0x36, 0x48, 0x86,
    0x94, 0x69, 0x24, 0x5a, 0x00, 0x00, 0x00, 0x00, 0x75, 0x56, 0xb3, 0x80, 0x66, 0x3c, 0x01, 0x72,
    0x00, 0x01, 0x33, 0xb0, 0x04, 0x00, 0x00, 0x00, 0x9d, 0x3e, 0x1e, 0xde, 0xb1, 0xc4, 0x67, 0xfb,
    0x02, 0x00, 0x00, 0x00, 0x00, 0x04, 0x59, 0x5a,
];
const PAYLOAD_TBZ2: [u8; 206] = [
    0x42, 0x5a, 0x68, 0x39, 0x31, 0x41, 0x59, 0x26, 0x53, 0x59, 0xba, 0x2e, 0x93, 0x27, 0x00, 0x00,
    0xab, 0xdb, 0xe3, 0xcb, 0x90, 0x40, 0x01, 0xf7, 0x80, 0x00, 0x88, 0x7f, 0xe7, 0xde, 0x40, 0x40,
    0x00, 0x04, 0x00, 0x00, 0x40, 0x10, 0x80, 0x08, 0x08, 0x30, 0x00, 0xb9, 0x03, 0x22, 0x4c, 0x14,
    0x68, 0x34, 0x03, 0x4f, 0x50, 0xd3, 0x41, 0xea, 0x7a, 0x9a, 0x7a, 0x86, 0x1a, 0x19, 0x0d, 0x32,
    0x68, 0x06, 0x21, 0xa6, 0x9a, 0x34, 0x34, 0x60, 0xda, 0x55, 0x3f, 0x4a, 0x0f, 0x50, 0x1a, 0x00,
    0x6d, 0x20, 0x1a, 0x00, 0x7e, 0xb4, 0xc4, 0x5c, 0x4c, 0x78, 0x13, 0x48, 0x1c, 0x84, 0x81, 0x65,
    0xaa, 0xae, 0xc4, 0x13, 0x44, 0xa5, 0x18, 0xc9, 0x97, 0xc1, 0x09, 0x89, 0x36, 0x57, 0x6c, 0xe4,
    0x35, 0x45, 0xbc, 0xf5, 0x76, 0xc8, 0xb1, 0x6a, 0x30, 0xa1, 0x29, 0x8d, 0x01, 0x5d, 0x14, 0x01,
    0x06, 0x6a, 0x6c, 0x6e, 0x5b, 0x0a, 0x6d, 0x2c, 0x95, 0x8d, 0x68, 0x81, 0x80, 0x78, 0x45, 0x07,
    0x0b, 0xfc, 0x4a, 0xb8, 0xd8, 0x6b, 0x47, 0x16, 0xe3, 0xd3, 0x78, 0x9a, 0xce, 0x59, 0xa0, 0x50,
    0x5e, 0x5c, 0x8f, 0x8d, 0x27, 0xf3, 0xac, 0x6d, 0x2f, 0x2c, 0xa2, 0xa0, 0x60, 0xc0, 0xe9, 0x69,
    0x61, 0xd0, 0x1d, 0xac, 0xb3, 0xf6, 0x45, 0x6e, 0x02, 0xe0, 0x3e, 0x95, 0xc8, 0xc4, 0xd6, 0xb2,
    0xb5, 0x00, 0x20, 0x7f, 0x17, 0x72, 0x45, 0x38, 0x50, 0x90, 0xba, 0x2e, 0x93, 0x27,
];
const DEFLATE64_TEXT: [u8; 39] = [
    0x2b, 0xc9, 0x48, 0x55, 0x48, 0x2c, 0x4a, 0xce, 0xc8, 0x2c, 0x4b, 0x55, 0xc8, 0x49, 0xac, 0x4c,
    0x2d, 0x52, 0xc8, 0x2f, 0x03, 0x12, 0x25, 0xb8, 0x85, 0x53, 0xcb, 0x32, 0x53, 0x52, 0xf3, 0x92,
    0x53, 0xb9, 0x4a, 0x06, 0x44, 0x2b, 0x00,
];
const DEFLATE64_MATCH: [u8; 24] = [
    0xed, 0xe4, 0xb1, 0x0d, 0x00, 0x00, 0x00, 0xc0, 0xb0, 0xd5, 0xc6, 0xfe, 0x9b, 0x52, 0x23, 0x4e,
    0x0c, 0x30, 0x00, 0x48, 0x00, 0x00, 0x00, 0x08,
];
fn gzip(data: &[u8]) -> Vec<u8> {
    let mut e = flate2::write::GzEncoder::new(Vec::new(), flate2::Compression::default());
    e.write_all(data).unwrap();
    e.finish().unwrap()
}
/// A ZIP whose members are each stored uncompressed, in the given order. Each
/// member's checksum is its own, changed by `spoil`.
fn stored_zip_with(members: &[(&str, &[u8])], spoil: u32) -> Vec<u8> {
    let mut z: Vec<u8> = Vec::new();
    let mut central: Vec<u8> = Vec::new();
    let mut count = 0u16;
    for (name, payload) in members {
        let nb = name.as_bytes();
        let mut crc = flate2::Crc::new();
        crc.update(payload);
        let crc = crc.sum() ^ spoil;
        let lho = z.len() as u32;
        let (sz, nlen) = (payload.len() as u32, nb.len() as u16);
        // Local file header.
        z.extend_from_slice(&0x0403_4b50u32.to_le_bytes());
        z.extend_from_slice(&20u16.to_le_bytes()); // version needed
        z.extend_from_slice(&0u16.to_le_bytes()); // flags
        z.extend_from_slice(&0u16.to_le_bytes()); // method: stored
        z.extend_from_slice(&0u16.to_le_bytes()); // mod time
        z.extend_from_slice(&0u16.to_le_bytes()); // mod date
        z.extend_from_slice(&crc.to_le_bytes());
        z.extend_from_slice(&sz.to_le_bytes()); // compressed size
        z.extend_from_slice(&sz.to_le_bytes()); // uncompressed size
        z.extend_from_slice(&nlen.to_le_bytes());
        z.extend_from_slice(&0u16.to_le_bytes()); // extra len
        z.extend_from_slice(nb);
        z.extend_from_slice(payload);
        // Central directory header.
        central.extend_from_slice(&0x0201_4b50u32.to_le_bytes());
        central.extend_from_slice(&20u16.to_le_bytes()); // version made by
        central.extend_from_slice(&20u16.to_le_bytes()); // version needed
        central.extend_from_slice(&0u16.to_le_bytes()); // flags
        central.extend_from_slice(&0u16.to_le_bytes()); // method
        central.extend_from_slice(&0u16.to_le_bytes()); // mod time
        central.extend_from_slice(&0u16.to_le_bytes()); // mod date
        central.extend_from_slice(&crc.to_le_bytes());
        central.extend_from_slice(&sz.to_le_bytes());
        central.extend_from_slice(&sz.to_le_bytes());
        central.extend_from_slice(&nlen.to_le_bytes());
        central.extend_from_slice(&0u16.to_le_bytes()); // extra len
        central.extend_from_slice(&0u16.to_le_bytes()); // comment len
        central.extend_from_slice(&0u16.to_le_bytes()); // disk number start
        central.extend_from_slice(&0u16.to_le_bytes()); // internal attrs
        central.extend_from_slice(&0u32.to_le_bytes()); // outer attrs
        central.extend_from_slice(&lho.to_le_bytes()); // local header offset
        central.extend_from_slice(nb);
        count += 1;
    }
    let cd_offset = z.len() as u32;
    let cd_size = central.len() as u32;
    z.extend_from_slice(&central);
    // End of central directory.
    z.extend_from_slice(&0x0605_4b50u32.to_le_bytes());
    z.extend_from_slice(&0u16.to_le_bytes()); // disk num
    z.extend_from_slice(&0u16.to_le_bytes()); // disk with cd
    z.extend_from_slice(&count.to_le_bytes()); // entries this disk
    z.extend_from_slice(&count.to_le_bytes()); // total entries
    z.extend_from_slice(&cd_size.to_le_bytes());
    z.extend_from_slice(&cd_offset.to_le_bytes());
    z.extend_from_slice(&0u16.to_le_bytes()); // comment len
    z
}

fn stored_zip(members: &[(&str, &[u8])]) -> Vec<u8> {
    stored_zip_with(members, 0)
}
/// The header of a sparse entry with an extension block behind it.
fn sparse_header(size: u64, real: u64, blocks: &[(u64, u64)]) -> Vec<u8> {
    let mut h = tar::Header::new_gnu();
    h.set_path("sparse.bin").unwrap();
    h.set_mode(0o644);
    h.set_size(size);
    h.set_entry_type(tar::EntryType::GNUSparse);
    let gnu = h.as_gnu_mut().unwrap();
    gnu.set_is_extended(true);
    gnu.set_real_size(real);
    for (slot, (offset, len)) in gnu.sparse.iter_mut().zip(blocks) {
        slot.set_offset(*offset);
        slot.set_length(*len);
    }
    h.set_cksum();
    h.as_bytes().to_vec()
}

/// A tar of one honest sparse entry: five blocks of data, five holes but one.
fn honest_sparse() -> Vec<u8> {
    let mut s = sparse_header(2560, 4608, &[(0, 512), (1024, 512), (2048, 512), (3072, 512)]);
    let mut ext = tar::GnuExtSparseHeader::new();
    ext.sparse[0].set_offset(4096);
    ext.sparse[0].set_length(512);
    s.extend_from_slice(ext.as_bytes());
    for b in 1..6u8 {
        s.extend_from_slice(&[b; 512]);
    }
    s.extend_from_slice(&[0; 1024]);
    s
}

/// A tar whose one sparse entry declares nearly all of 64 bits.
fn vast_sparse() -> Vec<u8> {
    let mut s = sparse_header(u64::MAX - 1023, 0, &[]);
    s.extend_from_slice(&[0; 1536]);
    s
}

/// A tar with an extended header that gives the sparse entry behind it a size.
fn sized_sparse(size: &str) -> Vec<u8> {
    let body = format!("size={size}\n");
    let mut len = body.len() + 2;
    while format!("{len} {body}").len() != len {
        len += 1;
    }
    let record = format!("{len} {body}");
    let mut h = tar::Header::new_ustar();
    h.set_path("pax").unwrap();
    h.set_mode(0o644);
    h.set_size(record.len() as u64);
    h.set_entry_type(tar::EntryType::XHeader);
    h.set_cksum();
    let mut s = h.as_bytes().to_vec();
    s.extend_from_slice(record.as_bytes());
    s.resize(1024, 0);
    s.extend_from_slice(&sparse_header(0, 0, &[]));
    s.extend_from_slice(&[0; 1536]);
    s
}

fn refusal() -> Result<(), String> {
    Err("tar entry runs past 64 bits".to_owned())
}

fn assert_refused(data: &[u8], format: Format) {
    match Archive::open_with_format(format, data) {
        Err(ArchiveError::Open { format, detail }) => {
            assert_eq!(format, "tar");
            assert_eq!(detail, "tar entry runs past 64 bits");
        }
        Err(e) => panic!("expected an Open error, got {e:?}"),
        Ok(_) => panic!("expected an Open error, got Ok"),
    }
    assert!(matches!(
        extract_tar_member_streaming(data, format, 0, 100),
        Err(ArchiveError::Read { format: "tar", .. })
    ));
}

#[test]
fn an_honest_sparse_entry_is_listed_and_read() {
    let tar = honest_sparse();
    assert_eq!(check_tar(&tar, Format::Tar), Ok(()));
    for (data, format) in [(tar.clone(), Format::Tar), (gzip(&tar), Format::TarGz)] {
        let mut a = Archive::open_with_format(format, &data).unwrap().unwrap();
        assert_eq!(a.entries().len(), 1);
        assert_eq!(a.entries()[0].size, 4608);
        let content = a.read(0).unwrap();
        assert_eq!(content.len(), 4608);
        for b in 1..6usize {
            let at = (b - 1) * 1024;
            assert!(content[at..at + 512].iter().all(|x| *x == b as u8));
        }
        assert!(content[512..1024].iter().all(|x| *x == 0));
    }
}

#[test]
fn a_vast_sparse_entry_is_refused_in_every_form() {
    let tar = vast_sparse();
    assert_eq!(check_tar(&tar, Format::Tar), refusal());
    assert_refused(&tar, Format::Tar);
    assert_refused(&gzip(&tar), Format::TarGz);
    assert_refused(&VAST_TBZ2, Format::TarBz2);
    // Away from a block boundary it is no header.
    let mut moved = vec![1u8; 100];
    moved.extend_from_slice(&tar);
    assert_eq!(check_tar(&moved, Format::Tar), Ok(()));
    // Behind other blocks it is.
    let mut behind = vec![1u8; 3 * 512];
    behind.extend_from_slice(&tar);
    assert_eq!(check_tar(&behind, Format::Tar), refusal());
}

#[test]
fn a_vast_size_record_before_a_sparse_entry_is_refused() {
    assert_refused(&sized_sparse("18446744073709550592"), Format::Tar);
    assert_refused(&sized_sparse("+18446744073709550592"), Format::Tar);
    assert_refused(&gzip(&sized_sparse("18446744073709550592")), Format::TarGz);
    assert_eq!(check_tar(&sized_sparse("123456789012345678"), Format::Tar), Ok(()));
    // Without a sparse entry the record is the reader's to refuse.
    let record = b"size=18446744073709550592".to_vec();
    assert_eq!(check_tar(&record, Format::Tar), Ok(()));
}

/// A tar of the given members, with a size for each header.
fn tar_of(members: &[(&str, &[u8])]) -> Vec<u8> {
    let mut b = tar::Builder::new(Vec::new());
    for (name, data) in members {
        let mut h = tar::Header::new_gnu();
        h.set_size(data.len() as u64);
        h.set_mode(0o644);
        h.set_cksum();
        b.append_data(&mut h, name, *data).unwrap();
    }
    b.into_inner().unwrap()
}

#[test]
fn what_stands_behind_the_end_of_a_tar_is_not_looked_at() {
    let tar = tar_of(&[("a", b"first"), ("b", &[7u8; 2000])]);
    // A vast sparse entry behind the end is none of the tar's.
    let mut behind = tar.clone();
    behind.extend_from_slice(&vast_sparse());
    for data in [behind.clone(), tar.clone()] {
        assert_eq!(check_tar(&data, Format::Tar), Ok(()));
        let mut a = Archive::open(&data, Some("x.tar")).unwrap().unwrap();
        assert_eq!(a.entries().len(), 2);
        assert_eq!(a.read(1).unwrap(), vec![7u8; 2000]);
    }
    // Nor is a broken checksum at the end of the outer stream.
    let mut broken = gzip(&tar);
    let last = broken.len() - 6;
    broken[last] ^= 0x55;
    let mut a = Archive::open(&broken, Some("x.tgz")).unwrap().unwrap();
    assert_eq!(a.format(), Format::TarGz);
    assert_eq!(a.entries().len(), 2);
    assert_eq!(a.read(0).unwrap(), b"first");
    assert_eq!(a.read(1).unwrap(), vec![7u8; 2000]);
    // A stream that ends inside the tar is an error.
    let mut cut = gzip(&tar);
    cut.truncate(cut.len() / 2);
    assert!(matches!(
        Archive::open(&cut, Some("x.tgz")),
        Err(ArchiveError::Open { format: "tar", .. })
    ));
}

#[test]
fn a_sparse_header_inside_a_member_is_content() {
    let vast = vast_sparse();
    let mut record = b"size=18446744073709550592".to_vec();
    record.extend_from_slice(&vast[..512]);
    let tar = tar_of(&[("inner.tar", &vast), ("record", &record), ("z", b"last")]);
    for (data, name) in [(tar.clone(), "x.tar"), (gzip(&tar), "x.tgz")] {
        let mut a = Archive::open(&data, Some(name)).unwrap().unwrap();
        assert_eq!(a.entries().len(), 3);
        assert_eq!(a.read(0).unwrap(), vast);
        assert_eq!(a.read(2).unwrap(), b"last");
    }
    // The same entry behind them is one of the tar's own.
    let mut own = tar[..tar.len() - 1024].to_vec();
    own.extend_from_slice(&vast);
    assert_refused(&own, Format::Tar);
    assert_refused(&gzip(&own), Format::TarGz);
}

#[test]
fn sizes_are_read_in_every_form_of_a_header() {
    // A size in binary, in octal digits with a space behind them, and in a form that
    // only a look at the whole stream settles.
    for field in [
        &b"\x80\0\0\0\0\0\0\0\0\0\x02\x02"[..],
        &b"00000001002 "[..],
        &b"000000001002"[..],
        &b"       1002\0"[..],
    ] {
        let mut tar = tar_of(&[("a", &[9u8; 514]), ("b", b"second")]);
        tar[124..136].copy_from_slice(field);
        tar[148..156].copy_from_slice(b"        ");
        let sum: u32 = tar[..512].iter().map(|b| *b as u32).sum();
        tar[148..156].copy_from_slice(format!("{sum:06o}\0 ").as_bytes());
        for (data, name) in [(tar.clone(), "x.tar"), (gzip(&tar), "x.tgz")] {
            let mut a = Archive::open(&data, Some(name)).unwrap().unwrap();
            assert_eq!(a.entries()[0].size, 514);
            assert_eq!(a.read(0).unwrap(), vec![9u8; 514]);
            assert_eq!(a.read(1).unwrap(), b"second");
        }
    }
}

#[test]
fn a_compressed_tar_is_looked_through_step_by_step() {
    let step = STEP as usize;
    // The record lies across the end of the first step, the header in the last one.
    for shift in 0..26 {
        let mut s = vec![b'x'; 3 * step];
        let record = b"size=18446744073709550592";
        let at = step - shift;
        s[at..at + record.len()].copy_from_slice(record);
        assert_eq!(check_tar(&gzip(&s), Format::TarGz), Ok(()));
        let header = sparse_header(0, 0, &[]);
        let last = s.len() - 512;
        s[last..].copy_from_slice(&header);
        assert_eq!(check_tar(&gzip(&s), Format::TarGz), refusal(), "shift {shift}");
        assert_eq!(check_tar(&s, Format::Tar), refusal());
    }
    for len in [0, 1, step - 1, step, step + 1, 2 * step] {
        assert_eq!(check_tar(&gzip(&vec![7u8; len]), Format::TarGz), Ok(()));
    }
    assert_eq!(check_tar(&PAYLOAD_TBZ2, Format::TarBz2), Ok(()));
    assert_eq!(check_tar(&VAST_TBZ2, Format::TarBz2), refusal());
    assert!(check_tar(b"no gzip", Format::TarGz).is_err());
    assert!(check_tar(b"BZh9 no bzip2", Format::TarBz2).is_err());
}

/// A ZIP of one stored member whose directory header keeps its offset in a 64-bit
/// extra field, behind `stub`.
fn offset64_zip(stub: &[u8], offset: u64) -> Vec<u8> {
    let plain = stored_zip(&[("m.bin", b"content")]);
    let local = 30 + 5 + 7;
    let mut central = plain[local..local + 46 + 5].to_vec();
    central[30..32].copy_from_slice(&12u16.to_le_bytes());
    central[42..46].copy_from_slice(&[0xFF; 4]);
    central.extend_from_slice(&[1, 0, 8, 0]);
    central.extend_from_slice(&offset.to_le_bytes());
    let mut end = plain[plain.len() - 22..].to_vec();
    end[12..16].copy_from_slice(&(central.len() as u32).to_le_bytes());
    let mut z = stub.to_vec();
    z.extend_from_slice(&plain[..local]);
    z.extend_from_slice(&central);
    z.extend_from_slice(&end);
    z
}

#[test]
fn a_prepended_zip_reads_as_the_bare_one() {
    let bare = stored_zip(&[("a", b"first"), ("b", b"second")]);
    let mut stubbed = b"MZ a stub in front of it".to_vec();
    stubbed.extend_from_slice(&bare);
    assert!(zip_archive_fits(&bare));
    assert!(zip_archive_fits(&stubbed));
    let mut a = Archive::open(&stubbed, Some("setup.zip")).unwrap().unwrap();
    assert_eq!(a.entries().len(), 2);
    assert_eq!(a.read(1).unwrap(), b"second");
    for stub in [&b""[..], &b"MZ a stub"[..]] {
        let z = offset64_zip(stub, 0);
        assert!(zip_archive_fits(&z));
        let mut a = Archive::open(&z, Some("setup.zip")).unwrap().unwrap();
        assert_eq!(a.read(0).unwrap(), b"content");
    }
}

#[test]
fn a_prepended_zip_with_a_vast_offset_is_refused() {
    let z = offset64_zip(b"MZ a stub", u64::MAX - 8);
    assert!(!zip_archive_fits(&z));
    match Archive::open(&z, Some("setup.zip")) {
        Err(ArchiveError::Open { format, detail }) => {
            assert_eq!(format, "zip");
            assert_eq!(detail, "zip member runs past its reader");
        }
        Err(e) => panic!("expected an Open error, got {e:?}"),
        Ok(_) => panic!("expected an Open error, got Ok"),
    }
    // One less, and the sum still fits.
    assert!(zip_archive_fits(&offset64_zip(b"MZ a stub", u64::MAX - 9)));
    // With nothing in front there is no sum: the reader finds no member there.
    let bare = offset64_zip(b"", u64::MAX);
    assert!(zip_archive_fits(&bare));
    assert!(matches!(
        Archive::open(&bare, Some("setup.zip")),
        Err(ArchiveError::Open { format: "zip", .. })
    ));
}

#[test]
fn short_and_unended_bytes_fit() {
    for len in [0usize, 3, 21, 22, 23, 70_000] {
        assert!(zip_archive_fits(&vec![0u8; len]));
        assert!(zip_archive_fits(&vec![0xFFu8; len]));
    }
}

/// A ZIP of one member of `content`, held as `raw` under the method number `method`.
fn zip_of(method: u16, raw: &[u8], content: &[u8]) -> Vec<u8> {
    let mut z = stored_zip(&[("m.bin", raw)]);
    let mut crc = flate2::Crc::new();
    crc.update(content);
    let central = z.len() - 22 - 46 - 5;
    for (crc_at, method_at, size_at) in [(14, 8, 22), (central + 16, central + 10, central + 24)] {
        z[crc_at..crc_at + 4].copy_from_slice(&crc.sum().to_le_bytes());
        z[method_at..method_at + 2].copy_from_slice(&method.to_le_bytes());
        z[size_at..size_at + 4].copy_from_slice(&(content.len() as u32).to_le_bytes());
    }
    z
}

fn assert_zip_refused(z: &[u8]) {
    assert!(!zip_archive_fits(z));
    match Archive::open(z, Some("x.zip")) {
        Err(ArchiveError::Open { format, detail }) => {
            assert_eq!(format, "zip");
            assert_eq!(detail, "zip member runs past its reader");
        }
        Err(e) => panic!("expected an Open error, got {e:?}"),
        Ok(_) => panic!("expected an Open error, got Ok"),
    }
}

#[test]
fn an_xz_member_is_read_and_one_with_an_overlong_index_refused() {
    let content = b"archive layer\n".repeat(40);
    let z = zip_of(95, &PAYLOAD_XZ, &content);
    assert!(zip_archive_fits(&z));
    let mut a = Archive::open(&z, Some("x.zip")).unwrap().unwrap();
    assert_eq!(a.read(0).unwrap(), content);
    // The index size stands eight bytes before the end of the stream.
    let mut raw = PAYLOAD_XZ.to_vec();
    let at = raw.len() - 8;
    raw[at..at + 4].copy_from_slice(&[0xFF; 4]);
    assert_zip_refused(&zip_of(95, &raw, &content));
    // The same bytes under another method are nothing to the decoder.
    assert!(zip_archive_fits(&zip_of(0, &raw, &raw)));
    // A word of ones behind the member is none of its own.
    let mut two = stored_zip(&[("a", &PAYLOAD_XZ), ("b", &[0xFF; 64])]);
    let first = two.len() - 22 - 2 * 47;
    two[first + 10..first + 12].copy_from_slice(&95u16.to_le_bytes());
    assert!(zip_archive_fits(&two));
}

/// A Zstandard frame of one block of the given kind.
fn zstd_frame(content_len: u8, kind: u32, body: &[u8]) -> Vec<u8> {
    let mut f = vec![0x28, 0xB5, 0x2F, 0xFD, 0x20, content_len];
    let word = 1 | (kind << 1) | ((body.len() as u32) << 3);
    f.extend_from_slice(&word.to_le_bytes()[..3]);
    f.extend_from_slice(body);
    f
}

#[test]
fn a_zstd_member_is_read_and_one_with_too_many_sequences_refused() {
    let content = b"kept as it is";
    let z = zip_of(93, &zstd_frame(13, 0, content), content);
    assert!(zip_archive_fits(&z));
    let mut a = Archive::open(&z, Some("x.zip")).unwrap().unwrap();
    assert_eq!(a.read(0).unwrap(), content);
    // No literals, then the number of sequences in its widest form.
    let body = |n: u32, section: usize| {
        let low = ((n - 0x7F00) as u16).to_le_bytes();
        let mut b = vec![0x00, 0xFF, low[0], low[1]];
        b.resize(1 + section, 0x01);
        b
    };
    for (n, section, fits) in [
        (SEQUENCES_MAX + 1, SECTION_MAX + 1, false),
        (SEQUENCES_MAX, SECTION_MAX + 1, true),
        (SEQUENCES_MAX + 1, SECTION_MAX, true),
        (SEQUENCES_MAX + 1, 5, true),
    ] {
        let z = zip_of(93, &zstd_frame(13, 2, &body(n, section)), content);
        assert_eq!(zip_archive_fits(&z), fits, "{n} {section}");
        if !fits {
            assert_zip_refused(&z);
        }
    }
    // Each form of the literals header is stepped over.
    for (head, literals) in [
        (vec![0x10], 2usize),
        (vec![0x24, 0x00], 2),
        (vec![0x2C, 0x00, 0x00], 2),
        (vec![0x29], 0),
        (vec![0x02, 0x80, 0x00], 2),
        (vec![0x0A, 0x00, 0x08, 0x00], 2),
        (vec![0x0E, 0x00, 0x80, 0x00, 0x00], 2),
    ] {
        let mut b = head.clone();
        if head == vec![0x29] {
            b.push(7);
        }
        b.extend_from_slice(&vec![0x11; literals]);
        b.extend_from_slice(&[0xFF, 0xFF, 0xFF]);
        b.resize(b.len() + SECTION_MAX, 0x01);
        assert!(!zip_archive_fits(&zip_of(93, &zstd_frame(13, 2, &b), content)), "{head:?}");
    }
}

#[test]
fn a_deflate64_member_is_read_and_one_whose_loads_run_short_refused() {
    let text = b"the archive layer over the archive layer over the evidence\n".repeat(3);
    let z = zip_of(9, &DEFLATE64_TEXT, &text);
    let mut a = Archive::open(&z, Some("x.zip")).unwrap().unwrap();
    assert_eq!(a.read(0).unwrap(), text);
    // A match with sixteen extra length bits and long codes, near the end of the data
    // as far as the bytes behind it let it be.
    let content = vec![b'A'; 20];
    for behind in 0..8usize {
        let mut raw = DEFLATE64_MATCH.to_vec();
        raw.resize(raw.len() + behind, 0x78);
        let fits = deflate64_stream_fits(&raw, 0, raw.len());
        assert_eq!(fits, behind != 2, "{behind}");
        let z = zip_of(9, &raw, &content);
        assert!(zip_archive_fits(&z));
        let mut a = Archive::open(&z, Some("x.zip")).unwrap().unwrap();
        let mut sink = vec![1u8];
        if fits {
            assert_eq!(a.read(0).unwrap(), content);
            assert_eq!(a.stream_member(0, &mut sink, 100).unwrap(), 20);
            assert_eq!(sink[1..], content[..]);
        } else {
            match a.read(0) {
                Err(ArchiveError::Read { format, detail }) => {
                    assert_eq!(format, "zip");
                    assert_eq!(detail, "zip member runs past its reader");
                }
                other => panic!("expected a Read error, got {other:?}"),
            }
            assert!(matches!(
                a.stream_member(0, &mut sink, 100),
                Err(ArchiveError::Read { format: "zip", .. })
            ));
            assert_eq!(sink, [1]);
        }
    }
    // The same at the end of a chunk that a stored block leads up to.
    for before in 8150..8180u16 {
        let mut raw = vec![0x00];
        raw.extend_from_slice(&before.to_le_bytes());
        raw.extend_from_slice(&(!before).to_le_bytes());
        raw.resize(raw.len() + before as usize, 0x41);
        raw.extend_from_slice(&DEFLATE64_MATCH);
        let end = raw.len();
        raw.resize(end + 40, 0x78);
        let fits = deflate64_stream_fits(&raw, 0, raw.len());
        assert_eq!(fits, end != 8190, "{before}");
    }
    assert!(deflate64_stream_fits(&[], 0, 0));
    assert!(deflate64_stream_fits(&[0xFF; 9], 0, 9));
}

#[test]
fn a_long_deflate64_member_with_codes_of_its_own_is_read() {
    // Words over a small alphabet: many blocks, and no match so long that the two
    // forms of the codec part ways.
    let mut seed = 1u32;
    let content: Vec<u8> = (0..300_000)
        .map(|_| {
            seed = seed.wrapping_mul(1_664_525).wrapping_add(1_013_904_223);
            b"etaoinshrdlucmfw"[(seed >> 28) as usize & (seed >> 20) as usize]
        })
        .collect();
    let mut e = flate2::write::DeflateEncoder::new(Vec::new(), flate2::Compression::best());
    e.write_all(&content).unwrap();
    let raw = e.finish().unwrap();
    assert!(raw.len() > 2 * 8192);
    assert_eq!((raw[0] >> 1) & 3, 2, "the codes are the block's own");
    assert!(deflate64_stream_fits(&raw, 0, raw.len()));
    let z = zip_of(9, &raw, &content);
    let mut a = Archive::open(&z, Some("x.zip")).unwrap().unwrap();
    assert_eq!(a.read(0).unwrap(), content);
    // The blocks are followed to where they end: a match behind them is found.
    let mut e = flate2::write::DeflateEncoder::new(Vec::new(), flate2::Compression::best());
    e.write_all(&content[..50_000]).unwrap();
    e.flush().unwrap();
    let mut raw = e.get_ref().clone();
    raw.extend_from_slice(&DEFLATE64_MATCH);
    for behind in 0..8usize {
        let mut raw = raw.clone();
        raw.resize(raw.len() + behind, 0x78);
        assert_eq!(deflate64_stream_fits(&raw, 0, raw.len()), behind != 2, "{behind}");
    }
}

#[test]
fn a_refused_deflate64_member_leaves_the_others_readable() {
    let mut raw = DEFLATE64_MATCH.to_vec();
    raw.extend_from_slice(b"xx");
    let mut z = stored_zip(&[("a", &raw), ("b", b"still there")]);
    let first = z.len() - 22 - 2 * 47;
    for at in [8, first + 10] {
        z[at..at + 2].copy_from_slice(&9u16.to_le_bytes());
    }
    let mut a = Archive::open(&z, Some("x.zip")).unwrap().unwrap();
    assert!(matches!(a.read(0), Err(ArchiveError::Read { .. })));
    assert_eq!(a.read(1).unwrap(), b"still there");
}

#[test]
fn a_wide_directory_is_looked_through_too() {
    let mut body = vec![0, 0xFF, 0xFF, 0xFF];
    body.resize(2 + SECTION_MAX, 1);
    let z = zip_of(93, &zstd_frame(13, 2, &body), b"x");
    let end = z.len() - 22;
    let (size, offset) = (46 + 5u64, end as u64 - 46 - 5);
    let mut wide = z[..end].to_vec();
    let record = wide.len() as u64;
    wide.extend_from_slice(&0x0606_4b50u32.to_le_bytes());
    wide.extend_from_slice(&44u64.to_le_bytes());
    wide.extend_from_slice(&[45, 0, 45, 0, 0, 0, 0, 0, 0, 0, 0, 0]);
    for n in [1, 1, size, offset] {
        wide.extend_from_slice(&n.to_le_bytes());
    }
    wide.extend_from_slice(&0x0706_4b50u32.to_le_bytes());
    wide.extend_from_slice(&0u32.to_le_bytes());
    wide.extend_from_slice(&record.to_le_bytes());
    wide.extend_from_slice(&1u32.to_le_bytes());
    let mut tail = z[end..].to_vec();
    tail[16..20].copy_from_slice(&[0xFF; 4]);
    wide.extend_from_slice(&tail);
    assert_zip_refused(&wide);
    // The same with an honest member opens.
    let content = b"kept as it is";
    let honest = zip_of(0, content, content);
    assert!(zip_archive_fits(&honest));
}
