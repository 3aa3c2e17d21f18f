//! The seekable peel.

use archive_core::execute::{execute_member_access, offset_from, SeekOutOfRange};
use archive_core::{
    detect, peel_archive_seekable, Access, AccessPlan, Archive, ArchiveError, Format, Limits,
    PeelSource, PeeledSource, ReadSeek, SeekFrom, SubRange, TempBacked,
};
use std::io::Write;
use std::sync::Arc;

const PAYLOAD_BZ2: [u8; 151] = [
    0x42, 0x5a, 0x68, 0x39, 0x31, 0x41, 0x59, 0x26, 0x53, 0x59, 0xcb, 0xb5, 0x45, 0x00, 0x00, 0x00,
    0xc2, 0xd9, 0xe1, 0x00, 0x10, 0x40, 0x02, 0x10, 0x00, 0x3f, 0x6d, 0xff, 0xf0, 0x40, 0x00, 0x04,
    0x00, 0x10, 0x00, 0x30, 0x00, 0xd8, 0x05, 0x00, 0x00, 0x00, 0x00, 0x28, 0x00, 0x00, 0x00, 0x00,
    0x9a, 0xaa, 0xa7, 0xa4, 0x3c, 0xa3, 0xd0, 0xd4, 0x3c, 0xa1, 0xe9, 0x3d, 0x13, 0x78, 0x74, 0x86,
    0xb0, 0xf8, 0x87, 0xdc, 0x3a, 0x43, 0xda, 0x1d, 0xe1, 0xd6, 0x1c, 0xa1, 0xb4, 0x36, 0x86, 0x70,
    0xc2, 0x1c, 0xe8, 0x7b, 0xc3, 0x58, 0x69, 0x0d, 0x21, 0xac, 0x37, 0x87, 0x58, 0x73, 0x86, 0x50,
    0xc2, 0x1a, 0xc3, 0x78, 0x71, 0x0c, 0x61, 0xca, 0x1c, 0x43, 0x88, 0x76, 0x86, 0x30, 0xeb, 0x0e,
    0xd0, 0xd2, 0x19, 0xd0, 0xce, 0x1a, 0x43, 0xb4, 0x36, 0x87, 0x10, 0xf4, 0xa1, 0x84, 0x38, 0x87,
    0xe4, 0x32, 0x87, 0x95, 0x0c, 0x61, 0x8c, 0x3c, 0x43, 0xc4, 0x32, 0x87, 0xf8, 0xbb, 0x92, 0x29,
    0xc2, 0x84, 0x86, 0x5d, 0xaa, 0x28, 0x00,
];
const PAYLOAD_ZIP: [u8; 372] = [
    0x50, 0x4b, 0x03, 0x04, 0x14, 0x00, 0x00, 0x00, 0x08, 0x00, 0x00, 0x00, 0x21, 0x00, 0x92, 0xca,
    0xf4, 0x75, 0x18, 0x00, 0x00, 0x00, 0x16, 0x00, 0x00, 0x00, 0x05, 0x00, 0x00, 0x00, 0x61, 0x2e,
    0x74, 0x78, 0x74, 0x4b, 0xcc, 0x29, 0xc8, 0x48, 0x54, 0xc8, 0x4d, 0xcd, 0x4d, 0x4a, 0x2d, 0x52,
    0x48, 0xce, 0xcf, 0x2b, 0x49, 0xcd, 0x2b, 0x29, 0xe6, 0x02, 0x00, 0x50, 0x4b, 0x03, 0x04, 0x14,
    0x00, 0x00, 0x00, 0x08, 0x00, 0x00, 0x00, 0x21, 0x00, 0xf7, 0x94, 0xb5, 0x96, 0x26, 0x00, 0x00,
    0x00, 0x25, 0x00, 0x00, 0x00, 0x05, 0x00, 0x00, 0x00, 0x62, 0x2e, 0x74, 0x78, 0x74, 0x4b, 0x4a,
    0x2d, 0x49, 0x54, 0xc8, 0x4d, 0xcd, 0x4d, 0x4a, 0x2d, 0x52, 0x48, 0xce, 0xcf, 0x2b, 0x49, 0xcd,
    0x2b, 0x29, 0x56, 0x78, 0xd4, 0x30, 0x45, 0xa1, 0x38, 0x15, 0xc8, 0x4d, 0x51, 0x48, 0xcb, 0xcc,
    0x49, 0xe5, 0x02, 0x00, 0x50, 0x4b, 0x03, 0x04, 0x14, 0x00, 0x00, 0x00, 0x08, 0x00, 0x00, 0x00,
    0x21, 0x00, 0x0a, 0x7e, 0xbb, 0x60, 0x16, 0x00, 0x00, 0x00, 0x14, 0x00, 0x00, 0x00, 0x09, 0x00,
    0x00, 0x00, 0x73, 0x75, 0x62, 0x2f, 0x63, 0x2e, 0x74, 0x78, 0x74, 0x4b, 0x4f, 0xcc, 0xcd, 0x4d,
    0x54, 0xc8, 0x4b, 0x2d, 0x2e, 0x49, 0x4d, 0x51, 0xc8, 0x4d, 0xcd, 0x4d, 0x4a, 0x2d, 0xe2, 0x02,
    0x00, 0x50, 0x4b, 0x01, 0x02, 0x14, 0x03, 0x14, 0x00, 0x00, 0x00, 0x08, 0x00, 0x00, 0x00, 0x21,
    0x00, 0x92, 0xca, 0xf4, 0x75, 0x18, 0x00, 0x00, 0x00, 0x16, 0x00, 0x00, 0x00, 0x05, 0x00, 0x00,
    0x00, 0x00, 0x00, 0x00, 0x00, 0x00, 0x00, 0x00, 0x00, 0x80, 0x01, 0x00, 0x00, 0x00, 0x00, 0x61,
    0x2e, 0x74, 0x78, 0x74, 0x50, 0x4b, 0x01, 0x02, 0x14, 0x03, 0x14, 0x00, 0x00, 0x00, 0x08, 0x00,
    0x00, 0x00, 0x21, 0x00, 0xf7, 0x94, 0xb5, 0x96, 0x26, 0x00, 0x00, 0x00, 0x25, 0x00, 0x00, 0x00,
    0x05, 0x00, 0x00, 0x00, 0x00, 0x00, 0x00, 0x00, 0x00, 0x00, 0x00, 0x00, 0x80, 0x01, 0x3b, 0x00,
    0x00, 0x00, 0x62, 0x2e, 0x74, 0x78, 0x74, 0x50, 0x4b, 0x01, 0x02, 0x14, 0x03, 0x14, 0x00, 0x00,
    0x00, 0x08, 0x00, 0x00, 0x00, 0x21, 0x00, 0x0a, 0x7e, 0xbb, 0x60, 0x16, 0x00, 0x00, 0x00, 0x14,
    0x00, 0x00, 0x00, 0x09, 0x00, 0x00, 0x00, 0x00, 0x00, 0x00, 0x00, 0x00, 0x00, 0x00, 0x00, 0x80,
    0x01, 0x84, 0x00, 0x00, 0x00, 0x73, 0x75, 0x62, 0x2f, 0x63, 0x2e, 0x74, 0x78, 0x74, 0x50, 0x4b,
    0x05, 0x06, 0x00, 0x00, 0x00, 0x00, 0x03, 0x00, 0x03, 0x00, 0x9d, 0x00, 0x00, 0x00, 0xc1, 0x00,
    0x00, 0x00, 0x00, 0x00,
];
const DEFLATE_ONE_ZIP: [u8; 136] = [
    0x50, 0x4b, 0x03, 0x04, 0x14, 0x00, 0x00, 0x00, 0x08, 0x00, 0x00, 0x00, 0x21, 0x00, 0xcc, 0x3b,
    0x25, 0x32, 0x1a, 0x00, 0x00, 0x00, 0x00, 0x20, 0x00, 0x00, 0x06, 0x00, 0x00, 0x00, 0x62, 0x69,
    0x67, 0x2e, 0x64, 0x64, 0xed, 0xc1, 0x01, 0x0d, 0x00, 0x00, 0x00, 0xc2, 0xa0, 0x6c, 0xef, 0x5f,
    0xca, 0x1c, 0x6e, 0x40, 0x01, 0x00, 0x00, 0x00, 0x00, 0x00, 0x00, 0x00, 0xef, 0x06, 0x50, 0x4b,
    0x01, 0x02, 0x14, 0x03, 0x14, 0x00, 0x00, 0x00, 0x08, 0x00, 0x00, 0x00, 0x21, 0x00, 0xcc, 0x3b,
    0x25, 0x32, 0x1a, 0x00, 0x00, 0x00, 0x00, 0x20, 0x00, 0x00, 0x06, 0x00, 0x00, 0x00, 0x00, 0x00,
    0x00, 0x00, 0x00, 0x00, 0x00, 0x00, 0x80, 0x01, 0x00, 0x00, 0x00, 0x00, 0x62, 0x69, 0x67, 0x2e,
    0x64, 0x64, 0x50, 0x4b, 0x05, 0x06, 0x00, 0x00, 0x00, 0x00, 0x01, 0x00, 0x01, 0x00, 0x34, 0x00,
    0x00, 0x00, 0x3e, 0x00, 0x00, 0x00, 0x00, 0x00,
];
const BZIP2_MEMBER_ZIP: [u8; 160] = [
    0x50, 0x4b, 0x03, 0x04, 0x2e, 0x00, 0x00, 0x00, 0x0c, 0x00, 0x00, 0x00, 0x21, 0x00, 0xdd, 0x51,
    0xd5, 0x7c, 0x2e, 0x00, 0x00, 0x00, 0x00, 0x10, 0x00, 0x00, 0x08, 0x00, 0x00, 0x00, 0x62, 0x6c,
    0x6f, 0x62, 0x2e, 0x62, 0x69, 0x6e, 0x42, 0x5a, 0x68, 0x39, 0x31, 0x41, 0x59, 0x26, 0x53, 0x59,
    0xbb, 0x8a, 0xab, 0x3e, 0x00, 0x00, 0x0a, 0x42, 0x00, 0x80, 0x04, 0x00, 0x10, 0x00, 0x08, 0x20,
    0x00, 0x30, 0xcc, 0x05, 0x53, 0x6a, 0x62, 0x0a, 0x03, 0xc5, 0xdc, 0x91, 0x4e, 0x14, 0x24, 0x2e,
    0xe2, 0xaa, 0xcf, 0x80, 0x50, 0x4b, 0x01, 0x02, 0x2e, 0x03, 0x2e, 0x00, 0x00, 0x00, 0x0c, 0x00,
    0x00, 0x00, 0x21, 0x00, 0xdd, 0x51, 0xd5, 0x7c, 0x2e, 0x00, 0x00, 0x00, 0x00, 0x10, 0x00, 0x00,
    0x08, 0x00, 0x00, 0x00, 0x00, 0x00, 0x00, 0x00, 0x00, 0x00, 0x00, 0x00, 0x80, 0x01, 0x00, 0x00,
    0x00, 0x00, 0x62, 0x6c, 0x6f, 0x62, 0x2e, 0x62, 0x69, 0x6e, 0x50, 0x4b, 0x05, 0x06, 0x00, 0x00,
    0x00, 0x00, 0x01, 0x00, 0x01, 0x00, 0x36, 0x00, 0x00, 0x00, 0x54, 0x00, 0x00, 0x00, 0x00, 0x00,
];
const SEG_EWF_ZIP: [u8; 322] = [
    0x50, 0x4b, 0x03, 0x04, 0x14, 0x00, 0x00, 0x00, 0x00, 0x00, 0x00, 0x00, 0x21, 0x00, 0x62, 0x8f,
    0x53, 0xf4, 0x0a, 0x00, 0x00, 0x00, 0x0a, 0x00, 0x00, 0x00, 0x07, 0x00, 0x00, 0x00, 0x69, 0x6d,
    0x67, 0x2e, 0x45, 0x30, 0x33, 0x45, 0x57, 0x46, 0x2d, 0x53, 0x45, 0x47, 0x2d, 0x33, 0x0a, 0x50,
    0x4b, 0x03, 0x04, 0x14, 0x00, 0x00, 0x00, 0x00, 0x00, 0x00, 0x00, 0x21, 0x00, 0xe0, 0xed, 0x65,
    0xc6, 0x0a, 0x00, 0x00, 0x00, 0x0a, 0x00, 0x00, 0x00, 0x07, 0x00, 0x00, 0x00, 0x69, 0x6d, 0x67,
    0x2e, 0x45, 0x30, 0x31, 0x45, 0x57, 0x46, 0x2d, 0x53, 0x45, 0x47, 0x2d, 0x31, 0x0a, 0x50, 0x4b,
    0x03, 0x04, 0x14, 0x00, 0x00, 0x00, 0x00, 0x00, 0x00, 0x00, 0x21, 0x00, 0x23, 0xbe, 0x48, 0xed,
    0x0a, 0x00, 0x00, 0x00, 0x0a, 0x00, 0x00, 0x00, 0x07, 0x00, 0x00, 0x00, 0x69, 0x6d, 0x67, 0x2e,
    0x45, 0x30, 0x32, 0x45, 0x57, 0x46, 0x2d, 0x53, 0x45, 0x47, 0x2d, 0x32, 0x0a, 0x50, 0x4b, 0x01,
    0x02, 0x14, 0x03, 0x14, 0x00, 0x00, 0x00, 0x00, 0x00, 0x00, 0x00, 0x21, 0x00, 0x62, 0x8f, 0x53,
    0xf4, 0x0a, 0x00, 0x00, 0x00, 0x0a, 0x00, 0x00, 0x00, 0x07, 0x00, 0x00, 0x00, 0x00, 0x00, 0x00,
    0x00, 0x00, 0x00, 0x00, 0x00, 0x80, 0x01, 0x00, 0x00, 0x00, 0x00, 0x69, 0x6d, 0x67, 0x2e, 0x45,
    0x30, 0x33, 0x50, 0x4b, 0x01, 0x02, 0x14, 0x03, 0x14, 0x00, 0x00, 0x00, 0x00, 0x00, 0x00, 0x00,
    0x21, 0x00, 0xe0, 0xed, 0x65, 0xc6, 0x0a, 0x00, 0x00, 0x00, 0x0a, 0x00, 0x00, 0x00, 0x07, 0x00,
    0x00, 0x00, 0x00, 0x00, 0x00, 0x00, 0x00, 0x00, 0x00, 0x00, 0x80, 0x01, 0x2f, 0x00, 0x00, 0x00,
    0x69, 0x6d, 0x67, 0x2e, 0x45, 0x30, 0x31, 0x50, 0x4b, 0x01, 0x02, 0x14, 0x03, 0x14, 0x00, 0x00,
    0x00, 0x00, 0x00, 0x00, 0x00, 0x21, 0x00, 0x23, 0xbe, 0x48, 0xed, 0x0a, 0x00, 0x00, 0x00, 0x0a,
    0x00, 0x00, 0x00, 0x07, 0x00, 0x00, 0x00, 0x00, 0x00, 0x00, 0x00, 0x00, 0x00, 0x00, 0x00, 0x80,
    0x01, 0x5e, 0x00, 0x00, 0x00, 0x69, 0x6d, 0x67, 0x2e, 0x45, 0x30, 0x32, 0x50, 0x4b, 0x05, 0x06,
    0x00, 0x00, 0x00, 0x00, 0x03, 0x00, 0x03, 0x00, 0x9f, 0x00, 0x00, 0x00, 0x8d, 0x00, 0x00, 0x00,
    0x00, 0x00,
];
fn gzip(data: &[u8]) -> Vec<u8> {
    let mut e = flate2::write::GzEncoder::new(Vec::new(), flate2::Compression::default());
    e.write_all(data).unwrap();
    e.finish().unwrap()
}
/// A ZIP whose members are each stored uncompressed, in the given order. Each
/// member's checksum is its own, changed by `spoil`.
fn stored_zip_with(members: &[(&str, &[u8])], spoil: u32) -> Vec<u8> {
    let mut z: Vec<u8> = Vec::new();
    let mut central: Vec<u8> = Vec::new();
    let mut count = 0u16;
    for (name, payload) in members {
        let nb = name.as_bytes();
        let mut crc = flate2::Crc::new();
        crc.update(payload);
        let crc = crc.sum() ^ spoil;
        let lho = z.len() as u32;
        let (sz, nlen) = (payload.len() as u32, nb.len() as u16);
        // Local file header.
        z.extend_from_slice(&0x0403_4b50u32.to_le_bytes());
        z.extend_from_slice(&20u16.to_le_bytes()); // version needed
        z.extend_from_slice(&0u16.to_le_bytes()); // flags
        z.extend_from_slice(&0u16.to_le_bytes()); // method: stored
        z.extend_from_slice(&0u16.to_le_bytes()); // mod time
        z.extend_from_slice(&0u16.to_le_bytes()); // mod date
        z.extend_from_slice(&crc.to_le_bytes());
        z.extend_from_slice(&sz.to_le_bytes()); // compressed size
        z.extend_from_slice(&sz.to_le_bytes()); // uncompressed size
        z.extend_from_slice(&nlen.to_le_bytes());
        z.extend_from_slice(&0u16.to_le_bytes()); // extra len
        z.extend_from_slice(nb);
        z.extend_from_slice(payload);
        // Central directory header.
        central.extend_from_slice(&0x0201_4b50u32.to_le_bytes());
        central.extend_from_slice(&20u16.to_le_bytes()); // version made by
        central.extend_from_slice(&20u16.to_le_bytes()); // version needed
        central.extend_from_slice(&0u16.to_le_bytes()); // flags
        central.extend_from_slice(&0u16.to_le_bytes()); // method
        central.extend_from_slice(&0u16.to_le_bytes()); // mod time
        central.extend_from_slice(&0u16.to_le_bytes()); // mod date
        central.extend_from_slice(&crc.to_le_bytes());
        central.extend_from_slice(&sz.to_le_bytes());
        central.extend_from_slice(&sz.to_le_bytes());
        central.extend_from_slice(&nlen.to_le_bytes());
        central.extend_from_slice(&0u16.to_le_bytes()); // extra len
        central.extend_from_slice(&0u16.to_le_bytes()); // comment len
        central.extend_from_slice(&0u16.to_le_bytes()); // disk number start
        central.extend_from_slice(&0u16.to_le_bytes()); // internal attrs
        central.extend_from_slice(&0u32.to_le_bytes()); // outer attrs
        central.extend_from_slice(&lho.to_le_bytes()); // local header offset
        central.extend_from_slice(nb);
        count += 1;
    }
    let cd_offset = z.len() as u32;
    let cd_size = central.len() as u32;
    z.extend_from_slice(&central);
    // End of central directory.
    z.extend_from_slice(&0x0605_4b50u32.to_le_bytes());
    z.extend_from_slice(&0u16.to_le_bytes()); // disk num
    z.extend_from_slice(&0u16.to_le_bytes()); // disk with cd
    z.extend_from_slice(&count.to_le_bytes()); // entries this disk
    z.extend_from_slice(&count.to_le_bytes()); // total entries
    z.extend_from_slice(&cd_size.to_le_bytes());
    z.extend_from_slice(&cd_offset.to_le_bytes());
    z.extend_from_slice(&0u16.to_le_bytes()); // comment len
    z
}

fn stored_zip(members: &[(&str, &[u8])]) -> Vec<u8> {
    stored_zip_with(members, 0)
}
/// A ZIP with one stored member of 4096 bytes.
fn stored_one() -> Vec<u8> {
    stored_zip(&[("disk.dd", &[b'A'; 4096])])
}
/// Everything from the position on.
fn drain<S: ReadSeek>(source: &mut S) -> Vec<u8> {
    let mut out = Vec::new();
    let mut buf = [0u8; 100];
    loop {
        let n = source.read(&mut buf);
        if n == 0 {
            return out;
        }
        out.extend_from_slice(&buf[..n]);
    }
}
/// Fill `buf`, read by read.
fn read_exact<S: ReadSeek>(source: &mut S, buf: &mut [u8]) {
    let mut at = 0;
    while at < buf.len() {
        let n = source.read(&mut buf[at..]);
        assert!(n > 0, "the source ended early");
        at += n;
    }
}
/// The bytes of the single file member of an archive.
fn member_oracle(data: &[u8], name: &str, member: &str) -> Vec<u8> {
    let mut a = Archive::open(data, Some(name)).unwrap().unwrap();
    let idx = a
        .entries()
        .iter()
        .position(|e| e.name == member && !e.is_dir)
        .unwrap();
    a.read(idx).unwrap()
}

// A stored member is a zero-copy window: it reads the exact member bytes straight
// from the original image, and matches the plan's window.
#[test]
fn stored_member_is_inplace_zero_copy() {
    let data = stored_one();
    let AccessPlan::Member {
        access: Access::InPlace { offset, len },
        ..
    } = detect(&data).unwrap()
    else {
        panic!("expected an InPlace Member plan");
    };
    let expected = member_oracle(&data, "stored_one.zip", "disk.dd");

    match peel_archive_seekable(data.clone(), Some("stored_one.zip"), &Limits::default()).unwrap()
    {
        PeelSource::Inner(PeeledSource::InPlace(mut sub)) => {
            assert_eq!(sub.offset(), offset, "window offset matches the plan");
            assert_eq!(sub.len(), len, "window len matches the plan");
            let got = drain(&mut sub);
            assert_eq!(got, expected, "reads the exact member bytes");
            let s = offset as usize;
            let e = (offset + len) as usize;
            assert_eq!(got.as_slice(), &data[s..e]);
            // Seekable within the window.
            sub.seek(SeekFrom::Start(10)).unwrap();
            let mut three = [0u8; 3];
            read_exact(&mut sub, &mut three);
            assert_eq!(&three[..], &data[s + 10..s + 13]);
        }
        other => panic!("expected InPlace, got {other:?}"),
    }
}

#[test]
fn deflate_member_decodes_to_a_temp_source() {
    let expected = member_oracle(&DEFLATE_ONE_ZIP, "deflate_one.zip", "big.dd");
    match peel_archive_seekable(
        DEFLATE_ONE_ZIP.to_vec(),
        Some("deflate_one.zip"),
        &Limits::default(),
    )
    .unwrap()
    {
        PeelSource::Inner(PeeledSource::Temp(mut t)) => {
            assert_eq!(drain(&mut t), expected);
            assert_eq!(t.into_bytes(), expected);
        }
        other => panic!("expected Temp, got {other:?}"),
    }
}

#[test]
fn bare_gzip_wrapper_spills_full_stream_to_temp() {
    let inner = b"raw disk sector bytes, not an archive at all ".repeat(50);
    let gz = gzip(&inner);
    match peel_archive_seekable(gz, Some("disk.dd.gz"), &Limits::default()).unwrap() {
        PeelSource::Inner(PeeledSource::Temp(mut t)) => {
            assert_eq!(t.len(), inner.len() as u64);
            assert!(!t.is_empty());
            let got = drain(&mut t);
            assert_eq!(got, inner);
            // Seekable: jump back into the middle and read.
            t.seek(SeekFrom::Start(5)).unwrap();
            let mut chunk = [0u8; 4];
            read_exact(&mut t, &mut chunk);
            assert_eq!(&chunk[..], &inner[5..9]);
        }
        other => panic!("expected Temp, got {other:?}"),
    }
}

#[test]
fn over_cap_spill_fails_loud() {
    let gz = gzip(&vec![0xAB_u8; 10_000]);
    let limits = Limits {
        max_total_inflated: 500,
        ..Limits::default()
    };
    match peel_archive_seekable(gz, Some("x.gz"), &limits) {
        Err(ArchiveError::TooLarge { cap }) => assert_eq!(cap, 500),
        other => panic!("expected TooLarge, got {other:?}"),
    }
}

#[test]
fn over_cap_inplace_fails_loud() {
    let data = stored_one(); // 4096-byte stored member
    let limits = Limits {
        max_total_inflated: 100,
        ..Limits::default()
    };
    match peel_archive_seekable(data, Some("stored_one.zip"), &limits) {
        Err(ArchiveError::TooLarge { cap }) => assert_eq!(cap, 100),
        other => panic!("expected TooLarge, got {other:?}"),
    }
}

#[test]
fn raw_bytes_are_not_packed() {
    match peel_archive_seekable(
        b"\x00\x01\x02 not packed".to_vec(),
        Some("x.raw"),
        &Limits::default(),
    )
    .unwrap()
    {
        PeelSource::NotPacked => {}
        other => panic!("expected NotPacked, got {other:?}"),
    }
}

#[test]
fn multi_member_zip_is_not_packed() {
    assert!(matches!(
        peel_archive_seekable(PAYLOAD_ZIP.to_vec(), Some("payload.zip"), &Limits::default())
            .unwrap(),
        PeelSource::NotPacked
    ));
}

#[test]
fn segment_set_is_not_packed() {
    assert!(matches!(
        peel_archive_seekable(SEG_EWF_ZIP.to_vec(), Some("seg_ewf.zip"), &Limits::default())
            .unwrap(),
        PeelSource::NotPacked
    ));
}

#[test]
fn targz_single_member_spills_to_temp() {
    let mut b = tar::Builder::new(Vec::new());
    let payload = b"RAW-IMAGE-BYTES-in-a-tar".repeat(10);
    let mut h = tar::Header::new_gnu();
    h.set_size(payload.len() as u64);
    h.set_mode(0o644);
    h.set_cksum();
    b.append_data(&mut h, "disk.img", payload.as_slice())
        .unwrap();
    let tar = b.into_inner().unwrap();
    let gz = gzip(&tar);
    match peel_archive_seekable(gz, Some("disk.tgz"), &Limits::default()).unwrap() {
        PeelSource::Inner(PeeledSource::Temp(mut t)) => {
            let got = drain(&mut t);
            assert_eq!(got, payload);
        }
        other => panic!("expected Temp, got {other:?}"),
    }
}

#[test]
fn bzip2_wrappers_and_members_decode_too() {
    match peel_archive_seekable(PAYLOAD_BZ2.to_vec(), None, &Limits::default()).unwrap() {
        PeelSource::Inner(mut source) => {
            assert_eq!(source.len(), 1740);
            assert!(drain(&mut source).starts_with(b"archive-detour bzip2"));
        }
        other => panic!("expected Inner, got {other:?}"),
    }
    match peel_archive_seekable(BZIP2_MEMBER_ZIP.to_vec(), None, &Limits::default()).unwrap() {
        PeelSource::Inner(PeeledSource::Temp(t)) => assert_eq!(t.into_bytes(), vec![b'Z'; 4096]),
        other => panic!("expected Temp, got {other:?}"),
    }
}

#[test]
fn a_window_outside_the_data_is_refused() {
    let data = Arc::new(vec![1u8, 2, 3, 4, 5]);
    let mut sub = SubRange::new(data.clone(), 1, 3, 3).unwrap();
    assert_eq!(drain(&mut sub), vec![2, 3, 4]);
    assert!(SubRange::new(data.clone(), 5, 0, 0).unwrap().is_empty());
    assert!(matches!(
        SubRange::new(data.clone(), 1, 3, 2),
        Err(ArchiveError::TooLarge { cap: 2 })
    ));
    match SubRange::new(data.clone(), 3, 3, 10) {
        Err(ArchiveError::Read { format, detail }) => {
            assert_eq!(format, "in-place");
            assert_eq!(detail, "member window [3, 3+3) exceeds the 5-byte source");
        }
        other => panic!("expected Read, got {other:?}"),
    }
    assert!(matches!(
        SubRange::new(data, u64::MAX, 2, 10),
        Err(ArchiveError::Read { .. })
    ));
}

#[test]
fn windows_clamp_their_seeks_and_decoded_sources_do_not() {
    let mut sub = SubRange::new(Arc::new(vec![7u8; 10]), 2, 4, 100).unwrap();
    assert_eq!(sub.seek(SeekFrom::Start(99)), Ok(4));
    assert_eq!(sub.seek(SeekFrom::End(-1)), Ok(3));
    assert_eq!(sub.seek(SeekFrom::Current(-5)), Err(SeekOutOfRange));
    assert_eq!(sub.seek(SeekFrom::Current(0)), Ok(3));
    let mut temp = TempBacked::new(vec![1, 2, 3]);
    assert_eq!(temp.seek(SeekFrom::Start(99)), Ok(99));
    assert_eq!(temp.read(&mut [0u8; 4]), 0);
    assert_eq!(temp.seek(SeekFrom::End(-2)), Ok(1));
    let mut buf = [9u8; 4];
    assert_eq!(temp.read(&mut buf), 2);
    assert_eq!(buf, [2, 3, 9, 9]);
    assert_eq!(temp.read(&mut []), 0);
    assert!(TempBacked::new(Vec::new()).is_empty());
}

#[test]
fn offsets_fail_on_under_and_overflow() {
    assert_eq!(offset_from(10, -10), Ok(0));
    assert_eq!(offset_from(10, -11), Err(SeekOutOfRange));
    assert_eq!(offset_from(u64::MAX - 1, 1), Ok(u64::MAX));
    assert_eq!(offset_from(u64::MAX, 1), Err(SeekOutOfRange));
    assert_eq!(offset_from(u64::MAX, i64::MIN), Ok(u64::MAX / 2));
    assert_eq!(SeekOutOfRange.message(), "seek position out of range");
}

#[test]
fn a_member_access_needs_an_archive() {
    let data = Arc::new(b"plain".to_vec());
    assert!(matches!(
        execute_member_access(
            Format::Unknown,
            &data,
            0,
            Access::SpillToTemp,
            &Limits::default()
        ),
        Err(ArchiveError::Open {
            format: "archive",
            ..
        })
    ));
    let zip = Arc::new(PAYLOAD_ZIP.to_vec());
    match execute_member_access(Format::Zip, &zip, 0, Access::Zran, &Limits::default()).unwrap() {
        PeeledSource::Temp(t) => assert_eq!(t.into_bytes(), b"alpha member contents\n"),
        other => panic!("expected Temp, got {other:?}"),
    }
    assert!(matches!(
        execute_member_access(Format::Zip, &zip, 3, Access::Zran, &Limits::default()),
        Err(ArchiveError::IndexOutOfRange { index: 3, count: 3 })
    ));
}

#[test]
fn reading_and_seeking_leave_the_window_where_it_is() {
    let data = std::sync::Arc::new((0u8..100).collect::<Vec<u8>>());
    let mut sub = SubRange::new(data, 10, 20, 100).unwrap();
    assert_eq!(drain(&mut sub), (10u8..30).collect::<Vec<u8>>());
    assert_eq!((sub.offset(), sub.len()), (10, 20));
    sub.seek(SeekFrom::Start(5)).unwrap();
    assert_eq!((sub.offset(), sub.len()), (10, 20));
    assert_eq!(drain(&mut sub), (15u8..30).collect::<Vec<u8>>());
}
