//! The `zip-forensic-core` reader, opened once over the bytes of an archive.

use super::codec::first_bytes;
use crate::guard::zip_fits;
use crate::inflate::deflate64_fits;
use std::io::Read;
use vstd::prelude::*;

verus! {

/// `std::io::Cursor`, carried as the reader's source.
#[verifier::external_type_specification]
#[verifier::external_body]
#[verifier::reject_recursive_types(T)]
pub struct ExCursor<T>(std::io::Cursor<T>);

/// `zip_core::ZipArchive`, a parsed archive over its source.
#[verifier::external_type_specification]
#[verifier::external_body]
#[verifier::reject_recursive_types(R)]
pub struct ExZipArchive<R>(zip_core::ZipArchive<R>);

/// A parsed ZIP archive over bytes in memory.
pub type ZipReader = zip_core::ZipArchive<std::io::Cursor<Vec<u8>>>;

/// How a ZIP member is compressed, as far as the reader decodes it.
#[derive(Debug, Clone, Copy, PartialEq, Eq, Structural)]
pub enum ZipMethod {
    /// Not compressed.
    Stored,
    /// Classic DEFLATE.
    Deflated,
    /// Deflate64.
    Deflate64,
    /// bzip2.
    Bzip2,
    /// LZMA.
    Lzma,
    /// Zstandard.
    Zstd,
    /// XZ.
    Xz,
    /// A method that the reader names but does not decode.
    Other,
}

/// What the reader says of one ZIP member.
#[derive(Debug)]
pub struct ZipRecord {
    /// Path within the archive.
    pub name: String,
    /// Uncompressed size that the directory declares.
    pub size: u64,
    /// Whether the member names a directory.
    pub is_dir: bool,
    /// How the member is compressed.
    pub method: ZipMethod,
    /// Offset of the member's first data byte in the archive.
    pub data_start: u64,
    /// Length of the member's data in the archive.
    pub compressed_size: u64,
}

/// A [`ZipRecord`] with its name as characters.
#[verifier::ext_equal]
pub struct RecordModel {
    pub name: Seq<char>,
    pub size: u64,
    pub is_dir: bool,
    pub method: ZipMethod,
    pub data_start: u64,
    pub compressed_size: u64,
}

impl View for ZipRecord {
    type V = RecordModel;

    open spec fn view(&self) -> RecordModel {
        RecordModel {
            name: self.name@,
            size: self.size,
            is_dir: self.is_dir,
            method: self.method,
            data_start: self.data_start,
            compressed_size: self.compressed_size,
        }
    }
}

/// What looking a member up gave, by views.
pub open spec fn recorded(r: Result<ZipRecord, String>) -> Result<RecordModel, Seq<char>> {
    match r {
        Ok(v) => Ok(v@),
        Err(e) => Err(e@),
    }
}

/// What a bounded read of a member gave, by views: the bytes, or the text of the
/// error that cut it short.
pub open spec fn unfaulted(r: (Vec<u8>, Option<String>)) -> Result<Seq<u8>, Seq<char>> {
    match r.1 {
        Some(e) => Err(e@),
        None => Ok(r.0@),
    }
}

/// The bytes that a reader was opened on.
pub uninterp spec fn zip_source(archive: ZipReader) -> Seq<u8>;

/// Whether the central directory of the archive in `data` parses, or the text of
/// the error.
pub uninterp spec fn zip_directory(data: Seq<u8>) -> Result<(), Seq<char>>;

/// How many members the central directory of the archive in `data` lists.
pub uninterp spec fn zip_count(data: Seq<u8>) -> usize;

/// What the reader says of member `index` of the archive in `data`.
pub uninterp spec fn zip_record(data: Seq<u8>, index: usize) -> Result<RecordModel, Seq<char>>;

/// At most `limit` decoded bytes of member `index` of the archive in `data`, or the
/// text of the error that cuts the read short.
pub uninterp spec fn zip_member(data: Seq<u8>, index: usize, limit: u64) -> Result<
    Seq<u8>,
    Seq<char>,
>;

/// Member `index` of the archive in `data` holds `content`: every bounded read of
/// it gives the first bytes of that.
pub open spec fn zip_holds(data: Seq<u8>, index: usize, content: Seq<u8>) -> bool {
    forall|limit: u64| #[trigger] zip_member(data, index, limit) == Ok::<Seq<u8>, Seq<char>>(
        first_bytes(content, limit),
    )
}

/// Member `index` is stored uncompressed in a window that lies inside `data`.
pub open spec fn zip_window(data: Seq<u8>, index: usize, start: int, end: int) -> bool {
    &&& zip_record(data, index) matches Ok(record)
    &&& record.method is Stored
    &&& start == record.data_start
    &&& end == record.data_start + record.compressed_size
    &&& end <= data.len()
}

/// Member `index` can be handed to its decoder: where it is compressed with
/// Deflate64, its data, as far as the archive holds it, is such that no load of the
/// decoder runs short.
pub open spec fn zip_decodes(data: Seq<u8>, index: usize) -> bool {
    zip_record(data, index) matches Ok(record) ==> record_decodes(data, record)
}

/// A member of the archive in `data` with this record can be handed to its decoder.
pub open spec fn record_decodes(data: Seq<u8>, record: RecordModel) -> bool {
    record.method is Deflate64 ==> deflate64_fits(
        data,
        record.data_start as int,
        if record.data_start + record.compressed_size < data.len() {
            record.data_start + record.compressed_size
        } else {
            data.len() as int
        },
    )
}

/// Parse the directory of a ZIP archive with `zip_core::ZipArchive::new` over a
/// cursor on `data`.
///
/// Claimed of the reader: whether the directory parses, and the text of the error
/// where it does not, depends on the bytes alone; the reader stays on `data`. What
/// the directory holds is left to the reader.
#[verifier::external_body]
pub(crate) fn open_reader(data: Vec<u8>) -> (r: Result<ZipReader, String>)
    requires
        zip_fits(data@),
    ensures
        match r {
            Ok(archive) => zip_directory(data@) == Ok::<(), Seq<char>>(()) && zip_source(archive)
                == data@,
            Err(e) => zip_directory(data@) == Err::<(), Seq<char>>(e@),
        },
{
    zip_core::ZipArchive::new(std::io::Cursor::new(data)).map_err(|e| e.to_string())
}

/// The number of members, by `zip_core::ZipArchive::len`.
///
/// Claimed of the reader: it depends on the bytes alone.
#[verifier::external_body]
pub(crate) fn member_count(archive: &ZipReader) -> (r: usize)
    ensures
        r == zip_count(zip_source(*archive)),
{
    archive.len()
}

/// Look member `index` up with `zip_core::ZipArchive::by_index` and copy out what
/// the returned `zip_core::ZipFile` says of it.
///
/// Claimed of the reader: the answer, or the text of the error, depends on the
/// bytes and the index alone, and the reader stays on the same bytes. What the
/// answer is, is left to the reader.
#[verifier::external_body]
pub(crate) fn lookup(archive: &mut ZipReader, index: usize) -> (r: Result<ZipRecord, String>)
    requires
        zip_fits(zip_source(*old(archive))),
    ensures
        recorded(r) == zip_record(zip_source(*old(archive)), index),
        zip_source(*final(archive)) == zip_source(*old(archive)),
{
    let f = archive.by_index(index).map_err(|e| e.to_string())?;
    let method = match f.compression() {
        zip_core::CompressionMethod::Stored => ZipMethod::Stored,
        zip_core::CompressionMethod::Deflated => ZipMethod::Deflated,
        zip_core::CompressionMethod::Deflate64 => ZipMethod::Deflate64,
        zip_core::CompressionMethod::Bzip2 => ZipMethod::Bzip2,
        zip_core::CompressionMethod::Lzma => ZipMethod::Lzma,
        zip_core::CompressionMethod::Zstd => ZipMethod::Zstd,
        zip_core::CompressionMethod::Xz => ZipMethod::Xz,
        _ => ZipMethod::Other,
    };
    let (name, size, is_dir) = (f.name().to_string(), f.size(), f.is_dir());
    let (data_start, compressed_size) = (f.data_start(), f.compressed_size());
    Ok(ZipRecord { name, size, is_dir, method, data_start, compressed_size })
}

/// Read at most `limit` decoded bytes of member `index`: the
/// `zip_core::ZipFile` of `zip_core::ZipArchive::by_index`, read to its end under
/// `Read::take`. An error hands back what `Read::read_to_end` had appended before it.
///
/// Claimed of the reader: the bytes of a read without an error, or the text of the
/// error, depend on the bytes, the index and the limit alone; no more than `limit`
/// bytes come back; a read that ends before the limit without an error has seen the
/// whole member; the whole of a stored member whose window lies inside the archive is
/// that window; and the reader stays on the same bytes. How many bytes come back
/// with an error rests on how large the reads are that `Read::read_to_end` makes:
/// no more is claimed of them than the limit. That a checksum mismatch at the
/// member's end is an error is left to the reader. A Deflate64 member has to be one
/// that [`zip_decodes`] admits: its decoder takes its input from a
/// `std::io::BufReader`, and must not find a single byte where it loads two.
#[verifier::external_body]
pub(crate) fn fetch_zip(archive: &mut ZipReader, index: usize, limit: u64) -> (r: (
    Vec<u8>,
    Option<String>,
))
    requires
        zip_fits(zip_source(*old(archive))),
        zip_decodes(zip_source(*old(archive)), index),
    ensures
        unfaulted(r) == zip_member(zip_source(*old(archive)), index, limit),
        r.0@.len() <= limit,
        r.1 is None && r.0@.len() < limit ==> zip_holds(zip_source(*old(archive)), index, r.0@),
        r.1 is None && r.0@.len() < limit ==> forall|start: int, end: int|
            zip_window(zip_source(*old(archive)), index, start, end) ==> r.0@ == #[trigger] zip_source(
                *old(archive),
            ).subrange(start, end),
        zip_source(*final(archive)) == zip_source(*old(archive)),
{
    let mut out = Vec::new();
    let fault = match archive.by_index(index) {
        Ok(f) => f.take(limit).read_to_end(&mut out).map_err(|e| e.to_string()).err(),
        Err(e) => Some(e.to_string()),
    };
    (out, fault)
}

} // verus!
