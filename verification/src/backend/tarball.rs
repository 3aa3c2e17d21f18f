//! The `tar` crate over a plain, a gzip-compressed or a bzip2-compressed stream.
//! Each call walks a fresh stream from its start, so no whole decompressed tar is
//! ever held. The reader adds to its position without a check, so a stream is
//! handed to it only where [`tar_source`] says that it can be walked. The reader stops
//! where the tar ends, so what it gives is what the tar up to there gives.

use super::codec::first_bytes;
use crate::archive::{entry_models, ArchiveEntry, EntryModel};
use crate::detect::Format;
use crate::tape::tar_source;
use std::io::Read;
use vstd::prelude::*;

verus! {

/// What listing gave, by views: the entries, or the text of the error.
pub open spec fn listed(r: Result<Vec<ArchiveEntry>, String>) -> Result<
    Seq<EntryModel>,
    Seq<char>,
> {
    match r {
        Ok(v) => Ok(entry_models(v@)),
        Err(e) => Err(e@),
    }
}

/// What reading a member gave, by views: its bytes, nothing where the walk ended
/// before it, or the text of the error.
pub open spec fn fetched(r: Result<Option<Vec<u8>>, String>) -> Result<
    Option<Seq<u8>>,
    Seq<char>,
> {
    match r {
        Ok(Some(v)) => Ok(Some(v@)),
        Ok(None) => Ok(None),
        Err(e) => Err(e@),
    }
}

/// The entries of the tar stream `stream`, in stream order.
pub uninterp spec fn tar_entries(stream: Seq<u8>) -> Result<Seq<EntryModel>, Seq<char>>;

/// At most `limit` bytes of entry `index` of the tar stream `stream`.
pub uninterp spec fn tar_member(stream: Seq<u8>, index: usize, limit: u64) -> Result<
    Option<Seq<u8>>,
    Seq<char>,
>;

/// Entry `index` of the tar stream `stream` holds `content`: every bounded read of
/// it gives the first bytes of that.
pub open spec fn tar_holds(stream: Seq<u8>, index: usize, content: Seq<u8>) -> bool {
    forall|limit: u64| #[trigger] tar_member(stream, index, limit) == Ok::<
        Option<Seq<u8>>,
        Seq<char>,
    >(Some(first_bytes(content, limit)))
}

/// What a bounded read of entry `index` of the tar stream `stream` shows: no more
/// than `limit` bytes come back; a read that ends before the limit has seen the
/// whole entry; and the walk ends before `index` only where the list of the stream,
/// if there is one, is no longer than `index`.
pub open spec fn fetch_shows(
    r: Result<Option<Vec<u8>>, String>,
    stream: Seq<u8>,
    index: usize,
    limit: u64,
) -> bool {
    &&& r matches Ok(Some(out)) ==> out@.len() <= limit && (out@.len() < limit ==> tar_holds(
        stream,
        index,
        out@,
    ))
    &&& r matches Ok(None) ==> (tar_entries(stream) matches Ok(rows) ==> rows.len() <= index)
}

/// List a plain tar with `tar::Archive::entries`, mapping each entry to its path,
/// its header's size and whether its type is a directory.
///
/// Claimed of the reader: the list, or the text of the first error of the walk,
/// depends on the bytes of the tar up to its end alone. What the entries are is left
/// to the reader.
#[verifier::external_body]
pub(crate) fn list_tar(data: &[u8]) -> (r: Result<Vec<ArchiveEntry>, String>)
    requires
        tar_source(Format::Tar, data@) is Ok,
    ensures
        listed(r) == tar_entries(tar_source(Format::Tar, data@)->Ok_0),
{
    let mut archive = tar::Archive::new(data);
    let rows = archive.entries().map_err(|e| e.to_string())?.map(|entry| {
        let entry = entry?;
        Ok(ArchiveEntry {
            name: String::from_utf8_lossy(&entry.path_bytes()).into_owned(),
            size: entry.header().size()?,
            is_dir: entry.header().entry_type().is_dir(),
        })
    });
    rows.collect::<std::io::Result<Vec<ArchiveEntry>>>().map_err(|e| e.to_string())
}

/// List a gzip-compressed tar with `tar::Archive::entries` over
/// `flate2::read::GzDecoder`, mapping each entry to its path, its header's size
/// and whether its type is a directory.
///
/// Claimed of the reader: over a stream that decodes as far as the tar goes, the
/// list, or the text of the first error of the walk, is that of the plain tar. What
/// the entries are is left to the reader.
#[verifier::external_body]
pub(crate) fn list_tar_gzip(data: &[u8]) -> (r: Result<Vec<ArchiveEntry>, String>)
    requires
        tar_source(Format::TarGz, data@) is Ok,
    ensures
        listed(r) == tar_entries(tar_source(Format::TarGz, data@)->Ok_0),
{
    let mut archive = tar::Archive::new(flate2::read::GzDecoder::new(data));
    let rows = archive.entries().map_err(|e| e.to_string())?.map(|entry| {
        let entry = entry?;
        Ok(ArchiveEntry {
            name: String::from_utf8_lossy(&entry.path_bytes()).into_owned(),
            size: entry.header().size()?,
            is_dir: entry.header().entry_type().is_dir(),
        })
    });
    rows.collect::<std::io::Result<Vec<ArchiveEntry>>>().map_err(|e| e.to_string())
}

/// List a bzip2-compressed tar with `tar::Archive::entries` over
/// `bzip2_rs::DecoderReader`, mapping each entry to its path, its header's size
/// and whether its type is a directory.
///
/// Claimed of the reader: over a stream that decodes as far as the tar goes, the
/// list, or the text of the first error of the walk, is that of the plain tar. What
/// the entries are is left to the reader.
#[verifier::external_body]
pub(crate) fn list_tar_bzip2(data: &[u8]) -> (r: Result<Vec<ArchiveEntry>, String>)
    requires
        tar_source(Format::TarBz2, data@) is Ok,
    ensures
        listed(r) == tar_entries(tar_source(Format::TarBz2, data@)->Ok_0),
{
    let mut archive = tar::Archive::new(bzip2_rs::DecoderReader::new(data));
    let rows = archive.entries().map_err(|e| e.to_string())?.map(|entry| {
        let entry = entry?;
        Ok(ArchiveEntry {
            name: String::from_utf8_lossy(&entry.path_bytes()).into_owned(),
            size: entry.header().size()?,
            is_dir: entry.header().entry_type().is_dir(),
        })
    });
    rows.collect::<std::io::Result<Vec<ArchiveEntry>>>().map_err(|e| e.to_string())
}

/// Read at most `limit` bytes of entry `index` of a plain tar: the `index`-th
/// item of `tar::Archive::entries`, read to its end under `Read::take`.
///
/// Claimed of the reader: what comes back depends on the bytes of the tar up to its
/// end, the index and the limit alone, and shows of them what [`fetch_shows`] says.
#[verifier::external_body]
pub(crate) fn fetch_tar(data: &[u8], index: usize, limit: u64) -> (r: Result<
    Option<Vec<u8>>,
    String,
>)
    requires
        tar_source(Format::Tar, data@) is Ok,
    ensures
        fetched(r) == tar_member(tar_source(Format::Tar, data@)->Ok_0, index, limit),
        fetch_shows(r, tar_source(Format::Tar, data@)->Ok_0, index, limit),
{
    let mut archive = tar::Archive::new(data);
    match archive.entries().map_err(|e| e.to_string())?.nth(index) {
        Some(entry) => {
            let mut out = Vec::new();
            let mut limited = entry.map_err(|e| e.to_string())?.take(limit);
            limited.read_to_end(&mut out).map_err(|e| e.to_string())?;
            Ok(Some(out))
        }
        None => Ok(None),
    }
}

/// Read at most `limit` bytes of entry `index` of a gzip-compressed tar: the
/// `index`-th item of `tar::Archive::entries` over `flate2::read::GzDecoder`,
/// read to its end under `Read::take`.
///
/// Claimed of the reader: over a stream that decodes as far as the tar goes, what
/// comes back is what the plain tar gives, and shows of it what [`fetch_shows`] says.
#[verifier::external_body]
pub(crate) fn fetch_tar_gzip(data: &[u8], index: usize, limit: u64) -> (r: Result<
    Option<Vec<u8>>,
    String,
>)
    requires
        tar_source(Format::TarGz, data@) is Ok,
    ensures
        fetched(r) == tar_member(tar_source(Format::TarGz, data@)->Ok_0, index, limit),
        fetch_shows(r, tar_source(Format::TarGz, data@)->Ok_0, index, limit),
{
    let mut archive = tar::Archive::new(flate2::read::GzDecoder::new(data));
    match archive.entries().map_err(|e| e.to_string())?.nth(index) {
        Some(entry) => {
            let mut out = Vec::new();
            let mut limited = entry.map_err(|e| e.to_string())?.take(limit);
            limited.read_to_end(&mut out).map_err(|e| e.to_string())?;
            Ok(Some(out))
        }
        None => Ok(None),
    }
}

/// Read at most `limit` bytes of entry `index` of a bzip2-compressed tar: the
/// `index`-th item of `tar::Archive::entries` over `bzip2_rs::DecoderReader`,
/// read to its end under `Read::take`.
///
/// Claimed of the reader: over a stream that decodes as far as the tar goes, what
/// comes back is what the plain tar gives, and shows of it what [`fetch_shows`] says.
#[verifier::external_body]
pub(crate) fn fetch_tar_bzip2(data: &[u8], index: usize, limit: u64) -> (r: Result<
    Option<Vec<u8>>,
    String,
>)
    requires
        tar_source(Format::TarBz2, data@) is Ok,
    ensures
        fetched(r) == tar_member(tar_source(Format::TarBz2, data@)->Ok_0, index, limit),
        fetch_shows(r, tar_source(Format::TarBz2, data@)->Ok_0, index, limit),
{
    let mut archive = tar::Archive::new(bzip2_rs::DecoderReader::new(data));
    match archive.entries().map_err(|e| e.to_string())?.nth(index) {
        Some(entry) => {
            let mut out = Vec::new();
            let mut limited = entry.map_err(|e| e.to_string())?.take(limit);
            limited.read_to_end(&mut out).map_err(|e| e.to_string())?;
            Ok(Some(out))
        }
        None => Ok(None),
    }
}

} // verus!
