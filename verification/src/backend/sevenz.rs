//! The `sevenz-rust2` reader. Decoding runs on one thread, so that what comes
//! back does not depend on how many the machine has. The reader reports exhausted
//! memory as an error: that outcome lies outside what is claimed of it.

use super::codec::decoded;
use super::tarball::listed;
use crate::archive::{ArchiveEntry, EntryModel};
use vstd::prelude::*;

verus! {

/// The entries of the 7z archive in `data`, in archive order.
pub uninterp spec fn sevenz_entries(data: Seq<u8>) -> Result<Seq<EntryModel>, Seq<char>>;

/// The content of the entry called `name` of the 7z archive in `data`.
pub uninterp spec fn sevenz_member(data: Seq<u8>, name: Seq<char>) -> Result<Seq<u8>, Seq<char>>;

/// List a 7z archive with `sevenz_rust2::ArchiveReader::new` and `archive`,
/// mapping each file record to its name, its size and whether it is a directory.
///
/// Claimed of the reader: the list, or the text of the header's error, depends on
/// the bytes alone. What the entries are is left to the reader.
#[verifier::external_body]
pub(crate) fn list_sevenz(data: &[u8]) -> (r: Result<Vec<ArchiveEntry>, String>)
    ensures
        listed(r) == sevenz_entries(data@),
{
    let source = std::io::Cursor::new(data);
    let reader = sevenz_rust2::ArchiveReader::new(source, sevenz_rust2::Password::empty());
    let reader = reader.map_err(|e| e.to_string())?;
    let rows = reader.archive().files.iter().map(|f| ArchiveEntry {
        name: f.name.clone(),
        size: f.size,
        is_dir: f.is_directory,
    });
    Ok(rows.collect())
}

/// Read the entry called `name` with `sevenz_rust2::ArchiveReader::read_file`,
/// decoding on one thread.
///
/// Claimed of the reader: the content, or the text of the error, depends on the
/// bytes and the name alone. What the content is, and that the last of several
/// entries of one name is the one read, is left to the reader.
#[verifier::external_body]
pub(crate) fn fetch_sevenz(data: &[u8], name: &str) -> (r: Result<Vec<u8>, String>)
    ensures
        decoded(r) == sevenz_member(data@, name@),
{
    let source = std::io::Cursor::new(data);
    let reader = sevenz_rust2::ArchiveReader::new(source, sevenz_rust2::Password::empty());
    let mut reader = reader.map_err(|e| e.to_string())?;
    reader.set_thread_count(1);
    reader.read_file(name).map_err(|e| e.to_string())
}

} // verus!
