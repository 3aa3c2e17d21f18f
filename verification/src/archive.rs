//! Member reading for the archive formats: tar (plain or compressed), zip, 7z.
//!
//! An [`Archive`] lists and extracts members over bytes in memory. Every
//! extraction is capped; a declared member size is never trusted for allocation,
//! and any reader error fails loud.

use crate::backend::codec::{
    bzip2_holds, bzip2_prefix, decoded, first_bytes, gzip_holds, gzip_prefix,
};
use crate::backend::sevenz::{fetch_sevenz, list_sevenz, sevenz_entries, sevenz_member};
use crate::backend::tarball::{
    fetch_shows, fetch_tar, fetch_tar_bzip2, fetch_tar_gzip, fetched, list_tar, list_tar_bzip2,
    list_tar_gzip, listed, tar_entries, tar_member,
};
use crate::backend::zipfile::{
    fetch_zip, lookup, member_count, open_reader, record_decodes, unfaulted, zip_count, zip_decodes,
    zip_directory, zip_member, zip_record, zip_source, zip_window, RecordModel, ZipMethod,
    ZipReader, ZipRecord,
};
use crate::detect::{format_of, sniff, Format};
use crate::error::{bytes_model, result_model, ArchiveError, ErrorModel, Result};
use crate::guard::{zip_archive_fits, zip_fits, zip_refusal};
use crate::inflate::deflate64_stream_fits;
use crate::peel::{check_cap, limit_past, one_past, within_cap, MAX_INFLATED};
use crate::plan::Access;
use crate::tape::{
    check_tar, packed_walk_is_the_plain_one, tar_holds_stream, tar_prefix, tar_source,
};
use crate::text::opt_chars;
use vstd::prelude::*;
use vstd::slice::slice_to_vec;

verus! {

/// One member of an archive.
#[derive(Debug, Clone, PartialEq, Eq)]
pub struct ArchiveEntry {
    /// Member path within the archive, as recorded (evidence, not sanitized).
    pub name: String,
    /// Uncompressed size in bytes, as the archive declares it.
    pub size: u64,
    /// Whether the entry names a directory.
    pub is_dir: bool,
}

/// A listable archive over bytes in memory.
pub struct Archive {
    format: Format,
    entries: Vec<ArchiveEntry>,
    backend: Backend,
}

/// What stands behind an [`Archive`], one variant per reader.
enum Backend {
    /// The still compressed bytes and the outer tar format. Members are listed
    /// and extracted by streaming a fresh decompressor over these bytes.
    Tar { compressed: Vec<u8>, outer: Format },
    /// The ZIP reader over the archive bytes, and of each member whether it can be
    /// handed to its decoder.
    Zip { archive: ZipReader, decodes: Vec<bool> },
    /// The archive bytes, read by the 7z reader.
    SevenZip { bytes: Vec<u8> },
}

// ---------------------------------------------------------------------------
// Models

/// An [`ArchiveEntry`] with its name as characters.
#[verifier::ext_equal]
pub struct EntryModel {
    pub name: Seq<char>,
    pub size: u64,
    pub is_dir: bool,
}

impl View for ArchiveEntry {
    type V = EntryModel;

    open spec fn view(&self) -> EntryModel {
        EntryModel { name: self.name@, size: self.size, is_dir: self.is_dir }
    }
}

/// The models of a sequence of entries.
pub open spec fn entry_models(entries: Seq<ArchiveEntry>) -> Seq<EntryModel> {
    entries.map_values(|e: ArchiveEntry| e@)
}

/// The entries of a tar stream under its outer format.
pub open spec fn tar_table(outer: Format, data: Seq<u8>) -> core::result::Result<
    Seq<EntryModel>,
    Seq<char>,
> {
    match tar_source(outer, data) {
        Ok(stream) => tar_entries(stream),
        Err(detail) => Err(detail),
    }
}

/// At most `limit` bytes of entry `index` of a tar stream under its outer format.
pub open spec fn tar_read(
    outer: Format,
    data: Seq<u8>,
    index: usize,
    limit: u64,
) -> core::result::Result<Option<Seq<u8>>, Seq<char>> {
    match tar_source(outer, data) {
        Ok(stream) => tar_member(stream, index, limit),
        Err(detail) => Err(detail),
    }
}

/// `data` is a tar, compressed as `outer` says, whose whole decompressed stream is
/// `inner`.
pub open spec fn packs_tar(outer: Format, data: Seq<u8>, inner: Seq<u8>) -> bool {
    match outer {
        Format::TarGz => gzip_holds(data, inner),
        Format::TarBz2 => bzip2_holds(data, inner),
        _ => false,
    }
}

/// The listed form of what the ZIP reader says of a member.
pub open spec fn zip_entry(record: RecordModel) -> EntryModel {
    EntryModel { name: record.name, size: record.size, is_dir: record.is_dir }
}

/// The first `n` members of the ZIP archive in `data`, or the error of the first
/// one that cannot be looked up.
pub open spec fn zip_table(data: Seq<u8>, n: nat) -> core::result::Result<
    Seq<EntryModel>,
    Seq<char>,
>
    decreases n,
{
    if n == 0 {
        Ok(Seq::empty())
    } else {
        match zip_table(data, (n - 1) as nat) {
            Ok(rows) => match zip_record(data, (n - 1) as usize) {
                Ok(record) => Ok(rows.push(zip_entry(record))),
                Err(detail) => Err(detail),
            },
            Err(detail) => Err(detail),
        }
    }
}

/// The member table of `data` opened as `format`: nothing where the format is not
/// an archive, the error where the directory does not parse.
pub open spec fn listing(format: Format, data: Seq<u8>) -> core::result::Result<
    Option<Seq<EntryModel>>,
    ErrorModel,
> {
    match format {
        Format::Tar | Format::TarGz | Format::TarBz2 => match tar_table(format, data) {
            Ok(rows) => Ok(Some(rows)),
            Err(detail) => Err(ErrorModel::Open { format: "tar"@, detail }),
        },
        Format::Zip => if zip_fits(data) {
            match zip_directory(data) {
                Ok(_) => match zip_table(data, zip_count(data) as nat) {
                    Ok(rows) => Ok(Some(rows)),
                    Err(detail) => Err(ErrorModel::Open { format: "zip"@, detail }),
                },
                Err(detail) => Err(ErrorModel::Open { format: "zip"@, detail }),
            }
        } else {
            Err(ErrorModel::Open { format: "zip"@, detail: zip_refusal() })
        },
        Format::SevenZip => match sevenz_entries(data) {
            Ok(rows) => Ok(Some(rows)),
            Err(detail) => Err(ErrorModel::Open { format: "7z"@, detail }),
        },
        _ => Ok(None),
    }
}

/// What reading a member under a cap comes to, from what the reader gave.
pub open spec fn read_outcome(
    raw: core::result::Result<Seq<u8>, Seq<char>>,
    format: Seq<char>,
    cap: u64,
) -> core::result::Result<Seq<u8>, ErrorModel> {
    match raw {
        Ok(bytes) => within_cap(bytes, cap),
        Err(detail) => Err(ErrorModel::Read { format, detail }),
    }
}

/// What reading entry `index` of a tar stream under a cap comes to, from what the
/// reader gave.
pub open spec fn tar_outcome(
    raw: core::result::Result<Option<Seq<u8>>, Seq<char>>,
    index: usize,
    cap: u64,
) -> core::result::Result<Seq<u8>, ErrorModel> {
    match raw {
        Ok(Some(bytes)) => within_cap(bytes, cap),
        Ok(None) => Err(ErrorModel::IndexOutOfRange { index, count: index }),
        Err(detail) => Err(ErrorModel::Read { format: "tar"@, detail }),
    }
}

/// Entry `index` of a tar stream, capped.
pub open spec fn tar_content(
    outer: Format,
    data: Seq<u8>,
    index: usize,
    cap: u64,
) -> core::result::Result<Seq<u8>, ErrorModel> {
    tar_outcome(tar_read(outer, data, index, one_past(cap)), index, cap)
}

/// Member `index` of a ZIP archive, capped. One that its decoder cannot be handed is
/// refused.
pub open spec fn zip_content(data: Seq<u8>, index: usize, cap: u64) -> core::result::Result<
    Seq<u8>,
    ErrorModel,
> {
    if zip_decodes(data, index) {
        read_outcome(zip_member(data, index, one_past(cap)), "zip"@, cap)
    } else {
        Err(ErrorModel::Read { format: "zip"@, detail: zip_refusal() })
    }
}

/// The 7z member called `name` whose declared size is `size`, under the fixed cap
/// of an in-memory decode.
pub open spec fn sevenz_content(data: Seq<u8>, name: Seq<char>, size: u64) -> core::result::Result<
    Seq<u8>,
    ErrorModel,
> {
    if size > MAX_INFLATED {
        Err(ErrorModel::TooLarge { cap: MAX_INFLATED })
    } else {
        read_outcome(sevenz_member(data, name), "7z"@, MAX_INFLATED)
    }
}

/// Member `entry`, number `index` in the table, capped.
pub open spec fn entry_content(
    format: Format,
    data: Seq<u8>,
    entry: EntryModel,
    index: usize,
    cap: u64,
) -> core::result::Result<Seq<u8>, ErrorModel> {
    match format {
        Format::Zip => zip_content(data, index, cap),
        Format::SevenZip => match sevenz_content(data, entry.name, entry.size) {
            Ok(bytes) => within_cap(bytes, cap),
            Err(e) => Err(e),
        },
        _ => tar_content(format, data, index, cap),
    }
}

/// Member `index` of an archive with the given table, capped.
pub open spec fn member_content(
    format: Format,
    data: Seq<u8>,
    table: Seq<EntryModel>,
    index: usize,
    cap: u64,
) -> core::result::Result<Seq<u8>, ErrorModel> {
    if index >= table.len() {
        Err(ErrorModel::IndexOutOfRange { index, count: table.len() as usize })
    } else {
        entry_content(format, data, table[index as int], index, cap)
    }
}

/// What streaming member `index` of a ZIP archive under a cap hands to the sink:
/// nothing of a member that is refused, and what is not settled of one whose read
/// fails.
pub open spec fn zip_spill(data: Seq<u8>, index: usize, cap: u64) -> Option<Seq<u8>> {
    if zip_decodes(data, index) {
        match zip_member(data, index, one_past(cap)) {
            Ok(bytes) => Some(bytes),
            Err(_) => None,
        }
    } else {
        Some(Seq::empty())
    }
}

/// What streaming member `index` under a cap hands to the sink. A tar or ZIP
/// member over the cap has been copied as far as the byte that shows it; a 7z member
/// is handed over whole or not at all. `None` for a ZIP member whose read fails: how
/// much of it was read by then is not settled.
pub open spec fn member_spill(
    format: Format,
    data: Seq<u8>,
    table: Seq<EntryModel>,
    index: usize,
    cap: u64,
) -> Option<Seq<u8>> {
    if index >= table.len() {
        Some(Seq::empty())
    } else {
        match format {
            Format::Zip => zip_spill(data, index, cap),
            Format::SevenZip => match entry_content(
                format,
                data,
                table[index as int],
                index,
                cap,
            ) {
                Ok(bytes) => Some(bytes),
                Err(_) => Some(Seq::empty()),
            },
            _ => match tar_read(format, data, index, one_past(cap)) {
                Ok(Some(bytes)) => Some(bytes),
                _ => Some(Seq::empty()),
            },
        }
    }
}

/// A sink that held `before` holds `after` once `spill` was handed to it: what it
/// held stays in front, and what follows is the spill, or, where that is not
/// settled, no more than the cap and one byte.
pub open spec fn spilled_onto(
    before: Seq<u8>,
    after: Seq<u8>,
    spill: Option<Seq<u8>>,
    cap: u64,
) -> bool {
    match spill {
        Some(bytes) => after == before + bytes,
        None => {
            &&& before.is_prefix_of(after)
            &&& after.len() <= before.len() + one_past(cap)
        },
    }
}

/// A streamed member's count agrees with its content.
pub open spec fn count_model(
    r: Result<u64>,
    content: core::result::Result<Seq<u8>, ErrorModel>,
) -> bool {
    match r {
        Ok(n) => content matches Ok(bytes) && n == bytes.len(),
        Err(e) => content == Err::<Seq<u8>, ErrorModel>(e@),
    }
}

/// The most seekable access that a ZIP member's record allows.
pub open spec fn record_access(record: RecordModel) -> Access {
    match record.method {
        ZipMethod::Stored => Access::InPlace {
            offset: record.data_start,
            len: record.compressed_size,
        },
        ZipMethod::Deflated | ZipMethod::Deflate64 => Access::Zran,
        _ => Access::SpillToTemp,
    }
}

/// The most seekable access to member `index` of an archive of `count` members.
pub open spec fn access_of(
    format: Format,
    data: Seq<u8>,
    count: nat,
    index: usize,
) -> core::result::Result<Access, ErrorModel> {
    if index >= count {
        Err(ErrorModel::IndexOutOfRange { index, count: count as usize })
    } else if format is Zip {
        match zip_record(data, index) {
            Ok(record) => Ok(record_access(record)),
            Err(detail) => Err(ErrorModel::Read { format: "zip"@, detail }),
        }
    } else {
        Ok(Access::SpillToTemp)
    }
}

/// Member `index` holds `content`: read under any cap, exactly `content` comes
/// back, or a loud failure where `content` is over the cap.
pub open spec fn member_holds(
    format: Format,
    data: Seq<u8>,
    table: Seq<EntryModel>,
    index: usize,
    content: Seq<u8>,
) -> bool {
    forall|cap: u64| #[trigger]
        member_content(format, data, table, index, cap) == (if content.len() <= cap {
            Ok::<Seq<u8>, ErrorModel>(content)
        } else {
            Err(ErrorModel::TooLarge { cap })
        })
}

/// A successful in-place access.
pub open spec fn in_place(offset: u64, len: u64) -> core::result::Result<Access, ErrorModel> {
    Ok(Access::InPlace { offset, len })
}

/// Member `index` extracts to `content`: it holds `content`, and where it can be
/// windowed in place, the window is `content`.
pub open spec fn member_extracts(
    format: Format,
    data: Seq<u8>,
    table: Seq<EntryModel>,
    index: usize,
    content: Seq<u8>,
) -> bool {
    &&& member_holds(format, data, table, index, content)
    &&& forall|offset: u64, len: u64|
        (#[trigger] in_place(offset, len)) == access_of(format, data, table.len(), index) && offset
            + len <= data.len() ==> content == data.subrange(offset as int, offset + len)
}

impl Archive {
    /// The archive's format.
    pub closed spec fn kind(&self) -> Format {
        self.format
    }

    /// The bytes that the archive was opened on.
    pub closed spec fn source(&self) -> Seq<u8> {
        match self.backend {
            Backend::Tar { compressed, outer } => compressed@,
            Backend::Zip { archive, decodes } => zip_source(archive),
            Backend::SevenZip { bytes } => bytes@,
        }
    }

    /// The member table.
    pub closed spec fn table(&self) -> Seq<EntryModel> {
        entry_models(self.entries@)
    }

    /// The reader fits the format.
    pub closed spec fn reader_fits(&self) -> bool {
        match self.backend {
            Backend::Tar { compressed, outer } => outer == self.format && (self.format is Tar
                || self.format is TarGz || self.format is TarBz2),
            Backend::Zip { archive, decodes } => self.format is Zip && decodes@.len()
                == self.entries@.len() && forall|i: int|
                0 <= i < decodes@.len() ==> #[trigger] decodes@[i] == zip_decodes(
                    zip_source(archive),
                    i as usize,
                ),
            Backend::SevenZip { .. } => self.format is SevenZip,
        }
    }

    /// The archive is one that [`Archive::open`] gives: its reader fits its
    /// format, and its table is the listing of its bytes.
    pub open spec fn wf(&self) -> bool {
        &&& self.reader_fits()
        &&& self.kind().holds_members()
        &&& self.table().len() <= usize::MAX
        &&& listing(self.kind(), self.source()) == Ok::<Option<Seq<EntryModel>>, ErrorModel>(
            Some(self.table()),
        )
    }
}

/// What opening `data` as `format` gave: the archive over `data`, nothing where
/// the format is not an archive, or the listing's error.
pub open spec fn opened_as(r: Result<Option<Archive>>, format: Format, data: Seq<u8>) -> bool {
    match r {
        Ok(Some(archive)) => archive.wf() && archive.kind() == format && archive.source() == data,
        Ok(None) => listing(format, data) == Ok::<Option<Seq<EntryModel>>, ErrorModel>(None),
        Err(e) => listing(format, data) == Err::<Option<Seq<EntryModel>>, ErrorModel>(e@),
    }
}

// ---------------------------------------------------------------------------
// Laws

/// An archive format lists or fails; any other format is no archive.
pub proof fn only_archives_list(format: Format, data: Seq<u8>)
    ensures
        listing(format, data) == Ok::<Option<Seq<EntryModel>>, ErrorModel>(None)
            <==> !format.holds_members(),
{
}

/// The outer compression of a tar is transparent: a tar packed in a stream that
/// decodes whole lists as the plain tar does, and its members read the same.
pub proof fn packed_tar_is_the_plain_one(
    outer: Format,
    data: Seq<u8>,
    inner: Seq<u8>,
    index: usize,
    cap: u64,
)
    requires
        packs_tar(outer, data, inner),
    ensures
        listing(outer, data) == listing(Format::Tar, inner),
        tar_content(outer, data, index, cap) == tar_content(Format::Tar, inner, index, cap),
{
    assert(tar_holds_stream(outer, data, inner)) by {
        assert forall|n: u64| #[trigger] tar_prefix(outer, data, n) == Ok::<Seq<u8>, Seq<char>>(
            first_bytes(inner, n),
        ) by {
            if outer is TarGz {
                assert(gzip_prefix(data, n) is Ok);
            } else {
                assert(bzip2_prefix(data, n) is Ok);
            }
        }
    }
    packed_walk_is_the_plain_one(outer, data, inner);
}

/// In a listed ZIP archive every member in range can be looked up again.
pub proof fn listed_zip_members_have_records(data: Seq<u8>, n: nat, index: int)
    requires
        zip_table(data, n) is Ok,
        0 <= index < n,
    ensures
        zip_table(data, n)->Ok_0.len() == n,
        zip_record(data, index as usize) is Ok,
        zip_table(data, n)->Ok_0[index] == zip_entry(zip_record(data, index as usize)->Ok_0),
    decreases n,
{
    if index < n - 1 {
        listed_zip_members_have_records(data, (n - 1) as nat, index);
    } else if n > 1 {
        listed_zip_members_have_records(data, (n - 1) as nat, 0);
    }
}

/// The access to a member of a listed archive is always known: it fails only for
/// an index out of range.
pub proof fn access_fails_only_out_of_range(format: Format, data: Seq<u8>, index: usize)
    requires
        format.holds_members(),
        listing(format, data) is Ok,
        listing(format, data)->Ok_0 is Some,
    ensures
        ({
            let table = listing(format, data)->Ok_0->Some_0;
            access_of(format, data, table.len(), index) is Ok <==> index < table.len()
        }),
{
    let table = listing(format, data)->Ok_0->Some_0;
    if format is Zip && index < table.len() {
        let n = zip_count(data) as nat;
        if n > 0 {
            listed_zip_members_have_records(data, n, 0);
            listed_zip_members_have_records(data, n, index as int);
        }
    }
}

// ---------------------------------------------------------------------------
// Executable forms

/// List a tar stream under its outer format.
fn list_tar_stream(compressed: &[u8], outer: Format) -> (r: core::result::Result<
    Vec<ArchiveEntry>,
    String,
>)
    requires
        tar_source(outer, compressed@) is Ok,
    ensures
        listed(r) == tar_table(outer, compressed@),
{
    match outer {
        Format::TarGz => list_tar_gzip(compressed),
        Format::TarBz2 => list_tar_bzip2(compressed),
        _ => {
            proof {
                packed_walk_is_the_plain_one(outer, compressed@, compressed@);
            }
            list_tar(compressed)
        },
    }
}

/// Read at most `limit` bytes of entry `index` of a tar stream under its outer
/// format, walking the stream from its start.
fn fetch_tar_stream(compressed: &[u8], outer: Format, index: usize, limit: u64) -> (r:
    core::result::Result<Option<Vec<u8>>, String>)
    requires
        tar_source(outer, compressed@) is Ok,
    ensures
        fetched(r) == tar_member(tar_source(outer, compressed@)->Ok_0, index, limit),
        fetch_shows(r, tar_source(outer, compressed@)->Ok_0, index, limit),
{
    match outer {
        Format::TarGz => fetch_tar_gzip(compressed, index, limit),
        Format::TarBz2 => fetch_tar_bzip2(compressed, index, limit),
        _ => {
            proof {
                packed_walk_is_the_plain_one(outer, compressed@, compressed@);
            }
            fetch_tar(compressed, index, limit)
        },
    }
}

/// Turn what the tar reader gave under the limit of `cap` into the capped member.
pub fn finish_tar(
    raw: core::result::Result<Option<Vec<u8>>, String>,
    index: usize,
    cap: u64,
) -> (r: Result<Vec<u8>>)
    ensures
        bytes_model(r) == tar_outcome(fetched(raw), index, cap),
{
    match raw {
        Ok(Some(bytes)) => check_cap(bytes, cap),
        Ok(None) => Err(ArchiveError::IndexOutOfRange { index, count: index }),
        Err(detail) => Err(ArchiveError::Read { format: "tar", detail }),
    }
}

/// Turn what a member reader gave under the limit of `cap` into the capped member.
pub fn finish_read(
    raw: core::result::Result<Vec<u8>, String>,
    format: &'static str,
    cap: u64,
) -> (r: Result<Vec<u8>>)
    ensures
        bytes_model(r) == read_outcome(decoded(raw), format@, cap),
{
    match raw {
        Ok(bytes) => check_cap(bytes, cap),
        Err(detail) => Err(ArchiveError::Read { format, detail }),
    }
}

/// Read entry `index` of a tar stream that can be walked, capped.
fn read_tar_member(compressed: &[u8], outer: Format, index: usize, cap: u64) -> (r: Result<
    Vec<u8>,
>)
    requires
        tar_source(outer, compressed@) is Ok,
    ensures
        bytes_model(r) == tar_content(outer, compressed@, index, cap),
        r matches Ok(out) ==> out@.len() <= cap,
        r matches Ok(out) ==> out@.len() < u64::MAX ==> forall|other: u64| #[trigger]
            tar_content(outer, compressed@, index, other) == within_cap(out@, other),
        r matches Err(ArchiveError::IndexOutOfRange { .. }) ==> (tar_table(
            outer,
            compressed@,
        ) matches Ok(rows) ==> rows.len() <= index),
{
    let raw: core::result::Result<Option<Vec<u8>>, String> = fetch_tar_stream(
        compressed,
        outer,
        index,
        limit_past(cap),
    );
    proof {
        if let Ok(Some(ref out)) = raw {
            if out@.len() <= cap && out@.len() < u64::MAX {
                assert forall|other: u64| #[trigger] tar_content(
                    outer,
                    compressed@,
                    index,
                    other,
                ) == within_cap(out@, other) by {
                    assert(tar_member(
                        tar_source(outer, compressed@)->Ok_0,
                        index,
                        one_past(other),
                    ) is Ok);
                }
            }
        }
    }
    finish_tar(raw, index, cap)
}

/// Stream the `index`-th tar member over a fresh decompressor, capped. Only this
/// member is read into memory, never the whole decompressed tar. Tar has no
/// checksum of a member's data.
///
/// # Errors
/// [`ArchiveError::IndexOutOfRange`] where the walk ends before the member,
/// [`ArchiveError::Read`] on a reader failure and for a stream that does not decode
/// as far as the tar goes or that no walk can cover in 64 bits,
/// [`ArchiveError::TooLarge`] past `cap`.
pub fn extract_tar_member_streaming(
    compressed: &[u8],
    outer: Format,
    index: usize,
    cap: u64,
) -> (r: Result<Vec<u8>>)
    ensures
        bytes_model(r) == tar_content(outer, compressed@, index, cap),
        r matches Ok(out) ==> out@.len() <= cap,
        r matches Ok(out) ==> out@.len() < u64::MAX ==> forall|other: u64| #[trigger]
            tar_content(outer, compressed@, index, other) == within_cap(out@, other),
        r matches Err(ArchiveError::IndexOutOfRange { .. }) ==> (tar_table(
            outer,
            compressed@,
        ) matches Ok(rows) ==> rows.len() <= index),
{
    match check_tar(compressed, outer) {
        Ok(_) => read_tar_member(compressed, outer, index, cap),
        Err(detail) => Err(ArchiveError::Read { format: "tar", detail }),
    }
}

/// Extract the `index`-th ZIP member, capped. The reader verifies the checksum at
/// the member's end and fails loud on a mismatch.
fn read_zip_member(archive: &mut ZipReader, decodes: bool, index: usize, cap: u64) -> (r: Result<
    Vec<u8>,
>)
    requires
        zip_fits(zip_source(*old(archive))),
        decodes == zip_decodes(zip_source(*old(archive)), index),
    ensures
        zip_source(*final(archive)) == zip_source(*old(archive)),
        bytes_model(r) == zip_content(zip_source(*old(archive)), index, cap),
        r matches Ok(out) ==> out@.len() <= cap,
        r matches Ok(out) ==> out@.len() < u64::MAX ==> forall|other: u64| #[trigger]
            zip_content(zip_source(*old(archive)), index, other) == within_cap(out@, other),
        r matches Ok(out) ==> out@.len() < u64::MAX ==> forall|start: int, end: int|
            zip_window(zip_source(*old(archive)), index, start, end) ==> out@
                == #[trigger] zip_source(*old(archive)).subrange(start, end),
{
    let ghost data = zip_source(*archive);
    if !decodes {
        return Err(
            ArchiveError::Read {
                format: "zip",
                detail: "zip member runs past its reader".to_owned(),
            },
        );
    }
    let (out, fault): (Vec<u8>, Option<String>) = fetch_zip(archive, index, limit_past(cap));
    proof {
        if fault is None && out@.len() <= cap && out@.len() < u64::MAX {
            assert forall|other: u64| #[trigger] zip_content(
                data,
                index,
                other,
            ) == within_cap(out@, other) by {
                assert(zip_member(data, index, one_past(other)) is Ok);
            }
        }
    }
    match fault {
        Some(detail) => Err(ArchiveError::Read { format: "zip", detail }),
        None => check_cap(out, cap),
    }
}

/// Extract a 7z member by name. The declared size is held against the cap before
/// decoding and the output length after it; an unsupported codec is a loud
/// [`ArchiveError::Read`] with the reader's diagnostic.
fn read_7z_member(bytes: &[u8], name: &str, declared_size: u64) -> (r: Result<Vec<u8>>)
    ensures
        bytes_model(r) == sevenz_content(bytes@, name@, declared_size),
        r matches Ok(out) ==> out@.len() <= MAX_INFLATED,
{
    if declared_size > MAX_INFLATED {
        return Err(ArchiveError::TooLarge { cap: MAX_INFLATED });
    }
    finish_read(fetch_sevenz(bytes, name), "7z", MAX_INFLATED)
}

/// Append what a member reader gave under the limit of `cap` to `out`, be it cut
/// short by an error or not, and return how much that was. The limit lies one byte
/// past the cap, so an over-cap member is detected and fails loud, never silently
/// cut.
pub fn copy_capped(
    bytes: Vec<u8>,
    fault: Option<String>,
    out: &mut Vec<u8>,
    cap: u64,
    format: &'static str,
) -> (r: Result<u64>)
    ensures
        final(out)@ == old(out)@ + bytes@,
        count_model(r, read_outcome(unfaulted((bytes, fault)), format@, cap)),
{
    let n: u64 = bytes.len() as u64;
    let mut bytes: Vec<u8> = bytes;
    out.append(&mut bytes);
    match fault {
        Some(detail) => Err(ArchiveError::Read { format, detail }),
        None => if n > cap {
            Err(ArchiveError::TooLarge { cap })
        } else {
            Ok(n)
        },
    }
}

/// Stream the `index`-th tar member into `out`, capped. The stream decodes as far as
/// the tar goes, so a walk can fail before the member but not inside it.
fn stream_tar_member(
    compressed: &[u8],
    outer: Format,
    index: usize,
    out: &mut Vec<u8>,
    cap: u64,
) -> (r: Result<u64>)
    requires
        tar_source(outer, compressed@) is Ok,
    ensures
        final(out)@ == match tar_read(outer, compressed@, index, one_past(cap)) {
            Ok(Some(bytes)) => old(out)@ + bytes,
            _ => old(out)@,
        },
        count_model(r, tar_content(outer, compressed@, index, cap)),
        r matches Err(ArchiveError::IndexOutOfRange { .. }) ==> (tar_table(
            outer,
            compressed@,
        ) matches Ok(rows) ==> rows.len() <= index),
{
    match fetch_tar_stream(compressed, outer, index, limit_past(cap)) {
        Ok(Some(bytes)) => copy_capped(bytes, None, out, cap, "tar"),
        Ok(None) => Err(ArchiveError::IndexOutOfRange { index, count: index }),
        Err(detail) => Err(ArchiveError::Read { format: "tar", detail }),
    }
}

/// Stream the `index`-th ZIP member into `out`, capped.
fn stream_zip_member(
    archive: &mut ZipReader,
    decodes: bool,
    index: usize,
    out: &mut Vec<u8>,
    cap: u64,
) -> (r: Result<u64>)
    requires
        zip_fits(zip_source(*old(archive))),
        decodes == zip_decodes(zip_source(*old(archive)), index),
    ensures
        zip_source(*final(archive)) == zip_source(*old(archive)),
        spilled_onto(
            old(out)@,
            final(out)@,
            zip_spill(zip_source(*old(archive)), index, cap),
            cap,
        ),
        count_model(r, zip_content(zip_source(*old(archive)), index, cap)),
{
    if !decodes {
        assert(out@ + Seq::<u8>::empty() =~= out@);
        return Err(
            ArchiveError::Read {
                format: "zip",
                detail: "zip member runs past its reader".to_owned(),
            },
        );
    }
    let (bytes, fault): (Vec<u8>, Option<String>) = fetch_zip(archive, index, limit_past(cap));
    copy_capped(bytes, fault, out, cap, "zip")
}

/// Whether the member with this record can be handed to its decoder.
fn is_decodable(data: &[u8], record: &ZipRecord) -> (r: bool)
    ensures
        r == record_decodes(data@, record@),
{
    let len: usize = data.len();
    match record.method {
        ZipMethod::Deflate64 => {
            if record.data_start >= len as u64 {
                return true;
            }
            let at: usize = record.data_start as usize;
            let stop: usize = if record.compressed_size < (len - at) as u64 {
                at + record.compressed_size as usize
            } else {
                len
            };
            deflate64_stream_fits(data, at, stop)
        },
        _ => true,
    }
}

impl Archive {
    /// Open `data` as one of the archive formats; `Ok(None)` where it is not an
    /// archive (a bare wrapper or unrecognized input). `name` is an optional
    /// file-name hint.
    ///
    /// # Errors
    /// [`ArchiveError::Open`] where the archive directory cannot be parsed. A tar
    /// is listed by streaming, in bounded memory, as far as it goes, so an outer
    /// compression layer that is malformed up to there shows here. So does an archive
    /// whose declared sizes or offsets would carry a reader past its integers.
    pub fn open(data: &[u8], name: Option<&str>) -> (r: Result<Option<Archive>>)
        ensures
            opened_as(r, format_of(opt_chars(name), data@), data@),
    {
        Self::open_with_format(sniff(name, data), data)
    }

    /// Open `data` under an already determined `format`; `Ok(None)` where `format`
    /// is not an archive.
    ///
    /// # Errors
    /// As [`Archive::open`].
    pub fn open_with_format(format: Format, data: &[u8]) -> (r: Result<Option<Archive>>)
        ensures
            opened_as(r, format, data@),
    {
        let opened: Result<Archive> = match format {
            Format::Tar | Format::TarGz | Format::TarBz2 => Self::open_tar(
                format,
                slice_to_vec(data),
            ),
            Format::Zip => Self::open_zip(data),
            Format::SevenZip => Self::open_7z(slice_to_vec(data)),
            _ => {
                return Ok(None);
            },
        };
        match opened {
            Ok(archive) => Ok(Some(archive)),
            Err(e) => Err(e),
        }
    }

    /// Build a tar archive over the still compressed bytes, listing the members by
    /// streaming.
    fn open_tar(outer: Format, compressed: Vec<u8>) -> (r: Result<Archive>)
        requires
            outer is Tar || outer is TarGz || outer is TarBz2,
        ensures
            match r {
                Ok(archive) => opened_as(Ok(Some(archive)), outer, compressed@),
                Err(e) => opened_as(Err(e), outer, compressed@),
            },
    {
        if let Err(detail) = check_tar(compressed.as_slice(), outer) {
            return Err(ArchiveError::Open { format: "tar", detail });
        }
        match list_tar_stream(compressed.as_slice(), outer) {
            Ok(entries) => {
                assert(entries.len() == entry_models(entries@).len());
                Ok(Archive { format: outer, entries, backend: Backend::Tar { compressed, outer } })
            },
            Err(detail) => Err(ArchiveError::Open { format: "tar", detail }),
        }
    }

    /// Build a ZIP archive, listing the members one by one.
    fn open_zip(data: &[u8]) -> (r: Result<Archive>)
        ensures
            match r {
                Ok(archive) => opened_as(Ok(Some(archive)), Format::Zip, data@),
                Err(e) => opened_as(Err(e), Format::Zip, data@),
            },
    {
        let ghost bytes = data@;
        if !zip_archive_fits(data) {
            return Err(
                ArchiveError::Open {
                    format: "zip",
                    detail: "zip member runs past its reader".to_owned(),
                },
            );
        }
        let mut archive: ZipReader = match open_reader(slice_to_vec(data)) {
            Ok(archive) => archive,
            Err(detail) => {
                return Err(ArchiveError::Open { format: "zip", detail });
            },
        };
        let count: usize = member_count(&archive);
        let mut entries: Vec<ArchiveEntry> = Vec::new();
        let mut decodes: Vec<bool> = Vec::new();
        let mut i: usize = 0;
        assert(entry_models(entries@) =~= Seq::<EntryModel>::empty());
        while i < count
            invariant
                i <= count,
                bytes == data@,
                count == zip_count(bytes),
                zip_source(archive) == bytes,
                zip_fits(bytes),
                zip_directory(bytes) is Ok,
                entries@.len() == i,
                decodes@.len() == i,
                forall|j: int|
                    0 <= j < i ==> #[trigger] decodes@[j] == zip_decodes(bytes, j as usize),
                zip_table(bytes, i as nat) == Ok::<Seq<EntryModel>, Seq<char>>(
                    entry_models(entries@),
                ),
            decreases count - i,
        {
            match lookup(&mut archive, i) {
                Ok(record) => {
                    let ghost before = entries@;
                    decodes.push(is_decodable(data, &record));
                    entries.push(
                        ArchiveEntry {
                            name: record.name,
                            size: record.size,
                            is_dir: record.is_dir,
                        },
                    );
                    assert(entry_models(entries@) =~= entry_models(before).push(
                        zip_entry(record@),
                    ));
                },
                Err(detail) => {
                    proof {
                        assert(zip_record(bytes, i) == Err::<RecordModel, Seq<char>>(detail@));
                        assert(zip_table(bytes, (i + 1) as nat) is Err);
                        zip_table_stops_at_error(bytes, (i + 1) as nat, count as nat);
                    }
                    return Err(ArchiveError::Open { format: "zip", detail });
                },
            }
            i = i + 1;
        }
        Ok(Archive { format: Format::Zip, entries, backend: Backend::Zip { archive, decodes } })
    }

    /// Build a 7z archive.
    fn open_7z(bytes: Vec<u8>) -> (r: Result<Archive>)
        ensures
            match r {
                Ok(archive) => opened_as(Ok(Some(archive)), Format::SevenZip, bytes@),
                Err(e) => opened_as(Err(e), Format::SevenZip, bytes@),
            },
    {
        match list_sevenz(bytes.as_slice()) {
            Ok(entries) => {
                assert(entries.len() == entry_models(entries@).len());
                Ok(
                    Archive {
                        format: Format::SevenZip,
                        entries,
                        backend: Backend::SevenZip { bytes },
                    },
                )
            },
            Err(detail) => Err(ArchiveError::Open { format: "7z", detail }),
        }
    }

    /// The archive's format.
    #[must_use]
    pub fn format(&self) -> (r: Format)
        ensures
            r == self.kind(),
    {
        self.format
    }

    /// The archive's member list, in archive order.
    #[must_use]
    pub fn entries(&self) -> (r: &[ArchiveEntry])
        ensures
            entry_models(r@) == self.table(),
    {
        self.entries.as_slice()
    }

    /// The most seekable [`Access`] for member `index`, chosen from the member
    /// table without decompressing. A stored ZIP member is an in-place window, a
    /// deflated one can be seek-indexed; every other codec, and tar and 7z
    /// members, decompress once.
    ///
    /// # Errors
    /// [`ArchiveError::IndexOutOfRange`] for a bad index.
    pub fn member_access(&mut self, index: usize) -> (r: Result<Access>)
        requires
            old(self).wf(),
        ensures
            final(self).wf(),
            final(self).kind() == old(self).kind(),
            final(self).source() == old(self).source(),
            final(self).table() == old(self).table(),
            result_model(r) == access_of(
                old(self).kind(),
                old(self).source(),
                old(self).table().len(),
                index,
            ),
            r is Ok <==> index < old(self).table().len(),
    {
        proof {
            access_fails_only_out_of_range(self.kind(), self.source(), index);
        }
        let count: usize = self.entries.len();
        if index >= count {
            return Err(ArchiveError::IndexOutOfRange { index, count });
        }
        match &mut self.backend {
            Backend::Zip { archive, decodes: _ } => match lookup(archive, index) {
                Ok(record) => Ok(
                    match record.method {
                        ZipMethod::Stored => Access::InPlace {
                            offset: record.data_start,
                            len: record.compressed_size,
                        },
                        ZipMethod::Deflated | ZipMethod::Deflate64 => Access::Zran,
                        _ => Access::SpillToTemp,
                    },
                ),
                Err(detail) => Err(ArchiveError::Read { format: "zip", detail }),
            },
            _ => Ok(Access::SpillToTemp),
        }
    }

    /// Extract the bytes of the member at `index`, capped at [`MAX_INFLATED`].
    ///
    /// # Errors
    /// [`ArchiveError::IndexOutOfRange`] for a bad index, [`ArchiveError::Read`]
    /// on a reader failure, [`ArchiveError::TooLarge`] past the cap.
    pub fn read(&mut self, index: usize) -> (r: Result<Vec<u8>>)
        requires
            old(self).wf(),
        ensures
            final(self).wf(),
            final(self).kind() == old(self).kind(),
            final(self).source() == old(self).source(),
            final(self).table() == old(self).table(),
            bytes_model(r) == member_content(
                old(self).kind(),
                old(self).source(),
                old(self).table(),
                index,
                MAX_INFLATED,
            ),
            r matches Ok(out) ==> out@.len() <= MAX_INFLATED,
            r matches Ok(out) ==> member_extracts(
                old(self).kind(),
                old(self).source(),
                old(self).table(),
                index,
                out@,
            ),
            r matches Err(ArchiveError::IndexOutOfRange { .. }) <==> index >= old(
                self,
            ).table().len(),
    {
        let count: usize = self.entries.len();
        if index >= count {
            return Err(ArchiveError::IndexOutOfRange { index, count });
        }
        let name: String = self.entries[index].name.clone();
        let declared_size: u64 = self.entries[index].size;
        match &mut self.backend {
            Backend::Tar { compressed, outer } => read_tar_member(
                compressed.as_slice(),
                *outer,
                index,
                MAX_INFLATED,
            ),
            Backend::Zip { archive, decodes } => read_zip_member(
                archive,
                decodes[index],
                index,
                MAX_INFLATED,
            ),
            Backend::SevenZip { bytes } => read_7z_member(
                bytes.as_slice(),
                name.as_str(),
                declared_size,
            ),
        }
    }

    /// Stream the bytes of member `index` into `out`, capped at `cap`, and return
    /// how many there were. What `out` held stays in front; where a ZIP member's
    /// read fails, what was read of it follows. How much that is, is not stated.
    ///
    /// # Errors
    /// [`ArchiveError::IndexOutOfRange`] for a bad index, [`ArchiveError::Read`]
    /// on a reader failure, [`ArchiveError::TooLarge`] past `cap`.
    pub fn stream_member(&mut self, index: usize, out: &mut Vec<u8>, cap: u64) -> (r: Result<u64>)
        requires
            old(self).wf(),
        ensures
            final(self).wf(),
            final(self).kind() == old(self).kind(),
            final(self).source() == old(self).source(),
            final(self).table() == old(self).table(),
            count_model(
                r,
                member_content(
                    old(self).kind(),
                    old(self).source(),
                    old(self).table(),
                    index,
                    cap,
                ),
            ),
            spilled_onto(
                old(out)@,
                final(out)@,
                member_spill(
                    old(self).kind(),
                    old(self).source(),
                    old(self).table(),
                    index,
                    cap,
                ),
                cap,
            ),
            r is Ok ==> (member_content(
                old(self).kind(),
                old(self).source(),
                old(self).table(),
                index,
                cap,
            ) matches Ok(bytes) && final(out)@ == old(out)@ + bytes),
            r matches Err(ArchiveError::IndexOutOfRange { .. }) <==> index >= old(
                self,
            ).table().len(),
    {
        assert(out@ + Seq::<u8>::empty() =~= out@);
        let count: usize = self.entries.len();
        if index >= count {
            return Err(ArchiveError::IndexOutOfRange { index, count });
        }
        let name: String = self.entries[index].name.clone();
        let declared_size: u64 = self.entries[index].size;
        match &mut self.backend {
            Backend::Tar { compressed, outer } => stream_tar_member(
                compressed.as_slice(),
                *outer,
                index,
                out,
                cap,
            ),
            Backend::Zip { archive, decodes } => stream_zip_member(
                archive,
                decodes[index],
                index,
                out,
                cap,
            ),
            Backend::SevenZip { bytes } => {
                let mut content: Vec<u8> = match read_7z_member(
                    bytes.as_slice(),
                    name.as_str(),
                    declared_size,
                ) {
                    Ok(content) => content,
                    Err(e) => {
                        return Err(e);
                    },
                };
                if content.len() as u64 > cap {
                    return Err(ArchiveError::TooLarge { cap });
                }
                let n: u64 = content.len() as u64;
                out.append(&mut content);
                Ok(n)
            },
        }
    }
}

proof fn zip_table_stops_at_error(data: Seq<u8>, n: nat, count: nat)
    requires
        zip_table(data, n) is Err,
        n <= count,
    ensures
        zip_table(data, count) == zip_table(data, n),
    decreases count,
{
    if n < count {
        zip_table_stops_at_error(data, n, (count - 1) as nat);
    }
}

} // verus!
