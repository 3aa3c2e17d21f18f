//! The archive layer as a resolution layer over a byte window: [`ArchiveOpener`]
//! says whether a window begins a packing layer, and opens a whole one into a
//! decoded stream or a table of members.
//!
//! Detection here is by magic alone: the opener never sees a file name, so a
//! compressed tar opens as a stream whose decoded tar is opened again.

use crate::archive::{listing, member_content, Archive, EntryModel};
use crate::detect::{format_of, sniff, Format};
use crate::error::{ArchiveError, ErrorModel};
use crate::execute::copy_window;
use crate::peel::{peel_bytes, wrapped_content, PeelOutcome, MAX_INFLATED};
use vstd::prelude::*;
use vstd::slice::{slice_subrange, slice_to_vec};
use vstd::utf8::encode_utf8;

verus! {

broadcast use vstd::seq::group_seq_axioms;

/// How many of the offending bytes a failure carries: enough to identify a magic.
pub const HEAD_BYTES: usize = 16;

/// The archive layer as an opener. It has no state.
#[derive(Debug, Default, Clone, Copy)]
pub struct ArchiveOpener;

/// An in-memory source of bytes with positioned reads: a decoded stream or one
/// extracted member.
#[derive(Debug)]
pub struct BytesSource {
    bytes: Vec<u8>,
}

/// One file member of an opened archive.
#[derive(Debug)]
pub struct Member {
    /// The recorded name, as bytes.
    pub name: Vec<u8>,
    /// The member's bytes.
    pub source: BytesSource,
}

/// What an archive layer opens to.
#[derive(Debug)]
pub enum ArchiveContents {
    /// The one stream inside a bare wrapper.
    Stream(BytesSource),
    /// The file members of an archive, in table order.
    Members(Vec<Member>),
}

/// A failure to open a layer, with the bytes that it began with.
#[derive(Debug)]
pub struct LayerError {
    /// The layer that failed.
    pub layer: &'static str,
    /// Where in the data it failed.
    pub offset: u64,
    /// What went wrong.
    pub detail: String,
    /// The first bytes of the data.
    pub bytes: Vec<u8>,
}

// ---------------------------------------------------------------------------
// Models

impl View for BytesSource {
    type V = Seq<u8>;

    closed spec fn view(&self) -> Seq<u8> {
        self.bytes@
    }
}

/// What an archive layer opens to, with names and bytes as sequences.
#[verifier::ext_equal]
pub enum ContentsModel {
    Stream(Seq<u8>),
    Members(Seq<(Seq<u8>, Seq<u8>)>),
}

/// The models of a sequence of members: name and content.
pub open spec fn member_models(members: Seq<Member>) -> Seq<(Seq<u8>, Seq<u8>)> {
    members.map_values(|m: Member| (m.name@, m.source@))
}

impl View for ArchiveContents {
    type V = ContentsModel;

    open spec fn view(&self) -> ContentsModel {
        match *self {
            ArchiveContents::Stream(source) => ContentsModel::Stream(source@),
            ArchiveContents::Members(members) => ContentsModel::Members(member_models(members@)),
        }
    }
}

/// The first bytes of `data`.
pub open spec fn head_bytes(data: Seq<u8>) -> Seq<u8> {
    if data.len() <= HEAD_BYTES {
        data
    } else {
        data.take(HEAD_BYTES as int)
    }
}

impl LayerError {
    /// The failure is one of the archive layer over `data`, with this detail.
    pub open spec fn says(&self, data: Seq<u8>, detail: Seq<char>) -> bool {
        &&& self.layer@ == "archive"@
        &&& self.offset == 0
        &&& self.detail@ == detail
        &&& self.bytes@ == head_bytes(data)
    }
}

/// How a format was recognized, where it is one.
pub open spec fn recognized_by(format: Format) -> Option<Seq<char>> {
    match format {
        Format::Unknown => None,
        Format::Gzip => Some("archive: gzip magic (1f 8b)"@),
        Format::Bzip2 => Some("archive: bzip2 magic (BZh)"@),
        Format::Zip => Some("archive: zip magic (PK\\x03\\x04)"@),
        Format::SevenZip => Some("archive: 7z magic (37 7a bc af 27 1c)"@),
        Format::Tar => Some("archive: ustar magic (offset 257)"@),
        Format::TarGz | Format::TarBz2 => Some("archive: compressed-tar magic"@),
    }
}

/// The file members among the first `n` entries: name and content, or the error of
/// the first one that cannot be read.
pub open spec fn members_of(
    format: Format,
    data: Seq<u8>,
    table: Seq<EntryModel>,
    n: nat,
) -> core::result::Result<Seq<(Seq<u8>, Seq<u8>)>, ErrorModel>
    decreases n,
{
    if n == 0 {
        Ok(Seq::empty())
    } else {
        match members_of(format, data, table, (n - 1) as nat) {
            Ok(rest) => if table[n - 1].is_dir {
                Ok(rest)
            } else {
                match member_content(format, data, table, (n - 1) as usize, MAX_INFLATED) {
                    Ok(bytes) => Ok(rest.push((encode_utf8(table[n - 1].name), bytes))),
                    Err(e) => Err(e),
                }
            },
            Err(e) => Err(e),
        }
    }
}

/// What opening `data` comes to: the contents, or the detail of the failure.
pub open spec fn contents_of(data: Seq<u8>) -> core::result::Result<ContentsModel, Seq<char>> {
    let format = format_of(None, data);
    if format.wraps_one() {
        match wrapped_content(format, data, MAX_INFLATED)->Some_0 {
            Ok(inner) => Ok(ContentsModel::Stream(inner)),
            Err(e) => Err(e.message()),
        }
    } else if format.holds_members() {
        match listing(format, data) {
            Ok(table) => match members_of(
                format,
                data,
                table->Some_0,
                table->Some_0.len(),
            ) {
                Ok(members) => Ok(ContentsModel::Members(members)),
                Err(e) => Err(e.message()),
            },
            Err(e) => Err(e.message()),
        }
    } else {
        Err("not a recognized archive layer"@)
    }
}

/// What a probe declines, an open refuses; what a probe accepts is a wrapper or an
/// archive.
pub proof fn probed_layers_are_recognized(data: Seq<u8>)
    ensures
        recognized_by(format_of(None, data)) is None ==> contents_of(data) == Err::<
            ContentsModel,
            Seq<char>,
        >("not a recognized archive layer"@),
        recognized_by(format_of(None, data)) is Some <==> (format_of(None, data).wraps_one()
            || format_of(None, data).holds_members()),
{
}

// ---------------------------------------------------------------------------
// Executable forms

impl BytesSource {
    /// Wrap owned bytes.
    pub fn new(bytes: Vec<u8>) -> (r: BytesSource)
        ensures
            r@ == bytes@,
    {
        BytesSource { bytes }
    }

    /// The length in bytes.
    #[must_use]
    pub fn len(&self) -> (r: u64)
        ensures
            r == self@.len(),
    {
        self.bytes.len() as u64
    }

    /// Whether there are no bytes.
    #[must_use]
    pub fn is_empty(&self) -> (r: bool)
        ensures
            r == (self@.len() == 0),
    {
        self.bytes.len() == 0
    }

    /// Read the bytes at `offset` into the front of `buf`. Past the end nothing is
    /// read.
    pub fn read_at(&self, offset: u64, buf: &mut [u8]) -> (n: usize)
        ensures
            n as nat == if offset >= self@.len() {
                0
            } else if old(buf)@.len() < self@.len() - offset {
                old(buf)@.len()
            } else {
                (self@.len() - offset) as nat
            },
            final(buf)@ == if n == 0 {
                old(buf)@
            } else {
                self@.subrange(offset as int, offset + n) + old(buf)@.skip(n as int)
            },
    {
        let total: usize = self.bytes.len();
        if offset >= total as u64 {
            return 0;
        }
        let start: usize = offset as usize;
        let n: usize = if total - start < buf.len() {
            total - start
        } else {
            buf.len()
        };
        if n == 0 {
            return 0;
        }
        copy_window(&self.bytes, start, n, buf);
        n
    }
}

/// The first bytes of `data`.
fn first_of(data: &[u8]) -> (r: Vec<u8>)
    ensures
        r@ == head_bytes(data@),
{
    if data.len() <= HEAD_BYTES {
        slice_to_vec(data)
    } else {
        slice_to_vec(slice_subrange(data, 0, HEAD_BYTES))
    }
}

/// An archive failure as the failure of the layer over `data`, with the offending
/// head bytes attached.
pub fn decode_err(data: &[u8], err: &ArchiveError) -> (r: LayerError)
    ensures
        r.says(data@, err@.message()),
{
    LayerError { layer: "archive", offset: 0, detail: err.message(), bytes: first_of(data) }
}

/// The failure for input that is no archive layer.
pub fn not_archive(data: &[u8]) -> (r: LayerError)
    ensures
        r.says(data@, "not a recognized archive layer"@),
{
    LayerError {
        layer: "archive",
        offset: 0,
        detail: "not a recognized archive layer".to_owned(),
        bytes: first_of(data),
    }
}

proof fn members_stop_at_error(
    format: Format,
    data: Seq<u8>,
    table: Seq<EntryModel>,
    n: nat,
    all: nat,
)
    requires
        n <= all,
    ensures
        members_of(format, data, table, n) is Err ==> members_of(format, data, table, all)
            == members_of(format, data, table, n),
    decreases all,
{
    if n < all {
        members_stop_at_error(format, data, table, n, (all - 1) as nat);
    }
}

/// The file members of an archive, each read whole.
fn read_members(archive: &mut Archive) -> (r: core::result::Result<Vec<Member>, ArchiveError>)
    requires
        old(archive).wf(),
    ensures
        match r {
            Ok(members) => members_of(
                old(archive).kind(),
                old(archive).source(),
                old(archive).table(),
                old(archive).table().len(),
            ) == Ok::<Seq<(Seq<u8>, Seq<u8>)>, ErrorModel>(member_models(members@)),
            Err(e) => members_of(
                old(archive).kind(),
                old(archive).source(),
                old(archive).table(),
                old(archive).table().len(),
            ) == Err::<Seq<(Seq<u8>, Seq<u8>)>, ErrorModel>(e@),
        },
{
    let ghost format = archive.kind();
    let ghost data = archive.source();
    let ghost table = archive.table();
    let count: usize = archive.entries().len();
    let mut members: Vec<Member> = Vec::new();
    let mut i: usize = 0;
    assert(member_models(members@) =~= Seq::<(Seq<u8>, Seq<u8>)>::empty());
    while i < count
        invariant
            i <= count,
            count == table.len(),
            archive.wf(),
            archive.kind() == format,
            archive.source() == data,
            archive.table() == table,
            format == old(archive).kind(),
            data == old(archive).source(),
            table == old(archive).table(),
            members_of(format, data, table, i as nat) == Ok::<
                Seq<(Seq<u8>, Seq<u8>)>,
                ErrorModel,
            >(member_models(members@)),
        decreases count - i,
    {
        proof {
            members_stop_at_error(format, data, table, (i + 1) as nat, count as nat);
        }
        let is_dir: bool = archive.entries()[i].is_dir;
        assert(is_dir == table[i as int].is_dir);
        // A directory has no bytes; only file members are opened again.
        if !is_dir {
            let name: Vec<u8> = archive.entries()[i].name.as_str().as_bytes_vec();
            assert(name@ == encode_utf8(table[i as int].name));
            match archive.read(i) {
                Ok(bytes) => {
                    let ghost before = members@;
                    let ghost row = (name@, bytes@);
                    members.push(Member { name, source: BytesSource::new(bytes) });
                    assert(member_models(members@) =~= member_models(before).push(row));
                },
                Err(e) => {
                    return Err(e);
                },
            }
        }
        i = i + 1;
    }
    Ok(members)
}

impl ArchiveOpener {
    /// A new opener.
    #[must_use]
    pub fn new() -> (r: ArchiveOpener)
        ensures
            r == ArchiveOpener,
    {
        ArchiveOpener
    }

    /// How the packing layer that begins with `window` is recognized, or nothing
    /// where it is none. Only bytes count.
    pub fn probe(&self, window: &[u8]) -> (r: Option<&'static str>)
        ensures
            match r {
                Some(how) => recognized_by(format_of(None, window@)) == Some(how@),
                None => recognized_by(format_of(None, window@)) is None,
            },
    {
        match sniff(None, window) {
            Format::Unknown => None,
            Format::Gzip => Some("archive: gzip magic (1f 8b)"),
            Format::Bzip2 => Some("archive: bzip2 magic (BZh)"),
            Format::Zip => Some("archive: zip magic (PK\\x03\\x04)"),
            Format::SevenZip => Some("archive: 7z magic (37 7a bc af 27 1c)"),
            Format::Tar => Some("archive: ustar magic (offset 257)"),
            Format::TarGz | Format::TarBz2 => Some("archive: compressed-tar magic"),
        }
    }

    /// Open the whole layer in `data`: a bare wrapper to its one decoded stream, an
    /// archive to its file members.
    ///
    /// # Errors
    /// A [`LayerError`] with the offending head bytes where a layer fails, and for
    /// input that is no archive layer.
    pub fn open(&self, data: &[u8]) -> (r: core::result::Result<ArchiveContents, LayerError>)
        ensures
            match r {
                Ok(contents) => contents_of(data@) == Ok::<ContentsModel, Seq<char>>(contents@),
                Err(e) => contents_of(data@) is Err && e.says(data@, contents_of(data@)->Err_0),
            },
    {
        let format: Format = sniff(None, data);
        if format.is_compression_wrapper() {
            return match peel_bytes(data, None) {
                Ok(PeelOutcome::Peeled { format: _, inner }) => Ok(
                    ArchiveContents::Stream(BytesSource::new(inner)),
                ),
                Ok(PeelOutcome::NotPacked) => Err(not_archive(data)),
                Err(e) => Err(decode_err(data, &e)),
            };
        }
        if format.is_archive() {
            let mut archive: Archive = match Archive::open(data, None) {
                Ok(Some(archive)) => archive,
                Ok(None) => {
                    return Err(not_archive(data));
                },
                Err(e) => {
                    return Err(decode_err(data, &e));
                },
            };
            return match read_members(&mut archive) {
                Ok(members) => Ok(ArchiveContents::Members(members)),
                Err(e) => Err(decode_err(data, &e)),
            };
        }
        Err(not_archive(data))
    }
}

// ---------------------------------------------------------------------------
// Gathering a source by positioned reads

/// The bytes gathered so far from a source of known length that may read short.
#[derive(Debug)]
pub struct Gather {
    want: u64,
    bytes: Vec<u8>,
}

impl Gather {
    /// How long the source is.
    pub closed spec fn wanted(&self) -> u64 {
        self.want
    }

    /// What has come in.
    pub closed spec fn gathered(&self) -> Seq<u8> {
        self.bytes@
    }

    /// Nothing gathered yet of a source of `want` bytes.
    pub fn new(want: u64) -> (r: Gather)
        ensures
            r.wanted() == want,
            r.gathered() == Seq::<u8>::empty(),
    {
        Gather { want, bytes: Vec::new() }
    }

    /// Where to read next, or nothing where everything has come in.
    pub fn next_offset(&self) -> (r: Option<u64>)
        ensures
            match r {
                Some(offset) => offset == self.gathered().len() && offset < self.wanted(),
                None => self.gathered().len() >= self.wanted(),
            },
    {
        let have: u64 = self.bytes.len() as u64;
        if have < self.want {
            Some(have)
        } else {
            None
        }
    }

    /// Take in what a read at the next offset gave, as far as it is wanted. An
    /// empty read ends the gathering: `false` is returned.
    pub fn accept(&mut self, chunk: &[u8]) -> (r: bool)
        requires
            old(self).gathered().len() < old(self).wanted(),
        ensures
            final(self).wanted() == old(self).wanted(),
            final(self).gathered() == old(self).gathered() + chunk@.take(
                if chunk@.len() < old(self).wanted() - old(self).gathered().len() {
                    chunk@.len() as int
                } else {
                    old(self).wanted() - old(self).gathered().len()
                },
            ),
            r == (chunk@.len() > 0),
    {
        let have: u64 = self.bytes.len() as u64;
        let room: u64 = self.want - have;
        let n: usize = if (chunk.len() as u64) < room {
            chunk.len()
        } else {
            room as usize
        };
        let mut taken: Vec<u8> = slice_to_vec(slice_subrange(chunk, 0, n));
        self.bytes.append(&mut taken);
        assert(chunk@.subrange(0, n as int) =~= chunk@.take(n as int));
        chunk.len() > 0
    }

    /// The gathered bytes.
    pub fn finish(self) -> (r: Vec<u8>)
        ensures
            r@ == self.gathered(),
    {
        self.bytes
    }
}

} // verus!
