//! Phase two of two-phase access: the peel executors behind an
//! [`crate::plan::AccessPlan`]. They hand the inner evidence back as a seekable
//! source:
//!
//! - an in-place access is a zero-copy [`SubRange`] over the shared archive bytes;
//! - every other access is decoded once into a [`TempBacked`] source.
//!
//! Every extraction is capped at `limits.max_total_inflated` and fails loud with
//! [`ArchiveError::TooLarge`] past it.

use crate::archive::{
    access_of, in_place, listing, member_content, member_extracts, Archive, EntryModel,
};
use crate::detect::Format;
use crate::error::{bytes_model, ArchiveError, ErrorModel, Result};
use crate::peel::{decode_bzip2, decode_gzip, wrapped_content};
use crate::plan::{codec_format, detect, plan_of, Access, AccessPlan, Codec, PlanModel};
use crate::resolve::Limits;
use crate::text::{append_decimal, decimal};
use std::sync::Arc;
use vstd::prelude::*;

verus! {

broadcast use vstd::seq::group_seq_axioms;

// ---------------------------------------------------------------------------
// Seekable sources

/// Where to move a source's position.
#[derive(Debug, Clone, Copy, PartialEq, Eq, Structural)]
pub enum SeekFrom {
    /// To this offset.
    Start(u64),
    /// To this distance from the end.
    End(i64),
    /// To this distance from the current position.
    Current(i64),
}

/// A seek to a position before the start or past what 64 bits hold.
#[derive(Debug, Clone, Copy, PartialEq, Eq, Structural)]
pub struct SeekOutOfRange;

impl SeekOutOfRange {
    /// The one-line message of the error.
    pub fn message(&self) -> (r: &'static str)
        ensures
            r@ == "seek position out of range"@,
    {
        "seek position out of range"
    }
}

/// `base` moved by `off`.
pub open spec fn moved(base: u64, off: i64) -> Option<u64> {
    if 0 <= base + off <= u64::MAX {
        Some((base + off) as u64)
    } else {
        None
    }
}

/// The position that a seek asks for.
pub open spec fn seek_target(from: SeekFrom, position: u64, extent: u64) -> Option<u64> {
    match from {
        SeekFrom::Start(offset) => Some(offset),
        SeekFrom::End(offset) => moved(extent, offset),
        SeekFrom::Current(offset) => moved(position, offset),
    }
}

/// `target`, or the end where it lies past it.
pub open spec fn clamped(target: Option<u64>, extent: u64) -> Option<u64> {
    match target {
        Some(t) => Some(
            if t <= extent {
                t
            } else {
                extent
            },
        ),
        None => None,
    }
}

/// How many bytes are left at a position.
pub open spec fn bytes_left(contents: Seq<u8>, position: u64) -> nat {
    if position < contents.len() {
        (contents.len() - position) as nat
    } else {
        0
    }
}

/// `buf` with its first `n` bytes replaced by those of `contents` at `position`.
pub open spec fn filled(buf: Seq<u8>, contents: Seq<u8>, position: u64, n: int) -> Seq<u8> {
    if n == 0 {
        buf
    } else {
        contents.subrange(position as int, position + n) + buf.skip(n)
    }
}

/// The position `n` bytes further on, as far as 64 bits reach.
pub open spec fn advanced(position: u64, n: nat) -> u64 {
    if position + n > u64::MAX {
        u64::MAX
    } else {
        (position + n) as u64
    }
}

/// A seekable byte source: what every peeled handle offers, whatever stands behind
/// it.
pub trait ReadSeek {
    /// All the bytes of the source.
    spec fn contents(&self) -> Seq<u8>;

    /// The position that the next read starts at.
    spec fn position(&self) -> u64;

    /// The end that end-relative seeks count from.
    spec fn extent(&self) -> u64;

    /// The source is in order.
    spec fn valid(&self) -> bool;

    /// Read bytes at the position into the front of `buf` and move past them. At
    /// the end, or for an empty `buf`, nothing is read.
    fn read(&mut self, buf: &mut [u8]) -> (n: usize)
        requires
            old(self).valid(),
        ensures
            final(self).valid(),
            final(self).contents() == old(self).contents(),
            final(self).extent() == old(self).extent(),
            final(self).position() == advanced(old(self).position(), n as nat),
            n <= old(buf)@.len(),
            n <= bytes_left(old(self).contents(), old(self).position()),
            n == 0 <==> old(buf)@.len() == 0 || old(self).position() >= old(self).extent(),
            final(buf)@ == filled(old(buf)@, old(self).contents(), old(self).position(), n as int),
    ;

    /// Move the position, and return where it is.
    fn seek(&mut self, from: SeekFrom) -> (r: core::result::Result<u64, SeekOutOfRange>)
        requires
            old(self).valid(),
        ensures
            final(self).valid(),
            final(self).contents() == old(self).contents(),
            final(self).extent() == old(self).extent(),
            r is Ok <==> seek_target(from, old(self).position(), old(self).extent()) is Some,
            match r {
                Ok(p) => final(self).position() == p,
                Err(_) => final(self).position() == old(self).position(),
            },
    ;
}

/// Add a signed offset to a base position, failing on under- or overflow.
pub fn offset_from(base: u64, off: i64) -> (r: core::result::Result<u64, SeekOutOfRange>)
    ensures
        match r {
            Ok(p) => moved(base, off) == Some(p),
            Err(_) => moved(base, off) is None,
        },
{
    match base.checked_add_signed(off) {
        Some(p) => Ok(p),
        None => Err(SeekOutOfRange),
    }
}

/// The position that a seek asks for.
pub fn target_of(from: SeekFrom, position: u64, extent: u64) -> (r: core::result::Result<
    u64,
    SeekOutOfRange,
>)
    ensures
        match r {
            Ok(p) => seek_target(from, position, extent) == Some(p),
            Err(_) => seek_target(from, position, extent) is None,
        },
{
    match from {
        SeekFrom::Start(offset) => Ok(offset),
        SeekFrom::End(offset) => offset_from(extent, offset),
        SeekFrom::Current(offset) => offset_from(position, offset),
    }
}

/// Copy `n` bytes of `data` from `from` on into the front of `buf`.
pub(crate) fn copy_window(data: &Vec<u8>, from: usize, n: usize, buf: &mut [u8])
    requires
        from + n <= data@.len(),
        n <= old(buf)@.len(),
    ensures
        final(buf)@ == data@.subrange(from as int, from + n) + old(buf)@.skip(n as int),
{
    let mut i: usize = 0;
    assert(data@.subrange(from as int, from as int) + old(buf)@.skip(0) =~= buf@);
    while i < n
        invariant
            i <= n,
            from + n <= data.len(),
            n <= old(buf)@.len(),
            buf@ == data@.subrange(from as int, from + i) + old(buf)@.skip(i as int),
        decreases n - i,
    {
        buf[i] = data[from + i];
        i = i + 1;
        assert(buf@ =~= data@.subrange(from as int, from + i) + old(buf)@.skip(i as int));
    }
}

/// A zero-copy, seekable window over shared bytes. Reading never decompresses, and
/// never copies the member into a second buffer.
#[derive(Debug)]
pub struct SubRange {
    data: Arc<Vec<u8>>,
    start: u64,
    len: u64,
    pos: u64,
}

/// The text of the failure to window `[offset, offset + len)` in `size` bytes.
pub open spec fn window_detail(offset: u64, len: u64, size: nat) -> Seq<char> {
    "member window ["@ + decimal(offset as nat) + ", "@ + decimal(offset as nat) + "+"@ + decimal(
        len as nat,
    ) + ") exceeds the "@ + decimal(size) + "-byte source"@
}

/// Whether `[offset, offset + len)` may be windowed in `size` bytes under a cap.
pub open spec fn window_check(
    offset: u64,
    len: u64,
    size: nat,
    cap: u64,
) -> core::result::Result<(), ErrorModel> {
    if len > cap {
        Err(ErrorModel::TooLarge { cap })
    } else if offset + len > u64::MAX || offset + len > size {
        Err(ErrorModel::Read { format: "in-place"@, detail: window_detail(offset, len, size) })
    } else {
        Ok(())
    }
}

impl SubRange {
    /// The bytes that the window lies in.
    pub closed spec fn source(&self) -> Seq<u8> {
        self.data@
    }

    /// Where the window starts.
    pub closed spec fn window_start(&self) -> u64 {
        self.start
    }

    /// Window `data` to `[offset, offset + len)`.
    ///
    /// # Errors
    /// [`ArchiveError::TooLarge`] where `len` exceeds `cap`, or
    /// [`ArchiveError::Read`] where the window falls outside `data`: a lying member
    /// offset or size is never trusted.
    pub fn new(data: Arc<Vec<u8>>, offset: u64, len: u64, cap: u64) -> (r: Result<SubRange>)
        ensures
            match r {
                Ok(sub) => {
                    &&& window_check(offset, len, data@.len(), cap) is Ok
                    &&& sub.valid()
                    &&& sub.source() == data@
                    &&& sub.window_start() == offset
                    &&& sub.extent() == len
                    &&& sub.position() == 0
                    &&& sub.contents() == data@.subrange(offset as int, offset + len)
                },
                Err(e) => window_check(offset, len, data@.len(), cap) == Err::<(), ErrorModel>(
                    e@,
                ),
            },
            r is Ok <==> len <= cap && offset + len <= data@.len(),
            r matches Err(ArchiveError::TooLarge { .. }) <==> len > cap,
    {
        if len > cap {
            return Err(ArchiveError::TooLarge { cap });
        }
        let size: u64 = data.len() as u64;
        let inside: bool = match offset.checked_add(len) {
            Some(end) => end <= size,
            None => false,
        };
        if !inside {
            let mut detail: String = String::new();
            detail.append("member window [");
            append_decimal(&mut detail, offset);
            detail.append(", ");
            append_decimal(&mut detail, offset);
            detail.append("+");
            append_decimal(&mut detail, len);
            detail.append(") exceeds the ");
            append_decimal(&mut detail, size);
            detail.append("-byte source");
            assert(detail@ =~= window_detail(offset, len, data@.len()));
            return Err(ArchiveError::Read { format: "in-place", detail });
        }
        Ok(SubRange { data, start: offset, len, pos: 0 })
    }

    /// The window's absolute start offset in the original bytes.
    #[must_use]
    pub fn offset(&self) -> (r: u64)
        ensures
            r == self.window_start(),
    {
        self.start
    }

    /// The window length in bytes.
    #[must_use]
    pub fn len(&self) -> (r: u64)
        ensures
            r == self.extent(),
    {
        self.len
    }

    /// Whether the window is empty.
    #[must_use]
    pub fn is_empty(&self) -> (r: bool)
        ensures
            r == (self.extent() == 0),
    {
        self.len == 0
    }
}

impl ReadSeek for SubRange {
    closed spec fn contents(&self) -> Seq<u8> {
        self.data@.subrange(self.start as int, self.start + self.len)
    }

    closed spec fn position(&self) -> u64 {
        self.pos
    }

    closed spec fn extent(&self) -> u64 {
        self.len
    }

    closed spec fn valid(&self) -> bool {
        self.start + self.len <= self.data@.len() && self.pos <= self.len
    }

    fn read(&mut self, buf: &mut [u8]) -> (n: usize)
        ensures
            final(self).source() == old(self).source(),
            final(self).window_start() == old(self).window_start(),
            n as nat == if old(buf)@.len() < old(self).extent() - old(self).position() {
                old(buf)@.len()
            } else {
                (old(self).extent() - old(self).position()) as nat
            },
    {
        let size: usize = self.data.len();
        let remaining: u64 = self.len - self.pos;
        let n: usize = if remaining < buf.len() as u64 {
            remaining as usize
        } else {
            buf.len()
        };
        if n == 0 {
            return 0;
        }
        let from: usize = (self.start + self.pos) as usize;
        copy_window(&self.data, from, n, buf);
        proof {
            let window = self.data@.subrange(self.start as int, self.start + self.len);
            assert(window.subrange(self.pos as int, self.pos + n) =~= self.data@.subrange(
                from as int,
                from + n,
            ));
        }
        self.pos = self.pos + n as u64;
        n
    }

    fn seek(&mut self, from: SeekFrom) -> (r: core::result::Result<u64, SeekOutOfRange>)
        ensures
            final(self).source() == old(self).source(),
            final(self).window_start() == old(self).window_start(),
            match r {
                Ok(p) => clamped(
                    seek_target(from, old(self).position(), old(self).extent()),
                    old(self).extent(),
                ) == Some(p),
                Err(_) => true,
            },
    {
        match target_of(from, self.pos, self.len) {
            Ok(target) => {
                // A window is bounded: reads stop at its edge.
                self.pos = if target < self.len {
                    target
                } else {
                    self.len
                };
                Ok(self.pos)
            },
            Err(e) => Err(e),
        }
    }
}

/// A seekable source over a stream that was decoded once.
#[derive(Debug)]
pub struct TempBacked {
    bytes: Vec<u8>,
    pos: u64,
}

impl TempBacked {
    /// A source over decoded bytes, at their start.
    pub fn new(bytes: Vec<u8>) -> (r: TempBacked)
        ensures
            r.valid(),
            r.contents() == bytes@,
            r.extent() == bytes@.len(),
            r.position() == 0,
    {
        assert(bytes.len() == bytes@.len());
        TempBacked { bytes, pos: 0 }
    }

    /// The decoded length, in bytes.
    #[must_use]
    pub fn len(&self) -> (r: u64)
        ensures
            r == self.extent(),
            r == self.contents().len(),
    {
        self.bytes.len() as u64
    }

    /// Whether the decoded stream is empty.
    #[must_use]
    pub fn is_empty(&self) -> (r: bool)
        ensures
            r == (self.contents().len() == 0),
    {
        self.bytes.len() == 0
    }

    /// The decoded bytes, to be written out to a file.
    #[must_use]
    pub fn into_bytes(self) -> (r: Vec<u8>)
        ensures
            r@ == self.contents(),
    {
        self.bytes
    }
}

impl ReadSeek for TempBacked {
    closed spec fn contents(&self) -> Seq<u8> {
        self.bytes@
    }

    closed spec fn position(&self) -> u64 {
        self.pos
    }

    closed spec fn extent(&self) -> u64 {
        self.bytes@.len() as u64
    }

    closed spec fn valid(&self) -> bool {
        self.bytes@.len() <= u64::MAX
    }

    fn read(&mut self, buf: &mut [u8]) -> (n: usize)
        ensures
            n as nat == if old(buf)@.len() < bytes_left(
                old(self).contents(),
                old(self).position(),
            ) {
                old(buf)@.len()
            } else {
                bytes_left(old(self).contents(), old(self).position())
            },
    {
        let size: usize = self.bytes.len();
        if self.pos >= size as u64 {
            return 0;
        }
        let from: usize = self.pos as usize;
        let remaining: usize = size - from;
        let n: usize = if remaining < buf.len() {
            remaining
        } else {
            buf.len()
        };
        if n == 0 {
            return 0;
        }
        copy_window(&self.bytes, from, n, buf);
        self.pos = self.pos + n as u64;
        n
    }

    fn seek(&mut self, from: SeekFrom) -> (r: core::result::Result<u64, SeekOutOfRange>)
        ensures
            match r {
                Ok(p) => seek_target(from, old(self).position(), old(self).extent()) == Some(p),
                Err(_) => true,
            },
    {
        let size: usize = self.bytes.len();
        match target_of(from, self.pos, size as u64) {
            Ok(target) => {
                self.pos = target;
                Ok(target)
            },
            Err(e) => Err(e),
        }
    }
}

/// The peeled inner evidence as a seekable source: a zero-copy window or a decoded
/// stream.
#[derive(Debug)]
#[non_exhaustive]
pub enum PeeledSource {
    /// A zero-copy window over the original bytes.
    InPlace(SubRange),
    /// A stream that was decoded once.
    Temp(TempBacked),
}

impl PeeledSource {
    /// The length of the source, in bytes.
    #[must_use]
    pub fn len(&self) -> (r: u64)
        requires
            self.valid(),
        ensures
            r == self.extent(),
            r == self.contents().len(),
    {
        match self {
            PeeledSource::InPlace(sub) => sub.len(),
            PeeledSource::Temp(temp) => temp.len(),
        }
    }

    /// Whether the source is empty.
    #[must_use]
    pub fn is_empty(&self) -> (r: bool)
        requires
            self.valid(),
        ensures
            r == (self.contents().len() == 0),
    {
        self.len() == 0
    }
}

impl PeeledSource {
    /// The source stands on the same thing as `other`: the same window over the same
    /// bytes, or a decoded stream.
    pub open spec fn stands_as(&self, other: PeeledSource) -> bool {
        match (*self, other) {
            (PeeledSource::InPlace(a), PeeledSource::InPlace(b)) => a.source() == b.source()
                && a.window_start() == b.window_start(),
            (PeeledSource::Temp(_), PeeledSource::Temp(_)) => true,
            _ => false,
        }
    }
}

impl ReadSeek for PeeledSource {
    open spec fn contents(&self) -> Seq<u8> {
        match *self {
            PeeledSource::InPlace(sub) => sub.contents(),
            PeeledSource::Temp(temp) => temp.contents(),
        }
    }

    open spec fn position(&self) -> u64 {
        match *self {
            PeeledSource::InPlace(sub) => sub.position(),
            PeeledSource::Temp(temp) => temp.position(),
        }
    }

    open spec fn extent(&self) -> u64 {
        match *self {
            PeeledSource::InPlace(sub) => sub.extent(),
            PeeledSource::Temp(temp) => temp.extent(),
        }
    }

    open spec fn valid(&self) -> bool {
        match *self {
            PeeledSource::InPlace(sub) => sub.valid(),
            PeeledSource::Temp(temp) => temp.valid(),
        }
    }

    fn read(&mut self, buf: &mut [u8]) -> (n: usize)
        ensures
            final(self).stands_as(*old(self)),
            n as nat == if old(buf)@.len() < bytes_left(
                old(self).contents(),
                old(self).position(),
            ) {
                old(buf)@.len()
            } else {
                bytes_left(old(self).contents(), old(self).position())
            },
    {
        match self {
            PeeledSource::InPlace(sub) => sub.read(buf),
            PeeledSource::Temp(temp) => temp.read(buf),
        }
    }

    fn seek(&mut self, from: SeekFrom) -> (r: core::result::Result<u64, SeekOutOfRange>)
        ensures
            final(self).stands_as(*old(self)),
            match r {
                Ok(p) => Some(p) == match *old(self) {
                    PeeledSource::InPlace(sub) => clamped(
                        seek_target(from, sub.position(), sub.extent()),
                        sub.extent(),
                    ),
                    PeeledSource::Temp(temp) => seek_target(
                        from,
                        temp.position(),
                        temp.extent(),
                    ),
                },
                Err(_) => true,
            },
    {
        match self {
            PeeledSource::InPlace(sub) => sub.seek(from),
            PeeledSource::Temp(temp) => temp.seek(from),
        }
    }
}

// ---------------------------------------------------------------------------
// Executors

/// The outcome of the seekable peel.
#[derive(Debug)]
#[non_exhaustive]
pub enum PeelSource {
    /// Not a wrapped or single-member image (a collection, a split set or a raw
    /// stream): open the source directly.
    NotPacked,
    /// One peeled stream, or the single extracted archive member.
    Inner(PeeledSource),
}

/// What a peeled source is made of.
#[verifier::ext_equal]
pub enum SourceModel {
    /// A window over the original bytes.
    InPlace { offset: u64, len: u64 },
    /// Decoded bytes.
    Temp { bytes: Seq<u8> },
}

impl SourceModel {
    /// The bytes that the source reads as, over the original `data`.
    pub open spec fn reads_as(self, data: Seq<u8>) -> Seq<u8> {
        match self {
            SourceModel::InPlace { offset, len } => data.subrange(offset as int, offset + len),
            SourceModel::Temp { bytes } => bytes,
        }
    }
}

impl PeeledSource {
    /// The source is a fresh one over `data`, made as `model` says.
    pub open spec fn is_fresh(&self, data: Seq<u8>, model: SourceModel) -> bool {
        &&& self.valid()
        &&& self.position() == 0
        &&& self.contents() == model.reads_as(data)
        &&& match *self {
            PeeledSource::InPlace(sub) => sub.source() == data && model == (SourceModel::InPlace {
                offset: sub.window_start(),
                len: sub.extent(),
            }),
            PeeledSource::Temp(temp) => model is Temp,
        }
    }
}

/// A peeled source was made as expected.
pub open spec fn sourced_as(
    r: Result<PeeledSource>,
    data: Seq<u8>,
    expected: core::result::Result<SourceModel, ErrorModel>,
) -> bool {
    match r {
        Ok(source) => expected matches Ok(model) && source.is_fresh(data, model),
        Err(e) => expected == Err::<SourceModel, ErrorModel>(e@),
    }
}

/// Decoded bytes as a source.
pub open spec fn temp_source(
    content: core::result::Result<Seq<u8>, ErrorModel>,
) -> core::result::Result<SourceModel, ErrorModel> {
    match content {
        Ok(bytes) => Ok(SourceModel::Temp { bytes }),
        Err(e) => Err(e),
    }
}

/// Member `index` of the archive in `data`, decoded under a cap.
pub open spec fn decoded_member(
    format: Format,
    data: Seq<u8>,
    index: usize,
    cap: u64,
) -> core::result::Result<Seq<u8>, ErrorModel> {
    match listing(format, data) {
        Ok(Some(table)) => member_content(format, data, table, index, cap),
        Ok(None) => Err(ErrorModel::Open { format: "archive"@, detail: "not an archive format"@ }),
        Err(e) => Err(e),
    }
}

/// The source of member `index` under its access and a cap.
pub open spec fn member_source(
    format: Format,
    data: Seq<u8>,
    index: usize,
    access: Access,
    cap: u64,
) -> core::result::Result<SourceModel, ErrorModel> {
    match access {
        Access::InPlace { offset, len } => match window_check(offset, len, data.len(), cap) {
            Ok(_) => Ok(SourceModel::InPlace { offset, len }),
            Err(e) => Err(e),
        },
        _ => temp_source(decoded_member(format, data, index, cap)),
    }
}

/// The seekable peel of data with the given plan: nothing where it is not one
/// wrapped image.
pub open spec fn peeled_by_plan(plan: PlanModel, data: Seq<u8>, limits: Limits) -> Option<
    core::result::Result<SourceModel, ErrorModel>,
> {
    match plan {
        PlanModel::Wrapper { codec, .. } => Some(
            temp_source(
                wrapped_content(codec_format(codec), data, limits.max_total_inflated)->Some_0,
            ),
        ),
        PlanModel::Member { format, index, access, .. } => Some(
            member_source(format, data, index, access, limits.max_total_inflated),
        ),
        _ => None,
    }
}

/// The seekable peel was made as expected.
pub open spec fn peeled_as(r: Result<PeelSource>, data: Seq<u8>, limits: Limits) -> bool {
    match plan_of(data) {
        Ok(plan) => match peeled_by_plan(plan, data, limits) {
            Some(expected) => match r {
                Ok(PeelSource::Inner(source)) => sourced_as(Ok(source), data, expected),
                Ok(PeelSource::NotPacked) => false,
                Err(e) => sourced_as(Err(e), data, expected),
            },
            None => r matches Ok(PeelSource::NotPacked),
        },
        Err(e) => r matches Err(error) && error@ == e,
    }
}

/// A peeled source reads as the member that extraction gives, window or decode.
pub proof fn peeled_member_is_the_extracted_one(
    format: Format,
    data: Seq<u8>,
    table: Seq<EntryModel>,
    index: usize,
    access: Access,
    cap: u64,
    content: Seq<u8>,
    model: SourceModel,
)
    requires
        listing(format, data) == Ok::<Option<Seq<EntryModel>>, ErrorModel>(Some(table)),
        access_of(format, data, table.len(), index) == Ok::<Access, ErrorModel>(access),
        member_extracts(format, data, table, index, content),
        member_source(format, data, index, access, cap) == Ok::<SourceModel, ErrorModel>(model),
    ensures
        model.reads_as(data) == content,
{
    match access {
        Access::InPlace { offset, len } => {
            assert(in_place(offset, len) == access_of(format, data, table.len(), index));
        },
        _ => {
            assert(member_content(format, data, table, index, cap) is Ok);
        },
    }
}

/// Decode member `index` of the archive in `data`, capped.
pub fn decode_member(format: Format, data: &[u8], index: usize, cap: u64) -> (r: Result<Vec<u8>>)
    ensures
        bytes_model(r) == decoded_member(format, data@, index, cap),
{
    let mut archive: Archive = match Archive::open_with_format(format, data) {
        Ok(Some(archive)) => archive,
        Ok(None) => {
            return Err(
                ArchiveError::Open {
                    format: "archive",
                    detail: "not an archive format".to_owned(),
                },
            );
        },
        Err(e) => {
            return Err(e);
        },
    };
    let mut out: Vec<u8> = Vec::new();
    assert forall|content: Seq<u8>| #[trigger] (Seq::<u8>::empty() + content) == content by {
        assert(Seq::<u8>::empty() + content =~= content);
    }
    match archive.stream_member(index, &mut out, cap) {
        Ok(_) => Ok(out),
        Err(e) => Err(e),
    }
}

/// Execute the access to one member: a window over the shared bytes, or a decode.
///
/// # Errors
/// [`ArchiveError::TooLarge`] past `limits.max_total_inflated`,
/// [`ArchiveError::Read`] for a window outside the data, or the failure to open the
/// archive or to read the member.
pub fn execute_member_access(
    format: Format,
    data: &Arc<Vec<u8>>,
    index: usize,
    access: Access,
    limits: &Limits,
) -> (r: Result<PeeledSource>)
    ensures
        sourced_as(
            r,
            data@,
            member_source(format, data@, index, access, limits.max_total_inflated),
        ),
{
    match access {
        Access::InPlace { offset, len } => match SubRange::new(
            data.clone(),
            offset,
            len,
            limits.max_total_inflated,
        ) {
            Ok(sub) => Ok(PeeledSource::InPlace(sub)),
            Err(e) => Err(e),
        },
        _ => match decode_member(format, data.as_slice(), index, limits.max_total_inflated) {
            Ok(bytes) => Ok(PeeledSource::Temp(TempBacked::new(bytes))),
            Err(e) => Err(e),
        },
    }
}

/// Peel a bare gzip or bzip2 wrapper, or extract the single member of a one-member
/// archive, to a seekable source. Collections, split sets and anything
/// unrecognized are [`PeelSource::NotPacked`]. The route is decided by content
/// alone; the name does not matter.
///
/// # Errors
/// The failure to read the member table, a decode or read failure of the
/// underlying layer, or [`ArchiveError::TooLarge`] where the output exceeds
/// `limits.max_total_inflated`.
pub fn peel_archive_seekable(data: Vec<u8>, _name: Option<&str>, limits: &Limits) -> (r: Result<
    PeelSource,
>)
    ensures
        peeled_as(r, data@, *limits),
        r matches Ok(PeelSource::Inner(source)) ==> source.contents().len()
            <= limits.max_total_inflated,
{
    let cap: u64 = limits.max_total_inflated;
    match detect(data.as_slice()) {
        Ok(AccessPlan::Wrapper { codec, access: _ }) => {
            let content: Result<Vec<u8>> = match codec {
                Codec::Gzip => decode_gzip(data.as_slice(), cap),
                Codec::Bzip2 => decode_bzip2(data.as_slice(), cap),
            };
            match content {
                Ok(bytes) => Ok(PeelSource::Inner(PeeledSource::Temp(TempBacked::new(bytes)))),
                Err(e) => Err(e),
            }
        },
        Ok(AccessPlan::Member { format, index, name: _, access }) => {
            let shared: Arc<Vec<u8>> = Arc::new(data);
            match execute_member_access(format, &shared, index, access, limits) {
                Ok(source) => Ok(PeelSource::Inner(source)),
                Err(e) => Err(e),
            }
        },
        Ok(_) => Ok(PeelSource::NotPacked),
        Err(e) => Err(e),
    }
}

} // verus!
