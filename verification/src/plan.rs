//! Phase one of two-phase access: content-authoritative, name-free
//! classification. [`detect`] reads only bounded decompressed heads and the
//! archive's own member table, never a payload, and returns the most direct
//! [`AccessPlan`] route to the evidence.

use crate::archive::{
    access_of, entry_models, listing, Archive, ArchiveEntry, EntryModel,
};
use crate::backend::codec::{bzip2_prefix, first_bytes, gzip_prefix};
use crate::detect::{format_of, format_reads_a_bounded_head, sniff, Format};
use crate::error::{ArchiveError, ErrorModel, Result};
use crate::order::{in_order, in_order_sorts, key_order, merge_sort, Key};
use crate::peel::{inflate_bzip2, inflate_gzip, wraps};
use crate::text::{
    chars_of, extension_chars, has_suffix, is_digit, lower, lower_char, lower_chars_of,
    numeral_u64, parse_from, rfind, rfind_chars,
};
use vstd::prelude::*;

verus! {

broadcast use vstd::seq::group_seq_axioms;

/// Bounded decompressed head peeked per compression layer. It reaches the deepest
/// packing magic, the tar signature.
pub const HEAD_PEEK: u64 = 512;

/// The access strategy for one member or segment, chosen from the archive's
/// member table without decompressing, most seekable first.
#[derive(Debug, Clone, Copy, PartialEq, Eq, Structural)]
#[non_exhaustive]
pub enum Access {
    /// Stored member: seek a zero-copy sub-range in place.
    InPlace {
        /// Offset of the member's first data byte in the archive.
        offset: u64,
        /// Length of the window in the archive, in bytes.
        len: u64,
    },
    /// Deflate, Deflate64 or gzip: a codec that a checkpoint index can seek in.
    Zran,
    /// A non-seekable codec, or a format that exposes no offset in the archive:
    /// decompress once.
    SpillToTemp,
}

/// The bare compression codec of an [`AccessPlan::Wrapper`].
#[derive(Debug, Clone, Copy, PartialEq, Eq, Structural)]
#[non_exhaustive]
pub enum Codec {
    /// gzip (`1F 8B`).
    Gzip,
    /// bzip2 (`BZh`).
    Bzip2,
}

/// How a segmented set's members reassemble into one logical image.
#[derive(Debug, Clone, Copy, PartialEq, Eq, Structural)]
#[non_exhaustive]
pub enum SegmentKind {
    /// EWF `.E01`, `.E02` (also `.Ex01`, `.s01`), ordered by segment number.
    Ewf,
    /// Raw split `.001`, `.002`, ordered by the numeric suffix.
    SplitRaw,
    /// Split VMDK `<base>-s001.vmdk`, ordered by the `-sNNN` index.
    SplitVmdk,
}

/// One member of an [`AccessPlan::SegmentSet`], with its own access strategy.
#[derive(Debug, Clone, PartialEq, Eq)]
pub struct Segment {
    /// Member name within the archive (the ordering signal of a split set).
    pub name: String,
    /// The member's index in the archive's table.
    pub index: usize,
    /// This segment's most seekable access strategy.
    pub access: Access,
}

/// The classified, most direct route from packed bytes to the evidence.
#[derive(Debug, Clone, PartialEq, Eq)]
#[non_exhaustive]
pub enum AccessPlan {
    /// Uncompressed, non-archive stream: open as it is.
    Direct,
    /// A bare gzip or bzip2 wrapper over a single stream.
    Wrapper {
        /// The outer compression codec.
        codec: Codec,
        /// Access strategy for the single wrapped stream.
        access: Access,
    },
    /// Exactly one file member inside an archive.
    Member {
        /// The archive format the member lives in.
        format: Format,
        /// The member's index in the archive table.
        index: usize,
        /// The member's recorded name.
        name: String,
        /// The member's most seekable access strategy.
        access: Access,
    },
    /// A segmented image: one logical stream.
    SegmentSet {
        /// The archive format the segments live in.
        format: Format,
        /// The segments, ordered by segment number.
        members: Vec<Segment>,
        /// How the segments reassemble.
        kind: SegmentKind,
    },
    /// Several independent members: a tree, each resolved on its own.
    Collection {
        /// The archive format.
        format: Format,
    },
}

// ---------------------------------------------------------------------------
// Models

/// A [`Segment`] with its name as characters.
#[verifier::ext_equal]
pub struct SegmentModel {
    pub name: Seq<char>,
    pub index: usize,
    pub access: Access,
}

impl View for Segment {
    type V = SegmentModel;

    open spec fn view(&self) -> SegmentModel {
        SegmentModel { name: self.name@, index: self.index, access: self.access }
    }
}

/// The models of a sequence of segments.
pub open spec fn segment_models(members: Seq<Segment>) -> Seq<SegmentModel> {
    members.map_values(|s: Segment| s@)
}

/// An [`AccessPlan`] with its names as characters.
#[verifier::ext_equal]
pub enum PlanModel {
    Direct,
    Wrapper { codec: Codec, access: Access },
    Member { format: Format, index: usize, name: Seq<char>, access: Access },
    SegmentSet { format: Format, members: Seq<SegmentModel>, kind: SegmentKind },
    Collection { format: Format },
}

impl View for AccessPlan {
    type V = PlanModel;

    open spec fn view(&self) -> PlanModel {
        match *self {
            AccessPlan::Direct => PlanModel::Direct,
            AccessPlan::Wrapper { codec, access } => PlanModel::Wrapper { codec, access },
            AccessPlan::Member { format, index, name, access } => PlanModel::Member {
                format,
                index,
                name: name@,
                access,
            },
            AccessPlan::SegmentSet { format, members, kind } => PlanModel::SegmentSet {
                format,
                members: segment_models(members@),
                kind,
            },
            AccessPlan::Collection { format } => PlanModel::Collection { format },
        }
    }
}

/// What [`detect`] returned, by views.
pub open spec fn plan_model(r: Result<AccessPlan>) -> core::result::Result<PlanModel, ErrorModel> {
    match r {
        Ok(v) => Ok(v@),
        Err(e) => Err(e@),
    }
}

/// The two digits after an `ex`, `e` or `s` in a lowered extension.
pub open spec fn ewf_digits(ext: Seq<char>) -> Option<Seq<char>> {
    if "ex"@.is_prefix_of(ext) {
        Some(ext.skip(2))
    } else if "e"@.is_prefix_of(ext) || "s"@.is_prefix_of(ext) {
        Some(ext.skip(1))
    } else {
        None
    }
}

/// The EWF segment number of a name: an extension of `e`, `ex` or `s`, in any
/// case, and exactly two digits.
pub open spec fn ewf_number(name: Seq<char>) -> Option<u64> {
    match extension_chars(name) {
        Some(ext) => match ewf_digits(lower(ext)) {
            Some(digits) => if digits.len() == 2 {
                numeral_u64(digits)
            } else {
                None
            },
            None => None,
        },
        None => None,
    }
}

/// The raw-split segment number of a name: an extension of at least two digits and
/// nothing else, whose number fits 64 bits.
pub open spec fn raw_number(name: Seq<char>) -> Option<u64> {
    match extension_chars(name) {
        Some(ext) => if ext.len() >= 2 {
            numeral_u64(ext)
        } else {
            None
        },
        None => None,
    }
}

/// The split-VMDK segment number of a name: in any case, `.vmdk` preceded by digits
/// that follow the last `-s`, whose number fits 64 bits.
pub open spec fn vmdk_number(name: Seq<char>) -> Option<u64> {
    let low = lower(name);
    if ".vmdk"@.is_suffix_of(low) {
        let stem = low.take(low.len() - 5);
        match rfind_chars(stem, "-s"@) {
            Some(at) => if at + 2 < stem.len() {
                numeral_u64(stem.skip(at + 2))
            } else {
                None
            },
            None => None,
        }
    } else {
        None
    }
}

/// The segment number of a name under a kind.
pub open spec fn segment_of(name: Seq<char>, kind: SegmentKind) -> Option<u64> {
    match kind {
        SegmentKind::Ewf => ewf_number(name),
        SegmentKind::SplitRaw => raw_number(name),
        SegmentKind::SplitVmdk => vmdk_number(name),
    }
}

/// The file members among the first `n` entries of a table: index and name.
/// Directories are structure, not evidence.
pub open spec fn files_of(table: Seq<EntryModel>, n: nat) -> Seq<(usize, Seq<char>)>
    decreases n,
{
    if n == 0 {
        Seq::empty()
    } else {
        let rest = files_of(table, (n - 1) as nat);
        let entry = table[n - 1];
        if entry.is_dir {
            rest
        } else {
            rest.push(((n - 1) as usize, entry.name))
        }
    }
}

/// Every file's name is of the kind.
pub open spec fn uniform(files: Seq<(usize, Seq<char>)>, kind: SegmentKind) -> bool {
    forall|i: int| 0 <= i < files.len() ==> segment_of(#[trigger] files[i].1, kind) is Some
}

/// The kind that all the files' names are of.
pub open spec fn kind_of(files: Seq<(usize, Seq<char>)>) -> Option<SegmentKind> {
    if uniform(files, SegmentKind::SplitVmdk) {
        Some(SegmentKind::SplitVmdk)
    } else if uniform(files, SegmentKind::Ewf) {
        Some(SegmentKind::Ewf)
    } else if uniform(files, SegmentKind::SplitRaw) {
        Some(SegmentKind::SplitRaw)
    } else {
        None
    }
}

/// The segment numbers of the first `n` files that are of the kind, each with the
/// file's position.
pub open spec fn segment_keys(
    files: Seq<(usize, Seq<char>)>,
    kind: SegmentKind,
    n: nat,
) -> Seq<Key>
    decreases n,
{
    if n == 0 {
        Seq::empty()
    } else {
        let rest = segment_keys(files, kind, (n - 1) as nat);
        match segment_of(files[n - 1].1, kind) {
            Some(seg) => rest.push((seg, (n - 1) as usize)),
            None => rest,
        }
    }
}

/// The file that a key points at, with its segment number.
pub open spec fn keyed_file(files: Seq<(usize, Seq<char>)>, key: Key) -> (
    usize,
    Seq<char>,
    u64,
) {
    (files[key.1 as int].0, files[key.1 as int].1, key.0)
}

/// The files of the kind ordered by segment number, equal numbers in table order.
pub open spec fn ordered_files(files: Seq<(usize, Seq<char>)>, kind: SegmentKind) -> Seq<
    (usize, Seq<char>, u64),
> {
    in_order(segment_keys(files, kind, files.len())).map_values(|k: Key| keyed_file(files, k))
}

/// The first `n` ordered files as segments, each with its access.
pub open spec fn segments_of(
    format: Format,
    data: Seq<u8>,
    count: nat,
    ordered: Seq<(usize, Seq<char>, u64)>,
    n: nat,
) -> core::result::Result<Seq<SegmentModel>, ErrorModel>
    decreases n,
{
    if n == 0 {
        Ok(Seq::empty())
    } else {
        match segments_of(format, data, count, ordered, (n - 1) as nat) {
            Ok(rest) => {
                let file = ordered[n - 1];
                match access_of(format, data, count, file.0) {
                    Ok(access) => Ok(
                        rest.push(SegmentModel { name: file.1, index: file.0, access }),
                    ),
                    Err(e) => Err(e),
                }
            },
            Err(e) => Err(e),
        }
    }
}

/// The plan for an archive with the given member table: a uniform split set, a
/// single file member, or a collection.
pub open spec fn table_plan(format: Format, data: Seq<u8>, table: Seq<EntryModel>) -> core::result::Result<
    PlanModel,
    ErrorModel,
> {
    let files = files_of(table, table.len());
    if files.len() >= 2 && kind_of(files) is Some {
        let kind = kind_of(files)->Some_0;
        let ordered = ordered_files(files, kind);
        match segments_of(format, data, table.len(), ordered, ordered.len()) {
            Ok(members) => Ok(PlanModel::SegmentSet { format, members, kind }),
            Err(e) => Err(e),
        }
    } else if files.len() == 1 {
        match access_of(format, data, table.len(), files[0].0) {
            Ok(access) => Ok(
                PlanModel::Member { format, index: files[0].0, name: files[0].1, access },
            ),
            Err(e) => Err(e),
        }
    } else {
        Ok(PlanModel::Collection { format })
    }
}

/// The plan for `data` as an archive of the given format.
pub open spec fn archive_plan(format: Format, data: Seq<u8>) -> core::result::Result<
    PlanModel,
    ErrorModel,
> {
    match listing(format, data) {
        Ok(Some(table)) => table_plan(format, data, table),
        Ok(None) => Ok(PlanModel::Collection { format }),
        Err(e) => Err(e),
    }
}

/// The wrapper format of a codec.
pub open spec fn codec_format(codec: Codec) -> Format {
    match codec {
        Codec::Gzip => Format::Gzip,
        Codec::Bzip2 => Format::Bzip2,
    }
}

/// The compressed-tar format of a codec.
pub open spec fn tar_format(codec: Codec) -> Format {
    match codec {
        Codec::Gzip => Format::TarGz,
        Codec::Bzip2 => Format::TarBz2,
    }
}

/// A codec's name.
pub open spec fn codec_label(codec: Codec) -> Seq<char> {
    match codec {
        Codec::Gzip => "gzip"@,
        Codec::Bzip2 => "bzip2"@,
    }
}

/// The best access that a bare wrapper's codec allows.
pub open spec fn bare_access(codec: Codec) -> Access {
    match codec {
        Codec::Gzip => Access::Zran,
        Codec::Bzip2 => Access::SpillToTemp,
    }
}

/// The bounded decompressed head of a wrapper.
pub open spec fn head_of(codec: Codec, data: Seq<u8>) -> core::result::Result<
    Seq<u8>,
    Seq<char>,
> {
    match codec {
        Codec::Gzip => gzip_prefix(data, HEAD_PEEK),
        Codec::Bzip2 => bzip2_prefix(data, HEAD_PEEK),
    }
}

/// The plan for a wrapper whose decompressed head is `head`.
pub open spec fn head_plan(codec: Codec, data: Seq<u8>, head: Seq<u8>) -> core::result::Result<
    PlanModel,
    ErrorModel,
> {
    let inner = format_of(None, head);
    if inner is Tar {
        archive_plan(tar_format(codec), data)
    } else if inner is Unknown {
        Ok(PlanModel::Wrapper { codec, access: bare_access(codec) })
    } else {
        Ok(PlanModel::Wrapper { codec, access: Access::SpillToTemp })
    }
}

/// The plan for a bare wrapper. A magic that does not decode is a coincidence: the
/// data is not packed.
pub open spec fn wrapper_plan(codec: Codec, data: Seq<u8>) -> core::result::Result<
    PlanModel,
    ErrorModel,
> {
    match head_of(codec, data) {
        Ok(head) => head_plan(codec, data, head),
        Err(_) => Ok(PlanModel::Direct),
    }
}

/// The plan for `data`.
pub open spec fn plan_of(data: Seq<u8>) -> core::result::Result<PlanModel, ErrorModel> {
    let format = format_of(None, data);
    if format is Gzip {
        wrapper_plan(Codec::Gzip, data)
    } else if format is Bzip2 {
        wrapper_plan(Codec::Bzip2, data)
    } else if format.holds_members() {
        archive_plan(format, data)
    } else {
        Ok(PlanModel::Direct)
    }
}

/// The models of a sequence of file members.
pub open spec fn file_models(files: Seq<(usize, String)>) -> Seq<(usize, Seq<char>)> {
    files.map_values(|f: (usize, String)| (f.0, f.1@))
}

/// The models of a sequence of ordered file members.
pub open spec fn ordered_models(files: Seq<(usize, String, u64)>) -> Seq<
    (usize, Seq<char>, u64),
> {
    files.map_values(|f: (usize, String, u64)| (f.0, f.1@, f.2))
}

// ---------------------------------------------------------------------------
// Laws

/// Classification is by content: a wrapper whose whole content is `inner` is
/// classified by the format of `inner` itself, though only a head of it was read.
pub proof fn wrapper_plan_follows_the_content(codec: Codec, data: Seq<u8>, inner: Seq<u8>)
    requires
        format_of(None, data) == codec_format(codec),
        wraps(codec_format(codec), data, inner),
    ensures
        plan_of(data) == head_plan(codec, data, inner),
{
    let head = first_bytes(inner, HEAD_PEEK);
    match codec {
        Codec::Gzip => {
            assert(gzip_prefix(data, HEAD_PEEK) == Ok::<Seq<u8>, Seq<char>>(head));
        },
        Codec::Bzip2 => {
            assert(bzip2_prefix(data, HEAD_PEEK) == Ok::<Seq<u8>, Seq<char>>(head));
        },
    }
    if inner.len() > HEAD_PEEK {
        format_reads_a_bounded_head(None, inner, HEAD_PEEK as int);
    }
}

/// A coincidental magic is no wrapper: where the head does not decode, the data is
/// read directly.
pub proof fn undecodable_wrappers_are_direct(codec: Codec, data: Seq<u8>)
    requires
        format_of(None, data) == codec_format(codec),
        head_of(codec, data) is Err,
    ensures
        plan_of(data) == Ok::<PlanModel, ErrorModel>(PlanModel::Direct),
{
}

proof fn last_dot(s: Seq<char>, at: int)
    requires
        0 <= at < s.len(),
        s[at] == '.',
        forall|j: int| at < j < s.len() ==> s[j] != '.',
    ensures
        rfind_chars(s, "."@) == Some(at),
    decreases s.len(),
{
    reveal_strlit(".");
    let tail = s.subrange(s.len() - 1, s.len() as int);
    if at == s.len() - 1 {
        assert("."@ =~= tail);
    } else {
        assert(tail[0] != '.');
        assert("."@[0] == '.');
        last_dot(s.drop_last(), at);
    }
}

/// The three name patterns are disjoint: no name is a segment of two kinds.
pub proof fn segment_kinds_are_disjoint(name: Seq<char>, a: SegmentKind, b: SegmentKind)
    requires
        segment_of(name, a) is Some,
        segment_of(name, b) is Some,
    ensures
        a == b,
{
    reveal_strlit("ex");
    reveal_strlit("e");
    reveal_strlit("s");
    if ewf_number(name) is Some {
        let ext = extension_chars(name)->Some_0;
        let low = lower(ext);
        if "ex"@.is_prefix_of(low) {
            assert(low.subrange(0, 2)[0] == 'e');
        } else if "e"@.is_prefix_of(low) {
            assert(low.subrange(0, 1)[0] == 'e');
        } else {
            assert(low.subrange(0, 1)[0] == 's');
        }
        assert(low[0] == 'e' || low[0] == 's');
        assert(!is_digit(ext[0]));
    }
    if raw_number(name) is Some {
        let ext = extension_chars(name)->Some_0;
        assert(is_digit(ext[0]));
        assert(lower(ext)[0] == ext[0]);
    }
    if vmdk_number(name) is Some {
        reveal_strlit(".vmdk");
        let low = lower(name);
        let n = name.len();
        let tail = low.subrange(n - 5, n as int);
        assert(tail =~= ".vmdk"@);
        assert(tail[0] == '.' && tail[1] == 'v' && tail[2] == 'm' && tail[3] == 'd' && tail[4]
            == 'k');
        assert(low[n - 5] == lower_char(name[n - 5]));
        assert(low[n - 4] == lower_char(name[n - 4]));
        assert(low[n - 3] == lower_char(name[n - 3]));
        assert(low[n - 2] == lower_char(name[n - 2]));
        assert(low[n - 1] == lower_char(name[n - 1]));
        last_dot(name, n - 5);
        let ext = extension_chars(name)->Some_0;
        assert(lower(ext)[0] == 'v');
    }
}

pub(crate) proof fn files_are_rows(table: Seq<EntryModel>, n: nat)
    requires
        n <= table.len(),
        n <= usize::MAX,
    ensures
        files_of(table, n).len() <= n,
        forall|i: int|
            0 <= i < files_of(table, n).len() ==> {
                let file = #[trigger] files_of(table, n)[i];
                file.0 < n && !table[file.0 as int].is_dir && table[file.0 as int].name == file.1
            },
        forall|i: int, j: int|
            0 <= i < j < files_of(table, n).len() ==> #[trigger] files_of(table, n)[i].0
                < #[trigger] files_of(table, n)[j].0,
        forall|k: int|
            0 <= k < n && !(#[trigger] table[k]).is_dir ==> files_of(table, n).contains(
                (k as usize, table[k].name),
            ),
    decreases n,
{
    if n > 0 {
        files_are_rows(table, (n - 1) as nat);
        let rest = files_of(table, (n - 1) as nat);
        let files = files_of(table, n);
        assert forall|k: int| 0 <= k < n && !(#[trigger] table[k]).is_dir implies files.contains(
            (k as usize, table[k].name),
        ) by {
            let row = (k as usize, table[k].name);
            if k == n - 1 {
                assert(files[rest.len() as int] == row);
            } else {
                assert(rest.contains(row));
                let i = choose|i: int| 0 <= i < rest.len() && rest[i] == row;
                assert(files[i] == row);
            }
        }
    }
}

pub(crate) proof fn segments_follow_the_order(
    format: Format,
    data: Seq<u8>,
    count: nat,
    ordered: Seq<(usize, Seq<char>, u64)>,
    n: nat,
)
    requires
        n <= ordered.len(),
        segments_of(format, data, count, ordered, n) is Ok,
    ensures
        segments_of(format, data, count, ordered, n)->Ok_0.len() == n,
        forall|i: int|
            0 <= i < n ==> {
                let member = #[trigger] segments_of(format, data, count, ordered, n)->Ok_0[i];
                &&& member.index == ordered[i].0
                &&& member.name == ordered[i].1
                &&& access_of(format, data, count, member.index) == Ok::<Access, ErrorModel>(
                    member.access,
                )
            },
    decreases n,
{
    if n > 0 {
        segments_follow_the_order(format, data, count, ordered, (n - 1) as nat);
    }
}

/// A segment set lists every file member of the archive exactly once, in the order
/// of the segment numbers, equal numbers in table order.
pub proof fn segment_sets_are_complete_and_ordered(
    format: Format,
    data: Seq<u8>,
    table: Seq<EntryModel>,
    members: Seq<SegmentModel>,
    kind: SegmentKind,
)
    requires
        table.len() <= usize::MAX,
        table_plan(format, data, table) == Ok::<PlanModel, ErrorModel>(
            PlanModel::SegmentSet { format, members, kind },
        ),
    ensures
        members.len() >= 2,
        members.len() == files_of(table, table.len()).len(),
        forall|i: int|
            0 <= i < members.len() ==> {
                let member = #[trigger] members[i];
                &&& member.index < table.len()
                &&& !table[member.index as int].is_dir
                &&& table[member.index as int].name == member.name
                &&& segment_of(member.name, kind) is Some
            },
        forall|i: int, j: int|
            0 <= i < j < members.len() ==> {
                let a = segment_of(#[trigger] members[i].name, kind)->Some_0;
                let b = segment_of(#[trigger] members[j].name, kind)->Some_0;
                a < b || (a == b && members[i].index < members[j].index)
            },
        forall|k: int|
            0 <= k < table.len() && !(#[trigger] table[k]).is_dir ==> exists|i: int|
                0 <= i < members.len() && (#[trigger] members[i]).index == k,
{
    let files = files_of(table, table.len());
    let keys = segment_keys(files, kind, files.len());
    let sorted = in_order(keys);
    let ordered = ordered_files(files, kind);
    files_are_rows(table, table.len());
    assert(uniform(files, kind));
    keys_point_at_files(files, kind, files.len());
    assert forall|i: int, j: int|
        0 <= i < keys.len() && 0 <= j < keys.len() && i != j implies keys[i] != keys[j] by {
        if i < j {
            assert(keys[i].1 < keys[j].1);
        } else {
            assert(keys[j].1 < keys[i].1);
        }
    }
    in_order_sorts(keys);
    segments_follow_the_order(format, data, table.len(), ordered, ordered.len());
    assert forall|i: int| 0 <= i < members.len() implies {
        let member = #[trigger] members[i];
        &&& member.index < table.len()
        &&& !table[member.index as int].is_dir
        &&& table[member.index as int].name == member.name
        &&& segment_of(member.name, kind) == Some(sorted[i].0)
        &&& member.index == files[sorted[i].1 as int].0
    } by {
        assert(keys.contains(sorted[i]));
        assert(ordered[i] == keyed_file(files, sorted[i]));
    }
    assert forall|i: int, j: int| 0 <= i < j < members.len() implies {
        let a = segment_of(#[trigger] members[i].name, kind)->Some_0;
        let b = segment_of(#[trigger] members[j].name, kind)->Some_0;
        a < b || (a == b && members[i].index < members[j].index)
    } by {
        assert((key_order())(sorted[i], sorted[j]));
        assert(sorted[i] != sorted[j]);
        assert(keys.contains(sorted[i]));
        assert(keys.contains(sorted[j]));
    }
    assert forall|k: int| 0 <= k < table.len() && !(#[trigger] table[k]).is_dir implies exists|
        i: int,
    | 0 <= i < members.len() && (#[trigger] members[i]).index == k by {
        let row = (k as usize, table[k].name);
        assert(files.contains(row));
        let p = choose|p: int| 0 <= p < files.len() && files[p] == row;
        every_file_has_a_key(files, kind, files.len(), p);
        let q = choose|q: int| 0 <= q < keys.len() && keys[q].1 == p;
        assert(sorted.contains(keys[q]));
        let i = choose|i: int| 0 <= i < sorted.len() && sorted[i] == keys[q];
        assert(members[i].index == k);
    }
}

proof fn every_file_has_a_key(
    files: Seq<(usize, Seq<char>)>,
    kind: SegmentKind,
    n: nat,
    p: int,
)
    requires
        0 <= p < n <= files.len(),
        n <= usize::MAX,
        uniform(files, kind),
    ensures
        exists|q: int|
            0 <= q < segment_keys(files, kind, n).len() && (#[trigger] segment_keys(
                files,
                kind,
                n,
            )[q]).1 == p,
    decreases n,
{
    let rest = segment_keys(files, kind, (n - 1) as nat);
    let keys = segment_keys(files, kind, n);
    assert(segment_of(files[n - 1].1, kind) is Some);
    if p == n - 1 {
        assert(keys[rest.len() as int].1 == p);
    } else {
        every_file_has_a_key(files, kind, (n - 1) as nat, p);
        let q = choose|q: int| 0 <= q < rest.len() && (#[trigger] rest[q]).1 == p;
        assert(keys[q].1 == p);
    }
}

// ---------------------------------------------------------------------------
// Executable forms: names

/// EWF segment number from an `.E0N`, `.Ex0N` or `.s0N` name.
pub fn ewf_segment(name: &str) -> (r: Option<u64>)
    ensures
        r == ewf_number(name@),
{
    let chars: Vec<char> = chars_of(name);
    let dot: usize = match rfind(&chars, ".") {
        Some(dot) => dot,
        None => {
            return None;
        },
    };
    proof {
        reveal_strlit(".");
        reveal_strlit("ex");
        reveal_strlit("e");
        reveal_strlit("s");
    }
    assert(dot + 1 <= chars.len());
    let low: Vec<char> = lower_chars_of(name);
    let ghost ext = lower(name@.skip(dot + 1));
    assert(ext =~= low@.skip(dot + 1));
    let start: usize = dot + 1;
    if start >= low.len() {
        assert(ext.len() == 0);
        return None;
    }
    let first: char = low[start];
    let skip: usize = if first == 'e' && start + 1 < low.len() && low[start + 1] == 'x' {
        assert("ex"@ =~= ext.subrange(0, 2));
        2
    } else if first == 'e' || first == 's' {
        assert(!("ex"@.is_prefix_of(ext))) by {
            if "ex"@.is_prefix_of(ext) {
                assert(ext.subrange(0, 2)[0] == 'e');
                assert(ext.subrange(0, 2)[1] == 'x');
            }
        }
        if first == 'e' {
            assert("e"@ =~= ext.subrange(0, 1));
        } else {
            assert("s"@ =~= ext.subrange(0, 1));
        }
        1
    } else {
        assert(!("ex"@.is_prefix_of(ext))) by {
            if "ex"@.is_prefix_of(ext) {
                assert(ext.subrange(0, 2)[0] == 'e');
            }
        }
        assert(!("e"@.is_prefix_of(ext))) by {
            if "e"@.is_prefix_of(ext) {
                assert(ext.subrange(0, 1)[0] == 'e');
            }
        }
        assert(!("s"@.is_prefix_of(ext))) by {
            if "s"@.is_prefix_of(ext) {
                assert(ext.subrange(0, 1)[0] == 's');
            }
        }
        return None;
    };
    assert(ext.skip(skip as int) =~= low@.skip(start + skip));
    if low.len() - start - skip == 2 {
        parse_from(&low, start + skip)
    } else {
        None
    }
}

/// Raw-split segment number from an all-digit extension (`.001`) of at least two
/// digits.
pub fn raw_split(name: &str) -> (r: Option<u64>)
    ensures
        r == raw_number(name@),
{
    let chars: Vec<char> = chars_of(name);
    match rfind(&chars, ".") {
        Some(dot) => {
            proof {
                reveal_strlit(".");
            }
            if chars.len() - dot - 1 >= 2 {
                parse_from(&chars, dot + 1)
            } else {
                None
            }
        },
        None => None,
    }
}

/// Split-VMDK segment number from a `<base>-sNNN.vmdk` name.
pub fn vmdk_segment(name: &str) -> (r: Option<u64>)
    ensures
        r == vmdk_number(name@),
{
    let mut low: Vec<char> = lower_chars_of(name);
    if !has_suffix(&low, ".vmdk") {
        return None;
    }
    proof {
        reveal_strlit(".vmdk");
        reveal_strlit("-s");
    }
    let ghost whole = low@;
    low.truncate(low.len() - 5);
    assert(low@ =~= whole.take(whole.len() - 5));
    match rfind(&low, "-s") {
        Some(at) => if at + 2 < low.len() {
            parse_from(&low, at + 2)
        } else {
            None
        },
        None => None,
    }
}

/// The segment number for `name` under `kind`.
pub fn segment_number(name: &str, kind: SegmentKind) -> (r: Option<u64>)
    ensures
        r == segment_of(name@, kind),
{
    match kind {
        SegmentKind::Ewf => ewf_segment(name),
        SegmentKind::SplitRaw => raw_split(name),
        SegmentKind::SplitVmdk => vmdk_segment(name),
    }
}

// ---------------------------------------------------------------------------
// Executable forms: segment sets

/// Whether every file's name is of the kind.
fn all_of_kind(files: &Vec<(usize, String)>, kind: SegmentKind) -> (r: bool)
    ensures
        r == uniform(file_models(files@), kind),
{
    let ghost models = file_models(files@);
    let mut i: usize = 0;
    while i < files.len()
        invariant
            i <= files.len(),
            models == file_models(files@),
            forall|j: int| 0 <= j < i ==> segment_of(#[trigger] models[j].1, kind) is Some,
        decreases files.len() - i,
    {
        if segment_number(files[i].1.as_str(), kind).is_none() {
            assert(segment_of(models[i as int].1, kind) is None);
            return false;
        }
        i = i + 1;
    }
    true
}

/// The uniform [`SegmentKind`] that all `files` match, if any.
pub fn classify_segment_kind(files: &Vec<(usize, String)>) -> (r: Option<SegmentKind>)
    ensures
        r == kind_of(file_models(files@)),
{
    if all_of_kind(files, SegmentKind::SplitVmdk) {
        Some(SegmentKind::SplitVmdk)
    } else if all_of_kind(files, SegmentKind::Ewf) {
        Some(SegmentKind::Ewf)
    } else if all_of_kind(files, SegmentKind::SplitRaw) {
        Some(SegmentKind::SplitRaw)
    } else {
        None
    }
}

pub(crate) proof fn keys_point_at_files(files: Seq<(usize, Seq<char>)>, kind: SegmentKind, n: nat)
    requires
        n <= files.len(),
        n <= usize::MAX,
    ensures
        segment_keys(files, kind, n).len() <= n,
        uniform(files, kind) ==> segment_keys(files, kind, n).len() == n,
        forall|k: Key| #[trigger]
            segment_keys(files, kind, n).contains(k) ==> k.1 < n && segment_of(
                files[k.1 as int].1,
                kind,
            ) == Some(k.0),
        forall|i: int, j: int|
            0 <= i < j < segment_keys(files, kind, n).len() ==> #[trigger] segment_keys(
                files,
                kind,
                n,
            )[i].1 < #[trigger] segment_keys(files, kind, n)[j].1,
    decreases n,
{
    if n > 0 {
        keys_point_at_files(files, kind, (n - 1) as nat);
        let rest = segment_keys(files, kind, (n - 1) as nat);
        let keys = segment_keys(files, kind, n);
        assert forall|k: Key| #[trigger] keys.contains(k) implies k.1 < n && segment_of(
            files[k.1 as int].1,
            kind,
        ) == Some(k.0) by {
            let i = choose|i: int| 0 <= i < keys.len() && keys[i] == k;
            if i < rest.len() {
                assert(rest.contains(rest[i]));
            }
        }
        assert forall|i: int, j: int| 0 <= i < j < keys.len() implies #[trigger] keys[i].1
            < #[trigger] keys[j].1 by {
            if j == rest.len() {
                assert(rest.contains(rest[i]));
            }
        }
        if uniform(files, kind) {
            assert(segment_of(files[n - 1].1, kind) is Some);
        }
    }
}

/// The `files` that match `kind`, ordered by segment number.
pub fn order_segments(files: &Vec<(usize, String)>, kind: SegmentKind) -> (r: Vec<
    (usize, String, u64),
>)
    ensures
        ordered_models(r@) == ordered_files(file_models(files@), kind),
        forall|i: int|
            0 <= i < r@.len() ==> exists|p: int|
                0 <= p < files@.len() && (#[trigger] files@[p]).0 == (#[trigger] r@[i]).0,
{
    let ghost models = file_models(files@);
    let mut keys: Vec<Key> = Vec::new();
    let mut p: usize = 0;
    while p < files.len()
        invariant
            p <= files.len(),
            models == file_models(files@),
            keys@ == segment_keys(models, kind, p as nat),
        decreases files.len() - p,
    {
        match segment_number(files[p].1.as_str(), kind) {
            Some(seg) => {
                keys.push((seg, p));
            },
            None => {},
        }
        p = p + 1;
    }
    proof {
        keys_point_at_files(models, kind, models.len());
        in_order_sorts(keys@);
    }
    let sorted: Vec<Key> = merge_sort(&keys);
    let mut out: Vec<(usize, String, u64)> = Vec::new();
    let mut i: usize = 0;
    assert(ordered_models(out@) =~= sorted@.take(0).map_values(|k: Key| keyed_file(models, k)));
    while i < sorted.len()
        invariant
            i <= sorted.len(),
            models == file_models(files@),
            forall|j: int| 0 <= j < sorted@.len() ==> (#[trigger] sorted@[j]).1 < files.len(),
            ordered_models(out@) == sorted@.take(i as int).map_values(
                |k: Key| keyed_file(models, k),
            ),
            forall|m: int|
                0 <= m < out@.len() ==> exists|p: int|
                    0 <= p < files@.len() && (#[trigger] files@[p]).0 == (#[trigger] out@[m]).0,
        decreases sorted.len() - i,
    {
        let key: Key = sorted[i];
        let ghost before = out@;
        let name: String = files[key.1].1.clone();
        out.push((files[key.1].0, name, key.0));
        proof {
            assert(files@[key.1 as int].0 == out@[before.len() as int].0);
            let f = |k: Key| keyed_file(models, k);
            assert(sorted@.take(i + 1) =~= sorted@.take(i as int).push(key));
            assert(sorted@.take(i + 1).map_values(f) =~= sorted@.take(i as int).map_values(f).push(
                keyed_file(models, key),
            ));
            assert(ordered_models(out@) =~= ordered_models(before).push(keyed_file(models, key)));
        }
        i = i + 1;
    }
    assert(sorted@.take(sorted@.len() as int) =~= sorted@);
    out
}

// ---------------------------------------------------------------------------
// Executable forms: classification

/// A short, stable label for a codec.
pub fn codec_name(codec: Codec) -> (r: &'static str)
    ensures
        r@ == codec_label(codec),
{
    match codec {
        Codec::Gzip => "gzip",
        Codec::Bzip2 => "bzip2",
    }
}

/// The best access a bare wrapper's codec allows.
pub fn wrapper_access(codec: Codec) -> (r: Access)
    ensures
        r == bare_access(codec),
{
    match codec {
        Codec::Gzip => Access::Zran,
        Codec::Bzip2 => Access::SpillToTemp,
    }
}

/// Decompress at most [`HEAD_PEEK`] bytes of `data`'s single compressed stream,
/// never the whole payload.
///
/// # Errors
/// [`ArchiveError::Decode`] where the head does not decode.
pub fn peek_head(codec: Codec, data: &[u8]) -> (r: Result<Vec<u8>>)
    ensures
        match r {
            Ok(head) => head_of(codec, data@) == Ok::<Seq<u8>, Seq<char>>(head@) && head@.len()
                <= HEAD_PEEK,
            Err(e) => head_of(codec, data@) is Err && e@ == (ErrorModel::Decode {
                format: codec_label(codec),
                detail: head_of(codec, data@)->Err_0,
            }),
        },
{
    let head: core::result::Result<Vec<u8>, String> = match codec {
        Codec::Gzip => inflate_gzip(data, HEAD_PEEK),
        Codec::Bzip2 => inflate_bzip2(data, HEAD_PEEK),
    };
    match head {
        Ok(head) => Ok(head),
        Err(detail) => Err(ArchiveError::Decode { format: codec_name(codec), detail }),
    }
}

/// The file members of a table: index and name.
pub(crate) fn file_members(entries: &[ArchiveEntry]) -> (r: Vec<(usize, String)>)
    ensures
        file_models(r@) == files_of(entry_models(entries@), entries@.len()),
        forall|i: int| 0 <= i < r@.len() ==> (#[trigger] r@[i]).0 < entries@.len(),
{
    let ghost table = entry_models(entries@);
    let mut files: Vec<(usize, String)> = Vec::new();
    let mut i: usize = 0;
    assert(file_models(files@) =~= files_of(table, 0));
    while i < entries.len()
        invariant
            i <= entries.len(),
            table == entry_models(entries@),
            file_models(files@) == files_of(table, i as nat),
            forall|j: int| 0 <= j < files@.len() ==> (#[trigger] files@[j]).0 < entries@.len(),
        decreases entries.len() - i,
    {
        if !entries[i].is_dir {
            let ghost before = files@;
            files.push((i, entries[i].name.clone()));
            assert(file_models(files@) =~= file_models(before).push((i, table[i as int].name)));
        }
        i = i + 1;
    }
    files
}

proof fn segments_stop_at_error(
    format: Format,
    data: Seq<u8>,
    count: nat,
    ordered: Seq<(usize, Seq<char>, u64)>,
    n: nat,
    all: nat,
)
    requires
        segments_of(format, data, count, ordered, n) is Err,
        n <= all,
    ensures
        segments_of(format, data, count, ordered, all) == segments_of(
            format,
            data,
            count,
            ordered,
            n,
        ),
    decreases all,
{
    if n < all {
        segments_stop_at_error(format, data, count, ordered, n, (all - 1) as nat);
    }
}

/// The ordered files as segments, each with its access.
fn plan_segments(archive: &mut Archive, ordered: &Vec<(usize, String, u64)>) -> (r: Result<
    Vec<Segment>,
>)
    requires
        old(archive).wf(),
        forall|i: int|
            0 <= i < ordered@.len() ==> (#[trigger] ordered@[i]).0 < old(archive).table().len(),
    ensures
        final(archive).wf(),
        r is Ok,
        match r {
            Ok(members) => segments_of(
                old(archive).kind(),
                old(archive).source(),
                old(archive).table().len(),
                ordered_models(ordered@),
                ordered@.len(),
            ) == Ok::<Seq<SegmentModel>, ErrorModel>(segment_models(members@)),
            Err(e) => segments_of(
                old(archive).kind(),
                old(archive).source(),
                old(archive).table().len(),
                ordered_models(ordered@),
                ordered@.len(),
            ) == Err::<Seq<SegmentModel>, ErrorModel>(e@),
        },
{
    let ghost format = archive.kind();
    let ghost data = archive.source();
    let ghost count = archive.table().len();
    let ghost models = ordered_models(ordered@);
    let mut members: Vec<Segment> = Vec::new();
    let mut i: usize = 0;
    assert(segment_models(members@) =~= Seq::<SegmentModel>::empty());
    while i < ordered.len()
        invariant
            i <= ordered.len(),
            archive.wf(),
            archive.kind() == format,
            archive.source() == data,
            archive.table().len() == count,
            format == old(archive).kind(),
            data == old(archive).source(),
            count == old(archive).table().len(),
            models == ordered_models(ordered@),
            forall|k: int| 0 <= k < ordered@.len() ==> (#[trigger] ordered@[k]).0 < count,
            segments_of(format, data, count, models, i as nat) == Ok::<
                Seq<SegmentModel>,
                ErrorModel,
            >(segment_models(members@)),
        decreases ordered.len() - i,
    {
        let index: usize = ordered[i].0;
        match archive.member_access(index) {
            Ok(access) => {
                let ghost before = members@;
                let name: String = ordered[i].1.clone();
                members.push(Segment { name, index, access });
                assert(segment_models(members@) =~= segment_models(before).push(
                    SegmentModel { name: models[i as int].1, index, access },
                ));
            },
            Err(e) => {
                proof {
                    assert(segments_of(format, data, count, models, (i + 1) as nat) is Err);
                    segments_stop_at_error(
                        format,
                        data,
                        count,
                        models,
                        (i + 1) as nat,
                        ordered@.len(),
                    );
                }
                return Err(e);
            },
        }
        i = i + 1;
    }
    Ok(members)
}

/// Read the archive's member table, never a payload, and classify the set: a
/// uniform split set, exactly one file member, or a collection.
pub fn detect_archive(format: Format, data: &[u8]) -> (r: Result<AccessPlan>)
    ensures
        plan_model(r) == archive_plan(format, data@),
        r matches Err(e) ==> listing(format, data@) == Err::<Option<Seq<EntryModel>>, ErrorModel>(
            e@,
        ),
{
    let mut archive: Archive = match Archive::open_with_format(format, data) {
        Ok(Some(archive)) => archive,
        Ok(None) => {
            return Ok(AccessPlan::Collection { format });
        },
        Err(e) => {
            return Err(e);
        },
    };
    let files: Vec<(usize, String)> = file_members(archive.entries());
    // A multi-member set whose names all match one split pattern is a single
    // logical image: the one place where names are load-bearing.
    if files.len() >= 2 {
        match classify_segment_kind(&files) {
            Some(kind) => {
                let ordered: Vec<(usize, String, u64)> = order_segments(&files, kind);
                assert(ordered@.len() == ordered_models(ordered@).len());
                return match plan_segments(&mut archive, &ordered) {
                    Ok(members) => Ok(AccessPlan::SegmentSet { format, members, kind }),
                    Err(e) => Err(e),
                };
            },
            None => {},
        }
    }
    if files.len() == 1 {
        let index: usize = files[0].0;
        let name: String = files[0].1.clone();
        match archive.member_access(index) {
            Ok(access) => Ok(AccessPlan::Member { format, index, name, access }),
            Err(e) => Err(e),
        }
    } else {
        // Only directories, or several independent items.
        Ok(AccessPlan::Collection { format })
    }
}

/// A bare wrapper: peek a bounded decompressed head and classify from it.
pub fn detect_wrapper(codec: Codec, data: &[u8]) -> (r: Result<AccessPlan>)
    ensures
        plan_model(r) == wrapper_plan(codec, data@),
        r matches Err(e) ==> listing(tar_format(codec), data@) == Err::<
            Option<Seq<EntryModel>>,
            ErrorModel,
        >(e@),
{
    let head: Vec<u8> = match peek_head(codec, data) {
        Ok(head) => head,
        Err(_) => {
            // A valid magic that does not decode is not packed.
            return Ok(AccessPlan::Direct);
        },
    };
    match sniff(None, head.as_slice()) {
        Format::Tar => detect_archive(
            match codec {
                Codec::Gzip => Format::TarGz,
                Codec::Bzip2 => Format::TarBz2,
            },
            data,
        ),
        Format::Unknown => Ok(AccessPlan::Wrapper { codec, access: wrapper_access(codec) }),
        // A nested archive or wrapper: record the outer one and decompress it.
        _ => Ok(AccessPlan::Wrapper { codec, access: Access::SpillToTemp }),
    }
}

/// Classify the most direct access route to the evidence inside `data`, from its
/// bytes and the archive's own member table. No payload is inflated to classify.
///
/// # Errors
/// The failure to read an archive's member table.
pub fn detect(data: &[u8]) -> (r: Result<AccessPlan>)
    ensures
        plan_model(r) == plan_of(data@),
        r matches Err(e) ==> exists|format: Format|
            format.holds_members() && #[trigger] listing(format, data@) == Err::<
                Option<Seq<EntryModel>>,
                ErrorModel,
            >(e@),
{
    let format: Format = sniff(None, data);
    match format {
        Format::Gzip => detect_wrapper(Codec::Gzip, data),
        Format::Bzip2 => detect_wrapper(Codec::Bzip2, data),
        Format::Zip | Format::SevenZip | Format::Tar | Format::TarGz | Format::TarBz2 => {
            detect_archive(format, data)
        },
        Format::Unknown => Ok(AccessPlan::Direct),
    }
}

} // verus!
