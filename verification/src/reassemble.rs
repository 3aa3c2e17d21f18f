//! Reassembly of a segmented image: a multi-segment image split across archive
//! members is presented as one logical seekable source, built from the sources
//! that each member's own access gives.
//!
//! - A raw split (`.001`, `.002`) is a byte-for-byte concatenation:
//!   [`ConcatSource`] stitches the ordered segments into one source.
//! - EWF and split-VMDK segments carry their own structure: the ordered sources
//!   are handed back through [`segment_sources`] for a container reader.

use crate::archive::{access_of, listing, member_extracts, EntryModel};
use crate::detect::Format;
use crate::error::{ErrorModel, Result};
use crate::execute::{
    clamped, execute_member_access, member_source,
    peeled_member_is_the_extracted_one, seek_target, target_of, PeeledSource, ReadSeek, SeekFrom,
    SeekOutOfRange, SourceModel,
};
use crate::plan::{
    detect, plan_of, segment_models, Access, AccessPlan, PlanModel, Segment, SegmentKind,
    SegmentModel,
};
use crate::resolve::Limits;
use std::sync::Arc;
use vstd::prelude::*;

verus! {

broadcast use vstd::seq::group_seq_axioms;

/// The ordered per-segment sources of a segmented image.
#[derive(Debug)]
#[non_exhaustive]
pub struct SegmentSources {
    /// The archive format the segments live in.
    pub format: Format,
    /// How the segments reassemble.
    pub kind: SegmentKind,
    /// The per-segment sources, ordered by segment number.
    pub sources: Vec<PeeledSource>,
}

/// One logical, seekable image that concatenates the ordered segments of a raw
/// split set. A single read never crosses a segment boundary, and a seek past the
/// end clamps to the total length.
#[derive(Debug)]
pub struct ConcatSource {
    segs: Vec<ConcatSeg>,
    total: u64,
    pos: u64,
}

/// One segment inside a [`ConcatSource`]: its source and its logical window.
#[derive(Debug)]
struct ConcatSeg {
    source: PeeledSource,
    start: u64,
    len: u64,
}

/// The outcome of reassembling a segmented image.
#[derive(Debug)]
#[non_exhaustive]
pub enum Reassembled {
    /// A raw split set stitched into one logical source.
    Concat(ConcatSource),
    /// An EWF or split-VMDK set: the ordered per-segment sources.
    Segments(SegmentSources),
    /// The input is not a segment set.
    NotSegmented,
}

// ---------------------------------------------------------------------------
// Models

/// The first `n` parts, one after the other.
pub open spec fn joined(parts: Seq<Seq<u8>>, n: nat) -> Seq<u8>
    decreases n,
{
    if n == 0 {
        Seq::empty()
    } else {
        joined(parts, (n - 1) as nat) + parts[n - 1]
    }
}

/// A length as far as 64 bits reach.
pub open spec fn saturated(n: nat) -> u64 {
    if n > u64::MAX {
        u64::MAX
    } else {
        n as u64
    }
}

/// The contents of a sequence of sources.
pub open spec fn parts_of(sources: Seq<PeeledSource>) -> Seq<Seq<u8>> {
    sources.map_values(|s: PeeledSource| s.contents())
}

/// How much one read gives at `pos`: the buffer's length, or what is left of the
/// segment that `pos` lies in.
pub open spec fn reads_within_segment(
    parts: Seq<Seq<u8>>,
    pos: u64,
    wanted: nat,
    n: nat,
) -> bool {
    exists|i: int| #[trigger]
        owns(parts, i, pos) && n == if wanted < joined(parts, (i + 1) as nat).len() - pos {
            wanted
        } else {
            (joined(parts, (i + 1) as nat).len() - pos) as nat
        }
}

/// Part `i` holds the byte at `pos` of the whole.
pub open spec fn owns(parts: Seq<Seq<u8>>, i: int, pos: u64) -> bool {
    0 <= i < parts.len() && joined(parts, i as nat).len() <= pos < joined(
        parts,
        (i + 1) as nat,
    ).len()
}

/// The sources of the first `n` segments.
pub open spec fn sources_of(
    format: Format,
    data: Seq<u8>,
    members: Seq<SegmentModel>,
    n: nat,
    cap: u64,
) -> core::result::Result<Seq<SourceModel>, ErrorModel>
    decreases n,
{
    if n == 0 {
        Ok(Seq::empty())
    } else {
        match sources_of(format, data, members, (n - 1) as nat, cap) {
            Ok(rest) => match member_source(
                format,
                data,
                members[n - 1].index,
                members[n - 1].access,
                cap,
            ) {
                Ok(source) => Ok(rest.push(source)),
                Err(e) => Err(e),
            },
            Err(e) => Err(e),
        }
    }
}

/// What the sources of the segments read as.
pub open spec fn read_parts(data: Seq<u8>, models: Seq<SourceModel>) -> Seq<Seq<u8>> {
    models.map_values(|m: SourceModel| m.reads_as(data))
}

impl SegmentSources {
    /// The sources are fresh ones over `data`, made as `models` says.
    pub open spec fn are_fresh(&self, data: Seq<u8>, models: Seq<SourceModel>) -> bool {
        &&& self.sources@.len() == models.len()
        &&& forall|i: int|
            0 <= i < models.len() ==> (#[trigger] self.sources@[i]).is_fresh(data, models[i])
    }
}

/// The segment sources were made as the plan says.
pub open spec fn segmented_as(r: Result<Option<SegmentSources>>, data: Seq<u8>, cap: u64) -> bool {
    match plan_of(data) {
        Ok(PlanModel::SegmentSet { format, members, kind }) => match sources_of(
            format,
            data,
            members,
            members.len(),
            cap,
        ) {
            Ok(models) => r matches Ok(Some(ss)) && ss.format == format && ss.kind == kind
                && ss.are_fresh(data, models),
            Err(e) => r matches Err(error) && error@ == e,
        },
        Ok(_) => r matches Ok(None),
        Err(e) => r matches Err(error) && error@ == e,
    }
}

/// The image was reassembled as the plan says.
pub open spec fn reassembled_as(r: Result<Reassembled>, data: Seq<u8>, cap: u64) -> bool {
    match plan_of(data) {
        Ok(PlanModel::SegmentSet { format, members, kind }) => match sources_of(
            format,
            data,
            members,
            members.len(),
            cap,
        ) {
            Ok(models) => if kind is SplitRaw {
                r matches Ok(Reassembled::Concat(image)) && image.valid() && image.position() == 0
                    && image.segments() == read_parts(data, models) && image.contents() == joined(
                    read_parts(data, models),
                    models.len(),
                ) && image.extent() == saturated(
                    joined(read_parts(data, models), models.len()).len(),
                )
            } else {
                r matches Ok(Reassembled::Segments(ss)) && ss.format == format && ss.kind == kind
                    && ss.are_fresh(data, models)
            },
            Err(e) => r matches Err(error) && error@ == e,
        },
        Ok(_) => r matches Ok(Reassembled::NotSegmented),
        Err(e) => r matches Err(error) && error@ == e,
    }
}

spec fn seg_parts(segs: Seq<ConcatSeg>) -> Seq<Seq<u8>> {
    segs.map_values(|s: ConcatSeg| s.source.contents())
}

impl ConcatSource {
    /// The contents of the segments, in order.
    pub closed spec fn segments(&self) -> Seq<Seq<u8>> {
        seg_parts(self.segs@)
    }
}

// ---------------------------------------------------------------------------
// Laws

/// The sources of a segment set read as the members that extraction gives, one for
/// each segment and in segment order.
pub proof fn segments_read_as_extracted(
    format: Format,
    data: Seq<u8>,
    table: Seq<EntryModel>,
    members: Seq<SegmentModel>,
    contents: Seq<Seq<u8>>,
    n: nat,
    cap: u64,
)
    requires
        listing(format, data) == Ok::<Option<Seq<EntryModel>>, ErrorModel>(Some(table)),
        contents.len() == members.len(),
        n <= members.len(),
        forall|i: int|
            0 <= i < members.len() ==> access_of(
                format,
                data,
                table.len(),
                (#[trigger] members[i]).index,
            ) == Ok::<Access, ErrorModel>(members[i].access),
        forall|i: int|
            0 <= i < members.len() ==> member_extracts(
                format,
                data,
                table,
                (#[trigger] members[i]).index,
                contents[i],
            ),
        sources_of(format, data, members, n, cap) is Ok,
    ensures
        read_parts(data, sources_of(format, data, members, n, cap)->Ok_0) == contents.take(
            n as int,
        ),
    decreases n,
{
    if n == 0 {
        assert(contents.take(0) =~= read_parts(data, Seq::empty()));
    } else {
        segments_read_as_extracted(
            format,
            data,
            table,
            members,
            contents,
            (n - 1) as nat,
            cap,
        );
        let rest = sources_of(format, data, members, (n - 1) as nat, cap)->Ok_0;
        let member = members[n - 1];
        let model = member_source(format, data, member.index, member.access, cap)->Ok_0;
        peeled_member_is_the_extracted_one(
            format,
            data,
            table,
            member.index,
            member.access,
            cap,
            contents[n - 1],
            model,
        );
        assert(read_parts(data, rest.push(model)) =~= read_parts(data, rest).push(
            model.reads_as(data),
        ));
        assert(contents.take(n as int) =~= contents.take(n - 1).push(contents[n - 1]));
    }
}

/// A reassembled image is the members that extraction gives, one after the other
/// in segment order.
pub proof fn image_is_the_extracted_members_in_order(
    format: Format,
    data: Seq<u8>,
    table: Seq<EntryModel>,
    members: Seq<SegmentModel>,
    contents: Seq<Seq<u8>>,
    cap: u64,
)
    requires
        listing(format, data) == Ok::<Option<Seq<EntryModel>>, ErrorModel>(Some(table)),
        contents.len() == members.len(),
        forall|i: int|
            0 <= i < members.len() ==> access_of(
                format,
                data,
                table.len(),
                (#[trigger] members[i]).index,
            ) == Ok::<Access, ErrorModel>(members[i].access),
        forall|i: int|
            0 <= i < members.len() ==> member_extracts(
                format,
                data,
                table,
                (#[trigger] members[i]).index,
                contents[i],
            ),
        sources_of(format, data, members, members.len(), cap) is Ok,
    ensures
        ({
            let models = sources_of(format, data, members, members.len(), cap)->Ok_0;
            joined(read_parts(data, models), models.len()) == joined(contents, contents.len())
        }),
{
    segments_read_as_extracted(format, data, table, members, contents, members.len(), cap);
    let models = sources_of(format, data, members, members.len(), cap)->Ok_0;
    assert(contents.take(members.len() as int) =~= contents);
    assert(read_parts(data, models).len() == models.len());
}

proof fn joined_grows(parts: Seq<Seq<u8>>, a: nat, b: nat)
    requires
        a <= b <= parts.len(),
    ensures
        joined(parts, a).len() <= joined(parts, b).len(),
    decreases b,
{
    if a < b {
        joined_grows(parts, a, (b - 1) as nat);
    }
}

proof fn joined_holds_parts(parts: Seq<Seq<u8>>, i: nat, n: nat)
    requires
        i < n <= parts.len(),
    ensures
        joined(parts, (i + 1) as nat).len() <= joined(parts, n).len(),
        forall|k: int|
            0 <= k < parts[i as int].len() ==> joined(parts, n)[joined(parts, i).len() + k]
                == #[trigger] parts[i as int][k],
    decreases n,
{
    if n > i + 1 {
        joined_holds_parts(parts, i, (n - 1) as nat);
    }
}

// ---------------------------------------------------------------------------
// Executable forms

impl ConcatSource {
    /// Stitch `sources`, ordered by segment number, into one logical image, each
    /// segment placed at its running logical offset.
    pub fn new(sources: Vec<PeeledSource>) -> (r: ConcatSource)
        requires
            forall|i: int| 0 <= i < sources@.len() ==> (#[trigger] sources@[i]).valid(),
        ensures
            r.valid(),
            r.position() == 0,
            r.segments() == parts_of(sources@),
            r.contents() == joined(parts_of(sources@), sources@.len()),
            r.extent() == saturated(joined(parts_of(sources@), sources@.len()).len()),
    {
        let ghost all = sources@;
        let ghost parts = parts_of(all);
        let mut segs: Vec<ConcatSeg> = Vec::new();
        let mut start: u64 = 0;
        for source in it: sources
            invariant
                it.seq() == all,
                parts == parts_of(all),
                segs@.len() == it.index(),
                forall|k: int| 0 <= k < all.len() ==> (#[trigger] all[k]).valid(),
                forall|k: int|
                    0 <= k < segs@.len() ==> {
                        let seg = #[trigger] segs@[k];
                        &&& seg.source == all[k]
                        &&& seg.len == parts[k].len()
                        &&& seg.start == saturated(joined(parts, k as nat).len())
                    },
                start == saturated(joined(parts, segs@.len()).len()),
        {
            let len: u64 = source.len();
            segs.push(ConcatSeg { source, start, len });
            start = start.saturating_add(len);
        }
        assert(seg_parts(segs@) =~= parts);
        ConcatSource { segs, total: start, pos: 0 }
    }

    /// The reassembled image's total length, in bytes.
    #[must_use]
    pub fn len(&self) -> (r: u64)
        ensures
            r == self.extent(),
    {
        self.total
    }

    /// Whether the reassembled image is empty.
    #[must_use]
    pub fn is_empty(&self) -> (r: bool)
        ensures
            r == (self.extent() == 0),
    {
        self.total == 0
    }

    /// The segment that holds logical `pos`, if `pos` lies before the end. An empty
    /// segment is never chosen.
    fn seg_at(&self, pos: u64) -> (r: Option<usize>)
        requires
            self.valid(),
        ensures
            match r {
                Some(i) => i < self.segs@.len() && owns(self.segments(), i as int, pos),
                None => pos >= self.extent(),
            },
            r is Some <==> pos < self.extent(),
    {
        let ghost parts = self.segments();
        let n: usize = self.segs.len();
        let mut lo: usize = 0;
        let mut hi: usize = n;
        while lo < hi
            invariant
                lo <= hi <= n,
                n == self.segs@.len(),
                self.valid(),
                parts == self.segments(),
                lo > 0 ==> saturated(joined(parts, lo as nat).len()) <= pos,
                hi < n ==> saturated(joined(parts, (hi + 1) as nat).len()) > pos,
            decreases hi - lo,
        {
            let mid: usize = lo + (hi - lo) / 2;
            let end: u64 = self.segs[mid].start.saturating_add(self.segs[mid].len);
            assert(self.segs@[mid as int].len == parts[mid as int].len());
            assert(end == saturated(joined(parts, (mid + 1) as nat).len()));
            if end <= pos {
                lo = mid + 1;
            } else {
                hi = mid;
            }
        }
        proof {
            joined_grows(parts, lo as nat, n as nat);
            if lo < n {
                joined_grows(parts, (lo + 1) as nat, n as nat);
            }
        }
        if lo < n {
            Some(lo)
        } else {
            None
        }
    }
}

impl ReadSeek for ConcatSource {
    closed spec fn contents(&self) -> Seq<u8> {
        joined(seg_parts(self.segs@), self.segs@.len())
    }

    closed spec fn position(&self) -> u64 {
        self.pos
    }

    closed spec fn extent(&self) -> u64 {
        self.total
    }

    closed spec fn valid(&self) -> bool {
        let parts = seg_parts(self.segs@);
        &&& self.pos <= self.total
        &&& self.total == saturated(joined(parts, self.segs@.len()).len())
        &&& forall|k: int|
            0 <= k < self.segs@.len() ==> {
                let seg = #[trigger] self.segs@[k];
                &&& seg.source.valid()
                &&& seg.len == parts[k].len()
                &&& seg.start == saturated(joined(parts, k as nat).len())
            }
    }

    fn read(&mut self, buf: &mut [u8]) -> (n: usize)
        ensures
            final(self).segments() == old(self).segments(),
            n > 0 ==> reads_within_segment(
                old(self).segments(),
                old(self).position(),
                old(buf)@.len(),
                n as nat,
            ),
    {
        if buf.len() == 0 || self.pos >= self.total {
            return 0;
        }
        let pos: u64 = self.pos;
        let i: usize = match self.seg_at(pos) {
            Some(i) => i,
            None => {
                return 0;
            },
        };
        let ghost before = self.segs@;
        let ghost parts = seg_parts(before);
        proof {
            joined_grows(parts, i as nat, before.len());
            joined_holds_parts(parts, i as nat, before.len());
        }
        let local: u64 = pos - self.segs[i].start;
        let n: usize = {
            let seg: &mut ConcatSeg = &mut self.segs[i];
            match seg.source.seek(SeekFrom::Start(local)) {
                Ok(_) => {},
                Err(_) => {
                    return 0;
                },
            }
            seg.source.read(buf)
        };
        self.pos = pos.saturating_add(n as u64);
        proof {
            assert(seg_parts(self.segs@) =~= parts);
            assert(self.contents().subrange(pos as int, pos + n) =~= parts[i as int].subrange(
                local as int,
                local + n,
            ));
            assert(owns(parts, i as int, pos));
        }
        n
    }

    fn seek(&mut self, from: SeekFrom) -> (r: core::result::Result<u64, SeekOutOfRange>)
        ensures
            final(self).segments() == old(self).segments(),
            match r {
                Ok(p) => clamped(
                    seek_target(from, old(self).position(), old(self).extent()),
                    old(self).extent(),
                ) == Some(p),
                Err(_) => true,
            },
    {
        match target_of(from, self.pos, self.total) {
            Ok(target) => {
                // A reassembled image is bounded: reads stop at its end.
                self.pos = if target < self.total {
                    target
                } else {
                    self.total
                };
                Ok(self.pos)
            },
            Err(e) => Err(e),
        }
    }
}

proof fn as_many_sources_as_members(
    format: Format,
    data: Seq<u8>,
    members: Seq<SegmentModel>,
    n: nat,
    cap: u64,
)
    ensures
        sources_of(format, data, members, n, cap) matches Ok(models) ==> models.len() == n,
    decreases n,
{
    if n > 0 {
        as_many_sources_as_members(format, data, members, (n - 1) as nat, cap);
    }
}

proof fn sources_stop_at_error(
    format: Format,
    data: Seq<u8>,
    members: Seq<SegmentModel>,
    n: nat,
    all: nat,
    cap: u64,
)
    requires
        sources_of(format, data, members, n, cap) is Err,
        n <= all,
    ensures
        sources_of(format, data, members, all, cap) == sources_of(format, data, members, n, cap),
    decreases all,
{
    if n < all {
        sources_stop_at_error(format, data, members, n, (all - 1) as nat, cap);
    }
}

/// The sources of the segments, each through its own access.
fn execute_segments(
    format: Format,
    data: &Arc<Vec<u8>>,
    members: &Vec<Segment>,
    limits: &Limits,
) -> (r: Result<Vec<PeeledSource>>)
    ensures
        match r {
            Ok(sources) => {
                &&& sources_of(
                    format,
                    data@,
                    segment_models(members@),
                    members@.len(),
                    limits.max_total_inflated,
                ) matches Ok(models)
                &&& sources@.len() == models.len()
                &&& forall|i: int|
                    0 <= i < models.len() ==> (#[trigger] sources@[i]).is_fresh(data@, models[i])
            },
            Err(e) => sources_of(
                format,
                data@,
                segment_models(members@),
                members@.len(),
                limits.max_total_inflated,
            ) == Err::<Seq<SourceModel>, ErrorModel>(e@),
        },
{
    let ghost models = segment_models(members@);
    let ghost cap = limits.max_total_inflated;
    let ghost mut made: Seq<SourceModel> = Seq::empty();
    let mut sources: Vec<PeeledSource> = Vec::new();
    let mut i: usize = 0;
    while i < members.len()
        invariant
            i <= members.len(),
            models == segment_models(members@),
            cap == limits.max_total_inflated,
            sources_of(format, data@, models, i as nat, cap) == Ok::<Seq<SourceModel>, ErrorModel>(
                made,
            ),
            sources@.len() == i,
            made.len() == i,
            forall|k: int| 0 <= k < i ==> (#[trigger] sources@[k]).is_fresh(data@, made[k]),
        decreases members.len() - i,
    {
        match execute_member_access(format, data, members[i].index, members[i].access, limits) {
            Ok(source) => {
                proof {
                    made = sources_of(format, data@, models, (i + 1) as nat, cap)->Ok_0;
                }
                sources.push(source);
            },
            Err(e) => {
                proof {
                    assert(sources_of(format, data@, models, (i + 1) as nat, cap) is Err);
                    sources_stop_at_error(
                        format,
                        data@,
                        models,
                        (i + 1) as nat,
                        members@.len(),
                        cap,
                    );
                }
                return Err(e);
            },
        }
        i = i + 1;
    }
    Ok(sources)
}

/// Produce the ordered per-segment sources of a segmented image, or `Ok(None)`
/// where `data` is not a segment set. The archive bytes are shared across the
/// segment windows.
///
/// # Errors
/// The failure to classify the data or to execute the access to a segment.
pub fn segment_sources(data: Vec<u8>, limits: &Limits) -> (r: Result<Option<SegmentSources>>)
    ensures
        segmented_as(r, data@, limits.max_total_inflated),
        r matches Ok(Some(ss)) ==> (plan_of(data@) matches Ok(
            PlanModel::SegmentSet { format, members, kind },
        ) && ss.format == format && ss.kind == kind && ss.sources@.len() == members.len()),
        r matches Ok(None) ==> (plan_of(data@) matches Ok(plan) && !(plan is SegmentSet)),
{
    match detect(data.as_slice()) {
        Ok(AccessPlan::SegmentSet { format, members, kind }) => {
            let shared: Arc<Vec<u8>> = Arc::new(data);
            proof {
                as_many_sources_as_members(
                    format,
                    data@,
                    segment_models(members@),
                    members@.len(),
                    limits.max_total_inflated,
                );
            }
            match execute_segments(format, &shared, &members, limits) {
                Ok(sources) => Ok(Some(SegmentSources { format, kind, sources })),
                Err(e) => Err(e),
            }
        },
        Ok(_) => Ok(None),
        Err(e) => Err(e),
    }
}

/// Reassemble a segmented image: a raw split set becomes a stitched
/// [`ConcatSource`], an EWF or split-VMDK set yields its ordered
/// [`SegmentSources`], anything else is [`Reassembled::NotSegmented`].
///
/// # Errors
/// As [`segment_sources`].
pub fn reassemble(data: Vec<u8>, limits: &Limits) -> (r: Result<Reassembled>)
    ensures
        reassembled_as(r, data@, limits.max_total_inflated),
        r matches Ok(Reassembled::Concat(_)) ==> (plan_of(data@) matches Ok(
            PlanModel::SegmentSet { kind, .. },
        ) && kind == SegmentKind::SplitRaw),
        r matches Ok(Reassembled::Segments(ss)) ==> (plan_of(data@) matches Ok(
            PlanModel::SegmentSet { format, members, kind },
        ) && (kind == SegmentKind::Ewf || kind == SegmentKind::SplitVmdk) && ss.format == format
            && ss.kind == kind && ss.sources@.len() == members.len()),
        r matches Ok(Reassembled::NotSegmented) <==> (plan_of(data@) matches Ok(plan) && !(plan
            is SegmentSet)),
{
    let ghost bytes = data@;
    match segment_sources(data, limits) {
        Ok(Some(ss)) => match ss.kind {
            SegmentKind::SplitRaw => {
                proof {
                    if let Ok(PlanModel::SegmentSet { format, members, kind }) = plan_of(bytes) {
                        let models = sources_of(
                            format,
                            bytes,
                            members,
                            members.len(),
                            limits.max_total_inflated,
                        )->Ok_0;
                        assert(parts_of(ss.sources@) =~= read_parts(bytes, models));
                    }
                }
                Ok(Reassembled::Concat(ConcatSource::new(ss.sources)))
            },
            SegmentKind::Ewf | SegmentKind::SplitVmdk => Ok(Reassembled::Segments(ss)),
        },
        Ok(None) => Ok(Reassembled::NotSegmented),
        Err(e) => Err(e),
    }
}

} // verus!
