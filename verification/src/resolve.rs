//! Recursive multi-layer peeling. [`resolve`] drives [`crate::peel`] and
//! [`crate::archive`] together so nested archive layers unwrap by construction: a
//! bare wrapper peels to one inner stream that is detected again; each archive
//! member is detected again; whatever is itself a packing layer recurses.
//!
//! The bomb guards are mandatory and cumulative across the whole recursion.

use crate::archive::{listing, member_content, Archive, EntryModel};
use crate::detect::{format_of, sniff, Format};
use crate::error::{ArchiveError, ErrorModel, Result};
use crate::peel::{peel_bytes, wrapped_content, PeelOutcome, MAX_INFLATED};
use crate::text::{ends_in, has_suffix, lower_chars_of, opt_chars};
use vstd::prelude::*;
use vstd::slice::slice_to_vec;

verus! {

broadcast use vstd::seq::group_seq_axioms;

/// A leaf of a fully resolved packing tree.
#[derive(Debug, Clone, PartialEq, Eq)]
pub enum Node {
    /// A leaf file (not itself a recognized archive layer) and its bytes.
    File {
        /// The name it was found under.
        name: String,
        /// Its content.
        bytes: Vec<u8>,
    },
    /// A directory entry met inside an archive.
    Dir {
        /// The name it was found under.
        name: String,
    },
}

/// Bomb guards for [`resolve`]. Every field is a hard cap that fails loud when
/// tripped; the inflated size is tracked across all layers, not per layer.
#[derive(Debug, Clone, Copy)]
pub struct Limits {
    /// Maximum nesting depth.
    pub max_depth: usize,
    /// Cumulative inflated bytes across the whole recursion.
    pub max_total_inflated: u64,
    /// Cumulative number of archive members across the whole recursion.
    pub max_entries: usize,
    /// Ceiling on the size of one member's seek index, in bytes.
    pub max_index_bytes: u64,
}

impl Default for Limits {
    fn default() -> (r: Limits)
        ensures
            r.max_depth == 8,
            r.max_total_inflated == 4 * 1024 * 1024 * 1024,
            r.max_entries == 1_000_000,
            r.max_index_bytes == 512 * 1024 * 1024,
    {
        Limits {
            max_depth: 8,
            max_total_inflated: 4 * 1024 * 1024 * 1024,
            max_entries: 1_000_000,
            max_index_bytes: 512 * 1024 * 1024,
        }
    }
}

/// Running totals enforced across the whole recursion.
#[derive(Debug, Clone, Copy)]
pub struct Budget {
    /// Bytes inflated so far.
    pub total_inflated: u64,
    /// Archive members met so far.
    pub entries: usize,
}

// ---------------------------------------------------------------------------
// Models

/// A [`Node`] with its name and bytes as sequences.
#[verifier::ext_equal]
pub enum NodeModel {
    File { name: Seq<char>, bytes: Seq<u8> },
    Dir { name: Seq<char> },
}

impl View for Node {
    type V = NodeModel;

    open spec fn view(&self) -> NodeModel {
        match *self {
            Node::File { name, bytes } => NodeModel::File { name: name@, bytes: bytes@ },
            Node::Dir { name } => NodeModel::Dir { name: name@ },
        }
    }
}

/// The models of a sequence of nodes.
pub open spec fn node_models(nodes: Seq<Node>) -> Seq<NodeModel> {
    nodes.map_values(|n: Node| n@)
}

impl Budget {
    /// The totals after inflating `n` more bytes.
    pub open spec fn with_inflated(self, n: nat) -> Budget {
        Budget {
            total_inflated: if self.total_inflated + n > u64::MAX {
                u64::MAX
            } else {
                (self.total_inflated + n) as u64
            },
            entries: self.entries,
        }
    }

    /// The totals after one more member.
    pub open spec fn with_entry(self) -> Budget {
        Budget {
            total_inflated: self.total_inflated,
            entries: if self.entries == usize::MAX {
                usize::MAX
            } else {
                (self.entries + 1) as usize
            },
        }
    }
}

/// How far a resolution has come: what was spent, and the nodes found.
#[verifier::ext_equal]
pub struct Progress {
    pub budget: Budget,
    pub nodes: Seq<NodeModel>,
}

/// Where a resolution stopped: the error, and how far it had come.
#[verifier::ext_equal]
pub struct Stop {
    pub error: ErrorModel,
    pub at: Progress,
}

/// A resolution that stopped at `at`.
pub open spec fn stopped(error: ErrorModel, at: Progress) -> core::result::Result<Progress, Stop> {
    Err(Stop { error, at })
}

/// Spend `n` inflated bytes. They are counted even where they are over the cap.
pub open spec fn spend_inflated(at: Progress, n: nat, limits: Limits) -> core::result::Result<
    Progress,
    Stop,
> {
    let budget = at.budget.with_inflated(n);
    if budget.total_inflated > limits.max_total_inflated {
        stopped(
            ErrorModel::TotalInflatedExceeded { cap: limits.max_total_inflated },
            Progress { budget, nodes: at.nodes },
        )
    } else {
        Ok(Progress { budget, nodes: at.nodes })
    }
}

/// Spend one member. It is counted even where it is over the cap.
pub open spec fn spend_entry(at: Progress, limits: Limits) -> core::result::Result<
    Progress,
    Stop,
> {
    let budget = at.budget.with_entry();
    if budget.entries > limits.max_entries {
        stopped(
            ErrorModel::TooManyEntries { max: limits.max_entries },
            Progress { budget, nodes: at.nodes },
        )
    } else {
        Ok(Progress { budget, nodes: at.nodes })
    }
}

/// One more node.
pub open spec fn found(at: Progress, node: NodeModel) -> Progress {
    Progress { budget: at.budget, nodes: at.nodes.push(node) }
}

/// The name of what a wrapper holds: one trailing bare-compression extension is
/// taken off, in any case.
pub open spec fn inner_name(name: Option<Seq<char>>) -> Option<Seq<char>> {
    match name {
        Some(s) => if ends_in(s, ".gz"@) {
            Some(s.take(s.len() - 3))
        } else if ends_in(s, ".bz2"@) {
            Some(s.take(s.len() - 4))
        } else if ends_in(s, ".z"@) {
            Some(s.take(s.len() - 2))
        } else {
            Some(s)
        },
        None => None,
    }
}

/// The layer chain one layer further in.
pub open spec fn longer_chain(chain: Seq<char>, next: Seq<char>) -> Seq<char> {
    chain + " -> "@ + next
}

/// `name`, or `fallback` where there is none.
pub open spec fn name_or(name: Option<Seq<char>>, fallback: Seq<char>) -> Seq<char> {
    match name {
        Some(s) => s,
        None => fallback,
    }
}

/// The leaf that holds `data`.
pub open spec fn leaf_of(name: Option<Seq<char>>, data: Seq<u8>) -> NodeModel {
    NodeModel::File { name: name_or(name, ""@), bytes: data }
}

/// Resolve one layer and everything below it. `left` is how many more layers may
/// be entered, this one included.
pub open spec fn resolve_layer(
    data: Seq<u8>,
    name: Option<Seq<char>>,
    limits: Limits,
    left: nat,
    chain: Seq<char>,
    at: Progress,
) -> core::result::Result<Progress, Stop>
    decreases left, 1nat, 0nat,
{
    let format = format_of(name, data);
    if left == 0 {
        stopped(ErrorModel::DepthExceeded { max: limits.max_depth, chain }, at)
    } else if format.wraps_one() {
        match wrapped_content(format, data, MAX_INFLATED)->Some_0 {
            Ok(inner) => match spend_inflated(at, inner.len(), limits) {
                Ok(spent) => resolve_layer(
                    inner,
                    inner_name(name),
                    limits,
                    (left - 1) as nat,
                    longer_chain(chain, name_or(inner_name(name), "<peeled>"@)),
                    spent,
                ),
                Err(stop) => Err(stop),
            },
            Err(e) => stopped(e, at),
        }
    } else if format.holds_members() {
        match listing(format, data) {
            Ok(table) => resolve_members(
                data,
                format,
                table->Some_0,
                table->Some_0.len(),
                limits,
                (left - 1) as nat,
                chain,
                at,
            ),
            Err(e) => stopped(e, at),
        }
    } else {
        Ok(found(at, leaf_of(name, data)))
    }
}

/// Resolve the first `n` members of an archive and everything below them. `below`
/// is how many more layers a member may enter.
pub open spec fn resolve_members(
    data: Seq<u8>,
    format: Format,
    table: Seq<EntryModel>,
    n: nat,
    limits: Limits,
    below: nat,
    chain: Seq<char>,
    at: Progress,
) -> core::result::Result<Progress, Stop>
    decreases below + 1, 0nat, n,
{
    if n == 0 {
        Ok(at)
    } else {
        let index = (n - 1) as nat;
        match resolve_members(data, format, table, index, limits, below, chain, at) {
            Ok(before) => match spend_entry(before, limits) {
                Ok(counted) => {
                    let entry = table[index as int];
                    if entry.is_dir {
                        Ok(found(counted, NodeModel::Dir { name: entry.name }))
                    } else {
                        match member_content(format, data, table, index as usize, MAX_INFLATED) {
                            Ok(bytes) => match spend_inflated(counted, bytes.len(), limits) {
                                Ok(spent) => resolve_layer(
                                    bytes,
                                    Some(entry.name),
                                    limits,
                                    below,
                                    longer_chain(chain, entry.name),
                                    spent,
                                ),
                                Err(stop) => Err(stop),
                            },
                            Err(e) => stopped(e, counted),
                        }
                    }
                },
                Err(stop) => Err(stop),
            },
            Err(stop) => Err(stop),
        }
    }
}

/// Nothing spent and nothing found.
pub open spec fn start() -> Progress {
    Progress { budget: Budget { total_inflated: 0, entries: 0 }, nodes: Seq::empty() }
}

/// What resolving `data` comes to.
pub open spec fn resolve_of(
    data: Seq<u8>,
    name: Option<Seq<char>>,
    limits: Limits,
) -> core::result::Result<Seq<NodeModel>, ErrorModel> {
    match resolve_layer(
        data,
        name,
        limits,
        (limits.max_depth + 1) as nat,
        name_or(name, "<input>"@),
        start(),
    ) {
        Ok(end) => Ok(end.nodes),
        Err(stop) => Err(stop.error),
    }
}

/// How many more layers may be entered at `depth`.
pub open spec fn layers_left(depth: usize, limits: Limits) -> nat {
    if depth > limits.max_depth {
        0
    } else {
        (limits.max_depth - depth + 1) as nat
    }
}

/// What [`resolve`] returned, by views.
pub open spec fn resolve_model(r: Result<Vec<Node>>) -> core::result::Result<
    Seq<NodeModel>,
    ErrorModel,
> {
    match r {
        Ok(v) => Ok(node_models(v@)),
        Err(e) => Err(e@),
    }
}

// ---------------------------------------------------------------------------
// Executable forms

impl Budget {
    /// Count `n` more inflated bytes against the cap.
    pub fn add_inflated(&mut self, n: usize, limits: &Limits) -> (r: Result<()>)
        ensures
            *final(self) == old(self).with_inflated(n as nat),
            match r {
                Ok(_) => final(self).total_inflated <= limits.max_total_inflated,
                Err(e) => final(self).total_inflated > limits.max_total_inflated && e@ == (
                ErrorModel::TotalInflatedExceeded { cap: limits.max_total_inflated }),
            },
    {
        self.total_inflated = self.total_inflated.saturating_add(n as u64);
        if self.total_inflated > limits.max_total_inflated {
            return Err(
                ArchiveError::TotalInflatedExceeded { cap: limits.max_total_inflated },
            );
        }
        Ok(())
    }

    /// Count one more member against the cap.
    pub fn add_entry(&mut self, limits: &Limits) -> (r: Result<()>)
        ensures
            *final(self) == old(self).with_entry(),
            match r {
                Ok(_) => final(self).entries <= limits.max_entries,
                Err(e) => final(self).entries > limits.max_entries && e@ == (
                ErrorModel::TooManyEntries { max: limits.max_entries }),
            },
    {
        self.entries = self.entries.saturating_add(1);
        if self.entries > limits.max_entries {
            return Err(ArchiveError::TooManyEntries { max: limits.max_entries });
        }
        Ok(())
    }
}

/// The string of an optional name, or `fallback`.
fn name_or_else(name: Option<&str>, fallback: &str) -> (r: String)
    ensures
        r@ == name_or(opt_chars(name), fallback@),
{
    match name {
        Some(s) => s.to_owned(),
        None => fallback.to_owned(),
    }
}

/// A leaf file node that holds `data`.
pub fn leaf(name: Option<&str>, data: &[u8]) -> (r: Node)
    ensures
        r@ == leaf_of(opt_chars(name), data@),
        r matches Node::File { name: given, bytes } && bytes@ == data@ && given@ == match name {
            Some(s) => s@,
            None => ""@,
        },
{
    Node::File { name: name_or_else(name, ""), bytes: slice_to_vec(data) }
}

/// Strip one trailing bare-compression extension from `name` after a peel, so the
/// inner stream is detected again under its remaining name. Tar aliases stay as
/// they are: those inner streams are known by their magic.
pub fn strip_compression_ext(name: Option<&str>) -> (r: Option<String>)
    ensures
        match r {
            Some(s) => inner_name(opt_chars(name)) == Some(s@),
            None => inner_name(opt_chars(name)) is None,
        },
{
    let s: &str = match name {
        Some(s) => s,
        None => {
            return None;
        },
    };
    proof {
        reveal_strlit(".gz");
        reveal_strlit(".bz2");
        reveal_strlit(".z");
    }
    let low: Vec<char> = lower_chars_of(s);
    let n: usize = low.len();
    if has_suffix(&low, ".gz") {
        Some(s.substring_char(0, n - 3).to_owned())
    } else if has_suffix(&low, ".bz2") {
        Some(s.substring_char(0, n - 4).to_owned())
    } else if has_suffix(&low, ".z") {
        Some(s.substring_char(0, n - 2).to_owned())
    } else {
        Some(s.to_owned())
    }
}

/// The layer chain one layer further in.
fn extend_chain(chain: &str, next: &str) -> (r: String)
    ensures
        r@ == longer_chain(chain@, next@),
{
    let mut child: String = chain.to_owned();
    child.append(" -> ");
    child.append(next);
    child
}

/// What a step of the recursion did to the running totals and the output, whether
/// it went through or stopped on the way.
pub open spec fn stepped(
    r: Result<()>,
    budget: Budget,
    out: Seq<Node>,
    expected: core::result::Result<Progress, Stop>,
) -> bool {
    let at = Progress { budget, nodes: node_models(out) };
    match r {
        Ok(_) => expected == Ok::<Progress, Stop>(at),
        Err(e) => expected == stopped(e@, at),
    }
}

/// Enter the layer of a child: one level deeper, or the depth failure where the
/// levels are used up.
fn resolve_child(
    data: &[u8],
    name: Option<&str>,
    limits: &Limits,
    depth: usize,
    chain: &str,
    budget: &mut Budget,
    out: &mut Vec<Node>,
) -> (r: Result<()>)
    requires
        depth <= limits.max_depth,
    ensures
        stepped(
            r,
            *final(budget),
            final(out)@,
            resolve_layer(
                data@,
                opt_chars(name),
                *limits,
                (limits.max_depth - depth) as nat,
                chain@,
                Progress { budget: *old(budget), nodes: node_models(old(out)@) },
            ),
        ),
    decreases limits.max_depth - depth, 1nat,
{
    if depth == limits.max_depth {
        return Err(
            ArchiveError::DepthExceeded { max: limits.max_depth, chain: chain.to_owned() },
        );
    }
    resolve_into(data, name, limits, depth + 1, chain, budget, out)
}

/// Resolve one layer at `depth` and everything below it into `out`.
pub fn resolve_into(
    data: &[u8],
    name: Option<&str>,
    limits: &Limits,
    depth: usize,
    chain: &str,
    budget: &mut Budget,
    out: &mut Vec<Node>,
) -> (r: Result<()>)
    ensures
        stepped(
            r,
            *final(budget),
            final(out)@,
            resolve_layer(
                data@,
                opt_chars(name),
                *limits,
                layers_left(depth, *limits),
                chain@,
                Progress { budget: *old(budget), nodes: node_models(old(out)@) },
            ),
        ),
    decreases layers_left(depth, *limits), 0nat,
{
    let ghost at = Progress { budget: *budget, nodes: node_models(out@) };
    if depth > limits.max_depth {
        return Err(
            ArchiveError::DepthExceeded { max: limits.max_depth, chain: chain.to_owned() },
        );
    }
    let format: Format = sniff(name, data);
    if format.is_compression_wrapper() {
        let inner: Vec<u8> = match peel_bytes(data, name) {
            Ok(PeelOutcome::Peeled { format: _, inner }) => inner,
            Ok(PeelOutcome::NotPacked) => {
                assert(false);
                return Ok(());
            },
            Err(e) => {
                return Err(e);
            },
        };
        match budget.add_inflated(inner.len(), limits) {
            Ok(_) => {},
            Err(e) => {
                return Err(e);
            },
        }
        return match strip_compression_ext(name) {
            Some(inner_name) => {
                let child: String = extend_chain(chain, inner_name.as_str());
                resolve_child(
                    inner.as_slice(),
                    Some(inner_name.as_str()),
                    limits,
                    depth,
                    child.as_str(),
                    budget,
                    out,
                )
            },
            None => {
                let child: String = extend_chain(chain, "<peeled>");
                resolve_child(inner.as_slice(), None, limits, depth, child.as_str(), budget, out)
            },
        };
    }
    if format.is_archive() {
        let mut archive: Archive = match Archive::open(data, name) {
            Ok(Some(archive)) => archive,
            Ok(None) => {
                assert(false);
                return Ok(());
            },
            Err(e) => {
                return Err(e);
            },
        };
        let count: usize = archive.entries().len();
        let ghost table = archive.table();
        let ghost left = layers_left(depth, *limits);
        let ghost below = (left - 1) as nat;
        let mut i: usize = 0;
        while i < count
            invariant
                i <= count,
                depth <= limits.max_depth,
                below == limits.max_depth - depth,
                left == layers_left(depth, *limits),
                count == table.len(),
                archive.wf(),
                archive.kind() == format,
                archive.source() == data@,
                archive.table() == table,
                format == format_of(opt_chars(name), data@),
                format.holds_members(),
                at == (Progress { budget: *old(budget), nodes: node_models(old(out)@) }),
                resolve_layer(data@, opt_chars(name), *limits, left, chain@, at)
                    == resolve_members(
                    data@,
                    format,
                    table,
                    count as nat,
                    *limits,
                    below,
                    chain@,
                    at,
                ),
                resolve_members(data@, format, table, i as nat, *limits, below, chain@, at) == Ok::<
                    Progress,
                    Stop,
                >(Progress { budget: *budget, nodes: node_models(out@) }),
            decreases count - i,
        {
            let ghost before = Progress { budget: *budget, nodes: node_models(out@) };
            let ghost next = resolve_members(
                data@,
                format,
                table,
                (i + 1) as nat,
                *limits,
                below,
                chain@,
                at,
            );
            proof {
                members_stop_at_error(
                    data@,
                    format,
                    table,
                    (i + 1) as nat,
                    count as nat,
                    *limits,
                    below,
                    chain@,
                    at,
                );
            }
            match budget.add_entry(limits) {
                Ok(_) => {},
                Err(e) => {
                    return Err(e);
                },
            }
            let entry_name: String = archive.entries()[i].name.clone();
            let is_dir: bool = archive.entries()[i].is_dir;
            assert(entry_name@ == table[i as int].name);
            assert(is_dir == table[i as int].is_dir);
            if is_dir {
                let ghost nodes = out@;
                out.push(Node::Dir { name: entry_name });
                assert(node_models(out@) =~= node_models(nodes).push(
                    NodeModel::Dir { name: table[i as int].name },
                ));
            } else {
                let bytes: Vec<u8> = match archive.read(i) {
                    Ok(bytes) => bytes,
                    Err(e) => {
                        return Err(e);
                    },
                };
                match budget.add_inflated(bytes.len(), limits) {
                    Ok(_) => {},
                    Err(e) => {
                        return Err(e);
                    },
                }
                let child: String = extend_chain(chain, entry_name.as_str());
                match resolve_child(
                    bytes.as_slice(),
                    Some(entry_name.as_str()),
                    limits,
                    depth,
                    child.as_str(),
                    budget,
                    out,
                ) {
                    Ok(_) => {},
                    Err(e) => {
                        return Err(e);
                    },
                }
            }
            i = i + 1;
        }
        return Ok(());
    }
    let ghost nodes = out@;
    out.push(leaf(name, data));
    assert(node_models(out@) =~= node_models(nodes).push(leaf_of(opt_chars(name), data@)));
    Ok(())
}

proof fn members_stop_at_error(
    data: Seq<u8>,
    format: Format,
    table: Seq<EntryModel>,
    n: nat,
    count: nat,
    limits: Limits,
    below: nat,
    chain: Seq<char>,
    at: Progress,
)
    requires
        n <= count,
    ensures
        resolve_members(data, format, table, n, limits, below, chain, at) is Err ==> resolve_members(
            data,
            format,
            table,
            count,
            limits,
            below,
            chain,
            at,
        ) == resolve_members(data, format, table, n, limits, below, chain, at),
    decreases count,
{
    if n < count {
        members_stop_at_error(
            data,
            format,
            table,
            n,
            (count - 1) as nat,
            limits,
            below,
            chain,
            at,
        );
    }
}

/// Fully resolve `data` down through every archive layer to a flat list of leaf
/// files, and the directory entries seen on the way.
///
/// # Errors
/// A bomb-guard trip ([`ArchiveError::DepthExceeded`],
/// [`ArchiveError::TooManyEntries`], [`ArchiveError::TotalInflatedExceeded`]), or
/// any decode, open or read failure of an underlying layer.
pub fn resolve(data: &[u8], name: Option<&str>, limits: &Limits) -> (r: Result<Vec<Node>>)
    ensures
        resolve_model(r) == resolve_of(data@, opt_chars(name), *limits),
        format_of(opt_chars(name), data@) is Unknown ==> (r matches Ok(nodes) && nodes@.len() == 1
            && (nodes@[0] matches Node::File { name: given, bytes } && bytes@ == data@ && given@
            == match name {
            Some(s) => s@,
            None => ""@,
        })),
{
    let mut out: Vec<Node> = Vec::new();
    let mut budget: Budget = Budget { total_inflated: 0, entries: 0 };
    let chain: String = name_or_else(name, "<input>");
    assert(node_models(out@) =~= Seq::<NodeModel>::empty());
    match resolve_into(data, name, limits, 0, chain.as_str(), &mut budget, &mut out) {
        Ok(_) => {
            proof {
                if format_of(opt_chars(name), data@) is Unknown {
                    assert(node_models(out@).len() == 1);
                    assert(node_models(out@)[0] == out@[0]@);
                }
            }
            Ok(out)
        },
        Err(e) => Err(e),
    }
}

} // verus!
