//! What holds of a whole resolution: the leaves are unpacked, the guards bound
//! what comes out, and every layer is transparent.

use crate::archive::{
    access_of, listing, member_content, member_extracts, packed_tar_is_the_plain_one, packs_tar,
    EntryModel,
};
use crate::detect::{container_magic_beats_any_name, container_of, format_of, Format};
use crate::detour::{detour_of, DetourModel};
use crate::error::ErrorModel;
use crate::execute::{peeled_by_plan, peeled_member_is_the_extracted_one, SourceModel};
use crate::peel::{wrapped_content, MAX_INFLATED};
use crate::plan::{files_of, plan_of, PlanModel};
use crate::resolve::{
    found, inner_name, leaf_of, longer_chain, name_or, resolve_layer, resolve_members, resolve_of,
    spend_entry, spend_inflated, start, Budget, Limits, NodeModel, Progress,
};
use crate::text::lower;
use vstd::prelude::*;

verus! {

broadcast use vstd::seq::group_seq_axioms;

// ---------------------------------------------------------------------------
// Leaves

/// The node is a directory, or a file that is not itself a packing layer.
pub open spec fn unpacked(node: NodeModel) -> bool {
    match node {
        NodeModel::File { name, bytes } => format_of(Some(name), bytes) is Unknown,
        NodeModel::Dir { .. } => true,
    }
}

/// Every node is unpacked.
pub open spec fn all_unpacked(nodes: Seq<NodeModel>) -> bool {
    forall|i: int| 0 <= i < nodes.len() ==> unpacked(#[trigger] nodes[i])
}

/// An empty name says as little as no name.
pub proof fn empty_name_says_nothing(head: Seq<u8>)
    ensures
        format_of(Some(""@), head) == format_of(None, head),
{
    reveal_strlit("");
    reveal_strlit(".tgz");
    reveal_strlit(".tar.gz");
    reveal_strlit(".tbz2");
    reveal_strlit(".tar.bz2");
    reveal_strlit(".tbz");
    reveal_strlit(".tb2");
    reveal_strlit(".7z");
    reveal_strlit(".zip");
    reveal_strlit(".clbx");
    reveal_strlit(".tar");
    reveal_strlit(".gz");
    reveal_strlit(".bz2");
    assert(lower(""@).len() == 0);
}

proof fn layer_leaves_are_unpacked(
    data: Seq<u8>,
    name: Option<Seq<char>>,
    limits: Limits,
    left: nat,
    chain: Seq<char>,
    at: Progress,
)
    requires
        all_unpacked(at.nodes),
        resolve_layer(data, name, limits, left, chain, at) is Ok,
    ensures
        all_unpacked(resolve_layer(data, name, limits, left, chain, at)->Ok_0.nodes),
    decreases left, 1nat, 0nat,
{
    let format = format_of(name, data);
    if format.wraps_one() {
        let inner = wrapped_content(format, data, MAX_INFLATED)->Some_0->Ok_0;
        let spent = spend_inflated(at, inner.len(), limits)->Ok_0;
        layer_leaves_are_unpacked(
            inner,
            inner_name(name),
            limits,
            (left - 1) as nat,
            longer_chain(chain, name_or(inner_name(name), "<peeled>"@)),
            spent,
        );
    } else if format.holds_members() {
        let table = listing(format, data)->Ok_0->Some_0;
        member_leaves_are_unpacked(
            data,
            format,
            table,
            table.len(),
            limits,
            (left - 1) as nat,
            chain,
            at,
        );
    } else {
        empty_name_says_nothing(data);
        assert(unpacked(leaf_of(name, data)));
    }
}

proof fn member_leaves_are_unpacked(
    data: Seq<u8>,
    format: Format,
    table: Seq<EntryModel>,
    n: nat,
    limits: Limits,
    below: nat,
    chain: Seq<char>,
    at: Progress,
)
    requires
        all_unpacked(at.nodes),
        resolve_members(data, format, table, n, limits, below, chain, at) is Ok,
    ensures
        all_unpacked(
            resolve_members(data, format, table, n, limits, below, chain, at)->Ok_0.nodes,
        ),
    decreases below + 1, 0nat, n,
{
    if n > 0 {
        let index = (n - 1) as nat;
        member_leaves_are_unpacked(data, format, table, index, limits, below, chain, at);
        let before = resolve_members(
            data,
            format,
            table,
            index,
            limits,
            below,
            chain,
            at,
        )->Ok_0;
        let counted = spend_entry(before, limits)->Ok_0;
        let entry = table[index as int];
        if entry.is_dir {
            assert(unpacked(NodeModel::Dir { name: entry.name }));
        } else {
            let bytes = member_content(
                format,
                data,
                table,
                index as usize,
                MAX_INFLATED,
            )->Ok_0;
            let spent = spend_inflated(counted, bytes.len(), limits)->Ok_0;
            layer_leaves_are_unpacked(
                bytes,
                Some(entry.name),
                limits,
                below,
                longer_chain(chain, entry.name),
                spent,
            );
        }
    }
}

/// A resolution goes all the way down: no file that it returns is itself a
/// recognized packing layer under the name it is returned with.
pub proof fn resolved_leaves_are_unpacked(
    data: Seq<u8>,
    name: Option<Seq<char>>,
    limits: Limits,
)
    requires
        resolve_of(data, name, limits) is Ok,
    ensures
        all_unpacked(resolve_of(data, name, limits)->Ok_0),
{
    layer_leaves_are_unpacked(
        data,
        name,
        limits,
        (limits.max_depth + 1) as nat,
        name_or(name, "<input>"@),
        start(),
    );
}

/// Input that is no packing layer comes back as the single leaf that it is, under
/// any limits.
pub proof fn unpacked_input_is_its_own_leaf(
    data: Seq<u8>,
    name: Option<Seq<char>>,
    limits: Limits,
)
    requires
        format_of(name, data) is Unknown,
    ensures
        resolve_of(data, name, limits) == Ok::<Seq<NodeModel>, ErrorModel>(
            seq![leaf_of(name, data)],
        ),
{
    assert(start().nodes.push(leaf_of(name, data)) =~= seq![leaf_of(name, data)]);
}

// ---------------------------------------------------------------------------
// Guards

/// The bytes of all the files among the nodes.
pub open spec fn file_bytes(nodes: Seq<NodeModel>) -> nat
    decreases nodes.len(),
{
    if nodes.len() == 0 {
        0
    } else {
        file_bytes(nodes.drop_last()) + match nodes.last() {
            NodeModel::File { bytes, .. } => bytes.len(),
            NodeModel::Dir { .. } => 0,
        }
    }
}

proof fn one_more_node(at: Progress, node: NodeModel)
    ensures
        file_bytes(found(at, node).nodes) == file_bytes(at.nodes) + match node {
            NodeModel::File { bytes, .. } => bytes.len(),
            NodeModel::Dir { .. } => 0,
        },
{
    assert(at.nodes.push(node).drop_last() =~= at.nodes);
}

/// The totals are within the caps.
pub open spec fn within(budget: Budget, limits: Limits) -> bool {
    budget.total_inflated <= limits.max_total_inflated && budget.entries <= limits.max_entries
}

proof fn layer_is_bounded(
    data: Seq<u8>,
    name: Option<Seq<char>>,
    limits: Limits,
    left: nat,
    chain: Seq<char>,
    at: Progress,
)
    requires
        within(at.budget, limits),
        resolve_layer(data, name, limits, left, chain, at) is Ok,
    ensures
        ({
            let end = resolve_layer(data, name, limits, left, chain, at)->Ok_0;
            let entries = end.budget.entries - at.budget.entries;
            let inflated = end.budget.total_inflated - at.budget.total_inflated;
            &&& within(end.budget, limits)
            &&& entries >= 0
            &&& inflated >= 0
            &&& limits.max_entries < usize::MAX ==> end.nodes.len() - at.nodes.len() <= if entries
                >= 1 {
                entries
            } else {
                1
            }
            &&& limits.max_total_inflated < u64::MAX ==> file_bytes(end.nodes) - file_bytes(
                at.nodes,
            ) <= if format_of(
                name,
                data,
            ) is Unknown {
                data.len() as int
            } else {
                inflated
            }
        }),
    decreases left, 1nat, 0nat,
{
    let format = format_of(name, data);
    if format.wraps_one() {
        let inner = wrapped_content(format, data, MAX_INFLATED)->Some_0->Ok_0;
        let spent = spend_inflated(at, inner.len(), limits)->Ok_0;
        layer_is_bounded(
            inner,
            inner_name(name),
            limits,
            (left - 1) as nat,
            longer_chain(chain, name_or(inner_name(name), "<peeled>"@)),
            spent,
        );
    } else if format.holds_members() {
        let table = listing(format, data)->Ok_0->Some_0;
        members_are_bounded(
            data,
            format,
            table,
            table.len(),
            limits,
            (left - 1) as nat,
            chain,
            at,
        );
    } else {
        one_more_node(at, leaf_of(name, data));
    }
}

proof fn members_are_bounded(
    data: Seq<u8>,
    format: Format,
    table: Seq<EntryModel>,
    n: nat,
    limits: Limits,
    below: nat,
    chain: Seq<char>,
    at: Progress,
)
    requires
        within(at.budget, limits),
        resolve_members(data, format, table, n, limits, below, chain, at) is Ok,
    ensures
        ({
            let end = resolve_members(data, format, table, n, limits, below, chain, at)->Ok_0;
            let entries = end.budget.entries - at.budget.entries;
            let inflated = end.budget.total_inflated - at.budget.total_inflated;
            &&& within(end.budget, limits)
            &&& entries >= 0
            &&& inflated >= 0
            &&& limits.max_entries < usize::MAX ==> end.nodes.len() - at.nodes.len() <= entries
            &&& limits.max_total_inflated < u64::MAX ==> file_bytes(end.nodes) - file_bytes(
                at.nodes,
            ) <= inflated
        }),
    decreases below + 1, 0nat, n,
{
    if n > 0 {
        let index = (n - 1) as nat;
        members_are_bounded(data, format, table, index, limits, below, chain, at);
        let before = resolve_members(
            data,
            format,
            table,
            index,
            limits,
            below,
            chain,
            at,
        )->Ok_0;
        let counted = spend_entry(before, limits)->Ok_0;
        let entry = table[index as int];
        if entry.is_dir {
            one_more_node(counted, NodeModel::Dir { name: entry.name });
        } else {
            let bytes = member_content(
                format,
                data,
                table,
                index as usize,
                MAX_INFLATED,
            )->Ok_0;
            let spent = spend_inflated(counted, bytes.len(), limits)->Ok_0;
            layer_is_bounded(
                bytes,
                Some(entry.name),
                limits,
                below,
                longer_chain(chain, entry.name),
                spent,
            );
        }
    }
}

/// The guards bound the whole output across all layers: no more nodes than the
/// member cap (or the one leaf of an archive-free input), and of packed input no
/// more file bytes than the inflation cap. A cap at the maximum of its type is none.
pub proof fn guards_bound_the_output(data: Seq<u8>, name: Option<Seq<char>>, limits: Limits)
    requires
        resolve_of(data, name, limits) is Ok,
    ensures
        ({
            let nodes = resolve_of(data, name, limits)->Ok_0;
            &&& limits.max_entries < usize::MAX ==> nodes.len() <= limits.max_entries
                || nodes.len() <= 1
            &&& limits.max_total_inflated < u64::MAX && format_of(name, data) !is Unknown
                ==> file_bytes(nodes) <= limits.max_total_inflated
        }),
{
    reveal_with_fuel(file_bytes, 1);
    layer_is_bounded(
        data,
        name,
        limits,
        (limits.max_depth + 1) as nat,
        name_or(name, "<input>"@),
        start(),
    );
}

/// `data` is at least `n` decodable wrappers deep.
pub open spec fn wrapped_times(data: Seq<u8>, name: Option<Seq<char>>, n: nat) -> bool
    decreases n,
{
    n == 0 || {
        let format = format_of(name, data);
        &&& format.wraps_one()
        &&& wrapped_content(format, data, MAX_INFLATED)->Some_0 matches Ok(inner)
        &&& wrapped_times(inner, inner_name(name), (n - 1) as nat)
    }
}

proof fn layer_too_deep(
    data: Seq<u8>,
    name: Option<Seq<char>>,
    limits: Limits,
    left: nat,
    chain: Seq<char>,
    at: Progress,
    n: nat,
)
    requires
        wrapped_times(data, name, n),
        n >= left,
    ensures
        resolve_layer(data, name, limits, left, chain, at) is Err,
        limits.max_total_inflated == u64::MAX ==> resolve_layer(
            data,
            name,
            limits,
            left,
            chain,
            at,
        )->Err_0.error is DepthExceeded,
    decreases left,
{
    if left > 0 {
        let inner = wrapped_content(format_of(name, data), data, MAX_INFLATED)->Some_0->Ok_0;
        if let Ok(spent) = spend_inflated(at, inner.len(), limits) {
            layer_too_deep(
                inner,
                inner_name(name),
                limits,
                (left - 1) as nat,
                longer_chain(chain, name_or(inner_name(name), "<peeled>"@)),
                spent,
                (n - 1) as nat,
            );
        }
    }
}

/// Nesting past the depth limit never resolves: it fails on the depth guard, unless
/// the inflation guard trips on the way.
pub proof fn nesting_past_the_limit_fails(
    data: Seq<u8>,
    name: Option<Seq<char>>,
    limits: Limits,
    n: nat,
)
    requires
        wrapped_times(data, name, n),
        n > limits.max_depth,
    ensures
        resolve_of(data, name, limits) is Err,
        limits.max_total_inflated == u64::MAX ==> resolve_of(data, name, limits)->Err_0
            is DepthExceeded,
{
    layer_too_deep(
        data,
        name,
        limits,
        (limits.max_depth + 1) as nat,
        name_or(name, "<input>"@),
        start(),
        n,
    );
}

// ---------------------------------------------------------------------------
// Transparency

/// There is at least as much room left of `wide` after `spent_wide` as there is
/// of `tight` after `spent_tight`.
pub open spec fn roomier(
    tight: Limits,
    spent_tight: Budget,
    wide: Limits,
    spent_wide: Budget,
) -> bool {
    &&& wide.max_total_inflated == u64::MAX || (tight.max_total_inflated < u64::MAX
        && spent_wide.total_inflated + tight.max_total_inflated <= spent_tight.total_inflated
        + wide.max_total_inflated)
    &&& wide.max_entries == usize::MAX || (tight.max_entries < usize::MAX && spent_wide.entries
        + tight.max_entries <= spent_tight.entries + wide.max_entries)
}

/// What was found between two points of a resolution.
pub open spec fn since(at: Progress, end: Progress) -> Seq<NodeModel> {
    end.nodes.skip(at.nodes.len() as int)
}

proof fn layer_in_more_room(
    data: Seq<u8>,
    name: Option<Seq<char>>,
    tight: Limits,
    left: nat,
    chain: Seq<char>,
    at: Progress,
    wide: Limits,
    left2: nat,
    chain2: Seq<char>,
    at2: Progress,
)
    requires
        resolve_layer(data, name, tight, left, chain, at) is Ok,
        left <= left2,
        roomier(tight, at.budget, wide, at2.budget),
    ensures
        resolve_layer(data, name, wide, left2, chain2, at2) is Ok,
        ({
            let end = resolve_layer(data, name, tight, left, chain, at)->Ok_0;
            let end2 = resolve_layer(data, name, wide, left2, chain2, at2)->Ok_0;
            &&& roomier(tight, end.budget, wide, end2.budget)
            &&& end.nodes == at.nodes + since(at, end)
            &&& end2.nodes == at2.nodes + since(at, end)
        }),
    decreases left, 1nat, 0nat,
{
    let format = format_of(name, data);
    let end = resolve_layer(data, name, tight, left, chain, at)->Ok_0;
    if format.wraps_one() {
        let inner = wrapped_content(format, data, MAX_INFLATED)->Some_0->Ok_0;
        let spent = spend_inflated(at, inner.len(), tight)->Ok_0;
        assert(spend_inflated(at2, inner.len(), wide) is Ok);
        let spent2 = spend_inflated(at2, inner.len(), wide)->Ok_0;
        layer_in_more_room(
            inner,
            inner_name(name),
            tight,
            (left - 1) as nat,
            longer_chain(chain, name_or(inner_name(name), "<peeled>"@)),
            spent,
            wide,
            (left2 - 1) as nat,
            longer_chain(chain2, name_or(inner_name(name), "<peeled>"@)),
            spent2,
        );
    } else if format.holds_members() {
        let table = listing(format, data)->Ok_0->Some_0;
        members_in_more_room(
            data,
            format,
            table,
            table.len(),
            tight,
            (left - 1) as nat,
            chain,
            at,
            wide,
            (left2 - 1) as nat,
            chain2,
            at2,
        );
    } else {
        let node = leaf_of(name, data);
        assert(since(at, end) =~= seq![node]);
        assert(at.nodes.push(node) =~= at.nodes + seq![node]);
        assert(at2.nodes.push(node) =~= at2.nodes + seq![node]);
    }
}

proof fn members_in_more_room(
    data: Seq<u8>,
    format: Format,
    table: Seq<EntryModel>,
    n: nat,
    tight: Limits,
    below: nat,
    chain: Seq<char>,
    at: Progress,
    wide: Limits,
    below2: nat,
    chain2: Seq<char>,
    at2: Progress,
)
    requires
        resolve_members(data, format, table, n, tight, below, chain, at) is Ok,
        below <= below2,
        roomier(tight, at.budget, wide, at2.budget),
    ensures
        resolve_members(data, format, table, n, wide, below2, chain2, at2) is Ok,
        ({
            let end = resolve_members(data, format, table, n, tight, below, chain, at)->Ok_0;
            let end2 = resolve_members(data, format, table, n, wide, below2, chain2, at2)->Ok_0;
            &&& roomier(tight, end.budget, wide, end2.budget)
            &&& end.nodes == at.nodes + since(at, end)
            &&& end2.nodes == at2.nodes + since(at, end)
        }),
    decreases below + 1, 0nat, n,
{
    let end = resolve_members(data, format, table, n, tight, below, chain, at)->Ok_0;
    if n == 0 {
        assert(since(at, end) =~= Seq::<NodeModel>::empty());
        assert(at.nodes + Seq::<NodeModel>::empty() =~= at.nodes);
        assert(at2.nodes + Seq::<NodeModel>::empty() =~= at2.nodes);
    } else {
        let index = (n - 1) as nat;
        members_in_more_room(
            data,
            format,
            table,
            index,
            tight,
            below,
            chain,
            at,
            wide,
            below2,
            chain2,
            at2,
        );
        let before = resolve_members(data, format, table, index, tight, below, chain, at)->Ok_0;
        let before2 = resolve_members(
            data,
            format,
            table,
            index,
            wide,
            below2,
            chain2,
            at2,
        )->Ok_0;
        let counted = spend_entry(before, tight)->Ok_0;
        assert(spend_entry(before2, wide) is Ok);
        let counted2 = spend_entry(before2, wide)->Ok_0;
        let entry = table[index as int];
        let first = since(at, before);
        if entry.is_dir {
            let node = NodeModel::Dir { name: entry.name };
            assert(since(at, end) =~= first.push(node));
            assert(at.nodes + first.push(node) =~= (at.nodes + first).push(node));
            assert(at2.nodes + first.push(node) =~= (at2.nodes + first).push(node));
        } else {
            let bytes = member_content(
                format,
                data,
                table,
                index as usize,
                MAX_INFLATED,
            )->Ok_0;
            let spent = spend_inflated(counted, bytes.len(), tight)->Ok_0;
            assert(spend_inflated(counted2, bytes.len(), wide) is Ok);
            let spent2 = spend_inflated(counted2, bytes.len(), wide)->Ok_0;
            layer_in_more_room(
                bytes,
                Some(entry.name),
                tight,
                below,
                longer_chain(chain, entry.name),
                spent,
                wide,
                below2,
                longer_chain(chain2, entry.name),
                spent2,
            );
            let second = since(spent, end);
            assert(since(at, end) =~= first + second);
            assert(at.nodes + (first + second) =~= (at.nodes + first) + second);
            assert(at2.nodes + (first + second) =~= (at2.nodes + first) + second);
        }
    }
}

/// Raising a guard never changes a success: what resolves under tight limits
/// resolves under wider ones to the same nodes.
pub proof fn wider_limits_keep_a_success(
    data: Seq<u8>,
    name: Option<Seq<char>>,
    tight: Limits,
    wide: Limits,
)
    requires
        resolve_of(data, name, tight) is Ok,
        wide.max_depth >= tight.max_depth,
        wide.max_total_inflated >= tight.max_total_inflated,
        wide.max_entries >= tight.max_entries,
    ensures
        resolve_of(data, name, wide) == resolve_of(data, name, tight),
{
    let chain = name_or(name, "<input>"@);
    layer_in_more_room(
        data,
        name,
        tight,
        (tight.max_depth + 1) as nat,
        chain,
        start(),
        wide,
        (wide.max_depth + 1) as nat,
        chain,
        start(),
    );
    let end = resolve_layer(data, name, tight, (tight.max_depth + 1) as nat, chain, start())->Ok_0;
    assert(start().nodes + since(start(), end) =~= end.nodes);
}

/// A compression wrapper is transparent: where `foo.gz` resolves, what it holds
/// resolves under its own name to the same nodes.
pub proof fn wrapper_is_transparent(
    data: Seq<u8>,
    name: Option<Seq<char>>,
    inner: Seq<u8>,
    limits: Limits,
)
    requires
        format_of(name, data).wraps_one(),
        wrapped_content(format_of(name, data), data, MAX_INFLATED) == Some(
            Ok::<Seq<u8>, ErrorModel>(inner),
        ),
        resolve_of(data, name, limits) is Ok,
    ensures
        resolve_of(inner, inner_name(name), limits) == resolve_of(data, name, limits),
{
    let spent = spend_inflated(start(), inner.len(), limits)->Ok_0;
    let chain = longer_chain(
        name_or(name, "<input>"@),
        name_or(inner_name(name), "<peeled>"@),
    );
    layer_in_more_room(
        inner,
        inner_name(name),
        limits,
        limits.max_depth as nat,
        chain,
        spent,
        limits,
        (limits.max_depth + 1) as nat,
        name_or(inner_name(name), "<input>"@),
        start(),
    );
    let end = resolve_layer(
        inner,
        inner_name(name),
        limits,
        limits.max_depth as nat,
        chain,
        spent,
    )->Ok_0;
    assert(start().nodes + since(spent, end) =~= end.nodes);
}

/// Packing changes nothing but the room it takes: where the content resolves, its
/// wrapper resolves to the same nodes under limits with one more layer and with
/// room for the inflated content.
pub proof fn wrapping_changes_nothing(
    data: Seq<u8>,
    name: Option<Seq<char>>,
    inner: Seq<u8>,
    tight: Limits,
    wide: Limits,
)
    requires
        format_of(name, data).wraps_one(),
        wrapped_content(format_of(name, data), data, MAX_INFLATED) == Some(
            Ok::<Seq<u8>, ErrorModel>(inner),
        ),
        resolve_of(inner, inner_name(name), tight) is Ok,
        wide.max_depth > tight.max_depth,
        wide.max_entries >= tight.max_entries,
        wide.max_total_inflated >= tight.max_total_inflated + inner.len() || wide.max_total_inflated
            == u64::MAX,
    ensures
        resolve_of(data, name, wide) == resolve_of(inner, inner_name(name), tight),
{
    let spent = spend_inflated(start(), inner.len(), wide)->Ok_0;
    assert(spend_inflated(start(), inner.len(), wide) is Ok);
    let chain = longer_chain(
        name_or(name, "<input>"@),
        name_or(inner_name(name), "<peeled>"@),
    );
    assert(inner.len() <= MAX_INFLATED);
    layer_in_more_room(
        inner,
        inner_name(name),
        tight,
        (tight.max_depth + 1) as nat,
        name_or(inner_name(name), "<input>"@),
        start(),
        wide,
        wide.max_depth as nat,
        chain,
        spent,
    );
    let end = resolve_layer(
        inner,
        inner_name(name),
        tight,
        (tight.max_depth + 1) as nat,
        name_or(inner_name(name), "<input>"@),
        start(),
    )->Ok_0;
    assert(start().nodes + since(start(), end) =~= end.nodes);
    assert(spent.nodes + since(start(), end) =~= end.nodes);
}

/// What the first `n` members of an archive come to, each resolved on its own.
pub open spec fn nodes_of_members(
    data: Seq<u8>,
    format: Format,
    table: Seq<EntryModel>,
    n: nat,
    limits: Limits,
) -> Seq<NodeModel>
    decreases n,
{
    if n == 0 {
        Seq::empty()
    } else {
        let entry = table[n - 1];
        nodes_of_members(data, format, table, (n - 1) as nat, limits) + if entry.is_dir {
            seq![NodeModel::Dir { name: entry.name }]
        } else {
            resolve_of(
                member_content(format, data, table, (n - 1) as usize, MAX_INFLATED)->Ok_0,
                Some(entry.name),
                limits,
            )->Ok_0
        }
    }
}

proof fn members_on_their_own(
    data: Seq<u8>,
    format: Format,
    table: Seq<EntryModel>,
    n: nat,
    limits: Limits,
    chain: Seq<char>,
)
    requires
        resolve_members(
            data,
            format,
            table,
            n,
            limits,
            limits.max_depth as nat,
            chain,
            start(),
        ) is Ok,
    ensures
        resolve_members(
            data,
            format,
            table,
            n,
            limits,
            limits.max_depth as nat,
            chain,
            start(),
        )->Ok_0.nodes == nodes_of_members(data, format, table, n, limits),
        forall|i: int|
            0 <= i < n && !(#[trigger] table[i]).is_dir ==> {
                let content = member_content(format, data, table, i as usize, MAX_INFLATED);
                content is Ok && resolve_of(content->Ok_0, Some(table[i].name), limits) is Ok
            },
    decreases n,
{
    if n > 0 {
        let index = (n - 1) as nat;
        members_on_their_own(data, format, table, index, limits, chain);
        let below = limits.max_depth as nat;
        let before = resolve_members(
            data,
            format,
            table,
            index,
            limits,
            below,
            chain,
            start(),
        )->Ok_0;
        let counted = spend_entry(before, limits)->Ok_0;
        let entry = table[index as int];
        if entry.is_dir {
            let node = NodeModel::Dir { name: entry.name };
            assert(before.nodes.push(node) =~= before.nodes + seq![node]);
        } else {
            let bytes = member_content(
                format,
                data,
                table,
                index as usize,
                MAX_INFLATED,
            )->Ok_0;
            let spent = spend_inflated(counted, bytes.len(), limits)->Ok_0;
            let end = resolve_layer(
                bytes,
                Some(entry.name),
                limits,
                below,
                longer_chain(chain, entry.name),
                spent,
            )->Ok_0;
            layer_in_more_room(
                bytes,
                Some(entry.name),
                limits,
                below,
                longer_chain(chain, entry.name),
                spent,
                limits,
                below + 1,
                entry.name,
                start(),
            );
            assert(start().nodes + since(spent, end) =~= since(spent, end));
        }
    }
}

/// An archive is transparent: where it resolves, each of its file members resolves
/// on its own, and the archive comes to its directories and its members' nodes in
/// table order.
pub proof fn archive_is_transparent(
    data: Seq<u8>,
    name: Option<Seq<char>>,
    table: Seq<EntryModel>,
    limits: Limits,
)
    requires
        format_of(name, data).holds_members(),
        listing(format_of(name, data), data) == Ok::<Option<Seq<EntryModel>>, ErrorModel>(
            Some(table),
        ),
        resolve_of(data, name, limits) is Ok,
    ensures
        resolve_of(data, name, limits) == Ok::<Seq<NodeModel>, ErrorModel>(
            nodes_of_members(data, format_of(name, data), table, table.len(), limits),
        ),
        forall|i: int|
            0 <= i < table.len() && !(#[trigger] table[i]).is_dir ==> {
                let content = member_content(
                    format_of(name, data),
                    data,
                    table,
                    i as usize,
                    MAX_INFLATED,
                );
                content is Ok && resolve_of(content->Ok_0, Some(table[i].name), limits) is Ok
            },
{
    members_on_their_own(
        data,
        format_of(name, data),
        table,
        table.len(),
        limits,
        name_or(name, "<input>"@),
    );
}

proof fn packed_members_resolve_alike(
    data: Seq<u8>,
    format: Format,
    inner: Seq<u8>,
    table: Seq<EntryModel>,
    n: nat,
    limits: Limits,
    below: nat,
    chain: Seq<char>,
    at: Progress,
)
    requires
        packs_tar(format, data, inner),
    ensures
        resolve_members(data, format, table, n, limits, below, chain, at) == resolve_members(
            inner,
            Format::Tar,
            table,
            n,
            limits,
            below,
            chain,
            at,
        ),
    decreases n,
{
    if n > 0 {
        let index = (n - 1) as nat;
        packed_members_resolve_alike(data, format, inner, table, index, limits, below, chain, at);
        packed_tar_is_the_plain_one(format, data, inner, index as usize, MAX_INFLATED);
    }
}

/// A compressed tar resolves, under the same name and limits, exactly as the tar
/// inside it does.
pub proof fn compressed_tar_resolves_as_its_tar(
    data: Seq<u8>,
    name: Option<Seq<char>>,
    inner: Seq<u8>,
    limits: Limits,
)
    requires
        packs_tar(format_of(name, data), data, inner),
        format_of(name, inner) is Tar,
    ensures
        resolve_of(data, name, limits) == resolve_of(inner, name, limits),
{
    let format = format_of(name, data);
    packed_tar_is_the_plain_one(format, data, inner, 0, MAX_INFLATED);
    if let Ok(Some(table)) = listing(format, data) {
        packed_members_resolve_alike(
            data,
            format,
            inner,
            table,
            table.len(),
            limits,
            limits.max_depth as nat,
            name_or(name, "<input>"@),
            start(),
        );
    }
}

// ---------------------------------------------------------------------------
// The two single-image peels

/// The seekable peel is the twin of the detour: of a one-member container it reads
/// as the bytes that the detour extracts.
pub proof fn seekable_peel_reads_as_the_detour(
    data: Seq<u8>,
    name: Option<Seq<char>>,
    limits: Limits,
    table: Seq<EntryModel>,
    inner: Seq<u8>,
    plan: PlanModel,
    model: SourceModel,
)
    requires
        container_of(data) is Some,
        listing(format_of(None, data), data) == Ok::<Option<Seq<EntryModel>>, ErrorModel>(
            Some(table),
        ),
        detour_of(data, name, limits) == Ok::<DetourModel, ErrorModel>(DetourModel::Inner(inner)),
        member_extracts(
            format_of(None, data),
            data,
            table,
            files_of(table, table.len())[0].0,
            inner,
        ),
        plan_of(data) == Ok::<PlanModel, ErrorModel>(plan),
        peeled_by_plan(plan, data, limits) == Some(Ok::<SourceModel, ErrorModel>(model)),
    ensures
        model.reads_as(data) == inner,
{
    let format = format_of(None, data);
    container_magic_beats_any_name(name, None, data);
    let index = files_of(table, table.len())[0].0;
    let access = access_of(format, data, table.len(), index)->Ok_0;
    peeled_member_is_the_extracted_one(
        format,
        data,
        table,
        index,
        access,
        limits.max_total_inflated,
        inner,
        model,
    );
}

} // verus!
