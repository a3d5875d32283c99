//! One step of the search from the payee back to the payer: offering every
//! usable channel into a node as a way to reach it, and the measure by which
//! the search is known to end.

use crate::features::{FeatureContext, flags_in_context, flags_require_unknown_bits};
use crate::network_graph::{
    ChannelEntry,
    DirectionalChannelInfo,
    NetworkGraph,
    NodeEntry,
    NodeInfo,
    RoutingFees,
    has_channel,
    has_node,
    is_first_channel,
    is_first_node,
};
use crate::routing::payment_path::{capped_add, fee_for};
use crate::primitives::PublicKey;
use crate::routing::route::{ChannelDetails, RouteHint};
use crate::routing::routing_state::{
    RouteGraphNode,
    RoutingState,
    RoutingStateView,
    WeightedVertexView,
    amount_over,
    edge_cost,
    edge_qualifies,
    has_vertex,
    inbound_fees_of,
    is_first_vertex,
    lemma_fee_for_bounds,
    liquidity_position,
    liquidity_with,
    placeholder_vertex,
    state_weighed,
    state_with_edge,
    vertex_position,
    vertex_through,
    vertices_with,
};
use vstd::prelude::*;

verus! {

/// The search state after the channel `scid` has been looked at as a way into
/// `node_id`. A channel that the graph does not hold, or whose features ask
/// for something unknown, is passed over. So is a direction that was not
/// announced or is disabled, and, where the caller named our own channels, a
/// channel from ourselves.
pub open spec fn state_with_channel(
    state: RoutingStateView,
    channels: Seq<ChannelEntry>,
    nodes: Seq<NodeEntry>,
    scid: u64,
    node_id: PublicKey,
    fee_to_target_msat: u64,
    first_hops_given: bool,
) -> RoutingStateView {
    if !has_channel(channels, scid) {
        state
    } else {
        let chan = channels[choose|i: int| is_first_channel(channels, scid, i)].info;
        if flags_require_unknown_bits(chan.features@, FeatureContext::Channel) {
            state
        } else if chan.node_one == node_id {
            if (!first_hops_given || chan.node_two != state.payer_node_id) && chan.two_to_one
                is Some && chan.two_to_one->0.enabled {
                state_with_edge(
                    state,
                    scid,
                    chan.node_two,
                    chan.node_one,
                    chan.two_to_one->0,
                    chan.capacity_sats,
                    chan.features@,
                    fee_to_target_msat,
                    nodes,
                )
            } else {
                state
            }
        } else {
            if (!first_hops_given || chan.node_one != state.payer_node_id) && chan.one_to_two
                is Some && chan.one_to_two->0.enabled {
                state_with_edge(
                    state,
                    scid,
                    chan.node_one,
                    chan.node_two,
                    chan.one_to_two->0,
                    chan.capacity_sats,
                    chan.features@,
                    fee_to_target_msat,
                    nodes,
                )
            } else {
                state
            }
        }
    }
}

/// The search state after the first `upto` of the channels `ids` have been
/// looked at, in their order, as ways into `node_id`.
pub open spec fn state_with_channels(
    state: RoutingStateView,
    channels: Seq<ChannelEntry>,
    nodes: Seq<NodeEntry>,
    ids: Seq<u64>,
    node_id: PublicKey,
    fee_to_target_msat: u64,
    first_hops_given: bool,
    upto: int,
) -> RoutingStateView
    decreases upto,
{
    if upto <= 0 {
        state
    } else {
        state_with_channel(
            state_with_channels(
                state,
                channels,
                nodes,
                ids,
                node_id,
                fee_to_target_msat,
                first_hops_given,
                upto - 1,
            ),
            channels,
            nodes,
            ids[upto - 1],
            node_id,
            fee_to_target_msat,
            first_hops_given,
        )
    }
}

/// Whether payments may pass through a node: it has announced no feature
/// that is unknown and required.
pub open spec fn node_usable(node: NodeInfo) -> bool {
    match node.announcement_info {
        Some(info) => !flags_require_unknown_bits(info.features@, FeatureContext::Node),
        None => true,
    }
}

/// What the cheapest known way out of `node` costs; more than any cost where
/// none is known.
pub open spec fn vertex_cost(vertices: Seq<WeightedVertexView>, node: PublicKey) -> int {
    if has_vertex(vertices, node) {
        vertices[vertex_position(vertices, node)].hop.fee_weight()
    } else {
        u64::MAX + 1
    }
}

/// What the cheapest known way out of `node` can still fall by; nothing for
/// ourselves, where the search ends.
pub open spec fn node_cost(vertices: Seq<WeightedVertexView>, payer: PublicKey, node: PublicKey) -> int {
    if node == payer {
        0
    } else {
        vertex_cost(vertices, node)
    }
}

/// The costs of the ways out of both ends of the first `upto` channels, added
/// up.
pub open spec fn endpoint_costs(
    channels: Seq<ChannelEntry>,
    vertices: Seq<WeightedVertexView>,
    payer: PublicKey,
    upto: int,
) -> int
    decreases upto,
{
    if upto <= 0 {
        0
    } else {
        endpoint_costs(channels, vertices, payer, upto - 1) + node_cost(
            vertices,
            payer,
            channels[upto - 1].info.node_one,
        ) + node_cost(vertices, payer, channels[upto - 1].info.node_two)
    }
}

/// How many of the first `upto` waiting nodes are not ourselves.
pub open spec fn waiting_others(edges: Seq<RouteGraphNode>, payer: PublicKey, upto: int) -> int
    decreases upto,
{
    if upto <= 0 {
        0
    } else {
        waiting_others(edges, payer, upto - 1) + if edges[upto - 1].pubkey != payer {
            1int
        } else {
            0int
        }
    }
}

/// What bounds the rest of a search: the nodes waiting other than ourselves,
/// and how far the costs of the ways out of every channel's ends can still
/// fall. Looking at a node takes it from those waiting, and a node other than
/// ourselves is queued only when its cost falls. Once we are looked at
/// ourselves the search is over.
pub open spec fn search_measure(state: RoutingStateView, channels: Seq<ChannelEntry>) -> int {
    waiting_others(
        state.targeted_edges,
        state.payer_node_id,
        state.targeted_edges.len() as int,
    ) + endpoint_costs(
        channels,
        state.weighted_vertices,
        state.payer_node_id,
        channels.len() as int,
    )
}

/// Whether `node` is ourselves or an end of a channel in the graph.
pub open spec fn is_search_node(channels: Seq<ChannelEntry>, payer: PublicKey, node: PublicKey) -> bool {
    node == payer || exists|i: int|
        0 <= i < channels.len() && (#[trigger] channels[i].info.node_one == node
            || channels[i].info.node_two == node)
}

/// The search measure is never negative.
pub proof fn lemma_search_measure_nonnegative(state: RoutingStateView, channels: Seq<ChannelEntry>)
    ensures
        0 <= search_measure(state, channels),
{
    lemma_waiting_others_bounds(
        state.targeted_edges,
        state.payer_node_id,
        state.targeted_edges.len() as int,
    );
    lemma_endpoint_costs_nonnegative(
        channels,
        state.weighted_vertices,
        state.payer_node_id,
        channels.len() as int,
    );
}

/// The count of waiting nodes is never negative.
pub proof fn lemma_waiting_others_bounds(edges: Seq<RouteGraphNode>, payer: PublicKey, upto: int)
    ensures
        0 <= waiting_others(edges, payer, upto),
    decreases upto,
{
    if upto > 0 {
        lemma_waiting_others_bounds(edges, payer, upto - 1);
    }
}

/// The count of waiting nodes depends only on the nodes counted.
pub proof fn lemma_waiting_others_prefix(
    a: Seq<RouteGraphNode>,
    b: Seq<RouteGraphNode>,
    payer: PublicKey,
    upto: int,
)
    requires
        upto <= a.len(),
        upto <= b.len(),
        forall|j: int| 0 <= j < upto ==> a[j] == b[j],
    ensures
        waiting_others(a, payer, upto) == waiting_others(b, payer, upto),
    decreases upto,
{
    if upto > 0 {
        lemma_waiting_others_prefix(a, b, payer, upto - 1);
    }
}

/// Taking a node out of those waiting lowers their count by one, unless the
/// node is ourselves.
pub proof fn lemma_waiting_others_remove(
    edges: Seq<RouteGraphNode>,
    payer: PublicKey,
    i: int,
    upto: int,
)
    requires
        0 <= i < edges.len(),
        i <= upto < edges.len(),
    ensures
        waiting_others(edges.remove(i), payer, upto) + (if edges[i].pubkey != payer {
            1int
        } else {
            0int
        }) == waiting_others(edges, payer, upto + 1),
    decreases upto,
{
    let removed = edges.remove(i);
    if upto == i {
        lemma_waiting_others_prefix(edges, removed, payer, i);
    } else {
        lemma_waiting_others_remove(edges, payer, i, upto - 1);
        assert(removed[upto - 1] == edges[upto]);
    }
}

/// The costs of the ways out of channel ends are never negative.
pub proof fn lemma_endpoint_costs_nonnegative(
    channels: Seq<ChannelEntry>,
    vertices: Seq<WeightedVertexView>,
    payer: PublicKey,
    upto: int,
)
    ensures
        0 <= endpoint_costs(channels, vertices, payer, upto),
    decreases upto,
{
    if upto > 0 {
        lemma_endpoint_costs_nonnegative(channels, vertices, payer, upto - 1);
    }
}

/// Where no cost has risen, the sum over the channel ends has not risen; it
/// has fallen where the cost at one of these ends has.
pub proof fn lemma_endpoint_costs_fall(
    channels: Seq<ChannelEntry>,
    before: Seq<WeightedVertexView>,
    after: Seq<WeightedVertexView>,
    payer: PublicKey,
    upto: int,
)
    requires
        upto <= channels.len(),
        forall|n: PublicKey| node_cost(after, payer, n) <= node_cost(before, payer, n),
    ensures
        endpoint_costs(channels, after, payer, upto) <= endpoint_costs(
            channels,
            before,
            payer,
            upto,
        ),
        forall|i: int|
            0 <= i < upto && (node_cost(after, payer, #[trigger] channels[i].info.node_one)
                < node_cost(before, payer, channels[i].info.node_one) || node_cost(
                after,
                payer,
                channels[i].info.node_two,
            ) < node_cost(before, payer, channels[i].info.node_two)) ==> endpoint_costs(
                channels,
                after,
                payer,
                upto,
            ) < endpoint_costs(channels, before, payer, upto),
    decreases upto,
{
    if upto > 0 {
        lemma_endpoint_costs_fall(channels, before, after, payer, upto - 1);
    }
}

/// A node that has a vertex has a first one.
pub proof fn lemma_first_vertex(vertices: Seq<WeightedVertexView>, node: PublicKey, k: int)
    requires
        0 <= k < vertices.len(),
        vertices[k].node == node,
    ensures
        has_vertex(vertices, node),
        is_first_vertex(vertices, node, vertex_position(vertices, node)),
        vertex_position(vertices, node) <= k,
    decreases k,
{
    if forall|j: int| 0 <= j < k ==> vertices[j].node != node {
        assert(is_first_vertex(vertices, node, k));
        let p = vertex_position(vertices, node);
        assert(is_first_vertex(vertices, node, p));
        if p > k {
            assert(vertices[k].node != node);
        }
    } else {
        let j = choose|j: int| 0 <= j < k && vertices[j].node == node;
        lemma_first_vertex(vertices, node, j);
    }
}

/// A channel that the graph holds has a first entry.
pub proof fn lemma_first_channel(channels: Seq<ChannelEntry>, scid: u64, k: int)
    requires
        0 <= k < channels.len(),
        channels[k].short_channel_id == scid,
    ensures
        exists|i: int| is_first_channel(channels, scid, i),
    decreases k,
{
    if forall|j: int| 0 <= j < k ==> channels[j].short_channel_id != scid {
        assert(is_first_channel(channels, scid, k));
    } else {
        let j = choose|j: int| 0 <= j < k && channels[j].short_channel_id == scid;
        lemma_first_channel(channels, scid, j);
    }
}

/// Where the vertices change only in what the vertex of `src` holds, or by a
/// new vertex for `src` at the end, the costs of all other nodes stay.
pub proof fn lemma_other_costs_stay(
    before: Seq<WeightedVertexView>,
    after: Seq<WeightedVertexView>,
    src: PublicKey,
)
    requires
        after.len() >= before.len(),
        forall|i: int| 0 <= i < before.len() ==> (#[trigger] after[i]).node == before[i].node,
        forall|i: int|
            0 <= i < before.len() && before[i].node != src ==> (#[trigger] after[i]) == before[i],
        forall|i: int| before.len() <= i < after.len() ==> (#[trigger] after[i]).node == src,
    ensures
        forall|n: PublicKey| n != src ==> vertex_cost(after, n) == vertex_cost(before, n),
        has_vertex(before, src) ==> has_vertex(after, src) && vertex_position(after, src)
            == vertex_position(before, src),
{
    assert forall|n: PublicKey| n != src implies vertex_cost(after, n) == vertex_cost(
        before,
        n,
    ) by {
        if has_vertex(before, n) {
            let k = choose|k: int| 0 <= k < before.len() && before[k].node == n;
            lemma_first_vertex(before, n, k);
            let p = vertex_position(before, n);
            assert(after[p].node == n);
            lemma_first_vertex(after, n, p);
            let q = vertex_position(after, n);
            if q < p {
                assert(after[q].node == before[q].node);
            }
            assert(q == p);
            assert(after[p] == before[p]);
        } else if has_vertex(after, n) {
            let k = choose|k: int| 0 <= k < after.len() && after[k].node == n;
            if k < before.len() {
                assert(after[k].node == before[k].node);
            }
        }
    }
    if has_vertex(before, src) {
        let k = choose|k: int| 0 <= k < before.len() && before[k].node == src;
        lemma_first_vertex(before, src, k);
        let p = vertex_position(before, src);
        assert(after[p].node == src);
        lemma_first_vertex(after, src, p);
        let q = vertex_position(after, src);
        if q < p {
            assert(after[q].node == before[q].node);
        }
    }
}

/// Offering a channel out of one of the search's nodes does not raise the
/// search measure, and changes neither who pays nor what is to be collected.
pub proof fn lemma_edge_keeps_measure(
    state: RoutingStateView,
    channels: Seq<ChannelEntry>,
    scid: u64,
    src: PublicKey,
    dest: PublicKey,
    info: DirectionalChannelInfo,
    capacity_sats: Option<u64>,
    features: Seq<u8>,
    following: u64,
    nodes: Seq<NodeEntry>,
)
    requires
        is_search_node(channels, state.payer_node_id, src),
    ensures
        ({
            let after = state_with_edge(
                state,
                scid,
                src,
                dest,
                info,
                capacity_sats,
                features,
                following,
                nodes,
            );
            &&& search_measure(after, channels) <= search_measure(state, channels)
            &&& after.payer_node_id == state.payer_node_id
            &&& after.recommended_value_msat == state.recommended_value_msat
            &&& after.already_collected_value_msat == state.already_collected_value_msat
        }),
{
    let after = state_with_edge(
        state,
        scid,
        src,
        dest,
        info,
        capacity_sats,
        features,
        following,
        nodes,
    );
    let liquidity = liquidity_with(state.liquidity, scid, capacity_sats, info.htlc_maximum_msat);
    let available = liquidity[liquidity_position(liquidity, scid)].available_msat;
    let noted = RoutingStateView { liquidity, ..state };
    let v0 = state.weighted_vertices;
    if edge_qualifies(state, available as int, following as int, info.htlc_minimum_msat as int) {
        let placeholder = placeholder_vertex(
            src,
            dest,
            features,
            info.fees,
            inbound_fees_of(nodes, src),
        );
        let vertices = vertices_with(v0, src, placeholder);
        if has_vertex(v0, src) {
            let k = choose|k: int| 0 <= k < v0.len() && v0[k].node == src;
            lemma_first_vertex(vertices, src, k);
        } else {
            lemma_first_vertex(vertices, src, v0.len() as int);
        }
        let at = vertex_position(vertices, src);
        assert(is_first_vertex(vertices, src, at));
        let v1 = after.weighted_vertices;
        assert(after == state_weighed(
            noted,
            vertices,
            at,
            scid,
            src,
            dest,
            info,
            features,
            following,
            available,
        ));
        let known = vertices[at].hop;
        let cost = edge_cost(
            amount_over(noted, available),
            info.fees,
            following as int,
            known.src_lowest_inbound_fees,
            src == noted.payer_node_id,
        );
        assert(v1.len() == vertices.len());
        assert forall|i: int| 0 <= i < v1.len() implies (#[trigger] v1[i]).node
            == vertices[i].node by {}
        lemma_other_costs_stay(v0, v1, src);
        lemma_first_vertex(v1, src, at);
        let q = vertex_position(v1, src);
        if q < at {
            assert(v1[q].node == vertices[q].node);
        }
        assert(q == at);
        assert(vertex_cost(v1, src) == v1[at].hop.fee_weight());
        // what the vertex held before, seen from the state before
        if has_vertex(v0, src) {
            assert(vertex_position(vertices, src) == vertex_position(v0, src));
            assert(vertex_cost(v0, src) == known.fee_weight());
        } else {
            assert(vertex_cost(v0, src) == u64::MAX + 1);
        }
        assert(known.fee_weight() <= u64::MAX);
        let payer = state.payer_node_id;
        let e0 = state.targeted_edges;
        let e1 = after.targeted_edges;
        if known.fee_weight() > cost.total {
            let taken = vertex_through(
                known,
                scid,
                src,
                dest,
                info,
                features,
                following,
                available,
                cost,
            );
            assert(v1[at] == taken);
            lemma_edge_cost_weight(
                amount_over(noted, available),
                info.fees,
                following,
                known.src_lowest_inbound_fees,
                src == payer,
            );
            assert(e1.len() == e0.len() + 1);
            assert(e1.last().pubkey == src);
            lemma_waiting_others_prefix(e0, e1, payer, e0.len() as int);
            if src != payer {
                assert(taken.hop.fee_weight() <= cost.total);
                assert(vertex_cost(v1, src) < vertex_cost(v0, src));
            }
        } else {
            assert(v1[at] == vertices[at]);
            assert(e1 == e0);
            assert(vertex_cost(v1, src) <= vertex_cost(v0, src));
        }
        assert forall|n: PublicKey| node_cost(v1, payer, n) <= node_cost(v0, payer, n) by {}
        lemma_endpoint_costs_fall(channels, v0, v1, payer, channels.len() as int);
        if known.fee_weight() > cost.total && src != payer {
            let i = choose|i: int|
                0 <= i < channels.len() && (#[trigger] channels[i].info.node_one == src
                    || channels[i].info.node_two == src);
            assert(node_cost(v1, payer, channels[i].info.node_one) < node_cost(
                v0,
                payer,
                channels[i].info.node_one,
            ) || node_cost(v1, payer, channels[i].info.node_two) < node_cost(
                v0,
                payer,
                channels[i].info.node_two,
            ));
        }
    }
}

/// The cost at which a vertex is compared is no less than the weight it has
/// once it has taken the channel.
pub proof fn lemma_edge_cost_weight(
    amount: int,
    channel_fees: RoutingFees,
    following: u64,
    inbound_fees: RoutingFees,
    ours: bool,
)
    requires
        0 <= amount <= u64::MAX,
    ensures
        ({
            let cost = edge_cost(amount, channel_fees, following as int, inbound_fees, ours);
            !ours ==> capped_add(
                capped_add(cost.hop_use as int, cost.estimate as int),
                following as int,
            ) <= cost.total
        }),
{
    lemma_fee_for_bounds(amount, channel_fees);
    let hop_use = fee_for(amount, channel_fees);
    let to_node = capped_add(following as int, hop_use);
    lemma_fee_for_bounds(capped_add(to_node, amount), inbound_fees);
}

/// Looking at a channel as a way into a node does not raise the search
/// measure, and changes neither who pays nor what is to be collected.
pub proof fn lemma_channel_keeps_measure(
    state: RoutingStateView,
    channels: Seq<ChannelEntry>,
    nodes: Seq<NodeEntry>,
    scid: u64,
    node_id: PublicKey,
    fee_to_target_msat: u64,
    first_hops_given: bool,
)
    ensures
        ({
            let after = state_with_channel(
                state,
                channels,
                nodes,
                scid,
                node_id,
                fee_to_target_msat,
                first_hops_given,
            );
            &&& search_measure(after, channels) <= search_measure(state, channels)
            &&& after.payer_node_id == state.payer_node_id
            &&& after.recommended_value_msat == state.recommended_value_msat
            &&& after.already_collected_value_msat == state.already_collected_value_msat
        }),
{
    if has_channel(channels, scid) {
        let k = choose|k: int| 0 <= k < channels.len() && channels[k].short_channel_id == scid;
        lemma_first_channel(channels, scid, k);
        let i = choose|i: int| is_first_channel(channels, scid, i);
        let chan = channels[i].info;
        assert(is_search_node(channels, state.payer_node_id, chan.node_one));
        assert(is_search_node(channels, state.payer_node_id, chan.node_two));
        if chan.two_to_one is Some {
            lemma_edge_keeps_measure(
                state,
                channels,
                scid,
                chan.node_two,
                chan.node_one,
                chan.two_to_one->0,
                chan.capacity_sats,
                chan.features@,
                fee_to_target_msat,
                nodes,
            );
        }
        if chan.one_to_two is Some {
            lemma_edge_keeps_measure(
                state,
                channels,
                scid,
                chan.node_one,
                chan.node_two,
                chan.one_to_two->0,
                chan.capacity_sats,
                chan.features@,
                fee_to_target_msat,
                nodes,
            );
        }
    }
}

/// A node that one of our own channels leads to, with its features as a
/// plain byte string.
pub struct FirstHopTargetView {
    pub node: PublicKey,
    pub short_channel_id: u64,
    pub features: Seq<u8>,
}

/// Whether `i` is the first position of a target for `node`.
pub open spec fn is_first_target(targets: Seq<FirstHopTargetView>, node: PublicKey, i: int) -> bool {
    &&& 0 <= i < targets.len()
    &&& targets[i].node == node
    &&& forall|j: int| 0 <= j < i ==> (#[trigger] targets[j]).node != node
}

/// Whether one of our own channels leads to `node`.
pub open spec fn has_target(targets: Seq<FirstHopTargetView>, node: PublicKey) -> bool {
    exists|i: int| 0 <= i < targets.len() && (#[trigger] targets[i]).node == node
}

/// The first position of a target for `node`.
pub open spec fn target_position(targets: Seq<FirstHopTargetView>, node: PublicKey) -> int {
    choose|i: int| is_first_target(targets, node, i)
}

/// The targets once `target` is among them: in the place of the target for
/// the same node, or at the end.
pub open spec fn targets_with(targets: Seq<FirstHopTargetView>, target: FirstHopTargetView) -> Seq<
    FirstHopTargetView,
> {
    if has_target(targets, target.node) {
        targets.update(target_position(targets, target.node), target)
    } else {
        targets.push(target)
    }
}

/// The nodes that the first `upto` of our own channels lead to; of several
/// channels to one node the last counts.
pub open spec fn targets_from(hops: Seq<&ChannelDetails>, upto: int) -> Seq<FirstHopTargetView>
    decreases upto,
{
    if upto <= 0 {
        Seq::empty()
    } else {
        targets_with(
            targets_from(hops, upto - 1),
            FirstHopTargetView {
                node: hops[upto - 1].remote_network_id,
                short_channel_id: hops[upto - 1].short_channel_id->0,
                features: hops[upto - 1].counterparty_features@,
            },
        )
    }
}

/// The search state after our own channel to `node`, if the caller named
/// one, has been offered as a way to reach `node`: a channel without fees or
/// limits, with the features that the peer offered as far as they apply to a
/// channel.
pub open spec fn state_with_first_hop(
    state: RoutingStateView,
    targets: Seq<FirstHopTargetView>,
    node: PublicKey,
    fee_to_target_msat: u64,
    nodes: Seq<NodeEntry>,
) -> RoutingStateView {
    if has_target(targets, node) {
        let target = targets[target_position(targets, node)];
        state_with_edge(
            state,
            target.short_channel_id,
            state.payer_node_id,
            node,
            DirectionalChannelInfo {
                last_update: 0,
                enabled: false,
                cltv_expiry_delta: 0,
                htlc_minimum_msat: 0,
                htlc_maximum_msat: None,
                fees: RoutingFees { base_msat: 0, proportional_millionths: 0 },
            },
            None,
            flags_in_context(target.features, FeatureContext::Init, FeatureContext::Channel),
            fee_to_target_msat,
            nodes,
        )
    } else {
        state
    }
}

/// The search state after the node `node_id` has been looked at: where the
/// graph knows the node, our own channel to it is offered, if the caller
/// named our channels, and then every usable channel of the node.
pub open spec fn state_looked_at(
    state: RoutingStateView,
    targets: Seq<FirstHopTargetView>,
    channels: Seq<ChannelEntry>,
    nodes: Seq<NodeEntry>,
    node_id: PublicKey,
    fee_to_target_msat: u64,
    first_hops_given: bool,
) -> RoutingStateView {
    if has_node(nodes, node_id) {
        let info = nodes[choose|i: int| is_first_node(nodes, node_id, i)].info;
        let offered = if first_hops_given {
            state_with_first_hop(state, targets, node_id, fee_to_target_msat, nodes)
        } else {
            state
        };
        if node_usable(info) {
            state_with_channels(
                offered,
                channels,
                nodes,
                info.channels@,
                node_id,
                fee_to_target_msat,
                first_hops_given,
                info.channels@.len() as int,
            )
        } else {
            offered
        }
    } else {
        state
    }
}

/// The channel that a hint stands for: disabled as far as anyone announced,
/// with the fees and limits of the hint.
pub open spec fn hinted_channel(hint: RouteHint) -> DirectionalChannelInfo {
    DirectionalChannelInfo {
        last_update: 0,
        enabled: false,
        cltv_expiry_delta: hint.cltv_expiry_delta,
        htlc_minimum_msat: hint.htlc_minimum_msat,
        htlc_maximum_msat: hint.htlc_maximum_msat,
        fees: hint.fees,
    }
}

/// The search state after the first `upto` hints have been offered as ways
/// to reach the payee. A hint whose source the graph does not know is passed
/// over, and so is a hint from ourselves where the caller named our channels.
pub open spec fn state_hinted(
    state: RoutingStateView,
    targets: Seq<FirstHopTargetView>,
    nodes: Seq<NodeEntry>,
    payee: PublicKey,
    first_hops_given: bool,
    hints: Seq<&RouteHint>,
    upto: int,
) -> RoutingStateView
    decreases upto,
{
    if upto <= 0 {
        state
    } else {
        let before = state_hinted(state, targets, nodes, payee, first_hops_given, hints, upto - 1);
        let hint = *hints[upto - 1];
        if (!first_hops_given || hint.src_node_id != before.payer_node_id) && has_node(
            nodes,
            hint.src_node_id,
        ) {
            let offered = if first_hops_given {
                state_with_first_hop(before, targets, hint.src_node_id, 0, nodes)
            } else {
                before
            };
            state_with_edge(
                offered,
                hint.short_channel_id,
                hint.src_node_id,
                payee,
                hinted_channel(hint),
                None,
                Seq::empty(),
                0,
                nodes,
            )
        } else {
            before
        }
    }
}

/// The search state at the start of a search: nothing waits and no vertex is
/// kept, then the payee is looked at and the hints are offered.
pub open spec fn state_seeded(
    state: RoutingStateView,
    targets: Seq<FirstHopTargetView>,
    channels: Seq<ChannelEntry>,
    nodes: Seq<NodeEntry>,
    payee: PublicKey,
    first_hops_given: bool,
    hints: Seq<&RouteHint>,
) -> RoutingStateView {
    state_hinted(
        state_looked_at(
            RoutingStateView {
                targeted_edges: Seq::empty(),
                weighted_vertices: Seq::empty(),
                ..state
            },
            targets,
            channels,
            nodes,
            payee,
            0,
            first_hops_given,
        ),
        targets,
        nodes,
        payee,
        first_hops_given,
        hints,
        hints.len() as int,
    )
}

/// Looking at the channels of a node does not raise the search measure, and
/// changes neither who pays nor what is to be collected.
pub proof fn lemma_channels_keep_measure(
    state: RoutingStateView,
    channels: Seq<ChannelEntry>,
    nodes: Seq<NodeEntry>,
    ids: Seq<u64>,
    node_id: PublicKey,
    fee_to_target_msat: u64,
    first_hops_given: bool,
    upto: int,
)
    ensures
        ({
            let after = state_with_channels(
                state,
                channels,
                nodes,
                ids,
                node_id,
                fee_to_target_msat,
                first_hops_given,
                upto,
            );
            &&& search_measure(after, channels) <= search_measure(state, channels)
            &&& after.payer_node_id == state.payer_node_id
            &&& after.recommended_value_msat == state.recommended_value_msat
            &&& after.already_collected_value_msat == state.already_collected_value_msat
        }),
    decreases upto,
{
    if upto > 0 {
        lemma_channels_keep_measure(
            state,
            channels,
            nodes,
            ids,
            node_id,
            fee_to_target_msat,
            first_hops_given,
            upto - 1,
        );
        lemma_channel_keeps_measure(
            state_with_channels(
                state,
                channels,
                nodes,
                ids,
                node_id,
                fee_to_target_msat,
                first_hops_given,
                upto - 1,
            ),
            channels,
            nodes,
            ids[upto - 1],
            node_id,
            fee_to_target_msat,
            first_hops_given,
        );
    }
}

/// Looking at a node does not raise the search measure, and changes neither
/// who pays nor what is to be collected.
pub proof fn lemma_look_keeps_measure(
    state: RoutingStateView,
    targets: Seq<FirstHopTargetView>,
    channels: Seq<ChannelEntry>,
    nodes: Seq<NodeEntry>,
    node_id: PublicKey,
    fee_to_target_msat: u64,
    first_hops_given: bool,
)
    ensures
        ({
            let after = state_looked_at(
                state,
                targets,
                channels,
                nodes,
                node_id,
                fee_to_target_msat,
                first_hops_given,
            );
            &&& search_measure(after, channels) <= search_measure(state, channels)
            &&& after.payer_node_id == state.payer_node_id
            &&& after.recommended_value_msat == state.recommended_value_msat
            &&& after.already_collected_value_msat == state.already_collected_value_msat
        }),
{
    if has_node(nodes, node_id) {
        let info = nodes[choose|i: int| is_first_node(nodes, node_id, i)].info;
        let offered = if first_hops_given {
            state_with_first_hop(state, targets, node_id, fee_to_target_msat, nodes)
        } else {
            state
        };
        if first_hops_given && has_target(targets, node_id) {
            let target = targets[target_position(targets, node_id)];
            lemma_edge_keeps_measure(
                state,
                channels,
                target.short_channel_id,
                state.payer_node_id,
                node_id,
                DirectionalChannelInfo {
                    last_update: 0,
                    enabled: false,
                    cltv_expiry_delta: 0,
                    htlc_minimum_msat: 0,
                    htlc_maximum_msat: None,
                    fees: RoutingFees { base_msat: 0, proportional_millionths: 0 },
                },
                None,
                flags_in_context(target.features, FeatureContext::Init, FeatureContext::Channel),
                fee_to_target_msat,
                nodes,
            );
        }
        lemma_channels_keep_measure(
            offered,
            channels,
            nodes,
            info.channels@,
            node_id,
            fee_to_target_msat,
            first_hops_given,
            info.channels@.len() as int,
        );
    }
}

/// Offering a channel changes neither who pays nor what is to be collected.
pub proof fn lemma_edge_frame(
    state: RoutingStateView,
    scid: u64,
    src: PublicKey,
    dest: PublicKey,
    info: DirectionalChannelInfo,
    capacity_sats: Option<u64>,
    features: Seq<u8>,
    following: u64,
    nodes: Seq<NodeEntry>,
)
    ensures
        ({
            let after = state_with_edge(
                state,
                scid,
                src,
                dest,
                info,
                capacity_sats,
                features,
                following,
                nodes,
            );
            &&& after.payer_node_id == state.payer_node_id
            &&& after.recommended_value_msat == state.recommended_value_msat
            &&& after.already_collected_value_msat == state.already_collected_value_msat
        }),
{
}

/// Offering the hints changes neither who pays nor what is to be collected.
pub proof fn lemma_hinted_frame(
    state: RoutingStateView,
    targets: Seq<FirstHopTargetView>,
    nodes: Seq<NodeEntry>,
    payee: PublicKey,
    first_hops_given: bool,
    hints: Seq<&RouteHint>,
    upto: int,
)
    ensures
        ({
            let after = state_hinted(state, targets, nodes, payee, first_hops_given, hints, upto);
            &&& after.payer_node_id == state.payer_node_id
            &&& after.recommended_value_msat == state.recommended_value_msat
            &&& after.already_collected_value_msat == state.already_collected_value_msat
        }),
    decreases upto,
{
    if upto > 0 {
        lemma_hinted_frame(state, targets, nodes, payee, first_hops_given, hints, upto - 1);
        let before = state_hinted(state, targets, nodes, payee, first_hops_given, hints, upto - 1);
        let hint = *hints[upto - 1];
        let offered = if first_hops_given {
            state_with_first_hop(before, targets, hint.src_node_id, 0, nodes)
        } else {
            before
        };
        if first_hops_given && has_target(targets, hint.src_node_id) {
            let target = targets[target_position(targets, hint.src_node_id)];
            lemma_edge_frame(
                before,
                target.short_channel_id,
                before.payer_node_id,
                hint.src_node_id,
                DirectionalChannelInfo {
                    last_update: 0,
                    enabled: false,
                    cltv_expiry_delta: 0,
                    htlc_minimum_msat: 0,
                    htlc_maximum_msat: None,
                    fees: RoutingFees { base_msat: 0, proportional_millionths: 0 },
                },
                None,
                flags_in_context(target.features, FeatureContext::Init, FeatureContext::Channel),
                0,
                nodes,
            );
        }
        lemma_edge_frame(
            offered,
            hint.short_channel_id,
            hint.src_node_id,
            payee,
            hinted_channel(hint),
            None,
            Seq::empty(),
            0,
            nodes,
        );
    }
}

/// Starting a search changes neither who pays nor what is to be collected.
pub proof fn lemma_seeded_frame(
    state: RoutingStateView,
    targets: Seq<FirstHopTargetView>,
    channels: Seq<ChannelEntry>,
    nodes: Seq<NodeEntry>,
    payee: PublicKey,
    first_hops_given: bool,
    hints: Seq<&RouteHint>,
)
    ensures
        ({
            let after = state_seeded(state, targets, channels, nodes, payee, first_hops_given, hints);
            &&& after.payer_node_id == state.payer_node_id
            &&& after.recommended_value_msat == state.recommended_value_msat
            &&& after.already_collected_value_msat == state.already_collected_value_msat
        }),
{
    let cleared = RoutingStateView {
        targeted_edges: Seq::empty(),
        weighted_vertices: Seq::empty(),
        ..state
    };
    lemma_look_keeps_measure(cleared, targets, channels, nodes, payee, 0, first_hops_given);
    lemma_hinted_frame(
        state_looked_at(cleared, targets, channels, nodes, payee, 0, first_hops_given),
        targets,
        nodes,
        payee,
        first_hops_given,
        hints,
        hints.len() as int,
    );
}

impl RoutingState {
    /// Offers every usable channel of `node`, which is `node_id`, as a way to
    /// reach it. `fee_to_target_msat` is what is paid in fees from this node
    /// to the payee. Nothing is offered if the node asks for a feature that
    /// is unknown.
    pub fn select_weighted_vertice_to_target_edge(
        &mut self,
        node: &NodeInfo,
        node_id: &PublicKey,
        fee_to_target_msat: u64,
        first_hops: Option<&[&ChannelDetails]>,
        network: &NetworkGraph,
    )
        ensures
            final(self)@ == if node_usable(*node) {
                state_with_channels(
                    old(self)@,
                    network.channels@,
                    network.nodes@,
                    node.channels@,
                    *node_id,
                    fee_to_target_msat,
                    first_hops is Some,
                    node.channels@.len() as int,
                )
            } else {
                old(self)@
            },
            search_measure(final(self)@, network.channels@) <= search_measure(
                old(self)@,
                network.channels@,
            ),
            final(self)@.payer_node_id == old(self)@.payer_node_id,
            final(self)@.recommended_value_msat == old(self)@.recommended_value_msat,
            final(self)@.already_collected_value_msat == old(self)@.already_collected_value_msat,
    {
        let usable = match &node.announcement_info {
            Some(info) => !info.features.requires_unknown_bits(),
            None => true,
        };
        if !usable {
            return ;
        }
        let first_hops_given = first_hops.is_some();
        let mut k: usize = 0;
        while k < node.channels.len()
            invariant
                k <= node.channels@.len(),
                first_hops_given == (first_hops is Some),
                self@ == state_with_channels(
                    old(self)@,
                    network.channels@,
                    network.nodes@,
                    node.channels@,
                    *node_id,
                    fee_to_target_msat,
                    first_hops_given,
                    k as int,
                ),
                search_measure(self@, network.channels@) <= search_measure(
                    old(self)@,
                    network.channels@,
                ),
                self@.payer_node_id == old(self)@.payer_node_id,
                self@.recommended_value_msat == old(self)@.recommended_value_msat,
                self@.already_collected_value_msat == old(self)@.already_collected_value_msat,
            decreases node.channels@.len() - k,
        {
            let chan_id = node.channels[k];
            proof {
                lemma_channel_keeps_measure(
                    self@,
                    network.channels@,
                    network.nodes@,
                    chan_id,
                    *node_id,
                    fee_to_target_msat,
                    first_hops_given,
                );
            }
            self.look_at_channel(chan_id, node_id, fee_to_target_msat, first_hops_given, network);
            k = k + 1;
        }
    }

    /// Offers the channel `chan_id` as a way to reach `node_id`, unless it is
    /// passed over.
    pub fn look_at_channel(
        &mut self,
        chan_id: u64,
        node_id: &PublicKey,
        fee_to_target_msat: u64,
        first_hops_given: bool,
        network: &NetworkGraph,
    )
        ensures
            final(self)@ == state_with_channel(
                old(self)@,
                network.channels@,
                network.nodes@,
                chan_id,
                *node_id,
                fee_to_target_msat,
                first_hops_given,
            ),
    {
        match network.get_channel(chan_id) {
            Some(chan) => {
                proof {
                    let chosen = choose|i: int| is_first_channel(network.channels@, chan_id, i);
                    let found = choose|i: int|
                        is_first_channel(network.channels@, chan_id, i) && *chan
                            == network.channels@[i].info;
                    assert(chosen == found);
                }
                if !chan.features.requires_unknown_bits() {
                    if chan.node_one.same(node_id) {
                        if !first_hops_given || !chan.node_two.same(&self.payer_node_id) {
                            match &chan.two_to_one {
                                Some(two_to_one) => {
                                    if two_to_one.enabled {
                                        self.add_vertice(
                                            chan_id,
                                            &chan.node_two,
                                            &chan.node_one,
                                            two_to_one,
                                            chan.capacity_sats,
                                            chan.features.duplicate(),
                                            fee_to_target_msat,
                                            network,
                                        );
                                    }
                                },
                                None => {},
                            }
                        }
                    } else {
                        if !first_hops_given || !chan.node_one.same(&self.payer_node_id) {
                            match &chan.one_to_two {
                                Some(one_to_two) => {
                                    if one_to_two.enabled {
                                        self.add_vertice(
                                            chan_id,
                                            &chan.node_one,
                                            &chan.node_two,
                                            one_to_two,
                                            chan.capacity_sats,
                                            chan.features.duplicate(),
                                            fee_to_target_msat,
                                            network,
                                        );
                                    }
                                },
                                None => {},
                            }
                        }
                    }
                }
            },
            None => {},
        }
    }
}

} // verus!
