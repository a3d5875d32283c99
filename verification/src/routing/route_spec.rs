//! What the route finder answers, stated from its inputs: the walk from
//! ourselves to the payee over the cheapest known channels, the search that
//! leads to it, the collection of paths, and the route chosen from them.

use crate::features::{FeatureContext, flags_in_context};
use crate::network_graph::{
    ChannelEntry,
    MAX_VALUE_MSAT,
    NodeEntry,
    has_node,
    is_first_node,
};
use crate::primitives::PublicKey;
use crate::routing::combination::{chosen, route_hops, view_value};
use crate::routing::payment_path::{PaymentHop, PaymentHopView, capped_add, path_carrying};
use crate::routing::route::{ChannelDetails, RouteError, RouteHint, RouteHopView};
use crate::routing::routing_state::{
    ChannelLiquidity,
    RoutingStateView,
    WeightedVertexView,
    cheapest,
    has_liquidity,
    has_vertex,
    lemma_cheapest_bounds,
    liquidity_position,
    vertex_position,
};
use crate::routing::search::{
    FirstHopTargetView,
    has_target,
    lemma_first_vertex,
    lemma_look_keeps_measure,
    lemma_search_measure_nonnegative,
    lemma_waiting_others_remove,
    search_measure,
    state_looked_at,
    state_seeded,
    target_position,
    targets_from,
};
use vstd::prelude::*;

verus! {

/// Paths are collected until they carry this many times the payment, so that
/// there is a choice among them.
pub const ROUTE_CAPACITY_PROVISION_FACTOR: u64 = 4;

/// A path carries no more than this many times the payment: the payment and
/// fees of nine times as much.
pub const PATH_VALUE_CEILING_FACTOR: u64 = 10;

/// The hops with their feature flags as plain byte strings.
pub open spec fn hop_views(hops: Seq<PaymentHop>) -> Seq<PaymentHopView> {
    Seq::new(hops.len(), |i: int| hops[i]@)
}

/// The features of `node` as a route states them: those its peer offered us
/// where one of our own channels leads to it, else those it announced, or
/// none where it announced nothing; what stood before where the graph does
/// not know the node.
pub open spec fn features_for(
    targets: Seq<FirstHopTargetView>,
    nodes: Seq<NodeEntry>,
    node: PublicKey,
    current: Seq<u8>,
) -> Seq<u8> {
    if has_target(targets, node) {
        flags_in_context(
            targets[target_position(targets, node)].features,
            FeatureContext::Init,
            FeatureContext::Node,
        )
    } else if has_node(nodes, node) {
        match nodes[choose|i: int| is_first_node(nodes, node, i)].info.announcement_info {
            Some(info) => info.features@,
            None => Seq::empty(),
        }
    } else {
        current
    }
}

/// What a channel can carry beside the fees after it; a tenth of what it
/// has where the fees take all.
pub open spec fn room(available: u64, following: u64) -> u64 {
    if available > following {
        (available - following) as u64
    } else {
        available / 10
    }
}

/// The last hop with the features of its node.
pub open spec fn hop_featured(
    hop: PaymentHopView,
    targets: Seq<FirstHopTargetView>,
    nodes: Seq<NodeEntry>,
) -> PaymentHopView {
    PaymentHopView {
        route_hop: RouteHopView {
            node_features: features_for(
                targets,
                nodes,
                hop.route_hop.pubkey,
                hop.route_hop.node_features,
            ),
            ..hop.route_hop
        },
        ..hop
    }
}

/// A hop that hands on the fee and the timelock delta of the channel after
/// it.
pub open spec fn hop_linked(hop: PaymentHopView, next: PaymentHopView) -> PaymentHopView {
    PaymentHopView {
        route_hop: RouteHopView {
            fee_msat: next.hop_use_fee_msat,
            cltv_expiry_delta: next.route_hop.cltv_expiry_delta,
            ..hop.route_hop
        },
        ..hop
    }
}

/// The walk along the cheapest channels from the last of `hops` on to the
/// payee: the hops of the path and what its narrowest channel can carry, or
/// none where the walk comes to a node without a vertex. Each vertex walked
/// over leaves `vertices`.
pub open spec fn walked(
    vertices: Seq<WeightedVertexView>,
    hops: Seq<PaymentHopView>,
    bottleneck: u64,
    targets: Seq<FirstHopTargetView>,
    nodes: Seq<NodeEntry>,
    payee: PublicKey,
) -> Option<(Seq<PaymentHopView>, u64)>
    decreases vertices.len(),
{
    if hops.len() == 0 {
        None
    } else {
        let at = hops.len() - 1;
        let last = hop_featured(hops[at], targets, nodes);
        let here = room(last.available_liquidity_msat, last.following_hops_fees_msat);
        let narrowest = if here < bottleneck {
            here
        } else {
            bottleneck
        };
        let node = last.route_hop.pubkey;
        if node == payee {
            Some((hops.update(at, last), narrowest))
        } else if !has_vertex(vertices, node) {
            None
        } else {
            proof {
                let k = choose|k: int| 0 <= k < vertices.len() && vertices[k].node == node;
                lemma_first_vertex(vertices, node, k);
            }
            let i = vertex_position(vertices, node);
            let next = vertices[i].hop;
            walked(
                vertices.remove(i),
                hops.update(at, hop_linked(last, next)).push(next),
                narrowest,
                targets,
                nodes,
                payee,
            )
        }
    }
}

/// A hop that hands on `value_msat` with the timelock `final_cltv`: the last
/// hop of a path.
pub open spec fn hop_ending(hop: PaymentHopView, value_msat: u64, final_cltv: u32) -> PaymentHopView {
    PaymentHopView {
        route_hop: RouteHopView {
            fee_msat: value_msat,
            cltv_expiry_delta: final_cltv,
            ..hop.route_hop
        },
        ..hop
    }
}

/// `value * 10`, held at the largest 64-bit value.
pub open spec fn value_ceiling(final_value_msat: u64) -> u64 {
    if final_value_msat * PATH_VALUE_CEILING_FACTOR > u64::MAX {
        u64::MAX
    } else {
        (final_value_msat * PATH_VALUE_CEILING_FACTOR) as u64
    }
}

/// The path that a walk ends in: its last hop hands on the payment with the
/// timelock asked for, and the path carries what its narrowest channel
/// allows.
pub open spec fn path_finished(
    walk: Option<(Seq<PaymentHopView>, u64)>,
    final_value_msat: u64,
    final_cltv: u32,
) -> Option<Seq<PaymentHopView>> {
    match walk {
        None => None,
        Some((hops, bottleneck)) => Some(
            path_carrying(
                hops.update(hops.len() - 1, hop_ending(hops.last(), final_value_msat, final_cltv)),
                bottleneck,
            ),
        ),
    }
}

/// The path found once we are reached ourselves: the walk from our own
/// vertex to the payee, carrying what its narrowest channel allows and no
/// more than ten times the payment.
pub open spec fn path_found(
    vertices: Seq<WeightedVertexView>,
    payer: PublicKey,
    targets: Seq<FirstHopTargetView>,
    nodes: Seq<NodeEntry>,
    payee: PublicKey,
    final_value_msat: u64,
    final_cltv: u32,
) -> Option<Seq<PaymentHopView>> {
    if !has_vertex(vertices, payer) {
        None
    } else {
        let i = vertex_position(vertices, payer);
        path_finished(
            walked(
                vertices.remove(i),
                seq![vertices[i].hop],
                value_ceiling(final_value_msat),
                targets,
                nodes,
                payee,
            ),
            final_value_msat,
            final_cltv,
        )
    }
}

/// What the channels can still carry once every channel of the path from hop
/// `from` on has given what the path sends over it; none where a channel
/// cannot give its share.
pub open spec fn debited(liquidity: Seq<ChannelLiquidity>, hops: Seq<PaymentHopView>, from: int) -> Option<
    Seq<ChannelLiquidity>,
>
    decreases hops.len() - from,
{
    if from < 0 || from >= hops.len() {
        Some(liquidity)
    } else {
        let scid = hops[from].route_hop.short_channel_id;
        if !has_liquidity(liquidity, scid) {
            None
        } else {
            let at = liquidity_position(liquidity, scid);
            let paid = hops[from].fee_paid();
            if liquidity[at].available_msat < paid {
                None
            } else {
                debited(
                    liquidity.update(
                        at,
                        ChannelLiquidity {
                            short_channel_id: liquidity[at].short_channel_id,
                            available_msat: (liquidity[at].available_msat - paid) as u64,
                        },
                    ),
                    hops,
                    from + 1,
                )
            }
        }
    }
}

/// What a search is given beside its state.
pub struct SearchInput {
    /// The nodes that our own channels lead to, as the caller named them.
    pub targets: Seq<FirstHopTargetView>,
    /// The channels of the graph.
    pub channels: Seq<ChannelEntry>,
    /// The nodes of the graph.
    pub nodes: Seq<NodeEntry>,
    pub payee: PublicKey,
    /// Whether the caller named our own channels.
    pub first_hops_given: bool,
    pub final_value_msat: u64,
    pub final_cltv: u32,
}

/// The path that a search finds, with what the channels can carry after it:
/// the waiting nodes are looked at, cheapest first, until we are reached
/// ourselves. No path is found when no node is waiting any more, when the
/// walk fails or when a channel cannot give its share.
pub open spec fn searched(state: RoutingStateView, input: SearchInput) -> Option<
    (Seq<PaymentHopView>, Seq<ChannelLiquidity>),
>
    decreases search_measure(state, input.channels),
{
    if state.targeted_edges.len() == 0 {
        None
    } else {
        let i = cheapest(state.targeted_edges);
        let node = state.targeted_edges[i];
        let popped = RoutingStateView {
            targeted_edges: state.targeted_edges.remove(i),
            ..state
        };
        if node.pubkey == state.payer_node_id {
            match path_found(
                popped.weighted_vertices,
                popped.payer_node_id,
                input.targets,
                input.nodes,
                input.payee,
                input.final_value_msat,
                input.final_cltv,
            ) {
                None => None,
                Some(path) => match debited(popped.liquidity, path, 0) {
                    None => None,
                    Some(liquidity) => Some((path, liquidity)),
                },
            }
        } else {
            proof {
                lemma_search_step(state, input);
            }
            searched(
                state_looked_at(
                    popped,
                    input.targets,
                    input.channels,
                    input.nodes,
                    node.pubkey,
                    node.lowest_fee_to_node,
                    input.first_hops_given,
                ),
                input,
            )
        }
    }
}

/// Looking at the cheapest waiting node, where it is not ourselves, lowers
/// the search measure.
pub proof fn lemma_search_step(state: RoutingStateView, input: SearchInput)
    requires
        state.targeted_edges.len() > 0,
        state.targeted_edges[cheapest(state.targeted_edges)].pubkey != state.payer_node_id,
    ensures
        ({
            let i = cheapest(state.targeted_edges);
            let node = state.targeted_edges[i];
            let next = state_looked_at(
                RoutingStateView { targeted_edges: state.targeted_edges.remove(i), ..state },
                input.targets,
                input.channels,
                input.nodes,
                node.pubkey,
                node.lowest_fee_to_node,
                input.first_hops_given,
            );
            &&& 0 <= search_measure(next, input.channels) < search_measure(state, input.channels)
            &&& next.payer_node_id == state.payer_node_id
            &&& next.recommended_value_msat == state.recommended_value_msat
            &&& next.already_collected_value_msat == state.already_collected_value_msat
        }),
{
    let i = cheapest(state.targeted_edges);
    let node = state.targeted_edges[i];
    let popped = RoutingStateView { targeted_edges: state.targeted_edges.remove(i), ..state };
    lemma_cheapest_bounds(state.targeted_edges, state.targeted_edges.len() as int);
    lemma_waiting_others_remove(
        state.targeted_edges,
        state.payer_node_id,
        i,
        state.targeted_edges.len() - 1,
    );
    assert(search_measure(popped, input.channels) + 1 == search_measure(state, input.channels));
    lemma_look_keeps_measure(
        popped,
        input.targets,
        input.channels,
        input.nodes,
        node.pubkey,
        node.lowest_fee_to_node,
        input.first_hops_given,
    );
    let next = state_looked_at(
        popped,
        input.targets,
        input.channels,
        input.nodes,
        node.pubkey,
        node.lowest_fee_to_node,
        input.first_hops_given,
    );
    lemma_search_measure_nonnegative(next, input.channels);
}

/// The state in which a search starts: nothing waits and no vertex is kept.
pub open spec fn state_at_rest(
    payer: PublicKey,
    liquidity: Seq<ChannelLiquidity>,
    recommended_value_msat: u64,
    collected: u64,
) -> RoutingStateView {
    RoutingStateView {
        targeted_edges: Seq::empty(),
        weighted_vertices: Seq::empty(),
        payer_node_id: payer,
        liquidity,
        recommended_value_msat,
        already_collected_value_msat: collected,
    }
}

/// The paths collected, with what they carry together, held at the largest
/// 64-bit value: search follows search, each on what the paths before have
/// left the channels, until the paths carry what is recommended, a search
/// finds no path, or a path carries nothing.
pub open spec fn collected_paths(
    payer: PublicKey,
    liquidity: Seq<ChannelLiquidity>,
    recommended_value_msat: u64,
    collected: u64,
    so_far: Seq<Seq<PaymentHopView>>,
    input: SearchInput,
    last_hops: Seq<&RouteHint>,
) -> (Seq<Seq<PaymentHopView>>, u64)
    decreases recommended_value_msat - collected,
{
    match searched(
        state_seeded(
            state_at_rest(payer, liquidity, recommended_value_msat, collected),
            input.targets,
            input.channels,
            input.nodes,
            input.payee,
            input.first_hops_given,
            last_hops,
        ),
        input,
    ) {
        None => (so_far, collected),
        Some((path, left)) => {
            let value = view_value(path);
            let sum = capped_add(collected as int, value) as u64;
            if sum >= recommended_value_msat || value == 0 {
                (so_far.push(path), sum)
            } else {
                collected_paths(
                    payer,
                    left,
                    recommended_value_msat,
                    sum,
                    so_far.push(path),
                    input,
                    last_hops,
                )
            }
        },
    }
}

/// Whether `i` is the first of our channels that leads straight to `payee`.
pub open spec fn is_direct_channel(hops: Seq<&ChannelDetails>, payee: PublicKey, i: int) -> bool {
    &&& 0 <= i < hops.len()
    &&& hops[i].remote_network_id == payee
    &&& forall|j: int| 0 <= j < i ==> (#[trigger] hops[j]).remote_network_id != payee
}

/// Whether one of our channels leads straight to `payee`.
pub open spec fn has_direct_channel(hops: Seq<&ChannelDetails>, payee: PublicKey) -> bool {
    exists|i: int| 0 <= i < hops.len() && (#[trigger] hops[i]).remote_network_id == payee
}

/// The single hop over our channel `chan` that delivers `final_value_msat`
/// with the timelock `final_cltv`.
pub open spec fn direct_hop(chan: ChannelDetails, final_value_msat: u64, final_cltv: u32) -> RouteHopView {
    RouteHopView {
        pubkey: chan.remote_network_id,
        node_features: flags_in_context(
            chan.counterparty_features@,
            FeatureContext::Init,
            FeatureContext::Node,
        ),
        short_channel_id: chan.short_channel_id->0,
        channel_features: flags_in_context(
            chan.counterparty_features@,
            FeatureContext::Init,
            FeatureContext::Channel,
        ),
        fee_msat: final_value_msat,
        cltv_expiry_delta: final_cltv,
    }
}

/// What a search for a route is given, from what the caller gave.
pub open spec fn search_input(
    channels: Seq<ChannelEntry>,
    nodes: Seq<NodeEntry>,
    payee: PublicKey,
    first_hops: Option<&[&ChannelDetails]>,
    final_value_msat: u64,
    final_cltv: u32,
) -> SearchInput {
    SearchInput {
        targets: match first_hops {
            Some(hops) => targets_from(hops@, hops@.len() as int),
            None => Seq::empty(),
        },
        channels,
        nodes,
        payee,
        first_hops_given: first_hops is Some,
        final_value_msat,
        final_cltv,
    }
}

/// The route from `our_node_id` to `payee` that delivers `final_value_msat`
/// with the timelock `final_cltv`, or why there is none.
///
/// There is none to ourselves and none for more than all money. Where the
/// caller names our own channels, the first that leads straight to the payee
/// is the whole route, and without any channel there is no route. Else paths
/// are collected: without a path the payee is unreachable, with paths that
/// carry too little the route is insufficient, and otherwise the route is
/// chosen from the paths.
pub open spec fn route_for(
    our_node_id: PublicKey,
    channels: Seq<ChannelEntry>,
    nodes: Seq<NodeEntry>,
    payee: PublicKey,
    first_hops: Option<&[&ChannelDetails]>,
    last_hops: Seq<&RouteHint>,
    final_value_msat: u64,
    final_cltv: u32,
) -> Result<Seq<Seq<RouteHopView>>, RouteError> {
    if payee == our_node_id {
        Err(RouteError::RouteToSelf)
    } else if final_value_msat > MAX_VALUE_MSAT {
        Err(RouteError::ValueTooLarge)
    } else if first_hops is Some && has_direct_channel(first_hops->0@, payee) {
        let hops = first_hops->0@;
        Ok(
            seq![
                seq![
                    direct_hop(
                        *hops[choose|i: int| is_direct_channel(hops, payee, i)],
                        final_value_msat,
                        final_cltv,
                    ),
                ],
            ],
        )
    } else if first_hops is Some && first_hops->0@.len() == 0 {
        Err(RouteError::NoOutboundChannels)
    } else {
        let found = collected_paths(
            our_node_id,
            Seq::empty(),
            (final_value_msat * ROUTE_CAPACITY_PROVISION_FACTOR) as u64,
            0,
            Seq::empty(),
            search_input(channels, nodes, payee, first_hops, final_value_msat, final_cltv),
            last_hops,
        );
        if found.0.len() == 0 {
            Err(RouteError::RouteUnreachable)
        } else if found.1 < final_value_msat {
            Err(RouteError::RouteInsufficient)
        } else {
            Ok(route_hops(chosen(found.0, final_value_msat)))
        }
    }
}

} // verus!
