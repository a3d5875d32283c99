//! The route finder itself: paths are collected one by one from the payee
//! back to ourselves until they carry four times the payment or no further
//! path is found, and the cheapest combination that carries the payment
//! exactly is chosen.

use crate::features::{ChannelFeatures, InitFeatures, NodeFeatures};
use crate::network_graph::{
    DirectionalChannelInfo,
    MAX_VALUE_MSAT,
    NetworkGraph,
    is_first_node,
};
use crate::primitives::PublicKey;
use crate::routing::combination::{MAX_PATHS, chosen, route_hops, view_value, views};
use crate::routing::path_set::{
    all_end_at,
    choose_route,
    lemma_total_value_push,
    path_ends_at,
    total_value,
};
use crate::routing::payment_path::{PaymentHop, PaymentHopView, PaymentPath};
use crate::routing::route::{ChannelDetails, Route, RouteError, RouteHint, RouteHop, RouteHopView};
use crate::routing::route_ser::{hops_view, paths_view};
use crate::routing::route_spec::{
    ROUTE_CAPACITY_PROVISION_FACTOR,
    SearchInput,
    collected_paths,
    debited,
    direct_hop,
    has_direct_channel,
    hop_ending,
    hop_featured,
    hop_linked,
    hop_views,
    is_direct_channel,
    lemma_search_step,
    path_finished,
    path_found,
    room,
    route_for,
    search_input,
    searched,
    state_at_rest,
    value_ceiling,
    walked,
};
use crate::routing::routing_state::{
    ChannelLiquidity,
    RoutingState,
    RoutingStateView,
    cheapest,
    has_vertex,
    is_first_vertex,
    liquidity_position,
    pop_cheapest,
    vertex_position,
};
use crate::routing::search::{
    FirstHopTargetView,
    has_target,
    is_first_target,
    lemma_seeded_frame,
    search_measure,
    state_hinted,
    state_looked_at,
    state_seeded,
    state_with_first_hop,
    target_position,
    targets_from,
    targets_with,
};
use vstd::prelude::*;

verus! {

/// A node that one of our own channels leads to, as the caller named it.
pub struct FirstHopTarget {
    pub node: PublicKey,
    pub short_channel_id: u64,
    pub features: InitFeatures,
}

impl View for FirstHopTarget {
    type V = FirstHopTargetView;

    open spec fn view(&self) -> FirstHopTargetView {
        FirstHopTargetView {
            node: self.node,
            short_channel_id: self.short_channel_id,
            features: self.features@,
        }
    }
}

/// The targets with their features as plain byte strings.
pub open spec fn target_views(targets: Seq<FirstHopTarget>) -> Seq<FirstHopTargetView> {
    Seq::new(targets.len(), |i: int| targets[i]@)
}

/// What the last hops of a route hand on, added up: the amount the route
/// delivers.
pub open spec fn route_value(paths: Seq<Vec<RouteHop>>) -> int
    decreases paths.len(),
{
    if paths.len() == 0 {
        0
    } else {
        route_value(paths.drop_last()) + paths.last()@.last().fee_msat
    }
}

/// Whether every path of a route has hops, ends at `payee` and asks of it the
/// timelock `final_cltv`.
pub open spec fn route_ends_at(paths: Seq<Vec<RouteHop>>, payee: PublicKey, final_cltv: u32) -> bool {
    forall|i: int|
        0 <= i < paths.len() ==> {
            &&& (#[trigger] paths[i])@.len() > 0
            &&& paths[i]@.last().pubkey == payee
            &&& paths[i]@.last().cltv_expiry_delta == final_cltv
        }
}

/// Whether the first hops that the caller names are all confirmed channels.
pub open spec fn first_hops_usable(first_hops: Option<&[&ChannelDetails]>) -> bool {
    first_hops is Some ==> forall|i: int|
        0 <= i < first_hops->0@.len() ==> (#[trigger] first_hops->0@[i]).short_channel_id is Some
}

/// The first position of the target `node` among our first hops.
fn find_target(targets: &Vec<FirstHopTarget>, node: &PublicKey) -> (r: Option<usize>)
    ensures
        match r {
            Some(i) => is_first_target(target_views(targets@), *node, i as int),
            None => !has_target(target_views(targets@), *node),
        },
{
    let mut i: usize = 0;
    while i < targets.len()
        invariant
            i <= targets@.len(),
            forall|j: int| 0 <= j < i ==> (#[trigger] target_views(targets@)[j]).node != *node,
        decreases targets@.len() - i,
    {
        if targets[i].node.same(node) {
            assert(target_views(targets@)[i as int].node == *node);
            return Some(i);
        }
        assert(target_views(targets@)[i as int].node != *node);
        i = i + 1;
    }
    None
}

/// Takes the vertex of `node` out of the search state.
fn take_vertex(state: &mut RoutingState, node: &PublicKey) -> (r: Option<PaymentHop>)
    ensures
        match r {
            Some(hop) => {
                &&& has_vertex(old(state)@.weighted_vertices, *node)
                &&& is_first_vertex(
                    old(state)@.weighted_vertices,
                    *node,
                    vertex_position(old(state)@.weighted_vertices, *node),
                )
                &&& hop@ == old(state)@.weighted_vertices[vertex_position(
                    old(state)@.weighted_vertices,
                    *node,
                )].hop
                &&& final(state)@ == (RoutingStateView {
                    weighted_vertices: old(state)@.weighted_vertices.remove(
                        vertex_position(old(state)@.weighted_vertices, *node),
                    ),
                    ..old(state)@
                })
            },
            None => !has_vertex(old(state)@.weighted_vertices, *node) && final(state)@ == old(
                state,
            )@,
        },
{
    match state.vertex_index(node) {
        Some(i) => {
            let ghost before = state@.weighted_vertices;
            proof {
                assert(vertex_position(before, *node) == i);
            }
            let vertex = state.weighted_vertices.remove(i);
            proof {
                assert(state@.weighted_vertices =~= before.remove(i as int));
                assert(vertex@ == before[i as int]);
            }
            Some(vertex.hop)
        },
        None => {
            proof {
                assert(state@.weighted_vertices =~= old(state)@.weighted_vertices);
            }
            None
        },
    }
}

/// The features of `node` as a route states them.
fn node_features_of(
    targets: &Vec<FirstHopTarget>,
    network: &NetworkGraph,
    node: &PublicKey,
    current: NodeFeatures,
) -> (features: NodeFeatures)
    ensures
        features@ == crate::routing::route_spec::features_for(
            target_views(targets@),
            network.nodes@,
            *node,
            current@,
        ),
{
    match find_target(targets, node) {
        Some(t) => {
            proof {
                let views = target_views(targets@);
                assert(target_position(views, *node) == t);
                assert(views[t as int].features == targets@[t as int].features@);
            }
            targets[t].features.to_node_context()
        },
        None => match network.get_node(node) {
            Some(info) => {
                proof {
                    let chosen = choose|i: int| is_first_node(network.nodes@, *node, i);
                    let found = choose|i: int|
                        is_first_node(network.nodes@, *node, i) && *info == network.nodes@[i].info;
                    assert(chosen == found);
                }
                match &info.announcement_info {
                    Some(announced) => announced.features.duplicate(),
                    None => NodeFeatures::empty(),
                }
            },
            None => current,
        },
    }
}

/// The smaller of the bottleneck so far and what this channel can carry
/// beside the fees after it.
fn narrowed(bottleneck: u64, available: u64, following: u64) -> (narrowest: u64)
    ensures
        narrowest == if room(available, following) < bottleneck {
            room(available, following)
        } else {
            bottleneck
        },
{
    let here = if available > following {
        available - following
    } else {
        available / 10
    };
    if here < bottleneck {
        here
    } else {
        bottleneck
    }
}

/// Walks from ourselves along the cheapest channels to the payee and gives
/// the path, carrying as much as its narrowest channel allows and no more
/// than ten times the payment. The vertices walked over leave the search
/// state. No path is given where the walk comes to a node without a vertex.
fn walk_path(
    state: &mut RoutingState,
    targets: &Vec<FirstHopTarget>,
    network: &NetworkGraph,
    payee: &PublicKey,
    final_value_msat: u64,
    final_cltv: u32,
) -> (r: Option<PaymentPath>)
    ensures
        final(state)@.payer_node_id == old(state)@.payer_node_id,
        final(state)@.recommended_value_msat == old(state)@.recommended_value_msat,
        final(state)@.already_collected_value_msat == old(state)@.already_collected_value_msat,
        final(state)@.liquidity == old(state)@.liquidity,
        match r {
            Some(path) => path_found(
                old(state)@.weighted_vertices,
                old(state)@.payer_node_id,
                target_views(targets@),
                network.nodes@,
                *payee,
                final_value_msat,
                final_cltv,
            ) == Some(path@) && path_ends_at(path, *payee, final_cltv),
            None => path_found(
                old(state)@.weighted_vertices,
                old(state)@.payer_node_id,
                target_views(targets@),
                network.nodes@,
                *payee,
                final_value_msat,
                final_cltv,
            ) is None,
        },
{
    let payer = state.payer_node_id;
    let first = match take_vertex(state, &payer) {
        Some(hop) => hop,
        None => {
            return None;
        },
    };
    let mut ordered_hops: Vec<PaymentHop> = Vec::new();
    let mut path_bottleneck_msat: u64 = match final_value_msat.checked_mul(10) {
        Some(v) => v,
        None => u64::MAX,
    };
    let ghost whole = walked(
        state@.weighted_vertices,
        seq![first@],
        value_ceiling(final_value_msat),
        target_views(targets@),
        network.nodes@,
        *payee,
    );
    let ghost found = path_found(
        old(state)@.weighted_vertices,
        old(state)@.payer_node_id,
        target_views(targets@),
        network.nodes@,
        *payee,
        final_value_msat,
        final_cltv,
    );
    ordered_hops.push(first);
    proof {
        assert(hop_views(ordered_hops@) =~= seq![first@]);
        assert(found == path_finished(whole, final_value_msat, final_cltv));
    }
    loop
        invariant
            ordered_hops@.len() > 0,
            found == path_finished(whole, final_value_msat, final_cltv),
            found == path_found(
                old(state)@.weighted_vertices,
                old(state)@.payer_node_id,
                target_views(targets@),
                network.nodes@,
                *payee,
                final_value_msat,
                final_cltv,
            ),
            state@.payer_node_id == old(state)@.payer_node_id,
            state@.recommended_value_msat == old(state)@.recommended_value_msat,
            state@.already_collected_value_msat == old(state)@.already_collected_value_msat,
            state@.liquidity == old(state)@.liquidity,
            whole == walked(
                state@.weighted_vertices,
                hop_views(ordered_hops@),
                path_bottleneck_msat,
                target_views(targets@),
                network.nodes@,
                *payee,
            ),
        ensures
            ordered_hops@.len() > 0,
            ordered_hops@.last().route_hop.pubkey == *payee,
            state@.payer_node_id == old(state)@.payer_node_id,
            state@.recommended_value_msat == old(state)@.recommended_value_msat,
            state@.already_collected_value_msat == old(state)@.already_collected_value_msat,
            state@.liquidity == old(state)@.liquidity,
            whole == Some((hop_views(ordered_hops@), path_bottleneck_msat)),
        decreases state.weighted_vertices@.len(),
    {
        let last = ordered_hops.len() - 1;
        let ghost hops_before = hop_views(ordered_hops@);
        let ghost vertices = state@.weighted_vertices;
        let ghost bottleneck_before = path_bottleneck_msat;
        let last_node = ordered_hops[last].route_hop.pubkey;
        let known = ordered_hops[last].route_hop.node_features.duplicate();
        ordered_hops[last].route_hop.node_features = node_features_of(
            targets,
            network,
            &last_node,
            known,
        );
        path_bottleneck_msat = narrowed(
            path_bottleneck_msat,
            ordered_hops[last].available_liquidity_msat,
            ordered_hops[last].following_hops_fees_msat,
        );
        let ghost featured = hop_featured(
            hops_before[last as int],
            target_views(targets@),
            network.nodes@,
        );
        proof {
            assert(ordered_hops@[last as int]@ == featured);
            assert(hop_views(ordered_hops@) =~= hops_before.update(last as int, featured));
        }
        if last_node.same(payee) {
            break ;
        }
        let next = match take_vertex(state, &last_node) {
            Some(hop) => hop,
            None => {
                return None;
            },
        };
        ordered_hops[last].route_hop.fee_msat = next.hop_use_fee_msat;
        ordered_hops[last].route_hop.cltv_expiry_delta = next.route_hop.cltv_expiry_delta;
        let ghost next_view = next@;
        ordered_hops.push(next);
        proof {
            assert(hop_views(ordered_hops@) =~= hops_before.update(
                last as int,
                hop_linked(featured, next_view),
            ).push(next_view));
            assert(state.weighted_vertices@.len() == state@.weighted_vertices.len());
        }
    }
    let last = ordered_hops.len() - 1;
    let ghost walked_hops = hop_views(ordered_hops@);
    ordered_hops[last].route_hop.fee_msat = final_value_msat;
    ordered_hops[last].route_hop.cltv_expiry_delta = final_cltv;
    let mut payment_path = PaymentPath { hops: ordered_hops };
    proof {
        assert(payment_path@ =~= walked_hops.update(
            last as int,
            hop_ending(walked_hops.last(), final_value_msat, final_cltv),
        ));
    }
    payment_path.update_value_and_recompute_fees(path_bottleneck_msat);
    Some(payment_path)
}

/// Takes from every channel of the path what the path sends over it. Stops
/// at the first channel that cannot give its share, and says whether every
/// channel could.
fn debit_path(state: &mut RoutingState, path: &PaymentPath) -> (done: bool)
    ensures
        final(state)@.payer_node_id == old(state)@.payer_node_id,
        final(state)@.recommended_value_msat == old(state)@.recommended_value_msat,
        final(state)@.already_collected_value_msat == old(state)@.already_collected_value_msat,
        match debited(old(state)@.liquidity, path@, 0) {
            Some(liquidity) => done && final(state)@.liquidity == liquidity,
            None => !done,
        },
{
    let mut i: usize = 0;
    let ghost whole = debited(state@.liquidity, path@, 0);
    while i < path.hops.len()
        invariant
            i <= path.hops@.len(),
            path@.len() == path.hops@.len(),
            state@.payer_node_id == old(state)@.payer_node_id,
            state@.recommended_value_msat == old(state)@.recommended_value_msat,
            state@.already_collected_value_msat == old(state)@.already_collected_value_msat,
            whole == debited(old(state)@.liquidity, path@, 0),
            whole == debited(state@.liquidity, path@, i as int),
        decreases path.hops@.len() - i,
    {
        proof {
            assert(path@[i as int] == path.hops@[i as int]@);
        }
        let paid = path.hops[i].get_fee_paid_msat();
        match state.liquidity_index(path.hops[i].route_hop.short_channel_id) {
            Some(at) => {
                proof {
                    assert(liquidity_position(
                        state@.liquidity,
                        path@[i as int].route_hop.short_channel_id,
                    ) == at);
                }
                let left = state.bookkeeped_channels_liquidity_available_msat[at].available_msat;
                if left < paid {
                    return false;
                }
                let ghost before = state@.liquidity;
                state.bookkeeped_channels_liquidity_available_msat[at].available_msat = left
                    - paid;
                proof {
                    assert(state@.liquidity =~= before.update(
                        at as int,
                        ChannelLiquidity {
                            short_channel_id: before[at as int].short_channel_id,
                            available_msat: (before[at as int].available_msat - paid) as u64,
                        },
                    ));
                }
            },
            None => {
                return false;
            },
        }
        i = i + 1;
    }
    true
}

/// Offers our own channel to `node`, if the caller named one, as a way to
/// reach it.
fn offer_first_hop(
    state: &mut RoutingState,
    targets: &Vec<FirstHopTarget>,
    network: &NetworkGraph,
    node: &PublicKey,
    fee_to_target_msat: u64,
)
    ensures
        final(state)@ == state_with_first_hop(
            old(state)@,
            target_views(targets@),
            *node,
            fee_to_target_msat,
            network.nodes@,
        ),
{
    match find_target(targets, node) {
        Some(t) => {
            proof {
                let views = target_views(targets@);
                assert(target_position(views, *node) == t);
                assert(views[t as int] == targets@[t as int]@);
            }
            let info = DirectionalChannelInfo::unannounced();
            let features = targets[t].features.to_channel_context();
            let payer = state.payer_node_id;
            state.add_vertice(
                targets[t].short_channel_id,
                &payer,
                node,
                &info,
                None,
                features,
                fee_to_target_msat,
                network,
            );
        },
        None => {},
    }
}

/// Looks at the node `node_id`: where the graph knows it, our own channel
/// to it is offered, if the caller named our channels, and then every usable
/// channel of the node.
fn look_at_node(
    state: &mut RoutingState,
    targets: &Vec<FirstHopTarget>,
    network: &NetworkGraph,
    node_id: &PublicKey,
    fee_to_target_msat: u64,
    first_hops: Option<&[&ChannelDetails]>,
)
    ensures
        final(state)@ == state_looked_at(
            old(state)@,
            target_views(targets@),
            network.channels@,
            network.nodes@,
            *node_id,
            fee_to_target_msat,
            first_hops is Some,
        ),
{
    match network.get_node(node_id) {
        None => {},
        Some(node) => {
            proof {
                let chosen = choose|i: int| is_first_node(network.nodes@, *node_id, i);
                let found = choose|i: int|
                    is_first_node(network.nodes@, *node_id, i) && *node == network.nodes@[i].info;
                assert(chosen == found);
            }
            if first_hops.is_some() {
                offer_first_hop(state, targets, network, node_id, fee_to_target_msat);
            }
            state.select_weighted_vertice_to_target_edge(
                node,
                node_id,
                fee_to_target_msat,
                first_hops,
                network,
            );
        },
    }
}

/// Starts a search: what was left of the last one goes, and the channels
/// into the payee are offered, those of the graph and those the caller
/// hinted at.
fn seed_search(
    state: &mut RoutingState,
    targets: &Vec<FirstHopTarget>,
    network: &NetworkGraph,
    payee: &PublicKey,
    first_hops: Option<&[&ChannelDetails]>,
    last_hops: &[&RouteHint],
)
    ensures
        final(state)@ == state_seeded(
            old(state)@,
            target_views(targets@),
            network.channels@,
            network.nodes@,
            *payee,
            first_hops is Some,
            last_hops@,
        ),
{
    state.targeted_edges.clear();
    state.weighted_vertices.clear();
    proof {
        assert(state@ =~= (RoutingStateView {
            targeted_edges: Seq::empty(),
            weighted_vertices: Seq::empty(),
            ..old(state)@
        }));
    }
    look_at_node(state, targets, network, payee, 0, first_hops);
    let ghost looked = state@;
    let first_hops_given = first_hops.is_some();
    let mut i: usize = 0;
    while i < last_hops.len()
        invariant
            i <= last_hops@.len(),
            first_hops_given == (first_hops is Some),
            state@ == state_hinted(
                looked,
                target_views(targets@),
                network.nodes@,
                *payee,
                first_hops_given,
                last_hops@,
                i as int,
            ),
        decreases last_hops@.len() - i,
    {
        let hop = last_hops[i];
        let payer = state.payer_node_id;
        if !first_hops_given || !hop.src_node_id.same(&payer) {
            if network.get_node(&hop.src_node_id).is_some() {
                if first_hops_given {
                    offer_first_hop(state, targets, network, &hop.src_node_id, 0);
                }
                let from_route_hint = DirectionalChannelInfo {
                    last_update: 0,
                    enabled: false,
                    cltv_expiry_delta: hop.cltv_expiry_delta,
                    htlc_minimum_msat: hop.htlc_minimum_msat,
                    htlc_maximum_msat: hop.htlc_maximum_msat,
                    fees: hop.fees,
                };
                state.add_vertice(
                    hop.short_channel_id,
                    &hop.src_node_id,
                    payee,
                    &from_route_hint,
                    None,
                    ChannelFeatures::empty(),
                    0,
                    network,
                );
            }
        }
        i = i + 1;
    }
}

/// Looks at the waiting nodes, cheapest first, until ourselves are reached,
/// and gives the path found then, once every channel on it has given its
/// share. No path is given when no node is waiting any more, when the walk
/// fails or when a channel cannot give its share.
fn search_path(
    state: &mut RoutingState,
    targets: &Vec<FirstHopTarget>,
    network: &NetworkGraph,
    payee: &PublicKey,
    first_hops: Option<&[&ChannelDetails]>,
    final_value_msat: u64,
    final_cltv: u32,
) -> (r: Option<PaymentPath>)
    ensures
        final(state)@.payer_node_id == old(state)@.payer_node_id,
        final(state)@.recommended_value_msat == old(state)@.recommended_value_msat,
        final(state)@.already_collected_value_msat == old(state)@.already_collected_value_msat,
        ({
            let input = SearchInput {
                targets: target_views(targets@),
                channels: network.channels@,
                nodes: network.nodes@,
                payee: *payee,
                first_hops_given: first_hops is Some,
                final_value_msat,
                final_cltv,
            };
            match r {
                Some(path) => searched(old(state)@, input) == Some((path@, final(state)@.liquidity))
                    && path_ends_at(path, *payee, final_cltv),
                None => searched(old(state)@, input) is None,
            }
        }),
{
    let ghost input = SearchInput {
        targets: target_views(targets@),
        channels: network.channels@,
        nodes: network.nodes@,
        payee: *payee,
        first_hops_given: first_hops is Some,
        final_value_msat,
        final_cltv,
    };
    let ghost whole = searched(state@, input);
    loop
        invariant
            state@.payer_node_id == old(state)@.payer_node_id,
            state@.recommended_value_msat == old(state)@.recommended_value_msat,
            state@.already_collected_value_msat == old(state)@.already_collected_value_msat,
            input == (SearchInput {
                targets: target_views(targets@),
                channels: network.channels@,
                nodes: network.nodes@,
                payee: *payee,
                first_hops_given: first_hops is Some,
                final_value_msat,
                final_cltv,
            }),
            whole == searched(old(state)@, input),
            whole == searched(state@, input),
        decreases search_measure(state@, network.channels@),
    {
        let ghost before = state@;
        let node = match pop_cheapest(&mut state.targeted_edges) {
            Some(node) => node,
            None => {
                return None;
            },
        };
        let ghost popped = RoutingStateView {
            targeted_edges: before.targeted_edges.remove(cheapest(before.targeted_edges)),
            ..before
        };
        proof {
            assert(state@ =~= popped);
        }
        let payer = state.payer_node_id;
        if node.pubkey.same(&payer) {
            return match walk_path(state, targets, network, payee, final_value_msat, final_cltv) {
                Some(path) => {
                    if debit_path(state, &path) {
                        Some(path)
                    } else {
                        None
                    }
                },
                None => None,
            };
        }
        proof {
            lemma_search_step(before, input);
        }
        look_at_node(state, targets, network, &node.pubkey, node.lowest_fee_to_node, first_hops);
    }
}

/// Collects paths to the payee until they carry four times the payment or
/// no further path is found, and gives them with what they carry together,
/// held at the largest 64-bit value.
fn collect_paths(
    targets: &Vec<FirstHopTarget>,
    network: &NetworkGraph,
    our_node_id: &PublicKey,
    payee: &PublicKey,
    first_hops: Option<&[&ChannelDetails]>,
    last_hops: &[&RouteHint],
    final_value_msat: u64,
    final_cltv: u32,
) -> (r: (Vec<PaymentPath>, u64))
    requires
        final_value_msat <= MAX_VALUE_MSAT,
    ensures
        (views(r.0@), r.1) == collected_paths(
            *our_node_id,
            Seq::empty(),
            (final_value_msat * ROUTE_CAPACITY_PROVISION_FACTOR) as u64,
            0,
            Seq::empty(),
            SearchInput {
                targets: target_views(targets@),
                channels: network.channels@,
                nodes: network.nodes@,
                payee: *payee,
                first_hops_given: first_hops is Some,
                final_value_msat,
                final_cltv,
            },
            last_hops@,
        ),
        all_end_at(r.0@, *payee, final_cltv),
        r.1 <= total_value(r.0@),
{
    let recommended_value_msat = final_value_msat * ROUTE_CAPACITY_PROVISION_FACTOR;
    let mut state = RoutingState::new(network.nodes.len(), *our_node_id, recommended_value_msat);
    let mut payment_paths: Vec<PaymentPath> = Vec::new();
    let ghost input = SearchInput {
        targets: target_views(targets@),
        channels: network.channels@,
        nodes: network.nodes@,
        payee: *payee,
        first_hops_given: first_hops is Some,
        final_value_msat,
        final_cltv,
    };
    let ghost whole = collected_paths(
        *our_node_id,
        Seq::empty(),
        recommended_value_msat,
        0,
        Seq::empty(),
        input,
        last_hops@,
    );
    proof {
        assert(views(payment_paths@) =~= Seq::<Seq<PaymentHopView>>::empty());
    }
    loop
        invariant_except_break
            whole == collected_paths(
                *our_node_id,
                state@.liquidity,
                recommended_value_msat,
                state@.already_collected_value_msat,
                views(payment_paths@),
                input,
                last_hops@,
            ),
        invariant
            state@.payer_node_id == *our_node_id,
            state@.recommended_value_msat == recommended_value_msat,
            all_end_at(payment_paths@, *payee, final_cltv),
            state@.already_collected_value_msat <= total_value(payment_paths@),
            input == (SearchInput {
                targets: target_views(targets@),
                channels: network.channels@,
                nodes: network.nodes@,
                payee: *payee,
                first_hops_given: first_hops is Some,
                final_value_msat,
                final_cltv,
            }),
        ensures
            all_end_at(payment_paths@, *payee, final_cltv),
            state@.already_collected_value_msat <= total_value(payment_paths@),
            whole == (views(payment_paths@), state@.already_collected_value_msat),
        decreases recommended_value_msat - state@.already_collected_value_msat,
    {
        let ghost before = state@;
        let ghost paths_before = payment_paths@;
        proof {
            let rested = state_at_rest(
                *our_node_id,
                before.liquidity,
                recommended_value_msat,
                before.already_collected_value_msat,
            );
            assert(rested =~= (RoutingStateView {
                targeted_edges: Seq::empty(),
                weighted_vertices: Seq::empty(),
                ..before
            }));
            lemma_seeded_frame(
                before,
                target_views(targets@),
                network.channels@,
                network.nodes@,
                *payee,
                first_hops is Some,
                last_hops@,
            );
        }
        seed_search(&mut state, targets, network, payee, first_hops, last_hops);
        match search_path(
            &mut state,
            targets,
            network,
            payee,
            first_hops,
            final_value_msat,
            final_cltv,
        ) {
            Some(path) => {
                let value = path.get_value_msat();
                proof {
                    lemma_total_value_push(payment_paths@, path);
                    crate::routing::combination::lemma_views_push(payment_paths@, path);
                    assert(view_value(path@) == value);
                }
                state.already_collected_value_msat =
                    state.already_collected_value_msat.saturating_add(value);
                payment_paths.push(path);
                if state.already_collected_value_msat >= recommended_value_msat || value == 0 {
                    break ;
                }
            },
            None => {
                break ;
            },
        }
    }
    (payment_paths, state.already_collected_value_msat)
}

/// A route delivers what its paths deliver.
proof fn lemma_route_value_push(paths: Seq<Vec<RouteHop>>, path: Vec<RouteHop>)
    ensures
        route_value(paths.push(path)) == route_value(paths) + path@.last().fee_msat,
{
    assert(paths.push(path).drop_last() =~= paths);
}

/// The hops of the chosen paths, as the route lists them.
fn route_of(paths: &Vec<PaymentPath>, Ghost(payee): Ghost<PublicKey>, Ghost(final_cltv): Ghost<u32>) -> (route:
    Route)
    requires
        all_end_at(paths@, payee, final_cltv),
    ensures
        paths_view(route.paths@) == route_hops(views(paths@)),
        route.paths@.len() == paths@.len(),
        route_ends_at(route.paths@, payee, final_cltv),
        route_value(route.paths@) == total_value(paths@),
{
    let mut selected_paths: Vec<Vec<RouteHop>> = Vec::new();
    let mut i: usize = 0;
    while i < paths.len()
        invariant
            i <= paths@.len(),
            selected_paths@.len() == i,
            all_end_at(paths@, payee, final_cltv),
            route_ends_at(selected_paths@, payee, final_cltv),
            route_value(selected_paths@) == total_value(paths@.subrange(0, i as int)),
            forall|a: int, k: int|
                0 <= a < i && 0 <= k < paths@[a]@.len() ==> (
                #[trigger] selected_paths@[a]@[k])@ == paths@[a]@[k].route_hop,
            forall|a: int| 0 <= a < i ==> (#[trigger] selected_paths@[a])@.len() == paths@[a]@.len(),
        decreases paths@.len() - i,
    {
        let path = &paths[i];
        let mut hops: Vec<RouteHop> = Vec::new();
        let mut k: usize = 0;
        assert(path_ends_at(paths@[i as int], payee, final_cltv));
        while k < path.hops.len()
            invariant
                k <= path.hops@.len(),
                path@.len() == path.hops@.len(),
                hops@.len() == k,
                forall|j: int| 0 <= j < k ==> (#[trigger] hops@[j])@ == path@[j].route_hop,
            decreases path.hops@.len() - k,
        {
            assert(path@[k as int] == path.hops@[k as int]@);
            hops.push(path.hops[k].route_hop.duplicate());
            k = k + 1;
        }
        proof {
            let n = path@.len() as int;
            assert(hops@[n - 1]@ == path@[n - 1].route_hop);
            lemma_route_value_push(selected_paths@, hops);
            let upto = paths@.subrange(0, i + 1);
            assert(upto.drop_last() =~= paths@.subrange(0, i as int));
            assert(upto.last() == paths@[i as int]);
        }
        selected_paths.push(hops);
        i = i + 1;
    }
    proof {
        assert(paths@.subrange(0, paths@.len() as int) =~= paths@);
        let listed = paths_view(selected_paths@);
        let wanted = route_hops(views(paths@));
        assert(listed.len() == wanted.len());
        assert forall|a: int| 0 <= a < listed.len() implies listed[a] == wanted[a] by {
            assert(listed[a] == hops_view(selected_paths@[a]@));
            assert(views(paths@)[a] == paths@[a]@);
            assert(listed[a].len() == wanted[a].len());
            assert forall|k: int| 0 <= k < listed[a].len() implies listed[a][k]
                == wanted[a][k] by {
                assert(listed[a][k] == selected_paths@[a]@[k]@);
            }
            assert(listed[a] =~= wanted[a]);
        }
        assert(listed =~= wanted);
    }
    Route { paths: selected_paths }
}

/// Finds a route from us, the payer, to `payee` that delivers
/// `final_value_msat` with the timelock `final_cltv` at the payee: the route
/// that [`route_for`] states, or the reason it gives why there is none.
///
/// Where `first_hops` is given, only these channels lead away from us, and
/// what the graph holds of our own channels is left aside; one of them that
/// leads straight to the payee is the whole route. The channels in
/// `last_hops` lead into the payee beside those of the graph.
///
/// Every path of a route ends at the payee with the timelock asked for, and
/// the paths deliver the payment exactly. The one exception: where more than
/// fifty paths were found and the cheapest fifty together deliver less than
/// the payment, the route is those fifty.
pub fn get_route(
    our_node_id: &PublicKey,
    network: &NetworkGraph,
    payee: &PublicKey,
    first_hops: Option<&[&ChannelDetails]>,
    last_hops: &[&RouteHint],
    final_value_msat: u64,
    final_cltv: u32,
) -> (r: Result<Route, RouteError>)
    requires
        first_hops_usable(first_hops),
    ensures
        match r {
            Ok(route) => route_for(
                *our_node_id,
                network.channels@,
                network.nodes@,
                *payee,
                first_hops,
                last_hops@,
                final_value_msat,
                final_cltv,
            ) == Ok::<Seq<Seq<RouteHopView>>, RouteError>(paths_view(route.paths@)),
            Err(e) => route_for(
                *our_node_id,
                network.channels@,
                network.nodes@,
                *payee,
                first_hops,
                last_hops@,
                final_value_msat,
                final_cltv,
            ) == Err::<Seq<Seq<RouteHopView>>, RouteError>(e),
        },
        r is Ok ==> {
            &&& r->Ok_0.paths@.len() > 0
            &&& route_ends_at(r->Ok_0.paths@, *payee, final_cltv)
            &&& route_value(r->Ok_0.paths@) == final_value_msat || (route_value(r->Ok_0.paths@)
                < final_value_msat && r->Ok_0.paths@.len() == MAX_PATHS)
        },
{
    if payee.same(our_node_id) {
        return Err(RouteError::RouteToSelf);
    }
    if final_value_msat > MAX_VALUE_MSAT {
        return Err(RouteError::ValueTooLarge);
    }
    let mut first_hop_targets: Vec<FirstHopTarget> = Vec::new();
    proof {
        assert(target_views(first_hop_targets@) =~= Seq::<FirstHopTargetView>::empty());
    }
    match first_hops {
        Some(hops) => {
            let mut i: usize = 0;
            while i < hops.len()
                invariant
                    i <= hops@.len(),
                    first_hops == Some(hops),
                    first_hops_usable(first_hops),
                    forall|j: int| 0 <= j < i ==> (#[trigger] hops@[j]).remote_network_id != *payee,
                    i > 0 <==> first_hop_targets@.len() > 0,
                    *payee != *our_node_id,
                    final_value_msat <= MAX_VALUE_MSAT,
                    target_views(first_hop_targets@) == targets_from(hops@, i as int),
                decreases hops@.len() - i,
            {
                let chan = hops[i];
                let short_channel_id = match chan.short_channel_id {
                    Some(scid) => scid,
                    None => {
                        proof {
                            assert(hops@[i as int].short_channel_id is Some);
                        }
                        0
                    },
                };
                proof {
                    assert(hops@[i as int].short_channel_id is Some);
                }
                if chan.remote_network_id.same(payee) {
                    let mut path: Vec<RouteHop> = Vec::new();
                    path.push(
                        RouteHop {
                            pubkey: chan.remote_network_id,
                            node_features: chan.counterparty_features.to_node_context(),
                            short_channel_id,
                            channel_features: chan.counterparty_features.to_channel_context(),
                            fee_msat: final_value_msat,
                            cltv_expiry_delta: final_cltv,
                        },
                    );
                    let mut paths: Vec<Vec<RouteHop>> = Vec::new();
                    paths.push(path);
                    let route = Route { paths };
                    proof {
                        assert(is_direct_channel(hops@, *payee, i as int));
                        let first = choose|k: int| is_direct_channel(hops@, *payee, k);
                        assert(first == i);
                        assert(has_direct_channel(hops@, *payee));
                        let hop = direct_hop(*hops@[i as int], final_value_msat, final_cltv);
                        assert(hops_view(route.paths@[0]@) =~= seq![hop]);
                        assert(paths_view(route.paths@) =~= seq![seq![hop]]);
                        assert(route.paths@.drop_last() =~= Seq::<Vec<RouteHop>>::empty());
                        assert(route_value(route.paths@.drop_last()) == 0);
                    }
                    return Ok(route);
                }
                let at = find_target(&first_hop_targets, &chan.remote_network_id);
                let ghost before = target_views(first_hop_targets@);
                let ghost added = FirstHopTargetView {
                    node: chan.remote_network_id,
                    short_channel_id,
                    features: chan.counterparty_features@,
                };
                match at {
                    Some(t) => {
                        proof {
                            assert(target_position(before, chan.remote_network_id) == t);
                        }
                        first_hop_targets[t].short_channel_id = short_channel_id;
                        first_hop_targets[t].features = chan.counterparty_features.duplicate();
                        proof {
                            assert(first_hop_targets@[t as int]@ == added);
                            assert(target_views(first_hop_targets@) =~= before.update(
                                t as int,
                                added,
                            ));
                        }
                    },
                    None => {
                        first_hop_targets.push(
                            FirstHopTarget {
                                node: chan.remote_network_id,
                                short_channel_id,
                                features: chan.counterparty_features.duplicate(),
                            },
                        );
                        proof {
                            assert(target_views(first_hop_targets@) =~= before.push(added));
                        }
                    },
                }
                proof {
                    assert(target_views(first_hop_targets@) == targets_with(before, added));
                }
                i = i + 1;
            }
            proof {
                assert(!has_direct_channel(hops@, *payee));
            }
            if first_hop_targets.len() == 0 {
                return Err(RouteError::NoOutboundChannels);
            }
        },
        None => {},
    }
    proof {
        assert(target_views(first_hop_targets@) == search_input(
            network.channels@,
            network.nodes@,
            *payee,
            first_hops,
            final_value_msat,
            final_cltv,
        ).targets);
    }
    let (payment_paths, collected) = collect_paths(
        &first_hop_targets,
        network,
        our_node_id,
        payee,
        first_hops,
        last_hops,
        final_value_msat,
        final_cltv,
    );
    if payment_paths.len() == 0 {
        return Err(RouteError::RouteUnreachable);
    }
    if collected < final_value_msat {
        return Err(RouteError::RouteInsufficient);
    }
    proof {
        assert forall|i: int| 0 <= i < payment_paths@.len() implies (
        #[trigger] payment_paths@[i])@.len() > 0 by {
            assert(path_ends_at(payment_paths@[i], *payee, final_cltv));
        }
    }
    let chosen_paths = choose_route(payment_paths, final_value_msat);
    assert(all_end_at(chosen_paths@, *payee, final_cltv));
    let route = route_of(&chosen_paths, Ghost(*payee), Ghost(final_cltv));
    Ok(route)
}

} // verus!
