use bitcoin::secp256k1::key::{PublicKey as SecpPublicKey, SecretKey};
use bitcoin::secp256k1::Secp256k1;
use lightning::batch::{take_batch, MAX_HEADERS_PER_MESSAGE};
use lightning::features::{ChannelFeatures, InitFeatures, NodeFeatures};
use lightning::network_graph::{ChannelUpdate, DirectionalChannelInfo, GraphError, NetworkGraph, RoutingFees, MAX_VALUE_MSAT};
use lightning::primitives::PublicKey;
use lightning::routing::combination::PathKey;
use lightning::routing::path_set::{choose_route, draw_route, drop_small_paths, sort_paths, trim_overpayment};
use lightning::routing::payment_path::{compute_fees, PaymentHop, PaymentPath};
use lightning::routing::route::{ChannelDetails, Route, RouteError, RouteHint, RouteHop};
use lightning::routing::router::get_route;
use lightning::routing::routing_state::{pop_cheapest, RouteGraphNode, RoutingState};
use lightning::ser::DecodeError;

fn node_key(byte: u8) -> PublicKey {
    let secp_ctx = Secp256k1::new();
    let secret = SecretKey::from_slice(&[byte; 32]).unwrap();
    PublicKey::new(SecpPublicKey::from_secret_key(&secp_ctx, &secret).serialize())
}

fn fees(base_msat: u32, proportional_millionths: u32) -> RoutingFees {
    RoutingFees { base_msat, proportional_millionths }
}

fn update(short_channel_id: u64, timestamp: u32, flags: u8, fee_base_msat: u32, fee_proportional_millionths: u32) -> ChannelUpdate {
    ChannelUpdate {
        short_channel_id,
        timestamp,
        flags,
        cltv_expiry_delta: 40,
        htlc_minimum_msat: 0,
        htlc_maximum_msat: None,
        fee_base_msat,
        fee_proportional_millionths,
    }
}

#[test]
fn unknown_required_features_are_seen() {
    assert!(!NodeFeatures::empty().requires_unknown_bits());
    assert!(!NodeFeatures::from_le_bytes(vec![0b1010_1010, 0b1010_1010, 0b1010_1010, 0b1010_1010]).requires_unknown_bits());
    // The known features of a node may be required.
    assert!(!NodeFeatures::from_le_bytes(vec![0b0001_0001, 0b0101_0001, 0b0000_0001]).requires_unknown_bits());
    assert!(NodeFeatures::from_le_bytes(vec![0b0000_0100]).requires_unknown_bits());
    assert!(!InitFeatures::from_le_bytes(vec![0b0000_0100]).requires_unknown_bits());
    assert!(NodeFeatures::from_le_bytes(vec![0, 0, 0b0100_0000]).requires_unknown_bits());
    assert!(NodeFeatures::from_le_bytes(vec![0, 0, 0, 1]).requires_unknown_bits());
    assert!(ChannelFeatures::from_le_bytes(vec![1]).requires_unknown_bits());
    assert!(!ChannelFeatures::from_le_bytes(vec![2]).requires_unknown_bits());
    assert!(InitFeatures::from_le_bytes(vec![0, 0b0000_0100]).requires_unknown_bits());
}

#[test]
fn features_are_carried_to_another_context() {
    let init = InitFeatures::from_le_bytes(vec![0b1111_1111, 0b1111_1111, 0b1111_1111, 0b1111_1111]);
    assert_eq!(init.to_node_context().le_flags(), &vec![0b0011_0011, 0b1111_0011, 0b0000_0011]);
    assert_eq!(init.to_channel_context().le_flags(), &Vec::<u8>::new());
    assert_eq!(InitFeatures::from_le_bytes(vec![0b11]).to_node_context().le_flags(), &vec![0b11]);
    assert_eq!(InitFeatures::from_le_bytes(vec![0b1100]).to_node_context().le_flags(), &vec![0]);
    assert_eq!(InitFeatures::empty().to_node_context(), NodeFeatures::empty());
    assert_eq!(init.duplicate(), init);
    assert_eq!(ChannelFeatures::empty().le_flags(), &Vec::<u8>::new());
}

#[test]
fn graph_takes_announcements() {
    let mut graph = NetworkGraph::new();
    let (a, b, c) = (node_key(1), node_key(2), node_key(3));
    assert_eq!(graph.add_channel(1, a, a, ChannelFeatures::empty(), None), Err(GraphError::SelfChannel));
    assert_eq!(graph.add_channel(1, a, b, ChannelFeatures::from_le_bytes(vec![2]), Some(100)), Ok(()));
    assert_eq!(graph.add_channel(1, b, c, ChannelFeatures::empty(), None), Err(GraphError::DuplicateChannel));
    assert_eq!(graph.add_channel(2, c, b, ChannelFeatures::empty(), None), Ok(()));
    assert_eq!(graph.channels.len(), 2);
    assert_eq!(graph.nodes.len(), 3);
    assert_eq!(graph.get_node(&b).unwrap().channels, vec![1, 2]);
    assert_eq!(graph.get_node(&a).unwrap().channels, vec![1]);
    assert!(graph.get_node(&node_key(4)).is_none());
    let channel = graph.get_channel(1).unwrap();
    assert_eq!((channel.node_one, channel.node_two, channel.capacity_sats), (a, b, Some(100)));
    assert_eq!(channel.features.le_flags(), &vec![2]);
    assert!(channel.one_to_two.is_none() && channel.two_to_one.is_none());
    assert!(graph.get_channel(3).is_none());
    assert_eq!(graph.channel_index(2), Some(1));
    assert_eq!(graph.node_index(&c), Some(2));

    assert_eq!(graph.update_node(&node_key(4), NodeFeatures::empty(), 1), Err(GraphError::UnknownNode));
    assert_eq!(graph.update_node(&a, NodeFeatures::from_le_bytes(vec![8]), 5), Ok(()));
    assert_eq!(graph.update_node(&a, NodeFeatures::empty(), 5), Err(GraphError::Stale));
    assert_eq!(graph.update_node(&a, NodeFeatures::empty(), 4), Err(GraphError::Stale));
    assert_eq!(graph.get_node(&a).unwrap().announcement_info.as_ref().unwrap().features.le_flags(), &vec![8]);
    assert_eq!(graph.update_node(&a, NodeFeatures::empty(), 6), Ok(()));
    assert_eq!(graph.get_node(&a).unwrap().announcement_info.as_ref().unwrap().last_update, 6);
}

#[test]
fn graph_refuses_bad_updates() {
    let mut graph = NetworkGraph::new();
    let (a, b) = (node_key(1), node_key(2));
    graph.add_channel(1, a, b, ChannelFeatures::empty(), Some(100)).unwrap();
    let before = graph.clone();
    assert_eq!(graph.update_channel(&update(9, 1, 0, 0, 0)), Err(GraphError::UnknownChannel));
    let mut too_large = update(1, 1, 0, 0, 0);
    too_large.htlc_maximum_msat = Some(MAX_VALUE_MSAT + 1);
    assert_eq!(graph.update_channel(&too_large), Err(GraphError::MaximumTooLarge));
    let mut over_capacity = update(1, 1, 0, 0, 0);
    over_capacity.htlc_maximum_msat = Some(100_001);
    assert_eq!(graph.update_channel(&over_capacity), Err(GraphError::MaximumOverCapacity));
    assert_eq!(graph, before);
    let mut at_capacity = update(1, 1, 0, 7, 8);
    at_capacity.htlc_maximum_msat = Some(100_000);
    assert_eq!(graph.update_channel(&at_capacity), Ok(()));
    assert_eq!(graph.update_channel(&update(1, 1, 0, 0, 0)), Err(GraphError::Stale));
    assert_eq!(graph.update_channel(&update(1, 0, 0, 0, 0)), Err(GraphError::Stale));
    // The other direction has seen nothing yet.
    assert_eq!(graph.update_channel(&update(1, 0, 1, 0, 0)), Ok(()));
    let channel = graph.get_channel(1).unwrap();
    assert_eq!(
        channel.one_to_two,
        Some(DirectionalChannelInfo { last_update: 1, enabled: true, cltv_expiry_delta: 40, htlc_minimum_msat: 0, htlc_maximum_msat: Some(100_000), fees: fees(7, 8) })
    );
    assert_eq!(channel.two_to_one.unwrap().last_update, 0);
    assert_eq!(DirectionalChannelInfo::unannounced().enabled, false);
}

#[test]
fn graph_keeps_the_lowest_inbound_fees() {
    let mut graph = NetworkGraph::new();
    let (a, b, c) = (node_key(1), node_key(2), node_key(3));
    graph.add_channel(1, a, b, ChannelFeatures::empty(), None).unwrap();
    graph.add_channel(2, c, b, ChannelFeatures::empty(), None).unwrap();
    graph.add_channel(3, b, c, ChannelFeatures::empty(), None).unwrap();
    assert_eq!(graph.get_node(&b).unwrap().lowest_inbound_channel_fees, None);
    graph.update_channel(&update(1, 1, 0, 100, 7)).unwrap();
    assert_eq!(graph.get_node(&b).unwrap().lowest_inbound_channel_fees, Some(fees(100, 7)));
    graph.update_channel(&update(2, 1, 0, 500, 3)).unwrap();
    // The lowest of each part, not the cheapest channel.
    assert_eq!(graph.get_node(&b).unwrap().lowest_inbound_channel_fees, Some(fees(100, 3)));
    // The direction out of b pays into c.
    graph.update_channel(&update(3, 1, 0, 1, 1)).unwrap();
    assert_eq!(graph.get_node(&b).unwrap().lowest_inbound_channel_fees, Some(fees(100, 3)));
    assert_eq!(graph.get_node(&c).unwrap().lowest_inbound_channel_fees, Some(fees(1, 1)));
    // The direction into b over channel 3.
    graph.update_channel(&update(3, 1, 1, 900, 900)).unwrap();
    assert_eq!(graph.get_node(&b).unwrap().lowest_inbound_channel_fees, Some(fees(100, 3)));
    // Disabling an enabled direction works the fees out anew.
    graph.update_channel(&update(1, 2, 2, 0, 0)).unwrap();
    assert_eq!(graph.get_node(&b).unwrap().lowest_inbound_channel_fees, Some(fees(500, 3)));
    graph.update_channel(&update(2, 2, 2, 0, 0)).unwrap();
    assert_eq!(graph.get_node(&b).unwrap().lowest_inbound_channel_fees, Some(fees(900, 900)));
    graph.update_channel(&update(3, 2, 3, 0, 0)).unwrap();
    assert_eq!(graph.get_node(&b).unwrap().lowest_inbound_channel_fees, None);
    // Disabling a disabled direction changes nothing.
    graph.update_channel(&update(3, 3, 3, 0, 0)).unwrap();
    assert_eq!(graph.get_node(&b).unwrap().lowest_inbound_channel_fees, None);
    assert_eq!(graph.get_node(&c).unwrap().lowest_inbound_channel_fees, Some(fees(1, 1)));
}

#[test]
fn fees_are_base_and_millionths() {
    assert_eq!(compute_fees(0, fees(0, 0)), 0);
    assert_eq!(compute_fees(100, fees(1000, 0)), 1000);
    assert_eq!(compute_fees(100, fees(0, 1_000_000)), 100);
    assert_eq!(compute_fees(100, fees(0, 2_000_000)), 200);
    assert_eq!(compute_fees(1_999_999, fees(7, 1)), 8);
    assert_eq!(compute_fees(999_999, fees(7, 1)), 7);
    assert_eq!(compute_fees(250_000, fees(150_000, 500)), 150_125);
    // Where the product or the sum does not fit, the largest value.
    assert_eq!(compute_fees(u64::max_value(), fees(0, 2)), u64::max_value());
    assert_eq!(compute_fees(u64::max_value(), fees(0, 1)), u64::max_value() / 1_000_000);
    assert_eq!(compute_fees(u64::max_value(), fees(u32::max_value(), u32::max_value())), u64::max_value());
    assert_eq!(compute_fees(1 << 32, fees(5, u32::max_value())), 5 + ((1u64 << 32) * (u32::max_value() as u64)) / 1_000_000);
}

fn hop(node: u8, scid: u64, channel_fees: RoutingFees) -> PaymentHop {
    PaymentHop {
        route_hop: RouteHop {
            pubkey: node_key(node),
            node_features: NodeFeatures::from_le_bytes(vec![node]),
            short_channel_id: scid,
            channel_features: ChannelFeatures::from_le_bytes(vec![scid as u8]),
            fee_msat: 0,
            cltv_expiry_delta: scid as u32,
        },
        available_liquidity_msat: 1_000_000,
        src_lowest_inbound_fees: fees(0, 0),
        channel_fees,
        following_hops_fees_msat: 11,
        hop_use_fee_msat: 22,
        prev_hop_use_estimate_fee_msat: 33,
    }
}

fn path(value: u64, total_fee: u64, ppm: u32) -> PaymentPath {
    let mut first = hop(2, 1, fees(0, ppm));
    first.following_hops_fees_msat = total_fee;
    let mut last = hop(3, 2, fees(0, 0));
    last.route_hop.fee_msat = value;
    PaymentPath { hops: vec![first, last] }
}

#[test]
fn hop_fees_are_held_at_the_largest_value() {
    let mut hop = hop(2, 1, fees(0, 0));
    assert_eq!(hop.get_fee_weight_msat(), 66);
    hop.route_hop.fee_msat = 9;
    assert_eq!(hop.get_fee_paid_msat(), 20);
    hop.following_hops_fees_msat = u64::max_value();
    assert_eq!(hop.get_fee_weight_msat(), u64::max_value());
    assert_eq!(hop.get_fee_paid_msat(), u64::max_value());
    hop.following_hops_fees_msat = 0;
    hop.prev_hop_use_estimate_fee_msat = u64::max_value();
    assert_eq!(hop.get_fee_weight_msat(), u64::max_value());
    assert_eq!(hop.duplicate().channel_fees, fees(0, 0));
}

#[test]
fn path_fees_follow_the_value() {
    let mut path = PaymentPath { hops: vec![hop(2, 1, fees(5, 0)), hop(3, 2, fees(100, 10_000)), hop(4, 3, fees(1000, 1_000_000))] };
    assert_eq!(path.get_total_fee_paid_msat(), 11);
    path.update_value_and_recompute_fees(50_000);
    assert_eq!(path.get_value_msat(), 50_000);
    // The last channel carries the value: 1000 + 50000.
    assert_eq!(path.hops[2].hop_use_fee_msat, 51_000);
    assert_eq!(path.hops[2].following_hops_fees_msat, 0);
    assert_eq!(path.hops[2].route_hop.fee_msat, 50_000);
    // The channel before carries the value and that fee: 100 + 1% of 101000.
    assert_eq!(path.hops[1].hop_use_fee_msat, 1_110);
    assert_eq!(path.hops[1].following_hops_fees_msat, 51_000);
    assert_eq!(path.hops[1].route_hop.fee_msat, 51_000);
    // The first hop keeps what it was found with and hands on the second's fee.
    assert_eq!(path.hops[0].hop_use_fee_msat, 22);
    assert_eq!(path.hops[0].following_hops_fees_msat, 11);
    assert_eq!(path.hops[0].route_hop.fee_msat, 1_110);
    assert_eq!(path.hops[1].get_fee_paid_msat(), 102_000);
    for (i, hop) in path.hops.iter().enumerate() {
        assert_eq!(hop.route_hop.pubkey, node_key(i as u8 + 2));
        assert_eq!(hop.route_hop.cltv_expiry_delta, i as u32 + 1);
        assert_eq!(hop.available_liquidity_msat, 1_000_000);
    }
    let copy = path.duplicate();
    assert_eq!(copy.hops.len(), 3);
    assert_eq!(copy.get_value_msat(), 50_000);
    let mut single = PaymentPath { hops: vec![hop(2, 1, fees(5, 5))] };
    single.update_value_and_recompute_fees(7);
    assert_eq!(single.get_value_msat(), 7);
    assert_eq!(single.hops[0].hop_use_fee_msat, 22);
    assert_eq!(PaymentPath { hops: Vec::new() }.get_total_fee_paid_msat(), 0);
}

#[test]
fn cheapest_node_is_looked_at_first() {
    let node = |key: u8, fee: u64| RouteGraphNode { pubkey: node_key(key), lowest_fee_to_peer_through_node: fee, lowest_fee_to_node: 0 };
    let mut edges = vec![node(1, 30), node(2, 10), node(3, 20), node(4, 10)];
    let (second, fourth) = (node_key(2), node_key(4));
    let first = pop_cheapest(&mut edges).unwrap();
    assert_eq!(first.lowest_fee_to_peer_through_node, 10);
    // Of two equally cheap nodes the one whose key sorts first.
    let smaller = if second.serialize() < fourth.serialize() { second } else { fourth };
    assert_eq!(first.pubkey, smaller);
    assert_eq!(second.sorts_before(&fourth), second.serialize() < fourth.serialize());
    assert!(!second.sorts_before(&second));
    assert!(second.same(&second) && !second.same(&fourth));
    assert_eq!(edges.len(), 3);
    assert_eq!(pop_cheapest(&mut edges).unwrap().lowest_fee_to_peer_through_node, 10);
    assert_eq!(pop_cheapest(&mut edges).unwrap().pubkey, node_key(3));
    assert_eq!(pop_cheapest(&mut edges).unwrap().pubkey, node_key(1));
    assert!(pop_cheapest(&mut edges).is_none());
}

#[test]
fn channels_are_weighed_against_the_known_way() {
    let payer = node_key(1);
    let (src, dest) = (node_key(2), node_key(3));
    let mut graph = NetworkGraph::new();
    graph.add_channel(7, src, dest, ChannelFeatures::empty(), None).unwrap();
    graph.add_channel(8, node_key(4), src, ChannelFeatures::empty(), None).unwrap();
    graph.update_channel(&update(8, 1, 0, 10, 0)).unwrap();
    let mut state = RoutingState::new(2, payer, 400);
    let info = DirectionalChannelInfo { last_update: 0, enabled: true, cltv_expiry_delta: 40, htlc_minimum_msat: 0, htlc_maximum_msat: Some(1000), fees: fees(5, 0) };
    state.add_vertice(7, &src, &dest, &info, Some(2), ChannelFeatures::from_le_bytes(vec![2]), 3, &graph);
    assert_eq!(state.bookkeeped_channels_liquidity_available_msat.len(), 1);
    assert_eq!(state.bookkeeped_channels_liquidity_available_msat[0].available_msat, 1000);
    assert_eq!(state.targeted_edges.len(), 1);
    // The fees after the channel, its own fee, and the estimate for reaching its source.
    assert_eq!(state.targeted_edges[0].lowest_fee_to_node, 8);
    assert_eq!(state.targeted_edges[0].lowest_fee_to_peer_through_node, 18);
    assert_eq!(state.weighted_vertices.len(), 1);
    let vertex = &state.weighted_vertices[0];
    assert_eq!((vertex.node, vertex.hop.route_hop.pubkey, vertex.hop.route_hop.short_channel_id), (src, dest, 7));
    assert_eq!((vertex.hop.hop_use_fee_msat, vertex.hop.prev_hop_use_estimate_fee_msat, vertex.hop.following_hops_fees_msat), (5, 10, 3));
    assert_eq!(vertex.hop.route_hop.cltv_expiry_delta, 40);
    assert_eq!(vertex.hop.route_hop.channel_features.le_flags(), &vec![2]);
    // A dearer channel changes nothing.
    let dear = DirectionalChannelInfo { fees: fees(6, 0), ..info };
    state.add_vertice(9, &src, &dest, &dear, None, ChannelFeatures::empty(), 3, &graph);
    assert_eq!(state.targeted_edges.len(), 1);
    assert_eq!(state.weighted_vertices[0].hop.route_hop.short_channel_id, 7);
    assert_eq!(state.bookkeeped_channels_liquidity_available_msat[1].available_msat, 1000);
    // A channel that cannot cover the fees after it is passed over, and so is one below its share.
    state.add_vertice(10, &src, &dest, &DirectionalChannelInfo { htlc_maximum_msat: Some(3), fees: fees(0, 0), ..info }, None, ChannelFeatures::empty(), 3, &graph);
    state.add_vertice(11, &src, &dest, &DirectionalChannelInfo { htlc_maximum_msat: Some(19), fees: fees(0, 0), ..info }, None, ChannelFeatures::empty(), 0, &graph);
    state.add_vertice(12, &src, &dest, &DirectionalChannelInfo { htlc_minimum_msat: 401, fees: fees(0, 0), ..info }, None, ChannelFeatures::empty(), 0, &graph);
    assert_eq!(state.targeted_edges.len(), 1);
    assert_eq!(state.bookkeeped_channels_liquidity_available_msat.len(), 5);
    // A cheaper channel takes the vertex; a channel of our own counts the fees after it only.
    state.add_vertice(13, &src, &dest, &DirectionalChannelInfo { htlc_maximum_msat: None, fees: fees(0, 0), ..info }, None, ChannelFeatures::empty(), 0, &graph);
    assert_eq!(state.targeted_edges.len(), 2);
    assert_eq!(state.weighted_vertices[0].hop.route_hop.short_channel_id, 13);
    assert_eq!(state.weighted_vertices[0].hop.available_liquidity_msat, 10_000_000);
    state.add_vertice(14, &payer, &src, &info, None, ChannelFeatures::empty(), 10, &graph);
    assert_eq!(state.targeted_edges[2].lowest_fee_to_peer_through_node, 10);
    assert_eq!(state.targeted_edges[2].lowest_fee_to_node, 15);
    assert_eq!(state.weighted_vertices[1].hop.prev_hop_use_estimate_fee_msat, 0);
}

#[test]
fn paths_are_sorted_and_cut() {
    let mut paths = vec![path(300, 9, 1), path(100, 5, 3), path(200, 5, 2)];
    sort_paths(&mut paths, PathKey::TotalFee);
    assert_eq!(paths.iter().map(|p| p.get_value_msat()).collect::<Vec<_>>(), vec![100, 200, 300]);
    sort_paths(&mut paths, PathKey::ProportionalFees);
    assert_eq!(paths.iter().map(|p| p.get_value_msat()).collect::<Vec<_>>(), vec![300, 200, 100]);
    sort_paths(&mut paths, PathKey::Value);
    assert_eq!(paths.iter().map(|p| p.get_value_msat()).collect::<Vec<_>>(), vec![100, 200, 300]);
    // Small paths go whole as long as they do not take away too much.
    assert_eq!(drop_small_paths(&mut paths, 250), 150);
    assert_eq!(paths.iter().map(|p| p.get_value_msat()).collect::<Vec<_>>(), vec![200, 300]);
    assert_eq!(drop_small_paths(&mut paths, 300), 100);
    assert_eq!(paths.iter().map(|p| p.get_value_msat()).collect::<Vec<_>>(), vec![300]);
    assert_eq!(drop_small_paths(&mut paths, 300), 300);
    assert_eq!(paths.len(), 1);
    // What is left too much comes off the path with the highest proportional fees.
    let mut paths = vec![path(300, 9, 1), path(100, 5, 3), path(200, 5, 2)];
    trim_overpayment(&mut paths, 150);
    assert_eq!(paths.iter().map(|p| p.get_value_msat()).collect::<Vec<_>>(), vec![300, 150]);
    let mut paths = vec![path(300, 9, 1), path(100, 5, 3)];
    trim_overpayment(&mut paths, 100);
    assert_eq!(paths.iter().map(|p| p.get_value_msat()).collect::<Vec<_>>(), vec![300]);
}

#[test]
fn routes_are_drawn_in_a_circle() {
    let paths = vec![path(100, 5, 3), path(200, 5, 2), path(300, 9, 1)];
    let total = |route: &Vec<PaymentPath>| route.iter().map(|p| p.get_value_msat()).sum::<u64>();
    for start in 0..3 {
        for value in [0u64, 1, 100, 250, 599, 600] {
            let route = draw_route(&paths, start, value);
            assert_eq!(total(&route), value);
            assert!(route.iter().all(|p| p.hops.last().unwrap().route_hop.pubkey == node_key(3)));
        }
        let route = draw_route(&paths, start, 601);
        assert_eq!(total(&route), 600);
        assert_eq!(route.len(), 3);
    }
    assert_eq!(draw_route(&paths, 1, 250).iter().map(|p| p.get_value_msat()).collect::<Vec<_>>(), vec![250]);
    assert_eq!(draw_route(&paths, 2, 350).iter().map(|p| p.get_value_msat()).collect::<Vec<_>>(), vec![300, 50]);
    // The cheapest route is chosen, the first drawn among equals.
    let chosen = choose_route(paths, 150);
    assert_eq!(total(&chosen), 150);
    assert_eq!(chosen.len(), 1);
    assert_eq!(chosen[0].get_total_fee_paid_msat(), 5);
    // Of more than fifty paths the cheapest fifty are combined.
    let many: Vec<PaymentPath> = (0..60).map(|i| path(10, 60 - i, 1)).collect();
    let chosen = choose_route(many, 505);
    assert_eq!(chosen.len(), 50);
    assert_eq!(total(&chosen), 500);
    let many: Vec<PaymentPath> = (0..60).map(|i| path(10, 60 - i, 1)).collect();
    assert_eq!(total(&choose_route(many, 495)), 495);
}

fn two_hop_graph() -> (NetworkGraph, PublicKey, PublicKey, PublicKey) {
    let (us, middle, payee) = (node_key(1), node_key(2), node_key(3));
    let mut graph = NetworkGraph::new();
    graph.add_channel(1, us, middle, ChannelFeatures::empty(), None).unwrap();
    graph.add_channel(2, middle, payee, ChannelFeatures::empty(), None).unwrap();
    graph.update_channel(&update(1, 1, 0, 0, 0)).unwrap();
    graph.update_channel(&update(2, 1, 0, 1000, 10_000)).unwrap();
    (graph, us, middle, payee)
}

#[test]
fn route_arguments_are_checked() {
    let (graph, us, middle, payee) = two_hop_graph();
    assert_eq!(get_route(&us, &graph, &us, None, &Vec::new(), 100, 42).unwrap_err(), RouteError::RouteToSelf);
    assert_eq!(get_route(&us, &graph, &us, None, &Vec::new(), MAX_VALUE_MSAT + 1, 42).unwrap_err(), RouteError::RouteToSelf);
    assert_eq!(get_route(&us, &graph, &payee, None, &Vec::new(), MAX_VALUE_MSAT + 1, 42).unwrap_err(), RouteError::ValueTooLarge);
    assert_eq!(get_route(&us, &graph, &payee, Some(&Vec::new()), &Vec::new(), 100, 42).unwrap_err(), RouteError::NoOutboundChannels);
    assert_eq!(get_route(&us, &graph, &node_key(9), None, &Vec::new(), 100, 42).unwrap_err(), RouteError::RouteUnreachable);
    assert_eq!(get_route(&us, &graph, &payee, None, &Vec::new(), 10_000_001, 42).unwrap_err(), RouteError::RouteInsufficient);
    assert_eq!(RouteError::RouteToSelf.message(), "Cannot generate a route to ourselves");
    assert_eq!(RouteError::ValueTooLarge.message(), "Cannot generate a route of more value than all existing satoshis");
    assert_eq!(RouteError::NoOutboundChannels.message(), "Cannot route when there are no outbound routes away from us");
    let route = get_route(&us, &graph, &payee, None, &Vec::new(), 50_000, 42).unwrap();
    assert_eq!(route.paths.len(), 1);
    assert_eq!(route.paths[0].iter().map(|hop| (hop.pubkey, hop.short_channel_id, hop.fee_msat, hop.cltv_expiry_delta)).collect::<Vec<_>>(), vec![(middle, 1, 1500, 40), (payee, 2, 50_000, 42)]);
    let route = get_route(&us, &graph, &payee, None, &Vec::new(), 0, 42).unwrap();
    assert_eq!(route.paths.len(), 1);
    assert_eq!(route.paths[0].last().unwrap().fee_msat, 0);
}

fn our_channel(scid: u64, remote: PublicKey, flags: Vec<u8>) -> ChannelDetails {
    ChannelDetails {
        channel_id: [0; 32],
        short_channel_id: Some(scid),
        remote_network_id: remote,
        counterparty_features: InitFeatures::from_le_bytes(flags),
        channel_value_satoshis: 0,
        user_id: 0,
        outbound_capacity_msat: 0,
        inbound_capacity_msat: 0,
        is_live: true,
    }
}

#[test]
fn channel_to_the_payee_is_the_route() {
    let (graph, us, middle, payee) = two_hop_graph();
    let channels = vec![our_channel(5, middle, vec![0b11]), our_channel(6, payee, vec![0b1111]), our_channel(7, payee, vec![0])];
    let route = get_route(&us, &graph, &payee, Some(&channels.iter().collect::<Vec<_>>()), &Vec::new(), 123, 42).unwrap();
    assert_eq!(route.paths.len(), 1);
    assert_eq!(route.paths[0].len(), 1);
    let hop = &route.paths[0][0];
    assert_eq!((hop.pubkey, hop.short_channel_id, hop.fee_msat, hop.cltv_expiry_delta), (payee, 6, 123, 42));
    assert_eq!(hop.node_features.le_flags(), &vec![0b0011]);
    assert_eq!(hop.channel_features.le_flags(), &Vec::<u8>::new());
    // The last of several channels to one node is used.
    let channels = vec![our_channel(5, middle, vec![0b11]), our_channel(8, middle, vec![0b10])];
    let route = get_route(&us, &graph, &payee, Some(&channels.iter().collect::<Vec<_>>()), &Vec::new(), 123, 42).unwrap();
    assert_eq!(route.paths[0][0].short_channel_id, 8);
    assert_eq!(route.paths[0][0].node_features.le_flags(), &vec![0b10]);
    assert_eq!(route.paths[0][1].short_channel_id, 2);
}

#[test]
fn hints_lead_into_a_payee_the_graph_does_not_know() {
    let (graph, us, middle, _) = two_hop_graph();
    let payee = node_key(9);
    let hint = RouteHint { src_node_id: middle, short_channel_id: 77, fees: fees(1, 0), cltv_expiry_delta: 9, htlc_minimum_msat: 0, htlc_maximum_msat: Some(600) };
    let route = get_route(&us, &graph, &payee, None, &vec![&hint], 500, 42).unwrap();
    assert_eq!(route.paths[0].iter().map(|hop| (hop.pubkey, hop.short_channel_id, hop.fee_msat, hop.cltv_expiry_delta)).collect::<Vec<_>>(), vec![(middle, 1, 1, 9), (payee, 77, 500, 42)]);
    assert_eq!(get_route(&us, &graph, &payee, None, &vec![&hint], 601, 42).unwrap_err(), RouteError::RouteInsufficient);
    let unknown = RouteHint { src_node_id: node_key(8), ..hint };
    assert_eq!(get_route(&us, &graph, &payee, None, &vec![&unknown], 500, 42).unwrap_err(), RouteError::RouteUnreachable);
}

#[test]
fn every_path_of_a_route_ends_at_the_payee() {
    let (us, payee) = (node_key(1), node_key(9));
    let mut graph = NetworkGraph::new();
    for i in 0..5u8 {
        let middle = node_key(20 + i);
        graph.add_channel(2 * i as u64, us, middle, ChannelFeatures::empty(), None).unwrap();
        graph.add_channel(2 * i as u64 + 1, middle, payee, ChannelFeatures::empty(), None).unwrap();
        graph.update_channel(&update(2 * i as u64, 1, 0, 0, 0)).unwrap();
        let mut limited = update(2 * i as u64 + 1, 1, 0, i as u32, 100 * i as u32);
        limited.htlc_maximum_msat = Some(1000 + 500 * i as u64);
        graph.update_channel(&limited).unwrap();
    }
    for value in [1u64, 999, 1000, 1001, 4321, 5000] {
        let route = get_route(&us, &graph, &payee, None, &Vec::new(), value, 17).unwrap();
        let mut delivered = 0;
        for path in &route.paths {
            assert_eq!(path.last().unwrap().pubkey, payee);
            assert_eq!(path.last().unwrap().cltv_expiry_delta, 17);
            delivered += path.last().unwrap().fee_msat;
        }
        assert_eq!(delivered, value);
    }
    // The channels carry 10000 together, but the smallest are too small a share of so much.
    assert_eq!(get_route(&us, &graph, &payee, None, &Vec::new(), 10_000, 17).unwrap_err(), RouteError::RouteInsufficient);
}

fn route_hop(node: u8, scid: u64) -> RouteHop {
    RouteHop {
        pubkey: node_key(node),
        node_features: NodeFeatures::from_le_bytes(vec![1, 2, 3]),
        short_channel_id: scid,
        channel_features: ChannelFeatures::from_le_bytes(vec![9]),
        fee_msat: 0x0102_0304,
        cltv_expiry_delta: 0x0a0b,
    }
}

#[test]
fn routes_are_read_back_as_written() {
    let routes = vec![
        Route { paths: Vec::new() },
        Route { paths: vec![Vec::new()] },
        Route { paths: vec![vec![route_hop(2, 1), route_hop(3, 2)], vec![route_hop(4, u64::max_value())]] },
    ];
    for route in routes {
        let mut bytes = Vec::new();
        route.write(&mut bytes);
        let (read, next) = Route::read(&bytes, 0).unwrap();
        assert_eq!(next, bytes.len());
        assert_eq!(read.paths.len(), route.paths.len());
        for (read_path, path) in read.paths.iter().zip(route.paths.iter()) {
            assert_eq!(read_path.len(), path.len());
            for (read_hop, hop) in read_path.iter().zip(path.iter()) {
                assert_eq!(read_hop.pubkey, hop.pubkey);
                assert_eq!(read_hop.node_features, hop.node_features);
                assert_eq!(read_hop.short_channel_id, hop.short_channel_id);
                assert_eq!(read_hop.channel_features, hop.channel_features);
                assert_eq!(read_hop.fee_msat, hop.fee_msat);
                assert_eq!(read_hop.cltv_expiry_delta, hop.cltv_expiry_delta);
            }
        }
        if !bytes.is_empty() {
            assert_eq!(Route::read(&bytes[..bytes.len() - 1], 0).unwrap_err(), DecodeError::ShortRead);
        }
    }
    let mut bytes = Vec::new();
    Route { paths: vec![vec![route_hop(2, 1)]] }.write(&mut bytes);
    let mut expected = vec![0, 0, 0, 0, 0, 0, 0, 1, 1];
    expected.extend_from_slice(&node_key(2).serialize());
    // Flags stand with their last byte first.
    expected.extend_from_slice(&[0, 3, 3, 2, 1]);
    expected.extend_from_slice(&[0, 0, 0, 0, 0, 0, 0, 1]);
    expected.extend_from_slice(&[0, 1, 9]);
    expected.extend_from_slice(&[0, 0, 0, 0, 1, 2, 3, 4]);
    expected.extend_from_slice(&[0, 0, 0x0a, 0x0b]);
    assert_eq!(bytes, expected);
    bytes[10] = 0;
    assert_eq!(Route::read(&bytes, 0).unwrap_err(), DecodeError::InvalidValue);
    assert_eq!(Route::read(&[255; 8], 0).unwrap_err(), DecodeError::ShortRead);
    // Hops are the same when they reach one node over one channel.
    assert!(route_hop(2, 1) == RouteHop { fee_msat: 5, ..route_hop(2, 1) });
    assert!(route_hop(2, 1) != route_hop(2, 2));
    assert!(route_hop(2, 1) != route_hop(3, 1));
    assert_eq!(route_hop(2, 1).duplicate().fee_msat, 0x0102_0304);
}

#[test]
fn headers_go_out_in_batches() {
    assert_eq!(MAX_HEADERS_PER_MESSAGE, 818);
    let mut queue: Vec<u32> = (0..2000).collect();
    let batch = take_batch(&mut queue, MAX_HEADERS_PER_MESSAGE);
    assert_eq!(batch, (0..818).collect::<Vec<u32>>());
    assert_eq!(queue, (818..2000).collect::<Vec<u32>>());
    assert_eq!(take_batch(&mut queue, MAX_HEADERS_PER_MESSAGE).len(), 818);
    assert_eq!(take_batch(&mut queue, MAX_HEADERS_PER_MESSAGE), (1636..2000).collect::<Vec<u32>>());
    assert!(queue.is_empty());
    assert!(take_batch(&mut queue, MAX_HEADERS_PER_MESSAGE).is_empty());
    let mut queue = vec![1, 2, 3];
    assert!(take_batch(&mut queue, 0).is_empty());
    assert_eq!(queue, vec![1, 2, 3]);
}
