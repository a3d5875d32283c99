use bitcoin::secp256k1::key::{PublicKey as SecpPublicKey, SecretKey};
use bitcoin::secp256k1::Secp256k1;
use lightning::features::{ChannelFeatures, InitFeatures, NodeFeatures};
use lightning::network_graph::{ChannelUpdate, NetworkGraph, RoutingFees};
use lightning::primitives::PublicKey;
use lightning::routing::route::{ChannelDetails, RouteHint};
use lightning::routing::router::get_route;

fn node_key(byte: u8) -> PublicKey {
    let secp_ctx = Secp256k1::new();
    let secret = SecretKey::from_slice(&[byte; 32]).unwrap();
    PublicKey::new(SecpPublicKey::from_secret_key(&secp_ctx, &secret).serialize())
}

// The keys of the eight nodes of the benchmark graph, and our own.
fn get_nodes() -> (PublicKey, Vec<PublicKey>) {
    let pubkeys = (2..10).map(|i| node_key(i)).collect();
    (node_key(1), pubkeys)
}

fn id_to_feature_flags(id: u8) -> Vec<u8> {
    // Set the feature flags to the id'th odd (ie non-required) feature bit so that we can
    // test for it later.
    let idx = (id - 1) * 2 + 1;
    if idx > 8 * 3 {
        vec![1 << (idx - 8 * 3), 0, 0, 0]
    } else if idx > 8 * 2 {
        vec![1 << (idx - 8 * 2), 0, 0]
    } else if idx > 8 * 1 {
        vec![1 << (idx - 8 * 1), 0]
    } else {
        vec![1 << idx]
    }
}

fn add_channel(graph: &mut NetworkGraph, node_1: &PublicKey, node_2: &PublicKey, features: ChannelFeatures, short_channel_id: u64) {
    graph.add_channel(short_channel_id, *node_1, *node_2, features, None).unwrap();
}

fn update_channel(graph: &mut NetworkGraph, update: ChannelUpdate) {
    graph.update_channel(&update).unwrap();
}

fn add_or_update_node(graph: &mut NetworkGraph, node: &PublicKey, features: NodeFeatures, timestamp: u32) {
    graph.update_node(node, features, timestamp).unwrap();
}

fn update(short_channel_id: u64, timestamp: u32, flags: u8, cltv_expiry_delta: u16, htlc_maximum_msat: Option<u64>, fee_base_msat: u32, fee_proportional_millionths: u32) -> ChannelUpdate {
    ChannelUpdate {
        short_channel_id,
        timestamp,
        flags,
        cltv_expiry_delta,
        htlc_minimum_msat: 0,
        htlc_maximum_msat,
        fee_base_msat,
        fee_proportional_millionths,
    }
}

fn build_graph() -> NetworkGraph {
    // Build network from our_id to node7:
    //
    //        -1(1)2-  node0  -1(3)2-
    //       /                       \
    // our_id -1(12)2- node7 -1(13)2--- node2
    //       \                       /
    //        -1(2)2-  node1  -1(4)2-
    //
    //
    // chan1  1-to-2: disabled
    // chan1  2-to-1: enabled, 0 fee
    //
    // chan2  1-to-2: enabled, ignored fee
    // chan2  2-to-1: enabled, 0 fee
    //
    // chan3  1-to-2: enabled, 0 fee
    // chan3  2-to-1: enabled, 100 msat fee
    //
    // chan4  1-to-2: enabled, 100% fee
    // chan4  2-to-1: enabled, 0 fee
    //
    // chan12 1-to-2: enabled, ignored fee
    // chan12 2-to-1: enabled, 0 fee
    //
    // chan13 1-to-2: enabled, 200% fee
    // chan13 2-to-1: enabled, 0 fee
    //
    //
    //       -1(5)2- node3 -1(8)2--
    //       |         2          |
    //       |       (11)         |
    //      /          1           \
    // node2--1(6)2- node4 -1(9)2--- node6 (not in global route map)
    //      \                      /
    //       -1(7)2- node5 -1(10)2-
    //
    // chan5  1-to-2: enabled, 100 msat fee
    // chan5  2-to-1: enabled, 0 fee
    //
    // chan6  1-to-2: enabled, 0 fee
    // chan6  2-to-1: enabled, 0 fee
    //
    // chan7  1-to-2: enabled, 100% fee
    // chan7  2-to-1: enabled, 0 fee
    //
    // chan8  1-to-2: enabled, variable fee (0 then 1000 msat)
    // chan8  2-to-1: enabled, 0 fee
    //
    // chan9  1-to-2: enabled, 1001 msat fee
    // chan9  2-to-1: enabled, 0 fee
    //
    // chan10 1-to-2: enabled, 0 fee
    // chan10 2-to-1: enabled, 0 fee
    //
    // chan11 1-to-2: enabled, 0 fee
    // chan11 2-to-1: enabled, 0 fee
    let mut graph = NetworkGraph::new();
    let (our_id, nodes) = get_nodes();

    add_channel(&mut graph, &our_id, &nodes[0], ChannelFeatures::from_le_bytes(id_to_feature_flags(1)), 1);
    update_channel(&mut graph, update(1, 1, 1, 0, None, 0, 0));
    add_or_update_node(&mut graph, &nodes[0], NodeFeatures::from_le_bytes(id_to_feature_flags(1)), 0);

    add_channel(&mut graph, &our_id, &nodes[1], ChannelFeatures::from_le_bytes(id_to_feature_flags(2)), 2);
    update_channel(&mut graph, update(2, 1, 0, u16::max_value(), None, u32::max_value(), u32::max_value()));
    update_channel(&mut graph, update(2, 1, 1, 0, None, 0, 0));
    add_or_update_node(&mut graph, &nodes[1], NodeFeatures::from_le_bytes(id_to_feature_flags(2)), 0);

    add_channel(&mut graph, &our_id, &nodes[7], ChannelFeatures::from_le_bytes(id_to_feature_flags(12)), 12);
    update_channel(&mut graph, update(12, 1, 0, u16::max_value(), None, u32::max_value(), u32::max_value()));
    update_channel(&mut graph, update(12, 1, 1, 0, None, 0, 0));
    add_or_update_node(&mut graph, &nodes[7], NodeFeatures::from_le_bytes(id_to_feature_flags(8)), 0);

    add_channel(&mut graph, &nodes[0], &nodes[2], ChannelFeatures::from_le_bytes(id_to_feature_flags(3)), 3);
    update_channel(&mut graph, update(3, 1, 0, (3 << 8) | 1, None, 0, 0));
    update_channel(&mut graph, update(3, 1, 1, (3 << 8) | 2, None, 100, 0));

    add_channel(&mut graph, &nodes[1], &nodes[2], ChannelFeatures::from_le_bytes(id_to_feature_flags(4)), 4);
    update_channel(&mut graph, update(4, 1, 0, (4 << 8) | 1, None, 0, 1000000));
    update_channel(&mut graph, update(4, 1, 1, (4 << 8) | 2, None, 0, 0));

    add_channel(&mut graph, &nodes[7], &nodes[2], ChannelFeatures::from_le_bytes(id_to_feature_flags(13)), 13);
    update_channel(&mut graph, update(13, 1, 0, (13 << 8) | 1, None, 0, 2000000));
    update_channel(&mut graph, update(13, 1, 1, (13 << 8) | 2, None, 0, 0));

    add_or_update_node(&mut graph, &nodes[2], NodeFeatures::from_le_bytes(id_to_feature_flags(3)), 0);

    add_channel(&mut graph, &nodes[2], &nodes[4], ChannelFeatures::from_le_bytes(id_to_feature_flags(6)), 6);
    update_channel(&mut graph, update(6, 1, 0, (6 << 8) | 1, None, 0, 0));
    update_channel(&mut graph, update(6, 1, 1, (6 << 8) | 2, None, 0, 0));

    add_channel(&mut graph, &nodes[4], &nodes[3], ChannelFeatures::from_le_bytes(id_to_feature_flags(11)), 11);
    update_channel(&mut graph, update(11, 1, 0, (11 << 8) | 1, None, 0, 0));
    update_channel(&mut graph, update(11, 1, 1, (11 << 8) | 2, None, 0, 0));

    add_or_update_node(&mut graph, &nodes[4], NodeFeatures::from_le_bytes(id_to_feature_flags(5)), 0);

    add_or_update_node(&mut graph, &nodes[3], NodeFeatures::from_le_bytes(id_to_feature_flags(4)), 0);

    add_channel(&mut graph, &nodes[2], &nodes[5], ChannelFeatures::from_le_bytes(id_to_feature_flags(7)), 7);
    update_channel(&mut graph, update(7, 1, 0, (7 << 8) | 1, None, 0, 1000000));
    update_channel(&mut graph, update(7, 1, 1, (7 << 8) | 2, None, 0, 0));

    add_or_update_node(&mut graph, &nodes[5], NodeFeatures::from_le_bytes(id_to_feature_flags(6)), 0);

    graph
}

fn channel_to(node: &PublicKey) -> Vec<ChannelDetails> {
    vec![ChannelDetails {
        channel_id: [0; 32],
        short_channel_id: Some(42),
        remote_network_id: node.clone(),
        counterparty_features: InitFeatures::from_le_bytes(vec![0b11]),
        channel_value_satoshis: 0,
        user_id: 0,
        outbound_capacity_msat: 0,
        inbound_capacity_msat: 0,
        is_live: true,
    }]
}

// A node announcement that asks for a feature nobody knows.
fn unknown_features() -> NodeFeatures {
    let mut flags = vec![0b0010_0010, 0b1000_0010, 0b0000_0010];
    flags[2] |= 1 << 6;
    NodeFeatures::from_le_bytes(flags)
}

#[test]
fn simple_route_test() {
    let graph = build_graph();
    let (our_id, nodes) = get_nodes();

    // Simple route to 3 via 2
    let route = get_route(&our_id, &graph, &nodes[2], None, &Vec::new(), 100, 42).unwrap();
    assert_eq!(route.paths[0].len(), 2);

    assert_eq!(route.paths[0][0].pubkey, nodes[1]);
    assert_eq!(route.paths[0][0].short_channel_id, 2);
    assert_eq!(route.paths[0][0].fee_msat, 100);
    assert_eq!(route.paths[0][0].cltv_expiry_delta, (4 << 8) | 1);
    assert_eq!(route.paths[0][0].node_features.le_flags(), &id_to_feature_flags(2));
    assert_eq!(route.paths[0][0].channel_features.le_flags(), &id_to_feature_flags(2));

    assert_eq!(route.paths[0][1].pubkey, nodes[2]);
    assert_eq!(route.paths[0][1].short_channel_id, 4);
    assert_eq!(route.paths[0][1].fee_msat, 100);
    assert_eq!(route.paths[0][1].cltv_expiry_delta, 42);
    assert_eq!(route.paths[0][1].node_features.le_flags(), &id_to_feature_flags(3));
    assert_eq!(route.paths[0][1].channel_features.le_flags(), &id_to_feature_flags(4));
}

#[test]
fn disable_channels_test() {
    let mut graph = build_graph();
    let (our_id, nodes) = get_nodes();

    // // Disable channels 4 and 12 by flags=2
    update_channel(&mut graph, update(4, 2, 2, 0, None, 0, 0));
    update_channel(&mut graph, update(12, 2, 2, 0, None, 0, 0));

    // If all the channels require some features we don't understand, route should fail
    if let Err(err) = get_route(&our_id, &graph, &nodes[2], None, &Vec::new(), 100, 42) {
        assert_eq!(err.message(), "Failed to find a path to the given destination");
    } else {
        panic!();
    }

    // If we specify a channel to node7, that overrides our local channel view and that gets used
    let our_chans = channel_to(&nodes[7]);
    let route = get_route(&our_id, &graph, &nodes[2], Some(&our_chans.iter().collect::<Vec<_>>()), &Vec::new(), 100, 42).unwrap();
    assert_eq!(route.paths[0].len(), 2);

    assert_eq!(route.paths[0][0].pubkey, nodes[7]);
    assert_eq!(route.paths[0][0].short_channel_id, 42);
    assert_eq!(route.paths[0][0].fee_msat, 200);
    assert_eq!(route.paths[0][0].cltv_expiry_delta, (13 << 8) | 1);
    assert_eq!(route.paths[0][0].node_features.le_flags(), &vec![0b11]); // it should also override our view of their features
    assert_eq!(route.paths[0][0].channel_features.le_flags(), &Vec::<u8>::new()); // No feature flags will meet the relevant-to-channel conversion

    assert_eq!(route.paths[0][1].pubkey, nodes[2]);
    assert_eq!(route.paths[0][1].short_channel_id, 13);
    assert_eq!(route.paths[0][1].fee_msat, 100);
    assert_eq!(route.paths[0][1].cltv_expiry_delta, 42);
    assert_eq!(route.paths[0][1].node_features.le_flags(), &id_to_feature_flags(3));
    assert_eq!(route.paths[0][1].channel_features.le_flags(), &id_to_feature_flags(13));
}

#[test]
fn disable_node_test() {
    let mut graph = build_graph();
    let (our_id, nodes) = get_nodes();

    // Disable nodes 1, 2, and 8 by requiring unknown feature bits
    add_or_update_node(&mut graph, &nodes[0], unknown_features(), 1);
    add_or_update_node(&mut graph, &nodes[1], unknown_features(), 1);
    add_or_update_node(&mut graph, &nodes[7], unknown_features(), 1);

    // If all nodes require some features we don't understand, route should fail
    if let Err(err) = get_route(&our_id, &graph, &nodes[2], None, &Vec::new(), 100, 42) {
        assert_eq!(err.message(), "Failed to find a path to the given destination");
    } else {
        panic!();
    }

    // If we specify a channel to node7, that overrides our local channel view and that gets used
    let our_chans = channel_to(&nodes[7]);
    let route = get_route(&our_id, &graph, &nodes[2], Some(&our_chans.iter().collect::<Vec<_>>()), &Vec::new(), 100, 42).unwrap();
    assert_eq!(route.paths[0].len(), 2);

    assert_eq!(route.paths[0][0].pubkey, nodes[7]);
    assert_eq!(route.paths[0][0].short_channel_id, 42);
    assert_eq!(route.paths[0][0].fee_msat, 200);
    assert_eq!(route.paths[0][0].cltv_expiry_delta, (13 << 8) | 1);
    assert_eq!(route.paths[0][0].node_features.le_flags(), &vec![0b11]); // it should also override our view of their features
    assert_eq!(route.paths[0][0].channel_features.le_flags(), &Vec::<u8>::new()); // No feature flags will meet the relevant-to-channel conversion

    assert_eq!(route.paths[0][1].pubkey, nodes[2]);
    assert_eq!(route.paths[0][1].short_channel_id, 13);
    assert_eq!(route.paths[0][1].fee_msat, 100);
    assert_eq!(route.paths[0][1].cltv_expiry_delta, 42);
    assert_eq!(route.paths[0][1].node_features.le_flags(), &id_to_feature_flags(3));
    assert_eq!(route.paths[0][1].channel_features.le_flags(), &id_to_feature_flags(13));

    // Note that we don't test disabling node 3 and failing to route to it, as we (somewhat
    // naively) assume that the user checked the feature bits on the invoice, which override
    // the node_announcement.
}

#[test]
fn our_chans_test() {
    let graph = build_graph();
    let (our_id, nodes) = get_nodes();

    // Route to 1 via 2 and 3 because our channel to 1 is disabled
    let route = get_route(&our_id, &graph, &nodes[0], None, &Vec::new(), 100, 42).unwrap();
    assert_eq!(route.paths[0].len(), 3);

    assert_eq!(route.paths[0][0].pubkey, nodes[1]);
    assert_eq!(route.paths[0][0].short_channel_id, 2);
    assert_eq!(route.paths[0][0].fee_msat, 200);
    assert_eq!(route.paths[0][0].cltv_expiry_delta, (4 << 8) | 1);
    assert_eq!(route.paths[0][0].node_features.le_flags(), &id_to_feature_flags(2));
    assert_eq!(route.paths[0][0].channel_features.le_flags(), &id_to_feature_flags(2));

    assert_eq!(route.paths[0][1].pubkey, nodes[2]);
    assert_eq!(route.paths[0][1].short_channel_id, 4);
    assert_eq!(route.paths[0][1].fee_msat, 100);
    assert_eq!(route.paths[0][1].cltv_expiry_delta, (3 << 8) | 2);
    assert_eq!(route.paths[0][1].node_features.le_flags(), &id_to_feature_flags(3));
    assert_eq!(route.paths[0][1].channel_features.le_flags(), &id_to_feature_flags(4));

    assert_eq!(route.paths[0][2].pubkey, nodes[0]);
    assert_eq!(route.paths[0][2].short_channel_id, 3);
    assert_eq!(route.paths[0][2].fee_msat, 100);
    assert_eq!(route.paths[0][2].cltv_expiry_delta, 42);
    assert_eq!(route.paths[0][2].node_features.le_flags(), &id_to_feature_flags(1));
    assert_eq!(route.paths[0][2].channel_features.le_flags(), &id_to_feature_flags(3));

    // If we specify a channel to node7, that overrides our local channel view and that gets used
    let our_chans = channel_to(&nodes[7]);
    let route = get_route(&our_id, &graph, &nodes[2], Some(&our_chans.iter().collect::<Vec<_>>()), &Vec::new(), 100, 42).unwrap();
    assert_eq!(route.paths[0].len(), 2);

    assert_eq!(route.paths[0][0].pubkey, nodes[7]);
    assert_eq!(route.paths[0][0].short_channel_id, 42);
    assert_eq!(route.paths[0][0].fee_msat, 200);
    assert_eq!(route.paths[0][0].cltv_expiry_delta, (13 << 8) | 1);
    assert_eq!(route.paths[0][0].node_features.le_flags(), &vec![0b11]);
    assert_eq!(route.paths[0][0].channel_features.le_flags(), &Vec::<u8>::new()); // No feature flags will meet the relevant-to-channel conversion

    assert_eq!(route.paths[0][1].pubkey, nodes[2]);
    assert_eq!(route.paths[0][1].short_channel_id, 13);
    assert_eq!(route.paths[0][1].fee_msat, 100);
    assert_eq!(route.paths[0][1].cltv_expiry_delta, 42);
    assert_eq!(route.paths[0][1].node_features.le_flags(), &id_to_feature_flags(3));
    assert_eq!(route.paths[0][1].channel_features.le_flags(), &id_to_feature_flags(13));
}

fn last_hops(nodes: &Vec<PublicKey>) -> Vec<RouteHint> {
    let zero_fees = RoutingFees { base_msat: 0, proportional_millionths: 0 };
    vec![
        RouteHint {
            src_node_id: nodes[3].clone(),
            short_channel_id: 8,
            fees: zero_fees,
            cltv_expiry_delta: (8 << 8) | 1,
            htlc_minimum_msat: 0,
            htlc_maximum_msat: None,
        },
        RouteHint {
            src_node_id: nodes[4].clone(),
            short_channel_id: 9,
            fees: RoutingFees { base_msat: 1001, proportional_millionths: 0 },
            cltv_expiry_delta: (9 << 8) | 1,
            htlc_minimum_msat: 0,
            htlc_maximum_msat: None,
        },
        RouteHint {
            src_node_id: nodes[5].clone(),
            short_channel_id: 10,
            fees: zero_fees,
            cltv_expiry_delta: (10 << 8) | 1,
            htlc_minimum_msat: 0,
            htlc_maximum_msat: None,
        },
    ]
}

#[test]
fn last_hops_test() {
    let graph = build_graph();
    let (our_id, nodes) = get_nodes();

    // Simple test across 2, 3, 5, and 4 via a last_hop channel
    let route = get_route(&our_id, &graph, &nodes[6], None, &last_hops(&nodes).iter().collect::<Vec<_>>(), 100, 42).unwrap();
    assert_eq!(route.paths[0].len(), 5);

    assert_eq!(route.paths[0][0].pubkey, nodes[1]);
    assert_eq!(route.paths[0][0].short_channel_id, 2);
    assert_eq!(route.paths[0][0].fee_msat, 100);
    assert_eq!(route.paths[0][0].cltv_expiry_delta, (4 << 8) | 1);
    assert_eq!(route.paths[0][0].node_features.le_flags(), &id_to_feature_flags(2));
    assert_eq!(route.paths[0][0].channel_features.le_flags(), &id_to_feature_flags(2));

    assert_eq!(route.paths[0][1].pubkey, nodes[2]);
    assert_eq!(route.paths[0][1].short_channel_id, 4);
    assert_eq!(route.paths[0][1].fee_msat, 0);
    assert_eq!(route.paths[0][1].cltv_expiry_delta, (6 << 8) | 1);
    assert_eq!(route.paths[0][1].node_features.le_flags(), &id_to_feature_flags(3));
    assert_eq!(route.paths[0][1].channel_features.le_flags(), &id_to_feature_flags(4));

    assert_eq!(route.paths[0][2].pubkey, nodes[4]);
    assert_eq!(route.paths[0][2].short_channel_id, 6);
    assert_eq!(route.paths[0][2].fee_msat, 0);
    assert_eq!(route.paths[0][2].cltv_expiry_delta, (11 << 8) | 1);
    assert_eq!(route.paths[0][2].node_features.le_flags(), &id_to_feature_flags(5));
    assert_eq!(route.paths[0][2].channel_features.le_flags(), &id_to_feature_flags(6));

    assert_eq!(route.paths[0][3].pubkey, nodes[3]);
    assert_eq!(route.paths[0][3].short_channel_id, 11);
    assert_eq!(route.paths[0][3].fee_msat, 0);
    assert_eq!(route.paths[0][3].cltv_expiry_delta, (8 << 8) | 1);
    // If we have a peer in the node map, we'll use their features here since we don't have
    // a way of figuring out their features from the invoice:
    assert_eq!(route.paths[0][3].node_features.le_flags(), &id_to_feature_flags(4));
    assert_eq!(route.paths[0][3].channel_features.le_flags(), &id_to_feature_flags(11));

    assert_eq!(route.paths[0][4].pubkey, nodes[6]);
    assert_eq!(route.paths[0][4].short_channel_id, 8);
    assert_eq!(route.paths[0][4].fee_msat, 100);
    assert_eq!(route.paths[0][4].cltv_expiry_delta, 42);
    assert_eq!(route.paths[0][4].node_features.le_flags(), &Vec::<u8>::new()); // We dont pass flags in from invoices yet
    assert_eq!(route.paths[0][4].channel_features.le_flags(), &Vec::<u8>::new()); // We can't learn any flags from invoices, sadly
}

#[test]
fn our_chans_last_hop_connect_test() {
    let graph = build_graph();
    let (our_id, nodes) = get_nodes();

    // Simple test with outbound channel to 4 to test that last_hops and first_hops connect
    let our_chans = channel_to(&nodes[3]);
    let mut last_hops = last_hops(&nodes);
    let route = get_route(&our_id, &graph, &nodes[6], Some(&our_chans.iter().collect::<Vec<_>>()), &last_hops.iter().collect::<Vec<_>>(), 100, 42).unwrap();
    assert_eq!(route.paths[0].len(), 2);

    assert_eq!(route.paths[0][0].pubkey, nodes[3]);
    assert_eq!(route.paths[0][0].short_channel_id, 42);
    assert_eq!(route.paths[0][0].fee_msat, 0);
    assert_eq!(route.paths[0][0].cltv_expiry_delta, (8 << 8) | 1);
    assert_eq!(route.paths[0][0].node_features.le_flags(), &vec![0b11]);
    assert_eq!(route.paths[0][0].channel_features.le_flags(), &Vec::<u8>::new()); // No feature flags will meet the relevant-to-channel conversion

    assert_eq!(route.paths[0][1].pubkey, nodes[6]);
    assert_eq!(route.paths[0][1].short_channel_id, 8);
    assert_eq!(route.paths[0][1].fee_msat, 100);
    assert_eq!(route.paths[0][1].cltv_expiry_delta, 42);
    assert_eq!(route.paths[0][1].node_features.le_flags(), &Vec::<u8>::new()); // We dont pass flags in from invoices yet
    assert_eq!(route.paths[0][1].channel_features.le_flags(), &Vec::<u8>::new()); // We can't learn any flags from invoices, sadly

    last_hops[0].fees.base_msat = 1000;

    // Revert to via 6 as the fee on 8 goes up
    let route = get_route(&our_id, &graph, &nodes[6], None, &last_hops.iter().collect::<Vec<_>>(), 100, 42).unwrap();
    assert_eq!(route.paths[0].len(), 4);

    assert_eq!(route.paths[0][0].pubkey, nodes[1]);
    assert_eq!(route.paths[0][0].short_channel_id, 2);
    assert_eq!(route.paths[0][0].fee_msat, 200); // fee increased as its % of value transferred across node
    assert_eq!(route.paths[0][0].cltv_expiry_delta, (4 << 8) | 1);
    assert_eq!(route.paths[0][0].node_features.le_flags(), &id_to_feature_flags(2));
    assert_eq!(route.paths[0][0].channel_features.le_flags(), &id_to_feature_flags(2));

    assert_eq!(route.paths[0][1].pubkey, nodes[2]);
    assert_eq!(route.paths[0][1].short_channel_id, 4);
    assert_eq!(route.paths[0][1].fee_msat, 100);
    assert_eq!(route.paths[0][1].cltv_expiry_delta, (7 << 8) | 1);
    assert_eq!(route.paths[0][1].node_features.le_flags(), &id_to_feature_flags(3));
    assert_eq!(route.paths[0][1].channel_features.le_flags(), &id_to_feature_flags(4));

    assert_eq!(route.paths[0][2].pubkey, nodes[5]);
    assert_eq!(route.paths[0][2].short_channel_id, 7);
    assert_eq!(route.paths[0][2].fee_msat, 0);
    assert_eq!(route.paths[0][2].cltv_expiry_delta, (10 << 8) | 1);
    // If we have a peer in the node map, we'll use their features here since we don't have
    // a way of figuring out their features from the invoice:
    assert_eq!(route.paths[0][2].node_features.le_flags(), &id_to_feature_flags(6));
    assert_eq!(route.paths[0][2].channel_features.le_flags(), &id_to_feature_flags(7));

    assert_eq!(route.paths[0][3].pubkey, nodes[6]);
    assert_eq!(route.paths[0][3].short_channel_id, 10);
    assert_eq!(route.paths[0][3].fee_msat, 100);
    assert_eq!(route.paths[0][3].cltv_expiry_delta, 42);
    assert_eq!(route.paths[0][3].node_features.le_flags(), &Vec::<u8>::new()); // We dont pass flags in from invoices yet
    assert_eq!(route.paths[0][3].channel_features.le_flags(), &Vec::<u8>::new()); // We can't learn any flags from invoices, sadly

    // ...but still use 8 for larger payments as 6 has a variable feerate
    let route = get_route(&our_id, &graph, &nodes[6], None, &last_hops.iter().collect::<Vec<_>>(), 2000, 42).unwrap();
    assert_eq!(route.paths[0].len(), 5);

    assert_eq!(route.paths[0][0].pubkey, nodes[1]);
    assert_eq!(route.paths[0][0].short_channel_id, 2);
    assert_eq!(route.paths[0][0].fee_msat, 3000);
    assert_eq!(route.paths[0][0].cltv_expiry_delta, (4 << 8) | 1);
    assert_eq!(route.paths[0][0].node_features.le_flags(), &id_to_feature_flags(2));
    assert_eq!(route.paths[0][0].channel_features.le_flags(), &id_to_feature_flags(2));

    assert_eq!(route.paths[0][1].pubkey, nodes[2]);
    assert_eq!(route.paths[0][1].short_channel_id, 4);
    assert_eq!(route.paths[0][1].fee_msat, 0);
    assert_eq!(route.paths[0][1].cltv_expiry_delta, (6 << 8) | 1);
    assert_eq!(route.paths[0][1].node_features.le_flags(), &id_to_feature_flags(3));
    assert_eq!(route.paths[0][1].channel_features.le_flags(), &id_to_feature_flags(4));

    assert_eq!(route.paths[0][2].pubkey, nodes[4]);
    assert_eq!(route.paths[0][2].short_channel_id, 6);
    assert_eq!(route.paths[0][2].fee_msat, 0);
    assert_eq!(route.paths[0][2].cltv_expiry_delta, (11 << 8) | 1);
    assert_eq!(route.paths[0][2].node_features.le_flags(), &id_to_feature_flags(5));
    assert_eq!(route.paths[0][2].channel_features.le_flags(), &id_to_feature_flags(6));

    assert_eq!(route.paths[0][3].pubkey, nodes[3]);
    assert_eq!(route.paths[0][3].short_channel_id, 11);
    assert_eq!(route.paths[0][3].fee_msat, 1000);
    assert_eq!(route.paths[0][3].cltv_expiry_delta, (8 << 8) | 1);
    // If we have a peer in the node map, we'll use their features here since we don't have
    // a way of figuring out their features from the invoice:
    assert_eq!(route.paths[0][3].node_features.le_flags(), &id_to_feature_flags(4));
    assert_eq!(route.paths[0][3].channel_features.le_flags(), &id_to_feature_flags(11));

    assert_eq!(route.paths[0][4].pubkey, nodes[6]);
    assert_eq!(route.paths[0][4].short_channel_id, 8);
    assert_eq!(route.paths[0][4].fee_msat, 2000);
    assert_eq!(route.paths[0][4].cltv_expiry_delta, 42);
    assert_eq!(route.paths[0][4].node_features.le_flags(), &Vec::<u8>::new()); // We dont pass flags in from invoices yet
    assert_eq!(route.paths[0][4].channel_features.le_flags(), &Vec::<u8>::new()); // We can't learn any flags from invoices, sadly
}

fn expect_insufficient(graph: &NetworkGraph, our_id: &PublicKey, payee: &PublicKey, value_msat: u64) {
    if let Err(err) = get_route(our_id, graph, payee, None, &Vec::new(), value_msat, 42) {
        assert_eq!(err.message(), "Failed to find a sufficient route to the given destination");
    } else {
        panic!();
    }
}

#[test]
fn available_amount_while_routing_test() {
    // Tests whether we choose the correct available channel amount while routing.

    let mut graph = build_graph();
    let (our_id, nodes) = get_nodes();

    // We will use a simple single-path route from our node to node2 via node0: channels {1, 3}.

    // First disable all other paths.
    update_channel(&mut graph, update(2, 2, 2, 0, Some(100_000), 0, 0));
    update_channel(&mut graph, update(12, 2, 2, 0, Some(100_000), 0, 0));

    // Make the first channel (#1) is very permissive, and we will be testing all limits on the second channel.
    update_channel(&mut graph, update(1, 2, 0, 0, Some(100_000_000), 0, 0));

    // First, let's see if routing works if we have absolutely no idea about the available amount.
    // In this case, it should be set to 10_000 sats.
    update_channel(&mut graph, update(3, 2, 0, 0, None, 0, 0));

    {
        // Attempt to route more than is available results in a failure.
        expect_insufficient(&graph, &our_id, &nodes[2], 10_000_001);
    }

    {
        // Now, attempt to route an exact amount we have should be fine.
        let route = get_route(&our_id, &graph, &nodes[2], None, &Vec::new(), 10_000_000, 42).unwrap();
        assert_eq!(route.paths.len(), 1);
        let path = route.paths.last().unwrap();
        assert_eq!(path.len(), 2);
        assert_eq!(path.last().unwrap().pubkey, nodes[2]);
        assert_eq!(path.last().unwrap().fee_msat, 10_000_000);
    }

    // Now let's see if routing works if we know only htlc_maximum_msat.
    update_channel(&mut graph, update(3, 3, 0, 0, Some(15_000), 0, 0));

    {
        // Attempt to route more than is available results in a failure.
        expect_insufficient(&graph, &our_id, &nodes[2], 15_001);
    }

    {
        // Now, attempt to route an exact amount we have should be fine.
        let route = get_route(&our_id, &graph, &nodes[2], None, &Vec::new(), 15_000, 42).unwrap();
        assert_eq!(route.paths.len(), 1);
        let path = route.paths.last().unwrap();
        assert_eq!(path.len(), 2);
        assert_eq!(path.last().unwrap().pubkey, nodes[2]);
        assert_eq!(path.last().unwrap().fee_msat, 15_000);
    }

    // Now let's see if routing works if we know only capacity from the UTXO.

    // We can't change UTXO capacity on the fly, so we'll disable the existing channel and add another one with
    // the capacity we need.
    update_channel(&mut graph, update(3, 4, 2, 0, None, 0, 0));

    graph.add_channel(333, nodes[0], nodes[2], ChannelFeatures::from_le_bytes(id_to_feature_flags(3)), Some(15)).unwrap();
    update_channel(&mut graph, update(333, 1, 0, (3 << 8) | 1, None, 0, 0));
    update_channel(&mut graph, update(333, 1, 1, (3 << 8) | 2, None, 100, 0));

    {
        // Attempt to route more than is available results in a failure.
        expect_insufficient(&graph, &our_id, &nodes[2], 15_001);
    }

    {
        // Now, attempt to route an exact amount we have should be fine.
        let route = get_route(&our_id, &graph, &nodes[2], None, &Vec::new(), 15_000, 42).unwrap();
        assert_eq!(route.paths.len(), 1);
        let path = route.paths.last().unwrap();
        assert_eq!(path.len(), 2);
        assert_eq!(path.last().unwrap().pubkey, nodes[2]);
        assert_eq!(path.last().unwrap().fee_msat, 15_000);
    }

    // Now let's see if routing chooses htlc_maximum_msat over UTXO capacity.
    update_channel(&mut graph, update(333, 6, 0, 0, Some(10_000), 0, 0));

    {
        // Attempt to route more than is available results in a failure.
        expect_insufficient(&graph, &our_id, &nodes[2], 10_001);
    }

    {
        // Now, attempt to route an exact amount we have should be fine.
        let route = get_route(&our_id, &graph, &nodes[2], None, &Vec::new(), 10_000, 42).unwrap();
        assert_eq!(route.paths.len(), 1);
        let path = route.paths.last().unwrap();
        assert_eq!(path.len(), 2);
        assert_eq!(path.last().unwrap().pubkey, nodes[2]);
        assert_eq!(path.last().unwrap().fee_msat, 10_000);
    }
}

#[test]
fn simple_mpp_route_test() {
    let mut graph = build_graph();
    let (our_id, nodes) = get_nodes();

    // We need a route consisting of 3 paths:
    // From our node to node2 via node0, node7, node1 (three paths one hop each).
    // To achieve this, the amount being transferred should be around
    // the total capacity of these 3 paths.

    // First, we set limits on these (previously unlimited) channels.
    // Their aggregate capacity will be 50 + 60 + 180 = 290 sats.

    // Path via node0 is channels {1, 3}. Limit them to 100 and 50 sats (total limit 50);
    update_channel(&mut graph, update(1, 2, 0, 0, Some(100_000), 0, 0));
    update_channel(&mut graph, update(3, 2, 0, 0, Some(50_000), 0, 0));

    // Path via node7 is channels {12, 13}. Limit them to 60 and 60 sats (total limit 60);
    update_channel(&mut graph, update(12, 2, 0, 0, Some(60_000), 0, 0));
    update_channel(&mut graph, update(13, 2, 0, 0, Some(60_000), 0, 0));

    // Path via node1 is channels {2, 4}. Limit them to 200 and 180 sats (total capacity 180 sats).
    update_channel(&mut graph, update(2, 2, 0, 0, Some(200_000), 0, 0));
    update_channel(&mut graph, update(4, 2, 0, 0, Some(180_000), 0, 0));

    {
        // Attempt to route more than is available results in a failure.
        expect_insufficient(&graph, &our_id, &nodes[2], 300_000);
    }

    {
        // Now, attempt to route 250 sats (just a bit below the capacity).
        // Our algorithm should provide us with these 3 paths.
        let route = get_route(&our_id, &graph, &nodes[2], None, &Vec::new(), 250_000, 42).unwrap();
        assert_eq!(route.paths.len(), 3);
        let mut total_amount_paid_msat = 0;
        for path in &route.paths {
            assert_eq!(path.len(), 2);
            assert_eq!(path.last().unwrap().pubkey, nodes[2]);
            total_amount_paid_msat += path.last().unwrap().fee_msat;
        }
        assert_eq!(total_amount_paid_msat, 250_000);
    }

    {
        // Attempt to route an exact amount is also fine
        let route = get_route(&our_id, &graph, &nodes[2], None, &Vec::new(), 290_000, 42).unwrap();
        assert_eq!(route.paths.len(), 3);
        let mut total_amount_paid_msat = 0;
        for path in &route.paths {
            assert_eq!(path.len(), 2);
            assert_eq!(path.last().unwrap().pubkey, nodes[2]);
            total_amount_paid_msat += path.last().unwrap().fee_msat;
        }
        assert_eq!(total_amount_paid_msat, 290_000);
    }
}

#[test]
fn long_mpp_route_test() {
    let mut graph = build_graph();
    let (our_id, nodes) = get_nodes();

    // We need a route consisting of 35 paths:
    // From our node to node3 via {node0, node2}, {node7, node2, node4} and {node7, node2}.
    // Note that these paths overlap (channels 5, 12, 13).
    // We will route 300 sats.
    // Each path will have 100 sats capacity, those channels which are used twice will have 200 sats capacity.

    // Disable oter potential paths.
    update_channel(&mut graph, update(2, 2, 2, 0, Some(100_000), 0, 0));
    update_channel(&mut graph, update(7, 2, 2, 0, Some(100_000), 0, 0));

    // Path via {node0, node2} is channels {1, 3, 5}.
    update_channel(&mut graph, update(1, 2, 0, 0, Some(100_000), 0, 0));
    update_channel(&mut graph, update(3, 2, 0, 0, Some(100_000), 0, 0));

    // Capacity of 200 sats because this channel will be used by 3rd path as well.
    add_channel(&mut graph, &nodes[2], &nodes[3], ChannelFeatures::from_le_bytes(id_to_feature_flags(5)), 5);
    update_channel(&mut graph, update(5, 2, 0, 0, Some(200_000), 0, 0));

    // Path via {node7, node2, node4} is channels {12, 13, 6, 11}.
    // Add 100 sats to the capacities of {12, 13}, because these channels
    // are also used for 3rd path. 100 sats for the rest. Total capacity: 100 sats.
    update_channel(&mut graph, update(12, 2, 0, 0, Some(200_000), 0, 0));
    update_channel(&mut graph, update(13, 2, 0, 0, Some(200_000), 0, 0));

    update_channel(&mut graph, update(6, 2, 0, 0, Some(100_000), 0, 0));
    update_channel(&mut graph, update(11, 2, 0, 0, Some(100_000), 0, 0));

    // Path via {node7, node2} is channels {12, 13, 5}.
    // We already limited them to 200 sats (they are used twice for 100 sats).
    // Nothing to do here.

    {
        // Attempt to route more than is available results in a failure.
        expect_insufficient(&graph, &our_id, &nodes[2], 350_000);
    }

    {
        // Now, attempt to route 300 sats (exact amount we can route).
        // Our algorithm should provide us with these 3 paths, 100 sats each.
        let route = get_route(&our_id, &graph, &nodes[3], None, &Vec::new(), 300_000, 42).unwrap();
        assert_eq!(route.paths.len(), 3);

        let mut total_amount_paid_msat = 0;
        for path in &route.paths {
            assert_eq!(path.last().unwrap().pubkey, nodes[3]);
            total_amount_paid_msat += path.last().unwrap().fee_msat;
        }
        assert_eq!(total_amount_paid_msat, 300_000);
    }
}

#[test]
fn fees_on_mpp_route_test() {
    let mut graph = build_graph();
    let (our_id, nodes) = get_nodes();

    // We need a route consisting of 2 paths:
    // From our node to node3 via {node0, node2} and {node7, node2, node4}.
    // We will route 200 sats, Each path will have 100 sats capacity.

    // This test is not particularly stable: e.g., there's a way to route via {node0, node2, node4}.
    // It works while pathfinding is deterministic, but can be broken otherwise.
    // It's fine to ignore this concern for now.

    // Disable other potential paths.
    update_channel(&mut graph, update(2, 2, 2, 0, Some(100_000), 0, 0));
    update_channel(&mut graph, update(7, 2, 2, 0, Some(100_000), 0, 0));

    // Path via {node0, node2} is channels {1, 3, 5}.
    update_channel(&mut graph, update(1, 2, 0, 0, Some(100_000), 0, 0));
    update_channel(&mut graph, update(3, 2, 0, 0, Some(100_000), 0, 0));

    add_channel(&mut graph, &nodes[2], &nodes[3], ChannelFeatures::from_le_bytes(id_to_feature_flags(5)), 5);
    update_channel(&mut graph, update(5, 2, 0, 0, Some(100_000), 0, 0));

    // Path via {node7, node2, node4} is channels {12, 13, 6, 11}.
    // All channels should be 100 sats capacity. But for the fee experiment,
    // we'll add absolute fee of 150 sats paid for the use channel 6 (paid to node2 on channel 13).
    // Since channel 12 allows to deliver only 250 sats to channel 13, channel 13 can transfer only
    // 100 sats (and pay 150 sats in fees for the use of channel 6), so no matter how large are other channels,
    // the whole path will be limited by 100 sats with just these 2 conditions:
    // - channel 12 capacity is 250 sats
    // - fee for channel 6 is 150 sats
    // Let's test this by enforcing these 2 conditions and removing other limits.
    update_channel(&mut graph, update(12, 2, 0, 0, Some(250_000), 0, 0));
    update_channel(&mut graph, update(13, 2, 0, 0, None, 0, 0));

    update_channel(&mut graph, update(6, 2, 0, 0, None, 150_000, 0));
    update_channel(&mut graph, update(11, 2, 0, 0, None, 0, 0));

    {
        // Attempt to route more than is available results in a failure.
        expect_insufficient(&graph, &our_id, &nodes[3], 210_000);
    }

    {
        // Now, attempt to route 300 sats (exact amount we can route).
        // Our algorithm should provide us with these 3 paths, 100 sats each.
        let route = get_route(&our_id, &graph, &nodes[3], None, &Vec::new(), 200_000, 42).unwrap();
        assert_eq!(route.paths.len(), 2);

        let mut total_amount_paid_msat = 0;
        for path in &route.paths {
            assert_eq!(path.last().unwrap().pubkey, nodes[3]);
            total_amount_paid_msat += path.last().unwrap().fee_msat;
        }
        assert_eq!(total_amount_paid_msat, 200_000);
    }
}
