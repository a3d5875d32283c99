//! What the router is asked and what it answers: routes, their hops, and the
//! caller's hints on the first and the last hop.

use crate::features::{ChannelFeatures, InitFeatures, NodeFeatures};
use crate::network_graph::RoutingFees;
use crate::primitives::PublicKey;
use vstd::prelude::*;
use vstd::std_specs::cmp::PartialEqSpecImpl;

verus! {

/// A hop in a route.
#[derive(Clone, Debug)]
pub struct RouteHop {
    /// The node at this hop.
    pub pubkey: PublicKey,
    /// The features that node announced.
    pub node_features: NodeFeatures,
    /// The channel from the previous hop to this node.
    pub short_channel_id: u64,
    /// The features announced for that channel.
    pub channel_features: ChannelFeatures,
    /// The fee taken at this hop, for the use of the next channel; at the last
    /// hop, the amount that is paid.
    pub fee_msat: u64,
    /// The timelock delta added at this hop; at the last hop, the timelock the
    /// payee expects.
    pub cltv_expiry_delta: u32,
}

/// A hop with its feature flags as plain byte strings.
pub struct RouteHopView {
    pub pubkey: PublicKey,
    pub node_features: Seq<u8>,
    pub short_channel_id: u64,
    pub channel_features: Seq<u8>,
    pub fee_msat: u64,
    pub cltv_expiry_delta: u32,
}

impl View for RouteHop {
    type V = RouteHopView;

    open spec fn view(&self) -> RouteHopView {
        RouteHopView {
            pubkey: self.pubkey,
            node_features: self.node_features@,
            short_channel_id: self.short_channel_id,
            channel_features: self.channel_features@,
            fee_msat: self.fee_msat,
            cltv_expiry_delta: self.cltv_expiry_delta,
        }
    }
}

impl PartialEq for RouteHop {
    /// Two hops are the same when they reach the same node over the same
    /// channel.
    fn eq(&self, other: &Self) -> (r: bool) {
        self.short_channel_id == other.short_channel_id && self.pubkey.same(&other.pubkey)
    }
}

impl PartialEqSpecImpl for RouteHop {
    open spec fn obeys_eq_spec() -> bool {
        true
    }

    open spec fn eq_spec(&self, other: &Self) -> bool {
        self.short_channel_id == other.short_channel_id && self.pubkey == other.pubkey
    }
}

impl RouteHop {
    /// A copy of the hop.
    pub fn duplicate(&self) -> (r: RouteHop)
        ensures
            r@ == self@,
    {
        RouteHop {
            pubkey: self.pubkey,
            node_features: self.node_features.duplicate(),
            short_channel_id: self.short_channel_id,
            channel_features: self.channel_features.duplicate(),
            fee_msat: self.fee_msat,
            cltv_expiry_delta: self.cltv_expiry_delta,
        }
    }
}

/// A payment's way from us to the payee: one path, or several for a payment
/// in parts. Each path lists its hops without ourselves and ends at the payee.
#[derive(Clone, Debug, PartialEq)]
pub struct Route {
    pub paths: Vec<Vec<RouteHop>>,
}

/// A channel into the payee that the graph may not know, as an invoice gives
/// it.
#[derive(Clone, Copy, Debug)]
pub struct RouteHint {
    /// The node at the far end of the channel.
    pub src_node_id: PublicKey,
    /// The channel.
    pub short_channel_id: u64,
    /// The fees for using the channel.
    pub fees: RoutingFees,
    /// The timelock delta of the channel.
    pub cltv_expiry_delta: u16,
    /// The smallest amount the channel forwards.
    pub htlc_minimum_msat: u64,
    /// The largest amount the channel forwards in one piece.
    pub htlc_maximum_msat: Option<u64>,
}

/// One of our own channels, as the channel manager lists it.
#[derive(Clone, Debug)]
pub struct ChannelDetails {
    pub channel_id: [u8; 32],
    /// The channel's short id, once it is confirmed.
    pub short_channel_id: Option<u64>,
    /// The node at the other end.
    pub remote_network_id: PublicKey,
    /// The features that node offered when it connected.
    pub counterparty_features: InitFeatures,
    pub channel_value_satoshis: u64,
    pub user_id: u64,
    pub outbound_capacity_msat: u64,
    pub inbound_capacity_msat: u64,
    pub is_live: bool,
}

/// Why no route is given.
#[derive(Clone, Copy, Debug, PartialEq, Eq)]
pub enum RouteError {
    /// We are the payee ourselves.
    RouteToSelf,
    /// The amount is more than all money there is.
    ValueTooLarge,
    /// First hops were given, and the list was empty.
    NoOutboundChannels,
    /// No path leads to the payee.
    RouteUnreachable,
    /// Paths lead to the payee, but together they carry too little.
    RouteInsufficient,
}

impl RouteError {
    /// The error in words.
    pub fn message(&self) -> (s: &'static str)
        ensures
            s@ == match *self {
                RouteError::RouteToSelf => "Cannot generate a route to ourselves"@,
                RouteError::ValueTooLarge =>
                    "Cannot generate a route of more value than all existing satoshis"@,
                RouteError::NoOutboundChannels =>
                    "Cannot route when there are no outbound routes away from us"@,
                RouteError::RouteUnreachable => "Failed to find a path to the given destination"@,
                RouteError::RouteInsufficient =>
                    "Failed to find a sufficient route to the given destination"@,
            },
    {
        match self {
            RouteError::RouteToSelf => "Cannot generate a route to ourselves",
            RouteError::ValueTooLarge =>
                "Cannot generate a route of more value than all existing satoshis",
            RouteError::NoOutboundChannels =>
                "Cannot route when there are no outbound routes away from us",
            RouteError::RouteUnreachable => "Failed to find a path to the given destination",
            RouteError::RouteInsufficient =>
                "Failed to find a sufficient route to the given destination",
        }
    }
}

} // verus!
