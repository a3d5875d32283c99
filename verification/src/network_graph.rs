//! The channel graph that the router searches: channels by short channel id,
//! nodes by public key, and the announcements that build them.

use crate::features::{ChannelFeatures, NodeFeatures};
use crate::primitives::PublicKey;
use vstd::prelude::*;

verus! {

/// The largest payment there can be: every satoshi that will ever exist, in
/// thousandths.
pub const MAX_VALUE_MSAT: u64 = 2_100_000_000_000_000_000;

/// What a channel charges for forwarding: a flat part and a part per million
/// of the amount.
#[derive(Clone, Copy, Debug, PartialEq, Eq)]
pub struct RoutingFees {
    pub base_msat: u32,
    pub proportional_millionths: u32,
}

/// One direction of a channel, as its source node last announced it.
#[derive(Clone, Copy, Debug, PartialEq, Eq)]
pub struct DirectionalChannelInfo {
    pub last_update: u32,
    pub enabled: bool,
    pub cltv_expiry_delta: u16,
    pub htlc_minimum_msat: u64,
    pub htlc_maximum_msat: Option<u64>,
    pub fees: RoutingFees,
}

impl DirectionalChannelInfo {
    /// A direction nobody has announced: disabled, free and without limits.
    pub fn unannounced() -> (d: DirectionalChannelInfo)
        ensures
            d == (DirectionalChannelInfo {
                last_update: 0,
                enabled: false,
                cltv_expiry_delta: 0,
                htlc_minimum_msat: 0,
                htlc_maximum_msat: None,
                fees: RoutingFees { base_msat: 0, proportional_millionths: 0 },
            }),
    {
        DirectionalChannelInfo {
            last_update: 0,
            enabled: false,
            cltv_expiry_delta: 0,
            htlc_minimum_msat: 0,
            htlc_maximum_msat: None,
            fees: RoutingFees { base_msat: 0, proportional_millionths: 0 },
        }
    }
}

/// A channel between two nodes.
#[derive(Clone, Debug, PartialEq, Eq)]
pub struct ChannelInfo {
    pub features: ChannelFeatures,
    pub node_one: PublicKey,
    pub one_to_two: Option<DirectionalChannelInfo>,
    pub node_two: PublicKey,
    pub two_to_one: Option<DirectionalChannelInfo>,
    pub capacity_sats: Option<u64>,
}

/// What a node announced of itself.
#[derive(Clone, Debug, PartialEq, Eq)]
pub struct NodeAnnouncementInfo {
    pub features: NodeFeatures,
    pub last_update: u32,
}

/// A node and the channels that end at it.
#[derive(Clone, Debug, PartialEq, Eq)]
pub struct NodeInfo {
    pub channels: Vec<u64>,
    pub lowest_inbound_channel_fees: Option<RoutingFees>,
    pub announcement_info: Option<NodeAnnouncementInfo>,
}

/// A channel under its short channel id.
#[derive(Clone, Debug, PartialEq, Eq)]
pub struct ChannelEntry {
    pub short_channel_id: u64,
    pub info: ChannelInfo,
}

/// A node under its public key.
#[derive(Clone, Debug, PartialEq, Eq)]
pub struct NodeEntry {
    pub node_id: PublicKey,
    pub info: NodeInfo,
}

/// An update of one direction of a channel, signed by the direction's source.
/// Bit 0 of `flags` is set when the source is the channel's second node, bit 1
/// when the direction is disabled.
#[derive(Clone, Copy, Debug, PartialEq, Eq)]
pub struct ChannelUpdate {
    pub short_channel_id: u64,
    pub timestamp: u32,
    pub flags: u8,
    pub cltv_expiry_delta: u16,
    pub htlc_minimum_msat: u64,
    pub htlc_maximum_msat: Option<u64>,
    pub fee_base_msat: u32,
    pub fee_proportional_millionths: u32,
}

/// Why the graph refused an announcement.
#[derive(Clone, Copy, Debug, PartialEq, Eq)]
pub enum GraphError {
    /// The channel is already known.
    DuplicateChannel,
    /// Both ends of the channel are the same node.
    SelfChannel,
    /// No channel with this id is known.
    UnknownChannel,
    /// The largest forwarded amount is more than all money there is.
    MaximumTooLarge,
    /// The largest forwarded amount is more than the channel holds.
    MaximumOverCapacity,
    /// An update at least as recent has been seen.
    Stale,
    /// No channel of this node is known.
    UnknownNode,
}

/// The channels and nodes known to us.
#[derive(Clone, Debug, PartialEq, Eq)]
pub struct NetworkGraph {
    pub channels: Vec<ChannelEntry>,
    pub nodes: Vec<NodeEntry>,
}

/// Whether `i` is the first position of a channel with id `scid`.
pub open spec fn is_first_channel(channels: Seq<ChannelEntry>, scid: u64, i: int) -> bool {
    &&& 0 <= i < channels.len()
    &&& channels[i].short_channel_id == scid
    &&& forall|j: int| 0 <= j < i ==> channels[j].short_channel_id != scid
}

/// Whether a channel with id `scid` is known.
pub open spec fn has_channel(channels: Seq<ChannelEntry>, scid: u64) -> bool {
    exists|i: int| 0 <= i < channels.len() && channels[i].short_channel_id == scid
}

/// Whether `i` is the first position of the node `id`.
pub open spec fn is_first_node(nodes: Seq<NodeEntry>, id: PublicKey, i: int) -> bool {
    &&& 0 <= i < nodes.len()
    &&& nodes[i].node_id == id
    &&& forall|j: int| 0 <= j < i ==> nodes[j].node_id != id
}

/// Whether the node `id` is known.
pub open spec fn has_node(nodes: Seq<NodeEntry>, id: PublicKey) -> bool {
    exists|i: int| 0 <= i < nodes.len() && nodes[i].node_id == id
}

/// The direction of `channel` that pays into `node`, if it was announced:
/// towards the first node it is the second node's, and the other way round.
pub open spec fn inbound_direction(channel: ChannelInfo, node: PublicKey) -> Option<
    DirectionalChannelInfo,
> {
    if channel.node_one == node {
        channel.two_to_one
    } else {
        channel.one_to_two
    }
}

/// The smaller of two fee schedules, part by part; `None` counts as no
/// schedule yet.
pub open spec fn lower_fees(so_far: Option<RoutingFees>, fees: RoutingFees) -> RoutingFees {
    match so_far {
        None => fees,
        Some(f) => RoutingFees {
            base_msat: if fees.base_msat < f.base_msat {
                fees.base_msat
            } else {
                f.base_msat
            },
            proportional_millionths: if fees.proportional_millionths < f.proportional_millionths {
                fees.proportional_millionths
            } else {
                f.proportional_millionths
            },
        },
    }
}

/// The lowest fees, part by part, over the enabled directions into `node` of
/// the first `upto` channels in `ids` that are known; `None` where there is
/// no such direction.
pub open spec fn lowest_inbound_fees(
    channels: Seq<ChannelEntry>,
    node: PublicKey,
    ids: Seq<u64>,
    upto: int,
) -> Option<RoutingFees>
    decreases upto,
{
    if upto <= 0 {
        None
    } else {
        let before = lowest_inbound_fees(channels, node, ids, upto - 1);
        let scid = ids[upto - 1];
        if has_channel(channels, scid) {
            let i = choose|i: int| is_first_channel(channels, scid, i);
            match inbound_direction(channels[i].info, node) {
                Some(direction) => if direction.enabled {
                    Some(lower_fees(before, direction.fees))
                } else {
                    before
                },
                None => before,
            }
        } else {
            before
        }
    }
}

/// The direction that `update` announces, as the graph will hold it.
pub open spec fn announced_direction(update: ChannelUpdate) -> DirectionalChannelInfo {
    DirectionalChannelInfo {
        last_update: update.timestamp,
        enabled: update.flags & 2 == 0,
        cltv_expiry_delta: update.cltv_expiry_delta,
        htlc_minimum_msat: update.htlc_minimum_msat,
        htlc_maximum_msat: update.htlc_maximum_msat,
        fees: RoutingFees {
            base_msat: update.fee_base_msat,
            proportional_millionths: update.fee_proportional_millionths,
        },
    }
}

/// Why `update` is refused on `channel`, if it is.
pub open spec fn update_refusal(channel: ChannelInfo, update: ChannelUpdate) -> Option<GraphError> {
    let target = if update.flags & 1 == 1 {
        channel.two_to_one
    } else {
        channel.one_to_two
    };
    if update.htlc_maximum_msat is Some && update.htlc_maximum_msat->0 > MAX_VALUE_MSAT {
        Some(GraphError::MaximumTooLarge)
    } else if update.htlc_maximum_msat is Some && channel.capacity_sats is Some
        && update.htlc_maximum_msat->0 > channel.capacity_sats->0 * 1000 {
        Some(GraphError::MaximumOverCapacity)
    } else if target is Some && target->0.last_update >= update.timestamp {
        Some(GraphError::Stale)
    } else {
        None
    }
}

/// A node that is known has a first entry.
pub proof fn lemma_first_node(nodes: Seq<NodeEntry>, id: PublicKey, k: int)
    requires
        0 <= k < nodes.len(),
        nodes[k].node_id == id,
    ensures
        has_node(nodes, id),
        is_first_node(nodes, id, choose|i: int| is_first_node(nodes, id, i)),
        (choose|i: int| is_first_node(nodes, id, i)) <= k,
    decreases k,
{
    if forall|j: int| 0 <= j < k ==> nodes[j].node_id != id {
        assert(is_first_node(nodes, id, k));
        let p = choose|i: int| is_first_node(nodes, id, i);
        if p > k {
            assert(nodes[k].node_id != id);
        }
    } else {
        let j = choose|j: int| 0 <= j < k && nodes[j].node_id == id;
        lemma_first_node(nodes, id, j);
    }
}

fn min_fees(so_far: Option<RoutingFees>, fees: RoutingFees) -> (r: RoutingFees)
    ensures
        r == lower_fees(so_far, fees),
{
    match so_far {
        None => fees,
        Some(f) => RoutingFees {
            base_msat: if fees.base_msat < f.base_msat {
                fees.base_msat
            } else {
                f.base_msat
            },
            proportional_millionths: if fees.proportional_millionths < f.proportional_millionths {
                fees.proportional_millionths
            } else {
                f.proportional_millionths
            },
        },
    }
}

impl NetworkGraph {
    /// A graph without channels or nodes.
    pub fn new() -> (g: NetworkGraph)
        ensures
            g.channels@.len() == 0,
            g.nodes@.len() == 0,
    {
        NetworkGraph { channels: Vec::new(), nodes: Vec::new() }
    }

    /// The first position of the channel `scid`.
    pub fn channel_index(&self, scid: u64) -> (r: Option<usize>)
        ensures
            match r {
                Some(i) => is_first_channel(self.channels@, scid, i as int),
                None => !has_channel(self.channels@, scid),
            },
    {
        let mut i: usize = 0;
        while i < self.channels.len()
            invariant
                i <= self.channels@.len(),
                forall|j: int| 0 <= j < i ==> self.channels@[j].short_channel_id != scid,
            decreases self.channels@.len() - i,
        {
            if self.channels[i].short_channel_id == scid {
                return Some(i);
            }
            i = i + 1;
        }
        None
    }

    /// The first position of the node `id`.
    pub fn node_index(&self, id: &PublicKey) -> (r: Option<usize>)
        ensures
            match r {
                Some(i) => is_first_node(self.nodes@, *id, i as int),
                None => !has_node(self.nodes@, *id),
            },
    {
        let mut i: usize = 0;
        while i < self.nodes.len()
            invariant
                i <= self.nodes@.len(),
                forall|j: int| 0 <= j < i ==> self.nodes@[j].node_id != *id,
            decreases self.nodes@.len() - i,
        {
            if self.nodes[i].node_id.same(id) {
                return Some(i);
            }
            i = i + 1;
        }
        None
    }

    /// The channel `scid`, if it is known.
    pub fn get_channel(&self, scid: u64) -> (r: Option<&ChannelInfo>)
        ensures
            match r {
                Some(c) => exists|i: int|
                    is_first_channel(self.channels@, scid, i) && *c == self.channels@[i].info,
                None => !has_channel(self.channels@, scid),
            },
    {
        match self.channel_index(scid) {
            Some(i) => Some(&self.channels[i].info),
            None => None,
        }
    }

    /// The node `id`, if it is known.
    pub fn get_node(&self, id: &PublicKey) -> (r: Option<&NodeInfo>)
        ensures
            match r {
                Some(n) => exists|i: int|
                    is_first_node(self.nodes@, *id, i) && *n == self.nodes@[i].info,
                None => !has_node(self.nodes@, *id),
            },
    {
        match self.node_index(id) {
            Some(i) => Some(&self.nodes[i].info),
            None => None,
        }
    }

    /// Notes that the channel `scid` ends at the node `id`, which becomes
    /// known if it was not.
    fn attach_channel(&mut self, id: PublicKey, scid: u64)
        ensures
            final(self).channels == old(self).channels,
            final(self).nodes@.len() >= old(self).nodes@.len(),
            has_node(final(self).nodes@, id),
            forall|j: int|
                0 <= j < old(self).nodes@.len() ==> (#[trigger] final(self).nodes@[j]).node_id
                    == old(self).nodes@[j].node_id,
            match old(self).node_index_spec(id) {
                Some(i) => {
                    &&& final(self).nodes@.len() == old(self).nodes@.len()
                    &&& final(self).nodes@[i].info.channels@ == old(self).nodes@[i].info.channels@.push(scid)
                    &&& final(self).nodes@[i].info.lowest_inbound_channel_fees == old(self).nodes@[i].info.lowest_inbound_channel_fees
                    &&& final(self).nodes@[i].info.announcement_info == old(self).nodes@[i].info.announcement_info
                    &&& forall|j: int|
                        0 <= j < old(self).nodes@.len() && j != i ==> final(self).nodes@[j] == old(self).nodes@[j]
                },
                None => {
                    &&& final(self).nodes@.len() == old(self).nodes@.len() + 1
                    &&& final(self).nodes@.last().node_id == id
                    &&& final(self).nodes@.last().info.channels@ == seq![scid]
                    &&& final(self).nodes@.last().info.lowest_inbound_channel_fees is None
                    &&& final(self).nodes@.last().info.announcement_info is None
                    &&& forall|j: int|
                        0 <= j < old(self).nodes@.len() ==> final(self).nodes@[j] == old(self).nodes@[j]
                },
            },
    {
        match self.node_index(&id) {
            Some(i) => {
                self.nodes[i].info.channels.push(scid);
                proof {
                    assert(is_first_node(old(self).nodes@, id, i as int));
                    assert(old(self).node_index_spec(id) == Some(i as int));
                }
            },
            None => {
                let mut channels: Vec<u64> = Vec::new();
                channels.push(scid);
                self.nodes.push(
                    NodeEntry {
                        node_id: id,
                        info: NodeInfo {
                            channels,
                            lowest_inbound_channel_fees: None,
                            announcement_info: None,
                        },
                    },
                );
                proof {
                    assert(final(self).nodes@.last().node_id == id);
                    assert(self.nodes@[self.nodes@.len() - 1].node_id == id);
                }
            },
        }
    }

    /// Takes in the announcement of a channel between two different nodes,
    /// with nothing known yet of either direction. Both nodes become known.
    pub fn add_channel(
        &mut self,
        short_channel_id: u64,
        node_one: PublicKey,
        node_two: PublicKey,
        features: ChannelFeatures,
        capacity_sats: Option<u64>,
    ) -> (r: Result<(), GraphError>)
        ensures
            r is Ok <==> node_one != node_two && !has_channel(
                old(self).channels@,
                short_channel_id,
            ),
            r == Err::<(), GraphError>(GraphError::SelfChannel) <==> node_one == node_two,
            r is Err ==> r->Err_0 == GraphError::SelfChannel || r->Err_0
                == GraphError::DuplicateChannel,
            r is Err ==> *final(self) == *old(self),
            r is Ok ==> {
                &&& final(self).channels@.len() == old(self).channels@.len() + 1
                &&& forall|j: int|
                    0 <= j < old(self).channels@.len() ==> final(self).channels@[j] == old(self).channels@[j]
                &&& final(self).channels@.last().short_channel_id == short_channel_id
                &&& final(self).channels@.last().info.node_one == node_one
                &&& final(self).channels@.last().info.node_two == node_two
                &&& final(self).channels@.last().info.one_to_two is None
                &&& final(self).channels@.last().info.two_to_one is None
                &&& final(self).channels@.last().info.capacity_sats == capacity_sats
                &&& final(self).channels@.last().info.features@ == features@
                &&& has_node(final(self).nodes@, node_one)
                &&& has_node(final(self).nodes@, node_two)
                &&& final(self).nodes@.len() >= old(self).nodes@.len()
                &&& forall|j: int|
                    0 <= j < old(self).nodes@.len() ==> (#[trigger] final(self).nodes@[j]).node_id
                        == old(self).nodes@[j].node_id
                &&& forall|j: int|
                    0 <= j < old(self).nodes@.len() ==> {
                        let before = #[trigger] old(self).nodes@[j];
                        let after = final(self).nodes@[j];
                        if is_first_node(old(self).nodes@, node_one, j) || is_first_node(
                            old(self).nodes@,
                            node_two,
                            j,
                        ) {
                            &&& after.info.channels@ == before.info.channels@.push(short_channel_id)
                            &&& after.info.lowest_inbound_channel_fees
                                == before.info.lowest_inbound_channel_fees
                            &&& after.info.announcement_info == before.info.announcement_info
                        } else {
                            after == before
                        }
                    }
                &&& final(self).nodes@.len() == old(self).nodes@.len() + (if has_node(
                    old(self).nodes@,
                    node_one,
                ) {
                    0int
                } else {
                    1int
                }) + (if has_node(old(self).nodes@, node_two) {
                    0int
                } else {
                    1int
                })
                &&& forall|j: int|
                    old(self).nodes@.len() <= j < final(self).nodes@.len() ==> {
                        let added = #[trigger] final(self).nodes@[j];
                        &&& added.info.channels@ == seq![short_channel_id]
                        &&& added.info.lowest_inbound_channel_fees is None
                        &&& added.info.announcement_info is None
                        &&& added.node_id == if j == old(self).nodes@.len() && !has_node(
                            old(self).nodes@,
                            node_one,
                        ) {
                            node_one
                        } else {
                            node_two
                        }
                    }
            },
    {
        if node_one.same(&node_two) {
            return Err(GraphError::SelfChannel);
        }
        if self.channel_index(short_channel_id).is_some() {
            return Err(GraphError::DuplicateChannel);
        }
        self.channels.push(
            ChannelEntry {
                short_channel_id,
                info: ChannelInfo {
                    features,
                    node_one,
                    one_to_two: None,
                    node_two,
                    two_to_one: None,
                    capacity_sats,
                },
            },
        );
        let ghost first = self.nodes@;
        let ghost at_first = *self;
        self.attach_channel(node_one, short_channel_id);
        let ghost mid = self.nodes@;
        let ghost at_mid = *self;
        self.attach_channel(node_two, short_channel_id);
        proof {
            let i = choose|i: int| 0 <= i < mid.len() && mid[i].node_id == node_one;
            assert(self.nodes@[i].node_id == node_one);
            if has_node(first, node_one) {
                let w = choose|w: int| 0 <= w < first.len() && first[w].node_id == node_one;
                lemma_first_node(first, node_one, w);
            }
            if has_node(first, node_two) {
                let w = choose|w: int| 0 <= w < first.len() && first[w].node_id == node_two;
                lemma_first_node(first, node_two, w);
                assert(mid[w].node_id == node_two);
                lemma_first_node(mid, node_two, w);
                let k = choose|k: int| is_first_node(mid, node_two, k);
                let k0 = choose|k0: int| is_first_node(first, node_two, k0);
                assert(mid[k0].node_id == first[k0].node_id);
                assert(first[k].node_id == mid[k].node_id);
                assert(k == k0);
            } else {
                assert(!has_node(mid, node_two)) by {
                    if has_node(mid, node_two) {
                        let j = choose|j: int| 0 <= j < mid.len() && mid[j].node_id == node_two;
                        if j < first.len() {
                            assert(mid[j].node_id == first[j].node_id);
                        }
                    }
                }
            }
            assert forall|j: int| 0 <= j < first.len() implies is_first_node(mid, node_two, j)
                == is_first_node(first, node_two, j) by {
                if is_first_node(mid, node_two, j) {
                    assert(mid[j].node_id == first[j].node_id);
                    assert forall|m: int| 0 <= m < j implies first[m].node_id != node_two by {
                        assert(mid[m].node_id == first[m].node_id);
                    }
                }
                if is_first_node(first, node_two, j) {
                    assert(mid[j].node_id == first[j].node_id);
                    assert forall|m: int| 0 <= m < j implies mid[m].node_id != node_two by {
                        assert(mid[m].node_id == first[m].node_id);
                    }
                }
            }
        }
        Ok(())
    }

    /// Takes in an update of one direction of a known channel. The node that
    /// the direction pays into keeps the lowest fees of its enabled inbound
    /// directions: lowered by an enabled update, worked out anew when an
    /// enabled direction is disabled.
    pub fn update_channel(&mut self, update: &ChannelUpdate) -> (r: Result<(), GraphError>)
        ensures
            !has_channel(old(self).channels@, update.short_channel_id) ==> r == Err::<
                (),
                GraphError,
            >(GraphError::UnknownChannel),
            forall|i: int|
                is_first_channel(old(self).channels@, update.short_channel_id, i) ==> {
                    let before = #[trigger] old(self).channels@[i].info;
                    let after = final(self).channels@[i].info;
                    let refusal = update_refusal(before, *update);
                    &&& match refusal {
                        Some(e) => r == Err::<(), GraphError>(e),
                        None => r is Ok,
                    }
                    &&& r is Ok ==> {
                        &&& after.features == before.features
                        &&& after.node_one == before.node_one
                        &&& after.node_two == before.node_two
                        &&& after.capacity_sats == before.capacity_sats
                        &&& if update.flags & 1 == 1 {
                            after.two_to_one == Some(announced_direction(*update))
                                && after.one_to_two == before.one_to_two
                        } else {
                            after.one_to_two == Some(announced_direction(*update))
                                && after.two_to_one == before.two_to_one
                        }
                        &&& forall|j: int|
                            0 <= j < old(self).channels@.len() && j != i ==> final(self).channels@[j] == old(self).channels@[j]
                    }
                },
            r is Err ==> *final(self) == *old(self),
            final(self).channels@.len() == old(self).channels@.len(),
            final(self).nodes@.len() == old(self).nodes@.len(),
            forall|j: int|
                0 <= j < old(self).nodes@.len() ==> {
                    &&& (#[trigger] final(self).nodes@[j]).node_id == old(self).nodes@[j].node_id
                    &&& final(self).nodes@[j].info.channels == old(self).nodes@[j].info.channels
                    &&& final(self).nodes@[j].info.announcement_info == old(self).nodes@[j].info.announcement_info
                },
            forall|i: int|
                r is Ok && is_first_channel(old(self).channels@, update.short_channel_id, i)
                    && !has_node(
                    old(self).nodes@,
                    if update.flags & 1 == 1 {
                        (#[trigger] old(self).channels@[i]).info.node_one
                    } else {
                        old(self).channels@[i].info.node_two
                    },
                ) ==> final(self).nodes == old(self).nodes,
            forall|i: int, d: int|
                #![trigger old(self).channels@[i], final(self).nodes@[d]]
                r is Ok && is_first_channel(old(self).channels@, update.short_channel_id, i)
                    && is_first_node(
                    old(self).nodes@,
                    if update.flags & 1 == 1 {
                        old(self).channels@[i].info.node_one
                    } else {
                        old(self).channels@[i].info.node_two
                    },
                    d,
                ) ==> {
                    let before = old(self).channels@[i].info;
                    let target = if update.flags & 1 == 1 {
                        before.two_to_one
                    } else {
                        before.one_to_two
                    };
                    let fees_before = old(self).nodes@[d].info.lowest_inbound_channel_fees;
                    let fees_after = final(self).nodes@[d].info.lowest_inbound_channel_fees;
                    &&& update.flags & 2 == 0 ==> fees_after == Some(
                        lower_fees(fees_before, announced_direction(*update).fees),
                    )
                    &&& update.flags & 2 != 0 && target is Some && target->0.enabled ==> fees_after
                        == lowest_inbound_fees(
                        final(self).channels@,
                        old(self).nodes@[d].node_id,
                        old(self).nodes@[d].info.channels@,
                        old(self).nodes@[d].info.channels@.len() as int,
                    )
                    &&& update.flags & 2 != 0 && !(target is Some && target->0.enabled)
                        ==> fees_after == fees_before
                    &&& forall|j: int|
                        0 <= j < old(self).nodes@.len() && j != d ==> final(self).nodes@[j] == old(self).nodes@[j]
                },
    {
        let i = match self.channel_index(update.short_channel_id) {
            Some(i) => i,
            None => {
                return Err(GraphError::UnknownChannel);
            },
        };
        let to_first = update.flags & 1 == 1;
        let enabled = update.flags & 2 == 0;
        let target = if to_first {
            self.channels[i].info.two_to_one
        } else {
            self.channels[i].info.one_to_two
        };
        if let Some(maximum) = update.htlc_maximum_msat {
            if maximum > MAX_VALUE_MSAT {
                return Err(GraphError::MaximumTooLarge);
            }
            if let Some(capacity) = self.channels[i].info.capacity_sats {
                match capacity.checked_mul(1000) {
                    Some(capacity_msat) => {
                        if maximum > capacity_msat {
                            return Err(GraphError::MaximumOverCapacity);
                        }
                    },
                    None => {},
                }
            }
        }
        let was_enabled = match target {
            Some(existing) => {
                if existing.last_update >= update.timestamp {
                    return Err(GraphError::Stale);
                }
                existing.enabled
            },
            None => false,
        };
        let direction = DirectionalChannelInfo {
            last_update: update.timestamp,
            enabled,
            cltv_expiry_delta: update.cltv_expiry_delta,
            htlc_minimum_msat: update.htlc_minimum_msat,
            htlc_maximum_msat: update.htlc_maximum_msat,
            fees: RoutingFees {
                base_msat: update.fee_base_msat,
                proportional_millionths: update.fee_proportional_millionths,
            },
        };
        let destination = if to_first {
            self.channels[i].info.node_one
        } else {
            self.channels[i].info.node_two
        };
        if to_first {
            self.channels[i].info.two_to_one = Some(direction);
        } else {
            self.channels[i].info.one_to_two = Some(direction);
        }
        match self.node_index(&destination) {
            Some(d) => {
                if enabled {
                    let lowest = min_fees(
                        self.nodes[d].info.lowest_inbound_channel_fees,
                        direction.fees,
                    );
                    self.nodes[d].info.lowest_inbound_channel_fees = Some(lowest);
                } else if was_enabled {
                    let lowest = self.lowest_inbound(d);
                    self.nodes[d].info.lowest_inbound_channel_fees = lowest;
                }
            },
            None => {},
        }
        Ok(())
    }

    /// The lowest fees over the enabled directions into the node at `d`.
    fn lowest_inbound(&self, d: usize) -> (r: Option<RoutingFees>)
        requires
            d < self.nodes@.len(),
        ensures
            r == lowest_inbound_fees(
                self.channels@,
                self.nodes@[d as int].node_id,
                self.nodes@[d as int].info.channels@,
                self.nodes@[d as int].info.channels@.len() as int,
            ),
    {
        let node = self.nodes[d].node_id;
        let mut lowest: Option<RoutingFees> = None;
        let mut k: usize = 0;
        while k < self.nodes[d].info.channels.len()
            invariant
                d < self.nodes@.len(),
                node == self.nodes@[d as int].node_id,
                k <= self.nodes@[d as int].info.channels@.len(),
                lowest == lowest_inbound_fees(
                    self.channels@,
                    node,
                    self.nodes@[d as int].info.channels@,
                    k as int,
                ),
            decreases self.nodes@[d as int].info.channels@.len() - k,
        {
            let scid = self.nodes[d].info.channels[k];
            match self.channel_index(scid) {
                Some(c) => {
                    let channel = &self.channels[c].info;
                    let inbound = if channel.node_one.same(&node) {
                        channel.two_to_one
                    } else {
                        channel.one_to_two
                    };
                    proof {
                        let chosen = choose|i: int| is_first_channel(self.channels@, scid, i);
                        assert(is_first_channel(self.channels@, scid, c as int));
                        assert(chosen == c);
                    }
                    match inbound {
                        Some(direction) => {
                            if direction.enabled {
                                lowest = Some(min_fees(lowest, direction.fees));
                            }
                        },
                        None => {},
                    }
                },
                None => {},
            }
            k = k + 1;
        }
        lowest
    }

    /// Takes in what a node announced of itself. The node must be known from
    /// a channel, and the announcement newer than the last one.
    pub fn update_node(&mut self, id: &PublicKey, features: NodeFeatures, timestamp: u32) -> (r:
        Result<(), GraphError>)
        ensures
            !has_node(old(self).nodes@, *id) ==> r == Err::<(), GraphError>(
                GraphError::UnknownNode,
            ),
            final(self).channels == old(self).channels,
            final(self).nodes@.len() == old(self).nodes@.len(),
            r is Err ==> *final(self) == *old(self),
            forall|i: int|
                is_first_node(old(self).nodes@, *id, i) ==> {
                    let before = #[trigger] old(self).nodes@[i].info;
                    let after = final(self).nodes@[i].info;
                    let stale = before.announcement_info is Some
                        && before.announcement_info->0.last_update >= timestamp;
                    &&& stale ==> r == Err::<(), GraphError>(GraphError::Stale)
                    &&& !stale ==> {
                        &&& r is Ok
                        &&& after.announcement_info is Some
                        &&& after.announcement_info->0.features@ == features@
                        &&& after.announcement_info->0.last_update == timestamp
                        &&& after.channels == before.channels
                        &&& after.lowest_inbound_channel_fees == before.lowest_inbound_channel_fees
                        &&& final(self).nodes@[i].node_id == *id
                        &&& forall|j: int|
                            0 <= j < old(self).nodes@.len() && j != i ==> final(self).nodes@[j]
                                == old(self).nodes@[j]
                    }
                },
    {
        let i = match self.node_index(id) {
            Some(i) => i,
            None => {
                return Err(GraphError::UnknownNode);
            },
        };
        match &self.nodes[i].info.announcement_info {
            Some(known) => {
                if known.last_update >= timestamp {
                    return Err(GraphError::Stale);
                }
            },
            None => {},
        }
        self.nodes[i].info.announcement_info = Some(
            NodeAnnouncementInfo { features, last_update: timestamp },
        );
        Ok(())
    }

    /// The first position of the node `id`, in specifications.
    pub open spec fn node_index_spec(&self, id: PublicKey) -> Option<int> {
        if has_node(self.nodes@, id) {
            Some(choose|i: int| is_first_node(self.nodes@, id, i))
        } else {
            None
        }
    }
}

} // verus!
