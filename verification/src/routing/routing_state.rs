//! The state of one search for payment paths: the nodes still to be looked
//! at, the cheapest known channel out of each node towards the payee, and
//! what every channel can still carry once earlier paths have had their
//! share.

use crate::features::{
    ChannelFeatures,
    NodeFeatures,
};
use crate::network_graph::{
    DirectionalChannelInfo,
    NetworkGraph,
    NodeEntry,
    RoutingFees,
    has_node,
    is_first_node,
};
use crate::primitives::{
    PublicKey,
    lemma_lex_less_irreflexive,
    lemma_lex_less_transitive,
    lex_less,
};
use crate::routing::payment_path::{
    PaymentHop,
    PaymentHopView,
    capped_add,
    compute_fees,
    fee_for,
};
use crate::routing::route::{RouteHop, RouteHopView};
use vstd::prelude::*;

verus! {

/// What a channel is taken to carry when neither its capacity nor a limit on
/// forwarded amounts is known.
pub const UNKNOWN_LIQUIDITY_MSAT: u64 = 10_000_000;

/// A channel must offer at least one part in this many of what is still to be
/// collected.
pub const CONTRIBUTION_RATIO: u64 = 20;

/// A node waiting to be looked at, with what it costs to pay through it.
#[derive(Clone, Copy, Debug)]
pub struct RouteGraphNode {
    pub pubkey: PublicKey,
    /// The fees from this node to the payee, with an estimate for reaching
    /// the node.
    pub lowest_fee_to_peer_through_node: u64,
    /// The fees from this node to the payee.
    pub lowest_fee_to_node: u64,
}

/// Whether `a` is looked at before `b`: the cheaper node first, and of two
/// equally cheap nodes the one whose key sorts first.
pub open spec fn served_before(a: RouteGraphNode, b: RouteGraphNode) -> bool {
    a.lowest_fee_to_peer_through_node < b.lowest_fee_to_peer_through_node || (
    a.lowest_fee_to_peer_through_node == b.lowest_fee_to_peer_through_node && lex_less(
        a.pubkey@,
        b.pubkey@,
    ))
}

/// The order in which nodes are looked at is transitive.
pub proof fn lemma_served_before_transitive(a: RouteGraphNode, b: RouteGraphNode, c: RouteGraphNode)
    requires
        served_before(a, b),
        served_before(b, c),
    ensures
        served_before(a, c),
{
    if a.lowest_fee_to_peer_through_node == b.lowest_fee_to_peer_through_node
        && b.lowest_fee_to_peer_through_node == c.lowest_fee_to_peer_through_node {
        lemma_lex_less_transitive(a.pubkey@, b.pubkey@, c.pubkey@, 0);
    }
}

/// No node is looked at before itself.
pub proof fn lemma_served_before_irreflexive(a: RouteGraphNode)
    ensures
        !served_before(a, a),
{
    lemma_lex_less_irreflexive(a.pubkey@, 0);
}

impl RouteGraphNode {
    /// Whether this node is looked at before the other.
    pub fn precedes(&self, other: &RouteGraphNode) -> (r: bool)
        ensures
            r == served_before(*self, *other),
    {
        if self.lowest_fee_to_peer_through_node != other.lowest_fee_to_peer_through_node {
            self.lowest_fee_to_peer_through_node < other.lowest_fee_to_peer_through_node
        } else {
            self.pubkey.sorts_before(&other.pubkey)
        }
    }
}

/// The position of the node to look at next among the first `upto` waiting
/// nodes: the first that no other of them precedes.
pub open spec fn cheapest_upto(edges: Seq<RouteGraphNode>, upto: int) -> int
    decreases upto,
{
    if upto <= 1 {
        0
    } else {
        let best = cheapest_upto(edges, upto - 1);
        if served_before(edges[upto - 1], edges[best]) {
            upto - 1
        } else {
            best
        }
    }
}

/// The position of the node to look at next.
pub open spec fn cheapest(edges: Seq<RouteGraphNode>) -> int {
    cheapest_upto(edges, edges.len() as int)
}

/// The node to look at next is one of the waiting nodes.
pub proof fn lemma_cheapest_bounds(edges: Seq<RouteGraphNode>, upto: int)
    requires
        0 < upto <= edges.len(),
    ensures
        0 <= cheapest_upto(edges, upto) < upto,
    decreases upto,
{
    if upto > 1 {
        lemma_cheapest_bounds(edges, upto - 1);
    }
}

/// Takes out the node to look at next: the first that no other waiting node
/// precedes. The others keep their order.
pub fn pop_cheapest(edges: &mut Vec<RouteGraphNode>) -> (r: Option<RouteGraphNode>)
    ensures
        old(edges)@.len() == 0 ==> r is None && final(edges)@ == old(edges)@,
        old(edges)@.len() > 0 ==> {
            &&& 0 <= cheapest(old(edges)@) < old(edges)@.len()
            &&& r == Some(old(edges)@[cheapest(old(edges)@)])
            &&& final(edges)@ == old(edges)@.remove(cheapest(old(edges)@))
        },
        r is Some ==> forall|j: int|
            0 <= j < old(edges)@.len() ==> !served_before(#[trigger] old(edges)@[j], r->0),
{
    if edges.len() == 0 {
        return None;
    }
    let mut best: usize = 0;
    let mut j: usize = 1;
    proof {
        lemma_served_before_irreflexive(edges@[0]);
    }
    while j < edges.len()
        invariant
            edges@ == old(edges)@,
            0 <= best < j <= edges@.len(),
            best == cheapest_upto(edges@, j as int),
            forall|k: int| 0 <= k < j ==> !served_before(#[trigger] edges@[k], edges@[best as int]),
        decreases edges@.len() - j,
    {
        if edges[j].precedes(&edges[best]) {
            proof {
                assert forall|k: int| 0 <= k < j + 1 implies !served_before(
                    #[trigger] edges@[k],
                    edges@[j as int],
                ) by {
                    lemma_served_before_irreflexive(edges@[j as int]);
                    if k < j && served_before(edges@[k], edges@[j as int]) {
                        lemma_served_before_transitive(
                            edges@[k],
                            edges@[j as int],
                            edges@[best as int],
                        );
                    }
                }
            }
            best = j;
        }
        j = j + 1;
    }
    let node = edges.remove(best);
    Some(node)
}

/// What a channel can still carry.
#[derive(Clone, Copy, Debug)]
pub struct ChannelLiquidity {
    pub short_channel_id: u64,
    pub available_msat: u64,
}

/// The cheapest known channel out of `node` towards the payee.
#[derive(Clone, Debug)]
pub struct WeightedVertex {
    pub node: PublicKey,
    pub hop: PaymentHop,
}

/// A weighted vertex with its feature flags as plain byte strings.
pub struct WeightedVertexView {
    pub node: PublicKey,
    pub hop: PaymentHopView,
}

impl View for WeightedVertex {
    type V = WeightedVertexView;

    open spec fn view(&self) -> WeightedVertexView {
        WeightedVertexView { node: self.node, hop: self.hop@ }
    }
}

/// The state of a search, see the fields.
#[derive(Clone, Debug)]
pub struct RoutingState {
    /// The nodes still to be looked at.
    pub targeted_edges: Vec<RouteGraphNode>,
    /// For each node reached so far, the cheapest channel out of it.
    pub weighted_vertices: Vec<WeightedVertex>,
    /// Ourselves.
    pub payer_node_id: PublicKey,
    /// What each channel met so far can still carry. Paths of one payment do
    /// not share a channel's liquidity.
    pub bookkeeped_channels_liquidity_available_msat: Vec<ChannelLiquidity>,
    /// What the paths should carry together.
    pub recommended_value_msat: u64,
    /// What the paths found so far carry together.
    pub already_collected_value_msat: u64,
}

/// A search state with its feature flags as plain byte strings.
#[verifier::ext_equal]
pub struct RoutingStateView {
    pub targeted_edges: Seq<RouteGraphNode>,
    pub weighted_vertices: Seq<WeightedVertexView>,
    pub payer_node_id: PublicKey,
    pub liquidity: Seq<ChannelLiquidity>,
    pub recommended_value_msat: u64,
    pub already_collected_value_msat: u64,
}

impl View for RoutingState {
    type V = RoutingStateView;

    open spec fn view(&self) -> RoutingStateView {
        RoutingStateView {
            targeted_edges: self.targeted_edges@,
            weighted_vertices: Seq::new(
                self.weighted_vertices@.len(),
                |i: int| self.weighted_vertices@[i]@,
            ),
            payer_node_id: self.payer_node_id,
            liquidity: self.bookkeeped_channels_liquidity_available_msat@,
            recommended_value_msat: self.recommended_value_msat,
            already_collected_value_msat: self.already_collected_value_msat,
        }
    }
}

/// Whether `i` is the first position at which the liquidity of `scid` is kept.
pub open spec fn is_first_liquidity(liquidity: Seq<ChannelLiquidity>, scid: u64, i: int) -> bool {
    &&& 0 <= i < liquidity.len()
    &&& liquidity[i].short_channel_id == scid
    &&& forall|j: int| 0 <= j < i ==> liquidity[j].short_channel_id != scid
}

/// Whether the liquidity of `scid` is kept.
pub open spec fn has_liquidity(liquidity: Seq<ChannelLiquidity>, scid: u64) -> bool {
    exists|i: int| 0 <= i < liquidity.len() && liquidity[i].short_channel_id == scid
}

/// The first position at which the liquidity of `scid` is kept.
pub open spec fn liquidity_position(liquidity: Seq<ChannelLiquidity>, scid: u64) -> int {
    choose|i: int| is_first_liquidity(liquidity, scid, i)
}

/// Whether `i` is the first position of a vertex for `node`.
pub open spec fn is_first_vertex(vertices: Seq<WeightedVertexView>, node: PublicKey, i: int) -> bool {
    &&& 0 <= i < vertices.len()
    &&& vertices[i].node == node
    &&& forall|j: int| 0 <= j < i ==> vertices[j].node != node
}

/// Whether a vertex is kept for `node`.
pub open spec fn has_vertex(vertices: Seq<WeightedVertexView>, node: PublicKey) -> bool {
    exists|i: int| 0 <= i < vertices.len() && vertices[i].node == node
}

/// The first position of a vertex for `node`.
pub open spec fn vertex_position(vertices: Seq<WeightedVertexView>, node: PublicKey) -> int {
    choose|i: int| is_first_vertex(vertices, node, i)
}

/// What a channel is taken to carry when it is first met: the smaller of its
/// capacity and its limit on forwarded amounts, the one that is known, or a
/// fixed guess.
pub open spec fn initial_liquidity(capacity_sats: Option<u64>, htlc_maximum_msat: Option<u64>) -> int {
    match (capacity_sats, htlc_maximum_msat) {
        (Some(capacity), Some(maximum)) => if capped_mul_1000(capacity as int) < maximum {
            capped_mul_1000(capacity as int)
        } else {
            maximum as int
        },
        (Some(capacity), None) => capped_mul_1000(capacity as int),
        (None, Some(maximum)) => maximum as int,
        (None, None) => UNKNOWN_LIQUIDITY_MSAT as int,
    }
}

/// Satoshis in thousandths, held at the largest 64-bit value.
pub open spec fn capped_mul_1000(sats: int) -> int {
    if sats * 1000 > u64::MAX {
        u64::MAX as int
    } else {
        sats * 1000
    }
}

/// The lowest inbound fees that the graph holds for `node`; the largest fees
/// there are where it holds none.
pub open spec fn inbound_fees_of(nodes: Seq<NodeEntry>, node: PublicKey) -> RoutingFees {
    let worst = RoutingFees { base_msat: u32::MAX, proportional_millionths: u32::MAX };
    if has_node(nodes, node) {
        let i = choose|i: int| is_first_node(nodes, node, i);
        match nodes[i].info.lowest_inbound_channel_fees {
            Some(fees) => fees,
            None => worst,
        }
    } else {
        worst
    }
}

/// The liquidity kept after the channel `scid` has been met.
pub open spec fn liquidity_with(
    liquidity: Seq<ChannelLiquidity>,
    scid: u64,
    capacity_sats: Option<u64>,
    htlc_maximum_msat: Option<u64>,
) -> Seq<ChannelLiquidity> {
    if has_liquidity(liquidity, scid) {
        liquidity
    } else {
        liquidity.push(
            ChannelLiquidity {
                short_channel_id: scid,
                available_msat: initial_liquidity(capacity_sats, htlc_maximum_msat) as u64,
            },
        )
    }
}

/// What is still to be collected.
pub open spec fn value_left(state: RoutingStateView) -> int {
    if state.recommended_value_msat >= state.already_collected_value_msat {
        state.recommended_value_msat - state.already_collected_value_msat
    } else {
        0
    }
}

/// Whether a channel with `available` liquidity may serve on a path that pays
/// `following` in fees after it: it offers its share of what is still to be
/// collected, covers the fees after it, and can carry at least its minimum.
pub open spec fn edge_qualifies(
    state: RoutingStateView,
    available: int,
    following: int,
    htlc_minimum_msat: int,
) -> bool {
    let left = value_left(state);
    let amount = if available < left {
        available
    } else {
        left
    };
    available >= left / (CONTRIBUTION_RATIO as int) && available > following && amount
        >= htlc_minimum_msat
}

/// The vertex first kept for a node: no channel yet, at the highest cost.
pub open spec fn placeholder_vertex(
    src: PublicKey,
    dest: PublicKey,
    features: Seq<u8>,
    channel_fees: RoutingFees,
    inbound_fees: RoutingFees,
) -> WeightedVertexView {
    WeightedVertexView {
        node: src,
        hop: PaymentHopView {
            route_hop: RouteHopView {
                pubkey: dest,
                node_features: Seq::<u8>::empty(),
                short_channel_id: 0,
                channel_features: features,
                fee_msat: 0,
                cltv_expiry_delta: 0,
            },
            available_liquidity_msat: 0,
            src_lowest_inbound_fees: inbound_fees,
            channel_fees,
            following_hops_fees_msat: u64::MAX,
            hop_use_fee_msat: u64::MAX,
            prev_hop_use_estimate_fee_msat: u64::MAX,
        },
    }
}

/// The vertices kept once `src` has one: as before, or with a placeholder
/// for `src` at the end.
pub open spec fn vertices_with(
    vertices: Seq<WeightedVertexView>,
    src: PublicKey,
    placeholder: WeightedVertexView,
) -> Seq<WeightedVertexView> {
    if has_vertex(vertices, src) {
        vertices
    } else {
        vertices.push(placeholder)
    }
}

/// What a channel costs on the way to the payee.
pub struct EdgeCost {
    /// The fee for using the channel.
    pub hop_use: u64,
    /// The fees from the channel's source node to the payee.
    pub to_node: u64,
    /// The estimate of the fee for reaching the channel's source node.
    pub estimate: u64,
    /// The cost by which the channel is compared with others out of its
    /// source node.
    pub total: u64,
}

/// What a channel with `channel_fees` costs that carries `amount` and has
/// `following` in fees after it. Where the channel is our own, its fee and
/// the estimate for reaching its source are left out of the cost.
pub open spec fn edge_cost(
    amount: int,
    channel_fees: RoutingFees,
    following: int,
    inbound_fees: RoutingFees,
    ours: bool,
) -> EdgeCost {
    let hop_use = fee_for(amount, channel_fees);
    let to_node = capped_add(following, hop_use);
    let estimate = if ours {
        0
    } else {
        fee_for(capped_add(to_node, amount), inbound_fees)
    };
    let total = if ours {
        following
    } else {
        capped_add(to_node, estimate)
    };
    EdgeCost {
        hop_use: hop_use as u64,
        to_node: to_node as u64,
        estimate: estimate as u64,
        total: total as u64,
    }
}

/// The vertex of `src` once it has taken the channel `scid` to `dest`.
pub open spec fn vertex_through(
    known: PaymentHopView,
    scid: u64,
    src: PublicKey,
    dest: PublicKey,
    info: DirectionalChannelInfo,
    features: Seq<u8>,
    following: u64,
    available: u64,
    cost: EdgeCost,
) -> WeightedVertexView {
    WeightedVertexView {
        node: src,
        hop: PaymentHopView {
            route_hop: RouteHopView {
                pubkey: dest,
                node_features: Seq::<u8>::empty(),
                short_channel_id: scid,
                channel_features: features,
                fee_msat: 0,
                cltv_expiry_delta: info.cltv_expiry_delta as u32,
            },
            available_liquidity_msat: available,
            src_lowest_inbound_fees: known.src_lowest_inbound_fees,
            channel_fees: info.fees,
            following_hops_fees_msat: following,
            hop_use_fee_msat: cost.hop_use,
            prev_hop_use_estimate_fee_msat: cost.estimate,
        },
    }
}

/// The amount a channel is taken to carry: what it has, or what is still to
/// be collected if that is less.
pub open spec fn amount_over(state: RoutingStateView, available: u64) -> int {
    if available < value_left(state) {
        available as int
    } else {
        value_left(state)
    }
}

/// The search state after the qualifying channel `scid` from `src` to `dest`
/// has been weighed: `vertices` hold a vertex for `src` at `at`, and where
/// paying through this channel is cheaper than what that vertex holds, the
/// vertex takes the channel and `src` is queued.
pub open spec fn state_weighed(
    state: RoutingStateView,
    vertices: Seq<WeightedVertexView>,
    at: int,
    scid: u64,
    src: PublicKey,
    dest: PublicKey,
    info: DirectionalChannelInfo,
    features: Seq<u8>,
    following: u64,
    available: u64,
) -> RoutingStateView {
    let known = vertices[at].hop;
    let cost = edge_cost(
        amount_over(state, available),
        info.fees,
        following as int,
        known.src_lowest_inbound_fees,
        src == state.payer_node_id,
    );
    if known.fee_weight() > cost.total {
        RoutingStateView {
            targeted_edges: state.targeted_edges.push(
                RouteGraphNode {
                    pubkey: src,
                    lowest_fee_to_peer_through_node: cost.total,
                    lowest_fee_to_node: cost.to_node,
                },
            ),
            weighted_vertices: vertices.update(
                at,
                vertex_through(known, scid, src, dest, info, features, following, available, cost),
            ),
            ..state
        }
    } else {
        RoutingStateView { weighted_vertices: vertices, ..state }
    }
}

/// The search state after the channel `scid` from `src` to `dest` has been
/// offered as a way to reach `dest`, with `following` in fees after it.
///
/// The channel's liquidity is noted when it is first met. If the channel
/// qualifies, `src` gets a vertex if it had none, and the channel is weighed
/// against what that vertex holds.
pub open spec fn state_with_edge(
    state: RoutingStateView,
    scid: u64,
    src: PublicKey,
    dest: PublicKey,
    info: DirectionalChannelInfo,
    capacity_sats: Option<u64>,
    features: Seq<u8>,
    following: u64,
    nodes: Seq<NodeEntry>,
) -> RoutingStateView {
    let liquidity = liquidity_with(state.liquidity, scid, capacity_sats, info.htlc_maximum_msat);
    let available = liquidity[liquidity_position(liquidity, scid)].available_msat;
    let noted = RoutingStateView { liquidity, ..state };
    if !edge_qualifies(state, available as int, following as int, info.htlc_minimum_msat as int) {
        noted
    } else {
        let vertices = vertices_with(
            state.weighted_vertices,
            src,
            placeholder_vertex(src, dest, features, info.fees, inbound_fees_of(nodes, src)),
        );
        state_weighed(
            noted,
            vertices,
            vertex_position(vertices, src),
            scid,
            src,
            dest,
            info,
            features,
            following,
            available,
        )
    }
}

/// Fees for forwarding fit in 64 bits.
pub proof fn lemma_fee_for_bounds(amount: int, fees: RoutingFees)
    requires
        0 <= amount,
    ensures
        0 <= fee_for(amount, fees) <= u64::MAX,
{
    assert(0 <= amount * fees.proportional_millionths) by (nonlinear_arith)
        requires
            0 <= amount,
            0 <= fees.proportional_millionths,
    ;
}

impl RoutingState {
    /// The state at the start of a search by `payer_node_id` for paths that
    /// carry `recommended_value_msat` together.
    pub fn new(graph_size: usize, payer_node_id: PublicKey, recommended_value_msat: u64) -> (s:
        RoutingState)
        ensures
            s@ == (RoutingStateView {
                targeted_edges: Seq::empty(),
                weighted_vertices: Seq::empty(),
                payer_node_id,
                liquidity: Seq::empty(),
                recommended_value_msat,
                already_collected_value_msat: 0,
            }),
    {
        let s = RoutingState {
            targeted_edges: Vec::new(),
            weighted_vertices: Vec::with_capacity(graph_size),
            payer_node_id,
            bookkeeped_channels_liquidity_available_msat: Vec::new(),
            recommended_value_msat,
            already_collected_value_msat: 0,
        };
        assert(s@.weighted_vertices =~= Seq::empty());
        s
    }

    /// The first position at which the liquidity of `scid` is kept.
    pub fn liquidity_index(&self, scid: u64) -> (r: Option<usize>)
        ensures
            match r {
                Some(i) => is_first_liquidity(self@.liquidity, scid, i as int),
                None => !has_liquidity(self@.liquidity, scid),
            },
    {
        let mut i: usize = 0;
        while i < self.bookkeeped_channels_liquidity_available_msat.len()
            invariant
                i <= self@.liquidity.len(),
                forall|j: int| 0 <= j < i ==> self@.liquidity[j].short_channel_id != scid,
            decreases self@.liquidity.len() - i,
        {
            if self.bookkeeped_channels_liquidity_available_msat[i].short_channel_id == scid {
                return Some(i);
            }
            i = i + 1;
        }
        None
    }

    /// The first position of a vertex for `node`.
    pub fn vertex_index(&self, node: &PublicKey) -> (r: Option<usize>)
        ensures
            match r {
                Some(i) => is_first_vertex(self@.weighted_vertices, *node, i as int),
                None => !has_vertex(self@.weighted_vertices, *node),
            },
    {
        let mut i: usize = 0;
        while i < self.weighted_vertices.len()
            invariant
                i <= self.weighted_vertices@.len(),
                forall|j: int| 0 <= j < i ==> self@.weighted_vertices[j].node != *node,
            decreases self.weighted_vertices@.len() - i,
        {
            if self.weighted_vertices[i].node.same(node) {
                assert(self@.weighted_vertices[i as int].node == *node);
                return Some(i);
            }
            assert(self@.weighted_vertices[i as int].node != *node);
            i = i + 1;
        }
        None
    }

    /// Notes what the channel `scid` can carry, if it is met for the first
    /// time, and gives what it can still carry.
    pub fn note_liquidity(
        &mut self,
        scid: u64,
        capacity_sats: Option<u64>,
        htlc_maximum_msat: Option<u64>,
    ) -> (available: u64)
        ensures
            final(self)@ == (RoutingStateView {
                liquidity: liquidity_with(old(self)@.liquidity, scid, capacity_sats, htlc_maximum_msat),
                ..old(self)@
            }),
            available == final(self)@.liquidity[liquidity_position(
                final(self)@.liquidity,
                scid,
            )].available_msat,
    {
        let at = match self.liquidity_index(scid) {
            Some(i) => i,
            None => {
                let from_capacity: Option<u64> = match capacity_sats {
                    Some(capacity) => match capacity.checked_mul(1000) {
                        Some(msat) => Some(msat),
                        None => Some(u64::MAX),
                    },
                    None => None,
                };
                let initial: u64 = match (from_capacity, htlc_maximum_msat) {
                    (Some(available), Some(maximum)) => if available < maximum {
                        available
                    } else {
                        maximum
                    },
                    (Some(available), None) => available,
                    (None, Some(maximum)) => maximum,
                    (None, None) => UNKNOWN_LIQUIDITY_MSAT,
                };
                self.bookkeeped_channels_liquidity_available_msat.push(
                    ChannelLiquidity { short_channel_id: scid, available_msat: initial },
                );
                self.bookkeeped_channels_liquidity_available_msat.len() - 1
            },
        };
        proof {
            assert(self@.weighted_vertices =~= old(self)@.weighted_vertices);
            assert(is_first_liquidity(self@.liquidity, scid, at as int));
        }
        self.bookkeeped_channels_liquidity_available_msat[at].available_msat
    }

    /// Makes sure that `src` has a vertex, and gives its position. A new
    /// vertex is a placeholder at the highest cost.
    pub fn vertex_for(
        &mut self,
        src: &PublicKey,
        dest: &PublicKey,
        features: &ChannelFeatures,
        channel_fees: RoutingFees,
        network: &NetworkGraph,
    ) -> (at: usize)
        ensures
            final(self)@ == (RoutingStateView {
                weighted_vertices: vertices_with(
                    old(self)@.weighted_vertices,
                    *src,
                    placeholder_vertex(
                        *src,
                        *dest,
                        features@,
                        channel_fees,
                        inbound_fees_of(network.nodes@, *src),
                    ),
                ),
                ..old(self)@
            }),
            at == vertex_position(final(self)@.weighted_vertices, *src),
            is_first_vertex(final(self)@.weighted_vertices, *src, at as int),
            at < final(self).weighted_vertices@.len(),
    {
        match self.vertex_index(src) {
            Some(i) => i,
            None => {
                let worst = RoutingFees { base_msat: u32::MAX, proportional_millionths: u32::MAX };
                let inbound = match network.get_node(src) {
                    Some(node) => match node.lowest_inbound_channel_fees {
                        Some(fees) => fees,
                        None => worst,
                    },
                    None => worst,
                };
                self.weighted_vertices.push(
                    WeightedVertex {
                        node: *src,
                        hop: PaymentHop {
                            route_hop: RouteHop {
                                pubkey: *dest,
                                node_features: NodeFeatures::empty(),
                                short_channel_id: 0,
                                channel_features: features.duplicate(),
                                fee_msat: 0,
                                cltv_expiry_delta: 0,
                            },
                            available_liquidity_msat: 0,
                            src_lowest_inbound_fees: inbound,
                            channel_fees,
                            following_hops_fees_msat: u64::MAX,
                            hop_use_fee_msat: u64::MAX,
                            prev_hop_use_estimate_fee_msat: u64::MAX,
                        },
                    },
                );
                let at = self.weighted_vertices.len() - 1;
                proof {
                    let placeholder = placeholder_vertex(
                        *src,
                        *dest,
                        features@,
                        channel_fees,
                        inbound_fees_of(network.nodes@, *src),
                    );
                    assert(self@.weighted_vertices =~= old(self)@.weighted_vertices.push(
                        placeholder,
                    ));
                    assert(is_first_vertex(self@.weighted_vertices, *src, at as int));
                }
                at
            },
        }
    }

    /// What the channel costs that carries `amount_msat` into the vertex at
    /// `at`.
    pub fn cost_of_edge(
        &self,
        at: usize,
        src: &PublicKey,
        amount_msat: u64,
        channel_fees: RoutingFees,
        following_hops_fees_msat: u64,
    ) -> (cost: EdgeCost)
        requires
            at < self.weighted_vertices@.len(),
        ensures
            cost == edge_cost(
                amount_msat as int,
                channel_fees,
                following_hops_fees_msat as int,
                self@.weighted_vertices[at as int].hop.src_lowest_inbound_fees,
                *src == self.payer_node_id,
            ),
    {
        proof {
            lemma_fee_for_bounds(amount_msat as int, channel_fees);
        }
        let hop_use = compute_fees(amount_msat, channel_fees);
        let to_node = following_hops_fees_msat.saturating_add(hop_use);
        if src.same(&self.payer_node_id) {
            EdgeCost { hop_use, to_node, estimate: 0, total: following_hops_fees_msat }
        } else {
            let inbound = self.weighted_vertices[at].hop.src_lowest_inbound_fees;
            proof {
                lemma_fee_for_bounds(capped_add(to_node as int, amount_msat as int), inbound);
            }
            let estimate = compute_fees(to_node.saturating_add(amount_msat), inbound);
            EdgeCost { hop_use, to_node, estimate, total: to_node.saturating_add(estimate) }
        }
    }

    /// Weighs the qualifying channel `scid` against what the vertex at `at`
    /// holds for `src`.
    pub fn weigh_edge(
        &mut self,
        at: usize,
        scid: u64,
        src: &PublicKey,
        dest: &PublicKey,
        info: &DirectionalChannelInfo,
        features: ChannelFeatures,
        following_hops_fees_msat: u64,
        available: u64,
    )
        requires
            at < old(self).weighted_vertices@.len(),
        ensures
            final(self)@ == state_weighed(
                old(self)@,
                old(self)@.weighted_vertices,
                at as int,
                scid,
                *src,
                *dest,
                *info,
                features@,
                following_hops_fees_msat,
                available,
            ),
    {
        let left = if self.recommended_value_msat >= self.already_collected_value_msat {
            self.recommended_value_msat - self.already_collected_value_msat
        } else {
            0
        };
        let amount = if available < left {
            available
        } else {
            left
        };
        let cost = self.cost_of_edge(at, src, amount, info.fees, following_hops_fees_msat);
        if self.weighted_vertices[at].hop.get_fee_weight_msat() > cost.total {
            self.targeted_edges.push(
                RouteGraphNode {
                    pubkey: *src,
                    lowest_fee_to_peer_through_node: cost.total,
                    lowest_fee_to_node: cost.to_node,
                },
            );
            let inbound = self.weighted_vertices[at].hop.src_lowest_inbound_fees;
            self.weighted_vertices[at] = WeightedVertex {
                node: *src,
                hop: PaymentHop {
                    route_hop: RouteHop {
                        pubkey: *dest,
                        node_features: NodeFeatures::empty(),
                        short_channel_id: scid,
                        channel_features: features,
                        fee_msat: 0,
                        cltv_expiry_delta: info.cltv_expiry_delta as u32,
                    },
                    available_liquidity_msat: available,
                    src_lowest_inbound_fees: inbound,
                    channel_fees: info.fees,
                    following_hops_fees_msat,
                    hop_use_fee_msat: cost.hop_use,
                    prev_hop_use_estimate_fee_msat: cost.estimate,
                },
            };
            proof {
                let after = state_weighed(
                    old(self)@,
                    old(self)@.weighted_vertices,
                    at as int,
                    scid,
                    *src,
                    *dest,
                    *info,
                    features@,
                    following_hops_fees_msat,
                    available,
                );
                assert(self@.weighted_vertices =~= after.weighted_vertices);
            }
        } else {
            proof {
                assert(self@.weighted_vertices =~= old(self)@.weighted_vertices);
            }
        }
    }

    /// Offers the channel `scid`, which goes from `src_node_id` to
    /// `dest_node_id`, as a way to reach `dest_node_id`.
    /// `following_hops_fees_msat` is what is paid in fees after this channel
    /// on the way to the payee.
    pub fn add_vertice(
        &mut self,
        scid: u64,
        src_node_id: &PublicKey,
        dest_node_id: &PublicKey,
        directional_info: &DirectionalChannelInfo,
        capacity_sats: Option<u64>,
        features: ChannelFeatures,
        following_hops_fees_msat: u64,
        network: &NetworkGraph,
    )
        ensures
            final(self)@ == state_with_edge(
                old(self)@,
                scid,
                *src_node_id,
                *dest_node_id,
                *directional_info,
                capacity_sats,
                features@,
                following_hops_fees_msat,
                network.nodes@,
            ),
    {
        let available_liquidity_msat = self.note_liquidity(
            scid,
            capacity_sats,
            directional_info.htlc_maximum_msat,
        );
        let value_left_to_collect_msat = if self.recommended_value_msat
            >= self.already_collected_value_msat {
            self.recommended_value_msat - self.already_collected_value_msat
        } else {
            0
        };
        let minimal_liquidity_contribution_msat: u64 = value_left_to_collect_msat
            / CONTRIBUTION_RATIO;
        let has_sufficient_liquidity = available_liquidity_msat
            >= minimal_liquidity_contribution_msat;
        let can_cover_following_hops = available_liquidity_msat > following_hops_fees_msat;
        let amount_to_transfer_over_msat: u64 = if available_liquidity_msat
            < value_left_to_collect_msat {
            available_liquidity_msat
        } else {
            value_left_to_collect_msat
        };
        if has_sufficient_liquidity && can_cover_following_hops && amount_to_transfer_over_msat
            >= directional_info.htlc_minimum_msat {
            let at = self.vertex_for(
                src_node_id,
                dest_node_id,
                &features,
                directional_info.fees,
                network,
            );
            self.weigh_edge(
                at,
                scid,
                src_node_id,
                dest_node_id,
                directional_info,
                features,
                following_hops_fees_msat,
                available_liquidity_msat,
            );
        }
    }
}

} // verus!
