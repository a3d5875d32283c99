//! A candidate path with the fees along it. The search walks from the payee
//! back to the payer, so a hop's fees are known only once the hops after it
//! are: they are worked out for the path as a whole.

use crate::network_graph::RoutingFees;
use crate::routing::route::{RouteHop, RouteHopView};
use vstd::prelude::*;

verus! {

/// `a + b`, held at the largest 64-bit value.
pub open spec fn capped_add(a: int, b: int) -> int {
    if a + b > u64::MAX {
        u64::MAX as int
    } else {
        a + b
    }
}

/// The fee for forwarding `amount_msat` over a channel that charges `fees`:
/// the flat part plus the millionths of the amount, rounded down. Where the
/// product or the sum does not fit in 64 bits, the largest 64-bit value.
pub open spec fn fee_for(amount_msat: int, fees: RoutingFees) -> int {
    let product = amount_msat * fees.proportional_millionths;
    if product > u64::MAX {
        u64::MAX as int
    } else {
        capped_add(fees.base_msat as int, product / 1_000_000)
    }
}

/// The fee for forwarding `amount_msat` over a channel that charges
/// `channel_fees`.
pub fn compute_fees(amount_msat: u64, channel_fees: RoutingFees) -> (fee: u64)
    ensures
        fee == fee_for(amount_msat as int, channel_fees),
{
    match amount_msat.checked_mul(channel_fees.proportional_millionths as u64) {
        Some(product) => {
            let base: u64 = channel_fees.base_msat as u64;
            match base.checked_add(product / 1_000_000) {
                Some(fee) => fee,
                None => u64::MAX,
            }
        },
        None => u64::MAX,
    }
}

/// A channel on a candidate path, with the fees that using it costs.
#[derive(Clone, Debug)]
pub struct PaymentHop {
    /// The hop as it will stand in the route: the node the channel leads to.
    pub route_hop: RouteHop,
    /// What the channel can still carry, before the fees paid over it.
    pub available_liquidity_msat: u64,
    /// The lowest fees of the channels into the channel's source node.
    pub src_lowest_inbound_fees: RoutingFees,
    /// The fees of this channel.
    pub channel_fees: RoutingFees,
    /// All fees paid after this channel on the way to the payee.
    pub following_hops_fees_msat: u64,
    /// The fee for using this channel; it is paid at the hop before.
    pub hop_use_fee_msat: u64,
    /// An estimate of the fee for reaching this channel's source node.
    pub prev_hop_use_estimate_fee_msat: u64,
}

/// A path hop with its feature flags as plain byte strings.
pub struct PaymentHopView {
    pub route_hop: RouteHopView,
    pub available_liquidity_msat: u64,
    pub src_lowest_inbound_fees: RoutingFees,
    pub channel_fees: RoutingFees,
    pub following_hops_fees_msat: u64,
    pub hop_use_fee_msat: u64,
    pub prev_hop_use_estimate_fee_msat: u64,
}

impl View for PaymentHop {
    type V = PaymentHopView;

    open spec fn view(&self) -> PaymentHopView {
        PaymentHopView {
            route_hop: self.route_hop@,
            available_liquidity_msat: self.available_liquidity_msat,
            src_lowest_inbound_fees: self.src_lowest_inbound_fees,
            channel_fees: self.channel_fees,
            following_hops_fees_msat: self.following_hops_fees_msat,
            hop_use_fee_msat: self.hop_use_fee_msat,
            prev_hop_use_estimate_fee_msat: self.prev_hop_use_estimate_fee_msat,
        }
    }
}

impl PaymentHopView {
    /// What choosing this channel costs in fees: its own fee, the estimate
    /// for reaching it and the fees after it, held at the largest 64-bit
    /// value.
    pub open spec fn fee_weight(self) -> int {
        capped_add(
            capped_add(self.hop_use_fee_msat as int, self.prev_hop_use_estimate_fee_msat as int),
            self.following_hops_fees_msat as int,
        )
    }

    /// What is sent over this channel beyond the hop's own forwarding: the
    /// fees after it and what the hop hands on, held at the largest 64-bit
    /// value.
    pub open spec fn fee_paid(self) -> int {
        capped_add(self.following_hops_fees_msat as int, self.route_hop.fee_msat as int)
    }
}

impl PaymentHop {
    /// How attractive the channel is by the fees it costs.
    pub fn get_fee_weight_msat(&self) -> (w: u64)
        ensures
            w == self@.fee_weight(),
    {
        match self.hop_use_fee_msat.checked_add(self.prev_hop_use_estimate_fee_msat) {
            Some(fee_msat) => match fee_msat.checked_add(self.following_hops_fees_msat) {
                Some(total_fee_msat) => total_fee_msat,
                None => u64::MAX,
            },
            None => u64::MAX,
        }
    }

    /// What is sent over the channel for the hops after it. It is meaningful
    /// once the fees have been moved to the hops that pay them.
    pub fn get_fee_paid_msat(&self) -> (p: u64)
        ensures
            p == self@.fee_paid(),
    {
        match self.following_hops_fees_msat.checked_add(self.route_hop.fee_msat) {
            Some(fee_paid_msat) => fee_paid_msat,
            None => u64::MAX,
        }
    }

    /// A copy of the hop.
    pub fn duplicate(&self) -> (r: PaymentHop)
        ensures
            r@ == self@,
    {
        PaymentHop {
            route_hop: self.route_hop.duplicate(),
            available_liquidity_msat: self.available_liquidity_msat,
            src_lowest_inbound_fees: self.src_lowest_inbound_fees,
            channel_fees: self.channel_fees,
            following_hops_fees_msat: self.following_hops_fees_msat,
            hop_use_fee_msat: self.hop_use_fee_msat,
            prev_hop_use_estimate_fee_msat: self.prev_hop_use_estimate_fee_msat,
        }
    }
}

/// A path from the payer to the payee, first hop first.
#[derive(Clone, Debug)]
pub struct PaymentPath {
    pub hops: Vec<PaymentHop>,
}

impl View for PaymentPath {
    type V = Seq<PaymentHopView>;

    open spec fn view(&self) -> Seq<PaymentHopView> {
        Seq::new(self.hops@.len(), |i: int| self.hops@[i]@)
    }
}

/// The fees of all channels after hop `i` when the path carries `value_msat`:
/// each channel after it forwards the value and the fees after itself.
pub open spec fn fees_after(hops: Seq<PaymentHopView>, value_msat: u64, i: int) -> int
    decreases hops.len() - i,
{
    if i < 0 || i + 1 >= hops.len() {
        0
    } else {
        let later = fees_after(hops, value_msat, i + 1);
        capped_add(later, fee_for(capped_add(later, value_msat as int), hops[i + 1].channel_fees))
    }
}

/// The fee for using the channel of hop `i` when the path carries
/// `value_msat`.
pub open spec fn use_fee(hops: Seq<PaymentHopView>, value_msat: u64, i: int) -> int {
    fee_for(capped_add(fees_after(hops, value_msat, i), value_msat as int), hops[i].channel_fees)
}

/// Hop `i` of a path once the path carries `value_msat`. The first hop keeps
/// the fees it was found with; every hop hands on the fee of the channel
/// after it, the last one the value itself.
pub open spec fn hop_carrying(hops: Seq<PaymentHopView>, value_msat: u64, i: int) -> PaymentHopView {
    let hop = hops[i];
    PaymentHopView {
        route_hop: RouteHopView {
            fee_msat: if i + 1 == hops.len() {
                value_msat
            } else {
                use_fee(hops, value_msat, i + 1) as u64
            },
            ..hop.route_hop
        },
        following_hops_fees_msat: if i >= 1 {
            fees_after(hops, value_msat, i) as u64
        } else {
            hop.following_hops_fees_msat
        },
        hop_use_fee_msat: if i >= 1 {
            use_fee(hops, value_msat, i) as u64
        } else {
            hop.hop_use_fee_msat
        },
        ..hop
    }
}

/// A path once it carries `value_msat`.
pub open spec fn path_carrying(hops: Seq<PaymentHopView>, value_msat: u64) -> Seq<PaymentHopView> {
    Seq::new(hops.len(), |i: int| hop_carrying(hops, value_msat, i))
}

/// The fees after a hop fit in 64 bits.
pub proof fn lemma_fees_after_bounds(hops: Seq<PaymentHopView>, value_msat: u64, i: int)
    ensures
        0 <= fees_after(hops, value_msat, i) <= u64::MAX,
        0 <= use_fee(hops, value_msat, i) <= u64::MAX,
    decreases hops.len() - i,
{
    if !(i < 0 || i + 1 >= hops.len()) {
        lemma_fees_after_bounds(hops, value_msat, i + 1);
    }
    let later = fees_after(hops, value_msat, i);
    let amount = capped_add(later, value_msat as int);
    let fees = hops[i].channel_fees;
    assert(0 <= amount * fees.proportional_millionths) by (nonlinear_arith)
        requires
            0 <= amount,
            0 <= fees.proportional_millionths,
    ;
    if !(i < 0 || i + 1 >= hops.len()) {
        let l2 = fees_after(hops, value_msat, i + 1);
        let a2 = capped_add(l2, value_msat as int);
        let f2 = hops[i + 1].channel_fees;
        assert(0 <= a2 * f2.proportional_millionths) by (nonlinear_arith)
            requires
                0 <= a2,
                0 <= f2.proportional_millionths,
        ;
    }
}

impl PaymentPath {
    /// The amount the path delivers.
    pub fn get_value_msat(&self) -> (v: u64)
        requires
            self.hops@.len() > 0,
        ensures
            v == self@.last().route_hop.fee_msat,
    {
        self.hops[self.hops.len() - 1].route_hop.fee_msat
    }

    /// The fees paid along the path, as the first hop holds them; nothing on
    /// a path without hops.
    pub fn get_total_fee_paid_msat(&self) -> (f: u64)
        ensures
            f == if self@.len() == 0 {
                0
            } else {
                self@[0].following_hops_fees_msat
            },
    {
        if self.hops.len() < 1 {
            0
        } else {
            self.hops[0].following_hops_fees_msat
        }
    }

    /// Makes the path carry `value_msat` and works out the fees anew, from
    /// the payee back.
    pub fn update_value_and_recompute_fees(&mut self, value_msat: u64)
        requires
            old(self).hops@.len() > 0,
        ensures
            final(self)@ == path_carrying(old(self)@, value_msat),
    {
        let ghost before = self@;
        let n = self.hops.len();
        let mut total_fee_paid_msat: u64 = 0;
        let mut i: usize = n - 1;
        while i >= 1
            invariant
                n == before.len(),
                self.hops@.len() == n,
                n > 0,
                i < n,
                total_fee_paid_msat == fees_after(before, value_msat, i as int),
                forall|j: int| 0 <= j <= i ==> (#[trigger] self.hops@[j])@ == before[j],
                forall|j: int|
                    i < j < n ==> (#[trigger] self.hops@[j])@ == (PaymentHopView {
                        following_hops_fees_msat: fees_after(before, value_msat, j) as u64,
                        hop_use_fee_msat: use_fee(before, value_msat, j) as u64,
                        ..before[j]
                    }),
            decreases i,
        {
            proof {
                lemma_fees_after_bounds(before, value_msat, i as int);
                lemma_fees_after_bounds(before, value_msat, i as int - 1);
            }
            let cur_hop_amount_msat = total_fee_paid_msat.saturating_add(value_msat);
            self.hops[i].following_hops_fees_msat = total_fee_paid_msat;
            let new_fee = compute_fees(cur_hop_amount_msat, self.hops[i].channel_fees);
            self.hops[i].hop_use_fee_msat = new_fee;
            total_fee_paid_msat = total_fee_paid_msat.saturating_add(new_fee);
            i = i - 1;
        }
        let mut k: usize = 0;
        while k < n - 1
            invariant
                n == before.len(),
                self.hops@.len() == n,
                n > 0,
                k <= n - 1,
                forall|j: int|
                    0 <= j < k ==> (#[trigger] self.hops@[j])@ == hop_carrying(
                        before,
                        value_msat,
                        j,
                    ),
                forall|j: int|
                    k <= j < n && j >= 1 ==> (#[trigger] self.hops@[j])@ == (PaymentHopView {
                        following_hops_fees_msat: fees_after(before, value_msat, j) as u64,
                        hop_use_fee_msat: use_fee(before, value_msat, j) as u64,
                        ..before[j]
                    }),
                k == 0 ==> self.hops@[0]@ == before[0],
            decreases n - k,
        {
            let next_hop_use_fee_msat = self.hops[k + 1].hop_use_fee_msat;
            self.hops[k].route_hop.fee_msat = next_hop_use_fee_msat;
            k = k + 1;
        }
        self.hops[n - 1].route_hop.fee_msat = value_msat;
        assert(self@ =~= path_carrying(before, value_msat));
    }

    /// A copy of the path.
    pub fn duplicate(&self) -> (r: PaymentPath)
        ensures
            r@ == self@,
    {
        let mut hops: Vec<PaymentHop> = Vec::new();
        let mut i: usize = 0;
        while i < self.hops.len()
            invariant
                i <= self.hops@.len(),
                hops@.len() == i,
                forall|j: int| 0 <= j < i ==> (#[trigger] hops@[j])@ == self.hops@[j]@,
            decreases self.hops@.len() - i,
        {
            hops.push(self.hops[i].duplicate());
            i = i + 1;
        }
        let r = PaymentPath { hops };
        assert(r@ =~= self@);
        r
    }
}

} // verus!
