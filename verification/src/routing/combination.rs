//! What the combination of paths into a route comes to, step by step: the
//! order of the paths, the cut that makes them carry the payment exactly, the
//! routes drawn in a circle, and the choice among them.

use crate::routing::payment_path::{PaymentHopView, PaymentPath, path_carrying};
use crate::routing::route::RouteHopView;
use vstd::prelude::*;

verus! {

/// No more than this many paths, the cheapest, are combined into routes.
pub const MAX_PATHS: usize = 50;

/// What paths are ordered by.
#[derive(Clone, Copy, Debug, PartialEq, Eq, Structural)]
pub enum PathKey {
    /// The fees paid along the path.
    TotalFee,
    /// What the path delivers.
    Value,
    /// The parts per million charged along the path, added up.
    ProportionalFees,
}

/// The paths with their feature flags as plain byte strings.
pub open spec fn views(paths: Seq<PaymentPath>) -> Seq<Seq<PaymentHopView>> {
    Seq::new(paths.len(), |i: int| paths[i]@)
}

/// What a path delivers.
pub open spec fn view_value(path: Seq<PaymentHopView>) -> int {
    path.last().route_hop.fee_msat as int
}

/// The parts per million charged along a path, added up.
pub open spec fn proportional_fees(hops: Seq<PaymentHopView>, upto: int) -> int
    decreases upto,
{
    if upto <= 0 {
        0
    } else {
        proportional_fees(hops, upto - 1) + hops[upto - 1].channel_fees.proportional_millionths
    }
}

/// The key of a path under `kind`; sums are held at the largest 64-bit value.
pub open spec fn view_key(path: Seq<PaymentHopView>, kind: PathKey) -> int {
    match kind {
        PathKey::TotalFee => if path.len() == 0 {
            0
        } else {
            path[0].following_hops_fees_msat as int
        },
        PathKey::Value => view_value(path),
        PathKey::ProportionalFees => if proportional_fees(path, path.len() as int) > u64::MAX {
            u64::MAX as int
        } else {
            proportional_fees(path, path.len() as int)
        },
    }
}

/// Where a path with `key` goes in ordered paths: behind the last path
/// whose key is no larger.
pub open spec fn insert_position(sorted: Seq<Seq<PaymentHopView>>, kind: PathKey, key: int) -> int
    decreases sorted.len(),
{
    if sorted.len() == 0 {
        0
    } else if view_key(sorted.last(), kind) <= key {
        sorted.len() as int
    } else {
        insert_position(sorted.drop_last(), kind, key)
    }
}

/// The first `upto` paths in ascending order of their keys; paths with one
/// key keep their order.
pub open spec fn sorted_upto(paths: Seq<Seq<PaymentHopView>>, kind: PathKey, upto: int) -> Seq<
    Seq<PaymentHopView>,
>
    decreases upto,
{
    if upto <= 0 {
        Seq::empty()
    } else {
        let before = sorted_upto(paths, kind, upto - 1);
        before.insert(
            insert_position(before, kind, view_key(paths[upto - 1], kind)),
            paths[upto - 1],
        )
    }
}

/// The paths in ascending order of their keys; paths with one key keep
/// their order.
pub open spec fn sorted_paths(paths: Seq<Seq<PaymentHopView>>, kind: PathKey) -> Seq<
    Seq<PaymentHopView>,
> {
    sorted_upto(paths, kind, paths.len() as int)
}

/// The paths and what they deliver too much once small paths have been
/// dropped from position `idx` on: a path goes, as long as more than one
/// is left, where it delivers no more than is delivered too much.
pub open spec fn dropped(paths: Seq<Seq<PaymentHopView>>, overpaid: int, idx: int) -> (
    Seq<Seq<PaymentHopView>>,
    int,
)
    decreases paths.len() - idx,
{
    if idx < 0 || idx >= paths.len() || paths.len() <= 1 {
        (paths, overpaid)
    } else if view_value(paths[idx]) <= overpaid {
        dropped(paths.remove(idx), overpaid - view_value(paths[idx]), idx)
    } else {
        dropped(paths, overpaid, idx + 1)
    }
}

/// The paths once they have been cut down by `overpaid`: the smallest are
/// dropped whole as far as that does not take away too much; what is then
/// still too much comes off the last of the paths that charge the most parts
/// per million.
pub open spec fn trimmed(paths: Seq<Seq<PaymentHopView>>, overpaid: int) -> Seq<
    Seq<PaymentHopView>,
> {
    let smallest_first = dropped(sorted_paths(paths, PathKey::Value), overpaid, 0);
    if smallest_first.1 == 0 {
        smallest_first.0
    } else {
        let by_cost = sorted_paths(smallest_first.0, PathKey::ProportionalFees);
        by_cost.update(
            by_cost.len() - 1,
            path_carrying(by_cost.last(), (view_value(by_cost.last()) - smallest_first.1) as u64),
        )
    }
}

/// The position of the path that comes `count` places behind `start` in a
/// circle of `n` paths.
pub open spec fn circle_index(n: int, start: int, count: int) -> int {
    if start + count < n {
        start + count
    } else {
        start + count - n
    }
}

/// The route drawn once the first `count` paths of the circle from `start`
/// stand in `so_far` and deliver `aggregate` together: paths are added
/// until they deliver `final_value_msat`, and are then cut down to it.
pub open spec fn draw_from(
    paths: Seq<Seq<PaymentHopView>>,
    start: int,
    final_value_msat: u64,
    count: int,
    so_far: Seq<Seq<PaymentHopView>>,
    aggregate: int,
) -> Seq<Seq<PaymentHopView>>
    decreases paths.len() - count,
{
    if count < 0 || count >= paths.len() {
        so_far
    } else {
        let path = paths[circle_index(paths.len() as int, start, count)];
        let total = aggregate + view_value(path);
        if total >= final_value_msat {
            trimmed(so_far.push(path), total - final_value_msat)
        } else {
            draw_from(paths, start, final_value_msat, count + 1, so_far.push(path), total)
        }
    }
}

/// The route drawn from the paths in a circle from `start` on.
pub open spec fn drawn(paths: Seq<Seq<PaymentHopView>>, start: int, final_value_msat: u64) -> Seq<
    Seq<PaymentHopView>,
> {
    draw_from(paths, start, final_value_msat, 0, Seq::empty(), 0)
}

/// The fees paid along the first `upto` paths, added up.
pub open spec fn fee_sum(paths: Seq<Seq<PaymentHopView>>, upto: int) -> int
    decreases upto,
{
    if upto <= 0 {
        0
    } else {
        fee_sum(paths, upto - 1) + view_key(paths[upto - 1], PathKey::TotalFee)
    }
}

/// The fees paid along a route.
pub open spec fn route_fee(paths: Seq<Seq<PaymentHopView>>) -> int {
    fee_sum(paths, paths.len() as int)
}

/// The first of the first `upto` starts whose route pays the least in fees.
pub open spec fn best_start(paths: Seq<Seq<PaymentHopView>>, final_value_msat: u64, upto: int) -> int
    decreases upto,
{
    if upto <= 1 {
        0
    } else {
        let best = best_start(paths, final_value_msat, upto - 1);
        if route_fee(drawn(paths, upto - 1, final_value_msat)) < route_fee(
            drawn(paths, best, final_value_msat),
        ) {
            upto - 1
        } else {
            best
        }
    }
}

/// The paths that are combined: the cheapest fifty.
pub open spec fn cheapest_paths(paths: Seq<Seq<PaymentHopView>>) -> Seq<Seq<PaymentHopView>> {
    let by_fee = sorted_paths(paths, PathKey::TotalFee);
    if by_fee.len() > MAX_PATHS {
        by_fee.subrange(0, MAX_PATHS as int)
    } else {
        by_fee
    }
}

/// The route chosen from the paths: of the routes drawn from the cheapest
/// fifty paths, one from each start, the first that pays the least in fees.
pub open spec fn chosen(paths: Seq<Seq<PaymentHopView>>, final_value_msat: u64) -> Seq<
    Seq<PaymentHopView>,
> {
    let kept = cheapest_paths(paths);
    drawn(kept, best_start(kept, final_value_msat, kept.len() as int), final_value_msat)
}

/// The hops of the paths, as a route lists them.
pub open spec fn route_hops(paths: Seq<Seq<PaymentHopView>>) -> Seq<Seq<RouteHopView>> {
    Seq::new(
        paths.len(),
        |i: int| Seq::new(paths[i].len(), |k: int| paths[i][k].route_hop),
    )
}

/// Taking a path out of paths takes its view out of their views.
pub proof fn lemma_views_remove(paths: Seq<PaymentPath>, i: int)
    requires
        0 <= i < paths.len(),
    ensures
        views(paths.remove(i)) == views(paths).remove(i),
{
    assert(views(paths.remove(i)) =~= views(paths).remove(i));
}

/// Adding a path to paths adds its view to their views.
pub proof fn lemma_views_push(paths: Seq<PaymentPath>, path: PaymentPath)
    ensures
        views(paths.push(path)) == views(paths).push(path@),
{
    assert(views(paths.push(path)) =~= views(paths).push(path@));
}

} // verus!
