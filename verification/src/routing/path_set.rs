//! Sets of candidate paths: what they carry together, their order by fees,
//! by value and by proportional cost, and the cut that makes a set carry a
//! payment exactly.

use crate::primitives::PublicKey;
use crate::routing::combination::{
    MAX_PATHS,
    PathKey,
    best_start,
    cheapest_paths,
    chosen,
    circle_index,
    draw_from,
    drawn,
    dropped,
    fee_sum,
    insert_position,
    lemma_views_push,
    lemma_views_remove,
    proportional_fees,
    route_fee,
    sorted_paths,
    sorted_upto,
    trimmed,
    view_key,
    view_value,
    views,
};
use crate::routing::payment_path::{PaymentHopView, PaymentPath, path_carrying};
use vstd::prelude::*;

verus! {

/// What a path delivers.
pub open spec fn path_value(path: PaymentPath) -> int {
    view_value(path@)
}

/// Whether a path has hops, ends at `payee` and asks of it the timelock
/// `final_cltv`.
pub open spec fn path_ends_at(path: PaymentPath, payee: PublicKey, final_cltv: u32) -> bool {
    &&& path@.len() > 0
    &&& path@.last().route_hop.pubkey == payee
    &&& path@.last().route_hop.cltv_expiry_delta == final_cltv
}

/// Whether every path ends at `payee`, see [`path_ends_at`].
pub open spec fn all_end_at(paths: Seq<PaymentPath>, payee: PublicKey, final_cltv: u32) -> bool {
    forall|i: int| 0 <= i < paths.len() ==> path_ends_at(#[trigger] paths[i], payee, final_cltv)
}

/// What the paths deliver together.
pub open spec fn total_value(paths: Seq<PaymentPath>) -> int
    decreases paths.len(),
{
    if paths.len() == 0 {
        0
    } else {
        total_value(paths.drop_last()) + path_value(paths.last())
    }
}

/// The key of a path under `kind`; sums are held at the largest 64-bit value.
pub open spec fn key_of(path: PaymentPath, kind: PathKey) -> int {
    view_key(path@, kind)
}

/// Whether the first `upto` paths stand in ascending order of their keys.
pub open spec fn ascending(paths: Seq<PaymentPath>, kind: PathKey, upto: int) -> bool {
    forall|a: int, b: int|
        0 <= a <= b < upto ==> key_of(#[trigger] paths[a], kind) <= key_of(
            #[trigger] paths[b],
            kind,
        )
}

/// Whether `after` holds the paths of `before`, each as it was and as often,
/// in some order.
pub open spec fn rearranged(before: Seq<PaymentPath>, after: Seq<PaymentPath>) -> bool {
    &&& after.len() == before.len()
    &&& total_value(after) == total_value(before)
    &&& after.to_multiset() == before.to_multiset()
}

/// Each path of an arrangement stands somewhere in the other.
pub proof fn lemma_rearranged_member(before: Seq<PaymentPath>, after: Seq<PaymentPath>, j: int)
    requires
        before.to_multiset() == after.to_multiset(),
        0 <= j < after.len(),
    ensures
        exists|i: int| 0 <= i < before.len() && before[i] == after[j],
{
    broadcast use vstd::seq_lib::group_to_multiset_ensures;

    assert(after.contains(after[j]));
    assert(after.to_multiset().count(after[j]) > 0);
    assert(before.contains(after[j]));
}

/// Paths without hops deliver nothing that can be counted on; values are
/// never negative.
pub proof fn lemma_total_value_nonnegative(paths: Seq<PaymentPath>)
    ensures
        0 <= total_value(paths),
    decreases paths.len(),
{
    if paths.len() > 0 {
        lemma_total_value_nonnegative(paths.drop_last());
    }
}

/// A path more delivers its value more.
pub proof fn lemma_total_value_push(paths: Seq<PaymentPath>, path: PaymentPath)
    ensures
        total_value(paths.push(path)) == total_value(paths) + path_value(path),
{
    assert(paths.push(path).drop_last() =~= paths);
}

/// A path less delivers its value less.
pub proof fn lemma_total_value_remove(paths: Seq<PaymentPath>, i: int)
    requires
        0 <= i < paths.len(),
    ensures
        total_value(paths.remove(i)) == total_value(paths) - path_value(paths[i]),
    decreases paths.len(),
{
    if i == paths.len() - 1 {
        assert(paths.remove(i) =~= paths.drop_last());
    } else {
        lemma_total_value_remove(paths.drop_last(), i);
        assert(paths.remove(i).drop_last() =~= paths.drop_last().remove(i));
        assert(paths.remove(i).last() == paths.last());
    }
}

/// A path put in delivers its value more, wherever it is put.
pub proof fn lemma_total_value_insert(paths: Seq<PaymentPath>, i: int, path: PaymentPath)
    requires
        0 <= i <= paths.len(),
    ensures
        total_value(paths.insert(i, path)) == total_value(paths) + path_value(path),
    decreases paths.len(),
{
    if i == paths.len() {
        assert(paths.insert(i, path) =~= paths.push(path));
        lemma_total_value_push(paths, path);
    } else {
        lemma_total_value_insert(paths.drop_last(), i, path);
        assert(paths.insert(i, path).drop_last() =~= paths.drop_last().insert(i, path));
        assert(paths.insert(i, path).last() == paths.last());
    }
}

/// A path replaced changes the total by the difference of the values.
pub proof fn lemma_total_value_update(paths: Seq<PaymentPath>, i: int, path: PaymentPath)
    requires
        0 <= i < paths.len(),
    ensures
        total_value(paths.update(i, path)) == total_value(paths) - path_value(paths[i])
            + path_value(path),
    decreases paths.len(),
{
    if i == paths.len() - 1 {
        assert(paths.update(i, path).drop_last() =~= paths.drop_last());
    } else {
        lemma_total_value_update(paths.drop_last(), i, path);
        assert(paths.update(i, path).drop_last() =~= paths.drop_last().update(i, path));
    }
}

/// The key of a path under `kind`.
pub fn path_key(path: &PaymentPath, kind: PathKey) -> (key: u64)
    requires
        path@.len() > 0,
    ensures
        key == key_of(*path, kind),
{
    match kind {
        PathKey::TotalFee => path.get_total_fee_paid_msat(),
        PathKey::Value => path.get_value_msat(),
        PathKey::ProportionalFees => {
            let mut sum: u64 = 0;
            let mut i: usize = 0;
            while i < path.hops.len()
                invariant
                    i <= path.hops@.len(),
                    path@.len() == path.hops@.len(),
                    0 <= proportional_fees(path@, i as int),
                    sum == if proportional_fees(path@, i as int) > u64::MAX {
                        u64::MAX as int
                    } else {
                        proportional_fees(path@, i as int)
                    },
                decreases path.hops@.len() - i,
            {
                assert(path@[i as int] == path.hops@[i as int]@);
                sum = sum.saturating_add(path.hops[i].channel_fees.proportional_millionths as u64);
                i = i + 1;
            }
            sum
        },
    }
}

/// Moves the path at `from` down to `to`; the paths between move up by one.
fn move_path(paths: &mut Vec<PaymentPath>, from: usize, to: usize)
    requires
        to <= from < old(paths)@.len(),
    ensures
        moved(old(paths)@, final(paths)@, from as int, to as int),
        rearranged(old(paths)@, final(paths)@),
{
    let path = paths.remove(from);
    proof {
        lemma_total_value_remove(old(paths)@, from as int);
        lemma_total_value_insert(paths@, to as int, path);
        vstd::seq_lib::to_multiset_remove(old(paths)@, from as int);
        vstd::seq_lib::to_multiset_insert(paths@, to as int, path);
        lemma_member_counted(old(paths)@, from as int);
        assert(old(paths)@.to_multiset().remove(path).insert(path) =~= old(paths)@.to_multiset());
    }
    paths.insert(to, path);
}

/// A path of a set is counted in it.
pub proof fn lemma_member_counted(paths: Seq<PaymentPath>, i: int)
    requires
        0 <= i < paths.len(),
    ensures
        paths.to_multiset().count(paths[i]) > 0,
{
    broadcast use vstd::seq_lib::group_to_multiset_ensures;

    assert(paths.contains(paths[i]));
}

/// Whether `after` is `before` with the path at `from` moved down to `to`.
pub open spec fn moved(before: Seq<PaymentPath>, after: Seq<PaymentPath>, from: int, to: int) -> bool {
    &&& 0 <= to <= from < before.len()
    &&& after.len() == before.len()
    &&& after[to] == before[from]
    &&& forall|j: int| 0 <= j < to ==> after[j] == before[j]
    &&& forall|j: int| to < j <= from ==> after[j] == before[j - 1]
    &&& forall|j: int| from < j < before.len() ==> after[j] == before[j]
}

/// Moving the path behind an ordered run down to its place in the run makes
/// the run one longer.
pub proof fn lemma_ascending_moved(
    before: Seq<PaymentPath>,
    after: Seq<PaymentPath>,
    kind: PathKey,
    from: int,
    to: int,
)
    requires
        moved(before, after, from, to),
        ascending(before, kind, from),
        forall|j: int|
            to <= j < from ==> key_of(#[trigger] before[j], kind) > key_of(before[from], kind),
        to > 0 ==> key_of(before[to - 1], kind) <= key_of(before[from], kind),
    ensures
        ascending(after, kind, from + 1),
{
    assert forall|a: int, b: int| 0 <= a <= b < from + 1 implies key_of(
        #[trigger] after[a],
        kind,
    ) <= key_of(#[trigger] after[b], kind) by {
        let ka = if a < to {
            a
        } else if a == to {
            from
        } else {
            a - 1
        };
        let kb = if b < to {
            b
        } else if b == to {
            from
        } else {
            b - 1
        };
        assert(after[a] == before[ka]);
        assert(after[b] == before[kb]);
        if a < to && b == to {
            assert(key_of(before[a], kind) <= key_of(before[to - 1], kind));
        } else if a == to && b > to {
            assert(key_of(before[kb], kind) > key_of(before[from], kind));
        } else if a != to && b != to {
            assert(key_of(before[ka], kind) <= key_of(before[kb], kind));
        }
    }
}

/// Puts the paths in ascending order of their keys; paths with one key keep
/// their order.
pub fn sort_paths(paths: &mut Vec<PaymentPath>, kind: PathKey)
    requires
        forall|i: int| 0 <= i < old(paths)@.len() ==> (#[trigger] old(paths)@[i])@.len() > 0,
    ensures
        views(final(paths)@) == sorted_paths(views(old(paths)@), kind),
        rearranged(old(paths)@, final(paths)@),
        ascending(final(paths)@, kind, final(paths)@.len() as int),
{
    let n = paths.len();
    let ghost first = views(paths@);
    let mut i: usize = 0;
    proof {
        assert(views(paths@) =~= sorted_upto(first, kind, 0) + first.subrange(0, n as int));
    }
    while i < n
        invariant
            n == paths@.len(),
            n == first.len(),
            i <= n,
            rearranged(old(paths)@, paths@),
            ascending(paths@, kind, i as int),
            forall|j: int| 0 <= j < n ==> (#[trigger] paths@[j])@.len() > 0,
            views(paths@) == sorted_upto(first, kind, i as int) + first.subrange(
                i as int,
                n as int,
            ),
            sorted_upto(first, kind, i as int).len() == i,
        decreases n - i,
    {
        let key = path_key(&paths[i], kind);
        let ghost run = sorted_upto(first, kind, i as int);
        let mut k: usize = i;
        proof {
            assert(run.subrange(0, i as int) =~= run);
            assert(views(paths@)[i as int] == first[i as int]);
            assert forall|j: int| 0 <= j < i implies (#[trigger] paths@[j])@ == run[j] by {
                assert(views(paths@)[j] == (run + first.subrange(i as int, n as int))[j]);
            }
        }
        while k > 0
            invariant
                k <= i < n,
                n == paths@.len(),
                run.len() == i,
                key == key_of(paths@[i as int], kind),
                forall|j: int| 0 <= j < i ==> (#[trigger] paths@[j])@ == run[j],
                forall|j: int| 0 <= j < n ==> (#[trigger] paths@[j])@.len() > 0,
                forall|j: int| k <= j < i ==> key_of(#[trigger] paths@[j], kind) > key,
                insert_position(run, kind, key as int) == insert_position(
                    run.subrange(0, k as int),
                    kind,
                    key as int,
                ),
            ensures
                k <= i,
                forall|j: int| k <= j < i ==> key_of(#[trigger] paths@[j], kind) > key,
                k > 0 ==> key_of(paths@[k - 1], kind) <= key,
                k == insert_position(run, kind, key as int),
            decreases k,
        {
            proof {
                let shorter = run.subrange(0, k as int);
                assert(shorter.last() == run[k - 1]);
                assert(paths@[k - 1]@ == run[k - 1]);
                assert(shorter.drop_last() =~= run.subrange(0, k - 1));
            }
            if path_key(&paths[k - 1], kind) <= key {
                break ;
            }
            k = k - 1;
        }
        let ghost before = paths@;
        proof {
            assert forall|j: int| 0 <= j < i implies (#[trigger] before[j])@ == run[j] by {
                assert(views(before)[j] == run[j]);
            }
        }
        move_path(paths, i, k);
        proof {
            let after = paths@;
            lemma_ascending_moved(before, after, kind, i as int, k as int);
            assert forall|j: int| 0 <= j < n implies (#[trigger] after[j])@.len() > 0 by {
                let m = if j < k {
                    j
                } else if j == k {
                    i as int
                } else if j <= i {
                    j - 1
                } else {
                    j
                };
                assert(after[j] == before[m]);
            }
            let longer = sorted_upto(first, kind, i + 1);
            assert(longer == run.insert(k as int, first[i as int]));
            assert(views(after) =~= longer + first.subrange(i + 1, n as int)) by {
                assert forall|j: int| 0 <= j < n implies views(after)[j] == (longer
                    + first.subrange(i + 1, n as int))[j] by {
                    let m = if j < k {
                        j
                    } else if j == k {
                        i as int
                    } else if j <= i {
                        j - 1
                    } else {
                        j
                    };
                    assert(after[j] == before[m]);
                    assert(views(before)[m] == (run + first.subrange(i as int, n as int))[m]);
                }
            }
        }
        i = i + 1;
    }
    proof {
        assert(first.subrange(n as int, n as int) =~= Seq::<Seq<PaymentHopView>>::empty());
        assert(views(paths@) =~= sorted_upto(first, kind, n as int));
    }
}

/// Whether every path in `after` is one of `before`.
pub open spec fn taken_from(before: Seq<PaymentPath>, after: Seq<PaymentPath>) -> bool {
    forall|j: int|
        0 <= j < after.len() ==> exists|i: int|
            0 <= i < before.len() && before[i] == #[trigger] after[j]
}

/// Drops paths, in their order, as long as more than one is left and the
/// path delivers no more than what the set still delivers too much; what is
/// delivered too much falls by what a dropped path delivered.
///
/// One of the paths must deliver at least what is delivered too much, so
/// that a path that can be cut down stays.
pub fn drop_small_paths(paths: &mut Vec<PaymentPath>, overpaid_msat: u128) -> (left_msat: u128)
    requires
        old(paths)@.len() > 0,
        forall|i: int| 0 <= i < old(paths)@.len() ==> (#[trigger] old(paths)@[i])@.len() > 0,
        exists|i: int|
            0 <= i < old(paths)@.len() && path_value(#[trigger] old(paths)@[i]) >= overpaid_msat,
    ensures
        dropped(views(old(paths)@), overpaid_msat as int, 0) == (
            views(final(paths)@),
            left_msat as int,
        ),
        final(paths)@.len() > 0,
        taken_from(old(paths)@, final(paths)@),
        left_msat <= overpaid_msat,
        total_value(final(paths)@) - left_msat == total_value(old(paths)@) - overpaid_msat,
        forall|i: int|
            0 <= i < final(paths)@.len() ==> path_value(#[trigger] final(paths)@[i]) >= left_msat,
{
    let mut overpaid: u128 = overpaid_msat;
    let mut idx: usize = 0;
    let ghost whole = dropped(views(paths@), overpaid_msat as int, 0);
    proof {
        assert forall|j: int| 0 <= j < paths@.len() implies exists|i: int|
            0 <= i < old(paths)@.len() && old(paths)@[i] == #[trigger] paths@[j] by {
            assert(old(paths)@[j] == paths@[j]);
        }
    }
    while idx < paths.len()
        invariant
            paths@.len() > 0,
            idx <= paths@.len(),
            overpaid <= overpaid_msat,
            taken_from(old(paths)@, paths@),
            forall|i: int| 0 <= i < paths@.len() ==> (#[trigger] paths@[i])@.len() > 0,
            total_value(paths@) - overpaid == total_value(old(paths)@) - overpaid_msat,
            forall|i: int| 0 <= i < idx ==> path_value(#[trigger] paths@[i]) > overpaid,
            overpaid == 0 || exists|i: int|
                0 <= i < paths@.len() && path_value(#[trigger] paths@[i]) >= overpaid_msat,
            whole == dropped(views(paths@), overpaid as int, idx as int),
        ensures
            whole == (views(paths@), overpaid as int),
            paths@.len() > 0,
            overpaid <= overpaid_msat,
            taken_from(old(paths)@, paths@),
            total_value(paths@) - overpaid == total_value(old(paths)@) - overpaid_msat,
            forall|i: int| 0 <= i < paths@.len() ==> path_value(#[trigger] paths@[i]) >= overpaid,
        decreases paths@.len() - idx,
    {
        if paths.len() == 1 {
            proof {
                if overpaid != 0 {
                    let w = choose|i: int|
                        0 <= i < paths@.len() && path_value(#[trigger] paths@[i])
                            >= overpaid_msat;
                    assert(w == 0);
                }
            }
            break ;
        }
        let value = paths[idx].get_value_msat();
        if value as u128 <= overpaid {
            let ghost before = paths@;
            let ghost overpaid_before = overpaid;
            let _dropped = paths.remove(idx);
            overpaid = overpaid - value as u128;
            proof {
                lemma_total_value_remove(before, idx as int);
                lemma_views_remove(before, idx as int);
                assert(views(before)[idx as int] == before[idx as int]@);
                let after = paths@;
                assert forall|j: int| 0 <= j < after.len() implies exists|i: int|
                    0 <= i < old(paths)@.len() && old(paths)@[i] == #[trigger] after[j] by {
                    let m = if j < idx {
                        j
                    } else {
                        j + 1
                    };
                    assert(after[j] == before[m]);
                    let i0 = choose|i0: int|
                        0 <= i0 < old(paths)@.len() && old(paths)@[i0] == before[m];
                    assert(old(paths)@[i0] == after[j]);
                }
                assert forall|j: int| 0 <= j < after.len() implies (#[trigger] after[j])@.len()
                    > 0 by {
                    let m = if j < idx {
                        j
                    } else {
                        j + 1
                    };
                    assert(after[j] == before[m]);
                }
                assert forall|j: int| 0 <= j < idx implies path_value(#[trigger] after[j])
                    > overpaid by {
                    assert(after[j] == before[j]);
                }
                if overpaid != 0 {
                    let witness = choose|i: int|
                        0 <= i < before.len() && path_value(#[trigger] before[i])
                            >= overpaid_msat;
                    assert(witness != idx);
                    let w = if witness < idx {
                        witness
                    } else {
                        witness - 1
                    };
                    assert(after[w] == before[witness]);
                }
            }
        } else {
            proof {
                assert(views(paths@)[idx as int] == paths@[idx as int]@);
            }
            idx = idx + 1;
        }
    }
    overpaid
}

/// Rearranging paths keeps where they end.
pub proof fn lemma_rearranged_ends(
    before: Seq<PaymentPath>,
    after: Seq<PaymentPath>,
    payee: PublicKey,
    final_cltv: u32,
)
    requires
        before.to_multiset() == after.to_multiset(),
        all_end_at(before, payee, final_cltv),
    ensures
        all_end_at(after, payee, final_cltv),
{
    assert forall|j: int| 0 <= j < after.len() implies path_ends_at(
        #[trigger] after[j],
        payee,
        final_cltv,
    ) by {
        lemma_rearranged_member(before, after, j);
        let i = choose|i: int| 0 <= i < before.len() && before[i] == after[j];
        assert(path_ends_at(before[i], payee, final_cltv));
    }
}

/// Paths taken from a set end where the paths of the set end.
pub proof fn lemma_taken_ends(
    before: Seq<PaymentPath>,
    after: Seq<PaymentPath>,
    payee: PublicKey,
    final_cltv: u32,
)
    requires
        taken_from(before, after),
        all_end_at(before, payee, final_cltv),
    ensures
        all_end_at(after, payee, final_cltv),
{
    assert forall|j: int| 0 <= j < after.len() implies path_ends_at(
        #[trigger] after[j],
        payee,
        final_cltv,
    ) by {
        let i = choose|i: int| 0 <= i < before.len() && before[i] == after[j];
        assert(path_ends_at(before[i], payee, final_cltv));
    }
}

/// Whether every path has hops.
pub open spec fn all_have_hops(paths: Seq<PaymentPath>) -> bool {
    forall|i: int| 0 <= i < paths.len() ==> (#[trigger] paths[i])@.len() > 0
}

/// Rearranging paths keeps them with hops.
pub proof fn lemma_rearranged_hops(before: Seq<PaymentPath>, after: Seq<PaymentPath>)
    requires
        before.to_multiset() == after.to_multiset(),
        all_have_hops(before),
    ensures
        all_have_hops(after),
{
    assert forall|j: int| 0 <= j < after.len() implies (#[trigger] after[j])@.len() > 0 by {
        lemma_rearranged_member(before, after, j);
        let i = choose|i: int| 0 <= i < before.len() && before[i] == after[j];
        assert(before[i]@.len() > 0);
    }
}

/// Paths taken from a set with hops have hops.
pub proof fn lemma_taken_hops(before: Seq<PaymentPath>, after: Seq<PaymentPath>)
    requires
        taken_from(before, after),
        all_have_hops(before),
    ensures
        all_have_hops(after),
{
    assert forall|j: int| 0 <= j < after.len() implies (#[trigger] after[j])@.len() > 0 by {
        let i = choose|i: int| 0 <= i < before.len() && before[i] == after[j];
        assert(before[i]@.len() > 0);
    }
}

/// Whether the paths in `after` end wherever all paths in `before` end.
pub open spec fn ends_kept(before: Seq<PaymentPath>, after: Seq<PaymentPath>) -> bool {
    forall|payee: PublicKey, final_cltv: u32|
        all_end_at(before, payee, final_cltv) ==> #[trigger] all_end_at(after, payee, final_cltv)
}

/// Cuts a set of paths that delivers `overpaid_msat` too much down to what
/// is asked for. The smallest paths are dropped whole as far as that does not
/// take away too much; what is then still too much is taken off the path
/// that charges the most parts per million, the last of them if there are
/// several.
///
/// One of the paths must deliver at least what is delivered too much.
pub fn trim_overpayment(paths: &mut Vec<PaymentPath>, overpaid_msat: u128)
    requires
        all_have_hops(old(paths)@),
        exists|i: int|
            0 <= i < old(paths)@.len() && path_value(#[trigger] old(paths)@[i]) >= overpaid_msat,
    ensures
        views(final(paths)@) == trimmed(views(old(paths)@), overpaid_msat as int),
        final(paths)@.len() > 0,
        all_have_hops(final(paths)@),
        ends_kept(old(paths)@, final(paths)@),
        total_value(final(paths)@) == total_value(old(paths)@) - overpaid_msat,
{
    let ghost first = paths@;
    let ghost witness = choose|i: int|
        0 <= i < first.len() && path_value(#[trigger] first[i]) >= overpaid_msat;
    sort_paths(paths, PathKey::Value);
    let ghost by_value = paths@;
    proof {
        lemma_rearranged_hops(first, by_value);
        lemma_rearranged_member(by_value, first, witness);
        let j = choose|j: int| 0 <= j < by_value.len() && by_value[j] == first[witness];
        assert(path_value(by_value[j]) >= overpaid_msat);
    }
    let left = drop_small_paths(paths, overpaid_msat);
    let ghost kept = paths@;
    proof {
        lemma_taken_hops(by_value, kept);
        assert forall|payee: PublicKey, final_cltv: u32|
            all_end_at(first, payee, final_cltv) implies #[trigger] all_end_at(
            kept,
            payee,
            final_cltv,
        ) by {
            lemma_rearranged_ends(first, by_value, payee, final_cltv);
            lemma_taken_ends(by_value, kept, payee, final_cltv);
        }
    }
    if left == 0 {
        return ;
    }
    sort_paths(paths, PathKey::ProportionalFees);
    let ghost by_cost = paths@;
    proof {
        lemma_rearranged_hops(kept, by_cost);
    }
    let last = paths.len() - 1;
    let value = paths[last].get_value_msat();
    proof {
        lemma_rearranged_member(kept, by_cost, last as int);
        let i = choose|i: int| 0 <= i < kept.len() && kept[i] == by_cost[last as int];
        assert(path_value(kept[i]) >= left);
    }
    let new_value: u64 = (value as u128 - left) as u64;
    paths[last].update_value_and_recompute_fees(new_value);
    proof {
        let after = paths@;
        assert(after =~= by_cost.update(last as int, after[last as int]));
        lemma_total_value_update(by_cost, last as int, after[last as int]);
        assert(after[last as int]@ == path_carrying(by_cost[last as int]@, new_value));
        assert(path_value(after[last as int]) == new_value);
        assert(views(by_cost).last() == by_cost[last as int]@);
        assert(views(after) =~= views(by_cost).update(last as int, after[last as int]@));
        assert forall|j: int| 0 <= j < after.len() implies (#[trigger] after[j])@.len() > 0 by {
            if j != last {
                assert(after[j] == by_cost[j]);
            }
        }
        assert forall|payee: PublicKey, final_cltv: u32|
            all_end_at(first, payee, final_cltv) implies #[trigger] all_end_at(
            after,
            payee,
            final_cltv,
        ) by {
            lemma_rearranged_ends(kept, by_cost, payee, final_cltv);
            assert forall|j: int| 0 <= j < after.len() implies path_ends_at(
                #[trigger] after[j],
                payee,
                final_cltv,
            ) by {
                if j != last {
                    assert(after[j] == by_cost[j]);
                } else {
                    assert(path_ends_at(by_cost[j], payee, final_cltv));
                }
            }
        }
    }
}

/// What the first `count` paths deliver together when the paths are taken
/// in a circle from `start` on.
pub open spec fn circle_value(paths: Seq<PaymentPath>, start: int, count: int) -> int {
    if start + count <= paths.len() {
        total_value(paths.subrange(start, start + count))
    } else {
        total_value(paths.subrange(start, paths.len() as int)) + total_value(
            paths.subrange(0, start + count - paths.len()),
        )
    }
}

/// A set of paths delivers what its two parts deliver.
pub proof fn lemma_total_value_split(paths: Seq<PaymentPath>, at: int)
    requires
        0 <= at <= paths.len(),
    ensures
        total_value(paths) == total_value(paths.subrange(0, at)) + total_value(
            paths.subrange(at, paths.len() as int),
        ),
    decreases paths.len(),
{
    if at == paths.len() {
        assert(paths.subrange(0, at) =~= paths);
        assert(paths.subrange(at, paths.len() as int) =~= Seq::<PaymentPath>::empty());
    } else {
        lemma_total_value_split(paths.drop_last(), at);
        assert(paths.drop_last().subrange(0, at) =~= paths.subrange(0, at));
        assert(paths.subrange(at, paths.len() as int).drop_last() =~= paths.drop_last().subrange(
            at,
            paths.len() - 1,
        ));
        assert(paths.subrange(at, paths.len() as int).last() == paths.last());
    }
}

/// One path more in the circle delivers its value more.
pub proof fn lemma_circle_value_step(paths: Seq<PaymentPath>, start: int, count: int)
    requires
        0 <= start < paths.len(),
        0 <= count < paths.len(),
    ensures
        circle_value(paths, start, count + 1) == circle_value(paths, start, count) + path_value(
            paths[if start + count < paths.len() {
                start + count
            } else {
                start + count - paths.len()
            }],
        ),
        circle_value(paths, start, 0) == 0,
        circle_value(paths, start, paths.len() as int) == total_value(paths),
{
    let n = paths.len() as int;
    let none = Seq::<PaymentPath>::empty();
    assert(total_value(none) == 0);
    assert(paths.subrange(start, start) =~= none);
    assert(paths.subrange(0, 0) =~= none);
    assert(paths.subrange(0, n) =~= paths);
    assert(circle_value(paths, start, 0) == 0);
    lemma_total_value_split(paths, start);
    assert(circle_value(paths, start, n) == total_value(paths)) by {
        if start == 0 {
            assert(paths.subrange(start, start + n) =~= paths);
        }
    }
    if start + count < n {
        let a = paths.subrange(start, start + count + 1);
        assert(a.drop_last() =~= paths.subrange(start, start + count));
        assert(a.last() == paths[start + count]);
        assert(total_value(a) == total_value(a.drop_last()) + path_value(a.last()));
        assert(circle_value(paths, start, count + 1) == total_value(a));
        assert(circle_value(paths, start, count) == total_value(paths.subrange(start, start + count)));
    } else {
        let k = start + count - n;
        let a = paths.subrange(0, k + 1);
        assert(a.drop_last() =~= paths.subrange(0, k));
        assert(a.last() == paths[k]);
        assert(total_value(a) == total_value(a.drop_last()) + path_value(a.last()));
        assert(circle_value(paths, start, count + 1) == total_value(paths.subrange(start, n))
            + total_value(a));
        if k == 0 {
            assert(paths.subrange(start, start + count) =~= paths.subrange(start, n));
            assert(circle_value(paths, start, count) == total_value(paths.subrange(start, n)));
        } else {
            assert(circle_value(paths, start, count) == total_value(paths.subrange(start, n))
                + total_value(paths.subrange(0, k)));
        }
    }
}

/// Draws a route from the paths: they are taken in a circle from `start` on
/// until they deliver `final_value_msat`, and what they then deliver too
/// much is cut away. Where all paths together deliver less, the route is all
/// of them.
pub fn draw_route(paths: &Vec<PaymentPath>, start: usize, final_value_msat: u64) -> (route: Vec<
    PaymentPath,
>)
    requires
        start < paths@.len(),
        all_have_hops(paths@),
    ensures
        views(route@) == drawn(views(paths@), start as int, final_value_msat),
        route@.len() > 0,
        all_have_hops(route@),
        ends_kept(paths@, route@),
        total_value(paths@) >= final_value_msat ==> total_value(route@) == final_value_msat,
        total_value(paths@) < final_value_msat ==> total_value(route@) == total_value(paths@)
            && route@.len() == paths@.len(),
{
    let n = paths.len();
    let mut cur_route: Vec<PaymentPath> = Vec::new();
    let mut aggregate: u128 = 0;
    let mut count: usize = 0;
    let ghost whole = drawn(views(paths@), start as int, final_value_msat);
    proof {
        lemma_circle_value_step(paths@, start as int, 0);
        assert(views(cur_route@) =~= Seq::<Seq<PaymentHopView>>::empty());
    }
    while count < n
        invariant
            n == paths@.len(),
            start < n,
            count <= n,
            cur_route@.len() == count,
            all_have_hops(paths@),
            all_have_hops(cur_route@),
            forall|j: int|
                0 <= j < count ==> exists|i: int|
                    0 <= i < n && (#[trigger] paths@[i])@ == (#[trigger] cur_route@[j])@,
            aggregate == total_value(cur_route@),
            aggregate == circle_value(paths@, start as int, count as int),
            aggregate < final_value_msat || count == 0,
            aggregate <= count * u64::MAX,
            whole == drawn(views(paths@), start as int, final_value_msat),
            whole == draw_from(
                views(paths@),
                start as int,
                final_value_msat,
                count as int,
                views(cur_route@),
                aggregate as int,
            ),
        decreases n - count,
    {
        let at = if start < n - count {
            start + count
        } else {
            start - (n - count)
        };
        let path = paths[at].duplicate();
        let value = path.get_value_msat();
        proof {
            lemma_circle_value_step(paths@, start as int, count as int);
            lemma_total_value_push(cur_route@, path);
            assert(count * u64::MAX + u64::MAX == (count + 1) * u64::MAX) by (nonlinear_arith);
            assert(n * u64::MAX <= usize::MAX * u64::MAX) by (nonlinear_arith)
                requires
                    n <= usize::MAX,
            ;
            assert(count * u64::MAX <= n * u64::MAX) by (nonlinear_arith)
                requires
                    count <= n,
            ;
        }
        let ghost before = aggregate;
        let ghost route_before = cur_route@;
        proof {
            assert(at == circle_index(n as int, start as int, count as int));
            assert(views(paths@)[at as int] == paths@[at as int]@);
            lemma_views_push(route_before, path);
        }
        cur_route.push(path);
        aggregate = aggregate + value as u128;
        count = count + 1;
        proof {
            assert forall|j: int| 0 <= j < count implies exists|i: int|
                0 <= i < n && (#[trigger] paths@[i])@ == (#[trigger] cur_route@[j])@ by {
                if j < count - 1 {
                    assert(cur_route@[j] == route_before[j]);
                    let i = choose|i: int|
                        0 <= i < n && (#[trigger] paths@[i])@ == route_before[j]@;
                    assert(paths@[i]@ == cur_route@[j]@);
                } else {
                    assert(paths@[at as int]@ == cur_route@[j]@);
                }
            }
        }
        if aggregate >= final_value_msat as u128 {
            let overpaid = aggregate - final_value_msat as u128;
            let ghost drawn = cur_route@;
            proof {
                if count == 1 {
                    assert(before == 0);
                }
                assert(cur_route@[count - 1] == path);
                assert(path_value(cur_route@[count - 1]) >= overpaid);
                lemma_circle_value_bound(paths@, start as int, count as int);
                lemma_copies_end(paths@, drawn);
                let all = views(paths@);
                assert(views(drawn) == views(route_before).push(all[at as int]));
                assert(view_value(all[at as int]) == value);
                assert(before + value >= final_value_msat);
                assert(whole == draw_from(
                    all,
                    start as int,
                    final_value_msat,
                    count - 1,
                    views(route_before),
                    before as int,
                ));
                assert(whole == trimmed(views(drawn), overpaid as int));
            }
            trim_overpayment(&mut cur_route, overpaid);
            proof {
                assert forall|payee: PublicKey, final_cltv: u32|
                    all_end_at(paths@, payee, final_cltv) implies #[trigger] all_end_at(
                    cur_route@,
                    payee,
                    final_cltv,
                ) by {
                    assert(all_end_at(drawn, payee, final_cltv));
                }
            }
            return cur_route;
        }
    }
    proof {
        lemma_circle_value_step(paths@, start as int, 0);
        lemma_copies_end(paths@, cur_route@);
    }
    cur_route
}

/// Copies of paths end where all the paths end.
pub proof fn lemma_copies_end(paths: Seq<PaymentPath>, copies: Seq<PaymentPath>)
    requires
        forall|j: int|
            0 <= j < copies.len() ==> exists|i: int|
                0 <= i < paths.len() && (#[trigger] paths[i])@ == (#[trigger] copies[j])@,
    ensures
        ends_kept(paths, copies),
{
    assert forall|payee: PublicKey, final_cltv: u32|
        all_end_at(paths, payee, final_cltv) implies #[trigger] all_end_at(
        copies,
        payee,
        final_cltv,
    ) by {
        assert forall|j: int| 0 <= j < copies.len() implies path_ends_at(
            #[trigger] copies[j],
            payee,
            final_cltv,
        ) by {
            let i = choose|i: int|
                0 <= i < paths.len() && (#[trigger] paths[i])@ == (#[trigger] copies[j])@;
            assert(path_ends_at(paths[i], payee, final_cltv));
        }
    }
}

/// Part of the circle delivers no more than all paths.
pub proof fn lemma_circle_value_bound(paths: Seq<PaymentPath>, start: int, count: int)
    requires
        0 <= start < paths.len(),
        0 <= count <= paths.len(),
    ensures
        circle_value(paths, start, count) <= total_value(paths),
{
    let n = paths.len() as int;
    lemma_total_value_split(paths, start);
    if start + count <= n {
        let tail = paths.subrange(start, n);
        lemma_total_value_split(tail, count);
        assert(tail.subrange(0, count) =~= paths.subrange(start, start + count));
        lemma_total_value_nonnegative(tail.subrange(count, tail.len() as int));
        lemma_total_value_nonnegative(paths.subrange(0, start));
    } else {
        let k = start + count - n;
        let head = paths.subrange(0, start);
        lemma_total_value_split(head, k);
        assert(head.subrange(0, k) =~= paths.subrange(0, k));
        lemma_total_value_nonnegative(head.subrange(k, head.len() as int));
    }
}

/// The fees paid along the paths, added up.
pub fn route_fees(paths: &Vec<PaymentPath>) -> (fees: u128)
    ensures
        fees == route_fee(views(paths@)),
{
    let mut fees: u128 = 0;
    let mut i: usize = 0;
    while i < paths.len()
        invariant
            i <= paths@.len(),
            fees == fee_sum(views(paths@), i as int),
            fees <= i * u64::MAX,
        decreases paths@.len() - i,
    {
        proof {
            assert(i * u64::MAX + u64::MAX == (i + 1) * u64::MAX) by (nonlinear_arith);
            assert((i + 1) * u64::MAX <= usize::MAX * u64::MAX) by (nonlinear_arith)
                requires
                    i + 1 <= usize::MAX,
            ;
            assert(views(paths@)[i as int] == paths@[i as int]@);
        }
        fees = fees + paths[i].get_total_fee_paid_msat() as u128;
        i = i + 1;
    }
    fees
}

/// Chooses among the routes drawn from the paths, one from each start, a
/// route that pays the least in fees; of several, the one drawn first. The
/// paths are the cheapest fifty of those given.
pub fn choose_route(payment_paths: Vec<PaymentPath>, final_value_msat: u64) -> (route: Vec<
    PaymentPath,
>)
    requires
        payment_paths@.len() > 0,
        all_have_hops(payment_paths@),
    ensures
        views(route@) == chosen(views(payment_paths@), final_value_msat),
        route@.len() > 0,
        all_have_hops(route@),
        ends_kept(payment_paths@, route@),
        total_value(route@) == final_value_msat || (total_value(route@) < final_value_msat
            && route@.len() == if payment_paths@.len() > MAX_PATHS {
            MAX_PATHS as nat
        } else {
            payment_paths@.len()
        }),
        payment_paths@.len() <= MAX_PATHS && total_value(payment_paths@) >= final_value_msat
            ==> total_value(route@) == final_value_msat,
{
    let mut paths = payment_paths;
    sort_paths(&mut paths, PathKey::TotalFee);
    let ghost sorted = paths@;
    proof {
        lemma_rearranged_hops(payment_paths@, sorted);
    }
    if paths.len() > MAX_PATHS {
        paths.truncate(MAX_PATHS);
        proof {
            assert(paths@ =~= sorted.subrange(0, MAX_PATHS as int));
            assert(views(paths@) =~= views(sorted).subrange(0, MAX_PATHS as int));
            lemma_total_value_split(sorted, MAX_PATHS as int);
            lemma_total_value_nonnegative(sorted.subrange(MAX_PATHS as int, sorted.len() as int));
            assert forall|i: int| 0 <= i < paths@.len() implies (#[trigger] paths@[i])@.len()
                > 0 by {
                assert(paths@[i] == sorted[i]);
            }
        }
    }
    proof {
        assert forall|payee: PublicKey, final_cltv: u32|
            all_end_at(payment_paths@, payee, final_cltv) implies #[trigger] all_end_at(
            paths@,
            payee,
            final_cltv,
        ) by {
            lemma_rearranged_ends(payment_paths@, sorted, payee, final_cltv);
            assert forall|i: int| 0 <= i < paths@.len() implies path_ends_at(
                #[trigger] paths@[i],
                payee,
                final_cltv,
            ) by {
                assert(paths@[i] == sorted[i]);
            }
        }
    }
    let n = paths.len();
    let ghost kept = views(paths@);
    proof {
        assert(kept == cheapest_paths(views(payment_paths@)));
    }
    let mut best = draw_route(&paths, 0, final_value_msat);
    let mut best_fees = route_fees(&best);
    let mut i: usize = 1;
    while i < n
        invariant
            n == paths@.len(),
            1 <= i <= n,
            kept == views(paths@),
            views(best@) == drawn(kept, best_start(kept, final_value_msat, i as int), final_value_msat),
            best_fees == route_fee(views(best@)),
            all_have_hops(paths@),
            best@.len() > 0,
            all_have_hops(best@),
            ends_kept(paths@, best@),
            total_value(paths@) >= final_value_msat ==> total_value(best@) == final_value_msat,
            total_value(paths@) < final_value_msat ==> total_value(best@) == total_value(paths@)
                && best@.len() == paths@.len(),
        decreases n - i,
    {
        let route = draw_route(&paths, i, final_value_msat);
        let fees = route_fees(&route);
        if fees < best_fees {
            best = route;
            best_fees = fees;
        }
        i = i + 1;
    }
    proof {
        assert forall|payee: PublicKey, final_cltv: u32|
            all_end_at(payment_paths@, payee, final_cltv) implies #[trigger] all_end_at(
            best@,
            payee,
            final_cltv,
        ) by {
            assert(all_end_at(paths@, payee, final_cltv));
        }
    }
    best
}

} // verus!
