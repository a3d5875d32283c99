//! The fee-bump engine: what a claim pays at its first broadcast and at each
//! later one, from its weight, what it claims, what it paid last and what
//! confirmation costs at the moment. Feerates are in satoshis per 1000
//! weight units. The engine only computes.

use vstd::prelude::*;

verus! {

/// The lowest feerate at which nodes relay a transaction.
pub const MIN_RELAY_FEE_SAT_PER_1000_WEIGHT: u64 = 4000;

/// What confirmation costs at the moment, by how soon it is wanted.
#[derive(Clone, Copy, Debug, PartialEq, Eq)]
pub struct FeeEstimates {
    pub high_priority: u64,
    pub normal: u64,
    pub background: u64,
}

/// `value`, held at the largest 64-bit value.
pub open spec fn capped(value: int) -> int {
    if value > u64::MAX {
        u64::MAX as int
    } else {
        value
    }
}

/// The fee of a transaction of `weight` at `feerate`.
pub open spec fn fee_at(feerate: int, weight: int) -> int {
    capped(feerate * weight / 1000)
}

/// The fee and the feerate of a first broadcast: those of the first of the
/// three tiers, from the highest down, whose fee is less than what is
/// claimed; none where even the lowest tier takes all.
pub open spec fn first_fee(input_amounts: int, weight: int, estimates: FeeEstimates) -> Option<
    (int, int),
> {
    if input_amounts > fee_at(estimates.high_priority as int, weight) {
        Some((fee_at(estimates.high_priority as int, weight), estimates.high_priority as int))
    } else if input_amounts > fee_at(estimates.normal as int, weight) {
        Some((fee_at(estimates.normal as int, weight), estimates.normal as int))
    } else if input_amounts > fee_at(estimates.background as int, weight) {
        Some((fee_at(estimates.background as int, weight), estimates.background as int))
    } else {
        None
    }
}

/// The least that a replacement must pay: what was paid before, and the
/// relay fee for its own weight.
pub open spec fn replacement_floor(weight: int, previous_feerate: int) -> int {
    capped(
        fee_at(previous_feerate, weight) + fee_at(MIN_RELAY_FEE_SAT_PER_1000_WEIGHT as int, weight),
    )
}

/// The fee that a later broadcast would pay before the floor for
/// replacements is applied: the fee of a first broadcast where the last
/// feerate was below the high-priority tier, else the last feerate and a
/// quarter more.
pub open spec fn bump_candidate(
    weight: int,
    input_amounts: int,
    previous_feerate: int,
    estimates: FeeEstimates,
) -> Option<int> {
    if previous_feerate < estimates.high_priority {
        match first_fee(input_amounts, weight, estimates) {
            Some((fee, _)) => Some(fee),
            None => None,
        }
    } else {
        Some(capped(previous_feerate * weight / 750))
    }
}

/// The fee and the feerate of a later broadcast: the candidate fee, raised
/// to the floor for replacements where it is below, and that fee per 1000
/// weight units.
pub open spec fn bumped_fee(
    weight: int,
    input_amounts: int,
    previous_feerate: int,
    estimates: FeeEstimates,
) -> Option<(int, int)> {
    match bump_candidate(weight, input_amounts, previous_feerate, estimates) {
        None => None,
        Some(candidate) => {
            let floor = replacement_floor(weight, previous_feerate);
            let fee = if candidate < floor {
                floor
            } else {
                candidate
            };
            Some((fee, capped(fee * 1000 / weight)))
        },
    }
}

/// What a claim leaves for its output, with its feerate: at a first
/// broadcast what is claimed less the fee; at a later one the same, and
/// nothing where the fee takes all.
pub open spec fn output_value(
    weight: int,
    input_amounts: int,
    previous_feerate: int,
    estimates: FeeEstimates,
) -> Option<(int, int)> {
    if previous_feerate != 0 {
        match bumped_fee(weight, input_amounts, previous_feerate, estimates) {
            Some((fee, feerate)) => Some(
                (
                    if fee > input_amounts {
                        0
                    } else {
                        input_amounts - fee
                    },
                    feerate,
                ),
            ),
            None => None,
        }
    } else {
        match first_fee(input_amounts, weight, estimates) {
            Some((fee, feerate)) => Some((input_amounts - fee, feerate)),
            None => None,
        }
    }
}

/// `value * factor / divisor`, held at the largest 64-bit value.
fn scaled(value: u64, factor: u64, divisor: u64) -> (r: u64)
    requires
        divisor > 0,
    ensures
        r == capped(value * factor / divisor as int),
{
    proof {
        assert(value * factor <= u64::MAX * u64::MAX) by (nonlinear_arith)
            requires
                value <= u64::MAX,
                factor <= u64::MAX,
        ;
        assert(0 <= value * factor) by (nonlinear_arith)
            requires
                0 <= value,
                0 <= factor,
        ;
    }
    let product: u128 = value as u128 * factor as u128;
    let quotient: u128 = product / divisor as u128;
    if quotient > u64::MAX as u128 {
        u64::MAX
    } else {
        quotient as u64
    }
}

/// The machine's word as a 64-bit number.
fn weight_of(predicted_weight: usize) -> (w: u64)
    ensures
        w == predicted_weight,
{
    predicted_weight as u64
}

/// The fee and the feerate of a first broadcast, see [`first_fee`].
pub fn subtract_high_prio_fee(input_amounts: u64, predicted_weight: usize, estimates: &FeeEstimates) -> (r:
    Option<(u64, u64)>)
    ensures
        match r {
            Some((fee, feerate)) => first_fee(
                input_amounts as int,
                predicted_weight as int,
                *estimates,
            ) == Some((fee as int, feerate as int)),
            None => first_fee(input_amounts as int, predicted_weight as int, *estimates) is None,
        },
        r matches Some((fee, _)) ==> fee < input_amounts,
{
    let weight = weight_of(predicted_weight);
    let mut updated_feerate = estimates.high_priority;
    let mut fee = scaled(updated_feerate, weight, 1000);
    if input_amounts <= fee {
        updated_feerate = estimates.normal;
        fee = scaled(updated_feerate, weight, 1000);
        if input_amounts <= fee {
            updated_feerate = estimates.background;
            fee = scaled(updated_feerate, weight, 1000);
            if input_amounts <= fee {
                None
            } else {
                Some((fee, updated_feerate))
            }
        } else {
            Some((fee, updated_feerate))
        }
    } else {
        Some((fee, updated_feerate))
    }
}

/// The fee and the feerate of a later broadcast, see [`bumped_fee`]. None is
/// given where the last feerate was below the high-priority tier and even
/// the lowest tier takes all that is claimed. The fee is never below what a
/// replacement must pay.
pub fn feerate_bump(
    predicted_weight: usize,
    input_amounts: u64,
    previous_feerate: u64,
    estimates: &FeeEstimates,
) -> (r: Option<(u64, u64)>)
    requires
        predicted_weight > 0,
    ensures
        match r {
            Some((fee, feerate)) => bumped_fee(
                predicted_weight as int,
                input_amounts as int,
                previous_feerate as int,
                *estimates,
            ) == Some((fee as int, feerate as int)),
            None => bumped_fee(
                predicted_weight as int,
                input_amounts as int,
                previous_feerate as int,
                *estimates,
            ) is None,
        },
        r matches Some((fee, _)) ==> fee >= replacement_floor(
            predicted_weight as int,
            previous_feerate as int,
        ),
        r is None <==> previous_feerate < estimates.high_priority && first_fee(
            input_amounts as int,
            predicted_weight as int,
            *estimates,
        ) is None,
{
    let weight = weight_of(predicted_weight);
    let new_fee = if previous_feerate < estimates.high_priority {
        match subtract_high_prio_fee(input_amounts, predicted_weight, estimates) {
            Some((new_fee, _)) => new_fee,
            None => {
                return None;
            },
        }
    } else {
        scaled(previous_feerate, weight, 750)
    };
    let previous_fee = scaled(previous_feerate, weight, 1000);
    let min_relay_fee = scaled(MIN_RELAY_FEE_SAT_PER_1000_WEIGHT, weight, 1000);
    let floor = previous_fee.saturating_add(min_relay_fee);
    let new_fee = if new_fee < floor {
        floor
    } else {
        new_fee
    };
    Some((new_fee, scaled(new_fee, 1000, weight)))
}

/// What a claim leaves for its output, with its feerate, see
/// [`output_value`]. A later broadcast of a claim without weight is not
/// asked for.
pub fn compute_output_value(
    predicted_weight: usize,
    input_amounts: u64,
    previous_feerate: u64,
    estimates: &FeeEstimates,
) -> (r: Option<(u64, u64)>)
    requires
        previous_feerate != 0 ==> predicted_weight > 0,
    ensures
        match r {
            Some((value, feerate)) => output_value(
                predicted_weight as int,
                input_amounts as int,
                previous_feerate as int,
                *estimates,
            ) == Some((value as int, feerate as int)),
            None => output_value(
                predicted_weight as int,
                input_amounts as int,
                previous_feerate as int,
                *estimates,
            ) is None,
        },
{
    if previous_feerate != 0 {
        match feerate_bump(predicted_weight, input_amounts, previous_feerate, estimates) {
            Some((new_fee, feerate)) => {
                if new_fee > input_amounts {
                    Some((0, feerate))
                } else {
                    Some((input_amounts - new_fee, feerate))
                }
            },
            None => None,
        }
    } else {
        match subtract_high_prio_fee(input_amounts, predicted_weight, estimates) {
            Some((new_fee, feerate)) => Some((input_amounts - new_fee, feerate)),
            None => None,
        }
    }
}

/// A later broadcast pays at least what the last one paid and the relay fee
/// for its own weight, as the rules for replacements ask.
pub proof fn lemma_bump_pays_for_replacement(
    weight: int,
    input_amounts: int,
    previous_feerate: int,
    estimates: FeeEstimates,
)
    requires
        weight > 0,
        previous_feerate > 0,
        bumped_fee(weight, input_amounts, previous_feerate, estimates) is Some,
    ensures
        bumped_fee(weight, input_amounts, previous_feerate, estimates) matches Some((fee, _))
            && fee >= replacement_floor(weight, previous_feerate) && (replacement_floor(
            weight,
            previous_feerate,
        ) < u64::MAX ==> fee >= previous_feerate * weight / 1000
            + MIN_RELAY_FEE_SAT_PER_1000_WEIGHT * weight / 1000),
{
}

} // verus!
