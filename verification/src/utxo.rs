//! The pool of outputs that pay the fees of claims which cannot pay for
//! themselves: a child transaction spends the claim and an output of the
//! pool, and pays for both.

use crate::primitives::OutPoint;
use crate::transaction::Transaction;
use vstd::prelude::*;

verus! {

/// An output of the pool, as far as a claim needs to know it.
#[derive(Clone, Copy, Debug, PartialEq, Eq)]
pub struct BumpingOutput {
    /// What the output holds, in satoshis.
    pub amount: u64,
    /// The weight of the witness that spends it.
    pub witness_weight: u64,
}

/// A pool of outputs kept to pay fees. An implementation gives out no output
/// a second time before it was freed.
pub trait UtxoPool: Sync + Send {
    /// Sets aside a reserve for a channel that was opened.
    fn map_utxo(&self, channel_provision: u64);

    /// Gives an output that can pay `required_fee` as an input of a child
    /// transaction, if the pool has one.
    fn allocate_utxo(&self, required_fee: u64) -> Option<(OutPoint, BumpingOutput)>;

    /// Takes back an output that was given out: after a reorganisation, or
    /// when the counterparty claimed first.
    fn free_utxo(&self, free_utxo: OutPoint);

    /// Signs the pool's input of a child transaction.
    fn sign_utxo(&self, cpfp_transaction: &mut Transaction, utxo_index: u32);
}

} // verus!
