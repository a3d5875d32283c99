//! Transactions as the claim engine builds them, and their weight.

use crate::primitives::OutPoint;
use vstd::prelude::*;

verus! {

/// An input of a transaction.
#[derive(Clone, Debug, PartialEq, Eq)]
pub struct TxIn {
    pub previous_output: OutPoint,
    pub script_sig: Vec<u8>,
    pub sequence: u32,
    pub witness: Vec<Vec<u8>>,
}

/// An output of a transaction.
#[derive(Clone, Debug, PartialEq, Eq)]
pub struct TxOut {
    pub value: u64,
    pub script_pubkey: Vec<u8>,
}

/// A transaction.
#[derive(Clone, Debug, PartialEq, Eq)]
pub struct Transaction {
    pub version: u32,
    pub lock_time: u32,
    pub input: Vec<TxIn>,
    pub output: Vec<TxOut>,
}

/// The number of bytes that a count or a length takes in a serialized
/// transaction.
pub open spec fn varint_size(n: nat) -> nat {
    if n <= 0xfc {
        1
    } else if n <= 0xffff {
        3
    } else if n <= 0xffff_ffff {
        5
    } else {
        9
    }
}

/// The bytes that the first `upto` inputs take, without their witnesses:
/// the outpoint, the script behind its length, and the sequence number.
pub open spec fn inputs_size(inputs: Seq<TxIn>, upto: int) -> nat
    decreases upto,
{
    if upto <= 0 {
        0
    } else {
        inputs_size(inputs, upto - 1) + 36 + varint_size(inputs[upto - 1].script_sig@.len())
            + inputs[upto - 1].script_sig@.len() + 4
    }
}

/// The bytes that the first `upto` outputs take: the value and the script
/// behind its length.
pub open spec fn outputs_size(outputs: Seq<TxOut>, upto: int) -> nat
    decreases upto,
{
    if upto <= 0 {
        0
    } else {
        outputs_size(outputs, upto - 1) + 8 + varint_size(
            outputs[upto - 1].script_pubkey@.len(),
        ) + outputs[upto - 1].script_pubkey@.len()
    }
}

/// The size of a transaction serialized without witnesses: version, inputs
/// and outputs behind their counts, and lock time.
pub open spec fn base_size(tx: Transaction) -> nat {
    4 + varint_size(tx.input@.len()) + inputs_size(tx.input@, tx.input@.len() as int)
        + varint_size(tx.output@.len()) + outputs_size(tx.output@, tx.output@.len() as int) + 4
}

/// Whether no input of the transaction has a witness.
pub open spec fn without_witness(tx: Transaction) -> bool {
    forall|i: int| 0 <= i < tx.input@.len() ==> (#[trigger] tx.input@[i]).witness@.len() == 0
}

/// The weight of a transaction without witnesses, from
/// `bitcoin::Transaction::get_weight`: four times its serialized size. The
/// weight must fit the machine's word, or the sum would overflow on the way.
#[verifier::external_body]
pub(crate) fn weight_without_witness(tx: &Transaction) -> (weight: usize)
    requires
        without_witness(*tx),
        4 * base_size(*tx) <= usize::MAX,
    ensures
        weight == 4 * base_size(*tx),
{
    let input = tx.input.iter().map(|i| bitcoin::TxIn {
        previous_output: bitcoin::OutPoint {
            txid: <bitcoin::Txid as bitcoin::hashes::Hash>::from_inner(i.previous_output.txid),
            vout: i.previous_output.vout,
        },
        script_sig: i.script_sig.clone().into(),
        sequence: i.sequence,
        witness: i.witness.clone(),
    }).collect();
    let output = tx.output.iter().map(|o| bitcoin::TxOut {
        value: o.value,
        script_pubkey: o.script_pubkey.clone().into(),
    }).collect();
    bitcoin::Transaction { version: tx.version, lock_time: tx.lock_time, input, output }.get_weight()
}

/// The flag byte behind a signature that commits to all inputs and outputs,
/// from `bitcoin::SigHashType::All`.
#[verifier::external_body]
pub(crate) fn sighash_all() -> (flag: u8)
    ensures
        flag == 1,
{
    bitcoin::SigHashType::All as u8
}

} // verus!
