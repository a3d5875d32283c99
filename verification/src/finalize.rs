//! Finishing a claim: the transaction is built, and a signer gives the
//! signatures and the scripts that only the holder of the keys can give.

use crate::outputs::{HTLCOutputInCommitment, RemoteHTLCOutput, RevokedOutput};
use crate::package::{PackageTemplate, PackageView, RBF_SEQUENCE, unsigned_claim};
use crate::primitives::{OutPoint, PaymentPreimage, PublicKey, SecretKey};
use crate::transaction::{Transaction, sighash_all};
use vstd::prelude::*;

verus! {

/// Whether `tx` has the form of a claim of our own making: version 2, one
/// output, and every input open to replacement and without a script.
pub open spec fn is_malleable_claim(tx: Transaction) -> bool {
    &&& tx.version == 2
    &&& tx.output@.len() == 1
    &&& forall|i: int|
        0 <= i < tx.input@.len() ==> (#[trigger] tx.input@[i]).sequence == RBF_SEQUENCE
            && tx.input@[i].script_sig@.len() == 0
}

/// The holder of the channel's keys. Every operation may fail. What the
/// library hands to a signing operation is stated as what the operation may
/// rely on.
pub trait ClaimSigner {
    /// The revocation key and the witness script of a revoked output, from
    /// the keys of the commitment that holds it.
    fn justice_script(&self, output: &RevokedOutput) -> Option<(PublicKey, Vec<u8>)>;

    /// The signature, in DER form, of input `input_index` of a justice
    /// transaction.
    fn sign_justice_transaction(
        &self,
        justice_tx: &Transaction,
        input_index: usize,
        amount: u64,
        per_commitment_key: &SecretKey,
        htlc: &Option<HTLCOutputInCommitment>,
        on_remote_tx_csv: u16,
    ) -> Option<Vec<u8>>
        requires
            input_index < justice_tx.input@.len(),
            is_malleable_claim(*justice_tx),
            justice_tx.lock_time == 0,
    ;

    /// The witness script of a payment output on the counterparty's
    /// commitment.
    fn remote_htlc_script(&self, output: &RemoteHTLCOutput) -> Option<Vec<u8>>;

    /// The signature, in DER form, of input `input_index` of a claim of
    /// payment outputs on the counterparty's commitment.
    fn sign_remote_htlc_transaction(
        &self,
        htlc_tx: &Transaction,
        input_index: usize,
        amount: u64,
        per_commitment_point: &PublicKey,
        htlc: &HTLCOutputInCommitment,
    ) -> Option<Vec<u8>>
        requires
            input_index < htlc_tx.input@.len(),
            is_malleable_claim(*htlc_tx),
            amount == htlc.amount_msat / 1000,
    ;

    /// The transaction, signed by both sides, that claims a payment output
    /// on our own commitment.
    fn get_fully_signed_htlc_tx(
        &mut self,
        outpoint: &OutPoint,
        preimage: &Option<PaymentPreimage>,
    ) -> Option<Transaction>;

    /// Our own commitment transaction, signed by both sides.
    fn get_fully_signed_local_tx(&mut self, funding_redeemscript: &Vec<u8>) -> Option<Transaction>;
}

/// Whether `witness` is a signature with the flag for all inputs and
/// outputs behind it, then `selector`, then `script`.
pub open spec fn is_claim_witness(
    witness: Seq<Vec<u8>>,
    signature: Seq<u8>,
    selector: Seq<u8>,
    script: Seq<u8>,
) -> bool {
    &&& witness.len() == 3
    &&& witness[0]@ == signature.push(1u8)
    &&& witness[1]@ == selector
    &&& witness[2]@ == script
}

/// What chooses the branch of the script of a payment output: the preimage,
/// or nothing where the payment is taken back after its timelock.
pub open spec fn remote_selector(output: RemoteHTLCOutput) -> Seq<u8> {
    match output.preimage {
        Some(preimage) => preimage.0@,
        None => Seq::empty(),
    }
}

/// The lock time of a claim of the first `upto` payment outputs: the
/// timelock of the last of them that is taken back, and none where all are
/// claimed with their preimage.
pub open spec fn remote_lock_time(inputs: Seq<(OutPoint, RemoteHTLCOutput)>, upto: int) -> u32
    decreases upto,
{
    if upto <= 0 {
        0
    } else if inputs[upto - 1].1.preimage is None {
        inputs[upto - 1].1.htlc.cltv_expiry
    } else {
        remote_lock_time(inputs, upto - 1)
    }
}

/// Whether `tx` is a claim of `outpoints` that pays `value` to
/// `destination_script`, open to replacement, with a full witness on its
/// first `signed` inputs and none on the others.
pub open spec fn is_claim_of(
    tx: Transaction,
    outpoints: Seq<OutPoint>,
    value: u64,
    destination_script: Seq<u8>,
    signed: int,
) -> bool {
    &&& tx.version == 2
    &&& tx.output@.len() == 1
    &&& tx.output@[0].value == value
    &&& tx.output@[0].script_pubkey@ == destination_script
    &&& tx.input@.len() == outpoints.len()
    &&& forall|i: int|
        0 <= i < tx.input@.len() ==> {
            &&& (#[trigger] tx.input@[i]).previous_output == outpoints[i]
            &&& tx.input@[i].script_sig@.len() == 0
            &&& tx.input@[i].sequence == RBF_SEQUENCE
            &&& tx.input@[i].witness@.len() == if i < signed {
                3nat
            } else {
                0nat
            }
            &&& i < signed ==> tx.input@[i].witness@[0]@.len() > 0 && tx.input@[i].witness@[0]@.last()
                == 1
        }
}

/// Gives input `input_index` its witness: the signature with the flag for
/// all inputs and outputs behind it, then `selector`, then `witness_script`.
pub fn attach_witness(
    tx: &mut Transaction,
    input_index: usize,
    signature: Vec<u8>,
    selector: Vec<u8>,
    witness_script: Vec<u8>,
)
    requires
        input_index < old(tx).input@.len(),
    ensures
        final(tx).version == old(tx).version,
        final(tx).lock_time == old(tx).lock_time,
        final(tx).output == old(tx).output,
        final(tx).input@.len() == old(tx).input@.len(),
        forall|i: int|
            0 <= i < old(tx).input@.len() && i != input_index ==> final(tx).input@[i] == old(
                tx,
            ).input@[i],
        final(tx).input@[input_index as int].previous_output == old(
            tx,
        ).input@[input_index as int].previous_output,
        final(tx).input@[input_index as int].script_sig == old(
            tx,
        ).input@[input_index as int].script_sig,
        final(tx).input@[input_index as int].sequence == old(tx).input@[input_index as int].sequence,
        is_claim_witness(
            final(tx).input@[input_index as int].witness@,
            signature@,
            selector@,
            witness_script@,
        ),
{
    let mut signed = signature;
    signed.push(sighash_all());
    let mut witness: Vec<Vec<u8>> = Vec::new();
    witness.push(signed);
    witness.push(selector);
    witness.push(witness_script);
    tx.input[input_index].witness = witness;
}

impl PackageTemplate {
    /// The transaction that makes the claim and pays `value` to
    /// `destination_script`, or none where the signer fails.
    ///
    /// For a malleable package the transaction is of our own making: version
    /// 2, every input open to replacement, and on every input the witness of
    /// signature, branch selector and script. A claim of revoked outputs has
    /// no lock time; a claim of payment outputs has the timelock of the
    /// payments it takes back. For a local package the transaction is the one
    /// that the signer holds.
    ///
    /// A malleable package that claims nothing asks nothing of the signer: its
    /// transaction, without inputs, is always given.
    pub fn package_finalize<S: ClaimSigner>(
        &self,
        signer: &mut S,
        value: u64,
        destination_script: Vec<u8>,
    ) -> (r: Option<Transaction>)
        ensures
            self@.is_malleable() && self@.outpoints().len() == 0 ==> r is Some,
            r is Some && self@.is_malleable() ==> is_claim_of(
                r->0,
                self@.outpoints(),
                value,
                destination_script@,
                self@.outpoints().len() as int,
            ),
            r is Some ==> match self@ {
                PackageView::MalleableJusticeTx { inputs } => {
                    &&& r->0.lock_time == 0
                    &&& forall|i: int|
                        0 <= i < inputs.len() && (#[trigger] inputs[i]).1.htlc is None
                            ==> r->0.input@[i].witness@[1]@ == seq![1u8]
                    &&& forall|i: int|
                        0 <= i < inputs.len() && (#[trigger] inputs[i]).1.htlc is Some
                            ==> r->0.input@[i].witness@[1]@.len() == 33
                },
                PackageView::RemoteHTLCTx { inputs } => {
                    &&& r->0.lock_time == remote_lock_time(inputs, inputs.len() as int)
                    &&& forall|i: int|
                        0 <= i < inputs.len() ==> r->0.input@[i].witness@[1]@ == remote_selector(
                            (#[trigger] inputs[i]).1,
                        )
                },
                _ => true,
            },
    {
        match self {
            PackageTemplate::MalleableJusticeTx { inputs } => {
                let outpoints = self.outpoints();
                let mut bumped_tx = unsigned_claim(&outpoints, value, destination_script);
                let mut i: usize = 0;
                while i < inputs.len()
                    invariant
                        i <= inputs@.len(),
                        outpoints@ == self@.outpoints(),
                        self@ == (PackageView::MalleableJusticeTx { inputs: inputs@ }),
                        bumped_tx.lock_time == 0,
                        is_claim_of(bumped_tx, outpoints@, value, destination_script@, i as int),
                        forall|k: int|
                            0 <= k < i && (#[trigger] inputs@[k]).1.htlc is None
                                ==> bumped_tx.input@[k].witness@[1]@ == seq![1u8],
                        forall|k: int|
                            0 <= k < i && (#[trigger] inputs@[k]).1.htlc is Some
                                ==> bumped_tx.input@[k].witness@[1]@.len() == 33,
                    decreases inputs@.len() - i,
                {
                    let revk = &inputs[i].1;
                    let (revocation_key, witness_script) = match signer.justice_script(revk) {
                        Some(v) => v,
                        None => {
                            return None;
                        },
                    };
                    let sig = match signer.sign_justice_transaction(
                        &bumped_tx,
                        i,
                        revk.amount,
                        &revk.per_commitment_key,
                        &revk.htlc,
                        revk.on_remote_tx_csv,
                    ) {
                        Some(sig) => sig,
                        None => {
                            return None;
                        },
                    };
                    let selector: Vec<u8> = if revk.htlc.is_some() {
                        let key = revocation_key.serialize();
                        let mut bytes: Vec<u8> = Vec::new();
                        let mut k: usize = 0;
                        while k < 33
                            invariant
                                k <= 33,
                                bytes@.len() == k,
                            decreases 33 - k,
                        {
                            bytes.push(key[k]);
                            k = k + 1;
                        }
                        bytes
                    } else {
                        let mut bytes: Vec<u8> = Vec::new();
                        bytes.push(1);
                        assert(bytes@ =~= seq![1u8]);
                        bytes
                    };
                    let ghost before = bumped_tx;
                    attach_witness(&mut bumped_tx, i, sig, selector, witness_script);
                    proof {
                        assert forall|k: int| 0 <= k < i implies bumped_tx.input@[k]
                            == before.input@[k] by {}
                    }
                    i = i + 1;
                }
                Some(bumped_tx)
            },
            PackageTemplate::RemoteHTLCTx { inputs } => {
                let outpoints = self.outpoints();
                let mut bumped_tx = unsigned_claim(&outpoints, value, destination_script);
                let mut i: usize = 0;
                while i < inputs.len()
                    invariant
                        i <= inputs@.len(),
                        outpoints@ == self@.outpoints(),
                        self@ == (PackageView::RemoteHTLCTx { inputs: inputs@ }),
                        bumped_tx.lock_time == remote_lock_time(inputs@, i as int),
                        is_claim_of(bumped_tx, outpoints@, value, destination_script@, i as int),
                        forall|k: int|
                            0 <= k < i ==> bumped_tx.input@[k].witness@[1]@ == remote_selector(
                                (#[trigger] inputs@[k]).1,
                            ),
                    decreases inputs@.len() - i,
                {
                    let rem = &inputs[i].1;
                    let witness_script = match signer.remote_htlc_script(rem) {
                        Some(v) => v,
                        None => {
                            return None;
                        },
                    };
                    if !rem.preimage.is_some() {
                        bumped_tx.lock_time = rem.htlc.cltv_expiry;
                    }
                    let sig = match signer.sign_remote_htlc_transaction(
                        &bumped_tx,
                        i,
                        rem.htlc.amount_msat / 1000,
                        &rem.per_commitment_point,
                        &rem.htlc,
                    ) {
                        Some(sig) => sig,
                        None => {
                            return None;
                        },
                    };
                    let selector: Vec<u8> = match &rem.preimage {
                        Some(preimage) => {
                            let mut bytes: Vec<u8> = Vec::new();
                            let mut k: usize = 0;
                            while k < 32
                                invariant
                                    k <= 32,
                                    bytes@ == preimage.0@.subrange(0, k as int),
                                decreases 32 - k,
                            {
                                bytes.push(preimage.0[k]);
                                proof {
                                    assert(preimage.0@.subrange(0, k + 1) =~= preimage.0@.subrange(
                                        0,
                                        k as int,
                                    ).push(preimage.0@[k as int]));
                                }
                                k = k + 1;
                            }
                            assert(preimage.0@.subrange(0, 32) =~= preimage.0@);
                            bytes
                        },
                        None => Vec::new(),
                    };
                    let ghost before = bumped_tx;
                    attach_witness(&mut bumped_tx, i, sig, selector, witness_script);
                    proof {
                        assert forall|k: int| 0 <= k < i implies bumped_tx.input@[k]
                            == before.input@[k] by {}
                    }
                    i = i + 1;
                }
                Some(bumped_tx)
            },
            PackageTemplate::LocalHTLCTx { outpoint, output } => {
                signer.get_fully_signed_htlc_tx(outpoint, &output.preimage)
            },
            PackageTemplate::LocalCommitmentTx { output, .. } => {
                signer.get_fully_signed_local_tx(&output.funding_redeemscript)
            },
        }
    }
}

} // verus!
