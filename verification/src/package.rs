//! Claim packages: what is claimed on chain and from which outputs. A
//! malleable package claims any number of outputs in one transaction of our
//! own making and can be merged and split; a local package stands for one
//! transaction that the counterparty signed beforehand.

use crate::outputs::{
    HTLCOutputInCommitment,
    InputDescriptors,
    LocalFundingOutput,
    LocalHTLCOutput,
    RemoteHTLCOutput,
    RevokedOutput,
};
use crate::primitives::{OutPoint, PaymentPreimage, PublicKey, SecretKey};
use crate::transaction::{
    Transaction,
    TxIn,
    TxOut,
    base_size,
    inputs_size,
    outputs_size,
    varint_size,
    weight_without_witness,
    without_witness,
};
use vstd::prelude::*;

verus! {

/// The weight of the segwit marker and flag.
pub const SEGWIT_FLAGS_WEIGHT: usize = 2;

/// The sequence number of every input of a claim: it signals that the claim
/// may be replaced by one that pays a higher fee.
pub const RBF_SEQUENCE: u32 = 0xfffffffd;

/// The expected weight of the witness that spends an output of kind `input`:
/// the count of witness elements, then each element behind its length.
pub open spec fn witness_weight(input: InputDescriptors) -> nat {
    match input {
        InputDescriptors::RevokedOfferedHTLC => 243,
        InputDescriptors::RevokedReceivedHTLC => 249,
        InputDescriptors::OfferedHTLC => 242,
        InputDescriptors::ReceivedHTLC => 217,
        InputDescriptors::RevokedOutput => 155,
    }
}

/// The expected weight of the witnesses of the first `upto` inputs.
pub open spec fn witnesses_weight(inputs: Seq<InputDescriptors>, upto: int) -> nat
    decreases upto,
{
    if upto <= 0 {
        0
    } else {
        witnesses_weight(inputs, upto - 1) + witness_weight(inputs[upto - 1])
    }
}

/// The weight of the witnesses depends only on the inputs counted, and no
/// witness weighs more than 249.
pub proof fn lemma_witnesses_weight_prefix(a: Seq<InputDescriptors>, b: Seq<InputDescriptors>, upto: int)
    requires
        upto <= a.len(),
        upto <= b.len(),
        forall|i: int| 0 <= i < upto ==> a[i] == b[i],
    ensures
        witnesses_weight(a, upto) == witnesses_weight(b, upto),
        witnesses_weight(a, upto) <= 249 * upto || upto < 0,
    decreases upto,
{
    if upto > 0 {
        lemma_witnesses_weight_prefix(a, b, upto - 1);
    }
}

/// The expected weight of the witnesses of a claim with the given inputs,
/// with the segwit marker and flag. Expected weights are used because
/// signatures vary in length.
pub fn get_witnesses_weight(inputs: &[InputDescriptors]) -> (tx_weight: usize)
    requires
        2 + witnesses_weight(inputs@, inputs@.len() as int) <= usize::MAX,
    ensures
        tx_weight == 2 + witnesses_weight(inputs@, inputs@.len() as int),
{
    let mut tx_weight: usize = SEGWIT_FLAGS_WEIGHT;
    let mut i: usize = 0;
    while i < inputs.len()
        invariant
            i <= inputs@.len(),
            2 + witnesses_weight(inputs@, inputs@.len() as int) <= usize::MAX,
            tx_weight == 2 + witnesses_weight(inputs@, i as int),
        decreases inputs@.len() - i,
    {
        proof {
            lemma_witnesses_weight_monotone(inputs@, i + 1, inputs@.len() as int);
        }
        tx_weight = tx_weight + match inputs[i] {
            InputDescriptors::RevokedOfferedHTLC => 1 + 1 + 73 + 1 + 33 + 1 + 133,
            InputDescriptors::RevokedReceivedHTLC => 1 + 1 + 73 + 1 + 33 + 1 + 139,
            InputDescriptors::OfferedHTLC => 1 + 1 + 73 + 1 + 32 + 1 + 133,
            InputDescriptors::ReceivedHTLC => 1 + 1 + 73 + 1 + 1 + 1 + 139,
            InputDescriptors::RevokedOutput => 1 + 1 + 73 + 1 + 1 + 1 + 77,
        };
        i = i + 1;
    }
    tx_weight
}

/// More inputs weigh no less.
pub proof fn lemma_witnesses_weight_monotone(inputs: Seq<InputDescriptors>, a: int, b: int)
    requires
        a <= b,
    ensures
        witnesses_weight(inputs, a) <= witnesses_weight(inputs, b),
    decreases b - a,
{
    if a < b {
        lemma_witnesses_weight_monotone(inputs, a, b - 1);
    }
}

/// Whether `entries` hold an entry for `key`.
pub open spec fn has_entry<V>(entries: Seq<(OutPoint, V)>, key: OutPoint) -> bool {
    exists|i: int| 0 <= i < entries.len() && (#[trigger] entries[i]).0 == key
}

/// Whether `i` is the first position of an entry for `key`.
pub open spec fn is_first_entry<V>(entries: Seq<(OutPoint, V)>, key: OutPoint, i: int) -> bool {
    &&& 0 <= i < entries.len()
    &&& entries[i].0 == key
    &&& forall|j: int| 0 <= j < i ==> (#[trigger] entries[j]).0 != key
}

/// Whether no two entries have one key.
pub open spec fn distinct_keys<V>(entries: Seq<(OutPoint, V)>) -> bool {
    forall|i: int, j: int|
        0 <= i < entries.len() && 0 <= j < entries.len() && i != j ==> (#[trigger] entries[i]).0
            != (#[trigger] entries[j]).0
}

/// The entries once `key` stands for `value`: in the place of the entry that
/// `key` had, or at the end.
pub open spec fn entries_with<V>(entries: Seq<(OutPoint, V)>, key: OutPoint, value: V) -> Seq<
    (OutPoint, V),
> {
    if has_entry(entries, key) {
        entries.update(choose|i: int| is_first_entry(entries, key, i), (key, value))
    } else {
        entries.push((key, value))
    }
}

/// `base` once the first `upto` entries of `other` have been put into it, in
/// their order.
pub open spec fn merged<V>(base: Seq<(OutPoint, V)>, other: Seq<(OutPoint, V)>, upto: int) -> Seq<
    (OutPoint, V),
>
    decreases upto,
{
    if upto <= 0 {
        base
    } else {
        entries_with(merged(base, other, upto - 1), other[upto - 1].0, other[upto - 1].1)
    }
}

/// The outpoints of the entries, in their order.
pub open spec fn outpoints_of<V>(entries: Seq<(OutPoint, V)>) -> Seq<OutPoint> {
    Seq::new(entries.len(), |i: int| entries[i].0)
}

/// What the first `upto` revoked outputs hold, in satoshis.
pub open spec fn justice_sats(inputs: Seq<(OutPoint, RevokedOutput)>, upto: int) -> nat
    decreases upto,
{
    if upto <= 0 {
        0
    } else {
        justice_sats(inputs, upto - 1) + inputs[upto - 1].1.amount as nat
    }
}

/// What the first `upto` payment outputs hold, in whole satoshis each.
pub open spec fn remote_sats(inputs: Seq<(OutPoint, RemoteHTLCOutput)>, upto: int) -> nat
    decreases upto,
{
    if upto <= 0 {
        0
    } else {
        remote_sats(inputs, upto - 1) + (inputs[upto - 1].1.htlc.amount_msat / 1000) as nat
    }
}

/// The kind of witness that claims a payment output of the counterparty:
/// with the preimage it is one we were offered, without it one we offered.
pub open spec fn remote_descriptor(output: RemoteHTLCOutput) -> InputDescriptors {
    if output.preimage is Some {
        InputDescriptors::OfferedHTLC
    } else {
        InputDescriptors::ReceivedHTLC
    }
}

/// The expected weight of the witnesses that claim the first `upto` revoked
/// outputs.
pub open spec fn justice_witnesses(inputs: Seq<(OutPoint, RevokedOutput)>, upto: int) -> nat
    decreases upto,
{
    if upto <= 0 {
        0
    } else {
        justice_witnesses(inputs, upto - 1) + witness_weight(inputs[upto - 1].1.input_descriptor)
    }
}

/// The expected weight of the witnesses that claim the first `upto` payment
/// outputs.
pub open spec fn remote_witnesses(inputs: Seq<(OutPoint, RemoteHTLCOutput)>, upto: int) -> nat
    decreases upto,
{
    if upto <= 0 {
        0
    } else {
        remote_witnesses(inputs, upto - 1) + witness_weight(remote_descriptor(inputs[upto - 1].1))
    }
}

/// The size, without witnesses, of a claim with `inputs` inputs that pays to
/// one output with a script of `script_len` bytes: every input has an empty
/// script.
pub open spec fn claim_base_size(inputs: nat, script_len: nat) -> nat {
    4 + varint_size(inputs) + 41 * inputs + 1 + 8 + varint_size(script_len) + script_len + 4
}

/// A claim of one or several outputs, see the variants.
#[derive(Clone, Debug, PartialEq, Eq)]
pub enum PackageTemplate {
    /// Revoked outputs of the counterparty, which we punish. No outpoint
    /// stands twice.
    MalleableJusticeTx { inputs: Vec<(OutPoint, RevokedOutput)> },
    /// Payment outputs on the counterparty's commitment. No outpoint stands
    /// twice.
    RemoteHTLCTx { inputs: Vec<(OutPoint, RemoteHTLCOutput)> },
    /// A payment output on our own commitment.
    LocalHTLCTx { outpoint: OutPoint, output: LocalHTLCOutput },
    /// The funding output, spent by our own commitment.
    LocalCommitmentTx { outpoint: OutPoint, output: LocalFundingOutput },
}

/// A package with its vectors as sequences.
#[verifier::ext_equal]
pub enum PackageView {
    MalleableJusticeTx { inputs: Seq<(OutPoint, RevokedOutput)> },
    RemoteHTLCTx { inputs: Seq<(OutPoint, RemoteHTLCOutput)> },
    LocalHTLCTx { outpoint: OutPoint, output: LocalHTLCOutput },
    LocalCommitmentTx { outpoint: OutPoint, funding_redeemscript: Seq<u8> },
}

impl View for PackageTemplate {
    type V = PackageView;

    open spec fn view(&self) -> PackageView {
        match *self {
            PackageTemplate::MalleableJusticeTx { inputs } => PackageView::MalleableJusticeTx {
                inputs: inputs@,
            },
            PackageTemplate::RemoteHTLCTx { inputs } => PackageView::RemoteHTLCTx {
                inputs: inputs@,
            },
            PackageTemplate::LocalHTLCTx { outpoint, output } => PackageView::LocalHTLCTx {
                outpoint,
                output,
            },
            PackageTemplate::LocalCommitmentTx { outpoint, output } => PackageView::LocalCommitmentTx {
                outpoint,
                funding_redeemscript: output.funding_redeemscript@,
            },
        }
    }
}

impl PackageView {
    /// Whether the package can be merged and split.
    pub open spec fn is_malleable(self) -> bool {
        self is MalleableJusticeTx || self is RemoteHTLCTx
    }

    /// Whether two packages are malleable and of one kind.
    pub open spec fn mergeable_with(self, other: PackageView) -> bool {
        (self is MalleableJusticeTx && other is MalleableJusticeTx) || (self is RemoteHTLCTx
            && other is RemoteHTLCTx)
    }

    /// Whether no outpoint stands twice in the package.
    pub open spec fn well_formed(self) -> bool {
        match self {
            PackageView::MalleableJusticeTx { inputs } => distinct_keys(inputs),
            PackageView::RemoteHTLCTx { inputs } => distinct_keys(inputs),
            _ => true,
        }
    }

    /// The outpoints that the package claims, in their order.
    pub open spec fn outpoints(self) -> Seq<OutPoint> {
        match self {
            PackageView::MalleableJusticeTx { inputs } => outpoints_of(inputs),
            PackageView::RemoteHTLCTx { inputs } => outpoints_of(inputs),
            PackageView::LocalHTLCTx { outpoint, .. } => seq![outpoint],
            PackageView::LocalCommitmentTx { outpoint, .. } => seq![outpoint],
        }
    }

    /// What the package claims, in satoshis: what revoked outputs hold, what
    /// payment outputs of the counterparty hold in whole satoshis, and
    /// nothing for a local package.
    pub open spec fn claimable_sats(self) -> nat {
        match self {
            PackageView::MalleableJusticeTx { inputs } => justice_sats(inputs, inputs.len() as int),
            PackageView::RemoteHTLCTx { inputs } => remote_sats(inputs, inputs.len() as int),
            _ => 0,
        }
    }

    /// The weight that the claim is predicted to have when it pays to
    /// `destination_script`: four times its size without witnesses, the
    /// segwit marker and flag, and the expected witness of each input. A
    /// local package has no weight of its own making.
    pub open spec fn predicted_weight(self, destination_script: Seq<u8>) -> nat {
        match self {
            PackageView::MalleableJusticeTx { inputs } => 4 * claim_base_size(
                inputs.len(),
                destination_script.len(),
            ) + 2 + justice_witnesses(inputs, inputs.len() as int),
            PackageView::RemoteHTLCTx { inputs } => 4 * claim_base_size(
                inputs.len(),
                destination_script.len(),
            ) + 2 + remote_witnesses(inputs, inputs.len() as int),
            _ => 0,
        }
    }

    /// The package once `other` has been merged into it.
    pub open spec fn merged_with(self, other: PackageView) -> PackageView {
        match (self, other) {
            (
                PackageView::MalleableJusticeTx { inputs },
                PackageView::MalleableJusticeTx { inputs: more },
            ) => PackageView::MalleableJusticeTx {
                inputs: merged(inputs, more, more.len() as int),
            },
            (
                PackageView::RemoteHTLCTx { inputs },
                PackageView::RemoteHTLCTx { inputs: more },
            ) => PackageView::RemoteHTLCTx { inputs: merged(inputs, more, more.len() as int) },
            _ => self,
        }
    }

    /// Whether the package claims `outpoint`.
    pub open spec fn claims(self, outpoint: OutPoint) -> bool {
        match self {
            PackageView::MalleableJusticeTx { inputs } => has_entry(inputs, outpoint),
            PackageView::RemoteHTLCTx { inputs } => has_entry(inputs, outpoint),
            PackageView::LocalHTLCTx { outpoint: own, .. } => own == outpoint,
            PackageView::LocalCommitmentTx { outpoint: own, .. } => own == outpoint,
        }
    }
}

/// The first position of an entry for `key`.
pub fn find_entry<V>(entries: &Vec<(OutPoint, V)>, key: &OutPoint) -> (r: Option<usize>)
    ensures
        match r {
            Some(i) => is_first_entry(entries@, *key, i as int),
            None => !has_entry(entries@, *key),
        },
{
    let mut i: usize = 0;
    while i < entries.len()
        invariant
            i <= entries@.len(),
            forall|j: int| 0 <= j < i ==> (#[trigger] entries@[j]).0 != *key,
        decreases entries@.len() - i,
    {
        if entries[i].0.same(key) {
            return Some(i);
        }
        i = i + 1;
    }
    None
}

/// Lets `key` stand for `value`: in the place of the entry that `key` had,
/// or at the end.
pub fn insert_entry<V>(entries: &mut Vec<(OutPoint, V)>, key: OutPoint, value: V)
    ensures
        final(entries)@ == entries_with(old(entries)@, key, value),
{
    match find_entry(entries, &key) {
        Some(i) => {
            proof {
                let chosen = choose|k: int| is_first_entry(entries@, key, k);
                assert(is_first_entry(entries@, key, i as int));
                assert(chosen == i);
            }
            entries[i] = (key, value);
            assert(entries@ =~= entries_with(old(entries)@, key, value));
        },
        None => {
            entries.push((key, value));
        },
    }
}

/// Puts the entries of `more` into `entries`, in their order.
fn merge_entries<V: Copy>(entries: &mut Vec<(OutPoint, V)>, more: &Vec<(OutPoint, V)>)
    ensures
        final(entries)@ == merged(old(entries)@, more@, more@.len() as int),
{
    let mut i: usize = 0;
    while i < more.len()
        invariant
            i <= more@.len(),
            entries@ == merged(old(entries)@, more@, i as int),
        decreases more@.len() - i,
    {
        let entry = more[i];
        insert_entry(entries, entry.0, entry.1);
        i = i + 1;
    }
}

/// The outpoints of the entries, in their order.
fn entry_outpoints<V>(entries: &Vec<(OutPoint, V)>) -> (out: Vec<OutPoint>)
    ensures
        out@ == outpoints_of(entries@),
{
    let mut out: Vec<OutPoint> = Vec::with_capacity(entries.len());
    let mut i: usize = 0;
    while i < entries.len()
        invariant
            i <= entries@.len(),
            out@.len() == i,
            forall|j: int| 0 <= j < i ==> out@[j] == (#[trigger] entries@[j]).0,
        decreases entries@.len() - i,
    {
        out.push(entries[i].0);
        i = i + 1;
    }
    assert(out@ =~= outpoints_of(entries@));
    out
}

/// The inputs of a claim of the given outpoints, without scripts and
/// witnesses.
fn claim_inputs(outpoints: &Vec<OutPoint>) -> (input: Vec<TxIn>)
    ensures
        input@.len() == outpoints@.len(),
        inputs_size(input@, input@.len() as int) == 41 * outpoints@.len(),
        forall|i: int|
            0 <= i < input@.len() ==> {
                &&& (#[trigger] input@[i]).previous_output == outpoints@[i]
                &&& input@[i].script_sig@.len() == 0
                &&& input@[i].sequence == RBF_SEQUENCE
                &&& input@[i].witness@.len() == 0
            },
{
    let mut input: Vec<TxIn> = Vec::new();
    let mut i: usize = 0;
    while i < outpoints.len()
        invariant
            i <= outpoints@.len(),
            input@.len() == i,
            inputs_size(input@, i as int) == 41 * i,
            forall|j: int|
                0 <= j < i ==> {
                    &&& (#[trigger] input@[j]).previous_output == outpoints@[j]
                    &&& input@[j].script_sig@.len() == 0
                    &&& input@[j].sequence == RBF_SEQUENCE
                    &&& input@[j].witness@.len() == 0
                },
        decreases outpoints@.len() - i,
    {
        let ghost before = input@;
        input.push(
            TxIn {
                previous_output: outpoints[i],
                script_sig: Vec::new(),
                sequence: RBF_SEQUENCE,
                witness: Vec::new(),
            },
        );
        proof {
            lemma_inputs_size_prefix(before, input@, i as int);
        }
        i = i + 1;
    }
    input
}

/// The size of inputs depends only on the inputs counted.
pub proof fn lemma_inputs_size_prefix(a: Seq<TxIn>, b: Seq<TxIn>, upto: int)
    requires
        upto <= a.len(),
        upto <= b.len(),
        forall|i: int| 0 <= i < upto ==> a[i] == b[i],
    ensures
        inputs_size(a, upto) == inputs_size(b, upto),
    decreases upto,
{
    if upto > 0 {
        lemma_inputs_size_prefix(a, b, upto - 1);
    }
}

/// The claim of the given outpoints that pays `value` to
/// `destination_script`, before it is signed: version 2, no lock time, and
/// every input open to replacement.
pub fn unsigned_claim(outpoints: &Vec<OutPoint>, value: u64, destination_script: Vec<u8>) -> (tx:
    Transaction)
    ensures
        tx.version == 2,
        tx.lock_time == 0,
        tx.input@.len() == outpoints@.len(),
        forall|i: int|
            0 <= i < tx.input@.len() ==> {
                &&& (#[trigger] tx.input@[i]).previous_output == outpoints@[i]
                &&& tx.input@[i].script_sig@.len() == 0
                &&& tx.input@[i].sequence == RBF_SEQUENCE
                &&& tx.input@[i].witness@.len() == 0
            },
        tx.output@.len() == 1,
        tx.output@[0].value == value,
        tx.output@[0].script_pubkey == destination_script,
        base_size(tx) == claim_base_size(outpoints@.len(), destination_script@.len()),
        without_witness(tx),
{
    let input = claim_inputs(outpoints);
    let mut output: Vec<TxOut> = Vec::new();
    output.push(TxOut { script_pubkey: destination_script, value });
    proof {
        reveal_with_fuel(outputs_size, 2);
    }
    Transaction { version: 2, lock_time: 0, input, output }
}

impl PackageTemplate {
    /// The outpoints that the package claims, in their order.
    pub fn outpoints(&self) -> (out: Vec<OutPoint>)
        ensures
            out@ == self@.outpoints(),
    {
        match self {
            PackageTemplate::MalleableJusticeTx { inputs } => entry_outpoints(inputs),
            PackageTemplate::RemoteHTLCTx { inputs } => entry_outpoints(inputs),
            PackageTemplate::LocalHTLCTx { outpoint, .. } => {
                let mut outpoints = Vec::with_capacity(1);
                outpoints.push(*outpoint);
                outpoints
            },
            PackageTemplate::LocalCommitmentTx { outpoint, .. } => {
                let mut outpoints = Vec::with_capacity(1);
                outpoints.push(*outpoint);
                outpoints
            },
        }
    }

    /// Takes the claim of `outp` out of a malleable package and gives it as a
    /// package of its own, of the same kind. Nothing is taken and nothing
    /// given where the package does not claim `outp`.
    pub fn package_split(&mut self, outp: &OutPoint) -> (split: Option<PackageTemplate>)
        requires
            old(self)@.is_malleable(),
        ensures
            split is Some <==> old(self)@.claims(*outp),
            !old(self)@.claims(*outp) ==> final(self)@ == old(self)@,
            old(self)@.well_formed() ==> final(self)@.well_formed(),
            split is Some ==> split->0@.well_formed(),
            match old(self)@ {
                PackageView::MalleableJusticeTx { inputs } => forall|i: int|
                    is_first_entry(inputs, *outp, i) ==> {
                        &&& final(self)@ == (PackageView::MalleableJusticeTx {
                            inputs: inputs.remove(i),
                        })
                        &&& split is Some && split->0@ == (PackageView::MalleableJusticeTx {
                            inputs: seq![(*outp, (#[trigger] inputs[i]).1)],
                        })
                    },
                PackageView::RemoteHTLCTx { inputs } => forall|i: int|
                    is_first_entry(inputs, *outp, i) ==> {
                        &&& final(self)@ == (PackageView::RemoteHTLCTx { inputs: inputs.remove(i) })
                        &&& split is Some && split->0@ == (PackageView::RemoteHTLCTx {
                            inputs: seq![(*outp, (#[trigger] inputs[i]).1)],
                        })
                    },
                _ => true,
            },
    {
        match self {
            PackageTemplate::MalleableJusticeTx { inputs } => {
                match find_entry(inputs, outp) {
                    Some(i) => {
                        let ghost before = inputs@;
                        let removed = inputs.remove(i);
                        let mut input_splitted = Vec::with_capacity(1);
                        input_splitted.push((*outp, removed.1));
                        let split = PackageTemplate::MalleableJusticeTx { inputs: input_splitted };
                        proof {
                            assert(split@->MalleableJusticeTx_inputs =~= seq![(*outp, removed.1)]);
                            lemma_remove_keeps_distinct(before, i as int);
                        }
                        Some(split)
                    },
                    None => None,
                }
            },
            PackageTemplate::RemoteHTLCTx { inputs } => {
                match find_entry(inputs, outp) {
                    Some(i) => {
                        let ghost before = inputs@;
                        let removed = inputs.remove(i);
                        let mut input_splitted = Vec::with_capacity(1);
                        input_splitted.push((*outp, removed.1));
                        let split = PackageTemplate::RemoteHTLCTx { inputs: input_splitted };
                        proof {
                            assert(split@->RemoteHTLCTx_inputs =~= seq![(*outp, removed.1)]);
                            lemma_remove_keeps_distinct(before, i as int);
                        }
                        Some(split)
                    },
                    None => None,
                }
            },
            _ => None,
        }
    }

    /// Puts the claims of `template` into this package, in their order. A
    /// claim of an outpoint that this package claims already takes the place
    /// of the claim it had. Both packages are malleable and of one kind.
    pub fn package_merge(&mut self, template: PackageTemplate)
        requires
            old(self)@.mergeable_with(template@),
        ensures
            final(self)@ == old(self)@.merged_with(template@),
            old(self)@.well_formed() ==> final(self)@.well_formed(),
    {
        proof {
            lemma_merge_outpoints(self@, template@);
        }
        match self {
            PackageTemplate::MalleableJusticeTx { inputs } => {
                match &template {
                    PackageTemplate::MalleableJusticeTx { inputs: more } => {
                        merge_entries(inputs, more);
                    },
                    _ => {},
                }
            },
            PackageTemplate::RemoteHTLCTx { inputs } => {
                match &template {
                    PackageTemplate::RemoteHTLCTx { inputs: more } => {
                        merge_entries(inputs, more);
                    },
                    _ => {},
                }
            },
            _ => {},
        }
    }

    /// What the package claims, in satoshis, held at the largest 64-bit
    /// value.
    pub fn package_amounts(&self) -> (amounts: u64)
        ensures
            amounts == if self@.claimable_sats() > u64::MAX {
                u64::MAX as nat
            } else {
                self@.claimable_sats()
            },
    {
        match self {
            PackageTemplate::MalleableJusticeTx { inputs } => {
                let mut amounts: u64 = 0;
                let mut i: usize = 0;
                while i < inputs.len()
                    invariant
                        i <= inputs@.len(),
                        amounts == if justice_sats(inputs@, i as int) > u64::MAX {
                            u64::MAX as nat
                        } else {
                            justice_sats(inputs@, i as int)
                        },
                    decreases inputs@.len() - i,
                {
                    amounts = amounts.saturating_add(inputs[i].1.amount);
                    i = i + 1;
                }
                amounts
            },
            PackageTemplate::RemoteHTLCTx { inputs } => {
                let mut amounts: u64 = 0;
                let mut i: usize = 0;
                while i < inputs.len()
                    invariant
                        i <= inputs@.len(),
                        amounts == if remote_sats(inputs@, i as int) > u64::MAX {
                            u64::MAX as nat
                        } else {
                            remote_sats(inputs@, i as int)
                        },
                    decreases inputs@.len() - i,
                {
                    amounts = amounts.saturating_add(inputs[i].1.htlc.amount_msat / 1000);
                    i = i + 1;
                }
                amounts
            },
            _ => 0,
        }
    }

    /// The weight that the claim is predicted to have when it pays to
    /// `destination_script`. The weight must fit the machine's word.
    pub fn package_weight(&self, destination_script: &Vec<u8>) -> (weight: usize)
        requires
            self@.predicted_weight(destination_script@) <= usize::MAX,
        ensures
            weight == self@.predicted_weight(destination_script@),
    {
        let mut descriptors: Vec<InputDescriptors> = Vec::new();
        match self {
            PackageTemplate::MalleableJusticeTx { inputs } => {
                let mut i: usize = 0;
                while i < inputs.len()
                    invariant
                        i <= inputs@.len(),
                        descriptors@.len() == i,
                        witnesses_weight(descriptors@, i as int) == justice_witnesses(
                            inputs@,
                            i as int,
                        ),
                    decreases inputs@.len() - i,
                {
                    let ghost before = descriptors@;
                    descriptors.push(inputs[i].1.input_descriptor);
                    proof {
                        lemma_witnesses_weight_prefix(before, descriptors@, i as int);
                    }
                    i = i + 1;
                }
            },
            PackageTemplate::RemoteHTLCTx { inputs } => {
                let mut i: usize = 0;
                while i < inputs.len()
                    invariant
                        i <= inputs@.len(),
                        descriptors@.len() == i,
                        witnesses_weight(descriptors@, i as int) == remote_witnesses(
                            inputs@,
                            i as int,
                        ),
                    decreases inputs@.len() - i,
                {
                    let ghost before = descriptors@;
                    descriptors.push(
                        if inputs[i].1.preimage.is_some() {
                            InputDescriptors::OfferedHTLC
                        } else {
                            InputDescriptors::ReceivedHTLC
                        },
                    );
                    proof {
                        lemma_witnesses_weight_prefix(before, descriptors@, i as int);
                    }
                    i = i + 1;
                }
            },
            _ => {
                return 0;
            },
        }
        let outpoints = self.outpoints();
        let script = crate::primitives::copy_bytes(destination_script);
        let bumped_tx = unsigned_claim(&outpoints, 0, script);
        let witnesses_weight = get_witnesses_weight(descriptors.as_slice());
        weight_without_witness(&bumped_tx) + witnesses_weight
    }

    /// The claim of one revoked output.
    pub fn build_malleable_justice_tx(
        per_commitment_point: PublicKey,
        per_commitment_key: SecretKey,
        remote_delayed_payment_base_key: PublicKey,
        remote_htlc_base_key: PublicKey,
        input_descriptor: InputDescriptors,
        txid: [u8; 32],
        vout: u32,
        amount: u64,
        htlc: Option<HTLCOutputInCommitment>,
        on_remote_tx_csv: u16,
    ) -> (package: PackageTemplate)
        ensures
            package@ == (PackageView::MalleableJusticeTx {
                inputs: seq![
                    (
                        OutPoint { txid, vout },
                        RevokedOutput {
                            per_commitment_point,
                            remote_delayed_payment_base_key,
                            remote_htlc_base_key,
                            per_commitment_key,
                            input_descriptor,
                            amount,
                            htlc,
                            on_remote_tx_csv,
                        },
                    ),
                ],
            }),
    {
        let revk_outp = RevokedOutput {
            per_commitment_point,
            remote_delayed_payment_base_key,
            remote_htlc_base_key,
            per_commitment_key,
            input_descriptor,
            amount,
            htlc,
            on_remote_tx_csv,
        };
        let mut inputs = Vec::with_capacity(1);
        inputs.push((OutPoint { txid, vout }, revk_outp));
        let package = PackageTemplate::MalleableJusticeTx { inputs };
        assert(package@->MalleableJusticeTx_inputs =~= seq![(OutPoint { txid, vout }, revk_outp)]);
        package
    }

    /// The claim of one payment output on the counterparty's commitment.
    pub fn build_remote_htlc_tx(
        per_commitment_point: PublicKey,
        remote_delayed_payment_base_key: PublicKey,
        remote_htlc_base_key: PublicKey,
        preimage: Option<PaymentPreimage>,
        htlc: HTLCOutputInCommitment,
        txid: [u8; 32],
        vout: u32,
    ) -> (package: PackageTemplate)
        ensures
            package@ == (PackageView::RemoteHTLCTx {
                inputs: seq![
                    (
                        OutPoint { txid, vout },
                        RemoteHTLCOutput {
                            per_commitment_point,
                            remote_delayed_payment_base_key,
                            remote_htlc_base_key,
                            preimage,
                            htlc,
                        },
                    ),
                ],
            }),
    {
        let remote_outp = RemoteHTLCOutput {
            per_commitment_point,
            remote_delayed_payment_base_key,
            remote_htlc_base_key,
            preimage,
            htlc,
        };
        let mut inputs = Vec::with_capacity(1);
        inputs.push((OutPoint { txid, vout }, remote_outp));
        let package = PackageTemplate::RemoteHTLCTx { inputs };
        assert(package@->RemoteHTLCTx_inputs =~= seq![(OutPoint { txid, vout }, remote_outp)]);
        package
    }

    /// The claim of a payment output on our own commitment.
    pub fn build_local_htlc_tx(
        preimage: Option<PaymentPreimage>,
        amount: u64,
        txid: [u8; 32],
        vout: u32,
    ) -> (package: PackageTemplate)
        ensures
            package@ == (PackageView::LocalHTLCTx {
                outpoint: OutPoint { txid, vout },
                output: LocalHTLCOutput { preimage, amount },
            }),
    {
        let htlc_outp = LocalHTLCOutput { preimage, amount };
        PackageTemplate::LocalHTLCTx { outpoint: OutPoint { txid, vout }, output: htlc_outp }
    }

    /// The claim of the funding output by our own commitment.
    pub fn build_local_commitment_tx(funding_redeemscript: Vec<u8>, txid: [u8; 32], vout: u32) -> (package:
        PackageTemplate)
        ensures
            package@ == (PackageView::LocalCommitmentTx {
                outpoint: OutPoint { txid, vout },
                funding_redeemscript: funding_redeemscript@,
            }),
    {
        let funding_outp = LocalFundingOutput { funding_redeemscript };
        PackageTemplate::LocalCommitmentTx { outpoint: OutPoint { txid, vout }, output: funding_outp }
    }
}

impl Default for PackageTemplate {
    /// A claim of revoked outputs that claims nothing yet.
    fn default() -> (package: PackageTemplate)
        ensures
            package@ == (PackageView::MalleableJusticeTx { inputs: Seq::empty() }),
    {
        PackageTemplate::MalleableJusticeTx { inputs: Vec::new() }
    }
}

/// Entries with their keys apart keep them apart when one is taken out.
pub proof fn lemma_remove_keeps_distinct<V>(entries: Seq<(OutPoint, V)>, i: int)
    requires
        0 <= i < entries.len(),
    ensures
        distinct_keys(entries) ==> distinct_keys(entries.remove(i)),
{
    let after = entries.remove(i);
    if distinct_keys(entries) {
        assert forall|a: int, b: int|
            0 <= a < after.len() && 0 <= b < after.len() && a != b implies (#[trigger] after[a]).0
            != (#[trigger] after[b]).0 by {
            let a0 = if a < i {
                a
            } else {
                a + 1
            };
            let b0 = if b < i {
                b
            } else {
                b + 1
            };
            assert(after[a] == entries[a0]);
            assert(after[b] == entries[b0]);
        }
    }
}

/// A key with an entry has a first entry.
pub proof fn lemma_first_entry<V>(entries: Seq<(OutPoint, V)>, key: OutPoint, k: int)
    requires
        0 <= k < entries.len(),
        entries[k].0 == key,
    ensures
        has_entry(entries, key),
        is_first_entry(entries, key, choose|i: int| is_first_entry(entries, key, i)),
    decreases k,
{
    if forall|j: int| 0 <= j < k ==> (#[trigger] entries[j]).0 != key {
        assert(is_first_entry(entries, key, k));
    } else {
        let j = choose|j: int| 0 <= j < k && (#[trigger] entries[j]).0 == key;
        lemma_first_entry(entries, key, j);
    }
}

/// Letting a key stand for a value adds the key to the keys and nothing
/// else, and keeps the keys apart.
pub proof fn lemma_entries_with<V>(entries: Seq<(OutPoint, V)>, key: OutPoint, value: V)
    ensures
        forall|other: OutPoint|
            #![trigger has_entry(entries_with(entries, key, value), other)]
            has_entry(entries_with(entries, key, value), other) <==> (other == key || has_entry(
                entries,
                other,
            )),
        distinct_keys(entries) ==> distinct_keys(entries_with(entries, key, value)),
        !has_entry(entries, key) ==> entries_with(entries, key, value) == entries.push(
            (key, value),
        ),
{
    let after = entries_with(entries, key, value);
    if has_entry(entries, key) {
        let k = choose|i: int| 0 <= i < entries.len() && (#[trigger] entries[i]).0 == key;
        lemma_first_entry(entries, key, k);
        let at = choose|i: int| is_first_entry(entries, key, i);
        assert(after == entries.update(at, (key, value)));
        assert forall|other: OutPoint| has_entry(after, other) <==> (other == key || has_entry(
            entries,
            other,
        )) by {
            if has_entry(after, other) {
                let i = choose|i: int| 0 <= i < after.len() && (#[trigger] after[i]).0 == other;
                if i != at {
                    assert(entries[i].0 == other);
                }
            }
            if has_entry(entries, other) {
                let i = choose|i: int|
                    0 <= i < entries.len() && (#[trigger] entries[i]).0 == other;
                assert(after[i].0 == other);
            }
            if other == key {
                assert(after[at].0 == key);
            }
        }
        if distinct_keys(entries) {
            assert forall|i: int, j: int|
                0 <= i < after.len() && 0 <= j < after.len() && i != j implies (
            #[trigger] after[i]).0 != (#[trigger] after[j]).0 by {
                assert(after[i].0 == entries[i].0);
                assert(after[j].0 == entries[j].0);
            }
        }
    } else {
        assert(after == entries.push((key, value)));
        assert forall|other: OutPoint| has_entry(after, other) <==> (other == key || has_entry(
            entries,
            other,
        )) by {
            if has_entry(after, other) {
                let i = choose|i: int| 0 <= i < after.len() && (#[trigger] after[i]).0 == other;
                if i < entries.len() {
                    assert(entries[i].0 == other);
                }
            }
            if has_entry(entries, other) {
                let i = choose|i: int|
                    0 <= i < entries.len() && (#[trigger] entries[i]).0 == other;
                assert(after[i].0 == other);
            }
            if other == key {
                assert(after[entries.len() as int].0 == key);
            }
        }
        if distinct_keys(entries) {
            assert forall|i: int, j: int|
                0 <= i < after.len() && 0 <= j < after.len() && i != j implies (
            #[trigger] after[i]).0 != (#[trigger] after[j]).0 by {
                if i < entries.len() {
                    assert(after[i] == entries[i]);
                }
                if j < entries.len() {
                    assert(after[j] == entries[j]);
                }
            }
        }
    }
}

/// The keys of merged entries are the keys of both, and merging keeps the
/// keys apart.
pub proof fn lemma_merged_keys<V>(base: Seq<(OutPoint, V)>, other: Seq<(OutPoint, V)>, upto: int)
    requires
        0 <= upto <= other.len(),
    ensures
        forall|key: OutPoint|
            #![trigger has_entry(merged(base, other, upto), key)]
            has_entry(merged(base, other, upto), key) <==> (has_entry(base, key) || has_entry(
                other.subrange(0, upto),
                key,
            )),
        distinct_keys(base) ==> distinct_keys(merged(base, other, upto)),
    decreases upto,
{
    if upto > 0 {
        lemma_merged_keys(base, other, upto - 1);
        let before = merged(base, other, upto - 1);
        let last = other[upto - 1].0;
        lemma_entries_with(before, last, other[upto - 1].1);
        let shorter = other.subrange(0, upto - 1);
        let longer = other.subrange(0, upto);
        assert forall|key: OutPoint| has_entry(longer, key) <==> (key == last || has_entry(
            shorter,
            key,
        )) by {
            if has_entry(longer, key) {
                let i = choose|i: int| 0 <= i < longer.len() && (#[trigger] longer[i]).0 == key;
                if i < upto - 1 {
                    assert(shorter[i].0 == key);
                }
            }
            if has_entry(shorter, key) {
                let i = choose|i: int|
                    0 <= i < shorter.len() && (#[trigger] shorter[i]).0 == key;
                assert(longer[i].0 == key);
            }
            if key == last {
                assert(longer[upto - 1].0 == key);
            }
        }
        assert forall|key: OutPoint|
            has_entry(merged(base, other, upto), key) <==> (has_entry(base, key) || has_entry(
                longer,
                key,
            )) by {
            assert(has_entry(entries_with(before, last, other[upto - 1].1), key) <==> (key == last
                || has_entry(before, key)));
            assert(has_entry(before, key) <==> (has_entry(base, key) || has_entry(shorter, key)));
            assert(has_entry(longer, key) <==> (key == last || has_entry(shorter, key)));
        }
    } else {
        assert forall|key: OutPoint|
            has_entry(merged(base, other, upto), key) <==> (has_entry(base, key) || has_entry(
                other.subrange(0, upto),
                key,
            )) by {
            assert(!has_entry(other.subrange(0, 0), key));
        }
    }
}

/// Entries that share no key with the base, and no key among themselves,
/// are merged by standing behind the base.
pub proof fn lemma_merged_disjoint<V>(base: Seq<(OutPoint, V)>, other: Seq<(OutPoint, V)>, upto: int)
    requires
        0 <= upto <= other.len(),
        distinct_keys(other),
        forall|key: OutPoint| !(has_entry(base, key) && has_entry(other, key)),
    ensures
        merged(base, other, upto) == base + other.subrange(0, upto),
    decreases upto,
{
    if upto > 0 {
        lemma_merged_disjoint(base, other, upto - 1);
        lemma_merged_keys(base, other, upto - 1);
        let before = merged(base, other, upto - 1);
        let key = other[upto - 1].0;
        assert(has_entry(other, key));
        assert(!has_entry(other.subrange(0, upto - 1), key)) by {
            let shorter = other.subrange(0, upto - 1);
            if has_entry(shorter, key) {
                let i = choose|i: int|
                    0 <= i < shorter.len() && (#[trigger] shorter[i]).0 == key;
                assert(shorter[i] == other[i]);
                assert(other[i].0 != other[upto - 1].0);
            }
        }
        lemma_entries_with(before, key, other[upto - 1].1);
        assert(base + other.subrange(0, upto) =~= (base + other.subrange(0, upto - 1)).push(
            other[upto - 1],
        ));
    } else {
        assert(base + other.subrange(0, 0) =~= base);
    }
}

/// Revoked outputs one behind the other hold what both hold.
pub proof fn lemma_justice_sats_concat(
    a: Seq<(OutPoint, RevokedOutput)>,
    b: Seq<(OutPoint, RevokedOutput)>,
    upto: int,
)
    requires
        0 <= upto <= b.len(),
    ensures
        justice_sats(a + b, a.len() + upto) == justice_sats(a, a.len() as int) + justice_sats(
            b,
            upto,
        ),
    decreases upto,
{
    if upto > 0 {
        lemma_justice_sats_concat(a, b, upto - 1);
    } else {
        lemma_justice_sats_prefix(a + b, a, a.len() as int);
    }
}

/// What revoked outputs hold depends only on the outputs counted.
pub proof fn lemma_justice_sats_prefix(
    a: Seq<(OutPoint, RevokedOutput)>,
    b: Seq<(OutPoint, RevokedOutput)>,
    upto: int,
)
    requires
        upto <= a.len(),
        upto <= b.len(),
        forall|i: int| 0 <= i < upto ==> a[i] == b[i],
    ensures
        justice_sats(a, upto) == justice_sats(b, upto),
    decreases upto,
{
    if upto > 0 {
        lemma_justice_sats_prefix(a, b, upto - 1);
    }
}

/// Payment outputs one behind the other hold what both hold.
pub proof fn lemma_remote_sats_concat(
    a: Seq<(OutPoint, RemoteHTLCOutput)>,
    b: Seq<(OutPoint, RemoteHTLCOutput)>,
    upto: int,
)
    requires
        0 <= upto <= b.len(),
    ensures
        remote_sats(a + b, a.len() + upto) == remote_sats(a, a.len() as int) + remote_sats(b, upto),
    decreases upto,
{
    if upto > 0 {
        lemma_remote_sats_concat(a, b, upto - 1);
    } else {
        lemma_remote_sats_prefix(a + b, a, a.len() as int);
    }
}

/// What payment outputs hold depends only on the outputs counted.
pub proof fn lemma_remote_sats_prefix(
    a: Seq<(OutPoint, RemoteHTLCOutput)>,
    b: Seq<(OutPoint, RemoteHTLCOutput)>,
    upto: int,
)
    requires
        upto <= a.len(),
        upto <= b.len(),
        forall|i: int| 0 <= i < upto ==> a[i] == b[i],
    ensures
        remote_sats(a, upto) == remote_sats(b, upto),
    decreases upto,
{
    if upto > 0 {
        lemma_remote_sats_prefix(a, b, upto - 1);
    }
}

/// A merged package claims the outpoints that either package claimed, and
/// no others.
pub proof fn lemma_merge_outpoints(package: PackageView, other: PackageView)
    requires
        package.mergeable_with(other),
    ensures
        forall|outpoint: OutPoint|
            package.merged_with(other).claims(outpoint) <==> (package.claims(outpoint)
                || other.claims(outpoint)),
        package.merged_with(other).outpoints().to_set() == package.outpoints().to_set().union(
            other.outpoints().to_set(),
        ),
        package.well_formed() ==> package.merged_with(other).well_formed(),
{
    match (package, other) {
        (
            PackageView::MalleableJusticeTx { inputs },
            PackageView::MalleableJusticeTx { inputs: more },
        ) => {
            lemma_merged_keys(inputs, more, more.len() as int);
            assert(more.subrange(0, more.len() as int) =~= more);
            lemma_outpoints_claimed(inputs);
            lemma_outpoints_claimed(more);
            lemma_outpoints_claimed(merged(inputs, more, more.len() as int));
        },
        (PackageView::RemoteHTLCTx { inputs }, PackageView::RemoteHTLCTx { inputs: more }) => {
            lemma_merged_keys(inputs, more, more.len() as int);
            assert(more.subrange(0, more.len() as int) =~= more);
            lemma_outpoints_claimed(inputs);
            lemma_outpoints_claimed(more);
            lemma_outpoints_claimed(merged(inputs, more, more.len() as int));
        },
        _ => {},
    }
    let after = package.merged_with(other);
    assert forall|outpoint: OutPoint|
        after.claims(outpoint) <==> (package.claims(outpoint) || other.claims(outpoint)) by {}
    assert forall|outpoint: OutPoint|
        after.outpoints().to_set().contains(outpoint) <==> package.outpoints().to_set().union(
            other.outpoints().to_set(),
        ).contains(outpoint) by {
        assert(after.outpoints().to_set().contains(outpoint) <==> after.claims(outpoint));
        assert(package.outpoints().to_set().contains(outpoint) <==> package.claims(outpoint));
        assert(other.outpoints().to_set().contains(outpoint) <==> other.claims(outpoint));
        assert(after.claims(outpoint) <==> (package.claims(outpoint) || other.claims(outpoint)));
    }
    assert(after.outpoints().to_set() =~= package.outpoints().to_set().union(
        other.outpoints().to_set(),
    ));
}

/// The outpoints listed are the outpoints with an entry.
pub proof fn lemma_outpoints_claimed<V>(entries: Seq<(OutPoint, V)>)
    ensures
        forall|key: OutPoint|
            outpoints_of(entries).to_set().contains(key) <==> has_entry(entries, key),
{
    let listed = outpoints_of(entries);
    assert forall|key: OutPoint| listed.to_set().contains(key) <==> has_entry(entries, key) by {
        if listed.contains(key) {
            let i = choose|i: int| 0 <= i < listed.len() && listed[i] == key;
            assert(entries[i].0 == key);
        }
        if has_entry(entries, key) {
            let i = choose|i: int| 0 <= i < entries.len() && (#[trigger] entries[i]).0 == key;
            assert(listed[i] == key);
        }
    }
}

/// Where two packages claim no outpoint in common, and the package merged
/// in claims none twice, the merged package claims what both claimed
/// together.
pub proof fn lemma_merge_amounts(package: PackageView, other: PackageView)
    requires
        package.mergeable_with(other),
        other.well_formed(),
        forall|outpoint: OutPoint| !(package.claims(outpoint) && other.claims(outpoint)),
    ensures
        package.merged_with(other).claimable_sats() == package.claimable_sats()
            + other.claimable_sats(),
{
    match (package, other) {
        (
            PackageView::MalleableJusticeTx { inputs },
            PackageView::MalleableJusticeTx { inputs: more },
        ) => {
            assert forall|key: OutPoint| !(has_entry(inputs, key) && has_entry(more, key)) by {
                assert(!(package.claims(key) && other.claims(key)));
            }
            lemma_merged_disjoint(inputs, more, more.len() as int);
            assert(more.subrange(0, more.len() as int) =~= more);
            lemma_justice_sats_concat(inputs, more, more.len() as int);
        },
        (PackageView::RemoteHTLCTx { inputs }, PackageView::RemoteHTLCTx { inputs: more }) => {
            assert forall|key: OutPoint| !(has_entry(inputs, key) && has_entry(more, key)) by {
                assert(!(package.claims(key) && other.claims(key)));
            }
            lemma_merged_disjoint(inputs, more, more.len() as int);
            assert(more.subrange(0, more.len() as int) =~= more);
            lemma_remote_sats_concat(inputs, more, more.len() as int);
        },
        _ => {},
    }
}

} // verus!
