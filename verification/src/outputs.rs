//! The outputs that a claim spends, with what is needed to claim each, and
//! their form on the wire.

use crate::primitives::{
    PaymentHash,
    PaymentPreimage,
    PublicKey,
    SecretKey,
    lemma_written_split,
    written_at,
};
use crate::ser::{
    DecodeError,
    be_bytes,
    bytes_at,
    has_bytes,
    lemma_array32_of,
    lemma_be_bytes_len,
    lemma_parse_be,
    lemma_pow256_values,
    parse_array32,
    parse_be,
    read_array32,
    read_u16,
    read_u32,
    read_u64,
    read_u8,
    write_bytes,
    write_u16,
    write_u32,
    write_u64,
    write_u8,
};
use vstd::prelude::*;

verus! {

/// The kind of output an input of a claim spends. Each kind has a witness of
/// a known expected weight.
#[derive(Clone, Copy, Debug, PartialEq, Eq, Structural)]
pub enum InputDescriptors {
    RevokedOfferedHTLC,
    RevokedReceivedHTLC,
    OfferedHTLC,
    ReceivedHTLC,
    /// A revoked output to the counterparty itself, or a revoked second-stage
    /// output.
    RevokedOutput,
}

impl InputDescriptors {
    /// The byte that stands for the kind on the wire.
    pub open spec fn tag(self) -> u8 {
        match self {
            InputDescriptors::RevokedOfferedHTLC => 0,
            InputDescriptors::RevokedReceivedHTLC => 1,
            InputDescriptors::OfferedHTLC => 2,
            InputDescriptors::ReceivedHTLC => 3,
            InputDescriptors::RevokedOutput => 4,
        }
    }

    /// The kind on the wire: one byte.
    pub open spec fn encoding(self) -> Seq<u8> {
        be_bytes(self.tag() as int, 1)
    }

    /// Reading a kind at `pos`; a byte above 4 is no kind.
    pub open spec fn parse(bytes: Seq<u8>, pos: int) -> Result<(InputDescriptors, int), DecodeError> {
        match parse_be(bytes, pos, 1) {
            Ok((tag, next)) => if tag == 0 {
                Ok((InputDescriptors::RevokedOfferedHTLC, next))
            } else if tag == 1 {
                Ok((InputDescriptors::RevokedReceivedHTLC, next))
            } else if tag == 2 {
                Ok((InputDescriptors::OfferedHTLC, next))
            } else if tag == 3 {
                Ok((InputDescriptors::ReceivedHTLC, next))
            } else if tag == 4 {
                Ok((InputDescriptors::RevokedOutput, next))
            } else {
                Err(DecodeError::InvalidValue)
            },
            Err(e) => Err(e),
        }
    }

    /// A kind is read back as it was written.
    pub proof fn lemma_parse(bytes: Seq<u8>, pos: int, kind: InputDescriptors)
        requires
            written_at(bytes, pos, kind.encoding()),
        ensures
            InputDescriptors::parse(bytes, pos) == Ok::<(InputDescriptors, int), DecodeError>(
                (kind, pos + 1),
            ),
            kind.encoding().len() == 1,
    {
        lemma_be_bytes_len(kind.tag() as int, 1);
        lemma_pow256_values();
        lemma_parse_be(bytes, pos, kind.tag() as int, 1);
    }

    /// Appends the kind.
    pub fn write(&self, out: &mut Vec<u8>)
        ensures
            final(out)@ == old(out)@ + self.encoding(),
    {
        let tag: u8 = match self {
            InputDescriptors::RevokedOfferedHTLC => 0,
            InputDescriptors::RevokedReceivedHTLC => 1,
            InputDescriptors::OfferedHTLC => 2,
            InputDescriptors::ReceivedHTLC => 3,
            InputDescriptors::RevokedOutput => 4,
        };
        write_u8(out, tag);
    }

    /// Reads a kind at `pos`.
    pub fn read(bytes: &[u8], pos: usize) -> (r: Result<(InputDescriptors, usize), DecodeError>)
        ensures
            match r {
                Ok((kind, next)) => InputDescriptors::parse(bytes@, pos as int) == Ok::<
                    (InputDescriptors, int),
                    DecodeError,
                >((kind, next as int)),
                Err(e) => InputDescriptors::parse(bytes@, pos as int) == Err::<
                    (InputDescriptors, int),
                    DecodeError,
                >(e),
            },
    {
        let (tag, next) = match read_u8(bytes, pos) {
            Ok(v) => v,
            Err(e) => {
                return Err(e);
            },
        };
        match tag {
            0 => Ok((InputDescriptors::RevokedOfferedHTLC, next)),
            1 => Ok((InputDescriptors::RevokedReceivedHTLC, next)),
            2 => Ok((InputDescriptors::OfferedHTLC, next)),
            3 => Ok((InputDescriptors::ReceivedHTLC, next)),
            4 => Ok((InputDescriptors::RevokedOutput, next)),
            _ => Err(DecodeError::InvalidValue),
        }
    }
}

/// An optional 32-bit number on the wire: a zero byte, or a one byte and the
/// number.
pub open spec fn option_u32_encoding(value: Option<u32>) -> Seq<u8> {
    match value {
        None => be_bytes(0, 1),
        Some(v) => be_bytes(1, 1) + be_bytes(v as int, 4),
    }
}

/// Reading an optional 32-bit number at `pos`.
pub open spec fn parse_option_u32(bytes: Seq<u8>, pos: int) -> Result<(Option<u32>, int), DecodeError> {
    match parse_be(bytes, pos, 1) {
        Ok((tag, next)) => if tag == 0 {
            Ok((None, next))
        } else if tag == 1 {
            match parse_be(bytes, next, 4) {
                Ok((v, end)) => Ok((Some(v as u32), end)),
                Err(e) => Err(e),
            }
        } else {
            Err(DecodeError::InvalidValue)
        },
        Err(e) => Err(e),
    }
}

/// An optional number is read back as it was written.
pub proof fn lemma_parse_option_u32(bytes: Seq<u8>, pos: int, value: Option<u32>)
    requires
        written_at(bytes, pos, option_u32_encoding(value)),
    ensures
        parse_option_u32(bytes, pos) == Ok::<(Option<u32>, int), DecodeError>(
            (value, pos + option_u32_encoding(value).len()),
        ),
        option_u32_encoding(value).len() == if value is Some {
            5int
        } else {
            1int
        },
{
    lemma_pow256_values();
    lemma_be_bytes_len(0, 1);
    lemma_be_bytes_len(1, 1);
    match value {
        None => {
            lemma_parse_be(bytes, pos, 0, 1);
        },
        Some(v) => {
            lemma_be_bytes_len(v as int, 4);
            lemma_written_split(bytes, pos, be_bytes(1, 1), be_bytes(v as int, 4));
            lemma_parse_be(bytes, pos, 1, 1);
            lemma_parse_be(bytes, pos + 1, v as int, 4);
        },
    }
}

/// Appends an optional 32-bit number.
pub fn write_option_u32(out: &mut Vec<u8>, value: Option<u32>)
    ensures
        final(out)@ == old(out)@ + option_u32_encoding(value),
{
    match value {
        None => {
            write_u8(out, 0);
        },
        Some(v) => {
            write_u8(out, 1);
            write_u32(out, v);
            assert(out@ =~= old(out)@ + option_u32_encoding(value));
        },
    }
}

/// Reads an optional 32-bit number at `pos`.
pub fn read_option_u32(bytes: &[u8], pos: usize) -> (r: Result<(Option<u32>, usize), DecodeError>)
    ensures
        match r {
            Ok((value, next)) => parse_option_u32(bytes@, pos as int) == Ok::<
                (Option<u32>, int),
                DecodeError,
            >((value, next as int)),
            Err(e) => parse_option_u32(bytes@, pos as int) == Err::<
                (Option<u32>, int),
                DecodeError,
            >(e),
        },
{
    let (tag, next) = match read_u8(bytes, pos) {
        Ok(v) => v,
        Err(e) => {
            return Err(e);
        },
    };
    if tag == 0 {
        Ok((None, next))
    } else if tag == 1 {
        match read_u32(bytes, next) {
            Ok((v, end)) => Ok((Some(v), end)),
            Err(e) => Err(e),
        }
    } else {
        Err(DecodeError::InvalidValue)
    }
}

/// An optional preimage on the wire: a zero byte, or a one byte and the 32
/// bytes.
pub open spec fn option_preimage_encoding(value: Option<PaymentPreimage>) -> Seq<u8> {
    match value {
        None => be_bytes(0, 1),
        Some(p) => be_bytes(1, 1) + p.0@,
    }
}

/// Reading an optional preimage at `pos`.
pub open spec fn parse_option_preimage(bytes: Seq<u8>, pos: int) -> Result<
    (Option<PaymentPreimage>, int),
    DecodeError,
> {
    match parse_be(bytes, pos, 1) {
        Ok((tag, next)) => if tag == 0 {
            Ok((None, next))
        } else if tag == 1 {
            match parse_array32(bytes, next) {
                Ok((a, end)) => Ok((Some(PaymentPreimage(a)), end)),
                Err(e) => Err(e),
            }
        } else {
            Err(DecodeError::InvalidValue)
        },
        Err(e) => Err(e),
    }
}

/// An optional preimage is read back as it was written.
pub proof fn lemma_parse_option_preimage(bytes: Seq<u8>, pos: int, value: Option<PaymentPreimage>)
    requires
        written_at(bytes, pos, option_preimage_encoding(value)),
    ensures
        parse_option_preimage(bytes, pos) == Ok::<(Option<PaymentPreimage>, int), DecodeError>(
            (value, pos + option_preimage_encoding(value).len()),
        ),
        option_preimage_encoding(value).len() == if value is Some {
            33int
        } else {
            1int
        },
{
    lemma_pow256_values();
    lemma_be_bytes_len(0, 1);
    lemma_be_bytes_len(1, 1);
    match value {
        None => {
            lemma_parse_be(bytes, pos, 0, 1);
        },
        Some(p) => {
            lemma_written_split(bytes, pos, be_bytes(1, 1), p.0@);
            lemma_parse_be(bytes, pos, 1, 1);
            lemma_array32_of(p.0);
        },
    }
}

/// Appends an optional preimage.
pub fn write_option_preimage(out: &mut Vec<u8>, value: &Option<PaymentPreimage>)
    ensures
        final(out)@ == old(out)@ + option_preimage_encoding(*value),
{
    match value {
        None => {
            write_u8(out, 0);
        },
        Some(p) => {
            write_u8(out, 1);
            write_bytes(out, p.0.as_slice());
            assert(out@ =~= old(out)@ + option_preimage_encoding(*value));
        },
    }
}

/// Reads an optional preimage at `pos`.
pub fn read_option_preimage(bytes: &[u8], pos: usize) -> (r: Result<
    (Option<PaymentPreimage>, usize),
    DecodeError,
>)
    ensures
        match r {
            Ok((value, next)) => parse_option_preimage(bytes@, pos as int) == Ok::<
                (Option<PaymentPreimage>, int),
                DecodeError,
            >((value, next as int)),
            Err(e) => parse_option_preimage(bytes@, pos as int) == Err::<
                (Option<PaymentPreimage>, int),
                DecodeError,
            >(e),
        },
{
    let (tag, next) = match read_u8(bytes, pos) {
        Ok(v) => v,
        Err(e) => {
            return Err(e);
        },
    };
    if tag == 0 {
        Ok((None, next))
    } else if tag == 1 {
        match read_array32(bytes, next) {
            Ok((a, end)) => Ok((Some(PaymentPreimage(a)), end)),
            Err(e) => Err(e),
        }
    } else {
        Err(DecodeError::InvalidValue)
    }
}

/// A payment locked in a commitment transaction.
#[derive(Clone, Copy, Debug, PartialEq, Eq)]
pub struct HTLCOutputInCommitment {
    /// Whether we offered the payment.
    pub offered: bool,
    pub amount_msat: u64,
    pub cltv_expiry: u32,
    pub payment_hash: PaymentHash,
    /// The index of the payment's output, where it has one.
    pub transaction_output_index: Option<u32>,
}

impl HTLCOutputInCommitment {
    /// The payment on the wire, field by field.
    pub open spec fn encoding(&self) -> Seq<u8> {
        be_bytes(
            if self.offered {
                1
            } else {
                0
            },
            1,
        ) + be_bytes(self.amount_msat as int, 8) + be_bytes(self.cltv_expiry as int, 4)
            + self.payment_hash.0@ + option_u32_encoding(self.transaction_output_index)
    }

    /// Reading a payment at `pos`.
    pub open spec fn parse(bytes: Seq<u8>, pos: int) -> Result<
        (HTLCOutputInCommitment, int),
        DecodeError,
    > {
        match parse_be(bytes, pos, 1) {
            Err(e) => Err(e),
            Ok((offered, next1)) => if offered > 1 {
                Err(DecodeError::InvalidValue)
            } else {
                match parse_be(bytes, next1, 8) {
                    Err(e) => Err(e),
                    Ok((amount, next2)) => match parse_be(bytes, next2, 4) {
                        Err(e) => Err(e),
                        Ok((cltv, next3)) => match parse_array32(bytes, next3) {
                            Err(e) => Err(e),
                            Ok((hash, next4)) => match parse_option_u32(bytes, next4) {
                                Err(e) => Err(e),
                                Ok((index, next5)) => Ok(
                                    (
                                        HTLCOutputInCommitment {
                                            offered: offered == 1,
                                            amount_msat: amount as u64,
                                            cltv_expiry: cltv as u32,
                                            payment_hash: PaymentHash(hash),
                                            transaction_output_index: index,
                                        },
                                        next5,
                                    ),
                                ),
                            },
                        },
                    },
                }
            },
        }
    }

    /// A payment is read back as it was written.
    pub proof fn lemma_parse(bytes: Seq<u8>, pos: int, htlc: HTLCOutputInCommitment)
        requires
            written_at(bytes, pos, htlc.encoding()),
        ensures
            HTLCOutputInCommitment::parse(bytes, pos) == Ok::<
                (HTLCOutputInCommitment, int),
                DecodeError,
            >((htlc, pos + htlc.encoding().len())),
            htlc.encoding().len() == 45 + option_u32_encoding(htlc.transaction_output_index).len(),
    {
        let offered = if htlc.offered {
            1int
        } else {
            0int
        };
        let e1 = be_bytes(offered, 1);
        let e2 = be_bytes(htlc.amount_msat as int, 8);
        let e3 = be_bytes(htlc.cltv_expiry as int, 4);
        let e4 = htlc.payment_hash.0@;
        let e5 = option_u32_encoding(htlc.transaction_output_index);
        lemma_be_bytes_len(offered, 1);
        lemma_be_bytes_len(htlc.amount_msat as int, 8);
        lemma_be_bytes_len(htlc.cltv_expiry as int, 4);
        lemma_pow256_values();
        lemma_written_split(bytes, pos, e1 + e2 + e3 + e4, e5);
        lemma_written_split(bytes, pos, e1 + e2 + e3, e4);
        lemma_written_split(bytes, pos, e1 + e2, e3);
        lemma_written_split(bytes, pos, e1, e2);
        lemma_parse_be(bytes, pos, offered, 1);
        lemma_parse_be(bytes, pos + 1, htlc.amount_msat as int, 8);
        lemma_parse_be(bytes, pos + 9, htlc.cltv_expiry as int, 4);
        lemma_array32_of(htlc.payment_hash.0);
        lemma_parse_option_u32(bytes, pos + 45, htlc.transaction_output_index);
    }

    /// Appends the payment.
    pub fn write(&self, out: &mut Vec<u8>)
        ensures
            final(out)@ == old(out)@ + self.encoding(),
    {
        write_u8(
            out,
            if self.offered {
                1
            } else {
                0
            },
        );
        write_u64(out, self.amount_msat);
        write_u32(out, self.cltv_expiry);
        write_bytes(out, self.payment_hash.0.as_slice());
        write_option_u32(out, self.transaction_output_index);
        assert(out@ =~= old(out)@ + self.encoding());
    }

    /// Reads a payment at `pos`.
    pub fn read(bytes: &[u8], pos: usize) -> (r: Result<
        (HTLCOutputInCommitment, usize),
        DecodeError,
    >)
        ensures
            match r {
                Ok((htlc, next)) => HTLCOutputInCommitment::parse(bytes@, pos as int) == Ok::<
                    (HTLCOutputInCommitment, int),
                    DecodeError,
                >((htlc, next as int)),
                Err(e) => HTLCOutputInCommitment::parse(bytes@, pos as int) == Err::<
                    (HTLCOutputInCommitment, int),
                    DecodeError,
                >(e),
            },
    {
        let (offered, next1) = match read_u8(bytes, pos) {
            Ok(v) => v,
            Err(e) => {
                return Err(e);
            },
        };
        if offered > 1 {
            return Err(DecodeError::InvalidValue);
        }
        let (amount_msat, next2) = match read_u64(bytes, next1) {
            Ok(v) => v,
            Err(e) => {
                return Err(e);
            },
        };
        let (cltv_expiry, next3) = match read_u32(bytes, next2) {
            Ok(v) => v,
            Err(e) => {
                return Err(e);
            },
        };
        let (hash, next4) = match read_array32(bytes, next3) {
            Ok(v) => v,
            Err(e) => {
                return Err(e);
            },
        };
        let (transaction_output_index, next5) = match read_option_u32(bytes, next4) {
            Ok(v) => v,
            Err(e) => {
                return Err(e);
            },
        };
        Ok(
            (
                HTLCOutputInCommitment {
                    offered: offered == 1,
                    amount_msat,
                    cltv_expiry,
                    payment_hash: PaymentHash(hash),
                    transaction_output_index,
                },
                next5,
            ),
        )
    }
}

/// An optional payment on the wire: a zero byte, or a one byte and the
/// payment.
pub open spec fn option_htlc_encoding(value: Option<HTLCOutputInCommitment>) -> Seq<u8> {
    match value {
        None => be_bytes(0, 1),
        Some(htlc) => be_bytes(1, 1) + htlc.encoding(),
    }
}

/// Reading an optional payment at `pos`.
pub open spec fn parse_option_htlc(bytes: Seq<u8>, pos: int) -> Result<
    (Option<HTLCOutputInCommitment>, int),
    DecodeError,
> {
    match parse_be(bytes, pos, 1) {
        Ok((tag, next)) => if tag == 0 {
            Ok((None, next))
        } else if tag == 1 {
            match HTLCOutputInCommitment::parse(bytes, next) {
                Ok((htlc, end)) => Ok((Some(htlc), end)),
                Err(e) => Err(e),
            }
        } else {
            Err(DecodeError::InvalidValue)
        },
        Err(e) => Err(e),
    }
}

/// An optional payment is read back as it was written.
pub proof fn lemma_parse_option_htlc(bytes: Seq<u8>, pos: int, value: Option<HTLCOutputInCommitment>)
    requires
        written_at(bytes, pos, option_htlc_encoding(value)),
    ensures
        parse_option_htlc(bytes, pos) == Ok::<(Option<HTLCOutputInCommitment>, int), DecodeError>(
            (value, pos + option_htlc_encoding(value).len()),
        ),
{
    lemma_pow256_values();
    lemma_be_bytes_len(0, 1);
    lemma_be_bytes_len(1, 1);
    match value {
        None => {
            lemma_parse_be(bytes, pos, 0, 1);
        },
        Some(htlc) => {
            lemma_written_split(bytes, pos, be_bytes(1, 1), htlc.encoding());
            lemma_parse_be(bytes, pos, 1, 1);
            HTLCOutputInCommitment::lemma_parse(bytes, pos + 1, htlc);
        },
    }
}

/// Appends an optional payment.
pub fn write_option_htlc(out: &mut Vec<u8>, value: &Option<HTLCOutputInCommitment>)
    ensures
        final(out)@ == old(out)@ + option_htlc_encoding(*value),
{
    match value {
        None => {
            write_u8(out, 0);
        },
        Some(htlc) => {
            write_u8(out, 1);
            htlc.write(out);
            assert(out@ =~= old(out)@ + option_htlc_encoding(*value));
        },
    }
}

/// Reads an optional payment at `pos`.
pub fn read_option_htlc(bytes: &[u8], pos: usize) -> (r: Result<
    (Option<HTLCOutputInCommitment>, usize),
    DecodeError,
>)
    ensures
        match r {
            Ok((value, next)) => parse_option_htlc(bytes@, pos as int) == Ok::<
                (Option<HTLCOutputInCommitment>, int),
                DecodeError,
            >((value, next as int)),
            Err(e) => parse_option_htlc(bytes@, pos as int) == Err::<
                (Option<HTLCOutputInCommitment>, int),
                DecodeError,
            >(e),
        },
{
    let (tag, next) = match read_u8(bytes, pos) {
        Ok(v) => v,
        Err(e) => {
            return Err(e);
        },
    };
    if tag == 0 {
        Ok((None, next))
    } else if tag == 1 {
        match HTLCOutputInCommitment::read(bytes, next) {
            Ok((htlc, end)) => Ok((Some(htlc), end)),
            Err(e) => Err(e),
        }
    } else {
        Err(DecodeError::InvalidValue)
    }
}

/// A revoked output of the counterparty, with what is needed to claim it.
#[derive(Clone, Copy, Debug, PartialEq, Eq)]
pub struct RevokedOutput {
    pub per_commitment_point: PublicKey,
    pub remote_delayed_payment_base_key: PublicKey,
    pub remote_htlc_base_key: PublicKey,
    pub per_commitment_key: SecretKey,
    pub input_descriptor: InputDescriptors,
    /// What the output holds, in satoshis.
    pub amount: u64,
    /// The payment, where the output is one.
    pub htlc: Option<HTLCOutputInCommitment>,
    pub on_remote_tx_csv: u16,
}

impl RevokedOutput {
    /// Whether all keys are keys to secp256k1.
    pub open spec fn is_valid(&self) -> bool {
        &&& self.per_commitment_point.is_valid()
        &&& self.remote_delayed_payment_base_key.is_valid()
        &&& self.remote_htlc_base_key.is_valid()
        &&& self.per_commitment_key.is_valid()
    }

    /// The output on the wire, field by field.
    pub open spec fn encoding(&self) -> Seq<u8> {
        self.per_commitment_point.encoding() + self.remote_delayed_payment_base_key.encoding()
            + self.remote_htlc_base_key.encoding() + self.per_commitment_key.encoding()
            + self.input_descriptor.encoding() + be_bytes(self.amount as int, 8)
            + option_htlc_encoding(self.htlc) + be_bytes(self.on_remote_tx_csv as int, 2)
    }

    /// Reading an output at `pos`.
    pub open spec fn parse(bytes: Seq<u8>, pos: int) -> Result<(RevokedOutput, int), DecodeError> {
        match PublicKey::parse(bytes, pos) {
            Err(e) => Err(e),
            Ok((per_commitment_point, next1)) => match PublicKey::parse(bytes, next1) {
                Err(e) => Err(e),
                Ok((remote_delayed_payment_base_key, next2)) => match PublicKey::parse(bytes, next2) {
                    Err(e) => Err(e),
                    Ok((remote_htlc_base_key, next3)) => match SecretKey::parse(bytes, next3) {
                        Err(e) => Err(e),
                        Ok((per_commitment_key, next4)) => match InputDescriptors::parse(bytes, next4) {
                            Err(e) => Err(e),
                            Ok((input_descriptor, next5)) => match parse_be(bytes, next5, 8) {
                                Err(e) => Err(e),
                                Ok((amount, next6)) => match parse_option_htlc(bytes, next6) {
                                    Err(e) => Err(e),
                                    Ok((htlc, next7)) => match parse_be(bytes, next7, 2) {
                                        Err(e) => Err(e),
                                        Ok((csv, next8)) => Ok(
                                            (
                                                RevokedOutput {
                                                    per_commitment_point,
                                                    remote_delayed_payment_base_key,
                                                    remote_htlc_base_key,
                                                    per_commitment_key,
                                                    input_descriptor,
                                                    amount: amount as u64,
                                                    htlc,
                                                    on_remote_tx_csv: csv as u16,
                                                },
                                                next8,
                                            ),
                                        ),
                                    },
                                },
                            },
                        },
                    },
                },
            },
        }
    }

    /// An output with valid keys is read back as it was written.
    pub proof fn lemma_parse(bytes: Seq<u8>, pos: int, output: RevokedOutput)
        requires
            written_at(bytes, pos, output.encoding()),
            output.is_valid(),
        ensures
            RevokedOutput::parse(bytes, pos) == Ok::<(RevokedOutput, int), DecodeError>(
                (output, pos + output.encoding().len()),
            ),
    {
        let e1 = output.per_commitment_point.encoding();
        let e2 = output.remote_delayed_payment_base_key.encoding();
        let e3 = output.remote_htlc_base_key.encoding();
        let e4 = output.per_commitment_key.encoding();
        let e5 = output.input_descriptor.encoding();
        let e6 = be_bytes(output.amount as int, 8);
        let e7 = option_htlc_encoding(output.htlc);
        let e8 = be_bytes(output.on_remote_tx_csv as int, 2);
        lemma_be_bytes_len(output.amount as int, 8);
        lemma_be_bytes_len(output.on_remote_tx_csv as int, 2);
        lemma_be_bytes_len(output.input_descriptor.tag() as int, 1);
        lemma_pow256_values();
        lemma_written_split(bytes, pos, e1 + e2 + e3 + e4 + e5 + e6 + e7, e8);
        lemma_written_split(bytes, pos, e1 + e2 + e3 + e4 + e5 + e6, e7);
        lemma_written_split(bytes, pos, e1 + e2 + e3 + e4 + e5, e6);
        lemma_written_split(bytes, pos, e1 + e2 + e3 + e4, e5);
        lemma_written_split(bytes, pos, e1 + e2 + e3, e4);
        lemma_written_split(bytes, pos, e1 + e2, e3);
        lemma_written_split(bytes, pos, e1, e2);
        PublicKey::lemma_parse(bytes, pos, output.per_commitment_point);
        PublicKey::lemma_parse(bytes, pos + 33, output.remote_delayed_payment_base_key);
        PublicKey::lemma_parse(bytes, pos + 66, output.remote_htlc_base_key);
        SecretKey::lemma_parse(bytes, pos + 99, output.per_commitment_key);
        InputDescriptors::lemma_parse(bytes, pos + 131, output.input_descriptor);
        lemma_parse_be(bytes, pos + 132, output.amount as int, 8);
        lemma_parse_option_htlc(bytes, pos + 140, output.htlc);
        lemma_parse_be(bytes, pos + 140 + e7.len(), output.on_remote_tx_csv as int, 2);
    }

    /// Appends the output.
    pub fn write(&self, out: &mut Vec<u8>)
        ensures
            final(out)@ == old(out)@ + self.encoding(),
    {
        self.per_commitment_point.write(out);
        self.remote_delayed_payment_base_key.write(out);
        self.remote_htlc_base_key.write(out);
        self.per_commitment_key.write(out);
        self.input_descriptor.write(out);
        write_u64(out, self.amount);
        write_option_htlc(out, &self.htlc);
        write_u16(out, self.on_remote_tx_csv);
        assert(out@ =~= old(out)@ + self.encoding());
    }

    /// Reads an output at `pos`.
    pub fn read(bytes: &[u8], pos: usize) -> (r: Result<(RevokedOutput, usize), DecodeError>)
        ensures
            match r {
                Ok((output, next)) => RevokedOutput::parse(bytes@, pos as int) == Ok::<
                    (RevokedOutput, int),
                    DecodeError,
                >((output, next as int)),
                Err(e) => RevokedOutput::parse(bytes@, pos as int) == Err::<
                    (RevokedOutput, int),
                    DecodeError,
                >(e),
            },
    {
        let (per_commitment_point, next1) = match PublicKey::read(bytes, pos) {
            Ok(v) => v,
            Err(e) => {
                return Err(e);
            },
        };
        let (remote_delayed_payment_base_key, next2) = match PublicKey::read(bytes, next1) {
            Ok(v) => v,
            Err(e) => {
                return Err(e);
            },
        };
        let (remote_htlc_base_key, next3) = match PublicKey::read(bytes, next2) {
            Ok(v) => v,
            Err(e) => {
                return Err(e);
            },
        };
        let (per_commitment_key, next4) = match SecretKey::read(bytes, next3) {
            Ok(v) => v,
            Err(e) => {
                return Err(e);
            },
        };
        let (input_descriptor, next5) = match InputDescriptors::read(bytes, next4) {
            Ok(v) => v,
            Err(e) => {
                return Err(e);
            },
        };
        let (amount, next6) = match read_u64(bytes, next5) {
            Ok(v) => v,
            Err(e) => {
                return Err(e);
            },
        };
        let (htlc, next7) = match read_option_htlc(bytes, next6) {
            Ok(v) => v,
            Err(e) => {
                return Err(e);
            },
        };
        let (on_remote_tx_csv, next8) = match read_u16(bytes, next7) {
            Ok(v) => v,
            Err(e) => {
                return Err(e);
            },
        };
        Ok(
            (
                RevokedOutput {
                    per_commitment_point,
                    remote_delayed_payment_base_key,
                    remote_htlc_base_key,
                    per_commitment_key,
                    input_descriptor,
                    amount,
                    htlc,
                    on_remote_tx_csv,
                },
                next8,
            ),
        )
    }
}

/// A payment output on the counterparty's commitment, with what is needed to
/// claim it: with the preimage where we are paid, after the timelock where we
/// take back what we offered.
#[derive(Clone, Copy, Debug, PartialEq, Eq)]
pub struct RemoteHTLCOutput {
    pub per_commitment_point: PublicKey,
    pub remote_delayed_payment_base_key: PublicKey,
    pub remote_htlc_base_key: PublicKey,
    pub preimage: Option<PaymentPreimage>,
    pub htlc: HTLCOutputInCommitment,
}

impl RemoteHTLCOutput {
    /// Whether all keys are keys to secp256k1.
    pub open spec fn is_valid(&self) -> bool {
        &&& self.per_commitment_point.is_valid()
        &&& self.remote_delayed_payment_base_key.is_valid()
        &&& self.remote_htlc_base_key.is_valid()
    }

    /// The output on the wire, field by field.
    pub open spec fn encoding(&self) -> Seq<u8> {
        self.per_commitment_point.encoding() + self.remote_delayed_payment_base_key.encoding()
            + self.remote_htlc_base_key.encoding() + option_preimage_encoding(self.preimage)
            + self.htlc.encoding()
    }

    /// Reading an output at `pos`.
    pub open spec fn parse(bytes: Seq<u8>, pos: int) -> Result<(RemoteHTLCOutput, int), DecodeError> {
        match PublicKey::parse(bytes, pos) {
            Err(e) => Err(e),
            Ok((per_commitment_point, next1)) => match PublicKey::parse(bytes, next1) {
                Err(e) => Err(e),
                Ok((remote_delayed_payment_base_key, next2)) => match PublicKey::parse(bytes, next2) {
                    Err(e) => Err(e),
                    Ok((remote_htlc_base_key, next3)) => match parse_option_preimage(bytes, next3) {
                        Err(e) => Err(e),
                        Ok((preimage, next4)) => match HTLCOutputInCommitment::parse(bytes, next4) {
                            Err(e) => Err(e),
                            Ok((htlc, next5)) => Ok(
                                (
                                    RemoteHTLCOutput {
                                        per_commitment_point,
                                        remote_delayed_payment_base_key,
                                        remote_htlc_base_key,
                                        preimage,
                                        htlc,
                                    },
                                    next5,
                                ),
                            ),
                        },
                    },
                },
            },
        }
    }

    /// An output with valid keys is read back as it was written.
    pub proof fn lemma_parse(bytes: Seq<u8>, pos: int, output: RemoteHTLCOutput)
        requires
            written_at(bytes, pos, output.encoding()),
            output.is_valid(),
        ensures
            RemoteHTLCOutput::parse(bytes, pos) == Ok::<(RemoteHTLCOutput, int), DecodeError>(
                (output, pos + output.encoding().len()),
            ),
    {
        let e1 = output.per_commitment_point.encoding();
        let e2 = output.remote_delayed_payment_base_key.encoding();
        let e3 = output.remote_htlc_base_key.encoding();
        let e4 = option_preimage_encoding(output.preimage);
        let e5 = output.htlc.encoding();
        lemma_written_split(bytes, pos, e1 + e2 + e3 + e4, e5);
        lemma_written_split(bytes, pos, e1 + e2 + e3, e4);
        lemma_written_split(bytes, pos, e1 + e2, e3);
        lemma_written_split(bytes, pos, e1, e2);
        PublicKey::lemma_parse(bytes, pos, output.per_commitment_point);
        PublicKey::lemma_parse(bytes, pos + 33, output.remote_delayed_payment_base_key);
        PublicKey::lemma_parse(bytes, pos + 66, output.remote_htlc_base_key);
        lemma_parse_option_preimage(bytes, pos + 99, output.preimage);
        HTLCOutputInCommitment::lemma_parse(bytes, pos + 99 + e4.len(), output.htlc);
    }

    /// Appends the output.
    pub fn write(&self, out: &mut Vec<u8>)
        ensures
            final(out)@ == old(out)@ + self.encoding(),
    {
        self.per_commitment_point.write(out);
        self.remote_delayed_payment_base_key.write(out);
        self.remote_htlc_base_key.write(out);
        write_option_preimage(out, &self.preimage);
        self.htlc.write(out);
        assert(out@ =~= old(out)@ + self.encoding());
    }

    /// Reads an output at `pos`.
    pub fn read(bytes: &[u8], pos: usize) -> (r: Result<(RemoteHTLCOutput, usize), DecodeError>)
        ensures
            match r {
                Ok((output, next)) => RemoteHTLCOutput::parse(bytes@, pos as int) == Ok::<
                    (RemoteHTLCOutput, int),
                    DecodeError,
                >((output, next as int)),
                Err(e) => RemoteHTLCOutput::parse(bytes@, pos as int) == Err::<
                    (RemoteHTLCOutput, int),
                    DecodeError,
                >(e),
            },
    {
        let (per_commitment_point, next1) = match PublicKey::read(bytes, pos) {
            Ok(v) => v,
            Err(e) => {
                return Err(e);
            },
        };
        let (remote_delayed_payment_base_key, next2) = match PublicKey::read(bytes, next1) {
            Ok(v) => v,
            Err(e) => {
                return Err(e);
            },
        };
        let (remote_htlc_base_key, next3) = match PublicKey::read(bytes, next2) {
            Ok(v) => v,
            Err(e) => {
                return Err(e);
            },
        };
        let (preimage, next4) = match read_option_preimage(bytes, next3) {
            Ok(v) => v,
            Err(e) => {
                return Err(e);
            },
        };
        let (htlc, next5) = match HTLCOutputInCommitment::read(bytes, next4) {
            Ok(v) => v,
            Err(e) => {
                return Err(e);
            },
        };
        Ok(
            (
                RemoteHTLCOutput {
                    per_commitment_point,
                    remote_delayed_payment_base_key,
                    remote_htlc_base_key,
                    preimage,
                    htlc,
                },
                next5,
            ),
        )
    }
}

/// A payment output on our own commitment. Its claim was signed by the
/// counterparty beforehand, so the signer finishes it.
#[derive(Clone, Copy, Debug, PartialEq, Eq)]
pub struct LocalHTLCOutput {
    pub preimage: Option<PaymentPreimage>,
    pub amount: u64,
}

impl LocalHTLCOutput {
    /// The output on the wire, field by field.
    pub open spec fn encoding(&self) -> Seq<u8> {
        option_preimage_encoding(self.preimage) + be_bytes(self.amount as int, 8)
    }

    /// Reading an output at `pos`.
    pub open spec fn parse(bytes: Seq<u8>, pos: int) -> Result<(LocalHTLCOutput, int), DecodeError> {
        match parse_option_preimage(bytes, pos) {
            Err(e) => Err(e),
            Ok((preimage, next1)) => match parse_be(bytes, next1, 8) {
                Err(e) => Err(e),
                Ok((amount, next2)) => Ok((LocalHTLCOutput { preimage, amount: amount as u64 }, next2)),
            },
        }
    }

    /// An output is read back as it was written.
    pub proof fn lemma_parse(bytes: Seq<u8>, pos: int, output: LocalHTLCOutput)
        requires
            written_at(bytes, pos, output.encoding()),
        ensures
            LocalHTLCOutput::parse(bytes, pos) == Ok::<(LocalHTLCOutput, int), DecodeError>(
                (output, pos + output.encoding().len()),
            ),
    {
        let e1 = option_preimage_encoding(output.preimage);
        let e2 = be_bytes(output.amount as int, 8);
        lemma_be_bytes_len(output.amount as int, 8);
        lemma_pow256_values();
        lemma_written_split(bytes, pos, e1, e2);
        lemma_parse_option_preimage(bytes, pos, output.preimage);
        lemma_parse_be(bytes, pos + e1.len(), output.amount as int, 8);
    }

    /// Appends the output.
    pub fn write(&self, out: &mut Vec<u8>)
        ensures
            final(out)@ == old(out)@ + self.encoding(),
    {
        write_option_preimage(out, &self.preimage);
        write_u64(out, self.amount);
        assert(out@ =~= old(out)@ + self.encoding());
    }

    /// Reads an output at `pos`.
    pub fn read(bytes: &[u8], pos: usize) -> (r: Result<(LocalHTLCOutput, usize), DecodeError>)
        ensures
            match r {
                Ok((output, next)) => LocalHTLCOutput::parse(bytes@, pos as int) == Ok::<
                    (LocalHTLCOutput, int),
                    DecodeError,
                >((output, next as int)),
                Err(e) => LocalHTLCOutput::parse(bytes@, pos as int) == Err::<
                    (LocalHTLCOutput, int),
                    DecodeError,
                >(e),
            },
    {
        let (preimage, next1) = match read_option_preimage(bytes, pos) {
            Ok(v) => v,
            Err(e) => {
                return Err(e);
            },
        };
        let (amount, next2) = match read_u64(bytes, next1) {
            Ok(v) => v,
            Err(e) => {
                return Err(e);
            },
        };
        Ok((LocalHTLCOutput { preimage, amount }, next2))
    }
}

/// The funding output, which our own commitment transaction spends. That
/// transaction was signed by the counterparty beforehand, so the signer
/// finishes it.
#[derive(Clone, Debug, PartialEq, Eq)]
pub struct LocalFundingOutput {
    pub funding_redeemscript: Vec<u8>,
}

impl View for LocalFundingOutput {
    type V = Seq<u8>;

    open spec fn view(&self) -> Seq<u8> {
        self.funding_redeemscript@
    }
}

/// A script on the wire: its length as a 16-bit number, cut down to 16 bits
/// where it is longer, and the script.
pub open spec fn script_encoding(script: Seq<u8>) -> Seq<u8> {
    be_bytes(script.len() as int % 0x1_0000, 2) + script
}

/// Reading a script at `pos`.
pub open spec fn parse_script(bytes: Seq<u8>, pos: int) -> Result<(Seq<u8>, int), DecodeError> {
    match parse_be(bytes, pos, 2) {
        Err(e) => Err(e),
        Ok((len, next1)) => if has_bytes(bytes, next1, len) {
            Ok((bytes_at(bytes, next1, len), next1 + len))
        } else {
            Err(DecodeError::ShortRead)
        },
    }
}

/// A script of fewer than 65536 bytes is read back as it was written.
pub proof fn lemma_parse_script(bytes: Seq<u8>, pos: int, script: Seq<u8>)
    requires
        written_at(bytes, pos, script_encoding(script)),
        script.len() < 0x1_0000,
    ensures
        parse_script(bytes, pos) == Ok::<(Seq<u8>, int), DecodeError>(
            (script, pos + 2 + script.len()),
        ),
        script_encoding(script).len() == 2 + script.len(),
{
    let e1 = be_bytes(script.len() as int, 2);
    lemma_be_bytes_len(script.len() as int, 2);
    lemma_pow256_values();
    lemma_written_split(bytes, pos, e1, script);
    lemma_parse_be(bytes, pos, script.len() as int, 2);
}

/// Appends a script.
pub fn write_script(out: &mut Vec<u8>, script: &Vec<u8>)
    ensures
        final(out)@ == old(out)@ + script_encoding(script@),
{
    write_u16(out, (script.len() % 0x1_0000) as u16);
    write_bytes(out, script.as_slice());
    assert(out@ =~= old(out)@ + script_encoding(script@));
}

/// Reads a script at `pos`.
pub fn read_script(bytes: &[u8], pos: usize) -> (r: Result<(Vec<u8>, usize), DecodeError>)
    ensures
        match r {
            Ok((script, next)) => parse_script(bytes@, pos as int) == Ok::<
                (Seq<u8>, int),
                DecodeError,
            >((script@, next as int)),
            Err(e) => parse_script(bytes@, pos as int) == Err::<(Seq<u8>, int), DecodeError>(e),
        },
{
    let (len, next1) = match read_u16(bytes, pos) {
        Ok(v) => v,
        Err(e) => {
            return Err(e);
        },
    };
    let n = bytes.len();
    if n - next1 < len as usize {
        return Err(DecodeError::ShortRead);
    }
    let mut script: Vec<u8> = Vec::new();
    let mut k: usize = 0;
    while k < len as usize
        invariant
            k <= len,
            n == bytes@.len(),
            next1 + len <= n,
            script@ == bytes@.subrange(next1 as int, next1 + k),
        decreases len - k,
    {
        script.push(bytes[next1 + k]);
        proof {
            assert(bytes@.subrange(next1 as int, next1 + k + 1) =~= bytes@.subrange(
                next1 as int,
                next1 + k,
            ).push(bytes@[next1 + k]));
        }
        k = k + 1;
    }
    Ok((script, next1 + len as usize))
}

} // verus!
