//! Byte-level identities shared by the claim engine and the router: node
//! public keys, secret keys, transaction ids and outpoints, held as the bytes
//! of their canonical serialization.

use crate::ser::{
    DecodeError,
    be_bytes,
    bytes_at,
    has_bytes,
    lemma_array32_of,
    lemma_array33_of,
    lemma_be_bytes_len,
    lemma_parse_be,
    lemma_pow256_values,
    parse_array32,
    parse_array33,
    parse_be,
    read_array32,
    read_array33,
    read_u32,
    write_bytes,
    write_u32,
};
use vstd::prelude::*;

verus! {

/// Length of a compressed secp256k1 public key.
pub const PUBLIC_KEY_SIZE: usize = 33;

/// Length of a secp256k1 secret key, of a transaction id, of a payment hash
/// and of a payment preimage.
pub const HASH_SIZE: usize = 32;

/// Lexicographic "strictly less" on two byte strings of one length, read from
/// position `from` on.
pub open spec fn lex_less_from(a: Seq<u8>, b: Seq<u8>, from: int) -> bool
    decreases a.len() - from,
{
    if from < 0 || from >= a.len() || from >= b.len() {
        false
    } else if a[from] != b[from] {
        a[from] < b[from]
    } else {
        lex_less_from(a, b, from + 1)
    }
}

/// Lexicographic "strictly less" on two byte strings of one length.
pub open spec fn lex_less(a: Seq<u8>, b: Seq<u8>) -> bool {
    lex_less_from(a, b, 0)
}

/// Two byte strings of one length that agree from `from` on are not ordered.
pub proof fn lemma_lex_less_irreflexive(a: Seq<u8>, from: int)
    ensures
        !lex_less_from(a, a, from),
    decreases a.len() - from,
{
    if 0 <= from < a.len() {
        lemma_lex_less_irreflexive(a, from + 1);
    }
}

/// The lexicographic order is transitive.
pub proof fn lemma_lex_less_transitive(a: Seq<u8>, b: Seq<u8>, c: Seq<u8>, from: int)
    requires
        a.len() == b.len(),
        b.len() == c.len(),
        lex_less_from(a, b, from),
        lex_less_from(b, c, from),
    ensures
        lex_less_from(a, c, from),
    decreases a.len() - from,
{
    if 0 <= from < a.len() {
        if a[from] == b[from] && b[from] == c[from] {
            lemma_lex_less_transitive(a, b, c, from + 1);
        }
    }
}

/// A copy of a byte string.
pub fn copy_bytes(bytes: &Vec<u8>) -> (out: Vec<u8>)
    ensures
        out@ == bytes@,
{
    let mut out: Vec<u8> = Vec::new();
    let mut i: usize = 0;
    while i < bytes.len()
        invariant
            i <= bytes@.len(),
            out@ == bytes@.subrange(0, i as int),
        decreases bytes@.len() - i,
    {
        out.push(bytes[i]);
        assert(out@ =~= bytes@.subrange(0, i + 1));
        i = i + 1;
    }
    assert(out@ =~= bytes@);
    out
}

/// Whether two byte strings are the same.
pub fn bytes_equal(a: &[u8], b: &[u8]) -> (r: bool)
    ensures
        r == (a@ == b@),
{
    if a.len() != b.len() {
        return false;
    }
    let mut i: usize = 0;
    while i < a.len()
        invariant
            a@.len() == b@.len(),
            i <= a@.len(),
            forall|j: int| 0 <= j < i ==> a@[j] == b@[j],
        decreases a@.len() - i,
    {
        if a[i] != b[i] {
            return false;
        }
        i = i + 1;
    }
    assert(a@ =~= b@);
    true
}

/// Whether `a` comes before `b` in lexicographic order; both have one length.
pub fn bytes_less(a: &[u8], b: &[u8]) -> (r: bool)
    requires
        a@.len() == b@.len(),
    ensures
        r == lex_less(a@, b@),
{
    let mut i: usize = 0;
    while i < a.len()
        invariant
            a@.len() == b@.len(),
            i <= a@.len(),
            lex_less(a@, b@) == lex_less_from(a@, b@, i as int),
        decreases a@.len() - i,
    {
        if a[i] != b[i] {
            return a[i] < b[i];
        }
        i = i + 1;
    }
    false
}

/// A node's identity: the 33 bytes of a compressed secp256k1 public key.
#[derive(Clone, Copy, Debug, PartialEq, Eq, Hash)]
pub struct PublicKey {
    pub bytes: [u8; 33],
}

impl View for PublicKey {
    type V = Seq<u8>;

    open spec fn view(&self) -> Seq<u8> {
        self.bytes@
    }
}

impl PublicKey {
    /// Wraps the serialized form of a key.
    pub fn new(bytes: [u8; 33]) -> (k: PublicKey)
        ensures
            k.bytes == bytes,
    {
        PublicKey { bytes }
    }

    /// The serialized form of the key.
    pub fn serialize(&self) -> (out: [u8; 33])
        ensures
            out == self.bytes,
    {
        self.bytes
    }

    /// Whether two keys are the same key.
    pub fn same(&self, other: &PublicKey) -> (r: bool)
        ensures
            r == (*self == *other),
            r == (self@ == other@),
    {
        let r = bytes_equal(self.bytes.as_slice(), other.bytes.as_slice());
        proof {
            if r {
                assert(self.bytes =~= other.bytes);
            }
        }
        r
    }

    /// Whether this key's serialization sorts strictly before the other's.
    pub fn sorts_before(&self, other: &PublicKey) -> (r: bool)
        ensures
            r == lex_less(self@, other@),
    {
        bytes_less(self.bytes.as_slice(), other.bytes.as_slice())
    }
}

/// Whether secp256k1 takes the 33 bytes for a point on the curve in
/// compressed form.
pub uninterp spec fn is_valid_public_key(bytes: Seq<u8>) -> bool;

/// Whether secp256k1 takes the 32 bytes for a secret key.
pub uninterp spec fn is_valid_secret_key(bytes: Seq<u8>) -> bool;

/// Asks `secp256k1::key::PublicKey::from_slice` whether it takes the bytes
/// for a public key. The answer depends on the bytes alone; what it is for
/// given bytes is left to secp256k1.
#[verifier::external_body]
fn public_key_parses(bytes: &[u8; 33]) -> (ok: bool)
    ensures
        ok == is_valid_public_key(bytes@),
{
    bitcoin::secp256k1::key::PublicKey::from_slice(&bytes[..]).is_ok()
}

/// Asks `secp256k1::key::SecretKey::from_slice` whether it takes the bytes
/// for a secret key. The answer depends on the bytes alone; what it is for
/// given bytes is left to secp256k1.
#[verifier::external_body]
fn secret_key_parses(bytes: &[u8; 32]) -> (ok: bool)
    ensures
        ok == is_valid_secret_key(bytes@),
{
    bitcoin::secp256k1::key::SecretKey::from_slice(&bytes[..]).is_ok()
}

/// Whether `enc` stands in `bytes` at `pos`.
pub open spec fn written_at(bytes: Seq<u8>, pos: int, enc: Seq<u8>) -> bool {
    has_bytes(bytes, pos, enc.len() as int) && bytes_at(bytes, pos, enc.len() as int) == enc
}

/// Where two encodings stand one behind the other, each stands at its
/// place.
pub proof fn lemma_written_split(bytes: Seq<u8>, pos: int, a: Seq<u8>, b: Seq<u8>)
    requires
        written_at(bytes, pos, a + b),
    ensures
        written_at(bytes, pos, a),
        written_at(bytes, pos + a.len(), b),
{
    let whole = bytes_at(bytes, pos, (a + b).len() as int);
    assert(bytes_at(bytes, pos, a.len() as int) =~= whole.subrange(0, a.len() as int));
    assert(whole.subrange(0, a.len() as int) =~= a);
    assert(bytes_at(bytes, pos + a.len(), b.len() as int) =~= whole.subrange(
        a.len() as int,
        whole.len() as int,
    ));
    assert(whole.subrange(a.len() as int, whole.len() as int) =~= b);
}

impl PublicKey {
    /// Whether secp256k1 takes the key for a point on the curve.
    pub open spec fn is_valid(&self) -> bool {
        is_valid_public_key(self@)
    }

    /// Whether secp256k1 takes the key for a point on the curve.
    pub fn check(&self) -> (ok: bool)
        ensures
            ok == self.is_valid(),
    {
        public_key_parses(&self.bytes)
    }

    /// The key on the wire: its 33 bytes.
    pub open spec fn encoding(&self) -> Seq<u8> {
        self.bytes@
    }

    /// Reading a key at `pos`: 33 bytes that must be a point on the curve.
    pub open spec fn parse(bytes: Seq<u8>, pos: int) -> Result<(PublicKey, int), DecodeError> {
        match parse_array33(bytes, pos) {
            Ok((a, next)) => if is_valid_public_key(a@) {
                Ok((PublicKey { bytes: a }, next))
            } else {
                Err(DecodeError::InvalidValue)
            },
            Err(e) => Err(e),
        }
    }

    /// A valid key is read back as it was written.
    pub proof fn lemma_parse(bytes: Seq<u8>, pos: int, key: PublicKey)
        requires
            written_at(bytes, pos, key.encoding()),
            key.is_valid(),
        ensures
            PublicKey::parse(bytes, pos) == Ok::<(PublicKey, int), DecodeError>((key, pos + 33)),
    {
        lemma_array33_of(key.bytes);
    }

    /// Appends the key.
    pub fn write(&self, out: &mut Vec<u8>)
        ensures
            final(out)@ == old(out)@ + self.encoding(),
    {
        write_bytes(out, self.bytes.as_slice());
    }

    /// Reads a key at `pos`.
    pub fn read(bytes: &[u8], pos: usize) -> (r: Result<(PublicKey, usize), DecodeError>)
        ensures
            match r {
                Ok((key, next)) => PublicKey::parse(bytes@, pos as int) == Ok::<
                    (PublicKey, int),
                    DecodeError,
                >((key, next as int)),
                Err(e) => PublicKey::parse(bytes@, pos as int) == Err::<
                    (PublicKey, int),
                    DecodeError,
                >(e),
            },
    {
        match read_array33(bytes, pos) {
            Ok((a, next)) => {
                if public_key_parses(&a) {
                    Ok((PublicKey { bytes: a }, next))
                } else {
                    Err(DecodeError::InvalidValue)
                }
            },
            Err(e) => Err(e),
        }
    }
}

/// A secret key: 32 bytes.
#[derive(Clone, Copy, Debug, PartialEq, Eq)]
pub struct SecretKey {
    pub bytes: [u8; 32],
}

impl View for SecretKey {
    type V = Seq<u8>;

    open spec fn view(&self) -> Seq<u8> {
        self.bytes@
    }
}

impl SecretKey {
    /// Wraps the bytes of a key.
    pub fn new(bytes: [u8; 32]) -> (k: SecretKey)
        ensures
            k.bytes == bytes,
    {
        SecretKey { bytes }
    }

    /// Whether secp256k1 takes the bytes for a secret key.
    pub open spec fn is_valid(&self) -> bool {
        is_valid_secret_key(self@)
    }

    /// Whether secp256k1 takes the bytes for a secret key.
    pub fn check(&self) -> (ok: bool)
        ensures
            ok == self.is_valid(),
    {
        secret_key_parses(&self.bytes)
    }

    /// The key on the wire: its 32 bytes.
    pub open spec fn encoding(&self) -> Seq<u8> {
        self.bytes@
    }

    /// Reading a key at `pos`: 32 bytes that must be a valid secret key.
    pub open spec fn parse(bytes: Seq<u8>, pos: int) -> Result<(SecretKey, int), DecodeError> {
        match parse_array32(bytes, pos) {
            Ok((a, next)) => if is_valid_secret_key(a@) {
                Ok((SecretKey { bytes: a }, next))
            } else {
                Err(DecodeError::InvalidValue)
            },
            Err(e) => Err(e),
        }
    }

    /// A valid key is read back as it was written.
    pub proof fn lemma_parse(bytes: Seq<u8>, pos: int, key: SecretKey)
        requires
            written_at(bytes, pos, key.encoding()),
            key.is_valid(),
        ensures
            SecretKey::parse(bytes, pos) == Ok::<(SecretKey, int), DecodeError>((key, pos + 32)),
    {
        lemma_array32_of(key.bytes);
    }

    /// Appends the key.
    pub fn write(&self, out: &mut Vec<u8>)
        ensures
            final(out)@ == old(out)@ + self.encoding(),
    {
        write_bytes(out, self.bytes.as_slice());
    }

    /// Reads a key at `pos`.
    pub fn read(bytes: &[u8], pos: usize) -> (r: Result<(SecretKey, usize), DecodeError>)
        ensures
            match r {
                Ok((key, next)) => SecretKey::parse(bytes@, pos as int) == Ok::<
                    (SecretKey, int),
                    DecodeError,
                >((key, next as int)),
                Err(e) => SecretKey::parse(bytes@, pos as int) == Err::<
                    (SecretKey, int),
                    DecodeError,
                >(e),
            },
    {
        match read_array32(bytes, pos) {
            Ok((a, next)) => {
                if secret_key_parses(&a) {
                    Ok((SecretKey { bytes: a }, next))
                } else {
                    Err(DecodeError::InvalidValue)
                }
            },
            Err(e) => Err(e),
        }
    }
}

/// An output of a transaction: the transaction's id and the output's index.
#[derive(Clone, Copy, Debug, PartialEq, Eq, Hash)]
pub struct OutPoint {
    pub txid: [u8; 32],
    pub vout: u32,
}

impl OutPoint {
    /// Whether two outpoints are the same output.
    pub fn same(&self, other: &OutPoint) -> (r: bool)
        ensures
            r == (*self == *other),
    {
        let r = self.vout == other.vout && bytes_equal(
            self.txid.as_slice(),
            other.txid.as_slice(),
        );
        proof {
            if r {
                assert(self.txid =~= other.txid);
            }
        }
        r
    }

    /// The outpoint on the wire: the id, then the index as a 32-bit number.
    pub open spec fn encoding(&self) -> Seq<u8> {
        self.txid@ + be_bytes(self.vout as int, 4)
    }

    /// Reading an outpoint at `pos`.
    pub open spec fn parse(bytes: Seq<u8>, pos: int) -> Result<(OutPoint, int), DecodeError> {
        match parse_array32(bytes, pos) {
            Ok((txid, next)) => match parse_be(bytes, next, 4) {
                Ok((vout, end)) => Ok((OutPoint { txid, vout: vout as u32 }, end)),
                Err(e) => Err(e),
            },
            Err(e) => Err(e),
        }
    }

    /// An outpoint is read back as it was written.
    pub proof fn lemma_parse(bytes: Seq<u8>, pos: int, outpoint: OutPoint)
        requires
            written_at(bytes, pos, outpoint.encoding()),
        ensures
            OutPoint::parse(bytes, pos) == Ok::<(OutPoint, int), DecodeError>(
                (outpoint, pos + 36),
            ),
            outpoint.encoding().len() == 36,
    {
        lemma_be_bytes_len(outpoint.vout as int, 4);
        lemma_written_split(bytes, pos, outpoint.txid@, be_bytes(outpoint.vout as int, 4));
        lemma_array32_of(outpoint.txid);
        lemma_pow256_values();
        lemma_parse_be(bytes, pos + 32, outpoint.vout as int, 4);
    }

    /// Appends the outpoint.
    pub fn write(&self, out: &mut Vec<u8>)
        ensures
            final(out)@ == old(out)@ + self.encoding(),
    {
        write_bytes(out, self.txid.as_slice());
        write_u32(out, self.vout);
        assert(out@ =~= old(out)@ + self.encoding());
    }

    /// Reads an outpoint at `pos`.
    pub fn read(bytes: &[u8], pos: usize) -> (r: Result<(OutPoint, usize), DecodeError>)
        ensures
            match r {
                Ok((outpoint, next)) => OutPoint::parse(bytes@, pos as int) == Ok::<
                    (OutPoint, int),
                    DecodeError,
                >((outpoint, next as int)),
                Err(e) => OutPoint::parse(bytes@, pos as int) == Err::<(OutPoint, int), DecodeError>(
                    e,
                ),
            },
    {
        let (txid, next) = match read_array32(bytes, pos) {
            Ok(v) => v,
            Err(e) => {
                return Err(e);
            },
        };
        let (vout, end) = match read_u32(bytes, next) {
            Ok(v) => v,
            Err(e) => {
                return Err(e);
            },
        };
        Ok((OutPoint { txid, vout }, end))
    }
}

/// The secret that claims a payment.
#[derive(Clone, Copy, Debug, PartialEq, Eq)]
pub struct PaymentPreimage(pub [u8; 32]);

/// The hash that locks a payment.
#[derive(Clone, Copy, Debug, PartialEq, Eq)]
pub struct PaymentHash(pub [u8; 32]);

} // verus!
