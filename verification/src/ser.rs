//! The wire form of integers, byte strings and options: integers big-endian
//! at a fixed width, an option behind a byte that says whether it is there.
//! Writers append to a byte vector; readers take a byte string and a position
//! and give the value with the position behind it.

use vstd::prelude::*;

verus! {

/// Why bytes could not be read as a value.
#[derive(Clone, Copy, Debug, PartialEq, Eq, Structural)]
pub enum DecodeError {
    /// A value was read that is not valid where it stands.
    InvalidValue,
    /// The bytes end before the value does.
    ShortRead,
}

/// `value` in `width` bytes, most significant byte first.
pub open spec fn be_bytes(value: int, width: nat) -> Seq<u8>
    decreases width,
{
    if width == 0 {
        Seq::empty()
    } else {
        be_bytes(value / 256, (width - 1) as nat).push((value % 256) as u8)
    }
}

/// The number that `bytes` hold, most significant byte first.
pub open spec fn be_value(bytes: Seq<u8>) -> int
    decreases bytes.len(),
{
    if bytes.len() == 0 {
        0
    } else {
        be_value(bytes.drop_last()) * 256 + bytes.last()
    }
}

/// The number of values that `width` bytes can hold.
pub open spec fn pow256(width: nat) -> int
    decreases width,
{
    if width == 0 {
        1
    } else {
        256 * pow256((width - 1) as nat)
    }
}

/// A number written in `width` bytes takes `width` bytes.
pub proof fn lemma_be_bytes_len(value: int, width: nat)
    ensures
        be_bytes(value, width).len() == width,
    decreases width,
{
    if width > 0 {
        lemma_be_bytes_len(value / 256, (width - 1) as nat);
    }
}

/// A number that fits in `width` bytes is read back as it was written.
pub proof fn lemma_be_roundtrip(value: int, width: nat)
    requires
        0 <= value < pow256(width),
    ensures
        be_value(be_bytes(value, width)) == value,
    decreases width,
{
    if width > 0 {
        let rest = be_bytes(value / 256, (width - 1) as nat);
        lemma_be_roundtrip(value / 256, (width - 1) as nat);
        assert(rest.push((value % 256) as u8).drop_last() =~= rest);
    }
}

/// What 1, 2, 4 and 8 bytes can hold.
pub proof fn lemma_pow256_values()
    ensures
        pow256(0) == 1,
        pow256(1) == 0x100,
        pow256(2) == 0x1_0000,
        pow256(4) == 0x1_0000_0000,
        pow256(8) == 0x1_0000_0000_0000_0000,
{
    reveal_with_fuel(pow256, 9);
}

/// Bytes hold a number that fits in as many bytes.
pub proof fn lemma_be_value_bound(bytes: Seq<u8>)
    ensures
        0 <= be_value(bytes) < pow256(bytes.len()),
    decreases bytes.len(),
{
    if bytes.len() > 0 {
        lemma_be_value_bound(bytes.drop_last());
    }
}

/// The array of 32 bytes that holds `bytes`.
pub open spec fn array32_of(bytes: Seq<u8>) -> [u8; 32] {
    choose|a: [u8; 32]| a@ == bytes
}

/// The array of 33 bytes that holds `bytes`.
pub open spec fn array33_of(bytes: Seq<u8>) -> [u8; 33] {
    choose|a: [u8; 33]| a@ == bytes
}

/// An array is the array that holds its bytes.
pub proof fn lemma_array32_of(a: [u8; 32])
    ensures
        array32_of(a@) == a,
{
    let b = array32_of(a@);
    assert(b@ == a@);
    assert(b =~= a);
}

/// An array is the array that holds its bytes.
pub proof fn lemma_array33_of(a: [u8; 33])
    ensures
        array33_of(a@) == a,
{
    let b = array33_of(a@);
    assert(b@ == a@);
    assert(b =~= a);
}

/// Whether `n` bytes stand at `pos`.
pub open spec fn has_bytes(bytes: Seq<u8>, pos: int, n: int) -> bool {
    0 <= pos && 0 <= n && pos + n <= bytes.len()
}

/// The `n` bytes at `pos`.
pub open spec fn bytes_at(bytes: Seq<u8>, pos: int, n: int) -> Seq<u8> {
    bytes.subrange(pos, pos + n)
}

/// Reading a number of `width` bytes at `pos`.
pub open spec fn parse_be(bytes: Seq<u8>, pos: int, width: nat) -> Result<(int, int), DecodeError> {
    if has_bytes(bytes, pos, width as int) {
        Ok((be_value(bytes_at(bytes, pos, width as int)), pos + width))
    } else {
        Err(DecodeError::ShortRead)
    }
}

/// A number written at `pos` is read there as it was written.
pub proof fn lemma_parse_be(bytes: Seq<u8>, pos: int, value: int, width: nat)
    requires
        has_bytes(bytes, pos, width as int),
        bytes_at(bytes, pos, width as int) == be_bytes(value, width),
        0 <= value < pow256(width),
    ensures
        parse_be(bytes, pos, width) == Ok::<(int, int), DecodeError>((value, pos + width)),
{
    lemma_be_roundtrip(value, width);
}

/// Appends a byte.
pub fn write_u8(out: &mut Vec<u8>, value: u8)
    ensures
        final(out)@ == old(out)@ + be_bytes(value as int, 1),
{
    proof {
        reveal_with_fuel(be_bytes, 2);
        assert(be_bytes(value as int, 1) =~= seq![value]);
    }
    out.push(value);
    assert(out@ =~= old(out)@ + seq![value]);
}

/// Appends `value` in `width` bytes, most significant byte first.
fn write_be(out: &mut Vec<u8>, value: u64, width: usize)
    requires
        width <= 8,
    ensures
        final(out)@ == old(out)@ + be_bytes(value as int, width as nat),
{
    let mut buf: [u8; 8] = [0;8];
    let mut v: u64 = value;
    let mut i: usize = 8;
    while i > 8 - width
        invariant
            8 - width <= i <= 8,
            width <= 8,
            be_bytes(value as int, width as nat) == be_bytes(v as int, (width - (8 - i)) as nat)
                + buf@.subrange(i as int, 8),
        decreases i,
    {
        let ghost before = buf@.subrange(i as int, 8);
        let ghost left = (width - (8 - i)) as nat;
        i = i - 1;
        buf[i] = (v % 256) as u8;
        proof {
            assert(buf@.subrange(i as int, 8) =~= seq![(v % 256) as u8] + before);
            assert(be_bytes(v as int, left) == be_bytes(v as int / 256, (left - 1) as nat).push(
                (v as int % 256) as u8,
            ));
            assert(be_bytes(v as int / 256, (left - 1) as nat).push((v % 256) as u8) + before
                =~= be_bytes(v as int / 256, (left - 1) as nat) + (seq![(v % 256) as u8] + before));
        }
        v = v / 256;
    }
    let mut j: usize = i;
    proof {
        assert(be_bytes(v as int, 0) =~= Seq::<u8>::empty());
        assert(be_bytes(value as int, width as nat) =~= buf@.subrange(i as int, 8));
    }
    while j < 8
        invariant
            i <= j <= 8,
            out@ == old(out)@ + buf@.subrange(i as int, j as int),
        decreases 8 - j,
    {
        out.push(buf[j]);
        proof {
            assert(buf@.subrange(i as int, j + 1) =~= buf@.subrange(i as int, j as int).push(
                buf@[j as int],
            ));
        }
        j = j + 1;
    }
}

/// Appends a 16-bit number.
pub fn write_u16(out: &mut Vec<u8>, value: u16)
    ensures
        final(out)@ == old(out)@ + be_bytes(value as int, 2),
{
    write_be(out, value as u64, 2);
}

/// Appends a 32-bit number.
pub fn write_u32(out: &mut Vec<u8>, value: u32)
    ensures
        final(out)@ == old(out)@ + be_bytes(value as int, 4),
{
    write_be(out, value as u64, 4);
}

/// Appends a 64-bit number.
pub fn write_u64(out: &mut Vec<u8>, value: u64)
    ensures
        final(out)@ == old(out)@ + be_bytes(value as int, 8),
{
    write_be(out, value, 8);
}

/// Appends a byte string as it is.
pub fn write_bytes(out: &mut Vec<u8>, bytes: &[u8])
    ensures
        final(out)@ == old(out)@ + bytes@,
{
    let mut i: usize = 0;
    while i < bytes.len()
        invariant
            i <= bytes@.len(),
            out@ == old(out)@ + bytes@.subrange(0, i as int),
        decreases bytes@.len() - i,
    {
        out.push(bytes[i]);
        proof {
            assert(bytes@.subrange(0, i + 1) =~= bytes@.subrange(0, i as int).push(bytes@[i as int]));
        }
        i = i + 1;
    }
    assert(bytes@.subrange(0, bytes@.len() as int) =~= bytes@);
}

/// Reads a number of `width` bytes at `pos`.
fn read_be(bytes: &[u8], pos: usize, width: usize) -> (r: Result<(u64, usize), DecodeError>)
    requires
        1 <= width <= 8,
    ensures
        match r {
            Ok((value, next)) => parse_be(bytes@, pos as int, width as nat) == Ok::<
                (int, int),
                DecodeError,
            >((value as int, next as int)),
            Err(e) => parse_be(bytes@, pos as int, width as nat) == Err::<(int, int), DecodeError>(
                e,
            ),
        },
{
    if pos > bytes.len() || bytes.len() - pos < width {
        return Err(DecodeError::ShortRead);
    }
    let mut value: u64 = 0;
    let mut k: usize = 0;
    let n = bytes.len();
    proof {
        assert(bytes@.subrange(pos as int, pos as int) =~= Seq::<u8>::empty());
        lemma_pow256_values();
    }
    while k < width
        invariant
            k <= width <= 8,
            n == bytes@.len(),
            pos + width <= bytes@.len(),
            value == be_value(bytes@.subrange(pos as int, pos + k)),
            value < pow256(k as nat),
        decreases width - k,
    {
        proof {
            let upto = bytes@.subrange(pos as int, pos + k + 1);
            assert(upto.drop_last() =~= bytes@.subrange(pos as int, pos + k));
            assert(upto.last() == bytes@[pos + k]);
            lemma_pow256_le(k as nat + 1, 8);
            lemma_pow256_values();
        }
        value = value * 256 + bytes[pos + k] as u64;
        k = k + 1;
    }
    Ok((value, pos + width))
}

/// More bytes hold more.
pub proof fn lemma_pow256_le(a: nat, b: nat)
    requires
        a <= b,
    ensures
        0 < pow256(a) <= pow256(b),
    decreases b,
{
    if a < b {
        lemma_pow256_le(a, (b - 1) as nat);
    } else if a > 0 {
        lemma_pow256_le((a - 1) as nat, (a - 1) as nat);
    }
}

/// Reads a byte at `pos`.
pub fn read_u8(bytes: &[u8], pos: usize) -> (r: Result<(u8, usize), DecodeError>)
    ensures
        match r {
            Ok((value, next)) => parse_be(bytes@, pos as int, 1) == Ok::<(int, int), DecodeError>(
                (value as int, next as int),
            ),
            Err(e) => parse_be(bytes@, pos as int, 1) == Err::<(int, int), DecodeError>(e),
        },
{
    match read_be(bytes, pos, 1) {
        Ok((value, next)) => {
            proof {
                lemma_be_value_bound(bytes_at(bytes@, pos as int, 1));
                lemma_pow256_values();
            }
            Ok((value as u8, next))
        },
        Err(e) => Err(e),
    }
}

/// Reads a 16-bit number at `pos`.
pub fn read_u16(bytes: &[u8], pos: usize) -> (r: Result<(u16, usize), DecodeError>)
    ensures
        match r {
            Ok((value, next)) => parse_be(bytes@, pos as int, 2) == Ok::<(int, int), DecodeError>(
                (value as int, next as int),
            ),
            Err(e) => parse_be(bytes@, pos as int, 2) == Err::<(int, int), DecodeError>(e),
        },
{
    match read_be(bytes, pos, 2) {
        Ok((value, next)) => {
            proof {
                lemma_be_value_bound(bytes_at(bytes@, pos as int, 2));
                lemma_pow256_values();
            }
            Ok((value as u16, next))
        },
        Err(e) => Err(e),
    }
}

/// Reads a 32-bit number at `pos`.
pub fn read_u32(bytes: &[u8], pos: usize) -> (r: Result<(u32, usize), DecodeError>)
    ensures
        match r {
            Ok((value, next)) => parse_be(bytes@, pos as int, 4) == Ok::<(int, int), DecodeError>(
                (value as int, next as int),
            ),
            Err(e) => parse_be(bytes@, pos as int, 4) == Err::<(int, int), DecodeError>(e),
        },
{
    match read_be(bytes, pos, 4) {
        Ok((value, next)) => {
            proof {
                lemma_be_value_bound(bytes_at(bytes@, pos as int, 4));
                lemma_pow256_values();
            }
            Ok((value as u32, next))
        },
        Err(e) => Err(e),
    }
}

/// Reads a 64-bit number at `pos`.
pub fn read_u64(bytes: &[u8], pos: usize) -> (r: Result<(u64, usize), DecodeError>)
    ensures
        match r {
            Ok((value, next)) => parse_be(bytes@, pos as int, 8) == Ok::<(int, int), DecodeError>(
                (value as int, next as int),
            ),
            Err(e) => parse_be(bytes@, pos as int, 8) == Err::<(int, int), DecodeError>(e),
        },
{
    read_be(bytes, pos, 8)
}

/// Reading 32 bytes at `pos`.
pub open spec fn parse_array32(bytes: Seq<u8>, pos: int) -> Result<([u8; 32], int), DecodeError> {
    if has_bytes(bytes, pos, 32) {
        Ok((array32_of(bytes_at(bytes, pos, 32)), pos + 32))
    } else {
        Err(DecodeError::ShortRead)
    }
}

/// Reading 33 bytes at `pos`.
pub open spec fn parse_array33(bytes: Seq<u8>, pos: int) -> Result<([u8; 33], int), DecodeError> {
    if has_bytes(bytes, pos, 33) {
        Ok((array33_of(bytes_at(bytes, pos, 33)), pos + 33))
    } else {
        Err(DecodeError::ShortRead)
    }
}

/// Reads 32 bytes at `pos`.
pub fn read_array32(bytes: &[u8], pos: usize) -> (r: Result<([u8; 32], usize), DecodeError>)
    ensures
        match r {
            Ok((value, next)) => parse_array32(bytes@, pos as int) == Ok::<
                ([u8; 32], int),
                DecodeError,
            >((value, next as int)),
            Err(e) => parse_array32(bytes@, pos as int) == Err::<([u8; 32], int), DecodeError>(e),
        },
{
    if pos > bytes.len() || bytes.len() - pos < 32 {
        return Err(DecodeError::ShortRead);
    }
    let mut out: [u8; 32] = [0;32];
    let mut k: usize = 0;
    let n = bytes.len();
    while k < 32
        invariant
            k <= 32,
            n == bytes@.len(),
            pos + 32 <= bytes@.len(),
            forall|j: int| 0 <= j < k ==> out@[j] == bytes@[pos + j],
        decreases 32 - k,
    {
        out[k] = bytes[pos + k];
        k = k + 1;
    }
    proof {
        assert(out@ =~= bytes_at(bytes@, pos as int, 32));
        lemma_array32_of(out);
    }
    Ok((out, pos + 32))
}

/// Reads 33 bytes at `pos`.
pub fn read_array33(bytes: &[u8], pos: usize) -> (r: Result<([u8; 33], usize), DecodeError>)
    ensures
        match r {
            Ok((value, next)) => parse_array33(bytes@, pos as int) == Ok::<
                ([u8; 33], int),
                DecodeError,
            >((value, next as int)),
            Err(e) => parse_array33(bytes@, pos as int) == Err::<([u8; 33], int), DecodeError>(e),
        },
{
    if pos > bytes.len() || bytes.len() - pos < 33 {
        return Err(DecodeError::ShortRead);
    }
    let mut out: [u8; 33] = [0;33];
    let mut k: usize = 0;
    let n = bytes.len();
    while k < 33
        invariant
            k <= 33,
            n == bytes@.len(),
            pos + 33 <= bytes@.len(),
            forall|j: int| 0 <= j < k ==> out@[j] == bytes@[pos + j],
        decreases 33 - k,
    {
        out[k] = bytes[pos + k];
        k = k + 1;
    }
    proof {
        assert(out@ =~= bytes_at(bytes@, pos as int, 33));
        lemma_array33_of(out);
    }
    Ok((out, pos + 33))
}

} // verus!
