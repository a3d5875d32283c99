//! Claim packages on the wire: a byte for the kind of package, then for a
//! malleable package the count of its claims as a 64-bit number and the
//! claims, for a local package its outpoint and its output.

use crate::outputs::{
    LocalFundingOutput,
    LocalHTLCOutput,
    RemoteHTLCOutput,
    RevokedOutput,
    lemma_parse_script,
    parse_script,
    read_script,
    script_encoding,
    write_script,
};
use crate::package::{
    PackageTemplate,
    PackageView,
    distinct_keys,
    entries_with,
    has_entry,
    insert_entry,
    lemma_entries_with,
};
use crate::primitives::{OutPoint, lemma_written_split, written_at};
use crate::ser::{
    DecodeError,
    be_bytes,
    lemma_be_bytes_len,
    lemma_parse_be,
    lemma_pow256_values,
    parse_be,
    read_u64,
    read_u8,
    write_u64,
    write_u8,
};
use vstd::prelude::*;

verus! {

/// The size of a small message. A reader sets aside no more room than such a
/// message can fill, whatever length the bytes announce.
pub const MAX_ALLOC_SIZE: usize = 64 * 1024;

/// The first `upto` claims of revoked outputs on the wire, each as its outpoint and
/// its output.
pub open spec fn justice_entries_encoding(inputs: Seq<(OutPoint, RevokedOutput)>, upto: int) -> Seq<u8>
    decreases upto,
{
    if upto <= 0 {
        Seq::empty()
    } else {
        justice_entries_encoding(inputs, upto - 1) + inputs[upto - 1].0.encoding()
            + inputs[upto - 1].1.encoding()
    }
}

/// Reading `remaining` claims of revoked outputs at `pos` into `so_far`. A claim of
/// an outpoint read before takes the place of the claim read then.
pub open spec fn parse_justice_entries(
    bytes: Seq<u8>,
    pos: int,
    remaining: nat,
    so_far: Seq<(OutPoint, RevokedOutput)>,
) -> Result<(Seq<(OutPoint, RevokedOutput)>, int), DecodeError>
    decreases remaining,
{
    if remaining == 0 {
        Ok((so_far, pos))
    } else {
        match OutPoint::parse(bytes, pos) {
            Err(e) => Err(e),
            Ok((outpoint, next1)) => match RevokedOutput::parse(bytes, next1) {
                Err(e) => Err(e),
                Ok((output, next2)) => parse_justice_entries(
                    bytes,
                    next2,
                    (remaining - 1) as nat,
                    entries_with(so_far, outpoint, output),
                ),
            },
        }
    }
}

/// Whether every output has valid keys.
pub open spec fn justice_entries_valid(inputs: Seq<(OutPoint, RevokedOutput)>) -> bool {
    forall|i: int| 0 <= i < inputs.len() ==> (#[trigger] inputs[i]).1.is_valid()
}

/// Where claims stand on the wire, the first of them stand there.
pub proof fn lemma_justice_entries_written(
    bytes: Seq<u8>,
    start: int,
    inputs: Seq<(OutPoint, RevokedOutput)>,
    k: int,
    m: int,
)
    requires
        0 <= k <= m,
        written_at(bytes, start, justice_entries_encoding(inputs, m)),
    ensures
        written_at(bytes, start, justice_entries_encoding(inputs, k)),
    decreases m - k,
{
    if k < m {
        lemma_written_split(
            bytes,
            start,
            justice_entries_encoding(inputs, m - 1) + inputs[m - 1].0.encoding(),
            inputs[m - 1].1.encoding(),
        );
        lemma_written_split(
            bytes,
            start,
            justice_entries_encoding(inputs, m - 1),
            inputs[m - 1].0.encoding(),
        );
        lemma_justice_entries_written(bytes, start, inputs, k, m - 1);
    }
}

/// Claims of different outpoints with valid keys are read back as they were
/// written.
pub proof fn lemma_parse_justice_entries(
    bytes: Seq<u8>,
    start: int,
    inputs: Seq<(OutPoint, RevokedOutput)>,
    k: int,
)
    requires
        0 <= k <= inputs.len(),
        written_at(bytes, start, justice_entries_encoding(inputs, inputs.len() as int)),
        distinct_keys(inputs),
        justice_entries_valid(inputs),
    ensures
        parse_justice_entries(
            bytes,
            start + justice_entries_encoding(inputs, k).len(),
            (inputs.len() - k) as nat,
            inputs.subrange(0, k),
        ) == Ok::<(Seq<(OutPoint, RevokedOutput)>, int), DecodeError>(
            (inputs, start + justice_entries_encoding(inputs, inputs.len() as int).len()),
        ),
    decreases inputs.len() - k,
{
    if k == inputs.len() {
        assert(inputs.subrange(0, k) =~= inputs);
    } else {
        let before = justice_entries_encoding(inputs, k);
        let e1 = inputs[k].0.encoding();
        let e2 = inputs[k].1.encoding();
        lemma_justice_entries_written(bytes, start, inputs, k + 1, inputs.len() as int);
        lemma_written_split(bytes, start, before + e1, e2);
        lemma_written_split(bytes, start, before, e1);
        OutPoint::lemma_parse(bytes, start + before.len(), inputs[k].0);
        assert(inputs[k].1.is_valid());
        RevokedOutput::lemma_parse(bytes, start + before.len() + 36, inputs[k].1);
        let so_far = inputs.subrange(0, k);
        assert(!has_entry(so_far, inputs[k].0)) by {
            if has_entry(so_far, inputs[k].0) {
                let i = choose|i: int| 0 <= i < so_far.len() && (#[trigger] so_far[i]).0 == inputs[k].0;
                assert(so_far[i] == inputs[i]);
                assert(inputs[i].0 != inputs[k].0);
            }
        }
        assert(entries_with(so_far, inputs[k].0, inputs[k].1) =~= inputs.subrange(0, k + 1));
        lemma_parse_justice_entries(bytes, start, inputs, k + 1);
    }
}

/// Appends the claims.
fn write_justice_entries(out: &mut Vec<u8>, inputs: &Vec<(OutPoint, RevokedOutput)>)
    ensures
        final(out)@ == old(out)@ + justice_entries_encoding(inputs@, inputs@.len() as int),
{
    let mut i: usize = 0;
    assert(out@ =~= old(out)@ + justice_entries_encoding(inputs@, 0));
    while i < inputs.len()
        invariant
            i <= inputs@.len(),
            out@ == old(out)@ + justice_entries_encoding(inputs@, i as int),
        decreases inputs@.len() - i,
    {
        let ghost before = out@;
        inputs[i].0.write(out);
        inputs[i].1.write(out);
        proof {
            assert(out@ =~= old(out)@ + justice_entries_encoding(inputs@, i + 1));
        }
        i = i + 1;
    }
}

/// Reads `count` claims at `pos`. Room is set aside for no more claims
/// than a small message can hold, whatever count the bytes announce.
fn read_justice_entries(bytes: &[u8], pos: usize, count: u64) -> (r: Result<
    (Vec<(OutPoint, RevokedOutput)>, usize),
    DecodeError,
>)
    ensures
        match r {
            Ok((inputs, next)) => parse_justice_entries(
                bytes@,
                pos as int,
                count as nat,
                Seq::empty(),
            ) == Ok::<(Seq<(OutPoint, RevokedOutput)>, int), DecodeError>((inputs@, next as int)),
            Err(e) => parse_justice_entries(bytes@, pos as int, count as nat, Seq::empty()) == Err::<
                (Seq<(OutPoint, RevokedOutput)>, int),
                DecodeError,
            >(e),
        },
        r matches Ok((inputs, _)) ==> distinct_keys(inputs@),
{
    let room: usize = if count < (MAX_ALLOC_SIZE / 128) as u64 {
        count as usize
    } else {
        MAX_ALLOC_SIZE / 128
    };
    let mut inputs: Vec<(OutPoint, RevokedOutput)> = Vec::with_capacity(room);
    let mut p: usize = pos;
    let mut i: u64 = 0;
    while i < count
        invariant
            i <= count,
            distinct_keys(inputs@),
            parse_justice_entries(bytes@, pos as int, count as nat, Seq::empty())
                == parse_justice_entries(bytes@, p as int, (count - i) as nat, inputs@),
        decreases count - i,
    {
        let (outpoint, next1) = match OutPoint::read(bytes, p) {
            Ok(v) => v,
            Err(e) => {
                return Err(e);
            },
        };
        let (output, next2) = match RevokedOutput::read(bytes, next1) {
            Ok(v) => v,
            Err(e) => {
                return Err(e);
            },
        };
        proof {
            lemma_entries_with(inputs@, outpoint, output);
        }
        insert_entry(&mut inputs, outpoint, output);
        p = next2;
        i = i + 1;
    }
    Ok((inputs, p))
}

/// The first `upto` claims of payment outputs on the wire, each as its outpoint and
/// its output.
pub open spec fn remote_entries_encoding(inputs: Seq<(OutPoint, RemoteHTLCOutput)>, upto: int) -> Seq<u8>
    decreases upto,
{
    if upto <= 0 {
        Seq::empty()
    } else {
        remote_entries_encoding(inputs, upto - 1) + inputs[upto - 1].0.encoding()
            + inputs[upto - 1].1.encoding()
    }
}

/// Reading `remaining` claims of payment outputs at `pos` into `so_far`. A claim of
/// an outpoint read before takes the place of the claim read then.
pub open spec fn parse_remote_entries(
    bytes: Seq<u8>,
    pos: int,
    remaining: nat,
    so_far: Seq<(OutPoint, RemoteHTLCOutput)>,
) -> Result<(Seq<(OutPoint, RemoteHTLCOutput)>, int), DecodeError>
    decreases remaining,
{
    if remaining == 0 {
        Ok((so_far, pos))
    } else {
        match OutPoint::parse(bytes, pos) {
            Err(e) => Err(e),
            Ok((outpoint, next1)) => match RemoteHTLCOutput::parse(bytes, next1) {
                Err(e) => Err(e),
                Ok((output, next2)) => parse_remote_entries(
                    bytes,
                    next2,
                    (remaining - 1) as nat,
                    entries_with(so_far, outpoint, output),
                ),
            },
        }
    }
}

/// Whether every output has valid keys.
pub open spec fn remote_entries_valid(inputs: Seq<(OutPoint, RemoteHTLCOutput)>) -> bool {
    forall|i: int| 0 <= i < inputs.len() ==> (#[trigger] inputs[i]).1.is_valid()
}

/// Where claims stand on the wire, the first of them stand there.
pub proof fn lemma_remote_entries_written(
    bytes: Seq<u8>,
    start: int,
    inputs: Seq<(OutPoint, RemoteHTLCOutput)>,
    k: int,
    m: int,
)
    requires
        0 <= k <= m,
        written_at(bytes, start, remote_entries_encoding(inputs, m)),
    ensures
        written_at(bytes, start, remote_entries_encoding(inputs, k)),
    decreases m - k,
{
    if k < m {
        lemma_written_split(
            bytes,
            start,
            remote_entries_encoding(inputs, m - 1) + inputs[m - 1].0.encoding(),
            inputs[m - 1].1.encoding(),
        );
        lemma_written_split(
            bytes,
            start,
            remote_entries_encoding(inputs, m - 1),
            inputs[m - 1].0.encoding(),
        );
        lemma_remote_entries_written(bytes, start, inputs, k, m - 1);
    }
}

/// Claims of different outpoints with valid keys are read back as they were
/// written.
pub proof fn lemma_parse_remote_entries(
    bytes: Seq<u8>,
    start: int,
    inputs: Seq<(OutPoint, RemoteHTLCOutput)>,
    k: int,
)
    requires
        0 <= k <= inputs.len(),
        written_at(bytes, start, remote_entries_encoding(inputs, inputs.len() as int)),
        distinct_keys(inputs),
        remote_entries_valid(inputs),
    ensures
        parse_remote_entries(
            bytes,
            start + remote_entries_encoding(inputs, k).len(),
            (inputs.len() - k) as nat,
            inputs.subrange(0, k),
        ) == Ok::<(Seq<(OutPoint, RemoteHTLCOutput)>, int), DecodeError>(
            (inputs, start + remote_entries_encoding(inputs, inputs.len() as int).len()),
        ),
    decreases inputs.len() - k,
{
    if k == inputs.len() {
        assert(inputs.subrange(0, k) =~= inputs);
    } else {
        let before = remote_entries_encoding(inputs, k);
        let e1 = inputs[k].0.encoding();
        let e2 = inputs[k].1.encoding();
        lemma_remote_entries_written(bytes, start, inputs, k + 1, inputs.len() as int);
        lemma_written_split(bytes, start, before + e1, e2);
        lemma_written_split(bytes, start, before, e1);
        OutPoint::lemma_parse(bytes, start + before.len(), inputs[k].0);
        assert(inputs[k].1.is_valid());
        RemoteHTLCOutput::lemma_parse(bytes, start + before.len() + 36, inputs[k].1);
        let so_far = inputs.subrange(0, k);
        assert(!has_entry(so_far, inputs[k].0)) by {
            if has_entry(so_far, inputs[k].0) {
                let i = choose|i: int| 0 <= i < so_far.len() && (#[trigger] so_far[i]).0 == inputs[k].0;
                assert(so_far[i] == inputs[i]);
                assert(inputs[i].0 != inputs[k].0);
            }
        }
        assert(entries_with(so_far, inputs[k].0, inputs[k].1) =~= inputs.subrange(0, k + 1));
        lemma_parse_remote_entries(bytes, start, inputs, k + 1);
    }
}

/// Appends the claims.
fn write_remote_entries(out: &mut Vec<u8>, inputs: &Vec<(OutPoint, RemoteHTLCOutput)>)
    ensures
        final(out)@ == old(out)@ + remote_entries_encoding(inputs@, inputs@.len() as int),
{
    let mut i: usize = 0;
    assert(out@ =~= old(out)@ + remote_entries_encoding(inputs@, 0));
    while i < inputs.len()
        invariant
            i <= inputs@.len(),
            out@ == old(out)@ + remote_entries_encoding(inputs@, i as int),
        decreases inputs@.len() - i,
    {
        let ghost before = out@;
        inputs[i].0.write(out);
        inputs[i].1.write(out);
        proof {
            assert(out@ =~= old(out)@ + remote_entries_encoding(inputs@, i + 1));
        }
        i = i + 1;
    }
}

/// Reads `count` claims at `pos`. Room is set aside for no more claims
/// than a small message can hold, whatever count the bytes announce.
fn read_remote_entries(bytes: &[u8], pos: usize, count: u64) -> (r: Result<
    (Vec<(OutPoint, RemoteHTLCOutput)>, usize),
    DecodeError,
>)
    ensures
        match r {
            Ok((inputs, next)) => parse_remote_entries(
                bytes@,
                pos as int,
                count as nat,
                Seq::empty(),
            ) == Ok::<(Seq<(OutPoint, RemoteHTLCOutput)>, int), DecodeError>((inputs@, next as int)),
            Err(e) => parse_remote_entries(bytes@, pos as int, count as nat, Seq::empty()) == Err::<
                (Seq<(OutPoint, RemoteHTLCOutput)>, int),
                DecodeError,
            >(e),
        },
        r matches Ok((inputs, _)) ==> distinct_keys(inputs@),
{
    let room: usize = if count < (MAX_ALLOC_SIZE / 128) as u64 {
        count as usize
    } else {
        MAX_ALLOC_SIZE / 128
    };
    let mut inputs: Vec<(OutPoint, RemoteHTLCOutput)> = Vec::with_capacity(room);
    let mut p: usize = pos;
    let mut i: u64 = 0;
    while i < count
        invariant
            i <= count,
            distinct_keys(inputs@),
            parse_remote_entries(bytes@, pos as int, count as nat, Seq::empty())
                == parse_remote_entries(bytes@, p as int, (count - i) as nat, inputs@),
        decreases count - i,
    {
        let (outpoint, next1) = match OutPoint::read(bytes, p) {
            Ok(v) => v,
            Err(e) => {
                return Err(e);
            },
        };
        let (output, next2) = match RemoteHTLCOutput::read(bytes, next1) {
            Ok(v) => v,
            Err(e) => {
                return Err(e);
            },
        };
        proof {
            lemma_entries_with(inputs@, outpoint, output);
        }
        insert_entry(&mut inputs, outpoint, output);
        p = next2;
        i = i + 1;
    }
    Ok((inputs, p))
}

/// A package on the wire.
pub open spec fn package_encoding(package: PackageView) -> Seq<u8> {
    match package {
        PackageView::MalleableJusticeTx { inputs } => be_bytes(0, 1) + be_bytes(
            inputs.len() as int,
            8,
        ) + justice_entries_encoding(inputs, inputs.len() as int),
        PackageView::RemoteHTLCTx { inputs } => be_bytes(1, 1) + be_bytes(inputs.len() as int, 8)
            + remote_entries_encoding(inputs, inputs.len() as int),
        PackageView::LocalHTLCTx { outpoint, output } => be_bytes(2, 1) + outpoint.encoding()
            + output.encoding(),
        PackageView::LocalCommitmentTx { outpoint, funding_redeemscript } => be_bytes(3, 1)
            + outpoint.encoding() + script_encoding(funding_redeemscript),
    }
}

/// Reading a package at `pos`; a first byte above 3 is no kind of package.
pub open spec fn parse_package(bytes: Seq<u8>, pos: int) -> Result<(PackageView, int), DecodeError> {
    match parse_be(bytes, pos, 1) {
        Err(e) => Err(e),
        Ok((tag, next1)) => if tag == 0 {
            match parse_be(bytes, next1, 8) {
                Err(e) => Err(e),
                Ok((count, next2)) => match parse_justice_entries(
                    bytes,
                    next2,
                    count as nat,
                    Seq::empty(),
                ) {
                    Err(e) => Err(e),
                    Ok((inputs, next3)) => Ok((PackageView::MalleableJusticeTx { inputs }, next3)),
                },
            }
        } else if tag == 1 {
            match parse_be(bytes, next1, 8) {
                Err(e) => Err(e),
                Ok((count, next2)) => match parse_remote_entries(
                    bytes,
                    next2,
                    count as nat,
                    Seq::empty(),
                ) {
                    Err(e) => Err(e),
                    Ok((inputs, next3)) => Ok((PackageView::RemoteHTLCTx { inputs }, next3)),
                },
            }
        } else if tag == 2 {
            match OutPoint::parse(bytes, next1) {
                Err(e) => Err(e),
                Ok((outpoint, next2)) => match LocalHTLCOutput::parse(bytes, next2) {
                    Err(e) => Err(e),
                    Ok((output, next3)) => Ok((PackageView::LocalHTLCTx { outpoint, output }, next3)),
                },
            }
        } else if tag == 3 {
            match OutPoint::parse(bytes, next1) {
                Err(e) => Err(e),
                Ok((outpoint, next2)) => match parse_script(bytes, next2) {
                    Err(e) => Err(e),
                    Ok((funding_redeemscript, next3)) => Ok(
                        (PackageView::LocalCommitmentTx { outpoint, funding_redeemscript }, next3),
                    ),
                },
            }
        } else {
            Err(DecodeError::InvalidValue)
        },
    }
}

impl PackageView {
    /// Whether the package can be written and read back: its keys are keys
    /// to secp256k1, and its count of claims and the length of its script
    /// fit the numbers that announce them.
    pub open spec fn is_encodable(self) -> bool {
        match self {
            PackageView::MalleableJusticeTx { inputs } => justice_entries_valid(inputs)
                && inputs.len() <= u64::MAX,
            PackageView::RemoteHTLCTx { inputs } => remote_entries_valid(inputs) && inputs.len()
                <= u64::MAX,
            PackageView::LocalHTLCTx { .. } => true,
            PackageView::LocalCommitmentTx { funding_redeemscript, .. } =>
                funding_redeemscript.len() < 0x1_0000,
        }
    }
}

/// A package in which no outpoint stands twice, and which can be written, is
/// read back from where it was written as it was, and the reader stops
/// behind it.
pub proof fn lemma_parse_package(bytes: Seq<u8>, pos: int, package: PackageView)
    requires
        written_at(bytes, pos, package_encoding(package)),
        package.well_formed(),
        package.is_encodable(),
    ensures
        parse_package(bytes, pos) == Ok::<(PackageView, int), DecodeError>(
            (package, pos + package_encoding(package).len()),
        ),
{
    lemma_pow256_values();
    lemma_be_bytes_len(0, 1);
    lemma_be_bytes_len(1, 1);
    lemma_be_bytes_len(2, 1);
    lemma_be_bytes_len(3, 1);
    match package {
        PackageView::MalleableJusticeTx { inputs } => {
            let e1 = be_bytes(0, 1);
            let e2 = be_bytes(inputs.len() as int, 8);
            let e3 = justice_entries_encoding(inputs, inputs.len() as int);
            lemma_be_bytes_len(inputs.len() as int, 8);
            lemma_written_split(bytes, pos, e1 + e2, e3);
            lemma_written_split(bytes, pos, e1, e2);
            lemma_parse_be(bytes, pos, 0, 1);
            lemma_parse_be(bytes, pos + 1, inputs.len() as int, 8);
            lemma_parse_justice_entries(bytes, pos + 9, inputs, 0);
            assert(inputs.subrange(0, 0) =~= Seq::empty());
        },
        PackageView::RemoteHTLCTx { inputs } => {
            let e1 = be_bytes(1, 1);
            let e2 = be_bytes(inputs.len() as int, 8);
            let e3 = remote_entries_encoding(inputs, inputs.len() as int);
            lemma_be_bytes_len(inputs.len() as int, 8);
            lemma_written_split(bytes, pos, e1 + e2, e3);
            lemma_written_split(bytes, pos, e1, e2);
            lemma_parse_be(bytes, pos, 1, 1);
            lemma_parse_be(bytes, pos + 1, inputs.len() as int, 8);
            lemma_parse_remote_entries(bytes, pos + 9, inputs, 0);
            assert(inputs.subrange(0, 0) =~= Seq::empty());
        },
        PackageView::LocalHTLCTx { outpoint, output } => {
            let e1 = be_bytes(2, 1);
            let e2 = outpoint.encoding();
            let e3 = output.encoding();
            lemma_written_split(bytes, pos, e1 + e2, e3);
            lemma_written_split(bytes, pos, e1, e2);
            lemma_parse_be(bytes, pos, 2, 1);
            OutPoint::lemma_parse(bytes, pos + 1, outpoint);
            LocalHTLCOutput::lemma_parse(bytes, pos + 37, output);
        },
        PackageView::LocalCommitmentTx { outpoint, funding_redeemscript } => {
            let e1 = be_bytes(3, 1);
            let e2 = outpoint.encoding();
            let e3 = script_encoding(funding_redeemscript);
            lemma_written_split(bytes, pos, e1 + e2, e3);
            lemma_written_split(bytes, pos, e1, e2);
            lemma_parse_be(bytes, pos, 3, 1);
            OutPoint::lemma_parse(bytes, pos + 1, outpoint);
            lemma_parse_script(bytes, pos + 37, funding_redeemscript);
        },
    }
}

/// Reading what was written gives what was written: a package in which no
/// outpoint stands twice, and which can be written, is read back from its
/// own bytes as it was.
pub proof fn lemma_package_roundtrip(package: PackageView)
    requires
        package.well_formed(),
        package.is_encodable(),
    ensures
        parse_package(package_encoding(package), 0) == Ok::<(PackageView, int), DecodeError>(
            (package, package_encoding(package).len() as int),
        ),
{
    let bytes = package_encoding(package);
    assert(bytes.subrange(0, bytes.len() as int) =~= bytes);
    lemma_parse_package(bytes, 0, package);
}

impl PackageTemplate {
    /// Appends the package.
    pub fn write(&self, out: &mut Vec<u8>)
        ensures
            final(out)@ == old(out)@ + package_encoding(self@),
    {
        match self {
            PackageTemplate::MalleableJusticeTx { inputs } => {
                write_u8(out, 0);
                write_u64(out, inputs.len() as u64);
                write_justice_entries(out, inputs);
            },
            PackageTemplate::RemoteHTLCTx { inputs } => {
                write_u8(out, 1);
                write_u64(out, inputs.len() as u64);
                write_remote_entries(out, inputs);
            },
            PackageTemplate::LocalHTLCTx { outpoint, output } => {
                write_u8(out, 2);
                outpoint.write(out);
                output.write(out);
            },
            PackageTemplate::LocalCommitmentTx { outpoint, output } => {
                write_u8(out, 3);
                outpoint.write(out);
                write_script(out, &output.funding_redeemscript);
            },
        }
        assert(out@ =~= old(out)@ + package_encoding(self@));
    }

    /// The package on the wire.
    pub fn encode(&self) -> (out: Vec<u8>)
        ensures
            out@ == package_encoding(self@),
    {
        let mut out: Vec<u8> = Vec::new();
        self.write(&mut out);
        assert(out@ =~= package_encoding(self@));
        out
    }

    /// Reads a package at `pos`, and gives it with the position behind it.
    pub fn read(bytes: &[u8], pos: usize) -> (r: Result<(PackageTemplate, usize), DecodeError>)
        ensures
            match r {
                Ok((package, next)) => parse_package(bytes@, pos as int) == Ok::<
                    (PackageView, int),
                    DecodeError,
                >((package@, next as int)),
                Err(e) => parse_package(bytes@, pos as int) == Err::<(PackageView, int), DecodeError>(
                    e,
                ),
            },
            r matches Ok((package, _)) ==> package@.well_formed(),
    {
        let (tag, next1) = match read_u8(bytes, pos) {
            Ok(v) => v,
            Err(e) => {
                return Err(e);
            },
        };
        if tag == 0 {
            let (count, next2) = match read_u64(bytes, next1) {
                Ok(v) => v,
                Err(e) => {
                    return Err(e);
                },
            };
            match read_justice_entries(bytes, next2, count) {
                Ok((inputs, next3)) => Ok((PackageTemplate::MalleableJusticeTx { inputs }, next3)),
                Err(e) => Err(e),
            }
        } else if tag == 1 {
            let (count, next2) = match read_u64(bytes, next1) {
                Ok(v) => v,
                Err(e) => {
                    return Err(e);
                },
            };
            match read_remote_entries(bytes, next2, count) {
                Ok((inputs, next3)) => Ok((PackageTemplate::RemoteHTLCTx { inputs }, next3)),
                Err(e) => Err(e),
            }
        } else if tag == 2 {
            let (outpoint, next2) = match OutPoint::read(bytes, next1) {
                Ok(v) => v,
                Err(e) => {
                    return Err(e);
                },
            };
            match LocalHTLCOutput::read(bytes, next2) {
                Ok((output, next3)) => Ok((PackageTemplate::LocalHTLCTx { outpoint, output }, next3)),
                Err(e) => Err(e),
            }
        } else if tag == 3 {
            let (outpoint, next2) = match OutPoint::read(bytes, next1) {
                Ok(v) => v,
                Err(e) => {
                    return Err(e);
                },
            };
            match read_script(bytes, next2) {
                Ok((funding_redeemscript, next3)) => Ok(
                    (
                        PackageTemplate::LocalCommitmentTx {
                            outpoint,
                            output: LocalFundingOutput { funding_redeemscript },
                        },
                        next3,
                    ),
                ),
                Err(e) => Err(e),
            }
        } else {
            Err(DecodeError::InvalidValue)
        }
    }

    /// Reads a package from the start of `bytes`; what stands behind it is
    /// left unread.
    pub fn decode(bytes: &[u8]) -> (r: Result<PackageTemplate, DecodeError>)
        ensures
            match r {
                Ok(package) => parse_package(bytes@, 0) matches Ok((read, _)) && read == package@
                    && package@.well_formed(),
                Err(e) => parse_package(bytes@, 0) == Err::<(PackageView, int), DecodeError>(e),
            },
    {
        match PackageTemplate::read(bytes, 0) {
            Ok((package, _)) => Ok(package),
            Err(e) => Err(e),
        }
    }
}

} // verus!
