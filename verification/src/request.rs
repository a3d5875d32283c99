//! A claim with what steers it: when it must confirm, what it paid last, and
//! whether it may be merged with other claims.

use crate::outputs::{
    lemma_parse_option_u32,
    option_u32_encoding,
    parse_option_u32,
    read_option_u32,
    write_option_u32,
};
use crate::package::{PackageTemplate, PackageView};
use crate::package_ser::{lemma_parse_package, package_encoding, parse_package};
use crate::primitives::{lemma_written_split, written_at};
use crate::ser::{
    DecodeError,
    be_bytes,
    lemma_be_bytes_len,
    lemma_parse_be,
    lemma_pow256_values,
    parse_be,
    read_u32,
    read_u64,
    read_u8,
    write_u32,
    write_u64,
    write_u8,
};
use vstd::prelude::*;

verus! {

/// The timelock of a request that holds no claim yet. The first request
/// merged into it gives it its claim.
pub const UNSET_TIMELOCK: u32 = 0xffff_ffff;

/// How the fee of a claim is raised.
#[derive(Clone, Copy, Debug, PartialEq, Eq, Structural)]
pub enum BumpStrategy {
    /// The claim is replaced by one that pays more.
    RBF,
    /// A child of the claim pays for both.
    CPFP,
}

impl BumpStrategy {
    /// The strategy on the wire: one byte.
    pub open spec fn encoding(self) -> Seq<u8> {
        be_bytes(
            if self == BumpStrategy::CPFP {
                1
            } else {
                0
            },
            1,
        )
    }

    /// Reading a strategy at `pos`; a byte above 1 is no strategy.
    pub open spec fn parse(bytes: Seq<u8>, pos: int) -> Result<(BumpStrategy, int), DecodeError> {
        match parse_be(bytes, pos, 1) {
            Err(e) => Err(e),
            Ok((strategy, next)) => if strategy > 1 {
                Err(DecodeError::InvalidValue)
            } else if strategy == 1 {
                Ok((BumpStrategy::CPFP, next))
            } else {
                Ok((BumpStrategy::RBF, next))
            },
        }
    }

    /// Appends the strategy.
    pub fn write(&self, out: &mut Vec<u8>)
        ensures
            final(out)@ == old(out)@ + self.encoding(),
    {
        write_u8(
            out,
            match self {
                BumpStrategy::RBF => 0,
                BumpStrategy::CPFP => 1,
            },
        );
    }

    /// Reads a strategy at `pos`.
    pub fn read(bytes: &[u8], pos: usize) -> (r: Result<(BumpStrategy, usize), DecodeError>)
        ensures
            match r {
                Ok((strategy, next)) => BumpStrategy::parse(bytes@, pos as int) == Ok::<
                    (BumpStrategy, int),
                    DecodeError,
                >((strategy, next as int)),
                Err(e) => BumpStrategy::parse(bytes@, pos as int) == Err::<
                    (BumpStrategy, int),
                    DecodeError,
                >(e),
            },
    {
        let (strategy, next) = match read_u8(bytes, pos) {
            Ok(v) => v,
            Err(e) => {
                return Err(e);
            },
        };
        if strategy > 1 {
            Err(DecodeError::InvalidValue)
        } else if strategy == 1 {
            Ok((BumpStrategy::CPFP, next))
        } else {
            Ok((BumpStrategy::RBF, next))
        }
    }
}

/// A claim and what steers it.
#[derive(Clone, Debug, PartialEq, Eq)]
pub struct OnchainRequest {
    /// Whether the claim may be merged with others.
    pub aggregation: bool,
    /// How the fee of the claim is raised.
    pub bump_strategy: BumpStrategy,
    /// The feerate of the last broadcast; zero before the first.
    pub feerate_previous: u64,
    /// The height at which the fee is to be raised next.
    pub height_timer: Option<u32>,
    /// The height from which on the claim is no longer ours alone.
    pub absolute_timelock: u32,
    /// The height of the block that caused the claim.
    pub height_original: u32,
    /// What is claimed.
    pub content: PackageTemplate,
}

/// A request with its package as sequences.
#[verifier::ext_equal]
pub struct OnchainRequestView {
    pub aggregation: bool,
    pub bump_strategy: BumpStrategy,
    pub feerate_previous: u64,
    pub height_timer: Option<u32>,
    pub absolute_timelock: u32,
    pub height_original: u32,
    pub content: PackageView,
}

impl View for OnchainRequest {
    type V = OnchainRequestView;

    open spec fn view(&self) -> OnchainRequestView {
        OnchainRequestView {
            aggregation: self.aggregation,
            bump_strategy: self.bump_strategy,
            feerate_previous: self.feerate_previous,
            height_timer: self.height_timer,
            absolute_timelock: self.absolute_timelock,
            height_original: self.height_original,
            content: self.content@,
        }
    }
}

impl OnchainRequestView {
    /// Whether `other` may be merged into this request: anything into a
    /// request that holds no claim yet; otherwise claims caused by the same
    /// block, in malleable packages of one kind.
    pub open spec fn accepts(self, other: OnchainRequestView) -> bool {
        self.absolute_timelock == UNSET_TIMELOCK || (self.height_original == other.height_original
            && self.content.mergeable_with(other.content))
    }

    /// The request once `other` has been merged into it. A request that
    /// holds no claim yet takes the claim, its block and its timelock from
    /// `other` and keeps the rest; any other request takes the earlier of the
    /// two timelocks and the claims of both.
    pub open spec fn merged_with(self, other: OnchainRequestView) -> OnchainRequestView {
        if self.absolute_timelock == UNSET_TIMELOCK {
            OnchainRequestView {
                height_original: other.height_original,
                content: other.content,
                absolute_timelock: other.absolute_timelock,
                ..self
            }
        } else {
            OnchainRequestView {
                absolute_timelock: if self.absolute_timelock > other.absolute_timelock {
                    other.absolute_timelock
                } else {
                    self.absolute_timelock
                },
                content: self.content.merged_with(other.content),
                ..self
            }
        }
    }

    /// The request on the wire, field by field.
    pub open spec fn encoding(self) -> Seq<u8> {
        be_bytes(
            if self.aggregation {
                1
            } else {
                0
            },
            1,
        ) + self.bump_strategy.encoding() + be_bytes(self.feerate_previous as int, 8) + option_u32_encoding(self.height_timer)
            + be_bytes(self.absolute_timelock as int, 4) + be_bytes(self.height_original as int, 4)
            + package_encoding(self.content)
    }

    /// Reading a request at `pos`.
    pub open spec fn parse(bytes: Seq<u8>, pos: int) -> Result<(OnchainRequestView, int), DecodeError> {
        match parse_be(bytes, pos, 1) {
            Err(e) => Err(e),
            Ok((aggregation, next1)) => if aggregation > 1 {
                Err(DecodeError::InvalidValue)
            } else {
                match BumpStrategy::parse(bytes, next1) {
                    Err(e) => Err(e),
                    Ok((bump_strategy, next2)) => {
                        match parse_be(bytes, next2, 8) {
                            Err(e) => Err(e),
                            Ok((feerate, next3)) => match parse_option_u32(bytes, next3) {
                                Err(e) => Err(e),
                                Ok((height_timer, next4)) => match parse_be(bytes, next4, 4) {
                                    Err(e) => Err(e),
                                    Ok((timelock, next5)) => match parse_be(bytes, next5, 4) {
                                        Err(e) => Err(e),
                                        Ok((height, next6)) => match parse_package(bytes, next6) {
                                            Err(e) => Err(e),
                                            Ok((content, next7)) => Ok(
                                                (
                                                    OnchainRequestView {
                                                        aggregation: aggregation == 1,
                                                        bump_strategy,
                                                        feerate_previous: feerate as u64,
                                                        height_timer,
                                                        absolute_timelock: timelock as u32,
                                                        height_original: height as u32,
                                                        content,
                                                    },
                                                    next7,
                                                ),
                                            ),
                                        },
                                    },
                                },
                            },
                        }
                    },
                }
            },
        }
    }
}

/// A request whose package claims no outpoint twice and can be written is
/// read back from where it was written as it was.
pub proof fn lemma_parse_request(bytes: Seq<u8>, pos: int, request: OnchainRequestView)
    requires
        written_at(bytes, pos, request.encoding()),
        request.content.well_formed(),
        request.content.is_encodable(),
    ensures
        OnchainRequestView::parse(bytes, pos) == Ok::<(OnchainRequestView, int), DecodeError>(
            (request, pos + request.encoding().len()),
        ),
{
    let aggregation = if request.aggregation {
        1int
    } else {
        0int
    };
    let strategy = if request.bump_strategy == BumpStrategy::CPFP {
        1int
    } else {
        0int
    };
    let e1 = be_bytes(aggregation, 1);
    let e2 = be_bytes(strategy, 1);
    let e3 = be_bytes(request.feerate_previous as int, 8);
    let e4 = option_u32_encoding(request.height_timer);
    let e5 = be_bytes(request.absolute_timelock as int, 4);
    let e6 = be_bytes(request.height_original as int, 4);
    let e7 = package_encoding(request.content);
    lemma_pow256_values();
    lemma_be_bytes_len(aggregation, 1);
    lemma_be_bytes_len(strategy, 1);
    lemma_be_bytes_len(request.feerate_previous as int, 8);
    lemma_be_bytes_len(request.absolute_timelock as int, 4);
    lemma_be_bytes_len(request.height_original as int, 4);
    lemma_written_split(bytes, pos, e1 + e2 + e3 + e4 + e5 + e6, e7);
    lemma_written_split(bytes, pos, e1 + e2 + e3 + e4 + e5, e6);
    lemma_written_split(bytes, pos, e1 + e2 + e3 + e4, e5);
    lemma_written_split(bytes, pos, e1 + e2 + e3, e4);
    lemma_written_split(bytes, pos, e1 + e2, e3);
    lemma_written_split(bytes, pos, e1, e2);
    lemma_parse_be(bytes, pos, aggregation, 1);
    lemma_parse_be(bytes, pos + 1, strategy, 1);
    lemma_parse_be(bytes, pos + 2, request.feerate_previous as int, 8);
    lemma_parse_option_u32(bytes, pos + 10, request.height_timer);
    lemma_parse_be(bytes, pos + 10 + e4.len(), request.absolute_timelock as int, 4);
    lemma_parse_be(bytes, pos + 14 + e4.len(), request.height_original as int, 4);
    lemma_parse_package(bytes, pos + 18 + e4.len(), request.content);
}

/// Reading what was written gives what was written: a request whose package
/// claims no outpoint twice and can be written is read back from its own
/// bytes as it was.
pub proof fn lemma_request_roundtrip(request: OnchainRequestView)
    requires
        request.content.well_formed(),
        request.content.is_encodable(),
    ensures
        OnchainRequestView::parse(request.encoding(), 0) == Ok::<
            (OnchainRequestView, int),
            DecodeError,
        >((request, request.encoding().len() as int)),
{
    let bytes = request.encoding();
    assert(bytes.subrange(0, bytes.len() as int) =~= bytes);
    lemma_parse_request(bytes, 0, request);
}

impl OnchainRequest {
    /// Merges `req` into this request, see [`OnchainRequestView::merged_with`].
    /// Claims that different blocks caused are not merged: they belong to
    /// different branches of the chain.
    pub fn request_merge(&mut self, req: OnchainRequest)
        requires
            old(self)@.accepts(req@),
        ensures
            final(self)@ == old(self)@.merged_with(req@),
    {
        if self.absolute_timelock == UNSET_TIMELOCK {
            self.height_original = req.height_original;
            self.content = req.content;
            self.absolute_timelock = req.absolute_timelock;
            return ;
        }
        if self.absolute_timelock > req.absolute_timelock {
            self.absolute_timelock = req.absolute_timelock;
        }
        self.content.package_merge(req.content);
    }

    /// Appends the request.
    pub fn write(&self, out: &mut Vec<u8>)
        ensures
            final(out)@ == old(out)@ + self@.encoding(),
    {
        write_u8(
            out,
            if self.aggregation {
                1
            } else {
                0
            },
        );
        self.bump_strategy.write(out);
        write_u64(out, self.feerate_previous);
        write_option_u32(out, self.height_timer);
        write_u32(out, self.absolute_timelock);
        write_u32(out, self.height_original);
        self.content.write(out);
        assert(out@ =~= old(out)@ + self@.encoding());
    }

    /// The request on the wire.
    pub fn encode(&self) -> (out: Vec<u8>)
        ensures
            out@ == self@.encoding(),
    {
        let mut out: Vec<u8> = Vec::new();
        self.write(&mut out);
        assert(out@ =~= self@.encoding());
        out
    }

    /// Reads a request at `pos`, and gives it with the position behind it.
    pub fn read(bytes: &[u8], pos: usize) -> (r: Result<(OnchainRequest, usize), DecodeError>)
        ensures
            match r {
                Ok((request, next)) => OnchainRequestView::parse(bytes@, pos as int) == Ok::<
                    (OnchainRequestView, int),
                    DecodeError,
                >((request@, next as int)),
                Err(e) => OnchainRequestView::parse(bytes@, pos as int) == Err::<
                    (OnchainRequestView, int),
                    DecodeError,
                >(e),
            },
    {
        let (aggregation, next1) = match read_u8(bytes, pos) {
            Ok(v) => v,
            Err(e) => {
                return Err(e);
            },
        };
        if aggregation > 1 {
            return Err(DecodeError::InvalidValue);
        }
        let (bump_strategy, next2) = match BumpStrategy::read(bytes, next1) {
            Ok(v) => v,
            Err(e) => {
                return Err(e);
            },
        };
        let (feerate_previous, next3) = match read_u64(bytes, next2) {
            Ok(v) => v,
            Err(e) => {
                return Err(e);
            },
        };
        let (height_timer, next4) = match read_option_u32(bytes, next3) {
            Ok(v) => v,
            Err(e) => {
                return Err(e);
            },
        };
        let (absolute_timelock, next5) = match read_u32(bytes, next4) {
            Ok(v) => v,
            Err(e) => {
                return Err(e);
            },
        };
        let (height_original, next6) = match read_u32(bytes, next5) {
            Ok(v) => v,
            Err(e) => {
                return Err(e);
            },
        };
        let (content, next7) = match PackageTemplate::read(bytes, next6) {
            Ok(v) => v,
            Err(e) => {
                return Err(e);
            },
        };
        Ok(
            (
                OnchainRequest {
                    aggregation: aggregation == 1,
                    bump_strategy,
                    feerate_previous,
                    height_timer,
                    absolute_timelock,
                    height_original,
                    content,
                },
                next7,
            ),
        )
    }

    /// Reads a request from the start of `bytes`; what stands behind it is
    /// left unread.
    pub fn decode(bytes: &[u8]) -> (r: Result<OnchainRequest, DecodeError>)
        ensures
            match r {
                Ok(request) => OnchainRequestView::parse(bytes@, 0) matches Ok((read, _)) && read
                    == request@,
                Err(e) => OnchainRequestView::parse(bytes@, 0) == Err::<
                    (OnchainRequestView, int),
                    DecodeError,
                >(e),
            },
    {
        match OnchainRequest::read(bytes, 0) {
            Ok((request, _)) => Ok(request),
            Err(e) => Err(e),
        }
    }
}

impl Default for OnchainRequest {
    /// A request that holds no claim yet: it may be merged, its fee is raised
    /// by replacement, and nothing was broadcast.
    fn default() -> (request: OnchainRequest)
        ensures
            request@ == (OnchainRequestView {
                aggregation: true,
                bump_strategy: BumpStrategy::RBF,
                feerate_previous: 0,
                height_timer: None,
                absolute_timelock: UNSET_TIMELOCK,
                height_original: 0,
                content: PackageView::MalleableJusticeTx { inputs: Seq::empty() },
            }),
    {
        OnchainRequest {
            aggregation: true,
            bump_strategy: BumpStrategy::RBF,
            feerate_previous: 0,
            height_timer: None,
            absolute_timelock: UNSET_TIMELOCK,
            height_original: 0,
            content: PackageTemplate::default(),
        }
    }
}

} // verus!
