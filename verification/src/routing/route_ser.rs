//! Routes on the wire: the count of paths as a 64-bit number, then each path
//! as the count of its hops in one byte and the hops, field by field.
//! Feature flags stand behind their length as a 16-bit number, most
//! significant byte first.

use crate::features::{ChannelFeatures, NodeFeatures};
use crate::primitives::{PublicKey, lemma_written_split, written_at};
use crate::routing::route::{Route, RouteHop, RouteHopView};
use crate::ser::{
    DecodeError,
    be_bytes,
    bytes_at,
    has_bytes,
    lemma_be_bytes_len,
    lemma_parse_be,
    lemma_pow256_values,
    parse_be,
    read_u16,
    read_u32,
    read_u64,
    read_u8,
    write_u16,
    write_u32,
    write_u64,
    write_u8,
};
use vstd::prelude::*;

verus! {

/// No more paths than this get room set aside before they are read.
pub const MAX_PATHS_ROOM: usize = 128;

/// Feature flags on the wire: their length as a 16-bit number, cut down to
/// 16 bits where it is longer, then the flags with the last byte first.
pub open spec fn features_encoding(flags: Seq<u8>) -> Seq<u8> {
    be_bytes(flags.len() as int % 0x1_0000, 2) + flags.reverse()
}

/// Reading feature flags at `pos`.
pub open spec fn parse_features(bytes: Seq<u8>, pos: int) -> Result<(Seq<u8>, int), DecodeError> {
    match parse_be(bytes, pos, 2) {
        Err(e) => Err(e),
        Ok((len, next1)) => if has_bytes(bytes, next1, len) {
            Ok((bytes_at(bytes, next1, len).reverse(), next1 + len))
        } else {
            Err(DecodeError::ShortRead)
        },
    }
}

/// Fewer than 65536 bytes of feature flags are read back as they were
/// written.
pub proof fn lemma_parse_features(bytes: Seq<u8>, pos: int, flags: Seq<u8>)
    requires
        written_at(bytes, pos, features_encoding(flags)),
        flags.len() < 0x1_0000,
    ensures
        parse_features(bytes, pos) == Ok::<(Seq<u8>, int), DecodeError>(
            (flags, pos + 2 + flags.len()),
        ),
        features_encoding(flags).len() == 2 + flags.len(),
{
    let e1 = be_bytes(flags.len() as int, 2);
    lemma_be_bytes_len(flags.len() as int, 2);
    lemma_pow256_values();
    lemma_written_split(bytes, pos, e1, flags.reverse());
    lemma_parse_be(bytes, pos, flags.len() as int, 2);
    assert(flags.reverse().reverse() =~= flags);
}

/// Appends feature flags.
pub fn write_features(out: &mut Vec<u8>, flags: &Vec<u8>)
    ensures
        final(out)@ == old(out)@ + features_encoding(flags@),
{
    write_u16(out, (flags.len() % 0x1_0000) as u16);
    let ghost start = out@;
    let n = flags.len();
    let mut i: usize = 0;
    while i < n
        invariant
            i <= n,
            n == flags@.len(),
            out@ == start + flags@.reverse().subrange(0, i as int),
        decreases n - i,
    {
        out.push(flags[n - 1 - i]);
        proof {
            let reversed = flags@.reverse();
            assert(reversed.subrange(0, i + 1) =~= reversed.subrange(0, i as int).push(
                reversed[i as int],
            ));
        }
        i = i + 1;
    }
    proof {
        assert(flags@.reverse().subrange(0, n as int) =~= flags@.reverse());
        assert(out@ =~= old(out)@ + features_encoding(flags@));
    }
}

/// Reads feature flags at `pos`.
pub fn read_features(bytes: &[u8], pos: usize) -> (r: Result<(Vec<u8>, usize), DecodeError>)
    ensures
        match r {
            Ok((flags, next)) => parse_features(bytes@, pos as int) == Ok::<
                (Seq<u8>, int),
                DecodeError,
            >((flags@, next as int)),
            Err(e) => parse_features(bytes@, pos as int) == Err::<(Seq<u8>, int), DecodeError>(e),
        },
{
    let (len, next1) = match read_u16(bytes, pos) {
        Ok(v) => v,
        Err(e) => {
            return Err(e);
        },
    };
    let n = bytes.len();
    if n - next1 < len as usize {
        return Err(DecodeError::ShortRead);
    }
    let mut flags: Vec<u8> = Vec::new();
    let mut k: usize = 0;
    let ghost taken = bytes_at(bytes@, next1 as int, len as int);
    while k < len as usize
        invariant
            k <= len,
            n == bytes@.len(),
            next1 + len <= n,
            taken == bytes_at(bytes@, next1 as int, len as int),
            flags@ == taken.reverse().subrange(0, k as int),
        decreases len - k,
    {
        flags.push(bytes[next1 + (len as usize - 1 - k)]);
        proof {
            let reversed = taken.reverse();
            assert(reversed.subrange(0, k + 1) =~= reversed.subrange(0, k as int).push(
                reversed[k as int],
            ));
        }
        k = k + 1;
    }
    proof {
        assert(taken.reverse().subrange(0, len as int) =~= taken.reverse());
    }
    Ok((flags, next1 + len as usize))
}

/// A hop on the wire, field by field.
pub open spec fn hop_encoding(hop: RouteHopView) -> Seq<u8> {
    hop.pubkey.encoding() + features_encoding(hop.node_features) + be_bytes(
        hop.short_channel_id as int,
        8,
    ) + features_encoding(hop.channel_features) + be_bytes(hop.fee_msat as int, 8) + be_bytes(
        hop.cltv_expiry_delta as int,
        4,
    )
}

/// Reading a hop at `pos`.
pub open spec fn parse_hop(bytes: Seq<u8>, pos: int) -> Result<(RouteHopView, int), DecodeError> {
    match PublicKey::parse(bytes, pos) {
        Err(e) => Err(e),
        Ok((pubkey, next1)) => match parse_features(bytes, next1) {
            Err(e) => Err(e),
            Ok((node_features, next2)) => match parse_be(bytes, next2, 8) {
                Err(e) => Err(e),
                Ok((scid, next3)) => match parse_features(bytes, next3) {
                    Err(e) => Err(e),
                    Ok((channel_features, next4)) => match parse_be(bytes, next4, 8) {
                        Err(e) => Err(e),
                        Ok((fee_msat, next5)) => match parse_be(bytes, next5, 4) {
                            Err(e) => Err(e),
                            Ok((cltv, next6)) => Ok(
                                (
                                    RouteHopView {
                                        pubkey,
                                        node_features,
                                        short_channel_id: scid as u64,
                                        channel_features,
                                        fee_msat: fee_msat as u64,
                                        cltv_expiry_delta: cltv as u32,
                                    },
                                    next6,
                                ),
                            ),
                        },
                    },
                },
            },
        },
    }
}

/// Whether a hop can be written and read back: its key is a key to
/// secp256k1, and its feature flags are shorter than 65536 bytes.
pub open spec fn hop_encodable(hop: RouteHopView) -> bool {
    hop.pubkey.is_valid() && hop.node_features.len() < 0x1_0000 && hop.channel_features.len()
        < 0x1_0000
}

/// A hop that can be written is read back as it was written.
pub proof fn lemma_parse_hop(bytes: Seq<u8>, pos: int, hop: RouteHopView)
    requires
        written_at(bytes, pos, hop_encoding(hop)),
        hop_encodable(hop),
    ensures
        parse_hop(bytes, pos) == Ok::<(RouteHopView, int), DecodeError>(
            (hop, pos + hop_encoding(hop).len()),
        ),
{
    let e1 = hop.pubkey.encoding();
    let e2 = features_encoding(hop.node_features);
    let e3 = be_bytes(hop.short_channel_id as int, 8);
    let e4 = features_encoding(hop.channel_features);
    let e5 = be_bytes(hop.fee_msat as int, 8);
    let e6 = be_bytes(hop.cltv_expiry_delta as int, 4);
    lemma_pow256_values();
    lemma_be_bytes_len(hop.short_channel_id as int, 8);
    lemma_be_bytes_len(hop.fee_msat as int, 8);
    lemma_be_bytes_len(hop.cltv_expiry_delta as int, 4);
    lemma_written_split(bytes, pos, e1 + e2 + e3 + e4 + e5, e6);
    lemma_written_split(bytes, pos, e1 + e2 + e3 + e4, e5);
    lemma_written_split(bytes, pos, e1 + e2 + e3, e4);
    lemma_written_split(bytes, pos, e1 + e2, e3);
    lemma_written_split(bytes, pos, e1, e2);
    PublicKey::lemma_parse(bytes, pos, hop.pubkey);
    lemma_parse_features(bytes, pos + 33, hop.node_features);
    lemma_parse_be(bytes, pos + 33 + e2.len(), hop.short_channel_id as int, 8);
    lemma_parse_features(bytes, pos + 41 + e2.len(), hop.channel_features);
    lemma_parse_be(bytes, pos + 41 + e2.len() + e4.len(), hop.fee_msat as int, 8);
    lemma_parse_be(bytes, pos + 49 + e2.len() + e4.len(), hop.cltv_expiry_delta as int, 4);
}

/// The hops of a path with their flags as byte strings.
pub open spec fn hops_view(hops: Seq<RouteHop>) -> Seq<RouteHopView> {
    Seq::new(hops.len(), |i: int| hops[i]@)
}

/// The paths of a route with their flags as byte strings.
pub open spec fn paths_view(paths: Seq<Vec<RouteHop>>) -> Seq<Seq<RouteHopView>> {
    Seq::new(paths.len(), |i: int| hops_view(paths[i]@))
}

/// The first `upto` hops on the wire.
pub open spec fn hops_encoding(hops: Seq<RouteHopView>, upto: int) -> Seq<u8>
    decreases upto,
{
    if upto <= 0 {
        Seq::empty()
    } else {
        hops_encoding(hops, upto - 1) + hop_encoding(hops[upto - 1])
    }
}

/// A path on the wire: the count of its hops in one byte, cut down to 8 bits
/// where it is larger, and the hops.
pub open spec fn path_encoding(hops: Seq<RouteHopView>) -> Seq<u8> {
    be_bytes(hops.len() as int % 0x100, 1) + hops_encoding(hops, hops.len() as int)
}

/// Reading `remaining` hops at `pos` behind `so_far`.
pub open spec fn parse_hops(
    bytes: Seq<u8>,
    pos: int,
    remaining: nat,
    so_far: Seq<RouteHopView>,
) -> Result<(Seq<RouteHopView>, int), DecodeError>
    decreases remaining,
{
    if remaining == 0 {
        Ok((so_far, pos))
    } else {
        match parse_hop(bytes, pos) {
            Err(e) => Err(e),
            Ok((hop, next)) => parse_hops(bytes, next, (remaining - 1) as nat, so_far.push(hop)),
        }
    }
}

/// Reading a path at `pos`.
pub open spec fn parse_path(bytes: Seq<u8>, pos: int) -> Result<(Seq<RouteHopView>, int), DecodeError> {
    match parse_be(bytes, pos, 1) {
        Err(e) => Err(e),
        Ok((count, next1)) => parse_hops(bytes, next1, count as nat, Seq::empty()),
    }
}

/// The first `upto` paths on the wire.
pub open spec fn paths_encoding(paths: Seq<Seq<RouteHopView>>, upto: int) -> Seq<u8>
    decreases upto,
{
    if upto <= 0 {
        Seq::empty()
    } else {
        paths_encoding(paths, upto - 1) + path_encoding(paths[upto - 1])
    }
}

/// A route on the wire.
pub open spec fn route_encoding(paths: Seq<Seq<RouteHopView>>) -> Seq<u8> {
    be_bytes(paths.len() as int, 8) + paths_encoding(paths, paths.len() as int)
}

/// Reading `remaining` paths at `pos` behind `so_far`.
pub open spec fn parse_paths(
    bytes: Seq<u8>,
    pos: int,
    remaining: nat,
    so_far: Seq<Seq<RouteHopView>>,
) -> Result<(Seq<Seq<RouteHopView>>, int), DecodeError>
    decreases remaining,
{
    if remaining == 0 {
        Ok((so_far, pos))
    } else {
        match parse_path(bytes, pos) {
            Err(e) => Err(e),
            Ok((path, next)) => parse_paths(bytes, next, (remaining - 1) as nat, so_far.push(path)),
        }
    }
}

/// Reading a route at `pos`.
pub open spec fn parse_route(bytes: Seq<u8>, pos: int) -> Result<
    (Seq<Seq<RouteHopView>>, int),
    DecodeError,
> {
    match parse_be(bytes, pos, 8) {
        Err(e) => Err(e),
        Ok((count, next1)) => parse_paths(bytes, next1, count as nat, Seq::empty()),
    }
}

/// Whether a path can be written and read back: it has fewer than 256
/// hops, and every hop can be written.
pub open spec fn path_encodable(hops: Seq<RouteHopView>) -> bool {
    hops.len() < 0x100 && forall|i: int| 0 <= i < hops.len() ==> hop_encodable(#[trigger] hops[i])
}

/// Whether a route can be written and read back.
pub open spec fn route_encodable(paths: Seq<Seq<RouteHopView>>) -> bool {
    paths.len() <= u64::MAX && forall|i: int|
        0 <= i < paths.len() ==> path_encodable(#[trigger] paths[i])
}

/// Where hops stand on the wire, the first of them stand there.
pub proof fn lemma_hops_written(bytes: Seq<u8>, start: int, hops: Seq<RouteHopView>, k: int, m: int)
    requires
        0 <= k <= m,
        written_at(bytes, start, hops_encoding(hops, m)),
    ensures
        written_at(bytes, start, hops_encoding(hops, k)),
    decreases m - k,
{
    if k < m {
        lemma_written_split(bytes, start, hops_encoding(hops, m - 1), hop_encoding(hops[m - 1]));
        lemma_hops_written(bytes, start, hops, k, m - 1);
    }
}

/// Hops that can be written are read back as they were written.
pub proof fn lemma_parse_hops(bytes: Seq<u8>, start: int, hops: Seq<RouteHopView>, k: int)
    requires
        0 <= k <= hops.len(),
        written_at(bytes, start, hops_encoding(hops, hops.len() as int)),
        forall|i: int| 0 <= i < hops.len() ==> hop_encodable(#[trigger] hops[i]),
    ensures
        parse_hops(
            bytes,
            start + hops_encoding(hops, k).len(),
            (hops.len() - k) as nat,
            hops.subrange(0, k),
        ) == Ok::<(Seq<RouteHopView>, int), DecodeError>(
            (hops, start + hops_encoding(hops, hops.len() as int).len()),
        ),
    decreases hops.len() - k,
{
    if k == hops.len() {
        assert(hops.subrange(0, k) =~= hops);
    } else {
        let before = hops_encoding(hops, k);
        lemma_hops_written(bytes, start, hops, k + 1, hops.len() as int);
        lemma_written_split(bytes, start, before, hop_encoding(hops[k]));
        assert(hop_encodable(hops[k]));
        lemma_parse_hop(bytes, start + before.len(), hops[k]);
        assert(hops.subrange(0, k).push(hops[k]) =~= hops.subrange(0, k + 1));
        lemma_parse_hops(bytes, start, hops, k + 1);
    }
}

/// A path that can be written is read back as it was written.
pub proof fn lemma_parse_path(bytes: Seq<u8>, pos: int, hops: Seq<RouteHopView>)
    requires
        written_at(bytes, pos, path_encoding(hops)),
        path_encodable(hops),
    ensures
        parse_path(bytes, pos) == Ok::<(Seq<RouteHopView>, int), DecodeError>(
            (hops, pos + path_encoding(hops).len()),
        ),
{
    let e1 = be_bytes(hops.len() as int, 1);
    lemma_pow256_values();
    lemma_be_bytes_len(hops.len() as int, 1);
    lemma_written_split(bytes, pos, e1, hops_encoding(hops, hops.len() as int));
    lemma_parse_be(bytes, pos, hops.len() as int, 1);
    lemma_parse_hops(bytes, pos + 1, hops, 0);
    assert(hops.subrange(0, 0) =~= Seq::<RouteHopView>::empty());
}

/// Where paths stand on the wire, the first of them stand there.
pub proof fn lemma_paths_written(
    bytes: Seq<u8>,
    start: int,
    paths: Seq<Seq<RouteHopView>>,
    k: int,
    m: int,
)
    requires
        0 <= k <= m,
        written_at(bytes, start, paths_encoding(paths, m)),
    ensures
        written_at(bytes, start, paths_encoding(paths, k)),
    decreases m - k,
{
    if k < m {
        lemma_written_split(
            bytes,
            start,
            paths_encoding(paths, m - 1),
            path_encoding(paths[m - 1]),
        );
        lemma_paths_written(bytes, start, paths, k, m - 1);
    }
}

/// Paths that can be written are read back as they were written.
pub proof fn lemma_parse_paths(bytes: Seq<u8>, start: int, paths: Seq<Seq<RouteHopView>>, k: int)
    requires
        0 <= k <= paths.len(),
        written_at(bytes, start, paths_encoding(paths, paths.len() as int)),
        forall|i: int| 0 <= i < paths.len() ==> path_encodable(#[trigger] paths[i]),
    ensures
        parse_paths(
            bytes,
            start + paths_encoding(paths, k).len(),
            (paths.len() - k) as nat,
            paths.subrange(0, k),
        ) == Ok::<(Seq<Seq<RouteHopView>>, int), DecodeError>(
            (paths, start + paths_encoding(paths, paths.len() as int).len()),
        ),
    decreases paths.len() - k,
{
    if k == paths.len() {
        assert(paths.subrange(0, k) =~= paths);
    } else {
        let before = paths_encoding(paths, k);
        lemma_paths_written(bytes, start, paths, k + 1, paths.len() as int);
        lemma_written_split(bytes, start, before, path_encoding(paths[k]));
        assert(path_encodable(paths[k]));
        lemma_parse_path(bytes, start + before.len(), paths[k]);
        assert(paths.subrange(0, k).push(paths[k]) =~= paths.subrange(0, k + 1));
        lemma_parse_paths(bytes, start, paths, k + 1);
    }
}

/// Reading what was written gives what was written: a route that can be
/// written is read back from its own bytes as it was.
pub proof fn lemma_route_roundtrip(paths: Seq<Seq<RouteHopView>>)
    requires
        route_encodable(paths),
    ensures
        parse_route(route_encoding(paths), 0) == Ok::<(Seq<Seq<RouteHopView>>, int), DecodeError>(
            (paths, route_encoding(paths).len() as int),
        ),
{
    let bytes = route_encoding(paths);
    let e1 = be_bytes(paths.len() as int, 8);
    assert(bytes.subrange(0, bytes.len() as int) =~= bytes);
    lemma_pow256_values();
    lemma_be_bytes_len(paths.len() as int, 8);
    lemma_written_split(bytes, 0, e1, paths_encoding(paths, paths.len() as int));
    lemma_parse_be(bytes, 0, paths.len() as int, 8);
    lemma_parse_paths(bytes, 8, paths, 0);
    assert(paths.subrange(0, 0) =~= Seq::<Seq<RouteHopView>>::empty());
}

/// Appends a hop.
pub fn write_hop(out: &mut Vec<u8>, hop: &RouteHop)
    ensures
        final(out)@ == old(out)@ + hop_encoding(hop@),
{
    hop.pubkey.write(out);
    write_features(out, &hop.node_features.flags);
    write_u64(out, hop.short_channel_id);
    write_features(out, &hop.channel_features.flags);
    write_u64(out, hop.fee_msat);
    write_u32(out, hop.cltv_expiry_delta);
    assert(out@ =~= old(out)@ + hop_encoding(hop@));
}

/// Reads a hop at `pos`.
pub fn read_hop(bytes: &[u8], pos: usize) -> (r: Result<(RouteHop, usize), DecodeError>)
    ensures
        match r {
            Ok((hop, next)) => parse_hop(bytes@, pos as int) == Ok::<(RouteHopView, int), DecodeError>(
                (hop@, next as int),
            ),
            Err(e) => parse_hop(bytes@, pos as int) == Err::<(RouteHopView, int), DecodeError>(e),
        },
{
    let (pubkey, next1) = match PublicKey::read(bytes, pos) {
        Ok(v) => v,
        Err(e) => {
            return Err(e);
        },
    };
    let (node_features, next2) = match read_features(bytes, next1) {
        Ok(v) => v,
        Err(e) => {
            return Err(e);
        },
    };
    let (short_channel_id, next3) = match read_u64(bytes, next2) {
        Ok(v) => v,
        Err(e) => {
            return Err(e);
        },
    };
    let (channel_features, next4) = match read_features(bytes, next3) {
        Ok(v) => v,
        Err(e) => {
            return Err(e);
        },
    };
    let (fee_msat, next5) = match read_u64(bytes, next4) {
        Ok(v) => v,
        Err(e) => {
            return Err(e);
        },
    };
    let (cltv_expiry_delta, next6) = match read_u32(bytes, next5) {
        Ok(v) => v,
        Err(e) => {
            return Err(e);
        },
    };
    Ok(
        (
            RouteHop {
                pubkey,
                node_features: NodeFeatures::from_le_bytes(node_features),
                short_channel_id,
                channel_features: ChannelFeatures::from_le_bytes(channel_features),
                fee_msat,
                cltv_expiry_delta,
            },
            next6,
        ),
    )
}

/// Appends a path.
pub fn write_path(out: &mut Vec<u8>, hops: &Vec<RouteHop>)
    ensures
        final(out)@ == old(out)@ + path_encoding(hops_view(hops@)),
{
    write_u8(out, (hops.len() % 0x100) as u8);
    let ghost start = out@;
    let ghost view = hops_view(hops@);
    let mut i: usize = 0;
    assert(out@ =~= start + hops_encoding(view, 0));
    while i < hops.len()
        invariant
            i <= hops@.len(),
            view == hops_view(hops@),
            out@ == start + hops_encoding(view, i as int),
        decreases hops@.len() - i,
    {
        write_hop(out, &hops[i]);
        proof {
            assert(view[i as int] == hops@[i as int]@);
            assert(out@ =~= start + hops_encoding(view, i + 1));
        }
        i = i + 1;
    }
    assert(out@ =~= old(out)@ + path_encoding(view));
}

/// Reads a path at `pos`.
pub fn read_path(bytes: &[u8], pos: usize) -> (r: Result<(Vec<RouteHop>, usize), DecodeError>)
    ensures
        match r {
            Ok((hops, next)) => parse_path(bytes@, pos as int) == Ok::<
                (Seq<RouteHopView>, int),
                DecodeError,
            >((hops_view(hops@), next as int)),
            Err(e) => parse_path(bytes@, pos as int) == Err::<(Seq<RouteHopView>, int), DecodeError>(
                e,
            ),
        },
{
    let (hops_count, next1) = match read_u8(bytes, pos) {
        Ok(v) => v,
        Err(e) => {
            return Err(e);
        },
    };
    let mut hops: Vec<RouteHop> = Vec::with_capacity(hops_count as usize);
    let mut p: usize = next1;
    let mut i: u8 = 0;
    assert(hops_view(hops@) =~= Seq::<RouteHopView>::empty());
    while i < hops_count
        invariant
            i <= hops_count,
            parse_path(bytes@, pos as int) == parse_hops(
                bytes@,
                p as int,
                (hops_count - i) as nat,
                hops_view(hops@),
            ),
        decreases hops_count - i,
    {
        let ghost before = hops_view(hops@);
        let (hop, next) = match read_hop(bytes, p) {
            Ok(v) => v,
            Err(e) => {
                return Err(e);
            },
        };
        hops.push(hop);
        proof {
            assert(hops_view(hops@) =~= before.push(hop@));
        }
        p = next;
        i = i + 1;
    }
    Ok((hops, p))
}

impl Route {
    /// Appends the route.
    pub fn write(&self, out: &mut Vec<u8>)
        ensures
            final(out)@ == old(out)@ + route_encoding(paths_view(self.paths@)),
    {
        write_u64(out, self.paths.len() as u64);
        let ghost start = out@;
        let ghost view = paths_view(self.paths@);
        let mut i: usize = 0;
        assert(out@ =~= start + paths_encoding(view, 0));
        while i < self.paths.len()
            invariant
                i <= self.paths@.len(),
                view == paths_view(self.paths@),
                out@ == start + paths_encoding(view, i as int),
            decreases self.paths@.len() - i,
        {
            write_path(out, &self.paths[i]);
            proof {
                assert(view[i as int] == hops_view(self.paths@[i as int]@));
                assert(out@ =~= start + paths_encoding(view, i + 1));
            }
            i = i + 1;
        }
        assert(out@ =~= old(out)@ + route_encoding(view));
    }

    /// Reads a route at `pos`, and gives it with the position behind it.
    pub fn read(bytes: &[u8], pos: usize) -> (r: Result<(Route, usize), DecodeError>)
        ensures
            match r {
                Ok((route, next)) => parse_route(bytes@, pos as int) == Ok::<
                    (Seq<Seq<RouteHopView>>, int),
                    DecodeError,
                >((paths_view(route.paths@), next as int)),
                Err(e) => parse_route(bytes@, pos as int) == Err::<
                    (Seq<Seq<RouteHopView>>, int),
                    DecodeError,
                >(e),
            },
    {
        let (path_count, next1) = match read_u64(bytes, pos) {
            Ok(v) => v,
            Err(e) => {
                return Err(e);
            },
        };
        let room: usize = if path_count < MAX_PATHS_ROOM as u64 {
            path_count as usize
        } else {
            MAX_PATHS_ROOM
        };
        let mut paths: Vec<Vec<RouteHop>> = Vec::with_capacity(room);
        let mut p: usize = next1;
        let mut i: u64 = 0;
        assert(paths_view(paths@) =~= Seq::<Seq<RouteHopView>>::empty());
        while i < path_count
            invariant
                i <= path_count,
                parse_route(bytes@, pos as int) == parse_paths(
                    bytes@,
                    p as int,
                    (path_count - i) as nat,
                    paths_view(paths@),
                ),
            decreases path_count - i,
        {
            let ghost before = paths_view(paths@);
            let (path, next) = match read_path(bytes, p) {
                Ok(v) => v,
                Err(e) => {
                    return Err(e);
                },
            };
            let ghost read = hops_view(path@);
            paths.push(path);
            proof {
                assert(paths_view(paths@) =~= before.push(read));
            }
            p = next;
            i = i + 1;
        }
        Ok((Route { paths }, p))
    }
}

} // verus!
