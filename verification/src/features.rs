//! Feature flags that nodes and channels announce, as little-endian bit
//! strings. An even bit asks the reader to understand the feature; an odd bit
//! offers it. A reader must refuse an even bit that it does not know.

use crate::primitives::copy_bytes;
use vstd::prelude::*;

verus! {

/// Where a set of feature flags was announced; each context knows its own
/// features.
#[derive(Clone, Copy, Debug, PartialEq, Eq, Structural)]
pub enum FeatureContext {
    Init,
    Node,
    Channel,
}

/// The bits of byte `i` that stand for features known in `context`, required
/// or optional.
pub open spec fn known_mask(context: FeatureContext, i: int) -> u8 {
    match context {
        FeatureContext::Init => if i == 0 {
            0x3fu8
        } else if i == 1 {
            0xf3u8
        } else if i == 2 {
            0x03u8
        } else {
            0u8
        },
        FeatureContext::Node => if i == 0 {
            0x33u8
        } else if i == 1 {
            0xf3u8
        } else if i == 2 {
            0x03u8
        } else {
            0u8
        },
        FeatureContext::Channel => 0u8,
    }
}

/// The number of leading bytes in which `context` knows any feature.
pub open spec fn known_byte_count(context: FeatureContext) -> int {
    match context {
        FeatureContext::Init => 3,
        FeatureContext::Node => 3,
        FeatureContext::Channel => 0,
    }
}

/// The even bits of byte `i` under which no feature is known in `context`.
pub open spec fn unknown_required_mask(context: FeatureContext, i: int) -> u8 {
    0x55u8 & !known_mask(context, i)
}

/// Whether `flags` sets an even bit that `context` does not know.
pub open spec fn flags_require_unknown_bits(flags: Seq<u8>, context: FeatureContext) -> bool {
    exists|i: int| 0 <= i < flags.len() && #[trigger] byte_requires_unknown(flags, context, i)
}

/// Whether byte `i` of `flags` sets an even bit that `context` does not know.
pub open spec fn byte_requires_unknown(flags: Seq<u8>, context: FeatureContext, i: int) -> bool {
    flags[i] & unknown_required_mask(context, i) != 0
}

/// `flags`, announced in `from`, as far as `to` knows them: the bytes in which
/// `to` knows a feature, each cut down to the bits both contexts know.
pub open spec fn flags_in_context(flags: Seq<u8>, from: FeatureContext, to: FeatureContext) -> Seq<
    u8,
> {
    let n = if flags.len() < known_byte_count(to) {
        flags.len() as int
    } else {
        known_byte_count(to)
    };
    Seq::new(n as nat, |i: int| flags[i] & known_mask(from, i) & known_mask(to, i))
}

fn mask_of(context: FeatureContext, i: usize) -> (m: u8)
    ensures
        m == known_mask(context, i as int),
{
    match context {
        FeatureContext::Init => if i == 0 {
            0x3f
        } else if i == 1 {
            0xf3
        } else if i == 2 {
            0x03
        } else {
            0
        },
        FeatureContext::Node => if i == 0 {
            0x33
        } else if i == 1 {
            0xf3
        } else if i == 2 {
            0x03
        } else {
            0
        },
        FeatureContext::Channel => 0,
    }
}

fn byte_count_of(context: FeatureContext) -> (n: usize)
    ensures
        n == known_byte_count(context),
{
    match context {
        FeatureContext::Init => 3,
        FeatureContext::Node => 3,
        FeatureContext::Channel => 0,
    }
}

/// Whether `flags` sets an even bit that `context` does not know.
pub fn requires_unknown_bits_in(flags: &Vec<u8>, context: FeatureContext) -> (r: bool)
    ensures
        r == flags_require_unknown_bits(flags@, context),
{
    let mut i: usize = 0;
    while i < flags.len()
        invariant
            i <= flags@.len(),
            forall|j: int| 0 <= j < i ==> !byte_requires_unknown(flags@, context, j),
        decreases flags@.len() - i,
    {
        let unknown: u8 = 0x55u8 & !mask_of(context, i);
        if flags[i] & unknown != 0 {
            assert(byte_requires_unknown(flags@, context, i as int));
            return true;
        }
        i = i + 1;
    }
    false
}

/// Carries `flags` from the context `from` over to the context `to`.
pub fn convert_flags(flags: &Vec<u8>, from: FeatureContext, to: FeatureContext) -> (out: Vec<u8>)
    ensures
        out@ == flags_in_context(flags@, from, to),
{
    let count = byte_count_of(to);
    let n = if flags.len() < count {
        flags.len()
    } else {
        count
    };
    let mut out: Vec<u8> = Vec::new();
    let mut i: usize = 0;
    while i < n
        invariant
            i <= n,
            n <= flags@.len(),
            out@.len() == i,
            forall|j: int|
                0 <= j < i ==> out@[j] == flags@[j] & known_mask(from, j) & known_mask(to, j),
        decreases n - i,
    {
        out.push(flags[i] & mask_of(from, i) & mask_of(to, i));
        i = i + 1;
    }
    assert(out@ =~= flags_in_context(flags@, from, to));
    out
}

/// Features a peer announced when the connection was set up.
#[derive(Clone, Debug, PartialEq, Eq)]
pub struct InitFeatures {
    pub flags: Vec<u8>,
}

/// Features a node announced for itself.
#[derive(Clone, Debug, PartialEq, Eq)]
pub struct NodeFeatures {
    pub flags: Vec<u8>,
}

/// Features announced for a channel.
#[derive(Clone, Debug, PartialEq, Eq)]
pub struct ChannelFeatures {
    pub flags: Vec<u8>,
}

impl View for InitFeatures {
    type V = Seq<u8>;

    open spec fn view(&self) -> Seq<u8> {
        self.flags@
    }
}

impl View for NodeFeatures {
    type V = Seq<u8>;

    open spec fn view(&self) -> Seq<u8> {
        self.flags@
    }
}

impl View for ChannelFeatures {
    type V = Seq<u8>;

    open spec fn view(&self) -> Seq<u8> {
        self.flags@
    }
}

impl InitFeatures {
    /// No feature at all.
    pub fn empty() -> (f: InitFeatures)
        ensures
            f@ == Seq::<u8>::empty(),
    {
        InitFeatures { flags: Vec::new() }
    }

    /// The features with the given little-endian flags.
    pub fn from_le_bytes(flags: Vec<u8>) -> (f: InitFeatures)
        ensures
            f@ == flags@,
    {
        InitFeatures { flags }
    }

    /// The little-endian flags.
    pub fn le_flags(&self) -> (flags: &Vec<u8>)
        ensures
            flags@ == self@,
    {
        &self.flags
    }

    /// Whether an even bit is set that is unknown at connection set-up.
    pub fn requires_unknown_bits(&self) -> (r: bool)
        ensures
            r == flags_require_unknown_bits(self@, FeatureContext::Init),
    {
        requires_unknown_bits_in(&self.flags, FeatureContext::Init)
    }

    /// These features as far as they apply to a node.
    pub fn to_node_context(&self) -> (f: NodeFeatures)
        ensures
            f@ == flags_in_context(self@, FeatureContext::Init, FeatureContext::Node),
    {
        NodeFeatures { flags: convert_flags(&self.flags, FeatureContext::Init, FeatureContext::Node) }
    }

    /// These features as far as they apply to a channel.
    pub fn to_channel_context(&self) -> (f: ChannelFeatures)
        ensures
            f@ == flags_in_context(self@, FeatureContext::Init, FeatureContext::Channel),
    {
        ChannelFeatures {
            flags: convert_flags(&self.flags, FeatureContext::Init, FeatureContext::Channel),
        }
    }

    /// A copy with the same flags.
    pub fn duplicate(&self) -> (f: InitFeatures)
        ensures
            f@ == self@,
    {
        InitFeatures { flags: copy_bytes(&self.flags) }
    }
}

impl NodeFeatures {
    /// No feature at all.
    pub fn empty() -> (f: NodeFeatures)
        ensures
            f@ == Seq::<u8>::empty(),
    {
        NodeFeatures { flags: Vec::new() }
    }

    /// The features with the given little-endian flags.
    pub fn from_le_bytes(flags: Vec<u8>) -> (f: NodeFeatures)
        ensures
            f@ == flags@,
    {
        NodeFeatures { flags }
    }

    /// The little-endian flags.
    pub fn le_flags(&self) -> (flags: &Vec<u8>)
        ensures
            flags@ == self@,
    {
        &self.flags
    }

    /// Whether an even bit is set that is unknown for a node.
    pub fn requires_unknown_bits(&self) -> (r: bool)
        ensures
            r == flags_require_unknown_bits(self@, FeatureContext::Node),
    {
        requires_unknown_bits_in(&self.flags, FeatureContext::Node)
    }

    /// A copy with the same flags.
    pub fn duplicate(&self) -> (f: NodeFeatures)
        ensures
            f@ == self@,
    {
        NodeFeatures { flags: copy_bytes(&self.flags) }
    }
}

impl ChannelFeatures {
    /// No feature at all.
    pub fn empty() -> (f: ChannelFeatures)
        ensures
            f@ == Seq::<u8>::empty(),
    {
        ChannelFeatures { flags: Vec::new() }
    }

    /// The features with the given little-endian flags.
    pub fn from_le_bytes(flags: Vec<u8>) -> (f: ChannelFeatures)
        ensures
            f@ == flags@,
    {
        ChannelFeatures { flags }
    }

    /// The little-endian flags.
    pub fn le_flags(&self) -> (flags: &Vec<u8>)
        ensures
            flags@ == self@,
    {
        &self.flags
    }

    /// Whether an even bit is set that is unknown for a channel.
    pub fn requires_unknown_bits(&self) -> (r: bool)
        ensures
            r == flags_require_unknown_bits(self@, FeatureContext::Channel),
    {
        requires_unknown_bits_in(&self.flags, FeatureContext::Channel)
    }

    /// A copy with the same flags.
    pub fn duplicate(&self) -> (f: ChannelFeatures)
        ensures
            f@ == self@,
    {
        ChannelFeatures { flags: copy_bytes(&self.flags) }
    }
}

} // verus!
