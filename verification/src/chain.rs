//! Plain values of the block chain that the protocols carry.
use vstd::prelude::*;

use crate::le;

verus! {

/// The greatest block height that a header may have.
pub const HEIGHT_MAX: u32 = 0x7fff_ffff;

/// A block height.
#[derive(Clone, Copy, Debug, PartialEq, Eq, PartialOrd, Ord, Hash, Structural)]
pub struct Height(pub u32);

/// A block hash, in internal byte order.
#[derive(Clone, Copy, Debug, PartialEq, Eq, Hash)]
pub struct BlockHash(pub [u8; 32]);

impl View for BlockHash {
    type V = Seq<u8>;

    open spec fn view(&self) -> Seq<u8> {
        self.0@
    }
}

impl BlockHash {
    /// Whether two hashes are the same.
    pub fn same(&self, other: &BlockHash) -> (r: bool)
        ensures
            r == (*self == *other),
            r == (self@ == other@),
    {
        same_bytes32(&self.0, &other.0)
    }
}

/// A 256-bit unsigned number, held as its little-endian bytes.
#[derive(Clone, Copy, Debug, PartialEq, Eq)]
pub struct U256(pub [u8; 32]);

impl View for U256 {
    type V = nat;

    open spec fn view(&self) -> nat {
        le::value(self.0@)
    }
}

impl U256 {
    /// The number that 32 little-endian bytes stand for.
    pub fn from_little_endian(bytes: [u8; 32]) -> (n: U256)
        ensures
            n@ == le::value(bytes@),
    {
        U256(bytes)
    }

    /// The 32 little-endian bytes of the number.
    pub fn to_little_endian(&self) -> (bytes: [u8; 32])
        ensures
            bytes@ == le::bytes(self@, 32),
    {
        proof {
            le::lemma_bytes_of_value(self.0@);
        }
        self.0
    }
}

/// A block header, as the chain parser understood it.
#[derive(Clone, Debug, PartialEq, Eq)]
pub struct BlockHeader {
    /// The canonical encoding of the header.
    pub encoded: Vec<u8>,
    /// The hash of the block that this one extends.
    pub previous_block_hash: BlockHash,
    /// The hash of this block.
    pub hash: BlockHash,
}

/// What the protocols read of the consensus parameters of a network.
#[derive(Clone, Copy, Debug, PartialEq, Eq, Structural)]
pub struct Network {
    /// Height at which NU5 activates, if it is configured.
    pub nu5_activation: Option<Height>,
    /// Height at which NU7 activates, if it is configured.
    pub nu7_activation: Option<Height>,
    /// Encoded bytes of one header on this network.
    pub header_bytes: usize,
}

/// Whether an upgrade that activates at `activation` has not activated at `height`.
pub open spec fn inactive_at(activation: Option<Height>, height: Height) -> bool {
    match activation {
        Some(first) => height.0 < first.0,
        None => true,
    }
}

/// Whether an upgrade that activates at `activation` has not activated at `height`.
pub fn is_inactive_at(activation: Option<Height>, height: Height) -> (r: bool)
    ensures
        r == inactive_at(activation, height),
{
    match activation {
        Some(first) => height.0 < first.0,
        None => true,
    }
}

/// Whether two 32-byte values are the same.
pub fn same_bytes32(a: &[u8; 32], b: &[u8; 32]) -> (r: bool)
    ensures
        r == (*a == *b),
        r == (a@ == b@),
{
    let mut i: usize = 0;
    while i < 32
        invariant
            i <= 32,
            forall|j: int| 0 <= j < i ==> a@[j] == b@[j],
        decreases 32 - i,
    {
        if a[i] != b[i] {
            return false;
        }
        i = i + 1;
    }
    assert(a@ =~= b@);
    assert(*a =~= *b);
    true
}

/// Whether every byte of a 32-byte value is zero.
pub fn is_zero32(a: &[u8; 32]) -> (r: bool)
    ensures
        r == (a@ == zeros32()),
{
    let mut i: usize = 0;
    while i < 32
        invariant
            i <= 32,
            forall|j: int| 0 <= j < i ==> a@[j] == 0,
        decreases 32 - i,
    {
        if a[i] != 0 {
            assert(a@[i as int] != zeros32()[i as int]);
            return false;
        }
        i = i + 1;
    }
    assert(a@ =~= zeros32());
    true
}

/// The 32-byte value whose bytes are all zero.
pub open spec fn zeros32() -> Seq<u8> {
    Seq::new(32, |i: int| 0u8)
}

/// Copies the 32 bytes of `source` that start at `at`.
pub fn copy32(source: &[u8], at: usize) -> (out: [u8; 32])
    requires
        at + 32 <= source@.len(),
    ensures
        out@ == source@.subrange(at as int, at + 32),
{
    let total: usize = source.len();
    let mut out: [u8; 32] = [0u8; 32];
    let mut i: usize = 0;
    while i < 32
        invariant
            i <= 32,
            at + 32 <= total == source@.len(),
            forall|j: int| 0 <= j < i ==> out@[j] == source@[at + j],
        decreases 32 - i,
    {
        out[i] = source[at + i];
        i = i + 1;
    }
    assert(out@ =~= source@.subrange(at as int, at + 32));
    out
}

} // verus!
