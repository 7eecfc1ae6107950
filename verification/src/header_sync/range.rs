//! Ranges of heights that header work covers.
use vstd::prelude::*;

use crate::chain::{BlockHash, Height};
use crate::vec_map::Key;

verus! {

/// A non-empty range of consecutive heights.
#[derive(Clone, Copy, Debug, PartialEq, Eq, Hash, Structural)]
pub struct CheckedHeaderRange {
    first: u32,
    count: u32,
}

impl CheckedHeaderRange {
    /// The range is not empty, and all of its heights exist.
    #[verifier::type_invariant]
    spec fn valid(self) -> bool {
        &&& self.count >= 1
        &&& self.first + self.count - 1 <= u32::MAX
    }

    /// The first height of the range.
    pub closed spec fn first_height(self) -> u32 {
        self.first
    }

    /// How many heights the range has.
    pub closed spec fn len(self) -> u32 {
        self.count
    }

    /// The range of `count` heights from `first` on.
    pub closed spec fn spec_from(first: u32, count: u32) -> Self {
        CheckedHeaderRange { first, count }
    }

    /// A range has the first height and the length that it is made from.
    pub proof fn lemma_spec_from(first: u32, count: u32)
        ensures
            Self::spec_from(first, count).first_height() == first,
            Self::spec_from(first, count).len() == count,
    {
    }

    /// The last height of the range.
    pub open spec fn last_height(self) -> int {
        self.first_height() + self.len() - 1
    }

    /// The `count` heights from `start` on, if there are any and all exist.
    pub fn from_count(start: Height, count: u32) -> (r: Option<Self>)
        ensures
            r is Some <==> count >= 1 && start.0 + count - 1 <= u32::MAX,
            r matches Some(range) ==> range == Self::spec_from(start.0, count)
                && range.first_height() == start.0 && range.len() == count,
    {
        if count >= 1 && count - 1 <= u32::MAX - start.0 {
            Some(CheckedHeaderRange { first: start.0, count })
        } else {
            None
        }
    }

    /// The first height of the range.
    pub fn start_height(self) -> (height: Height)
        ensures
            height.0 == self.first_height(),
    {
        Height(self.first)
    }

    /// The last height of the range.
    pub fn end_height(self) -> (height: Height)
        ensures
            height.0 == self.last_height(),
            self.len() >= 1,
    {
        proof {
            use_type_invariant(&self);
        }
        Height(self.first + (self.count - 1))
    }

    /// How many heights the range has.
    pub fn count(self) -> (n: u32)
        ensures
            n == self.len(),
            n >= 1,
    {
        proof {
            use_type_invariant(&self);
        }
        self.count
    }
}

/// The lane of a piece of header work.
#[derive(Clone, Copy, Debug, PartialEq, Eq, Hash, Structural)]
pub enum RangePriority {
    /// Extends the header chain.
    Forward,
    /// Authenticates the tree roots of known headers.
    AuthenticateRoots,
    /// Repairs a gap outside the queue.
    Repair,
}

/// One piece of header work.
#[derive(Clone, Copy, Debug, PartialEq, Eq, Hash)]
pub struct RangeRequest {
    /// The heights that the work covers.
    pub range: CheckedHeaderRange,
    /// The hash of the block below the first height, if it is known.
    pub anchor_hash: Option<BlockHash>,
    /// Whether the heights are finalized.
    pub finalized: bool,
    /// Whether tree roots are wanted along with the headers.
    pub want_tree_aux_roots: bool,
    /// The lane of the work.
    pub priority: RangePriority,
}

/// Whether two optional hashes are the same.
pub fn same_anchor(a: &Option<BlockHash>, b: &Option<BlockHash>) -> (r: bool)
    ensures
        r == (*a == *b),
{
    match (a, b) {
        (Some(x), Some(y)) => x.same(y),
        (None, None) => true,
        _ => false,
    }
}

impl Key for RangeRequest {
    fn same(&self, other: &Self) -> (r: bool) {
        self.range == other.range && same_anchor(&self.anchor_hash, &other.anchor_hash)
            && self.finalized == other.finalized && self.want_tree_aux_roots
            == other.want_tree_aux_roots && self.priority == other.priority
    }
}

impl RangeRequest {
    /// The first height of the work.
    pub open spec fn first(self) -> u32 {
        self.range.first_height()
    }

    /// The last height of the work.
    pub open spec fn last(self) -> int {
        self.range.last_height()
    }

    /// The first height of the work.
    pub fn start_height(&self) -> (height: Height)
        ensures
            height.0 == self.first(),
    {
        self.range.start_height()
    }

    /// The last height of the work.
    pub fn end_height(&self) -> (height: Height)
        ensures
            height.0 == self.last(),
            self.first() <= self.last(),
    {
        self.range.end_height()
    }

    /// How many heights the work covers.
    pub fn count(&self) -> (n: u32)
        ensures
            n == self.range.len(),
            n >= 1,
    {
        self.range.count()
    }

    /// The work above `height`, anchored at `anchor_hash`, if there is any.
    pub fn suffix_after(&self, height: Height, anchor_hash: BlockHash) -> (r: Option<RangeRequest>)
        requires
            self.first() <= height.0,
        ensures
            r == spec_suffix(*self, height, anchor_hash),
    {
        let end = self.end_height();
        if height.0 >= end.0 {
            return None;
        }
        match CheckedHeaderRange::from_count(Height(height.0 + 1), end.0 - height.0) {
            None => None,
            Some(range) => Some(
                RangeRequest {
                    range,
                    anchor_hash: Some(anchor_hash),
                    finalized: self.finalized,
                    want_tree_aux_roots: self.want_tree_aux_roots,
                    priority: self.priority,
                },
            ),
        }
    }
}

/// The part of `whole` above `height`, anchored at `anchor_hash`, if there is any.
pub open spec fn spec_suffix(whole: RangeRequest, height: Height, anchor_hash: BlockHash) -> Option<
    RangeRequest,
> {
    if height.0 < whole.last() {
        Some(
            RangeRequest {
                range: CheckedHeaderRange::spec_from(
                    (height.0 + 1) as u32,
                    (whole.last() - height.0) as u32,
                ),
                anchor_hash: Some(anchor_hash),
                finalized: whole.finalized,
                want_tree_aux_roots: whole.want_tree_aux_roots,
                priority: whole.priority,
            },
        )
    } else {
        None
    }
}

} // verus!
