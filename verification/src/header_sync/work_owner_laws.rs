//! Pending header work has no owner: what keeps it so, and what follows for work that is handed
//! out.
use vstd::prelude::*;

use crate::chain::{BlockHash, Height};
use crate::header_sync::ids::{HeaderSyncOperationIdentity, ZakuraPeerId};
use crate::header_sync::range::{CheckedHeaderRange, RangePriority, RangeRequest};
use crate::header_sync::work_laws;
use crate::header_sync::work_model;
use crate::header_sync::work_model::{HeaderWorkState, QueueView, StartKey};
use crate::time::Instant;

verus! {

/// Whether no work of a lane is pending where active work of the lane starts.
pub open spec fn unowned(q: QueueView) -> bool {
    q.pending_starts.disjoint(q.active_starts)
}

/// Pending work has no active owner, and no other work that starts where it does has one.
pub proof fn pending_work_has_no_owner(q: QueueView, range: RangeRequest)
    requires
        work_laws::indexed(q),
        unowned(q),
        q.forward.contains(range) || q.authenticate_roots.contains(range),
    ensures
        !q.active.contains_key(range),
        !work_model::active_has_key(q.active, work_model::key_of(range)),
{
    let key = work_model::key_of(range);
    if q.forward.contains(range) {
        let i = choose|i: int| 0 <= i < q.forward.len() && q.forward[i] == range;
        assert(work_model::lane_has_key(q.forward, work_model::key_of(q.forward[i])));
    } else {
        let i = choose|i: int|
            0 <= i < q.authenticate_roots.len() && q.authenticate_roots[i] == range;
        assert(work_model::lane_has_key(
            q.authenticate_roots,
            work_model::key_of(q.authenticate_roots[i]),
        ));
    }
    assert(q.pending_starts.contains(key));
    assert(!q.active_starts.contains(key));
}

/// Work that a peer is given has no owner, and no work of its lane is pending or active where it
/// starts: it can be marked as assigned.
pub proof fn given_work_has_no_owner(
    q: QueueView,
    peer: ZakuraPeerId,
    tip: Height,
    allow_root_auth: bool,
    now: Instant,
)
    requires
        work_laws::indexed(q),
        unowned(q),
    ensures
        ({
            let (e, given) = work_model::next_taken(q, peer, tip, allow_root_auth, now);
            given matches Some(range) ==> {
                &&& !e.active.contains_key(range)
                &&& !e.active_starts.contains(work_model::key_of(range))
                &&& !e.pending_starts.contains(work_model::key_of(range))
                &&& work_laws::sole_owner(e, range)
            }
        }),
{
    let (e, given) = work_model::next_taken(q, peer, tip, allow_root_auth, now);
    if let Some(range) = given {
        work_laws::next_work_is_assignable(q, peer, tip, allow_root_auth, now);
        pending_work_has_no_owner(q, range);
        assert(q.active_starts.contains(work_model::key_of(range)) ==> work_model::active_has_key(
            q.active,
            work_model::key_of(range),
        ));
    }
}

/// No work of an empty queue has an owner.
pub proof fn empty_queue_is_unowned()
    ensures
        unowned(work_model::empty_queue()),
{
}

/// Adding work gives pending work no owner.
pub proof fn ensure_keeps_pending_unowned(q: QueueView, range: RangeRequest, now: Instant)
    requires
        unowned(q),
    ensures
        unowned(work_model::ensured(q, range, range.priority, now)),
{
}

/// Taking work for a peer gives pending work no owner.
pub proof fn next_keeps_pending_unowned(
    q: QueueView,
    peer: ZakuraPeerId,
    tip: Height,
    allow_root_auth: bool,
    now: Instant,
)
    requires
        unowned(q),
    ensures
        unowned(work_model::next_taken(q, peer, tip, allow_root_auth, now).0),
{
}

/// Assigning work gives pending work no owner, if no work of its lane is pending where it starts,
/// as is so of work that a peer is given.
pub proof fn assign_keeps_pending_unowned(
    q: QueueView,
    range: RangeRequest,
    state: HeaderWorkState,
)
    requires
        unowned(q),
        !q.pending_starts.contains(work_model::key_of(range)),
    ensures
        unowned(work_model::assigned(q, range, state)),
{
}

/// Handing work from one owner to another, or to an operation, gives pending work no owner.
pub proof fn new_owner_keeps_pending_unowned(
    q: QueueView,
    range: RangeRequest,
    state: HeaderWorkState,
    operation: HeaderSyncOperationIdentity,
)
    requires
        unowned(q),
    ensures
        unowned(work_model::owned(q, range, state)),
        unowned(work_model::authenticating(q, range, operation)),
{
}

/// Ending the ownership of work gives pending work no owner.
pub proof fn clear_keeps_pending_unowned(
    q: QueueView,
    range: RangeRequest,
    operation: HeaderSyncOperationIdentity,
)
    requires
        unowned(q),
    ensures
        unowned(work_model::cleared(q, range)),
        unowned(work_model::retired(q, operation, range)),
{
}

/// Replacing active work by another part of it gives pending work no owner, if no work of the lane
/// is pending where the part starts.
pub proof fn narrow_keeps_pending_unowned(
    q: QueueView,
    original: RangeRequest,
    part: RangeRequest,
)
    requires
        unowned(q),
        q.active.contains_key(original) && original != part ==> !q.pending_starts.contains(
            work_model::key_of(part),
        ),
    ensures
        unowned(work_model::narrowed(q, original, part)),
{
}

/// Putting work back leaves it without an owner, and gives no other pending work one.
pub proof fn retry_keeps_pending_unowned(
    q: QueueView,
    range: RangeRequest,
    peer: ZakuraPeerId,
    until: Instant,
    now: Instant,
)
    requires
        unowned(q),
    ensures
        unowned(work_model::retried(q, range)),
        unowned(work_model::retried_avoiding(q, peer, range, until)),
        unowned(work_model::retried_delayed(q, range, now)),
{
}

/// Putting several pieces of work back gives pending work no owner.
proof fn lemma_all_retried_unowned(q: QueueView, ranges: Seq<RangeRequest>)
    requires
        unowned(q),
    ensures
        unowned(work_model::all_retried(q, ranges)),
    decreases ranges.len(),
{
    if ranges.len() > 0 {
        lemma_all_retried_unowned(q, ranges.drop_last());
    }
}

/// Forgetting a peer gives pending work no owner.
pub proof fn forget_keeps_pending_unowned(
    q: QueueView,
    peer: ZakuraPeerId,
    ranges: Seq<RangeRequest>,
)
    requires
        unowned(q),
        work_model::in_flight_order(q, peer, ranges),
    ensures
        unowned(work_model::unavoided(work_model::all_retried(q, ranges), peer)),
{
    lemma_all_retried_unowned(q, ranges);
}

/// Less pending and less active work have no start in common if more had none.
proof fn lemma_less_is_unowned(q: QueueView, e: QueueView)
    requires
        work_laws::indexed(q),
        unowned(q),
        forall|i: int| 0 <= i < e.forward.len() ==> q.forward.contains(#[trigger] e.forward[i]),
        forall|i: int|
            0 <= i < e.authenticate_roots.len() ==> q.authenticate_roots.contains(
                #[trigger] e.authenticate_roots[i],
            ),
        forall|r: RangeRequest| #[trigger] e.active.contains_key(r) ==> q.active.contains_key(r),
    ensures
        unowned(work_model::reindexed(e)),
{
    let d = work_model::reindexed(e);
    assert forall|k: StartKey| #[trigger] d.pending_starts.contains(k) implies
        !d.active_starts.contains(k) by {
        if work_model::lane_has_key(e.forward, k) {
            let i = choose|i: int|
                0 <= i < e.forward.len() && work_model::key_of(#[trigger] e.forward[i]) == k;
            pending_work_has_no_owner(q, e.forward[i]);
        } else {
            let i = choose|i: int|
                0 <= i < e.authenticate_roots.len() && work_model::key_of(
                    #[trigger] e.authenticate_roots[i],
                ) == k;
            pending_work_has_no_owner(q, e.authenticate_roots[i]);
        }
    }
}

/// Dropping all work of a lane, or work that is covered, gives pending work no owner.
pub proof fn drops_keep_pending_unowned(q: QueueView)
    requires
        work_laws::indexed(q),
        unowned(q),
    ensures
        unowned(work_model::forward_cleared(q)),
        unowned(work_model::root_auth_cleared(q)),
        unowned(work_model::pruned(q)),
{
    assert forall|i: int| 0 <= i < q.forward.len() implies q.forward.contains(
        #[trigger] q.forward[i],
    ) by {
    }
    assert forall|i: int| 0 <= i < q.authenticate_roots.len() implies q.authenticate_roots.contains(
        #[trigger] q.authenticate_roots[i],
    ) by {
    }
    let keep = |r: RangeRequest| !work_model::covers(q.covered, r);
    let left = q.forward.filter(keep);
    assert forall|i: int| 0 <= i < left.len() implies q.forward.contains(#[trigger] left[i]) by {
        q.forward.lemma_filter_contains_rev(keep, left[i]);
        assert(left.contains(left[i]));
    }
    lemma_less_is_unowned(q, work_model::forward_cleared(q));
    lemma_less_is_unowned(q, work_model::root_auth_cleared(q));
    lemma_less_is_unowned(q, work_model::pruned(q));
}

/// Whether some work of a lane has both a height and the next one.
pub open spec fn crosses(lane: Seq<RangeRequest>, height: Height) -> bool {
    exists|i: int| 0 <= i < lane.len() && (#[trigger] lane[i]).first() <= height.0 < lane[i].last()
}

/// The start of forward work right above a height.
pub open spec fn start_above(height: Height) -> StartKey {
    StartKey { start: Height((height.0 + 1) as u32), priority: RangePriority::Forward }
}

/// What is left of a lane above a height is work of the lane, or starts right above the height.
proof fn lemma_trimmed_from(
    lane: Seq<RangeRequest>,
    height: Height,
    anchor_hash: BlockHash,
    i: int,
)
    requires
        work_laws::lane_ok(lane, RangePriority::Forward),
        forall|j: int|
            0 <= j < lane.len() ==> (#[trigger] lane[j]).first() <= lane[j].last() <= u32::MAX,
        0 <= i < work_model::trimmed_lane(lane, height, anchor_hash).len(),
    ensures
        ({
            let r = work_model::trimmed_lane(lane, height, anchor_hash)[i];
            lane.contains(r) || crosses(lane, height) && work_model::key_of(r) == start_above(
                height,
            )
        }),
    decreases lane.len(),
{
    let last = lane.last();
    let init = lane.drop_last();
    let before = work_model::trimmed_lane(init, height, anchor_hash);
    let rest = work_model::trimmed_range(last, height, anchor_hash);
    let e = work_model::trimmed_lane(lane, height, anchor_hash);
    assert(e == before + rest);
    assert(last == lane[lane.len() - 1]);
    if i < before.len() {
        lemma_trimmed_from(init, height, anchor_hash, i);
        if crosses(init, height) {
            let j = choose|j: int|
                0 <= j < init.len() && (#[trigger] init[j]).first() <= height.0 < init[j].last();
            assert(lane[j] == init[j]);
        }
        if init.contains(before[i]) {
            let j = choose|j: int| 0 <= j < init.len() && init[j] == before[i];
            assert(lane[j] == before[i]);
        }
    } else if last.first() <= height.0 {
        CheckedHeaderRange::lemma_spec_from(
            (height.0 + 1) as u32,
            (last.last() - height.0) as u32,
        );
    }
}

/// Cutting pending forward work down to the heights above a height gives it no owner, unless some
/// of it is cut there and active forward work starts right above the height.
pub proof fn trim_keeps_pending_unowned(q: QueueView, height: Height, anchor_hash: BlockHash)
    requires
        work_laws::indexed(q),
        unowned(q),
        !(crosses(q.forward, height) && work_model::active_has_key(
            q.active,
            start_above(height),
        )),
        forall|i: int|
            0 <= i < q.forward.len() ==> (#[trigger] q.forward[i]).first() <= q.forward[i].last()
                <= u32::MAX,
    ensures
        unowned(work_model::trimmed(q, height, anchor_hash)),
{
    let d = work_model::trimmed(q, height, anchor_hash);
    assert forall|k: StartKey| #[trigger] d.pending_starts.contains(k) implies
        !d.active_starts.contains(k) by {
        if work_model::lane_has_key(d.forward, k) {
            let i = choose|i: int|
                0 <= i < d.forward.len() && work_model::key_of(#[trigger] d.forward[i]) == k;
            lemma_trimmed_from(q.forward, height, anchor_hash, i);
            if q.forward.contains(d.forward[i]) {
                pending_work_has_no_owner(q, d.forward[i]);
            }
        } else {
            let i = choose|i: int|
                0 <= i < d.authenticate_roots.len() && work_model::key_of(
                    #[trigger] d.authenticate_roots[i],
                ) == k;
            assert(q.authenticate_roots.contains(d.authenticate_roots[i]));
            pending_work_has_no_owner(q, d.authenticate_roots[i]);
        }
    }
}

/// Maintenance, and dropping an anchor, give pending work no owner.
pub proof fn upkeep_keeps_pending_unowned(
    q: QueueView,
    now: Instant,
    priority: RangePriority,
    start: Height,
    anchor_hash: BlockHash,
)
    requires
        unowned(q),
    ensures
        unowned(work_model::maintained(q, now)),
        unowned(work_model::unanchored(q, priority, start, anchor_hash)),
{
}

} // verus!
