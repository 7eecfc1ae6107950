//! What cutting, clearing and upkeep change in the header work queue, and that they change nothing
//! else.
use vstd::prelude::*;

use crate::chain::{BlockHash, Height};
use crate::header_sync::ids::ZakuraPeerId;
use crate::header_sync::range;
use crate::header_sync::range::{CheckedHeaderRange, RangePriority, RangeRequest};
use crate::header_sync::work_model;
use crate::header_sync::work_model::{
    AvoidKey, QueueView, StartKey,
};
use crate::header_sync::work_queue;
use crate::header_sync::work_step_laws;
use crate::time::{Duration, Instant};

verus! {

/// An instant is later than another exactly if more time has passed until it, and a span later is
/// that much later.
pub proof fn instants_are_ordered_by_time(a: Instant, b: Instant, span: Duration)
    ensures
        a.later_than(b) <==> a.nanos > b.nanos,
        a.nanos + span.nanos <= u128::MAX ==> a.spec_after(span).nanos == a.nanos + span.nanos,
{
}

/// What is left of work above a height are its heights above it: it starts right above the height
/// and ends where the work does, is anchored at the given hash, and is otherwise like the work.
/// Nothing is left exactly if the work has no height above it.
pub proof fn suffix_has_the_heights_above(
    whole: RangeRequest,
    height: Height,
    anchor_hash: BlockHash,
    h: int,
)
    requires
        whole.first() <= height.0,
        whole.last() <= u32::MAX,
    ensures
        match range::spec_suffix(whole, height, anchor_hash) {
            Some(rest) => {
                &&& rest.first() <= h <= rest.last() <==> whole.first() <= h <= whole.last() && h
                    > height.0
                &&& rest.first() == height.0 + 1
                &&& rest.last() == whole.last() > height.0
                &&& rest.anchor_hash == Some(anchor_hash)
                &&& rest.finalized == whole.finalized
                &&& rest.want_tree_aux_roots == whole.want_tree_aux_roots
                &&& rest.priority == whole.priority
            },
            None => whole.last() <= height.0,
        },
{
    if height.0 < whole.last() {
        CheckedHeaderRange::lemma_spec_from(
            (height.0 + 1) as u32,
            (whole.last() - height.0) as u32,
        );
    }
}

/// Cutting one piece of work keeps it if it starts above the height, drops it if it ends at or
/// below the height, and else leaves its heights above; cutting a lane cuts its pieces one by one,
/// in order.
pub proof fn lanes_are_cut_piece_by_piece(
    a: Seq<RangeRequest>,
    b: Seq<RangeRequest>,
    piece: RangeRequest,
    height: Height,
    anchor_hash: BlockHash,
)
    requires
        piece.first() <= piece.last() <= u32::MAX,
    ensures
        work_model::trimmed_lane(a + b, height, anchor_hash) == work_model::trimmed_lane(
            a,
            height,
            anchor_hash,
        ) + work_model::trimmed_lane(b, height, anchor_hash),
        ({
            let left = work_model::trimmed_lane(seq![piece], height, anchor_hash);
            if piece.first() > height.0 {
                left == seq![piece]
            } else if piece.last() <= height.0 {
                left.len() == 0
            } else {
                &&& left.len() == 1
                &&& left[0].first() == height.0 + 1
                &&& left[0].last() == piece.last()
                &&& left[0].anchor_hash == Some(anchor_hash)
                &&& left[0].finalized == piece.finalized
                &&& left[0].want_tree_aux_roots == piece.want_tree_aux_roots
                &&& left[0].priority == piece.priority
            }
        }),
{
    lemma_trimmed_add(a, b, height, anchor_hash);
    assert(seq![piece].drop_last() =~= Seq::<RangeRequest>::empty());
    assert(work_model::trimmed_lane(
        Seq::<RangeRequest>::empty(),
        height,
        anchor_hash,
    ) =~= Seq::<RangeRequest>::empty());
    let one = work_model::trimmed_range(piece, height, anchor_hash);
    assert(work_model::trimmed_lane(seq![piece], height, anchor_hash) =~= one);
    if piece.first() <= height.0 {
        suffix_has_the_heights_above(piece, height, anchor_hash, 0);
    }
}

proof fn lemma_trimmed_add(
    a: Seq<RangeRequest>,
    b: Seq<RangeRequest>,
    height: Height,
    anchor_hash: BlockHash,
)
    ensures
        work_model::trimmed_lane(a + b, height, anchor_hash) == work_model::trimmed_lane(
            a,
            height,
            anchor_hash,
        ) + work_model::trimmed_lane(b, height, anchor_hash),
    decreases b.len(),
{
    let ta = work_model::trimmed_lane(a, height, anchor_hash);
    if b.len() == 0 {
        assert(a + b =~= a);
        assert(ta + work_model::trimmed_lane(b, height, anchor_hash) =~= ta);
    } else {
        lemma_trimmed_add(a, b.drop_last(), height, anchor_hash);
        assert((a + b).drop_last() =~= a + b.drop_last());
        let tb = work_model::trimmed_lane(b.drop_last(), height, anchor_hash);
        let tl = work_model::trimmed_range(b.last(), height, anchor_hash);
        assert((ta + tb) + tl =~= ta + (tb + tl));
    }
}

/// Whether some piece of work of a lane has a height.
pub open spec fn lane_holds(lane: Seq<RangeRequest>, h: int) -> bool {
    exists|i: int| 0 <= i < lane.len() && (#[trigger] lane[i]).first() <= h && h <= lane[i].last()
}

#[verifier::spinoff_prover]
#[verifier::rlimit(50)]
proof fn lemma_trimmed_heights(
    lane: Seq<RangeRequest>,
    height: Height,
    anchor_hash: BlockHash,
    h: int,
)
    requires
        forall|i: int|
            0 <= i < lane.len() ==> (#[trigger] lane[i]).first() <= lane[i].last() <= u32::MAX,
    ensures
        lane_holds(work_model::trimmed_lane(lane, height, anchor_hash), h) <==> lane_holds(lane, h)
            && h > height.0,
    decreases lane.len(),
{
    if lane.len() > 0 {
        let init = lane.drop_last();
        let last = lane.last();
        assert(last == lane[lane.len() - 1]);
        assert forall|i: int| 0 <= i < init.len() implies #[trigger] init[i] == lane[i] by {
        }
        lemma_trimmed_heights(init, height, anchor_hash, h);
        let ti = work_model::trimmed_lane(init, height, anchor_hash);
        let tl = work_model::trimmed_range(last, height, anchor_hash);
        let t = work_model::trimmed_lane(lane, height, anchor_hash);
        assert(t == ti + tl);
        if last.first() <= height.0 {
            suffix_has_the_heights_above(last, height, anchor_hash, h);
        }
        if lane_holds(ti, h) {
            let i = choose|i: int|
                0 <= i < ti.len() && (#[trigger] ti[i]).first() <= h && h <= ti[i].last();
            assert(t[i] == ti[i]);
        }
        if tl.len() > 0 {
            assert(t[ti.len() as int] == tl[0]);
        }
        if lane_holds(t, h) {
            let i = choose|i: int|
                0 <= i < t.len() && (#[trigger] t[i]).first() <= h && h <= t[i].last();
            if i < ti.len() {
                assert(t[i] == ti[i]);
            } else {
                assert(t[i] == tl[i - ti.len()]);
            }
        }
        if lane_holds(init, h) {
            let i = choose|i: int|
                0 <= i < init.len() && (#[trigger] init[i]).first() <= h && h <= init[i].last();
            assert(lane[i] == init[i]);
        }
        if lane_holds(lane, h) {
            let i = choose|i: int|
                0 <= i < lane.len() && (#[trigger] lane[i]).first() <= h && h <= lane[i].last();
            if i < init.len() {
                assert(init[i] == lane[i]);
            }
        }
    }
}

/// Cutting pending forward work leaves pending exactly the heights above that were pending, and
/// changes nothing but the forward lane and the starts, which are those of what is left.
pub proof fn cutting_keeps_the_heights_above(
    q: QueueView,
    height: Height,
    anchor_hash: BlockHash,
    h: int,
)
    requires
        forall|i: int|
            0 <= i < q.forward.len() ==> (#[trigger] q.forward[i]).first() <= q.forward[i].last()
                <= u32::MAX,
    ensures
        ({
            let e = work_model::trimmed(q, height, anchor_hash);
            &&& lane_holds(e.forward, h) <==> lane_holds(q.forward, h) && h > height.0
            &&& e == (QueueView {
                forward: e.forward,
                pending_starts: e.pending_starts,
                active_starts: e.active_starts,
                ..q
            })
            &&& forall|k: StartKey| #[trigger]
                e.pending_starts.contains(k) <==> work_step_laws::starts_in(e.forward, k)
                    || work_step_laws::starts_in(e.authenticate_roots, k)
            &&& forall|k: StartKey| #[trigger]
                e.active_starts.contains(k) <==> work_step_laws::starts_active(e.active, k)
        }),
{
    let e = work_model::trimmed(q, height, anchor_hash);
    lemma_trimmed_heights(q.forward, height, anchor_hash, h);
    work_step_laws::lemma_starts(e);
}

/// Dropping an anchor changes at most one piece of work: the first of the lane that starts at the
/// height, and that only by losing its anchor, if it is the given one. Nothing else changes.
pub proof fn unanchoring_changes_one_anchor(
    q: QueueView,
    priority: RangePriority,
    start: Height,
    anchor_hash: BlockHash,
    i: int,
)
    ensures
        ({
            let e = work_model::unanchored(q, priority, start, anchor_hash);
            &&& priority != RangePriority::Forward ==> e.forward == q.forward
            &&& priority != RangePriority::AuthenticateRoots ==> e.authenticate_roots
                == q.authenticate_roots
            &&& e == (QueueView {
                forward: e.forward,
                authenticate_roots: e.authenticate_roots,
                ..q
            })
            &&& priority == RangePriority::Forward ==> unanchored_at(
                q.forward,
                e.forward,
                start,
                anchor_hash,
                i,
            )
            &&& priority == RangePriority::AuthenticateRoots ==> unanchored_at(
                q.authenticate_roots,
                e.authenticate_roots,
                start,
                anchor_hash,
                i,
            )
        }),
{
    lemma_first_start(q.forward, start, 0);
    lemma_first_start(q.authenticate_roots, start, 0);
}

/// Whether `after` is `before` at place `i`, but for an anchor that is dropped there if the place
/// is the first with work that starts at the height and the work has the anchor.
pub open spec fn unanchored_at(
    before: Seq<RangeRequest>,
    after: Seq<RangeRequest>,
    start: Height,
    anchor_hash: BlockHash,
    i: int,
) -> bool {
    let first = before[i].first() == start.0 && forall|j: int|
        0 <= j < i ==> (#[trigger] before[j]).first() != start.0;
    &&& after.len() == before.len()
    &&& 0 <= i < before.len() ==> after[i] == (RangeRequest {
        anchor_hash: if first && before[i].anchor_hash == Some(anchor_hash) {
            None
        } else {
            before[i].anchor_hash
        },
        ..before[i]
    })
}

proof fn lemma_first_start(lane: Seq<RangeRequest>, start: Height, i: int)
    requires
        0 <= i,
    ensures
        match work_model::first_starting_at(lane, start, i) {
            Some(j) => i <= j < lane.len() && lane[j].first() == start.0 && forall|k: int|
                i <= k < j ==> (#[trigger] lane[k]).first() != start.0,
            None => forall|k: int|
                i <= k < lane.len() ==> (#[trigger] lane[k]).first() != start.0,
        },
    decreases lane.len() - i,
{
    if i < lane.len() && lane[i].first() != start.0 {
        lemma_first_start(lane, start, i + 1);
    }
}

/// Dropping all forward work empties the forward lane, ends the ownership of forward work and of
/// no other, and starts the next epoch. Nothing else changes but the starts, which are those of
/// what is left.
pub proof fn clearing_forward_drops_only_forward_work(q: QueueView, r: RangeRequest)
    ensures
        ({
            let e = work_model::forward_cleared(q);
            &&& e.forward.len() == 0
            &&& e.active.contains_key(r) <==> q.active.contains_key(r) && r.priority
                != RangePriority::Forward
            &&& e.active.contains_key(r) ==> e.active[r] == q.active[r]
            &&& e.epoch == (if q.epoch == u64::MAX {
                0
            } else {
                q.epoch + 1
            })
            &&& forall|k: StartKey| #[trigger]
                e.pending_starts.contains(k) <==> work_step_laws::starts_in(
                    q.authenticate_roots,
                    k,
                )
            &&& forall|k: StartKey| #[trigger]
                e.active_starts.contains(k) <==> work_step_laws::starts_active(e.active, k)
            &&& e == (QueueView {
                forward: e.forward,
                active: e.active,
                epoch: e.epoch,
                pending_starts: e.pending_starts,
                active_starts: e.active_starts,
                ..q
            })
        }),
{
    let e = work_model::forward_cleared(q);
    work_step_laws::lemma_starts(e);
    assert forall|k: StartKey| #[trigger] e.pending_starts.contains(k) <==>
        work_step_laws::starts_in(q.authenticate_roots, k) by {
        assert(!work_step_laws::starts_in(e.forward, k));
    }
}

/// Dropping all root authentication empties its lane, ends the ownership of its work and of no
/// other, and forgets its backoffs and no other. Nothing else changes but the starts, which are
/// those of what is left.
pub proof fn clearing_root_auth_drops_only_root_auth(
    q: QueueView,
    r: RangeRequest,
    key: StartKey,
)
    ensures
        ({
            let e = work_model::root_auth_cleared(q);
            &&& e.authenticate_roots.len() == 0
            &&& e.active.contains_key(r) <==> q.active.contains_key(r) && r.priority
                != RangePriority::AuthenticateRoots
            &&& e.active.contains_key(r) ==> e.active[r] == q.active[r]
            &&& e.delayed_retries.contains_key(key) <==> q.delayed_retries.contains_key(key)
                && key.priority != RangePriority::AuthenticateRoots
            &&& e.delayed_retries.contains_key(key) ==> e.delayed_retries[key]
                == q.delayed_retries[key]
            &&& forall|k: StartKey| #[trigger]
                e.pending_starts.contains(k) <==> work_step_laws::starts_in(q.forward, k)
            &&& forall|k: StartKey| #[trigger]
                e.active_starts.contains(k) <==> work_step_laws::starts_active(e.active, k)
            &&& e == (QueueView {
                authenticate_roots: e.authenticate_roots,
                active: e.active,
                delayed_retries: e.delayed_retries,
                pending_starts: e.pending_starts,
                active_starts: e.active_starts,
                ..q
            })
        }),
{
    let e = work_model::root_auth_cleared(q);
    work_step_laws::lemma_starts(e);
    assert forall|k: StartKey| #[trigger] e.pending_starts.contains(k) <==>
        work_step_laws::starts_in(q.forward, k) by {
        assert(!work_step_laws::starts_in(e.authenticate_roots, k));
    }
}

/// Forgetting what a peer is kept from forgets that and no more.
pub proof fn unavoiding_forgets_one_peer(q: QueueView, peer: ZakuraPeerId, key: AvoidKey)
    ensures
        ({
            let e = work_model::unavoided(q, peer);
            &&& e.retry_avoidance.contains_key(key) <==> q.retry_avoidance.contains_key(key)
                && key.peer != peer
            &&& e.retry_avoidance.contains_key(key) ==> e.retry_avoidance[key]
                == q.retry_avoidance[key]
            &&& e == (QueueView { retry_avoidance: e.retry_avoidance, ..q })
        }),
{
}

/// Maintenance forgets exactly the avoidances that are over and settles exactly the backoffs that
/// are, keeping how often work was put off. Nothing else changes.
pub proof fn maintenance_settles_what_is_over(
    q: QueueView,
    now: Instant,
    avoid: AvoidKey,
    key: StartKey,
)
    ensures
        ({
            let e = work_model::maintained(q, now);
            &&& e.retry_avoidance.contains_key(avoid) <==> q.retry_avoidance.contains_key(avoid)
                && q.retry_avoidance[avoid].nanos > now.nanos
            &&& e.retry_avoidance.contains_key(avoid) ==> e.retry_avoidance[avoid]
                == q.retry_avoidance[avoid]
            &&& e.delayed_retries.contains_key(key) == q.delayed_retries.contains_key(key)
            &&& q.delayed_retries.contains_key(key) ==> {
                let before = q.delayed_retries[key];
                let after = e.delayed_retries[key];
                &&& after.attempts == before.attempts
                &&& after.until == (if before.until is Some && (before.until->0).nanos
                    <= now.nanos {
                    None
                } else {
                    before.until
                })
            }
            &&& e == (QueueView {
                retry_avoidance: e.retry_avoidance,
                delayed_retries: e.delayed_retries,
                ..q
            })
        }),
{
}

/// Maintenance is due when an avoidance or a backoff ends after now, and now if a backoff has
/// ended by now; at no other time.
#[verifier::spinoff_prover]
#[verifier::rlimit(50)]
pub proof fn maintenance_is_due_exactly(q: QueueView, now: Instant, at: Instant)
    ensures
        work_model::is_deadline(q, now, at) <==> {
            ||| at.nanos > now.nanos && exists|k: AvoidKey| #[trigger]
                q.retry_avoidance.contains_key(k) && q.retry_avoidance[k] == at
            ||| at.nanos > now.nanos && exists|k: StartKey| #[trigger]
                q.delayed_retries.contains_key(k) && q.delayed_retries[k].until == Some(at)
            ||| at == now && exists|k: StartKey| #[trigger]
                q.delayed_retries.contains_key(k) && q.delayed_retries[k].until is Some && (
                q.delayed_retries[k].until->0).nanos <= now.nanos
        },
{
    let m = work_model::maintained(q, now);
    if exists|k: AvoidKey| #[trigger]
        m.retry_avoidance.contains_key(k) && m.retry_avoidance[k] == at {
        let k = choose|k: AvoidKey| #[trigger]
            m.retry_avoidance.contains_key(k) && m.retry_avoidance[k] == at;
        assert(q.retry_avoidance.contains_key(k) && q.retry_avoidance[k] == at);
    }
    if exists|k: StartKey| #[trigger]
        m.delayed_retries.contains_key(k) && m.delayed_retries[k].until == Some(at) {
        let k = choose|k: StartKey| #[trigger]
            m.delayed_retries.contains_key(k) && m.delayed_retries[k].until == Some(at);
        assert(q.delayed_retries.contains_key(k));
        assert(m.delayed_retries[k] == work_model::settled(q.delayed_retries[k], now));
    }
    if at.nanos > now.nanos && exists|k: AvoidKey| #[trigger]
        q.retry_avoidance.contains_key(k) && q.retry_avoidance[k] == at {
        let k = choose|k: AvoidKey| #[trigger]
            q.retry_avoidance.contains_key(k) && q.retry_avoidance[k] == at;
        assert(m.retry_avoidance.contains_key(k) && m.retry_avoidance[k] == at);
    }
    if at.nanos > now.nanos && exists|k: StartKey| #[trigger]
        q.delayed_retries.contains_key(k) && q.delayed_retries[k].until == Some(at) {
        let k = choose|k: StartKey| #[trigger]
            q.delayed_retries.contains_key(k) && q.delayed_retries[k].until == Some(at);
        assert(m.delayed_retries.contains_key(k));
        assert(m.delayed_retries[k] == work_model::settled(q.delayed_retries[k], now));
    }
}

/// A peer is kept from pending work exactly if some work of a lane that ends at or below its tip
/// is one that it is kept from until later.
pub proof fn peer_is_kept_from_pending_exactly(
    q: QueueView,
    peer: ZakuraPeerId,
    tip: Height,
    now: Instant,
)
    ensures
        work_model::kept_from_pending(q, peer, tip, now) <==> exists|r: RangeRequest| #[trigger]
            kept_from(q, peer, tip, now, r) && (q.forward.contains(r)
                || q.authenticate_roots.contains(r)),
{
    let all = q.forward + q.authenticate_roots;
    if work_model::kept_from_pending(q, peer, tip, now) {
        let i = choose|i: int|
            0 <= i < (q.forward + q.authenticate_roots).len() && {
                let r = #[trigger] (q.forward + q.authenticate_roots)[i];
                r.last() <= tip.0 && work_model::avoided(q, peer, r, now)
            };
        if i < q.forward.len() {
            assert(q.forward[i] == all[i]);
        } else {
            assert(q.authenticate_roots[i - q.forward.len()] == all[i]);
        }
        assert(kept_from(q, peer, tip, now, all[i]));
    }
    if exists|r: RangeRequest| #[trigger]
        kept_from(q, peer, tip, now, r) && (q.forward.contains(r)
            || q.authenticate_roots.contains(r)) {
        let r = choose|r: RangeRequest| #[trigger]
            kept_from(q, peer, tip, now, r) && (q.forward.contains(r)
                || q.authenticate_roots.contains(r));
        if q.forward.contains(r) {
            let i = choose|i: int| 0 <= i < q.forward.len() && q.forward[i] == r;
            assert(all[i] == r);
        } else {
            let i = choose|i: int|
                0 <= i < q.authenticate_roots.len() && q.authenticate_roots[i] == r;
            assert(all[q.forward.len() + i] == r);
        }
    }
}

/// Whether a peer has a piece of work and is kept from it until later.
pub open spec fn kept_from(
    q: QueueView,
    peer: ZakuraPeerId,
    tip: Height,
    now: Instant,
    r: RangeRequest,
) -> bool {
    let avoid = AvoidKey { peer, work: work_step_laws::start_of(r) };
    &&& r.last() <= tip.0
    &&& q.retry_avoidance.contains_key(avoid)
    &&& q.retry_avoidance[avoid].nanos > now.nanos
}

/// The hashes that are remembered are the latest ones seen, in order, as many as the capacity
/// allows: the new hash is the last of them, and the oldest is the one forgotten.
pub proof fn the_latest_hashes_are_remembered(
    seen: Seq<BlockHash>,
    hash: BlockHash,
    capacity: nat,
    i: int,
)
    ensures
        ({
            let kept = work_queue::remembered(seen, hash, capacity);
            &&& kept.len() == (if seen.len() + 1 <= capacity {
                seen.len() + 1
            } else {
                capacity
            })
            &&& kept.len() > 0 ==> kept[kept.len() - 1] == hash
            &&& 0 <= i < kept.len() - 1 ==> kept[i] == seen[seen.len() + 1 - kept.len() + i]
        }),
{
}

/// An empty queue has no work, owners, starts, avoidances, backoffs or covered heights.
pub proof fn an_empty_queue_holds_nothing(
    r: RangeRequest,
    key: StartKey,
    avoid: AvoidKey,
)
    ensures
        ({
            let q = work_model::empty_queue();
            &&& q.forward.len() == 0
            &&& q.authenticate_roots.len() == 0
            &&& q.covered.len() == 0
            &&& !q.active.contains_key(r)
            &&& !q.pending_starts.contains(key)
            &&& !q.active_starts.contains(key)
            &&& !q.retry_avoidance.contains_key(avoid)
            &&& !q.delayed_retries.contains_key(key)
            &&& q.epoch == 0
            &&& q.oldest_missing_since is None
        }),
{
}

} // verus!
