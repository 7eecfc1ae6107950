//! What holds of the header work queue as a whole.
use vstd::prelude::*;

use crate::chain::{BlockHash, Height};
use crate::header_sync::ids::{HeaderSyncOperationIdentity, ZakuraPeerId};
use crate::header_sync::range;
use crate::header_sync::range::{CheckedHeaderRange, RangePriority, RangeRequest};
use crate::header_sync::work_model;
use crate::header_sync::work_model::{
    AvoidKey, CoveredRange, DelayedRetry, HeaderWorkState, QueueView, StartKey,
};
use crate::header_sync::work_queue::RateMeter;
use crate::time::{Duration, Instant};
use crate::vec_map;

verus! {

/// Whether the work of a lane has the priority of the lane, and no two start at one height.
pub open spec fn lane_ok(lane: Seq<RangeRequest>, priority: RangePriority) -> bool {
    &&& forall|i: int| 0 <= i < lane.len() ==> (#[trigger] lane[i]).priority == priority
    &&& forall|i: int, j: int|
        0 <= i < j < lane.len() ==> (#[trigger] lane[i]).first() != (#[trigger] lane[j]).first()
}

/// Whether no two pieces of active work of one lane start at one height.
pub open spec fn active_ok(active: Map<RangeRequest, HeaderWorkState>) -> bool {
    forall|a: RangeRequest, b: RangeRequest|
        #![trigger active.contains_key(a), active.contains_key(b)]
        active.contains_key(a) && active.contains_key(b) && work_model::key_of(a)
            == work_model::key_of(b) ==> a == b
}

/// Whether the sets of starts say where pending and active work starts.
pub open spec fn index_ok(q: QueueView) -> bool {
    &&& q.pending_starts == work_model::reindexed(q).pending_starts
    &&& q.active_starts == work_model::reindexed(q).active_starts
}

/// Whether each start is pending at most once and active at most once per lane, and the sets of
/// starts say which are.
pub open spec fn indexed(q: QueueView) -> bool {
    &&& lane_ok(q.forward, RangePriority::Forward)
    &&& lane_ok(q.authenticate_roots, RangePriority::AuthenticateRoots)
    &&& active_ok(q.active)
    &&& index_ok(q)
}

/// Whether a piece of work is active, or no active work of its lane starts where it does.
pub open spec fn sole_owner(q: QueueView, range: RangeRequest) -> bool {
    q.active.contains_key(range) || !work_model::active_has_key(
        q.active,
        work_model::key_of(range),
    )
}

proof fn lemma_lane_key(lane: Seq<RangeRequest>, i: int)
    requires
        0 <= i < lane.len(),
    ensures
        work_model::lane_has_key(lane, work_model::key_of(lane[i])),
{
}

/// In a lane, exactly the work that is taken out loses its key.
proof fn lemma_lane_remove(lane: Seq<RangeRequest>, priority: RangePriority, i: int)
    requires
        lane_ok(lane, priority),
        0 <= i < lane.len(),
    ensures
        lane_ok(lane.remove(i), priority),
        forall|k: StartKey| #[trigger]
            work_model::lane_has_key(lane.remove(i), k) == (work_model::lane_has_key(lane, k) && k
                != work_model::key_of(lane[i])),
{
    let rest = lane.remove(i);
    assert forall|j: int| 0 <= j < rest.len() implies #[trigger] rest[j] == (if j < i {
        lane[j]
    } else {
        lane[j + 1]
    }) by {
    }
    assert forall|k: StartKey| #[trigger]
        work_model::lane_has_key(rest, k) == (work_model::lane_has_key(lane, k) && k
            != work_model::key_of(lane[i])) by {
        if work_model::lane_has_key(rest, k) {
            let j = choose|j: int|
                0 <= j < rest.len() && work_model::key_of(#[trigger] rest[j]) == k;
            let j0 = if j < i {
                j
            } else {
                j + 1
            };
            assert(work_model::key_of(lane[j0]) == k);
            assert(lane[j0].first() != lane[i].first());
        }
        if work_model::lane_has_key(lane, k) && k != work_model::key_of(lane[i]) {
            let j = choose|j: int|
                0 <= j < lane.len() && work_model::key_of(#[trigger] lane[j]) == k;
            let j1 = if j < i {
                j
            } else {
                j - 1
            };
            assert(work_model::key_of(rest[j1]) == k);
        }
    }
}

/// A lane that gets work at an end gets its key.
proof fn lemma_lane_extend(lane: Seq<RangeRequest>, priority: RangePriority, r: RangeRequest)
    requires
        lane_ok(lane, priority),
        r.priority == priority,
        !work_model::lane_has_key(lane, work_model::key_of(r)),
    ensures
        lane_ok(lane.push(r), priority),
        lane_ok(seq![r] + lane, priority),
        forall|k: StartKey| #[trigger]
            work_model::lane_has_key(lane.push(r), k) == (work_model::lane_has_key(lane, k) || k
                == work_model::key_of(r)),
        forall|k: StartKey| #[trigger]
            work_model::lane_has_key(seq![r] + lane, k) == (work_model::lane_has_key(lane, k) || k
                == work_model::key_of(r)),
{
    let back = lane.push(r);
    let front = seq![r] + lane;
    assert forall|i: int| 0 <= i < lane.len() implies (#[trigger] lane[i]).first() != r.first() by {
        lemma_lane_key(lane, i);
    }
    assert(forall|i: int| 0 <= i < lane.len() ==> back[i] == #[trigger] lane[i]);
    assert(forall|i: int| 0 < i < front.len() ==> #[trigger] front[i] == lane[i - 1]);
    assert(front[0] == r);
    assert(back[lane.len() as int] == r);
    assert forall|k: StartKey| #[trigger]
        work_model::lane_has_key(back, k) == (work_model::lane_has_key(lane, k) || k
            == work_model::key_of(r)) by {
        if work_model::lane_has_key(lane, k) {
            let j = choose|j: int|
                0 <= j < lane.len() && work_model::key_of(#[trigger] lane[j]) == k;
            assert(work_model::key_of(back[j]) == k);
        }
    }
    assert forall|k: StartKey| #[trigger]
        work_model::lane_has_key(front, k) == (work_model::lane_has_key(lane, k) || k
            == work_model::key_of(r)) by {
        if work_model::lane_has_key(lane, k) {
            let j = choose|j: int|
                0 <= j < lane.len() && work_model::key_of(#[trigger] lane[j]) == k;
            assert(work_model::key_of(front[j + 1]) == k);
        }
        if k == work_model::key_of(r) {
            assert(work_model::key_of(front[0]) == k);
        }
    }
}

/// Work of another lane has none of the keys of a lane.
proof fn lemma_other_lane(lane: Seq<RangeRequest>, priority: RangePriority, k: StartKey)
    requires
        lane_ok(lane, priority),
        k.priority != priority,
    ensures
        !work_model::lane_has_key(lane, k),
{
}

/// A queue without work has its starts in order.
pub proof fn empty_queue_is_indexed()
    ensures
        indexed(work_model::empty_queue()),
{
    let q = work_model::empty_queue();
    assert(q.pending_starts =~= work_model::reindexed(q).pending_starts);
    assert(q.active_starts =~= work_model::reindexed(q).active_starts);
}

/// Adding work to its lane keeps starts in order.
pub proof fn ensure_keeps_index(q: QueueView, range: RangeRequest, now: Instant)
    requires
        indexed(q),
    ensures
        indexed(work_model::ensured(q, range, range.priority, now)),
{
    let e = work_model::ensured(q, range, range.priority, now);
    let key = work_model::key_of(range);
    if e != q {
        assert(!q.pending_starts.contains(key));
        assert(!work_model::lane_has_key(q.forward, key));
        assert(!work_model::lane_has_key(q.authenticate_roots, key));
        if range.priority == RangePriority::Forward {
            lemma_lane_extend(q.forward, RangePriority::Forward, range);
        } else {
            lemma_lane_extend(q.authenticate_roots, RangePriority::AuthenticateRoots, range);
        }
        assert(e.pending_starts =~= work_model::reindexed(e).pending_starts);
        assert(e.active_starts =~= work_model::reindexed(e).active_starts);
    }
}

/// Taking work for a peer keeps starts in order.
#[verifier::spinoff_prover]
#[verifier::rlimit(50)]
pub proof fn next_keeps_index(
    q: QueueView,
    peer: ZakuraPeerId,
    tip: Height,
    allow_root_auth: bool,
    now: Instant,
)
    requires
        indexed(q),
    ensures
        indexed(work_model::next_taken(q, peer, tip, allow_root_auth, now).0),
{
    let p = work_model::purged(q, now);
    let (e, taken) = work_model::next_taken(q, peer, tip, allow_root_auth, now);
    lemma_first_assignable(p, p.authenticate_roots, peer, tip, now, 0);
    lemma_first_assignable(p, p.forward, peer, tip, now, 0);
    let auth = if allow_root_auth {
        work_model::first_assignable(p, p.authenticate_roots, peer, tip, now, 0)
    } else {
        None
    };
    match auth {
        Some(i) => {
            lemma_lane_remove(p.authenticate_roots, RangePriority::AuthenticateRoots, i);
            lemma_other_lane(
                p.forward,
                RangePriority::Forward,
                work_model::key_of(p.authenticate_roots[i]),
            );
        },
        None => {
            if let Some(i) = work_model::first_assignable(p, p.forward, peer, tip, now, 0) {
                lemma_lane_remove(p.forward, RangePriority::Forward, i);
                lemma_other_lane(
                    p.authenticate_roots,
                    RangePriority::AuthenticateRoots,
                    work_model::key_of(p.forward[i]),
                );
            }
        },
    }
    assert(e.pending_starts =~= work_model::reindexed(e).pending_starts);
    assert(e.active_starts =~= work_model::reindexed(e).active_starts);
}

/// The place of the first assignable work is in the lane, holds assignable work, and no earlier
/// place does.
pub(crate) proof fn lemma_first_assignable(
    q: QueueView,
    lane: Seq<RangeRequest>,
    peer: ZakuraPeerId,
    tip: Height,
    now: Instant,
    i: int,
)
    requires
        0 <= i,
    ensures
        match work_model::first_assignable(q, lane, peer, tip, now, i) {
            Some(j) => {
                &&& i <= j < lane.len()
                &&& work_model::assignable(q, peer, tip, now, lane[j])
                &&& forall|k: int|
                    i <= k < j ==> !work_model::assignable(q, peer, tip, now, #[trigger] lane[k])
            },
            None => forall|k: int|
                i <= k < lane.len() ==> !work_model::assignable(
                    q,
                    peer,
                    tip,
                    now,
                    #[trigger] lane[k],
                ),
        },
    decreases lane.len() - i,
{
    if i < lane.len() && !work_model::assignable(q, peer, tip, now, lane[i]) {
        lemma_first_assignable(q, lane, peer, tip, now, i + 1);
    }
}

/// Giving work without an owner to a peer keeps starts in order, if no active work of its lane
/// starts where it does.
pub proof fn assign_keeps_index(q: QueueView, range: RangeRequest, state: HeaderWorkState)
    requires
        indexed(q),
        sole_owner(q, range),
    ensures
        indexed(work_model::assigned(q, range, state)),
{
    let e = work_model::assigned(q, range, state);
    assert forall|k: StartKey| #[trigger]
        work_model::active_has_key(e.active, k) == (work_model::active_has_key(q.active, k) || k
            == work_model::key_of(range)) by {
        if work_model::active_has_key(q.active, k) {
            let r = choose|r: RangeRequest| #[trigger]
                q.active.contains_key(r) && work_model::key_of(r) == k;
            assert(e.active.contains_key(r));
        }
        if k == work_model::key_of(range) {
            assert(e.active.contains_key(range));
        }
    }
    assert forall|a: RangeRequest, b: RangeRequest|
        #![trigger e.active.contains_key(a), e.active.contains_key(b)]
        e.active.contains_key(a) && e.active.contains_key(b) && work_model::key_of(a)
            == work_model::key_of(b) implies a == b by {
        if a != range {
            assert(q.active.contains_key(a));
        }
        if b != range {
            assert(q.active.contains_key(b));
        }
    }
    assert(e.pending_starts =~= work_model::reindexed(e).pending_starts);
    assert(e.active_starts =~= work_model::reindexed(e).active_starts);
}

/// Handing active work to another owner keeps starts in order.
pub proof fn new_owner_keeps_index(q: QueueView, range: RangeRequest, state: HeaderWorkState)
    requires
        indexed(q),
        q.active.contains_key(range),
    ensures
        indexed(work_model::owned(q, range, state)),
{
    assign_keeps_index(q, range, state);
    let e = work_model::owned(q, range, state);
    assert(work_model::active_has_key(q.active, work_model::key_of(range)));
    assert(e.active_starts =~= work_model::assigned(q, range, state).active_starts);
}

/// Handing work to an operation keeps starts in order, if the work is not pending.
pub proof fn authenticate_keeps_index(
    q: QueueView,
    range: RangeRequest,
    operation: HeaderSyncOperationIdentity,
)
    requires
        indexed(q),
        sole_owner(q, range),
        !q.pending_starts.contains(work_model::key_of(range)),
    ensures
        indexed(work_model::authenticating(q, range, operation)),
{
    let state = HeaderWorkState::Committing { operation };
    assign_keeps_index(q, range, state);
    let a = work_model::assigned(q, range, state);
    let e = work_model::authenticating(q, range, operation);
    assert(e.pending_starts =~= a.pending_starts);
    assert(e =~= a);
}

/// Ending the ownership of work keeps starts in order.
pub proof fn clear_keeps_index(q: QueueView, range: RangeRequest)
    requires
        indexed(q),
        sole_owner(q, range),
    ensures
        indexed(work_model::cleared(q, range)),
{
    let e = work_model::cleared(q, range);
    assert forall|k: StartKey| #[trigger]
        work_model::active_has_key(e.active, k) == (work_model::active_has_key(q.active, k) && k
            != work_model::key_of(range)) by {
        if work_model::active_has_key(e.active, k) {
            let r = choose|r: RangeRequest| #[trigger]
                e.active.contains_key(r) && work_model::key_of(r) == k;
            assert(q.active.contains_key(r));
        }
        if work_model::active_has_key(q.active, k) && k != work_model::key_of(range) {
            let r = choose|r: RangeRequest| #[trigger]
                q.active.contains_key(r) && work_model::key_of(r) == k;
            assert(e.active.contains_key(r));
        }
    }
    assert forall|a: RangeRequest, b: RangeRequest|
        #![trigger e.active.contains_key(a), e.active.contains_key(b)]
        e.active.contains_key(a) && e.active.contains_key(b) && work_model::key_of(a)
            == work_model::key_of(b) implies a == b by {
        assert(q.active.contains_key(a) && q.active.contains_key(b));
    }
    assert(e.pending_starts =~= work_model::reindexed(e).pending_starts);
    assert(e.active_starts =~= work_model::reindexed(e).active_starts);
}

/// Ending the ownership of work by an operation keeps starts in order.
pub proof fn retire_keeps_index(
    q: QueueView,
    operation: HeaderSyncOperationIdentity,
    range: RangeRequest,
)
    requires
        indexed(q),
    ensures
        indexed(work_model::retired(q, operation, range)),
{
    if q.active.contains_key(range) {
        clear_keeps_index(q, range);
    }
}

/// Replacing active work by a part of it keeps starts in order, if no other active work of the
/// lane starts where the part does.
pub proof fn narrow_keeps_index(q: QueueView, original: RangeRequest, part: RangeRequest)
    requires
        indexed(q),
        q.active.contains_key(original) ==> work_model::key_of(part) == work_model::key_of(original)
            || sole_owner(q, part),
    ensures
        indexed(work_model::narrowed(q, original, part)),
{
    if original != part && q.active.contains_key(original) {
        let c = work_model::cleared(q, original);
        clear_keeps_index(q, original);
        assert(sole_owner(c, part)) by {
            if work_model::active_has_key(c.active, work_model::key_of(part))
                && !q.active.contains_key(part) {
                let r = choose|r: RangeRequest| #[trigger]
                    c.active.contains_key(r) && work_model::key_of(r) == work_model::key_of(part);
                assert(q.active.contains_key(r));
                assert(work_model::active_has_key(q.active, work_model::key_of(part)));
                assert(r == original);
            }
        }
        assign_keeps_index(c, part, q.active[original]);
        assert(work_model::narrowed(q, original, part) =~= work_model::assigned(
            c,
            part,
            q.active[original],
        ));
    }
}

/// Putting work back keeps starts in order.
pub proof fn retry_keeps_index(q: QueueView, range: RangeRequest)
    requires
        indexed(q),
        sole_owner(q, range),
    ensures
        indexed(work_model::retried(q, range)),
{
    let c = work_model::cleared(q, range);
    let e = work_model::retried(q, range);
    let key = work_model::key_of(range);
    clear_keeps_index(q, range);
    if e != c {
        assert(!work_model::lane_has_key(q.forward, key));
        assert(!work_model::lane_has_key(q.authenticate_roots, key));
        if range.priority == RangePriority::Forward {
            lemma_lane_extend(q.forward, RangePriority::Forward, range);
        } else {
            lemma_lane_extend(q.authenticate_roots, RangePriority::AuthenticateRoots, range);
        }
        assert(e.pending_starts =~= work_model::reindexed(e).pending_starts);
        assert(e.active_starts =~= work_model::reindexed(e).active_starts);
    }
}

/// Putting work back that a peer failed at keeps starts in order.
pub proof fn retry_avoiding_keeps_index(
    q: QueueView,
    peer: ZakuraPeerId,
    range: RangeRequest,
    until: Instant,
)
    requires
        indexed(q),
        sole_owner(q, range),
    ensures
        indexed(work_model::retried_avoiding(q, peer, range, until)),
{
    let key = AvoidKey { peer, work: work_model::key_of(range) };
    let a = QueueView { retry_avoidance: q.retry_avoidance.insert(key, until), ..q };
    assert(a.pending_starts =~= work_model::reindexed(a).pending_starts);
    assert(a.active_starts =~= work_model::reindexed(a).active_starts);
    retry_keeps_index(a, range);
}

/// Putting work back that backs off keeps starts in order.
pub proof fn retry_delayed_keeps_index(q: QueueView, range: RangeRequest, now: Instant)
    requires
        indexed(q),
        sole_owner(q, range),
    ensures
        indexed(work_model::retried_delayed(q, range, now)),
{
    let attempts = work_model::next_attempts(q, range);
    let wait = Duration { nanos: (work_model::backoff_seconds(attempts) * 1_000_000_000) as u128 };
    let retry = DelayedRetry { until: Some(now.spec_after(wait)), attempts };
    let d = QueueView {
        delayed_retries: q.delayed_retries.insert(work_model::key_of(range), retry),
        ..q
    };
    assert(d.pending_starts =~= work_model::reindexed(d).pending_starts);
    assert(d.active_starts =~= work_model::reindexed(d).active_starts);
    retry_keeps_index(d, range);
}

/// Active work other than the work put back stays active under its owner.
proof fn lemma_all_retried_active(q: QueueView, ranges: Seq<RangeRequest>)
    ensures
        ({
            let e = work_model::all_retried(q, ranges);
            &&& forall|r: RangeRequest| #[trigger]
                e.active.contains_key(r) <==> q.active.contains_key(r) && !ranges.contains(r)
            &&& forall|r: RangeRequest| #[trigger]
                e.active.contains_key(r) ==> e.active[r] == q.active[r]
        }),
    decreases ranges.len(),
{
    if ranges.len() > 0 {
        let init = ranges.drop_last();
        lemma_all_retried_active(q, init);
        let e = work_model::all_retried(q, ranges);
        let d = work_model::all_retried(q, init);
        assert(e.active == d.active.remove(ranges.last()));
        assert forall|r: RangeRequest| #[trigger]
            ranges.contains(r) == (init.contains(r) || r == ranges.last()) by {
            if init.contains(r) {
                let i = choose|i: int| 0 <= i < init.len() && init[i] == r;
                assert(ranges[i] == r);
            }
            if r == ranges.last() {
                assert(ranges[ranges.len() - 1] == r);
            }
            if ranges.contains(r) {
                let i = choose|i: int| 0 <= i < ranges.len() && ranges[i] == r;
                if i < init.len() {
                    assert(init[i] == r);
                }
            }
        }
    }
}

/// Putting back active work, piece by piece, keeps starts in order.
proof fn lemma_all_retried_index(q: QueueView, ranges: Seq<RangeRequest>)
    requires
        indexed(q),
        ranges.no_duplicates(),
        forall|r: RangeRequest| #[trigger] ranges.contains(r) ==> q.active.contains_key(r),
    ensures
        indexed(work_model::all_retried(q, ranges)),
    decreases ranges.len(),
{
    if ranges.len() > 0 {
        let init = ranges.drop_last();
        assert forall|r: RangeRequest| #[trigger] init.contains(r) implies q.active.contains_key(
            r,
        ) by {
            let i = choose|i: int| 0 <= i < init.len() && init[i] == r;
            assert(ranges[i] == r);
            assert(ranges.contains(r));
        }
        lemma_all_retried_index(q, init);
        lemma_all_retried_active(q, init);
        let last = ranges.last();
        assert(ranges[ranges.len() - 1] == last);
        assert(ranges.contains(last));
        assert(!init.contains(last)) by {
            if init.contains(last) {
                let i = choose|i: int| 0 <= i < init.len() && init[i] == last;
                assert(ranges[i] == ranges[ranges.len() - 1]);
            }
        }
        retry_keeps_index(work_model::all_retried(q, init), last);
    }
}

/// Forgetting a peer keeps starts in order.
pub proof fn forget_keeps_index(q: QueueView, peer: ZakuraPeerId, ranges: Seq<RangeRequest>)
    requires
        indexed(q),
        work_model::in_flight_order(q, peer, ranges),
    ensures
        indexed(work_model::unavoided(work_model::all_retried(q, ranges), peer)),
{
    assert forall|r: RangeRequest| #[trigger] ranges.contains(r) implies q.active.contains_key(
        r,
    ) by {
        assert(work_model::in_flight_at(q, peer, r));
    }
    lemma_all_retried_index(q, ranges);
    let a = work_model::all_retried(q, ranges);
    let e = work_model::unavoided(a, peer);
    assert(e.pending_starts =~= work_model::reindexed(e).pending_starts);
    assert(e.active_starts =~= work_model::reindexed(e).active_starts);
}

/// Forgetting a peer ends the ownership of its in-flight work and of no other work, and drops no
/// avoidance of another peer and every one of its own.
pub proof fn forget_requeues_only_in_flight_work(
    q: QueueView,
    peer: ZakuraPeerId,
    ranges: Seq<RangeRequest>,
)
    requires
        work_model::in_flight_order(q, peer, ranges),
    ensures
        ({
            let e = work_model::unavoided(work_model::all_retried(q, ranges), peer);
            &&& forall|r: RangeRequest| #[trigger]
                e.active.contains_key(r) <==> q.active.contains_key(r)
                    && !work_model::in_flight_at(q, peer, r)
            &&& forall|r: RangeRequest| #[trigger]
                e.active.contains_key(r) ==> e.active[r] == q.active[r]
            &&& forall|k: AvoidKey| #[trigger]
                e.retry_avoidance.contains_key(k) <==> q.retry_avoidance.contains_key(k) && k.peer
                    != peer
        }),
{
    lemma_all_retried_active(q, ranges);
    lemma_all_retried_rest(q, ranges);
    let e = work_model::unavoided(work_model::all_retried(q, ranges), peer);
    assert forall|r: RangeRequest| #[trigger] e.active.contains_key(r) <==> q.active.contains_key(r)
        && !work_model::in_flight_at(q, peer, r) by {
        assert(ranges.contains(r) <==> work_model::in_flight_at(q, peer, r));
    }
}

/// Putting work back leaves avoidances, backoffs and coverage alone, and puts work only in front
/// of the lanes.
proof fn lemma_all_retried_rest(q: QueueView, ranges: Seq<RangeRequest>)
    ensures
        ({
            let e = work_model::all_retried(q, ranges);
            &&& e.retry_avoidance == q.retry_avoidance
            &&& e.delayed_retries == q.delayed_retries
            &&& e.covered == q.covered
            &&& e.forward.len() >= q.forward.len()
            &&& e.forward.skip(e.forward.len() - q.forward.len()) == q.forward
            &&& e.authenticate_roots.len() >= q.authenticate_roots.len()
            &&& e.authenticate_roots.skip(
                e.authenticate_roots.len() - q.authenticate_roots.len(),
            ) == q.authenticate_roots
            &&& forall|i: int|
                0 <= i < e.forward.len() - q.forward.len() ==> ranges.contains(
                    #[trigger] e.forward[i],
                )
            &&& forall|i: int|
                0 <= i < e.authenticate_roots.len() - q.authenticate_roots.len()
                    ==> ranges.contains(#[trigger] e.authenticate_roots[i])
        }),
    decreases ranges.len(),
{
    let e = work_model::all_retried(q, ranges);
    if ranges.len() > 0 {
        let init = ranges.drop_last();
        lemma_all_retried_rest(q, init);
        let d = work_model::all_retried(q, init);
        let f = e.forward.len() - d.forward.len();
        let a = e.authenticate_roots.len() - d.authenticate_roots.len();
        assert(e.forward.skip(f) =~= d.forward);
        assert(e.authenticate_roots.skip(a) =~= d.authenticate_roots);
        assert(e.forward.skip(e.forward.len() - q.forward.len()) =~= d.forward.skip(
            d.forward.len() - q.forward.len(),
        ));
        assert(e.authenticate_roots.skip(e.authenticate_roots.len() - q.authenticate_roots.len())
            =~= d.authenticate_roots.skip(
            d.authenticate_roots.len() - q.authenticate_roots.len(),
        ));
        assert(ranges[ranges.len() - 1] == ranges.last());
        assert forall|i: int| 0 <= i < e.forward.len() - q.forward.len() implies ranges.contains(
            #[trigger] e.forward[i],
        ) by {
            if i >= f {
                assert(e.forward[i] == d.forward[i - f]);
                assert(init.contains(d.forward[i - f]));
                let j = choose|j: int| 0 <= j < init.len() && init[j] == d.forward[i - f];
                assert(ranges[j] == e.forward[i]);
            }
        }
        assert forall|i: int|
            0 <= i < e.authenticate_roots.len() - q.authenticate_roots.len() implies ranges.contains(
            #[trigger] e.authenticate_roots[i],
        ) by {
            if i >= a {
                assert(e.authenticate_roots[i] == d.authenticate_roots[i - a]);
                assert(init.contains(d.authenticate_roots[i - a]));
                let j = choose|j: int|
                    0 <= j < init.len() && init[j] == d.authenticate_roots[i - a];
                assert(ranges[j] == e.authenticate_roots[i]);
            }
        }
    } else {
        assert(e.forward.skip(0) =~= q.forward);
        assert(e.authenticate_roots.skip(0) =~= q.authenticate_roots);
    }
}

/// Forgetting a peer keeps all pending work in its order, and puts only its in-flight work before
/// it.
pub proof fn forget_keeps_pending_work(q: QueueView, peer: ZakuraPeerId, ranges: Seq<RangeRequest>)
    requires
        work_model::in_flight_order(q, peer, ranges),
    ensures
        ({
            let e = work_model::unavoided(work_model::all_retried(q, ranges), peer);
            let more = e.forward.len() - q.forward.len();
            let more_roots = e.authenticate_roots.len() - q.authenticate_roots.len();
            &&& more >= 0
            &&& more_roots >= 0
            &&& e.forward.skip(more) == q.forward
            &&& e.authenticate_roots.skip(more_roots) == q.authenticate_roots
            &&& forall|i: int|
                0 <= i < more ==> work_model::in_flight_at(q, peer, #[trigger] e.forward[i])
            &&& forall|i: int|
                0 <= i < more_roots ==> work_model::in_flight_at(
                    q,
                    peer,
                    #[trigger] e.authenticate_roots[i],
                )
        }),
{
    lemma_all_retried_rest(q, ranges);
}

/// Active work that is left of active work has distinct starts too.
proof fn lemma_active_subset(
    active: Map<RangeRequest, HeaderWorkState>,
    rest: Map<RangeRequest, HeaderWorkState>,
)
    requires
        active_ok(active),
        forall|r: RangeRequest| #[trigger] rest.contains_key(r) ==> active.contains_key(r),
    ensures
        active_ok(rest),
{
}

/// Reindexing puts the sets of starts in order.
proof fn lemma_reindexed(q: QueueView)
    ensures
        index_ok(work_model::reindexed(q)),
{
    let e = work_model::reindexed(q);
    assert(e.pending_starts =~= work_model::reindexed(e).pending_starts);
    assert(e.active_starts =~= work_model::reindexed(e).active_starts);
}

/// Dropping forward work keeps starts in order, and leaves no forward work.
pub proof fn clear_forward_keeps_index(q: QueueView)
    requires
        indexed(q),
    ensures
        indexed(work_model::forward_cleared(q)),
        forall|r: RangeRequest| #[trigger]
            work_model::forward_or_active(work_model::forward_cleared(q), r) ==> r.priority
                != RangePriority::Forward,
{
    let active = work_model::outside_lane(q.active, RangePriority::Forward);
    lemma_active_subset(q.active, active);
    lemma_reindexed(
        QueueView {
            epoch: q.epoch.wrapping_add(1),
            forward: Seq::empty(),
            active,
            ..q
        },
    );
}

/// Dropping root authentication keeps starts in order.
pub proof fn clear_root_auth_keeps_index(q: QueueView)
    requires
        indexed(q),
    ensures
        indexed(work_model::root_auth_cleared(q)),
        work_model::root_auth_cleared(q).forward == q.forward,
{
    let active = work_model::outside_lane(q.active, RangePriority::AuthenticateRoots);
    lemma_active_subset(q.active, active);
    lemma_reindexed(
        QueueView {
            authenticate_roots: Seq::empty(),
            active,
            delayed_retries: vec_map::filtered(
                q.delayed_retries,
                |k: StartKey, d: DelayedRetry| k.priority != RangePriority::AuthenticateRoots,
            ),
            ..q
        },
    );
}

/// A part of a lane that keeps its order is in order.
proof fn lemma_lane_filter(
    lane: Seq<RangeRequest>,
    priority: RangePriority,
    keep: spec_fn(RangeRequest) -> bool,
)
    requires
        lane_ok(lane, priority),
    ensures
        lane_ok(lane.filter(keep), priority),
        forall|i: int|
            0 <= i < lane.filter(keep).len() ==> keep(#[trigger] lane.filter(keep)[i])
                && lane.contains(lane.filter(keep)[i]),
    decreases lane.len(),
{
    reveal(Seq::filter);
    if lane.len() > 0 {
        let init = lane.drop_last();
        let last = lane.last();
        assert forall|i: int| 0 <= i < init.len() implies #[trigger] init[i] == lane[i] by {
        }
        assert(lane[lane.len() - 1] == last);
        lemma_lane_filter(init, priority, keep);
        let rest = init.filter(keep);
        let all = lane.filter(keep);
        assert forall|i: int| 0 <= i < rest.len() implies (#[trigger] rest[i]).first()
            != last.first() && lane.contains(rest[i]) by {
            let j = choose|j: int| 0 <= j < init.len() && init[j] == rest[i];
            assert(lane[j] == rest[i]);
        }
        if keep(last) {
            assert(all == rest.push(last));
            assert forall|i: int| 0 <= i < all.len() implies keep(#[trigger] all[i])
                && lane.contains(all[i]) by {
                if i < rest.len() {
                    assert(all[i] == rest[i]);
                }
            }
            assert(lane_ok(all, priority)) by {
                assert forall|i: int, j: int| 0 <= i < j < all.len() implies (
                #[trigger] all[i]).first() != (#[trigger] all[j]).first() by {
                    assert(all[i] == rest[i]);
                    if j < rest.len() {
                        assert(all[j] == rest[j]);
                    }
                }
                assert forall|i: int| 0 <= i < all.len() implies (#[trigger] all[i]).priority
                    == priority by {
                    if i < rest.len() {
                        assert(all[i] == rest[i]);
                    }
                }
            }
        } else {
            assert(all == rest);
        }
    }
}

/// Dropping covered work keeps starts in order.
#[verifier::spinoff_prover]
#[verifier::rlimit(50)]
pub proof fn prune_keeps_index(q: QueueView)
    requires
        indexed(q),
    ensures
        indexed(work_model::pruned(q)),
{
    let forward = q.forward.filter(|r: RangeRequest| !work_model::covers(q.covered, r));
    let active = vec_map::filtered(
        q.active,
        |r: RangeRequest, s: HeaderWorkState|
            s is Committing || !work_model::covers(q.covered, r),
    );
    lemma_lane_filter(
        q.forward,
        RangePriority::Forward,
        |r: RangeRequest| !work_model::covers(q.covered, r),
    );
    lemma_active_subset(q.active, active);
    lemma_reindexed(
        QueueView {
            forward,
            active,
            oldest_missing_since: if forward.len() == 0 && active == Map::<
                RangeRequest,
                HeaderWorkState,
            >::empty() {
                None
            } else {
                q.oldest_missing_since
            },
            ..q
        },
    );
}

/// After covered work was dropped, no pending forward work and no active work is covered, except
/// for work that the state is committing, and all of that is still there.
pub proof fn prune_drops_covered_work_except_commits(q: QueueView)
    requires
        indexed(q),
    ensures
        ({
            let e = work_model::pruned(q);
            &&& forall|i: int|
                0 <= i < e.forward.len() ==> !work_model::covers(
                    q.covered,
                    #[trigger] e.forward[i],
                )
            &&& forall|r: RangeRequest| #[trigger]
                e.active.contains_key(r) <==> q.active.contains_key(r) && (q.active[r]
                    is Committing || !work_model::covers(q.covered, r))
            &&& forall|r: RangeRequest| #[trigger]
                e.active.contains_key(r) ==> e.active[r] == q.active[r]
            &&& e.authenticate_roots == q.authenticate_roots
        }),
{
    lemma_lane_filter(
        q.forward,
        RangePriority::Forward,
        |r: RangeRequest| !work_model::covers(q.covered, r),
    );
}

/// Noticing what is due keeps starts in order.
pub proof fn maintenance_keeps_index(q: QueueView, now: Instant)
    requires
        indexed(q),
    ensures
        indexed(work_model::maintained(q, now)),
{
    let e = work_model::maintained(q, now);
    assert(e.pending_starts =~= work_model::reindexed(e).pending_starts);
    assert(e.active_starts =~= work_model::reindexed(e).active_starts);
}

/// The first work that starts at a height is in the lane.
proof fn lemma_first_starting_at(lane: Seq<RangeRequest>, start: Height, i: int)
    requires
        0 <= i,
    ensures
        work_model::first_starting_at(lane, start, i) matches Some(j) ==> i <= j < lane.len(),
    decreases lane.len() - i,
{
    if i < lane.len() {
        lemma_first_starting_at(lane, start, i + 1);
    }
}

/// Dropping an anchor keeps where the work of a lane starts.
proof fn lemma_unanchored_lane(
    lane: Seq<RangeRequest>,
    priority: RangePriority,
    start: Height,
    anchor_hash: BlockHash,
)
    requires
        lane_ok(lane, priority),
    ensures
        lane_ok(work_model::unanchored_lane(lane, start, anchor_hash), priority),
        forall|k: StartKey| #[trigger]
            work_model::lane_has_key(work_model::unanchored_lane(lane, start, anchor_hash), k)
                == work_model::lane_has_key(lane, k),
{
    lemma_first_starting_at(lane, start, 0);
    let e = work_model::unanchored_lane(lane, start, anchor_hash);
    assert(e.len() == lane.len());
    assert forall|i: int| 0 <= i < lane.len() implies (#[trigger] e[i]).priority == lane[i].priority
        && e[i].range == lane[i].range by {
    }
    assert forall|k: StartKey| #[trigger]
        work_model::lane_has_key(e, k) == work_model::lane_has_key(lane, k) by {
        if work_model::lane_has_key(lane, k) {
            let j = choose|j: int|
                0 <= j < lane.len() && work_model::key_of(#[trigger] lane[j]) == k;
            assert(work_model::key_of(e[j]) == k);
        }
        if work_model::lane_has_key(e, k) {
            let j = choose|j: int| 0 <= j < e.len() && work_model::key_of(#[trigger] e[j]) == k;
            assert(work_model::key_of(lane[j]) == k);
        }
    }
}

/// Dropping an anchor keeps starts in order.
pub proof fn unanchor_keeps_index(
    q: QueueView,
    priority: RangePriority,
    start: Height,
    anchor_hash: BlockHash,
)
    requires
        indexed(q),
    ensures
        indexed(work_model::unanchored(q, priority, start, anchor_hash)),
{
    let e = work_model::unanchored(q, priority, start, anchor_hash);
    lemma_unanchored_lane(q.forward, RangePriority::Forward, start, anchor_hash);
    lemma_unanchored_lane(
        q.authenticate_roots,
        RangePriority::AuthenticateRoots,
        start,
        anchor_hash,
    );
    assert(e.pending_starts =~= work_model::reindexed(e).pending_starts);
    assert(e.active_starts =~= work_model::reindexed(e).active_starts);
}

/// Whether at most one work of a lane has the height above `height`, as a lane of disjoint work
/// does.
pub open spec fn one_crosses(lane: Seq<RangeRequest>, height: Height) -> bool {
    forall|i: int, j: int|
        0 <= i < lane.len() && 0 <= j < lane.len() && (#[trigger] lane[i]).first() <= height.0 + 1
            <= lane[i].last() && (#[trigger] lane[j]).first() <= height.0 + 1 <= lane[j].last()
            ==> i == j
}

/// What is left of a lane above a height starts above it, ends where it did, and comes from the
/// lane.
#[verifier::spinoff_prover]
#[verifier::rlimit(50)]
proof fn lemma_trimmed_lane(lane: Seq<RangeRequest>, height: Height, anchor_hash: BlockHash)
    requires
        lane_ok(lane, RangePriority::Forward),
        one_crosses(lane, height),
        forall|i: int|
            0 <= i < lane.len() ==> (#[trigger] lane[i]).first() <= lane[i].last() <= u32::MAX,
    ensures
        ({
            let e = work_model::trimmed_lane(lane, height, anchor_hash);
            &&& lane_ok(e, RangePriority::Forward)
            &&& forall|i: int|
                0 <= i < e.len() ==> height.0 < (#[trigger] e[i]).first() && exists|j: int|
                    0 <= j < lane.len() && {
                        let r = #[trigger] lane[j];
                        ||| e[i] == r
                        ||| e[i].first() == height.0 + 1 && r.first() <= height.0 < r.last()
                    }
        }),
    decreases lane.len(),
{
    if lane.len() > 0 {
        let init = lane.drop_last();
        let last = lane.last();
        let n = lane.len() - 1;
        assert forall|i: int| 0 <= i < init.len() implies #[trigger] init[i] == lane[i] by {
        }
        assert(lane[n] == last);
        lemma_trimmed_lane(init, height, anchor_hash);
        let rest = work_model::trimmed_lane(init, height, anchor_hash);
        let more = work_model::trimmed_range(last, height, anchor_hash);
        let all = work_model::trimmed_lane(lane, height, anchor_hash);
        assert(all == rest + more);
        if last.first() <= height.0 && height.0 < last.last() {
            CheckedHeaderRange::lemma_spec_from(
                (height.0 + 1) as u32,
                (last.last() - height.0) as u32,
            );
        }
        if more.len() > 0 {
            let m = more[0];
            assert(more =~= seq![m]);
            assert(m == last || m.first() == height.0 + 1 && last.first() <= height.0
                < last.last());
            assert(m.priority == RangePriority::Forward);
            assert(height.0 < m.first());
            assert forall|i: int| 0 <= i < rest.len() implies (#[trigger] rest[i]).first()
                != m.first() by {
                let j = choose|j: int|
                    0 <= j < init.len() && {
                        let r = #[trigger] init[j];
                        ||| rest[i] == r
                        ||| rest[i].first() == height.0 + 1 && r.first() <= height.0 < r.last()
                    };
                assert(lane[j] == init[j]);
                if rest[i].first() == m.first() {
                    assert(lane[j].first() <= lane[j].last());
                    assert(lane[n].first() <= lane[n].last());
                    if m == last && rest[i] == init[j] {
                        assert(lane[j].first() != lane[n].first());
                    }
                }
            }
        }
        assert forall|i: int| 0 <= i < all.len() implies height.0 < (#[trigger] all[i]).first()
            && exists|j: int|
            0 <= j < lane.len() && {
                let r = #[trigger] lane[j];
                ||| all[i] == r
                ||| all[i].first() == height.0 + 1 && r.first() <= height.0 < r.last()
            } by {
            if i < rest.len() {
                assert(all[i] == rest[i]);
                let j = choose|j: int|
                    0 <= j < init.len() && {
                        let r = #[trigger] init[j];
                        ||| rest[i] == r
                        ||| rest[i].first() == height.0 + 1 && r.first() <= height.0 < r.last()
                    };
                assert(lane[j] == init[j]);
            } else {
                assert(all[i] == more[0]);
                assert(lane[n] == last);
            }
        }
        assert forall|i: int| 0 <= i < all.len() implies (#[trigger] all[i]).priority
            == RangePriority::Forward by {
            if i < rest.len() {
                assert(all[i] == rest[i]);
            } else {
                assert(all[i] == more[0]);
            }
        }
        assert forall|i: int, j: int| 0 <= i < j < all.len() implies (#[trigger] all[i]).first()
            != (#[trigger] all[j]).first() by {
            assert(all[i] == rest[i]);
            if j < rest.len() {
                assert(all[j] == rest[j]);
            } else {
                assert(all[j] == more[0]);
            }
        }
    }
}

/// Cutting pending forward work down to the heights above a height keeps starts in order, if at
/// most one pending work has the next height.
pub proof fn trim_keeps_index(q: QueueView, height: Height, anchor_hash: BlockHash)
    requires
        indexed(q),
        one_crosses(q.forward, height),
        forall|i: int|
            0 <= i < q.forward.len() ==> (#[trigger] q.forward[i]).first() <= q.forward[i].last()
                <= u32::MAX,
    ensures
        indexed(work_model::trimmed(q, height, anchor_hash)),
{
    lemma_trimmed_lane(q.forward, height, anchor_hash);
    lemma_reindexed(
        QueueView { forward: work_model::trimmed_lane(q.forward, height, anchor_hash), ..q },
    );
}

/// What is left of a lane above a height starts above it.
proof fn lemma_trimmed_lane_above(lane: Seq<RangeRequest>, height: Height, anchor_hash: BlockHash)
    requires
        forall|i: int|
            0 <= i < lane.len() ==> (#[trigger] lane[i]).first() <= lane[i].last() <= u32::MAX,
    ensures
        forall|i: int|
            0 <= i < work_model::trimmed_lane(lane, height, anchor_hash).len() ==> height.0 < (
            #[trigger] work_model::trimmed_lane(lane, height, anchor_hash)[i]).first(),
    decreases lane.len(),
{
    if lane.len() > 0 {
        let last = lane.last();
        lemma_trimmed_lane_above(lane.drop_last(), height, anchor_hash);
        assert(last == lane[lane.len() - 1]);
        if last.first() <= height.0 < last.last() {
            CheckedHeaderRange::lemma_spec_from(
                (height.0 + 1) as u32,
                (last.last() - height.0) as u32,
            );
        }
        let init = work_model::trimmed_lane(lane.drop_last(), height, anchor_hash);
        let rest = work_model::trimmed_range(last, height, anchor_hash);
        let e = work_model::trimmed_lane(lane, height, anchor_hash);
        assert(e == init + rest);
        assert forall|i: int| 0 <= i < e.len() implies height.0 < (#[trigger] e[i]).first() by {
            if i < init.len() {
                assert(e[i] == init[i]);
            } else {
                assert(e[i] == rest[i - init.len()]);
            }
        }
    }
}

/// Cutting pending forward work down to the heights above a height leaves only work above it.
pub proof fn trim_leaves_work_above(q: QueueView, height: Height, anchor_hash: BlockHash)
    requires
        forall|i: int|
            0 <= i < q.forward.len() ==> (#[trigger] q.forward[i]).first() <= q.forward[i].last()
                <= u32::MAX,
    ensures
        forall|i: int|
            0 <= i < work_model::trimmed(q, height, anchor_hash).forward.len() ==> height.0 < (
            #[trigger] work_model::trimmed(q, height, anchor_hash).forward[i]).first(),
{
    lemma_trimmed_lane_above(q.forward, height, anchor_hash);
}

/// Covered ranges cover all heights of forward work exactly if one of them does.
pub proof fn covered_work_is_covered_height_by_height(
    covered: Seq<CoveredRange>,
    range: RangeRequest,
)
    requires
        work_model::covered_wf(covered),
        range.priority != RangePriority::AuthenticateRoots,
        range.first() <= range.last(),
    ensures
        work_model::covers(covered, range) <==> forall|h: int|
            range.first() <= h <= range.last() ==> #[trigger] work_model::height_covered(
                covered,
                h,
            ),
{
    if work_model::covers(covered, range) {
        let i = choose|i: int|
            0 <= i < covered.len() && (#[trigger] covered[i]).start.0 <= range.first()
                && covered[i].end.0 >= range.last();
        assert forall|h: int| range.first() <= h <= range.last() implies #[trigger]
            work_model::height_covered(covered, h) by {
            assert(covered[i].start.0 <= h <= covered[i].end.0);
        }
    }
    if forall|h: int|
        range.first() <= h <= range.last() ==> #[trigger] work_model::height_covered(covered, h) {
        let first = range.first() as int;
        assert(work_model::height_covered(covered, first));
        let i = choose|i: int|
            0 <= i < covered.len() && (#[trigger] covered[i]).start.0 <= first
                <= covered[i].end.0;
        if covered[i].end.0 < range.last() {
            let next = covered[i].end.0 + 1;
            assert(work_model::height_covered(covered, next));
            let j = choose|j: int|
                0 <= j < covered.len() && (#[trigger] covered[j]).start.0 <= next
                    <= covered[j].end.0;
            if i < j {
                assert(covered[i].end.0 + 1 < covered[j].start.0);
            } else if j < i {
                assert(covered[j].end.0 + 1 < covered[i].start.0);
            }
            assert(false);
        }
    }
}

/// There is one way to keep covered heights: lists of covered ranges that cover the same heights
/// are the same.
#[verifier::spinoff_prover]
#[verifier::rlimit(50)]
pub proof fn covered_ranges_are_unique(a: Seq<CoveredRange>, b: Seq<CoveredRange>)
    requires
        work_model::covered_wf(a),
        work_model::covered_wf(b),
        forall|h: int| #[trigger]
            work_model::height_covered(a, h) <==> work_model::height_covered(b, h),
    ensures
        a == b,
    decreases a.len(),
{
    if a.len() == 0 {
        if b.len() > 0 {
            let h = b[0].start.0 as int;
            assert(b[0].start.0 <= h <= b[0].end.0);
            assert(work_model::height_covered(b, h));
            assert(work_model::height_covered(a, h));
        }
        assert(a =~= b);
    } else if b.len() == 0 {
        let h = a[0].start.0 as int;
        assert(a[0].start.0 <= h <= a[0].end.0);
        assert(work_model::height_covered(a, h));
        assert(work_model::height_covered(b, h));
    } else {
        lemma_first_range_starts_first(a, b);
        lemma_first_range_starts_first(b, a);
        lemma_first_range_ends_first(a, b);
        lemma_first_range_ends_first(b, a);
        let ra = a.drop_first();
        let rb = b.drop_first();
        assert forall|h: int| #[trigger]
            work_model::height_covered(ra, h) <==> work_model::height_covered(rb, h) by {
            lemma_rest_covered(a, h);
            lemma_rest_covered(b, h);
            assert(work_model::height_covered(a, h) <==> work_model::height_covered(b, h));
        }
        assert(forall|i: int| 0 <= i < ra.len() ==> #[trigger] ra[i] == a[i + 1]);
        assert(forall|i: int| 0 <= i < rb.len() ==> #[trigger] rb[i] == b[i + 1]);
        covered_ranges_are_unique(ra, rb);
        assert(a =~= seq![a[0]] + ra);
        assert(b =~= seq![b[0]] + rb);
    }
}

/// What all but the first covered range cover.
proof fn lemma_rest_covered(a: Seq<CoveredRange>, h: int)
    requires
        work_model::covered_wf(a),
        a.len() > 0,
    ensures
        work_model::height_covered(a.drop_first(), h) <==> work_model::height_covered(a, h)
            && !(a[0].start.0 <= h <= a[0].end.0),
{
    let rest = a.drop_first();
    if work_model::height_covered(rest, h) {
        let i = choose|i: int|
            0 <= i < rest.len() && (#[trigger] rest[i]).start.0 <= h <= rest[i].end.0;
        assert(a[i + 1] == rest[i]);
        assert(a[0].end.0 + 1 < a[i + 1].start.0);
    }
    if work_model::height_covered(a, h) && !(a[0].start.0 <= h <= a[0].end.0) {
        let i = choose|i: int| 0 <= i < a.len() && (#[trigger] a[i]).start.0 <= h <= a[i].end.0;
        assert(rest[i - 1] == a[i]);
    }
}

proof fn lemma_first_range_starts_first(a: Seq<CoveredRange>, b: Seq<CoveredRange>)
    requires
        work_model::covered_wf(a),
        work_model::covered_wf(b),
        a.len() > 0,
        b.len() > 0,
        forall|h: int| #[trigger]
            work_model::height_covered(a, h) <==> work_model::height_covered(b, h),
    ensures
        a[0].start.0 <= b[0].start.0,
{
    let h = b[0].start.0 as int;
    assert(b[0].start.0 <= h <= b[0].end.0);
    assert(work_model::height_covered(b, h));
    assert(work_model::height_covered(a, h));
    let i = choose|i: int| 0 <= i < a.len() && (#[trigger] a[i]).start.0 <= h <= a[i].end.0;
    if i > 0 {
        assert(a[0].end.0 + 1 < a[i].start.0);
    }
}

proof fn lemma_first_range_ends_first(a: Seq<CoveredRange>, b: Seq<CoveredRange>)
    requires
        work_model::covered_wf(a),
        work_model::covered_wf(b),
        a.len() > 0,
        b.len() > 0,
        a[0].start == b[0].start,
        forall|h: int| #[trigger]
            work_model::height_covered(a, h) <==> work_model::height_covered(b, h),
    ensures
        a[0].end.0 <= b[0].end.0,
{
    if b[0].end.0 < a[0].end.0 {
        let h = b[0].end.0 + 1;
        assert(a[0].start.0 <= h <= a[0].end.0);
        assert(work_model::height_covered(a, h));
        assert(work_model::height_covered(b, h));
        let j = choose|j: int| 0 <= j < b.len() && (#[trigger] b[j]).start.0 <= h <= b[j].end.0;
        if j > 0 {
            assert(b[0].end.0 + 1 < b[j].start.0);
        }
        assert(false);
    }
}

/// Covered work does not become pending, neither by being added nor by being put back.
pub proof fn covered_work_stays_away(q: QueueView, range: RangeRequest, now: Instant)
    requires
        work_model::covers(q.covered, range),
    ensures
        work_model::ensured(q, range, range.priority, now) == q,
        work_model::retried(q, range).forward == q.forward,
        work_model::retried(q, range).authenticate_roots == q.authenticate_roots,
{
}

/// Work that is put back, is not covered and belongs to a lane is pending at its first height.
pub proof fn retried_work_is_pending(q: QueueView, range: RangeRequest)
    requires
        !work_model::covers(q.covered, range),
        range.priority != RangePriority::Repair,
    ensures
        work_model::retried(q, range).pending_starts.contains(work_model::key_of(range)),
        !work_model::retried(q, range).active.contains_key(range),
{
}

/// Work that a peer is given is the first of its lane that it can be asked for: it was pending,
/// the peer has advertised its last height, it does not back off, and the peer is not kept from
/// it. Forward work is given only if no root authentication could be.
pub proof fn next_work_is_assignable(
    q: QueueView,
    peer: ZakuraPeerId,
    tip: Height,
    allow_root_auth: bool,
    now: Instant,
)
    ensures
        ({
            let (e, taken) = work_model::next_taken(q, peer, tip, allow_root_auth, now);
            match taken {
                Some(r) => {
                    &&& work_model::assignable(q, peer, tip, now, r)
                    &&& q.forward.contains(r) || allow_root_auth && q.authenticate_roots.contains(r)
                    &&& e.forward != q.forward && allow_root_auth ==> forall|i: int|
                        0 <= i < q.authenticate_roots.len() ==> !work_model::assignable(
                            q,
                            peer,
                            tip,
                            now,
                            #[trigger] q.authenticate_roots[i],
                        )
                },
                None => {
                    &&& forall|i: int|
                        0 <= i < q.forward.len() ==> !work_model::assignable(
                            q,
                            peer,
                            tip,
                            now,
                            #[trigger] q.forward[i],
                        )
                    &&& allow_root_auth ==> forall|i: int|
                        0 <= i < q.authenticate_roots.len() ==> !work_model::assignable(
                            q,
                            peer,
                            tip,
                            now,
                            #[trigger] q.authenticate_roots[i],
                        )
                },
            }
        }),
{
    let p = work_model::purged(q, now);
    assert forall|r: RangeRequest| #[trigger]
        work_model::assignable(p, peer, tip, now, r) == work_model::assignable(
            q,
            peer,
            tip,
            now,
            r,
        ) by {
    }
    lemma_first_assignable(p, p.authenticate_roots, peer, tip, now, 0);
    lemma_first_assignable(p, p.forward, peer, tip, now, 0);
}

/// Keeping one peer from work keeps no other peer from it, and no peer from other work.
pub proof fn avoidance_is_local(
    q: QueueView,
    peer: ZakuraPeerId,
    range: RangeRequest,
    until: Instant,
    other_peer: ZakuraPeerId,
    other_range: RangeRequest,
    now: Instant,
)
    ensures
        ({
            let e = work_model::retried_avoiding(q, peer, range, until);
            &&& work_model::avoided(e, peer, range, now) == until.later_than(now)
            &&& other_peer != peer || work_model::key_of(other_range) != work_model::key_of(range)
                ==> work_model::avoided(e, other_peer, other_range, now) == work_model::avoided(
                q,
                other_peer,
                other_range,
                now,
            )
        }),
{
}

/// Work that was put off backs off from the instant on until its backoff is over, and no longer.
pub proof fn delayed_work_backs_off(q: QueueView, range: RangeRequest, now: Instant, at: Instant)
    requires
        now.nanos + 30_000_000_000 <= u128::MAX,
    ensures
        work_model::backing_off(work_model::retried_delayed(q, range, now), range, at) <==> at.nanos
            < now.nanos + work_model::backoff_seconds(work_model::next_attempts(q, range))
            * 1_000_000_000,
{
}

/// A backoff lasts one second at first, twice as long each further time, and never more than
/// thirty seconds.
pub proof fn backoff_doubles_up_to_thirty_seconds(attempts: u32)
    requires
        1 <= attempts < u32::MAX,
    ensures
        work_model::backoff_seconds(1) == 1,
        work_model::backoff_seconds((attempts + 1) as u32) == (if 2 * work_model::backoff_seconds(
            attempts,
        ) < 30 {
            2 * work_model::backoff_seconds(attempts)
        } else {
            30
        }),
{
}

/// What is due asks for maintenance once: after it was noticed, the next maintenance is later.
pub proof fn maintenance_is_not_due_again(q: QueueView, now: Instant, at: Instant)
    requires
        work_model::is_deadline(work_model::maintained(q, now), now, at),
    ensures
        at.later_than(now),
{
    let m = work_model::maintained(q, now);
    let mm = work_model::maintained(m, now);
    assert forall|k: StartKey| #[trigger] m.delayed_retries.contains_key(k) implies
        !work_model::is_due(m.delayed_retries[k], now) by {
    }
    if exists|k: StartKey| #[trigger]
        mm.delayed_retries.contains_key(k) && mm.delayed_retries[k].until == Some(at) {
        let k = choose|k: StartKey| #[trigger]
            mm.delayed_retries.contains_key(k) && mm.delayed_retries[k].until == Some(at);
        assert(m.delayed_retries.contains_key(k));
    }
}

/// After an event has passed, the next passes exactly when the interval is over.
pub proof fn meter_spaces_events(meter: RateMeter, now: Instant, at: Instant)
    requires
        now.nanos + meter.interval.nanos <= u128::MAX,
    ensures
        ({
            let after = RateMeter { next_allowed: now.spec_after(meter.interval), ..meter };
            !after.next_allowed.later_than(at) <==> at.nanos >= now.nanos + meter.interval.nanos
        }),
{
}

/// Taking out one piece of work takes out its heights.
proof fn lemma_total_heights_remove(ranges: Seq<RangeRequest>, i: int)
    requires
        0 <= i < ranges.len(),
    ensures
        work_model::total_heights(ranges) == work_model::total_heights(ranges.remove(i))
            + ranges[i].range.len(),
    decreases ranges.len(),
{
    if i == ranges.len() - 1 {
        assert(ranges.remove(i) =~= ranges.drop_last());
    } else {
        lemma_total_heights_remove(ranges.drop_last(), i);
        assert(ranges.remove(i).drop_last() =~= ranges.drop_last().remove(i));
        assert(ranges.remove(i).last() == ranges.last());
    }
}

/// How many heights are active does not depend on the order in which they are counted.
#[verifier::spinoff_prover]
#[verifier::rlimit(50)]
pub proof fn active_heights_do_not_depend_on_order(
    active: Map<RangeRequest, HeaderWorkState>,
    a: Seq<RangeRequest>,
    b: Seq<RangeRequest>,
)
    requires
        work_model::enumerates(active, a),
        work_model::enumerates(active, b),
    ensures
        work_model::total_heights(a) == work_model::total_heights(b),
    decreases a.len(),
{
    if a.len() == 0 {
        if b.len() > 0 {
            assert(b.contains(b[0]));
            assert(a.contains(b[0]));
        }
    } else {
        let r = a.last();
        assert(a[a.len() - 1] == r);
        assert(a.contains(r));
        assert(b.contains(r));
        let i = choose|i: int| 0 <= i < b.len() && b[i] == r;
        let rest_a = a.drop_last();
        let rest_b = b.remove(i);
        let rest = active.remove(r);
        assert forall|x: RangeRequest| #[trigger] rest_a.contains(x) <==> rest.contains_key(x) by {
            if rest_a.contains(x) {
                let j = choose|j: int| 0 <= j < rest_a.len() && rest_a[j] == x;
                assert(a[j] == x);
                assert(a.contains(x));
            }
            if rest.contains_key(x) {
                assert(a.contains(x));
                let j = choose|j: int| 0 <= j < a.len() && a[j] == x;
                assert(rest_a[j] == x);
            }
        }
        assert forall|x: RangeRequest| #[trigger] rest_b.contains(x) <==> rest.contains_key(x) by {
            if rest_b.contains(x) {
                let j = choose|j: int| 0 <= j < rest_b.len() && rest_b[j] == x;
                let j0 = if j < i {
                    j
                } else {
                    j + 1
                };
                assert(b[j0] == x);
                assert(b.contains(x));
            }
            if rest.contains_key(x) {
                assert(b.contains(x));
                let j = choose|j: int| 0 <= j < b.len() && b[j] == x;
                let j1 = if j < i {
                    j
                } else {
                    j - 1
                };
                assert(rest_b[j1] == x);
            }
        }
        active_heights_do_not_depend_on_order(rest, rest_a, rest_b);
        lemma_total_heights_remove(b, i);
    }
}

/// A finite set in some order holds each of its elements once.
proof fn lemma_to_seq_enumerates(s: Set<RangeRequest>)
    requires
        s.finite(),
    ensures
        s.to_seq().no_duplicates(),
        forall|r: RangeRequest| #[trigger] s.to_seq().contains(r) <==> s.contains(r),
    decreases s.len(),
{
    s.lemma_to_seq_to_set_id();
    assert forall|r: RangeRequest| #[trigger] s.to_seq().contains(r) <==> s.contains(r) by {
        assert(s.to_seq().to_set().contains(r) <==> s.contains(r));
    }
    if s.len() > 0 {
        let x = s.choose();
        let rest = s.remove(x).to_seq();
        lemma_to_seq_enumerates(s.remove(x));
        assert(!rest.contains(x));
        assert(s.to_seq() =~= seq![x] + rest);
        assert forall|i: int, j: int|
            0 <= i < s.to_seq().len() && 0 <= j < s.to_seq().len() && i != j implies s.to_seq()[i]
            != s.to_seq()[j] by {
            if i == 0 {
                assert(rest.contains(rest[j - 1]));
            } else if j == 0 {
                assert(rest.contains(rest[i - 1]));
            }
        }
    }
}

/// Counting the pieces of active work one by one, in any order, gives the number of active
/// heights.
pub proof fn active_heights_are_those_counted(
    active: Map<RangeRequest, HeaderWorkState>,
    keys: Seq<RangeRequest>,
)
    requires
        work_model::enumerates(active, keys),
    ensures
        work_model::total_heights(keys) == work_model::total_heights(active.dom().to_seq()),
{
    assert(active.dom() =~= keys.to_set());
    vstd::seq_lib::seq_to_set_is_finite(keys);
    lemma_to_seq_enumerates(active.dom());
    active_heights_do_not_depend_on_order(active, keys, active.dom().to_seq());
}

} // verus!
