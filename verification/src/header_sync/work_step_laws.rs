//! What each operation of the header work queue changes, and that it changes nothing else.
use vstd::prelude::*;

use crate::chain::Height;
use crate::header_sync::ids::{HeaderSyncOperationIdentity, ZakuraPeerId};
use crate::header_sync::range::{RangePriority, RangeRequest};
use crate::header_sync::work_laws;
use crate::header_sync::work_model;
use crate::header_sync::work_model::{
    AvoidKey, CoveredRange, HeaderWorkState, QueueView, StartKey,
};
use crate::header_sync::work_owner_laws;
use crate::time::Instant;

verus! {

/// Where a piece of work starts, and in which lane.
pub open spec fn start_of(r: RangeRequest) -> StartKey {
    StartKey { start: Height(r.first()), priority: r.priority }
}

/// Whether some piece of work of a lane starts where `key` says.
pub open spec fn starts_in(lane: Seq<RangeRequest>, key: StartKey) -> bool {
    exists|i: int| 0 <= i < lane.len() && start_of(#[trigger] lane[i]) == key
}

/// Whether some active piece of work starts where `key` says.
pub open spec fn starts_active(
    active: Map<RangeRequest, HeaderWorkState>,
    key: StartKey,
) -> bool {
    exists|r: RangeRequest| #[trigger] active.contains_key(r) && start_of(r) == key
}

/// Whether a covered range holds all heights of a piece of work that coverage ends.
pub open spec fn done_with(covered: Seq<CoveredRange>, r: RangeRequest) -> bool {
    r.priority != RangePriority::AuthenticateRoots && exists|i: int|
        0 <= i < covered.len() && (#[trigger] covered[i]).start.0 <= r.first() && r.last()
            <= covered[i].end.0
}

/// Whether a covered range holds a height.
pub open spec fn holds_height(covered: Seq<CoveredRange>, h: int) -> bool {
    exists|i: int|
        0 <= i < covered.len() && (#[trigger] covered[i]).start.0 <= h && h <= covered[i].end.0
}

/// Whether a peer cannot be asked for a piece of work at an instant: the work ends above the tip
/// that the peer has advertised, it backs off until later, or the peer is kept from it until
/// later.
pub open spec fn held_back(
    q: QueueView,
    peer: ZakuraPeerId,
    tip: Height,
    now: Instant,
    r: RangeRequest,
) -> bool {
    let key = start_of(r);
    let avoid = AvoidKey { peer, work: key };
    ||| r.last() > tip.0
    ||| {
        &&& q.delayed_retries.contains_key(key)
        &&& q.delayed_retries[key].until is Some
        &&& (q.delayed_retries[key].until->0).nanos > now.nanos
    }
    ||| q.retry_avoidance.contains_key(avoid) && q.retry_avoidance[avoid].nanos > now.nanos
}

/// Whether `rest` is `lane` without the piece of work `r` at place `i`, in the same order.
pub open spec fn without(
    lane: Seq<RangeRequest>,
    rest: Seq<RangeRequest>,
    r: RangeRequest,
    i: int,
) -> bool {
    &&& 0 <= i < lane.len()
    &&& lane[i] == r
    &&& rest == lane.take(i) + lane.skip(i + 1)
}

/// Handing out work removes from the queue only the work that is handed out: the lane that it came
/// from is what it was without that piece of work, the other lane is unchanged, and a start is
/// pending afterwards exactly if it was and is not that of the work. The work is the first of its
/// lane that is not held back, and forward work is handed out only if no root authentication can
/// be. Nothing is handed out, and no lane changes, exactly if all of it is held back. Nothing else
/// changes, but avoidances that are over are forgotten.
#[verifier::spinoff_prover]
#[verifier::rlimit(50)]
pub proof fn handing_out_removes_only_what_is_given(
    q: QueueView,
    peer: ZakuraPeerId,
    tip: Height,
    allow_root_auth: bool,
    now: Instant,
)
    ensures
        ({
            let (e, given) = work_model::next_taken(q, peer, tip, allow_root_auth, now);
            let no_roots = allow_root_auth ==> forall|j: int|
                0 <= j < q.authenticate_roots.len() ==> held_back(
                    q,
                    peer,
                    tip,
                    now,
                    #[trigger] q.authenticate_roots[j],
                );
            &&& e == (QueueView {
                forward: e.forward,
                authenticate_roots: e.authenticate_roots,
                pending_starts: e.pending_starts,
                retry_avoidance: e.retry_avoidance,
                ..q
            })
            &&& forall|k: AvoidKey| #[trigger]
                e.retry_avoidance.contains_key(k) <==> q.retry_avoidance.contains_key(k)
                    && q.retry_avoidance[k].nanos > now.nanos
            &&& forall|k: AvoidKey| #[trigger]
                e.retry_avoidance.contains_key(k) ==> e.retry_avoidance[k] == q.retry_avoidance[k]
            &&& match given {
                None => {
                    &&& e.forward == q.forward
                    &&& e.authenticate_roots == q.authenticate_roots
                    &&& e.pending_starts == q.pending_starts
                    &&& no_roots
                    &&& forall|j: int|
                        0 <= j < q.forward.len() ==> held_back(
                            q,
                            peer,
                            tip,
                            now,
                            #[trigger] q.forward[j],
                        )
                },
                Some(r) => {
                    &&& !held_back(q, peer, tip, now, r)
                    &&& forall|k: StartKey| #[trigger]
                        e.pending_starts.contains(k) <==> q.pending_starts.contains(k) && k
                            != start_of(r)
                    &&& {
                        ||| e.authenticate_roots == q.authenticate_roots && no_roots && exists|
                            i: int,
                        | #[trigger]
                            without(q.forward, e.forward, r, i) && forall|j: int|
                                0 <= j < i ==> held_back(
                                    q,
                                    peer,
                                    tip,
                                    now,
                                    #[trigger] q.forward[j],
                                )
                        ||| e.forward == q.forward && allow_root_auth && exists|i: int| #[trigger]
                            without(q.authenticate_roots, e.authenticate_roots, r, i) && forall|
                                j: int,
                            |
                                0 <= j < i ==> held_back(
                                    q,
                                    peer,
                                    tip,
                                    now,
                                    #[trigger] q.authenticate_roots[j],
                                )
                    }
                },
            }
        }),
{
    let p = work_model::purged(q, now);
    let (e, given) = work_model::next_taken(q, peer, tip, allow_root_auth, now);
    assert forall|r: RangeRequest| #[trigger]
        work_model::assignable(p, peer, tip, now, r) == !held_back(q, peer, tip, now, r) by {
    }
    work_laws::lemma_first_assignable(p, p.authenticate_roots, peer, tip, now, 0);
    work_laws::lemma_first_assignable(p, p.forward, peer, tip, now, 0);
    let auth = work_model::first_assignable(p, p.authenticate_roots, peer, tip, now, 0);
    let ahead = work_model::first_assignable(p, p.forward, peer, tip, now, 0);
    if allow_root_auth && auth is Some {
        let i = auth->0;
        assert(e.authenticate_roots =~= q.authenticate_roots.take(i) + q.authenticate_roots.skip(
            i + 1,
        ));
        assert(without(q.authenticate_roots, e.authenticate_roots, given->0, i));
    } else if ahead is Some {
        let i = ahead->0;
        assert(e.forward =~= q.forward.take(i) + q.forward.skip(i + 1));
        assert(without(q.forward, e.forward, given->0, i));
    }
    assert(e =~= QueueView {
        forward: e.forward,
        authenticate_roots: e.authenticate_roots,
        pending_starts: e.pending_starts,
        retry_avoidance: e.retry_avoidance,
        ..q
    });
}

/// Dropping covered work keeps exactly the pending forward work that no covered range holds, in
/// its order, and exactly the active work that is being committed or that no covered range holds.
/// Root authentication stays. Starts are those of what is left, and nothing is missing any more
/// exactly if no forward and no active work is left.
#[verifier::spinoff_prover]
#[verifier::rlimit(50)]
pub proof fn pruning_keeps_what_is_not_covered(q: QueueView)
    ensures
        ({
            let e = work_model::pruned(q);
            &&& e.forward == q.forward.filter(|r: RangeRequest| !done_with(q.covered, r))
            &&& forall|r: RangeRequest| #[trigger]
                e.forward.contains(r) <==> q.forward.contains(r) && !done_with(q.covered, r)
            &&& e.authenticate_roots == q.authenticate_roots
            &&& forall|r: RangeRequest| #[trigger]
                e.active.contains_key(r) <==> q.active.contains_key(r) && (q.active[r]
                    is Committing || !done_with(q.covered, r))
            &&& forall|r: RangeRequest| #[trigger]
                e.active.contains_key(r) ==> e.active[r] == q.active[r]
            &&& forall|k: StartKey| #[trigger]
                e.pending_starts.contains(k) <==> starts_in(e.forward, k) || starts_in(
                    e.authenticate_roots,
                    k,
                )
            &&& forall|k: StartKey| #[trigger]
                e.active_starts.contains(k) <==> starts_active(e.active, k)
            &&& e.oldest_missing_since == (if e.forward.len() == 0 && (forall|r: RangeRequest|
                !#[trigger] e.active.contains_key(r)) {
                None
            } else {
                q.oldest_missing_since
            })
            &&& e.retry_avoidance == q.retry_avoidance
            &&& e.delayed_retries == q.delayed_retries
            &&& e.covered == q.covered
            &&& e.epoch == q.epoch
        }),
{
    let e = work_model::pruned(q);
    let keep = |r: RangeRequest| !work_model::covers(q.covered, r);
    let mine = |r: RangeRequest| !done_with(q.covered, r);
    assert(keep =~= mine);
    assert forall|r: RangeRequest| #[trigger] e.forward.contains(r) <==> q.forward.contains(r)
        && !done_with(q.covered, r) by {
        if e.forward.contains(r) {
            q.forward.lemma_filter_contains_rev(mine, r);
            let i = choose|i: int| 0 <= i < e.forward.len() && e.forward[i] == r;
            q.forward.lemma_filter_pred(mine, i);
        }
        if q.forward.contains(r) && !done_with(q.covered, r) {
            let i = choose|i: int| 0 <= i < q.forward.len() && q.forward[i] == r;
            q.forward.lemma_filter_contains(mine, i);
        }
    }
    lemma_starts(e);
    if forall|r: RangeRequest| !#[trigger] e.active.contains_key(r) {
        assert(e.active =~= Map::<RangeRequest, HeaderWorkState>::empty());
    }
}

pub(crate) proof fn lemma_starts(e: QueueView)
    ensures
        forall|k: StartKey| #[trigger]
            work_model::reindexed(e).pending_starts.contains(k) <==> starts_in(e.forward, k)
                || starts_in(e.authenticate_roots, k),
        forall|k: StartKey| #[trigger]
            work_model::reindexed(e).active_starts.contains(k) <==> starts_active(e.active, k),
{
    assert forall|k: StartKey| #[trigger]
        work_model::reindexed(e).pending_starts.contains(k) <==> starts_in(e.forward, k)
            || starts_in(e.authenticate_roots, k) by {
        if starts_in(e.forward, k) {
            let i = choose|i: int|
                0 <= i < e.forward.len() && start_of(#[trigger] e.forward[i]) == k;
            assert(work_model::key_of(e.forward[i]) == k);
        }
        if starts_in(e.authenticate_roots, k) {
            let i = choose|i: int|
                0 <= i < e.authenticate_roots.len() && start_of(#[trigger] e.authenticate_roots[i])
                    == k;
            assert(work_model::key_of(e.authenticate_roots[i]) == k);
        }
        if work_model::lane_has_key(e.forward, k) {
            let i = choose|i: int|
                0 <= i < e.forward.len() && work_model::key_of(#[trigger] e.forward[i]) == k;
            assert(start_of(e.forward[i]) == k);
        }
        if work_model::lane_has_key(e.authenticate_roots, k) {
            let i = choose|i: int|
                0 <= i < e.authenticate_roots.len() && work_model::key_of(
                    #[trigger] e.authenticate_roots[i],
                ) == k;
            assert(start_of(e.authenticate_roots[i]) == k);
        }
    }
}

/// Covering a range of heights covers these and what was covered before, and nothing else, with
/// ranges that are not empty, ascend and do not touch.
pub proof fn covering_adds_exactly_its_heights(
    before: Seq<CoveredRange>,
    start: Height,
    end: Height,
    after: Seq<CoveredRange>,
    h: int,
)
    requires
        work_model::covers_more(before, start, end, after),
    ensures
        holds_height(after, h) <==> holds_height(before, h) || start.0 <= h <= end.0,
        forall|i: int| 0 <= i < after.len() ==> (#[trigger] after[i]).start.0 <= after[i].end.0,
        forall|i: int, j: int|
            0 <= i < j < after.len() ==> (#[trigger] after[i]).end.0 + 1 < (
            #[trigger] after[j]).start.0,
{
    assert(work_model::height_covered(after, h) <==> work_model::height_covered(before, h)
        || start.0 <= h <= end.0);
    assert(holds_height(after, h) <==> work_model::height_covered(after, h));
    assert(holds_height(before, h) <==> work_model::height_covered(before, h));
}

/// Work is pending or active, and so resident, in no other way than by being in a lane or owned.
/// A range has as many heights as lie from its first to its last.
pub proof fn resident_work_is_pending_or_active(q: QueueView, r: RangeRequest)
    ensures
        work_model::resident(q, r) <==> q.forward.contains(r) || q.authenticate_roots.contains(r)
            || q.active.contains_key(r),
        r.last() - r.first() + 1 == r.range.len(),
        work_model::total_heights(seq![r]) == r.last() - r.first() + 1,
{
    assert(seq![r].drop_last() =~= Seq::<RangeRequest>::empty());
    assert(work_model::total_heights(Seq::<RangeRequest>::empty()) == 0);
}

/// The heights of two runs of work are those of the one and those of the other.
pub proof fn heights_add_up(a: Seq<RangeRequest>, b: Seq<RangeRequest>)
    ensures
        work_model::total_heights(a + b) == work_model::total_heights(a)
            + work_model::total_heights(b),
        work_model::total_heights(Seq::<RangeRequest>::empty()) == 0,
    decreases b.len(),
{
    if b.len() == 0 {
        assert(a + b =~= a);
    } else {
        heights_add_up(a, b.drop_last());
        assert((a + b).drop_last() =~= a + b.drop_last());
    }
}

/// All resident heights are those of the two lanes and of the active work.
pub proof fn resident_heights_are_those_of_its_parts(q: QueueView, keys: Seq<RangeRequest>)
    requires
        keys.no_duplicates(),
        forall|r: RangeRequest| #[trigger] keys.contains(r) <==> q.active.contains_key(r),
    ensures
        work_model::resident_heights(q) == work_model::total_heights(
            q.forward + q.authenticate_roots + keys,
        ),
{
    work_laws::active_heights_are_those_counted(q.active, keys);
    heights_add_up(q.forward, q.authenticate_roots);
    heights_add_up(q.forward + q.authenticate_roots, keys);
}

/// Every active piece of work is counted once: as in flight, buffered or committing, by its owner.
pub proof fn active_work_is_counted_by_its_owner(
    active: Map<RangeRequest, HeaderWorkState>,
    r: RangeRequest,
)
    ensures
        work_model::in_flight(active).contains(r) <==> active.contains_key(r) && active[r]
            is InFlight,
        work_model::buffered(active).contains(r) <==> active.contains_key(r) && active[r]
            is Buffered,
        work_model::committing(active).contains(r) <==> active.contains_key(r) && active[r]
            is Committing,
{
}

/// Adding work puts it at the back of the lane that it is added to, unless that is no lane, the
/// work is covered, or its start in the lane is pending or active; then nothing changes. Some work
/// is missing from then on, unless some was before.
pub proof fn adding_changes_only_its_lane(
    q: QueueView,
    range: RangeRequest,
    priority: RangePriority,
    now: Instant,
)
    ensures
        ({
            let e = work_model::ensured(q, range, priority, now);
            let key = StartKey { start: Height(range.first()), priority };
            if priority == RangePriority::Repair || done_with(q.covered, range)
                || q.pending_starts.contains(key) || q.active_starts.contains(key) {
                e == q
            } else {
                &&& priority == RangePriority::Forward ==> e.forward == q.forward + seq![range]
                    && e.authenticate_roots == q.authenticate_roots
                &&& priority == RangePriority::AuthenticateRoots ==> e.authenticate_roots
                    == q.authenticate_roots + seq![range] && e.forward == q.forward
                &&& forall|k: StartKey| #[trigger]
                    e.pending_starts.contains(k) <==> q.pending_starts.contains(k) || k == key
                &&& e.oldest_missing_since == (if q.oldest_missing_since is Some {
                    q.oldest_missing_since
                } else {
                    Some(now)
                })
                &&& e == (QueueView {
                    forward: e.forward,
                    authenticate_roots: e.authenticate_roots,
                    pending_starts: e.pending_starts,
                    oldest_missing_since: e.oldest_missing_since,
                    ..q
                })
            }
        }),
{
    assert(work_model::covers(q.covered, range) == done_with(q.covered, range));
    assert(q.forward.push(range) =~= q.forward + seq![range]);
    assert(q.authenticate_roots.push(range) =~= q.authenticate_roots + seq![range]);
}

/// Whether `e` is `q` but for its active work.
pub open spec fn same_but_active(q: QueueView, e: QueueView) -> bool {
    e == (QueueView { active: e.active, active_starts: e.active_starts, ..q })
}

/// Making work active, or giving it another owner, changes the owner of that work and of no other.
pub proof fn owning_changes_one_owner(
    q: QueueView,
    range: RangeRequest,
    state: HeaderWorkState,
    operation: HeaderSyncOperationIdentity,
    other: RangeRequest,
    key: StartKey,
)
    ensures
        ({
            let a = work_model::assigned(q, range, state);
            let o = work_model::owned(q, range, state);
            let c = work_model::authenticating(q, range, operation);
            let committing = HeaderWorkState::Committing { operation };
            &&& a.active.contains_key(range) && a.active[range] == state
            &&& o.active.contains_key(range) && o.active[range] == state
            &&& c.active.contains_key(range) && c.active[range] == committing
            &&& other != range ==> {
                &&& a.active.contains_key(other) == q.active.contains_key(other)
                &&& o.active.contains_key(other) == q.active.contains_key(other)
                &&& c.active.contains_key(other) == q.active.contains_key(other)
                &&& q.active.contains_key(other) ==> a.active[other] == q.active[other]
                    && o.active[other] == q.active[other] && c.active[other] == q.active[other]
            }
            &&& a.active_starts.contains(key) <==> q.active_starts.contains(key) || key
                == start_of(range)
            &&& o.active_starts == q.active_starts
            &&& c.active_starts.contains(key) <==> q.active_starts.contains(key) || key
                == start_of(range)
            &&& c.pending_starts.contains(key) <==> q.pending_starts.contains(key) && key
                != start_of(range)
            &&& same_but_active(q, a)
            &&& same_but_active(q, o)
            &&& c == (QueueView {
                active: c.active,
                active_starts: c.active_starts,
                pending_starts: c.pending_starts,
                ..q
            })
        }),
{
}

/// Ending the ownership of work ends that of this work and of no other, and an operation ends it
/// exactly if it owns the work.
pub proof fn clearing_ends_one_ownership(
    q: QueueView,
    range: RangeRequest,
    operation: HeaderSyncOperationIdentity,
    other: RangeRequest,
    key: StartKey,
)
    ensures
        ({
            let e = work_model::cleared(q, range);
            let d = work_model::retired(q, operation, range);
            let owns = q.active.contains_key(range) && q.active[range]
                == (HeaderWorkState::Committing { operation });
            &&& !e.active.contains_key(range)
            &&& other != range ==> e.active.contains_key(other) == q.active.contains_key(other)
            &&& other != range && q.active.contains_key(other) ==> e.active[other]
                == q.active[other]
            &&& e.active_starts.contains(key) <==> q.active_starts.contains(key) && key
                != start_of(range)
            &&& same_but_active(q, e)
            &&& owns ==> d == e
            &&& !owns ==> d == q
        }),
{
}

/// Replacing active work by a part of it hands the part to the owner of the whole, and changes
/// nothing else; work that is not active is not replaced.
pub proof fn narrowing_moves_one_owner(
    q: QueueView,
    whole: RangeRequest,
    part: RangeRequest,
    other: RangeRequest,
    key: StartKey,
)
    ensures
        ({
            let e = work_model::narrowed(q, whole, part);
            &&& !q.active.contains_key(whole) || whole == part ==> e == q
            &&& q.active.contains_key(whole) && whole != part ==> {
                &&& !e.active.contains_key(whole)
                &&& e.active.contains_key(part) && e.active[part] == q.active[whole]
                &&& other != whole && other != part ==> e.active.contains_key(other)
                    == q.active.contains_key(other)
                &&& other != whole && other != part && q.active.contains_key(other)
                    ==> e.active[other] == q.active[other]
                &&& e.active_starts.contains(key) <==> key == start_of(part)
                    || q.active_starts.contains(key) && key != start_of(whole)
                &&& same_but_active(q, e)
            }
        }),
{
}

/// Putting work back ends its ownership and no other, and puts it at the front of its lane, unless
/// it belongs to none, is covered, or its start is pending; then the lanes stay as they are.
pub proof fn retrying_changes_only_its_lane(
    q: QueueView,
    range: RangeRequest,
    other: RangeRequest,
    key: StartKey,
)
    ensures
        ({
            let e = work_model::retried(q, range);
            let back = range.priority != RangePriority::Repair && !done_with(q.covered, range)
                && !q.pending_starts.contains(start_of(range));
            &&& e.forward == (if back && range.priority == RangePriority::Forward {
                seq![range] + q.forward
            } else {
                q.forward
            })
            &&& e.authenticate_roots == (if back && range.priority
                == RangePriority::AuthenticateRoots {
                seq![range] + q.authenticate_roots
            } else {
                q.authenticate_roots
            })
            &&& e.pending_starts.contains(key) <==> q.pending_starts.contains(key) || back && key
                == start_of(range)
            &&& !e.active.contains_key(range)
            &&& other != range ==> e.active.contains_key(other) == q.active.contains_key(other)
            &&& other != range && q.active.contains_key(other) ==> e.active[other]
                == q.active[other]
            &&& e.active_starts.contains(key) <==> q.active_starts.contains(key) && key
                != start_of(range)
            &&& e == (QueueView {
                forward: e.forward,
                authenticate_roots: e.authenticate_roots,
                pending_starts: e.pending_starts,
                active: e.active,
                active_starts: e.active_starts,
                ..q
            })
        }),
{
    assert(work_model::covers(q.covered, range) == done_with(q.covered, range));
}

/// Putting work back that a peer failed at keeps that peer from it until an instant, forgets and
/// adds no other avoidance, and does otherwise what putting work back does.
pub proof fn avoiding_adds_one_avoidance(
    q: QueueView,
    peer: ZakuraPeerId,
    range: RangeRequest,
    until: Instant,
    key: AvoidKey,
)
    ensures
        ({
            let e = work_model::retried_avoiding(q, peer, range, until);
            let r = work_model::retried(q, range);
            let this = AvoidKey { peer, work: start_of(range) };
            &&& e.retry_avoidance.contains_key(this) && e.retry_avoidance[this] == until
            &&& key != this ==> e.retry_avoidance.contains_key(key)
                == q.retry_avoidance.contains_key(key)
            &&& key != this && q.retry_avoidance.contains_key(key) ==> e.retry_avoidance[key]
                == q.retry_avoidance[key]
            &&& e == (QueueView { retry_avoidance: e.retry_avoidance, ..r })
        }),
{
}

/// Putting work off gives its start a backoff that ends later than now, changes no other start,
/// and does otherwise what putting work back does.
pub proof fn delaying_adds_one_backoff(
    q: QueueView,
    range: RangeRequest,
    now: Instant,
    key: StartKey,
)
    requires
        now.nanos + 30_000_000_000 <= u128::MAX,
    ensures
        ({
            let e = work_model::retried_delayed(q, range, now);
            let r = work_model::retried(q, range);
            let this = start_of(range);
            &&& e.delayed_retries.contains_key(this)
            &&& e.delayed_retries[this].until is Some
            &&& now.nanos + 1_000_000_000 <= (e.delayed_retries[this].until->0).nanos <= now.nanos
                + 30_000_000_000
            &&& key != this ==> e.delayed_retries.contains_key(key)
                == q.delayed_retries.contains_key(key)
            &&& key != this && q.delayed_retries.contains_key(key) ==> e.delayed_retries[key]
                == q.delayed_retries[key]
            &&& e == (QueueView { delayed_retries: e.delayed_retries, ..r })
        }),
{
}

#[verifier::spinoff_prover]
#[verifier::rlimit(50)]
proof fn lemma_all_retried_lanes(
    q: QueueView,
    peer: ZakuraPeerId,
    ranges: Seq<RangeRequest>,
    n: int,
)
    requires
        work_laws::indexed(q),
        work_owner_laws::unowned(q),
        work_model::in_flight_order(q, peer, ranges),
        0 <= n <= ranges.len(),
    ensures
        ({
            let e = work_model::all_retried(q, ranges.take(n));
            &&& e.covered == q.covered
            &&& forall|k: StartKey| #[trigger]
                e.pending_starts.contains(k) ==> q.pending_starts.contains(k) || exists|j: int|
                    0 <= j < n && start_of(#[trigger] ranges[j]) == k
            &&& forall|i: int|
                0 <= i < n && !done_with(q.covered, #[trigger] ranges[i]) ==> {
                    &&& ranges[i].priority == RangePriority::Forward ==> e.forward.contains(
                        ranges[i],
                    )
                    &&& ranges[i].priority == RangePriority::AuthenticateRoots
                        ==> e.authenticate_roots.contains(ranges[i])
                }
        }),
    decreases n,
{
    if n > 0 {
        let m = n - 1;
        let r = ranges[m];
        lemma_all_retried_lanes(q, peer, ranges, m);
        let before = work_model::all_retried(q, ranges.take(m));
        let e = work_model::all_retried(q, ranges.take(n));
        assert(ranges.take(n).drop_last() =~= ranges.take(m));
        assert(ranges.take(n).last() == r);
        assert(e == work_model::retried(before, r));
        assert(ranges.contains(r));
        assert(q.active.contains_key(r));
        assert(work_model::active_has_key(q.active, work_model::key_of(r)));
        assert(q.active_starts.contains(start_of(r)));
        assert(!before.pending_starts.contains(start_of(r))) by {
            if before.pending_starts.contains(start_of(r)) {
                assert(!q.pending_starts.contains(start_of(r)));
                let j = choose|j: int| 0 <= j < m && start_of(#[trigger] ranges[j]) == start_of(r);
                assert(ranges.contains(ranges[j]));
                assert(q.active.contains_key(ranges[j]));
                assert(work_model::key_of(ranges[j]) == work_model::key_of(r));
                assert(ranges[j] == r);
            }
        }
        retrying_changes_only_its_lane(before, r, r, start_of(r));
        assert forall|k: StartKey| #[trigger] e.pending_starts.contains(k) implies
            q.pending_starts.contains(k) || exists|j: int|
            0 <= j < n && start_of(#[trigger] ranges[j]) == k by {
            retrying_changes_only_its_lane(before, r, r, k);
            if before.pending_starts.contains(k) && !q.pending_starts.contains(k) {
                let j = choose|j: int| 0 <= j < m && start_of(#[trigger] ranges[j]) == k;
                assert(start_of(ranges[j]) == k);
            } else if k == start_of(r) {
                assert(start_of(ranges[m]) == k);
            }
        }
        assert forall|i: int| 0 <= i < n && !done_with(q.covered, #[trigger] ranges[i]) implies {
            &&& ranges[i].priority == RangePriority::Forward ==> e.forward.contains(ranges[i])
            &&& ranges[i].priority == RangePriority::AuthenticateRoots
                ==> e.authenticate_roots.contains(ranges[i])
        } by {
            let x = ranges[i];
            if i < m {
                if x.priority == RangePriority::Forward {
                    let j = choose|j: int| 0 <= j < before.forward.len() && before.forward[j] == x;
                    let shift = e.forward.len() - before.forward.len();
                    assert(e.forward[j + shift] == x);
                }
                if x.priority == RangePriority::AuthenticateRoots {
                    let j = choose|j: int|
                        0 <= j < before.authenticate_roots.len() && before.authenticate_roots[j]
                            == x;
                    let shift = e.authenticate_roots.len() - before.authenticate_roots.len();
                    assert(e.authenticate_roots[j + shift] == x);
                }
            } else {
                if x.priority == RangePriority::Forward {
                    assert(e.forward[0] == x);
                }
                if x.priority == RangePriority::AuthenticateRoots {
                    assert(e.authenticate_roots[0] == x);
                }
            }
        }
    }
}

/// Forgetting a peer puts every piece of work back that the peer was asked for and that is not
/// covered: it is pending in its lane afterwards.
pub proof fn forgetting_loses_no_work(
    q: QueueView,
    peer: ZakuraPeerId,
    ranges: Seq<RangeRequest>,
    r: RangeRequest,
)
    requires
        work_laws::indexed(q),
        work_owner_laws::unowned(q),
        work_model::in_flight_order(q, peer, ranges),
        q.active.contains_key(r),
        q.active[r] == (HeaderWorkState::InFlight { peer }),
        !done_with(q.covered, r),
    ensures
        ({
            let e = work_model::unavoided(work_model::all_retried(q, ranges), peer);
            &&& r.priority == RangePriority::Forward ==> e.forward.contains(r)
            &&& r.priority == RangePriority::AuthenticateRoots ==> e.authenticate_roots.contains(r)
        }),
{
    lemma_all_retried_lanes(q, peer, ranges, ranges.len() as int);
    assert(ranges.take(ranges.len() as int) =~= ranges);
    assert(work_model::in_flight_at(q, peer, r));
    assert(ranges.contains(r));
    let i = choose|i: int| 0 <= i < ranges.len() && ranges[i] == r;
    assert(!done_with(q.covered, ranges[i]));
}

} // verus!
