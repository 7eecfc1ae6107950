//! What repeated operations on the header work queue do.
use vstd::arithmetic::power2;
use vstd::prelude::*;

use crate::chain::{BlockHash, Height};
use crate::header_sync::ids::{HeaderSyncOperationIdentity, ZakuraPeerId};
use crate::header_sync::range::{RangePriority, RangeRequest};
use crate::header_sync::work_laws;
use crate::header_sync::work_model;
use crate::header_sync::work_model::{HeaderWorkState, QueueView, StartKey};
use crate::time::Instant;

verus! {

/// Whether a piece of work has no place in a lane: it belongs to none, it is covered, or work of
/// its lane is already pending or active where it starts.
pub open spec fn kept_out(q: QueueView, range: RangeRequest) -> bool {
    let key = work_model::key_of(range);
    ||| range.priority == RangePriority::Repair
    ||| work_model::covers(q.covered, range)
    ||| work_model::lane_has_key(q.forward, key)
    ||| work_model::lane_has_key(q.authenticate_roots, key)
    ||| work_model::active_has_key(q.active, key)
}

/// Adding work puts it at the back of its lane, unless it is kept out; then, and when it is added
/// again, nothing changes.
pub proof fn work_is_added_once(q: QueueView, range: RangeRequest, now: Instant, later: Instant)
    requires
        work_laws::indexed(q),
    ensures
        ({
            let e = work_model::ensured(q, range, range.priority, now);
            &&& work_model::ensured(e, range, range.priority, later) == e
            &&& kept_out(q, range) ==> e == q
            &&& !kept_out(q, range) && range.priority == RangePriority::Forward ==> e.forward
                == q.forward.push(range) && e.authenticate_roots == q.authenticate_roots
            &&& !kept_out(q, range) && range.priority == RangePriority::AuthenticateRoots
                ==> e.authenticate_roots == q.authenticate_roots.push(range) && e.forward
                == q.forward
            &&& e.active == q.active
            &&& e.covered == q.covered
        }),
{
    let key = work_model::key_of(range);
    assert(q.pending_starts.contains(key) <==> work_model::lane_has_key(q.forward, key)
        || work_model::lane_has_key(q.authenticate_roots, key));
    assert(q.active_starts.contains(key) <==> work_model::active_has_key(q.active, key));
}

/// Work that is put back has no owner. It is at the front of its lane, ahead of older work in its
/// order, unless it is covered or work of its lane is pending where it starts. Putting it back
/// again leaves both lanes as they are.
pub proof fn work_is_put_back_once(q: QueueView, range: RangeRequest)
    requires
        work_laws::indexed(q),
    ensures
        ({
            let e = work_model::retried(q, range);
            let again = work_model::retried(e, range);
            let key = work_model::key_of(range);
            let pending = work_model::lane_has_key(q.forward, key) || work_model::lane_has_key(
                q.authenticate_roots,
                key,
            );
            let back = !pending && !work_model::covers(q.covered, range);
            &&& !e.active.contains_key(range)
            &&& e.forward == (if back && range.priority == RangePriority::Forward {
                seq![range] + q.forward
            } else {
                q.forward
            })
            &&& e.authenticate_roots == (if back && range.priority
                == RangePriority::AuthenticateRoots {
                seq![range] + q.authenticate_roots
            } else {
                q.authenticate_roots
            })
            &&& !pending && work_model::covers(q.covered, range) ==> !e.forward.contains(range)
                && !e.authenticate_roots.contains(range)
            &&& again.forward == e.forward
            &&& again.authenticate_roots == e.authenticate_roots
        }),
{
    let key = work_model::key_of(range);
    assert(q.pending_starts.contains(key) <==> work_model::lane_has_key(q.forward, key)
        || work_model::lane_has_key(q.authenticate_roots, key));
    if q.forward.contains(range) {
        let i = choose|i: int| 0 <= i < q.forward.len() && q.forward[i] == range;
        assert(work_model::lane_has_key(q.forward, work_model::key_of(q.forward[i])));
    }
    if q.authenticate_roots.contains(range) {
        let i = choose|i: int|
            0 <= i < q.authenticate_roots.len() && q.authenticate_roots[i] == range;
        assert(work_model::lane_has_key(
            q.authenticate_roots,
            work_model::key_of(q.authenticate_roots[i]),
        ));
    }
}

/// How often work with a start was put off.
pub open spec fn attempts_of(q: QueueView, key: StartKey) -> nat {
    if q.delayed_retries.contains_key(key) {
        q.delayed_retries[key].attempts as nat
    } else {
        0
    }
}

/// Putting work off counts one more attempt, as far as 32 bits hold it, for its start and no
/// other, and makes no work with another start wait.
pub proof fn delay_counts_one_attempt(
    q: QueueView,
    range: RangeRequest,
    now: Instant,
    other: RangeRequest,
    at: Instant,
)
    ensures
        ({
            let e = work_model::retried_delayed(q, range, now);
            let key = work_model::key_of(range);
            &&& attempts_of(e, key) == (if attempts_of(q, key) < u32::MAX {
                attempts_of(q, key) + 1
            } else {
                u32::MAX as nat
            })
            &&& work_model::key_of(other) != key ==> {
                &&& attempts_of(e, work_model::key_of(other)) == attempts_of(
                    q,
                    work_model::key_of(other),
                )
                &&& work_model::backing_off(e, other, at) == work_model::backing_off(q, other, at)
            }
        }),
{
}

/// Whether work backs off in one queue as it does in another, and was put off as often.
pub open spec fn same_delays(q: QueueView, e: QueueView) -> bool {
    q.delayed_retries == e.delayed_retries
}

/// Putting several pieces of work back puts none of them off.
proof fn lemma_all_retried_delays(q: QueueView, ranges: Seq<RangeRequest>)
    ensures
        same_delays(q, work_model::all_retried(q, ranges)),
    decreases ranges.len(),
{
    if ranges.len() > 0 {
        lemma_all_retried_delays(q, ranges.drop_last());
    }
}

/// Adding, taking, handing on and putting back work changes no delay.
pub proof fn ownership_keeps_delays(
    q: QueueView,
    range: RangeRequest,
    part: RangeRequest,
    state: HeaderWorkState,
    operation: HeaderSyncOperationIdentity,
    peer: ZakuraPeerId,
    tip: Height,
    allow_root_auth: bool,
    now: Instant,
    until: Instant,
    ranges: Seq<RangeRequest>,
)
    ensures
        same_delays(q, work_model::ensured(q, range, range.priority, now)),
        same_delays(q, work_model::next_taken(q, peer, tip, allow_root_auth, now).0),
        same_delays(q, work_model::assigned(q, range, state)),
        same_delays(q, work_model::owned(q, range, state)),
        same_delays(q, work_model::authenticating(q, range, operation)),
        same_delays(q, work_model::narrowed(q, range, part)),
        same_delays(q, work_model::cleared(q, range)),
        same_delays(q, work_model::retired(q, operation, range)),
        same_delays(q, work_model::retried(q, range)),
        same_delays(q, work_model::retried_avoiding(q, peer, range, until)),
        same_delays(q, work_model::unavoided(work_model::all_retried(q, ranges), peer)),
{
    lemma_all_retried_delays(q, ranges);
}

/// Dropping and trimming work changes no delay, except that dropping root authentication forgets
/// the delays of its lane.
pub proof fn drops_keep_delays(
    q: QueueView,
    height: Height,
    anchor_hash: BlockHash,
    priority: RangePriority,
    key: StartKey,
)
    ensures
        same_delays(q, work_model::trimmed(q, height, anchor_hash)),
        same_delays(q, work_model::unanchored(q, priority, height, anchor_hash)),
        same_delays(q, work_model::forward_cleared(q)),
        same_delays(q, work_model::pruned(q)),
        attempts_of(work_model::root_auth_cleared(q), key) == (if key.priority
            == RangePriority::AuthenticateRoots {
            0
        } else {
            attempts_of(q, key)
        }),
{
}

/// Maintenance keeps the number of attempts, and what backs off from then on.
pub proof fn maintenance_keeps_delays(
    q: QueueView,
    now: Instant,
    range: RangeRequest,
    at: Instant,
)
    requires
        at.nanos >= now.nanos,
    ensures
        attempts_of(work_model::maintained(q, now), work_model::key_of(range)) == attempts_of(
            q,
            work_model::key_of(range),
        ),
        work_model::backing_off(work_model::maintained(q, now), range, at)
            == work_model::backing_off(q, range, at),
{
}

/// One time that work is put off.
pub struct DelayCall {
    /// The queue before it.
    pub before: QueueView,
    /// The work.
    pub range: RangeRequest,
    /// When it is put off.
    pub now: Instant,
}

impl DelayCall {
    /// The queue after it.
    pub open spec fn after(self) -> QueueView {
        work_model::retried_delayed(self.before, self.range, self.now)
    }
}

/// Whether `calls` are all the times that work with a start was put off: it had not been put off
/// before the first, and nothing between two of them changed how often it was.
pub open spec fn delay_history(calls: Seq<DelayCall>, key: StartKey) -> bool {
    &&& forall|i: int|
        0 <= i < calls.len() ==> work_model::key_of((#[trigger] calls[i]).range) == key
    &&& calls.len() > 0 ==> attempts_of(calls[0].before, key) == 0
    &&& forall|i: int, j: int|
        0 <= i && j == i + 1 && j < calls.len() ==> attempts_of(
            (#[trigger] calls[j]).before,
            key,
        ) == attempts_of((#[trigger] calls[i]).after(), key)
}

/// The seconds for which work backs off that was put off `n` times: one, doubled each further
/// time, but at most thirty.
pub open spec fn nth_delay_seconds(n: nat) -> nat {
    if power2::pow2((n - 1) as nat) < 30 {
        power2::pow2((n - 1) as nat)
    } else {
        30
    }
}

proof fn lemma_nth_delay_seconds(n: nat)
    requires
        n >= 1,
    ensures
        work_model::backoff_seconds(if n < u32::MAX { n as u32 } else { u32::MAX })
            == nth_delay_seconds(n),
{
    power2::lemma2_to64();
    if n > 6 {
        power2::lemma_pow2_strictly_increases(5, (n - 1) as nat);
    }
}

proof fn lemma_attempts_counted(calls: Seq<DelayCall>, key: StartKey)
    requires
        delay_history(calls, key),
        calls.len() > 0,
    ensures
        attempts_of(calls.last().after(), key) == (if calls.len() < u32::MAX {
            calls.len()
        } else {
            u32::MAX as nat
        }),
    decreases calls.len(),
{
    let last = calls.last();
    assert(last == calls[calls.len() - 1]);
    if calls.len() > 1 {
        let init = calls.drop_last();
        assert forall|i: int| 0 <= i < init.len() implies #[trigger] init[i] == calls[i] by {
        }
        assert(delay_history(init, key));
        lemma_attempts_counted(init, key);
        assert(init.last() == calls[calls.len() - 2]);
        assert(attempts_of(last.before, key) == attempts_of(calls[calls.len() - 2].after(), key));
    }
}

/// The delays of work that is put off again and again are 1, 2, 4, 8, 16, 30, 30, ... seconds:
/// after the last of `n` times it backs off for so long and no longer, and no peer is given it, or
/// other work of its lane with its start, before that.
pub proof fn nth_delay_doubles(
    calls: Seq<DelayCall>,
    key: StartKey,
    peer: ZakuraPeerId,
    tip: Height,
    allow_root_auth: bool,
    at: Instant,
)
    requires
        delay_history(calls, key),
        calls.len() > 0,
        calls.last().now.nanos + 30_000_000_000 <= u128::MAX,
    ensures
        ({
            let e = calls.last().after();
            let over = calls.last().now.nanos + nth_delay_seconds(calls.len()) * 1_000_000_000;
            &&& work_model::backing_off(e, calls.last().range, at) <==> at.nanos < over
            &&& work_model::next_taken(e, peer, tip, allow_root_auth, at).1 matches Some(given)
                ==> work_model::key_of(given) == key ==> at.nanos >= over
        }),
{
    let last = calls.last();
    let e = last.after();
    assert(last == calls[calls.len() - 1]);
    lemma_attempts_counted(calls, key);
    lemma_nth_delay_seconds(calls.len());
    assert(work_model::next_attempts(last.before, last.range) == attempts_of(e, key));
    work_laws::delayed_work_backs_off(last.before, last.range, last.now, at);
    work_laws::next_work_is_assignable(e, peer, tip, allow_root_auth, at);
}

} // verus!
