//! What the header work queue holds, and what each of its operations does to it.
use vstd::prelude::*;

use crate::chain::{BlockHash, Height};
use crate::header_sync::ids::{HeaderSyncOperationIdentity, ZakuraPeerId};
use crate::header_sync::range;
use crate::header_sync::range::{RangePriority, RangeRequest};
use crate::time::{Duration, Instant};
use crate::vec_map;
use crate::vec_map::Key;

verus! {

/// Who owns a piece of active work.
#[derive(Clone, Copy, Debug, PartialEq, Eq)]
pub enum HeaderWorkState {
    /// A peer was asked for it.
    InFlight {
        /// The peer.
        peer: ZakuraPeerId,
    },
    /// A peer has answered, and its answer waits.
    Buffered {
        /// The peer.
        peer: ZakuraPeerId,
    },
    /// The state works on the answer.
    Committing {
        /// The operation of the state.
        operation: HeaderSyncOperationIdentity,
    },
}

/// Heights that need no more work.
#[derive(Clone, Copy, Debug, PartialEq, Eq, Structural)]
pub struct CoveredRange {
    /// The first covered height.
    pub start: Height,
    /// The last covered height.
    pub end: Height,
}

/// Where a piece of work starts, and in which lane.
#[derive(Clone, Copy, Debug, PartialEq, Eq, Hash, Structural)]
pub struct StartKey {
    /// The first height of the work.
    pub start: Height,
    /// The lane of the work.
    pub priority: RangePriority,
}

impl Key for StartKey {
    fn same(&self, other: &Self) -> (r: bool) {
        *self == *other
    }
}

/// A piece of work that a peer is not asked for again for a while.
#[derive(Clone, Copy, Debug, PartialEq, Eq, Hash)]
pub struct AvoidKey {
    /// The peer that failed.
    pub peer: ZakuraPeerId,
    /// The work that it failed at.
    pub work: StartKey,
}

impl Key for AvoidKey {
    fn same(&self, other: &Self) -> (r: bool) {
        self.peer.same(&other.peer) && self.work == other.work
    }
}

/// How a piece of work backs off.
#[derive(Clone, Copy, Debug, PartialEq, Eq, Structural)]
pub struct DelayedRetry {
    /// When it becomes eligible, unless it already is.
    pub until: Option<Instant>,
    /// How often it was put off.
    pub attempts: u32,
}

/// The content of a work queue.
#[verifier::ext_equal]
pub struct QueueView {
    pub forward: Seq<RangeRequest>,
    pub authenticate_roots: Seq<RangeRequest>,
    pub active: Map<RangeRequest, HeaderWorkState>,
    pub pending_starts: Set<StartKey>,
    pub active_starts: Set<StartKey>,
    pub retry_avoidance: Map<AvoidKey, Instant>,
    pub delayed_retries: Map<StartKey, DelayedRetry>,
    pub covered: Seq<CoveredRange>,
    pub epoch: u64,
    pub oldest_missing_since: Option<Instant>,
}

/// The queue without any work.
pub open spec fn empty_queue() -> QueueView {
    QueueView {
        forward: Seq::empty(),
        authenticate_roots: Seq::empty(),
        active: Map::empty(),
        pending_starts: Set::empty(),
        active_starts: Set::empty(),
        retry_avoidance: Map::empty(),
        delayed_retries: Map::empty(),
        covered: Seq::empty(),
        epoch: 0,
        oldest_missing_since: None,
    }
}

/// Where a piece of work starts, and in which lane.
pub open spec fn key_of(range: RangeRequest) -> StartKey {
    StartKey { start: Height(range.first()), priority: range.priority }
}

/// Whether one covered range holds all heights of a piece of work that coverage ends.
///
/// Root authentication is needed for covered heights too.
pub open spec fn covers(covered: Seq<CoveredRange>, range: RangeRequest) -> bool {
    range.priority != RangePriority::AuthenticateRoots && exists|i: int|
        0 <= i < covered.len() && (#[trigger] covered[i]).start.0 <= range.first()
            && covered[i].end.0 >= range.last()
}

/// Adds work to its lane unless it is covered, or work of that lane is already pending or active
/// at its first height.
pub open spec fn ensured(
    q: QueueView,
    range: RangeRequest,
    priority: RangePriority,
    now: Instant,
) -> QueueView {
    let key = StartKey { start: Height(range.first()), priority };
    if covers(q.covered, range) || q.active_starts.contains(key) || q.pending_starts.contains(key)
        || priority == RangePriority::Repair {
        q
    } else {
        QueueView {
            forward: if priority == RangePriority::Forward {
                q.forward.push(range)
            } else {
                q.forward
            },
            authenticate_roots: if priority == RangePriority::AuthenticateRoots {
                q.authenticate_roots.push(range)
            } else {
                q.authenticate_roots
            },
            pending_starts: q.pending_starts.insert(key),
            oldest_missing_since: match q.oldest_missing_since {
                Some(since) => Some(since),
                None => Some(now),
            },
            ..q
        }
    }
}

/// Forgets the avoidances that are over.
pub open spec fn purged(q: QueueView, now: Instant) -> QueueView {
    QueueView {
        retry_avoidance: vec_map::filtered(
            q.retry_avoidance,
            |k: AvoidKey, until: Instant| until.later_than(now),
        ),
        ..q
    }
}

/// Whether a piece of work still backs off.
pub open spec fn backing_off(q: QueueView, range: RangeRequest, now: Instant) -> bool {
    &&& q.delayed_retries.contains_key(key_of(range))
    &&& q.delayed_retries[key_of(range)].until matches Some(until)
    &&& until.later_than(now)
}

/// Whether a peer is not to be asked for a piece of work yet.
pub open spec fn avoided(
    q: QueueView,
    peer: ZakuraPeerId,
    range: RangeRequest,
    now: Instant,
) -> bool {
    let key = AvoidKey { peer, work: key_of(range) };
    q.retry_avoidance.contains_key(key) && q.retry_avoidance[key].later_than(now)
}

/// Whether a peer with a given tip can be asked for a piece of work.
pub open spec fn assignable(
    q: QueueView,
    peer: ZakuraPeerId,
    tip: Height,
    now: Instant,
    range: RangeRequest,
) -> bool {
    &&& range.last() <= tip.0
    &&& !backing_off(q, range, now)
    &&& !avoided(q, peer, range, now)
}

/// The place of the first assignable work of a lane, from place `i` on.
pub open spec fn first_assignable(
    q: QueueView,
    lane: Seq<RangeRequest>,
    peer: ZakuraPeerId,
    tip: Height,
    now: Instant,
    i: int,
) -> Option<int>
    decreases lane.len() - i,
{
    if i >= lane.len() {
        None
    } else if assignable(q, peer, tip, now, lane[i]) {
        Some(i)
    } else {
        first_assignable(q, lane, peer, tip, now, i + 1)
    }
}

/// Takes work `i` out of the lane of root authentication.
pub open spec fn root_auth_taken(q: QueueView, i: int) -> (QueueView, Option<RangeRequest>) {
    (
        QueueView {
            authenticate_roots: q.authenticate_roots.remove(i),
            pending_starts: q.pending_starts.remove(key_of(q.authenticate_roots[i])),
            ..q
        },
        Some(q.authenticate_roots[i]),
    )
}

/// Takes work `i` out of the forward lane.
pub open spec fn forward_taken(q: QueueView, i: int) -> (QueueView, Option<RangeRequest>) {
    (
        QueueView {
            forward: q.forward.remove(i),
            pending_starts: q.pending_starts.remove(key_of(q.forward[i])),
            ..q
        },
        Some(q.forward[i]),
    )
}

/// Takes the first work that a peer can be asked for: root authentication before forward work,
/// if the peer is eligible for it.
pub open spec fn next_taken(
    q: QueueView,
    peer: ZakuraPeerId,
    tip: Height,
    allow_root_auth: bool,
    now: Instant,
) -> (QueueView, Option<RangeRequest>) {
    let p = purged(q, now);
    let auth = if allow_root_auth {
        first_assignable(p, p.authenticate_roots, peer, tip, now, 0)
    } else {
        None
    };
    match auth {
        Some(i) => root_auth_taken(p, i),
        None => match first_assignable(p, p.forward, peer, tip, now, 0) {
            Some(i) => forward_taken(p, i),
            None => (p, None),
        },
    }
}

/// Makes a piece of work active under an owner.
pub open spec fn owned(q: QueueView, range: RangeRequest, state: HeaderWorkState) -> QueueView {
    QueueView { active: q.active.insert(range, state), ..q }
}

/// Makes a piece of work active and remembers where it starts.
pub open spec fn assigned(q: QueueView, range: RangeRequest, state: HeaderWorkState) -> QueueView {
    QueueView { active_starts: q.active_starts.insert(key_of(range)), ..owned(q, range, state) }
}

/// Makes a piece of work active without it having been pending.
pub open spec fn authenticating(
    q: QueueView,
    range: RangeRequest,
    operation: HeaderSyncOperationIdentity,
) -> QueueView {
    let a = assigned(q, range, HeaderWorkState::Committing { operation });
    QueueView { pending_starts: a.pending_starts.remove(key_of(range)), ..a }
}

/// Replaces an active piece of work by a part of it, under the same owner.
pub open spec fn narrowed(q: QueueView, original: RangeRequest, part: RangeRequest) -> QueueView {
    if original == part || !q.active.contains_key(original) {
        q
    } else {
        QueueView {
            active: q.active.remove(original).insert(part, q.active[original]),
            active_starts: q.active_starts.remove(key_of(original)).insert(key_of(part)),
            ..q
        }
    }
}

/// Ends the ownership of a piece of work.
pub open spec fn cleared(q: QueueView, range: RangeRequest) -> QueueView {
    QueueView {
        active: q.active.remove(range),
        active_starts: q.active_starts.remove(key_of(range)),
        ..q
    }
}

/// Puts a piece of work back at the front of its lane, unless it is covered or work of that lane
/// is pending at its first height.
pub open spec fn retried(q: QueueView, range: RangeRequest) -> QueueView {
    let c = cleared(q, range);
    if covers(q.covered, range) || range.priority == RangePriority::Repair
        || q.pending_starts.contains(key_of(range)) {
        c
    } else {
        QueueView {
            forward: if range.priority == RangePriority::Forward {
                seq![range] + q.forward
            } else {
                q.forward
            },
            authenticate_roots: if range.priority == RangePriority::AuthenticateRoots {
                seq![range] + q.authenticate_roots
            } else {
                q.authenticate_roots
            },
            pending_starts: q.pending_starts.insert(key_of(range)),
            ..c
        }
    }
}

/// Puts a piece of work back that one peer is not to be asked for until an instant.
pub open spec fn retried_avoiding(
    q: QueueView,
    peer: ZakuraPeerId,
    range: RangeRequest,
    until: Instant,
) -> QueueView {
    retried(
        QueueView {
            retry_avoidance: q.retry_avoidance.insert(
                AvoidKey { peer, work: key_of(range) },
                until,
            ),
            ..q
        },
        range,
    )
}

/// How long work backs off that was put off `attempts` times: one second, doubled each time, up
/// to thirty.
pub open spec fn backoff_seconds(attempts: u32) -> u64 {
    if attempts <= 1 {
        1
    } else if attempts == 2 {
        2
    } else if attempts == 3 {
        4
    } else if attempts == 4 {
        8
    } else if attempts == 5 {
        16
    } else {
        30
    }
}

/// How often work was put off, once it is put off again.
pub open spec fn next_attempts(q: QueueView, range: RangeRequest) -> u32 {
    if q.delayed_retries.contains_key(key_of(range)) {
        let attempts = q.delayed_retries[key_of(range)].attempts;
        if attempts == u32::MAX {
            u32::MAX
        } else {
            (attempts + 1) as u32
        }
    } else {
        1
    }
}

/// Puts a piece of work back, to be eligible after a backoff.
pub open spec fn retried_delayed(q: QueueView, range: RangeRequest, now: Instant) -> QueueView {
    let attempts = next_attempts(q, range);
    let wait = Duration { nanos: (backoff_seconds(attempts) * 1_000_000_000) as u128 };
    retried(
        QueueView {
            delayed_retries: q.delayed_retries.insert(
                key_of(range),
                DelayedRetry { until: Some(now.spec_after(wait)), attempts },
            ),
            ..q
        },
        range,
    )
}

/// Ends the ownership of a piece of work, if a given operation owns it.
pub open spec fn retired(
    q: QueueView,
    operation: HeaderSyncOperationIdentity,
    range: RangeRequest,
) -> QueueView {
    if q.active.contains_key(range) && q.active[range] == (HeaderWorkState::Committing {
        operation,
    }) {
        cleared(q, range)
    } else {
        q
    }
}

/// Puts pieces of work back, one after another.
pub open spec fn all_retried(q: QueueView, ranges: Seq<RangeRequest>) -> QueueView
    decreases ranges.len(),
{
    if ranges.len() == 0 {
        q
    } else {
        retried(all_retried(q, ranges.drop_last()), ranges.last())
    }
}

/// Whether a peer was asked for a piece of work and has not answered.
pub open spec fn in_flight_at(q: QueueView, peer: ZakuraPeerId, range: RangeRequest) -> bool {
    q.active.contains_key(range) && q.active[range] == (HeaderWorkState::InFlight { peer })
}

/// Whether `ranges` are, in some order, the pieces of work that a peer was asked for.
pub open spec fn in_flight_order(
    q: QueueView,
    peer: ZakuraPeerId,
    ranges: Seq<RangeRequest>,
) -> bool {
    &&& ranges.no_duplicates()
    &&& forall|r: RangeRequest| #[trigger] ranges.contains(r) <==> in_flight_at(q, peer, r)
}

/// Forgets what a peer is not to be asked for.
pub open spec fn unavoided(q: QueueView, peer: ZakuraPeerId) -> QueueView {
    QueueView {
        retry_avoidance: vec_map::filtered(
            q.retry_avoidance,
            |k: AvoidKey, until: Instant| k.peer != peer,
        ),
        ..q
    }
}

/// Whether some work of a lane has a key.
pub open spec fn lane_has_key(lane: Seq<RangeRequest>, key: StartKey) -> bool {
    exists|i: int| 0 <= i < lane.len() && key_of(#[trigger] lane[i]) == key
}

/// Whether some active work has a key.
pub open spec fn active_has_key(active: Map<RangeRequest, HeaderWorkState>, key: StartKey) -> bool {
    exists|r: RangeRequest| #[trigger] active.contains_key(r) && key_of(r) == key
}

/// Brings the sets of starts in line with the lanes and the active work.
pub open spec fn reindexed(q: QueueView) -> QueueView {
    QueueView {
        pending_starts: Set::new(
            |k: StartKey| lane_has_key(q.forward, k) || lane_has_key(q.authenticate_roots, k),
        ),
        active_starts: Set::new(|k: StartKey| active_has_key(q.active, k)),
        ..q
    }
}

/// What is left of pending work above a height.
pub open spec fn trimmed_range(range: RangeRequest, height: Height, anchor_hash: BlockHash) -> Seq<
    RangeRequest,
> {
    if range.first() > height.0 {
        seq![range]
    } else {
        match range::spec_suffix(range, height, anchor_hash) {
            Some(suffix) => seq![suffix],
            None => Seq::empty(),
        }
    }
}

/// What is left of a lane above a height.
pub open spec fn trimmed_lane(
    lane: Seq<RangeRequest>,
    height: Height,
    anchor_hash: BlockHash,
) -> Seq<RangeRequest>
    decreases lane.len(),
{
    if lane.len() == 0 {
        Seq::empty()
    } else {
        trimmed_lane(lane.drop_last(), height, anchor_hash) + trimmed_range(
            lane.last(),
            height,
            anchor_hash,
        )
    }
}

/// Cuts pending forward work down to the heights above a height.
pub open spec fn trimmed(q: QueueView, height: Height, anchor_hash: BlockHash) -> QueueView {
    reindexed(QueueView { forward: trimmed_lane(q.forward, height, anchor_hash), ..q })
}

/// The place of the first work of a lane that starts at a height, from place `i` on.
pub open spec fn first_starting_at(lane: Seq<RangeRequest>, start: Height, i: int) -> Option<int>
    decreases lane.len() - i,
{
    if i >= lane.len() {
        None
    } else if lane[i].first() == start.0 {
        Some(i)
    } else {
        first_starting_at(lane, start, i + 1)
    }
}

/// Drops an anchor from the first work of a lane that starts at a height.
pub open spec fn unanchored_lane(
    lane: Seq<RangeRequest>,
    start: Height,
    anchor_hash: BlockHash,
) -> Seq<RangeRequest> {
    match first_starting_at(lane, start, 0) {
        Some(i) => if lane[i].anchor_hash == Some(anchor_hash) {
            lane.update(i, RangeRequest { anchor_hash: None, ..lane[i] })
        } else {
            lane
        },
        None => lane,
    }
}

/// Drops an anchor from the first pending work of a lane that starts at a height.
pub open spec fn unanchored(
    q: QueueView,
    priority: RangePriority,
    start: Height,
    anchor_hash: BlockHash,
) -> QueueView {
    match priority {
        RangePriority::Forward => QueueView {
            forward: unanchored_lane(q.forward, start, anchor_hash),
            ..q
        },
        RangePriority::AuthenticateRoots => QueueView {
            authenticate_roots: unanchored_lane(q.authenticate_roots, start, anchor_hash),
            ..q
        },
        RangePriority::Repair => q,
    }
}

/// Active work outside a lane.
pub open spec fn outside_lane(
    active: Map<RangeRequest, HeaderWorkState>,
    priority: RangePriority,
) -> Map<RangeRequest, HeaderWorkState> {
    vec_map::filtered(active, |r: RangeRequest, s: HeaderWorkState| r.priority != priority)
}

/// Drops all forward work and starts a new epoch.
pub open spec fn forward_cleared(q: QueueView) -> QueueView {
    reindexed(
        QueueView {
            epoch: q.epoch.wrapping_add(1),
            forward: Seq::empty(),
            active: outside_lane(q.active, RangePriority::Forward),
            ..q
        },
    )
}

/// Drops all root authentication.
pub open spec fn root_auth_cleared(q: QueueView) -> QueueView {
    reindexed(
        QueueView {
            authenticate_roots: Seq::empty(),
            active: outside_lane(q.active, RangePriority::AuthenticateRoots),
            delayed_retries: vec_map::filtered(
                q.delayed_retries,
                |k: StartKey, d: DelayedRetry| k.priority != RangePriority::AuthenticateRoots,
            ),
            ..q
        },
    )
}

/// Whether a height is covered.
pub open spec fn height_covered(covered: Seq<CoveredRange>, h: int) -> bool {
    exists|i: int|
        0 <= i < covered.len() && (#[trigger] covered[i]).start.0 <= h <= covered[i].end.0
}

/// Covered ranges are not empty, ascend, and leave a gap between one and the next.
pub open spec fn covered_wf(covered: Seq<CoveredRange>) -> bool {
    &&& forall|i: int|
        0 <= i < covered.len() ==> (#[trigger] covered[i]).start.0 <= covered[i].end.0
    &&& forall|i: int, j: int|
        0 <= i < j < covered.len() ==> (#[trigger] covered[i]).end.0 + 1 < (
        #[trigger] covered[j]).start.0
}

/// Whether `after` covers what `before` does, and a range more.
pub open spec fn covers_more(
    before: Seq<CoveredRange>,
    start: Height,
    end: Height,
    after: Seq<CoveredRange>,
) -> bool {
    &&& covered_wf(after)
    &&& forall|h: int| #[trigger]
        height_covered(after, h) <==> height_covered(before, h) || start.0 <= h <= end.0
}

/// Drops work that is covered, except for work that the state is committing.
pub open spec fn pruned(q: QueueView) -> QueueView {
    let forward = q.forward.filter(|r: RangeRequest| !covers(q.covered, r));
    let active = vec_map::filtered(
        q.active,
        |r: RangeRequest, s: HeaderWorkState| s is Committing || !covers(q.covered, r),
    );
    reindexed(
        QueueView {
            forward,
            active,
            oldest_missing_since: if forward.len() == 0 && active == Map::<
                RangeRequest,
                HeaderWorkState,
            >::empty() {
                None
            } else {
                q.oldest_missing_since
            },
            ..q
        },
    )
}

/// Makes delayed work whose backoff is over eligible for good.
pub open spec fn settled(retry: DelayedRetry, now: Instant) -> DelayedRetry {
    if is_due(retry, now) {
        DelayedRetry { until: None, attempts: retry.attempts }
    } else {
        retry
    }
}

/// Whether the backoff of delayed work is over and has not been noticed.
pub open spec fn is_due(retry: DelayedRetry, now: Instant) -> bool {
    retry.until matches Some(until) && !until.later_than(now)
}

/// Forgets avoidances that are over, and settles delayed work that is due.
pub open spec fn maintained(q: QueueView, now: Instant) -> QueueView {
    QueueView {
        delayed_retries: q.delayed_retries.map_values(|d: DelayedRetry| settled(d, now)),
        ..purged(q, now)
    }
}

/// Whether an instant is one at which maintenance is due: an avoidance or a backoff ends then, or
/// it is now and some backoff is over.
pub open spec fn is_deadline(q: QueueView, now: Instant, at: Instant) -> bool {
    let m = maintained(q, now);
    ||| exists|k: AvoidKey| #[trigger]
        m.retry_avoidance.contains_key(k) && m.retry_avoidance[k] == at
    ||| exists|k: StartKey| #[trigger]
        m.delayed_retries.contains_key(k) && m.delayed_retries[k].until == Some(at)
    ||| at == now && exists|k: StartKey| #[trigger]
        q.delayed_retries.contains_key(k) && is_due(q.delayed_retries[k], now)
}

/// Whether a peer with a given tip is kept from some pending work.
pub open spec fn kept_from_pending(
    q: QueueView,
    peer: ZakuraPeerId,
    tip: Height,
    now: Instant,
) -> bool {
    exists|i: int|
        0 <= i < (q.forward + q.authenticate_roots).len() && {
            let r = #[trigger] (q.forward + q.authenticate_roots)[i];
            r.last() <= tip.0 && avoided(q, peer, r, now)
        }
}

/// How many heights pieces of work have in all.
pub open spec fn total_heights(ranges: Seq<RangeRequest>) -> nat
    decreases ranges.len(),
{
    if ranges.len() == 0 {
        0
    } else {
        total_heights(ranges.drop_last()) + ranges.last().range.len() as nat
    }
}

/// Whether a piece of work is forward work that is pending, or active work.
pub open spec fn forward_or_active(q: QueueView, range: RangeRequest) -> bool {
    q.forward.contains(range) || q.active.contains_key(range)
}

/// Whether a piece of work is pending or active.
pub open spec fn resident(q: QueueView, range: RangeRequest) -> bool {
    forward_or_active(q, range) || q.authenticate_roots.contains(range)
}

/// The keys of map entries.
pub open spec fn entry_keys(items: Seq<(RangeRequest, HeaderWorkState)>) -> Seq<RangeRequest> {
    Seq::new(items.len(), |i: int| items[i].0)
}

/// Whether `keys` are the pieces of active work, each once, in some order.
pub open spec fn enumerates(
    active: Map<RangeRequest, HeaderWorkState>,
    keys: Seq<RangeRequest>,
) -> bool {
    &&& keys.no_duplicates()
    &&& forall|r: RangeRequest| #[trigger] keys.contains(r) <==> active.contains_key(r)
}

/// How many heights are pending or active.
pub open spec fn resident_heights(q: QueueView) -> nat {
    total_heights(q.forward) + total_heights(q.authenticate_roots) + total_heights(
        q.active.dom().to_seq(),
    )
}

/// The active work in flight.
pub open spec fn in_flight(active: Map<RangeRequest, HeaderWorkState>) -> Set<RangeRequest> {
    active.dom().filter(|r: RangeRequest| active[r] is InFlight)
}

/// The active work that is buffered.
pub open spec fn buffered(active: Map<RangeRequest, HeaderWorkState>) -> Set<RangeRequest> {
    active.dom().filter(|r: RangeRequest| active[r] is Buffered)
}

/// The active work that is being committed.
pub open spec fn committing(active: Map<RangeRequest, HeaderWorkState>) -> Set<RangeRequest> {
    active.dom().filter(|r: RangeRequest| active[r] is Committing)
}

} // verus!
