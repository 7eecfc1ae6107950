//! The queue of header work: what is pending, who owns what is active, and what is covered.
use std::collections::VecDeque;
use vstd::prelude::*;

use crate::chain::{BlockHash, Height};
use crate::header_sync::ids::{HeaderSyncOperationIdentity, ZakuraPeerId};
use crate::header_sync::range;
use crate::header_sync::range::{same_anchor, RangePriority, RangeRequest};
use crate::header_sync::work_laws;
use crate::header_sync::work_model;
use crate::header_sync::work_model::{
    AvoidKey, CoveredRange, DelayedRetry, HeaderWorkState, QueueView, StartKey,
};
use crate::time::{Duration, Instant};
use crate::vec_map;
use crate::vec_map::{Filter, VecMap, VecSet};

verus! {

/// The hashes that were seen last, up to a capacity.
#[derive(Clone, Debug)]
pub struct HeaderHashDedup {
    /// The hashes, from the oldest to the latest.
    pub order: VecDeque<BlockHash>,
    /// How many hashes are remembered at most.
    pub capacity: usize,
}

impl View for HeaderHashDedup {
    type V = Seq<BlockHash>;

    open spec fn view(&self) -> Seq<BlockHash> {
        self.order@
    }
}

/// What is remembered once a new hash was seen: the latest hashes, up to the capacity.
pub open spec fn remembered(seen: Seq<BlockHash>, hash: BlockHash, capacity: nat) -> Seq<BlockHash> {
    let all = seen.push(hash);
    if all.len() > capacity {
        all.skip(all.len() - capacity)
    } else {
        all
    }
}

impl HeaderHashDedup {
    /// No hash is remembered twice, and no more than the capacity.
    pub open spec fn wf(&self) -> bool {
        &&& self@.no_duplicates()
        &&& self@.len() <= self.capacity
    }

    /// No hash seen yet.
    pub fn new(capacity: usize) -> (seen: Self)
        ensures
            seen.wf(),
            seen@ == Seq::<BlockHash>::empty(),
            seen.capacity == capacity,
    {
        HeaderHashDedup { order: VecDeque::new(), capacity }
    }

    /// Whether a hash is remembered.
    pub fn contains(&self, hash: &BlockHash) -> (r: bool)
        ensures
            r == self@.contains(*hash),
    {
        let mut i: usize = 0;
        while i < self.order.len()
            invariant
                i <= self.order@.len(),
                forall|j: int| 0 <= j < i ==> self.order@[j] != *hash,
            decreases self.order@.len() - i,
        {
            if self.order[i].same(hash) {
                return true;
            }
            i = i + 1;
        }
        false
    }

    /// Remembers a hash, forgetting the oldest beyond the capacity, and says whether it is new.
    pub fn insert(&mut self, hash: BlockHash) -> (r: bool)
        requires
            old(self).wf(),
        ensures
            final(self).wf(),
            final(self).capacity == old(self).capacity,
            r == !old(self)@.contains(hash),
            final(self)@ == (if r {
                remembered(old(self)@, hash, old(self).capacity as nat)
            } else {
                old(self)@
            }),
    {
        if self.contains(&hash) {
            return false;
        }
        self.order.push_back(hash);
        let ghost all = old(self)@.push(hash);
        assert(self@ =~= all.skip(0));
        let ghost mut gone: int = 0;
        while self.order.len() > self.capacity
            invariant
                0 <= gone <= all.len(),
                self@ == all.skip(gone),
                self.capacity == old(self).capacity,
                gone > 0 ==> all.len() - gone >= self.capacity,
                all.no_duplicates(),
            decreases self@.len(),
        {
            let _ = self.order.pop_front();
            proof {
                gone = gone + 1;
                assert(self@ =~= all.skip(gone));
            }
        }
        assert(all.len() > self.capacity ==> gone == all.len() - self.capacity);
        assert(all.skip(0) =~= all);
        true
    }
}

/// What the queue reads of a connected peer.
#[derive(Clone, Copy, Debug, PartialEq, Eq, Structural)]
pub struct PeerHeaderState {
    /// The highest header that the peer has advertised.
    pub advertised_tip: Height,
}

/// Header work that is pending, active or covered.
#[derive(Clone, Debug)]
pub struct HeaderWorkQueue {
    /// Pending work that extends the chain.
    pub forward: VecDeque<RangeRequest>,
    /// Pending root authentication.
    pub authenticate_roots: VecDeque<RangeRequest>,
    /// Active work and its owners.
    pub active: VecMap<RangeRequest, HeaderWorkState>,
    /// Where pending work starts.
    pub pending_starts: VecSet<StartKey>,
    /// Where active work starts.
    pub active_starts: VecSet<StartKey>,
    /// Work that single peers are not asked for yet.
    pub retry_avoidance: VecMap<AvoidKey, Instant>,
    /// Work that was put off.
    pub delayed_retries: VecMap<StartKey, DelayedRetry>,
    /// Heights that need no more work.
    pub covered: Vec<CoveredRange>,
    /// Counts how often forward work was dropped.
    pub epoch: u64,
    /// Since when some work has been missing.
    pub oldest_missing_since: Option<Instant>,
}

impl View for HeaderWorkQueue {
    type V = QueueView;

    open spec fn view(&self) -> QueueView {
        QueueView {
            forward: self.forward@,
            authenticate_roots: self.authenticate_roots@,
            active: self.active@,
            pending_starts: self.pending_starts@,
            active_starts: self.active_starts@,
            retry_avoidance: self.retry_avoidance@,
            delayed_retries: self.delayed_retries@,
            covered: self.covered@,
            epoch: self.epoch,
            oldest_missing_since: self.oldest_missing_since,
        }
    }
}

fn key_of(range: &RangeRequest) -> (key: StartKey)
    ensures
        key == work_model::key_of(*range),
{
    StartKey { start: range.start_height(), priority: range.priority }
}

/// The place of a lane's first work that a peer can be asked for.
fn first_assignable(
    lane: &VecDeque<RangeRequest>,
    retry_avoidance: &VecMap<AvoidKey, Instant>,
    delayed_retries: &VecMap<StartKey, DelayedRetry>,
    peer_id: &ZakuraPeerId,
    peer: &PeerHeaderState,
    now: Instant,
    Ghost(q): Ghost<QueueView>,
) -> (r: Option<usize>)
    requires
        retry_avoidance.wf(),
        delayed_retries.wf(),
        q.retry_avoidance == retry_avoidance@,
        q.delayed_retries == delayed_retries@,
    ensures
        match work_model::first_assignable(q, lane@, *peer_id, peer.advertised_tip, now, 0) {
            Some(i) => r matches Some(j) && i == j && 0 <= i < lane@.len(),
            None => r is None,
        },
{
    let mut i: usize = 0;
    while i < lane.len()
        invariant
            i <= lane@.len(),
            retry_avoidance.wf(),
            delayed_retries.wf(),
            q.retry_avoidance == retry_avoidance@,
            q.delayed_retries == delayed_retries@,
            work_model::first_assignable(q, lane@, *peer_id, peer.advertised_tip, now, 0)
                == work_model::first_assignable(
                q,
                lane@,
                *peer_id,
                peer.advertised_tip,
                now,
                i as int,
            ),
        decreases lane@.len() - i,
    {
        let range = lane[i];
        let key = key_of(&range);
        let backing_off = match delayed_retries.get(&key) {
            Some(retry) => match retry.until {
                Some(until) => until.is_later_than(now),
                None => false,
            },
            None => false,
        };
        let avoided = match retry_avoidance.get(&AvoidKey { peer: *peer_id, work: key }) {
            Some(until) => until.is_later_than(now),
            None => false,
        };
        let end = range.end_height();
        if end.0 <= peer.advertised_tip.0 && !backing_off && !avoided {
            return Some(i);
        }
        i = i + 1;
    }
    None
}

/// Chooses the avoidances that are not over.
struct StillAvoided {
    now: Instant,
}

impl Filter<AvoidKey, Instant> for StillAvoided {
    closed spec fn accepts(&self, k: AvoidKey, v: Instant) -> bool {
        v.later_than(self.now)
    }

    fn keeps(&self, k: &AvoidKey, v: &Instant) -> (r: bool) {
        v.is_later_than(self.now)
    }
}

impl HeaderWorkQueue {
    /// The parts of the queue keep their own invariants.
    pub open spec fn wf(&self) -> bool {
        &&& self.active.wf()
        &&& self.pending_starts.wf()
        &&& self.active_starts.wf()
        &&& self.retry_avoidance.wf()
        &&& self.delayed_retries.wf()
        &&& work_model::covered_wf(self.covered@)
    }

    /// A queue without any work.
    pub fn new() -> (q: Self)
        ensures
            q.wf(),
            q@ == work_model::empty_queue(),
    {
        let q = HeaderWorkQueue {
            forward: VecDeque::new(),
            authenticate_roots: VecDeque::new(),
            active: VecMap::new(),
            pending_starts: VecSet::new(),
            active_starts: VecSet::new(),
            retry_avoidance: VecMap::new(),
            delayed_retries: VecMap::new(),
            covered: Vec::new(),
            epoch: 0,
            oldest_missing_since: None,
        };
        assert(q@ =~= work_model::empty_queue());
        q
    }

    /// Adds forward work, unless it is covered, pending or active.
    pub fn ensure_forward(&mut self, range: RangeRequest, now: Instant)
        requires
            old(self).wf(),
        ensures
            final(self).wf(),
            final(self)@ == work_model::ensured(old(self)@, range, RangePriority::Forward, now),
    {
        self.ensure(range, RangePriority::Forward, now);
    }

    /// Adds work to a lane, unless it is covered, pending or active.
    pub fn ensure(&mut self, range: RangeRequest, priority: RangePriority, now: Instant)
        requires
            old(self).wf(),
        ensures
            final(self).wf(),
            final(self)@ == work_model::ensured(old(self)@, range, priority, now),
    {
        let key = StartKey { start: range.start_height(), priority };
        if self.is_covered(range) || self.active_starts.contains(&key)
            || self.pending_starts.contains(&key) {
            return ;
        }
        match priority {
            RangePriority::Forward => {
                self.forward.push_back(range);
            },
            RangePriority::AuthenticateRoots => {
                self.authenticate_roots.push_back(range);
            },
            RangePriority::Repair => {
                return ;
            },
        }
        let _ = self.pending_starts.insert(key);
        if self.oldest_missing_since.is_none() {
            self.oldest_missing_since = Some(now);
        }
        assert(self@ =~= work_model::ensured(old(self)@, range, priority, now));
    }

    /// Whether covered heights make a piece of work superfluous.
    pub fn is_covered(&self, range: RangeRequest) -> (r: bool)
        ensures
            r == work_model::covers(self@.covered, range),
    {
        if range.priority == RangePriority::AuthenticateRoots {
            return false;
        }
        is_covered_by(&self.covered, range)
    }

    /// Forgets the avoidances that are over.
    fn purge_avoidance(&mut self, now: Instant)
        requires
            old(self).wf(),
        ensures
            final(self).wf(),
            final(self)@ == work_model::purged(old(self)@, now),
    {
        self.retry_avoidance.retain(&StillAvoided { now });
        assert(self@ =~= work_model::purged(old(self)@, now));
    }

    /// Takes the first work that a peer can be asked for: root authentication before forward
    /// work, if the peer is eligible for it.
    pub fn next_for_peer(
        &mut self,
        peer_id: &ZakuraPeerId,
        peer: &PeerHeaderState,
        allow_root_auth: bool,
        now: Instant,
    ) -> (r: Option<RangeRequest>)
        requires
            old(self).wf(),
        ensures
            final(self).wf(),
            (final(self)@, r) == work_model::next_taken(
                old(self)@,
                *peer_id,
                peer.advertised_tip,
                allow_root_auth,
                now,
            ),
    {
        self.purge_avoidance(now);
        let ghost p = self@;
        if allow_root_auth {
            if let Some(i) = first_assignable(
                &self.authenticate_roots,
                &self.retry_avoidance,
                &self.delayed_retries,
                peer_id,
                peer,
                now,
                Ghost(p),
            ) {
                let range = self.authenticate_roots[i];
                let _ = self.authenticate_roots.remove(i);
                let key = key_of(&range);
                self.pending_starts.remove(&key);
                return Some(range);
            }
        }
        match first_assignable(
            &self.forward,
            &self.retry_avoidance,
            &self.delayed_retries,
            peer_id,
            peer,
            now,
            Ghost(p),
        ) {
            Some(i) => {
                let range = self.forward[i];
                let _ = self.forward.remove(i);
                let key = key_of(&range);
                self.pending_starts.remove(&key);
                assert(self@ =~= work_model::forward_taken(p, i as int).0);
                Some(range)
            },
            None => None,
        }
    }

    /// Makes work, which no one owns, the in-flight work of a peer.
    pub fn mark_assigned(&mut self, peer: ZakuraPeerId, range: RangeRequest)
        requires
            old(self).wf(),
            !old(self)@.active.contains_key(range),
        ensures
            final(self).wf(),
            final(self)@ == work_model::assigned(
                old(self)@,
                range,
                HeaderWorkState::InFlight { peer },
            ),
    {
        let _ = self.active.insert(range, HeaderWorkState::InFlight { peer });
        let _ = self.active_starts.insert(key_of(&range));
        assert(self@ =~= work_model::assigned(
            old(self)@,
            range,
            HeaderWorkState::InFlight { peer },
        ));
    }

    /// Makes the in-flight work of a peer its buffered work.
    pub fn mark_buffered(&mut self, peer: ZakuraPeerId, range: RangeRequest)
        requires
            old(self).wf(),
            work_model::in_flight_at(old(self)@, peer, range),
        ensures
            final(self).wf(),
            final(self)@ == work_model::owned(
                old(self)@,
                range,
                HeaderWorkState::Buffered { peer },
            ),
    {
        let _ = self.active.insert(range, HeaderWorkState::Buffered { peer });
    }

    /// Hands the buffered work of a peer to an operation on its response.
    pub fn mark_committing(&mut self, operation: HeaderSyncOperationIdentity, range: RangeRequest)
        requires
            old(self).wf(),
            old(self)@.active.contains_key(range),
            old(self)@.active[range] == (HeaderWorkState::Buffered {
                peer: operation.wire_request.peer,
            }),
        ensures
            final(self).wf(),
            final(self)@ == work_model::owned(
                old(self)@,
                range,
                HeaderWorkState::Committing { operation },
            ),
    {
        let _ = self.active.insert(range, HeaderWorkState::Committing { operation });
    }

    /// Hands work to an operation, whoever owned it.
    pub fn mark_authenticating(
        &mut self,
        operation: HeaderSyncOperationIdentity,
        range: RangeRequest,
    )
        requires
            old(self).wf(),
        ensures
            final(self).wf(),
            final(self)@ == work_model::authenticating(old(self)@, range, operation),
    {
        let key = key_of(&range);
        let _ = self.active.insert(range, HeaderWorkState::Committing { operation });
        self.pending_starts.remove(&key);
        let _ = self.active_starts.insert(key);
        assert(self@ =~= work_model::authenticating(old(self)@, range, operation));
    }

    /// Replaces active work by a part of it, under the same owner.
    pub fn narrow_queued_range(&mut self, original: RangeRequest, narrowed: RangeRequest)
        requires
            old(self).wf(),
        ensures
            final(self).wf(),
            final(self)@ == work_model::narrowed(old(self)@, original, narrowed),
    {
        if vec_map::Key::same(&original, &narrowed) {
            return ;
        }
        if let Some(state) = self.active.remove(&original) {
            self.active_starts.remove(&key_of(&original));
            let _ = self.active_starts.insert(key_of(&narrowed));
            let _ = self.active.insert(narrowed, state);
            assert(self@ =~= work_model::narrowed(old(self)@, original, narrowed));
        } else {
            assert(self.active@ =~= old(self).active@);
            assert(self@ =~= old(self)@);
        }
    }

    /// Puts work back at the front of its lane, unless it is covered or pending.
    pub fn retry(&mut self, range: RangeRequest)
        requires
            old(self).wf(),
        ensures
            final(self).wf(),
            final(self)@ == work_model::retried(old(self)@, range),
    {
        self.clear_assignment(range);
        if self.is_covered(range) {
            return ;
        }
        let key = key_of(&range);
        match range.priority {
            RangePriority::Forward => {
                if self.pending_starts.insert(key) {
                    self.forward.push_front(range);
                    assert(self.forward@ =~= seq![range] + old(self).forward@);
                }
            },
            RangePriority::AuthenticateRoots => {
                if self.pending_starts.insert(key) {
                    self.authenticate_roots.push_front(range);
                    assert(self.authenticate_roots@ =~= seq![range]
                        + old(self).authenticate_roots@);
                }
            },
            RangePriority::Repair => {},
        }
        proof {
            if old(self)@.pending_starts.contains(work_model::key_of(range)) {
                assert(self.pending_starts@ =~= old(self).pending_starts@);
            }
            assert(self@ =~= work_model::retried(old(self)@, range));
        }
    }

    /// Puts work back that a peer failed at, and keeps the peer from it for a while.
    pub fn retry_avoiding(
        &mut self,
        peer: ZakuraPeerId,
        range: RangeRequest,
        now: Instant,
        avoidance: Duration,
    )
        requires
            old(self).wf(),
            now.nanos + avoidance.nanos <= u128::MAX,
        ensures
            final(self).wf(),
            final(self)@ == work_model::retried_avoiding(
                old(self)@,
                peer,
                range,
                now.spec_after(avoidance),
            ),
    {
        let key = AvoidKey { peer, work: key_of(&range) };
        let _ = self.retry_avoidance.insert(key, now.after(avoidance));
        self.retry(range);
    }

    /// Puts work back that is to be eligible only after a backoff.
    pub fn retry_delayed(&mut self, range: RangeRequest, now: Instant)
        requires
            old(self).wf(),
            now.nanos + 30_000_000_000 <= u128::MAX,
        ensures
            final(self).wf(),
            final(self)@ == work_model::retried_delayed(old(self)@, range, now),
    {
        let key = key_of(&range);
        let attempts: u32 = match self.delayed_retries.get(&key) {
            Some(retry) => retry.attempts.saturating_add(1),
            None => 1,
        };
        let delay_seconds: u64 = backoff_seconds(attempts);
        let until = now.after(Duration::from_secs(delay_seconds));
        let _ = self.delayed_retries.insert(key, DelayedRetry { until: Some(until), attempts });
        self.retry(range);
    }

    /// Ends the ownership of work by an operation.
    pub fn retire_operation(
        &mut self,
        operation: &HeaderSyncOperationIdentity,
        range: RangeRequest,
    )
        requires
            old(self).wf(),
        ensures
            final(self).wf(),
            final(self)@ == work_model::retired(old(self)@, *operation, range),
    {
        if let Some(HeaderWorkState::Committing { operation: active }) = self.active.get(&range) {
            if active.same(operation) {
                self.clear_assignment(range);
            }
        }
    }

    /// Ends the ownership of work.
    pub fn clear_assignment(&mut self, range: RangeRequest)
        requires
            old(self).wf(),
        ensures
            final(self).wf(),
            final(self)@ == work_model::cleared(old(self)@, range),
    {
        let _ = self.active.remove(&range);
        self.active_starts.remove(&key_of(&range));
        assert(self@ =~= work_model::cleared(old(self)@, range));
    }

    /// Ends the ownership of work that an operation has done, or that no one owns.
    pub fn complete(&mut self, range: RangeRequest)
        requires
            old(self).wf(),
            old(self)@.active.contains_key(range) ==> old(self)@.active[range] is Committing,
        ensures
            final(self).wf(),
            final(self)@ == work_model::cleared(old(self)@, range),
    {
        self.clear_assignment(range);
    }
}

/// How long work backs off that was put off `attempts` times.
pub fn backoff_seconds(attempts: u32) -> (seconds: u64)
    ensures
        seconds == work_model::backoff_seconds(attempts),
{
    if attempts <= 1 {
        1
    } else if attempts == 2 {
        2
    } else if attempts == 3 {
        4
    } else if attempts == 4 {
        8
    } else if attempts == 5 {
        16
    } else {
        30
    }
}

/// Whether one covered range holds all heights of a piece of work.
fn is_covered_by(covered: &Vec<CoveredRange>, range: RangeRequest) -> (r: bool)
    requires
        range.priority != RangePriority::AuthenticateRoots,
    ensures
        r == work_model::covers(covered@, range),
{
    let start = range.start_height();
    let end = range.end_height();
    let mut i: usize = 0;
    while i < covered.len()
        invariant
            i <= covered@.len(),
            start.0 == range.first(),
            end.0 == range.last(),
            range.priority != RangePriority::AuthenticateRoots,
            forall|j: int|
                0 <= j < i ==> !((#[trigger] covered@[j]).start.0 <= range.first()
                    && covered@[j].end.0 >= range.last()),
        decreases covered@.len() - i,
    {
        if covered[i].start.0 <= start.0 && covered[i].end.0 >= end.0 {
            return true;
        }
        i = i + 1;
    }
    false
}

/// Chooses active work outside a lane.
struct OutsideLane {
    priority: RangePriority,
}

impl Filter<RangeRequest, HeaderWorkState> for OutsideLane {
    closed spec fn accepts(&self, k: RangeRequest, v: HeaderWorkState) -> bool {
        k.priority != self.priority
    }

    fn keeps(&self, k: &RangeRequest, v: &HeaderWorkState) -> (r: bool) {
        k.priority != self.priority
    }
}

/// Chooses delayed work that is not root authentication.
struct OutsideRootAuth {}

impl Filter<StartKey, DelayedRetry> for OutsideRootAuth {
    closed spec fn accepts(&self, k: StartKey, v: DelayedRetry) -> bool {
        k.priority != RangePriority::AuthenticateRoots
    }

    fn keeps(&self, k: &StartKey, v: &DelayedRetry) -> (r: bool) {
        k.priority != RangePriority::AuthenticateRoots
    }
}

/// Chooses the avoidances of other peers.
struct OtherPeers {
    peer: ZakuraPeerId,
}

impl Filter<AvoidKey, Instant> for OtherPeers {
    closed spec fn accepts(&self, k: AvoidKey, v: Instant) -> bool {
        k.peer != self.peer
    }

    fn keeps(&self, k: &AvoidKey, v: &Instant) -> (r: bool) {
        !k.peer.same(&self.peer)
    }
}

/// Chooses active work that is being committed or is not covered.
struct Uncovered<'a> {
    covered: &'a Vec<CoveredRange>,
}

impl<'a> Filter<RangeRequest, HeaderWorkState> for Uncovered<'a> {
    closed spec fn accepts(&self, k: RangeRequest, v: HeaderWorkState) -> bool {
        v is Committing || !work_model::covers(self.covered@, k)
    }

    fn keeps(&self, k: &RangeRequest, v: &HeaderWorkState) -> (r: bool) {
        match v {
            HeaderWorkState::Committing { .. } => true,
            _ => k.priority == RangePriority::AuthenticateRoots || !is_covered_by(
                self.covered,
                *k,
            ),
        }
    }
}

/// One more work in a lane adds its key.
proof fn lemma_lane_key_push(lane: Seq<RangeRequest>, r: RangeRequest, k: StartKey)
    ensures
        work_model::lane_has_key(lane.push(r), k) == (work_model::lane_has_key(lane, k)
            || work_model::key_of(r) == k),
{
    let more = lane.push(r);
    if work_model::lane_has_key(lane, k) {
        let i = choose|i: int|
            0 <= i < lane.len() && work_model::key_of(#[trigger] lane[i]) == k;
        assert(work_model::key_of(more[i]) == k);
    }
    if work_model::key_of(r) == k {
        assert(work_model::key_of(more[lane.len() as int]) == k);
    }
    if work_model::lane_has_key(more, k) {
        let i = choose|i: int|
            0 <= i < more.len() && work_model::key_of(#[trigger] more[i]) == k;
        if i < lane.len() {
            assert(work_model::key_of(lane[i]) == k);
        }
    }
}

/// Adds the keys of a lane to a set.
fn index_lane(starts: &mut VecSet<StartKey>, lane: &VecDeque<RangeRequest>)
    requires
        old(starts).wf(),
    ensures
        final(starts).wf(),
        final(starts)@ == old(starts)@.union(
            Set::new(|k: StartKey| work_model::lane_has_key(lane@, k)),
        ),
{
    let mut i: usize = 0;
    assert(starts@ =~= old(starts)@.union(
        Set::new(|k: StartKey| work_model::lane_has_key(lane@.take(0), k)),
    ));
    while i < lane.len()
        invariant
            i <= lane@.len(),
            starts.wf(),
            starts@ == old(starts)@.union(
                Set::new(|k: StartKey| work_model::lane_has_key(lane@.take(i as int), k)),
            ),
        decreases lane@.len() - i,
    {
        let range = lane[i];
        let _ = starts.insert(key_of(&range));
        proof {
            assert(lane@.take(i + 1) =~= lane@.take(i as int).push(range));
            assert forall|k: StartKey| #[trigger]
                work_model::lane_has_key(lane@.take(i + 1), k) == (work_model::lane_has_key(
                    lane@.take(i as int),
                    k,
                ) || work_model::key_of(range) == k) by {
                lemma_lane_key_push(lane@.take(i as int), range, k);
            }
            assert(starts@ =~= old(starts)@.union(
                Set::new(|k: StartKey| work_model::lane_has_key(lane@.take(i + 1), k)),
            ));
        }
        i = i + 1;
    }
    assert(lane@.take(i as int) =~= lane@);
}

/// The keys of active work.
#[verifier::spinoff_prover]
#[verifier::rlimit(50)]
fn index_active(active: &VecMap<RangeRequest, HeaderWorkState>) -> (starts: VecSet<StartKey>)
    requires
        active.wf(),
    ensures
        starts.wf(),
        starts@ == Set::new(|k: StartKey| work_model::active_has_key(active@, k)),
{
    let ghost keys = work_model::entry_keys(active.items());
    let mut starts: VecSet<StartKey> = VecSet::new();
    let mut i: usize = 0;
    assert(starts@ =~= Set::new(|k: StartKey| work_model::lane_has_key(keys.take(0), k)));
    while i < active.len()
        invariant
            i <= active.items().len(),
            keys == work_model::entry_keys(active.items()),
            starts.wf(),
            starts@ == Set::new(|k: StartKey| work_model::lane_has_key(keys.take(i as int), k)),
        decreases active.items().len() - i,
    {
        let range = active.entry(i).0;
        let _ = starts.insert(key_of(&range));
        proof {
            assert(keys.take(i + 1) =~= keys.take(i as int).push(range));
            assert forall|k: StartKey| #[trigger]
                work_model::lane_has_key(keys.take(i + 1), k) == (work_model::lane_has_key(
                    keys.take(i as int),
                    k,
                ) || work_model::key_of(range) == k) by {
                lemma_lane_key_push(keys.take(i as int), range, k);
            }
            assert(starts@ =~= Set::new(
                |k: StartKey| work_model::lane_has_key(keys.take(i + 1), k),
            ));
        }
        i = i + 1;
    }
    proof {
        assert(keys.take(i as int) =~= keys);
        assert forall|k: StartKey| work_model::lane_has_key(keys, k) == #[trigger]
            work_model::active_has_key(active@, k) by {
            if work_model::lane_has_key(keys, k) {
                let j = choose|j: int|
                    0 <= j < keys.len() && work_model::key_of(#[trigger] keys[j]) == k;
                active.lemma_entry(j);
                assert(active@.contains_key(keys[j]));
            }
            if work_model::active_has_key(active@, k) {
                let r = choose|r: RangeRequest| #[trigger]
                    active@.contains_key(r) && work_model::key_of(r) == k;
                let j = vec_map::index_of_key(active.items(), r);
                assert(active.items()[j].0 == r);
                assert(keys[j] == r);
            }
        }
        assert(starts@ =~= Set::new(|k: StartKey| work_model::active_has_key(active@, k)));
    }
    starts
}

impl HeaderWorkQueue {
    /// Brings the sets of starts in line with the lanes and the active work.
    fn rebuild_start_indexes(&mut self)
        requires
            old(self).wf(),
        ensures
            final(self).wf(),
            final(self)@ == work_model::reindexed(old(self)@),
            final(self).active == old(self).active,
    {
        let mut pending: VecSet<StartKey> = VecSet::new();
        index_lane(&mut pending, &self.forward);
        index_lane(&mut pending, &self.authenticate_roots);
        self.pending_starts = pending;
        self.active_starts = index_active(&self.active);
        assert(self@.pending_starts =~= work_model::reindexed(old(self)@).pending_starts);
        assert(self@ =~= work_model::reindexed(old(self)@));
    }

    /// Puts the in-flight work of a peer back, and forgets what it is not to be asked for.
    ///
    /// The order in which several pieces of work are put back is left open.
    pub fn forget_peer(&mut self, peer: &ZakuraPeerId)
        requires
            old(self).wf(),
        ensures
            final(self).wf(),
            exists|ranges: Seq<RangeRequest>| #[trigger]
                work_model::in_flight_order(old(self)@, *peer, ranges) && final(self)@
                    == work_model::unavoided(work_model::all_retried(old(self)@, ranges), *peer),
    {
        let ranges = self.in_flight_of(peer);
        let mut i: usize = 0;
        assert(ranges@.take(0) =~= Seq::empty());
        while i < ranges.len()
            invariant
                i <= ranges@.len(),
                self.wf(),
                self@ == work_model::all_retried(old(self)@, ranges@.take(i as int)),
            decreases ranges@.len() - i,
        {
            self.retry(ranges[i]);
            assert(ranges@.take(i + 1).drop_last() =~= ranges@.take(i as int));
            i = i + 1;
        }
        assert(ranges@.take(i as int) =~= ranges@);
        self.retry_avoidance.retain(&OtherPeers { peer: *peer });
        proof {
            assert(work_model::in_flight_order(old(self)@, *peer, ranges@));
        }
    }

    /// The in-flight work of a peer.
    #[verifier::spinoff_prover]
    #[verifier::rlimit(50)]
    fn in_flight_of(&self, peer: &ZakuraPeerId) -> (ranges: Vec<RangeRequest>)
        requires
            self.wf(),
        ensures
            work_model::in_flight_order(self@, *peer, ranges@),
    {
        let ghost items = self.active.items();
        let mut ranges: Vec<RangeRequest> = Vec::new();
        let mut i: usize = 0;
        while i < self.active.len()
            invariant
                self.active.wf(),
                items == self.active.items(),
                i <= items.len(),
                forall|a: int, b: int|
                    0 <= a < b < ranges@.len() ==> #[trigger] ranges@[a] != #[trigger] ranges@[b],
                forall|a: int|
                    0 <= a < ranges@.len() ==> work_model::in_flight_at(
                        self@,
                        *peer,
                        #[trigger] ranges@[a],
                    ) && exists|j: int| 0 <= j < i && (#[trigger] items[j]).0 == ranges@[a],
                forall|j: int|
                    0 <= j < i && (#[trigger] items[j]).1 == (HeaderWorkState::InFlight {
                        peer: *peer,
                    }) ==> ranges@.contains(items[j].0),
            decreases items.len() - i,
        {
            let (range, state) = self.active.entry(i);
            proof {
                self.active.lemma_entry(i as int);
            }
            let ghost before = ranges@;
            if let HeaderWorkState::InFlight { peer: owner } = state {
                if owner.same(peer) {
                    ranges.push(range);
                    proof {
                        assert forall|j: int|
                            0 <= j < i + 1 && (#[trigger] items[j]).1
                                == (HeaderWorkState::InFlight {
                                peer: *peer,
                            }) implies ranges@.contains(items[j].0) by {
                            if j < i {
                                let a = choose|a: int|
                                    0 <= a < before.len() && before[a] == items[j].0;
                                assert(ranges@[a] == items[j].0);
                            } else {
                                assert(ranges@[before.len() as int] == items[j].0);
                            }
                        }
                        assert(items[i as int].0 == range);
                    }
                }
            }
            i = i + 1;
        }
        proof {
            assert forall|r: RangeRequest| #[trigger]
                ranges@.contains(r) <==> work_model::in_flight_at(self@, *peer, r) by {
                if work_model::in_flight_at(self@, *peer, r) {
                    let j = vec_map::index_of_key(items, r);
                    assert(items[j].0 == r);
                    self.active.lemma_entry(j);
                }
            }
        }
        ranges
    }

    /// Cuts pending forward work down to the heights above a height.
    pub fn trim_pending_forward_through(&mut self, height: Height, anchor_hash: BlockHash)
        requires
            old(self).wf(),
        ensures
            final(self).wf(),
            final(self)@ == work_model::trimmed(old(self)@, height, anchor_hash),
    {
        let ghost lane = self.forward@;
        let mut kept: VecDeque<RangeRequest> = VecDeque::new();
        let mut i: usize = 0;
        while i < self.forward.len()
            invariant
                lane == self.forward@,
                i <= lane.len(),
                kept@ == work_model::trimmed_lane(lane.take(i as int), height, anchor_hash),
            decreases lane.len() - i,
        {
            let range = self.forward[i];
            proof {
                assert(lane.take(i + 1).drop_last() =~= lane.take(i as int));
                assert(lane.take(i + 1).last() == range);
            }
            if range.start_height().0 > height.0 {
                kept.push_back(range);
                assert(kept@ =~= work_model::trimmed_lane(lane.take(i + 1), height, anchor_hash));
            } else if let Some(suffix) = range.suffix_after(height, anchor_hash) {
                kept.push_back(suffix);
                assert(kept@ =~= work_model::trimmed_lane(lane.take(i + 1), height, anchor_hash));
            } else {
                assert(kept@ =~= work_model::trimmed_lane(lane.take(i + 1), height, anchor_hash));
            }
            i = i + 1;
        }
        assert(lane.take(i as int) =~= lane);
        self.forward = kept;
        self.rebuild_start_indexes();
    }

    /// Drops an anchor from the first pending work of a lane that starts at a height.
    pub fn clear_pending_anchor(
        &mut self,
        priority: RangePriority,
        start_height: Height,
        anchor_hash: BlockHash,
    )
        requires
            old(self).wf(),
        ensures
            final(self).wf(),
            final(self)@ == work_model::unanchored(
                old(self)@,
                priority,
                start_height,
                anchor_hash,
            ),
    {
        match priority {
            RangePriority::Forward => {
                unanchor(&mut self.forward, start_height, anchor_hash);
            },
            RangePriority::AuthenticateRoots => {
                unanchor(&mut self.authenticate_roots, start_height, anchor_hash);
            },
            RangePriority::Repair => {},
        }
        assert(self@ =~= work_model::unanchored(old(self)@, priority, start_height, anchor_hash));
    }

    /// Drops all forward work and starts a new epoch.
    pub fn clear_forward(&mut self)
        requires
            old(self).wf(),
        ensures
            final(self).wf(),
            final(self)@ == work_model::forward_cleared(old(self)@),
    {
        self.epoch = self.epoch.wrapping_add(1);
        self.forward.clear();
        self.active.retain(&OutsideLane { priority: RangePriority::Forward });
        assert(self.active@ =~= work_model::outside_lane(
            old(self).active@,
            RangePriority::Forward,
        ));
        self.rebuild_start_indexes();
    }

    /// Drops all root authentication.
    pub fn clear_root_auth(&mut self)
        requires
            old(self).wf(),
        ensures
            final(self).wf(),
            final(self)@ == work_model::root_auth_cleared(old(self)@),
    {
        self.authenticate_roots.clear();
        self.active.retain(&OutsideLane { priority: RangePriority::AuthenticateRoots });
        self.delayed_retries.retain(&OutsideRootAuth {  });
        assert(self.active@ =~= work_model::outside_lane(
            old(self).active@,
            RangePriority::AuthenticateRoots,
        ));
        assert(self.delayed_retries@ =~= vec_map::filtered(
            old(self).delayed_retries@,
            |k: StartKey, d: DelayedRetry| k.priority != RangePriority::AuthenticateRoots,
        ));
        self.rebuild_start_indexes();
    }

    /// How much work is pending.
    pub fn pending_len(&self) -> (n: usize)
        ensures
            n == (if self@.forward.len() + self@.authenticate_roots.len() > usize::MAX {
                usize::MAX as int
            } else {
                (self@.forward.len() + self@.authenticate_roots.len()) as int
            }),
    {
        self.forward.len().saturating_add(self.authenticate_roots.len())
    }

    /// Whether any work is pending.
    pub fn has_pending(&self) -> (r: bool)
        ensures
            r == (self@.forward.len() > 0 || self@.authenticate_roots.len() > 0),
    {
        self.forward.len() > 0 || self.authenticate_roots.len() > 0
    }

    /// Who owns a piece of work.
    pub fn state(&self, range: RangeRequest) -> (r: Option<HeaderWorkState>)
        requires
            self.wf(),
        ensures
            match r {
                Some(state) => self@.active.contains_key(range) && self@.active[range] == state,
                None => !self@.active.contains_key(range),
            },
    {
        self.active.get(&range)
    }
}

/// Drops an anchor from the first work of a lane that starts at a height.
fn unanchor(lane: &mut VecDeque<RangeRequest>, start_height: Height, anchor_hash: BlockHash)
    ensures
        final(lane)@ == work_model::unanchored_lane(old(lane)@, start_height, anchor_hash),
{
    let mut i: usize = 0;
    while i < lane.len()
        invariant
            lane@ == old(lane)@,
            i <= lane@.len(),
            work_model::first_starting_at(lane@, start_height, 0) == work_model::first_starting_at(
                lane@,
                start_height,
                i as int,
            ),
        decreases lane@.len() - i,
    {
        let range = lane[i];
        if range.start_height().0 == start_height.0 {
            if same_anchor(&range.anchor_hash, &Some(anchor_hash)) {
                let unanchored = RangeRequest {
                    range: range.range,
                    anchor_hash: None,
                    finalized: range.finalized,
                    want_tree_aux_roots: range.want_tree_aux_roots,
                    priority: range.priority,
                };
                let _ = lane.remove(i);
                lane.insert(i, unanchored);
                assert(lane@ =~= old(lane)@.update(i as int, unanchored));
            }
            return ;
        }
        i = i + 1;
    }
}

/// One more covered range covers its heights too.
proof fn lemma_covered_push(covered: Seq<CoveredRange>, more: CoveredRange, h: int)
    ensures
        work_model::height_covered(covered.push(more), h) == (work_model::height_covered(
            covered,
            h,
        ) || more.start.0 <= h <= more.end.0),
{
    let all = covered.push(more);
    if work_model::height_covered(covered, h) {
        let i = choose|i: int|
            0 <= i < covered.len() && (#[trigger] covered[i]).start.0 <= h <= covered[i].end.0;
        assert(all[i].start.0 <= h <= all[i].end.0);
    }
    if more.start.0 <= h <= more.end.0 {
        let n = covered.len() as int;
        assert(all[n].start.0 <= h <= all[n].end.0);
    }
    if work_model::height_covered(all, h) {
        let i = choose|i: int|
            0 <= i < all.len() && (#[trigger] all[i]).start.0 <= h <= all[i].end.0;
        if i < covered.len() {
            assert(covered[i].start.0 <= h <= covered[i].end.0);
        }
    }
}

/// A covered range above all others keeps covered ranges in order.
proof fn lemma_covered_wf_push(covered: Seq<CoveredRange>, more: CoveredRange)
    requires
        work_model::covered_wf(covered),
        more.start.0 <= more.end.0,
        forall|i: int|
            0 <= i < covered.len() ==> (#[trigger] covered[i]).end.0 + 1 < more.start.0,
    ensures
        work_model::covered_wf(covered.push(more)),
{
}

/// Whether what was merged so far and the interval are what was covered so far and the range.
spec fn merge_ok(
    merged: Seq<CoveredRange>,
    interval: CoveredRange,
    inserted: bool,
    done: Seq<CoveredRange>,
    start: Height,
    end: Height,
) -> bool {
    forall|h: int|
        (#[trigger] work_model::height_covered(merged, h) || (!inserted && interval.start.0 <= h
            <= interval.end.0)) <==> (work_model::height_covered(done, h) || start.0 <= h
            <= end.0)
}

impl HeaderWorkQueue {
    /// Adds an interval to the covered heights, merging covered ranges that touch it.
    #[verifier::spinoff_prover]
    #[verifier::rlimit(50)]
    pub fn mark_covered_interval(&mut self, interval: CoveredRange)
        requires
            old(self).wf(),
        ensures
            final(self).wf(),
            final(self)@ == (QueueView { covered: final(self)@.covered, ..old(self)@ }),
            interval.end.0 < interval.start.0 ==> final(self)@ == old(self)@,
            interval.start.0 <= interval.end.0 ==> work_model::covers_more(
                old(self)@.covered,
                interval.start,
                interval.end,
                final(self)@.covered,
            ),
    {
        if interval.end.0 < interval.start.0 {
            return ;
        }
        let ghost before = self.covered@;
        let mut interval_now = interval;
        let mut merged: Vec<CoveredRange> = Vec::new();
        let mut inserted = false;
        let mut i: usize = 0;
        assert(before.take(0) =~= Seq::empty());
        while i < self.covered.len()
            invariant
                before == self.covered@,
                work_model::covered_wf(before),
                i <= before.len(),
                interval_now.start.0 <= interval_now.end.0,
                work_model::covered_wf(merged@),
                forall|m: int, j: int|
                    0 <= m < merged@.len() && i <= j < before.len() ==> (
                    #[trigger] merged@[m]).end.0 + 1 < (#[trigger] before[j]).start.0,
                !inserted ==> forall|m: int|
                    0 <= m < merged@.len() ==> (#[trigger] merged@[m]).end.0 + 1
                        < interval_now.start.0,
                inserted ==> forall|j: int|
                    i <= j < before.len() ==> interval_now.end.0 + 1 < (
                    #[trigger] before[j]).start.0,
                merge_ok(
                    merged@,
                    interval_now,
                    inserted,
                    before.take(i as int),
                    interval.start,
                    interval.end,
                ),
            decreases before.len() - i,
        {
            let covered = self.covered[i];
            let ghost merged_before = merged@;
            let ghost interval_before = interval_now;
            let ghost inserted_before = inserted;
            if covered.end.0.saturating_add(1) < interval_now.start.0 {
                proof {
                    lemma_covered_wf_push(merged@, covered);
                }
                merged.push(covered);
            } else if interval_now.end.0.saturating_add(1) < covered.start.0 {
                if !inserted {
                    proof {
                        lemma_covered_wf_push(merged@, interval_now);
                    }
                    merged.push(interval_now);
                    inserted = true;
                }
                proof {
                    lemma_covered_wf_push(merged@, covered);
                }
                merged.push(covered);
            } else {
                if covered.start.0 < interval_now.start.0 {
                    interval_now.start = covered.start;
                }
                if covered.end.0 > interval_now.end.0 {
                    interval_now.end = covered.end;
                }
            }
            proof {
                let done = before.take(i as int);
                assert(before.take(i + 1) =~= done.push(covered));
                assert forall|h: int|
                    (#[trigger] work_model::height_covered(merged@, h) || (!inserted
                        && interval_now.start.0 <= h <= interval_now.end.0)) <==> (
                    work_model::height_covered(before.take(i + 1), h) || interval.start.0 <= h
                        <= interval.end.0) by {
                    lemma_covered_push(done, covered, h);
                    lemma_covered_push(merged_before, covered, h);
                    lemma_covered_push(merged_before, interval_before, h);
                    lemma_covered_push(merged_before.push(interval_before), covered, h);
                    assert(work_model::height_covered(merged_before, h) || (!inserted_before
                        && interval_before.start.0 <= h <= interval_before.end.0) <==> (
                    work_model::height_covered(done, h) || interval.start.0 <= h
                        <= interval.end.0));
                }
                assert(merge_ok(
                    merged@,
                    interval_now,
                    inserted,
                    before.take(i + 1),
                    interval.start,
                    interval.end,
                ));
            }
            i = i + 1;
        }
        proof {
            assert(before.take(i as int) =~= before);
        }
        let ghost merged_before = merged@;
        if !inserted {
            proof {
                lemma_covered_wf_push(merged@, interval_now);
            }
            merged.push(interval_now);
        }
        proof {
            assert forall|h: int| #[trigger]
                work_model::height_covered(merged@, h) <==> work_model::height_covered(before, h)
                    || interval.start.0 <= h <= interval.end.0 by {
                lemma_covered_push(merged_before, interval_now, h);
                assert(work_model::height_covered(merged_before, h) || (!inserted
                    && interval_now.start.0 <= h <= interval_now.end.0) <==> (
                work_model::height_covered(before, h) || interval.start.0 <= h
                    <= interval.end.0));
            }
        }
        self.covered = merged;
    }

    /// Drops work that is covered, except for work that the state is committing.
    pub fn prune_covered(&mut self)
        requires
            old(self).wf(),
        ensures
            final(self).wf(),
            final(self)@ == work_model::pruned(old(self)@),
    {
        let ghost lane = self.forward@;
        let ghost keep = |r: RangeRequest| !work_model::covers(old(self)@.covered, r);
        let mut kept: VecDeque<RangeRequest> = VecDeque::new();
        let mut i: usize = 0;
        proof {
            reveal(Seq::filter);
        }
        assert(kept@ =~= lane.take(0).filter(keep));
        while i < self.forward.len()
            invariant
                lane == self.forward@,
                i <= lane.len(),
                self.covered@ == old(self)@.covered,
                keep == (|r: RangeRequest| !work_model::covers(old(self)@.covered, r)),
                kept@ == lane.take(i as int).filter(keep),
            decreases lane.len() - i,
        {
            let range = self.forward[i];
            proof {
                reveal(Seq::filter);
                assert(lane.take(i + 1).drop_last() =~= lane.take(i as int));
                assert(lane.take(i + 1).last() == range);
            }
            if !self.is_covered(range) {
                kept.push_back(range);
            }
            i = i + 1;
        }
        assert(lane.take(i as int) =~= lane);
        self.forward = kept;
        self.active.retain(&Uncovered { covered: &self.covered });
        proof {
            assert(self.active@ =~= vec_map::filtered(
                old(self).active@,
                |r: RangeRequest, s: HeaderWorkState|
                    s is Committing || !work_model::covers(old(self)@.covered, r),
            ));
        }
        let idle = self.forward.len() == 0 && self.active.is_empty();
        if idle {
            self.oldest_missing_since = None;
        }
        self.rebuild_start_indexes();
        assert(self@ =~= work_model::pruned(old(self)@));
    }

    /// Covers one height, and drops work that is then covered.
    pub fn mark_height_covered(&mut self, height: Height)
        requires
            old(self).wf(),
        ensures
            final(self).wf(),
            exists|covered: Seq<CoveredRange>| #[trigger]
                work_model::covers_more(old(self)@.covered, height, height, covered) && final(self)@
                    == work_model::pruned(QueueView { covered, ..old(self)@ }),
    {
        self.mark_covered_interval(CoveredRange { start: height, end: height });
        let ghost covered = self@.covered;
        self.prune_covered();
        assert(work_model::covers_more(old(self)@.covered, height, height, covered));
    }

    /// Covers a range of heights, and drops work that is then covered.
    pub fn mark_range_covered(&mut self, start: Height, end: Height)
        requires
            old(self).wf(),
        ensures
            final(self).wf(),
            end.0 < start.0 ==> final(self)@ == work_model::pruned(old(self)@),
            start.0 <= end.0 ==> exists|covered: Seq<CoveredRange>| #[trigger]
                work_model::covers_more(old(self)@.covered, start, end, covered) && final(self)@
                    == work_model::pruned(QueueView { covered, ..old(self)@ }),
    {
        self.mark_covered_interval(CoveredRange { start, end });
        let ghost covered = self@.covered;
        self.prune_covered();
        proof {
            if start.0 <= end.0 {
                assert(work_model::covers_more(old(self)@.covered, start, end, covered));
            }
        }
    }

    /// How many heights are pending or active.
    pub fn resident_heights(&self) -> (n: u64)
        requires
            self.wf(),
            work_model::resident_heights(self@) <= u64::MAX,
        ensures
            n == work_model::resident_heights(self@),
    {
        let ghost keys = work_model::entry_keys(self.active.items());
        proof {
            lemma_entries_enumerate(&self.active);
            work_laws::active_heights_are_those_counted(self@.active, keys);
        }
        let mut n: u64 = lane_heights(&self.forward);
        n = n + lane_heights(&self.authenticate_roots);
        let mut i: usize = 0;
        let ghost base = n;
        assert(keys.take(0) =~= Seq::empty());
        while i < self.active.len()
            invariant
                i <= self.active.items().len(),
                keys == work_model::entry_keys(self.active.items()),
                n == base + work_model::total_heights(keys.take(i as int)),
                base + work_model::total_heights(keys) <= u64::MAX,
            decreases self.active.items().len() - i,
        {
            let range = self.active.entry(i).0;
            proof {
                assert(keys.take(i + 1).drop_last() =~= keys.take(i as int));
                assert(keys.take(i + 1).last() == range);
                lemma_total_heights_take(keys, i + 1);
            }
            n = n + range.count() as u64;
            i = i + 1;
        }
        assert(keys.take(i as int) =~= keys);
        n
    }

    /// The highest height of pending or active work of a lane.
    #[verifier::spinoff_prover]
    #[verifier::rlimit(50)]
    pub fn highest_end(&self, priority: RangePriority) -> (r: Option<Height>)
        requires
            self.wf(),
        ensures
            match r {
                Some(end) => {
                    &&& exists|w: RangeRequest| #[trigger]
                        work_model::resident(self@, w) && w.priority == priority
                            && w.last() == end.0
                    &&& forall|w: RangeRequest| #[trigger]
                        work_model::resident(self@, w) && w.priority == priority
                            ==> w.last() <= end.0
                },
                None => forall|w: RangeRequest| #[trigger]
                    work_model::resident(self@, w) ==> w.priority != priority,
            },
    {
        let mut best: Option<Height> = None;
        let mut i: usize = 0;
        while i < self.forward.len()
            invariant
                i <= self.forward@.len(),
                forall|j: int|
                    0 <= j < i && (#[trigger] self.forward@[j]).priority == priority
                        ==> best is Some && self.forward@[j].last() <= (best->0).0,
                best matches Some(end) ==> exists|w: RangeRequest| #[trigger]
                    work_model::resident(self@, w) && w.priority == priority && w.last()
                        == end.0,
            decreases self.forward@.len() - i,
        {
            let range = self.forward[i];
            if range.priority == priority {
                let end = range.end_height();
                assert(work_model::resident(self@, range)) by {
                    assert(self.forward@[i as int] == range);
                }
                best = Some(higher(best, end));
            }
            i = i + 1;
        }
        let mut r: usize = 0;
        while r < self.authenticate_roots.len()
            invariant
                r <= self.authenticate_roots@.len(),
                forall|j: int|
                    0 <= j < self.forward@.len() && (#[trigger] self.forward@[j]).priority
                        == priority ==> best is Some && self.forward@[j].last() <= (best->0).0,
                forall|j: int|
                    0 <= j < r && (#[trigger] self.authenticate_roots@[j]).priority == priority
                        ==> best is Some && self.authenticate_roots@[j].last() <= (best->0).0,
                best matches Some(end) ==> exists|w: RangeRequest| #[trigger]
                    work_model::resident(self@, w) && w.priority == priority && w.last()
                        == end.0,
            decreases self.authenticate_roots@.len() - r,
        {
            let range = self.authenticate_roots[r];
            if range.priority == priority {
                let end = range.end_height();
                assert(work_model::resident(self@, range)) by {
                    assert(self.authenticate_roots@[r as int] == range);
                }
                best = Some(higher(best, end));
            }
            r = r + 1;
        }
        let mut k: usize = 0;
        while k < self.active.len()
            invariant
                self.wf(),
                k <= self.active.items().len(),
                forall|j: int|
                    0 <= j < self.authenticate_roots@.len() && (
                    #[trigger] self.authenticate_roots@[j]).priority == priority ==> best is Some
                        && self.authenticate_roots@[j].last() <= (best->0).0,
                forall|j: int|
                    0 <= j < self.forward@.len() && (#[trigger] self.forward@[j]).priority
                        == priority ==> best is Some && self.forward@[j].last() <= (best->0).0,
                forall|j: int|
                    0 <= j < k && (#[trigger] self.active.items()[j]).0.priority == priority
                        ==> best is Some && self.active.items()[j].0.last() <= (best->0).0,
                best matches Some(end) ==> exists|w: RangeRequest| #[trigger]
                    work_model::resident(self@, w) && w.priority == priority && w.last()
                        == end.0,
            decreases self.active.items().len() - k,
        {
            let range = self.active.entry(k).0;
            if range.priority == priority {
                let end = range.end_height();
                proof {
                    self.active.lemma_entry(k as int);
                    assert(work_model::resident(self@, range));
                }
                best = Some(higher(best, end));
            }
            k = k + 1;
        }
        proof {
            assert forall|w: RangeRequest| #[trigger]
                work_model::resident(self@, w) && w.priority == priority implies best
                is Some && w.last() <= (best->0).0 by {
                if self@.forward.contains(w) {
                    let j = choose|j: int|
                        0 <= j < self.forward@.len() && self.forward@[j] == w;
                    assert(self.forward@[j].priority == priority);
                } else if self@.authenticate_roots.contains(w) {
                    let j = choose|j: int|
                        0 <= j < self.authenticate_roots@.len() && self.authenticate_roots@[j]
                            == w;
                    assert(self.authenticate_roots@[j].priority == priority);
                } else {
                    let j = vec_map::index_of_key(self.active.items(), w);
                    assert(self.active.items()[j].0 == w);
                }
            }
        }
        best
    }

    /// The lowest height that is pending or active.
    #[verifier::spinoff_prover]
    #[verifier::rlimit(50)]
    pub fn oldest_missing_height(&self) -> (r: Option<Height>)
        requires
            self.wf(),
        ensures
            match r {
                Some(start) => {
                    &&& exists|w: RangeRequest| #[trigger]
                        work_model::resident(self@, w) && w.first() == start.0
                    &&& forall|w: RangeRequest| #[trigger]
                        work_model::resident(self@, w) ==> start.0 <= w.first()
                },
                None => forall|w: RangeRequest| !#[trigger] work_model::resident(self@, w),
            },
    {
        let forward = lowest_start(&self.forward);
        let roots = lowest_start(&self.authenticate_roots);
        let mut best = lower(forward, roots);
        proof {
            if let Some(start) = forward {
                let j = choose|j: int|
                    0 <= j < self.forward@.len() && (#[trigger] self.forward@[j]).first()
                        == start.0;
                assert(work_model::resident(self@, self.forward@[j]));
            }
            if let Some(start) = roots {
                let j = choose|j: int|
                    0 <= j < self.authenticate_roots@.len() && (
                    #[trigger] self.authenticate_roots@[j]).first() == start.0;
                assert(work_model::resident(self@, self.authenticate_roots@[j]));
            }
        }
        let mut k: usize = 0;
        while k < self.active.len()
            invariant
                self.wf(),
                k <= self.active.items().len(),
                forall|j: int|
                    0 <= j < self.forward@.len() ==> best is Some && (best->0).0 <= (
                    #[trigger] self.forward@[j]).first(),
                forall|j: int|
                    0 <= j < self.authenticate_roots@.len() ==> best is Some && (best->0).0 <= (
                    #[trigger] self.authenticate_roots@[j]).first(),
                forall|j: int|
                    0 <= j < k ==> best is Some && (best->0).0 <= (
                    #[trigger] self.active.items()[j]).0.first(),
                best matches Some(start) ==> exists|w: RangeRequest| #[trigger]
                    work_model::resident(self@, w) && w.first() == start.0,
            decreases self.active.items().len() - k,
        {
            let range = self.active.entry(k).0;
            proof {
                self.active.lemma_entry(k as int);
                assert(work_model::resident(self@, range));
            }
            best = lower(best, Some(range.start_height()));
            k = k + 1;
        }
        proof {
            assert forall|w: RangeRequest| #[trigger] work_model::resident(self@, w) implies best
                is Some && (best->0).0 <= w.first() by {
                if self@.forward.contains(w) {
                    let j = choose|j: int|
                        0 <= j < self.forward@.len() && self.forward@[j] == w;
                    assert(self.forward@[j].first() == w.first());
                } else if self@.authenticate_roots.contains(w) {
                    let j = choose|j: int|
                        0 <= j < self.authenticate_roots@.len() && self.authenticate_roots@[j]
                            == w;
                    assert(self.authenticate_roots@[j].first() == w.first());
                } else {
                    let j = vec_map::index_of_key(self.active.items(), w);
                    assert(self.active.items()[j].0 == w);
                }
            }
        }
        best
    }

    /// How much active work is in flight, buffered and committing.
    #[verifier::spinoff_prover]
    #[verifier::rlimit(50)]
    pub fn active_counts(&self) -> (r: (usize, usize, usize))
        requires
            self.wf(),
        ensures
            r.0 == work_model::in_flight(self@.active).len(),
            r.1 == work_model::buffered(self@.active).len(),
            r.2 == work_model::committing(self@.active).len(),
    {
        let ghost items = self.active.items();
        let ghost active = self@.active;
        let ghost mut flying: Set<RangeRequest> = Set::empty();
        let ghost mut waiting: Set<RangeRequest> = Set::empty();
        let ghost mut working: Set<RangeRequest> = Set::empty();
        let mut in_flight: usize = 0;
        let mut buffered: usize = 0;
        let mut committing: usize = 0;
        let mut i: usize = 0;
        while i < self.active.len()
            invariant
                self.active.wf(),
                items == self.active.items(),
                active == self.active@,
                i <= items.len(),
                in_flight + buffered + committing == i,
                flying.finite() && flying.len() == in_flight,
                waiting.finite() && waiting.len() == buffered,
                working.finite() && working.len() == committing,
                forall|r: RangeRequest| #[trigger]
                    flying.contains(r) <==> first_entries_have(items, i as int, r)
                        && active[r] is InFlight,
                forall|r: RangeRequest| #[trigger]
                    waiting.contains(r) <==> first_entries_have(items, i as int, r)
                        && active[r] is Buffered,
                forall|r: RangeRequest| #[trigger]
                    working.contains(r) <==> first_entries_have(items, i as int, r)
                        && active[r] is Committing,
            decreases items.len() - i,
        {
            let (range, state) = self.active.entry(i);
            proof {
                self.active.lemma_entry(i as int);
                assert forall|r: RangeRequest| #[trigger]
                    first_entries_have(items, i + 1, r) == (first_entries_have(items, i as int, r)
                        || r == range) by {
                    if first_entries_have(items, i + 1, r) {
                        let j = choose|j: int| 0 <= j < i + 1 && (#[trigger] items[j]).0 == r;
                        if j < i {
                            assert(items[j].0 == r);
                        }
                    }
                    if r == range {
                        assert(items[i as int].0 == r);
                    }
                    if first_entries_have(items, i as int, r) {
                        let j = choose|j: int| 0 <= j < i && (#[trigger] items[j]).0 == r;
                        assert(items[j].0 == r);
                    }
                }
                assert(!first_entries_have(items, i as int, range));
            }
            match state {
                HeaderWorkState::InFlight { .. } => {
                    in_flight = in_flight + 1;
                    proof {
                        flying = flying.insert(range);
                    }
                },
                HeaderWorkState::Buffered { .. } => {
                    buffered = buffered + 1;
                    proof {
                        waiting = waiting.insert(range);
                    }
                },
                HeaderWorkState::Committing { .. } => {
                    committing = committing + 1;
                    proof {
                        working = working.insert(range);
                    }
                },
            }
            i = i + 1;
        }
        proof {
            assert forall|r: RangeRequest| #[trigger]
                first_entries_have(items, i as int, r) == active.contains_key(r) by {
                if first_entries_have(items, i as int, r) {
                    let j = choose|j: int| 0 <= j < i && (#[trigger] items[j]).0 == r;
                    self.active.lemma_entry(j);
                }
                if active.contains_key(r) {
                    let j = vec_map::index_of_key(items, r);
                    assert(items[j].0 == r);
                }
            }
            assert(flying =~= work_model::in_flight(active));
            assert(waiting =~= work_model::buffered(active));
            assert(working =~= work_model::committing(active));
        }
        (in_flight, buffered, committing)
    }

    /// When maintenance is due next, having noticed what is due by now.
    ///
    /// A backoff that is over is noticed once: it asks for maintenance now, and then no more.
    #[verifier::spinoff_prover]
    #[verifier::rlimit(50)]
    pub fn next_retry_deadline(&mut self, now: Instant) -> (r: Option<Instant>)
        requires
            old(self).wf(),
        ensures
            final(self).wf(),
            final(self)@ == work_model::maintained(old(self)@, now),
            match r {
                Some(at) => {
                    &&& work_model::is_deadline(old(self)@, now, at)
                    &&& forall|other: Instant| #[trigger]
                        work_model::is_deadline(old(self)@, now, other) ==> at.nanos <= other.nanos
                },
                None => forall|at: Instant| !#[trigger]
                    work_model::is_deadline(old(self)@, now, at),
            },
    {
        self.purge_avoidance(now);
        let any_due = self.settle_delayed(now);
        let ghost m = self@;
        let ghost q = old(self)@;
        assert(m =~= work_model::maintained(q, now));
        let avoidance = earliest_avoidance(&self.retry_avoidance);
        let backoff = earliest_backoff(&self.delayed_retries);
        let mut best = earlier(avoidance, backoff);
        if any_due {
            best = earlier(best, Some(now));
        }
        proof {
            if let Some(at) = avoidance {
                let k = choose|k: AvoidKey| #[trigger]
                    m.retry_avoidance.contains_key(k) && m.retry_avoidance[k] == at;
                assert(m.retry_avoidance.contains_key(k));
                assert(work_model::is_deadline(q, now, at));
            }
            if let Some(at) = backoff {
                let k = choose|k: StartKey| #[trigger]
                    m.delayed_retries.contains_key(k) && m.delayed_retries[k].until == Some(at);
                assert(m.delayed_retries.contains_key(k));
                assert(work_model::is_deadline(q, now, at));
            }
            if any_due {
                assert(work_model::is_deadline(q, now, now));
            }
            assert forall|other: Instant| #[trigger]
                work_model::is_deadline(q, now, other) implies best is Some && (best->0).nanos
                <= other.nanos by {
                if exists|k: AvoidKey| #[trigger]
                    m.retry_avoidance.contains_key(k) && m.retry_avoidance[k] == other {
                } else if exists|k: StartKey| #[trigger]
                    m.delayed_retries.contains_key(k) && m.delayed_retries[k].until == Some(
                        other,
                    ) {
                } else {
                    assert(any_due);
                }
            }
        }
        best
    }

    /// Makes delayed work whose backoff is over eligible for good, and says whether there was any.
    #[verifier::spinoff_prover]
    #[verifier::rlimit(50)]
    fn settle_delayed(&mut self, now: Instant) -> (any_due: bool)
        requires
            old(self).wf(),
        ensures
            final(self).wf(),
            final(self)@ == (QueueView {
                delayed_retries: old(self)@.delayed_retries.map_values(
                    |d: DelayedRetry| work_model::settled(d, now),
                ),
                ..old(self)@
            }),
            any_due <==> exists|k: StartKey| #[trigger]
                old(self)@.delayed_retries.contains_key(k) && work_model::is_due(
                    old(self)@.delayed_retries[k],
                    now,
                ),
    {
        let ghost start = self.delayed_retries.items();
        let ghost before = self.delayed_retries@;
        let mut any_due = false;
        let mut i: usize = 0;
        while i < self.delayed_retries.len()
            invariant
                self.wf(),
                old(self).wf(),
                start == old(self).delayed_retries.items(),
                self.delayed_retries.items().len() == start.len(),
                i <= start.len(),
                self.forward == old(self).forward,
                self.authenticate_roots == old(self).authenticate_roots,
                self.active == old(self).active,
                self.pending_starts == old(self).pending_starts,
                self.active_starts == old(self).active_starts,
                self.retry_avoidance == old(self).retry_avoidance,
                self.covered == old(self).covered,
                self.epoch == old(self).epoch,
                self.oldest_missing_since == old(self).oldest_missing_since,
                forall|j: int|
                    0 <= j < start.len() ==> #[trigger] self.delayed_retries.items()[j] == (
                        start[j].0,
                        if j < i {
                            work_model::settled(start[j].1, now)
                        } else {
                            start[j].1
                        },
                    ),
                any_due <==> exists|j: int|
                    0 <= j < i && work_model::is_due((#[trigger] start[j]).1, now),
            decreases start.len() - i,
        {
            let retry = self.delayed_retries.entry(i).1;
            assert(self.delayed_retries.items()[i as int] == start[i as int]);
            if let Some(until) = retry.until {
                if !until.is_later_than(now) {
                    self.delayed_retries.replace_value(
                        i,
                        DelayedRetry { until: None, attempts: retry.attempts },
                    );
                    any_due = true;
                    assert(work_model::is_due(start[i as int].1, now));
                }
            }
            i = i + 1;
        }
        proof {
            let after = self.delayed_retries.items();
            assert forall|k: StartKey| vec_map::has_key(after, k) == #[trigger] vec_map::has_key(
                start,
                k,
            ) by {
                if vec_map::has_key(after, k) {
                    let j = vec_map::index_of_key(after, k);
                    assert(start[j].0 == k);
                }
                if vec_map::has_key(start, k) {
                    let j = vec_map::index_of_key(start, k);
                    assert(after[j].0 == k);
                }
            }
            assert forall|k: StartKey| vec_map::has_key(after, k) implies #[trigger]
                self.delayed_retries@[k] == work_model::settled(before[k], now) by {
                let j = vec_map::index_of_key(after, k);
                self.delayed_retries.lemma_entry(j);
                old(self).delayed_retries.lemma_entry(j);
            }
            assert(self.delayed_retries@ =~= before.map_values(
                |d: DelayedRetry| work_model::settled(d, now),
            ));
            if any_due {
                let j = choose|j: int|
                    0 <= j < start.len() && work_model::is_due((#[trigger] start[j]).1, now);
                old(self).delayed_retries.lemma_entry(j);
                assert(before.contains_key(start[j].0));
            }
            assert forall|k: StartKey| #[trigger]
                before.contains_key(k) && work_model::is_due(before[k], now) implies any_due by {
                let j = vec_map::index_of_key(start, k);
                assert(start[j].0 == k);
                old(self).delayed_retries.lemma_entry(j);
            }
        }
        any_due
    }

    /// Whether a peer with a given tip is kept from some pending work.
    pub fn peer_retry_avoided(
        &self,
        peer: &ZakuraPeerId,
        advertised_tip: Height,
        now: Instant,
    ) -> (r: bool)
        requires
            self.wf(),
        ensures
            r == work_model::kept_from_pending(self@, *peer, advertised_tip, now),
    {
        let ghost all = self@.forward + self@.authenticate_roots;
        let n: usize = self.forward.len();
        let mut i: usize = 0;
        while i < self.forward.len()
            invariant
                self.wf(),
                n == self.forward@.len(),
                i <= n,
                all == self@.forward + self@.authenticate_roots,
                forall|j: int|
                    0 <= j < i ==> !((#[trigger] all[j]).last() <= advertised_tip.0
                        && work_model::avoided(self@, *peer, all[j], now)),
            decreases n - i,
        {
            let range = self.forward[i];
            assert(all[i as int] == range);
            if self.keeps_from(peer, &range, advertised_tip, now) {
                return true;
            }
            i = i + 1;
        }
        let mut k: usize = 0;
        while k < self.authenticate_roots.len()
            invariant
                self.wf(),
                n == self.forward@.len(),
                k <= self.authenticate_roots@.len(),
                all == self@.forward + self@.authenticate_roots,
                forall|j: int|
                    0 <= j < n + k ==> !((#[trigger] all[j]).last() <= advertised_tip.0
                        && work_model::avoided(self@, *peer, all[j], now)),
            decreases self.authenticate_roots@.len() - k,
        {
            let range = self.authenticate_roots[k];
            assert(all[n + k] == range);
            if self.keeps_from(peer, &range, advertised_tip, now) {
                return true;
            }
            k = k + 1;
        }
        false
    }

    /// Whether a peer with a given tip is kept from a piece of work that it has.
    fn keeps_from(
        &self,
        peer: &ZakuraPeerId,
        range: &RangeRequest,
        advertised_tip: Height,
        now: Instant,
    ) -> (r: bool)
        requires
            self.wf(),
        ensures
            r == (range.last() <= advertised_tip.0 && work_model::avoided(
                self@,
                *peer,
                *range,
                now,
            )),
    {
        let end = range.end_height();
        if end.0 > advertised_tip.0 {
            return false;
        }
        match self.retry_avoidance.get(&AvoidKey { peer: *peer, work: key_of(range) }) {
            Some(until) => until.is_later_than(now),
            None => false,
        }
    }
}

/// The earlier of two instants, of which there may be none.
fn earlier(a: Option<Instant>, b: Option<Instant>) -> (r: Option<Instant>)
    ensures
        r is None <==> a is None && b is None,
        r is Some ==> r == a || r == b,
        a matches Some(x) ==> (r->0).nanos <= x.nanos,
        b matches Some(x) ==> (r->0).nanos <= x.nanos,
{
    match (a, b) {
        (Some(x), Some(y)) => if y.is_later_than(x) {
            Some(x)
        } else {
            Some(y)
        },
        (Some(x), None) => Some(x),
        (None, y) => y,
    }
}

/// When the first avoidance ends.
fn earliest_avoidance(avoidance: &VecMap<AvoidKey, Instant>) -> (r: Option<Instant>)
    requires
        avoidance.wf(),
    ensures
        match r {
            Some(at) => {
                &&& exists|k: AvoidKey| #[trigger]
                    avoidance@.contains_key(k) && avoidance@[k] == at
                &&& forall|k: AvoidKey| #[trigger]
                    avoidance@.contains_key(k) ==> at.nanos <= avoidance@[k].nanos
            },
            None => avoidance@ == Map::<AvoidKey, Instant>::empty(),
        },
{
    let ghost items = avoidance.items();
    let mut best: Option<Instant> = None;
    let mut i: usize = 0;
    while i < avoidance.len()
        invariant
            avoidance.wf(),
            items == avoidance.items(),
            i <= items.len(),
            i > 0 <==> best is Some,
            best matches Some(at) ==> exists|k: AvoidKey| #[trigger]
                avoidance@.contains_key(k) && avoidance@[k] == at,
            forall|j: int| 0 <= j < i ==> (best->0).nanos <= (#[trigger] items[j]).1.nanos,
        decreases items.len() - i,
    {
        proof {
            avoidance.lemma_entry(i as int);
        }
        best = earlier(best, Some(avoidance.entry(i).1));
        i = i + 1;
    }
    proof {
        assert forall|k: AvoidKey| #[trigger] avoidance@.contains_key(k) implies best is Some && (
        best->0).nanos <= avoidance@[k].nanos by {
            let j = vec_map::index_of_key(items, k);
            assert(items[j].0 == k);
            avoidance.lemma_entry(j);
        }
        if best is None {
            assert(avoidance@ =~= Map::<AvoidKey, Instant>::empty());
        }
    }
    best
}

/// When the first backoff ends.
fn earliest_backoff(delayed: &VecMap<StartKey, DelayedRetry>) -> (r: Option<Instant>)
    requires
        delayed.wf(),
    ensures
        match r {
            Some(at) => {
                &&& exists|k: StartKey| #[trigger]
                    delayed@.contains_key(k) && delayed@[k].until == Some(at)
                &&& forall|k: StartKey| #[trigger]
                    delayed@.contains_key(k) && delayed@[k].until is Some ==> at.nanos <= (
                    delayed@[k].until->0).nanos
            },
            None => forall|k: StartKey| #[trigger]
                delayed@.contains_key(k) ==> delayed@[k].until is None,
        },
{
    let ghost items = delayed.items();
    let mut best: Option<Instant> = None;
    let mut i: usize = 0;
    while i < delayed.len()
        invariant
            delayed.wf(),
            items == delayed.items(),
            i <= items.len(),
            best matches Some(at) ==> exists|k: StartKey| #[trigger]
                delayed@.contains_key(k) && delayed@[k].until == Some(at),
            forall|j: int|
                0 <= j < i && (#[trigger] items[j]).1.until is Some ==> best is Some && (
                best->0).nanos <= (items[j].1.until->0).nanos,
        decreases items.len() - i,
    {
        proof {
            delayed.lemma_entry(i as int);
        }
        best = earlier(best, delayed.entry(i).1.until);
        i = i + 1;
    }
    proof {
        assert forall|k: StartKey| #[trigger]
            delayed@.contains_key(k) && delayed@[k].until is Some implies best is Some && (
        best->0).nanos <= (delayed@[k].until->0).nanos by {
            let j = vec_map::index_of_key(items, k);
            assert(items[j].0 == k);
            delayed.lemma_entry(j);
        }
    }
    best
}

/// The later of two heights.
fn higher(best: Option<Height>, height: Height) -> (r: Height)
    ensures
        r.0 >= height.0,
        best matches Some(b) ==> r.0 >= b.0,
        r == height || best == Some(r),
{
    match best {
        Some(b) => if b.0 > height.0 {
            b
        } else {
            height
        },
        None => height,
    }
}

/// The lower of two heights, of which there may be none.
fn lower(a: Option<Height>, b: Option<Height>) -> (r: Option<Height>)
    ensures
        r is None <==> a is None && b is None,
        r is Some ==> r == a || r == b,
        a matches Some(x) ==> (r->0).0 <= x.0,
        b matches Some(x) ==> (r->0).0 <= x.0,
{
    match (a, b) {
        (Some(x), Some(y)) => if x.0 <= y.0 {
            Some(x)
        } else {
            Some(y)
        },
        (Some(x), None) => Some(x),
        (None, y) => y,
    }
}

/// The lowest first height in a lane.
fn lowest_start(lane: &VecDeque<RangeRequest>) -> (r: Option<Height>)
    ensures
        match r {
            Some(start) => {
                &&& exists|j: int| 0 <= j < lane@.len() && (#[trigger] lane@[j]).first() == start.0
                &&& forall|j: int| 0 <= j < lane@.len() ==> start.0 <= (#[trigger] lane@[j]).first()
            },
            None => lane@.len() == 0,
        },
{
    let mut best: Option<Height> = None;
    let mut i: usize = 0;
    while i < lane.len()
        invariant
            i <= lane@.len(),
            i > 0 <==> best is Some,
            best matches Some(start) ==> exists|j: int|
                0 <= j < lane@.len() && (#[trigger] lane@[j]).first() == start.0,
            forall|j: int| 0 <= j < i ==> (best->0).0 <= (#[trigger] lane@[j]).first(),
        decreases lane@.len() - i,
    {
        let start = lane[i].start_height();
        assert(lane@[i as int].first() == start.0);
        best = lower(best, Some(start));
        i = i + 1;
    }
    best
}

/// Whether one of the first `n` entries has a key.
spec fn first_entries_have(
    items: Seq<(RangeRequest, HeaderWorkState)>,
    n: int,
    r: RangeRequest,
) -> bool {
    exists|j: int| 0 <= j < n && (#[trigger] items[j]).0 == r
}

/// The entries of active work are the active work, each once.
proof fn lemma_entries_enumerate(active: &VecMap<RangeRequest, HeaderWorkState>)
    requires
        active.wf(),
    ensures
        work_model::enumerates(active@, work_model::entry_keys(active.items())),
{
    let items = active.items();
    let keys = work_model::entry_keys(items);
    assert forall|i: int, j: int| 0 <= i < keys.len() && 0 <= j < keys.len() && i != j implies keys[i]
        != keys[j] by {
        assert(items[i].0 == keys[i]);
        assert(items[j].0 == keys[j]);
    }
    assert forall|r: RangeRequest| #[trigger] keys.contains(r) <==> active@.contains_key(r) by {
        if keys.contains(r) {
            let i = choose|i: int| 0 <= i < keys.len() && keys[i] == r;
            active.lemma_entry(i);
        }
        if active@.contains_key(r) {
            let i = vec_map::index_of_key(items, r);
            assert(items[i].0 == r);
            assert(keys[i] == r);
        }
    }
}

/// Fewer pieces of work have no more heights.
proof fn lemma_total_heights_take(ranges: Seq<RangeRequest>, n: int)
    requires
        0 <= n <= ranges.len(),
    ensures
        work_model::total_heights(ranges.take(n)) <= work_model::total_heights(ranges),
    decreases ranges.len(),
{
    if n == ranges.len() {
        assert(ranges.take(n) =~= ranges);
    } else {
        lemma_total_heights_take(ranges.drop_last(), n);
        assert(ranges.drop_last().take(n) =~= ranges.take(n));
    }
}

/// How many heights a lane has in all.
fn lane_heights(lane: &VecDeque<RangeRequest>) -> (n: u64)
    requires
        work_model::total_heights(lane@) <= u64::MAX,
    ensures
        n == work_model::total_heights(lane@),
{
    let mut n: u64 = 0;
    let mut i: usize = 0;
    assert(lane@.take(0) =~= Seq::empty());
    while i < lane.len()
        invariant
            i <= lane@.len(),
            n == work_model::total_heights(lane@.take(i as int)),
            work_model::total_heights(lane@) <= u64::MAX,
        decreases lane@.len() - i,
    {
        let range = lane[i];
        proof {
            assert(lane@.take(i + 1).drop_last() =~= lane@.take(i as int));
            assert(lane@.take(i + 1).last() == range);
            lemma_total_heights_take(lane@, i + 1);
        }
        n = n + range.count() as u64;
        i = i + 1;
    }
    assert(lane@.take(i as int) =~= lane@);
    n
}

/// Lets one event pass per interval.
#[derive(Clone, Copy, Debug, PartialEq, Eq, Structural)]
pub struct RateMeter {
    /// When the next event may pass.
    pub next_allowed: Instant,
    /// How long after an event the next may pass.
    pub interval: Duration,
}

impl RateMeter {
    /// A meter that lets an event pass from now on.
    pub fn new(interval: Duration, now: Instant) -> (meter: Self)
        ensures
            meter == (RateMeter { next_allowed: now, interval }),
    {
        RateMeter { next_allowed: now, interval }
    }

    /// Whether an event may pass.
    pub fn is_ready(&self, now: Instant) -> (r: bool)
        ensures
            r == !self.next_allowed.later_than(now),
    {
        !self.next_allowed.is_later_than(now)
    }

    /// Lets an event pass, if it may.
    pub fn try_take(&mut self, now: Instant) -> (r: bool)
        requires
            now.nanos + old(self).interval.nanos <= u128::MAX,
        ensures
            r == !old(self).next_allowed.later_than(now),
            *final(self) == (if r {
                RateMeter { next_allowed: now.spec_after(old(self).interval), ..*old(self) }
            } else {
                *old(self)
            }),
    {
        if self.next_allowed.is_later_than(now) {
            return false;
        }
        self.next_allowed = now.after(self.interval);
        true
    }

    /// Counts an event that has passed.
    pub fn mark_taken(&mut self, now: Instant)
        requires
            now.nanos + old(self).interval.nanos <= u128::MAX,
        ensures
            *final(self) == (RateMeter {
                next_allowed: now.spec_after(old(self).interval),
                ..*old(self)
            }),
    {
        self.next_allowed = now.after(self.interval);
    }
}

} // verus!
