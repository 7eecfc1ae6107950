use zakura_network::chain::{BlockHash, Height};
use zakura_network::header_sync::ids::{
    HeaderSyncOperationIdentity, HeaderSyncOperationKind, HeaderSyncRequestId,
    HeaderSyncWireRequestIdentity, ZakuraPeerId,
};
use zakura_network::header_sync::range::{CheckedHeaderRange, RangePriority, RangeRequest};
use zakura_network::header_sync::work_model::{
    AvoidKey, CoveredRange, HeaderWorkState, StartKey,
};
use zakura_network::header_sync::work_queue::{
    backoff_seconds, HeaderHashDedup, HeaderWorkQueue, PeerHeaderState, RateMeter,
};
use zakura_network::time::{Duration, Instant};

const HEADER_SYNC_SEEN_HASH_CAPACITY: usize = 1024;

fn avoidance() -> Duration {
    Duration::from_secs(30)
}

fn start() -> Instant {
    Instant {
        nanos: 1_000_000_000_000,
    }
}

fn later(now: Instant, span: Duration) -> Instant {
    now.after(span)
}

fn peer(byte: u8) -> ZakuraPeerId {
    ZakuraPeerId([byte; 32])
}

fn operation(peer: ZakuraPeerId, session_id: u64) -> HeaderSyncOperationIdentity {
    HeaderSyncOperationIdentity {
        wire_request: HeaderSyncWireRequestIdentity {
            peer,
            session_id,
            request_id: HeaderSyncRequestId::new(1).expect("test request ID is non-zero"),
        },
        op_kind: HeaderSyncOperationKind::CommitHeaders,
    }
}

fn range(start: u32, count: u32, priority: RangePriority) -> RangeRequest {
    RangeRequest {
        range: CheckedHeaderRange::from_count(Height(start), count)
            .expect("test range is non-empty and bounded"),
        anchor_hash: None,
        finalized: false,
        want_tree_aux_roots: true,
        priority,
    }
}

fn peer_state(byte: u8, advertised_tip: u32) -> (ZakuraPeerId, PeerHeaderState) {
    (
        peer(byte),
        PeerHeaderState {
            advertised_tip: Height(advertised_tip),
        },
    )
}

fn forward_of(queue: &HeaderWorkQueue) -> Vec<RangeRequest> {
    queue.forward.iter().copied().collect()
}

#[test]
fn pending_and_active_ranges_are_deduplicated() {
    let now = start();
    let mut queue = HeaderWorkQueue::new();
    let range = range(1, 2, RangePriority::Forward);
    let (peer, state) = peer_state(1, 10);

    queue.ensure_forward(range, now);
    queue.ensure_forward(range, now);
    assert_eq!(queue.pending_len(), 1);

    let claimed = queue
        .next_for_peer(&peer, &state, true, now)
        .expect("peer can claim the pending range");
    queue.mark_assigned(peer, claimed);
    queue.ensure_forward(
        RangeRequest {
            range: CheckedHeaderRange::from_count(Height(1), 3).expect("test range is non-empty"),
            ..range
        },
        now,
    );
    assert_eq!(queue.pending_len(), 0);
    assert!(matches!(
        queue.state(range),
        Some(HeaderWorkState::InFlight { peer: owner }) if owner == peer
    ));

    queue.retry(range);
    queue.retry(range);
    assert_eq!(queue.pending_len(), 1);
    assert_eq!(queue.next_for_peer(&peer, &state, true, now), Some(range));
}

#[test]
fn partial_forward_coverage_preserves_the_interior_suffix() {
    let now = start();
    let mut queue = HeaderWorkQueue::new();
    let first = range(1, 2, RangePriority::Forward);
    let later = range(3, 2, RangePriority::Forward);
    let anchor = BlockHash([9; 32]);
    queue.ensure_forward(first, now);
    queue.ensure_forward(later, now);

    queue.trim_pending_forward_through(Height(1), anchor);

    assert_eq!(
        forward_of(&queue),
        vec![
            RangeRequest {
                range: CheckedHeaderRange::from_count(Height(2), 1)
                    .expect("test suffix is non-empty"),
                anchor_hash: Some(anchor),
                ..first
            },
            later,
        ]
    );
}

#[test]
fn rejected_prefix_clears_its_pending_suffix_anchor() {
    let mut queue = HeaderWorkQueue::new();
    let poisoned = BlockHash([7; 32]);
    let suffix = RangeRequest {
        anchor_hash: Some(poisoned),
        ..range(3, 2, RangePriority::Forward)
    };
    queue.ensure_forward(suffix, start());

    queue.clear_pending_anchor(RangePriority::Forward, suffix.start_height(), poisoned);

    assert_eq!(
        queue.forward.front().and_then(|range| range.anchor_hash),
        None
    );
}

#[test]
fn expired_retry_avoidance_does_not_leave_a_past_deadline() {
    let now = start();
    let mut queue = HeaderWorkQueue::new();
    queue.retry_avoidance.insert(
        AvoidKey {
            peer: peer(2),
            work: StartKey {
                start: Height(1),
                priority: RangePriority::Forward,
            },
        },
        Instant {
            nanos: now.nanos - Duration::from_millis(1).nanos,
        },
    );

    assert_eq!(queue.next_retry_deadline(now), None);
    assert!(queue.retry_avoidance.is_empty());
}

#[test]
fn maximum_height_range_keeps_valid_queue_ownership() {
    let now = start();
    let mut queue = HeaderWorkQueue::new();
    let range = range(u32::MAX, 1, RangePriority::Forward);
    let (peer, state) = peer_state(3, u32::MAX);
    queue.ensure_forward(range, now);

    let claimed = queue
        .next_for_peer(&peer, &state, true, now)
        .expect("maximum-height work is assignable without overflow");
    queue.mark_assigned(peer, claimed);
    assert_eq!(claimed.end_height(), Height(u32::MAX));
    assert!(matches!(
        queue.state(range),
        Some(HeaderWorkState::InFlight { peer: owner }) if owner == peer
    ));
}

#[test]
fn seen_hash_dedup_evicts_the_oldest_entry_at_capacity() {
    let mut seen = HeaderHashDedup::new(HEADER_SYNC_SEEN_HASH_CAPACITY);
    for value in 0..=HEADER_SYNC_SEEN_HASH_CAPACITY {
        let mut bytes = [0; 32];
        bytes[..8].copy_from_slice(
            &u64::try_from(value)
                .expect("the test capacity fits in u64")
                .to_le_bytes(),
        );
        assert!(seen.insert(BlockHash(bytes)));
    }

    assert_eq!(seen.order.len(), HEADER_SYNC_SEEN_HASH_CAPACITY);
    assert!(!seen.contains(&BlockHash([0; 32])));
}

#[test]
fn retry_avoidance_is_local_to_the_failed_peer() {
    let now = start();
    let mut queue = HeaderWorkQueue::new();
    let range = range(1, 1, RangePriority::Forward);
    let (failed_peer, failed_state) = peer_state(2, 10);
    let (other_peer, other_state) = peer_state(3, 10);

    queue.ensure_forward(range, now);
    let claimed = queue
        .next_for_peer(&failed_peer, &failed_state, true, now)
        .expect("failed peer initially claims the range");
    queue.mark_assigned(failed_peer, claimed);
    queue.retry_avoiding(failed_peer, range, now, avoidance());

    assert!(queue.peer_retry_avoided(&failed_peer, failed_state.advertised_tip, now));
    assert_eq!(
        queue.next_for_peer(&failed_peer, &failed_state, true, now),
        None
    );
    assert_eq!(
        queue.next_for_peer(&other_peer, &other_state, true, now),
        Some(range)
    );
}

#[test]
fn root_auth_ineligible_peer_can_take_forward_work() {
    let now = start();
    let mut queue = HeaderWorkQueue::new();
    let auth = range(1, 2, RangePriority::AuthenticateRoots);
    let forward = range(3, 1, RangePriority::Forward);
    let (peer, state) = peer_state(8, 10);
    let max_headers_per_response: u32 = 1;
    queue.ensure(auth, RangePriority::AuthenticateRoots, now);
    queue.ensure_forward(forward, now);

    let effective = 2.min(max_headers_per_response);
    assert_eq!(effective, 1);
    assert_eq!(
        queue.next_for_peer(&peer, &state, effective >= 2, now),
        Some(forward)
    );
    assert_eq!(queue.authenticate_roots.front(), Some(&auth));
}

#[test]
fn delayed_root_retry_does_not_block_forward_work() {
    let now = start();
    let mut queue = HeaderWorkQueue::new();
    let auth = range(1, 2, RangePriority::AuthenticateRoots);
    let forward = range(3, 1, RangePriority::Forward);
    let (peer, state) = peer_state(9, 10);
    queue.ensure_forward(forward, now);
    queue.retry_delayed(auth, now);

    assert_eq!(
        queue.next_for_peer(&peer, &state, true, now),
        Some(forward),
        "forward work remains eligible while root auth backs off"
    );
    let now = later(now, Duration::from_secs(1));
    assert_eq!(queue.next_for_peer(&peer, &state, true, now), Some(auth));
}

#[test]
fn due_delayed_retry_produces_one_immediate_maintenance_deadline() {
    let now = start();
    let mut queue = HeaderWorkQueue::new();
    queue.retry_delayed(range(1, 2, RangePriority::AuthenticateRoots), now);
    let future_deadline = queue
        .next_retry_deadline(now)
        .expect("delayed retry arms maintenance");
    assert!(future_deadline > now);

    let now = later(now, Duration::from_secs(1));
    assert_eq!(queue.next_retry_deadline(now), Some(now));
    assert_eq!(
        queue.next_retry_deadline(now),
        None,
        "due retry is made eligible without a past deadline busy loop"
    );
}

#[test]
fn covered_ranges_merge_and_prune_owned_work_except_commits() {
    let now = start();
    let mut queue = HeaderWorkQueue::new();
    let owner = peer(5);
    let pending = range(1, 1, RangePriority::Forward);
    let in_flight = range(2, 1, RangePriority::Forward);
    let committing = range(3, 1, RangePriority::Forward);

    queue.ensure_forward(pending, now);
    queue.mark_assigned(owner, in_flight);
    queue.mark_assigned(owner, committing);
    queue.mark_buffered(owner, committing);
    let operation = operation(owner, 7);
    queue.mark_committing(operation, committing);

    queue.mark_range_covered(Height(1), Height(2));
    queue.mark_height_covered(Height(3));

    assert_eq!(
        queue.covered,
        vec![CoveredRange {
            start: Height(1),
            end: Height(3),
        }]
    );
    assert_eq!(queue.pending_len(), 0);
    assert!(queue.state(in_flight).is_none());
    assert!(matches!(
        queue.state(committing),
        Some(HeaderWorkState::Committing { operation: active }) if active == operation
    ));

    queue.ensure_forward(pending, now);
    assert_eq!(queue.pending_len(), 0);
}

#[test]
fn forgetting_a_peer_requeues_only_its_in_flight_work() {
    let now = start();
    let mut queue = HeaderWorkQueue::new();
    let forgotten = peer(6);
    let other = peer(7);
    let in_flight = range(1, 1, RangePriority::Forward);
    let buffered = range(2, 1, RangePriority::Forward);
    let committing = range(3, 1, RangePriority::Forward);
    let other_in_flight = range(4, 1, RangePriority::Forward);

    queue.mark_assigned(forgotten, in_flight);
    queue.mark_assigned(forgotten, buffered);
    queue.mark_buffered(forgotten, buffered);
    queue.mark_assigned(forgotten, committing);
    queue.mark_buffered(forgotten, committing);
    let committing_operation = operation(forgotten, 9);
    queue.mark_committing(committing_operation, committing);
    queue.mark_assigned(other, other_in_flight);
    let key = AvoidKey {
        peer: forgotten,
        work: StartKey {
            start: in_flight.start_height(),
            priority: in_flight.priority,
        },
    };
    queue.retry_avoidance.insert(key, later(now, avoidance()));

    queue.forget_peer(&forgotten);

    assert_eq!(forward_of(&queue), vec![in_flight]);
    assert!(matches!(
        queue.state(buffered),
        Some(HeaderWorkState::Buffered { peer }) if peer == forgotten
    ));
    assert!(matches!(
        queue.state(committing),
        Some(HeaderWorkState::Committing { operation }) if operation == committing_operation
    ));
    assert!(matches!(
        queue.state(other_in_flight),
        Some(HeaderWorkState::InFlight { peer }) if peer == other
    ));
    assert!(!queue.retry_avoidance.contains_key(&key));
    assert!((0..queue.retry_avoidance.len())
        .all(|i| queue.retry_avoidance.entry(i).0.peer != forgotten));
}

#[test]
fn narrowing_active_work_updates_start_deduplication() {
    let now = start();
    let mut queue = HeaderWorkQueue::new();
    let owner = peer(8);
    let original = range(1, 3, RangePriority::Forward);
    let narrowed = range(2, 2, RangePriority::Forward);

    queue.mark_assigned(owner, original);
    queue.narrow_queued_range(original, narrowed);

    assert!(queue.state(original).is_none());
    assert!(matches!(
        queue.state(narrowed),
        Some(HeaderWorkState::InFlight { peer }) if peer == owner
    ));
    queue.ensure_forward(original, now);
    queue.ensure_forward(narrowed, now);
    assert_eq!(forward_of(&queue), vec![original]);
}

#[test]
fn work_queue_transitions_have_one_explicit_owner() {
    let owner = peer(144);
    let range = RangeRequest {
        range: CheckedHeaderRange::from_count(Height(1), 2).expect("test range is non-empty"),
        anchor_hash: Some(BlockHash([1; 32])),
        finalized: false,
        want_tree_aux_roots: true,
        priority: RangePriority::Forward,
    };
    let mut queue = HeaderWorkQueue::new();
    queue.ensure_forward(range, start());
    let pending = queue.forward.pop_front().expect("range is pending");
    queue.mark_assigned(owner, pending);
    assert!(matches!(
        queue.state(range),
        Some(HeaderWorkState::InFlight { peer }) if peer == owner
    ));
    queue.mark_buffered(owner, range);
    assert!(matches!(
        queue.state(range),
        Some(HeaderWorkState::Buffered { peer }) if peer == owner
    ));
    let operation = operation(owner, 7);
    queue.mark_committing(operation, range);
    assert!(matches!(
        queue.state(range),
        Some(HeaderWorkState::Committing { operation: active }) if active == operation
    ));
    queue.complete(range);
    assert!(queue.state(range).is_none());
}

#[test]
fn header_ranges_are_non_empty_and_stay_in_range() {
    assert!(CheckedHeaderRange::from_count(Height(5), 0).is_none());
    assert!(CheckedHeaderRange::from_count(Height(u32::MAX), 2).is_none());
    let whole = CheckedHeaderRange::from_count(Height(0), u32::MAX).expect("range is bounded");
    assert_eq!(whole.end_height(), Height(u32::MAX - 1));
    assert_eq!(whole.count(), u32::MAX);
    let work = range(10, 5, RangePriority::Forward);
    assert_eq!(work.suffix_after(Height(14), BlockHash([1; 32])), None);
    let suffix = work
        .suffix_after(Height(11), BlockHash([1; 32]))
        .expect("heights are left");
    assert_eq!(suffix.start_height(), Height(12));
    assert_eq!(suffix.end_height(), Height(14));
    assert_eq!(suffix.anchor_hash, Some(BlockHash([1; 32])));
}

#[test]
fn seen_hash_dedup_reports_only_new_hashes() {
    let mut seen = HeaderHashDedup::new(2);
    assert!(seen.insert(BlockHash([1; 32])));
    assert!(!seen.insert(BlockHash([1; 32])));
    assert!(seen.insert(BlockHash([2; 32])));
    assert!(seen.insert(BlockHash([3; 32])));
    assert!(!seen.contains(&BlockHash([1; 32])));
    assert!(seen.contains(&BlockHash([2; 32])));
    assert!(seen.insert(BlockHash([1; 32])));
    assert!(!seen.contains(&BlockHash([2; 32])));

    let mut none = HeaderHashDedup::new(0);
    assert!(none.insert(BlockHash([1; 32])));
    assert!(none.insert(BlockHash([1; 32])));
    assert_eq!(none.order.len(), 0);
}

#[test]
fn repair_work_is_never_queued() {
    let mut queue = HeaderWorkQueue::new();
    let repair = range(1, 2, RangePriority::Repair);
    queue.ensure(repair, RangePriority::Repair, start());
    assert!(!queue.has_pending());
    queue.mark_assigned(peer(1), repair);
    queue.retry(repair);
    assert!(!queue.has_pending());
    assert_eq!(queue.state(repair), None);
}

#[test]
fn covered_intervals_merge_only_when_they_touch() {
    let mut queue = HeaderWorkQueue::new();
    queue.mark_range_covered(Height(10), Height(12));
    queue.mark_range_covered(Height(1), Height(2));
    queue.mark_range_covered(Height(20), Height(20));
    queue.mark_range_covered(Height(9), Height(8));
    let covered = |start: u32, end: u32| CoveredRange {
        start: Height(start),
        end: Height(end),
    };
    assert_eq!(
        queue.covered,
        vec![covered(1, 2), covered(10, 12), covered(20, 20)]
    );
    queue.mark_range_covered(Height(3), Height(9));
    assert_eq!(queue.covered, vec![covered(1, 12), covered(20, 20)]);
    queue.mark_range_covered(Height(0), Height(u32::MAX));
    assert_eq!(queue.covered, vec![covered(0, u32::MAX)]);
    queue.mark_height_covered(Height(u32::MAX));
    assert_eq!(queue.covered, vec![covered(0, u32::MAX)]);
    assert!(queue.is_covered(range(7, 3, RangePriority::Forward)));
    assert!(!queue.is_covered(range(7, 3, RangePriority::AuthenticateRoots)));
}

#[test]
fn coverage_needs_every_height() {
    let mut queue = HeaderWorkQueue::new();
    queue.mark_range_covered(Height(1), Height(4));
    queue.mark_range_covered(Height(6), Height(9));
    assert!(queue.is_covered(range(2, 3, RangePriority::Forward)));
    assert!(!queue.is_covered(range(4, 3, RangePriority::Forward)));
    queue.mark_height_covered(Height(5));
    assert!(queue.is_covered(range(4, 3, RangePriority::Forward)));
}

#[test]
fn backoff_doubles_and_is_capped() {
    let seconds: Vec<u64> = (1..9).map(backoff_seconds).collect();
    assert_eq!(seconds, vec![1, 2, 4, 8, 16, 30, 30, 30]);

    let mut now = start();
    let mut queue = HeaderWorkQueue::new();
    let work = range(1, 2, RangePriority::AuthenticateRoots);
    for expected in [1, 2, 4, 8, 16, 30, 30] {
        queue.retry_delayed(work, now);
        let deadline = queue
            .next_retry_deadline(now)
            .expect("delayed work arms maintenance");
        assert_eq!(deadline, later(now, Duration::from_secs(expected)));
        now = deadline;
    }
}

#[test]
fn retried_work_goes_first_and_stays_single() {
    let now = start();
    let mut queue = HeaderWorkQueue::new();
    let (peer, state) = peer_state(1, 100);
    let first = range(1, 2, RangePriority::Forward);
    let second = range(3, 2, RangePriority::Forward);
    let third = range(5, 2, RangePriority::Forward);
    queue.ensure_forward(first, now);
    queue.ensure_forward(second, now);
    queue.ensure_forward(third, now);
    assert_eq!(queue.next_for_peer(&peer, &state, false, now), Some(first));
    queue.mark_assigned(peer, first);
    assert_eq!(queue.next_for_peer(&peer, &state, false, now), Some(second));
    queue.mark_assigned(peer, second);
    queue.retry(first);
    assert_eq!(forward_of(&queue), vec![first, third]);
    assert_eq!(queue.active_counts(), (1, 0, 0));
    assert_eq!(queue.resident_heights(), 6);
    assert_eq!(queue.highest_end(RangePriority::Forward), Some(Height(6)));
    assert_eq!(queue.highest_end(RangePriority::Repair), None);
    assert_eq!(queue.oldest_missing_height(), Some(Height(1)));
    assert_eq!(queue.oldest_missing_since, Some(now));
}

#[test]
fn highest_end_counts_both_lanes_and_active_work() {
    let now = start();
    let mut queue = HeaderWorkQueue::new();
    let roots = range(4, 3, RangePriority::AuthenticateRoots);
    queue.ensure(roots, RangePriority::AuthenticateRoots, now);
    assert_eq!(
        queue.highest_end(RangePriority::AuthenticateRoots),
        Some(roots.end_height())
    );
    assert_eq!(queue.highest_end(RangePriority::Forward), None);

    let active = range(9, 2, RangePriority::AuthenticateRoots);
    queue.mark_assigned(peer(1), active);
    queue.ensure_forward(range(20, 1, RangePriority::Forward), now);
    assert_eq!(
        queue.highest_end(RangePriority::AuthenticateRoots),
        Some(Height(10))
    );
    assert_eq!(queue.highest_end(RangePriority::Forward), Some(Height(20)));
}

#[test]
fn adding_or_retrying_work_again_changes_nothing() {
    let now = start();
    let mut queue = HeaderWorkQueue::new();
    let older = range(1, 2, RangePriority::Forward);
    let work = range(3, 2, RangePriority::Forward);
    queue.ensure_forward(older, now);
    queue.ensure_forward(work, now);
    queue.ensure_forward(work, later(now, avoidance()));
    assert_eq!(forward_of(&queue), vec![older, work]);
    assert_eq!(queue.oldest_missing_since, Some(now));

    let other = range(5, 2, RangePriority::Forward);
    queue.retry(other);
    queue.retry(other);
    assert_eq!(forward_of(&queue), vec![other, older, work]);
}

#[test]
fn given_work_is_neither_pending_nor_active() {
    let now = start();
    let mut queue = HeaderWorkQueue::new();
    let (peer, state) = peer_state(1, 100);
    let work = range(1, 2, RangePriority::Forward);
    queue.ensure_forward(work, now);
    let given = queue.next_for_peer(&peer, &state, false, now);
    assert_eq!(given, Some(work));
    assert_eq!(queue.state(work), None);
    assert!(!queue.has_pending());
    queue.mark_assigned(peer, work);
    queue.retry(work);
    assert_eq!(queue.state(work), None);
    assert_eq!(forward_of(&queue), vec![work]);
}

#[test]
fn delayed_work_is_given_only_after_its_delay() {
    let now = start();
    let mut queue = HeaderWorkQueue::new();
    let (peer, state) = peer_state(1, 100);
    let work = range(1, 2, RangePriority::Forward);
    queue.retry_delayed(work, now);
    queue.retry_delayed(work, now);
    let over = later(now, Duration::from_secs(2));
    let before = Instant {
        nanos: over.nanos - 1,
    };
    assert_eq!(queue.next_for_peer(&peer, &state, false, before), None);
    assert_eq!(queue.next_for_peer(&peer, &state, false, over), Some(work));
}

#[test]
fn work_above_the_advertised_tip_waits() {
    let now = start();
    let mut queue = HeaderWorkQueue::new();
    queue.ensure_forward(range(1, 10, RangePriority::Forward), now);
    let (low, low_state) = peer_state(1, 9);
    let (high, high_state) = peer_state(2, 10);
    assert_eq!(queue.next_for_peer(&low, &low_state, true, now), None);
    assert_eq!(
        queue.next_for_peer(&high, &high_state, true, now),
        Some(range(1, 10, RangePriority::Forward))
    );
}

#[test]
fn clearing_lanes_drops_their_work_only() {
    let now = start();
    let mut queue = HeaderWorkQueue::new();
    let owner = peer(4);
    let forward = range(1, 2, RangePriority::Forward);
    let active = range(5, 2, RangePriority::Forward);
    let auth = range(1, 2, RangePriority::AuthenticateRoots);
    let auth_active = range(9, 2, RangePriority::AuthenticateRoots);
    queue.ensure_forward(forward, now);
    queue.ensure(auth, RangePriority::AuthenticateRoots, now);
    queue.mark_assigned(owner, active);
    queue.mark_authenticating(operation(owner, 1), auth_active);

    let mut roots_cleared = queue.clone();
    roots_cleared.clear_root_auth();
    assert_eq!(forward_of(&roots_cleared), vec![forward]);
    assert!(roots_cleared.authenticate_roots.is_empty());
    assert!(roots_cleared.state(active).is_some());
    assert!(roots_cleared.state(auth_active).is_none());
    assert_eq!(roots_cleared.epoch, 0);

    queue.clear_forward();
    assert_eq!(queue.epoch, 1);
    assert!(queue.forward.is_empty());
    assert_eq!(queue.authenticate_roots.front(), Some(&auth));
    assert!(queue.state(active).is_none());
    assert!(queue.state(auth_active).is_some());
    queue.ensure_forward(active, now);
    assert_eq!(forward_of(&queue), vec![active]);
}

#[test]
fn only_the_owning_operation_is_retired() {
    let mut queue = HeaderWorkQueue::new();
    let owner = peer(4);
    let work = range(1, 2, RangePriority::Forward);
    let active = operation(owner, 1);
    let other = operation(owner, 2);
    queue.mark_authenticating(active, work);
    queue.retire_operation(&other, work);
    assert_eq!(
        queue.state(work),
        Some(HeaderWorkState::Committing { operation: active })
    );
    queue.retire_operation(&active, work);
    assert_eq!(queue.state(work), None);
}

#[test]
fn rate_meter_spaces_events_by_its_interval() {
    let now = start();
    let mut meter = RateMeter::new(Duration::from_secs(2), now);
    assert!(meter.is_ready(now));
    assert!(meter.try_take(now));
    assert!(!meter.try_take(later(now, Duration::from_millis(1999))));
    assert!(!meter.is_ready(later(now, Duration::from_millis(1999))));
    assert!(meter.is_ready(later(now, Duration::from_secs(2))));
    meter.mark_taken(later(now, Duration::from_secs(1)));
    assert!(!meter.is_ready(later(now, Duration::from_secs(2))));
    assert!(meter.try_take(later(now, Duration::from_secs(3))));
}
