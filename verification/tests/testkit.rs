use serde_json::Value;
use zakura_network::chain::{BlockHash, Height, HEIGHT_MAX, U256};
use zakura_network::engine::Frontier;
use zakura_network::header_sync::ids::ZakuraPeerId;
use zakura_network::testkit::driver::{
    committed_tip, corpus_hash, fuzz_snapshot, needed_range, next_snapshot, sort_timeline,
    wait_until, BlockSyncFrontiers, CommitDriver,
};
use zakura_network::testkit::invariants::{
    assert_core, report, report_rows, CoreViolation, InvariantReport,
};
use zakura_network::testkit::peer::{
    BlockRequest, ServeAction, ServeEvent, ServePhase, ServeState, Wait,
};
use zakura_network::testkit::scenario::{
    fuzz_config, peer_rng, CommitBurstStall, CommitProfile, Degrade, DegradeMode, FuzzOutcome,
    IdleGap, LatencyDist, PeerSpec, Scenario, ServeProfile, TipEvent, TipEventKind,
};
use zakura_network::testkit::trace::{read_row, TraceEvent, TraceRow};
use zakura_network::time::Duration;

fn hash(byte: u8) -> BlockHash {
    BlockHash([byte; 32])
}

fn row(event: &str, peer: Option<&str>, fields: &[(&str, u64)]) -> Value {
    let mut map = serde_json::Map::new();
    map.insert("event".to_owned(), Value::String(event.to_owned()));
    if let Some(peer) = peer {
        map.insert("peer".to_owned(), Value::String(peer.to_owned()));
    }
    for (name, value) in fields {
        map.insert((*name).to_owned(), Value::from(*value));
    }
    Value::Object(map)
}

#[test]
fn trace_rows_are_read_field_by_field() {
    let mut map = serde_json::Map::new();
    map.insert("event".to_owned(), Value::from("block_sync_state"));
    map.insert("outstanding".to_owned(), Value::from(7u64));
    map.insert("budget_reserved".to_owned(), Value::from("many"));
    map.insert("bbr_cwnd".to_owned(), Value::from(-3));
    map.insert("peer".to_owned(), Value::from(5u64));
    let read = read_row(&Value::Object(map));
    assert_eq!(read.event, TraceEvent::State);
    assert_eq!(read.outstanding, Some(7));
    assert_eq!(read.budget_reserved, None);
    assert_eq!(read.bbr_cwnd, None);
    assert_eq!(read.peer, None);
    let nothing = read_row(&Value::from("block_sync_state"));
    assert_eq!(nothing.event, TraceEvent::Other);
    assert_eq!(nothing.outstanding, None);
    assert_eq!(
        read_row(&row("block_peer_parked", Some("a"), &[])).peer,
        Some("a".to_owned())
    );
}

#[test]
fn report_aggregates_the_trace() {
    let rows = vec![
        row("block_peer_connected", Some("a"), &[]),
        row(
            "block_sync_state",
            None,
            &[
                ("outstanding", 3),
                ("budget_reserved", 40),
                ("retained_pipeline_wire_bytes", 9),
            ],
        ),
        row(
            "block_get_blocks_sent",
            Some("a"),
            &[
                ("floor_bypass", 1),
                ("block_progress_proven", 0),
                ("requests_without_block_progress", 4),
                ("bbr_reliability_permille", 900),
            ],
        ),
        row(
            "block_get_blocks_sent",
            Some("b"),
            &[
                ("block_progress_proven", 1),
                ("requests_without_block_progress", 8),
            ],
        ),
        row(
            "block_body_received",
            Some("a"),
            &[
                ("bbr_cwnd_bytes", 100),
                ("bbr_inflight_bytes", 60),
                ("bbr_cwnd", 5),
                ("bbr_reliability_permille", 950),
            ],
        ),
        row("block_peer_bbr", Some("a"), &[("bbr_cwnd_bytes", 70)]),
        row(
            "block_sync_state",
            None,
            &[("outstanding", 2), ("budget_reserved", 10)],
        ),
        row("block_sync_state", None, &[("outstanding", 1)]),
        row("block_peer_protocol_reject", Some("b"), &[]),
        row("block_peer_parked", Some("a"), &[]),
    ];
    assert_eq!(
        report(&rows),
        InvariantReport {
            state_samples: 3,
            max_outstanding: 3,
            peak_budget_reserved: 40,
            peak_retained_pipeline_wire_bytes: 9,
            final_budget_reserved: 10,
            protocol_rejects: 1,
            session_parks: 1,
            total_requests: 2,
            max_requests_without_block_progress: 1,
            max_unproven_requests_without_block_progress: 4,
            floor_bypass_requests: 1,
            peak_cwnd_bytes: 100,
            peak_inflight_bytes: 60,
            peak_cwnd_requests: 5,
            min_reliability_permille: 900,
            final_cwnd_bytes: 70,
            final_reliability_permille: 950,
        }
    );
}

#[test]
fn report_of_an_empty_trace_has_defaults() {
    let empty = report(&vec![]);
    assert_eq!(empty.state_samples, 0);
    assert_eq!(empty.max_outstanding, 0);
    assert_eq!(empty.min_reliability_permille, 1000);
    assert_eq!(empty.final_reliability_permille, 1000);
    assert_eq!(empty.final_cwnd_bytes, 0);
}

fn plain(event: TraceEvent, peer: &str) -> TraceRow {
    TraceRow {
        event,
        peer: Some(peer.to_owned()),
        outstanding: None,
        budget_reserved: None,
        retained_pipeline_wire_bytes: None,
        floor_bypass: None,
        block_progress_proven: None,
        requests_without_block_progress: None,
        bbr_cwnd_bytes: None,
        bbr_inflight_bytes: None,
        bbr_cwnd: None,
        bbr_reliability_permille: None,
    }
}

#[test]
fn streaks_are_counted_per_peer_and_end_with_progress() {
    let sent = TraceEvent::GetBlocksSent;
    let mut rows = vec![
        plain(sent, "a"),
        plain(sent, "b"),
        plain(sent, "a"),
        plain(TraceEvent::BodyReceived, "b"),
        plain(sent, "a"),
        plain(TraceEvent::BodyReceived, "a"),
        plain(sent, "a"),
    ];
    assert_eq!(report_rows(&rows).max_requests_without_block_progress, 3);
    rows.push(plain(TraceEvent::Other, "a"));
    for _ in 0..3 {
        rows.push(plain(sent, "a"));
    }
    assert_eq!(report_rows(&rows).max_requests_without_block_progress, 4);
    rows[6].peer = None;
    assert_eq!(report_rows(&rows).max_requests_without_block_progress, 3);
    for end in [
        TraceEvent::PeerConnected,
        TraceEvent::PeerDisconnected,
        TraceEvent::PeerParked,
        TraceEvent::ProtocolReject,
    ] {
        let rows = vec![plain(sent, "a"), plain(end, "a"), plain(sent, "a")];
        assert_eq!(report_rows(&rows).max_requests_without_block_progress, 1);
    }
}

fn scenario() -> Scenario {
    Scenario::new(
        10,
        7,
        fuzz_config(),
        vec![PeerSpec::fast(1, Height(10)), PeerSpec::fast(2, Height(10))],
    )
}

fn outcome(committed_tip: u32) -> FuzzOutcome {
    FuzzOutcome {
        committed_tip: Height(committed_tip),
        target: Height(10),
        final_retained_memory_bytes: 0,
    }
}

#[test]
fn core_invariants_are_checked_in_order() {
    let mut scenario = scenario();
    scenario.config.max_inflight_block_bytes = 50;
    let mut report = report(&vec![]);
    assert_eq!(
        assert_core(&scenario, &outcome(9), &report, 2),
        Err(CoreViolation::Stalled {
            committed_tip: Height(9),
            target: Height(10),
        })
    );
    assert_eq!(
        assert_core(&scenario, &outcome(10), &report, 2),
        Err(CoreViolation::NoStateSamples)
    );
    report.state_samples = 1;
    report.max_outstanding = 131;
    report.peak_budget_reserved = 51;
    assert_eq!(
        assert_core(&scenario, &outcome(10), &report, 2),
        Err(CoreViolation::OutstandingAboveBound {
            max_outstanding: 131,
            bound: 130,
        })
    );
    report.max_outstanding = 130;
    assert_eq!(
        assert_core(&scenario, &outcome(11), &report, 2),
        Err(CoreViolation::BudgetExceeded {
            peak: 51,
            bound: 50,
        })
    );
    report.peak_budget_reserved = 50;
    assert_eq!(assert_core(&scenario, &outcome(10), &report, 2), Ok(()));
    report.max_outstanding = u64::MAX;
    assert_eq!(
        assert_core(&scenario, &outcome(10), &report, u64::MAX),
        Ok(())
    );
    assert!(outcome(10).reached_target() && !outcome(9).reached_target());
}

#[test]
fn latency_draws_stay_in_range_and_repeat_with_the_seed() {
    let spec = PeerSpec::fast(3, Height(10));
    let uneven = LatencyDist::Uniform {
        low: Duration::from_millis(5),
        high: Duration::from_millis(2),
    };
    let mut first = peer_rng(11, &spec);
    let mut second = peer_rng(11, &spec);
    let mut other = peer_rng(12, &spec);
    let mut differs = false;
    for _ in 0..50 {
        let draw = uneven.sample(&mut first);
        assert!(draw >= Duration::from_millis(2) && draw <= Duration::from_millis(5));
        assert_eq!(draw.nanos % 1_000, 0);
        assert_eq!(draw, uneven.sample(&mut second));
        differs = differs || draw != uneven.sample(&mut other);
    }
    assert!(differs);
    let even = LatencyDist::Uniform {
        low: Duration { nanos: 1_999 },
        high: Duration { nanos: 1_000 },
    };
    assert_eq!(even.sample(&mut first), Duration { nanos: 1_000 });
    assert_eq!(
        LatencyDist::Fixed(Duration { nanos: 17 }).sample(&mut first),
        Duration { nanos: 17 }
    );
    assert_eq!(uneven.latency(3_000), Duration::from_millis(3));
    assert_eq!(
        uneven.latency(u128::MAX),
        Duration::from_micros(u64::MAX)
    );
    assert!(LatencyDist::zero().is_zero() && !uneven.is_zero());
}

#[test]
fn peers_differ_by_their_identity_byte() {
    let spec = PeerSpec::with_serve(2, Height(9), ServeProfile::fast());
    assert_eq!(spec.peer_id(), ZakuraPeerId([2; 32]));
    assert_eq!(spec.rng_seed(5), 5 ^ 0x3c6e_f372_fe94_f82a);
    assert_eq!(PeerSpec::fast(0, Height(9)).rng_seed(5), 5);
    let status = spec.status(hash(8), 77);
    assert_eq!(status.servable_low, Height(1));
    assert_eq!(status.servable_high, Height(9));
    assert_eq!(status.tip_hash, hash(8));
    assert_eq!(status.max_blocks_per_response, 16);
    assert_eq!(status.max_inflight_requests, 64);
    assert_eq!(status.max_response_bytes, 77);
    assert_eq!(spec.disconnect_after(), None);
    let mut leaving = spec;
    leaving.connect_at = Duration::from_secs(2);
    leaving.disconnect_at = Some(Duration::from_secs(5));
    assert_eq!(leaving.disconnect_after(), Some(Duration::from_secs(3)));
    leaving.disconnect_at = Some(Duration::from_secs(1));
    assert_eq!(leaving.disconnect_after(), Some(Duration { nanos: 0 }));
}

#[test]
fn serve_profiles_fill_in_what_they_set() {
    let rtt = Duration::from_millis(20);
    let slow = ServeProfile::slow(rtt, Duration::from_millis(1));
    assert!(!slow.first_block_is_zero() && !slow.per_block_is_zero());
    assert_eq!(slow.bandwidth_bytes_per_sec, None);
    let rated = ServeProfile::byte_rate(rtt, 0);
    assert_eq!(rated.bandwidth_bytes_per_sec, Some(1));
    assert!(rated.per_block_is_zero());
    let scenario = scenario();
    assert_eq!(scenario.initial_header(Height(4)), Height(4));
    assert_eq!(scenario.initial_header(Height(40)), Height(10));
    assert_eq!(scenario.queue_depth(), 1024);
    assert_eq!(scenario.deadline, Duration::from_secs(30));
    assert_eq!(fuzz_config().max_inflight_block_bytes, u64::MAX);
}

fn request(start: u32, count: u32) -> BlockRequest {
    BlockRequest {
        start_height: Height(start),
        count,
    }
}

const NOW: Duration = Duration { nanos: 0 };

/// Brings an idle peer to the point where the blocks of a request are looked up.
fn take_up(state: &mut ServeState, profile: &ServeProfile, wanted: BlockRequest) -> ServeAction {
    assert_eq!(
        state.advance(profile, ServeEvent::Poll { elapsed: NOW }),
        ServeAction::Receive
    );
    assert_eq!(
        state.advance(
            profile,
            ServeEvent::Request {
                request: wanted,
                elapsed: NOW,
            }
        ),
        ServeAction::DrawDrop
    );
    state.advance(profile, ServeEvent::Drawn { dropped: false })
}

/// Serves one response of `count` blocks, and gives the blocks in the order in which they went
/// out, with the number that was reported.
fn serve(state: &mut ServeState, profile: &ServeProfile, count: usize) -> (Vec<usize>, u32) {
    let wanted = request(1, count as u32);
    let mut action = take_up(state, profile, wanted);
    if let ServeAction::Stall(_) = action {
        action = state.advance(profile, ServeEvent::Slept { cancelled: false });
    }
    assert_eq!(action, ServeAction::ListBlocks(wanted));
    action = state.advance(profile, ServeEvent::Blocks { count });
    let mut sent = Vec::new();
    loop {
        action = match action {
            ServeAction::WaitFirst(_) | ServeAction::WaitBlock { .. } => {
                state.advance(profile, ServeEvent::Slept { cancelled: false })
            }
            ServeAction::SendBlock { index } => {
                sent.push(index);
                state.advance(profile, ServeEvent::Sent { delivered: true })
            }
            ServeAction::SendDone {
                start_height,
                returned,
            } => {
                assert_eq!(start_height, Height(1));
                assert_eq!(
                    state.advance(profile, ServeEvent::Sent { delivered: false }),
                    ServeAction::Continue
                );
                return (sent, returned);
            }
            other => panic!("unexpected {other:?}"),
        };
    }
}

#[test]
fn responses_send_every_block_once() {
    let mut profile = ServeProfile::fast();
    let mut state = ServeState::new();
    assert_eq!(serve(&mut state, &profile, 3), (vec![0, 1, 2], 3));
    profile.reorder = true;
    assert_eq!(serve(&mut state, &profile, 3), (vec![2, 1, 0], 3));
    assert_eq!(state.responses, 2);
    assert_eq!(state.phase, ServePhase::Idle);
}

#[test]
fn unavailable_ranges_are_reported() {
    let mut profile = ServeProfile::fast();
    let mut state = ServeState::new();
    let wanted = request(5, 2);
    assert_eq!(
        take_up(&mut state, &profile, wanted),
        ServeAction::ListBlocks(wanted)
    );
    assert_eq!(
        state.advance(&profile, ServeEvent::Blocks { count: 0 }),
        ServeAction::SendUnavailable(wanted)
    );
    assert_eq!(
        state.advance(&profile, ServeEvent::Sent { delivered: true }),
        ServeAction::Continue
    );
    profile.withhold = Some((Height(5), Height(6)));
    assert_eq!(
        take_up(&mut state, &profile, wanted),
        ServeAction::SendUnavailable(wanted)
    );
    state = ServeState::new();
    assert_eq!(
        take_up(&mut state, &profile, request(7, 2)),
        ServeAction::ListBlocks(request(7, 2))
    );
}

#[test]
fn dropped_requests_and_other_messages_are_ignored() {
    let profile = ServeProfile::fast();
    let mut state = ServeState::new();
    state.advance(&profile, ServeEvent::Poll { elapsed: NOW });
    assert_eq!(
        state.advance(&profile, ServeEvent::OtherMessage),
        ServeAction::Continue
    );
    assert_eq!(state.responses, 0);
    state.advance(&profile, ServeEvent::Poll { elapsed: NOW });
    state.advance(
        &profile,
        ServeEvent::Request {
            request: request(1, 1),
            elapsed: NOW,
        },
    );
    assert_eq!(
        state.advance(&profile, ServeEvent::Drawn { dropped: true }),
        ServeAction::Continue
    );
    assert_eq!(state.responses, 0);
    state.advance(&profile, ServeEvent::Poll { elapsed: NOW });
    assert_eq!(
        state.advance(&profile, ServeEvent::Closed),
        ServeAction::Stop
    );
    assert_eq!(state.phase, ServePhase::Ended);
}

#[test]
fn every_other_response_stalls() {
    let mut profile = ServeProfile::fast();
    let gap = Duration::from_secs(1);
    profile.idle_gap = Some(IdleGap {
        every_responses: 2,
        duration: gap,
    });
    let mut state = ServeState::new();
    assert_eq!(serve(&mut state, &profile, 1), (vec![0], 1));
    let mut stalled = state;
    assert_eq!(
        take_up(&mut stalled, &profile, request(1, 1)),
        ServeAction::Stall(gap)
    );
    assert_eq!(
        stalled.advance(&profile, ServeEvent::Slept { cancelled: true }),
        ServeAction::Stop
    );
    assert_eq!(serve(&mut state, &profile, 1), (vec![0], 1));
}

#[test]
fn dropped_and_silenced_requests_do_not_bring_a_stall_nearer() {
    let gap = Duration::from_secs(1);
    let at = Duration::from_secs(4);
    let mut profile = ServeProfile::fast();
    profile.idle_gap = Some(IdleGap {
        every_responses: 2,
        duration: gap,
    });
    profile.degrade = Some(Degrade {
        at,
        mode: DegradeMode::GoSilent,
    });
    let mut state = ServeState::new();
    assert_eq!(serve(&mut state, &profile, 1), (vec![0], 1));
    for (elapsed, dropped) in [(NOW, true), (at, false)] {
        state.advance(&profile, ServeEvent::Poll { elapsed });
        let request = request(1, 1);
        let taken = state.advance(&profile, ServeEvent::Request { request, elapsed });
        if dropped {
            assert_eq!(taken, ServeAction::DrawDrop);
            assert_eq!(
                state.advance(&profile, ServeEvent::Drawn { dropped }),
                ServeAction::Continue
            );
        } else {
            assert_eq!(taken, ServeAction::Continue);
        }
        assert_eq!(state.responses, 1);
    }
    assert_eq!(
        take_up(&mut state, &profile, request(1, 1)),
        ServeAction::Stall(gap)
    );
    assert_eq!(state.responses, 2);
}

#[test]
fn degraded_peers_go_silent_wedge_or_slow_down() {
    let mut profile = ServeProfile::slow(Duration::from_secs(9), Duration::from_secs(9));
    let at = Duration::from_secs(4);
    let before = Duration::from_secs(3);
    let wanted = request(1, 1);
    let taken = |profile: &ServeProfile, elapsed: Duration| {
        let mut state = ServeState::new();
        let polled = state.advance(profile, ServeEvent::Poll { elapsed });
        if polled == ServeAction::Hang {
            return polled;
        }
        state.advance(
            profile,
            ServeEvent::Request {
                request: wanted,
                elapsed,
            },
        )
    };
    profile.degrade = Some(Degrade {
        at,
        mode: DegradeMode::GoSilent,
    });
    assert_eq!(taken(&profile, before), ServeAction::DrawDrop);
    assert_eq!(taken(&profile, at), ServeAction::Continue);
    profile.degrade = Some(Degrade {
        at,
        mode: DegradeMode::Wedge,
    });
    assert_eq!(taken(&profile, before), ServeAction::DrawDrop);
    assert_eq!(taken(&profile, at), ServeAction::Hang);
    profile.degrade = Some(Degrade {
        at: NOW,
        mode: DegradeMode::SlowTo {
            base_rtt: Duration::from_millis(3),
            bandwidth_bytes_per_sec: 0,
        },
    });
    let mut state = ServeState::new();
    take_up(&mut state, &profile, wanted);
    assert_eq!(
        state.advance(&profile, ServeEvent::Blocks { count: 1 }),
        ServeAction::WaitFirst(Wait::Span(Duration::from_millis(3)))
    );
    assert_eq!(
        state.advance(&profile, ServeEvent::Slept { cancelled: false }),
        ServeAction::WaitBlock {
            index: 0,
            wait: Wait::Transmit { bandwidth: 1 },
        }
    );
    state.advance(&profile, ServeEvent::Slept { cancelled: false });
    assert_eq!(
        state.advance(&profile, ServeEvent::Sent { delivered: false }),
        ServeAction::Stop
    );
}

#[test]
fn needed_ranges_stop_at_the_nearest_end() {
    let range = |from: u32, limit: u32, best: u32, target: u32| {
        needed_range(Height(from), limit, Height(best), Height(target))
    };
    assert_eq!(range(1, 0, 10, 10), None);
    assert_eq!(range(1, 5, 10, 10), Some((Height(1), Height(5))));
    assert_eq!(range(1, 50, 9, 10), Some((Height(1), Height(9))));
    assert_eq!(range(1, 50, 10, 8), Some((Height(1), Height(8))));
    assert_eq!(range(11, 5, 10, 20), None);
    assert_eq!(
        range(HEIGHT_MAX - 1, u32::MAX, u32::MAX, u32::MAX),
        Some((Height(HEIGHT_MAX - 1), Height(HEIGHT_MAX)))
    );
    assert_eq!(range(u32::MAX, u32::MAX, u32::MAX, u32::MAX), None);
}

#[test]
fn commits_pause_in_bursts() {
    let pause = Duration::from_secs(2);
    let commit = CommitProfile {
        per_commit_delay: Duration::from_millis(1),
        burst: Some(CommitBurstStall {
            every_commits: 3,
            duration: pause,
        }),
    };
    let mut driver = CommitDriver::new();
    assert_eq!(
        driver.before_apply(&commit),
        Some(Duration::from_millis(1))
    );
    let pauses: Vec<bool> = (0..7)
        .map(|_| driver.after_apply(&commit) == Some(pause))
        .collect();
    assert_eq!(
        pauses,
        vec![false, false, true, false, false, true, false]
    );
    let instant = CommitProfile::default();
    assert_eq!(driver.before_apply(&instant), None);
    assert_eq!(driver.after_apply(&instant), None);
    assert_eq!(driver.applied, 8);
}

#[test]
fn timelines_are_sorted_stably() {
    let event = |secs: u64, height: u32| TipEvent {
        at: Duration::from_secs(secs),
        kind: TipEventKind::GrowTo(Height(height)),
    };
    let events = vec![event(3, 1), event(1, 2), event(3, 3), event(1, 4), event(2, 5)];
    assert_eq!(
        sort_timeline(&events),
        vec![event(1, 2), event(1, 4), event(2, 5), event(3, 1), event(3, 3)]
    );
    assert_eq!(
        wait_until(Duration::from_secs(3), Duration::from_secs(1)),
        Duration::from_secs(2)
    );
    assert_eq!(
        wait_until(Duration::from_secs(1), Duration::from_secs(3)),
        Duration { nanos: 0 }
    );
}

#[test]
fn timed_changes_publish_new_snapshots() {
    let frontier = |height: u32, byte: u8| Frontier {
        height: Height(height),
        hash: hash(byte),
    };
    let start = fuzz_snapshot(1, 1, 1, frontier(0, 0), frontier(0, 0), frontier(5, 5));
    assert_eq!(start.oldest_retained_height, Height(0));
    assert_eq!(start.header_best_score.tip_hash, hash(5));
    assert_eq!(start.header_best_score.suffix_work, U256([0; 32]));
    let applied = BlockSyncFrontiers {
        finalized_height: Height(2),
        verified_block_tip: Height(3),
        verified_block_hash: hash(3),
    };
    let grown = next_snapshot(start, applied, TipEventKind::GrowTo(Height(9)), hash(9));
    assert_eq!(grown.state_version, 2);
    assert_eq!((grown.header_generation, grown.verified_generation), (2, 1));
    assert_eq!(grown.frontiers.header_best, frontier(9, 9));
    assert_eq!(grown.frontiers.finalized, frontier(2, 3));
    assert_eq!(grown.frontiers.verified_best, frontier(3, 3));
    assert_eq!(grown.header_best_score.tip_hash, hash(9));
    let reset = next_snapshot(grown, applied, TipEventKind::VerifiedReset(Height(1)), hash(1));
    assert_eq!(reset.state_version, 3);
    assert_eq!((reset.header_generation, reset.verified_generation), (2, 2));
    assert_eq!(reset.frontiers.verified_best, frontier(1, 1));
    assert_eq!(reset.frontiers.header_best, frontier(9, 9));
    let reanchored = next_snapshot(
        reset,
        applied,
        TipEventKind::HeaderReanchor(Height(4)),
        hash(4),
    );
    assert_eq!(reanchored.frontiers.header_best, frontier(4, 4));
    assert_eq!(
        (reanchored.header_generation, reanchored.verified_generation),
        (3, 2)
    );
}

#[test]
fn unknown_blocks_have_the_genesis_hash() {
    assert_eq!(corpus_hash(Height(0), Some(hash(1)), hash(9)), hash(9));
    assert_eq!(corpus_hash(Height(3), Some(hash(1)), hash(9)), hash(1));
    assert_eq!(corpus_hash(Height(3), None, hash(9)), hash(9));
    assert_eq!(committed_tip(Some(Height(3)), Height(2)), Height(3));
    assert_eq!(committed_tip(None, Height(2)), Height(2));
}
