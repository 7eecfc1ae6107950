//! What a finished run is judged by.
use serde_json::Value;
use vstd::prelude::*;

use crate::chain::Height;
use crate::testkit::scenario::{FuzzOutcome, PeerSpec, Scenario};
use crate::testkit::trace;
use crate::testkit::trace::{read_rows, TraceEvent, TraceRow, TraceRowView};

verus! {

/// Aggregate facts of one run's trace table.
#[derive(Clone, Copy, Debug, PartialEq, Eq, Structural)]
pub struct InvariantReport {
    /// Number of reactor snapshots.
    pub state_samples: usize,
    /// Peak requests in flight across all peers.
    pub max_outstanding: u64,
    /// Peak reserved download bytes.
    pub peak_budget_reserved: u64,
    /// Peak wire bytes of bodies held in the pipeline.
    pub peak_retained_pipeline_wire_bytes: u64,
    /// Reserved download bytes in the last snapshot that has them.
    pub final_budget_reserved: u64,
    /// Protocol-invalid rejects.
    pub protocol_rejects: usize,
    /// Parked sessions.
    pub session_parks: usize,
    /// Requests over the run.
    pub total_requests: usize,
    /// Longest streak of requests to one peer without an accepted body.
    pub max_requests_without_block_progress: u64,
    /// Longest reported streak of a peer that had not delivered a body yet.
    pub max_unproven_requests_without_block_progress: u64,
    /// Requests that were sent although the peer was saturated.
    pub floor_bypass_requests: usize,
    /// Peak window in bytes at a delivered body.
    pub peak_cwnd_bytes: u64,
    /// Peak bytes in flight at a delivered body.
    pub peak_inflight_bytes: u64,
    /// Peak window in requests at a delivered body.
    pub peak_cwnd_requests: u64,
    /// Lowest reliability, per mille.
    pub min_reliability_permille: u64,
    /// The last window in bytes.
    pub final_cwnd_bytes: u64,
    /// The last reliability, per mille.
    pub final_reliability_permille: u64,
}

/// A number that some trace rows hold.
#[derive(Clone, Copy, Debug, PartialEq, Eq, Structural)]
pub enum Metric {
    /// Requests in flight, in snapshots.
    Outstanding,
    /// Reserved download bytes, in snapshots.
    BudgetReserved,
    /// Wire bytes held in the pipeline, in snapshots.
    RetainedWireBytes,
    /// Requests without progress, at requests to peers that had not delivered a body yet.
    UnprovenStreak,
    /// Window in bytes, at delivered bodies.
    BodyCwndBytes,
    /// Bytes in flight, at delivered bodies.
    BodyInflightBytes,
    /// Window in requests, at delivered bodies.
    BodyCwndRequests,
    /// Window in bytes, anywhere.
    CwndBytes,
    /// Reliability, anywhere.
    Reliability,
}

/// The number that a row holds for a metric.
pub open spec fn metric_of(row: TraceRowView, metric: Metric) -> Option<u64> {
    let state = row.event == TraceEvent::State;
    let body = row.event == TraceEvent::BodyReceived;
    let unproven = row.event == TraceEvent::GetBlocksSent && row.block_progress_proven == Some(
        0u64,
    );
    match metric {
        Metric::Outstanding => if state {
            row.outstanding
        } else {
            None
        },
        Metric::BudgetReserved => if state {
            row.budget_reserved
        } else {
            None
        },
        Metric::RetainedWireBytes => if state {
            row.retained_pipeline_wire_bytes
        } else {
            None
        },
        Metric::UnprovenStreak => if unproven {
            row.requests_without_block_progress
        } else {
            None
        },
        Metric::BodyCwndBytes => if body {
            row.bbr_cwnd_bytes
        } else {
            None
        },
        Metric::BodyInflightBytes => if body {
            row.bbr_inflight_bytes
        } else {
            None
        },
        Metric::BodyCwndRequests => if body {
            row.bbr_cwnd
        } else {
            None
        },
        Metric::CwndBytes => row.bbr_cwnd_bytes,
        Metric::Reliability => row.bbr_reliability_permille,
    }
}

/// The greatest number of a metric, or zero.
pub open spec fn peak(rows: Seq<TraceRowView>, metric: Metric) -> u64
    decreases rows.len(),
{
    if rows.len() == 0 {
        0
    } else {
        let before = peak(rows.drop_last(), metric);
        match metric_of(rows.last(), metric) {
            Some(n) => if n > before {
                n
            } else {
                before
            },
            None => before,
        }
    }
}

/// The least number of a metric, if there is any.
pub open spec fn trough(rows: Seq<TraceRowView>, metric: Metric) -> Option<u64>
    decreases rows.len(),
{
    if rows.len() == 0 {
        None
    } else {
        let before = trough(rows.drop_last(), metric);
        match (metric_of(rows.last(), metric), before) {
            (Some(n), Some(least)) => if n < least {
                Some(n)
            } else {
                Some(least)
            },
            (Some(n), None) => Some(n),
            (None, least) => least,
        }
    }
}

/// The last number of a metric, if there is any.
pub open spec fn latest(rows: Seq<TraceRowView>, metric: Metric) -> Option<u64>
    decreases rows.len(),
{
    if rows.len() == 0 {
        None
    } else {
        match metric_of(rows.last(), metric) {
            Some(n) => Some(n),
            None => latest(rows.drop_last(), metric),
        }
    }
}

/// A number, or what stands in for it.
pub open spec fn or_default(n: Option<u64>, default: u64) -> u64 {
    match n {
        Some(value) => value,
        None => default,
    }
}

/// How many rows report an event.
pub open spec fn event_count(rows: Seq<TraceRowView>, event: TraceEvent) -> nat
    decreases rows.len(),
{
    if rows.len() == 0 {
        0
    } else {
        event_count(rows.drop_last(), event) + (if rows.last().event == event {
            1nat
        } else {
            0nat
        })
    }
}

/// How many rows report a request to a saturated peer.
pub open spec fn bypass_count(rows: Seq<TraceRowView>) -> nat
    decreases rows.len(),
{
    if rows.len() == 0 {
        0
    } else {
        bypass_count(rows.drop_last()) + (if is_bypass(rows.last()) {
            1nat
        } else {
            0nat
        })
    }
}

/// Whether a row reports a request to a saturated peer.
pub open spec fn is_bypass(row: TraceRowView) -> bool {
    row.event == TraceEvent::GetBlocksSent && row.floor_bypass == Some(1u64)
}

/// Whether an event ends a peer's streak of requests without progress.
pub open spec fn ends_streak(event: TraceEvent) -> bool {
    match event {
        TraceEvent::PeerConnected => true,
        TraceEvent::BodyReceived => true,
        TraceEvent::PeerDisconnected => true,
        TraceEvent::PeerParked => true,
        TraceEvent::ProtocolReject => true,
        _ => false,
    }
}

/// How many requests a peer has been sent, after `rows`, since it last made progress or its
/// session changed.
pub open spec fn streak(rows: Seq<TraceRowView>, peer: Seq<char>) -> u64
    decreases rows.len(),
{
    if rows.len() == 0 {
        0
    } else {
        let before = streak(rows.drop_last(), peer);
        let row = rows.last();
        if row.peer != Some(peer) {
            before
        } else if ends_streak(row.event) {
            0
        } else if row.event == TraceEvent::GetBlocksSent && before < u64::MAX {
            (before + 1) as u64
        } else {
            before
        }
    }
}

/// The longest streak that any peer had at any time.
pub open spec fn longest_streak(rows: Seq<TraceRowView>) -> u64
    decreases rows.len(),
{
    if rows.len() == 0 {
        0
    } else {
        let before = longest_streak(rows.drop_last());
        match rows.last().peer {
            Some(peer) => if rows.last().event == TraceEvent::GetBlocksSent && streak(rows, peer)
                > before {
                streak(rows, peer)
            } else {
                before
            },
            None => before,
        }
    }
}

/// The report of a run, from its trace rows.
pub open spec fn report_of(rows: Seq<TraceRowView>) -> InvariantReport {
    InvariantReport {
        state_samples: event_count(rows, TraceEvent::State) as usize,
        max_outstanding: peak(rows, Metric::Outstanding),
        peak_budget_reserved: peak(rows, Metric::BudgetReserved),
        peak_retained_pipeline_wire_bytes: peak(rows, Metric::RetainedWireBytes),
        final_budget_reserved: or_default(latest(rows, Metric::BudgetReserved), 0),
        protocol_rejects: event_count(rows, TraceEvent::ProtocolReject) as usize,
        session_parks: event_count(rows, TraceEvent::PeerParked) as usize,
        total_requests: event_count(rows, TraceEvent::GetBlocksSent) as usize,
        max_requests_without_block_progress: longest_streak(rows),
        max_unproven_requests_without_block_progress: peak(rows, Metric::UnprovenStreak),
        floor_bypass_requests: bypass_count(rows) as usize,
        peak_cwnd_bytes: peak(rows, Metric::BodyCwndBytes),
        peak_inflight_bytes: peak(rows, Metric::BodyInflightBytes),
        peak_cwnd_requests: peak(rows, Metric::BodyCwndRequests),
        min_reliability_permille: or_default(trough(rows, Metric::Reliability), 1000),
        final_cwnd_bytes: or_default(latest(rows, Metric::CwndBytes), 0),
        final_reliability_permille: or_default(latest(rows, Metric::Reliability), 1000),
    }
}

/// The contents of trace rows.
pub open spec fn views(rows: Seq<TraceRow>) -> Seq<TraceRowView> {
    Seq::new(rows.len(), |i: int| rows[i]@)
}

/// Facts about the first `i + 1` rows.
proof fn lemma_views_step(rows: Seq<TraceRow>, i: int)
    requires
        0 <= i < rows.len(),
    ensures
        views(rows).take(i + 1).drop_last() == views(rows).take(i),
        views(rows).take(i + 1).last() == rows[i]@,
{
    assert(views(rows).take(i + 1).drop_last() =~= views(rows).take(i));
}

/// The number that a row holds for a metric.
fn read_metric(row: &TraceRow, metric: Metric) -> (n: Option<u64>)
    ensures
        n == metric_of(row@, metric),
{
    let state = row.event == TraceEvent::State;
    let body = row.event == TraceEvent::BodyReceived;
    let unproven = row.event == TraceEvent::GetBlocksSent && row.block_progress_proven == Some(
        0u64,
    );
    match metric {
        Metric::Outstanding => if state {
            row.outstanding
        } else {
            None
        },
        Metric::BudgetReserved => if state {
            row.budget_reserved
        } else {
            None
        },
        Metric::RetainedWireBytes => if state {
            row.retained_pipeline_wire_bytes
        } else {
            None
        },
        Metric::UnprovenStreak => if unproven {
            row.requests_without_block_progress
        } else {
            None
        },
        Metric::BodyCwndBytes => if body {
            row.bbr_cwnd_bytes
        } else {
            None
        },
        Metric::BodyInflightBytes => if body {
            row.bbr_inflight_bytes
        } else {
            None
        },
        Metric::BodyCwndRequests => if body {
            row.bbr_cwnd
        } else {
            None
        },
        Metric::CwndBytes => row.bbr_cwnd_bytes,
        Metric::Reliability => row.bbr_reliability_permille,
    }
}

/// The greatest number of a metric, or zero.
pub fn peak_metric(rows: &Vec<TraceRow>, metric: Metric) -> (n: u64)
    ensures
        n == peak(views(rows@), metric),
{
    let ghost all = views(rows@);
    let mut best: u64 = 0;
    let mut i: usize = 0;
    assert(all.take(0) =~= Seq::empty());
    while i < rows.len()
        invariant
            i <= rows@.len(),
            all == views(rows@),
            best == peak(all.take(i as int), metric),
        decreases rows@.len() - i,
    {
        proof {
            lemma_views_step(rows@, i as int);
        }
        if let Some(n) = read_metric(&rows[i], metric) {
            if n > best {
                best = n;
            }
        }
        i = i + 1;
    }
    assert(all.take(i as int) =~= all);
    best
}

/// The least number of a metric, or what stands in for it.
pub fn least_metric(rows: &Vec<TraceRow>, metric: Metric, default: u64) -> (n: u64)
    ensures
        n == or_default(trough(views(rows@), metric), default),
{
    let ghost all = views(rows@);
    let mut best: Option<u64> = None;
    let mut i: usize = 0;
    assert(all.take(0) =~= Seq::empty());
    while i < rows.len()
        invariant
            i <= rows@.len(),
            all == views(rows@),
            best == trough(all.take(i as int), metric),
        decreases rows@.len() - i,
    {
        proof {
            lemma_views_step(rows@, i as int);
        }
        if let Some(n) = read_metric(&rows[i], metric) {
            best = match best {
                Some(least) => if n < least {
                    Some(n)
                } else {
                    Some(least)
                },
                None => Some(n),
            };
        }
        i = i + 1;
    }
    assert(all.take(i as int) =~= all);
    match best {
        Some(n) => n,
        None => default,
    }
}

/// The last number of a metric, or what stands in for it.
pub fn latest_metric(rows: &Vec<TraceRow>, metric: Metric, default: u64) -> (n: u64)
    ensures
        n == or_default(latest(views(rows@), metric), default),
{
    let ghost all = views(rows@);
    let mut last: Option<u64> = None;
    let mut i: usize = 0;
    assert(all.take(0) =~= Seq::empty());
    while i < rows.len()
        invariant
            i <= rows@.len(),
            all == views(rows@),
            last == latest(all.take(i as int), metric),
        decreases rows@.len() - i,
    {
        proof {
            lemma_views_step(rows@, i as int);
        }
        let n = read_metric(&rows[i], metric);
        if n.is_some() {
            last = n;
        }
        i = i + 1;
    }
    assert(all.take(i as int) =~= all);
    match last {
        Some(n) => n,
        None => default,
    }
}

/// How many rows report an event.
pub fn count_event(rows: &Vec<TraceRow>, event: TraceEvent) -> (n: usize)
    ensures
        n == event_count(views(rows@), event),
{
    let ghost all = views(rows@);
    let mut n: usize = 0;
    let mut i: usize = 0;
    assert(all.take(0) =~= Seq::empty());
    while i < rows.len()
        invariant
            n <= i <= rows@.len(),
            all == views(rows@),
            n == event_count(all.take(i as int), event),
        decreases rows@.len() - i,
    {
        proof {
            lemma_views_step(rows@, i as int);
        }
        if rows[i].event == event {
            n = n + 1;
        }
        i = i + 1;
    }
    assert(all.take(i as int) =~= all);
    n
}

/// How many rows report a request to a saturated peer.
pub fn count_bypass(rows: &Vec<TraceRow>) -> (n: usize)
    ensures
        n == bypass_count(views(rows@)),
{
    let ghost all = views(rows@);
    let mut n: usize = 0;
    let mut i: usize = 0;
    assert(all.take(0) =~= Seq::empty());
    while i < rows.len()
        invariant
            n <= i <= rows@.len(),
            all == views(rows@),
            n == bypass_count(all.take(i as int)),
        decreases rows@.len() - i,
    {
        proof {
            lemma_views_step(rows@, i as int);
        }
        if rows[i].event == TraceEvent::GetBlocksSent && rows[i].floor_bypass == Some(1u64) {
            n = n + 1;
        }
        i = i + 1;
    }
    assert(all.take(i as int) =~= all);
    n
}

/// The place of a name.
fn position_of(names: &Vec<String>, name: &String) -> (r: Option<usize>)
    ensures
        match r {
            Some(i) => i < names@.len() && names@[i as int]@ == name@,
            None => forall|j: int| 0 <= j < names@.len() ==> (#[trigger] names@[j])@ != name@,
        },
{
    let mut i: usize = 0;
    while i < names.len()
        invariant
            i <= names@.len(),
            forall|j: int| 0 <= j < i ==> (#[trigger] names@[j])@ != name@,
        decreases names@.len() - i,
    {
        if names[i] == *name {
            return Some(i);
        }
        i = i + 1;
    }
    None
}

/// Whether `names` and `counts` hold the streak of every peer that has one.
spec fn streaks_ok(rows: Seq<TraceRowView>, names: Seq<String>, counts: Seq<u64>) -> bool {
    &&& names.len() == counts.len()
    &&& forall|a: int, b: int|
        0 <= a < b < names.len() ==> (#[trigger] names[a])@ != (#[trigger] names[b])@
    &&& forall|j: int| 0 <= j < names.len() ==> streak(rows, (#[trigger] names[j])@) == counts[j]
    &&& forall|p: Seq<char>|
        (forall|j: int| 0 <= j < names.len() ==> (#[trigger] names[j])@ != p) ==> #[trigger] streak(
            rows,
            p,
        ) == 0
}

/// The longest streak of requests to one peer without an accepted body.
#[verifier::spinoff_prover]
#[verifier::rlimit(50)]
pub fn max_requests_without_block_progress(rows: &Vec<TraceRow>) -> (n: u64)
    ensures
        n == longest_streak(views(rows@)),
{
    let ghost all = views(rows@);
    let mut names: Vec<String> = Vec::new();
    let mut counts: Vec<u64> = Vec::new();
    let mut best: u64 = 0;
    let mut i: usize = 0;
    assert(all.take(0) =~= Seq::empty());
    while i < rows.len()
        invariant
            i <= rows@.len(),
            all == views(rows@),
            best == longest_streak(all.take(i as int)),
            streaks_ok(all.take(i as int), names@, counts@),
        decreases rows@.len() - i,
    {
        let row = &rows[i];
        let ghost before = all.take(i as int);
        let ghost after = all.take(i + 1);
        let ghost old_names = names@;
        let ghost old_counts = counts@;
        proof {
            lemma_views_step(rows@, i as int);
            assert forall|p: Seq<char>| row@.peer != Some(p) implies #[trigger] streak(after, p)
                == streak(before, p) by {
            }
        }
        if let Some(peer) = &row.peer {
            let place = position_of(&names, peer);
            let known: u64 = match place {
                Some(j) => counts[j],
                None => 0,
            };
            assert(known == streak(before, peer@));
            assert(after.last().peer == Some(peer@));
            let next: u64 = match row.event {
                TraceEvent::PeerConnected => 0,
                TraceEvent::BodyReceived => 0,
                TraceEvent::PeerDisconnected => 0,
                TraceEvent::PeerParked => 0,
                TraceEvent::ProtocolReject => 0,
                TraceEvent::GetBlocksSent => known.saturating_add(1),
                _ => known,
            };
            assert(next == streak(after, peer@));
            match place {
                Some(j) => {
                    counts[j] = next;
                    proof {
                        assert forall|k: int| 0 <= k < names@.len() implies streak(
                            after,
                            (#[trigger] names@[k])@,
                        ) == counts@[k] by {
                            if k != j {
                                if k < j {
                                    assert(names@[k]@ != names@[j as int]@);
                                } else {
                                    assert(names@[j as int]@ != names@[k]@);
                                }
                                assert(row@.peer != Some(names@[k]@));
                            }
                        }
                        assert forall|p: Seq<char>|
                            (forall|k: int|
                                0 <= k < names@.len() ==> (#[trigger] names@[k])@
                                    != p) implies #[trigger] streak(after, p) == 0 by {
                            assert(names@[j as int]@ != p);
                            assert(row@.peer != Some(p));
                            assert(streak(before, p) == 0);
                        }
                    }
                },
                None => {
                    names.push(peer.clone());
                    counts.push(next);
                    proof {
                        let n = old_names.len() as int;
                        assert(names@[n]@ == peer@);
                        assert forall|a: int, b: int| 0 <= a < b < names@.len() implies (
                        #[trigger] names@[a])@ != (#[trigger] names@[b])@ by {
                            assert(names@[a] == old_names[a]);
                            if b < n {
                                assert(names@[b] == old_names[b]);
                            }
                        }
                        assert forall|k: int| 0 <= k < names@.len() implies streak(
                            after,
                            (#[trigger] names@[k])@,
                        ) == counts@[k] by {
                            if k < n {
                                assert(names@[k] == old_names[k]);
                                assert(old_names[k]@ != peer@);
                                assert(row@.peer != Some(names@[k]@));
                            }
                        }
                        assert forall|p: Seq<char>|
                            (forall|k: int|
                                0 <= k < names@.len() ==> (#[trigger] names@[k])@
                                    != p) implies #[trigger] streak(after, p) == 0 by {
                            assert(names@[n]@ != p);
                            assert(row@.peer != Some(p));
                            assert forall|k: int| 0 <= k < old_names.len() implies (
                            #[trigger] old_names[k])@ != p by {
                                assert(names@[k] == old_names[k]);
                            }
                            assert(streak(before, p) == 0);
                        }
                    }
                },
            }
            if row.event == TraceEvent::GetBlocksSent && next > best {
                best = next;
            }
        } else {
            assert forall|p: Seq<char>|
                (forall|k: int|
                    0 <= k < names@.len() ==> (#[trigger] names@[k])@ != p) implies #[trigger] streak(
                after,
                p,
            ) == 0 by {
                assert(streak(before, p) == 0);
            }
        }
        i = i + 1;
    }
    assert(all.take(i as int) =~= all);
    best
}

/// Extract the report from plain trace rows.
pub fn report_rows(rows: &Vec<TraceRow>) -> (report: InvariantReport)
    ensures
        report == report_of(views(rows@)),
{
    InvariantReport {
        state_samples: count_event(rows, TraceEvent::State),
        max_outstanding: peak_metric(rows, Metric::Outstanding),
        peak_budget_reserved: peak_metric(rows, Metric::BudgetReserved),
        peak_retained_pipeline_wire_bytes: peak_metric(rows, Metric::RetainedWireBytes),
        final_budget_reserved: latest_metric(rows, Metric::BudgetReserved, 0),
        protocol_rejects: count_event(rows, TraceEvent::ProtocolReject),
        session_parks: count_event(rows, TraceEvent::PeerParked),
        total_requests: count_event(rows, TraceEvent::GetBlocksSent),
        max_requests_without_block_progress: max_requests_without_block_progress(rows),
        max_unproven_requests_without_block_progress: peak_metric(rows, Metric::UnprovenStreak),
        floor_bypass_requests: count_bypass(rows),
        peak_cwnd_bytes: peak_metric(rows, Metric::BodyCwndBytes),
        peak_inflight_bytes: peak_metric(rows, Metric::BodyInflightBytes),
        peak_cwnd_requests: peak_metric(rows, Metric::BodyCwndRequests),
        min_reliability_permille: least_metric(rows, Metric::Reliability, 1000),
        final_cwnd_bytes: latest_metric(rows, Metric::CwndBytes, 0),
        final_reliability_permille: latest_metric(rows, Metric::Reliability, 1000),
    }
}

/// Extract the report from the rows of a JSON trace table.
pub fn report(rows: &Vec<Value>) -> (report: InvariantReport)
    ensures
        report == report_of(Seq::new(rows@.len(), |i: int| trace::row_of(rows@[i]))),
{
    let plain = read_rows(rows);
    assert(views(plain@) =~= Seq::new(rows@.len(), |i: int| trace::row_of(rows@[i])));
    report_rows(&plain)
}

/// An invariant of runs that a run broke.
#[derive(Clone, Copy, Debug, PartialEq, Eq, Structural)]
pub enum CoreViolation {
    /// The run did not commit the whole chain.
    Stalled {
        /// Where it stopped.
        committed_tip: Height,
        /// Where the chain ends.
        target: Height,
    },
    /// The run emitted no snapshot.
    NoStateSamples,
    /// More requests were in flight than the peers advertised, and the slack.
    OutstandingAboveBound {
        /// The peak.
        max_outstanding: u64,
        /// The bound.
        bound: u64,
    },
    /// More download bytes were reserved than the settings allow.
    BudgetExceeded {
        /// The peak.
        peak: u64,
        /// The bound.
        bound: u64,
    },
}

/// How many requests the peers advertise that they take at once, in all.
pub open spec fn advertised_inflight(peers: Seq<PeerSpec>) -> nat
    decreases peers.len(),
{
    if peers.len() == 0 {
        0
    } else {
        advertised_inflight(peers.drop_last()) + peers.last().max_inflight_requests as nat
    }
}

/// A sum, as far as 64 bits hold it.
pub open spec fn saturating_sum(a: nat, b: u64) -> u64 {
    if a + b > u64::MAX {
        u64::MAX
    } else {
        (a + b) as u64
    }
}

/// The first invariant that a run broke.
pub open spec fn core_violation(
    scenario: Scenario,
    outcome: FuzzOutcome,
    report: InvariantReport,
    outstanding_slack: u64,
) -> Option<CoreViolation> {
    let bound = saturating_sum(advertised_inflight(scenario.peers@), outstanding_slack);
    let budget = scenario.config.max_inflight_block_bytes;
    if outcome.committed_tip.0 < outcome.target.0 {
        Some(
            CoreViolation::Stalled {
                committed_tip: outcome.committed_tip,
                target: outcome.target,
            },
        )
    } else if report.state_samples == 0 {
        Some(CoreViolation::NoStateSamples)
    } else if report.max_outstanding > bound {
        Some(
            CoreViolation::OutstandingAboveBound {
                max_outstanding: report.max_outstanding,
                bound,
            },
        )
    } else if report.peak_budget_reserved > budget {
        Some(CoreViolation::BudgetExceeded { peak: report.peak_budget_reserved, bound: budget })
    } else {
        None
    }
}

/// Fewer peers advertise no more requests.
proof fn lemma_advertised_take(peers: Seq<PeerSpec>, n: int)
    requires
        0 <= n <= peers.len(),
    ensures
        advertised_inflight(peers.take(n)) <= advertised_inflight(peers),
    decreases peers.len(),
{
    if n == peers.len() {
        assert(peers.take(n) =~= peers);
    } else {
        lemma_advertised_take(peers.drop_last(), n);
        assert(peers.drop_last().take(n) =~= peers.take(n));
    }
}

/// Checks the core invariants of a run. `outstanding_slack` is added to the advertised request
/// caps to absorb brief over-counts.
pub fn assert_core(
    scenario: &Scenario,
    outcome: &FuzzOutcome,
    report: &InvariantReport,
    outstanding_slack: u64,
) -> (r: Result<(), CoreViolation>)
    requires
        advertised_inflight(scenario.peers@) <= u64::MAX,
    ensures
        match core_violation(*scenario, *outcome, *report, outstanding_slack) {
            Some(violation) => r == Err::<(), CoreViolation>(violation),
            None => r is Ok,
        },
{
    if !outcome.reached_target() {
        return Err(
            CoreViolation::Stalled {
                committed_tip: outcome.committed_tip,
                target: outcome.target,
            },
        );
    }
    if report.state_samples == 0 {
        return Err(CoreViolation::NoStateSamples);
    }
    let ghost peers = scenario.peers@;
    let mut sum: u64 = 0;
    let mut i: usize = 0;
    assert(peers.take(0) =~= Seq::empty());
    while i < scenario.peers.len()
        invariant
            i <= peers.len(),
            peers == scenario.peers@,
            advertised_inflight(peers) <= u64::MAX,
            sum == advertised_inflight(peers.take(i as int)),
        decreases peers.len() - i,
    {
        proof {
            assert(peers.take(i + 1).drop_last() =~= peers.take(i as int));
            assert(peers.take(i + 1).last() == peers[i as int]);
            lemma_advertised_take(peers, i + 1);
        }
        sum = sum + scenario.peers[i].max_inflight_requests as u64;
        i = i + 1;
    }
    assert(peers.take(i as int) =~= peers);
    let bound: u64 = sum.saturating_add(outstanding_slack);
    if report.max_outstanding > bound {
        return Err(
            CoreViolation::OutstandingAboveBound {
                max_outstanding: report.max_outstanding,
                bound,
            },
        );
    }
    if report.peak_budget_reserved > scenario.config.max_inflight_block_bytes {
        return Err(
            CoreViolation::BudgetExceeded {
                peak: report.peak_budget_reserved,
                bound: scenario.config.max_inflight_block_bytes,
            },
        );
    }
    Ok(())
}

/// A peak is a bound on every number of the metric, and is one of them unless it is zero.
pub proof fn peak_is_greatest(rows: Seq<TraceRowView>, metric: Metric)
    ensures
        forall|i: int|
            0 <= i < rows.len() ==> or_default(metric_of(#[trigger] rows[i], metric), 0) <= peak(
                rows,
                metric,
            ),
        peak(rows, metric) > 0 ==> exists|i: int|
            0 <= i < rows.len() && metric_of(#[trigger] rows[i], metric) == Some(
                peak(rows, metric),
            ),
    decreases rows.len(),
{
    if rows.len() > 0 {
        let init = rows.drop_last();
        peak_is_greatest(init, metric);
        assert forall|i: int| 0 <= i < rows.len() implies or_default(
            metric_of(#[trigger] rows[i], metric),
            0,
        ) <= peak(rows, metric) by {
            if i < init.len() {
                assert(init[i] == rows[i]);
            }
        }
        if peak(rows, metric) > 0 {
            if peak(rows, metric) == peak(init, metric) {
                let i = choose|i: int|
                    0 <= i < init.len() && metric_of(#[trigger] init[i], metric) == Some(
                        peak(init, metric),
                    );
                assert(rows[i] == init[i]);
            } else {
                assert(rows[rows.len() - 1] == rows.last());
            }
        }
    }
}

/// The longest streak bounds the streak of every peer after every row.
pub proof fn longest_streak_is_greatest(rows: Seq<TraceRowView>, n: int, peer: Seq<char>)
    requires
        0 <= n <= rows.len(),
    ensures
        streak(rows.take(n), peer) <= longest_streak(rows),
    decreases rows.len(),
{
    if n < rows.len() {
        longest_streak_is_greatest(rows.drop_last(), n, peer);
        assert(rows.drop_last().take(n) =~= rows.take(n));
    } else {
        assert(rows.take(n) =~= rows);
        if rows.len() > 0 {
            let init = rows.drop_last();
            longest_streak_is_greatest(init, init.len() as int, peer);
            assert(init.take(init.len() as int) =~= init);
        }
    }
}

/// An accepted body from a peer, or a change of its session, ends its streak, and nothing that is
/// about another peer does.
pub proof fn progress_ends_streak(rows: Seq<TraceRowView>, row: TraceRowView, peer: Seq<char>)
    ensures
        row.peer == Some(peer) && ends_streak(row.event) ==> streak(rows.push(row), peer) == 0,
        row.peer != Some(peer) ==> streak(rows.push(row), peer) == streak(rows, peer),
{
    assert(rows.push(row).drop_last() =~= rows);
}

} // verus!
