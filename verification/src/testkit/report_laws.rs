//! What the report of a run says, and how a run is judged by it.
use serde_json::Value;
use vstd::prelude::*;

use crate::testkit::invariants;
use crate::testkit::invariants::{CoreViolation, InvariantReport, Metric};
use crate::testkit::scenario::{FuzzOutcome, PeerSpec, Scenario};
use crate::testkit::trace;
use crate::testkit::trace::{TraceEvent, TraceRowView};

verus! {

/// A choice of a number in a row.
pub type Reading = spec_fn(TraceRowView) -> Option<u64>;

/// Whether `n` is the greatest number that rows hold, or zero if they hold none.
pub open spec fn is_greatest(rows: Seq<TraceRowView>, read: Reading, n: u64) -> bool {
    &&& forall|i: int|
        0 <= i < rows.len() && read(#[trigger] rows[i]) is Some ==> read(rows[i])->0 <= n
    &&& n == 0 || exists|i: int| 0 <= i < rows.len() && read(#[trigger] rows[i]) == Some(n)
}

/// Whether `n` is the least number that rows hold, or the default if they hold none.
pub open spec fn is_least(
    rows: Seq<TraceRowView>,
    read: Reading,
    default: u64,
    n: u64,
) -> bool {
    &&& forall|i: int|
        0 <= i < rows.len() && read(#[trigger] rows[i]) is Some ==> n <= read(rows[i])->0
    &&& if exists|i: int| 0 <= i < rows.len() && read(#[trigger] rows[i]) is Some {
        exists|i: int| 0 <= i < rows.len() && read(#[trigger] rows[i]) == Some(n)
    } else {
        n == default
    }
}

/// Whether `n` is the number that the last row holds that holds one, or the default if none does.
pub open spec fn is_last(rows: Seq<TraceRowView>, read: Reading, default: u64, n: u64) -> bool {
    ||| exists|i: int|
        0 <= i < rows.len() && read(#[trigger] rows[i]) == Some(n) && forall|j: int|
            i < j < rows.len() ==> read(#[trigger] rows[j]) is None
    ||| n == default && forall|i: int| 0 <= i < rows.len() ==> read(#[trigger] rows[i]) is None
}

proof fn lemma_peak(rows: Seq<TraceRowView>, metric: Metric, read: Reading)
    requires
        forall|row: TraceRowView| #[trigger] read(row) == invariants::metric_of(row, metric),
    ensures
        is_greatest(rows, read, invariants::peak(rows, metric)),
{
    invariants::peak_is_greatest(rows, metric);
    assert forall|i: int| 0 <= i < rows.len() && read(#[trigger] rows[i]) is Some implies read(
        rows[i],
    )->0 <= invariants::peak(rows, metric) by {
        assert(invariants::or_default(invariants::metric_of(rows[i], metric), 0)
            <= invariants::peak(rows, metric));
    }
    if invariants::peak(rows, metric) > 0 {
        let i = choose|i: int|
            0 <= i < rows.len() && invariants::metric_of(#[trigger] rows[i], metric) == Some(
                invariants::peak(rows, metric),
            );
        assert(read(rows[i]) == Some(invariants::peak(rows, metric)));
    }
}

/// The reported minimum of a metric is at most every number that a row holds for the metric, and
/// is one of these numbers, or the default if no row holds one.
pub proof fn trough_is_least(rows: Seq<TraceRowView>, metric: Metric, default: u64)
    ensures
        is_least(
            rows,
            |row: TraceRowView| invariants::metric_of(row, metric),
            default,
            invariants::or_default(invariants::trough(rows, metric), default),
        ),
{
    lemma_trough(rows, metric, |row: TraceRowView| invariants::metric_of(row, metric));
}

proof fn lemma_trough(rows: Seq<TraceRowView>, metric: Metric, read: Reading)
    requires
        forall|row: TraceRowView| #[trigger] read(row) == invariants::metric_of(row, metric),
    ensures
        match invariants::trough(rows, metric) {
            Some(n) => {
                &&& forall|i: int|
                    0 <= i < rows.len() && read(#[trigger] rows[i]) is Some ==> n
                        <= read(rows[i])->0
                &&& exists|i: int| 0 <= i < rows.len() && read(#[trigger] rows[i]) == Some(n)
            },
            None => forall|i: int| 0 <= i < rows.len() ==> read(#[trigger] rows[i]) is None,
        },
    decreases rows.len(),
{
    if rows.len() > 0 {
        let init = rows.drop_last();
        lemma_trough(init, metric, read);
        assert(rows[rows.len() - 1] == rows.last());
        assert forall|i: int| 0 <= i < init.len() implies #[trigger] rows[i] == init[i] by {
        }
        assert(read(rows.last()) == invariants::metric_of(rows.last(), metric));
        if let Some(n) = invariants::trough(rows, metric) {
            if invariants::trough(init, metric) == Some(n) {
                let i = choose|i: int|
                    0 <= i < init.len() && read(#[trigger] init[i]) == Some(n);
                assert(read(rows[i]) == Some(n));
            }
            assert forall|i: int| 0 <= i < rows.len() && read(
                #[trigger] rows[i],
            ) is Some implies n <= read(rows[i])->0 by {
                if i < init.len() {
                    assert(read(init[i]) is Some);
                }
            }
        } else {
            assert forall|i: int| 0 <= i < rows.len() implies read(#[trigger] rows[i]) is None by {
                if i < init.len() {
                    assert(read(init[i]) is None);
                }
            }
        }
    }
}

proof fn lemma_latest(rows: Seq<TraceRowView>, metric: Metric, read: Reading, default: u64)
    requires
        forall|row: TraceRowView| #[trigger] read(row) == invariants::metric_of(row, metric),
    ensures
        is_last(
            rows,
            read,
            default,
            invariants::or_default(invariants::latest(rows, metric), default),
        ),
    decreases rows.len(),
{
    if rows.len() > 0 {
        let init = rows.drop_last();
        let n = invariants::or_default(invariants::latest(rows, metric), default);
        assert(rows[rows.len() - 1] == rows.last());
        assert(read(rows.last()) == invariants::metric_of(rows.last(), metric));
        assert forall|i: int| 0 <= i < init.len() implies #[trigger] rows[i] == init[i] by {
        }
        if read(rows.last()) is None {
            lemma_latest(init, metric, read, default);
            if exists|i: int|
                0 <= i < init.len() && read(#[trigger] init[i]) == Some(n) && forall|j: int|
                    i < j < init.len() ==> read(#[trigger] init[j]) is None {
                let i = choose|i: int|
                    0 <= i < init.len() && read(#[trigger] init[i]) == Some(n) && forall|j: int|
                        i < j < init.len() ==> read(#[trigger] init[j]) is None;
                assert(read(rows[i]) == Some(n));
                assert forall|j: int| i < j < rows.len() implies read(
                    #[trigger] rows[j],
                ) is None by {
                    if j < init.len() {
                        assert(read(init[j]) is None);
                    }
                }
            } else {
                assert forall|i: int| 0 <= i < rows.len() implies read(
                    #[trigger] rows[i],
                ) is None by {
                    if i < init.len() {
                        assert(read(init[i]) is None);
                    }
                }
            }
        }
    }
}

proof fn lemma_event_count(rows: Seq<TraceRowView>, event: TraceEvent)
    ensures
        invariants::event_count(rows, event) == rows.filter(
            |row: TraceRowView| row.event == event,
        ).len(),
    decreases rows.len(),
{
    reveal(Seq::filter);
    if rows.len() > 0 {
        lemma_event_count(rows.drop_last(), event);
    }
}

proof fn lemma_bypass_count(rows: Seq<TraceRowView>)
    ensures
        invariants::bypass_count(rows) == rows.filter(
            |row: TraceRowView|
                row.event == TraceEvent::GetBlocksSent && row.floor_bypass == Some(1u64),
        ).len(),
    decreases rows.len(),
{
    reveal(Seq::filter);
    if rows.len() > 0 {
        lemma_bypass_count(rows.drop_last());
    }
}

/// A number that only rows of one event count for.
pub open spec fn at_event(row: TraceRowView, event: TraceEvent, n: Option<u64>) -> Option<u64> {
    if row.event == event {
        n
    } else {
        None
    }
}

/// The report counts the snapshots, rejects, parks and requests of a run, and the requests to
/// saturated peers among them.
pub proof fn report_counts_events(rows: Seq<TraceRowView>)
    requires
        rows.len() <= usize::MAX,
    ensures
        ({
            let report = invariants::report_of(rows);
            &&& report.state_samples == rows.filter(
                |row: TraceRowView| row.event == TraceEvent::State,
            ).len()
            &&& report.protocol_rejects == rows.filter(
                |row: TraceRowView| row.event == TraceEvent::ProtocolReject,
            ).len()
            &&& report.session_parks == rows.filter(
                |row: TraceRowView| row.event == TraceEvent::PeerParked,
            ).len()
            &&& report.total_requests == rows.filter(
                |row: TraceRowView| row.event == TraceEvent::GetBlocksSent,
            ).len()
            &&& report.floor_bypass_requests == rows.filter(
                |row: TraceRowView|
                    row.event == TraceEvent::GetBlocksSent && row.floor_bypass == Some(1u64),
            ).len()
        }),
{
    lemma_event_count(rows, TraceEvent::State);
    lemma_event_count(rows, TraceEvent::ProtocolReject);
    lemma_event_count(rows, TraceEvent::PeerParked);
    lemma_event_count(rows, TraceEvent::GetBlocksSent);
    lemma_bypass_count(rows);
    rows.lemma_filter_len(|row: TraceRowView| row.event == TraceEvent::State);
    rows.lemma_filter_len(|row: TraceRowView| row.event == TraceEvent::ProtocolReject);
    rows.lemma_filter_len(|row: TraceRowView| row.event == TraceEvent::PeerParked);
    rows.lemma_filter_len(|row: TraceRowView| row.event == TraceEvent::GetBlocksSent);
    rows.lemma_filter_len(
        |row: TraceRowView|
            row.event == TraceEvent::GetBlocksSent && row.floor_bypass == Some(1u64),
    );
}

/// The peaks of a report are the greatest numbers of the run: of requests in flight, reserved
/// bytes and retained bytes in snapshots, of windows and bytes in flight at delivered bodies, and
/// of requests without progress at requests to peers that had not delivered a body.
pub proof fn report_peaks_are_greatest(rows: Seq<TraceRowView>)
    ensures
        ({
            let report = invariants::report_of(rows);
            &&& is_greatest(
                rows,
                |row: TraceRowView| at_event(row, TraceEvent::State, row.outstanding),
                report.max_outstanding,
            )
            &&& is_greatest(
                rows,
                |row: TraceRowView| at_event(row, TraceEvent::State, row.budget_reserved),
                report.peak_budget_reserved,
            )
            &&& is_greatest(
                rows,
                |row: TraceRowView|
                    at_event(row, TraceEvent::State, row.retained_pipeline_wire_bytes),
                report.peak_retained_pipeline_wire_bytes,
            )
            &&& is_greatest(
                rows,
                |row: TraceRowView|
                    at_event(
                        row,
                        TraceEvent::GetBlocksSent,
                        if row.block_progress_proven == Some(0u64) {
                            row.requests_without_block_progress
                        } else {
                            None
                        },
                    ),
                report.max_unproven_requests_without_block_progress,
            )
            &&& is_greatest(
                rows,
                |row: TraceRowView| at_event(row, TraceEvent::BodyReceived, row.bbr_cwnd_bytes),
                report.peak_cwnd_bytes,
            )
            &&& is_greatest(
                rows,
                |row: TraceRowView| at_event(row, TraceEvent::BodyReceived, row.bbr_inflight_bytes),
                report.peak_inflight_bytes,
            )
            &&& is_greatest(
                rows,
                |row: TraceRowView| at_event(row, TraceEvent::BodyReceived, row.bbr_cwnd),
                report.peak_cwnd_requests,
            )
        }),
{
    lemma_peak(
        rows,
        Metric::Outstanding,
        |row: TraceRowView| at_event(row, TraceEvent::State, row.outstanding),
    );
    lemma_peak(
        rows,
        Metric::BudgetReserved,
        |row: TraceRowView| at_event(row, TraceEvent::State, row.budget_reserved),
    );
    lemma_peak(
        rows,
        Metric::RetainedWireBytes,
        |row: TraceRowView| at_event(row, TraceEvent::State, row.retained_pipeline_wire_bytes),
    );
    lemma_peak(
        rows,
        Metric::UnprovenStreak,
        |row: TraceRowView|
            at_event(
                row,
                TraceEvent::GetBlocksSent,
                if row.block_progress_proven == Some(0u64) {
                    row.requests_without_block_progress
                } else {
                    None
                },
            ),
    );
    lemma_peak(
        rows,
        Metric::BodyCwndBytes,
        |row: TraceRowView| at_event(row, TraceEvent::BodyReceived, row.bbr_cwnd_bytes),
    );
    lemma_peak(
        rows,
        Metric::BodyInflightBytes,
        |row: TraceRowView| at_event(row, TraceEvent::BodyReceived, row.bbr_inflight_bytes),
    );
    lemma_peak(
        rows,
        Metric::BodyCwndRequests,
        |row: TraceRowView| at_event(row, TraceEvent::BodyReceived, row.bbr_cwnd),
    );
}

/// The least reliability of a report is the least of the run, or 1000 if no row holds one; its
/// final numbers are those of the last row that holds one: reserved bytes in snapshots, and the
/// window and the reliability anywhere, with the defaults 0, 0 and 1000.
pub proof fn report_ends_are_least_and_last(rows: Seq<TraceRowView>)
    ensures
        ({
            let report = invariants::report_of(rows);
            &&& is_least(
                rows,
                |row: TraceRowView| row.bbr_reliability_permille,
                1000,
                report.min_reliability_permille,
            )
            &&& is_last(
                rows,
                |row: TraceRowView| at_event(row, TraceEvent::State, row.budget_reserved),
                0,
                report.final_budget_reserved,
            )
            &&& is_last(rows, |row: TraceRowView| row.bbr_cwnd_bytes, 0, report.final_cwnd_bytes)
            &&& is_last(
                rows,
                |row: TraceRowView| row.bbr_reliability_permille,
                1000,
                report.final_reliability_permille,
            )
        }),
{
    lemma_trough(
        rows,
        Metric::Reliability,
        |row: TraceRowView| row.bbr_reliability_permille,
    );
    lemma_latest(
        rows,
        Metric::BudgetReserved,
        |row: TraceRowView| at_event(row, TraceEvent::State, row.budget_reserved),
        0,
    );
    lemma_latest(rows, Metric::CwndBytes, |row: TraceRowView| row.bbr_cwnd_bytes, 0);
    lemma_latest(
        rows,
        Metric::Reliability,
        |row: TraceRowView| row.bbr_reliability_permille,
        1000,
    );
}

/// A peer's streak is zero before any row; a request to the peer makes it one longer; a body from
/// it, its connecting, disconnecting, parking or rejection ends it; no other row changes it.
pub proof fn streaks_count_requests(rows: Seq<TraceRowView>, row: TraceRowView, peer: Seq<char>)
    ensures
        invariants::streak(Seq::<TraceRowView>::empty(), peer) == 0,
        ({
            let before = invariants::streak(rows, peer);
            let after = invariants::streak(rows.push(row), peer);
            if row.peer != Some(peer) {
                after == before
            } else if row.event == TraceEvent::GetBlocksSent {
                after == (if before < u64::MAX {
                    before + 1
                } else {
                    u64::MAX as int
                })
            } else if row.event == TraceEvent::BodyReceived || row.event
                == TraceEvent::PeerConnected || row.event == TraceEvent::PeerDisconnected
                || row.event == TraceEvent::PeerParked || row.event
                == TraceEvent::ProtocolReject {
                after == 0
            } else {
                after == before
            }
        }),
{
    assert(rows.push(row).drop_last() =~= rows);
}

/// The longest streak of a report is one that some peer had at some time, unless there was none,
/// and no peer had a longer one at any time.
pub proof fn longest_streak_was_had(rows: Seq<TraceRowView>, n: int, peer: Seq<char>)
    requires
        0 <= n <= rows.len(),
    ensures
        ({
            let longest = invariants::report_of(rows).max_requests_without_block_progress;
            &&& invariants::streak(rows.take(n), peer) <= longest
            &&& longest == 0 || exists|k: int, p: Seq<char>|
                0 <= k <= rows.len() && #[trigger] invariants::streak(rows.take(k), p) == longest
        }),
{
    invariants::longest_streak_is_greatest(rows, n, peer);
    lemma_longest_had(rows);
}

proof fn lemma_longest_had(rows: Seq<TraceRowView>)
    ensures
        invariants::longest_streak(rows) == 0 || exists|k: int, p: Seq<char>|
            0 <= k <= rows.len() && #[trigger] invariants::streak(rows.take(k), p)
                == invariants::longest_streak(rows),
    decreases rows.len(),
{
    if rows.len() > 0 {
        let init = rows.drop_last();
        let longest = invariants::longest_streak(rows);
        lemma_longest_had(init);
        if longest == invariants::longest_streak(init) {
            if longest > 0 {
                let (k, p) = choose|k: int, p: Seq<char>|
                    0 <= k <= init.len() && #[trigger] invariants::streak(init.take(k), p)
                        == longest;
                assert(init.take(k) =~= rows.take(k));
                assert(invariants::streak(rows.take(k), p) == longest);
            }
        } else {
            let p = rows.last().peer->0;
            assert(rows.take(rows.len() as int) =~= rows);
            assert(invariants::streak(rows.take(rows.len() as int), p) == longest);
        }
    }
}

/// The advertised requests of two groups of peers are those of the one and those of the other.
pub proof fn advertised_requests_add_up(a: Seq<PeerSpec>, b: Seq<PeerSpec>, peer: PeerSpec)
    ensures
        invariants::advertised_inflight(a + b) == invariants::advertised_inflight(a)
            + invariants::advertised_inflight(b),
        invariants::advertised_inflight(seq![peer]) == peer.max_inflight_requests,
    decreases b.len(),
{
    assert(seq![peer].drop_last() =~= Seq::<PeerSpec>::empty());
    assert(invariants::advertised_inflight(Seq::<PeerSpec>::empty()) == 0);
    if b.len() == 0 {
        assert(a + b =~= a);
    } else {
        advertised_requests_add_up(a, b.drop_last(), peer);
        assert((a + b).drop_last() =~= a + b.drop_last());
    }
}

/// A run is sound exactly if it committed the whole chain, emitted a snapshot, never had more
/// requests in flight than its peers advertise and the slack, and never reserved more bytes than
/// its settings allow. A violation names the numbers that show it, and is the first of these.
pub proof fn runs_are_judged_exactly(
    scenario: Scenario,
    outcome: FuzzOutcome,
    report: InvariantReport,
    outstanding_slack: u64,
)
    requires
        invariants::advertised_inflight(scenario.peers@) <= u64::MAX,
    ensures
        ({
            let advertised = invariants::advertised_inflight(scenario.peers@);
            let violation = invariants::core_violation(
                scenario,
                outcome,
                report,
                outstanding_slack,
            );
            &&& violation is None <==> {
                &&& outcome.committed_tip.0 >= outcome.target.0
                &&& report.state_samples > 0
                &&& report.max_outstanding <= advertised + outstanding_slack
                &&& report.peak_budget_reserved <= scenario.config.max_inflight_block_bytes
            }
            &&& match violation {
                Some(CoreViolation::Stalled { committed_tip, target }) => committed_tip
                    == outcome.committed_tip && target == outcome.target && committed_tip.0
                    < target.0,
                Some(CoreViolation::NoStateSamples) => report.state_samples == 0,
                Some(CoreViolation::OutstandingAboveBound { max_outstanding, bound }) =>
                    max_outstanding == report.max_outstanding && bound == advertised
                        + outstanding_slack && max_outstanding > bound,
                Some(CoreViolation::BudgetExceeded { peak, bound }) => peak
                    == report.peak_budget_reserved && bound
                    == scenario.config.max_inflight_block_bytes && peak > bound,
                None => true,
            }
            &&& outcome.committed_tip.0 < outcome.target.0 ==> violation is Some && violation->0
                is Stalled
            &&& outcome.committed_tip.0 >= outcome.target.0 && report.state_samples == 0
                ==> violation == Some(CoreViolation::NoStateSamples)
            &&& violation is Some && violation->0 is BudgetExceeded ==> report.max_outstanding
                <= advertised + outstanding_slack && report.state_samples > 0
        }),
{
}

/// A row reports an event exactly if it has the name of the event; a row with another name, or
/// none, reports nothing by which runs are judged.
pub proof fn events_have_their_names(name: Option<Seq<char>>)
    ensures
        ({
            let event = trace::event_of(name);
            &&& event == TraceEvent::State <==> name == Some("block_sync_state"@)
            &&& event == TraceEvent::PeerConnected <==> name == Some("block_peer_connected"@)
            &&& event == TraceEvent::GetBlocksSent <==> name == Some("block_get_blocks_sent"@)
            &&& event == TraceEvent::BodyReceived <==> name == Some("block_body_received"@)
            &&& event == TraceEvent::PeerDisconnected <==> name == Some(
                "block_peer_disconnected"@,
            )
            &&& event == TraceEvent::PeerParked <==> name == Some("block_peer_parked"@)
            &&& event == TraceEvent::ProtocolReject <==> name == Some(
                "block_peer_protocol_reject"@,
            )
        }),
{
    reveal_strlit("block_sync_state");
    reveal_strlit("block_peer_connected");
    reveal_strlit("block_get_blocks_sent");
    reveal_strlit("block_body_received");
    reveal_strlit("block_peer_disconnected");
    reveal_strlit("block_peer_parked");
    reveal_strlit("block_peer_protocol_reject");
    assert("block_sync_state"@.len() == 16);
    assert("block_peer_connected"@.len() == 20);
    assert("block_get_blocks_sent"@.len() == 21);
    assert("block_body_received"@.len() == 19);
    assert("block_peer_disconnected"@.len() == 23);
    assert("block_peer_parked"@.len() == 17);
    assert("block_peer_protocol_reject"@.len() == 26);
}

/// Whether `read` is the number that a row holds in a field.
pub open spec fn reads(row: Value, field: Seq<char>, read: Option<u64>) -> bool {
    match read {
        Some(n) => trace::number_fields(row).contains_key(field) && trace::number_fields(row)[field]
            == n,
        None => !trace::number_fields(row).contains_key(field),
    }
}

/// Each number of a trace row is the one in the field of its name, and its peer the text in the
/// field `peer`.
pub proof fn rows_are_read_by_field(row: Value)
    ensures
        ({
            let r = trace::row_of(row);
            &&& reads(row, "outstanding"@, r.outstanding)
            &&& reads(row, "budget_reserved"@, r.budget_reserved)
            &&& reads(row, "retained_pipeline_wire_bytes"@, r.retained_pipeline_wire_bytes)
            &&& reads(row, "floor_bypass"@, r.floor_bypass)
            &&& reads(row, "block_progress_proven"@, r.block_progress_proven)
            &&& reads(row, "requests_without_block_progress"@, r.requests_without_block_progress)
            &&& reads(row, "bbr_cwnd_bytes"@, r.bbr_cwnd_bytes)
            &&& reads(row, "bbr_inflight_bytes"@, r.bbr_inflight_bytes)
            &&& reads(row, "bbr_cwnd"@, r.bbr_cwnd)
            &&& reads(row, "bbr_reliability_permille"@, r.bbr_reliability_permille)
            &&& match r.peer {
                Some(text) => trace::text_fields(row).contains_key("peer"@)
                    && trace::text_fields(row)["peer"@] == text,
                None => !trace::text_fields(row).contains_key("peer"@),
            }
            &&& r.event == trace::event_of(
                if trace::text_fields(row).contains_key("event"@) {
                    Some(trace::text_fields(row)["event"@])
                } else {
                    None
                },
            )
        }),
{
}

} // verus!
