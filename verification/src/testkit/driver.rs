//! What drives a run: answers to the reactor, the commit pipeline, and timed changes.
use vstd::prelude::*;

use crate::chain::{BlockHash, Height, HEIGHT_MAX, U256};
use crate::engine::{ChainScore, EngineSnapshot, Frontier, FrontierSet};
use crate::testkit::scenario::{CommitProfile, TipEvent, TipEventKind};
use crate::time::Duration;

verus! {

/// The last height of a query for `limit` needed blocks from `from` on.
pub open spec fn needed_end(from: Height, limit: u32, best_header_tip: Height, target: Height) -> int {
    let last = from.0 + limit - 1;
    let in_range = if last > HEIGHT_MAX {
        HEIGHT_MAX as int
    } else {
        last
    };
    let below_tip = if in_range < best_header_tip.0 {
        in_range
    } else {
        best_header_tip.0 as int
    };
    if below_tip < target.0 {
        below_tip
    } else {
        target.0 as int
    }
}

/// Whether an answer to a query for needed blocks holds a height.
pub open spec fn answers(r: Option<(Height, Height)>, h: int) -> bool {
    match r {
        Some((start, end)) => start.0 <= h <= end.0,
        None => false,
    }
}

/// The heights that answer a query for needed blocks, from the first to the last: at most `limit`
/// from `from` on, none above the best header, the end of the chain or the supported range.
pub fn needed_range(from: Height, limit: u32, best_header_tip: Height, target: Height) -> (r: Option<
    (Height, Height),
>)
    ensures
        match r {
            Some((start, end)) => {
                &&& limit > 0
                &&& start == from
                &&& end.0 == needed_end(from, limit, best_header_tip, target)
                &&& start.0 <= end.0
            },
            None => limit == 0 || needed_end(from, limit, best_header_tip, target) < from.0,
        },
        forall|h: int| #![trigger answers(r, h)]
            answers(r, h) <==> from.0 <= h && h - from.0 < limit && h <= best_header_tip.0 && h
                <= target.0 && h <= HEIGHT_MAX,
{
    if limit == 0 {
        return None;
    }
    let last: u64 = from.0 as u64 + (limit - 1) as u64;
    let mut end: u32 = if last > HEIGHT_MAX as u64 {
        HEIGHT_MAX
    } else {
        last as u32
    };
    if best_header_tip.0 < end {
        end = best_header_tip.0;
    }
    if target.0 < end {
        end = target.0;
    }
    if from.0 <= end {
        Some((from, Height(end)))
    } else {
        None
    }
}

/// The mock commit pipeline.
#[derive(Clone, Copy, Debug, PartialEq, Eq, Structural)]
pub struct CommitDriver {
    /// How many bodies have been applied.
    pub applied: u64,
}

/// The pause after the `applied`th applied body, if there is one.
pub open spec fn burst_after(commit: CommitProfile, applied: u64) -> Option<Duration> {
    match commit.burst {
        Some(burst) => if burst.every_commits > 0 && applied % burst.every_commits == 0
            && burst.duration.nanos > 0 {
            Some(burst.duration)
        } else {
            None
        },
        None => None,
    }
}

impl CommitDriver {
    /// A pipeline that has applied nothing.
    pub fn new() -> (driver: Self)
        ensures
            driver.applied == 0,
    {
        CommitDriver { applied: 0 }
    }

    /// How long a submitted body is held before it is applied, if it is held.
    pub fn before_apply(&self, commit: &CommitProfile) -> (r: Option<Duration>)
        ensures
            r == (if commit.per_commit_delay.nanos > 0 {
                Some(commit.per_commit_delay)
            } else {
                None
            }),
    {
        if commit.per_commit_delay.nanos > 0 {
            Some(commit.per_commit_delay)
        } else {
            None
        }
    }

    /// Counts an applied body, and says how long to pause then, if at all.
    pub fn after_apply(&mut self, commit: &CommitProfile) -> (r: Option<Duration>)
        ensures
            final(self).applied == (if old(self).applied == u64::MAX {
                u64::MAX as int
            } else {
                old(self).applied + 1
            }),
            r == burst_after(*commit, final(self).applied),
    {
        self.applied = self.applied.saturating_add(1);
        match commit.burst {
            Some(burst) => if burst.every_commits > 0 && self.applied % burst.every_commits == 0
                && burst.duration.nanos > 0 {
                Some(burst.duration)
            } else {
                None
            },
            None => None,
        }
    }
}

/// Whether events are in the order of their times.
pub open spec fn in_order(events: Seq<TipEvent>) -> bool {
    forall|i: int, j: int|
        0 <= i < j < events.len() ==> (#[trigger] events[i]).at.nanos <= (
        #[trigger] events[j]).at.nanos
}

/// The events at one time, in order.
pub open spec fn events_at(events: Seq<TipEvent>, nanos: u128) -> Seq<TipEvent> {
    events.filter(|e: TipEvent| e.at.nanos == nanos)
}

/// Whether `sorted` holds the events of `events` in the order of their times, those at one time in
/// the order that they had.
pub open spec fn stably_sorted(events: Seq<TipEvent>, sorted: Seq<TipEvent>) -> bool {
    &&& in_order(sorted)
    &&& forall|nanos: u128| #[trigger] events_at(sorted, nanos) == events_at(events, nanos)
}

/// The events at one time when one event is put in.
proof fn lemma_events_insert(sorted: Seq<TipEvent>, i: int, event: TipEvent, nanos: u128)
    requires
        0 <= i <= sorted.len(),
        forall|j: int| i <= j < sorted.len() ==> (#[trigger] sorted[j]).at.nanos > event.at.nanos,
    ensures
        events_at(sorted.insert(i, event), nanos) == (if event.at.nanos == nanos {
            events_at(sorted, nanos).push(event)
        } else {
            events_at(sorted, nanos)
        }),
{
    let at = |e: TipEvent| e.at.nanos == nanos;
    let head = sorted.take(i);
    let tail = sorted.skip(i);
    assert(sorted =~= head + tail);
    assert(sorted.insert(i, event) =~= head.push(event) + tail);
    Seq::filter_distributes_over_add(head, tail, at);
    Seq::filter_distributes_over_add(head.push(event), tail, at);
    lemma_filter_push(head, event, at);
    if event.at.nanos == nanos {
        lemma_filter_none(tail, at);
        assert(events_at(sorted, nanos) =~= head.filter(at));
    }
    assert(events_at(sorted.insert(i, event), nanos) =~= (if event.at.nanos == nanos {
        events_at(sorted, nanos).push(event)
    } else {
        events_at(sorted, nanos)
    }));
}

/// A filter takes the last element if it accepts it.
proof fn lemma_filter_push(s: Seq<TipEvent>, e: TipEvent, accepts: spec_fn(TipEvent) -> bool)
    ensures
        s.push(e).filter(accepts) == (if accepts(e) {
            s.filter(accepts).push(e)
        } else {
            s.filter(accepts)
        }),
{
    reveal(Seq::filter);
    assert(s.push(e).drop_last() =~= s);
}

/// A filter that accepts nothing leaves nothing.
proof fn lemma_filter_none(s: Seq<TipEvent>, accepts: spec_fn(TipEvent) -> bool)
    requires
        forall|i: int| 0 <= i < s.len() ==> !accepts(#[trigger] s[i]),
    ensures
        s.filter(accepts) == Seq::<TipEvent>::empty(),
    decreases s.len(),
{
    reveal(Seq::filter);
    if s.len() > 0 {
        assert forall|i: int| 0 <= i < s.drop_last().len() implies !accepts(
            #[trigger] s.drop_last()[i],
        ) by {
            assert(s.drop_last()[i] == s[i]);
        }
        lemma_filter_none(s.drop_last(), accepts);
        assert(!accepts(s[s.len() - 1]));
    }
}

/// Sorts events by their times; events at one time keep their order.
pub fn sort_timeline(events: &Vec<TipEvent>) -> (sorted: Vec<TipEvent>)
    ensures
        stably_sorted(events@, sorted@),
        sorted@.len() == events@.len(),
{
    let mut sorted: Vec<TipEvent> = Vec::new();
    let mut n: usize = 0;
    assert(events@.take(0) =~= sorted@);
    while n < events.len()
        invariant
            n <= events@.len(),
            sorted@.len() == n,
            stably_sorted(events@.take(n as int), sorted@),
        decreases events@.len() - n,
    {
        let event = events[n];
        let mut i: usize = sorted.len();
        while i > 0 && sorted[i - 1].at.nanos > event.at.nanos
            invariant
                i <= sorted@.len(),
                in_order(sorted@),
                forall|j: int|
                    i <= j < sorted@.len() ==> (#[trigger] sorted@[j]).at.nanos > event.at.nanos,
            decreases i,
        {
            i = i - 1;
        }
        let ghost before = sorted@;
        sorted.insert(i, event);
        proof {
            assert(events@.take(n + 1) =~= events@.take(n as int).push(event));
            assert forall|j: int| 0 <= j < i implies (#[trigger] before[j]).at.nanos
                <= event.at.nanos by {
                assert(before[j].at.nanos <= before[i - 1].at.nanos);
            }
            assert forall|a: int, b: int| 0 <= a < b < sorted@.len() implies (
            #[trigger] sorted@[a]).at.nanos <= (#[trigger] sorted@[b]).at.nanos by {
                let a0 = if a < i {
                    a
                } else {
                    a - 1
                };
                let b0 = if b < i {
                    b
                } else {
                    b - 1
                };
                if a != i {
                    assert(sorted@[a] == before[a0]);
                }
                if b != i {
                    assert(sorted@[b] == before[b0]);
                }
            }
            assert forall|nanos: u128| #[trigger] events_at(sorted@, nanos) == events_at(
                events@.take(n + 1),
                nanos,
            ) by {
                lemma_events_insert(before, i as int, event, nanos);
                lemma_filter_push(
                    events@.take(n as int),
                    event,
                    |e: TipEvent| e.at.nanos == nanos,
                );
                assert(events_at(before, nanos) == events_at(events@.take(n as int), nanos));
            }
        }
        n = n + 1;
    }
    assert(events@.take(n as int) =~= events@);
    sorted
}

/// How long to wait for an event that is due at `at`, once `elapsed` has passed.
pub fn wait_until(at: Duration, elapsed: Duration) -> (wait: Duration)
    ensures
        wait.nanos == (if at.nanos > elapsed.nanos {
            at.nanos - elapsed.nanos
        } else {
            0
        }),
{
    Duration { nanos: at.nanos.saturating_sub(elapsed.nanos) }
}

/// The hash of a block of the synthetic chain, or of the genesis block where there is none.
pub fn corpus_hash(height: Height, block_hash: Option<BlockHash>, genesis: BlockHash) -> (hash:
    BlockHash)
    ensures
        hash == (if height.0 == 0 {
            genesis
        } else {
            match block_hash {
                Some(known) => known,
                None => genesis,
            }
        }),
{
    if height.0 == 0 {
        genesis
    } else {
        match block_hash {
            Some(known) => known,
            None => genesis,
        }
    }
}

/// The number zero.
fn zero_work() -> (work: U256)
    ensures
        work.0@ == Seq::new(32, |i: int| 0u8),
{
    let work = U256([0u8; 32]);
    assert(work.0@ =~= Seq::new(32, |i: int| 0u8));
    work
}

/// Whether a snapshot's score is that of its best header, without counting work.
pub open spec fn unscored(snapshot: EngineSnapshot) -> bool {
    &&& snapshot.header_best_score.suffix_work.0@ == Seq::new(32, |i: int| 0u8)
    &&& snapshot.header_best_score.tip_hash == snapshot.frontiers.header_best.hash
}

/// A committed snapshot with given generations and frontiers.
pub fn fuzz_snapshot(
    state_version: u64,
    header_generation: u64,
    verified_generation: u64,
    finalized: Frontier,
    verified_best: Frontier,
    header_best: Frontier,
) -> (snapshot: EngineSnapshot)
    ensures
        snapshot.state_version == state_version,
        snapshot.header_generation == header_generation,
        snapshot.verified_generation == verified_generation,
        snapshot.frontiers == (FrontierSet { finalized, header_best, verified_best }),
        unscored(snapshot),
        snapshot.oldest_retained_height == finalized.height,
{
    EngineSnapshot {
        state_version,
        header_generation,
        verified_generation,
        frontiers: FrontierSet { finalized, header_best, verified_best },
        header_best_score: ChainScore { suffix_work: zero_work(), tip_hash: header_best.hash },
        oldest_retained_height: finalized.height,
    }
}

/// The height that an event is about.
pub open spec fn event_height(kind: TipEventKind) -> Height {
    match kind {
        TipEventKind::GrowTo(height) => height,
        TipEventKind::HeaderReanchor(height) => height,
        TipEventKind::VerifiedReset(height) => height,
    }
}

/// What an event makes of a snapshot, but for its score: a header event starts a new header
/// generation at a new best header, a reset a new verified generation at a new verified tip.
pub open spec fn tip_event_frontiers(
    snapshot: EngineSnapshot,
    kind: TipEventKind,
    hash: BlockHash,
    after: EngineSnapshot,
) -> bool {
    let frontier = Frontier { height: event_height(kind), hash };
    let before = snapshot.frontiers;
    &&& after.state_version == snapshot.state_version
    &&& after.oldest_retained_height == snapshot.oldest_retained_height
    &&& match kind {
        TipEventKind::VerifiedReset(_) => {
            &&& after.header_generation == snapshot.header_generation
            &&& after.verified_generation == snapshot.verified_generation + 1
            &&& after.frontiers == (FrontierSet { verified_best: frontier, ..before })
        },
        _ => {
            &&& after.header_generation == snapshot.header_generation + 1
            &&& after.verified_generation == snapshot.verified_generation
            &&& after.frontiers == (FrontierSet { header_best: frontier, ..before })
        },
    }
}

/// Applies a timed change to a snapshot; `hash` is that of the block at the height it is about.
pub fn apply_tip_event(snapshot: &mut EngineSnapshot, kind: TipEventKind, hash: BlockHash)
    requires
        old(snapshot).header_generation < u64::MAX,
        old(snapshot).verified_generation < u64::MAX,
    ensures
        tip_event_frontiers(*old(snapshot), kind, hash, *final(snapshot)),
        unscored(*final(snapshot)),
{
    match kind {
        TipEventKind::GrowTo(height) => {
            snapshot.header_generation = snapshot.header_generation + 1;
            snapshot.frontiers.header_best = Frontier { height, hash };
        },
        TipEventKind::HeaderReanchor(height) => {
            snapshot.header_generation = snapshot.header_generation + 1;
            snapshot.frontiers.header_best = Frontier { height, hash };
        },
        TipEventKind::VerifiedReset(height) => {
            snapshot.verified_generation = snapshot.verified_generation + 1;
            snapshot.frontiers.verified_best = Frontier { height, hash };
        },
    }
    snapshot.header_best_score = ChainScore {
        suffix_work: zero_work(),
        tip_hash: snapshot.frontiers.header_best.hash,
    };
}

/// The frontiers of the mock commit pipeline.
#[derive(Clone, Copy, Debug, PartialEq, Eq)]
pub struct BlockSyncFrontiers {
    /// The finalized height.
    pub finalized_height: Height,
    /// The height of the verified tip.
    pub verified_block_tip: Height,
    /// The hash of the verified tip.
    pub verified_block_hash: BlockHash,
}

/// A snapshot of a new version, with the frontiers of the commit pipeline.
pub open spec fn recommitted(snapshot: EngineSnapshot, applied: BlockSyncFrontiers) -> EngineSnapshot {
    EngineSnapshot {
        state_version: (snapshot.state_version + 1) as u64,
        frontiers: FrontierSet {
            finalized: Frontier {
                height: applied.finalized_height,
                hash: applied.verified_block_hash,
            },
            verified_best: Frontier {
                height: applied.verified_block_tip,
                hash: applied.verified_block_hash,
            },
            ..snapshot.frontiers
        },
        ..snapshot
    }
}

/// The snapshot that a timed change publishes: a new version, the frontiers of the commit
/// pipeline, and the change.
pub fn next_snapshot(
    current: EngineSnapshot,
    applied: BlockSyncFrontiers,
    kind: TipEventKind,
    hash: BlockHash,
) -> (next: EngineSnapshot)
    requires
        current.state_version < u64::MAX,
        current.header_generation < u64::MAX,
        current.verified_generation < u64::MAX,
    ensures
        tip_event_frontiers(recommitted(current, applied), kind, hash, next),
        unscored(next),
{
    let mut next = current;
    next.state_version = next.state_version + 1;
    next.frontiers.finalized = Frontier {
        height: applied.finalized_height,
        hash: applied.verified_block_hash,
    };
    next.frontiers.verified_best = Frontier {
        height: applied.verified_block_tip,
        hash: applied.verified_block_hash,
    };
    assert(next == recommitted(current, applied));
    apply_tip_event(&mut next, kind, hash);
    next
}

/// The committed height that a run reports: the height that reached the target, or else the
/// last committed one.
pub fn committed_tip(reached: Option<Height>, last: Height) -> (tip: Height)
    ensures
        tip == (match reached {
            Some(height) => height,
            None => last,
        }),
{
    match reached {
        Some(height) => height,
        None => last,
    }
}

/// Each timed change raises the version by one and exactly one of the two generations by one.
pub proof fn timed_change_raises_one_generation(
    current: EngineSnapshot,
    applied: BlockSyncFrontiers,
    kind: TipEventKind,
    hash: BlockHash,
    next: EngineSnapshot,
)
    requires
        current.state_version < u64::MAX,
        tip_event_frontiers(recommitted(current, applied), kind, hash, next),
    ensures
        next.state_version == current.state_version + 1,
        next.header_generation + next.verified_generation == current.header_generation
            + current.verified_generation + 1,
        kind is VerifiedReset <==> next.verified_generation == current.verified_generation + 1,
{
}

/// A timeline has one stable order.
pub proof fn sorted_timeline_is_unique(
    events: Seq<TipEvent>,
    sorted1: Seq<TipEvent>,
    sorted2: Seq<TipEvent>,
)
    requires
        stably_sorted(events, sorted1),
        stably_sorted(events, sorted2),
    ensures
        sorted1 == sorted2,
{
    assert forall|nanos: u128| #[trigger] events_at(sorted1, nanos) == events_at(
        sorted2,
        nanos,
    ) by {
        assert(events_at(sorted1, nanos) == events_at(events, nanos));
    }
    lemma_unique(sorted1, sorted2);
}

/// An event of a timeline is among the events of its time.
proof fn lemma_events_at_contains(s: Seq<TipEvent>, i: int)
    requires
        0 <= i < s.len(),
    ensures
        events_at(s, s[i].at.nanos).len() > 0,
    decreases s.len(),
{
    reveal(Seq::filter);
    if i < s.len() - 1 {
        lemma_events_at_contains(s.drop_last(), i);
        assert(s.drop_last()[i] == s[i]);
    }
}

/// A time that has events is the time of an event of the timeline.
proof fn lemma_events_at_last(s: Seq<TipEvent>, nanos: u128)
    requires
        events_at(s, nanos).len() > 0,
    ensures
        exists|i: int| 0 <= i < s.len() && (#[trigger] s[i]).at.nanos == nanos,
    decreases s.len(),
{
    reveal(Seq::filter);
    if s.len() > 0 {
        if s.last().at.nanos == nanos {
            assert(s[s.len() - 1].at.nanos == nanos);
        } else {
            lemma_events_at_last(s.drop_last(), nanos);
            let i = choose|i: int|
                0 <= i < s.drop_last().len() && (#[trigger] s.drop_last()[i]).at.nanos == nanos;
            assert(s[i].at.nanos == nanos);
        }
    }
}

/// Timelines in order with the same events at each time are the same.
proof fn lemma_unique(a: Seq<TipEvent>, b: Seq<TipEvent>)
    requires
        in_order(a),
        in_order(b),
        forall|nanos: u128| #[trigger] events_at(a, nanos) == events_at(b, nanos),
    ensures
        a == b,
    decreases a.len(),
{
    if a.len() == 0 {
        if b.len() > 0 {
            lemma_events_at_contains(b, 0);
            assert(events_at(a, b[0].at.nanos) == events_at(b, b[0].at.nanos));
            lemma_events_at_last(a, b[0].at.nanos);
        }
        assert(a =~= b);
    } else if b.len() == 0 {
        lemma_events_at_contains(a, 0);
        assert(events_at(a, a[0].at.nanos) == events_at(b, a[0].at.nanos));
        lemma_events_at_last(b, a[0].at.nanos);
    } else {
        let ta = a.last().at.nanos;
        let tb = b.last().at.nanos;
        let na = a.len() - 1;
        let nb = b.len() - 1;
        lemma_events_at_contains(a, na);
        lemma_events_at_contains(b, nb);
        assert(events_at(a, ta) == events_at(b, ta));
        assert(events_at(a, tb) == events_at(b, tb));
        lemma_events_at_last(b, ta);
        lemma_events_at_last(a, tb);
        let i = choose|i: int| 0 <= i < b.len() && (#[trigger] b[i]).at.nanos == ta;
        let j = choose|j: int| 0 <= j < a.len() && (#[trigger] a[j]).at.nanos == tb;
        assert(b[i].at.nanos <= b[nb].at.nanos);
        assert(a[j].at.nanos <= a[na].at.nanos);
        assert(ta == tb);
        let ia = a.drop_last();
        let ib = b.drop_last();
        let at = |e: TipEvent| e.at.nanos == ta;
        assert(a =~= ia.push(a.last()));
        assert(b =~= ib.push(b.last()));
        lemma_filter_push(ia, a.last(), at);
        lemma_filter_push(ib, b.last(), at);
        assert(events_at(a, ta) == events_at(ia, ta).push(a.last()));
        assert(events_at(b, ta) == events_at(ib, ta).push(b.last()));
        assert(events_at(a, ta).last() == a.last());
        assert(events_at(b, ta).last() == b.last());
        assert(events_at(a, ta).drop_last() =~= events_at(ia, ta));
        assert(events_at(b, ta).drop_last() =~= events_at(ib, ta));
        assert forall|nanos: u128| #[trigger] events_at(ia, nanos) == events_at(ib, nanos) by {
            let then = |e: TipEvent| e.at.nanos == nanos;
            lemma_filter_push(ia, a.last(), then);
            lemma_filter_push(ib, b.last(), then);
            assert(events_at(a, nanos) == events_at(b, nanos));
        }
        lemma_unique(ia, ib);
    }
}

} // verus!
