//! What the drivers of a run answer, pause for and publish.
use vstd::prelude::*;

use crate::chain::{BlockHash, Height, HEIGHT_MAX};
use crate::engine::{EngineSnapshot, Frontier};
use crate::testkit::driver;
use crate::testkit::driver::BlockSyncFrontiers;
use crate::testkit::scenario::{CommitProfile, TipEvent, TipEventKind};

verus! {

/// Whether a height is asked for and there: it is not below the first that was asked for, fewer
/// than the limit lie between them, and it is above neither the best header nor the end of the
/// chain nor the supported heights.
pub open spec fn is_needed(
    from: Height,
    limit: u32,
    best_header_tip: Height,
    target: Height,
    h: int,
) -> bool {
    &&& from.0 <= h
    &&& h - from.0 < limit
    &&& h <= best_header_tip.0
    &&& h <= target.0
    &&& h <= HEIGHT_MAX
}

/// A height is among the needed blocks exactly if it is asked for and there, and there is no
/// answer exactly if no height is.
pub proof fn needed_heights_are_answered(
    from: Height,
    limit: u32,
    best_header_tip: Height,
    target: Height,
    h: int,
)
    ensures
        ({
            let end = driver::needed_end(from, limit, best_header_tip, target);
            &&& limit > 0 && from.0 <= h <= end <==> is_needed(
                from,
                limit,
                best_header_tip,
                target,
                h,
            )
            &&& limit == 0 || end < from.0 <==> forall|k: int|
                !#[trigger] is_needed(from, limit, best_header_tip, target, k)
        }),
{
    if limit > 0 && driver::needed_end(from, limit, best_header_tip, target) >= from.0 {
        assert(is_needed(from, limit, best_header_tip, target, from.0 as int));
    }
}

/// The pipeline pauses after a body exactly if pauses are configured, have a length, and the
/// number of applied bodies is a multiple of their distance; it pauses for that length.
pub proof fn pauses_come_at_multiples(commit: CommitProfile, applied: u64)
    ensures
        match driver::burst_after(commit, applied) {
            Some(pause) => {
                &&& commit.burst matches Some(burst) && pause == burst.duration && pause.nanos > 0
                    && burst.every_commits > 0 && exists|k: int| applied == #[trigger] (k
                    * burst.every_commits)
            },
            None => commit.burst matches Some(burst) ==> burst.every_commits == 0
                || burst.duration.nanos == 0 || forall|k: int|
                applied != #[trigger] (k * burst.every_commits),
        },
{
    if let Some(burst) = commit.burst {
        if burst.every_commits > 0 {
            let every = burst.every_commits as int;
            let n = applied as int;
            vstd::arithmetic::div_mod::lemma_fundamental_div_mod(n, every);
            assert(every * (n / every) == (n / every) * every) by (nonlinear_arith);
            if n % every == 0 {
                assert(applied == (n / every) * burst.every_commits);
            } else {
                assert forall|k: int| applied != #[trigger] (k * burst.every_commits) by {
                    vstd::arithmetic::div_mod::lemma_mod_multiples_basic(k, every);
                }
            }
        }
    }
}

proof fn lemma_filter_count(s: Seq<TipEvent>, nanos: u128, e: TipEvent)
    requires
        e.at.nanos == nanos,
    ensures
        s.filter(|x: TipEvent| x.at.nanos == nanos).to_multiset().count(e)
            == s.to_multiset().count(e),
    decreases s.len(),
{
    broadcast use vstd::seq_lib::group_to_multiset_ensures;

    let at = |x: TipEvent| x.at.nanos == nanos;
    reveal(Seq::filter);
    if s.len() > 0 {
        let init = s.drop_last();
        lemma_filter_count(init, nanos, e);
        assert(s =~= init.push(s.last()));
        assert(s.to_multiset() =~= init.to_multiset().insert(s.last()));
        if at(s.last()) {
            assert(s.filter(at) =~= init.filter(at).push(s.last()));
            assert(s.filter(at).to_multiset() =~= init.filter(at).to_multiset().insert(s.last()));
        } else {
            assert(s.filter(at) =~= init.filter(at));
        }
    }
}

/// A sorted timeline has the same events, each as often, never earlier after later; events at one
/// time come in the order that they had.
pub proof fn sorting_keeps_every_event(
    events: Seq<TipEvent>,
    sorted: Seq<TipEvent>,
    nanos: u128,
)
    requires
        driver::stably_sorted(events, sorted),
    ensures
        sorted.to_multiset() == events.to_multiset(),
        forall|i: int, j: int|
            0 <= i < j < sorted.len() ==> (#[trigger] sorted[i]).at.nanos <= (
            #[trigger] sorted[j]).at.nanos,
        sorted.filter(|e: TipEvent| e.at.nanos == nanos) == events.filter(
            |e: TipEvent| e.at.nanos == nanos,
        ),
{
    assert(driver::events_at(sorted, nanos) == driver::events_at(events, nanos));
    assert forall|e: TipEvent| sorted.to_multiset().count(e) == events.to_multiset().count(e) by {
        assert(driver::events_at(sorted, e.at.nanos) == driver::events_at(events, e.at.nanos));
        lemma_filter_count(sorted, e.at.nanos, e);
        lemma_filter_count(events, e.at.nanos, e);
    }
    assert(sorted.to_multiset() =~= events.to_multiset());
}

/// A timed change publishes a snapshot one version later whose finalized and verified frontiers
/// are those of the commit pipeline. New headers replace the best header, a reset the verified
/// tip, by the block that the change is about, and raise the generation of that frontier alone.
/// The score counts no work and has the hash of the best header.
pub proof fn timed_change_publishes_its_frontier(
    current: EngineSnapshot,
    applied: BlockSyncFrontiers,
    kind: TipEventKind,
    hash: BlockHash,
    next: EngineSnapshot,
)
    requires
        current.state_version < u64::MAX,
        current.header_generation < u64::MAX,
        current.verified_generation < u64::MAX,
        driver::tip_event_frontiers(driver::recommitted(current, applied), kind, hash, next),
        driver::unscored(next),
    ensures
        next.state_version == current.state_version + 1,
        next.oldest_retained_height == current.oldest_retained_height,
        next.frontiers.finalized == (Frontier {
            height: applied.finalized_height,
            hash: applied.verified_block_hash,
        }),
        match kind {
            TipEventKind::VerifiedReset(height) => {
                &&& next.frontiers.verified_best == (Frontier { height, hash })
                &&& next.frontiers.header_best == current.frontiers.header_best
                &&& next.verified_generation == current.verified_generation + 1
                &&& next.header_generation == current.header_generation
            },
            TipEventKind::GrowTo(height) | TipEventKind::HeaderReanchor(height) => {
                &&& next.frontiers.header_best == (Frontier { height, hash })
                &&& next.frontiers.verified_best == (Frontier {
                    height: applied.verified_block_tip,
                    hash: applied.verified_block_hash,
                })
                &&& next.header_generation == current.header_generation + 1
                &&& next.verified_generation == current.verified_generation
            },
        },
        forall|i: int| 0 <= i < 32 ==> #[trigger] next.header_best_score.suffix_work.0@[i] == 0,
        next.header_best_score.tip_hash == next.frontiers.header_best.hash,
{
}

} // verus!
