//! What a synthetic peer does with a request, step by step, and how long it takes.
use rand::rngs::StdRng;
use vstd::prelude::*;

use crate::testkit::peer;
use crate::testkit::peer::{
    BlockRequest, ServeAction, ServeEvent, ServePace, ServePhase, ServeState, Wait,
};
use crate::testkit::scenario;
use crate::testkit::scenario::{Degrade, DegradeMode, LatencyDist, ServeProfile};
use crate::time::Duration;

verus! {

/// Whether a change to how the peer serves has taken effect.
pub open spec fn degraded(profile: ServeProfile, elapsed: Duration) -> bool {
    profile.degrade matches Some(degrade) && elapsed.nanos >= degrade.at.nanos
}

/// A peer that looks for work stops reading exactly if it has wedged; else it waits for a message.
pub proof fn a_wedged_peer_reads_no_more(profile: ServeProfile, responses: u64, elapsed: Duration)
    ensures
        ({
            let idle = ServeState { responses, phase: ServePhase::Idle };
            let (next, action) = peer::step(profile, idle, ServeEvent::Poll { elapsed });
            if degraded(profile, elapsed) && (profile.degrade->0).mode == DegradeMode::Wedge {
                action == ServeAction::Hang && next.phase == ServePhase::Ended
            } else {
                action == ServeAction::Receive && next.phase == ServePhase::Reading
            }
        }),
{
}

/// A request is passed over exactly if the peer has gone silent or wedged. Else it is taken up: at
/// the slowed round trip and a rate of at least one byte per second if the peer has slowed down,
/// and else at the profile's own pace.
pub proof fn requests_are_taken_up_unless_silent(
    profile: ServeProfile,
    responses: u64,
    request: BlockRequest,
    elapsed: Duration,
)
    ensures
        ({
            let reading = ServeState { responses, phase: ServePhase::Reading };
            let (next, action) = peer::step(
                profile,
                reading,
                ServeEvent::Request { request, elapsed },
            );
            &&& next.responses == responses
            &&& match profile.degrade {
                Some(
                    Degrade {
                        at,
                        mode: DegradeMode::SlowTo { base_rtt, bandwidth_bytes_per_sec },
                    },
                ) if elapsed.nanos >= at.nanos => {
                    &&& action == ServeAction::DrawDrop
                    &&& next.phase == (ServePhase::Drawing {
                        request,
                        pace: ServePace {
                            first_block: Some(base_rtt),
                            bandwidth: Some(
                                if bandwidth_bytes_per_sec < 1 {
                                    1
                                } else {
                                    bandwidth_bytes_per_sec
                                },
                            ),
                        },
                    })
                },
                Some(Degrade { at, .. }) if elapsed.nanos >= at.nanos => action
                    == ServeAction::Continue && next.phase == ServePhase::Idle,
                _ => {
                    &&& action == ServeAction::DrawDrop
                    &&& next.phase == (ServePhase::Drawing {
                        request,
                        pace: ServePace {
                            first_block: None,
                            bandwidth: profile.bandwidth_bytes_per_sec,
                        },
                    })
                },
            }
        }),
{
}

/// A request that is not dropped is answered: as unavailable exactly if its first height is one
/// that the peer withholds, and else with its blocks, after a stall exactly if stalls are
/// configured, have a length, and the number of this answer is a multiple of their distance.
pub proof fn answered_requests_stall_at_multiples(
    profile: ServeProfile,
    responses: u64,
    request: BlockRequest,
    pace: ServePace,
)
    requires
        responses < u64::MAX,
    ensures
        ({
            let drawing = ServeState { responses, phase: ServePhase::Drawing { request, pace } };
            let (next, action) = peer::step(
                profile,
                drawing,
                ServeEvent::Drawn { dropped: false },
            );
            let answer = responses + 1;
            let start = request.start_height.0;
            &&& next.responses == answer
            &&& action == ServeAction::SendUnavailable(request) <==> (profile.withhold matches Some(
                (low, high),
            ) && low.0 <= start && start <= high.0)
            &&& action matches ServeAction::SendUnavailable(_) ==> next.phase
                == ServePhase::Replying
            &&& action matches ServeAction::Stall(span) ==> {
                &&& next.phase == (ServePhase::Stalling { request, pace })
                &&& profile.idle_gap matches Some(gap) && span == gap.duration && span.nanos > 0
                    && exists|k: int| answer == #[trigger] (k * gap.every_responses)
            }
            &&& action matches ServeAction::ListBlocks(listed) ==> {
                &&& listed == request
                &&& next.phase == (ServePhase::Listing { request, pace })
                &&& profile.idle_gap matches Some(gap) ==> gap.duration.nanos == 0
                    || gap.every_responses == 0 || forall|k: int|
                    answer != #[trigger] (k * gap.every_responses)
            }
            &&& action is SendUnavailable || action is Stall || action is ListBlocks
        }),
{
    let answer = (responses + 1) as int;
    if let Some(gap) = profile.idle_gap {
        if gap.every_responses > 0 {
            let every = gap.every_responses as int;
            vstd::arithmetic::div_mod::lemma_fundamental_div_mod(answer, every);
            assert(every * (answer / every) == (answer / every) * every) by (nonlinear_arith);
            if answer % every == 0 {
                assert(answer == (answer / every) * gap.every_responses);
            } else {
                assert forall|k: int| answer != #[trigger] (k * gap.every_responses) by {
                    vstd::arithmetic::div_mod::lemma_mod_multiples_basic(k, every);
                }
            }
        }
    }
}

/// A dropped request gets no answer, and the peer looks for the next.
pub proof fn dropped_requests_get_no_answer(
    profile: ServeProfile,
    responses: u64,
    request: BlockRequest,
    pace: ServePace,
)
    ensures
        peer::step(
            profile,
            ServeState { responses, phase: ServePhase::Drawing { request, pace } },
            ServeEvent::Drawn { dropped: true },
        ) == (ServeState { responses, phase: ServePhase::Idle }, ServeAction::Continue),
{
}

/// A range without blocks is answered as unavailable. One with blocks is answered after the slowed
/// round trip, if there is one, and else after the first-block latency, which is drawn unless it
/// is always zero.
pub proof fn the_first_block_waits_its_latency(
    profile: ServeProfile,
    responses: u64,
    request: BlockRequest,
    pace: ServePace,
    count: usize,
)
    ensures
        ({
            let listing = ServeState { responses, phase: ServePhase::Listing { request, pace } };
            let (next, action) = peer::step(profile, listing, ServeEvent::Blocks { count });
            &&& next.responses == responses
            &&& count == 0 ==> action == ServeAction::SendUnavailable(request) && next.phase
                == ServePhase::Replying
            &&& count > 0 ==> {
                &&& next.phase == (ServePhase::Delaying { request, pace, blocks: count })
                &&& action == ServeAction::WaitFirst(
                    match pace.first_block {
                        Some(span) => Wait::Span(span),
                        None => if profile.first_block_latency == LatencyDist::Fixed(
                            Duration { nanos: 0 },
                        ) {
                            Wait::Nothing
                        } else {
                            Wait::Draw(profile.first_block_latency)
                        },
                    },
                )
            }
        }),
{
}

/// The place in the range of the `sent`th block of a response: that many from the front, or from
/// the back if the peer reorders.
pub open spec fn place(profile: ServeProfile, blocks: usize, sent: usize) -> int {
    if profile.reorder {
        blocks - 1 - sent
    } else {
        sent as int
    }
}

/// The wait before each block: the time that its bytes take, if there is a rate, and else the
/// per-block latency, which is drawn unless it is always zero.
pub open spec fn pause(profile: ServeProfile, pace: ServePace) -> Wait {
    match pace.bandwidth {
        Some(bandwidth) => Wait::Transmit { bandwidth },
        None => if profile.per_block_latency == LatencyDist::Fixed(Duration { nanos: 0 }) {
            Wait::Nothing
        } else {
            Wait::Draw(profile.per_block_latency)
        },
    }
}

/// Blocks are waited for and sent one by one, in the order of the range or the reverse, each after
/// its wait; after the last the response says that it is complete, from which height on, and how
/// many blocks it had.
pub proof fn blocks_are_sent_in_order(
    profile: ServeProfile,
    responses: u64,
    request: BlockRequest,
    pace: ServePace,
    blocks: usize,
    sent: usize,
)
    requires
        sent < blocks,
    ensures
        ({
            let slept = ServeEvent::Slept { cancelled: false };
            let delaying = ServeState {
                responses,
                phase: ServePhase::Delaying { request, pace, blocks },
            };
            let (next, action) = peer::step(profile, delaying, slept);
            &&& next == (ServeState {
                responses,
                phase: ServePhase::Pacing { request, pace, blocks, sent: 0 },
            })
            &&& action matches ServeAction::WaitBlock { index, wait } && index == place(
                profile,
                blocks,
                0,
            ) && wait == pause(profile, pace)
        }),
        ({
            let slept = ServeEvent::Slept { cancelled: false };
            let pacing = ServeState {
                responses,
                phase: ServePhase::Pacing { request, pace, blocks, sent },
            };
            let (next, action) = peer::step(profile, pacing, slept);
            &&& next == (ServeState {
                responses,
                phase: ServePhase::Sending { request, pace, blocks, sent },
            })
            &&& action matches ServeAction::SendBlock { index } && index == place(
                profile,
                blocks,
                sent,
            )
        }),
        ({
            let sending = ServeState {
                responses,
                phase: ServePhase::Sending { request, pace, blocks, sent },
            };
            let (next, action) = peer::step(
                profile,
                sending,
                ServeEvent::Sent { delivered: true },
            );
            if sent + 1 < blocks {
                &&& next == (ServeState {
                    responses,
                    phase: ServePhase::Pacing { request, pace, blocks, sent: (sent + 1) as usize },
                })
                &&& action matches ServeAction::WaitBlock { index, wait } && index == place(
                    profile,
                    blocks,
                    (sent + 1) as usize,
                ) && wait == pause(profile, pace)
            } else {
                &&& next == (ServeState { responses, phase: ServePhase::Replying })
                &&& action matches ServeAction::SendDone { start_height, returned } && start_height
                    == request.start_height && (blocks <= u32::MAX ==> returned == blocks) && (
                blocks > u32::MAX ==> returned == u32::MAX)
            }
        }),
        peer::step(
            profile,
            ServeState { responses, phase: ServePhase::Stalling { request, pace } },
            ServeEvent::Slept { cancelled: false },
        ) == (
            ServeState { responses, phase: ServePhase::Listing { request, pace } },
            ServeAction::ListBlocks(request),
        ),
        forall|delivered: bool|
            #[trigger] peer::step(
                profile,
                ServeState { responses, phase: ServePhase::Replying },
                ServeEvent::Sent { delivered },
            ) == (ServeState { responses, phase: ServePhase::Idle }, ServeAction::Continue),
        peer::step(
            profile,
            ServeState { responses, phase: ServePhase::Reading },
            ServeEvent::OtherMessage,
        ) == (ServeState { responses, phase: ServePhase::Idle }, ServeAction::Continue),
{
}

/// A fixed latency is itself and draws nothing. A uniform latency between equal numbers of
/// microseconds is that many and draws nothing; else it is the number of microseconds drawn
/// between the lower and the higher, both included, whichever end is named first.
pub proof fn latencies_are_drawn_between_their_ends(
    low: Duration,
    high: Duration,
    fixed: Duration,
    rng: StdRng,
)
    requires
        low.nanos / 1_000 <= u64::MAX,
        high.nanos / 1_000 <= u64::MAX,
    ensures
        LatencyDist::Fixed(fixed).spec_sample(rng) == (fixed, rng),
        ({
            let a = low.nanos / 1_000;
            let b = high.nanos / 1_000;
            let (span, after) = (LatencyDist::Uniform { low, high }).spec_sample(rng);
            if a == b {
                span.nanos == a * 1_000 && after == rng
            } else {
                let drawn = scenario::uniform_draw(
                    rng,
                    if a < b {
                        a
                    } else {
                        b
                    },
                    if a < b {
                        b
                    } else {
                        a
                    },
                );
                &&& after == drawn.1
                &&& drawn.0 <= u64::MAX ==> span.nanos == drawn.0 * 1_000
            }
        }),
        (LatencyDist::Uniform { low, high }).spec_sample(rng) == (LatencyDist::Uniform {
            low: high,
            high: low,
        }).spec_sample(rng),
{
}

/// A number of microseconds is a thousand times as many nanoseconds, as far as 64 bits count the
/// microseconds.
pub proof fn microseconds_are_a_thousand_nanoseconds(micros: nat)
    ensures
        micros <= u64::MAX ==> scenario::micros_span(micros).nanos == micros * 1_000,
        micros > u64::MAX ==> scenario::micros_span(micros) == scenario::micros_span(
            u64::MAX as nat,
        ),
{
}

/// Only a latency that is fixed at zero is always zero, and a rate is itself unless it is zero,
/// which counts as one.
pub proof fn zero_latencies_and_rates(dist: LatencyDist, rate: u64)
    ensures
        dist.always_zero() <==> (dist matches LatencyDist::Fixed(span) && span.nanos == 0),
        rate > 0 ==> scenario::at_least_one(rate) == rate,
        scenario::at_least_one(0) == 1,
{
}

/// The fast profile adds no latency, no rate, no stall, no gap and no change.
pub proof fn the_fast_profile_adds_nothing()
    ensures
        ({
            let p = scenario::fast_profile();
            &&& p.first_block_latency matches LatencyDist::Fixed(span) && span.nanos == 0
            &&& p.per_block_latency matches LatencyDist::Fixed(span) && span.nanos == 0
            &&& p.bandwidth_bytes_per_sec is None
            &&& p.idle_gap is None
            &&& p.withhold is None
            &&& !p.reorder
            &&& p.degrade is None
        }),
{
}

/// Two peers of one scenario have different seeds unless they have the same identity byte, and the
/// seeds of one peer in two scenarios differ as the seeds of the scenarios do. In the scenario of
/// seed zero they are the multiples of the golden ratio of 64 bits.
pub proof fn seeds_tell_peers_apart(seed: u64, other_seed: u64, id: u8, other_id: u8)
    ensures
        scenario::peer_seed(seed, id) == scenario::peer_seed(seed, other_id) ==> id == other_id,
        scenario::peer_seed(seed, id) ^ scenario::peer_seed(other_seed, id) == seed ^ other_seed,
        scenario::peer_seed(seed, 0) == seed,
        scenario::peer_seed(0, id) == (id * 0x9e37_79b9_7f4a_7c15) % 0x1_0000_0000_0000_0000,
{
    let a = (id as u64).wrapping_mul(0x9e37_79b9_7f4a_7c15);
    let b = (other_id as u64).wrapping_mul(0x9e37_79b9_7f4a_7c15);
    lemma_xor_cancels(seed, other_seed, a, b);
    lemma_mixed_ids(id, other_id);
    lemma_xor_zero(a);
    assert((0u64).wrapping_mul(0x9e37_79b9_7f4a_7c15) == 0);
}

proof fn lemma_xor_zero(a: u64)
    ensures
        0u64 ^ a == a,
{
    assert(0u64 ^ a == a) by (bit_vector);
}

proof fn lemma_xor_cancels(seed: u64, other_seed: u64, a: u64, b: u64)
    ensures
        (seed ^ a) == (seed ^ b) ==> a == b,
        (seed ^ a) ^ (other_seed ^ a) == seed ^ other_seed,
        seed ^ 0 == seed,
{
    assert((seed ^ a) == (seed ^ b) ==> a == b) by (bit_vector);
    assert((seed ^ a) ^ (other_seed ^ a) == seed ^ other_seed) by (bit_vector);
    assert(seed ^ 0 == seed) by (bit_vector);
}

/// The multiplier is odd, so that products with small numbers are the same only if these are.
proof fn lemma_mixed_ids(id: u8, other_id: u8)
    ensures
        (id as u64).wrapping_mul(0x9e37_79b9_7f4a_7c15) == (other_id as u64).wrapping_mul(
            0x9e37_79b9_7f4a_7c15,
        ) ==> id == other_id,
{
    let x = id * 0x9e37_79b9_7f4a_7c15;
    let y = other_id * 0x9e37_79b9_7f4a_7c15;
    if x % 0x1_0000_0000_0000_0000 == y % 0x1_0000_0000_0000_0000 {
        let d = id - other_id;
        let m = x / 0x1_0000_0000_0000_0000 - y / 0x1_0000_0000_0000_0000;
        assert(d * 0x9e37_79b9_7f4a_7c15 == m * 0x1_0000_0000_0000_0000);
        lemma_odd_factor(d, m);
    }
}

proof fn lemma_odd_factor(d: int, m: int)
    requires
        -256 < d < 256,
        d * 0x9e37_79b9_7f4a_7c15 == m * 0x1_0000_0000_0000_0000,
    ensures
        d == 0,
{
    // The factor has an inverse: their product is one more than a multiple of the range.
    let k = m * 0xf1de_83e1_9937_733d - d * 0x957b_bf35_006e_d677;
    assert(d == k * 0x1_0000_0000_0000_0000);
}

} // verus!
