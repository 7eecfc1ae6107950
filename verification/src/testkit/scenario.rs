//! Declarative scenarios: a synthetic chain, the peers that serve it, and what changes over time.
use rand::rngs::StdRng;
use rand::{Rng, SeedableRng};
use vstd::prelude::*;

use crate::chain::{BlockHash, Height};
use crate::header_sync::ids::ZakuraPeerId;
use crate::time::Duration;

verus! {

/// The seeded generator that scenarios draw from.
#[verifier::external_type_specification]
#[verifier::external_body]
pub struct ExStdRng(StdRng);

/// The generator that `rand::SeedableRng::seed_from_u64` makes from a seed.
pub uninterp spec fn seeded_rng(seed: u64) -> StdRng;

/// `rand::rngs::StdRng::seed_from_u64`: the generator is determined by the seed alone.
#[verifier::external_body]
fn rng_from_seed(seed: u64) -> (rng: StdRng)
    ensures
        rng == seeded_rng(seed),
{
    StdRng::seed_from_u64(seed)
}

/// What `rand::Rng::gen_range` draws from a generator over an inclusive range, and the generator
/// that it leaves behind.
pub uninterp spec fn uniform_draw(rng: StdRng, low: u128, high: u128) -> (u128, StdRng);

/// `rand::Rng::gen_range` over an inclusive range, which must not be empty: the draw lies in the
/// range. The draw and the generator afterwards are determined by the generator before, which is
/// a seeded one, and the range.
#[verifier::external_body]
fn draw_between(rng: &mut StdRng, low: u128, high: u128) -> (draw: u128)
    requires
        low <= high,
    ensures
        low <= draw <= high,
        (draw, *final(rng)) == uniform_draw(*old(rng), low, high),
{
    rng.gen_range(low..=high)
}

/// A latency draw, fixed or uniform over `[low, high]`.
#[derive(Clone, Copy, Debug, PartialEq, Eq, Structural)]
pub enum LatencyDist {
    /// Always this duration.
    Fixed(Duration),
    /// Uniform in `[low, high]`.
    Uniform {
        /// One end of the range.
        low: Duration,
        /// The other end of the range.
        high: Duration,
    },
}

/// The span of a number of microseconds, as far as 64 bits count them.
pub open spec fn micros_span(micros: nat) -> Duration {
    Duration {
        nanos: if micros > u64::MAX {
            (u64::MAX * 1_000) as u128
        } else {
            (micros * 1_000) as u128
        },
    }
}

/// The span of a number of microseconds, as far as 64 bits count them.
pub fn span_of_micros(micros: u128) -> (span: Duration)
    ensures
        span == micros_span(micros as nat),
{
    if micros > u64::MAX as u128 {
        Duration::from_micros(u64::MAX)
    } else {
        Duration::from_micros(micros as u64)
    }
}

impl LatencyDist {
    /// Zero latency.
    pub fn zero() -> (dist: Self)
        ensures
            dist == LatencyDist::Fixed(Duration { nanos: 0 }),
    {
        LatencyDist::Fixed(Duration { nanos: 0 })
    }

    /// The microseconds between which a draw lies, the lower first, if one is needed.
    pub open spec fn draw_range(self) -> Option<(u128, u128)> {
        match self {
            LatencyDist::Fixed(_) => None,
            LatencyDist::Uniform { low, high } => {
                let (a, b) = (low.nanos / 1_000, high.nanos / 1_000);
                if a == b {
                    None
                } else if a < b {
                    Some((a, b))
                } else {
                    Some((b, a))
                }
            },
        }
    }

    /// The latency that a draw of microseconds gives.
    pub open spec fn spec_latency(self, draw: u128) -> Duration {
        match self {
            LatencyDist::Fixed(duration) => duration,
            LatencyDist::Uniform { low, high } => if self.draw_range() is Some {
                micros_span(draw as nat)
            } else {
                micros_span((low.nanos / 1_000) as nat)
            },
        }
    }

    /// The latency that a draw of microseconds gives; only an uneven range uses the draw.
    pub fn latency(&self, draw: u128) -> (span: Duration)
        ensures
            span == self.spec_latency(draw),
    {
        match *self {
            LatencyDist::Fixed(duration) => duration,
            LatencyDist::Uniform { low, high } => {
                let a: u128 = low.as_micros();
                let b: u128 = high.as_micros();
                if a == b {
                    span_of_micros(a)
                } else {
                    span_of_micros(draw)
                }
            },
        }
    }

    /// The latency that is drawn from a generator, and the generator that the draw leaves behind.
    pub open spec fn spec_sample(self, rng: StdRng) -> (Duration, StdRng) {
        match self.draw_range() {
            None => (self.spec_latency(0), rng),
            Some((low, high)) => {
                let (draw, after) = uniform_draw(rng, low, high);
                (self.spec_latency(draw), after)
            },
        }
    }

    /// Draws a latency, from the generator only if there is a choice.
    pub fn sample(&self, rng: &mut StdRng) -> (span: Duration)
        ensures
            (span, *final(rng)) == self.spec_sample(*old(rng)),
            self.draw_range() matches Some((low, high)) ==> micros_span(low as nat).nanos
                <= span.nanos <= micros_span(high as nat).nanos,
    {
        match *self {
            LatencyDist::Fixed(duration) => duration,
            LatencyDist::Uniform { low, high } => {
                let a: u128 = low.as_micros();
                let b: u128 = high.as_micros();
                if a == b {
                    self.latency(0)
                } else {
                    let draw: u128 = if a < b {
                        draw_between(rng, a, b)
                    } else {
                        draw_between(rng, b, a)
                    };
                    self.latency(draw)
                }
            },
        }
    }

    /// Whether the latency is always zero.
    pub open spec fn always_zero(self) -> bool {
        self == LatencyDist::Fixed(Duration { nanos: 0 })
    }

    /// Whether the latency is fixed at zero.
    pub fn is_zero(&self) -> (r: bool)
        ensures
            r == self.always_zero(),
    {
        match self {
            LatencyDist::Fixed(duration) => duration.nanos == 0,
            LatencyDist::Uniform { .. } => false,
        }
    }
}

/// Periodic serve stall: before every `every_responses`th answer, sleep `duration`.
#[derive(Clone, Copy, Debug, PartialEq, Eq, Structural)]
pub struct IdleGap {
    /// How many requests lie between stalls.
    pub every_responses: u64,
    /// How long a stall lasts.
    pub duration: Duration,
}

/// A change to how a peer serves, once it has been connected for `at`.
#[derive(Clone, Copy, Debug, PartialEq, Eq, Structural)]
pub struct Degrade {
    /// Time since the peer connected after which `mode` takes effect.
    pub at: Duration,
    /// What the peer switches to.
    pub mode: DegradeMode,
}

/// What a [`Degrade`] switches a peer to.
#[derive(Clone, Copy, Debug, PartialEq, Eq, Structural)]
pub enum DegradeMode {
    /// Keep reading requests, but answer none.
    GoSilent,
    /// Stop reading requests, and answer none.
    Wedge,
    /// Keep answering, behind a fixed base round trip and at a finite rate.
    SlowTo {
        /// Delay before the first block of a response.
        base_rtt: Duration,
        /// Serve rate in bytes per second.
        bandwidth_bytes_per_sec: u64,
    },
}

/// How a synthetic peer answers requests.
///
/// Whether a request is dropped at random is drawn outside.
#[derive(Clone, Copy, Debug, PartialEq, Eq)]
pub struct ServeProfile {
    /// Delay before the first block of each response.
    pub first_block_latency: LatencyDist,
    /// Delay before each block of a response, if no rate is set.
    pub per_block_latency: LatencyDist,
    /// Serve rate in bytes per second, which sets the delay before each block.
    pub bandwidth_bytes_per_sec: Option<u64>,
    /// Periodic stall.
    pub idle_gap: Option<IdleGap>,
    /// Heights that the peer refuses to serve, both ends included.
    pub withhold: Option<(Height, Height)>,
    /// Serve the blocks of a response in reverse.
    pub reorder: bool,
    /// Change to how the peer serves.
    pub degrade: Option<Degrade>,
}

/// Fast, lossless, in-order serving with no added latency.
pub open spec fn fast_profile() -> ServeProfile {
    ServeProfile {
        first_block_latency: LatencyDist::Fixed(Duration { nanos: 0 }),
        per_block_latency: LatencyDist::Fixed(Duration { nanos: 0 }),
        bandwidth_bytes_per_sec: None,
        idle_gap: None,
        withhold: None,
        reorder: false,
        degrade: None,
    }
}

impl ServeProfile {
    /// Fast, lossless, in-order serving with no added latency.
    pub fn fast() -> (profile: Self)
        ensures
            profile == fast_profile(),
    {
        ServeProfile {
            first_block_latency: LatencyDist::zero(),
            per_block_latency: LatencyDist::zero(),
            bandwidth_bytes_per_sec: None,
            idle_gap: None,
            withhold: None,
            reorder: false,
            degrade: None,
        }
    }

    /// A slow peer: a fixed round trip before the first block plus a fixed delay per block.
    pub fn slow(rtt: Duration, per_block: Duration) -> (profile: Self)
        ensures
            profile == (ServeProfile {
                first_block_latency: LatencyDist::Fixed(rtt),
                per_block_latency: LatencyDist::Fixed(per_block),
                ..fast_profile()
            }),
    {
        let mut profile = ServeProfile::fast();
        profile.first_block_latency = LatencyDist::Fixed(rtt);
        profile.per_block_latency = LatencyDist::Fixed(per_block);
        profile
    }

    /// A byte-accurate peer: a fixed base round trip plus a finite rate of at least one byte per
    /// second.
    pub fn byte_rate(base_rtt: Duration, bandwidth_bytes_per_sec: u64) -> (profile: Self)
        ensures
            profile == (ServeProfile {
                first_block_latency: LatencyDist::Fixed(base_rtt),
                bandwidth_bytes_per_sec: Some(at_least_one(bandwidth_bytes_per_sec)),
                ..fast_profile()
            }),
    {
        let mut profile = ServeProfile::fast();
        profile.first_block_latency = LatencyDist::Fixed(base_rtt);
        profile.bandwidth_bytes_per_sec = Some(nonzero_rate(bandwidth_bytes_per_sec));
        profile
    }

    /// Whether the first block of a response is never delayed.
    pub fn first_block_is_zero(&self) -> (r: bool)
        ensures
            r == self.first_block_latency.always_zero(),
    {
        self.first_block_latency.is_zero()
    }

    /// Whether no block of a response is delayed by a latency.
    pub fn per_block_is_zero(&self) -> (r: bool)
        ensures
            r == self.per_block_latency.always_zero(),
    {
        self.per_block_latency.is_zero()
    }
}

/// A rate of at least one byte per second.
pub open spec fn at_least_one(rate: u64) -> u64 {
    if rate == 0 {
        1
    } else {
        rate
    }
}

/// A rate of at least one byte per second.
pub fn nonzero_rate(rate: u64) -> (r: u64)
    ensures
        r == at_least_one(rate),
{
    if rate == 0 {
        1
    } else {
        rate
    }
}

/// How the mock commit pipeline drains submitted blocks.
#[derive(Clone, Copy, Debug, PartialEq, Eq, Structural)]
pub struct CommitProfile {
    /// Fixed delay before each body is committed.
    pub per_commit_delay: Duration,
    /// Periodic burst stall.
    pub burst: Option<CommitBurstStall>,
}

/// A periodic burst stall in the mock commit pipeline.
#[derive(Clone, Copy, Debug, PartialEq, Eq, Structural)]
pub struct CommitBurstStall {
    /// Pause after every this many applied bodies.
    pub every_commits: u64,
    /// How long each pause lasts.
    pub duration: Duration,
}

impl Default for CommitProfile {
    /// Commits at once.
    fn default() -> (profile: Self)
        ensures
            profile == (CommitProfile { per_commit_delay: Duration { nanos: 0 }, burst: None }),
    {
        CommitProfile { per_commit_delay: Duration { nanos: 0 }, burst: None }
    }
}

/// What a peer advertises about the blocks that it serves.
#[derive(Clone, Copy, Debug, PartialEq, Eq)]
pub struct BlockSyncStatus {
    /// Lowest height that the peer can serve.
    pub servable_low: Height,
    /// Highest height that the peer can serve.
    pub servable_high: Height,
    /// Hash of the block at the highest height.
    pub tip_hash: BlockHash,
    /// Per-response block cap.
    pub max_blocks_per_response: u32,
    /// Concurrent-request cap.
    pub max_inflight_requests: u32,
    /// Per-response byte cap.
    pub max_response_bytes: u32,
}

/// One synthetic peer that the node downloads from.
#[derive(Clone, Copy, Debug, PartialEq, Eq)]
pub struct PeerSpec {
    /// Distinct identity byte; the peer identity repeats it.
    pub id_byte: u8,
    /// Lowest height that this peer advertises it can serve.
    pub servable_low: Height,
    /// Highest height that this peer advertises it can serve.
    pub servable_high: Height,
    /// Advertised per-response block cap.
    pub max_blocks_per_response: u32,
    /// Advertised concurrent-request cap.
    pub max_inflight_requests: u32,
    /// When this peer connects.
    pub connect_at: Duration,
    /// When this peer disconnects, if it does.
    pub disconnect_at: Option<Duration>,
    /// How this peer serves.
    pub serve: ServeProfile,
}

/// The seed of a peer's generator: the scenario's seed mixed with the peer's identity byte.
pub open spec fn peer_seed(scenario_seed: u64, id_byte: u8) -> u64 {
    scenario_seed ^ (id_byte as u64).wrapping_mul(0x9e37_79b9_7f4a_7c15)
}

impl PeerSpec {
    /// A fast, full-range peer present from the start, serving `[1, servable_high]`.
    pub fn fast(id_byte: u8, servable_high: Height) -> (spec: Self)
        ensures
            spec == (PeerSpec {
                id_byte,
                servable_low: Height(1),
                servable_high,
                max_blocks_per_response: 16,
                max_inflight_requests: 64,
                connect_at: Duration { nanos: 0 },
                disconnect_at: None,
                serve: fast_profile(),
            }),
    {
        PeerSpec {
            id_byte,
            servable_low: Height(1),
            servable_high,
            max_blocks_per_response: 16,
            max_inflight_requests: 64,
            connect_at: Duration { nanos: 0 },
            disconnect_at: None,
            serve: ServeProfile::fast(),
        }
    }

    /// A full-range peer with a custom serve profile.
    pub fn with_serve(id_byte: u8, servable_high: Height, serve: ServeProfile) -> (spec: Self)
        ensures
            spec == (PeerSpec {
                id_byte,
                servable_low: Height(1),
                servable_high,
                max_blocks_per_response: 16,
                max_inflight_requests: 64,
                connect_at: Duration { nanos: 0 },
                disconnect_at: None,
                serve,
            }),
    {
        let mut spec = PeerSpec::fast(id_byte, servable_high);
        spec.serve = serve;
        spec
    }

    /// What the peer advertises.
    pub fn status(&self, tip_hash: BlockHash, max_response_bytes: u32) -> (status: BlockSyncStatus)
        ensures
            status == (BlockSyncStatus {
                servable_low: self.servable_low,
                servable_high: self.servable_high,
                tip_hash,
                max_blocks_per_response: self.max_blocks_per_response,
                max_inflight_requests: self.max_inflight_requests,
                max_response_bytes,
            }),
    {
        BlockSyncStatus {
            servable_low: self.servable_low,
            servable_high: self.servable_high,
            tip_hash,
            max_blocks_per_response: self.max_blocks_per_response,
            max_inflight_requests: self.max_inflight_requests,
            max_response_bytes,
        }
    }

    /// The identity of the peer.
    pub fn peer_id(&self) -> (id: ZakuraPeerId)
        ensures
            id.0@ == Seq::new(32, |i: int| self.id_byte),
    {
        let id = ZakuraPeerId([self.id_byte; 32]);
        assert(id.0@ =~= Seq::new(32, |i: int| self.id_byte));
        id
    }

    /// The seed of the peer's generator.
    pub fn rng_seed(&self, scenario_seed: u64) -> (seed: u64)
        ensures
            seed == peer_seed(scenario_seed, self.id_byte),
    {
        scenario_seed ^ (self.id_byte as u64).wrapping_mul(0x9e37_79b9_7f4a_7c15)
    }

    /// How long after connecting the peer disconnects, if it does.
    pub fn disconnect_after(&self) -> (r: Option<Duration>)
        ensures
            match self.disconnect_at {
                Some(at) => r matches Some(after) && after.nanos == (if at.nanos
                    > self.connect_at.nanos {
                    at.nanos - self.connect_at.nanos
                } else {
                    0
                }),
                None => r is None,
            },
    {
        match self.disconnect_at {
            Some(at) => Some(
                Duration { nanos: at.nanos.saturating_sub(self.connect_at.nanos) },
            ),
            None => None,
        }
    }
}

/// The deterministic generator of a peer.
pub fn peer_rng(scenario_seed: u64, spec: &PeerSpec) -> (rng: StdRng)
    ensures
        rng == seeded_rng(peer_seed(scenario_seed, spec.id_byte)),
{
    rng_from_seed(spec.rng_seed(scenario_seed))
}

/// What changes at a scheduled point in a run.
#[derive(Clone, Copy, Debug, PartialEq, Eq, Structural)]
pub enum TipEventKind {
    /// Advance the best-header download target.
    GrowTo(Height),
    /// Move the best-header target down.
    HeaderReanchor(Height),
    /// Reset the verified-body tip.
    VerifiedReset(Height),
}

/// A timed change to the shared sync frontier.
#[derive(Clone, Copy, Debug, PartialEq, Eq, Structural)]
pub struct TipEvent {
    /// When the change is published.
    pub at: Duration,
    /// The change.
    pub kind: TipEventKind,
}

/// The block-sync settings that scenarios choose or check.
#[derive(Clone, Copy, Debug, PartialEq, Eq, Structural)]
pub struct BlockSyncConfig {
    /// Per-response block cap.
    pub max_blocks_per_response: u32,
    /// Concurrent-request cap.
    pub max_inflight_requests: u32,
    /// Ceiling on reserved download bytes.
    pub max_inflight_block_bytes: u64,
    /// How long a request may take.
    pub request_timeout: Duration,
    /// How often the round trip is probed.
    pub bbr_probe_rtt_interval: Duration,
    /// How long a probe lasts.
    pub bbr_probe_rtt_duration: Duration,
    /// How long a round-trip sample counts.
    pub bbr_rtprop_window: Duration,
}

/// Settings for runs: generous byte budget, moderate caps, and probes scaled down to the length
/// of a run.
pub fn fuzz_config() -> (config: BlockSyncConfig)
    ensures
        config == (BlockSyncConfig {
            max_blocks_per_response: 16,
            max_inflight_requests: 256,
            max_inflight_block_bytes: u64::MAX,
            request_timeout: Duration { nanos: 30_000_000_000 },
            bbr_probe_rtt_interval: Duration { nanos: 150_000_000 },
            bbr_probe_rtt_duration: Duration { nanos: 30_000_000 },
            bbr_rtprop_window: Duration { nanos: 150_000_000 },
        }),
{
    BlockSyncConfig {
        max_blocks_per_response: 16,
        max_inflight_requests: 256,
        max_inflight_block_bytes: u64::MAX,
        request_timeout: Duration::from_secs(30),
        bbr_probe_rtt_interval: Duration::from_millis(150),
        bbr_probe_rtt_duration: Duration::from_millis(30),
        bbr_rtprop_window: Duration::from_millis(150),
    }
}

/// A single scenario.
#[derive(Clone, Debug)]
pub struct Scenario {
    /// Number of blocks in the synthetic chain `[1, blocks]`.
    pub blocks: u32,
    /// Seed of the synthetic chain and of the peers.
    pub seed: u64,
    /// Fixed bytes per block, if they are fixed.
    pub target_block_bytes: Option<usize>,
    /// Best-header download target at the start.
    pub initial_best_header: Height,
    /// Settings of the node under test.
    pub config: BlockSyncConfig,
    /// The peers that the node downloads from.
    pub peers: Vec<PeerSpec>,
    /// Timed frontier changes.
    pub timeline: Vec<TipEvent>,
    /// How the mock commit pipeline drains submitted blocks.
    pub commit: CommitProfile,
    /// Depth of each peer's bounded transport queue, if not the default.
    pub transport_queue_depth: Option<usize>,
    /// Bound on the length of the run.
    pub deadline: Duration,
}

/// Depth of a transport queue where a scenario sets none.
pub const DEFAULT_TRANSPORT_QUEUE_DEPTH: usize = 1024;

impl Scenario {
    /// A scenario over `blocks` heights whose first header target is the full chain, without
    /// timed changes.
    pub fn new(blocks: u32, seed: u64, config: BlockSyncConfig, peers: Vec<PeerSpec>) -> (scenario:
        Self)
        ensures
            scenario.blocks == blocks,
            scenario.seed == seed,
            scenario.target_block_bytes is None,
            scenario.initial_best_header == Height(blocks),
            scenario.config == config,
            scenario.peers == peers,
            scenario.timeline@ == Seq::<TipEvent>::empty(),
            scenario.commit == (CommitProfile { per_commit_delay: Duration { nanos: 0 }, burst: None }),
            scenario.transport_queue_depth is None,
            scenario.deadline == (Duration { nanos: 30_000_000_000 }),
    {
        Scenario {
            blocks,
            seed,
            target_block_bytes: None,
            initial_best_header: Height(blocks),
            config,
            peers,
            timeline: Vec::new(),
            commit: CommitProfile::default(),
            transport_queue_depth: None,
            deadline: Duration::from_secs(30),
        }
    }

    /// The header target at the start of a run over a chain that ends at `target`.
    pub fn initial_header(&self, target: Height) -> (height: Height)
        ensures
            height.0 == (if self.initial_best_header.0 < target.0 {
                self.initial_best_header.0
            } else {
                target.0
            }),
    {
        if self.initial_best_header.0 < target.0 {
            self.initial_best_header
        } else {
            target
        }
    }

    /// The depth of each peer's transport queue.
    pub fn queue_depth(&self) -> (depth: usize)
        ensures
            depth == (match self.transport_queue_depth {
                Some(depth) => depth,
                None => DEFAULT_TRANSPORT_QUEUE_DEPTH,
            }),
    {
        match self.transport_queue_depth {
            Some(depth) => depth,
            None => DEFAULT_TRANSPORT_QUEUE_DEPTH,
        }
    }
}

/// What a finished run reports.
#[derive(Clone, Copy, Debug, PartialEq, Eq, Structural)]
pub struct FuzzOutcome {
    /// Highest contiguous committed height.
    pub committed_tip: Height,
    /// The height at which the synthetic chain ends.
    pub target: Height,
    /// Retained body memory after the run.
    pub final_retained_memory_bytes: u64,
}

impl FuzzOutcome {
    /// Whether the whole chain was committed.
    pub fn reached_target(&self) -> (r: bool)
        ensures
            r == (self.committed_tip.0 >= self.target.0),
    {
        self.committed_tip.0 >= self.target.0
    }
}

} // verus!
