//! How a synthetic peer serves: a state machine from events to what the peer does next.
//!
//! The machine decides; reading, sending, sleeping and drawing at random happen outside, and come
//! back as events.
use vstd::prelude::*;

use crate::chain::Height;
use crate::testkit::scenario;
use crate::testkit::scenario::{nonzero_rate, DegradeMode, LatencyDist, ServeProfile};
use crate::time::Duration;

verus! {

/// A request for blocks.
#[derive(Clone, Copy, Debug, PartialEq, Eq, Structural)]
pub struct BlockRequest {
    /// The first requested height.
    pub start_height: Height,
    /// How many blocks are requested.
    pub count: u32,
}

/// What slowing down overrides in a serve profile.
#[derive(Clone, Copy, Debug, PartialEq, Eq, Structural)]
pub struct ServePace {
    /// Delay before the first block, if it is overridden.
    pub first_block: Option<Duration>,
    /// Serve rate in bytes per second, if there is one.
    pub bandwidth: Option<u64>,
}

/// Where a peer is in its service.
#[derive(Clone, Copy, Debug, PartialEq, Eq, Structural)]
pub enum ServePhase {
    /// Before it looks for the next request.
    Idle,
    /// Waiting for a message.
    Reading,
    /// Waiting to learn whether the request is dropped at random.
    Drawing {
        /// The request.
        request: BlockRequest,
        /// How it is served.
        pace: ServePace,
    },
    /// In a periodic stall.
    Stalling {
        /// The request.
        request: BlockRequest,
        /// How it is served.
        pace: ServePace,
    },
    /// Waiting for the blocks of the requested range.
    Listing {
        /// The request.
        request: BlockRequest,
        /// How it is served.
        pace: ServePace,
    },
    /// In the delay before the first block.
    Delaying {
        /// The request.
        request: BlockRequest,
        /// How it is served.
        pace: ServePace,
        /// How many blocks the response has.
        blocks: usize,
    },
    /// In the delay before the next block.
    Pacing {
        /// The request.
        request: BlockRequest,
        /// How it is served.
        pace: ServePace,
        /// How many blocks the response has.
        blocks: usize,
        /// How many of them have been sent.
        sent: usize,
    },
    /// Sending the next block.
    Sending {
        /// The request.
        request: BlockRequest,
        /// How it is served.
        pace: ServePace,
        /// How many blocks the response has.
        blocks: usize,
        /// How many of them have been sent.
        sent: usize,
    },
    /// Sending the last message of a response.
    Replying,
    /// Done serving.
    Ended,
}

/// The state of a serving peer.
#[derive(Clone, Copy, Debug, PartialEq, Eq, Structural)]
pub struct ServeState {
    /// How many requests have been answered, or are about to be.
    pub responses: u64,
    /// Where the peer is in its service.
    pub phase: ServePhase,
}

/// What happened.
#[derive(Clone, Copy, Debug, PartialEq, Eq, Structural)]
pub enum ServeEvent {
    /// The peer looks for work, this long after it connected.
    Poll {
        /// Time since the peer connected.
        elapsed: Duration,
    },
    /// A request arrived, this long after the peer connected.
    Request {
        /// The request.
        request: BlockRequest,
        /// Time since the peer connected.
        elapsed: Duration,
    },
    /// A message arrived that is no request for blocks.
    OtherMessage,
    /// The stream ended.
    Closed,
    /// It was drawn whether the request is dropped.
    Drawn {
        /// Whether it is dropped.
        dropped: bool,
    },
    /// A delay is over.
    Slept {
        /// Whether the run was shut down during it.
        cancelled: bool,
    },
    /// The blocks of the requested range are known.
    Blocks {
        /// How many there are.
        count: usize,
    },
    /// A message was sent, or could not be.
    Sent {
        /// Whether it was sent.
        delivered: bool,
    },
}

/// How long to wait.
#[derive(Clone, Copy, Debug, PartialEq, Eq, Structural)]
pub enum Wait {
    /// Not at all.
    Nothing,
    /// A known span.
    Span(Duration),
    /// A span to be drawn.
    Draw(LatencyDist),
    /// The time that the bytes of the block take at a rate.
    Transmit {
        /// Bytes per second.
        bandwidth: u64,
    },
}

/// What the peer does next.
#[derive(Clone, Copy, Debug, PartialEq, Eq, Structural)]
pub enum ServeAction {
    /// Look for work again.
    Continue,
    /// Wait for a message, for the end of the run or for the time to disconnect.
    Receive,
    /// Wait for the end of the run or for the time to disconnect, and read no more.
    Hang,
    /// Draw whether the request is dropped.
    DrawDrop,
    /// Sleep through a stall.
    Stall(Duration),
    /// Look up the blocks of the requested range.
    ListBlocks(BlockRequest),
    /// Wait before the first block.
    WaitFirst(Wait),
    /// Wait before a block of the response.
    WaitBlock {
        /// Which block of the range is next.
        index: usize,
        /// How long to wait.
        wait: Wait,
    },
    /// Send a block of the response.
    SendBlock {
        /// Which block of the range it is.
        index: usize,
    },
    /// Say that the range cannot be served.
    SendUnavailable(BlockRequest),
    /// Say that the response is complete.
    SendDone {
        /// The first requested height.
        start_height: Height,
        /// How many blocks were sent.
        returned: u32,
    },
    /// Stop serving.
    Stop,
}

/// The degradation that is in effect, if any.
pub open spec fn active_mode(profile: ServeProfile, elapsed: Duration) -> Option<DegradeMode> {
    match profile.degrade {
        Some(degrade) => if elapsed.nanos >= degrade.at.nanos {
            Some(degrade.mode)
        } else {
            None
        },
        None => None,
    }
}

/// How a request is served under a degradation.
pub open spec fn pace_under(profile: ServeProfile, mode: Option<DegradeMode>) -> ServePace {
    match mode {
        Some(DegradeMode::SlowTo { base_rtt, bandwidth_bytes_per_sec }) => ServePace {
            first_block: Some(base_rtt),
            bandwidth: Some(scenario::at_least_one(bandwidth_bytes_per_sec)),
        },
        _ => ServePace { first_block: None, bandwidth: profile.bandwidth_bytes_per_sec },
    }
}

/// Whether the peer refuses to serve a height.
pub open spec fn withheld(profile: ServeProfile, height: Height) -> bool {
    match profile.withhold {
        Some((low, high)) => low.0 <= height.0 <= high.0,
        None => false,
    }
}

/// The stall before the `responses`th answer, if there is one.
pub open spec fn stall_before(profile: ServeProfile, responses: u64) -> Option<Duration> {
    match profile.idle_gap {
        Some(gap) => if gap.every_responses > 0 && responses % gap.every_responses == 0
            && gap.duration.nanos > 0 {
            Some(gap.duration)
        } else {
            None
        },
        None => None,
    }
}

/// How long to wait before the first block of a response.
pub open spec fn first_wait(profile: ServeProfile, pace: ServePace) -> Wait {
    match pace.first_block {
        Some(span) => Wait::Span(span),
        None => if profile.first_block_latency.always_zero() {
            Wait::Nothing
        } else {
            Wait::Draw(profile.first_block_latency)
        },
    }
}

/// How long to wait before each block of a response.
pub open spec fn block_wait(profile: ServeProfile, pace: ServePace) -> Wait {
    match pace.bandwidth {
        Some(bandwidth) => Wait::Transmit { bandwidth },
        None => if profile.per_block_latency.always_zero() {
            Wait::Nothing
        } else {
            Wait::Draw(profile.per_block_latency)
        },
    }
}

/// Which block of the range is sent after `sent` of `blocks` blocks.
pub open spec fn block_index(profile: ServeProfile, blocks: usize, sent: usize) -> usize {
    if profile.reorder {
        (blocks - 1 - sent) as usize
    } else {
        sent
    }
}

/// How many sent blocks a response reports.
pub open spec fn reported(sent: usize) -> u32 {
    if sent > u32::MAX {
        u32::MAX
    } else {
        sent as u32
    }
}

/// Whether an event can happen in a phase.
pub open spec fn expected(phase: ServePhase, event: ServeEvent) -> bool {
    match event {
        ServeEvent::Poll { .. } => phase is Idle,
        ServeEvent::Request { .. } => phase is Reading,
        ServeEvent::OtherMessage => phase is Reading,
        ServeEvent::Closed => phase is Reading,
        ServeEvent::Drawn { .. } => phase is Drawing,
        ServeEvent::Slept { .. } => phase is Stalling || phase is Delaying || phase is Pacing,
        ServeEvent::Blocks { .. } => phase is Listing,
        ServeEvent::Sent { .. } => phase is Sending || phase is Replying,
    }
}

/// Whether a response in progress has blocks left to send.
pub open spec fn phase_ok(phase: ServePhase) -> bool {
    match phase {
        ServePhase::Delaying { blocks, .. } => blocks > 0,
        ServePhase::Pacing { blocks, sent, .. } => sent < blocks,
        ServePhase::Sending { blocks, sent, .. } => sent < blocks,
        _ => true,
    }
}

/// The count of answers, once there is one more.
pub open spec fn one_more(responses: u64) -> u64 {
    if responses == u64::MAX {
        u64::MAX
    } else {
        (responses + 1) as u64
    }
}

/// How a request is taken up.
pub open spec fn after_request(
    profile: ServeProfile,
    responses: u64,
    request: BlockRequest,
    elapsed: Duration,
) -> (ServeState, ServeAction) {
    let mode = active_mode(profile, elapsed);
    if mode == Some(DegradeMode::GoSilent) || mode == Some(DegradeMode::Wedge) {
        (ServeState { responses, phase: ServePhase::Idle }, ServeAction::Continue)
    } else {
        (
            ServeState {
                responses,
                phase: ServePhase::Drawing { request, pace: pace_under(profile, mode) },
            },
            ServeAction::DrawDrop,
        )
    }
}

/// How a request that was not dropped is answered: that the range is unavailable if its first
/// height is withheld, or with its blocks, perhaps after a stall. Only then does it count.
pub open spec fn after_draw(
    profile: ServeProfile,
    responses: u64,
    request: BlockRequest,
    pace: ServePace,
    dropped: bool,
) -> (ServeState, ServeAction) {
    let counted = one_more(responses);
    if dropped {
        (ServeState { responses, phase: ServePhase::Idle }, ServeAction::Continue)
    } else if withheld(profile, request.start_height) {
        (
            ServeState { responses: counted, phase: ServePhase::Replying },
            ServeAction::SendUnavailable(request),
        )
    } else {
        match stall_before(profile, counted) {
            Some(span) => (
                ServeState { responses: counted, phase: ServePhase::Stalling { request, pace } },
                ServeAction::Stall(span),
            ),
            None => (
                ServeState { responses: counted, phase: ServePhase::Listing { request, pace } },
                ServeAction::ListBlocks(request),
            ),
        }
    }
}

/// What follows once the wait before the next block may begin.
pub open spec fn before_block(
    profile: ServeProfile,
    responses: u64,
    request: BlockRequest,
    pace: ServePace,
    blocks: usize,
    sent: usize,
) -> (ServeState, ServeAction) {
    (
        ServeState { responses, phase: ServePhase::Pacing { request, pace, blocks, sent } },
        ServeAction::WaitBlock {
            index: block_index(profile, blocks, sent),
            wait: block_wait(profile, pace),
        },
    )
}

/// What the peer does after an event.
pub open spec fn step(profile: ServeProfile, state: ServeState, event: ServeEvent) -> (
    ServeState,
    ServeAction,
) {
    let responses = state.responses;
    let ended = (ServeState { responses, phase: ServePhase::Ended }, ServeAction::Stop);
    match (state.phase, event) {
        (ServePhase::Idle, ServeEvent::Poll { elapsed }) => if active_mode(profile, elapsed)
            == Some(DegradeMode::Wedge) {
            (ServeState { responses, phase: ServePhase::Ended }, ServeAction::Hang)
        } else {
            (ServeState { responses, phase: ServePhase::Reading }, ServeAction::Receive)
        },
        (ServePhase::Reading, ServeEvent::Request { request, elapsed }) => after_request(
            profile,
            responses,
            request,
            elapsed,
        ),
        (ServePhase::Reading, ServeEvent::OtherMessage) => (
            ServeState { responses, phase: ServePhase::Idle },
            ServeAction::Continue,
        ),
        (ServePhase::Drawing { request, pace }, ServeEvent::Drawn { dropped }) => after_draw(
            profile,
            responses,
            request,
            pace,
            dropped,
        ),
        (ServePhase::Stalling { request, pace }, ServeEvent::Slept { cancelled }) => if cancelled {
            ended
        } else {
            (
                ServeState { responses, phase: ServePhase::Listing { request, pace } },
                ServeAction::ListBlocks(request),
            )
        },
        (ServePhase::Listing { request, pace }, ServeEvent::Blocks { count }) => if count == 0 {
            (
                ServeState { responses, phase: ServePhase::Replying },
                ServeAction::SendUnavailable(request),
            )
        } else {
            (
                ServeState {
                    responses,
                    phase: ServePhase::Delaying { request, pace, blocks: count },
                },
                ServeAction::WaitFirst(first_wait(profile, pace)),
            )
        },
        (
            ServePhase::Delaying { request, pace, blocks },
            ServeEvent::Slept { cancelled },
        ) => if cancelled {
            ended
        } else {
            before_block(profile, responses, request, pace, blocks, 0)
        },
        (
            ServePhase::Pacing { request, pace, blocks, sent },
            ServeEvent::Slept { cancelled },
        ) => if cancelled {
            ended
        } else {
            (
                ServeState { responses, phase: ServePhase::Sending { request, pace, blocks, sent } },
                ServeAction::SendBlock { index: block_index(profile, blocks, sent) },
            )
        },
        (
            ServePhase::Sending { request, pace, blocks, sent },
            ServeEvent::Sent { delivered },
        ) => if !delivered {
            ended
        } else if sent + 1 == blocks {
            (
                ServeState { responses, phase: ServePhase::Replying },
                ServeAction::SendDone {
                    start_height: request.start_height,
                    returned: reported(blocks),
                },
            )
        } else {
            before_block(profile, responses, request, pace, blocks, (sent + 1) as usize)
        },
        (ServePhase::Replying, ServeEvent::Sent { .. }) => (
            ServeState { responses, phase: ServePhase::Idle },
            ServeAction::Continue,
        ),
        _ => ended,
    }
}

fn mode_in_effect(profile: &ServeProfile, elapsed: Duration) -> (mode: Option<DegradeMode>)
    ensures
        mode == active_mode(*profile, elapsed),
{
    match profile.degrade {
        Some(degrade) => if elapsed.nanos >= degrade.at.nanos {
            Some(degrade.mode)
        } else {
            None
        },
        None => None,
    }
}

fn pace_for(profile: &ServeProfile, mode: Option<DegradeMode>) -> (pace: ServePace)
    ensures
        pace == pace_under(*profile, mode),
{
    match mode {
        Some(DegradeMode::SlowTo { base_rtt, bandwidth_bytes_per_sec }) => ServePace {
            first_block: Some(base_rtt),
            bandwidth: Some(nonzero_rate(bandwidth_bytes_per_sec)),
        },
        _ => ServePace { first_block: None, bandwidth: profile.bandwidth_bytes_per_sec },
    }
}

fn withholds(profile: &ServeProfile, height: Height) -> (r: bool)
    ensures
        r == withheld(*profile, height),
{
    match profile.withhold {
        Some((low, high)) => low.0 <= height.0 && height.0 <= high.0,
        None => false,
    }
}

fn stall_for(profile: &ServeProfile, responses: u64) -> (r: Option<Duration>)
    ensures
        r == stall_before(*profile, responses),
{
    match profile.idle_gap {
        Some(gap) => if gap.every_responses > 0 && responses % gap.every_responses == 0
            && gap.duration.nanos > 0 {
            Some(gap.duration)
        } else {
            None
        },
        None => None,
    }
}

fn wait_before_first(profile: &ServeProfile, pace: ServePace) -> (wait: Wait)
    ensures
        wait == first_wait(*profile, pace),
{
    match pace.first_block {
        Some(span) => Wait::Span(span),
        None => if profile.first_block_is_zero() {
            Wait::Nothing
        } else {
            Wait::Draw(profile.first_block_latency)
        },
    }
}

fn wait_before_block(profile: &ServeProfile, pace: ServePace) -> (wait: Wait)
    ensures
        wait == block_wait(*profile, pace),
{
    match pace.bandwidth {
        Some(bandwidth) => Wait::Transmit { bandwidth },
        None => if profile.per_block_is_zero() {
            Wait::Nothing
        } else {
            Wait::Draw(profile.per_block_latency)
        },
    }
}

fn next_index(profile: &ServeProfile, blocks: usize, sent: usize) -> (index: usize)
    requires
        sent < blocks,
    ensures
        index == block_index(*profile, blocks, sent),
        index < blocks,
{
    if profile.reorder {
        blocks - 1 - sent
    } else {
        sent
    }
}

impl ServeState {
    /// Whether the state is one that serving can reach.
    pub open spec fn wf(self) -> bool {
        phase_ok(self.phase)
    }

    /// A peer that has just connected.
    pub fn new() -> (state: Self)
        ensures
            state == (ServeState { responses: 0, phase: ServePhase::Idle }),
            state.wf(),
    {
        ServeState { responses: 0, phase: ServePhase::Idle }
    }

    /// Takes an event, and says what the peer does next.
    #[verifier::spinoff_prover]
    #[verifier::rlimit(50)]
    pub fn advance(&mut self, profile: &ServeProfile, event: ServeEvent) -> (action: ServeAction)
        requires
            old(self).wf(),
            expected(old(self).phase, event),
        ensures
            final(self).wf(),
            (*final(self), action) == step(*profile, *old(self), event),
    {
        match (self.phase, event) {
            (ServePhase::Idle, ServeEvent::Poll { elapsed }) => {
                if let Some(DegradeMode::Wedge) = mode_in_effect(profile, elapsed) {
                    self.phase = ServePhase::Ended;
                    ServeAction::Hang
                } else {
                    self.phase = ServePhase::Reading;
                    ServeAction::Receive
                }
            },
            (ServePhase::Reading, ServeEvent::Request { request, elapsed }) => {
                let mode = mode_in_effect(profile, elapsed);
                match mode {
                    Some(DegradeMode::GoSilent) => {
                        self.phase = ServePhase::Idle;
                        ServeAction::Continue
                    },
                    Some(DegradeMode::Wedge) => {
                        self.phase = ServePhase::Idle;
                        ServeAction::Continue
                    },
                    _ => {
                        self.phase = ServePhase::Drawing { request, pace: pace_for(profile, mode) };
                        ServeAction::DrawDrop
                    },
                }
            },
            (ServePhase::Reading, ServeEvent::OtherMessage) => {
                self.phase = ServePhase::Idle;
                ServeAction::Continue
            },
            (ServePhase::Drawing { request, pace }, ServeEvent::Drawn { dropped }) => {
                if dropped {
                    self.phase = ServePhase::Idle;
                    return ServeAction::Continue;
                }
                self.responses = self.responses.saturating_add(1);
                if withholds(profile, request.start_height) {
                    self.phase = ServePhase::Replying;
                    ServeAction::SendUnavailable(request)
                } else {
                    match stall_for(profile, self.responses) {
                        Some(span) => {
                            self.phase = ServePhase::Stalling { request, pace };
                            ServeAction::Stall(span)
                        },
                        None => {
                            self.phase = ServePhase::Listing { request, pace };
                            ServeAction::ListBlocks(request)
                        },
                    }
                }
            },
            (ServePhase::Stalling { request, pace }, ServeEvent::Slept { cancelled: false }) => {
                self.phase = ServePhase::Listing { request, pace };
                ServeAction::ListBlocks(request)
            },
            (ServePhase::Listing { request, pace }, ServeEvent::Blocks { count }) => {
                if count == 0 {
                    self.phase = ServePhase::Replying;
                    ServeAction::SendUnavailable(request)
                } else {
                    self.phase = ServePhase::Delaying { request, pace, blocks: count };
                    ServeAction::WaitFirst(wait_before_first(profile, pace))
                }
            },
            (
                ServePhase::Delaying { request, pace, blocks },
                ServeEvent::Slept { cancelled: false },
            ) => {
                self.phase = ServePhase::Pacing { request, pace, blocks, sent: 0 };
                ServeAction::WaitBlock {
                    index: next_index(profile, blocks, 0),
                    wait: wait_before_block(profile, pace),
                }
            },
            (
                ServePhase::Pacing { request, pace, blocks, sent },
                ServeEvent::Slept { cancelled: false },
            ) => {
                self.phase = ServePhase::Sending { request, pace, blocks, sent };
                ServeAction::SendBlock { index: next_index(profile, blocks, sent) }
            },
            (
                ServePhase::Sending { request, pace, blocks, sent },
                ServeEvent::Sent { delivered: true },
            ) => {
                let done: usize = sent + 1;
                if done == blocks {
                    self.phase = ServePhase::Replying;
                    let returned: u32 = if blocks > u32::MAX as usize {
                        u32::MAX
                    } else {
                        blocks as u32
                    };
                    ServeAction::SendDone { start_height: request.start_height, returned }
                } else {
                    self.phase = ServePhase::Pacing { request, pace, blocks, sent: done };
                    ServeAction::WaitBlock {
                        index: next_index(profile, blocks, done),
                        wait: wait_before_block(profile, pace),
                    }
                }
            },
            (ServePhase::Replying, ServeEvent::Sent { .. }) => {
                self.phase = ServePhase::Idle;
                ServeAction::Continue
            },
            _ => {
                self.phase = ServePhase::Ended;
                ServeAction::Stop
            },
        }
    }
}

/// A response sends every block of its range exactly once: each in turn, and no two turns the
/// same one.
pub proof fn response_sends_each_block_once(
    profile: ServeProfile,
    blocks: usize,
    sent1: usize,
    sent2: usize,
)
    requires
        sent1 < blocks,
        sent2 < blocks,
    ensures
        block_index(profile, blocks, sent1) < blocks,
        block_index(profile, blocks, sent1) == block_index(profile, blocks, sent2) ==> sent1
            == sent2,
        block_index(profile, blocks, block_index(profile, blocks, sent1)) == sent1,
{
}

/// How many blocks of the current response have been sent.
pub open spec fn sent_so_far(phase: ServePhase) -> nat {
    match phase {
        ServePhase::Pacing { sent, .. } => sent as nat,
        ServePhase::Sending { sent, .. } => sent as nat,
        _ => 0,
    }
}

/// A response reports as many blocks as were sent: the count goes up by one with each block that
/// is delivered, starts at zero, and is what the last message reports.
pub proof fn response_reports_what_was_sent(
    profile: ServeProfile,
    state: ServeState,
    event: ServeEvent,
)
    requires
        state.wf(),
        expected(state.phase, event),
    ensures
        ({
            let (next, action) = step(profile, state, event);
            &&& state.phase is Delaying && next.phase is Pacing ==> sent_so_far(next.phase) == 0
            &&& state.phase is Sending && next.phase is Pacing ==> sent_so_far(next.phase)
                == sent_so_far(state.phase) + 1
            &&& action matches ServeAction::SendDone { returned, .. } ==> {
                &&& state.phase is Sending
                &&& event == (ServeEvent::Sent { delivered: true })
                &&& sent_so_far(state.phase) + 1 <= u32::MAX ==> returned == sent_so_far(
                    state.phase,
                ) + 1
            }
        }),
{
}

/// A silent or wedged peer sends nothing: it takes a request no further. A wedged peer does not
/// even read.
pub proof fn degraded_peer_is_silent(
    profile: ServeProfile,
    responses: u64,
    request: BlockRequest,
    elapsed: Duration,
)
    requires
        active_mode(profile, elapsed) == Some(DegradeMode::GoSilent) || active_mode(
            profile,
            elapsed,
        ) == Some(DegradeMode::Wedge),
    ensures
        ({
            let reading = ServeState { responses, phase: ServePhase::Reading };
            let (next, action) = step(profile, reading, ServeEvent::Request { request, elapsed });
            next.phase is Idle && action is Continue
        }),
        active_mode(profile, elapsed) == Some(DegradeMode::Wedge) ==> ({
            let idle = ServeState { responses, phase: ServePhase::Idle };
            let (next, action) = step(profile, idle, ServeEvent::Poll { elapsed });
            next.phase is Ended && action is Hang
        }),
{
}

/// A withheld range is never served: it is answered with its unavailability, unless the request
/// is dropped.
pub proof fn withheld_range_is_unavailable(
    profile: ServeProfile,
    responses: u64,
    request: BlockRequest,
    pace: ServePace,
    dropped: bool,
)
    requires
        withheld(profile, request.start_height),
    ensures
        ({
            let drawing = ServeState { responses, phase: ServePhase::Drawing { request, pace } };
            let (next, action) = step(profile, drawing, ServeEvent::Drawn { dropped });
            action == (if dropped {
                ServeAction::Continue
            } else {
                ServeAction::SendUnavailable(request)
            })
        }),
{
}

/// Only answered requests count towards a stall: the count goes up, by one, exactly when it is
/// known that a request is not dropped, and a request that meets a silent peer does not count.
pub proof fn only_answered_requests_count(
    profile: ServeProfile,
    state: ServeState,
    event: ServeEvent,
)
    requires
        expected(state.phase, event),
    ensures
        step(profile, state, event).0.responses == (if event == (ServeEvent::Drawn {
            dropped: false,
        }) {
            one_more(state.responses)
        } else {
            state.responses
        }),
        step(profile, state, event).1 matches ServeAction::Stall(span) ==> stall_before(
            profile,
            one_more(state.responses),
        ) == Some(span),
{
}

/// A peer that is done serving stays so, and a peer stops exactly if its stream ends, a run is
/// shut down during a delay, or a block cannot be sent.
pub proof fn peer_stops_only_when_told(profile: ServeProfile, state: ServeState, event: ServeEvent)
    requires
        state.wf(),
        expected(state.phase, event),
    ensures
        step(profile, state, event).1 is Stop <==> {
            ||| event is Closed
            ||| event == (ServeEvent::Slept { cancelled: true })
            ||| state.phase is Sending && event == (ServeEvent::Sent { delivered: false })
        },
        !expected(ServePhase::Ended, event),
{
}

} // verus!
