//! Native header-sync messages, limits and errors.
use std::sync::Arc;
use vstd::prelude::*;

use crate::chain::{is_inactive_at, is_zero32, BlockHash, BlockHeader, Height, Network, U256};
use crate::engine::EngineSnapshot;
use crate::header_sync::wire_format;
use crate::header_sync::wire_format::{
    BlockHeaderView, GetHeadersView, HeaderEntryView, HeadersOutcomeView, HeadersView, MessageView,
    StatusView, TreeAuxView,
};

verus! {

/// Zakura stream kind reserved for native header sync.
pub const ZAKURA_STREAM_HEADER_SYNC: u16 = 5;

/// The sole supported header-sync stream version.
///
/// This is a transport compatibility barrier, not a codec selector.
pub const ZAKURA_HEADER_SYNC_STREAM_VERSION: u16 = 8;

/// Maximum encoded header-sync message bytes.
pub const MAX_HS_MESSAGE_BYTES: usize = 2 * 1024 * 1024;

/// Default number of headers advertised per response.
pub const DEFAULT_HS_RANGE: u32 = 1000;

/// Maximum number of headers accepted in one response.
pub const MAX_HS_RANGE: u32 = 4000;

/// Default number of in-flight header requests advertised per peer.
pub const DEFAULT_HS_MAX_INFLIGHT: u16 = 10;

/// Header-sync `Status` discriminator.
pub const MSG_HS_STATUS: u8 = 1;

/// Header-sync `GetHeaders` discriminator.
pub const MSG_HS_GET_HEADERS: u8 = 2;

/// Header-sync `Headers` discriminator.
pub const MSG_HS_HEADERS: u8 = 3;

/// Header-sync `HeadersOutcome` discriminator.
pub const MSG_HS_HEADERS_OUTCOME: u8 = 4;

/// Most locator hashes in one request.
pub const MAX_LOCATOR_HASHES: usize = 13;

/// Greatest body-size hint.
pub const MAX_BODY_SIZE_HINT: u32 = 2_000_000;

/// Exact encoded length of one immutable tree-aux schema-1 record.
pub const TREE_AUX_SCHEMA_V1_BYTES: usize = 4 + 32 + 32 + 32 + 8 + 8 + 8 + 32;

/// Why bytes could not be read.
#[derive(Clone, Copy, Debug, PartialEq, Eq)]
pub enum WireIoError {
    /// A field ran past the end of the payload.
    UnexpectedEof,
    /// A vector needs more bytes than the payload has left.
    MissingBytes {
        /// What the bytes were needed for.
        field: &'static str,
        /// How many bytes were needed.
        required: usize,
        /// How many bytes were left.
        remaining: usize,
    },
}

/// The general reason why bytes could not be read.
#[derive(Clone, Copy, Debug, PartialEq, Eq, Structural)]
pub enum WireIoErrorKind {
    /// The payload ended too early.
    UnexpectedEof,
}

impl WireIoError {
    /// The general reason: the payload ended too early.
    pub fn kind(&self) -> (kind: WireIoErrorKind)
        ensures
            kind == WireIoErrorKind::UnexpectedEof,
    {
        WireIoErrorKind::UnexpectedEof
    }
}

/// Why a canonical Zcash type could not be read.
#[derive(Clone, Copy, Debug, PartialEq, Eq)]
pub enum SerializationError {
    /// The value ran past the end of the payload.
    Truncated,
    /// The chain's parsers did not accept the bytes.
    Rejected,
}

/// Errors produced while constructing, encoding, or bounded-decoding messages.
#[derive(Clone, Copy, Debug, PartialEq, Eq)]
pub enum HeaderSyncWireError {
    /// A payload exceeded the negotiated or hard cap.
    OversizedPayload {
        /// Actual payload length.
        actual: usize,
        /// Effective negotiated and hard maximum.
        max: usize,
    },
    /// An unknown message discriminator was received.
    UnknownMessageType(u8),
    /// A frame message type did not fit the one-byte application discriminator.
    UnknownFrameMessageType(u16),
    /// A frame and its duplicated payload discriminator disagreed.
    MismatchedFrameMessageType {
        /// Outer frame discriminator.
        frame: u16,
        /// Inner payload discriminator.
        payload: u8,
    },
    /// Header sync defines no frame flags.
    UnsupportedFlags(u16),
    /// A request ID was zero.
    ZeroRequestId(&'static str),
    /// A height exceeded the locally supported block-height range.
    HeightOutOfRange(u32),
    /// A boolean byte was not its canonical zero or one encoding.
    InvalidBool {
        /// Field containing the marker.
        field: &'static str,
        /// Rejected marker value.
        value: u8,
    },
    /// A count was outside its wire or negotiated bound.
    CountOutOfRange {
        /// Count field being validated.
        field: &'static str,
        /// Rejected count.
        actual: usize,
        /// Effective maximum count.
        max: usize,
    },
    /// A body-size hint exceeded the consensus block-size ceiling.
    BodySizeHintOutOfRange(u32),
    /// A schema selector was unknown or was not advertised by the receiver.
    UnsupportedTreeAuxSchema(u8),
    /// A response selector did not match the matching request.
    ResponseTreeAuxSchemaMismatch {
        /// Schema selected by the matching request.
        requested: u8,
        /// Schema selected by the response.
        actual: u8,
    },
    /// A `Headers` response was decoded without matching request bounds.
    UnsolicitedHeaders,
    /// Parallel in-memory vectors did not have the same length.
    ParallelLengthMismatch {
        /// Number of header entries.
        entries: usize,
        /// Number of entries carrying auxiliary records.
        aux: usize,
    },
    /// A zero/nonzero header response violated completion semantics.
    InvalidHeadersCompletion,
    /// A returned run did not link to its advertised common ancestor.
    NonContiguousHeaders,
    /// A tree-aux record had the wrong inferred height.
    TreeAuxHeightMismatch {
        /// Height inferred from the common ancestor and record offset.
        expected: Height,
        /// Height encoded in the record.
        actual: Height,
    },
    /// Activation-dependent schema-1 defaults were violated.
    InvalidTreeAuxDefault {
        /// Record height.
        height: Height,
        /// Field that violated its activation-dependent default.
        field: &'static str,
    },
    /// An outcome discriminator was outside the fixed 1 through 4 range.
    UnknownOutcome(u8),
    /// Checked message-size or height arithmetic overflowed.
    NumericOverflow(&'static str),
    /// Bytes remained after the selected message was decoded.
    TrailingBytes,
    /// The payload ended before the message did.
    Io(WireIoError),
    /// A canonical Zcash type failed to deserialize.
    Serialization(SerializationError),
}

/// Immutable tree-aux selector values understood by this implementation.
#[derive(Copy, Clone, Debug, PartialEq, Eq, Structural)]
pub enum AuxSchema {
    /// No tree auxiliary records are requested or returned.
    NoAux,
    /// The immutable 156-byte schema of protocol version 8.
    V1,
}

impl Default for AuxSchema {
    fn default() -> (schema: Self)
        ensures
            schema == AuxSchema::NoAux,
    {
        AuxSchema::NoAux
    }
}

impl AuxSchema {
    /// The schema that a wire selector stands for.
    pub fn decode(value: u8) -> (r: Result<Self, HeaderSyncWireError>)
        ensures
            match wire_format::schema_of(value) {
                Some(schema) => r == Ok::<Self, HeaderSyncWireError>(schema),
                None => r == Err::<Self, HeaderSyncWireError>(
                    HeaderSyncWireError::UnsupportedTreeAuxSchema(value),
                ),
            },
    {
        match value {
            0 => Ok(AuxSchema::NoAux),
            1 => Ok(AuxSchema::V1),
            _ => Err(HeaderSyncWireError::UnsupportedTreeAuxSchema(value)),
        }
    }

    /// The bit that advertises support for this schema.
    pub fn mask_bit(self) -> (bit: u32)
        ensures
            bit == wire_format::mask_bit(self),
    {
        match self {
            AuxSchema::NoAux => 0,
            AuxSchema::V1 => 1,
        }
    }

    /// The selector of this schema on the wire.
    pub fn wire_value(self) -> (value: u8)
        ensures
            value == wire_format::schema_byte(self),
    {
        match self {
            AuxSchema::NoAux => 0,
            AuxSchema::V1 => 1,
        }
    }
}

/// Peer frontier and resource-cap advertisement.
#[derive(Clone, Copy, Debug, PartialEq, Eq)]
pub struct Status {
    /// Height of the anchor excluded from `suffix_cumulative_work`.
    pub work_anchor_height: Height,
    /// Hash of the work anchor.
    pub work_anchor_hash: BlockHash,
    /// Height of the sender's selected header tip.
    pub selected_tip_height: Height,
    /// Hash of the sender's selected header tip.
    pub selected_tip_hash: BlockHash,
    /// Exact suffix work after the anchor through the selected tip.
    pub suffix_cumulative_work: U256,
    /// Lowest height whose branch data the sender may retain.
    pub oldest_retained_height: Height,
    /// Sender's advisory per-response header cap.
    pub max_headers_per_response: u32,
    /// Sender's advisory concurrent-request cap.
    pub max_inflight_requests: u16,
    /// Sender's advisory message byte cap.
    pub max_message_bytes: u32,
    /// Bit `n - 1` advertises support for auxiliary schema `n`.
    pub tree_aux_schema_mask: u32,
}

impl View for Status {
    type V = StatusView;

    open spec fn view(&self) -> StatusView {
        StatusView {
            work_anchor_height: self.work_anchor_height,
            work_anchor_hash: self.work_anchor_hash@,
            selected_tip_height: self.selected_tip_height,
            selected_tip_hash: self.selected_tip_hash@,
            suffix_cumulative_work: self.suffix_cumulative_work@,
            oldest_retained_height: self.oldest_retained_height,
            max_headers_per_response: self.max_headers_per_response,
            max_inflight_requests: self.max_inflight_requests,
            max_message_bytes: self.max_message_bytes,
            tree_aux_schema_mask: self.tree_aux_schema_mask,
        }
    }
}

/// Effective nonzero local serving limits advertised in [`Status`].
#[derive(Copy, Clone, Debug, PartialEq, Eq, Structural)]
pub struct ServeCapabilities {
    /// Maximum headers returned in one response.
    max_headers_per_response: u32,
    /// Maximum concurrent requests served for one peer.
    max_inflight_requests: u16,
    /// Maximum encoded application-message bytes.
    max_message_bytes: u32,
    /// Supported auxiliary schema bits.
    tree_aux_schema_mask: u32,
}

impl ServeCapabilities {
    /// No serving cap is zero.
    #[verifier::type_invariant]
    spec fn usable(self) -> bool {
        &&& self.max_headers_per_response != 0
        &&& self.max_inflight_requests != 0
        &&& self.max_message_bytes != 0
    }

    /// Maximum headers returned in one response.
    pub closed spec fn spec_max_headers(self) -> u32 {
        self.max_headers_per_response
    }

    /// Maximum concurrent requests served for one peer.
    pub closed spec fn spec_max_inflight(self) -> u16 {
        self.max_inflight_requests
    }

    /// Maximum encoded application-message bytes.
    pub closed spec fn spec_max_bytes(self) -> u32 {
        self.max_message_bytes
    }

    /// Supported auxiliary schema bits.
    pub closed spec fn spec_schema_mask(self) -> u32 {
        self.tree_aux_schema_mask
    }

    /// Construct effective local limits, rejecting unusable zero serving caps.
    pub fn new(
        max_headers_per_response: u32,
        max_inflight_requests: u16,
        max_message_bytes: u32,
        tree_aux_schema_mask: u32,
    ) -> (r: Option<Self>)
        ensures
            r is Some <==> max_headers_per_response != 0 && max_inflight_requests != 0
                && max_message_bytes != 0,
            r matches Some(caps) ==> {
                &&& caps.spec_max_headers() == max_headers_per_response
                &&& caps.spec_max_inflight() == max_inflight_requests
                &&& caps.spec_max_bytes() == max_message_bytes
                &&& caps.spec_schema_mask() == tree_aux_schema_mask
            },
    {
        if max_headers_per_response != 0 && max_inflight_requests != 0 && max_message_bytes != 0 {
            Some(
                ServeCapabilities {
                    max_headers_per_response,
                    max_inflight_requests,
                    max_message_bytes,
                    tree_aux_schema_mask,
                },
            )
        } else {
            None
        }
    }

    /// Maximum headers returned in one response, never zero.
    pub fn max_headers_per_response(self) -> (n: u32)
        ensures
            n == self.spec_max_headers(),
            n != 0,
    {
        proof {
            use_type_invariant(&self);
        }
        self.max_headers_per_response
    }

    /// Supported auxiliary schema bits.
    pub fn tree_aux_schema_mask(self) -> (mask: u32)
        ensures
            mask == self.spec_schema_mask(),
    {
        self.tree_aux_schema_mask
    }
}

impl Status {
    /// Build one advertisement exclusively from an atomic committed snapshot and local limits.
    pub fn from_snapshot(snapshot: &EngineSnapshot, capabilities: &ServeCapabilities) -> (status:
        Status)
        ensures
            status == (Status {
                work_anchor_height: snapshot.frontiers.finalized.height,
                work_anchor_hash: snapshot.frontiers.finalized.hash,
                selected_tip_height: snapshot.frontiers.header_best.height,
                selected_tip_hash: snapshot.frontiers.header_best.hash,
                suffix_cumulative_work: snapshot.header_best_score.suffix_work,
                oldest_retained_height: snapshot.oldest_retained_height,
                max_headers_per_response: capabilities.spec_max_headers(),
                max_inflight_requests: capabilities.spec_max_inflight(),
                max_message_bytes: capabilities.spec_max_bytes(),
                tree_aux_schema_mask: capabilities.spec_schema_mask(),
            }),
            status.max_headers_per_response != 0,
            status.max_inflight_requests != 0,
            status.max_message_bytes != 0,
    {
        proof {
            use_type_invariant(capabilities);
        }
        Status {
            work_anchor_height: snapshot.frontiers.finalized.height,
            work_anchor_hash: snapshot.frontiers.finalized.hash,
            selected_tip_height: snapshot.frontiers.header_best.height,
            selected_tip_hash: snapshot.frontiers.header_best.hash,
            suffix_cumulative_work: snapshot.header_best_score.suffix_work,
            oldest_retained_height: snapshot.oldest_retained_height,
            max_headers_per_response: capabilities.max_headers_per_response,
            max_inflight_requests: capabilities.max_inflight_requests,
            max_message_bytes: capabilities.max_message_bytes,
            tree_aux_schema_mask: capabilities.tree_aux_schema_mask,
        }
    }
}

/// Locator-based request for headers on one exact target branch.
#[derive(Clone, Debug, PartialEq, Eq)]
pub struct GetHeaders {
    /// Nonzero correlation identifier.
    pub request_id: u64,
    /// Exact retained target branch to serve.
    pub target_tip_hash: BlockHash,
    /// Ordered locator hashes, limited to 13.
    pub locator_hashes: Vec<BlockHash>,
    /// Maximum number of headers accepted in one response.
    pub max_header_count: u32,
    /// Requested auxiliary schema, or none.
    pub tree_aux_schema: AuxSchema,
}

impl View for GetHeaders {
    type V = GetHeadersView;

    open spec fn view(&self) -> GetHeadersView {
        GetHeadersView {
            request_id: self.request_id,
            target_tip_hash: self.target_tip_hash@,
            locator_hashes: self.locator_hashes@.map_values(|h: BlockHash| h@),
            max_header_count: self.max_header_count,
            tree_aux_schema: self.tree_aux_schema,
        }
    }
}

impl View for BlockHeader {
    type V = BlockHeaderView;

    open spec fn view(&self) -> BlockHeaderView {
        BlockHeaderView {
            encoded: self.encoded@,
            previous_block_hash: self.previous_block_hash@,
            hash: self.hash@,
        }
    }
}

/// One header with its parallel advisory metadata.
#[derive(Clone, Debug, PartialEq, Eq)]
pub struct HeaderEntry {
    /// Canonical Zcash block header.
    pub header: Arc<BlockHeader>,
    /// Unauthenticated serialized-body-size hint; zero means unknown.
    pub body_size: u32,
    /// Parallel schema-1 record when the response selects schema 1.
    pub tree_aux: Option<TreeAuxRecordV1>,
}

impl View for HeaderEntry {
    type V = HeaderEntryView;

    open spec fn view(&self) -> HeaderEntryView {
        HeaderEntryView {
            header: (*self.header)@,
            body_size: self.body_size,
            tree_aux: match self.tree_aux {
                Some(aux) => Some(aux@),
                None => None,
            },
        }
    }
}

/// A bounded response on the exact requested target branch.
#[derive(Clone, Debug, PartialEq, Eq)]
pub struct Headers {
    /// Nonzero correlation identifier.
    pub request_id: u64,
    /// Exact target copied from the matching request.
    pub target_tip_hash: BlockHash,
    /// Height of the selected locator intersection.
    pub common_ancestor_height: Height,
    /// Hash of the selected locator intersection.
    pub common_ancestor_hash: BlockHash,
    /// Whether this response reaches `target_tip_hash`.
    pub complete: bool,
    /// Returned auxiliary schema, either none or the requested schema.
    pub tree_aux_schema: AuxSchema,
    /// Headers in ascending order with parallel hints and optional records.
    pub entries: Vec<HeaderEntry>,
}

impl View for Headers {
    type V = HeadersView;

    open spec fn view(&self) -> HeadersView {
        HeadersView {
            request_id: self.request_id,
            target_tip_hash: self.target_tip_hash@,
            common_ancestor_height: self.common_ancestor_height,
            common_ancestor_hash: self.common_ancestor_hash@,
            complete: self.complete,
            tree_aux_schema: self.tree_aux_schema,
            entries: self.entries@.map_values(|e: HeaderEntry| e@),
        }
    }
}

/// Non-data outcomes for a syntactically valid header request.
#[derive(Copy, Clone, Debug, PartialEq, Eq, Structural)]
pub enum HeadersOutcomeCode {
    /// The exact requested target is no longer retained.
    TargetNotRetained,
    /// No sent locator hash lies on the target path.
    NoLocatorIntersection,
    /// Required target-path history has been pruned.
    HistoryPruned,
    /// The server is temporarily unable to serve the request.
    Busy,
}

impl HeadersOutcomeCode {
    /// The outcome that a wire value stands for.
    pub fn decode(value: u8) -> (r: Result<Self, HeaderSyncWireError>)
        ensures
            match wire_format::outcome_of(value) {
                Some(code) => r == Ok::<Self, HeaderSyncWireError>(code),
                None => r == Err::<Self, HeaderSyncWireError>(
                    HeaderSyncWireError::UnknownOutcome(value),
                ),
            },
    {
        match value {
            1 => Ok(HeadersOutcomeCode::TargetNotRetained),
            2 => Ok(HeadersOutcomeCode::NoLocatorIntersection),
            3 => Ok(HeadersOutcomeCode::HistoryPruned),
            4 => Ok(HeadersOutcomeCode::Busy),
            _ => Err(HeaderSyncWireError::UnknownOutcome(value)),
        }
    }

    /// The value of this outcome on the wire.
    pub fn wire_value(self) -> (value: u8)
        ensures
            value == wire_format::outcome_byte(self),
    {
        match self {
            HeadersOutcomeCode::TargetNotRetained => 1,
            HeadersOutcomeCode::NoLocatorIntersection => 2,
            HeadersOutcomeCode::HistoryPruned => 3,
            HeadersOutcomeCode::Busy => 4,
        }
    }
}

/// Explicit non-data response to `GetHeaders`.
#[derive(Clone, Copy, Debug, PartialEq, Eq)]
pub struct HeadersOutcome {
    /// Nonzero correlation identifier.
    pub request_id: u64,
    /// Exact target copied from the matching request.
    pub target_tip_hash: BlockHash,
    /// Explicit non-data outcome.
    pub outcome: HeadersOutcomeCode,
}

impl View for HeadersOutcome {
    type V = HeadersOutcomeView;

    open spec fn view(&self) -> HeadersOutcomeView {
        HeadersOutcomeView {
            request_id: self.request_id,
            target_tip_hash: self.target_tip_hash@,
            outcome: self.outcome,
        }
    }
}

/// Native header-sync message.
#[derive(Clone, Debug, PartialEq, Eq)]
pub enum HeaderSyncMessage {
    /// Advisory peer snapshot and serving caps.
    Status(Status),
    /// Locator-based exact-target request.
    GetHeaders(GetHeaders),
    /// Bounded exact-target header response.
    Headers(Headers),
    /// Explicit non-data request outcome.
    HeadersOutcome(HeadersOutcome),
}

impl View for HeaderSyncMessage {
    type V = MessageView;

    open spec fn view(&self) -> MessageView {
        match self {
            HeaderSyncMessage::Status(status) => MessageView::Status(status@),
            HeaderSyncMessage::GetHeaders(request) => MessageView::GetHeaders(request@),
            HeaderSyncMessage::Headers(response) => MessageView::Headers(response@),
            HeaderSyncMessage::HeadersOutcome(outcome) => MessageView::HeadersOutcome(outcome@),
        }
    }
}

impl HeaderSyncMessage {
    /// Return the exact header-sync message discriminator.
    pub fn message_type(&self) -> (discriminator: u8)
        ensures
            discriminator == wire_format::discriminator(self@),
    {
        match self {
            HeaderSyncMessage::Status(_) => MSG_HS_STATUS,
            HeaderSyncMessage::GetHeaders(_) => MSG_HS_GET_HEADERS,
            HeaderSyncMessage::Headers(_) => MSG_HS_HEADERS,
            HeaderSyncMessage::HeadersOutcome(_) => MSG_HS_HEADERS_OUTCOME,
        }
    }
}

/// Immutable schema-1 commitment inputs for one inferred block height.
#[derive(Clone, Copy, Debug, PartialEq, Eq)]
pub struct TreeAuxRecordV1 {
    /// Exact inferred height of this record.
    pub height: Height,
    /// End-of-block Sapling note-commitment root.
    pub sapling_root: [u8; 32],
    /// End-of-block Orchard root, empty below NU5.
    pub orchard_root: [u8; 32],
    /// End-of-block Ironwood root, empty before configured NU7.
    pub ironwood_root: [u8; 32],
    /// Per-block Sapling shielded transaction count.
    pub sapling_tx_count: u64,
    /// Per-block Orchard shielded transaction count, zero below NU5.
    pub orchard_tx_count: u64,
    /// Per-block Ironwood shielded transaction count, zero before configured NU7.
    pub ironwood_tx_count: u64,
    /// ZIP-244 authorizing-data root, all zero below NU5.
    pub auth_data_root: [u8; 32],
}

impl View for TreeAuxRecordV1 {
    type V = TreeAuxView;

    open spec fn view(&self) -> TreeAuxView {
        TreeAuxView {
            height: self.height,
            sapling_root: self.sapling_root@,
            orchard_root: self.orchard_root@,
            ironwood_root: self.ironwood_root@,
            sapling_tx_count: self.sapling_tx_count,
            orchard_tx_count: self.orchard_tx_count,
            ironwood_tx_count: self.ironwood_tx_count,
            auth_data_root: self.auth_data_root@,
        }
    }
}

impl TreeAuxRecordV1 {
    /// Validate the inferred height and all activation-dependent canonical defaults.
    pub fn validate_for(&self, expected_height: Height, network: &Network) -> (r: Result<
        (),
        HeaderSyncWireError,
    >)
        ensures
            match wire_format::tree_aux_error(self@, expected_height, *network) {
                Some(error) => r == Err::<(), HeaderSyncWireError>(error),
                None => r is Ok,
            },
    {
        if self.height != expected_height {
            return Err(
                HeaderSyncWireError::TreeAuxHeightMismatch {
                    expected: expected_height,
                    actual: self.height,
                },
            );
        }
        if is_inactive_at(network.nu5_activation, expected_height) {
            if !is_zero32(&self.orchard_root) {
                return Err(
                    HeaderSyncWireError::InvalidTreeAuxDefault {
                        height: expected_height,
                        field: "orchard_root",
                    },
                );
            }
            if self.orchard_tx_count != 0 {
                return Err(
                    HeaderSyncWireError::InvalidTreeAuxDefault {
                        height: expected_height,
                        field: "orchard_tx_count",
                    },
                );
            }
            if !is_zero32(&self.auth_data_root) {
                return Err(
                    HeaderSyncWireError::InvalidTreeAuxDefault {
                        height: expected_height,
                        field: "auth_data_root",
                    },
                );
            }
        }
        if is_inactive_at(network.nu7_activation, expected_height) {
            if !is_zero32(&self.ironwood_root) {
                return Err(
                    HeaderSyncWireError::InvalidTreeAuxDefault {
                        height: expected_height,
                        field: "ironwood_root",
                    },
                );
            }
            if self.ironwood_tx_count != 0 {
                return Err(
                    HeaderSyncWireError::InvalidTreeAuxDefault {
                        height: expected_height,
                        field: "ironwood_tx_count",
                    },
                );
            }
        }
        Ok(())
    }
}

/// Bounds from the matching in-flight request, required before decoding a response vector.
#[derive(Copy, Clone, Debug, PartialEq, Eq, Structural)]
pub struct HeaderSyncDecodeContext {
    /// Maximum count selected by the matching request.
    pub max_header_count: u32,
    /// Auxiliary schema selected by the matching request.
    pub requested_tree_aux_schema: AuxSchema,
}

/// What the chain's own parsers made of the vectors of a `Headers` payload.
#[derive(Clone, Debug, PartialEq, Eq)]
pub struct ChainParse {
    /// The leading headers that the header parser accepted, in wire order.
    pub headers: Vec<Arc<BlockHeader>>,
    /// How many leading auxiliary records hold three roots that the root parsers accepted.
    pub accepted_roots: usize,
}

} // verus!
