//! The header-sync wire format: what each message looks like, and which rules it breaks.
use vstd::prelude::*;

use crate::chain;
use crate::chain::{Height, Network, HEIGHT_MAX};
use crate::header_sync::message::{
    AuxSchema, HeaderSyncDecodeContext, HeaderSyncWireError, HeadersOutcomeCode,
    SerializationError, WireIoError, MAX_BODY_SIZE_HINT, MAX_LOCATOR_HASHES, MSG_HS_GET_HEADERS,
    MSG_HS_HEADERS, MSG_HS_HEADERS_OUTCOME, MSG_HS_STATUS, TREE_AUX_SCHEMA_V1_BYTES,
};
use crate::layout;
use crate::le;

verus! {

/// The content of a `Status`.
#[verifier::ext_equal]
pub struct StatusView {
    pub work_anchor_height: Height,
    pub work_anchor_hash: Seq<u8>,
    pub selected_tip_height: Height,
    pub selected_tip_hash: Seq<u8>,
    pub suffix_cumulative_work: nat,
    pub oldest_retained_height: Height,
    pub max_headers_per_response: u32,
    pub max_inflight_requests: u16,
    pub max_message_bytes: u32,
    pub tree_aux_schema_mask: u32,
}

/// The content of a `GetHeaders`.
#[verifier::ext_equal]
pub struct GetHeadersView {
    pub request_id: u64,
    pub target_tip_hash: Seq<u8>,
    pub locator_hashes: Seq<Seq<u8>>,
    pub max_header_count: u32,
    pub tree_aux_schema: AuxSchema,
}

/// The content of a block header.
#[verifier::ext_equal]
pub struct BlockHeaderView {
    pub encoded: Seq<u8>,
    pub previous_block_hash: Seq<u8>,
    pub hash: Seq<u8>,
}

/// The content of a tree-aux record.
#[verifier::ext_equal]
pub struct TreeAuxView {
    pub height: Height,
    pub sapling_root: Seq<u8>,
    pub orchard_root: Seq<u8>,
    pub ironwood_root: Seq<u8>,
    pub sapling_tx_count: u64,
    pub orchard_tx_count: u64,
    pub ironwood_tx_count: u64,
    pub auth_data_root: Seq<u8>,
}

/// The content of one header entry.
#[verifier::ext_equal]
pub struct HeaderEntryView {
    pub header: BlockHeaderView,
    pub body_size: u32,
    pub tree_aux: Option<TreeAuxView>,
}

/// The content of a `Headers`.
#[verifier::ext_equal]
pub struct HeadersView {
    pub request_id: u64,
    pub target_tip_hash: Seq<u8>,
    pub common_ancestor_height: Height,
    pub common_ancestor_hash: Seq<u8>,
    pub complete: bool,
    pub tree_aux_schema: AuxSchema,
    pub entries: Seq<HeaderEntryView>,
}

/// The content of a `HeadersOutcome`.
#[verifier::ext_equal]
pub struct HeadersOutcomeView {
    pub request_id: u64,
    pub target_tip_hash: Seq<u8>,
    pub outcome: HeadersOutcomeCode,
}

/// The content of a message.
#[verifier::ext_equal]
pub enum MessageView {
    Status(StatusView),
    GetHeaders(GetHeadersView),
    Headers(HeadersView),
    HeadersOutcome(HeadersOutcomeView),
}

/// The first byte of a message.
pub open spec fn discriminator(m: MessageView) -> u8 {
    match m {
        MessageView::Status(_) => MSG_HS_STATUS,
        MessageView::GetHeaders(_) => MSG_HS_GET_HEADERS,
        MessageView::Headers(_) => MSG_HS_HEADERS,
        MessageView::HeadersOutcome(_) => MSG_HS_HEADERS_OUTCOME,
    }
}

/// The schema that a selector byte stands for.
pub open spec fn schema_of(value: u8) -> Option<AuxSchema> {
    if value == 0 {
        Some(AuxSchema::NoAux)
    } else if value == 1 {
        Some(AuxSchema::V1)
    } else {
        None
    }
}

/// The selector byte of a schema.
pub open spec fn schema_byte(schema: AuxSchema) -> u8 {
    match schema {
        AuxSchema::NoAux => 0,
        AuxSchema::V1 => 1,
    }
}

/// The advertisement bit of a schema.
pub open spec fn mask_bit(schema: AuxSchema) -> u32 {
    match schema {
        AuxSchema::NoAux => 0,
        AuxSchema::V1 => 1,
    }
}

/// The outcome that a byte stands for.
pub open spec fn outcome_of(value: u8) -> Option<HeadersOutcomeCode> {
    if value == 1 {
        Some(HeadersOutcomeCode::TargetNotRetained)
    } else if value == 2 {
        Some(HeadersOutcomeCode::NoLocatorIntersection)
    } else if value == 3 {
        Some(HeadersOutcomeCode::HistoryPruned)
    } else if value == 4 {
        Some(HeadersOutcomeCode::Busy)
    } else {
        None
    }
}

/// The byte of an outcome.
pub open spec fn outcome_byte(code: HeadersOutcomeCode) -> u8 {
    match code {
        HeadersOutcomeCode::TargetNotRetained => 1,
        HeadersOutcomeCode::NoLocatorIntersection => 2,
        HeadersOutcomeCode::HistoryPruned => 3,
        HeadersOutcomeCode::Busy => 4,
    }
}

/// The first rule that a tree-aux record breaks at its inferred height.
pub open spec fn tree_aux_error(aux: TreeAuxView, expected: Height, network: Network) -> Option<
    HeaderSyncWireError,
> {
    let below_nu5 = chain::inactive_at(network.nu5_activation, expected);
    let below_nu7 = chain::inactive_at(network.nu7_activation, expected);
    if aux.height != expected {
        Some(HeaderSyncWireError::TreeAuxHeightMismatch { expected, actual: aux.height })
    } else if below_nu5 && aux.orchard_root != chain::zeros32() {
        Some(HeaderSyncWireError::InvalidTreeAuxDefault { height: expected, field: "orchard_root" })
    } else if below_nu5 && aux.orchard_tx_count != 0 {
        Some(
            HeaderSyncWireError::InvalidTreeAuxDefault {
                height: expected,
                field: "orchard_tx_count",
            },
        )
    } else if below_nu5 && aux.auth_data_root != chain::zeros32() {
        Some(
            HeaderSyncWireError::InvalidTreeAuxDefault { height: expected, field: "auth_data_root" },
        )
    } else if below_nu7 && aux.ironwood_root != chain::zeros32() {
        Some(
            HeaderSyncWireError::InvalidTreeAuxDefault { height: expected, field: "ironwood_root" },
        )
    } else if below_nu7 && aux.ironwood_tx_count != 0 {
        Some(
            HeaderSyncWireError::InvalidTreeAuxDefault {
                height: expected,
                field: "ironwood_tx_count",
            },
        )
    } else {
        None
    }
}

/// What a codec was made with: the network, and the caps that bound every message.
#[verifier::ext_equal]
pub struct CodecView {
    pub network: Network,
    pub message_byte_limit: usize,
    pub header_count_limit: u32,
    pub tree_aux_schema_mask: u32,
}

/// What the chain's parsers accepted of a `Headers` payload.
#[verifier::ext_equal]
pub struct ChainParseView {
    pub headers: Seq<BlockHeaderView>,
    pub accepted_roots: nat,
}

// ---- The bytes of each message, part by part.

/// The parts of an encoded `Status`.
pub open spec fn status_parts(s: StatusView) -> Seq<Seq<u8>> {
    seq![
        seq![MSG_HS_STATUS],
        le::bytes(s.work_anchor_height.0 as nat, 4),
        s.work_anchor_hash,
        le::bytes(s.selected_tip_height.0 as nat, 4),
        s.selected_tip_hash,
        le::bytes(s.suffix_cumulative_work, 32),
        le::bytes(s.oldest_retained_height.0 as nat, 4),
        le::bytes(s.max_headers_per_response as nat, 4),
        le::bytes(s.max_inflight_requests as nat, 2),
        le::bytes(s.max_message_bytes as nat, 4),
        le::bytes(s.tree_aux_schema_mask as nat, 4),
    ]
}

/// The parts of an encoded `GetHeaders` before its locator hashes.
pub open spec fn get_headers_head(r: GetHeadersView) -> Seq<Seq<u8>> {
    seq![
        seq![MSG_HS_GET_HEADERS],
        le::bytes(r.request_id as nat, 8),
        r.target_tip_hash,
        seq![r.locator_hashes.len() as u8],
    ]
}

/// The parts of an encoded `GetHeaders` after its locator hashes.
pub open spec fn get_headers_tail(r: GetHeadersView) -> Seq<Seq<u8>> {
    seq![le::bytes(r.max_header_count as nat, 4), seq![schema_byte(r.tree_aux_schema)]]
}

/// The parts of an encoded `GetHeaders`.
pub open spec fn get_headers_parts(r: GetHeadersView) -> Seq<Seq<u8>> {
    get_headers_head(r) + r.locator_hashes + get_headers_tail(r)
}

/// The parts of an encoded `Headers` before its vectors.
pub open spec fn headers_head(r: HeadersView) -> Seq<Seq<u8>> {
    seq![
        seq![MSG_HS_HEADERS],
        le::bytes(r.request_id as nat, 8),
        r.target_tip_hash,
        le::bytes(r.common_ancestor_height.0 as nat, 4),
        r.common_ancestor_hash,
        le::bytes(r.entries.len(), 4),
        seq![if r.complete { 1u8 } else { 0u8 }],
        seq![schema_byte(r.tree_aux_schema)],
    ]
}

/// The parts of an encoded tree-aux record.
pub open spec fn tree_aux_parts(a: TreeAuxView) -> Seq<Seq<u8>> {
    seq![
        le::bytes(a.height.0 as nat, 4),
        a.sapling_root,
        a.orchard_root,
        a.ironwood_root,
        le::bytes(a.sapling_tx_count as nat, 8),
        le::bytes(a.orchard_tx_count as nat, 8),
        le::bytes(a.ironwood_tx_count as nat, 8),
        a.auth_data_root,
    ]
}

/// The encoded headers of a response, in order.
pub open spec fn header_parts(entries: Seq<HeaderEntryView>) -> Seq<Seq<u8>> {
    Seq::new(entries.len(), |i: int| entries[i].header.encoded)
}

/// The encoded body-size hints of a response, in order.
pub open spec fn hint_parts(entries: Seq<HeaderEntryView>) -> Seq<Seq<u8>> {
    Seq::new(entries.len(), |i: int| le::bytes(entries[i].body_size as nat, 4))
}

/// The encoded tree-aux records of a response, in order.
pub open spec fn record_parts(entries: Seq<HeaderEntryView>) -> Seq<Seq<u8>> {
    Seq::new(entries.len(), |i: int| tree_aux_parts(entries[i].tree_aux->0).flatten())
}

/// The parts of an encoded `Headers`: its head, then parallel vectors of headers, of body-size
/// hints and, under schema 1, of tree-aux records.
pub open spec fn headers_parts(r: HeadersView) -> Seq<Seq<u8>> {
    headers_head(r) + header_parts(r.entries) + hint_parts(r.entries) + (if r.tree_aux_schema
        == AuxSchema::V1 {
        record_parts(r.entries)
    } else {
        Seq::empty()
    })
}

/// The parts of an encoded `HeadersOutcome`.
pub open spec fn outcome_parts(o: HeadersOutcomeView) -> Seq<Seq<u8>> {
    seq![
        seq![MSG_HS_HEADERS_OUTCOME],
        le::bytes(o.request_id as nat, 8),
        o.target_tip_hash,
        seq![outcome_byte(o.outcome)],
    ]
}

/// The parts of an encoded message.
pub open spec fn message_parts(m: MessageView) -> Seq<Seq<u8>> {
    match m {
        MessageView::Status(s) => status_parts(s),
        MessageView::GetHeaders(r) => get_headers_parts(r),
        MessageView::Headers(r) => headers_parts(r),
        MessageView::HeadersOutcome(o) => outcome_parts(o),
    }
}

/// The encoding of a message.
pub open spec fn message_bytes(m: MessageView) -> Seq<u8> {
    message_parts(m).flatten()
}

// ---- The rules that messages keep, each as the first rule broken.

/// The first of two errors.
pub open spec fn first_error(
    a: Option<HeaderSyncWireError>,
    b: Option<HeaderSyncWireError>,
) -> Option<HeaderSyncWireError> {
    match a {
        Some(error) => Some(error),
        None => b,
    }
}

/// A height above the supported range is an error.
pub open spec fn height_error(height: u32) -> Option<HeaderSyncWireError> {
    if height > HEIGHT_MAX {
        Some(HeaderSyncWireError::HeightOutOfRange(height))
    } else {
        None
    }
}

/// A zero request ID is an error.
pub open spec fn id_error(request_id: u64, message: &'static str) -> Option<HeaderSyncWireError> {
    if request_id == 0 {
        Some(HeaderSyncWireError::ZeroRequestId(message))
    } else {
        None
    }
}

/// A body-size hint above the ceiling is an error.
pub open spec fn body_size_error(body_size: u32) -> Option<HeaderSyncWireError> {
    if body_size > MAX_BODY_SIZE_HINT {
        Some(HeaderSyncWireError::BodySizeHintOutOfRange(body_size))
    } else {
        None
    }
}

/// A count that is zero or above its maximum is an error.
pub open spec fn nonzero_count_error(field: &'static str, actual: nat, max: nat) -> Option<
    HeaderSyncWireError,
> {
    if actual == 0 {
        Some(HeaderSyncWireError::CountOutOfRange { field, actual: 0, max: max as usize })
    } else {
        count_error(field, actual, max)
    }
}

/// A count above its maximum is an error.
pub open spec fn count_error(field: &'static str, actual: nat, max: nat) -> Option<
    HeaderSyncWireError,
> {
    if actual > max {
        Some(
            HeaderSyncWireError::CountOutOfRange {
                field,
                actual: actual as usize,
                max: max as usize,
            },
        )
    } else {
        None
    }
}

/// The rules of a `GetHeaders`.
pub open spec fn get_headers_rule_error(c: CodecView, r: GetHeadersView) -> Option<
    HeaderSyncWireError,
> {
    first_error(
        id_error(r.request_id, "GetHeaders"),
        first_error(
            nonzero_count_error("locator", r.locator_hashes.len(), MAX_LOCATOR_HASHES as nat),
            first_error(
                nonzero_count_error(
                    "max_header",
                    r.max_header_count as nat,
                    c.header_count_limit as nat,
                ),
                if r.tree_aux_schema != AuxSchema::NoAux && c.tree_aux_schema_mask & mask_bit(
                    r.tree_aux_schema,
                ) == 0 {
                    Some(
                        HeaderSyncWireError::UnsupportedTreeAuxSchema(
                            schema_byte(r.tree_aux_schema),
                        ),
                    )
                } else {
                    None
                },
            ),
        ),
    )
}

/// The hash that header `i` of a response must extend.
pub open spec fn parent_hash(r: HeadersView, i: int) -> Seq<u8> {
    if i == 0 {
        r.common_ancestor_hash
    } else {
        r.entries[i - 1].header.hash
    }
}

/// Whether every header of a response extends the one before it, and the first the ancestor.
pub open spec fn contiguous(r: HeadersView) -> bool {
    forall|i: int|
        0 <= i < r.entries.len() ==> (#[trigger] r.entries[i]).header.previous_block_hash
            == parent_hash(r, i)
}

/// How many entries of a response carry a tree-aux record.
pub open spec fn aux_count(entries: Seq<HeaderEntryView>) -> nat
    decreases entries.len(),
{
    if entries.len() == 0 {
        0
    } else {
        aux_count(entries.drop_last()) + (if entries.last().tree_aux is Some {
            1nat
        } else {
            0nat
        })
    }
}

/// The rules of entry `i` of a `Headers`.
pub open spec fn entry_error(network: Network, r: HeadersView, i: int) -> Option<
    HeaderSyncWireError,
> {
    let entry = r.entries[i];
    let inferred = r.common_ancestor_height.0 + 1 + i;
    if entry.body_size > MAX_BODY_SIZE_HINT {
        Some(HeaderSyncWireError::BodySizeHintOutOfRange(entry.body_size))
    } else if i > u32::MAX {
        Some(HeaderSyncWireError::NumericOverflow("tree-aux height offset"))
    } else if inferred > HEIGHT_MAX {
        Some(HeaderSyncWireError::NumericOverflow("inferred header height"))
    } else if r.tree_aux_schema == AuxSchema::V1 && entry.tree_aux is Some {
        tree_aux_error(entry.tree_aux->0, Height(inferred as u32), network)
    } else if r.tree_aux_schema == AuxSchema::NoAux && entry.tree_aux is None {
        None
    } else {
        Some(
            HeaderSyncWireError::ParallelLengthMismatch {
                entries: r.entries.len() as usize,
                aux: aux_count(r.entries) as usize,
            },
        )
    }
}

/// The rules of the entries of a `Headers`, from entry `i` on.
pub open spec fn entries_error(network: Network, r: HeadersView, i: int) -> Option<
    HeaderSyncWireError,
>
    decreases r.entries.len() - i,
{
    if i >= r.entries.len() {
        None
    } else {
        first_error(entry_error(network, r, i), entries_error(network, r, i + 1))
    }
}

/// Entries without an error from `i` on keep their rules one by one.
pub proof fn lemma_entries_ok(network: Network, r: HeadersView, i: int, j: int)
    requires
        0 <= i <= j < r.entries.len(),
        entries_error(network, r, i) is None,
    ensures
        entry_error(network, r, j) is None,
    decreases j - i,
{
    if i < j {
        lemma_entries_ok(network, r, i + 1, j);
    }
}

/// The rules of a `Headers`: it is empty exactly if it completes at the common ancestor, its
/// headers link up from the ancestor, a complete run ends at the target, and every entry keeps
/// its own rules.
pub open spec fn semantics_error(network: Network, r: HeadersView) -> Option<HeaderSyncWireError> {
    if (r.entries.len() == 0) != (r.complete && r.common_ancestor_hash == r.target_tip_hash) {
        Some(HeaderSyncWireError::InvalidHeadersCompletion)
    } else if !contiguous(r) {
        Some(HeaderSyncWireError::NonContiguousHeaders)
    } else if r.entries.len() > 0 && r.complete && r.entries.last().header.hash
        != r.target_tip_hash {
        Some(HeaderSyncWireError::InvalidHeadersCompletion)
    } else {
        entries_error(network, r, 0)
    }
}

/// Why a `Status` cannot be encoded.
pub open spec fn status_encode_error(s: StatusView) -> Option<HeaderSyncWireError> {
    first_error(
        height_error(s.work_anchor_height.0),
        first_error(
            height_error(s.selected_tip_height.0),
            height_error(s.oldest_retained_height.0),
        ),
    )
}

/// Why a `Headers` cannot be encoded.
pub open spec fn headers_encode_error(c: CodecView, r: HeadersView) -> Option<HeaderSyncWireError> {
    first_error(
        id_error(r.request_id, "Headers"),
        first_error(
            count_error("header", r.entries.len(), c.header_count_limit as nat),
            first_error(
                semantics_error(c.network, r),
                height_error(r.common_ancestor_height.0),
            ),
        ),
    )
}

/// A payload above the codec's byte limit is an error.
pub open spec fn size_error(c: CodecView, len: nat) -> Option<HeaderSyncWireError> {
    if len > c.message_byte_limit {
        Some(
            HeaderSyncWireError::OversizedPayload {
                actual: len as usize,
                max: c.message_byte_limit,
            },
        )
    } else {
        None
    }
}

/// Why a message breaks the rules of its kind.
pub open spec fn rule_error(c: CodecView, m: MessageView) -> Option<HeaderSyncWireError> {
    match m {
        MessageView::Status(s) => status_encode_error(s),
        MessageView::GetHeaders(r) => get_headers_rule_error(c, r),
        MessageView::Headers(r) => headers_encode_error(c, r),
        MessageView::HeadersOutcome(o) => id_error(o.request_id, "HeadersOutcome"),
    }
}

/// Why a message cannot be encoded.
pub open spec fn encode_error(c: CodecView, m: MessageView) -> Option<HeaderSyncWireError> {
    first_error(rule_error(c, m), size_error(c, message_bytes(m).len()))
}

// ---- What a payload says, field by field, and the first field that is wrong.

/// The two-byte number at `at`.
pub open spec fn u16_at(b: Seq<u8>, at: int) -> u16 {
    le::value(b.subrange(at, at + 2)) as u16
}

/// The four-byte number at `at`.
pub open spec fn u32_at(b: Seq<u8>, at: int) -> u32 {
    le::value(b.subrange(at, at + 4)) as u32
}

/// The eight-byte number at `at`.
pub open spec fn u64_at(b: Seq<u8>, at: int) -> u64 {
    le::value(b.subrange(at, at + 8)) as u64
}

/// The 32-byte value at `at`.
pub open spec fn bytes32_at(b: Seq<u8>, at: int) -> Seq<u8> {
    b.subrange(at, at + 32)
}

/// A plain field that ends at `end` must lie inside the payload.
pub open spec fn eof_error(b: Seq<u8>, end: int) -> Option<HeaderSyncWireError> {
    if b.len() < end {
        Some(HeaderSyncWireError::Io(WireIoError::UnexpectedEof))
    } else {
        None
    }
}

/// A hash that ends at `end` must lie inside the payload.
pub open spec fn hash_error(b: Seq<u8>, end: int) -> Option<HeaderSyncWireError> {
    if b.len() < end {
        Some(HeaderSyncWireError::Serialization(SerializationError::Truncated))
    } else {
        None
    }
}

/// A height at `at` must be present and in range.
pub open spec fn height_at_error(b: Seq<u8>, at: int) -> Option<HeaderSyncWireError> {
    first_error(eof_error(b, at + 4), height_error(u32_at(b, at)))
}

/// A request ID at `at` must be present and nonzero.
pub open spec fn id_at_error(b: Seq<u8>, at: int, message: &'static str) -> Option<
    HeaderSyncWireError,
> {
    first_error(eof_error(b, at + 8), id_error(u64_at(b, at), message))
}

/// The bytes that vectors are known to need must be left after `at`, which must not be past the
/// end.
pub open spec fn missing_error(
    b: Seq<u8>,
    at: int,
    required: int,
    field: &'static str,
) -> Option<HeaderSyncWireError> {
    if at > b.len() {
        Some(HeaderSyncWireError::NumericOverflow("remaining bytes"))
    } else if b.len() - at < required {
        Some(
            HeaderSyncWireError::Io(
                WireIoError::MissingBytes {
                    field,
                    required: required as usize,
                    remaining: (b.len() - at) as usize,
                },
            ),
        )
    } else {
        None
    }
}

/// A message must end where the payload ends.
pub open spec fn trailing_error(b: Seq<u8>, end: int) -> Option<HeaderSyncWireError> {
    if b.len() != end {
        Some(HeaderSyncWireError::TrailingBytes)
    } else {
        None
    }
}

/// The length of an encoded `Status`.
pub open spec fn status_end() -> int {
    123
}

/// The first wrong field of a `Status` payload.
pub open spec fn status_error(b: Seq<u8>) -> Option<HeaderSyncWireError> {
    first_error(
        height_at_error(b, 1),
        first_error(
            hash_error(b, 37),
            first_error(
                height_at_error(b, 37),
                first_error(
                    hash_error(b, 73),
                    first_error(
                        eof_error(b, 105),
                        first_error(height_at_error(b, 105), eof_error(b, status_end())),
                    ),
                ),
            ),
        ),
    )
}

/// The `Status` that a payload holds.
pub open spec fn status_value(b: Seq<u8>) -> StatusView {
    StatusView {
        work_anchor_height: Height(u32_at(b, 1)),
        work_anchor_hash: bytes32_at(b, 5),
        selected_tip_height: Height(u32_at(b, 37)),
        selected_tip_hash: bytes32_at(b, 41),
        suffix_cumulative_work: le::value(bytes32_at(b, 73)),
        oldest_retained_height: Height(u32_at(b, 105)),
        max_headers_per_response: u32_at(b, 109),
        max_inflight_requests: u16_at(b, 113),
        max_message_bytes: u32_at(b, 115),
        tree_aux_schema_mask: u32_at(b, 119),
    }
}

/// Where the locator hashes of a `GetHeaders` payload end.
pub open spec fn locators_end(b: Seq<u8>) -> int {
    42 + 32 * b[41]
}

/// An unknown schema selector at `at` is an error.
pub open spec fn schema_at_error(b: Seq<u8>, at: int) -> Option<HeaderSyncWireError> {
    if schema_of(b[at]) is None {
        Some(HeaderSyncWireError::UnsupportedTreeAuxSchema(b[at]))
    } else {
        None
    }
}

/// The first wrong field of a `GetHeaders` payload.
pub open spec fn get_headers_error(c: CodecView, b: Seq<u8>) -> Option<HeaderSyncWireError> {
    first_error(
        id_at_error(b, 1, "GetHeaders"),
        first_error(
            hash_error(b, 41),
            first_error(
                eof_error(b, 42),
                first_error(
                    nonzero_count_error("locator", b[41] as nat, MAX_LOCATOR_HASHES as nat),
                    first_error(
                        missing_error(b, 42, 32 * b[41] + 5, "locator bytes"),
                        first_error(
                            schema_at_error(b, locators_end(b) + 4),
                            get_headers_rule_error(c, get_headers_value(b)),
                        ),
                    ),
                ),
            ),
        ),
    )
}

/// The `GetHeaders` that a payload holds.
pub open spec fn get_headers_value(b: Seq<u8>) -> GetHeadersView {
    GetHeadersView {
        request_id: u64_at(b, 1),
        target_tip_hash: bytes32_at(b, 9),
        locator_hashes: Seq::new(b[41] as nat, |i: int| bytes32_at(b, 42 + 32 * i)),
        max_header_count: u32_at(b, locators_end(b)),
        tree_aux_schema: schema_of(b[locators_end(b) + 4])->0,
    }
}

/// Where the vectors of a `Headers` payload start.
pub open spec fn vectors_start() -> int {
    83
}

/// The number of entries that a `Headers` payload announces.
pub open spec fn entry_count(b: Seq<u8>) -> nat {
    u32_at(b, 77) as nat
}

/// The auxiliary schema that a `Headers` payload announces.
pub open spec fn announced_schema(b: Seq<u8>) -> AuxSchema {
    schema_of(b[82])->0
}

/// The fewest bytes that one entry can take.
pub open spec fn entry_bytes_min(network: Network, schema: AuxSchema) -> int {
    network.header_bytes + 4 + (if schema == AuxSchema::V1 {
        TREE_AUX_SCHEMA_V1_BYTES as int
    } else {
        0
    })
}

/// The least number of entries that both the request and the codec admit.
pub open spec fn entry_limit(c: CodecView, context: HeaderSyncDecodeContext) -> nat {
    if context.max_header_count < c.header_count_limit {
        context.max_header_count as nat
    } else {
        c.header_count_limit as nat
    }
}

/// The first wrong field of a `Headers` payload before its vectors.
pub open spec fn headers_head_error(
    c: CodecView,
    context: HeaderSyncDecodeContext,
    b: Seq<u8>,
) -> Option<HeaderSyncWireError> {
    let schema = announced_schema(b);
    let needed = entry_count(b) * entry_bytes_min(c.network, schema);
    first_error(
        id_at_error(b, 1, "Headers"),
        first_error(
            hash_error(b, 41),
            first_error(
                height_at_error(b, 41),
                first_error(
                    hash_error(b, 77),
                    first_error(
                        eof_error(b, 82),
                        first_error(
                            if b[81] > 1 {
                                Some(
                                    HeaderSyncWireError::InvalidBool {
                                        field: "complete",
                                        value: b[81],
                                    },
                                )
                            } else {
                                None
                            },
                            first_error(
                                eof_error(b, 83),
                                first_error(
                                    schema_at_error(b, 82),
                                    first_error(
                                        count_error(
                                            "header",
                                            entry_count(b),
                                            entry_limit(c, context),
                                        ),
                                        if schema != AuxSchema::NoAux && schema
                                            != context.requested_tree_aux_schema {
                                            Some(
                                                HeaderSyncWireError::ResponseTreeAuxSchemaMismatch {
                                                    requested: schema_byte(
                                                        context.requested_tree_aux_schema,
                                                    ),
                                                    actual: schema_byte(schema),
                                                },
                                            )
                                        } else if entry_bytes_min(c.network, schema) > usize::MAX
                                            || needed > usize::MAX {
                                            Some(
                                                HeaderSyncWireError::NumericOverflow(
                                                    "minimum response size",
                                                ),
                                            )
                                        } else {
                                            missing_error(
                                                b,
                                                vectors_start(),
                                                needed,
                                                "header response bytes",
                                            )
                                        },
                                    ),
                                ),
                            ),
                        ),
                    ),
                ),
            ),
        ),
    )
}

/// The encodings of parsed headers, in order.
pub open spec fn encodings(headers: Seq<BlockHeaderView>) -> Seq<Seq<u8>> {
    Seq::new(headers.len(), |i: int| headers[i].encoded)
}

/// Where header `i` of a `Headers` payload starts, if the headers before it are `headers`.
pub open spec fn header_start(headers: Seq<BlockHeaderView>, i: int) -> int {
    vectors_start() + layout::start(encodings(headers), i as nat)
}

/// Whether parsed header `i` is what the payload holds in its place.
pub open spec fn header_matches(b: Seq<u8>, headers: Seq<BlockHeaderView>, i: int) -> bool {
    header_start(headers, i + 1) <= b.len() && b.subrange(
        header_start(headers, i),
        header_start(headers, i + 1),
    ) == headers[i].encoded
}

/// Whether the first `n` parsed headers are the `n` headers that the payload holds.
pub open spec fn headers_match(b: Seq<u8>, headers: Seq<BlockHeaderView>, n: nat) -> bool {
    n <= headers.len() && forall|i: int| 0 <= i < n ==> #[trigger] header_matches(b, headers, i)
}

/// The first wrong body-size hint from hint `i` on, of `n` hints that start at `at`.
pub open spec fn hints_error(b: Seq<u8>, at: int, i: nat, n: nat) -> Option<HeaderSyncWireError>
    decreases n - i,
{
    if i >= n {
        None
    } else {
        first_error(
            eof_error(b, at + 4 * i + 4),
            first_error(body_size_error(u32_at(b, at + 4 * i)), hints_error(b, at, i + 1, n)),
        )
    }
}

/// The first wrong field of the tree-aux record at `at`.
pub open spec fn record_error(b: Seq<u8>, at: int, roots_accepted: bool) -> Option<
    HeaderSyncWireError,
> {
    first_error(
        height_at_error(b, at),
        first_error(
            if !roots_accepted || b.len() < at + 100 {
                Some(HeaderSyncWireError::Serialization(SerializationError::Rejected))
            } else {
                None
            },
            eof_error(b, at + TREE_AUX_SCHEMA_V1_BYTES),
        ),
    )
}

/// The tree-aux record at `at`.
pub open spec fn record_value(b: Seq<u8>, at: int) -> TreeAuxView {
    TreeAuxView {
        height: Height(u32_at(b, at)),
        sapling_root: bytes32_at(b, at + 4),
        orchard_root: bytes32_at(b, at + 36),
        ironwood_root: bytes32_at(b, at + 68),
        sapling_tx_count: u64_at(b, at + 100),
        orchard_tx_count: u64_at(b, at + 108),
        ironwood_tx_count: u64_at(b, at + 116),
        auth_data_root: bytes32_at(b, at + 124),
    }
}

/// The first wrong tree-aux record from record `i` on, of `n` records that start at `at`.
pub open spec fn records_error(b: Seq<u8>, at: int, i: nat, n: nat, accepted_roots: nat) -> Option<
    HeaderSyncWireError,
>
    decreases n - i,
{
    if i >= n {
        None
    } else {
        first_error(
            record_error(b, at + 156 * i, i < accepted_roots),
            records_error(b, at, i + 1, n, accepted_roots),
        )
    }
}

/// Where the body-size hints of a `Headers` payload start.
pub open spec fn hints_start(b: Seq<u8>, parse: ChainParseView) -> int {
    header_start(parse.headers, entry_count(b) as int)
}

/// Where the tree-aux records of a `Headers` payload start.
pub open spec fn records_start(b: Seq<u8>, parse: ChainParseView) -> int {
    hints_start(b, parse) + 4 * entry_count(b)
}

/// Where the three roots of record `i` start, if `count` hints start at `hints_start`.
pub open spec fn roots_start(hints_start: int, count: int, i: int) -> int {
    hints_start + 4 * count + 156 * i + 4
}

/// Where a `Headers` payload ends.
pub open spec fn headers_end(b: Seq<u8>, parse: ChainParseView) -> int {
    records_start(b, parse) + (if announced_schema(b) == AuxSchema::V1 {
        156 * entry_count(b)
    } else {
        0
    })
}

/// The entry `i` that a `Headers` payload holds.
pub open spec fn entry_value(b: Seq<u8>, parse: ChainParseView, i: int) -> HeaderEntryView {
    HeaderEntryView {
        header: parse.headers[i],
        body_size: u32_at(b, hints_start(b, parse) + 4 * i),
        tree_aux: if announced_schema(b) == AuxSchema::V1 {
            Some(record_value(b, records_start(b, parse) + 156 * i))
        } else {
            None
        },
    }
}

/// The `Headers` that a payload holds.
pub open spec fn headers_value(b: Seq<u8>, parse: ChainParseView) -> HeadersView {
    HeadersView {
        request_id: u64_at(b, 1),
        target_tip_hash: bytes32_at(b, 9),
        common_ancestor_height: Height(u32_at(b, 41)),
        common_ancestor_hash: bytes32_at(b, 45),
        complete: b[81] == 1,
        tree_aux_schema: announced_schema(b),
        entries: Seq::new(entry_count(b), |i: int| entry_value(b, parse, i)),
    }
}

/// The first wrong field of a `Headers` payload.
pub open spec fn headers_error(
    c: CodecView,
    context: HeaderSyncDecodeContext,
    b: Seq<u8>,
    parse: ChainParseView,
) -> Option<HeaderSyncWireError> {
    let n = entry_count(b);
    first_error(
        headers_head_error(c, context, b),
        if !headers_match(b, parse.headers, n) {
            Some(HeaderSyncWireError::Serialization(SerializationError::Rejected))
        } else {
            first_error(
                hints_error(b, hints_start(b, parse), 0, n),
                first_error(
                    if announced_schema(b) == AuxSchema::V1 {
                        records_error(b, records_start(b, parse), 0, n, parse.accepted_roots)
                    } else {
                        None
                    },
                    semantics_error(c.network, headers_value(b, parse)),
                ),
            )
        },
    )
}

/// The length of an encoded `HeadersOutcome`.
pub open spec fn outcome_end() -> int {
    42
}

/// The first wrong field of a `HeadersOutcome` payload.
pub open spec fn outcome_error(b: Seq<u8>) -> Option<HeaderSyncWireError> {
    first_error(
        id_at_error(b, 1, "HeadersOutcome"),
        first_error(
            hash_error(b, 41),
            first_error(
                eof_error(b, outcome_end()),
                if outcome_of(b[41]) is None {
                    Some(HeaderSyncWireError::UnknownOutcome(b[41]))
                } else {
                    None
                },
            ),
        ),
    )
}

/// The `HeadersOutcome` that a payload holds.
pub open spec fn outcome_value(b: Seq<u8>) -> HeadersOutcomeView {
    HeadersOutcomeView {
        request_id: u64_at(b, 1),
        target_tip_hash: bytes32_at(b, 9),
        outcome: outcome_of(b[41])->0,
    }
}

/// Why a payload cannot be decoded.
pub open spec fn decode_error(
    c: CodecView,
    context: Option<HeaderSyncDecodeContext>,
    b: Seq<u8>,
    parse: ChainParseView,
) -> Option<HeaderSyncWireError> {
    first_error(
        size_error(c, b.len()),
        first_error(
            eof_error(b, 1),
            if b[0] == MSG_HS_STATUS {
                first_error(status_error(b), trailing_error(b, status_end()))
            } else if b[0] == MSG_HS_GET_HEADERS {
                first_error(get_headers_error(c, b), trailing_error(b, locators_end(b) + 5))
            } else if b[0] == MSG_HS_HEADERS {
                match context {
                    None => Some(HeaderSyncWireError::UnsolicitedHeaders),
                    Some(bounds) => first_error(
                        headers_error(c, bounds, b, parse),
                        trailing_error(b, headers_end(b, parse)),
                    ),
                }
            } else if b[0] == MSG_HS_HEADERS_OUTCOME {
                first_error(outcome_error(b), trailing_error(b, outcome_end()))
            } else {
                Some(HeaderSyncWireError::UnknownMessageType(b[0]))
            },
        ),
    )
}

/// The message that a decodable payload holds.
pub open spec fn decode_value(b: Seq<u8>, parse: ChainParseView) -> MessageView {
    if b[0] == MSG_HS_STATUS {
        MessageView::Status(status_value(b))
    } else if b[0] == MSG_HS_GET_HEADERS {
        MessageView::GetHeaders(get_headers_value(b))
    } else if b[0] == MSG_HS_HEADERS {
        MessageView::Headers(headers_value(b, parse))
    } else {
        MessageView::HeadersOutcome(outcome_value(b))
    }
}

/// Why a frame with a given message type, flags and payload cannot be decoded.
pub open spec fn decode_frame_error(
    c: CodecView,
    context: Option<HeaderSyncDecodeContext>,
    message_type: u16,
    flags: u16,
    payload: Seq<u8>,
    parse: ChainParseView,
) -> Option<HeaderSyncWireError> {
    let inner = discriminator(decode_value(payload, parse));
    if flags != 0 {
        Some(HeaderSyncWireError::UnsupportedFlags(flags))
    } else {
        first_error(
            decode_error(c, context, payload, parse),
            if message_type > 255 {
                Some(HeaderSyncWireError::UnknownFrameMessageType(message_type))
            } else if message_type != inner {
                Some(
                    HeaderSyncWireError::MismatchedFrameMessageType {
                        frame: message_type,
                        payload: inner,
                    },
                )
            } else {
                None
            },
        )
    }
}

/// Why a frame does not announce the request that it answers.
pub open spec fn peek_error(message_type: u16, payload: Seq<u8>) -> Option<HeaderSyncWireError> {
    if message_type != MSG_HS_HEADERS {
        Some(HeaderSyncWireError::UnknownFrameMessageType(message_type))
    } else {
        first_error(
            eof_error(payload, 1),
            first_error(
                if payload[0] != MSG_HS_HEADERS {
                    Some(
                        HeaderSyncWireError::MismatchedFrameMessageType {
                            frame: message_type,
                            payload: payload[0],
                        },
                    )
                } else {
                    None
                },
                id_at_error(payload, 1, "Headers"),
            ),
        )
    }
}

} // verus!
