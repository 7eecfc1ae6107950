//! Which messages the codec accepts, and that its errors name what is wrong.
use vstd::prelude::*;

use crate::chain::{Height, Network, HEIGHT_MAX};
use crate::header_sync::message::{
    AuxSchema, GetHeaders, HeaderSyncDecodeContext, HeaderSyncMessage, HeaderSyncWireError,
    Headers, HeadersOutcome, HeadersOutcomeCode, Status, TreeAuxRecordV1,
};
use crate::header_sync::wire_format;
use crate::header_sync::wire_format::{
    ChainParseView, CodecView, HeaderEntryView, HeadersView, MessageView, TreeAuxView,
};
use crate::header_sync::wire_laws;
use crate::layout;

verus! {

/// Whether every byte of a value is zero.
pub open spec fn all_zero(value: Seq<u8>) -> bool {
    forall|i: int| 0 <= i < value.len() ==> #[trigger] value[i] == 0
}

/// Whether an upgrade is configured and has activated at a height.
pub open spec fn active_at(activation: Option<Height>, height: Height) -> bool {
    activation matches Some(first) && height.0 >= first.0
}

/// Whether a tree-aux record may stand at a height: it says so, and what upgrades brought in is
/// zero where they are not active.
pub open spec fn record_fits(record: TreeAuxView, height: Height, network: Network) -> bool {
    &&& record.height == height
    &&& active_at(network.nu5_activation, height) || {
        &&& all_zero(record.orchard_root)
        &&& record.orchard_tx_count == 0
        &&& all_zero(record.auth_data_root)
    }
    &&& active_at(network.nu7_activation, height) || {
        &&& all_zero(record.ironwood_root)
        &&& record.ironwood_tx_count == 0
    }
}

pub(crate) proof fn lemma_record_fits(record: TreeAuxView, height: Height, network: Network)
    requires
        wire_laws::aux_sized(Some(record)),
    ensures
        wire_format::tree_aux_error(record, height, network) is None <==> record_fits(
            record,
            height,
            network,
        ),
{
    let zeros = Seq::new(32, |i: int| 0u8);
    if all_zero(record.orchard_root) {
        assert(record.orchard_root =~= zeros);
    }
    if all_zero(record.auth_data_root) {
        assert(record.auth_data_root =~= zeros);
    }
    if all_zero(record.ironwood_root) {
        assert(record.ironwood_root =~= zeros);
    }
}

/// A record is accepted at a height exactly if its height field is that height; if NU5 is not
/// active there, its Orchard root, Orchard count and authorizing-data root are zero; and if NU7 is
/// not active there, its Ironwood root and count are zero. Where an upgrade is active its fields
/// may be anything, and so may the Sapling fields everywhere.
pub proof fn record_is_accepted_exactly(
    record: TreeAuxRecordV1,
    height: Height,
    network: Network,
)
    ensures
        wire_format::tree_aux_error(record@, height, network) is None <==> {
            &&& record.height == height
            &&& active_at(network.nu5_activation, height) || {
                &&& forall|i: int| 0 <= i < 32 ==> #[trigger] record.orchard_root@[i] == 0
                &&& record.orchard_tx_count == 0
                &&& forall|i: int| 0 <= i < 32 ==> #[trigger] record.auth_data_root@[i] == 0
            }
            &&& active_at(network.nu7_activation, height) || {
                &&& forall|i: int| 0 <= i < 32 ==> #[trigger] record.ironwood_root@[i] == 0
                &&& record.ironwood_tx_count == 0
            }
        },
{
    lemma_record_fits(record@, height, network);
}

/// Whether field `k` of a record is zero or may be anything at a height, in the order Orchard root,
/// Orchard count, authorizing-data root, Ironwood root, Ironwood count.
pub open spec fn field_fits(record: TreeAuxView, height: Height, network: Network, k: int) -> bool {
    let nu5 = active_at(network.nu5_activation, height);
    let nu7 = active_at(network.nu7_activation, height);
    if k == 0 {
        nu5 || all_zero(record.orchard_root)
    } else if k == 1 {
        nu5 || record.orchard_tx_count == 0
    } else if k == 2 {
        nu5 || all_zero(record.auth_data_root)
    } else if k == 3 {
        nu7 || all_zero(record.ironwood_root)
    } else {
        nu7 || record.ironwood_tx_count == 0
    }
}

/// The name of field `k` of a record.
pub open spec fn field_name(k: int) -> &'static str {
    if k == 0 {
        "orchard_root"
    } else if k == 1 {
        "orchard_tx_count"
    } else if k == 2 {
        "auth_data_root"
    } else if k == 3 {
        "ironwood_root"
    } else {
        "ironwood_tx_count"
    }
}

/// The error of a record names what is wrong with it: another height, if it has one, and else the
/// first field that is not zero where the upgrade that brought it in is not active.
pub proof fn record_error_names_what_is_wrong(
    record: TreeAuxRecordV1,
    height: Height,
    network: Network,
)
    ensures
        ({
            let error = wire_format::tree_aux_error(record@, height, network);
            &&& record.height != height ==> error == Some(
                HeaderSyncWireError::TreeAuxHeightMismatch {
                    expected: height,
                    actual: record.height,
                },
            )
            &&& forall|k: int|
                record.height == height && 0 <= k < 5 && !#[trigger] field_fits(
                    record@,
                    height,
                    network,
                    k,
                ) && (forall|j: int|
                    0 <= j < k ==> #[trigger] field_fits(record@, height, network, j))
                    ==> error == Some(
                    HeaderSyncWireError::InvalidTreeAuxDefault { height, field: field_name(k) },
                )
        }),
{
    let zeros = Seq::new(32, |i: int| 0u8);
    if all_zero(record.orchard_root@) {
        assert(record.orchard_root@ =~= zeros);
    }
    if all_zero(record.auth_data_root@) {
        assert(record.auth_data_root@ =~= zeros);
    }
    if all_zero(record.ironwood_root@) {
        assert(record.ironwood_root@ =~= zeros);
    }
    let error = wire_format::tree_aux_error(record@, height, network);
    assert forall|k: int|
        record.height == height && 0 <= k < 5 && !#[trigger] field_fits(
            record@,
            height,
            network,
            k,
        ) && (forall|j: int| 0 <= j < k ==> #[trigger] field_fits(record@, height, network, j))
            implies error == Some(
        HeaderSyncWireError::InvalidTreeAuxDefault { height, field: field_name(k) },
    ) by {
        assert(k > 0 ==> field_fits(record@, height, network, 0));
        assert(k > 1 ==> field_fits(record@, height, network, 1));
        assert(k > 2 ==> field_fits(record@, height, network, 2));
        assert(k > 3 ==> field_fits(record@, height, network, 3));
    }
}

/// A `Status` can be encoded exactly if its three heights are supported and its 123 bytes are
/// within the limit.
pub proof fn status_is_encodable_exactly(c: CodecView, status: Status)
    ensures
        wire_format::message_bytes(MessageView::Status(status@)).len() == 123,
        wire_format::encode_error(c, MessageView::Status(status@)) is None <==> {
            &&& status.work_anchor_height.0 <= HEIGHT_MAX
            &&& status.selected_tip_height.0 <= HEIGHT_MAX
            &&& status.oldest_retained_height.0 <= HEIGHT_MAX
            &&& c.message_byte_limit >= 123
        },
{
    wire_laws::lemma_message_sizes(HeaderSyncMessage::Status(status));
    wire_laws::lemma_status_starts(status@);
    layout::lemma_flatten_len(wire_format::status_parts(status@));
}

/// A `GetHeaders` can be encoded exactly if it has an ID, one to thirteen locator hashes, a header
/// count between one and the codec's cap, and a schema that is none or is advertised by its bit,
/// and its bytes are within the limit.
pub proof fn get_headers_is_encodable_exactly(c: CodecView, request: GetHeaders)
    ensures
        wire_format::message_bytes(MessageView::GetHeaders(request@)).len() == 47 + 32
            * request.locator_hashes@.len(),
        wire_format::encode_error(c, MessageView::GetHeaders(request@)) is None <==> {
            &&& request.request_id != 0
            &&& 1 <= request.locator_hashes@.len() <= 13
            &&& 1 <= request.max_header_count <= c.header_count_limit
            &&& request.tree_aux_schema == AuxSchema::NoAux || c.tree_aux_schema_mask % 2 == 1
            &&& c.message_byte_limit >= 47 + 32 * request.locator_hashes@.len()
        },
{
    let mask = c.tree_aux_schema_mask;
    assert(mask & 1 == mask % 2) by (bit_vector);
    wire_laws::lemma_message_sizes(HeaderSyncMessage::GetHeaders(request));
    wire_laws::lemma_get_headers_starts(request@);
    layout::lemma_flatten_len(wire_format::get_headers_parts(request@));
}

/// A `HeadersOutcome` can be encoded exactly if it has an ID and its 42 bytes are within the
/// limit.
pub proof fn outcome_is_encodable_exactly(c: CodecView, outcome: HeadersOutcome)
    ensures
        wire_format::message_bytes(MessageView::HeadersOutcome(outcome@)).len() == 42,
        wire_format::encode_error(c, MessageView::HeadersOutcome(outcome@)) is None <==> {
            &&& outcome.request_id != 0
            &&& c.message_byte_limit >= 42
        },
{
    wire_laws::lemma_message_sizes(HeaderSyncMessage::HeadersOutcome(outcome));
    wire_laws::lemma_outcome_starts(outcome@);
    layout::lemma_flatten_len(wire_format::outcome_parts(outcome@));
}

/// Whether an entry may stand at a place of a response: it extends the header before it, or the
/// common ancestor, its hint is at most two million bytes, its height is supported, and it has a
/// record that fits that height exactly if the schema has records.
pub open spec fn entry_fits(network: Network, r: HeadersView, i: int) -> bool {
    let entry = r.entries[i];
    let height = r.common_ancestor_height.0 + 1 + i;
    &&& entry.header.previous_block_hash == (if i == 0 {
        r.common_ancestor_hash
    } else {
        r.entries[i - 1].header.hash
    })
    &&& entry.body_size <= 2_000_000
    &&& height <= HEIGHT_MAX
    &&& match entry.tree_aux {
        Some(record) => r.tree_aux_schema == AuxSchema::V1 && record_fits(
            record,
            Height(height as u32),
            network,
        ),
        None => r.tree_aux_schema == AuxSchema::NoAux,
    }
}

/// The bytes that the headers of a response take.
pub open spec fn header_bytes(entries: Seq<HeaderEntryView>) -> nat
    decreases entries.len(),
{
    if entries.len() == 0 {
        0
    } else {
        header_bytes(entries.drop_last()) + entries.last().header.encoded.len()
    }
}

/// The bytes that a response takes.
pub open spec fn response_bytes(r: HeadersView) -> nat {
    83 + header_bytes(r.entries) + r.entries.len() * (if r.tree_aux_schema == AuxSchema::V1 {
        160nat
    } else {
        4nat
    })
}

/// Whether a response keeps all rules of its kind.
pub open spec fn response_fits(c: CodecView, r: HeadersView) -> bool {
    let n = r.entries.len();
    &&& r.request_id != 0
    &&& n <= c.header_count_limit
    &&& r.common_ancestor_height.0 <= HEIGHT_MAX
    &&& n == 0 <==> r.complete && r.common_ancestor_hash == r.target_tip_hash
    &&& n > 0 && r.complete ==> r.entries[n - 1].header.hash == r.target_tip_hash
    &&& forall|i: int| 0 <= i < n ==> #[trigger] entry_fits(c.network, r, i)
}

#[verifier::spinoff_prover]
#[verifier::rlimit(50)]
pub(crate) proof fn lemma_entries_fit(c: CodecView, r: HeadersView, i: int)
    requires
        wire_laws::sized(r),
        0 <= i <= r.entries.len() <= u32::MAX,
        forall|j: int| i <= j < r.entries.len() ==> #[trigger] entry_fits(c.network, r, j),
    ensures
        wire_format::entries_error(c.network, r, i) is None,
    decreases r.entries.len() - i,
{
    if i < r.entries.len() {
        let entry = r.entries[i];
        assert(entry_fits(c.network, r, i));
        assert(wire_laws::aux_sized(entry.tree_aux));
        if let Some(record) = entry.tree_aux {
            lemma_record_fits(
                record,
                Height((r.common_ancestor_height.0 + 1 + i) as u32),
                c.network,
            );
        }
        lemma_entries_fit(c, r, i + 1);
    }
}

proof fn lemma_header_bytes(entries: Seq<HeaderEntryView>)
    ensures
        header_bytes(entries) == layout::start(
            wire_format::header_parts(entries),
            entries.len(),
        ),
    decreases entries.len(),
{
    if entries.len() > 0 {
        let init = entries.drop_last();
        lemma_header_bytes(init);
        layout::lemma_start_prefix(
            wire_format::header_parts(init),
            wire_format::header_parts(entries),
            init.len(),
        );
    }
}

#[verifier::spinoff_prover]
#[verifier::rlimit(50)]
pub(crate) proof fn lemma_response_fits(c: CodecView, r: HeadersView)
    requires
        wire_laws::sized(r),
    ensures
        wire_format::headers_encode_error(c, r) is None <==> response_fits(c, r),
        response_fits(c, r) ==> wire_format::headers_parts(r).flatten().len() == response_bytes(r),
{
    let n = r.entries.len();
    if wire_format::headers_encode_error(c, r) is None {
        assert forall|i: int| 0 <= i < n implies #[trigger] entry_fits(c.network, r, i) by {
            let entry = r.entries[i];
            wire_format::lemma_entries_ok(c.network, r, 0, i);
            assert(entry.header.previous_block_hash == wire_format::parent_hash(r, i));
            assert(wire_laws::aux_sized(entry.tree_aux));
            if let Some(record) = entry.tree_aux {
                lemma_record_fits(
                    record,
                    Height((r.common_ancestor_height.0 + 1 + i) as u32),
                    c.network,
                );
            }
        }
        if n > 0 && r.complete {
            assert(r.entries.last() == r.entries[n - 1]);
        }
    }
    if response_fits(c, r) {
        assert forall|i: int| 0 <= i < n implies (
        #[trigger] r.entries[i]).header.previous_block_hash == wire_format::parent_hash(r, i) by {
            assert(entry_fits(c.network, r, i));
        }
        lemma_entries_fit(c, r, 0);
        wire_laws::lemma_headers_length(c, r);
        lemma_header_bytes(r.entries);
    }
}

/// A `Headers` can be encoded exactly if it has an ID and at most as many entries as the codec's
/// cap; its common ancestor's height is supported; it is empty exactly if it is complete and its
/// target is the ancestor; a complete run ends at the target; every entry extends the one before
/// it, has a bounded hint, a supported height, and a record that fits this height if the schema
/// has records; and its bytes are within the limit.
pub proof fn headers_is_encodable_exactly(c: CodecView, response: Headers)
    ensures
        wire_format::encode_error(c, MessageView::Headers(response@)) is None <==> response_fits(
            c,
            response@,
        ) && response_bytes(response@) <= c.message_byte_limit,
{
    wire_laws::lemma_message_sizes(HeaderSyncMessage::Headers(response));
    lemma_response_fits(c, response@);
}

/// A response that keeps all rules is accepted by the receiver that asked for it, and is what the
/// sender meant: no valid response is turned away.
#[verifier::spinoff_prover]
#[verifier::rlimit(50)]
pub proof fn valid_response_is_accepted(
    c: CodecView,
    context: HeaderSyncDecodeContext,
    parse: ChainParseView,
    response: Headers,
)
    requires
        response_fits(c, response@),
        response_bytes(response@) <= c.message_byte_limit,
        response@.entries.len() <= context.max_header_count,
        response.tree_aux_schema == AuxSchema::NoAux || response.tree_aux_schema
            == context.requested_tree_aux_schema,
        wire_laws::parses(parse, response@),
        wire_laws::full_headers(c.network, response@),
    ensures
        ({
            let b = wire_format::message_bytes(MessageView::Headers(response@));
            &&& wire_format::decode_error(c, Some(context), b, parse) is None
            &&& wire_format::decode_value(b, parse) == MessageView::Headers(response@)
        }),
{
    headers_is_encodable_exactly(c, response);
    wire_laws::encoded_message_decodes_to_itself(
        c,
        Some(context),
        parse,
        HeaderSyncMessage::Headers(response),
    );
}

/// The hashes and roots of a response that fills its payload are 32 bytes long.
#[verifier::spinoff_prover]
#[verifier::rlimit(50)]
proof fn lemma_value_is_sized(b: Seq<u8>, parse: ChainParseView)
    requires
        83 <= b.len(),
        b.len() == wire_format::headers_end(b, parse),
    ensures
        wire_laws::sized(wire_format::headers_value(b, parse)),
{
    let r = wire_format::headers_value(b, parse);
    assert forall|i: int| 0 <= i < r.entries.len() implies wire_laws::aux_sized(
        #[trigger] r.entries[i].tree_aux,
    ) by {
        assert(r.entries[i] == wire_format::entry_value(b, parse, i));
    }
}

/// Whatever the codec decodes keeps all rules of its kind: an accepted response is one that could
/// have been sent, of at most as many entries as were asked for and of a schema that was.
#[verifier::spinoff_prover]
#[verifier::rlimit(50)]
pub proof fn accepted_response_is_valid(
    c: CodecView,
    context: HeaderSyncDecodeContext,
    b: Seq<u8>,
    parse: ChainParseView,
)
    requires
        b.len() > 0,
        b[0] == 3,
        wire_format::decode_error(c, Some(context), b, parse) is None,
    ensures
        ({
            let r = wire_format::headers_value(b, parse);
            &&& response_fits(c, r)
            &&& r.entries.len() <= context.max_header_count
            &&& r.tree_aux_schema == AuxSchema::NoAux || r.tree_aux_schema
                == context.requested_tree_aux_schema
            &&& b.len() == response_bytes(r) <= c.message_byte_limit
        }),
{
    let r = wire_format::headers_value(b, parse);
    wire_laws::decoded_payload_is_canonical(c, Some(context), b, parse);
    wire_laws::lemma_decoded_response(c, context, b, parse);
    lemma_value_is_sized(b, parse);
    lemma_response_fits(c, r);
}

/// Selectors and outcomes go through the wire unchanged, and no other byte stands for one: 0 and 1
/// for the schemas, 1 to 4 for the outcomes. Bit `n - 1` advertises schema `n`.
pub proof fn wire_values_are_unique(
    schema: AuxSchema,
    other_schema: AuxSchema,
    outcome: HeadersOutcomeCode,
    other_outcome: HeadersOutcomeCode,
    value: u8,
)
    ensures
        wire_format::schema_of(wire_format::schema_byte(schema)) == Some(schema),
        wire_format::schema_byte(schema) == wire_format::schema_byte(other_schema) ==> schema
            == other_schema,
        wire_format::schema_byte(AuxSchema::NoAux) == 0,
        wire_format::schema_of(value) is Some <==> value <= 1,
        wire_format::outcome_of(wire_format::outcome_byte(outcome)) == Some(outcome),
        wire_format::outcome_byte(outcome) == wire_format::outcome_byte(other_outcome) ==> outcome
            == other_outcome,
        wire_format::outcome_of(value) is Some <==> 1 <= value <= 4,
        schema == AuxSchema::NoAux ==> wire_format::mask_bit(schema) == 0,
        schema != AuxSchema::NoAux ==> wire_format::mask_bit(schema) == 1u32 << (
        wire_format::schema_byte(schema) - 1),
{
    assert(1u32 << 0u32 == 1) by (bit_vector);
}

} // verus!
