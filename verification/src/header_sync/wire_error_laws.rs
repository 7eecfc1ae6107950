//! That the errors of the codec name what is wrong with a message or a payload.
use vstd::prelude::*;

use crate::chain::{Height, Network, HEIGHT_MAX};
use crate::frame;
use crate::header_sync::message::{
    AuxSchema, HeaderSyncDecodeContext, HeaderSyncMessage, HeaderSyncWireError, Headers,
    WireIoError,
};
use crate::header_sync::wire_format;
use crate::header_sync::wire_format::{ChainParseView, CodecView, HeadersView, MessageView};
use crate::header_sync::wire_laws;
use crate::header_sync::wire_rule_laws;
use crate::le;

verus! {

/// Numbers are written least significant byte first: the value of bytes is that of all but the
/// last, and the last counts 256 times as much as a byte before it would.
pub proof fn last_byte_counts_most(s: Seq<u8>)
    requires
        s.len() > 0,
    ensures
        le::value(s) == le::value(s.drop_last()) + s.last() * le::capacity(
            (s.len() - 1) as nat,
        ),
        le::capacity(s.len()) == 256 * le::capacity((s.len() - 1) as nat),
        le::capacity(0) == 1,
        s.len() == 1 ==> le::value(s) == s[0],
    decreases s.len(),
{
    if s.len() > 1 {
        let rest = s.drop_first();
        last_byte_counts_most(rest);
        assert(s.drop_last().drop_first() =~= rest.drop_last());
        assert(rest.last() == s.last());
        let weight = le::capacity((s.len() - 2) as nat);
        assert(256 * (s.last() * weight) == s.last() * (256 * weight)) by (nonlinear_arith);
    } else {
        assert(s.drop_first() =~= Seq::empty());
        assert(s.drop_last() =~= Seq::empty());
        assert(s[0] * 1 == s[0]);
    }
}

/// Four bytes, least significant first.
proof fn lemma_four_bytes(s: Seq<u8>)
    requires
        s.len() == 4,
    ensures
        le::value(s) == s[0] + 0x100 * s[1] + 0x1_0000 * s[2] + 0x100_0000 * s[3],
{
    reveal_with_fuel(le::value, 5);
}

/// Bytes are one frame exactly if the eight bytes of a frame header are there, and the four last
/// of them announce, least significant first, how many bytes follow, which is within the limit.
pub proof fn frames_are_accepted_exactly(bytes: Seq<u8>, max: u32)
    ensures
        frame::frame_error(bytes, max) is None <==> {
            let announced = bytes[4] + 0x100 * bytes[5] + 0x1_0000 * bytes[6] + 0x100_0000
                * bytes[7];
            &&& bytes.len() >= 8
            &&& announced == bytes.len() - 8
            &&& announced <= max
        },
{
    if bytes.len() >= 8 {
        lemma_four_bytes(bytes.subrange(4, 8));
    }
}

/// A frame is accepted exactly if it has no flags, its payload is accepted, and its message type
/// is the first byte of the payload.
#[verifier::spinoff_prover]
#[verifier::rlimit(50)]
pub proof fn framed_message_is_accepted_exactly(
    c: CodecView,
    context: Option<HeaderSyncDecodeContext>,
    message_type: u16,
    flags: u16,
    payload: Seq<u8>,
    parse: ChainParseView,
)
    ensures
        wire_format::decode_frame_error(c, context, message_type, flags, payload, parse) is None
            <==> {
            &&& flags == 0
            &&& wire_format::decode_error(c, context, payload, parse) is None
            &&& message_type == payload[0]
        },
{
}

proof fn lemma_zero_id(s: Seq<u8>)
    ensures
        le::value(s) == 0 <==> wire_rule_laws::all_zero(s),
    decreases s.len(),
{
    if s.len() > 0 {
        let rest = s.drop_first();
        lemma_zero_id(rest);
        if le::value(s) == 0 {
            assert forall|i: int| 0 <= i < s.len() implies #[trigger] s[i] == 0 by {
                if i > 0 {
                    assert(rest[i - 1] == s[i]);
                }
            }
        }
        if wire_rule_laws::all_zero(s) {
            assert forall|i: int| 0 <= i < rest.len() implies #[trigger] rest[i] == 0 by {
                assert(rest[i] == s[i + 1]);
            }
        }
    }
}

/// A frame announces the request that it answers exactly if its message type and its first byte
/// are those of a `Headers` and an ID follows that is not zero.
pub proof fn request_id_is_peeked_exactly(message_type: u16, payload: Seq<u8>)
    ensures
        wire_format::peek_error(message_type, payload) is None <==> {
            &&& message_type == 3
            &&& payload.len() >= 9
            &&& payload[0] == 3
            &&& !wire_rule_laws::all_zero(payload.subrange(1, 9))
        },
{
    if payload.len() >= 9 {
        lemma_zero_id(payload.subrange(1, 9));
        le::lemma_value_bound(payload.subrange(1, 9));
        le::lemma_capacities();
    }
}

/// A payload within the limit that starts with no known message type is refused for it, and an
/// empty payload for its length.
pub proof fn unknown_messages_are_refused(
    c: CodecView,
    context: Option<HeaderSyncDecodeContext>,
    b: Seq<u8>,
    parse: ChainParseView,
)
    ensures
        0 < b.len() <= c.message_byte_limit && !(1 <= b[0] <= 4) ==> wire_format::decode_error(
            c,
            context,
            b,
            parse,
        ) == Some(HeaderSyncWireError::UnknownMessageType(b[0])),
        b.len() == 0 ==> wire_format::decode_error(c, context, b, parse) == Some(
            HeaderSyncWireError::Io(WireIoError::UnexpectedEof),
        ),
{
}

/// A payload beyond the limit is refused for its size, whatever it holds; one within the limit
/// never is.
#[verifier::spinoff_prover]
#[verifier::rlimit(50)]
pub proof fn oversized_payloads_are_refused(
    c: CodecView,
    context: Option<HeaderSyncDecodeContext>,
    b: Seq<u8>,
    parse: ChainParseView,
)
    requires
        b.len() <= usize::MAX,
    ensures
        wire_format::decode_error(c, context, b, parse) matches Some(
            HeaderSyncWireError::OversizedPayload { actual, max },
        ) ==> actual == b.len() && max == c.message_byte_limit && actual > max,
        b.len() > c.message_byte_limit ==> wire_format::decode_error(c, context, b, parse) matches
            Some(HeaderSyncWireError::OversizedPayload { .. }),
{
    if b.len() > 0 && b[0] == 3 && context is Some {
        lemma_headers_never_oversized(c, context->0, b, parse);
    }
}

proof fn lemma_hints_errors(b: Seq<u8>, at: int, i: nat, n: nat)
    ensures
        match wire_format::hints_error(b, at, i, n) {
            Some(HeaderSyncWireError::Io(_)) => true,
            Some(HeaderSyncWireError::BodySizeHintOutOfRange(hint)) => hint > 2_000_000,
            Some(_) => false,
            None => true,
        },
    decreases n - i,
{
    if i < n {
        lemma_hints_errors(b, at, i + 1, n);
    }
}

proof fn lemma_records_errors(b: Seq<u8>, at: int, i: nat, n: nat, accepted_roots: nat)
    ensures
        match wire_format::records_error(b, at, i, n, accepted_roots) {
            Some(HeaderSyncWireError::Io(_)) => true,
            Some(HeaderSyncWireError::Serialization(_)) => true,
            Some(HeaderSyncWireError::HeightOutOfRange(height)) => height > HEIGHT_MAX,
            Some(_) => false,
            None => true,
        },
    decreases n - i,
{
    if i < n {
        lemma_records_errors(b, at, i + 1, n, accepted_roots);
    }
}

/// Whether an error of the entries of a response is true of one of them.
pub open spec fn entry_error_is_true(
    network: Network,
    r: HeadersView,
    i: int,
    error: HeaderSyncWireError,
) -> bool {
    let entry = r.entries[i];
    let height = r.common_ancestor_height.0 + 1 + i;
    match error {
        HeaderSyncWireError::BodySizeHintOutOfRange(hint) => hint == entry.body_size && hint
            > 2_000_000,
        HeaderSyncWireError::NumericOverflow(_) => height > HEIGHT_MAX,
        HeaderSyncWireError::TreeAuxHeightMismatch { expected, actual } => expected.0 == height
            && entry.tree_aux is Some && actual == entry.tree_aux->0.height && actual != expected,
        HeaderSyncWireError::InvalidTreeAuxDefault { height: at, .. } => at.0 == height
            && entry.tree_aux is Some && !wire_rule_laws::record_fits(
            entry.tree_aux->0,
            Height(height as u32),
            network,
        ),
        HeaderSyncWireError::ParallelLengthMismatch { .. } => entry.tree_aux is Some
            != (r.tree_aux_schema == AuxSchema::V1),
        _ => false,
    }
}

#[verifier::spinoff_prover]
#[verifier::rlimit(50)]
proof fn lemma_entries_errors(network: Network, r: HeadersView, i: int) -> (at: int)
    requires
        0 <= i,
    ensures
        wire_format::entries_error(network, r, i) matches Some(error) ==> {
            &&& i <= at < r.entries.len()
            &&& wire_laws::sized(r) ==> entry_error_is_true(network, r, at, error)
            &&& !(error is OversizedPayload)
        },
    decreases r.entries.len() - i,
{
    if i >= r.entries.len() {
        i
    } else if wire_format::entry_error(network, r, i) is Some {
        if let Some(record) = r.entries[i].tree_aux {
            let zeros = Seq::new(32, |k: int| 0u8);
            assert(wire_laws::sized(r) ==> wire_laws::aux_sized(r.entries[i].tree_aux));
            if wire_rule_laws::all_zero(record.orchard_root) && record.orchard_root.len() == 32 {
                assert(record.orchard_root =~= zeros);
            }
            if wire_rule_laws::all_zero(record.auth_data_root) && record.auth_data_root.len()
                == 32 {
                assert(record.auth_data_root =~= zeros);
            }
            if wire_rule_laws::all_zero(record.ironwood_root) && record.ironwood_root.len() == 32 {
                assert(record.ironwood_root =~= zeros);
            }
        }
        i
    } else {
        lemma_entries_errors(network, r, i + 1)
    }
}

#[verifier::spinoff_prover]
#[verifier::rlimit(50)]
proof fn lemma_headers_never_oversized(
    c: CodecView,
    context: HeaderSyncDecodeContext,
    b: Seq<u8>,
    parse: ChainParseView,
)
    ensures
        !(wire_format::headers_error(c, context, b, parse) matches Some(
            HeaderSyncWireError::OversizedPayload { .. },
        )),
{
    let n = wire_format::entry_count(b);
    lemma_hints_errors(b, wire_format::hints_start(b, parse), 0, n);
    lemma_records_errors(b, wire_format::records_start(b, parse), 0, n, parse.accepted_roots);
    let at = lemma_entries_errors(c.network, wire_format::headers_value(b, parse), 0);
}

/// The error of a response names what is wrong with it: no ID, too many entries, a completion that
/// is not one, a break in the chain, a height that is not supported, too many bytes, or a hint, a
/// height or a record that one of its entries must not have.
#[verifier::spinoff_prover]
#[verifier::rlimit(50)]
pub proof fn response_error_names_what_is_wrong(
    c: CodecView,
    response: Headers,
    error: HeaderSyncWireError,
)
    requires
        wire_format::encode_error(c, MessageView::Headers(response@)) == Some(error),
        wire_rule_laws::response_bytes(response@) <= usize::MAX,
    ensures
        ({
            let r = response@;
            let n = r.entries.len();
            match error {
                HeaderSyncWireError::ZeroRequestId(_) => r.request_id == 0,
                HeaderSyncWireError::CountOutOfRange { actual, max, .. } => actual == n && max
                    == c.header_count_limit && actual > max,
                HeaderSyncWireError::InvalidHeadersCompletion => {
                    ||| (n == 0) != (r.complete && r.common_ancestor_hash == r.target_tip_hash)
                    ||| n > 0 && r.complete && r.entries[n - 1].header.hash != r.target_tip_hash
                },
                HeaderSyncWireError::NonContiguousHeaders => exists|i: int|
                    0 <= i < n && (#[trigger] r.entries[i]).header.previous_block_hash != (if i
                        == 0 {
                        r.common_ancestor_hash
                    } else {
                        r.entries[i - 1].header.hash
                    }),
                HeaderSyncWireError::HeightOutOfRange(height) => height
                    == r.common_ancestor_height.0 && height > HEIGHT_MAX,
                HeaderSyncWireError::OversizedPayload { actual, max } => actual
                    == wire_rule_laws::response_bytes(r) && max == c.message_byte_limit && actual
                    > max,
                _ => exists|i: int|
                    0 <= i < n && #[trigger] entry_error_is_true(c.network, r, i, error),
            }
        }),
{
    let r = response@;
    wire_laws::lemma_message_sizes(HeaderSyncMessage::Headers(response));
    wire_rule_laws::lemma_response_fits(c, r);
    let at = lemma_entries_errors(c.network, r, 0);
    assert(response.entries@.len() == r.entries.len());
}

/// The errors of a response come in order: its ID, its count, whether it is complete where it is
/// empty, whether it links up, whether a complete run ends at the target, its entries from the
/// first on, the height of its ancestor, and its size.
#[verifier::spinoff_prover]
#[verifier::rlimit(50)]
pub proof fn response_errors_come_in_order(c: CodecView, response: Headers, i: int)
    ensures
        ({
            let r = response@;
            let n = r.entries.len();
            let error = wire_format::encode_error(c, MessageView::Headers(r));
            let few = r.request_id != 0 && n <= c.header_count_limit;
            let empty_ok = (n == 0) == (r.complete && r.common_ancestor_hash == r.target_tip_hash);
            let linked = forall|k: int| 0 <= k < n ==> #[trigger] links(r, k);
            let ends = n > 0 && r.complete ==> r.entries[n - 1].header.hash == r.target_tip_hash;
            &&& r.request_id == 0 ==> error == Some(HeaderSyncWireError::ZeroRequestId("Headers"))
            &&& r.request_id != 0 && n > c.header_count_limit ==> error == Some(
                HeaderSyncWireError::CountOutOfRange {
                    field: "header",
                    actual: n as usize,
                    max: c.header_count_limit as usize,
                },
            )
            &&& few && !empty_ok ==> error == Some(HeaderSyncWireError::InvalidHeadersCompletion)
            &&& few && empty_ok && !linked ==> error == Some(
                HeaderSyncWireError::NonContiguousHeaders,
            )
            &&& few && empty_ok && linked && !ends ==> error == Some(
                HeaderSyncWireError::InvalidHeadersCompletion,
            )
            &&& few && empty_ok && linked && ends && 0 <= i < n && !wire_rule_laws::entry_fits(
                c.network,
                r,
                i,
            ) && (forall|k: int|
                0 <= k < i ==> #[trigger] wire_rule_laws::entry_fits(c.network, r, k))
                ==> error is Some && entry_error_is_true(c.network, r, i, error->0)
            &&& few && empty_ok && linked && ends && (forall|k: int|
                0 <= k < n ==> #[trigger] wire_rule_laws::entry_fits(c.network, r, k))
                && r.common_ancestor_height.0 > HEIGHT_MAX ==> error == Some(
                HeaderSyncWireError::HeightOutOfRange(r.common_ancestor_height.0),
            )
        }),
{
    let r = response@;
    let n = r.entries.len();
    wire_laws::lemma_message_sizes(HeaderSyncMessage::Headers(response));
    assert(response.entries@.len() == n);
    if wire_format::contiguous(r) {
        assert forall|k: int| 0 <= k < n implies #[trigger] links(r, k) by {
            assert(r.entries[k].header.previous_block_hash == wire_format::parent_hash(r, k));
        }
    }
    if forall|k: int| 0 <= k < n ==> #[trigger] links(r, k) {
        assert forall|k: int| 0 <= k < n implies (
        #[trigger] r.entries[k]).header.previous_block_hash == wire_format::parent_hash(r, k) by {
            assert(links(r, k));
        }
    }
    if r.request_id != 0 && n <= c.header_count_limit {
        if 0 <= i < n && !wire_rule_laws::entry_fits(c.network, r, i) && (forall|k: int|
            0 <= k < i ==> #[trigger] wire_rule_laws::entry_fits(c.network, r, k)) && links(r, i) {
            lemma_first_wrong_entry(c, r, 0, i);
        }
        if forall|k: int| 0 <= k < n ==> #[trigger] wire_rule_laws::entry_fits(c.network, r, k) {
            wire_rule_laws::lemma_entries_fit(c, r, 0);
        }
    }
}

/// Whether a header of a response extends the one before it, or the first the ancestor.
pub open spec fn links(r: HeadersView, i: int) -> bool {
    r.entries[i].header.previous_block_hash == (if i == 0 {
        r.common_ancestor_hash
    } else {
        r.entries[i - 1].header.hash
    })
}

proof fn lemma_first_wrong_entry(c: CodecView, r: HeadersView, from: int, i: int)
    requires
        wire_laws::sized(r),
        0 <= from <= i < r.entries.len() <= u32::MAX,
        links(r, i),
        !wire_rule_laws::entry_fits(c.network, r, i),
        forall|k: int| 0 <= k < i ==> #[trigger] wire_rule_laws::entry_fits(c.network, r, k),
    ensures
        wire_format::entries_error(c.network, r, from) matches Some(error) && entry_error_is_true(
            c.network,
            r,
            i,
            error,
        ),
    decreases i - from,
{
    let entry = r.entries[from];
    let height = Height((r.common_ancestor_height.0 + 1 + from) as u32);
    assert(wire_laws::aux_sized(entry.tree_aux));
    if let Some(record) = entry.tree_aux {
        wire_rule_laws::lemma_record_fits(record, height, c.network);
    }
    if from < i {
        assert(wire_rule_laws::entry_fits(c.network, r, from));
        lemma_first_wrong_entry(c, r, from + 1, i);
    }
}

/// A `Headers` payload is refused for its head before its vectors are looked at: for an ID of
/// zero, a completion byte or a schema byte that is none, more entries than were asked for or the
/// codec takes, or a schema that was not asked for.
#[verifier::spinoff_prover]
#[verifier::rlimit(50)]
pub proof fn heads_are_checked_before_vectors(
    c: CodecView,
    context: HeaderSyncDecodeContext,
    b: Seq<u8>,
    parse: ChainParseView,
)
    requires
        83 <= b.len() <= c.message_byte_limit,
        b[0] == 3,
    ensures
        ({
            let error = wire_format::decode_error(c, Some(context), b, parse);
            let id = !wire_rule_laws::all_zero(b.subrange(1, 9));
            let height = le::value(b.subrange(41, 45));
            let count = le::value(b.subrange(77, 81));
            let cap = if context.max_header_count <= c.header_count_limit {
                context.max_header_count
            } else {
                c.header_count_limit
            };
            &&& !id ==> error == Some(HeaderSyncWireError::ZeroRequestId("Headers"))
            &&& id && height > HEIGHT_MAX ==> error == Some(
                HeaderSyncWireError::HeightOutOfRange(height as u32),
            )
            &&& id && height <= HEIGHT_MAX && b[81] > 1 ==> error == Some(
                HeaderSyncWireError::InvalidBool { field: "complete", value: b[81] },
            )
            &&& id && height <= HEIGHT_MAX && b[81] <= 1 && b[82] > 1 ==> error == Some(
                HeaderSyncWireError::UnsupportedTreeAuxSchema(b[82]),
            )
            &&& id && height <= HEIGHT_MAX && b[81] <= 1 && b[82] <= 1 && count > cap ==> error
                == Some(
                HeaderSyncWireError::CountOutOfRange {
                    field: "header",
                    actual: count as usize,
                    max: cap as usize,
                },
            )
            &&& id && height <= HEIGHT_MAX && b[81] <= 1 && b[82] == 1 && count <= cap
                && context.requested_tree_aux_schema == AuxSchema::NoAux ==> error == Some(
                HeaderSyncWireError::ResponseTreeAuxSchemaMismatch { requested: 0, actual: 1 },
            )
        }),
{
    lemma_zero_id(b.subrange(1, 9));
    le::lemma_value_bound(b.subrange(1, 9));
    le::lemma_value_bound(b.subrange(41, 45));
    le::lemma_value_bound(b.subrange(77, 81));
    le::lemma_capacities();
}

/// A `GetHeaders` or `HeadersOutcome` payload with an ID of zero is refused for it, a `GetHeaders`
/// with no or more than thirteen locators for their number, and a `HeadersOutcome` with an unknown
/// outcome for that.
#[verifier::spinoff_prover]
#[verifier::rlimit(50)]
pub proof fn request_heads_are_checked_first(
    c: CodecView,
    context: Option<HeaderSyncDecodeContext>,
    b: Seq<u8>,
    parse: ChainParseView,
)
    requires
        42 <= b.len() <= c.message_byte_limit,
    ensures
        ({
            let error = wire_format::decode_error(c, context, b, parse);
            let id = !wire_rule_laws::all_zero(b.subrange(1, 9));
            &&& b[0] == 2 && !id ==> error == Some(
                HeaderSyncWireError::ZeroRequestId("GetHeaders"),
            )
            &&& b[0] == 4 && !id ==> error == Some(
                HeaderSyncWireError::ZeroRequestId("HeadersOutcome"),
            )
            &&& b[0] == 2 && id && !(1 <= b[41] <= 13) ==> error == Some(
                HeaderSyncWireError::CountOutOfRange {
                    field: "locator",
                    actual: b[41] as usize,
                    max: 13,
                },
            )
            &&& b[0] == 4 && id && !(1 <= b[41] <= 4) ==> error == Some(
                HeaderSyncWireError::UnknownOutcome(b[41]),
            )
        }),
{
    lemma_zero_id(b.subrange(1, 9));
    le::lemma_value_bound(b.subrange(1, 9));
    le::lemma_capacities();
}

} // verus!
