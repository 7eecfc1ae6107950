//! A payload ends where its message does: none can be cut short or extended.
use vstd::prelude::*;

use crate::header_sync::message::{
    AuxSchema, HeaderSyncDecodeContext, HeaderSyncWireError, MSG_HS_GET_HEADERS, MSG_HS_HEADERS,
    MSG_HS_STATUS,
};
use crate::header_sync::wire_format;
use crate::header_sync::wire_format::{ChainParseView, CodecView};
use crate::layout;

verus! {

/// Where the message of a payload ends.
spec fn message_end(b: Seq<u8>, parse: ChainParseView) -> int {
    if b[0] == MSG_HS_STATUS {
        wire_format::status_end()
    } else if b[0] == MSG_HS_GET_HEADERS {
        wire_format::locators_end(b) + 5
    } else if b[0] == MSG_HS_HEADERS {
        wire_format::headers_end(b, parse)
    } else {
        wire_format::outcome_end()
    }
}

/// Bytes that follow do not change what stands before them.
proof fn lemma_same_bytes(b: Seq<u8>, e: Seq<u8>, from: int, to: int)
    requires
        0 <= from <= to <= b.len(),
    ensures
        (b + e).subrange(from, to) == b.subrange(from, to),
{
    assert((b + e).subrange(from, to) =~= b.subrange(from, to));
}

/// Bytes that follow do not change the fields of a payload before its vectors.
proof fn lemma_same_fields(b: Seq<u8>, e: Seq<u8>)
    ensures
        forall|at: int|
            0 <= at && at + 2 <= b.len() ==> #[trigger] wire_format::u16_at(b + e, at)
                == wire_format::u16_at(b, at),
        forall|at: int|
            0 <= at && at + 4 <= b.len() ==> #[trigger] wire_format::u32_at(b + e, at)
                == wire_format::u32_at(b, at),
        forall|at: int|
            0 <= at && at + 8 <= b.len() ==> #[trigger] wire_format::u64_at(b + e, at)
                == wire_format::u64_at(b, at),
        forall|at: int|
            0 <= at && at + 32 <= b.len() ==> #[trigger] wire_format::bytes32_at(b + e, at)
                == wire_format::bytes32_at(b, at),
{
    assert forall|at: int| 0 <= at && at + 2 <= b.len() implies #[trigger] wire_format::u16_at(
        b + e,
        at,
    ) == wire_format::u16_at(b, at) by {
        lemma_same_bytes(b, e, at, at + 2);
    }
    assert forall|at: int| 0 <= at && at + 4 <= b.len() implies #[trigger] wire_format::u32_at(
        b + e,
        at,
    ) == wire_format::u32_at(b, at) by {
        lemma_same_bytes(b, e, at, at + 4);
    }
    assert forall|at: int| 0 <= at && at + 8 <= b.len() implies #[trigger] wire_format::u64_at(
        b + e,
        at,
    ) == wire_format::u64_at(b, at) by {
        lemma_same_bytes(b, e, at, at + 8);
    }
    assert forall|at: int| 0 <= at && at + 32 <= b.len() implies #[trigger] wire_format::bytes32_at(
        b + e,
        at,
    ) == wire_format::bytes32_at(b, at) by {
        lemma_same_bytes(b, e, at, at + 32);
    }
}

/// Bytes that follow do not change hints that are all right.
proof fn lemma_same_hints(b: Seq<u8>, e: Seq<u8>, at: int, i: nat, n: nat)
    requires
        0 <= at,
        wire_format::hints_error(b, at, i, n) is None,
    ensures
        wire_format::hints_error(b + e, at, i, n) is None,
        i < n ==> at + 4 * n <= b.len(),
    decreases n - i,
{
    if i < n {
        lemma_same_fields(b, e);
        lemma_same_hints(b, e, at, i + 1, n);
    }
}

/// Bytes that follow do not change records that are all right.
#[verifier::spinoff_prover]
#[verifier::rlimit(50)]
proof fn lemma_same_records(
    b: Seq<u8>,
    e: Seq<u8>,
    at: int,
    i: nat,
    n: nat,
    accepted_roots: nat,
)
    requires
        0 <= at,
        wire_format::records_error(b, at, i, n, accepted_roots) is None,
    ensures
        wire_format::records_error(b + e, at, i, n, accepted_roots) is None,
        i < n ==> at + 156 * n <= b.len(),
    decreases n - i,
{
    if i < n {
        lemma_same_fields(b, e);
        lemma_same_records(b, e, at, i + 1, n, accepted_roots);
    }
}

/// Bytes that follow a decodable `Headers` change neither the response nor where it ends.
#[verifier::spinoff_prover]
#[verifier::rlimit(50)]
proof fn lemma_same_headers(
    c: CodecView,
    context: HeaderSyncDecodeContext,
    b: Seq<u8>,
    e: Seq<u8>,
    parse: ChainParseView,
)
    requires
        wire_format::headers_error(c, context, b, parse) is None,
        b.len() == wire_format::headers_end(b, parse),
    ensures
        wire_format::headers_error(c, context, b + e, parse) is None,
        wire_format::headers_end(b + e, parse) == b.len(),
{
    let x = b + e;
    let n = wire_format::entry_count(b);
    lemma_same_fields(b, e);
    assert(83 <= b.len());
    assert(x[81] == b[81] && x[82] == b[82]);
    assert(wire_format::entry_count(x) == n);
    assert(wire_format::headers_head_error(c, context, x) is None);
    assert forall|i: int| 0 <= i < n implies #[trigger] wire_format::header_matches(
        x,
        parse.headers,
        i,
    ) by {
        assert(wire_format::header_matches(b, parse.headers, i));
        layout::lemma_start_monotone(
            wire_format::encodings(parse.headers),
            i as nat,
            (i + 1) as nat,
        );
        lemma_same_bytes(
            b,
            e,
            wire_format::header_start(parse.headers, i),
            wire_format::header_start(parse.headers, i + 1),
        );
    }
    let hints = wire_format::hints_start(b, parse);
    let records = wire_format::records_start(b, parse);
    lemma_same_hints(b, e, hints, 0, n);
    if wire_format::announced_schema(b) == AuxSchema::V1 {
        lemma_same_records(b, e, records, 0, n, parse.accepted_roots);
    }
    let v = wire_format::headers_value(b, parse);
    let w = wire_format::headers_value(x, parse);
    assert forall|i: int| 0 <= i < n implies w.entries[i] == v.entries[i] by {
        assert(v.entries[i] == wire_format::entry_value(b, parse, i));
        assert(w.entries[i] == wire_format::entry_value(x, parse, i));
        if wire_format::announced_schema(b) == AuxSchema::V1 {
            assert(records + 156 * i + 156 <= b.len());
        }
    }
    assert(w.entries =~= v.entries);
    assert(w =~= v);
}

/// A decodable payload with anything behind it does not decode: it is too large, or else has
/// trailing bytes. The chain's parsers make the same of its vectors, which end where they did.
#[verifier::spinoff_prover]
#[verifier::rlimit(50)]
pub proof fn extended_payload_is_rejected(
    c: CodecView,
    context: Option<HeaderSyncDecodeContext>,
    b: Seq<u8>,
    e: Seq<u8>,
    parse: ChainParseView,
)
    requires
        wire_format::decode_error(c, context, b, parse) is None,
        e.len() > 0,
        b.len() + e.len() <= usize::MAX,
    ensures
        wire_format::decode_error(c, context, b + e, parse) == Some(
            if b.len() + e.len() > c.message_byte_limit {
                HeaderSyncWireError::OversizedPayload {
                    actual: (b.len() + e.len()) as usize,
                    max: c.message_byte_limit,
                }
            } else {
                HeaderSyncWireError::TrailingBytes
            },
        ),
{
    let x = b + e;
    assert(x[0] == b[0]);
    if x.len() <= c.message_byte_limit {
        lemma_same_fields(b, e);
        if b[0] == MSG_HS_STATUS {
        } else if b[0] == MSG_HS_GET_HEADERS {
            assert(x[41] == b[41]);
            assert(x[wire_format::locators_end(b) + 4] == b[wire_format::locators_end(b) + 4]);
            let v = wire_format::get_headers_value(b);
            let w = wire_format::get_headers_value(x);
            assert(w.locator_hashes =~= v.locator_hashes);
            assert(w =~= v);
        } else if b[0] == MSG_HS_HEADERS {
            lemma_same_headers(c, context->0, b, e, parse);
        } else {
            assert(x[41] == b[41]);
        }
    }
}

/// Whether the parsers, given less of a payload, accepted no header that they did not accept in
/// the same place of the whole.
pub open spec fn parsed_less(part: ChainParseView, whole: ChainParseView) -> bool {
    &&& part.headers.len() <= whole.headers.len()
    &&& forall|i: int| 0 <= i < part.headers.len() ==> part.headers[i] == whole.headers[i]
}

/// A decodable payload that is cut short anywhere does not decode.
#[verifier::spinoff_prover]
#[verifier::rlimit(50)]
pub proof fn truncated_payload_is_rejected(
    c: CodecView,
    context: Option<HeaderSyncDecodeContext>,
    b: Seq<u8>,
    parse: ChainParseView,
    len: int,
    cut_parse: ChainParseView,
)
    requires
        wire_format::decode_error(c, context, b, parse) is None,
        0 <= len < b.len(),
        parsed_less(cut_parse, parse),
    ensures
        wire_format::decode_error(c, context, b.take(len), cut_parse) is Some,
{
    let p = b.take(len);
    let rest = b.skip(len);
    assert(p + rest =~= b);
    if wire_format::decode_error(c, context, p, cut_parse) is None {
        lemma_same_fields(p, rest);
        assert(p[0] == b[0]);
        if b[0] == MSG_HS_GET_HEADERS {
            assert(p[41] == b[41]);
        } else if b[0] == MSG_HS_HEADERS {
            let n = wire_format::entry_count(p);
            assert(83 <= p.len());
            assert(p[82] == b[82]);
            assert(wire_format::entry_count(b) == n);
            layout::lemma_start_prefix(
                wire_format::encodings(cut_parse.headers),
                wire_format::encodings(parse.headers),
                n,
            );
        }
        assert(message_end(p, cut_parse) == message_end(b, parse));
    }
}

} // verus!
