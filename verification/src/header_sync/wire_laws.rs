//! What holds of the header-sync codec as a whole.
use vstd::prelude::*;

use crate::chain::{Network, HEIGHT_MAX};
use crate::header_sync::message::{
    AuxSchema, HeaderSyncDecodeContext, HeaderSyncMessage, HeaderSyncWireError, TreeAuxRecordV1,
    MAX_BODY_SIZE_HINT, MSG_HS_GET_HEADERS, MSG_HS_HEADERS, MSG_HS_HEADERS_OUTCOME, MSG_HS_STATUS,
    TREE_AUX_SCHEMA_V1_BYTES,
};
use crate::header_sync::wire_format;
use crate::header_sync::wire_format::{
    ChainParseView, CodecView, GetHeadersView, HeadersOutcomeView, HeadersView, StatusView,
    TreeAuxView,
};
use crate::layout;
use crate::le;

verus! {

proof fn lemma_u16_field(b: Seq<u8>, at: int)
    requires
        0 <= at,
        at + 2 <= b.len(),
    ensures
        le::bytes(wire_format::u16_at(b, at) as nat, 2) == b.subrange(at, at + 2),
{
    le::lemma_value_bound(b.subrange(at, at + 2));
    le::lemma_capacities();
    le::lemma_bytes_of_value(b.subrange(at, at + 2));
}

proof fn lemma_u32_field(b: Seq<u8>, at: int)
    requires
        0 <= at,
        at + 4 <= b.len(),
    ensures
        le::bytes(wire_format::u32_at(b, at) as nat, 4) == b.subrange(at, at + 4),
{
    le::lemma_value_bound(b.subrange(at, at + 4));
    le::lemma_capacities();
    le::lemma_bytes_of_value(b.subrange(at, at + 4));
}

proof fn lemma_u64_field(b: Seq<u8>, at: int)
    requires
        0 <= at,
        at + 8 <= b.len(),
    ensures
        le::bytes(wire_format::u64_at(b, at) as nat, 8) == b.subrange(at, at + 8),
{
    le::lemma_value_bound(b.subrange(at, at + 8));
    le::lemma_capacities();
    le::lemma_bytes_of_value(b.subrange(at, at + 8));
}

/// The starts of the parts of a `Status`.
pub(crate) proof fn lemma_status_starts(s: StatusView)
    requires
        s.work_anchor_hash.len() == 32,
        s.selected_tip_hash.len() == 32,
    ensures
        ({
            let p = wire_format::status_parts(s);
            &&& layout::start(p, 0) == 0
            &&& layout::start(p, 1) == 1
            &&& layout::start(p, 2) == 5
            &&& layout::start(p, 3) == 37
            &&& layout::start(p, 4) == 41
            &&& layout::start(p, 5) == 73
            &&& layout::start(p, 6) == 105
            &&& layout::start(p, 7) == 109
            &&& layout::start(p, 8) == 113
            &&& layout::start(p, 9) == 115
            &&& layout::start(p, 10) == 119
            &&& layout::start(p, 11) == 123
        }),
{
    let p = wire_format::status_parts(s);
    le::lemma_bytes_len(s.work_anchor_height.0 as nat, 4);
    le::lemma_bytes_len(s.selected_tip_height.0 as nat, 4);
    le::lemma_bytes_len(s.suffix_cumulative_work, 32);
    le::lemma_bytes_len(s.oldest_retained_height.0 as nat, 4);
    le::lemma_bytes_len(s.max_headers_per_response as nat, 4);
    le::lemma_bytes_len(s.max_inflight_requests as nat, 2);
    le::lemma_bytes_len(s.max_message_bytes as nat, 4);
    le::lemma_bytes_len(s.tree_aux_schema_mask as nat, 4);
    reveal_with_fuel(layout::start, 12);
}

proof fn lemma_status_canonical(b: Seq<u8>)
    requires
        b.len() == 123,
        b[0] == MSG_HS_STATUS,
    ensures
        wire_format::status_parts(wire_format::status_value(b)).flatten() == b,
{
    let s = wire_format::status_value(b);
    let p = wire_format::status_parts(s);
    lemma_status_starts(s);
    lemma_u32_field(b, 1);
    lemma_u32_field(b, 37);
    lemma_u32_field(b, 105);
    lemma_u32_field(b, 109);
    lemma_u16_field(b, 113);
    lemma_u32_field(b, 115);
    lemma_u32_field(b, 119);
    le::lemma_bytes_of_value(b.subrange(73, 105));
    assert forall|k: int| 0 <= k < p.len() implies layout::slot(p, k, b) == #[trigger] p[k] by {
        if k == 0 {
            assert(layout::slot(p, 0, b) =~= p[0]);
        }
    }
    layout::lemma_layout_unique(p, b);
}

proof fn lemma_u16_read_back(b: Seq<u8>, at: int, n: u16)
    requires
        b.subrange(at, at + 2) == le::bytes(n as nat, 2),
    ensures
        wire_format::u16_at(b, at) == n,
{
    le::lemma_capacities();
    le::lemma_value_of_bytes(n as nat, 2);
}

proof fn lemma_u32_read_back(b: Seq<u8>, at: int, n: u32)
    requires
        b.subrange(at, at + 4) == le::bytes(n as nat, 4),
    ensures
        wire_format::u32_at(b, at) == n,
{
    le::lemma_capacities();
    le::lemma_value_of_bytes(n as nat, 4);
}

proof fn lemma_u64_read_back(b: Seq<u8>, at: int, n: u64)
    requires
        b.subrange(at, at + 8) == le::bytes(n as nat, 8),
    ensures
        wire_format::u64_at(b, at) == n,
{
    le::lemma_capacities();
    le::lemma_value_of_bytes(n as nat, 8);
}

proof fn lemma_byte_read_back(b: Seq<u8>, at: int, n: u8)
    requires
        0 <= at < b.len(),
        b.subrange(at, at + 1) == seq![n],
    ensures
        b[at] == n,
{
    assert(b[at] == b.subrange(at, at + 1)[0]);
}

#[verifier::spinoff_prover]
#[verifier::rlimit(50)]
proof fn lemma_status_round_trip(s: StatusView)
    requires
        s.work_anchor_hash.len() == 32,
        s.selected_tip_hash.len() == 32,
        s.suffix_cumulative_work < le::capacity(32),
        wire_format::status_encode_error(s) is None,
    ensures
        ({
            let b = wire_format::status_parts(s).flatten();
            &&& b.len() == 123
            &&& b[0] == MSG_HS_STATUS
            &&& wire_format::status_error(b) is None
            &&& wire_format::status_value(b) == s
        }),
{
    let p = wire_format::status_parts(s);
    let b = p.flatten();
    lemma_status_starts(s);
    layout::lemma_flatten_len(p);
    layout::lemma_part_at(p, 0);
    layout::lemma_part_at(p, 1);
    layout::lemma_part_at(p, 2);
    layout::lemma_part_at(p, 3);
    layout::lemma_part_at(p, 4);
    layout::lemma_part_at(p, 5);
    layout::lemma_part_at(p, 6);
    layout::lemma_part_at(p, 7);
    layout::lemma_part_at(p, 8);
    layout::lemma_part_at(p, 9);
    layout::lemma_part_at(p, 10);
    lemma_byte_read_back(b, 0, MSG_HS_STATUS);
    lemma_u32_read_back(b, 1, s.work_anchor_height.0);
    lemma_u32_read_back(b, 37, s.selected_tip_height.0);
    le::lemma_value_of_bytes(s.suffix_cumulative_work, 32);
    lemma_u32_read_back(b, 105, s.oldest_retained_height.0);
    lemma_u32_read_back(b, 109, s.max_headers_per_response);
    lemma_u16_read_back(b, 113, s.max_inflight_requests);
    lemma_u32_read_back(b, 115, s.max_message_bytes);
    lemma_u32_read_back(b, 119, s.tree_aux_schema_mask);
    assert(wire_format::status_value(b) =~= s);
}

/// The starts of the parts of a `HeadersOutcome`.
pub(crate) proof fn lemma_outcome_starts(o: HeadersOutcomeView)
    requires
        o.target_tip_hash.len() == 32,
    ensures
        ({
            let p = wire_format::outcome_parts(o);
            &&& layout::start(p, 0) == 0
            &&& layout::start(p, 1) == 1
            &&& layout::start(p, 2) == 9
            &&& layout::start(p, 3) == 41
            &&& layout::start(p, 4) == 42
        }),
{
    le::lemma_bytes_len(o.request_id as nat, 8);
    reveal_with_fuel(layout::start, 5);
}

proof fn lemma_outcome_canonical(b: Seq<u8>)
    requires
        b.len() == 42,
        b[0] == MSG_HS_HEADERS_OUTCOME,
        wire_format::outcome_of(b[41]) is Some,
    ensures
        wire_format::outcome_parts(wire_format::outcome_value(b)).flatten() == b,
{
    let o = wire_format::outcome_value(b);
    let p = wire_format::outcome_parts(o);
    lemma_outcome_starts(o);
    lemma_u64_field(b, 1);
    assert forall|k: int| 0 <= k < p.len() implies layout::slot(p, k, b) == #[trigger] p[k] by {
        if k == 0 {
            assert(layout::slot(p, 0, b) =~= p[0]);
        } else if k == 3 {
            assert(layout::slot(p, 3, b) =~= p[3]);
        }
    }
    layout::lemma_layout_unique(p, b);
}

proof fn lemma_outcome_round_trip(o: HeadersOutcomeView)
    requires
        o.target_tip_hash.len() == 32,
        o.request_id != 0,
    ensures
        ({
            let b = wire_format::outcome_parts(o).flatten();
            &&& b.len() == 42
            &&& b[0] == MSG_HS_HEADERS_OUTCOME
            &&& wire_format::outcome_error(b) is None
            &&& wire_format::outcome_value(b) == o
        }),
{
    let p = wire_format::outcome_parts(o);
    let b = p.flatten();
    lemma_outcome_starts(o);
    layout::lemma_flatten_len(p);
    layout::lemma_part_at(p, 0);
    layout::lemma_part_at(p, 1);
    layout::lemma_part_at(p, 2);
    layout::lemma_part_at(p, 3);
    lemma_byte_read_back(b, 0, MSG_HS_HEADERS_OUTCOME);
    lemma_u64_read_back(b, 1, o.request_id);
    lemma_byte_read_back(b, 41, wire_format::outcome_byte(o.outcome));
    assert(wire_format::outcome_value(b) =~= o);
}

/// The starts of the parts of a `GetHeaders`.
pub(crate) proof fn lemma_get_headers_starts(r: GetHeadersView)
    requires
        r.target_tip_hash.len() == 32,
        forall|i: int|
            0 <= i < r.locator_hashes.len() ==> (#[trigger] r.locator_hashes[i]).len() == 32,
    ensures
        ({
            let p = wire_format::get_headers_parts(r);
            let n = r.locator_hashes.len();
            &&& p.len() == n + 6
            &&& layout::start(p, 0) == 0
            &&& layout::start(p, 1) == 1
            &&& layout::start(p, 2) == 9
            &&& layout::start(p, 3) == 41
            &&& forall|i: int|
                0 <= i <= n ==> #[trigger] layout::start(p, (4 + i) as nat) == 42 + 32 * i
            &&& layout::start(p, n + 5) == 46 + 32 * n
            &&& layout::start(p, n + 6) == 47 + 32 * n
        }),
{
    let n = r.locator_hashes.len();
    let head = wire_format::get_headers_head(r);
    let tail = wire_format::get_headers_tail(r);
    let p = wire_format::get_headers_parts(r);
    le::lemma_bytes_len(r.request_id as nat, 8);
    le::lemma_bytes_len(r.max_header_count as nat, 4);
    reveal_with_fuel(layout::start, 6);
    assert(layout::start(head, 4) == 42);
    assert forall|i: nat| i <= 4 implies #[trigger] layout::start(p, i) == layout::start(
        head,
        i,
    ) by {
        layout::lemma_start_prefix(p, head, i);
    }
    assert(layout::start(p, 3) == layout::start(head, 3));
    assert(layout::start(p, 2) == layout::start(head, 2));
    assert(layout::start(p, 1) == layout::start(head, 1));
    let front = head + r.locator_hashes;
    assert forall|i: int| 0 <= i <= n implies #[trigger] layout::start(p, (4 + i) as nat) == 42 + 32
        * i by {
        layout::lemma_start_concat(head, r.locator_hashes, i as nat);
        layout::lemma_start_uniform(r.locator_hashes, 32, i as nat);
        layout::lemma_start_prefix(p, front, (4 + i) as nat);
    }
    assert(layout::start(p, (4 + n) as nat) == 42 + 32 * n);
    assert(p[4 + n as int] == tail[0]);
    assert(p[5 + n as int] == tail[1]);
}

#[verifier::spinoff_prover]
#[verifier::rlimit(50)]
proof fn lemma_get_headers_canonical(b: Seq<u8>)
    requires
        42 < b.len(),
        b.len() == wire_format::locators_end(b) + 5,
        b[0] == MSG_HS_GET_HEADERS,
        wire_format::schema_of(b[wire_format::locators_end(b) + 4]) is Some,
    ensures
        wire_format::get_headers_parts(wire_format::get_headers_value(b)).flatten() == b,
{
    let r = wire_format::get_headers_value(b);
    let p = wire_format::get_headers_parts(r);
    let n = b[41] as int;
    assert forall|i: int| 0 <= i < n implies (#[trigger] r.locator_hashes[i]).len() == 32 by {
        assert(r.locator_hashes[i] == wire_format::bytes32_at(b, 42 + 32 * i));
    }
    lemma_get_headers_starts(r);
    lemma_u64_field(b, 1);
    lemma_u32_field(b, wire_format::locators_end(b));
    assert forall|k: int| 0 <= k < p.len() implies layout::slot(p, k, b) == #[trigger] p[k] by {
        if k == 0 {
            assert(layout::slot(p, 0, b) =~= p[0]);
        } else if k == 3 {
            assert(layout::start(p, (4 + 0) as nat) == 42 + 32 * 0);
            assert(layout::slot(p, 3, b) =~= p[3]);
        } else if 4 <= k < 4 + n {
            let i = k - 4;
            assert(layout::start(p, (4 + i) as nat) == 42 + 32 * i);
            assert(layout::start(p, (4 + (i + 1)) as nat) == 42 + 32 * (i + 1));
            assert(p[k] == r.locator_hashes[i]);
        } else if k == 4 + n {
            assert(layout::start(p, (4 + n) as nat) == 42 + 32 * n);
            assert(p[k] == wire_format::get_headers_tail(r)[0]);
        } else if k == 5 + n {
            assert(p[k] == wire_format::get_headers_tail(r)[1]);
            assert(layout::slot(p, k, b) =~= p[k]);
        }
    }
    layout::lemma_layout_unique(p, b);
}

#[verifier::spinoff_prover]
#[verifier::rlimit(50)]
proof fn lemma_get_headers_round_trip(c: CodecView, r: GetHeadersView)
    requires
        r.target_tip_hash.len() == 32,
        forall|i: int|
            0 <= i < r.locator_hashes.len() ==> (#[trigger] r.locator_hashes[i]).len() == 32,
        wire_format::get_headers_rule_error(c, r) is None,
    ensures
        ({
            let b = wire_format::get_headers_parts(r).flatten();
            &&& b.len() == wire_format::locators_end(b) + 5
            &&& b[0] == MSG_HS_GET_HEADERS
            &&& wire_format::get_headers_error(c, b) is None
            &&& wire_format::get_headers_value(b) == r
        }),
{
    let p = wire_format::get_headers_parts(r);
    let b = p.flatten();
    let n = r.locator_hashes.len() as int;
    lemma_get_headers_starts(r);
    layout::lemma_flatten_len(p);
    assert(layout::start(p, (4 + 0) as nat) == 42 + 32 * 0);
    assert(layout::start(p, (4 + n) as nat) == 42 + 32 * n);
    layout::lemma_part_at(p, 0);
    layout::lemma_part_at(p, 1);
    layout::lemma_part_at(p, 2);
    layout::lemma_part_at(p, 3);
    layout::lemma_part_at(p, 4 + n);
    layout::lemma_part_at(p, 5 + n);
    assert(p[4 + n] == wire_format::get_headers_tail(r)[0]);
    assert(p[5 + n] == wire_format::get_headers_tail(r)[1]);
    lemma_byte_read_back(b, 0, MSG_HS_GET_HEADERS);
    lemma_u64_read_back(b, 1, r.request_id);
    lemma_byte_read_back(b, 41, r.locator_hashes.len() as u8);
    lemma_u32_read_back(b, 42 + 32 * n, r.max_header_count);
    lemma_byte_read_back(b, 46 + 32 * n, wire_format::schema_byte(r.tree_aux_schema));
    let v = wire_format::get_headers_value(b);
    assert forall|i: int| 0 <= i < n implies v.locator_hashes[i] == r.locator_hashes[i] by {
        layout::lemma_part_at(p, 4 + i);
        assert(layout::start(p, (4 + i) as nat) == 42 + 32 * i);
        assert(layout::start(p, (4 + (i + 1)) as nat) == 42 + 32 * (i + 1));
        assert(p[4 + i] == r.locator_hashes[i]);
    }
    assert(v.locator_hashes =~= r.locator_hashes);
    assert(v =~= r);
}

/// The starts of the parts of a tree-aux record.
proof fn lemma_record_starts(a: TreeAuxView)
    requires
        a.sapling_root.len() == 32,
        a.orchard_root.len() == 32,
        a.ironwood_root.len() == 32,
        a.auth_data_root.len() == 32,
    ensures
        ({
            let p = wire_format::tree_aux_parts(a);
            &&& layout::start(p, 0) == 0
            &&& layout::start(p, 1) == 4
            &&& layout::start(p, 2) == 36
            &&& layout::start(p, 3) == 68
            &&& layout::start(p, 4) == 100
            &&& layout::start(p, 5) == 108
            &&& layout::start(p, 6) == 116
            &&& layout::start(p, 7) == 124
            &&& layout::start(p, 8) == 156
            &&& p.flatten().len() == 156
        }),
{
    let p = wire_format::tree_aux_parts(a);
    le::lemma_bytes_len(a.height.0 as nat, 4);
    le::lemma_bytes_len(a.sapling_tx_count as nat, 8);
    le::lemma_bytes_len(a.orchard_tx_count as nat, 8);
    le::lemma_bytes_len(a.ironwood_tx_count as nat, 8);
    reveal_with_fuel(layout::start, 9);
    layout::lemma_flatten_len(p);
}

proof fn lemma_record_canonical(b: Seq<u8>, at: int)
    requires
        0 <= at,
        at + 156 <= b.len(),
    ensures
        wire_format::tree_aux_parts(wire_format::record_value(b, at)).flatten() == b.subrange(
            at,
            at + 156,
        ),
{
    let a = wire_format::record_value(b, at);
    let p = wire_format::tree_aux_parts(a);
    let whole = b.subrange(at, at + 156);
    lemma_record_starts(a);
    lemma_u32_field(b, at);
    lemma_u64_field(b, at + 100);
    lemma_u64_field(b, at + 108);
    lemma_u64_field(b, at + 116);
    assert forall|k: int| 0 <= k < p.len() implies layout::slot(p, k, whole)
        == #[trigger] p[k] by {
        let from = layout::start(p, k as nat) as int;
        let to = layout::start(p, (k + 1) as nat) as int;
        if 0 <= k < 8 {
            assert(whole.subrange(from, to) =~= b.subrange(at + from, at + to));
        }
    }
    layout::lemma_layout_unique(p, whole);
}

proof fn lemma_record_round_trip(b: Seq<u8>, at: int, a: TreeAuxView)
    requires
        0 <= at,
        at + 156 <= b.len(),
        a.sapling_root.len() == 32,
        a.orchard_root.len() == 32,
        a.ironwood_root.len() == 32,
        a.auth_data_root.len() == 32,
        a.height.0 <= HEIGHT_MAX,
        b.subrange(at, at + 156) == wire_format::tree_aux_parts(a).flatten(),
    ensures
        wire_format::record_error(b, at, true) is None,
        wire_format::record_value(b, at) == a,
{
    let p = wire_format::tree_aux_parts(a);
    let whole = p.flatten();
    lemma_record_starts(a);
    layout::lemma_part_at(p, 0);
    layout::lemma_part_at(p, 1);
    layout::lemma_part_at(p, 2);
    layout::lemma_part_at(p, 3);
    layout::lemma_part_at(p, 4);
    layout::lemma_part_at(p, 5);
    layout::lemma_part_at(p, 6);
    layout::lemma_part_at(p, 7);
    assert(b.subrange(at, at + 4) =~= whole.subrange(0, 4));
    assert(b.subrange(at + 4, at + 36) =~= whole.subrange(4, 36));
    assert(b.subrange(at + 36, at + 68) =~= whole.subrange(36, 68));
    assert(b.subrange(at + 68, at + 100) =~= whole.subrange(68, 100));
    assert(b.subrange(at + 100, at + 108) =~= whole.subrange(100, 108));
    assert(b.subrange(at + 108, at + 116) =~= whole.subrange(108, 116));
    assert(b.subrange(at + 116, at + 124) =~= whole.subrange(116, 124));
    assert(b.subrange(at + 124, at + 156) =~= whole.subrange(124, 156));
    lemma_u32_read_back(b, at, a.height.0);
    lemma_u64_read_back(b, at + 100, a.sapling_tx_count);
    lemma_u64_read_back(b, at + 108, a.orchard_tx_count);
    lemma_u64_read_back(b, at + 116, a.ironwood_tx_count);
    assert(wire_format::record_value(b, at) =~= a);
}

/// A tree-aux record is encoded in exactly 156 bytes. Wherever they stand, they decode to the
/// record, or to the error that its height is out of range if it is.
pub proof fn encoded_record_decodes_to_itself(
    record: TreeAuxRecordV1,
    before: Seq<u8>,
    after: Seq<u8>,
)
    ensures
        ({
            let part = wire_format::tree_aux_parts(record@).flatten();
            let b = before + part + after;
            let at = before.len() as int;
            &&& part.len() == TREE_AUX_SCHEMA_V1_BYTES == 156
            &&& record.height.0 <= HEIGHT_MAX ==> {
                &&& wire_format::record_error(b, at, true) is None
                &&& wire_format::record_value(b, at) == record@
            }
            &&& record.height.0 > HEIGHT_MAX ==> wire_format::record_error(b, at, true) == Some(
                HeaderSyncWireError::HeightOutOfRange(record.height.0),
            )
        }),
{
    let p = wire_format::tree_aux_parts(record@);
    let part = p.flatten();
    let b = before + part + after;
    let at = before.len() as int;
    lemma_record_starts(record@);
    assert(b.subrange(at, at + 156) =~= part);
    if record.height.0 <= HEIGHT_MAX {
        lemma_record_round_trip(b, at, record@);
    } else {
        layout::lemma_part_at(p, 0);
        assert(b.subrange(at, at + 4) =~= part.subrange(0, 4));
        lemma_u32_read_back(b, at, record.height.0);
    }
}

/// The three roots of a record of a payload stand next to each other, where
/// [`wire_format::roots_start`] says.
pub proof fn roots_are_consecutive(b: Seq<u8>, parse: ChainParseView, i: int)
    requires
        0 <= i < wire_format::entry_count(b),
        0 <= wire_format::hints_start(b, parse),
        wire_format::records_start(b, parse) + 156 * i + 156 <= b.len(),
    ensures
        ({
            let count = wire_format::entry_count(b) as int;
            let start = wire_format::roots_start(wire_format::hints_start(b, parse), count, i);
            let a = wire_format::record_value(b, wire_format::records_start(b, parse) + 156 * i);
            b.subrange(start, start + 96) == a.sapling_root + a.orchard_root + a.ironwood_root
        }),
{
    let at = wire_format::records_start(b, parse) + 156 * i;
    let a = wire_format::record_value(b, at);
    assert(b.subrange(at + 4, at + 100) =~= a.sapling_root + a.orchard_root + a.ironwood_root);
}

/// Whether the hashes and roots of a response are 32 bytes long, as its type has them.
pub(crate) open spec fn sized(r: HeadersView) -> bool {
    &&& r.target_tip_hash.len() == 32
    &&& r.common_ancestor_hash.len() == 32
    &&& forall|i: int| 0 <= i < r.entries.len() ==> aux_sized(#[trigger] r.entries[i].tree_aux)
}

/// Whether the roots of a record are 32 bytes long, as its type has them.
pub(crate) open spec fn aux_sized(aux: Option<TreeAuxView>) -> bool {
    match aux {
        Some(a) => {
            &&& a.sapling_root.len() == 32
            &&& a.orchard_root.len() == 32
            &&& a.ironwood_root.len() == 32
            &&& a.auth_data_root.len() == 32
        },
        None => true,
    }
}

/// Whether a response carries a record in every entry if its schema has records.
spec fn aux_present(r: HeadersView) -> bool {
    r.tree_aux_schema == AuxSchema::V1 ==> forall|i: int|
        0 <= i < r.entries.len() ==> (#[trigger] r.entries[i]).tree_aux is Some
}

/// Where the hints of an encoded response start.
pub(crate) open spec fn hints_from(r: HeadersView) -> int {
    83int + layout::start(wire_format::header_parts(r.entries), r.entries.len())
}

/// Where the records of an encoded response start.
pub(crate) open spec fn records_from(r: HeadersView) -> int {
    hints_from(r) + 4 * r.entries.len()
}

/// The starts of the parts of a `Headers` before its vectors.
proof fn lemma_headers_head_starts(r: HeadersView)
    requires
        sized(r),
    ensures
        ({
            let p = wire_format::headers_parts(r);
            &&& layout::start(p, 0) == 0
            &&& layout::start(p, 1) == 1
            &&& layout::start(p, 2) == 9
            &&& layout::start(p, 3) == 41
            &&& layout::start(p, 4) == 45
            &&& layout::start(p, 5) == 77
            &&& layout::start(p, 6) == 81
            &&& layout::start(p, 7) == 82
            &&& layout::start(p, 8) == 83
            &&& layout::start(wire_format::headers_head(r), 8) == 83
        }),
{
    let p = wire_format::headers_parts(r);
    let head = wire_format::headers_head(r);
    le::lemma_bytes_len(r.request_id as nat, 8);
    le::lemma_bytes_len(r.common_ancestor_height.0 as nat, 4);
    le::lemma_bytes_len(r.entries.len(), 4);
    reveal_with_fuel(layout::start, 9);
    assert forall|i: int| 0 <= i < 8 implies p[i] == #[trigger] head[i] by {
    }
    layout::lemma_start_prefix(p, head, 1);
    layout::lemma_start_prefix(p, head, 2);
    layout::lemma_start_prefix(p, head, 3);
    layout::lemma_start_prefix(p, head, 4);
    layout::lemma_start_prefix(p, head, 5);
    layout::lemma_start_prefix(p, head, 6);
    layout::lemma_start_prefix(p, head, 7);
    layout::lemma_start_prefix(p, head, 8);
}

/// The starts of the vectors of a `Headers`.
#[verifier::spinoff_prover]
#[verifier::rlimit(50)]
proof fn lemma_headers_vector_starts(r: HeadersView, i: nat)
    requires
        sized(r),
        aux_present(r),
        i <= r.entries.len(),
    ensures
        ({
            let p = wire_format::headers_parts(r);
            let n = r.entries.len();
            &&& layout::start(p, 8 + i) == 83 + layout::start(
                wire_format::header_parts(r.entries),
                i,
            )
            &&& layout::start(p, 8 + n + i) == hints_from(r) + 4 * i
            &&& r.tree_aux_schema == AuxSchema::V1 ==> layout::start(p, 8 + 2 * n + i)
                == records_from(r) + 156 * i
        }),
{
    let p = wire_format::headers_parts(r);
    let n = r.entries.len();
    let head = wire_format::headers_head(r);
    let hs = wire_format::header_parts(r.entries);
    let ns = wire_format::hint_parts(r.entries);
    let rs = wire_format::record_parts(r.entries);
    lemma_headers_head_starts(r);
    let two = head + hs;
    let three = two + ns;
    layout::lemma_start_concat(head, hs, i);
    layout::lemma_start_concat(head, hs, n);
    layout::lemma_start_prefix(p, two, 8 + i);
    assert forall|k: int| 0 <= k < ns.len() implies (#[trigger] ns[k]).len() == 4 by {
        le::lemma_bytes_len(r.entries[k].body_size as nat, 4);
    }
    layout::lemma_start_uniform(ns, 4, i);
    layout::lemma_start_uniform(ns, 4, n);
    layout::lemma_start_concat(two, ns, i);
    layout::lemma_start_concat(two, ns, n);
    layout::lemma_start_prefix(p, three, 8 + n + i);
    if r.tree_aux_schema == AuxSchema::V1 {
        assert forall|k: int| 0 <= k < rs.len() implies (#[trigger] rs[k]).len() == 156 by {
            assert(aux_sized(r.entries[k].tree_aux));
            assert(r.entries[k].tree_aux is Some);
            lemma_record_starts(r.entries[k].tree_aux->0);
        }
        layout::lemma_start_uniform(rs, 156, i);
        layout::lemma_start_concat(three, rs, i);
        assert(p =~= three + rs);
    }
}

/// How many parts a `Headers` has, and which they are.
proof fn lemma_headers_parts_at(r: HeadersView, i: int)
    requires
        0 <= i < r.entries.len(),
    ensures
        ({
            let p = wire_format::headers_parts(r);
            let n = r.entries.len();
            &&& p[8 + i] == r.entries[i].header.encoded
            &&& p[8 + n + i] == le::bytes(r.entries[i].body_size as nat, 4)
            &&& r.tree_aux_schema == AuxSchema::V1 ==> p[8 + 2 * n + i]
                == wire_format::tree_aux_parts(r.entries[i].tree_aux->0).flatten()
        }),
{
}

/// What a decodable `Headers` payload keeps before its vectors, and of them.
#[verifier::spinoff_prover]
#[verifier::rlimit(50)]
proof fn lemma_headers_accepted(
    c: CodecView,
    context: HeaderSyncDecodeContext,
    b: Seq<u8>,
    parse: ChainParseView,
)
    requires
        wire_format::headers_error(c, context, b, parse) is None,
    ensures
        83 <= b.len(),
        b[81] <= 1,
        wire_format::schema_of(b[82]) is Some,
        wire_format::u64_at(b, 1) != 0,
        wire_format::u32_at(b, 41) <= HEIGHT_MAX,
        wire_format::entry_count(b) <= wire_format::entry_limit(c, context),
        wire_format::announced_schema(b) == AuxSchema::NoAux || wire_format::announced_schema(b)
            == context.requested_tree_aux_schema,
        wire_format::headers_match(b, parse.headers, wire_format::entry_count(b)),
        wire_format::semantics_error(c.network, wire_format::headers_value(b, parse)) is None,
{
}

/// A decoded `Headers` fills its payload, and is what was asked for.
#[verifier::spinoff_prover]
#[verifier::rlimit(50)]
pub(crate) proof fn lemma_decoded_response(
    c: CodecView,
    context: HeaderSyncDecodeContext,
    b: Seq<u8>,
    parse: ChainParseView,
)
    requires
        b.len() > 0,
        b[0] == MSG_HS_HEADERS,
        wire_format::decode_error(c, Some(context), b, parse) is None,
    ensures
        83 <= b.len() <= c.message_byte_limit,
        b.len() == wire_format::headers_end(b, parse),
        wire_format::decode_value(b, parse) is Headers,
        wire_format::headers_value(b, parse).entries.len() <= context.max_header_count,
        wire_format::headers_value(b, parse).tree_aux_schema == AuxSchema::NoAux
            || wire_format::headers_value(b, parse).tree_aux_schema
            == context.requested_tree_aux_schema,
{
    lemma_headers_accepted(c, context, b, parse);
}

/// What is known of a payload whose `Headers` fills it.
spec fn headers_fill(b: Seq<u8>, parse: ChainParseView) -> bool {
    &&& 83 <= b.len()
    &&& b[0] == MSG_HS_HEADERS
    &&& b[81] <= 1
    &&& wire_format::schema_of(b[82]) is Some
    &&& wire_format::headers_match(b, parse.headers, wire_format::entry_count(b))
    &&& b.len() == wire_format::headers_end(b, parse)
}

#[verifier::spinoff_prover]
#[verifier::rlimit(50)]
proof fn lemma_headers_fill_starts(b: Seq<u8>, parse: ChainParseView)
    requires
        headers_fill(b, parse),
    ensures
        sized(wire_format::headers_value(b, parse)),
        aux_present(wire_format::headers_value(b, parse)),
        hints_from(wire_format::headers_value(b, parse)) == wire_format::hints_start(b, parse),
        forall|i: int|
            0 <= i <= wire_format::entry_count(b) ==> #[trigger] layout::start(
                wire_format::header_parts(wire_format::headers_value(b, parse).entries),
                i as nat,
            ) == layout::start(wire_format::encodings(parse.headers), i as nat),
{
    let r = wire_format::headers_value(b, parse);
    let n = r.entries.len();
    let hs = wire_format::header_parts(r.entries);
    let encodings = wire_format::encodings(parse.headers);
    assert forall|i: int| 0 <= i <= n implies #[trigger] layout::start(hs, i as nat)
        == layout::start(encodings, i as nat) by {
        layout::lemma_start_prefix(hs, encodings, i as nat);
    }
    assert(layout::start(hs, n) == layout::start(encodings, n));
    assert forall|i: int| 0 <= i < n implies aux_sized(#[trigger] r.entries[i].tree_aux) by {
        if r.tree_aux_schema == AuxSchema::V1 {
            let at = wire_format::records_start(b, parse) + 156 * i;
            assert(at + 156 <= b.len());
            assert(r.entries[i].tree_aux == Some(wire_format::record_value(b, at)));
        }
    }
}

#[verifier::spinoff_prover]
#[verifier::rlimit(50)]
proof fn lemma_headers_head_slot(b: Seq<u8>, parse: ChainParseView, k: int)
    requires
        headers_fill(b, parse),
        0 <= k < 8,
    ensures
        ({
            let p = wire_format::headers_parts(wire_format::headers_value(b, parse));
            layout::slot(p, k, b) == p[k]
        }),
{
    let r = wire_format::headers_value(b, parse);
    let p = wire_format::headers_parts(r);
    lemma_headers_fill_starts(b, parse);
    lemma_headers_head_starts(r);
    lemma_u64_field(b, 1);
    lemma_u32_field(b, 41);
    lemma_u32_field(b, 77);
    assert(p[k] == wire_format::headers_head(r)[k]);
    if k == 0 || k == 6 || k == 7 {
        assert(layout::slot(p, k, b) =~= p[k]);
    }
}

#[verifier::spinoff_prover]
#[verifier::rlimit(50)]
proof fn lemma_headers_vector_slot(b: Seq<u8>, parse: ChainParseView, i: int)
    requires
        headers_fill(b, parse),
        0 <= i < wire_format::entry_count(b),
    ensures
        ({
            let n = wire_format::entry_count(b);
            let r = wire_format::headers_value(b, parse);
            let p = wire_format::headers_parts(r);
            &&& layout::slot(p, 8 + i, b) == p[8 + i]
            &&& layout::slot(p, 8 + n + i, b) == p[8 + n + i]
            &&& r.tree_aux_schema == AuxSchema::V1 ==> layout::slot(p, 8 + 2 * n + i, b) == p[8 + 2
                * n + i]
        }),
{
    let r = wire_format::headers_value(b, parse);
    lemma_headers_fill_starts(b, parse);
    lemma_headers_parts_at(r, i);
    lemma_headers_vector_starts(r, i as nat);
    lemma_headers_vector_starts(r, (i + 1) as nat);
    assert(r.entries[i] == wire_format::entry_value(b, parse, i));
    assert(wire_format::header_matches(b, parse.headers, i));
    let hs = wire_format::header_parts(r.entries);
    let encodings = wire_format::encodings(parse.headers);
    assert(layout::start(hs, i as nat) == layout::start(encodings, i as nat));
    assert(layout::start(hs, (i + 1) as nat) == layout::start(encodings, (i + 1) as nat));
    lemma_u32_field(b, wire_format::hints_start(b, parse) + 4 * i);
    if r.tree_aux_schema == AuxSchema::V1 {
        lemma_record_canonical(b, wire_format::records_start(b, parse) + 156 * i);
    }
}

#[verifier::spinoff_prover]
#[verifier::rlimit(50)]
proof fn lemma_headers_canonical(b: Seq<u8>, parse: ChainParseView)
    requires
        headers_fill(b, parse),
    ensures
        wire_format::headers_parts(wire_format::headers_value(b, parse)).flatten() == b,
{
    let r = wire_format::headers_value(b, parse);
    let p = wire_format::headers_parts(r);
    let n = r.entries.len();
    lemma_headers_fill_starts(b, parse);
    lemma_headers_vector_starts(r, n);
    assert(p.len() == 8 + 2 * n + (if r.tree_aux_schema == AuxSchema::V1 {
        n
    } else {
        0
    }));
    assert forall|k: int| 0 <= k < p.len() implies layout::slot(p, k, b) == #[trigger] p[k] by {
        if k < 8 {
            lemma_headers_head_slot(b, parse, k);
        } else if k < 8 + n {
            lemma_headers_vector_slot(b, parse, k - 8);
        } else if k < 8 + 2 * n {
            lemma_headers_vector_slot(b, parse, k - 8 - n);
        } else {
            lemma_headers_vector_slot(b, parse, k - 8 - 2 * n);
        }
    }
    layout::lemma_layout_unique(p, b);
}

/// Hints that are all present and in range have no error.
proof fn lemma_hints_ok(b: Seq<u8>, at: int, i: nat, n: nat)
    requires
        at + 4 * n <= b.len(),
        forall|j: int|
            0 <= j < n ==> #[trigger] wire_format::u32_at(b, at + 4 * j) <= MAX_BODY_SIZE_HINT,
    ensures
        wire_format::hints_error(b, at, i, n) is None,
    decreases n - i,
{
    if i < n {
        assert(wire_format::u32_at(b, at + 4 * i) <= MAX_BODY_SIZE_HINT);
        lemma_hints_ok(b, at, i + 1, n);
    }
}

/// Records that are all present and in range have no error.
proof fn lemma_records_ok(b: Seq<u8>, at: int, i: nat, n: nat, accepted_roots: nat)
    requires
        n <= accepted_roots,
        forall|j: int|
            0 <= j < n ==> (#[trigger] wire_format::record_error(b, at + 156 * j, true)) is None,
    ensures
        wire_format::records_error(b, at, i, n, accepted_roots) is None,
    decreases n - i,
{
    if i < n {
        assert(wire_format::record_error(b, at + 156 * i, true) is None);
        lemma_records_ok(b, at, i + 1, n, accepted_roots);
    }
}

/// Whether `parse` holds what the chain's parsers make of the vectors of a response.
pub open spec fn parses(parse: ChainParseView, r: HeadersView) -> bool {
    &&& r.entries.len() <= parse.headers.len()
    &&& r.tree_aux_schema == AuxSchema::V1 ==> r.entries.len() <= parse.accepted_roots
    &&& forall|i: int|
        0 <= i < r.entries.len() ==> parse.headers[i] == (#[trigger] r.entries[i]).header
}

/// Whether the bounds of a request admit a response.
pub open spec fn admits(context: HeaderSyncDecodeContext, r: HeadersView) -> bool {
    &&& r.entries.len() <= context.max_header_count
    &&& r.tree_aux_schema == AuxSchema::NoAux || r.tree_aux_schema
        == context.requested_tree_aux_schema
}

/// Whether a response has no header shorter than the headers of its network; if it has no header
/// at all, whether a machine word can hold the size of one entry.
pub open spec fn full_headers(network: Network, r: HeadersView) -> bool {
    &&& r.entries.len() == 0 ==> wire_format::entry_bytes_min(network, r.tree_aux_schema)
        <= usize::MAX
    &&& forall|i: int|
        0 <= i < r.entries.len() ==> (#[trigger] r.entries[i]).header.encoded.len()
            >= network.header_bytes
}

/// The parts of an encodable response are well sized.
#[verifier::spinoff_prover]
#[verifier::rlimit(50)]
proof fn lemma_encodable_response(c: CodecView, r: HeadersView)
    requires
        sized(r),
        wire_format::headers_encode_error(c, r) is None,
    ensures
        aux_present(r),
        forall|i: int|
            0 <= i < r.entries.len() ==> (#[trigger] r.entries[i]).body_size <= MAX_BODY_SIZE_HINT,
        r.tree_aux_schema == AuxSchema::V1 ==> forall|i: int|
            0 <= i < r.entries.len() ==> (#[trigger] r.entries[i]).tree_aux->0.height.0
                <= HEIGHT_MAX,
        r.tree_aux_schema == AuxSchema::NoAux ==> forall|i: int|
            0 <= i < r.entries.len() ==> (#[trigger] r.entries[i]).tree_aux is None,
{
    assert forall|i: int| 0 <= i < r.entries.len() implies {
        &&& (#[trigger] r.entries[i]).body_size <= MAX_BODY_SIZE_HINT
        &&& r.tree_aux_schema == AuxSchema::V1 ==> r.entries[i].tree_aux is Some
            && r.entries[i].tree_aux->0.height.0 <= HEIGHT_MAX
        &&& r.tree_aux_schema == AuxSchema::NoAux ==> r.entries[i].tree_aux is None
    } by {
        wire_format::lemma_entries_ok(c.network, r, 0, i);
    }
}

/// The head of an encoded response reads back.
#[verifier::spinoff_prover]
#[verifier::rlimit(50)]
proof fn lemma_headers_head_reads(c: CodecView, r: HeadersView)
    requires
        sized(r),
        wire_format::headers_encode_error(c, r) is None,
    ensures
        ({
            let b = wire_format::headers_parts(r).flatten();
            &&& b.len() >= 83
            &&& b[0] == MSG_HS_HEADERS
            &&& wire_format::u64_at(b, 1) == r.request_id
            &&& wire_format::bytes32_at(b, 9) == r.target_tip_hash
            &&& wire_format::u32_at(b, 41) == r.common_ancestor_height.0
            &&& wire_format::bytes32_at(b, 45) == r.common_ancestor_hash
            &&& wire_format::entry_count(b) == r.entries.len()
            &&& b[81] == (if r.complete {
                1u8
            } else {
                0u8
            })
            &&& b[82] == wire_format::schema_byte(r.tree_aux_schema)
        }),
{
    let p = wire_format::headers_parts(r);
    let b = p.flatten();
    let head = wire_format::headers_head(r);
    lemma_headers_head_starts(r);
    layout::lemma_part_at(p, 0);
    layout::lemma_part_at(p, 1);
    layout::lemma_part_at(p, 2);
    layout::lemma_part_at(p, 3);
    layout::lemma_part_at(p, 4);
    layout::lemma_part_at(p, 5);
    layout::lemma_part_at(p, 6);
    layout::lemma_part_at(p, 7);
    assert(forall|k: int| 0 <= k < 8 ==> p[k] == head[k]);
    lemma_byte_read_back(b, 0, MSG_HS_HEADERS);
    lemma_u64_read_back(b, 1, r.request_id);
    lemma_u32_read_back(b, 41, r.common_ancestor_height.0);
    lemma_u32_read_back(b, 77, r.entries.len() as u32);
    lemma_byte_read_back(
        b,
        81,
        if r.complete {
            1u8
        } else {
            0u8
        },
    );
    lemma_byte_read_back(b, 82, wire_format::schema_byte(r.tree_aux_schema));
}

/// Header and hint `i` of an encoded response read back.
#[verifier::spinoff_prover]
#[verifier::rlimit(50)]
proof fn lemma_headers_entry_reads(r: HeadersView, parse: ChainParseView, i: int)
    requires
        sized(r),
        aux_present(r),
        parses(parse, r),
        0 <= i < r.entries.len(),
    ensures
        ({
            let b = wire_format::headers_parts(r).flatten();
            &&& wire_format::header_matches(b, parse.headers, i)
            &&& wire_format::u32_at(b, hints_from(r) + 4 * i) == r.entries[i].body_size
        }),
{
    let p = wire_format::headers_parts(r);
    let b = p.flatten();
    let n = r.entries.len();
    let hs = wire_format::header_parts(r.entries);
    let encodings = wire_format::encodings(parse.headers);
    assert(parse.headers[i] == r.entries[i].header);
    layout::lemma_start_prefix(hs, encodings, i as nat);
    layout::lemma_start_prefix(hs, encodings, (i + 1) as nat);
    lemma_headers_parts_at(r, i);
    lemma_headers_vector_starts(r, i as nat);
    lemma_headers_vector_starts(r, (i + 1) as nat);
    layout::lemma_part_at(p, 8 + i);
    layout::lemma_part_at(p, 8 + n + i);
    lemma_u32_read_back(b, hints_from(r) + 4 * i, r.entries[i].body_size);
}

/// Record `i` of an encoded response reads back.
#[verifier::spinoff_prover]
#[verifier::rlimit(50)]
proof fn lemma_headers_record_reads(r: HeadersView, i: int)
    requires
        sized(r),
        aux_present(r),
        r.tree_aux_schema == AuxSchema::V1,
        0 <= i < r.entries.len(),
        r.entries[i].tree_aux->0.height.0 <= HEIGHT_MAX,
    ensures
        ({
            let b = wire_format::headers_parts(r).flatten();
            &&& wire_format::record_error(b, records_from(r) + 156 * i, true) is None
            &&& wire_format::record_value(b, records_from(r) + 156 * i) == r.entries[i].tree_aux->0
        }),
{
    let p = wire_format::headers_parts(r);
    let b = p.flatten();
    let n = r.entries.len();
    lemma_headers_parts_at(r, i);
    lemma_headers_vector_starts(r, i as nat);
    lemma_headers_vector_starts(r, (i + 1) as nat);
    layout::lemma_part_at(p, 8 + 2 * n + i);
    assert(aux_sized(r.entries[i].tree_aux));
    lemma_record_round_trip(b, records_from(r) + 156 * i, r.entries[i].tree_aux->0);
}

/// The length of an encoded response.
#[verifier::spinoff_prover]
#[verifier::rlimit(50)]
pub(crate) proof fn lemma_headers_length(c: CodecView, r: HeadersView)
    requires
        sized(r),
        wire_format::headers_encode_error(c, r) is None,
    ensures
        wire_format::headers_parts(r).flatten().len() == records_from(r) + (if r.tree_aux_schema
            == AuxSchema::V1 {
            156 * r.entries.len()
        } else {
            0
        }),
{
    let p = wire_format::headers_parts(r);
    lemma_encodable_response(c, r);
    layout::lemma_flatten_len(p);
    lemma_headers_vector_starts(r, r.entries.len());
}

/// An encoded response has the bytes that its entries are known to need.
proof fn lemma_headers_needed(c: CodecView, r: HeadersView)
    requires
        sized(r),
        full_headers(c.network, r),
        wire_format::headers_encode_error(c, r) is None,
    ensures
        r.entries.len() * wire_format::entry_bytes_min(c.network, r.tree_aux_schema) + 83
            <= wire_format::headers_parts(r).flatten().len(),
{
    let n = r.entries.len();
    let hs = wire_format::header_parts(r.entries);
    let width = c.network.header_bytes as nat;
    lemma_headers_length(c, r);
    assert forall|k: int| 0 <= k < hs.len() implies (#[trigger] hs[k]).len() >= width by {
        assert(r.entries[k].header.encoded.len() >= width);
    }
    layout::lemma_start_at_least(hs, width, n);
    let fixed: int = if r.tree_aux_schema == AuxSchema::V1 {
        160
    } else {
        4
    };
    assert(n * (width + fixed) == width * n + fixed * n) by (nonlinear_arith);
}

#[verifier::spinoff_prover]
#[verifier::rlimit(50)]
proof fn lemma_headers_round_trip(
    c: CodecView,
    context: HeaderSyncDecodeContext,
    r: HeadersView,
    parse: ChainParseView,
)
    requires
        sized(r),
        full_headers(c.network, r),
        parses(parse, r),
        admits(context, r),
        wire_format::headers_encode_error(c, r) is None,
        wire_format::headers_parts(r).flatten().len() <= usize::MAX,
    ensures
        ({
            let b = wire_format::headers_parts(r).flatten();
            &&& b.len() == wire_format::headers_end(b, parse)
            &&& b.len() > 0
            &&& b[0] == MSG_HS_HEADERS
            &&& wire_format::headers_error(c, context, b, parse) is None
            &&& wire_format::headers_value(b, parse) == r
        }),
{
    let b = wire_format::headers_parts(r).flatten();
    let n = r.entries.len();
    let hs = wire_format::header_parts(r.entries);
    let encodings = wire_format::encodings(parse.headers);
    let v = wire_format::headers_value(b, parse);
    lemma_encodable_response(c, r);
    lemma_headers_head_reads(c, r);
    lemma_headers_length(c, r);
    lemma_headers_needed(c, r);
    let least = wire_format::entry_bytes_min(c.network, r.tree_aux_schema);
    assert(n > 0 ==> least <= n * least) by (nonlinear_arith)
        requires
            least >= 0,
    ;
    layout::lemma_start_prefix(hs, encodings, n);
    assert(hints_from(r) == wire_format::hints_start(b, parse));
    assert(wire_format::announced_schema(b) == r.tree_aux_schema);
    assert(wire_format::headers_head_error(c, context, b) is None);
    assert forall|i: int| 0 <= i < n implies #[trigger] wire_format::header_matches(
        b,
        parse.headers,
        i,
    ) by {
        lemma_headers_entry_reads(r, parse, i);
    }
    assert forall|j: int| 0 <= j < n implies #[trigger] wire_format::u32_at(
        b,
        wire_format::hints_start(b, parse) + 4 * j,
    ) <= MAX_BODY_SIZE_HINT by {
        lemma_headers_entry_reads(r, parse, j);
        assert(r.entries[j].body_size <= MAX_BODY_SIZE_HINT);
    }
    lemma_hints_ok(b, wire_format::hints_start(b, parse), 0, n);
    if r.tree_aux_schema == AuxSchema::V1 {
        assert forall|j: int| 0 <= j < n implies (#[trigger] wire_format::record_error(
            b,
            wire_format::records_start(b, parse) + 156 * j,
            true,
        )) is None by {
            assert(r.entries[j].tree_aux->0.height.0 <= HEIGHT_MAX);
            lemma_headers_record_reads(r, j);
        }
        lemma_records_ok(b, wire_format::records_start(b, parse), 0, n, parse.accepted_roots);
    }
    assert forall|i: int| 0 <= i < n implies v.entries[i] == r.entries[i] by {
        lemma_headers_entry_reads(r, parse, i);
        if r.tree_aux_schema == AuxSchema::V1 {
            assert(r.entries[i].tree_aux->0.height.0 <= HEIGHT_MAX);
            lemma_headers_record_reads(r, i);
        }
        assert(v.entries[i] == wire_format::entry_value(b, parse, i));
        assert(parse.headers[i] == r.entries[i].header);
    }
    assert(v.entries =~= r.entries);
    assert(v =~= r);
}

/// The fields of a message have the sizes that their types give them.
pub(crate) proof fn lemma_message_sizes(m: HeaderSyncMessage)
    ensures
        m matches HeaderSyncMessage::Status(s) ==> {
            &&& s@.work_anchor_hash.len() == 32
            &&& s@.selected_tip_hash.len() == 32
            &&& s@.suffix_cumulative_work < le::capacity(32)
        },
        m matches HeaderSyncMessage::GetHeaders(r) ==> {
            &&& r@.target_tip_hash.len() == 32
            &&& forall|i: int|
                0 <= i < r@.locator_hashes.len() ==> (#[trigger] r@.locator_hashes[i]).len() == 32
        },
        m matches HeaderSyncMessage::Headers(r) ==> sized(r@),
        m matches HeaderSyncMessage::HeadersOutcome(o) ==> o@.target_tip_hash.len() == 32,
{
    match m {
        HeaderSyncMessage::Status(s) => {
            le::lemma_value_bound(s.suffix_cumulative_work.0@);
        },
        HeaderSyncMessage::Headers(r) => {
            assert forall|i: int| 0 <= i < r@.entries.len() implies aux_sized(
                #[trigger] r@.entries[i].tree_aux,
            ) by {
                assert(r@.entries[i] == r.entries@[i]@);
            }
        },
        _ => {},
    }
}

/// Whether a codec that decodes with `context` and `parse` has what it needs for a message:
/// nothing, unless the message is a `Headers`; then the bounds of the matching request, and what
/// the chain's parsers make of its vectors.
pub open spec fn prepared_for(
    network: Network,
    context: Option<HeaderSyncDecodeContext>,
    parse: ChainParseView,
    m: HeaderSyncMessage,
) -> bool {
    m matches HeaderSyncMessage::Headers(r) ==> {
        &&& context matches Some(bounds) && admits(bounds, r@)
        &&& parses(parse, r@)
        &&& full_headers(network, r@)
    }
}

/// Decoding an encoded message gives the message back.
#[verifier::spinoff_prover]
#[verifier::rlimit(50)]
pub proof fn encoded_message_decodes_to_itself(
    c: CodecView,
    context: Option<HeaderSyncDecodeContext>,
    parse: ChainParseView,
    m: HeaderSyncMessage,
)
    requires
        wire_format::encode_error(c, m@) is None,
        prepared_for(c.network, context, parse, m),
    ensures
        wire_format::decode_error(c, context, wire_format::message_bytes(m@), parse) is None,
        wire_format::decode_value(wire_format::message_bytes(m@), parse) == m@,
{
    lemma_message_sizes(m);
    match m {
        HeaderSyncMessage::Status(s) => {
            lemma_status_round_trip(s@);
        },
        HeaderSyncMessage::GetHeaders(r) => {
            lemma_get_headers_round_trip(c, r@);
        },
        HeaderSyncMessage::Headers(r) => {
            lemma_headers_round_trip(c, context->0, r@, parse);
        },
        HeaderSyncMessage::HeadersOutcome(o) => {
            lemma_outcome_round_trip(o@);
        },
    }
}

/// A decoded payload is the one encoding of its message: encoding the message again succeeds and
/// gives the same bytes.
#[verifier::spinoff_prover]
#[verifier::rlimit(50)]
pub proof fn decoded_payload_is_canonical(
    c: CodecView,
    context: Option<HeaderSyncDecodeContext>,
    b: Seq<u8>,
    parse: ChainParseView,
)
    requires
        wire_format::decode_error(c, context, b, parse) is None,
    ensures
        wire_format::message_bytes(wire_format::decode_value(b, parse)) == b,
        wire_format::encode_error(c, wire_format::decode_value(b, parse)) is None,
{
    if b[0] == MSG_HS_STATUS {
        lemma_status_canonical(b);
    } else if b[0] == MSG_HS_GET_HEADERS {
        lemma_get_headers_canonical(b);
    } else if b[0] == MSG_HS_HEADERS {
        lemma_headers_accepted(c, context->0, b, parse);
        lemma_headers_canonical(b, parse);
    } else {
        lemma_outcome_canonical(b);
    }
}

/// The first byte of an encoding is the discriminator of its message.
pub proof fn encoding_starts_with_discriminator(c: CodecView, m: HeaderSyncMessage)
    requires
        wire_format::encode_error(c, m@) is None,
    ensures
        wire_format::message_bytes(m@).len() > 0,
        wire_format::message_bytes(m@)[0] == wire_format::discriminator(m@),
{
    lemma_message_sizes(m);
    match m {
        HeaderSyncMessage::Status(s) => {
            lemma_status_round_trip(s@);
        },
        HeaderSyncMessage::GetHeaders(r) => {
            lemma_get_headers_round_trip(c, r@);
        },
        HeaderSyncMessage::Headers(r) => {
            lemma_headers_head_reads(c, r@);
        },
        HeaderSyncMessage::HeadersOutcome(o) => {
            lemma_outcome_round_trip(o@);
        },
    }
}

/// Decoding the frame of an encoded message gives the message back.
#[verifier::spinoff_prover]
#[verifier::rlimit(50)]
pub proof fn framed_message_decodes_to_itself(
    c: CodecView,
    context: Option<HeaderSyncDecodeContext>,
    parse: ChainParseView,
    m: HeaderSyncMessage,
)
    requires
        wire_format::encode_error(c, m@) is None,
        prepared_for(c.network, context, parse, m),
    ensures
        wire_format::decode_frame_error(
            c,
            context,
            wire_format::discriminator(m@) as u16,
            0,
            wire_format::message_bytes(m@),
            parse,
        ) is None,
{
    encoded_message_decodes_to_itself(c, context, parse, m);
}

/// Only a `Headers` depends on the bounds of a request and on the chain's parsers: every other
/// payload decodes alike with any of them.
pub proof fn context_matters_only_for_headers(
    c: CodecView,
    b: Seq<u8>,
    context1: Option<HeaderSyncDecodeContext>,
    parse1: ChainParseView,
    context2: Option<HeaderSyncDecodeContext>,
    parse2: ChainParseView,
)
    requires
        b.len() > 0,
        b[0] != MSG_HS_HEADERS,
    ensures
        wire_format::decode_error(c, context1, b, parse1) == wire_format::decode_error(
            c,
            context2,
            b,
            parse2,
        ),
        wire_format::decode_value(b, parse1) == wire_format::decode_value(b, parse2),
{
}

/// A `Headers` that no request matches is never accepted.
pub proof fn unsolicited_headers_are_rejected(c: CodecView, b: Seq<u8>, parse: ChainParseView)
    requires
        0 < b.len() <= c.message_byte_limit,
        b[0] == MSG_HS_HEADERS,
    ensures
        wire_format::decode_error(c, None, b, parse) == Some(
            HeaderSyncWireError::UnsolicitedHeaders,
        ),
{
}

/// An accepted `Headers` stays within the bounds of its request and of the codec, links from its
/// common ancestor header by header, reaches its target if it is complete, and every entry has a
/// bounded hint, a supported inferred height, and a record of that height if the schema has one.
#[verifier::spinoff_prover]
#[verifier::rlimit(50)]
pub proof fn accepted_headers_are_bounded_and_linked(
    c: CodecView,
    context: HeaderSyncDecodeContext,
    b: Seq<u8>,
    parse: ChainParseView,
)
    requires
        b.len() > 0,
        b[0] == MSG_HS_HEADERS,
        wire_format::decode_error(c, Some(context), b, parse) is None,
    ensures
        ({
            let r = wire_format::headers_value(b, parse);
            &&& r.request_id != 0
            &&& r.entries.len() <= context.max_header_count
            &&& r.entries.len() <= c.header_count_limit
            &&& r.tree_aux_schema == AuxSchema::NoAux || r.tree_aux_schema
                == context.requested_tree_aux_schema
            &&& wire_format::contiguous(r)
            &&& r.entries.len() == 0 <==> r.complete && r.common_ancestor_hash
                == r.target_tip_hash
            &&& r.complete && r.entries.len() > 0 ==> r.entries.last().header.hash
                == r.target_tip_hash
            &&& forall|i: int|
                0 <= i < r.entries.len() ==> {
                    let entry = #[trigger] r.entries[i];
                    let inferred = r.common_ancestor_height.0 + 1 + i;
                    &&& entry.body_size <= MAX_BODY_SIZE_HINT
                    &&& inferred <= HEIGHT_MAX
                    &&& entry.tree_aux is Some <==> r.tree_aux_schema == AuxSchema::V1
                    &&& entry.tree_aux matches Some(aux) ==> aux.height.0 == inferred
                }
        }),
{
    let r = wire_format::headers_value(b, parse);
    lemma_headers_accepted(c, context, b, parse);
    assert forall|i: int| 0 <= i < r.entries.len() implies {
        let entry = #[trigger] r.entries[i];
        let inferred = r.common_ancestor_height.0 + 1 + i;
        &&& entry.body_size <= MAX_BODY_SIZE_HINT
        &&& inferred <= HEIGHT_MAX
        &&& entry.tree_aux is Some <==> r.tree_aux_schema == AuxSchema::V1
        &&& entry.tree_aux matches Some(aux) ==> aux.height.0 == inferred
    } by {
        wire_format::lemma_entries_ok(c.network, r, 0, i);
    }
}

} // verus!
