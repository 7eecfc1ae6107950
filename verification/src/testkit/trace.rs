//! Rows of the block-sync trace table, as plain values.
use serde_json::Value;
use vstd::prelude::*;

verus! {

/// A JSON value.
#[verifier::external_type_specification]
#[verifier::external_body]
pub struct ExValue(Value);

/// The fields of a JSON object that are integers of 64 bits without a sign. A value that is no
/// object has none.
pub uninterp spec fn number_fields(row: Value) -> Map<Seq<char>, u64>;

/// The fields of a JSON object that are strings. A value that is no object has none.
pub uninterp spec fn text_fields(row: Value) -> Map<Seq<char>, Seq<char>>;

/// `serde_json::Value::get` and `serde_json::Value::as_u64`: the number in a field, if the value
/// is an object that has the field and the field is an integer of 64 bits without a sign.
#[verifier::external_body]
fn u64_field(row: &Value, field: &str) -> (r: Option<u64>)
    ensures
        match r {
            Some(n) => number_fields(*row).contains_key(field@) && number_fields(*row)[field@]
                == n,
            None => !number_fields(*row).contains_key(field@),
        },
{
    row.get(field).and_then(Value::as_u64)
}

/// `serde_json::Value::get` and `serde_json::Value::as_str`: the text in a field, if the value is
/// an object that has the field and the field is a string.
#[verifier::external_body]
fn str_field(row: &Value, field: &str) -> (r: Option<String>)
    ensures
        match r {
            Some(text) => text_fields(*row).contains_key(field@) && text_fields(*row)[field@]
                == text@,
            None => !text_fields(*row).contains_key(field@),
        },
{
    row.get(field).and_then(Value::as_str).map(str::to_owned)
}

/// What a trace row reports, as far as runs are judged by it.
#[derive(Clone, Copy, Debug, PartialEq, Eq, Structural)]
pub enum TraceEvent {
    /// A snapshot of the reactor.
    State,
    /// A peer connected.
    PeerConnected,
    /// A request was sent to a peer.
    GetBlocksSent,
    /// A block body was accepted from a peer.
    BodyReceived,
    /// A peer disconnected.
    PeerDisconnected,
    /// A peer's session was parked.
    PeerParked,
    /// A peer broke the protocol.
    ProtocolReject,
    /// Anything else.
    Other,
}

/// What an event name stands for.
pub open spec fn event_of(name: Option<Seq<char>>) -> TraceEvent {
    match name {
        None => TraceEvent::Other,
        Some(text) => if text == "block_sync_state"@ {
            TraceEvent::State
        } else if text == "block_peer_connected"@ {
            TraceEvent::PeerConnected
        } else if text == "block_get_blocks_sent"@ {
            TraceEvent::GetBlocksSent
        } else if text == "block_body_received"@ {
            TraceEvent::BodyReceived
        } else if text == "block_peer_disconnected"@ {
            TraceEvent::PeerDisconnected
        } else if text == "block_peer_parked"@ {
            TraceEvent::PeerParked
        } else if text == "block_peer_protocol_reject"@ {
            TraceEvent::ProtocolReject
        } else {
            TraceEvent::Other
        },
    }
}

/// Whether a text is a given literal.
fn is_text(text: &String, literal: &str) -> (r: bool)
    ensures
        r == (text@ == literal@),
{
    *text == literal.to_owned()
}

/// What an event name stands for.
pub fn read_event(name: &Option<String>) -> (event: TraceEvent)
    ensures
        event == event_of(
            match *name {
                Some(text) => Some(text@),
                None => None,
            },
        ),
{
    match name {
        None => TraceEvent::Other,
        Some(text) => if is_text(text, "block_sync_state") {
            TraceEvent::State
        } else if is_text(text, "block_peer_connected") {
            TraceEvent::PeerConnected
        } else if is_text(text, "block_get_blocks_sent") {
            TraceEvent::GetBlocksSent
        } else if is_text(text, "block_body_received") {
            TraceEvent::BodyReceived
        } else if is_text(text, "block_peer_disconnected") {
            TraceEvent::PeerDisconnected
        } else if is_text(text, "block_peer_parked") {
            TraceEvent::PeerParked
        } else if is_text(text, "block_peer_protocol_reject") {
            TraceEvent::ProtocolReject
        } else {
            TraceEvent::Other
        },
    }
}

/// The fields of a trace row by which runs are judged.
#[derive(Clone, Debug, PartialEq, Eq)]
pub struct TraceRow {
    /// What the row reports.
    pub event: TraceEvent,
    /// The peer that it is about.
    pub peer: Option<String>,
    /// Requests in flight across all peers.
    pub outstanding: Option<u64>,
    /// Reserved download bytes.
    pub budget_reserved: Option<u64>,
    /// Wire bytes of bodies held in the pipeline.
    pub retained_pipeline_wire_bytes: Option<u64>,
    /// Whether a request was sent although the peer was saturated.
    pub floor_bypass: Option<u64>,
    /// Whether the peer has delivered a body before.
    pub block_progress_proven: Option<u64>,
    /// Requests to the peer since its last body.
    pub requests_without_block_progress: Option<u64>,
    /// Window of the peer in bytes.
    pub bbr_cwnd_bytes: Option<u64>,
    /// Bytes in flight from the peer.
    pub bbr_inflight_bytes: Option<u64>,
    /// Window of the peer in requests.
    pub bbr_cwnd: Option<u64>,
    /// Reliability of the peer, per mille.
    pub bbr_reliability_permille: Option<u64>,
}

/// The content of a [`TraceRow`].
#[verifier::ext_equal]
pub struct TraceRowView {
    pub event: TraceEvent,
    pub peer: Option<Seq<char>>,
    pub outstanding: Option<u64>,
    pub budget_reserved: Option<u64>,
    pub retained_pipeline_wire_bytes: Option<u64>,
    pub floor_bypass: Option<u64>,
    pub block_progress_proven: Option<u64>,
    pub requests_without_block_progress: Option<u64>,
    pub bbr_cwnd_bytes: Option<u64>,
    pub bbr_inflight_bytes: Option<u64>,
    pub bbr_cwnd: Option<u64>,
    pub bbr_reliability_permille: Option<u64>,
}

impl View for TraceRow {
    type V = TraceRowView;

    open spec fn view(&self) -> TraceRowView {
        TraceRowView {
            event: self.event,
            peer: match self.peer {
                Some(text) => Some(text@),
                None => None,
            },
            outstanding: self.outstanding,
            budget_reserved: self.budget_reserved,
            retained_pipeline_wire_bytes: self.retained_pipeline_wire_bytes,
            floor_bypass: self.floor_bypass,
            block_progress_proven: self.block_progress_proven,
            requests_without_block_progress: self.requests_without_block_progress,
            bbr_cwnd_bytes: self.bbr_cwnd_bytes,
            bbr_inflight_bytes: self.bbr_inflight_bytes,
            bbr_cwnd: self.bbr_cwnd,
            bbr_reliability_permille: self.bbr_reliability_permille,
        }
    }
}

/// The number in a field of a trace row.
pub open spec fn number_in(row: Value, field: Seq<char>) -> Option<u64> {
    if number_fields(row).contains_key(field) {
        Some(number_fields(row)[field])
    } else {
        None
    }
}

/// The text in a field of a trace row.
pub open spec fn text_in(row: Value, field: Seq<char>) -> Option<Seq<char>> {
    if text_fields(row).contains_key(field) {
        Some(text_fields(row)[field])
    } else {
        None
    }
}

/// What a JSON trace row holds.
pub open spec fn row_of(row: Value) -> TraceRowView {
    TraceRowView {
        event: event_of(text_in(row, "event"@)),
        peer: text_in(row, "peer"@),
        outstanding: number_in(row, "outstanding"@),
        budget_reserved: number_in(row, "budget_reserved"@),
        retained_pipeline_wire_bytes: number_in(row, "retained_pipeline_wire_bytes"@),
        floor_bypass: number_in(row, "floor_bypass"@),
        block_progress_proven: number_in(row, "block_progress_proven"@),
        requests_without_block_progress: number_in(row, "requests_without_block_progress"@),
        bbr_cwnd_bytes: number_in(row, "bbr_cwnd_bytes"@),
        bbr_inflight_bytes: number_in(row, "bbr_inflight_bytes"@),
        bbr_cwnd: number_in(row, "bbr_cwnd"@),
        bbr_reliability_permille: number_in(row, "bbr_reliability_permille"@),
    }
}

/// Reads a JSON trace row.
pub fn read_row(row: &Value) -> (r: TraceRow)
    ensures
        r@ == row_of(*row),
{
    let name = str_field(row, "event");
    TraceRow {
        event: read_event(&name),
        peer: str_field(row, "peer"),
        outstanding: u64_field(row, "outstanding"),
        budget_reserved: u64_field(row, "budget_reserved"),
        retained_pipeline_wire_bytes: u64_field(row, "retained_pipeline_wire_bytes"),
        floor_bypass: u64_field(row, "floor_bypass"),
        block_progress_proven: u64_field(row, "block_progress_proven"),
        requests_without_block_progress: u64_field(row, "requests_without_block_progress"),
        bbr_cwnd_bytes: u64_field(row, "bbr_cwnd_bytes"),
        bbr_inflight_bytes: u64_field(row, "bbr_inflight_bytes"),
        bbr_cwnd: u64_field(row, "bbr_cwnd"),
        bbr_reliability_permille: u64_field(row, "bbr_reliability_permille"),
    }
}

/// Reads JSON trace rows, in order.
pub fn read_rows(rows: &Vec<Value>) -> (r: Vec<TraceRow>)
    ensures
        r@.len() == rows@.len(),
        forall|i: int| 0 <= i < rows@.len() ==> (#[trigger] r@[i])@ == row_of(rows@[i]),
{
    let mut out: Vec<TraceRow> = Vec::new();
    let mut i: usize = 0;
    while i < rows.len()
        invariant
            i <= rows@.len(),
            out@.len() == i,
            forall|j: int| 0 <= j < i ==> (#[trigger] out@[j])@ == row_of(rows@[j]),
        decreases rows@.len() - i,
    {
        out.push(read_row(&rows[i]));
        i = i + 1;
    }
    out
}

} // verus!
