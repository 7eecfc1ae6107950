//! The bounded header-sync codec.
use std::sync::Arc;
use vstd::prelude::*;

use crate::chain::{copy32, BlockHash, BlockHeader, Height, Network, HEIGHT_MAX, U256};
use crate::frame::Frame;
use crate::header_sync::ids::HeaderSyncRequestId;
use crate::header_sync::wire_format;
use crate::header_sync::wire_format::{ChainParseView, CodecView};
use crate::layout;
use crate::le;

pub use crate::header_sync::message::{
    AuxSchema, ChainParse, GetHeaders, HeaderEntry, HeaderSyncDecodeContext, HeaderSyncMessage,
    HeaderSyncWireError, Headers, HeadersOutcome, HeadersOutcomeCode, SerializationError,
    ServeCapabilities, Status, TreeAuxRecordV1, WireIoError, DEFAULT_HS_MAX_INFLIGHT,
    DEFAULT_HS_RANGE, MAX_BODY_SIZE_HINT, MAX_HS_MESSAGE_BYTES, MAX_HS_RANGE, MAX_LOCATOR_HASHES,
    MSG_HS_GET_HEADERS, MSG_HS_HEADERS, MSG_HS_HEADERS_OUTCOME, MSG_HS_STATUS,
    TREE_AUX_SCHEMA_V1_BYTES, ZAKURA_HEADER_SYNC_STREAM_VERSION, ZAKURA_STREAM_HEADER_SYNC,
};

verus! {

/// Bytes written so far, and the parts that they were written as.
struct PartWriter {
    bytes: Vec<u8>,
    parts: Ghost<Seq<Seq<u8>>>,
}

impl PartWriter {
    /// The bytes are the parts, one after another.
    spec fn wf(&self) -> bool {
        self.bytes@ == self.parts@.flatten()
    }

    fn new() -> (w: Self)
        ensures
            w.wf(),
            w.parts@ == Seq::<Seq<u8>>::empty(),
    {
        let w = PartWriter { bytes: Vec::new(), parts: Ghost(Seq::empty()) };
        assert(w.bytes@ =~= w.parts@.flatten());
        w
    }

    fn put_byte(&mut self, byte: u8)
        requires
            old(self).wf(),
        ensures
            final(self).wf(),
            final(self).parts@ == old(self).parts@.push(seq![byte]),
    {
        self.bytes.push(byte);
        proof {
            layout::lemma_flatten_push(self.parts@, seq![byte]);
            self.parts@ = self.parts@.push(seq![byte]);
            assert(self.bytes@ =~= self.parts@.flatten());
        }
    }

    fn put_le(&mut self, n: u64, width: usize)
        requires
            old(self).wf(),
        ensures
            final(self).wf(),
            final(self).parts@ == old(self).parts@.push(le::bytes(n as nat, width as nat)),
    {
        le::push(&mut self.bytes, n, width);
        proof {
            layout::lemma_flatten_push(self.parts@, le::bytes(n as nat, width as nat));
            self.parts@ = self.parts@.push(le::bytes(n as nat, width as nat));
        }
    }

    fn put_bytes(&mut self, part: &[u8])
        requires
            old(self).wf(),
        ensures
            final(self).wf(),
            final(self).parts@ == old(self).parts@.push(part@),
    {
        self.bytes.extend_from_slice(part);
        proof {
            layout::lemma_flatten_push(self.parts@, part@);
            self.parts@ = self.parts@.push(part@);
            assert(self.bytes@ =~= self.parts@.flatten());
        }
    }
}

fn validate_nonzero_id(request_id: u64, message: &'static str) -> (r: Result<
    (),
    HeaderSyncWireError,
>)
    ensures
        match wire_format::id_error(request_id, message) {
            Some(error) => r == Err::<(), HeaderSyncWireError>(error),
            None => r is Ok,
        },
{
    if request_id == 0 {
        return Err(HeaderSyncWireError::ZeroRequestId(message));
    }
    Ok(())
}

fn write_request_id(writer: &mut PartWriter, request_id: u64, message: &'static str) -> (r: Result<
    (),
    HeaderSyncWireError,
>)
    requires
        old(writer).wf(),
    ensures
        match wire_format::id_error(request_id, message) {
            Some(error) => r == Err::<(), HeaderSyncWireError>(error),
            None => {
                &&& r is Ok
                &&& final(writer).wf()
                &&& final(writer).parts@ == old(writer).parts@.push(
                    le::bytes(request_id as nat, 8),
                )
            },
        },
{
    validate_nonzero_id(request_id, message)?;
    writer.put_le(request_id, 8);
    Ok(())
}

fn write_height(writer: &mut PartWriter, height: Height) -> (r: Result<(), HeaderSyncWireError>)
    requires
        old(writer).wf(),
    ensures
        match wire_format::height_error(height.0) {
            Some(error) => r == Err::<(), HeaderSyncWireError>(error),
            None => {
                &&& r is Ok
                &&& final(writer).wf()
                &&& final(writer).parts@ == old(writer).parts@.push(le::bytes(height.0 as nat, 4))
            },
        },
{
    if height.0 > HEIGHT_MAX {
        return Err(HeaderSyncWireError::HeightOutOfRange(height.0));
    }
    writer.put_le(height.0 as u64, 4);
    Ok(())
}

fn validate_nonzero_count(field: &'static str, actual: usize, max: usize) -> (r: Result<
    (),
    HeaderSyncWireError,
>)
    ensures
        match wire_format::nonzero_count_error(field, actual as nat, max as nat) {
            Some(error) => r == Err::<(), HeaderSyncWireError>(error),
            None => r is Ok,
        },
{
    if actual == 0 || actual > max {
        return Err(HeaderSyncWireError::CountOutOfRange { field, actual, max });
    }
    Ok(())
}

fn validate_count_allow_zero(field: &'static str, actual: usize, max: usize) -> (r: Result<
    (),
    HeaderSyncWireError,
>)
    ensures
        match wire_format::count_error(field, actual as nat, max as nat) {
            Some(error) => r == Err::<(), HeaderSyncWireError>(error),
            None => r is Ok,
        },
{
    if actual > max {
        return Err(HeaderSyncWireError::CountOutOfRange { field, actual, max });
    }
    Ok(())
}

fn validate_body_size(body_size: u32) -> (r: Result<(), HeaderSyncWireError>)
    ensures
        match wire_format::body_size_error(body_size) {
            Some(error) => r == Err::<(), HeaderSyncWireError>(error),
            None => r is Ok,
        },
{
    if body_size > MAX_BODY_SIZE_HINT {
        return Err(HeaderSyncWireError::BodySizeHintOutOfRange(body_size));
    }
    Ok(())
}

/// Reads a `width`-byte number at `at`.
fn read_le(bytes: &[u8], at: usize, width: usize) -> (r: Result<u64, HeaderSyncWireError>)
    requires
        at <= bytes@.len(),
        width <= 8,
    ensures
        match wire_format::eof_error(bytes@, at + width) {
            Some(error) => r == Err::<u64, HeaderSyncWireError>(error),
            None => r matches Ok(n) && n as nat == le::value(
                bytes@.subrange(at as int, at + width),
            ) && n < le::capacity(width as nat),
        },
{
    if bytes.len() - at < width {
        return Err(HeaderSyncWireError::Io(WireIoError::UnexpectedEof));
    }
    Ok(le::read(bytes, at, width))
}

fn read_u8(bytes: &[u8], at: usize) -> (r: Result<u8, HeaderSyncWireError>)
    requires
        at <= bytes@.len(),
    ensures
        match wire_format::eof_error(bytes@, at + 1) {
            Some(error) => r == Err::<u8, HeaderSyncWireError>(error),
            None => r == Ok::<u8, HeaderSyncWireError>(bytes@[at as int]),
        },
{
    if bytes.len() == at {
        return Err(HeaderSyncWireError::Io(WireIoError::UnexpectedEof));
    }
    Ok(bytes[at])
}

fn read_u16(bytes: &[u8], at: usize) -> (r: Result<u16, HeaderSyncWireError>)
    requires
        at <= bytes@.len(),
    ensures
        match wire_format::eof_error(bytes@, at + 2) {
            Some(error) => r == Err::<u16, HeaderSyncWireError>(error),
            None => r == Ok::<u16, HeaderSyncWireError>(wire_format::u16_at(bytes@, at as int)),
        },
{
    let n: u64 = read_le(bytes, at, 2)?;
    proof {
        le::lemma_capacities();
    }
    Ok(n as u16)
}

fn read_u32(bytes: &[u8], at: usize) -> (r: Result<u32, HeaderSyncWireError>)
    requires
        at <= bytes@.len(),
    ensures
        match wire_format::eof_error(bytes@, at + 4) {
            Some(error) => r == Err::<u32, HeaderSyncWireError>(error),
            None => r == Ok::<u32, HeaderSyncWireError>(wire_format::u32_at(bytes@, at as int)),
        },
{
    let n: u64 = read_le(bytes, at, 4)?;
    proof {
        le::lemma_capacities();
    }
    Ok(n as u32)
}

fn read_u64(bytes: &[u8], at: usize) -> (r: Result<u64, HeaderSyncWireError>)
    requires
        at <= bytes@.len(),
    ensures
        match wire_format::eof_error(bytes@, at + 8) {
            Some(error) => r == Err::<u64, HeaderSyncWireError>(error),
            None => r == Ok::<u64, HeaderSyncWireError>(wire_format::u64_at(bytes@, at as int)),
        },
{
    read_le(bytes, at, 8)
}

fn read_request_id(bytes: &[u8], at: usize, message: &'static str) -> (r: Result<
    u64,
    HeaderSyncWireError,
>)
    requires
        at <= bytes@.len(),
    ensures
        match wire_format::id_at_error(bytes@, at as int, message) {
            Some(error) => r == Err::<u64, HeaderSyncWireError>(error),
            None => r == Ok::<u64, HeaderSyncWireError>(wire_format::u64_at(bytes@, at as int))
                && bytes@.len() >= at + 8,
        },
{
    let request_id: u64 = read_u64(bytes, at)?;
    validate_nonzero_id(request_id, message)?;
    Ok(request_id)
}

fn read_height(bytes: &[u8], at: usize) -> (r: Result<Height, HeaderSyncWireError>)
    requires
        at <= bytes@.len(),
    ensures
        match wire_format::height_at_error(bytes@, at as int) {
            Some(error) => r == Err::<Height, HeaderSyncWireError>(error),
            None => r == Ok::<Height, HeaderSyncWireError>(
                Height(wire_format::u32_at(bytes@, at as int)),
            ) && bytes@.len() >= at + 4,
        },
{
    let height: u32 = read_u32(bytes, at)?;
    if height > HEIGHT_MAX {
        return Err(HeaderSyncWireError::HeightOutOfRange(height));
    }
    Ok(Height(height))
}

fn read_hash(bytes: &[u8], at: usize) -> (r: Result<BlockHash, HeaderSyncWireError>)
    requires
        at <= bytes@.len(),
    ensures
        match wire_format::hash_error(bytes@, at + 32) {
            Some(error) => r == Err::<BlockHash, HeaderSyncWireError>(error),
            None => r matches Ok(hash) && hash@ == wire_format::bytes32_at(bytes@, at as int),
        },
{
    if bytes.len() - at < 32 {
        return Err(HeaderSyncWireError::Serialization(SerializationError::Truncated));
    }
    Ok(BlockHash(copy32(bytes, at)))
}

fn read_bool(bytes: &[u8], at: usize, field: &'static str) -> (r: Result<bool, HeaderSyncWireError>)
    requires
        at <= bytes@.len(),
    ensures
        match wire_format::eof_error(bytes@, at + 1) {
            Some(error) => r == Err::<bool, HeaderSyncWireError>(error),
            None => if bytes@[at as int] > 1 {
                r == Err::<bool, HeaderSyncWireError>(
                    HeaderSyncWireError::InvalidBool { field, value: bytes@[at as int] },
                )
            } else {
                r == Ok::<bool, HeaderSyncWireError>(bytes@[at as int] == 1)
            },
        },
{
    let value: u8 = read_u8(bytes, at)?;
    if value == 0 {
        Ok(false)
    } else if value == 1 {
        Ok(true)
    } else {
        Err(HeaderSyncWireError::InvalidBool { field, value })
    }
}

fn require_remaining(bytes: &[u8], at: usize, required: usize, field: &'static str) -> (r: Result<
    (),
    HeaderSyncWireError,
>)
    ensures
        match wire_format::missing_error(bytes@, at as int, required as int, field) {
            Some(error) => r == Err::<(), HeaderSyncWireError>(error),
            None => r is Ok,
        },
{
    let total: usize = bytes.len();
    if at > total {
        return Err(HeaderSyncWireError::NumericOverflow("remaining bytes"));
    }
    let remaining: usize = total - at;
    if remaining < required {
        return Err(
            HeaderSyncWireError::Io(WireIoError::MissingBytes { field, required, remaining }),
        );
    }
    Ok(())
}

fn reject_trailing(bytes: &[u8], end: usize) -> (r: Result<(), HeaderSyncWireError>)
    ensures
        match wire_format::trailing_error(bytes@, end as int) {
            Some(error) => r == Err::<(), HeaderSyncWireError>(error),
            None => r is Ok,
        },
{
    if end != bytes.len() {
        return Err(HeaderSyncWireError::TrailingBytes);
    }
    Ok(())
}

impl TreeAuxRecordV1 {
    /// Writes the record as one part.
    fn encode_to(&self, writer: &mut PartWriter)
        requires
            old(writer).wf(),
        ensures
            final(writer).wf(),
            final(writer).parts@ == old(writer).parts@.push(
                wire_format::tree_aux_parts(self@).flatten(),
            ),
    {
        let mut record = PartWriter::new();
        record.put_le(self.height.0 as u64, 4);
        record.put_bytes(&self.sapling_root);
        record.put_bytes(&self.orchard_root);
        record.put_bytes(&self.ironwood_root);
        record.put_le(self.sapling_tx_count, 8);
        record.put_le(self.orchard_tx_count, 8);
        record.put_le(self.ironwood_tx_count, 8);
        record.put_bytes(&self.auth_data_root);
        assert(record.parts@ =~= wire_format::tree_aux_parts(self@));
        writer.put_bytes(record.bytes.as_slice());
    }

    /// Reads the record at `at`, whose roots the chain's parsers did or did not accept.
    fn decode_from(bytes: &[u8], at: usize, roots_accepted: bool) -> (r: Result<
        Self,
        HeaderSyncWireError,
    >)
        requires
            at <= bytes@.len(),
        ensures
            match wire_format::record_error(bytes@, at as int, roots_accepted) {
                Some(error) => r == Err::<Self, HeaderSyncWireError>(error),
                None => r matches Ok(record) && record@ == wire_format::record_value(
                    bytes@,
                    at as int,
                ) && bytes@.len() >= at + 156,
            },
    {
        let height = read_height(bytes, at)?;
        if !roots_accepted || bytes.len() - at < 100 {
            return Err(HeaderSyncWireError::Serialization(SerializationError::Rejected));
        }
        let sapling_root = copy32(bytes, at + 4);
        let orchard_root = copy32(bytes, at + 36);
        let ironwood_root = copy32(bytes, at + 68);
        let sapling_tx_count: u64 = read_u64(bytes, at + 100)?;
        let orchard_tx_count: u64 = read_u64(bytes, at + 108)?;
        let ironwood_tx_count: u64 = read_u64(bytes, at + 116)?;
        if bytes.len() - at < TREE_AUX_SCHEMA_V1_BYTES {
            return Err(HeaderSyncWireError::Io(WireIoError::UnexpectedEof));
        }
        let auth_data_root = copy32(bytes, at + 124);
        Ok(
            TreeAuxRecordV1 {
                height,
                sapling_root,
                orchard_root,
                ironwood_root,
                sapling_tx_count,
                orchard_tx_count,
                ironwood_tx_count,
                auth_data_root,
            },
        )
    }
}

impl View for ChainParse {
    type V = ChainParseView;

    open spec fn view(&self) -> ChainParseView {
        ChainParseView {
            headers: self.headers@.map_values(|h: Arc<BlockHeader>| (*h)@),
            accepted_roots: self.accepted_roots as nat,
        }
    }
}

/// Standalone bounded codec for the negotiated protocol.
#[derive(Clone, Copy, Debug)]
pub struct HeaderSyncCodec {
    network: Network,
    message_byte_limit: usize,
    header_count_limit: u32,
    tree_aux_schema_mask: u32,
}

impl View for HeaderSyncCodec {
    type V = CodecView;

    closed spec fn view(&self) -> CodecView {
        CodecView {
            network: self.network,
            message_byte_limit: self.message_byte_limit,
            header_count_limit: self.header_count_limit,
            tree_aux_schema_mask: self.tree_aux_schema_mask,
        }
    }
}

impl HeaderSyncCodec {
    /// Caps never exceed the hard protocol limits.
    #[verifier::type_invariant]
    spec fn capped(self) -> bool {
        &&& self.message_byte_limit <= MAX_HS_MESSAGE_BYTES
        &&& self.header_count_limit <= MAX_HS_RANGE
    }

    /// Construct a codec using negotiated caps, always narrowed by hard protocol limits.
    pub fn new(
        network: Network,
        negotiated_message_bytes: u32,
        local_header_count_limit: u32,
        tree_aux_schema_mask: u32,
    ) -> (codec: Self)
        ensures
            codec@ == (CodecView {
                network,
                message_byte_limit: if negotiated_message_bytes < MAX_HS_MESSAGE_BYTES {
                    negotiated_message_bytes as usize
                } else {
                    MAX_HS_MESSAGE_BYTES
                },
                header_count_limit: if local_header_count_limit < MAX_HS_RANGE {
                    local_header_count_limit
                } else {
                    MAX_HS_RANGE
                },
                tree_aux_schema_mask,
            }),
    {
        let message_byte_limit: usize = if negotiated_message_bytes < MAX_HS_MESSAGE_BYTES as u32 {
            negotiated_message_bytes as usize
        } else {
            MAX_HS_MESSAGE_BYTES
        };
        let header_count_limit: u32 = if local_header_count_limit < MAX_HS_RANGE {
            local_header_count_limit
        } else {
            MAX_HS_RANGE
        };
        HeaderSyncCodec { network, message_byte_limit, header_count_limit, tree_aux_schema_mask }
    }

    /// Encode a locally constructed message after applying every wire invariant.
    #[verifier::spinoff_prover]
    #[verifier::rlimit(50)]
    pub fn encode(&self, message: &HeaderSyncMessage) -> (r: Result<Vec<u8>, HeaderSyncWireError>)
        ensures
            match wire_format::encode_error(self@, message@) {
                Some(error) => r == Err::<Vec<u8>, HeaderSyncWireError>(error),
                None => r matches Ok(bytes) && bytes@ == wire_format::message_bytes(message@),
            },
    {
        let mut writer = PartWriter::new();
        writer.put_byte(message.message_type());
        assert(writer.parts@ =~= seq![seq![wire_format::discriminator(message@)]]);
        match message {
            HeaderSyncMessage::Status(status) => {
                self.encode_status(&mut writer, status)?;
            },
            HeaderSyncMessage::GetHeaders(request) => {
                self.encode_get_headers(&mut writer, request)?;
            },
            HeaderSyncMessage::Headers(response) => {
                self.encode_headers(&mut writer, response)?;
            },
            HeaderSyncMessage::HeadersOutcome(outcome) => {
                write_request_id(&mut writer, outcome.request_id, "HeadersOutcome")?;
                writer.put_bytes(&outcome.target_tip_hash.0);
                writer.put_byte(outcome.outcome.wire_value());
                assert(writer.parts@ =~= wire_format::outcome_parts(outcome@));
            },
        }
        self.check_payload_size(writer.bytes.len())?;
        Ok(writer.bytes)
    }

    /// Convert a message into a bounded Zakura frame.
    pub fn encode_frame(&self, message: &HeaderSyncMessage) -> (r: Result<
        Frame,
        HeaderSyncWireError,
    >)
        ensures
            match wire_format::encode_error(self@, message@) {
                Some(error) => r == Err::<Frame, HeaderSyncWireError>(error),
                None => r matches Ok(frame) && {
                    &&& frame.message_type == wire_format::discriminator(message@)
                    &&& frame.flags == 0
                    &&& frame.payload@ == wire_format::message_bytes(message@)
                },
            },
    {
        let payload = self.encode(message)?;
        Ok(Frame { message_type: message.message_type() as u16, flags: 0, payload })
    }

    /// Read only the correlation ID needed to select bounded response decode context.
    pub fn peek_headers_request_id(frame: &Frame) -> (r: Result<
        HeaderSyncRequestId,
        HeaderSyncWireError,
    >)
        ensures
            match wire_format::peek_error(frame.message_type, frame.payload@) {
                Some(error) => r == Err::<HeaderSyncRequestId, HeaderSyncWireError>(error),
                None => r matches Ok(id) && id.spec_get() == wire_format::u64_at(
                    frame.payload@,
                    1,
                ),
            },
    {
        if frame.message_type != MSG_HS_HEADERS as u16 {
            return Err(HeaderSyncWireError::UnknownFrameMessageType(frame.message_type));
        }
        let payload: u8 = read_u8(frame.payload.as_slice(), 0)?;
        if payload != MSG_HS_HEADERS {
            return Err(
                HeaderSyncWireError::MismatchedFrameMessageType {
                    frame: frame.message_type,
                    payload,
                },
            );
        }
        let request_id: u64 = read_request_id(frame.payload.as_slice(), 1, "Headers")?;
        match HeaderSyncRequestId::new(request_id) {
            Some(id) => Ok(id),
            None => Err(HeaderSyncWireError::ZeroRequestId("Headers")),
        }
    }

    /// Decode a message, requiring request bounds for `Headers` and no other message.
    ///
    /// `parse` holds what the chain's own parsers accepted of the vectors of a `Headers` payload;
    /// [`HeaderSyncCodec::headers_section`] says where they start. No other message needs it.
    #[verifier::spinoff_prover]
    #[verifier::rlimit(50)]
    pub fn decode(
        &self,
        bytes: &[u8],
        response_context: Option<HeaderSyncDecodeContext>,
        parse: ChainParse,
    ) -> (r: Result<HeaderSyncMessage, HeaderSyncWireError>)
        ensures
            match wire_format::decode_error(self@, response_context, bytes@, parse@) {
                Some(error) => r == Err::<HeaderSyncMessage, HeaderSyncWireError>(error),
                None => r matches Ok(message) && message@ == wire_format::decode_value(
                    bytes@,
                    parse@,
                ),
            },
            r is Ok ==> bytes@.len() <= MAX_HS_MESSAGE_BYTES,
    {
        proof {
            use_type_invariant(self);
        }
        self.check_payload_size(bytes.len())?;
        let discriminator: u8 = read_u8(bytes, 0)?;
        match discriminator {
            MSG_HS_STATUS => {
                let status = self.decode_status(bytes)?;
                reject_trailing(bytes, 123)?;
                Ok(HeaderSyncMessage::Status(status))
            },
            MSG_HS_GET_HEADERS => {
                let (request, end) = self.decode_get_headers(bytes)?;
                reject_trailing(bytes, end)?;
                Ok(HeaderSyncMessage::GetHeaders(request))
            },
            MSG_HS_HEADERS => match response_context {
                None => Err(HeaderSyncWireError::UnsolicitedHeaders),
                Some(context) => {
                    let (response, end) = self.decode_headers(bytes, context, parse)?;
                    reject_trailing(bytes, end)?;
                    Ok(HeaderSyncMessage::Headers(response))
                },
            },
            MSG_HS_HEADERS_OUTCOME => {
                let request_id: u64 = read_request_id(bytes, 1, "HeadersOutcome")?;
                let target_tip_hash = read_hash(bytes, 9)?;
                let value: u8 = read_u8(bytes, 41)?;
                let outcome = HeadersOutcomeCode::decode(value)?;
                reject_trailing(bytes, 42)?;
                Ok(
                    HeaderSyncMessage::HeadersOutcome(
                        HeadersOutcome { request_id, target_tip_hash, outcome },
                    ),
                )
            },
            value => Err(HeaderSyncWireError::UnknownMessageType(value)),
        }
    }

    /// Decode a message from a Zakura frame after checking type agreement.
    pub fn decode_frame(
        &self,
        frame: Frame,
        response_context: Option<HeaderSyncDecodeContext>,
        parse: ChainParse,
    ) -> (r: Result<HeaderSyncMessage, HeaderSyncWireError>)
        ensures
            match wire_format::decode_frame_error(self@, response_context, frame.message_type,
                frame.flags, frame.payload@, parse@) {
                Some(error) => r == Err::<HeaderSyncMessage, HeaderSyncWireError>(error),
                None => r matches Ok(message) && message@ == wire_format::decode_value(
                    frame.payload@,
                    parse@,
                ),
            },
    {
        if frame.flags != 0 {
            return Err(HeaderSyncWireError::UnsupportedFlags(frame.flags));
        }
        let message = self.decode(frame.payload.as_slice(), response_context, parse)?;
        if frame.message_type > 255 {
            return Err(HeaderSyncWireError::UnknownFrameMessageType(frame.message_type));
        }
        if frame.message_type != message.message_type() as u16 {
            return Err(
                HeaderSyncWireError::MismatchedFrameMessageType {
                    frame: frame.message_type,
                    payload: message.message_type(),
                },
            );
        }
        Ok(message)
    }

    #[verifier::spinoff_prover]
    #[verifier::rlimit(50)]
    fn decode_status(&self, bytes: &[u8]) -> (r: Result<Status, HeaderSyncWireError>)
        requires
            bytes@.len() >= 1,
        ensures
            match wire_format::status_error(bytes@) {
                Some(error) => r == Err::<Status, HeaderSyncWireError>(error),
                None => r matches Ok(status) && status@ == wire_format::status_value(bytes@),
            },
    {
        let work_anchor_height = read_height(bytes, 1)?;
        let work_anchor_hash = read_hash(bytes, 5)?;
        let selected_tip_height = read_height(bytes, 37)?;
        let selected_tip_hash = read_hash(bytes, 41)?;
        if bytes.len() < 105 {
            return Err(HeaderSyncWireError::Io(WireIoError::UnexpectedEof));
        }
        let work = copy32(bytes, 73);
        let oldest_retained_height = read_height(bytes, 105)?;
        let max_headers_per_response: u32 = read_u32(bytes, 109)?;
        let max_inflight_requests: u16 = read_u16(bytes, 113)?;
        let max_message_bytes: u32 = read_u32(bytes, 115)?;
        let tree_aux_schema_mask: u32 = read_u32(bytes, 119)?;
        Ok(
            Status {
                work_anchor_height,
                work_anchor_hash,
                selected_tip_height,
                selected_tip_hash,
                suffix_cumulative_work: U256::from_little_endian(work),
                oldest_retained_height,
                max_headers_per_response,
                max_inflight_requests,
                max_message_bytes,
                tree_aux_schema_mask,
            },
        )
    }

    /// Decodes a `GetHeaders` and says where it ends.
    #[verifier::spinoff_prover]
    #[verifier::rlimit(50)]
    fn decode_get_headers(&self, bytes: &[u8]) -> (r: Result<
        (GetHeaders, usize),
        HeaderSyncWireError,
    >)
        requires
            bytes@.len() >= 1,
        ensures
            match wire_format::get_headers_error(self@, bytes@) {
                Some(error) => r == Err::<(GetHeaders, usize), HeaderSyncWireError>(error),
                None => r matches Ok((request, end)) && {
                    &&& request@ == wire_format::get_headers_value(bytes@)
                    &&& end == wire_format::locators_end(bytes@) + 5
                },
            },
    {
        let request_id: u64 = read_request_id(bytes, 1, "GetHeaders")?;
        let target_tip_hash = read_hash(bytes, 9)?;
        let count: usize = read_u8(bytes, 41)? as usize;
        validate_nonzero_count("locator", count, MAX_LOCATOR_HASHES)?;
        require_remaining(bytes, 42, count * 32 + 5, "locator bytes")?;
        let total: usize = bytes.len();
        let mut locator_hashes: Vec<BlockHash> = Vec::with_capacity(count);
        let mut i: usize = 0;
        while i < count
            invariant
                i <= count <= 13,
                total == bytes@.len(),
                total >= 42 + 32 * count + 5,
                locator_hashes@.len() == i,
                forall|j: int|
                    0 <= j < i ==> (#[trigger] locator_hashes@[j])@ == wire_format::bytes32_at(
                        bytes@,
                        42 + 32 * j,
                    ),
            decreases count - i,
        {
            locator_hashes.push(BlockHash(copy32(bytes, 42 + 32 * i)));
            i = i + 1;
        }
        let at: usize = 42 + 32 * count;
        let max_header_count: u32 = read_u32(bytes, at)?;
        let tree_aux_schema = AuxSchema::decode(read_u8(bytes, at + 4)?)?;
        let request = GetHeaders {
            request_id,
            target_tip_hash,
            locator_hashes,
            max_header_count,
            tree_aux_schema,
        };
        assert(request@.locator_hashes =~= wire_format::get_headers_value(bytes@).locator_hashes);
        self.validate_get_headers(&request)?;
        Ok((request, at + 5))
    }

    /// Reads a `Headers` payload up to its vectors, and checks that the payload can hold them.
    ///
    /// The headers start at `vectors_start` of the result; `count` of them follow each other,
    /// then `count` four-byte hints and, under schema 1, `count` tree-aux records.
    #[verifier::spinoff_prover]
    #[verifier::rlimit(50)]
    pub fn headers_section(&self, bytes: &[u8], context: HeaderSyncDecodeContext) -> (r: Result<
        HeadersSection,
        HeaderSyncWireError,
    >)
        ensures
            match wire_format::headers_head_error(self@, context, bytes@) {
                Some(error) => r == Err::<HeadersSection, HeaderSyncWireError>(error),
                None => r matches Ok(section) && {
                    &&& section.request_id == wire_format::u64_at(bytes@, 1)
                    &&& section.target_tip_hash@ == wire_format::bytes32_at(bytes@, 9)
                    &&& section.common_ancestor_height.0 == wire_format::u32_at(bytes@, 41)
                    &&& section.common_ancestor_hash@ == wire_format::bytes32_at(bytes@, 45)
                    &&& section.count == wire_format::entry_count(bytes@)
                    &&& section.count <= wire_format::entry_limit(self@, context)
                    &&& section.complete == (bytes@[81] == 1)
                    &&& section.tree_aux_schema == wire_format::announced_schema(bytes@)
                    &&& section.vectors_start == wire_format::vectors_start() <= bytes@.len()
                },
            },
    {
        if bytes.len() == 0 {
            return Err(HeaderSyncWireError::Io(WireIoError::UnexpectedEof));
        }
        let request_id: u64 = read_request_id(bytes, 1, "Headers")?;
        let target_tip_hash = read_hash(bytes, 9)?;
        let common_ancestor_height = read_height(bytes, 41)?;
        let common_ancestor_hash = read_hash(bytes, 45)?;
        let count: usize = read_u32(bytes, 77)? as usize;
        let complete = read_bool(bytes, 81, "complete")?;
        let tree_aux_schema = AuxSchema::decode(read_u8(bytes, 82)?)?;
        let max_count: u32 = if context.max_header_count < self.header_count_limit {
            context.max_header_count
        } else {
            self.header_count_limit
        };
        validate_count_allow_zero("header", count, max_count as usize)?;
        if tree_aux_schema != AuxSchema::NoAux && tree_aux_schema
            != context.requested_tree_aux_schema {
            return Err(
                HeaderSyncWireError::ResponseTreeAuxSchemaMismatch {
                    requested: context.requested_tree_aux_schema.wire_value(),
                    actual: tree_aux_schema.wire_value(),
                },
            );
        }
        let fixed: usize = if tree_aux_schema == AuxSchema::V1 {
            4 + TREE_AUX_SCHEMA_V1_BYTES
        } else {
            4
        };
        match self.network.header_bytes.checked_add(fixed) {
            None => Err(HeaderSyncWireError::NumericOverflow("minimum response size")),
            Some(per_entry_min) => match count.checked_mul(per_entry_min) {
                None => Err(HeaderSyncWireError::NumericOverflow("minimum response size")),
                Some(required) => {
                    require_remaining(bytes, 83, required, "header response bytes")?;
                    Ok(
                        HeadersSection {
                            request_id,
                            target_tip_hash,
                            common_ancestor_height,
                            common_ancestor_hash,
                            count,
                            complete,
                            tree_aux_schema,
                            vectors_start: 83,
                        },
                    )
                },
            },
        }
    }

    /// Decodes a `Headers` and says where it ends.
    #[verifier::spinoff_prover]
    #[verifier::rlimit(50)]
    fn decode_headers(
        &self,
        bytes: &[u8],
        context: HeaderSyncDecodeContext,
        parse: ChainParse,
    ) -> (r: Result<(Headers, usize), HeaderSyncWireError>)
        ensures
            match wire_format::headers_error(self@, context, bytes@, parse@) {
                Some(error) => r == Err::<(Headers, usize), HeaderSyncWireError>(error),
                None => r matches Ok((response, end)) && {
                    &&& response@ == wire_format::headers_value(bytes@, parse@)
                    &&& end == wire_format::headers_end(bytes@, parse@)
                },
            },
    {
        let section = self.headers_section(bytes, context)?;
        let n: usize = section.count;
        let hints_at: usize = match_headers(bytes, &parse, n)?;
        let body_sizes = read_hints(bytes, hints_at, n)?;
        let records_at: usize = hints_at + 4 * n;
        let mut end: usize = records_at;
        let mut aux: Vec<TreeAuxRecordV1> = Vec::new();
        if section.tree_aux_schema == AuxSchema::V1 {
            aux = read_records(bytes, records_at, n, parse.accepted_roots)?;
            end = records_at + 156 * n;
        }
        let ghost whole = parse@;
        let entries = join_entries(parse.headers, body_sizes, aux, n);
        let response = Headers {
            request_id: section.request_id,
            target_tip_hash: section.target_tip_hash,
            common_ancestor_height: section.common_ancestor_height,
            common_ancestor_hash: section.common_ancestor_hash,
            complete: section.complete,
            tree_aux_schema: section.tree_aux_schema,
            entries,
        };
        assert(response@.entries =~= wire_format::headers_value(bytes@, whole).entries) by {
            assert forall|i: int| 0 <= i < n implies #[trigger] response@.entries[i]
                == wire_format::entry_value(bytes@, whole, i) by {
                assert(response@.entries[i] == entries@[i]@);
            }
        }
        self.validate_headers_semantics(&response)?;
        Ok((response, end))
    }

    fn check_payload_size(&self, actual: usize) -> (r: Result<(), HeaderSyncWireError>)
        ensures
            match wire_format::size_error(self@, actual as nat) {
                Some(error) => r == Err::<(), HeaderSyncWireError>(error),
                None => r is Ok,
            },
    {
        if actual > self.message_byte_limit {
            return Err(
                HeaderSyncWireError::OversizedPayload { actual, max: self.message_byte_limit },
            );
        }
        Ok(())
    }

    fn encode_status(&self, writer: &mut PartWriter, status: &Status) -> (r: Result<
        (),
        HeaderSyncWireError,
    >)
        requires
            old(writer).wf(),
            old(writer).parts@ == seq![seq![MSG_HS_STATUS]],
        ensures
            match wire_format::status_encode_error(status@) {
                Some(error) => r == Err::<(), HeaderSyncWireError>(error),
                None => {
                    &&& r is Ok
                    &&& final(writer).wf()
                    &&& final(writer).parts@ == wire_format::status_parts(status@)
                },
            },
    {
        write_height(writer, status.work_anchor_height)?;
        writer.put_bytes(&status.work_anchor_hash.0);
        write_height(writer, status.selected_tip_height)?;
        writer.put_bytes(&status.selected_tip_hash.0);
        let work = status.suffix_cumulative_work.to_little_endian();
        writer.put_bytes(&work);
        write_height(writer, status.oldest_retained_height)?;
        writer.put_le(status.max_headers_per_response as u64, 4);
        writer.put_le(status.max_inflight_requests as u64, 2);
        writer.put_le(status.max_message_bytes as u64, 4);
        writer.put_le(status.tree_aux_schema_mask as u64, 4);
        assert(writer.parts@ =~= wire_format::status_parts(status@));
        Ok(())
    }

    fn validate_get_headers(&self, request: &GetHeaders) -> (r: Result<(), HeaderSyncWireError>)
        ensures
            match wire_format::get_headers_rule_error(self@, request@) {
                Some(error) => r == Err::<(), HeaderSyncWireError>(error),
                None => r is Ok,
            },
    {
        validate_nonzero_id(request.request_id, "GetHeaders")?;
        validate_nonzero_count("locator", request.locator_hashes.len(), MAX_LOCATOR_HASHES)?;
        validate_nonzero_count(
            "max_header",
            request.max_header_count as usize,
            self.header_count_limit as usize,
        )?;
        if request.tree_aux_schema != AuxSchema::NoAux && self.tree_aux_schema_mask
            & request.tree_aux_schema.mask_bit() == 0 {
            return Err(
                HeaderSyncWireError::UnsupportedTreeAuxSchema(
                    request.tree_aux_schema.wire_value(),
                ),
            );
        }
        Ok(())
    }

    fn encode_get_headers(&self, writer: &mut PartWriter, request: &GetHeaders) -> (r: Result<
        (),
        HeaderSyncWireError,
    >)
        requires
            old(writer).wf(),
            old(writer).parts@ == seq![seq![MSG_HS_GET_HEADERS]],
        ensures
            match wire_format::get_headers_rule_error(self@, request@) {
                Some(error) => r == Err::<(), HeaderSyncWireError>(error),
                None => {
                    &&& r is Ok
                    &&& final(writer).wf()
                    &&& final(writer).parts@ == wire_format::get_headers_parts(request@)
                },
            },
    {
        self.validate_get_headers(request)?;
        write_request_id(writer, request.request_id, "GetHeaders")?;
        writer.put_bytes(&request.target_tip_hash.0);
        writer.put_byte(request.locator_hashes.len() as u8);
        let ghost head = wire_format::get_headers_head(request@);
        assert(writer.parts@ =~= head + request@.locator_hashes.take(0));
        let mut i: usize = 0;
        while i < request.locator_hashes.len()
            invariant
                i <= request.locator_hashes@.len(),
                writer.wf(),
                writer.parts@ == head + request@.locator_hashes.take(i as int),
            decreases request.locator_hashes@.len() - i,
        {
            writer.put_bytes(&request.locator_hashes[i].0);
            i = i + 1;
            assert(writer.parts@ =~= head + request@.locator_hashes.take(i as int));
        }
        writer.put_le(request.max_header_count as u64, 4);
        writer.put_byte(request.tree_aux_schema.wire_value());
        assert(writer.parts@ =~= wire_format::get_headers_parts(request@));
        Ok(())
    }

    #[verifier::spinoff_prover]
    #[verifier::rlimit(50)]
    fn encode_headers(&self, writer: &mut PartWriter, response: &Headers) -> (r: Result<
        (),
        HeaderSyncWireError,
    >)
        requires
            old(writer).wf(),
            old(writer).parts@ == seq![seq![MSG_HS_HEADERS]],
        ensures
            match wire_format::headers_encode_error(self@, response@) {
                Some(error) => r == Err::<(), HeaderSyncWireError>(error),
                None => {
                    &&& r is Ok
                    &&& final(writer).wf()
                    &&& final(writer).parts@ == wire_format::headers_parts(response@)
                },
            },
    {
        validate_nonzero_id(response.request_id, "Headers")?;
        validate_count_allow_zero(
            "header",
            response.entries.len(),
            self.header_count_limit as usize,
        )?;
        self.validate_headers_semantics(response)?;
        write_request_id(writer, response.request_id, "Headers")?;
        writer.put_bytes(&response.target_tip_hash.0);
        write_height(writer, response.common_ancestor_height)?;
        writer.put_bytes(&response.common_ancestor_hash.0);
        writer.put_le(response.entries.len() as u64, 4);
        writer.put_byte(if response.complete { 1 } else { 0 });
        writer.put_byte(response.tree_aux_schema.wire_value());

        let ghost view = response@;
        let ghost head = wire_format::headers_head(view);
        let ghost headers = wire_format::header_parts(view.entries);
        let ghost hints = wire_format::hint_parts(view.entries);
        let ghost records = wire_format::record_parts(view.entries);
        assert(writer.parts@ =~= head + headers.take(0));
        let n: usize = response.entries.len();
        let mut i: usize = 0;
        while i < n
            invariant
                i <= n == response.entries@.len(),
                view == response@,
                headers == wire_format::header_parts(view.entries),
                writer.wf(),
                writer.parts@ == head + headers.take(i as int),
            decreases n - i,
        {
            writer.put_bytes(response.entries[i].header.encoded.as_slice());
            i = i + 1;
            assert(writer.parts@ =~= head + headers.take(i as int));
        }
        assert(writer.parts@ =~= head + headers + hints.take(0));
        let mut j: usize = 0;
        while j < n
            invariant
                j <= n == response.entries@.len(),
                view == response@,
                hints == wire_format::hint_parts(view.entries),
                writer.wf(),
                writer.parts@ == head + headers + hints.take(j as int),
            decreases n - j,
        {
            writer.put_le(response.entries[j].body_size as u64, 4);
            j = j + 1;
            assert(writer.parts@ =~= head + headers + hints.take(j as int));
        }
        assert(hints.take(n as int) =~= hints);
        if response.tree_aux_schema == AuxSchema::V1 {
            assert(writer.parts@ =~= head + headers + hints + records.take(0));
            let mut k: usize = 0;
            while k < n
                invariant
                    k <= n == response.entries@.len(),
                    view == response@,
                    view.tree_aux_schema == AuxSchema::V1,
                    records == wire_format::record_parts(view.entries),
                    wire_format::entries_error(self@.network, view, 0) is None,
                    writer.wf(),
                    writer.parts@ == head + headers + hints + records.take(k as int),
                decreases n - k,
            {
                proof {
                    wire_format::lemma_entries_ok(self@.network, view, 0, k as int);
                }
                if let Some(aux) = &response.entries[k].tree_aux {
                    aux.encode_to(writer);
                    assert(writer.parts@ =~= head + headers + hints + records.take(k + 1));
                }
                k = k + 1;
            }
            assert(records.take(n as int) =~= records);
        } else {
            assert(writer.parts@ =~= wire_format::headers_parts(view));
        }
        Ok(())
    }

    /// Checks completion, linkage and the rules of every entry of a response.
    #[verifier::spinoff_prover]
    #[verifier::rlimit(50)]
    pub fn validate_headers_semantics(&self, response: &Headers) -> (r: Result<
        (),
        HeaderSyncWireError,
    >)
        ensures
            match wire_format::semantics_error(self@.network, response@) {
                Some(error) => r == Err::<(), HeaderSyncWireError>(error),
                None => r is Ok,
            },
    {
        let ghost view = response@;
        let n: usize = response.entries.len();
        let empty = n == 0;
        let at_target = response.complete && response.common_ancestor_hash.same(
            &response.target_tip_hash,
        );
        if empty != at_target {
            return Err(HeaderSyncWireError::InvalidHeadersCompletion);
        }
        let mut parent = response.common_ancestor_hash;
        let mut i: usize = 0;
        while i < n
            invariant
                i <= n == response.entries@.len(),
                view == response@,
                (n == 0) == (view.complete && view.common_ancestor_hash == view.target_tip_hash),
                parent@ == wire_format::parent_hash(view, i as int),
                forall|j: int|
                    0 <= j < i ==> (#[trigger] view.entries[j]).header.previous_block_hash
                        == wire_format::parent_hash(view, j),
            decreases n - i,
        {
            let header = &response.entries[i].header;
            assert(view.entries[i as int].header == (**header)@);
            if !header.previous_block_hash.same(&parent) {
                return Err(HeaderSyncWireError::NonContiguousHeaders);
            }
            parent = header.hash;
            i = i + 1;
        }
        if n > 0 && response.complete && !parent.same(&response.target_tip_hash) {
            return Err(HeaderSyncWireError::InvalidHeadersCompletion);
        }
        let mut k: usize = 0;
        while k < n
            invariant
                k <= n == response.entries@.len(),
                view == response@,
                wire_format::semantics_error(self@.network, view) == wire_format::entries_error(
                    self@.network,
                    view,
                    k as int,
                ),
            decreases n - k,
        {
            match self.validate_entry(response, k) {
                Ok(()) => {},
                Err(error) => {
                    return Err(error);
                },
            }
            k = k + 1;
        }
        Ok(())
    }

    /// Checks the rules of entry `i` of a response.
    fn validate_entry(&self, response: &Headers, i: usize) -> (r: Result<(), HeaderSyncWireError>)
        requires
            i < response.entries@.len(),
        ensures
            match wire_format::entry_error(self@.network, response@, i as int) {
                Some(error) => r == Err::<(), HeaderSyncWireError>(error),
                None => r is Ok,
            },
    {
        let entry = &response.entries[i];
        assert(response@.entries[i as int] == entry@);
        validate_body_size(entry.body_size)?;
        if i > u32::MAX as usize {
            return Err(HeaderSyncWireError::NumericOverflow("tree-aux height offset"));
        }
        let inferred: u64 = response.common_ancestor_height.0 as u64 + 1 + i as u64;
        if inferred > HEIGHT_MAX as u64 {
            return Err(HeaderSyncWireError::NumericOverflow("inferred header height"));
        }
        match (response.tree_aux_schema, &entry.tree_aux) {
            (AuxSchema::NoAux, None) => Ok(()),
            (AuxSchema::V1, Some(aux)) => aux.validate_for(Height(inferred as u32), &self.network),
            _ => Err(
                HeaderSyncWireError::ParallelLengthMismatch {
                    entries: response.entries.len(),
                    aux: count_aux(&response.entries),
                },
            ),
        }
    }
}

/// A `Headers` payload up to its vectors.
#[derive(Clone, Copy, Debug, PartialEq, Eq)]
pub struct HeadersSection {
    /// Nonzero correlation identifier.
    pub request_id: u64,
    /// Exact target copied from the matching request.
    pub target_tip_hash: BlockHash,
    /// Height of the selected locator intersection.
    pub common_ancestor_height: Height,
    /// Hash of the selected locator intersection.
    pub common_ancestor_hash: BlockHash,
    /// Number of entries that follow.
    pub count: usize,
    /// Whether the response reaches its target.
    pub complete: bool,
    /// Returned auxiliary schema.
    pub tree_aux_schema: AuxSchema,
    /// Where the headers start in the payload.
    pub vectors_start: usize,
}

/// Where a header ends that starts at `at`, if a machine word can hold it. The next header of a
/// payload starts there or, after the last, its hints do.
pub fn header_end(at: usize, header: &BlockHeader) -> (end: Option<usize>)
    ensures
        match end {
            Some(end) => end == at + header@.encoded.len(),
            None => at + header@.encoded.len() > usize::MAX,
        },
{
    at.checked_add(header.encoded.len())
}

/// Where the three roots of record `i` start and end in a payload whose `count` hints start at
/// `hints_start`, if a machine word can hold it.
pub fn record_roots(hints_start: usize, count: usize, i: usize) -> (r: Option<(usize, usize)>)
    ensures
        match r {
            Some((start, end)) => {
                &&& start == wire_format::roots_start(hints_start as int, count as int, i as int)
                &&& end == start + 96
            },
            None => wire_format::roots_start(hints_start as int, count as int, i as int) + 96
                > usize::MAX,
        },
{
    let hints: Option<usize> = count.checked_mul(4);
    let records: Option<usize> = i.checked_mul(TREE_AUX_SCHEMA_V1_BYTES);
    assert(i * TREE_AUX_SCHEMA_V1_BYTES == 156 * i) by (nonlinear_arith);
    match (hints, records) {
        (Some(hints), Some(records)) => match hints_start.checked_add(hints) {
            Some(records_start) => match records_start.checked_add(records) {
                Some(at) => match at.checked_add(100) {
                    Some(end) => Some((at + 4, end)),
                    None => None,
                },
                None => None,
            },
            None => None,
        },
        _ => None,
    }
}

/// Whether `part` stands at `at`.
fn stands_at(bytes: &[u8], at: usize, part: &[u8]) -> (r: bool)
    requires
        at <= bytes@.len(),
    ensures
        r == (at + part@.len() <= bytes@.len() && bytes@.subrange(at as int, at + part@.len())
            == part@),
{
    if bytes.len() - at < part.len() {
        return false;
    }
    let len: usize = part.len();
    let mut i: usize = 0;
    while i < len
        invariant
            i <= len == part@.len(),
            at + len <= bytes@.len() <= usize::MAX,
            forall|j: int| 0 <= j < i ==> bytes@[at + j] == part@[j],
        decreases len - i,
    {
        if bytes[at + i] != part[i] {
            assert(bytes@.subrange(at as int, at + len)[i as int] != part@[i as int]);
            return false;
        }
        i = i + 1;
    }
    assert(bytes@.subrange(at as int, at + len) =~= part@);
    true
}

/// Checks that the payload holds the first `n` parsed headers, and says where they end.
fn match_headers(bytes: &[u8], parse: &ChainParse, n: usize) -> (r: Result<
    usize,
    HeaderSyncWireError,
>)
    requires
        wire_format::vectors_start() <= bytes@.len(),
    ensures
        if wire_format::headers_match(bytes@, parse@.headers, n as nat) {
            &&& r matches Ok(end) && end == wire_format::header_start(parse@.headers, n as int)
            &&& wire_format::header_start(parse@.headers, n as int) <= bytes@.len()
        } else {
            r == Err::<usize, HeaderSyncWireError>(
                HeaderSyncWireError::Serialization(SerializationError::Rejected),
            )
        },
{
    let ghost headers = parse@.headers;
    let total: usize = bytes.len();
    let mut at: usize = 83;
    let mut i: usize = 0;
    while i < n
        invariant
            i <= n,
            i <= headers.len(),
            headers == parse@.headers,
            at == wire_format::header_start(headers, i as int),
            at <= total == bytes@.len(),
            forall|j: int| 0 <= j < i ==> #[trigger] wire_format::header_matches(bytes@, headers, j),
        decreases n - i,
    {
        if i >= parse.headers.len() {
            return Err(HeaderSyncWireError::Serialization(SerializationError::Rejected));
        }
        let encoded = parse.headers[i].encoded.as_slice();
        assert(wire_format::encodings(headers)[i as int] == encoded@);
        assert(layout::start(wire_format::encodings(headers), (i + 1) as nat) == layout::start(
            wire_format::encodings(headers),
            i as nat,
        ) + encoded@.len());
        if !stands_at(bytes, at, encoded) {
            assert(!wire_format::header_matches(bytes@, headers, i as int));
            return Err(HeaderSyncWireError::Serialization(SerializationError::Rejected));
        }
        assert(wire_format::header_matches(bytes@, headers, i as int));
        at = at + encoded.len();
        i = i + 1;
    }
    Ok(at)
}

/// Reads `n` body-size hints that start at `at`.
fn read_hints(bytes: &[u8], at: usize, n: usize) -> (r: Result<Vec<u32>, HeaderSyncWireError>)
    requires
        at <= bytes@.len(),
    ensures
        match wire_format::hints_error(bytes@, at as int, 0, n as nat) {
            Some(error) => r == Err::<Vec<u32>, HeaderSyncWireError>(error),
            None => r matches Ok(hints) && {
                &&& hints@.len() == n
                &&& at + 4 * n <= bytes@.len() <= usize::MAX
                &&& forall|i: int|
                    0 <= i < n ==> hints@[i] == wire_format::u32_at(bytes@, at + 4 * i)
            },
        },
{
    let total: usize = bytes.len();
    let mut hints: Vec<u32> = Vec::new();
    let mut i: usize = 0;
    while i < n
        invariant
            i <= n,
            total == bytes@.len(),
            at + 4 * i <= total,
            hints@.len() == i,
            wire_format::hints_error(bytes@, at as int, 0, n as nat) == wire_format::hints_error(
                bytes@,
                at as int,
                i as nat,
                n as nat,
            ),
            forall|j: int| 0 <= j < i ==> hints@[j] == wire_format::u32_at(bytes@, at + 4 * j),
        decreases n - i,
    {
        let body_size: u32 = read_u32(bytes, at + 4 * i)?;
        validate_body_size(body_size)?;
        hints.push(body_size);
        i = i + 1;
    }
    Ok(hints)
}

/// Reads `n` tree-aux records that start at `at`.
#[verifier::spinoff_prover]
#[verifier::rlimit(50)]
fn read_records(bytes: &[u8], at: usize, n: usize, accepted_roots: usize) -> (r: Result<
    Vec<TreeAuxRecordV1>,
    HeaderSyncWireError,
>)
    requires
        at <= bytes@.len(),
    ensures
        match wire_format::records_error(
            bytes@,
            at as int,
            0,
            n as nat,
            accepted_roots as nat,
        ) {
            Some(error) => r == Err::<Vec<TreeAuxRecordV1>, HeaderSyncWireError>(error),
            None => r matches Ok(records) && {
                &&& records@.len() == n
                &&& at + 156 * n <= bytes@.len() <= usize::MAX
                &&& forall|i: int|
                    0 <= i < n ==> (#[trigger] records@[i])@ == wire_format::record_value(
                        bytes@,
                        at + 156 * i,
                    )
            },
        },
{
    let total: usize = bytes.len();
    let mut records: Vec<TreeAuxRecordV1> = Vec::new();
    let mut i: usize = 0;
    while i < n
        invariant
            i <= n,
            total == bytes@.len(),
            at + 156 * i <= total,
            records@.len() == i,
            wire_format::records_error(
                bytes@,
                at as int,
                0,
                n as nat,
                accepted_roots as nat,
            ) == wire_format::records_error(
                bytes@,
                at as int,
                i as nat,
                n as nat,
                accepted_roots as nat,
            ),
            forall|j: int|
                0 <= j < i ==> (#[trigger] records@[j])@ == wire_format::record_value(
                    bytes@,
                    at + 156 * j,
                ),
        decreases n - i,
    {
        let record = TreeAuxRecordV1::decode_from(bytes, at + 156 * i, i < accepted_roots)?;
        records.push(record);
        i = i + 1;
    }
    Ok(records)
}

/// Joins the parallel vectors of a response into its entries.
fn join_entries(
    headers: Vec<Arc<BlockHeader>>,
    body_sizes: Vec<u32>,
    aux: Vec<TreeAuxRecordV1>,
    n: usize,
) -> (entries: Vec<HeaderEntry>)
    requires
        n <= headers@.len(),
        n == body_sizes@.len(),
        aux@.len() == n || aux@.len() == 0,
    ensures
        entries@.len() == n,
        forall|i: int|
            0 <= i < n ==> #[trigger] entries@[i] == (HeaderEntry {
                header: headers@[i],
                body_size: body_sizes@[i],
                tree_aux: if aux@.len() == n {
                    Some(aux@[i])
                } else {
                    None
                },
            }),
{
    let mut entries: Vec<HeaderEntry> = Vec::new();
    for header in it: headers
        invariant
            n <= headers@.len(),
            n == body_sizes@.len(),
            aux@.len() == n || aux@.len() == 0,
            it.seq() == headers@,
            entries@.len() == (if it.index() < n { it.index() } else { n as int }),
            forall|i: int|
                0 <= i < entries@.len() ==> #[trigger] entries@[i] == (HeaderEntry {
                    header: headers@[i],
                    body_size: body_sizes@[i],
                    tree_aux: if aux@.len() == n {
                        Some(aux@[i])
                    } else {
                        None
                    },
                }),
    {
        let i: usize = entries.len();
        if i < n {
            let tree_aux = if aux.len() == n {
                Some(aux[i])
            } else {
                None
            };
            entries.push(HeaderEntry { header, body_size: body_sizes[i], tree_aux });
        }
    }
    entries
}

/// How many entries carry a tree-aux record.
fn count_aux(entries: &Vec<HeaderEntry>) -> (count: usize)
    ensures
        count == wire_format::aux_count(entries@.map_values(|e: HeaderEntry| e@)),
{
    let ghost view = entries@.map_values(|e: HeaderEntry| e@);
    let mut count: usize = 0;
    let mut i: usize = 0;
    while i < entries.len()
        invariant
            i <= entries@.len(),
            count <= i,
            view == entries@.map_values(|e: HeaderEntry| e@),
            count == wire_format::aux_count(view.take(i as int)),
        decreases entries@.len() - i,
    {
        assert(view.take(i + 1).drop_last() =~= view.take(i as int));
        assert(view.take(i + 1).last() == entries@[i as int]@);
        if entries[i].tree_aux.is_some() {
            count = count + 1;
        }
        i = i + 1;
    }
    assert(view.take(i as int) =~= view);
    count
}

} // verus!
