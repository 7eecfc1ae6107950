use std::sync::Arc;

use zakura_network::chain::{BlockHash, BlockHeader, Height, Network, HEIGHT_MAX, U256};
use zakura_network::engine::{ChainScore, EngineSnapshot, Frontier, FrontierSet};
use zakura_network::frame::Frame;
use zakura_network::header_sync::wire::{
    header_end, record_roots, AuxSchema, ChainParse, GetHeaders, HeaderEntry, HeaderSyncCodec,
    HeaderSyncDecodeContext, HeaderSyncMessage, HeaderSyncWireError, Headers, HeadersOutcome,
    HeadersOutcomeCode, SerializationError, ServeCapabilities, Status, TreeAuxRecordV1,
    WireIoError, MAX_HS_MESSAGE_BYTES, MSG_HS_HEADERS,
};

fn network() -> Network {
    Network {
        nu5_activation: Some(Height(3)),
        nu7_activation: Some(Height(5)),
        header_bytes: 3,
    }
}

fn codec() -> HeaderSyncCodec {
    HeaderSyncCodec::new(network(), MAX_HS_MESSAGE_BYTES as u32, 4000, 1)
}

fn hash(byte: u8) -> BlockHash {
    BlockHash([byte; 32])
}

/// The header of a block in a chain whose block hashes repeat one byte.
fn header(byte: u8) -> Arc<BlockHeader> {
    Arc::new(BlockHeader {
        encoded: vec![byte, 0xee, 0xff],
        previous_block_hash: hash(byte - 1),
        hash: hash(byte),
    })
}

fn aux(height: u32) -> TreeAuxRecordV1 {
    TreeAuxRecordV1 {
        height: Height(height),
        sapling_root: [1; 32],
        orchard_root: [0; 32],
        ironwood_root: [0; 32],
        sapling_tx_count: 0x0102_0304_0506_0708,
        orchard_tx_count: 0,
        ironwood_tx_count: 0,
        auth_data_root: [0; 32],
    }
}

fn response() -> Headers {
    Headers {
        request_id: 5,
        target_tip_hash: hash(2),
        common_ancestor_height: Height(0),
        common_ancestor_hash: hash(0),
        complete: true,
        tree_aux_schema: AuxSchema::V1,
        entries: vec![
            HeaderEntry {
                header: header(1),
                body_size: 10,
                tree_aux: Some(aux(1)),
            },
            HeaderEntry {
                header: header(2),
                body_size: 0,
                tree_aux: Some(aux(2)),
            },
        ],
    }
}

fn parse() -> ChainParse {
    ChainParse {
        headers: vec![header(1), header(2)],
        accepted_roots: 2,
    }
}

fn context() -> Option<HeaderSyncDecodeContext> {
    Some(HeaderSyncDecodeContext {
        max_header_count: 2,
        requested_tree_aux_schema: AuxSchema::V1,
    })
}

fn encode_response(response: Headers) -> Result<Vec<u8>, HeaderSyncWireError> {
    codec().encode(&HeaderSyncMessage::Headers(response))
}

fn decode_response(bytes: &[u8]) -> Result<HeaderSyncMessage, HeaderSyncWireError> {
    codec().decode(bytes, context(), parse())
}

#[test]
fn decoding_an_encoded_message_gives_it_back() {
    let message = HeaderSyncMessage::Headers(response());
    let bytes = codec().encode(&message).expect("response encodes");
    assert_eq!(bytes.len(), 83 + 2 * (3 + 4 + 156));
    assert_eq!(decode_response(&bytes), Ok(message.clone()));

    let frame = codec().encode_frame(&message).expect("response frames");
    assert_eq!(frame.message_type, u16::from(MSG_HS_HEADERS));
    assert_eq!(
        codec().decode_frame(frame, context(), parse()),
        Ok(message)
    );
}

#[test]
fn encoding_a_decoded_payload_gives_it_back() {
    let bytes = encode_response(response()).expect("response encodes");
    let message = decode_response(&bytes).expect("payload decodes");
    assert_eq!(codec().encode(&message), Ok(bytes));
}

#[test]
fn chain_parsers_decide_about_headers_and_roots() {
    let bytes = encode_response(response()).expect("response encodes");
    let rejected = Err(HeaderSyncWireError::Serialization(
        SerializationError::Rejected,
    ));
    let mut missing_header = parse();
    missing_header.headers.pop();
    assert_eq!(codec().decode(&bytes, context(), missing_header), rejected);
    let mut other_header = parse();
    other_header.headers[1] = header(3);
    assert_eq!(codec().decode(&bytes, context(), other_header), rejected);
    let mut missing_roots = parse();
    missing_roots.accepted_roots = 1;
    assert_eq!(codec().decode(&bytes, context(), missing_roots), rejected);
    let mut more = parse();
    more.headers.push(header(9));
    more.accepted_roots = 7;
    assert!(codec().decode(&bytes, context(), more).is_ok());
}

#[test]
fn headers_section_says_where_the_vectors_start() {
    let bytes = encode_response(response()).expect("response encodes");
    let section = codec()
        .headers_section(&bytes, context().expect("context is set"))
        .expect("head is valid");
    assert_eq!(section.count, 2);
    assert_eq!(section.vectors_start, 83);
    assert_eq!(section.request_id, 5);
    assert!(section.complete);
    assert_eq!(&bytes[83..86], &[1, 0xee, 0xff]);
    assert_eq!(
        codec().headers_section(&[], context().expect("context is set")),
        Err(HeaderSyncWireError::Io(WireIoError::UnexpectedEof))
    );
}

#[test]
fn headers_and_roots_stand_where_the_positions_say() {
    let bytes = encode_response(response()).expect("response encodes");
    let second = header_end(83, &header(1)).expect("position fits");
    assert_eq!(second, 86);
    let hints = header_end(second, &header(2)).expect("position fits");
    assert_eq!(hints, 89);
    assert_eq!(header_end(usize::MAX, &header(1)), None);

    let (start, end) = record_roots(hints, 2, 1).expect("position fits");
    assert_eq!((start, end), (89 + 8 + 156 + 4, 89 + 8 + 156 + 100));
    let mut roots = vec![1; 32];
    roots.extend([0; 64]);
    assert_eq!(&bytes[start..end], &roots[..]);
    assert_eq!(record_roots(usize::MAX - 100, 0, 0), Some((usize::MAX - 96, usize::MAX)));
    assert_eq!(record_roots(usize::MAX - 99, 0, 0), None);
    assert_eq!(record_roots(0, usize::MAX, 0), None);
    assert_eq!(record_roots(0, 0, usize::MAX), None);
}

#[test]
fn payloads_can_be_neither_cut_short_nor_extended() {
    let messages = [
        HeaderSyncMessage::Headers(response()),
        HeaderSyncMessage::GetHeaders(GetHeaders {
            request_id: 5,
            target_tip_hash: hash(2),
            locator_hashes: vec![hash(1), hash(0)],
            max_header_count: 2,
            tree_aux_schema: AuxSchema::V1,
        }),
        HeaderSyncMessage::HeadersOutcome(HeadersOutcome {
            request_id: 5,
            target_tip_hash: hash(2),
            outcome: HeadersOutcomeCode::Busy,
        }),
    ];
    for message in messages {
        let mut bytes = codec().encode(&message).expect("message encodes");
        assert!(decode_response(&bytes).is_ok());
        for len in 0..bytes.len() {
            assert!(decode_response(&bytes[..len]).is_err());
        }
        let exact = HeaderSyncCodec::new(network(), bytes.len() as u32, 4000, 1);
        bytes.push(0);
        assert_eq!(
            decode_response(&bytes),
            Err(HeaderSyncWireError::TrailingBytes)
        );
        assert_eq!(
            exact.decode(&bytes, context(), parse()),
            Err(HeaderSyncWireError::OversizedPayload {
                actual: bytes.len(),
                max: bytes.len() - 1,
            })
        );
    }
}

#[test]
fn responses_without_records_need_no_accepted_roots() {
    let mut plain = response();
    plain.tree_aux_schema = AuxSchema::NoAux;
    for entry in &mut plain.entries {
        entry.tree_aux = None;
    }
    let bytes = encode_response(plain.clone()).expect("response encodes");
    let mut headers_only = parse();
    headers_only.accepted_roots = 0;
    assert_eq!(
        codec().decode(&bytes, context(), headers_only),
        Ok(HeaderSyncMessage::Headers(plain))
    );
}

#[test]
fn headers_need_a_matching_request() {
    let bytes = encode_response(response()).expect("response encodes");
    assert_eq!(
        codec().decode(&bytes, None, parse()),
        Err(HeaderSyncWireError::UnsolicitedHeaders)
    );
}

#[test]
fn headers_must_link_and_complete() {
    let mut unlinked = response();
    unlinked.entries[1].header = header(7);
    assert_eq!(
        encode_response(unlinked),
        Err(HeaderSyncWireError::NonContiguousHeaders)
    );
    let mut wrong_ancestor = response();
    wrong_ancestor.common_ancestor_hash = hash(9);
    assert_eq!(
        encode_response(wrong_ancestor),
        Err(HeaderSyncWireError::NonContiguousHeaders)
    );
    let mut wrong_target = response();
    wrong_target.target_tip_hash = hash(9);
    assert_eq!(
        encode_response(wrong_target.clone()),
        Err(HeaderSyncWireError::InvalidHeadersCompletion)
    );
    wrong_target.complete = false;
    assert!(encode_response(wrong_target).is_ok());
    let mut empty_and_unfinished = response();
    empty_and_unfinished.entries.clear();
    assert_eq!(
        encode_response(empty_and_unfinished),
        Err(HeaderSyncWireError::InvalidHeadersCompletion)
    );
}

#[test]
fn records_follow_the_schema_and_the_heights() {
    let mut missing = response();
    missing.entries[1].tree_aux = None;
    assert_eq!(
        encode_response(missing),
        Err(HeaderSyncWireError::ParallelLengthMismatch { entries: 2, aux: 1 })
    );
    let mut unexpected = response();
    unexpected.tree_aux_schema = AuxSchema::NoAux;
    assert_eq!(
        encode_response(unexpected),
        Err(HeaderSyncWireError::ParallelLengthMismatch { entries: 2, aux: 2 })
    );
    let mut wrong_height = response();
    wrong_height.entries[1].tree_aux = Some(aux(3));
    assert_eq!(
        encode_response(wrong_height),
        Err(HeaderSyncWireError::TreeAuxHeightMismatch {
            expected: Height(2),
            actual: Height(3),
        })
    );
    let mut too_high = response();
    too_high.common_ancestor_height = Height(HEIGHT_MAX);
    assert_eq!(
        encode_response(too_high),
        Err(HeaderSyncWireError::NumericOverflow(
            "inferred header height"
        ))
    );
}

#[test]
fn record_defaults_depend_on_activation() {
    let network = network();
    let default = |height: u32, field: &'static str| {
        Err(HeaderSyncWireError::InvalidTreeAuxDefault {
            height: Height(height),
            field,
        })
    };
    let mut record = aux(2);
    record.orchard_root = [1; 32];
    assert_eq!(
        record.validate_for(Height(2), &network),
        default(2, "orchard_root")
    );
    record = aux(2);
    record.auth_data_root = [1; 32];
    assert_eq!(
        record.validate_for(Height(2), &network),
        default(2, "auth_data_root")
    );
    record.height = Height(3);
    assert_eq!(record.validate_for(Height(3), &network), Ok(()));
    record.ironwood_root = [1; 32];
    assert_eq!(
        record.validate_for(Height(3), &network),
        default(3, "ironwood_root")
    );
    record.height = Height(5);
    record.ironwood_tx_count = 4;
    record.orchard_tx_count = 4;
    record.orchard_root = [2; 32];
    assert_eq!(record.validate_for(Height(5), &network), Ok(()));
}

#[test]
fn counts_and_sizes_are_capped_on_both_sides() {
    let narrow = HeaderSyncCodec::new(network(), MAX_HS_MESSAGE_BYTES as u32, 1, 1);
    assert_eq!(
        narrow.encode(&HeaderSyncMessage::Headers(response())),
        Err(HeaderSyncWireError::CountOutOfRange {
            field: "header",
            actual: 2,
            max: 1,
        })
    );
    let short = HeaderSyncCodec::new(network(), 100, 4000, 1);
    assert_eq!(
        short.encode(&HeaderSyncMessage::Headers(response())),
        Err(HeaderSyncWireError::OversizedPayload {
            actual: 409,
            max: 100,
        })
    );
    let bytes = encode_response(response()).expect("response encodes");
    assert_eq!(
        decode_response(&bytes[..bytes.len() - 1]),
        Err(HeaderSyncWireError::Io(WireIoError::MissingBytes {
            field: "header response bytes",
            required: 326,
            remaining: 325,
        }))
    );
}

#[test]
fn truncated_hashes_and_numbers_are_told_apart() {
    let bytes = encode_response(response()).expect("response encodes");
    let eof = Err(HeaderSyncWireError::Io(WireIoError::UnexpectedEof));
    let cut = Err(HeaderSyncWireError::Serialization(
        SerializationError::Truncated,
    ));
    for (length, expected) in [
        (0, eof.clone()),
        (8, eof.clone()),
        (40, cut.clone()),
        (44, eof.clone()),
        (76, cut),
        (80, eof.clone()),
        (81, eof.clone()),
        (82, eof),
    ] {
        assert_eq!(decode_response(&bytes[..length]), expected);
    }
}

#[test]
fn frames_agree_with_their_payloads() {
    let outcome = HeaderSyncMessage::HeadersOutcome(HeadersOutcome {
        request_id: 7,
        target_tip_hash: hash(0xaa),
        outcome: HeadersOutcomeCode::NoLocatorIntersection,
    });
    let frame = codec().encode_frame(&outcome).expect("outcome frames");
    let decode = |frame: Frame| codec().decode_frame(frame, None, parse());
    let mut flagged = frame.clone();
    flagged.flags = 1;
    assert_eq!(
        decode(flagged),
        Err(HeaderSyncWireError::UnsupportedFlags(1))
    );
    let mut wide = frame.clone();
    wide.message_type = 0x0104;
    assert_eq!(
        decode(wide),
        Err(HeaderSyncWireError::UnknownFrameMessageType(0x0104))
    );
    let mut mismatched = frame.clone();
    mismatched.message_type = 1;
    assert_eq!(
        decode(mismatched),
        Err(HeaderSyncWireError::MismatchedFrameMessageType {
            frame: 1,
            payload: 4,
        })
    );
    assert_eq!(decode(frame), Ok(outcome));
}

#[test]
fn request_id_can_be_peeked() {
    let frame = codec()
        .encode_frame(&HeaderSyncMessage::Headers(response()))
        .expect("response frames");
    assert_eq!(
        HeaderSyncCodec::peek_headers_request_id(&frame).map(|id| id.get()),
        Ok(5)
    );
    let peek = |message_type: u16, payload: Vec<u8>| {
        HeaderSyncCodec::peek_headers_request_id(&Frame {
            message_type,
            flags: 0,
            payload,
        })
        .map(|id| id.get())
    };
    assert_eq!(
        peek(4, vec![3; 9]),
        Err(HeaderSyncWireError::UnknownFrameMessageType(4))
    );
    assert_eq!(
        peek(3, vec![]),
        Err(HeaderSyncWireError::Io(WireIoError::UnexpectedEof))
    );
    assert_eq!(
        peek(3, vec![2; 9]),
        Err(HeaderSyncWireError::MismatchedFrameMessageType {
            frame: 3,
            payload: 2,
        })
    );
    assert_eq!(
        peek(3, vec![3, 0, 0, 0, 0, 0, 0, 0, 0]),
        Err(HeaderSyncWireError::ZeroRequestId("Headers"))
    );
}

#[test]
fn heights_above_the_range_are_not_encoded() {
    let mut status = Status {
        work_anchor_height: Height(HEIGHT_MAX),
        work_anchor_hash: hash(1),
        selected_tip_height: Height(HEIGHT_MAX),
        selected_tip_hash: hash(2),
        suffix_cumulative_work: U256([0xff; 32]),
        oldest_retained_height: Height(HEIGHT_MAX),
        max_headers_per_response: u32::MAX,
        max_inflight_requests: u16::MAX,
        max_message_bytes: u32::MAX,
        tree_aux_schema_mask: u32::MAX,
    };
    let message = HeaderSyncMessage::Status(status);
    let bytes = codec().encode(&message).expect("status encodes");
    assert_eq!(bytes.len(), 123);
    assert_eq!(codec().decode(&bytes, None, parse()), Ok(message));
    status.oldest_retained_height = Height(HEIGHT_MAX + 1);
    assert_eq!(
        codec().encode(&HeaderSyncMessage::Status(status)),
        Err(HeaderSyncWireError::HeightOutOfRange(HEIGHT_MAX + 1))
    );
}

#[test]
fn requests_need_an_id() {
    let mut request = GetHeaders {
        request_id: 1,
        target_tip_hash: hash(1),
        locator_hashes: vec![hash(2); 13],
        max_header_count: 1,
        tree_aux_schema: AuxSchema::NoAux,
    };
    let bytes = codec()
        .encode(&HeaderSyncMessage::GetHeaders(request.clone()))
        .expect("request encodes");
    assert_eq!(bytes.len(), 47 + 32 * 13);
    assert_eq!(
        codec().decode(&bytes[..bytes.len() - 1], None, parse()),
        Err(HeaderSyncWireError::Io(WireIoError::MissingBytes {
            field: "locator bytes",
            required: 421,
            remaining: 420,
        }))
    );
    request.request_id = 0;
    assert_eq!(
        codec().encode(&HeaderSyncMessage::GetHeaders(request)),
        Err(HeaderSyncWireError::ZeroRequestId("GetHeaders"))
    );
}

#[test]
fn outcome_codes_cover_one_through_four() {
    for (value, code) in [
        (1, HeadersOutcomeCode::TargetNotRetained),
        (2, HeadersOutcomeCode::NoLocatorIntersection),
        (3, HeadersOutcomeCode::HistoryPruned),
        (4, HeadersOutcomeCode::Busy),
    ] {
        assert_eq!(HeadersOutcomeCode::decode(value), Ok(code));
        assert_eq!(code.wire_value(), value);
    }
    assert_eq!(
        HeadersOutcomeCode::decode(0),
        Err(HeaderSyncWireError::UnknownOutcome(0))
    );
}

#[test]
fn status_advertises_the_snapshot_and_the_limits() {
    let frontier = |height: u32| Frontier {
        height: Height(height),
        hash: hash(height as u8),
    };
    let snapshot = EngineSnapshot {
        state_version: 1,
        header_generation: 2,
        verified_generation: 3,
        frontiers: FrontierSet {
            finalized: frontier(4),
            header_best: frontier(9),
            verified_best: frontier(6),
        },
        header_best_score: ChainScore {
            suffix_work: U256([7; 32]),
            tip_hash: hash(9),
        },
        oldest_retained_height: Height(2),
    };
    let capabilities = ServeCapabilities::new(10, 11, 12, 13).expect("limits are usable");
    assert_eq!(capabilities.max_headers_per_response(), 10);
    assert_eq!(capabilities.tree_aux_schema_mask(), 13);
    assert_eq!(
        Status::from_snapshot(&snapshot, &capabilities),
        Status {
            work_anchor_height: Height(4),
            work_anchor_hash: hash(4),
            selected_tip_height: Height(9),
            selected_tip_hash: hash(9),
            suffix_cumulative_work: U256([7; 32]),
            oldest_retained_height: Height(2),
            max_headers_per_response: 10,
            max_inflight_requests: 11,
            max_message_bytes: 12,
            tree_aux_schema_mask: 13,
        }
    );
}
