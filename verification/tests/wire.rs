use std::sync::Arc;

use zakura_network::chain::{BlockHash, BlockHeader, Height, Network, HEIGHT_MAX, U256};
use zakura_network::frame::Frame;
use zakura_network::header_sync::message::WireIoErrorKind;
use zakura_network::header_sync::wire::{
    AuxSchema, ChainParse, GetHeaders, HeaderEntry, HeaderSyncCodec, HeaderSyncDecodeContext,
    HeaderSyncMessage, HeaderSyncWireError, Headers, HeadersOutcome, HeadersOutcomeCode,
    ServeCapabilities, Status, TreeAuxRecordV1, MAX_HS_MESSAGE_BYTES, MAX_HS_RANGE,
    MSG_HS_GET_HEADERS, MSG_HS_HEADERS, MSG_HS_HEADERS_OUTCOME, MSG_HS_STATUS,
    TREE_AUX_SCHEMA_V1_BYTES,
};

/// The encoded regtest genesis header.
const GENESIS_HEADER: [&str; 5] = [
    "040000000000000000000000000000000000000000000000000000000000000000000000db4d7a85b768",
    "123f1dff1d4c4cece70083b2d27e117b4ac2e31d087988a5eac400000000000000000000000000000000",
    "00000000000000000000000000000000dae5494d0f0f0f20090000000000000000000000000000000000",
    "00000000000000000000000000002401936b7db1eb4ac39f151b8704642d0a8bda13ec547d54cd5e43ba",
    "142fc6d8877cab07b3",
];

/// The hash of the regtest genesis header.
const GENESIS_HASH: &str = "27e30134d620e9fe61f719938320bab63e7e72c91b5e23025676f90ed8119f02";

/// The encoded transaction of the regtest genesis block.
const GENESIS_TRANSACTION: [&str; 5] = [
    "01000000010000000000000000000000000000000000000000000000000000000000000000ffffffff4d",
    "04ffff071f0104455a636173683062396334656566386237636334313765653530303165333530303938",
    "3462366665613335363833613763616331343161303433633432303634383335643334ffffffff010000",
    "000000000000434104678afdb0fe5548271967f1a67130b7105cd6a828e03909a67962e0ea1f61deb649",
    "f6bc3f4cef38c4f35504e51ec112de5c384df7ba0b8d578a4c702b6bf11d5fac00000000",
];

fn unhex(text: &str) -> Vec<u8> {
    (0..text.len() / 2)
        .map(|i| u8::from_str_radix(&text[2 * i..2 * i + 2], 16).expect("hex digits"))
        .collect()
}

fn genesis_header() -> Arc<BlockHeader> {
    let encoded = unhex(&GENESIS_HEADER.concat());
    let mut hash = [0u8; 32];
    hash.copy_from_slice(&unhex(GENESIS_HASH));
    let mut previous = [0u8; 32];
    previous.copy_from_slice(&encoded[4..36]);
    Arc::new(BlockHeader {
        encoded,
        previous_block_hash: BlockHash(previous),
        hash: BlockHash(hash),
    })
}

fn genesis_block_bytes() -> Vec<u8> {
    let mut bytes = unhex(&GENESIS_HEADER.concat());
    bytes.push(1);
    bytes.extend_from_slice(&unhex(&GENESIS_TRANSACTION.concat()));
    bytes
}

fn regtest() -> Network {
    Network {
        nu5_activation: None,
        nu7_activation: None,
        header_bytes: 177,
    }
}

fn mainnet() -> Network {
    Network {
        nu5_activation: Some(Height(1_687_104)),
        nu7_activation: None,
        header_bytes: 1487,
    }
}

/// What the chain's parsers make of a payload that may hold the genesis header.
fn genesis_parse() -> ChainParse {
    ChainParse {
        headers: vec![genesis_header()],
        accepted_roots: 1,
    }
}

/// What the chain's parsers make of a payload without vectors.
fn no_parse() -> ChainParse {
    ChainParse {
        headers: vec![],
        accepted_roots: 0,
    }
}

fn codec() -> HeaderSyncCodec {
    HeaderSyncCodec::new(
        regtest(),
        u32::try_from(MAX_HS_MESSAGE_BYTES).expect("the 2 MiB hard cap fits in u32"),
        MAX_HS_RANGE,
        1,
    )
}

fn hash(byte: u8) -> BlockHash {
    BlockHash([byte; 32])
}

#[test]
fn local_serve_capabilities_reject_zero_resource_limits() {
    assert!(ServeCapabilities::new(0, 1, 1, 1).is_none());
    assert!(ServeCapabilities::new(1, 0, 1, 1).is_none());
    assert!(ServeCapabilities::new(1, 1, 0, 1).is_none());
    assert!(ServeCapabilities::new(1, 1, 1, 0).is_some());
}

fn request() -> GetHeaders {
    GetHeaders {
        request_id: 0x0807_0605_0403_0201,
        target_tip_hash: hash(0x22),
        locator_hashes: vec![hash(0x33), hash(0x44)],
        max_header_count: 4000,
        tree_aux_schema: AuxSchema::V1,
    }
}

fn empty_aux(height: Height) -> TreeAuxRecordV1 {
    TreeAuxRecordV1 {
        height,
        sapling_root: [0; 32],
        orchard_root: [0; 32],
        ironwood_root: [0; 32],
        sapling_tx_count: 0,
        orchard_tx_count: 0,
        ironwood_tx_count: 0,
        auth_data_root: [0; 32],
    }
}

#[test]
fn wire_status_golden_vector_both_directions_and_exact_work_width() {
    let status = Status {
        work_anchor_height: Height(7),
        work_anchor_hash: hash(0x11),
        selected_tip_height: Height(9),
        selected_tip_hash: hash(0x22),
        suffix_cumulative_work: U256::from_little_endian([
            0, 1, 2, 3, 4, 5, 6, 7, 8, 9, 10, 11, 12, 13, 14, 15, 16, 17, 18, 19, 20, 21, 22,
            23, 24, 25, 26, 27, 28, 29, 30, 31,
        ]),
        oldest_retained_height: Height(5),
        max_headers_per_response: 4000,
        max_inflight_requests: 16,
        max_message_bytes: 2_097_152,
        tree_aux_schema_mask: 0x8000_0001,
    };
    let mut golden = vec![MSG_HS_STATUS];
    golden.extend_from_slice(&7u32.to_le_bytes());
    golden.extend_from_slice(&[0x11; 32]);
    golden.extend_from_slice(&9u32.to_le_bytes());
    golden.extend_from_slice(&[0x22; 32]);
    golden.extend(0u8..32);
    golden.extend_from_slice(&5u32.to_le_bytes());
    golden.extend_from_slice(&4000u32.to_le_bytes());
    golden.extend_from_slice(&16u16.to_le_bytes());
    golden.extend_from_slice(&2_097_152u32.to_le_bytes());
    golden.extend_from_slice(&0x8000_0001u32.to_le_bytes());

    let message = HeaderSyncMessage::Status(status);
    assert_eq!(
        codec().encode(&message).expect("valid status encodes"),
        golden
    );
    assert_eq!(
        codec()
            .decode(&golden, None, no_parse())
            .expect("golden status decodes"),
        message
    );
    assert!(matches!(
        codec().decode(&golden[..golden.len() - 1], None, no_parse()),
        Err(HeaderSyncWireError::Io(error)) if error.kind() == WireIoErrorKind::UnexpectedEof
    ));

    let mut zero_caps = golden;
    zero_caps[109..123].fill(0);
    assert!(matches!(
        codec()
            .decode(&zero_caps, None, no_parse())
            .expect("zero received serving caps are a valid pure-requester status"),
        HeaderSyncMessage::Status(Status {
            max_headers_per_response: 0,
            max_inflight_requests: 0,
            max_message_bytes: 0,
            tree_aux_schema_mask: 0,
            ..
        })
    ));
}

#[test]
fn wire_get_headers_golden_vector_both_directions() {
    let request = request();
    let mut golden = vec![MSG_HS_GET_HEADERS];
    golden.extend_from_slice(&request.request_id.to_le_bytes());
    golden.extend_from_slice(&[0x22; 32]);
    golden.push(2);
    golden.extend_from_slice(&[0x33; 32]);
    golden.extend_from_slice(&[0x44; 32]);
    golden.extend_from_slice(&4000u32.to_le_bytes());
    golden.push(1);

    let message = HeaderSyncMessage::GetHeaders(request);
    assert_eq!(
        codec().encode(&message).expect("valid request encodes"),
        golden
    );
    assert_eq!(
        codec()
            .decode(&golden, None, no_parse())
            .expect("golden request decodes"),
        message
    );
}

#[test]
fn wire_headers_golden_vector_uses_parallel_wire_sections() {
    let header = genesis_header();
    let target_tip_hash = header.hash;
    let response = Headers {
        request_id: 9,
        target_tip_hash,
        common_ancestor_height: Height(0),
        common_ancestor_hash: header.previous_block_hash,
        complete: true,
        tree_aux_schema: AuxSchema::V1,
        entries: vec![HeaderEntry {
            header: header.clone(),
            body_size: 2_000_000,
            tree_aux: Some(empty_aux(Height(1))),
        }],
    };
    let mut golden = vec![MSG_HS_HEADERS];
    golden.extend_from_slice(&9u64.to_le_bytes());
    golden.extend_from_slice(&target_tip_hash.0);
    golden.extend_from_slice(&0u32.to_le_bytes());
    golden.extend_from_slice(&header.previous_block_hash.0);
    golden.extend_from_slice(&1u32.to_le_bytes());
    golden.push(1);
    golden.push(1);
    golden.extend_from_slice(&header.encoded);
    golden.extend_from_slice(&2_000_000u32.to_le_bytes());
    golden.extend_from_slice(&1u32.to_le_bytes());
    golden.extend_from_slice(&[0; 152]);

    assert_eq!(
        codec()
            .encode(&HeaderSyncMessage::Headers(response.clone()))
            .expect("valid response encodes"),
        golden
    );
    assert_eq!(
        codec()
            .decode(
                &golden,
                Some(HeaderSyncDecodeContext {
                    max_header_count: 1,
                    requested_tree_aux_schema: AuxSchema::V1,
                }),
                genesis_parse(),
            )
            .expect("golden response decodes"),
        HeaderSyncMessage::Headers(response)
    );

    let header_offset = 1 + 8 + 32 + 4 + 32 + 4 + 1 + 1;
    let hint_offset = header_offset + regtest().header_bytes;
    let aux_offset = hint_offset + 4;
    assert_eq!(
        &golden[hint_offset..aux_offset],
        &2_000_000u32.to_le_bytes()
    );
    assert_eq!(golden.len() - aux_offset, TREE_AUX_SCHEMA_V1_BYTES);
}

#[test]
fn wire_headers_outcome_golden_vector_both_directions() {
    let message = HeaderSyncMessage::HeadersOutcome(HeadersOutcome {
        request_id: 7,
        target_tip_hash: hash(0xaa),
        outcome: HeadersOutcomeCode::HistoryPruned,
    });
    let mut golden = vec![MSG_HS_HEADERS_OUTCOME];
    golden.extend_from_slice(&7u64.to_le_bytes());
    golden.extend_from_slice(&[0xaa; 32]);
    golden.push(3);
    assert_eq!(
        codec().encode(&message).expect("valid outcome encodes"),
        golden
    );
    assert_eq!(
        codec()
            .decode(&golden, None, no_parse())
            .expect("golden outcome decodes"),
        message
    );
}

#[test]
fn discriminant_four_is_decoded_only_as_headers_outcome() {
    let outcome = HeaderSyncMessage::HeadersOutcome(HeadersOutcome {
        request_id: 7,
        target_tip_hash: hash(0xaa),
        outcome: HeadersOutcomeCode::HistoryPruned,
    });
    let outcome_frame = codec()
        .encode_frame(&outcome)
        .expect("valid outcome encodes as a frame");
    assert_eq!(
        codec()
            .decode_frame(outcome_frame, None, no_parse())
            .expect("a negotiated codec decodes outcome discriminator 4"),
        outcome
    );
    let mut block_relay_payload = vec![MSG_HS_HEADERS_OUTCOME];
    block_relay_payload.extend_from_slice(&genesis_block_bytes());
    let block_relay_frame = Frame {
        message_type: u16::from(MSG_HS_HEADERS_OUTCOME),
        flags: 0,
        payload: block_relay_payload,
    };
    assert!(codec().decode_frame(block_relay_frame, None, no_parse()).is_err());
}

#[test]
fn wire_bounded_decode_rejects_discriminants_ids_bools_heights_and_trailing_bytes() {
    assert!(matches!(
        codec().decode(&[5], None, no_parse()),
        Err(HeaderSyncWireError::UnknownMessageType(5))
    ));

    let outcome = codec()
        .encode(&HeaderSyncMessage::HeadersOutcome(HeadersOutcome {
            request_id: 1,
            target_tip_hash: hash(0),
            outcome: HeadersOutcomeCode::Busy,
        }))
        .expect("valid outcome encodes");
    let mut zero_id = outcome.clone();
    zero_id[1..9].fill(0);
    assert!(matches!(
        codec().decode(&zero_id, None, no_parse()),
        Err(HeaderSyncWireError::ZeroRequestId("HeadersOutcome"))
    ));
    let mut unknown_outcome = outcome.clone();
    *unknown_outcome.last_mut().expect("outcome has a code") = 5;
    assert!(matches!(
        codec().decode(&unknown_outcome, None, no_parse()),
        Err(HeaderSyncWireError::UnknownOutcome(5))
    ));
    let mut trailing = outcome;
    trailing.push(0);
    assert!(matches!(
        codec().decode(&trailing, None, no_parse()),
        Err(HeaderSyncWireError::TrailingBytes)
    ));

    let empty_headers = Headers {
        request_id: 1,
        target_tip_hash: hash(1),
        common_ancestor_height: Height(1),
        common_ancestor_hash: hash(1),
        complete: true,
        tree_aux_schema: AuxSchema::NoAux,
        entries: vec![],
    };
    let bytes = codec()
        .encode(&HeaderSyncMessage::Headers(empty_headers))
        .expect("valid empty completion encodes");
    let mut invalid_bool = bytes.clone();
    invalid_bool[81] = 2;
    assert!(matches!(
        codec().decode(
            &invalid_bool,
            Some(HeaderSyncDecodeContext {
                max_header_count: 1,
                requested_tree_aux_schema: AuxSchema::NoAux,
            }),
            genesis_parse(),
        ),
        Err(HeaderSyncWireError::InvalidBool { .. })
    ));
    let mut invalid_height = bytes;
    invalid_height[41..45].copy_from_slice(&(HEIGHT_MAX + 1).to_le_bytes());
    assert!(matches!(
        codec().decode(
            &invalid_height,
            Some(HeaderSyncDecodeContext {
                max_header_count: 1,
                requested_tree_aux_schema: AuxSchema::NoAux,
            }),
            genesis_parse(),
        ),
        Err(HeaderSyncWireError::HeightOutOfRange(_))
    ));
}

#[test]
fn wire_request_bounds_and_schema_advertisement_are_enforced() {
    for locator_count in [0, 14] {
        let mut request = request();
        request.locator_hashes = vec![hash(1); locator_count];
        assert!(matches!(
            codec().encode(&HeaderSyncMessage::GetHeaders(request)),
            Err(HeaderSyncWireError::CountOutOfRange {
                field: "locator",
                ..
            })
        ));
    }
    for count in [0, MAX_HS_RANGE + 1] {
        let mut request = request();
        request.max_header_count = count;
        assert!(matches!(
            codec().encode(&HeaderSyncMessage::GetHeaders(request)),
            Err(HeaderSyncWireError::CountOutOfRange {
                field: "max_header",
                ..
            })
        ));
    }
    let no_aux_codec = HeaderSyncCodec::new(mainnet(), 1000, MAX_HS_RANGE, 0);
    assert!(matches!(
        no_aux_codec.encode(&HeaderSyncMessage::GetHeaders(request())),
        Err(HeaderSyncWireError::UnsupportedTreeAuxSchema(1))
    ));

    let mut encoded = codec()
        .encode(&HeaderSyncMessage::GetHeaders(request()))
        .expect("valid request encodes");
    *encoded.last_mut().expect("request has a schema byte") = 2;
    assert!(matches!(
        codec().decode(&encoded, None, no_parse()),
        Err(HeaderSyncWireError::UnsupportedTreeAuxSchema(2))
    ));
}

#[test]
fn wire_payload_and_response_count_caps_apply_before_vector_decode() {
    let small_codec = HeaderSyncCodec::new(mainnet(), 8, MAX_HS_RANGE, 1);
    assert!(matches!(
        small_codec.decode(&[0; 9], None, no_parse()),
        Err(HeaderSyncWireError::OversizedPayload { actual: 9, max: 8 })
    ));

    let mut response = vec![MSG_HS_HEADERS];
    response.extend_from_slice(&1u64.to_le_bytes());
    response.extend_from_slice(&[0; 32]);
    response.extend_from_slice(&0u32.to_le_bytes());
    response.extend_from_slice(&[0; 32]);
    response.extend_from_slice(&2u32.to_le_bytes());
    response.push(0);
    response.push(0);
    assert!(matches!(
        codec().decode(
            &response,
            Some(HeaderSyncDecodeContext {
                max_header_count: 1,
                requested_tree_aux_schema: AuxSchema::NoAux,
            }),
            genesis_parse(),
        ),
        Err(HeaderSyncWireError::CountOutOfRange {
            field: "header",
            ..
        })
    ));
}

#[test]
fn wire_body_hints_completion_and_aux_defaults_are_enforced() {
    let header = genesis_header();
    let mut response = Headers {
        request_id: 1,
        target_tip_hash: header.hash,
        common_ancestor_height: Height(0),
        common_ancestor_hash: header.previous_block_hash,
        complete: true,
        tree_aux_schema: AuxSchema::NoAux,
        entries: vec![HeaderEntry {
            header,
            body_size: 2_000_001,
            tree_aux: None,
        }],
    };
    assert!(matches!(
        codec().encode(&HeaderSyncMessage::Headers(response.clone())),
        Err(HeaderSyncWireError::BodySizeHintOutOfRange(2_000_001))
    ));
    response.entries[0].body_size = 0;
    assert!(codec()
        .encode(&HeaderSyncMessage::Headers(response.clone()))
        .is_ok());
    response.complete = false;
    response.entries.clear();
    assert!(matches!(
        codec().encode(&HeaderSyncMessage::Headers(response)),
        Err(HeaderSyncWireError::InvalidHeadersCompletion)
    ));

    let network = mainnet();
    let pre_nu5 = Height(network.nu5_activation.expect("mainnet has NU5").0 - 1);
    let mut aux = empty_aux(pre_nu5);
    aux.orchard_tx_count = 1;
    assert!(matches!(
        aux.validate_for(pre_nu5, &network),
        Err(HeaderSyncWireError::InvalidTreeAuxDefault {
            field: "orchard_tx_count",
            ..
        })
    ));
    let before_unconfigured_nu7 = network.nu5_activation.expect("mainnet has NU5");
    let mut aux = empty_aux(before_unconfigured_nu7);
    aux.ironwood_tx_count = 1;
    assert!(matches!(
        aux.validate_for(before_unconfigured_nu7, &network),
        Err(HeaderSyncWireError::InvalidTreeAuxDefault {
            field: "ironwood_tx_count",
            ..
        })
    ));
}

#[test]
fn discriminator_four_never_guesses_block_relay_payload() {
    let mut block_relay_payload = vec![MSG_HS_HEADERS_OUTCOME];
    block_relay_payload.extend_from_slice(&genesis_block_bytes());
    assert!(codec().decode(&block_relay_payload, None, no_parse()).is_err());
}

#[test]
fn wire_decode_rejects_each_vector_hint_schema_and_byte_boundary() {
    let valid_request = codec()
        .encode(&HeaderSyncMessage::GetHeaders(request()))
        .expect("valid request encodes");
    for locator_count in [0, 14] {
        let mut malformed = valid_request.clone();
        malformed[41] = locator_count;
        assert!(matches!(
            codec().decode(&malformed, None, no_parse()),
            Err(HeaderSyncWireError::CountOutOfRange {
                field: "locator",
                ..
            })
        ));
    }
    let max_count_offset = valid_request.len() - 5;
    for count in [0, MAX_HS_RANGE + 1] {
        let mut malformed = valid_request.clone();
        malformed[max_count_offset..max_count_offset + 4].copy_from_slice(&count.to_le_bytes());
        assert!(matches!(
            codec().decode(&malformed, None, no_parse()),
            Err(HeaderSyncWireError::CountOutOfRange {
                field: "max_header",
                ..
            })
        ));
    }

    let header = genesis_header();
    let response = Headers {
        request_id: 3,
        target_tip_hash: header.hash,
        common_ancestor_height: Height(0),
        common_ancestor_hash: header.previous_block_hash,
        complete: true,
        tree_aux_schema: AuxSchema::V1,
        entries: vec![HeaderEntry {
            header,
            body_size: 1,
            tree_aux: Some(empty_aux(Height(1))),
        }],
    };
    let encoded = codec()
        .encode(&HeaderSyncMessage::Headers(response))
        .expect("valid response encodes");
    let context = HeaderSyncDecodeContext {
        max_header_count: 1,
        requested_tree_aux_schema: AuxSchema::V1,
    };
    let header_offset = 83;
    let hint_offset = header_offset + regtest().header_bytes;
    let aux_offset = hint_offset + 4;

    let mut bad_hint = encoded.clone();
    bad_hint[hint_offset..aux_offset].copy_from_slice(&2_000_001u32.to_le_bytes());
    assert!(matches!(
        codec().decode(&bad_hint, Some(context), genesis_parse()),
        Err(HeaderSyncWireError::BodySizeHintOutOfRange(2_000_001))
    ));
    let mut wrong_aux_height = encoded.clone();
    wrong_aux_height[aux_offset..aux_offset + 4].copy_from_slice(&2u32.to_le_bytes());
    assert!(matches!(
        codec().decode(&wrong_aux_height, Some(context), genesis_parse()),
        Err(HeaderSyncWireError::TreeAuxHeightMismatch { .. })
    ));
    assert!(matches!(
        codec().decode(&encoded[..encoded.len() - 1], Some(context), genesis_parse()),
        Err(HeaderSyncWireError::Io(error)) if error.kind() == WireIoErrorKind::UnexpectedEof
    ));

    let mut mismatched_schema = encoded;
    mismatched_schema[82] = AuxSchema::V1.wire_value();
    assert!(matches!(
        codec().decode(
            &mismatched_schema,
            Some(HeaderSyncDecodeContext {
                max_header_count: 1,
                requested_tree_aux_schema: AuxSchema::NoAux,
            }),
            genesis_parse(),
        ),
        Err(HeaderSyncWireError::ResponseTreeAuxSchemaMismatch {
            requested: 0,
            actual: 1
        })
    ));

    let hard_cap_codec = HeaderSyncCodec::new(mainnet(), u32::MAX, 1, 0);
    let over_hard_cap = vec![0; MAX_HS_MESSAGE_BYTES + 1];
    assert!(matches!(
        hard_cap_codec.decode(&over_hard_cap, None, no_parse()),
        Err(HeaderSyncWireError::OversizedPayload {
            actual,
            max: MAX_HS_MESSAGE_BYTES
        }) if actual == MAX_HS_MESSAGE_BYTES + 1
    ));
}
