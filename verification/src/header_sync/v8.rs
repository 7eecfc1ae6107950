//! Header sync under its protocol-version names.
//!
//! Protocol version 8 is the sole negotiated header-sync protocol, so its messages and its codec
//! are those of [`crate::header_sync::message`] and [`crate::header_sync::wire`].
use vstd::prelude::*;

use crate::header_sync::message::{
    AuxSchema, GetHeaders, HeaderEntry, HeaderSyncDecodeContext, HeaderSyncMessage,
    HeaderSyncWireError, Headers, HeadersOutcome, HeadersOutcomeCode, Status,
};
use crate::header_sync::wire::HeaderSyncCodec;

pub use crate::header_sync::message::TreeAuxRecordV1;

verus! {

/// Version-8 `Status` discriminator.
pub const MSG_HS_V8_STATUS: u8 = 1;

/// Version-8 `GetHeaders` discriminator.
pub const MSG_HS_V8_GET_HEADERS: u8 = 2;

/// Version-8 `Headers` discriminator.
pub const MSG_HS_V8_HEADERS: u8 = 3;

/// Version-8 `HeadersOutcome` discriminator.
pub const MSG_HS_V8_HEADERS_OUTCOME: u8 = 4;

/// Errors produced while constructing, encoding, or bounded-decoding version-8 messages.
pub type HeaderSyncV8WireError = HeaderSyncWireError;

/// Version-8 tree-aux selector.
pub type AuxSchemaV8 = AuxSchema;

/// Version-8 peer frontier and resource-cap advertisement.
pub type StatusV8 = Status;

/// Version-8 locator-based request.
pub type GetHeadersV8 = GetHeaders;

/// One version-8 header with its parallel advisory metadata.
pub type HeaderEntryV8 = HeaderEntry;

/// A version-8 response.
pub type HeadersV8 = Headers;

/// Version-8 non-data outcomes.
pub type HeadersOutcomeCodeV8 = HeadersOutcomeCode;

/// A version-8 non-data response.
pub type HeadersOutcomeV8 = HeadersOutcome;

/// A version-8 message.
pub type HeaderSyncMessageV8 = HeaderSyncMessage;

/// Bounds from the in-flight request that a version-8 response answers.
pub type HeaderSyncV8DecodeContext = HeaderSyncDecodeContext;

/// The version-8 codec.
pub type HeaderSyncV8Codec = HeaderSyncCodec;

} // verus!
