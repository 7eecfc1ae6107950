//! Length-prefixed frames that carry messages on a stream.
use vstd::prelude::*;

use crate::le;

verus! {

/// Bytes of a frame before its payload.
pub const FRAME_HEADER_BYTES: usize = 8;

/// One framed message.
#[derive(Clone, Debug, PartialEq, Eq)]
pub struct Frame {
    /// Application message type.
    pub message_type: u16,
    /// Frame flags.
    pub flags: u16,
    /// Message payload.
    pub payload: Vec<u8>,
}

/// Why bytes are not one frame.
#[derive(Clone, Copy, Debug, PartialEq, Eq)]
pub enum FrameError {
    /// The frame header is incomplete.
    TruncatedHeader,
    /// The announced payload is longer than the receiver accepts.
    OversizedPayload {
        /// Announced payload length.
        actual: u32,
        /// Longest accepted payload.
        max: u32,
    },
    /// The bytes after the frame header are not the announced number of bytes.
    PayloadLength {
        /// Announced payload length.
        expected: u32,
        /// Bytes after the frame header.
        actual: usize,
    },
}

/// The payload length that a frame header announces.
pub open spec fn announced_payload(bytes: Seq<u8>) -> nat {
    le::value(bytes.subrange(4, 8))
}

/// Why bytes are not one frame with a payload of at most `max` bytes.
pub open spec fn frame_error(bytes: Seq<u8>, max: u32) -> Option<FrameError> {
    if bytes.len() < FRAME_HEADER_BYTES {
        Some(FrameError::TruncatedHeader)
    } else if announced_payload(bytes) > max {
        Some(FrameError::OversizedPayload { actual: announced_payload(bytes) as u32, max })
    } else if bytes.len() - FRAME_HEADER_BYTES != announced_payload(bytes) {
        Some(
            FrameError::PayloadLength {
                expected: announced_payload(bytes) as u32,
                actual: (bytes.len() - FRAME_HEADER_BYTES) as usize,
            },
        )
    } else {
        None
    }
}

impl Frame {
    /// Decodes one frame, rejecting an oversized announced length before any payload is copied.
    pub fn decode(bytes: &[u8], max_payload_bytes: u32) -> (r: Result<Frame, FrameError>)
        ensures
            match frame_error(bytes@, max_payload_bytes) {
                Some(error) => r == Err::<Frame, FrameError>(error),
                None => r matches Ok(frame) && {
                    &&& frame.message_type == le::value(bytes@.subrange(0, 2))
                    &&& frame.flags == le::value(bytes@.subrange(2, 4))
                    &&& frame.payload@ == bytes@.skip(FRAME_HEADER_BYTES as int)
                    &&& frame.payload@.len() <= max_payload_bytes
                },
            },
    {
        if bytes.len() < FRAME_HEADER_BYTES {
            return Err(FrameError::TruncatedHeader);
        }
        proof {
            le::lemma_capacities();
        }
        let message_type: u16 = le::read(bytes, 0, 2) as u16;
        let flags: u16 = le::read(bytes, 2, 2) as u16;
        let announced: u32 = le::read(bytes, 4, 4) as u32;
        if announced > max_payload_bytes {
            return Err(FrameError::OversizedPayload { actual: announced, max: max_payload_bytes });
        }
        let actual: usize = bytes.len() - FRAME_HEADER_BYTES;
        if actual != announced as usize {
            return Err(FrameError::PayloadLength { expected: announced, actual });
        }
        let payload = vstd::slice::slice_to_vec(
            vstd::slice::slice_subrange(bytes, FRAME_HEADER_BYTES, bytes.len()),
        );
        assert(payload@ =~= bytes@.skip(FRAME_HEADER_BYTES as int));
        Ok(Frame { message_type, flags, payload })
    }
}

} // verus!
