use byteorder::{LittleEndian, WriteBytesExt};
use zakura_network::frame::{Frame, FrameError};
use zakura_network::header_sync::wire::{MAX_HS_MESSAGE_BYTES, MSG_HS_STATUS};

#[test]
fn frame_decode_rejects_oversized_payload_length_before_allocating() {
    let mut bytes = Vec::new();
    bytes
        .write_u16::<LittleEndian>(u16::from(MSG_HS_STATUS))
        .unwrap();
    bytes.write_u16::<LittleEndian>(0).unwrap();
    bytes
        .write_u32::<LittleEndian>(MAX_HS_MESSAGE_BYTES as u32 + 1)
        .unwrap();

    assert!(Frame::decode(&bytes, MAX_HS_MESSAGE_BYTES as u32).is_err());
}

#[test]
fn frame_decode_takes_exactly_one_frame() {
    let bytes = [2, 1, 4, 3, 3, 0, 0, 0, 7, 8, 9];
    assert_eq!(
        Frame::decode(&bytes, 3),
        Ok(Frame {
            message_type: 0x0102,
            flags: 0x0304,
            payload: vec![7, 8, 9],
        })
    );
    assert_eq!(
        Frame::decode(&bytes, 2),
        Err(FrameError::OversizedPayload { actual: 3, max: 2 })
    );
    assert_eq!(
        Frame::decode(&bytes[..10], 3),
        Err(FrameError::PayloadLength {
            expected: 3,
            actual: 2,
        })
    );
    assert_eq!(Frame::decode(&bytes[..7], 3), Err(FrameError::TruncatedHeader));
}
