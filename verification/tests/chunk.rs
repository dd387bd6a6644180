use livekit_portal::chunk::{
    deserialize_chunk, serialize_chunk, ActionChunk, ChunkDtype, CHUNK_TOPIC, HEADER_LEN,
};
use livekit_portal::error::PortalError;

fn small(dtype: ChunkDtype, payload: Vec<u8>) -> ActionChunk {
    ActionChunk { horizon: 2, action_dim: 2, dtype, captured_at_us: 0, payload }
}

fn complaint(frame: &[u8]) -> String {
    deserialize_chunk(frame).unwrap_err().message()
}

#[test]
fn round_trips_f32_chunk() {
    let payload: Vec<u8> = (0..50 * 7 * 4).map(|i| (i % 251) as u8).collect();
    let chunk = ActionChunk {
        horizon: 50,
        action_dim: 7,
        dtype: ChunkDtype::F32,
        captured_at_us: 1_234_567_890,
        payload: payload.clone(),
    };
    let frame = serialize_chunk(&chunk).unwrap();
    let back = deserialize_chunk(&frame).unwrap();
    assert_eq!(back.horizon, 50);
    assert_eq!(back.action_dim, 7);
    assert_eq!(back.dtype, ChunkDtype::F32);
    assert_eq!(back.captured_at_us, 1_234_567_890);
    assert_eq!(back.payload, payload);
}

#[test]
fn round_trips_f16_chunk() {
    let payload: Vec<u8> = (0..16 * 14 * 2).map(|i| (i % 251) as u8).collect();
    let chunk = ActionChunk {
        horizon: 16,
        action_dim: 14,
        dtype: ChunkDtype::F16,
        captured_at_us: 42,
        payload: payload.clone(),
    };
    let frame = serialize_chunk(&chunk).unwrap();
    let back = deserialize_chunk(&frame).unwrap();
    assert_eq!(back.dtype, ChunkDtype::F16);
    assert_eq!(back.payload, payload);
}

#[test]
fn rejects_payload_length_mismatch_on_serialize() {
    let chunk = ActionChunk {
        horizon: 10,
        action_dim: 7,
        dtype: ChunkDtype::F32,
        captured_at_us: 0,
        payload: vec![0u8; 10], // too short
    };
    assert!(serialize_chunk(&chunk).is_err());
}

#[test]
fn rejects_bad_magic() {
    let mut frame = serialize_chunk(&ActionChunk {
        horizon: 2,
        action_dim: 2,
        dtype: ChunkDtype::F32,
        captured_at_us: 0,
        payload: vec![0u8; 16],
    })
    .unwrap();
    frame[0] = b'X';
    assert!(deserialize_chunk(&frame).is_err());
}

#[test]
fn rejects_payload_length_mismatch_on_deserialize() {
    let mut frame = serialize_chunk(&ActionChunk {
        horizon: 2,
        action_dim: 2,
        dtype: ChunkDtype::F32,
        captured_at_us: 0,
        payload: vec![0u8; 16],
    })
    .unwrap();
    frame.push(0x00); // trailing byte breaks expected length
    assert!(deserialize_chunk(&frame).is_err());
}

#[test]
fn chunk_frame_is_laid_out_as_documented() {
    let frame = serialize_chunk(&ActionChunk {
        horizon: 0x0102,
        action_dim: 1,
        dtype: ChunkDtype::F16,
        captured_at_us: 0x0102_0304_0506_0708,
        payload: vec![7u8; 0x0102 * 2],
    })
    .unwrap();
    assert_eq!(frame.len(), 18 + 0x0102 * 2);
    assert_eq!(&frame[..4], b"PCHK");
    assert_eq!(&frame[4..10], &[1, 1, 2, 1, 1, 0]);
    assert_eq!(&frame[10..18], &[8, 7, 6, 5, 4, 3, 2, 1]);
    assert!(frame[18..].iter().all(|b| *b == 7));
    assert_eq!(CHUNK_TOPIC, "portal_action_chunk");
}

#[test]
fn chunk_element_sizes() {
    assert_eq!(ChunkDtype::F32.size(), 4);
    assert_eq!(ChunkDtype::F16.size(), 2);
    assert_eq!(small(ChunkDtype::F32, vec![]).expected_payload_len(), 16);
    assert_eq!(small(ChunkDtype::F16, vec![]).expected_payload_len(), 8);
}

#[test]
fn every_malformed_chunk_frame_is_named() {
    let good = serialize_chunk(&small(ChunkDtype::F32, vec![3u8; 16])).unwrap();
    // A frame that was read is written the same way again.
    let back = deserialize_chunk(&good).unwrap();
    assert_eq!(serialize_chunk(&back).unwrap(), good);

    assert!(matches!(deserialize_chunk(&good[..10]), Err(PortalError::Deserialization(_))));
    assert_eq!(
        complaint(&good[..10]),
        "deserialization error: chunk frame too short: 10 < 18"
    );
    let spoil = |at: usize, byte: u8| {
        let mut bad = good.clone();
        bad[at] = byte;
        complaint(&bad)
    };
    assert_eq!(spoil(3, b'X'), "deserialization error: chunk frame magic mismatch");
    assert_eq!(
        spoil(4, 9),
        "deserialization error: chunk frame version 9 unsupported (want 1)"
    );
    assert_eq!(spoil(5, 2), "deserialization error: unknown chunk dtype code 2");
    assert_eq!(
        spoil(6, 3),
        "deserialization error: chunk payload length 16 does not match header (3 * 2 * 4 = 24)"
    );
    assert_eq!(
        serialize_chunk(&small(ChunkDtype::F16, vec![0; 3])).unwrap_err().message(),
        "deserialization error: chunk payload length 3 does not match H*K*dtype (2 * 2 * 2 = 8)"
    );
}

#[test]
fn an_empty_chunk_survives() {
    let empty = ActionChunk {
        horizon: 0,
        action_dim: 9,
        dtype: ChunkDtype::F16,
        captured_at_us: 5,
        payload: vec![],
    };
    let frame = serialize_chunk(&empty).unwrap();
    assert_eq!(frame.len(), HEADER_LEN);
    let back = deserialize_chunk(&frame).unwrap();
    assert_eq!((back.horizon, back.action_dim, back.captured_at_us), (0, 9, 5));
    assert!(back.payload.is_empty());
}

#[test]
fn types_and_their_codes_determine_each_other() {
    for (code, dtype) in [(0u8, ChunkDtype::F32), (1, ChunkDtype::F16)] {
        assert_eq!(dtype.code(), code);
        assert_eq!(ChunkDtype::from_code(code), Some(dtype));
    }
    for code in 2..=255u8 {
        assert!(ChunkDtype::from_code(code).is_none());
    }
}
