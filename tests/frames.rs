use zxmit::{
    build_frames, compress_chunk, dummy_transfer, encode_frame, select_payload, FrameProducer,
    CHUNK_SIZE, FLAGS_COMPRESSED, FLAGS_LONG_HEADER, LONG_HEADER_LEN,
};

fn name() -> Vec<u8> {
    b"TEST.BIN".to_vec()
}

fn noise(len: usize) -> Vec<u8> {
    let mut x: u32 = 12345;
    let mut v = Vec::new();
    for _ in 0..len {
        x = x.wrapping_mul(1103515245).wrapping_add(12345);
        v.push((x >> 16) as u8);
    }
    v
}

#[test]
fn encode_first_frame() {
    let f = encode_frame(0, &[9, 8, 7], false, Some(b"AB.C"));
    let mut expected = vec![0u8, 3, 0, FLAGS_LONG_HEADER, b'A', b'B', b'.', b'C'];
    expected.resize(LONG_HEADER_LEN, 0);
    expected.extend_from_slice(&[9, 8, 7]);
    assert_eq!(f, expected);
}

#[test]
fn encode_later_frame() {
    let payload = vec![1u8; 300];
    let f = encode_frame(7, &payload, true, None);
    assert_eq!(&f[..4], &[7, 44, 1, FLAGS_COMPRESSED]);
    assert_eq!(f.len(), 304);
}

#[test]
fn scenario_two_full_chunks_uncompressed() {
    let frames = build_frames(noise(2048), name(), CHUNK_SIZE, false);
    assert_eq!(frames.len(), 2);
    assert_eq!(frames[0][0], 0);
    assert_eq!(frames[0][3], FLAGS_LONG_HEADER);
    assert_eq!(frames[0][1] as usize + 256 * frames[0][2] as usize, 1024);
    assert_eq!(frames[0].len(), LONG_HEADER_LEN + 1024);
    assert_eq!(frames[1][0], 1);
    assert_eq!(frames[1][3], 0);
    assert_eq!(frames[1][1] as usize + 256 * frames[1][2] as usize, 1024);
    assert_eq!(frames[1].len(), 4 + 1024);
}

#[test]
fn scenario_short_input_never_compressed() {
    let frames = build_frames(vec![0u8; 10], name(), CHUNK_SIZE, true);
    assert_eq!(frames.len(), 1);
    assert_eq!(frames[0][3], FLAGS_LONG_HEADER);
    assert_eq!(frames[0][1], 10);
    assert_eq!(frames[0][2], 0);
    assert_eq!(&frames[0][LONG_HEADER_LEN..], &[0u8; 10]);
}

#[test]
fn empty_input_has_no_frames() {
    assert!(build_frames(Vec::new(), name(), CHUNK_SIZE, true).is_empty());
    assert!(dummy_transfer(Vec::new(), name(), CHUNK_SIZE, true).is_empty());
}

#[test]
fn chunk_count_rounds_up() {
    let frames = build_frames(noise(2500), name(), CHUNK_SIZE, false);
    assert_eq!(frames.len(), 3);
    assert_eq!(frames[2].len(), 4 + 2500 - 2048);
    let mut joined = Vec::new();
    joined.extend_from_slice(&frames[0][LONG_HEADER_LEN..]);
    joined.extend_from_slice(&frames[1][4..]);
    joined.extend_from_slice(&frames[2][4..]);
    assert_eq!(joined, noise(2500));
}

#[test]
fn compressible_full_chunk_is_compressed() {
    let frames = build_frames(vec![0u8; 2048 + 5], name(), CHUNK_SIZE, true);
    assert_eq!(frames.len(), 3);
    for (i, f) in frames.iter().enumerate().take(2) {
        assert_eq!(f[3] & FLAGS_COMPRESSED, FLAGS_COMPRESSED);
        let header = if i == 0 { LONG_HEADER_LEN } else { 4 };
        let declared = f[1] as usize + 256 * f[2] as usize;
        assert!(declared < CHUNK_SIZE);
        assert_eq!(declared, f.len() - header);
    }
    assert_eq!(frames[2][3], 0);
    assert_eq!(frames[2].len(), 4 + 5);
}

#[test]
fn incompressible_chunk_goes_raw() {
    let data = noise(1024);
    let (payload, compressed) = compress_chunk(&data, CHUNK_SIZE, true);
    assert!(!compressed);
    assert_eq!(payload, data);
}

#[test]
fn compress_chunk_shrinks_zeros() {
    let data = vec![0u8; 1024];
    let (payload, compressed) = compress_chunk(&data, CHUNK_SIZE, true);
    assert!(compressed);
    assert!(payload.len() < 1024);
    assert_ne!(payload, data);
    let (payload, compressed) = compress_chunk(&data, CHUNK_SIZE, false);
    assert!(!compressed);
    assert_eq!(payload, data);
}

#[test]
fn select_payload_policy() {
    let chunk = vec![5u8; 4];
    assert_eq!(select_payload(&chunk, vec![1, 2], 4, true), (vec![1, 2], true));
    assert_eq!(select_payload(&chunk, vec![1, 2, 3, 4], 4, true), (chunk.clone(), false));
    assert_eq!(select_payload(&chunk, vec![1, 2], 8, true), (chunk.clone(), false));
    assert_eq!(select_payload(&chunk, vec![1, 2], 4, false), (chunk.clone(), false));
}

#[test]
fn sequence_wraps_after_256_frames() {
    let frames = build_frames(vec![1u8; 300], name(), 1, false);
    assert_eq!(frames.len(), 300);
    for (i, f) in frames.iter().enumerate() {
        assert_eq!(f[0] as usize, i % 256);
        assert_eq!(f[3] & FLAGS_LONG_HEADER != 0, i == 0);
    }
}

#[test]
fn producer_hands_out_frames_in_order() {
    let mut p = FrameProducer::new(noise(3000), name(), CHUNK_SIZE, false);
    assert_eq!(p.blocks_num(), 3);
    let expected = build_frames(noise(3000), name(), CHUNK_SIZE, false);
    for e in expected {
        assert_eq!(p.next_frame(), Some(e));
    }
    assert_eq!(p.next_frame(), None);
}

#[test]
fn scenario_dummy_counts_every_byte() {
    let data = noise(2500);
    let events = dummy_transfer(data.clone(), name(), CHUNK_SIZE, true);
    let frames = build_frames(data, name(), CHUNK_SIZE, true);
    assert_eq!(events.len(), 3);
    let mut sum = 0;
    for (i, (e, f)) in events.iter().zip(frames.iter()).enumerate() {
        sum += f.len();
        assert_eq!(e.current_block, i + 1);
        assert_eq!(e.blocks_num, 3);
        assert_eq!(e.total_bytes, 2500);
        assert_eq!(e.compressed_bytes, sum);
    }
    assert_eq!(events[2].compressed_bytes, (17 + 1024) + (4 + 1024) + (4 + 452));
}

#[test]
fn legacy_whole_file_layout() {
    let r = zxmit::encode_legacy(b"GAME.TAP", &[1, 2, 3]).unwrap();
    assert_eq!(r.len(), zxmit::LEGACY_NAME_LEN + 3);
    assert_eq!(&r[..8], b"GAME.TAP");
    assert!(r[8..32].iter().all(|b| *b == 0));
    assert_eq!(&r[32..], &[1, 2, 3]);
}

#[test]
fn legacy_name_too_long() {
    assert_eq!(zxmit::encode_legacy(&[b'x'; 33], &[]), Err(zxmit::UploadError::NameTooLong));
}
