use zxmit::{
    parse_ack, AckOutcome, AckRecord, AckStep, FrameStep, Handshake, Transfer, UploadProgress,
};

fn rec(seq: u8, acked: u16) -> AckRecord {
    AckRecord { seq, status: 0, acked }
}

#[test]
fn parse_ack_little_endian() {
    assert_eq!(parse_ack(&[3, 1, 0x34, 0x12]), AckRecord { seq: 3, status: 1, acked: 0x1234 });
}

#[test]
fn handshake_sums_partial_records() {
    let mut h = Handshake::new(5, 1041);
    assert!(!h.complete());
    assert_eq!(h.on_record(rec(5, 1000)), AckOutcome::Pending);
    assert_eq!(h.on_record(rec(4, 41)), AckOutcome::Stale);
    assert!(!h.complete());
    assert_eq!(h.on_record(rec(5, 41)), AckOutcome::Complete);
    assert!(h.complete());
    assert!(!h.peer_error());
}

#[test]
fn handshake_overshoot_never_completes() {
    let mut h = Handshake::new(0, 10);
    assert_eq!(h.on_record(rec(0, 11)), AckOutcome::Pending);
    assert_eq!(h.on_record(rec(0, 0)), AckOutcome::Pending);
    assert!(!h.complete());
}

#[test]
fn handshake_exposes_peer_error() {
    let mut h = Handshake::new(2, 20);
    assert_eq!(h.on_record(AckRecord { seq: 1, status: 1, acked: 3 }), AckOutcome::Stale);
    assert!(!h.peer_error());
    assert_eq!(h.on_record(AckRecord { seq: 2, status: 1, acked: 3 }), AckOutcome::Pending);
    assert!(h.peer_error());
}

#[test]
fn transfer_waits_for_acks() {
    let mut t = Transfer::new(2, 30, false);
    assert!(t.connects());
    let frame = vec![0u8, 13, 0, 2, b'A', b'.', b'B', 0, 0, 0, 0, 0, 0, 0, 0, 0, 0, 1, 2, 3, 4, 5, 6, 7, 8, 9, 10, 11, 12, 13];
    assert_eq!(t.begin_frame(&frame), FrameStep::Send);
    assert_eq!(t.on_ack(rec(9, 30)), AckStep::Wait);
    assert_eq!(t.on_ack(rec(0, 20)), AckStep::Wait);
    assert_eq!(
        t.on_ack(rec(0, 10)),
        AckStep::Done(UploadProgress { current_block: 1, blocks_num: 2, total_bytes: 30, compressed_bytes: 30 })
    );
    assert_eq!(t.compressed_bytes(), 30);
}

#[test]
fn dummy_transfer_never_sends() {
    let mut t = Transfer::new(1, 3, true);
    assert!(!t.connects());
    assert_eq!(
        t.begin_frame(&[0, 3, 0, 0, 1, 2, 3]),
        FrameStep::Acknowledged(UploadProgress { current_block: 1, blocks_num: 1, total_bytes: 3, compressed_bytes: 7 })
    );
}
