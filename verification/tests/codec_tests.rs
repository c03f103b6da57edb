use ledger_frames::codec::{
    decode_frame, decode_payload, encode_frame, encode_payload, DecodeError, FrameLimit,
    FrameResult, LedgerCloseMeta, MetaV0, MetaV1, PayloadOutcome, TxResult,
};

fn sample_v0() -> LedgerCloseMeta {
    LedgerCloseMeta::V0(MetaV0 {
        ledger_seq: 7,
        close_time: 12345678901234567890,
        ledger_hash: vec![0, 1, 2],
        tx_results: vec![TxResult {
            tx_hash: vec![255, 254, 253, 252],
            result_code: 5,
        }],
    })
}

fn sample_v1(base_fee: Option<u32>) -> LedgerCloseMeta {
    LedgerCloseMeta::V1(MetaV1 {
        base: MetaV0 {
            ledger_seq: 42,
            close_time: 1700000000,
            ledger_hash: vec![9, 8, 7, 6, 5],
            tx_results: vec![
                TxResult {
                    tx_hash: vec![1],
                    result_code: 0,
                },
                TxResult {
                    tx_hash: vec![2, 3],
                    result_code: 11,
                },
            ],
        },
        total_coins: 9007199254740993,
        base_fee,
    })
}

#[test]
fn encode_v0_layout() {
    let m = LedgerCloseMeta::V0(MetaV0 {
        ledger_seq: 0x01020304,
        close_time: 0x05060708090a0b0c,
        ledger_hash: vec![0xaa, 0xbb],
        tx_results: vec![],
    });
    let p = encode_payload(&m);
    let expected: Vec<u8> = vec![
        0, 0, 0, 0, // version discriminant
        1, 2, 3, 4, // ledger_seq
        5, 6, 7, 8, 9, 10, 11, 12, // close_time
        0, 0, 0, 2, 0xaa, 0xbb, // length-prefixed hash
        0, 0, 0, 0, // transaction count
    ];
    assert_eq!(p, expected);
    let f = encode_frame(&m);
    assert_eq!(&f[0..4], &[0, 0, 0, 26]);
    assert_eq!(&f[4..], &expected[..]);
}

#[test]
fn encode_v1_discriminant_and_fee_flag() {
    let p_none = encode_payload(&sample_v1(None));
    assert_eq!(&p_none[0..4], &[0, 0, 0, 1]);
    assert_eq!(*p_none.last().unwrap(), 0);
    let p_some = encode_payload(&sample_v1(Some(0x0a0b0c0d)));
    let n = p_some.len();
    assert_eq!(&p_some[n - 5..], &[1, 0x0a, 0x0b, 0x0c, 0x0d]);
}

#[test]
fn decode_single_v0_frame() {
    let m = sample_v0();
    let buf = encode_frame(&m);
    match decode_frame(&buf, 0, FrameLimit::Unbounded) {
        FrameResult::Decoded { meta, next } => {
            assert_eq!(meta, m);
            assert_eq!(next, buf.len());
        }
        other => panic!("expected a decoded frame, got {:?}", other),
    }
}

#[test]
fn decode_single_v1_frame_round_trips() {
    for fee in [None, Some(100)] {
        let m = sample_v1(fee);
        let buf = encode_frame(&m);
        match decode_frame(&buf, 0, FrameLimit::Unbounded) {
            FrameResult::Decoded { meta, next } => {
                assert_eq!(meta, m);
                assert_eq!(next, buf.len());
            }
            other => panic!("expected a decoded frame, got {:?}", other),
        }
    }
}

#[test]
fn decode_is_idempotent_on_fixed_buffer() {
    let mut buf = encode_frame(&sample_v0());
    buf.extend_from_slice(&encode_frame(&sample_v1(Some(3))));
    let first = decode_frame(&buf, 0, FrameLimit::Unbounded);
    let second = decode_frame(&buf, 0, FrameLimit::Unbounded);
    match (first, second) {
        (
            FrameResult::Decoded { meta: m1, next: n1 },
            FrameResult::Decoded { meta: m2, next: n2 },
        ) => {
            assert_eq!(m1, m2);
            assert_eq!(n1, n2);
        }
        _ => panic!("expected both runs to decode"),
    }
}

#[test]
fn partial_prefix_needs_more_input() {
    let buf = vec![0, 0];
    assert!(matches!(
        decode_frame(&buf, 0, FrameLimit::Unbounded),
        FrameResult::NeedMoreInput
    ));
}

#[test]
fn partial_payload_needs_more_input() {
    let mut buf = encode_frame(&sample_v0());
    buf.truncate(buf.len() - 1);
    assert!(matches!(
        decode_frame(&buf, 0, FrameLimit::Unbounded),
        FrameResult::NeedMoreInput
    ));
}

#[test]
fn oversized_frame_fails_and_discards_buffer() {
    let buf = encode_frame(&sample_v0());
    let limit = FrameLimit::MaxLen(4);
    match decode_frame(&buf, 0, limit) {
        FrameResult::Failed { err, next } => {
            assert_eq!(err, DecodeError::FrameTooLarge);
            assert_eq!(next, buf.len());
        }
        other => panic!("expected a failure, got {:?}", other),
    }
}

#[test]
fn unknown_discriminant_fails_past_the_frame() {
    let payload = vec![0, 0, 0, 9, 1, 2, 3];
    let mut buf = (payload.len() as u32).to_be_bytes().to_vec();
    buf.extend_from_slice(&payload);
    match decode_frame(&buf, 0, FrameLimit::Unbounded) {
        FrameResult::Failed { err, next } => {
            assert_eq!(err, DecodeError::UnknownVariant);
            assert_eq!(next, buf.len());
        }
        other => panic!("expected a failure, got {:?}", other),
    }
}

#[test]
fn trailing_bytes_inside_payload_are_malformed() {
    let mut payload = encode_payload(&sample_v0());
    payload.push(0);
    let mut buf = (payload.len() as u32).to_be_bytes().to_vec();
    buf.extend_from_slice(&payload);
    match decode_frame(&buf, 0, FrameLimit::Unbounded) {
        FrameResult::Failed { err, .. } => assert_eq!(err, DecodeError::MalformedPayload),
        other => panic!("expected a failure, got {:?}", other),
    }
}

#[test]
fn bad_presence_flag_is_malformed() {
    let mut payload = encode_payload(&sample_v1(None));
    let n = payload.len();
    payload[n - 1] = 2;
    match decode_payload(&payload) {
        PayloadOutcome::Malformed => {}
        PayloadOutcome::Meta(_) => panic!("a bad presence flag must not decode"),
        PayloadOutcome::Unknown => panic!("the discriminant is known"),
    }
}

#[test]
fn inconsistent_inner_length_is_malformed() {
    // The hash length prefix claims more bytes than the payload holds.
    let payload = vec![
        0, 0, 0, 0, // version
        0, 0, 0, 1, // ledger_seq
        0, 0, 0, 0, 0, 0, 0, 2, // close_time
        0, 0, 0, 99, // hash length, inconsistent
        1, 2, 3,
    ];
    match decode_payload(&payload) {
        PayloadOutcome::Malformed => {}
        other => panic!("expected a malformed payload, got {:?}", other),
    }
}

#[test]
fn decode_advances_and_preserves_trailing_bytes() {
    let a = sample_v0();
    let b = sample_v1(None);
    let mut buf = encode_frame(&a);
    let first_len = buf.len();
    buf.extend_from_slice(&encode_frame(&b));
    match decode_frame(&buf, 0, FrameLimit::Unbounded) {
        FrameResult::Decoded { meta, next } => {
            assert_eq!(meta, a);
            assert_eq!(next, first_len);
            match decode_frame(&buf, next, FrameLimit::Unbounded) {
                FrameResult::Decoded { meta, next } => {
                    assert_eq!(meta, b);
                    assert_eq!(next, buf.len());
                }
                other => panic!("expected the second frame, got {:?}", other),
            }
        }
        other => panic!("expected the first frame, got {:?}", other),
    }
}
