use ledger_frames::codec::{
    encode_frame, DecodeError, FrameLimit, LedgerCloseMeta, MetaV0, TxResult,
};
use ledger_frames::pipeline::{Diagnostic, Event, Phase, Pipeline};
use ledger_frames::stream::pump;

fn meta(seq: u32) -> LedgerCloseMeta {
    LedgerCloseMeta::V0(MetaV0 {
        ledger_seq: seq,
        close_time: 1000 + seq as u64,
        ledger_hash: vec![seq as u8],
        tx_results: vec![TxResult {
            tx_hash: vec![1, 2],
            result_code: seq,
        }],
    })
}

fn corrupt_frame() -> Vec<u8> {
    // A well-framed payload whose version discriminant is unknown.
    let payload = vec![0, 0, 0, 9, 1, 2, 3];
    let mut buf = (payload.len() as u32).to_be_bytes().to_vec();
    buf.extend_from_slice(&payload);
    buf
}

fn ledger_seq_of(line: &str) -> u64 {
    let v: serde_json::Value = serde_json::from_str(line).expect("output lines must be JSON");
    v["value"]["ledger_seq"].as_u64().expect("a ledger sequence")
}

#[test]
fn valid_stream_emits_one_line_per_record_in_order() {
    let mut p = Pipeline::new(FrameLimit::Unbounded);
    p.step(Event::ProcessLive);
    let mut bytes = Vec::new();
    for seq in [3u32, 1, 2] {
        bytes.extend_from_slice(&encode_frame(&meta(seq)));
    }
    let out = p.step(Event::Bytes(bytes));
    assert_eq!(out.lines.len(), 3);
    assert_eq!(out.diags.len(), 0);
    let seqs: Vec<u64> = out.lines.iter().map(|l| ledger_seq_of(l)).collect();
    assert_eq!(seqs, vec![3, 1, 2]);
    let out = p.step(Event::Eof);
    assert_eq!(out.lines.len(), 0);
    assert_eq!(out.diags.len(), 0);
    let out = p.step(Event::Exited(0));
    assert_eq!(out.done, Some(0));
}

#[test]
fn unknown_variant_is_skipped_once_and_decoding_resumes() {
    let mut p = Pipeline::new(FrameLimit::Unbounded);
    p.step(Event::ProcessLive);
    let mut bytes = encode_frame(&meta(10));
    bytes.extend_from_slice(&corrupt_frame());
    bytes.extend_from_slice(&encode_frame(&meta(11)));
    let out = p.step(Event::Bytes(bytes));
    assert_eq!(out.lines.len(), 2);
    let seqs: Vec<u64> = out.lines.iter().map(|l| ledger_seq_of(l)).collect();
    assert_eq!(seqs, vec![10, 11]);
    assert_eq!(out.diags, vec![Diagnostic::Skipped(DecodeError::UnknownVariant)]);
}

#[test]
fn truncated_frame_yields_no_record_and_one_diagnostic() {
    let mut p = Pipeline::new(FrameLimit::Unbounded);
    p.step(Event::ProcessLive);
    let mut bytes = encode_frame(&meta(5));
    bytes.truncate(bytes.len() - 3);
    let out = p.step(Event::Bytes(bytes));
    assert_eq!(out.lines.len(), 0);
    assert_eq!(out.diags.len(), 0);
    let out = p.step(Event::Eof);
    assert_eq!(out.lines.len(), 0);
    assert_eq!(out.diags, vec![Diagnostic::TruncatedStream]);
    assert_eq!(p.phase, Phase::Draining);
}

#[test]
fn clean_eof_reports_nothing() {
    let mut p = Pipeline::new(FrameLimit::Unbounded);
    p.step(Event::ProcessLive);
    let out = p.step(Event::Bytes(encode_frame(&meta(1))));
    assert_eq!(out.lines.len(), 1);
    let out = p.step(Event::Eof);
    assert_eq!(out.diags.len(), 0);
}

#[test]
fn nonzero_exit_is_surfaced_after_n_records() {
    let mut p = Pipeline::new(FrameLimit::Unbounded);
    p.step(Event::ProcessLive);
    let mut total_lines = 0;
    for seq in 0..4u32 {
        let out = p.step(Event::Bytes(encode_frame(&meta(seq))));
        total_lines += out.lines.len();
    }
    assert_eq!(total_lines, 4);
    p.step(Event::Eof);
    let out = p.step(Event::Exited(3));
    assert_eq!(out.done, Some(3));
    assert_eq!(p.exit_status, Some(3));
    assert_eq!(p.phase, Phase::Terminated);
}

#[test]
fn frame_split_across_chunks_decodes_after_second_chunk() {
    let mut p = Pipeline::new(FrameLimit::Unbounded);
    p.step(Event::ProcessLive);
    let bytes = encode_frame(&meta(9));
    let (first, second) = bytes.split_at(6);
    let out = p.step(Event::Bytes(first.to_vec()));
    assert_eq!(out.lines.len(), 0);
    let out = p.step(Event::Bytes(second.to_vec()));
    assert_eq!(out.lines.len(), 1);
    assert_eq!(ledger_seq_of(&out.lines[0]), 9);
}

#[test]
fn oversized_frame_is_skipped_with_one_diagnostic() {
    let mut p = Pipeline::new(FrameLimit::MaxLen(8));
    p.step(Event::ProcessLive);
    let out = p.step(Event::Bytes(encode_frame(&meta(1))));
    assert_eq!(out.lines.len(), 0);
    assert_eq!(out.diags, vec![Diagnostic::Skipped(DecodeError::FrameTooLarge)]);
}

#[test]
fn unconsumed_diagnostics_never_gate_records() {
    // The machine hands diagnostics back as data; records keep flowing
    // even when no diagnostic is ever read.
    let mut p = Pipeline::new(FrameLimit::Unbounded);
    p.step(Event::ProcessLive);
    let mut emitted = 0;
    for seq in 0..3u32 {
        let _ignored = p.step(Event::Bytes(corrupt_frame()));
        let out = p.step(Event::Bytes(encode_frame(&meta(seq))));
        emitted += out.lines.len();
    }
    assert_eq!(emitted, 3);
}

#[test]
fn events_out_of_phase_are_ignored() {
    let mut p = Pipeline::new(FrameLimit::Unbounded);
    let out = p.step(Event::Bytes(encode_frame(&meta(1))));
    assert_eq!(out.lines.len(), 0);
    let out = p.step(Event::Exited(1));
    assert_eq!(out.done, None);
    assert_eq!(p.phase, Phase::Starting);
}

#[test]
fn pump_reports_records_errors_and_resume_position() {
    let mut buf = encode_frame(&meta(1));
    buf.extend_from_slice(&corrupt_frame());
    buf.extend_from_slice(&encode_frame(&meta(2)));
    let complete = buf.len();
    buf.extend_from_slice(&[0, 0, 0, 50, 1, 2]); // a partial trailing frame
    let r = pump(&buf, 0, FrameLimit::Unbounded);
    assert_eq!(r.records.len(), 2);
    assert_eq!(r.records[0], meta(1));
    assert_eq!(r.records[1], meta(2));
    assert_eq!(r.errors, vec![DecodeError::UnknownVariant]);
    assert_eq!(r.new_pos, complete);
}
