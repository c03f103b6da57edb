//! Repeated frame decoding over a buffered stream.
//!
//! The stream functions give the meaning of draining a buffer from a
//! position: every complete frame in turn is either decoded to a record or
//! skipped with exactly one diagnostic, until the next frame is not fully
//! buffered. [`pump`] is the verified loop that computes exactly that.

use vstd::prelude::*;

verus! {

use crate::codec::{
    DecodeError,
    FrameLimit,
    FrameResult,
    FrameStep,
    LedgerCloseMeta,
    LedgerCloseMetaView,
    decode_frame,
    fits_limit,
    lemma_frame_step_advances,
    lemma_frame_step_encoded,
    lemma_subrange_concat,
    meta_encodable,
    spec_enc_payload,
    spec_frame_bytes,
    spec_frame_step,
};

/// The records decoded from `b` at `pos` onwards, in arrival order, as far
/// as frames are complete; skipped frames contribute nothing.
pub open spec fn stream_records(b: Seq<u8>, pos: int, limit: FrameLimit) -> Seq<
    LedgerCloseMetaView,
>
    decreases b.len() - pos,
{
    if 0 <= pos <= b.len() {
        match spec_frame_step(b, pos, limit) {
            FrameStep::NeedMore => Seq::empty(),
            FrameStep::Decoded { meta, next } => if pos < next <= b.len() {
                seq![meta] + stream_records(b, next, limit)
            } else {
                seq![meta]
            },
            FrameStep::Failed { err, next } => if pos < next <= b.len() {
                stream_records(b, next, limit)
            } else {
                Seq::empty()
            },
        }
    } else {
        Seq::empty()
    }
}

/// The per-record failures met while draining `b` from `pos`, one per
/// skipped frame, in arrival order.
pub open spec fn stream_errors(b: Seq<u8>, pos: int, limit: FrameLimit) -> Seq<DecodeError>
    decreases b.len() - pos,
{
    if 0 <= pos <= b.len() {
        match spec_frame_step(b, pos, limit) {
            FrameStep::NeedMore => Seq::empty(),
            FrameStep::Decoded { meta, next } => if pos < next <= b.len() {
                stream_errors(b, next, limit)
            } else {
                Seq::empty()
            },
            FrameStep::Failed { err, next } => if pos < next <= b.len() {
                seq![err] + stream_errors(b, next, limit)
            } else {
                seq![err]
            },
        }
    } else {
        Seq::empty()
    }
}

/// The position at which draining `b` from `pos` stops: the start of the
/// first frame that is not fully buffered.
pub open spec fn stream_end(b: Seq<u8>, pos: int, limit: FrameLimit) -> int
    decreases b.len() - pos,
{
    if 0 <= pos <= b.len() {
        match spec_frame_step(b, pos, limit) {
            FrameStep::NeedMore => pos,
            FrameStep::Decoded { meta, next } => if pos < next <= b.len() {
                stream_end(b, next, limit)
            } else {
                next
            },
            FrameStep::Failed { err, next } => if pos < next <= b.len() {
                stream_end(b, next, limit)
            } else {
                next
            },
        }
    } else {
        pos
    }
}

/// One unfolding of the stream functions at a position, with the guard
/// discharged: a decoded frame contributes its record, a failed frame
/// contributes exactly one diagnostic, and draining continues at the
/// position the frame attempt names.
pub proof fn lemma_stream_unfold(b: Seq<u8>, pos: int, limit: FrameLimit)
    requires
        0 <= pos <= b.len(),
    ensures
        match spec_frame_step(b, pos, limit) {
            FrameStep::NeedMore => stream_records(b, pos, limit) == Seq::<
                LedgerCloseMetaView,
            >::empty() && stream_errors(b, pos, limit) == Seq::<DecodeError>::empty()
                && stream_end(b, pos, limit) == pos,
            FrameStep::Decoded { meta, next } => stream_records(b, pos, limit) == seq![meta]
                + stream_records(b, next, limit) && stream_errors(b, pos, limit) == stream_errors(
                b,
                next,
                limit,
            ) && stream_end(b, pos, limit) == stream_end(b, next, limit) && pos < next <= b.len(),
            FrameStep::Failed { err, next } => stream_records(b, pos, limit) == stream_records(
                b,
                next,
                limit,
            ) && stream_errors(b, pos, limit) == seq![err] + stream_errors(b, next, limit)
                && stream_end(b, pos, limit) == stream_end(b, next, limit) && pos < next
                <= b.len(),
        },
{
    lemma_frame_step_advances(b, pos, limit);
}

/// The wire bytes of a run of records, each as one frame, back to back
/// with no delimiter between frames.
pub open spec fn frames_bytes(ms: Seq<LedgerCloseMetaView>) -> Seq<u8>
    decreases ms.len(),
{
    if ms.len() == 0 {
        Seq::empty()
    } else {
        spec_frame_bytes(spec_enc_payload(ms[0])) + frames_bytes(ms.drop_first())
    }
}

/// Every record of the run fits the wire format and the configured limit.
pub open spec fn frames_encodable(ms: Seq<LedgerCloseMetaView>, limit: FrameLimit) -> bool {
    forall|k: int|
        0 <= k < ms.len() ==> meta_encodable(#[trigger] ms[k]) && fits_limit(
            limit,
            spec_enc_payload(ms[k]).len(),
        )
}

/// For every valid frame sequence: draining a buffer that holds exactly
/// those frames yields exactly those records, one per frame, in arrival
/// order, with no diagnostic, and consumes the buffer whole.
pub proof fn lemma_stream_of_valid_frames(
    b: Seq<u8>,
    pos: int,
    limit: FrameLimit,
    ms: Seq<LedgerCloseMetaView>,
)
    requires
        0 <= pos <= b.len(),
        frames_encodable(ms, limit),
        b.subrange(pos, b.len() as int) == frames_bytes(ms),
    ensures
        stream_records(b, pos, limit) == ms,
        stream_errors(b, pos, limit) == Seq::<DecodeError>::empty(),
        stream_end(b, pos, limit) == b.len(),
    decreases ms.len(),
{
    lemma_stream_unfold(b, pos, limit);
    if ms.len() == 0 {
        assert(b.len() - pos == 0);
        assert(ms =~= Seq::<LedgerCloseMetaView>::empty());
    } else {
        let m0 = ms[0];
        let f0 = spec_frame_bytes(spec_enc_payload(m0));
        let rest = frames_bytes(ms.drop_first());
        assert(f0.len() + rest.len() == b.len() - pos);
        lemma_subrange_concat(b, pos, f0, rest);
        lemma_frame_step_encoded(b, pos, limit, m0);
        lemma_stream_unfold(b, pos, limit);
        assert(forall|k: int|
            0 <= k < ms.drop_first().len() ==> #[trigger] ms.drop_first()[k] == ms[k + 1]);
        lemma_stream_of_valid_frames(b, pos + f0.len(), limit, ms.drop_first());
        assert(seq![m0] + ms.drop_first() =~= ms);
        assert(Seq::<DecodeError>::empty() + Seq::<DecodeError>::empty() =~= Seq::<
            DecodeError,
        >::empty());
    }
}

/// Decoding a frame reads only the bytes it consumes. Any buffer that still
/// holds those bytes unchanged at the same position — in particular the
/// same unmodified, fully buffered input, re-run any number of times —
/// yields the same decoded record and the same cursor advancement.
pub proof fn lemma_decode_stable(b1: Seq<u8>, b2: Seq<u8>, pos: int, limit: FrameLimit)
    requires
        0 <= pos <= b1.len(),
        pos <= b2.len(),
        spec_frame_step(b1, pos, limit) is Decoded,
        spec_frame_step(b1, pos, limit)->Decoded_next <= b2.len(),
        b2.subrange(pos, spec_frame_step(b1, pos, limit)->Decoded_next) == b1.subrange(
            pos,
            spec_frame_step(b1, pos, limit)->Decoded_next,
        ),
    ensures
        spec_frame_step(b2, pos, limit) == spec_frame_step(b1, pos, limit),
{
    lemma_frame_step_advances(b1, pos, limit);
    let next = spec_frame_step(b1, pos, limit)->Decoded_next;
    assert forall|k: int| pos <= k < next implies b2[k] == b1[k] by {
        assert(b2.subrange(pos, next)[k - pos] == b1.subrange(pos, next)[k - pos]);
    }
    assert(crate::wire::be32_at(b2, pos) == crate::wire::be32_at(b1, pos));
    let len = crate::wire::be32_at(b1, pos) as int;
    assert(next == pos + 4 + len);
    assert(b2.subrange(pos + 4, pos + 4 + len) =~= b1.subrange(pos + 4, pos + 4 + len));
}

/// A frame that fails to decode is skipped with exactly one diagnostic,
/// and decoding resumes at the resynchronization position: the records of
/// the stream are exactly the records decoded from the subsequent frames.
pub proof fn lemma_skip_resumes(b: Seq<u8>, pos: int, limit: FrameLimit)
    requires
        0 <= pos <= b.len(),
        spec_frame_step(b, pos, limit) is Failed,
    ensures
        stream_records(b, pos, limit) == stream_records(
            b,
            spec_frame_step(b, pos, limit)->Failed_next,
            limit,
        ),
        stream_errors(b, pos, limit) == seq![spec_frame_step(b, pos, limit)->Failed_err]
            + stream_errors(b, spec_frame_step(b, pos, limit)->Failed_next, limit),
{
    lemma_stream_unfold(b, pos, limit);
}

/// Everything [`pump`] produced from one drain of the buffer.
pub struct PumpResult {
    /// The records decoded, in arrival order.
    pub records: Vec<LedgerCloseMeta>,
    /// One entry per skipped frame, in arrival order.
    pub errors: Vec<DecodeError>,
    /// Where draining stopped; the bytes from here on await more input.
    pub new_pos: usize,
}

/// The models of a run of decoded records.
pub open spec fn metas_view(s: Seq<LedgerCloseMeta>) -> Seq<LedgerCloseMetaView> {
    s.map_values(|m: LedgerCloseMeta| m@)
}

/// Drains `buf` from `pos`: decodes frames in arrival order until one is
/// not fully buffered, collecting the decoded records and one diagnostic
/// per skipped frame, and reports where the next read must resume.
pub fn pump(buf: &Vec<u8>, pos: usize, limit: FrameLimit) -> (r: PumpResult)
    requires
        pos <= buf@.len(),
    ensures
        metas_view(r.records@) == stream_records(buf@, pos as int, limit),
        r.errors@ == stream_errors(buf@, pos as int, limit),
        r.new_pos as int == stream_end(buf@, pos as int, limit),
        pos <= r.new_pos <= buf@.len(),
        spec_frame_step(buf@, r.new_pos as int, limit) is NeedMore,
{
    let mut records: Vec<LedgerCloseMeta> = Vec::new();
    let mut errors: Vec<DecodeError> = Vec::new();
    let mut cur: usize = pos;
    let mut done = false;
    while !done
        invariant
            pos <= cur <= buf@.len(),
            stream_records(buf@, pos as int, limit) == metas_view(records@) + stream_records(
                buf@,
                cur as int,
                limit,
            ),
            stream_errors(buf@, pos as int, limit) == errors@ + stream_errors(
                buf@,
                cur as int,
                limit,
            ),
            stream_end(buf@, pos as int, limit) == stream_end(buf@, cur as int, limit),
            done ==> spec_frame_step(buf@, cur as int, limit) is NeedMore,
        decreases buf@.len() - cur + (if done {
            0int
        } else {
            1int
        }),
    {
        proof {
            lemma_stream_unfold(buf@, cur as int, limit);
        }
        match decode_frame(buf, cur, limit) {
            FrameResult::NeedMoreInput => {
                done = true;
            },
            FrameResult::Decoded { meta, next } => {
                proof {
                    assert(metas_view(records@.push(meta)) =~= metas_view(records@)
                        + seq![meta@]);
                    assert((metas_view(records@) + seq![meta@]) + stream_records(
                        buf@,
                        next as int,
                        limit,
                    ) =~= metas_view(records@) + (seq![meta@] + stream_records(
                        buf@,
                        next as int,
                        limit,
                    )));
                }
                records.push(meta);
                cur = next;
            },
            FrameResult::Failed { err, next } => {
                proof {
                    assert((errors@ + seq![err]) + stream_errors(buf@, next as int, limit)
                        =~= errors@ + (seq![err] + stream_errors(buf@, next as int, limit)));
                    assert(errors@.push(err) =~= errors@ + seq![err]);
                }
                errors.push(err);
                cur = next;
            },
        }
    }
    proof {
        assert(metas_view(records@) + stream_records(buf@, cur as int, limit) =~= metas_view(
            records@,
        ));
        assert(errors@ + stream_errors(buf@, cur as int, limit) =~= errors@);
    }
    PumpResult { records, errors, new_pos: cur }
}

} // verus!
