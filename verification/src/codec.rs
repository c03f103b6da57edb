//! Binary frame codec.
//!
//! A frame is a 4-byte big-endian length prefix followed by exactly that
//! many payload bytes. The payload is a versioned, tagged union: a 4-byte
//! big-endian version discriminant selects the variant, whose fields follow
//! in a fixed order. Numeric fields are fixed-width big-endian, opaque data
//! is length-prefixed, optional fields carry a one-byte presence flag, and
//! the payload must be consumed exactly.
//!
//! Decoding one frame from a position of a buffered stream either needs
//! more input (the prefix or payload is not fully buffered yet), succeeds
//! and advances past the consumed bytes, or fails for that one record and
//! names the resynchronization position at which decoding resumes: just
//! past the declared frame for a payload-level failure (the length prefix
//! is still trusted there), or past everything buffered when the declared
//! length exceeds the configured limit.

use vstd::prelude::*;

verus! {

use crate::wire::{
    be32_at,
    be32_bytes,
    be64_at,
    be64_bytes,
    lemma_be32_roundtrip,
    lemma_be64_roundtrip,
    push_be32,
    push_be64,
    read_be32,
    read_be64,
};
use vstd::slice::{slice_subrange, slice_to_vec};

/// One applied-transaction result inside a ledger-close record.
#[derive(Clone, Debug, PartialEq, Eq)]
pub struct TxResult {
    pub tx_hash: Vec<u8>,
    pub result_code: u32,
}

/// Mathematical model of a [`TxResult`].
pub struct TxResultView {
    pub tx_hash: Seq<u8>,
    pub result_code: u32,
}

impl View for TxResult {
    type V = TxResultView;

    open spec fn view(&self) -> TxResultView {
        TxResultView { tx_hash: self.tx_hash@, result_code: self.result_code }
    }
}

/// Ledger header fields and applied-transaction results carried by every
/// known version of a ledger-close record.
#[derive(Clone, Debug, PartialEq, Eq)]
pub struct MetaV0 {
    pub ledger_seq: u32,
    pub close_time: u64,
    pub ledger_hash: Vec<u8>,
    pub tx_results: Vec<TxResult>,
}

/// Mathematical model of a [`MetaV0`].
pub struct MetaV0View {
    pub ledger_seq: u32,
    pub close_time: u64,
    pub ledger_hash: Seq<u8>,
    pub tx_results: Seq<TxResultView>,
}

impl View for MetaV0 {
    type V = MetaV0View;

    open spec fn view(&self) -> MetaV0View {
        MetaV0View {
            ledger_seq: self.ledger_seq,
            close_time: self.close_time,
            ledger_hash: self.ledger_hash@,
            tx_results: self.tx_results@.map_values(|t: TxResult| t@),
        }
    }
}

/// The second version of a ledger-close record: the common fields plus a
/// total-coins figure and an optional base fee.
#[derive(Clone, Debug, PartialEq, Eq)]
pub struct MetaV1 {
    pub base: MetaV0,
    pub total_coins: u64,
    pub base_fee: Option<u32>,
}

/// Mathematical model of a [`MetaV1`].
pub struct MetaV1View {
    pub base: MetaV0View,
    pub total_coins: u64,
    pub base_fee: Option<u32>,
}

impl View for MetaV1 {
    type V = MetaV1View;

    open spec fn view(&self) -> MetaV1View {
        MetaV1View { base: self.base@, total_coins: self.total_coins, base_fee: self.base_fee }
    }
}

/// A decoded ledger-close record: the tagged union carried by one frame,
/// with the version discriminant selecting the active variant.
#[derive(Clone, Debug, PartialEq, Eq)]
pub enum LedgerCloseMeta {
    V0(MetaV0),
    V1(MetaV1),
}

/// Mathematical model of a [`LedgerCloseMeta`].
pub enum LedgerCloseMetaView {
    V0(MetaV0View),
    V1(MetaV1View),
}

impl View for LedgerCloseMeta {
    type V = LedgerCloseMetaView;

    open spec fn view(&self) -> LedgerCloseMetaView {
        match self {
            LedgerCloseMeta::V0(m) => LedgerCloseMetaView::V0(m@),
            LedgerCloseMeta::V1(m) => LedgerCloseMetaView::V1(m@),
        }
    }
}

/// Why one record was skipped.
#[derive(Clone, Copy, PartialEq, Eq, Structural, Debug)]
pub enum DecodeError {
    FrameTooLarge,
    UnknownVariant,
    MalformedPayload,
}

/// The configured bound on a frame's declared payload length.
#[derive(Clone, Copy)]
pub enum FrameLimit {
    Unbounded,
    MaxLen(u32),
}

/// Whether a declared payload length is within the configured limit.
pub open spec fn fits_limit(limit: FrameLimit, len: nat) -> bool {
    match limit {
        FrameLimit::Unbounded => true,
        FrameLimit::MaxLen(m) => len <= m as nat,
    }
}

/// Decodes one transaction result at position `i` of payload `p`:
/// a length-prefixed hash, then a 4-byte result code.
pub open spec fn spec_decode_tx(p: Seq<u8>, i: int) -> Option<(TxResultView, int)> {
    if 0 <= i && i + 4 <= p.len() {
        let hl = be32_at(p, i) as int;
        if i + 4 + hl + 4 <= p.len() {
            Some(
                (
                    TxResultView {
                        tx_hash: p.subrange(i + 4, i + 4 + hl),
                        result_code: be32_at(p, i + 4 + hl) as u32,
                    },
                    i + 8 + hl,
                ),
            )
        } else {
            None
        }
    } else {
        None
    }
}

/// Decodes `count` transaction results in sequence starting at position `i`.
pub open spec fn spec_decode_txs(p: Seq<u8>, i: int, count: nat) -> Option<
    (Seq<TxResultView>, int),
>
    decreases count,
{
    if count == 0 {
        Some((Seq::empty(), i))
    } else {
        match spec_decode_tx(p, i) {
            Some((t, j)) => match spec_decode_txs(p, j, (count - 1) as nat) {
                Some((ts, end)) => Some((seq![t] + ts, end)),
                None => None,
            },
            None => None,
        }
    }
}

/// Decodes the fields common to all versions, in fixed order: ledger
/// sequence, close time, length-prefixed ledger hash, then a count-prefixed
/// array of transaction results.
pub open spec fn spec_decode_v0_fields(p: Seq<u8>, i: int) -> Option<(MetaV0View, int)> {
    if 0 <= i && i + 16 <= p.len() {
        let hl = be32_at(p, i + 12) as int;
        if i + 16 + hl + 4 <= p.len() {
            match spec_decode_txs(p, i + 20 + hl, be32_at(p, i + 16 + hl)) {
                Some((ts, end)) => Some(
                    (
                        MetaV0View {
                            ledger_seq: be32_at(p, i) as u32,
                            close_time: be64_at(p, i + 4) as u64,
                            ledger_hash: p.subrange(i + 16, i + 16 + hl),
                            tx_results: ts,
                        },
                        end,
                    ),
                ),
                None => None,
            }
        } else {
            None
        }
    } else {
        None
    }
}

/// Decodes the optional base fee: a one-byte presence flag, then a 4-byte
/// value when the flag is one. Any other flag value is malformed.
pub open spec fn spec_decode_fee(p: Seq<u8>, i: int) -> Option<(Option<u32>, int)> {
    if 0 <= i && i + 1 <= p.len() {
        if p[i] == 0u8 {
            Some((None, i + 1))
        } else if p[i] == 1u8 && i + 5 <= p.len() {
            Some((Some(be32_at(p, i + 1) as u32), i + 5))
        } else {
            None
        }
    } else {
        None
    }
}

/// Spec-level outcome of decoding one complete frame payload.
pub enum PayloadStep {
    Meta(LedgerCloseMetaView),
    Unknown,
    Malformed,
}

/// Decodes one complete frame payload: the version discriminant selects the
/// variant, the variant's fields follow in fixed order, and the payload
/// must be consumed exactly. An unknown discriminant is distinguished from
/// a truncated or inconsistent body.
pub open spec fn spec_decode_payload(p: Seq<u8>) -> PayloadStep {
    if p.len() < 4 {
        PayloadStep::Malformed
    } else if be32_at(p, 0) == 0 {
        match spec_decode_v0_fields(p, 4) {
            Some((m, end)) => if end == p.len() {
                PayloadStep::Meta(LedgerCloseMetaView::V0(m))
            } else {
                PayloadStep::Malformed
            },
            None => PayloadStep::Malformed,
        }
    } else if be32_at(p, 0) == 1 {
        match spec_decode_v0_fields(p, 4) {
            Some((m, j)) => if j + 8 <= p.len() {
                match spec_decode_fee(p, j + 8) {
                    Some((fee, end)) => if end == p.len() {
                        PayloadStep::Meta(
                            LedgerCloseMetaView::V1(
                                MetaV1View {
                                    base: m,
                                    total_coins: be64_at(p, j) as u64,
                                    base_fee: fee,
                                },
                            ),
                        )
                    } else {
                        PayloadStep::Malformed
                    },
                    None => PayloadStep::Malformed,
                }
            } else {
                PayloadStep::Malformed
            },
            None => PayloadStep::Malformed,
        }
    } else {
        PayloadStep::Unknown
    }
}

/// Spec-level outcome of one attempt to decode a frame at a position of
/// the buffered stream.
pub enum FrameStep {
    NeedMore,
    Decoded { meta: LedgerCloseMetaView, next: int },
    Failed { err: DecodeError, next: int },
}

/// One attempt to decode a frame at position `pos` of buffer `b`: needs
/// more input while the prefix or the declared payload is not fully
/// buffered; fails with the resynchronization position otherwise on a
/// too-large declared length or a bad payload; else yields the record and
/// the position just past the consumed bytes.
pub open spec fn spec_frame_step(b: Seq<u8>, pos: int, limit: FrameLimit) -> FrameStep
    recommends
        0 <= pos <= b.len(),
{
    if pos + 4 > b.len() {
        FrameStep::NeedMore
    } else {
        let len = be32_at(b, pos) as int;
        if !fits_limit(limit, be32_at(b, pos)) {
            FrameStep::Failed { err: DecodeError::FrameTooLarge, next: b.len() as int }
        } else if pos + 4 + len > b.len() {
            FrameStep::NeedMore
        } else {
            match spec_decode_payload(b.subrange(pos + 4, pos + 4 + len)) {
                PayloadStep::Meta(m) => FrameStep::Decoded { meta: m, next: pos + 4 + len },
                PayloadStep::Unknown => FrameStep::Failed {
                    err: DecodeError::UnknownVariant,
                    next: pos + 4 + len,
                },
                PayloadStep::Malformed => FrameStep::Failed {
                    err: DecodeError::MalformedPayload,
                    next: pos + 4 + len,
                },
            }
        }
    }
}

/// A frame attempt that consumes or skips bytes always lands strictly
/// past `pos` and within the buffer.
pub proof fn lemma_frame_step_advances(b: Seq<u8>, pos: int, limit: FrameLimit)
    requires
        0 <= pos <= b.len(),
    ensures
        match spec_frame_step(b, pos, limit) {
            FrameStep::NeedMore => true,
            FrameStep::Decoded { meta, next } => pos + 4 <= next <= b.len(),
            FrameStep::Failed { err, next } => pos + 4 <= next <= b.len(),
        },
{
}

/// Exec-level outcome of decoding one transaction result.
fn decode_tx(p: &[u8], i: usize) -> (r: Option<(TxResult, usize)>)
    requires
        i <= p@.len(),
    ensures
        match r {
            Some(tj) => spec_decode_tx(p@, i as int) == Some((tj.0@, tj.1 as int)) && i < tj.1
                <= p@.len(),
            None => spec_decode_tx(p@, i as int) is None,
        },
{
    if p.len() - i < 4 {
        return None;
    }
    let hl32 = read_be32(p, i);
    let hl = hl32 as usize;
    if hl > p.len() - i - 4 || p.len() - i - 4 - hl < 4 {
        return None;
    }
    let hash_slice = slice_subrange(p, i + 4, i + 4 + hl);
    let tx_hash = slice_to_vec(hash_slice);
    let result_code = read_be32(p, i + 4 + hl);
    Some((TxResult { tx_hash, result_code }, i + 8 + hl))
}

/// Decodes a count-prefixed run of transaction results.
fn decode_txs(p: &[u8], i: usize, count: u32) -> (r: Option<(Vec<TxResult>, usize)>)
    requires
        i <= p@.len(),
    ensures
        match r {
            Some(tj) => spec_decode_txs(p@, i as int, count as nat) == Some(
                (tj.0@.map_values(|t: TxResult| t@), tj.1 as int),
            ) && i <= tj.1 <= p@.len(),
            None => spec_decode_txs(p@, i as int, count as nat) is None,
        },
{
    let mut txs: Vec<TxResult> = Vec::new();
    let mut cur: usize = i;
    let mut k: u32 = 0;
    while k < count
        invariant
            i <= cur <= p@.len(),
            k <= count,
            txs@.len() == k as nat,
            spec_decode_txs(p@, i as int, count as nat) == (match spec_decode_txs(
                p@,
                cur as int,
                (count - k) as nat,
            ) {
                Some((ts, end)) => Some((txs@.map_values(|t: TxResult| t@) + ts, end)),
                None => None::<(Seq<TxResultView>, int)>,
            }),
        decreases count - k,
    {
        match decode_tx(p, cur) {
            Some((t, j)) => {
                proof {
                    let ghost pre = txs@.map_values(|t: TxResult| t@);
                    assert(spec_decode_txs(p@, cur as int, (count - k) as nat) == (
                    match spec_decode_txs(p@, j as int, (count - k - 1) as nat) {
                        Some((ts, end)) => Some((seq![t@] + ts, end)),
                        None => None::<(Seq<TxResultView>, int)>,
                    }));
                    assert(txs@.push(t).map_values(|t: TxResult| t@) =~= pre + seq![t@]);
                    match spec_decode_txs(p@, j as int, (count - k - 1) as nat) {
                        Some((ts, end)) => {
                            assert(pre + (seq![t@] + ts) =~= (pre + seq![t@]) + ts);
                        },
                        None => {},
                    }
                }
                txs.push(t);
                cur = j;
                k = k + 1;
            },
            None => {
                return None;
            },
        }
    }
    Some((txs, cur))
}

/// Decodes the fields common to all versions at position `i` of the payload.
fn decode_v0_fields(p: &[u8], i: usize) -> (r: Option<(MetaV0, usize)>)
    requires
        i <= p@.len(),
    ensures
        match r {
            Some(mj) => spec_decode_v0_fields(p@, i as int) == Some((mj.0@, mj.1 as int)) && i
                <= mj.1 <= p@.len(),
            None => spec_decode_v0_fields(p@, i as int) is None,
        },
{
    if p.len() - i < 16 {
        return None;
    }
    let ledger_seq = read_be32(p, i);
    let close_time = read_be64(p, i + 4);
    let hl32 = read_be32(p, i + 12);
    let hl = hl32 as usize;
    if hl > p.len() - i - 16 || p.len() - i - 16 - hl < 4 {
        return None;
    }
    let hash_slice = slice_subrange(p, i + 16, i + 16 + hl);
    let ledger_hash = slice_to_vec(hash_slice);
    let count = read_be32(p, i + 16 + hl);
    match decode_txs(p, i + 20 + hl, count) {
        Some((tx_results, end)) => Some(
            (MetaV0 { ledger_seq, close_time, ledger_hash, tx_results }, end),
        ),
        None => None,
    }
}

/// Decodes the optional base fee at position `i` of the payload.
fn decode_fee(p: &[u8], i: usize) -> (r: Option<(Option<u32>, usize)>)
    requires
        i <= p@.len(),
    ensures
        match r {
            Some(fj) => spec_decode_fee(p@, i as int) == Some((fj.0, fj.1 as int)) && i < fj.1
                <= p@.len(),
            None => spec_decode_fee(p@, i as int) is None,
        },
{
    if p.len() - i < 1 {
        return None;
    }
    let flag = p[i];
    if flag == 0 {
        Some((None, i + 1))
    } else if flag == 1 && p.len() - i - 1 >= 4 {
        let fee = read_be32(p, i + 1);
        Some((Some(fee), i + 5))
    } else {
        None
    }
}

/// Exec-level outcome of decoding one complete frame payload.
#[derive(Debug)]
pub enum PayloadOutcome {
    Meta(LedgerCloseMeta),
    Unknown,
    Malformed,
}

/// Decodes one complete frame payload against the versioned schema.
pub fn decode_payload(p: &[u8]) -> (r: PayloadOutcome)
    ensures
        match r {
            PayloadOutcome::Meta(m) => spec_decode_payload(p@) == PayloadStep::Meta(m@),
            PayloadOutcome::Unknown => spec_decode_payload(p@) is Unknown,
            PayloadOutcome::Malformed => spec_decode_payload(p@) is Malformed,
        },
{
    if p.len() < 4 {
        return PayloadOutcome::Malformed;
    }
    let version = read_be32(p, 0);
    if version == 0 {
        match decode_v0_fields(p, 4) {
            Some((m, end)) => {
                if end == p.len() {
                    PayloadOutcome::Meta(LedgerCloseMeta::V0(m))
                } else {
                    PayloadOutcome::Malformed
                }
            },
            None => PayloadOutcome::Malformed,
        }
    } else if version == 1 {
        match decode_v0_fields(p, 4) {
            Some((m, j)) => {
                if p.len() - j < 8 {
                    return PayloadOutcome::Malformed;
                }
                let total_coins = read_be64(p, j);
                match decode_fee(p, j + 8) {
                    Some((base_fee, end)) => {
                        if end == p.len() {
                            PayloadOutcome::Meta(
                                LedgerCloseMeta::V1(MetaV1 { base: m, total_coins, base_fee }),
                            )
                        } else {
                            PayloadOutcome::Malformed
                        }
                    },
                    None => PayloadOutcome::Malformed,
                }
            },
            None => PayloadOutcome::Malformed,
        }
    } else {
        PayloadOutcome::Unknown
    }
}

/// Exec-level outcome of one attempt to decode a frame from the buffer.
#[derive(Debug)]
pub enum FrameResult {
    NeedMoreInput,
    Decoded { meta: LedgerCloseMeta, next: usize },
    Failed { err: DecodeError, next: usize },
}

/// Attempts to decode exactly one frame at position `pos` of `buf`.
///
/// Needs more input while the length prefix or the declared payload is not
/// fully buffered; fails with `FrameTooLarge` when the declared length
/// exceeds `limit`, and with `UnknownVariant` or `MalformedPayload` when
/// the fully buffered payload does not decode; on success or failure the
/// returned position advances exactly past the consumed or skipped bytes,
/// and the remaining bytes are untouched.
pub fn decode_frame(buf: &Vec<u8>, pos: usize, limit: FrameLimit) -> (r: FrameResult)
    requires
        pos <= buf@.len(),
    ensures
        match r {
            FrameResult::NeedMoreInput => spec_frame_step(buf@, pos as int, limit)
                is NeedMore,
            FrameResult::Decoded { meta, next } => spec_frame_step(buf@, pos as int, limit)
                == (FrameStep::Decoded { meta: meta@, next: next as int }) && pos < next
                <= buf@.len(),
            FrameResult::Failed { err, next } => spec_frame_step(buf@, pos as int, limit)
                == (FrameStep::Failed { err, next: next as int }) && pos < next <= buf@.len(),
        },
{
    let s = buf.as_slice();
    if s.len() - pos < 4 {
        return FrameResult::NeedMoreInput;
    }
    let len32 = read_be32(s, pos);
    let too_large = match limit {
        FrameLimit::Unbounded => false,
        FrameLimit::MaxLen(m) => len32 > m,
    };
    if too_large {
        return FrameResult::Failed { err: DecodeError::FrameTooLarge, next: s.len() };
    }
    let len = len32 as usize;
    if len > s.len() - pos - 4 {
        return FrameResult::NeedMoreInput;
    }
    let payload = slice_subrange(s, pos + 4, pos + 4 + len);
    match decode_payload(payload) {
        PayloadOutcome::Meta(meta) => FrameResult::Decoded { meta, next: pos + 4 + len },
        PayloadOutcome::Unknown => FrameResult::Failed {
            err: DecodeError::UnknownVariant,
            next: pos + 4 + len,
        },
        PayloadOutcome::Malformed => FrameResult::Failed {
            err: DecodeError::MalformedPayload,
            next: pos + 4 + len,
        },
    }
}

/// Whether a transaction result fits the wire format's length prefix.
pub open spec fn tx_encodable(t: TxResultView) -> bool {
    t.tx_hash.len() < 0x100000000
}

/// The encoding of one transaction result: length-prefixed hash, then the
/// 4-byte result code.
pub open spec fn spec_enc_tx(t: TxResultView) -> Seq<u8> {
    be32_bytes(t.tx_hash.len()) + t.tx_hash + be32_bytes(t.result_code as nat)
}

/// The encoding of a run of transaction results, back to back.
pub open spec fn spec_enc_txs(ts: Seq<TxResultView>) -> Seq<u8>
    decreases ts.len(),
{
    if ts.len() == 0 {
        Seq::empty()
    } else {
        spec_enc_tx(ts[0]) + spec_enc_txs(ts.drop_first())
    }
}

/// The encoding of the fields common to all versions, in fixed order.
pub open spec fn spec_enc_v0_fields(m: MetaV0View) -> Seq<u8> {
    be32_bytes(m.ledger_seq as nat) + be64_bytes(m.close_time as nat) + be32_bytes(
        m.ledger_hash.len(),
    ) + m.ledger_hash + be32_bytes(m.tx_results.len()) + spec_enc_txs(m.tx_results)
}

/// The encoding of the optional base fee: a presence flag, then the value.
pub open spec fn spec_enc_fee(f: Option<u32>) -> Seq<u8> {
    match f {
        Option::None => seq![0u8],
        Option::Some(x) => seq![1u8] + be32_bytes(x as nat),
    }
}

/// The encoding of one complete frame payload: the version discriminant,
/// then the variant's fields.
pub open spec fn spec_enc_payload(m: LedgerCloseMetaView) -> Seq<u8> {
    match m {
        LedgerCloseMetaView::V0(v) => be32_bytes(0) + spec_enc_v0_fields(v),
        LedgerCloseMetaView::V1(v) => be32_bytes(1) + spec_enc_v0_fields(v.base) + be64_bytes(
            v.total_coins as nat,
        ) + spec_enc_fee(v.base_fee),
    }
}

/// One frame on the wire: the payload behind its 4-byte length prefix.
pub open spec fn spec_frame_bytes(payload: Seq<u8>) -> Seq<u8>
    recommends
        payload.len() < 0x100000000,
{
    be32_bytes(payload.len()) + payload
}

/// The fields common to all versions fit the format's length prefixes.
pub open spec fn v0_encodable(m: MetaV0View) -> bool {
    &&& m.ledger_hash.len() < 0x100000000
    &&& m.tx_results.len() < 0x100000000
    &&& forall|k: int| 0 <= k < m.tx_results.len() ==> tx_encodable(#[trigger] m.tx_results[k])
}

/// Whether a record fits the wire format: every length-prefixed part and
/// the whole payload fit their 4-byte prefixes.
pub open spec fn meta_encodable(m: LedgerCloseMetaView) -> bool {
    &&& match m {
        LedgerCloseMetaView::V0(v) => v0_encodable(v),
        LedgerCloseMetaView::V1(v) => v0_encodable(v.base),
    }
    &&& spec_enc_payload(m).len() < 0x100000000
}

/// Appends the encoding of one transaction result to `out`.
fn encode_tx_into(out: &mut Vec<u8>, t: &TxResult)
    requires
        tx_encodable(t@),
    ensures
        final(out)@ == old(out)@ + spec_enc_tx(t@),
{
    push_be32(out, t.tx_hash.len() as u32);
    let mut h = slice_to_vec(t.tx_hash.as_slice());
    out.append(&mut h);
    push_be32(out, t.result_code);
    proof {
        assert(final(out)@ =~= old(out)@ + spec_enc_tx(t@));
    }
}

/// Appending one more transaction result extends the run's encoding.
proof fn lemma_enc_txs_push(ts: Seq<TxResultView>, t: TxResultView)
    ensures
        spec_enc_txs(ts.push(t)) == spec_enc_txs(ts) + spec_enc_tx(t),
    decreases ts.len(),
{
    assert(ts.push(t)[0] == if ts.len() == 0 {
        t
    } else {
        ts[0]
    });
    if ts.len() == 0 {
        assert(ts.push(t).drop_first() =~= Seq::<TxResultView>::empty());
        assert(spec_enc_txs(ts.push(t).drop_first()) == Seq::<u8>::empty());
        assert(spec_enc_tx(t) + Seq::<u8>::empty() =~= Seq::<u8>::empty() + spec_enc_tx(t));
    } else {
        assert(ts.push(t).drop_first() =~= ts.drop_first().push(t));
        lemma_enc_txs_push(ts.drop_first(), t);
        assert(spec_enc_tx(ts[0]) + (spec_enc_txs(ts.drop_first()) + spec_enc_tx(t))
            =~= (spec_enc_tx(ts[0]) + spec_enc_txs(ts.drop_first())) + spec_enc_tx(t));
    }
}

/// Appends the encoding of the fields common to all versions to `out`.
fn encode_v0_fields_into(out: &mut Vec<u8>, m: &MetaV0)
    requires
        v0_encodable(m@),
    ensures
        final(out)@ == old(out)@ + spec_enc_v0_fields(m@),
{
    push_be32(out, m.ledger_seq);
    push_be64(out, m.close_time);
    push_be32(out, m.ledger_hash.len() as u32);
    let mut h = slice_to_vec(m.ledger_hash.as_slice());
    out.append(&mut h);
    push_be32(out, m.tx_results.len() as u32);
    let ghost head = out@;
    let mut k: usize = 0;
    while k < m.tx_results.len()
        invariant
            k <= m.tx_results@.len(),
            v0_encodable(m@),
            out@ == head + spec_enc_txs(m@.tx_results.take(k as int)),
        decreases m.tx_results@.len() - k,
    {
        proof {
            assert(m@.tx_results[k as int] == m.tx_results@[k as int]@);
            assert(m@.tx_results.take(k + 1) =~= m@.tx_results.take(k as int).push(
                m@.tx_results[k as int],
            ));
            lemma_enc_txs_push(m@.tx_results.take(k as int), m@.tx_results[k as int]);
        }
        encode_tx_into(out, &m.tx_results[k]);
        proof {
            assert((head + spec_enc_txs(m@.tx_results.take(k as int))) + spec_enc_tx(
                m@.tx_results[k as int],
            ) =~= head + (spec_enc_txs(m@.tx_results.take(k as int)) + spec_enc_tx(
                m@.tx_results[k as int],
            )));
        }
        k = k + 1;
    }
    proof {
        assert(m@.tx_results.take(m.tx_results@.len() as int) =~= m@.tx_results);
        assert(final(out)@ =~= old(out)@ + spec_enc_v0_fields(m@));
    }
}

/// Encodes one record as a complete frame payload.
pub fn encode_payload(m: &LedgerCloseMeta) -> (out: Vec<u8>)
    requires
        meta_encodable(m@),
    ensures
        out@ == spec_enc_payload(m@),
{
    let mut out: Vec<u8> = Vec::new();
    match m {
        LedgerCloseMeta::V0(v) => {
            push_be32(&mut out, 0);
            encode_v0_fields_into(&mut out, v);
            proof {
                assert(out@ =~= spec_enc_payload(m@));
            }
        },
        LedgerCloseMeta::V1(v) => {
            push_be32(&mut out, 1);
            encode_v0_fields_into(&mut out, &v.base);
            push_be64(&mut out, v.total_coins);
            match v.base_fee {
                Option::None => {
                    out.push(0);
                },
                Option::Some(f) => {
                    out.push(1);
                    push_be32(&mut out, f);
                },
            }
            proof {
                assert(out@ =~= spec_enc_payload(m@));
            }
        },
    }
    out
}

/// Encodes one record as a frame on the wire: the length prefix, then the
/// payload.
pub fn encode_frame(m: &LedgerCloseMeta) -> (out: Vec<u8>)
    requires
        meta_encodable(m@),
    ensures
        out@ == spec_frame_bytes(spec_enc_payload(m@)),
{
    let mut payload = encode_payload(m);
    let mut out: Vec<u8> = Vec::new();
    push_be32(&mut out, payload.len() as u32);
    out.append(&mut payload);
    out
}

/// The bytes of a region of `p` that holds `a` followed by `b`, split at
/// the boundary.
pub(crate) proof fn lemma_subrange_concat(p: Seq<u8>, i: int, a: Seq<u8>, b: Seq<u8>)
    requires
        0 <= i,
        i + a.len() + b.len() <= p.len(),
        p.subrange(i, i + a.len() + b.len()) == a + b,
    ensures
        p.subrange(i, i + a.len()) == a,
        p.subrange(i + a.len(), i + a.len() + b.len()) == b,
{
    assert forall|k: int| 0 <= k < a.len() implies p.subrange(i, i + a.len())[k] == a[k] by {
        assert(p.subrange(i, i + a.len() + b.len())[k] == (a + b)[k]);
    }
    assert(p.subrange(i, i + a.len()) =~= a);
    assert forall|k: int|
        0 <= k < b.len() implies p.subrange(i + a.len(), i + a.len() + b.len())[k] == b[k] by {
        assert(p.subrange(i, i + a.len() + b.len())[a.len() + k] == (a + b)[a.len() + k]);
        assert(p.subrange(i + a.len(), i + a.len() + b.len())[k] == p[i + a.len() + k]);
        assert((a + b)[a.len() + k] == b[k]);
    }
    assert(p.subrange(i + a.len(), i + a.len() + b.len()) =~= b);
}

/// Reading a 4-byte big-endian field over the encoding of `n` gives `n`.
proof fn lemma_be32_at_encoded(s: Seq<u8>, i: int, n: nat)
    requires
        0 <= i,
        i + 4 <= s.len(),
        n < 0x100000000,
        s.subrange(i, i + 4) == be32_bytes(n),
    ensures
        be32_at(s, i) == n,
{
    lemma_be32_roundtrip(n);
    assert(s[i] == s.subrange(i, i + 4)[0]);
    assert(s[i + 1] == s.subrange(i, i + 4)[1]);
    assert(s[i + 2] == s.subrange(i, i + 4)[2]);
    assert(s[i + 3] == s.subrange(i, i + 4)[3]);
}

/// Reading an 8-byte big-endian field over the encoding of `n` gives `n`.
proof fn lemma_be64_at_encoded(s: Seq<u8>, i: int, n: nat)
    requires
        0 <= i,
        i + 8 <= s.len(),
        n < 0x10000000000000000,
        s.subrange(i, i + 8) == be64_bytes(n),
    ensures
        be64_at(s, i) == n,
{
    lemma_be64_roundtrip(n);
    assert(s[i] == s.subrange(i, i + 8)[0]);
    assert(s[i + 1] == s.subrange(i, i + 8)[1]);
    assert(s[i + 2] == s.subrange(i, i + 8)[2]);
    assert(s[i + 3] == s.subrange(i, i + 8)[3]);
    assert(s[i + 4] == s.subrange(i, i + 8)[4]);
    assert(s[i + 5] == s.subrange(i, i + 8)[5]);
    assert(s[i + 6] == s.subrange(i, i + 8)[6]);
    assert(s[i + 7] == s.subrange(i, i + 8)[7]);
}

/// Decoding over the encoding of one transaction result gives it back.
proof fn lemma_decode_tx_encoded(p: Seq<u8>, i: int, t: TxResultView)
    requires
        tx_encodable(t),
        0 <= i,
        i + spec_enc_tx(t).len() <= p.len(),
        p.subrange(i, i + spec_enc_tx(t).len()) == spec_enc_tx(t),
    ensures
        spec_decode_tx(p, i) == Some((t, i + spec_enc_tx(t).len())),
{
    let hl = t.tx_hash.len() as int;
    lemma_subrange_concat(p, i, be32_bytes(t.tx_hash.len()) + t.tx_hash, be32_bytes(
        t.result_code as nat,
    ));
    lemma_subrange_concat(p, i, be32_bytes(t.tx_hash.len()), t.tx_hash);
    lemma_be32_at_encoded(p, i, t.tx_hash.len());
    lemma_be32_at_encoded(p, i + 4 + hl, t.result_code as nat);
    assert(p.subrange(i + 4, i + 4 + hl) == t.tx_hash);
}

/// Decoding over the encoding of a run of transaction results gives it
/// back.
proof fn lemma_decode_txs_encoded(p: Seq<u8>, i: int, ts: Seq<TxResultView>)
    requires
        forall|k: int| 0 <= k < ts.len() ==> tx_encodable(#[trigger] ts[k]),
        0 <= i,
        i + spec_enc_txs(ts).len() <= p.len(),
        p.subrange(i, i + spec_enc_txs(ts).len()) == spec_enc_txs(ts),
    ensures
        spec_decode_txs(p, i, ts.len()) == Some((ts, i + spec_enc_txs(ts).len())),
    decreases ts.len(),
{
    if ts.len() == 0 {
        assert(ts =~= Seq::<TxResultView>::empty());
    } else {
        let t = ts[0];
        let rest = ts.drop_first();
        lemma_subrange_concat(p, i, spec_enc_tx(t), spec_enc_txs(rest));
        lemma_decode_tx_encoded(p, i, t);
        assert(forall|k: int| 0 <= k < rest.len() ==> tx_encodable(#[trigger] rest[k]));
        lemma_decode_txs_encoded(p, i + spec_enc_tx(t).len(), rest);
        assert(seq![t] + rest =~= ts);
    }
}

/// Decoding over the encoding of the common fields gives them back.
proof fn lemma_decode_v0_encoded(p: Seq<u8>, i: int, m: MetaV0View)
    requires
        v0_encodable(m),
        0 <= i,
        i + spec_enc_v0_fields(m).len() <= p.len(),
        p.subrange(i, i + spec_enc_v0_fields(m).len()) == spec_enc_v0_fields(m),
    ensures
        spec_decode_v0_fields(p, i) == Some((m, i + spec_enc_v0_fields(m).len())),
{
    let hl = m.ledger_hash.len() as int;
    let a = be32_bytes(m.ledger_seq as nat);
    let b = be64_bytes(m.close_time as nat);
    let c = be32_bytes(m.ledger_hash.len());
    let d = m.ledger_hash;
    let e = be32_bytes(m.tx_results.len());
    let f = spec_enc_txs(m.tx_results);
    lemma_subrange_concat(p, i, a + b + c + d + e, f);
    lemma_subrange_concat(p, i, a + b + c + d, e);
    lemma_subrange_concat(p, i, a + b + c, d);
    lemma_subrange_concat(p, i, a + b, c);
    lemma_subrange_concat(p, i, a, b);
    lemma_be32_at_encoded(p, i, m.ledger_seq as nat);
    lemma_be64_at_encoded(p, i + 4, m.close_time as nat);
    lemma_be32_at_encoded(p, i + 12, m.ledger_hash.len());
    lemma_be32_at_encoded(p, i + 16 + hl, m.tx_results.len());
    lemma_decode_txs_encoded(p, i + 20 + hl, m.tx_results);
    assert(p.subrange(i + 16, i + 16 + hl) == m.ledger_hash);
}

/// Decoding over the encoded payload of a first-version record gives it
/// back.
proof fn lemma_decode_payload_encoded_v0(v: MetaV0View)
    requires
        meta_encodable(LedgerCloseMetaView::V0(v)),
    ensures
        spec_decode_payload(spec_enc_payload(LedgerCloseMetaView::V0(v))) == PayloadStep::Meta(
            LedgerCloseMetaView::V0(v),
        ),
{
    let p = spec_enc_payload(LedgerCloseMetaView::V0(v));
    assert(p.subrange(0, p.len() as int) =~= p);
    lemma_subrange_concat(p, 0, be32_bytes(0), spec_enc_v0_fields(v));
    lemma_be32_at_encoded(p, 0, 0);
    lemma_decode_v0_encoded(p, 4, v);
}

/// Decoding over the encoding of the optional base fee gives it back.
proof fn lemma_decode_fee_encoded(p: Seq<u8>, i: int, f: Option<u32>)
    requires
        0 <= i,
        i + spec_enc_fee(f).len() <= p.len(),
        p.subrange(i, i + spec_enc_fee(f).len()) == spec_enc_fee(f),
    ensures
        spec_decode_fee(p, i) == Some((f, i + spec_enc_fee(f).len())),
{
    assert(p[i] == p.subrange(i, i + spec_enc_fee(f).len())[0]);
    match f {
        Option::None => {
            assert(spec_enc_fee(f)[0] == 0u8);
        },
        Option::Some(x) => {
            assert(spec_enc_fee(f)[0] == 1u8);
            lemma_subrange_concat(p, i, seq![1u8], be32_bytes(x as nat));
            lemma_be32_at_encoded(p, i + 1, x as nat);
        },
    }
}

/// Decoding over the encoded payload of a second-version record gives it
/// back.
#[verifier::rlimit(100)]
#[verifier::spinoff_prover]
proof fn lemma_decode_payload_encoded_v1(v: MetaV1View)
    requires
        meta_encodable(LedgerCloseMetaView::V1(v)),
    ensures
        spec_decode_payload(spec_enc_payload(LedgerCloseMetaView::V1(v))) == PayloadStep::Meta(
            LedgerCloseMetaView::V1(v),
        ),
{
    let p = spec_enc_payload(LedgerCloseMetaView::V1(v));
    let b = spec_enc_v0_fields(v.base);
    let d = spec_enc_fee(v.base_fee);
    let j = 4 + b.len() as int;
    assert(p.len() == j + 8 + d.len());
    assert(be32_at(p, 0) == 1 && spec_decode_v0_fields(p, 4) == Some((v.base, j)) && be64_at(
        p,
        j,
    ) == v.total_coins as nat && spec_decode_fee(p, j + 8) == Some(
        (v.base_fee, p.len() as int),
    )) by {
        let a = be32_bytes(1);
        let c = be64_bytes(v.total_coins as nat);
        assert(p.subrange(0, p.len() as int) =~= p);
        lemma_subrange_concat(p, 0, a + b + c, d);
        lemma_subrange_concat(p, 0, a + b, c);
        lemma_subrange_concat(p, 0, a, b);
        lemma_be32_at_encoded(p, 0, 1);
        lemma_decode_v0_encoded(p, 4, v.base);
        lemma_be64_at_encoded(p, j, v.total_coins as nat);
        lemma_decode_fee_encoded(p, j + 8, v.base_fee);
    }
}

/// Decoding over the encoding of a whole payload gives the record back.
pub proof fn lemma_decode_payload_encoded(m: LedgerCloseMetaView)
    requires
        meta_encodable(m),
    ensures
        spec_decode_payload(spec_enc_payload(m)) == PayloadStep::Meta(m),
{
    match m {
        LedgerCloseMetaView::V0(v) => {
            lemma_decode_payload_encoded_v0(v);
        },
        LedgerCloseMetaView::V1(v) => {
            lemma_decode_payload_encoded_v1(v);
        },
    }
}

/// Round trip at the frame level: wherever a buffer holds the frame
/// encoding of a record within the configured limit, one frame attempt
/// there decodes exactly that record and advances exactly past the frame.
pub proof fn lemma_frame_step_encoded(
    b: Seq<u8>,
    pos: int,
    limit: FrameLimit,
    m: LedgerCloseMetaView,
)
    requires
        meta_encodable(m),
        fits_limit(limit, spec_enc_payload(m).len()),
        0 <= pos,
        pos + 4 + spec_enc_payload(m).len() <= b.len(),
        b.subrange(pos, pos + 4 + spec_enc_payload(m).len()) == spec_frame_bytes(
            spec_enc_payload(m),
        ),
    ensures
        spec_frame_step(b, pos, limit) == (FrameStep::Decoded {
            meta: m,
            next: pos + 4 + spec_enc_payload(m).len(),
        }),
{
    let payload = spec_enc_payload(m);
    lemma_subrange_concat(b, pos, be32_bytes(payload.len()), payload);
    lemma_be32_at_encoded(b, pos, payload.len());
    lemma_decode_payload_encoded(m);
    assert(b.subrange(pos + 4, pos + 4 + payload.len()) == payload);
}

} // verus!
