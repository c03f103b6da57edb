//! Record projector: the JSON document for one decoded record.
//!
//! The mapping is total and fixed: fixed-width integers become JSON
//! numbers where they fit 53 bits and decimal strings where they are
//! wider (close time, total coins), byte arrays become base64 strings,
//! the tagged union becomes an object with a `"type"` discriminant string
//! and the active variant's fields under a `"value"` key, and an absent
//! optional field becomes `null`.

use vstd::prelude::*;

verus! {

use crate::codec::{
    FrameLimit,
    FrameStep,
    LedgerCloseMeta,
    LedgerCloseMetaView,
    MetaV0View,
    TxResult,
    TxResultView,
    fits_limit,
    lemma_frame_step_encoded,
    meta_encodable,
    spec_enc_payload,
    spec_frame_bytes,
    spec_frame_step,
};
use vstd::string::StringExecFns;

/// The decimal digit character for `d`.
pub open spec fn digit_char(d: nat) -> char
    recommends
        d < 10,
{
    if d == 0 {
        '0'
    } else if d == 1 {
        '1'
    } else if d == 2 {
        '2'
    } else if d == 3 {
        '3'
    } else if d == 4 {
        '4'
    } else if d == 5 {
        '5'
    } else if d == 6 {
        '6'
    } else if d == 7 {
        '7'
    } else if d == 8 {
        '8'
    } else {
        '9'
    }
}

/// The decimal numeral of `n`, most significant digit first, no sign and
/// no leading zero.
pub open spec fn dec_of(n: nat) -> Seq<char>
    decreases n,
    when true
    via dec_of_decreases
{
    if n < 10 {
        seq![digit_char(n)]
    } else {
        dec_of(n / 10).push(digit_char(n % 10))
    }
}

#[via_fn]
proof fn dec_of_decreases(n: nat) {
    if n >= 10 {
        assert(n / 10 < n) by (nonlinear_arith)
            requires
                n >= 10,
        ;
    }
}

/// The decimal digit as a one-character string slice.
fn digit_str(d: u64) -> (r: &'static str)
    requires
        d < 10,
    ensures
        r@ == seq![digit_char(d as nat)],
{
    if d == 0 {
        proof {
            reveal_strlit("0");
            assert("0"@ =~= seq![digit_char(d as nat)]);
        }
        "0"
    } else if d == 1 {
        proof {
            reveal_strlit("1");
            assert("1"@ =~= seq![digit_char(d as nat)]);
        }
        "1"
    } else if d == 2 {
        proof {
            reveal_strlit("2");
            assert("2"@ =~= seq![digit_char(d as nat)]);
        }
        "2"
    } else if d == 3 {
        proof {
            reveal_strlit("3");
            assert("3"@ =~= seq![digit_char(d as nat)]);
        }
        "3"
    } else if d == 4 {
        proof {
            reveal_strlit("4");
            assert("4"@ =~= seq![digit_char(d as nat)]);
        }
        "4"
    } else if d == 5 {
        proof {
            reveal_strlit("5");
            assert("5"@ =~= seq![digit_char(d as nat)]);
        }
        "5"
    } else if d == 6 {
        proof {
            reveal_strlit("6");
            assert("6"@ =~= seq![digit_char(d as nat)]);
        }
        "6"
    } else if d == 7 {
        proof {
            reveal_strlit("7");
            assert("7"@ =~= seq![digit_char(d as nat)]);
        }
        "7"
    } else if d == 8 {
        proof {
            reveal_strlit("8");
            assert("8"@ =~= seq![digit_char(d as nat)]);
        }
        "8"
    } else {
        proof {
            reveal_strlit("9");
            assert("9"@ =~= seq![digit_char(d as nat)]);
        }
        "9"
    }
}

/// Writes `n` as its decimal numeral.
pub fn dec_u64(n: u64) -> (s: String)
    ensures
        s@ == dec_of(n as nat),
    decreases n,
{
    if n < 10 {
        String::from_str(digit_str(n))
    } else {
        proof {
            assert(n / 10 < n) by (nonlinear_arith)
                requires
                    n >= 10,
            ;
        }
        let mut s = dec_u64(n / 10);
        s.append(digit_str(n % 10));
        proof {
            assert(dec_of((n / 10) as nat).push(digit_char((n % 10) as nat)) =~= dec_of(
                (n / 10) as nat,
            ) + seq![digit_char((n % 10) as nat)]);
        }
        s
    }
}

/// The base64 alphabet, in value order.
pub open spec fn b64_alphabet() -> Seq<char> {
    "ABCDEFGHIJKLMNOPQRSTUVWXYZabcdefghijklmnopqrstuvwxyz0123456789+/"@
}

/// The alphabet character for the 6-bit value `i`.
pub open spec fn b64_char(i: int) -> char
    recommends
        0 <= i < 64,
{
    b64_alphabet()[i]
}

/// The base64 encoding of `s`: each 3-byte group becomes four alphabet
/// characters, a trailing group of 1 or 2 bytes is padded with `'='`.
pub open spec fn base64_of(s: Seq<u8>) -> Seq<char>
    decreases s.len(),
{
    if s.len() == 0 {
        Seq::empty()
    } else if s.len() == 1 {
        let b0 = s[0] as int;
        seq![b64_char(b0 / 4), b64_char((b0 % 4) * 16), '=', '=']
    } else if s.len() == 2 {
        let b0 = s[0] as int;
        let b1 = s[1] as int;
        seq![b64_char(b0 / 4), b64_char((b0 % 4) * 16 + b1 / 16), b64_char((b1 % 16) * 4), '=']
    } else {
        let b0 = s[0] as int;
        let b1 = s[1] as int;
        let b2 = s[2] as int;
        seq![
            b64_char(b0 / 4),
            b64_char((b0 % 4) * 16 + b1 / 16),
            b64_char((b1 % 16) * 4 + b2 / 64),
            b64_char(b2 % 64),
        ] + base64_of(s.skip(3))
    }
}

/// Relies on the base64 crate's standard engine: canonical RFC 4648
/// base64 with `'='` padding over the standard alphabet, a pure function
/// of the input bytes.
#[verifier::external_body]
pub(crate) fn base64_encode(b: &[u8]) -> (r: String)
    ensures
        r@ == base64_of(b@),
{
    base64::Engine::encode(&base64::engine::general_purpose::STANDARD, b)
}

/// The JSON text of one transaction result.
pub open spec fn json_of_tx(t: TxResultView) -> Seq<char> {
    "{\"tx_hash\":\""@ + base64_of(t.tx_hash) + "\",\"result_code\":"@ + dec_of(
        t.result_code as nat,
    ) + "}"@
}

/// The JSON texts of the transaction results, joined with commas, in
/// array order.
pub open spec fn json_of_txs(ts: Seq<TxResultView>) -> Seq<char>
    decreases ts.len(),
{
    if ts.len() == 0 {
        Seq::empty()
    } else if ts.len() == 1 {
        json_of_tx(ts[0])
    } else {
        json_of_tx(ts[0]) + ","@ + json_of_txs(ts.drop_first())
    }
}

/// The JSON text of the fields common to all versions. The close time is
/// wider than 53 bits and is written as a decimal string; the ledger
/// sequence fits a JSON number.
pub open spec fn json_of_v0_fields(m: MetaV0View) -> Seq<char> {
    "\"ledger_seq\":"@ + dec_of(m.ledger_seq as nat) + ",\"close_time\":\""@ + dec_of(
        m.close_time as nat,
    ) + "\",\"ledger_hash\":\""@ + base64_of(m.ledger_hash) + "\",\"tx_results\":["@ + json_of_txs(
        m.tx_results,
    ) + "]"@
}

/// The JSON text of the optional base fee: `null` when absent.
pub open spec fn json_of_fee(f: Option<u32>) -> Seq<char> {
    match f {
        Option::None => "null"@,
        Option::Some(x) => dec_of(x as nat),
    }
}

/// The complete JSON document for one decoded record.
pub open spec fn json_of_meta(m: LedgerCloseMetaView) -> Seq<char> {
    match m {
        LedgerCloseMetaView::V0(v) => "{\"type\":\"ledger_close_meta_v0\",\"value\":{"@
            + json_of_v0_fields(v) + "}}"@,
        LedgerCloseMetaView::V1(v) => "{\"type\":\"ledger_close_meta_v1\",\"value\":{"@
            + json_of_v0_fields(v.base) + ",\"total_coins\":\""@ + dec_of(v.total_coins as nat)
            + "\",\"base_fee\":"@ + json_of_fee(v.base_fee) + "}}"@,
    }
}

/// Appending one more transaction result extends the joined JSON texts by
/// a comma (after a non-empty run) and the new element's text.
proof fn lemma_json_txs_push(ts: Seq<TxResultView>, t: TxResultView)
    ensures
        json_of_txs(ts.push(t)) == if ts.len() == 0 {
            json_of_tx(t)
        } else {
            json_of_txs(ts) + ","@ + json_of_tx(t)
        },
    decreases ts.len(),
{
    assert(ts.push(t)[0] == if ts.len() == 0 {
        t
    } else {
        ts[0]
    });
    if ts.len() == 0 {
    } else if ts.len() == 1 {
        assert(ts.push(t).drop_first() =~= seq![t]);
        assert(json_of_txs(seq![t]) == json_of_tx(t));
    } else {
        assert(ts.push(t).drop_first() =~= ts.drop_first().push(t));
        lemma_json_txs_push(ts.drop_first(), t);
        assert(json_of_tx(ts[0]) + ","@ + (json_of_txs(ts.drop_first()) + ","@ + json_of_tx(t))
            =~= (json_of_tx(ts[0]) + ","@ + json_of_txs(ts.drop_first())) + ","@ + json_of_tx(
            t,
        ));
    }
}

/// Writes the JSON text of one transaction result.
fn project_tx(t: &TxResult) -> (s: String)
    ensures
        s@ == json_of_tx(t@),
{
    let mut s = String::from_str("{\"tx_hash\":\"");
    let h = base64_encode(t.tx_hash.as_slice());
    s.append(h.as_str());
    s.append("\",\"result_code\":");
    let c = dec_u64(t.result_code as u64);
    s.append(c.as_str());
    s.append("}");
    proof {
        assert(s@ =~= json_of_tx(t@));
    }
    s
}

/// Writes the JSON texts of the transaction results, joined with commas.
fn project_txs(ts: &Vec<TxResult>) -> (s: String)
    ensures
        s@ == json_of_txs(ts@.map_values(|t: TxResult| t@)),
{
    let ghost vts = ts@.map_values(|t: TxResult| t@);
    let mut s = String::new();
    let mut k: usize = 0;
    while k < ts.len()
        invariant
            k <= ts@.len(),
            vts == ts@.map_values(|t: TxResult| t@),
            s@ == json_of_txs(vts.take(k as int)),
        decreases ts@.len() - k,
    {
        proof {
            assert(vts.take(k + 1) =~= vts.take(k as int).push(vts[k as int]));
            lemma_json_txs_push(vts.take(k as int), vts[k as int]);
            assert(vts[k as int] == ts@[k as int]@);
        }
        if k > 0 {
            s.append(",");
        }
        let piece = project_tx(&ts[k]);
        s.append(piece.as_str());
        k = k + 1;
    }
    proof {
        assert(vts.take(ts@.len() as int) =~= vts);
    }
    s
}

/// Writes the JSON text of the fields common to all versions.
fn project_v0_fields(m: &crate::codec::MetaV0) -> (s: String)
    ensures
        s@ == json_of_v0_fields(m@),
{
    let mut s = String::from_str("\"ledger_seq\":");
    let seq_txt = dec_u64(m.ledger_seq as u64);
    s.append(seq_txt.as_str());
    s.append(",\"close_time\":\"");
    let ct_txt = dec_u64(m.close_time);
    s.append(ct_txt.as_str());
    s.append("\",\"ledger_hash\":\"");
    let hash_txt = base64_encode(m.ledger_hash.as_slice());
    s.append(hash_txt.as_str());
    s.append("\",\"tx_results\":[");
    let txs_txt = project_txs(&m.tx_results);
    s.append(txs_txt.as_str());
    s.append("]");
    proof {
        assert(s@ =~= json_of_v0_fields(m@));
    }
    s
}

/// Projects one decoded record to its complete JSON document, one line's
/// worth of text: the `"type"` discriminant string for the active variant
/// and every field of that variant under `"value"`, in fixed order.
pub fn project_record(m: &LedgerCloseMeta) -> (s: String)
    ensures
        s@ == json_of_meta(m@),
{
    match m {
        LedgerCloseMeta::V0(v) => {
            let mut s = String::from_str("{\"type\":\"ledger_close_meta_v0\",\"value\":{");
            let fields = project_v0_fields(v);
            s.append(fields.as_str());
            s.append("}}");
            proof {
                assert(s@ =~= json_of_meta(m@));
            }
            s
        },
        LedgerCloseMeta::V1(v) => {
            let mut s = String::from_str("{\"type\":\"ledger_close_meta_v1\",\"value\":{");
            let fields = project_v0_fields(&v.base);
            s.append(fields.as_str());
            s.append(",\"total_coins\":\"");
            let coins = dec_u64(v.total_coins);
            s.append(coins.as_str());
            s.append("\",\"base_fee\":");
            match v.base_fee {
                Option::None => {
                    s.append("null");
                },
                Option::Some(f) => {
                    let fee = dec_u64(f as u64);
                    s.append(fee.as_str());
                },
            }
            s.append("}}");
            proof {
                assert(s@ =~= json_of_meta(m@));
            }
            s
        },
    }
}

/// Round trip: the JSON projection of the record decoded from the frame
/// encoding of `m` agrees exactly — no field lost, no array reordered —
/// with the projection derived from `m` itself.
pub proof fn lemma_project_round_trip(m: LedgerCloseMetaView, limit: FrameLimit)
    requires
        meta_encodable(m),
        fits_limit(limit, spec_enc_payload(m).len()),
    ensures
        ({
            let b = spec_frame_bytes(spec_enc_payload(m));
            &&& spec_frame_step(b, 0, limit) == (FrameStep::Decoded {
                meta: m,
                next: b.len() as int,
            })
            &&& json_of_meta(spec_frame_step(b, 0, limit)->Decoded_meta) == json_of_meta(m)
        }),
{
    let b = spec_frame_bytes(spec_enc_payload(m));
    assert(b.subrange(0, 4 + spec_enc_payload(m).len() as int) =~= b);
    lemma_frame_step_encoded(b, 0, limit, m);
}

} // verus!
