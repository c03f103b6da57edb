use ledger_frames::codec::{LedgerCloseMeta, MetaV0, MetaV1, TxResult};
use ledger_frames::render::{dec_u64, project_record};

#[test]
fn decimal_of_zero_and_max() {
    assert_eq!(dec_u64(0), "0");
    assert_eq!(dec_u64(9), "9");
    assert_eq!(dec_u64(10), "10");
    assert_eq!(dec_u64(18446744073709551615), "18446744073709551615");
}

#[test]
fn project_v0_exact_text() {
    let m = LedgerCloseMeta::V0(MetaV0 {
        ledger_seq: 7,
        close_time: 12345678901234567890,
        ledger_hash: vec![0, 1, 2],
        tx_results: vec![TxResult {
            tx_hash: vec![255, 254, 253, 252],
            result_code: 5,
        }],
    });
    let s = project_record(&m);
    assert_eq!(
        s,
        "{\"type\":\"ledger_close_meta_v0\",\"value\":{\"ledger_seq\":7,\
         \"close_time\":\"12345678901234567890\",\"ledger_hash\":\"AAEC\",\
         \"tx_results\":[{\"tx_hash\":\"//79/A==\",\"result_code\":5}]}}"
    );
}

#[test]
fn project_v1_with_fee_parses_back() {
    let m = LedgerCloseMeta::V1(MetaV1 {
        base: MetaV0 {
            ledger_seq: 42,
            close_time: 1700000000,
            ledger_hash: vec![9, 8],
            tx_results: vec![
                TxResult {
                    tx_hash: vec![1],
                    result_code: 0,
                },
                TxResult {
                    tx_hash: vec![2, 3],
                    result_code: 11,
                },
            ],
        },
        total_coins: 9007199254740993,
        base_fee: Some(100),
    });
    let s = project_record(&m);
    let v: serde_json::Value = serde_json::from_str(&s).expect("projector output must be JSON");
    assert_eq!(v["type"], serde_json::Value::String("ledger_close_meta_v1".to_string()));
    let value = &v["value"];
    assert_eq!(value["ledger_seq"].as_u64(), Some(42));
    // Wider than 53 bits: written as a decimal string, not a number.
    assert_eq!(value["total_coins"].as_str(), Some("9007199254740993"));
    assert_eq!(value["close_time"].as_str(), Some("1700000000"));
    assert_eq!(value["base_fee"].as_u64(), Some(100));
    let txs = value["tx_results"].as_array().expect("array of results");
    assert_eq!(txs.len(), 2);
    assert_eq!(txs[0]["tx_hash"].as_str(), Some("AQ=="));
    assert_eq!(txs[0]["result_code"].as_u64(), Some(0));
    assert_eq!(txs[1]["tx_hash"].as_str(), Some("AgM="));
    assert_eq!(txs[1]["result_code"].as_u64(), Some(11));
}

#[test]
fn project_v1_without_fee_is_null() {
    let m = LedgerCloseMeta::V1(MetaV1 {
        base: MetaV0 {
            ledger_seq: 1,
            close_time: 2,
            ledger_hash: vec![],
            tx_results: vec![],
        },
        total_coins: 3,
        base_fee: None,
    });
    let s = project_record(&m);
    let v: serde_json::Value = serde_json::from_str(&s).expect("projector output must be JSON");
    assert!(v["value"]["base_fee"].is_null());
    // An empty byte array is the empty base64 string.
    assert_eq!(v["value"]["ledger_hash"].as_str(), Some(""));
    assert_eq!(v["value"]["tx_results"].as_array().map(|a| a.len()), Some(0));
}

#[test]
fn base64_padding_cases_via_projection() {
    for (hash, expected) in [
        (vec![], ""),
        (vec![0], "AA=="),
        (vec![0, 0], "AAA="),
        (vec![0, 0, 1], "AAAB"),
        (vec![77, 97, 110], "TWFu"),
    ] {
        let m = LedgerCloseMeta::V0(MetaV0 {
            ledger_seq: 0,
            close_time: 0,
            ledger_hash: hash,
            tx_results: vec![],
        });
        let s = project_record(&m);
        let v: serde_json::Value = serde_json::from_str(&s).expect("valid JSON");
        assert_eq!(v["value"]["ledger_hash"].as_str(), Some(expected));
    }
}

#[test]
fn array_order_is_preserved() {
    let m = LedgerCloseMeta::V0(MetaV0 {
        ledger_seq: 0,
        close_time: 0,
        ledger_hash: vec![],
        tx_results: (0u32..5).map(|c| TxResult { tx_hash: vec![], result_code: c }).collect(),
    });
    let s = project_record(&m);
    let v: serde_json::Value = serde_json::from_str(&s).expect("valid JSON");
    let codes: Vec<u64> =
        v["value"]["tx_results"].as_array().unwrap().iter().map(|t| t["result_code"].as_u64().unwrap()).collect();
    assert_eq!(codes, vec![0, 1, 2, 3, 4]);
}
