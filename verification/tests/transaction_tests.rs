use chrono::{DateTime, Datelike, Duration, Timelike, Utc};
use simple_bitcoin::blockchain::transaction::{
    CoinbaseTransaction, NormalTransaction, Transaction, TransactionInput, TransactionOutput,
    Transactions,
};
use simple_bitcoin::timestamp::Timestamp;
use std::str::FromStr;

fn stamp(moment: DateTime<Utc>) -> Timestamp {
    Timestamp::from_parts(
        moment.year(),
        moment.month(),
        moment.day(),
        moment.hour(),
        moment.minute(),
        moment.second(),
        moment.nanosecond(),
    )
    .unwrap()
}

fn sample_transactions(now: Timestamp) -> Transactions {
    Transactions::new(
        CoinbaseTransaction::new("alice".to_string(), 10, now),
        vec![NormalTransaction::new(
            vec![TransactionInput::new(
                Transaction::Coinbase(CoinbaseTransaction::new("alice".to_string(), 10, now)),
                0,
            )],
            vec![TransactionOutput::new("bob".to_string(), 10)],
            now,
        )],
    )
}

#[test]
fn test_deserialize_transactions() {
    let now: DateTime<Utc> = DateTime::from_str("2022-03-09T12:00:00Z").unwrap();
    let now = stamp(now);

    let json = r#"
            {
              "coinbase": {
                "recipient": "alice",
                "value": 10,
                "timestamp": "2022-03-09T12:00:00Z"
              },
              "transactions": [
                {
                  "inputs": [
                    {
                      "transaction": {
                        "tx_type": "0",
                        "recipient": "alice",
                        "value": 10,
                        "timestamp": "2022-03-09T12:00:00Z"
                      },
                      "index": 0
                    }
                  ],
                  "outputs": [
                    {
                      "recipient": "bob",
                      "value": 10
                    }
                  ],
                  "timestamp": "2022-03-09T12:00:00Z"
                }
              ]
            }
        "#;

    let actual: Transactions =
        Transactions::from_bytes(json.as_bytes()).expect("failed to parse transactions");

    let expected = sample_transactions(now);

    assert_eq!(actual, expected);
}

#[test]
fn test_round_trip_transactions() {
    let now: DateTime<Utc> = DateTime::from_str("2022-03-09T12:00:00Z").unwrap();
    let txs = sample_transactions(stamp(now));

    let json = txs.to_bytes();
    let actual: Transactions =
        Transactions::from_bytes(&json).expect("failed to parse transactions");

    assert_eq!(actual, txs);
}

fn generate_sample() -> (CoinbaseTransaction, NormalTransaction, Transactions) {
    let now: DateTime<Utc> = DateTime::from_str("2022-03-09T12:00:00Z").unwrap();
    let sec = Duration::seconds(1);

    let tx1 = CoinbaseTransaction::new("alice".to_string(), 10, stamp(now + sec * 0));
    let tx2 = NormalTransaction::new(
        vec![TransactionInput::new(
            Transaction::Coinbase(CoinbaseTransaction::new(
                "alice".to_string(),
                10,
                stamp(now + sec * 1),
            )),
            0,
        )],
        vec![TransactionOutput::new("bob".to_string(), 10)],
        Timestamp::now(),
    );
    let txs = Transactions::new(tx1.clone(), vec![tx2.clone()]);
    (tx1, tx2, txs)
}

#[test]
fn test_get_transaction_at() {
    let (tx1, tx2, txs) = generate_sample();
    assert_eq!(
        txs.get_transaction_at(0),
        Some(Transaction::Coinbase(tx1.clone()))
    );
    assert_eq!(
        txs.get_transaction_at(1),
        Some(Transaction::Normal(tx2.clone()))
    );
    assert_eq!(txs.get_transaction_at(2), None);
}

#[test]
fn test_get_transactions() {
    let (tx1, tx2, txs) = generate_sample();
    assert_eq!(
        txs.get_transactions(),
        vec![Transaction::Coinbase(tx1), Transaction::Normal(tx2)]
    );
}

#[test]
fn test_get_normal_transactions() {
    let (_tx1, tx2, txs) = generate_sample();
    assert_eq!(txs.get_normal_transactions(), vec![tx2]);
}

#[test]
fn canonical_text_of_transactions_is_exact() {
    let now = Timestamp::parse_rfc3339("2022-03-09T12:00:00Z").unwrap();
    let text = String::from_utf8(sample_transactions(now).to_bytes()).unwrap();
    assert_eq!(
        text,
        concat_parts(&[
            r#"{"coinbase":{"recipient":"alice","value":10,"timestamp":"2022-03-09T12:00:00Z"},"#,
            r#""transactions":[{"inputs":[{"transaction":{"tx_type":"0","recipient":"alice","#,
            r#""value":10,"timestamp":"2022-03-09T12:00:00Z"},"index":0}],"#,
            r#""outputs":[{"recipient":"bob","value":10}],"timestamp":"2022-03-09T12:00:00Z"}]}"#,
        ])
    );
}

fn concat_parts(parts: &[&str]) -> String {
    let mut out = String::new();
    for part in parts {
        out.push_str(part);
    }
    out
}

#[test]
fn canonical_text_agrees_with_serde_json() {
    let now = Timestamp::parse_rfc3339("2022-03-09T12:00:00.25Z").unwrap();
    let tx = Transaction::Normal(NormalTransaction::new(
        vec![TransactionInput::new(
            Transaction::Coinbase(CoinbaseTransaction::new("a\"b\\c\n\u{1}é".to_string(), 7, now)),
            0,
        )],
        vec![TransactionOutput::new("bob".to_string(), u64::MAX)],
        now,
    ));
    let text = tx.to_bytes();
    let value: serde_json::Value = serde_json::from_slice(&text).unwrap();
    assert_eq!(value["tx_type"].as_str(), Some("1"));
    assert_eq!(value["timestamp"].as_str(), Some("2022-03-09T12:00:00.250Z"));
    assert_eq!(value["outputs"][0]["value"].as_u64(), Some(u64::MAX));
    let inner = &value["inputs"][0]["transaction"];
    assert_eq!(inner["tx_type"].as_str(), Some("0"));
    assert_eq!(inner["recipient"].as_str(), Some("a\"b\\c\n\u{1}é"));
    assert_eq!(value["inputs"][0]["index"].as_u64(), Some(0));
    // serde_json spells the same value in the same bytes when the members
    // come in the same order.
    assert_eq!(
        serde_json::to_string(&inner["recipient"]).unwrap(),
        r#""a\"b\\c\n\u0001é""#
    );
    assert_eq!(Transaction::from_bytes(&text), Some(tx));
}

#[test]
fn transaction_round_trips_through_its_text() {
    let now = Timestamp::parse_rfc3339("1999-12-31T23:59:59.123456789Z").unwrap();
    let first = Transaction::Coinbase(CoinbaseTransaction::new("miner".to_string(), 10, now));
    let second = Transaction::Normal(NormalTransaction::new(
        vec![TransactionInput::new(first.clone(), 0)],
        vec![
            TransactionOutput::new("x".to_string(), 4),
            TransactionOutput::new("y".to_string(), 5),
        ],
        now,
    ));
    let third = Transaction::Normal(NormalTransaction::new(
        vec![
            TransactionInput::new(second.clone(), 1),
            TransactionInput::new(second.clone(), 0),
        ],
        vec![TransactionOutput::new("z".to_string(), 9)],
        now,
    ));
    for tx in [first, second, third] {
        assert_eq!(Transaction::from_bytes(&tx.to_bytes()), Some(tx));
    }
}

#[test]
fn members_are_found_in_any_order_and_others_are_passed_over() {
    let text = r#"{"value": 3, "note": [1, {"a": null}, true], "timestamp":
        "2022-03-09T12:00:00Z", "recipient": "carol", "tx_type": "0"}"#;
    let now = Timestamp::parse_rfc3339("2022-03-09T12:00:00Z").unwrap();
    assert_eq!(
        Transaction::from_bytes(text.as_bytes()),
        Some(Transaction::Coinbase(CoinbaseTransaction::new(
            "carol".to_string(),
            3,
            now
        )))
    );
}

#[test]
fn what_is_read_need_not_be_well_formed() {
    // The input names output 1 of a coinbase, which has output 0 alone.
    let text = r#"{"tx_type":"1","inputs":[{"transaction":{"tx_type":"0","recipient":"a",
        "value":1,"timestamp":"2022-03-09T12:00:00Z"},"index":1}],"outputs":[],
        "timestamp":"2022-03-09T12:00:00Z"}"#;
    let read = Transaction::from_bytes(text.as_bytes()).unwrap();
    assert!(!read.is_well_formed());
    assert_eq!(Transaction::from_bytes(&read.to_bytes()), Some(read));
    // The outputs sum to more than 64 bits hold.
    let text = r#"{"tx_type":"1","inputs":[],"outputs":[
        {"recipient":"a","value":18446744073709551615},{"recipient":"b","value":1}],
        "timestamp":"2022-03-09T12:00:00Z"}"#;
    let read = Transaction::from_bytes(text.as_bytes()).unwrap();
    assert!(!read.is_well_formed());
    assert_eq!(Transaction::from_bytes(&read.to_bytes()), Some(read));
}

#[test]
fn what_is_no_transaction_is_not_read() {
    // A kind that is none.
    let text = r#"{"tx_type":"2","recipient":"a","value":1,"timestamp":"2022-03-09T12:00:00Z"}"#;
    assert_eq!(Transaction::from_bytes(text.as_bytes()), None);
    // A month that is none.
    let text = r#"{"tx_type":"0","recipient":"a","value":1,"timestamp":"2022-13-09T12:00:00Z"}"#;
    assert_eq!(Transaction::from_bytes(text.as_bytes()), None);
    // A value that is no unsigned integer of 64 bits.
    let text = r#"{"tx_type":"0","recipient":"a","value":18446744073709551616,
        "timestamp":"2022-03-09T12:00:00Z"}"#;
    assert_eq!(Transaction::from_bytes(text.as_bytes()), None);
    let text = r#"{"tx_type":"0","recipient":"a","value":-1,"timestamp":"2022-03-09T12:00:00Z"}"#;
    assert_eq!(Transaction::from_bytes(text.as_bytes()), None);
    // An index that does not fit in 32 bits.
    let text = r#"{"tx_type":"1","inputs":[{"transaction":{"tx_type":"0","recipient":"a",
        "value":1,"timestamp":"2022-03-09T12:00:00Z"},"index":4294967296}],"outputs":[],
        "timestamp":"2022-03-09T12:00:00Z"}"#;
    assert_eq!(Transaction::from_bytes(text.as_bytes()), None);
    // A member that is missing, and one of another kind.
    let text = r#"{"tx_type":"0","recipient":"a","timestamp":"2022-03-09T12:00:00Z"}"#;
    assert_eq!(Transaction::from_bytes(text.as_bytes()), None);
    let text = r#"{"tx_type":"0","recipient":7,"value":1,"timestamp":"2022-03-09T12:00:00Z"}"#;
    assert_eq!(Transaction::from_bytes(text.as_bytes()), None);
}

#[test]
fn values_and_fees_of_a_transaction() {
    let now = Timestamp::epoch();
    let parent = Transaction::Normal(NormalTransaction::new(
        vec![],
        vec![
            TransactionOutput::new("a".to_string(), 4),
            TransactionOutput::new("b".to_string(), 5),
        ],
        now,
    ));
    let input = TransactionInput::new(parent.clone(), 1);
    assert_eq!(input.get_value(), 5);
    assert_eq!(input.get_recipient(), "b".to_string());
    assert_eq!(input.get_transaction(), &parent);
    let tx = NormalTransaction::new(
        vec![
            TransactionInput::new(parent.clone(), 0),
            TransactionInput::new(parent.clone(), 1),
        ],
        vec![TransactionOutput::new("c".to_string(), 7)],
        now,
    );
    assert!(tx.is_well_formed());
    assert_eq!(tx.get_input_value(), 9);
    assert_eq!(tx.get_output_value(), 7);
    assert_eq!(tx.get_input(1), Some(TransactionInput::new(parent.clone(), 1)));
    assert_eq!(tx.get_input(2), None);
    assert_eq!(tx.get_output(0), Some(TransactionOutput::new("c".to_string(), 7)));
    assert_eq!(tx.get_output(1), None);
    assert_eq!(tx.get_inputs().len(), 2);
    assert_eq!(tx.get_outputs(), vec![TransactionOutput::new("c".to_string(), 7)]);
    let coinbase = Transaction::Coinbase(CoinbaseTransaction::new("m".to_string(), 3, now));
    assert_eq!(coinbase.get_output(0), Some(TransactionOutput::new("m".to_string(), 3)));
    assert_eq!(coinbase.get_output(1), None);
    assert_eq!(coinbase.get_outputs(), vec![TransactionOutput::new("m".to_string(), 3)]);
    assert_eq!(coinbase.get_input(0), None);
    assert_eq!(coinbase.get_inputs(), vec![]);
    assert_eq!(Transaction::Normal(tx.clone()).get_inputs(), tx.get_inputs());
}

#[test]
fn transactions_that_differ_only_in_time_are_distinct() {
    let a = Timestamp::parse_rfc3339("2022-03-09T12:00:00Z").unwrap();
    let b = Timestamp::parse_rfc3339("2022-03-09T12:00:00.000000001Z").unwrap();
    let first = NormalTransaction::new(vec![], vec![TransactionOutput::new("a".to_string(), 1)], a);
    let second = NormalTransaction::new(vec![], vec![TransactionOutput::new("a".to_string(), 1)], b);
    assert_ne!(first, second);
    assert_eq!(first, first.clone());
}

#[test]
fn well_formedness_is_decided() {
    let now = Timestamp::epoch();
    let coinbase = Transaction::Coinbase(CoinbaseTransaction::new("m".to_string(), 3, now));
    assert!(coinbase.is_well_formed());
    let out_of_range = NormalTransaction::new(
        vec![TransactionInput::new(coinbase.clone(), 1)],
        vec![],
        now,
    );
    assert!(!out_of_range.is_well_formed());
    let too_much = NormalTransaction::new(
        vec![],
        vec![
            TransactionOutput::new("a".to_string(), u64::MAX),
            TransactionOutput::new("a".to_string(), 1),
        ],
        now,
    );
    assert!(!too_much.is_well_formed());
    let bad_time = Transaction::Coinbase(CoinbaseTransaction::new(
        "m".to_string(),
        3,
        Timestamp { year: 2022, month: 2, day: 30, hour: 0, minute: 0, second: 0, nanos: 0 },
    ));
    assert!(!bad_time.is_well_formed());
}

#[test]
fn the_signer_is_the_recipient_of_the_first_input() {
    let now = Timestamp::epoch();
    let coinbase = Transaction::Coinbase(CoinbaseTransaction::new("0a1b".to_string(), 3, now));
    let tx = NormalTransaction::new(vec![TransactionInput::new(coinbase, 0)], vec![], now);
    assert_eq!(tx.get_input_pubkey(), Some(vec![0x0a, 0x1b]));
    let named = Transaction::Coinbase(CoinbaseTransaction::new("alice".to_string(), 3, now));
    let tx = NormalTransaction::new(vec![TransactionInput::new(named, 0)], vec![], now);
    assert_eq!(tx.get_input_pubkey(), None);
    let tx = NormalTransaction::new(vec![], vec![], now);
    assert_eq!(tx.get_input_pubkey(), None);
}
