use chrono::{DateTime, Datelike, Duration, Timelike, Utc};
use simple_bitcoin::blockchain::block::{Block, BlockError, BlockWithoutProof};
use simple_bitcoin::blockchain::transaction::{
    CoinbaseTransaction, NormalTransaction, Transaction, TransactionInput, TransactionOutput,
    Transactions,
};
use simple_bitcoin::blockchain::transaction_pool::COINBASE_INCENTIVE;
use simple_bitcoin::timestamp::Timestamp;
use simple_bitcoin::util;
use std::str::FromStr;

fn stamp(moment: DateTime<Utc>) -> Timestamp {
    Timestamp::from_parts(
        moment.year(),
        moment.month(),
        moment.day(),
        moment.hour(),
        moment.minute(),
        moment.second(),
        moment.nanosecond(),
    )
    .unwrap()
}

fn generate_sample(
    incentive: Option<u64>,
) -> (CoinbaseTransaction, NormalTransaction, Transactions) {
    let now: DateTime<Utc> = DateTime::from_str("2022-03-09T12:00:00Z").unwrap();
    let sec = Duration::seconds(1);

    let incentive = incentive.unwrap_or(COINBASE_INCENTIVE + 1);

    let tx1 = CoinbaseTransaction::new("alice".to_string(), incentive, stamp(now + sec * 0));
    let tx2 = NormalTransaction::new(
        vec![TransactionInput::new(
            Transaction::Coinbase(CoinbaseTransaction::new(
                "alice".to_string(),
                10,
                stamp(now + sec * 1),
            )),
            0,
        )],
        vec![TransactionOutput::new("bob".to_string(), 9)],
        Timestamp::now(),
    );
    let txs = Transactions::new(tx1.clone(), vec![tx2.clone()]);
    (tx1, tx2, txs)
}

#[test]
fn test_block_mine() {
    let (_, _, txs) = generate_sample(None);
    let block_without_proof =
        BlockWithoutProof::new(txs, util::sha256("foo".as_bytes(), "123".as_bytes()));

    let difficulty = 2;
    let block = block_without_proof.mine(difficulty).unwrap();
    assert!(block.calculate_hash().ends_with("00"));
    assert!(block.is_valid(difficulty).is_ok())
}

#[test]
fn test_is_valid_returns_false_with_excessive_incentive() {
    let (_, _, txs) = generate_sample(Some(12));
    let block_without_proof =
        BlockWithoutProof::new(txs, util::sha256("foo".as_bytes(), "123".as_bytes()));

    let difficulty = 2;
    let block = block_without_proof.mine(difficulty).unwrap();
    assert!(block.is_valid(difficulty).is_err());
    assert_eq!(block.is_valid(difficulty), Err(BlockError::BadCoinbaseValue));
}

fn fixed_block() -> BlockWithoutProof {
    let at = |text: &str| Timestamp::parse_rfc3339(text).unwrap();
    let coinbase = CoinbaseTransaction::new("alice".to_string(), 11, at("2022-03-09T12:00:00Z"));
    let normal = NormalTransaction::new(
        vec![TransactionInput::new(
            Transaction::Coinbase(CoinbaseTransaction::new(
                "alice".to_string(),
                10,
                at("2022-03-09T12:00:01Z"),
            )),
            0,
        )],
        vec![TransactionOutput::new("bob".to_string(), 9)],
        at("2022-03-09T12:00:02Z"),
    );
    BlockWithoutProof::with_timestamp(
        at("2022-03-09T12:00:03.5Z"),
        Transactions::new(coinbase, vec![normal]),
        util::sha256("foo".as_bytes(), "123".as_bytes()),
    )
}

const FIXED_TEXT: &str = "{\"timestamp\":\"2022-03-09T12:00:03.500Z\",\"transaction\":{\"coinbase\":{\"recipient\":\"alice\",\"value\":11,\"timestamp\":\"2022-03-09T12:00:00Z\"},\"transactions\":[{\"inputs\":[{\"transaction\":{\"tx_type\":\"0\",\"recipient\":\"alice\",\"value\":10,\"timestamp\":\"2022-03-09T12:00:01Z\"},\"index\":0}],\"outputs\":[{\"recipient\":\"bob\",\"value\":9}],\"timestamp\":\"2022-03-09T12:00:02Z\"}]},\"prev_block_hash\":\"02b353bf5358995bc7d193ed1ce9c2eaec2b694b21d2f96232c9d6a0832121d1\"}";

#[test]
fn the_text_that_is_hashed_is_exact() {
    assert_eq!(String::from_utf8(fixed_block().canonical_text()).unwrap(), FIXED_TEXT);
}

#[test]
fn the_hash_is_the_digest_of_the_text_and_the_nonce_highest_byte_first() {
    let block = fixed_block();
    assert_eq!(
        block.calculate_hash(0),
        "b639f7b067f9f963edf2a0a16935663c6cfe79e8695aace89e92f5c5a009f761"
    );
    assert_eq!(
        block.calculate_hash(1),
        "156bfcef775b6e4d867b95e38ce3252be04a82770a4596dd9c6f5824d5146d44"
    );
    assert_eq!(
        block.calculate_hash(258),
        "c4c83eba4787a87c751b5c647163645e932e12b175e80e519c1692c897a33581"
    );
    assert_eq!(
        Block::new(block, 258).calculate_hash(),
        "c4c83eba4787a87c751b5c647163645e932e12b175e80e519c1692c897a33581"
    );
}

#[test]
fn mining_finds_the_first_nonce_that_will_do() {
    let block = fixed_block().mine(2).unwrap();
    assert_eq!(block.nonce, 262);
    assert_eq!(
        block.calculate_hash(),
        "fa6aa50a80acb173b402f06c4fc8de625b2ae6f37ea044d94413fe27b5c57800"
    );
    assert_eq!(block.inner, fixed_block());
    let block = fixed_block().mine(1).unwrap();
    assert_eq!(block.nonce, 3);
    let block = fixed_block().mine(0).unwrap();
    assert_eq!(block.nonce, 0);
}

#[test]
fn zeros_are_counted_at_the_end_of_the_hash() {
    // The hash with nonce 262 ends in two zeros and begins with none.
    let block = Block::new(fixed_block(), 262);
    assert_eq!(block.is_valid(0), Ok(()));
    assert_eq!(block.is_valid(1), Ok(()));
    assert_eq!(block.is_valid(2), Ok(()));
    assert_eq!(block.is_valid(3), Err(BlockError::BadDifficulty));
    assert_eq!(block.is_valid(64), Err(BlockError::BadDifficulty));
    assert_eq!(block.is_valid(65), Err(BlockError::BadDifficulty));
    assert_eq!(block.is_valid(usize::MAX), Err(BlockError::BadDifficulty));
    let block = Block::new(fixed_block(), 0);
    assert_eq!(block.is_valid(1), Err(BlockError::BadDifficulty));
}

#[test]
fn the_hash_is_looked_at_before_the_coinbase() {
    let (_, _, txs) = generate_sample(Some(12));
    let block = Block::new(
        BlockWithoutProof::with_timestamp(Timestamp::epoch(), txs, "00".to_string()),
        0,
    );
    assert_eq!(block.is_valid(64), Err(BlockError::BadDifficulty));
    assert_eq!(block.is_valid(0), Err(BlockError::BadCoinbaseValue));
}

#[test]
fn a_coinbase_may_pay_for_fees_below_zero() {
    let now = Timestamp::epoch();
    // The transaction makes over 4 more than it spends.
    let parent = Transaction::Coinbase(CoinbaseTransaction::new("a".to_string(), 5, now));
    let normal = NormalTransaction::new(
        vec![TransactionInput::new(parent, 0)],
        vec![TransactionOutput::new("b".to_string(), 9)],
        now,
    );
    let body = Transactions::new(CoinbaseTransaction::new("m".to_string(), 6, now), vec![normal]);
    let block = Block::new(BlockWithoutProof::with_timestamp(now, body, String::new()), 0);
    assert_eq!(block.is_valid(0), Ok(()));
}

#[test]
fn block_round_trips_through_its_text() {
    let block = fixed_block().mine(1).unwrap();
    let text = block.to_bytes();
    let mut expected = FIXED_TEXT.to_string();
    expected.pop();
    expected.push_str(",\"nonce\":3}");
    assert_eq!(String::from_utf8(text.clone()).unwrap(), expected);
    assert_eq!(Block::from_bytes(&text), Some(block.clone()));
    assert_eq!(block.miner(), "alice".to_string());
    assert_eq!(block.get_prev_block_hash(), util::sha256(b"foo", b"123"));
    assert_eq!(block.get_transactions().len(), 2);
    assert_eq!(block.get_normal_transactions().len(), 1);
    assert_eq!(block.get_coinbase_transaction().get_value(), 11);
    assert_eq!(block.get_transaction_at(2), None);
    assert!(block.is_well_formed());
}
