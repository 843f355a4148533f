use rand::rngs::OsRng;
use simple_bitcoin::blockchain::block::{Block, BlockError, BlockHash, BlockWithoutProof};
use simple_bitcoin::blockchain::manager::{
    is_valid_chain, BlockchainManager, ChainError, TransactionError,
};
use simple_bitcoin::blockchain::transaction::{
    CoinbaseTransaction, NormalTransaction, Transaction, TransactionInput, TransactionOutput,
    Transactions,
};
use simple_bitcoin::blockchain::transaction_pool::TransactionPool;
use simple_bitcoin::blockchain::utxo::UTXOManager;
use simple_bitcoin::key_manager::KeyManager;
use simple_bitcoin::timestamp::Timestamp;

/// A key pair of which only the address matters. Making a pair of 2048
/// bits takes seconds, so a test makes one of those and lets the others be
/// pairs of 512 bits.
struct SmallKeyPair {
    private_key: rsa::RsaPrivateKey,
}

impl SmallKeyPair {
    fn new(rng: OsRng) -> SmallKeyPair {
        let mut rng = rng;
        SmallKeyPair { private_key: rsa::RsaPrivateKey::new(&mut rng, 512).unwrap() }
    }

    fn get_address(&self) -> String {
        let public_key = rsa::RsaPublicKey::from(&self.private_key);
        let der = rsa::pkcs1::ToRsaPublicKey::to_pkcs1_der(&public_key).unwrap();
        simple_bitcoin::util::bytes_to_hex(der.as_der())
    }
}

fn generate_block(
    transactions: Vec<NormalTransaction>,
    prev_block_hash: BlockHash,
    difficulty: usize,
) -> Block {
    let coinbase = CoinbaseTransaction::new("recipient1".to_string(), 10, Timestamp::now());
    BlockWithoutProof::new(Transactions::new(coinbase, transactions), prev_block_hash)
        .mine(difficulty)
        .unwrap()
}

fn chain_of_three() -> (NormalTransaction, NormalTransaction, NormalTransaction) {
    let base = Transaction::Coinbase(CoinbaseTransaction::new(
        "alice".to_string(),
        10,
        Timestamp::now(),
    ));

    let trans1 = NormalTransaction::new(
        vec![TransactionInput::new(base, 0)],
        vec![TransactionOutput::new("recipient1".to_string(), 1)],
        Timestamp::now(),
    );

    let trans2 = NormalTransaction::new(
        vec![TransactionInput::new(
            Transaction::Normal(trans1.clone()),
            0,
        )],
        vec![TransactionOutput::new("recipient1".to_string(), 1)],
        Timestamp::now(),
    );

    let trans3 = NormalTransaction::new(
        vec![TransactionInput::new(
            Transaction::Normal(trans2.clone()),
            0,
        )],
        vec![TransactionOutput::new("recipient1".to_string(), 1)],
        Timestamp::now(),
    );
    (trans1, trans2, trans3)
}

#[test]
fn test_remove_useless_transactions() {
    // setup
    let mut pool = TransactionPool::new();
    let mut manager = BlockchainManager::new(1);

    let (trans1, trans2, _) = chain_of_three();

    let block = generate_block(
        vec![trans1.clone()],
        manager.get_last_block_hash(),
        manager.get_difficulty(),
    );
    manager.add_new_block(block);

    pool.add_new_transaction(trans1.clone());
    pool.add_new_transaction(trans2.clone());

    // exercise
    manager.remove_useless_transactions(&mut pool);

    // verify
    assert_eq!(pool.get_transactions(), vec![trans2]);
}

#[test]
fn test_resolve_conflicts_longer_than_mine() {
    // setup
    let mut manager = BlockchainManager::new(1);

    let (trans1, trans2, trans3) = chain_of_three();

    // manager contains only block1 and block2
    let block1 = generate_block(
        vec![trans1.clone()],
        manager.get_last_block_hash(),
        manager.get_difficulty(),
    );
    manager.add_new_block(block1.clone());

    let block2 = generate_block(
        vec![trans2.clone(), trans3.clone()],
        manager.get_last_block_hash(),
        manager.get_difficulty(),
    );
    manager.add_new_block(block2.clone());

    let block3 = generate_block(
        vec![trans3.clone()],
        block1.calculate_hash(),
        manager.get_difficulty(),
    );

    let block4 = generate_block(
        vec![trans3.clone()],
        block3.calculate_hash(),
        manager.get_difficulty(),
    );

    // exercise
    let other_chain = vec![block1, block3, block4];
    let res = manager.resolve_conflicts(other_chain.clone());

    // verify
    assert_eq!(res, vec![trans2]);
    assert_eq!(manager.get_chain(), other_chain);
}

#[test]
fn test_resolve_conflicts_shorter_than_mine() {
    // setup
    let mut manager = BlockchainManager::new(1);

    let (trans1, trans2, trans3) = chain_of_three();

    let block1 = generate_block(
        vec![trans1.clone()],
        manager.get_last_block_hash(),
        manager.get_difficulty(),
    );
    manager.add_new_block(block1.clone());

    let block2 = generate_block(
        vec![trans2.clone(), trans3.clone()],
        manager.get_last_block_hash(),
        manager.get_difficulty(),
    );
    manager.add_new_block(block2.clone());

    // exercise
    let other_chain = vec![block1.clone()];
    let res = manager.resolve_conflicts(other_chain);

    // verify
    assert_eq!(res.len(), 0);
    assert_eq!(manager.get_chain(), vec![block1, block2]);
}

#[test]
fn test_is_valid_transaction_returns_ok() {
    // setup
    let rng = OsRng;
    let km1 = KeyManager::new(rng.clone()).unwrap();
    let km2 = SmallKeyPair::new(rng);
    let mut um1 = UTXOManager::new(km1.get_address());
    let mut bm = BlockchainManager::new(1);

    // block1
    let tx1 = CoinbaseTransaction::new(km1.get_address(), 20, Timestamp::now());
    let block1 = BlockWithoutProof::new(
        Transactions::new(tx1.clone(), vec![]),
        bm.get_last_block_hash(),
    )
    .mine(bm.get_difficulty())
    .unwrap();
    bm.add_new_block(block1.clone());
    um1.refresh_utxos(&bm.get_transactions()).unwrap();

    // block2
    let tx2 = CoinbaseTransaction::new(km1.get_address(), 10, Timestamp::now());
    let tx3 = um1.create_transaction_for(km2.get_address(), 5, 1).unwrap();
    let block2 = BlockWithoutProof::new(
        Transactions::new(tx2.clone(), vec![tx3.clone()]),
        bm.get_last_block_hash(),
    )
    .mine(bm.get_difficulty())
    .unwrap();
    bm.add_new_block(block2.clone());
    um1.refresh_utxos(&bm.get_transactions()).unwrap();

    assert!(is_valid_chain(bm.get_genesis_block_hash(), &bm.get_chain()));

    // exercise and verify
    let new_tx = NormalTransaction::new(
        vec![TransactionInput::new(Transaction::Normal(tx3.clone()), 0)],
        vec![TransactionOutput::new(km1.get_address(), 4)],
        Timestamp::now(),
    );
    assert!(bm.is_valid_transaction(&new_tx).is_ok());
}

#[test]
fn test_is_valid_transaction_returns_err() {
    // setup
    let rng = OsRng;
    let km1 = KeyManager::new(rng.clone()).unwrap();
    let km2 = SmallKeyPair::new(rng);
    let km3 = SmallKeyPair::new(rng);
    let mut um1 = UTXOManager::new(km1.get_address());
    let mut bm = BlockchainManager::new(1);

    // block1
    let tx1 = CoinbaseTransaction::new(km1.get_address(), 20, Timestamp::now());
    let block1 = BlockWithoutProof::new(
        Transactions::new(tx1.clone(), vec![]),
        bm.get_last_block_hash(),
    )
    .mine(bm.get_difficulty())
    .unwrap();
    bm.add_new_block(block1.clone());
    um1.refresh_utxos(&bm.get_transactions()).unwrap();

    // block2
    let tx2 = CoinbaseTransaction::new(km1.get_address(), 10, Timestamp::now());
    let tx3 = um1.create_transaction_for(km2.get_address(), 5, 1).unwrap();
    let block2 = BlockWithoutProof::new(
        Transactions::new(tx2.clone(), vec![tx3]),
        bm.get_last_block_hash(),
    )
    .mine(bm.get_difficulty())
    .unwrap();
    bm.add_new_block(block2.clone());
    um1.refresh_utxos(&bm.get_transactions()).unwrap();

    assert!(is_valid_chain(bm.get_genesis_block_hash(), &bm.get_chain()));

    // exercise and verify with unknown transaction
    let new_tx = NormalTransaction::new(
        vec![TransactionInput::new(
            Transaction::Coinbase(CoinbaseTransaction::new(
                km3.get_address(),
                10,
                Timestamp::now(),
            )),
            0,
        )],
        vec![TransactionOutput::new(km1.get_address(), 4)],
        Timestamp::now(),
    );
    assert!(bm.is_valid_transaction(&new_tx).is_err());
    assert_eq!(bm.is_valid_transaction(&new_tx), Err(TransactionError::UnknownInput));

    // exercise and verify with used transaction
    let new_tx = NormalTransaction::new(
        vec![TransactionInput::new(Transaction::Coinbase(tx1.clone()), 0)],
        vec![TransactionOutput::new(km1.get_address(), 4)],
        Timestamp::now(),
    );
    assert!(bm.is_valid_transaction(&new_tx).is_err());
    assert_eq!(bm.is_valid_transaction(&new_tx), Err(TransactionError::DoubleSpend));
}

fn at(second: u8) -> Timestamp {
    Timestamp { year: 2022, month: 3, day: 9, hour: 12, minute: 0, second, nanos: 0 }
}

/// A block over `transactions` whose coinbase pays `value` to `miner`.
fn block_on(
    manager: &BlockchainManager,
    miner: &str,
    value: u64,
    transactions: Vec<NormalTransaction>,
    second: u8,
) -> Block {
    let coinbase = CoinbaseTransaction::new(miner.to_string(), value, at(second));
    BlockWithoutProof::with_timestamp(
        at(second),
        Transactions::new(coinbase, transactions),
        manager.get_last_block_hash(),
    )
    .mine(manager.get_difficulty())
    .unwrap()
}

#[test]
fn the_genesis_hash_is_the_digest_of_the_genesis_message() {
    let manager = BlockchainManager::new(3);
    assert_eq!(
        manager.get_genesis_block_hash(),
        "ad9b477b42b22cdf18b1335603d07378ace83561d8398fbfc8de94196c65d806"
    );
    assert_eq!(manager.get_last_block_hash(), manager.get_genesis_block_hash());
    assert_eq!(manager.get_difficulty(), 3);
    assert_eq!(manager.get_chain(), vec![]);
    assert_eq!(manager.get_transactions(), vec![]);
    assert_eq!(manager.len(), 0);
}

#[test]
fn a_block_is_refused_for_the_first_rule_that_it_breaks() {
    let mut manager = BlockchainManager::new(1);
    let good = block_on(&manager, "m", 10, vec![], 0);
    assert_eq!(manager.is_valid_block(&good), Ok(()));

    let coinbase = CoinbaseTransaction::new("m".to_string(), 11, at(0));
    let unlinked = BlockWithoutProof::with_timestamp(
        at(0),
        Transactions::new(coinbase, vec![]),
        "no such block".to_string(),
    )
    .mine(0)
    .unwrap();
    assert_eq!(manager.is_valid_block(&unlinked), Err(BlockError::BadPrevHash));

    let mut weak = good.clone();
    while weak.calculate_hash().ends_with('0') {
        weak.nonce += 1;
    }
    assert_eq!(manager.is_valid_block(&weak), Err(BlockError::BadDifficulty));

    let greedy = block_on(&manager, "m", 11, vec![], 0);
    assert_eq!(manager.is_valid_block(&greedy), Err(BlockError::BadCoinbaseValue));

    manager.add_new_block(good.clone());
    assert_eq!(manager.get_last_block_hash(), good.calculate_hash());
    assert_eq!(manager.is_valid_block(&good), Err(BlockError::BadPrevHash));
    assert_eq!(manager.len(), 1);
}

#[test]
fn a_chain_grown_by_accepted_blocks_is_linked_and_meets_the_difficulty() {
    let mut manager = BlockchainManager::new(1);
    for second in 0..4 {
        let block = block_on(&manager, "m", 10, vec![], second);
        assert_eq!(manager.is_valid_block(&block), Ok(()));
        manager.add_new_block(block);
    }
    let chain = manager.get_chain();
    assert!(is_valid_chain(manager.get_genesis_block_hash(), &chain));
    let mut prev = manager.get_genesis_block_hash();
    for block in chain.iter() {
        assert_eq!(block.get_prev_block_hash(), prev);
        assert!(block.calculate_hash().ends_with('0'));
        assert_eq!(block.get_coinbase_transaction().get_value(), 10);
        prev = block.calculate_hash();
    }
    // A chain that begins elsewhere is not linked from the genesis hash.
    assert!(!is_valid_chain(manager.get_genesis_block_hash(), &chain[1..].to_vec()));
    assert!(is_valid_chain(chain[0].calculate_hash(), &chain[1..].to_vec()));
}

#[test]
fn a_longer_chain_that_is_not_linked_is_not_taken() {
    let mut manager = BlockchainManager::new(0);
    let block1 = block_on(&manager, "m", 10, vec![], 0);
    manager.add_new_block(block1.clone());
    let local = manager.get_chain();

    let mut other = BlockchainManager::new(0);
    other.add_new_block(block1.clone());
    let block2 = block_on(&other, "m", 10, vec![], 1);
    other.add_new_block(block2.clone());
    // The second block comes first: nothing links.
    assert_eq!(
        manager.judge_chain(&vec![block2.clone(), block1.clone()]),
        Err(ChainError::InvalidChain)
    );
    assert_eq!(manager.judge_chain(&vec![block1.clone()]), Err(ChainError::ShorterChain));
    assert_eq!(manager.judge_chain(&vec![]), Err(ChainError::ShorterChain));
    assert_eq!(manager.judge_chain(&vec![block1.clone(), block2.clone()]), Ok(()));
    let res = manager.resolve_conflicts(vec![block2.clone(), block1.clone()]);
    assert_eq!(res, vec![]);
    assert_eq!(manager.get_chain(), local);
    // As long as the chain of this node: not taken either.
    let res = manager.resolve_conflicts(vec![block1.clone()]);
    assert_eq!(res, vec![]);
    assert_eq!(manager.get_chain(), local);
    // Longer and linked: taken; nothing is lost, as the one block stays.
    let res = manager.resolve_conflicts(vec![block1.clone(), block2.clone()]);
    assert_eq!(res, vec![]);
    assert_eq!(manager.get_chain(), vec![block1, block2]);
}

#[test]
fn unknown_inputs_are_found_before_spent_ones() {
    let mut manager = BlockchainManager::new(0);
    let first = CoinbaseTransaction::new("a".to_string(), 10, at(0));
    let block1 = BlockWithoutProof::with_timestamp(
        at(0),
        Transactions::new(first.clone(), vec![]),
        manager.get_last_block_hash(),
    )
    .mine(0)
    .unwrap();
    manager.add_new_block(block1);
    let spend = NormalTransaction::new(
        vec![TransactionInput::new(Transaction::Coinbase(first.clone()), 0)],
        vec![TransactionOutput::new("b".to_string(), 10)],
        at(1),
    );
    assert_eq!(manager.is_valid_transaction(&spend), Ok(()));
    let block2 = block_on(&manager, "a", 10, vec![spend.clone()], 2);
    manager.add_new_block(block2);

    let stranger = Transaction::Coinbase(CoinbaseTransaction::new("z".to_string(), 1, at(3)));
    let both = NormalTransaction::new(
        vec![
            TransactionInput::new(Transaction::Coinbase(first.clone()), 0),
            TransactionInput::new(stranger, 0),
        ],
        vec![],
        at(4),
    );
    assert_eq!(manager.is_valid_transaction(&both), Err(TransactionError::UnknownInput));
    let again = NormalTransaction::new(
        vec![TransactionInput::new(Transaction::Coinbase(first), 0)],
        vec![],
        at(4),
    );
    assert_eq!(manager.is_valid_transaction(&again), Err(TransactionError::DoubleSpend));
    let onward = NormalTransaction::new(
        vec![TransactionInput::new(Transaction::Normal(spend), 0)],
        vec![],
        at(4),
    );
    assert_eq!(manager.is_valid_transaction(&onward), Ok(()));
    let nothing = NormalTransaction::new(vec![], vec![], at(4));
    assert_eq!(manager.is_valid_transaction(&nothing), Ok(()));
    assert_eq!(manager.get_transactions().len(), 3);
}
