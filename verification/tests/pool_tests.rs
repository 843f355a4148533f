use simple_bitcoin::blockchain::block::{BlockError, BlockWithoutProof};
use simple_bitcoin::blockchain::manager::BlockchainManager;
use simple_bitcoin::blockchain::miner::{build_block, commit_block, mine_block, prepare_block};
use simple_bitcoin::blockchain::transaction::{
    CoinbaseTransaction, NormalTransaction, Transaction, TransactionInput, TransactionOutput,
    Transactions,
};
use simple_bitcoin::blockchain::transaction_pool::{TransactionPool, COINBASE_INCENTIVE};
use simple_bitcoin::message::ApplicationPayload;
use simple_bitcoin::timestamp::Timestamp;

fn at(second: u8) -> Timestamp {
    Timestamp { year: 2022, month: 3, day: 9, hour: 12, minute: 0, second, nanos: 0 }
}

fn coin(owner: &str, value: u64, second: u8) -> Transaction {
    Transaction::Coinbase(CoinbaseTransaction::new(owner.to_string(), value, at(second)))
}

/// A transfer that spends a coin of `spent` and makes over `paid`.
fn transfer(spent: u64, paid: u64, second: u8) -> NormalTransaction {
    NormalTransaction::new(
        vec![TransactionInput::new(coin("a", spent, second), 0)],
        vec![TransactionOutput::new("b".to_string(), paid)],
        at(second),
    )
}

#[test]
fn a_transaction_stands_in_the_pool_once() {
    let mut pool = TransactionPool::new();
    let first = transfer(5, 4, 0);
    let second = transfer(5, 4, 1);
    assert!(!pool.has_transaction(&first));
    pool.add_new_transaction(first.clone());
    pool.add_new_transaction(second.clone());
    pool.add_new_transaction(first.clone());
    assert_eq!(pool.get_transactions(), vec![first.clone(), second.clone()]);
    assert_eq!(pool.len(), 2);
    assert!(pool.has_transaction(&first));
    assert!(pool.has_transaction_input(&TransactionInput::new(coin("a", 5, 1), 0)));
    assert!(!pool.has_transaction_input(&TransactionInput::new(coin("a", 5, 1), 1)));
    assert!(!pool.has_transaction_input(&TransactionInput::new(coin("a", 5, 2), 0)));
    pool.remove_transaction(&transfer(5, 4, 2));
    assert_eq!(pool.len(), 2);
    pool.remove_transaction(&first);
    assert_eq!(pool.get_transactions(), vec![second.clone()]);
    assert_eq!(pool.take_transactions(), vec![second]);
    assert_eq!(pool.get_transactions(), vec![]);
    pool.add_new_transaction(first);
    pool.clear_transactions();
    assert_eq!(pool.len(), 0);
}

#[test]
fn transactions_leave_the_pool_by_place_and_by_list() {
    let mut pool = TransactionPool::new();
    let txs: Vec<NormalTransaction> = (0..5).map(|i| transfer(5, 4, i)).collect();
    for tx in txs.iter() {
        pool.add_new_transaction(tx.clone());
    }
    pool.remove_transactions(1, 3);
    assert_eq!(pool.get_transactions(), vec![txs[0].clone(), txs[3].clone(), txs[4].clone()]);
    pool.remove_transactions(0, 0);
    pool.remove_transactions(3, 3);
    assert_eq!(pool.len(), 3);
    pool.remove_all(&vec![txs[4].clone(), txs[1].clone(), txs[0].clone()]);
    assert_eq!(pool.get_transactions(), vec![txs[3].clone()]);
    pool.remove_transactions(0, 1);
    assert_eq!(pool.len(), 0);
}

#[test]
fn the_fees_of_the_pool_are_summed() {
    let mut pool = TransactionPool::new();
    assert_eq!(pool.calc_total_fee(), Some(0));
    pool.add_new_transaction(transfer(5, 4, 0));
    pool.add_new_transaction(transfer(9, 2, 1));
    assert_eq!(pool.calc_total_fee(), Some(8));
    // A transaction that makes over more than it spends takes from the sum.
    pool.add_new_transaction(transfer(1, 8, 2));
    assert_eq!(pool.calc_total_fee(), Some(1));
    pool.add_new_transaction(transfer(0, 2, 3));
    assert_eq!(pool.calc_total_fee(), None);
    pool.add_new_transaction(transfer(u64::MAX, 0, 4));
    assert_eq!(pool.calc_total_fee(), Some(u64::MAX - 1));
    pool.add_new_transaction(transfer(2, 0, 5));
    assert_eq!(pool.calc_total_fee(), None);
    assert_eq!(COINBASE_INCENTIVE, 10);
}

#[test]
fn a_block_is_prepared_mined_and_committed() {
    let mut chain = BlockchainManager::new(1);
    let mut pool = TransactionPool::new();
    pool.add_new_transaction(transfer(5, 4, 0));
    pool.add_new_transaction(transfer(9, 2, 1));

    let template = prepare_block(&pool, &chain, "miner".to_string()).unwrap();
    assert_eq!(template.transactions, pool.get_transactions());
    assert_eq!(template.coinbase_value, 18);
    assert_eq!(template.difficulty, 1);
    assert_eq!(template.prev_block_hash, chain.get_genesis_block_hash());
    assert_eq!(template.miner, "miner");
    let count = template.transactions.len();

    // A transaction comes in while the block is mined.
    let late = transfer(7, 7, 2);
    pool.add_new_transaction(late.clone());

    let block = mine_block(template).unwrap();
    assert!(block.calculate_hash().ends_with('0'));
    assert_eq!(chain.is_valid_block(&block), Ok(()));
    assert_eq!(block.miner(), "miner");

    let announced = commit_block(&mut chain, &mut pool, block.clone(), count);
    assert_eq!(announced, Some(ApplicationPayload::NewBlock { block: block.clone() }));
    assert_eq!(chain.get_chain(), vec![block.clone()]);
    assert_eq!(pool.get_transactions(), vec![late.clone()]);

    // The same block again: the chain has moved on, nothing is changed.
    assert_eq!(commit_block(&mut chain, &mut pool, block.clone(), 1), None);
    assert_eq!(chain.get_chain(), vec![block.clone()]);
    assert_eq!(pool.get_transactions(), vec![late]);

    // More were counted than wait: all that wait leave.
    let template = prepare_block(&pool, &chain, "miner".to_string()).unwrap();
    assert_eq!(template.coinbase_value, 10);
    assert_eq!(template.prev_block_hash, block.calculate_hash());
    let next = mine_block(template).unwrap();
    assert!(commit_block(&mut chain, &mut pool, next, 5).is_some());
    assert_eq!(pool.len(), 0);
    assert_eq!(chain.len(), 2);
}

#[test]
fn nothing_is_prepared_where_the_coinbase_cannot_pay() {
    let chain = BlockchainManager::new(0);
    let mut pool = TransactionPool::new();
    pool.add_new_transaction(transfer(1, 2, 0));
    assert!(prepare_block(&pool, &chain, "m".to_string()).is_none());
    pool.clear_transactions();
    pool.add_new_transaction(transfer(u64::MAX - 9, 0, 1));
    assert!(prepare_block(&pool, &chain, "m".to_string()).is_none());
    pool.clear_transactions();
    pool.add_new_transaction(transfer(u64::MAX - 10, 0, 1));
    let template = prepare_block(&pool, &chain, "m".to_string()).unwrap();
    assert_eq!(template.coinbase_value, u64::MAX);
    let built = build_block(template, at(1), at(2));
    assert_eq!(
        built,
        BlockWithoutProof::with_timestamp(
            at(2),
            Transactions::new(
                CoinbaseTransaction::new("m".to_string(), u64::MAX, at(1)),
                vec![transfer(u64::MAX - 10, 0, 1)]
            ),
            chain.get_genesis_block_hash()
        )
    );
    assert_eq!(built.mine(0).unwrap().is_valid(0), Ok(()));
    assert_ne!(BlockError::NoProof, BlockError::BadDifficulty);
}
