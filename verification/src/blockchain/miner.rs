//! The making of blocks, in three steps: what is to be mined is read off
//! the pool and the chain; the block is built and mined, which takes long
//! and touches neither; and the block is appended if the chain has not
//! moved on meanwhile.

use vstd::prelude::*;
use crate::blockchain::block::{
    Block, BlockError, BlockHash, BlockWithoutProof, UnminedModel, ends_with_zeros,
};
use crate::blockchain::manager::{BlockchainManager, tip_hash};
use crate::blockchain::transaction::{
    Address, CoinbaseModel, CoinbaseTransaction, NormalModel, NormalTransaction, Transactions,
    TransactionsModel, lemma_well_formed_body_is_dated, normal_models, total_fee,
};
use crate::blockchain::transaction_pool::{COINBASE_INCENTIVE, TransactionPool};
use crate::message::{ApplicationPayload, ApplicationPayloadModel};
use crate::timestamp::Timestamp;

verus! {

/// What a block is to be made of.
pub struct BlockTemplate {
    pub transactions: Vec<NormalTransaction>,
    pub coinbase_value: u64,
    pub difficulty: usize,
    pub prev_block_hash: BlockHash,
    pub miner: Address,
}

/// Whether the fees of the pool and the incentive together are an amount
/// that a coinbase can pay.
pub open spec fn payable(pool: Seq<NormalModel>) -> bool {
    0 <= total_fee(pool) && total_fee(pool) + COINBASE_INCENTIVE <= u64::MAX
}

/// Reads off the pool and the chain what the next block is to be made of:
/// all that waits in the pool, for a coinbase that pays `miner` the fees
/// and the incentive, behind the tip of the chain. Nothing is read off
/// where the fees and the incentive are no amount that a coinbase can pay.
pub fn prepare_block(pool: &TransactionPool, chain: &BlockchainManager, miner: Address) -> (r:
    Option<BlockTemplate>)
    requires
        pool.well_formed(),
        chain.well_formed(),
    ensures
        r is Some == payable(pool@),
        r matches Some(t) ==> {
            &&& normal_models(t.transactions@) == pool@
            &&& t.coinbase_value == total_fee(pool@) + COINBASE_INCENTIVE
            &&& t.difficulty == chain.difficulty()
            &&& t.prev_block_hash@ == tip_hash(chain.chain())
            &&& t.miner@ == miner@
        },
{
    let fee = match pool.calc_total_fee() {
        Some(fee) => fee,
        None => {
            return None;
        },
    };
    if fee > u64::MAX - COINBASE_INCENTIVE {
        return None;
    }
    Some(
        BlockTemplate {
            transactions: pool.get_transactions(),
            coinbase_value: fee + COINBASE_INCENTIVE,
            difficulty: chain.get_difficulty(),
            prev_block_hash: chain.get_last_block_hash(),
            miner,
        },
    )
}

/// The block that `template` describes, stamped `block_time`, with a
/// coinbase stamped `coinbase_time`.
pub open spec fn block_of(
    template: BlockTemplate,
    coinbase_time: Timestamp,
    block_time: Timestamp,
) -> UnminedModel {
    UnminedModel {
        timestamp: block_time,
        transactions: TransactionsModel {
            coinbase: CoinbaseModel {
                recipient: template.miner@,
                value: template.coinbase_value,
                timestamp: coinbase_time,
            },
            normals: normal_models(template.transactions@),
        },
        prev_block_hash: template.prev_block_hash@,
    }
}

/// Whether `r` is what mining `unmined` at `difficulty` gives: the block
/// with the first nonce with which it meets the difficulty, or no proof
/// where no nonce will do.
pub open spec fn mined(
    unmined: UnminedModel,
    difficulty: nat,
    r: Result<Block, BlockError>,
) -> bool {
    match r {
        Ok(block) => {
            &&& block@.inner == unmined
            &&& block@.meets(difficulty)
            &&& forall|n: u64|
                n < block@.nonce ==> !ends_with_zeros(
                    #[trigger] unmined.hash_with(n),
                    difficulty,
                )
        },
        Err(e) => {
            &&& e == BlockError::NoProof
            &&& forall|n: u64| !ends_with_zeros(#[trigger] unmined.hash_with(n), difficulty)
        },
    }
}

/// Builds the block that `template` describes.
pub fn build_block(template: BlockTemplate, coinbase_time: Timestamp, block_time: Timestamp) -> (r:
    BlockWithoutProof)
    ensures
        r@ == block_of(template, coinbase_time, block_time),
{
    let coinbase = CoinbaseTransaction::new(
        template.miner,
        template.coinbase_value,
        coinbase_time,
    );
    let transactions = Transactions::new(coinbase, template.transactions);
    BlockWithoutProof::with_timestamp(block_time, transactions, template.prev_block_hash)
}

/// Builds the block that `template` describes, stamped with the present
/// moment, and mines it: what comes out is what mining that block gives,
/// whatever the moment was.
pub fn mine_block(template: BlockTemplate) -> (r: Result<Block, BlockError>)
    requires
        forall|i: int|
            0 <= i < template.transactions.len() ==> (
            #[trigger] template.transactions@[i]@).well_formed(),
    ensures
        exists|coinbase_time: Timestamp, block_time: Timestamp|
            {
                &&& coinbase_time.valid()
                &&& block_time.valid()
                &&& #[trigger] mined(
                    block_of(template, coinbase_time, block_time),
                    template.difficulty as nat,
                    r,
                )
            },
        r matches Ok(block) ==> block@.well_formed(),
{
    let difficulty = template.difficulty;
    let ghost normals = normal_models(template.transactions@);
    proof {
        assert forall|i: int| 0 <= i < normals.len() implies (#[trigger] normals[i]).well_formed() by {
            assert(template.transactions@[i]@.well_formed());
        }
    }
    let coinbase_time = Timestamp::now();
    let block_time = Timestamp::now();
    let unmined = build_block(template, coinbase_time, block_time);
    proof {
        lemma_well_formed_body_is_dated(unmined@.transactions);
    }
    let r = unmined.mine(difficulty);
    proof {
        assert(mined(block_of(template, coinbase_time, block_time), difficulty as nat, r));
    }
    r
}

/// Appends the block that was mined, unless the chain has moved on since
/// the block was prepared: then nothing is changed. With the block the
/// first `count` transactions leave the pool, which are those that went
/// into the block; what came in later stays. What is handed out is to be
/// announced to the core nodes.
pub fn commit_block(
    chain: &mut BlockchainManager,
    pool: &mut TransactionPool,
    block: Block,
    count: usize,
) -> (r: Option<ApplicationPayload>)
    requires
        old(chain).well_formed(),
        old(pool).well_formed(),
        block@.well_formed(),
    ensures
        final(chain).well_formed(),
        final(pool).well_formed(),
        final(chain).difficulty() == old(chain).difficulty(),
        block@.inner.prev_block_hash != tip_hash(old(chain).chain()) ==> {
            &&& r is None
            &&& final(chain).chain() == old(chain).chain()
            &&& final(pool)@ == old(pool)@
        },
        block@.inner.prev_block_hash == tip_hash(old(chain).chain()) ==> {
            &&& r matches Some(payload) && payload@ == (ApplicationPayloadModel::NewBlock {
                block: block@,
            })
            &&& final(chain).chain() == old(chain).chain().push(block@)
            &&& final(pool)@ == old(pool)@.skip(
                if count <= old(pool)@.len() {
                    count as int
                } else {
                    old(pool)@.len() as int
                },
            )
        },
{
    let tip = chain.get_last_block_hash();
    if block.get_prev_block_hash() != tip {
        return None;
    }
    chain.add_new_block(block.duplicate());
    let waiting: usize = pool.len();
    let taken: usize = if count <= waiting {
        count
    } else {
        waiting
    };
    let ghost before = pool@;
    pool.remove_transactions(0, taken);
    proof {
        assert(pool@ =~= before.skip(taken as int));
    }
    Some(ApplicationPayload::NewBlock { block })
}

} // verus!
