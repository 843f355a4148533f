//! The chain: an ordered list of blocks, each of which names the hash of the
//! block before it, the first naming the genesis hash.

use vstd::prelude::*;
use vstd::string::*;
use vstd::utf8::*;
use crate::blockchain::block::{
    Block, BlockError, BlockHash, BlockModel, block_models, lemma_well_formed_block_is_dated,
};
use crate::blockchain::block_decode::blocks_are_well_formed;
use crate::blockchain::transaction::{
    InputModel, NormalModel, NormalTransaction, Transaction, TransactionInput, TransactionModel,
    input_models, lemma_normal_view, normal_models, transaction_models,
};
use crate::blockchain::transaction_pool::TransactionPool;
use crate::structure::{
    Structure, lemma_views_concat, list_contains, list_duplicate, list_without, not_among,
};
use crate::util::{hex_of_bytes, sha256, sha256_of};

verus! {

/// Why a transaction is refused.
#[derive(Clone, Copy, Debug, PartialEq, Eq, Structural)]
pub enum TransactionError {
    /// The signature is not one of the signer over the transaction.
    SignatureInvalid,
    /// An input refers to a transaction that is not in the chain.
    UnknownInput,
    /// An input is spent in the chain already.
    DoubleSpend,
    /// An input is spent by a transaction that waits in the pool.
    AlreadyInPool,
}

/// Why a chain that came in does not take the place of the chain.
#[derive(Clone, Copy, Debug, PartialEq, Eq, Structural)]
pub enum ChainError {
    /// The chain is no longer than the chain of this node.
    ShorterChain,
    /// Some block of the chain does not name the hash of the block before
    /// it, or the first does not name the genesis hash.
    InvalidChain,
}

/// The text whose digest stands for the block before the first.
pub open spec fn genesis_message() -> Seq<u8> {
    encode_utf8("{\"message\":\"this_is_simple_bitcoin_genesis_block\"}"@)
}

/// The hash that the first block of a chain names.
pub open spec fn genesis_hash() -> Seq<char> {
    hex_of_bytes(sha256_of(genesis_message()))
}

/// The hash that the block at place `i` has to name: the hash of the block
/// before it, or `first` at the first place.
pub open spec fn hash_before(first: Seq<char>, chain: Seq<BlockModel>, i: int) -> Seq<char> {
    if i <= 0 {
        first
    } else {
        chain[i - 1].hash()
    }
}

/// The hash that the next block has to name, where `first` is what the
/// first block names.
pub open spec fn tip_hash_from(first: Seq<char>, chain: Seq<BlockModel>) -> Seq<char> {
    hash_before(first, chain, chain.len() as int)
}

/// The hash of the last block, or the genesis hash of an empty chain.
pub open spec fn tip_hash(chain: Seq<BlockModel>) -> Seq<char> {
    tip_hash_from(genesis_hash(), chain)
}

/// Every block names the hash of the block before it, and the first names
/// `first`.
pub open spec fn linked_from(first: Seq<char>, chain: Seq<BlockModel>) -> bool {
    forall|i: int|
        0 <= i < chain.len() ==> (#[trigger] chain[i]).inner.prev_block_hash == hash_before(
            first,
            chain,
            i,
        )
}

/// Every block names the hash of the block before it, and the first names
/// the genesis hash.
pub open spec fn linked(chain: Seq<BlockModel>) -> bool {
    linked_from(genesis_hash(), chain)
}

/// The hash of every block ends in `difficulty` zeros.
pub open spec fn all_meet(chain: Seq<BlockModel>, difficulty: nat) -> bool {
    forall|i: int| 0 <= i < chain.len() ==> (#[trigger] chain[i]).meets(difficulty)
}

/// The coinbase of every block pays the block's fees and the incentive.
pub open spec fn all_pay_fees(chain: Seq<BlockModel>) -> bool {
    forall|i: int| 0 <= i < chain.len() ==> (#[trigger] chain[i]).coinbase_pays_fees()
}

/// Every block of the chain is well formed.
pub open spec fn chain_well_formed(chain: Seq<BlockModel>) -> bool {
    forall|i: int| 0 <= i < chain.len() ==> (#[trigger] chain[i]).well_formed()
}

/// Every block of the chain is dated.
pub open spec fn chain_dated(chain: Seq<BlockModel>) -> bool {
    forall|i: int| 0 <= i < chain.len() ==> (#[trigger] chain[i]).dated()
}

/// Whether `block` may follow `chain` at `difficulty`: it names the tip, its
/// hash ends in enough zeros, and its coinbase pays the fees and the
/// incentive.
pub open spec fn accepts(chain: Seq<BlockModel>, difficulty: nat, block: BlockModel) -> bool {
    &&& block.inner.prev_block_hash == tip_hash(chain)
    &&& block.meets(difficulty)
    &&& block.coinbase_pays_fees()
}

/// Each block was accepted by the blocks before it.
pub open spec fn grown_by_accepted_blocks(chain: Seq<BlockModel>, difficulty: nat) -> bool {
    forall|k: int|
        0 <= k < chain.len() ==> accepts(chain.take(k), difficulty, #[trigger] chain[k])
}

/// The transactions of the first `k` blocks, coinbases included.
pub open spec fn transactions_upto(chain: Seq<BlockModel>, k: int) -> Seq<TransactionModel>
    decreases k,
{
    if k <= 0 {
        Seq::empty()
    } else {
        transactions_upto(chain, k - 1) + chain[k - 1].inner.transactions.all()
    }
}

/// All the transactions of the chain in their order, coinbases included.
pub open spec fn chain_transactions(chain: Seq<BlockModel>) -> Seq<TransactionModel> {
    transactions_upto(chain, chain.len() as int)
}

/// The normal transactions of the first `k` blocks.
pub open spec fn normals_upto(chain: Seq<BlockModel>, k: int) -> Seq<NormalModel>
    decreases k,
{
    if k <= 0 {
        Seq::empty()
    } else {
        normals_upto(chain, k - 1) + chain[k - 1].inner.transactions.normals
    }
}

/// All the normal transactions of the chain in their order.
pub open spec fn chain_normals(chain: Seq<BlockModel>) -> Seq<NormalModel> {
    normals_upto(chain, chain.len() as int)
}

/// The inputs of the first `k` transactions.
pub open spec fn inputs_upto(transactions: Seq<TransactionModel>, k: int) -> Seq<InputModel>
    decreases k,
{
    if k <= 0 {
        Seq::empty()
    } else {
        inputs_upto(transactions, k - 1) + transactions[k - 1].inputs()
    }
}

/// All the inputs of the transactions in their order.
pub open spec fn all_inputs(transactions: Seq<TransactionModel>) -> Seq<InputModel> {
    inputs_upto(transactions, transactions.len() as int)
}

/// Some input of `tx` refers to a transaction that is not in the chain.
pub open spec fn has_unknown_input(chain: Seq<BlockModel>, tx: NormalModel) -> bool {
    exists|i: int|
        0 <= i < tx.inputs.len() && !chain_transactions(chain).contains(
            (#[trigger] tx.inputs[i]).transaction,
        )
}

/// Some input of `tx` is an input of a transaction in the chain.
pub open spec fn has_spent_input(chain: Seq<BlockModel>, tx: NormalModel) -> bool {
    exists|i: int|
        0 <= i < tx.inputs.len() && all_inputs(chain_transactions(chain)).contains(
            #[trigger] tx.inputs[i],
        )
}

/// The blocks of `local` that are not in `other`.
pub open spec fn orphan_blocks(local: Seq<BlockModel>, other: Seq<BlockModel>) -> Seq<BlockModel> {
    local.filter(not_among(other))
}

/// The normal transactions of the blocks that `other` leaves out, less
/// those that `other` holds.
pub open spec fn orphan_transactions(local: Seq<BlockModel>, other: Seq<BlockModel>) -> Seq<
    NormalModel,
> {
    chain_normals(orphan_blocks(local, other)).filter(not_among(chain_normals(other)))
}

/// Whether `other` takes the place of `local`: it is longer and linked from
/// the genesis hash.
pub open spec fn supersedes(local: Seq<BlockModel>, other: Seq<BlockModel>) -> bool {
    other.len() > local.len() && linked(other)
}

/// The chain of a node and the difficulty at which it mines.
pub struct BlockchainManager {
    chain: Vec<Block>,
    difficulty: usize,
}

/// All the transactions of `blocks` in their order, coinbases included.
pub fn transactions_of_blocks(blocks: &Vec<Block>) -> (r: Vec<Transaction>)
    ensures
        transaction_models(r@) == chain_transactions(block_models(blocks@)),
{
    let ghost chain = block_models(blocks@);
    let mut out: Vec<Transaction> = Vec::new();
    let mut i: usize = 0;
    proof {
        assert(transaction_models(out@) =~= transactions_upto(chain, 0));
    }
    while i < blocks.len()
        invariant
            i <= blocks.len(),
            chain == block_models(blocks@),
            transaction_models(out@) == transactions_upto(chain, i as int),
        decreases blocks.len() - i,
    {
        let ghost before = out@;
        let mut part = blocks[i].get_transactions();
        proof {
            lemma_views_concat(before, part@);
            assert(chain[i as int] == blocks@[i as int]@);
        }
        out.append(&mut part);
        i += 1;
    }
    out
}

/// All the normal transactions of `blocks` in their order.
pub fn normals_of_blocks(blocks: &Vec<Block>) -> (r: Vec<NormalTransaction>)
    ensures
        normal_models(r@) == chain_normals(block_models(blocks@)),
{
    let ghost chain = block_models(blocks@);
    let mut out: Vec<NormalTransaction> = Vec::new();
    let mut i: usize = 0;
    proof {
        assert(normal_models(out@) =~= normals_upto(chain, 0));
    }
    while i < blocks.len()
        invariant
            i <= blocks.len(),
            chain == block_models(blocks@),
            normal_models(out@) == normals_upto(chain, i as int),
        decreases blocks.len() - i,
    {
        let ghost before = out@;
        let mut part = blocks[i].get_normal_transactions();
        proof {
            lemma_views_concat(before, part@);
            assert(chain[i as int] == blocks@[i as int]@);
        }
        out.append(&mut part);
        i += 1;
    }
    out
}

/// All the inputs of `transactions` in their order.
pub fn inputs_of_transactions(transactions: &Vec<Transaction>) -> (r: Vec<TransactionInput>)
    ensures
        input_models(r@) == all_inputs(transaction_models(transactions@)),
{
    let ghost models = transaction_models(transactions@);
    let mut out: Vec<TransactionInput> = Vec::new();
    let mut i: usize = 0;
    proof {
        assert(input_models(out@) =~= inputs_upto(models, 0));
    }
    while i < transactions.len()
        invariant
            i <= transactions.len(),
            models == transaction_models(transactions@),
            input_models(out@) == inputs_upto(models, i as int),
        decreases transactions.len() - i,
    {
        let ghost before = out@;
        let mut part = transactions[i].get_inputs();
        proof {
            lemma_views_concat(before, part@);
            assert(models[i as int] == transactions@[i as int]@);
        }
        out.append(&mut part);
        i += 1;
    }
    out
}

/// Whether every block of `chain` names the hash of the block before it,
/// the first naming `first_hash`.
pub fn is_valid_chain(first_hash: BlockHash, chain: &Vec<Block>) -> (r: bool)
    requires
        chain_well_formed(block_models(chain@)),
    ensures
        r == linked_from(first_hash@, block_models(chain@)),
{
    let ghost models = block_models(chain@);
    let mut prev_block_hash = first_hash;
    let mut i: usize = 0;
    while i < chain.len()
        invariant
            i <= chain.len(),
            models == block_models(chain@),
            chain_well_formed(models),
            prev_block_hash@ == hash_before(first_hash@, models, i as int),
            forall|k: int|
                0 <= k < i ==> (#[trigger] models[k]).inner.prev_block_hash == hash_before(
                    first_hash@,
                    models,
                    k,
                ),
        decreases chain.len() - i,
    {
        proof {
            assert(models[i as int] == chain@[i as int]@);
            assert(models[i as int].well_formed());
            lemma_well_formed_block_is_dated(models[i as int]);
        }
        let named = chain[i].get_prev_block_hash();
        if prev_block_hash != named {
            return false;
        }
        prev_block_hash = chain[i].calculate_hash();
        i += 1;
    }
    true
}

impl BlockchainManager {
    /// The blocks of the chain, the oldest first.
    pub closed spec fn chain(&self) -> Seq<BlockModel> {
        block_models(self.chain@)
    }

    /// The number of zeros in which the hash of a block has to end.
    pub closed spec fn difficulty(&self) -> nat {
        self.difficulty as nat
    }

    /// Every block of the chain is well formed.
    pub open spec fn well_formed(&self) -> bool {
        chain_well_formed(self.chain())
    }

    pub fn new(difficulty: usize) -> (r: BlockchainManager)
        ensures
            r.chain() == Seq::<BlockModel>::empty(),
            r.difficulty() == difficulty,
            r.well_formed(),
    {
        let r = BlockchainManager { chain: Vec::new(), difficulty };
        proof {
            assert(r.chain() =~= Seq::<BlockModel>::empty());
        }
        r
    }

    /// Whether every block of the chain is well formed.
    pub fn is_well_formed(&self) -> (r: bool)
        ensures
            r == self.well_formed(),
    {
        blocks_are_well_formed(&self.chain)
    }

    /// The hash that the next block has to name.
    pub fn get_last_block_hash(&self) -> (r: BlockHash)
        requires
            self.well_formed(),
        ensures
            r@ == tip_hash(self.chain()),
            r@.len() == 64,
    {
        let n: usize = self.chain.len();
        if n == 0 {
            self.get_genesis_block_hash()
        } else {
            proof {
                assert(self.chain()[n - 1] == self.chain@[n - 1]@);
                assert(self.chain()[n - 1].well_formed());
                lemma_well_formed_block_is_dated(self.chain()[n - 1]);
            }
            self.chain[n - 1].calculate_hash()
        }
    }

    pub fn get_genesis_block_hash(&self) -> (r: BlockHash)
        ensures
            r@ == genesis_hash(),
            r@.len() == 64,
    {
        let message: &str = "{\"message\":\"this_is_simple_bitcoin_genesis_block\"}";
        let text: &[u8] = message.as_bytes();
        let empty: Vec<u8> = Vec::new();
        proof {
            assert(text@ + empty@ =~= genesis_message());
        }
        sha256(text, empty.as_slice())
    }

    pub fn get_chain(&self) -> (r: Vec<Block>)
        ensures
            block_models(r@) == self.chain(),
    {
        list_duplicate(&self.chain)
    }

    /// All the transactions of the chain in their order, coinbases included.
    pub fn get_transactions(&self) -> (r: Vec<Transaction>)
        ensures
            transaction_models(r@) == chain_transactions(self.chain()),
    {
        transactions_of_blocks(&self.chain)
    }

    pub fn get_difficulty(&self) -> (r: usize)
        ensures
            r == self.difficulty(),
    {
        self.difficulty
    }

    /// How many blocks the chain has.
    pub fn len(&self) -> (r: usize)
        ensures
            r == self.chain().len(),
    {
        self.chain.len()
    }

    /// Appends the block, which the caller has found valid.
    pub fn add_new_block(&mut self, block: Block)
        ensures
            final(self).chain() == old(self).chain().push(block@),
            final(self).difficulty() == old(self).difficulty(),
            old(self).well_formed() && block@.well_formed() ==> final(self).well_formed(),
    {
        self.chain.push(block);
        proof {
            assert(self.chain() =~= old(self).chain().push(block@));
        }
    }

    /// Whether the block may follow the chain. The hash that it names is
    /// looked at first, then its own hash, then its coinbase.
    pub fn is_valid_block(&self, block: &Block) -> (r: Result<(), BlockError>)
        requires
            self.well_formed(),
            block@.well_formed(),
        ensures
            r == (if block@.inner.prev_block_hash != tip_hash(self.chain()) {
                Err(BlockError::BadPrevHash)
            } else if !block@.meets(self.difficulty()) {
                Err(BlockError::BadDifficulty)
            } else if !block@.coinbase_pays_fees() {
                Err(BlockError::BadCoinbaseValue)
            } else {
                Ok(())
            }),
            r is Ok <==> accepts(self.chain(), self.difficulty(), block@),
    {
        let last_block_hash = self.get_last_block_hash();
        if last_block_hash != block.get_prev_block_hash() {
            return Err(BlockError::BadPrevHash);
        }
        block.is_valid(self.difficulty)
    }

    /// Removes from the pool the transactions that the chain holds.
    pub fn remove_useless_transactions(&self, pool: &mut TransactionPool)
        ensures
            final(pool)@ == old(pool)@.filter(not_among(chain_normals(self.chain()))),
            old(pool).well_formed() ==> final(pool).well_formed(),
    {
        let held = normals_of_blocks(&self.chain);
        pool.remove_all(&held);
    }

    /// Whether `other_chain` would take the place of the chain. Its length is
    /// looked at first.
    pub fn judge_chain(&self, other_chain: &Vec<Block>) -> (r: Result<(), ChainError>)
        requires
            chain_well_formed(block_models(other_chain@)),
        ensures
            r == (if other_chain.len() <= self.chain().len() {
                Err(ChainError::ShorterChain)
            } else if !linked(block_models(other_chain@)) {
                Err(ChainError::InvalidChain)
            } else {
                Ok(())
            }),
            r is Ok <==> supersedes(self.chain(), block_models(other_chain@)),
    {
        if self.chain.len() >= other_chain.len() {
            return Err(ChainError::ShorterChain);
        }
        let genesis = self.get_genesis_block_hash();
        if !is_valid_chain(genesis, other_chain) {
            return Err(ChainError::InvalidChain);
        }
        Ok(())
    }

    /// Takes `other_chain` in place of the chain if it is longer and linked
    /// from the genesis hash, and hands out the normal transactions that
    /// are lost with the blocks left behind. Leaves the chain as it is
    /// otherwise, and hands out nothing.
    pub fn resolve_conflicts(&mut self, other_chain: Vec<Block>) -> (r: Vec<NormalTransaction>)
        requires
            chain_well_formed(block_models(other_chain@)),
        ensures
            final(self).difficulty() == old(self).difficulty(),
            final(self).chain() == (if supersedes(old(self).chain(), block_models(other_chain@)) {
                block_models(other_chain@)
            } else {
                old(self).chain()
            }),
            normal_models(r@) == (if supersedes(old(self).chain(), block_models(other_chain@)) {
                orphan_transactions(old(self).chain(), block_models(other_chain@))
            } else {
                Seq::<NormalModel>::empty()
            }),
            old(self).well_formed() ==> final(self).well_formed(),
    {
        if self.judge_chain(&other_chain).is_err() {
            let r: Vec<NormalTransaction> = Vec::new();
            proof {
                assert(normal_models(r@) =~= Seq::<NormalModel>::empty());
            }
            return r;
        }
        let left_behind = list_without(&self.chain, &other_chain);
        let lost = normals_of_blocks(&left_behind);
        self.chain = other_chain;
        let held = normals_of_blocks(&self.chain);
        list_without(&lost, &held)
    }

    /// Whether the transaction spends outputs that the chain holds and has
    /// not seen spent. Unknown inputs are looked for first.
    pub fn is_valid_transaction(&self, tx: &NormalTransaction) -> (r: Result<(), TransactionError>)
        ensures
            r == (if has_unknown_input(self.chain(), tx@) {
                Err(TransactionError::UnknownInput)
            } else if has_spent_input(self.chain(), tx@) {
                Err(TransactionError::DoubleSpend)
            } else {
                Ok(())
            }),
    {
        proof {
            lemma_normal_view(tx);
        }
        let known = self.get_transactions();
        let mut i: usize = 0;
        while i < tx.inputs.len()
            invariant
                i <= tx.inputs.len(),
                tx@.inputs == input_models(tx.inputs@),
                transaction_models(known@) == chain_transactions(self.chain()),
                forall|k: int|
                    0 <= k < i ==> chain_transactions(self.chain()).contains(
                        (#[trigger] tx@.inputs[k]).transaction,
                    ),
            decreases tx.inputs.len() - i,
        {
            if !list_contains(&known, &tx.inputs[i].transaction) {
                proof {
                    assert(!chain_transactions(self.chain()).contains(
                        tx@.inputs[i as int].transaction,
                    ));
                }
                return Err(TransactionError::UnknownInput);
            }
            i += 1;
        }
        let spent = inputs_of_transactions(&known);
        let mut k: usize = 0;
        while k < tx.inputs.len()
            invariant
                k <= tx.inputs.len(),
                tx@.inputs == input_models(tx.inputs@),
                !has_unknown_input(self.chain(), tx@),
                input_models(spent@) == all_inputs(chain_transactions(self.chain())),
                forall|j: int|
                    0 <= j < k ==> !all_inputs(chain_transactions(self.chain())).contains(
                        #[trigger] tx@.inputs[j],
                    ),
            decreases tx.inputs.len() - k,
        {
            if list_contains(&spent, &tx.inputs[k]) {
                proof {
                    assert(all_inputs(chain_transactions(self.chain())).contains(
                        tx@.inputs[k as int],
                    ));
                }
                return Err(TransactionError::DoubleSpend);
            }
            k += 1;
        }
        Ok(())
    }
}

/// A chain in which each block was accepted by the blocks before it is
/// linked from the genesis hash, every hash in it ends in enough zeros, and
/// every coinbase in it pays the fees of its block and the incentive.
pub proof fn lemma_accepted_blocks_keep_integrity(chain: Seq<BlockModel>, difficulty: nat)
    requires
        grown_by_accepted_blocks(chain, difficulty),
    ensures
        linked(chain),
        all_meet(chain, difficulty),
        all_pay_fees(chain),
{
    assert forall|i: int| 0 <= i < chain.len() implies (
    #[trigger] chain[i]).inner.prev_block_hash == hash_before(genesis_hash(), chain, i) by {
        assert(accepts(chain.take(i), difficulty, chain[i]));
        if i > 0 {
            assert(chain.take(i)[i - 1] == chain[i - 1]);
        }
    }
    assert forall|i: int| 0 <= i < chain.len() implies (#[trigger] chain[i]).meets(difficulty) by {
        assert(accepts(chain.take(i), difficulty, chain[i]));
    }
    assert forall|i: int| 0 <= i < chain.len() implies (
    #[trigger] chain[i]).coinbase_pays_fees() by {
        assert(accepts(chain.take(i), difficulty, chain[i]));
    }
}

/// Appending a block that the chain accepts to a chain grown by accepted
/// blocks gives such a chain again; the empty chain is one.
pub proof fn lemma_append_accepted_block(
    chain: Seq<BlockModel>,
    difficulty: nat,
    block: BlockModel,
)
    requires
        grown_by_accepted_blocks(chain, difficulty),
        accepts(chain, difficulty, block),
    ensures
        grown_by_accepted_blocks(chain.push(block), difficulty),
        grown_by_accepted_blocks(Seq::<BlockModel>::empty(), difficulty),
{
    let longer = chain.push(block);
    assert forall|k: int| 0 <= k < longer.len() implies accepts(
        longer.take(k),
        difficulty,
        #[trigger] longer[k],
    ) by {
        if k < chain.len() {
            assert(longer.take(k) =~= chain.take(k));
            assert(accepts(chain.take(k), difficulty, chain[k]));
        } else {
            assert(longer.take(k) =~= chain);
        }
    }
}

/// Every transaction of a chain of well-formed blocks is well formed.
pub proof fn lemma_chain_transactions_well_formed(chain: Seq<BlockModel>, k: int)
    requires
        chain_well_formed(chain),
        0 <= k <= chain.len(),
    ensures
        forall|i: int|
            0 <= i < transactions_upto(chain, k).len() ==> (#[trigger] transactions_upto(
                chain,
                k,
            )[i]).well_formed(),
    decreases k,
{
    if k > 0 {
        lemma_chain_transactions_well_formed(chain, k - 1);
        let head = transactions_upto(chain, k - 1);
        let block = chain[k - 1];
        let tail = block.inner.transactions.all();
        assert(block.well_formed());
        assert forall|i: int| 0 <= i < (head + tail).len() implies (#[trigger] (head
            + tail)[i]).well_formed() by {
            if i < head.len() {
                assert(head[i].well_formed());
            } else {
                let j = i - head.len();
                if j > 0 {
                    assert(block.inner.transactions.normals[j - 1].well_formed());
                }
            }
        }
    }
}

/// Every transaction that a change of chain hands out stood in a block of
/// the old chain and stands in no block of the new one.
pub proof fn lemma_orphans_are_lost(local: Seq<BlockModel>, other: Seq<BlockModel>, t: NormalModel)
    requires
        orphan_transactions(local, other).contains(t),
    ensures
        chain_normals(local).contains(t),
        !chain_normals(other).contains(t),
{
    let absent = not_among(other);
    let fresh = not_among(chain_normals(other));
    let left = orphan_blocks(local, other);
    let lost = chain_normals(left);
    lost.lemma_filter_contains_rev(fresh, t);
    let i = choose|i: int| 0 <= i < lost.filter(fresh).len() && lost.filter(fresh)[i] == t;
    lost.lemma_filter_pred(fresh, i);
    lemma_normal_in_some_block(left, left.len() as int, t);
    let b = choose|b: int| 0 <= b < left.len() && left[b].inner.transactions.normals.contains(t);
    assert(left.contains(left[b]));
    local.lemma_filter_contains_rev(absent, left[b]);
    let a = choose|a: int| 0 <= a < local.len() && local[a] == left[b];
    lemma_block_normals_in_chain(local, local.len() as int, a, t);
}

/// A transaction among the normal transactions of the first `k` blocks
/// stands in one of those blocks.
pub proof fn lemma_normal_in_some_block(chain: Seq<BlockModel>, k: int, t: NormalModel)
    requires
        0 <= k <= chain.len(),
        normals_upto(chain, k).contains(t),
    ensures
        exists|b: int| 0 <= b < k && (#[trigger] chain[b]).inner.transactions.normals.contains(t),
    decreases k,
{
    if k > 0 {
        let head = normals_upto(chain, k - 1);
        let tail = chain[k - 1].inner.transactions.normals;
        let i = choose|i: int| 0 <= i < (head + tail).len() && (head + tail)[i] == t;
        if i < head.len() {
            assert(head[i] == t);
            lemma_normal_in_some_block(chain, k - 1, t);
        } else {
            assert(tail[i - head.len()] == t);
            assert(chain[k - 1].inner.transactions.normals.contains(t));
        }
    }
}

/// A normal transaction of one of the first `k` blocks stands among the
/// normal transactions of those blocks.
pub proof fn lemma_block_normals_in_chain(chain: Seq<BlockModel>, k: int, b: int, t: NormalModel)
    requires
        0 <= b < k <= chain.len(),
        chain[b].inner.transactions.normals.contains(t),
    ensures
        normals_upto(chain, k).contains(t),
    decreases k,
{
    let head = normals_upto(chain, k - 1);
    let tail = chain[k - 1].inner.transactions.normals;
    if b == k - 1 {
        let i = choose|i: int| 0 <= i < tail.len() && tail[i] == t;
        assert((head + tail)[head.len() + i] == t);
    } else {
        lemma_block_normals_in_chain(chain, k - 1, b, t);
        let i = choose|i: int| 0 <= i < head.len() && head[i] == t;
        assert((head + tail)[i] == t);
    }
}

} // verus!
