//! Blocks and proof of work. The hash of a block is the SHA-256 digest of
//! the canonical JSON of the block without its nonce, followed by the nonce
//! as eight bytes, the highest first. A block meets a difficulty when that
//! hash, in hexadecimal, ends in as many zeros.

use vstd::prelude::*;
use vstd::string::*;
use vstd::std_specs::cmp::PartialEqSpecImpl;
use crate::blockchain::transaction::{
    Address, CoinbaseTransaction, NormalTransaction, Transaction, Transactions, TransactionsModel,
    input_and_output_totals, lemma_well_formed_body_is_dated, normal_models, total_fee,
    transaction_models,
};
use crate::blockchain::transaction_json::{
    json_of_timestamp, json_of_transactions, make_member, make_object, make_text, member,
    timestamp_to_json,
};
use crate::blockchain::transaction_pool::COINBASE_INCENTIVE;
use crate::json::value::{Json, JsonModel, Member, MemberModel, member_models_of};
use crate::json::writer::{json_text, to_text};
use crate::structure::{Structure, views};
use crate::timestamp::Timestamp;
use crate::util::{bytes_to_hex, calc_hash, hex_alphabet, hex_of_bytes, sha256_of};

verus! {

/// The hash of a block, in lowercase hexadecimal.
pub type BlockHash = String;

/// Why a block is refused.
#[derive(Clone, Copy, Debug, PartialEq, Eq, Structural)]
pub enum BlockError {
    /// The block does not follow the tip of the chain.
    BadPrevHash,
    /// The hash of the block does not end in enough zeros.
    BadDifficulty,
    /// The coinbase does not pay the fees and the incentive exactly.
    BadCoinbaseValue,
    /// No nonce gives a hash that ends in enough zeros.
    NoProof,
}

/// A block before its nonce is found.
pub struct UnminedModel {
    pub timestamp: Timestamp,
    pub transactions: TransactionsModel,
    pub prev_block_hash: Seq<char>,
}

/// A block with the nonce that proves the work on it.
pub struct BlockModel {
    pub inner: UnminedModel,
    pub nonce: u64,
}

/// The eight bytes of a nonce, the highest first.
pub open spec fn nonce_bytes(nonce: u64) -> Seq<u8> {
    seq![
        (nonce / 0x100_0000_0000_0000) as u8,
        (nonce / 0x1_0000_0000_0000 % 256) as u8,
        (nonce / 0x100_0000_0000 % 256) as u8,
        (nonce / 0x1_0000_0000 % 256) as u8,
        (nonce / 0x100_0000 % 256) as u8,
        (nonce / 0x1_0000 % 256) as u8,
        (nonce / 0x100 % 256) as u8,
        (nonce % 256) as u8,
    ]
}

/// The members of a block without its nonce, in their order.
pub open spec fn unmined_members(b: UnminedModel) -> Seq<MemberModel> {
    seq![
        member("timestamp"@, json_of_timestamp(b.timestamp)),
        member("transaction"@, json_of_transactions(b.transactions)),
        member("prev_block_hash"@, JsonModel::Text(b.prev_block_hash)),
    ]
}

/// The JSON of a block without its nonce, which is what is hashed.
pub open spec fn json_of_unmined(b: UnminedModel) -> JsonModel {
    JsonModel::Object(unmined_members(b))
}

/// The members of the block without its nonce, then the nonce.
pub open spec fn json_of_block(b: BlockModel) -> JsonModel {
    JsonModel::Object(
        unmined_members(b.inner) + seq![member("nonce"@, JsonModel::Number(b.nonce))],
    )
}

/// Whether `hash` ends in `difficulty` zeros.
pub open spec fn ends_with_zeros(hash: Seq<char>, difficulty: nat) -> bool {
    &&& difficulty <= hash.len()
    &&& forall|i: int| hash.len() - difficulty <= i < hash.len() ==> #[trigger] hash[i] == '0'
}

impl UnminedModel {
    pub open spec fn well_formed(self) -> bool {
        self.timestamp.valid() && self.transactions.well_formed()
    }

    /// The timestamp of the block is a moment and its transactions are
    /// dated: all it takes for the block to be written and hashed.
    pub open spec fn dated(self) -> bool {
        self.timestamp.valid() && self.transactions.dated()
    }

    /// The canonical JSON text.
    pub open spec fn text(self) -> Seq<u8> {
        json_text(json_of_unmined(self))
    }

    /// The hash that the block has with the given nonce.
    pub open spec fn hash_with(self, nonce: u64) -> Seq<char> {
        hex_of_bytes(sha256_of(self.text() + nonce_bytes(nonce)))
    }
}

impl BlockModel {
    pub open spec fn well_formed(self) -> bool {
        self.inner.well_formed()
    }

    pub open spec fn dated(self) -> bool {
        self.inner.dated()
    }

    pub open spec fn hash(self) -> Seq<char> {
        self.inner.hash_with(self.nonce)
    }

    /// Whether the hash ends in `difficulty` zeros.
    pub open spec fn meets(self, difficulty: nat) -> bool {
        ends_with_zeros(self.hash(), difficulty)
    }

    /// Whether the coinbase pays the fees of the block and the incentive,
    /// no more and no less.
    pub open spec fn coinbase_pays_fees(self) -> bool {
        self.inner.transactions.coinbase.value == total_fee(self.inner.transactions.normals)
            + COINBASE_INCENTIVE
    }

    /// The address that the coinbase pays.
    pub open spec fn miner(self) -> Seq<char> {
        self.inner.transactions.coinbase.recipient
    }
}

/// A well-formed block is dated.
pub proof fn lemma_well_formed_block_is_dated(b: BlockModel)
    requires
        b.well_formed(),
    ensures
        b.dated(),
{
    lemma_well_formed_body_is_dated(b.inner.transactions);
}

/// A block before its nonce is found: a timestamp, the transactions, and
/// the hash of the block that it follows.
#[derive(Debug)]
pub struct BlockWithoutProof {
    pub timestamp: Timestamp,
    pub transaction: Transactions,
    pub prev_block_hash: BlockHash,
}

/// A block with the nonce that proves the work on it.
#[derive(Debug)]
pub struct Block {
    pub inner: BlockWithoutProof,
    pub nonce: u64,
}

impl View for BlockWithoutProof {
    type V = UnminedModel;

    open spec fn view(&self) -> UnminedModel {
        UnminedModel {
            timestamp: self.timestamp,
            transactions: self.transaction@,
            prev_block_hash: self.prev_block_hash@,
        }
    }
}

impl View for Block {
    type V = BlockModel;

    open spec fn view(&self) -> BlockModel {
        BlockModel { inner: self.inner@, nonce: self.nonce }
    }
}

/// The models of a list of blocks, one for one.
pub open spec fn block_models(blocks: Seq<Block>) -> Seq<BlockModel> {
    views(blocks)
}

fn push_nonce(out: &mut Vec<u8>, nonce: u64)
    ensures
        final(out)@ == old(out)@ + nonce_bytes(nonce),
{
    let ghost before = out@;
    out.push((nonce / 0x100_0000_0000_0000) as u8);
    out.push((nonce / 0x1_0000_0000_0000 % 256) as u8);
    out.push((nonce / 0x100_0000_0000 % 256) as u8);
    out.push((nonce / 0x1_0000_0000 % 256) as u8);
    out.push((nonce / 0x100_0000 % 256) as u8);
    out.push((nonce / 0x1_0000 % 256) as u8);
    out.push((nonce / 0x100 % 256) as u8);
    out.push((nonce % 256) as u8);
    proof {
        assert(out@ =~= before + nonce_bytes(nonce));
    }
}

/// The digest of `text` followed by the nonce.
fn digest_with_nonce(text: &Vec<u8>, nonce: u64) -> (r: Vec<u8>)
    ensures
        r@ == sha256_of(text@ + nonce_bytes(nonce)),
        r@.len() == 32,
{
    let mut data: Vec<u8> = Vec::new();
    let mut i: usize = 0;
    while i < text.len()
        invariant
            i <= text.len(),
            data@ == text@.subrange(0, i as int),
        decreases text.len() - i,
    {
        data.push(text[i]);
        i += 1;
    }
    proof {
        assert(data@ =~= text@);
    }
    push_nonce(&mut data, nonce);
    calc_hash(data.as_slice())
}

/// Whether the hexadecimal spelling of `digest` ends in `difficulty` zeros.
fn digest_meets(digest: &Vec<u8>, difficulty: usize) -> (r: bool)
    requires
        digest.len() == 32,
    ensures
        r == ends_with_zeros(hex_of_bytes(digest@), difficulty as nat),
{
    let ghost hash = hex_of_bytes(digest@);
    let n: usize = digest.len();
    if difficulty > 2 * n {
        return false;
    }
    let mut k: usize = 0;
    while k < difficulty
        invariant
            k <= difficulty <= 2 * n,
            n == digest.len(),
            2 * n <= usize::MAX,
            hash == hex_of_bytes(digest@),
            forall|i: int| hash.len() - k <= i < hash.len() ==> #[trigger] hash[i] == '0',
        decreases difficulty - k,
    {
        let at: usize = 2 * n - 1 - k;
        let byte: u8 = digest[at / 2];
        let nibble: u8 = if at % 2 == 0 {
            byte / 16
        } else {
            byte % 16
        };
        proof {
            assert(hash[at as int] == hex_alphabet()[nibble as int]);
        }
        if nibble != 0 {
            proof {
                assert(hash[at as int] != '0');
            }
            return false;
        }
        k += 1;
    }
    true
}

impl BlockWithoutProof {
    /// A block over `transaction` that follows the block with the hash
    /// `prev_block_hash`, stamped with the present moment.
    pub fn new(transaction: Transactions, prev_block_hash: BlockHash) -> (r: BlockWithoutProof)
        ensures
            r@.transactions == transaction@,
            r@.prev_block_hash == prev_block_hash@,
            r@.timestamp.valid(),
    {
        BlockWithoutProof::with_timestamp(Timestamp::now(), transaction, prev_block_hash)
    }

    /// A block over `transaction` that follows the block with the hash
    /// `prev_block_hash`, stamped `timestamp`.
    pub fn with_timestamp(
        timestamp: Timestamp,
        transaction: Transactions,
        prev_block_hash: BlockHash,
    ) -> (r: BlockWithoutProof)
        ensures
            r@ == (UnminedModel {
                timestamp,
                transactions: transaction@,
                prev_block_hash: prev_block_hash@,
            }),
    {
        BlockWithoutProof { timestamp, transaction, prev_block_hash }
    }

    pub fn get_prev_block_hash(&self) -> (r: BlockHash)
        ensures
            r@ == self@.prev_block_hash,
    {
        self.prev_block_hash.clone()
    }

    fn members(&self) -> (r: Vec<Member>)
        requires
            self@.dated(),
        ensures
            member_models_of(r@) == unmined_members(self@),
    {
        let stamp = make_member("timestamp", timestamp_to_json(&self.timestamp));
        let body = make_member("transaction", self.transaction.to_json());
        let prev = make_member("prev_block_hash", make_text(self.prev_block_hash.as_str()));
        let ghost expected = unmined_members(self@);
        assert(stamp@ == expected[0] && body@ == expected[1] && prev@ == expected[2]);
        let mut members: Vec<Member> = Vec::new();
        members.push(stamp);
        members.push(body);
        members.push(prev);
        proof {
            assert(member_models_of(members@) =~= expected);
        }
        members
    }

    pub fn to_json(&self) -> (j: Json)
        requires
            self@.dated(),
        ensures
            j@ == json_of_unmined(self@),
    {
        make_object(self.members())
    }

    /// The canonical JSON text, which is what is hashed.
    pub fn canonical_text(&self) -> (r: Vec<u8>)
        requires
            self@.dated(),
        ensures
            r@ == self@.text(),
    {
        let j = self.to_json();
        to_text(&j)
    }

    /// The hash that the block has with the given nonce.
    pub fn calculate_hash(&self, nonce: u64) -> (r: BlockHash)
        requires
            self@.dated(),
        ensures
            r@ == self@.hash_with(nonce),
            r@.len() == 64,
    {
        let text = self.canonical_text();
        let digest = digest_with_nonce(&text, nonce);
        bytes_to_hex(digest.as_slice())
    }

    /// Searches the nonces from 0 upwards for the first with which the block
    /// meets `difficulty`.
    pub fn mine(self, difficulty: usize) -> (r: Result<Block, BlockError>)
        requires
            self@.dated(),
        ensures
            match r {
                Ok(block) => {
                    &&& block@.inner == self@
                    &&& block@.meets(difficulty as nat)
                    &&& forall|n: u64|
                        n < block@.nonce ==> !ends_with_zeros(
                            #[trigger] self@.hash_with(n),
                            difficulty as nat,
                        )
                },
                Err(e) => {
                    &&& e == BlockError::NoProof
                    &&& forall|n: u64|
                        !ends_with_zeros(#[trigger] self@.hash_with(n), difficulty as nat)
                },
            },
    {
        let text = self.canonical_text();
        let mut nonce: u64 = 0;
        loop
            invariant
                text@ == self@.text(),
                forall|n: u64|
                    n < nonce ==> !ends_with_zeros(
                        #[trigger] self@.hash_with(n),
                        difficulty as nat,
                    ),
            decreases u64::MAX - nonce,
        {
            let digest = digest_with_nonce(&text, nonce);
            if digest_meets(&digest, difficulty) {
                return Ok(Block::new(self, nonce));
            }
            if nonce == u64::MAX {
                return Err(BlockError::NoProof);
            }
            nonce += 1;
        }
    }

    /// A copy of the block.
    pub fn duplicate(&self) -> (r: BlockWithoutProof)
        ensures
            r@ == self@,
    {
        BlockWithoutProof {
            timestamp: self.timestamp,
            transaction: self.transaction.duplicate(),
            prev_block_hash: self.prev_block_hash.clone(),
        }
    }

    /// Whether the two blocks are equal through all that they carry.
    pub fn same(&self, other: &BlockWithoutProof) -> (r: bool)
        ensures
            r == (self@ == other@),
    {
        self.timestamp == other.timestamp && self.prev_block_hash == other.prev_block_hash
            && self.transaction.same(&other.transaction)
    }
}

impl Block {
    pub fn new(inner: BlockWithoutProof, nonce: u64) -> (r: Block)
        ensures
            r@ == (BlockModel { inner: inner@, nonce }),
    {
        Block { inner, nonce }
    }

    pub fn get_transaction_at(&self, idx: usize) -> (r: Option<Transaction>)
        ensures
            match r {
                Some(t) => idx < self@.inner.transactions.all().len() && t@
                    == self@.inner.transactions.all()[idx as int],
                None => idx >= self@.inner.transactions.all().len(),
            },
    {
        self.inner.transaction.get_transaction_at(idx)
    }

    pub fn get_transactions(&self) -> (r: Vec<Transaction>)
        ensures
            transaction_models(r@) == self@.inner.transactions.all(),
    {
        self.inner.transaction.get_transactions()
    }

    pub fn get_coinbase_transaction(&self) -> (r: CoinbaseTransaction)
        ensures
            r@ == self@.inner.transactions.coinbase,
    {
        self.inner.transaction.get_coinbase_transaction()
    }

    pub fn get_normal_transactions(&self) -> (r: Vec<NormalTransaction>)
        ensures
            normal_models(r@) == self@.inner.transactions.normals,
    {
        self.inner.transaction.get_normal_transactions()
    }

    pub fn get_prev_block_hash(&self) -> (r: BlockHash)
        ensures
            r@ == self@.inner.prev_block_hash,
    {
        self.inner.prev_block_hash.clone()
    }

    /// The hash of the block.
    pub fn calculate_hash(&self) -> (r: BlockHash)
        requires
            self@.dated(),
        ensures
            r@ == self@.hash(),
            r@.len() == 64,
    {
        self.inner.calculate_hash(self.nonce)
    }

    pub fn to_json(&self) -> (j: Json)
        requires
            self@.dated(),
        ensures
            j@ == json_of_block(self@),
    {
        let mut members = self.inner.members();
        let ghost before = member_models_of(members@);
        members.push(make_member("nonce", Json::Number(self.nonce)));
        proof {
            assert(member_models_of(members@) =~= before + seq![
                member("nonce"@, JsonModel::Number(self.nonce)),
            ]);
        }
        make_object(members)
    }

    /// Checks the proof of work and the coinbase. The hash is looked at
    /// first.
    pub fn is_valid(&self, difficulty: usize) -> (r: Result<(), BlockError>)
        requires
            self@.well_formed(),
        ensures
            r == (if !self@.meets(difficulty as nat) {
                Err(BlockError::BadDifficulty)
            } else if !self@.coinbase_pays_fees() {
                Err(BlockError::BadCoinbaseValue)
            } else {
                Ok(())
            }),
    {
        proof {
            lemma_well_formed_block_is_dated(self@);
        }
        let text = self.inner.canonical_text();
        let digest = digest_with_nonce(&text, self.nonce);
        if !digest_meets(&digest, difficulty) {
            return Err(BlockError::BadDifficulty);
        }
        proof {
            let normals = self@.inner.transactions.normals;
            assert forall|i: int| 0 <= i < self.inner.transaction.transactions.len() implies (
            #[trigger] self.inner.transaction.transactions@[i]@).well_formed() by {
                assert(normals[i].well_formed());
            }
        }
        let totals = input_and_output_totals(&self.inner.transaction.transactions);
        let spent: u128 = totals.0;
        let paid: u128 = totals.1;
        if self.inner.transaction.coinbase.value as u128 + paid != spent
            + COINBASE_INCENTIVE as u128 {
            return Err(BlockError::BadCoinbaseValue);
        }
        Ok(())
    }

    /// The address that the coinbase pays.
    pub fn miner(&self) -> (r: Address)
        ensures
            r@ == self@.miner(),
    {
        self.inner.transaction.coinbase.recipient.clone()
    }

    /// A copy of the block.
    pub fn duplicate(&self) -> (r: Block)
        ensures
            r@ == self@,
    {
        Block { inner: self.inner.duplicate(), nonce: self.nonce }
    }

    /// Whether the two blocks are equal through all that they carry.
    pub fn same(&self, other: &Block) -> (r: bool)
        ensures
            r == (self@ == other@),
    {
        self.nonce == other.nonce && self.inner.same(&other.inner)
    }

    /// Whether every transaction of the block is well formed.
    pub fn is_well_formed(&self) -> (r: bool)
        ensures
            r == self@.well_formed(),
    {
        self.inner.timestamp.is_valid() && self.inner.transaction.is_well_formed()
    }
}

impl Structure for Block {
    fn same(&self, other: &Block) -> (r: bool) {
        Block::same(self, other)
    }

    fn duplicate(&self) -> (r: Block) {
        Block::duplicate(self)
    }
}

impl Clone for BlockWithoutProof {
    fn clone(&self) -> (r: BlockWithoutProof)
        ensures
            r@ == self@,
    {
        self.duplicate()
    }
}

impl Clone for Block {
    fn clone(&self) -> (r: Block)
        ensures
            r@ == self@,
    {
        self.duplicate()
    }
}

impl PartialEq for BlockWithoutProof {
    fn eq(&self, other: &BlockWithoutProof) -> (r: bool) {
        self.same(other)
    }
}

impl PartialEqSpecImpl for BlockWithoutProof {
    open spec fn obeys_eq_spec() -> bool {
        true
    }

    open spec fn eq_spec(&self, other: &BlockWithoutProof) -> bool {
        self@ == other@
    }
}

impl PartialEq for Block {
    fn eq(&self, other: &Block) -> (r: bool) {
        self.same(other)
    }
}

impl PartialEqSpecImpl for Block {
    open spec fn obeys_eq_spec() -> bool {
        true
    }

    open spec fn eq_spec(&self, other: &Block) -> bool {
        self@ == other@
    }
}

} // verus!
