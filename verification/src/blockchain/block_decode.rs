//! Reading blocks back from their JSON.

use vstd::prelude::*;
use vstd::string::*;
use crate::blockchain::block::{
    Block, BlockModel, BlockWithoutProof, UnminedModel, block_models, json_of_block,
    json_of_unmined, unmined_members,
};
use crate::blockchain::manager::{chain_dated, chain_well_formed};
use crate::blockchain::transaction::Transactions;
use crate::blockchain::transaction_decode::{
    lemma_names, lemma_transactions_round_trip, lookup_is, timestamp_from_json, timestamp_of_json,
    transactions_of_json,
};
use crate::blockchain::transaction_json::json_of_transactions;
use crate::json::access::{get, get_number, get_text, lemma_lookup_at, number_of, text_of};
use crate::json::value::{Json, JsonModel, MemberModel, models_of};
use crate::structure::lemma_views_push;
use crate::timestamp::lemma_timestamp_round_trip;

verus! {

/// The block without its nonce that a value spells, if it spells one.
pub open spec fn unmined_of_json(j: JsonModel) -> Option<UnminedModel> {
    match (
        timestamp_of_json(j.get("timestamp"@)),
        j.get("transaction"@),
        text_of(j.get("prev_block_hash"@)),
    ) {
        (Some(timestamp), Some(body), Some(prev_block_hash)) => match transactions_of_json(body) {
            Some(transactions) => Some(UnminedModel { timestamp, transactions, prev_block_hash }),
            None => None,
        },
        _ => None,
    }
}

/// The block that a value spells, if it spells one.
pub open spec fn block_of_json(j: JsonModel) -> Option<BlockModel> {
    match (unmined_of_json(j), number_of(j.get("nonce"@))) {
        (Some(inner), Some(nonce)) => Some(BlockModel { inner, nonce }),
        _ => None,
    }
}

/// The blocks that the first `k` items spell, where each spells one.
pub open spec fn blocks_of_items(items: Seq<JsonModel>, k: int) -> Option<Seq<BlockModel>>
    decreases k,
{
    if k <= 0 || k > items.len() {
        Some(Seq::empty())
    } else {
        match (blocks_of_items(items, k - 1), block_of_json(items[k - 1])) {
            (Some(init), Some(last)) => Some(init.push(last)),
            _ => None,
        }
    }
}

/// Where the first `k` items do not all spell blocks, more items do not.
proof fn lemma_blocks_fail(items: Seq<JsonModel>, k: int, n: int)
    requires
        0 < k <= n <= items.len(),
        blocks_of_items(items, k) is None,
    ensures
        blocks_of_items(items, n) is None,
    decreases n - k,
{
    if k < n {
        lemma_blocks_fail(items, k, n - 1);
    }
}

impl BlockWithoutProof {
    pub fn from_json(j: &Json) -> (r: Option<BlockWithoutProof>)
        ensures
            match r {
                Some(b) => unmined_of_json(j@) == Some(b@) && b@.dated(),
                None => unmined_of_json(j@) is None,
            },
    {
        let timestamp = match timestamp_from_json(j, "timestamp") {
            Some(timestamp) => timestamp,
            None => {
                return None;
            },
        };
        let body = match get(j, "transaction") {
            Some(body) => body,
            None => {
                return None;
            },
        };
        let prev_block_hash = match get_text(j, "prev_block_hash") {
            Some(text) => text.clone(),
            None => {
                return None;
            },
        };
        let transaction = match Transactions::from_json(body) {
            Some(transaction) => transaction,
            None => {
                return None;
            },
        };
        Some(BlockWithoutProof { timestamp, transaction, prev_block_hash })
    }
}

impl Block {
    pub fn from_json(j: &Json) -> (r: Option<Block>)
        ensures
            match r {
                Some(b) => block_of_json(j@) == Some(b@) && b@.dated(),
                None => block_of_json(j@) is None,
            },
    {
        let inner = match BlockWithoutProof::from_json(j) {
            Some(inner) => inner,
            None => {
                return None;
            },
        };
        let nonce = match get_number(j, "nonce") {
            Some(nonce) => nonce,
            None => {
                return None;
            },
        };
        Some(Block { inner, nonce })
    }
}

/// Reads the blocks that the items spell.
pub fn blocks_from_items(items: &Vec<Json>) -> (r: Option<Vec<Block>>)
    ensures
        match r {
            Some(blocks) => {
                &&& blocks_of_items(models_of(items@), items.len() as int) == Some(
                    block_models(blocks@),
                )
                &&& chain_dated(block_models(blocks@))
            },
            None => blocks_of_items(models_of(items@), items.len() as int) is None,
        },
{
    let ghost models = models_of(items@);
    let mut out: Vec<Block> = Vec::new();
    let mut i: usize = 0;
    proof {
        assert(block_models(out@) =~= Seq::<BlockModel>::empty());
    }
    while i < items.len()
        invariant
            i <= items.len(),
            models == models_of(items@),
            blocks_of_items(models, i as int) == Some(block_models(out@)),
            chain_dated(block_models(out@)),
        decreases items.len() - i,
    {
        let ghost before = out@;
        proof {
            assert(models[i as int] == items@[i as int]@);
        }
        match Block::from_json(&items[i]) {
            Some(b) => {
                proof {
                    lemma_views_push(before, b);
                    assert forall|k: int| 0 <= k < before.len() + 1 implies (
                    #[trigger] block_models(before).push(b@)[k]).dated() by {
                        if k < before.len() {
                            assert(block_models(before)[k].dated());
                        }
                    }
                }
                out.push(b);
            },
            None => {
                proof {
                    lemma_blocks_fail(models, i + 1, items.len() as int);
                }
                return None;
            },
        }
        i += 1;
    }
    Some(out)
}

/// Whether every block of the list is well formed.
pub fn blocks_are_well_formed(blocks: &Vec<Block>) -> (r: bool)
    ensures
        r == chain_well_formed(block_models(blocks@)),
{
    let ghost models = block_models(blocks@);
    let mut i: usize = 0;
    while i < blocks.len()
        invariant
            i <= blocks.len(),
            models == block_models(blocks@),
            forall|k: int| 0 <= k < i ==> (#[trigger] models[k]).well_formed(),
        decreases blocks.len() - i,
    {
        proof {
            assert(models[i as int] == blocks@[i as int]@);
        }
        if !blocks[i].is_well_formed() {
            return false;
        }
        i += 1;
    }
    true
}

/// A block without its nonce is read back from an object that holds its
/// members under their names.
pub proof fn lemma_unmined_of_members(members: Seq<MemberModel>, b: UnminedModel)
    requires
        b.dated(),
        lookup_is(members, "timestamp"@, JsonModel::Text(b.timestamp.text())),
        lookup_is(members, "transaction"@, json_of_transactions(b.transactions)),
        lookup_is(members, "prev_block_hash"@, JsonModel::Text(b.prev_block_hash)),
    ensures
        unmined_of_json(JsonModel::Object(members)) == Some(b),
{
    lemma_timestamp_round_trip(b.timestamp);
    lemma_transactions_round_trip(b.transactions);
}

/// A block without its nonce is read back from its JSON.
pub proof fn lemma_unmined_round_trip(b: UnminedModel)
    requires
        b.dated(),
    ensures
        unmined_of_json(json_of_unmined(b)) == Some(b),
{
    lemma_names();
    let members = unmined_members(b);
    lemma_lookup_at(members, 0);
    lemma_lookup_at(members, 1);
    lemma_lookup_at(members, 2);
    lemma_unmined_of_members(members, b);
}

/// A block is read back from its JSON.
pub proof fn lemma_block_round_trip(b: BlockModel)
    requires
        b.dated(),
    ensures
        block_of_json(json_of_block(b)) == Some(b),
{
    lemma_names();
    let members = json_of_block(b)->Object_0;
    lemma_lookup_at(members, 0);
    lemma_lookup_at(members, 1);
    lemma_lookup_at(members, 2);
    lemma_lookup_at(members, 3);
    lemma_unmined_of_members(members, b.inner);
}

/// Blocks are read back from the items that spell them.
pub proof fn lemma_blocks_round_trip(chain: Seq<BlockModel>, k: int)
    requires
        0 <= k <= chain.len(),
        chain_dated(chain),
    ensures
        blocks_of_items(Seq::new(chain.len(), |i: int| json_of_block(chain[i])), k) == Some(
            chain.take(k),
        ),
    decreases k,
{
    if k > 0 {
        lemma_blocks_round_trip(chain, k - 1);
        assert(chain[k - 1].dated());
        lemma_block_round_trip(chain[k - 1]);
        assert(chain.take(k - 1).push(chain[k - 1]) =~= chain.take(k));
    } else {
        assert(chain.take(k) =~= Seq::<BlockModel>::empty());
    }
}

} // verus!
