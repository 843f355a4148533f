//! A core node: the chain and the pool behind the overlay, and what the
//! node does with the application payloads that reach it.

use vstd::prelude::*;
use vstd::string::*;
use vstd::utf8::{decode_utf8, valid_utf8};
use crate::blockchain::block::{BlockModel, block_models};
use crate::blockchain::manager::{
    BlockchainManager, TransactionError, accepts, chain_normals, has_spent_input, has_unknown_input,
    lemma_normal_in_some_block, lemma_orphans_are_lost, orphan_transactions, supersedes,
};
use crate::blockchain::transaction::{
    InputModel, NormalModel, NormalTransaction, OutputModel, Transaction, TransactionInput,
    TransactionModel, TransactionOutput, input_models, input_values, lemma_normal_view,
    lemma_well_formed_normal_is_dated, normal_models, output_values,
};
use crate::blockchain::transaction_json::json_of_normal;
use crate::blockchain::transaction_pool::{COINBASE_INCENTIVE, TransactionPool, spends};
use crate::connection_manager_core::{
    ApplicationPayloadHandler, ConnectionManagerInner, Outgoing, OutgoingModel,
    application_replies, membership_step, others, reply_model,
};
use crate::json::writer::{json_text, to_text};
use crate::key_manager::KeyManager;
use crate::message::{
    ApplicationPayload, ApplicationPayloadModel, Message, PayloadModel, announced, message_from,
};
use crate::node_addr::NodeAddr;
use crate::structure::{not_among, views};
use crate::sums::sum_upto;
use crate::text::string_from_utf8;
use crate::timestamp::Timestamp;
use crate::util::{
    CryptoError, bytes_of_hex, decode_hex, is_hex, rsa_signature_valid, sha256_of, verify_signature,
};
use crate::wire::message_of_text;

verus! {

/// How far a core node has come between starting and shutting down.
#[derive(Clone, Copy, Debug, PartialEq, Eq, Structural)]
pub enum ServerCoreState {
    Init,
    Standby,
    ConnectedToNetwork,
    ShuttingDown,
}

/// Whether `signature` spells a signature, under the key that the signer's
/// address spells, over the canonical JSON text of `tx`.
pub open spec fn signature_checks(tx: NormalModel, signature: Seq<char>) -> bool {
    &&& tx.inputs.len() > 0
    &&& is_hex(tx.signer())
    &&& is_hex(signature)
    &&& rsa_signature_valid(
        bytes_of_hex(tx.signer()),
        sha256_of(json_text(json_of_normal(tx))),
        bytes_of_hex(signature),
    )
}

/// Some input of `tx` is an input of a transaction in the pool.
pub open spec fn has_pooled_input(pool: Seq<NormalModel>, tx: NormalModel) -> bool {
    exists|i: int| 0 <= i < tx.inputs.len() && spends(pool, #[trigger] tx.inputs[i])
}

/// What is found of a transaction that was announced: the signature is
/// looked at first, then the chain, then the pool.
pub open spec fn transaction_verdict(
    chain: Seq<BlockModel>,
    pool: Seq<NormalModel>,
    tx: NormalModel,
    signature: Seq<char>,
) -> Result<(), TransactionError> {
    if !signature_checks(tx, signature) {
        Err(TransactionError::SignatureInvalid)
    } else if has_unknown_input(chain, tx) {
        Err(TransactionError::UnknownInput)
    } else if has_spent_input(chain, tx) {
        Err(TransactionError::DoubleSpend)
    } else if has_pooled_input(pool, tx) {
        Err(TransactionError::AlreadyInPool)
    } else {
        Ok(())
    }
}

/// The pool with `tx` at the end, unless it is there.
pub open spec fn with_transaction(pool: Seq<NormalModel>, tx: NormalModel) -> Seq<NormalModel> {
    if pool.contains(tx) {
        pool
    } else {
        pool.push(tx)
    }
}

/// The pool with the first `k` of `more` added, each unless it is there.
pub open spec fn with_transactions_upto(pool: Seq<NormalModel>, more: Seq<NormalModel>, k: int) -> Seq<
    NormalModel,
>
    decreases k,
{
    if k <= 0 {
        pool
    } else {
        with_transaction(with_transactions_upto(pool, more, k - 1), more[k - 1])
    }
}

/// The pool with those of `more` added, each unless it is there.
pub open spec fn with_transactions(pool: Seq<NormalModel>, more: Seq<NormalModel>) -> Seq<
    NormalModel,
> {
    with_transactions_upto(pool, more, more.len() as int)
}

/// What a node holds after an application payload, and what it answers.
pub struct Outcome {
    pub chain: Seq<BlockModel>,
    pub pool: Seq<NormalModel>,
    pub reply: Option<(ApplicationPayloadModel, Seq<NodeAddr>)>,
}

/// What an application payload does to a node that holds `chain` and
/// `pool` and mines at `difficulty`.
///
/// A transaction that is found good joins the pool and, where it came from
/// an edge, goes on to the core nodes. A block that the chain accepts is
/// appended, and the pool loses what the chain now holds; for a block that
/// it does not accept, the sender is asked for its whole chain. A request
/// for the chain is answered with it. A chain from a core node takes the
/// place of the chain where it supersedes it, and what the blocks left
/// behind lose joins the pool again. A request for coins changes nothing
/// by itself.
pub open spec fn application_step(
    chain: Seq<BlockModel>,
    difficulty: nat,
    pool: Seq<NormalModel>,
    payload: ApplicationPayloadModel,
    peer: NodeAddr,
    core_nodes: Seq<NodeAddr>,
    is_core: bool,
) -> Outcome {
    match payload {
        ApplicationPayloadModel::NewTransaction { transaction, signature } => {
            if transaction_verdict(chain, pool, transaction, signature) is Ok {
                Outcome {
                    chain,
                    pool: with_transaction(pool, transaction),
                    reply: if is_core {
                        None
                    } else {
                        Some((payload, core_nodes))
                    },
                }
            } else {
                Outcome { chain, pool, reply: None }
            }
        },
        ApplicationPayloadModel::NewBlock { block } => {
            if accepts(chain, difficulty, block) {
                Outcome {
                    chain: chain.push(block),
                    pool: pool.filter(not_among(chain_normals(chain.push(block)))),
                    reply: None,
                }
            } else {
                Outcome {
                    chain,
                    pool,
                    reply: Some((ApplicationPayloadModel::RequestFullChain, seq![peer])),
                }
            }
        },
        ApplicationPayloadModel::RequestFullChain => Outcome {
            chain,
            pool,
            reply: Some((ApplicationPayloadModel::FullChain { chain }, seq![peer])),
        },
        ApplicationPayloadModel::FullChain { chain: other } => {
            if is_core && supersedes(chain, other) {
                Outcome {
                    chain: other,
                    pool: with_transactions(pool, orphan_transactions(chain, other)),
                    reply: None,
                }
            } else {
                Outcome { chain, pool, reply: None }
            }
        },
        ApplicationPayloadModel::Enhanced { data } => Outcome { chain, pool, reply: None },
    }
}

/// The first block of `chain` from place `from` on whose coinbase pays
/// `miner`, or the length of the chain where there is none.
pub open spec fn first_mined_by(chain: Seq<BlockModel>, miner: Seq<char>, from: int) -> int
    decreases chain.len() - from,
{
    if from >= chain.len() {
        chain.len() as int
    } else if chain[from].miner() == miner {
        from
    } else {
        first_mined_by(chain, miner, from + 1)
    }
}

/// The transfer of the incentive out of the coinbase of `block` to
/// `recipient`.
pub open spec fn grant(block: BlockModel, recipient: Seq<char>, timestamp: Timestamp) -> NormalModel {
    NormalModel {
        inputs: seq![
            InputModel {
                transaction: TransactionModel::Coinbase(block.inner.transactions.coinbase),
                index: 0,
            },
        ],
        outputs: seq![OutputModel { recipient, value: COINBASE_INCENTIVE }],
        timestamp,
    }
}

/// What a request for coins, taken at the moment `timestamp`, does to a
/// node that was `before`. Where `data` spells a recipient, the chain holds
/// a block that the node mined, and the node makes a signature of the
/// transfer, the incentive of the first such block is made over to the
/// recipient, the transfer joins the pool and is announced to the core
/// nodes with that signature; nothing is changed otherwise.
pub open spec fn grant_outcome(
    before: ServerHandler,
    data: Seq<u8>,
    core_nodes: Seq<NodeAddr>,
    timestamp: Timestamp,
) -> Outcome {
    let chain = before.chain.chain();
    let at = first_mined_by(chain, before.keys.address(), 0);
    let tx = grant(chain[at], decode_utf8(data), timestamp);
    let made = before.keys.signature_of(json_text(json_of_normal(tx)));
    if can_grant(chain, before.keys.address(), data) && made is Some {
        Outcome {
            chain,
            pool: with_transaction(before.pool@, tx),
            reply: Some((announced(tx, made->0), core_nodes)),
        }
    } else {
        Outcome { chain, pool: before.pool@, reply: None }
    }
}

/// Whether a node that was `before` answers a request for coins, taken at
/// the moment `timestamp`, with `reply` and is `after`.
pub open spec fn grants(
    before: ServerHandler,
    data: Seq<u8>,
    core_nodes: Seq<NodeAddr>,
    timestamp: Timestamp,
    reply: Option<(ApplicationPayloadModel, Seq<NodeAddr>)>,
    after: ServerHandler,
) -> bool {
    let outcome = grant_outcome(before, data, core_nodes, timestamp);
    &&& after.chain == before.chain
    &&& after.keys == before.keys
    &&& after.pool@ == outcome.pool
    &&& reply == outcome.reply
}

/// Whether there is a grant to make on a request for coins: `data` spells
/// a recipient, and the chain holds a block that `miner` mined.
pub open spec fn can_grant(chain: Seq<BlockModel>, miner: Seq<char>, data: Seq<u8>) -> bool {
    valid_utf8(data) && first_mined_by(chain, miner, 0) < chain.len()
}

/// Whether a node that was `before` may, on `payload` from `peer`, answer
/// `reply` and be `after`: a request for coins is answered as `grants`
/// says, at some moment; any other payload as `application_step` says.
pub open spec fn server_answers(
    before: ServerHandler,
    payload: ApplicationPayloadModel,
    peer: NodeAddr,
    core_nodes: Seq<NodeAddr>,
    is_core: bool,
    reply: Option<(ApplicationPayloadModel, Seq<NodeAddr>)>,
    after: ServerHandler,
) -> bool {
    if payload is Enhanced {
        exists|timestamp: Timestamp|
            timestamp.valid() && #[trigger] grants(
                before,
                payload->data,
                core_nodes,
                timestamp,
                reply,
                after,
            )
    } else {
        let outcome = application_step(
            before.chain.chain(),
            before.chain.difficulty(),
            before.pool@,
            payload,
            peer,
            core_nodes,
            is_core,
        );
        &&& after.keys == before.keys
        &&& after.chain.difficulty() == before.chain.difficulty()
        &&& after.chain.chain() == outcome.chain
        &&& after.pool@ == outcome.pool
        &&& reply == outcome.reply
    }
}

/// The chain and the pool of a core node, and its keys.
pub struct ServerHandler {
    pub chain: BlockchainManager,
    pub pool: TransactionPool,
    pub keys: KeyManager,
}

/// Whether the transaction that was announced with `signature` may join
/// the pool.
#[verifier::loop_isolation(false)]
pub fn judge_transaction(
    chain: &BlockchainManager,
    pool: &TransactionPool,
    transaction: &NormalTransaction,
    signature: &String,
) -> (r: Result<(), TransactionError>)
    requires
        transaction@.well_formed(),
    ensures
        r == transaction_verdict(chain.chain(), pool@, transaction@, signature@),
{
    proof {
        lemma_normal_view(transaction);
    }
    let key = match transaction.get_input_pubkey() {
        Some(key) => key,
        None => {
            return Err(TransactionError::SignatureInvalid);
        },
    };
    let signed = match decode_hex(signature.as_str()) {
        Some(bytes) => bytes,
        None => {
            return Err(TransactionError::SignatureInvalid);
        },
    };
    proof {
        lemma_well_formed_normal_is_dated(transaction@);
    }
    let j = transaction.to_json();
    let text = to_text(&j);
    if verify_signature(signed.as_slice(), key.as_slice(), text.as_slice()).is_err() {
        return Err(TransactionError::SignatureInvalid);
    }
    match chain.is_valid_transaction(transaction) {
        Ok(()) => {},
        Err(e) => {
            return Err(e);
        },
    }
    let mut i: usize = 0;
    while i < transaction.inputs.len()
        invariant
            i <= transaction.inputs.len(),
            transaction@.inputs == input_models(transaction.inputs@),
            forall|k: int| 0 <= k < i ==> !spends(pool@, #[trigger] transaction@.inputs[k]),
        decreases transaction.inputs.len() - i,
    {
        proof {
            assert(transaction@.inputs[i as int] == transaction.inputs@[i as int]@);
        }
        if pool.has_transaction_input(&transaction.inputs[i]) {
            proof {
                assert(spends(pool@, transaction@.inputs[i as int]));
                assert(has_pooled_input(pool@, transaction@));
            }
            return Err(TransactionError::AlreadyInPool);
        }
        i += 1;
    }
    proof {
        assert(!has_pooled_input(pool@, transaction@));
    }
    Ok(())
}

/// Puts the transactions that a change of chain lost into the pool again.
fn readopt(pool: &mut TransactionPool, lost: &Vec<NormalTransaction>)
    requires
        old(pool).well_formed(),
        forall|i: int| 0 <= i < lost.len() ==> (#[trigger] lost@[i]@).well_formed(),
    ensures
        final(pool)@ == with_transactions(old(pool)@, normal_models(lost@)),
        final(pool).well_formed(),
{
    let ghost more = normal_models(lost@);
    let mut i: usize = 0;
    while i < lost.len()
        invariant
            i <= lost.len(),
            more == normal_models(lost@),
            pool.well_formed(),
            forall|k: int| 0 <= k < lost.len() ==> (#[trigger] lost@[k]@).well_formed(),
            pool@ == with_transactions_upto(old(pool)@, more, i as int),
        decreases lost.len() - i,
    {
        proof {
            assert(more[i as int] == lost@[i as int]@);
            assert(lost@[i as int]@.well_formed());
        }
        pool.add_new_transaction(lost[i].duplicate());
        i += 1;
    }
}

impl ServerHandler {
    pub fn new(chain: BlockchainManager, pool: TransactionPool, keys: KeyManager) -> (r:
        ServerHandler)
        ensures
            r.chain == chain,
            r.pool == pool,
            r.keys == keys,
    {
        ServerHandler { chain, pool, keys }
    }

    /// The chain and the pool are well formed.
    pub open spec fn well_formed(&self) -> bool {
        self.chain.well_formed() && self.pool.well_formed()
    }

    /// Takes an application payload. A request for coins is passed over
    /// here: it is answered by `handle_grant_request`, which takes the time.
    pub fn handle_application_payload(
        &mut self,
        payload: ApplicationPayload,
        peer: NodeAddr,
        core_nodes: Vec<NodeAddr>,
        is_core: bool,
    ) -> (r: Option<(ApplicationPayload, Vec<NodeAddr>)>)
        requires
            old(self).well_formed(),
            payload@.well_formed(),
        ensures
            final(self).well_formed(),
            final(self).keys == old(self).keys,
            final(self).chain.difficulty() == old(self).chain.difficulty(),
            ({
                let outcome = application_step(
                    old(self).chain.chain(),
                    old(self).chain.difficulty(),
                    old(self).pool@,
                    payload@,
                    peer,
                    core_nodes@,
                    is_core,
                );
                &&& final(self).chain.chain() == outcome.chain
                &&& final(self).pool@ == outcome.pool
                &&& reply_model(r) == outcome.reply
            }),
            r matches Some(reply) ==> reply.0@.well_formed(),
    {
        match payload {
            ApplicationPayload::NewTransaction { transaction, signature } => {
                if judge_transaction(&self.chain, &self.pool, &transaction, &signature).is_err() {
                    return None;
                }
                self.pool.add_new_transaction(transaction.duplicate());
                if !is_core {
                    Some((ApplicationPayload::NewTransaction { transaction, signature }, core_nodes))
                } else {
                    None
                }
            },
            ApplicationPayload::NewBlock { block } => {
                if self.chain.is_valid_block(&block).is_err() {
                    let mut to: Vec<NodeAddr> = Vec::new();
                    to.push(peer);
                    proof {
                        assert(to@ =~= seq![peer]);
                    }
                    return Some((ApplicationPayload::RequestFullChain, to));
                }
                self.chain.add_new_block(block);
                self.chain.remove_useless_transactions(&mut self.pool);
                None
            },
            ApplicationPayload::RequestFullChain => {
                let chain = self.chain.get_chain();
                let mut to: Vec<NodeAddr> = Vec::new();
                to.push(peer);
                proof {
                    assert(to@ =~= seq![peer]);
                }
                Some((ApplicationPayload::FullChain { chain }, to))
            },
            ApplicationPayload::FullChain { chain } => {
                if !is_core {
                    return None;
                }
                let ghost local = self.chain.chain();
                let ghost other = block_models(chain@);
                let lost = self.chain.resolve_conflicts(chain);
                proof {
                    if supersedes(local, other) {
                        assert forall|i: int| 0 <= i < lost.len() implies (
                        #[trigger] lost@[i]@).well_formed() by {
                            let t = lost@[i]@;
                            assert(normal_models(lost@)[i] == t);
                            assert(orphan_transactions(local, other).contains(t));
                            lemma_orphans_are_lost(local, other, t);
                            lemma_normal_in_some_block(local, local.len() as int, t);
                            let b = choose|b: int|
                                0 <= b < local.len() && (
                                #[trigger] local[b]).inner.transactions.normals.contains(t);
                            assert(local[b].well_formed());
                            let k = choose|k: int|
                                0 <= k < local[b].inner.transactions.normals.len()
                                    && local[b].inner.transactions.normals[k] == t;
                            assert(local[b].inner.transactions.normals[k].well_formed());
                        }
                    } else {
                        assert(normal_models(lost@).len() == 0);
                    }
                }
                readopt(&mut self.pool, &lost);
                None
            },
            ApplicationPayload::Enhanced { data } => None,
        }
    }

    /// The transfer that a request for coins asks for, stamped `timestamp`:
    /// the incentive of the first block that this node mined, made over to
    /// the address that `data` spells. There is none where `data` spells no
    /// text or this node mined no block.
    pub fn prepare_grant(&self, data: Vec<u8>, timestamp: Timestamp) -> (r: Option<
        NormalTransaction,
    >)
        requires
            self.well_formed(),
            timestamp.valid(),
        ensures
            r is Some == can_grant(self.chain.chain(), self.keys.address(), data@),
            r matches Some(transaction) ==> {
                &&& transaction@ == grant(
                    self.chain.chain()[first_mined_by(self.chain.chain(), self.keys.address(), 0)],
                    decode_utf8(data@),
                    timestamp,
                )
                &&& transaction@.well_formed()
                &&& transaction@.signer() == self.keys.address()
            },
    {
        let recipient = match string_from_utf8(data) {
            Some(text) => text,
            None => {
                return None;
            },
        };
        let my_addr = self.keys.get_address();
        let blocks = self.chain.get_chain();
        let ghost chain = self.chain.chain();
        let mut i: usize = 0;
        let mut found: bool = false;
        while i < blocks.len() && !found
            invariant
                i <= blocks.len(),
                block_models(blocks@) == chain,
                my_addr@ == self.keys.address(),
                found ==> i < blocks.len() && chain[i as int].miner() == self.keys.address(),
                first_mined_by(chain, self.keys.address(), 0) == first_mined_by(
                    chain,
                    self.keys.address(),
                    i as int,
                ),
            decreases blocks.len() - i + (if found { 0int } else { 1int }),
        {
            proof {
                assert(chain[i as int] == blocks@[i as int]@);
            }
            if blocks[i].miner() == my_addr {
                found = true;
            } else {
                i += 1;
            }
        }
        if !found {
            return None;
        }
        assert(first_mined_by(chain, self.keys.address(), 0) == i);
        proof {
            assert(chain[i as int] == blocks@[i as int]@);
            assert(chain[i as int].well_formed());
        }
        let coinbase = blocks[i].get_coinbase_transaction();
        let mut inputs: Vec<TransactionInput> = Vec::new();
        inputs.push(TransactionInput::new(Transaction::Coinbase(coinbase), 0));
        let mut outputs: Vec<TransactionOutput> = Vec::new();
        outputs.push(TransactionOutput::new(recipient, COINBASE_INCENTIVE));
        let transaction = NormalTransaction::new(inputs, outputs, timestamp);
        proof {
            let tx = grant(chain[i as int], recipient@, timestamp);
            assert(transaction@.inputs =~= tx.inputs);
            assert(transaction@.outputs =~= tx.outputs);
            let spent = input_values(tx.inputs);
            let paid = output_values(tx.outputs);
            assert(sum_upto(spent, 1) == sum_upto(spent, 0) + spent[0]);
            assert(sum_upto(paid, 1) == sum_upto(paid, 0) + paid[0]);
            assert(tx.inputs[0].well_formed());
            assert(tx.well_formed());
        }
        Some(transaction)
    }

    /// What becomes of a grant once it is known how the signing of it came
    /// out: a grant that was signed joins the pool and is announced to
    /// `core_nodes`; one that was not is dropped, and nothing is changed.
    pub fn conclude_grant(
        &mut self,
        transaction: NormalTransaction,
        announced: Result<ApplicationPayload, CryptoError>,
        core_nodes: Vec<NodeAddr>,
    ) -> (r: Option<(ApplicationPayload, Vec<NodeAddr>)>)
        requires
            old(self).well_formed(),
            transaction@.well_formed(),
        ensures
            final(self).well_formed(),
            final(self).chain == old(self).chain,
            final(self).keys == old(self).keys,
            match announced {
                Ok(payload) => {
                    &&& final(self).pool@ == with_transaction(old(self).pool@, transaction@)
                    &&& r matches Some(reply) && reply.0 == payload && reply.1 == core_nodes
                },
                Err(_) => {
                    &&& final(self).pool@ == old(self).pool@
                    &&& r is None
                },
            },
    {
        match announced {
            Ok(payload) => {
                self.pool.add_new_transaction(transaction);
                Some((payload, core_nodes))
            },
            Err(_) => None,
        }
    }

    /// Answers a request for coins: where the chain holds a block that this
    /// node mined, the incentive of the first such block is made over to
    /// the address that `data` spells, the transfer joins the pool and is
    /// announced to the core nodes, with a signature that holds under the
    /// key of this node. Nothing is done where `data` spells no text, where
    /// this node mined no block, or where the transfer cannot be signed.
    pub fn handle_grant_request(
        &mut self,
        data: Vec<u8>,
        core_nodes: Vec<NodeAddr>,
        timestamp: Timestamp,
    ) -> (r: Option<(ApplicationPayload, Vec<NodeAddr>)>)
        requires
            old(self).well_formed(),
            timestamp.valid(),
        ensures
            final(self).well_formed(),
            grants(*old(self), data@, core_nodes@, timestamp, reply_model(r), *final(self)),
            !can_grant(old(self).chain.chain(), old(self).keys.address(), data@) ==> r is None,
            r matches Some(reply) ==> reply.0@.well_formed(),
            r matches Some(reply) ==> reply.0@ matches ApplicationPayloadModel::NewTransaction {
                transaction,
                signature,
            } && signature_checks(transaction, signature),
    {
        let transaction = match self.prepare_grant(data, timestamp) {
            Some(transaction) => transaction,
            None => {
                return None;
            },
        };
        let copy = transaction.duplicate();
        proof {
            lemma_well_formed_normal_is_dated(transaction@);
            use_type_invariant(&self.keys);
            self.keys.lemma_address_spells_key();
        }
        let signed = ApplicationPayload::for_transaction(copy, &mut self.keys);
        let r = self.conclude_grant(transaction, signed, core_nodes);
        proof {
            let outcome = grant_outcome(*old(self), data@, core_nodes@, timestamp);
            assert(reply_model(r) == outcome.reply);
        }
        r
    }
}

impl ApplicationPayloadHandler for ServerHandler {
    open spec fn ready(&self) -> bool {
        self.well_formed()
    }

    open spec fn answers(
        before: ServerHandler,
        payload: ApplicationPayloadModel,
        peer: NodeAddr,
        core_nodes: Seq<NodeAddr>,
        is_core: bool,
        reply: Option<(ApplicationPayloadModel, Seq<NodeAddr>)>,
        after: ServerHandler,
    ) -> bool {
        server_answers(before, payload, peer, core_nodes, is_core, reply, after)
    }

    fn handle(
        &mut self,
        payload: ApplicationPayload,
        peer: NodeAddr,
        core_nodes: Vec<NodeAddr>,
        is_core: bool,
    ) -> (r: Option<(ApplicationPayload, Vec<NodeAddr>)>) {
        let ghost taken = payload@;
        match payload {
            ApplicationPayload::Enhanced { data } => {
                let now = Timestamp::now();
                let ghost asked = data@;
                let ghost known = core_nodes@;
                let r = self.handle_grant_request(data, core_nodes, now);
                proof {
                    assert(taken->data == asked);
                    assert(grants(*old(self), asked, known, now, reply_model(r), *self));
                    assert(server_answers(
                        *old(self),
                        taken,
                        peer,
                        known,
                        is_core,
                        reply_model(r),
                        *self,
                    ));
                }
                r
            },
            other => {
                proof {
                    assert(other@ == taken);
                    assert(!(taken is Enhanced));
                }
                self.handle_application_payload(other, peer, core_nodes, is_core)
            },
        }
    }
}

/// A core node: its place in the overlay, its chain and pool, and how far
/// it has come between starting and shutting down.
pub struct ServerCore {
    pub state: ServerCoreState,
    pub core_node_addr: Option<NodeAddr>,
    pub cm: ConnectionManagerInner,
    pub handler: ServerHandler,
}

impl ServerCore {
    pub open spec fn state(&self) -> ServerCoreState {
        self.state
    }

    /// The node through which this one joins the overlay, if it is not the
    /// first.
    pub open spec fn seed(&self) -> Option<NodeAddr> {
        self.core_node_addr
    }

    pub fn new(
        my_addr: NodeAddr,
        core_node_addr: Option<NodeAddr>,
        pool: TransactionPool,
        manager: BlockchainManager,
        key_manager: KeyManager,
    ) -> (r: ServerCore)
        ensures
            r.state() == ServerCoreState::Init,
            r.seed() == core_node_addr,
            r.cm.my_addr() == my_addr,
            r.cm.core_nodes() == seq![my_addr],
            r.cm.edge_nodes() == Seq::<NodeAddr>::empty(),
            r.cm.well_formed(),
            r.handler.chain == manager,
            r.handler.pool == pool,
            r.handler.keys == key_manager,
    {
        ServerCore {
            state: ServerCoreState::Init,
            core_node_addr,
            cm: ConnectionManagerInner::new(my_addr),
            handler: ServerHandler::new(manager, pool, key_manager),
        }
    }

    /// The node begins to listen.
    pub fn start(&mut self)
        ensures
            final(self).state() == ServerCoreState::Standby,
            final(self).seed() == old(self).seed(),
            final(self).cm == old(self).cm,
            final(self).handler == old(self).handler,
    {
        self.state = ServerCoreState::Standby;
    }

    /// The node joins the overlay through its seed, where it has one: the
    /// request to send is handed out.
    pub fn join_network(&mut self) -> (r: Option<Outgoing>)
        ensures
            final(self).seed() == old(self).seed(),
            final(self).cm == old(self).cm,
            final(self).handler == old(self).handler,
            final(self).state() == (if old(self).seed() is Some {
                ServerCoreState::ConnectedToNetwork
            } else {
                old(self).state()
            }),
            r is Some == old(self).seed() is Some,
            r matches Some(out) ==> out@ == (OutgoingModel {
                to: old(self).seed()->0,
                message: message_from(old(self).cm.my_addr().port, PayloadModel::Add),
            }),
    {
        match self.core_node_addr {
            Some(core_node_addr) => {
                self.state = ServerCoreState::ConnectedToNetwork;
                Some(self.cm.join_request(core_node_addr))
            },
            None => None,
        }
    }

    /// The node leaves: its seed, where it has one, is told.
    pub fn shutdown(&mut self) -> (r: Option<Outgoing>)
        ensures
            final(self).state() == ServerCoreState::ShuttingDown,
            final(self).seed() == old(self).seed(),
            final(self).cm == old(self).cm,
            final(self).handler == old(self).handler,
            r is Some == old(self).seed() is Some,
            r matches Some(out) ==> out@ == (OutgoingModel {
                to: old(self).seed()->0,
                message: message_from(old(self).cm.my_addr().port, PayloadModel::Remove),
            }),
    {
        self.state = ServerCoreState::ShuttingDown;
        self.cm.leave_notice(self.core_node_addr)
    }

    pub fn get_my_current_state(&self) -> (r: &ServerCoreState)
        ensures
            *r == self.state(),
    {
        &self.state
    }

    /// Takes the bytes that came from the host `source_ip`. Where they are a
    /// well-formed message, the message is taken and what is to be sent is
    /// handed out; anything else is dropped, and nothing is changed.
    pub fn receive_bytes(&mut self, source_ip: u32, bytes: &[u8]) -> (r: Option<Vec<Outgoing>>)
        requires
            old(self).handler.well_formed(),
        ensures
            final(self).handler.well_formed(),
            final(self).state() == old(self).state(),
            final(self).seed() == old(self).seed(),
            final(self).cm.my_addr() == old(self).cm.my_addr(),
            final(self).cm.well_formed(),
            r is Some <==> (message_of_text(bytes@) matches Some(m) && m.well_formed()),
            r is None ==> *final(self) == *old(self),
            r matches Some(out) ==> {
                let message = message_of_text(bytes@)->0;
                &&& forall|i: int|
                    0 <= i < out.len() ==> (#[trigger] out@[i]@).message.well_formed()
                &&& !(message.payload is Application) ==> {
                    let step = membership_step(
                        old(self).cm.core_nodes(),
                        old(self).cm.edge_nodes(),
                        old(self).cm.my_addr(),
                        NodeAddr { ip: source_ip, port: message.port },
                        message.payload,
                    );
                    &&& final(self).cm.core_nodes() == step.core
                    &&& final(self).cm.edge_nodes() == step.edges
                    &&& views(out@) == step.send
                    &&& final(self).handler == old(self).handler
                }
                &&& message.payload matches PayloadModel::Application { payload } ==> {
                    let known = others(old(self).cm.core_nodes(), old(self).cm.my_addr());
                    &&& final(self).cm.core_nodes() == old(self).cm.core_nodes()
                    &&& final(self).cm.edge_nodes() == old(self).cm.edge_nodes()
                    &&& exists|reply: Option<(ApplicationPayloadModel, Seq<NodeAddr>)>|
                        {
                            &&& #[trigger] ServerHandler::answers(
                                old(self).handler,
                                payload,
                                NodeAddr { ip: source_ip, port: message.port },
                                known,
                                known.contains(NodeAddr { ip: source_ip, port: message.port }),
                                reply,
                                final(self).handler,
                            )
                            &&& views(out@) == application_replies(
                                old(self).cm.my_addr().port,
                                reply,
                            )
                        }
                }
            },
    {
        proof {
            use_type_invariant(&self.cm);
        }
        match Message::from_bytes(bytes) {
            Some(message) => if message.is_well_formed() {
                Some(self.receive(source_ip, message))
            } else {
                None
            },
            None => None,
        }
    }

    /// Takes a message that came from the host `source_ip` and says what to
    /// send: a membership payload changes the lists of nodes, an
    /// application payload goes to the chain and the pool.
    pub fn receive(&mut self, source_ip: u32, message: Message) -> (r: Vec<Outgoing>)
        requires
            old(self).handler.well_formed(),
            message@.well_formed(),
        ensures
            final(self).handler.well_formed(),
            final(self).state() == old(self).state(),
            final(self).seed() == old(self).seed(),
            final(self).cm.my_addr() == old(self).cm.my_addr(),
            final(self).cm.well_formed(),
            forall|i: int| 0 <= i < r.len() ==> (#[trigger] r@[i]@).message.well_formed(),
            !(message@.payload is Application) ==> {
                let step = membership_step(
                    old(self).cm.core_nodes(),
                    old(self).cm.edge_nodes(),
                    old(self).cm.my_addr(),
                    NodeAddr { ip: source_ip, port: message@.port },
                    message@.payload,
                );
                &&& final(self).cm.core_nodes() == step.core
                &&& final(self).cm.edge_nodes() == step.edges
                &&& views(r@) == step.send
                &&& final(self).handler == old(self).handler
            },
            message@.payload matches PayloadModel::Application { payload } ==> {
                let known = others(old(self).cm.core_nodes(), old(self).cm.my_addr());
                &&& final(self).cm.core_nodes() == old(self).cm.core_nodes()
                &&& final(self).cm.edge_nodes() == old(self).cm.edge_nodes()
                &&& exists|reply: Option<(ApplicationPayloadModel, Seq<NodeAddr>)>|
                    {
                        &&& #[trigger] ServerHandler::answers(
                            old(self).handler,
                            payload,
                            NodeAddr { ip: source_ip, port: message@.port },
                            known,
                            known.contains(NodeAddr { ip: source_ip, port: message@.port }),
                            reply,
                            final(self).handler,
                        )
                        &&& views(r@) == application_replies(old(self).cm.my_addr().port, reply)
                    }
            },
    {
        let ghost carried = message@;
        let r = self.cm.handle_message(&mut self.handler, source_ip, message);
        proof {
            if carried.payload is Application {
                let peer = NodeAddr { ip: source_ip, port: carried.port };
                let known = others(old(self).cm.core_nodes(), old(self).cm.my_addr());
                let reply = choose|reply: Option<(ApplicationPayloadModel, Seq<NodeAddr>)>|
                    {
                        &&& #[trigger] ServerHandler::answers(
                            old(self).handler,
                            carried.payload->payload,
                            peer,
                            known,
                            known.contains(peer),
                            reply,
                            self.handler,
                        )
                        &&& views(r@) == application_replies(old(self).cm.my_addr().port, reply)
                    };
                assert(ServerHandler::answers(
                    old(self).handler,
                    carried.payload->payload,
                    peer,
                    known,
                    known.contains(peer),
                    reply,
                    self.handler,
                ));
            }
        }
        r
    }
}

} // verus!
