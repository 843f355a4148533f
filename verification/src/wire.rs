//! From bytes to values and back. Whatever can be written, which is whatever
//! carries no timestamp that is not a moment, is read back from the bytes
//! that were written for it.

use vstd::prelude::*;
use crate::blockchain::block::{Block, BlockModel, json_of_block};
use crate::blockchain::block_decode::{block_of_json, lemma_block_round_trip};
use crate::blockchain::transaction::{
    Transaction, TransactionModel, Transactions, TransactionsModel,
};
use crate::blockchain::transaction_decode::{
    lemma_transaction_round_trip, lemma_transactions_round_trip, transaction_of_json,
    transactions_of_json,
};
use crate::blockchain::transaction_json::{json_of_transaction, json_of_transactions};
use crate::json::parser::{parse, parse_json};
use crate::json::round_trip::lemma_parse_json_of_text;
use crate::json::writer::{json_text, to_text};
use crate::message::{Message, MessageModel, json_of_message};
use crate::message_decode::{lemma_message_round_trip, message_of_json};

verus! {

/// The transaction that the text spells, if it spells one.
pub open spec fn transaction_of_text(s: Seq<u8>) -> Option<TransactionModel> {
    match parse_json(s) {
        Some(j) => transaction_of_json(j),
        None => None,
    }
}

/// The block body that the text spells, if it spells one.
pub open spec fn transactions_of_text(s: Seq<u8>) -> Option<TransactionsModel> {
    match parse_json(s) {
        Some(j) => transactions_of_json(j),
        None => None,
    }
}

/// The block that the text spells, if it spells one.
pub open spec fn block_of_text(s: Seq<u8>) -> Option<BlockModel> {
    match parse_json(s) {
        Some(j) => block_of_json(j),
        None => None,
    }
}

/// The message that the text spells, if it spells one.
pub open spec fn message_of_text(s: Seq<u8>) -> Option<MessageModel> {
    match parse_json(s) {
        Some(j) => message_of_json(j),
        None => None,
    }
}

impl Transaction {
    /// The canonical JSON text.
    pub fn to_bytes(&self) -> (r: Vec<u8>)
        requires
            self@.dated(),
        ensures
            r@ == json_text(json_of_transaction(self@)),
    {
        let j = self.to_json();
        to_text(&j)
    }

    /// Reads a transaction from JSON text. What is read is dated; whether
    /// it is well formed is for `is_well_formed` to say.
    pub fn from_bytes(text: &[u8]) -> (r: Option<Transaction>)
        ensures
            match r {
                Some(t) => transaction_of_text(text@) == Some(t@) && t@.dated(),
                None => transaction_of_text(text@) is None,
            },
    {
        let j = match parse(text) {
            Some(j) => j,
            None => {
                return None;
            },
        };
        Transaction::from_json(&j)
    }
}

impl Transactions {
    /// The canonical JSON text.
    pub fn to_bytes(&self) -> (r: Vec<u8>)
        requires
            self@.dated(),
        ensures
            r@ == json_text(json_of_transactions(self@)),
    {
        let j = self.to_json();
        to_text(&j)
    }

    /// Reads a block body from JSON text.
    pub fn from_bytes(text: &[u8]) -> (r: Option<Transactions>)
        ensures
            match r {
                Some(t) => transactions_of_text(text@) == Some(t@) && t@.dated(),
                None => transactions_of_text(text@) is None,
            },
    {
        let j = match parse(text) {
            Some(j) => j,
            None => {
                return None;
            },
        };
        Transactions::from_json(&j)
    }
}

impl Block {
    /// The canonical JSON text, nonce included.
    pub fn to_bytes(&self) -> (r: Vec<u8>)
        requires
            self@.dated(),
        ensures
            r@ == json_text(json_of_block(self@)),
    {
        let j = self.to_json();
        to_text(&j)
    }

    /// Reads a block from JSON text.
    pub fn from_bytes(text: &[u8]) -> (r: Option<Block>)
        ensures
            match r {
                Some(b) => block_of_text(text@) == Some(b@) && b@.dated(),
                None => block_of_text(text@) is None,
            },
    {
        let j = match parse(text) {
            Some(j) => j,
            None => {
                return None;
            },
        };
        Block::from_json(&j)
    }
}

impl Message {
    /// Reads a message from the bytes that came in. What is read is dated;
    /// whether it is well formed is for `is_well_formed` to say.
    pub fn from_bytes(text: &[u8]) -> (r: Option<Message>)
        ensures
            match r {
                Some(m) => message_of_text(text@) == Some(m@) && m@.dated(),
                None => message_of_text(text@) is None,
            },
    {
        let j = match parse(text) {
            Some(j) => j,
            None => {
                return None;
            },
        };
        Message::from_json(&j)
    }
}

/// A transaction is read back from its canonical text.
pub proof fn theorem_transaction_round_trip(t: TransactionModel)
    requires
        t.dated(),
    ensures
        transaction_of_text(json_text(json_of_transaction(t))) == Some(t),
{
    lemma_parse_json_of_text(json_of_transaction(t));
    lemma_transaction_round_trip(t);
}

/// A block body is read back from its canonical text.
pub proof fn theorem_transactions_round_trip(t: TransactionsModel)
    requires
        t.dated(),
    ensures
        transactions_of_text(json_text(json_of_transactions(t))) == Some(t),
{
    lemma_parse_json_of_text(json_of_transactions(t));
    lemma_transactions_round_trip(t);
}

/// A block is read back from its canonical text.
pub proof fn theorem_block_round_trip(b: BlockModel)
    requires
        b.dated(),
    ensures
        block_of_text(json_text(json_of_block(b))) == Some(b),
{
    lemma_parse_json_of_text(json_of_block(b));
    lemma_block_round_trip(b);
}

/// A message is read back from the bytes that travel for it.
pub proof fn theorem_message_round_trip(m: MessageModel)
    requires
        m.dated(),
    ensures
        message_of_text(json_text(json_of_message(m))) == Some(m),
{
    lemma_parse_json_of_text(json_of_message(m));
    lemma_message_round_trip(m);
}

} // verus!
