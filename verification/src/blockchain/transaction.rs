//! Transactions: the coinbase that pays a miner, and the normal transfer
//! that spends outputs of earlier transactions, which it carries whole.

use vstd::prelude::*;
use vstd::std_specs::cmp::PartialEqSpecImpl;
use crate::structure::{Structure, list_duplicate, list_same, views};
use crate::sums::{lemma_sum_upto_monotonic, sum, sum_upto};
use crate::timestamp::Timestamp;
use crate::util::{bytes_of_hex, decode_hex, is_hex};

verus! {

/// The lowercase hexadecimal spelling of a public key in DER.
pub type Address = String;

/// The lowercase hexadecimal spelling of a signature.
pub type TransactionSignature = String;

/// An amount made over to a recipient, as mathematics.
pub struct OutputModel {
    pub recipient: Seq<char>,
    pub value: u64,
}

/// A reference to one output of an earlier transaction, which is held whole.
pub struct InputModel {
    pub transaction: TransactionModel,
    pub index: u32,
}

/// The payment of a miner: one output and no input.
pub struct CoinbaseModel {
    pub recipient: Seq<char>,
    pub value: u64,
    pub timestamp: Timestamp,
}

/// A transfer: what it spends, what it makes over, and when it was made.
pub struct NormalModel {
    pub inputs: Seq<InputModel>,
    pub outputs: Seq<OutputModel>,
    pub timestamp: Timestamp,
}

/// A transaction of either kind.
pub enum TransactionModel {
    Coinbase(CoinbaseModel),
    Normal(NormalModel),
}

/// The body of a block: the coinbase first, then the normal transactions.
pub struct TransactionsModel {
    pub coinbase: CoinbaseModel,
    pub normals: Seq<NormalModel>,
}

impl CoinbaseModel {
    /// The one output that a coinbase has.
    pub open spec fn output(self) -> OutputModel {
        OutputModel { recipient: self.recipient, value: self.value }
    }
}

impl TransactionModel {
    /// The outputs: the one of a coinbase, or those of a normal transaction.
    pub open spec fn outputs(self) -> Seq<OutputModel> {
        match self {
            TransactionModel::Coinbase(c) => seq![c.output()],
            TransactionModel::Normal(n) => n.outputs,
        }
    }

    /// The inputs: none for a coinbase.
    pub open spec fn inputs(self) -> Seq<InputModel> {
        match self {
            TransactionModel::Coinbase(c) => Seq::empty(),
            TransactionModel::Normal(n) => n.inputs,
        }
    }

    pub open spec fn well_formed(self) -> bool {
        transaction_well_formed(self)
    }

    pub open spec fn dated(self) -> bool {
        transaction_dated(self)
    }
}

impl InputModel {
    /// Whether the index names an output of the transaction referred to.
    pub open spec fn in_range(self) -> bool {
        (self.index as int) < self.transaction.outputs().len()
    }

    /// The output that this input spends.
    pub open spec fn spent(self) -> OutputModel {
        self.transaction.outputs()[self.index as int]
    }

    pub open spec fn well_formed(self) -> bool {
        input_well_formed(self)
    }

    pub open spec fn dated(self) -> bool {
        input_dated(self)
    }
}

/// The amounts of the outputs, one for one.
pub open spec fn output_values(outputs: Seq<OutputModel>) -> Seq<u64> {
    Seq::new(outputs.len(), |i: int| outputs[i].value)
}

/// The amounts that the inputs spend, one for one.
pub open spec fn input_values(inputs: Seq<InputModel>) -> Seq<u64> {
    Seq::new(inputs.len(), |i: int| inputs[i].spent().value)
}

impl NormalModel {
    /// The sum of what the inputs spend.
    pub open spec fn input_value(self) -> nat {
        sum(input_values(self.inputs))
    }

    /// The sum of what the outputs make over.
    pub open spec fn output_value(self) -> nat {
        sum(output_values(self.outputs))
    }

    /// What is left to the miner: inputs less outputs.
    pub open spec fn fee(self) -> int {
        self.input_value() - self.output_value()
    }

    /// The address whose key signs the transaction: the recipient of the
    /// output that the first input spends.
    pub open spec fn signer(self) -> Seq<char> {
        self.inputs[0].spent().recipient
    }

    pub open spec fn well_formed(self) -> bool {
        normal_well_formed(self)
    }

    pub open spec fn dated(self) -> bool {
        normal_dated(self)
    }
}

/// A transaction is dated when its timestamp is a moment and every
/// transaction that its inputs refer to is dated. That is all it takes for
/// the transaction to be written and read back.
pub open spec fn transaction_dated(t: TransactionModel) -> bool
    decreases t,
{
    match t {
        TransactionModel::Coinbase(c) => c.timestamp.valid(),
        TransactionModel::Normal(n) => normal_dated(n),
    }
}

/// A normal transaction is dated when its timestamp is a moment and each of
/// its inputs is dated.
pub open spec fn normal_dated(n: NormalModel) -> bool
    decreases n,
{
    &&& n.timestamp.valid()
    &&& forall|i: int| 0 <= i < n.inputs.len() ==> input_dated(#[trigger] n.inputs[i])
}

/// An input is dated when the transaction that it refers to is.
pub open spec fn input_dated(i: InputModel) -> bool
    decreases i,
{
    transaction_dated(i.transaction)
}

/// A transaction is well formed when its timestamp is a moment, every input
/// names an output of a well-formed transaction, the sum of its inputs and
/// the sum of its outputs each fit in 64 bits, and each of its outputs has a
/// place that fits in 32 bits.
pub open spec fn transaction_well_formed(t: TransactionModel) -> bool
    decreases t,
{
    match t {
        TransactionModel::Coinbase(c) => c.timestamp.valid(),
        TransactionModel::Normal(n) => normal_well_formed(n),
    }
}

/// The same, of a normal transaction.
pub open spec fn normal_well_formed(n: NormalModel) -> bool
    decreases n,
{
    &&& n.timestamp.valid()
    &&& forall|i: int| 0 <= i < n.inputs.len() ==> input_well_formed(#[trigger] n.inputs[i])
    &&& sum(input_values(n.inputs)) <= u64::MAX
    &&& sum(output_values(n.outputs)) <= u64::MAX
    &&& n.outputs.len() <= u32::MAX
}

/// An input is well formed when it names an output of a well-formed
/// transaction.
pub open spec fn input_well_formed(i: InputModel) -> bool
    decreases i,
{
    &&& transaction_well_formed(i.transaction)
    &&& (i.index as int) < i.transaction.outputs().len()
}

/// A well-formed transaction is dated.
pub proof fn lemma_well_formed_is_dated(t: TransactionModel)
    requires
        t.well_formed(),
    ensures
        t.dated(),
    decreases t,
{
    match t {
        TransactionModel::Coinbase(c) => {},
        TransactionModel::Normal(n) => {
            lemma_well_formed_normal_is_dated(n);
        },
    }
}

/// A well-formed normal transaction is dated.
pub proof fn lemma_well_formed_normal_is_dated(n: NormalModel)
    requires
        n.well_formed(),
    ensures
        n.dated(),
    decreases n,
{
    assert forall|i: int| 0 <= i < n.inputs.len() implies input_dated(#[trigger] n.inputs[i]) by {
        assert(input_well_formed(n.inputs[i]));
        lemma_well_formed_is_dated(n.inputs[i].transaction);
    }
}

/// The sum of the fees of the first `k` transactions.
pub open spec fn fees_upto(normals: Seq<NormalModel>, k: int) -> int
    decreases k,
{
    if k <= 0 {
        0
    } else {
        fees_upto(normals, k - 1) + normals[k - 1].fee()
    }
}

/// The sum of the fees of all the transactions.
pub open spec fn total_fee(normals: Seq<NormalModel>) -> int {
    fees_upto(normals, normals.len() as int)
}

impl TransactionsModel {
    /// All the transactions in their order: the coinbase, then the normal
    /// ones.
    pub open spec fn all(self) -> Seq<TransactionModel> {
        seq![TransactionModel::Coinbase(self.coinbase)] + Seq::new(
            self.normals.len(),
            |i: int| TransactionModel::Normal(self.normals[i]),
        )
    }

    pub open spec fn well_formed(self) -> bool {
        &&& self.coinbase.timestamp.valid()
        &&& forall|i: int| 0 <= i < self.normals.len() ==> (#[trigger] self.normals[i]).well_formed()
    }

    /// Every transaction of the block body is dated.
    pub open spec fn dated(self) -> bool {
        &&& self.coinbase.timestamp.valid()
        &&& forall|i: int| 0 <= i < self.normals.len() ==> (#[trigger] self.normals[i]).dated()
    }
}

/// A well-formed block body is dated.
pub proof fn lemma_well_formed_body_is_dated(b: TransactionsModel)
    requires
        b.well_formed(),
    ensures
        b.dated(),
{
    assert forall|i: int| 0 <= i < b.normals.len() implies (#[trigger] b.normals[i]).dated() by {
        assert(b.normals[i].well_formed());
        lemma_well_formed_normal_is_dated(b.normals[i]);
    }
}

/// An amount made over to a recipient.
#[derive(Debug)]
pub struct TransactionOutput {
    pub recipient: Address,
    pub value: u64,
}

/// A reference to one output of an earlier transaction, which is held
/// whole.
#[derive(Debug)]
pub struct TransactionInput {
    pub transaction: Transaction,
    pub index: u32,
}

/// A transaction of either kind.
#[derive(Debug)]
pub enum Transaction {
    Coinbase(CoinbaseTransaction),
    Normal(NormalTransaction),
}

/// The payment of a miner: one output and no input.
#[derive(Debug)]
pub struct CoinbaseTransaction {
    pub recipient: Address,
    pub value: u64,
    pub timestamp: Timestamp,
}

/// A transfer: what it spends, what it makes over, and when it was made.
#[derive(Debug)]
pub struct NormalTransaction {
    pub inputs: Vec<TransactionInput>,
    pub outputs: Vec<TransactionOutput>,
    pub timestamp: Timestamp,
}

/// The transactions of one block. The first is the coinbase; the others are
/// normal.
#[derive(Debug)]
pub struct Transactions {
    pub coinbase: CoinbaseTransaction,
    pub transactions: Vec<NormalTransaction>,
}

/// The model of an input.
pub open spec fn input_model(input: TransactionInput) -> InputModel
    decreases input,
{
    InputModel { transaction: transaction_model(input.transaction), index: input.index }
}

/// The model of a normal transaction.
pub open spec fn normal_model(n: NormalTransaction) -> NormalModel
    decreases n,
{
    NormalModel {
        inputs: Seq::new(
            n.inputs.len() as nat,
            |i: int|
                if 0 <= i < n.inputs.len() {
                    input_model(n.inputs[i])
                } else {
                    arbitrary()
                },
        ),
        outputs: Seq::new(n.outputs.len() as nat, |i: int| n.outputs[i]@),
        timestamp: n.timestamp,
    }
}

/// The model of a transaction.
pub open spec fn transaction_model(t: Transaction) -> TransactionModel
    decreases t,
{
    match t {
        Transaction::Coinbase(c) => TransactionModel::Coinbase(c@),
        Transaction::Normal(n) => TransactionModel::Normal(normal_model(n)),
    }
}

impl View for TransactionOutput {
    type V = OutputModel;

    open spec fn view(&self) -> OutputModel {
        OutputModel { recipient: self.recipient@, value: self.value }
    }
}

impl View for CoinbaseTransaction {
    type V = CoinbaseModel;

    open spec fn view(&self) -> CoinbaseModel {
        CoinbaseModel { recipient: self.recipient@, value: self.value, timestamp: self.timestamp }
    }
}

impl View for TransactionInput {
    type V = InputModel;

    open spec fn view(&self) -> InputModel {
        input_model(*self)
    }
}

impl View for NormalTransaction {
    type V = NormalModel;

    open spec fn view(&self) -> NormalModel {
        normal_model(*self)
    }
}

impl View for Transaction {
    type V = TransactionModel;

    open spec fn view(&self) -> TransactionModel {
        transaction_model(*self)
    }
}

/// The models of a list of outputs, one for one.
pub open spec fn output_models(outputs: Seq<TransactionOutput>) -> Seq<OutputModel> {
    views(outputs)
}

/// The models of a list of inputs, one for one.
pub open spec fn input_models(inputs: Seq<TransactionInput>) -> Seq<InputModel> {
    views(inputs)
}

/// The models of a list of normal transactions, one for one.
pub open spec fn normal_models(normals: Seq<NormalTransaction>) -> Seq<NormalModel> {
    views(normals)
}

/// The models of a list of transactions, one for one.
pub open spec fn transaction_models(transactions: Seq<Transaction>) -> Seq<TransactionModel> {
    views(transactions)
}

impl View for Transactions {
    type V = TransactionsModel;

    open spec fn view(&self) -> TransactionsModel {
        TransactionsModel { coinbase: self.coinbase@, normals: normal_models(self.transactions@) }
    }
}

/// The model of a normal transaction, field by field.
pub proof fn lemma_normal_view(n: &NormalTransaction)
    ensures
        n@.inputs == input_models(n.inputs@),
        n@.outputs == output_models(n.outputs@),
        n@.timestamp == n.timestamp,
{
    assert(n@.inputs =~= input_models(n.inputs@));
    assert(n@.outputs =~= output_models(n.outputs@));
}

impl TransactionOutput {
    pub fn new(recipient: Address, value: u64) -> (r: TransactionOutput)
        ensures
            r@ == (OutputModel { recipient: recipient@, value }),
    {
        TransactionOutput { recipient, value }
    }

    pub fn get_recipient(&self) -> (r: Address)
        ensures
            r@ == self@.recipient,
    {
        self.recipient.clone()
    }

    pub fn get_value(&self) -> (r: u64)
        ensures
            r == self@.value,
    {
        self.value
    }

    /// A copy of the output.
    pub fn duplicate(&self) -> (r: TransactionOutput)
        ensures
            r@ == self@,
    {
        TransactionOutput { recipient: self.recipient.clone(), value: self.value }
    }

    /// Whether the two outputs are equal field by field.
    pub fn same(&self, other: &TransactionOutput) -> (r: bool)
        ensures
            r == (self@ == other@),
    {
        self.value == other.value && self.recipient == other.recipient
    }
}

impl CoinbaseTransaction {
    pub fn new(recipient: Address, value: u64, timestamp: Timestamp) -> (r: CoinbaseTransaction)
        ensures
            r@ == (CoinbaseModel { recipient: recipient@, value, timestamp }),
    {
        CoinbaseTransaction { recipient, value, timestamp }
    }

    pub fn get_value(&self) -> (r: u64)
        ensures
            r == self@.value,
    {
        self.value
    }

    /// A copy of the transaction.
    pub fn duplicate(&self) -> (r: CoinbaseTransaction)
        ensures
            r@ == self@,
    {
        CoinbaseTransaction {
            recipient: self.recipient.clone(),
            value: self.value,
            timestamp: self.timestamp,
        }
    }

    /// Whether the two transactions are equal field by field.
    pub fn same(&self, other: &CoinbaseTransaction) -> (r: bool)
        ensures
            r == (self@ == other@),
    {
        self.value == other.value && self.timestamp == other.timestamp && self.recipient
            == other.recipient
    }
}

impl TransactionInput {
    pub fn new(transaction: Transaction, index: u32) -> (r: TransactionInput)
        ensures
            r@ == (InputModel { transaction: transaction@, index }),
    {
        TransactionInput { transaction, index }
    }

    pub fn get_transaction(&self) -> (r: &Transaction)
        ensures
            r@ == self@.transaction,
    {
        &self.transaction
    }

    /// The recipient of the output that this input spends.
    pub fn get_recipient(&self) -> (r: Address)
        requires
            self@.in_range(),
        ensures
            r@ == self@.spent().recipient,
    {
        match &self.transaction {
            Transaction::Coinbase(c) => c.recipient.clone(),
            Transaction::Normal(n) => {
                proof {
                    lemma_normal_view(n);
                }
                n.outputs[self.index as usize].recipient.clone()
            },
        }
    }

    /// The amount of the output that this input spends.
    pub fn get_value(&self) -> (r: u64)
        requires
            self@.in_range(),
        ensures
            r == self@.spent().value,
    {
        match &self.transaction {
            Transaction::Coinbase(c) => c.value,
            Transaction::Normal(n) => {
                proof {
                    lemma_normal_view(n);
                }
                n.outputs[self.index as usize].value
            },
        }
    }

    /// A copy of the input, with all that it carries.
    pub fn duplicate(&self) -> (r: TransactionInput)
        ensures
            r@ == self@,
        decreases self,
    {
        TransactionInput { transaction: self.transaction.duplicate(), index: self.index }
    }

    /// Whether the two inputs are equal through all that they carry.
    pub fn same(&self, other: &TransactionInput) -> (r: bool)
        ensures
            r == (self@ == other@),
        decreases self,
    {
        self.index == other.index && self.transaction.same(&other.transaction)
    }

    /// Whether the input names an output of a well-formed transaction.
    pub fn is_well_formed(&self) -> (r: bool)
        ensures
            r == self@.well_formed(),
        decreases self,
    {
        self.transaction.is_well_formed() && (self.index as usize)
            < self.transaction.output_count()
    }
}

impl NormalTransaction {
    pub fn new(
        inputs: Vec<TransactionInput>,
        outputs: Vec<TransactionOutput>,
        timestamp: Timestamp,
    ) -> (r: NormalTransaction)
        ensures
            r@ == (NormalModel {
                inputs: input_models(inputs@),
                outputs: output_models(outputs@),
                timestamp,
            }),
    {
        let r = NormalTransaction { inputs, outputs, timestamp };
        proof {
            lemma_normal_view(&r);
        }
        r
    }

    /// The sum of what the inputs spend.
    pub fn get_input_value(&self) -> (r: u64)
        requires
            self@.well_formed(),
        ensures
            r == self@.input_value(),
    {
        proof {
            lemma_normal_view(self);
        }
        let ghost values = input_values(self@.inputs);
        let mut total: u64 = 0;
        let mut i: usize = 0;
        while i < self.inputs.len()
            invariant
                i <= self.inputs.len(),
                self@.well_formed(),
                self@.inputs == input_models(self.inputs@),
                values == input_values(self@.inputs),
                total == sum_upto(values, i as int),
            decreases self.inputs.len() - i,
        {
            proof {
                lemma_sum_upto_monotonic(values, i + 1, values.len() as int);
                assert(input_well_formed(self@.inputs[i as int]));
            }
            total = total + self.inputs[i].get_value();
            i += 1;
        }
        total
    }

    /// The sum of what the outputs make over.
    pub fn get_output_value(&self) -> (r: u64)
        requires
            self@.well_formed(),
        ensures
            r == self@.output_value(),
    {
        proof {
            lemma_normal_view(self);
        }
        let ghost values = output_values(self@.outputs);
        let mut total: u64 = 0;
        let mut i: usize = 0;
        while i < self.outputs.len()
            invariant
                i <= self.outputs.len(),
                self@.well_formed(),
                self@.outputs == output_models(self.outputs@),
                values == output_values(self@.outputs),
                total == sum_upto(values, i as int),
            decreases self.outputs.len() - i,
        {
            proof {
                lemma_sum_upto_monotonic(values, i + 1, values.len() as int);
            }
            total = total + self.outputs[i].value;
            i += 1;
        }
        total
    }

    /// The public key, in DER, that the signer's address spells: `None`
    /// where there is no input or the address is not hexadecimal.
    pub fn get_input_pubkey(&self) -> (r: Option<Vec<u8>>)
        requires
            self@.inputs.len() > 0 ==> self@.inputs[0].in_range(),
        ensures
            match r {
                Some(key) => self@.inputs.len() > 0 && is_hex(self@.signer()) && key@
                    == bytes_of_hex(self@.signer()),
                None => self@.inputs.len() == 0 || !is_hex(self@.signer()),
            },
    {
        proof {
            lemma_normal_view(self);
        }
        if self.inputs.len() == 0 {
            return None;
        }
        let address = self.inputs[0].get_recipient();
        decode_hex(address.as_str())
    }

    pub fn get_input(&self, idx: usize) -> (r: Option<TransactionInput>)
        ensures
            match r {
                Some(input) => idx < self@.inputs.len() && input@ == self@.inputs[idx as int],
                None => idx >= self@.inputs.len(),
            },
    {
        proof {
            lemma_normal_view(self);
        }
        if idx < self.inputs.len() {
            Some(self.inputs[idx].duplicate())
        } else {
            None
        }
    }

    pub fn get_inputs(&self) -> (r: Vec<TransactionInput>)
        ensures
            input_models(r@) == self@.inputs,
    {
        let copy = self.duplicate();
        proof {
            lemma_normal_view(&copy);
        }
        copy.inputs
    }

    pub fn get_output(&self, idx: usize) -> (r: Option<TransactionOutput>)
        ensures
            match r {
                Some(output) => idx < self@.outputs.len() && output@ == self@.outputs[idx as int],
                None => idx >= self@.outputs.len(),
            },
    {
        proof {
            lemma_normal_view(self);
        }
        if idx < self.outputs.len() {
            Some(self.outputs[idx].duplicate())
        } else {
            None
        }
    }

    pub fn get_outputs(&self) -> (r: Vec<TransactionOutput>)
        ensures
            output_models(r@) == self@.outputs,
    {
        let copy = self.duplicate();
        proof {
            lemma_normal_view(&copy);
        }
        copy.outputs
    }

    /// A copy of the transaction, with all that its inputs carry.
    pub fn duplicate(&self) -> (r: NormalTransaction)
        ensures
            r@ == self@,
        decreases self,
    {
        let mut inputs: Vec<TransactionInput> = Vec::new();
        let mut i: usize = 0;
        while i < self.inputs.len()
            invariant
                i <= self.inputs.len(),
                inputs.len() == i,
                forall|j: int| 0 <= j < i ==> inputs@[j]@ == self.inputs@[j]@,
            decreases self.inputs.len() - i,
        {
            proof {
                assert(decreases_to!(*self => self.inputs));
                assert(decreases_to!(self.inputs => self.inputs[i as int]));
            }
            let input = self.inputs[i].duplicate();
            inputs.push(input);
            i += 1;
        }
        let mut outputs: Vec<TransactionOutput> = Vec::new();
        let mut k: usize = 0;
        while k < self.outputs.len()
            invariant
                k <= self.outputs.len(),
                outputs.len() == k,
                forall|j: int| 0 <= j < k ==> outputs@[j]@ == self.outputs@[j]@,
            decreases self.outputs.len() - k,
        {
            let output = self.outputs[k].duplicate();
            outputs.push(output);
            k += 1;
        }
        let r = NormalTransaction { inputs, outputs, timestamp: self.timestamp };
        proof {
            lemma_normal_view(&r);
            lemma_normal_view(self);
            assert(r@.inputs =~= self@.inputs);
            assert(r@.outputs =~= self@.outputs);
        }
        r
    }

    /// Whether the two transactions are equal through all that they carry.
    pub fn same(&self, other: &NormalTransaction) -> (r: bool)
        ensures
            r == (self@ == other@),
        decreases self,
    {
        proof {
            lemma_normal_view(self);
            lemma_normal_view(other);
        }
        if !(self.timestamp == other.timestamp) {
            return false;
        }
        if self.inputs.len() != other.inputs.len() {
            assert(self@.inputs.len() != other@.inputs.len());
            return false;
        }
        if self.outputs.len() != other.outputs.len() {
            assert(self@.outputs.len() != other@.outputs.len());
            return false;
        }
        let mut i: usize = 0;
        while i < self.inputs.len()
            invariant
                i <= self.inputs.len(),
                self.inputs.len() == other.inputs.len(),
                self@.inputs == input_models(self.inputs@),
                other@.inputs == input_models(other.inputs@),
                forall|j: int| 0 <= j < i ==> self.inputs@[j]@ == other.inputs@[j]@,
            decreases self.inputs.len() - i,
        {
            proof {
                assert(decreases_to!(*self => self.inputs));
                assert(decreases_to!(self.inputs => self.inputs[i as int]));
            }
            if !self.inputs[i].same(&other.inputs[i]) {
                proof {
                    assert(self@.inputs[i as int] != other@.inputs[i as int]);
                }
                return false;
            }
            i += 1;
        }
        let mut k: usize = 0;
        while k < self.outputs.len()
            invariant
                k <= self.outputs.len(),
                self.outputs.len() == other.outputs.len(),
                self@.outputs == output_models(self.outputs@),
                other@.outputs == output_models(other.outputs@),
                forall|j: int| 0 <= j < k ==> self.outputs@[j]@ == other.outputs@[j]@,
            decreases self.outputs.len() - k,
        {
            if !self.outputs[k].same(&other.outputs[k]) {
                proof {
                    assert(self@.outputs[k as int] != other@.outputs[k as int]);
                }
                return false;
            }
            k += 1;
        }
        proof {
            assert(self@.inputs =~= other@.inputs);
            assert(self@.outputs =~= other@.outputs);
        }
        true
    }

    /// Whether the transaction is well formed.
    pub fn is_well_formed(&self) -> (r: bool)
        ensures
            r == self@.well_formed(),
        decreases self,
    {
        proof {
            lemma_normal_view(self);
        }
        if !self.timestamp.is_valid() || self.outputs.len() > u32::MAX as usize {
            return false;
        }
        let ghost in_values = input_values(self@.inputs);
        let mut total: u64 = 0;
        let mut i: usize = 0;
        while i < self.inputs.len()
            invariant
                i <= self.inputs.len(),
                self@.inputs == input_models(self.inputs@),
                in_values == input_values(self@.inputs),
                forall|j: int| 0 <= j < i ==> input_well_formed(#[trigger] self@.inputs[j]),
                total == sum_upto(in_values, i as int),
            decreases self.inputs.len() - i,
        {
            proof {
                assert(decreases_to!(*self => self.inputs));
                assert(decreases_to!(self.inputs => self.inputs[i as int]));
            }
            if !self.inputs[i].is_well_formed() {
                proof {
                    assert(!input_well_formed(self@.inputs[i as int]));
                }
                return false;
            }
            let value = self.inputs[i].get_value();
            if value > u64::MAX - total {
                proof {
                    lemma_sum_upto_monotonic(in_values, i + 1, in_values.len() as int);
                }
                return false;
            }
            total = total + value;
            i += 1;
        }
        let ghost out_values = output_values(self@.outputs);
        let mut paid: u64 = 0;
        let mut k: usize = 0;
        while k < self.outputs.len()
            invariant
                k <= self.outputs.len(),
                self@.outputs == output_models(self.outputs@),
                out_values == output_values(self@.outputs),
                paid == sum_upto(out_values, k as int),
            decreases self.outputs.len() - k,
        {
            let value = self.outputs[k].value;
            if value > u64::MAX - paid {
                proof {
                    lemma_sum_upto_monotonic(out_values, k + 1, out_values.len() as int);
                }
                return false;
            }
            paid = paid + value;
            k += 1;
        }
        true
    }
}

impl Transaction {
    /// How many outputs the transaction has.
    pub fn output_count(&self) -> (r: usize)
        ensures
            r == self@.outputs().len(),
    {
        match self {
            Transaction::Coinbase(_) => 1,
            Transaction::Normal(n) => {
                proof {
                    lemma_normal_view(n);
                }
                n.outputs.len()
            },
        }
    }

    pub fn get_input(&self, idx: usize) -> (r: Option<TransactionInput>)
        ensures
            match r {
                Some(input) => idx < self@.inputs().len() && input@ == self@.inputs()[idx as int],
                None => idx >= self@.inputs().len(),
            },
    {
        match self {
            Transaction::Coinbase(_) => None,
            Transaction::Normal(n) => n.get_input(idx),
        }
    }

    pub fn get_inputs(&self) -> (r: Vec<TransactionInput>)
        ensures
            input_models(r@) == self@.inputs(),
    {
        match self {
            Transaction::Coinbase(_) => {
                let r: Vec<TransactionInput> = Vec::new();
                proof {
                    assert(input_models(r@) =~= self@.inputs());
                }
                r
            },
            Transaction::Normal(n) => n.get_inputs(),
        }
    }

    pub fn get_output(&self, idx: usize) -> (r: Option<TransactionOutput>)
        ensures
            match r {
                Some(output) => idx < self@.outputs().len() && output@ == self@.outputs()[idx as int],
                None => idx >= self@.outputs().len(),
            },
    {
        match self {
            Transaction::Coinbase(c) => {
                if idx == 0 {
                    Some(TransactionOutput::new(c.recipient.clone(), c.value))
                } else {
                    None
                }
            },
            Transaction::Normal(n) => n.get_output(idx),
        }
    }

    pub fn get_outputs(&self) -> (r: Vec<TransactionOutput>)
        ensures
            output_models(r@) == self@.outputs(),
    {
        match self {
            Transaction::Coinbase(c) => {
                let mut r: Vec<TransactionOutput> = Vec::new();
                r.push(TransactionOutput::new(c.recipient.clone(), c.value));
                proof {
                    assert(output_models(r@) =~= self@.outputs());
                }
                r
            },
            Transaction::Normal(n) => n.get_outputs(),
        }
    }

    /// A copy of the transaction, with all that its inputs carry.
    pub fn duplicate(&self) -> (r: Transaction)
        ensures
            r@ == self@,
        decreases self,
    {
        match self {
            Transaction::Coinbase(c) => Transaction::Coinbase(c.duplicate()),
            Transaction::Normal(n) => Transaction::Normal(n.duplicate()),
        }
    }

    /// Whether the two transactions are equal through all that they carry.
    pub fn same(&self, other: &Transaction) -> (r: bool)
        ensures
            r == (self@ == other@),
        decreases self,
    {
        match (self, other) {
            (Transaction::Coinbase(a), Transaction::Coinbase(b)) => a.same(b),
            (Transaction::Normal(a), Transaction::Normal(b)) => a.same(b),
            _ => false,
        }
    }

    /// Whether the transaction is well formed.
    pub fn is_well_formed(&self) -> (r: bool)
        ensures
            r == self@.well_formed(),
        decreases self,
    {
        match self {
            Transaction::Coinbase(c) => c.timestamp.is_valid(),
            Transaction::Normal(n) => n.is_well_formed(),
        }
    }
}

/// The sum of the inputs and the sum of the outputs of a list of well-formed
/// transactions. The difference of the two is the sum of the fees.
pub fn input_and_output_totals(list: &Vec<NormalTransaction>) -> (r: (u128, u128))
    requires
        forall|i: int| 0 <= i < list.len() ==> (#[trigger] list@[i]@).well_formed(),
    ensures
        r.0 - r.1 == total_fee(normal_models(list@)),
        r.0 <= list.len() * 0xffff_ffff_ffff_ffff,
        r.1 <= list.len() * 0xffff_ffff_ffff_ffff,
{
    let ghost models = normal_models(list@);
    let mut spent: u128 = 0;
    let mut paid: u128 = 0;
    let mut i: usize = 0;
    while i < list.len()
        invariant
            i <= list.len(),
            models == normal_models(list@),
            forall|k: int| 0 <= k < list.len() ==> (#[trigger] list@[k]@).well_formed(),
            spent - paid == fees_upto(models, i as int),
            spent <= i * 0xffff_ffff_ffff_ffff,
            paid <= i * 0xffff_ffff_ffff_ffff,
        decreases list.len() - i,
    {
        proof {
            assert(list@[i as int]@.well_formed());
            assert(models[i as int] == list@[i as int]@);
        }
        let a = list[i].get_input_value();
        let b = list[i].get_output_value();
        spent = spent + a as u128;
        paid = paid + b as u128;
        i += 1;
    }
    (spent, paid)
}

impl Transactions {
    pub fn new(coinbase: CoinbaseTransaction, transactions: Vec<NormalTransaction>) -> (r:
        Transactions)
        ensures
            r@ == (TransactionsModel {
                coinbase: coinbase@,
                normals: normal_models(transactions@),
            }),
    {
        Transactions { coinbase, transactions }
    }

    pub fn get_transaction_at(&self, idx: usize) -> (r: Option<Transaction>)
        ensures
            match r {
                Some(t) => idx < self@.all().len() && t@ == self@.all()[idx as int],
                None => idx >= self@.all().len(),
            },
    {
        if idx == 0 {
            Some(Transaction::Coinbase(self.coinbase.duplicate()))
        } else if idx - 1 < self.transactions.len() {
            Some(Transaction::Normal(self.transactions[idx - 1].duplicate()))
        } else {
            None
        }
    }

    pub fn get_transactions(&self) -> (r: Vec<Transaction>)
        ensures
            transaction_models(r@) == self@.all(),
    {
        let mut out: Vec<Transaction> = Vec::new();
        out.push(Transaction::Coinbase(self.coinbase.duplicate()));
        let mut i: usize = 0;
        while i < self.transactions.len()
            invariant
                i <= self.transactions.len(),
                out.len() == i + 1,
                forall|j: int| 0 <= j < i + 1 ==> out@[j]@ == self@.all()[j],
            decreases self.transactions.len() - i,
        {
            out.push(Transaction::Normal(self.transactions[i].duplicate()));
            i += 1;
        }
        proof {
            assert(transaction_models(out@) =~= self@.all());
        }
        out
    }

    pub fn get_coinbase_transaction(&self) -> (r: CoinbaseTransaction)
        ensures
            r@ == self@.coinbase,
    {
        self.coinbase.duplicate()
    }

    pub fn get_normal_transactions(&self) -> (r: Vec<NormalTransaction>)
        ensures
            normal_models(r@) == self@.normals,
    {
        list_duplicate(&self.transactions)
    }

    /// A copy of the block body.
    pub fn duplicate(&self) -> (r: Transactions)
        ensures
            r@ == self@,
    {
        Transactions {
            coinbase: self.coinbase.duplicate(),
            transactions: list_duplicate(&self.transactions),
        }
    }

    /// Whether the two block bodies are equal, transaction by transaction.
    pub fn same(&self, other: &Transactions) -> (r: bool)
        ensures
            r == (self@ == other@),
    {
        self.coinbase.same(&other.coinbase) && list_same(&self.transactions, &other.transactions)
    }

    /// Whether every transaction of the block body is well formed.
    pub fn is_well_formed(&self) -> (r: bool)
        ensures
            r == self@.well_formed(),
    {
        if !self.coinbase.timestamp.is_valid() {
            return false;
        }
        let mut i: usize = 0;
        while i < self.transactions.len()
            invariant
                i <= self.transactions.len(),
                forall|j: int| 0 <= j < i ==> (#[trigger] self@.normals[j]).well_formed(),
            decreases self.transactions.len() - i,
        {
            if !self.transactions[i].is_well_formed() {
                proof {
                    assert(!self@.normals[i as int].well_formed());
                }
                return false;
            }
            i += 1;
        }
        true
    }
}

impl Structure for TransactionOutput {
    fn same(&self, other: &TransactionOutput) -> (r: bool) {
        TransactionOutput::same(self, other)
    }

    fn duplicate(&self) -> (r: TransactionOutput) {
        TransactionOutput::duplicate(self)
    }
}

impl Structure for TransactionInput {
    fn same(&self, other: &TransactionInput) -> (r: bool) {
        TransactionInput::same(self, other)
    }

    fn duplicate(&self) -> (r: TransactionInput) {
        TransactionInput::duplicate(self)
    }
}

impl Structure for NormalTransaction {
    fn same(&self, other: &NormalTransaction) -> (r: bool) {
        NormalTransaction::same(self, other)
    }

    fn duplicate(&self) -> (r: NormalTransaction) {
        NormalTransaction::duplicate(self)
    }
}

impl Structure for Transaction {
    fn same(&self, other: &Transaction) -> (r: bool) {
        Transaction::same(self, other)
    }

    fn duplicate(&self) -> (r: Transaction) {
        Transaction::duplicate(self)
    }
}

impl Clone for TransactionOutput {
    fn clone(&self) -> (r: TransactionOutput)
        ensures
            r@ == self@,
    {
        self.duplicate()
    }
}

impl Clone for TransactionInput {
    fn clone(&self) -> (r: TransactionInput)
        ensures
            r@ == self@,
    {
        self.duplicate()
    }
}

impl Clone for CoinbaseTransaction {
    fn clone(&self) -> (r: CoinbaseTransaction)
        ensures
            r@ == self@,
    {
        self.duplicate()
    }
}

impl Clone for NormalTransaction {
    fn clone(&self) -> (r: NormalTransaction)
        ensures
            r@ == self@,
    {
        self.duplicate()
    }
}

impl Clone for Transaction {
    fn clone(&self) -> (r: Transaction)
        ensures
            r@ == self@,
    {
        self.duplicate()
    }
}

impl Clone for Transactions {
    fn clone(&self) -> (r: Transactions)
        ensures
            r@ == self@,
    {
        self.duplicate()
    }
}

impl PartialEq for TransactionOutput {
    fn eq(&self, other: &TransactionOutput) -> (r: bool) {
        self.same(other)
    }
}

impl PartialEqSpecImpl for TransactionOutput {
    open spec fn obeys_eq_spec() -> bool {
        true
    }

    open spec fn eq_spec(&self, other: &TransactionOutput) -> bool {
        self@ == other@
    }
}

impl PartialEq for TransactionInput {
    fn eq(&self, other: &TransactionInput) -> (r: bool) {
        self.same(other)
    }
}

impl PartialEqSpecImpl for TransactionInput {
    open spec fn obeys_eq_spec() -> bool {
        true
    }

    open spec fn eq_spec(&self, other: &TransactionInput) -> bool {
        self@ == other@
    }
}

impl PartialEq for CoinbaseTransaction {
    fn eq(&self, other: &CoinbaseTransaction) -> (r: bool) {
        self.same(other)
    }
}

impl PartialEqSpecImpl for CoinbaseTransaction {
    open spec fn obeys_eq_spec() -> bool {
        true
    }

    open spec fn eq_spec(&self, other: &CoinbaseTransaction) -> bool {
        self@ == other@
    }
}

impl PartialEq for NormalTransaction {
    fn eq(&self, other: &NormalTransaction) -> (r: bool) {
        self.same(other)
    }
}

impl PartialEqSpecImpl for NormalTransaction {
    open spec fn obeys_eq_spec() -> bool {
        true
    }

    open spec fn eq_spec(&self, other: &NormalTransaction) -> bool {
        self@ == other@
    }
}

impl PartialEq for Transaction {
    fn eq(&self, other: &Transaction) -> (r: bool) {
        self.same(other)
    }
}

impl PartialEqSpecImpl for Transaction {
    open spec fn obeys_eq_spec() -> bool {
        true
    }

    open spec fn eq_spec(&self, other: &Transaction) -> bool {
        self@ == other@
    }
}

impl PartialEq for Transactions {
    fn eq(&self, other: &Transactions) -> (r: bool) {
        self.same(other)
    }
}

impl PartialEqSpecImpl for Transactions {
    open spec fn obeys_eq_spec() -> bool {
        true
    }

    open spec fn eq_spec(&self, other: &Transactions) -> bool {
        self@ == other@
    }
}

} // verus!
