//! A wallet's view of the chain: the outputs made over to its address that
//! no later transaction spends, and their sum.

use vstd::prelude::*;
use crate::blockchain::transaction::{
    Address, InputModel, NormalModel, NormalTransaction, OutputModel, Transaction, TransactionInput,
    TransactionModel, TransactionOutput, input_models, input_values, input_well_formed,
    lemma_normal_view, normal_well_formed, output_models, output_values, transaction_models,
};
use crate::structure::{Structure, lemma_views_push, list_contains};
use crate::sums::{
    lemma_sum_push, lemma_sum_skip, lemma_sum_upto_agrees, lemma_sum_upto_monotonic, sum, sum_upto,
};
use crate::timestamp::Timestamp;

verus! {

/// Why a wallet cannot do as asked.
#[derive(Clone, Copy, Debug, PartialEq, Eq, Structural)]
pub enum WalletError {
    /// The balance is less than the amount and the fee together.
    InsufficientFunds,
    /// The unspent outputs sum to more than 64 bits hold.
    BalanceOverflow,
}

/// Whether a transaction behind place `p` has `input` among its inputs.
pub open spec fn spent_after(txs: Seq<TransactionModel>, p: int, input: InputModel) -> bool {
    exists|q: int| p < q < txs.len() && (#[trigger] txs[q]).inputs().contains(input)
}

/// The reference to output `i` of the transaction at place `p`.
pub open spec fn output_at(txs: Seq<TransactionModel>, p: int, i: int) -> InputModel {
    InputModel { transaction: txs[p], index: i as u32 }
}

/// Whether output `i` of the transaction at place `p` is made over to
/// `address` and no transaction behind place `p` spends it.
pub open spec fn is_unspent(txs: Seq<TransactionModel>, address: Seq<char>, p: int, i: int) -> bool {
    &&& txs[p].outputs()[i].recipient == address
    &&& !spent_after(txs, p, output_at(txs, p, i))
}

/// The unspent outputs of `address` among the first `m` outputs of the
/// transaction at place `p`.
pub open spec fn unspent_outputs_upto(
    txs: Seq<TransactionModel>,
    address: Seq<char>,
    p: int,
    m: int,
) -> Seq<InputModel>
    decreases m,
{
    if m <= 0 {
        Seq::empty()
    } else if is_unspent(txs, address, p, m - 1) {
        unspent_outputs_upto(txs, address, p, m - 1).push(output_at(txs, p, m - 1))
    } else {
        unspent_outputs_upto(txs, address, p, m - 1)
    }
}

/// The unspent outputs of `address` in the first `k` transactions.
pub open spec fn unspent_upto(txs: Seq<TransactionModel>, address: Seq<char>, k: int) -> Seq<
    InputModel,
>
    decreases k,
{
    if k <= 0 {
        Seq::empty()
    } else {
        unspent_upto(txs, address, k - 1) + unspent_outputs_upto(
            txs,
            address,
            k - 1,
            txs[k - 1].outputs().len() as int,
        )
    }
}

/// The outputs made over to `address` that no later transaction spends, in
/// the order of the transactions and, within one, of its outputs.
pub open spec fn unspent(txs: Seq<TransactionModel>, address: Seq<char>) -> Seq<InputModel> {
    unspent_upto(txs, address, txs.len() as int)
}

/// How many amounts are taken from the front, one after another, until
/// those taken from place `k` on, with `sum_upto(values, k)` already in
/// hand, reach `target`.
pub open spec fn covering_from(values: Seq<u64>, target: int, k: int) -> int
    decreases values.len() - k,
{
    if k >= values.len() || sum_upto(values, k) >= target {
        k
    } else {
        covering_from(values, target, k + 1)
    }
}

/// How many amounts are taken from the front until they reach `target`.
pub open spec fn covering(values: Seq<u64>, target: int) -> int {
    covering_from(values, target, 0)
}

/// The outputs of a transfer of `value` to `recipient` that spends `spent`
/// and leaves `fee`: the transfer, and the change to `owner` where there is
/// any.
pub open spec fn transfer_outputs(
    recipient: Seq<char>,
    value: u64,
    fee: u64,
    owner: Seq<char>,
    spent: int,
) -> Seq<OutputModel> {
    if spent > value + fee {
        seq![
            OutputModel { recipient, value },
            OutputModel { recipient: owner, value: (spent - value - fee) as u64 },
        ]
    } else {
        seq![OutputModel { recipient, value }]
    }
}

/// The unspent outputs of one address, and their sum.
pub struct UTXOManager {
    my_address: Address,
    transactions: Vec<TransactionInput>,
    balance: u64,
}

/// Whether a transaction behind place `p` has `candidate` among its inputs.
fn is_spent_after(txs: &Vec<Transaction>, p: usize, candidate: &TransactionInput) -> (r: bool)
    requires
        p < txs.len(),
    ensures
        r == spent_after(transaction_models(txs@), p as int, candidate@),
{
    let ghost models = transaction_models(txs@);
    let mut q: usize = p + 1;
    while q < txs.len()
        invariant
            p < q <= txs.len(),
            models == transaction_models(txs@),
            forall|j: int| p < j < q ==> !(#[trigger] models[j]).inputs().contains(candidate@),
        decreases txs.len() - q,
    {
        proof {
            assert(models[q as int] == txs@[q as int]@);
        }
        match &txs[q] {
            Transaction::Coinbase(_) => {
                proof {
                    assert(models[q as int].inputs() =~= Seq::<InputModel>::empty());
                }
            },
            Transaction::Normal(n) => {
                proof {
                    lemma_normal_view(n);
                }
                if list_contains(&n.inputs, candidate) {
                    return true;
                }
            },
        }
        q += 1;
    }
    false
}

impl UTXOManager {
    /// The address whose outputs are followed.
    pub closed spec fn address(&self) -> Seq<char> {
        self.my_address@
    }

    /// The unspent outputs, each as the input that would spend it.
    pub closed spec fn utxos(&self) -> Seq<InputModel> {
        input_models(self.transactions@)
    }

    /// The sum that the wallet holds.
    pub closed spec fn balance(&self) -> nat {
        self.balance as nat
    }

    /// Every unspent output is an output of a well-formed transaction, and
    /// the balance is their sum.
    pub open spec fn well_formed(&self) -> bool {
        &&& forall|i: int| 0 <= i < self.utxos().len() ==> (#[trigger] self.utxos()[i]).well_formed()
        &&& self.balance() == sum(input_values(self.utxos()))
    }

    pub fn new(my_address: Address) -> (r: UTXOManager)
        ensures
            r.address() == my_address@,
            r.utxos() == Seq::<InputModel>::empty(),
            r.balance() == 0,
            r.well_formed(),
    {
        let r = UTXOManager { my_address, transactions: Vec::new(), balance: 0 };
        proof {
            assert(r.utxos() =~= Seq::<InputModel>::empty());
            assert(input_values(r.utxos()) =~= Seq::<u64>::empty());
        }
        r
    }

    /// Whether every unspent output is an output of a well-formed
    /// transaction and the balance is their sum.
    pub fn is_well_formed(&self) -> (r: bool)
        ensures
            r == self.well_formed(),
    {
        let ghost values = input_values(self.utxos());
        let mut total: u64 = 0;
        let mut i: usize = 0;
        while i < self.transactions.len()
            invariant
                i <= self.transactions.len(),
                values == input_values(self.utxos()),
                forall|k: int| 0 <= k < i ==> (#[trigger] self.utxos()[k]).well_formed(),
                total == sum_upto(values, i as int),
                total <= self.balance,
            decreases self.transactions.len() - i,
        {
            proof {
                assert(self.utxos()[i as int] == self.transactions[i as int]@);
                lemma_sum_upto_monotonic(values, i + 1, values.len() as int);
            }
            if !self.transactions[i].is_well_formed() {
                return false;
            }
            let value = self.transactions[i].get_value();
            if value > self.balance - total {
                return false;
            }
            total = total + value;
            i += 1;
        }
        total == self.balance
    }

    pub fn get_balance(&self) -> (r: u64)
        ensures
            r == self.balance(),
    {
        self.balance
    }

    /// The unspent outputs, each as the input that would spend it.
    pub fn get_utxos(&self) -> (r: Vec<TransactionInput>)
        ensures
            input_models(r@) == self.utxos(),
    {
        crate::structure::list_duplicate(&self.transactions)
    }

    /// Works out the unspent outputs anew from the transactions of a chain.
    /// Where their sum does not fit in 64 bits, nothing is changed.
    pub fn refresh_utxos(&mut self, txs: &Vec<Transaction>) -> (r: Result<(), WalletError>)
        requires
            forall|i: int| 0 <= i < txs.len() ==> (#[trigger] txs@[i]@).well_formed(),
        ensures
            final(self).address() == old(self).address(),
            match r {
                Ok(()) => {
                    &&& final(self).utxos() == unspent(
                        transaction_models(txs@),
                        old(self).address(),
                    )
                    &&& final(self).balance() == sum(input_values(final(self).utxos()))
                    &&& final(self).balance() <= u64::MAX
                    &&& final(self).well_formed()
                },
                Err(e) => {
                    &&& e == WalletError::BalanceOverflow
                    &&& sum(
                        input_values(unspent(transaction_models(txs@), old(self).address())),
                    ) > u64::MAX
                    &&& final(self).utxos() == old(self).utxos()
                    &&& final(self).balance() == old(self).balance()
                    &&& final(self).well_formed() == old(self).well_formed()
                },
            },
    {
        let ghost models = transaction_models(txs@);
        let ghost address = self.my_address@;
        let mut found: Vec<TransactionInput> = Vec::new();
        let mut total: u128 = 0;
        let mut p: usize = 0;
        proof {
            assert(input_models(found@) =~= unspent_upto(models, address, 0));
            assert(input_values(input_models(found@)) =~= Seq::<u64>::empty());
        }
        while p < txs.len()
            invariant
                p <= txs.len(),
                models == transaction_models(txs@),
                address == self.my_address@,
                forall|i: int| 0 <= i < txs.len() ==> (#[trigger] txs@[i]@).well_formed(),
                input_models(found@) == unspent_upto(models, address, p as int),
                forall|i: int|
                    0 <= i < found.len() ==> (#[trigger] input_models(found@)[i]).well_formed(),
                total == sum(input_values(input_models(found@))),
                total <= found.len() * 0xffff_ffff_ffff_ffff,
            decreases txs.len() - p,
        {
            let ghost start = input_models(found@);
            let outputs = txs[p].get_outputs();
            proof {
                assert(models[p as int] == txs@[p as int]@);
                assert(txs@[p as int]@.well_formed());
                assert(start + unspent_outputs_upto(models, address, p as int, 0) =~= start);
            }
            let mut i: usize = 0;
            while i < outputs.len()
                invariant
                    i <= outputs.len(),
                    p < txs.len(),
                    models == transaction_models(txs@),
                    address == self.my_address@,
                    models[p as int] == txs@[p as int]@,
                    txs@[p as int]@.well_formed(),
                    output_models(outputs@) == models[p as int].outputs(),
                    input_models(found@) == start + unspent_outputs_upto(
                        models,
                        address,
                        p as int,
                        i as int,
                    ),
                    forall|j: int|
                        0 <= j < found.len() ==> (#[trigger] input_models(found@)[j]).well_formed(),
                    total == sum(input_values(input_models(found@))),
                    total <= found.len() * 0xffff_ffff_ffff_ffff,
                decreases outputs.len() - i,
            {
                proof {
                    assert(output_models(outputs@)[i as int] == outputs@[i as int]@);
                    lemma_output_count(models[p as int]);
                }
                if outputs[i].recipient == self.my_address {
                    let candidate = TransactionInput::new(txs[p].duplicate(), i as u32);
                    proof {
                        assert(candidate@ == output_at(models, p as int, i as int));
                    }
                    if !is_spent_after(txs, p, &candidate) {
                        let ghost before = found@;
                        let n: usize = found.len();
                        let value: u64 = outputs[i].value;
                        proof {
                            assert(candidate@.spent().value == value);
                            lemma_views_push(before, candidate);
                            assert(input_values(input_models(before).push(candidate@))
                                =~= input_values(input_models(before)).push(value));
                            lemma_sum_push(input_values(input_models(before)), value);
                            assert(candidate@.well_formed());
                        }
                        found.push(candidate);
                        total = total + value as u128;
                    }
                }
                i += 1;
            }
            p += 1;
        }
        if total > u64::MAX as u128 {
            return Err(WalletError::BalanceOverflow);
        }
        self.transactions = found;
        self.balance = total as u64;
        Ok(())
    }

    /// Makes the transfer of `value` to `recipient` that leaves `fee`,
    /// stamped with the present moment.
    pub fn create_transaction_for(&mut self, recipient: Address, value: u64, fee: u64) -> (r:
        Result<NormalTransaction, WalletError>)
        requires
            old(self).well_formed(),
        ensures
            final(self).address() == old(self).address(),
            final(self).well_formed(),
            r is Ok <==> old(self).balance() >= value + fee,
            r is Ok ==> final(self).balance() == old(self).balance() - value - fee,
            r matches Ok(tx) ==> {
                let taken = covering(input_values(old(self).utxos()), value + fee);
                &&& tx@.well_formed()
                &&& tx@.timestamp.valid()
                &&& tx@.inputs == old(self).utxos().take(taken)
                &&& tx@.input_value() == sum_upto(input_values(old(self).utxos()), taken)
                &&& tx@.outputs == transfer_outputs(
                    recipient@,
                    value,
                    fee,
                    old(self).address(),
                    tx@.input_value() as int,
                )
                &&& final(self).utxos() == old(self).utxos().skip(taken) + (if tx@.input_value()
                    > value + fee {
                    seq![InputModel { transaction: TransactionModel::Normal(tx@), index: 1 }]
                } else {
                    Seq::<InputModel>::empty()
                })
            },
            r matches Err(e) ==> {
                &&& e == WalletError::InsufficientFunds
                &&& final(self).utxos() == old(self).utxos()
                &&& final(self).balance() == old(self).balance()
            },
    {
        self.create_transaction_at(recipient, value, fee, Timestamp::now())
    }

    /// Makes the transfer of `value` to `recipient` that leaves `fee`,
    /// stamped `timestamp`: the unspent outputs are spent from the front
    /// until they cover the amount and the fee, what they hold beyond that
    /// comes back as change, and the change is the one new unspent output.
    pub fn create_transaction_at(
        &mut self,
        recipient: Address,
        value: u64,
        fee: u64,
        timestamp: Timestamp,
    ) -> (r: Result<NormalTransaction, WalletError>)
        requires
            old(self).well_formed(),
            timestamp.valid(),
        ensures
            final(self).address() == old(self).address(),
            final(self).well_formed(),
            match r {
                Ok(tx) => {
                    let taken = covering(input_values(old(self).utxos()), value + fee);
                    let spent = sum_upto(input_values(old(self).utxos()), taken);
                    &&& old(self).balance() >= value + fee
                    &&& tx@.well_formed()
                    &&& tx@ == (NormalModel {
                        inputs: old(self).utxos().take(taken),
                        outputs: transfer_outputs(
                            recipient@,
                            value,
                            fee,
                            old(self).address(),
                            spent as int,
                        ),
                        timestamp,
                    })
                    &&& tx@.input_value() == spent
                    &&& final(self).utxos() == old(self).utxos().skip(taken) + (if spent > value
                        + fee {
                        seq![
                            InputModel { transaction: TransactionModel::Normal(tx@), index: 1 },
                        ]
                    } else {
                        Seq::<InputModel>::empty()
                    })
                    &&& final(self).balance() == old(self).balance() - value - fee
                },
                Err(e) => {
                    &&& e == WalletError::InsufficientFunds
                    &&& old(self).balance() < value + fee
                    &&& final(self).utxos() == old(self).utxos()
                    &&& final(self).balance() == old(self).balance()
                },
            },
    {
        let target: u128 = value as u128 + fee as u128;
        if (self.balance as u128) < target {
            return Err(WalletError::InsufficientFunds);
        }
        let ghost before = self.utxos();
        let ghost values = input_values(before);
        let mut spent: u64 = 0;
        let mut k: usize = 0;
        while k < self.transactions.len() && (spent as u128) < target
            invariant
                k <= self.transactions.len(),
                input_models(self.transactions@) == before,
                values == input_values(before),
                forall|i: int| 0 <= i < before.len() ==> (#[trigger] before[i]).well_formed(),
                sum(values) == self.balance,
                spent == sum_upto(values, k as int),
                covering(values, target as int) == covering_from(values, target as int, k as int),
            decreases self.transactions.len() - k,
        {
            proof {
                lemma_sum_upto_monotonic(values, k + 1, values.len() as int);
                assert(before[k as int].well_formed());
                assert(before[k as int] == self.transactions@[k as int]@);
            }
            spent = spent + self.transactions[k].get_value();
            k += 1;
        }
        let ghost taken = covering(values, target as int);
        assert(taken == k);
        assert(spent as u128 >= target);
        let change: u64 = (spent as u128 - target) as u64;
        let rest = self.transactions.split_off(k);
        let mut inputs: Vec<TransactionInput> = Vec::new();
        inputs.append(&mut self.transactions);
        proof {
            assert(input_models(inputs@) =~= before.take(k as int));
            assert(input_models(rest@) =~= before.skip(k as int));
        }
        let mut outputs: Vec<TransactionOutput> = Vec::new();
        outputs.push(TransactionOutput::new(recipient, value));
        if change > 0 {
            outputs.push(TransactionOutput::new(self.my_address.clone(), change));
        }
        proof {
            assert(output_models(outputs@) =~= transfer_outputs(
                recipient@,
                value,
                fee,
                self.my_address@,
                spent as int,
            ));
        }
        let tx = NormalTransaction::new(inputs, outputs, timestamp);
        proof {
            let taken_values = input_values(tx@.inputs);
            lemma_sum_upto_agrees(taken_values, values, k as int);
            assert(tx@.input_value() == spent);
            let out_values = output_values(tx@.outputs);
            if change > 0 {
                assert(out_values =~= seq![value, change]);
                assert(sum_upto(out_values, 2) == sum_upto(out_values, 1) + change);
                assert(sum_upto(out_values, 1) == sum_upto(out_values, 0) + value);
            } else {
                assert(out_values =~= seq![value]);
                assert(sum_upto(out_values, 1) == sum_upto(out_values, 0) + value);
            }
            assert(tx@.output_value() == value + change);
            assert forall|i: int| 0 <= i < tx@.inputs.len() implies input_well_formed(
                #[trigger] tx@.inputs[i],
            ) by {
                assert(before[i].well_formed());
            }
            assert(normal_well_formed(tx@));
            lemma_sum_skip(values, k as int);
            assert(input_values(before.skip(k as int)) =~= values.skip(k as int));
        }
        self.transactions = rest;
        if change > 0 {
            let ghost kept = self.transactions@;
            let back = TransactionInput::new(Transaction::Normal(tx.duplicate()), 1);
            proof {
                lemma_views_push(kept, back);
                assert(back@.spent().value == change);
                assert(input_values(input_models(kept).push(back@)) =~= input_values(
                    input_models(kept),
                ).push(change));
                lemma_sum_push(input_values(input_models(kept)), change);
                assert(back@.well_formed());
            }
            self.transactions.push(back);
            proof {
                assert(self.utxos() =~= before.skip(k as int) + seq![back@]);
            }
        } else {
            proof {
                assert(self.utxos() =~= before.skip(k as int) + Seq::<InputModel>::empty());
            }
        }
        self.balance = (self.balance as u128 - target) as u64;
        Ok(tx)
    }
}

/// A well-formed transaction has no more outputs than places that an input
/// can name.
pub proof fn lemma_output_count(t: TransactionModel)
    requires
        t.well_formed(),
    ensures
        t.outputs().len() <= u32::MAX,
{
}

} // verus!
