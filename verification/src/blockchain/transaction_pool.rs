//! The pool of transactions that wait for a block. A transaction stands in
//! the pool at most once, in the order of arrival.

use vstd::prelude::*;
use crate::blockchain::transaction::{
    InputModel, NormalModel, NormalTransaction, TransactionInput, input_and_output_totals,
    lemma_normal_view, normal_models, total_fee,
};
use crate::structure::{
    Structure, lemma_filter_keeps_distinct, lemma_views_push, list_contains, list_duplicate,
    list_index_of, list_without, not_among, without_first,
};

verus! {

/// What a miner is paid for a block, beyond the fees.
pub const COINBASE_INCENTIVE: u64 = 10;

/// The transactions that wait for a block, in the order of their arrival.
pub struct TransactionPool {
    transactions: Vec<NormalTransaction>,
}

/// Whether some transaction of `pool` has an input equal to `input`.
pub open spec fn spends(pool: Seq<NormalModel>, input: InputModel) -> bool {
    exists|i: int| 0 <= i < pool.len() && (#[trigger] pool[i]).inputs.contains(input)
}

impl View for TransactionPool {
    type V = Seq<NormalModel>;

    closed spec fn view(&self) -> Seq<NormalModel> {
        normal_models(self.transactions@)
    }
}

impl TransactionPool {
    /// No transaction stands in the pool twice, and each is well formed.
    pub open spec fn well_formed(&self) -> bool {
        &&& self@.no_duplicates()
        &&& forall|i: int| 0 <= i < self@.len() ==> (#[trigger] self@[i]).well_formed()
    }

    pub fn new() -> (r: TransactionPool)
        ensures
            r@ == Seq::<NormalModel>::empty(),
            r.well_formed(),
    {
        let r = TransactionPool { transactions: Vec::new() };
        proof {
            assert(r@ =~= Seq::<NormalModel>::empty());
        }
        r
    }

    /// Adds the transaction unless it stands in the pool already.
    pub fn add_new_transaction(&mut self, transaction: NormalTransaction)
        ensures
            final(self)@ == (if old(self)@.contains(transaction@) {
                old(self)@
            } else {
                old(self)@.push(transaction@)
            }),
            old(self).well_formed() && transaction@.well_formed() ==> final(self).well_formed(),
    {
        if !self.has_transaction(&transaction) {
            proof {
                lemma_views_push(self.transactions@, transaction);
            }
            self.transactions.push(transaction);
        }
    }

    pub fn has_transaction(&self, transaction: &NormalTransaction) -> (r: bool)
        ensures
            r == self@.contains(transaction@),
    {
        list_contains(&self.transactions, transaction)
    }

    pub fn clear_transactions(&mut self)
        ensures
            final(self)@ == Seq::<NormalModel>::empty(),
            final(self).well_formed(),
    {
        self.transactions.clear();
        proof {
            assert(self@ =~= Seq::<NormalModel>::empty());
        }
    }

    pub fn get_transactions(&self) -> (r: Vec<NormalTransaction>)
        ensures
            normal_models(r@) == self@,
    {
        list_duplicate(&self.transactions)
    }

    /// Empties the pool and hands out what was in it.
    pub fn take_transactions(&mut self) -> (r: Vec<NormalTransaction>)
        ensures
            normal_models(r@) == old(self)@,
            final(self)@ == Seq::<NormalModel>::empty(),
            final(self).well_formed(),
    {
        let mut out: Vec<NormalTransaction> = Vec::new();
        let ghost before = self.transactions@;
        out.append(&mut self.transactions);
        proof {
            assert(out@ =~= before);
            assert(self@ =~= Seq::<NormalModel>::empty());
        }
        out
    }

    /// Removes the transactions at the places `start` up to but not
    /// including `end`.
    pub fn remove_transactions(&mut self, start: usize, end: usize)
        requires
            start <= end <= old(self)@.len(),
        ensures
            final(self)@ == old(self)@.take(start as int) + old(self)@.skip(end as int),
            old(self).well_formed() ==> final(self).well_formed(),
    {
        let ghost before = self.transactions@;
        let mut tail = self.transactions.split_off(end);
        self.transactions.truncate(start);
        self.transactions.append(&mut tail);
        proof {
            assert(self.transactions@ =~= before.take(start as int) + before.skip(end as int));
            assert(self@ =~= old(self)@.take(start as int) + old(self)@.skip(end as int));
            if old(self).well_formed() {
                assert forall|i: int, j: int|
                    0 <= i < self@.len() && 0 <= j < self@.len() && i != j implies self@[i]
                    != self@[j] by {
                    let a = if i < start { i } else { i - start + end };
                    let b = if j < start { j } else { j - start + end };
                    assert(self@[i] == old(self)@[a] && self@[j] == old(self)@[b]);
                }
                assert forall|i: int| 0 <= i < self@.len() implies (
                #[trigger] self@[i]).well_formed() by {
                    let a = if i < start { i } else { i - start + end };
                    assert(self@[i] == old(self)@[a]);
                }
            }
        }
    }

    /// Removes the transaction where it first stands in the pool.
    pub fn remove_transaction(&mut self, transaction: &NormalTransaction)
        ensures
            final(self)@ == without_first(old(self)@, transaction@),
            old(self).well_formed() ==> final(self).well_formed(),
    {
        let ghost before = self@;
        match list_index_of(&self.transactions, transaction) {
            Some(at) => {
                self.transactions.remove(at);
                proof {
                    assert(self@ =~= before.remove(at as int));
                    if old(self).well_formed() {
                        assert forall|i: int, j: int|
                            0 <= i < self@.len() && 0 <= j < self@.len() && i != j implies self@[i]
                            != self@[j] by {
                            let a = if i < at { i } else { i + 1 };
                            let b = if j < at { j } else { j + 1 };
                            assert(self@[i] == before[a] && self@[j] == before[b]);
                        }
                        assert forall|i: int| 0 <= i < self@.len() implies (
                        #[trigger] self@[i]).well_formed() by {
                            let a = if i < at { i } else { i + 1 };
                            assert(self@[i] == before[a]);
                        }
                    }
                }
            },
            None => {},
        }
    }

    /// Removes every transaction that stands in `list`.
    pub fn remove_all(&mut self, list: &Vec<NormalTransaction>)
        ensures
            final(self)@ == old(self)@.filter(not_among(normal_models(list@))),
            old(self).well_formed() ==> final(self).well_formed(),
    {
        let ghost before = self@;
        let ghost keep = not_among(normal_models(list@));
        let kept = list_without(&self.transactions, list);
        self.transactions = kept;
        proof {
            assert(self@ == before.filter(keep));
            if old(self).well_formed() {
                lemma_filter_keeps_distinct(before, keep);
                assert forall|i: int| 0 <= i < self@.len() implies (
                #[trigger] self@[i]).well_formed() by {
                    assert(self@.contains(self@[i]));
                    before.lemma_filter_contains_rev(keep, self@[i]);
                    let j = choose|j: int| 0 <= j < before.len() && before[j] == self@[i];
                    assert(before[j].well_formed());
                }
            }
        }
    }

    /// Whether some transaction in the pool spends what `target_input`
    /// spends.
    pub fn has_transaction_input(&self, target_input: &TransactionInput) -> (r: bool)
        ensures
            r == spends(self@, target_input@),
    {
        let mut i: usize = 0;
        while i < self.transactions.len()
            invariant
                i <= self.transactions.len(),
                forall|k: int| 0 <= k < i ==> !(#[trigger] self@[k]).inputs.contains(target_input@),
            decreases self.transactions.len() - i,
        {
            proof {
                lemma_normal_view(&self.transactions[i as int]);
                assert(self@[i as int] == self.transactions[i as int]@);
            }
            if list_contains(&self.transactions[i].inputs, target_input) {
                return true;
            }
            i += 1;
        }
        false
    }

    /// The sum of the fees of the pool, where it is an amount: `None` where
    /// the sum is below zero or does not fit in 64 bits.
    pub fn calc_total_fee(&self) -> (r: Option<u64>)
        requires
            self.well_formed(),
        ensures
            r == (if 0 <= total_fee(self@) <= u64::MAX {
                Some(total_fee(self@) as u64)
            } else {
                None
            }),
    {
        proof {
            assert forall|i: int| 0 <= i < self.transactions.len() implies (
            #[trigger] self.transactions@[i]@).well_formed() by {
                assert(self@[i].well_formed());
            }
        }
        let totals = input_and_output_totals(&self.transactions);
        let spent: u128 = totals.0;
        let paid: u128 = totals.1;
        if spent < paid {
            return None;
        }
        let fee: u128 = spent - paid;
        if fee > u64::MAX as u128 {
            return None;
        }
        Some(fee as u64)
    }

    /// Whether no transaction stands in the pool twice and each is well
    /// formed.
    pub fn is_well_formed(&self) -> (r: bool)
        ensures
            r == self.well_formed(),
    {
        let mut i: usize = 0;
        while i < self.transactions.len()
            invariant
                i <= self.transactions.len(),
                forall|k: int| 0 <= k < i ==> (#[trigger] self@[k]).well_formed(),
                forall|a: int, b: int| 0 <= a < b < i ==> self@[a] != self@[b],
            decreases self.transactions.len() - i,
        {
            proof {
                assert(self@[i as int] == self.transactions[i as int]@);
            }
            if !self.transactions[i].is_well_formed() {
                return false;
            }
            let mut k: usize = 0;
            while k < i
                invariant
                    k <= i < self.transactions.len(),
                    forall|a: int| 0 <= a < k ==> self@[a] != self@[i as int],
                decreases i - k,
            {
                proof {
                    assert(self@[k as int] == self.transactions[k as int]@);
                    assert(self@[i as int] == self.transactions[i as int]@);
                }
                if self.transactions[k].same(&self.transactions[i]) {
                    return false;
                }
                k += 1;
            }
            i += 1;
        }
        true
    }

    /// How many transactions wait in the pool.
    pub fn len(&self) -> (r: usize)
        ensures
            r == self@.len(),
    {
        self.transactions.len()
    }
}

} // verus!
