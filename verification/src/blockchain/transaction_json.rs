//! The canonical JSON of transactions: members in a fixed order, the kind of
//! a transaction under `tx_type`, timestamps in RFC 3339.

use vstd::prelude::*;
use vstd::string::*;
use crate::blockchain::transaction::{
    CoinbaseModel, CoinbaseTransaction, InputModel, NormalModel, NormalTransaction, OutputModel,
    Transaction, TransactionInput, TransactionModel, TransactionOutput, Transactions,
    TransactionsModel, input_dated, input_models, lemma_normal_view, output_models,
};
use crate::json::value::{
    Json, JsonModel, Member, MemberModel, lemma_array_view, lemma_object_view, member_models_of,
    models_of,
};
use crate::timestamp::Timestamp;

verus! {

/// The member `name: value`.
pub open spec fn member(name: Seq<char>, value: JsonModel) -> MemberModel {
    MemberModel { name, value }
}

/// A timestamp is text: its RFC 3339 spelling.
pub open spec fn json_of_timestamp(t: Timestamp) -> JsonModel {
    JsonModel::Text(t.text())
}

/// An output: `recipient`, then `value`.
pub open spec fn json_of_output(o: OutputModel) -> JsonModel {
    JsonModel::Object(
        seq![
            member("recipient"@, JsonModel::Text(o.recipient)),
            member("value"@, JsonModel::Number(o.value)),
        ],
    )
}

/// Outputs, as an array.
pub open spec fn json_of_outputs(outputs: Seq<OutputModel>) -> JsonModel {
    JsonModel::Array(Seq::new(outputs.len(), |i: int| json_of_output(outputs[i])))
}

/// The members of a coinbase: `recipient`, `value`, `timestamp`.
pub open spec fn coinbase_members(c: CoinbaseModel) -> Seq<MemberModel> {
    seq![
        member("recipient"@, JsonModel::Text(c.recipient)),
        member("value"@, JsonModel::Number(c.value)),
        member("timestamp"@, json_of_timestamp(c.timestamp)),
    ]
}

/// A coinbase where its kind goes without saying.
pub open spec fn json_of_coinbase(c: CoinbaseModel) -> JsonModel {
    JsonModel::Object(coinbase_members(c))
}

/// An input: the `transaction` that it refers to, whole, then the `index`.
pub open spec fn json_of_input(i: InputModel) -> JsonModel
    decreases i,
{
    JsonModel::Object(
        seq![
            member("transaction"@, json_of_transaction(i.transaction)),
            member("index"@, JsonModel::Number(i.index as u64)),
        ],
    )
}

/// Inputs, as an array.
pub open spec fn json_of_inputs(inputs: Seq<InputModel>) -> JsonModel
    decreases inputs,
{
    JsonModel::Array(
        Seq::new(
            inputs.len(),
            |i: int|
                if 0 <= i < inputs.len() {
                    json_of_input(inputs[i])
                } else {
                    arbitrary()
                },
        ),
    )
}

/// The members of a normal transaction: `inputs`, `outputs`, `timestamp`.
pub open spec fn normal_members(n: NormalModel) -> Seq<MemberModel>
    decreases n,
{
    seq![
        member("inputs"@, json_of_inputs(n.inputs)),
        member("outputs"@, json_of_outputs(n.outputs)),
        member("timestamp"@, json_of_timestamp(n.timestamp)),
    ]
}

/// A normal transaction where its kind goes without saying. This is what
/// is signed.
pub open spec fn json_of_normal(n: NormalModel) -> JsonModel {
    JsonModel::Object(normal_members(n))
}

/// A transaction on its own names its kind first: `"0"` for a coinbase,
/// `"1"` for a normal transaction.
pub open spec fn json_of_transaction(t: TransactionModel) -> JsonModel
    decreases t,
{
    match t {
        TransactionModel::Coinbase(c) => JsonModel::Object(
            seq![member("tx_type"@, JsonModel::Text("0"@))] + coinbase_members(c),
        ),
        TransactionModel::Normal(n) => JsonModel::Object(
            seq![member("tx_type"@, JsonModel::Text("1"@))] + normal_members(n),
        ),
    }
}

/// Normal transactions, as an array.
pub open spec fn json_of_normals(normals: Seq<NormalModel>) -> JsonModel {
    JsonModel::Array(Seq::new(normals.len(), |i: int| json_of_normal(normals[i])))
}

/// The body of a block: the `coinbase`, then the normal `transactions`.
pub open spec fn json_of_transactions(b: TransactionsModel) -> JsonModel {
    JsonModel::Object(
        seq![
            member("coinbase"@, json_of_coinbase(b.coinbase)),
            member("transactions"@, json_of_normals(b.normals)),
        ],
    )
}

/// The member `name: value`.
pub fn make_member(name: &str, value: Json) -> (m: Member)
    ensures
        m@ == member(name@, value@),
{
    Member { name: String::from_str(name), value }
}

/// The text value that holds a copy of `text`.
pub fn make_text(text: &str) -> (j: Json)
    ensures
        j@ == JsonModel::Text(text@),
{
    Json::Text(String::from_str(text))
}

/// The object with the given members.
pub fn make_object(members: Vec<Member>) -> (j: Json)
    ensures
        j@ == JsonModel::Object(member_models_of(members@)),
{
    proof {
        lemma_object_view(members);
    }
    Json::Object(members)
}

/// The array with the given items.
pub fn make_array(items: Vec<Json>) -> (j: Json)
    ensures
        j@ == JsonModel::Array(models_of(items@)),
{
    proof {
        lemma_array_view(items);
    }
    Json::Array(items)
}

pub fn timestamp_to_json(t: &Timestamp) -> (j: Json)
    requires
        t.valid(),
    ensures
        j@ == json_of_timestamp(*t),
{
    Json::Text(t.to_rfc3339())
}

impl TransactionOutput {
    pub fn to_json(&self) -> (j: Json)
        ensures
            j@ == json_of_output(self@),
    {
        let mut members: Vec<Member> = Vec::new();
        members.push(make_member("recipient", make_text(self.recipient.as_str())));
        members.push(make_member("value", Json::Number(self.value)));
        let j = make_object(members);
        proof {
            assert(j@->Object_0 =~= json_of_output(self@)->Object_0);
        }
        j
    }
}

fn outputs_to_json(outputs: &Vec<TransactionOutput>) -> (j: Json)
    ensures
        j@ == json_of_outputs(output_models(outputs@)),
{
    let mut items: Vec<Json> = Vec::new();
    let mut i: usize = 0;
    while i < outputs.len()
        invariant
            i <= outputs.len(),
            items.len() == i,
            forall|k: int| 0 <= k < i ==> items@[k]@ == json_of_output(outputs@[k]@),
        decreases outputs.len() - i,
    {
        items.push(outputs[i].to_json());
        i += 1;
    }
    let j = make_array(items);
    proof {
        assert(j@->Array_0 =~= json_of_outputs(output_models(outputs@))->Array_0);
    }
    j
}

fn coinbase_to_members(c: &CoinbaseTransaction, members: &mut Vec<Member>)
    requires
        c@.timestamp.valid(),
    ensures
        member_models_of(final(members)@) == member_models_of(old(members)@) + coinbase_members(
            c@,
        ),
{
    let ghost before = member_models_of(members@);
    members.push(make_member("recipient", make_text(c.recipient.as_str())));
    members.push(make_member("value", Json::Number(c.value)));
    members.push(make_member("timestamp", timestamp_to_json(&c.timestamp)));
    proof {
        assert(member_models_of(members@) =~= before + coinbase_members(c@));
    }
}

impl CoinbaseTransaction {
    pub fn to_json(&self) -> (j: Json)
        requires
            self@.timestamp.valid(),
        ensures
            j@ == json_of_coinbase(self@),
    {
        let mut members: Vec<Member> = Vec::new();
        coinbase_to_members(self, &mut members);
        let j = make_object(members);
        proof {
            assert(j@->Object_0 =~= coinbase_members(self@));
        }
        j
    }
}

fn normal_to_members(n: &NormalTransaction, members: &mut Vec<Member>)
    requires
        n@.dated(),
    ensures
        member_models_of(final(members)@) == member_models_of(old(members)@) + normal_members(n@),
    decreases n,
{
    let ghost before = member_models_of(members@);
    proof {
        lemma_normal_view(n);
    }
    let mut items: Vec<Json> = Vec::new();
    let mut i: usize = 0;
    while i < n.inputs.len()
        invariant
            i <= n.inputs.len(),
            items.len() == i,
            n@.dated(),
            n@.inputs == input_models(n.inputs@),
            forall|k: int| 0 <= k < i ==> items@[k]@ == json_of_input(n.inputs@[k]@),
        decreases n.inputs.len() - i,
    {
        proof {
            assert(decreases_to!(*n => n.inputs));
            assert(decreases_to!(n.inputs => n.inputs[i as int]));
            assert(input_dated(n@.inputs[i as int]));
        }
        let item = n.inputs[i].to_json();
        items.push(item);
        i += 1;
    }
    let inputs = make_array(items);
    proof {
        assert(inputs@->Array_0 =~= json_of_inputs(n@.inputs)->Array_0);
    }
    members.push(make_member("inputs", inputs));
    members.push(make_member("outputs", outputs_to_json(&n.outputs)));
    members.push(make_member("timestamp", timestamp_to_json(&n.timestamp)));
    proof {
        assert(member_models_of(members@) =~= before + normal_members(n@));
    }
}

impl NormalTransaction {
    pub fn to_json(&self) -> (j: Json)
        requires
            self@.dated(),
        ensures
            j@ == json_of_normal(self@),
    {
        let mut members: Vec<Member> = Vec::new();
        normal_to_members(self, &mut members);
        let j = make_object(members);
        proof {
            assert(j@->Object_0 =~= normal_members(self@));
        }
        j
    }
}

impl TransactionInput {
    pub fn to_json(&self) -> (j: Json)
        requires
            self@.dated(),
        ensures
            j@ == json_of_input(self@),
        decreases self,
    {
        let mut members: Vec<Member> = Vec::new();
        members.push(make_member("transaction", self.transaction.to_json()));
        members.push(make_member("index", Json::Number(self.index as u64)));
        let j = make_object(members);
        proof {
            assert(j@->Object_0 =~= json_of_input(self@)->Object_0);
        }
        j
    }
}

impl Transaction {
    pub fn to_json(&self) -> (j: Json)
        requires
            self@.dated(),
        ensures
            j@ == json_of_transaction(self@),
        decreases self,
    {
        let mut members: Vec<Member> = Vec::new();
        match self {
            Transaction::Coinbase(c) => {
                members.push(make_member("tx_type", make_text("0")));
                coinbase_to_members(c, &mut members);
            },
            Transaction::Normal(n) => {
                members.push(make_member("tx_type", make_text("1")));
                normal_to_members(n, &mut members);
            },
        }
        let j = make_object(members);
        proof {
            assert(j@->Object_0 =~= json_of_transaction(self@)->Object_0);
        }
        j
    }
}

impl Transactions {
    pub fn to_json(&self) -> (j: Json)
        requires
            self@.dated(),
        ensures
            j@ == json_of_transactions(self@),
    {
        let mut items: Vec<Json> = Vec::new();
        let mut i: usize = 0;
        while i < self.transactions.len()
            invariant
                i <= self.transactions.len(),
                items.len() == i,
                self@.dated(),
                forall|k: int| 0 <= k < i ==> items@[k]@ == json_of_normal(self.transactions@[k]@),
            decreases self.transactions.len() - i,
        {
            proof {
                assert(self@.normals[i as int].dated());
            }
            items.push(self.transactions[i].to_json());
            i += 1;
        }
        let normals = make_array(items);
        proof {
            assert(normals@->Array_0 =~= json_of_normals(self@.normals)->Array_0);
        }
        let mut members: Vec<Member> = Vec::new();
        members.push(make_member("coinbase", self.coinbase.to_json()));
        members.push(make_member("transactions", normals));
        let j = make_object(members);
        proof {
            assert(j@->Object_0 =~= json_of_transactions(self@)->Object_0);
        }
        j
    }
}

} // verus!
