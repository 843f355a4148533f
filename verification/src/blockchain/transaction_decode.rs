//! Reading transactions back from their JSON. Members are found by name,
//! in whatever order they stand; members that are not looked for are
//! passed over.

use vstd::prelude::*;
use vstd::string::*;
use crate::blockchain::transaction::{
    CoinbaseModel, CoinbaseTransaction, InputModel, NormalModel, NormalTransaction, OutputModel,
    Transaction, TransactionInput, TransactionModel, TransactionOutput, Transactions,
    TransactionsModel, input_models, normal_models, output_models,
};
use crate::blockchain::transaction_json::{
    coinbase_members, json_of_coinbase, json_of_input, json_of_inputs, json_of_normal,
    json_of_normals, json_of_output, json_of_outputs, json_of_transaction, json_of_transactions,
    member, normal_members,
};
use crate::json::access::{
    get, get_items, get_number, get_text, items_of, lemma_item_smaller, lemma_lookup_at,
    lemma_member_smaller, number_of, size, text_of,
};
use crate::json::value::{Json, JsonModel, MemberModel, lookup, models_of};
use crate::structure::lemma_views_push;
use crate::timestamp::{Timestamp, lemma_timestamp_round_trip, timestamp_of_text};

verus! {

/// What the names of the members are made of: how long each is and how it
/// begins, which tells any two of them apart.
pub proof fn lemma_names()
    ensures
        "recipient"@.len() == 9 && "recipient"@[0] == 'r',
        "value"@.len() == 5 && "value"@[0] == 'v',
        "timestamp"@.len() == 9 && "timestamp"@[0] == 't',
        "inputs"@.len() == 6 && "inputs"@[0] == 'i',
        "outputs"@.len() == 7 && "outputs"@[0] == 'o',
        "tx_type"@.len() == 7 && "tx_type"@[0] == 't',
        "transaction"@.len() == 11 && "transaction"@[0] == 't',
        "index"@.len() == 5 && "index"@[0] == 'i',
        "coinbase"@.len() == 8 && "coinbase"@[0] == 'c',
        "transactions"@.len() == 12 && "transactions"@[0] == 't',
        "prev_block_hash"@.len() == 15 && "prev_block_hash"@[0] == 'p',
        "nonce"@.len() == 5 && "nonce"@[0] == 'n',
        "protocol"@.len() == 8 && "protocol"@[0] == 'p',
        "version"@.len() == 7 && "version"@[0] == 'v',
        "port"@.len() == 4 && "port"@[0] == 'p',
        "msg_type"@.len() == 8 && "msg_type"@[0] == 'm',
        "nodes"@.len() == 5 && "nodes"@[0] == 'n',
        "payload"@.len() == 7 && "payload"@[0] == 'p',
        "signature"@.len() == 9 && "signature"@[0] == 's',
        "block"@.len() == 5 && "block"@[0] == 'b',
        "chain"@.len() == 5 && "chain"@[0] == 'c',
        "data"@.len() == 4 && "data"@[0] == 'd',
        "0"@.len() == 1 && "0"@[0] == '0',
        "1"@.len() == 1 && "1"@[0] == '1',
        "2"@.len() == 1 && "2"@[0] == '2',
        "3"@.len() == 1 && "3"@[0] == '3',
        "4"@.len() == 1 && "4"@[0] == '4',
        "5"@.len() == 1 && "5"@[0] == '5',
        "6"@.len() == 1 && "6"@[0] == '6',
        "7"@.len() == 1 && "7"@[0] == '7',
{
    reveal_strlit("recipient");
    reveal_strlit("value");
    reveal_strlit("timestamp");
    reveal_strlit("inputs");
    reveal_strlit("outputs");
    reveal_strlit("tx_type");
    reveal_strlit("transaction");
    reveal_strlit("index");
    reveal_strlit("coinbase");
    reveal_strlit("transactions");
    reveal_strlit("prev_block_hash");
    reveal_strlit("nonce");
    reveal_strlit("protocol");
    reveal_strlit("version");
    reveal_strlit("port");
    reveal_strlit("msg_type");
    reveal_strlit("nodes");
    reveal_strlit("payload");
    reveal_strlit("signature");
    reveal_strlit("block");
    reveal_strlit("chain");
    reveal_strlit("data");
    reveal_strlit("0");
    reveal_strlit("1");
    reveal_strlit("2");
    reveal_strlit("3");
    reveal_strlit("4");
    reveal_strlit("5");
    reveal_strlit("6");
    reveal_strlit("7");
}

/// Whether the first member called `name` holds `value`.
pub open spec fn lookup_is(members: Seq<MemberModel>, name: Seq<char>, value: JsonModel) -> bool {
    lookup(members, name) == Some(value)
}

/// The timestamp that a value spells, if it is text that spells one.
pub open spec fn timestamp_of_json(j: Option<JsonModel>) -> Option<Timestamp> {
    match text_of(j) {
        Some(text) => timestamp_of_text(text),
        None => None,
    }
}

/// The output that a value spells, if it spells one.
pub open spec fn output_of_json(j: JsonModel) -> Option<OutputModel> {
    match (text_of(j.get("recipient"@)), number_of(j.get("value"@))) {
        (Some(recipient), Some(value)) => Some(OutputModel { recipient, value }),
        _ => None,
    }
}

/// The outputs that the first `k` items spell, where each spells one.
pub open spec fn outputs_of_items(items: Seq<JsonModel>, k: int) -> Option<Seq<OutputModel>>
    decreases k,
{
    if k <= 0 || k > items.len() {
        Some(Seq::empty())
    } else {
        match (outputs_of_items(items, k - 1), output_of_json(items[k - 1])) {
            (Some(init), Some(last)) => Some(init.push(last)),
            _ => None,
        }
    }
}

/// The coinbase that a value spells, if it spells one.
pub open spec fn coinbase_of_json(j: JsonModel) -> Option<CoinbaseModel> {
    match (
        text_of(j.get("recipient"@)),
        number_of(j.get("value"@)),
        timestamp_of_json(j.get("timestamp"@)),
    ) {
        (Some(recipient), Some(value), Some(timestamp)) => Some(
            CoinbaseModel { recipient, value, timestamp },
        ),
        _ => None,
    }
}

/// The input that a value spells, if it spells one. The index has to fit
/// in 32 bits.
pub open spec fn input_of_json(j: JsonModel) -> Option<InputModel>
    decreases size(j), 0int,
{
    match (j.get("transaction"@), number_of(j.get("index"@))) {
        (Some(inner), Some(index)) => {
            if index <= u32::MAX {
                proof {
                    lemma_member_smaller(j, "transaction"@);
                }
                match transaction_of_json(inner) {
                    Some(transaction) => Some(InputModel { transaction, index: index as u32 }),
                    None => None,
                }
            } else {
                None
            }
        },
        _ => None,
    }
}

/// The inputs that the first `k` items spell, where each spells one.
pub open spec fn inputs_of_items(items: Seq<JsonModel>, k: int) -> Option<Seq<InputModel>>
    decreases size(JsonModel::Array(items)), k,
{
    if k <= 0 || k > items.len() {
        Some(Seq::empty())
    } else {
        proof {
            lemma_item_smaller(items, k - 1);
        }
        match (inputs_of_items(items, k - 1), input_of_json(items[k - 1])) {
            (Some(init), Some(last)) => Some(init.push(last)),
            _ => None,
        }
    }
}

/// The normal transaction that a value spells, if it spells one.
pub open spec fn normal_of_json(j: JsonModel) -> Option<NormalModel>
    decreases size(j), 0int,
{
    match (
        items_of(j.get("inputs"@)),
        items_of(j.get("outputs"@)),
        timestamp_of_json(j.get("timestamp"@)),
    ) {
        (Some(ins), Some(outs), Some(timestamp)) => {
            proof {
                lemma_member_smaller(j, "inputs"@);
            }
            match (
                inputs_of_items(ins, ins.len() as int),
                outputs_of_items(outs, outs.len() as int),
            ) {
                (Some(inputs), Some(outputs)) => Some(NormalModel { inputs, outputs, timestamp }),
                _ => None,
            }
        },
        _ => None,
    }
}

/// A transaction on its own is what its kind says: a coinbase under `"0"`,
/// a normal transaction under `"1"`.
pub open spec fn transaction_of_json(j: JsonModel) -> Option<TransactionModel>
    decreases size(j), 1int,
{
    match text_of(j.get("tx_type"@)) {
        Some(kind) => {
            if kind == "0"@ {
                match coinbase_of_json(j) {
                    Some(c) => Some(TransactionModel::Coinbase(c)),
                    None => None,
                }
            } else if kind == "1"@ {
                match normal_of_json(j) {
                    Some(n) => Some(TransactionModel::Normal(n)),
                    None => None,
                }
            } else {
                None
            }
        },
        None => None,
    }
}

/// The normal transactions that the first `k` items spell, where each
/// spells one.
pub open spec fn normals_of_items(items: Seq<JsonModel>, k: int) -> Option<Seq<NormalModel>>
    decreases k,
{
    if k <= 0 || k > items.len() {
        Some(Seq::empty())
    } else {
        match (normals_of_items(items, k - 1), normal_of_json(items[k - 1])) {
            (Some(init), Some(last)) => Some(init.push(last)),
            _ => None,
        }
    }
}

/// The block body that a value spells, if it spells one.
pub open spec fn transactions_of_json(j: JsonModel) -> Option<TransactionsModel> {
    match (j.get("coinbase"@), items_of(j.get("transactions"@))) {
        (Some(first), Some(rest)) => {
            match (coinbase_of_json(first), normals_of_items(rest, rest.len() as int)) {
                (Some(coinbase), Some(normals)) => Some(TransactionsModel { coinbase, normals }),
                _ => None,
            }
        },
        _ => None,
    }
}

/// Reads the timestamp under `name`.
pub fn timestamp_from_json(j: &Json, name: &str) -> (r: Option<Timestamp>)
    ensures
        r == timestamp_of_json(j@.get(name@)),
        r matches Some(t) ==> t.valid(),
{
    match get_text(j, name) {
        Some(text) => Timestamp::parse_rfc3339(text.as_str()),
        None => None,
    }
}

impl TransactionOutput {
    pub fn from_json(j: &Json) -> (r: Option<TransactionOutput>)
        ensures
            match r {
                Some(o) => output_of_json(j@) == Some(o@),
                None => output_of_json(j@) is None,
            },
    {
        let recipient = match get_text(j, "recipient") {
            Some(text) => text.clone(),
            None => {
                return None;
            },
        };
        let value = match get_number(j, "value") {
            Some(value) => value,
            None => {
                return None;
            },
        };
        Some(TransactionOutput { recipient, value })
    }
}

fn outputs_from_items(items: &Vec<Json>) -> (r: Option<Vec<TransactionOutput>>)
    ensures
        match r {
            Some(outputs) => outputs_of_items(models_of(items@), items.len() as int) == Some(
                output_models(outputs@),
            ),
            None => outputs_of_items(models_of(items@), items.len() as int) is None,
        },
{
    let ghost models = models_of(items@);
    let mut out: Vec<TransactionOutput> = Vec::new();
    let mut i: usize = 0;
    proof {
        assert(output_models(out@) =~= Seq::<OutputModel>::empty());
    }
    while i < items.len()
        invariant
            i <= items.len(),
            models == models_of(items@),
            outputs_of_items(models, i as int) == Some(output_models(out@)),
        decreases items.len() - i,
    {
        let ghost before = out@;
        match TransactionOutput::from_json(&items[i]) {
            Some(o) => {
                proof {
                    lemma_views_push(before, o);
                }
                out.push(o);
            },
            None => {
                proof {
                    lemma_outputs_fail(models, i + 1, items.len() as int);
                }
                return None;
            },
        }
        i += 1;
    }
    Some(out)
}

/// Where the first `k` items do not all spell outputs, more items do not.
proof fn lemma_outputs_fail(items: Seq<JsonModel>, k: int, n: int)
    requires
        0 < k <= n <= items.len(),
        outputs_of_items(items, k) is None,
    ensures
        outputs_of_items(items, n) is None,
    decreases n - k,
{
    if k < n {
        lemma_outputs_fail(items, k, n - 1);
    }
}

/// Where the first `k` items do not all spell inputs, more items do not.
proof fn lemma_inputs_fail(items: Seq<JsonModel>, k: int, n: int)
    requires
        0 < k <= n <= items.len(),
        inputs_of_items(items, k) is None,
    ensures
        inputs_of_items(items, n) is None,
    decreases n - k,
{
    if k < n {
        lemma_inputs_fail(items, k, n - 1);
    }
}

/// Where the first `k` items do not all spell normal transactions, more
/// items do not.
proof fn lemma_normals_fail(items: Seq<JsonModel>, k: int, n: int)
    requires
        0 < k <= n <= items.len(),
        normals_of_items(items, k) is None,
    ensures
        normals_of_items(items, n) is None,
    decreases n - k,
{
    if k < n {
        lemma_normals_fail(items, k, n - 1);
    }
}

impl CoinbaseTransaction {
    pub fn from_json(j: &Json) -> (r: Option<CoinbaseTransaction>)
        ensures
            match r {
                Some(c) => coinbase_of_json(j@) == Some(c@) && c@.timestamp.valid(),
                None => coinbase_of_json(j@) is None,
            },
    {
        let recipient = match get_text(j, "recipient") {
            Some(text) => text.clone(),
            None => {
                return None;
            },
        };
        let value = match get_number(j, "value") {
            Some(value) => value,
            None => {
                return None;
            },
        };
        let timestamp = match timestamp_from_json(j, "timestamp") {
            Some(timestamp) => timestamp,
            None => {
                return None;
            },
        };
        Some(CoinbaseTransaction { recipient, value, timestamp })
    }
}

impl TransactionInput {
    pub fn from_json(j: &Json) -> (r: Option<TransactionInput>)
        ensures
            match r {
                Some(input) => input_of_json(j@) == Some(input@) && input@.dated(),
                None => input_of_json(j@) is None,
            },
        decreases size(j@), 0int,
    {
        let inner = match get(j, "transaction") {
            Some(inner) => inner,
            None => {
                return None;
            },
        };
        let index = match get_number(j, "index") {
            Some(index) => index,
            None => {
                return None;
            },
        };
        if index > u32::MAX as u64 {
            return None;
        }
        proof {
            lemma_member_smaller(j@, "transaction"@);
        }
        match Transaction::from_json(inner) {
            Some(transaction) => Some(TransactionInput { transaction, index: index as u32 }),
            None => None,
        }
    }
}

fn inputs_from_items(items: &Vec<Json>) -> (r: Option<Vec<TransactionInput>>)
    ensures
        match r {
            Some(inputs) => {
                &&& inputs_of_items(models_of(items@), items.len() as int) == Some(
                    input_models(inputs@),
                )
                &&& forall|i: int|
                    0 <= i < inputs.len() ==> (#[trigger] input_models(inputs@)[i]).dated()
            },
            None => inputs_of_items(models_of(items@), items.len() as int) is None,
        },
    decreases size(JsonModel::Array(models_of(items@))), items.len() as int,
{
    let ghost models = models_of(items@);
    let mut out: Vec<TransactionInput> = Vec::new();
    let mut i: usize = 0;
    proof {
        assert(input_models(out@) =~= Seq::<InputModel>::empty());
    }
    while i < items.len()
        invariant
            i <= items.len(),
            models == models_of(items@),
            inputs_of_items(models, i as int) == Some(input_models(out@)),
            forall|k: int| 0 <= k < out.len() ==> (#[trigger] input_models(out@)[k]).dated(),
        decreases items.len() - i,
    {
        let ghost before = out@;
        proof {
            lemma_item_smaller(models, i as int);
            assert(models[i as int] == items@[i as int]@);
        }
        match TransactionInput::from_json(&items[i]) {
            Some(input) => {
                proof {
                    lemma_views_push(before, input);
                }
                out.push(input);
            },
            None => {
                proof {
                    lemma_inputs_fail(models, i + 1, items.len() as int);
                }
                return None;
            },
        }
        i += 1;
    }
    Some(out)
}

impl NormalTransaction {
    pub fn from_json(j: &Json) -> (r: Option<NormalTransaction>)
        ensures
            match r {
                Some(n) => normal_of_json(j@) == Some(n@) && n@.dated(),
                None => normal_of_json(j@) is None,
            },
        decreases size(j@), 0int,
    {
        let ins = match get_items(j, "inputs") {
            Some(items) => items,
            None => {
                return None;
            },
        };
        let outs = match get_items(j, "outputs") {
            Some(items) => items,
            None => {
                return None;
            },
        };
        let timestamp = match timestamp_from_json(j, "timestamp") {
            Some(timestamp) => timestamp,
            None => {
                return None;
            },
        };
        proof {
            lemma_member_smaller(j@, "inputs"@);
        }
        let inputs = match inputs_from_items(ins) {
            Some(inputs) => inputs,
            None => {
                return None;
            },
        };
        let outputs = match outputs_from_items(outs) {
            Some(outputs) => outputs,
            None => {
                return None;
            },
        };
        Some(NormalTransaction::new(inputs, outputs, timestamp))
    }
}

impl Transaction {
    pub fn from_json(j: &Json) -> (r: Option<Transaction>)
        ensures
            match r {
                Some(t) => transaction_of_json(j@) == Some(t@) && t@.dated(),
                None => transaction_of_json(j@) is None,
            },
        decreases size(j@), 1int,
    {
        let kind = match get_text(j, "tx_type") {
            Some(kind) => kind,
            None => {
                return None;
            },
        };
        if *kind == String::from_str("0") {
            match CoinbaseTransaction::from_json(j) {
                Some(c) => Some(Transaction::Coinbase(c)),
                None => None,
            }
        } else if *kind == String::from_str("1") {
            match NormalTransaction::from_json(j) {
                Some(n) => Some(Transaction::Normal(n)),
                None => None,
            }
        } else {
            None
        }
    }
}

fn normals_from_items(items: &Vec<Json>) -> (r: Option<Vec<NormalTransaction>>)
    ensures
        match r {
            Some(normals) => {
                &&& normals_of_items(models_of(items@), items.len() as int) == Some(
                    normal_models(normals@),
                )
                &&& forall|i: int|
                    0 <= i < normals.len() ==> (#[trigger] normal_models(normals@)[i]).dated()
            },
            None => normals_of_items(models_of(items@), items.len() as int) is None,
        },
{
    let ghost models = models_of(items@);
    let mut out: Vec<NormalTransaction> = Vec::new();
    let mut i: usize = 0;
    proof {
        assert(normal_models(out@) =~= Seq::<NormalModel>::empty());
    }
    while i < items.len()
        invariant
            i <= items.len(),
            models == models_of(items@),
            normals_of_items(models, i as int) == Some(normal_models(out@)),
            forall|k: int| 0 <= k < out.len() ==> (#[trigger] normal_models(out@)[k]).dated(),
        decreases items.len() - i,
    {
        let ghost before = out@;
        proof {
            assert(models[i as int] == items@[i as int]@);
        }
        match NormalTransaction::from_json(&items[i]) {
            Some(n) => {
                proof {
                    lemma_views_push(before, n);
                }
                out.push(n);
            },
            None => {
                proof {
                    lemma_normals_fail(models, i + 1, items.len() as int);
                }
                return None;
            },
        }
        i += 1;
    }
    Some(out)
}

impl Transactions {
    pub fn from_json(j: &Json) -> (r: Option<Transactions>)
        ensures
            match r {
                Some(t) => transactions_of_json(j@) == Some(t@) && t@.dated(),
                None => transactions_of_json(j@) is None,
            },
    {
        let first = match get(j, "coinbase") {
            Some(first) => first,
            None => {
                return None;
            },
        };
        let rest = match get_items(j, "transactions") {
            Some(rest) => rest,
            None => {
                return None;
            },
        };
        let coinbase = match CoinbaseTransaction::from_json(first) {
            Some(coinbase) => coinbase,
            None => {
                return None;
            },
        };
        let transactions = match normals_from_items(rest) {
            Some(transactions) => transactions,
            None => {
                return None;
            },
        };
        Some(Transactions { coinbase, transactions })
    }
}

/// An output is read back from its JSON.
pub proof fn lemma_output_round_trip(o: OutputModel)
    ensures
        output_of_json(json_of_output(o)) == Some(o),
{
    lemma_names();
    let members = json_of_output(o)->Object_0;
    lemma_lookup_at(members, 0);
    lemma_lookup_at(members, 1);
}

/// Outputs are read back from the items that spell them.
pub proof fn lemma_outputs_round_trip(outputs: Seq<OutputModel>, k: int)
    requires
        0 <= k <= outputs.len(),
    ensures
        outputs_of_items(json_of_outputs(outputs)->Array_0, k) == Some(outputs.take(k)),
    decreases k,
{
    let items = json_of_outputs(outputs)->Array_0;
    if k > 0 {
        lemma_outputs_round_trip(outputs, k - 1);
        lemma_output_round_trip(outputs[k - 1]);
        assert(outputs.take(k - 1).push(outputs[k - 1]) =~= outputs.take(k));
    } else {
        assert(outputs.take(k) =~= Seq::<OutputModel>::empty());
    }
}

/// A coinbase is read back from an object that holds its members under
/// their names.
pub proof fn lemma_coinbase_of_members(members: Seq<MemberModel>, c: CoinbaseModel)
    requires
        c.timestamp.valid(),
        lookup_is(members, "recipient"@, JsonModel::Text(c.recipient)),
        lookup_is(members, "value"@, JsonModel::Number(c.value)),
        lookup_is(members, "timestamp"@, JsonModel::Text(c.timestamp.text())),
    ensures
        coinbase_of_json(JsonModel::Object(members)) == Some(c),
{
    lemma_timestamp_round_trip(c.timestamp);
}

/// A coinbase is read back from its JSON.
pub proof fn lemma_coinbase_round_trip(c: CoinbaseModel)
    requires
        c.timestamp.valid(),
    ensures
        coinbase_of_json(json_of_coinbase(c)) == Some(c),
{
    lemma_names();
    let members = coinbase_members(c);
    lemma_lookup_at(members, 0);
    lemma_lookup_at(members, 1);
    lemma_lookup_at(members, 2);
    lemma_coinbase_of_members(members, c);
}

/// A normal transaction is read back from an object that holds its members
/// under their names.
pub proof fn lemma_normal_of_members(members: Seq<MemberModel>, n: NormalModel)
    requires
        n.dated(),
        lookup_is(members, "inputs"@, json_of_inputs(n.inputs)),
        lookup_is(members, "outputs"@, json_of_outputs(n.outputs)),
        lookup_is(members, "timestamp"@, JsonModel::Text(n.timestamp.text())),
    ensures
        normal_of_json(JsonModel::Object(members)) == Some(n),
    decreases n, 1nat,
{
    lemma_timestamp_round_trip(n.timestamp);
    lemma_inputs_round_trip(n.inputs, n.inputs.len() as int);
    lemma_outputs_round_trip(n.outputs, n.outputs.len() as int);
    assert(n.inputs.take(n.inputs.len() as int) =~= n.inputs);
    assert(n.outputs.take(n.outputs.len() as int) =~= n.outputs);
}

/// A normal transaction is read back from its JSON.
pub proof fn lemma_normal_round_trip(n: NormalModel)
    requires
        n.dated(),
    ensures
        normal_of_json(json_of_normal(n)) == Some(n),
    decreases n, 2nat,
{
    lemma_names();
    let members = normal_members(n);
    lemma_lookup_at(members, 0);
    lemma_lookup_at(members, 1);
    lemma_lookup_at(members, 2);
    lemma_normal_of_members(members, n);
}

/// Inputs are read back from the items that spell them.
pub proof fn lemma_inputs_round_trip(inputs: Seq<InputModel>, k: int)
    requires
        0 <= k <= inputs.len(),
        forall|i: int| 0 <= i < inputs.len() ==> (#[trigger] inputs[i]).dated(),
    ensures
        inputs_of_items(json_of_inputs(inputs)->Array_0, k) == Some(inputs.take(k)),
    decreases inputs, k,
{
    let items = json_of_inputs(inputs)->Array_0;
    if k > 0 {
        lemma_inputs_round_trip(inputs, k - 1);
        assert(inputs[k - 1].dated());
        lemma_input_round_trip(inputs[k - 1]);
        assert(inputs.take(k - 1).push(inputs[k - 1]) =~= inputs.take(k));
    } else {
        assert(inputs.take(k) =~= Seq::<InputModel>::empty());
    }
}

/// An input is read back from its JSON.
pub proof fn lemma_input_round_trip(i: InputModel)
    requires
        i.dated(),
    ensures
        input_of_json(json_of_input(i)) == Some(i),
    decreases i, 0nat,
{
    lemma_names();
    let members = json_of_input(i)->Object_0;
    lemma_lookup_at(members, 0);
    lemma_lookup_at(members, 1);
    lemma_transaction_round_trip(i.transaction);
}

/// A transaction is read back from its JSON.
pub proof fn lemma_transaction_round_trip(t: TransactionModel)
    requires
        t.dated(),
    ensures
        transaction_of_json(json_of_transaction(t)) == Some(t),
    decreases t, 0nat,
{
    lemma_names();
    let members = json_of_transaction(t)->Object_0;
    lemma_lookup_at(members, 0);
    lemma_lookup_at(members, 1);
    lemma_lookup_at(members, 2);
    lemma_lookup_at(members, 3);
    match t {
        TransactionModel::Coinbase(c) => {
            lemma_coinbase_of_members(members, c);
        },
        TransactionModel::Normal(n) => {
            lemma_normal_of_members(members, n);
        },
    }
}

/// Normal transactions are read back from the items that spell them.
pub proof fn lemma_normals_round_trip(normals: Seq<NormalModel>, k: int)
    requires
        0 <= k <= normals.len(),
        forall|i: int| 0 <= i < normals.len() ==> (#[trigger] normals[i]).dated(),
    ensures
        normals_of_items(json_of_normals(normals)->Array_0, k) == Some(normals.take(k)),
    decreases k,
{
    if k > 0 {
        lemma_normals_round_trip(normals, k - 1);
        assert(normals[k - 1].dated());
        lemma_normal_round_trip(normals[k - 1]);
        assert(normals.take(k - 1).push(normals[k - 1]) =~= normals.take(k));
    } else {
        assert(normals.take(k) =~= Seq::<NormalModel>::empty());
    }
}

/// The body of a block is read back from its JSON.
pub proof fn lemma_transactions_round_trip(b: TransactionsModel)
    requires
        b.dated(),
    ensures
        transactions_of_json(json_of_transactions(b)) == Some(b),
{
    lemma_names();
    let members = json_of_transactions(b)->Object_0;
    lemma_lookup_at(members, 0);
    lemma_lookup_at(members, 1);
    lemma_coinbase_round_trip(b.coinbase);
    lemma_normals_round_trip(b.normals, b.normals.len() as int);
    assert(b.normals.take(b.normals.len() as int) =~= b.normals);
}

} // verus!
