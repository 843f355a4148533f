//! Reading messages back from their JSON.

use vstd::prelude::*;
use vstd::string::*;
use crate::blockchain::block::Block;
use crate::blockchain::block_decode::{
    block_of_json, blocks_are_well_formed, blocks_from_items, blocks_of_items,
    lemma_block_round_trip, lemma_blocks_round_trip,
};
use crate::blockchain::transaction::NormalTransaction;
use crate::blockchain::transaction_decode::{
    lemma_names, lemma_normal_round_trip, lookup_is, normal_of_json,
};

use crate::json::access::{
    get, get_items, get_number, get_text, items_of, lemma_lookup_at, number_of, text_of,
};
use crate::json::value::{Json, JsonModel, MemberModel, models_of};
use crate::message::{
    ApplicationPayload, ApplicationPayloadModel, Message, MessageModel, Payload, PayloadModel,
    application_fields, json_of_application, json_of_bytes, json_of_message, json_of_nodes,
};
use crate::node_addr::{NodeAddr, lemma_node_addr_round_trip, node_addr_of_text};

verus! {

/// The addresses that the first `k` items spell, where each spells one.
pub open spec fn nodes_of_items(items: Seq<JsonModel>, k: int) -> Option<Seq<NodeAddr>>
    decreases k,
{
    if k <= 0 || k > items.len() {
        Some(Seq::empty())
    } else {
        match (nodes_of_items(items, k - 1), text_of(Some(items[k - 1]))) {
            (Some(init), Some(text)) => match node_addr_of_text(text) {
                Some(last) => Some(init.push(last)),
                None => None,
            },
            _ => None,
        }
    }
}

/// The bytes that the first `k` items spell, where each is a number of at
/// most 255.
pub open spec fn bytes_of_items(items: Seq<JsonModel>, k: int) -> Option<Seq<u8>>
    decreases k,
{
    if k <= 0 || k > items.len() {
        Some(Seq::empty())
    } else {
        match (bytes_of_items(items, k - 1), number_of(Some(items[k - 1]))) {
            (Some(init), Some(n)) => if n <= 255 {
                Some(init.push(n as u8))
            } else {
                None
            },
            _ => None,
        }
    }
}

proof fn lemma_nodes_fail(items: Seq<JsonModel>, k: int, n: int)
    requires
        0 < k <= n <= items.len(),
        nodes_of_items(items, k) is None,
    ensures
        nodes_of_items(items, n) is None,
    decreases n - k,
{
    if k < n {
        lemma_nodes_fail(items, k, n - 1);
    }
}

proof fn lemma_bytes_fail(items: Seq<JsonModel>, k: int, n: int)
    requires
        0 < k <= n <= items.len(),
        bytes_of_items(items, k) is None,
    ensures
        bytes_of_items(items, n) is None,
    decreases n - k,
{
    if k < n {
        lemma_bytes_fail(items, k, n - 1);
    }
}

/// The transaction that an announcement carries.
pub open spec fn announced_of_json(j: JsonModel) -> Option<ApplicationPayloadModel> {
    match (j.get("transaction"@), text_of(j.get("signature"@))) {
        (Some(inner), Some(signature)) => match normal_of_json(inner) {
            Some(transaction) => Some(
                ApplicationPayloadModel::NewTransaction { transaction, signature },
            ),
            None => None,
        },
        _ => None,
    }
}

/// An application payload is what its kind says.
pub open spec fn application_of_json(j: JsonModel) -> Option<ApplicationPayloadModel> {
    match text_of(j.get("msg_type"@)) {
        Some(kind) => {
            if kind == "0"@ {
                announced_of_json(j)
            } else if kind == "1"@ {
                match j.get("block"@) {
                    Some(inner) => match block_of_json(inner) {
                        Some(block) => Some(ApplicationPayloadModel::NewBlock { block }),
                        None => None,
                    },
                    None => None,
                }
            } else if kind == "2"@ {
                Some(ApplicationPayloadModel::RequestFullChain)
            } else if kind == "3"@ {
                match items_of(j.get("chain"@)) {
                    Some(items) => match blocks_of_items(items, items.len() as int) {
                        Some(chain) => Some(ApplicationPayloadModel::FullChain { chain }),
                        None => None,
                    },
                    None => None,
                }
            } else if kind == "4"@ {
                match items_of(j.get("data"@)) {
                    Some(items) => match bytes_of_items(items, items.len() as int) {
                        Some(data) => Some(ApplicationPayloadModel::Enhanced { data }),
                        None => None,
                    },
                    None => None,
                }
            } else {
                None
            }
        },
        None => None,
    }
}

/// A payload is what its kind says.
pub open spec fn payload_of_json(j: JsonModel) -> Option<PayloadModel> {
    match text_of(j.get("msg_type"@)) {
        Some(kind) => {
            if kind == "0"@ {
                Some(PayloadModel::Add)
            } else if kind == "1"@ {
                Some(PayloadModel::Remove)
            } else if kind == "2"@ {
                match items_of(j.get("nodes"@)) {
                    Some(items) => match nodes_of_items(items, items.len() as int) {
                        Some(nodes) => Some(PayloadModel::CoreList { nodes }),
                        None => None,
                    },
                    None => None,
                }
            } else if kind == "3"@ {
                Some(PayloadModel::RequestCoreList)
            } else if kind == "4"@ {
                Some(PayloadModel::Ping)
            } else if kind == "5"@ {
                Some(PayloadModel::AddAsEdge)
            } else if kind == "6"@ {
                Some(PayloadModel::RemoveEdge)
            } else if kind == "7"@ {
                match j.get("payload"@) {
                    Some(inner) => match application_of_json(inner) {
                        Some(payload) => Some(PayloadModel::Application { payload }),
                        None => None,
                    },
                    None => None,
                }
            } else {
                None
            }
        },
        None => None,
    }
}

/// The message that a value spells, if it spells one. The port has to fit
/// in 16 bits.
pub open spec fn message_of_json(j: JsonModel) -> Option<MessageModel> {
    match (
        text_of(j.get("protocol"@)),
        text_of(j.get("version"@)),
        number_of(j.get("port"@)),
        payload_of_json(j),
    ) {
        (Some(protocol), Some(version), Some(port), Some(payload)) => if port <= 65535 {
            Some(MessageModel { protocol, version, port: port as u16, payload })
        } else {
            None
        },
        _ => None,
    }
}

fn nodes_from_items(items: &Vec<Json>) -> (r: Option<Vec<NodeAddr>>)
    ensures
        match r {
            Some(nodes) => nodes_of_items(models_of(items@), items.len() as int) == Some(nodes@),
            None => nodes_of_items(models_of(items@), items.len() as int) is None,
        },
{
    let ghost models = models_of(items@);
    let mut out: Vec<NodeAddr> = Vec::new();
    let mut i: usize = 0;
    proof {
        assert(out@ =~= Seq::<NodeAddr>::empty());
    }
    while i < items.len()
        invariant
            i <= items.len(),
            models == models_of(items@),
            nodes_of_items(models, i as int) == Some(out@),
        decreases items.len() - i,
    {
        proof {
            assert(models[i as int] == items@[i as int]@);
        }
        let parsed = match &items[i] {
            Json::Text(text) => NodeAddr::parse(text.as_str()),
            _ => None,
        };
        match parsed {
            Some(addr) => {
                out.push(addr);
            },
            None => {
                proof {
                    lemma_nodes_fail(models, i + 1, items.len() as int);
                }
                return None;
            },
        }
        i += 1;
    }
    Some(out)
}

fn bytes_from_items(items: &Vec<Json>) -> (r: Option<Vec<u8>>)
    ensures
        match r {
            Some(data) => bytes_of_items(models_of(items@), items.len() as int) == Some(data@),
            None => bytes_of_items(models_of(items@), items.len() as int) is None,
        },
{
    let ghost models = models_of(items@);
    let mut out: Vec<u8> = Vec::new();
    let mut i: usize = 0;
    proof {
        assert(out@ =~= Seq::<u8>::empty());
    }
    while i < items.len()
        invariant
            i <= items.len(),
            models == models_of(items@),
            bytes_of_items(models, i as int) == Some(out@),
        decreases items.len() - i,
    {
        proof {
            assert(models[i as int] == items@[i as int]@);
        }
        let parsed: Option<u8> = match &items[i] {
            Json::Number(n) => if *n <= 255 {
                Some(*n as u8)
            } else {
                None
            },
            _ => None,
        };
        match parsed {
            Some(b) => {
                out.push(b);
            },
            None => {
                proof {
                    lemma_bytes_fail(models, i + 1, items.len() as int);
                }
                return None;
            },
        }
        i += 1;
    }
    Some(out)
}

fn is_kind(kind: &String, name: &str) -> (r: bool)
    ensures
        r == (kind@ == name@),
{
    *kind == String::from_str(name)
}

impl ApplicationPayload {
    pub fn from_json(j: &Json) -> (r: Option<ApplicationPayload>)
        ensures
            match r {
                Some(p) => application_of_json(j@) == Some(p@) && p@.dated(),
                None => application_of_json(j@) is None,
            },
    {
        let kind = match get_text(j, "msg_type") {
            Some(kind) => kind,
            None => {
                return None;
            },
        };
        if is_kind(kind, "0") {
            let inner = match get(j, "transaction") {
                Some(inner) => inner,
                None => {
                    return None;
                },
            };
            let signature = match get_text(j, "signature") {
                Some(text) => text.clone(),
                None => {
                    return None;
                },
            };
            match NormalTransaction::from_json(inner) {
                Some(transaction) => Some(
                    ApplicationPayload::NewTransaction { transaction, signature },
                ),
                None => None,
            }
        } else if is_kind(kind, "1") {
            let inner = match get(j, "block") {
                Some(inner) => inner,
                None => {
                    return None;
                },
            };
            match Block::from_json(inner) {
                Some(block) => Some(ApplicationPayload::NewBlock { block }),
                None => None,
            }
        } else if is_kind(kind, "2") {
            Some(ApplicationPayload::RequestFullChain)
        } else if is_kind(kind, "3") {
            let items = match get_items(j, "chain") {
                Some(items) => items,
                None => {
                    return None;
                },
            };
            match blocks_from_items(items) {
                Some(chain) => Some(ApplicationPayload::FullChain { chain }),
                None => None,
            }
        } else if is_kind(kind, "4") {
            let items = match get_items(j, "data") {
                Some(items) => items,
                None => {
                    return None;
                },
            };
            match bytes_from_items(items) {
                Some(data) => Some(ApplicationPayload::Enhanced { data }),
                None => None,
            }
        } else {
            None
        }
    }

    /// Whether the transactions and blocks that the payload carries are
    /// well formed.
    pub fn is_well_formed(&self) -> (r: bool)
        ensures
            r == self@.well_formed(),
    {
        match self {
            ApplicationPayload::NewTransaction { transaction, signature } =>
                transaction.is_well_formed(),
            ApplicationPayload::NewBlock { block } => block.is_well_formed(),
            ApplicationPayload::FullChain { chain } => blocks_are_well_formed(chain),
            _ => true,
        }
    }
}

impl Payload {
    pub fn from_json(j: &Json) -> (r: Option<Payload>)
        ensures
            match r {
                Some(p) => payload_of_json(j@) == Some(p@) && p@.dated(),
                None => payload_of_json(j@) is None,
            },
    {
        let kind = match get_text(j, "msg_type") {
            Some(kind) => kind,
            None => {
                return None;
            },
        };
        if is_kind(kind, "0") {
            Some(Payload::Add)
        } else if is_kind(kind, "1") {
            Some(Payload::Remove)
        } else if is_kind(kind, "2") {
            let items = match get_items(j, "nodes") {
                Some(items) => items,
                None => {
                    return None;
                },
            };
            match nodes_from_items(items) {
                Some(nodes) => Some(Payload::CoreList { nodes }),
                None => None,
            }
        } else if is_kind(kind, "3") {
            Some(Payload::RequestCoreList)
        } else if is_kind(kind, "4") {
            Some(Payload::Ping)
        } else if is_kind(kind, "5") {
            Some(Payload::AddAsEdge)
        } else if is_kind(kind, "6") {
            Some(Payload::RemoveEdge)
        } else if is_kind(kind, "7") {
            let inner = match get(j, "payload") {
                Some(inner) => inner,
                None => {
                    return None;
                },
            };
            match ApplicationPayload::from_json(inner) {
                Some(payload) => Some(Payload::Application { payload }),
                None => None,
            }
        } else {
            None
        }
    }

    pub fn is_well_formed(&self) -> (r: bool)
        ensures
            r == self@.well_formed(),
    {
        match self {
            Payload::Application { payload } => payload.is_well_formed(),
            _ => true,
        }
    }
}

impl Message {
    pub fn from_json(j: &Json) -> (r: Option<Message>)
        ensures
            match r {
                Some(m) => message_of_json(j@) == Some(m@) && m@.dated(),
                None => message_of_json(j@) is None,
            },
    {
        let protocol = match get_text(j, "protocol") {
            Some(text) => text.clone(),
            None => {
                return None;
            },
        };
        let version = match get_text(j, "version") {
            Some(text) => text.clone(),
            None => {
                return None;
            },
        };
        let port = match get_number(j, "port") {
            Some(port) => port,
            None => {
                return None;
            },
        };
        let payload = match Payload::from_json(j) {
            Some(payload) => payload,
            None => {
                return None;
            },
        };
        if port > 65535 {
            return None;
        }
        Some(Message { protocol, version, port: port as u16, payload })
    }

    pub fn is_well_formed(&self) -> (r: bool)
        ensures
            r == self@.well_formed(),
    {
        self.payload.is_well_formed()
    }
}

/// Addresses are read back from the items that spell them.
pub proof fn lemma_nodes_round_trip(nodes: Seq<NodeAddr>, k: int)
    requires
        0 <= k <= nodes.len(),
    ensures
        nodes_of_items(json_of_nodes(nodes)->Array_0, k) == Some(nodes.take(k)),
    decreases k,
{
    if k > 0 {
        lemma_nodes_round_trip(nodes, k - 1);
        lemma_node_addr_round_trip(nodes[k - 1]);
        assert(nodes.take(k - 1).push(nodes[k - 1]) =~= nodes.take(k));
    } else {
        assert(nodes.take(k) =~= Seq::<NodeAddr>::empty());
    }
}

/// Bytes are read back from the items that spell them.
pub proof fn lemma_bytes_round_trip(data: Seq<u8>, k: int)
    requires
        0 <= k <= data.len(),
    ensures
        bytes_of_items(json_of_bytes(data)->Array_0, k) == Some(data.take(k)),
    decreases k,
{
    if k > 0 {
        lemma_bytes_round_trip(data, k - 1);
        assert(data.take(k - 1).push(data[k - 1]) =~= data.take(k));
    } else {
        assert(data.take(k) =~= Seq::<u8>::empty());
    }
}

/// Under the members of an application payload, its kind is found.
proof fn lemma_application_kind(p: ApplicationPayloadModel)
    ensures
        lookup_is(json_of_application(p)->Object_0, "msg_type"@, JsonModel::Text(p.kind())),
        application_fields(p).len() >= 1 ==> lookup_is(
            json_of_application(p)->Object_0,
            application_fields(p)[0].name,
            application_fields(p)[0].value,
        ),
        application_fields(p).len() >= 2 ==> lookup_is(
            json_of_application(p)->Object_0,
            application_fields(p)[1].name,
            application_fields(p)[1].value,
        ),
{
    lemma_names();
    let members = json_of_application(p)->Object_0;
    lemma_lookup_at(members, 0);
    if application_fields(p).len() >= 1 {
        assert(members[1] == application_fields(p)[0]);
        lemma_lookup_at(members, 1);
    }
    if application_fields(p).len() >= 2 {
        assert(members[2] == application_fields(p)[1]);
        lemma_lookup_at(members, 2);
    }
}

proof fn lemma_announcement_round_trip(p: ApplicationPayloadModel)
    requires
        p.dated(),
        p is NewTransaction,
    ensures
        application_of_json(json_of_application(p)) == Some(p),
{
    lemma_names();
    lemma_application_kind(p);
    lemma_normal_round_trip(p->transaction);
}

proof fn lemma_new_block_round_trip(p: ApplicationPayloadModel)
    requires
        p.dated(),
        p is NewBlock,
    ensures
        application_of_json(json_of_application(p)) == Some(p),
{
    lemma_names();
    lemma_application_kind(p);
    lemma_block_round_trip(p->block);
}

proof fn lemma_full_chain_round_trip(p: ApplicationPayloadModel)
    requires
        p.dated(),
        p is FullChain,
    ensures
        application_of_json(json_of_application(p)) == Some(p),
{
    lemma_names();
    lemma_application_kind(p);
    let chain = p->chain;
    lemma_blocks_round_trip(chain, chain.len() as int);
    assert(chain.take(chain.len() as int) =~= chain);
}

proof fn lemma_enhanced_round_trip(p: ApplicationPayloadModel)
    requires
        p is Enhanced,
    ensures
        application_of_json(json_of_application(p)) == Some(p),
{
    lemma_names();
    lemma_application_kind(p);
    let data = p->data;
    lemma_bytes_round_trip(data, data.len() as int);
    assert(data.take(data.len() as int) =~= data);
}

/// An application payload is read back from its JSON.
pub proof fn lemma_application_round_trip(p: ApplicationPayloadModel)
    requires
        p.dated(),
    ensures
        application_of_json(json_of_application(p)) == Some(p),
{
    match p {
        ApplicationPayloadModel::NewTransaction { transaction, signature } => {
            lemma_announcement_round_trip(p);
        },
        ApplicationPayloadModel::NewBlock { block } => {
            lemma_new_block_round_trip(p);
        },
        ApplicationPayloadModel::RequestFullChain => {
            lemma_names();
            lemma_application_kind(p);
        },
        ApplicationPayloadModel::FullChain { chain } => {
            lemma_full_chain_round_trip(p);
        },
        ApplicationPayloadModel::Enhanced { data } => {
            lemma_enhanced_round_trip(p);
        },
    }
}

/// A payload is read back from an object that holds its kind and its
/// members under their names.
pub proof fn lemma_payload_of_members(members: Seq<MemberModel>, p: PayloadModel)
    requires
        p.dated(),
        lookup_is(members, "msg_type"@, JsonModel::Text(p.kind())),
        p matches PayloadModel::CoreList { nodes } ==> lookup_is(
            members,
            "nodes"@,
            json_of_nodes(nodes),
        ),
        p matches PayloadModel::Application { payload } ==> lookup_is(
            members,
            "payload"@,
            json_of_application(payload),
        ),
    ensures
        payload_of_json(JsonModel::Object(members)) == Some(p),
{
    lemma_names();
    match p {
        PayloadModel::CoreList { nodes } => {
            lemma_nodes_round_trip(nodes, nodes.len() as int);
            assert(nodes.take(nodes.len() as int) =~= nodes);
        },
        PayloadModel::Application { payload } => {
            lemma_application_round_trip(payload);
        },
        _ => {},
    }
}

/// A message is read back from its JSON.
pub proof fn lemma_message_round_trip(m: MessageModel)
    requires
        m.dated(),
    ensures
        message_of_json(json_of_message(m)) == Some(m),
{
    lemma_names();
    let members = json_of_message(m)->Object_0;
    lemma_lookup_at(members, 0);
    lemma_lookup_at(members, 1);
    lemma_lookup_at(members, 2);
    lemma_lookup_at(members, 3);
    match m.payload {
        PayloadModel::CoreList { nodes } => {
            lemma_lookup_at(members, 4);
        },
        PayloadModel::Application { payload } => {
            lemma_lookup_at(members, 4);
        },
        _ => {},
    }
    lemma_payload_of_members(members, m.payload);
}

} // verus!
