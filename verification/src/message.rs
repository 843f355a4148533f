//! What nodes say to one another: an envelope with the sender's listening
//! port, around a membership payload or an application payload.

use vstd::prelude::*;
use vstd::string::*;
use vstd::std_specs::cmp::PartialEqSpecImpl;
use crate::blockchain::block::{
    Block, BlockModel, block_models, json_of_block, lemma_well_formed_block_is_dated,
};
use crate::blockchain::manager::{chain_dated, chain_well_formed};
use crate::blockchain::transaction::{
    NormalModel, NormalTransaction, TransactionSignature, lemma_well_formed_normal_is_dated,
};
use crate::blockchain::transaction_json::{
    json_of_normal, make_array, make_member, make_object, make_text, member,
};
use crate::json::value::{Json, JsonModel, Member, MemberModel};
use crate::json::writer::{json_text, to_text};
use crate::key_manager::KeyManager;
use crate::node_addr::NodeAddr;
use crate::structure::{Structure, list_duplicate, list_same, views};
use crate::util::{
    CryptoError, bytes_of_hex, bytes_to_hex, hex_of_bytes, is_hex, lemma_hex_round_trip,
    rsa_signature_valid, sha256_of,
};

verus! {

/// What the applications on top of the overlay say to one another, as
/// mathematics.
pub enum ApplicationPayloadModel {
    NewTransaction { transaction: NormalModel, signature: Seq<char> },
    NewBlock { block: BlockModel },
    RequestFullChain,
    FullChain { chain: Seq<BlockModel> },
    Enhanced { data: Seq<u8> },
}

/// What a message carries, as mathematics.
pub enum PayloadModel {
    Add,
    Remove,
    CoreList { nodes: Seq<NodeAddr> },
    RequestCoreList,
    Ping,
    AddAsEdge,
    RemoveEdge,
    Application { payload: ApplicationPayloadModel },
}

/// A message, as mathematics.
pub struct MessageModel {
    pub protocol: Seq<char>,
    pub version: Seq<char>,
    pub port: u16,
    pub payload: PayloadModel,
}

impl ApplicationPayloadModel {
    /// The transactions and blocks that the payload carries are well formed.
    pub open spec fn well_formed(self) -> bool {
        match self {
            ApplicationPayloadModel::NewTransaction { transaction, signature } =>
                transaction.well_formed(),
            ApplicationPayloadModel::NewBlock { block } => block.well_formed(),
            ApplicationPayloadModel::FullChain { chain } => chain_well_formed(chain),
            _ => true,
        }
    }

    /// The transactions and blocks that the payload carries are dated: all
    /// it takes for the payload to be written and read back.
    pub open spec fn dated(self) -> bool {
        match self {
            ApplicationPayloadModel::NewTransaction { transaction, signature } =>
                transaction.dated(),
            ApplicationPayloadModel::NewBlock { block } => block.dated(),
            ApplicationPayloadModel::FullChain { chain } => chain_dated(chain),
            _ => true,
        }
    }

    /// The number under which the kind of payload travels.
    pub open spec fn kind(self) -> Seq<char> {
        match self {
            ApplicationPayloadModel::NewTransaction { .. } => "0"@,
            ApplicationPayloadModel::NewBlock { .. } => "1"@,
            ApplicationPayloadModel::RequestFullChain => "2"@,
            ApplicationPayloadModel::FullChain { .. } => "3"@,
            ApplicationPayloadModel::Enhanced { .. } => "4"@,
        }
    }
}

impl PayloadModel {
    pub open spec fn well_formed(self) -> bool {
        match self {
            PayloadModel::Application { payload } => payload.well_formed(),
            _ => true,
        }
    }

    pub open spec fn dated(self) -> bool {
        match self {
            PayloadModel::Application { payload } => payload.dated(),
            _ => true,
        }
    }

    /// The number under which the kind of payload travels.
    pub open spec fn kind(self) -> Seq<char> {
        match self {
            PayloadModel::Add => "0"@,
            PayloadModel::Remove => "1"@,
            PayloadModel::CoreList { .. } => "2"@,
            PayloadModel::RequestCoreList => "3"@,
            PayloadModel::Ping => "4"@,
            PayloadModel::AddAsEdge => "5"@,
            PayloadModel::RemoveEdge => "6"@,
            PayloadModel::Application { .. } => "7"@,
        }
    }
}

impl MessageModel {
    pub open spec fn well_formed(self) -> bool {
        self.payload.well_formed()
    }

    pub open spec fn dated(self) -> bool {
        self.payload.dated()
    }
}

/// A well-formed message is dated.
pub proof fn lemma_well_formed_message_is_dated(m: MessageModel)
    requires
        m.well_formed(),
    ensures
        m.dated(),
{
    match m.payload {
        PayloadModel::Application { payload } => match payload {
            ApplicationPayloadModel::NewTransaction { transaction, signature } => {
                lemma_well_formed_normal_is_dated(transaction);
            },
            ApplicationPayloadModel::NewBlock { block } => {
                lemma_well_formed_block_is_dated(block);
            },
            ApplicationPayloadModel::FullChain { chain } => {
                assert forall|i: int| 0 <= i < chain.len() implies (#[trigger] chain[i]).dated() by {
                    assert(chain[i].well_formed());
                    lemma_well_formed_block_is_dated(chain[i]);
                }
            },
            _ => {},
        },
        _ => {},
    }
}

/// The payload that announces `transaction` with the signature `signature`,
/// spelled in hexadecimal.
pub open spec fn announced(transaction: NormalModel, signature: Seq<u8>) -> ApplicationPayloadModel {
    ApplicationPayloadModel::NewTransaction { transaction, signature: hex_of_bytes(signature) }
}

/// The name of the protocol that every message of this node carries.
pub open spec fn protocol_name() -> Seq<char> {
    "simple_bitcoin_protocol"@
}

/// The version of the protocol that every message of this node carries.
pub open spec fn protocol_version() -> Seq<char> {
    "0.1.0"@
}

/// The message that this node sends from `port` with `payload`.
pub open spec fn message_from(port: u16, payload: PayloadModel) -> MessageModel {
    MessageModel { protocol: protocol_name(), version: protocol_version(), port, payload }
}

/// Blocks, as an array.
pub open spec fn json_of_blocks(chain: Seq<BlockModel>) -> JsonModel {
    JsonModel::Array(Seq::new(chain.len(), |i: int| json_of_block(chain[i])))
}

/// Bytes, as an array of numbers.
pub open spec fn json_of_bytes(data: Seq<u8>) -> JsonModel {
    JsonModel::Array(Seq::new(data.len(), |i: int| JsonModel::Number(data[i] as u64)))
}

/// Addresses, as an array of their spellings.
pub open spec fn json_of_nodes(nodes: Seq<NodeAddr>) -> JsonModel {
    JsonModel::Array(Seq::new(nodes.len(), |i: int| JsonModel::Text(nodes[i].text())))
}

/// The members that follow the kind of an application payload.
pub open spec fn application_fields(p: ApplicationPayloadModel) -> Seq<MemberModel> {
    match p {
        ApplicationPayloadModel::NewTransaction { transaction, signature } => seq![
            member("transaction"@, json_of_normal(transaction)),
            member("signature"@, JsonModel::Text(signature)),
        ],
        ApplicationPayloadModel::NewBlock { block } => seq![member("block"@, json_of_block(block))],
        ApplicationPayloadModel::RequestFullChain => Seq::empty(),
        ApplicationPayloadModel::FullChain { chain } => seq![
            member("chain"@, json_of_blocks(chain)),
        ],
        ApplicationPayloadModel::Enhanced { data } => seq![member("data"@, json_of_bytes(data))],
    }
}

/// An application payload: its kind under `msg_type`, then its members.
pub open spec fn json_of_application(p: ApplicationPayloadModel) -> JsonModel {
    JsonModel::Object(
        seq![member("msg_type"@, JsonModel::Text(p.kind()))] + application_fields(p),
    )
}

/// The members that follow the kind of a payload.
pub open spec fn payload_fields(p: PayloadModel) -> Seq<MemberModel> {
    match p {
        PayloadModel::CoreList { nodes } => seq![member("nodes"@, json_of_nodes(nodes))],
        PayloadModel::Application { payload } => seq![
            member("payload"@, json_of_application(payload)),
        ],
        _ => Seq::empty(),
    }
}

/// The envelope, then the kind of the payload and its members, all in one
/// object.
pub open spec fn json_of_message(m: MessageModel) -> JsonModel {
    JsonModel::Object(
        seq![
            member("protocol"@, JsonModel::Text(m.protocol)),
            member("version"@, JsonModel::Text(m.version)),
            member("port"@, JsonModel::Number(m.port as u64)),
            member("msg_type"@, JsonModel::Text(m.payload.kind())),
        ] + payload_fields(m.payload),
    )
}

/// What the applications on top of the overlay say to one another.
#[derive(Debug)]
pub enum ApplicationPayload {
    NewTransaction { transaction: NormalTransaction, signature: TransactionSignature },
    NewBlock { block: Block },
    RequestFullChain,
    FullChain { chain: Vec<Block> },
    Enhanced { data: Vec<u8> },
}

/// What a message carries: a word about membership, or an application
/// payload.
#[derive(Debug)]
pub enum Payload {
    Add,
    Remove,
    CoreList { nodes: Vec<NodeAddr> },
    RequestCoreList,
    Ping,
    AddAsEdge,
    RemoveEdge,
    Application { payload: ApplicationPayload },
}

/// A message: the protocol and its version, the port at which the sender
/// listens, and the payload.
#[derive(Debug)]
pub struct Message {
    pub protocol: String,
    pub version: String,
    pub port: u16,
    pub payload: Payload,
}

impl View for ApplicationPayload {
    type V = ApplicationPayloadModel;

    open spec fn view(&self) -> ApplicationPayloadModel {
        match self {
            ApplicationPayload::NewTransaction { transaction, signature } =>
                ApplicationPayloadModel::NewTransaction {
                    transaction: transaction@,
                    signature: signature@,
                },
            ApplicationPayload::NewBlock { block } => ApplicationPayloadModel::NewBlock {
                block: block@,
            },
            ApplicationPayload::RequestFullChain => ApplicationPayloadModel::RequestFullChain,
            ApplicationPayload::FullChain { chain } => ApplicationPayloadModel::FullChain {
                chain: block_models(chain@),
            },
            ApplicationPayload::Enhanced { data } => ApplicationPayloadModel::Enhanced {
                data: data@,
            },
        }
    }
}

impl View for Payload {
    type V = PayloadModel;

    open spec fn view(&self) -> PayloadModel {
        match self {
            Payload::Add => PayloadModel::Add,
            Payload::Remove => PayloadModel::Remove,
            Payload::CoreList { nodes } => PayloadModel::CoreList { nodes: nodes@ },
            Payload::RequestCoreList => PayloadModel::RequestCoreList,
            Payload::Ping => PayloadModel::Ping,
            Payload::AddAsEdge => PayloadModel::AddAsEdge,
            Payload::RemoveEdge => PayloadModel::RemoveEdge,
            Payload::Application { payload } => PayloadModel::Application { payload: payload@ },
        }
    }
}

impl View for Message {
    type V = MessageModel;

    open spec fn view(&self) -> MessageModel {
        MessageModel {
            protocol: self.protocol@,
            version: self.version@,
            port: self.port,
            payload: self.payload@,
        }
    }
}

fn copy_bytes(data: &Vec<u8>) -> (r: Vec<u8>)
    ensures
        r@ == data@,
{
    let mut out: Vec<u8> = Vec::new();
    let mut i: usize = 0;
    while i < data.len()
        invariant
            i <= data.len(),
            out@ == data@.subrange(0, i as int),
        decreases data.len() - i,
    {
        out.push(data[i]);
        i += 1;
    }
    proof {
        assert(out@ =~= data@);
    }
    out
}

fn same_bytes(a: &Vec<u8>, b: &Vec<u8>) -> (r: bool)
    ensures
        r == (a@ == b@),
{
    if a.len() != b.len() {
        return false;
    }
    let mut i: usize = 0;
    while i < a.len()
        invariant
            i <= a.len(),
            a.len() == b.len(),
            forall|j: int| 0 <= j < i ==> a@[j] == b@[j],
        decreases a.len() - i,
    {
        if a[i] != b[i] {
            return false;
        }
        i += 1;
    }
    proof {
        assert(a@ =~= b@);
    }
    true
}

fn copy_nodes(nodes: &Vec<NodeAddr>) -> (r: Vec<NodeAddr>)
    ensures
        r@ == nodes@,
{
    let r = list_duplicate(nodes);
    proof {
        assert(r@ =~= views(r@));
        assert(nodes@ =~= views(nodes@));
    }
    r
}

fn same_nodes(a: &Vec<NodeAddr>, b: &Vec<NodeAddr>) -> (r: bool)
    ensures
        r == (a@ == b@),
{
    proof {
        assert(a@ =~= views(a@));
        assert(b@ =~= views(b@));
    }
    list_same(a, b)
}

fn blocks_to_json(chain: &Vec<Block>) -> (j: Json)
    requires
        chain_dated(block_models(chain@)),
    ensures
        j@ == json_of_blocks(block_models(chain@)),
{
    let ghost models = block_models(chain@);
    let mut items: Vec<Json> = Vec::new();
    let mut i: usize = 0;
    while i < chain.len()
        invariant
            i <= chain.len(),
            items.len() == i,
            models == block_models(chain@),
            chain_dated(models),
            forall|k: int| 0 <= k < i ==> items@[k]@ == json_of_block(chain@[k]@),
        decreases chain.len() - i,
    {
        proof {
            assert(models[i as int] == chain@[i as int]@);
            assert(models[i as int].dated());
        }
        items.push(chain[i].to_json());
        i += 1;
    }
    let j = make_array(items);
    proof {
        assert(j@->Array_0 =~= json_of_blocks(models)->Array_0);
    }
    j
}

fn bytes_to_json(data: &Vec<u8>) -> (j: Json)
    ensures
        j@ == json_of_bytes(data@),
{
    let mut items: Vec<Json> = Vec::new();
    let mut i: usize = 0;
    while i < data.len()
        invariant
            i <= data.len(),
            items.len() == i,
            forall|k: int| 0 <= k < i ==> items@[k]@ == JsonModel::Number(data@[k] as u64),
        decreases data.len() - i,
    {
        items.push(Json::Number(data[i] as u64));
        i += 1;
    }
    let j = make_array(items);
    proof {
        assert(j@->Array_0 =~= json_of_bytes(data@)->Array_0);
    }
    j
}

fn nodes_to_json(nodes: &Vec<NodeAddr>) -> (j: Json)
    ensures
        j@ == json_of_nodes(nodes@),
{
    let mut items: Vec<Json> = Vec::new();
    let mut i: usize = 0;
    while i < nodes.len()
        invariant
            i <= nodes.len(),
            items.len() == i,
            forall|k: int| 0 <= k < i ==> items@[k]@ == JsonModel::Text(nodes@[k].text()),
        decreases nodes.len() - i,
    {
        items.push(Json::Text(nodes[i].to_text()));
        i += 1;
    }
    let j = make_array(items);
    proof {
        assert(j@->Array_0 =~= json_of_nodes(nodes@)->Array_0);
    }
    j
}

impl ApplicationPayload {
    /// The request for coins to be made over to `address`: it carries the
    /// address as UTF-8.
    pub fn coin_request(address: &str) -> (r: ApplicationPayload)
        ensures
            r@ == (ApplicationPayloadModel::Enhanced { data: vstd::utf8::encode_utf8(address@) }),
    {
        ApplicationPayload::Enhanced { data: vstd::slice::slice_to_vec(address.as_bytes()) }
    }

    /// The payload that announces `transaction` with the signature that
    /// the bytes `signature` are, spelled in hexadecimal.
    pub fn announcement(transaction: NormalTransaction, signature: &[u8]) -> (r:
        ApplicationPayload)
        ensures
            r@ == announced(transaction@, signature@),
    {
        ApplicationPayload::NewTransaction { transaction, signature: bytes_to_hex(signature) }
    }

    /// The payload that announces `transaction`, signed by `key_manager`
    /// over the canonical JSON text of the transaction. There is one
    /// exactly where `key_manager` makes a signature of that text, and that
    /// signature travels with it.
    pub fn for_transaction(transaction: NormalTransaction, key_manager: &mut KeyManager) -> (r:
        Result<ApplicationPayload, CryptoError>)
        requires
            transaction@.dated(),
        ensures
            *final(key_manager) == *old(key_manager),
            match old(key_manager).signature_of(json_text(json_of_normal(transaction@))) {
                Some(made) => r matches Ok(payload) && payload@ == announced(
                    transaction@,
                    made,
                ),
                None => r matches Err(e) && e == CryptoError::SigningFailed,
            },
            r matches Ok(payload) ==> payload@ matches ApplicationPayloadModel::NewTransaction {
                transaction: carried,
                signature,
            } && carried == transaction@ && is_hex(signature) && rsa_signature_valid(
                old(key_manager).public_key_der(),
                sha256_of(json_text(json_of_normal(transaction@))),
                bytes_of_hex(signature),
            ),
    {
        let j = transaction.to_json();
        let text = to_text(&j);
        let signed = key_manager.sign(text.as_slice());
        match signed {
            Ok(bytes) => {
                proof {
                    lemma_hex_round_trip(bytes@);
                }
                Ok(ApplicationPayload::announcement(transaction, bytes.as_slice()))
            },
            Err(e) => Err(e),
        }
    }

    pub fn to_json(&self) -> (j: Json)
        requires
            self@.dated(),
        ensures
            j@ == json_of_application(self@),
    {
        let mut members: Vec<Member> = Vec::new();
        match self {
            ApplicationPayload::NewTransaction { transaction, signature } => {
                members.push(make_member("msg_type", make_text("0")));
                members.push(make_member("transaction", transaction.to_json()));
                members.push(make_member("signature", make_text(signature.as_str())));
            },
            ApplicationPayload::NewBlock { block } => {
                members.push(make_member("msg_type", make_text("1")));
                members.push(make_member("block", block.to_json()));
            },
            ApplicationPayload::RequestFullChain => {
                members.push(make_member("msg_type", make_text("2")));
            },
            ApplicationPayload::FullChain { chain } => {
                members.push(make_member("msg_type", make_text("3")));
                members.push(make_member("chain", blocks_to_json(chain)));
            },
            ApplicationPayload::Enhanced { data } => {
                members.push(make_member("msg_type", make_text("4")));
                members.push(make_member("data", bytes_to_json(data)));
            },
        }
        let j = make_object(members);
        proof {
            assert(j@->Object_0 =~= json_of_application(self@)->Object_0);
        }
        j
    }

    /// A copy of the payload.
    pub fn duplicate(&self) -> (r: ApplicationPayload)
        ensures
            r@ == self@,
    {
        match self {
            ApplicationPayload::NewTransaction { transaction, signature } =>
                ApplicationPayload::NewTransaction {
                    transaction: transaction.duplicate(),
                    signature: signature.clone(),
                },
            ApplicationPayload::NewBlock { block } => ApplicationPayload::NewBlock {
                block: block.duplicate(),
            },
            ApplicationPayload::RequestFullChain => ApplicationPayload::RequestFullChain,
            ApplicationPayload::FullChain { chain } => ApplicationPayload::FullChain {
                chain: list_duplicate(chain),
            },
            ApplicationPayload::Enhanced { data } => ApplicationPayload::Enhanced {
                data: copy_bytes(data),
            },
        }
    }

    /// Whether the two payloads are equal through all that they carry.
    pub fn same(&self, other: &ApplicationPayload) -> (r: bool)
        ensures
            r == (self@ == other@),
    {
        match (self, other) {
            (
                ApplicationPayload::NewTransaction { transaction: a, signature: s },
                ApplicationPayload::NewTransaction { transaction: b, signature: t },
            ) => *s == *t && a.same(b),
            (ApplicationPayload::NewBlock { block: a }, ApplicationPayload::NewBlock { block: b }) =>
                a.same(b),
            (ApplicationPayload::RequestFullChain, ApplicationPayload::RequestFullChain) => true,
            (
                ApplicationPayload::FullChain { chain: a },
                ApplicationPayload::FullChain { chain: b },
            ) => list_same(a, b),
            (ApplicationPayload::Enhanced { data: a }, ApplicationPayload::Enhanced { data: b }) =>
                same_bytes(a, b),
            _ => false,
        }
    }
}

impl Payload {
    /// A copy of the payload.
    pub fn duplicate(&self) -> (r: Payload)
        ensures
            r@ == self@,
    {
        match self {
            Payload::Add => Payload::Add,
            Payload::Remove => Payload::Remove,
            Payload::CoreList { nodes } => Payload::CoreList { nodes: copy_nodes(nodes) },
            Payload::RequestCoreList => Payload::RequestCoreList,
            Payload::Ping => Payload::Ping,
            Payload::AddAsEdge => Payload::AddAsEdge,
            Payload::RemoveEdge => Payload::RemoveEdge,
            Payload::Application { payload } => Payload::Application {
                payload: payload.duplicate(),
            },
        }
    }

    /// Whether the two payloads are equal through all that they carry.
    pub fn same(&self, other: &Payload) -> (r: bool)
        ensures
            r == (self@ == other@),
    {
        match (self, other) {
            (Payload::Add, Payload::Add) => true,
            (Payload::Remove, Payload::Remove) => true,
            (Payload::CoreList { nodes: a }, Payload::CoreList { nodes: b }) => same_nodes(a, b),
            (Payload::RequestCoreList, Payload::RequestCoreList) => true,
            (Payload::Ping, Payload::Ping) => true,
            (Payload::AddAsEdge, Payload::AddAsEdge) => true,
            (Payload::RemoveEdge, Payload::RemoveEdge) => true,
            (Payload::Application { payload: a }, Payload::Application { payload: b }) => a.same(b),
            _ => false,
        }
    }
}

impl Message {
    /// The message that this node sends from `port` with `payload`.
    pub fn new(port: u16, payload: Payload) -> (r: Message)
        ensures
            r@ == message_from(port, payload@),
    {
        Message {
            protocol: String::from_str("simple_bitcoin_protocol"),
            version: String::from_str("0.1.0"),
            port,
            payload,
        }
    }

    pub fn new_with_proto_version(protocol: String, version: String, port: u16, payload: Payload) -> (r:
        Message)
        ensures
            r@ == (MessageModel {
                protocol: protocol@,
                version: version@,
                port,
                payload: payload@,
            }),
    {
        Message { protocol, version, port, payload }
    }

    pub fn to_json(&self) -> (j: Json)
        requires
            self@.dated(),
        ensures
            j@ == json_of_message(self@),
    {
        let mut members: Vec<Member> = Vec::new();
        members.push(make_member("protocol", make_text(self.protocol.as_str())));
        members.push(make_member("version", make_text(self.version.as_str())));
        members.push(make_member("port", Json::Number(self.port as u64)));
        match &self.payload {
            Payload::Add => {
                members.push(make_member("msg_type", make_text("0")));
            },
            Payload::Remove => {
                members.push(make_member("msg_type", make_text("1")));
            },
            Payload::CoreList { nodes } => {
                members.push(make_member("msg_type", make_text("2")));
                members.push(make_member("nodes", nodes_to_json(nodes)));
            },
            Payload::RequestCoreList => {
                members.push(make_member("msg_type", make_text("3")));
            },
            Payload::Ping => {
                members.push(make_member("msg_type", make_text("4")));
            },
            Payload::AddAsEdge => {
                members.push(make_member("msg_type", make_text("5")));
            },
            Payload::RemoveEdge => {
                members.push(make_member("msg_type", make_text("6")));
            },
            Payload::Application { payload } => {
                members.push(make_member("msg_type", make_text("7")));
                members.push(make_member("payload", payload.to_json()));
            },
        }
        let j = make_object(members);
        proof {
            assert(j@->Object_0 =~= json_of_message(self@)->Object_0);
        }
        j
    }

    /// The bytes that travel: the compact JSON text of the message.
    pub fn to_bytes(&self) -> (r: Vec<u8>)
        requires
            self@.dated(),
        ensures
            r@ == json_text(json_of_message(self@)),
    {
        let j = self.to_json();
        to_text(&j)
    }

    /// A copy of the message.
    pub fn duplicate(&self) -> (r: Message)
        ensures
            r@ == self@,
    {
        Message {
            protocol: self.protocol.clone(),
            version: self.version.clone(),
            port: self.port,
            payload: self.payload.duplicate(),
        }
    }

    /// Whether the two messages are equal through all that they carry.
    pub fn same(&self, other: &Message) -> (r: bool)
        ensures
            r == (self@ == other@),
    {
        self.port == other.port && self.protocol == other.protocol && self.version == other.version
            && self.payload.same(&other.payload)
    }
}

impl Structure for Message {
    fn same(&self, other: &Message) -> (r: bool) {
        Message::same(self, other)
    }

    fn duplicate(&self) -> (r: Message) {
        Message::duplicate(self)
    }
}

impl Clone for ApplicationPayload {
    fn clone(&self) -> (r: ApplicationPayload)
        ensures
            r@ == self@,
    {
        self.duplicate()
    }
}

impl Clone for Payload {
    fn clone(&self) -> (r: Payload)
        ensures
            r@ == self@,
    {
        self.duplicate()
    }
}

impl Clone for Message {
    fn clone(&self) -> (r: Message)
        ensures
            r@ == self@,
    {
        self.duplicate()
    }
}

impl PartialEq for ApplicationPayload {
    fn eq(&self, other: &ApplicationPayload) -> (r: bool) {
        self.same(other)
    }
}

impl PartialEqSpecImpl for ApplicationPayload {
    open spec fn obeys_eq_spec() -> bool {
        true
    }

    open spec fn eq_spec(&self, other: &ApplicationPayload) -> bool {
        self@ == other@
    }
}

impl PartialEq for Payload {
    fn eq(&self, other: &Payload) -> (r: bool) {
        self.same(other)
    }
}

impl PartialEqSpecImpl for Payload {
    open spec fn obeys_eq_spec() -> bool {
        true
    }

    open spec fn eq_spec(&self, other: &Payload) -> bool {
        self@ == other@
    }
}

impl PartialEq for Message {
    fn eq(&self, other: &Message) -> (r: bool) {
        self.same(other)
    }
}

impl PartialEqSpecImpl for Message {
    open spec fn obeys_eq_spec() -> bool {
        true
    }

    open spec fn eq_spec(&self, other: &Message) -> bool {
        self@ == other@
    }
}

} // verus!
