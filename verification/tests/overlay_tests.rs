use rand::rngs::OsRng;
use simple_bitcoin::blockchain::block::{Block, BlockWithoutProof};
use simple_bitcoin::blockchain::manager::BlockchainManager;
use simple_bitcoin::blockchain::transaction::{
    CoinbaseTransaction, NormalTransaction, Transaction, TransactionInput, TransactionOutput,
    Transactions,
};
use simple_bitcoin::blockchain::transaction_pool::TransactionPool;
use simple_bitcoin::blockchain::utxo::UTXOManager;
use simple_bitcoin::client_core::{ClientCore, ClientCoreState};
use simple_bitcoin::connection_manager_core::{
    replies_of_application, send_to_each, ConnectionManagerInner, Outgoing,
};
use simple_bitcoin::connection_manager_edge::{
    ConnectionManagerInner as EdgeManager, EdgeError,
};
use simple_bitcoin::json::writer::to_text;
use simple_bitcoin::key_manager::KeyManager;
use simple_bitcoin::message::{ApplicationPayload, Message, Payload};
use simple_bitcoin::node_addr::NodeAddr;
use simple_bitcoin::server_core::{judge_transaction, ServerCore, ServerCoreState, ServerHandler};
use simple_bitcoin::blockchain::manager::TransactionError;
use simple_bitcoin::timestamp::Timestamp;
use simple_bitcoin::util;

fn node(last: u8, port: u16) -> NodeAddr {
    NodeAddr::from_parts(10, 0, 0, last, port)
}

fn sent(out: &Vec<Outgoing>) -> Vec<(NodeAddr, Message)> {
    out.iter().map(|o| (o.to, o.message.clone())).collect()
}

fn at(second: u8) -> Timestamp {
    Timestamp { year: 2022, month: 3, day: 9, hour: 12, minute: 0, second, nanos: 0 }
}

#[test]
fn membership_payloads_change_the_lists_of_nodes() {
    let me = node(1, 1000);
    let mut cm = ConnectionManagerInner::new(me);
    assert_eq!(cm.get_my_addr(), me);
    assert_eq!(cm.get_core_nodes(), vec![me]);
    assert_eq!(cm.get_other_core_nodes(), vec![]);

    // The first to join: there is nobody else to tell but the newcomer.
    let a = node(2, 2000);
    let out = cm.handle_membership(a, &Payload::Add);
    assert_eq!(cm.get_core_nodes(), vec![me, a]);
    let list = Message::new(1000, Payload::CoreList { nodes: vec![me, a] });
    assert_eq!(sent(&out), vec![(a, list)]);
    // Known already: nothing is sent.
    assert_eq!(sent(&cm.handle_membership(a, &Payload::Add)), vec![]);

    let b = node(3, 3000);
    let out = cm.handle_membership(b, &Payload::Add);
    let list = Message::new(1000, Payload::CoreList { nodes: vec![me, a, b] });
    assert_eq!(sent(&out), vec![(a, list.clone()), (b, list.clone())]);

    // A request for the list is answered to the one who asks.
    let c = node(4, 4000);
    let out = cm.handle_membership(c, &Payload::RequestCoreList);
    assert_eq!(sent(&out), vec![(c, list.clone())]);
    assert_eq!(cm.get_core_nodes(), vec![me, a, b]);

    // An edge attaches and is told the list; it is no core node.
    let out = cm.handle_membership(c, &Payload::AddAsEdge);
    assert_eq!(sent(&out), vec![(c, list.clone())]);
    assert_eq!(cm.get_edge_nodes(), vec![c]);
    assert_eq!(cm.get_core_nodes(), vec![me, a, b]);
    assert_eq!(sent(&cm.handle_membership(c, &Payload::RemoveEdge)), vec![]);
    assert_eq!(cm.get_edge_nodes(), vec![]);

    // A list of core nodes is merged in; nothing is sent.
    let d = node(5, 5000);
    let out = cm.handle_membership(a, &Payload::CoreList { nodes: vec![b, d, me, d] });
    assert_eq!(sent(&out), vec![]);
    assert_eq!(cm.get_core_nodes(), vec![me, a, b, d]);
    assert_eq!(sent(&cm.handle_membership(a, &Payload::Ping)), vec![]);

    // A node leaves: those left are told.
    let out = cm.handle_membership(a, &Payload::Remove);
    let list = Message::new(1000, Payload::CoreList { nodes: vec![me, b, d] });
    assert_eq!(sent(&out), vec![(b, list.clone()), (d, list)]);
    assert_eq!(sent(&cm.handle_membership(a, &Payload::Remove)), vec![]);
    assert_eq!(cm.application_context(b), (vec![b, d], true));
    assert_eq!(cm.application_context(a), (vec![b, d], false));
    assert_eq!(cm.application_context(me), (vec![b, d], false));
}

#[test]
fn a_sweep_drops_the_nodes_that_cannot_be_reached() {
    let me = node(1, 1000);
    let (a, b, c) = (node(2, 1), node(3, 1), node(4, 1));
    let mut cm = ConnectionManagerInner::new(me);
    for peer in [a, b, c] {
        cm.add_peer(peer);
    }
    let ping = Message::new(1000, Payload::Ping);
    assert_eq!(
        sent(&cm.ping_targets()),
        vec![(a, ping.clone()), (b, ping.clone()), (c, ping.clone())]
    );
    assert_eq!(sent(&cm.finish_sweep(&vec![])), vec![]);
    assert_eq!(cm.get_core_nodes(), vec![me, a, b, c]);
    let out = cm.finish_sweep(&vec![c, a, node(9, 9)]);
    assert_eq!(cm.get_core_nodes(), vec![me, b]);
    let list = Message::new(1000, Payload::CoreList { nodes: vec![me, b] });
    assert_eq!(sent(&out), vec![(b, list)]);
    // A send that fails drops the node it was for.
    assert!(cm.remove_peer(&b));
    assert!(!cm.remove_peer(&b));
    assert!(!cm.add_peer(me));
    assert!(cm.add_edge(a));
    assert!(!cm.add_edge(a));
    assert!(cm.remove_edge(&a));
    assert!(!cm.remove_edge(&a));
    assert_eq!((cm.join_request(a).to, cm.join_request(a).message), (a, Message::new(1000, Payload::Add)));
    assert!(cm.leave_notice(None).is_none());
    let leave = cm.leave_notice(Some(a)).unwrap();
    assert_eq!((leave.to, leave.message), (a, Message::new(1000, Payload::Remove)));
    assert_eq!(sent(&cm.broadcast_core_list()), vec![]);
}

#[test]
fn the_answer_of_the_application_goes_to_the_nodes_it_names() {
    assert_eq!(sent(&replies_of_application(7, None)), vec![]);
    let (a, b) = (node(2, 1), node(3, 1));
    let out = replies_of_application(7, Some((ApplicationPayload::RequestFullChain, vec![a, b, a])));
    let message =
        Message::new(7, Payload::Application { payload: ApplicationPayload::RequestFullChain });
    assert_eq!(sent(&out), vec![(a, message.clone()), (b, message.clone()), (a, message.clone())]);
    assert_eq!(sent(&send_to_each(&vec![], &message)), vec![]);
}

#[test]
fn an_edge_keeps_to_one_core_node_and_moves_on_when_it_is_lost() {
    let me = node(9, 9000);
    let (a, b, c) = (node(1, 1), node(2, 2), node(3, 3));
    let mut cm = EdgeManager::new(me, a);
    assert_eq!(cm.get_my_addr(), me);
    assert_eq!(cm.get_current_code_node(), a);
    assert_eq!(cm.get_core_nodes(), vec![a]);
    let join = cm.join_request();
    assert_eq!((join.to, join.message), (a, Message::new(9000, Payload::AddAsEdge)));
    let ping = cm.ping();
    assert_eq!((ping.to, ping.message), (a, Message::new(9000, Payload::Ping)));

    let list = Message::new(1, Payload::CoreList { nodes: vec![a, b, c, b] });
    assert_eq!(cm.handle_message(list), None);
    assert_eq!(cm.get_core_nodes(), vec![a, b, c]);
    assert_eq!(cm.handle_message(Message::new(1, Payload::Ping)), None);
    assert_eq!(cm.handle_message(Message::new(1, Payload::Add)), None);
    let carried = ApplicationPayload::Enhanced { data: vec![1] };
    assert_eq!(
        cm.handle_message(Message::new(1, Payload::Application { payload: carried.clone() })),
        Some(carried.clone())
    );
    assert_eq!(cm.get_core_nodes(), vec![a, b, c]);

    // Another node is lost: the edge stays where it is.
    assert_eq!(cm.remove_peer(&c), Ok(true));
    assert_eq!(cm.remove_peer(&c), Ok(false));
    assert_eq!(cm.get_current_code_node(), a);
    // Its own core node is lost: it moves to the first of those left.
    let next = cm.after_failed_ping(a).unwrap();
    assert_eq!((next.to, next.message), (b, Message::new(9000, Payload::AddAsEdge)));
    assert_eq!(cm.get_current_code_node(), b);
    assert_eq!(cm.get_core_nodes(), vec![b]);
    let out = cm.send_message_to_my_core_node(carried.clone());
    assert_eq!(
        (out.to, out.message),
        (b, Message::new(9000, Payload::Application { payload: carried }))
    );
    let leave = cm.leave_notice();
    assert_eq!((leave.to, leave.message), (b, Message::new(9000, Payload::RemoveEdge)));
    // The last is lost: there is no core node to go on with.
    assert_eq!(cm.after_failed_ping(b).err(), Some(EdgeError::NoCoreNode));
    assert_eq!(cm.get_core_nodes(), vec![]);
    assert_eq!(cm.remove_peer(&b), Err(EdgeError::NoCoreNode));
    assert!(cm.add_peer(c));
    assert_eq!(cm.remove_peer(&b), Ok(false));
    assert_eq!(cm.get_current_code_node(), c);
}

fn block_on(chain: &BlockchainManager, miner: &str, value: u64, txs: Vec<NormalTransaction>, second: u8) -> Block {
    BlockWithoutProof::with_timestamp(
        at(second),
        Transactions::new(CoinbaseTransaction::new(miner.to_string(), value, at(second)), txs),
        chain.get_last_block_hash(),
    )
    .mine(chain.get_difficulty())
    .unwrap()
}

#[test]
fn an_edge_works_out_its_balance_from_the_chain_it_is_sent() {
    let me = node(9, 9000);
    let core = node(1, 1);
    let mut client = ClientCore::new(me, core, UTXOManager::new("me".to_string()));
    assert_eq!(client.get_my_current_state(), &ClientCoreState::Init);
    let join = client.start();
    assert_eq!((join.to, join.message), (core, Message::new(9000, Payload::AddAsEdge)));
    assert_eq!(client.get_my_current_state(), &ClientCoreState::Active);

    let mut chain = BlockchainManager::new(0);
    let first = block_on(&chain, "me", 10, vec![], 0);
    chain.add_new_block(first.clone());
    let spend = NormalTransaction::new(
        vec![TransactionInput::new(first.get_transaction_at(0).unwrap(), 0)],
        vec![
            TransactionOutput::new("you".to_string(), 6),
            TransactionOutput::new("me".to_string(), 3),
        ],
        at(1),
    );
    let second = block_on(&chain, "me", 11, vec![spend], 2);
    chain.add_new_block(second);

    let full = Message::new(
        1,
        Payload::Application { payload: ApplicationPayload::FullChain { chain: chain.get_chain() } },
    );
    assert_eq!(client.receive(full), Ok(()));
    assert_eq!(client.utxo_manager.get_balance(), 14);
    assert_eq!(client.utxo_manager.get_utxos().len(), 2);
    // Anything else leaves the wallet as it is.
    let other = Message::new(
        1,
        Payload::Application { payload: ApplicationPayload::RequestFullChain },
    );
    assert_eq!(client.receive(other), Ok(()));
    assert_eq!(client.receive(Message::new(1, Payload::CoreList { nodes: vec![node(2, 2)] })), Ok(()));
    assert_eq!(client.utxo_manager.get_balance(), 14);
    assert_eq!(client.cm.get_core_nodes(), vec![core, node(2, 2)]);

    assert_eq!(client.receive_bytes(b"no message"), None);
    let bytes = Message::new(1, Payload::CoreList { nodes: vec![node(3, 3)] }).to_bytes();
    assert_eq!(client.receive_bytes(&bytes), Some(Ok(())));
    assert_eq!(client.cm.get_core_nodes(), vec![core, node(2, 2), node(3, 3)]);

    let ask = client.send_msg_to_core(ApplicationPayload::RequestFullChain);
    assert_eq!(ask.to, core);
    let leave = client.shutdown();
    assert_eq!((leave.to, leave.message), (core, Message::new(9000, Payload::RemoveEdge)));
    assert_eq!(client.get_my_current_state(), &ClientCoreState::ShuttingDown);
}

/// A core node with a chain of two blocks that `keys` mined, and a
/// transaction, signed by `keys`, that spends the first coinbase.
fn setting() -> (ServerCore, NormalTransaction, String, Block, Block) {
    let mut keys = KeyManager::new(OsRng).unwrap();
    let mut chain = BlockchainManager::new(1);
    let first = block_on(&chain, &keys.get_address(), 10, vec![], 0);
    chain.add_new_block(first.clone());
    let second = block_on(&chain, "someone", 10, vec![], 1);
    chain.add_new_block(second.clone());
    let tx = NormalTransaction::new(
        vec![TransactionInput::new(first.get_transaction_at(0).unwrap(), 0)],
        vec![TransactionOutput::new("bob".to_string(), 9)],
        at(2),
    );
    let signature = util::bytes_to_hex(&keys.sign(&to_text(&tx.to_json())).unwrap());
    let server = ServerCore::new(node(1, 1000), Some(node(2, 2000)), TransactionPool::new(), chain, keys);
    (server, tx, signature, first, second)
}

fn announce(tx: &NormalTransaction, signature: &str) -> ApplicationPayload {
    ApplicationPayload::NewTransaction { transaction: tx.clone(), signature: signature.to_string() }
}

fn application(port: u16, payload: ApplicationPayload) -> Message {
    Message::new(port, Payload::Application { payload })
}

#[test]
fn a_transaction_joins_the_pool_when_signature_chain_and_pool_allow() {
    let (mut server, tx, signature, _, _) = setting();
    let handler = &mut server.handler;
    assert_eq!(judge_transaction(&handler.chain, &handler.pool, &tx, &signature), Ok(()));

    // The signature of another text, no signature, a signer that is no key.
    let mut other = tx.clone();
    other.outputs[0].value = 8;
    for (tx, signature) in [
        (&other, signature.as_str()),
        (&tx, "00"),
        (&tx, "not hexadecimal"),
        (&tx, ""),
    ] {
        assert_eq!(
            judge_transaction(&handler.chain, &handler.pool, tx, &signature.to_string()),
            Err(TransactionError::SignatureInvalid)
        );
    }
    let unsigned = NormalTransaction::new(vec![], vec![], at(0));
    assert_eq!(
        judge_transaction(&handler.chain, &handler.pool, &unsigned, &signature),
        Err(TransactionError::SignatureInvalid)
    );

    let (a, b) = (node(3, 3), node(4, 4));
    // From an edge: it joins the pool and goes on to the core nodes.
    let reply = handler.handle_application_payload(announce(&tx, &signature), a, vec![a, b], false);
    assert_eq!(reply, Some((announce(&tx, &signature), vec![a, b])));
    assert_eq!(handler.pool.get_transactions(), vec![tx.clone()]);
    // Again: an input of it waits in the pool.
    assert_eq!(
        judge_transaction(&handler.chain, &handler.pool, &tx, &signature),
        Err(TransactionError::AlreadyInPool)
    );
    let reply = handler.handle_application_payload(announce(&tx, &signature), a, vec![a, b], false);
    assert_eq!(reply, None);
    assert_eq!(handler.pool.len(), 1);
    // From a core node: it joins the pool and goes no further.
    handler.pool.clear_transactions();
    let reply = handler.handle_application_payload(announce(&tx, &signature), a, vec![a, b], true);
    assert_eq!(reply, None);
    assert_eq!(handler.pool.get_transactions(), vec![tx.clone()]);
    // A bad signature: dropped.
    handler.pool.clear_transactions();
    let reply = handler.handle_application_payload(announce(&tx, "00"), a, vec![a, b], false);
    assert_eq!(reply, None);
    assert_eq!(handler.pool.len(), 0);
}

#[test]
fn blocks_and_chains_that_come_in_are_taken_or_asked_about() {
    let (mut server, tx, signature, first, second) = setting();
    let peer = node(3, 3000);
    assert_eq!(server.get_my_current_state(), &ServerCoreState::Init);
    server.start();
    assert_eq!(server.get_my_current_state(), &ServerCoreState::Standby);
    let join = server.join_network().unwrap();
    assert_eq!((join.to, join.message), (node(2, 2000), Message::new(1000, Payload::Add)));
    assert_eq!(server.get_my_current_state(), &ServerCoreState::ConnectedToNetwork);

    // The peer joins; then it is a core node.
    let out = server.receive(peer.ip, Message::new(3000, Payload::Add));
    assert_eq!(out.len(), 1);
    assert_eq!(server.cm.get_core_nodes(), vec![node(1, 1000), peer]);

    // A request for the chain is answered with it.
    let out = server.receive(peer.ip, application(3000, ApplicationPayload::RequestFullChain));
    let chain = vec![first.clone(), second.clone()];
    assert_eq!(
        sent(&out),
        vec![(peer, application(1000, ApplicationPayload::FullChain { chain: chain.clone() }))]
    );

    // A block that follows the tip is appended, and the pool loses what the
    // block holds.
    server.handler.pool.add_new_transaction(tx.clone());
    let third = block_on(&server.handler.chain, "someone", 11, vec![tx.clone()], 3);
    let out = server.receive(peer.ip, application(3000, ApplicationPayload::NewBlock { block: third.clone() }));
    assert_eq!(sent(&out), vec![]);
    assert_eq!(server.handler.chain.get_chain(), vec![first.clone(), second.clone(), third.clone()]);
    assert_eq!(server.handler.pool.len(), 0);

    // The same block again does not follow the tip: the sender is asked for
    // its chain.
    let out = server.receive(peer.ip, application(3000, ApplicationPayload::NewBlock { block: third.clone() }));
    assert_eq!(sent(&out), vec![(peer, application(1000, ApplicationPayload::RequestFullChain))]);
    assert_eq!(server.handler.chain.len(), 3);

    // A longer chain from a core node takes the place of the chain; what the
    // blocks left behind lose waits in the pool again.
    let mut fork = BlockchainManager::new(1);
    fork.add_new_block(first.clone());
    fork.add_new_block(second.clone());
    for second in 4..6 {
        let block = block_on(&fork, "other", 10, vec![], second);
        fork.add_new_block(block);
    }
    let longer = ApplicationPayload::FullChain { chain: fork.get_chain() };
    // From a node that is no core node: passed over.
    let out = server.receive(node(8, 8).ip, application(8, longer.clone()));
    assert_eq!(sent(&out), vec![]);
    assert_eq!(server.handler.chain.len(), 3);
    let out = server.receive(peer.ip, application(3000, longer));
    assert_eq!(sent(&out), vec![]);
    assert_eq!(server.handler.chain.get_chain(), fork.get_chain());
    assert_eq!(server.handler.pool.get_transactions(), vec![tx.clone()]);
    // The transaction is announced again: an input of it waits in the pool.
    let out = server.receive(node(8, 8).ip, application(8, announce(&tx, &signature)));
    assert_eq!(sent(&out), vec![]);

    // Bytes that are no message, and a message that is ill formed, are
    // dropped.
    assert!(server.receive_bytes(peer.ip, b"{}").is_none());
    let ill = NormalTransaction::new(
        vec![TransactionInput::new(first.get_transaction_at(0).unwrap(), 1)],
        vec![],
        at(7),
    );
    let bytes = application(3000, announce(&ill, "00")).to_bytes();
    assert!(Message::from_bytes(&bytes).is_some());
    assert!(server.receive_bytes(peer.ip, &bytes).is_none());
    let bytes = Message::new(3000, Payload::RequestCoreList).to_bytes();
    let out = server.receive_bytes(peer.ip, &bytes).unwrap();
    assert_eq!(out.len(), 1);
    assert_eq!(out[0].to, peer);

    let leave = server.shutdown().unwrap();
    assert_eq!((leave.to, leave.message), (node(2, 2000), Message::new(1000, Payload::Remove)));
    assert_eq!(server.get_my_current_state(), &ServerCoreState::ShuttingDown);
}

#[test]
fn coins_are_granted_out_of_a_block_that_the_node_mined() {
    let (mut server, _, _, first, _) = setting();
    let (a, b) = (node(3, 3), node(4, 4));
    let handler: &mut ServerHandler = &mut server.handler;
    assert_eq!(handler.handle_grant_request(vec![0xff], vec![a], at(9)), None);
    let reply = handler.handle_grant_request(b"carol".to_vec(), vec![a, b], at(9)).unwrap();
    let granted = NormalTransaction::new(
        vec![TransactionInput::new(first.get_transaction_at(0).unwrap(), 0)],
        vec![TransactionOutput::new("carol".to_string(), 10)],
        at(9),
    );
    assert_eq!(reply.1, vec![a, b]);
    match reply.0 {
        ApplicationPayload::NewTransaction { transaction, signature } => {
            assert_eq!(transaction, granted);
            assert_eq!(
                judge_transaction(&handler.chain, &TransactionPool::new(), &granted, &signature),
                Ok(())
            );
        }
        other => panic!("{:?}", other),
    }
    assert_eq!(handler.pool.get_transactions(), vec![granted.clone()]);

    // The steps of a grant, one by one.
    assert_eq!(handler.prepare_grant(b"carol".to_vec(), at(9)), Some(granted.clone()));
    assert_eq!(handler.prepare_grant(vec![0xc3], at(9)), None);
    let dave = handler.prepare_grant(b"dave".to_vec(), at(8)).unwrap();
    assert_eq!(dave.get_outputs(), vec![TransactionOutput::new("dave".to_string(), 10)]);
    assert_eq!(
        handler.conclude_grant(dave.clone(), Err(simple_bitcoin::util::CryptoError::SigningFailed), vec![a]),
        None
    );
    assert_eq!(handler.pool.len(), 1);
    let payload = announce(&dave, "00");
    assert_eq!(
        handler.conclude_grant(dave.clone(), Ok(payload.clone()), vec![b, a]),
        Some((payload, vec![b, a]))
    );
    assert_eq!(handler.pool.get_transactions(), vec![granted, dave]);

    // A node that mined no block grants nothing.
    let mut fresh =
        ServerHandler::new(BlockchainManager::new(0), TransactionPool::new(), server.handler.keys);
    assert_eq!(fresh.handle_grant_request(b"carol".to_vec(), vec![a], at(9)), None);
    assert_eq!(fresh.prepare_grant(b"carol".to_vec(), at(9)), None);
    assert_eq!(fresh.pool.len(), 0);
    let genesis = ServerCore::new(a, None, TransactionPool::new(), BlockchainManager::new(0), fresh.keys);
    let mut genesis = genesis;
    assert!(genesis.join_network().is_none());
    assert_eq!(genesis.get_my_current_state(), &ServerCoreState::Init);
    assert!(genesis.shutdown().is_none());
}

#[test]
fn no_node_stands_twice_in_a_list_and_a_node_that_is_dropped_is_gone() {
    let me = node(1, 1000);
    let (a, b, c) = (node(2, 1), node(3, 1), node(4, 1));
    let mut cm = ConnectionManagerInner::new(me);
    assert!(cm.add_peer(a));
    assert!(!cm.add_peer(a));
    cm.merge_core_nodes(&vec![a, b, me, b, c, a]);
    assert_eq!(cm.get_core_nodes(), vec![me, a, b, c]);
    cm.handle_membership(b, &Payload::Add);
    cm.handle_membership(b, &Payload::CoreList { nodes: vec![c, c, b] });
    assert_eq!(cm.get_core_nodes(), vec![me, a, b, c]);
    cm.handle_membership(b, &Payload::Remove);
    assert_eq!(cm.get_core_nodes(), vec![me, a, c]);
    assert!(!cm.get_core_nodes().contains(&b));
    cm.handle_membership(a, &Payload::AddAsEdge);
    cm.handle_membership(a, &Payload::AddAsEdge);
    assert_eq!(cm.get_edge_nodes(), vec![a]);
    cm.handle_membership(a, &Payload::RemoveEdge);
    assert_eq!(cm.get_edge_nodes(), vec![]);
    cm.finish_sweep(&vec![a, a]);
    assert_eq!(cm.get_core_nodes(), vec![me, c]);

    let mut edge = EdgeManager::new(me, a);
    assert!(!edge.add_peer(a));
    edge.handle_message(Message::new(1, Payload::CoreList { nodes: vec![b, a, b, c, c] }));
    assert_eq!(edge.get_core_nodes(), vec![a, b, c]);
    assert_eq!(edge.remove_peer(&b), Ok(true));
    assert_eq!(edge.get_core_nodes(), vec![a, c]);
}

#[test]
fn a_node_that_a_message_did_not_reach_is_dropped() {
    let me = node(1, 1000);
    let (a, b) = (node(2, 1), node(3, 1));
    let mut cm = ConnectionManagerInner::new(me);
    cm.add_peer(a);
    cm.add_peer(b);
    cm.add_edge(a);
    assert!(cm.after_send(&a, true));
    assert_eq!(cm.get_core_nodes(), vec![me, a, b]);
    assert!(!cm.after_send(&a, false));
    assert_eq!(cm.get_core_nodes(), vec![me, b]);
    assert_eq!(cm.get_edge_nodes(), vec![a]);
    assert!(!cm.after_send(&a, false));
    assert!(!cm.after_send(&node(9, 9), false));
    assert_eq!(cm.get_core_nodes(), vec![me, b]);

    let mut edge = EdgeManager::new(me, a);
    edge.add_peer(b);
    assert_eq!(edge.after_send(&a, true), Ok(true));
    assert_eq!(edge.after_send(&b, true), Ok(true));
    assert_eq!(edge.get_core_nodes(), vec![a, b]);
    assert_eq!(edge.after_send(&a, false), Ok(false));
    assert_eq!(edge.get_core_nodes(), vec![b]);
    assert_eq!(edge.get_current_code_node(), b);
    assert_eq!(edge.after_send(&a, false), Ok(false));
    assert_eq!(edge.after_send(&b, false), Err(EdgeError::NoCoreNode));
    assert_eq!(edge.get_core_nodes(), vec![]);
}

#[test]
fn a_payload_of_the_node_goes_to_every_other_core_node() {
    let me = node(1, 1000);
    let (a, b) = (node(2, 1), node(3, 1));
    let mut cm = ConnectionManagerInner::new(me);
    let payload = ApplicationPayload::coin_request("caf\u{e9}");
    assert_eq!(payload, ApplicationPayload::Enhanced { data: vec![0x63, 0x61, 0x66, 0xc3, 0xa9] });
    assert_eq!(sent(&cm.broadcast_application(payload.clone())), vec![]);
    cm.add_peer(a);
    cm.add_peer(b);
    cm.add_edge(node(4, 1));
    let message = Message::new(1000, Payload::Application { payload: payload.clone() });
    assert_eq!(
        sent(&cm.broadcast_application(payload)),
        vec![(a, message.clone()), (b, message.clone())]
    );
}
