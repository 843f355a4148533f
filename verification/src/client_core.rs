//! An edge node: a wallet attached to a core node.

use vstd::prelude::*;
use crate::blockchain::block::block_models;
use crate::blockchain::manager::{
    chain_transactions, lemma_chain_transactions_well_formed, transactions_of_blocks,
};
use crate::blockchain::transaction::{input_values, transaction_models};
use crate::blockchain::utxo::{UTXOManager, WalletError, unspent};
use crate::connection_manager_core::{Outgoing, OutgoingModel, merged};
use crate::connection_manager_edge::ConnectionManagerInner;
use crate::message::{
    ApplicationPayload, ApplicationPayloadModel, Message, PayloadModel, message_from,
};
use crate::node_addr::NodeAddr;
use crate::sums::sum;
use crate::wire::message_of_text;

verus! {

/// How far an edge node has come between starting and shutting down.
#[derive(Clone, Copy, Debug, PartialEq, Eq, Structural)]
pub enum ClientCoreState {
    Init,
    Active,
    ShuttingDown,
}

/// Takes an application payload at an edge: a chain has the wallet work
/// out its unspent outputs anew; anything else is passed over.
pub fn handle_application_payload(utxo_manager: &mut UTXOManager, payload: ApplicationPayload) -> (r:
    Result<(), WalletError>)
    requires
        payload@.well_formed(),
    ensures
        final(utxo_manager).address() == old(utxo_manager).address(),
        match payload@ {
            ApplicationPayloadModel::FullChain { chain } => {
                let found = unspent(chain_transactions(chain), old(utxo_manager).address());
                if sum(input_values(found)) <= u64::MAX {
                    &&& r is Ok
                    &&& final(utxo_manager).utxos() == found
                    &&& final(utxo_manager).balance() == sum(input_values(found))
                    &&& final(utxo_manager).well_formed()
                } else {
                    &&& r == Err::<(), WalletError>(WalletError::BalanceOverflow)
                    &&& final(utxo_manager).utxos() == old(utxo_manager).utxos()
                    &&& final(utxo_manager).balance() == old(utxo_manager).balance()
                }
            },
            _ => {
                &&& r is Ok
                &&& final(utxo_manager).utxos() == old(utxo_manager).utxos()
                &&& final(utxo_manager).balance() == old(utxo_manager).balance()
            },
        },
{
    match payload {
        ApplicationPayload::FullChain { chain } => {
            let txs = transactions_of_blocks(&chain);
            proof {
                let models = block_models(chain@);
                lemma_chain_transactions_well_formed(models, models.len() as int);
                assert forall|i: int| 0 <= i < txs.len() implies (
                #[trigger] txs@[i]@).well_formed() by {
                    assert(transaction_models(txs@)[i] == txs@[i]@);
                }
            }
            utxo_manager.refresh_utxos(&txs)
        },
        _ => Ok(()),
    }
}

/// An edge node: its place in the overlay, its wallet, and how far it has
/// come between starting and shutting down.
pub struct ClientCore {
    pub state: ClientCoreState,
    pub cm: ConnectionManagerInner,
    pub utxo_manager: UTXOManager,
}

impl ClientCore {
    pub fn new(my_addr: NodeAddr, core_node_addr: NodeAddr, utxo_manager: UTXOManager) -> (r:
        ClientCore)
        ensures
            r.state == ClientCoreState::Init,
            r.cm.my_addr() == my_addr,
            r.cm.current_core_node() == core_node_addr,
            r.cm.core_nodes() == seq![core_node_addr],
            r.cm.well_formed(),
            r.utxo_manager == utxo_manager,
    {
        ClientCore {
            state: ClientCoreState::Init,
            cm: ConnectionManagerInner::new(my_addr, core_node_addr),
            utxo_manager,
        }
    }

    /// The node begins to listen and asks its core node to attach it.
    pub fn start(&mut self) -> (r: Outgoing)
        ensures
            final(self).state == ClientCoreState::Active,
            final(self).cm == old(self).cm,
            final(self).utxo_manager == old(self).utxo_manager,
            r@ == (OutgoingModel {
                to: old(self).cm.current_core_node(),
                message: message_from(old(self).cm.my_addr().port, PayloadModel::AddAsEdge),
            }),
    {
        self.state = ClientCoreState::Active;
        self.cm.join_request()
    }

    /// The node leaves and tells its core node.
    pub fn shutdown(&mut self) -> (r: Outgoing)
        ensures
            final(self).state == ClientCoreState::ShuttingDown,
            final(self).cm == old(self).cm,
            final(self).utxo_manager == old(self).utxo_manager,
            r@ == (OutgoingModel {
                to: old(self).cm.current_core_node(),
                message: message_from(old(self).cm.my_addr().port, PayloadModel::RemoveEdge),
            }),
    {
        self.state = ClientCoreState::ShuttingDown;
        self.cm.leave_notice()
    }

    pub fn get_my_current_state(&self) -> (r: &ClientCoreState)
        ensures
            *r == self.state,
    {
        &self.state
    }

    /// An application payload, for the core node.
    pub fn send_msg_to_core(&self, payload: ApplicationPayload) -> (r: Outgoing)
        ensures
            r@ == (OutgoingModel {
                to: self.cm.current_core_node(),
                message: message_from(
                    self.cm.my_addr().port,
                    PayloadModel::Application { payload: payload@ },
                ),
            }),
    {
        self.cm.send_message_to_my_core_node(payload)
    }

    /// Takes the bytes that came in. Where they are a well-formed message,
    /// the message is taken; anything else is dropped, and nothing is
    /// changed.
    pub fn receive_bytes(&mut self, bytes: &[u8]) -> (r: Option<Result<(), WalletError>>)
        ensures
            final(self).state == old(self).state,
            final(self).cm.my_addr() == old(self).cm.my_addr(),
            final(self).cm.current_core_node() == old(self).cm.current_core_node(),
            final(self).cm.well_formed(),
            final(self).utxo_manager.address() == old(self).utxo_manager.address(),
            r is Some <==> (message_of_text(bytes@) matches Some(m) && m.well_formed()),
            r is None ==> *final(self) == *old(self),
            r matches Some(taken) ==> {
                let message = message_of_text(bytes@)->0;
                &&& final(self).cm.core_nodes() == (match message.payload {
                    PayloadModel::CoreList { nodes } => merged(old(self).cm.core_nodes(), nodes),
                    _ => old(self).cm.core_nodes(),
                })
                &&& match message.payload {
                    PayloadModel::Application {
                        payload: ApplicationPayloadModel::FullChain { chain },
                    } => {
                        let found = unspent(
                            chain_transactions(chain),
                            old(self).utxo_manager.address(),
                        );
                        if sum(input_values(found)) <= u64::MAX {
                            &&& taken is Ok
                            &&& final(self).utxo_manager.utxos() == found
                            &&& final(self).utxo_manager.balance() == sum(input_values(found))
                        } else {
                            &&& taken == Err::<(), WalletError>(WalletError::BalanceOverflow)
                            &&& final(self).utxo_manager.utxos() == old(self).utxo_manager.utxos()
                            &&& final(self).utxo_manager.balance() == old(
                                self,
                            ).utxo_manager.balance()
                        }
                    },
                    _ => {
                        &&& taken is Ok
                        &&& final(self).utxo_manager.utxos() == old(self).utxo_manager.utxos()
                        &&& final(self).utxo_manager.balance() == old(self).utxo_manager.balance()
                    },
                }
            },
    {
        proof {
            use_type_invariant(&self.cm);
        }
        match Message::from_bytes(bytes) {
            Some(message) => if message.is_well_formed() {
                Some(self.receive(message))
            } else {
                None
            },
            None => None,
        }
    }

    /// Takes a message that came in: a list of core nodes goes to the
    /// overlay, a chain to the wallet.
    pub fn receive(&mut self, message: Message) -> (r: Result<(), WalletError>)
        requires
            message@.well_formed(),
        ensures
            final(self).state == old(self).state,
            final(self).cm.my_addr() == old(self).cm.my_addr(),
            final(self).cm.current_core_node() == old(self).cm.current_core_node(),
            final(self).cm.core_nodes() == (match message@.payload {
                PayloadModel::CoreList { nodes } => merged(old(self).cm.core_nodes(), nodes),
                _ => old(self).cm.core_nodes(),
            }),
            final(self).cm.well_formed(),
            final(self).utxo_manager.address() == old(self).utxo_manager.address(),
            match message@.payload {
                PayloadModel::Application {
                    payload: ApplicationPayloadModel::FullChain { chain },
                } => {
                    let found = unspent(
                        chain_transactions(chain),
                        old(self).utxo_manager.address(),
                    );
                    if sum(input_values(found)) <= u64::MAX {
                        &&& r is Ok
                        &&& final(self).utxo_manager.utxos() == found
                        &&& final(self).utxo_manager.balance() == sum(input_values(found))
                    } else {
                        &&& r == Err::<(), WalletError>(WalletError::BalanceOverflow)
                        &&& final(self).utxo_manager.utxos() == old(self).utxo_manager.utxos()
                        &&& final(self).utxo_manager.balance() == old(
                            self,
                        ).utxo_manager.balance()
                    }
                },
                _ => {
                    &&& r is Ok
                    &&& final(self).utxo_manager.utxos() == old(self).utxo_manager.utxos()
                    &&& final(self).utxo_manager.balance() == old(self).utxo_manager.balance()
                },
            },
    {
        match self.cm.handle_message(message) {
            Some(payload) => handle_application_payload(&mut self.utxo_manager, payload),
            None => Ok(()),
        }
    }
}

} // verus!
