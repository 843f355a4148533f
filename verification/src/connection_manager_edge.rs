//! Membership of the overlay, as an edge node keeps it: the core node it is
//! attached to, and the core nodes it could attach to instead.

use vstd::prelude::*;
use crate::connection_manager_core::{
    Outgoing, OutgoingModel, lemma_merged_distinct, lemma_with_node_distinct, merged, merged_upto,
    with_node,
};
use crate::message::{ApplicationPayload, Message, Payload, PayloadModel, message_from};
use crate::node_addr::NodeAddr;
use crate::structure::{
    lemma_without_first_distinct, list_contains, list_duplicate, list_index_of, views,
    without_first,
};

verus! {

/// Why an edge node cannot go on.
#[derive(Clone, Copy, Debug, PartialEq, Eq, Structural)]
pub enum EdgeError {
    /// The core node was lost and no other is known.
    NoCoreNode,
}

/// What an edge node knows of the overlay.
pub struct ConnectionManagerInner {
    my_addr: NodeAddr,
    current_core_node: NodeAddr,
    core_node_set: Vec<NodeAddr>,
}

/// The core node that an edge is attached to once `peer` has been dropped
/// from the nodes it knew: the one it had, unless that is the one dropped
/// and another is known, which is then the first of those left.
pub open spec fn core_after_loss(current: NodeAddr, known: Seq<NodeAddr>, peer: NodeAddr) -> NodeAddr {
    if current == peer && without_first(known, peer).len() > 0 {
        without_first(known, peer)[0]
    } else {
        current
    }
}

impl ConnectionManagerInner {
    /// The address at which this edge listens.
    pub closed spec fn my_addr(&self) -> NodeAddr {
        self.my_addr
    }

    /// The core node that this edge is attached to.
    pub closed spec fn current_core_node(&self) -> NodeAddr {
        self.current_core_node
    }

    /// The core nodes that this edge knows.
    pub closed spec fn core_nodes(&self) -> Seq<NodeAddr> {
        self.core_node_set@
    }

    /// No node stands twice among the core nodes. This holds of every
    /// value of the type.
    #[verifier::type_invariant]
    pub open spec fn well_formed(&self) -> bool {
        self.core_nodes().no_duplicates()
    }

    /// An edge at `my_addr`, attached to the core node at `core_node_addr`.
    pub fn new(my_addr: NodeAddr, core_node_addr: NodeAddr) -> (r: ConnectionManagerInner)
        ensures
            r.my_addr() == my_addr,
            r.current_core_node() == core_node_addr,
            r.core_nodes() == seq![core_node_addr],
            r.well_formed(),
    {
        let mut known: Vec<NodeAddr> = Vec::new();
        known.push(core_node_addr);
        let r = ConnectionManagerInner {
            my_addr,
            current_core_node: core_node_addr,
            core_node_set: known,
        };
        proof {
            assert(r.core_nodes() =~= seq![core_node_addr]);
        }
        r
    }

    /// Takes `peer` among the core nodes. Says whether it was new.
    pub fn add_peer(&mut self, peer: NodeAddr) -> (added: bool)
        ensures
            added == !old(self).core_nodes().contains(peer),
            final(self).core_nodes() == with_node(old(self).core_nodes(), peer),
            final(self).core_nodes().contains(peer),
            final(self).current_core_node() == old(self).current_core_node(),
            final(self).my_addr() == old(self).my_addr(),
            final(self).well_formed(),
    {
        proof {
            use_type_invariant(&*self);
            assert(views(self.core_node_set@) =~= self.core_node_set@);
            lemma_with_node_distinct(self.core_node_set@, peer);
            assert(with_node(self.core_node_set@, peer).contains(peer));
        }
        if list_contains(&self.core_node_set, &peer) {
            false
        } else {
            let mut nodes: Vec<NodeAddr> = Vec::new();
            std::mem::swap(&mut nodes, &mut self.core_node_set);
            nodes.push(peer);
            self.core_node_set = nodes;
            true
        }
    }

    /// Drops `peer` from the core nodes. Where that is the node this edge
    /// is attached to, the edge attaches to the first of those left; where
    /// none is left, it has no core node to go on with.
    pub fn remove_peer(&mut self, peer: &NodeAddr) -> (r: Result<bool, EdgeError>)
        ensures
            final(self).my_addr() == old(self).my_addr(),
            final(self).core_nodes() == without_first(old(self).core_nodes(), *peer),
            !final(self).core_nodes().contains(*peer),
            final(self).current_core_node() == core_after_loss(
                old(self).current_core_node(),
                old(self).core_nodes(),
                *peer,
            ),
            r == (if old(self).current_core_node() == *peer && final(self).core_nodes().len()
                == 0 {
                Err(EdgeError::NoCoreNode)
            } else {
                Ok(old(self).core_nodes().contains(*peer))
            }),
            final(self).well_formed(),
    {
        proof {
            use_type_invariant(&*self);
            assert(views(self.core_node_set@) =~= self.core_node_set@);
            lemma_without_first_distinct(self.core_node_set@, *peer);
        }
        let removed = match list_index_of(&self.core_node_set, peer) {
            Some(at) => {
                proof {
                    assert(self.core_node_set@[at as int] == *peer);
                }
                let mut nodes: Vec<NodeAddr> = Vec::new();
                std::mem::swap(&mut nodes, &mut self.core_node_set);
                nodes.remove(at);
                self.core_node_set = nodes;
                true
            },
            None => false,
        };
        if self.current_core_node.ip == peer.ip && self.current_core_node.port == peer.port {
            if self.core_node_set.len() == 0 {
                return Err(EdgeError::NoCoreNode);
            }
            self.current_core_node = self.core_node_set[0];
        }
        Ok(removed)
    }

    pub fn get_my_addr(&self) -> (r: NodeAddr)
        ensures
            r == self.my_addr(),
    {
        self.my_addr
    }

    /// The core node that this edge is attached to.
    pub fn get_current_code_node(&self) -> (r: NodeAddr)
        ensures
            r == self.current_core_node(),
    {
        self.current_core_node
    }

    pub fn get_core_nodes(&self) -> (r: Vec<NodeAddr>)
        ensures
            r@ == self.core_nodes(),
            r@.no_duplicates(),
    {
        let r = list_duplicate(&self.core_node_set);
        proof {
            use_type_invariant(self);
            assert(views(r@) =~= r@);
            assert(views(self.core_node_set@) =~= self.core_node_set@);
        }
        r
    }

    /// Takes what came in. A list of core nodes is merged into those known.
    /// An application payload is handed out, for the application to take.
    /// Anything else is passed over.
    pub fn handle_message(&mut self, message: Message) -> (r: Option<ApplicationPayload>)
        ensures
            final(self).my_addr() == old(self).my_addr(),
            final(self).current_core_node() == old(self).current_core_node(),
            final(self).core_nodes() == (match message@.payload {
                PayloadModel::CoreList { nodes } => merged(old(self).core_nodes(), nodes),
                _ => old(self).core_nodes(),
            }),
            message@.payload matches PayloadModel::CoreList { nodes } ==> forall|other: NodeAddr| #[trigger]
                final(self).core_nodes().contains(other) == (old(self).core_nodes().contains(other)
                    || nodes.contains(other)),
            match message@.payload {
                PayloadModel::Application { payload } => r matches Some(p) && p@ == payload,
                _ => r is None,
            },
            final(self).well_formed(),
    {
        proof {
            use_type_invariant(&*self);
            if let PayloadModel::CoreList { nodes } = message@.payload {
                lemma_merged_distinct(self.core_nodes(), nodes);
            }
        }
        match message.payload {
            Payload::CoreList { nodes } => {
                let mut i: usize = 0;
                while i < nodes.len()
                    invariant
                        i <= nodes.len(),
                        self.core_nodes() == merged_upto(old(self).core_nodes(), nodes@, i as int),
                        self.current_core_node() == old(self).current_core_node(),
                        self.my_addr() == old(self).my_addr(),
                        self.well_formed(),
                    decreases nodes.len() - i,
                {
                    self.add_peer(nodes[i]);
                    i += 1;
                }
                None
            },
            Payload::Application { payload } => Some(payload),
            _ => None,
        }
    }

    fn to_core(&self, payload: Payload) -> (r: Outgoing)
        ensures
            r@ == (OutgoingModel {
                to: self.current_core_node(),
                message: message_from(self.my_addr().port, payload@),
            }),
    {
        Outgoing { to: self.current_core_node, message: Message::new(self.my_addr.port, payload) }
    }

    /// The request to attach to the core node.
    pub fn join_request(&self) -> (r: Outgoing)
        ensures
            r@ == (OutgoingModel {
                to: self.current_core_node(),
                message: message_from(self.my_addr().port, PayloadModel::AddAsEdge),
            }),
    {
        self.to_core(Payload::AddAsEdge)
    }

    /// The notice of leaving, for the core node.
    pub fn leave_notice(&self) -> (r: Outgoing)
        ensures
            r@ == (OutgoingModel {
                to: self.current_core_node(),
                message: message_from(self.my_addr().port, PayloadModel::RemoveEdge),
            }),
    {
        self.to_core(Payload::RemoveEdge)
    }

    /// The ping of a sweep, for the core node.
    pub fn ping(&self) -> (r: Outgoing)
        ensures
            r@ == (OutgoingModel {
                to: self.current_core_node(),
                message: message_from(self.my_addr().port, PayloadModel::Ping),
            }),
    {
        self.to_core(Payload::Ping)
    }

    /// An application payload, for the core node.
    pub fn send_message_to_my_core_node(&self, payload: ApplicationPayload) -> (r: Outgoing)
        ensures
            r@ == (OutgoingModel {
                to: self.current_core_node(),
                message: message_from(
                    self.my_addr().port,
                    PayloadModel::Application { payload: payload@ },
                ),
            }),
    {
        self.to_core(Payload::Application { payload })
    }

    /// Takes note of how the sending of a message to `to` went: a core
    /// node that could not be reached is dropped, as `remove_peer` drops
    /// it. Says whether the message was sent, or that no core node is left.
    pub fn after_send(&mut self, to: &NodeAddr, delivered: bool) -> (r: Result<bool, EdgeError>)
        ensures
            final(self).my_addr() == old(self).my_addr(),
            final(self).core_nodes() == (if delivered {
                old(self).core_nodes()
            } else {
                without_first(old(self).core_nodes(), *to)
            }),
            !delivered ==> !final(self).core_nodes().contains(*to),
            final(self).current_core_node() == (if delivered {
                old(self).current_core_node()
            } else {
                core_after_loss(old(self).current_core_node(), old(self).core_nodes(), *to)
            }),
            r == (if !delivered && old(self).current_core_node() == *to
                && final(self).core_nodes().len() == 0 {
                Err(EdgeError::NoCoreNode)
            } else {
                Ok(delivered)
            }),
            final(self).well_formed(),
    {
        proof {
            use_type_invariant(&*self);
        }
        if delivered {
            return Ok(true);
        }
        match self.remove_peer(to) {
            Ok(_) => Ok(false),
            Err(e) => Err(e),
        }
    }

    /// What follows a ping that did not reach `pinged`: the node is
    /// dropped, and the edge asks to attach to the core node it now has.
    pub fn after_failed_ping(&mut self, pinged: NodeAddr) -> (r: Result<Outgoing, EdgeError>)
        ensures
            final(self).my_addr() == old(self).my_addr(),
            final(self).core_nodes() == without_first(old(self).core_nodes(), pinged),
            !final(self).core_nodes().contains(pinged),
            final(self).well_formed(),
            final(self).current_core_node() == core_after_loss(
                old(self).current_core_node(),
                old(self).core_nodes(),
                pinged,
            ),
            r is Err <==> old(self).current_core_node() == pinged && final(self).core_nodes().len()
                == 0,
            match r {
                Ok(out) => out@ == (OutgoingModel {
                    to: final(self).current_core_node(),
                    message: message_from(old(self).my_addr().port, PayloadModel::AddAsEdge),
                }),
                Err(e) => e == EdgeError::NoCoreNode,
            },
    {
        match self.remove_peer(&pinged) {
            Ok(_) => Ok(self.join_request()),
            Err(e) => Err(e),
        }
    }
}

} // verus!
