//! Membership of the overlay, as a core node keeps it: the core nodes it
//! knows, itself among them, and the edge nodes attached to it. A message
//! that comes in changes the two lists and asks for messages to be sent;
//! sending them is left to the caller, who reports the sends that failed.

use vstd::prelude::*;
use crate::message::{
    ApplicationPayload, ApplicationPayloadModel, Message, MessageModel, Payload, PayloadModel,
    message_from,
};
use crate::node_addr::NodeAddr;
use crate::structure::{
    Structure, lemma_filter_agrees, lemma_filter_holds, lemma_filter_keeps_distinct,
    lemma_without_first_distinct, list_contains, list_duplicate, list_index_of, list_without,
    not_among, other_than, views, without_first,
};

verus! {

/// A message and the node to send it to.
#[derive(Debug)]
pub struct Outgoing {
    pub to: NodeAddr,
    pub message: Message,
}

/// A message and the node to send it to, as mathematics.
pub struct OutgoingModel {
    pub to: NodeAddr,
    pub message: MessageModel,
}

impl View for Outgoing {
    type V = OutgoingModel;

    open spec fn view(&self) -> OutgoingModel {
        OutgoingModel { to: self.to, message: self.message@ }
    }
}

/// What stands above the overlay and answers application payloads.
pub trait ApplicationPayloadHandler: Sized {
    /// Whether the handler is in a state in which it takes payloads.
    spec fn ready(&self) -> bool;

    /// Whether a handler that was `before` may, on `payload` from `peer`,
    /// answer `reply` and be `after`.
    spec fn answers(
        before: Self,
        payload: ApplicationPayloadModel,
        peer: NodeAddr,
        core_nodes: Seq<NodeAddr>,
        is_core: bool,
        reply: Option<(ApplicationPayloadModel, Seq<NodeAddr>)>,
        after: Self,
    ) -> bool;

    /// Takes a payload from `peer`, with the core nodes known other than
    /// this node and whether `peer` is one of them. Hands back, if anything
    /// is to be sent, a payload and the nodes to send it to.
    fn handle(
        &mut self,
        payload: ApplicationPayload,
        peer: NodeAddr,
        core_nodes: Vec<NodeAddr>,
        is_core: bool,
    ) -> (r: Option<(ApplicationPayload, Vec<NodeAddr>)>)
        requires
            old(self).ready(),
            payload@.well_formed(),
        ensures
            final(self).ready(),
            r matches Some(reply) ==> reply.0@.well_formed(),
            Self::answers(
                *old(self),
                payload@,
                peer,
                core_nodes@,
                is_core,
                reply_model(r),
                *final(self),
            ),
    ;
}

/// The nodes with `peer` added at the end, unless it is among them.
pub open spec fn with_node(nodes: Seq<NodeAddr>, peer: NodeAddr) -> Seq<NodeAddr> {
    if nodes.contains(peer) {
        nodes
    } else {
        nodes.push(peer)
    }
}

/// The nodes with the first `k` of `more` added, each unless it is there.
pub open spec fn merged_upto(nodes: Seq<NodeAddr>, more: Seq<NodeAddr>, k: int) -> Seq<NodeAddr>
    decreases k,
{
    if k <= 0 {
        nodes
    } else {
        with_node(merged_upto(nodes, more, k - 1), more[k - 1])
    }
}

/// The nodes with those of `more` added, each unless it is there.
pub open spec fn merged(nodes: Seq<NodeAddr>, more: Seq<NodeAddr>) -> Seq<NodeAddr> {
    merged_upto(nodes, more, more.len() as int)
}

/// The nodes other than `me`, in their order.
pub open spec fn others(nodes: Seq<NodeAddr>, me: NodeAddr) -> Seq<NodeAddr> {
    nodes.filter(other_than(me))
}

/// The nodes that are not among `gone`, in their order.
pub open spec fn without_all(nodes: Seq<NodeAddr>, gone: Seq<NodeAddr>) -> Seq<NodeAddr> {
    nodes.filter(not_among(gone))
}

/// A list in which nothing stands twice stays so when a node is added to
/// it, and then holds that node beside those it held.
pub proof fn lemma_with_node_distinct(nodes: Seq<NodeAddr>, peer: NodeAddr)
    requires
        nodes.no_duplicates(),
    ensures
        with_node(nodes, peer).no_duplicates(),
        forall|other: NodeAddr| #[trigger]
            with_node(nodes, peer).contains(other) == (nodes.contains(other) || other == peer),
{
    let next = with_node(nodes, peer);
    if !nodes.contains(peer) {
        assert(next[nodes.len() as int] == peer);
        assert forall|i: int, j: int| 0 <= i < next.len() && 0 <= j < next.len() && i != j implies next[i]
            != next[j] by {
            if i < nodes.len() {
                assert(nodes.contains(nodes[i]));
            }
            if j < nodes.len() {
                assert(nodes.contains(nodes[j]));
            }
        }
    }
    assert forall|other: NodeAddr| #[trigger]
        next.contains(other) == (nodes.contains(other) || other == peer) by {
        if next.contains(other) && !nodes.contains(peer) {
            let i = choose|i: int| 0 <= i < next.len() && next[i] == other;
            if i < nodes.len() {
                assert(nodes[i] == other);
            }
        }
        if nodes.contains(other) {
            let i = choose|i: int| 0 <= i < nodes.len() && nodes[i] == other;
            assert(next[i] == other);
        }
    }
}

/// A list in which nothing stands twice stays so when the first `k` nodes
/// of another are merged into it, and then holds those beside its own.
pub proof fn lemma_merged_upto_distinct(nodes: Seq<NodeAddr>, more: Seq<NodeAddr>, k: int)
    requires
        nodes.no_duplicates(),
        0 <= k <= more.len(),
    ensures
        merged_upto(nodes, more, k).no_duplicates(),
        forall|other: NodeAddr| #[trigger]
            merged_upto(nodes, more, k).contains(other) == (nodes.contains(other) || more.take(
                k,
            ).contains(other)),
    decreases k,
{
    if k > 0 {
        lemma_merged_upto_distinct(nodes, more, k - 1);
        let before = merged_upto(nodes, more, k - 1);
        lemma_with_node_distinct(before, more[k - 1]);
        assert forall|other: NodeAddr| #[trigger]
            merged_upto(nodes, more, k).contains(other) == (nodes.contains(other) || more.take(
                k,
            ).contains(other)) by {
            assert(with_node(before, more[k - 1]).contains(other) == (before.contains(other)
                || other == more[k - 1]));
            assert(before.contains(other) == (nodes.contains(other) || more.take(k - 1).contains(
                other,
            )));
            let head = more.take(k - 1);
            let upto = more.take(k);
            if head.contains(other) {
                let i = choose|i: int| 0 <= i < head.len() && head[i] == other;
                assert(upto[i] == other);
            }
            if other == more[k - 1] {
                assert(upto[k - 1] == other);
            }
            if upto.contains(other) {
                let i = choose|i: int| 0 <= i < upto.len() && upto[i] == other;
                if i < k - 1 {
                    assert(head[i] == other);
                }
            }
        }
    } else {
        assert(more.take(0).len() == 0);
    }
}

/// A list in which nothing stands twice stays so when another is merged
/// into it, and then holds the nodes of both.
pub proof fn lemma_merged_distinct(nodes: Seq<NodeAddr>, more: Seq<NodeAddr>)
    requires
        nodes.no_duplicates(),
    ensures
        merged(nodes, more).no_duplicates(),
        forall|other: NodeAddr| #[trigger]
            merged(nodes, more).contains(other) == (nodes.contains(other) || more.contains(other)),
{
    lemma_merged_upto_distinct(nodes, more, more.len() as int);
    assert(more.take(more.len() as int) =~= more);
}

/// One message for each of `to`, in their order.
pub open spec fn to_each(to: Seq<NodeAddr>, message: MessageModel) -> Seq<OutgoingModel> {
    Seq::new(to.len(), |i: int| OutgoingModel { to: to[i], message })
}

/// The list of the core nodes, for every core node but `me`.
pub open spec fn core_list_broadcast(core: Seq<NodeAddr>, me: NodeAddr) -> Seq<OutgoingModel> {
    to_each(others(core, me), message_from(me.port, PayloadModel::CoreList { nodes: core }))
}

/// What a node that knows `core` and `edges` holds after a membership
/// payload from `peer`, and what it sends.
pub struct Step {
    pub core: Seq<NodeAddr>,
    pub edges: Seq<NodeAddr>,
    pub send: Seq<OutgoingModel>,
}

/// The effect of a membership payload: `Add` and `Remove` change the core
/// nodes and, where they did, tell every other core node the new list; a
/// list of core nodes is merged in; a request for the list and an edge that
/// attaches are answered with the list; an edge that detaches is dropped.
pub open spec fn membership_step(
    core: Seq<NodeAddr>,
    edges: Seq<NodeAddr>,
    me: NodeAddr,
    peer: NodeAddr,
    payload: PayloadModel,
) -> Step {
    match payload {
        PayloadModel::Add => {
            let next = with_node(core, peer);
            Step {
                core: next,
                edges,
                send: if core.contains(peer) {
                    Seq::empty()
                } else {
                    core_list_broadcast(next, me)
                },
            }
        },
        PayloadModel::Remove => {
            let next = without_first(core, peer);
            Step {
                core: next,
                edges,
                send: if core.contains(peer) {
                    core_list_broadcast(next, me)
                } else {
                    Seq::empty()
                },
            }
        },
        PayloadModel::CoreList { nodes } => Step {
            core: merged(core, nodes),
            edges,
            send: Seq::empty(),
        },
        PayloadModel::RequestCoreList => Step {
            core,
            edges,
            send: seq![
                OutgoingModel {
                    to: peer,
                    message: message_from(me.port, PayloadModel::CoreList { nodes: core }),
                },
            ],
        },
        PayloadModel::AddAsEdge => Step {
            core,
            edges: with_node(edges, peer),
            send: seq![
                OutgoingModel {
                    to: peer,
                    message: message_from(me.port, PayloadModel::CoreList { nodes: core }),
                },
            ],
        },
        PayloadModel::RemoveEdge => Step {
            core,
            edges: without_first(edges, peer),
            send: Seq::empty(),
        },
        _ => Step { core, edges, send: Seq::empty() },
    }
}

/// Whatever a membership payload has a node send is a list of core nodes.
pub proof fn lemma_membership_sends_core_lists(
    core: Seq<NodeAddr>,
    edges: Seq<NodeAddr>,
    me: NodeAddr,
    peer: NodeAddr,
    payload: PayloadModel,
)
    ensures
        forall|i: int|
            0 <= i < membership_step(core, edges, me, peer, payload).send.len() ==> (
            #[trigger] membership_step(core, edges, me, peer, payload).send[i]).message.payload
                is CoreList,
{
}

/// Where no node stands twice among the core nodes, nor among the edge
/// nodes, a membership payload leaves it so. After `Add` the peer is a core
/// node and after `Remove` it is none; after `AddAsEdge` it is an edge node
/// and after `RemoveEdge` it is none; after a list of core nodes the nodes
/// of the list are core nodes beside those that were.
pub proof fn lemma_membership_keeps_distinct(
    core: Seq<NodeAddr>,
    edges: Seq<NodeAddr>,
    me: NodeAddr,
    peer: NodeAddr,
    payload: PayloadModel,
)
    requires
        core.no_duplicates(),
        edges.no_duplicates(),
    ensures
        membership_step(core, edges, me, peer, payload).core.no_duplicates(),
        membership_step(core, edges, me, peer, payload).edges.no_duplicates(),
        payload is Add ==> membership_step(core, edges, me, peer, payload).core.contains(peer),
        payload is Remove ==> !membership_step(core, edges, me, peer, payload).core.contains(peer),
        payload is AddAsEdge ==> membership_step(core, edges, me, peer, payload).edges.contains(
            peer,
        ),
        payload is RemoveEdge ==> !membership_step(core, edges, me, peer, payload).edges.contains(
            peer,
        ),
        payload matches PayloadModel::CoreList { nodes } ==> forall|other: NodeAddr| #[trigger]
            membership_step(core, edges, me, peer, payload).core.contains(other) == (core.contains(
                other,
            ) || nodes.contains(other)),
{
    match payload {
        PayloadModel::Add => {
            lemma_with_node_distinct(core, peer);
            assert(with_node(core, peer).contains(peer));
        },
        PayloadModel::Remove => {
            lemma_without_first_distinct(core, peer);
        },
        PayloadModel::CoreList { nodes } => {
            lemma_merged_distinct(core, nodes);
        },
        PayloadModel::AddAsEdge => {
            lemma_with_node_distinct(edges, peer);
            assert(with_node(edges, peer).contains(peer));
        },
        PayloadModel::RemoveEdge => {
            lemma_without_first_distinct(edges, peer);
        },
        _ => {},
    }
}

/// What is sent for the answer of the application: nothing where it gave
/// none, else its payload to each node that it named.
pub open spec fn application_replies(
    port: u16,
    reply: Option<(ApplicationPayloadModel, Seq<NodeAddr>)>,
) -> Seq<OutgoingModel> {
    match reply {
        None => Seq::empty(),
        Some((payload, to)) => to_each(
            to,
            message_from(port, PayloadModel::Application { payload }),
        ),
    }
}

/// What a core node knows of the overlay.
pub struct ConnectionManagerInner {
    addr: NodeAddr,
    core_node_set: Vec<NodeAddr>,
    edge_node_set: Vec<NodeAddr>,
}

fn add_node(nodes: &mut Vec<NodeAddr>, peer: NodeAddr) -> (added: bool)
    requires
        old(nodes)@.no_duplicates(),
    ensures
        added == !old(nodes)@.contains(peer),
        final(nodes)@ == with_node(old(nodes)@, peer),
        final(nodes)@.no_duplicates(),
        final(nodes)@.contains(peer),
{
    proof {
        assert(views(nodes@) =~= nodes@);
        lemma_with_node_distinct(nodes@, peer);
        assert(with_node(nodes@, peer).contains(peer));
    }
    if list_contains(nodes, &peer) {
        false
    } else {
        nodes.push(peer);
        true
    }
}

fn remove_node(nodes: &mut Vec<NodeAddr>, peer: &NodeAddr) -> (removed: bool)
    requires
        old(nodes)@.no_duplicates(),
    ensures
        removed == old(nodes)@.contains(*peer),
        final(nodes)@ == without_first(old(nodes)@, *peer),
        final(nodes)@.no_duplicates(),
        !final(nodes)@.contains(*peer),
{
    proof {
        assert(views(nodes@) =~= nodes@);
        lemma_without_first_distinct(nodes@, *peer);
    }
    match list_index_of(nodes, peer) {
        Some(at) => {
            proof {
                assert(nodes@[at as int] == *peer);
            }
            nodes.remove(at);
            true
        },
        None => false,
    }
}

/// One message for each of `to`, in their order.
pub fn send_to_each(to: &Vec<NodeAddr>, message: &Message) -> (r: Vec<Outgoing>)
    ensures
        views(r@) == to_each(to@, message@),
{
    let mut out: Vec<Outgoing> = Vec::new();
    let mut i: usize = 0;
    while i < to.len()
        invariant
            i <= to.len(),
            out.len() == i,
            forall|k: int|
                0 <= k < i ==> out@[k]@ == (OutgoingModel { to: to@[k], message: message@ }),
        decreases to.len() - i,
    {
        out.push(Outgoing { to: to[i], message: message.duplicate() });
        i += 1;
    }
    proof {
        assert(views(out@) =~= to_each(to@, message@));
    }
    out
}

/// The answer of the application as mathematics.
pub open spec fn reply_model(reply: Option<(ApplicationPayload, Vec<NodeAddr>)>) -> Option<
    (ApplicationPayloadModel, Seq<NodeAddr>),
> {
    match reply {
        Some(pair) => Some((pair.0@, pair.1@)),
        None => None,
    }
}

/// What is sent for the answer of the application.
pub fn replies_of_application(port: u16, reply: Option<(ApplicationPayload, Vec<NodeAddr>)>) -> (r:
    Vec<Outgoing>)
    ensures
        views(r@) == application_replies(port, reply_model(reply)),
{
    match reply {
        None => {
            let r: Vec<Outgoing> = Vec::new();
            proof {
                assert(views(r@) =~= Seq::<OutgoingModel>::empty());
            }
            r
        },
        Some((payload, to)) => {
            let message = Message::new(port, Payload::Application { payload });
            send_to_each(&to, &message)
        },
    }
}

impl ConnectionManagerInner {
    /// The address at which this node listens.
    pub closed spec fn my_addr(&self) -> NodeAddr {
        self.addr
    }

    /// The core nodes that this node knows, in the order in which it came
    /// to know them.
    pub closed spec fn core_nodes(&self) -> Seq<NodeAddr> {
        self.core_node_set@
    }

    /// The edge nodes attached to this node.
    pub closed spec fn edge_nodes(&self) -> Seq<NodeAddr> {
        self.edge_node_set@
    }

    /// No node stands twice among the core nodes, nor among the edge
    /// nodes. This holds of every value of the type.
    #[verifier::type_invariant]
    pub open spec fn well_formed(&self) -> bool {
        self.core_nodes().no_duplicates() && self.edge_nodes().no_duplicates()
    }

    /// A node that knows itself alone.
    pub fn new(addr: NodeAddr) -> (r: ConnectionManagerInner)
        ensures
            r.my_addr() == addr,
            r.core_nodes() == seq![addr],
            r.edge_nodes() == Seq::<NodeAddr>::empty(),
            r.well_formed(),
    {
        let mut core: Vec<NodeAddr> = Vec::new();
        core.push(addr);
        let r = ConnectionManagerInner { addr, core_node_set: core, edge_node_set: Vec::new() };
        proof {
            assert(r.core_nodes() =~= seq![addr]);
            assert(r.edge_nodes() =~= Seq::<NodeAddr>::empty());
        }
        r
    }

    /// Takes `peer` among the core nodes. Says whether it was new.
    pub fn add_peer(&mut self, peer: NodeAddr) -> (added: bool)
        ensures
            added == !old(self).core_nodes().contains(peer),
            final(self).core_nodes() == with_node(old(self).core_nodes(), peer),
            final(self).core_nodes().contains(peer),
            final(self).edge_nodes() == old(self).edge_nodes(),
            final(self).my_addr() == old(self).my_addr(),
            final(self).well_formed(),
    {
        proof {
            use_type_invariant(&*self);
        }
        let mut nodes: Vec<NodeAddr> = Vec::new();
        std::mem::swap(&mut nodes, &mut self.core_node_set);
        let changed = add_node(&mut nodes, peer);
        self.core_node_set = nodes;
        changed
    }

    /// Drops `peer` from the core nodes. Says whether it was among them.
    pub fn remove_peer(&mut self, peer: &NodeAddr) -> (removed: bool)
        ensures
            removed == old(self).core_nodes().contains(*peer),
            final(self).core_nodes() == without_first(old(self).core_nodes(), *peer),
            !final(self).core_nodes().contains(*peer),
            final(self).edge_nodes() == old(self).edge_nodes(),
            final(self).my_addr() == old(self).my_addr(),
            final(self).well_formed(),
    {
        proof {
            use_type_invariant(&*self);
        }
        let mut nodes: Vec<NodeAddr> = Vec::new();
        std::mem::swap(&mut nodes, &mut self.core_node_set);
        let changed = remove_node(&mut nodes, peer);
        self.core_node_set = nodes;
        changed
    }

    /// Takes `edge` among the edge nodes. Says whether it was new.
    pub fn add_edge(&mut self, edge: NodeAddr) -> (added: bool)
        ensures
            added == !old(self).edge_nodes().contains(edge),
            final(self).edge_nodes() == with_node(old(self).edge_nodes(), edge),
            final(self).edge_nodes().contains(edge),
            final(self).core_nodes() == old(self).core_nodes(),
            final(self).my_addr() == old(self).my_addr(),
            final(self).well_formed(),
    {
        proof {
            use_type_invariant(&*self);
        }
        let mut nodes: Vec<NodeAddr> = Vec::new();
        std::mem::swap(&mut nodes, &mut self.edge_node_set);
        let changed = add_node(&mut nodes, edge);
        self.edge_node_set = nodes;
        changed
    }

    /// Drops `edge` from the edge nodes. Says whether it was among them.
    pub fn remove_edge(&mut self, edge: &NodeAddr) -> (removed: bool)
        ensures
            removed == old(self).edge_nodes().contains(*edge),
            final(self).edge_nodes() == without_first(old(self).edge_nodes(), *edge),
            !final(self).edge_nodes().contains(*edge),
            final(self).core_nodes() == old(self).core_nodes(),
            final(self).my_addr() == old(self).my_addr(),
            final(self).well_formed(),
    {
        proof {
            use_type_invariant(&*self);
        }
        let mut nodes: Vec<NodeAddr> = Vec::new();
        std::mem::swap(&mut nodes, &mut self.edge_node_set);
        let changed = remove_node(&mut nodes, edge);
        self.edge_node_set = nodes;
        changed
    }

    pub fn get_my_addr(&self) -> (r: NodeAddr)
        ensures
            r == self.my_addr(),
    {
        self.addr
    }

    pub fn get_core_nodes(&self) -> (r: Vec<NodeAddr>)
        ensures
            r@ == self.core_nodes(),
            r@.no_duplicates(),
    {
        let r = list_duplicate(&self.core_node_set);
        proof {
            use_type_invariant(self);
            assert(views(r@) =~= r@);
            assert(views(self.core_node_set@) =~= self.core_node_set@);
        }
        r
    }

    pub fn get_edge_nodes(&self) -> (r: Vec<NodeAddr>)
        ensures
            r@ == self.edge_nodes(),
            r@.no_duplicates(),
    {
        let r = list_duplicate(&self.edge_node_set);
        proof {
            use_type_invariant(self);
            assert(views(r@) =~= r@);
            assert(views(self.edge_node_set@) =~= self.edge_node_set@);
        }
        r
    }

    /// The core nodes other than this node: those to which a broadcast goes.
    pub fn get_other_core_nodes(&self) -> (r: Vec<NodeAddr>)
        ensures
            r@ == others(self.core_nodes(), self.my_addr()),
            r@.no_duplicates(),
            !r@.contains(self.my_addr()),
    {
        let mut me: Vec<NodeAddr> = Vec::new();
        me.push(self.addr);
        let r = list_without(&self.core_node_set, &me);
        proof {
            let addr = self.addr;
            let core = self.core_node_set@;
            assert(views(r@) =~= r@);
            assert(views(core) =~= core);
            assert(views(me@) =~= seq![addr]);
            let a = not_among(views(me@));
            let b = other_than(addr);
            assert forall|v: NodeAddr| #[trigger] a(v) == b(v) by {
                if v == addr {
                    assert(views(me@)[0] == v);
                }
            }
            lemma_filter_agrees(core, a, b);
            use_type_invariant(self);
            lemma_filter_keeps_distinct(core, b);
            lemma_filter_holds(core, b);
        }
        r
    }

    /// Takes the nodes of a list of core nodes among the core nodes.
    pub fn merge_core_nodes(&mut self, nodes: &Vec<NodeAddr>)
        ensures
            final(self).core_nodes() == merged(old(self).core_nodes(), nodes@),
            forall|other: NodeAddr| #[trigger]
                final(self).core_nodes().contains(other) == (old(self).core_nodes().contains(other)
                    || nodes@.contains(other)),
            final(self).edge_nodes() == old(self).edge_nodes(),
            final(self).my_addr() == old(self).my_addr(),
            final(self).well_formed(),
    {
        proof {
            use_type_invariant(&*self);
            lemma_merged_distinct(self.core_nodes(), nodes@);
        }
        let mut i: usize = 0;
        while i < nodes.len()
            invariant
                i <= nodes.len(),
                self.core_nodes() == merged_upto(old(self).core_nodes(), nodes@, i as int),
                self.edge_nodes() == old(self).edge_nodes(),
                self.my_addr() == old(self).my_addr(),
                self.well_formed(),
            decreases nodes.len() - i,
        {
            self.add_peer(nodes[i]);
            i += 1;
        }
    }

    /// The list of the core nodes, for every core node but this one.
    pub fn broadcast_core_list(&self) -> (r: Vec<Outgoing>)
        ensures
            views(r@) == core_list_broadcast(self.core_nodes(), self.my_addr()),
    {
        let message = Message::new(
            self.addr.port,
            Payload::CoreList { nodes: self.get_core_nodes() },
        );
        let to = self.get_other_core_nodes();
        send_to_each(&to, &message)
    }

    /// An application payload of this node's own, for every core node
    /// but this one.
    pub fn broadcast_application(&self, payload: ApplicationPayload) -> (r: Vec<Outgoing>)
        ensures
            views(r@) == to_each(
                others(self.core_nodes(), self.my_addr()),
                message_from(self.my_addr().port, PayloadModel::Application { payload: payload@ }),
            ),
    {
        let message = Message::new(self.addr.port, Payload::Application { payload });
        let to = self.get_other_core_nodes();
        send_to_each(&to, &message)
    }

    /// The list of the core nodes, for `peer`.
    fn core_list_for(&self, peer: NodeAddr) -> (r: Vec<Outgoing>)
        ensures
            views(r@) == seq![
                OutgoingModel {
                    to: peer,
                    message: message_from(
                        self.my_addr().port,
                        PayloadModel::CoreList { nodes: self.core_nodes() },
                    ),
                },
            ],
    {
        let message = Message::new(
            self.addr.port,
            Payload::CoreList { nodes: self.get_core_nodes() },
        );
        let mut out: Vec<Outgoing> = Vec::new();
        out.push(Outgoing { to: peer, message });
        proof {
            assert(views(out@) =~= seq![out@[0]@]);
        }
        out
    }

    /// What the application is told with a payload from `peer`: the core
    /// nodes other than this node, and whether `peer` is one of them.
    pub fn application_context(&self, peer: NodeAddr) -> (r: (Vec<NodeAddr>, bool))
        ensures
            r.0@ == others(self.core_nodes(), self.my_addr()),
            r.0@.no_duplicates(),
            r.1 == others(self.core_nodes(), self.my_addr()).contains(peer),
    {
        let nodes = self.get_other_core_nodes();
        proof {
            assert(views(nodes@) =~= nodes@);
        }
        let is_core = list_contains(&nodes, &peer);
        (nodes, is_core)
    }

    /// Takes a membership payload from `peer` and says what to send.
    pub fn handle_membership(&mut self, peer: NodeAddr, payload: &Payload) -> (r: Vec<Outgoing>)
        requires
            !(payload@ is Application),
        ensures
            final(self).my_addr() == old(self).my_addr(),
            ({
                let step = membership_step(
                    old(self).core_nodes(),
                    old(self).edge_nodes(),
                    old(self).my_addr(),
                    peer,
                    payload@,
                );
                &&& final(self).core_nodes() == step.core
                &&& final(self).edge_nodes() == step.edges
                &&& views(r@) == step.send
            }),
            final(self).well_formed(),
            payload@ is Add ==> final(self).core_nodes().contains(peer),
            payload@ is Remove ==> !final(self).core_nodes().contains(peer),
            payload@ is AddAsEdge ==> final(self).edge_nodes().contains(peer),
            payload@ is RemoveEdge ==> !final(self).edge_nodes().contains(peer),
    {
        proof {
            use_type_invariant(&*self);
            lemma_membership_keeps_distinct(
                self.core_nodes(),
                self.edge_nodes(),
                self.my_addr(),
                peer,
                payload@,
            );
        }
        match payload {
            Payload::Add => {
                if self.add_peer(peer) {
                    self.broadcast_core_list()
                } else {
                    nothing_to_send()
                }
            },
            Payload::Remove => {
                if self.remove_peer(&peer) {
                    self.broadcast_core_list()
                } else {
                    nothing_to_send()
                }
            },
            Payload::CoreList { nodes } => {
                self.merge_core_nodes(nodes);
                nothing_to_send()
            },
            Payload::RequestCoreList => self.core_list_for(peer),
            Payload::AddAsEdge => {
                self.add_edge(peer);
                self.core_list_for(peer)
            },
            Payload::RemoveEdge => {
                self.remove_edge(&peer);
                nothing_to_send()
            },
            _ => nothing_to_send(),
        }
    }

    /// Takes what came from the host `source_ip`: a membership payload
    /// changes the lists of nodes; an application payload goes to
    /// `handler`, whose answer is wrapped up for sending. The peer is the
    /// host that the message came from at the port that the message names.
    pub fn handle_message<H: ApplicationPayloadHandler>(
        &mut self,
        handler: &mut H,
        source_ip: u32,
        message: Message,
    ) -> (r: Vec<Outgoing>)
        requires
            old(handler).ready(),
            message@.well_formed(),
        ensures
            final(handler).ready(),
            final(self).my_addr() == old(self).my_addr(),
            final(self).well_formed(),
            forall|i: int| 0 <= i < r.len() ==> (#[trigger] r@[i]@).message.well_formed(),
            !(message@.payload is Application) ==> {
                let step = membership_step(
                    old(self).core_nodes(),
                    old(self).edge_nodes(),
                    old(self).my_addr(),
                    NodeAddr { ip: source_ip, port: message@.port },
                    message@.payload,
                );
                &&& final(self).core_nodes() == step.core
                &&& final(self).edge_nodes() == step.edges
                &&& views(r@) == step.send
                &&& *final(handler) == *old(handler)
            },
            message@.payload matches PayloadModel::Application { payload } ==> {
                let known = others(old(self).core_nodes(), old(self).my_addr());
                &&& final(self).core_nodes() == old(self).core_nodes()
                &&& final(self).edge_nodes() == old(self).edge_nodes()
                &&& exists|reply: Option<(ApplicationPayloadModel, Seq<NodeAddr>)>|
                    {
                        &&& #[trigger] H::answers(
                            *old(handler),
                            payload,
                            NodeAddr { ip: source_ip, port: message@.port },
                            known,
                            known.contains(NodeAddr { ip: source_ip, port: message@.port }),
                            reply,
                            *final(handler),
                        )
                        &&& views(r@) == application_replies(old(self).my_addr().port, reply)
                    }
            },
    {
        proof {
            use_type_invariant(&*self);
        }
        let peer = NodeAddr { ip: source_ip, port: message.port };
        match message.payload {
            Payload::Application { payload } => {
                let context = self.application_context(peer);
                let reply = handler.handle(payload, peer, context.0, context.1);
                let ghost answer = reply_model(reply);
                let r = replies_of_application(self.addr.port, reply);
                proof {
                    let sent = application_replies(self.addr.port, answer);
                    assert(views(r@) == sent);
                    assert forall|i: int| 0 <= i < r.len() implies (
                    #[trigger] r@[i]@).message.well_formed() by {
                        assert(views(r@)[i] == r@[i]@);
                        assert(answer is Some);
                        let pair = answer->0;
                        let carried = pair.0;
                        assert(carried.well_formed());
                        assert(sent[i].message == message_from(
                            self.addr.port,
                            PayloadModel::Application { payload: carried },
                        ));
                    }
                    assert(H::answers(
                        *old(handler),
                        message@.payload->payload,
                        peer,
                        context.0@,
                        context.1,
                        answer,
                        *handler,
                    ));
                }
                r
            },
            other => {
                let ghost step = membership_step(
                    self.core_nodes(),
                    self.edge_nodes(),
                    self.my_addr(),
                    peer,
                    other@,
                );
                let r = self.handle_membership(peer, &other);
                proof {
                    assert forall|i: int| 0 <= i < r.len() implies (
                    #[trigger] r@[i]@).message.well_formed() by {
                        assert(views(r@)[i] == r@[i]@);
                        lemma_membership_sends_core_lists(
                            old(self).core_nodes(),
                            old(self).edge_nodes(),
                            old(self).my_addr(),
                            peer,
                            other@,
                        );
                        assert(step.send[i].message.payload is CoreList);
                    }
                }
                r
            },
        }
    }

    /// The pings of a sweep: one for every core node but this one.
    pub fn ping_targets(&self) -> (r: Vec<Outgoing>)
        ensures
            views(r@) == to_each(
                others(self.core_nodes(), self.my_addr()),
                message_from(self.my_addr().port, PayloadModel::Ping),
            ),
    {
        let message = Message::new(self.addr.port, Payload::Ping);
        let to = self.get_other_core_nodes();
        send_to_each(&to, &message)
    }

    /// Ends a sweep: the nodes that could not be reached are dropped and,
    /// if there were any, every core node left is told the new list.
    pub fn finish_sweep(&mut self, failed: &Vec<NodeAddr>) -> (r: Vec<Outgoing>)
        ensures
            final(self).my_addr() == old(self).my_addr(),
            final(self).edge_nodes() == old(self).edge_nodes(),
            final(self).core_nodes() == without_all(old(self).core_nodes(), failed@),
            forall|other: NodeAddr| #[trigger]
                final(self).core_nodes().contains(other) == (old(self).core_nodes().contains(other)
                    && !failed@.contains(other)),
            final(self).well_formed(),
            views(r@) == (if failed@.len() > 0 {
                core_list_broadcast(final(self).core_nodes(), old(self).my_addr())
            } else {
                Seq::<OutgoingModel>::empty()
            }),
    {
        let kept = list_without(&self.core_node_set, failed);
        proof {
            use_type_invariant(&*self);
            assert(views(kept@) =~= kept@);
            assert(views(self.core_node_set@) =~= self.core_node_set@);
            assert(views(failed@) =~= failed@);
            lemma_filter_keeps_distinct(self.core_node_set@, not_among(failed@));
            lemma_filter_holds(self.core_node_set@, not_among(failed@));
        }
        self.core_node_set = kept;
        if failed.len() > 0 {
            self.broadcast_core_list()
        } else {
            nothing_to_send()
        }
    }

    /// Takes note of how the sending of a message to `to` went: a node that
    /// could not be reached is dropped from the core nodes. Says whether
    /// the message was sent.
    pub fn after_send(&mut self, to: &NodeAddr, delivered: bool) -> (sent: bool)
        ensures
            sent == delivered,
            final(self).my_addr() == old(self).my_addr(),
            final(self).edge_nodes() == old(self).edge_nodes(),
            final(self).core_nodes() == (if delivered {
                old(self).core_nodes()
            } else {
                without_first(old(self).core_nodes(), *to)
            }),
            !delivered ==> !final(self).core_nodes().contains(*to),
            final(self).well_formed(),
    {
        proof {
            use_type_invariant(&*self);
        }
        if !delivered {
            self.remove_peer(to);
        }
        delivered
    }

    /// The request to join the overlay through `target`.
    pub fn join_request(&self, target: NodeAddr) -> (r: Outgoing)
        ensures
            r@ == (OutgoingModel {
                to: target,
                message: message_from(self.my_addr().port, PayloadModel::Add),
            }),
    {
        Outgoing { to: target, message: Message::new(self.addr.port, Payload::Add) }
    }

    /// The notice of leaving, for the node through which this one joined.
    pub fn leave_notice(&self, core_node_addr: Option<NodeAddr>) -> (r: Option<Outgoing>)
        ensures
            r is Some == core_node_addr is Some,
            r matches Some(out) ==> out@ == (OutgoingModel {
                to: core_node_addr->0,
                message: message_from(self.my_addr().port, PayloadModel::Remove),
            }),
    {
        match core_node_addr {
            Some(to) => Some(
                Outgoing { to, message: Message::new(self.addr.port, Payload::Remove) },
            ),
            None => None,
        }
    }
}

fn nothing_to_send() -> (r: Vec<Outgoing>)
    ensures
        views(r@) == Seq::<OutgoingModel>::empty(),
{
    let r: Vec<Outgoing> = Vec::new();
    proof {
        assert(views(r@) =~= Seq::<OutgoingModel>::empty());
    }
    r
}

} // verus!
