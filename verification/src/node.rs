//! The node side of the protocol: what the node sends and how it answers
//! what the relay sends.
//!
//! The node's sockets (to the relay and to each bridged service) are driven
//! by the async runtime; this module holds its state (its id, the services
//! it announced, the open bridges) and decides, for each message from the
//! relay, what is to be done.
use vstd::prelude::*;
use crate::ids::{fresh_id, uuid_v4_text};
use crate::keyed::KeyedList;
use crate::message::{clone_services, ControlMessage, Message, Service};

verus! {

/// Identifier of a node.
pub type NodeId = String;

/// An open bridge: its id and the service it reaches.
#[derive(Debug)]
pub struct Bridge {
    pub bridge_id: String,
    pub service: Service,
}

/// The state of a node.
pub struct Node {
    pub node_id: NodeId,
    pub announced_services: Vec<Service>,
    /// Open bridges, by bridge id, with the service each reaches.
    pub bridges: KeyedList<Service>,
}

/// What the node is to do with a message from the relay.
#[derive(Debug)]
pub enum NodeAction {
    /// Connect to the service; on success record the bridge
    /// ([`Node::bridge_opened`]) and acknowledge `msg_id`.
    OpenBridge { bridge_id: String, service: Service, msg_id: String },
    /// The bridge was dropped from the table: close its socket.
    CloseBridge { bridge_id: String },
    /// Write the payload to the bridge's socket.
    Forward { bridge_id: String, payload: Vec<u8> },
    /// Nothing to do.
    Ignore,
}

/// The node's answer to a message from the relay: the bridge table
/// afterwards and the action.
pub open spec fn node_step(bridges: Map<Seq<char>, Service>, msg: Message) -> (
    Map<Seq<char>, Service>,
    NodeAction,
) {
    match msg {
        Message::Control { control } => match control {
            ControlMessage::OpenBridge { bridge_id, service, msg_id } => (
                bridges,
                NodeAction::OpenBridge { bridge_id, service, msg_id },
            ),
            ControlMessage::CloseBridge { bridge_id, .. } => (
                bridges.remove(bridge_id@),
                NodeAction::CloseBridge { bridge_id },
            ),
            _ => (bridges, NodeAction::Ignore),
        },
        Message::Data { data } => if bridges.contains_key(data.bridge_id@) {
            (bridges, NodeAction::Forward { bridge_id: data.bridge_id, payload: data.payload })
        } else {
            (bridges, NodeAction::Ignore)
        },
    }
}

impl Node {
    /// A node with the given id, no announced service and no bridge.
    pub fn new(node_id: NodeId) -> (res: Self)
        ensures
            res.node_id == node_id,
            res.announced_services@ == Seq::<Service>::empty(),
            res.bridges@ == Map::<Seq<char>, Service>::empty(),
    {
        Node { node_id, announced_services: Vec::new(), bridges: KeyedList::new() }
    }

    /// The REGISTER message of this node, with message id `msg_id`.
    pub fn register_message(&self, msg_id: String) -> (res: Message)
        ensures
            res == (Message::Control {
                control: ControlMessage::Register { node_id: self.node_id, msg_id },
            }),
    {
        Message::Control {
            control: ControlMessage::Register { node_id: self.node_id.clone(), msg_id },
        }
    }

    /// The REGISTER message of this node, with a fresh message id.
    pub fn send_register(&self) -> (res: Message)
        ensures
            res matches Message::Control {
                control: ControlMessage::Register { node_id, msg_id },
            } && node_id == self.node_id && uuid_v4_text(msg_id@),
    {
        self.register_message(fresh_id())
    }

    /// Records `services` as announced; returns the ANNOUNCE message with
    /// message id `msg_id`.
    pub fn announce_message(&mut self, services: Vec<Service>, msg_id: String) -> (res: Message)
        ensures
            final(self).announced_services@ == services@,
            final(self).node_id == old(self).node_id,
            final(self).bridges@ == old(self).bridges@,
            res == (Message::Control { control: ControlMessage::Announce { services, msg_id } }),
    {
        let copy = clone_services(&services);
        self.announced_services = copy;
        Message::Control { control: ControlMessage::Announce { services, msg_id } }
    }

    /// Records `services` as announced; returns the ANNOUNCE message with a
    /// fresh message id.
    pub fn announce(&mut self, services: Vec<Service>) -> (res: Message)
        ensures
            final(self).announced_services@ == services@,
            final(self).node_id == old(self).node_id,
            final(self).bridges@ == old(self).bridges@,
            res matches Message::Control {
                control: ControlMessage::Announce { services: s, msg_id },
            } && s == services && uuid_v4_text(msg_id@),
    {
        let msg_id = fresh_id();
        self.announce_message(services, msg_id)
    }

    /// Decides what to do with a message from the relay; a CLOSE_BRIDGE
    /// drops the bridge from the table.
    pub fn handle_message(&mut self, msg: Message) -> (res: NodeAction)
        ensures
            (final(self).bridges@, res) == node_step(old(self).bridges@, msg),
            final(self).node_id == old(self).node_id,
            final(self).announced_services == old(self).announced_services,
    {
        match msg {
            Message::Control { control } => match control {
                ControlMessage::OpenBridge { bridge_id, service, msg_id } => {
                    NodeAction::OpenBridge { bridge_id, service, msg_id }
                },
                ControlMessage::CloseBridge { bridge_id, msg_id: _ } => {
                    self.bridges.remove(&bridge_id);
                    NodeAction::CloseBridge { bridge_id }
                },
                _ => NodeAction::Ignore,
            },
            Message::Data { data } => {
                if self.bridges.contains_key(&data.bridge_id) {
                    NodeAction::Forward { bridge_id: data.bridge_id, payload: data.payload }
                } else {
                    NodeAction::Ignore
                }
            },
        }
    }

    /// Records a bridge whose service connection is open; returns the ACK of
    /// the OPEN_BRIDGE message `msg_id`.
    pub fn bridge_opened(&mut self, bridge_id: String, service: Service, msg_id: String) -> (res:
        Message)
        ensures
            final(self).bridges@ == old(self).bridges@.insert(bridge_id@, service),
            final(self).node_id == old(self).node_id,
            final(self).announced_services == old(self).announced_services,
            res == (Message::Control { control: ControlMessage::Ack { msg_id: Some(msg_id) } }),
    {
        self.bridges.insert(bridge_id, service);
        Message::Control { control: ControlMessage::Ack { msg_id: Some(msg_id) } }
    }

    /// The service reached by a bridge, if the bridge is open.
    pub fn bridge(&self, bridge_id: &String) -> (res: Option<&Service>)
        ensures
            match res {
                Some(s) => self.bridges@.contains_key(bridge_id@) && *s == self.bridges@[bridge_id@],
                None => !self.bridges@.contains_key(bridge_id@),
            },
    {
        self.bridges.get(bridge_id)
    }
}

// ---------------------------------------------------------------------------
// Laws
// ---------------------------------------------------------------------------

/// Data for a bridge that was opened is forwarded to it, payload unchanged.
pub proof fn lemma_opened_bridge_forwards(
    bridges: Map<Seq<char>, Service>,
    bridge_id: String,
    service: Service,
    payload: Vec<u8>,
)
    ensures
        node_step(
            bridges.insert(bridge_id@, service),
            Message::Data { data: crate::message::DataMessage { bridge_id, payload } },
        ).1 == (NodeAction::Forward { bridge_id, payload }),
{
}

/// After CLOSE_BRIDGE, data for that bridge is ignored, and the other
/// bridges stay open.
pub proof fn lemma_closed_bridge_ignores(
    bridges: Map<Seq<char>, Service>,
    bridge_id: String,
    msg_id: String,
    data: crate::message::DataMessage,
)
    requires
        data.bridge_id@ == bridge_id@,
    ensures
        ({
            let closed = node_step(
                bridges,
                Message::Control { control: ControlMessage::CloseBridge { bridge_id, msg_id } },
            ).0;
            &&& node_step(closed, Message::Data { data }).1 == NodeAction::Ignore
            &&& forall|k: Seq<char>|
                k != bridge_id@ && bridges.contains_key(k) ==> closed.contains_key(k) && closed[k]
                    == bridges[k]
        }),
{
}

} // verus!
