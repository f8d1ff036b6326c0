//! The relay's bridge manager: which nodes are connected, which bridges are
//! open, and how the relay answers each message a node sends.
//!
//! The channels to nodes and to protocol clients are async-runtime values;
//! the manager holds them as opaque handles (`N` for a node, `B` for a
//! bridge's client side) and decides what goes where.
use vstd::prelude::*;
use crate::ids::{fresh_id, uuid_v4_text};
use crate::keyed::KeyedList;
use crate::message::{spec_is_ack, spec_msg_id, ControlMessage, DataMessage, Message, Service};

verus! {

/// Connected nodes and open bridges.
pub struct BridgeManager<N, B> {
    bridges: KeyedList<B>,
    nodes: KeyedList<N>,
}

/// Why a bridge could not be created.
#[derive(Debug)]
pub enum BridgeError {
    /// No node with this id is connected.
    NodeNotFound(String),
}

impl<N, B> BridgeManager<N, B> {
    /// Open bridges, by bridge id.
    pub closed spec fn bridges(&self) -> Map<Seq<char>, B> {
        self.bridges@
    }

    /// Connected nodes, by node id.
    pub closed spec fn nodes(&self) -> Map<Seq<char>, N> {
        self.nodes@
    }

    /// No node, no bridge.
    pub fn new() -> (res: Self)
        ensures
            res.bridges() == Map::<Seq<char>, B>::empty(),
            res.nodes() == Map::<Seq<char>, N>::empty(),
    {
        BridgeManager { bridges: KeyedList::new(), nodes: KeyedList::new() }
    }

    /// Records a node's control channel, replacing an earlier one.
    pub fn register_node(&mut self, node_id: String, tx: N)
        ensures
            final(self).nodes() == old(self).nodes().insert(node_id@, tx),
            final(self).bridges() == old(self).bridges(),
    {
        self.nodes.insert(node_id, tx);
    }

    /// Forgets a node that disconnected.
    pub fn unregister_node(&mut self, node_id: &String)
        ensures
            final(self).nodes() == old(self).nodes().remove(node_id@),
            final(self).bridges() == old(self).bridges(),
    {
        self.nodes.remove(node_id);
    }

    /// The control channel of a node.
    pub fn node_channel(&self, node_id: &String) -> (res: Option<&N>)
        ensures
            match res {
                Some(n) => self.nodes().contains_key(node_id@) && *n == self.nodes()[node_id@],
                None => !self.nodes().contains_key(node_id@),
            },
    {
        self.nodes.get(node_id)
    }

    /// The client side of a bridge, where data from the node goes; `None`
    /// for an unknown bridge, whose data is dropped.
    pub fn bridge_channel(&self, bridge_id: &String) -> (res: Option<&B>)
        ensures
            match res {
                Some(b) => self.bridges().contains_key(bridge_id@) && *b == self.bridges()[bridge_id@],
                None => !self.bridges().contains_key(bridge_id@),
            },
    {
        self.bridges.get(bridge_id)
    }

    /// Opens bridge `bridge_id` to `service` through node `node_id`: records
    /// its client side and returns the OPEN_BRIDGE message for the node.
    /// Fails, changing nothing, when the node is not connected.
    pub fn create_bridge_with_ids(
        &mut self,
        node_id: &String,
        service: &Service,
        bridge_id: String,
        msg_id: String,
        to_client: B,
    ) -> (res: Result<Message, BridgeError>)
        ensures
            final(self).nodes() == old(self).nodes(),
            old(self).nodes().contains_key(node_id@) ==> res == Ok::<Message, BridgeError>(
                Message::Control {
                    control: ControlMessage::OpenBridge { bridge_id, service: *service, msg_id },
                },
            ) && final(self).bridges() == old(self).bridges().insert(bridge_id@, to_client),
            !old(self).nodes().contains_key(node_id@) ==> (res matches Err(
                BridgeError::NodeNotFound(id),
            ) && id == *node_id && final(self).bridges() == old(self).bridges()),
    {
        if !self.nodes.contains_key(node_id) {
            return Err(BridgeError::NodeNotFound(node_id.clone()));
        }
        let key = bridge_id.clone();
        self.bridges.insert(key, to_client);
        Ok(
            Message::Control {
                control: ControlMessage::OpenBridge { bridge_id, service: service.clone(), msg_id },
            },
        )
    }

    /// Opens a bridge with fresh bridge and message ids; returns the bridge
    /// id and the OPEN_BRIDGE message for the node.
    pub fn create_bridge(&mut self, node_id: &String, service: &Service, to_client: B) -> (res:
        Result<(String, Message), BridgeError>)
        ensures
            final(self).nodes() == old(self).nodes(),
            old(self).nodes().contains_key(node_id@) ==> (res matches Ok((bridge_id, msg))
                && (msg matches Message::Control {
                control: ControlMessage::OpenBridge { bridge_id: b, service: s, msg_id },
            } && b == bridge_id && s == *service && uuid_v4_text(bridge_id@) && uuid_v4_text(msg_id@))
                && final(self).bridges() == old(self).bridges().insert(bridge_id@, to_client)),
            !old(self).nodes().contains_key(node_id@) ==> (res matches Err(
                BridgeError::NodeNotFound(id),
            ) && id == *node_id && final(self).bridges() == old(self).bridges()),
    {
        let bridge_id = fresh_id();
        let msg_id = fresh_id();
        let key = bridge_id.clone();
        match self.create_bridge_with_ids(node_id, service, bridge_id, msg_id, to_client) {
            Ok(msg) => Ok((key, msg)),
            Err(e) => Err(e),
        }
    }

    /// Closes a bridge: forgets it, and returns the CLOSE_BRIDGE message
    /// with message id `msg_id` for its node, if that node is connected.
    pub fn close_bridge_with_id(&mut self, bridge_id: &String, node_id: &String, msg_id: String) -> (res:
        Option<Message>)
        ensures
            final(self).bridges() == old(self).bridges().remove(bridge_id@),
            final(self).nodes() == old(self).nodes(),
            old(self).nodes().contains_key(node_id@) ==> res == Some(
                Message::Control {
                    control: ControlMessage::CloseBridge { bridge_id: *bridge_id, msg_id },
                },
            ),
            !old(self).nodes().contains_key(node_id@) ==> res is None,
    {
        self.bridges.remove(bridge_id);
        if self.nodes.contains_key(node_id) {
            Some(
                Message::Control {
                    control: ControlMessage::CloseBridge { bridge_id: bridge_id.clone(), msg_id },
                },
            )
        } else {
            None
        }
    }

    /// Closes a bridge, with a fresh message id for the CLOSE_BRIDGE message.
    pub fn close_bridge(&mut self, bridge_id: &String, node_id: &String) -> (res: Option<Message>)
        ensures
            final(self).bridges() == old(self).bridges().remove(bridge_id@),
            final(self).nodes() == old(self).nodes(),
            old(self).nodes().contains_key(node_id@) ==> (res matches Some(
                Message::Control { control: ControlMessage::CloseBridge { bridge_id: b, msg_id } },
            ) && b == *bridge_id && uuid_v4_text(msg_id@)),
            !old(self).nodes().contains_key(node_id@) ==> res is None,
    {
        self.close_bridge_with_id(bridge_id, node_id, fresh_id())
    }
}

/// What a message from a node calls for on the relay.
#[derive(Debug)]
pub enum RelayEvent {
    /// Register the node's control channel under this id.
    Register { node_id: String },
    /// Record the services announced by this node.
    Announce { node_id: String, services: Vec<Service> },
    /// Forward the payload to the bridge's client.
    Data { bridge_id: String, payload: Vec<u8> },
    /// Nothing to do.
    Nothing,
}

/// The relay's side of one node connection.
pub struct NodeSession {
    /// The id the node registered with; empty until it registers.
    pub node_id: String,
}

/// The reply owed to a message: an ACK carrying its id, except for an ACK.
pub open spec fn reply_spec(msg: Message) -> Option<Message> {
    if spec_is_ack(msg) {
        None
    } else {
        Some(Message::Control { control: ControlMessage::Ack { msg_id: spec_msg_id(msg) } })
    }
}

/// The event a message calls for, given the id the node registered with,
/// and that id afterwards.
pub open spec fn relay_step(node_id: String, msg: Message) -> (String, RelayEvent) {
    match msg {
        Message::Control { control } => match control {
            ControlMessage::Register { node_id: nid, .. } => (nid, RelayEvent::Register { node_id: nid }),
            ControlMessage::Announce { services, .. } => (
                node_id,
                RelayEvent::Announce { node_id, services },
            ),
            _ => (node_id, RelayEvent::Nothing),
        },
        Message::Data { data } => (
            node_id,
            RelayEvent::Data { bridge_id: data.bridge_id, payload: data.payload },
        ),
    }
}

impl NodeSession {
    /// A connection whose node has not registered yet.
    pub fn new() -> (res: Self)
        ensures
            res.node_id@ == Seq::<char>::empty(),
    {
        NodeSession { node_id: String::new() }
    }

    /// Takes one message from the node: returns what it calls for and the
    /// reply to send back.
    pub fn on_message(&mut self, msg: Message) -> (res: (RelayEvent, Option<Message>))
        ensures
            (final(self).node_id, res.0) == relay_step(old(self).node_id, msg),
            res.1 == reply_spec(msg),
    {
        let reply = if msg.is_ack() {
            None
        } else {
            Some(Message::ack(msg.msg_id()))
        };
        let event = match msg {
            Message::Control { control } => match control {
                ControlMessage::Register { node_id, msg_id: _ } => {
                    self.node_id = node_id.clone();
                    RelayEvent::Register { node_id }
                },
                ControlMessage::Announce { services, msg_id: _ } => {
                    RelayEvent::Announce { node_id: self.node_id.clone(), services }
                },
                _ => RelayEvent::Nothing,
            },
            Message::Data { data } => {
                let DataMessage { bridge_id, payload } = data;
                RelayEvent::Data { bridge_id, payload }
            },
        };
        (event, reply)
    }

    /// When the connection ends: the node id to unregister, if the node had
    /// registered.
    pub fn on_disconnect(&self) -> (res: Option<String>)
        ensures
            self.node_id@.len() == 0 ==> res is None,
            self.node_id@.len() > 0 ==> res == Some(self.node_id),
    {
        if self.node_id.as_str().is_empty() {
            None
        } else {
            Some(self.node_id.clone())
        }
    }
}

// ---------------------------------------------------------------------------
// Laws
// ---------------------------------------------------------------------------

/// The relay never acknowledges an acknowledgement (two peers acknowledging
/// each other's ACKs would loop), and acknowledges every other message with
/// that message's own id.
pub proof fn lemma_ack_policy(msg: Message)
    ensures
        spec_is_ack(msg) <==> reply_spec(msg) is None,
        !spec_is_ack(msg) ==> reply_spec(msg) == Some(
            Message::Control { control: ControlMessage::Ack { msg_id: spec_msg_id(msg) } },
        ),
        reply_spec(msg) matches Some(r) ==> spec_is_ack(r),
{
}

/// Announcements are attributed to the registered node:
/// once a node registered as `id`, its announcements carry `id` until it
/// registers again.
pub proof fn lemma_announce_after_register(
    before: String,
    id: String,
    reg_msg_id: String,
    services: Vec<Service>,
    ann_msg_id: String,
)
    ensures
        ({
            let (after_reg, _) = relay_step(
                before,
                Message::Control { control: ControlMessage::Register { node_id: id, msg_id: reg_msg_id } },
            );
            relay_step(
                after_reg,
                Message::Control {
                    control: ControlMessage::Announce { services, msg_id: ann_msg_id },
                },
            ) == (id, RelayEvent::Announce { node_id: id, services })
        }),
{
}

/// A bridge created through a connected node receives the data addressed to
/// it, and no longer once it is closed.
pub proof fn lemma_bridge_lifetime<B>(
    bridges: Map<Seq<char>, B>,
    bridge_id: Seq<char>,
    to_client: B,
)
    ensures
        bridges.insert(bridge_id, to_client).contains_key(bridge_id),
        bridges.insert(bridge_id, to_client)[bridge_id] == to_client,
        !bridges.insert(bridge_id, to_client).remove(bridge_id).contains_key(bridge_id),
{
}

/// DATA from a node goes to the bridge the message names, payload
/// unchanged, whatever node id the session holds, and leaves that id as it
/// was; it is acknowledged with an ACK without message id.
pub proof fn lemma_data_routed(node_id: String, bridge_id: String, payload: Vec<u8>)
    ensures
        ({
            let msg = Message::Data { data: DataMessage { bridge_id, payload } };
            &&& relay_step(node_id, msg).0 == node_id
            &&& relay_step(node_id, msg).1 matches RelayEvent::Data { bridge_id: b, payload: p }
            &&& b == bridge_id && p == payload
            &&& reply_spec(msg) == Some(
                Message::Control { control: ControlMessage::Ack { msg_id: None } },
            )
        }),
{
}

/// REGISTER sets the session's node id to the id it carries and calls for
/// registering that id; ANNOUNCE calls for recording its services under the
/// session's node id, unchanged; ACK, OPEN_BRIDGE and CLOSE_BRIDGE from a
/// node call for nothing and leave the node id as it was.
pub proof fn lemma_control_events(node_id: String, control: ControlMessage)
    ensures
        ({
            let (id2, ev) = relay_step(node_id, Message::Control { control });
            &&& control matches ControlMessage::Register { node_id: nid, .. } ==> id2 == nid && ev
                == RelayEvent::Register { node_id: nid }
            &&& control matches ControlMessage::Announce { services, .. } ==> id2 == node_id && ev
                == RelayEvent::Announce { node_id, services }
            &&& (control is Ack || control is OpenBridge || control is CloseBridge) ==> id2
                == node_id && ev == RelayEvent::Nothing
        }),
{
}

} // verus!
