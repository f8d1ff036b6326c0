//! The messages of the ORB protocol, exchanged between node and relay.
//!
//! Their CBOR encoding is done with `serde_cbor` on copies of these types that
//! carry the serde derives; this module holds the types themselves and what
//! the relay and the node decide on them.
use vstd::prelude::*;

verus! {

/// Configuration of a node: the services it may reach.
#[derive(Debug)]
pub struct Config {
    pub services: Vec<Service>,
}

/// Authentication data for a service.
#[derive(Debug)]
pub enum Auth {
    UsernameAndPassword { username: String, password: String },
}

/// A service a node can reach: used both in configuration and on the wire.
#[derive(Debug)]
pub struct Service {
    pub id: String,
    pub svc_type: String,
    pub addr: String,
    pub port: u16,
    pub path: String,
    pub auth: Option<Auth>,
}

/// Control messages of the protocol.
#[derive(Debug)]
#[allow(inconsistent_fields)]
pub enum ControlMessage {
    Register { node_id: String, msg_id: String },
    Announce { services: Vec<Service>, msg_id: String },
    Ack { msg_id: Option<String> },
    OpenBridge { bridge_id: String, service: Service, msg_id: String },
    CloseBridge { bridge_id: String, msg_id: String },
}

/// Bytes travelling over a bridge.
#[derive(Debug)]
pub struct DataMessage {
    pub bridge_id: String,
    pub payload: Vec<u8>,
}

/// A message of the protocol: control or data.
#[derive(Debug)]
pub enum Message {
    Control { control: ControlMessage },
    Data { data: DataMessage },
}

/// Why a configuration was refused.
#[derive(Debug, Clone, Copy, PartialEq, Eq)]
pub enum ConfigError {
    /// The configuration lists no service.
    NoServices,
}

impl Clone for Auth {
    fn clone(&self) -> (res: Self)
        ensures
            res == *self,
    {
        match self {
            Auth::UsernameAndPassword { username, password } => Auth::UsernameAndPassword {
                username: username.clone(),
                password: password.clone(),
            },
        }
    }
}

impl Clone for Service {
    fn clone(&self) -> (res: Self)
        ensures
            res == *self,
    {
        let auth = match &self.auth {
            Some(a) => Some(a.clone()),
            None => None,
        };
        Service {
            id: self.id.clone(),
            svc_type: self.svc_type.clone(),
            addr: self.addr.clone(),
            port: self.port,
            path: self.path.clone(),
            auth,
        }
    }
}

/// A copy of a list of services.
pub fn clone_services(v: &Vec<Service>) -> (res: Vec<Service>)
    ensures
        res@ == v@,
{
    let mut res: Vec<Service> = Vec::new();
    let mut i: usize = 0;
    while i < v.len()
        invariant
            0 <= i <= v@.len(),
            res@ == v@.subrange(0, i as int),
        decreases v.len() - i,
    {
        res.push(v[i].clone());
        i = i + 1;
        assert(res@ =~= v@.subrange(0, i as int));
    }
    assert(v@.subrange(0, v@.len() as int) =~= v@);
    res
}

/// A copy of an optional string.
pub fn clone_opt_string(s: &Option<String>) -> (res: Option<String>)
    ensures
        res == *s,
{
    match s {
        Some(x) => Some(x.clone()),
        None => None,
    }
}

/// The message id a message carries, if any.
pub open spec fn spec_msg_id(m: Message) -> Option<String> {
    match m {
        Message::Control { control } => match control {
            ControlMessage::Register { msg_id, .. } => Some(msg_id),
            ControlMessage::Announce { msg_id, .. } => Some(msg_id),
            ControlMessage::Ack { msg_id } => msg_id,
            ControlMessage::OpenBridge { msg_id, .. } => Some(msg_id),
            ControlMessage::CloseBridge { msg_id, .. } => Some(msg_id),
        },
        Message::Data { .. } => None,
    }
}

/// Whether a message is an acknowledgement.
pub open spec fn spec_is_ack(m: Message) -> bool {
    m matches Message::Control { control: ControlMessage::Ack { .. } }
}

impl Message {
    /// The message id this message carries, if any.
    pub fn msg_id(&self) -> (res: Option<String>)
        ensures
            res == spec_msg_id(*self),
    {
        match self {
            Message::Control { control } => match control {
                ControlMessage::Register { msg_id, .. } => Some(msg_id.clone()),
                ControlMessage::Announce { msg_id, .. } => Some(msg_id.clone()),
                ControlMessage::Ack { msg_id } => clone_opt_string(msg_id),
                ControlMessage::OpenBridge { msg_id, .. } => Some(msg_id.clone()),
                ControlMessage::CloseBridge { msg_id, .. } => Some(msg_id.clone()),
            },
            Message::Data { .. } => None,
        }
    }

    /// Whether this is an acknowledgement.
    pub fn is_ack(&self) -> (res: bool)
        ensures
            res == spec_is_ack(*self),
    {
        match self {
            Message::Control { control: ControlMessage::Ack { .. } } => true,
            _ => false,
        }
    }

    /// An acknowledgement of the message with id `msg_id`.
    pub fn ack(msg_id: Option<String>) -> (res: Message)
        ensures
            res == (Message::Control { control: ControlMessage::Ack { msg_id } }),
    {
        Message::Control { control: ControlMessage::Ack { msg_id } }
    }

    /// A control message.
    pub fn control(control: ControlMessage) -> (res: Message)
        ensures
            res == (Message::Control { control }),
    {
        Message::Control { control }
    }

    /// A data message for a bridge.
    pub fn data(bridge_id: String, payload: Vec<u8>) -> (res: Message)
        ensures
            res == (Message::Data { data: DataMessage { bridge_id, payload } }),
    {
        Message::Data { data: DataMessage { bridge_id, payload } }
    }
}

/// Accepts a node configuration that lists at least one service.
pub fn validate_config(config: Config) -> (res: Result<Config, ConfigError>)
    ensures
        config.services@.len() == 0 <==> res == Err::<Config, ConfigError>(ConfigError::NoServices),
        config.services@.len() > 0 <==> res == Ok::<Config, ConfigError>(config),
{
    if config.services.len() == 0 {
        return Err(ConfigError::NoServices);
    }
    Ok(Config { services: config.services })
}

} // verus!
