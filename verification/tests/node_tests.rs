use orb::message::{validate_config, Config, ConfigError, ControlMessage, DataMessage, Message, Service};
use orb::node::{Node, NodeAction};

fn service(id: &str, port: u16) -> Service {
    Service {
        id: id.to_string(),
        svc_type: "tcp".to_string(),
        addr: "127.0.0.1".to_string(),
        port,
        path: String::new(),
        auth: None,
    }
}

#[test]
fn test_node_creation() {
    let node = Node::new("node-001".to_string());
    assert_eq!(node.node_id, "node-001");
}

#[test]
fn register_and_announce_messages() {
    let mut node = Node::new("node-001".to_string());
    match node.register_message("msg-001".to_string()) {
        Message::Control { control: ControlMessage::Register { node_id, msg_id } } => {
            assert_eq!(node_id, "node-001");
            assert_eq!(msg_id, "msg-001");
        }
        _ => panic!("Wrong message type"),
    }
    match node.send_register() {
        Message::Control { control: ControlMessage::Register { node_id, msg_id } } => {
            assert_eq!(node_id, "node-001");
            assert_eq!(msg_id.len(), 36);
        }
        _ => panic!("Wrong message type"),
    }
    let msg = node.announce(vec![service("echo", 9001)]);
    assert_eq!(node.announced_services.len(), 1);
    assert_eq!(node.announced_services[0].id, "echo");
    match msg {
        Message::Control { control: ControlMessage::Announce { services, msg_id } } => {
            assert_eq!(services.len(), 1);
            assert_eq!(services[0].port, 9001);
            assert_eq!(msg_id.len(), 36);
        }
        _ => panic!("Wrong message type"),
    }
}

#[test]
fn open_bridge_then_data_then_close() {
    let mut node = Node::new("n".to_string());
    let open = Message::Control {
        control: ControlMessage::OpenBridge {
            bridge_id: "bridge-001".to_string(),
            service: service("echo-service", 9002),
            msg_id: "m1".to_string(),
        },
    };
    let (bridge_id, svc, msg_id) = match node.handle_message(open) {
        NodeAction::OpenBridge { bridge_id, service, msg_id } => (bridge_id, service, msg_id),
        other => panic!("unexpected {:?}", other),
    };
    assert_eq!(bridge_id, "bridge-001");
    assert_eq!(msg_id, "m1");
    // data before the connection is recorded is ignored
    let data = Message::Data {
        data: DataMessage { bridge_id: "bridge-001".to_string(), payload: vec![1, 2, 3] },
    };
    assert!(matches!(node.handle_message(data), NodeAction::Ignore));
    match node.bridge_opened(bridge_id.clone(), svc, msg_id) {
        Message::Control { control: ControlMessage::Ack { msg_id } } => {
            assert_eq!(msg_id, Some("m1".to_string()))
        }
        _ => panic!("expected an ACK"),
    }
    assert_eq!(node.bridge(&"bridge-001".to_string()).unwrap().port, 9002);
    let data = Message::Data {
        data: DataMessage { bridge_id: "bridge-001".to_string(), payload: vec![1, 2, 3] },
    };
    match node.handle_message(data) {
        NodeAction::Forward { bridge_id, payload } => {
            assert_eq!(bridge_id, "bridge-001");
            assert_eq!(payload, vec![1, 2, 3]);
        }
        other => panic!("unexpected {:?}", other),
    }
    let close = Message::Control {
        control: ControlMessage::CloseBridge {
            bridge_id: "bridge-001".to_string(),
            msg_id: "m2".to_string(),
        },
    };
    assert!(matches!(node.handle_message(close), NodeAction::CloseBridge { .. }));
    assert!(node.bridge(&"bridge-001".to_string()).is_none());
    let data = Message::Data {
        data: DataMessage { bridge_id: "bridge-001".to_string(), payload: vec![4] },
    };
    assert!(matches!(node.handle_message(data), NodeAction::Ignore));
}

#[test]
fn other_control_messages_are_ignored() {
    let mut node = Node::new("n".to_string());
    let ack = Message::ack(Some("x".to_string()));
    assert!(matches!(node.handle_message(ack), NodeAction::Ignore));
    let reg = Message::control(ControlMessage::Register {
        node_id: "a".to_string(),
        msg_id: "b".to_string(),
    });
    assert!(matches!(node.handle_message(reg), NodeAction::Ignore));
}

#[test]
fn message_ids_and_acks() {
    let reg = Message::control(ControlMessage::Register {
        node_id: "a".to_string(),
        msg_id: "msg-001".to_string(),
    });
    assert_eq!(reg.msg_id(), Some("msg-001".to_string()));
    assert!(!reg.is_ack());
    let ack = Message::ack(None);
    assert!(ack.is_ack());
    assert_eq!(ack.msg_id(), None);
    let data = Message::data("bridge-123".to_string(), vec![1, 2, 3, 4, 5]);
    assert_eq!(data.msg_id(), None);
    match data {
        Message::Data { data } => {
            assert_eq!(data.bridge_id, "bridge-123");
            assert_eq!(data.payload, vec![1, 2, 3, 4, 5]);
        }
        _ => panic!("Wrong message type"),
    }
}

#[test]
fn empty_node_config_is_refused() {
    assert!(matches!(validate_config(Config { services: vec![] }), Err(ConfigError::NoServices)));
    let ok = validate_config(Config { services: vec![service("a", 1)] }).unwrap();
    assert_eq!(ok.services.len(), 1);
}
