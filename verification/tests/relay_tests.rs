use orb::bridge_manager::{BridgeError, BridgeManager, NodeSession, RelayEvent};
use orb::bridge_stream::{data_message, ReadBuffer};
use orb::http::AnswerResponse;
use orb::keyed::KeyedList;
use orb::message::{Auth, ControlMessage, DataMessage, Message, Service};
use orb::node_shadow::{example_nodes, NodeShadow};
use orb::webrtc::{ice_action, still_down, IceAction, IceState, SessionOrigin, WebRtcBridge, WebRtcError};

fn service(id: &str, ty: &str, path: &str) -> Service {
    Service {
        id: id.to_string(),
        svc_type: ty.to_string(),
        addr: "192.168.178.65".to_string(),
        port: 554,
        path: path.to_string(),
        auth: Some(Auth::UsernameAndPassword {
            username: "user".to_string(),
            password: "pass".to_string(),
        }),
    }
}

#[test]
fn sessions_need_an_announced_rtsp_service() {
    let mut w = WebRtcBridge::default();
    match w.create_session(&"rtsp-camera".to_string()) {
        Err(WebRtcError::ServiceNotFound(id)) => assert_eq!(id, "rtsp-camera"),
        other => panic!("unexpected {:?}", other),
    }
    w.register_services(
        "rtsp-test-node".to_string(),
        vec![service("rtsp-camera", "rtsp", "stream2"), service("echo", "tcp", "")],
    );
    match w.create_session(&"echo".to_string()) {
        Err(WebRtcError::UnsupportedServiceType(t)) => assert_eq!(t, "tcp"),
        other => panic!("unexpected {:?}", other),
    }
    assert_eq!(w.create_session(&"rtsp-camera".to_string()).unwrap(), SessionOrigin::Created);
    assert_eq!(w.create_session(&"rtsp-camera".to_string()).unwrap(), SessionOrigin::Existing);
    assert_eq!(w.find_service(&"echo".to_string()).unwrap().svc_type, "tcp");
    w.unregister_node(&"rtsp-test-node".to_string());
    assert!(w.find_service(&"echo".to_string()).is_none());
}

#[test]
fn subscriber_counting_opens_and_closes_sessions() {
    let mut w = WebRtcBridge::default();
    w.register_services("n".to_string(), vec![service("cam", "rtsp", "/s")]);
    let id = "cam".to_string();
    assert_eq!(w.add_subscriber(&id), None);
    w.create_session(&id).unwrap();
    assert_eq!(w.add_subscriber(&id), Some(true));
    assert_eq!(w.add_subscriber(&id), Some(false));
    assert!(!w.remove_subscriber(&id));
    assert!(w.remove_subscriber(&id));
    // the session is gone
    assert_eq!(w.add_subscriber(&id), None);
    assert!(!w.remove_subscriber(&id));
}

#[test]
fn rtsp_target_normalizes_path_and_takes_credentials() {
    let mut w = WebRtcBridge::default();
    w.register_services("n".to_string(), vec![service("cam", "rtsp", "stream2")]);
    let id = "cam".to_string();
    match w.rtsp_target(&id) {
        Err(WebRtcError::SessionNotFound(s)) => assert_eq!(s, "cam"),
        other => panic!("unexpected {:?}", other),
    }
    w.create_session(&id).unwrap();
    let t = w.rtsp_target(&id).unwrap();
    assert_eq!(t.host, "192.168.178.65");
    assert_eq!(t.port, 554);
    assert_eq!(t.path, "/stream2");
    assert_eq!(t.auth, Some(("user".to_string(), "pass".to_string())));
    match w.rtsp_target(&"other".to_string()) {
        Err(WebRtcError::ServiceNotFound(s)) => assert_eq!(s, "other"),
        other => panic!("unexpected {:?}", other),
    }
    let mut w2 = WebRtcBridge::default();
    w2.register_services("n".to_string(), vec![service("cam", "rtsp", "/already")]);
    w2.create_session(&id).unwrap();
    assert_eq!(w2.rtsp_target(&id).unwrap().path, "/already");
}

#[test]
fn ice_state_decisions() {
    assert_eq!(ice_action(IceState::Disconnected), IceAction::RecheckLater);
    assert_eq!(ice_action(IceState::Failed), IceAction::RecheckLater);
    assert_eq!(ice_action(IceState::Closed), IceAction::DropSubscriber);
    assert_eq!(ice_action(IceState::Connected), IceAction::Nothing);
    assert!(still_down(IceState::Failed));
    assert!(!still_down(IceState::Connected));
}

#[test]
fn example_nodes_hold_the_services() {
    let shadows = example_nodes(vec![service("cam", "rtsp", "/s")]);
    let shadow: &NodeShadow = shadows.get(&"example-node".to_string()).unwrap();
    assert_eq!(shadow.services.len(), 1);
    let w = WebRtcBridge::new(shadows);
    assert!(w.find_service(&"cam".to_string()).is_some());
}

#[test]
fn test_bridge_node_disconnect() {
    let mut bm: BridgeManager<u32, u32> = BridgeManager::new();
    bm.register_node("fake-node".to_string(), 7);
    let svc = Service {
        id: "nonexistent".to_string(),
        svc_type: "tcp".to_string(),
        addr: "127.0.0.1".to_string(),
        port: 9999,
        path: String::new(),
        auth: None,
    };
    let result = bm.create_bridge(&"fake-node".to_string(), &svc, 1);
    assert!(result.is_ok(), "Bridge creation should succeed");
    let (bridge_id, msg) = result.unwrap();
    match msg {
        Message::Control { control: ControlMessage::OpenBridge { bridge_id: b, service, msg_id } } => {
            assert_eq!(b, bridge_id);
            assert_eq!(service.port, 9999);
            assert_eq!(msg_id.len(), 36);
        }
        _ => panic!("expected OPEN_BRIDGE"),
    }
    assert_eq!(bm.bridge_channel(&bridge_id), Some(&1));
    bm.unregister_node(&"fake-node".to_string());
    let result = bm.create_bridge(&"fake-node".to_string(), &svc, 2);
    assert!(result.is_err(), "Bridge creation should fail after node disconnect");
    match result {
        Err(BridgeError::NodeNotFound(n)) => assert_eq!(n, "fake-node"),
        _ => panic!("expected NodeNotFound"),
    }
}

#[test]
fn closing_a_bridge() {
    let mut bm: BridgeManager<u32, u32> = BridgeManager::new();
    bm.register_node("n".to_string(), 1);
    let svc = Service {
        id: "s".to_string(),
        svc_type: "tcp".to_string(),
        addr: "a".to_string(),
        port: 1,
        path: String::new(),
        auth: None,
    };
    let msg = bm
        .create_bridge_with_ids(&"n".to_string(), &svc, "b1".to_string(), "m1".to_string(), 5)
        .unwrap();
    assert_eq!(msg.msg_id(), Some("m1".to_string()));
    assert_eq!(bm.node_channel(&"n".to_string()), Some(&1));
    match bm.close_bridge(&"b1".to_string(), &"n".to_string()) {
        Some(Message::Control { control: ControlMessage::CloseBridge { bridge_id, .. } }) => {
            assert_eq!(bridge_id, "b1")
        }
        _ => panic!("expected CLOSE_BRIDGE"),
    }
    assert!(bm.bridge_channel(&"b1".to_string()).is_none());
    bm.create_bridge_with_ids(&"n".to_string(), &svc, "b2".to_string(), "m2".to_string(), 6).unwrap();
    assert!(bm.close_bridge_with_id(&"b2".to_string(), &"gone".to_string(), "m3".to_string()).is_none());
    assert!(bm.bridge_channel(&"b2".to_string()).is_none());
}

#[test]
fn relay_acks_everything_but_acks() {
    let mut s = NodeSession::new();
    assert_eq!(s.on_disconnect(), None);
    let (ev, reply) = s.on_message(Message::control(ControlMessage::Register {
        node_id: "node-001".to_string(),
        msg_id: "msg-001".to_string(),
    }));
    assert!(matches!(ev, RelayEvent::Register { ref node_id } if node_id == "node-001"));
    assert_eq!(reply.unwrap().msg_id(), Some("msg-001".to_string()));
    let (ev, reply) = s.on_message(Message::control(ControlMessage::Announce {
        services: vec![],
        msg_id: "msg-002".to_string(),
    }));
    match ev {
        RelayEvent::Announce { node_id, services } => {
            assert_eq!(node_id, "node-001");
            assert!(services.is_empty());
        }
        _ => panic!("expected announce"),
    }
    assert!(reply.unwrap().is_ack());
    let (ev, reply) = s.on_message(Message::ack(Some("x".to_string())));
    assert!(matches!(ev, RelayEvent::Nothing));
    assert!(reply.is_none());
    let (ev, reply) = s.on_message(Message::Data {
        data: DataMessage { bridge_id: "b".to_string(), payload: vec![1] },
    });
    assert!(matches!(ev, RelayEvent::Data { .. }));
    assert_eq!(reply.unwrap().msg_id(), None);
    assert_eq!(s.on_disconnect(), Some("node-001".to_string()));
}

#[test]
fn read_buffer_keeps_order() {
    let mut rb = ReadBuffer::new();
    assert!(rb.read_buffered(4).is_none());
    let first = rb.take_incoming(&[1, 2, 3, 4, 5, 6], 4);
    assert_eq!(first, vec![1, 2, 3, 4]);
    assert_eq!(rb.read_buffered(1), Some(vec![5]));
    assert_eq!(rb.read_buffered(10), Some(vec![6]));
    assert!(rb.read_buffered(10).is_none());
    assert_eq!(rb.take_incoming(&[7], 0), Vec::<u8>::new());
    assert_eq!(rb.read_buffered(3), Some(vec![7]));
}

#[test]
fn writes_become_data_messages() {
    match data_message(&"bridge-123".to_string(), b"Hello, Bridge!") {
        Message::Data { data } => {
            assert_eq!(data.bridge_id, "bridge-123");
            assert_eq!(data.payload, b"Hello, Bridge!".to_vec());
        }
        _ => panic!("expected DATA"),
    }
}

#[test]
fn answer_response_has_type_answer() {
    let a = AnswerResponse::answer("v=0".to_string());
    assert_eq!(a.sdp, "v=0");
    assert_eq!(a.sdp_type, "answer");
    let _unused: KeyedList<u8> = KeyedList::new();
}

#[test]
fn successive_reads_are_a_prefix_of_the_data() {
    // reads served as a bridge stream serves them: buffered bytes first,
    // else the next chunk
    let chunks: Vec<Vec<u8>> = vec![vec![1, 2, 3, 4, 5], vec![6], vec![7, 8, 9]];
    let rooms = [2usize, 2, 4, 1, 1, 8, 8];
    let mut rb = ReadBuffer::new();
    let mut next = 0;
    let mut read: Vec<u8> = Vec::new();
    let mut sizes = Vec::new();
    for room in rooms {
        let bytes = match rb.read_buffered(room) {
            Some(b) => b,
            None if next < chunks.len() => {
                next += 1;
                rb.take_incoming(&chunks[next - 1], room)
            }
            None => Vec::new(),
        };
        sizes.push(bytes.len());
        read.extend(bytes);
    }
    assert_eq!(sizes, vec![2, 2, 1, 1, 1, 2, 0]);
    assert_eq!(read, vec![1, 2, 3, 4, 5, 6, 7, 8, 9]);
}
