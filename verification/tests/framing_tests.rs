use orb::framing::{encode_frame, frame_len, FrameError, MAX_FRAME_LEN};
use orb::io::FlushWriter;
use orb::bridge_manager::BridgeManager;
use orb::message::{ControlMessage, Message, Service};

#[test]
fn frame_has_big_endian_length_prefix() {
    let f = encode_frame(&[1, 2, 3]);
    assert_eq!(f, vec![0, 0, 0, 3, 1, 2, 3]);
    let header = [f[0], f[1], f[2], f[3]];
    assert_eq!(frame_len(header), Ok(3));
}

#[test]
fn oversized_frames_are_refused() {
    assert_eq!(frame_len([0, 0x10, 0, 0]), Ok(MAX_FRAME_LEN));
    assert_eq!(frame_len([0, 0x10, 0, 1]), Err(FrameError::TooLarge(MAX_FRAME_LEN + 1)));
    assert_eq!(frame_len([0xFF, 0xFF, 0xFF, 0xFF]), Err(FrameError::TooLarge(0xFFFF_FFFF)));
}

#[test]
fn flush_writer_wraps_and_unwraps() {
    let mut w = FlushWriter::new(vec![1u8]);
    w.inner_mut().push(2);
    assert_eq!(w.into_inner(), vec![1, 2]);
}

#[test]
fn fresh_ids_are_uuids() {
    let mut bm: BridgeManager<u32, u32> = BridgeManager::new();
    bm.register_node("node-001".to_string(), 7);
    let svc = Service {
        id: "echo".to_string(),
        svc_type: "tcp".to_string(),
        addr: "127.0.0.1".to_string(),
        port: 9999,
        path: String::new(),
        auth: None,
    };
    let (a, msg_a) = bm.create_bridge(&"node-001".to_string(), &svc, 1).unwrap();
    let (b, _) = bm.create_bridge(&"node-001".to_string(), &svc, 2).unwrap();
    assert_eq!(a.len(), 36);
    for (i, c) in a.chars().enumerate() {
        if i == 8 || i == 13 || i == 18 || i == 23 {
            assert_eq!(c, '-');
        } else {
            assert!(c.is_ascii_digit() || ('a'..='f').contains(&c));
        }
    }
    assert_eq!(a.chars().nth(14), Some('4'));
    assert!("89ab".contains(a.chars().nth(19).unwrap()));
    assert_ne!(a, b);
    match msg_a {
        Message::Control { control: ControlMessage::OpenBridge { bridge_id, msg_id, .. } } => {
            assert_eq!(bridge_id, a);
            assert_eq!(msg_id.len(), 36);
            assert_ne!(msg_id, a);
        }
        other => panic!("unexpected {:?}", other),
    }
}
