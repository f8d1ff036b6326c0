use orb::h264::{DepacketizeError, H264Depacketizer};

#[test]
fn single_nal_unit_is_returned_unchanged() {
    let mut d = H264Depacketizer::new();
    let payload = [0x65u8, 1, 2, 3];
    let frame = d.push(&payload).unwrap().unwrap();
    assert_eq!(frame.data, vec![0x65, 1, 2, 3]);
}

#[test]
fn empty_payload_yields_nothing() {
    let mut d = H264Depacketizer::new();
    assert!(d.push(&[]).unwrap().is_none());
}

#[test]
fn reserved_types_yield_nothing() {
    let mut d = H264Depacketizer::new();
    assert!(d.push(&[0x00, 1, 2]).unwrap().is_none());
    assert!(d.push(&[0x19, 1, 2]).unwrap().is_none());
    assert!(d.push(&[0x1F, 1, 2]).unwrap().is_none());
}

#[test]
fn stap_a_units_get_start_codes() {
    let mut d = H264Depacketizer::new();
    // STAP-A header, then two units: [0x67, 0xAA] and [0x68, 0xBB, 0xCC]
    let payload = [0x18u8, 0x00, 0x02, 0x67, 0xAA, 0x00, 0x03, 0x68, 0xBB, 0xCC];
    let frame = d.push(&payload).unwrap().unwrap();
    assert_eq!(frame.data, vec![0, 0, 0, 1, 0x67, 0xAA, 0, 0, 0, 1, 0x68, 0xBB, 0xCC]);
}

#[test]
fn stap_a_stops_at_truncated_unit() {
    let mut d = H264Depacketizer::new();
    // second unit announces 5 bytes but only 1 follows
    let payload = [0x18u8, 0x00, 0x01, 0x67, 0x00, 0x05, 0x68];
    let frame = d.push(&payload).unwrap().unwrap();
    assert_eq!(frame.data, vec![0, 0, 0, 1, 0x67]);
}

#[test]
fn fu_a_fragments_are_reassembled() {
    let mut d = H264Depacketizer::new();
    // indicator: F=0, NRI=3, type 28; fragmented unit type 5
    let ind = 0x7Cu8;
    assert!(d.push(&[ind, 0x85, 1, 2]).unwrap().is_none());
    assert!(d.push(&[ind, 0x05, 3]).unwrap().is_none());
    let frame = d.push(&[ind, 0x45, 4, 5]).unwrap().unwrap();
    assert_eq!(frame.data, vec![0x65, 1, 2, 3, 4, 5]);
    // the buffer is empty again: a lone end fragment yields only its body
    let frame = d.push(&[ind, 0x45, 9]).unwrap().unwrap();
    assert_eq!(frame.data, vec![9]);
}

#[test]
fn fu_a_start_discards_earlier_fragments() {
    let mut d = H264Depacketizer::new();
    assert!(d.push(&[0x7C, 0x81, 7, 7]).unwrap().is_none());
    assert!(d.push(&[0x7C, 0x85, 1]).unwrap().is_none());
    let frame = d.push(&[0x7C, 0x45, 2]).unwrap().unwrap();
    assert_eq!(frame.data, vec![0x65, 1, 2]);
}

#[test]
fn fu_a_too_short_is_an_error() {
    let mut d = H264Depacketizer::new();
    assert!(matches!(d.push(&[0x1C]), Err(DepacketizeError::FuATooShort)));
}

#[test]
fn fu_a_run_takes_header_from_first_fragment() {
    let mut d = H264Depacketizer::new();
    // a stale fragment is buffered first
    assert!(d.push(&[0x7C, 0x81, 9, 9]).unwrap().is_none());
    // start fragment: F=0, NRI=2, type 5; later fragments carry other bits
    assert!(d.push(&[0x5C, 0x85, 1]).unwrap().is_none());
    assert!(d.push(&[0x7C, 0x01]).unwrap().is_none());
    assert!(d.push(&[0xFC, 0x1F, 2, 3]).unwrap().is_none());
    let frame = d.push(&[0x3C, 0x47, 4]).unwrap().unwrap();
    assert_eq!(frame.data, vec![0x45, 1, 2, 3, 4]);
    // nothing is left buffered
    assert_eq!(d.push(&[0x7C, 0x40]).unwrap().unwrap().data, Vec::<u8>::new());
}
