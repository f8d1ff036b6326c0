use orb::rtp::{parameter_set_packet, sample_for, InterleavedDeframer, RtpIngest};

fn rtp(marker: bool, ts: u32, payload: &[u8]) -> Vec<u8> {
    let mut p = vec![0x80u8, if marker { 0x80 | 96 } else { 96 }, 0, 1];
    p.extend_from_slice(&ts.to_be_bytes());
    p.extend_from_slice(&[0, 0, 0, 0]);
    p.extend_from_slice(payload);
    p
}

#[test]
fn first_frame_has_zero_duration() {
    let mut ing = RtpIngest::new();
    let f = ing.ingest(&rtp(true, 1000, &[0x65, 1])).unwrap().unwrap();
    assert_eq!(f.data, vec![0x65, 1]);
    assert_eq!(f.duration_nanos, 0);
}

#[test]
fn marker_frame_duration_follows_90khz_clock() {
    let mut ing = RtpIngest::new();
    ing.ingest(&rtp(true, 1000, &[0x65])).unwrap();
    let f = ing.ingest(&rtp(true, 4000, &[0x41])).unwrap().unwrap();
    assert_eq!(f.duration_nanos, 3000u64 * 1_000_000_000 / 90000);
    // without marker: zero duration
    let f = ing.ingest(&rtp(false, 7000, &[0x41])).unwrap().unwrap();
    assert_eq!(f.duration_nanos, 0);
}

#[test]
fn implausible_timestamp_gap_defaults_to_33ms() {
    let mut ing = RtpIngest::new();
    ing.ingest(&rtp(true, 1000, &[0x65])).unwrap();
    let f = ing.ingest(&rtp(true, 1000, &[0x41])).unwrap().unwrap();
    assert_eq!(f.duration_nanos, 33_000_000);
    let f = ing.ingest(&rtp(true, 500, &[0x41])).unwrap().unwrap();
    assert_eq!(f.duration_nanos, 33_000_000);
}

#[test]
fn wrapping_timestamp_difference() {
    let mut ing = RtpIngest::new();
    ing.ingest(&rtp(true, u32::MAX - 99, &[0x65])).unwrap();
    let f = ing.ingest(&rtp(true, 2900, &[0x41])).unwrap().unwrap();
    assert_eq!(f.duration_nanos, 3000u64 * 1_000_000_000 / 90000);
}

#[test]
fn interleaved_rtcp_and_short_packets_are_skipped() {
    let mut ing = RtpIngest::new();
    let mut framed = vec![b'$', 1, 0, 13];
    framed.extend_from_slice(&rtp(true, 1, &[0x65]));
    assert!(ing.ingest(&framed).unwrap().is_none());
    assert!(ing.ingest(&[b'$', 0, 0]).unwrap().is_none());
    assert!(ing.ingest(&[0x80, 96, 0]).unwrap().is_none());
    let mut framed = vec![b'$', 0, 0, 13];
    framed.extend_from_slice(&rtp(true, 1, &[0x65]));
    let f = ing.ingest(&framed).unwrap().unwrap();
    assert_eq!(f.data, vec![0x65]);
}

#[test]
fn depacketizer_error_is_passed_on() {
    let mut ing = RtpIngest::new();
    assert!(ing.ingest(&rtp(true, 1, &[0x1C])).is_err());
}

#[test]
fn sample_data_prefixes_start_code_except_stap_a() {
    assert_eq!(sample_for(&[0x65, 1], false), Some(vec![0, 0, 0, 1, 0x65, 1]));
    assert_eq!(sample_for(&[0, 0, 0, 1, 0x68], true), Some(vec![0, 0, 0, 1, 0x68]));
    assert_eq!(sample_for(&[], false), None);
    assert_eq!(sample_for(&[], true), None);
}

#[test]
fn stap_a_sample_has_one_start_code_per_unit() {
    let data = [0x80, 0xE0, 0, 1, 0, 0, 0, 0, 0, 0, 0, 0, 0x18, 0x00, 0x01, 0x68];
    let mut ing = RtpIngest::new();
    let f = ing.ingest(&data).unwrap().unwrap();
    assert!(f.aggregated);
    assert_eq!(f.duration_nanos, 0);
    assert_eq!(sample_for(&f.data, f.aggregated), Some(vec![0, 0, 0, 1, 0x68]));
}

#[test]
fn single_unit_sample_gets_a_start_code() {
    let data = [0x80, 0xE0, 0, 1, 0, 0, 0, 0, 0, 0, 0, 0, 0x65, 7];
    let mut ing = RtpIngest::new();
    let f = ing.ingest(&data).unwrap().unwrap();
    assert!(!f.aggregated);
    assert_eq!(sample_for(&f.data, f.aggregated), Some(vec![0, 0, 0, 1, 0x65, 7]));
}

#[test]
fn parameter_sets_travel_as_stap_a() {
    let sps = vec![0x67u8, 1, 2];
    let pps = vec![0x68u8, 3];
    let pkt = parameter_set_packet(&vec![sps.clone(), pps.clone()]);
    assert_eq!(&pkt[..12], &[0x80, 96, 0, 0, 0, 0, 0, 0, 0, 0, 0, 0]);
    assert_eq!(&pkt[12..], &[24, 0, 3, 0x67, 1, 2, 0, 2, 0x68, 3]);
    let mut ing = RtpIngest::new();
    let f = ing.ingest(&pkt).unwrap().unwrap();
    assert_eq!(f.data, vec![0, 0, 0, 1, 0x67, 1, 2, 0, 0, 0, 1, 0x68, 3]);
    assert!(f.aggregated);
    assert_eq!(sample_for(&f.data, f.aggregated), Some(f.data.clone()));
}

#[test]
fn deframer_splits_and_resyncs() {
    let mut d = InterleavedDeframer::new();
    d.push_bytes(&[9, 9, b'$', 0, 0, 2, 0xAA, 0xBB, b'$', 1, 0, 1]);
    assert_eq!(d.next_packet(), Some(vec![b'$', 0, 0, 2, 0xAA, 0xBB]));
    // second frame incomplete
    assert_eq!(d.next_packet(), None);
    d.push_bytes(&[0xCC]);
    assert_eq!(d.next_packet(), Some(vec![b'$', 1, 0, 1, 0xCC]));
    assert_eq!(d.next_packet(), None);
}

#[test]
fn deframer_drops_garbage_without_dollar() {
    let mut d = InterleavedDeframer::new();
    d.push_bytes(&[1, 2, 3, 4, 5]);
    assert_eq!(d.next_packet(), None);
    d.push_bytes(&[b'$', 0, 0, 0]);
    assert_eq!(d.next_packet(), Some(vec![b'$', 0, 0, 0]));
}
