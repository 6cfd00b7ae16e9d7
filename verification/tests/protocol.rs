use atpp::{
    unpack_events, AtppAdapter, AtppDataPackage, AtppEndPackage, AtppError, AtppEvent,
    AtppHandle, AtppStartPackage,
};

fn token_a() -> Vec<u8> {
    vec![b'A'; 32]
}

fn start_bytes(timestamp: i64, token: &[u8], total_size: i64, slice_count: i32, slice_size: i32) -> Vec<u8> {
    let mut b = Vec::new();
    b.extend_from_slice(b"ATPP");
    b.push(1);
    b.extend_from_slice(&timestamp.to_be_bytes());
    b.extend_from_slice(token);
    b.extend_from_slice(&total_size.to_be_bytes());
    b.extend_from_slice(&slice_count.to_be_bytes());
    b.extend_from_slice(&slice_size.to_be_bytes());
    b
}

fn data_bytes(timestamp: i64, token: &[u8], slice_index: i32, slice_size: i32) -> Vec<u8> {
    let mut b = Vec::new();
    b.extend_from_slice(b"ATPP");
    b.push(2);
    b.extend_from_slice(&timestamp.to_be_bytes());
    b.extend_from_slice(token);
    b.extend_from_slice(&slice_index.to_be_bytes());
    b.extend_from_slice(&slice_size.to_be_bytes());
    b
}

fn end_bytes(timestamp: i64, token: &[u8]) -> Vec<u8> {
    let mut b = Vec::new();
    b.extend_from_slice(b"ATPP");
    b.push(3);
    b.extend_from_slice(&timestamp.to_be_bytes());
    b.extend_from_slice(token);
    b
}

fn event_summary(e: &AtppEvent) -> String {
    match e {
        AtppEvent::Start(p) => format!(
            "start {} {:?} {} {} {}",
            p.timestamp, p.token, p.total_size, p.slice_count, p.slice_size
        ),
        AtppEvent::Data(p, payload) => format!(
            "data {} {:?} {} {} {:?}",
            p.timestamp, p.token, p.slice_index, p.slice_size, payload
        ),
        AtppEvent::End(p) => format!("end {} {:?}", p.timestamp, p.token),
    }
}

#[test]
fn pack_start_exact_bytes() {
    let p = AtppStartPackage::new(1000, token_a(), 9, 1, 9);
    assert_eq!(p.pack(), start_bytes(1000, &token_a(), 9, 1, 9));
    assert_eq!(p.pack().len(), 61);
}

#[test]
fn pack_data_exact_bytes() {
    let p = AtppDataPackage::new(-7, token_a(), 3, 1024);
    assert_eq!(p.pack(), data_bytes(-7, &token_a(), 3, 1024));
    assert_eq!(p.pack().len(), 53);
}

#[test]
fn pack_end_exact_bytes() {
    let p = AtppEndPackage::new(i64::MIN, token_a());
    assert_eq!(p.pack(), end_bytes(i64::MIN, &token_a()));
    assert_eq!(p.pack().len(), 45);
}

#[test]
fn round_trip_start() {
    let buf = AtppStartPackage::new(123456789, token_a(), 99, 11, 9).pack();
    let (events, outcome) = unpack_events(&buf);
    assert_eq!(events.len(), 1);
    match &events[0] {
        AtppEvent::Start(p) => {
            assert_eq!(p.timestamp, 123456789);
            assert_eq!(p.token, token_a());
            assert_eq!(p.total_size, 99);
            assert_eq!(p.slice_count, 11);
            assert_eq!(p.slice_size, 9);
        }
        _ => panic!("expected a start event"),
    }
    assert_eq!(outcome.unwrap(), Vec::<u8>::new());
}

#[test]
fn round_trip_data_with_payload() {
    let mut buf = AtppDataPackage::new(-42, token_a(), 7, 5).pack();
    buf.extend_from_slice(b"hello");
    let (events, outcome) = unpack_events(&buf);
    assert_eq!(events.len(), 1);
    match &events[0] {
        AtppEvent::Data(p, payload) => {
            assert_eq!(p.timestamp, -42);
            assert_eq!(p.token, token_a());
            assert_eq!(p.slice_index, 7);
            assert_eq!(p.slice_size, 5);
            assert_eq!(payload, b"hello");
        }
        _ => panic!("expected a data event"),
    }
    assert_eq!(outcome.unwrap(), Vec::<u8>::new());
}

#[test]
fn round_trip_end() {
    let buf = AtppEndPackage::new(0, token_a()).pack();
    let (events, outcome) = unpack_events(&buf);
    assert_eq!(events.len(), 1);
    match &events[0] {
        AtppEvent::End(p) => {
            assert_eq!(p.timestamp, 0);
            assert_eq!(p.token, token_a());
        }
        _ => panic!("expected an end event"),
    }
    assert_eq!(outcome.unwrap(), Vec::<u8>::new());
}

#[test]
fn minimum_prefix_44_bytes_returned_whole() {
    let buf = vec![0xABu8; 44];
    let (events, outcome) = unpack_events(&buf);
    assert!(events.is_empty());
    assert_eq!(outcome.unwrap(), buf);
}

#[test]
fn empty_buffer_yields_empty_leftover() {
    let buf: Vec<u8> = Vec::new();
    let (events, outcome) = unpack_events(&buf);
    assert!(events.is_empty());
    assert_eq!(outcome.unwrap(), Vec::<u8>::new());
}

#[test]
fn data_payload_shortage_keeps_whole_packet() {
    let mut buf = data_bytes(5, &token_a(), 0, 9);
    buf.extend_from_slice(b"12345");
    let (events, outcome) = unpack_events(&buf);
    assert!(events.is_empty());
    assert_eq!(buf.len(), 58);
    assert_eq!(outcome.unwrap(), buf);
}

#[test]
fn data_payload_exactly_enough_is_consumed() {
    let mut buf = data_bytes(5, &token_a(), 0, 9);
    buf.extend_from_slice(b"123456789");
    let (events, outcome) = unpack_events(&buf);
    assert_eq!(events.len(), 1);
    assert_eq!(outcome.unwrap(), Vec::<u8>::new());
}

#[test]
fn corrupt_magic_is_fatal() {
    let mut buf = start_bytes(1, &token_a(), 1, 1, 1);
    buf[0] = b'X';
    let (events, outcome) = unpack_events(&buf);
    assert!(events.is_empty());
    match outcome {
        Err(AtppError::BrokeData(msg)) => assert_eq!(msg, "head wrong!"),
        _ => panic!("expected a fatal framing error"),
    }
}

#[test]
fn unknown_type_tag_is_fatal() {
    let mut buf = start_bytes(1, &token_a(), 1, 1, 1);
    buf[4] = 9;
    let (events, outcome) = unpack_events(&buf);
    assert!(events.is_empty());
    match outcome {
        Err(AtppError::BrokeData(msg)) => assert_eq!(msg, "type has error!"),
        _ => panic!("expected a fatal framing error"),
    }
}

#[test]
fn partial_start_header_kept_as_leftover() {
    let whole = start_bytes(77, &token_a(), 10, 2, 5);
    let prefix = whole[..50].to_vec();
    let (events, outcome) = unpack_events(&prefix);
    assert!(events.is_empty());
    assert_eq!(outcome.unwrap(), prefix);
}

#[test]
fn fragmentation_any_split_matches_whole() {
    let token = token_a();
    let mut whole = start_bytes(1000, &token, 9, 1, 9);
    let mut data = data_bytes(1000, &token, 0, 9);
    data.extend_from_slice(b"123456789");
    whole.extend_from_slice(&data);
    whole.extend_from_slice(&end_bytes(1000, &token));

    let (whole_events, whole_outcome) = unpack_events(&whole);
    let whole_summaries: Vec<String> = whole_events.iter().map(event_summary).collect();
    assert_eq!(whole_outcome.unwrap(), Vec::<u8>::new());

    for split in 0..whole.len() {
        let first = whole[..split].to_vec();
        let (events1, outcome1) = unpack_events(&first);
        let mut carry = outcome1.unwrap();
        carry.extend_from_slice(&whole[split..]);
        let (events2, outcome2) = unpack_events(&carry);
        let mut summaries: Vec<String> = events1.iter().map(event_summary).collect();
        summaries.extend(events2.iter().map(event_summary));
        assert_eq!(summaries, whole_summaries);
        assert_eq!(outcome2.unwrap(), Vec::<u8>::new());
    }
}

#[test]
fn concatenation_decodes_in_wire_order() {
    let token = token_a();
    let mut buf = end_bytes(3, &token);
    buf.extend_from_slice(&start_bytes(1, &token, 4, 2, 2));
    let mut data = data_bytes(2, &token, 1, 2);
    data.extend_from_slice(b"ok");
    buf.extend_from_slice(&data);
    let (events, outcome) = unpack_events(&buf);
    assert_eq!(events.len(), 3);
    assert!(matches!(events[0], AtppEvent::End(_)));
    assert!(matches!(events[1], AtppEvent::Start(_)));
    assert!(matches!(events[2], AtppEvent::Data(_, _)));
    assert_eq!(outcome.unwrap(), Vec::<u8>::new());
}

struct RecordingHandle;

impl AtppHandle<Vec<String>> for RecordingHandle {
    fn OnStart(&self, stream: &mut Vec<String>, pkg: AtppStartPackage) {
        stream.push(format!(
            "start {} {} {} {}",
            pkg.timestamp, pkg.total_size, pkg.slice_count, pkg.slice_size
        ));
    }

    fn OnData(&self, stream: &mut Vec<String>, pkg: AtppDataPackage, data: &mut Vec<u8>) {
        stream.push(format!(
            "data {} {} {:?}",
            pkg.timestamp, pkg.slice_index, data
        ));
    }

    fn OnEnd(&self, stream: &mut Vec<String>, pkg: AtppEndPackage) {
        stream.push(format!("end {}", pkg.timestamp));
    }
}

#[test]
fn adapter_scenario_start_data_end() {
    let token = b"AAAAAAAAAAAAAAAAAAAAAAAAAAAAAAAA".to_vec();
    let mut buf = AtppStartPackage::new(1000, token.clone(), 9, 1, 9).pack();
    assert_eq!(buf.len(), 61);
    buf.extend_from_slice(&AtppDataPackage::new(1000, token.clone(), 0, 9).pack());
    buf.extend_from_slice(b"123456789");
    buf.extend_from_slice(&AtppEndPackage::new(1000, token.clone()).pack());

    let handle = RecordingHandle;
    let adapter = AtppAdapter::new(&handle);
    let mut log: Vec<String> = Vec::new();
    let mut data = buf.clone();
    let r = adapter.unpack(&mut log, &mut data);
    assert_eq!(data, buf);
    assert_eq!(
        log,
        vec![
            "start 1000 9 1 9".to_string(),
            format!("data 1000 0 {:?}", b"123456789".to_vec()),
            "end 1000".to_string(),
        ]
    );
    match r {
        Ok(Some(leftover)) => assert_eq!(leftover, Vec::<u8>::new()),
        _ => panic!("expected an empty leftover"),
    }
}

#[test]
fn adapter_dispatches_prefix_before_fatal_error() {
    let token = token_a();
    let mut buf = end_bytes(8, &token);
    buf.extend_from_slice(b"XTPP");
    buf.extend_from_slice(&[0u8; 41]);

    let handle = RecordingHandle;
    let adapter = AtppAdapter::new(&handle);
    let mut log: Vec<String> = Vec::new();
    let mut data = buf.clone();
    let r = adapter.unpack(&mut log, &mut data);
    assert_eq!(log, vec!["end 8".to_string()]);
    match r {
        Err(AtppError::BrokeData(_)) => {}
        _ => panic!("expected a fatal framing error"),
    }
}

#[test]
fn read_big_endian_helpers() {
    let buf = vec![0xFF, 0xFF, 0xFF, 0xFF, 0xFF, 0xFF, 0xFF, 0xFE, 0x00, 0x00, 0x01, 0x02];
    assert_eq!(atpp::read_i64_be(&buf, 0), -2);
    assert_eq!(atpp::read_i32_be(&buf, 8), 258);
    assert_eq!(atpp::read_i32_be(&buf, 4), -2);
}

#[test]
fn constructors_keep_fields() {
    let s = AtppStartPackage::new(1, token_a(), 2, 3, 4);
    assert_eq!((s.timestamp, s.total_size, s.slice_count, s.slice_size), (1, 2, 3, 4));
    assert_eq!(s.token, token_a());
    let d = AtppDataPackage::new(5, token_a(), 6, 7);
    assert_eq!((d.timestamp, d.slice_index, d.slice_size), (5, 6, 7));
    let e = AtppEndPackage::new(8, token_a());
    assert_eq!(e.timestamp, 8);
    assert_eq!(e.token, token_a());
}
