use kafka_shim::connection::{Action, ConnState, Connection, Event};
use kafka_shim::frame::{frame_length, read_frame, write_frame, FrameError};
use kafka_shim::model::{find, is_supported, versions, InvalidEnumVariant, KafkaApiKey, KafkaError};
use kafka_shim::protocol::{
    build_response, decode_fetch_topics, decode_header, encode_fetch_response, handle_request,
    process_api_versions, process_message, read_compact_count, write_compact_count, ProtocolError,
};

fn header(api_key: u16, api_version: u16, correlation_id: u32) -> Vec<u8> {
    let mut v = Vec::new();
    v.extend_from_slice(&api_key.to_be_bytes());
    v.extend_from_slice(&api_version.to_be_bytes());
    v.extend_from_slice(&correlation_id.to_be_bytes());
    v
}

fn fetch_request(correlation_id: u32, topics: &[(u128, usize)]) -> Vec<u8> {
    let mut v = header(1, 16, correlation_id);
    v.extend_from_slice(&3u16.to_be_bytes());
    v.extend_from_slice(b"cli");
    v.push(0);
    v.extend_from_slice(&[0u8; 21]);
    v.push(topics.len() as u8 + 1);
    for &(id, partitions) in topics {
        v.extend_from_slice(&id.to_be_bytes());
        v.push(partitions as u8 + 1);
        for p in 0..partitions {
            v.extend_from_slice(&(p as u32).to_be_bytes());
            v.extend_from_slice(&[0u8; 28]);
            v.push(0);
        }
        v.push(0);
    }
    v.push(1);
    v.push(1);
    v.push(0);
    v
}

fn expected_topic_entry(id: u128) -> Vec<u8> {
    let mut v = id.to_be_bytes().to_vec();
    v.push(2);
    v.extend_from_slice(&[0, 0, 0, 0]);
    v.extend_from_slice(&[0, 100]);
    v.extend_from_slice(&[0u8; 24]);
    v.push(0);
    v.extend_from_slice(&[0, 0, 0, 0]);
    v.extend_from_slice(&[1, 0, 0]);
    v
}

#[test]
fn api_versions_response_bytes() {
    let body = handle_request(header(18, 4, 7)).unwrap();
    let expected: Vec<u8> = vec![
        0, 0, 0, 7, 0, 0, 3, 0, 1, 0, 16, 0, 16, 0, 0, 18, 0, 4, 0, 4, 0, 0, 0, 0, 0, 0,
    ];
    assert_eq!(body, expected);
}

#[test]
fn unsupported_version_response_bytes() {
    let body = handle_request(header(18, 99, 42)).unwrap();
    assert_eq!(body, vec![0, 0, 0, 42, 0, 35]);
}

#[test]
fn unsupported_fetch_version_ignores_body() {
    let mut req = header(1, 3, 9);
    req.extend_from_slice(&[0xff, 0xff, 1, 2]);
    let framed = process_message(&req).unwrap();
    assert_eq!(framed, vec![0, 0, 0, 6, 0, 0, 0, 9, 0, 35]);
}

#[test]
fn fetch_with_no_topics() {
    let body = handle_request(fetch_request(5, &[])).unwrap();
    assert_eq!(body, vec![0, 0, 0, 5, 0, 0, 0, 0, 0, 0, 0, 0, 0, 0, 0, 1, 0]);
}

#[test]
fn fetch_with_one_topic_one_partition() {
    let x: u128 = 0x0123_4567_89ab_cdef_fedc_ba98_7654_3210;
    let body = handle_request(fetch_request(11, &[(x, 1)])).unwrap();
    assert_eq!(body.len(), 17 + 55);
    assert_eq!(body[15], 2);
    assert_eq!(&body[16..71], &expected_topic_entry(x)[..]);
    assert_eq!(&body[16 + 21..16 + 23], &[0, 100]);
    assert_eq!(body[71], 0);
}

#[test]
fn fetch_echoes_every_topic_in_order() {
    let topics = [(1u128, 0usize), (2, 3), (3, 1)];
    let body = handle_request(fetch_request(1, &topics)).unwrap();
    assert_eq!(body.len(), 17 + 3 * 55);
    assert_eq!(body[15], 4);
    for (i, &(id, _)) in topics.iter().enumerate() {
        assert_eq!(&body[16 + 55 * i..16 + 55 * (i + 1)], &expected_topic_entry(id)[..]);
    }
}

#[test]
fn fetch_with_trailing_bytes_is_rejected() {
    let mut req = fetch_request(1, &[(7, 1)]);
    req.push(0);
    assert_eq!(handle_request(req), Err(ProtocolError::TrailingBytes));
}

#[test]
fn fetch_cut_short_is_rejected() {
    let full = fetch_request(1, &[(7, 2)]);
    for cut in 0..full.len() {
        let r = handle_request(full[..cut].to_vec());
        assert!(r.is_err(), "accepted a request cut at {}", cut);
    }
    assert_eq!(handle_request(full[..full.len() - 1].to_vec()), Err(ProtocolError::Truncated));
}

#[test]
fn fetch_skips_forgotten_topics_and_rack_id() {
    let mut req = fetch_request(3, &[(9, 0)]);
    req.truncate(req.len() - 3);
    req.push(2);
    req.extend_from_slice(&[0xaa; 16]);
    req.push(3);
    req.extend_from_slice(&[0, 0, 0, 1, 0, 0, 0, 2]);
    req.push(0);
    req.push(4);
    req.extend_from_slice(b"rck");
    req.push(0);
    let ids = decode_fetch_topics(&req).unwrap();
    assert_eq!(ids, vec![9u128]);
}

#[test]
fn unknown_api_key_is_a_protocol_error() {
    assert_eq!(handle_request(header(3, 0, 1)), Err(ProtocolError::UnknownApiKey));
    assert_eq!(process_message(&header(77, 4, 1)), Err(ProtocolError::UnknownApiKey));
}

#[test]
fn short_header_is_truncated() {
    assert_eq!(handle_request(vec![0, 18, 0]), Err(ProtocolError::Truncated));
    assert_eq!(decode_header(&[]), Err(ProtocolError::Truncated));
}

#[test]
fn header_fields_are_big_endian() {
    let h = decode_header(&header(18, 4, 0x0102_0304)).unwrap();
    assert_eq!(h.api_key, KafkaApiKey::ApiVersions);
    assert_eq!(h.api_version, 4);
    assert_eq!(h.correlation_id, 0x0102_0304);
}

#[test]
fn process_message_frames_the_response() {
    let framed = process_message(&header(18, 4, 7)).unwrap();
    assert_eq!(&framed[..4], &[0, 0, 0, 26]);
    assert_eq!(&framed[4..], &handle_request(header(18, 4, 7)).unwrap()[..]);
}

#[test]
fn frame_round_trip() {
    for body in [vec![], vec![1u8], (0..=255u8).collect::<Vec<u8>>()] {
        let mut framed = write_frame(&body);
        assert_eq!(&framed[..4], &(body.len() as u32).to_be_bytes());
        framed.extend_from_slice(&[9, 9]);
        let (back, used) = read_frame(&framed).unwrap();
        assert_eq!(back, body);
        assert_eq!(used, body.len() + 4);
    }
}

#[test]
fn frame_errors() {
    assert_eq!(read_frame(&[]), Err(FrameError::IoClosed));
    assert_eq!(read_frame(&[0, 0, 1]), Err(FrameError::IoClosed));
    assert_eq!(read_frame(&[0, 0, 0, 3, 1, 2]), Err(FrameError::IoTruncated));
    assert_eq!(frame_length(&[0, 0, 1, 0]), Some(256));
    assert_eq!(frame_length(&[0, 0, 1]), None);
}

#[test]
fn registry_lookup() {
    let v = versions();
    assert_eq!(v.len(), 2);
    assert_eq!(v[0].api_key, KafkaApiKey::Fetch);
    assert_eq!((v[0].min_version, v[0].max_version), (16, 16));
    assert_eq!(v[1].api_key, KafkaApiKey::ApiVersions);
    assert_eq!((v[1].min_version, v[1].max_version), (4, 4));
    assert_eq!(find(KafkaApiKey::ApiVersions), Some(v[1]));
    assert!(is_supported(KafkaApiKey::Fetch, 16));
    assert!(!is_supported(KafkaApiKey::Fetch, 15));
    assert!(!is_supported(KafkaApiKey::ApiVersions, 5));
}

#[test]
fn enum_codes() {
    assert_eq!(KafkaApiKey::try_from_code(1), Ok(KafkaApiKey::Fetch));
    assert_eq!(KafkaApiKey::try_from_code(18), Ok(KafkaApiKey::ApiVersions));
    assert_eq!(KafkaApiKey::try_from_code(2), Err(InvalidEnumVariant));
    assert_eq!(KafkaApiKey::ApiVersions.code(), 18);
    assert_eq!(KafkaError::try_from_code(35), Ok(KafkaError::UnsupportedVersion));
    assert_eq!(KafkaError::try_from_code(100), Ok(KafkaError::UnknownTopic));
    assert_eq!(KafkaError::try_from_code(1), Err(InvalidEnumVariant));
    assert_eq!(KafkaError::UnknownTopic.code(), 100);
    assert_eq!(KafkaError::NoError.code(), 0);
}

#[test]
fn compact_counts() {
    assert_eq!(read_compact_count(0), 0);
    assert_eq!(read_compact_count(1), 0);
    assert_eq!(read_compact_count(255), 254);
    let mut v = vec![7u8];
    write_compact_count(&mut v, 2);
    assert_eq!(v, vec![7, 3]);
}

#[test]
fn builders_append_exact_bytes() {
    assert_eq!(build_response(0x0a0b0c0d, 35), vec![10, 11, 12, 13, 0, 35]);
    let mut v = vec![0xee];
    process_api_versions(&mut v, 1);
    assert_eq!(v.len(), 27);
    assert_eq!(v[0], 0xee);
    assert_eq!(&v[1..5], &[0, 0, 0, 1]);
    assert_eq!(encode_fetch_response(2, &vec![]), vec![0, 0, 0, 2, 0, 0, 0, 0, 0, 0, 0, 0, 0, 0, 0, 1, 0]);
}

#[test]
fn connection_runs_request_then_waits() {
    let (mut c, first) = Connection::new();
    assert_eq!(first, Action::ReadLength);
    let req = header(18, 4, 7);
    let a = c.step(Event::LengthRead((req.len() as u32).to_be_bytes().to_vec()));
    assert_eq!(a, Action::ReadBody(8));
    assert_eq!(c.state, ConnState::ProcessingFrame);
    let a = c.step(Event::BodyRead(req.clone()));
    assert_eq!(a, Action::Write(process_message(&req).unwrap()));
    let a = c.step(Event::Written);
    assert_eq!(a, Action::ReadLength);
    assert_eq!(c.state, ConnState::AwaitingFrame);
}

#[test]
fn connection_closes_on_errors() {
    let (mut c, _) = Connection::new();
    assert_eq!(c.step(Event::IoFailed), Action::Close);
    assert_eq!(c.state, ConnState::Closed);
    assert_eq!(c.step(Event::Written), Action::Close);

    let (mut c, _) = Connection::new();
    c.step(Event::LengthRead(vec![0, 0, 0, 8]));
    assert_eq!(c.step(Event::BodyRead(header(5, 0, 0))), Action::Close);
    assert_eq!(c.state, ConnState::Closed);
}
