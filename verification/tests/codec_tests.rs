use keylogger::codec::{deserialize_events, serialize_events, KeyLogFormat};
use keylogger::compress::{compress_data, decompress_data, KeyLogCompressionMethod};
use keylogger::errors::KeyLogError;
use keylogger::key_events::{KeyEventAction, KeyLogEvent};

fn ev(sec: i64, usec: i64, action: KeyEventAction, code: u16) -> KeyLogEvent {
    KeyLogEvent {
        time_sec: sec,
        time_usec: usec,
        action,
        code,
    }
}

fn sample_events() -> Vec<KeyLogEvent> {
    vec![
        ev(1, 2, KeyEventAction::KEY_PRESS, 30),
        ev(1, 500_000, KeyEventAction::KEY_RELEASE, 30),
        ev(-5, 0, KeyEventAction::KEY_PRESS, 48),
        ev(i64::MAX, i64::MIN, KeyEventAction::KEY_REPEAT, 65535),
        ev(0, 0, KeyEventAction::KEY_RELEASE, 0),
    ]
}

#[test]
fn binary_serialize_empty_exact_bytes() {
    let events: Vec<KeyLogEvent> = vec![];
    let bytes = serialize_events(&events, KeyLogFormat::Binary).unwrap();
    assert_eq!(bytes, vec![0u8; 8]);
}

#[test]
fn binary_serialize_one_event_exact_bytes() {
    let events = vec![ev(1, 2, KeyEventAction::KEY_PRESS, 30)];
    let bytes = serialize_events(&events, KeyLogFormat::Binary).unwrap();
    let mut expected = vec![1u8, 0, 0, 0, 0, 0, 0, 0];
    expected.extend_from_slice(&[1, 0, 0, 0, 0, 0, 0, 0]);
    expected.extend_from_slice(&[2, 0, 0, 0, 0, 0, 0, 0]);
    expected.extend_from_slice(&[1, 0, 0, 0]);
    expected.extend_from_slice(&[30, 0]);
    assert_eq!(bytes, expected);
}

#[test]
fn binary_round_trip() {
    let events = sample_events();
    let bytes = serialize_events(&events, KeyLogFormat::Binary).unwrap();
    let back = deserialize_events(&bytes, KeyLogFormat::Binary).unwrap();
    assert_eq!(back, events);
}

#[test]
fn binary_round_trip_empty() {
    let events: Vec<KeyLogEvent> = vec![];
    let bytes = serialize_events(&events, KeyLogFormat::Binary).unwrap();
    let back = deserialize_events(&bytes, KeyLogFormat::Binary).unwrap();
    assert_eq!(back, events);
}

#[test]
fn binary_rejects_truncated_input() {
    let events = sample_events();
    let mut bytes = serialize_events(&events, KeyLogFormat::Binary).unwrap();
    bytes.pop();
    assert_eq!(
        deserialize_events(&bytes, KeyLogFormat::Binary),
        Err(KeyLogError::EncodingError)
    );
    assert_eq!(
        deserialize_events(&[], KeyLogFormat::Binary),
        Err(KeyLogError::EncodingError)
    );
    assert_eq!(
        deserialize_events(&[1, 2, 3], KeyLogFormat::Binary),
        Err(KeyLogError::EncodingError)
    );
}

#[test]
fn binary_rejects_unmapped_action_code() {
    let events = vec![ev(0, 0, KeyEventAction::KEY_RELEASE, 7)];
    let mut bytes = serialize_events(&events, KeyLogFormat::Binary).unwrap();
    // The action code occupies bytes 24..28 of a one-event chunk.
    bytes[24] = 3;
    assert_eq!(
        deserialize_events(&bytes, KeyLogFormat::Binary),
        Err(KeyLogError::EncodingError)
    );
}

#[test]
fn json_serialize_exact_text() {
    let events = vec![
        ev(1, 2, KeyEventAction::KEY_PRESS, 30),
        ev(-7, 0, KeyEventAction::KEY_RELEASE, 48),
    ];
    let bytes = serialize_events(&events, KeyLogFormat::Json).unwrap();
    let expected = "[{\"tv_sec\":1,\"tv_usec\":2,\"action\":1,\"code\":30},{\"tv_sec\":-7,\"tv_usec\":0,\"action\":0,\"code\":48}]";
    assert_eq!(String::from_utf8(bytes).unwrap(), expected);
}

#[test]
fn json_serialize_empty_exact_text() {
    let events: Vec<KeyLogEvent> = vec![];
    let bytes = serialize_events(&events, KeyLogFormat::Json).unwrap();
    assert_eq!(String::from_utf8(bytes).unwrap(), "[]");
}

#[test]
fn json_round_trip() {
    let events = sample_events();
    let bytes = serialize_events(&events, KeyLogFormat::Json).unwrap();
    let back = deserialize_events(&bytes, KeyLogFormat::Json).unwrap();
    assert_eq!(back, events);
}

#[test]
fn json_round_trip_empty() {
    let events: Vec<KeyLogEvent> = vec![];
    let bytes = serialize_events(&events, KeyLogFormat::Json).unwrap();
    let back = deserialize_events(&bytes, KeyLogFormat::Json).unwrap();
    assert_eq!(back, events);
}

#[test]
fn json_rejects_malformed_input() {
    for bad in [
        "",
        "[",
        "]",
        "{}",
        "[{}]",
        "[{\"tv_sec\":1}]",
        "[{\"tv_sec\":1,\"tv_usec\":2,\"action\":3,\"code\":30}]",
        "[{\"tv_sec\":01,\"tv_usec\":2,\"action\":1,\"code\":30}]",
        "[{\"tv_sec\":-0,\"tv_usec\":2,\"action\":1,\"code\":30}]",
        "[{\"tv_sec\":1,\"tv_usec\":2,\"action\":1,\"code\":65536}]",
        "[ {\"tv_sec\":1,\"tv_usec\":2,\"action\":1,\"code\":30}]",
        "[{\"tv_sec\":1,\"tv_usec\":2,\"action\":1,\"code\":30},]",
        "[{\"tv_sec\":1,\"tv_usec\":2,\"action\":1,\"code\":30}]x",
        "not json at all",
    ] {
        assert_eq!(
            deserialize_events(bad.as_bytes(), KeyLogFormat::Json),
            Err(KeyLogError::EncodingError),
            "accepted: {}",
            bad
        );
    }
}

#[test]
fn format_mismatch_is_encoding_error() {
    let events = sample_events();
    let json = serialize_events(&events, KeyLogFormat::Json).unwrap();
    assert_eq!(
        deserialize_events(&json, KeyLogFormat::Binary),
        Err(KeyLogError::EncodingError)
    );
}

#[test]
fn raw_compression_is_identity() {
    let data = vec![0u8, 1, 2, 250, 255];
    let compressed = compress_data(&data, KeyLogCompressionMethod::Raw).unwrap();
    assert_eq!(compressed, data);
    let back = decompress_data(&compressed, KeyLogCompressionMethod::Raw).unwrap();
    assert_eq!(back, data);
}

#[test]
fn zlib_round_trip() {
    let data: Vec<u8> = (0..2000u32).map(|i| (i % 251) as u8).collect();
    let compressed = compress_data(&data, KeyLogCompressionMethod::Zlib).unwrap();
    assert_ne!(compressed, data);
    let back = decompress_data(&compressed, KeyLogCompressionMethod::Zlib).unwrap();
    assert_eq!(back, data);
}

#[test]
fn zlib_round_trip_empty() {
    let data: Vec<u8> = vec![];
    let compressed = compress_data(&data, KeyLogCompressionMethod::Zlib).unwrap();
    let back = decompress_data(&compressed, KeyLogCompressionMethod::Zlib).unwrap();
    assert_eq!(back, data);
}

#[test]
fn zlib_rejects_garbage() {
    let garbage = vec![0u8, 1, 2, 3, 4, 5, 6, 7];
    assert_eq!(
        decompress_data(&garbage, KeyLogCompressionMethod::Zlib),
        Err(KeyLogError::CompressionError)
    );
}

#[test]
fn full_round_trip_every_configuration() {
    let events = sample_events();
    for format in [KeyLogFormat::Binary, KeyLogFormat::Json] {
        for method in [KeyLogCompressionMethod::Raw, KeyLogCompressionMethod::Zlib] {
            let serialized = serialize_events(&events, format).unwrap();
            let compressed = compress_data(&serialized, method).unwrap();
            let decompressed = decompress_data(&compressed, method).unwrap();
            let back = deserialize_events(&decompressed, format).unwrap();
            assert_eq!(back, events);
        }
    }
}

#[test]
fn defaults_are_binary_and_raw() {
    assert_eq!(KeyLogFormat::default(), KeyLogFormat::Binary);
    assert_eq!(
        KeyLogCompressionMethod::default(),
        KeyLogCompressionMethod::Raw
    );
}
