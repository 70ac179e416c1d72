use keylogger::chunk_writer::{EventChunkWriter, WriteOutcome, DEFAULT_MAX_CHUNK_SIZE};
use keylogger::codec::{deserialize_events, KeyLogFormat};
use keylogger::compress::KeyLogCompressionMethod;
use keylogger::convert::convert_log_data;
use keylogger::errors::KeyLogError;
use keylogger::key_events::{KeyEventAction, KeyLogEvent};

fn ev(sec: i64, action: KeyEventAction, code: u16) -> KeyLogEvent {
    KeyLogEvent {
        time_sec: sec,
        time_usec: 0,
        action,
        code,
    }
}

fn writer(max: usize) -> EventChunkWriter {
    EventChunkWriter::new(
        String::from("out"),
        max,
        KeyLogFormat::Binary,
        KeyLogCompressionMethod::Raw,
    )
}

#[test]
fn default_chunk_size_matches_configuration() {
    assert_eq!(DEFAULT_MAX_CHUNK_SIZE, 10240);
}

#[test]
fn adding_one_below_the_bound_signals_no_flush() {
    let mut w = writer(3);
    assert!(!w.add(ev(1, KeyEventAction::KEY_PRESS, 30)));
    assert!(!w.add(ev(2, KeyEventAction::KEY_RELEASE, 30)));
    assert_eq!(w.buffer.len(), 2);
}

#[test]
fn adding_the_bounding_event_signals_exactly_one_flush() {
    let mut w = writer(3);
    let mut flushes = 0;
    for i in 0..3 {
        if w.add(ev(i, KeyEventAction::KEY_PRESS, 30)) {
            flushes += 1;
            assert_eq!(w.prepare_flush(1000).unwrap().is_some(), true);
            w.finish_flush(WriteOutcome::Created).unwrap();
        }
    }
    assert_eq!(flushes, 1);
    assert_eq!(w.buffer.len(), 0);
}

#[test]
fn flush_on_empty_buffer_is_a_successful_no_op() {
    let w = writer(3);
    assert!(w.prepare_flush(1000).unwrap().is_none());
}

#[test]
fn failed_write_keeps_every_event_in_order() {
    let mut w = writer(10);
    let events = vec![
        ev(1, KeyEventAction::KEY_PRESS, 30),
        ev(2, KeyEventAction::KEY_RELEASE, 30),
        ev(3, KeyEventAction::KEY_PRESS, 48),
    ];
    for e in &events {
        w.add(*e);
    }
    let plan = w.prepare_flush(1000).unwrap().unwrap();
    assert!(!plan.payload.is_empty());
    assert_eq!(
        w.finish_flush(WriteOutcome::WriteFailed),
        Err(KeyLogError::PersistenceError)
    );
    assert_eq!(w.buffer, events);
    // The next, successful attempt still persists exactly these events.
    let retry = w.prepare_flush(1000).unwrap().unwrap();
    assert_eq!(retry.payload, plan.payload);
    w.finish_flush(WriteOutcome::Created).unwrap();
    assert!(w.buffer.is_empty());
}

#[test]
fn colliding_timestamps_name_the_same_path_and_fail_the_second_flush() {
    let mut w = writer(10);
    w.add(ev(1, KeyEventAction::KEY_PRESS, 30));
    let first = w.prepare_flush(1_700_000_000).unwrap().unwrap();
    w.finish_flush(WriteOutcome::Created).unwrap();
    w.add(ev(2, KeyEventAction::KEY_RELEASE, 30));
    let second = w.prepare_flush(1_700_000_000).unwrap().unwrap();
    assert_eq!(first.path, second.path);
    assert_eq!(
        w.finish_flush(WriteOutcome::AlreadyExists),
        Err(KeyLogError::PersistenceError)
    );
    assert_eq!(w.buffer, vec![ev(2, KeyEventAction::KEY_RELEASE, 30)]);
}

#[test]
fn flush_path_is_the_formatted_timestamp() {
    let mut w = writer(10);
    w.add(ev(1, KeyEventAction::KEY_PRESS, 30));
    let plan = w.prepare_flush(0).unwrap().unwrap();
    assert_eq!(plan.path, "out/1970-01-01T00:00:00.log");
    let plan2 = w.prepare_flush(1_600_000_000).unwrap().unwrap();
    assert_eq!(plan2.path, "out/2020-09-13T12:26:40.log");
}

#[test]
fn binary_raw_flush_payload_reproduces_the_events() {
    let mut w = writer(10);
    let events = vec![
        ev(1, KeyEventAction::KEY_PRESS, 30),
        ev(2, KeyEventAction::KEY_RELEASE, 30),
        ev(3, KeyEventAction::KEY_PRESS, 48),
    ];
    for e in &events {
        w.add(*e);
    }
    let plan = w.prepare_flush(1000).unwrap().unwrap();
    let back = deserialize_events(&plan.payload, KeyLogFormat::Binary).unwrap();
    assert_eq!(back, events);
}

#[test]
fn zlib_chunk_converts_to_json_raw() {
    let mut w = EventChunkWriter::new(
        String::from("out"),
        10,
        KeyLogFormat::Binary,
        KeyLogCompressionMethod::Zlib,
    );
    let events = vec![
        ev(1, KeyEventAction::KEY_PRESS, 30),
        ev(2, KeyEventAction::KEY_RELEASE, 30),
    ];
    for e in &events {
        w.add(*e);
    }
    let plan = w.prepare_flush(1000).unwrap().unwrap();
    let converted = convert_log_data(
        &plan.payload,
        KeyLogFormat::Binary,
        KeyLogCompressionMethod::Zlib,
        KeyLogFormat::Json,
        KeyLogCompressionMethod::Raw,
    )
    .unwrap();
    // The converted bytes are valid JSON text decoding to the same events.
    let value: serde_json::Value = serde_json::from_slice(&converted).unwrap();
    assert!(value.is_array());
    assert_eq!(value.as_array().unwrap().len(), 2);
    let back = deserialize_events(&converted, KeyLogFormat::Json).unwrap();
    assert_eq!(back, events);
}

#[test]
fn convert_rejects_a_wrongly_declared_input() {
    let garbage = vec![9u8, 9, 9, 9];
    assert_eq!(
        convert_log_data(
            &garbage,
            KeyLogFormat::Binary,
            KeyLogCompressionMethod::Raw,
            KeyLogFormat::Json,
            KeyLogCompressionMethod::Raw,
        ),
        Err(KeyLogError::EncodingError)
    );
    assert_eq!(
        convert_log_data(
            &garbage,
            KeyLogFormat::Binary,
            KeyLogCompressionMethod::Zlib,
            KeyLogFormat::Json,
            KeyLogCompressionMethod::Raw,
        ),
        Err(KeyLogError::CompressionError)
    );
}

#[test]
fn convert_between_all_configurations_round_trips() {
    let events = vec![
        ev(-1, KeyEventAction::KEY_PRESS, 30),
        ev(7, KeyEventAction::KEY_RELEASE, 48),
    ];
    let configurations = [
        (KeyLogFormat::Binary, KeyLogCompressionMethod::Raw),
        (KeyLogFormat::Binary, KeyLogCompressionMethod::Zlib),
        (KeyLogFormat::Json, KeyLogCompressionMethod::Raw),
        (KeyLogFormat::Json, KeyLogCompressionMethod::Zlib),
    ];
    for (in_fmt, in_method) in configurations {
        for (out_fmt, out_method) in configurations {
            let mut w =
                EventChunkWriter::new(String::from("out"), 10, in_fmt, in_method);
            for e in &events {
                w.add(*e);
            }
            let plan = w.prepare_flush(1000).unwrap().unwrap();
            let converted =
                convert_log_data(&plan.payload, in_fmt, in_method, out_fmt, out_method)
                    .unwrap();
            let decompressed = keylogger::compress::decompress_data(&converted, out_method)
                .unwrap();
            let back = deserialize_events(&decompressed, out_fmt).unwrap();
            assert_eq!(back, events);
        }
    }
}

#[test]
fn zero_bound_makes_every_add_flush_due() {
    let mut w = writer(0);
    assert!(w.add(ev(1, KeyEventAction::KEY_PRESS, 30)));
    assert!(w.add(ev(2, KeyEventAction::KEY_RELEASE, 30)));
}
