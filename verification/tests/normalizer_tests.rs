use keylogger::key_events::{
    normalize_event, KeyEventAction, KeyLogEvent, RawInputEvent, KEY_EVENT_TYPE_CODE,
};

fn raw(event_type_code: u16, value: i32, key_code: u16) -> RawInputEvent {
    RawInputEvent {
        event_type_code,
        value,
        key_code,
        time_sec: 10,
        time_usec: 20,
    }
}

#[test]
fn from_int_maps_the_three_action_codes() {
    assert_eq!(
        KeyEventAction::from_int(0),
        Some(KeyEventAction::KEY_RELEASE)
    );
    assert_eq!(KeyEventAction::from_int(1), Some(KeyEventAction::KEY_PRESS));
    assert_eq!(
        KeyEventAction::from_int(2),
        Some(KeyEventAction::KEY_REPEAT)
    );
    assert_eq!(KeyEventAction::from_int(3), None);
    assert_eq!(KeyEventAction::from_int(-1), None);
    assert_eq!(KeyEventAction::from_int(i32::MAX), None);
}

#[test]
fn press_and_release_survive() {
    let press = normalize_event(raw(KEY_EVENT_TYPE_CODE, 1, 30));
    assert_eq!(
        press,
        Some(KeyLogEvent {
            time_sec: 10,
            time_usec: 20,
            action: KeyEventAction::KEY_PRESS,
            code: 30,
        })
    );
    let release = normalize_event(raw(KEY_EVENT_TYPE_CODE, 0, 48));
    assert_eq!(
        release,
        Some(KeyLogEvent {
            time_sec: 10,
            time_usec: 20,
            action: KeyEventAction::KEY_RELEASE,
            code: 48,
        })
    );
}

#[test]
fn repeat_yields_nothing() {
    assert_eq!(normalize_event(raw(KEY_EVENT_TYPE_CODE, 2, 30)), None);
}

#[test]
fn unmapped_action_codes_yield_nothing() {
    assert_eq!(normalize_event(raw(KEY_EVENT_TYPE_CODE, 3, 30)), None);
    assert_eq!(normalize_event(raw(KEY_EVENT_TYPE_CODE, -1, 30)), None);
    assert_eq!(normalize_event(raw(KEY_EVENT_TYPE_CODE, 1000, 30)), None);
}

#[test]
fn non_key_events_yield_nothing_regardless_of_action() {
    for value in [0, 1, 2, 3] {
        assert_eq!(normalize_event(raw(0, value, 30)), None);
        assert_eq!(normalize_event(raw(2, value, 30)), None);
        assert_eq!(normalize_event(raw(17, value, 30)), None);
    }
}

#[test]
fn to_int_inverts_from_int() {
    for code in 0..3 {
        assert_eq!(KeyEventAction::from_int(code).unwrap().to_int(), code);
    }
}
