//! Domain event types and the normalizer for the raw device stream.

use vstd::prelude::*;

verus! {

/// What happened to a key, in the order of the device's action codes:
/// 0 is a release, 1 is a press, 2 is an auto-repeat.
#[allow(non_camel_case_types)]
#[derive(Copy, Clone, Debug, PartialEq, Eq, Structural)]
pub enum KeyEventAction {
    KEY_RELEASE,
    KEY_PRESS,
    KEY_REPEAT,
}

impl KeyEventAction {
    /// The integer code the device convention assigns to this action.
    pub open spec fn spec_code(self) -> int {
        match self {
            KeyEventAction::KEY_RELEASE => 0,
            KeyEventAction::KEY_PRESS => 1,
            KeyEventAction::KEY_REPEAT => 2,
        }
    }

    /// The action a raw integer code stands for, if any.
    pub open spec fn spec_from_int(code: int) -> Option<KeyEventAction> {
        if code == 0 {
            Some(KeyEventAction::KEY_RELEASE)
        } else if code == 1 {
            Some(KeyEventAction::KEY_PRESS)
        } else if code == 2 {
            Some(KeyEventAction::KEY_REPEAT)
        } else {
            None
        }
    }

    /// Maps a raw action code to its action: 0, 1 and 2 map to release,
    /// press and repeat; every other code maps to nothing.
    pub fn from_int(code: i32) -> (r: Option<KeyEventAction>)
        ensures
            r == Self::spec_from_int(code as int),
    {
        match code {
            0 => Some(KeyEventAction::KEY_RELEASE),
            1 => Some(KeyEventAction::KEY_PRESS),
            2 => Some(KeyEventAction::KEY_REPEAT),
            _ => None,
        }
    }

    /// The integer code of this action, inverse of `from_int` on 0..=2.
    pub fn to_int(self) -> (r: i32)
        ensures
            r as int == self.spec_code(),
    {
        match self {
            KeyEventAction::KEY_RELEASE => 0,
            KeyEventAction::KEY_PRESS => 1,
            KeyEventAction::KEY_REPEAT => 2,
        }
    }
}

/// One captured key press or release: the device-clock timestamp in
/// seconds and microseconds, the action, and the numeric key code.
#[derive(Copy, Clone, Debug, PartialEq, Eq, Structural)]
pub struct KeyLogEvent {
    pub time_sec: i64,
    pub time_usec: i64,
    pub action: KeyEventAction,
    pub code: u16,
}

/// A raw event as the device layer hands it over: the numeric event-type
/// tag, the raw action value, the key code, and the device timestamp.
#[derive(Copy, Clone, Debug, PartialEq, Eq, Structural)]
pub struct RawInputEvent {
    pub event_type_code: u16,
    pub value: i32,
    pub key_code: u16,
    pub time_sec: i64,
    pub time_usec: i64,
}

/// The event-type tag that marks a key event in the input convention.
pub const KEY_EVENT_TYPE_CODE: u16 = 1;

/// What the normalizer keeps of a raw event: a key event whose action
/// code means press or release becomes a domain event with the same
/// timestamp and key code; a repeat, an unmapped action code, or an event
/// of any other type becomes nothing.
pub open spec fn spec_normalize(ev: RawInputEvent) -> Option<KeyLogEvent> {
    if ev.event_type_code == KEY_EVENT_TYPE_CODE && (ev.value == 0 || ev.value == 1) {
        Some(
            KeyLogEvent {
                time_sec: ev.time_sec,
                time_usec: ev.time_usec,
                action: if ev.value == 1 {
                    KeyEventAction::KEY_PRESS
                } else {
                    KeyEventAction::KEY_RELEASE
                },
                code: ev.key_code,
            },
        )
    } else {
        None
    }
}

/// Stored-action invariant: whatever the normalizer lets through is a
/// press or a release — never a repeat — so no buffered or persisted
/// event carries the repeat action.
pub proof fn lemma_normalized_never_repeat(ev: RawInputEvent)
    ensures
        spec_normalize(ev) matches Some(e) ==> e.action != KeyEventAction::KEY_REPEAT,
{
}

/// Filters one raw event down to at most one domain event, as
/// [`spec_normalize`] says: only key events whose action is a press or a
/// release survive.
pub fn normalize_event(ev: RawInputEvent) -> (r: Option<KeyLogEvent>)
    ensures
        r == spec_normalize(ev),
{
    if ev.event_type_code != KEY_EVENT_TYPE_CODE {
        return None;
    }
    let action = KeyEventAction::from_int(ev.value);
    match action {
        Some(KeyEventAction::KEY_PRESS) | Some(KeyEventAction::KEY_RELEASE) => Some(
            KeyLogEvent {
                time_sec: ev.time_sec,
                time_usec: ev.time_usec,
                action: action.unwrap(),
                code: ev.key_code,
            },
        ),
        _ => None,
    }
}

} // verus!
