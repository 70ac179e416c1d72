//! Serialization format selection and the event codec entry points.

use vstd::prelude::*;
use crate::binary_codec;
use crate::errors::KeyLogError;
use crate::json_codec;
use crate::key_events::KeyLogEvent;

verus! {

/// How a sequence of events is serialized to bytes: the compact binary
/// framing, or self-describing JSON text.
#[derive(Copy, Clone, Debug, PartialEq, Eq, Structural)]
pub enum KeyLogFormat {
    Binary,
    Json,
}

impl Default for KeyLogFormat {
    /// The default serialization format is the binary framing.
    fn default() -> (r: Self)
        ensures
            r == KeyLogFormat::Binary,
    {
        KeyLogFormat::Binary
    }
}

/// The bytes of the serialization of `events` under `format`.
pub open spec fn spec_serialize(events: Seq<KeyLogEvent>, format: KeyLogFormat) -> Seq<u8> {
    match format {
        KeyLogFormat::Binary => binary_codec::spec_encode_binary(events),
        KeyLogFormat::Json => json_codec::spec_encode_json(events),
    }
}

/// The event sequence `data` stands for under `format`, if `data` is
/// exactly the serialization of one.
pub open spec fn spec_deserialize(data: Seq<u8>, format: KeyLogFormat) -> Option<
    Seq<KeyLogEvent>,
> {
    match format {
        KeyLogFormat::Binary => binary_codec::spec_decode_binary(data),
        KeyLogFormat::Json => json_codec::spec_decode_json(data),
    }
}

/// Serializes an event sequence under `format`. Serialization itself
/// never fails: the result is always `Ok`, and its bytes are exactly
/// [`spec_serialize`] of the sequence.
pub fn serialize_events(events: &Vec<KeyLogEvent>, format: KeyLogFormat) -> (r: Result<
    Vec<u8>,
    KeyLogError,
>)
    ensures
        r matches Ok(v) && v@ == spec_serialize(events@, format),
{
    match format {
        KeyLogFormat::Binary => Ok(binary_codec::encode_binary(events)),
        KeyLogFormat::Json => Ok(json_codec::encode_json(events)),
    }
}

/// Deserializes bytes under `format`: returns the event sequence the
/// bytes serialize, and `EncodingError` exactly when the bytes are not
/// the serialization of any sequence under that format.
pub fn deserialize_events(data: &[u8], format: KeyLogFormat) -> (r: Result<
    Vec<KeyLogEvent>,
    KeyLogError,
>)
    ensures
        match spec_deserialize(data@, format) {
            Some(es) => r matches Ok(v) && v@ == es,
            None => r == Err::<Vec<KeyLogEvent>, KeyLogError>(KeyLogError::EncodingError),
        },
{
    match format {
        KeyLogFormat::Binary => binary_codec::decode_binary(data),
        KeyLogFormat::Json => json_codec::decode_json(data),
    }
}

/// The serialization codec round-trips: under either format, decoding
/// the serialization of any event sequence (one whose length fits the
/// binary framing's 64-bit count) yields that sequence back.
pub proof fn lemma_serialize_round_trip(events: Seq<KeyLogEvent>, format: KeyLogFormat)
    requires
        events.len() <= u64::MAX,
    ensures
        spec_deserialize(spec_serialize(events, format), format) == Some(events),
{
    match format {
        KeyLogFormat::Binary => binary_codec::lemma_binary_round_trip(events),
        KeyLogFormat::Json => json_codec::lemma_json_round_trip(events),
    }
}

} // verus!
