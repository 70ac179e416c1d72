//! One-shot conversion of a chunk's bytes between codec
//! configurations.

use vstd::prelude::*;
use crate::codec::{
    deserialize_events, lemma_serialize_round_trip, serialize_events, spec_serialize, KeyLogFormat,
};
use crate::compress::{compress_data, decompress_data, spec_compress, KeyLogCompressionMethod};
use crate::errors::KeyLogError;
use crate::key_events::KeyLogEvent;

verus! {

/// Converts the bytes of one persisted chunk: decompress with the
/// input method, deserialize with the input format, re-serialize and
/// re-compress with the output configuration. Every stage error aborts
/// the conversion with that stage's error and produces nothing. For
/// bytes that are a persisted chunk — the compressed image of a
/// serialization of some event sequence — the result is exactly the
/// bytes the output configuration would persist for the same sequence,
/// and with a raw output method success is owed.
pub fn convert_log_data(
    input: &[u8],
    input_format: KeyLogFormat,
    input_method: KeyLogCompressionMethod,
    output_format: KeyLogFormat,
    output_method: KeyLogCompressionMethod,
) -> (r: Result<Vec<u8>, KeyLogError>)
    ensures
        r matches Err(e) ==> (e == KeyLogError::CompressionError && input_method
            == KeyLogCompressionMethod::Zlib) || e == KeyLogError::EncodingError,
        forall|events: Seq<KeyLogEvent>|
            events.len() <= u64::MAX && input@ == spec_compress(
                #[trigger] spec_serialize(events, input_format),
                input_method,
            ) ==> (r matches Ok(v) && v@ == spec_compress(
                spec_serialize(events, output_format),
                output_method,
            )),
{
    let decompressed = match decompress_data(input, input_method) {
        Ok(v) => v,
        Err(e) => {
            return Err(e);
        },
    };
    let events = match deserialize_events(decompressed.as_slice(), input_format) {
        Ok(v) => v,
        Err(e) => {
            proof {
                assert forall|evs: Seq<KeyLogEvent>|
                    evs.len() <= u64::MAX && input@ == spec_compress(
                        #[trigger] spec_serialize(evs, input_format),
                        input_method,
                    ) implies false by {
                    lemma_serialize_round_trip(evs, input_format);
                }
            }
            return Err(e);
        },
    };
    let reserialized = serialize_events(&events, output_format).unwrap();
    let recompressed = compress_data(reserialized.as_slice(), output_method).unwrap();
    proof {
        assert forall|evs: Seq<KeyLogEvent>|
            evs.len() <= u64::MAX && input@ == spec_compress(
                #[trigger] spec_serialize(evs, input_format),
                input_method,
            ) implies recompressed@ == spec_compress(
            spec_serialize(evs, output_format),
            output_method,
        ) by {
            lemma_serialize_round_trip(evs, input_format);
            assert(decompressed@ == spec_serialize(evs, input_format));
            assert(events@ == evs);
        }
    }
    Ok(recompressed)
}

} // verus!
