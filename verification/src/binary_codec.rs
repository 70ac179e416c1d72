//! The binary serialization of event sequences.
//!
//! Compact, non-self-describing framing: a little-endian 64-bit event
//! count, then one fixed 22-byte record per event — the seconds and
//! microseconds as two's-complement 64-bit values, the 32-bit action
//! code, and the 16-bit key code, all little-endian. A reader must
//! already know that the bytes use this format.

use vstd::prelude::*;
use vstd::bytes::{
    lemma_auto_spec_u16_to_from_le_bytes, lemma_auto_spec_u32_to_from_le_bytes,
    lemma_auto_spec_u64_to_from_le_bytes, spec_u16_from_le_bytes, spec_u16_to_le_bytes,
    spec_u32_from_le_bytes, spec_u32_to_le_bytes, spec_u64_from_le_bytes, spec_u64_to_le_bytes,
    u16_from_le_bytes, u16_to_le_bytes, u32_from_le_bytes, u32_to_le_bytes, u64_from_le_bytes,
    u64_to_le_bytes,
};
use vstd::slice::slice_subrange;
use crate::errors::KeyLogError;
use crate::key_events::{KeyEventAction, KeyLogEvent};

verus! {

/// Bytes of one serialized event record.
pub const EVENT_RECORD_BYTES: usize = 22;

/// Two's-complement 64-bit image of a signed value.
pub open spec fn spec_i64_to_u64(x: i64) -> u64 {
    if x >= 0 {
        x as u64
    } else {
        (x + 0x1_0000_0000_0000_0000) as u64
    }
}

/// Signed value of a two's-complement 64-bit image.
pub open spec fn spec_u64_to_i64(x: u64) -> i64 {
    if x < 0x8000_0000_0000_0000 {
        x as i64
    } else {
        (x - 0x1_0000_0000_0000_0000) as i64
    }
}

proof fn lemma_i64_u64_roundtrip(x: i64)
    ensures
        spec_u64_to_i64(spec_i64_to_u64(x)) == x,
{
}

/// The 22 bytes of one event's record.
pub open spec fn spec_event_record(e: KeyLogEvent) -> Seq<u8> {
    spec_u64_to_le_bytes(spec_i64_to_u64(e.time_sec))
        + spec_u64_to_le_bytes(spec_i64_to_u64(e.time_usec)) + spec_u32_to_le_bytes(
        e.action.spec_code() as u32,
    ) + spec_u16_to_le_bytes(e.code)
}

/// The concatenated records of an event sequence.
pub open spec fn spec_records(events: Seq<KeyLogEvent>) -> Seq<u8>
    decreases events.len(),
{
    if events.len() == 0 {
        Seq::empty()
    } else {
        spec_event_record(events[0]) + spec_records(events.skip(1))
    }
}

/// The bytes of the binary serialization of an event sequence.
pub open spec fn spec_encode_binary(events: Seq<KeyLogEvent>) -> Seq<u8> {
    spec_u64_to_le_bytes(events.len() as u64) + spec_records(events)
}

proof fn lemma_record_len(e: KeyLogEvent)
    ensures
        spec_event_record(e).len() == EVENT_RECORD_BYTES,
{
    lemma_auto_spec_u64_to_from_le_bytes();
    lemma_auto_spec_u32_to_from_le_bytes();
    lemma_auto_spec_u16_to_from_le_bytes();
}

proof fn lemma_records_len(events: Seq<KeyLogEvent>)
    ensures
        spec_records(events).len() == EVENT_RECORD_BYTES * events.len(),
    decreases events.len(),
{
    if events.len() > 0 {
        lemma_record_len(events[0]);
        lemma_records_len(events.skip(1));
    }
}

proof fn lemma_records_snoc(events: Seq<KeyLogEvent>, e: KeyLogEvent)
    ensures
        spec_records(events.push(e)) == spec_records(events) + spec_event_record(e),
    decreases events.len(),
{
    let p = events.push(e);
    if events.len() == 0 {
        assert(p[0] == e);
        assert(p.skip(1) =~= Seq::<KeyLogEvent>::empty());
        assert(spec_records(p) == spec_event_record(e) + spec_records(Seq::<KeyLogEvent>::empty()));
        assert(spec_records(p) =~= spec_records(events) + spec_event_record(e));
    } else {
        assert(p[0] == events[0]);
        assert(p.skip(1) =~= events.skip(1).push(e));
        lemma_records_snoc(events.skip(1), e);
        assert(spec_records(p) == spec_event_record(events[0]) + spec_records(
            events.skip(1).push(e),
        ));
        assert(spec_records(p) =~= spec_records(events) + spec_event_record(e));
    }
}

fn i64_to_u64(x: i64) -> (r: u64)
    ensures
        r == spec_i64_to_u64(x),
{
    if x >= 0 {
        x as u64
    } else {
        ((x as i128) + 0x1_0000_0000_0000_0000i128) as u64
    }
}

fn u64_to_i64(x: u64) -> (r: i64)
    ensures
        r == spec_u64_to_i64(x),
{
    if x < 0x8000_0000_0000_0000 {
        x as i64
    } else {
        ((x as i128) - 0x1_0000_0000_0000_0000i128) as i64
    }
}

fn encode_record(e: KeyLogEvent) -> (r: Vec<u8>)
    ensures
        r@ == spec_event_record(e),
{
    let mut out = u64_to_le_bytes(i64_to_u64(e.time_sec));
    let mut part = u64_to_le_bytes(i64_to_u64(e.time_usec));
    out.append(&mut part);
    let mut part = u32_to_le_bytes(e.action.to_int() as u32);
    out.append(&mut part);
    let mut part = u16_to_le_bytes(e.code);
    out.append(&mut part);
    proof {
        assert(out@ =~= spec_event_record(e));
    }
    out
}

/// Serializes an event sequence in the binary framing; the result is
/// exactly [`spec_encode_binary`] of the sequence.
pub fn encode_binary(events: &Vec<KeyLogEvent>) -> (r: Vec<u8>)
    ensures
        r@ == spec_encode_binary(events@),
{
    let n = events.len();
    let mut out = u64_to_le_bytes(n as u64);
    let mut i: usize = 0;
    while i < n
        invariant
            i <= n,
            n == events@.len(),
            out@ == spec_u64_to_le_bytes(events@.len() as u64) + spec_records(
                events@.take(i as int),
            ),
        decreases n - i,
    {
        let mut rec = encode_record(events[i]);
        out.append(&mut rec);
        proof {
            assert(events@.take(i + 1) =~= events@.take(i as int).push(events@[i as int]));
            lemma_records_snoc(events@.take(i as int), events@[i as int]);
            assert(out@ =~= spec_u64_to_le_bytes(events@.len() as u64) + spec_records(
                events@.take(i + 1),
            ));
        }
        i = i + 1;
    }
    proof {
        assert(events@.take(n as int) =~= events@);
    }
    out
}

/// The event a 22-byte record stands for, if its action code is mapped.
pub open spec fn spec_decode_record(b: Seq<u8>) -> Option<KeyLogEvent> {
    if b.len() == EVENT_RECORD_BYTES {
        let sec = spec_u64_to_i64(spec_u64_from_le_bytes(b.subrange(0, 8)));
        let usec = spec_u64_to_i64(spec_u64_from_le_bytes(b.subrange(8, 16)));
        let act = spec_u32_from_le_bytes(b.subrange(16, 20));
        let code = spec_u16_from_le_bytes(b.subrange(20, 22));
        match KeyEventAction::spec_from_int(act as int) {
            Some(action) => Some(
                KeyLogEvent { time_sec: sec, time_usec: usec, action, code },
            ),
            None => None,
        }
    } else {
        None
    }
}

/// The events that `n` consecutive records stand for, if `data` is
/// exactly `n` well-formed records.
pub open spec fn spec_decode_records(data: Seq<u8>, n: nat) -> Option<Seq<KeyLogEvent>>
    decreases n,
{
    if n == 0 {
        if data.len() == 0 {
            Some(Seq::empty())
        } else {
            None
        }
    } else if data.len() < EVENT_RECORD_BYTES {
        None
    } else {
        match spec_decode_record(data.take(EVENT_RECORD_BYTES as int)) {
            Some(e) => match spec_decode_records(
                data.skip(EVENT_RECORD_BYTES as int),
                (n - 1) as nat,
            ) {
                Some(rest) => Some(Seq::empty().push(e) + rest),
                None => None,
            },
            None => None,
        }
    }
}

/// The event sequence binary bytes stand for, if they are exactly the
/// binary serialization of one.
pub open spec fn spec_decode_binary(data: Seq<u8>) -> Option<Seq<KeyLogEvent>> {
    if data.len() < 8 {
        None
    } else {
        spec_decode_records(data.skip(8), spec_u64_from_le_bytes(data.take(8)) as nat)
    }
}

proof fn lemma_decode_records_shape(data: Seq<u8>, n: nat)
    ensures
        spec_decode_records(data, n) matches Some(es) ==> es.len() == n && data.len()
            == EVENT_RECORD_BYTES * n,
    decreases n,
{
    if n > 0 && data.len() >= EVENT_RECORD_BYTES {
        lemma_decode_records_shape(data.skip(EVENT_RECORD_BYTES as int), (n - 1) as nat);
    }
}

proof fn lemma_decode_record_of_encode(e: KeyLogEvent)
    ensures
        spec_decode_record(spec_event_record(e)) == Some(e),
{
    lemma_auto_spec_u64_to_from_le_bytes();
    lemma_auto_spec_u32_to_from_le_bytes();
    lemma_auto_spec_u16_to_from_le_bytes();
    let b = spec_event_record(e);
    assert(b.subrange(0, 8) =~= spec_u64_to_le_bytes(spec_i64_to_u64(e.time_sec)));
    assert(b.subrange(8, 16) =~= spec_u64_to_le_bytes(spec_i64_to_u64(e.time_usec)));
    assert(b.subrange(16, 20) =~= spec_u32_to_le_bytes(e.action.spec_code() as u32));
    assert(b.subrange(20, 22) =~= spec_u16_to_le_bytes(e.code));
    lemma_i64_u64_roundtrip(e.time_sec);
    lemma_i64_u64_roundtrip(e.time_usec);
}

proof fn lemma_decode_records_of_encode(events: Seq<KeyLogEvent>)
    ensures
        spec_decode_records(spec_records(events), events.len()) == Some(events),
    decreases events.len(),
{
    if events.len() == 0 {
        assert(spec_decode_records(spec_records(events), 0) =~= Some(Seq::<KeyLogEvent>::empty()));
        assert(events =~= Seq::<KeyLogEvent>::empty());
    } else {
        let data = spec_records(events);
        let head = spec_event_record(events[0]);
        let tail = spec_records(events.skip(1));
        lemma_record_len(events[0]);
        assert(data.take(EVENT_RECORD_BYTES as int) =~= head);
        assert(data.skip(EVENT_RECORD_BYTES as int) =~= tail);
        lemma_decode_record_of_encode(events[0]);
        lemma_decode_records_of_encode(events.skip(1));
        assert(Seq::empty().push(events[0]) + events.skip(1) =~= events);
    }
}

/// The binary codec round-trips: decoding the serialization of any
/// event sequence yields that sequence back.
pub proof fn lemma_binary_round_trip(events: Seq<KeyLogEvent>)
    requires
        events.len() <= u64::MAX,
    ensures
        spec_decode_binary(spec_encode_binary(events)) == Some(events),
{
    lemma_auto_spec_u64_to_from_le_bytes();
    let data = spec_encode_binary(events);
    assert(data.take(8) =~= spec_u64_to_le_bytes(events.len() as u64));
    assert(data.skip(8) =~= spec_records(events));
    lemma_decode_records_of_encode(events);
}

fn decode_record(b: &[u8]) -> (r: Option<KeyLogEvent>)
    requires
        b@.len() == EVENT_RECORD_BYTES,
    ensures
        r == spec_decode_record(b@),
{
    let time_sec = u64_to_i64(u64_from_le_bytes(slice_subrange(b, 0, 8)));
    let time_usec = u64_to_i64(u64_from_le_bytes(slice_subrange(b, 8, 16)));
    let act = u32_from_le_bytes(slice_subrange(b, 16, 20));
    let code = u16_from_le_bytes(slice_subrange(b, 20, 22));
    if act > 2 {
        None
    } else {
        match KeyEventAction::from_int(act as i32) {
            Some(action) => Some(KeyLogEvent { time_sec, time_usec, action, code }),
            None => None,
        }
    }
}

/// Deserializes binary bytes: returns the event sequence they
/// serialize, and `EncodingError` exactly when the bytes are not the
/// binary serialization of any sequence.
pub fn decode_binary(data: &[u8]) -> (r: Result<Vec<KeyLogEvent>, KeyLogError>)
    ensures
        match spec_decode_binary(data@) {
            Some(es) => r matches Ok(v) && v@ == es,
            None => r == Err::<Vec<KeyLogEvent>, KeyLogError>(KeyLogError::EncodingError),
        },
{
    if data.len() < 8 {
        return Err(KeyLogError::EncodingError);
    }
    let n64 = u64_from_le_bytes(slice_subrange(data, 0, 8));
    let m = data.len() - 8;
    let ghost body = data@.skip(8);
    proof {
        assert(data@.take(8) =~= data@.subrange(0, 8));
        lemma_decode_records_shape(body, n64 as nat);
    }
    if m % EVENT_RECORD_BYTES != 0 || (m / EVENT_RECORD_BYTES) as u64 != n64 {
        proof {
            assert(body.len() == m);
            if spec_decode_records(body, n64 as nat) matches Some(_) {
                assert(body.len() == EVENT_RECORD_BYTES * (n64 as nat));
                assert(m as int == 22 * (n64 as int));
                assert((22 * (n64 as int)) % 22 == 0) by (nonlinear_arith);
                assert((22 * (n64 as int)) / 22 == n64 as int) by (nonlinear_arith);
            }
        }
        return Err(KeyLogError::EncodingError);
    }
    let n = m / EVENT_RECORD_BYTES;
    let mut acc: Vec<KeyLogEvent> = Vec::new();
    let mut i: usize = 0;
    while i < n
        invariant
            i <= n,
            data@.len() <= usize::MAX,
            data@.len() == 8 + EVENT_RECORD_BYTES * n,
            n64 as int == n as int,
            spec_u64_from_le_bytes(data@.take(8)) == n64,
            body == data@.skip(8),
            acc@.len() == i,
            match spec_decode_records(
                data@.skip(8 + EVENT_RECORD_BYTES * i),
                (n - i) as nat,
            ) {
                Some(rest) => spec_decode_records(body, n as nat) == Some(acc@ + rest),
                None => spec_decode_records(body, n as nat) is None,
            },
        decreases n - i,
    {
        let off = 8 + EVENT_RECORD_BYTES * i;
        let rec = slice_subrange(data, off, off + EVENT_RECORD_BYTES);
        let ghost suffix = data@.skip(off as int);
        proof {
            assert(suffix.len() >= EVENT_RECORD_BYTES);
            assert(suffix.take(EVENT_RECORD_BYTES as int) =~= rec@);
            assert(suffix.skip(EVENT_RECORD_BYTES as int) =~= data@.skip(
                8 + EVENT_RECORD_BYTES * (i + 1),
            ));
        }
        match decode_record(rec) {
            Some(e) => {
                acc.push(e);
                proof {
                    let rest_opt = spec_decode_records(
                        data@.skip(8 + EVENT_RECORD_BYTES * (i + 1)),
                        (n - i - 1) as nat,
                    );
                    match rest_opt {
                        Some(rest) => {
                            assert(spec_decode_records(suffix, (n - i) as nat) == Some(
                                Seq::empty().push(e) + rest,
                            ));
                            assert(acc@ + rest =~= acc@.drop_last() + (Seq::empty().push(e)
                                + rest));
                        },
                        None => {},
                    }
                }
                i = i + 1;
            },
            None => {
                proof {
                    assert(spec_decode_record(suffix.take(EVENT_RECORD_BYTES as int)) is None);
                    assert(spec_decode_records(suffix, (n - i) as nat) is None);
                    assert(spec_decode_records(body, n as nat) is None);
                }
                return Err(KeyLogError::EncodingError);
            },
        }
    }
    proof {
        assert(data@.skip(8 + EVENT_RECORD_BYTES * i) =~= Seq::<u8>::empty());
        assert(spec_decode_records(Seq::<u8>::empty(), 0) == Some(Seq::<KeyLogEvent>::empty()));
        assert(acc@ + Seq::<KeyLogEvent>::empty() =~= acc@);
    }
    Ok(acc)
}

} // verus!
