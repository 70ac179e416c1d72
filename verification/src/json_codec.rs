//! The JSON serialization of event sequences.
//!
//! Self-describing, human-readable framing: a JSON array of objects,
//! one per event, written without whitespace —
//! `[{"tv_sec":S,"tv_usec":U,"action":A,"code":C}, ...]` with the
//! timestamp fields as signed decimals, the action as its code 0, 1 or
//! 2, and the key code as an unsigned decimal. The decoder is strict:
//! it accepts exactly the canonical text the encoder emits, and rejects
//! anything else as an encoding error.

use vstd::prelude::*;
use crate::errors::KeyLogError;
use crate::key_events::{KeyEventAction, KeyLogEvent};

verus! {

/// `{"tv_sec":` — the opening of an event object.
pub open spec fn lit_tv_sec() -> Seq<u8> {
    seq![123u8, 34u8, 116u8, 118u8, 95u8, 115u8, 101u8, 99u8, 34u8, 58u8]
}

/// `,"tv_usec":`
pub open spec fn lit_tv_usec() -> Seq<u8> {
    seq![44u8, 34u8, 116u8, 118u8, 95u8, 117u8, 115u8, 101u8, 99u8, 34u8, 58u8]
}

/// `,"action":`
pub open spec fn lit_action() -> Seq<u8> {
    seq![44u8, 34u8, 97u8, 99u8, 116u8, 105u8, 111u8, 110u8, 34u8, 58u8]
}

/// `,"code":`
pub open spec fn lit_code() -> Seq<u8> {
    seq![44u8, 34u8, 99u8, 111u8, 100u8, 101u8, 34u8, 58u8]
}

/// The decimal digits of `n`, most significant first, no leading zero
/// except for `n == 0` itself.
pub open spec fn spec_dec_digits(n: nat) -> Seq<u8>
    decreases n,
{
    if n < 10 {
        seq![(48 + n) as u8]
    } else {
        spec_dec_digits(n / 10).push((48 + n % 10) as u8)
    }
}

/// The canonical signed decimal text of `v`.
pub open spec fn spec_dec_signed(v: int) -> Seq<u8> {
    if v >= 0 {
        spec_dec_digits(v as nat)
    } else {
        seq![45u8] + spec_dec_digits((-v) as nat)
    }
}

/// The JSON object of one event.
pub open spec fn spec_json_event(e: KeyLogEvent) -> Seq<u8> {
    lit_tv_sec() + spec_dec_signed(e.time_sec as int) + lit_tv_usec() + spec_dec_signed(
        e.time_usec as int,
    ) + lit_action() + spec_dec_digits(e.action.spec_code() as nat) + lit_code()
        + spec_dec_digits(e.code as nat) + seq![125u8]
}

/// The comma-separated event objects of a sequence.
pub open spec fn spec_json_items(events: Seq<KeyLogEvent>) -> Seq<u8>
    decreases events.len(),
{
    if events.len() == 0 {
        Seq::empty()
    } else if events.len() == 1 {
        spec_json_event(events[0])
    } else {
        spec_json_event(events[0]) + seq![44u8] + spec_json_items(events.skip(1))
    }
}

/// The bytes of the JSON serialization of an event sequence.
pub open spec fn spec_encode_json(events: Seq<KeyLogEvent>) -> Seq<u8> {
    seq![91u8] + spec_json_items(events) + seq![93u8]
}

/// An ASCII decimal digit.
pub open spec fn is_digit(b: u8) -> bool {
    48 <= b <= 57
}

/// Length of the maximal digit prefix of `s`.
pub open spec fn digit_run(s: Seq<u8>) -> nat
    decreases s.len(),
{
    if s.len() == 0 || !is_digit(s[0]) {
        0
    } else {
        1 + digit_run(s.skip(1))
    }
}

/// Value of a digit string, most significant digit first.
pub open spec fn digits_val(s: Seq<u8>) -> int
    decreases s.len(),
{
    if s.len() == 0 {
        0
    } else {
        digits_val(s.drop_last()) * 10 + s.last() - 48
    }
}

/// Strict parse of an unsigned decimal at the head of `s`: the digit
/// run must be nonempty, canonical (no leading zero), and its value at
/// most `bound`.
pub open spec fn sp_parse_unsigned(s: Seq<u8>, bound: int) -> Option<(int, Seq<u8>)> {
    let k = digit_run(s);
    if k == 0 {
        None
    } else if s[0] == 48 && k > 1 {
        None
    } else {
        let v = digits_val(s.take(k as int));
        if v > bound {
            None
        } else {
            Some((v, s.skip(k as int)))
        }
    }
}

/// Strict parse of a canonical signed decimal in the 64-bit signed
/// range at the head of `s` (a minus sign never precedes a zero).
pub open spec fn sp_parse_signed(s: Seq<u8>) -> Option<(int, Seq<u8>)> {
    if s.len() > 0 && s[0] == 45 {
        match sp_parse_unsigned(s.skip(1), 0x8000_0000_0000_0000) {
            Some((v, rest)) => if v == 0 {
                None
            } else {
                Some((-v, rest))
            },
            None => None,
        }
    } else {
        sp_parse_unsigned(s, 0x7fff_ffff_ffff_ffff)
    }
}

/// Consume an exact literal at the head of `s`.
pub open spec fn sp_expect(s: Seq<u8>, lit: Seq<u8>) -> Option<Seq<u8>> {
    if lit.len() <= s.len() && s.take(lit.len() as int) == lit {
        Some(s.skip(lit.len() as int))
    } else {
        None
    }
}

/// Strict parse of one event object at the head of `s`.
pub open spec fn sp_parse_event(s: Seq<u8>) -> Option<(KeyLogEvent, Seq<u8>)> {
    match sp_expect(s, lit_tv_sec()) {
        Some(s1) => match sp_parse_signed(s1) {
            Some((sec, s2)) => match sp_expect(s2, lit_tv_usec()) {
                Some(s3) => match sp_parse_signed(s3) {
                    Some((usec, s4)) => match sp_expect(s4, lit_action()) {
                        Some(s5) => match sp_parse_unsigned(s5, 2) {
                            Some((act, s6)) => match sp_expect(s6, lit_code()) {
                                Some(s7) => match sp_parse_unsigned(s7, 65535) {
                                    Some((code, s8)) => match sp_expect(s8, seq![125u8]) {
                                        Some(s9) => match KeyEventAction::spec_from_int(act) {
                                            Some(action) => Some(
                                                (
                                                    KeyLogEvent {
                                                        time_sec: sec as i64,
                                                        time_usec: usec as i64,
                                                        action,
                                                        code: code as u16,
                                                    },
                                                    s9,
                                                ),
                                            ),
                                            None => None,
                                        },
                                        None => None,
                                    },
                                    None => None,
                                },
                                None => None,
                            },
                            None => None,
                        },
                        None => None,
                    },
                    None => None,
                },
                None => None,
            },
            None => None,
        },
        None => None,
    }
}

/// Strict parse of one or more comma-separated event objects at the
/// head of `s`.
pub open spec fn sp_parse_items(s: Seq<u8>) -> Option<(Seq<KeyLogEvent>, Seq<u8>)>
    decreases s.len(),
{
    match sp_parse_event(s) {
        Some((e, rest)) => if rest.len() > 0 && rest[0] == 44 {
            if rest.skip(1).len() < s.len() {
                match sp_parse_items(rest.skip(1)) {
                    Some((es, rest2)) => Some((Seq::empty().push(e) + es, rest2)),
                    None => None,
                }
            } else {
                None
            }
        } else {
            Some((Seq::empty().push(e), rest))
        },
        None => None,
    }
}

/// The event sequence JSON bytes stand for, if they are exactly the
/// canonical JSON serialization of one.
pub open spec fn spec_decode_json(data: Seq<u8>) -> Option<Seq<KeyLogEvent>> {
    if data.len() >= 2 && data[0] == 91 {
        let s = data.skip(1);
        if s.len() == 1 && s[0] == 93 {
            Some(Seq::empty())
        } else {
            match sp_parse_items(s) {
                Some((es, rest)) => if rest.len() == 1 && rest[0] == 93 {
                    Some(es)
                } else {
                    None
                },
                None => None,
            }
        }
    } else {
        None
    }
}

proof fn lemma_dec_digits_shape(n: nat)
    ensures
        spec_dec_digits(n).len() >= 1,
        forall|i: int| 0 <= i < spec_dec_digits(n).len() ==> is_digit(#[trigger] spec_dec_digits(n)[i]),
        n >= 1 ==> spec_dec_digits(n)[0] != 48,
        n == 0 ==> spec_dec_digits(n) == seq![48u8],
    decreases n,
{
    if n >= 10 {
        lemma_dec_digits_shape(n / 10);
    }
}

proof fn lemma_digits_val_nonneg(s: Seq<u8>)
    requires
        forall|i: int| 0 <= i < s.len() ==> is_digit(#[trigger] s[i]),
    ensures
        digits_val(s) >= 0,
    decreases s.len(),
{
    if s.len() > 0 {
        assert(forall|i: int|
            0 <= i < s.drop_last().len() ==> is_digit(#[trigger] s.drop_last()[i]));
        lemma_digits_val_nonneg(s.drop_last());
    }
}

proof fn lemma_digits_val_of_dec(n: nat)
    ensures
        digits_val(spec_dec_digits(n)) == n,
    decreases n,
{
    if n < 10 {
        let s = spec_dec_digits(n);
        assert(s.drop_last() =~= Seq::<u8>::empty());
        assert(s.last() == (48 + n) as u8);
        assert(((48 + n) as u8) as int == 48 + n);
        assert(digits_val(s) == digits_val(s.drop_last()) * 10 + s.last() - 48);
    } else {
        lemma_digits_val_of_dec(n / 10);
        let s = spec_dec_digits(n);
        assert(s.drop_last() =~= spec_dec_digits(n / 10));
        assert(s.last() == (48 + n % 10) as u8);
        assert(digits_val(s) == (n / 10) * 10 + n % 10);
        assert((n / 10) * 10 + n % 10 == n) by (nonlinear_arith);
    }
}

proof fn lemma_digit_run_concat(a: Seq<u8>, b: Seq<u8>)
    requires
        forall|i: int| 0 <= i < a.len() ==> is_digit(#[trigger] a[i]),
        b.len() == 0 || !is_digit(b[0]),
    ensures
        digit_run(a + b) == a.len(),
    decreases a.len(),
{
    if a.len() == 0 {
        assert(a + b =~= b);
    } else {
        assert((a + b)[0] == a[0]);
        assert((a + b).skip(1) =~= a.skip(1) + b);
        assert(forall|i: int| 0 <= i < a.skip(1).len() ==> is_digit(#[trigger] a.skip(1)[i]));
        lemma_digit_run_concat(a.skip(1), b);
    }
}

proof fn lemma_parse_unsigned_of_dec(n: nat, bound: int, rest: Seq<u8>)
    requires
        n <= bound,
        rest.len() == 0 || !is_digit(rest[0]),
    ensures
        sp_parse_unsigned(spec_dec_digits(n) + rest, bound) == Some((n as int, rest)),
{
    let d = spec_dec_digits(n);
    let s = d + rest;
    lemma_dec_digits_shape(n);
    lemma_digit_run_concat(d, rest);
    let k = digit_run(s);
    assert(k == d.len());
    assert(s[0] == d[0]);
    if n == 0 {
        assert(k == 1);
    } else {
        assert(s[0] != 48);
    }
    assert(s.take(k as int) =~= d);
    lemma_digits_val_of_dec(n);
    assert(s.skip(k as int) =~= rest);
}

proof fn lemma_parse_signed_of_dec(v: int, rest: Seq<u8>)
    requires
        -0x8000_0000_0000_0000 <= v <= 0x7fff_ffff_ffff_ffff,
        rest.len() == 0 || !is_digit(rest[0]),
    ensures
        sp_parse_signed(spec_dec_signed(v) + rest) == Some((v, rest)),
{
    if v >= 0 {
        let s = spec_dec_signed(v) + rest;
        lemma_dec_digits_shape(v as nat);
        assert(s[0] == spec_dec_digits(v as nat)[0]);
        assert(is_digit(s[0]));
        assert(s[0] != 45);
        lemma_parse_unsigned_of_dec(v as nat, 0x7fff_ffff_ffff_ffff, rest);
    } else {
        let m = (-v) as nat;
        let s = spec_dec_signed(v) + rest;
        assert(s[0] == 45);
        assert(s.skip(1) =~= spec_dec_digits(m) + rest);
        lemma_parse_unsigned_of_dec(m, 0x8000_0000_0000_0000, rest);
    }
}

proof fn lemma_expect_of_lit(lit: Seq<u8>, rest: Seq<u8>)
    ensures
        sp_expect(lit + rest, lit) == Some(rest),
{
    let s = lit + rest;
    assert(s.take(lit.len() as int) =~= lit);
    assert(s.skip(lit.len() as int) =~= rest);
}

#[verifier::rlimit(100)]
proof fn lemma_parse_event_of_encode(e: KeyLogEvent, rest: Seq<u8>)
    ensures
        sp_parse_event(spec_json_event(e) + rest) == Some((e, rest)),
{
    let dsec = spec_dec_signed(e.time_sec as int);
    let dusec = spec_dec_signed(e.time_usec as int);
    let dact = spec_dec_digits(e.action.spec_code() as nat);
    let dcode = spec_dec_digits(e.code as nat);
    let t9: Seq<u8> = rest;
    let t8 = seq![125u8] + t9;
    let t7 = dcode + t8;
    let t6 = lit_code() + t7;
    let t5 = dact + t6;
    let t4 = lit_action() + t5;
    let t3 = dusec + t4;
    let t2 = lit_tv_usec() + t3;
    let t1 = dsec + t2;
    let s = lit_tv_sec() + t1;
    assert(spec_json_event(e) + rest =~= s);
    lemma_expect_of_lit(lit_tv_sec(), t1);
    assert(t2[0] == 44 && !is_digit(44));
    lemma_parse_signed_of_dec(e.time_sec as int, t2);
    lemma_expect_of_lit(lit_tv_usec(), t3);
    assert(t4[0] == 44 && !is_digit(44));
    lemma_parse_signed_of_dec(e.time_usec as int, t4);
    lemma_expect_of_lit(lit_action(), t5);
    assert(t6[0] == 44 && !is_digit(44));
    lemma_parse_unsigned_of_dec(e.action.spec_code() as nat, 2, t6);
    lemma_expect_of_lit(lit_code(), t7);
    assert(t8[0] == 125 && !is_digit(125));
    lemma_parse_unsigned_of_dec(e.code as nat, 65535, t8);
    lemma_expect_of_lit(seq![125u8], t9);
    assert(KeyEventAction::spec_from_int(e.action.spec_code()) == Some(e.action));
}

proof fn lemma_json_event_len(e: KeyLogEvent)
    ensures
        spec_json_event(e).len() >= 2,
{
}

#[verifier::rlimit(50)]
proof fn lemma_parse_items_of_encode(events: Seq<KeyLogEvent>, rest: Seq<u8>)
    requires
        events.len() >= 1,
        rest.len() == 0 || rest[0] != 44,
    ensures
        sp_parse_items(spec_json_items(events) + rest) == Some((events, rest)),
    decreases events.len(),
{
    let s = spec_json_items(events) + rest;
    if events.len() == 1 {
        assert(s =~= spec_json_event(events[0]) + rest);
        lemma_parse_event_of_encode(events[0], rest);
        assert(Seq::empty().push(events[0]) =~= events);
    } else {
        let tail = spec_json_items(events.skip(1));
        let after = seq![44u8] + tail + rest;
        assert(s =~= spec_json_event(events[0]) + after);
        lemma_parse_event_of_encode(events[0], after);
        assert(after[0] == 44);
        assert(after.skip(1) =~= tail + rest);
        lemma_json_event_len(events[0]);
        assert(after.skip(1).len() < s.len());
        lemma_parse_items_of_encode(events.skip(1), rest);
        assert(Seq::empty().push(events[0]) + events.skip(1) =~= events);
    }
}

proof fn lemma_digit_run_bounds(s: Seq<u8>)
    ensures
        digit_run(s) <= s.len(),
        forall|j: int| 0 <= j < digit_run(s) ==> is_digit(#[trigger] s[j]),
    decreases s.len(),
{
    if s.len() > 0 && is_digit(s[0]) {
        lemma_digit_run_bounds(s.skip(1));
        assert(forall|j: int| 1 <= j < digit_run(s) ==> s[j] == s.skip(1)[j - 1]);
    }
}

proof fn lemma_digit_run_lower(s: Seq<u8>, m: int)
    requires
        0 <= m <= s.len(),
        forall|j: int| 0 <= j < m ==> is_digit(#[trigger] s[j]),
    ensures
        digit_run(s) >= m,
    decreases m,
{
    if m > 0 {
        assert(is_digit(s[0]));
        assert(forall|j: int| 0 <= j < m - 1 ==> s.skip(1)[j] == s[j + 1]);
        lemma_digit_run_lower(s.skip(1), m - 1);
    }
}

proof fn lemma_digits_val_take_le(u: Seq<u8>, m: int)
    requires
        0 <= m <= u.len(),
        forall|i: int| 0 <= i < u.len() ==> is_digit(#[trigger] u[i]),
    ensures
        digits_val(u) >= digits_val(u.take(m)),
    decreases u.len() - m,
{
    if m < u.len() {
        let t = u.drop_last();
        assert(forall|i: int| 0 <= i < t.len() ==> is_digit(#[trigger] t[i]));
        lemma_digits_val_nonneg(t);
        assert(t.take(m) =~= u.take(m));
        lemma_digits_val_take_le(t, m);
        assert(digits_val(u) == digits_val(t) * 10 + u.last() - 48);
        assert(digits_val(u) >= digits_val(t));
    } else {
        assert(u.take(m) =~= u);
    }
}

/// The JSON codec round-trips: decoding the serialization of any event
/// sequence yields that sequence back.
pub proof fn lemma_json_round_trip(events: Seq<KeyLogEvent>)
    ensures
        spec_decode_json(spec_encode_json(events)) == Some(events),
{
    let data = spec_encode_json(events);
    assert(data[0] == 91);
    let s = data.skip(1);
    if events.len() == 0 {
        assert(s =~= seq![93u8]);
    } else {
        assert(s =~= spec_json_items(events) + seq![93u8]);
        lemma_parse_items_of_encode(events, seq![93u8]);
        lemma_json_event_len(events[0]);
        assert(spec_json_items(events).len() >= 2)  by {
            if events.len() == 1 {
            } else {
                assert(spec_json_items(events).len() >= spec_json_event(events[0]).len());
            }
        };
        assert(s.len() >= 3);
    }
}

proof fn lemma_items_snoc(events: Seq<KeyLogEvent>, e: KeyLogEvent)
    requires
        events.len() >= 1,
    ensures
        spec_json_items(events.push(e)) == spec_json_items(events) + seq![44u8] + spec_json_event(
            e,
        ),
    decreases events.len(),
{
    let p = events.push(e);
    if events.len() == 1 {
        assert(p[0] == events[0]);
        assert(p.skip(1) =~= Seq::empty().push(e));
        assert(p.skip(1)[0] == e);
        assert(spec_json_items(p.skip(1)) == spec_json_event(e));
        assert(spec_json_items(p) =~= spec_json_items(events) + seq![44u8] + spec_json_event(e));
    } else {
        assert(p[0] == events[0]);
        assert(p.skip(1) =~= events.skip(1).push(e));
        lemma_items_snoc(events.skip(1), e);
        assert(spec_json_items(p) =~= spec_json_items(events) + seq![44u8] + spec_json_event(e));
    }
}

fn lit_tv_sec_vec() -> (v: Vec<u8>)
    ensures
        v@ == lit_tv_sec(),
{
    let mut v: Vec<u8> = Vec::new();
    v.push(123);
    v.push(34);
    v.push(116);
    v.push(118);
    v.push(95);
    v.push(115);
    v.push(101);
    v.push(99);
    v.push(34);
    v.push(58);
    proof {
        assert(v@ =~= lit_tv_sec());
    }
    v
}

fn lit_tv_usec_vec() -> (v: Vec<u8>)
    ensures
        v@ == lit_tv_usec(),
{
    let mut v: Vec<u8> = Vec::new();
    v.push(44);
    v.push(34);
    v.push(116);
    v.push(118);
    v.push(95);
    v.push(117);
    v.push(115);
    v.push(101);
    v.push(99);
    v.push(34);
    v.push(58);
    proof {
        assert(v@ =~= lit_tv_usec());
    }
    v
}

fn lit_action_vec() -> (v: Vec<u8>)
    ensures
        v@ == lit_action(),
{
    let mut v: Vec<u8> = Vec::new();
    v.push(44);
    v.push(34);
    v.push(97);
    v.push(99);
    v.push(116);
    v.push(105);
    v.push(111);
    v.push(110);
    v.push(34);
    v.push(58);
    proof {
        assert(v@ =~= lit_action());
    }
    v
}

fn lit_code_vec() -> (v: Vec<u8>)
    ensures
        v@ == lit_code(),
{
    let mut v: Vec<u8> = Vec::new();
    v.push(44);
    v.push(34);
    v.push(99);
    v.push(111);
    v.push(100);
    v.push(101);
    v.push(34);
    v.push(58);
    proof {
        assert(v@ =~= lit_code());
    }
    v
}

fn push_dec_u64(out: &mut Vec<u8>, n: u64)
    ensures
        final(out)@ == old(out)@ + spec_dec_digits(n as nat),
    decreases n,
{
    if n < 10 {
        out.push(48 + n as u8);
        proof {
            assert(out@ =~= old(out)@ + spec_dec_digits(n as nat));
        }
    } else {
        push_dec_u64(out, n / 10);
        out.push(48 + (n % 10) as u8);
        proof {
            assert(out@ =~= old(out)@ + spec_dec_digits(n as nat));
        }
    }
}

fn push_dec_i64(out: &mut Vec<u8>, v: i64)
    ensures
        final(out)@ == old(out)@ + spec_dec_signed(v as int),
{
    if v >= 0 {
        push_dec_u64(out, v as u64);
    } else {
        out.push(45);
        let m = (-(v as i128)) as u64;
        push_dec_u64(out, m);
        proof {
            assert(out@ =~= old(out)@ + spec_dec_signed(v as int));
        }
    }
}

fn encode_event_into(out: &mut Vec<u8>, e: KeyLogEvent)
    ensures
        final(out)@ == old(out)@ + spec_json_event(e),
{
    let mut lit = lit_tv_sec_vec();
    out.append(&mut lit);
    push_dec_i64(out, e.time_sec);
    let mut lit = lit_tv_usec_vec();
    out.append(&mut lit);
    push_dec_i64(out, e.time_usec);
    let mut lit = lit_action_vec();
    out.append(&mut lit);
    push_dec_u64(out, e.action.to_int() as u64);
    let mut lit = lit_code_vec();
    out.append(&mut lit);
    push_dec_u64(out, e.code as u64);
    out.push(125);
    proof {
        assert(out@ =~= old(out)@ + spec_json_event(e));
    }
}

/// Serializes an event sequence as canonical JSON; the result is
/// exactly [`spec_encode_json`] of the sequence.
pub fn encode_json(events: &Vec<KeyLogEvent>) -> (r: Vec<u8>)
    ensures
        r@ == spec_encode_json(events@),
{
    let mut out: Vec<u8> = Vec::new();
    out.push(91);
    let n = events.len();
    let mut i: usize = 0;
    while i < n
        invariant
            i <= n,
            n == events@.len(),
            out@ == seq![91u8] + spec_json_items(events@.take(i as int)),
        decreases n - i,
    {
        if i > 0 {
            out.push(44);
        }
        encode_event_into(&mut out, events[i]);
        proof {
            assert(events@.take(i + 1) =~= events@.take(i as int).push(events@[i as int]));
            if i == 0 {
                assert(events@.take(1)[0] == events@[0]);
                assert(spec_json_items(events@.take(1)) == spec_json_event(events@[0]));
                assert(out@ =~= seq![91u8] + spec_json_items(events@.take(1)));
            } else {
                lemma_items_snoc(events@.take(i as int), events@[i as int]);
                assert(out@ =~= seq![91u8] + spec_json_items(events@.take(i + 1)));
            }
        }
        i = i + 1;
    }
    out.push(93);
    proof {
        assert(events@.take(n as int) =~= events@);
        assert(out@ =~= spec_encode_json(events@));
    }
    out
}

fn expect_lit(data: &[u8], pos: usize, lit: &Vec<u8>) -> (r: Option<usize>)
    requires
        pos <= data@.len(),
    ensures
        match sp_expect(data@.skip(pos as int), lit@) {
            Some(rest) => r matches Some(p) && pos <= p <= data@.len() && p == pos + lit@.len()
                && rest == data@.skip(p as int),
            None => r is None,
        },
{
    let l = lit.len();
    if data.len() - pos < l {
        return None;
    }
    let mut j: usize = 0;
    while j < l
        invariant
            pos + l <= data@.len(),
            data@.len() <= usize::MAX,
            j <= l,
            l == lit@.len(),
            forall|k: int| 0 <= k < j ==> data@[pos + k] == lit@[k],
        decreases l - j,
    {
        if data[pos + j] != lit[j] {
            proof {
                let s = data@.skip(pos as int);
                assert(s.take(l as int)[j as int] == data@[pos + j]);
                assert(s.take(l as int) != lit@);
            }
            return None;
        }
        j = j + 1;
    }
    proof {
        let s = data@.skip(pos as int);
        assert(s.take(l as int) =~= lit@);
        assert(s.skip(l as int) =~= data@.skip(pos + l));
    }
    Some(pos + l)
}

#[verifier::rlimit(50)]
fn parse_unsigned(data: &[u8], pos: usize, bound: u64) -> (r: Option<(u64, usize)>)
    requires
        pos <= data@.len(),
        bound <= 0x8000_0000_0000_0000,
    ensures
        match sp_parse_unsigned(data@.skip(pos as int), bound as int) {
            Some(vr) => r matches Some(x) && x.0 as int == vr.0 && pos < x.1 <= data@.len()
                && vr.1 == data@.skip(x.1 as int),
            None => r is None,
        },
{
    let ghost s = data@.skip(pos as int);
    let s_len = data.len();
    if pos == s_len || !(48 <= data[pos] && data[pos] <= 57) {
        proof {
            assert(digit_run(s) == 0);
        }
        return None;
    }
    if data[pos] == 48 {
        if pos + 1 < s_len && 48 <= data[pos + 1] && data[pos + 1] <= 57 {
            proof {
                assert(s.skip(1)[0] == data@[pos + 1]);
                assert(digit_run(s.skip(1)) >= 1);
                assert(digit_run(s) >= 2);
            }
            return None;
        }
        proof {
            if pos + 1 < s_len {
                assert(s.skip(1)[0] == data@[pos + 1]);
            }
            assert(digit_run(s.skip(1)) == 0);
            assert(digit_run(s) == 1);
            assert(s.take(1) =~= seq![48u8]);
            assert(seq![48u8].drop_last() =~= Seq::<u8>::empty());
            assert(seq![48u8].last() == 48u8);
            assert(digits_val(Seq::<u8>::empty()) == 0);
            assert(digits_val(seq![48u8]) == digits_val(seq![48u8].drop_last()) * 10 + seq![48u8].last() - 48);
            assert(digits_val(seq![48u8]) == 0);
            assert(s.skip(1) =~= data@.skip(pos + 1));
        }
        return Some((0, pos + 1));
    }
    let mut p = pos;
    let mut acc: u64 = 0;
    while p < s_len && 48 <= data[p] && data[p] <= 57
        invariant
            pos <= p <= s_len,
            s_len == data@.len(),
            s == data@.skip(pos as int),
            bound <= 0x8000_0000_0000_0000,
            is_digit(data@[pos as int]),
            data@[pos as int] != 48,
            forall|k: int| pos <= k < p ==> is_digit(#[trigger] data@[k]),
            acc as int == digits_val(data@.subrange(pos as int, p as int)),
            acc <= bound,
            p == pos ==> acc == 0,
        decreases s_len - p,
    {
        let d = data[p] - 48;
        let acc2 = (acc as u128) * 10 + d as u128;
        proof {
            let pre = data@.subrange(pos as int, p as int);
            let pre2 = data@.subrange(pos as int, p + 1);
            assert(pre2.drop_last() =~= pre);
            assert(pre2.last() == data@[p as int]);
            assert(digits_val(pre2) == digits_val(pre) * 10 + data@[p as int] - 48);
        }
        if acc2 > bound as u128 {
            proof {
                lemma_digit_run_bounds(s);
                let k = digit_run(s) as int;
                assert(forall|j: int| 0 <= j < p + 1 - pos ==> is_digit(#[trigger] s[j]));
                lemma_digit_run_lower(s, p + 1 - pos);
                let run = s.take(k);
                assert(forall|i: int| 0 <= i < run.len() ==> is_digit(#[trigger] run[i]));
                lemma_digits_val_take_le(run, p + 1 - pos);
                assert(run.take(p + 1 - pos) =~= data@.subrange(pos as int, p + 1));
                assert(digits_val(run) >= digits_val(data@.subrange(pos as int, p + 1)));
                assert(digits_val(run) > bound);
            }
            return None;
        }
        acc = acc2 as u64;
        p = p + 1;
    }
    proof {
        let digits_part = data@.subrange(pos as int, p as int);
        let rest_part = data@.skip(p as int);
        assert(s =~= digits_part + rest_part);
        assert(forall|i: int| 0 <= i < digits_part.len() ==> is_digit(#[trigger] digits_part[i]));
        if p < s_len {
            assert(rest_part[0] == data@[p as int]);
        }
        lemma_digit_run_concat(digits_part, rest_part);
        assert(digit_run(s) == p - pos);
        assert(p > pos);
        assert(s[0] == data@[pos as int]);
        assert(s.take(p - pos) =~= digits_part);
        assert(s.skip(p - pos) =~= data@.skip(p as int));
    }
    Some((acc, p))
}

fn parse_signed(data: &[u8], pos: usize) -> (r: Option<(i64, usize)>)
    requires
        pos <= data@.len(),
    ensures
        match sp_parse_signed(data@.skip(pos as int)) {
            Some(vr) => r matches Some(x) && x.0 as int == vr.0 && pos < x.1 <= data@.len()
                && vr.1 == data@.skip(x.1 as int),
            None => r is None,
        },
{
    let ghost s = data@.skip(pos as int);
    if pos < data.len() && data[pos] == 45 {
        proof {
            assert(s[0] == 45);
            assert(s.skip(1) =~= data@.skip(pos + 1));
        }
        match parse_unsigned(data, pos + 1, 0x8000_0000_0000_0000) {
            Some((v, p)) => {
                if v == 0 {
                    return None;
                }
                Some(((-(v as i128)) as i64, p))
            },
            None => None,
        }
    } else {
        proof {
            if pos < data.len() {
                assert(s[0] == data@[pos as int]);
            }
        }
        match parse_unsigned(data, pos, 0x7fff_ffff_ffff_ffff) {
            Some((v, p)) => Some((v as i64, p)),
            None => None,
        }
    }
}

fn parse_event(data: &[u8], pos: usize) -> (r: Option<(KeyLogEvent, usize)>)
    requires
        pos <= data@.len(),
    ensures
        match sp_parse_event(data@.skip(pos as int)) {
            Some(er) => r matches Some(x) && x.0 == er.0 && pos < x.1 <= data@.len() && er.1
                == data@.skip(x.1 as int),
            None => r is None,
        },
{
    let lit1 = lit_tv_sec_vec();
    let p1 = match expect_lit(data, pos, &lit1) {
        Some(p) => p,
        None => {
            return None;
        },
    };
    let (sec, p2) = match parse_signed(data, p1) {
        Some(x) => x,
        None => {
            return None;
        },
    };
    let lit2 = lit_tv_usec_vec();
    let p3 = match expect_lit(data, p2, &lit2) {
        Some(p) => p,
        None => {
            return None;
        },
    };
    let (usec, p4) = match parse_signed(data, p3) {
        Some(x) => x,
        None => {
            return None;
        },
    };
    let lit3 = lit_action_vec();
    let p5 = match expect_lit(data, p4, &lit3) {
        Some(p) => p,
        None => {
            return None;
        },
    };
    let (act, p6) = match parse_unsigned(data, p5, 2) {
        Some(x) => x,
        None => {
            return None;
        },
    };
    let lit4 = lit_code_vec();
    let p7 = match expect_lit(data, p6, &lit4) {
        Some(p) => p,
        None => {
            return None;
        },
    };
    let (code, p8) = match parse_unsigned(data, p7, 65535) {
        Some(x) => x,
        None => {
            return None;
        },
    };
    let ghost s8 = data@.skip(p8 as int);
    if p8 >= data.len() || data[p8] != 125 {
        proof {
            if p8 < data@.len() {
                assert(s8.take(1)[0] == data@[p8 as int]);
                assert(s8.take(1) != seq![125u8]);
            }
            assert(sp_expect(s8, seq![125u8]) is None);
        }
        return None;
    }
    proof {
        assert(s8.take(1) =~= seq![125u8]);
        assert(s8.skip(1) =~= data@.skip(p8 + 1));
    }
    match KeyEventAction::from_int(act as i32) {
        Some(action) => Some(
            (KeyLogEvent { time_sec: sec, time_usec: usec, action, code: code as u16 }, p8 + 1),
        ),
        None => None,
    }
}

/// Deserializes JSON bytes: returns the event sequence they serialize,
/// and `EncodingError` exactly when the bytes are not the canonical
/// JSON serialization of any sequence.
#[verifier::rlimit(100)]
pub fn decode_json(data: &[u8]) -> (r: Result<Vec<KeyLogEvent>, KeyLogError>)
    ensures
        match spec_decode_json(data@) {
            Some(es) => r matches Ok(v) && v@ == es,
            None => r == Err::<Vec<KeyLogEvent>, KeyLogError>(KeyLogError::EncodingError),
        },
{
    if data.len() < 2 || data[0] != 91 {
        return Err(KeyLogError::EncodingError);
    }
    if data.len() == 2 && data[1] == 93 {
        proof {
            assert(data@.skip(1).len() == 1);
            assert(data@.skip(1)[0] == 93);
        }
        let empty: Vec<KeyLogEvent> = Vec::new();
        return Ok(empty);
    }
    let ghost tail = data@.skip(1);
    proof {
        assert(tail[0] == data@[1]);
        assert(!(tail.len() == 1 && tail[0] == 93));
    }
    let mut acc: Vec<KeyLogEvent> = Vec::new();
    let mut pos: usize = 1;
    loop
        invariant
            1 <= pos <= data@.len(),
            data@.len() <= usize::MAX,
            data@.len() >= 2,
            data@[0] == 91,
            tail == data@.skip(1),
            !(tail.len() == 1 && tail[0] == 93),
            match sp_parse_items(data@.skip(pos as int)) {
                Some(ir) => sp_parse_items(tail) == Some((acc@ + ir.0, ir.1)),
                None => sp_parse_items(tail) is None,
            },
        decreases data@.len() - pos,
    {
        let ghost s = data@.skip(pos as int);
        match parse_event(data, pos) {
            Some((e, p)) => {
                if p < data.len() && data[p] == 44 {
                    proof {
                        let rest = data@.skip(p as int);
                        assert(rest[0] == 44);
                        assert(rest.skip(1) =~= data@.skip(p + 1));
                        assert(rest.skip(1).len() < s.len());
                        match sp_parse_items(data@.skip(p + 1)) {
                            Some(ir) => {
                                assert(sp_parse_items(s) == Some(
                                    (Seq::empty().push(e) + ir.0, ir.1),
                                ));
                                assert(acc@.push(e) + ir.0 =~= acc@ + (Seq::empty().push(e)
                                    + ir.0));
                            },
                            None => {
                                assert(sp_parse_items(s) is None);
                            },
                        }
                    }
                    acc.push(e);
                    pos = p + 1;
                } else {
                    proof {
                        let rest = data@.skip(p as int);
                        assert(rest.len() == 0 || rest[0] != 44);
                        assert(sp_parse_items(s) == Some((Seq::empty().push(e), rest)));
                        assert(acc@.push(e) =~= acc@ + Seq::empty().push(e));
                    }
                    acc.push(e);
                    if p == data.len() - 1 && data[p] == 93 {
                        proof {
                            assert(data@.skip(p as int).len() == 1);
                            assert(data@.skip(p as int)[0] == 93);
                        }
                        return Ok(acc);
                    }
                    proof {
                        let rest = data@.skip(p as int);
                        assert(!(rest.len() == 1 && rest[0] == 93));
                    }
                    return Err(KeyLogError::EncodingError);
                }
            },
            None => {
                proof {
                    assert(sp_parse_items(s) is None);
                }
                return Err(KeyLogError::EncodingError);
            },
        }
    }
}

} // verus!
