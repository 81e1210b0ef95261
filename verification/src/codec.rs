//! The persisted snapshot format.
//!
//! A snapshot is the concatenation of one record per alarm; a record is the
//! id's character count (8 bytes, little endian), the id's characters (4
//! bytes each, little endian code points), the trigger time (8 bytes, two's
//! complement little endian) and the ring duration (4 bytes, little endian).
//! The empty byte string is the empty snapshot, so a missing file reads as an
//! empty store. Decoding either recovers exactly the sequence that was
//! encoded or rejects the input.

use vstd::prelude::*;
use vstd::bytes::spec_u32_to_le_bytes;
use vstd::bytes::spec_u32_from_le_bytes;
use vstd::bytes::spec_u64_to_le_bytes;
use vstd::bytes::spec_u64_from_le_bytes;
use vstd::bytes::lemma_auto_spec_u32_to_from_le_bytes;
use vstd::bytes::lemma_auto_spec_u64_to_from_le_bytes;
use vstd::bytes::u32_to_le_bytes;
use vstd::bytes::u32_from_le_bytes;
use vstd::bytes::u64_to_le_bytes;
use vstd::bytes::u64_from_le_bytes;
use vstd::slice::slice_subrange;
use vstd::string::StrSliceExecFns;
use vstd::utf8::is_scalar;
use vstd::utf8::char_is_scalar;
use vstd::utf8::char_u32_cast;

use crate::alarm::Alarm;
use crate::alarm::AlarmView;
use crate::store::views_of;

verus! {

/// Relies on `char::from_u32`: returns the character with the given code
/// point, or `None` exactly when the value is no unicode scalar (a surrogate
/// or a value above the maximal code point).
pub assume_specification[ char::from_u32 ](v: u32) -> (r: Option<char>)
    ensures
        r is Some <==> is_scalar(v),
        r matches Some(c) ==> c as u32 == v,
;

/// Relies on `String::push`: appends the given character to the string.
pub assume_specification[ String::push ](s: &mut String, c: char)
    ensures
        final(s)@ == old(s)@.push(c),
;

/// An alarm value whose fields fit their machine representation; every value
/// read out of an [`Alarm`] satisfies this.
pub open spec fn wf_view(a: AlarmView) -> bool {
    &&& i64::MIN <= a.unix_time <= i64::MAX
    &&& 0 <= a.ring_seconds <= u32::MAX
    &&& a.id.len() <= u64::MAX
}

/// Two's complement reading of a trigger time as an unsigned word.
pub open spec fn to_u64_spec(v: int) -> u64 {
    if v >= 0 {
        v as u64
    } else {
        (v + 0x10000000000000000) as u64
    }
}

/// Inverse of [`to_u64_spec`] on the `i64` range.
pub open spec fn from_u64_spec(u: u64) -> int {
    if u < 0x8000000000000000 {
        u as int
    } else {
        u as int - 0x10000000000000000
    }
}

proof fn lemma_u64_round(v: int)
    requires
        i64::MIN <= v <= i64::MAX,
    ensures
        from_u64_spec(to_u64_spec(v)) == v,
{
}

/// Encoding of an id, four bytes per character.
pub open spec fn enc_chars(cs: Seq<char>) -> Seq<u8>
    decreases cs.len(),
{
    if cs.len() == 0 {
        Seq::empty()
    } else {
        spec_u32_to_le_bytes(cs[0] as u32) + enc_chars(cs.drop_first())
    }
}

/// Encoding of one alarm record.
pub open spec fn enc_alarm(a: AlarmView) -> Seq<u8> {
    spec_u64_to_le_bytes(a.id.len() as u64) + enc_chars(a.id) + spec_u64_to_le_bytes(
        to_u64_spec(a.unix_time),
    ) + spec_u32_to_le_bytes(a.ring_seconds as u32)
}

/// Encoding of a whole snapshot.
pub open spec fn enc_alarms(s: Seq<AlarmView>) -> Seq<u8>
    decreases s.len(),
{
    if s.len() == 0 {
        Seq::empty()
    } else {
        enc_alarm(s[0]) + enc_alarms(s.drop_first())
    }
}

/// Decoding of an id section; rejects a length that is no multiple of four
/// and any value that is no unicode scalar.
pub open spec fn dec_chars(b: Seq<u8>) -> Option<Seq<char>>
    decreases b.len(),
{
    if b.len() == 0 {
        Some(Seq::empty())
    } else if b.len() < 4 {
        None
    } else {
        let v = spec_u32_from_le_bytes(b.subrange(0, 4));
        if is_scalar(v) {
            match dec_chars(b.subrange(4, b.len() as int)) {
                Some(cs) => Some(seq![v as char] + cs),
                None => None,
            }
        } else {
            None
        }
    }
}

/// Decoding of the first record of `b`.
pub open spec fn dec_record(b: Seq<u8>) -> Option<AlarmView> {
    if b.len() < 8 {
        None
    } else {
        let idlen = spec_u64_from_le_bytes(b.subrange(0, 8)) as int;
        if b.len() < 20 + 4 * idlen {
            None
        } else {
            match dec_chars(b.subrange(8, 8 + 4 * idlen)) {
                Some(id) => Some(
                    AlarmView {
                        id,
                        unix_time: from_u64_spec(
                            spec_u64_from_le_bytes(b.subrange(8 + 4 * idlen, 16 + 4 * idlen)),
                        ),
                        ring_seconds: spec_u32_from_le_bytes(
                            b.subrange(16 + 4 * idlen, 20 + 4 * idlen),
                        ) as int,
                    },
                ),
                None => None,
            }
        }
    }
}

/// Decoding of a whole snapshot; rejects any input that is not exactly an
/// encoded sequence of records.
pub open spec fn dec_alarms(b: Seq<u8>) -> Option<Seq<AlarmView>>
    decreases b.len(),
{
    if b.len() == 0 {
        Some(Seq::empty())
    } else if b.len() < 8 {
        None
    } else {
        let idlen = spec_u64_from_le_bytes(b.subrange(0, 8)) as int;
        if b.len() < 20 + 4 * idlen {
            None
        } else {
            match dec_record(b) {
                Some(a) => match dec_alarms(b.subrange(20 + 4 * idlen, b.len() as int)) {
                    Some(rest) => Some(seq![a] + rest),
                    None => None,
                },
                None => None,
            }
        }
    }
}

/// A decoded id has one character per four input bytes.
proof fn lemma_dec_chars_len(b: Seq<u8>)
    ensures
        dec_chars(b) matches Some(cs) ==> 4 * cs.len() == b.len(),
    decreases b.len(),
{
    if b.len() >= 4 {
        lemma_dec_chars_len(b.subrange(4, b.len() as int));
    }
}

/// How `dec_alarms` unfolds once the first record is understood.
proof fn lemma_dec_alarms_step(b: Seq<u8>)
    requires
        b.len() > 0,
    ensures
        match dec_record(b) {
            Some(a) => dec_alarms(b) == (match dec_alarms(
                b.subrange(20 + 4 * (a.id.len() as int), b.len() as int),
            ) {
                Some(rest) => Some(seq![a] + rest),
                None => None::<Seq<AlarmView>>,
            }),
            None => dec_alarms(b) is None,
        },
{
    if b.len() >= 8 {
        let idlen = spec_u64_from_le_bytes(b.subrange(0, 8)) as int;
        if b.len() >= 20 + 4 * idlen {
            if dec_record(b) is Some {
                lemma_dec_chars_len(b.subrange(8, 8 + 4 * idlen));
            }
        }
    }
}

proof fn lemma_enc_chars_len(cs: Seq<char>)
    ensures
        enc_chars(cs).len() == 4 * cs.len(),
    decreases cs.len(),
{
    lemma_auto_spec_u32_to_from_le_bytes();
    if cs.len() > 0 {
        lemma_enc_chars_len(cs.drop_first());
    }
}

proof fn lemma_enc_chars_app(c1: Seq<char>, c2: Seq<char>)
    ensures
        enc_chars(c1 + c2) == enc_chars(c1) + enc_chars(c2),
    decreases c1.len(),
{
    if c1.len() == 0 {
        assert(c1 + c2 =~= c2);
        assert(enc_chars(c1) + enc_chars(c2) =~= enc_chars(c2));
    } else {
        lemma_enc_chars_app(c1.drop_first(), c2);
        assert((c1 + c2).drop_first() =~= c1.drop_first() + c2);
        assert((c1 + c2)[0] == c1[0]);
        assert(spec_u32_to_le_bytes(c1[0] as u32) + (enc_chars(c1.drop_first()) + enc_chars(c2))
            =~= (spec_u32_to_le_bytes(c1[0] as u32) + enc_chars(c1.drop_first())) + enc_chars(c2));
    }
}

proof fn lemma_enc_alarms_app(s1: Seq<AlarmView>, s2: Seq<AlarmView>)
    ensures
        enc_alarms(s1 + s2) == enc_alarms(s1) + enc_alarms(s2),
    decreases s1.len(),
{
    if s1.len() == 0 {
        assert(s1 + s2 =~= s2);
        assert(enc_alarms(s1) + enc_alarms(s2) =~= enc_alarms(s2));
    } else {
        lemma_enc_alarms_app(s1.drop_first(), s2);
        assert((s1 + s2).drop_first() =~= s1.drop_first() + s2);
        assert((s1 + s2)[0] == s1[0]);
        assert(enc_alarm(s1[0]) + (enc_alarms(s1.drop_first()) + enc_alarms(s2)) =~= (enc_alarm(
            s1[0],
        ) + enc_alarms(s1.drop_first())) + enc_alarms(s2));
    }
}

proof fn lemma_enc_alarm_len(a: AlarmView)
    requires
        wf_view(a),
    ensures
        enc_alarm(a).len() == 20 + 4 * (a.id.len() as int),
{
    lemma_auto_spec_u32_to_from_le_bytes();
    lemma_auto_spec_u64_to_from_le_bytes();
    lemma_enc_chars_len(a.id);
}

proof fn lemma_dec_chars_of_enc(cs: Seq<char>)
    ensures
        dec_chars(enc_chars(cs)) == Some(cs),
    decreases cs.len(),
{
    lemma_auto_spec_u32_to_from_le_bytes();
    if cs.len() == 0 {
        assert(dec_chars(enc_chars(cs)) == Some(Seq::<char>::empty()));
        assert(Seq::<char>::empty() =~= cs);
    } else {
        let b = enc_chars(cs);
        let head = spec_u32_to_le_bytes(cs[0] as u32);
        let tail = enc_chars(cs.drop_first());
        lemma_enc_chars_len(cs);
        assert(b.subrange(0, 4) =~= head);
        let v = spec_u32_from_le_bytes(b.subrange(0, 4));
        assert(v == cs[0] as u32);
        char_is_scalar(cs[0]);
        char_u32_cast(cs[0], v);
        assert(b.subrange(4, b.len() as int) =~= tail);
        lemma_dec_chars_of_enc(cs.drop_first());
        assert(seq![v as char] + cs.drop_first() =~= cs);
    }
}

proof fn lemma_dec_record_of_enc(a: AlarmView, rest: Seq<u8>)
    requires
        wf_view(a),
    ensures
        dec_record(enc_alarm(a) + rest) == Some(a),
        spec_u64_from_le_bytes((enc_alarm(a) + rest).subrange(0, 8)) == a.id.len() as u64,
{
    lemma_auto_spec_u32_to_from_le_bytes();
    lemma_auto_spec_u64_to_from_le_bytes();
    lemma_enc_chars_len(a.id);
    let b = enc_alarm(a) + rest;
    let idlen = a.id.len() as int;
    assert(b.subrange(0, 8) =~= spec_u64_to_le_bytes(a.id.len() as u64));
    assert(spec_u64_from_le_bytes(b.subrange(0, 8)) == a.id.len() as u64);
    assert((a.id.len() as u64) as int == idlen);
    assert(b.len() >= 20 + 4 * idlen);
    assert(b.subrange(8, 8 + 4 * idlen) =~= enc_chars(a.id));
    lemma_dec_chars_of_enc(a.id);
    assert(b.subrange(8 + 4 * idlen, 16 + 4 * idlen) =~= spec_u64_to_le_bytes(
        to_u64_spec(a.unix_time),
    ));
    lemma_u64_round(a.unix_time);
    assert(b.subrange(16 + 4 * idlen, 20 + 4 * idlen) =~= spec_u32_to_le_bytes(
        a.ring_seconds as u32,
    ));
    assert((a.ring_seconds as u32) as int == a.ring_seconds);
}

/// Round trip: decoding an encoded snapshot yields exactly the alarms that
/// were encoded, whatever their order of insertion was.
pub proof fn lemma_snapshot_round_trip(s: Seq<AlarmView>)
    requires
        forall|i: int| 0 <= i < s.len() ==> wf_view(#[trigger] s[i]),
    ensures
        dec_alarms(enc_alarms(s)) == Some(s),
    decreases s.len(),
{
    if s.len() == 0 {
        assert(enc_alarms(s).len() == 0);
        assert(Seq::<AlarmView>::empty() =~= s);
    } else {
        let a = s[0];
        let rest = s.drop_first();
        let b = enc_alarms(s);
        lemma_dec_record_of_enc(a, enc_alarms(rest));
        lemma_enc_alarm_len(a);
        lemma_dec_alarms_step(b);
        assert(b.subrange(20 + 4 * (a.id.len() as int), b.len() as int) =~= enc_alarms(rest));
        assert(forall|i: int| 0 <= i < rest.len() ==> wf_view(#[trigger] rest[i]));
        lemma_snapshot_round_trip(rest);
        assert(seq![a] + rest =~= s);
    }
}

/// Two's complement conversion of a trigger time for encoding.
fn u64_of_i64(x: i64) -> (r: u64)
    ensures
        r == to_u64_spec(x as int),
{
    if x >= 0 {
        x as u64
    } else {
        ((x as i128) + 0x10000000000000000i128) as u64
    }
}

/// Two's complement reading of a decoded trigger time.
fn i64_of_u64(u: u64) -> (r: i64)
    ensures
        r as int == from_u64_spec(u),
{
    if u < 0x8000000000000000u64 {
        u as i64
    } else {
        ((u as i128) - 0x10000000000000000i128) as i64
    }
}

/// Append the record for one alarm.
fn encode_alarm_into(out: &mut Vec<u8>, a: &Alarm)
    ensures
        final(out)@ == old(out)@ + enc_alarm(a@),
{
    let nchars = a.id.as_str().unicode_len();
    let mut hb = u64_to_le_bytes(nchars as u64);
    out.append(&mut hb);
    let ghost base = old(out)@ + spec_u64_to_le_bytes(a.id@.len() as u64);
    assert(out@ == base);
    proof {
        assert(a.id@.take(0) =~= Seq::<char>::empty());
        assert(enc_chars(Seq::<char>::empty()) == Seq::<u8>::empty());
        assert(out@ =~= base + enc_chars(a.id@.take(0)));
    }
    let mut k: usize = 0;
    while k < nchars
        invariant
            k <= nchars,
            nchars == a.id@.len(),
            out@ == base + enc_chars(a.id@.take(k as int)),
        decreases nchars - k,
    {
        let c = a.id.as_str().get_char(k);
        let mut cb = u32_to_le_bytes(c as u32);
        out.append(&mut cb);
        proof {
            lemma_enc_chars_app(a.id@.take(k as int), seq![a.id@[k as int]]);
            assert(a.id@.take(k + 1 as int) =~= a.id@.take(k as int) + seq![a.id@[k as int]]);
            let ghost one = seq![a.id@[k as int]];
            assert(one.drop_first() =~= Seq::<char>::empty());
            assert(enc_chars(Seq::<char>::empty()) == Seq::<u8>::empty());
            assert(enc_chars(one) == spec_u32_to_le_bytes(one[0] as u32) + enc_chars(
                one.drop_first(),
            ));
            assert(enc_chars(one) =~= spec_u32_to_le_bytes(a.id@[k as int] as u32));
            assert(out@ =~= base + enc_chars(a.id@.take(k + 1 as int)));
        }
        k += 1;
    }
    assert(a.id@.take(nchars as int) =~= a.id@);
    let ub = u64_of_i64(a.unix_time);
    let mut tb = u64_to_le_bytes(ub);
    out.append(&mut tb);
    let mut rb = u32_to_le_bytes(a.ring_seconds);
    out.append(&mut rb);
    proof {
        assert((a@.ring_seconds as u32) == a.ring_seconds);
        assert(out@ =~= old(out)@ + enc_alarm(a@));
    }
}

/// Encode a snapshot of the given alarms.
pub fn encode_alarms(alarms: &Vec<Alarm>) -> (r: Vec<u8>)
    ensures
        r@ == enc_alarms(views_of(alarms@)),
{
    let mut out: Vec<u8> = Vec::new();
    let n = alarms.len();
    proof {
        assert(views_of(alarms@).take(0) =~= Seq::<AlarmView>::empty());
        assert(enc_alarms(Seq::<AlarmView>::empty()) == Seq::<u8>::empty());
        assert(out@ =~= enc_alarms(views_of(alarms@).take(0)));
    }
    let mut i: usize = 0;
    while i < n
        invariant
            i <= n,
            n == alarms@.len(),
            out@ == enc_alarms(views_of(alarms@).take(i as int)),
        decreases n - i,
    {
        let ghost pre = views_of(alarms@).take(i as int);
        encode_alarm_into(&mut out, &alarms[i]);
        proof {
            let av = alarms@[i as int]@;
            lemma_enc_alarms_app(pre, seq![av]);
            assert(views_of(alarms@).take(i + 1 as int) =~= pre + seq![av]);
            let ghost one = seq![av];
            assert(one.drop_first() =~= Seq::<AlarmView>::empty());
            assert(enc_alarms(Seq::<AlarmView>::empty()) == Seq::<u8>::empty());
            assert(enc_alarms(one) == enc_alarm(one[0]) + enc_alarms(one.drop_first()));
            assert(enc_alarms(one) =~= enc_alarm(av));
            assert(out@ =~= enc_alarms(views_of(alarms@).take(i + 1 as int)));
        }
        i += 1;
    }
    proof {
        assert(views_of(alarms@).take(n as int) =~= views_of(alarms@));
    }
    out
}

/// Decode the record that starts at `pos`, returning the alarm and the
/// position just past the record.
fn decode_record(bytes: &Vec<u8>, pos: usize) -> (r: Option<(Alarm, usize)>)
    requires
        pos <= bytes@.len(),
    ensures
        match r {
            Some(p) => {
                &&& dec_record(bytes@.subrange(pos as int, bytes@.len() as int)) == Some(p.0@)
                &&& pos < p.1 <= bytes@.len()
                &&& p.1 - pos == 20 + 4 * p.0@.id.len()
            },
            None => dec_record(bytes@.subrange(pos as int, bytes@.len() as int)) is None,
        },
{
    let len = bytes.len();
    let ghost b = bytes@.subrange(pos as int, bytes@.len() as int);
    if len - pos < 8 {
        return None;
    }
    let hdr = slice_subrange(bytes.as_slice(), pos, pos + 8);
    let idlen64 = u64_from_le_bytes(hdr);
    proof {
        assert(b.subrange(0, 8) =~= bytes@.subrange(pos as int, pos + 8));
    }
    if ((len - pos) as u128) < 20 + 4 * (idlen64 as u128) {
        return None;
    }
    assert(4 * (idlen64 as int) <= (len - pos) as int - 20);
    let idlen = idlen64 as usize;
    let ghost section = bytes@.subrange(pos + 8, pos + 8 + 4 * (idlen as int));
    let mut id = String::new();
    proof {
        assert(section.subrange(0, section.len() as int) =~= section);
        match dec_chars(section) {
            Some(cs) => {
                assert(Seq::<char>::empty() + cs =~= cs);
            },
            None => {},
        }
    }
    let mut k: usize = 0;
    while k < idlen
        invariant
            k <= idlen,
            bytes@.len() <= usize::MAX,
            pos + 20 + 4 * (idlen as int) <= bytes@.len(),
            b == bytes@.subrange(pos as int, bytes@.len() as int),
            spec_u64_from_le_bytes(bytes@.subrange(pos as int, pos + 8)) as int == idlen as int,
            section == bytes@.subrange(pos + 8, pos + 8 + 4 * (idlen as int)),
            section.len() == 4 * idlen,
            match dec_chars(section.subrange(4 * (k as int), section.len() as int)) {
                Some(cs) => dec_chars(section) == Some(id@ + cs),
                None => dec_chars(section) is None,
            },
        decreases idlen - k,
    {
        let ghost sub = section.subrange(4 * (k as int), section.len() as int);
        let cb = slice_subrange(bytes.as_slice(), pos + 8 + 4 * k, pos + 8 + 4 * k + 4);
        let v = u32_from_le_bytes(cb);
        proof {
            assert(sub.subrange(0, 4) =~= bytes@.subrange(
                pos + 8 + 4 * (k as int),
                pos + 8 + 4 * (k as int) + 4,
            ));
            assert(spec_u32_from_le_bytes(sub.subrange(0, 4)) == v);
            assert(sub.len() >= 4);
        }
        match char::from_u32(v) {
            None => {
                proof {
                    assert(dec_chars(sub) is None);
                    assert(dec_chars(section) is None);
                    assert(b.subrange(8, 8 + 4 * (idlen as int)) =~= section);
                    assert(b.subrange(0, 8) =~= bytes@.subrange(pos as int, pos + 8));
                    assert(dec_record(b) is None);
                }
                return None;
            },
            Some(c) => {
                let ghost old_id = id@;
                id.push(c);
                proof {
                    char_u32_cast(c, v);
                    let tail = sub.subrange(4, sub.len() as int);
                    assert(tail =~= section.subrange(4 * (k + 1 as int), section.len() as int));
                    match dec_chars(tail) {
                        Some(cs) => {
                            assert(dec_chars(sub) == Some(seq![v as char] + cs));
                            assert(old_id + (seq![v as char] + cs) =~= id@ + cs);
                        },
                        None => {
                            assert(dec_chars(sub) is None);
                        },
                    }
                }
                k += 1;
            },
        }
    }
    proof {
        assert(section.subrange(4 * (idlen as int), section.len() as int) =~= Seq::<u8>::empty());
        assert(dec_chars(section.subrange(4 * (idlen as int), section.len() as int)) == Some(
            Seq::<char>::empty(),
        ));
        assert(id@ + Seq::<char>::empty() =~= id@);
        assert(dec_chars(section) == Some(id@));
        lemma_dec_chars_len(section);
    }
    let p_time = pos + 8 + 4 * idlen;
    let tb = slice_subrange(bytes.as_slice(), p_time, p_time + 8);
    let unix_time = i64_of_u64(u64_from_le_bytes(tb));
    let rb = slice_subrange(bytes.as_slice(), p_time + 8, p_time + 12);
    let ring_seconds = u32_from_le_bytes(rb);
    let alarm = Alarm { id, unix_time, ring_seconds };
    proof {
        assert(b.subrange(0, 8) =~= bytes@.subrange(pos as int, pos + 8));
        assert(b.len() >= 20 + 4 * (idlen as int));
        assert(b.subrange(8, 8 + 4 * (idlen as int)) =~= section);
        assert(b.subrange(8 + 4 * (idlen as int), 16 + 4 * (idlen as int)) =~= bytes@.subrange(
            p_time as int,
            p_time + 8,
        ));
        assert(b.subrange(16 + 4 * (idlen as int), 20 + 4 * (idlen as int)) =~= bytes@.subrange(
            p_time + 8,
            p_time + 12,
        ));
        assert(dec_record(b) == Some(alarm@));
    }
    Some((alarm, p_time + 12))
}

/// Decode a whole snapshot; `None` when the bytes are not exactly an encoded
/// sequence of records.
pub fn decode_alarms(bytes: &Vec<u8>) -> (r: Option<Vec<Alarm>>)
    ensures
        match r {
            Some(v) => dec_alarms(bytes@) == Some(views_of(v@)),
            None => dec_alarms(bytes@) is None,
        },
{
    let len = bytes.len();
    let mut out: Vec<Alarm> = Vec::new();
    proof {
        assert(bytes@.subrange(0, len as int) =~= bytes@);
        assert(views_of(out@) =~= Seq::<AlarmView>::empty());
        match dec_alarms(bytes@) {
            Some(rest) => {
                assert(views_of(out@) + rest =~= rest);
            },
            None => {},
        }
    }
    let mut pos: usize = 0;
    while pos < len
        invariant
            pos <= len,
            len == bytes@.len(),
            match dec_alarms(bytes@.subrange(pos as int, len as int)) {
                Some(rest) => dec_alarms(bytes@) == Some(views_of(out@) + rest),
                None => dec_alarms(bytes@) is None,
            },
        decreases len - pos,
    {
        let ghost t0 = bytes@.subrange(pos as int, len as int);
        match decode_record(bytes, pos) {
            None => {
                proof {
                    lemma_dec_alarms_step(t0);
                }
                return None;
            },
            Some((alarm, newpos)) => {
                let ghost prev_out = out@;
                out.push(alarm);
                proof {
                    lemma_dec_alarms_step(t0);
                    let t1 = bytes@.subrange(newpos as int, len as int);
                    assert(t0.subrange(20 + 4 * (alarm@.id.len() as int), t0.len() as int) =~= t1);
                    assert(views_of(out@) =~= views_of(prev_out) + seq![alarm@]);
                    match dec_alarms(t1) {
                        Some(rest) => {
                            assert(views_of(prev_out) + (seq![alarm@] + rest) =~= views_of(out@)
                                + rest);
                        },
                        None => {},
                    }
                }
                pos = newpos;
            },
        }
    }
    proof {
        assert(bytes@.subrange(pos as int, len as int) =~= Seq::<u8>::empty());
        assert(dec_alarms(bytes@.subrange(pos as int, len as int)) == Some(Seq::<AlarmView>::empty()));
        assert(views_of(out@) + Seq::<AlarmView>::empty() =~= views_of(out@));
    }
    Some(out)
}

} // verus!
