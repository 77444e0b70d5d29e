//! On-disk encoding of the observation log.
//!
//! The log is stored as the concatenation of one record per observation, in
//! append order. A record is the snapshot instant as eight little-endian
//! bytes, followed by the five report slots in a fixed tag order
//! (device, tpv, sky, pps, gst). An empty slot is the single byte 0; a filled
//! slot is the byte 1, the body length as eight little-endian bytes, and the
//! body itself. The empty log is the empty byte string, so a freshly created
//! file reads back as an empty log.

use vstd::prelude::*;

use crate::observation::{ObservationModel, slot_model, Observation};
use crate::report::{Report, ReportKind};

verus! {

/// A payload small enough for its length to be stored in eight bytes; every
/// payload that fits in memory is.
pub open spec fn slot_len_ok(m: Option<Seq<u8>>) -> bool {
    m matches Some(p) ==> p.len() <= u64::MAX
}

/// Every slot of the model can store its length in eight bytes.
pub open spec fn obs_model_len_ok(m: ObservationModel) -> bool {
    &&& slot_len_ok(m.device)
    &&& slot_len_ok(m.tpv)
    &&& slot_len_ok(m.sky)
    &&& slot_len_ok(m.pps)
    &&& slot_len_ok(m.gst)
}

/// Every entry of the log model can be encoded.
pub open spec fn log_model_len_ok(s: Seq<ObservationModel>) -> bool {
    forall|i: int| 0 <= i < s.len() ==> obs_model_len_ok(#[trigger] s[i])
}

/// The eight little-endian bytes of a 64-bit value.
pub open spec fn u64_le_bytes(x: u64) -> Seq<u8> {
    seq![
        (x & 0xff) as u8,
        ((x >> 8) & 0xff) as u8,
        ((x >> 16) & 0xff) as u8,
        ((x >> 24) & 0xff) as u8,
        ((x >> 32) & 0xff) as u8,
        ((x >> 40) & 0xff) as u8,
        ((x >> 48) & 0xff) as u8,
        ((x >> 56) & 0xff) as u8,
    ]
}

/// The 64-bit value read from eight little-endian bytes.
pub open spec fn u64_from_le(b: Seq<u8>) -> u64
    recommends
        b.len() == 8,
{
    (b[0] as u64) | ((b[1] as u64) << 8) | ((b[2] as u64) << 16) | ((b[3] as u64) << 24) | ((
    b[4] as u64) << 32) | ((b[5] as u64) << 40) | ((b[6] as u64) << 48) | ((b[7] as u64) << 56)
}

/// The encoding of one report slot.
pub open spec fn enc_slot(m: Option<Seq<u8>>) -> Seq<u8> {
    match m {
        None => seq![0u8],
        Some(p) => seq![1u8] + u64_le_bytes(p.len() as u64) + p,
    }
}

/// The encoding of one observation record.
pub open spec fn enc_obs(m: ObservationModel) -> Seq<u8> {
    u64_le_bytes(m.timestamp_millis) + enc_slot(m.device) + enc_slot(m.tpv) + enc_slot(m.sky)
        + enc_slot(m.pps) + enc_slot(m.gst)
}

/// The encoding of a whole log: its records, in order.
pub open spec fn enc_log(s: Seq<ObservationModel>) -> Seq<u8>
    decreases s.len(),
{
    if s.len() == 0 {
        Seq::empty()
    } else {
        enc_obs(s[0]) + enc_log(s.drop_first())
    }
}

/// Reads a 64-bit value off the front of the input; fails on a short input.
pub open spec fn dec_u64(b: Seq<u8>) -> Option<(u64, Seq<u8>)> {
    if b.len() >= 8 {
        Some((u64_from_le(b.take(8)), b.skip(8)))
    } else {
        None
    }
}

/// Reads one report slot off the front of the input.
pub open spec fn dec_slot(b: Seq<u8>) -> Option<(Option<Seq<u8>>, Seq<u8>)> {
    if b.len() == 0 {
        None
    } else if b[0] == 0 {
        Some((None, b.skip(1)))
    } else if b[0] == 1 {
        match dec_u64(b.skip(1)) {
            None => None,
            Some((n, b2)) => if n <= b2.len() {
                Some((Some(b2.take(n as int)), b2.skip(n as int)))
            } else {
                None
            },
        }
    } else {
        None
    }
}

/// Reads one observation record off the front of the input.
#[verifier::opaque]
pub open spec fn dec_obs(b: Seq<u8>) -> Option<(ObservationModel, Seq<u8>)> {
    match dec_u64(b) {
        None => None,
        Some((ts, b1)) => match dec_slot(b1) {
            None => None,
            Some((device, b2)) => match dec_slot(b2) {
                None => None,
                Some((tpv, b3)) => match dec_slot(b3) {
                    None => None,
                    Some((sky, b4)) => match dec_slot(b4) {
                        None => None,
                        Some((pps, b5)) => match dec_slot(b5) {
                            None => None,
                            Some((gst, b6)) => Some(
                                (
                                    ObservationModel {
                                        timestamp_millis: ts,
                                        device,
                                        tpv,
                                        sky,
                                        pps,
                                        gst,
                                    },
                                    b6,
                                ),
                            ),
                        },
                    },
                },
            },
        },
    }
}

/// Reads a whole log: records until the input is exhausted. Leftover bytes
/// that do not form a record make the whole input malformed.
pub open spec fn dec_log(b: Seq<u8>) -> Option<Seq<ObservationModel>>
    decreases b.len(),
{
    if b.len() == 0 {
        Some(Seq::empty())
    } else {
        match dec_obs(b) {
            None => None,
            Some((m, rest)) => if rest.len() < b.len() {
                match dec_log(rest) {
                    None => None,
                    Some(s) => Some(seq![m] + s),
                }
            } else {
                None
            },
        }
    }
}

pub proof fn lemma_u64_le_round(x: u64)
    ensures
        u64_from_le(u64_le_bytes(x)) == x,
{
    let s = u64_le_bytes(x);
    assert(s.len() == 8);
    assert((((x & 0xff) as u8) as u64) | (((((x >> 8) & 0xff) as u8) as u64) << 8) | (((((x >> 16)
        & 0xff) as u8) as u64) << 16) | (((((x >> 24) & 0xff) as u8) as u64) << 24) | (((((x >> 32)
        & 0xff) as u8) as u64) << 32) | (((((x >> 40) & 0xff) as u8) as u64) << 40) | (((((x >> 48)
        & 0xff) as u8) as u64) << 48) | (((((x >> 56) & 0xff) as u8) as u64) << 56) == x)
        by (bit_vector);
}

pub proof fn lemma_u64_le_bytes_of(b: Seq<u8>)
    requires
        b.len() == 8,
    ensures
        u64_le_bytes(u64_from_le(b)) == b,
{
    let b0 = b[0];
    let b1 = b[1];
    let b2 = b[2];
    let b3 = b[3];
    let b4 = b[4];
    let b5 = b[5];
    let b6 = b[6];
    let b7 = b[7];
    let x = u64_from_le(b);
    assert(x == (b0 as u64) | ((b1 as u64) << 8) | ((b2 as u64) << 16) | ((b3 as u64) << 24) | ((
    b4 as u64) << 32) | ((b5 as u64) << 40) | ((b6 as u64) << 48) | ((b7 as u64) << 56));
    assert({
        let y = (b0 as u64) | ((b1 as u64) << 8) | ((b2 as u64) << 16) | ((b3 as u64) << 24) | ((
        b4 as u64) << 32) | ((b5 as u64) << 40) | ((b6 as u64) << 48) | ((b7 as u64) << 56);
        ((y & 0xff) as u8 == b0) && (((y >> 8) & 0xff) as u8 == b1) && (((y >> 16) & 0xff) as u8
            == b2) && (((y >> 24) & 0xff) as u8 == b3) && (((y >> 32) & 0xff) as u8 == b4) && (((y
            >> 40) & 0xff) as u8 == b5) && (((y >> 48) & 0xff) as u8 == b6) && (((y >> 56)
            & 0xff) as u8 == b7)
    }) by (bit_vector);
    assert(u64_le_bytes(x) =~= b);
}

pub proof fn lemma_dec_u64_of_enc(x: u64, rest: Seq<u8>)
    ensures
        dec_u64(u64_le_bytes(x) + rest) == Some((x, rest)),
{
    let b = u64_le_bytes(x) + rest;
    assert(b.take(8) =~= u64_le_bytes(x));
    assert(b.skip(8) =~= rest);
    lemma_u64_le_round(x);
}

pub proof fn lemma_dec_u64_sound(b: Seq<u8>, x: u64, rest: Seq<u8>)
    requires
        dec_u64(b) == Some((x, rest)),
    ensures
        b == u64_le_bytes(x) + rest,
        rest.len() == b.len() - 8,
{
    lemma_u64_le_bytes_of(b.take(8));
    assert(b =~= b.take(8) + b.skip(8));
}

pub proof fn lemma_dec_slot_of_enc(m: Option<Seq<u8>>, rest: Seq<u8>)
    requires
        slot_len_ok(m),
    ensures
        dec_slot(enc_slot(m) + rest) == Some((m, rest)),
{
    match m {
        None => {
            let b = enc_slot(m) + rest;
            assert(b[0] == 0);
            assert(b.skip(1) =~= rest);
        },
        Some(p) => {
            let b = enc_slot(m) + rest;
            let n = p.len() as u64;
            assert(b[0] == 1);
            assert(b.skip(1) =~= u64_le_bytes(n) + (p + rest));
            lemma_dec_u64_of_enc(n, p + rest);
            assert(n as int == p.len());
            assert((p + rest).take(n as int) =~= p);
            assert((p + rest).skip(n as int) =~= rest);
        },
    }
}

pub proof fn lemma_dec_slot_sound(b: Seq<u8>, m: Option<Seq<u8>>, rest: Seq<u8>)
    requires
        dec_slot(b) == Some((m, rest)),
    ensures
        b == enc_slot(m) + rest,
        rest.len() < b.len(),
        slot_len_ok(m),
{
    if b[0] == 0 {
        assert(b =~= seq![0u8] + b.skip(1));
    } else {
        let (n, b2) = dec_u64(b.skip(1)).unwrap();
        lemma_dec_u64_sound(b.skip(1), n, b2);
        let p = b2.take(n as int);
        assert(p.len() == n as int);
        assert(p.len() as u64 == n);
        assert(b =~= seq![1u8] + b.skip(1));
        assert(b2 =~= p + b2.skip(n as int));
        assert(b =~= (seq![1u8] + u64_le_bytes(n) + p) + b2.skip(n as int));
        assert(enc_slot(m) == seq![1u8] + u64_le_bytes(n) + p);
    }
}

#[verifier::rlimit(50)]
pub proof fn lemma_dec_obs_of_enc(m: ObservationModel, rest: Seq<u8>)
    requires
        obs_model_len_ok(m),
    ensures
        dec_obs(enc_obs(m) + rest) == Some((m, rest)),
{
    reveal(dec_obs);
    let b = enc_obs(m) + rest;
    let e0 = u64_le_bytes(m.timestamp_millis);
    let s1 = enc_slot(m.device);
    let s2 = enc_slot(m.tpv);
    let s3 = enc_slot(m.sky);
    let s4 = enc_slot(m.pps);
    let s5 = enc_slot(m.gst);
    let r5 = s5 + rest;
    let r4 = s4 + r5;
    let r3 = s3 + r4;
    let r2 = s2 + r3;
    let r1 = s1 + r2;
    let p1 = e0 + s1;
    let p2 = p1 + s2;
    let p3 = p2 + s3;
    let p4 = p3 + s4;
    assert(enc_obs(m) == p4 + s5);
    lemma_seq_assoc(p4, s5, rest);
    assert(b == p4 + r5);
    lemma_seq_assoc(p3, s4, r5);
    assert(b == p3 + r4);
    lemma_seq_assoc(p2, s3, r4);
    assert(b == p2 + r3);
    lemma_seq_assoc(p1, s2, r3);
    assert(b == p1 + r2);
    lemma_seq_assoc(e0, s1, r2);
    assert(b == e0 + r1);
    lemma_dec_u64_of_enc(m.timestamp_millis, r1);
    assert(dec_u64(b) == Some((m.timestamp_millis, r1)));
    lemma_dec_slot_of_enc(m.device, r2);
    assert(dec_slot(r1) == Some((m.device, r2)));
    lemma_dec_slot_of_enc(m.tpv, r3);
    assert(dec_slot(r2) == Some((m.tpv, r3)));
    lemma_dec_slot_of_enc(m.sky, r4);
    assert(dec_slot(r3) == Some((m.sky, r4)));
    lemma_dec_slot_of_enc(m.pps, r5);
    assert(dec_slot(r4) == Some((m.pps, r5)));
    lemma_dec_slot_of_enc(m.gst, rest);
    assert(dec_slot(r5) == Some((m.gst, rest)));
    assert(dec_obs(b) == Some(
        (
            ObservationModel {
                timestamp_millis: m.timestamp_millis,
                device: m.device,
                tpv: m.tpv,
                sky: m.sky,
                pps: m.pps,
                gst: m.gst,
            },
            rest,
        ),
    ));
    assert(ObservationModel {
        timestamp_millis: m.timestamp_millis,
        device: m.device,
        tpv: m.tpv,
        sky: m.sky,
        pps: m.pps,
        gst: m.gst,
    } =~= m);
}

proof fn lemma_seq_assoc(x: Seq<u8>, y: Seq<u8>, z: Seq<u8>)
    ensures
        (x + y) + z == x + (y + z),
{
    assert((x + y) + z =~= x + (y + z));
}

#[verifier::rlimit(50)]
proof fn lemma_obs_parts_sound(
    b: Seq<u8>,
    m: ObservationModel,
    b1: Seq<u8>,
    b2: Seq<u8>,
    b3: Seq<u8>,
    b4: Seq<u8>,
    b5: Seq<u8>,
    b6: Seq<u8>,
)
    requires
        dec_u64(b) == Some((m.timestamp_millis, b1)),
        dec_slot(b1) == Some((m.device, b2)),
        dec_slot(b2) == Some((m.tpv, b3)),
        dec_slot(b3) == Some((m.sky, b4)),
        dec_slot(b4) == Some((m.pps, b5)),
        dec_slot(b5) == Some((m.gst, b6)),
    ensures
        b == enc_obs(m) + b6,
        b6.len() <= b.len() - 13,
        obs_model_len_ok(m),
{
    lemma_dec_u64_sound(b, m.timestamp_millis, b1);
    lemma_dec_slot_sound(b1, m.device, b2);
    lemma_dec_slot_sound(b2, m.tpv, b3);
    lemma_dec_slot_sound(b3, m.sky, b4);
    lemma_dec_slot_sound(b4, m.pps, b5);
    lemma_dec_slot_sound(b5, m.gst, b6);
    let e0 = u64_le_bytes(m.timestamp_millis);
    let s1 = enc_slot(m.device);
    let s2 = enc_slot(m.tpv);
    let s3 = enc_slot(m.sky);
    let s4 = enc_slot(m.pps);
    let s5 = enc_slot(m.gst);
    lemma_seq_assoc(e0, s1, b2);
    assert(b == (e0 + s1) + b2);
    lemma_seq_assoc(e0 + s1, s2, b3);
    assert(b == ((e0 + s1) + s2) + b3);
    lemma_seq_assoc((e0 + s1) + s2, s3, b4);
    assert(b == (((e0 + s1) + s2) + s3) + b4);
    lemma_seq_assoc(((e0 + s1) + s2) + s3, s4, b5);
    assert(b == ((((e0 + s1) + s2) + s3) + s4) + b5);
    lemma_seq_assoc((((e0 + s1) + s2) + s3) + s4, s5, b6);
    assert(b == (((((e0 + s1) + s2) + s3) + s4) + s5) + b6);
    assert(enc_obs(m) == ((((e0 + s1) + s2) + s3) + s4) + s5);
}

#[verifier::rlimit(100)]
pub proof fn lemma_dec_obs_sound(b: Seq<u8>, m: ObservationModel, rest: Seq<u8>)
    requires
        dec_obs(b) == Some((m, rest)),
    ensures
        b == enc_obs(m) + rest,
        rest.len() <= b.len() - 13,
        obs_model_len_ok(m),
{
    reveal(dec_obs);
    let (ts, b1) = dec_u64(b).unwrap();
    let (device, b2) = dec_slot(b1).unwrap();
    let (tpv, b3) = dec_slot(b2).unwrap();
    let (sky, b4) = dec_slot(b3).unwrap();
    let (pps, b5) = dec_slot(b4).unwrap();
    let (gst, b6) = dec_slot(b5).unwrap();
    assert(m.timestamp_millis == ts && m.device == device && m.tpv == tpv && m.sky == sky && m.pps
        == pps && m.gst == gst && rest == b6);
    lemma_obs_parts_sound(b, m, b1, b2, b3, b4, b5, b6);
}

/// Every observation record is at least thirteen bytes long.
pub proof fn lemma_enc_obs_len(m: ObservationModel)
    ensures
        enc_obs(m).len() >= 13,
{
}

/// Appending one observation appends its record to the encoded log and
/// changes no earlier byte: the bytes persisted after an append extend the
/// bytes persisted before it.
pub proof fn lemma_enc_log_snoc(s: Seq<ObservationModel>, m: ObservationModel)
    ensures
        enc_log(s.push(m)) == enc_log(s) + enc_obs(m),
        enc_log(s.push(m)).take(enc_log(s).len() as int) == enc_log(s),
    decreases s.len(),
{
    if s.len() == 0 {
        assert(s.push(m)[0] == m);
        assert(s.push(m).drop_first() =~= Seq::empty());
        assert(enc_log(s.push(m)) == enc_obs(m) + enc_log(Seq::empty()));
        assert(enc_log(s.push(m)) =~= enc_log(s) + enc_obs(m));
    } else {
        lemma_enc_log_snoc(s.drop_first(), m);
        assert(s.push(m).drop_first() =~= s.drop_first().push(m));
        assert(s.push(m)[0] == s[0]);
        assert(enc_log(s.push(m)) == enc_obs(s[0]) + enc_log(s.drop_first().push(m)));
        assert(enc_log(s.push(m)) =~= enc_log(s) + enc_obs(m));
    }
    let e = enc_log(s.push(m));
    assert(e.take(enc_log(s).len() as int) =~= enc_log(s));
}

/// Serialization round-trip: decoding the encoding of any log model gives
/// back exactly that model — same entries, same order, same slot contents.
#[verifier::rlimit(100)]
pub proof fn lemma_serialization_round_trip(s: Seq<ObservationModel>)
    requires
        log_model_len_ok(s),
    ensures
        dec_log(enc_log(s)) == Some(s),
    decreases s.len(),
{
    if s.len() == 0 {
        assert(enc_log(s).len() == 0);
        assert(dec_log(enc_log(s)) == Some(Seq::<ObservationModel>::empty()));
        assert(s =~= Seq::<ObservationModel>::empty());
    } else {
        let tail = s.drop_first();
        let b = enc_obs(s[0]) + enc_log(tail);
        assert(enc_log(s) == b);
        lemma_enc_obs_len(s[0]);
        assert(b.len() > 0);
        lemma_dec_obs_of_enc(s[0], enc_log(tail));
        assert(dec_obs(b) == Some((s[0], enc_log(tail))));
        assert(enc_log(tail).len() < b.len());
        assert(forall|i: int| 0 <= i < tail.len() ==> obs_model_len_ok(#[trigger] tail[i])) by {
            assert(forall|i: int| 0 <= i < tail.len() ==> tail[i] == s[i + 1]);
        }
        lemma_serialization_round_trip(tail);
        assert(dec_log(enc_log(tail)) == Some(tail));
        assert(dec_log(b) == Some(seq![s[0]] + tail));
        assert(seq![s[0]] + tail =~= s);
    }
}

/// The empty log encodes to the empty byte string, and the empty byte string
/// decodes to the empty log: a freshly created file is a valid, empty log,
/// and persisting an empty log then loading it gives an empty log again.
pub proof fn lemma_empty_round_trip()
    ensures
        enc_log(Seq::<ObservationModel>::empty()) == Seq::<u8>::empty(),
        dec_log(Seq::<u8>::empty()) == Some(Seq::<ObservationModel>::empty()),
{
}

fn push_u64_le(out: &mut Vec<u8>, x: u64)
    ensures
        final(out)@ == old(out)@ + u64_le_bytes(x),
{
    proof {
        assert((x & 0xff) < 256 && ((x >> 8) & 0xff) < 256 && ((x >> 16) & 0xff) < 256 && ((x
            >> 24) & 0xff) < 256 && ((x >> 32) & 0xff) < 256 && ((x >> 40) & 0xff) < 256 && ((x
            >> 48) & 0xff) < 256 && ((x >> 56) & 0xff) < 256) by (bit_vector);
    }
    out.push((x & 0xff) as u8);
    out.push(((x >> 8) & 0xff) as u8);
    out.push(((x >> 16) & 0xff) as u8);
    out.push(((x >> 24) & 0xff) as u8);
    out.push(((x >> 32) & 0xff) as u8);
    out.push(((x >> 40) & 0xff) as u8);
    out.push(((x >> 48) & 0xff) as u8);
    out.push(((x >> 56) & 0xff) as u8);
    proof {
        assert(out@ =~= old(out)@ + u64_le_bytes(x));
    }
}

fn push_bytes(out: &mut Vec<u8>, bytes: &Vec<u8>)
    ensures
        final(out)@ == old(out)@ + bytes@,
{
    let mut i: usize = 0;
    while i < bytes.len()
        invariant
            i <= bytes.len(),
            out@ == old(out)@ + bytes@.take(i as int),
        decreases bytes.len() - i,
    {
        out.push(bytes[i]);
        proof {
            assert(old(out)@ + bytes@.take(i + 1 as int) =~= (old(out)@ + bytes@.take(
                i as int,
            )).push(bytes@[i as int]));
        }
        i = i + 1;
    }
    proof {
        assert(bytes@.take(bytes.len() as int) =~= bytes@);
    }
}

fn push_slot(out: &mut Vec<u8>, slot: &Option<Report>)
    ensures
        final(out)@ == old(out)@ + enc_slot(slot_model(*slot)),
{
    match slot {
        None => {
            out.push(0u8);
            proof {
                assert(out@ =~= old(out)@ + enc_slot(None));
            }
        },
        Some(r) => {
            out.push(1u8);
            let ghost a = out@;
            let p = r.payload();
            let len = p.len();
            push_u64_le(out, len as u64);
            push_bytes(out, p);
            proof {
                let e = u64_le_bytes(len as u64);
                assert(a =~= old(out)@ + seq![1u8]);
                assert(out@ == ((old(out)@ + seq![1u8]) + e) + p@);
                lemma_seq_assoc(old(out)@ + seq![1u8], e, p@);
                lemma_seq_assoc(old(out)@, seq![1u8], e + p@);
                lemma_seq_assoc(seq![1u8], e, p@);
                assert(enc_slot(slot_model(*slot)) == (seq![1u8] + e) + p@);
                assert(out@ == old(out)@ + enc_slot(slot_model(*slot)));
            }
        },
    }
}

/// Appends the record of one observation to a byte buffer.
pub fn encode_observation(out: &mut Vec<u8>, o: &Observation)
    ensures
        final(out)@ == old(out)@ + enc_obs(o@),
{
    push_u64_le(out, o.timestamp_millis);
    push_slot(out, &o.device);
    push_slot(out, &o.tpv);
    push_slot(out, &o.sky);
    push_slot(out, &o.pps);
    push_slot(out, &o.gst);
    proof {
        let a = old(out)@;
        let e0 = u64_le_bytes(o.timestamp_millis);
        let s1 = enc_slot(o@.device);
        let s2 = enc_slot(o@.tpv);
        let s3 = enc_slot(o@.sky);
        let s4 = enc_slot(o@.pps);
        let s5 = enc_slot(o@.gst);
        lemma_seq_assoc(a, e0, s1);
        lemma_seq_assoc(a, e0 + s1, s2);
        lemma_seq_assoc(a, (e0 + s1) + s2, s3);
        lemma_seq_assoc(a, ((e0 + s1) + s2) + s3, s4);
        lemma_seq_assoc(a, (((e0 + s1) + s2) + s3) + s4, s5);
        assert(out@ == a + enc_obs(o@));
    }
}

fn read_u64_le(bytes: &Vec<u8>, pos: usize) -> (x: u64)
    requires
        pos + 8 <= bytes@.len(),
    ensures
        x == u64_from_le(bytes@.subrange(pos as int, pos as int + 8)),
{
    let blen = bytes.len();
    assert(pos + 8 <= blen);
    let x = (bytes[pos] as u64) | ((bytes[pos + 1] as u64) << 8) | ((bytes[pos + 2] as u64) << 16)
        | ((bytes[pos + 3] as u64) << 24) | ((bytes[pos + 4] as u64) << 32) | ((bytes[pos
        + 5] as u64) << 40) | ((bytes[pos + 6] as u64) << 48) | ((bytes[pos + 7] as u64) << 56);
    proof {
        let s = bytes@.subrange(pos as int, pos as int + 8);
        assert(s[0] == bytes@[pos as int]);
        assert(s[1] == bytes@[pos as int + 1]);
        assert(s[2] == bytes@[pos as int + 2]);
        assert(s[3] == bytes@[pos as int + 3]);
        assert(s[4] == bytes@[pos as int + 4]);
        assert(s[5] == bytes@[pos as int + 5]);
        assert(s[6] == bytes@[pos as int + 6]);
        assert(s[7] == bytes@[pos as int + 7]);
    }
    x
}

fn decode_slot(bytes: &Vec<u8>, pos: usize, kind: ReportKind) -> (r: Option<(Option<Report>, usize)>)
    requires
        pos <= bytes@.len(),
    ensures
        match r {
            Some((slot, end)) => {
                &&& pos < end <= bytes@.len()
                &&& dec_slot(bytes@.skip(pos as int)) == Some(
                    (slot_model(slot), bytes@.skip(end as int)),
                )
                &&& (slot matches Some(rep) ==> rep.kind_spec() == kind)
            },
            None => dec_slot(bytes@.skip(pos as int)) is None,
        },
{
    let ghost s = bytes@.skip(pos as int);
    if pos == bytes.len() {
        return None;
    }
    let tag = bytes[pos];
    assert(s[0] == tag);
    if tag == 0 {
        proof {
            assert(s.skip(1) =~= bytes@.skip(pos as int + 1));
        }
        Some((None, pos + 1))
    } else if tag == 1 {
        if bytes.len() - (pos + 1) < 8 {
            proof {
                assert(s.skip(1).len() == bytes@.len() - pos - 1);
            }
            return None;
        }
        let n = read_u64_le(bytes, pos + 1);
        let ghost s1 = s.skip(1);
        proof {
            assert(s1.take(8) =~= bytes@.subrange(pos as int + 1, pos as int + 9));
            assert(s1.skip(8) =~= bytes@.skip(pos as int + 9));
            assert(dec_u64(s1) == Some((n, bytes@.skip(pos as int + 9))));
        }
        let start = pos + 9;
        let rem = bytes.len() - start;
        if n > rem as u64 {
            return None;
        }
        let nn = n as usize;
        let end = start + nn;
        let mut payload: Vec<u8> = Vec::new();
        let mut i = start;
        while i < end
            invariant
                start <= i <= end,
                end <= bytes@.len(),
                payload@ == bytes@.subrange(start as int, i as int),
            decreases end - i,
        {
            payload.push(bytes[i]);
            proof {
                assert(bytes@.subrange(start as int, i + 1 as int) =~= bytes@.subrange(
                    start as int,
                    i as int,
                ).push(bytes@[i as int]));
            }
            i = i + 1;
        }
        let rep = Report::from_kind(kind, payload);
        proof {
            let b2 = bytes@.skip(pos as int + 9);
            assert(b2.take(n as int) =~= bytes@.subrange(start as int, end as int));
            assert(b2.skip(n as int) =~= bytes@.skip(end as int));
            assert(dec_slot(s) == Some((Some(b2.take(n as int)), b2.skip(n as int))));
            assert(slot_model(Some(rep)) == Some(b2.take(n as int)));
        }
        Some((Some(rep), end))
    } else {
        None
    }
}

/// Reads the record that starts at `pos`, giving the observation it holds
/// and the offset just past the record; fails on a malformed record.
pub fn decode_observation(bytes: &Vec<u8>, pos: usize) -> (r: Option<(Observation, usize)>)
    requires
        pos <= bytes@.len(),
    ensures
        match r {
            Some((o, end)) => {
                &&& pos < end <= bytes@.len()
                &&& o.wf()
                &&& dec_obs(bytes@.skip(pos as int)) == Some((o@, bytes@.skip(end as int)))
                &&& bytes@.skip(pos as int) == enc_obs(o@) + bytes@.skip(end as int)
            },
            None => dec_obs(bytes@.skip(pos as int)) is None,
        },
{
    let ghost s = bytes@.skip(pos as int);
    if bytes.len() - pos < 8 {
        proof {
            reveal(dec_obs);
            assert(s.len() < 8);
        }
        return None;
    }
    let ts = read_u64_le(bytes, pos);
    let p1 = pos + 8;
    proof {
        assert(s.take(8) =~= bytes@.subrange(pos as int, pos as int + 8));
        assert(s.skip(8) =~= bytes@.skip(p1 as int));
        assert(dec_u64(s) == Some((ts, bytes@.skip(p1 as int))));
    }
    let (device, p2) = match decode_slot(bytes, p1, ReportKind::Device) {
        Some(x) => x,
        None => {
            proof {
                reveal(dec_obs);
            }
            return None;
        },
    };
    let (tpv, p3) = match decode_slot(bytes, p2, ReportKind::Tpv) {
        Some(x) => x,
        None => {
            proof {
                reveal(dec_obs);
            }
            return None;
        },
    };
    let (sky, p4) = match decode_slot(bytes, p3, ReportKind::Sky) {
        Some(x) => x,
        None => {
            proof {
                reveal(dec_obs);
            }
            return None;
        },
    };
    let (pps, p5) = match decode_slot(bytes, p4, ReportKind::Pps) {
        Some(x) => x,
        None => {
            proof {
                reveal(dec_obs);
            }
            return None;
        },
    };
    let (gst, p6) = match decode_slot(bytes, p5, ReportKind::Gst) {
        Some(x) => x,
        None => {
            proof {
                reveal(dec_obs);
            }
            return None;
        },
    };
    let o = Observation { timestamp_millis: ts, device, tpv, sky, pps, gst };
    proof {
        reveal(dec_obs);
        assert(o@ == ObservationModel {
            timestamp_millis: ts,
            device: slot_model(o.device),
            tpv: slot_model(o.tpv),
            sky: slot_model(o.sky),
            pps: slot_model(o.pps),
            gst: slot_model(o.gst),
        });
        assert(dec_obs(s) == Some((o@, bytes@.skip(p6 as int))));
        lemma_dec_obs_sound(s, o@, bytes@.skip(p6 as int));
    }
    Some((o, p6))
}

} // verus!
