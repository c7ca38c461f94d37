//! Properties of the frame decoder over whole byte streams.

use vstd::prelude::*;
use crate::comm::{
    byte_sum, checksum_of, decode_from, decode_spec, lemma_run_concat, outcomes, run, step, Code, DecodeError,
    DecoderModel, Packet, Stage, wanted, initial_model, code_of, SYNC, be_u24, power_at, empty_packet, variant_of, Power,
    PacketVariant, CODE_POOR_SIGNAL, CODE_ATTENTION, CODE_MEDITATION, CODE_ASIC_EEG_POWER,
};

verus! {

/// The bytes of a frame carrying payload `p` and checksum byte `c`.
pub open spec fn frame_with(p: Seq<u8>, c: u8) -> Seq<u8> {
    seq![SYNC, SYNC, p.len() as u8] + p + seq![c]
}

/// The bytes of a well-formed frame carrying payload `p`.
pub open spec fn frame_bytes(p: Seq<u8>) -> Seq<u8> {
    frame_with(p, checksum_of(p))
}

/// The outcomes of a frame with payload `p` and checksum byte `c`: the
/// decoded payload when the checksum matches, nothing otherwise.
pub open spec fn frame_outcomes(p: Seq<u8>, c: u8) -> Seq<Result<Packet, DecodeError>> {
    if c == checksum_of(p) {
        seq![decode_spec(p)]
    } else {
        seq![]
    }
}

proof fn lemma_run_cons(m: DecoderModel, b: u8, rest: Seq<u8>)
    ensures
        run(m, seq![b] + rest) == (
            run(step(m, b).0, rest).0,
            outcomes(step(m, b).1) + run(step(m, b).0, rest).1,
        ),
{
    let s = seq![b] + rest;
    assert(s.drop_first() =~= rest);
    assert(s[0] == b);
}

proof fn lemma_run_empty(m: DecoderModel)
    ensures
        run(m, seq![]) == (m, Seq::<Result<Packet, DecodeError>>::empty()),
{
}

proof fn lemma_run_payload(len: u8, q: Seq<u8>, rest: Seq<u8>)
    requires
        q.len() < len,
        q.len() + rest.len() == len,
    ensures
        run(DecoderModel { stage: Stage::Payload, length: len, payload: q }, rest) == (
            DecoderModel { stage: Stage::Checksum, length: len, payload: q + rest },
            Seq::<Result<Packet, DecodeError>>::empty(),
        ),
    decreases rest.len(),
{
    let m = DecoderModel { stage: Stage::Payload, length: len, payload: q };
    let r0 = rest[0];
    let tail = rest.drop_first();
    assert(rest =~= seq![r0] + tail);
    lemma_run_cons(m, r0, tail);
    let q1 = q.push(r0);
    assert(q1 + tail =~= q + rest);
    if tail.len() == 0 {
        lemma_run_empty(step(m, r0).0);
    } else {
        lemma_run_payload(len, q1, tail);
    }
    assert(Seq::<Result<Packet, DecodeError>>::empty() + Seq::<Result<Packet, DecodeError>>::empty()
        =~= Seq::<Result<Packet, DecodeError>>::empty());
}

proof fn lemma_from_length(p: Seq<u8>, c: u8)
    requires
        p.len() <= 169,
    ensures
        run(
            DecoderModel { stage: Stage::Length, length: 0, payload: seq![] },
            seq![p.len() as u8] + (p + seq![c]),
        ) == (initial_model(), frame_outcomes(p, c)),
{
    let len = p.len() as u8;
    let m0 = DecoderModel { stage: Stage::Length, length: 0, payload: seq![] };
    lemma_run_cons(m0, len, p + seq![c]);
    let m1 = step(m0, len).0;
    lemma_run_concat(m1, p, seq![c]);
    if len == 0 {
        assert(p =~= Seq::<u8>::empty());
        lemma_run_empty(m1);
        assert(m1.payload =~= p);
    } else {
        lemma_run_payload(len, seq![], p);
        assert(Seq::<u8>::empty() + p =~= p);
    }
    let m2 = run(m1, p).0;
    assert(m2.stage == Stage::Checksum && m2.payload == p);
    lemma_run_cons(m2, c, seq![]);
    assert(seq![c] + Seq::<u8>::empty() =~= seq![c]);
    lemma_run_empty(initial_model());
    let o = outcomes(step(m2, c).1);
    assert(o =~= frame_outcomes(p, c));
    assert(Seq::<Result<Packet, DecodeError>>::empty() + (o + Seq::<Result<Packet, DecodeError>>::empty())
        =~= o);
    assert(Seq::<Result<Packet, DecodeError>>::empty() + o =~= o);
}

proof fn lemma_frame_with(p: Seq<u8>, c: u8)
    requires
        p.len() <= 169,
    ensures
        run(initial_model(), frame_with(p, c)) == (initial_model(), frame_outcomes(p, c)),
{
    let len = p.len() as u8;
    let body = seq![len] + (p + seq![c]);
    assert(frame_with(p, c) =~= seq![SYNC] + (seq![SYNC] + body));
    let m0 = initial_model();
    lemma_run_cons(m0, SYNC, seq![SYNC] + body);
    let m1 = step(m0, SYNC).0;
    lemma_run_cons(m1, SYNC, body);
    lemma_from_length(p, c);
    assert(Seq::<Result<Packet, DecodeError>>::empty() + (Seq::<Result<Packet, DecodeError>>::empty()
        + frame_outcomes(p, c)) =~= frame_outcomes(p, c));
}

/// A well-formed frame whose payload has at most 169 bytes is accepted at the
/// first attempt: from the initial state the decoder yields exactly the
/// decoding of that payload, whatever bytes it holds, and is back in the
/// initial state after the checksum byte.
pub proof fn lemma_valid_frame_decoded(p: Seq<u8>)
    requires
        p.len() <= 169,
    ensures
        run(initial_model(), frame_bytes(p)) == (initial_model(), seq![decode_spec(p)]),
{
    lemma_frame_with(p, checksum_of(p));
}

proof fn lemma_byte_sum_update(p: Seq<u8>, k: int, v: u8)
    requires
        0 <= k < p.len(),
    ensures
        byte_sum(p.update(k, v)) + p[k] == byte_sum(p) + v,
    decreases p.len(),
{
    let q = p.update(k, v);
    if k == p.len() - 1 {
        assert(q.drop_last() =~= p.drop_last());
    } else {
        assert(q.drop_last() =~= p.drop_last().update(k, v));
        lemma_byte_sum_update(p.drop_last(), k, v);
    }
}

proof fn lemma_checksum_changes(p: Seq<u8>, k: int, v: u8)
    requires
        0 <= k < p.len(),
        v != p[k],
    ensures
        checksum_of(p.update(k, v)) != checksum_of(p),
{
    let s = byte_sum(p) as int;
    let t = byte_sum(p.update(k, v)) as int;
    lemma_byte_sum_update(p, k, v);
    let d = v as int - p[k] as int;
    assert(t == s + d);
    assert(-256 < d < 256 && d != 0);
    vstd::arithmetic::div_mod::lemma_fundamental_div_mod(s, 256);
    vstd::arithmetic::div_mod::lemma_fundamental_div_mod(t, 256);
    if t % 256 == s % 256 {
        assert(256 * (t / 256) - 256 * (s / 256) == d);
        assert(256 * (t / 256 - s / 256) == d) by (nonlinear_arith)
            requires
                256 * (t / 256) - 256 * (s / 256) == d,
        ;
        assert(false) by (nonlinear_arith)
            requires
                256 * (t / 256 - s / 256) == d,
                -256 < d < 256,
                d != 0,
        ;
    }
}

/// While a payload is being read every byte, the sync byte included, is
/// taken as the payload's next byte: no new frame starts inside a payload.
/// (The sync search happens only between frames; see also
/// `lemma_valid_frame_decoded`, which holds for every payload.)
pub proof fn lemma_payload_takes_any_byte(len: u8, q: Seq<u8>, b: u8)
    requires
        q.len() < len,
    ensures
        step(DecoderModel { stage: Stage::Payload, length: len, payload: q }, b).0.payload == q.push(b),
        step(DecoderModel { stage: Stage::Payload, length: len, payload: q }, b).0.stage != (Stage::Length),
        step(DecoderModel { stage: Stage::Payload, length: len, payload: q }, b).1 is None,
{
}

/// Handing a decoder exactly as many bytes as it wants completes at most one
/// frame, so a reader that reads that many bytes at a time loses no outcome
/// by taking the first.
pub proof fn lemma_wanted_bytes_one_outcome(m: DecoderModel, bs: Seq<u8>)
    requires
        bs.len() == wanted(m),
    ensures
        run(m, bs).1.len() <= 1,
{
    if m.stage == Stage::Payload && m.payload.len() < m.length {
        lemma_run_payload(m.length, m.payload, bs);
    } else {
        lemma_run_cons(m, bs[0], Seq::<u8>::empty());
        assert(bs =~= seq![bs[0]] + Seq::<u8>::empty());
        lemma_run_empty(step(m, bs[0]).0);
    }
}

/// A frame whose payload byte `k` has had bit `bit` flipped, while its
/// checksum byte is the one computed for the intact payload, is dropped
/// without an outcome, and the well-formed frame that follows it is decoded.
pub proof fn lemma_corrupted_frame_dropped(p: Seq<u8>, k: int, bit: u8, next: Seq<u8>)
    requires
        p.len() <= 169,
        0 <= k < p.len(),
        bit < 8,
        next.len() <= 169,
    ensures
        ({
            let bad = frame_with(p.update(k, p[k] ^ (1u8 << bit)), checksum_of(p));
            run(initial_model(), bad + frame_bytes(next)) == (
                initial_model(),
                seq![decode_spec(next)],
            )
        }),
{
    let x = p[k];
    assert(x ^ (1u8 << bit) != x) by (bit_vector)
        requires
            bit < 8,
    ;
    let q = p.update(k, x ^ (1u8 << bit));
    lemma_checksum_changes(p, k, x ^ (1u8 << bit));
    let bad = frame_with(q, checksum_of(p));
    lemma_frame_with(q, checksum_of(p));
    assert(frame_outcomes(q, checksum_of(p)) =~= Seq::<Result<Packet, DecodeError>>::empty());
    lemma_run_concat(initial_model(), bad, frame_bytes(next));
    lemma_valid_frame_decoded(next);
    assert(Seq::<Result<Packet, DecodeError>>::empty() + seq![decode_spec(next)]
        =~= seq![decode_spec(next)]);
}

/// A length byte equal to the sync byte is skipped and the byte after it is
/// read as the length: the frame is decoded with the payload that the later
/// length announces, not as one of 170 bytes.
pub proof fn lemma_sync_length_skipped(p: Seq<u8>)
    requires
        p.len() <= 169,
    ensures
        run(initial_model(), seq![SYNC, SYNC, SYNC, p.len() as u8] + p + seq![checksum_of(p)]) == (
            initial_model(),
            seq![decode_spec(p)],
        ),
{
    let c = checksum_of(p);
    let body = seq![p.len() as u8] + (p + seq![c]);
    assert(seq![SYNC, SYNC, SYNC, p.len() as u8] + p + seq![c]
        =~= seq![SYNC] + (seq![SYNC] + (seq![SYNC] + body)));
    let m0 = initial_model();
    lemma_run_cons(m0, SYNC, seq![SYNC] + (seq![SYNC] + body));
    let m1 = step(m0, SYNC).0;
    lemma_run_cons(m1, SYNC, seq![SYNC] + body);
    let m2 = step(m1, SYNC).0;
    lemma_run_cons(m2, SYNC, body);
    lemma_from_length(p, c);
    assert(frame_outcomes(p, c) =~= seq![decode_spec(p)]);
    assert(Seq::<Result<Packet, DecodeError>>::empty() + (Seq::<Result<Packet, DecodeError>>::empty()
        + (Seq::<Result<Packet, DecodeError>>::empty() + seq![decode_spec(p)]))
        =~= seq![decode_spec(p)]);
}

/// A length byte above the sync byte abandons the frame: the decoder is back
/// in its initial state at once, with no outcome, so the bytes after it are
/// searched for the next sync, and a well-formed frame there is decoded.
pub proof fn lemma_oversized_length_resyncs(b: u8, next: Seq<u8>)
    requires
        b > SYNC,
        next.len() <= 169,
    ensures
        run(initial_model(), seq![SYNC, SYNC, b]) == (
            initial_model(),
            Seq::<Result<Packet, DecodeError>>::empty(),
        ),
        run(initial_model(), seq![SYNC, SYNC, b] + frame_bytes(next)) == (
            initial_model(),
            seq![decode_spec(next)],
        ),
{
    let m0 = initial_model();
    assert(seq![SYNC, SYNC, b] =~= seq![SYNC] + (seq![SYNC] + (seq![b] + Seq::<u8>::empty())));
    lemma_run_cons(m0, SYNC, seq![SYNC] + (seq![b] + Seq::<u8>::empty()));
    let m1 = step(m0, SYNC).0;
    lemma_run_cons(m1, SYNC, seq![b] + Seq::<u8>::empty());
    let m2 = step(m1, SYNC).0;
    lemma_run_cons(m2, b, Seq::<u8>::empty());
    lemma_run_empty(initial_model());
    assert(Seq::<Result<Packet, DecodeError>>::empty() + (Seq::<Result<Packet, DecodeError>>::empty()
        + (Seq::<Result<Packet, DecodeError>>::empty() + Seq::<Result<Packet, DecodeError>>::empty()))
        =~= Seq::<Result<Packet, DecodeError>>::empty());
    lemma_run_concat(m0, seq![SYNC, SYNC, b], frame_bytes(next));
    lemma_valid_frame_decoded(next);
    assert(Seq::<Result<Packet, DecodeError>>::empty() + seq![decode_spec(next)]
        =~= seq![decode_spec(next)]);
}

/// A code byte that carries no value (an unknown code, the extended code or
/// the sync byte) takes up that one byte only: the items after it decode as
/// if it were not there.
pub proof fn lemma_unknown_code_skipped(p: Seq<u8>, i: int, acc: Packet)
    requires
        0 <= i < p.len(),
        code_of(p[i]) == Code::Unknown || code_of(p[i]) == Code::Extended || code_of(p[i])
            == Code::Sync,
    ensures
        decode_from(p, i, acc) == decode_from(p, i + 1, acc),
{
}

/// The three big-endian bytes of a value below 2^24.
pub open spec fn u24_bytes(v: u32) -> Seq<u8> {
    seq![(v / 0x10000) as u8, (v / 0x100 % 0x100) as u8, (v % 0x100) as u8]
}

/// The 24 value bytes of a power item.
pub open spec fn power_bytes(w: Power) -> Seq<u8> {
    u24_bytes(w.delta) + u24_bytes(w.theta) + u24_bytes(w.low_alpha) + u24_bytes(w.high_alpha)
        + u24_bytes(w.low_beta) + u24_bytes(w.high_beta) + u24_bytes(w.low_gamma) + u24_bytes(
        w.mid_gamma,
    )
}

/// Whether every band of `w` fits in 24 bits.
pub open spec fn fits_u24(w: Power) -> bool {
    &&& w.delta < 0x1000000
    &&& w.theta < 0x1000000
    &&& w.low_alpha < 0x1000000
    &&& w.high_alpha < 0x1000000
    &&& w.low_beta < 0x1000000
    &&& w.high_beta < 0x1000000
    &&& w.low_gamma < 0x1000000
    &&& w.mid_gamma < 0x1000000
}

/// The payload of a reading: signal quality, attention, meditation, then
/// the power item with its length byte.
pub open spec fn reading_payload(poor_signal: u8, attention: u8, meditation: u8, w: Power) -> Seq<u8> {
    seq![CODE_POOR_SIGNAL, poor_signal, CODE_ATTENTION, attention, CODE_MEDITATION, meditation]
        + seq![CODE_ASIC_EEG_POWER, 24u8] + power_bytes(w)
}

proof fn lemma_u24_bytes(v: u32)
    requires
        v < 0x1000000,
    ensures
        be_u24(u24_bytes(v)[0], u24_bytes(v)[1], u24_bytes(v)[2]) == v,
{
    let a = v / 0x10000;
    let b = v / 0x100 % 0x100;
    let c = v % 0x100;
    assert(a * 0x10000 + b * 0x100 + c == v && a < 0x100) by (bit_vector)
        requires
            v < 0x1000000u32,
            a == v / 0x10000,
            b == v / 0x100 % 0x100,
            c == v % 0x100,
    ;
}

proof fn lemma_power_bytes(w: Power, p: Seq<u8>, i: int)
    requires
        fits_u24(w),
        0 <= i,
        i + 24 <= p.len(),
        p.subrange(i, i + 24) == power_bytes(w),
    ensures
        power_at(p, i) == w,
{
    let s = p.subrange(i, i + 24);
    lemma_u24_bytes(w.delta);
    lemma_u24_bytes(w.theta);
    lemma_u24_bytes(w.low_alpha);
    lemma_u24_bytes(w.high_alpha);
    lemma_u24_bytes(w.low_beta);
    lemma_u24_bytes(w.high_beta);
    lemma_u24_bytes(w.low_gamma);
    lemma_u24_bytes(w.mid_gamma);
    let flat = seq![
        u24_bytes(w.delta)[0],
        u24_bytes(w.delta)[1],
        u24_bytes(w.delta)[2],
        u24_bytes(w.theta)[0],
        u24_bytes(w.theta)[1],
        u24_bytes(w.theta)[2],
        u24_bytes(w.low_alpha)[0],
        u24_bytes(w.low_alpha)[1],
        u24_bytes(w.low_alpha)[2],
        u24_bytes(w.high_alpha)[0],
        u24_bytes(w.high_alpha)[1],
        u24_bytes(w.high_alpha)[2],
        u24_bytes(w.low_beta)[0],
        u24_bytes(w.low_beta)[1],
        u24_bytes(w.low_beta)[2],
        u24_bytes(w.high_beta)[0],
        u24_bytes(w.high_beta)[1],
        u24_bytes(w.high_beta)[2],
        u24_bytes(w.low_gamma)[0],
        u24_bytes(w.low_gamma)[1],
        u24_bytes(w.low_gamma)[2],
        u24_bytes(w.mid_gamma)[0],
        u24_bytes(w.mid_gamma)[1],
        u24_bytes(w.mid_gamma)[2],
    ];
    assert(power_bytes(w) =~= flat);
    assert(forall|j: int| 0 <= j < 24 ==> #[trigger] s[j] == p[i + j]);
}

/// A reading with signal quality, attention, meditation and eight band
/// values below 2^24, sent as a well-formed frame, decodes to a packet that
/// holds exactly those values and no raw wave value, and that packet is
/// classified as an EEG power reading with the same values.
pub proof fn lemma_reading_round_trip(poor_signal: u8, attention: u8, meditation: u8, w: Power)
    requires
        fits_u24(w),
    ensures
        ({
            let p = reading_payload(poor_signal, attention, meditation, w);
            let packet = Packet {
                poor_signal: Some(poor_signal),
                attention: Some(attention),
                meditation: Some(meditation),
                raw_wave: None,
                eeg_power: Some(w),
            };
            &&& decode_spec(p) == Ok::<Packet, DecodeError>(packet)
            &&& run(initial_model(), frame_bytes(p)) == (initial_model(), seq![Ok::<Packet, DecodeError>(packet)])
            &&& variant_of(packet) == Some(
                PacketVariant::EegPower { poor_signal, attention, meditation, eeg_power: w },
            )
        }),
{
    let p = reading_payload(poor_signal, attention, meditation, w);
    assert(p.len() == 32);
    assert(p.subrange(8, 32) =~= power_bytes(w));
    lemma_power_bytes(w, p, 8);
    let e = empty_packet();
    let a1 = Packet { poor_signal: Some(poor_signal), ..e };
    let a2 = Packet { attention: Some(attention), ..a1 };
    let a3 = Packet { meditation: Some(meditation), ..a2 };
    let a4 = Packet { eeg_power: Some(w), ..a3 };
    assert(p[0] == CODE_POOR_SIGNAL && p[1] == poor_signal);
    assert(p[2] == CODE_ATTENTION && p[3] == attention);
    assert(p[4] == CODE_MEDITATION && p[5] == meditation);
    assert(p[6] == CODE_ASIC_EEG_POWER);
    assert(decode_from(p, 32, a4) == Ok::<Packet, DecodeError>(a4));
    assert(decode_from(p, 6, a3) == decode_from(p, 32, a4));
    assert(decode_from(p, 4, a2) == decode_from(p, 6, a3));
    assert(decode_from(p, 2, a1) == decode_from(p, 4, a2));
    assert(decode_from(p, 0, e) == decode_from(p, 2, a1));
    lemma_valid_frame_decoded(p);
}

} // verus!
