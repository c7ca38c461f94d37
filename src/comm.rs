//! The NeuroSky wire protocol: frame synchronisation, checksum verification
//! and the decoding of a payload's code/value items into a `Packet`.

use vstd::prelude::*;

verus! {

/// The byte that marks the start of a frame; it also bounds the length byte.
pub const SYNC: u8 = 0xAA;

/// Code of the signal quality item (one value byte).
pub const CODE_POOR_SIGNAL: u8 = 0x02;

/// Code of the attention item (one value byte).
pub const CODE_ATTENTION: u8 = 0x04;

/// Code of the meditation item (one value byte).
pub const CODE_MEDITATION: u8 = 0x05;

/// Code of the raw wave item (a length byte, then a big-endian `i16`).
pub const CODE_RAW_WAVE: u8 = 0x80;

/// Code of the EEG power item (a length byte, then eight big-endian 24-bit values).
pub const CODE_ASIC_EEG_POWER: u8 = 0x83;

/// Code of the reserved extended level.
pub const CODE_EXTENDED: u8 = 0x55;

/// The data codes of the NeuroSky protocol. Every byte value maps to one of
/// them; values without a meaning of their own map to `Unknown`.
#[derive(Debug, Clone, Copy, PartialEq, Eq)]
pub enum Code {
    /// Single-byte u8
    PoorSignal,
    /// Single-byte u8
    Attention,
    /// Single-byte u8
    Meditation,
    /// Multi-byte i16
    RawWave,
    /// Multi-byte u24 * 8
    AsicEegPower,
    /// Reserved
    Extended,
    /// Sync byte
    Sync,
    /// Unknown code
    Unknown,
}

/// The code that a byte stands for.
pub open spec fn code_of(b: u8) -> Code {
    if b == CODE_POOR_SIGNAL {
        Code::PoorSignal
    } else if b == CODE_ATTENTION {
        Code::Attention
    } else if b == CODE_MEDITATION {
        Code::Meditation
    } else if b == CODE_RAW_WAVE {
        Code::RawWave
    } else if b == CODE_ASIC_EEG_POWER {
        Code::AsicEegPower
    } else if b == CODE_EXTENDED {
        Code::Extended
    } else if b == SYNC {
        Code::Sync
    } else {
        Code::Unknown
    }
}

impl From<u8> for Code {
    fn from(value: u8) -> (r: Code) {
        match value {
            CODE_POOR_SIGNAL => Code::PoorSignal,
            CODE_ATTENTION => Code::Attention,
            CODE_MEDITATION => Code::Meditation,
            CODE_RAW_WAVE => Code::RawWave,
            CODE_ASIC_EEG_POWER => Code::AsicEegPower,
            CODE_EXTENDED => Code::Extended,
            SYNC => Code::Sync,
            _ => Code::Unknown,
        }
    }
}

impl vstd::std_specs::convert::FromSpecImpl<u8> for Code {
    open spec fn obeys_from_spec() -> bool {
        true
    }

    open spec fn from_spec(v: u8) -> Code {
        code_of(v)
    }
}


/// The EEG power spectrum values.
#[derive(Debug, Default, Clone, Copy, PartialEq, Eq)]
pub struct Power {
    /// Delta (0.5 ~ 2.75 Hz)
    pub delta: u32,
    /// Theta (3.5 ~ 7.75 Hz)
    pub theta: u32,
    /// Low alpha (7.5 ~ 9.25 Hz)
    pub low_alpha: u32,
    /// High alpha (9.5 ~ 11.75 Hz)
    pub high_alpha: u32,
    /// Low beta (12 ~ 14.75 Hz)
    pub low_beta: u32,
    /// High beta (15 ~ 21.75 Hz)
    pub high_beta: u32,
    /// Low gamma (22 ~ 30.75 Hz)
    pub low_gamma: u32,
    /// Mid gamma (31 ~ 100 Hz)
    pub mid_gamma: u32,
}

/// The sensor values carried by one frame. A field is present exactly when
/// its code occurs in the frame's payload.
#[derive(Debug, Clone, Copy, PartialEq, Eq)]
pub struct Packet {
    /// Signal quality (0 ~ 255)
    pub poor_signal: Option<u8>,
    /// Attention eSense (0 ~ 100)
    pub attention: Option<u8>,
    /// Meditation eSense (0 ~ 100)
    pub meditation: Option<u8>,
    /// Raw wave value (-32768 ~ 32767)
    pub raw_wave: Option<i16>,
    /// EEG power spectrum values (uV^2)
    pub eeg_power: Option<Power>,
}

/// The packet with no field present.
pub open spec fn empty_packet() -> Packet {
    Packet { poor_signal: None, attention: None, meditation: None, raw_wave: None, eeg_power: None }
}

impl Default for Packet {
    fn default() -> (r: Packet)
        ensures
            r == empty_packet(),
    {
        Packet { poor_signal: None, attention: None, meditation: None, raw_wave: None, eeg_power: None }
    }
}

/// A packet of one of the two shapes that the headset sends.
#[derive(Debug, Clone, Copy, PartialEq, Eq)]
pub enum PacketVariant {
    /// Packet with only raw wave value @ 512Hz
    RawWave { raw_wave: i16 },
    /// Packet with eSense values and EEG power spectrum @ 1Hz
    EegPower { poor_signal: u8, attention: u8, meditation: u8, eeg_power: Power },
}

/// The shape of a packet: the eSense values and the power spectrum when all
/// four are present (a raw wave value beside them is dropped), else the raw
/// wave value when it is the only field present, else none.
pub open spec fn variant_of(p: Packet) -> Option<PacketVariant> {
    if p.poor_signal is Some && p.attention is Some && p.meditation is Some && p.eeg_power is Some {
        Some(
            PacketVariant::EegPower {
                poor_signal: p.poor_signal->Some_0,
                attention: p.attention->Some_0,
                meditation: p.meditation->Some_0,
                eeg_power: p.eeg_power->Some_0,
            },
        )
    } else if p.raw_wave is Some && p.poor_signal is None && p.attention is None && p.meditation is None
        && p.eeg_power is None {
        Some(PacketVariant::RawWave { raw_wave: p.raw_wave->Some_0 })
    } else {
        None
    }
}

impl Packet {
    /// Classifies the packet as an EEG power reading (eSense values and power
    /// spectrum all present) or, failing that, as a raw wave sample (the raw
    /// wave value alone). Any other packet is refused.
    pub fn try_into(self) -> (r: Result<PacketVariant, &'static str>)
        ensures
            r is Ok <==> variant_of(self) is Some,
            r is Ok ==> r->Ok_0 == variant_of(self)->Some_0,
    {
        if let (Some(poor_signal), Some(attention), Some(meditation), Some(eeg_power)) = (
            self.poor_signal,
            self.attention,
            self.meditation,
            self.eeg_power,
        ) {
            Ok(PacketVariant::EegPower { poor_signal, attention, meditation, eeg_power })
        } else if let (Some(raw_wave), None, None, None, None) = (
            self.raw_wave,
            self.poor_signal,
            self.attention,
            self.meditation,
            self.eeg_power,
        ) {
            Ok(PacketVariant::RawWave { raw_wave })
        } else {
            Err("Invalid packet type")
        }
    }
}

/// The sum of the bytes of `p`.
pub open spec fn byte_sum(p: Seq<u8>) -> nat
    decreases p.len(),
{
    if p.len() == 0 {
        0
    } else {
        byte_sum(p.drop_last()) + p.last() as nat
    }
}

/// The checksum byte of a payload: 255 minus the sum of its bytes modulo 256.
pub open spec fn checksum_of(p: Seq<u8>) -> u8 {
    (255 - byte_sum(p) % 256) as u8
}

/// Computes the checksum byte that a frame with this payload carries.
pub fn checksum(payload: &[u8]) -> (r: u8)
    ensures
        r == checksum_of(payload@),
{
    let mut acc: u8 = 0;
    let mut i: usize = 0;
    while i < payload.len()
        invariant
            i <= payload@.len(),
            acc == byte_sum(payload@.take(i as int)) % 256,
        decreases payload@.len() - i,
    {
        proof {
            let t = payload@.take(i as int + 1);
            assert(t.drop_last() =~= payload@.take(i as int));
            vstd::arithmetic::div_mod::lemma_add_mod_noop(
                byte_sum(payload@.take(i as int)) as int,
                payload@[i as int] as int,
                256,
            );
            vstd::arithmetic::div_mod::lemma_mod_twice(payload@[i as int] as int, 256);
        }
        acc = ((acc as u16 + payload[i] as u16) % 256) as u8;
        i = i + 1;
    }
    assert(payload@.take(i as int) =~= payload@);
    255 - acc
}


/// Why a payload whose checksum matched could not be decoded.
#[derive(Debug, Clone, Copy, PartialEq, Eq)]
pub enum DecodeError {
    /// An item's value runs past the end of the payload.
    PayloadOverrun,
}

/// The signed 16-bit integer whose big-endian bytes are `hi`, `lo`.
pub open spec fn be_i16(hi: u8, lo: u8) -> i16 {
    let v = hi as int * 256 + lo as int;
    (if v >= 0x8000 { v - 0x10000 } else { v }) as i16
}

/// The unsigned integer whose big-endian bytes are `a`, `b`, `c`.
pub open spec fn be_u24(a: u8, b: u8, c: u8) -> u32 {
    (a as int * 0x10000 + b as int * 0x100 + c as int) as u32
}

/// The 24-bit value that starts at index `i` of `p`.
pub open spec fn u24_at(p: Seq<u8>, i: int) -> u32 {
    be_u24(p[i], p[i + 1], p[i + 2])
}

/// The eight band values that start at index `i` of `p`, three bytes each.
pub open spec fn power_at(p: Seq<u8>, i: int) -> Power {
    Power {
        delta: u24_at(p, i),
        theta: u24_at(p, i + 3),
        low_alpha: u24_at(p, i + 6),
        high_alpha: u24_at(p, i + 9),
        low_beta: u24_at(p, i + 12),
        high_beta: u24_at(p, i + 15),
        low_gamma: u24_at(p, i + 18),
        mid_gamma: u24_at(p, i + 21),
    }
}

/// Decodes the items of `p` from index `i` on into `acc`. A single-byte code
/// takes the next byte as its value; the raw wave code takes a length byte
/// and two value bytes; the power code takes a length byte and 24 value bytes
/// (the length byte is not consulted); any other code stands alone. A later
/// item overwrites an earlier one of the same code.
pub open spec fn decode_from(p: Seq<u8>, i: int, acc: Packet) -> Result<Packet, DecodeError>
    decreases p.len() - i,
{
    if i < 0 || i >= p.len() {
        Ok(acc)
    } else {
        match code_of(p[i]) {
            Code::PoorSignal => if i + 1 < p.len() {
                decode_from(p, i + 2, Packet { poor_signal: Some(p[i + 1]), ..acc })
            } else {
                Err(DecodeError::PayloadOverrun)
            },
            Code::Attention => if i + 1 < p.len() {
                decode_from(p, i + 2, Packet { attention: Some(p[i + 1]), ..acc })
            } else {
                Err(DecodeError::PayloadOverrun)
            },
            Code::Meditation => if i + 1 < p.len() {
                decode_from(p, i + 2, Packet { meditation: Some(p[i + 1]), ..acc })
            } else {
                Err(DecodeError::PayloadOverrun)
            },
            Code::RawWave => if i + 3 < p.len() {
                decode_from(p, i + 4, Packet { raw_wave: Some(be_i16(p[i + 2], p[i + 3])), ..acc })
            } else {
                Err(DecodeError::PayloadOverrun)
            },
            Code::AsicEegPower => if i + 25 < p.len() {
                decode_from(p, i + 26, Packet { eeg_power: Some(power_at(p, i + 2)), ..acc })
            } else {
                Err(DecodeError::PayloadOverrun)
            },
            _ => decode_from(p, i + 1, acc),
        }
    }
}

/// The packet that a whole payload decodes to.
pub open spec fn decode_spec(p: Seq<u8>) -> Result<Packet, DecodeError> {
    decode_from(p, 0, empty_packet())
}

fn read_i16(hi: u8, lo: u8) -> (r: i16)
    ensures
        r == be_i16(hi, lo),
{
    let v: i32 = hi as i32 * 256 + lo as i32;
    if v >= 0x8000 {
        (v - 0x10000) as i16
    } else {
        v as i16
    }
}

fn read_u24(p: &[u8], i: usize) -> (r: u32)
    requires
        i + 2 < p@.len(),
    ensures
        r == u24_at(p@, i as int),
{
    p[i] as u32 * 0x10000 + p[i + 1] as u32 * 0x100 + p[i + 2] as u32
}

fn read_power(p: &[u8], i: usize) -> (r: Power)
    requires
        i + 23 < p@.len(),
    ensures
        r == power_at(p@, i as int),
{
    let n = p.len();
    assert(i + 23 < n);
    Power {
        delta: read_u24(p, i),
        theta: read_u24(p, i + 3),
        low_alpha: read_u24(p, i + 6),
        high_alpha: read_u24(p, i + 9),
        low_beta: read_u24(p, i + 12),
        high_beta: read_u24(p, i + 15),
        low_gamma: read_u24(p, i + 18),
        mid_gamma: read_u24(p, i + 21),
    }
}

/// Decodes a payload whose checksum matched into a packet; fails when an
/// item's value would run past the payload's end.
pub fn decode_payload(p: &[u8]) -> (r: Result<Packet, DecodeError>)
    ensures
        r == decode_spec(p@),
{
    let n = p.len();
    let mut packet = Packet::default();
    let mut i: usize = 0;
    while i < n
        invariant
            n == p@.len(),
            i <= n,
            decode_from(p@, i as int, packet) == decode_spec(p@),
        decreases n - i,
    {
        let code = Code::from(p[i]);
        match code {
            Code::PoorSignal => {
                if i + 1 >= n {
                    return Err(DecodeError::PayloadOverrun);
                }
                packet.poor_signal = Some(p[i + 1]);
                i = i + 2;
            },
            Code::Attention => {
                if i + 1 >= n {
                    return Err(DecodeError::PayloadOverrun);
                }
                packet.attention = Some(p[i + 1]);
                i = i + 2;
            },
            Code::Meditation => {
                if i + 1 >= n {
                    return Err(DecodeError::PayloadOverrun);
                }
                packet.meditation = Some(p[i + 1]);
                i = i + 2;
            },
            Code::RawWave => {
                if n < 4 || i >= n - 3 {
                    return Err(DecodeError::PayloadOverrun);
                }
                packet.raw_wave = Some(read_i16(p[i + 2], p[i + 3]));
                i = i + 4;
            },
            Code::AsicEegPower => {
                if n < 26 || i >= n - 25 {
                    return Err(DecodeError::PayloadOverrun);
                }
                packet.eeg_power = Some(read_power(p, i + 2));
                i = i + 26;
            },
            _ => {
                i = i + 1;
            },
        }
    }
    Ok(packet)
}


/// Where a `FrameDecoder` stands within the frame it is reading.
#[derive(Debug, Clone, Copy, PartialEq, Eq, Structural)]
pub enum Stage {
    /// Looking for two sync bytes in a row; `primed` when one has just been seen.
    Sync { primed: bool },
    /// Waiting for the length byte.
    Length,
    /// Collecting the payload bytes.
    Payload,
    /// Waiting for the checksum byte.
    Checksum,
}

/// The abstract state of a `FrameDecoder`.
pub struct DecoderModel {
    pub stage: Stage,
    /// The declared payload length of the frame being read.
    pub length: u8,
    /// The payload bytes collected so far.
    pub payload: Seq<u8>,
}

/// The state in which a decoder starts and to which it returns after every frame.
pub open spec fn initial_model() -> DecoderModel {
    DecoderModel { stage: Stage::Sync { primed: false }, length: 0, payload: seq![] }
}

/// One transition of the decoder on byte `b`: the next state, and the outcome
/// of a frame when `b` completes one whose checksum matches.
///
/// Two sync bytes in a row start a frame. A length byte equal to the sync
/// byte is skipped; one above it abandons the frame. After `length` payload
/// bytes comes the checksum byte; a mismatch drops the frame silently. Either
/// way the decoder then looks for the next sync.
pub open spec fn step(m: DecoderModel, b: u8) -> (DecoderModel, Option<Result<Packet, DecodeError>>) {
    match m.stage {
        Stage::Sync { primed } => if b == SYNC && primed {
            (DecoderModel { stage: Stage::Length, length: 0, payload: seq![] }, None)
        } else if b == SYNC {
            (DecoderModel { stage: Stage::Sync { primed: true }, length: 0, payload: seq![] }, None)
        } else {
            (initial_model(), None)
        },
        Stage::Length => if b == SYNC {
            (DecoderModel { stage: Stage::Length, length: 0, payload: seq![] }, None)
        } else if b > SYNC {
            (initial_model(), None)
        } else if b == 0 {
            (DecoderModel { stage: Stage::Checksum, length: 0, payload: seq![] }, None)
        } else {
            (DecoderModel { stage: Stage::Payload, length: b, payload: seq![] }, None)
        },
        Stage::Payload => {
            let p = m.payload.push(b);
            let stage = if p.len() >= m.length { Stage::Checksum } else { Stage::Payload };
            (DecoderModel { stage, length: m.length, payload: p }, None)
        },
        Stage::Checksum => (
            initial_model(),
            if b == checksum_of(m.payload) { Some(decode_spec(m.payload)) } else { None },
        ),
    }
}

/// The outcomes of an optional outcome, as a sequence.
pub open spec fn outcomes(o: Option<Result<Packet, DecodeError>>) -> Seq<Result<Packet, DecodeError>> {
    match o {
        Some(r) => seq![r],
        None => seq![],
    }
}

/// The state reached from `m` on the bytes `bs`, and the outcomes of the
/// frames completed on the way, in order.
pub open spec fn run(m: DecoderModel, bs: Seq<u8>) -> (DecoderModel, Seq<Result<Packet, DecodeError>>)
    decreases bs.len(),
{
    if bs.len() == 0 {
        (m, seq![])
    } else {
        let (m1, o) = step(m, bs[0]);
        let (m2, rest) = run(m1, bs.drop_first());
        (m2, outcomes(o) + rest)
    }
}

/// Running on `a + b` is running on `a`, then on `b` from where `a` left
/// off; the outcomes of the two runs follow one another.
pub proof fn lemma_run_concat(m: DecoderModel, a: Seq<u8>, b: Seq<u8>)
    ensures
        run(m, a + b).0 == run(run(m, a).0, b).0,
        run(m, a + b).1 == run(m, a).1 + run(run(m, a).0, b).1,
    decreases a.len(),
{
    if a.len() == 0 {
        assert(a + b =~= b);
        assert(run(m, a).1 + run(run(m, a).0, b).1 =~= run(run(m, a).0, b).1);
    } else {
        let m1 = step(m, a[0]).0;
        assert((a + b).drop_first() =~= a.drop_first() + b);
        assert((a + b)[0] == a[0]);
        lemma_run_concat(m1, a.drop_first(), b);
        let o = outcomes(step(m, a[0]).1);
        assert(o + (run(m1, a.drop_first()).1 + run(run(m1, a.drop_first()).0, b).1)
            =~= (o + run(m1, a.drop_first()).1) + run(run(m1, a.drop_first()).0, b).1);
    }
}

/// How many bytes a decoder in state `m` can take before it may complete a
/// frame: the payload bytes still missing while it reads a payload, else one.
pub open spec fn wanted(m: DecoderModel) -> nat {
    if m.stage == Stage::Payload && m.payload.len() < m.length {
        (m.length - m.payload.len()) as nat
    } else {
        1
    }
}

/// Decodes frames from a byte stream that is handed to it piece by piece.
pub struct FrameDecoder {
    stage: Stage,
    length: u8,
    payload: Vec<u8>,
}

impl View for FrameDecoder {
    type V = DecoderModel;

    closed spec fn view(&self) -> DecoderModel {
        DecoderModel { stage: self.stage, length: self.length, payload: self.payload@ }
    }
}

impl FrameDecoder {
    /// A decoder that looks for the start of a frame.
    pub fn new() -> (r: FrameDecoder)
        ensures
            r@ == initial_model(),
    {
        let r = FrameDecoder { stage: Stage::Sync { primed: false }, length: 0, payload: Vec::new() };
        assert(r@.payload =~= seq![]);
        r
    }

    fn restart(&mut self, stage: Stage)
        ensures
            final(self)@ == (DecoderModel { stage, length: 0, payload: seq![] }),
    {
        self.stage = stage;
        self.length = 0;
        self.payload = Vec::new();
        assert(self.payload@ =~= seq![]);
    }

    /// How many bytes the decoder can take before it may complete a frame:
    /// the payload bytes still missing while it reads a payload, else one.
    pub fn bytes_wanted(&self) -> (r: usize)
        ensures
            r == wanted(self@),
    {
        if self.stage == Stage::Payload && self.payload.len() < self.length as usize {
            self.length as usize - self.payload.len()
        } else {
            1
        }
    }

    /// Takes the next byte of the stream. Returns the outcome of the frame
    /// that this byte completes, if it completes one whose checksum matches.
    pub fn push(&mut self, byte: u8) -> (r: Option<Result<Packet, DecodeError>>)
        ensures
            (final(self)@, r) == step(old(self)@, byte),
    {
        match self.stage {
            Stage::Sync { primed } => {
                if byte == SYNC && primed {
                    self.restart(Stage::Length);
                } else if byte == SYNC {
                    self.restart(Stage::Sync { primed: true });
                } else {
                    self.restart(Stage::Sync { primed: false });
                }
                None
            },
            Stage::Length => {
                if byte == SYNC {
                    self.restart(Stage::Length);
                } else if byte > SYNC {
                    self.restart(Stage::Sync { primed: false });
                } else if byte == 0 {
                    self.restart(Stage::Checksum);
                } else {
                    self.restart(Stage::Payload);
                    self.length = byte;
                }
                None
            },
            Stage::Payload => {
                self.payload.push(byte);
                if self.payload.len() >= self.length as usize {
                    self.stage = Stage::Checksum;
                }
                None
            },
            Stage::Checksum => {
                let r = if checksum(self.payload.as_slice()) == byte {
                    Some(decode_payload(self.payload.as_slice()))
                } else {
                    None
                };
                self.restart(Stage::Sync { primed: false });
                r
            },
        }
    }

    /// Takes the next bytes of the stream, in order. Returns the outcomes of
    /// the frames that they complete, in order.
    pub fn feed(&mut self, bytes: &[u8]) -> (r: Vec<Result<Packet, DecodeError>>)
        ensures
            (final(self)@, r@) == run(old(self)@, bytes@),
    {
        let mut out: Vec<Result<Packet, DecodeError>> = Vec::new();
        let mut i: usize = 0;
        proof {
            assert(bytes@.take(0) =~= seq![]);
        }
        while i < bytes.len()
            invariant
                i <= bytes@.len(),
                (self@, out@) == run(old(self)@, bytes@.take(i as int)),
            decreases bytes@.len() - i,
        {
            let ghost before = self@;
            let o = self.push(bytes[i]);
            proof {
                let one = seq![bytes@[i as int]];
                assert(bytes@.take(i as int + 1) =~= bytes@.take(i as int) + one);
                lemma_run_concat(old(self)@, bytes@.take(i as int), one);
                assert(one.drop_first() =~= Seq::<u8>::empty());
                assert(one[0] == bytes@[i as int]);
                assert(run(self@, one.drop_first()) == (self@, Seq::<Result<Packet, DecodeError>>::empty()));
                assert(outcomes(o) + Seq::<Result<Packet, DecodeError>>::empty() =~= outcomes(o));
                assert(run(before, one).1 == outcomes(o));
                assert(run(before, one).0 == self@);
            }
            match o {
                Some(r) => {
                    out.push(r);
                },
                None => {},
            }
            proof {
                assert(out@ =~= run(old(self)@, bytes@.take(i as int)).1 + outcomes(o));
            }
            i = i + 1;
        }
        assert(bytes@.take(i as int) =~= bytes@);
        out
    }
}

} // verus!
