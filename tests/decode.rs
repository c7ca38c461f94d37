use cerebrust::comm::{
    checksum, decode_payload, Code, DecodeError, FrameDecoder, Packet, PacketVariant, Power,
};

fn frame(payload: &[u8]) -> Vec<u8> {
    let mut v = vec![0xAA, 0xAA, payload.len() as u8];
    v.extend_from_slice(payload);
    v.push(checksum(payload));
    v
}

fn decode_stream(bytes: &[u8]) -> Vec<Result<Packet, DecodeError>> {
    let mut d = FrameDecoder::new();
    d.feed(bytes)
}

fn u24(v: u32) -> [u8; 3] {
    [(v >> 16) as u8, (v >> 8) as u8, v as u8]
}

fn sample_power() -> Power {
    Power {
        delta: 0,
        theta: 1,
        low_alpha: 0x00FF00,
        high_alpha: 0x123456,
        low_beta: 0xABCDEF,
        high_beta: 0x010203,
        low_gamma: 0x800000,
        mid_gamma: 0xFFFFFF,
    }
}

fn reading_payload(sq: u8, att: u8, med: u8, w: &Power) -> Vec<u8> {
    let mut p = vec![0x02, sq, 0x04, att, 0x05, med, 0x83, 24];
    for v in [
        w.delta, w.theta, w.low_alpha, w.high_alpha, w.low_beta, w.high_beta, w.low_gamma,
        w.mid_gamma,
    ] {
        p.extend_from_slice(&u24(v));
    }
    p
}

#[test]
fn code_from_byte() {
    assert_eq!(Code::from(0x02), Code::PoorSignal);
    assert_eq!(Code::from(0x04), Code::Attention);
    assert_eq!(Code::from(0x05), Code::Meditation);
    assert_eq!(Code::from(0x80), Code::RawWave);
    assert_eq!(Code::from(0x83), Code::AsicEegPower);
    assert_eq!(Code::from(0x55), Code::Extended);
    assert_eq!(Code::from(0xAA), Code::Sync);
    assert_eq!(Code::from(0x99), Code::Unknown);
    assert_eq!(Code::from(0x00), Code::Unknown);
    assert_eq!(Code::from(0xFF), Code::Unknown);
}

#[test]
fn checksum_values() {
    assert_eq!(checksum(&[]), 255);
    assert_eq!(checksum(&[0x02, 0x20]), 255 - 0x22);
    assert_eq!(checksum(&[0xFF, 0x01]), 255);
    assert_eq!(checksum(&[0x80, 0x02, 0x01, 0x02]), 255 - 0x85);
    assert_eq!(checksum(&[200, 100]), 255 - 44);
}

#[test]
fn valid_frame_accepted_first_attempt() {
    let p = [0x02, 0x1A, 0x04, 0x30];
    let out = decode_stream(&frame(&p));
    assert_eq!(out.len(), 1);
    let packet = out[0].unwrap();
    assert_eq!(packet.poor_signal, Some(0x1A));
    assert_eq!(packet.attention, Some(0x30));
    assert_eq!(packet.meditation, None);
    assert_eq!(packet.raw_wave, None);
    assert_eq!(packet.eeg_power, None);
}

#[test]
fn empty_frame_gives_empty_packet() {
    let out = decode_stream(&[0xAA, 0xAA, 0x00, 0xFF]);
    assert_eq!(out, vec![Ok(Packet::default())]);
}

#[test]
fn longest_frame_accepted() {
    let p = vec![0x55u8; 169];
    let out = decode_stream(&frame(&p));
    assert_eq!(out, vec![Ok(Packet::default())]);
}

#[test]
fn corrupted_payload_dropped_and_next_frame_kept() {
    let p = [0x04, 0x32, 0x05, 0x3C];
    let mut bytes = frame(&p);
    bytes[4] ^= 0x08;
    let next = [0x80, 0x02, 0x01, 0x02];
    bytes.extend_from_slice(&frame(&next));
    let out = decode_stream(&bytes);
    assert_eq!(out.len(), 1);
    assert_eq!(out[0].unwrap().raw_wave, Some(258));
    assert_eq!(out[0].unwrap().attention, None);
}

#[test]
fn every_single_bit_flip_detected() {
    let p = [0x02, 0x00, 0x04, 0x50, 0x05, 0x28];
    for k in 0..p.len() {
        for bit in 0..8 {
            let mut bytes = frame(&p);
            bytes[3 + k] ^= 1 << bit;
            assert_eq!(decode_stream(&bytes), vec![]);
        }
    }
}

#[test]
fn sync_valued_length_is_read_again() {
    let p = [0x04, 0x40];
    let mut bytes = vec![0xAA, 0xAA, 0xAA, 2, 0x04, 0x40];
    bytes.push(checksum(&p));
    let out = decode_stream(&bytes);
    assert_eq!(out.len(), 1);
    assert_eq!(out[0].unwrap().attention, Some(0x40));
}

#[test]
fn oversized_length_resyncs() {
    let mut d = FrameDecoder::new();
    assert_eq!(d.feed(&[0xAA, 0xAA, 200]), vec![]);
    // back at the search for a sync: one byte at a time is wanted
    assert_eq!(d.bytes_wanted(), 1);
    let next = [0x05, 0x11];
    let out = d.feed(&frame(&next));
    assert_eq!(out.len(), 1);
    assert_eq!(out[0].unwrap().meditation, Some(0x11));
}

#[test]
fn oversized_length_bytes_not_taken_as_payload() {
    let mut bytes = vec![0xAA, 0xAA, 171, 0x02, 0x07];
    bytes.extend_from_slice(&frame(&[0x02, 0x09]));
    let out = decode_stream(&bytes);
    assert_eq!(out.len(), 1);
    assert_eq!(out[0].unwrap().poor_signal, Some(0x09));
}

#[test]
fn reading_round_trip() {
    let w = sample_power();
    let p = reading_payload(200, 50, 60, &w);
    let out = decode_stream(&frame(&p));
    assert_eq!(out.len(), 1);
    let packet = out[0].unwrap();
    assert_eq!(packet.poor_signal, Some(200));
    assert_eq!(packet.attention, Some(50));
    assert_eq!(packet.meditation, Some(60));
    assert_eq!(packet.raw_wave, None);
    assert_eq!(packet.eeg_power, Some(w));
    assert_eq!(
        packet.try_into(),
        Ok(PacketVariant::EegPower { poor_signal: 200, attention: 50, meditation: 60, eeg_power: w })
    );
}

#[test]
fn raw_wave_sign() {
    let out = decode_stream(&frame(&[0x80, 0x02, 0x01, 0x02]));
    let packet = out[0].unwrap();
    assert_eq!(packet.raw_wave, Some(258));
    assert_eq!(packet.try_into(), Ok(PacketVariant::RawWave { raw_wave: 258 }));
    let out = decode_stream(&frame(&[0x80, 0x02, 0xFF, 0xFF]));
    let packet = out[0].unwrap();
    assert_eq!(packet.raw_wave, Some(-1));
    assert_eq!(packet.try_into(), Ok(PacketVariant::RawWave { raw_wave: -1 }));
    assert_eq!(decode_payload(&[0x80, 0x02, 0x80, 0x00]).unwrap().raw_wave, Some(-32768));
    assert_eq!(decode_payload(&[0x80, 0x02, 0x7F, 0xFF]).unwrap().raw_wave, Some(32767));
}

#[test]
fn raw_wave_with_other_declared_length() {
    let packet = decode_payload(&[0x80, 0x05, 0x00, 0x10, 0x04, 0x21]).unwrap();
    assert_eq!(packet.raw_wave, Some(16));
    assert_eq!(packet.attention, Some(0x21));
}

#[test]
fn power_with_other_declared_length() {
    let w = sample_power();
    let mut p = reading_payload(1, 2, 3, &w);
    p[7] = 9;
    assert_eq!(decode_payload(&p).unwrap().eeg_power, Some(w));
}

#[test]
fn partial_packet_not_classified() {
    let packet = decode_payload(&[0x02, 0x00, 0x80, 0x02, 0x00, 0x05]).unwrap();
    assert_eq!(packet.poor_signal, Some(0));
    assert_eq!(packet.raw_wave, Some(5));
    assert_eq!(packet.try_into(), Err("Invalid packet type"));
    assert_eq!(Packet::default().try_into(), Err("Invalid packet type"));
}

#[test]
fn reading_wins_over_raw_wave() {
    let w = sample_power();
    let mut p = reading_payload(7, 8, 9, &w);
    p.extend_from_slice(&[0x80, 0x02, 0x00, 0x01]);
    let packet = decode_payload(&p).unwrap();
    assert_eq!(packet.raw_wave, Some(1));
    assert_eq!(
        packet.try_into(),
        Ok(PacketVariant::EegPower { poor_signal: 7, attention: 8, meditation: 9, eeg_power: w })
    );
}

#[test]
fn unknown_code_takes_one_byte() {
    let packet = decode_payload(&[0x99, 0x04, 0x2A, 0x55, 0xAA, 0x05, 0x2B]).unwrap();
    assert_eq!(packet.attention, Some(0x2A));
    assert_eq!(packet.meditation, Some(0x2B));
    assert_eq!(packet.poor_signal, None);
}

#[test]
fn sync_bytes_inside_payload() {
    let p = [0x02, 0xAA, 0xAA, 0xAA, 0x04, 0xAA];
    let mut bytes = frame(&p);
    bytes.extend_from_slice(&frame(&[0x05, 0x01]));
    let out = decode_stream(&bytes);
    assert_eq!(out.len(), 2);
    assert_eq!(out[0].unwrap().poor_signal, Some(0xAA));
    assert_eq!(out[0].unwrap().attention, Some(0xAA));
    assert_eq!(out[1].unwrap().meditation, Some(0x01));
}

#[test]
fn later_item_overwrites_earlier() {
    let packet = decode_payload(&[0x04, 0x01, 0x04, 0x02]).unwrap();
    assert_eq!(packet.attention, Some(2));
}

#[test]
fn truncated_item_is_an_error() {
    assert_eq!(decode_payload(&[0x02]), Err(DecodeError::PayloadOverrun));
    assert_eq!(decode_payload(&[0x80, 0x02, 0x01]), Err(DecodeError::PayloadOverrun));
    assert_eq!(decode_payload(&[0x83, 24, 0, 0, 0]), Err(DecodeError::PayloadOverrun));
    assert_eq!(decode_stream(&frame(&[0x04])), vec![Err(DecodeError::PayloadOverrun)]);
}

#[test]
fn push_completes_on_checksum_byte() {
    let bytes = frame(&[0x04, 0x10]);
    let mut d = FrameDecoder::new();
    let n = bytes.len();
    for b in &bytes[..n - 1] {
        assert_eq!(d.push(*b), None);
    }
    let r = d.push(bytes[n - 1]).unwrap().unwrap();
    assert_eq!(r.attention, Some(0x10));
}

#[test]
fn bytes_wanted_during_payload() {
    let mut d = FrameDecoder::new();
    assert_eq!(d.bytes_wanted(), 1);
    d.feed(&[0xAA, 0xAA, 5, 0x01]);
    assert_eq!(d.bytes_wanted(), 4);
    d.feed(&[0x02, 0x03, 0x04, 0x05]);
    assert_eq!(d.bytes_wanted(), 1);
}

#[test]
fn stray_sync_byte_does_not_carry_over() {
    let mut bytes = vec![0xAA, 0x00];
    bytes.extend_from_slice(&[0xAA, 0x02, 0x04, 0x07]);
    assert_eq!(decode_stream(&bytes), vec![]);
}
