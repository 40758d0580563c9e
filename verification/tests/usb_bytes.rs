use logic_decoder::error::{DecodeError, LineError};
use logic_decoder::source::Sample;
use logic_decoder::usb::byte::{
    advance, push_bits, Byte, ByteIterator, Decoder, State, FULL_SPEED_BIT, LOW_SPEED_BIT,
};
use logic_decoder::usb::signal::{Signal, SignalIterator};
use logic_decoder::error::ConfigError;
use std::collections::VecDeque;

const BIT: i64 = FULL_SPEED_BIT;

/// The bus states of a packet with the bytes `bytes`, the first change at `t0`.
fn nrzi(bytes: &[u8], t0: i64, bit: i64) -> Vec<(i64, Signal)> {
    let mut out = Vec::new();
    let mut level = Signal::J;
    let mut ones = 0;
    let mut t = t0;
    for byte in bytes {
        for i in 0..8 {
            let b = (byte >> i) & 1;
            if b == 0 {
                level = if level == Signal::J { Signal::K } else { Signal::J };
                out.push((t, level));
                ones = 0;
            } else {
                ones += 1;
            }
            t += bit;
            if ones == 6 {
                // stuffed zero
                level = if level == Signal::J { Signal::K } else { Signal::J };
                out.push((t, level));
                ones = 0;
                t += bit;
            }
        }
    }
    out.push((t, Signal::SE0));
    out.push((t + 2 * bit, Signal::J));
    out
}

fn run(signals: Vec<(i64, Signal)>, fs: bool) -> Vec<(i64, Result<Byte, DecodeError>)> {
    let input: VecDeque<_> = signals.into_iter().map(|(t, s)| (t, Ok(s))).collect();
    let mut stage = ByteIterator::new(input, fs);
    let mut out = Vec::new();
    while let Some(e) = stage.next() {
        out.push(e);
    }
    out
}

#[test]
fn se0_of_eleven_milliseconds_is_a_reset() {
    let out = run(vec![(0, Signal::SE0), (11_000_000_000, Signal::J)], true);
    assert_eq!(out[0], (0, Ok(Byte::Reset)));
    assert_eq!(out.iter().filter(|e| e.1 == Ok(Byte::Reset)).count(), 1);
    assert_eq!(out, vec![(0, Ok(Byte::Reset)), (11_000_000_000, Ok(Byte::Idle))]);
}

#[test]
fn se0_of_nine_milliseconds_is_no_reset() {
    let out = run(
        vec![(0, Signal::SE0), (9_000_000_000, Signal::J), (9_001_000_000, Signal::K)],
        true,
    );
    assert_eq!(out, vec![]);
}

#[test]
fn decodes_the_bytes_of_a_handshake() {
    let mut signals = nrzi(&[0x80, 0xD2], 1_000_000, BIT);
    let end = signals.last().unwrap().0;
    signals.push((end + 10 * BIT, Signal::K));
    let out = run(signals, true);
    let t_se0 = 1_000_000 + 16 * BIT;
    assert_eq!(
        out,
        vec![
            (1_000_000 + 8 * BIT, Ok(Byte::Byte(0x80))),
            (t_se0, Ok(Byte::Byte(0xD2))),
            (t_se0, Ok(Byte::Eop)),
            (t_se0 + 3 * BIT, Ok(Byte::Idle)),
        ]
    );
}

#[test]
fn drops_the_stuffed_zero() {
    // 0xFF 0x03 has ten ones in a row: a zero is stuffed after the sixth
    let mut signals = nrzi(&[0x80, 0xFF, 0x03], 0, BIT);
    let end = signals.last().unwrap().0;
    signals.push((end + 10 * BIT, Signal::K));
    let bytes: Vec<u8> = run(signals, true)
        .into_iter()
        .filter_map(|(_, e)| match e {
            Ok(Byte::Byte(b)) => Some(b),
            _ => None,
        })
        .collect();
    assert_eq!(bytes, vec![0x80, 0xFF, 0x03]);
}

#[test]
fn decodes_at_low_speed() {
    let mut signals = nrzi(&[0x80, 0x5A], 0, LOW_SPEED_BIT);
    let end = signals.last().unwrap().0;
    signals.push((end + 10 * LOW_SPEED_BIT, Signal::K));
    let bytes: Vec<u8> = run(signals, false)
        .into_iter()
        .filter_map(|(_, e)| match e {
            Ok(Byte::Byte(b)) => Some(b),
            _ => None,
        })
        .collect();
    assert_eq!(bytes, vec![0x80, 0x5A]);
}

#[test]
fn passes_over_a_glitch() {
    // an SE0 of a tenth of a bit between K and J belongs to the K
    let signals = vec![
        (0, Signal::K),
        (BIT - BIT / 10, Signal::SE0),
        (BIT, Signal::J),
        (2 * BIT, Signal::K),
        (3 * BIT, Signal::J),
        (4 * BIT, Signal::K),
        (5 * BIT, Signal::J),
        (6 * BIT, Signal::K),
        (8 * BIT, Signal::SE0),
        (10 * BIT, Signal::J),
        (20 * BIT, Signal::K),
    ];
    let out = run(signals, true);
    assert_eq!(out[0], (8 * BIT, Ok(Byte::Byte(0x80))));
}

#[test]
fn both_lines_high_is_an_error() {
    let out = run(vec![(0, Signal::SE1), (BIT * 3, Signal::J), (BIT * 4, Signal::K)], true);
    assert_eq!(out[0], (0, Err(DecodeError::Line(LineError::UnexpectedBusState))));
}

#[test]
fn line_errors() {
    // after a reset only J is expected
    let out = run(
        vec![(0, Signal::SE0), (11_000_000_000, Signal::K), (11_000_100_000, Signal::J)],
        true,
    );
    assert_eq!(
        out,
        vec![
            (0, Ok(Byte::Reset)),
            (11_000_000_000, Err(DecodeError::Line(LineError::UnexpectedAfterReset))),
        ]
    );
    // while receiving, a state of eight bit times is a framing error
    let out = run(
        vec![(0, Signal::K), (BIT, Signal::J), (9 * BIT, Signal::K), (10 * BIT, Signal::J)],
        true,
    );
    assert_eq!(out[0], (BIT, Err(DecodeError::Line(LineError::Framing))));
    // an end of packet within a byte
    let out = run(
        vec![(0, Signal::K), (BIT, Signal::SE0), (3 * BIT, Signal::J), (9 * BIT, Signal::K)],
        true,
    );
    assert_eq!(out[0], (BIT, Err(DecodeError::Line(LineError::IncompleteByte))));
    // a suspended bus wakes up with an end of packet only
    let out = run(
        vec![(0, Signal::K), (10 * BIT, Signal::J), (11 * BIT, Signal::K), (12 * BIT, Signal::J)],
        true,
    );
    assert_eq!(out[0], (10 * BIT, Err(DecodeError::Line(LineError::UnexpectedAfterSuspend))));
    let out = run(
        vec![
            (0, Signal::K),
            (10 * BIT, Signal::SE0),
            (12 * BIT, Signal::K),
            (13 * BIT, Signal::J),
            (14 * BIT, Signal::K),
        ],
        true,
    );
    assert_eq!(out[0], (12 * BIT, Err(DecodeError::Line(LineError::UnexpectedAfterEopStart))));
}

#[test]
fn diagnostics_pass_through_the_byte_stage() {
    let mut input = VecDeque::new();
    input.push_back((7, Err(DecodeError::Line(LineError::Framing))));
    let mut stage = ByteIterator::new(input, true);
    assert_eq!(stage.next(), Some((7, Err(DecodeError::Line(LineError::Framing)))));
    assert_eq!(stage.next(), None);
}

#[test]
fn pushes_bits_with_unstuffing() {
    let d = Decoder { state: State::Receiving, counter: 0, shift_reg: 0, consecutive_ones: 0 };
    let d = push_bits(d, 7);
    assert_eq!(d.counter, 7);
    assert_eq!(d.consecutive_ones, 6);
    assert_eq!(d.shift_reg, 0b1111_1100_0000_0000);
    // the next period begins with the stuffed zero, which is dropped
    let d = push_bits(d, 1);
    assert_eq!(d.counter, 7);
    assert_eq!(d.consecutive_ones, 0);
    assert_eq!(d.shift_reg, 0b1111_1100_0000_0000);
    let d = push_bits(d, 2);
    assert_eq!(d.counter, 9);
    assert_eq!(d.shift_reg, 0b1011_1111_0000_0000);
}

#[test]
fn periods_are_rounded_to_whole_bit_times() {
    let d = Decoder { state: State::Receiving, counter: 0, shift_reg: 0, consecutive_ones: 0 };
    let mut queue = VecDeque::new();
    // a bit time and 49 hundredths is one bit
    let after = advance(d, Signal::K, 0, Some(BIT + 49 * BIT / 100), BIT, &mut queue);
    assert_eq!((after.counter, after.consecutive_ones), (1, 0));
    // a bit time and a half is two bits
    let after = advance(d, Signal::K, 0, Some(BIT + BIT / 2 + 1), BIT, &mut queue);
    assert_eq!((after.counter, after.consecutive_ones), (2, 1));
    // less than half a bit time is no bit at all
    let after = advance(d, Signal::K, 0, Some(BIT / 2 - 1), BIT, &mut queue);
    assert_eq!(after.state, State::Idle);
    assert_eq!(queue, VecDeque::from(vec![(0, Err(DecodeError::Line(LineError::Framing)))]));
    // an end of packet comes out two bit times before the J that ends it
    let d = Decoder { state: State::EopStart, counter: 0, shift_reg: 0, consecutive_ones: 0 };
    let mut queue = VecDeque::new();
    let after = advance(d, Signal::J, 1_000_000, Some(1_000_000 + BIT), BIT, &mut queue);
    assert_eq!(after.state, State::Idle);
    assert_eq!(queue, VecDeque::from(vec![(1_000_000 - 2 * BIT, Ok(Byte::Eop))]));
    let mut queue = VecDeque::new();
    advance(d, Signal::J, i64::MIN + 5, None, BIT, &mut queue);
    assert_eq!(
        queue,
        VecDeque::from(vec![(i64::MIN, Ok(Byte::Eop)), (i64::MIN + 5 + BIT, Ok(Byte::Idle))])
    );
}

#[test]
fn advance_hands_out_a_byte_at_the_end_of_its_period() {
    let d = Decoder { state: State::Receiving, counter: 7, shift_reg: 0xFE00, consecutive_ones: 0 };
    let mut queue = VecDeque::new();
    let after = advance(d, Signal::K, 100, Some(100 + BIT), BIT, &mut queue);
    assert_eq!(after.counter, 0);
    assert_eq!(queue, VecDeque::from(vec![(100 + BIT, Ok(Byte::Byte(0x7F)))]));
}

fn signals_of(samples: Vec<(i64, u64)>, fs: bool, dp: u8, dm: u8) -> Vec<(i64, Signal)> {
    let input: VecDeque<_> = samples.into_iter().map(|(t, s)| (t, Ok(Sample(s)))).collect();
    let mut stage = SignalIterator::new(input, fs, dp, dm).unwrap();
    let mut out = Vec::new();
    while let Some((t, e)) = stage.next() {
        out.push((t, e.unwrap()));
    }
    out
}

#[test]
fn line_states_of_samples() {
    let samples = vec![(0, 0b00), (1, 0b01), (2, 0b01), (3, 0b10), (4, 0b11), (5, 0b00)];
    assert_eq!(
        signals_of(samples.clone(), true, 0, 1),
        vec![(0, Signal::SE0), (1, Signal::J), (3, Signal::K), (4, Signal::SE1), (5, Signal::SE0)]
    );
    assert_eq!(
        signals_of(samples.clone(), false, 0, 1),
        vec![(0, Signal::SE0), (1, Signal::K), (3, Signal::J), (4, Signal::SE1), (5, Signal::SE0)]
    );
    assert_eq!(
        signals_of(samples, true, 1, 0),
        vec![(0, Signal::SE0), (1, Signal::K), (3, Signal::J), (4, Signal::SE1), (5, Signal::SE0)]
    );
}

#[test]
fn signal_stage_checks_its_channels() {
    assert_eq!(
        SignalIterator::new(VecDeque::new(), true, 64, 1).err(),
        Some(ConfigError::InvalidChannel(64))
    );
    assert_eq!(
        SignalIterator::new(VecDeque::new(), true, 0, 200).err(),
        Some(ConfigError::InvalidChannel(200))
    );
    assert!(SignalIterator::new(VecDeque::new(), true, 63, 0).is_ok());
}

#[test]
fn signal_stage_passes_diagnostics_through() {
    let mut input = VecDeque::new();
    input.push_back((1, Ok(Sample(1))));
    input.push_back((2, Err(DecodeError::Line(LineError::Framing))));
    input.push_back((3, Ok(Sample(1))));
    input.push_back((4, Ok(Sample(2))));
    let mut stage = SignalIterator::new(input, true, 0, 1).unwrap();
    assert_eq!(stage.next(), Some((1, Ok(Signal::J))));
    assert_eq!(stage.next(), Some((2, Err(DecodeError::Line(LineError::Framing)))));
    assert_eq!(stage.next(), Some((4, Ok(Signal::K))));
    assert_eq!(stage.next(), None);
}

#[test]
fn a_whole_packet_gives_a_byte_for_every_eight_bits() {
    for payload in [
        vec![0x80u8, 0xD2],
        vec![0x80, 0xC3, 0x00, 0x05, 0x07, 0x00, 0x00, 0x00, 0x00, 0x00, 0xEA, 0xC7],
        vec![0x80, 0x4B, 0xFF, 0xFF, 0xFF, 0x7E, 0x3F, 0x00, 0xFE],
    ] {
        let mut signals = nrzi(&payload, 1_000_000, BIT);
        let end = signals.last().unwrap().0;
        signals.push((end + 40 * BIT, Signal::K));
        let out = run(signals, true);
        assert!(out.iter().all(|e| e.1.is_ok()));
        let bytes: Vec<u8> = out
            .iter()
            .filter_map(|e| match e.1 {
                Ok(Byte::Byte(b)) => Some(b),
                _ => None,
            })
            .collect();
        assert_eq!(bytes, payload);
        assert_eq!(out.len(), payload.len() + 2);
        assert_eq!(out[payload.len()].1, Ok(Byte::Eop));
        assert_eq!(out[payload.len() + 1].1, Ok(Byte::Idle));
    }
}
