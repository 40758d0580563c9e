use logic_decoder::error::{ConfigError, DecodeError, SourceError};
use logic_decoder::serial::{
    Line, Monitor, MonitorState, Parity, ParityParseError, Serial, SerialConfig, SerialError,
    SerialEvent,
};
use logic_decoder::source::Sample;
use std::collections::VecDeque;

const S: i64 = 1_000_000_000_000;

fn config() -> SerialConfig {
    SerialConfig { tx: 0, rx: 1, rts: None, cts: None, baud: 1, parity: Parity::Off }
}

fn run(samples: Vec<(i64, u64)>, config: SerialConfig) -> Vec<(i64, SerialEvent)> {
    let input: VecDeque<_> = samples.into_iter().map(|(t, s)| (t, Ok(Sample(s)))).collect();
    let mut stage = Serial::new(input, config).unwrap();
    let mut out = Vec::new();
    while let Some((t, e)) = stage.next() {
        out.push((t, e.unwrap()));
    }
    out
}

/// The samples of the characters `bytes` on channel `channel`, the other
/// channels high, one bit a second from `t0` on.
fn frames(bytes: &[u8], channel: u8, t0: i64, parity: Option<bool>) -> Vec<(i64, u64)> {
    let mut levels = vec![];
    for b in bytes {
        levels.push(false);
        for i in 0..8 {
            levels.push((b >> i) & 1 == 1);
        }
        if let Some(p) = parity {
            levels.push(p);
        }
        levels.push(true);
        levels.push(true);
    }
    let mut out = vec![(t0 - S, !0u64)];
    let mut last = true;
    for (i, l) in levels.iter().enumerate() {
        if *l != last {
            let s = if *l { !0u64 } else { !(1u64 << channel) };
            out.push((t0 + i as i64 * S, s));
            last = *l;
        }
    }
    out.push((t0 + (levels.len() as i64 + 2) * S, !0u64 & !(1u64 << 63)));
    out.push((t0 + (levels.len() as i64 + 4) * S, !0u64));
    out
}

#[test]
fn serial_framing_gives_tx_0x55() {
    // baud 1, tx on channel 0, the line toggling every second from 2.5 s on
    let mut samples = vec![(0, 1), (S, 0)];
    let mut t = 2 * S + S / 2;
    let mut level = 1;
    while t < 14 * S {
        samples.push((t, level));
        level ^= 1;
        t += S;
    }
    let out = run(samples, config());
    assert!(out.iter().any(|(_, e)| *e == SerialEvent::Tx(0x55)));
    let tx: Vec<_> = out.iter().filter(|(_, e)| matches!(e, SerialEvent::Tx(_))).collect();
    assert_eq!(tx[0], &(9 * S + S / 2, SerialEvent::Tx(0x55)));
}

#[test]
fn decodes_characters_on_both_lines() {
    let mut samples = frames(b"Hi", 0, 10 * S, None);
    samples.extend(frames(b"!", 1, 100 * S, None));
    let out = run(samples, SerialConfig { rts: Some(5), cts: Some(6), ..config() });
    let chars: Vec<SerialEvent> = out
        .iter()
        .map(|(_, e)| *e)
        .filter(|e| matches!(e, SerialEvent::Tx(_) | SerialEvent::Rx(_)))
        .collect();
    assert_eq!(chars, vec![SerialEvent::Tx(b'H'), SerialEvent::Tx(b'i'), SerialEvent::Rx(b'!')]);
}

#[test]
fn flow_control_lines_report_their_changes() {
    let samples = vec![(0, 0b0011), (S, 0b0111), (2 * S, 0b1111), (3 * S, 0b1011), (4 * S, 0b1011)];
    let out = run(samples, SerialConfig { rts: Some(2), cts: Some(3), ..config() });
    assert_eq!(
        out,
        vec![
            (S, SerialEvent::Rts(true)),
            (2 * S, SerialEvent::Cts(true)),
            (3 * S, SerialEvent::Rts(false)),
        ]
    );
}

#[test]
fn a_line_without_flow_control_reports_it_high_once() {
    let out = run(vec![(0, 0b11), (S, 0b11)], config());
    // of two events of the same time, the one of the transmit line comes first
    assert_eq!(out, vec![(0, SerialEvent::Cts(true)), (0, SerialEvent::Rts(true))]);
}

#[test]
fn a_low_stop_bit_is_a_framing_error() {
    // the line stays low after the start: nine zeros and a low stop bit
    let samples = vec![(0, !0u64), (10 * S, !1u64), (30 * S, !0u64), (40 * S, !1u64)];
    let out = run(samples, SerialConfig { rts: Some(9), cts: Some(9), ..config() });
    let errors: Vec<_> =
        out.iter().filter(|(_, e)| matches!(e, SerialEvent::TxError(_))).cloned().collect();
    assert_eq!(errors[0], (10 * S + 8 * S + S / 2, SerialEvent::TxError(SerialError::Framing)));
}

#[test]
fn parity_is_checked() {
    // 'C' is 0x43 with three ones
    for (parity, bit, good) in [
        (Parity::Even, true, true),
        (Parity::Even, false, false),
        (Parity::Odd, false, true),
        (Parity::Odd, true, false),
        (Parity::Mark, true, true),
        (Parity::Mark, false, false),
        (Parity::Clear, false, true),
        (Parity::Clear, true, false),
    ] {
        let out = run(frames(b"C", 0, 10 * S, Some(bit)), SerialConfig { parity, ..config() });
        let got: Vec<SerialEvent> = out
            .iter()
            .map(|(_, e)| *e)
            .filter(|e| matches!(e, SerialEvent::Tx(_) | SerialEvent::TxError(_)))
            .collect();
        if good {
            assert_eq!(got, vec![SerialEvent::Tx(b'C')]);
        } else {
            assert_eq!(got[0], SerialEvent::TxError(SerialError::Parity));
        }
    }
}

#[test]
fn serial_configuration_is_checked() {
    let new = |c| Serial::new(VecDeque::new(), c).err();
    assert_eq!(new(SerialConfig { tx: 64, ..config() }), Some(ConfigError::InvalidChannel(64)));
    assert_eq!(new(SerialConfig { rx: 99, ..config() }), Some(ConfigError::InvalidChannel(99)));
    assert_eq!(
        new(SerialConfig { rts: Some(70), ..config() }),
        Some(ConfigError::InvalidChannel(70))
    );
    assert_eq!(
        new(SerialConfig { cts: Some(80), ..config() }),
        Some(ConfigError::InvalidChannel(80))
    );
    assert_eq!(new(SerialConfig { baud: 0, ..config() }), Some(ConfigError::InvalidBaud));
    assert_eq!(new(SerialConfig { baud: 115200, rts: Some(63), ..config() }), None);
}

#[test]
fn serial_stage_passes_diagnostics_through() {
    let mut input = VecDeque::new();
    input.push_back((5, Err(DecodeError::Source(SourceError::Syntax))));
    let mut stage = Serial::new(input, config()).unwrap();
    assert_eq!(stage.next(), Some((5, Err(DecodeError::Source(SourceError::Syntax)))));
    assert_eq!(stage.next(), None);
}

#[test]
fn parity_names() {
    assert_eq!(Parity::from_str("none"), Ok(Parity::Off));
    assert_eq!(Parity::from_str("even"), Ok(Parity::Even));
    assert_eq!(Parity::from_str("odd"), Ok(Parity::Odd));
    assert_eq!(Parity::from_str("set"), Ok(Parity::Mark));
    assert_eq!(Parity::from_str("clear"), Ok(Parity::Clear));
    assert_eq!(Parity::from_str("Even"), Err(ParityParseError::InvalidInput));
    assert_eq!(Parity::from_str(""), Err(ParityParseError::InvalidInput));
    assert_eq!(Parity::from_str("evenly"), Err(ParityParseError::InvalidInput));
}

#[test]
fn monitor_follows_the_bits_of_a_character() {
    let mut m = Monitor::new(1_000_000, Parity::Off, Line::Rx);
    assert_eq!(m.bit_duration, 1_000_000);
    assert_eq!(m.ts, -100_000_000_000);
    // a falling edge at 0 starts a character
    assert_eq!(m.update(0, false, false), [None, None]);
    assert_eq!(m.state, MonitorState::Start);
    // the line is low until 3.2 bit times: start bit and two zeros
    assert_eq!(m.update(3_200_000, true, true), [None, Some((3_200_000, SerialEvent::Rts(true)))]);
    assert_eq!(m.state, MonitorState::Data(0, 2));
    assert_eq!(m.ts, 2_500_000);
    // and high from then on: six ones and the stop bit
    assert_eq!(m.update(20_000_000, true, true), [Some((8_500_000, SerialEvent::Rx(0xFC))), None]);
    assert_eq!(m.state, MonitorState::Idle);
    assert_eq!(m.ts, 20_000_000);
}

#[test]
fn monitor_ends_a_character_at_the_end_of_a_capture() {
    let mut m = Monitor::new(1, Parity::Off, Line::Tx);
    assert_eq!(m.finalize(), None);
    m.update(0, false, false);
    assert_eq!(m.finalize(), Some((0, SerialEvent::TxError(SerialError::Framing))));
    assert_eq!(m.state, MonitorState::Idle);
    let mut m = Monitor { state: MonitorState::Stop(0x41), ..Monitor::new(1, Parity::Off, Line::Tx) };
    assert_eq!(m.finalize(), Some((-100_000_000_000, SerialEvent::Tx(0x41))));
    let mut m = Monitor { state: MonitorState::Parity(1), ..Monitor::new(1, Parity::Odd, Line::Rx) };
    assert_eq!(m.finalize(), Some((-100_000_000_000, SerialEvent::RxError(SerialError::Framing))));
}
