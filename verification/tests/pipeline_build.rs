use logic_decoder::error::{ConfigError, SourceError};
use logic_decoder::pipeline::{
    drain, finish, EventIterator, EventType, PipelineError, StageKind, Stream,
};
use logic_decoder::serial::{Parity, SerialConfig, SerialEvent};
use logic_decoder::source::logic2::LogicData;
use logic_decoder::source::vcd::{TimescaleUnit, Value, VcdCommand};
use logic_decoder::source::Sample;
use logic_decoder::spi::SpiEvent;
use logic_decoder::spif::Command;
use logic_decoder::usb::byte::{Byte, ByteIterator, LOW_SPEED_BIT};
use logic_decoder::usb::packet::Packet;
use logic_decoder::usb::protocol::{Event, Transaction};
use logic_decoder::usb::signal::{Signal, SignalIterator};
use logic_decoder::usb::types::{HandShake, Token, TokenType};
use logic_decoder::wizfi310::WizFi310Event;
use std::collections::VecDeque;

const BIT: i64 = LOW_SPEED_BIT;

/// The samples of a low-speed bus, D+ on channel 0 and D- on channel 1, that
/// carries the packets `packets` one after the other.
fn low_speed_samples(packets: &[&[u8]]) -> VecDeque<(i64, Result<Sample, logic_decoder::error::DecodeError>)> {
    let j = 0b10u64;
    let k = 0b01u64;
    let mut out = VecDeque::new();
    let mut t = 0;
    out.push_back((t, Ok(Sample(j))));
    t += 20 * BIT;
    for packet in packets {
        let mut level = j;
        let mut ones = 0;
        for byte in packet.iter() {
            for i in 0..8 {
                if (byte >> i) & 1 == 0 {
                    level = if level == j { k } else { j };
                    out.push_back((t, Ok(Sample(level))));
                    ones = 0;
                } else {
                    ones += 1;
                }
                t += BIT;
                if ones == 6 {
                    level = if level == j { k } else { j };
                    out.push_back((t, Ok(Sample(level))));
                    ones = 0;
                    t += BIT;
                }
            }
        }
        out.push_back((t, Ok(Sample(0))));
        t += 2 * BIT;
        out.push_back((t, Ok(Sample(j))));
        t += 10 * BIT;
    }
    out.push_back((t, Ok(Sample(0))));
    out.push_back((t + BIT, Ok(Sample(j))));
    out
}

#[test]
fn protocol_stage_is_built_on_samples_with_the_stages_between() {
    let mut pipeline = vec![Stream::Sample(low_speed_samples(&[
        &[0x80, 0x69, 0x00, 0x10],
        &[0x80, 0x5A],
    ]))];
    assert_eq!(logic_decoder::usb::protocol::build(&mut pipeline), Ok(()));
    assert_eq!(pipeline.len(), 1);
    assert_eq!(pipeline[0].event_type(), EventType::UsbTransaction);
    // the capture ends in an SE0 without end, which is a bus reset
    let events: Vec<Event> = match finish(pipeline) {
        Ok(Stream::UsbTransaction(v)) => v.into_iter().map(|(_, e)| e.unwrap()).collect(),
        _ => vec![],
    };
    assert_eq!(events.len(), 2);
    assert_eq!(events[1], Event::Reset);
    assert_eq!(
        events[..1],
        vec![Event::Transaction(Transaction {
            token: Token { token_type: TokenType::In, address: 0, endpoint: 0 },
            data: None,
            handshake: HandShake::NAck
        })]
    );
}

#[test]
fn stages_are_built_one_on_the_other() {
    let mut pipeline = vec![
        Stream::SerialEvent(VecDeque::new()),
        Stream::Sample(low_speed_samples(&[&[0x80, 0xD2]])),
    ];
    assert_eq!(logic_decoder::usb::signal::build(&mut pipeline, false, 0, 1), Ok(()));
    assert_eq!(pipeline[1].event_type(), EventType::UsbSignal);
    assert_eq!(logic_decoder::usb::byte::build(&mut pipeline, false), Ok(()));
    match &pipeline[1] {
        Stream::UsbByte(v) => {
            let bytes: Vec<Byte> = v.iter().map(|(_, e)| e.unwrap()).collect();
            assert_eq!(
                bytes,
                vec![
                    Byte::Byte(0x80),
                    Byte::Byte(0xD2),
                    Byte::Eop,
                    Byte::Idle,
                    Byte::Reset,
                    Byte::Idle
                ]
            );
        }
        _ => panic!("the top holds no bytes"),
    }
    assert_eq!(logic_decoder::usb::packet::build(&mut pipeline), Ok(()));
    match &pipeline[1] {
        Stream::UsbPacket(v) => {
            assert_eq!(v[0], (20 * BIT + 16 * BIT, Ok(Packet::HandShake(HandShake::Ack))));
            assert_eq!(v[1].1, Ok(Packet::Reset));
            assert_eq!(v.len(), 2);
        }
        _ => panic!("the top holds no packets"),
    }
    assert_eq!(logic_decoder::usb::device::build(&mut pipeline), Ok(()));
    assert_eq!(pipeline[1].event_type(), EventType::DeviceEvent);
    assert_eq!(pipeline[0], Stream::SerialEvent(VecDeque::new()));
    assert_eq!(finish(pipeline), Err(PipelineError::Unresolved(2)));
}

#[test]
fn builders_refuse_what_they_cannot_read() {
    let mut empty: Vec<Stream> = vec![];
    assert_eq!(
        logic_decoder::usb::device::build(&mut empty),
        Err(PipelineError::MissingSource(StageKind::UsbDevice))
    );
    assert_eq!(
        logic_decoder::wizfi310::build(&mut empty),
        Err(PipelineError::MissingSource(StageKind::Wizfi310))
    );
    let mut pipeline = vec![Stream::SerialEvent(VecDeque::from(vec![(1, Ok(SerialEvent::Tx(1)))]))];
    let before = pipeline.clone();
    assert_eq!(
        logic_decoder::usb::packet::build(&mut pipeline),
        Err(PipelineError::TypeMismatch {
            stage: StageKind::UsbSignal,
            expected: EventType::Sample,
            actual: EventType::SerialEvent
        })
    );
    assert_eq!(pipeline, before);
    assert_eq!(
        logic_decoder::spif::build(&mut pipeline),
        Err(PipelineError::TypeMismatch {
            stage: StageKind::Spif,
            expected: EventType::SpiEvent,
            actual: EventType::SerialEvent
        })
    );
    assert_eq!(
        logic_decoder::serial::build(
            &mut pipeline,
            SerialConfig { tx: 0, rx: 1, rts: None, cts: None, baud: 9600, parity: Parity::Off }
        ),
        Err(PipelineError::TypeMismatch {
            stage: StageKind::Serial,
            expected: EventType::Sample,
            actual: EventType::SerialEvent
        })
    );
    assert_eq!(pipeline, before);
    let mut samples = vec![Stream::Sample(VecDeque::from(vec![(1, Ok(Sample(1)))]))];
    let before = samples.clone();
    assert_eq!(
        logic_decoder::usb::signal::build(&mut samples, true, 64, 0),
        Err(PipelineError::Config(ConfigError::InvalidChannel(64)))
    );
    assert_eq!(
        logic_decoder::serial::build(
            &mut samples,
            SerialConfig { tx: 0, rx: 1, rts: None, cts: None, baud: 0, parity: Parity::Off }
        ),
        Err(PipelineError::Config(ConfigError::InvalidBaud))
    );
    assert_eq!(samples, before);
}

#[test]
fn serial_and_wizfi_stages_are_built() {
    let s = 1_000_000_000_000i64;
    // a carriage return, 0x0D, on channel 0 at one bit a second
    let levels = [0u64, 1, 0, 1, 1, 0, 0, 0, 0, 1, 1, 1, 1];
    let mut samples = VecDeque::new();
    samples.push_back((0, Ok(Sample(1))));
    let mut last = 1;
    for (i, l) in levels.iter().enumerate() {
        if *l != last {
            samples.push_back(((10 + i as i64) * s, Ok(Sample(*l))));
            last = *l;
        }
    }
    samples.push_back((40 * s, Ok(Sample(3))));
    let mut pipeline = vec![Stream::Sample(samples)];
    let config = SerialConfig { tx: 0, rx: 5, rts: Some(6), cts: Some(7), baud: 1, parity: Parity::Off };
    assert_eq!(logic_decoder::serial::build(&mut pipeline, config), Ok(()));
    match &pipeline[0] {
        Stream::SerialEvent(v) => {
            assert!(v.iter().any(|(_, e)| *e == Ok(SerialEvent::Tx(0x0D))));
        }
        _ => panic!("the top holds no serial events"),
    }
    assert_eq!(logic_decoder::wizfi310::build(&mut pipeline), Ok(()));
    match finish(pipeline) {
        Ok(Stream::WizFi310Event(v)) => {
            let events: Vec<_> = v.into_iter().map(|(_, e)| e.unwrap()).collect();
            assert_eq!(events, vec![WizFi310Event::Command("\r".to_string())]);
        }
        _ => panic!("the pipeline did not come down to WizFi310 events"),
    }
}

fn in_order<T>(events: &VecDeque<(i64, T)>) -> bool {
    events.iter().zip(events.iter().skip(1)).all(|(a, b)| a.0 <= b.0)
}

#[test]
fn events_come_out_in_the_order_of_time() {
    let request = logic_decoder::usb::types::Data {
        pid: logic_decoder::usb::types::DataPID::Data0,
        payload: vec![0x00, 0x09, 0x01, 0x00, 0x00, 0x00, 0x00, 0x00],
    }
    .encode();
    let samples = low_speed_samples(&[
        &[0x80, 0x2D, 0x00, 0x10],
        &request,
        &[0x80, 0xD2],
        &[0x80, 0x69, 0x00, 0x10],
        &[0x80, 0x4B, 0x00, 0x00],
        &[0x80, 0xD2],
    ]);
    assert!(in_order(&samples));
    let mut pipeline = vec![Stream::Sample(samples)];
    assert_eq!(logic_decoder::usb::signal::build(&mut pipeline, false, 0, 1), Ok(()));
    match &pipeline[0] {
        Stream::UsbSignal(v) => assert!(in_order(v)),
        _ => panic!("the top holds no bus states"),
    }
    assert_eq!(logic_decoder::usb::packet::build(&mut pipeline), Ok(()));
    match &pipeline[0] {
        Stream::UsbPacket(v) => {
            assert!(in_order(v));
            assert_eq!(v.len(), 7);
            assert!(v.iter().take(6).all(|(_, e)| e.is_ok()));
        }
        _ => panic!("the top holds no packets"),
    }
    assert_eq!(logic_decoder::usb::protocol::build(&mut pipeline), Ok(()));
    match &pipeline[0] {
        Stream::UsbTransaction(v) => {
            assert!(in_order(v));
            assert_eq!(v.len(), 3);
        }
        _ => panic!("the top holds no transactions"),
    }
    assert_eq!(logic_decoder::usb::device::build(&mut pipeline), Ok(()));
    match finish(pipeline) {
        Ok(Stream::DeviceEvent(v)) => {
            assert!(in_order(&v));
            assert_eq!(v.len(), 2);
            assert!(v[0].1.is_ok());
        }
        _ => panic!("the pipeline did not come down to device events"),
    }
}

#[test]
fn flash_stage_is_built() {
    let mut pipeline = vec![Stream::SpiEvent(VecDeque::from(vec![
        (1, Ok(SpiEvent::Data { mosi: 0x06, miso: 0 })),
        (2, Ok(SpiEvent::ChipSelect(true))),
    ]))];
    assert_eq!(logic_decoder::spif::build(&mut pipeline), Ok(()));
    assert_eq!(
        finish(pipeline),
        Ok(Stream::FlashCommand(VecDeque::from(vec![(1, Ok(Command::WriteEnable))])))
    );
}

#[test]
fn sources_are_built() {
    let mut pipeline = vec![];
    logic_decoder::source::vcd::build(
        &mut pipeline,
        VecDeque::from(vec![
            Ok(VcdCommand::Timescale(1, TimescaleUnit::US)),
            Ok(VcdCommand::VarDef { wire: true, id: 3, name: "w_2".to_string() }),
            Ok(VcdCommand::Timestamp(0)),
            Ok(VcdCommand::ChangeScalar(3, Value::V1)),
        ]),
    );
    assert_eq!(
        pipeline,
        vec![Stream::Sample(VecDeque::from(vec![(-100_000_000_000, Ok(Sample(4)))]))]
    );
    let mut file = 2i64.to_le_bytes().to_vec();
    file.push(7);
    logic_decoder::source::logic::build(&mut pipeline, file, 2);
    assert_eq!(
        pipeline[1],
        Stream::Sample(VecDeque::from(vec![(1_000_000_000_000, Ok(Sample(7)))]))
    );
    assert_eq!(
        logic_decoder::source::logic2::build(&mut pipeline, &vec![]),
        Err(PipelineError::Source(SourceError::NoSample))
    );
    assert_eq!(pipeline.len(), 2);
}

#[test]
fn a_stage_is_driven_to_its_end() {
    let input: VecDeque<_> =
        vec![(0, Ok(Sample(1))), (5, Ok(Sample(2))), (9, Ok(Sample(2)))].into();
    let mut stage = SignalIterator::new(input, true, 0, 1).unwrap();
    assert_eq!(stage.event_type(), EventType::UsbSignal);
    assert_eq!(stage.event_type_name(), "usb::signal::Signal");
    assert_eq!(drain(&mut stage), VecDeque::from(vec![(0, Ok(Signal::J)), (5, Ok(Signal::K))]));
    assert_eq!(drain(&mut stage), VecDeque::new());
    let mut bytes = ByteIterator::new(VecDeque::new(), true);
    assert_eq!(EventIterator::next(&mut bytes), None);
    assert_eq!(bytes.event_type(), EventType::UsbByte);
    let mut source = LogicData::parse_data(vec![]).err();
    assert_eq!(source.take(), Some(SourceError::NoSample));
}
