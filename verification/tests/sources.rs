use logic_decoder::error::{DecodeError, SourceError};
use logic_decoder::source::logic::LogicDataParser;
use logic_decoder::source::vcd::{
    wire_channel, TimescaleUnit, Value, VcdCommand, VcdParser, PRE_TRIGGER,
};
use logic_decoder::source::Sample;
use std::collections::VecDeque;

fn wire(id: u64, name: &str) -> Result<VcdCommand, SourceError> {
    Ok(VcdCommand::VarDef { wire: true, id, name: name.to_string() })
}

fn run(commands: Vec<Result<VcdCommand, SourceError>>) -> Vec<(i64, Result<Sample, DecodeError>)> {
    let mut source = VcdParser::new(VecDeque::from(commands));
    let mut out = Vec::new();
    while let Some(e) = source.next() {
        out.push(e);
    }
    out
}

#[test]
fn first_timestamp_of_a_dump_is_a_tenth_of_a_second_before_the_trigger() {
    let out = run(vec![
        Ok(VcdCommand::Timescale(1, TimescaleUnit::NS)),
        wire(0, "channel_0"),
        wire(1, "channel_3"),
        Ok(VcdCommand::Other),
        Ok(VcdCommand::Timestamp(123_456)),
        Ok(VcdCommand::ChangeScalar(0, Value::V1)),
        Ok(VcdCommand::ChangeScalar(1, Value::V1)),
        Ok(VcdCommand::Timestamp(123_457)),
        Ok(VcdCommand::ChangeScalar(0, Value::V0)),
        Ok(VcdCommand::Timestamp(1_000_123_456)),
        Ok(VcdCommand::ChangeScalar(1, Value::V0)),
    ]);
    assert_eq!(PRE_TRIGGER, 100_000_000_000);
    assert_eq!(
        out,
        vec![
            (-100_000_000_000, Ok(Sample(0b0001))),
            (-100_000_000_000, Ok(Sample(0b1001))),
            (-99_999_999_000, Ok(Sample(0b1000))),
            (900_000_000_000, Ok(Sample(0b0000))),
        ]
    );
}

#[test]
fn timescales() {
    for (n, unit, expected) in [
        (1, TimescaleUnit::S, 2_000_000_000_000 - PRE_TRIGGER),
        (10, TimescaleUnit::MS, 20_000_000_000 - PRE_TRIGGER),
        (100, TimescaleUnit::US, 200_000_000 - PRE_TRIGGER),
        (1, TimescaleUnit::NS, 2_000 - PRE_TRIGGER),
        (1, TimescaleUnit::PS, 2 - PRE_TRIGGER),
        (1000, TimescaleUnit::FS, 2 - PRE_TRIGGER),
        (1, TimescaleUnit::FS, -PRE_TRIGGER),
    ] {
        let out = run(vec![
            Ok(VcdCommand::Timescale(n, unit)),
            wire(7, "d_1"),
            Ok(VcdCommand::Timestamp(5)),
            Ok(VcdCommand::Timestamp(7)),
            Ok(VcdCommand::ChangeScalar(7, Value::V1)),
        ]);
        assert_eq!(out, vec![(expected, Ok(Sample(2)))]);
    }
}

#[test]
fn a_dump_ends_where_time_goes_back() {
    let out = run(vec![
        wire(0, "w_0"),
        Ok(VcdCommand::Timestamp(5)),
        Ok(VcdCommand::Timestamp(6)),
        Ok(VcdCommand::Timestamp(5)),
        Ok(VcdCommand::ChangeScalar(0, Value::V1)),
    ]);
    assert_eq!(
        out,
        vec![(
            1_000_000_000_000 - PRE_TRIGGER,
            Err(DecodeError::Source(SourceError::NonMonotonic))
        )]
    );
}

#[test]
fn dump_errors() {
    let fails = |e| vec![(-PRE_TRIGGER, Err(DecodeError::Source(e)))];
    assert_eq!(
        run(vec![wire(0, "w_0"), Ok(VcdCommand::ChangeScalar(0, Value::X)), wire(1, "w_1")]),
        fails(SourceError::UnsupportedValue)
    );
    assert_eq!(
        run(vec![wire(0, "w_0"), Ok(VcdCommand::ChangeScalar(0, Value::Z))]),
        fails(SourceError::UnsupportedValue)
    );
    assert_eq!(
        run(vec![
            Ok(VcdCommand::VarDef { wire: false, id: 0, name: "r_0".to_string() }),
            Ok(VcdCommand::ChangeScalar(0, Value::V1))
        ]),
        fails(SourceError::UnsupportedVarType)
    );
    assert_eq!(run(vec![wire(0, "clock")]), fails(SourceError::InvalidVariableName));
    assert_eq!(run(vec![wire(0, "w_64")]), fails(SourceError::InvalidChannel(64)));
    assert_eq!(
        run(vec![Ok(VcdCommand::ChangeScalar(9, Value::V1))]),
        fails(SourceError::UnknownVariable)
    );
    assert_eq!(run(vec![Err(SourceError::Syntax)]), fails(SourceError::Syntax));
    assert_eq!(
        run(vec![
            Ok(VcdCommand::Timescale(u32::MAX, TimescaleUnit::S)),
            Ok(VcdCommand::Timestamp(0)),
            Ok(VcdCommand::Timestamp(u64::MAX))
        ]),
        fails(SourceError::InvalidTime)
    );
    // what the reader could not read does not end the dump
    let out = run(vec![
        wire(0, "w_0"),
        Err(SourceError::Syntax),
        Ok(VcdCommand::ChangeScalar(0, Value::V1)),
    ]);
    assert_eq!(out.len(), 2);
    assert_eq!(out[1], (-PRE_TRIGGER, Ok(Sample(1))));
}

#[test]
fn channel_of_a_wire() {
    assert_eq!(wire_channel("channel_5"), Ok(5));
    assert_eq!(wire_channel("a_12_b"), Ok(12));
    assert_eq!(wire_channel("_63"), Ok(63));
    assert_eq!(wire_channel("a_b_3"), Err(SourceError::InvalidVariableName));
    assert_eq!(wire_channel("a_"), Err(SourceError::InvalidVariableName));
    assert_eq!(wire_channel("a"), Err(SourceError::InvalidVariableName));
    assert_eq!(wire_channel("a_100"), Err(SourceError::InvalidChannel(100)));
}

fn record(tick: i64, sample: u8) -> Vec<u8> {
    let mut v = tick.to_le_bytes().to_vec();
    v.push(sample);
    v
}

#[test]
fn reads_records_of_a_single_file() {
    let mut file = record(0, 1);
    file.extend(record(24, 3));
    file.extend(record(-12, 0));
    file.extend(record(1, 0xFF));
    let mut source = LogicDataParser::new(file, 24_000_000);
    assert_eq!(source.next(), Some((0, Ok(Sample(1)))));
    assert_eq!(source.next(), Some((1_000_000, Ok(Sample(3)))));
    assert_eq!(source.next(), Some((-500_000, Ok(Sample(0)))));
    // a tick of a 24 MHz clock is 41 666.67 ps
    assert_eq!(source.next(), Some((41_667, Ok(Sample(0xFF)))));
    assert_eq!(source.next(), None);
    assert_eq!(source.next(), None);
}

#[test]
fn a_frequency_of_zero_is_one_tick_a_second() {
    let mut source = LogicDataParser::new(record(3, 9), 0);
    assert_eq!(source.next(), Some((3_000_000_000_000, Ok(Sample(9)))));
}

#[test]
fn single_file_errors() {
    let mut file = record(5, 1);
    file.extend_from_slice(&[1, 2, 3]);
    let mut source = LogicDataParser::new(file, 1);
    assert_eq!(source.next(), Some((5_000_000_000_000, Ok(Sample(1)))));
    assert_eq!(
        source.next(),
        Some((5_000_000_000_000, Err(DecodeError::Source(SourceError::IncompleteRecord))))
    );
    assert_eq!(source.next(), None);
    let mut source = LogicDataParser::new(record(i64::MAX, 1), 1);
    assert_eq!(source.next(), Some((0, Err(DecodeError::Source(SourceError::InvalidTime)))));
    assert_eq!(source.next(), None);
}
