use logic_decoder::error::SourceError;
use logic_decoder::source::logic2::{
    channel_id, coalesce, parse_common_header, parse_digital_header, Channel, LogicData,
};
use logic_decoder::source::Sample;
use logic_decoder::time::timestamp_from_seconds;

#[test]
fn logic2_test_incomplete_tag() {
    assert!(parse_common_header(b"<SAL").is_err());
}

#[test]
fn logic2_can_parse_header() {
    assert_eq!(
        Some((1u32, 2u32)),
        parse_common_header(b"<SALEAE>\x01\x00\x00\x00\x02\x00\x00\x00").ok()
    );
}

#[test]
fn logic2_can_parse_digital_header() {
    let raw = &[
        1, 0, 0, 0,
        0, 0, 0, 0, 0, 0, 55, 64,
        0, 0, 0, 0, 0, 128, 70, 64,
        67, 0, 0, 0, 0, 0, 0, 0,
    ];
    let header = parse_digital_header(raw).ok();
    assert_eq!(
        Some((1u32, 23f64, 45f64, 67u64)),
        header.map(|(s, b, e, n)| (s, f64::from_bits(b), f64::from_bits(e), n))
    );
}

#[test]
fn header_errors() {
    assert_eq!(parse_common_header(b"<SAL"), Err(SourceError::IncompleteHeader));
    assert_eq!(
        parse_common_header(b"<SALEAE!\x00\x00\x00\x00\x00\x00\x00\x00"),
        Err(SourceError::InvalidPrefix)
    );
    assert_eq!(parse_digital_header(&[0u8; 27]), Err(SourceError::IncompleteHeader));
}

#[test]
fn channel_number_from_file_name() {
    assert_eq!(channel_id("digital_0.bin"), Some(0));
    assert_eq!(channel_id("digital_17.bin"), Some(17));
    assert_eq!(channel_id("digital_+3.bin"), Some(3));
    assert_eq!(channel_id("digital_.bin"), None);
    assert_eq!(channel_id("digital_x.bin"), None);
    assert_eq!(channel_id("analog_1.bin"), None);
    assert_eq!(channel_id("digital_4294967296.bin"), None);
    assert_eq!(channel_id("digital_4294967295.bin"), Some(4294967295));
}

#[test]
fn seconds_to_picoseconds() {
    assert_eq!(timestamp_from_seconds(0f64.to_bits()), Some(0));
    assert_eq!(timestamp_from_seconds(1f64.to_bits()), Some(1_000_000_000_000));
    assert_eq!(timestamp_from_seconds((-0.1f64).to_bits()), Some(-100_000_000_000));
    assert_eq!(timestamp_from_seconds(0.3f64.to_bits()), Some(300_000_000_000));
    assert_eq!(timestamp_from_seconds(2.5e-9f64.to_bits()), Some(2_500));
    assert_eq!(timestamp_from_seconds(0.4e-12f64.to_bits()), Some(0));
    assert_eq!(timestamp_from_seconds(0.6e-12f64.to_bits()), Some(1));
    assert_eq!(timestamp_from_seconds((-0.6e-12f64).to_bits()), Some(-1));
    assert_eq!(timestamp_from_seconds(f64::MIN_POSITIVE.to_bits()), Some(0));
    assert_eq!(timestamp_from_seconds(f64::NAN.to_bits()), None);
    assert_eq!(timestamp_from_seconds(f64::INFINITY.to_bits()), None);
    assert_eq!(timestamp_from_seconds(1e7f64.to_bits()), None);
    assert_eq!(timestamp_from_seconds(1e300f64.to_bits()), None);
    assert_eq!(timestamp_from_seconds(9e6f64.to_bits()), Some(9_000_000_000_000_000_000));
}

fn file(initial: u32, times: &[f64]) -> Vec<u8> {
    let mut v = b"<SALEAE>".to_vec();
    v.extend_from_slice(&0u32.to_le_bytes());
    v.extend_from_slice(&0u32.to_le_bytes());
    v.extend_from_slice(&initial.to_le_bytes());
    v.extend_from_slice(&0f64.to_le_bytes());
    v.extend_from_slice(&1f64.to_le_bytes());
    v.extend_from_slice(&(times.len() as u64).to_le_bytes());
    for t in times {
        v.extend_from_slice(&t.to_le_bytes());
    }
    v
}

#[test]
fn reads_a_channel_file() {
    let c = Channel::parse("digital_3.bin", &file(1, &[1.0, 2.0])).unwrap();
    assert_eq!(
        c,
        Channel {
            id: 3,
            initial_state: true,
            transitions: vec![1_000_000_000_000, 2_000_000_000_000]
        }
    );
}

#[test]
fn channel_file_errors() {
    assert_eq!(Channel::parse("foo.bin", &file(0, &[])), Err(SourceError::InvalidFilename));
    assert_eq!(
        Channel::parse("digital_64.bin", &file(0, &[])),
        Err(SourceError::InvalidChannel(64))
    );
    assert_eq!(Channel::parse("digital_1.bin", b"<SAL"), Err(SourceError::IncompleteHeader));
    let mut v = file(0, &[1.0]);
    v[8] = 1;
    assert_eq!(Channel::parse("digital_1.bin", &v), Err(SourceError::UnsupportedVersion(1)));
    let mut v = file(0, &[1.0]);
    v[12] = 2;
    assert_eq!(Channel::parse("digital_1.bin", &v), Err(SourceError::UnexpectedFileType(2)));
    let mut v = file(0, &[1.0]);
    v.push(0);
    assert_eq!(Channel::parse("digital_1.bin", &v), Err(SourceError::Corrupted));
    assert_eq!(
        Channel::parse("digital_1.bin", &file(0, &[f64::NAN])),
        Err(SourceError::InvalidTime)
    );
    let v = file(0, &[]);
    assert_eq!(Channel::parse("digital_1.bin", &v[..20]), Err(SourceError::IncompleteHeader));
}

#[test]
fn coalesces_transitions_within_a_nanosecond() {
    // channels 0 and 1 toggle 0.5 ns apart, channel 0 again 2 ns later
    let merged = vec![(0u32, 1_000_000i64), (1, 1_000_500), (0, 1_002_500)];
    assert_eq!(
        coalesce(&merged, 0b10),
        Ok(vec![(1_000_000i64, 0b01u64), (1_002_500, 0b00)])
    );
    // exactly one nanosecond apart is not within it
    let merged = vec![(0u32, 0i64), (1, 1000)];
    assert_eq!(coalesce(&merged, 0), Ok(vec![(0i64, 1u64), (1000, 3)]));
    // a channel that toggles twice within the window starts a new sample
    let merged = vec![(0u32, 0i64), (0, 10)];
    assert_eq!(coalesce(&merged, 0), Ok(vec![(0i64, 1u64), (10, 0)]));
    assert_eq!(coalesce(&vec![(0u32, 5i64), (1, 4)], 0), Err(SourceError::OutOfOrder));
    assert_eq!(coalesce(&vec![(70u32, 5i64)], 0), Err(SourceError::InvalidChannel(70)));
}

#[test]
fn merges_channel_files_into_samples() {
    let files = vec![
        ("digital_0.bin".to_string(), file(1, &[1e-6, 3e-6])),
        ("digital_2.bin".to_string(), file(0, &[2e-6, 3e-6 + 0.5e-9])),
    ];
    let mut source = LogicData::new(&files).ok().unwrap();
    let mut got = Vec::new();
    while let Some((ts, sample)) = source.next() {
        got.push((ts, sample.unwrap()));
    }
    assert_eq!(
        got,
        vec![
            (0, Sample(0b001)),
            (1_000_000, Sample(0b000)),
            (2_000_000, Sample(0b100)),
            (3_000_000, Sample(0b001)),
        ]
    );
    assert!(source.next().is_none());
}

#[test]
fn a_capture_with_a_transition_gives_samples() {
    let one = Channel { id: 3, initial_state: true, transitions: vec![5] };
    let mut source = LogicData::parse_data(vec![one]).ok().unwrap();
    assert_eq!(source.next(), Some((0, Ok(Sample(0b1000)))));
    assert_eq!(source.next(), Some((5, Ok(Sample(0)))));
    assert_eq!(source.next(), None);
    // channels in any order of their numbers, one of them without a transition
    let channels = vec![
        Channel { id: 63, initial_state: false, transitions: vec![10, 20, 20_000] },
        Channel { id: 0, initial_state: true, transitions: vec![] },
        Channel { id: 7, initial_state: true, transitions: vec![0, 20, 30_000] },
    ];
    let mut source = LogicData::parse_data(channels).ok().unwrap();
    let mut samples = Vec::new();
    while let Some((ts, sample)) = source.next() {
        samples.push((ts, sample.unwrap().0));
    }
    assert_eq!(samples[0], (0, 0b1000_0001));
    assert_eq!(samples[1], (0, (1 << 63) | 1));
    assert!(samples.windows(2).all(|w| w[0].0 <= w[1].0));
    assert!(samples.windows(2).all(|w| w[0].1 != w[1].1));
    assert_eq!(
        LogicData::parse_data(vec![Channel { id: 64, initial_state: false, transitions: vec![1] }])
            .err(),
        Some(SourceError::InvalidChannel(64))
    );
}

#[test]
fn capture_without_transitions_has_no_sample() {
    let files = vec![("digital_0.bin".to_string(), file(1, &[]))];
    assert_eq!(LogicData::new(&files).err(), Some(SourceError::NoSample));
    assert_eq!(LogicData::new(&vec![]).err(), Some(SourceError::NoSample));
}

#[test]
fn every_transition_goes_into_one_sample() {
    let channels = vec![
        Channel { id: 2, initial_state: false, transitions: vec![100, 1_100, 5_000, 9_999] },
        Channel { id: 0, initial_state: true, transitions: vec![600, 1_600, 9_000] },
        Channel { id: 5, initial_state: false, transitions: vec![1_099, 5_999, 6_999] },
    ];
    let shape: Vec<(u32, Vec<i64>)> =
        channels.iter().map(|c| (c.id, c.transitions.clone())).collect();
    let mut source = LogicData::parse_data(channels).ok().unwrap();
    let mut samples = Vec::new();
    while let Some((ts, sample)) = source.next() {
        samples.push((ts, sample.unwrap().0));
    }
    assert_eq!(
        samples,
        vec![
            (0, 0b000001),
            (100, 0b100100),
            (1_100, 0b100001),
            (5_000, 0b000101),
            (6_999, 0b100101),
            (9_000, 0b100000),
        ]
    );
    for k in 1..samples.len() {
        let ts = samples[k].0;
        let mut expected = 0u64;
        for (id, times) in &shape {
            if times.iter().any(|t| ts <= *t && *t < ts + 1000) {
                expected |= 1 << id;
            }
        }
        assert_ne!(expected, 0);
        assert_eq!(samples[k].1 ^ samples[k - 1].1, expected);
        if k > 1 {
            assert!(samples[k].0 - samples[k - 1].0 >= 1000);
        }
    }
    for (_, times) in &shape {
        for t in times {
            let holders =
                samples[1..].iter().filter(|s| s.0 <= *t && *t < s.0 + 1000).count();
            assert_eq!(holders, 1);
        }
    }
}
