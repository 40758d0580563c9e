//! The single-file binary format: records of a tick and a sample.
//!
//! A record is nine bytes: the tick as a signed 64-bit number, the lowest
//! byte first, and one byte with the levels of the first eight channels. The
//! sample frequency, which says how long a tick is, is not in the file.
use vstd::prelude::*;
use vstd::arithmetic::div_mod::lemma_div_is_ordered;
use crate::bytes::le64_at;
use crate::bytes::read_le64;
use crate::error::DecodeError;
use crate::error::SourceError;
use crate::pipeline::drain;
use crate::pipeline::Event;
use crate::pipeline::EventIterator;
use crate::pipeline::EventType;
use crate::pipeline::push_top;
use crate::pipeline::Stream;
use crate::pipeline::stream_view;
use crate::pipeline::StreamView;
use crate::pipeline::views;
use crate::time::PICOS_PER_SECOND;
use crate::time::round_div;
use crate::time::Timestamp;
use super::Sample;

verus! {

/// The length of a record in bytes.
pub const RECORD_LEN: usize = 9;

/// The signed number that 64 bits stand for in two's complement.
pub open spec fn signed(raw: u64) -> int {
    if raw >= 0x8000_0000_0000_0000 {
        raw - 0x1_0000_0000_0000_0000
    } else {
        raw as int
    }
}

/// The time of the tick `tick` at `freq` ticks a second, to the nearest
/// picosecond, if a timestamp can hold it.
pub open spec fn tick_time(tick: int, freq: u64) -> Option<Timestamp>
    recommends
        freq > 0,
{
    let magnitude = round_div(
        (if tick < 0 {
            -tick
        } else {
            tick
        }) * PICOS_PER_SECOND,
        freq as int,
    );
    if magnitude > i64::MAX {
        None
    } else if tick < 0 {
        Some((-magnitude) as i64)
    } else {
        Some(magnitude as i64)
    }
}

/// Where the source stands: how many bytes it has read, the time of the
/// last record, and whether the file has come to an end that is no end of a record.
pub struct Cursor {
    pub pos: int,
    pub current_ts: Timestamp,
    pub stopped: bool,
}

/// What one call of `next` makes of the file `input`: the event handed out,
/// if any, and where the source stands after it.
///
/// A whole record gives its sample at the time of its tick, or a diagnostic
/// at the time of the record before where that time is beyond the range of a
/// timestamp. Fewer than nine bytes at the end of the file give one
/// diagnostic, after which nothing more comes; a file that ends with a
/// record just ends.
pub open spec fn next_record(c: Cursor, input: Seq<u8>, freq: u64) -> (
    Option<Event<Sample>>,
    Cursor,
)
    recommends
        0 <= c.pos <= input.len(),
        freq > 0,
{
    if c.stopped || c.pos >= input.len() {
        (None, c)
    } else if input.len() - c.pos < RECORD_LEN {
        (
            Some((c.current_ts, Err(DecodeError::Source(SourceError::IncompleteRecord)))),
            Cursor { stopped: true, ..c },
        )
    } else {
        let sample = Sample(input[c.pos + 8] as u64);
        match tick_time(signed(le64_at(input, c.pos)), freq) {
            Some(ts) => (
                Some((ts, Ok(sample))),
                Cursor { pos: c.pos + RECORD_LEN, current_ts: ts, stopped: false },
            ),
            None => (
                Some((c.current_ts, Err(DecodeError::Source(SourceError::InvalidTime)))),
                Cursor { pos: c.pos + RECORD_LEN, ..c },
            ),
        }
    }
}

/// The source of a single-file capture: the bytes of the file and how far
/// they were read.
pub struct LogicDataParser {
    input: Vec<u8>,
    pos: usize,
    freq: u64,
    current_ts: Timestamp,
    stopped: bool,
}

/// Converts a tick to a timestamp.
fn time_of_tick(raw: u64, freq: u64) -> (r: Option<Timestamp>)
    requires
        freq > 0,
    ensures
        r == tick_time(signed(raw), freq),
{
    let negative: bool = raw >= 0x8000_0000_0000_0000;
    let magnitude: u128 = if negative {
        0x1_0000_0000_0000_0000u128 - (raw as u128)
    } else {
        raw as u128
    };
    let scaled: u128 = magnitude * 1_000_000_000_000;
    let f: u128 = freq as u128;
    let rounded: u128 = (2 * scaled + f) / (2 * f);
    if rounded > i64::MAX as u128 {
        None
    } else if negative {
        Some(-(rounded as i64))
    } else {
        Some(rounded as i64)
    }
}

impl LogicDataParser {
    /// The position lies within the file, and a second has ticks.
    pub closed spec fn wf(&self) -> bool {
        self.pos <= self.input@.len() && self.freq > 0
    }

    /// The bytes of the file.
    pub closed spec fn file(&self) -> Seq<u8> {
        self.input@
    }

    /// How many ticks a second has.
    pub closed spec fn frequency(&self) -> u64 {
        self.freq
    }

    /// Where the source stands.
    pub closed spec fn cursor(&self) -> Cursor {
        Cursor { pos: self.pos as int, current_ts: self.current_ts, stopped: self.stopped }
    }

    /// Makes the source of a file sampled at `freq` ticks a second; a
    /// frequency of zero stands for one tick a second.
    pub fn new(input: Vec<u8>, freq: u64) -> (r: Self)
        ensures
            r.wf(),
            r.file() == input@,
            r.frequency() == if freq == 0 {
                1
            } else {
                freq
            },
            r.cursor() == (Cursor { pos: 0, current_ts: 0, stopped: false }),
    {
        Self {
            input,
            pos: 0,
            freq: if freq == 0 {
                1
            } else {
                freq
            },
            current_ts: 0,
            stopped: false,
        }
    }

    /// Reads the next record and hands out its sample; `None` at the end of the file.
    pub fn next(&mut self) -> (r: Option<Event<Sample>>)
        requires
            old(self).wf(),
        ensures
            final(self).wf(),
            final(self).file() == old(self).file(),
            final(self).frequency() == old(self).frequency(),
            (r, final(self).cursor()) == next_record(
                old(self).cursor(),
                old(self).file(),
                old(self).frequency(),
            ),
    {
        if self.stopped || self.pos >= self.input.len() {
            return None;
        }
        if self.input.len() - self.pos < RECORD_LEN {
            self.stopped = true;
            return Some((self.current_ts, Err(DecodeError::Source(SourceError::IncompleteRecord))));
        }
        let raw: u64 = read_le64(self.input.as_slice(), self.pos);
        let smp = Sample(self.input[self.pos + 8] as u64);
        self.pos = self.pos + RECORD_LEN;
        match time_of_tick(raw, self.freq) {
            Some(ts) => {
                self.current_ts = ts;
                Some((ts, Ok(smp)))
            },
            None => Some((self.current_ts, Err(DecodeError::Source(SourceError::InvalidTime)))),
        }
    }
}

/// How much the source has still to read: the bytes after its position,
/// and the diagnostic that it has not given yet.
pub open spec fn unread(c: Cursor, input: Seq<u8>) -> int {
    input.len() - c.pos + if c.stopped {
        0int
    } else {
        1int
    }
}

/// All the events that the source hands out from here on.
pub open spec fn all_records(c: Cursor, input: Seq<u8>, freq: u64) -> Seq<Event<Sample>>
    decreases unread(c, input),
{
    let r = next_record(c, input, freq);
    match r.0 {
        Some(e) => if 0 <= unread(r.1, input) < unread(c, input) {
            seq![e] + all_records(r.1, input, freq)
        } else {
            seq![e]
        },
        None => Seq::empty(),
    }
}

impl EventIterator for LogicDataParser {
    type Item = Sample;

    open spec fn ready(&self) -> bool {
        self.wf()
    }

    open spec fn upcoming(&self) -> Seq<Event<Sample>> {
        all_records(self.cursor(), self.file(), self.frequency())
    }

    fn next(&mut self) -> (r: Option<Event<Sample>>) {
        let r = LogicDataParser::next(self);
        proof {
            let before = old(self).upcoming();
            if r is Some {
                assert(before.subrange(1, before.len() as int) =~= self.upcoming());
            }
        }
        r
    }

    fn event_type(&self) -> (r: EventType)
        ensures
            r == EventType::Sample,
    {
        EventType::Sample
    }

    fn event_type_name(&self) -> (r: &'static str)
        ensures
            r@ == "source::Sample"@,
    {
        "source::Sample"
    }
}

/// Puts the source of a single-file capture onto a pipeline: the samples of
/// the records of the file, sampled at `freq` ticks a second.
pub fn build(pipeline: &mut Vec<Stream>, file: Vec<u8>, freq: u64)
    ensures
        views(final(pipeline)@) == views(old(pipeline)@).push(
            StreamView::Sample(
                all_records(
                    Cursor { pos: 0, current_ts: 0, stopped: false },
                    file@,
                    if freq == 0 {
                        1
                    } else {
                        freq
                    },
                ),
            ),
        ),
{
    let mut source = LogicDataParser::new(file, freq);
    let out = drain(&mut source);
    proof {
        assert(stream_view(out@) =~= out@);
    }
    push_top(pipeline, Stream::Sample(out));
}

/// The tick of the record that begins at the place `pos` of the file.
pub open spec fn tick_at(input: Seq<u8>, pos: int) -> int {
    signed(le64_at(input, pos))
}

/// A later tick is not an earlier time.
pub proof fn lemma_tick_time_in_order(a: int, b: int, freq: u64)
    requires
        a <= b,
        freq > 0,
        tick_time(a, freq) is Some,
        tick_time(b, freq) is Some,
    ensures
        tick_time(a, freq).unwrap() <= tick_time(b, freq).unwrap(),
{
    let f = freq as int;
    let ma = if a < 0 {
        -a
    } else {
        a
    };
    let mb = if b < 0 {
        -b
    } else {
        b
    };
    if a >= 0 {
        lemma_div_is_ordered(2 * (ma * PICOS_PER_SECOND) + f, 2 * (mb * PICOS_PER_SECOND) + f, 2 * f);
    } else if b < 0 {
        lemma_div_is_ordered(2 * (mb * PICOS_PER_SECOND) + f, 2 * (ma * PICOS_PER_SECOND) + f, 2 * f);
    } else {
        lemma_div_is_ordered(0, 2 * (ma * PICOS_PER_SECOND) + f, 2 * f);
        lemma_div_is_ordered(0, 2 * (mb * PICOS_PER_SECOND) + f, 2 * f);
    }
}

/// Samples leave the source in the order of time: where the tick of a
/// record is not before the tick of the record before it, and the time of
/// neither lies before the time that the source stands at, two events handed
/// out one after the other carry timestamps that do not decrease.
pub proof fn lemma_records_in_order(c: Cursor, input: Seq<u8>, freq: u64)
    requires
        freq > 0,
        0 <= c.pos,
        tick_at(input, c.pos) <= tick_at(input, c.pos + RECORD_LEN),
        tick_time(tick_at(input, c.pos), freq) matches Some(t) ==> c.current_ts <= t,
        tick_time(tick_at(input, c.pos + RECORD_LEN), freq) matches Some(t) ==> c.current_ts <= t,
    ensures
        ({
            let first = next_record(c, input, freq);
            let second = next_record(first.1, input, freq);
            first.0 is Some && second.0 is Some ==> first.0.unwrap().0 <= second.0.unwrap().0
        }),
{
    let first = next_record(c, input, freq);
    let second = next_record(first.1, input, freq);
    if first.0 is Some && second.0 is Some {
        let a = tick_at(input, c.pos);
        let b = tick_at(input, c.pos + RECORD_LEN);
        if tick_time(a, freq) is Some && tick_time(b, freq) is Some {
            lemma_tick_time_in_order(a, b, freq);
        }
    }
}

} // verus!
