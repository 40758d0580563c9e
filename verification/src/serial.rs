//! Asynchronous serial lines: a start bit, eight data bits with the lowest
//! first, an optional parity bit and a stop bit, on a receive and a transmit
//! line, each with a flow control line beside it.
use vstd::prelude::*;
use vstd::string::StringSliceAdditionalSpecFns;
use std::collections::VecDeque;
use crate::bytes::is_word;
use crate::error::ConfigError;
use crate::pipeline::build_result;
use crate::pipeline::drain;
use crate::pipeline::ordered;
use crate::pipeline::Event;
use crate::pipeline::EventIterator;
use crate::pipeline::EventType;
use crate::pipeline::kind_of;
use crate::pipeline::PipelineError;
use crate::pipeline::pop_top;
use crate::pipeline::push_top;
use crate::pipeline::replaced;
use crate::pipeline::StageKind;
use crate::pipeline::Stream;
use crate::pipeline::stream_view;
use crate::pipeline::StreamView;
use crate::pipeline::views;
use crate::source::Sample;
use crate::time::PICOS_PER_SECOND;
use crate::time::Timestamp;

verus! {

#[derive(Debug, Clone, Copy, PartialEq, Eq, Structural)]
pub enum SerialError {
    /// The stop bit was low, or the capture ended within a character.
    Framing,
    /// The parity bit is not what the data bits ask for.
    Parity,
}

#[derive(Debug, Clone, Copy, PartialEq, Eq, Structural)]
pub enum SerialEvent {
    Rx(u8),
    Tx(u8),
    Cts(bool),
    Rts(bool),
    TxError(SerialError),
    RxError(SerialError),
}

impl View for SerialEvent {
    type V = SerialEvent;

    open spec fn view(&self) -> SerialEvent {
        *self
    }
}

#[derive(Debug, Clone, Copy, PartialEq, Eq, Structural)]
pub enum Parity {
    Even,
    Odd,
    /// The parity bit is always high (`set`).
    Mark,
    Clear,
    /// There is no parity bit (`none`).
    Off,
}

#[derive(Debug, Clone, Copy, PartialEq, Eq, Structural)]
pub enum ParityParseError {
    InvalidInput,
}

/// The parity that a word names: `none`, `even`, `odd`, `set` or `clear`.
pub open spec fn parity_of(word: Seq<u8>) -> Result<Parity, ParityParseError> {
    if word == seq![110u8, 111, 110, 101] {
        Ok(Parity::Off)
    } else if word == seq![101u8, 118, 101, 110] {
        Ok(Parity::Even)
    } else if word == seq![111u8, 100, 100] {
        Ok(Parity::Odd)
    } else if word == seq![115u8, 101, 116] {
        Ok(Parity::Mark)
    } else if word == seq![99u8, 108, 101, 97, 114] {
        Ok(Parity::Clear)
    } else {
        Err(ParityParseError::InvalidInput)
    }
}

impl Parity {
    /// Reads the name of a parity.
    pub fn from_str(s: &str) -> (r: Result<Self, ParityParseError>)
        ensures
            r == parity_of(s.spec_bytes()),
    {
        let b: &[u8] = s.as_bytes();
        let none: [u8; 4] = [110, 111, 110, 101];
        let even: [u8; 4] = [101, 118, 101, 110];
        let odd: [u8; 3] = [111, 100, 100];
        let set: [u8; 3] = [115, 101, 116];
        let clear: [u8; 5] = [99, 108, 101, 97, 114];
        proof {
            assert(none@ =~= seq![110u8, 111, 110, 101]);
            assert(even@ =~= seq![101u8, 118, 101, 110]);
            assert(odd@ =~= seq![111u8, 100, 100]);
            assert(set@ =~= seq![115u8, 101, 116]);
            assert(clear@ =~= seq![99u8, 108, 101, 97, 114]);
        }
        if is_word(b, &none) {
            Ok(Parity::Off)
        } else if is_word(b, &even) {
            Ok(Parity::Even)
        } else if is_word(b, &odd) {
            Ok(Parity::Odd)
        } else if is_word(b, &set) {
            Ok(Parity::Mark)
        } else if is_word(b, &clear) {
            Ok(Parity::Clear)
        } else {
            Err(ParityParseError::InvalidInput)
        }
    }
}

/// Which of the two lines a monitor watches.
#[derive(Debug, Clone, Copy, PartialEq, Eq, Structural)]
pub enum Line {
    Rx,
    Tx,
}

impl Line {
    /// The event for a character on this line.
    pub open spec fn on_data(self, byte: u8) -> SerialEvent {
        match self {
            Line::Rx => SerialEvent::Rx(byte),
            Line::Tx => SerialEvent::Tx(byte),
        }
    }

    /// The event for an error on this line.
    pub open spec fn on_err(self, e: SerialError) -> SerialEvent {
        match self {
            Line::Rx => SerialEvent::RxError(e),
            Line::Tx => SerialEvent::TxError(e),
        }
    }

    /// The event for a change of the flow control line beside this line:
    /// request to send beside the receive line, clear to send beside the
    /// transmit line.
    pub open spec fn on_fc(self, level: bool) -> SerialEvent {
        match self {
            Line::Rx => SerialEvent::Rts(level),
            Line::Tx => SerialEvent::Cts(level),
        }
    }

    fn data_event(self, byte: u8) -> (r: SerialEvent)
        ensures
            r == self.on_data(byte),
    {
        match self {
            Line::Rx => SerialEvent::Rx(byte),
            Line::Tx => SerialEvent::Tx(byte),
        }
    }

    fn error_event(self, e: SerialError) -> (r: SerialEvent)
        ensures
            r == self.on_err(e),
    {
        match self {
            Line::Rx => SerialEvent::RxError(e),
            Line::Tx => SerialEvent::TxError(e),
        }
    }

    fn flow_event(self, level: bool) -> (r: SerialEvent)
        ensures
            r == self.on_fc(level),
    {
        match self {
            Line::Rx => SerialEvent::Rts(level),
            Line::Tx => SerialEvent::Cts(level),
        }
    }
}

/// Where a monitor stands within a character.
#[derive(Debug, PartialEq, Eq, Clone, Copy, Structural)]
pub enum MonitorState {
    Idle,
    Start,
    /// The bits read so far, at the top of the register, and how many they are.
    Data(u8, u32),
    Parity(u8),
    Stop(u8),
}

/// How many bits of `reg` are set.
pub open spec fn ones_in(reg: u8) -> int {
    (reg & 1) + ((reg >> 1) & 1) + ((reg >> 2) & 1) + ((reg >> 3) & 1) + ((reg >> 4) & 1) + ((reg
        >> 5) & 1) + ((reg >> 6) & 1) + ((reg >> 7) & 1)
}

/// Whether the parity bit `bit` is the one that the character `reg` has
/// under `parity`: with even parity the ones of character and parity bit are
/// an even number, with odd parity an odd one; a set parity bit is high and a
/// clear one low.
pub open spec fn parity_holds(parity: Parity, reg: u8, bit: bool) -> bool {
    let ones = ones_in(reg) + if bit {
        1int
    } else {
        0int
    };
    match parity {
        Parity::Even => ones % 2 == 0,
        Parity::Odd => ones % 2 == 1,
        Parity::Mark => bit,
        Parity::Clear => !bit,
        Parity::Off => true,
    }
}

/// One line with its flow control line: where it stands within a character,
/// the time up to which the line was followed, the level of the line since
/// the sample before, and the level of the flow control line.
#[derive(Debug, Clone, Copy, PartialEq, Eq, Structural)]
pub struct Monitor {
    pub state: MonitorState,
    pub ts: Timestamp,
    pub data: bool,
    pub last_fc: bool,
    pub bit_duration: i64,
    pub parity: Parity,
    pub line: Line,
}

/// An event of a serial line with its time.
pub type Timed = (Timestamp, SerialEvent);

/// The register after the bit `bit` came in at its top.
pub open spec fn shifted_in(reg: u8, bit: bool) -> u8 {
    if bit {
        (reg >> 1) | 0x80
    } else {
        reg >> 1
    }
}

impl Monitor {
    /// A bit takes time, and a character in progress has fewer than eight bits.
    pub open spec fn wf(self) -> bool {
        &&& self.bit_duration > 0
        &&& self.state matches MonitorState::Data(_, shift) ==> 1 <= shift < 8
    }

    /// The monitor after it followed the line up to the time `ts`, and the
    /// character or error that this gave, if any; `emitted` is what was given
    /// before.
    ///
    /// The level of the line since the sample before is what is read. A
    /// falling edge starts a character. The first data bit is read one and a
    /// half bit times after the edge and every further bit one bit time after
    /// the bit before it, as long as that lies before `ts`. A stop bit that
    /// is high gives the character, one that is low a framing error, and a
    /// parity bit that does not fit a parity error.
    pub open spec fn followed(self, ts: Timestamp, data: bool, emitted: Option<Timed>) -> (
        Monitor,
        Option<Timed>,
    )
        recommends
            self.wf(),
        decreases ts - self.ts,
    {
        let bit = self.bit_duration;
        if self.ts >= ts || bit <= 0 {
            (self, emitted)
        } else {
            match self.state {
                MonitorState::Idle => (
                    Monitor {
                        state: if !data {
                            MonitorState::Start
                        } else {
                            MonitorState::Idle
                        },
                        ts,
                        ..self
                    },
                    emitted,
                ),
                MonitorState::Start => if self.ts + bit + bit / 2 < ts {
                    (Monitor {
                        state: MonitorState::Data(shifted_in(0, self.data), 1),
                        ts: (self.ts + bit + bit / 2) as i64,
                        ..self
                    }).followed(ts, data, emitted)
                } else {
                    (self, emitted)
                },
                MonitorState::Data(reg, shift) => if self.ts + bit < ts {
                    let reg = shifted_in(reg, self.data);
                    (Monitor {
                        state: if shift + 1 >= 8 {
                            if self.parity != Parity::Off {
                                MonitorState::Parity(reg)
                            } else {
                                MonitorState::Stop(reg)
                            }
                        } else {
                            MonitorState::Data(reg, (shift + 1) as u32)
                        },
                        ts: (self.ts + bit) as i64,
                        ..self
                    }).followed(ts, data, emitted)
                } else {
                    (self, emitted)
                },
                MonitorState::Parity(reg) => if self.ts + bit < ts {
                    if parity_holds(self.parity, reg, self.data) {
                        (Monitor {
                            state: MonitorState::Stop(reg),
                            ts: (self.ts + bit) as i64,
                            ..self
                        }).followed(ts, data, emitted)
                    } else {
                        (Monitor {
                            state: MonitorState::Idle,
                            ts: (self.ts + bit) as i64,
                            ..self
                        }).followed(
                            ts,
                            data,
                            Some((self.ts, self.line.on_err(SerialError::Parity))),
                        )
                    }
                } else {
                    (self, emitted)
                },
                MonitorState::Stop(reg) => if self.ts + bit < ts {
                    (Monitor {
                        state: MonitorState::Idle,
                        ts: (self.ts + bit) as i64,
                        ..self
                    }).followed(
                        ts,
                        data,
                        Some(
                            (
                                self.ts,
                                if self.data {
                                    self.line.on_data(reg)
                                } else {
                                    self.line.on_err(SerialError::Framing)
                                },
                            ),
                        ),
                    )
                } else {
                    (self, emitted)
                },
            }
        }
    }

    /// The monitor after the sample at the time `ts`, with the line at
    /// `data` and the flow control line at `fc`, and the events that the
    /// sample gave: first the character or error, then the change of the flow
    /// control line.
    pub open spec fn updated(self, ts: Timestamp, data: bool, fc: bool) -> (Monitor, Seq<Timed>) {
        let (m, emitted) = (Monitor { last_fc: fc, ..self }).followed(ts, data, None);
        (
            Monitor { data, ..m },
            (match emitted {
                Some(e) => seq![e],
                None => Seq::empty(),
            }) + (if self.last_fc != fc {
                seq![(ts, self.line.on_fc(fc))]
            } else {
                Seq::empty()
            }),
        )
    }

    /// What is left to say at the end of a capture: a character whose stop
    /// bit was reached, or a framing error where a character was begun.
    pub open spec fn finalized(self) -> (Monitor, Option<Timed>) {
        (
            Monitor { state: MonitorState::Idle, ..self },
            match self.state {
                MonitorState::Idle => None,
                MonitorState::Stop(byte) => Some((self.ts, self.line.on_data(byte))),
                _ => Some((self.ts, self.line.on_err(SerialError::Framing))),
            },
        )
    }

    /// A monitor of a line at `baud` bits a second. It begins idle, a tenth
    /// of a second before the trigger, with the line high.
    pub fn new(baud: u32, parity: Parity, line: Line) -> (r: Self)
        requires
            baud > 0,
        ensures
            r.wf(),
            r == (Monitor {
                state: MonitorState::Idle,
                ts: (-100_000_000_000i64) as i64,
                data: true,
                last_fc: false,
                bit_duration: (PICOS_PER_SECOND / (baud as i64)) as i64,
                parity,
                line,
            }),
    {
        let b: i64 = baud as i64;
        assert(1_000_000_000_000i64 / b > 0) by (nonlinear_arith)
            requires
                0 < b <= 0xFFFF_FFFF,
        ;
        Monitor {
            state: MonitorState::Idle,
            ts: -100_000_000_000,
            data: true,
            last_fc: false,
            bit_duration: PICOS_PER_SECOND / (baud as i64),
            parity,
            line,
        }
    }

    /// Follows the line up to the sample at the time `ts` and takes the
    /// levels of the sample.
    pub fn update(&mut self, ts: Timestamp, data: bool, fc: bool) -> (r: [Option<Timed>; 2])
        requires
            old(self).wf(),
        ensures
            final(self).wf(),
            (*final(self), pair_events(r)) == old(self).updated(ts, data, fc),
    {
        let mut first: Option<Timed> = None;
        let mut second: Option<Timed> = None;
        if self.last_fc != fc {
            self.last_fc = fc;
            second = Some((ts, self.line.flow_event(fc)));
        }
        let ghost begun = *self;
        let bit: i128 = self.bit_duration as i128;
        let mut running: bool = true;
        while running && self.ts < ts
            invariant
                self.wf(),
                bit == self.bit_duration,
                running ==> self.followed(ts, data, first) == begun.followed(ts, data, None),
                !running ==> (*self, first) == begun.followed(ts, data, None),
            decreases
                    ts - self.ts + if running {
                        1int
                    } else {
                        0int
                    },
        {
            let now: i128 = self.ts as i128;
            match self.state {
                MonitorState::Idle => {
                    self.state = if !data {
                        MonitorState::Start
                    } else {
                        MonitorState::Idle
                    };
                    self.ts = ts;
                },
                MonitorState::Start => {
                    if now + bit + bit / 2 < ts as i128 {
                        self.state = MonitorState::Data(
                            if self.data {
                                0x80
                            } else {
                                0
                            },
                            1,
                        );
                        assert(shifted_in(0, true) == 0x80 && shifted_in(0, false) == 0) by {
                            assert((0u8 >> 1) | 0x80 == 0x80 && 0u8 >> 1 == 0) by (bit_vector);
                        }
                        self.ts = (now + bit + bit / 2) as i64;
                    } else {
                        running = false;
                    }
                },
                MonitorState::Data(reg, shift) => {
                    if now + bit < ts as i128 {
                        let mut reg: u8 = reg >> 1;
                        if self.data {
                            reg = reg | 0x80;
                        }
                        let shift: u32 = shift + 1;
                        self.state = if shift == 8 {
                            match self.parity {
                                Parity::Off => MonitorState::Stop(reg),
                                _ => MonitorState::Parity(reg),
                            }
                        } else {
                            MonitorState::Data(reg, shift)
                        };
                        self.ts = (now + bit) as i64;
                    } else {
                        running = false;
                    }
                },
                MonitorState::Parity(reg) => {
                    if now + bit < ts as i128 {
                        if parity_fits(self.parity, reg, self.data) {
                            self.state = MonitorState::Stop(reg);
                        } else {
                            first = Some((self.ts, self.line.error_event(SerialError::Parity)));
                            self.state = MonitorState::Idle;
                        }
                        self.ts = (now + bit) as i64;
                    } else {
                        running = false;
                    }
                },
                MonitorState::Stop(reg) => {
                    if now + bit < ts as i128 {
                        if !self.data {
                            first = Some((self.ts, self.line.error_event(SerialError::Framing)));
                        } else {
                            first = Some((self.ts, self.line.data_event(reg)));
                        }
                        self.state = MonitorState::Idle;
                        self.ts = (now + bit) as i64;
                    } else {
                        running = false;
                    }
                },
            }
        }
        self.data = data;
        [first, second]
    }

    /// Ends the character in progress, as at the end of a capture.
    pub fn finalize(&mut self) -> (r: Option<Timed>)
        ensures
            (*final(self), r) == old(self).finalized(),
    {
        let res = match self.state {
            MonitorState::Idle => None,
            MonitorState::Stop(byte) => Some((self.ts, self.line.data_event(byte))),
            _ => Some((self.ts, self.line.error_event(SerialError::Framing))),
        };
        self.state = MonitorState::Idle;
        res
    }
}

/// Tells whether the parity bit fits the character.
fn parity_fits(parity: Parity, reg: u8, bit: bool) -> (r: bool)
    ensures
        r == parity_holds(parity, reg, bit),
{
    assert((reg & 1) <= 1 && ((reg >> 1) & 1) <= 1 && ((reg >> 2) & 1) <= 1 && ((reg >> 3) & 1) <= 1
        && ((reg >> 4) & 1) <= 1 && ((reg >> 5) & 1) <= 1 && ((reg >> 6) & 1) <= 1 && ((reg >> 7)
        & 1) <= 1) by (bit_vector);
    let ones: u8 = (reg & 1) + ((reg >> 1) & 1) + ((reg >> 2) & 1) + ((reg >> 3) & 1) + ((reg >> 4)
        & 1) + ((reg >> 5) & 1) + ((reg >> 6) & 1) + ((reg >> 7) & 1) + if bit {
        1
    } else {
        0
    };
    match parity {
        Parity::Even => ones % 2 == 0,
        Parity::Odd => ones % 2 == 1,
        Parity::Mark => bit,
        Parity::Clear => !bit,
        Parity::Off => true,
    }
}

/// The events that an update gave, in the order in which it gave them.
pub open spec fn pair_events(r: [Option<Timed>; 2]) -> Seq<Timed> {
    (match r[0] {
        Some(e) => seq![e],
        None => Seq::empty(),
    }) + (match r[1] {
        Some(e) => seq![e],
        None => Seq::empty(),
    })
}

/// The sequence `sorted` with `e` put in before the first event that is
/// not earlier than `e`.
pub open spec fn insert_event(sorted: Seq<Timed>, e: Timed) -> Seq<Timed>
    decreases sorted.len(),
{
    if sorted.len() == 0 || e.0 <= sorted[0].0 {
        seq![e] + sorted
    } else {
        seq![sorted[0]] + insert_event(sorted.subrange(1, sorted.len() as int), e)
    }
}

/// The events of `events` in the order of time; of two events of the same
/// time, the one that stands later in `events` comes first.
pub open spec fn sort_events(events: Seq<Timed>) -> Seq<Timed>
    decreases events.len(),
{
    if events.len() == 0 {
        Seq::empty()
    } else {
        insert_event(sort_events(events.drop_last()), events.last())
    }
}

/// The times of `s` never decrease.
pub open spec fn timed_in_order(s: Seq<Timed>) -> bool {
    forall|i: int, j: int| 0 <= i <= j < s.len() ==> s[i].0 <= s[j].0
}

/// What is not later than an event and than every event of a sequence is
/// not later than any event of the sequence with the event put in.
pub proof fn lemma_insert_not_before(sorted: Seq<Timed>, e: Timed, t: Timestamp)
    requires
        t <= e.0,
        forall|i: int| 0 <= i < sorted.len() ==> t <= (#[trigger] sorted[i]).0,
    ensures
        forall|i: int|
            0 <= i < insert_event(sorted, e).len() ==> t <= (#[trigger] insert_event(
                sorted,
                e,
            )[i]).0,
    decreases sorted.len(),
{
    let out = insert_event(sorted, e);
    if sorted.len() == 0 || e.0 <= sorted[0].0 {
        assert forall|i: int| 0 <= i < out.len() implies t <= (#[trigger] out[i]).0 by {
            if i > 0 {
                assert(out[i] == sorted[i - 1]);
            }
        }
    } else {
        let tail = sorted.subrange(1, sorted.len() as int);
        assert forall|i: int| 0 <= i < tail.len() implies t <= (#[trigger] tail[i]).0 by {
            assert(tail[i] == sorted[i + 1]);
        }
        lemma_insert_not_before(tail, e, t);
        let inner = insert_event(tail, e);
        assert forall|i: int| 0 <= i < out.len() implies t <= (#[trigger] out[i]).0 by {
            if i > 0 {
                assert(out[i] == inner[i - 1]);
            } else {
                assert(out[0] == sorted[0]);
            }
        }
    }
}

/// Putting an event into an ordered sequence leaves it ordered, with the
/// same events and the new one.
pub proof fn lemma_insert_event(sorted: Seq<Timed>, e: Timed)
    requires
        timed_in_order(sorted),
    ensures
        timed_in_order(insert_event(sorted, e)),
        insert_event(sorted, e).to_multiset() == sorted.to_multiset().insert(e),
        insert_event(sorted, e).len() == sorted.len() + 1,
    decreases sorted.len(),
{
    broadcast use vstd::seq_lib::group_to_multiset_ensures;

    let out = insert_event(sorted, e);
    if sorted.len() == 0 || e.0 <= sorted[0].0 {
        assert(out =~= seq![e] + sorted);
        assert(out.drop_first() =~= sorted);
        assert(out.to_multiset() =~= sorted.to_multiset().insert(e)) by {
            vstd::seq_lib::to_multiset_insert(sorted, 0, e);
            assert(sorted.insert(0, e) =~= out);
        }
    } else {
        let tail = sorted.subrange(1, sorted.len() as int);
        assert forall|i: int, j: int| 0 <= i <= j < tail.len() implies tail[i].0 <= tail[j].0 by {
            assert(tail[i] == sorted[i + 1] && tail[j] == sorted[j + 1]);
        }
        lemma_insert_event(tail, e);
        let inner = insert_event(tail, e);
        assert(out =~= seq![sorted[0]] + inner);
        assert forall|i: int| 0 <= i < tail.len() implies sorted[0].0 <= (#[trigger] tail[i]).0 by {
            assert(tail[i] == sorted[i + 1]);
        }
        lemma_insert_not_before(tail, e, sorted[0].0);
        assert forall|i: int, j: int| 0 <= i <= j < out.len() implies out[i].0 <= out[j].0 by {
            if i > 0 {
                assert(out[i] == inner[i - 1] && out[j] == inner[j - 1]);
            } else if j > 0 {
                assert(out[j] == inner[j - 1]);
            }
        }
        assert(out.to_multiset() =~= sorted.to_multiset().insert(e)) by {
            vstd::seq_lib::to_multiset_insert(inner, 0, sorted[0]);
            assert(inner.insert(0, sorted[0]) =~= out);
            vstd::seq_lib::to_multiset_insert(tail, 0, sorted[0]);
            assert(tail.insert(0, sorted[0]) =~= sorted);
        }
    }
}

/// Sorting gives the same events in the order of time.
pub proof fn lemma_sort_events(events: Seq<Timed>)
    ensures
        timed_in_order(sort_events(events)),
        sort_events(events).to_multiset() == events.to_multiset(),
        sort_events(events).len() == events.len(),
    decreases events.len(),
{
    broadcast use vstd::seq_lib::group_to_multiset_ensures;

    if events.len() > 0 {
        lemma_sort_events(events.drop_last());
        lemma_insert_event(sort_events(events.drop_last()), events.last());
        assert(events.drop_last().push(events.last()) =~= events);
    } else {
        assert(events =~= Seq::<Timed>::empty());
    }
}

/// Puts an event into a queue that is in the order of time.
fn insert_sorted(queue: &mut VecDeque<Timed>, e: Timed)
    ensures
        final(queue)@ == insert_event(old(queue)@, e),
{
    let ghost q = queue@;
    let mut i: usize = 0;
    proof {
        assert(q.subrange(0, q.len() as int) =~= q);
        assert(q.subrange(0, 0) + insert_event(q, e) =~= insert_event(q, e));
    }
    while i < queue.len() && queue[i].0 < e.0
        invariant
            i <= q.len(),
            queue@ == q,
            insert_event(q, e) == q.subrange(0, i as int) + insert_event(
                q.subrange(i as int, q.len() as int),
                e,
            ),
        decreases q.len() - i,
    {
        proof {
            let here = q.subrange(i as int, q.len() as int);
            assert(here.subrange(1, here.len() as int) =~= q.subrange(i + 1, q.len() as int));
            assert(q.subrange(0, i + 1) + insert_event(q.subrange(i + 1, q.len() as int), e)
                =~= q.subrange(0, i as int) + (seq![here[0]] + insert_event(
                q.subrange(i + 1, q.len() as int),
                e,
            )));
        }
        i = i + 1;
    }
    proof {
        let here = q.subrange(i as int, q.len() as int);
        assert(q.insert(i as int, e) =~= q.subrange(0, i as int) + (seq![e] + here));
    }
    queue.insert(i, e);
}

/// Puts the events of one monitor into a queue that is in the order of time.
fn gather(queue: &mut VecDeque<Timed>, events: [Option<Timed>; 2], Ghost(done): Ghost<Seq<Timed>>)
    requires
        old(queue)@ == sort_events(done),
    ensures
        final(queue)@ == sort_events(done + pair_events(events)),
{
    let ghost mut so_far: Seq<Timed> = done;
    if let Some(e) = events[0] {
        insert_sorted(queue, e);
        proof {
            assert(so_far.push(e).drop_last() =~= so_far);
            assert(so_far.push(e).last() == e);
            so_far = so_far.push(e);
            assert(queue@ == sort_events(so_far));
        }
    }
    if let Some(e) = events[1] {
        insert_sorted(queue, e);
        proof {
            assert(so_far.push(e).drop_last() =~= so_far);
            assert(so_far.push(e).last() == e);
            so_far = so_far.push(e);
            assert(queue@ == sort_events(so_far));
        }
    }
    proof {
        assert(so_far =~= done + pair_events(events));
    }
}

/// The channels of a serial port and the speed and parity of its lines.
#[derive(Debug, Clone, Copy, PartialEq, Eq)]
pub struct SerialConfig {
    pub tx: u8,
    pub rx: u8,
    pub rts: Option<u8>,
    pub cts: Option<u8>,
    pub baud: u32,
    pub parity: Parity,
}

/// The bits of the four lines in a sample; a flow control line that is not
/// wired has no bit.
#[derive(Debug, Clone, Copy, PartialEq, Eq, Structural)]
pub struct Wiring {
    pub rx_mask: u64,
    pub rts_mask: u64,
    pub tx_mask: u64,
    pub cts_mask: u64,
}

/// The bit of a line that may not be wired.
pub open spec fn optional_mask(channel: Option<u8>) -> u64 {
    match channel {
        Some(c) => 1u64 << c,
        None => 0,
    }
}

/// What is wrong with a configuration, if anything: the first channel, of
/// the transmit, receive, request-to-send and clear-to-send line in this
/// order, that is not below 64, or a speed of zero.
pub open spec fn config_error(config: SerialConfig) -> Option<ConfigError> {
    if config.tx >= 64 {
        Some(ConfigError::InvalidChannel(config.tx))
    } else if config.rx >= 64 {
        Some(ConfigError::InvalidChannel(config.rx))
    } else if config.rts is Some && config.rts.unwrap() >= 64 {
        Some(ConfigError::InvalidChannel(config.rts.unwrap()))
    } else if config.cts is Some && config.cts.unwrap() >= 64 {
        Some(ConfigError::InvalidChannel(config.cts.unwrap()))
    } else if config.baud == 0 {
        Some(ConfigError::InvalidBaud)
    } else {
        None
    }
}

/// The events of the two monitors for one sample, in the order of time.
pub open spec fn sample_events(rx: Monitor, tx: Monitor, wiring: Wiring, ts: Timestamp, s: Sample)
    -> (Monitor, Monitor, Seq<Timed>) {
    let (rx_after, rx_events) = rx.updated(
        ts,
        s.spec_all_high(wiring.rx_mask),
        s.spec_all_high(wiring.rts_mask),
    );
    let (tx_after, tx_events) = tx.updated(
        ts,
        s.spec_all_high(wiring.tx_mask),
        s.spec_all_high(wiring.cts_mask),
    );
    (rx_after, tx_after, sort_events(rx_events + tx_events))
}

/// What one call of `next` hands out, and what it leaves behind: the two
/// monitors, the events waiting to be handed out, and the input left.
///
/// An event that waits comes out first. Otherwise samples are read until
/// one of them gives an event; a diagnostic from upstream comes out unchanged.
pub open spec fn next_serial(
    rx: Monitor,
    tx: Monitor,
    wiring: Wiring,
    queue: Seq<Timed>,
    input: Seq<Event<Sample>>,
) -> (Option<Event<SerialEvent>>, Monitor, Monitor, Seq<Timed>, Seq<Event<Sample>>)
    decreases input.len(), queue.len(),
{
    if queue.len() > 0 {
        (
            Some((queue[0].0, Ok(queue[0].1))),
            rx,
            tx,
            queue.subrange(1, queue.len() as int),
            input,
        )
    } else if input.len() == 0 {
        (None, rx, tx, queue, input)
    } else {
        let rest = input.subrange(1, input.len() as int);
        let ts = input[0].0;
        match input[0].1 {
            Err(e) => (Some((ts, Err(e))), rx, tx, queue, rest),
            Ok(s) => {
                let (rx_after, tx_after, events) = sample_events(rx, tx, wiring, ts, s);
                next_serial(rx_after, tx_after, wiring, events, rest)
            },
        }
    }
}

/// The serial stage: it owns the samples still to be read.
pub struct Serial {
    it: VecDeque<Event<Sample>>,
    pending_event: VecDeque<Timed>,
    wiring: Wiring,
    rx: Monitor,
    tx: Monitor,
}

impl Serial {
    /// Both monitors are well formed.
    pub closed spec fn wf(&self) -> bool {
        self.rx.wf() && self.tx.wf()
    }

    /// The samples that no call of `next` has read yet.
    pub closed spec fn pending(&self) -> Seq<Event<Sample>> {
        self.it@
    }

    /// The events that wait to be handed out.
    pub closed spec fn waiting(&self) -> Seq<Timed> {
        self.pending_event@
    }

    /// The monitor of the receive line.
    pub closed spec fn rx_monitor(&self) -> Monitor {
        self.rx
    }

    /// The monitor of the transmit line.
    pub closed spec fn tx_monitor(&self) -> Monitor {
        self.tx
    }

    /// The bits of the lines in a sample.
    pub closed spec fn wires(&self) -> Wiring {
        self.wiring
    }

    /// Sets the stage up for a port with the lines on the channels, and at
    /// the speed and parity, that `config` says. Every channel is below 64,
    /// and the speed is not zero.
    pub fn new(input: VecDeque<Event<Sample>>, config: SerialConfig) -> (r: Result<
        Serial,
        ConfigError,
    >)
        ensures
            match config_error(config) {
                Some(e) => r.err() == Some(e),
                None => {
                    &&& r is Ok
                    &&& r.unwrap().wf()
                    &&& r.unwrap().pending() == input@
                    &&& r.unwrap().waiting() == Seq::<Timed>::empty()
                    &&& r.unwrap().wires() == wiring_of(config)
                    &&& r.unwrap().rx_monitor() == fresh_monitor(config, Line::Rx)
                    &&& r.unwrap().tx_monitor() == fresh_monitor(config, Line::Tx)
                },
            },
    {
        if let Some(e) = check_config(config) {
            return Err(e);
        }
        let rts_mask: u64 = match config.rts {
            Some(val) => 1u64 << val,
            None => 0,
        };
        let cts_mask: u64 = match config.cts {
            Some(val) => 1u64 << val,
            None => 0,
        };
        Ok(
            Self {
                it: input,
                pending_event: VecDeque::new(),
                wiring: Wiring {
                    rx_mask: 1u64 << config.rx,
                    rts_mask,
                    tx_mask: 1u64 << config.tx,
                    cts_mask,
                },
                rx: Monitor::new(config.baud, config.parity, Line::Rx),
                tx: Monitor::new(config.baud, config.parity, Line::Tx),
            },
        )
    }

    /// Reads samples until one of them gives an event and hands that out;
    /// events that a sample gave beyond the first wait, in the order of time,
    /// for the calls after. `None` once the input is used up.
    pub fn next(&mut self) -> (r: Option<Event<SerialEvent>>)
        requires
            old(self).wf(),
        ensures
            final(self).wf(),
            final(self).wires() == old(self).wires(),
            (
                r,
                final(self).rx_monitor(),
                final(self).tx_monitor(),
                final(self).waiting(),
                final(self).pending(),
            ) == next_serial(
                old(self).rx_monitor(),
                old(self).tx_monitor(),
                old(self).wires(),
                old(self).waiting(),
                old(self).pending(),
            ),
    {
        loop
            invariant
                self.wf(),
                self.wiring == old(self).wiring,
                next_serial(self.rx, self.tx, self.wiring, self.pending_event@, self.it@)
                    == next_serial(
                    old(self).rx,
                    old(self).tx,
                    old(self).wiring,
                    old(self).pending_event@,
                    old(self).it@,
                ),
            decreases self.it@.len(), self.pending_event@.len(),
        {
            if let Some((ts, ev)) = self.pending_event.pop_front() {
                return Some((ts, Ok(ev)));
            }
            let (ts, smp) = match self.it.pop_front() {
                None => {
                    return None;
                },
                Some((ts, Err(e))) => {
                    return Some((ts, Err(e)));
                },
                Some((ts, Ok(smp))) => (ts, smp),
            };
            let ghost before_rx = self.rx;
            let ghost before_tx = self.tx;
            let rx_events = self.rx.update(
                ts,
                smp.all_high(self.wiring.rx_mask),
                smp.all_high(self.wiring.rts_mask),
            );
            let tx_events = self.tx.update(
                ts,
                smp.all_high(self.wiring.tx_mask),
                smp.all_high(self.wiring.cts_mask),
            );
            let mut queue: VecDeque<Timed> = VecDeque::new();
            proof {
                assert(queue@ =~= sort_events(Seq::<Timed>::empty()));
                assert(Seq::<Timed>::empty() + pair_events(rx_events) =~= pair_events(rx_events));
            }
            gather(&mut queue, rx_events, Ghost(Seq::empty()));
            gather(&mut queue, tx_events, Ghost(pair_events(rx_events)));
            self.pending_event = queue;
        }
    }
}

/// The events that one sample gives are handed out in the order of time:
/// they are the events of the two monitors, every one of them once, sorted.
pub proof fn lemma_sample_events_in_order(
    rx: Monitor,
    tx: Monitor,
    wiring: Wiring,
    ts: Timestamp,
    s: Sample,
)
    ensures
        ({
            let events = sample_events(rx, tx, wiring, ts, s).2;
            let rx_events = rx.updated(
                ts,
                s.spec_all_high(wiring.rx_mask),
                s.spec_all_high(wiring.rts_mask),
            ).1;
            let tx_events = tx.updated(
                ts,
                s.spec_all_high(wiring.tx_mask),
                s.spec_all_high(wiring.cts_mask),
            ).1;
            &&& timed_in_order(events)
            &&& events.to_multiset() == (rx_events + tx_events).to_multiset()
        }),
{
    let rx_events = rx.updated(
        ts,
        s.spec_all_high(wiring.rx_mask),
        s.spec_all_high(wiring.rts_mask),
    ).1;
    let tx_events = tx.updated(
        ts,
        s.spec_all_high(wiring.tx_mask),
        s.spec_all_high(wiring.cts_mask),
    ).1;
    lemma_sort_events(rx_events + tx_events);
}

/// A call of `next` that hands out an event has read a sample or taken one
/// of the events that waited.
pub proof fn lemma_next_serial_progress(
    rx: Monitor,
    tx: Monitor,
    wiring: Wiring,
    queue: Seq<Timed>,
    input: Seq<Event<Sample>>,
)
    ensures
        ({
            let r = next_serial(rx, tx, wiring, queue, input);
            &&& r.4.len() <= input.len()
            &&& r.0 is Some ==> r.4.len() < input.len() || (r.4.len() == input.len() && r.3.len()
                < queue.len())
            &&& r.0 is None ==> r.4.len() == 0 && r.3.len() == 0
        }),
    decreases input.len(), queue.len(),
{
    if queue.len() == 0 && input.len() > 0 {
        let rest = input.subrange(1, input.len() as int);
        if let Ok(s) = input[0].1 {
            let (rx_after, tx_after, events) = sample_events(rx, tx, wiring, input[0].0, s);
            lemma_next_serial_progress(rx_after, tx_after, wiring, events, rest);
        }
    }
}

/// All the events that the stage hands out from here on.
pub open spec fn all_serial(
    rx: Monitor,
    tx: Monitor,
    wiring: Wiring,
    queue: Seq<Timed>,
    input: Seq<Event<Sample>>,
) -> Seq<Event<SerialEvent>>
    decreases input.len(), queue.len(),
{
    let r = next_serial(rx, tx, wiring, queue, input);
    match r.0 {
        Some(e) => if r.4.len() < input.len() || (r.4.len() == input.len() && r.3.len()
            < queue.len()) {
            seq![e] + all_serial(r.1, r.2, wiring, r.3, r.4)
        } else {
            seq![e]
        },
        None => Seq::empty(),
    }
}

impl EventIterator for Serial {
    type Item = SerialEvent;

    open spec fn ready(&self) -> bool {
        self.wf()
    }

    open spec fn upcoming(&self) -> Seq<Event<SerialEvent>> {
        all_serial(
            self.rx_monitor(),
            self.tx_monitor(),
            self.wires(),
            self.waiting(),
            self.pending(),
        )
    }

    fn next(&mut self) -> (r: Option<Event<SerialEvent>>) {
        proof {
            lemma_next_serial_progress(
                self.rx_monitor(),
                self.tx_monitor(),
                self.wires(),
                self.waiting(),
                self.pending(),
            );
        }
        let r = Serial::next(self);
        proof {
            let before = old(self).upcoming();
            if r is Some {
                assert(before.subrange(1, before.len() as int) =~= self.upcoming());
            }
        }
        r
    }

    fn event_type(&self) -> (r: EventType)
        ensures
            r == EventType::SerialEvent,
    {
        EventType::SerialEvent
    }

    fn event_type_name(&self) -> (r: &'static str)
        ensures
            r@ == "serial::SerialEvent"@,
    {
        "serial::SerialEvent"
    }
}

/// The monitor of a line as the stage begins with it.
pub open spec fn fresh_monitor(config: SerialConfig, line: Line) -> Monitor {
    Monitor {
        state: MonitorState::Idle,
        ts: (-100_000_000_000i64) as i64,
        data: true,
        last_fc: false,
        bit_duration: (PICOS_PER_SECOND / (config.baud as i64)) as i64,
        parity: config.parity,
        line,
    }
}

/// The bits of the lines that a configuration names.
pub open spec fn wiring_of(config: SerialConfig) -> Wiring {
    Wiring {
        rx_mask: 1u64 << config.rx,
        rts_mask: optional_mask(config.rts),
        tx_mask: 1u64 << config.tx,
        cts_mask: optional_mask(config.cts),
    }
}

/// What the serial stage makes of the stream at the top of a pipeline: the
/// serial events of its samples, where it holds samples and the configuration
/// is sound.
pub open spec fn serial_output(top: StreamView, config: SerialConfig) -> Result<StreamView, PipelineError> {
    match top {
        StreamView::Sample(events) => match config_error(config) {
            Some(e) => Err(PipelineError::Config(e)),
            None => Ok(StreamView::SerialEvent(all_serial(
                fresh_monitor(config, Line::Rx),
                fresh_monitor(config, Line::Tx),
                wiring_of(config),
                Seq::empty(),
                events,
            ))),
        },
        other => Err(
            PipelineError::TypeMismatch {
                stage: StageKind::Serial,
                expected: EventType::Sample,
                actual: kind_of(other),
            },
        ),
    }
}

/// Puts the serial stage onto a pipeline: the stage takes the place of the
/// stream of samples at the top.
pub fn build(pipeline: &mut Vec<Stream>, config: SerialConfig) -> (r: Result<(), PipelineError>)
    ensures
        build_result(
            old(pipeline)@,
            final(pipeline)@,
            r,
            replaced(
                views(old(pipeline)@),
                StageKind::Serial,
                serial_output(views(old(pipeline)@).last(), config),
            ),
        ),
{
    if pipeline.len() == 0 {
        return Err(PipelineError::MissingSource(StageKind::Serial));
    }
    let ghost before = views(pipeline@);
    let top = pop_top(pipeline);
    proof {
        assert(views(pipeline@) =~= before.drop_last());
        assert(before.drop_last().push(top@) =~= before);
    }
    match top {
        Stream::Sample(events) => {
            if let Some(e) = check_config(config) {
                push_top(pipeline, Stream::Sample(events));
                return Err(PipelineError::Config(e));
            }
            let stage = match Serial::new(events, config) {
                Ok(stage) => stage,
                Err(e) => {
                    return Err(PipelineError::Config(e));
                },
            };
            let mut stage = stage;
            let out = drain(&mut stage);
            proof {
                assert(stream_view(out@) =~= out@);
            }
            push_top(pipeline, Stream::SerialEvent(out));
            Ok(())
        },
        other => {
            let actual = other.event_type();
            push_top(pipeline, other);
            Err(
                PipelineError::TypeMismatch {
                    stage: StageKind::Serial,
                    expected: EventType::Sample,
                    actual,
                },
            )
        },
    }
}

/// Tells what is wrong with a configuration, if anything.
pub fn check_config(config: SerialConfig) -> (r: Option<ConfigError>)
    ensures
        r == config_error(config),
{
    if config.tx >= 64 {
        return Some(ConfigError::InvalidChannel(config.tx));
    }
    if config.rx >= 64 {
        return Some(ConfigError::InvalidChannel(config.rx));
    }
    if let Some(val) = config.rts {
        if val >= 64 {
            return Some(ConfigError::InvalidChannel(val));
        }
    }
    if let Some(val) = config.cts {
        if val >= 64 {
            return Some(ConfigError::InvalidChannel(val));
        }
    }
    if config.baud == 0 {
        return Some(ConfigError::InvalidBaud);
    }
    None
}

/// The clock of a monitor never goes back, and what following a line gives
/// lies between where the clock stood and where it stands after.
pub proof fn lemma_followed_bounds(m: Monitor, ts: Timestamp, data: bool, emitted: Option<Timed>)
    requires
        m.wf(),
    ensures
        ({
            let (after, out) = m.followed(ts, data, emitted);
            &&& after.wf()
            &&& m.ts <= after.ts
            &&& m.ts < ts ==> after.ts <= ts
            &&& m.ts >= ts ==> after == m && out == emitted
            &&& out != emitted ==> out is Some && m.ts <= out.unwrap().0 <= after.ts
        }),
    decreases ts - m.ts,
{
    let bit = m.bit_duration;
    if m.ts < ts {
        match m.state {
            MonitorState::Idle => {},
            MonitorState::Start => {
                if m.ts + bit + bit / 2 < ts {
                    let next = Monitor {
                        state: MonitorState::Data(shifted_in(0, m.data), 1),
                        ts: (m.ts + bit + bit / 2) as i64,
                        ..m
                    };
                    lemma_followed_bounds(next, ts, data, emitted);
                }
            },
            MonitorState::Data(reg, shift) => {
                if m.ts + bit < ts {
                    let reg = shifted_in(reg, m.data);
                    let next = Monitor {
                        state: if shift + 1 >= 8 {
                            if m.parity != Parity::Off {
                                MonitorState::Parity(reg)
                            } else {
                                MonitorState::Stop(reg)
                            }
                        } else {
                            MonitorState::Data(reg, (shift + 1) as u32)
                        },
                        ts: (m.ts + bit) as i64,
                        ..m
                    };
                    lemma_followed_bounds(next, ts, data, emitted);
                }
            },
            MonitorState::Parity(reg) => {
                if m.ts + bit < ts {
                    if parity_holds(m.parity, reg, m.data) {
                        let next = Monitor {
                            state: MonitorState::Stop(reg),
                            ts: (m.ts + bit) as i64,
                            ..m
                        };
                        lemma_followed_bounds(next, ts, data, emitted);
                    } else {
                        let next = Monitor {
                            state: MonitorState::Idle,
                            ts: (m.ts + bit) as i64,
                            ..m
                        };
                        lemma_followed_bounds(
                            next,
                            ts,
                            data,
                            Some((m.ts, m.line.on_err(SerialError::Parity))),
                        );
                    }
                }
            },
            MonitorState::Stop(reg) => {
                if m.ts + bit < ts {
                    let next = Monitor {
                        state: MonitorState::Idle,
                        ts: (m.ts + bit) as i64,
                        ..m
                    };
                    lemma_followed_bounds(
                        next,
                        ts,
                        data,
                        Some(
                            (
                                m.ts,
                                if m.data {
                                    m.line.on_data(reg)
                                } else {
                                    m.line.on_err(SerialError::Framing)
                                },
                            ),
                        ),
                    );
                }
            },
        }
    }
}

/// The characters and errors of one line come out in the order of time:
/// what following the line up to one sample gives is not later than what
/// following it further, up to a later sample, gives.
pub proof fn lemma_line_in_order(m: Monitor, first: Timestamp, second: Timestamp, a: bool, b: bool)
    requires
        m.wf(),
    ensures
        ({
            let (after, one) = m.followed(first, a, None);
            let (_, two) = (Monitor { data: a, ..after }).followed(second, b, None);
            one is Some && two is Some ==> one.unwrap().0 <= two.unwrap().0
        }),
{
    lemma_followed_bounds(m, first, a, None);
    let after = m.followed(first, a, None).0;
    lemma_followed_bounds(Monitor { data: a, ..after }, second, b, None);
}

/// The earliest time that the next character or error of a line can carry:
/// the time at which the line reaches its parity or stop bit. An idle line
/// has none.
pub open spec fn earliest_stamp(m: Monitor) -> Option<int> {
    match m.state {
        MonitorState::Idle => None,
        MonitorState::Start => Some(m.ts + m.bit_duration + m.bit_duration / 2 + 7 * m.bit_duration),
        MonitorState::Data(_, shift) => Some(m.ts + (8 - shift) * m.bit_duration),
        MonitorState::Parity(_) => Some(m.ts as int),
        MonitorState::Stop(_) => Some(m.ts as int),
    }
}

/// The next character or error of the line cannot be earlier than `floor`.
pub open spec fn not_behind(m: Monitor, floor: int) -> bool {
    earliest_stamp(m) matches Some(e) ==> floor <= e
}

/// A line that is not behind a floor stays so while it is followed, and
/// gives nothing that is earlier than the floor.
pub proof fn lemma_followed_floor(
    m: Monitor,
    ts: Timestamp,
    data: bool,
    emitted: Option<Timed>,
    floor: int,
)
    requires
        m.wf(),
        not_behind(m, floor),
        floor <= ts,
        emitted matches Some(e) ==> floor <= e.0,
    ensures
        ({
            let (after, out) = m.followed(ts, data, emitted);
            &&& not_behind(after, floor)
            &&& out matches Some(e) ==> floor <= e.0
        }),
    decreases ts - m.ts,
{
    let bit = m.bit_duration;
    if m.ts < ts {
        match m.state {
            MonitorState::Idle => {},
            MonitorState::Start => {
                if m.ts + bit + bit / 2 < ts {
                    let next = Monitor {
                        state: MonitorState::Data(shifted_in(0, m.data), 1),
                        ts: (m.ts + bit + bit / 2) as i64,
                        ..m
                    };
                    lemma_followed_floor(next, ts, data, emitted, floor);
                }
            },
            MonitorState::Data(reg, shift) => {
                if m.ts + bit < ts {
                    let reg = shifted_in(reg, m.data);
                    let next = Monitor {
                        state: if shift + 1 >= 8 {
                            if m.parity != Parity::Off {
                                MonitorState::Parity(reg)
                            } else {
                                MonitorState::Stop(reg)
                            }
                        } else {
                            MonitorState::Data(reg, (shift + 1) as u32)
                        },
                        ts: (m.ts + bit) as i64,
                        ..m
                    };
                    assert((8 - shift) * bit == (8 - (shift + 1)) * bit + bit) by (nonlinear_arith);
                    assert((8 - shift) * bit >= bit) by (nonlinear_arith)
                        requires
                            shift < 8,
                            bit > 0,
                    ;
                    lemma_followed_floor(next, ts, data, emitted, floor);
                }
            },
            MonitorState::Parity(reg) => {
                if m.ts + bit < ts {
                    if parity_holds(m.parity, reg, m.data) {
                        let next = Monitor {
                            state: MonitorState::Stop(reg),
                            ts: (m.ts + bit) as i64,
                            ..m
                        };
                        lemma_followed_floor(next, ts, data, emitted, floor);
                    } else {
                        let next = Monitor {
                            state: MonitorState::Idle,
                            ts: (m.ts + bit) as i64,
                            ..m
                        };
                        lemma_followed_floor(
                            next,
                            ts,
                            data,
                            Some((m.ts, m.line.on_err(SerialError::Parity))),
                            floor,
                        );
                    }
                }
            },
            MonitorState::Stop(reg) => {
                if m.ts + bit < ts {
                    let next = Monitor {
                        state: MonitorState::Idle,
                        ts: (m.ts + bit) as i64,
                        ..m
                    };
                    lemma_followed_floor(
                        next,
                        ts,
                        data,
                        Some(
                            (
                                m.ts,
                                if m.data {
                                    m.line.on_data(reg)
                                } else {
                                    m.line.on_err(SerialError::Framing)
                                },
                            ),
                        ),
                        floor,
                    );
                }
            },
        }
    }
}

/// What a sample gives on one line lies between a floor that the line is
/// not behind and the time of the sample, and leaves the line not behind the floor.
pub proof fn lemma_updated_bounds(m: Monitor, ts: Timestamp, data: bool, fc: bool, floor: int)
    requires
        m.wf(),
        not_behind(m, floor),
        floor <= ts,
    ensures
        ({
            let (after, events) = m.updated(ts, data, fc);
            &&& after.wf()
            &&& not_behind(after, floor)
            &&& forall|i: int| 0 <= i < events.len() ==> floor <= (#[trigger] events[i]).0 <= ts
        }),
{
    let begun = Monitor { last_fc: fc, ..m };
    lemma_followed_floor(begun, ts, data, None, floor);
    lemma_followed_bounds(begun, ts, data, None);
}

/// What stands in a sorted sequence stands in the sequence that was sorted.
pub proof fn lemma_sorted_member(events: Seq<Timed>, i: int)
    requires
        0 <= i < sort_events(events).len(),
    ensures
        events.contains(sort_events(events)[i]),
{
    lemma_sort_events(events);
    let sorted = sort_events(events);
    vstd::seq_lib::to_multiset_contains(sorted, sorted[i]);
    vstd::seq_lib::to_multiset_contains(events, sorted[i]);
    assert(sorted.contains(sorted[i]));
}

/// What a sample gives lies between a floor that neither line is behind
/// and the time of the sample, comes in the order of time, and leaves both
/// lines not behind the floor.
pub proof fn lemma_sample_events_bounds(
    rx: Monitor,
    tx: Monitor,
    wiring: Wiring,
    ts: Timestamp,
    s: Sample,
    floor: int,
)
    requires
        rx.wf(),
        tx.wf(),
        not_behind(rx, floor),
        not_behind(tx, floor),
        floor <= ts,
    ensures
        ({
            let (rx_after, tx_after, events) = sample_events(rx, tx, wiring, ts, s);
            &&& rx_after.wf() && tx_after.wf()
            &&& not_behind(rx_after, floor) && not_behind(tx_after, floor)
            &&& timed_in_order(events)
            &&& forall|i: int| 0 <= i < events.len() ==> floor <= (#[trigger] events[i]).0 <= ts
        }),
{
    let rx_data = s.spec_all_high(wiring.rx_mask);
    let rx_fc = s.spec_all_high(wiring.rts_mask);
    let tx_data = s.spec_all_high(wiring.tx_mask);
    let tx_fc = s.spec_all_high(wiring.cts_mask);
    lemma_updated_bounds(rx, ts, rx_data, rx_fc, floor);
    lemma_updated_bounds(tx, ts, tx_data, tx_fc, floor);
    let rx_events = rx.updated(ts, rx_data, rx_fc).1;
    let tx_events = tx.updated(ts, tx_data, tx_fc).1;
    let all = rx_events + tx_events;
    let events = sort_events(all);
    lemma_sort_events(all);
    assert forall|i: int| 0 <= i < events.len() implies floor <= (#[trigger] events[i]).0 <= ts by {
        lemma_sorted_member(all, i);
        let j = choose|j: int| 0 <= j < all.len() && all[j] == events[i];
        if j < rx_events.len() {
            assert(all[j] == rx_events[j]);
        } else {
            assert(all[j] == tx_events[j - rx_events.len()]);
        }
    }
}

/// Nothing that the stage hands out is earlier than a floor that neither
/// line is behind and that neither the events that wait nor the samples to
/// come lie before.
pub proof fn lemma_next_serial_floor(
    rx: Monitor,
    tx: Monitor,
    wiring: Wiring,
    queue: Seq<Timed>,
    input: Seq<Event<Sample>>,
    floor: int,
)
    requires
        rx.wf(),
        tx.wf(),
        not_behind(rx, floor),
        not_behind(tx, floor),
        forall|i: int| 0 <= i < queue.len() ==> floor <= (#[trigger] queue[i]).0,
        forall|i: int| 0 <= i < input.len() ==> floor <= (#[trigger] input[i]).0,
    ensures
        next_serial(rx, tx, wiring, queue, input).0 matches Some(e) ==> floor <= e.0,
    decreases input.len(), queue.len(),
{
    if queue.len() == 0 && input.len() > 0 {
        let rest = input.subrange(1, input.len() as int);
        assert forall|i: int| 0 <= i < rest.len() implies floor <= (#[trigger] rest[i]).0 by {
            assert(rest[i] == input[i + 1]);
        }
        if let Ok(s) = input[0].1 {
            lemma_sample_events_bounds(rx, tx, wiring, input[0].0, s, floor);
            let (rx_after, tx_after, events) = sample_events(rx, tx, wiring, input[0].0, s);
            lemma_next_serial_floor(rx_after, tx_after, wiring, events, rest, floor);
        }
    }
}

/// The stage stands so that the events that wait are in the order of time
/// and not later than the samples to come, which come in the order of time.
pub open spec fn steady(rx: Monitor, tx: Monitor, queue: Seq<Timed>, input: Seq<Event<Sample>>)
    -> bool {
    &&& rx.wf()
    &&& tx.wf()
    &&& ordered(input)
    &&& timed_in_order(queue)
    &&& input.len() > 0 ==> forall|i: int|
        0 <= i < queue.len() ==> (#[trigger] queue[i]).0 <= input[0].0
}

/// An event that the stage hands out leaves it steady, with the events that
/// wait and the samples to come not before the event.
pub proof fn lemma_next_serial_steady(
    rx: Monitor,
    tx: Monitor,
    wiring: Wiring,
    queue: Seq<Timed>,
    input: Seq<Event<Sample>>,
    floor: int,
)
    requires
        steady(rx, tx, queue, input),
        not_behind(rx, floor),
        not_behind(tx, floor),
        forall|i: int| 0 <= i < queue.len() ==> floor <= (#[trigger] queue[i]).0,
        forall|i: int| 0 <= i < input.len() ==> floor <= (#[trigger] input[i]).0,
    ensures
        ({
            let r = next_serial(rx, tx, wiring, queue, input);
            r.0 matches Some(e) ==> {
                &&& steady(r.1, r.2, r.3, r.4)
                &&& forall|i: int| 0 <= i < r.3.len() ==> e.0 <= (#[trigger] r.3[i]).0
                &&& forall|i: int| 0 <= i < r.4.len() ==> e.0 <= (#[trigger] r.4[i]).0
            }
        }),
    decreases input.len(), queue.len(),
{
    if queue.len() > 0 {
        let tail = queue.subrange(1, queue.len() as int);
        assert forall|i: int| 0 <= i < tail.len() implies queue[0].0 <= (#[trigger] tail[i]).0 by {
            assert(tail[i] == queue[i + 1]);
        }
        assert forall|i: int, j: int| 0 <= i <= j < tail.len() implies tail[i].0 <= tail[j].0 by {
            assert(tail[i] == queue[i + 1] && tail[j] == queue[j + 1]);
        }
        if input.len() > 0 {
            assert forall|i: int| 0 <= i < tail.len() implies (#[trigger] tail[i]).0
                <= input[0].0 by {
                assert(tail[i] == queue[i + 1]);
            }
        }
    } else if input.len() > 0 {
        let rest = input.subrange(1, input.len() as int);
        let ts = input[0].0;
        assert forall|i: int, j: int| 0 <= i <= j < rest.len() implies rest[i].0 <= rest[j].0 by {
            assert(rest[i] == input[i + 1] && rest[j] == input[j + 1]);
        }
        assert forall|i: int| 0 <= i < rest.len() implies ts <= (#[trigger] rest[i]).0 by {
            assert(rest[i] == input[i + 1]);
        }
        assert(floor <= input[0].0);
        if let Ok(s) = input[0].1 {
            lemma_sample_events_bounds(rx, tx, wiring, ts, s, floor);
            let (rx_after, tx_after, events) = sample_events(rx, tx, wiring, ts, s);
            assert forall|i: int| 0 <= i < rest.len() implies floor <= (#[trigger] rest[i]).0 by {
                assert(rest[i] == input[i + 1]);
            }
            lemma_next_serial_steady(rx_after, tx_after, wiring, events, rest, floor);
        }
    }
}

/// Serial events leave the stage in the order of time where no line lags in
/// its parity or stop bit behind an event that was handed out: where the
/// stage stands steady, and neither line is behind the first of two events
/// handed out one after the other, the second is not earlier than the first.
pub proof fn lemma_serial_in_order(
    rx: Monitor,
    tx: Monitor,
    wiring: Wiring,
    queue: Seq<Timed>,
    input: Seq<Event<Sample>>,
    floor: int,
)
    requires
        steady(rx, tx, queue, input),
        not_behind(rx, floor),
        not_behind(tx, floor),
        forall|i: int| 0 <= i < queue.len() ==> floor <= (#[trigger] queue[i]).0,
        forall|i: int| 0 <= i < input.len() ==> floor <= (#[trigger] input[i]).0,
        ({
            let first = next_serial(rx, tx, wiring, queue, input);
            first.0 matches Some(e) ==> not_behind(first.1, e.0 as int) && not_behind(
                first.2,
                e.0 as int,
            )
        }),
    ensures
        ({
            let first = next_serial(rx, tx, wiring, queue, input);
            let second = next_serial(first.1, first.2, wiring, first.3, first.4);
            first.0 is Some && second.0 is Some ==> first.0.unwrap().0 <= second.0.unwrap().0
        }),
{
    let first = next_serial(rx, tx, wiring, queue, input);
    lemma_next_serial_steady(rx, tx, wiring, queue, input, floor);
    if let Some(e) = first.0 {
        lemma_next_serial_floor(first.1, first.2, wiring, first.3, first.4, e.0 as int);
    }
}

} // verus!
