//! Value change dumps: the commands of a dump, read as samples.
//!
//! The text of the dump is read elsewhere; this stage takes its commands.
//! A wire is a channel, whose number its name gives after the first
//! underscore. Time runs in ticks of the timescale, and the first timestamp
//! of the dump lies a tenth of a second before the trigger.
use vstd::prelude::*;
use vstd::slice::slice_subrange;
use vstd::string::StringSliceAdditionalSpecFns;
use std::collections::HashMap;
use std::collections::VecDeque;
use crate::bytes::decimal;
use crate::bytes::find;
use crate::bytes::index_of;
use crate::bytes::parse_decimal;
use crate::error::DecodeError;
use crate::error::SourceError;
use crate::pipeline::drain;
use crate::pipeline::Event;
use crate::pipeline::EventIterator;
use crate::pipeline::EventType;
use crate::pipeline::push_top;
use crate::pipeline::Stream;
use crate::pipeline::stream_view;
use crate::pipeline::StreamView;
use crate::pipeline::views;
use crate::time::PICOS_PER_SECOND;
use crate::time::Timestamp;
use super::Sample;

verus! {

broadcast use vstd::std_specs::hash::group_hash_axioms;

/// How long before the trigger the first timestamp of a dump lies: 0.1 s.
pub const PRE_TRIGGER: i64 = 100_000_000_000;

#[derive(Debug, Clone, Copy, PartialEq, Eq, Structural)]
pub enum TimescaleUnit {
    S,
    MS,
    US,
    NS,
    PS,
    FS,
}

/// The value of a scalar: low, high, unknown or high impedance.
#[derive(Debug, Clone, Copy, PartialEq, Eq, Structural)]
pub enum Value {
    V0,
    V1,
    X,
    Z,
}

/// A command of a dump, as far as this stage looks at it.
#[derive(Debug, Clone, PartialEq, Eq)]
pub enum VcdCommand {
    /// The length of a tick: `n` units.
    Timescale(u32, TimescaleUnit),
    /// The declaration of a variable: whether it is a wire, its identifier and its name.
    VarDef { wire: bool, id: u64, name: String },
    /// The time of the changes that follow, in ticks.
    Timestamp(u64),
    /// A change of the variable with this identifier to this value.
    ChangeScalar(u64, Value),
    /// Any other command.
    Other,
}

/// How many picoseconds `n` units are: `n * scale.0 / scale.1`.
pub open spec fn scale_of(n: u32, unit: TimescaleUnit) -> (int, int) {
    match unit {
        TimescaleUnit::S => (n * 1_000_000_000_000, 1),
        TimescaleUnit::MS => (n * 1_000_000_000, 1),
        TimescaleUnit::US => (n * 1_000_000, 1),
        TimescaleUnit::NS => (n * 1_000, 1),
        TimescaleUnit::PS => (n as int, 1),
        TimescaleUnit::FS => (n as int, 1000),
    }
}

/// The channel that the name of a wire gives: the decimal number between
/// the first underscore of the name and the second, or the end of the name.
pub open spec fn channel_of_wire(name: Seq<u8>) -> Result<usize, SourceError> {
    let start = index_of(name, 95, 0);
    if start >= name.len() {
        Err(SourceError::InvalidVariableName)
    } else {
        let end = index_of(name, 95, start + 1);
        match decimal(name.subrange(start + 1, end), 0xFFFF_FFFF) {
            None => Err(SourceError::InvalidVariableName),
            Some(v) => if v >= 64 {
                Err(SourceError::InvalidChannel(v as u32))
            } else {
                Ok(v as usize)
            },
        }
    }
}

/// Reads the channel out of the name of a wire.
pub fn wire_channel(name: &str) -> (r: Result<usize, SourceError>)
    ensures
        r == channel_of_wire(name.spec_bytes()),
{
    let bytes: &[u8] = name.as_bytes();
    let start: usize = find(bytes, 95, 0);
    if start >= bytes.len() {
        return Err(SourceError::InvalidVariableName);
    }
    let end: usize = find(bytes, 95, start + 1);
    match parse_decimal(slice_subrange(bytes, start + 1, end), 0xFFFF_FFFF) {
        None => Err(SourceError::InvalidVariableName),
        Some(v) => if v >= 64 {
            Err(SourceError::InvalidChannel(v as u32))
        } else {
            Ok(v as usize)
        },
    }
}

/// Where the reader of a dump stands.
pub struct VcdState {
    /// How many picoseconds a tick is: `scale.0 / scale.1`.
    pub scale: (int, int),
    /// The first timestamp of the dump, in picoseconds, once it was seen.
    pub first_ts: Option<int>,
    /// The time of the changes that follow.
    pub current_ts: Timestamp,
    /// The channel of each wire, by the identifier of the wire.
    pub vars: Map<u64, usize>,
    /// The sample handed out last.
    pub state: u64,
    /// The dump has come to an error that ends it.
    pub stopped: bool,
}

/// The state of a reader that has read nothing yet: a tick is a second, and
/// time stands a tenth of a second before the trigger.
pub open spec fn fresh() -> VcdState {
    VcdState {
        scale: (PICOS_PER_SECOND as int, 1),
        first_ts: None,
        current_ts: (-PRE_TRIGGER) as i64,
        vars: Map::empty(),
        state: 0,
        stopped: false,
    }
}

/// A sample with the bit of the channel `shift` set to `high`.
pub open spec fn with_bit(state: u64, shift: usize, high: bool) -> u64 {
    (state & !(1u64 << shift)) | ((if high {
        1u64
    } else {
        0u64
    }) << shift)
}

/// A diagnostic at the current time that ends the dump.
pub open spec fn fatal(s: VcdState, e: SourceError) -> (VcdState, Option<Event<Sample>>) {
    (VcdState { stopped: true, ..s }, Some((s.current_ts, Err(DecodeError::Source(e)))))
}

/// What a timestamp of `ticks` ticks does.
///
/// The first timestamp of a dump is a tenth of a second before the trigger,
/// and every other timestamp as much later as it is later than the first. A
/// timestamp that goes back in time ends the dump, and so does one that is
/// too large to be counted.
pub open spec fn timestamp_step(s: VcdState, ticks: u64) -> (VcdState, Option<Event<Sample>>) {
    if ticks * s.scale.0 > u128::MAX {
        fatal(s, SourceError::InvalidTime)
    } else {
        let at = ticks * s.scale.0 / s.scale.1;
        let first = match s.first_ts {
            Some(f) => f,
            None => at,
        };
        let relative = at - first - PRE_TRIGGER;
        if relative < s.current_ts {
            fatal(VcdState { first_ts: Some(first), ..s }, SourceError::NonMonotonic)
        } else if relative > i64::MAX {
            fatal(VcdState { first_ts: Some(first), ..s }, SourceError::InvalidTime)
        } else {
            (VcdState { first_ts: Some(first), current_ts: relative as i64, ..s }, None)
        }
    }
}

/// What one command does to the reader: the state after it, and the sample
/// or diagnostic that it gives, if any.
///
/// A timescale sets the length of a tick. The declaration of a wire ties its
/// identifier to a channel; any other variable ends the dump. A change of a
/// wire to 0 or 1 gives a sample at the current time; another value ends the
/// dump. What the reader of the text could not read comes out as it is.
pub open spec fn vcd_step(s: VcdState, cmd: Result<VcdCommand, SourceError>) -> (
    VcdState,
    Option<Event<Sample>>,
) {
    match cmd {
        Err(e) => (s, Some((s.current_ts, Err(DecodeError::Source(e))))),
        Ok(VcdCommand::Timescale(n, unit)) => (VcdState { scale: scale_of(n, unit), ..s }, None),
        Ok(VcdCommand::Timestamp(ticks)) => timestamp_step(s, ticks),
        Ok(VcdCommand::ChangeScalar(id, v)) => if v != Value::V0 && v != Value::V1 {
            fatal(s, SourceError::UnsupportedValue)
        } else if !s.vars.contains_key(id) {
            (s, Some((s.current_ts, Err(DecodeError::Source(SourceError::UnknownVariable)))))
        } else {
            let state = with_bit(s.state, s.vars[id], v == Value::V1);
            (VcdState { state, ..s }, Some((s.current_ts, Ok(Sample(state)))))
        },
        Ok(VcdCommand::VarDef { wire, id, name }) => if !wire {
            fatal(s, SourceError::UnsupportedVarType)
        } else {
            match channel_of_wire(vstd::utf8::encode_utf8(name@)) {
                Ok(channel) => (VcdState { vars: s.vars.insert(id, channel), ..s }, None),
                Err(e) => fatal(s, e),
            }
        },
        Ok(VcdCommand::Other) => (s, None),
    }
}

/// What one call of `next` makes of the commands in `input`: the event
/// handed out, if any, the state reached, and the commands left for later
/// calls. A dump that was ended hands out nothing more.
pub open spec fn next_sample(s: VcdState, input: Seq<Result<VcdCommand, SourceError>>) -> (
    Option<Event<Sample>>,
    VcdState,
    Seq<Result<VcdCommand, SourceError>>,
)
    decreases input.len(),
{
    if s.stopped || input.len() == 0 {
        (None, s, input)
    } else {
        let rest = input.subrange(1, input.len() as int);
        let (after, out) = vcd_step(s, input[0]);
        match out {
            Some(event) => (Some(event), after, rest),
            None => next_sample(after, rest),
        }
    }
}

/// The source of a value change dump: it owns the commands still to be read.
pub struct VcdParser {
    input: VecDeque<Result<VcdCommand, SourceError>>,
    scale_mul: u128,
    scale_div: u128,
    first_ts: Option<u128>,
    current_ts: Timestamp,
    vars: HashMap<u64, usize>,
    state: u64,
    stopped: bool,
}

impl VcdParser {
    /// The scale is one that a timescale can say, the channels are such that
    /// a sample has a bit for them, and time has not gone back before the
    /// first timestamp.
    pub closed spec fn wf(&self) -> bool {
        &&& self.current_ts >= -PRE_TRIGGER
        &&& self.scale_mul <= 0xFFFF_FFFF * 1_000_000_000_000
        &&& (self.scale_div == 1 || self.scale_div == 1000)
        &&& forall|id: u64| #[trigger] self.vars@.contains_key(id) ==> self.vars@[id] < 64
    }

    /// The commands that no call of `next` has read yet.
    pub closed spec fn pending(&self) -> Seq<Result<VcdCommand, SourceError>> {
        self.input@
    }

    /// Where the reader stands.
    pub closed spec fn reader(&self) -> VcdState {
        VcdState {
            scale: (self.scale_mul as int, self.scale_div as int),
            first_ts: match self.first_ts {
                Some(f) => Some(f as int),
                None => None,
            },
            current_ts: self.current_ts,
            vars: self.vars@,
            state: self.state,
            stopped: self.stopped,
        }
    }

    pub fn new(input: VecDeque<Result<VcdCommand, SourceError>>) -> (r: Self)
        ensures
            r.wf(),
            r.pending() == input@,
            r.reader() == fresh(),
    {
        let r = Self {
            input,
            scale_mul: 1_000_000_000_000,
            scale_div: 1,
            first_ts: None,
            current_ts: -PRE_TRIGGER,
            vars: HashMap::new(),
            state: 0,
            stopped: false,
        };
        proof {
            assert(r.reader().vars =~= Map::<u64, usize>::empty());
        }
        r
    }

    /// Ends the dump with a diagnostic at the current time.
    fn stop(&mut self, e: SourceError) -> (r: Option<Event<Sample>>)
        requires
            old(self).wf(),
        ensures
            final(self).wf(),
            final(self).input@ == old(self).input@,
            (final(self).reader(), r) == fatal(old(self).reader(), e),
    {
        self.stopped = true;
        Some((self.current_ts, Err(DecodeError::Source(e))))
    }

    /// Takes a timestamp of `ticks` ticks.
    fn timestamp(&mut self, ticks: u64) -> (r: Option<Event<Sample>>)
        requires
            old(self).wf(),
        ensures
            final(self).wf(),
            final(self).input@ == old(self).input@,
            (final(self).reader(), r) == timestamp_step(old(self).reader(), ticks),
    {
        let product: u128 = match (ticks as u128).checked_mul(self.scale_mul) {
            Some(p) => p,
            None => {
                return self.stop(SourceError::InvalidTime);
            },
        };
        let at: u128 = product / self.scale_div;
        let first: u128 = match self.first_ts {
            Some(f) => f,
            None => at,
        };
        self.first_ts = Some(first);
        if at < first {
            return self.stop(SourceError::NonMonotonic);
        }
        let elapsed: u128 = at - first;
        if (self.current_ts as i128) + (PRE_TRIGGER as i128) > 0 && elapsed < ((
        self.current_ts as i128) + (PRE_TRIGGER as i128)) as u128 {
            return self.stop(SourceError::NonMonotonic);
        }
        if elapsed > (i64::MAX as u128) + (PRE_TRIGGER as u128) {
            return self.stop(SourceError::InvalidTime);
        }
        self.current_ts = ((elapsed as i128) - (PRE_TRIGGER as i128)) as i64;
        None
    }

    /// Takes one command and hands back the sample or the diagnostic that
    /// it gives, if any.
    pub fn update(&mut self, cmd: Result<VcdCommand, SourceError>) -> (r: Option<Event<Sample>>)
        requires
            old(self).wf(),
        ensures
            final(self).wf(),
            final(self).pending() == old(self).pending(),
            (final(self).reader(), r) == vcd_step(old(self).reader(), cmd),
    {
        match cmd {
            Err(e) => Some((self.current_ts, Err(DecodeError::Source(e)))),
            Ok(VcdCommand::Timescale(n, unit)) => {
                let n: u128 = n as u128;
                match unit {
                    TimescaleUnit::S => {
                        self.scale_mul = n * 1_000_000_000_000;
                        self.scale_div = 1;
                    },
                    TimescaleUnit::MS => {
                        self.scale_mul = n * 1_000_000_000;
                        self.scale_div = 1;
                    },
                    TimescaleUnit::US => {
                        self.scale_mul = n * 1_000_000;
                        self.scale_div = 1;
                    },
                    TimescaleUnit::NS => {
                        self.scale_mul = n * 1_000;
                        self.scale_div = 1;
                    },
                    TimescaleUnit::PS => {
                        self.scale_mul = n;
                        self.scale_div = 1;
                    },
                    TimescaleUnit::FS => {
                        self.scale_mul = n;
                        self.scale_div = 1000;
                    },
                }
                None
            },
            Ok(VcdCommand::Timestamp(ticks)) => self.timestamp(ticks),
            Ok(VcdCommand::ChangeScalar(id, v)) => {
                let high: bool = match v {
                    Value::V0 => false,
                    Value::V1 => true,
                    _ => {
                        return self.stop(SourceError::UnsupportedValue);
                    },
                };
                let shift: usize = match self.vars.get(&id) {
                    Some(channel) => *channel,
                    None => {
                        return Some(
                            (
                                self.current_ts,
                                Err(DecodeError::Source(SourceError::UnknownVariable)),
                            ),
                        );
                    },
                };
                let level: u64 = if high {
                    1
                } else {
                    0
                };
                self.state = (self.state & !(1u64 << shift)) | (level << shift);
                Some((self.current_ts, Ok(Sample(self.state))))
            },
            Ok(VcdCommand::VarDef { wire, id, name }) => {
                if !wire {
                    return self.stop(SourceError::UnsupportedVarType);
                }
                match wire_channel(name.as_str()) {
                    Ok(channel) => {
                        self.vars.insert(id, channel);
                        None
                    },
                    Err(e) => self.stop(e),
                }
            },
            Ok(VcdCommand::Other) => None,
        }
    }

    /// Reads commands up to the next change of a wire, or the next
    /// diagnostic, and hands that out; `None` once the commands are used up
    /// or the dump was ended.
    pub fn next(&mut self) -> (r: Option<Event<Sample>>)
        requires
            old(self).wf(),
        ensures
            final(self).wf(),
            (r, final(self).reader(), final(self).pending()) == next_sample(
                old(self).reader(),
                old(self).pending(),
            ),
    {
        loop
            invariant
                self.wf(),
                next_sample(self.reader(), self.input@) == next_sample(
                    old(self).reader(),
                    old(self).input@,
                ),
            decreases self.input@.len(),
        {
            if self.stopped {
                return None;
            }
            let cmd = match self.input.pop_front() {
                None => {
                    return None;
                },
                Some(cmd) => cmd,
            };
            if let Some(event) = self.update(cmd) {
                return Some(event);
            }
        }
    }
}

/// Time does not go back within a dump: a call of `next` leaves the current
/// time where it was or later, and an event that it hands out carries the
/// current time that it leaves.
pub proof fn lemma_next_sample_time(s: VcdState, input: Seq<Result<VcdCommand, SourceError>>)
    ensures
        ({
            let (out, after, rest) = next_sample(s, input);
            &&& s.current_ts <= after.current_ts
            &&& out is Some ==> out.unwrap().0 == after.current_ts
            &&& out is Some ==> rest.len() < input.len()
            &&& out is None ==> after.stopped || rest.len() == 0
            &&& rest.len() <= input.len()
            &&& rest == input.subrange(input.len() - rest.len(), input.len() as int)
        }),
    decreases input.len(),
{
    if s.stopped || input.len() == 0 {
        assert(input == input.subrange(0, input.len() as int));
    } else {
        let rest = input.subrange(1, input.len() as int);
        let (after, out) = vcd_step(s, input[0]);
        assert(rest == input.subrange(input.len() - rest.len(), input.len() as int));
        if out is None {
            lemma_next_sample_time(after, rest);
            let r = next_sample(after, rest).2;
            assert(r == input.subrange(input.len() - r.len(), input.len() as int));
        }
    }
}

/// Samples leave the source in the order of time: two events handed out one
/// after the other carry timestamps that do not decrease.
pub proof fn lemma_samples_in_order(s: VcdState, input: Seq<Result<VcdCommand, SourceError>>)
    ensures
        ({
            let first = next_sample(s, input);
            let second = next_sample(first.1, first.2);
            first.0 is Some && second.0 is Some ==> first.0.unwrap().0 <= second.0.unwrap().0
        }),
{
    let first = next_sample(s, input);
    lemma_next_sample_time(s, input);
    lemma_next_sample_time(first.1, first.2);
}

/// How many of the commands are timestamps.
pub open spec fn timestamps_in(cmds: Seq<Result<VcdCommand, SourceError>>) -> nat
    decreases cmds.len(),
{
    if cmds.len() == 0 {
        0
    } else {
        timestamps_in(cmds.drop_last()) + if cmds.last() matches Ok(VcdCommand::Timestamp(_)) {
            1nat
        } else {
            0nat
        }
    }
}

/// The timestamps among commands are those of the first command and those
/// of the commands after it.
pub proof fn lemma_timestamps_in_front(cmds: Seq<Result<VcdCommand, SourceError>>)
    requires
        cmds.len() > 0,
    ensures
        timestamps_in(cmds) == timestamps_in(cmds.subrange(1, cmds.len() as int)) + if cmds[0] matches Ok(
            VcdCommand::Timestamp(_),
        ) {
            1nat
        } else {
            0nat
        },
    decreases cmds.len(),
{
    let tail = cmds.subrange(1, cmds.len() as int);
    if cmds.len() == 1 {
        assert(cmds.drop_last() =~= Seq::<Result<VcdCommand, SourceError>>::empty());
        assert(tail =~= Seq::<Result<VcdCommand, SourceError>>::empty());
    } else {
        lemma_timestamps_in_front(cmds.drop_last());
        assert(cmds.drop_last().subrange(1, cmds.len() - 1) =~= tail.drop_last());
        assert(tail.last() == cmds.last());
        assert(cmds.drop_last()[0] == cmds[0]);
    }
}

/// The time stands a tenth of a second before the trigger as long as no
/// timestamp but the first was read: an event comes out at that time where
/// the commands read up to it hold no more timestamps than `allowed`, which
/// is one for a reader that has not seen a timestamp and zero for one that has.
pub proof fn lemma_pre_trigger_holds(
    s: VcdState,
    input: Seq<Result<VcdCommand, SourceError>>,
    allowed: nat,
)
    requires
        s.current_ts == -PRE_TRIGGER,
        s.scale.1 > 0,
        allowed == 0 || (allowed == 1 && s.first_ts is None),
        ({
            let rest = next_sample(s, input).2;
            timestamps_in(input.subrange(0, input.len() - rest.len())) <= allowed
        }),
    ensures
        next_sample(s, input).0 matches Some(event) ==> event.0 == -PRE_TRIGGER,
    decreases input.len(),
{
    if !s.stopped && input.len() > 0 {
        let tail = input.subrange(1, input.len() as int);
        let (after, out) = vcd_step(s, input[0]);
        if out is None {
            lemma_next_sample_time(after, tail);
            let rest = next_sample(after, tail).2;
            let read = input.subrange(0, input.len() - rest.len());
            assert(read.subrange(1, read.len() as int) =~= tail.subrange(0, tail.len() - rest.len()));
            assert(read[0] == input[0]);
            lemma_timestamps_in_front(read);
            if input[0] matches Ok(VcdCommand::Timestamp(ticks)) {
                assert(allowed == 1);
                assert(after.current_ts == -PRE_TRIGGER);
                lemma_pre_trigger_holds(after, tail, 0);
            } else {
                assert(after.current_ts == s.current_ts);
                assert(after.first_ts == s.first_ts);
                if input[0] matches Ok(VcdCommand::Timescale(n, unit)) {
                    assert(after.scale.1 > 0);
                }
                lemma_pre_trigger_holds(after, tail, allowed);
            }
        }
    }
}

/// The first event of a dump lies a tenth of a second before the trigger,
/// where no more than one timestamp stands before it in the dump.
pub proof fn lemma_first_timestamp(input: Seq<Result<VcdCommand, SourceError>>)
    requires
        ({
            let rest = next_sample(fresh(), input).2;
            timestamps_in(input.subrange(0, input.len() - rest.len())) <= 1
        }),
    ensures
        next_sample(fresh(), input).0 matches Some(event) ==> event.0 == -PRE_TRIGGER,
{
    lemma_pre_trigger_holds(fresh(), input, 1);
}

/// All the events that the source hands out from here on.
pub open spec fn all_samples(s: VcdState, input: Seq<Result<VcdCommand, SourceError>>) -> Seq<
    Event<Sample>,
>
    decreases input.len(),
{
    let r = next_sample(s, input);
    match r.0 {
        Some(e) => if r.2.len() < input.len() {
            seq![e] + all_samples(r.1, r.2)
        } else {
            seq![e]
        },
        None => Seq::empty(),
    }
}

impl EventIterator for VcdParser {
    type Item = Sample;

    open spec fn ready(&self) -> bool {
        self.wf()
    }

    open spec fn upcoming(&self) -> Seq<Event<Sample>> {
        all_samples(self.reader(), self.pending())
    }

    fn next(&mut self) -> (r: Option<Event<Sample>>) {
        proof {
            lemma_next_sample_time(self.reader(), self.pending());
        }
        let r = VcdParser::next(self);
        proof {
            let before = old(self).upcoming();
            if r is Some {
                assert(before.subrange(1, before.len() as int) =~= self.upcoming());
            }
        }
        r
    }

    fn event_type(&self) -> (r: EventType)
        ensures
            r == EventType::Sample,
    {
        EventType::Sample
    }

    fn event_type_name(&self) -> (r: &'static str)
        ensures
            r@ == "source::Sample"@,
    {
        "source::Sample"
    }
}

/// Puts the source of a value change dump onto a pipeline: the samples of
/// the commands of the dump.
pub fn build(pipeline: &mut Vec<Stream>, commands: VecDeque<Result<VcdCommand, SourceError>>)
    ensures
        views(final(pipeline)@) == views(old(pipeline)@).push(
            StreamView::Sample(all_samples(fresh(), commands@)),
        ),
{
    let mut source = VcdParser::new(commands);
    let out = drain(&mut source);
    proof {
        assert(stream_view(out@) =~= out@);
    }
    push_top(pipeline, Stream::Sample(out));
}

} // verus!
