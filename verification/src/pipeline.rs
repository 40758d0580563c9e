//! Event streams: what every stage consumes and produces.
use vstd::prelude::*;
use vstd::string::StringSliceAdditionalSpecFns;
use std::collections::VecDeque;
use crate::bytes::is_word;
use crate::error::ConfigError;
use crate::error::DecodeError;
use crate::error::SourceError;
use crate::serial::SerialEvent;
use crate::source::Sample;
use crate::spi::SpiEvent;
use crate::spif::Command;
use crate::spif::CommandView;
use crate::time::Timestamp;
use crate::usb::byte::Byte;
use crate::usb::device::DeviceEvent;
use crate::usb::device::DeviceEventView;
use crate::usb::packet::Packet;
use crate::usb::packet::PacketView;
use crate::usb::protocol;
use crate::usb::signal::Signal;
use crate::wizfi310::WizFi310Event;
use crate::wizfi310::WizFi310EventView;

verus! {

/// One slot of a stream: a timestamp with either a payload or a diagnostic.
pub type Event<T> = (Timestamp, Result<T, DecodeError>);

/// The timestamps of `s` never decrease.
pub open spec fn ordered<T>(s: Seq<Event<T>>) -> bool {
    forall|i: int, j: int| 0 <= i <= j < s.len() ==> s[i].0 <= s[j].0
}

/// No event of `s` is earlier than `t`.
pub open spec fn not_before<T>(s: Seq<Event<T>>, t: Timestamp) -> bool {
    forall|i: int| 0 <= i < s.len() ==> t <= (#[trigger] s[i]).0
}

/// An event with its payload seen through its view.
pub open spec fn event_view<T: View>(e: Event<T>) -> Event<T::V> {
    match e.1 {
        Ok(p) => (e.0, Ok(p@)),
        Err(d) => (e.0, Err(d)),
    }
}

/// What a call of `next` handed out, with its payload seen through its view.
pub open spec fn next_view<T: View>(r: Option<Event<T>>) -> Option<Event<T::V>> {
    match r {
        Some(e) => Some(event_view(e)),
        None => None,
    }
}

/// A stream with every payload seen through its view.
pub open spec fn stream_view<T: View>(s: Seq<Event<T>>) -> Seq<Event<T::V>> {
    s.map_values(|e: Event<T>| event_view(e))
}

/// The kind of payload that the events of a stage carry.
#[derive(Debug, Clone, Copy, PartialEq, Eq, Structural)]
pub enum EventType {
    Sample,
    SerialEvent,
    SpiEvent,
    FlashCommand,
    WizFi310Event,
    UsbSignal,
    UsbByte,
    UsbPacket,
    UsbTransaction,
    DeviceEvent,
}

/// A stage by its name on the command line.
#[derive(Debug, Clone, Copy, PartialEq, Eq, Structural)]
pub enum StageKind {
    Vcd,
    Logic,
    Logic2,
    Spi,
    Spif,
    Serial,
    Wizfi310,
    UsbSignal,
    UsbByte,
    UsbPacket,
    UsbProtocol,
    UsbDevice,
}

/// Why a pipeline cannot be put together.
#[derive(Debug, Clone, Copy, PartialEq, Eq, Structural)]
pub enum PipelineError {
    /// The command line does not begin with the name of a stage.
    UnknownStage,
    /// A stage that reads events stands first, with no stage before it.
    MissingSource(StageKind),
    /// The stage before hands out another kind of payload than the stage reads.
    TypeMismatch { stage: StageKind, expected: EventType, actual: EventType },
    /// The stages do not come down to a single one; so many are left.
    Unresolved(usize),
    /// A stage cannot be set up as asked.
    Config(ConfigError),
    /// A source cannot read its capture.
    Source(SourceError),
}

impl StageKind {
    /// The kind of payload that the stage reads; a source reads none.
    pub open spec fn spec_input(self) -> Option<EventType> {
        match self {
            StageKind::Vcd => None,
            StageKind::Logic => None,
            StageKind::Logic2 => None,
            StageKind::Spi => Some(EventType::Sample),
            StageKind::Spif => Some(EventType::SpiEvent),
            StageKind::Serial => Some(EventType::Sample),
            StageKind::Wizfi310 => Some(EventType::SerialEvent),
            StageKind::UsbSignal => Some(EventType::Sample),
            StageKind::UsbByte => Some(EventType::UsbSignal),
            StageKind::UsbPacket => Some(EventType::UsbByte),
            StageKind::UsbProtocol => Some(EventType::UsbPacket),
            StageKind::UsbDevice => Some(EventType::UsbTransaction),
        }
    }

    /// The kind of payload that the stage hands out.
    pub open spec fn spec_output(self) -> EventType {
        match self {
            StageKind::Vcd => EventType::Sample,
            StageKind::Logic => EventType::Sample,
            StageKind::Logic2 => EventType::Sample,
            StageKind::Spi => EventType::SpiEvent,
            StageKind::Spif => EventType::FlashCommand,
            StageKind::Serial => EventType::SerialEvent,
            StageKind::Wizfi310 => EventType::WizFi310Event,
            StageKind::UsbSignal => EventType::UsbSignal,
            StageKind::UsbByte => EventType::UsbByte,
            StageKind::UsbPacket => EventType::UsbPacket,
            StageKind::UsbProtocol => EventType::UsbTransaction,
            StageKind::UsbDevice => EventType::DeviceEvent,
        }
    }

    /// The stage that is put before this one where the stage before hands
    /// out another kind of payload than this one reads. Only the stages of
    /// the USB stack above the signal stage have one.
    pub open spec fn spec_prerequisite(self) -> Option<StageKind> {
        match self {
            StageKind::UsbByte => Some(StageKind::UsbSignal),
            StageKind::UsbPacket => Some(StageKind::UsbByte),
            StageKind::UsbProtocol => Some(StageKind::UsbPacket),
            StageKind::UsbDevice => Some(StageKind::UsbProtocol),
            _ => None,
        }
    }

    /// How many stages can be put before this one at most.
    pub open spec fn depth(self) -> nat {
        match self {
            StageKind::UsbByte => 1,
            StageKind::UsbPacket => 2,
            StageKind::UsbProtocol => 3,
            StageKind::UsbDevice => 4,
            _ => 0,
        }
    }

    pub fn input(self) -> (r: Option<EventType>)
        ensures
            r == self.spec_input(),
    {
        match self {
            StageKind::Vcd => None,
            StageKind::Logic => None,
            StageKind::Logic2 => None,
            StageKind::Spi => Some(EventType::Sample),
            StageKind::Spif => Some(EventType::SpiEvent),
            StageKind::Serial => Some(EventType::Sample),
            StageKind::Wizfi310 => Some(EventType::SerialEvent),
            StageKind::UsbSignal => Some(EventType::Sample),
            StageKind::UsbByte => Some(EventType::UsbSignal),
            StageKind::UsbPacket => Some(EventType::UsbByte),
            StageKind::UsbProtocol => Some(EventType::UsbPacket),
            StageKind::UsbDevice => Some(EventType::UsbTransaction),
        }
    }

    pub fn output(self) -> (r: EventType)
        ensures
            r == self.spec_output(),
    {
        match self {
            StageKind::Vcd => EventType::Sample,
            StageKind::Logic => EventType::Sample,
            StageKind::Logic2 => EventType::Sample,
            StageKind::Spi => EventType::SpiEvent,
            StageKind::Spif => EventType::FlashCommand,
            StageKind::Serial => EventType::SerialEvent,
            StageKind::Wizfi310 => EventType::WizFi310Event,
            StageKind::UsbSignal => EventType::UsbSignal,
            StageKind::UsbByte => EventType::UsbByte,
            StageKind::UsbPacket => EventType::UsbPacket,
            StageKind::UsbProtocol => EventType::UsbTransaction,
            StageKind::UsbDevice => EventType::DeviceEvent,
        }
    }

    pub fn prerequisite(self) -> (r: Option<StageKind>)
        ensures
            r == self.spec_prerequisite(),
            r matches Some(p) ==> p.depth() < self.depth() && Some(p.spec_output())
                == self.spec_input(),
    {
        match self {
            StageKind::UsbByte => Some(StageKind::UsbSignal),
            StageKind::UsbPacket => Some(StageKind::UsbByte),
            StageKind::UsbProtocol => Some(StageKind::UsbPacket),
            StageKind::UsbDevice => Some(StageKind::UsbProtocol),
            _ => None,
        }
    }
}

/// The stage that a word of the command line names.
pub open spec fn stage_named(word: Seq<u8>) -> Option<StageKind> {
    if word == seq![118u8, 99, 100] {
        Some(StageKind::Vcd)
    } else if word == seq![108u8, 111, 103, 105, 99] {
        Some(StageKind::Logic)
    } else if word == seq![108u8, 111, 103, 105, 99, 50] {
        Some(StageKind::Logic2)
    } else if word == seq![115u8, 112, 105] {
        Some(StageKind::Spi)
    } else if word == seq![115u8, 112, 105, 102] {
        Some(StageKind::Spif)
    } else if word == seq![115u8, 101, 114, 105, 97, 108] {
        Some(StageKind::Serial)
    } else if word == seq![119u8, 105, 122, 102, 105, 51, 49, 48] {
        Some(StageKind::Wizfi310)
    } else if word == seq![117u8, 115, 98, 58, 58, 115, 105, 103, 110, 97, 108] {
        Some(StageKind::UsbSignal)
    } else if word == seq![117u8, 115, 98, 58, 58, 98, 121, 116, 101] {
        Some(StageKind::UsbByte)
    } else if word == seq![117u8, 115, 98, 58, 58, 112, 97, 99, 107, 101, 116] {
        Some(StageKind::UsbPacket)
    } else if word == seq![117u8, 115, 98, 58, 58, 112, 114, 111, 116, 111, 99, 111, 108] {
        Some(StageKind::UsbProtocol)
    } else if word == seq![117u8, 115, 98, 58, 58, 100, 101, 118, 105, 99, 101] {
        Some(StageKind::UsbDevice)
    } else {
        None
    }
}

/// Tells which stage a word of the command line names: `vcd`, `logic`,
/// `logic2`, `spi`, `spif`, `serial`, `wizfi310`, `usb::signal`, `usb::byte`,
/// `usb::packet`, `usb::protocol` or `usb::device`.
pub fn stage_of_name(name: &str) -> (r: Option<StageKind>)
    ensures
        r == stage_named(name.spec_bytes()),
{
    let b: &[u8] = name.as_bytes();
    let vcd: [u8; 3] = [118, 99, 100];
    let logic: [u8; 5] = [108, 111, 103, 105, 99];
    let logic2: [u8; 6] = [108, 111, 103, 105, 99, 50];
    let spi: [u8; 3] = [115, 112, 105];
    let spif: [u8; 4] = [115, 112, 105, 102];
    let serial: [u8; 6] = [115, 101, 114, 105, 97, 108];
    let wizfi: [u8; 8] = [119, 105, 122, 102, 105, 51, 49, 48];
    let signal: [u8; 11] = [117, 115, 98, 58, 58, 115, 105, 103, 110, 97, 108];
    let byte: [u8; 9] = [117, 115, 98, 58, 58, 98, 121, 116, 101];
    let packet: [u8; 11] = [117, 115, 98, 58, 58, 112, 97, 99, 107, 101, 116];
    let protocol: [u8; 13] = [117, 115, 98, 58, 58, 112, 114, 111, 116, 111, 99, 111, 108];
    let device: [u8; 11] = [117, 115, 98, 58, 58, 100, 101, 118, 105, 99, 101];
    proof {
        assert(vcd@ =~= seq![118u8, 99, 100]);
        assert(logic@ =~= seq![108u8, 111, 103, 105, 99]);
        assert(logic2@ =~= seq![108u8, 111, 103, 105, 99, 50]);
        assert(spi@ =~= seq![115u8, 112, 105]);
        assert(spif@ =~= seq![115u8, 112, 105, 102]);
        assert(serial@ =~= seq![115u8, 101, 114, 105, 97, 108]);
        assert(wizfi@ =~= seq![119u8, 105, 122, 102, 105, 51, 49, 48]);
        assert(signal@ =~= seq![117u8, 115, 98, 58, 58, 115, 105, 103, 110, 97, 108]);
        assert(byte@ =~= seq![117u8, 115, 98, 58, 58, 98, 121, 116, 101]);
        assert(packet@ =~= seq![117u8, 115, 98, 58, 58, 112, 97, 99, 107, 101, 116]);
        assert(protocol@ =~= seq![117u8, 115, 98, 58, 58, 112, 114, 111, 116, 111, 99, 111, 108]);
        assert(device@ =~= seq![117u8, 115, 98, 58, 58, 100, 101, 118, 105, 99, 101]);
    }
    if is_word(b, &vcd) {
        Some(StageKind::Vcd)
    } else if is_word(b, &logic) {
        Some(StageKind::Logic)
    } else if is_word(b, &logic2) {
        Some(StageKind::Logic2)
    } else if is_word(b, &spi) {
        Some(StageKind::Spi)
    } else if is_word(b, &spif) {
        Some(StageKind::Spif)
    } else if is_word(b, &serial) {
        Some(StageKind::Serial)
    } else if is_word(b, &wizfi) {
        Some(StageKind::Wizfi310)
    } else if is_word(b, &signal) {
        Some(StageKind::UsbSignal)
    } else if is_word(b, &byte) {
        Some(StageKind::UsbByte)
    } else if is_word(b, &packet) {
        Some(StageKind::UsbPacket)
    } else if is_word(b, &protocol) {
        Some(StageKind::UsbProtocol)
    } else if is_word(b, &device) {
        Some(StageKind::UsbDevice)
    } else {
        None
    }
}

/// What putting `stage` onto a stack of stages does, the stack given by the
/// kinds of payload that its stages hand out: the stack after it, and the
/// stages that are set up, in their order.
///
/// A source goes onto the stack. Any other stage takes the place of the
/// stage at the top, whose payload is the kind that it reads. Where the top
/// hands out another kind, the stage that is put before this one is set up
/// first, if it has one. With nothing on the stack there is nothing to read.
pub open spec fn pushed_stage(stack: Seq<EventType>, stage: StageKind) -> Result<
    (Seq<EventType>, Seq<StageKind>),
    PipelineError,
>
    decreases stage.depth(),
{
    match stage.spec_input() {
        None => Ok((stack.push(stage.spec_output()), seq![stage])),
        Some(expected) => if stack.len() == 0 {
            Err(PipelineError::MissingSource(stage))
        } else if stack.last() == expected {
            Ok((stack.drop_last().push(stage.spec_output()), seq![stage]))
        } else {
            match stage.spec_prerequisite() {
                Some(before) => if before.depth() < stage.depth() {
                    match pushed_stage(stack, before) {
                        Err(e) => Err(e),
                        Ok((with, set_up)) => Ok(
                            (with.drop_last().push(stage.spec_output()), set_up.push(stage)),
                        ),
                    }
                } else {
                    Err(PipelineError::MissingSource(stage))
                },
                None => Err(
                    PipelineError::TypeMismatch { stage, expected, actual: stack.last() },
                ),
            }
        },
    }
}

/// Putting a stage onto a stack leaves a stack that is not empty, with the
/// payload of the stage at its top, and sets the stage up last.
pub proof fn lemma_pushed_stage_top(stack: Seq<EventType>, stage: StageKind)
    ensures
        pushed_stage(stack, stage) matches Ok((with, set_up)) ==> with.len() > 0 && with.last()
            == stage.spec_output() && set_up.len() > 0 && set_up.last() == stage,
    decreases stage.depth(),
{
    if let Some(expected) = stage.spec_input() {
        if stack.len() > 0 && stack.last() != expected {
            if let Some(before) = stage.spec_prerequisite() {
                if before.depth() < stage.depth() {
                    lemma_pushed_stage_top(stack, before);
                }
            }
        }
    }
}

/// Puts `stage` onto the stack: checks that the stage at the top hands out
/// what `stage` reads, sets up the stages that have to stand between them,
/// and lets `stage` take the place of the top. The stages that are set up
/// join `set_up` in their order. A stack that cannot take the stage stays as
/// it is, and so does `set_up`.
pub fn push_stage(stack: &mut Vec<EventType>, stage: StageKind, set_up: &mut Vec<StageKind>) -> (r:
    Result<(), PipelineError>)
    ensures
        match pushed_stage(old(stack)@, stage) {
            Ok((with, stages)) => {
                &&& r is Ok
                &&& final(stack)@ == with
                &&& final(set_up)@ == old(set_up)@ + stages
            },
            Err(e) => {
                &&& r == Err::<(), PipelineError>(e)
                &&& final(stack)@ == old(stack)@
                &&& final(set_up)@ == old(set_up)@
            },
        },
    decreases stage.depth(),
{
    let expected = match stage.input() {
        None => {
            stack.push(stage.output());
            set_up.push(stage);
            proof {
                assert(set_up@ =~= old(set_up)@ + seq![stage]);
            }
            return Ok(());
        },
        Some(expected) => expected,
    };
    if stack.len() == 0 {
        return Err(PipelineError::MissingSource(stage));
    }
    let actual: EventType = stack[stack.len() - 1];
    if actual != expected {
        match stage.prerequisite() {
            Some(before) => {
                match push_stage(stack, before, set_up) {
                    Err(e) => {
                        return Err(e);
                    },
                    Ok(()) => {},
                }
                proof {
                    lemma_pushed_stage_top(old(stack)@, before);
                }
            },
            None => {
                return Err(PipelineError::TypeMismatch { stage, expected, actual });
            },
        }
    }
    let ghost before_pop = stack@;
    stack.pop();
    stack.push(stage.output());
    set_up.push(stage);
    proof {
        assert(stack@ =~= before_pop.drop_last().push(stage.spec_output()));
        if actual == expected {
            assert(set_up@ =~= old(set_up)@ + seq![stage]);
        } else {
            let inner = pushed_stage(old(stack)@, stage.spec_prerequisite().unwrap()).unwrap().1;
            assert(set_up@ =~= old(set_up)@ + inner.push(stage));
        }
    }
    Ok(())
}

/// What a list of stages comes down to: the stages that are set up, in
/// their order, where the stack that they leave holds exactly one stage.
pub open spec fn planned(stages: Seq<StageKind>) -> Result<Seq<StageKind>, PipelineError> {
    match planned_from(Seq::empty(), Seq::empty(), stages) {
        Err(e) => Err(e),
        Ok((stack, set_up)) => if stack.len() == 1 {
            Ok(set_up)
        } else {
            Err(PipelineError::Unresolved(stack.len() as usize))
        },
    }
}

/// The stack and the stages set up after the stages `stages` were put onto
/// the stack `stack`, one after the other.
pub open spec fn planned_from(
    stack: Seq<EventType>,
    set_up: Seq<StageKind>,
    stages: Seq<StageKind>,
) -> Result<(Seq<EventType>, Seq<StageKind>), PipelineError>
    decreases stages.len(),
{
    if stages.len() == 0 {
        Ok((stack, set_up))
    } else {
        match pushed_stage(stack, stages[0]) {
            Err(e) => Err(e),
            Ok((with, more)) => planned_from(
                with,
                set_up + more,
                stages.subrange(1, stages.len() as int),
            ),
        }
    }
}

/// Plans a pipeline: puts the stages onto a stack in their order, sets up
/// what has to stand between them, and checks that a single stage is left
/// to be driven.
pub fn plan(stages: &Vec<StageKind>) -> (r: Result<Vec<StageKind>, PipelineError>)
    ensures
        match planned(stages@) {
            Ok(set_up) => r is Ok && r.unwrap()@ == set_up,
            Err(e) => r == Err::<Vec<StageKind>, PipelineError>(e),
        },
{
    let mut stack: Vec<EventType> = Vec::new();
    let mut set_up: Vec<StageKind> = Vec::new();
    let mut i: usize = 0;
    proof {
        assert(stages@.subrange(0, stages@.len() as int) =~= stages@);
    }
    while i < stages.len()
        invariant
            i <= stages@.len(),
            planned_from(stack@, set_up@, stages@.subrange(i as int, stages@.len() as int))
                == planned_from(Seq::empty(), Seq::empty(), stages@),
        decreases stages@.len() - i,
    {
        proof {
            let here = stages@.subrange(i as int, stages@.len() as int);
            assert(here[0] == stages@[i as int]);
            assert(here.subrange(1, here.len() as int) =~= stages@.subrange(
                i + 1,
                stages@.len() as int,
            ));
        }
        match push_stage(&mut stack, stages[i], &mut set_up) {
            Err(e) => {
                return Err(e);
            },
            Ok(()) => {},
        }
        i = i + 1;
    }
    if stack.len() != 1 {
        return Err(PipelineError::Unresolved(stack.len()));
    }
    Ok(set_up)
}

/// One stage of a command line: the stage, the places of its own arguments
/// in the command line, from `first` up to `end`, and whether it is the last
/// stage, which is the one that prints.
#[derive(Debug, Clone, Copy, PartialEq, Eq, Structural)]
pub struct Invocation {
    pub stage: StageKind,
    pub first: usize,
    pub end: usize,
    pub last: bool,
}

/// The stage that the argument names, if it names one.
pub open spec fn stage_at(args: Seq<String>, i: int) -> Option<StageKind> {
    stage_named(vstd::utf8::encode_utf8(args[i]@))
}

/// The place of the first argument at or after `from` that names a stage,
/// or the number of arguments where there is none.
pub open spec fn next_stage(args: Seq<String>, from: int) -> int
    decreases args.len() - from,
{
    if from < 0 || from >= args.len() {
        args.len() as int
    } else if stage_at(args, from) is Some {
        from
    } else {
        next_stage(args, from + 1)
    }
}

/// The stages of the command line from the place `from` on, each with the
/// arguments that follow its name up to the next name of a stage.
pub open spec fn tokenized(args: Seq<String>, from: int) -> Result<Seq<Invocation>, PipelineError>
    decreases args.len() - from,
{
    if from < 0 || from >= args.len() {
        Ok(Seq::empty())
    } else {
        match stage_at(args, from) {
            None => Err(PipelineError::UnknownStage),
            Some(stage) => {
                let end = next_stage(args, from + 1);
                if from < end <= args.len() {
                    match tokenized(args, end) {
                        Err(e) => Err(e),
                        Ok(more) => Ok(
                            seq![
                                Invocation {
                                    stage,
                                    first: (from + 1) as usize,
                                    end: end as usize,
                                    last: end == args.len(),
                                },
                            ] + more,
                        ),
                    }
                } else {
                    Err(PipelineError::UnknownStage)
                }
            },
        }
    }
}

/// Parts a command line into its stages: every argument that names a stage
/// begins one, and the arguments up to the next such name belong to it. The
/// first argument has to name a stage.
pub fn tokenize(args: &Vec<String>) -> (r: Result<Vec<Invocation>, PipelineError>)
    ensures
        match tokenized(args@, 0) {
            Ok(invocations) => r is Ok && r.unwrap()@ == invocations,
            Err(e) => r == Err::<Vec<Invocation>, PipelineError>(e),
        },
{
    let n: usize = args.len();
    let mut out: Vec<Invocation> = Vec::new();
    let mut from: usize = 0;
    while from < n
        invariant
            from <= n,
            n == args@.len(),
            match tokenized(args@, from as int) {
                Ok(more) => tokenized(args@, 0) == Ok::<Seq<Invocation>, PipelineError>(
                    out@ + more,
                ),
                Err(e) => tokenized(args@, 0) == Err::<Seq<Invocation>, PipelineError>(e),
            },
        decreases n - from,
    {
        let stage = match stage_of_name(args[from].as_str()) {
            Some(stage) => stage,
            None => {
                return Err(PipelineError::UnknownStage);
            },
        };
        let mut end: usize = from + 1;
        while end < n && stage_of_name(args[end].as_str()).is_none()
            invariant
                from < end <= n,
                n == args@.len(),
                next_stage(args@, end as int) == next_stage(args@, from + 1),
            decreases n - end,
        {
            end = end + 1;
        }
        let invocation = Invocation { stage, first: from + 1, end, last: end == n };
        proof {
            if let Ok(more) = tokenized(args@, end as int) {
                assert(out@.push(invocation) + more =~= out@ + (seq![invocation] + more));
            }
        }
        out.push(invocation);
        from = end;
    }
    proof {
        assert(out@ + Seq::<Invocation>::empty() =~= out@);
    }
    Ok(out)
}

/// What a call of `next` does to the events that a stage has still to hand
/// out: it hands out the first of them and leaves the others, or hands out
/// nothing where none is left.
pub open spec fn advances<T>(before: Seq<Event<T>>, out: Option<Event<T>>, after: Seq<Event<T>>)
    -> bool {
    match out {
        Some(e) => before.len() > 0 && before[0] == e && after == before.subrange(
            1,
            before.len() as int,
        ),
        None => before.len() == 0 && after.len() == 0,
    }
}

/// A stage of a pipeline: it hands out its events one at a time, and tells
/// the kind of payload that they carry.
pub trait EventIterator {
    type Item: View;

    /// The stage is in a state that `next` can start from.
    spec fn ready(&self) -> bool;

    /// The events that the stage has still to hand out, in their order.
    spec fn upcoming(&self) -> Seq<Event<<Self::Item as View>::V>>;

    /// Hands out the next event; `None` once all were handed out.
    fn next(&mut self) -> (r: Option<Event<Self::Item>>)
        requires
            old(self).ready(),
        ensures
            final(self).ready(),
            advances(old(self).upcoming(), next_view(r), final(self).upcoming()),
    ;

    /// The kind of payload that the events of the stage carry.
    fn event_type(&self) -> (r: EventType);

    /// The name of that kind of payload.
    fn event_type_name(&self) -> (r: &'static str);
}

/// Drives a stage to the end: hands back all the events that it had still
/// to hand out, in their order.
pub fn drain<I: EventIterator>(stage: &mut I) -> (r: VecDeque<Event<I::Item>>)
    requires
        old(stage).ready(),
    ensures
        final(stage).ready(),
        final(stage).upcoming().len() == 0,
        stream_view(r@) == old(stage).upcoming(),
{
    let mut out: VecDeque<Event<I::Item>> = VecDeque::new();
    proof {
        assert(stream_view(out@) + stage.upcoming() =~= old(stage).upcoming());
    }
    loop
        invariant
            stage.ready(),
            stream_view(out@) + stage.upcoming() == old(stage).upcoming(),
        decreases stage.upcoming().len(),
    {
        let ghost before = stage.upcoming();
        let ghost done = out@;
        match stage.next() {
            Some(e) => {
                out.push_back(e);
                proof {
                    assert(stream_view(out@) =~= stream_view(done).push(event_view(e)));
                    assert(stream_view(out@) + stage.upcoming() =~= stream_view(done) + before);
                }
            },
            None => {
                proof {
                    assert(stream_view(out@) + stage.upcoming() =~= stream_view(out@));
                }
                return out;
            },
        }
    }
}

/// All the events of a stage, whatever the kind of their payload: a stack of
/// these is a pipeline under construction.
#[derive(Debug, Clone, PartialEq, Eq)]
pub enum Stream {
    Sample(VecDeque<Event<Sample>>),
    SerialEvent(VecDeque<Event<SerialEvent>>),
    SpiEvent(VecDeque<Event<SpiEvent>>),
    FlashCommand(VecDeque<Event<Command>>),
    WizFi310Event(VecDeque<Event<WizFi310Event>>),
    UsbSignal(VecDeque<Event<Signal>>),
    UsbByte(VecDeque<Event<Byte>>),
    UsbPacket(VecDeque<Event<Packet>>),
    UsbTransaction(VecDeque<Event<protocol::Event>>),
    DeviceEvent(VecDeque<Event<DeviceEvent>>),
}

/// What a stream is, apart from where its payloads are stored.
pub enum StreamView {
    Sample(Seq<Event<Sample>>),
    SerialEvent(Seq<Event<SerialEvent>>),
    SpiEvent(Seq<Event<SpiEvent>>),
    FlashCommand(Seq<Event<CommandView>>),
    WizFi310Event(Seq<Event<WizFi310EventView>>),
    UsbSignal(Seq<Event<Signal>>),
    UsbByte(Seq<Event<Byte>>),
    UsbPacket(Seq<Event<PacketView>>),
    UsbTransaction(Seq<Event<protocol::EventView>>),
    DeviceEvent(Seq<Event<DeviceEventView>>),
}

impl View for Stream {
    type V = StreamView;

    open spec fn view(&self) -> StreamView {
        match *self {
            Stream::Sample(v) => StreamView::Sample(v@),
            Stream::SerialEvent(v) => StreamView::SerialEvent(v@),
            Stream::SpiEvent(v) => StreamView::SpiEvent(v@),
            Stream::FlashCommand(v) => StreamView::FlashCommand(stream_view(v@)),
            Stream::WizFi310Event(v) => StreamView::WizFi310Event(stream_view(v@)),
            Stream::UsbSignal(v) => StreamView::UsbSignal(v@),
            Stream::UsbByte(v) => StreamView::UsbByte(v@),
            Stream::UsbPacket(v) => StreamView::UsbPacket(stream_view(v@)),
            Stream::UsbTransaction(v) => StreamView::UsbTransaction(stream_view(v@)),
            Stream::DeviceEvent(v) => StreamView::DeviceEvent(stream_view(v@)),
        }
    }
}

/// The kind of payload that the events of a stream carry.
pub open spec fn kind_of(s: StreamView) -> EventType {
    match s {
        StreamView::Sample(_) => EventType::Sample,
        StreamView::SerialEvent(_) => EventType::SerialEvent,
        StreamView::SpiEvent(_) => EventType::SpiEvent,
        StreamView::FlashCommand(_) => EventType::FlashCommand,
        StreamView::WizFi310Event(_) => EventType::WizFi310Event,
        StreamView::UsbSignal(_) => EventType::UsbSignal,
        StreamView::UsbByte(_) => EventType::UsbByte,
        StreamView::UsbPacket(_) => EventType::UsbPacket,
        StreamView::UsbTransaction(_) => EventType::UsbTransaction,
        StreamView::DeviceEvent(_) => EventType::DeviceEvent,
    }
}

/// The views of the streams of a pipeline.
pub open spec fn views(pipeline: Seq<Stream>) -> Seq<StreamView> {
    Seq::new(pipeline.len(), |i: int| pipeline[i]@)
}

/// The stack after a stage took the place of its top, where `output` is
/// what the stage makes of the top; a stage that reads has nothing to read
/// from an empty stack.
pub open spec fn replaced(
    stack: Seq<StreamView>,
    stage: StageKind,
    output: Result<StreamView, PipelineError>,
) -> Result<Seq<StreamView>, PipelineError> {
    if stack.len() == 0 {
        Err(PipelineError::MissingSource(stage))
    } else {
        match output {
            Ok(v) => Ok(stack.drop_last().push(v)),
            Err(e) => Err(e),
        }
    }
}

/// What a call of a builder did to a pipeline: the pipeline is `wanted`
/// where that is a stack, and as it was, with the error handed back, where
/// it is an error.
pub open spec fn build_result(
    before: Seq<Stream>,
    after: Seq<Stream>,
    r: Result<(), PipelineError>,
    wanted: Result<Seq<StreamView>, PipelineError>,
) -> bool {
    match wanted {
        Ok(stack) => r is Ok && views(after) == stack,
        Err(e) => r == Err::<(), PipelineError>(e) && views(after) == views(before),
    }
}

impl Stream {
    /// The kind of payload that the events of the stream carry.
    pub fn event_type(&self) -> (r: EventType)
        ensures
            r == kind_of(self@),
    {
        match self {
            Stream::Sample(_) => EventType::Sample,
            Stream::SerialEvent(_) => EventType::SerialEvent,
            Stream::SpiEvent(_) => EventType::SpiEvent,
            Stream::FlashCommand(_) => EventType::FlashCommand,
            Stream::WizFi310Event(_) => EventType::WizFi310Event,
            Stream::UsbSignal(_) => EventType::UsbSignal,
            Stream::UsbByte(_) => EventType::UsbByte,
            Stream::UsbPacket(_) => EventType::UsbPacket,
            Stream::UsbTransaction(_) => EventType::UsbTransaction,
            Stream::DeviceEvent(_) => EventType::DeviceEvent,
        }
    }
}

/// Takes the stream at the top of a pipeline that is not empty.
pub fn pop_top(pipeline: &mut Vec<Stream>) -> (r: Stream)
    requires
        old(pipeline)@.len() > 0,
    ensures
        r == old(pipeline)@.last(),
        final(pipeline)@ == old(pipeline)@.drop_last(),
{
    let ghost before = pipeline@;
    match pipeline.pop() {
        Some(top) => {
            proof {
                assert(pipeline@ =~= before.drop_last());
            }
            top
        },
        None => Stream::Sample(VecDeque::new()),
    }
}

/// Puts a stream onto a pipeline.
pub fn push_top(pipeline: &mut Vec<Stream>, top: Stream)
    ensures
        final(pipeline)@ == old(pipeline)@.push(top),
        views(final(pipeline)@) == views(old(pipeline)@).push(top@),
{
    pipeline.push(top);
    proof {
        assert(views(pipeline@) =~= views(old(pipeline)@).push(top@));
    }
}

/// The single stream that a pipeline has come down to.
pub fn finish(pipeline: Vec<Stream>) -> (r: Result<Stream, PipelineError>)
    ensures
        pipeline@.len() == 1 ==> r is Ok && r.unwrap() == pipeline@[0],
        pipeline@.len() != 1 ==> r == Err::<Stream, PipelineError>(
            PipelineError::Unresolved(pipeline@.len() as usize),
        ),
{
    let mut pipeline = pipeline;
    if pipeline.len() != 1 {
        return Err(PipelineError::Unresolved(pipeline.len()));
    }
    Ok(pop_top(&mut pipeline))
}

} // verus!
