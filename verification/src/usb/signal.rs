//! From samples to line states: what the D+ and D- lines say together.
use vstd::prelude::*;
use std::collections::VecDeque;
use crate::error::ConfigError;
use crate::pipeline::build_result;
use crate::pipeline::drain;
use crate::pipeline::Event;
use crate::pipeline::EventIterator;
use crate::pipeline::EventType;
use crate::pipeline::kind_of;
use crate::pipeline::ordered;
use crate::pipeline::PipelineError;
use crate::pipeline::pop_top;
use crate::pipeline::push_top;
use crate::pipeline::replaced;
use crate::pipeline::StageKind;
use crate::pipeline::Stream;
use crate::pipeline::stream_view;
use crate::pipeline::StreamView;
use crate::pipeline::views;
use crate::source::Sample;

verus! {

/// The state of the bus: both lines low, one of the two differential states,
/// or both lines high.
#[derive(Debug, Clone, Copy, PartialEq, Eq, Structural)]
pub enum Signal {
    SE0,
    J,
    K,
    SE1,
}

impl View for Signal {
    type V = Signal;

    open spec fn view(&self) -> Signal {
        *self
    }
}

/// The state of the bus with D+ at `dp` and D- at `dm`. On a full-speed bus
/// J is D+ high; on a low-speed bus the two differential states change places.
pub open spec fn signal_of(dp: bool, dm: bool, fs: bool) -> Signal {
    if dp && dm {
        Signal::SE1
    } else if !dp && !dm {
        Signal::SE0
    } else if dp == fs {
        Signal::J
    } else {
        Signal::K
    }
}

/// The state of the bus in a sample, with the lines at the channels that the
/// two masks select.
pub open spec fn signal_in(sample: Sample, dp_mask: u64, dm_mask: u64, fs: bool) -> Signal {
    signal_of(sample.spec_all_high(dp_mask), sample.spec_all_high(dm_mask), fs)
}

/// What one call of `next` makes of the samples in `input`, with `current`
/// the state handed out last: the event handed out, if any, the state handed
/// out last after it, and the input left for later calls.
///
/// A diagnostic from upstream comes out unchanged. A sample comes out as its
/// bus state if that differs from the state handed out last.
pub open spec fn next_signal(
    current: Option<Signal>,
    dp_mask: u64,
    dm_mask: u64,
    fs: bool,
    input: Seq<Event<Sample>>,
) -> (Option<Event<Signal>>, Option<Signal>, Seq<Event<Sample>>)
    decreases input.len(),
{
    if input.len() == 0 {
        (None, current, input)
    } else {
        let rest = input.subrange(1, input.len() as int);
        let ts = input[0].0;
        match input[0].1 {
            Err(e) => (Some((ts, Err(e))), current, rest),
            Ok(sample) => {
                let s = signal_in(sample, dp_mask, dm_mask, fs);
                if current != Some(s) {
                    (Some((ts, Ok(s))), Some(s), rest)
                } else {
                    next_signal(current, dp_mask, dm_mask, fs, rest)
                }
            },
        }
    }
}

/// The bit of channel `channel` in a sample.
pub open spec fn mask_of(channel: u8) -> u64 {
    1u64 << channel
}

/// The signal stage: it owns the samples still to be read.
pub struct SignalIterator {
    it: VecDeque<Event<Sample>>,
    fs: bool,
    dp_mask: u64,
    dm_mask: u64,
    current_signal: Option<Signal>,
}

impl SignalIterator {
    /// The samples that no call of `next` has read yet.
    pub closed spec fn pending(&self) -> Seq<Event<Sample>> {
        self.it@
    }

    /// The bus state handed out last.
    pub closed spec fn current(&self) -> Option<Signal> {
        self.current_signal
    }

    /// The bit of the D+ channel.
    pub closed spec fn dp(&self) -> u64 {
        self.dp_mask
    }

    /// The bit of the D- channel.
    pub closed spec fn dm(&self) -> u64 {
        self.dm_mask
    }

    /// Whether the bus is a full-speed bus.
    pub closed spec fn full_speed(&self) -> bool {
        self.fs
    }

    /// Sets the stage up for a bus with D+ on channel `dp` and D- on channel
    /// `dm`, full speed or low speed. Both channels are below 64.
    pub fn new(input: VecDeque<Event<Sample>>, fs: bool, dp: u8, dm: u8) -> (r: Result<
        Self,
        ConfigError,
    >)
        ensures
            dp >= 64 ==> r.err() == Some(ConfigError::InvalidChannel(dp)),
            dp < 64 && dm >= 64 ==> r.err() == Some(ConfigError::InvalidChannel(dm)),
            dp < 64 && dm < 64 ==> r is Ok && r.unwrap().pending() == input@
                && r.unwrap().current() is None && r.unwrap().dp() == mask_of(dp)
                && r.unwrap().dm() == mask_of(dm) && r.unwrap().full_speed() == fs,
    {
        if dp >= 64 {
            return Err(ConfigError::InvalidChannel(dp));
        }
        if dm >= 64 {
            return Err(ConfigError::InvalidChannel(dm));
        }
        Ok(Self { it: input, fs, dp_mask: 1u64 << dp, dm_mask: 1u64 << dm, current_signal: None })
    }

    /// Reads samples up to the next change of the bus state and hands that
    /// state out; `None` once the input is used up.
    pub fn next(&mut self) -> (r: Option<Event<Signal>>)
        ensures
            (r, final(self).current(), final(self).pending()) == next_signal(
                old(self).current(),
                old(self).dp(),
                old(self).dm(),
                old(self).full_speed(),
                old(self).pending(),
            ),
            final(self).dp() == old(self).dp(),
            final(self).dm() == old(self).dm(),
            final(self).full_speed() == old(self).full_speed(),
    {
        loop
            invariant
                self.fs == old(self).fs,
                self.dp_mask == old(self).dp_mask,
                self.dm_mask == old(self).dm_mask,
                next_signal(self.current_signal, self.dp_mask, self.dm_mask, self.fs, self.it@)
                    == next_signal(
                    old(self).current_signal,
                    old(self).dp_mask,
                    old(self).dm_mask,
                    old(self).fs,
                    old(self).it@,
                ),
            decreases self.it@.len(),
        {
            let (ts, smp) = match self.it.pop_front() {
                None => {
                    return None;
                },
                Some((ts, Err(e))) => {
                    return Some((ts, Err(e)));
                },
                Some((ts, Ok(smp))) => (ts, smp),
            };
            let dp: bool = smp.all_high(self.dp_mask);
            let dm: bool = smp.all_high(self.dm_mask);
            let s = if dp && dm {
                Signal::SE1
            } else if !dp && !dm {
                Signal::SE0
            } else if dp == self.fs {
                Signal::J
            } else {
                Signal::K
            };
            let changed: bool = match self.current_signal {
                Some(current) => current != s,
                None => true,
            };
            if changed {
                self.current_signal = Some(s);
                return Some((ts, Ok(s)));
            }
        }
    }
}

/// Where an event of `next_signal` comes from: it carries the timestamp of
/// the last sample read, and what is left is the input after that sample.
pub proof fn lemma_next_signal_source(
    current: Option<Signal>,
    dp_mask: u64,
    dm_mask: u64,
    fs: bool,
    input: Seq<Event<Sample>>,
)
    ensures
        ({
            let (out, _, rest) = next_signal(current, dp_mask, dm_mask, fs, input);
            &&& rest.len() <= input.len()
            &&& rest == input.subrange(input.len() - rest.len(), input.len() as int)
            &&& out is Some ==> rest.len() < input.len() && out.unwrap().0 == input[input.len()
                - rest.len() - 1].0
            &&& out is None ==> rest.len() == 0
        }),
    decreases input.len(),
{
    if input.len() > 0 {
        let rest = input.subrange(1, input.len() as int);
        assert(rest == input.subrange(input.len() - rest.len(), input.len() as int));
        if let Ok(sample) = input[0].1 {
            if current == Some(signal_in(sample, dp_mask, dm_mask, fs)) {
                lemma_next_signal_source(current, dp_mask, dm_mask, fs, rest);
                let r = next_signal(current, dp_mask, dm_mask, fs, rest).2;
                assert(r == input.subrange(input.len() - r.len(), input.len() as int));
            }
        }
    } else {
        assert(input == input.subrange(0, 0));
    }
}

/// Bus states leave the stage in the order of time: where the samples come
/// in with timestamps that never decrease, two events handed out one after
/// the other carry timestamps that do not decrease either.
pub proof fn lemma_signals_in_order(
    current: Option<Signal>,
    dp_mask: u64,
    dm_mask: u64,
    fs: bool,
    input: Seq<Event<Sample>>,
)
    requires
        ordered(input),
    ensures
        ({
            let first = next_signal(current, dp_mask, dm_mask, fs, input);
            let second = next_signal(first.1, dp_mask, dm_mask, fs, first.2);
            first.0 is Some && second.0 is Some ==> first.0.unwrap().0 <= second.0.unwrap().0
        }),
{
    let first = next_signal(current, dp_mask, dm_mask, fs, input);
    lemma_next_signal_source(current, dp_mask, dm_mask, fs, input);
    lemma_next_signal_source(first.1, dp_mask, dm_mask, fs, first.2);
}

/// A bus state is never handed out twice in a row: the state of an event
/// differs from the state handed out before it.
pub proof fn lemma_signals_differ(
    current: Option<Signal>,
    dp_mask: u64,
    dm_mask: u64,
    fs: bool,
    input: Seq<Event<Sample>>,
)
    ensures
        ({
            let (out, after, _) = next_signal(current, dp_mask, dm_mask, fs, input);
            out matches Some((_, Ok(s))) ==> current != Some(s) && after == Some(s)
        }),
    decreases input.len(),
{
    if input.len() > 0 {
        let rest = input.subrange(1, input.len() as int);
        if let Ok(sample) = input[0].1 {
            if current == Some(signal_in(sample, dp_mask, dm_mask, fs)) {
                lemma_signals_differ(current, dp_mask, dm_mask, fs, rest);
            }
        }
    }
}

/// All the events that the stage hands out from here on.
pub open spec fn all_signals(
    current: Option<Signal>,
    dp_mask: u64,
    dm_mask: u64,
    fs: bool,
    input: Seq<Event<Sample>>,
) -> Seq<Event<Signal>>
    decreases input.len(),
{
    let (out, after, rest) = next_signal(current, dp_mask, dm_mask, fs, input);
    match out {
        Some(e) => if rest.len() < input.len() {
            seq![e] + all_signals(after, dp_mask, dm_mask, fs, rest)
        } else {
            seq![e]
        },
        None => Seq::empty(),
    }
}

impl EventIterator for SignalIterator {
    type Item = Signal;

    open spec fn ready(&self) -> bool {
        true
    }

    open spec fn upcoming(&self) -> Seq<Event<Signal>> {
        all_signals(self.current(), self.dp(), self.dm(), self.full_speed(), self.pending())
    }

    fn next(&mut self) -> (r: Option<Event<Signal>>) {
        proof {
            lemma_next_signal_source(
                self.current(),
                self.dp(),
                self.dm(),
                self.full_speed(),
                self.pending(),
            );
        }
        let r = SignalIterator::next(self);
        proof {
            let before = old(self).upcoming();
            if r is Some {
                assert(before.subrange(1, before.len() as int) =~= self.upcoming());
            }
        }
        r
    }

    fn event_type(&self) -> (r: EventType)
        ensures
            r == EventType::UsbSignal,
    {
        EventType::UsbSignal
    }

    fn event_type_name(&self) -> (r: &'static str)
        ensures
            r@ == "usb::signal::Signal"@,
    {
        "usb::signal::Signal"
    }
}

/// What the signal stage makes of the stream at the top of a pipeline:
/// the bus states of its samples, where it holds samples and the two channels
/// are below 64.
pub open spec fn signal_output(top: StreamView, fs: bool, dp: u8, dm: u8) -> Result<
    StreamView,
    PipelineError,
> {
    match top {
        StreamView::Sample(samples) => if dp >= 64 {
            Err(PipelineError::Config(ConfigError::InvalidChannel(dp)))
        } else if dm >= 64 {
            Err(PipelineError::Config(ConfigError::InvalidChannel(dm)))
        } else {
            Ok(StreamView::UsbSignal(all_signals(None, mask_of(dp), mask_of(dm), fs, samples)))
        },
        other => Err(
            PipelineError::TypeMismatch {
                stage: StageKind::UsbSignal,
                expected: EventType::Sample,
                actual: kind_of(other),
            },
        ),
    }
}

/// Puts the signal stage onto a pipeline: the stage takes the place of the
/// stream of samples at the top.
pub fn build(pipeline: &mut Vec<Stream>, fs: bool, dp: u8, dm: u8) -> (r: Result<
    (),
    PipelineError,
>)
    ensures
        build_result(
            old(pipeline)@,
            final(pipeline)@,
            r,
            replaced(
                views(old(pipeline)@),
                StageKind::UsbSignal,
                signal_output(views(old(pipeline)@).last(), fs, dp, dm),
            ),
        ),
{
    if pipeline.len() == 0 {
        return Err(PipelineError::MissingSource(StageKind::UsbSignal));
    }
    let ghost before = views(pipeline@);
    let top = pop_top(pipeline);
    proof {
        assert(views(pipeline@) =~= before.drop_last());
        assert(before.drop_last().push(top@) =~= before);
    }
    match top {
        Stream::Sample(samples) => {
            if dp >= 64 {
                push_top(pipeline, Stream::Sample(samples));
                return Err(PipelineError::Config(ConfigError::InvalidChannel(dp)));
            }
            if dm >= 64 {
                push_top(pipeline, Stream::Sample(samples));
                return Err(PipelineError::Config(ConfigError::InvalidChannel(dm)));
            }
            match SignalIterator::new(samples, fs, dp, dm) {
                Ok(stage) => {
                    let mut stage = stage;
                    let out = drain(&mut stage);
                    proof {
                        assert(stream_view(out@) =~= out@);
                    }
                    push_top(pipeline, Stream::UsbSignal(out));
                    Ok(())
                },
                Err(e) => Err(PipelineError::Config(e)),
            }
        },
        other => {
            let actual = other.event_type();
            push_top(pipeline, other);
            Err(
                PipelineError::TypeMismatch {
                    stage: StageKind::UsbSignal,
                    expected: EventType::Sample,
                    actual,
                },
            )
        },
    }
}

} // verus!
