//! From line states to bytes: NRZI decoding, bit unstuffing, reset and end of packet.
//!
//! Between two changes of the bus state lies a period. Its length in bit
//! times says how many bits it carries: the change itself is a zero, and
//! every further bit time is a one. After six ones the sender stuffs a zero,
//! which the decoder drops.
use vstd::prelude::*;
use std::collections::VecDeque;
use crate::error::DecodeError;
use crate::error::LineError;
use crate::pipeline::build_result;
use crate::pipeline::drain;
use crate::pipeline::Event;
use crate::pipeline::EventIterator;
use crate::pipeline::EventType;
use crate::pipeline::ordered;
use crate::pipeline::PipelineError;
use crate::pipeline::pop_top;
use crate::pipeline::push_top;
use crate::pipeline::replaced;
use crate::pipeline::StageKind;
use crate::pipeline::Stream;
use crate::pipeline::stream_view;
use crate::pipeline::StreamView;
use crate::pipeline::views;
use crate::time::clamp;
use crate::time::offset;
use crate::time::round_div;
use crate::time::Timestamp;
use super::signal::Signal;

verus! {

/// What the byte decoder reports of the bus.
#[derive(Debug, Clone, Copy, PartialEq, Eq, Structural)]
pub enum Byte {
    Reset,
    Idle,
    Byte(u8),
    Eop,
}

impl View for Byte {
    type V = Byte;

    open spec fn view(&self) -> Byte {
        *self
    }
}

/// Where the byte decoder stands between two periods.
#[derive(Debug, PartialEq, Eq, Clone, Copy, Structural)]
pub enum State {
    Reset,
    Idle,
    EopStart,
    Receiving,
    Suspended,
}

/// The duration of one bit on a full-speed bus, 12 Mbit/s, in picoseconds.
pub const FULL_SPEED_BIT: i64 = 83_333;

/// The duration of one bit on a low-speed bus, 1.5 Mbit/s, in picoseconds.
pub const LOW_SPEED_BIT: i64 = 666_667;

/// An SE0 that lasts longer than this, 10 ms, is a bus reset.
pub const RESET_THRESHOLD: i64 = 10_000_000_000;

/// The registers of the decoder: its state, the bits gathered and not yet
/// handed out, and the ones seen since the last zero.
#[derive(Debug, Clone, Copy, PartialEq, Eq, Structural)]
pub struct Decoder {
    pub state: State,
    /// How many bits at the top of `shift_reg` wait to be handed out.
    pub counter: u16,
    /// The bits gathered, the latest at the top.
    pub shift_reg: u16,
    /// How many ones the last period carried.
    pub consecutive_ones: u8,
}

/// How many bits a period of `ulen` bit times adds: one per bit time, less
/// the stuffed zero where the period before carried six ones.
pub open spec fn bits_added(consecutive_ones: u8, ulen: u64) -> int {
    if consecutive_ones == 6 {
        ulen - 1
    } else {
        ulen as int
    }
}

/// The registers after a period of `ulen` bit times went in: the register is
/// shifted down by the bits added, and the ones of the period are set at its top.
pub open spec fn pushed(d: Decoder, ulen: u64) -> Decoder
    recommends
        1 <= ulen <= 7,
        d.counter < 8,
{
    let ones = (ulen - 1) as u16;
    let bits = bits_added(d.consecutive_ones, ulen) as u16;
    let shifted = d.shift_reg >> bits;
    Decoder {
        state: d.state,
        counter: (d.counter + bits) as u16,
        shift_reg: if ones != 0 {
            shifted | ((((1u16 << ones) - 1) as u16) << ((16 - ones) as u16))
        } else {
            shifted
        },
        consecutive_ones: ones as u8,
    }
}

/// The byte at the head of the bits gathered, where there are eight or more.
pub open spec fn head_byte(d: Decoder) -> u8
    recommends
        8 <= d.counter <= 16,
{
    ((d.shift_reg >> ((16 - d.counter) as u16)) & 0xFF) as u8
}

/// The length of a period in bit times: the time from `t0` to `next`, in
/// units of `bit_len`, rounded to the nearest whole number. A period that has
/// no end is as long as a number can say.
pub open spec fn period(t0: Timestamp, next: Option<Timestamp>, bit_len: i64) -> u64
    recommends
        bit_len > 0,
{
    match next {
        None => u64::MAX,
        Some(n) => if n <= t0 {
            0
        } else {
            round_div(n - t0, bit_len as int) as u64
        },
    }
}

/// Whether a period lasts longer than the reset threshold.
pub open spec fn outlasts_reset(t0: Timestamp, next: Option<Timestamp>) -> bool {
    match next {
        None => true,
        Some(n) => n - t0 > RESET_THRESHOLD,
    }
}

/// A period of `ulen` bit times goes into the registers; where that
/// completes a byte, the byte comes out at the end of the period.
pub open spec fn received(d: Decoder, ulen: u64, end: Timestamp) -> (Decoder, Seq<Event<Byte>>) {
    let p = pushed(d, ulen);
    if p.counter >= 8 {
        (
            Decoder { counter: (p.counter - 8) as u16, ..p },
            seq![(end, Ok::<Byte, DecodeError>(Byte::Byte(head_byte(p))))],
        )
    } else {
        (p, Seq::empty())
    }
}

/// A diagnostic at the time `t0`.
pub open spec fn line_error(t0: Timestamp, e: LineError) -> Seq<Event<Byte>> {
    seq![(t0, Err::<Byte, DecodeError>(DecodeError::Line(e)))]
}

/// What a period does to the decoder: the registers after it, and the events
/// that it gives, in the order in which they are handed out.
///
/// The period has the bus in the state `sig0` from `t0` until `next`.
/// Both lines high is an error. An SE0 that outlasts the reset threshold is a
/// bus reset. Otherwise the state of the decoder decides:
/// after a reset only J is expected, which means idle;
/// when idle, a K starts a packet, or a suspended bus if it lasts seven bit
/// times or more;
/// while receiving, a K or J of at most seven bit times carries bits, and an
/// SE0 of two bit times on a byte boundary begins the end of packet;
/// after that SE0 a J ends the packet, two bit times before the J began, and
/// the bus is idle one bit time into the J if the J lasts longer than one;
/// a suspended bus wakes up with an SE0 of two bit times.
/// Anything else is an error and leaves the decoder idle.
pub open spec fn step(
    d: Decoder,
    sig0: Signal,
    t0: Timestamp,
    next: Option<Timestamp>,
    bit_len: i64,
) -> (Decoder, Seq<Event<Byte>>)
    recommends
        bit_len > 0,
        d.counter < 8,
{
    let ulen = period(t0, next, bit_len);
    if sig0 == Signal::SE1 {
        (d, line_error(t0, LineError::UnexpectedBusState))
    } else if sig0 == Signal::SE0 && outlasts_reset(t0, next) {
        (
            Decoder { state: State::Reset, counter: 0, ..d },
            seq![(t0, Ok::<Byte, DecodeError>(Byte::Reset))],
        )
    } else {
        match d.state {
            State::Reset => (
                Decoder { state: State::Idle, ..d },
                if sig0 == Signal::J {
                    seq![(t0, Ok::<Byte, DecodeError>(Byte::Idle))]
                } else {
                    line_error(t0, LineError::UnexpectedAfterReset)
                },
            ),
            State::Idle => if sig0 == Signal::K {
                if ulen >= 7 {
                    (Decoder { state: State::Suspended, ..d }, Seq::empty())
                } else if ulen == 0 {
                    (d, line_error(t0, LineError::Framing))
                } else {
                    received(Decoder { state: State::Receiving, ..d }, ulen, next.unwrap())
                }
            } else {
                (d, Seq::empty())
            },
            State::Receiving => if sig0 == Signal::SE0 && ulen == 2 {
                if d.counter == 0 {
                    (Decoder { state: State::EopStart, ..d }, Seq::empty())
                } else {
                    (
                        Decoder { state: State::Idle, counter: 0, ..d },
                        line_error(t0, LineError::IncompleteByte),
                    )
                }
            } else if 1 <= ulen <= 7 && (sig0 == Signal::K || sig0 == Signal::J) {
                received(d, ulen, next.unwrap())
            } else {
                (Decoder { state: State::Idle, ..d }, line_error(t0, LineError::Framing))
            },
            State::EopStart => if sig0 == Signal::J && ulen >= 1 {
                (
                    Decoder { state: State::Idle, ..d },
                    if ulen > 1 {
                        seq![
                            (clamp(t0 - 2 * bit_len), Ok::<Byte, DecodeError>(Byte::Eop)),
                            (clamp(t0 + bit_len), Ok::<Byte, DecodeError>(Byte::Idle)),
                        ]
                    } else {
                        seq![(clamp(t0 - 2 * bit_len), Ok::<Byte, DecodeError>(Byte::Eop))]
                    },
                )
            } else {
                (
                    Decoder { state: State::Idle, ..d },
                    line_error(t0, LineError::UnexpectedAfterEopStart),
                )
            },
            State::Suspended => if sig0 == Signal::SE0 && ulen == 2 {
                (Decoder { state: State::EopStart, ..d }, Seq::empty())
            } else {
                (
                    Decoder { state: State::Idle, ..d },
                    line_error(t0, LineError::UnexpectedAfterSuspend),
                )
            },
        }
    }
}

/// Where the period of the state `sig0` ends, and the input left after it.
///
/// `input` holds the events after the one that began the period. An event
/// that repeats the state, or an SE0 or SE1 that lasts less than half a bit
/// time, belongs to the period and is passed over. The period ends with the
/// first event that does not; it has no end where that event is a diagnostic
/// or the last of the input.
pub open spec fn period_end(input: Seq<Event<Signal>>, sig0: Signal, bit_len: i64) -> (
    Option<Timestamp>,
    Seq<Event<Signal>>,
)
    decreases input.len(),
{
    if input.len() >= 2 && input[0].1 is Ok {
        let sig1 = input[0].1.unwrap();
        let duration = input[1].0 - input[0].0;
        if sig0 == sig1 || ((sig1 == Signal::SE0 || sig1 == Signal::SE1) && 2 * duration
            < bit_len) {
            period_end(input.subrange(1, input.len() as int), sig0, bit_len)
        } else {
            (Some(input[0].0), input)
        }
    } else {
        (None, input)
    }
}

/// What one call of `next` hands out, and what it leaves behind: the
/// registers, the events waiting to be handed out, and the input left.
///
/// An event that waits comes out first. Otherwise periods are read from the
/// input until one of them gives an event; a diagnostic from upstream comes
/// out unchanged.
pub open spec fn next_byte(
    d: Decoder,
    queue: Seq<Event<Byte>>,
    input: Seq<Event<Signal>>,
    bit_len: i64,
) -> (Option<Event<Byte>>, Decoder, Seq<Event<Byte>>, Seq<Event<Signal>>)
    decreases input.len(), queue.len(),
{
    if queue.len() > 0 {
        (Some(queue[0]), d, queue.subrange(1, queue.len() as int), input)
    } else if input.len() == 0 {
        (None, d, queue, input)
    } else {
        let rest = input.subrange(1, input.len() as int);
        let t0 = input[0].0;
        match input[0].1 {
            Err(e) => (Some((t0, Err(e))), d, queue, rest),
            Ok(sig0) => {
                let (end, left) = period_end(rest, sig0, bit_len);
                if left.len() < input.len() {
                    let (after, events) = step(d, sig0, t0, end, bit_len);
                    if events.len() > 0 {
                        (Some(events[0]), after, events.subrange(1, events.len() as int), left)
                    } else {
                        next_byte(after, events, left, bit_len)
                    }
                } else {
                    (None, d, queue, input)
                }
            },
        }
    }
}

/// What a period leaves of the input is a tail of the input.
pub proof fn lemma_period_end_shrinks(input: Seq<Event<Signal>>, sig0: Signal, bit_len: i64)
    ensures
        period_end(input, sig0, bit_len).1.len() <= input.len(),
    decreases input.len(),
{
    if input.len() >= 2 && input[0].1 is Ok {
        lemma_period_end_shrinks(input.subrange(1, input.len() as int), sig0, bit_len);
    }
}

/// `itertools::PeekNth`, an iterator that lets its next items be looked at
/// before they are taken. Nothing inside it is seen here.
#[verifier::external_type_specification]
#[verifier::external_body]
#[verifier::reject_recursive_types(I)]
pub struct ExPeekNth<I: Iterator>(itertools::PeekNth<I>);

/// The bus states that a look-ahead iterator has still to hand out, in their order.
pub uninterp spec fn peeked(it: itertools::PeekNth<std::vec::IntoIter<Event<Signal>>>) -> Seq<
    Event<Signal>,
>;

/// `itertools::peek_nth` over the events of a queue: the iterator has the
/// events of the queue to hand out, in their order.
#[verifier::external_body]
fn look_ahead_over(input: VecDeque<Event<Signal>>) -> (r: itertools::PeekNth<
    std::vec::IntoIter<Event<Signal>>,
>)
    ensures
        peeked(r) == input@,
{
    itertools::peek_nth(Vec::from(input))
}

/// `PeekNth::peek_nth` of itertools: the event that is `n` places from the
/// front, if there are that many, without taking anything away. The method
/// adds one to `n`, so `n` is less than the largest number.
#[verifier::external_body]
fn peek_at(it: &mut itertools::PeekNth<std::vec::IntoIter<Event<Signal>>>, n: usize) -> (r: Option<
    Event<Signal>,
>)
    requires
        n < usize::MAX,
    ensures
        peeked(*final(it)) == peeked(*old(it)),
        r == if n < peeked(*old(it)).len() {
            Some(peeked(*old(it))[n as int])
        } else {
            None
        },
{
    it.peek_nth(n).copied()
}

/// `PeekNth::next` of itertools: the event at the front, which is taken away.
#[verifier::external_body]
fn pull(it: &mut itertools::PeekNth<std::vec::IntoIter<Event<Signal>>>) -> (r: Option<
    Event<Signal>,
>)
    ensures
        match r {
            Some(e) => peeked(*old(it)).len() > 0 && e == peeked(*old(it))[0] && peeked(
                *final(it),
            ) == peeked(*old(it)).subrange(1, peeked(*old(it)).len() as int),
            None => peeked(*old(it)).len() == 0 && peeked(*final(it)) == peeked(*old(it)),
        },
{
    it.next()
}

/// The byte stage: it owns the bus states still to be read.
pub struct ByteIterator {
    it: itertools::PeekNth<std::vec::IntoIter<Event<Signal>>>,
    bit_len: i64,
    d: Decoder,
    ev_queue: VecDeque<Event<Byte>>,
}

impl ByteIterator {
    /// Fewer than eight bits wait in the registers, and a bit takes time.
    pub closed spec fn wf(&self) -> bool {
        self.d.counter < 8 && self.bit_len > 0
    }

    /// The bus states that no call of `next` has read yet.
    pub closed spec fn pending(&self) -> Seq<Event<Signal>> {
        peeked(self.it)
    }

    /// The registers of the decoder.
    pub closed spec fn decoder(&self) -> Decoder {
        self.d
    }

    /// The events that wait to be handed out.
    pub closed spec fn waiting(&self) -> Seq<Event<Byte>> {
        self.ev_queue@
    }

    /// The duration of one bit.
    pub closed spec fn bit(&self) -> i64 {
        self.bit_len
    }

    /// Sets the stage up for a full-speed bus, or for a low-speed one.
    pub fn new(input: VecDeque<Event<Signal>>, fs: bool) -> (r: Self)
        ensures
            r.wf(),
            r.pending() == input@,
            r.waiting() == Seq::<Event<Byte>>::empty(),
            r.bit() == if fs {
                FULL_SPEED_BIT
            } else {
                LOW_SPEED_BIT
            },
            r.decoder() == (Decoder {
                state: State::Idle,
                counter: 0,
                shift_reg: 0,
                consecutive_ones: 0,
            }),
    {
        Self {
            it: look_ahead_over(input),
            bit_len: if fs {
                FULL_SPEED_BIT
            } else {
                LOW_SPEED_BIT
            },
            d: Decoder { state: State::Idle, counter: 0, shift_reg: 0, consecutive_ones: 0 },
            ev_queue: VecDeque::new(),
        }
    }
}

/// Puts a period of `ulen` bit times into the registers.
pub fn push_bits(d: Decoder, ulen: u64) -> (r: Decoder)
    requires
        1 <= ulen <= 7,
        d.counter < 8,
    ensures
        r == pushed(d, ulen),
        r.counter == d.counter + bits_added(d.consecutive_ones, ulen),
        r.counter < 16,
        r.consecutive_ones == ulen - 1,
{
    let ones: u16 = (ulen - 1) as u16;
    let bits: u16 = if d.consecutive_ones == 6 {
        (ulen - 1) as u16
    } else {
        ulen as u16
    };
    let mut shift_reg: u16 = d.shift_reg >> bits;
    if ones != 0 {
        assert((1u16 << ones) >= 1) by (bit_vector)
            requires
                ones <= 6,
        ;
        let mask: u16 = (1u16 << ones) - 1;
        shift_reg = shift_reg | (mask << (16 - ones));
    }
    Decoder { state: d.state, counter: d.counter + bits, shift_reg, consecutive_ones: ones as u8 }
}

/// Measures a period in bit times.
fn period_length(t0: Timestamp, next: Option<Timestamp>, bit_len: i64) -> (r: u64)
    requires
        bit_len > 0,
    ensures
        r == period(t0, next, bit_len),
{
    match next {
        None => u64::MAX,
        Some(n) => {
            if n <= t0 {
                0
            } else {
                let dt: u128 = ((n as i128) - (t0 as i128)) as u128;
                let b: u128 = bit_len as u128;
                assert((2 * dt + b) / (2 * b) <= dt) by (nonlinear_arith)
                    requires
                        b >= 1,
                        dt >= 0,
                ;
                ((2 * dt + b) / (2 * b)) as u64
            }
        },
    }
}

/// Puts a period into the registers and hands out the byte that it completes.
fn receive(d: Decoder, ulen: u64, end: Timestamp, queue: &mut VecDeque<Event<Byte>>) -> (r:
    Decoder)
    requires
        1 <= ulen <= 7,
        d.counter < 8,
    ensures
        r == received(d, ulen, end).0,
        final(queue)@ == old(queue)@ + received(d, ulen, end).1,
        r.counter < 8,
{
    let p = push_bits(d, ulen);
    if p.counter >= 8 {
        let byte: u8 = ((p.shift_reg >> (16 - p.counter)) & 0xFF) as u8;
        queue.push_back((end, Ok(Byte::Byte(byte))));
        proof {
            assert(queue@ =~= old(queue)@ + received(d, ulen, end).1);
        }
        Decoder {
            state: p.state,
            counter: p.counter - 8,
            shift_reg: p.shift_reg,
            consecutive_ones: p.consecutive_ones,
        }
    } else {
        proof {
            assert(queue@ =~= old(queue)@ + received(d, ulen, end).1);
        }
        p
    }
}

/// Hands out a diagnostic and leaves the decoder in `state`.
fn fail(d: Decoder, state: State, t0: Timestamp, e: LineError, queue: &mut VecDeque<Event<Byte>>)
    -> (r: Decoder)
    ensures
        r == (Decoder { state, ..d }),
        final(queue)@ == old(queue)@ + line_error(t0, e),
{
    queue.push_back((t0, Err(DecodeError::Line(e))));
    proof {
        assert(queue@ =~= old(queue)@ + line_error(t0, e));
    }
    Decoder {
        state,
        counter: d.counter,
        shift_reg: d.shift_reg,
        consecutive_ones: d.consecutive_ones,
    }
}

/// Takes one period into the decoder: the registers after it come back, and
/// the events that it gives join the queue.
pub fn advance(
    d: Decoder,
    sig0: Signal,
    t0: Timestamp,
    next: Option<Timestamp>,
    bit_len: i64,
    queue: &mut VecDeque<Event<Byte>>,
) -> (r: Decoder)
    requires
        bit_len > 0,
        d.counter < 8,
    ensures
        r == step(d, sig0, t0, next, bit_len).0,
        final(queue)@ == old(queue)@ + step(d, sig0, t0, next, bit_len).1,
        r.counter < 8,
{
    let ulen: u64 = period_length(t0, next, bit_len);
    let long: bool = match next {
        None => true,
        Some(n) => (n as i128) - (t0 as i128) > (RESET_THRESHOLD as i128),
    };
    let ghost before = queue@;
    let idle = Decoder {
        state: State::Idle,
        counter: d.counter,
        shift_reg: d.shift_reg,
        consecutive_ones: d.consecutive_ones,
    };
    match sig0 {
        Signal::SE1 => {
            return fail(d, d.state, t0, LineError::UnexpectedBusState, queue);
        },
        Signal::SE0 => {
            if long {
                queue.push_back((t0, Ok(Byte::Reset)));
                proof {
                    assert(queue@ =~= before + seq![(t0, Ok::<Byte, DecodeError>(Byte::Reset))]);
                }
                return Decoder {
                    state: State::Reset,
                    counter: 0,
                    shift_reg: d.shift_reg,
                    consecutive_ones: d.consecutive_ones,
                };
            }
        },
        _ => {},
    }
    proof {
        assert(before =~= before + Seq::<Event<Byte>>::empty());
    }
    match d.state {
        State::Reset => {
            match sig0 {
                Signal::J => {
                    queue.push_back((t0, Ok(Byte::Idle)));
                    proof {
                        assert(queue@ =~= before + seq![
                            (t0, Ok::<Byte, DecodeError>(Byte::Idle)),
                        ]);
                    }
                    idle
                },
                _ => fail(d, State::Idle, t0, LineError::UnexpectedAfterReset, queue),
            }
        },
        State::Idle => {
            match sig0 {
                Signal::K => {
                    if ulen >= 7 {
                        Decoder {
                            state: State::Suspended,
                            counter: d.counter,
                            shift_reg: d.shift_reg,
                            consecutive_ones: d.consecutive_ones,
                        }
                    } else if ulen == 0 {
                        fail(d, State::Idle, t0, LineError::Framing, queue)
                    } else {
                        let receiving = Decoder {
                            state: State::Receiving,
                            counter: d.counter,
                            shift_reg: d.shift_reg,
                            consecutive_ones: d.consecutive_ones,
                        };
                        match next {
                            Some(end) => receive(receiving, ulen, end, queue),
                            None => d,
                        }
                    }
                },
                _ => d,
            }
        },
        State::Receiving => {
            let data: bool = match sig0 {
                Signal::K => true,
                Signal::J => true,
                _ => false,
            };
            let se0: bool = match sig0 {
                Signal::SE0 => true,
                _ => false,
            };
            if se0 && ulen == 2 {
                if d.counter == 0 {
                    Decoder {
                        state: State::EopStart,
                        counter: d.counter,
                        shift_reg: d.shift_reg,
                        consecutive_ones: d.consecutive_ones,
                    }
                } else {
                    let cleared = Decoder {
                        state: State::Idle,
                        counter: 0,
                        shift_reg: d.shift_reg,
                        consecutive_ones: d.consecutive_ones,
                    };
                    fail(cleared, State::Idle, t0, LineError::IncompleteByte, queue)
                }
            } else if 1 <= ulen && ulen <= 7 && data {
                match next {
                    Some(end) => receive(d, ulen, end, queue),
                    None => d,
                }
            } else {
                fail(d, State::Idle, t0, LineError::Framing, queue)
            }
        },
        State::EopStart => {
            let j: bool = match sig0 {
                Signal::J => true,
                _ => false,
            };
            if j && ulen >= 1 {
                queue.push_back((offset(offset(t0, -bit_len), -bit_len), Ok(Byte::Eop)));
                if ulen > 1 {
                    queue.push_back((offset(t0, bit_len), Ok(Byte::Idle)));
                }
                proof {
                    assert(clamp(clamp(t0 - bit_len) - bit_len) == clamp(t0 - 2 * bit_len));
                    assert(queue@ =~= before + step(d, sig0, t0, next, bit_len).1);
                }
                idle
            } else {
                fail(d, State::Idle, t0, LineError::UnexpectedAfterEopStart, queue)
            }
        },
        State::Suspended => {
            let se0: bool = match sig0 {
                Signal::SE0 => true,
                _ => false,
            };
            if se0 && ulen == 2 {
                Decoder {
                    state: State::EopStart,
                    counter: d.counter,
                    shift_reg: d.shift_reg,
                    consecutive_ones: d.consecutive_ones,
                }
            } else {
                fail(d, State::Idle, t0, LineError::UnexpectedAfterSuspend, queue)
            }
        },
    }
}

impl ByteIterator {
    /// Passes over the events that belong to the period of `sig0` and tells
    /// where the period ends.
    fn look_ahead(&mut self, sig0: Signal) -> (end: Option<Timestamp>)
        requires
            old(self).wf(),
        ensures
            (end, peeked(final(self).it)) == period_end(
                peeked(old(self).it),
                sig0,
                old(self).bit_len,
            ),
            final(self).bit_len == old(self).bit_len,
            final(self).d == old(self).d,
            final(self).ev_queue@ == old(self).ev_queue@,
    {
        let mut end: Option<Timestamp> = None;
        let mut looking: bool = true;
        while looking
            invariant
                self.bit_len == old(self).bit_len,
                self.bit_len > 0,
                self.d == old(self).d,
                self.ev_queue@ == old(self).ev_queue@,
                looking ==> end is None,
                looking ==> period_end(peeked(self.it), sig0, self.bit_len) == period_end(
                    peeked(old(self).it),
                    sig0,
                    old(self).bit_len,
                ),
                !looking ==> (end, peeked(self.it)) == period_end(
                    peeked(old(self).it),
                    sig0,
                    old(self).bit_len,
                ),
            decreases
                    peeked(self.it).len() + if looking {
                        1int
                    } else {
                        0int
                    },
        {
            let first = peek_at(&mut self.it, 0);
            let second = peek_at(&mut self.it, 1);
            if let (Some((t1, r1)), Some((t2, _))) = (first, second) {
                match r1 {
                    Err(_) => {
                        looking = false;
                    },
                    Ok(sig1) => {
                        let duration: i128 = (t2 as i128) - (t1 as i128);
                        let glitch: bool = match sig1 {
                            Signal::SE0 => 2 * duration < (self.bit_len as i128),
                            Signal::SE1 => 2 * duration < (self.bit_len as i128),
                            _ => false,
                        };
                        if sig0 == sig1 || glitch {
                            pull(&mut self.it);
                        } else {
                            end = Some(t1);
                            looking = false;
                        }
                    },
                }
            } else {
                looking = false;
            }
        }
        end
    }

    /// Reads periods until one of them gives an event and hands that out;
    /// events that a period gave beyond the first wait for the calls after.
    /// `None` once the input is used up.
    pub fn next(&mut self) -> (r: Option<Event<Byte>>)
        requires
            old(self).wf(),
        ensures
            final(self).wf(),
            (r, final(self).decoder(), final(self).waiting(), final(self).pending()) == next_byte(
                old(self).decoder(),
                old(self).waiting(),
                old(self).pending(),
                old(self).bit(),
            ),
            final(self).bit() == old(self).bit(),
    {
        loop
            invariant
                self.bit_len == old(self).bit_len,
                self.bit_len > 0,
                self.d.counter < 8,
                next_byte(self.d, self.ev_queue@, peeked(self.it), self.bit_len) == next_byte(
                    old(self).d,
                    old(self).ev_queue@,
                    peeked(old(self).it),
                    old(self).bit_len,
                ),
            decreases peeked(self.it).len(), self.ev_queue@.len(),
        {
            if self.ev_queue.len() > 0 {
                return self.ev_queue.pop_front();
            }
            let (t0, sig0) = match pull(&mut self.it) {
                None => {
                    return None;
                },
                Some((ts, Err(e))) => {
                    return Some((ts, Err(e)));
                },
                Some((ts, Ok(s))) => (ts, s),
            };
            proof {
                lemma_period_end_shrinks(peeked(self.it), sig0, self.bit_len);
            }
            let end = self.look_ahead(sig0);
            let mut events: VecDeque<Event<Byte>> = VecDeque::new();
            let after = advance(self.d, sig0, t0, end, self.bit_len, &mut events);
            proof {
                assert(events@ =~= step(self.d, sig0, t0, end, self.bit_len).1);
                assert(events@ =~= events@.subrange(0, events@.len() as int));
            }
            self.d = after;
            self.ev_queue = events;
        }
    }
}

/// The registers after the periods `periods` went in one after the other,
/// and how many bytes they completed.
pub open spec fn accumulated(d: Decoder, periods: Seq<u64>) -> (Decoder, int)
    decreases periods.len(),
{
    if periods.len() == 0 {
        (d, 0)
    } else {
        let (before, bytes) = accumulated(d, periods.drop_last());
        let (after, events) = received(before, periods.last(), 0);
        (after, bytes + events.len())
    }
}

/// The bit times of all periods together.
pub open spec fn bit_times(periods: Seq<u64>) -> int
    decreases periods.len(),
{
    if periods.len() == 0 {
        0
    } else {
        bit_times(periods.drop_last()) + periods.last()
    }
}

/// How many ones the period before the `i`-th carried; before the first
/// period, `ones`.
pub open spec fn ones_before(ones: u8, periods: Seq<u64>, i: int) -> int {
    if i <= 0 {
        ones as int
    } else {
        periods[i - 1] - 1
    }
}

/// How many of the periods begin with a stuffed zero, that is, follow on six ones.
pub open spec fn stuffed_bits(ones: u8, periods: Seq<u64>) -> int
    decreases periods.len(),
{
    if periods.len() == 0 {
        0
    } else {
        stuffed_bits(ones, periods.drop_last()) + if ones_before(ones, periods, periods.len() - 1)
            == 6 {
            1int
        } else {
            0int
        }
    }
}

/// Every period lasts between one and seven bit times.
pub open spec fn periods_valid(periods: Seq<u64>) -> bool {
    forall|i: int| 0 <= i < periods.len() ==> 1 <= #[trigger] periods[i] <= 7
}

/// Bit unstuffing, counted: the bits that periods of K and J carry are
/// their bit times less one for every stuffed zero, and every eight of them
/// come out as one byte. So eight times the bytes handed out, with the bits
/// left in the registers, are the bits that were in the registers before,
/// with the bit times of the periods, less the stuffed zeros.
pub proof fn lemma_bytes_counted(d: Decoder, periods: Seq<u64>)
    requires
        d.counter < 8,
        periods_valid(periods),
    ensures
        ({
            let (after, bytes) = accumulated(d, periods);
            &&& after.counter < 8
            &&& after.consecutive_ones == ones_before(d.consecutive_ones, periods, periods.len() as int)
            &&& 8 * bytes + after.counter == d.counter + bit_times(periods) - stuffed_bits(
                d.consecutive_ones,
                periods,
            )
        }),
    decreases periods.len(),
{
    if periods.len() > 0 {
        let front = periods.drop_last();
        assert forall|i: int| 0 <= i < front.len() implies 1 <= #[trigger] front[i] <= 7 by {
            assert(front[i] == periods[i]);
        }
        lemma_bytes_counted(d, front);
        let (before, bytes) = accumulated(d, front);
        let ulen = periods.last();
        assert(1 <= periods[periods.len() - 1] <= 7);
        assert(before.consecutive_ones == ones_before(
            d.consecutive_ones,
            periods,
            periods.len() - 1,
        )) by {
            if front.len() > 0 {
                assert(front[front.len() - 1] == periods[periods.len() - 2]);
            }
        }
        let p = pushed(before, ulen);
        assert(p.counter == before.counter + bits_added(before.consecutive_ones, ulen));
        assert(p.consecutive_ones == ulen - 1);
    }
}

/// The events of one period come out in the order of time, and none of
/// them is earlier than two bit times before the period began.
pub proof fn lemma_step_in_order(
    d: Decoder,
    sig0: Signal,
    t0: Timestamp,
    next: Option<Timestamp>,
    bit_len: i64,
)
    requires
        bit_len > 0,
    ensures
        ({
            let events = step(d, sig0, t0, next, bit_len).1;
            &&& forall|i: int, j: int| 0 <= i <= j < events.len() ==> events[i].0 <= events[j].0
            &&& forall|i: int| 0 <= i < events.len() ==> clamp(t0 - 2 * bit_len) <= (
            #[trigger] events[i]).0
        }),
{
    let ulen = period(t0, next, bit_len);
    if next is Some && next.unwrap() <= t0 {
        assert(ulen == 0);
    }
}

/// A call of `next` that hands out an event has read an event of the input
/// or taken one of those that waited.
pub proof fn lemma_next_byte_progress(
    d: Decoder,
    queue: Seq<Event<Byte>>,
    input: Seq<Event<Signal>>,
    bit_len: i64,
)
    ensures
        ({
            let r = next_byte(d, queue, input, bit_len);
            &&& r.3.len() <= input.len()
            &&& r.0 is Some ==> r.3.len() < input.len() || (r.3.len() == input.len() && r.2.len()
                < queue.len())
            &&& r.0 is None ==> r.3.len() == 0 && r.2.len() == 0
        }),
    decreases input.len(), queue.len(),
{
    if queue.len() == 0 && input.len() > 0 {
        let rest = input.subrange(1, input.len() as int);
        if let Ok(sig0) = input[0].1 {
            lemma_period_end_shrinks(rest, sig0, bit_len);
            let (end, left) = period_end(rest, sig0, bit_len);
            let (after, events) = step(d, sig0, input[0].0, end, bit_len);
            if events.len() == 0 {
                lemma_next_byte_progress(after, events, left, bit_len);
            }
        }
    }
}

/// All the events that the stage hands out from here on.
pub open spec fn all_bytes(
    d: Decoder,
    queue: Seq<Event<Byte>>,
    input: Seq<Event<Signal>>,
    bit_len: i64,
) -> Seq<Event<Byte>>
    decreases input.len(), queue.len(),
{
    let r = next_byte(d, queue, input, bit_len);
    match r.0 {
        Some(e) => if r.3.len() < input.len() || (r.3.len() == input.len() && r.2.len()
            < queue.len()) {
            seq![e] + all_bytes(r.1, r.2, r.3, bit_len)
        } else {
            seq![e]
        },
        None => Seq::empty(),
    }
}

impl EventIterator for ByteIterator {
    type Item = Byte;

    open spec fn ready(&self) -> bool {
        self.wf()
    }

    open spec fn upcoming(&self) -> Seq<Event<Byte>> {
        all_bytes(self.decoder(), self.waiting(), self.pending(), self.bit())
    }

    fn next(&mut self) -> (r: Option<Event<Byte>>) {
        proof {
            lemma_next_byte_progress(self.decoder(), self.waiting(), self.pending(), self.bit());
        }
        let r = ByteIterator::next(self);
        proof {
            let before = old(self).upcoming();
            if r is Some {
                assert(before.subrange(1, before.len() as int) =~= self.upcoming());
            }
        }
        r
    }

    fn event_type(&self) -> (r: EventType)
        ensures
            r == EventType::UsbByte,
    {
        EventType::UsbByte
    }

    fn event_type_name(&self) -> (r: &'static str)
        ensures
            r@ == "usb::byte::Byte"@,
    {
        "usb::byte::Byte"
    }
}

/// What the byte stage makes of the stream at the top of a pipeline: the
/// bytes of its bus states, or, where it holds no bus states, of the bus
/// states that a signal stage with D+ on channel 0, D- on channel 1 and at
/// low speed makes of it.
pub open spec fn byte_output(top: StreamView, fs: bool) -> Result<StreamView, PipelineError> {
    let input = match top {
        StreamView::UsbSignal(_) => Ok::<StreamView, PipelineError>(top),
        _ => crate::usb::signal::signal_output(top, false, 0, 1),
    };
    match input {
        Ok(StreamView::UsbSignal(events)) => Ok(StreamView::UsbByte(all_bytes(
            Decoder { state: State::Idle, counter: 0, shift_reg: 0, consecutive_ones: 0 },
            Seq::empty(),
            events,
            if fs {
                FULL_SPEED_BIT
            } else {
                LOW_SPEED_BIT
            },
        ))),
        Ok(_) => Err(PipelineError::MissingSource(StageKind::UsbByte)),
        Err(e) => Err(e),
    }
}

/// Puts the byte stage onto a pipeline: the stage takes the place of the
/// stream of bus states at the top, after a signal stage was put there where
/// the top holds something else.
pub fn build(pipeline: &mut Vec<Stream>, fs: bool) -> (r: Result<(), PipelineError>)
    ensures
        build_result(
            old(pipeline)@,
            final(pipeline)@,
            r,
            replaced(
                views(old(pipeline)@),
                StageKind::UsbByte,
                byte_output(views(old(pipeline)@).last(), fs),
            ),
        ),
{
    if pipeline.len() == 0 {
        return Err(PipelineError::MissingSource(StageKind::UsbByte));
    }
    let ghost at_first = views(pipeline@);
    let fits: bool = match pipeline[pipeline.len() - 1].event_type() {
        EventType::UsbSignal => true,
        _ => false,
    };
    if !fits {
        match crate::usb::signal::build(pipeline, false, 0, 1) {
            Err(e) => {
                return Err(e);
            },
            Ok(()) => {},
        }
        proof {
            let made = crate::usb::signal::signal_output(at_first.last(), false, 0, 1);
            assert(made is Ok);
            assert(views(pipeline@) == at_first.drop_last().push(made.unwrap()));
        }
    }
    let ghost before = views(pipeline@);
    proof {
        assert(before.len() == pipeline@.len());
        assert(before.len() == at_first.len());
        assert(before.last() == pipeline@.last()@);
    }
    let top = pop_top(pipeline);
    proof {
        assert(views(pipeline@) =~= before.drop_last());
        assert(before.drop_last() =~= at_first.drop_last());
        assert(before.drop_last().push(top@) =~= before);
    }
    match top {
        Stream::UsbSignal(events) => {
            let mut stage = ByteIterator::new(events, fs);
            let out = drain(&mut stage);
            proof {
                assert(stream_view(out@) =~= out@);
            }
            push_top(pipeline, Stream::UsbByte(out));
            Ok(())
        },
        other => {
            push_top(pipeline, other);
            Err(PipelineError::MissingSource(StageKind::UsbByte))
        },
    }
}

/// No event of the input is a diagnostic.
pub open spec fn all_states(input: Seq<Event<Signal>>) -> bool {
    forall|i: int| 0 <= i < input.len() ==> (#[trigger] input[i]).1 is Ok
}

/// The period that begins with the `i`-th event of the input is one that
/// keeps the events in the order of time: an SE0 that counts as two bit times
/// lasts two bit times or more, as does a state with both lines high, and
/// where a J has no end, what is left of the input does not begin before one
/// bit time into the J.
pub open spec fn sound_at(input: Seq<Event<Signal>>, i: int, bit_len: i64) -> bool {
    let t0 = input[i].0;
    let sig0 = input[i].1.unwrap();
    let (end, left) = period_end(input.subrange(i + 1, input.len() as int), sig0, bit_len);
    &&& sig0 == Signal::SE0 && end is Some && period(t0, end, bit_len) == 2 ==> end.unwrap() - t0
        >= 2 * bit_len
    &&& sig0 == Signal::SE1 && left.len() > 0 ==> left[0].0 >= t0 + 2 * bit_len
    &&& sig0 == Signal::J && end is None && left.len() > 0 ==> left[0].0 >= t0 + bit_len
}

/// Every period of the input keeps the events in the order of time.
pub open spec fn sound(input: Seq<Event<Signal>>, bit_len: i64) -> bool {
    forall|i: int| 0 <= i < input.len() ==> #[trigger] sound_at(input, i, bit_len)
}

/// The stage stands so that no event that it can still hand out is earlier
/// than `floor`: the bus states come in the order of time, without
/// diagnostics and with sound periods; the events that wait are in the order
/// of time, not before `floor` and not after the bus state that comes next;
/// and the bus state that comes next lies two bit times after `floor` where
/// it can end a packet.
pub open spec fn steady(
    d: Decoder,
    queue: Seq<Event<Byte>>,
    input: Seq<Event<Signal>>,
    bit_len: i64,
    floor: int,
) -> bool {
    &&& bit_len > 0
    &&& ordered(input)
    &&& all_states(input)
    &&& sound(input, bit_len)
    &&& forall|i: int, j: int| 0 <= i <= j < queue.len() ==> queue[i].0 <= queue[j].0
    &&& forall|i: int| 0 <= i < queue.len() ==> floor <= (#[trigger] queue[i]).0
    &&& input.len() > 0 ==> forall|i: int|
        0 <= i < queue.len() ==> (#[trigger] queue[i]).0 <= input[0].0
    &&& queue.len() > 0 ==> d.state != State::EopStart
    &&& input.len() > 0 ==> if d.state == State::EopStart {
        floor <= input[0].0 - 2 * bit_len
    } else {
        floor <= input[0].0
    }
}

/// What a period leaves of the input is a tail of the input; a period that
/// has an end ends with the first event left, and one that has none leaves
/// one event at most.
pub proof fn lemma_period_end_tail(input: Seq<Event<Signal>>, sig0: Signal, bit_len: i64)
    requires
        all_states(input),
    ensures
        ({
            let (end, left) = period_end(input, sig0, bit_len);
            &&& left.len() <= input.len()
            &&& left == input.subrange(input.len() - left.len(), input.len() as int)
            &&& end is Some ==> left.len() >= 2 && end == Some(left[0].0)
            &&& end is None ==> left.len() < 2
        }),
    decreases input.len(),
{
    if input.len() >= 2 && input[0].1 is Ok {
        let sig1 = input[0].1.unwrap();
        let duration = input[1].0 - input[0].0;
        let rest = input.subrange(1, input.len() as int);
        if sig0 == sig1 || ((sig1 == Signal::SE0 || sig1 == Signal::SE1) && 2 * duration < bit_len) {
            assert forall|i: int| 0 <= i < rest.len() implies (#[trigger] rest[i]).1 is Ok by {
                assert(rest[i] == input[i + 1]);
            }
            lemma_period_end_tail(rest, sig0, bit_len);
            let left = period_end(rest, sig0, bit_len).1;
            assert(left == input.subrange(input.len() - left.len(), input.len() as int));
        } else {
            assert(input == input.subrange(0, input.len() as int));
        }
    } else {
        assert(input.len() < 2) by {
            if input.len() >= 2 {
                assert(input[0].1 is Ok);
            }
        }
        assert(input == input.subrange(0, input.len() as int));
    }
}

/// A tail of an input that comes in the order of time, without diagnostics
/// and with sound periods, is such an input.
pub proof fn lemma_tail_sound(input: Seq<Event<Signal>>, from: int, bit_len: i64)
    requires
        0 <= from <= input.len(),
        ordered(input),
        all_states(input),
        sound(input, bit_len),
    ensures
        ordered(input.subrange(from, input.len() as int)),
        all_states(input.subrange(from, input.len() as int)),
        sound(input.subrange(from, input.len() as int), bit_len),
        forall|i: int|
            0 <= i < input.len() - from ==> (#[trigger] input.subrange(
                from,
                input.len() as int,
            )[i]).0 >= (if from < input.len() {
                input[from].0
            } else {
                0
            }),
{
    let tail = input.subrange(from, input.len() as int);
    assert forall|i: int, j: int| 0 <= i <= j < tail.len() implies tail[i].0 <= tail[j].0 by {
        assert(tail[i] == input[from + i] && tail[j] == input[from + j]);
    }
    assert forall|i: int| 0 <= i < tail.len() implies (#[trigger] tail[i]).1 is Ok by {
        assert(tail[i] == input[from + i]);
    }
    assert forall|i: int| 0 <= i < tail.len() implies #[trigger] sound_at(tail, i, bit_len) by {
        assert(sound_at(input, from + i, bit_len));
        assert(tail[i] == input[from + i]);
        assert(tail.subrange(i + 1, tail.len() as int) =~= input.subrange(
            from + i + 1,
            input.len() as int,
        ));
    }
    assert forall|i: int| 0 <= i < tail.len() implies (#[trigger] tail[i]).0 >= input[from].0 by {
        assert(tail[i] == input[from + i]);
    }
}

/// A period that counts as more than one bit time and has an end lasts at
/// least a bit time.
pub proof fn lemma_long_period(t0: Timestamp, n: Timestamp, bit_len: i64)
    requires
        bit_len > 0,
        period(t0, Some(n), bit_len) >= 1,
    ensures
        n > t0,
        period(t0, Some(n), bit_len) > 1 ==> n - t0 >= bit_len,
{
    if n > t0 {
        let dt = n - t0;
        let b = bit_len as int;
        assert((2 * dt + b) / (2 * b) <= dt) by (nonlinear_arith)
            requires
                b >= 1,
                dt >= 0,
        ;
        assert((2 * dt + b) / (2 * b) > 1 ==> dt >= b) by (nonlinear_arith)
            requires
                b >= 1,
                dt >= 0,
        ;
    }
}

/// What a period gives, seen from the input around it: its events lie
/// between `low` and `high`, where `low` is two bit times before the period
/// for a decoder that waits for the end of a packet and the start of the
/// period otherwise, and `high` is the start of what is left of the input.
/// Where the decoder waits for the end of a packet after the period, what
/// is left begins two bit times or more after the period began.
pub proof fn lemma_step_bounds(
    d: Decoder,
    input: Seq<Event<Signal>>,
    bit_len: i64,
)
    requires
        bit_len > 0,
        input.len() > 0,
        ordered(input),
        all_states(input),
        sound(input, bit_len),
    ensures
        ({
            let t0 = input[0].0;
            let sig0 = input[0].1.unwrap();
            let (end, left) = period_end(input.subrange(1, input.len() as int), sig0, bit_len);
            let (after, events) = step(d, sig0, t0, end, bit_len);
            &&& forall|i: int, j: int| 0 <= i <= j < events.len() ==> events[i].0 <= events[j].0
            &&& forall|i: int|
                0 <= i < events.len() ==> (if d.state == State::EopStart {
                    t0 - 2 * bit_len
                } else {
                    t0 as int
                }) <= (#[trigger] events[i]).0
            &&& left.len() > 0 ==> t0 <= left[0].0 && forall|i: int|
                0 <= i < events.len() ==> (#[trigger] events[i]).0 <= left[0].0
            &&& events.len() > 1 ==> after.state != State::EopStart
            &&& after.state == State::EopStart ==> forall|i: int|
                0 <= i < events.len() ==> (#[trigger] events[i]).0 <= t0
            &&& after.state == State::EopStart && left.len() > 0 ==> t0 + 2 * bit_len <= left[0].0
        }),
{
    let t0 = input[0].0;
    assert(input[0].1 is Ok);
    let sig0 = input[0].1.unwrap();
    let rest = input.subrange(1, input.len() as int);
    lemma_tail_sound(input, 1, bit_len);
    lemma_period_end_tail(rest, sig0, bit_len);
    let (end, left) = period_end(rest, sig0, bit_len);
    let (after, events) = step(d, sig0, t0, end, bit_len);
    lemma_step_in_order(d, sig0, t0, end, bit_len);
    assert(sound_at(input, 0, bit_len));
    let ulen = period(t0, end, bit_len);
    if left.len() > 0 {
        let k = rest.len() - left.len();
        assert(left[0] == rest[k]);
        assert(rest[k] == input[k + 1]);
        assert(t0 <= left[0].0);
    }
    if let Some(n) = end {
        if ulen >= 1 {
            lemma_long_period(t0, n, bit_len);
        }
    }
}

/// An event that `next_byte` hands out is not earlier than the floor, and
/// leaves the stage so that nothing that follows is earlier than the event.
pub proof fn lemma_next_byte_steady(
    d: Decoder,
    queue: Seq<Event<Byte>>,
    input: Seq<Event<Signal>>,
    bit_len: i64,
    floor: int,
)
    requires
        steady(d, queue, input, bit_len, floor),
    ensures
        ({
            let r = next_byte(d, queue, input, bit_len);
            r.0 matches Some(event) ==> floor <= event.0 && steady(
                r.1,
                r.2,
                r.3,
                bit_len,
                event.0 as int,
            )
        }),
    decreases input.len(), queue.len(),
{
    if queue.len() > 0 {
        let tail = queue.subrange(1, queue.len() as int);
        assert forall|i: int| 0 <= i < tail.len() implies queue[0].0 <= (#[trigger] tail[i]).0 by {
            assert(tail[i] == queue[i + 1]);
        }
        assert forall|i: int, j: int| 0 <= i <= j < tail.len() implies tail[i].0 <= tail[j].0 by {
            assert(tail[i] == queue[i + 1] && tail[j] == queue[j + 1]);
        }
        if input.len() > 0 {
            assert forall|i: int| 0 <= i < tail.len() implies (#[trigger] tail[i]).0
                <= input[0].0 by {
                assert(tail[i] == queue[i + 1]);
            }
        }
    } else if input.len() > 0 {
        let rest = input.subrange(1, input.len() as int);
        let t0 = input[0].0;
        assert(input[0].1 is Ok);
        let sig0 = input[0].1.unwrap();
        lemma_tail_sound(input, 1, bit_len);
        lemma_period_end_tail(rest, sig0, bit_len);
        lemma_period_end_shrinks(rest, sig0, bit_len);
        let (end, left) = period_end(rest, sig0, bit_len);
        lemma_tail_sound(rest, rest.len() - left.len(), bit_len);
        lemma_step_bounds(d, input, bit_len);
        let (after, events) = step(d, sig0, t0, end, bit_len);
        if events.len() > 0 {
            let tail = events.subrange(1, events.len() as int);
            assert forall|i: int| 0 <= i < tail.len() implies events[0].0 <= (
            #[trigger] tail[i]).0 by {
                assert(tail[i] == events[i + 1]);
            }
            assert forall|i: int, j: int| 0 <= i <= j < tail.len() implies tail[i].0
                <= tail[j].0 by {
                assert(tail[i] == events[i + 1] && tail[j] == events[j + 1]);
            }
            if left.len() > 0 {
                assert forall|i: int| 0 <= i < tail.len() implies (#[trigger] tail[i]).0
                    <= left[0].0 by {
                    assert(tail[i] == events[i + 1]);
                }
            }
        } else {
            lemma_next_byte_steady(after, events, left, bit_len, floor);
        }
    }
}

/// Bytes leave the stage in the order of time, where the stage stands
/// steady: two events handed out one after the other carry timestamps that
/// do not decrease.
pub proof fn lemma_bytes_in_order(
    d: Decoder,
    queue: Seq<Event<Byte>>,
    input: Seq<Event<Signal>>,
    bit_len: i64,
    floor: int,
)
    requires
        steady(d, queue, input, bit_len, floor),
    ensures
        ({
            let first = next_byte(d, queue, input, bit_len);
            let second = next_byte(first.1, first.2, first.3, bit_len);
            first.0 is Some && second.0 is Some ==> first.0.unwrap().0 <= second.0.unwrap().0
        }),
{
    lemma_next_byte_steady(d, queue, input, bit_len, floor);
    let first = next_byte(d, queue, input, bit_len);
    if let Some(event) = first.0 {
        lemma_next_byte_steady(first.1, first.2, first.3, bit_len, event.0 as int);
    }
}

/// A stage that has read nothing yet stands steady before an input that
/// comes in the order of time, without diagnostics and with sound periods.
pub proof fn lemma_fresh_is_steady(input: Seq<Event<Signal>>, bit_len: i64)
    requires
        bit_len > 0,
        input.len() > 0,
        ordered(input),
        all_states(input),
        sound(input, bit_len),
    ensures
        steady(
            Decoder { state: State::Idle, counter: 0, shift_reg: 0, consecutive_ones: 0 },
            Seq::empty(),
            input,
            bit_len,
            input[0].0 as int,
        ),
{
}

/// How many of the events are bytes.
pub open spec fn bytes_in(events: Seq<Event<Byte>>) -> int
    decreases events.len(),
{
    if events.len() == 0 {
        0
    } else {
        bytes_in(events.drop_last()) + if events.last().1 matches Ok(Byte::Byte(_)) {
            1int
        } else {
            0int
        }
    }
}

/// None of the events is a diagnostic.
pub open spec fn no_errors(events: Seq<Event<Byte>>) -> bool {
    forall|i: int| 0 <= i < events.len() ==> (#[trigger] events[i]).1 is Ok
}

/// The registers of a stage that has read nothing yet.
pub open spec fn fresh_decoder() -> Decoder {
    Decoder { state: State::Idle, counter: 0, shift_reg: 0, consecutive_ones: 0 }
}

/// The bus state of the `i`-th event of an input without diagnostics.
pub open spec fn state_at(input: Seq<Event<Signal>>, i: int) -> Signal {
    input[i].1.unwrap()
}

/// The bus changes its state with the event after the `i`-th.
pub open spec fn turns_at(input: Seq<Event<Signal>>, i: int) -> bool {
    state_at(input, i) != state_at(input, i + 1)
}

/// The length in bit times of the period from the `i`-th event to the next.
pub open spec fn period_at(input: Seq<Event<Signal>>, i: int, bit_len: i64) -> u64 {
    period(input[i].0, Some(input[i + 1].0), bit_len)
}

/// The input begins with one packet on a bus without glitches: `n` periods
/// of K and J in turn, the first a K, each of one to seven bit times and the
/// first of fewer than seven; then an SE0 of two bit times that is no bus
/// reset, a J, and a K, which ends the J unless it is the last event of the
/// input. What comes after that K is free.
pub open spec fn begins_with_packet(input: Seq<Event<Signal>>, n: int, bit_len: i64) -> bool {
    &&& n >= 1
    &&& input.len() >= n + 3
    &&& forall|i: int| 0 <= i < n + 3 ==> (#[trigger] input[i]).1 is Ok
    &&& state_at(input, 0) == Signal::K
    &&& forall|i: int|
        0 <= i < n ==> (state_at(input, i) == Signal::K || state_at(input, i) == Signal::J) && 1
            <= #[trigger] period_at(input, i, bit_len) <= 7
    &&& forall|i: int| 0 <= i < n - 1 ==> #[trigger] turns_at(input, i)
    &&& period_at(input, 0, bit_len) <= 6
    &&& state_at(input, n) == Signal::SE0
    &&& period_at(input, n, bit_len) == 2
    &&& input[n + 1].0 - input[n].0 <= RESET_THRESHOLD
    &&& state_at(input, n + 1) == Signal::J
    &&& state_at(input, n + 2) == Signal::K
    &&& input.len() > n + 3 ==> period_at(input, n + 1, bit_len) >= 1
}

/// The registers when a packet starts on an idle bus.
pub open spec fn started(idle: Decoder) -> Decoder {
    Decoder { state: State::Receiving, ..idle }
}

/// The registers when the bus is idle again.
pub open spec fn rested(d: Decoder) -> Decoder {
    Decoder { state: State::Idle, ..d }
}

/// The lengths of the periods of a packet, in bit times.
pub open spec fn periods_of(input: Seq<Event<Signal>>, n: int, bit_len: i64) -> Seq<u64> {
    Seq::new(n as nat, |i: int| period_at(input, i, bit_len))
}

/// The bytes among events put one behind the other are the bytes among the
/// first and the bytes among the second; and so for the diagnostics.
pub proof fn lemma_bytes_in_both(a: Seq<Event<Byte>>, b: Seq<Event<Byte>>)
    ensures
        bytes_in(a + b) == bytes_in(a) + bytes_in(b),
        no_errors(a) && no_errors(b) ==> no_errors(a + b),
    decreases b.len(),
{
    if b.len() == 0 {
        assert(a + b =~= a);
    } else {
        lemma_bytes_in_both(a, b.drop_last());
        assert((a + b).drop_last() =~= a + b.drop_last());
        assert((a + b).last() == b.last());
    }
    if no_errors(a) && no_errors(b) {
        assert forall|i: int| 0 <= i < (a + b).len() implies (#[trigger] (a + b)[i]).1 is Ok by {
            if i < a.len() {
                assert((a + b)[i] == a[i]);
            } else {
                assert((a + b)[i] == b[i - a.len()]);
            }
        }
    }
}

/// The events that wait come out before all others.
pub proof fn lemma_queue_first(
    d: Decoder,
    queue: Seq<Event<Byte>>,
    input: Seq<Event<Signal>>,
    bit_len: i64,
)
    ensures
        all_bytes(d, queue, input, bit_len) == queue + all_bytes(d, Seq::empty(), input, bit_len),
    decreases queue.len(),
{
    if queue.len() > 0 {
        let tail = queue.subrange(1, queue.len() as int);
        lemma_queue_first(d, tail, input, bit_len);
        assert(seq![queue[0]] + (tail + all_bytes(d, Seq::empty(), input, bit_len)) =~= queue
            + all_bytes(d, Seq::empty(), input, bit_len));
    } else {
        assert(queue =~= Seq::<Event<Byte>>::empty());
        assert(queue + all_bytes(d, Seq::empty(), input, bit_len) =~= all_bytes(
            d,
            Seq::empty(),
            input,
            bit_len,
        ));
    }
}

/// What a stage without events that wait hands out is what the first period
/// of its input gives, and then what it hands out after that period.
pub proof fn lemma_period_first(d: Decoder, input: Seq<Event<Signal>>, bit_len: i64)
    requires
        input.len() > 0,
        input[0].1 is Ok,
    ensures
        ({
            let (end, left) = period_end(
                input.subrange(1, input.len() as int),
                input[0].1.unwrap(),
                bit_len,
            );
            let (after, events) = step(d, input[0].1.unwrap(), input[0].0, end, bit_len);
            all_bytes(d, Seq::empty(), input, bit_len) == events + all_bytes(
                after,
                Seq::empty(),
                left,
                bit_len,
            )
        }),
{
    let rest = input.subrange(1, input.len() as int);
    let sig0 = input[0].1.unwrap();
    lemma_period_end_shrinks(rest, sig0, bit_len);
    let (end, left) = period_end(rest, sig0, bit_len);
    let (after, events) = step(d, sig0, input[0].0, end, bit_len);
    let empty = Seq::<Event<Byte>>::empty();
    if events.len() > 0 {
        let tail = events.subrange(1, events.len() as int);
        lemma_queue_first(after, tail, left, bit_len);
        assert(seq![events[0]] + (tail + all_bytes(after, empty, left, bit_len)) =~= events
            + all_bytes(after, empty, left, bit_len));
    } else {
        assert(events =~= empty);
        lemma_next_byte_progress(after, empty, left, bit_len);
        assert(events + all_bytes(after, empty, left, bit_len) =~= all_bytes(
            after,
            empty,
            left,
            bit_len,
        ));
    }
}

/// On a bus without glitches a period of a packet ends with the next event.
pub proof fn lemma_packet_period_end(input: Seq<Event<Signal>>, n: int, bit_len: i64, i: int)
    requires
        bit_len > 0,
        begins_with_packet(input, n, bit_len),
        0 <= i <= n,
    ensures
        ({
            let here = input.subrange(i, input.len() as int);
            period_end(here.subrange(1, here.len() as int), state_at(input, i), bit_len) == (
                Some(input[i + 1].0),
                input.subrange(i + 1, input.len() as int),
            )
        }),
{
    let here = input.subrange(i, input.len() as int);
    let rest = here.subrange(1, here.len() as int);
    assert(rest =~= input.subrange(i + 1, input.len() as int));
    assert(rest[0] == input[i + 1]);
    assert(rest[1] == input[i + 2]);
    assert(input[i + 1].1 is Ok);
    if i < n - 1 {
        assert(turns_at(input, i));
        assert(1 <= period_at(input, i + 1, bit_len));
    } else if i == n - 1 {
        assert(1 <= period_at(input, i, bit_len));
        lemma_long_period(input[n].0, input[n + 1].0, bit_len);
    }
}

/// A period of K or J within a packet goes into the registers, and gives
/// a byte where it completes one, or nothing: so does the K that starts the
/// packet, if it lasts less than seven bit times.
pub proof fn lemma_step_receives(
    d: Decoder,
    sig0: Signal,
    t0: Timestamp,
    end: Timestamp,
    bit_len: i64,
)
    requires
        bit_len > 0,
        sig0 == Signal::K || sig0 == Signal::J,
        1 <= period(t0, Some(end), bit_len) <= 7,
        d.state == State::Receiving || (d.state == State::Idle && sig0 == Signal::K && period(
            t0,
            Some(end),
            bit_len,
        ) <= 6),
    ensures
        ({
            let (after, events) = step(d, sig0, t0, Some(end), bit_len);
            let counted = received(
                Decoder { state: State::Receiving, ..d },
                period(t0, Some(end), bit_len),
                0,
            );
            &&& after == counted.0
            &&& events.len() == counted.1.len()
            &&& bytes_in(events) == events.len()
            &&& no_errors(events)
        }),
{
    let events = step(d, sig0, t0, Some(end), bit_len).1;
    let start = Decoder { state: State::Receiving, ..d };
    let ulen = period(t0, Some(end), bit_len);
    assert(step(d, sig0, t0, Some(end), bit_len) == received(start, ulen, end));
    assert(bytes_in(Seq::<Event<Byte>>::empty()) == 0);
    if events.len() > 0 {
        assert(events.len() == 1);
        assert(events.drop_last() =~= Seq::<Event<Byte>>::empty());
        assert(events.last().1 matches Ok(Byte::Byte(_)));
    }
}

/// The periods of a packet, as far as the `i`-th, go into the registers as
/// the counting of bytes says: the stage hands out the bytes that they
/// complete, and no diagnostic, and then what it hands out for the rest.
pub proof fn lemma_packet_prefix(
    idle: Decoder,
    input: Seq<Event<Signal>>,
    n: int,
    bit_len: i64,
    i: int,
) -> (b: Seq<Event<Byte>>)
    requires
        bit_len > 0,
        idle.state == State::Idle,
        begins_with_packet(input, n, bit_len),
        1 <= i <= n,
    ensures
        ({
            let counted = accumulated(started(idle), periods_of(input, n, bit_len).take(i));
            &&& all_bytes(idle, Seq::empty(), input, bit_len) == b + all_bytes(
                counted.0,
                Seq::empty(),
                input.subrange(i, input.len() as int),
                bit_len,
            )
            &&& bytes_in(b) == counted.1
            &&& no_errors(b)
            &&& counted.0.state == State::Receiving
        }),
    decreases i,
{
    let periods = periods_of(input, n, bit_len);
    let empty = Seq::<Event<Byte>>::empty();
    let ulen = period_at(input, i - 1, bit_len);
    assert(periods.take(i).drop_last() =~= periods.take(i - 1));
    assert(periods.take(i).last() == ulen);
    assert(1 <= ulen <= 7);
    let counted_before = accumulated(started(idle), periods.take(i - 1));
    let counted = accumulated(started(idle), periods.take(i));
    assert(counted.0 == received(counted_before.0, ulen, 0).0);
    assert(counted.1 == counted_before.1 + received(counted_before.0, ulen, 0).1.len());
    let here = input.subrange(i - 1, input.len() as int);
    let there = input.subrange(i, input.len() as int);
    let mut done = empty;
    let mut before = idle;
    if i == 1 {
        assert(periods.take(0) =~= Seq::<u64>::empty());
        assert(here =~= input);
        assert(empty + all_bytes(before, empty, here, bit_len) =~= all_bytes(
            before,
            empty,
            here,
            bit_len,
        ));
    } else {
        done = lemma_packet_prefix(idle, input, n, bit_len, i - 1);
        before = counted_before.0;
    }
    assert(counted_before.0 == Decoder { state: State::Receiving, ..before });
    assert(here[0] == input[i - 1]);
    assert(input[i - 1].1 is Ok);
    lemma_packet_period_end(input, n, bit_len, i - 1);
    lemma_period_first(before, here, bit_len);
    lemma_step_receives(before, state_at(input, i - 1), input[i - 1].0, input[i].0, bit_len);
    let (after, events) = step(
        before,
        state_at(input, i - 1),
        input[i - 1].0,
        Some(input[i].0),
        bit_len,
    );
    assert(all_bytes(before, empty, here, bit_len) == events + all_bytes(
        after,
        empty,
        there,
        bit_len,
    ));
    assert(after == counted.0);
    lemma_bytes_in_both(done, events);
    assert((done + events) + all_bytes(after, empty, there, bit_len) =~= done + (events
        + all_bytes(after, empty, there, bit_len)));
    done + events
}

/// After a packet an idle bus gives nothing.
pub proof fn lemma_after_packet(d: Decoder, last: Event<Signal>, bit_len: i64)
    requires
        bit_len > 0,
        d.state == State::Idle,
        last.1 == Ok::<Signal, DecodeError>(Signal::J) || last.1 == Ok::<Signal, DecodeError>(
            Signal::K,
        ),
    ensures
        all_bytes(d, Seq::empty(), seq![last], bit_len) == Seq::<Event<Byte>>::empty(),
{
    let input = seq![last];
    let nothing = input.subrange(1, input.len() as int);
    assert(nothing =~= Seq::<Event<Signal>>::empty());
    lemma_period_first(d, input, bit_len);
    let after = step(d, last.1.unwrap(), last.0, None, bit_len);
    assert(after.1 =~= Seq::<Event<Byte>>::empty());
    assert(after.1 + all_bytes(after.0, Seq::empty(), nothing, bit_len) =~= Seq::<
        Event<Byte>,
    >::empty());
}

/// The J after the SE0 ends the packet: the stage marks the end, and the
/// idle bus if the J lasts, and hands out no byte and no diagnostic; the bus
/// is idle then.
pub proof fn lemma_packet_ends(d: Decoder, input: Seq<Event<Signal>>, bit_len: i64) -> (e: Seq<
    Event<Byte>,
>)
    requires
        bit_len > 0,
        d.state == State::EopStart,
        input.len() >= 2,
        input[0].1 == Ok::<Signal, DecodeError>(Signal::J),
        input[1].1 == Ok::<Signal, DecodeError>(Signal::K),
        input.len() > 2 ==> period(input[0].0, Some(input[1].0), bit_len) >= 1,
    ensures
        all_bytes(d, Seq::empty(), input, bit_len) == e + all_bytes(
            rested(d),
            Seq::empty(),
            input.subrange(1, input.len() as int),
            bit_len,
        ),
        bytes_in(e) == 0,
        no_errors(e),
{
    let rest = input.subrange(1, input.len() as int);
    assert(rest[0] == input[1]);
    let end = if rest.len() >= 2 {
        Some(rest[0].0)
    } else {
        None
    };
    assert(period_end(rest, Signal::J, bit_len) == (end, rest));
    lemma_period_first(d, input, bit_len);
    let (after, events) = step(d, Signal::J, input[0].0, end, bit_len);
    assert(period(input[0].0, end, bit_len) >= 1);
    assert(after == rested(d));
    assert(bytes_in(Seq::<Event<Byte>>::empty()) == 0);
    if events.len() == 2 {
        assert(events.drop_last().drop_last() =~= Seq::<Event<Byte>>::empty());
        assert(events.drop_last().last() == events[0]);
        assert(bytes_in(events.drop_last()) == 0);
        assert(events.last() == events[1]);
    } else {
        assert(events.len() == 1);
        assert(events.drop_last() =~= Seq::<Event<Byte>>::empty());
        assert(events.last() == events[0]);
    }
    events
}

/// An SE0 of two bit times on a byte boundary, then a J: the packet is
/// over, the stage hands out no byte and no diagnostic for them, and the bus
/// is idle then.
pub proof fn lemma_packet_tail(d: Decoder, input: Seq<Event<Signal>>, bit_len: i64) -> (e: Seq<
    Event<Byte>,
>)
    requires
        bit_len > 0,
        d.state == State::Receiving,
        d.counter == 0,
        input.len() >= 3,
        input[0].1 == Ok::<Signal, DecodeError>(Signal::SE0),
        period(input[0].0, Some(input[1].0), bit_len) == 2,
        input[1].0 - input[0].0 <= RESET_THRESHOLD,
        input[1].1 == Ok::<Signal, DecodeError>(Signal::J),
        input[2].1 == Ok::<Signal, DecodeError>(Signal::K),
        input.len() > 3 ==> period(input[1].0, Some(input[2].0), bit_len) >= 1,
    ensures
        all_bytes(d, Seq::empty(), input, bit_len) == e + all_bytes(
            rested(d),
            Seq::empty(),
            input.subrange(2, input.len() as int),
            bit_len,
        ),
        bytes_in(e) == 0,
        no_errors(e),
{
    let rest = input.subrange(1, input.len() as int);
    assert(rest[0] == input[1] && rest[1] == input[2]);
    assert(period_end(rest, Signal::SE0, bit_len) == (Some(input[1].0), rest));
    lemma_period_first(d, input, bit_len);
    let (after, events) = step(d, Signal::SE0, input[0].0, Some(input[1].0), bit_len);
    assert(events =~= Seq::<Event<Byte>>::empty());
    let e = lemma_packet_ends(after, rest, bit_len);
    assert(rest.subrange(1, rest.len() as int) =~= input.subrange(2, input.len() as int));
    assert(rested(after) == rested(d));
    assert(events + all_bytes(after, Seq::empty(), rest, bit_len) =~= all_bytes(
        after,
        Seq::empty(),
        rest,
        bit_len,
    ));
    e
}

/// Bit unstuffing, counted for a whole packet: where the input of an idle
/// stage begins with a packet on a bus without glitches whose bits, the
/// stuffed zeros left out, are whole bytes, the stage hands out one byte
/// for every eight bits of it, and no diagnostic, and is idle again when it
/// goes on with the K after the packet.
pub proof fn lemma_packet_bytes(idle: Decoder, input: Seq<Event<Signal>>, n: int, bit_len: i64) -> (b:
    Seq<Event<Byte>>)
    requires
        bit_len > 0,
        idle.state == State::Idle,
        idle.counter == 0,
        begins_with_packet(input, n, bit_len),
        (bit_times(periods_of(input, n, bit_len)) - stuffed_bits(
            idle.consecutive_ones,
            periods_of(input, n, bit_len),
        )) % 8 == 0,
    ensures
        ({
            let periods = periods_of(input, n, bit_len);
            let after = rested(accumulated(started(idle), periods).0);
            &&& all_bytes(idle, Seq::empty(), input, bit_len) == b + all_bytes(
                after,
                Seq::empty(),
                input.subrange(n + 2, input.len() as int),
                bit_len,
            )
            &&& 8 * bytes_in(b) == bit_times(periods) - stuffed_bits(
                idle.consecutive_ones,
                periods,
            )
            &&& no_errors(b)
        }),
{
    let periods = periods_of(input, n, bit_len);
    let empty = Seq::<Event<Byte>>::empty();
    let done = lemma_packet_prefix(idle, input, n, bit_len, n);
    assert(periods.take(n) =~= periods);
    assert forall|i: int| 0 <= i < periods.len() implies 1 <= #[trigger] periods[i] <= 7 by {
        assert(1 <= period_at(input, i, bit_len) <= 7);
    }
    lemma_bytes_counted(started(idle), periods);
    let d = accumulated(started(idle), periods).0;
    assert(d.counter == 0);
    let tail = input.subrange(n, input.len() as int);
    assert(tail[0] == input[n] && tail[1] == input[n + 1] && tail[2] == input[n + 2]);
    assert(input[n].1 is Ok && input[n + 1].1 is Ok && input[n + 2].1 is Ok);
    assert(period_at(input, n, bit_len) == 2);
    if input.len() > n + 3 {
        assert(period_at(input, n + 1, bit_len) >= 1);
    }
    let e = lemma_packet_tail(d, tail, bit_len);
    assert(tail.subrange(2, tail.len() as int) =~= input.subrange(n + 2, input.len() as int));
    let after = all_bytes(rested(d), empty, input.subrange(n + 2, input.len() as int), bit_len);
    lemma_bytes_in_both(done, e);
    assert((done + e) + after =~= done + (e + after));
    done + e
}

/// Of an input that is one packet and the K after it, a stage that has read
/// nothing yet hands out one byte for every eight bits of the packet, the
/// stuffed zeros left out, and no diagnostic.
pub proof fn lemma_one_packet_bytes(input: Seq<Event<Signal>>, n: int, bit_len: i64)
    requires
        bit_len > 0,
        begins_with_packet(input, n, bit_len),
        input.len() == n + 3,
        (bit_times(periods_of(input, n, bit_len)) - stuffed_bits(
            0,
            periods_of(input, n, bit_len),
        )) % 8 == 0,
    ensures
        ({
            let out = all_bytes(fresh_decoder(), Seq::empty(), input, bit_len);
            let periods = periods_of(input, n, bit_len);
            &&& 8 * bytes_in(out) == bit_times(periods) - stuffed_bits(0, periods)
            &&& no_errors(out)
        }),
{
    let periods = periods_of(input, n, bit_len);
    let b = lemma_packet_bytes(fresh_decoder(), input, n, bit_len);
    let after = rested(accumulated(started(fresh_decoder()), periods).0);
    let last = input.subrange(n + 2, input.len() as int);
    assert(last =~= seq![input[n + 2]]);
    assert(input[n + 2].1 is Ok);
    lemma_after_packet(after, input[n + 2], bit_len);
    assert(b + Seq::<Event<Byte>>::empty() =~= b);
}

} // verus!
