//! From packets to transactions: a token, an optional data packet, a handshake.
use vstd::prelude::*;
use std::collections::VecDeque;
use crate::error::DecodeError;
use crate::error::ProtocolError;
use crate::pipeline::build_result;
use crate::pipeline::drain;
use crate::pipeline::Event as PipeEvent;
use crate::pipeline::EventIterator;
use crate::pipeline::EventType;
use crate::pipeline::next_view;
use crate::pipeline::ordered;
use crate::pipeline::PipelineError;
use crate::pipeline::pop_top;
use crate::pipeline::push_top;
use crate::pipeline::replaced;
use crate::pipeline::StageKind;
use crate::pipeline::Stream;
use crate::pipeline::stream_view;
use crate::pipeline::StreamView;
use crate::pipeline::views;
use super::packet::Packet;
use super::packet::PacketView;
use super::types::Data;
use super::types::DataView;
use super::types::HandShake;
use super::types::Token;

verus! {

#[derive(Debug, Clone, PartialEq, Eq)]
pub enum Event {
    Reset,
    Sof(u16),
    Transaction(Transaction),
}

#[derive(PartialEq, Eq, Debug, Clone)]
pub enum TransactionState {
    Idle,
    Token(Token),
    Data { token: Token, data: Option<Data> },
}

#[derive(Debug, Clone, PartialEq, Eq)]
pub struct Transaction {
    pub token: Token,
    pub data: Option<Data>,
    pub handshake: HandShake,
}

/// The view of a data packet that may be absent.
pub open spec fn data_view(d: Option<Data>) -> Option<DataView> {
    match d {
        Some(d) => Some(d@),
        None => None,
    }
}

/// What a transaction is, apart from where its payload is stored.
pub struct TransactionView {
    pub token: Token,
    pub data: Option<DataView>,
    pub handshake: HandShake,
}

impl View for Transaction {
    type V = TransactionView;

    open spec fn view(&self) -> TransactionView {
        TransactionView {
            token: self.token,
            data: data_view(self.data),
            handshake: self.handshake,
        }
    }
}

/// What a protocol event is, apart from where its payload is stored.
pub enum EventView {
    Reset,
    Sof(u16),
    Transaction(TransactionView),
}

impl View for Event {
    type V = EventView;

    open spec fn view(&self) -> EventView {
        match *self {
            Event::Reset => EventView::Reset,
            Event::Sof(n) => EventView::Sof(n),
            Event::Transaction(t) => EventView::Transaction(t@),
        }
    }
}

/// What a transaction state is, apart from where its payload is stored.
pub enum TransactionStateView {
    Idle,
    Token(Token),
    Data { token: Token, data: Option<DataView> },
}

impl View for TransactionState {
    type V = TransactionStateView;

    open spec fn view(&self) -> TransactionStateView {
        match *self {
            TransactionState::Idle => TransactionStateView::Idle,
            TransactionState::Token(t) => TransactionStateView::Token(t),
            TransactionState::Data { token, data } => TransactionStateView::Data {
                token,
                data: data_view(data),
            },
        }
    }
}

/// The state after the packet `p` arrived in `state`.
///
/// A bus reset and a start of frame end whatever was going on. A token is
/// taken up when idle, a data packet after a token, and a handshake after
/// either ends the transaction. A packet out of turn leaves the state alone.
pub open spec fn state_after(state: TransactionStateView, p: PacketView) -> TransactionStateView {
    match p {
        PacketView::Reset => TransactionStateView::Idle,
        PacketView::SoF(_) => TransactionStateView::Idle,
        PacketView::Token(token) => match state {
            TransactionStateView::Idle => TransactionStateView::Token(token),
            _ => state,
        },
        PacketView::Data(data) => match state {
            TransactionStateView::Token(token) => TransactionStateView::Data {
                token,
                data: Some(data),
            },
            _ => state,
        },
        PacketView::HandShake(_) => match state {
            TransactionStateView::Idle => state,
            _ => TransactionStateView::Idle,
        },
    }
}

/// What the packet `p`, arriving in `state`, makes the stage hand out, if anything.
///
/// A bus reset and a start of frame pass through. A handshake after a token
/// gives a transaction without data, after a data packet one with that data.
/// A token or a data packet in turn gives nothing yet, and any packet out of
/// turn gives its diagnostic.
pub open spec fn emitted(state: TransactionStateView, p: PacketView) -> Option<
    Result<EventView, DecodeError>,
> {
    match p {
        PacketView::Reset => Some(Ok(EventView::Reset)),
        PacketView::SoF(n) => Some(Ok(EventView::Sof(n))),
        PacketView::Token(_) => match state {
            TransactionStateView::Idle => None,
            _ => Some(Err(DecodeError::Protocol(ProtocolError::UnexpectedToken))),
        },
        PacketView::Data(_) => match state {
            TransactionStateView::Token(_) => None,
            _ => Some(Err(DecodeError::Protocol(ProtocolError::UnexpectedData))),
        },
        PacketView::HandShake(handshake) => match state {
            TransactionStateView::Token(token) => Some(
                Ok(EventView::Transaction(TransactionView { token, data: None, handshake })),
            ),
            TransactionStateView::Data { token, data } => Some(
                Ok(EventView::Transaction(TransactionView { token, data, handshake })),
            ),
            TransactionStateView::Idle => Some(
                Err(DecodeError::Protocol(ProtocolError::UnexpectedHandshake)),
            ),
        },
    }
}

/// What one call of `next` makes of the packets in `input`, starting in
/// `state`: the event handed out, if any, the state reached, and the input
/// left for later calls. A diagnostic from upstream comes out unchanged and
/// leaves the state alone.
pub open spec fn next_event(state: TransactionStateView, input: Seq<PipeEvent<PacketView>>) -> (
    Option<PipeEvent<EventView>>,
    TransactionStateView,
    Seq<PipeEvent<PacketView>>,
)
    decreases input.len(),
{
    if input.len() == 0 {
        (None, state, input)
    } else {
        let rest = input.subrange(1, input.len() as int);
        let ts = input[0].0;
        match input[0].1 {
            Err(e) => (Some((ts, Err(e))), state, rest),
            Ok(p) => match emitted(state, p) {
                Some(out) => (Some((ts, out)), state_after(state, p), rest),
                None => next_event(state_after(state, p), rest),
            },
        }
    }
}

/// The transaction stage: it owns the packet events still to be read.
pub struct ProtocolIterator {
    it: VecDeque<PipeEvent<Packet>>,
    transaction_state: TransactionState,
}

impl ProtocolIterator {
    /// The packet events that no call of `next` has read yet.
    pub closed spec fn pending(&self) -> Seq<PipeEvent<PacketView>> {
        stream_view(self.it@)
    }

    /// Where the stage stands between two packets.
    pub closed spec fn state(&self) -> TransactionStateView {
        self.transaction_state@
    }

    pub fn new(input: VecDeque<PipeEvent<Packet>>) -> (r: Self)
        ensures
            r.pending() == stream_view(input@),
            r.state() == TransactionStateView::Idle,
    {
        Self { it: input, transaction_state: TransactionState::Idle }
    }

    /// Reads packets until one of them completes a transaction, passes
    /// through or is out of turn, and hands out that event; `None` once the
    /// input is used up.
    pub fn next(&mut self) -> (r: Option<PipeEvent<Event>>)
        ensures
            (next_view(r), final(self).state(), final(self).pending()) == next_event(
                old(self).state(),
                old(self).pending(),
            ),
    {
        loop
            invariant
                next_event(self.transaction_state@, stream_view(self.it@)) == next_event(
                    old(self).transaction_state@,
                    stream_view(old(self).it@),
                ),
            decreases self.it@.len(),
        {
            let ghost held = self.it@;
            let popped = self.it.pop_front();
            proof {
                if held.len() > 0 {
                    assert(stream_view(held).subrange(1, held.len() as int) =~= stream_view(
                        self.it@,
                    ));
                    assert(stream_view(held)[0] == crate::pipeline::event_view(held[0]));
                } else {
                    assert(stream_view(held).len() == 0);
                }
            }
            let (ts, packet) = match popped {
                None => {
                    return None;
                },
                Some((ts, Err(e))) => {
                    return Some((ts, Err(e)));
                },
                Some((ts, Ok(packet))) => (ts, packet),
            };
            let mut state = TransactionState::Idle;
            core::mem::swap(&mut state, &mut self.transaction_state);
            match packet {
                Packet::Reset => {
                    return Some((ts, Ok(Event::Reset)));
                },
                Packet::SoF(frm_num) => {
                    return Some((ts, Ok(Event::Sof(frm_num))));
                },
                Packet::Token(token) => match state {
                    TransactionState::Idle => {
                        self.transaction_state = TransactionState::Token(token);
                    },
                    _ => {
                        self.transaction_state = state;
                        return Some(
                            (ts, Err(DecodeError::Protocol(ProtocolError::UnexpectedToken))),
                        );
                    },
                },
                Packet::Data(data) => match state {
                    TransactionState::Token(token) => {
                        self.transaction_state = TransactionState::Data {
                            token,
                            data: Some(data),
                        };
                    },
                    _ => {
                        self.transaction_state = state;
                        return Some(
                            (ts, Err(DecodeError::Protocol(ProtocolError::UnexpectedData))),
                        );
                    },
                },
                Packet::HandShake(handshake) => {
                    let (token, data) = match state {
                        TransactionState::Token(token) => (token, None),
                        TransactionState::Data { token, data } => (token, data),
                        TransactionState::Idle => {
                            return Some(
                                (
                                    ts,
                                    Err(DecodeError::Protocol(ProtocolError::UnexpectedHandshake)),
                                ),
                            );
                        },
                    };
                    return Some(
                        (ts, Ok(Event::Transaction(Transaction { token, data, handshake }))),
                    );
                },
            }
        }
    }
}

/// Where an event of `next_event` comes from: it carries the timestamp of the
/// last packet event read, and what is left is the input after that event.
pub proof fn lemma_next_event_source(state: TransactionStateView, input: Seq<PipeEvent<PacketView>>)
    ensures
        ({
            let (out, _, rest) = next_event(state, input);
            &&& rest.len() <= input.len()
            &&& rest == input.subrange(input.len() - rest.len(), input.len() as int)
            &&& out is Some ==> rest.len() < input.len() && out.unwrap().0 == input[input.len()
                - rest.len() - 1].0
            &&& out is None ==> rest.len() == 0
        }),
    decreases input.len(),
{
    if input.len() > 0 {
        let rest = input.subrange(1, input.len() as int);
        match input[0].1 {
            Err(e) => {
                assert(rest == input.subrange(input.len() - rest.len(), input.len() as int));
            },
            Ok(p) => {
                if emitted(state, p) is None {
                    lemma_next_event_source(state_after(state, p), rest);
                    let r = next_event(state_after(state, p), rest).2;
                    assert(r == input.subrange(input.len() - r.len(), input.len() as int));
                } else {
                    assert(rest == input.subrange(input.len() - rest.len(), input.len() as int));
                }
            },
        }
    } else {
        assert(input == input.subrange(0, 0));
    }
}

/// Events leave the stage in the order of time: where the packet events come
/// in with timestamps that never decrease, two events handed out one after
/// the other carry timestamps that do not decrease either.
pub proof fn lemma_events_in_order(state: TransactionStateView, input: Seq<PipeEvent<PacketView>>)
    requires
        ordered(input),
    ensures
        ({
            let first = next_event(state, input);
            let second = next_event(first.1, first.2);
            first.0 is Some && second.0 is Some ==> first.0.unwrap().0 <= second.0.unwrap().0
        }),
{
    let first = next_event(state, input);
    lemma_next_event_source(state, input);
    lemma_next_event_source(first.1, first.2);
}

/// All the events that the stage hands out from here on.
pub open spec fn all_events(state: TransactionStateView, input: Seq<PipeEvent<PacketView>>) -> Seq<
    PipeEvent<EventView>,
>
    decreases input.len(),
{
    let r = next_event(state, input);
    match r.0 {
        Some(e) => if r.2.len() < input.len() {
            seq![e] + all_events(r.1, r.2)
        } else {
            seq![e]
        },
        None => Seq::empty(),
    }
}

impl EventIterator for ProtocolIterator {
    type Item = Event;

    open spec fn ready(&self) -> bool {
        true
    }

    open spec fn upcoming(&self) -> Seq<PipeEvent<EventView>> {
        all_events(self.state(), self.pending())
    }

    fn next(&mut self) -> (r: Option<PipeEvent<Event>>) {
        proof {
            lemma_next_event_source(self.state(), self.pending());
        }
        let r = ProtocolIterator::next(self);
        proof {
            let before = old(self).upcoming();
            if r is Some {
                assert(before.subrange(1, before.len() as int) =~= self.upcoming());
            }
        }
        r
    }

    fn event_type(&self) -> (r: EventType)
        ensures
            r == EventType::UsbTransaction,
    {
        EventType::UsbTransaction
    }

    fn event_type_name(&self) -> (r: &'static str)
        ensures
            r@ == "usb::protocol::Event"@,
    {
        "usb::protocol::Event"
    }
}

/// What the protocol stage makes of the stream at the top of a pipeline:
/// the transactions of its packets, or, where it holds no packets, of the
/// packets that a packet stage makes of it.
pub open spec fn protocol_output(top: StreamView) -> Result<StreamView, PipelineError> {
    let input = match top {
        StreamView::UsbPacket(_) => Ok::<StreamView, PipelineError>(top),
        _ => crate::usb::packet::packet_output(top),
    };
    match input {
        Ok(StreamView::UsbPacket(events)) => Ok(
            StreamView::UsbTransaction(all_events(TransactionStateView::Idle, events)),
        ),
        Ok(_) => Err(PipelineError::MissingSource(StageKind::UsbProtocol)),
        Err(e) => Err(e),
    }
}

/// Puts the protocol stage onto a pipeline: the stage takes the place of
/// the stream of packets at the top, after a packet stage was put there where
/// the top holds something else.
pub fn build(pipeline: &mut Vec<Stream>) -> (r: Result<(), PipelineError>)
    ensures
        build_result(
            old(pipeline)@,
            final(pipeline)@,
            r,
            replaced(
                views(old(pipeline)@),
                StageKind::UsbProtocol,
                protocol_output(views(old(pipeline)@).last()),
            ),
        ),
{
    if pipeline.len() == 0 {
        return Err(PipelineError::MissingSource(StageKind::UsbProtocol));
    }
    let ghost at_first = views(pipeline@);
    let fits: bool = match pipeline[pipeline.len() - 1].event_type() {
        EventType::UsbPacket => true,
        _ => false,
    };
    if !fits {
        match crate::usb::packet::build(pipeline) {
            Err(e) => {
                return Err(e);
            },
            Ok(()) => {},
        }
        proof {
            let made = crate::usb::packet::packet_output(at_first.last());
            assert(made is Ok);
            assert(views(pipeline@) == at_first.drop_last().push(made.unwrap()));
        }
    }
    let ghost before = views(pipeline@);
    proof {
        assert(before.len() == pipeline@.len());
        assert(before.len() == at_first.len());
        assert(before.last() == pipeline@.last()@);
    }
    let top = pop_top(pipeline);
    proof {
        assert(views(pipeline@) =~= before.drop_last());
        assert(before.drop_last() =~= at_first.drop_last());
        assert(before.drop_last().push(top@) =~= before);
    }
    match top {
        Stream::UsbPacket(events) => {
            let mut stage = ProtocolIterator::new(events);
            let out = drain(&mut stage);
            push_top(pipeline, Stream::UsbTransaction(out));
            Ok(())
        },
        other => {
            push_top(pipeline, other);
            Err(PipelineError::MissingSource(StageKind::UsbProtocol))
        },
    }
}

} // verus!
