//! From transactions to what they mean to a device: control transfers with
//! their descriptors, and class traffic on the other endpoints.
use vstd::prelude::*;
use std::collections::HashMap;
use std::collections::VecDeque;
use crate::error::DecodeError;
use crate::pipeline::build_result;
use crate::pipeline::drain;
use crate::pipeline::Event as PipeEvent;
use crate::pipeline::EventIterator;
use crate::pipeline::EventType;
use crate::pipeline::next_view;
use crate::pipeline::ordered;
use crate::pipeline::PipelineError;
use crate::pipeline::pop_top;
use crate::pipeline::push_top;
use crate::pipeline::replaced;
use crate::pipeline::StageKind;
use crate::pipeline::Stream;
use crate::pipeline::stream_view;
use crate::pipeline::StreamView;
use crate::pipeline::views;
use crate::time::Timestamp;
use crate::usb::protocol;
use crate::usb::protocol::Transaction;
use crate::usb::protocol::TransactionView;
use crate::usb::types::HandShake;
use crate::usb::types::TokenType;

pub mod cdc;
pub mod control;
pub mod lang_id;
pub mod msd;
pub mod types;

verus! {

broadcast use vstd::std_specs::hash::group_hash_axioms;

#[derive(Debug, Clone, PartialEq, Eq)]
pub enum ClassEvent {
    CdC(cdc::Event),
    MassStorage(msd::Event),
}

/// What a class event is, apart from where its bytes are stored.
pub enum ClassEventView {
    CdC(cdc::EventView),
    MassStorage(msd::Event),
}

impl View for ClassEvent {
    type V = ClassEventView;

    open spec fn view(&self) -> ClassEventView {
        match *self {
            ClassEvent::CdC(e) => ClassEventView::CdC(e@),
            ClassEvent::MassStorage(e) => ClassEventView::MassStorage(e),
        }
    }
}

#[derive(Debug, Clone, PartialEq, Eq)]
pub enum InterfaceEvent {
    Class(ClassEvent),
}

/// What an interface event is, apart from where its bytes are stored.
pub enum InterfaceEventView {
    Class(ClassEventView),
}

impl View for InterfaceEvent {
    type V = InterfaceEventView;

    open spec fn view(&self) -> InterfaceEventView {
        match *self {
            InterfaceEvent::Class(e) => InterfaceEventView::Class(e@),
        }
    }
}

#[derive(Debug, Clone, PartialEq, Eq)]
pub enum DeviceEvent {
    Reset,
    Control(control::Event),
    Interface(InterfaceEvent),
}

/// What a device event is, apart from where its contents are stored.
pub enum DeviceEventView {
    Reset,
    Control(control::EventView),
    Interface(InterfaceEventView),
}

impl View for DeviceEvent {
    type V = DeviceEventView;

    open spec fn view(&self) -> DeviceEventView {
        match *self {
            DeviceEvent::Reset => DeviceEventView::Reset,
            DeviceEvent::Control(e) => DeviceEventView::Control(e@),
            DeviceEvent::Interface(e) => DeviceEventView::Interface(e@),
        }
    }
}

/// What handles the transactions of an endpoint other than endpoint zero.
#[derive(Debug, Clone, Copy, PartialEq, Eq, Structural)]
pub enum EndpointHandler {
    Cdc(cdc::CdCEndpoint),
    Msd(msd::MsdEndpoint),
}

/// What an update handed out, with its payload seen through its view.
pub open spec fn update_view(r: Option<Result<DeviceEvent, DecodeError>>) -> Option<
    Result<DeviceEventView, DecodeError>,
> {
    match r {
        Some(Ok(e)) => Some(Ok(e@)),
        Some(Err(e)) => Some(Err(e)),
        None => None,
    }
}

/// What a transaction on an endpoint of a communications device gives: an
/// acknowledged transaction with a data packet is data received, if the token
/// was an IN token, and data sent otherwise. Anything else gives nothing.
pub open spec fn cdc_update(transaction: TransactionView) -> Option<
    Result<DeviceEventView, DecodeError>,
> {
    match transaction.data {
        Some(data) => if transaction.handshake == HandShake::Ack {
            Some(
                Ok(
                    DeviceEventView::Interface(
                        InterfaceEventView::Class(
                            ClassEventView::CdC(
                                if transaction.token.token_type == TokenType::In {
                                    cdc::EventView::Rx(data.payload)
                                } else {
                                    cdc::EventView::Tx(data.payload)
                                },
                            ),
                        ),
                    ),
                ),
            )
        } else {
            None
        },
        None => None,
    }
}

/// What a transaction gives on an endpoint with the handler `handler`.
pub open spec fn handler_update(handler: EndpointHandler, transaction: TransactionView) -> Option<
    Result<DeviceEventView, DecodeError>,
> {
    match handler {
        EndpointHandler::Cdc(_) => cdc_update(transaction),
        EndpointHandler::Msd(_) => None,
    }
}

/// What handles the transactions of one endpoint.
pub trait Endpoint {
    /// What a transaction on the endpoint gives.
    spec fn answers(&self, transaction: TransactionView) -> Option<
        Result<DeviceEventView, DecodeError>,
    >;

    /// Takes one transaction of the endpoint and hands back what it gives.
    fn update(&mut self, timestamp: Timestamp, transaction: Transaction) -> (r: Option<
        Result<DeviceEvent, DecodeError>,
    >)
        ensures
            update_view(r) == old(self).answers(transaction@),
    ;
}

impl Endpoint for cdc::CdCEndpoint {
    open spec fn answers(&self, transaction: TransactionView) -> Option<
        Result<DeviceEventView, DecodeError>,
    > {
        cdc_update(transaction)
    }

    /// Reports the data that the transaction moved.
    fn update(&mut self, _timestamp: Timestamp, transaction: Transaction) -> (r: Option<
        Result<DeviceEvent, DecodeError>,
    >)
        ensures
            *final(self) == *old(self),
    {
        let Transaction { token, data, handshake } = transaction;
        match data {
            Some(data) => {
                if let HandShake::Ack = handshake {
                    let ev = ClassEvent::from(
                        if let TokenType::In = token.token_type {
                            cdc::Event::Rx(data.payload)
                        } else {
                            cdc::Event::Tx(data.payload)
                        },
                    );
                    Some(Ok(DeviceEvent::from(InterfaceEvent::Class(ev))))
                } else {
                    None
                }
            },
            None => None,
        }
    }
}

impl Endpoint for msd::MsdEndpoint {
    open spec fn answers(&self, transaction: TransactionView) -> Option<
        Result<DeviceEventView, DecodeError>,
    > {
        None
    }

    /// Reports nothing.
    fn update(&mut self, _timestamp: Timestamp, _transaction: Transaction) -> (r: Option<
        Result<DeviceEvent, DecodeError>,
    >)
        ensures
            *final(self) == *old(self),
    {
        None
    }
}

impl Endpoint for EndpointHandler {
    open spec fn answers(&self, transaction: TransactionView) -> Option<
        Result<DeviceEventView, DecodeError>,
    > {
        handler_update(*self, transaction)
    }

    /// Hands the transaction to the handler of the class.
    fn update(&mut self, timestamp: Timestamp, transaction: Transaction) -> (r: Option<
        Result<DeviceEvent, DecodeError>,
    >)
        ensures
            *final(self) == *old(self),
    {
        match *self {
            EndpointHandler::Cdc(endpoint) => {
                let mut endpoint = endpoint;
                endpoint.update(timestamp, transaction)
            },
            EndpointHandler::Msd(endpoint) => {
                let mut endpoint = endpoint;
                endpoint.update(timestamp, transaction)
            },
        }
    }
}

/// What a transaction does to a device: the state of the control transfer
/// and the registry after it, and what is handed out, if anything.
///
/// Endpoint zero is the control endpoint. A transaction for another endpoint
/// goes to the handler registered for it, and is refused where there is none.
pub open spec fn device_step(
    state: control::RequestStateView,
    endpoints: Map<usize, EndpointHandler>,
    transaction: TransactionView,
) -> (
    control::RequestStateView,
    Map<usize, EndpointHandler>,
    Option<Result<DeviceEventView, DecodeError>>,
) {
    let endpt = transaction.token.endpoint as usize;
    if endpt == 0 {
        let (after, out) = control::control_step(state, transaction);
        (after, control::endpoints_after(endpoints), out)
    } else if endpoints.contains_key(endpt) {
        (state, endpoints, handler_update(endpoints[endpt], transaction))
    } else {
        (state, endpoints, Some(Err(DecodeError::InvalidEndpoint(endpt))))
    }
}

/// What one call of `next` makes of the events in `input`: the event handed
/// out, if any, the state of the control transfer and the registry reached,
/// and the input left for later calls.
///
/// A diagnostic from upstream and a bus reset come out; a start of frame is
/// passed over; a transaction is handed to its endpoint, and read on from
/// where that gives nothing.
pub open spec fn next_device_event(
    state: control::RequestStateView,
    endpoints: Map<usize, EndpointHandler>,
    input: Seq<PipeEvent<protocol::EventView>>,
) -> (
    Option<PipeEvent<DeviceEventView>>,
    control::RequestStateView,
    Map<usize, EndpointHandler>,
    Seq<PipeEvent<protocol::EventView>>,
)
    decreases input.len(),
{
    if input.len() == 0 {
        (None, state, endpoints, input)
    } else {
        let rest = input.subrange(1, input.len() as int);
        let ts = input[0].0;
        match input[0].1 {
            Err(e) => (Some((ts, Err(e))), state, endpoints, rest),
            Ok(protocol::EventView::Sof(_)) => next_device_event(state, endpoints, rest),
            Ok(protocol::EventView::Reset) => (
                Some((ts, Ok(DeviceEventView::Reset))),
                state,
                endpoints,
                rest,
            ),
            Ok(protocol::EventView::Transaction(transaction)) => {
                let (after, registry, out) = device_step(state, endpoints, transaction);
                match out {
                    Some(res) => (Some((ts, res)), after, registry, rest),
                    None => next_device_event(after, registry, rest),
                }
            },
        }
    }
}

/// The device stage: it owns the protocol events still to be read, the
/// control endpoint and the registry of the other endpoints.
pub struct DeviceEventIterator {
    it: VecDeque<PipeEvent<protocol::Event>>,
    control: control::ControlEndpoint,
    endpoints: HashMap<usize, EndpointHandler>,
}

impl DeviceEventIterator {
    /// The protocol events that no call of `next` has read yet.
    pub closed spec fn pending(&self) -> Seq<PipeEvent<protocol::EventView>> {
        stream_view(self.it@)
    }

    /// Where the control transfer in progress stands.
    pub closed spec fn control_state(&self) -> control::RequestStateView {
        self.control.state()
    }

    /// The handlers registered for the endpoints other than endpoint zero.
    pub closed spec fn registry(&self) -> Map<usize, EndpointHandler> {
        self.endpoints@
    }

    pub fn new(input: VecDeque<PipeEvent<protocol::Event>>) -> (r: Self)
        ensures
            r.pending() == stream_view(input@),
            r.control_state() == control::RequestStateView::Idle,
            r.registry() == Map::<usize, EndpointHandler>::empty(),
    {
        Self { it: input, control: control::ControlEndpoint::new(), endpoints: HashMap::new() }
    }

    /// Reads protocol events until one of them gives a device event or a
    /// diagnostic, and hands that out; `None` once the input is used up.
    pub fn next(&mut self) -> (r: Option<PipeEvent<DeviceEvent>>)
        ensures
            (
                next_view(r),
                final(self).control_state(),
                final(self).registry(),
                final(self).pending(),
            ) == next_device_event(
                old(self).control_state(),
                old(self).registry(),
                old(self).pending(),
            ),
    {
        loop
            invariant
                next_device_event(self.control.state(), self.endpoints@, stream_view(self.it@))
                    == next_device_event(
                    old(self).control.state(),
                    old(self).endpoints@,
                    stream_view(old(self).it@),
                ),
            decreases self.it@.len(),
        {
            let ghost held = self.it@;
            let popped = self.it.pop_front();
            proof {
                if held.len() > 0 {
                    assert(stream_view(held).subrange(1, held.len() as int) =~= stream_view(
                        self.it@,
                    ));
                    assert(stream_view(held)[0] == crate::pipeline::event_view(held[0]));
                } else {
                    assert(stream_view(held).len() == 0);
                }
            }
            let (ts, event) = match popped {
                None => {
                    return None;
                },
                Some((ts, Err(e))) => {
                    return Some((ts, Err(e)));
                },
                Some((ts, Ok(event))) => (ts, event),
            };
            match event {
                protocol::Event::Sof(_) => {},
                protocol::Event::Reset => {
                    return Some((ts, Ok(DeviceEvent::Reset)));
                },
                protocol::Event::Transaction(transaction) => {
                    let endpt: usize = transaction.token.endpoint as usize;
                    let res = if endpt == 0 {
                        self.control.update(ts, transaction, &mut self.endpoints)
                    } else {
                        match self.endpoints.get(&endpt) {
                            Some(handler) => {
                                let mut handler = *handler;
                                handler.update(ts, transaction)
                            },
                            None => Some(Err(DecodeError::InvalidEndpoint(endpt))),
                        }
                    };
                    if let Some(res) = res {
                        return Some((ts, res));
                    }
                },
            }
        }
    }
}

/// Where an event of `next_device_event` comes from: it carries the timestamp
/// of the last protocol event read, and what is left is the input after that event.
pub proof fn lemma_next_device_event_source(
    state: control::RequestStateView,
    endpoints: Map<usize, EndpointHandler>,
    input: Seq<PipeEvent<protocol::EventView>>,
)
    ensures
        ({
            let (out, _, _, rest) = next_device_event(state, endpoints, input);
            &&& rest.len() <= input.len()
            &&& rest == input.subrange(input.len() - rest.len(), input.len() as int)
            &&& out is Some ==> rest.len() < input.len() && out.unwrap().0 == input[input.len()
                - rest.len() - 1].0
            &&& out is None ==> rest.len() == 0
        }),
    decreases input.len(),
{
    if input.len() > 0 {
        let rest = input.subrange(1, input.len() as int);
        assert(rest == input.subrange(input.len() - rest.len(), input.len() as int));
        match input[0].1 {
            Ok(protocol::EventView::Sof(_)) => {
                lemma_next_device_event_source(state, endpoints, rest);
                let r = next_device_event(state, endpoints, rest).3;
                assert(r == input.subrange(input.len() - r.len(), input.len() as int));
            },
            Ok(protocol::EventView::Transaction(transaction)) => {
                let (after, registry, out) = device_step(state, endpoints, transaction);
                if out is None {
                    lemma_next_device_event_source(after, registry, rest);
                    let r = next_device_event(after, registry, rest).3;
                    assert(r == input.subrange(input.len() - r.len(), input.len() as int));
                }
            },
            _ => {},
        }
    } else {
        assert(input == input.subrange(0, 0));
    }
}

/// Device events leave the stage in the order of time: where the protocol
/// events come in with timestamps that never decrease, two events handed out
/// one after the other carry timestamps that do not decrease either.
pub proof fn lemma_device_events_in_order(
    state: control::RequestStateView,
    endpoints: Map<usize, EndpointHandler>,
    input: Seq<PipeEvent<protocol::EventView>>,
)
    requires
        ordered(input),
    ensures
        ({
            let first = next_device_event(state, endpoints, input);
            let second = next_device_event(first.1, first.2, first.3);
            first.0 is Some && second.0 is Some ==> first.0.unwrap().0 <= second.0.unwrap().0
        }),
{
    let first = next_device_event(state, endpoints, input);
    lemma_next_device_event_source(state, endpoints, input);
    lemma_next_device_event_source(first.1, first.2, first.3);
}

/// All the events that the stage hands out from here on.
pub open spec fn all_device_events(
    state: control::RequestStateView,
    endpoints: Map<usize, EndpointHandler>,
    input: Seq<PipeEvent<protocol::EventView>>,
) -> Seq<PipeEvent<DeviceEventView>>
    decreases input.len(),
{
    let r = next_device_event(state, endpoints, input);
    match r.0 {
        Some(e) => if r.3.len() < input.len() {
            seq![e] + all_device_events(r.1, r.2, r.3)
        } else {
            seq![e]
        },
        None => Seq::empty(),
    }
}

impl EventIterator for DeviceEventIterator {
    type Item = DeviceEvent;

    open spec fn ready(&self) -> bool {
        true
    }

    open spec fn upcoming(&self) -> Seq<PipeEvent<DeviceEventView>> {
        all_device_events(self.control_state(), self.registry(), self.pending())
    }

    fn next(&mut self) -> (r: Option<PipeEvent<DeviceEvent>>) {
        proof {
            lemma_next_device_event_source(self.control_state(), self.registry(), self.pending());
        }
        let r = DeviceEventIterator::next(self);
        proof {
            let before = old(self).upcoming();
            if r is Some {
                assert(before.subrange(1, before.len() as int) =~= self.upcoming());
            }
        }
        r
    }

    fn event_type(&self) -> (r: EventType)
        ensures
            r == EventType::DeviceEvent,
    {
        EventType::DeviceEvent
    }

    fn event_type_name(&self) -> (r: &'static str)
        ensures
            r@ == "usb::device::DeviceEvent"@,
    {
        "usb::device::DeviceEvent"
    }
}

/// What the device stage makes of the stream at the top of a pipeline: the
/// device events of its transactions, or, where it holds no transactions, of
/// the transactions that a protocol stage makes of it.
pub open spec fn device_output(top: StreamView) -> Result<StreamView, PipelineError> {
    let input = match top {
        StreamView::UsbTransaction(_) => Ok::<StreamView, PipelineError>(top),
        _ => crate::usb::protocol::protocol_output(top),
    };
    match input {
        Ok(StreamView::UsbTransaction(events)) => Ok(
            StreamView::DeviceEvent(
                all_device_events(control::RequestStateView::Idle, Map::empty(), events),
            ),
        ),
        Ok(_) => Err(PipelineError::MissingSource(StageKind::UsbDevice)),
        Err(e) => Err(e),
    }
}

/// Puts the device stage onto a pipeline: the stage takes the place of the
/// stream of transactions at the top, after a protocol stage was put there
/// where the top holds something else.
pub fn build(pipeline: &mut Vec<Stream>) -> (r: Result<(), PipelineError>)
    ensures
        build_result(
            old(pipeline)@,
            final(pipeline)@,
            r,
            replaced(
                views(old(pipeline)@),
                StageKind::UsbDevice,
                device_output(views(old(pipeline)@).last()),
            ),
        ),
{
    if pipeline.len() == 0 {
        return Err(PipelineError::MissingSource(StageKind::UsbDevice));
    }
    let ghost at_first = views(pipeline@);
    let fits: bool = match pipeline[pipeline.len() - 1].event_type() {
        EventType::UsbTransaction => true,
        _ => false,
    };
    if !fits {
        match crate::usb::protocol::build(pipeline) {
            Err(e) => {
                return Err(e);
            },
            Ok(()) => {},
        }
        proof {
            let made = crate::usb::protocol::protocol_output(at_first.last());
            assert(made is Ok);
            assert(views(pipeline@) == at_first.drop_last().push(made.unwrap()));
        }
    }
    let ghost before = views(pipeline@);
    proof {
        assert(before.len() == pipeline@.len());
        assert(before.len() == at_first.len());
        assert(before.last() == pipeline@.last()@);
    }
    let top = pop_top(pipeline);
    proof {
        assert(views(pipeline@) =~= before.drop_last());
        assert(before.drop_last() =~= at_first.drop_last());
        assert(before.drop_last().push(top@) =~= before);
    }
    match top {
        Stream::UsbTransaction(events) => {
            let mut stage = DeviceEventIterator::new(events);
            let out = drain(&mut stage);
            push_top(pipeline, Stream::DeviceEvent(out));
            Ok(())
        },
        other => {
            push_top(pipeline, other);
            Err(PipelineError::MissingSource(StageKind::UsbDevice))
        },
    }
}

impl From<ClassEvent> for InterfaceEvent {
    /// An event of a class is an event of the interface that has the class.
    fn from(from: ClassEvent) -> (r: InterfaceEvent) {
        InterfaceEvent::Class(from)
    }
}

impl vstd::std_specs::convert::FromSpecImpl<ClassEvent> for InterfaceEvent {
    open spec fn obeys_from_spec() -> bool {
        true
    }

    open spec fn from_spec(from: ClassEvent) -> InterfaceEvent {
        InterfaceEvent::Class(from)
    }
}

impl From<InterfaceEvent> for DeviceEvent {
    /// An event of an interface is an event of its device.
    fn from(from: InterfaceEvent) -> (r: DeviceEvent) {
        DeviceEvent::Interface(from)
    }
}

impl vstd::std_specs::convert::FromSpecImpl<InterfaceEvent> for DeviceEvent {
    open spec fn obeys_from_spec() -> bool {
        true
    }

    open spec fn from_spec(from: InterfaceEvent) -> DeviceEvent {
        DeviceEvent::Interface(from)
    }
}

} // verus!
