//! Endpoint zero: the setup, data and status stages of a control transfer.
use vstd::prelude::*;
use std::collections::HashMap;
use crate::error::ControlError;
use crate::error::DecodeError;
use crate::error::DescriptorError;
use crate::time::Timestamp;
use crate::usb::protocol::Transaction;
use crate::usb::protocol::TransactionView;
use crate::usb::types::DataPID;
use crate::usb::types::HandShake;
use crate::usb::types::TokenType;
use super::cdc::CdCEndpoint;
use super::DeviceEvent;
use super::DeviceEventView;
use super::EndpointHandler;
use super::types::DataPhaseTransferDirection;
use super::types::Descriptor;
use super::types::DescriptorView;
use super::types::DeviceRequest;
use super::types::ERequest;
use super::types::parse_descriptor;
use super::types::parse_request;
use super::types::Request;
use super::types::StandardRequest;
use super::update_view;

verus! {

broadcast use vstd::std_specs::hash::group_hash_axioms;

/// What a control transfer brought, once its status stage is through.
#[derive(Debug, Clone, PartialEq, Eq)]
pub enum Event {
    /// The request of the transfer, and what its data stage carried, if it had one.
    Completed { request: Request, response: Option<Response> },
}

#[derive(Debug, Clone, PartialEq, Eq)]
pub enum Response {
    Unknown(Vec<u8>),
    Descriptor(Descriptor),
}

/// What a response is, apart from where its contents are stored.
pub enum ResponseView {
    Unknown(Seq<u8>),
    Descriptor(DescriptorView),
}

impl View for Response {
    type V = ResponseView;

    open spec fn view(&self) -> ResponseView {
        match *self {
            Response::Unknown(v) => ResponseView::Unknown(v@),
            Response::Descriptor(d) => ResponseView::Descriptor(d@),
        }
    }
}

/// What a control event is, apart from where its contents are stored.
pub enum EventView {
    Completed { request: Request, response: Option<ResponseView> },
}

impl View for Event {
    type V = EventView;

    open spec fn view(&self) -> EventView {
        match *self {
            Event::Completed { request, response } => EventView::Completed {
                request,
                response: match response {
                    Some(r) => Some(r@),
                    None => None,
                },
            },
        }
    }
}

/// Where a control transfer stands.
#[derive(Debug, Clone, PartialEq, Eq)]
pub enum RequestState {
    Idle,
    /// In the data stage of the request, with the bytes gathered so far.
    Data(Request, Option<Vec<u8>>),
    /// Waiting for the status stage; the flag says that the stage came before
    /// the data stage had brought all its bytes.
    Status(Request, Option<Vec<u8>>, bool),
}

/// What the state of a transfer is, apart from where its bytes are stored.
pub enum RequestStateView {
    Idle,
    Data(Request, Option<Seq<u8>>),
    Status(Request, Option<Seq<u8>>, bool),
}

/// The bytes of a buffer that may be absent.
pub open spec fn buffer_view(b: Option<Vec<u8>>) -> Option<Seq<u8>> {
    match b {
        Some(v) => Some(v@),
        None => None,
    }
}

impl View for RequestState {
    type V = RequestStateView;

    open spec fn view(&self) -> RequestStateView {
        match *self {
            RequestState::Idle => RequestStateView::Idle,
            RequestState::Data(r, b) => RequestStateView::Data(r, buffer_view(b)),
            RequestState::Status(r, b, early) => RequestStateView::Status(r, buffer_view(b), early),
        }
    }
}

/// The handlers that stand in for a configuration not yet read: the
/// endpoints 1, 2, 3 and 6 as endpoints of a communications device.
pub open spec fn default_endpoints() -> Map<usize, EndpointHandler> {
    Map::<usize, EndpointHandler>::empty().insert(1, EndpointHandler::Cdc(CdCEndpoint(4))).insert(
        2,
        EndpointHandler::Cdc(CdCEndpoint(5)),
    ).insert(3, EndpointHandler::Cdc(CdCEndpoint(5))).insert(
        6,
        EndpointHandler::Cdc(CdCEndpoint(5)),
    )
}

/// The registry after a control transaction: one that was empty gets the
/// default handlers, any other stays as it is.
pub open spec fn endpoints_after(endpoints: Map<usize, EndpointHandler>) -> Map<
    usize,
    EndpointHandler,
> {
    if endpoints.len() == 0 {
        default_endpoints()
    } else {
        endpoints
    }
}

/// What the bytes of a data stage are, as the answer to `request`: the
/// descriptor asked for, if the request was a standard GetDescriptor, and the
/// bytes themselves otherwise.
pub open spec fn response_of(request: Request, buffer: Seq<u8>) -> Result<
    ResponseView,
    DescriptorError,
> {
    match request.request {
        ERequest::Device(DeviceRequest::Standard(StandardRequest::GetDescriptor(t))) => {
            match parse_descriptor(t, buffer) {
                Ok(d) => Ok(ResponseView::Descriptor(d)),
                Err(e) => Err(e),
            }
        },
        _ => Ok(ResponseView::Unknown(buffer)),
    }
}

/// An outcome that ends the transfer with a diagnostic.
pub open spec fn failed(e: ControlError) -> (
    RequestStateView,
    Option<Result<DeviceEventView, DecodeError>>,
) {
    (RequestStateView::Idle, Some(Err(DecodeError::Control(e))))
}

/// An IN or OUT transaction that arrives while the status stage is awaited.
///
/// A transfer to the device cannot end early. The transaction has an empty
/// DATA1 packet. Then the transfer is over: its request comes out, with what
/// the data stage carried, decoded where the request was a GetDescriptor.
pub open spec fn status_step(
    request: Request,
    buffer: Option<Seq<u8>>,
    early: bool,
    transaction: TransactionView,
) -> (RequestStateView, Option<Result<DeviceEventView, DecodeError>>) {
    if request.direction == DataPhaseTransferDirection::Out && early {
        failed(ControlError::EarlyStatus)
    } else {
        match transaction.data {
            None => failed(ControlError::MissingStatusData),
            Some(data) => if data.payload.len() != 0 {
                failed(ControlError::StatusPayload)
            } else if data.pid != DataPID::Data1 {
                failed(ControlError::StatusPid)
            } else {
                match buffer {
                    None => (
                        RequestStateView::Idle,
                        Some(
                            Ok(
                                DeviceEventView::Control(
                                    EventView::Completed { request, response: None },
                                ),
                            ),
                        ),
                    ),
                    Some(bytes) => match response_of(request, bytes) {
                        Ok(response) => (
                            RequestStateView::Idle,
                            Some(
                                Ok(
                                    DeviceEventView::Control(
                                        EventView::Completed { request, response: Some(response) },
                                    ),
                                ),
                            ),
                        ),
                        Err(e) => failed(ControlError::Descriptor(e)),
                    },
                }
            },
        }
    }
}

/// The token goes against the direction of the data stage.
pub open spec fn against(direction: DataPhaseTransferDirection, token_type: TokenType) -> bool {
    (direction == DataPhaseTransferDirection::In && token_type == TokenType::Out) || (direction
        == DataPhaseTransferDirection::Out && token_type == TokenType::In)
}

/// The bytes of a data stage that has brought nothing yet, or this much.
pub open spec fn gathered(buffer: Option<Seq<u8>>) -> Seq<u8> {
    match buffer {
        Some(b) => b,
        None => Seq::empty(),
    }
}

/// An IN or OUT transaction that arrives during the data stage.
///
/// One against the direction of the request is the status stage, come early.
/// Otherwise its payload joins the buffer, which may not grow beyond the
/// length that the request asked for; an empty payload or a full buffer ends
/// the data stage.
pub open spec fn data_step(
    request: Request,
    buffer: Option<Seq<u8>>,
    transaction: TransactionView,
) -> (RequestStateView, Option<Result<DeviceEventView, DecodeError>>) {
    if against(request.direction, transaction.token.token_type) {
        status_step(request, buffer, true, transaction)
    } else {
        match transaction.data {
            Some(data) => {
                let so_far = gathered(buffer);
                if data.payload.len() + so_far.len() > request.length {
                    failed(ControlError::PayloadTooLong)
                } else {
                    let bytes = so_far + data.payload;
                    if data.payload.len() == 0 || bytes.len() == request.length {
                        (RequestStateView::Status(request, Some(bytes), false), None)
                    } else {
                        (RequestStateView::Data(request, Some(bytes)), None)
                    }
                }
            },
            None => failed(
                ControlError::EmptyData {
                    remaining: match buffer {
                        Some(b) => if b.len() <= request.length {
                            (request.length - b.len()) as u16
                        } else {
                            0
                        },
                        None => 0,
                    },
                },
            ),
        }
    }
}

/// What a transaction on endpoint zero does to a transfer in `state`: the
/// state after it, and what is handed out, if anything.
///
/// A transaction that was not acknowledged changes nothing, unless it was
/// stalled or ended in another handshake, which ends the transfer. A setup
/// transaction starts a transfer when none is in progress; a request without
/// data goes straight to its status stage.
pub open spec fn control_step(state: RequestStateView, transaction: TransactionView) -> (
    RequestStateView,
    Option<Result<DeviceEventView, DecodeError>>,
) {
    match transaction.handshake {
        HandShake::NAck => (state, None),
        HandShake::Stall => failed(ControlError::Stalled),
        HandShake::Ack => match transaction.token.token_type {
            TokenType::Setup => match state {
                RequestStateView::Idle => match transaction.data {
                    None => failed(ControlError::MissingRequest),
                    Some(data) => match parse_request(data.payload) {
                        Err(e) => failed(ControlError::Request(e)),
                        Ok(request) => if request.length != 0 {
                            (RequestStateView::Data(request, None), None)
                        } else {
                            (RequestStateView::Status(request, None, false), None)
                        },
                    },
                },
                _ => failed(ControlError::UnexpectedSetup),
            },
            TokenType::Ping => failed(ControlError::OutOfSequence),
            _ => match state {
                RequestStateView::Idle => failed(ControlError::OutOfSequence),
                RequestStateView::Data(request, buffer) => data_step(request, buffer, transaction),
                RequestStateView::Status(request, buffer, early) => status_step(
                    request,
                    buffer,
                    early,
                    transaction,
                ),
            },
        },
        _ => failed(ControlError::UnexpectedHandshake),
    }
}

/// The control endpoint: the one transfer that may be in progress on endpoint zero.
pub struct ControlEndpoint {
    request_state: RequestState,
}

impl ControlEndpoint {
    /// Where the transfer in progress stands.
    pub closed spec fn state(&self) -> RequestStateView {
        self.request_state@
    }

    pub fn new() -> (r: Self)
        ensures
            r.state() == RequestStateView::Idle,
    {
        Self { request_state: RequestState::Idle }
    }

    fn bail(&mut self, e: ControlError) -> (r: Option<Result<DeviceEvent, DecodeError>>)
        ensures
            (final(self).state(), update_view(r)) == failed(e),
    {
        self.request_state = RequestState::Idle;
        Some(Err(DecodeError::Control(e)))
    }

    fn status(
        &mut self,
        request: Request,
        buffer: Option<Vec<u8>>,
        early: bool,
        transaction: Transaction,
    ) -> (r: Option<Result<DeviceEvent, DecodeError>>)
        ensures
            (final(self).state(), update_view(r)) == status_step(
                request,
                buffer_view(buffer),
                early,
                transaction@,
            ),
    {
        if early {
            if let DataPhaseTransferDirection::Out = request.direction {
                return self.bail(ControlError::EarlyStatus);
            }
        }
        let data = match transaction.data {
            Some(data) => data,
            None => {
                return self.bail(ControlError::MissingStatusData);
            },
        };
        if data.payload.len() != 0 {
            return self.bail(ControlError::StatusPayload);
        }
        match data.pid {
            DataPID::Data1 => {},
            _ => {
                return self.bail(ControlError::StatusPid);
            },
        }
        self.request_state = RequestState::Idle;
        let response = match buffer {
            None => None,
            Some(bytes) => match request.request {
                ERequest::Device(
                    DeviceRequest::Standard(StandardRequest::GetDescriptor(descriptor_type)),
                ) => match Descriptor::try_from((descriptor_type, bytes)) {
                    Ok(desc) => Some(Response::Descriptor(desc)),
                    Err(e) => {
                        return self.bail(ControlError::Descriptor(e));
                    },
                },
                _ => Some(Response::Unknown(bytes)),
            },
        };
        Some(Ok(DeviceEvent::Control(Event::Completed { request, response })))
    }

    /// Takes one transaction of endpoint zero.
    ///
    /// The transfer moves on as `control_step` says, and a transfer that
    /// completes its status stage comes out as an event. A registry without
    /// any handler gets the default ones.
    pub fn update(
        &mut self,
        _timestamp: Timestamp,
        transaction: Transaction,
        endpoints: &mut HashMap<usize, EndpointHandler>,
    ) -> (r: Option<Result<DeviceEvent, DecodeError>>)
        ensures
            (final(self).state(), update_view(r)) == control_step(old(self).state(), transaction@),
            final(endpoints)@ == endpoints_after(old(endpoints)@),
    {
        if endpoints.is_empty() {
            endpoints.insert(1, EndpointHandler::Cdc(CdCEndpoint(4)));
            endpoints.insert(2, EndpointHandler::Cdc(CdCEndpoint(5)));
            endpoints.insert(3, EndpointHandler::Cdc(CdCEndpoint(5)));
            endpoints.insert(6, EndpointHandler::Cdc(CdCEndpoint(5)));
        }
        match transaction.handshake {
            HandShake::NAck => {
                return None;
            },
            HandShake::Stall => {
                return self.bail(ControlError::Stalled);
            },
            HandShake::Ack => {},
            _ => {
                return self.bail(ControlError::UnexpectedHandshake);
            },
        }
        let mut state = RequestState::Idle;
        core::mem::swap(&mut state, &mut self.request_state);
        match transaction.token.token_type {
            TokenType::Setup => match state {
                RequestState::Idle => {
                    let request = match &transaction.data {
                        None => {
                            return self.bail(ControlError::MissingRequest);
                        },
                        Some(data) => match Request::try_from(data.payload.as_slice()) {
                            Ok(request) => request,
                            Err(e) => {
                                return self.bail(ControlError::Request(e));
                            },
                        },
                    };
                    if request.length != 0 {
                        self.request_state = RequestState::Data(request, None);
                    } else {
                        self.request_state = RequestState::Status(request, None, false);
                    }
                    None
                },
                _ => self.bail(ControlError::UnexpectedSetup),
            },
            TokenType::Ping => self.bail(ControlError::OutOfSequence),
            token_type => match state {
                RequestState::Idle => self.bail(ControlError::OutOfSequence),
                RequestState::Status(request, buffer, early) => self.status(
                    request,
                    buffer,
                    early,
                    transaction,
                ),
                RequestState::Data(request, buffer) => {
                    let contrary = match (request.direction, token_type) {
                        (DataPhaseTransferDirection::In, TokenType::Out) => true,
                        (DataPhaseTransferDirection::Out, TokenType::In) => true,
                        _ => false,
                    };
                    if contrary {
                        return self.status(request, buffer, true, transaction);
                    }
                    match transaction.data {
                        Some(data) => {
                            let mut buf: Vec<u8> = match buffer {
                                Some(b) => b,
                                None => Vec::new(),
                            };
                            let length: usize = request.length as usize;
                            if buf.len() > length || data.payload.len() > length - buf.len() {
                                return self.bail(ControlError::PayloadTooLong);
                            }
                            let is_zlp: bool = data.payload.len() == 0;
                            let mut payload: Vec<u8> = data.payload;
                            buf.append(&mut payload);
                            if is_zlp || buf.len() == length {
                                self.request_state = RequestState::Status(request, Some(buf), false);
                            } else {
                                self.request_state = RequestState::Data(request, Some(buf));
                            }
                            None
                        },
                        None => {
                            let remaining: u16 = match buffer {
                                Some(b) => if b.len() <= request.length as usize {
                                    (request.length as usize - b.len()) as u16
                                } else {
                                    0
                                },
                                None => 0,
                            };
                            self.bail(ControlError::EmptyData { remaining })
                        },
                    }
                },
            },
        }
    }
}

impl From<Event> for super::DeviceEvent {
    /// A control transfer is an event of its device.
    fn from(from: Event) -> (r: super::DeviceEvent) {
        super::DeviceEvent::Control(from)
    }
}

impl vstd::std_specs::convert::FromSpecImpl<Event> for super::DeviceEvent {
    open spec fn obeys_from_spec() -> bool {
        true
    }

    open spec fn from_spec(from: Event) -> super::DeviceEvent {
        super::DeviceEvent::Control(from)
    }
}

} // verus!
