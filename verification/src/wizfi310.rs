//! The traffic between a host and a WizFi310 module on a serial line:
//! commands, responses, and the data that pass through the module.
use vstd::prelude::*;
use vstd::slice::slice_subrange;
use std::collections::VecDeque;
use crate::bytes::decimal;
use crate::bytes::field;
use crate::bytes::final_field;
use crate::bytes::find;
use crate::bytes::index_of;
use crate::bytes::last_field;
use crate::bytes::nth_field;
use crate::bytes::parse_decimal;
use crate::error::DecodeError;
use crate::error::WizfiError;
use crate::pipeline::build_result;
use crate::pipeline::drain;
use crate::pipeline::Event;
use crate::pipeline::EventIterator;
use crate::pipeline::EventType;
use crate::pipeline::kind_of;
use crate::pipeline::next_view;
use crate::pipeline::ordered;
use crate::pipeline::PipelineError;
use crate::pipeline::pop_top;
use crate::pipeline::push_top;
use crate::pipeline::replaced;
use crate::pipeline::StageKind;
use crate::pipeline::Stream;
use crate::pipeline::StreamView;
use crate::pipeline::views;
use crate::serial::SerialEvent;

verus! {

/// What precedes received data: the socket, and the address and port that
/// the data came from.
#[derive(Debug, Clone, Copy, PartialEq, Eq)]
pub struct RecvHeader {
    pub socket_id: u8,
    pub ip: (u8, u8, u8, u8),
    pub port: u16,
}

#[derive(Debug, Clone, PartialEq, Eq)]
pub enum WizFi310Event {
    Command(String),
    Sent(String),
    Recv(RecvHeader, String),
    Resp(String),
}

/// What an event is, apart from where its text is stored.
pub enum WizFi310EventView {
    Command(Seq<char>),
    Sent(Seq<char>),
    Recv(RecvHeader, Seq<char>),
    Resp(Seq<char>),
}

impl View for WizFi310Event {
    type V = WizFi310EventView;

    open spec fn view(&self) -> WizFi310EventView {
        match *self {
            WizFi310Event::Command(s) => WizFi310EventView::Command(s@),
            WizFi310Event::Sent(s) => WizFi310EventView::Sent(s@),
            WizFi310Event::Recv(h, s) => WizFi310EventView::Recv(h, s@),
            WizFi310Event::Resp(s) => WizFi310EventView::Resp(s@),
        }
    }
}

/// The text that bytes spell, each byte the character with its number.
pub open spec fn text_of(bytes: Seq<u8>) -> Seq<char> {
    Seq::new(bytes.len(), |i: int| bytes[i] as char)
}

/// `String::push` of the standard library, with the character whose number
/// is `b`: the text is the text before with that character at its end.
#[verifier::external_body]
fn push_byte(s: &mut String, b: u8)
    ensures
        final(s)@ == old(s)@.push(b as char),
{
    s.push(b as char)
}

/// Makes the text that bytes spell.
pub fn to_text(bytes: &Vec<u8>) -> (r: String)
    ensures
        r@ == text_of(bytes@),
{
    let mut s = String::new();
    let mut i: usize = 0;
    proof {
        assert(s@ =~= text_of(bytes@).take(0));
    }
    while i < bytes.len()
        invariant
            i <= bytes@.len(),
            s@ == text_of(bytes@).take(i as int),
        decreases bytes@.len() - i,
    {
        push_byte(&mut s, bytes[i]);
        proof {
            assert(s@ =~= text_of(bytes@).take(i + 1));
        }
        i = i + 1;
    }
    proof {
        assert(text_of(bytes@).take(bytes@.len() as int) =~= text_of(bytes@));
    }
    s
}

/// The number that one part of a dotted address spells: one to three
/// digits, without a zero in front of another digit, that make at most 255.
pub open spec fn octet_of(f: Seq<u8>) -> Option<u8> {
    if 1 <= f.len() <= 3 && f[0] != 43 && (f.len() == 1 || f[0] != 48) {
        match decimal(f, 255) {
            Some(v) => Some(v as u8),
            None => None,
        }
    } else {
        None
    }
}

/// The address that the text `s` spells: four numbers with dots between them.
pub open spec fn address_of(s: Seq<u8>) -> Option<(u8, u8, u8, u8)> {
    if nth_field(s, 46, 4) is Some {
        None
    } else {
        match (nth_field(s, 46, 0), nth_field(s, 46, 1), nth_field(s, 46, 2), nth_field(s, 46, 3)) {
            (Some(a), Some(b), Some(c), Some(d)) => match (
                octet_of(a),
                octet_of(b),
                octet_of(c),
                octet_of(d),
            ) {
                (Some(a), Some(b), Some(c), Some(d)) => Some((a, b, c, d)),
                _ => None,
            },
            _ => None,
        }
    }
}

fn parse_octet(f: &[u8]) -> (r: Option<u8>)
    ensures
        r == octet_of(f@),
{
    let n: usize = f.len();
    if n < 1 || n > 3 {
        return None;
    }
    if f[0] == 43 {
        return None;
    }
    if n > 1 && f[0] == 48 {
        return None;
    }
    match parse_decimal(f, 255) {
        Some(v) => Some(v as u8),
        None => None,
    }
}

/// Reads a dotted address.
pub fn parse_address(s: &[u8]) -> (r: Option<(u8, u8, u8, u8)>)
    ensures
        r == address_of(s@),
{
    if field(s, 46, 4).is_some() {
        return None;
    }
    let a = match field(s, 46, 0) {
        Some(f) => parse_octet(f),
        None => {
            return None;
        },
    };
    let b = match field(s, 46, 1) {
        Some(f) => parse_octet(f),
        None => {
            return None;
        },
    };
    let c = match field(s, 46, 2) {
        Some(f) => parse_octet(f),
        None => {
            return None;
        },
    };
    let d = match field(s, 46, 3) {
        Some(f) => parse_octet(f),
        None => {
            return None;
        },
    };
    match (a, b, c, d) {
        (Some(a), Some(b), Some(c), Some(d)) => Some((a, b, c, d)),
        _ => None,
    }
}

/// What a header says: socket, address, port and the length of the data
/// that follow, with commas between them.
pub open spec fn header_of(h: Seq<u8>) -> Option<(RecvHeader, usize)> {
    match (nth_field(h, 44, 0), nth_field(h, 44, 1), nth_field(h, 44, 2), nth_field(h, 44, 3)) {
        (Some(socket), Some(ip), Some(port), Some(length)) => match (
            decimal(socket, 255),
            address_of(ip),
            decimal(port, 65535),
            decimal(length, usize::MAX as u64),
        ) {
            (Some(socket_id), Some(ip), Some(port), Some(length)) => Some(
                (RecvHeader { socket_id: socket_id as u8, ip, port: port as u16 }, length as usize),
            ),
            _ => None,
        },
        _ => None,
    }
}

/// Reads a header.
pub fn parse_header(h: &[u8]) -> (r: Option<(RecvHeader, usize)>)
    ensures
        r == header_of(h@),
{
    let socket = match field(h, 44, 0) {
        Some(f) => parse_decimal(f, 255),
        None => {
            return None;
        },
    };
    let ip = match field(h, 44, 1) {
        Some(f) => parse_address(f),
        None => {
            return None;
        },
    };
    let port = match field(h, 44, 2) {
        Some(f) => parse_decimal(f, 65535),
        None => {
            return None;
        },
    };
    let length = match field(h, 44, 3) {
        Some(f) => parse_decimal(f, usize::MAX as u64),
        None => {
            return None;
        },
    };
    match (socket, ip, port, length) {
        (Some(socket_id), Some(ip), Some(port), Some(length)) => Some(
            (RecvHeader { socket_id: socket_id as u8, ip, port: port as u16 }, length as usize),
        ),
        _ => None,
    }
}

/// Where the decoder stands: how many characters of data the host is about
/// to send, the header of the data that the module is about to hand on with
/// the number of their characters, and the characters gathered in each
/// direction.
pub struct WizState {
    pub data_to_send: usize,
    pub receiving: Option<(RecvHeader, usize)>,
    pub tx: Seq<u8>,
    pub rx: Seq<u8>,
}

/// Whether a line from the module announces data to send: it stands in
/// brackets, ends the line after them, and holds a comma.
pub open spec fn announces_send(rx: Seq<u8>) -> bool {
    &&& rx.len() >= 4
    &&& rx[0] == 91
    &&& rx[rx.len() - 3] == 93
    &&& rx[rx.len() - 2] == 13
    &&& rx[rx.len() - 1] == 10
    &&& index_of(rx, 44, 0) < rx.len()
}

/// What a character from the host does.
///
/// While data are to be sent, the characters are gathered until they are as
/// many as announced, and come out as what was sent. Otherwise a carriage
/// return ends a command.
pub open spec fn tx_step(s: WizState, c: u8) -> (
    WizState,
    Option<Result<WizFi310EventView, DecodeError>>,
) {
    let tx = s.tx.push(c);
    if s.data_to_send != 0 {
        if s.data_to_send == tx.len() {
            (
                WizState { data_to_send: 0, tx: Seq::empty(), ..s },
                Some(Ok(WizFi310EventView::Sent(text_of(tx)))),
            )
        } else {
            (WizState { tx, ..s }, None)
        }
    } else if c == 13 {
        (WizState { tx: Seq::empty(), ..s }, Some(Ok(WizFi310EventView::Command(text_of(tx)))))
    } else {
        (WizState { tx, ..s }, None)
    }
}

/// What a character from the module does.
///
/// While data are to be received, the characters are gathered until they
/// are as many as the header said, and come out with the header. Otherwise a
/// line feed ends a response; a response in brackets with a comma announces
/// data to send, whose length is its last field. A closing brace ends a
/// header, which stands between the first character gathered and the brace.
pub open spec fn rx_step(s: WizState, c: u8) -> (
    WizState,
    Option<Result<WizFi310EventView, DecodeError>>,
) {
    let rx = s.rx.push(c);
    if s.receiving is Some && s.receiving.unwrap().1 != 0 {
        if s.receiving.unwrap().1 == rx.len() {
            (
                WizState { receiving: None, rx: Seq::empty(), ..s },
                Some(Ok(WizFi310EventView::Recv(s.receiving.unwrap().0, text_of(rx)))),
            )
        } else {
            (WizState { rx, ..s }, None)
        }
    } else if c == 10 {
        if announces_send(rx) {
            match decimal(last_field(rx.subrange(1, rx.len() - 3), 44), usize::MAX as u64) {
                Some(n) => (
                    WizState { data_to_send: n as usize, rx: Seq::empty(), ..s },
                    Some(Ok(WizFi310EventView::Resp(text_of(rx)))),
                ),
                None => (
                    WizState { rx: Seq::empty(), ..s },
                    Some(Err(DecodeError::Wizfi(WizfiError::InvalidLength))),
                ),
            }
        } else {
            (WizState { rx: Seq::empty(), ..s }, Some(Ok(WizFi310EventView::Resp(text_of(rx)))))
        }
    } else if c == 125 {
        if rx.len() < 2 {
            (
                WizState { rx: Seq::empty(), ..s },
                Some(Err(DecodeError::Wizfi(WizfiError::InvalidHeader))),
            )
        } else {
            match header_of(rx.subrange(1, rx.len() - 1)) {
                Some((h, n)) => (WizState { receiving: Some((h, n)), rx: Seq::empty(), ..s }, None),
                None => (
                    WizState { rx: Seq::empty(), ..s },
                    Some(Err(DecodeError::Wizfi(WizfiError::InvalidHeader))),
                ),
            }
        }
    } else {
        (WizState { rx, ..s }, None)
    }
}

/// What one event of the serial line does to the decoder: the state after
/// it, and what it gives, if anything. Only characters count.
pub open spec fn wizfi_step(s: WizState, ev: SerialEvent) -> (
    WizState,
    Option<Result<WizFi310EventView, DecodeError>>,
) {
    match ev {
        SerialEvent::Tx(c) => tx_step(s, c),
        SerialEvent::Rx(c) => rx_step(s, c),
        _ => (s, None),
    }
}

/// What one call of `next` makes of the events in `input`: the event handed
/// out, if any, the state reached, and the input left for later calls. A
/// diagnostic from upstream comes out unchanged and leaves the state alone.
pub open spec fn next_wizfi(s: WizState, input: Seq<Event<SerialEvent>>) -> (
    Option<Event<WizFi310EventView>>,
    WizState,
    Seq<Event<SerialEvent>>,
)
    decreases input.len(),
{
    if input.len() == 0 {
        (None, s, input)
    } else {
        let rest = input.subrange(1, input.len() as int);
        let ts = input[0].0;
        match input[0].1 {
            Err(e) => (Some((ts, Err(e))), s, rest),
            Ok(ev) => {
                let (after, out) = wizfi_step(s, ev);
                match out {
                    Some(res) => (Some((ts, res)), after, rest),
                    None => next_wizfi(after, rest),
                }
            },
        }
    }
}

/// The WizFi310 stage: it owns the serial events still to be read.
pub struct Wizfi310 {
    it: VecDeque<Event<SerialEvent>>,
    data_to_send: usize,
    receiving: Option<(RecvHeader, usize)>,
    tx: Vec<u8>,
    rx: Vec<u8>,
}

/// What an update handed out, with its text seen through its view.
pub open spec fn result_view(r: Option<Result<WizFi310Event, DecodeError>>) -> Option<
    Result<WizFi310EventView, DecodeError>,
> {
    match r {
        Some(Ok(e)) => Some(Ok(e@)),
        Some(Err(e)) => Some(Err(e)),
        None => None,
    }
}

impl Wizfi310 {
    /// The serial events that no call of `next` has read yet.
    pub closed spec fn pending(&self) -> Seq<Event<SerialEvent>> {
        self.it@
    }

    /// Where the decoder stands.
    pub closed spec fn state(&self) -> WizState {
        WizState {
            data_to_send: self.data_to_send,
            receiving: self.receiving,
            tx: self.tx@,
            rx: self.rx@,
        }
    }

    pub fn new(input: VecDeque<Event<SerialEvent>>) -> (r: Wizfi310)
        ensures
            r.pending() == input@,
            r.state() == (WizState {
                data_to_send: 0,
                receiving: None,
                tx: Seq::empty(),
                rx: Seq::empty(),
            }),
    {
        Self { it: input, data_to_send: 0, receiving: None, tx: Vec::new(), rx: Vec::new() }
    }

    /// Takes a character from the host.
    fn on_tx(&mut self, c: u8) -> (r: Option<Result<WizFi310Event, DecodeError>>)
        ensures
            (final(self).state(), result_view(r)) == tx_step(old(self).state(), c),
            final(self).it@ == old(self).it@,
    {
        self.tx.push(c);
        if self.data_to_send != 0 {
            if self.data_to_send == self.tx.len() {
                self.data_to_send = 0;
                let v = to_text(&self.tx);
                self.tx.clear();
                Some(Ok(WizFi310Event::Sent(v)))
            } else {
                None
            }
        } else if c == 13 {
            let v = to_text(&self.tx);
            self.tx.clear();
            Some(Ok(WizFi310Event::Command(v)))
        } else {
            None
        }
    }

    /// Takes a character from the module.
    fn on_rx(&mut self, c: u8) -> (r: Option<Result<WizFi310Event, DecodeError>>)
        ensures
            (final(self).state(), result_view(r)) == rx_step(old(self).state(), c),
            final(self).it@ == old(self).it@,
    {
        self.rx.push(c);
        let n: usize = self.rx.len();
        let expected: Option<(RecvHeader, usize)> = match self.receiving {
            Some((h, length)) => if length != 0 {
                Some((h, length))
            } else {
                None
            },
            None => None,
        };
        if let Some((h, length)) = expected {
            if length == n {
                self.receiving = None;
                let v = to_text(&self.rx);
                self.rx.clear();
                Some(Ok(WizFi310Event::Recv(h, v)))
            } else {
                None
            }
        } else if c == 10 {
            let announces: bool = n >= 4 && self.rx[0] == 91 && self.rx[n - 3] == 93 && self.rx[n
                - 2] == 13 && find(self.rx.as_slice(), 44, 0) < n;
            if announces {
                let line: &[u8] = slice_subrange(self.rx.as_slice(), 1, n - 3);
                match parse_decimal(final_field(line, 44), usize::MAX as u64) {
                    Some(size) => {
                        self.data_to_send = size as usize;
                    },
                    None => {
                        self.rx.clear();
                        return Some(Err(DecodeError::Wizfi(WizfiError::InvalidLength)));
                    },
                }
            }
            let v = to_text(&self.rx);
            self.rx.clear();
            Some(Ok(WizFi310Event::Resp(v)))
        } else if c == 125 {
            if n < 2 {
                self.rx.clear();
                return Some(Err(DecodeError::Wizfi(WizfiError::InvalidHeader)));
            }
            let parsed = parse_header(slice_subrange(self.rx.as_slice(), 1, n - 1));
            self.rx.clear();
            match parsed {
                Some((h, length)) => {
                    self.receiving = Some((h, length));
                    None
                },
                None => Some(Err(DecodeError::Wizfi(WizfiError::InvalidHeader))),
            }
        } else {
            None
        }
    }

    /// Reads serial events until one of them completes a command, a
    /// response or a run of data, and hands that out; `None` once the input is
    /// used up.
    pub fn next(&mut self) -> (r: Option<Event<WizFi310Event>>)
        ensures
            (next_view(r), final(self).state(), final(self).pending()) == next_wizfi(
                old(self).state(),
                old(self).pending(),
            ),
    {
        loop
            invariant
                next_wizfi(self.state(), self.it@) == next_wizfi(old(self).state(), old(self).it@),
            decreases self.it@.len(),
        {
            let (ts, ev) = match self.it.pop_front() {
                None => {
                    return None;
                },
                Some((ts, Err(e))) => {
                    return Some((ts, Err(e)));
                },
                Some((ts, Ok(ev))) => (ts, ev),
            };
            let out = match ev {
                SerialEvent::Tx(c) => self.on_tx(c),
                SerialEvent::Rx(c) => self.on_rx(c),
                _ => None,
            };
            match out {
                Some(Ok(e)) => {
                    return Some((ts, Ok(e)));
                },
                Some(Err(e)) => {
                    return Some((ts, Err(e)));
                },
                None => {},
            }
        }
    }
}

/// Where an event of `next_wizfi` comes from: it carries the timestamp of the
/// last serial event read, and what is left is the input after that event.
pub proof fn lemma_next_wizfi_source(s: WizState, input: Seq<Event<SerialEvent>>)
    ensures
        ({
            let (out, _, rest) = next_wizfi(s, input);
            &&& rest.len() <= input.len()
            &&& rest == input.subrange(input.len() - rest.len(), input.len() as int)
            &&& out is Some ==> rest.len() < input.len() && out.unwrap().0 == input[input.len()
                - rest.len() - 1].0
            &&& out is None ==> rest.len() == 0
        }),
    decreases input.len(),
{
    if input.len() > 0 {
        let rest = input.subrange(1, input.len() as int);
        assert(rest == input.subrange(input.len() - rest.len(), input.len() as int));
        if let Ok(ev) = input[0].1 {
            let (after, out) = wizfi_step(s, ev);
            if out is None {
                lemma_next_wizfi_source(after, rest);
                let r = next_wizfi(after, rest).2;
                assert(r == input.subrange(input.len() - r.len(), input.len() as int));
            }
        }
    } else {
        assert(input == input.subrange(0, 0));
    }
}

/// Events leave the stage in the order of time: where the serial events
/// come in with timestamps that never decrease, two events handed out one
/// after the other carry timestamps that do not decrease either.
pub proof fn lemma_wizfi_in_order(s: WizState, input: Seq<Event<SerialEvent>>)
    requires
        ordered(input),
    ensures
        ({
            let first = next_wizfi(s, input);
            let second = next_wizfi(first.1, first.2);
            first.0 is Some && second.0 is Some ==> first.0.unwrap().0 <= second.0.unwrap().0
        }),
{
    let first = next_wizfi(s, input);
    lemma_next_wizfi_source(s, input);
    lemma_next_wizfi_source(first.1, first.2);
}

/// All the events that the stage hands out from here on.
pub open spec fn all_wizfi(s: WizState, input: Seq<Event<SerialEvent>>) -> Seq<Event<WizFi310EventView>>
    decreases input.len(),
{
    let r = next_wizfi(s, input);
    match r.0 {
        Some(e) => if r.2.len() < input.len() {
            seq![e] + all_wizfi(r.1, r.2)
        } else {
            seq![e]
        },
        None => Seq::empty(),
    }
}

impl EventIterator for Wizfi310 {
    type Item = WizFi310Event;

    open spec fn ready(&self) -> bool {
        true
    }

    open spec fn upcoming(&self) -> Seq<Event<WizFi310EventView>> {
        all_wizfi(self.state(), self.pending())
    }

    fn next(&mut self) -> (r: Option<Event<WizFi310Event>>) {
        proof {
            lemma_next_wizfi_source(self.state(), self.pending());
        }
        let r = Wizfi310::next(self);
        proof {
            let before = old(self).upcoming();
            if r is Some {
                assert(before.subrange(1, before.len() as int) =~= self.upcoming());
            }
        }
        r
    }

    fn event_type(&self) -> (r: EventType)
        ensures
            r == EventType::WizFi310Event,
    {
        EventType::WizFi310Event
    }

    fn event_type_name(&self) -> (r: &'static str)
        ensures
            r@ == "wizfi310::WizFi310Event"@,
    {
        "wizfi310::WizFi310Event"
    }
}

/// What the WizFi310 stage makes of the stream at the top of a pipeline:
/// the events of its serial events, where it holds serial events.
pub open spec fn wizfi_output(top: StreamView) -> Result<StreamView, PipelineError> {
    match top {
        StreamView::SerialEvent(events) => Ok(StreamView::WizFi310Event(all_wizfi(
            WizState { data_to_send: 0, receiving: None, tx: Seq::empty(), rx: Seq::empty() },
            events,
        ))),
        other => Err(
            PipelineError::TypeMismatch {
                stage: StageKind::Wizfi310,
                expected: EventType::SerialEvent,
                actual: kind_of(other),
            },
        ),
    }
}

/// Puts the WizFi310 stage onto a pipeline: the stage takes the place of
/// the stream of serial events at the top.
pub fn build(pipeline: &mut Vec<Stream>) -> (r: Result<(), PipelineError>)
    ensures
        build_result(
            old(pipeline)@,
            final(pipeline)@,
            r,
            replaced(
                views(old(pipeline)@),
                StageKind::Wizfi310,
                wizfi_output(views(old(pipeline)@).last()),
            ),
        ),
{
    if pipeline.len() == 0 {
        return Err(PipelineError::MissingSource(StageKind::Wizfi310));
    }
    let ghost before = views(pipeline@);
    let top = pop_top(pipeline);
    proof {
        assert(views(pipeline@) =~= before.drop_last());
        assert(before.drop_last().push(top@) =~= before);
    }
    match top {
        Stream::SerialEvent(events) => {

            let mut stage = Wizfi310::new(events);
            let out = drain(&mut stage);
            push_top(pipeline, Stream::WizFi310Event(out));
            Ok(())
        },
        other => {
            let actual = other.event_type();
            push_top(pipeline, other);
            Err(
                PipelineError::TypeMismatch {
                    stage: StageKind::Wizfi310,
                    expected: EventType::SerialEvent,
                    actual,
                },
            )
        },
    }
}

} // verus!
