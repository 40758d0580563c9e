//! From bytes to packets: synchronisation byte, packet identifier, fields and checksum.
use vstd::prelude::*;
use vstd::slice::slice_subrange;
use vstd::slice::slice_to_vec;
use std::collections::VecDeque;
use crate::error::DecodeError;
use crate::error::PacketError;
use crate::pipeline::build_result;
use crate::pipeline::drain;
use crate::pipeline::Event;
use crate::pipeline::EventIterator;
use crate::pipeline::EventType;
use crate::pipeline::next_view;
use crate::pipeline::ordered;
use crate::pipeline::PipelineError;
use crate::pipeline::pop_top;
use crate::pipeline::push_top;
use crate::pipeline::replaced;
use crate::pipeline::StageKind;
use crate::pipeline::Stream;
use crate::pipeline::StreamView;
use crate::pipeline::views;
use super::byte::Byte;
use super::types::crc16;
use super::types::crc16_field_bytes;
use super::types::crc16_spec;
use super::types::crc5;
use super::types::crc5_spec;
use super::types::crc5_step;
use super::types::Data;
use super::types::DataPID;
use super::types::DataView;
use super::types::HandShake;
use super::types::lemma_crc16_of_valid_data;
use super::types::lemma_crc16_only_valid_data;
use super::types::lemma_crc5_of_valid_token;
use super::types::Token;
use super::types::token_high_byte;
use super::types::TokenType;

verus! {

#[derive(Debug, Clone, PartialEq, Eq)]
pub enum Packet {
    Reset,
    SoF(u16),
    HandShake(HandShake),
    Token(Token),
    Data(Data),
}

/// What a packet is, apart from where its payload is stored.
pub enum PacketView {
    Reset,
    SoF(u16),
    HandShake(HandShake),
    Token(Token),
    Data(DataView),
}

impl View for Packet {
    type V = PacketView;

    open spec fn view(&self) -> PacketView {
        match *self {
            Packet::Reset => PacketView::Reset,
            Packet::SoF(n) => PacketView::SoF(n),
            Packet::HandShake(h) => PacketView::HandShake(h),
            Packet::Token(t) => PacketView::Token(t),
            Packet::Data(d) => PacketView::Data(d@),
        }
    }
}

/// The 11-bit frame number that the two bytes after a start-of-frame identifier carry.
pub open spec fn frame_number(lsb: u8, msb: u8) -> u16 {
    (((msb as u16) << 8) | (lsb as u16)) & 0x7FF
}

/// The 7-bit device address in a token's first byte.
pub open spec fn token_address(lsb: u8) -> u8 {
    lsb & 0x7F
}

/// The 4-bit endpoint number in a token: three bits of the second byte above the top bit of the first.
pub open spec fn token_endpoint(lsb: u8, msb: u8) -> u8 {
    ((msb & 0x7) << 1) | (lsb >> 7)
}

/// The kind of token that a packet identifier announces.
pub open spec fn token_type_of(pid: u8) -> Option<TokenType> {
    if pid == 0xE1 {
        Some(TokenType::Out)
    } else if pid == 0x69 {
        Some(TokenType::In)
    } else if pid == 0x2D {
        Some(TokenType::Setup)
    } else if pid == 0xB4 {
        Some(TokenType::Ping)
    } else {
        None
    }
}

/// The kind of data packet that a packet identifier announces.
pub open spec fn data_pid_of(pid: u8) -> Option<DataPID> {
    if pid == 0xC3 {
        Some(DataPID::Data0)
    } else if pid == 0x4B {
        Some(DataPID::Data1)
    } else if pid == 0x17 {
        Some(DataPID::Data2)
    } else if pid == 0x0F {
        Some(DataPID::MData)
    } else {
        None
    }
}

/// The handshake that a packet identifier announces.
pub open spec fn handshake_of(pid: u8) -> Option<HandShake> {
    if pid == 0xD2 {
        Some(HandShake::Ack)
    } else if pid == 0x5A {
        Some(HandShake::NAck)
    } else if pid == 0x1E {
        Some(HandShake::Stall)
    } else if pid == 0x96 {
        Some(HandShake::NYet)
    } else if pid == 0x3C {
        Some(HandShake::Error)
    } else {
        None
    }
}

/// The packet that the bytes `buf`, from the synchronisation byte to the last
/// byte before the end of packet, spell out.
///
/// A token or a start of frame is four bytes and leaves `0x0C` in the 5-bit
/// checksum of its two field bytes. A data packet is four bytes or more and
/// leaves `0x800D` in the 16-bit checksum of everything after the identifier;
/// its payload lies between the identifier and the last two bytes. A handshake
/// is two bytes.
pub open spec fn parse_packet(buf: Seq<u8>) -> Result<PacketView, PacketError> {
    if buf.len() == 0 {
        Err(PacketError::Empty)
    } else if buf[0] != 0x80 {
        Err(PacketError::InvalidSync)
    } else if buf.len() == 4 && buf[1] == 0xA5 {
        if crc5_spec(buf.subrange(2, 4)) == 0x0C {
            Ok(PacketView::SoF(frame_number(buf[2], buf[3])))
        } else {
            Err(PacketError::Crc)
        }
    } else if buf.len() == 4 && token_type_of(buf[1]).is_some() {
        if crc5_spec(buf.subrange(2, 4)) == 0x0C {
            Ok(
                PacketView::Token(
                    Token {
                        token_type: token_type_of(buf[1]).unwrap(),
                        address: token_address(buf[2]),
                        endpoint: token_endpoint(buf[2], buf[3]),
                    },
                ),
            )
        } else {
            Err(PacketError::Crc)
        }
    } else if buf.len() == 5 && buf[1] == 0x78 {
        if crc5_spec(buf.subrange(2, 5)) == 0x0C {
            Err(PacketError::SplitUnsupported)
        } else {
            Err(PacketError::Crc)
        }
    } else if buf.len() >= 4 && data_pid_of(buf[1]).is_some() {
        if crc16_spec(buf.subrange(2, buf.len() as int)) == 0x800D {
            Ok(
                PacketView::Data(
                    DataView {
                        pid: data_pid_of(buf[1]).unwrap(),
                        payload: buf.subrange(2, buf.len() - 2),
                    },
                ),
            )
        } else {
            Err(PacketError::Crc)
        }
    } else if buf.len() == 2 && handshake_of(buf[1]).is_some() {
        Ok(PacketView::HandShake(handshake_of(buf[1]).unwrap()))
    } else {
        Err(PacketError::Unknown)
    }
}

/// The fields of a parsed packet lie within their widths.
pub open spec fn packet_in_range(p: PacketView) -> bool {
    match p {
        PacketView::SoF(n) => n < 2048,
        PacketView::Token(t) => t.address < 128 && t.endpoint < 16,
        _ => true,
    }
}

fn token_type_from(pid: u8) -> (r: Option<TokenType>)
    ensures
        r == token_type_of(pid),
{
    if pid == 0xE1 {
        Some(TokenType::Out)
    } else if pid == 0x69 {
        Some(TokenType::In)
    } else if pid == 0x2D {
        Some(TokenType::Setup)
    } else if pid == 0xB4 {
        Some(TokenType::Ping)
    } else {
        None
    }
}

fn data_pid_from(pid: u8) -> (r: Option<DataPID>)
    ensures
        r == data_pid_of(pid),
{
    if pid == 0xC3 {
        Some(DataPID::Data0)
    } else if pid == 0x4B {
        Some(DataPID::Data1)
    } else if pid == 0x17 {
        Some(DataPID::Data2)
    } else if pid == 0x0F {
        Some(DataPID::MData)
    } else {
        None
    }
}

fn handshake_from(pid: u8) -> (r: Option<HandShake>)
    ensures
        r == handshake_of(pid),
{
    if pid == 0xD2 {
        Some(HandShake::Ack)
    } else if pid == 0x5A {
        Some(HandShake::NAck)
    } else if pid == 0x1E {
        Some(HandShake::Stall)
    } else if pid == 0x96 {
        Some(HandShake::NYet)
    } else if pid == 0x3C {
        Some(HandShake::Error)
    } else {
        None
    }
}

/// The view of a parse result.
pub open spec fn parsed_view(r: Result<Packet, PacketError>) -> Result<PacketView, PacketError> {
    match r {
        Ok(p) => Ok(p@),
        Err(e) => Err(e),
    }
}

impl Packet {
    /// Parses the bytes collected between idle and end of packet.
    ///
    /// The result is the packet that `parse_packet` describes. So a token, a
    /// start of frame or a data packet comes out only where its checksum
    /// leaves the residual that a packet received intact must leave, and its
    /// address, endpoint and frame number fit their widths.
    pub fn try_from(buf: &[u8]) -> (r: Result<Packet, PacketError>)
        ensures
            parsed_view(r) == parse_packet(buf@),
            r is Ok ==> packet_in_range(r.unwrap()@),
            r matches Ok(Packet::Token(_)) ==> crc5_spec(buf@.subrange(2, 4)) == 0x0C,
            r matches Ok(Packet::SoF(_)) ==> crc5_spec(buf@.subrange(2, 4)) == 0x0C,
            r matches Ok(Packet::Data(_)) ==> crc16_spec(buf@.subrange(2, buf@.len() as int))
                == 0x800D,
    {
        let n: usize = buf.len();
        if n == 0 {
            return Err(PacketError::Empty);
        }
        if buf[0] != 0x80 {
            return Err(PacketError::InvalidSync);
        }
        if n == 1 {
            return Err(PacketError::Unknown);
        }
        let pid: u8 = buf[1];
        if n == 4 && pid == 0xA5 {
            if crc5(slice_subrange(buf, 2, 4)) != 0x0C {
                return Err(PacketError::Crc);
            }
            let lsb: u8 = buf[2];
            let msb: u8 = buf[3];
            let frm_num: u16 = (((msb as u16) << 8) | (lsb as u16)) & 0x7FF;
            assert(((((msb as u16) << 8) | (lsb as u16)) & 0x7FF) < 2048) by (bit_vector);
            return Ok(Packet::SoF(frm_num));
        }
        if n == 4 {
            if let Some(token_type) = token_type_from(pid) {
                if crc5(slice_subrange(buf, 2, 4)) != 0x0C {
                    return Err(PacketError::Crc);
                }
                let lsb: u8 = buf[2];
                let msb: u8 = buf[3];
                assert((lsb & 0x7F) < 128) by (bit_vector);
                assert((((msb & 0x7) << 1) | (lsb >> 7)) < 16) by (bit_vector);
                return Ok(
                    Packet::Token(
                        Token {
                            token_type,
                            address: lsb & 0x7F,
                            endpoint: ((msb & 0x7) << 1) | (lsb >> 7),
                        },
                    ),
                );
            }
        }
        if n == 5 && pid == 0x78 {
            if crc5(slice_subrange(buf, 2, 5)) != 0x0C {
                return Err(PacketError::Crc);
            }
            return Err(PacketError::SplitUnsupported);
        }
        if n >= 4 {
            if let Some(data_pid) = data_pid_from(pid) {
                if crc16(slice_subrange(buf, 2, n)) != 0x800D {
                    return Err(PacketError::Crc);
                }
                let payload: Vec<u8> = slice_to_vec(slice_subrange(buf, 2, n - 2));
                return Ok(Packet::Data(Data { pid: data_pid, payload }));
            }
        }
        if n == 2 {
            if let Some(handshake) = handshake_from(pid) {
                return Ok(Packet::HandShake(handshake));
            }
        }
        Err(PacketError::Unknown)
    }
}

/// What one call of `next` makes of the bytes in `input`, with `buf` already
/// collected: the event handed out, if any, and the input left for later calls.
///
/// A diagnostic from upstream and a bus reset come out at once. Idle empties
/// the buffer, a byte joins it, and an end of packet has the buffer parsed.
pub open spec fn next_packet(input: Seq<Event<Byte>>, buf: Seq<u8>) -> (
    Option<Event<PacketView>>,
    Seq<Event<Byte>>,
)
    decreases input.len(),
{
    if input.len() == 0 {
        (None, input)
    } else {
        let rest = input.subrange(1, input.len() as int);
        let ts = input[0].0;
        match input[0].1 {
            Err(e) => (Some((ts, Err(e))), rest),
            Ok(Byte::Reset) => (Some((ts, Ok(PacketView::Reset))), rest),
            Ok(Byte::Idle) => next_packet(rest, Seq::empty()),
            Ok(Byte::Byte(b)) => next_packet(rest, buf.push(b)),
            Ok(Byte::Eop) => (
                Some(
                    (
                        ts,
                        match parse_packet(buf) {
                            Ok(p) => Ok(p),
                            Err(e) => Err(DecodeError::Packet(e)),
                        },
                    ),
                ),
                rest,
            ),
        }
    }
}

/// The packet stage: it owns the byte events still to be read.
pub struct PacketIterator {
    it: VecDeque<Event<Byte>>,
}

impl PacketIterator {
    /// The byte events that no call of `next` has read yet.
    pub closed spec fn pending(&self) -> Seq<Event<Byte>> {
        self.it@
    }

    pub fn new(input: VecDeque<Event<Byte>>) -> (r: Self)
        ensures
            r.pending() == input@,
    {
        Self { it: input }
    }

    /// Reads bytes up to the next bus reset, end of packet or diagnostic and
    /// hands out the packet event they make; `None` once the input is used up.
    pub fn next(&mut self) -> (r: Option<Event<Packet>>)
        ensures
            (next_view(r), final(self).pending()) == next_packet(
                old(self).pending(),
                Seq::empty(),
            ),
    {
        let mut buf: Vec<u8> = Vec::new();
        loop
            invariant
                next_packet(self.it@, buf@) == next_packet(old(self).it@, Seq::empty()),
            decreases self.it@.len(),
        {
            match self.it.pop_front() {
                None => {
                    return None;
                },
                Some((ts, Err(e))) => {
                    return Some((ts, Err(e)));
                },
                Some((ts, Ok(byte))) => {
                    match byte {
                        Byte::Reset => {
                            return Some((ts, Ok(Packet::Reset)));
                        },
                        Byte::Idle => {
                            buf.clear();
                        },
                        Byte::Byte(b) => {
                            buf.push(b);
                        },
                        Byte::Eop => {
                            return match Packet::try_from(buf.as_slice()) {
                                Ok(p) => Some((ts, Ok(p))),
                                Err(e) => Some((ts, Err(DecodeError::Packet(e)))),
                            };
                        },
                    }
                },
            }
        }
    }
}

/// Where an event of `next_packet` comes from: it carries the timestamp of
/// the last byte event read, and what is left is the input after that event.
pub proof fn lemma_next_packet_source(input: Seq<Event<Byte>>, buf: Seq<u8>)
    ensures
        ({
            let (out, rest) = next_packet(input, buf);
            &&& rest.len() <= input.len()
            &&& rest == input.subrange(input.len() - rest.len(), input.len() as int)
            &&& out is Some ==> rest.len() < input.len() && out.unwrap().0 == input[input.len()
                - rest.len() - 1].0
            &&& out is None ==> rest.len() == 0
        }),
    decreases input.len(),
{
    if input.len() > 0 {
        let rest = input.subrange(1, input.len() as int);
        match input[0].1 {
            Ok(Byte::Idle) => {
                lemma_next_packet_source(rest, Seq::empty());
                let r = next_packet(rest, Seq::empty()).1;
                assert(r == input.subrange(input.len() - r.len(), input.len() as int));
            },
            Ok(Byte::Byte(b)) => {
                lemma_next_packet_source(rest, buf.push(b));
                let r = next_packet(rest, buf.push(b)).1;
                assert(r == input.subrange(input.len() - r.len(), input.len() as int));
            },
            _ => {
                assert(rest == input.subrange(input.len() - rest.len(), input.len() as int));
            },
        }
    } else {
        assert(input == input.subrange(0, 0));
    }
}

/// Packet events leave the stage in the order of time: where the byte events
/// come in with timestamps that never decrease, two packet events handed out
/// one after the other carry timestamps that do not decrease either.
pub proof fn lemma_packets_in_order(input: Seq<Event<Byte>>)
    requires
        ordered(input),
    ensures
        ({
            let first = next_packet(input, Seq::empty());
            let second = next_packet(first.1, Seq::empty());
            first.0 is Some && second.0 is Some ==> first.0.unwrap().0 <= second.0.unwrap().0
        }),
{
    let first = next_packet(input, Seq::empty());
    lemma_next_packet_source(input, Seq::empty());
    lemma_next_packet_source(first.1, Seq::empty());
}

/// All the events that the stage hands out from here on.
pub open spec fn all_packets(input: Seq<Event<Byte>>) -> Seq<Event<PacketView>>
    decreases input.len(),
{
    let r = next_packet(input, Seq::empty());
    match r.0 {
        Some(e) => if r.1.len() < input.len() {
            seq![e] + all_packets(r.1)
        } else {
            seq![e]
        },
        None => Seq::empty(),
    }
}

impl EventIterator for PacketIterator {
    type Item = Packet;

    open spec fn ready(&self) -> bool {
        true
    }

    open spec fn upcoming(&self) -> Seq<Event<PacketView>> {
        all_packets(self.pending())
    }

    fn next(&mut self) -> (r: Option<Event<Packet>>) {
        proof {
            lemma_next_packet_source(self.pending(), Seq::empty());
        }
        let r = PacketIterator::next(self);
        proof {
            let before = old(self).upcoming();
            if r is Some {
                assert(before.subrange(1, before.len() as int) =~= self.upcoming());
            }
        }
        r
    }

    fn event_type(&self) -> (r: EventType)
        ensures
            r == EventType::UsbPacket,
    {
        EventType::UsbPacket
    }

    fn event_type_name(&self) -> (r: &'static str)
        ensures
            r@ == "usb::packet::Packet"@,
    {
        "usb::packet::Packet"
    }
}

/// What the packet stage makes of the stream at the top of a pipeline: the
/// packets of its bytes, or, where it holds no bytes, of the bytes that a
/// byte stage at low speed makes of it.
pub open spec fn packet_output(top: StreamView) -> Result<StreamView, PipelineError> {
    let input = match top {
        StreamView::UsbByte(_) => Ok::<StreamView, PipelineError>(top),
        _ => crate::usb::byte::byte_output(top, false),
    };
    match input {
        Ok(StreamView::UsbByte(events)) => Ok(StreamView::UsbPacket(all_packets(events))),
        Ok(_) => Err(PipelineError::MissingSource(StageKind::UsbPacket)),
        Err(e) => Err(e),
    }
}

/// Puts the packet stage onto a pipeline: the stage takes the place of the
/// stream of bytes at the top, after a byte stage was put there where the top
/// holds something else.
pub fn build(pipeline: &mut Vec<Stream>) -> (r: Result<(), PipelineError>)
    ensures
        build_result(
            old(pipeline)@,
            final(pipeline)@,
            r,
            replaced(
                views(old(pipeline)@),
                StageKind::UsbPacket,
                packet_output(views(old(pipeline)@).last()),
            ),
        ),
{
    if pipeline.len() == 0 {
        return Err(PipelineError::MissingSource(StageKind::UsbPacket));
    }
    let ghost at_first = views(pipeline@);
    let fits: bool = match pipeline[pipeline.len() - 1].event_type() {
        EventType::UsbByte => true,
        _ => false,
    };
    if !fits {
        match crate::usb::byte::build(pipeline, false) {
            Err(e) => {
                return Err(e);
            },
            Ok(()) => {},
        }
        proof {
            let made = crate::usb::byte::byte_output(at_first.last(), false);
            assert(made is Ok);
            assert(views(pipeline@) == at_first.drop_last().push(made.unwrap()));
        }
    }
    let ghost before = views(pipeline@);
    proof {
        assert(before.len() == pipeline@.len());
        assert(before.len() == at_first.len());
        assert(before.last() == pipeline@.last()@);
    }
    let top = pop_top(pipeline);
    proof {
        assert(views(pipeline@) =~= before.drop_last());
        assert(before.drop_last() =~= at_first.drop_last());
        assert(before.drop_last().push(top@) =~= before);
    }
    match top {
        Stream::UsbByte(events) => {
            let mut stage = PacketIterator::new(events);
            let out = drain(&mut stage);
            push_top(pipeline, Stream::UsbPacket(out));
            Ok(())
        },
        other => {
            push_top(pipeline, other);
            Err(PipelineError::MissingSource(StageKind::UsbPacket))
        },
    }
}

/// The packet identifier of a kind of token.
pub open spec fn token_pid(t: TokenType) -> u8 {
    match t {
        TokenType::Out => 0xE1,
        TokenType::In => 0x69,
        TokenType::Setup => 0x2D,
        TokenType::Ping => 0xB4,
    }
}

/// The packet identifier of a kind of data packet.
pub open spec fn data_pid(p: DataPID) -> u8 {
    match p {
        DataPID::Data0 => 0xC3,
        DataPID::Data1 => 0x4B,
        DataPID::Data2 => 0x17,
        DataPID::MData => 0x0F,
    }
}

/// The packet identifier of a handshake.
pub open spec fn handshake_pid(h: HandShake) -> u8 {
    match h {
        HandShake::Ack => 0xD2,
        HandShake::NAck => 0x5A,
        HandShake::Stall => 0x1E,
        HandShake::NYet => 0x96,
        HandShake::Error => 0x3C,
    }
}

/// The first field byte of a token: the address below the lowest bit of the endpoint.
pub open spec fn token_low_byte(address: u8, endpoint: u8) -> u8 {
    (address & 0x7F) | ((endpoint & 1) << 7)
}

/// The four bytes that a token is sent as.
pub open spec fn encode_token(t: Token) -> Seq<u8> {
    let lsb = token_low_byte(t.address, t.endpoint);
    seq![0x80u8, token_pid(t.token_type), lsb, token_high_byte(lsb, t.endpoint >> 1)]
}

/// The four bytes that a start of frame with the frame number `n` is sent as.
pub open spec fn encode_sof(n: u16) -> Seq<u8> {
    let lsb = (n & 0xFF) as u8;
    seq![0x80u8, 0xA5u8, lsb, token_high_byte(lsb, (n >> 8) as u8)]
}

/// The bytes that a data packet is sent as: synchronisation byte,
/// identifier, payload and checksum field.
pub open spec fn encode_data(d: DataView) -> Seq<u8> {
    let field = crc16_field_bytes(crc16_spec(d.payload));
    seq![0x80u8, data_pid(d.pid)] + d.payload + seq![field.0, field.1]
}

/// The two bytes that a handshake is sent as.
pub open spec fn encode_handshake(h: HandShake) -> Seq<u8> {
    seq![0x80u8, handshake_pid(h)]
}

/// A token that was sent as its four bytes is read back as it was, where
/// its address and its endpoint fit their widths. So the checksum of every
/// token with a sound checksum field is the residual that the parser asks for.
pub proof fn lemma_token_round_trip(t: Token)
    requires
        t.address < 128,
        t.endpoint < 16,
    ensures
        parse_packet(encode_token(t)) == Ok::<PacketView, PacketError>(PacketView::Token(t)),
        crc5_spec(encode_token(t).subrange(2, 4)) == 0x0C,
{
    let a = t.address;
    let e = t.endpoint;
    let lsb = token_low_byte(a, e);
    let high = e >> 1;
    let msb = token_high_byte(lsb, high);
    let buf = encode_token(t);
    lemma_crc5_of_valid_token(lsb, high);
    assert(buf.subrange(2, 4) =~= seq![lsb, msb]);
    assert(((a & 0x7F) | ((e & 1) << 7)) & 0x7F == a) by (bit_vector)
        requires
            a < 128,
    ;
    assert((((e >> 1) & 0x07) << 1) | (((a & 0x7F) | ((e & 1) << 7)) >> 7) == e) by (bit_vector)
        requires
            a < 128,
            e < 16,
    ;
    assert(token_endpoint(lsb, msb) == ((msb & 0x7) << 1) | (lsb >> 7));
}

/// A start of frame that was sent as its four bytes is read back with its
/// frame number, where the number fits its eleven bits.
pub proof fn lemma_sof_round_trip(n: u16)
    requires
        n < 2048,
    ensures
        parse_packet(encode_sof(n)) == Ok::<PacketView, PacketError>(PacketView::SoF(n)),
{
    let lsb = (n & 0xFF) as u8;
    let high = (n >> 8) as u8;
    let msb = token_high_byte(lsb, high);
    let buf = encode_sof(n);
    lemma_crc5_of_valid_token(lsb, high);
    assert(buf.subrange(2, 4) =~= seq![lsb, msb]);
    let m = msb & 0x07;
    assert(m == high & 0x07);
    assert(frame_number(lsb, msb) == (((msb as u16) << 8) | (lsb as u16)) & 0x7FF);
    assert(((((msb as u16) << 8) | (((n & 0xFF) as u8) as u16)) & 0x7FF) == n) by (bit_vector)
        requires
            n < 2048,
            msb & 0x07 == ((n >> 8) as u8) & 0x07,
    ;
}

/// A data packet that was sent as its bytes is read back as it was. So the
/// checksum of every payload with a sound checksum field is the residual
/// that the parser asks for.
pub proof fn lemma_data_round_trip(d: DataView)
    ensures
        parse_packet(encode_data(d)) == Ok::<PacketView, PacketError>(PacketView::Data(d)),
        crc16_spec(encode_data(d).subrange(2, encode_data(d).len() as int)) == 0x800D,
{
    let field = crc16_field_bytes(crc16_spec(d.payload));
    let buf = encode_data(d);
    lemma_crc16_of_valid_data(d.payload);
    assert(buf.subrange(2, buf.len() as int) =~= d.payload + seq![field.0, field.1]);
    assert(buf.subrange(2, buf.len() - 2) =~= d.payload);
    assert(buf[0] == 0x80 && buf[1] == data_pid(d.pid));
}

/// A data packet is read from no other bytes than those that it is sent
/// as: of all checksum fields behind a payload, the parser takes the sound one only.
pub proof fn lemma_data_read_as_written(buf: Seq<u8>, d: DataView)
    requires
        parse_packet(buf) == Ok::<PacketView, PacketError>(PacketView::Data(d)),
    ensures
        buf == encode_data(d),
{
    let n = buf.len() as int;
    let a = buf[n - 2];
    let b = buf[n - 1];
    assert(buf.subrange(2, n) =~= d.payload + seq![a, b]);
    lemma_crc16_only_valid_data(d.payload, a, b);
    assert(buf =~= encode_data(d));
}

/// A handshake that was sent as its two bytes is read back as it was.
pub proof fn lemma_handshake_round_trip(h: HandShake)
    ensures
        parse_packet(encode_handshake(h)) == Ok::<PacketView, PacketError>(
            PacketView::HandShake(h),
        ),
{
}

/// The second field byte of a token or a start of frame, with the checksum
/// field of its eleven bits.
pub fn high_byte_with_checksum(lsb: u8, high: u8) -> (r: u8)
    ensures
        r == token_high_byte(lsb, high),
{
    let one: [u8; 1] = [lsb];
    let a: u8 = crc5(vstd::array::array_as_slice(&one));
    proof {
        assert(one@ =~= seq![lsb]);
        assert(one@.drop_last() =~= Seq::<u8>::empty());
        assert(crc5_spec(Seq::<u8>::empty()) == 0x1F);
        assert(crc5_spec(one@) == super::types::crc5_bits(crc5_spec(one@.drop_last()), lsb, 8));
    }
    let r: u8 = step5(step5(step5(a, high), high >> 1), (high >> 1) >> 1);
    let x: u8 = !r & 0x1F;
    let f: u8 = ((x & 0x01) << 4) | ((x & 0x02) << 2) | (x & 0x04) | ((x & 0x08) >> 2) | ((x & 0x10)
        >> 4);
    (high & 0x07) | (f << 3)
}

fn step5(acc: u8, b: u8) -> (r: u8)
    ensures
        r == crc5_step(acc, b),
{
    let shifted: u8 = acc << 1;
    if (b & 1) != ((acc >> 4) & 1) {
        (shifted ^ 5) & 0x1F
    } else {
        shifted & 0x1F
    }
}

impl Token {
    /// Writes the token as the four bytes that it is sent as.
    pub fn encode(&self) -> (r: [u8; 4])
        ensures
            r@ == encode_token(*self),
    {
        let pid: u8 = match self.token_type {
            TokenType::Out => 0xE1,
            TokenType::In => 0x69,
            TokenType::Setup => 0x2D,
            TokenType::Ping => 0xB4,
        };
        let lsb: u8 = (self.address & 0x7F) | ((self.endpoint & 1) << 7);
        let r: [u8; 4] = [0x80, pid, lsb, high_byte_with_checksum(lsb, self.endpoint >> 1)];
        proof {
            assert(r@ =~= encode_token(*self));
        }
        r
    }
}

impl Data {
    /// Writes the data packet as the bytes that it is sent as.
    pub fn encode(&self) -> (r: Vec<u8>)
        ensures
            r@ == encode_data(self@),
    {
        let pid: u8 = match self.pid {
            DataPID::Data0 => 0xC3,
            DataPID::Data1 => 0x4B,
            DataPID::Data2 => 0x17,
            DataPID::MData => 0x0F,
        };
        let register: u16 = crc16(self.payload.as_slice());
        let x: u16 = !register;
        let field: u16 = ((x & 0x0001) << 15) | ((x & 0x0002) << 13) | ((x & 0x0004) << 11) | ((x
            & 0x0008) << 9) | ((x & 0x0010) << 7) | ((x & 0x0020) << 5) | ((x & 0x0040) << 3) | ((x
            & 0x0080) << 1) | ((x & 0x0100) >> 1) | ((x & 0x0200) >> 3) | ((x & 0x0400) >> 5) | ((x
            & 0x0800) >> 7) | ((x & 0x1000) >> 9) | ((x & 0x2000) >> 11) | ((x & 0x4000) >> 13) | ((
        x & 0x8000) >> 15);
        let mut r: Vec<u8> = Vec::new();
        r.push(0x80);
        r.push(pid);
        let mut i: usize = 0;
        while i < self.payload.len()
            invariant
                i <= self.payload@.len(),
                r@ == seq![0x80u8, pid] + self.payload@.take(i as int),
            decreases self.payload@.len() - i,
        {
            r.push(self.payload[i]);
            proof {
                assert(r@ =~= seq![0x80u8, pid] + self.payload@.take(i + 1));
            }
            i = i + 1;
        }
        r.push((field & 0xFF) as u8);
        r.push((field >> 8) as u8);
        proof {
            assert(self.payload@.take(self.payload@.len() as int) =~= self.payload@);
            assert(r@ =~= encode_data(self@));
        }
        r
    }
}

} // verus!
