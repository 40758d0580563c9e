use logic_decoder::error::{DecodeError, PacketError, ProtocolError};
use logic_decoder::usb::packet::Packet;
use logic_decoder::usb::protocol::{Event, ProtocolIterator, Transaction};
use logic_decoder::usb::types::{Data, DataPID, HandShake, Token, TokenType};
use std::collections::VecDeque;

fn token(token_type: TokenType) -> Token {
    Token { token_type, address: 3, endpoint: 1 }
}

fn run(packets: Vec<(i64, Result<Packet, DecodeError>)>) -> Vec<(i64, Result<Event, DecodeError>)> {
    let mut stage = ProtocolIterator::new(VecDeque::from(packets));
    let mut out = Vec::new();
    while let Some(e) = stage.next() {
        out.push(e);
    }
    out
}

#[test]
fn token_data_handshake_make_a_transaction() {
    let data = Data { pid: DataPID::Data0, payload: vec![1, 2, 3] };
    let out = run(vec![
        (1, Ok(Packet::Token(token(TokenType::Out)))),
        (2, Ok(Packet::Data(data.clone()))),
        (3, Ok(Packet::HandShake(HandShake::Ack))),
    ]);
    assert_eq!(
        out,
        vec![(
            3,
            Ok(Event::Transaction(Transaction {
                token: token(TokenType::Out),
                data: Some(data),
                handshake: HandShake::Ack
            }))
        )]
    );
}

#[test]
fn token_handshake_make_a_transaction_without_data() {
    let out = run(vec![
        (1, Ok(Packet::Token(token(TokenType::In)))),
        (2, Ok(Packet::HandShake(HandShake::NAck))),
    ]);
    assert_eq!(
        out,
        vec![(
            2,
            Ok(Event::Transaction(Transaction {
                token: token(TokenType::In),
                data: None,
                handshake: HandShake::NAck
            }))
        )]
    );
}

#[test]
fn reset_and_start_of_frame_pass_through() {
    let out = run(vec![
        (1, Ok(Packet::Token(token(TokenType::In)))),
        (2, Ok(Packet::SoF(7))),
        (3, Ok(Packet::HandShake(HandShake::Ack))),
        (4, Ok(Packet::Token(token(TokenType::In)))),
        (5, Ok(Packet::Reset)),
        (6, Ok(Packet::HandShake(HandShake::Ack))),
    ]);
    assert_eq!(
        out,
        vec![
            (2, Ok(Event::Sof(7))),
            (3, Err(DecodeError::Protocol(ProtocolError::UnexpectedHandshake))),
            (5, Ok(Event::Reset)),
            (6, Err(DecodeError::Protocol(ProtocolError::UnexpectedHandshake))),
        ]
    );
}

#[test]
fn packets_out_of_turn_are_errors() {
    let data = Data { pid: DataPID::Data1, payload: vec![] };
    let out = run(vec![
        (1, Ok(Packet::Data(data.clone()))),
        (2, Ok(Packet::Token(token(TokenType::Setup)))),
        (3, Ok(Packet::Token(token(TokenType::In)))),
        (4, Ok(Packet::Data(data.clone()))),
        (5, Ok(Packet::Data(data.clone()))),
        (6, Err(DecodeError::Packet(PacketError::Crc))),
        (7, Ok(Packet::HandShake(HandShake::Stall))),
    ]);
    assert_eq!(
        out,
        vec![
            (1, Err(DecodeError::Protocol(ProtocolError::UnexpectedData))),
            (3, Err(DecodeError::Protocol(ProtocolError::UnexpectedToken))),
            (5, Err(DecodeError::Protocol(ProtocolError::UnexpectedData))),
            (6, Err(DecodeError::Packet(PacketError::Crc))),
            (
                7,
                Ok(Event::Transaction(Transaction {
                    token: token(TokenType::Setup),
                    data: Some(data),
                    handshake: HandShake::Stall
                }))
            ),
        ]
    );
}
