use logic_decoder::error::{DecodeError, PacketError};
use logic_decoder::usb::byte::Byte;
use logic_decoder::usb::packet::{Packet, PacketIterator};
use logic_decoder::usb::types::{crc16, crc5, Data, DataPID, HandShake, Token, TokenType};
use std::collections::VecDeque;

fn data_packet(pid: u8, payload: &[u8]) -> Vec<u8> {
    // the checksum field goes out lowest bit first, which reverses the register
    let field = (!crc16(payload)).reverse_bits();
    let mut buf = vec![0x80, pid];
    buf.extend_from_slice(payload);
    buf.push((field & 0xFF) as u8);
    buf.push((field >> 8) as u8);
    buf
}

fn token_packet(pid: u8, address: u8, endpoint: u8) -> Vec<u8> {
    let low = address | (endpoint << 7);
    let high3 = endpoint >> 1;
    // the checksum covers the eleven bits of address and endpoint
    let mut acc: u8 = 0x1F;
    let bits: u16 = (low as u16) | ((high3 as u16) << 8);
    for i in 0..11 {
        let b = ((bits >> i) & 1) as u8;
        let do_xor = b != ((acc >> 4) & 1);
        acc = (acc << 1) & 0x1F;
        if do_xor {
            acc ^= 5;
        }
    }
    let field = (!acc & 0x1F).reverse_bits() >> 3;
    vec![0x80, pid, low, high3 | (field << 3)]
}

#[test]
fn tokens_are_written_as_they_are_read() {
    for token_type in [TokenType::Setup, TokenType::In, TokenType::Out, TokenType::Ping] {
        for address in 0..128u8 {
            for endpoint in 0..16u8 {
                let t = Token { token_type, address, endpoint };
                let bytes = t.encode();
                assert_eq!(crc5(&bytes[2..]), 0x0C);
                assert_eq!(Packet::try_from(&bytes), Ok(Packet::Token(t)));
            }
        }
    }
    let t = Token { token_type: TokenType::In, address: 0x55, endpoint: 0xB };
    assert_eq!(t.encode().to_vec(), token_packet(0x69, 0x55, 0xB));
    assert_eq!(
        Token { token_type: TokenType::Setup, address: 0, endpoint: 0 }.encode(),
        [0x80, 0x2D, 0x00, 0x10]
    );
}

#[test]
fn data_packets_are_written_as_they_are_read() {
    for payload in [vec![], vec![0u8], vec![1, 2, 3], vec![0xFF; 64], (0..=255u8).collect()] {
        for pid in [DataPID::Data0, DataPID::Data1, DataPID::Data2, DataPID::MData] {
            let d = Data { pid, payload: payload.clone() };
            let bytes = d.encode();
            assert_eq!(crc16(&bytes[2..]), 0x800D);
            assert_eq!(Packet::try_from(&bytes), Ok(Packet::Data(d)));
        }
    }
    let d = Data { pid: DataPID::Data0, payload: vec![1, 2, 3] };
    assert_eq!(d.encode(), data_packet(0xC3, &[1, 2, 3]));
}

#[test]
fn only_the_checksum_field_leaves_the_residual() {
    let payload = [0x12u8, 0x34, 0x56];
    let sound = data_packet(0xC3, &payload);
    let mut found = Vec::new();
    for a in 0..=255u8 {
        for b in 0..=255u8 {
            if crc16(&[0x12, 0x34, 0x56, a, b]) == 0x800D {
                found.push((a, b));
            }
        }
    }
    assert_eq!(found, vec![(sound[5], sound[6])]);
}

#[test]
fn crc5_of_valid_token_is_residual() {
    assert_eq!(crc5(&[0x00, 0x10]), 0x0C);
}

#[test]
fn crc5_of_nothing_is_all_ones() {
    assert_eq!(crc5(&[]), 0x1F);
}

#[test]
fn crc5_of_every_well_formed_token_is_residual() {
    for address in 0..128u8 {
        for endpoint in 0..16u8 {
            let p = token_packet(0x69, address, endpoint);
            assert_eq!(crc5(&p[2..]), 0x0C);
        }
    }
}

#[test]
fn crc16_of_nothing_is_all_ones() {
    assert_eq!(crc16(&[]), 0xFFFF);
}

#[test]
fn crc16_of_payload_with_checksum_is_residual() {
    let p = data_packet(0xC3, &[0u8; 8]);
    assert_eq!(crc16(&p[2..]), 0x800D);
    let q = data_packet(0x4B, &[0x80, 0x06, 0x00, 0x01, 0x00, 0x00, 0x40, 0x00]);
    assert_eq!(crc16(&q[2..]), 0x800D);
    let empty = data_packet(0x4B, &[]);
    assert_eq!(empty, vec![0x80, 0x4B, 0x00, 0x00]);
    assert_eq!(crc16(&empty[2..]), 0x800D);
}

#[test]
fn parses_setup_token() {
    let p = Packet::try_from(&[0x80, 0x2D, 0x00, 0x10]);
    assert_eq!(
        p,
        Ok(Packet::Token(Token { token_type: TokenType::Setup, address: 0, endpoint: 0 }))
    );
}

#[test]
fn parses_token_fields() {
    let p = token_packet(0xE1, 0x55, 0xB);
    assert_eq!(
        Packet::try_from(&p),
        Ok(Packet::Token(Token { token_type: TokenType::Out, address: 0x55, endpoint: 0xB }))
    );
    let p = token_packet(0x69, 127, 15);
    assert_eq!(
        Packet::try_from(&p),
        Ok(Packet::Token(Token { token_type: TokenType::In, address: 127, endpoint: 15 }))
    );
    let p = token_packet(0xB4, 1, 2);
    assert_eq!(
        Packet::try_from(&p),
        Ok(Packet::Token(Token { token_type: TokenType::Ping, address: 1, endpoint: 2 }))
    );
    let mut bad = token_packet(0x69, 1, 2);
    bad[2] ^= 0x01;
    assert_eq!(Packet::try_from(&bad), Err(PacketError::Crc));
}

#[test]
fn parses_start_of_frame() {
    // frame number 0x2A5: low byte 0xA5, three high bits 0b010
    let p = token_packet(0xA5, 0x25, 0b0101);
    assert_eq!(p[2], 0xA5);
    assert_eq!(p[3] & 7, 0b010);
    assert_eq!(Packet::try_from(&p), Ok(Packet::SoF(0x2A5)));
}

#[test]
fn parses_handshakes() {
    assert_eq!(Packet::try_from(&[0x80, 0xD2]), Ok(Packet::HandShake(HandShake::Ack)));
    assert_eq!(Packet::try_from(&[0x80, 0x5A]), Ok(Packet::HandShake(HandShake::NAck)));
    assert_eq!(Packet::try_from(&[0x80, 0x1E]), Ok(Packet::HandShake(HandShake::Stall)));
    assert_eq!(Packet::try_from(&[0x80, 0x96]), Ok(Packet::HandShake(HandShake::NYet)));
    assert_eq!(Packet::try_from(&[0x80, 0x3C]), Ok(Packet::HandShake(HandShake::Error)));
}

#[test]
fn rejects_what_is_no_packet() {
    assert_eq!(Packet::try_from(&[0x81, 0xD2]), Err(PacketError::InvalidSync));
    assert_eq!(Packet::try_from(&[]), Err(PacketError::Empty));
    assert_eq!(Packet::try_from(&[0x80]), Err(PacketError::Unknown));
    assert_eq!(Packet::try_from(&[0x80, 0xD2, 0x00]), Err(PacketError::Unknown));
    assert_eq!(Packet::try_from(&[0x80, 0xC3, 0x00]), Err(PacketError::Unknown));
    assert_eq!(Packet::try_from(&[0x80, 0x00, 0x00, 0x00]), Err(PacketError::Unknown));
    assert_eq!(Packet::try_from(&[0x80, 0x78, 0, 0, 0]), Err(PacketError::Crc));
}

#[test]
fn split_tokens_are_not_handled() {
    // look for the three bytes of a split token whose checksum holds
    let mut found = None;
    for last in 0..=255u8 {
        if crc5(&[0x12, 0x34, last]) == 0x0C {
            found = Some(last);
        }
    }
    let last = found.unwrap();
    assert_eq!(
        Packet::try_from(&[0x80, 0x78, 0x12, 0x34, last]),
        Err(PacketError::SplitUnsupported)
    );
}

#[test]
fn parses_data_packet() {
    let payload = [1u8, 2, 3];
    let mut buf = data_packet(0xC3, &payload);
    assert_eq!(
        Packet::try_from(&buf),
        Ok(Packet::Data(Data { pid: DataPID::Data0, payload: payload.to_vec() }))
    );
    buf[3] ^= 1;
    assert_eq!(Packet::try_from(&buf), Err(PacketError::Crc));
    assert_eq!(
        Packet::try_from(&data_packet(0x4B, &[])),
        Ok(Packet::Data(Data { pid: DataPID::Data1, payload: vec![] }))
    );
    assert_eq!(
        Packet::try_from(&data_packet(0x17, &[9])),
        Ok(Packet::Data(Data { pid: DataPID::Data2, payload: vec![9] }))
    );
    assert_eq!(
        Packet::try_from(&data_packet(0x0F, &[9, 8])),
        Ok(Packet::Data(Data { pid: DataPID::MData, payload: vec![9, 8] }))
    );
}

#[test]
fn packet_stage_gathers_bytes_up_to_end_of_packet() {
    let mut input = VecDeque::new();
    input.push_back((5, Ok(Byte::Byte(0xFF))));
    input.push_back((10, Ok(Byte::Idle)));
    input.push_back((20, Ok(Byte::Byte(0x80))));
    input.push_back((30, Ok(Byte::Byte(0xD2))));
    input.push_back((40, Ok(Byte::Eop)));
    input.push_back((50, Ok(Byte::Reset)));
    input.push_back((60, Err(DecodeError::Packet(PacketError::Unknown))));
    input.push_back((70, Ok(Byte::Byte(0x80))));
    input.push_back((80, Ok(Byte::Eop)));
    input.push_back((90, Ok(Byte::Byte(0x80))));
    let mut stage = PacketIterator::new(input);
    assert_eq!(stage.next(), Some((40, Ok(Packet::HandShake(HandShake::Ack)))));
    assert_eq!(stage.next(), Some((50, Ok(Packet::Reset))));
    assert_eq!(stage.next(), Some((60, Err(DecodeError::Packet(PacketError::Unknown)))));
    assert_eq!(stage.next(), Some((80, Err(DecodeError::Packet(PacketError::Unknown)))));
    assert_eq!(stage.next(), None);
    assert_eq!(stage.next(), None);
}
