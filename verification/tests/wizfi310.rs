use logic_decoder::error::{DecodeError, WizfiError};
use logic_decoder::serial::{SerialError, SerialEvent};
use logic_decoder::wizfi310::{
    parse_address, parse_header, to_text, RecvHeader, WizFi310Event, Wizfi310,
};
use std::collections::VecDeque;

fn run(events: Vec<SerialEvent>) -> Vec<(i64, Result<WizFi310Event, DecodeError>)> {
    let input: VecDeque<_> =
        events.into_iter().enumerate().map(|(i, e)| (i as i64, Ok(e))).collect();
    let mut stage = Wizfi310::new(input);
    let mut out = Vec::new();
    while let Some(e) = stage.next() {
        out.push(e);
    }
    out
}

fn tx(s: &str) -> Vec<SerialEvent> {
    s.bytes().map(SerialEvent::Tx).collect()
}

fn rx(s: &str) -> Vec<SerialEvent> {
    s.bytes().map(SerialEvent::Rx).collect()
}

#[test]
fn command_and_response() {
    let mut events = tx("AT+WSTAT\r");
    events.push(SerialEvent::Cts(true));
    events.extend(rx("[OK]\r\n"));
    let out = run(events);
    assert_eq!(
        out,
        vec![
            (8, Ok(WizFi310Event::Command("AT+WSTAT\r".to_string()))),
            (15, Ok(WizFi310Event::Resp("[OK]\r\n".to_string()))),
        ]
    );
}

#[test]
fn announced_data_are_sent() {
    let mut events = tx("AT+SSEND=0,,,5\r");
    events.extend(rx("[0,,,5]\r\n"));
    events.extend(tx("he\rlo"));
    events.extend(tx("AT\r"));
    let out: Vec<_> = run(events).into_iter().map(|(_, e)| e.unwrap()).collect();
    assert_eq!(
        out,
        vec![
            WizFi310Event::Command("AT+SSEND=0,,,5\r".to_string()),
            WizFi310Event::Resp("[0,,,5]\r\n".to_string()),
            WizFi310Event::Sent("he\rlo".to_string()),
            WizFi310Event::Command("AT\r".to_string()),
        ]
    );
}

#[test]
fn received_data_come_with_their_header() {
    let mut events = rx("{1,192.168.0.10,5000,4}ab\ncXY\n");
    events.push(SerialEvent::RxError(SerialError::Framing));
    let out: Vec<_> = run(events).into_iter().map(|(_, e)| e.unwrap()).collect();
    assert_eq!(
        out,
        vec![
            WizFi310Event::Recv(
                RecvHeader { socket_id: 1, ip: (192, 168, 0, 10), port: 5000 },
                "ab\nc".to_string()
            ),
            WizFi310Event::Resp("XY\n".to_string()),
        ]
    );
}

#[test]
fn text_is_made_of_the_characters_with_the_numbers_of_the_bytes() {
    assert_eq!(to_text(&vec![b'a', 0xE9, 0x00]), "a\u{E9}\u{0}".to_string());
    let out = run(vec![SerialEvent::Tx(0xFF), SerialEvent::Tx(b'\r')]);
    assert_eq!(out, vec![(1, Ok(WizFi310Event::Command("\u{FF}\r".to_string())))]);
}

#[test]
fn wizfi_errors() {
    let out = run(rx("[1,x]\r\n"));
    assert_eq!(out, vec![(6, Err(DecodeError::Wizfi(WizfiError::InvalidLength)))]);
    let out = run(rx("{1,2,3}"));
    assert_eq!(out, vec![(6, Err(DecodeError::Wizfi(WizfiError::InvalidHeader)))]);
    let out = run(rx("}"));
    assert_eq!(out, vec![(0, Err(DecodeError::Wizfi(WizfiError::InvalidHeader)))]);
    let mut input = VecDeque::new();
    input.push_back((3, Err(DecodeError::Wizfi(WizfiError::InvalidLength))));
    let mut stage = Wizfi310::new(input);
    assert_eq!(stage.next(), Some((3, Err(DecodeError::Wizfi(WizfiError::InvalidLength)))));
    assert_eq!(stage.next(), None);
}

#[test]
fn a_header_of_no_data_is_followed_by_responses() {
    let out: Vec<_> =
        run(rx("{1,10.0.0.1,80,0}ok\n")).into_iter().map(|(_, e)| e.unwrap()).collect();
    assert_eq!(out, vec![WizFi310Event::Resp("ok\n".to_string())]);
}

#[test]
fn a_bracketed_response_without_comma_announces_nothing() {
    let mut events = rx("[Link-Up Event]\r\n");
    events.extend(tx("A\r"));
    let out: Vec<_> = run(events).into_iter().map(|(_, e)| e.unwrap()).collect();
    assert_eq!(
        out,
        vec![
            WizFi310Event::Resp("[Link-Up Event]\r\n".to_string()),
            WizFi310Event::Command("A\r".to_string()),
        ]
    );
}

#[test]
fn reads_addresses_and_headers() {
    assert_eq!(parse_address(b"10.0.0.1"), Some((10, 0, 0, 1)));
    assert_eq!(parse_address(b"255.255.255.255"), Some((255, 255, 255, 255)));
    assert_eq!(parse_address(b"256.0.0.1"), None);
    assert_eq!(parse_address(b"1.2.3"), None);
    assert_eq!(parse_address(b"1.2.3.4.5"), None);
    assert_eq!(parse_address(b"1.2.3.04"), None);
    assert_eq!(parse_address(b"1.2.3.+4"), None);
    assert_eq!(parse_address(b"1..3.4"), None);
    assert_eq!(parse_address(b""), None);
    assert_eq!(
        parse_header(b"0,1.2.3.4,80,1500,extra"),
        Some((RecvHeader { socket_id: 0, ip: (1, 2, 3, 4), port: 80 }, 1500))
    );
    assert_eq!(parse_header(b"256,1.2.3.4,80,1"), None);
    assert_eq!(parse_header(b"0,1.2.3.4,65536,1"), None);
    assert_eq!(parse_header(b"0,1.2.3.4,80"), None);
    assert_eq!(parse_header(b"0,1.2.3.4,80,"), None);
}
