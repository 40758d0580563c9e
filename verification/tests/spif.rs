use logic_decoder::error::{DecodeError, FlashError};
use logic_decoder::spi::SpiEvent;
use logic_decoder::spif::{
    Command, DeviceId, PageProgram, Read, Spif, StatusRegister, SFDP,
};
use std::collections::VecDeque;

fn data(mosi: u8, miso: u8) -> SpiEvent {
    SpiEvent::Data { mosi, miso }
}

fn run(events: Vec<(i64, SpiEvent)>) -> Vec<(i64, Result<Command, DecodeError>)> {
    let input: VecDeque<_> = events.into_iter().map(|(t, e)| (t, Ok(e))).collect();
    let mut stage = Spif::new(input);
    let mut out = Vec::new();
    while let Some(e) = stage.next() {
        out.push(e);
    }
    out
}

#[test]
fn read_gathers_address_and_data() {
    let out = run(vec![
        (0, SpiEvent::ChipSelect(false)),
        (1, data(0x03, 0xFF)),
        (2, data(0x12, 0xFF)),
        (3, data(0x34, 0xFF)),
        (4, data(0x56, 0xFF)),
        (5, data(0x00, 0xDE)),
        (6, data(0x00, 0xAD)),
        (7, SpiEvent::ChipSelect(true)),
    ]);
    assert_eq!(out, vec![(1, Ok(Command::Read(Read { addr: 0x123456, data: vec![0xDE, 0xAD] })))]);
}

#[test]
fn page_program_takes_its_data_from_the_controller() {
    let out = run(vec![
        (0, SpiEvent::ChipSelect(false)),
        (1, data(0x02, 0)),
        (2, data(0x00, 0)),
        (3, data(0x10, 0)),
        (4, data(0x00, 0)),
        (5, data(0xCA, 1)),
        (6, data(0xFE, 2)),
        (7, SpiEvent::ChipSelect(true)),
    ]);
    assert_eq!(
        out,
        vec![(1, Ok(Command::PageProgram(PageProgram { addr: 0x001000, data: vec![0xCA, 0xFE] })))]
    );
}

#[test]
fn read_sfdp() {
    let out = run(vec![
        (1, data(0x5A, 0)),
        (2, data(0x00, 0)),
        (3, data(0x00, 0)),
        (4, data(0x10, 0)),
        (5, data(0x00, 0x53)),
        (7, SpiEvent::ChipSelect(true)),
    ]);
    assert_eq!(out, vec![(1, Ok(Command::ReadSFDP(SFDP { addr: 0x10, data: vec![0x53] })))]);
}

#[test]
fn erases_come_out_with_their_third_address_byte() {
    for (code, expected) in [
        (0x20u8, Command::SectorErase(0x0A0B0C)),
        (0x52, Command::BlockErase32(0x0A0B0C)),
        (0xD8, Command::BlockErase(0x0A0B0C)),
    ] {
        let out = run(vec![
            (1, data(code, 0)),
            (2, data(0x0A, 0)),
            (3, data(0x0B, 0)),
            (4, data(0x0C, 0)),
            (5, SpiEvent::ChipSelect(true)),
        ]);
        assert_eq!(out, vec![(1, Ok(expected))]);
    }
}

#[test]
fn commands_of_one_byte() {
    let out = run(vec![
        (1, data(0x06, 0)),
        (2, SpiEvent::ChipSelect(true)),
        (3, SpiEvent::ChipSelect(false)),
        (4, data(0x66, 0)),
        (5, data(0x99, 0)),
    ]);
    assert_eq!(
        out,
        vec![
            (1, Ok(Command::WriteEnable)),
            (4, Ok(Command::ResetEnable)),
            (5, Ok(Command::Reset)),
        ]
    );
}

#[test]
fn status_register_and_device_identifier() {
    let out = run(vec![
        (1, data(0x05, 0)),
        (2, data(0x00, 0x81)),
        (3, SpiEvent::ChipSelect(true)),
        (4, SpiEvent::ChipSelect(false)),
        (5, data(0x9F, 0)),
        (6, data(0x00, 0xEF)),
        (7, data(0x00, 0x40)),
        (8, data(0x00, 0x18)),
    ]);
    assert_eq!(
        out,
        vec![
            (1, Ok(Command::ReadStatusRegister(StatusRegister(0x81)))),
            (5, Ok(Command::ReadDeviceId(DeviceId { manufacturer: 0xEF, device_id: 0x4018 }))),
        ]
    );
}

#[test]
fn flash_errors() {
    let out = run(vec![
        (1, data(0xAB, 0x17)),
        (2, SpiEvent::ChipSelect(true)),
        (3, data(0x03, 0x04)),
    ]);
    assert_eq!(
        out,
        vec![
            (1, Err(DecodeError::Flash(FlashError::UnsupportedCommand { mosi: 0xAB, miso: 0x17 }))),
            (3, Err(DecodeError::Flash(FlashError::Ignored { mosi: 0x03, miso: 0x04 }))),
        ]
    );
}

#[test]
fn update_takes_one_event() {
    let mut stage = Spif::new(VecDeque::new());
    assert_eq!(stage.update(1, data(0x06, 0)), Some((1, Ok(Command::WriteEnable))));
    assert_eq!(stage.update(2, data(0x03, 0)), None);
    assert_eq!(stage.update(3, SpiEvent::ChipSelect(false)), None);
    assert_eq!(
        stage.update(4, SpiEvent::ChipSelect(true)),
        Some((2, Ok(Command::Read(Read { addr: 0, data: vec![] }))))
    );
    assert_eq!(stage.update(5, SpiEvent::ChipSelect(true)), None);
    assert_eq!(Read::new(), Read { addr: 0, data: vec![] });
    assert_eq!(PageProgram::new(), PageProgram { addr: 0, data: vec![] });
    assert_eq!(SFDP::new(), SFDP { addr: 0, data: vec![] });
}

#[test]
fn flash_stage_passes_diagnostics_through() {
    let mut input = VecDeque::new();
    input.push_back((1, Ok(data(0x03, 0))));
    input.push_back((2, Err(DecodeError::Flash(FlashError::Ignored { mosi: 0, miso: 0 }))));
    input.push_back((3, Ok(SpiEvent::ChipSelect(true))));
    let mut stage = Spif::new(input);
    assert_eq!(
        stage.next(),
        Some((2, Err(DecodeError::Flash(FlashError::Ignored { mosi: 0, miso: 0 }))))
    );
    assert_eq!(stage.next(), Some((1, Ok(Command::Read(Read { addr: 0, data: vec![] })))));
    assert_eq!(stage.next(), None);
}
