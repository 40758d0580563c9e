use logic_decoder::pipeline::{
    plan, push_stage, stage_of_name, tokenize, EventType, Invocation, PipelineError, StageKind,
};

#[test]
fn stage_names() {
    assert_eq!(stage_of_name("vcd"), Some(StageKind::Vcd));
    assert_eq!(stage_of_name("logic"), Some(StageKind::Logic));
    assert_eq!(stage_of_name("logic2"), Some(StageKind::Logic2));
    assert_eq!(stage_of_name("spi"), Some(StageKind::Spi));
    assert_eq!(stage_of_name("spif"), Some(StageKind::Spif));
    assert_eq!(stage_of_name("serial"), Some(StageKind::Serial));
    assert_eq!(stage_of_name("wizfi310"), Some(StageKind::Wizfi310));
    assert_eq!(stage_of_name("usb::signal"), Some(StageKind::UsbSignal));
    assert_eq!(stage_of_name("usb::byte"), Some(StageKind::UsbByte));
    assert_eq!(stage_of_name("usb::packet"), Some(StageKind::UsbPacket));
    assert_eq!(stage_of_name("usb::protocol"), Some(StageKind::UsbProtocol));
    assert_eq!(stage_of_name("usb::device"), Some(StageKind::UsbDevice));
    assert_eq!(stage_of_name("usb"), None);
    assert_eq!(stage_of_name("--fs"), None);
    assert_eq!(stage_of_name(""), None);
}

#[test]
fn stages_read_what_the_stage_before_hands_out() {
    assert_eq!(StageKind::Vcd.input(), None);
    assert_eq!(StageKind::Logic2.output(), EventType::Sample);
    assert_eq!(StageKind::UsbDevice.input(), Some(EventType::UsbTransaction));
    assert_eq!(StageKind::UsbProtocol.output(), EventType::UsbTransaction);
    assert_eq!(StageKind::Wizfi310.input(), Some(StageKind::Serial.output()));
    assert_eq!(StageKind::Spif.input(), Some(StageKind::Spi.output()));
    assert_eq!(StageKind::UsbPacket.prerequisite(), Some(StageKind::UsbByte));
    assert_eq!(StageKind::UsbSignal.prerequisite(), None);
    assert_eq!(StageKind::Serial.prerequisite(), None);
}

#[test]
fn missing_stages_of_the_usb_stack_are_put_in() {
    assert_eq!(
        plan(&vec![StageKind::Logic2, StageKind::UsbPacket]),
        Ok(vec![
            StageKind::Logic2,
            StageKind::UsbSignal,
            StageKind::UsbByte,
            StageKind::UsbPacket
        ])
    );
    assert_eq!(
        plan(&vec![StageKind::Vcd, StageKind::UsbSignal, StageKind::UsbDevice]),
        Ok(vec![
            StageKind::Vcd,
            StageKind::UsbSignal,
            StageKind::UsbByte,
            StageKind::UsbPacket,
            StageKind::UsbProtocol,
            StageKind::UsbDevice
        ])
    );
    assert_eq!(
        plan(&vec![StageKind::Logic, StageKind::Serial, StageKind::Wizfi310]),
        Ok(vec![StageKind::Logic, StageKind::Serial, StageKind::Wizfi310])
    );
}

#[test]
fn pipelines_that_cannot_be_put_together() {
    assert_eq!(plan(&vec![]), Err(PipelineError::Unresolved(0)));
    assert_eq!(plan(&vec![StageKind::Vcd, StageKind::Logic]), Err(PipelineError::Unresolved(2)));
    assert_eq!(
        plan(&vec![StageKind::UsbByte]),
        Err(PipelineError::MissingSource(StageKind::UsbByte))
    );
    assert_eq!(
        plan(&vec![StageKind::Vcd, StageKind::Wizfi310]),
        Err(PipelineError::TypeMismatch {
            stage: StageKind::Wizfi310,
            expected: EventType::SerialEvent,
            actual: EventType::Sample
        })
    );
    // the stage that is put in is the one that does not fit
    assert_eq!(
        plan(&vec![StageKind::Vcd, StageKind::Serial, StageKind::UsbPacket]),
        Err(PipelineError::TypeMismatch {
            stage: StageKind::UsbSignal,
            expected: EventType::Sample,
            actual: EventType::SerialEvent
        })
    );
}

#[test]
fn a_stack_that_cannot_take_a_stage_stays_as_it_is() {
    let mut stack = vec![EventType::Sample, EventType::SerialEvent];
    let mut set_up = vec![StageKind::Vcd];
    assert!(push_stage(&mut stack, StageKind::UsbDevice, &mut set_up).is_err());
    assert_eq!(stack, vec![EventType::Sample, EventType::SerialEvent]);
    assert_eq!(set_up, vec![StageKind::Vcd]);
    assert_eq!(push_stage(&mut stack, StageKind::Wizfi310, &mut set_up), Ok(()));
    assert_eq!(stack, vec![EventType::Sample, EventType::WizFi310Event]);
    assert_eq!(set_up, vec![StageKind::Vcd, StageKind::Wizfi310]);
}

#[test]
fn command_line_is_parted_at_the_names_of_stages() {
    let args: Vec<String> = ["logic2", "capture", "usb::signal", "--dp", "2", "--fs", "usb::packet"]
        .iter()
        .map(|s| s.to_string())
        .collect();
    assert_eq!(
        tokenize(&args),
        Ok(vec![
            Invocation { stage: StageKind::Logic2, first: 1, end: 2, last: false },
            Invocation { stage: StageKind::UsbSignal, first: 3, end: 6, last: false },
            Invocation { stage: StageKind::UsbPacket, first: 7, end: 7, last: true },
        ])
    );
    assert_eq!(tokenize(&vec![]), Ok(vec![]));
    assert_eq!(tokenize(&vec!["capture".to_string()]), Err(PipelineError::UnknownStage));
}
