use logic_decoder::error::{ControlError, DecodeError, DescriptorError, RequestError};
use logic_decoder::usb::device::cdc;
use logic_decoder::usb::device::control::{ControlEndpoint, Event as ControlEvent, Response};
use logic_decoder::usb::device::lang_id::LanguageId;
use logic_decoder::usb::device::msd;
use logic_decoder::usb::device::types::{
    BinaryObjectStore, ClassSpecificDescriptor, ConfigurationCharacteristics,
    ConfigurationDescriptor, DataPhaseTransferDirection, Descriptor, DeviceCapabilityDescriptor,
    DeviceClass, DeviceDescriptor, DeviceRelease, DeviceRequest, ERequest, EndpointDescriptor,
    EndpointDirection, GetDescriptorType, InterfaceAssociationDescriptor, InterfaceClass,
    InterfaceDescriptor, MaxPacketSize, MaxPower, MiscellaneousSubClass, PackedRequestType,
    PlainInterfaceDescriptor, Recipient, Request, RequestType, StandardRequest, StringDescriptor,
    SyncType, TransferType, UsageType, UsbVersion,
};
use logic_decoder::usb::device::{
    ClassEvent, DeviceEvent, DeviceEventIterator, Endpoint, EndpointHandler, InterfaceEvent,
};
use logic_decoder::usb::protocol::{Event, Transaction};
use logic_decoder::usb::types::{Data, DataPID, HandShake, Token, TokenType};
use std::collections::{HashMap, VecDeque};

const DEVICE: [u8; 18] = [
    18, 1, 0x00, 0x02, 2, 2, 0, 64, 0x83, 0x04, 0x40, 0x57, 0x00, 0x02, 1, 2, 3, 1,
];

fn device() -> DeviceDescriptor {
    DeviceDescriptor {
        usb_version: UsbVersion(0x0200),
        device_class: DeviceClass::CommunicationDevice(cdc::DeviceSubClass::AbstractControlModel),
        max_packet_size: MaxPacketSize::_64,
        vendor_id: 0x0483,
        product_id: 0x5740,
        device_release_number: DeviceRelease(0x0200),
        manufacturer_string_index: 1,
        product_string_index: 2,
        serial_number_string_index: 3,
        num_configuration: 1,
    }
}

#[test]
fn decodes_a_device_descriptor() {
    assert_eq!(DeviceDescriptor::try_from(DEVICE), Ok(device()));
}

#[test]
fn device_descriptor_round_trip() {
    assert_eq!(device().encode(), DEVICE);
    assert_eq!(DeviceDescriptor::try_from(device().encode()), Ok(device()));
    let other = DeviceDescriptor {
        device_class: DeviceClass::Miscellaneous(
            MiscellaneousSubClass::InterfaceAssociationDescriptor,
        ),
        max_packet_size: MaxPacketSize::Reserved(9),
        usb_version: UsbVersion(0x0210),
        ..device()
    };
    assert_eq!(DeviceDescriptor::try_from(other.encode()), Ok(other));
    assert_eq!(other.usb_version.parts(), (2, 1, 0));
}

#[test]
fn device_descriptor_errors() {
    let mut d = DEVICE;
    d[1] = 2;
    assert_eq!(
        DeviceDescriptor::try_from(d),
        Err(DescriptorError::InvalidType { expected: 1, got: 2 })
    );
    let mut d = DEVICE;
    d[0] = 17;
    assert_eq!(
        DeviceDescriptor::try_from(d),
        Err(DescriptorError::InvalidLength { expected: 18, got: 17 })
    );
    let mut d = DEVICE;
    d[4] = 3;
    assert_eq!(
        DeviceDescriptor::try_from(d),
        Err(DescriptorError::UnsupportedDeviceClass(3, 2, 0))
    );
}

#[test]
fn device_classes() {
    assert_eq!(
        DeviceClass::try_from((0xEF, 2, 1)),
        Ok(DeviceClass::Miscellaneous(MiscellaneousSubClass::InterfaceAssociationDescriptor))
    );
    assert_eq!(
        DeviceClass::try_from((2, 200, 7)),
        Ok(DeviceClass::CommunicationDevice(cdc::DeviceSubClass::VendorSpecific(200)))
    );
    assert_eq!(
        cdc::DeviceSubClass::try_from((100, 0)),
        Ok(cdc::DeviceSubClass::ReservedForFutureUse(100))
    );
    assert_eq!(cdc::DeviceSubClass::try_from((255, 0)), Ok(cdc::DeviceSubClass::Unkown255));
    assert_eq!(cdc::DeviceSubClass::try_from((13, 0)), Ok(cdc::DeviceSubClass::NetworkControlModel));
    assert_eq!(MaxPacketSize::from(8), MaxPacketSize::_8);
    assert_eq!(MaxPacketSize::from(16), MaxPacketSize::_16);
    assert_eq!(MaxPacketSize::from(32), MaxPacketSize::_32);
    assert_eq!(MaxPacketSize::from(7), MaxPacketSize::Reserved(7));
    assert_eq!(MaxPower(50).milliamps(), 100);
    assert_eq!(MaxPower(255).milliamps(), 510);
}

#[test]
fn decodes_an_endpoint_descriptor() {
    let e = EndpointDescriptor::try_from([7, 5, 0x81, 0x02, 0x40, 0x00, 0]);
    assert_eq!(
        e,
        Ok(EndpointDescriptor {
            endpoint_number: 1,
            direction: EndpointDirection::In,
            attributes: TransferType::Bulk,
            max_packet_size: 64,
            interval: 0
        })
    );
    let e = EndpointDescriptor::try_from([7, 5, 0x02, 0x25, 0x00, 0x02, 1]).unwrap();
    assert_eq!(e.direction, EndpointDirection::Out);
    assert_eq!(e.max_packet_size, 512);
    assert_eq!(
        e.attributes,
        TransferType::Isochronous {
            sync_type: SyncType::Asynchronous,
            usage_type: UsageType::ImplicitFeedbackDataEndpoint
        }
    );
    assert_eq!(e.encode(), [7, 5, 0x02, 0x25, 0x00, 0x02, 1]);
}

#[test]
fn endpoint_descriptor_round_trip() {
    for attributes in [
        TransferType::Control,
        TransferType::Bulk,
        TransferType::Interrupt,
        TransferType::Isochronous {
            sync_type: SyncType::Synchronous,
            usage_type: UsageType::FeedbackEndpoint,
        },
        TransferType::Isochronous {
            sync_type: SyncType::NoSynchronization,
            usage_type: UsageType::Reserved,
        },
        TransferType::Isochronous {
            sync_type: SyncType::Adaptive,
            usage_type: UsageType::DataEndpoint,
        },
    ] {
        for direction in [EndpointDirection::In, EndpointDirection::Out] {
            let e = EndpointDescriptor {
                endpoint_number: 15,
                direction,
                attributes,
                max_packet_size: 0x1234,
                interval: 9,
            };
            assert_eq!(EndpointDescriptor::try_from(e.encode()), Ok(e));
        }
    }
}

#[test]
fn endpoint_descriptor_errors() {
    assert_eq!(
        EndpointDescriptor::try_from([7, 4, 0x81, 0x02, 0x40, 0x00, 0]),
        Err(DescriptorError::InvalidType { expected: 5, got: 4 })
    );
    assert_eq!(
        EndpointDescriptor::try_from([8, 5, 0x81, 0x02, 0x40, 0x00, 0]),
        Err(DescriptorError::InvalidLength { expected: 7, got: 8 })
    );
    assert_eq!(
        EndpointDescriptor::try_from([7, 5, 0x91, 0x02, 0x40, 0x00, 0]),
        Err(DescriptorError::EndpointAddressReservedSet(0x10))
    );
    assert_eq!(
        EndpointDescriptor::try_from([7, 5, 0x81, 0x42, 0x40, 0x00, 0]),
        Err(DescriptorError::TransferReservedSet(0x40))
    );
    assert_eq!(TransferType::try_from(0x06), Err(DescriptorError::TransferReservedSet(0x04)));
    assert_eq!(TransferType::try_from(0x03), Ok(TransferType::Interrupt));
    assert_eq!(TransferType::try_from(0x00), Ok(TransferType::Control));
}

#[test]
fn configuration_characteristics() {
    assert_eq!(
        ConfigurationCharacteristics::try_from(0xC0),
        Ok(ConfigurationCharacteristics { self_powered: true, remote_wakeup: false })
    );
    assert_eq!(
        ConfigurationCharacteristics::try_from(0xA0),
        Ok(ConfigurationCharacteristics { self_powered: false, remote_wakeup: true })
    );
    assert_eq!(
        ConfigurationCharacteristics::try_from(0x40),
        Err(DescriptorError::ConfigurationBit7Clear)
    );
    assert_eq!(
        ConfigurationCharacteristics::try_from(0x81),
        Err(DescriptorError::ConfigurationReservedSet)
    );
}

fn cdc_configuration() -> Vec<u8> {
    let mut v = vec![9, 2, 0, 0, 2, 1, 0, 0xC0, 50];
    // interface association of two interfaces
    v.extend_from_slice(&[8, 11, 0, 2, 2, 2, 1, 0]);
    // communications interface with two class descriptors and one endpoint
    v.extend_from_slice(&[9, 4, 0, 0, 1, 2, 2, 1, 0]);
    v.extend_from_slice(&[5, 0x24, 0, 0x10, 0x01]);
    v.extend_from_slice(&[4, 0x24, 2, 2]);
    v.extend_from_slice(&[7, 5, 0x82, 0x03, 8, 0, 16]);
    // data interface; its endpoints follow at once
    v.extend_from_slice(&[9, 4, 1, 0, 2, 10, 0, 0, 0]);
    v.extend_from_slice(&[7, 5, 0x01, 0x02, 64, 0, 0]);
    v.extend_from_slice(&[7, 5, 0x81, 0x02, 64, 0, 0]);
    let n = v.len() as u16;
    v[2] = (n & 0xFF) as u8;
    v[3] = (n >> 8) as u8;
    v
}

fn bulk(number: u8, direction: EndpointDirection) -> EndpointDescriptor {
    EndpointDescriptor {
        endpoint_number: number,
        direction,
        attributes: TransferType::Bulk,
        max_packet_size: 64,
        interval: 0,
    }
}

#[test]
fn decodes_a_configuration() {
    let c = ConfigurationDescriptor::parse(&cdc_configuration()).unwrap();
    assert_eq!(c.configuration_value, 1);
    assert_eq!(c.description_string_index, 0);
    assert_eq!(c.max_power, MaxPower(50));
    assert_eq!(
        c.attributes,
        ConfigurationCharacteristics { self_powered: true, remote_wakeup: false }
    );
    assert_eq!(
        c.interfaces,
        vec![InterfaceDescriptor::Association(InterfaceAssociationDescriptor {
            first_interface: 0,
            function_class: (2, 2, 1),
            function_description_string_index: 0,
            interfaces: vec![
                PlainInterfaceDescriptor {
                    id: 0,
                    alternate_setting: 0,
                    class: InterfaceClass::CommunicationDevice(cdc::InterfaceSubClass {
                        subclass: 2,
                        protocol: 1
                    }),
                    description_string_index: 0,
                    interface_class_descriptor: vec![
                        ClassSpecificDescriptor::CommunicationDevice(
                            cdc::ClassSpecificDescriptor::Interface(cdc::InterfaceDescriptor)
                        ),
                        ClassSpecificDescriptor::CommunicationDevice(
                            cdc::ClassSpecificDescriptor::Interface(cdc::InterfaceDescriptor)
                        ),
                    ],
                    endpoints: vec![EndpointDescriptor {
                        endpoint_number: 2,
                        direction: EndpointDirection::In,
                        attributes: TransferType::Interrupt,
                        max_packet_size: 8,
                        interval: 16
                    }],
                },
                PlainInterfaceDescriptor {
                    id: 1,
                    alternate_setting: 0,
                    class: InterfaceClass::CDCData(cdc::DataInterfaceSubClass {
                        subclass: 0,
                        protocol: 0
                    }),
                    description_string_index: 0,
                    interface_class_descriptor: vec![],
                    endpoints: vec![
                        bulk(1, EndpointDirection::Out),
                        bulk(1, EndpointDirection::In)
                    ],
                },
            ],
        })]
    );
}

#[test]
fn configuration_errors() {
    let good = cdc_configuration();
    assert_eq!(ConfigurationDescriptor::parse(&[9]), Err(DescriptorError::Truncated));
    let mut c = good.clone();
    c[1] = 4;
    assert_eq!(
        ConfigurationDescriptor::parse(&c),
        Err(DescriptorError::InvalidType { expected: 2, got: 4 })
    );
    let mut c = good.clone();
    c[0] = 8;
    assert_eq!(
        ConfigurationDescriptor::parse(&c),
        Err(DescriptorError::InvalidLength { expected: 9, got: 8 })
    );
    let mut c = good.clone();
    c.pop();
    assert_eq!(ConfigurationDescriptor::parse(&c), Err(DescriptorError::TotalLengthMismatch));
    let mut c = good.clone();
    c[7] = 0x40;
    assert_eq!(ConfigurationDescriptor::parse(&c), Err(DescriptorError::ConfigurationBit7Clear));
    let mut c = good.clone();
    c[10] = 9;
    assert_eq!(ConfigurationDescriptor::parse(&c), Err(DescriptorError::UnexpectedType(9)));
    let mut c = good.clone();
    c[17 + 5] = 3;
    assert_eq!(
        ConfigurationDescriptor::parse(&c),
        Err(DescriptorError::UnsupportedInterfaceClass(3))
    );
    // a vendor interface has no class descriptors that are handled
    let mut c = good.clone();
    c[17 + 5] = 0xFF;
    assert_eq!(
        ConfigurationDescriptor::parse(&c),
        Err(DescriptorError::ClassDescriptorUnsupported)
    );
    // a class descriptor that says it is one byte long
    let mut c = good.clone();
    c[26] = 1;
    assert_eq!(ConfigurationDescriptor::parse(&c), Err(DescriptorError::TooShort { got: 1 }));
}

#[test]
fn interface_parsers_hand_back_what_follows() {
    let v = [9, 4, 1, 0, 1, 10, 0, 0, 0, 7, 5, 0x01, 0x02, 64, 0, 0, 0xAA, 0xBB];
    let (rest, interface) = PlainInterfaceDescriptor::parse(&v).unwrap();
    assert_eq!(rest, &[0xAA, 0xBB]);
    assert_eq!(interface.endpoints, vec![bulk(1, EndpointDirection::Out)]);
    let (rest, wrapped) = InterfaceDescriptor::parse(&v).unwrap();
    assert_eq!(rest, &[0xAA, 0xBB]);
    assert_eq!(wrapped, InterfaceDescriptor::Plain(interface));
    assert_eq!(InterfaceDescriptor::parse(&[9]).err(), Some(DescriptorError::Truncated));
    assert_eq!(
        InterfaceAssociationDescriptor::parse(&[8, 11, 0, 0, 2, 2, 1, 5, 1, 2]),
        Ok((
            &[1u8, 2][..],
            InterfaceAssociationDescriptor {
                first_interface: 0,
                interfaces: vec![],
                function_class: (2, 2, 1),
                function_description_string_index: 5
            }
        ))
    );
    assert_eq!(
        InterfaceAssociationDescriptor::parse(&[7, 11, 0, 0, 2, 2, 1, 5]).err(),
        Some(DescriptorError::InvalidLength { expected: 8, got: 7 })
    );
    // an endpoint that is cut off
    assert_eq!(
        PlainInterfaceDescriptor::parse(&v[..14]).err(),
        Some(DescriptorError::Truncated)
    );
    assert_eq!(
        PlainInterfaceDescriptor::parse(&[9, 4, 1, 0, 1, 10, 0, 0, 0, 6, 5, 1, 2, 64, 0]).err(),
        Some(DescriptorError::InvalidLength { expected: 7, got: 6 })
    );
}

#[test]
fn an_interface_may_have_no_endpoints() {
    assert_eq!(
        PlainInterfaceDescriptor::parse(&[9, 4, 2, 0, 0, 0xFF, 0, 0, 0]),
        Ok((
            &[][..],
            PlainInterfaceDescriptor {
                id: 2,
                alternate_setting: 0,
                endpoints: vec![],
                interface_class_descriptor: vec![],
                class: InterfaceClass::VendorSpecific { subclass: 0, protocol: 0 },
                description_string_index: 0
            }
        ))
    );
    // an interface without endpoints before another interface, in a configuration
    let mut c = vec![9, 2, 0, 0, 2, 1, 0, 0x80, 10];
    c.extend_from_slice(&[9, 4, 0, 0, 0, 2, 2, 1, 0]);
    c.extend_from_slice(&[5, 0x24, 0, 0x10, 0x01]);
    c.extend_from_slice(&[9, 4, 1, 0, 1, 10, 0, 0, 0]);
    c.extend_from_slice(&[7, 5, 0x01, 0x02, 64, 0, 0]);
    c[2] = c.len() as u8;
    let parsed = ConfigurationDescriptor::parse(&c).unwrap();
    assert_eq!(parsed.interfaces.len(), 2);
    match &parsed.interfaces[0] {
        InterfaceDescriptor::Plain(p) => {
            assert_eq!(p.endpoints, vec![]);
            assert_eq!(p.interface_class_descriptor.len(), 1);
        }
        _ => panic!("the first entry is no plain interface"),
    }
    match &parsed.interfaces[1] {
        InterfaceDescriptor::Plain(p) => {
            assert_eq!(p.id, 1);
            assert_eq!(p.endpoints, vec![bulk(1, EndpointDirection::Out)]);
        }
        _ => panic!("the second entry is no plain interface"),
    }
    // and before an interface association
    let v = [9, 4, 7, 0, 0, 10, 0, 0, 0, 8, 11, 0, 0, 2, 2, 1, 5];
    let (rest, interface) = PlainInterfaceDescriptor::parse(&v).unwrap();
    assert_eq!(rest, &v[9..]);
    assert_eq!(interface.endpoints.len(), 0);
    // the number of endpoints is the one that the header says
    let (_, two) = PlainInterfaceDescriptor::parse(&[
        9, 4, 1, 0, 2, 10, 0, 0, 0, 7, 5, 0x01, 0x02, 64, 0, 0, 7, 5, 0x81, 0x02, 64, 0, 0,
    ])
    .unwrap();
    assert_eq!(two.endpoints.len(), 2);
    // a header that says endpoints which do not follow
    assert_eq!(
        PlainInterfaceDescriptor::parse(&[9, 4, 2, 0, 1, 0xFF, 0, 0, 0]).err(),
        Some(DescriptorError::InvalidLength { expected: 7, got: 0 })
    );
    // one byte is no descriptor
    assert_eq!(
        PlainInterfaceDescriptor::parse(&[9, 4, 2, 0, 0, 0xFF, 0, 0, 0, 9]).err(),
        Some(DescriptorError::Truncated)
    );
}

#[test]
fn class_specific_descriptors() {
    assert_eq!(
        cdc::ClassSpecificDescriptor::parse(&[3, 0x25, 9, 7]),
        Ok((&[7u8][..], cdc::ClassSpecificDescriptor::Endpoint(cdc::EndpointDescriptor)))
    );
    assert_eq!(
        cdc::ClassSpecificDescriptor::parse(&[3, 0x26, 9, 7]),
        Err(DescriptorError::InvalidType { expected: 0x24, got: 0x26 })
    );
    assert_eq!(cdc::ClassSpecificDescriptor::parse(&[3]), Err(DescriptorError::Truncated));
    assert_eq!(cdc::ClassSpecificDescriptor::parse(&[9, 0x24]), Err(DescriptorError::Truncated));
    assert_eq!(
        msd::ClassSpecificDescriptor::parse(&[2, 0x24, 9, 7]),
        Ok((&[9u8, 7][..], msd::ClassSpecificDescriptor))
    );
    let class = InterfaceClass::try_from((8, 6, 0x50)).unwrap();
    assert_eq!(
        class,
        InterfaceClass::MassStorageDevice(msd::InterfaceSubClass { subclass: 6, protocol: 0x50 })
    );
    assert_eq!(
        class.parse_descriptor(&[2, 0x24, 1]),
        Ok((&[1u8][..], ClassSpecificDescriptor::MassStorageDevice(msd::ClassSpecificDescriptor)))
    );
    assert_eq!(
        InterfaceClass::try_from((0xFF, 1, 2)),
        Ok(InterfaceClass::VendorSpecific { subclass: 1, protocol: 2 })
    );
}

#[test]
fn decodes_string_descriptors() {
    assert_eq!(
        StringDescriptor::parse(0, &[6, 3, 0x09, 0x04, 0x07, 0x04]),
        Ok(StringDescriptor::CodeArray(vec![LanguageId(0x0409), LanguageId(0x0407)]))
    );
    assert_eq!(
        StringDescriptor::parse(2, &[8, 3, b'U', 0, b'S', 0, b'B', 0]),
        Ok(StringDescriptor::String("USB".to_string()))
    );
    // a lone surrogate is replaced
    assert_eq!(
        StringDescriptor::parse(1, &[6, 3, 0x00, 0xD8, b'x', 0]),
        Ok(StringDescriptor::String("\u{FFFD}x".to_string()))
    );
    // a last byte without a partner is left out
    assert_eq!(
        StringDescriptor::parse(1, &[5, 3, b'a', 0, b'b']),
        Ok(StringDescriptor::String("a".to_string()))
    );
    assert_eq!(StringDescriptor::parse(1, &[5, 3, 0, 0]), Err(DescriptorError::Truncated));
    assert_eq!(
        StringDescriptor::parse(1, &[4, 2, 0, 0]),
        Err(DescriptorError::InvalidType { expected: 3, got: 2 })
    );
    assert_eq!(StringDescriptor::parse(1, &[4]), Err(DescriptorError::Truncated));
}

#[test]
fn decodes_a_binary_object_store() {
    let bos = [5, 15, 16, 0, 3, 7, 16, 2, 2, 0, 0, 0, 4, 16, 1, 9];
    // the store says three capabilities and holds two
    assert_eq!(BinaryObjectStore::parse(&bos), Err(DescriptorError::Truncated));
    let mut two = bos;
    two[4] = 2;
    assert_eq!(
        BinaryObjectStore::parse(&two),
        Ok(BinaryObjectStore(vec![
            DeviceCapabilityDescriptor::USB20Extensions { link_power_management: true },
            DeviceCapabilityDescriptor::Unimplemented(1, vec![9]),
        ]))
    );
    let mut bad = two;
    bad[2] = 17;
    assert_eq!(BinaryObjectStore::parse(&bad), Err(DescriptorError::TotalLengthMismatch));
    let mut bad = two;
    bad[0] = 6;
    assert_eq!(
        BinaryObjectStore::parse(&bad),
        Err(DescriptorError::InvalidLength { expected: 5, got: 6 })
    );
    assert_eq!(BinaryObjectStore::parse(&[5, 15, 4, 0]), Err(DescriptorError::Truncated));
}

#[test]
fn decodes_device_capabilities() {
    assert_eq!(
        DeviceCapabilityDescriptor::parse(&[7, 16, 2, 0, 0, 0, 0, 0xEE]),
        Ok((
            &[0xEEu8][..],
            DeviceCapabilityDescriptor::USB20Extensions { link_power_management: false }
        ))
    );
    assert_eq!(
        DeviceCapabilityDescriptor::parse(&[7, 16, 2, 4, 0, 0, 0]),
        Err(DescriptorError::InvalidExtensionAttributes)
    );
    assert_eq!(
        DeviceCapabilityDescriptor::parse(&[6, 16, 2, 2, 0, 0]),
        Err(DescriptorError::InvalidLength { expected: 7, got: 6 })
    );
    assert_eq!(
        DeviceCapabilityDescriptor::parse(&[5, 16, 0x20, 1, 2]),
        Ok((&[][..], DeviceCapabilityDescriptor::Reserved(0x20, vec![1, 2])))
    );
    assert_eq!(
        DeviceCapabilityDescriptor::parse(&[3, 16, 0]),
        Ok((&[][..], DeviceCapabilityDescriptor::Reserved(0, vec![])))
    );
    assert_eq!(
        DeviceCapabilityDescriptor::parse(&[2, 16]),
        Err(DescriptorError::TooShort { got: 2 })
    );
    assert_eq!(DeviceCapabilityDescriptor::parse(&[9, 16, 1]), Err(DescriptorError::Truncated));
    assert_eq!(
        DeviceCapabilityDescriptor::parse(&[3, 15, 1]),
        Err(DescriptorError::InvalidType { expected: 16, got: 15 })
    );
}

#[test]
fn descriptors_by_request() {
    assert_eq!(
        Descriptor::try_from((GetDescriptorType::Device, DEVICE.to_vec())),
        Ok(Descriptor::Device(device()))
    );
    // a host that asks for eight bytes gets a descriptor that is cut off
    assert_eq!(
        Descriptor::try_from((GetDescriptorType::Device, DEVICE[..8].to_vec())),
        Err(DescriptorError::Truncated)
    );
    assert_eq!(
        Descriptor::try_from((GetDescriptorType::Configuration(0), cdc_configuration()))
            .map(|d| matches!(d, Descriptor::Configuration(_))),
        Ok(true)
    );
    assert_eq!(
        Descriptor::try_from((
            GetDescriptorType::String(0, LanguageId(0)),
            vec![4, 3, 0x09, 0x04]
        )),
        Ok(Descriptor::String(StringDescriptor::CodeArray(vec![LanguageId(0x0409)])))
    );
    assert_eq!(
        Descriptor::try_from((GetDescriptorType::BinaryObjectStore(0, 0), vec![5, 15, 5, 0, 0])),
        Ok(Descriptor::BinaryObjectStore(BinaryObjectStore(vec![])))
    );
    // the answer is of another type than was asked for
    assert_eq!(
        Descriptor::try_from((GetDescriptorType::Device, vec![9, 4, 0, 0])),
        Err(DescriptorError::UnsupportedType(4))
    );
    assert_eq!(
        Descriptor::try_from((GetDescriptorType::Device, vec![4, 3, 0, 0])),
        Ok(Descriptor::Reserved(vec![4, 3, 0, 0]))
    );
    assert_eq!(
        Descriptor::try_from((GetDescriptorType::DeviceQualifier, vec![1])),
        Err(DescriptorError::Truncated)
    );
}

#[test]
fn unpacks_the_request_type() {
    let p = PackedRequestType(0x80);
    assert_eq!(p.direction(), DataPhaseTransferDirection::In);
    assert_eq!(p.request_type(), RequestType::Standard);
    assert_eq!(p.recipient(), Recipient::Device);
    let p = PackedRequestType(0x21);
    assert_eq!(p.direction(), DataPhaseTransferDirection::Out);
    assert_eq!(p.request_type(), RequestType::Class);
    assert_eq!(p.recipient(), Recipient::Interface);
    let p = PackedRequestType(0x42);
    assert_eq!(p.request_type(), RequestType::Vendor);
    assert_eq!(p.recipient(), Recipient::Endpoint);
    let p = PackedRequestType(0x63);
    assert_eq!(p.request_type(), RequestType::Reserved);
    assert_eq!(p.recipient(), Recipient::Other);
    assert_eq!(PackedRequestType(0x1F).recipient(), Recipient::Reserved(31));
}

#[test]
fn decodes_requests() {
    assert_eq!(
        Request::try_from(&[0x80, 6, 0x00, 0x01, 0x00, 0x00, 0x12, 0x00]),
        Ok(Request {
            direction: DataPhaseTransferDirection::In,
            request: ERequest::Device(DeviceRequest::Standard(StandardRequest::GetDescriptor(
                GetDescriptorType::Device
            ))),
            length: 18
        })
    );
    assert_eq!(
        Request::try_from(&[0x00, 9, 0x01, 0x00, 0x00, 0x00, 0x00, 0x00]),
        Ok(Request {
            direction: DataPhaseTransferDirection::Out,
            request: ERequest::Device(DeviceRequest::Standard(StandardRequest::SetConfiguration(
                1
            ))),
            length: 0
        })
    );
    assert_eq!(
        Request::try_from(&[0x21, 0x22, 0x03, 0x00, 0x01, 0x00, 0x00, 0x00]),
        Ok(Request {
            direction: DataPhaseTransferDirection::Out,
            request: ERequest::Interface {
                request_type: RequestType::Class,
                request: 0x22,
                value: 3,
                index: 1
            },
            length: 0
        })
    );
    assert_eq!(Request::try_from(&[0; 7]), Err(RequestError::InvalidSetupLength));
    assert_eq!(Request::try_from(&[0x02, 0, 0, 0, 0, 0, 0, 0]), Err(RequestError::UnsupportedRecipient));
    assert_eq!(
        Request::try_from(&[0x20, 0, 0, 0, 0, 0, 0, 0]),
        Err(RequestError::UnsupportedRequestType)
    );
    assert_eq!(
        Request::try_from(&[0x80, 6, 0, 0x21, 0, 0, 0, 0]),
        Err(RequestError::InvalidDescriptorType(0x21))
    );
    assert_eq!(
        ERequest::try_from((Recipient::Reserved(9), RequestType::Vendor, 1, 2, 3)),
        Ok(ERequest::Unknown {
            recipient: 9,
            request_type: RequestType::Vendor,
            request: 1,
            value: 2,
            index: 3
        })
    );
    assert_eq!(
        DeviceRequest::try_from((RequestType::Reserved, 1, 2, 3)),
        Ok(DeviceRequest::Reserved { request: 1, value: 2, index: 3 })
    );
    assert_eq!(StandardRequest::try_from((0, 0, 0)), Ok(StandardRequest::GetStatus));
    assert_eq!(StandardRequest::try_from((12, 0, 0)), Ok(StandardRequest::SyncFrame));
    assert_eq!(
        StandardRequest::try_from((2, 5, 6)),
        Ok(StandardRequest::Reserved { request: 2, value: 5, index: 6 })
    );
    assert_eq!(
        GetDescriptorType::try_from((0x0305, 0x0409)),
        Ok(GetDescriptorType::String(5, LanguageId(0x0409)))
    );
    assert_eq!(
        GetDescriptorType::try_from((0x0203, 0)),
        Ok(GetDescriptorType::Configuration(3))
    );
    assert_eq!(
        GetDescriptorType::try_from((0x0F00, 7)),
        Ok(GetDescriptorType::BinaryObjectStore(0, 7))
    );
    assert_eq!(GetDescriptorType::try_from((0x0600, 0)), Ok(GetDescriptorType::DeviceQualifier));
    assert_eq!(
        GetDescriptorType::try_from((0x0700, 0)),
        Ok(GetDescriptorType::OtherSpeedConfiguration)
    );
    assert_eq!(
        GetDescriptorType::try_from((0x0101, 0)),
        Err(RequestError::InvalidDescriptorType(1))
    );
}

fn transaction(token_type: TokenType, endpoint: u8, data: Option<(DataPID, Vec<u8>)>) -> Transaction {
    Transaction {
        token: Token { token_type, address: 1, endpoint },
        data: data.map(|(pid, payload)| Data { pid, payload }),
        handshake: HandShake::Ack,
    }
}

fn get_device_descriptor() -> Request {
    Request::try_from(&[0x80, 6, 0x00, 0x01, 0x00, 0x00, 0x12, 0x00]).unwrap()
}

#[test]
fn control_transfer_reads_a_device_descriptor() {
    let mut control = ControlEndpoint::new();
    let mut endpoints = HashMap::new();
    let setup = vec![0x80, 6, 0x00, 0x01, 0x00, 0x00, 0x12, 0x00];
    assert_eq!(
        control.update(0, transaction(TokenType::Setup, 0, Some((DataPID::Data0, setup))), &mut endpoints),
        None
    );
    // the registry without a handler gets the default ones
    assert_eq!(endpoints.len(), 4);
    assert_eq!(endpoints.get(&1), Some(&EndpointHandler::Cdc(cdc::CdCEndpoint(4))));
    assert_eq!(endpoints.get(&6), Some(&EndpointHandler::Cdc(cdc::CdCEndpoint(5))));
    assert_eq!(
        control.update(
            1,
            transaction(TokenType::In, 0, Some((DataPID::Data1, DEVICE[..8].to_vec()))),
            &mut endpoints
        ),
        None
    );
    // a transaction that was not acknowledged changes nothing
    let mut nak = transaction(TokenType::In, 0, None);
    nak.handshake = HandShake::NAck;
    assert_eq!(control.update(2, nak, &mut endpoints), None);
    assert_eq!(
        control.update(
            3,
            transaction(TokenType::In, 0, Some((DataPID::Data0, DEVICE[8..].to_vec()))),
            &mut endpoints
        ),
        None
    );
    assert_eq!(
        control.update(
            4,
            transaction(TokenType::Out, 0, Some((DataPID::Data1, vec![]))),
            &mut endpoints
        ),
        Some(Ok(DeviceEvent::Control(ControlEvent::Completed {
            request: get_device_descriptor(),
            response: Some(Response::Descriptor(Descriptor::Device(device())))
        })))
    );
}

#[test]
fn control_transfer_without_data_stage() {
    let mut control = ControlEndpoint::new();
    let mut endpoints = HashMap::new();
    let setup = vec![0x00, 9, 0x01, 0x00, 0x00, 0x00, 0x00, 0x00];
    let request = Request::try_from(&setup).unwrap();
    assert_eq!(
        control.update(0, transaction(TokenType::Setup, 0, Some((DataPID::Data0, setup))), &mut endpoints),
        None
    );
    assert_eq!(
        control.update(1, transaction(TokenType::In, 0, Some((DataPID::Data1, vec![]))), &mut endpoints),
        Some(Ok(DeviceEvent::Control(ControlEvent::Completed { request, response: None })))
    );
}

#[test]
fn control_transfer_with_raw_response_and_early_status() {
    let mut control = ControlEndpoint::new();
    let mut endpoints = HashMap::new();
    // a class request to an interface that reads up to seven bytes
    let setup = vec![0xA1, 0x21, 0x00, 0x00, 0x00, 0x00, 0x07, 0x00];
    let request = Request::try_from(&setup).unwrap();
    control.update(0, transaction(TokenType::Setup, 0, Some((DataPID::Data0, setup))), &mut endpoints);
    control.update(1, transaction(TokenType::In, 0, Some((DataPID::Data1, vec![1, 2, 3]))), &mut endpoints);
    // the host ends the transfer before all seven bytes came
    assert_eq!(
        control.update(2, transaction(TokenType::Out, 0, Some((DataPID::Data1, vec![]))), &mut endpoints),
        Some(Ok(DeviceEvent::Control(ControlEvent::Completed {
            request,
            response: Some(Response::Unknown(vec![1, 2, 3]))
        })))
    );
}

fn control_error(steps: Vec<Transaction>) -> Option<Result<DeviceEvent, DecodeError>> {
    let mut control = ControlEndpoint::new();
    let mut endpoints = HashMap::new();
    let mut last = None;
    for t in steps {
        last = control.update(0, t, &mut endpoints);
    }
    last
}

fn fails(e: ControlError) -> Option<Result<DeviceEvent, DecodeError>> {
    Some(Err(DecodeError::Control(e)))
}

#[test]
fn control_errors() {
    let setup_in = || {
        transaction(
            TokenType::Setup,
            0,
            Some((DataPID::Data0, vec![0x80, 6, 0x00, 0x01, 0x00, 0x00, 0x12, 0x00])),
        )
    };
    let setup_out = || {
        transaction(
            TokenType::Setup,
            0,
            Some((DataPID::Data0, vec![0x00, 7, 0x00, 0x01, 0x00, 0x00, 0x04, 0x00])),
        )
    };
    let setup_none = || {
        transaction(
            TokenType::Setup,
            0,
            Some((DataPID::Data0, vec![0x00, 9, 0x01, 0x00, 0x00, 0x00, 0x00, 0x00])),
        )
    };
    let mut stall = transaction(TokenType::In, 0, None);
    stall.handshake = HandShake::Stall;
    assert_eq!(control_error(vec![setup_in(), stall]), fails(ControlError::Stalled));
    let mut nyet = transaction(TokenType::In, 0, None);
    nyet.handshake = HandShake::NYet;
    assert_eq!(control_error(vec![nyet]), fails(ControlError::UnexpectedHandshake));
    assert_eq!(
        control_error(vec![transaction(TokenType::Setup, 0, None)]),
        fails(ControlError::MissingRequest)
    );
    assert_eq!(
        control_error(vec![transaction(TokenType::Setup, 0, Some((DataPID::Data0, vec![1, 2])))]),
        fails(ControlError::Request(RequestError::InvalidSetupLength))
    );
    assert_eq!(control_error(vec![setup_in(), setup_in()]), fails(ControlError::UnexpectedSetup));
    assert_eq!(
        control_error(vec![transaction(TokenType::In, 0, None)]),
        fails(ControlError::OutOfSequence)
    );
    assert_eq!(
        control_error(vec![setup_in(), transaction(TokenType::Ping, 0, None)]),
        fails(ControlError::OutOfSequence)
    );
    assert_eq!(
        control_error(vec![
            setup_in(),
            transaction(TokenType::In, 0, Some((DataPID::Data1, vec![0; 19])))
        ]),
        fails(ControlError::PayloadTooLong)
    );
    assert_eq!(
        control_error(vec![
            setup_in(),
            transaction(TokenType::In, 0, Some((DataPID::Data1, vec![0; 8]))),
            transaction(TokenType::In, 0, None)
        ]),
        fails(ControlError::EmptyData { remaining: 10 })
    );
    assert_eq!(
        control_error(vec![setup_in(), transaction(TokenType::In, 0, None)]),
        fails(ControlError::EmptyData { remaining: 0 })
    );
    assert_eq!(
        control_error(vec![
            setup_out(),
            transaction(TokenType::Out, 0, Some((DataPID::Data1, vec![1]))),
            transaction(TokenType::In, 0, Some((DataPID::Data1, vec![])))
        ]),
        fails(ControlError::EarlyStatus)
    );
    assert_eq!(
        control_error(vec![setup_none(), transaction(TokenType::In, 0, None)]),
        fails(ControlError::MissingStatusData)
    );
    assert_eq!(
        control_error(vec![
            setup_none(),
            transaction(TokenType::In, 0, Some((DataPID::Data1, vec![1])))
        ]),
        fails(ControlError::StatusPayload)
    );
    assert_eq!(
        control_error(vec![
            setup_none(),
            transaction(TokenType::In, 0, Some((DataPID::Data0, vec![])))
        ]),
        fails(ControlError::StatusPid)
    );
    // eighteen bytes that are no device descriptor
    assert_eq!(
        control_error(vec![
            setup_in(),
            transaction(TokenType::In, 0, Some((DataPID::Data1, vec![18, 1, 0, 2, 9, 9, 9, 64, 0, 0, 0, 0, 0, 0, 0, 0, 0, 1]))),
            transaction(TokenType::Out, 0, Some((DataPID::Data1, vec![])))
        ]),
        fails(ControlError::Descriptor(DescriptorError::UnsupportedDeviceClass(9, 9, 9)))
    );
}

#[test]
fn device_stage_hands_transactions_to_their_endpoints() {
    let mut input = VecDeque::new();
    input.push_back((1, Ok(Event::Sof(5))));
    input.push_back((2, Ok(Event::Reset)));
    // before any control transaction no endpoint has a handler
    input.push_back((
        3,
        Ok(Event::Transaction(transaction(TokenType::In, 1, Some((DataPID::Data0, vec![b'h', b'i']))))),
    ));
    input.push_back((
        4,
        Ok(Event::Transaction(transaction(
            TokenType::Setup,
            0,
            Some((DataPID::Data0, vec![0x00, 9, 0x01, 0x00, 0x00, 0x00, 0x00, 0x00])),
        ))),
    ));
    input.push_back((
        5,
        Ok(Event::Transaction(transaction(TokenType::In, 1, Some((DataPID::Data0, vec![b'h', b'i']))))),
    ));
    input.push_back((
        6,
        Ok(Event::Transaction(transaction(TokenType::Out, 2, Some((DataPID::Data1, vec![b'o']))))),
    ));
    input.push_back((7, Ok(Event::Transaction(transaction(TokenType::In, 3, None)))));
    input.push_back((8, Ok(Event::Transaction(transaction(TokenType::In, 4, None)))));
    input.push_back((9, Err(DecodeError::InvalidEndpoint(77))));
    let mut stage = DeviceEventIterator::new(input);
    let class = |e| Ok(DeviceEvent::Interface(InterfaceEvent::Class(ClassEvent::CdC(e))));
    assert_eq!(stage.next(), Some((2, Ok(DeviceEvent::Reset))));
    assert_eq!(stage.next(), Some((3, Err(DecodeError::InvalidEndpoint(1)))));
    assert_eq!(stage.next(), Some((5, class(cdc::Event::Rx(vec![b'h', b'i'])))));
    assert_eq!(stage.next(), Some((6, class(cdc::Event::Tx(vec![b'o'])))));
    assert_eq!(stage.next(), Some((8, Err(DecodeError::InvalidEndpoint(4)))));
    assert_eq!(stage.next(), Some((9, Err(DecodeError::InvalidEndpoint(77)))));
    assert_eq!(stage.next(), None);
}

#[test]
fn class_endpoints() {
    let mut endpoint = cdc::CdCEndpoint(4);
    let mut t = transaction(TokenType::In, 1, Some((DataPID::Data0, vec![1])));
    t.handshake = HandShake::NAck;
    assert_eq!(endpoint.update(0, t), None);
    let mut storage = msd::MsdEndpoint;
    assert_eq!(
        storage.update(0, transaction(TokenType::In, 1, Some((DataPID::Data0, vec![1])))),
        None
    );
    let mut handler = EndpointHandler::Cdc(cdc::CdCEndpoint(5));
    assert_eq!(
        handler.update(0, transaction(TokenType::Out, 2, Some((DataPID::Data0, vec![7])))),
        Some(Ok(DeviceEvent::from(InterfaceEvent::from(ClassEvent::from(cdc::Event::Tx(vec![
            7
        ]))))))
    );
}
