//! The communications device class: subclass codes, its class-specific
//! descriptors, and the data that its endpoints carry.
use vstd::prelude::*;
use vstd::slice::slice_subrange;
use crate::error::DescriptorError;

verus! {

/// Data seen on an endpoint of a communications device.
#[derive(Debug, Clone, PartialEq, Eq)]
pub enum Event {
    Rx(Vec<u8>),
    Tx(Vec<u8>),
}

/// What such data is, apart from where its bytes are stored.
pub enum EventView {
    Rx(Seq<u8>),
    Tx(Seq<u8>),
}

impl View for Event {
    type V = EventView;

    open spec fn view(&self) -> EventView {
        match *self {
            Event::Rx(v) => EventView::Rx(v@),
            Event::Tx(v) => EventView::Tx(v@),
        }
    }
}

#[derive(Debug, Clone, Copy, PartialEq, Eq, Structural)]
pub enum DeviceSubClass {
    Reserved0,
    DirectLineControlModel,
    AbstractControlModel,
    TelephoneControlModel,
    MultiChannelControlModel,
    CAPIControlModel,
    EthernetNetworkingControlModel,
    ATMNetworkingControlModel,
    WirelessHandsetControlModel,
    DeviceManagement,
    MobileDirectLineModel,
    OBEX,
    EthernetEmulationModel,
    NetworkControlModel,
    ReservedForFutureUse(u8),
    VendorSpecific(u8),
    Unkown255,
}

/// The subclass that a subclass code stands for.
pub open spec fn subclass_of(subclass: u8) -> DeviceSubClass {
    if subclass == 0 {
        DeviceSubClass::Reserved0
    } else if subclass == 1 {
        DeviceSubClass::DirectLineControlModel
    } else if subclass == 2 {
        DeviceSubClass::AbstractControlModel
    } else if subclass == 3 {
        DeviceSubClass::TelephoneControlModel
    } else if subclass == 4 {
        DeviceSubClass::MultiChannelControlModel
    } else if subclass == 5 {
        DeviceSubClass::CAPIControlModel
    } else if subclass == 6 {
        DeviceSubClass::EthernetNetworkingControlModel
    } else if subclass == 7 {
        DeviceSubClass::ATMNetworkingControlModel
    } else if subclass == 8 {
        DeviceSubClass::WirelessHandsetControlModel
    } else if subclass == 9 {
        DeviceSubClass::DeviceManagement
    } else if subclass == 10 {
        DeviceSubClass::MobileDirectLineModel
    } else if subclass == 11 {
        DeviceSubClass::OBEX
    } else if subclass == 12 {
        DeviceSubClass::EthernetEmulationModel
    } else if subclass == 13 {
        DeviceSubClass::NetworkControlModel
    } else if subclass <= 127 {
        DeviceSubClass::ReservedForFutureUse(subclass)
    } else if subclass == 255 {
        DeviceSubClass::Unkown255
    } else {
        DeviceSubClass::VendorSpecific(subclass)
    }
}

/// The code that a subclass is written as.
pub open spec fn code_of(subclass: DeviceSubClass) -> u8 {
    match subclass {
        DeviceSubClass::Reserved0 => 0,
        DeviceSubClass::DirectLineControlModel => 1,
        DeviceSubClass::AbstractControlModel => 2,
        DeviceSubClass::TelephoneControlModel => 3,
        DeviceSubClass::MultiChannelControlModel => 4,
        DeviceSubClass::CAPIControlModel => 5,
        DeviceSubClass::EthernetNetworkingControlModel => 6,
        DeviceSubClass::ATMNetworkingControlModel => 7,
        DeviceSubClass::WirelessHandsetControlModel => 8,
        DeviceSubClass::DeviceManagement => 9,
        DeviceSubClass::MobileDirectLineModel => 10,
        DeviceSubClass::OBEX => 11,
        DeviceSubClass::EthernetEmulationModel => 12,
        DeviceSubClass::NetworkControlModel => 13,
        DeviceSubClass::ReservedForFutureUse(n) => n,
        DeviceSubClass::VendorSpecific(n) => n,
        DeviceSubClass::Unkown255 => 255,
    }
}

/// A subclass whose code lies in the range that its name stands for.
pub open spec fn subclass_well_formed(subclass: DeviceSubClass) -> bool {
    match subclass {
        DeviceSubClass::ReservedForFutureUse(n) => 14 <= n <= 127,
        DeviceSubClass::VendorSpecific(n) => 128 <= n <= 254,
        _ => true,
    }
}

impl DeviceSubClass {
    /// The subclass of a communications device from its subclass and protocol
    /// codes. Every code has a subclass; the protocol code plays no part.
    pub fn try_from(value: (u8, u8)) -> (r: Result<Self, DescriptorError>)
        ensures
            r == Ok::<Self, DescriptorError>(subclass_of(value.0)),
            subclass_well_formed(subclass_of(value.0)),
            code_of(subclass_of(value.0)) == value.0,
    {
        let subclass: u8 = value.0;
        Ok(
            if subclass == 0 {
                DeviceSubClass::Reserved0
            } else if subclass == 1 {
                DeviceSubClass::DirectLineControlModel
            } else if subclass == 2 {
                DeviceSubClass::AbstractControlModel
            } else if subclass == 3 {
                DeviceSubClass::TelephoneControlModel
            } else if subclass == 4 {
                DeviceSubClass::MultiChannelControlModel
            } else if subclass == 5 {
                DeviceSubClass::CAPIControlModel
            } else if subclass == 6 {
                DeviceSubClass::EthernetNetworkingControlModel
            } else if subclass == 7 {
                DeviceSubClass::ATMNetworkingControlModel
            } else if subclass == 8 {
                DeviceSubClass::WirelessHandsetControlModel
            } else if subclass == 9 {
                DeviceSubClass::DeviceManagement
            } else if subclass == 10 {
                DeviceSubClass::MobileDirectLineModel
            } else if subclass == 11 {
                DeviceSubClass::OBEX
            } else if subclass == 12 {
                DeviceSubClass::EthernetEmulationModel
            } else if subclass == 13 {
                DeviceSubClass::NetworkControlModel
            } else if subclass <= 127 {
                DeviceSubClass::ReservedForFutureUse(subclass)
            } else if subclass == 255 {
                DeviceSubClass::Unkown255
            } else {
                DeviceSubClass::VendorSpecific(subclass)
            },
        )
    }
}

#[derive(Debug, Clone, Copy, PartialEq, Eq, Structural)]
pub struct InterfaceSubClass {
    pub subclass: u8,
    pub protocol: u8,
}

#[derive(Debug, Clone, Copy, PartialEq, Eq, Structural)]
pub struct DataInterfaceSubClass {
    pub subclass: u8,
    pub protocol: u8,
}

#[derive(Debug, Clone, Copy, PartialEq, Eq, Structural)]
pub struct InterfaceDescriptor;

#[derive(Debug, Clone, Copy, PartialEq, Eq, Structural)]
pub struct EndpointDescriptor;

#[derive(Debug, Clone, Copy, PartialEq, Eq, Structural)]
pub enum ClassSpecificDescriptor {
    Interface(InterfaceDescriptor),
    Endpoint(EndpointDescriptor),
}

/// The class-specific descriptor at the head of `response`, and the bytes after it.
///
/// The descriptor says its own length in its first byte; that length covers
/// at least the length and type bytes and at most the buffer. Type `0x24` is
/// an interface descriptor of the class, `0x25` an endpoint descriptor.
pub open spec fn parse_class_descriptor(response: Seq<u8>) -> Result<
    (Seq<u8>, ClassSpecificDescriptor),
    DescriptorError,
> {
    if response.len() < 2 {
        Err(DescriptorError::Truncated)
    } else if response[0] < 2 {
        Err(DescriptorError::TooShort { got: response[0] })
    } else if response[0] > response.len() {
        Err(DescriptorError::Truncated)
    } else if response[1] == 0x24 {
        Ok(
            (
                response.subrange(response[0] as int, response.len() as int),
                ClassSpecificDescriptor::Interface(InterfaceDescriptor),
            ),
        )
    } else if response[1] == 0x25 {
        Ok(
            (
                response.subrange(response[0] as int, response.len() as int),
                ClassSpecificDescriptor::Endpoint(EndpointDescriptor),
            ),
        )
    } else {
        Err(DescriptorError::InvalidType { expected: 0x24, got: response[1] })
    }
}

impl ClassSpecificDescriptor {
    /// Tells which class-specific descriptor stands at the head of `response`
    /// and hands back what follows it.
    pub fn parse(response: &[u8]) -> (r: Result<(&[u8], Self), DescriptorError>)
        ensures
            match parse_class_descriptor(response@) {
                Ok((rest, d)) => r is Ok && r.unwrap().0@ == rest && r.unwrap().1 == d,
                Err(e) => r == Err::<(&[u8], Self), DescriptorError>(e),
            },
    {
        if response.len() < 2 {
            return Err(DescriptorError::Truncated);
        }
        let desc_length: u8 = response[0];
        let desc_type: u8 = response[1];
        if desc_length < 2 {
            return Err(DescriptorError::TooShort { got: desc_length });
        }
        if desc_length as usize > response.len() {
            return Err(DescriptorError::Truncated);
        }
        let rest: &[u8] = slice_subrange(response, desc_length as usize, response.len());
        if desc_type == 0x24 {
            Ok((rest, ClassSpecificDescriptor::Interface(InterfaceDescriptor)))
        } else if desc_type == 0x25 {
            Ok((rest, ClassSpecificDescriptor::Endpoint(EndpointDescriptor)))
        } else {
            Err(DescriptorError::InvalidType { expected: 0x24, got: desc_type })
        }
    }
}

/// The handler of an endpoint of a communications device; the number is the
/// interface that the endpoint belongs to.
#[derive(Debug, Clone, Copy, PartialEq, Eq, Structural)]
pub struct CdCEndpoint(pub u8);

impl From<Event> for super::ClassEvent {
    /// Data on an endpoint of a communications device are an event of that class.
    fn from(from: Event) -> (r: super::ClassEvent) {
        super::ClassEvent::CdC(from)
    }
}

impl vstd::std_specs::convert::FromSpecImpl<Event> for super::ClassEvent {
    open spec fn obeys_from_spec() -> bool {
        true
    }

    open spec fn from_spec(from: Event) -> super::ClassEvent {
        super::ClassEvent::CdC(from)
    }
}

} // verus!
