//! Requests on the control endpoint, and the descriptors that answer them.
use vstd::prelude::*;
use vstd::slice::slice_subrange;
use vstd::slice::slice_to_vec;
use crate::bytes::le16;
use crate::bytes::le32;
use crate::bytes::read_le16;
use crate::error::DescriptorError;
use crate::error::RequestError;
use super::cdc;
use super::lang_id::LanguageId;
use super::msd;

verus! {

pub const DEVICE_DESCRIPTOR: u8 = 1;

pub const CONFIGURATION_DESCRIPTOR: u8 = 2;

pub const STRING_DESCRIPTOR: u8 = 3;

pub const INTERFACE_DESCRIPTOR: u8 = 4;

pub const ENDPOINT_DESCRIPTOR: u8 = 5;

pub const DEVICE_QUALIFIER_DESCRIPTOR: u8 = 6;

pub const OTHER_SPEED_CONFIGURATION_DESCRIPTOR: u8 = 7;

pub const INTERFACE_POWER_DESCRIPTOR: u8 = 8;

pub const INTERFACE_ASSOCIATION_DESCRIPTOR: u8 = 11;

pub const BINARY_OBJECT_STORE_DESCRIPTOR: u8 = 15;

pub const DEVICE_CAPABILITY_DESCRIPTOR: u8 = 16;

#[derive(PartialEq, Eq, Debug, Copy, Clone, Structural)]
pub enum Recipient {
    Device,
    Interface,
    Endpoint,
    Other,
    Reserved(u8),
}

#[derive(PartialEq, Eq, Debug, Copy, Clone, Structural)]
pub enum RequestType {
    Standard,
    Class,
    Vendor,
    Reserved,
}

#[derive(PartialEq, Eq, Debug, Copy, Clone, Structural)]
pub enum DataPhaseTransferDirection {
    In,
    Out,
}

/// The first byte of a setup packet: direction, type and recipient in one.
pub struct PackedRequestType(pub u8);

impl PackedRequestType {
    /// Bit 7: set for a transfer from the device to the host.
    pub open spec fn spec_direction(&self) -> DataPhaseTransferDirection {
        if (self.0 & 0x80) == 0x80 {
            DataPhaseTransferDirection::In
        } else {
            DataPhaseTransferDirection::Out
        }
    }

    /// Bits 5 and 6.
    pub open spec fn spec_request_type(&self) -> RequestType {
        let ptype = (self.0 >> 5) & 0b0000_0011;
        if ptype == 0 {
            RequestType::Standard
        } else if ptype == 1 {
            RequestType::Class
        } else if ptype == 2 {
            RequestType::Vendor
        } else {
            RequestType::Reserved
        }
    }

    /// Bits 0 to 4.
    pub open spec fn spec_recipient(&self) -> Recipient {
        let b = self.0 & 0x1F;
        if b == 0 {
            Recipient::Device
        } else if b == 1 {
            Recipient::Interface
        } else if b == 2 {
            Recipient::Endpoint
        } else if b == 3 {
            Recipient::Other
        } else {
            Recipient::Reserved(b)
        }
    }

    pub fn direction(&self) -> (r: DataPhaseTransferDirection)
        ensures
            r == self.spec_direction(),
            (r == DataPhaseTransferDirection::In) == (self.0 >= 128),
    {
        let b: u8 = self.0;
        assert(((b & 0x80) == 0x80) == (b >= 128)) by (bit_vector);
        if (self.0 & 0x80) == 0x80 {
            DataPhaseTransferDirection::In
        } else {
            DataPhaseTransferDirection::Out
        }
    }

    pub fn request_type(&self) -> (r: RequestType)
        ensures
            r == self.spec_request_type(),
    {
        let ptype: u8 = (self.0 >> 5) & 0b0000_0011;
        if ptype == 0 {
            RequestType::Standard
        } else if ptype == 1 {
            RequestType::Class
        } else if ptype == 2 {
            RequestType::Vendor
        } else {
            RequestType::Reserved
        }
    }

    pub fn recipient(&self) -> (r: Recipient)
        ensures
            r == self.spec_recipient(),
            r matches Recipient::Reserved(n) ==> 4 <= n < 32,
    {
        let v: u8 = self.0;
        assert((v & 0x1F) < 32) by (bit_vector);
        let b: u8 = self.0 & 0x1F;
        if b == 0 {
            Recipient::Device
        } else if b == 1 {
            Recipient::Interface
        } else if b == 2 {
            Recipient::Endpoint
        } else if b == 3 {
            Recipient::Other
        } else {
            Recipient::Reserved(b)
        }
    }
}

#[derive(Debug, Copy, Clone, PartialEq, Eq, Structural)]
pub enum GetDescriptorType {
    Device,
    Configuration(u8),
    String(u8, LanguageId),
    DeviceQualifier,
    BinaryObjectStore(u8, u16),
    OtherSpeedConfiguration,
}

/// The high byte of a 16-bit field.
pub open spec fn high_byte(value: u16) -> u8 {
    (value >> 8) as u8
}

/// The low byte of a 16-bit field.
pub open spec fn low_byte(value: u16) -> u8 {
    (value & 0xFF) as u8
}

/// The descriptor that a GetDescriptor request asks for: the high byte of
/// `value` is the descriptor type, the low byte an index, and `index` a
/// language for strings. A device, a qualifier and an other-speed
/// configuration have index and language zero, a configuration language zero.
pub open spec fn descriptor_type_of(value: u16, index: u16) -> Result<
    GetDescriptorType,
    RequestError,
> {
    let value_high = high_byte(value);
    let value_low = low_byte(value);
    if value_high == DEVICE_DESCRIPTOR && value_low == 0 && index == 0 {
        Ok(GetDescriptorType::Device)
    } else if value_high == CONFIGURATION_DESCRIPTOR && index == 0 {
        Ok(GetDescriptorType::Configuration(value_low))
    } else if value_high == STRING_DESCRIPTOR {
        Ok(GetDescriptorType::String(value_low, LanguageId(index)))
    } else if value_high == DEVICE_QUALIFIER_DESCRIPTOR && value_low == 0 && index == 0 {
        Ok(GetDescriptorType::DeviceQualifier)
    } else if value_high == OTHER_SPEED_CONFIGURATION_DESCRIPTOR && value_low == 0 && index == 0 {
        Ok(GetDescriptorType::OtherSpeedConfiguration)
    } else if value_high == BINARY_OBJECT_STORE_DESCRIPTOR {
        Ok(GetDescriptorType::BinaryObjectStore(value_low, index))
    } else {
        Err(RequestError::InvalidDescriptorType(value_high))
    }
}

impl GetDescriptorType {
    /// The descriptor that a GetDescriptor request with these `value` and
    /// `index` fields asks for.
    pub fn try_from(value: (u16, u16)) -> (r: Result<Self, RequestError>)
        ensures
            r == descriptor_type_of(value.0, value.1),
    {
        let index: u16 = value.1;
        let value_high: u8 = (value.0 >> 8) as u8;
        let value_low: u8 = (value.0 & 0xFF) as u8;
        if value_high == DEVICE_DESCRIPTOR && value_low == 0 && index == 0 {
            Ok(GetDescriptorType::Device)
        } else if value_high == CONFIGURATION_DESCRIPTOR && index == 0 {
            Ok(GetDescriptorType::Configuration(value_low))
        } else if value_high == STRING_DESCRIPTOR {
            Ok(GetDescriptorType::String(value_low, LanguageId::from(index)))
        } else if value_high == DEVICE_QUALIFIER_DESCRIPTOR && value_low == 0 && index == 0 {
            Ok(GetDescriptorType::DeviceQualifier)
        } else if value_high == OTHER_SPEED_CONFIGURATION_DESCRIPTOR && value_low == 0 && index
            == 0 {
            Ok(GetDescriptorType::OtherSpeedConfiguration)
        } else if value_high == BINARY_OBJECT_STORE_DESCRIPTOR {
            Ok(GetDescriptorType::BinaryObjectStore(value_low, index))
        } else {
            Err(RequestError::InvalidDescriptorType(value_high))
        }
    }
}

#[derive(Debug, Copy, Clone, PartialEq, Eq, Structural)]
pub enum StandardRequest {
    GetStatus,
    ClearFeature,
    SetFeature,
    SetAddress,
    GetDescriptor(GetDescriptorType),
    SetDescriptor,
    GetConfiguration,
    SetConfiguration(u16),
    GetInterface,
    SetInterface,
    SyncFrame,
    Reserved { request: u8, value: u16, index: u16 },
}

/// The standard request with the code `request`. Only a GetDescriptor for an
/// unknown descriptor type is refused; a code without a name is kept as it is.
pub open spec fn standard_request_of(request: u8, value: u16, index: u16) -> Result<
    StandardRequest,
    RequestError,
> {
    if request == 0 {
        Ok(StandardRequest::GetStatus)
    } else if request == 1 {
        Ok(StandardRequest::ClearFeature)
    } else if request == 3 {
        Ok(StandardRequest::SetFeature)
    } else if request == 5 {
        Ok(StandardRequest::SetAddress)
    } else if request == 6 {
        match descriptor_type_of(value, index) {
            Ok(t) => Ok(StandardRequest::GetDescriptor(t)),
            Err(e) => Err(e),
        }
    } else if request == 7 {
        Ok(StandardRequest::SetDescriptor)
    } else if request == 8 {
        Ok(StandardRequest::GetConfiguration)
    } else if request == 9 {
        Ok(StandardRequest::SetConfiguration(value))
    } else if request == 10 {
        Ok(StandardRequest::GetInterface)
    } else if request == 11 {
        Ok(StandardRequest::SetInterface)
    } else if request == 12 {
        Ok(StandardRequest::SyncFrame)
    } else {
        Ok(StandardRequest::Reserved { request, value, index })
    }
}

impl StandardRequest {
    /// The standard request that the request code, `value` and `index` of a
    /// setup packet make.
    pub fn try_from(value: (u8, u16, u16)) -> (r: Result<Self, RequestError>)
        ensures
            r == standard_request_of(value.0, value.1, value.2),
    {
        let (request, value, index) = value;
        if request == 0 {
            Ok(StandardRequest::GetStatus)
        } else if request == 1 {
            Ok(StandardRequest::ClearFeature)
        } else if request == 3 {
            Ok(StandardRequest::SetFeature)
        } else if request == 5 {
            Ok(StandardRequest::SetAddress)
        } else if request == 6 {
            match GetDescriptorType::try_from((value, index)) {
                Ok(t) => Ok(StandardRequest::GetDescriptor(t)),
                Err(e) => Err(e),
            }
        } else if request == 7 {
            Ok(StandardRequest::SetDescriptor)
        } else if request == 8 {
            Ok(StandardRequest::GetConfiguration)
        } else if request == 9 {
            Ok(StandardRequest::SetConfiguration(value))
        } else if request == 10 {
            Ok(StandardRequest::GetInterface)
        } else if request == 11 {
            Ok(StandardRequest::SetInterface)
        } else if request == 12 {
            Ok(StandardRequest::SyncFrame)
        } else {
            Ok(StandardRequest::Reserved { request, value, index })
        }
    }
}

#[derive(Debug, Copy, Clone, PartialEq, Eq, Structural)]
pub enum DeviceRequest {
    Standard(StandardRequest),
    Class(),
    Vendor(),
    Reserved { request: u8, value: u16, index: u16 },
}

/// The request to the device as a whole. One of the reserved type is kept as
/// it is, a standard one is decoded, and class and vendor requests are refused.
pub open spec fn device_request_of(
    request_type: RequestType,
    request: u8,
    value: u16,
    index: u16,
) -> Result<DeviceRequest, RequestError> {
    match request_type {
        RequestType::Reserved => Ok(DeviceRequest::Reserved { request, value, index }),
        RequestType::Standard => match standard_request_of(request, value, index) {
            Ok(s) => Ok(DeviceRequest::Standard(s)),
            Err(e) => Err(e),
        },
        _ => Err(RequestError::UnsupportedRequestType),
    }
}

impl DeviceRequest {
    /// The device request that a request type, a request code, `value` and
    /// `index` make.
    pub fn try_from(value: (RequestType, u8, u16, u16)) -> (r: Result<Self, RequestError>)
        ensures
            r == device_request_of(value.0, value.1, value.2, value.3),
    {
        let (request_type, request, value, index) = value;
        match request_type {
            RequestType::Reserved => Ok(DeviceRequest::Reserved { request, value, index }),
            RequestType::Standard => match StandardRequest::try_from((request, value, index)) {
                Ok(s) => Ok(DeviceRequest::Standard(s)),
                Err(e) => Err(e),
            },
            _ => Err(RequestError::UnsupportedRequestType),
        }
    }
}

#[derive(Debug, Copy, Clone, PartialEq, Eq, Structural)]
pub enum ERequest {
    Device(DeviceRequest),
    Interface { request_type: RequestType, request: u8, value: u16, index: u16 },
    Endpoint(),
    Unknown { recipient: u8, request_type: RequestType, request: u8, value: u16, index: u16 },
}

/// The request by its recipient. One to an interface or to a reserved
/// recipient is kept as it is, one to the device is decoded, and one to an
/// endpoint or to "other" is refused.
pub open spec fn request_of(
    recipient: Recipient,
    request_type: RequestType,
    request: u8,
    value: u16,
    index: u16,
) -> Result<ERequest, RequestError> {
    match recipient {
        Recipient::Reserved(n) => Ok(
            ERequest::Unknown { recipient: n, request_type, request, value, index },
        ),
        Recipient::Interface => Ok(ERequest::Interface { request_type, request, value, index }),
        Recipient::Device => match device_request_of(request_type, request, value, index) {
            Ok(d) => Ok(ERequest::Device(d)),
            Err(e) => Err(e),
        },
        _ => Err(RequestError::UnsupportedRecipient),
    }
}

impl ERequest {
    /// The request that a recipient, a request type, a request code, `value`
    /// and `index` make.
    pub fn try_from(value: (Recipient, RequestType, u8, u16, u16)) -> (r: Result<
        Self,
        RequestError,
    >)
        ensures
            r == request_of(value.0, value.1, value.2, value.3, value.4),
    {
        let (recipient, request_type, request, value, index) = value;
        match recipient {
            Recipient::Reserved(n) => Ok(
                ERequest::Unknown { recipient: n, request_type, request, value, index },
            ),
            Recipient::Interface => Ok(
                ERequest::Interface { request_type, request, value, index },
            ),
            Recipient::Device => match DeviceRequest::try_from(
                (request_type, request, value, index),
            ) {
                Ok(d) => Ok(ERequest::Device(d)),
                Err(e) => Err(e),
            },
            _ => Err(RequestError::UnsupportedRecipient),
        }
    }
}

#[derive(PartialEq, Eq, Clone, Copy, Debug, Structural)]
pub struct Request {
    pub direction: DataPhaseTransferDirection,
    pub request: ERequest,
    pub length: u16,
}

/// The request that the payload of a setup transaction spells out: request
/// type byte, request code, then value, index and length, each two bytes with
/// the low byte first.
pub open spec fn parse_request(from: Seq<u8>) -> Result<Request, RequestError> {
    if from.len() != 8 {
        Err(RequestError::InvalidSetupLength)
    } else {
        let packed = PackedRequestType(from[0]);
        match request_of(
            packed.spec_recipient(),
            packed.spec_request_type(),
            from[1],
            le16(from[2], from[3]),
            le16(from[4], from[5]),
        ) {
            Ok(request) => Ok(
                Request {
                    direction: packed.spec_direction(),
                    request,
                    length: le16(from[6], from[7]),
                },
            ),
            Err(e) => Err(e),
        }
    }
}

impl Request {
    /// Decodes the eight bytes of a setup packet.
    pub fn try_from(from: &[u8]) -> (r: Result<Request, RequestError>)
        ensures
            r == parse_request(from@),
    {
        if from.len() != 8 {
            return Err(RequestError::InvalidSetupLength);
        }
        let packed_request_type = PackedRequestType(from[0]);
        let value: u16 = read_le16(from[2], from[3]);
        let index: u16 = read_le16(from[4], from[5]);
        let length: u16 = read_le16(from[6], from[7]);
        match ERequest::try_from(
            (
                packed_request_type.recipient(),
                packed_request_type.request_type(),
                from[1],
                value,
                index,
            ),
        ) {
            Ok(request) => Ok(
                Request { direction: packed_request_type.direction(), request, length },
            ),
            Err(e) => Err(e),
        }
    }
}

#[derive(Debug, Clone, Copy, PartialEq, Eq, Structural)]
pub enum MaxPacketSize {
    _8,
    _16,
    _32,
    _64,
    Reserved(u8),
}

impl MaxPacketSize {
    /// The size that the byte `value` stands for.
    pub open spec fn spec_from(value: u8) -> MaxPacketSize {
        if value == 8 {
            MaxPacketSize::_8
        } else if value == 16 {
            MaxPacketSize::_16
        } else if value == 32 {
            MaxPacketSize::_32
        } else if value == 64 {
            MaxPacketSize::_64
        } else {
            MaxPacketSize::Reserved(value)
        }
    }

    /// The byte that the size is written as.
    pub open spec fn spec_byte(self) -> u8 {
        match self {
            MaxPacketSize::_8 => 8,
            MaxPacketSize::_16 => 16,
            MaxPacketSize::_32 => 32,
            MaxPacketSize::_64 => 64,
            MaxPacketSize::Reserved(v) => v,
        }
    }

    /// A reserved size is none of the four that have a name.
    pub open spec fn well_formed(self) -> bool {
        match self {
            MaxPacketSize::Reserved(v) => v != 8 && v != 16 && v != 32 && v != 64,
            _ => true,
        }
    }

    pub fn from(value: u8) -> (r: Self)
        ensures
            r == Self::spec_from(value),
            r.well_formed(),
            r.spec_byte() == value,
    {
        if value == 8 {
            MaxPacketSize::_8
        } else if value == 16 {
            MaxPacketSize::_16
        } else if value == 32 {
            MaxPacketSize::_32
        } else if value == 64 {
            MaxPacketSize::_64
        } else {
            MaxPacketSize::Reserved(value)
        }
    }

    pub fn byte(&self) -> (r: u8)
        ensures
            r == self.spec_byte(),
    {
        match *self {
            MaxPacketSize::_8 => 8,
            MaxPacketSize::_16 => 16,
            MaxPacketSize::_32 => 32,
            MaxPacketSize::_64 => 64,
            MaxPacketSize::Reserved(v) => v,
        }
    }
}

/// A release of the USB specification in binary-coded decimal: `0x0210` is 2.1.0.
#[derive(Debug, Clone, Copy, PartialEq, Eq, PartialOrd, Ord, Structural)]
pub struct UsbVersion(pub u16);

impl UsbVersion {
    /// Major, minor and sub-minor number of the release.
    pub fn parts(&self) -> (r: (u16, u16, u16))
        ensures
            r.0 == self.0 >> 8,
            r.1 == (self.0 >> 4) & 0xF,
            r.2 == self.0 & 0xF,
    {
        (self.0 >> 8, (self.0 >> 4) & 0xF, self.0 & 0xF)
    }
}

#[derive(Debug, Clone, Copy, PartialEq, Eq, Structural)]
pub enum MiscellaneousSubClass {
    InterfaceAssociationDescriptor,
}

#[derive(Debug, Clone, Copy, PartialEq, Eq, Structural)]
pub enum DeviceClass {
    CommunicationDevice(cdc::DeviceSubClass),
    Miscellaneous(MiscellaneousSubClass),
}

/// The device class that a class, subclass and protocol code stand for:
/// class 2 is a communications device of any subclass, and `0xEF, 2, 1` a
/// device that groups its interfaces by association descriptors.
pub open spec fn device_class_of(class: u8, subclass: u8, protocol: u8) -> Result<
    DeviceClass,
    DescriptorError,
> {
    if class == 2 {
        Ok(DeviceClass::CommunicationDevice(cdc::subclass_of(subclass)))
    } else if class == 0xEF && subclass == 2 && protocol == 1 {
        Ok(DeviceClass::Miscellaneous(MiscellaneousSubClass::InterfaceAssociationDescriptor))
    } else {
        Err(DescriptorError::UnsupportedDeviceClass(class, subclass, protocol))
    }
}

/// The class, subclass and protocol code that a device class is written as.
pub open spec fn device_class_codes(class: DeviceClass) -> (u8, u8, u8) {
    match class {
        DeviceClass::CommunicationDevice(sub) => (2, cdc::code_of(sub), 0),
        DeviceClass::Miscellaneous(_) => (0xEF, 2, 1),
    }
}

impl DeviceClass {
    pub fn try_from(class_code_triple: (u8, u8, u8)) -> (r: Result<Self, DescriptorError>)
        ensures
            r == device_class_of(class_code_triple.0, class_code_triple.1, class_code_triple.2),
    {
        let (class, subclass, protocol) = class_code_triple;
        if class == 2 {
            match cdc::DeviceSubClass::try_from((subclass, protocol)) {
                Ok(sub) => Ok(DeviceClass::CommunicationDevice(sub)),
                Err(e) => Err(e),
            }
        } else if class == 0xEF && subclass == 2 && protocol == 1 {
            Ok(DeviceClass::Miscellaneous(MiscellaneousSubClass::InterfaceAssociationDescriptor))
        } else {
            Err(DescriptorError::UnsupportedDeviceClass(class, subclass, protocol))
        }
    }

    /// The three code bytes of the class. A communications device is written
    /// with protocol code zero.
    pub fn codes(&self) -> (r: (u8, u8, u8))
        ensures
            r == device_class_codes(*self),
    {
        match *self {
            DeviceClass::CommunicationDevice(sub) => (2, cdc_code(sub), 0),
            DeviceClass::Miscellaneous(_) => (0xEF, 2, 1),
        }
    }
}

fn cdc_code(subclass: cdc::DeviceSubClass) -> (r: u8)
    ensures
        r == cdc::code_of(subclass),
{
    match subclass {
        cdc::DeviceSubClass::Reserved0 => 0,
        cdc::DeviceSubClass::DirectLineControlModel => 1,
        cdc::DeviceSubClass::AbstractControlModel => 2,
        cdc::DeviceSubClass::TelephoneControlModel => 3,
        cdc::DeviceSubClass::MultiChannelControlModel => 4,
        cdc::DeviceSubClass::CAPIControlModel => 5,
        cdc::DeviceSubClass::EthernetNetworkingControlModel => 6,
        cdc::DeviceSubClass::ATMNetworkingControlModel => 7,
        cdc::DeviceSubClass::WirelessHandsetControlModel => 8,
        cdc::DeviceSubClass::DeviceManagement => 9,
        cdc::DeviceSubClass::MobileDirectLineModel => 10,
        cdc::DeviceSubClass::OBEX => 11,
        cdc::DeviceSubClass::EthernetEmulationModel => 12,
        cdc::DeviceSubClass::NetworkControlModel => 13,
        cdc::DeviceSubClass::ReservedForFutureUse(n) => n,
        cdc::DeviceSubClass::VendorSpecific(n) => n,
        cdc::DeviceSubClass::Unkown255 => 255,
    }
}

#[derive(Debug, Clone, Copy, PartialEq, Eq, PartialOrd, Ord, Structural)]
pub struct DeviceRelease(pub u16);

#[derive(Debug, Clone, Copy, PartialEq, Eq, Structural)]
pub struct DeviceDescriptor {
    pub usb_version: UsbVersion,
    pub device_class: DeviceClass,
    pub max_packet_size: MaxPacketSize,
    pub vendor_id: u16,
    pub product_id: u16,
    pub device_release_number: DeviceRelease,
    pub manufacturer_string_index: u8,
    pub product_string_index: u8,
    pub serial_number_string_index: u8,
    pub num_configuration: u8,
}

/// The device descriptor that 18 bytes spell out: length 18, type 1, then
/// specification release, class triple, packet size of endpoint zero, vendor,
/// product and device release, three string indices and the number of
/// configurations. Two-byte fields have the low byte first.
pub open spec fn parse_device(response: Seq<u8>) -> Result<DeviceDescriptor, DescriptorError>
    recommends
        response.len() == 18,
{
    if response[1] != DEVICE_DESCRIPTOR {
        Err(DescriptorError::InvalidType { expected: DEVICE_DESCRIPTOR, got: response[1] })
    } else if response[0] != 18 {
        Err(DescriptorError::InvalidLength { expected: 18, got: response[0] })
    } else {
        match device_class_of(response[4], response[5], response[6]) {
            Err(e) => Err(e),
            Ok(device_class) => Ok(
                DeviceDescriptor {
                    usb_version: UsbVersion(le16(response[2], response[3])),
                    device_class,
                    max_packet_size: MaxPacketSize::spec_from(response[7]),
                    vendor_id: le16(response[8], response[9]),
                    product_id: le16(response[10], response[11]),
                    device_release_number: DeviceRelease(le16(response[12], response[13])),
                    manufacturer_string_index: response[14],
                    product_string_index: response[15],
                    serial_number_string_index: response[16],
                    num_configuration: response[17],
                },
            ),
        }
    }
}

/// The 18 bytes that a device descriptor is written as.
pub open spec fn encode_device(d: DeviceDescriptor) -> Seq<u8> {
    let codes = device_class_codes(d.device_class);
    seq![
        18u8,
        DEVICE_DESCRIPTOR,
        low_byte(d.usb_version.0),
        high_byte(d.usb_version.0),
        codes.0,
        codes.1,
        codes.2,
        d.max_packet_size.spec_byte(),
        low_byte(d.vendor_id),
        high_byte(d.vendor_id),
        low_byte(d.product_id),
        high_byte(d.product_id),
        low_byte(d.device_release_number.0),
        high_byte(d.device_release_number.0),
        d.manufacturer_string_index,
        d.product_string_index,
        d.serial_number_string_index,
        d.num_configuration,
    ]
}

/// Two bytes, the low one first, hold the 16-bit value that they were split from.
pub proof fn lemma_le16_of_bytes(value: u16)
    ensures
        le16(low_byte(value), high_byte(value)) == value,
{
    assert(((((value & 0xFF) as u8) as u16) | ((((value >> 8) as u8) as u16) << 8)) == value)
        by (bit_vector);
}

impl DeviceDescriptor {
    /// The device class and the packet size are ones that a descriptor can say.
    pub open spec fn well_formed(self) -> bool {
        &&& self.max_packet_size.well_formed()
        &&& match self.device_class {
            DeviceClass::CommunicationDevice(sub) => cdc::subclass_well_formed(sub),
            DeviceClass::Miscellaneous(_) => true,
        }
    }

    /// Decodes the 18 bytes of a device descriptor.
    pub fn try_from(response: [u8; 18]) -> (r: Result<Self, DescriptorError>)
        ensures
            r == parse_device(response@),
            r is Ok ==> r.unwrap().well_formed(),
    {
        let desc_length: u8 = response[0];
        let desc_type: u8 = response[1];
        if desc_type != DEVICE_DESCRIPTOR {
            return Err(
                DescriptorError::InvalidType { expected: DEVICE_DESCRIPTOR, got: desc_type },
            );
        }
        if desc_length != 18 {
            return Err(DescriptorError::InvalidLength { expected: 18, got: desc_length });
        }
        let usb_version = UsbVersion(read_le16(response[2], response[3]));
        let device_class = match DeviceClass::try_from((response[4], response[5], response[6])) {
            Ok(c) => c,
            Err(e) => {
                return Err(e);
            },
        };
        let max_packet_size = MaxPacketSize::from(response[7]);
        let vendor_id: u16 = read_le16(response[8], response[9]);
        let product_id: u16 = read_le16(response[10], response[11]);
        let device_release_number = DeviceRelease(read_le16(response[12], response[13]));
        Ok(
            DeviceDescriptor {
                usb_version,
                device_class,
                max_packet_size,
                vendor_id,
                product_id,
                device_release_number,
                manufacturer_string_index: response[14],
                product_string_index: response[15],
                serial_number_string_index: response[16],
                num_configuration: response[17],
            },
        )
    }

    /// Writes the descriptor as the 18 bytes that a device would answer with.
    pub fn encode(&self) -> (r: [u8; 18])
        ensures
            r@ == encode_device(*self),
    {
        let codes = self.device_class.codes();
        let r: [u8; 18] = [
            18,
            DEVICE_DESCRIPTOR,
            (self.usb_version.0 & 0xFF) as u8,
            (self.usb_version.0 >> 8) as u8,
            codes.0,
            codes.1,
            codes.2,
            self.max_packet_size.byte(),
            (self.vendor_id & 0xFF) as u8,
            (self.vendor_id >> 8) as u8,
            (self.product_id & 0xFF) as u8,
            (self.product_id >> 8) as u8,
            (self.device_release_number.0 & 0xFF) as u8,
            (self.device_release_number.0 >> 8) as u8,
            self.manufacturer_string_index,
            self.product_string_index,
            self.serial_number_string_index,
            self.num_configuration,
        ];
        assert(r@ =~= encode_device(*self));
        r
    }
}

/// Writing a device descriptor and reading it back gives the descriptor
/// again, for every descriptor whose class and packet size a descriptor can say.
pub proof fn lemma_device_round_trip(d: DeviceDescriptor)
    requires
        d.well_formed(),
    ensures
        parse_device(encode_device(d)) == Ok::<DeviceDescriptor, DescriptorError>(d),
{
    lemma_le16_of_bytes(d.usb_version.0);
    lemma_le16_of_bytes(d.vendor_id);
    lemma_le16_of_bytes(d.product_id);
    lemma_le16_of_bytes(d.device_release_number.0);
}

#[derive(Debug, Clone, Copy, PartialEq, Eq, Structural)]
pub enum EndpointDirection {
    In,
    Out,
}

#[derive(Debug, Clone, Copy, PartialEq, Eq, Structural)]
pub enum SyncType {
    NoSynchronization,
    Asynchronous,
    Adaptive,
    Synchronous,
}

#[derive(Debug, Clone, Copy, PartialEq, Eq, Structural)]
pub enum UsageType {
    DataEndpoint,
    FeedbackEndpoint,
    ImplicitFeedbackDataEndpoint,
    Reserved,
}

#[derive(Debug, Clone, Copy, PartialEq, Eq, Structural)]
pub enum TransferType {
    Control,
    Isochronous { sync_type: SyncType, usage_type: UsageType },
    Bulk,
    Interrupt,
}

/// The synchronisation type with the two-bit code `code`.
pub open spec fn sync_type_of(code: u8) -> SyncType {
    if code == 0 {
        SyncType::NoSynchronization
    } else if code == 1 {
        SyncType::Asynchronous
    } else if code == 2 {
        SyncType::Adaptive
    } else {
        SyncType::Synchronous
    }
}

/// The two-bit code of a synchronisation type.
pub open spec fn sync_type_code(t: SyncType) -> u8 {
    match t {
        SyncType::NoSynchronization => 0,
        SyncType::Asynchronous => 1,
        SyncType::Adaptive => 2,
        SyncType::Synchronous => 3,
    }
}

/// The usage type with the two-bit code `code`.
pub open spec fn usage_type_of(code: u8) -> UsageType {
    if code == 0 {
        UsageType::DataEndpoint
    } else if code == 1 {
        UsageType::FeedbackEndpoint
    } else if code == 2 {
        UsageType::ImplicitFeedbackDataEndpoint
    } else {
        UsageType::Reserved
    }
}

/// The two-bit code of a usage type.
pub open spec fn usage_type_code(t: UsageType) -> u8 {
    match t {
        UsageType::DataEndpoint => 0,
        UsageType::FeedbackEndpoint => 1,
        UsageType::ImplicitFeedbackDataEndpoint => 2,
        UsageType::Reserved => 3,
    }
}

/// The transfer type in the attributes byte of an endpoint: bits 0 and 1 say
/// the type; an isochronous endpoint has its synchronisation in bits 2 and 3
/// and its usage in bits 4 and 5; any other has bits 2 to 7 clear.
pub open spec fn transfer_type_of(value: u8) -> Result<TransferType, DescriptorError> {
    let transfer_type = value & 0x03;
    if transfer_type == 1 {
        Ok(
            TransferType::Isochronous {
                sync_type: sync_type_of((value & 0x0C) >> 2),
                usage_type: usage_type_of((value & 0x30) >> 4),
            },
        )
    } else if value & 0xFC != 0 {
        Err(DescriptorError::TransferReservedSet(value & 0xFC))
    } else if transfer_type == 0 {
        Ok(TransferType::Control)
    } else if transfer_type == 2 {
        Ok(TransferType::Bulk)
    } else {
        Ok(TransferType::Interrupt)
    }
}

/// The attributes byte that a transfer type is written as.
pub open spec fn transfer_type_byte(t: TransferType) -> u8 {
    match t {
        TransferType::Control => 0,
        TransferType::Isochronous { sync_type, usage_type } => 1 | (sync_type_code(sync_type) << 2)
            | (usage_type_code(usage_type) << 4),
        TransferType::Bulk => 2,
        TransferType::Interrupt => 3,
    }
}

/// Reading the attributes byte of a transfer type gives the transfer type again.
pub proof fn lemma_transfer_type_round_trip(t: TransferType)
    ensures
        transfer_type_of(transfer_type_byte(t)) == Ok::<TransferType, DescriptorError>(t),
{
    match t {
        TransferType::Isochronous { sync_type, usage_type } => {
            let s = sync_type_code(sync_type);
            let u = usage_type_code(usage_type);
            assert((1 | (s << 2) | (u << 4)) & 0x03 == 1 && ((1 | (s << 2) | (u << 4)) & 0x0C) >> 2
                == s && ((1 | (s << 2) | (u << 4)) & 0x30) >> 4 == u) by (bit_vector)
                requires
                    s < 4,
                    u < 4,
            ;
        },
        _ => {
            assert(0u8 & 0x03 == 0 && 0u8 & 0xFC == 0 && 2u8 & 0x03 == 2 && 2u8 & 0xFC == 0 && 3u8
                & 0x03 == 3 && 3u8 & 0xFC == 0) by (bit_vector);
        },
    }
}

impl TransferType {
    /// Decodes the attributes byte of an endpoint descriptor.
    pub fn try_from(value: u8) -> (r: Result<Self, DescriptorError>)
        ensures
            r == transfer_type_of(value),
    {
        let transfer_type: u8 = value & 0x03;
        if transfer_type == 1 {
            let sync_code: u8 = (value & 0x0C) >> 2;
            let usage_code: u8 = (value & 0x30) >> 4;
            Ok(
                TransferType::Isochronous {
                    sync_type: if sync_code == 0 {
                        SyncType::NoSynchronization
                    } else if sync_code == 1 {
                        SyncType::Asynchronous
                    } else if sync_code == 2 {
                        SyncType::Adaptive
                    } else {
                        SyncType::Synchronous
                    },
                    usage_type: if usage_code == 0 {
                        UsageType::DataEndpoint
                    } else if usage_code == 1 {
                        UsageType::FeedbackEndpoint
                    } else if usage_code == 2 {
                        UsageType::ImplicitFeedbackDataEndpoint
                    } else {
                        UsageType::Reserved
                    },
                },
            )
        } else if value & 0xFC != 0 {
            Err(DescriptorError::TransferReservedSet(value & 0xFC))
        } else if transfer_type == 0 {
            Ok(TransferType::Control)
        } else if transfer_type == 2 {
            Ok(TransferType::Bulk)
        } else {
            Ok(TransferType::Interrupt)
        }
    }

    /// The attributes byte of the transfer type.
    pub fn byte(&self) -> (r: u8)
        ensures
            r == transfer_type_byte(*self),
    {
        match *self {
            TransferType::Control => 0,
            TransferType::Isochronous { sync_type, usage_type } => {
                let s: u8 = match sync_type {
                    SyncType::NoSynchronization => 0,
                    SyncType::Asynchronous => 1,
                    SyncType::Adaptive => 2,
                    SyncType::Synchronous => 3,
                };
                let u: u8 = match usage_type {
                    UsageType::DataEndpoint => 0,
                    UsageType::FeedbackEndpoint => 1,
                    UsageType::ImplicitFeedbackDataEndpoint => 2,
                    UsageType::Reserved => 3,
                };
                1 | (s << 2) | (u << 4)
            },
            TransferType::Bulk => 2,
            TransferType::Interrupt => 3,
        }
    }
}

#[derive(Debug, Clone, Copy, PartialEq, Eq, Structural)]
pub struct EndpointDescriptor {
    pub endpoint_number: u8,
    pub direction: EndpointDirection,
    pub attributes: TransferType,
    pub max_packet_size: u16,
    pub interval: u8,
}

/// The endpoint descriptor that 7 bytes spell out: length 7, type 5, the
/// address with the endpoint number in bits 0 to 3, bits 4 to 6 clear and the
/// direction in bit 7, the attributes, the packet size and the interval.
pub open spec fn parse_endpoint(response: Seq<u8>) -> Result<EndpointDescriptor, DescriptorError>
    recommends
        response.len() == 7,
{
    if response[1] != ENDPOINT_DESCRIPTOR {
        Err(DescriptorError::InvalidType { expected: ENDPOINT_DESCRIPTOR, got: response[1] })
    } else if response[0] != 7 {
        Err(DescriptorError::InvalidLength { expected: 7, got: response[0] })
    } else if response[2] & 0x70 != 0 {
        Err(DescriptorError::EndpointAddressReservedSet(response[2] & 0x70))
    } else {
        match transfer_type_of(response[3]) {
            Err(e) => Err(e),
            Ok(attributes) => Ok(
                EndpointDescriptor {
                    endpoint_number: response[2] & 0x0F,
                    direction: if response[2] & 0x80 == 0 {
                        EndpointDirection::Out
                    } else {
                        EndpointDirection::In
                    },
                    attributes,
                    max_packet_size: le16(response[4], response[5]),
                    interval: response[6],
                },
            ),
        }
    }
}

/// The address byte of an endpoint.
pub open spec fn endpoint_address(number: u8, direction: EndpointDirection) -> u8 {
    match direction {
        EndpointDirection::In => number | 0x80,
        EndpointDirection::Out => number,
    }
}

/// The 7 bytes that an endpoint descriptor is written as.
pub open spec fn encode_endpoint(e: EndpointDescriptor) -> Seq<u8> {
    seq![
        7u8,
        ENDPOINT_DESCRIPTOR,
        endpoint_address(e.endpoint_number, e.direction),
        transfer_type_byte(e.attributes),
        low_byte(e.max_packet_size),
        high_byte(e.max_packet_size),
        e.interval,
    ]
}

impl EndpointDescriptor {
    /// The endpoint number fits its four bits.
    pub open spec fn well_formed(self) -> bool {
        self.endpoint_number < 16
    }

    /// Decodes the 7 bytes of an endpoint descriptor.
    pub fn try_from(response: [u8; 7]) -> (r: Result<Self, DescriptorError>)
        ensures
            r == parse_endpoint(response@),
            r is Ok ==> r.unwrap().well_formed(),
    {
        let desc_length: u8 = response[0];
        let desc_type: u8 = response[1];
        if desc_type != ENDPOINT_DESCRIPTOR {
            return Err(
                DescriptorError::InvalidType { expected: ENDPOINT_DESCRIPTOR, got: desc_type },
            );
        }
        if desc_length != 7 {
            return Err(DescriptorError::InvalidLength { expected: 7, got: desc_length });
        }
        let endpoint_address: u8 = response[2];
        if endpoint_address & 0x70 != 0 {
            return Err(DescriptorError::EndpointAddressReservedSet(endpoint_address & 0x70));
        }
        assert((endpoint_address & 0x0F) < 16) by (bit_vector);
        let endpoint_number: u8 = endpoint_address & 0x0F;
        let direction = if endpoint_address & 0x80 == 0 {
            EndpointDirection::Out
        } else {
            EndpointDirection::In
        };
        let max_packet_size: u16 = read_le16(response[4], response[5]);
        let interval: u8 = response[6];
        match TransferType::try_from(response[3]) {
            Err(e) => Err(e),
            Ok(attributes) => Ok(
                EndpointDescriptor {
                    endpoint_number,
                    direction,
                    attributes,
                    max_packet_size,
                    interval,
                },
            ),
        }
    }

    /// Writes the descriptor as the 7 bytes that a device would answer with.
    pub fn encode(&self) -> (r: [u8; 7])
        ensures
            r@ == encode_endpoint(*self),
    {
        let address: u8 = match self.direction {
            EndpointDirection::In => self.endpoint_number | 0x80,
            EndpointDirection::Out => self.endpoint_number,
        };
        let r: [u8; 7] = [
            7,
            ENDPOINT_DESCRIPTOR,
            address,
            self.attributes.byte(),
            (self.max_packet_size & 0xFF) as u8,
            (self.max_packet_size >> 8) as u8,
            self.interval,
        ];
        assert(r@ =~= encode_endpoint(*self));
        r
    }
}

/// Writing an endpoint descriptor and reading it back gives the descriptor
/// again, for every descriptor whose endpoint number fits its four bits.
pub proof fn lemma_endpoint_round_trip(e: EndpointDescriptor)
    requires
        e.well_formed(),
    ensures
        parse_endpoint(encode_endpoint(e)) == Ok::<EndpointDescriptor, DescriptorError>(e),
{
    lemma_le16_of_bytes(e.max_packet_size);
    lemma_transfer_type_round_trip(e.attributes);
    let n = e.endpoint_number;
    assert((n | 0x80) & 0x70 == 0 && (n | 0x80) & 0x0F == n && (n | 0x80) & 0x80 != 0 && n & 0x70
        == 0 && n & 0x0F == n && n & 0x80 == 0) by (bit_vector)
        requires
            n < 16,
    ;
}

/// The current that a configuration may draw, in units of two milliamperes.
#[derive(Debug, Clone, Copy, PartialEq, Eq, PartialOrd, Ord, Structural)]
pub struct MaxPower(pub u8);

impl MaxPower {
    /// The current in milliamperes.
    pub fn milliamps(&self) -> (r: u16)
        ensures
            r == 2 * self.0,
    {
        (self.0 as u16) * 2
    }
}

#[derive(Debug, Clone, Copy, PartialEq, Eq, Structural)]
pub struct ConfigurationCharacteristics {
    pub self_powered: bool,
    pub remote_wakeup: bool,
}

/// The characteristics in the attributes byte of a configuration: bit 7 is
/// set, bits 0 to 4 are clear, bit 6 says self-powered and bit 5 remote wakeup.
pub open spec fn characteristics_of(value: u8) -> Result<
    ConfigurationCharacteristics,
    DescriptorError,
> {
    if value & 0x80 != 0x80 {
        Err(DescriptorError::ConfigurationBit7Clear)
    } else if value & 0x1F != 0x00 {
        Err(DescriptorError::ConfigurationReservedSet)
    } else {
        Ok(
            ConfigurationCharacteristics {
                self_powered: value & 0x40 == 0x40,
                remote_wakeup: value & 0x20 == 0x20,
            },
        )
    }
}

impl ConfigurationCharacteristics {
    /// Decodes the attributes byte of a configuration descriptor.
    pub fn try_from(value: u8) -> (r: Result<Self, DescriptorError>)
        ensures
            r == characteristics_of(value),
    {
        if value & 0x80 != 0x80 {
            Err(DescriptorError::ConfigurationBit7Clear)
        } else if value & 0x1F != 0x00 {
            Err(DescriptorError::ConfigurationReservedSet)
        } else {
            Ok(
                ConfigurationCharacteristics {
                    self_powered: value & 0x40 == 0x40,
                    remote_wakeup: value & 0x20 == 0x20,
                },
            )
        }
    }
}

#[derive(Debug, Clone, PartialEq, Eq)]
pub enum DeviceCapabilityDescriptor {
    USB20Extensions { link_power_management: bool },
    Unimplemented(u8, Vec<u8>),
    Reserved(u8, Vec<u8>),
}

/// What a device capability is, apart from where its bytes are stored.
pub enum DeviceCapabilityView {
    USB20Extensions { link_power_management: bool },
    Unimplemented(u8, Seq<u8>),
    Reserved(u8, Seq<u8>),
}

impl View for DeviceCapabilityDescriptor {
    type V = DeviceCapabilityView;

    open spec fn view(&self) -> DeviceCapabilityView {
        match *self {
            DeviceCapabilityDescriptor::USB20Extensions {
                link_power_management,
            } => DeviceCapabilityView::USB20Extensions { link_power_management },
            DeviceCapabilityDescriptor::Unimplemented(t, v) => DeviceCapabilityView::Unimplemented(
                t,
                v@,
            ),
            DeviceCapabilityDescriptor::Reserved(t, v) => DeviceCapabilityView::Reserved(t, v@),
        }
    }
}

/// The device capability at the head of `buffer`, and the bytes after it.
///
/// A capability has type 16, a length of at least three that the buffer
/// covers, and its own capability type in the third byte. Type 2, the USB 2.0
/// extension, is seven bytes long and holds a 32-bit attribute word that is 0,
/// or 2 for link power management. The types 0 and 17 upward are reserved;
/// the others are known but kept as bytes.
pub open spec fn parse_capability(buffer: Seq<u8>) -> Result<
    (Seq<u8>, DeviceCapabilityView),
    DescriptorError,
> {
    if buffer.len() < 2 {
        Err(DescriptorError::Truncated)
    } else if buffer[1] != DEVICE_CAPABILITY_DESCRIPTOR {
        Err(
            DescriptorError::InvalidType { expected: DEVICE_CAPABILITY_DESCRIPTOR, got: buffer[1] },
        )
    } else if buffer[0] > buffer.len() {
        Err(DescriptorError::Truncated)
    } else if buffer[0] < 3 {
        Err(DescriptorError::TooShort { got: buffer[0] })
    } else {
        let n = buffer[0] as int;
        let capability_type = buffer[2];
        let rest = buffer.subrange(n, buffer.len() as int);
        if capability_type == 0 || capability_type >= 0x11 {
            Ok((rest, DeviceCapabilityView::Reserved(capability_type, buffer.subrange(3, n))))
        } else if capability_type == 2 {
            if n != 7 {
                Err(DescriptorError::InvalidLength { expected: 7, got: buffer[0] })
            } else {
                let attributes = le32(buffer[3], buffer[4], buffer[5], buffer[6]);
                if attributes == 0 {
                    Ok(
                        (
                            rest,
                            DeviceCapabilityView::USB20Extensions { link_power_management: false },
                        ),
                    )
                } else if attributes == 2 {
                    Ok(
                        (
                            rest,
                            DeviceCapabilityView::USB20Extensions { link_power_management: true },
                        ),
                    )
                } else {
                    Err(DescriptorError::InvalidExtensionAttributes)
                }
            }
        } else {
            Ok((rest, DeviceCapabilityView::Unimplemented(capability_type, buffer.subrange(3, n))))
        }
    }
}

impl DeviceCapabilityDescriptor {
    /// Decodes the device capability at the head of `buffer` and hands back
    /// what follows it.
    pub fn parse(buffer: &[u8]) -> (r: Result<(&[u8], Self), DescriptorError>)
        ensures
            match parse_capability(buffer@) {
                Ok((rest, d)) => r is Ok && r.unwrap().0@ == rest && r.unwrap().1@ == d,
                Err(e) => r == Err::<(&[u8], Self), DescriptorError>(e),
            },
            r is Ok ==> r.unwrap().0@.len() < buffer@.len(),
    {
        if buffer.len() < 2 {
            return Err(DescriptorError::Truncated);
        }
        let length_byte: u8 = buffer[0];
        let desc_type: u8 = buffer[1];
        let desc_length: usize = length_byte as usize;
        if desc_type != DEVICE_CAPABILITY_DESCRIPTOR {
            return Err(
                DescriptorError::InvalidType {
                    expected: DEVICE_CAPABILITY_DESCRIPTOR,
                    got: desc_type,
                },
            );
        }
        if desc_length > buffer.len() {
            return Err(DescriptorError::Truncated);
        }
        if desc_length < 3 {
            return Err(DescriptorError::TooShort { got: length_byte });
        }
        let device_capability_type: u8 = buffer[2];
        let rest: &[u8] = slice_subrange(buffer, desc_length, buffer.len());
        if device_capability_type == 0 || device_capability_type >= 0x11 {
            let bytes: Vec<u8> = slice_to_vec(slice_subrange(buffer, 3, desc_length));
            Ok((rest, DeviceCapabilityDescriptor::Reserved(device_capability_type, bytes)))
        } else if device_capability_type == 2 {
            if desc_length != 7 {
                return Err(DescriptorError::InvalidLength { expected: 7, got: length_byte });
            }
            let attributes: u32 = (buffer[3] as u32) | ((buffer[4] as u32) << 8) | ((
            buffer[5] as u32) << 16) | ((buffer[6] as u32) << 24);
            if attributes == 0 {
                Ok(
                    (
                        rest,
                        DeviceCapabilityDescriptor::USB20Extensions { link_power_management: false },
                    ),
                )
            } else if attributes == 2 {
                Ok(
                    (
                        rest,
                        DeviceCapabilityDescriptor::USB20Extensions { link_power_management: true },
                    ),
                )
            } else {
                Err(DescriptorError::InvalidExtensionAttributes)
            }
        } else {
            let bytes: Vec<u8> = slice_to_vec(slice_subrange(buffer, 3, desc_length));
            Ok((rest, DeviceCapabilityDescriptor::Unimplemented(device_capability_type, bytes)))
        }
    }
}

/// The views of a list of device capabilities.
pub open spec fn capability_views(v: Seq<DeviceCapabilityDescriptor>) -> Seq<
    DeviceCapabilityView,
> {
    Seq::new(v.len(), |i: int| v[i]@)
}

#[derive(Debug, Clone, PartialEq, Eq)]
pub struct BinaryObjectStore(pub Vec<DeviceCapabilityDescriptor>);

impl View for BinaryObjectStore {
    type V = Seq<DeviceCapabilityView>;

    open spec fn view(&self) -> Seq<DeviceCapabilityView> {
        capability_views(self.0@)
    }
}

/// A list that was parsed so far, followed by what parsing the rest gives.
pub open spec fn after<T>(done: Seq<T>, more: Result<Seq<T>, DescriptorError>) -> Result<
    Seq<T>,
    DescriptorError,
> {
    match more {
        Ok(items) => Ok(done + items),
        Err(e) => Err(e),
    }
}

/// The first `count` device capabilities in `buffer`, one after the other.
pub open spec fn parse_capabilities(buffer: Seq<u8>, count: nat) -> Result<
    Seq<DeviceCapabilityView>,
    DescriptorError,
>
    decreases count,
{
    if count == 0 {
        Ok(Seq::empty())
    } else {
        match parse_capability(buffer) {
            Err(e) => Err(e),
            Ok((rest, capability)) => after(
                seq![capability],
                parse_capabilities(rest, (count - 1) as nat),
            ),
        }
    }
}

/// The binary object store that `buffer` spells out: a header of five bytes
/// with type 15, the total length, which is that of the buffer, and the
/// number of device capabilities, which follow the header.
pub open spec fn parse_object_store(buffer: Seq<u8>) -> Result<
    Seq<DeviceCapabilityView>,
    DescriptorError,
> {
    if buffer.len() < 2 {
        Err(DescriptorError::Truncated)
    } else if buffer[1] != BINARY_OBJECT_STORE_DESCRIPTOR {
        Err(
            DescriptorError::InvalidType {
                expected: BINARY_OBJECT_STORE_DESCRIPTOR,
                got: buffer[1],
            },
        )
    } else if buffer[0] != 5 {
        Err(DescriptorError::InvalidLength { expected: 5, got: buffer[0] })
    } else if buffer.len() < 5 {
        Err(DescriptorError::Truncated)
    } else if le16(buffer[2], buffer[3]) != buffer.len() {
        Err(DescriptorError::TotalLengthMismatch)
    } else {
        parse_capabilities(buffer.subrange(5, buffer.len() as int), buffer[4] as nat)
    }
}

/// The view of a parse result.
pub open spec fn parsed<T: View>(r: Result<T, DescriptorError>) -> Result<T::V, DescriptorError> {
    match r {
        Ok(d) => Ok(d@),
        Err(e) => Err(e),
    }
}

impl BinaryObjectStore {
    /// Decodes a binary object store with its device capabilities.
    pub fn parse(buffer: &[u8]) -> (r: Result<Self, DescriptorError>)
        ensures
            parsed(r) == parse_object_store(buffer@),
    {
        if buffer.len() < 2 {
            return Err(DescriptorError::Truncated);
        }
        let desc_length: u8 = buffer[0];
        let desc_type: u8 = buffer[1];
        if desc_type != BINARY_OBJECT_STORE_DESCRIPTOR {
            return Err(
                DescriptorError::InvalidType {
                    expected: BINARY_OBJECT_STORE_DESCRIPTOR,
                    got: desc_type,
                },
            );
        }
        if desc_length != 5 {
            return Err(DescriptorError::InvalidLength { expected: 5, got: desc_length });
        }
        if buffer.len() < 5 {
            return Err(DescriptorError::Truncated);
        }
        let total_length: usize = read_le16(buffer[2], buffer[3]) as usize;
        let num_caps: u8 = buffer[4];
        if total_length != buffer.len() {
            return Err(DescriptorError::TotalLengthMismatch);
        }
        let mut read_ptr: &[u8] = slice_subrange(buffer, 5, buffer.len());
        let mut capabilities: Vec<DeviceCapabilityDescriptor> = Vec::new();
        let mut i: u8 = 0;
        while i < num_caps
            invariant
                i <= num_caps,
                after(
                    capability_views(capabilities@),
                    parse_capabilities(read_ptr@, (num_caps - i) as nat),
                ) == parse_object_store(buffer@),
            decreases num_caps - i,
        {
            let ghost done = capability_views(capabilities@);
            match DeviceCapabilityDescriptor::parse(read_ptr) {
                Err(e) => {
                    return Err(e);
                },
                Ok((new_read_ptr, capability_desc)) => {
                    proof {
                        let more = parse_capabilities(new_read_ptr@, (num_caps - i - 1) as nat);
                        assert(capability_views(capabilities@.push(capability_desc)) =~= done.push(
                            capability_desc@,
                        ));
                        if let Ok(items) = more {
                            assert(done.push(capability_desc@) + items =~= done + (
                            seq![capability_desc@] + items));
                        }
                    }
                    read_ptr = new_read_ptr;
                    capabilities.push(capability_desc);
                },
            }
            i = i + 1;
        }
        proof {
            assert(capability_views(capabilities@) + Seq::<DeviceCapabilityView>::empty()
                =~= capability_views(capabilities@));
        }
        Ok(BinaryObjectStore(capabilities))
    }
}

#[derive(Debug, Clone, PartialEq, Eq)]
pub enum StringDescriptor {
    CodeArray(Vec<LanguageId>),
    String(String),
}

/// What a string descriptor is, apart from where its contents are stored.
pub enum StringDescriptorView {
    CodeArray(Seq<LanguageId>),
    String(Seq<char>),
}

impl View for StringDescriptor {
    type V = StringDescriptorView;

    open spec fn view(&self) -> StringDescriptorView {
        match *self {
            StringDescriptor::CodeArray(v) => StringDescriptorView::CodeArray(v@),
            StringDescriptor::String(s) => StringDescriptorView::String(s@),
        }
    }
}

/// The text that 16-bit code units spell in UTF-16, with the replacement
/// character in place of every unit that is no valid part of a character.
pub uninterp spec fn utf16_lossy(units: Seq<u16>) -> Seq<char>;

/// `String::from_utf16_lossy` of the standard library. The text that it
/// returns depends on the code units alone, and is what `utf16_lossy` names.
#[verifier::external_body]
fn decode_utf16_lossy(units: &Vec<u16>) -> (r: String)
    ensures
        r@ == utf16_lossy(units@),
{
    String::from_utf16_lossy(units)
}

/// The 16-bit units that `bytes` hold, each with its low byte first. A last
/// byte without a partner is left out.
pub open spec fn units_of(bytes: Seq<u8>) -> Seq<u16> {
    Seq::new((bytes.len() / 2) as nat, |i: int| le16(bytes[2 * i], bytes[2 * i + 1]))
}

/// The language identifiers that a list of 16-bit units names.
pub open spec fn languages_of(units: Seq<u16>) -> Seq<LanguageId> {
    Seq::new(units.len(), |i: int| LanguageId(units[i]))
}

/// The string descriptor that `response` spells out: type 3 and a length
/// byte that is the length of the buffer. At index zero the units after the
/// header are the languages that the device has strings in; at any other
/// index they are the text, in UTF-16.
pub open spec fn parse_string(index: u8, response: Seq<u8>) -> Result<
    StringDescriptorView,
    DescriptorError,
> {
    if response.len() < 2 {
        Err(DescriptorError::Truncated)
    } else if response[1] != STRING_DESCRIPTOR {
        Err(DescriptorError::InvalidType { expected: STRING_DESCRIPTOR, got: response[1] })
    } else if response[0] != response.len() {
        Err(DescriptorError::Truncated)
    } else {
        let units = units_of(response.subrange(2, response.len() as int));
        if index == 0 {
            Ok(StringDescriptorView::CodeArray(languages_of(units)))
        } else {
            Ok(StringDescriptorView::String(utf16_lossy(units)))
        }
    }
}

impl StringDescriptor {
    /// Decodes the string descriptor that answers a request for the string `index`.
    pub fn parse(index: u8, response: &[u8]) -> (r: Result<Self, DescriptorError>)
        ensures
            parsed(r) == parse_string(index, response@),
    {
        if response.len() < 2 {
            return Err(DescriptorError::Truncated);
        }
        let desc_length: u8 = response[0];
        let desc_type: u8 = response[1];
        if desc_type != STRING_DESCRIPTOR {
            return Err(
                DescriptorError::InvalidType { expected: STRING_DESCRIPTOR, got: desc_type },
            );
        }
        if desc_length as usize != response.len() {
            return Err(DescriptorError::Truncated);
        }
        let body: &[u8] = slice_subrange(response, 2, response.len());
        let count: usize = body.len() / 2;
        let mut units: Vec<u16> = Vec::new();
        let mut i: usize = 0;
        while i < count
            invariant
                i <= count,
                count == body@.len() / 2,
                body@.len() <= usize::MAX,
                units@ == units_of(body@).take(i as int),
            decreases count - i,
        {
            units.push(read_le16(body[2 * i], body[2 * i + 1]));
            proof {
                assert(units@ =~= units_of(body@).take(i + 1));
            }
            i = i + 1;
        }
        proof {
            assert(units@ =~= units_of(body@));
        }
        if index == 0 {
            let mut languages: Vec<LanguageId> = Vec::new();
            let mut k: usize = 0;
            while k < units.len()
                invariant
                    k <= units.len(),
                    languages@ == languages_of(units@).take(k as int),
                decreases units.len() - k,
            {
                languages.push(LanguageId::from(units[k]));
                proof {
                    assert(languages@ =~= languages_of(units@).take(k + 1));
                }
                k = k + 1;
            }
            proof {
                assert(languages@ =~= languages_of(units@));
            }
            Ok(StringDescriptor::CodeArray(languages))
        } else {
            Ok(StringDescriptor::String(decode_utf16_lossy(&units)))
        }
    }
}

#[derive(Debug, Clone, PartialEq, Eq)]
pub enum ClassSpecificDescriptor {
    CommunicationDevice(cdc::ClassSpecificDescriptor),
    MassStorageDevice(msd::ClassSpecificDescriptor),
    Other(Vec<u8>),
}

/// What a class-specific descriptor is, apart from where its bytes are stored.
pub enum ClassSpecificView {
    CommunicationDevice(cdc::ClassSpecificDescriptor),
    MassStorageDevice(msd::ClassSpecificDescriptor),
    Other(Seq<u8>),
}

impl View for ClassSpecificDescriptor {
    type V = ClassSpecificView;

    open spec fn view(&self) -> ClassSpecificView {
        match *self {
            ClassSpecificDescriptor::CommunicationDevice(d) => ClassSpecificView::CommunicationDevice(
                d,
            ),
            ClassSpecificDescriptor::MassStorageDevice(d) => ClassSpecificView::MassStorageDevice(d),
            ClassSpecificDescriptor::Other(v) => ClassSpecificView::Other(v@),
        }
    }
}

/// The views of a list of class-specific descriptors.
pub open spec fn class_views(v: Seq<ClassSpecificDescriptor>) -> Seq<ClassSpecificView> {
    Seq::new(v.len(), |i: int| v[i]@)
}

#[derive(Debug, Clone, Copy, PartialEq, Eq, Structural)]
pub enum InterfaceClass {
    CommunicationDevice(cdc::InterfaceSubClass),
    CDCData(cdc::DataInterfaceSubClass),
    MassStorageDevice(msd::InterfaceSubClass),
    VendorSpecific { subclass: u8, protocol: u8 },
}

/// The interface class that a class, subclass and protocol code stand for:
/// 2 communications, 8 mass storage, 10 communications data, 255 vendor specific.
pub open spec fn interface_class_of(class: u8, subclass: u8, protocol: u8) -> Result<
    InterfaceClass,
    DescriptorError,
> {
    if class == 2 {
        Ok(InterfaceClass::CommunicationDevice(cdc::InterfaceSubClass { subclass, protocol }))
    } else if class == 8 {
        Ok(InterfaceClass::MassStorageDevice(msd::InterfaceSubClass { subclass, protocol }))
    } else if class == 10 {
        Ok(InterfaceClass::CDCData(cdc::DataInterfaceSubClass { subclass, protocol }))
    } else if class == 0xFF {
        Ok(InterfaceClass::VendorSpecific { subclass, protocol })
    } else {
        Err(DescriptorError::UnsupportedInterfaceClass(class))
    }
}

/// The class-specific descriptor of an interface of the class `class` at the
/// head of `descriptor`, and the bytes after it. Only communications and mass
/// storage interfaces have class-specific descriptors that are handled.
pub open spec fn parse_class_specific(class: InterfaceClass, descriptor: Seq<u8>) -> Result<
    (Seq<u8>, ClassSpecificView),
    DescriptorError,
> {
    match class {
        InterfaceClass::CommunicationDevice(_) => match cdc::parse_class_descriptor(descriptor) {
            Ok((rest, d)) => Ok((rest, ClassSpecificView::CommunicationDevice(d))),
            Err(e) => Err(e),
        },
        InterfaceClass::MassStorageDevice(_) => match msd::skip_descriptor(descriptor) {
            Ok(rest) => Ok(
                (rest, ClassSpecificView::MassStorageDevice(msd::ClassSpecificDescriptor)),
            ),
            Err(e) => Err(e),
        },
        _ => Err(DescriptorError::ClassDescriptorUnsupported),
    }
}

/// The view of a parse result that comes with the bytes left over.
pub open spec fn parsed_rest<T: View>(r: Result<(&[u8], T), DescriptorError>) -> Result<
    (Seq<u8>, T::V),
    DescriptorError,
> {
    match r {
        Ok((rest, d)) => Ok((rest@, d@)),
        Err(e) => Err(e),
    }
}

impl InterfaceClass {
    /// Decodes the class-specific descriptor at the head of `descriptor` as
    /// this interface class has them, and hands back what follows it.
    pub fn parse_descriptor<'descriptor>(&self, descriptor: &'descriptor [u8]) -> (r: Result<
        (&'descriptor [u8], ClassSpecificDescriptor),
        DescriptorError,
    >)
        ensures
            parsed_rest(r) == parse_class_specific(*self, descriptor@),
            r is Ok ==> r.unwrap().0@.len() < descriptor@.len(),
    {
        match self {
            InterfaceClass::CommunicationDevice(_) => {
                match cdc::ClassSpecificDescriptor::parse(descriptor) {
                    Ok((next, desc)) => Ok(
                        (next, ClassSpecificDescriptor::CommunicationDevice(desc)),
                    ),
                    Err(e) => Err(e),
                }
            },
            InterfaceClass::MassStorageDevice(_) => {
                match msd::ClassSpecificDescriptor::parse(descriptor) {
                    Ok((next, desc)) => Ok((next, ClassSpecificDescriptor::MassStorageDevice(desc))),
                    Err(e) => Err(e),
                }
            },
            _ => Err(DescriptorError::ClassDescriptorUnsupported),
        }
    }

    pub fn try_from(value: (u8, u8, u8)) -> (r: Result<Self, DescriptorError>)
        ensures
            r == interface_class_of(value.0, value.1, value.2),
    {
        let (class, subclass, protocol) = value;
        if class == 2 {
            Ok(InterfaceClass::CommunicationDevice(cdc::InterfaceSubClass { subclass, protocol }))
        } else if class == 8 {
            Ok(InterfaceClass::MassStorageDevice(msd::InterfaceSubClass { subclass, protocol }))
        } else if class == 10 {
            Ok(InterfaceClass::CDCData(cdc::DataInterfaceSubClass { subclass, protocol }))
        } else if class == 0xFF {
            Ok(InterfaceClass::VendorSpecific { subclass, protocol })
        } else {
            Err(DescriptorError::UnsupportedInterfaceClass(class))
        }
    }
}

#[derive(Debug, Clone, PartialEq, Eq)]
pub struct PlainInterfaceDescriptor {
    pub id: u8,
    pub alternate_setting: u8,
    pub endpoints: Vec<EndpointDescriptor>,
    pub interface_class_descriptor: Vec<ClassSpecificDescriptor>,
    pub class: InterfaceClass,
    pub description_string_index: u8,
}

/// What an interface descriptor is, apart from where its lists are stored.
pub struct PlainInterfaceView {
    pub id: u8,
    pub alternate_setting: u8,
    pub endpoints: Seq<EndpointDescriptor>,
    pub interface_class_descriptor: Seq<ClassSpecificView>,
    pub class: InterfaceClass,
    pub description_string_index: u8,
}

impl View for PlainInterfaceDescriptor {
    type V = PlainInterfaceView;

    open spec fn view(&self) -> PlainInterfaceView {
        PlainInterfaceView {
            id: self.id,
            alternate_setting: self.alternate_setting,
            endpoints: self.endpoints@,
            interface_class_descriptor: class_views(self.interface_class_descriptor@),
            class: self.class,
            description_string_index: self.description_string_index,
        }
    }
}

/// A list that was parsed so far, followed by what parsing the rest gives,
/// with the bytes that the rest leaves over.
pub open spec fn after_rest<T>(
    done: Seq<T>,
    more: Result<(Seq<u8>, Seq<T>), DescriptorError>,
) -> Result<(Seq<u8>, Seq<T>), DescriptorError> {
    match more {
        Ok((rest, items)) => Ok((rest, done + items)),
        Err(e) => Err(e),
    }
}

/// Whether a descriptor of this type ends the class-specific descriptors of
/// an interface: an endpoint, the next interface, or an interface association.
pub open spec fn ends_class_list(descriptor_type: u8) -> bool {
    descriptor_type == ENDPOINT_DESCRIPTOR || descriptor_type == INTERFACE_DESCRIPTOR
        || descriptor_type == INTERFACE_ASSOCIATION_DESCRIPTOR
}

/// The class-specific descriptors at the head of `buffer`, and the bytes
/// after them. They end where the buffer does, or with the first endpoint,
/// interface or interface association descriptor.
pub open spec fn parse_class_list(class: InterfaceClass, buffer: Seq<u8>) -> Result<
    (Seq<u8>, Seq<ClassSpecificView>),
    DescriptorError,
>
    decreases buffer.len(),
{
    if buffer.len() == 0 {
        Ok((buffer, Seq::empty()))
    } else if buffer.len() < 2 {
        Err(DescriptorError::Truncated)
    } else if ends_class_list(buffer[1]) {
        Ok((buffer, Seq::empty()))
    } else {
        match parse_class_specific(class, buffer) {
            Err(e) => Err(e),
            Ok((rest, d)) => if rest.len() < buffer.len() {
                after_rest(seq![d], parse_class_list(class, rest))
            } else {
                Err(DescriptorError::Truncated)
            },
        }
    }
}

/// The first `count` endpoint descriptors in `buffer`, seven bytes each, and
/// the bytes after them.
pub open spec fn parse_endpoints(buffer: Seq<u8>, count: nat) -> Result<
    (Seq<u8>, Seq<EndpointDescriptor>),
    DescriptorError,
>
    decreases count,
{
    if count == 0 {
        Ok((buffer, Seq::empty()))
    } else {
        let length: u8 = if buffer.len() > 0 {
            buffer[0]
        } else {
            0
        };
        if length > buffer.len() {
            Err(DescriptorError::Truncated)
        } else if length != 7 {
            Err(DescriptorError::InvalidLength { expected: 7, got: length })
        } else {
            match parse_endpoint(buffer.subrange(0, 7)) {
                Err(e) => Err(e),
                Ok(endpoint) => after_rest(
                    seq![endpoint],
                    parse_endpoints(buffer.subrange(7, buffer.len() as int), (count - 1) as nat),
                ),
            }
        }
    }
}

/// The interface descriptor at the head of `response`, with all that belongs
/// to it, and the bytes after it.
///
/// Its header is nine bytes with type 4: interface number, alternate setting,
/// number of endpoints, class triple and a string index. Then come the
/// class-specific descriptors of the interface, if it has any, and then as
/// many endpoint descriptors as the header says, which may be none.
pub open spec fn parse_plain(response: Seq<u8>) -> Result<
    (Seq<u8>, PlainInterfaceView),
    DescriptorError,
> {
    if response.len() < 2 {
        Err(DescriptorError::Truncated)
    } else if response[1] != INTERFACE_DESCRIPTOR {
        Err(DescriptorError::InvalidType { expected: INTERFACE_DESCRIPTOR, got: response[1] })
    } else if response[0] != 9 {
        Err(DescriptorError::InvalidLength { expected: 9, got: response[0] })
    } else if response.len() < 9 {
        Err(DescriptorError::Truncated)
    } else {
        match interface_class_of(response[5], response[6], response[7]) {
            Err(e) => Err(e),
            Ok(class) => match parse_class_list(
                class,
                response.subrange(9, response.len() as int),
            ) {
                Err(e) => Err(e),
                Ok((rest, class_descriptors)) => match parse_endpoints(rest, response[4] as nat) {
                    Err(e) => Err(e),
                    Ok((rest, endpoints)) => Ok(
                        (
                            rest,
                            PlainInterfaceView {
                                id: response[2],
                                alternate_setting: response[3],
                                endpoints,
                                interface_class_descriptor: class_descriptors,
                                class,
                                description_string_index: response[8],
                            },
                        ),
                    ),
                },
            },
        }
    }
}

/// As many endpoints are read as were asked for.
pub proof fn lemma_endpoints_counted(buffer: Seq<u8>, count: nat)
    ensures
        parse_endpoints(buffer, count) matches Ok((_, endpoints)) ==> endpoints.len() == count,
    decreases count,
{
    if count > 0 {
        lemma_endpoints_counted(buffer.subrange(7, buffer.len() as int), (count - 1) as nat);
    }
}

/// An interface has as many endpoints as its header says.
pub proof fn lemma_interface_endpoints(response: Seq<u8>)
    ensures
        parse_plain(response) matches Ok((_, interface)) ==> interface.endpoints.len()
            == response[4],
{
    if parse_plain(response) is Ok {
        let class = interface_class_of(response[5], response[6], response[7]).unwrap();
        let rest = parse_class_list(class, response.subrange(9, response.len() as int)).unwrap().0;
        lemma_endpoints_counted(rest, response[4] as nat);
    }
}

/// What parsing a list leaves over is a tail of the buffer that went in.
pub proof fn lemma_class_list_shrinks(class: InterfaceClass, buffer: Seq<u8>)
    ensures
        parse_class_list(class, buffer) matches Ok((rest, _)) ==> rest.len() <= buffer.len(),
    decreases buffer.len(),
{
    if buffer.len() >= 2 && !ends_class_list(buffer[1]) {
        if let Ok((rest, d)) = parse_class_specific(class, buffer) {
            if rest.len() < buffer.len() {
                lemma_class_list_shrinks(class, rest);
            }
        }
    }
}

/// What parsing endpoints leaves over is a tail of the buffer that went in.
pub proof fn lemma_endpoints_shrink(buffer: Seq<u8>, count: nat)
    ensures
        parse_endpoints(buffer, count) matches Ok((rest, _)) ==> rest.len() <= buffer.len(),
    decreases count,
{
    if count > 0 && buffer.len() >= 7 {
        lemma_endpoints_shrink(buffer.subrange(7, buffer.len() as int), (count - 1) as nat);
    }
}

/// An interface descriptor takes up at least its nine header bytes.
pub proof fn lemma_plain_shrinks(response: Seq<u8>)
    ensures
        parse_plain(response) matches Ok((rest, _)) ==> rest.len() + 9 <= response.len(),
{
    if response.len() >= 9 {
        if let Ok(class) = interface_class_of(response[5], response[6], response[7]) {
            let body = response.subrange(9, response.len() as int);
            lemma_class_list_shrinks(class, body);
            if let Ok((rest, _)) = parse_class_list(class, body) {
                lemma_endpoints_shrink(rest, response[4] as nat);
            }
        }
    }
}

impl PlainInterfaceDescriptor {
    /// Decodes the interface descriptor at the head of `response`, with its
    /// class-specific descriptors and its endpoints, and hands back what
    /// follows them.
    #[verifier::loop_isolation(false)]
    pub fn parse(response: &[u8]) -> (r: Result<(&[u8], Self), DescriptorError>)
        ensures
            parsed_rest(r) == parse_plain(response@),
            r is Ok ==> r.unwrap().0@.len() + 9 <= response@.len(),
    {
        proof {
            lemma_plain_shrinks(response@);
        }
        if response.len() < 2 {
            return Err(DescriptorError::Truncated);
        }
        let desc_length: u8 = response[0];
        let desc_type: u8 = response[1];
        if desc_type != INTERFACE_DESCRIPTOR {
            return Err(
                DescriptorError::InvalidType { expected: INTERFACE_DESCRIPTOR, got: desc_type },
            );
        }
        if desc_length != 9 {
            return Err(DescriptorError::InvalidLength { expected: 9, got: desc_length });
        }
        if response.len() < 9 {
            return Err(DescriptorError::Truncated);
        }
        let id: u8 = response[2];
        let alternate_setting: u8 = response[3];
        let num_endpoints: u8 = response[4];
        let class = match InterfaceClass::try_from((response[5], response[6], response[7])) {
            Ok(c) => c,
            Err(e) => {
                return Err(e);
            },
        };
        let description_string_index: u8 = response[8];

        let body: &[u8] = slice_subrange(response, 9, response.len());
        let mut read_ptr: &[u8] = body;
        let mut interface_class_descriptor: Vec<ClassSpecificDescriptor> = Vec::new();
        loop
            invariant
                after_rest(
                    class_views(interface_class_descriptor@),
                    parse_class_list(class, read_ptr@),
                ) == parse_class_list(class, body@),
            decreases read_ptr@.len(),
        {
            if read_ptr.len() == 0 {
                break ;
            }
            if read_ptr.len() < 2 {
                return Err(DescriptorError::Truncated);
            }
            let next_type: u8 = read_ptr[1];
            if next_type == ENDPOINT_DESCRIPTOR || next_type == INTERFACE_DESCRIPTOR || next_type
                == INTERFACE_ASSOCIATION_DESCRIPTOR {
                break ;
            }
            let ghost done = class_views(interface_class_descriptor@);
            match class.parse_descriptor(read_ptr) {
                Err(e) => {
                    return Err(e);
                },
                Ok((new_resp_ptr, descriptor)) => {
                    proof {
                        assert(class_views(interface_class_descriptor@.push(descriptor))
                            =~= done.push(descriptor@));
                        if let Ok((rest, items)) = parse_class_list(class, new_resp_ptr@) {
                            assert(done.push(descriptor@) + items =~= done + (seq![descriptor@]
                                + items));
                        }
                    }
                    interface_class_descriptor.push(descriptor);
                    read_ptr = new_resp_ptr;
                },
            }
        }
        proof {
            assert(class_views(interface_class_descriptor@) + Seq::<ClassSpecificView>::empty()
                =~= class_views(interface_class_descriptor@));
        }
        let ghost after_classes = read_ptr@;
        let mut endpoints: Vec<EndpointDescriptor> = Vec::new();
        let mut i: u8 = 0;
        while i < num_endpoints
            invariant
                i <= num_endpoints,
                after_rest(endpoints@, parse_endpoints(read_ptr@, (num_endpoints - i) as nat))
                    == parse_endpoints(after_classes, num_endpoints as nat),
            decreases num_endpoints - i,
        {
            let len: u8 = if read_ptr.len() > 0 {
                read_ptr[0]
            } else {
                0
            };
            if len as usize > read_ptr.len() {
                return Err(DescriptorError::Truncated);
            }
            if len != 7 {
                return Err(DescriptorError::InvalidLength { expected: 7, got: len });
            }
            let desc: [u8; 7] = [
                read_ptr[0],
                read_ptr[1],
                read_ptr[2],
                read_ptr[3],
                read_ptr[4],
                read_ptr[5],
                read_ptr[6],
            ];
            proof {
                assert(desc@ =~= read_ptr@.subrange(0, 7));
            }
            let endpoint = match EndpointDescriptor::try_from(desc) {
                Ok(e) => e,
                Err(e) => {
                    return Err(e);
                },
            };
            let ghost done = endpoints@;
            let next_ptr: &[u8] = slice_subrange(read_ptr, 7, read_ptr.len());
            proof {
                if let Ok((rest, items)) = parse_endpoints(
                    next_ptr@,
                    (num_endpoints - i - 1) as nat,
                ) {
                    assert(done.push(endpoint) + items =~= done + (seq![endpoint] + items));
                }
            }
            endpoints.push(endpoint);
            read_ptr = next_ptr;
            i = i + 1;
        }
        proof {
            assert(endpoints@ + Seq::<EndpointDescriptor>::empty() =~= endpoints@);
        }
        Ok(
            (
                read_ptr,
                PlainInterfaceDescriptor {
                    id,
                    alternate_setting,
                    interface_class_descriptor,
                    endpoints,
                    class,
                    description_string_index,
                },
            ),
        )
    }
}

/// The views of a list of interface descriptors.
pub open spec fn plain_views(v: Seq<PlainInterfaceDescriptor>) -> Seq<PlainInterfaceView> {
    Seq::new(v.len(), |i: int| v[i]@)
}

#[derive(Debug, PartialEq, Eq)]
pub struct InterfaceAssociationDescriptor {
    pub first_interface: u8,
    pub interfaces: Vec<PlainInterfaceDescriptor>,
    pub function_class: (u8, u8, u8),
    pub function_description_string_index: u8,
}

impl Clone for InterfaceAssociationDescriptor {
    fn clone(&self) -> (r: Self) {
        InterfaceAssociationDescriptor {
            first_interface: self.first_interface,
            interfaces: self.interfaces.clone(),
            function_class: (self.function_class.0, self.function_class.1, self.function_class.2),
            function_description_string_index: self.function_description_string_index,
        }
    }
}

/// What an interface association is, apart from where its list is stored.
pub struct InterfaceAssociationView {
    pub first_interface: u8,
    pub interfaces: Seq<PlainInterfaceView>,
    pub function_class: (u8, u8, u8),
    pub function_description_string_index: u8,
}

impl View for InterfaceAssociationDescriptor {
    type V = InterfaceAssociationView;

    open spec fn view(&self) -> InterfaceAssociationView {
        InterfaceAssociationView {
            first_interface: self.first_interface,
            interfaces: plain_views(self.interfaces@),
            function_class: self.function_class,
            function_description_string_index: self.function_description_string_index,
        }
    }
}

/// The first `count` interface descriptors in `buffer`, each with all that
/// belongs to it, and the bytes after them.
pub open spec fn parse_plain_list(buffer: Seq<u8>, count: nat) -> Result<
    (Seq<u8>, Seq<PlainInterfaceView>),
    DescriptorError,
>
    decreases count,
{
    if count == 0 {
        Ok((buffer, Seq::empty()))
    } else {
        match parse_plain(buffer) {
            Err(e) => Err(e),
            Ok((rest, interface)) => after_rest(
                seq![interface],
                parse_plain_list(rest, (count - 1) as nat),
            ),
        }
    }
}

/// The interface association at the head of `response`, with the interfaces
/// that it groups, and the bytes after them.
///
/// Its header is eight bytes with type 11: first interface, number of
/// interfaces, the class triple of the function and a string index.
pub open spec fn parse_association(response: Seq<u8>) -> Result<
    (Seq<u8>, InterfaceAssociationView),
    DescriptorError,
> {
    if response.len() < 2 {
        Err(DescriptorError::Truncated)
    } else if response[1] != INTERFACE_ASSOCIATION_DESCRIPTOR {
        Err(
            DescriptorError::InvalidType {
                expected: INTERFACE_ASSOCIATION_DESCRIPTOR,
                got: response[1],
            },
        )
    } else if response[0] != 8 {
        Err(DescriptorError::InvalidLength { expected: 8, got: response[0] })
    } else if response.len() < 8 {
        Err(DescriptorError::Truncated)
    } else {
        match parse_plain_list(response.subrange(8, response.len() as int), response[3] as nat) {
            Err(e) => Err(e),
            Ok((rest, interfaces)) => Ok(
                (
                    rest,
                    InterfaceAssociationView {
                        first_interface: response[2],
                        interfaces,
                        function_class: (response[4], response[5], response[6]),
                        function_description_string_index: response[7],
                    },
                ),
            ),
        }
    }
}

/// What parsing interfaces leaves over is a tail of the buffer that went in.
pub proof fn lemma_plain_list_shrinks(buffer: Seq<u8>, count: nat)
    ensures
        parse_plain_list(buffer, count) matches Ok((rest, _)) ==> rest.len() <= buffer.len(),
    decreases count,
{
    if count > 0 {
        lemma_plain_shrinks(buffer);
        if let Ok((rest, _)) = parse_plain(buffer) {
            lemma_plain_list_shrinks(rest, (count - 1) as nat);
        }
    }
}

impl InterfaceAssociationDescriptor {
    /// Decodes the interface association at the head of `response`, with the
    /// interfaces that it groups, and hands back what follows them.
    #[verifier::loop_isolation(false)]
    pub fn parse(response: &[u8]) -> (r: Result<(&[u8], Self), DescriptorError>)
        ensures
            parsed_rest(r) == parse_association(response@),
            r is Ok ==> r.unwrap().0@.len() + 8 <= response@.len(),
    {
        if response.len() < 2 {
            return Err(DescriptorError::Truncated);
        }
        let desc_length: u8 = response[0];
        let desc_type: u8 = response[1];
        if desc_type != INTERFACE_ASSOCIATION_DESCRIPTOR {
            return Err(
                DescriptorError::InvalidType {
                    expected: INTERFACE_ASSOCIATION_DESCRIPTOR,
                    got: desc_type,
                },
            );
        }
        if desc_length != 8 {
            return Err(DescriptorError::InvalidLength { expected: 8, got: desc_length });
        }
        if response.len() < 8 {
            return Err(DescriptorError::Truncated);
        }
        let first_interface: u8 = response[2];
        let interface_count: u8 = response[3];
        let function_class: u8 = response[4];
        let function_subclass: u8 = response[5];
        let function_protocol: u8 = response[6];
        let function_description_string_index: u8 = response[7];

        let body: &[u8] = slice_subrange(response, 8, response.len());
        proof {
            lemma_plain_list_shrinks(body@, interface_count as nat);
        }
        let mut interfaces: Vec<PlainInterfaceDescriptor> = Vec::new();
        let mut next_descriptor: &[u8] = body;
        let mut i: u8 = 0;
        while i < interface_count
            invariant
                i <= interface_count,
                after_rest(
                    plain_views(interfaces@),
                    parse_plain_list(next_descriptor@, (interface_count - i) as nat),
                ) == parse_plain_list(body@, interface_count as nat),
            decreases interface_count - i,
        {
            let ghost done = plain_views(interfaces@);
            match PlainInterfaceDescriptor::parse(next_descriptor) {
                Err(e) => {
                    return Err(e);
                },
                Ok((new_read_ptr, interface)) => {
                    proof {
                        assert(plain_views(interfaces@.push(interface)) =~= done.push(interface@));
                        if let Ok((rest, items)) = parse_plain_list(
                            new_read_ptr@,
                            (interface_count - i - 1) as nat,
                        ) {
                            assert(done.push(interface@) + items =~= done + (seq![interface@]
                                + items));
                        }
                    }
                    next_descriptor = new_read_ptr;
                    interfaces.push(interface);
                },
            }
            i = i + 1;
        }
        proof {
            assert(plain_views(interfaces@) + Seq::<PlainInterfaceView>::empty() =~= plain_views(
                interfaces@,
            ));
        }
        Ok(
            (
                next_descriptor,
                InterfaceAssociationDescriptor {
                    first_interface,
                    interfaces,
                    function_class: (function_class, function_subclass, function_protocol),
                    function_description_string_index,
                },
            ),
        )
    }
}

#[derive(Debug, Clone, PartialEq, Eq)]
pub enum InterfaceDescriptor {
    Plain(PlainInterfaceDescriptor),
    Association(InterfaceAssociationDescriptor),
}

/// What an entry of a configuration is, apart from where its lists are stored.
pub enum InterfaceView {
    Plain(PlainInterfaceView),
    Association(InterfaceAssociationView),
}

impl View for InterfaceDescriptor {
    type V = InterfaceView;

    open spec fn view(&self) -> InterfaceView {
        match *self {
            InterfaceDescriptor::Plain(p) => InterfaceView::Plain(p@),
            InterfaceDescriptor::Association(a) => InterfaceView::Association(a@),
        }
    }
}

/// The interface or interface association at the head of `response`, told
/// apart by the type byte, and the bytes after it.
pub open spec fn parse_interface(response: Seq<u8>) -> Result<
    (Seq<u8>, InterfaceView),
    DescriptorError,
> {
    if response.len() < 2 {
        Err(DescriptorError::Truncated)
    } else if response[1] == INTERFACE_DESCRIPTOR {
        match parse_plain(response) {
            Ok((rest, p)) => Ok((rest, InterfaceView::Plain(p))),
            Err(e) => Err(e),
        }
    } else if response[1] == INTERFACE_ASSOCIATION_DESCRIPTOR {
        match parse_association(response) {
            Ok((rest, a)) => Ok((rest, InterfaceView::Association(a))),
            Err(e) => Err(e),
        }
    } else {
        Err(DescriptorError::UnexpectedType(response[1]))
    }
}

impl InterfaceDescriptor {
    /// Decodes the interface or interface association at the head of
    /// `response` and hands back what follows it.
    pub fn parse(response: &[u8]) -> (r: Result<(&[u8], Self), DescriptorError>)
        ensures
            parsed_rest(r) == parse_interface(response@),
            r is Ok ==> r.unwrap().0@.len() < response@.len(),
    {
        if response.len() < 2 {
            return Err(DescriptorError::Truncated);
        }
        let desc_type: u8 = response[1];
        if desc_type == INTERFACE_DESCRIPTOR {
            match PlainInterfaceDescriptor::parse(response) {
                Ok((read_ptr, interface)) => Ok((read_ptr, InterfaceDescriptor::Plain(interface))),
                Err(e) => Err(e),
            }
        } else if desc_type == INTERFACE_ASSOCIATION_DESCRIPTOR {
            match InterfaceAssociationDescriptor::parse(response) {
                Ok((read_ptr, interface)) => Ok(
                    (read_ptr, InterfaceDescriptor::Association(interface)),
                ),
                Err(e) => Err(e),
            }
        } else {
            Err(DescriptorError::UnexpectedType(desc_type))
        }
    }
}

/// The views of the entries of a configuration.
pub open spec fn interface_views(v: Seq<InterfaceDescriptor>) -> Seq<InterfaceView> {
    Seq::new(v.len(), |i: int| v[i]@)
}

#[derive(Debug, Clone, PartialEq, Eq)]
pub struct ConfigurationDescriptor {
    pub configuration_value: u8,
    pub description_string_index: u8,
    pub interfaces: Vec<InterfaceDescriptor>,
    pub attributes: ConfigurationCharacteristics,
    pub max_power: MaxPower,
}

/// What a configuration is, apart from where its list is stored.
pub struct ConfigurationView {
    pub configuration_value: u8,
    pub description_string_index: u8,
    pub interfaces: Seq<InterfaceView>,
    pub attributes: ConfigurationCharacteristics,
    pub max_power: MaxPower,
}

impl View for ConfigurationDescriptor {
    type V = ConfigurationView;

    open spec fn view(&self) -> ConfigurationView {
        ConfigurationView {
            configuration_value: self.configuration_value,
            description_string_index: self.description_string_index,
            interfaces: interface_views(self.interfaces@),
            attributes: self.attributes,
            max_power: self.max_power,
        }
    }
}

/// The interfaces and interface associations that fill `buffer` to its end.
pub open spec fn parse_interface_list(buffer: Seq<u8>) -> Result<
    Seq<InterfaceView>,
    DescriptorError,
>
    decreases buffer.len(),
{
    if buffer.len() == 0 {
        Ok(Seq::empty())
    } else {
        match parse_interface(buffer) {
            Err(e) => Err(e),
            Ok((rest, interface)) => if rest.len() < buffer.len() {
                after(seq![interface], parse_interface_list(rest))
            } else {
                Err(DescriptorError::Truncated)
            },
        }
    }
}

/// The configuration that `response` spells out, with all its interfaces.
///
/// Its header is nine bytes with type 2: the total length, which is that of
/// the buffer, the number of interfaces, the configuration value, a string
/// index, the attributes and the maximum power. The interfaces and interface
/// associations fill the rest of the buffer; they are read before the
/// attributes are looked at.
pub open spec fn parse_configuration(response: Seq<u8>) -> Result<
    ConfigurationView,
    DescriptorError,
> {
    if response.len() < 2 {
        Err(DescriptorError::Truncated)
    } else if response[1] != CONFIGURATION_DESCRIPTOR {
        Err(
            DescriptorError::InvalidType { expected: CONFIGURATION_DESCRIPTOR, got: response[1] },
        )
    } else if response[0] != 9 {
        Err(DescriptorError::InvalidLength { expected: 9, got: response[0] })
    } else if response.len() < 9 {
        Err(DescriptorError::Truncated)
    } else if response.len() != le16(response[2], response[3]) {
        Err(DescriptorError::TotalLengthMismatch)
    } else {
        match parse_interface_list(response.subrange(9, response.len() as int)) {
            Err(e) => Err(e),
            Ok(interfaces) => match characteristics_of(response[7]) {
                Err(e) => Err(e),
                Ok(attributes) => Ok(
                    ConfigurationView {
                        configuration_value: response[5],
                        description_string_index: response[6],
                        interfaces,
                        attributes,
                        max_power: MaxPower(response[8]),
                    },
                ),
            },
        }
    }
}

impl ConfigurationDescriptor {
    /// Decodes a configuration descriptor with the interfaces, interface
    /// associations and endpoints that follow it.
    #[verifier::loop_isolation(false)]
    pub fn parse(response: &[u8]) -> (r: Result<Self, DescriptorError>)
        ensures
            parsed(r) == parse_configuration(response@),
    {
        if response.len() < 2 {
            return Err(DescriptorError::Truncated);
        }
        let desc_length: u8 = response[0];
        let desc_type: u8 = response[1];
        if desc_type != CONFIGURATION_DESCRIPTOR {
            return Err(
                DescriptorError::InvalidType {
                    expected: CONFIGURATION_DESCRIPTOR,
                    got: desc_type,
                },
            );
        }
        if desc_length != 9 {
            return Err(DescriptorError::InvalidLength { expected: 9, got: desc_length });
        }
        if response.len() < 9 {
            return Err(DescriptorError::Truncated);
        }
        let total_length: u16 = read_le16(response[2], response[3]);
        if response.len() != total_length as usize {
            return Err(DescriptorError::TotalLengthMismatch);
        }
        let body: &[u8] = slice_subrange(response, 9, response.len());
        let mut interfaces: Vec<InterfaceDescriptor> = Vec::new();
        let mut read_ptr: &[u8] = body;
        while read_ptr.len() > 0
            invariant
                after(interface_views(interfaces@), parse_interface_list(read_ptr@))
                    == parse_interface_list(body@),
            decreases read_ptr@.len(),
        {
            let ghost done = interface_views(interfaces@);
            match InterfaceDescriptor::parse(read_ptr) {
                Err(e) => {
                    return Err(e);
                },
                Ok((new_read_ptr, interface)) => {
                    proof {
                        assert(interface_views(interfaces@.push(interface)) =~= done.push(
                            interface@,
                        ));
                        if let Ok(items) = parse_interface_list(new_read_ptr@) {
                            assert(done.push(interface@) + items =~= done + (seq![interface@]
                                + items));
                        }
                    }
                    read_ptr = new_read_ptr;
                    interfaces.push(interface);
                },
            }
        }
        proof {
            assert(interface_views(interfaces@) + Seq::<InterfaceView>::empty()
                =~= interface_views(interfaces@));
        }
        match ConfigurationCharacteristics::try_from(response[7]) {
            Err(e) => Err(e),
            Ok(attributes) => Ok(
                ConfigurationDescriptor {
                    configuration_value: response[5],
                    description_string_index: response[6],
                    interfaces,
                    attributes,
                    max_power: MaxPower(response[8]),
                },
            ),
        }
    }
}

#[derive(Debug, Clone, PartialEq, Eq)]
pub enum Descriptor {
    Device(DeviceDescriptor),
    String(StringDescriptor),
    Configuration(ConfigurationDescriptor),
    BinaryObjectStore(BinaryObjectStore),
    Reserved(Vec<u8>),
}

/// What a descriptor is, apart from where its contents are stored.
pub enum DescriptorView {
    Device(DeviceDescriptor),
    String(StringDescriptorView),
    Configuration(ConfigurationView),
    BinaryObjectStore(Seq<DeviceCapabilityView>),
    Reserved(Seq<u8>),
}

impl View for Descriptor {
    type V = DescriptorView;

    open spec fn view(&self) -> DescriptorView {
        match *self {
            Descriptor::Device(d) => DescriptorView::Device(d),
            Descriptor::String(s) => DescriptorView::String(s@),
            Descriptor::Configuration(c) => DescriptorView::Configuration(c@),
            Descriptor::BinaryObjectStore(b) => DescriptorView::BinaryObjectStore(b@),
            Descriptor::Reserved(v) => DescriptorView::Reserved(v@),
        }
    }
}

/// The descriptor that `response` holds as the answer to a request for
/// `requested`.
///
/// Where the type byte of the answer is the type that was asked for, the
/// answer is decoded as that type; a device descriptor is the first 18 bytes.
/// An answer of another type is refused if the type is one of 4 to 8, and
/// kept as bytes otherwise.
pub open spec fn parse_descriptor(requested: GetDescriptorType, response: Seq<u8>) -> Result<
    DescriptorView,
    DescriptorError,
> {
    if response.len() < 2 {
        Err(DescriptorError::Truncated)
    } else {
        let answered = response[1];
        if requested is Device && answered == DEVICE_DESCRIPTOR {
            if response[0] > response.len() {
                Err(DescriptorError::Truncated)
            } else if response[0] != 18 {
                Err(DescriptorError::InvalidLength { expected: 18, got: response[0] })
            } else {
                match parse_device(response.subrange(0, 18)) {
                    Ok(d) => Ok(DescriptorView::Device(d)),
                    Err(e) => Err(e),
                }
            }
        } else if requested is Configuration && answered == CONFIGURATION_DESCRIPTOR {
            match parse_configuration(response) {
                Ok(c) => Ok(DescriptorView::Configuration(c)),
                Err(e) => Err(e),
            }
        } else if requested is String && answered == STRING_DESCRIPTOR {
            match parse_string(requested->String_0, response) {
                Ok(s) => Ok(DescriptorView::String(s)),
                Err(e) => Err(e),
            }
        } else if requested is BinaryObjectStore && answered == BINARY_OBJECT_STORE_DESCRIPTOR {
            match parse_object_store(response) {
                Ok(b) => Ok(DescriptorView::BinaryObjectStore(b)),
                Err(e) => Err(e),
            }
        } else if 4 <= answered <= 8 {
            Err(DescriptorError::UnsupportedType(answered))
        } else {
            Ok(DescriptorView::Reserved(response))
        }
    }
}

impl Descriptor {
    /// Decodes the bytes that answered a GetDescriptor request for `value.0`.
    pub fn try_from(value: (GetDescriptorType, Vec<u8>)) -> (r: Result<Self, DescriptorError>)
        ensures
            parsed(r) == parse_descriptor(value.0, value.1@),
    {
        let (req_desc_type, response) = value;
        if response.len() < 2 {
            return Err(DescriptorError::Truncated);
        }
        let rsp_desc_len: u8 = response[0];
        let rsp_desc_type: u8 = response[1];
        match req_desc_type {
            GetDescriptorType::Device => {
                if rsp_desc_type == DEVICE_DESCRIPTOR {
                    if rsp_desc_len as usize > response.len() {
                        return Err(DescriptorError::Truncated);
                    }
                    if rsp_desc_len != 18 {
                        return Err(
                            DescriptorError::InvalidLength { expected: 18, got: rsp_desc_len },
                        );
                    }
                    let desc_buf: [u8; 18] = [
                        response[0],
                        response[1],
                        response[2],
                        response[3],
                        response[4],
                        response[5],
                        response[6],
                        response[7],
                        response[8],
                        response[9],
                        response[10],
                        response[11],
                        response[12],
                        response[13],
                        response[14],
                        response[15],
                        response[16],
                        response[17],
                    ];
                    proof {
                        assert(desc_buf@ =~= response@.subrange(0, 18));
                    }
                    return match DeviceDescriptor::try_from(desc_buf) {
                        Ok(d) => Ok(Descriptor::Device(d)),
                        Err(e) => Err(e),
                    };
                }
            },
            GetDescriptorType::Configuration(_) => {
                if rsp_desc_type == CONFIGURATION_DESCRIPTOR {
                    return match ConfigurationDescriptor::parse(response.as_slice()) {
                        Ok(c) => Ok(Descriptor::Configuration(c)),
                        Err(e) => Err(e),
                    };
                }
            },
            GetDescriptorType::String(index, _) => {
                if rsp_desc_type == STRING_DESCRIPTOR {
                    return match StringDescriptor::parse(index, response.as_slice()) {
                        Ok(s) => Ok(Descriptor::String(s)),
                        Err(e) => Err(e),
                    };
                }
            },
            GetDescriptorType::BinaryObjectStore(_, _) => {
                if rsp_desc_type == BINARY_OBJECT_STORE_DESCRIPTOR {
                    return match BinaryObjectStore::parse(response.as_slice()) {
                        Ok(b) => Ok(Descriptor::BinaryObjectStore(b)),
                        Err(e) => Err(e),
                    };
                }
            },
            _ => {},
        }
        if 4 <= rsp_desc_type && rsp_desc_type <= 8 {
            Err(DescriptorError::UnsupportedType(rsp_desc_type))
        } else {
            Ok(Descriptor::Reserved(response))
        }
    }
}

} // verus!
