//! The diagnostics that decoding stages put into their event streams.
//!
//! A stage that meets an error upstream hands it on unchanged, so one type
//! holds the diagnostics of all of them.
use vstd::prelude::*;

verus! {

/// Why a stage cannot be set up as asked.
#[derive(Debug, Clone, Copy, PartialEq, Eq, Structural)]
pub enum ConfigError {
    /// A channel number that a 64-bit sample has no bit for.
    InvalidChannel(u8),
    /// A baud rate of zero.
    InvalidBaud,
}

/// Why a capture could not be read as samples.
#[derive(Debug, Clone, Copy, PartialEq, Eq, Structural)]
pub enum SourceError {
    /// A file header that is shorter or longer than its format says.
    IncompleteHeader,
    /// A file that does not begin with the format's tag.
    InvalidPrefix,
    /// A file of version 0 whose type is not that of a digital channel.
    UnexpectedFileType(u32),
    /// A file of another version than 0.
    UnsupportedVersion(u32),
    /// Transition times that do not fill a whole number of 8-byte fields.
    Corrupted,
    /// No channel holds any transition.
    NoSample,
    /// A file name that is not `digital_<channel>.bin`.
    InvalidFilename,
    /// A channel number that a 64-bit sample has no bit for.
    InvalidChannel(u32),
    /// A time that is infinite, not a number, or beyond the range of a timestamp.
    InvalidTime,
    /// A transition that is earlier than the one that its group began with.
    OutOfOrder,
    /// A record of the single-file format that ends before its ninth byte.
    IncompleteRecord,
    /// A timestamp of a value change dump that lies before the one before it.
    NonMonotonic,
    /// A scalar value other than 0 and 1.
    UnsupportedValue,
    /// A variable that is no wire.
    UnsupportedVarType,
    /// A variable whose name does not give a channel after its first underscore.
    InvalidVariableName,
    /// A value change of a variable that was never declared.
    UnknownVariable,
    /// What the reader of the dump could not make sense of.
    Syntax,
}

/// Why the traffic on an SPI bus makes no flash command.
#[derive(Debug, Clone, Copy, PartialEq, Eq, Structural)]
pub enum FlashError {
    /// A first byte that is no command that is handled; with it, the byte that came back.
    UnsupportedCommand { mosi: u8, miso: u8 },
    /// A byte on the bus while the chip was not selected.
    Ignored { mosi: u8, miso: u8 },
}

/// Why the traffic of a WizFi310 module could not be followed.
#[derive(Debug, Clone, Copy, PartialEq, Eq, Structural)]
pub enum WizfiError {
    /// A response in brackets whose last field is no length.
    InvalidLength,
    /// A header in braces that is not a socket, an address, a port and a length.
    InvalidHeader,
}

/// Why the bus states seen on the USB lines make no valid byte stream.
#[derive(Debug, Clone, Copy, PartialEq, Eq, Structural)]
pub enum LineError {
    /// Both lines high, which no device may drive.
    UnexpectedBusState,
    /// After a bus reset something other than the idle state followed.
    UnexpectedAfterReset,
    /// While receiving, a state lasted too long or was no data state.
    Framing,
    /// The two-bit SE0 of an end of packet was not followed by the idle state.
    UnexpectedAfterEopStart,
    /// A suspended bus woke up with something other than an end of packet.
    UnexpectedAfterSuspend,
    /// An end of packet began while a byte was still incomplete.
    IncompleteByte,
}

/// Why a USB packet could not be parsed from the bytes between idle and end of packet.
#[derive(Debug, Clone, Copy, PartialEq, Eq, Structural)]
pub enum PacketError {
    /// The buffer holds no byte at all.
    Empty,
    /// The first byte is not the synchronisation pattern `0x80`.
    InvalidSync,
    /// The checksum of a token, a start of frame or a data packet is wrong.
    Crc,
    /// A split token, which this decoder does not handle.
    SplitUnsupported,
    /// The packet identifier and the length fit no known packet.
    Unknown,
}

/// A packet that the transaction state machine did not expect.
#[derive(Debug, Clone, Copy, PartialEq, Eq, Structural)]
pub enum ProtocolError {
    UnexpectedToken,
    UnexpectedData,
    UnexpectedHandshake,
}

/// Why the eight bytes of a setup packet make no request that this decoder handles.
#[derive(Debug, Clone, Copy, PartialEq, Eq, Structural)]
pub enum RequestError {
    /// The setup payload is not eight bytes long.
    InvalidSetupLength,
    /// A device request of the class or vendor type.
    UnsupportedRequestType,
    /// A request to an endpoint or to the recipient called "other".
    UnsupportedRecipient,
    /// A GetDescriptor request for a descriptor type, here as asked, that is not known.
    InvalidDescriptorType(u8),
}

/// Why a byte buffer is not the descriptor that it was asked to be.
#[derive(Debug, Clone, Copy, PartialEq, Eq, Structural)]
pub enum DescriptorError {
    /// The buffer ends before the descriptor, or the list of descriptors, does.
    Truncated,
    /// The type byte is not the one that was expected.
    InvalidType { expected: u8, got: u8 },
    /// The length byte is not the one that the descriptor type has.
    InvalidLength { expected: u8, got: u8 },
    /// The length byte is smaller than the part of the descriptor that is always there.
    TooShort { got: u8 },
    /// The total length that a configuration or an object store announces is not that of the buffer.
    TotalLengthMismatch,
    /// A device class code triple that is not handled.
    UnsupportedDeviceClass(u8, u8, u8),
    /// An interface class code that is not handled.
    UnsupportedInterfaceClass(u8),
    /// The interface class has no class-specific descriptors that are handled.
    ClassDescriptorUnsupported,
    /// The attributes of a USB 2.0 extension hold more than the link power management bit.
    InvalidExtensionAttributes,
    /// Bit 7 of a configuration's attributes is clear.
    ConfigurationBit7Clear,
    /// One of the bits 0 to 4 of a configuration's attributes is set.
    ConfigurationReservedSet,
    /// One of the bits 4 to 6 of an endpoint address is set.
    EndpointAddressReservedSet(u8),
    /// An endpoint that is not isochronous has one of the bits 2 to 7 of its attributes set.
    TransferReservedSet(u8),
    /// Where an interface or an interface association was expected, another descriptor stands.
    UnexpectedType(u8),
    /// An interface, endpoint, qualifier, other-speed or power descriptor as the answer to a request.
    UnsupportedType(u8),
}

/// Why a transaction on the control endpoint does not fit the transfer in progress.
#[derive(Debug, Clone, Copy, PartialEq, Eq, Structural)]
pub enum ControlError {
    /// The device answered with a stall handshake.
    Stalled,
    /// The transaction ended with a handshake that a control transfer does not use.
    UnexpectedHandshake,
    /// A setup transaction without a data packet.
    MissingRequest,
    /// The setup payload is no request that is handled.
    Request(RequestError),
    /// A setup transaction while a transfer was in progress.
    UnexpectedSetup,
    /// The data stage brought more bytes than the request asked for.
    PayloadTooLong,
    /// A transaction of the data stage without a data packet, with `remaining` bytes still expected.
    EmptyData { remaining: u16 },
    /// A transfer to the device whose status stage came before its data were complete.
    EarlyStatus,
    /// A transaction of the status stage without a data packet.
    MissingStatusData,
    /// A data packet of the status stage that is not empty.
    StatusPayload,
    /// A data packet of the status stage that is not a DATA1 packet.
    StatusPid,
    /// A transaction that fits no state of the transfer.
    OutOfSequence,
    /// The bytes that answered a GetDescriptor request are not that descriptor.
    Descriptor(DescriptorError),
}

/// Any diagnostic that can travel down a pipeline in place of a payload.
#[derive(Debug, Clone, Copy, PartialEq, Eq, Structural)]
pub enum DecodeError {
    Source(SourceError),
    Wizfi(WizfiError),
    Flash(FlashError),
    Line(LineError),
    Packet(PacketError),
    Protocol(ProtocolError),
    Control(ControlError),
    /// A transaction for an endpoint that no handler is registered for.
    InvalidEndpoint(usize),
}

} // verus!
