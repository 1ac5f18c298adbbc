//! The 8-byte SETUP packet of a control transfer.

use vstd::prelude::*;

verus! {

/// Direction of the data stage of a control transfer.
#[derive(Debug, Clone, Copy, PartialEq, Eq, Structural)]
pub enum Direction {
    HostToDevice,
    DeviceToHost,
}

/// Type field of bmRequestType.
#[derive(Debug, Clone, Copy, PartialEq, Eq, Structural)]
pub enum RequestKind {
    Standard,
    Class,
    Vendor,
    Reserved,
}

/// Recipient field of bmRequestType.
#[derive(Debug, Clone, Copy, PartialEq, Eq, Structural)]
pub enum Recipient {
    Device,
    Interface,
    Endpoint,
    Other,
}

/// bRequest: the standard requests, the HID class requests and the CP210x vendor requests.
#[derive(Debug, Clone, Copy, PartialEq, Eq, Structural)]
pub enum RequestByte {
    GetStatus,
    ClearFeature,
    SetFeature,
    SetAddress,
    GetDescriptor,
    SetDescriptor,
    GetConfiguration,
    SetConfiguration,
    GetInterface,
    SetInterface,
    SynchFrame,
    HidGetReport,
    HidSetReport,
    CP210xIfcEnable,
    CP210xSetBaudDiv,
    CP210xSetBaudRate,
    CP210xSetLineCtrl,
    CP210xSetChars,
    CP210xGetFlow,
    CP210xSetFlow,
    CP210xSetMHS,
    CP210xGetCommStatus,
    CP210xPurge,
}

/// bmRequestType, as its three fields.
#[derive(Debug, Clone, Copy, PartialEq, Eq, Structural)]
pub struct RequestType {
    pub direction: Direction,
    pub req_type: RequestKind,
    pub recipient: Recipient,
}

/// A SETUP request.
#[derive(Debug, Clone, Copy, PartialEq, Eq, Structural)]
pub struct StdRequest {
    pub request_type: RequestType,
    pub request: RequestByte,
    pub value: u16,
    pub index: u16,
    pub length: u16,
}

/// Bit 7 of bmRequestType.
pub open spec fn direction_bit(d: Direction) -> int {
    match d {
        Direction::HostToDevice => 0,
        Direction::DeviceToHost => 1,
    }
}

/// Bits 6..5 of bmRequestType.
pub open spec fn kind_bits(k: RequestKind) -> int {
    match k {
        RequestKind::Standard => 0,
        RequestKind::Class => 1,
        RequestKind::Vendor => 2,
        RequestKind::Reserved => 3,
    }
}

/// Bits 1..0 of bmRequestType.
pub open spec fn recipient_bits(r: Recipient) -> int {
    match r {
        Recipient::Device => 0,
        Recipient::Interface => 1,
        Recipient::Endpoint => 2,
        Recipient::Other => 3,
    }
}

/// The wire code of each bRequest.
pub open spec fn request_code(b: RequestByte) -> u8 {
    match b {
        RequestByte::GetStatus => 0,
        RequestByte::ClearFeature => 1,
        RequestByte::SetFeature => 3,
        RequestByte::SetAddress => 5,
        RequestByte::GetDescriptor => 6,
        RequestByte::SetDescriptor => 7,
        RequestByte::GetConfiguration => 8,
        RequestByte::SetConfiguration => 9,
        RequestByte::GetInterface => 10,
        RequestByte::SetInterface => 11,
        RequestByte::SynchFrame => 12,
        RequestByte::HidGetReport => 0x01,
        RequestByte::HidSetReport => 0x09,
        RequestByte::CP210xIfcEnable => 0x00,
        RequestByte::CP210xSetBaudDiv => 0x01,
        RequestByte::CP210xSetBaudRate => 0x1E,
        RequestByte::CP210xSetLineCtrl => 0x03,
        RequestByte::CP210xSetChars => 0x19,
        RequestByte::CP210xGetFlow => 0x14,
        RequestByte::CP210xSetFlow => 0x13,
        RequestByte::CP210xSetMHS => 0x07,
        RequestByte::CP210xGetCommStatus => 0x10,
        RequestByte::CP210xPurge => 0x12,
    }
}

/// bmRequestType as a byte.
pub open spec fn request_type_byte(t: RequestType) -> u8 {
    (128 * direction_bit(t.direction) + 32 * kind_bits(t.req_type) + recipient_bits(
        t.recipient,
    )) as u8
}

/// Low byte of a 16-bit field, as sent first on the wire.
pub open spec fn low_byte(v: u16) -> u8 {
    (v % 256) as u8
}

/// High byte of a 16-bit field, as sent second on the wire.
pub open spec fn high_byte(v: u16) -> u8 {
    (v / 256) as u8
}

/// The 8 bytes of a SETUP packet.
pub open spec fn setup_bytes(r: StdRequest) -> Seq<u8> {
    seq![
        request_type_byte(r.request_type),
        request_code(r.request),
        low_byte(r.value),
        high_byte(r.value),
        low_byte(r.index),
        high_byte(r.index),
        low_byte(r.length),
        high_byte(r.length),
    ]
}

impl RequestByte {
    /// The bRequest code.
    pub fn code(self) -> (r: u8)
        ensures
            r == request_code(self),
    {
        match self {
            RequestByte::GetStatus => 0,
            RequestByte::ClearFeature => 1,
            RequestByte::SetFeature => 3,
            RequestByte::SetAddress => 5,
            RequestByte::GetDescriptor => 6,
            RequestByte::SetDescriptor => 7,
            RequestByte::GetConfiguration => 8,
            RequestByte::SetConfiguration => 9,
            RequestByte::GetInterface => 10,
            RequestByte::SetInterface => 11,
            RequestByte::SynchFrame => 12,
            RequestByte::HidGetReport => 0x01,
            RequestByte::HidSetReport => 0x09,
            RequestByte::CP210xIfcEnable => 0x00,
            RequestByte::CP210xSetBaudDiv => 0x01,
            RequestByte::CP210xSetBaudRate => 0x1E,
            RequestByte::CP210xSetLineCtrl => 0x03,
            RequestByte::CP210xSetChars => 0x19,
            RequestByte::CP210xGetFlow => 0x14,
            RequestByte::CP210xSetFlow => 0x13,
            RequestByte::CP210xSetMHS => 0x07,
            RequestByte::CP210xGetCommStatus => 0x10,
            RequestByte::CP210xPurge => 0x12,
        }
    }
}

impl RequestType {
    /// bmRequestType: direction in bit 7, type in bits 6..5, recipient in bits 1..0.
    pub fn to_byte(self) -> (r: u8)
        ensures
            r == request_type_byte(self),
    {
        let direction: u8 = match self.direction {
            Direction::HostToDevice => 0b0000_0000,
            Direction::DeviceToHost => 0b1000_0000,
        };
        let req_type: u8 = match self.req_type {
            RequestKind::Standard => 0b0000_0000,
            RequestKind::Class => 0b0010_0000,
            RequestKind::Vendor => 0b0100_0000,
            RequestKind::Reserved => 0b0110_0000,
        };
        let recipient: u8 = match self.recipient {
            Recipient::Device => 0b0000_0000,
            Recipient::Interface => 0b0000_0001,
            Recipient::Endpoint => 0b0000_0010,
            Recipient::Other => 0b0000_0011,
        };
        direction + req_type + recipient
    }
}

impl StdRequest {
    /// Encodes the request as the SETUP packet: bmRequestType, bRequest, then wValue, wIndex
    /// and wLength, each little-endian.
    pub fn encode(&self) -> (r: [u8; 8])
        ensures
            r@ == setup_bytes(*self),
    {
        let r = [
            self.request_type.to_byte(),
            self.request.code(),
            (self.value % 256) as u8,
            (self.value / 256) as u8,
            (self.index % 256) as u8,
            (self.index / 256) as u8,
            (self.length % 256) as u8,
            (self.length / 256) as u8,
        ];
        assert(r@ =~= setup_bytes(*self));
        r
    }
}

/// Reading a SETUP packet back by its documented layout gives every field of the request:
/// bit 7 of byte 0 is the direction, bits 6..5 the type, bits 4..2 are zero, bits 1..0 the
/// recipient; byte 1 is the request code; bytes 2..3, 4..5 and 6..7 hold wValue, wIndex and
/// wLength, low byte first.
pub proof fn lemma_setup_layout(r: StdRequest)
    ensures
        setup_bytes(r).len() == 8,
        setup_bytes(r)[0] / 128 == direction_bit(r.request_type.direction),
        (setup_bytes(r)[0] / 32) % 4 == kind_bits(r.request_type.req_type),
        (setup_bytes(r)[0] / 4) % 8 == 0,
        setup_bytes(r)[0] % 4 == recipient_bits(r.request_type.recipient),
        setup_bytes(r)[1] == request_code(r.request),
        setup_bytes(r)[2] + 256 * setup_bytes(r)[3] == r.value,
        setup_bytes(r)[4] + 256 * setup_bytes(r)[5] == r.index,
        setup_bytes(r)[6] + 256 * setup_bytes(r)[7] == r.length,
{
}

} // verus!
