use usb_rs::std_request::{Direction, Recipient, RequestByte, RequestKind, RequestType, StdRequest};

#[test]
fn get_descriptor_setup_packet() {
    let req = StdRequest {
        request_type: RequestType {
            direction: Direction::DeviceToHost,
            req_type: RequestKind::Standard,
            recipient: Recipient::Device,
        },
        request: RequestByte::GetDescriptor,
        value: 0x0100,
        index: 0,
        length: 0x12,
    };
    assert_eq!(req.encode(), [0x80, 0x06, 0x00, 0x01, 0x00, 0x00, 0x12, 0x00]);
}

#[test]
fn vendor_interface_setup_packet() {
    let req = StdRequest {
        request_type: RequestType {
            direction: Direction::HostToDevice,
            req_type: RequestKind::Vendor,
            recipient: Recipient::Interface,
        },
        request: RequestByte::CP210xSetBaudRate,
        value: 0xABCD,
        index: 0x1234,
        length: 0x0104,
    };
    assert_eq!(req.encode(), [0x41, 0x1E, 0xCD, 0xAB, 0x34, 0x12, 0x04, 0x01]);
}

#[test]
fn request_type_bits() {
    let t = RequestType {
        direction: Direction::DeviceToHost,
        req_type: RequestKind::Reserved,
        recipient: Recipient::Other,
    };
    assert_eq!(t.to_byte(), 0xE3);
    let t = RequestType {
        direction: Direction::HostToDevice,
        req_type: RequestKind::Class,
        recipient: Recipient::Endpoint,
    };
    assert_eq!(t.to_byte(), 0x22);
}

#[test]
fn request_codes() {
    assert_eq!(RequestByte::GetStatus.code(), 0);
    assert_eq!(RequestByte::SetAddress.code(), 5);
    assert_eq!(RequestByte::SetConfiguration.code(), 9);
    assert_eq!(RequestByte::SynchFrame.code(), 12);
    assert_eq!(RequestByte::HidSetReport.code(), 9);
    assert_eq!(RequestByte::CP210xSetChars.code(), 0x19);
    assert_eq!(RequestByte::CP210xPurge.code(), 0x12);
}
