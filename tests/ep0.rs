use usb_rs::descriptor::{fetch_fixed, ConfigurationDescriptor, DescriptorError, EndpointDescriptor};
use usb_rs::ep0::{decode_utf16le_lossy, string_from_descriptor, UsbString, EP0, PhysicalEP0, USBEP0};
use usb_rs::fake_ep0::{DescriptorType, FakeEP0};
use usb_rs::fake_hc::FakeHC;
use usb_rs::hc::{EPType, TransactionDestination, TransactionError, HC};
use usb_rs::std_request::{Direction, Recipient, RequestByte, RequestKind};

fn usb_ep0() -> USBEP0<FakeHC> {
    USBEP0::new(Box::new(FakeHC::new(
        TransactionDestination { dev: 0, ep: 0 },
        EPType::Control,
        8,
    )))
}

#[test]
fn string_index_zero_fetches_nothing() {
    let mut ep0 = FakeEP0::default();
    let s = UsbString::new(0).read(&mut ep0).unwrap();
    assert_eq!(s, "-----");
    assert_eq!(ep0.request_fired(), 0);
}

#[test]
fn string_index_nonzero_is_fetched() {
    let mut ep0 = FakeEP0::default();
    ep0.add_string(4, "Keyboard".to_string());
    assert_eq!(UsbString::new(4).read(&mut ep0).unwrap(), "Keyboard");
    assert_eq!(ep0.request_fired(), 1);
    assert_eq!(
        UsbString::new(5).read(&mut ep0),
        Err(TransactionError::Error)
    );
}

#[test]
fn utf16le_decoding() {
    assert_eq!(decode_utf16le_lossy(&[0x41, 0x00, 0x42, 0x00]), "AB");
    assert_eq!(decode_utf16le_lossy(&[0xAC, 0x20]), "\u{20AC}");
    assert_eq!(decode_utf16le_lossy(&[0x41, 0x00, 0x42]), "A\u{FFFD}");
    assert_eq!(decode_utf16le_lossy(&[0x00, 0xD8, 0x41, 0x00]), "\u{FFFD}A");
    assert_eq!(decode_utf16le_lossy(&[]), "");
}

#[test]
fn string_descriptor_text() {
    assert_eq!(
        string_from_descriptor(&[0x08, 0x03, 0x55, 0x00, 0x53, 0x00, 0x42, 0x00]),
        "USB"
    );
    assert_eq!(string_from_descriptor(&[0x02, 0x03]), "");
    assert_eq!(string_from_descriptor(&[0x01]), "");
}

#[test]
fn usb_ep0_get_descriptor_reads_packets() {
    let mut ep0 = usb_ep0();
    let mut buf = [0u8; 18];
    ep0.get_descriptor(1, 0, &mut buf).unwrap();
    assert_eq!(
        buf,
        [0, 1, 2, 3, 4, 5, 6, 7, 0, 1, 2, 3, 4, 5, 6, 7, 0, 1]
    );
    assert_eq!(ep0.get_ep().hc().request_fired, 5);
}

#[test]
fn usb_ep0_get_string_rejects_short_descriptor() {
    // the simulated device answers 0, 1, ...: bLength 0, shorter than the header
    let mut ep0 = usb_ep0();
    assert_eq!(ep0.get_string(1), Err(TransactionError::Error));
    // the 2-byte probe only: setup, one data packet, status
    assert_eq!(ep0.get_ep().hc().request_fired, 3);
}

#[test]
fn usb_ep0_set_address_moves_endpoint() {
    let mut ep0 = usb_ep0();
    ep0.set_max_packet_size(64);
    ep0.set_address(7).unwrap();
    assert_eq!(ep0.dev(), 7);
    assert_eq!(ep0.get_ep().dest(), TransactionDestination { dev: 7, ep: 0 });
    assert_eq!(ep0.get_ep().max_packet_size(), 64);
}

#[test]
fn usb_ep0_transaction_with_data_out() {
    let mut ep0 = usb_ep0();
    let mut data = [0x80, 0x25, 0x00, 0x00];
    ep0.transaction(
        Direction::HostToDevice,
        RequestKind::Vendor,
        Recipient::Interface,
        RequestByte::CP210xSetBaudRate,
        0,
        0,
        &mut data,
    )
    .unwrap();
    assert_eq!(data, [0x80, 0x25, 0x00, 0x00]);
    assert_eq!(ep0.get_ep().hc().request_fired, 3);
}

#[test]
fn fetch_fixed_lengths() {
    let mut ep0 = FakeEP0::default();
    assert_eq!(
        fetch_fixed(&mut ep0, 2, ConfigurationDescriptor::get_length(), 0),
        Err(DescriptorError::InvalidLength)
    );
    assert_eq!(
        fetch_fixed(&mut ep0, 5, Some(70000), 0),
        Err(DescriptorError::InvalidLength)
    );
    assert_eq!(
        fetch_fixed(&mut ep0, 5, Some(7), 0),
        Err(DescriptorError::TransactionError(TransactionError::Error))
    );
    let mut ep0 = FakeEP0::default();
    ep0.add_descriptor(DescriptorType::Endpoint, 0, vec![7, 5, 0x81, 3, 8, 0, 10]);
    assert_eq!(fetch_fixed(&mut ep0, 5, Some(7), 0).unwrap(), vec![7, 5, 0x81, 3, 8, 0, 10]);
    let e = EndpointDescriptor::new(&mut ep0, 0).unwrap();
    assert_eq!(e.address, 0x81);
    assert_eq!(e.attributes, 3);
    assert_eq!(e.mps, 8);
    assert_eq!(e.interval, 10);
}

#[test]
fn usb_ep0_single_attempt_reads_data() {
    let mut ep0 = usb_ep0();
    let mut buf = [0u8; 3];
    ep0.transaction_(
        Direction::DeviceToHost,
        RequestKind::Standard,
        Recipient::Device,
        RequestByte::GetStatus,
        0,
        0,
        &mut buf,
    )
    .unwrap();
    assert_eq!(buf, [0, 1, 2]);
    assert_eq!(ep0.get_ep().data_toggle(), 0);
}

#[test]
fn descriptor_type_codes() {
    assert_eq!(DescriptorType::Device.code(), 1);
    assert_eq!(DescriptorType::Endpoint.code(), 5);
    assert_eq!(DescriptorType::from_code(3), Some(DescriptorType::String));
    assert_eq!(DescriptorType::from_code(9), None);
}
