use usb_rs::descriptor::{DescriptorError, DeviceDescriptor};
use usb_rs::fake_ep0::{DescriptorType, FakeEP0};

#[test]
fn test_device_descriptor() {
    let buf = [
        0x12, 0x01, 0x10, 0x01, 0x00, 0x01, 0x02, 0x08, //
        0x22, 0x11, 0x44, 0x33, 0x66, 0x55, 0x01, 0x02, //
        0x03, 0x01,
    ];

    let mut ep0 = FakeEP0::default();

    ep0.add_descriptor(DescriptorType::Device, 0, buf.to_vec());

    ep0.add_string(1, "Manufacturer".to_string());
    ep0.add_string(2, "Product".to_string());
    ep0.add_string(3, "Serial".to_string());

    let desc = DeviceDescriptor::new(&mut ep0, 0).unwrap();

    assert_eq!(desc.bcd_usb, 0x0110);
    assert_eq!(desc.usb_class, 0x00);
    assert_eq!(desc.usb_subclass, 0x01);
    assert_eq!(desc.usb_proto, 0x02);
    assert_eq!(desc.mps, 0x08);
    assert_eq!(desc.vid, 0x1122);
    assert_eq!(desc.pid, 0x3344);
    assert_eq!(desc.bcd, 0x5566);
    assert_eq!(desc.manufacturer, "Manufacturer");
    assert_eq!(desc.product, "Product");
    assert_eq!(desc.serial, "Serial");
    assert_eq!(desc.num_configurations, 0x01);
}

#[test]
fn device_descriptor_fetches_probe_full_and_strings() {
    let buf = [
        0x12, 0x01, 0x00, 0x02, 0xFF, 0x00, 0x00, 0x40, 0x34, 0x12, 0x78, 0x56, 0x00, 0x01,
        0x00, 0x00, 0x00, 0x02,
    ];
    let mut ep0 = FakeEP0::default();
    ep0.add_descriptor(DescriptorType::Device, 0, buf.to_vec());
    let desc = DeviceDescriptor::new(&mut ep0, 0).unwrap();
    assert_eq!(desc.bcd_usb, 0x0200);
    assert_eq!(desc.usb_class, 0xFF);
    assert_eq!(desc.mps, 0x40);
    assert_eq!(desc.vid, 0x1234);
    assert_eq!(desc.pid, 0x5678);
    assert_eq!(desc.bcd, 0x0100);
    assert_eq!(desc.manufacturer, "-----");
    assert_eq!(desc.product, "-----");
    assert_eq!(desc.serial, "-----");
    assert_eq!(desc.num_configurations, 2);
    // the 8-byte probe and the full fetch; index 0 strings fetch nothing
    assert_eq!(ep0.request_fired(), 2);
}

#[test]
fn device_descriptor_with_wrong_type_is_a_parse_error() {
    let mut buf = vec![0u8; 18];
    buf[0] = 0x12;
    buf[1] = 0x02;
    buf[7] = 8;
    let mut ep0 = FakeEP0::default();
    ep0.add_descriptor(DescriptorType::Device, 0, buf);
    assert_eq!(
        DeviceDescriptor::new(&mut ep0, 0).unwrap_err(),
        DescriptorError::GeneralParseError
    );
}

#[test]
fn device_descriptor_with_zero_packet_size_is_a_parse_error() {
    let mut buf = vec![0u8; 18];
    buf[0] = 0x12;
    buf[1] = 0x01;
    let mut ep0 = FakeEP0::default();
    ep0.add_descriptor(DescriptorType::Device, 0, buf);
    assert_eq!(
        DeviceDescriptor::new(&mut ep0, 0).unwrap_err(),
        DescriptorError::GeneralParseError
    );
}

#[test]
fn device_descriptor_missing_is_a_transport_error() {
    let mut ep0 = FakeEP0::default();
    assert_eq!(
        DeviceDescriptor::new(&mut ep0, 0).unwrap_err(),
        DescriptorError::TransactionError(usb_rs::hc::TransactionError::Error)
    );
}

#[test]
fn device_descriptor_missing_string_is_a_transport_error() {
    let buf = [
        0x12, 0x01, 0x10, 0x01, 0x00, 0x01, 0x02, 0x08, 0x22, 0x11, 0x44, 0x33, 0x66, 0x55, 0x01,
        0x00, 0x00, 0x01,
    ];
    let mut ep0 = FakeEP0::default();
    ep0.add_descriptor(DescriptorType::Device, 0, buf.to_vec());
    assert_eq!(
        DeviceDescriptor::new(&mut ep0, 0).unwrap_err(),
        DescriptorError::TransactionError(usb_rs::hc::TransactionError::Error)
    );
}
