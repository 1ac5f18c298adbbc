use usb_rs::descriptor::{
    ConfigurationDescriptor, DescriptorError, EndpointDescriptor, HIDClassDescriptor,
    HIDDescriptor, InterfaceDescriptor,
};
use usb_rs::fake_ep0::{DescriptorType, FakeEP0};

const HEADER: [u8; 9] = [0x09, 0x04, 0x00, 0x00, 0x02, 0x03, 0x01, 0x02, 0x00];
const HID: [u8; 9] = [0x09, 0x21, 0x11, 0x01, 0x00, 0x01, 0x22, 0x3F, 0x00];
const EP1: [u8; 7] = [0x07, 0x05, 0x81, 0x03, 0x08, 0x00, 0x0A];
const EP2: [u8; 7] = [0x07, 0x05, 0x02, 0x03, 0x40, 0x00, 0x01];

fn check_interface(bytes: &[u8]) {
    let mut ep0 = FakeEP0::default();
    let (rest, d) = InterfaceDescriptor::parse(&mut ep0, bytes).unwrap();
    assert!(rest.is_empty());
    assert_eq!(d.if_class, 3);
    assert_eq!(d.if_subclass, 1);
    assert_eq!(d.if_proto, 2);
    assert_eq!(d.name, "-----");
    assert_eq!(d.endpoints.len(), 2);
    assert_eq!(d.endpoints[0].address, 0x81);
    assert_eq!(d.endpoints[1].address, 0x02);
    assert_eq!(d.endpoints[1].mps, 0x40);
    let hid = d.hid_desc.unwrap();
    assert_eq!(hid.bcd_hid, 0x0111);
    assert!(d.discarded_hid <= 1);
    assert_eq!(hid.class_descriptors, vec![HIDClassDescriptor::Report { size: 0x3F }]);
}

#[test]
fn interface_with_hid_first() {
    let bytes = [&HEADER[..], &HID[..], &EP1[..], &EP2[..]].concat();
    check_interface(&bytes);
}

#[test]
fn interface_with_hid_between_endpoints() {
    let bytes = [&HEADER[..], &EP1[..], &HID[..], &EP2[..]].concat();
    check_interface(&bytes);
}

#[test]
fn interface_keeps_first_hid_descriptor() {
    let mut second = HID;
    second[2] = 0x00;
    second[3] = 0x02;
    let bytes = [&HEADER[..], &HID[..], &EP1[..], &second[..], &EP2[..]].concat();
    check_interface(&bytes);
    let mut ep0 = FakeEP0::default();
    let (_, d) = InterfaceDescriptor::parse(&mut ep0, &bytes).unwrap();
    assert_eq!(d.discarded_hid, 1);
}

#[test]
fn interface_stops_at_announced_endpoints() {
    let bytes = [&HEADER[..], &EP1[..], &EP2[..], &HID[..]].concat();
    let mut ep0 = FakeEP0::default();
    let (rest, d) = InterfaceDescriptor::parse(&mut ep0, &bytes).unwrap();
    assert_eq!(d.endpoints.len(), 2);
    assert!(d.hid_desc.is_none());
    assert_eq!(rest, &HID[..]);
}

#[test]
fn interface_truncated_is_parse_error() {
    let bytes = [&HEADER[..], &EP1[..]].concat();
    let mut ep0 = FakeEP0::default();
    assert_eq!(
        InterfaceDescriptor::parse(&mut ep0, &bytes).unwrap_err(),
        DescriptorError::GeneralParseError
    );
}

#[test]
fn endpoint_and_hid_parsing() {
    let (rest, e) = EndpointDescriptor::parse(&EP1).unwrap();
    assert!(rest.is_empty());
    assert_eq!(
        e,
        EndpointDescriptor { address: 0x81, attributes: 3, mps: 8, interval: 10 }
    );
    assert_eq!(
        EndpointDescriptor::parse(&EP1[..6]).unwrap_err(),
        DescriptorError::GeneralParseError
    );
    let two = [0x0C, 0x21, 0x10, 0x01, 0x21, 0x02, 0x22, 0x34, 0x12, 0x30, 0x05, 0x00];
    let (rest, h) = HIDDescriptor::parse(&two).unwrap();
    assert!(rest.is_empty());
    assert_eq!(h.country_code, 0x21);
    assert_eq!(
        h.class_descriptors,
        vec![
            HIDClassDescriptor::Report { size: 0x1234 },
            HIDClassDescriptor::Unknown { kind: 0x30, size: 5 }
        ]
    );
    assert!(HIDDescriptor::parse(&two[..11]).is_err());
    let (_, c) = HIDClassDescriptor::parse(&[0x23, 0x10, 0x00]).unwrap();
    assert_eq!(c, HIDClassDescriptor::Physical { size: 0x10 });
}

#[test]
fn configuration_fetch_and_parse() {
    let mut bytes = vec![0x09, 0x02, 0x00, 0x00, 0x01, 0x01, 0x05, 0xA0, 0x32];
    bytes.extend_from_slice(&HEADER);
    bytes.extend_from_slice(&HID);
    bytes.extend_from_slice(&EP1);
    bytes.extend_from_slice(&EP2);
    let total = bytes.len() as u16;
    bytes[2] = (total & 0xFF) as u8;
    bytes[3] = (total >> 8) as u8;
    let mut ep0 = FakeEP0::default();
    ep0.add_descriptor(DescriptorType::Configuration, 0, bytes);
    ep0.add_string(5, "Default".to_string());
    let c = ConfigurationDescriptor::new(&mut ep0, 0).unwrap();
    assert_eq!(c.id, 1);
    assert_eq!(c.name, "Default");
    assert_eq!(c.attributes, 0xA0);
    assert_eq!(c.max_power, 0x32);
    assert_eq!(c.interfaces.len(), 1);
    assert_eq!(c.interfaces[0].endpoints.len(), 2);
    assert!(c.interfaces[0].hid_desc.is_some());
    // the 4-byte probe, the full fetch, the configuration's name
    assert_eq!(ep0.request_fired(), 3);
}

#[test]
fn configuration_too_short_is_parse_error() {
    let mut ep0 = FakeEP0::default();
    assert_eq!(
        ConfigurationDescriptor::parse(&mut ep0, &[0x09, 0x02, 0x09, 0x00, 0x01]).unwrap_err(),
        DescriptorError::GeneralParseError
    );
}

#[test]
fn interface_name_fetch_failure_is_reported() {
    let mut header = HEADER;
    header[8] = 3;
    let bytes = [&header[..], &HID[..], &EP1[..], &EP2[..]].concat();
    let mut ep0 = FakeEP0::default();
    assert_eq!(
        InterfaceDescriptor::parse(&mut ep0, &bytes).unwrap_err(),
        DescriptorError::TransactionError(usb_rs::hc::TransactionError::Error)
    );
    assert_eq!(ep0.request_fired(), 1);
}

#[test]
fn malformed_configuration_fetches_no_names() {
    // names announced, but the second interface is cut short
    let mut bytes = vec![0x09, 0x02, 0x00, 0x00, 0x02, 0x01, 0x05, 0xA0, 0x32];
    let mut header = HEADER;
    header[8] = 4;
    bytes.extend_from_slice(&header);
    bytes.extend_from_slice(&HID);
    bytes.extend_from_slice(&EP1);
    bytes.extend_from_slice(&EP2);
    bytes.extend_from_slice(&header);
    let mut ep0 = FakeEP0::default();
    ep0.add_string(4, "Interface".to_string());
    ep0.add_string(5, "Default".to_string());
    assert_eq!(
        ConfigurationDescriptor::parse(&mut ep0, &bytes).unwrap_err(),
        DescriptorError::GeneralParseError
    );
    assert_eq!(ep0.request_fired(), 0);
}

#[test]
fn configuration_names_interfaces_then_own() {
    let mut bytes = vec![0x09, 0x02, 0x00, 0x00, 0x01, 0x01, 0x05, 0xA0, 0x32];
    let mut header = HEADER;
    header[8] = 4;
    bytes.extend_from_slice(&header);
    bytes.extend_from_slice(&EP1);
    bytes.extend_from_slice(&EP2);
    let mut ep0 = FakeEP0::default();
    ep0.add_string(4, "Interface".to_string());
    ep0.add_string(5, "Default".to_string());
    let (rest, c) = ConfigurationDescriptor::parse(&mut ep0, &bytes).unwrap();
    assert!(rest.is_empty());
    assert_eq!(c.interfaces[0].name, "Interface");
    assert_eq!(c.name, "Default");
    assert_eq!(ep0.request_fired(), 2);
}
