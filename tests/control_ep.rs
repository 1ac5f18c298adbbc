use usb_rs::endpoint::ControlEP;
use usb_rs::fake_hc::FakeHC;
use usb_rs::hc::{EPType, TransactionDestination, TransactionError, URBStatus, HC};
use usb_rs::std_request::{Direction, Recipient, RequestByte, RequestKind, RequestType, StdRequest};

fn endpoint(status: URBStatus) -> ControlEP<FakeHC> {
    let mut hc = FakeHC::new(TransactionDestination { dev: 0, ep: 0 }, EPType::Control, 8);
    hc.status = status;
    ControlEP::new(Box::new(hc))
}

#[test]
fn splitted_recv_bound_8() {
    let hc = Box::new(FakeHC::new(
        TransactionDestination { dev: 0, ep: 0 },
        EPType::Control,
        8,
    ));

    let mut ep = ControlEP::new(hc);

    let mut buf = [0; 8];

    ep.recv_packets(&mut buf).unwrap();

    assert_eq!(buf, [0, 1, 2, 3, 4, 5, 6, 7]);

    assert_eq!(ep.hc().request_fired, 1);
}

#[test]
fn recv_splits_into_packets_of_mps() {
    let mut ep = endpoint(URBStatus::Done);
    let mut buf = [0xAAu8; 19];
    ep.recv_packets(&mut buf).unwrap();
    assert_eq!(
        buf,
        [0, 1, 2, 3, 4, 5, 6, 7, 0, 1, 2, 3, 4, 5, 6, 7, 0, 1, 2]
    );
    assert_eq!(ep.hc().request_fired, 3);
}

#[test]
fn send_packet_counts() {
    // 17 bytes at mps 8: ceil(17 / 8) = 3
    let mut ep = endpoint(URBStatus::Done);
    ep.send_packets(&[7u8; 17]).unwrap();
    assert_eq!(ep.hc().request_fired, 3);
    // 16 bytes at mps 8: 16 / 8 = 2, no trailing empty packet
    let mut ep = endpoint(URBStatus::Done);
    ep.send_packets(&[7u8; 16]).unwrap();
    assert_eq!(ep.hc().request_fired, 2);
    // an empty buffer: one empty packet
    let mut ep = endpoint(URBStatus::Done);
    ep.send_packets(&[]).unwrap();
    assert_eq!(ep.hc().request_fired, 1);
    // mps 64: 65 bytes in 2 packets
    let mut ep = endpoint(URBStatus::Done);
    ep.set_max_packet_size(64);
    ep.send_packets(&[1u8; 65]).unwrap();
    assert_eq!(ep.hc().request_fired, 2);
    assert_eq!(ep.hc().mps, 64);
}

#[test]
fn toggle_alternates_over_successful_packets() {
    let mut ep = endpoint(URBStatus::Done);
    assert_eq!(ep.data_toggle(), 0);
    ep.send_packets(&[0u8; 24]).unwrap();
    // toggles 0, 1, 0 were used; 1 is next
    assert_eq!(ep.data_toggle(), 1);
    ep.set_data_toggle(1);
    ep.recv_packets(&mut [0u8; 8]).unwrap();
    assert_eq!(ep.data_toggle(), 0);
}

#[test]
fn failed_packet_keeps_toggle() {
    let mut ep = endpoint(URBStatus::NotReady);
    ep.set_data_toggle(1);
    assert_eq!(ep.send_packets(&[0u8; 24]), Err(TransactionError::NotReady));
    assert_eq!(ep.data_toggle(), 1);
    // only the first packet was submitted
    assert_eq!(ep.hc().request_fired, 1);
}

#[test]
fn stall_and_nyet_are_errors_idle_times_out() {
    let mut ep = endpoint(URBStatus::Stall);
    assert_eq!(ep.send_packets(&[1u8]), Err(TransactionError::Error));
    let mut ep = endpoint(URBStatus::NYet);
    assert_eq!(ep.recv_packets(&mut [0u8; 1]), Err(TransactionError::Error));
    let mut ep = endpoint(URBStatus::Idle);
    assert_eq!(ep.send_packets(&[1u8]), Err(TransactionError::Timeout));
    // 52 idle reads, each followed by a 1 ms wait
    assert_eq!(ep.hc().slept_ms, 52);
}

#[test]
fn failed_receive_keeps_buffer_after_received_data() {
    let mut ep = endpoint(URBStatus::Error);
    let mut buf = [9u8; 4];
    assert_eq!(ep.recv_packets(&mut buf), Err(TransactionError::Error));
    assert_eq!(buf, [9, 9, 9, 9]);
}

#[test]
fn setup_sets_toggle_one() {
    let mut ep = endpoint(URBStatus::Done);
    let req = StdRequest {
        request_type: RequestType {
            direction: Direction::DeviceToHost,
            req_type: RequestKind::Standard,
            recipient: Recipient::Device,
        },
        request: RequestByte::GetDescriptor,
        value: 0x0100,
        index: 0,
        length: 0x12,
    };
    ep.send_setup(req).unwrap();
    assert_eq!(ep.data_toggle(), 1);
    assert_eq!(ep.hc().request_fired, 1);
}

#[test]
fn set_address_rebinds_channel() {
    let mut ep = endpoint(URBStatus::Done);
    ep.send_packets(&[1u8]).unwrap();
    assert_eq!(ep.hc().request_fired, 1);
    ep.set_max_packet_size(16);
    ep.set_address(5).unwrap();
    assert_eq!(ep.dest(), TransactionDestination { dev: 5, ep: 0 });
    assert_eq!(ep.hc().dest, TransactionDestination { dev: 5, ep: 0 });
    assert_eq!(ep.hc().mps, 16);
    assert_eq!(ep.hc().request_fired, 0);
    assert_eq!(ep.max_packet_size(), 16);
}
