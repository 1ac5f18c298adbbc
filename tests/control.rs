use usb_rs::control::{ControlEndpoint, ControlRequest, RETRY_LIMIT};
use usb_rs::endpoint::ControlEP;
use usb_rs::fake_hc::FakeHC;
use usb_rs::hc::{EPType, TransactionDestination, TransactionError, URBStatus, HC};
use usb_rs::std_request::{Recipient, RequestByte, RequestKind};

fn control(status: URBStatus) -> ControlEndpoint<FakeHC> {
    let mut hc = FakeHC::new(TransactionDestination { dev: 1, ep: 0 }, EPType::Control, 8);
    hc.status = status;
    ControlEndpoint::new(ControlEP::new(Box::new(hc)))
}

fn get_descriptor() -> ControlRequest {
    ControlRequest {
        req_type: RequestKind::Standard,
        recipient: Recipient::Device,
        request: RequestByte::GetDescriptor,
        value: 0x0100,
        index: 0,
    }
}

#[test]
fn control_read_runs_three_stages() {
    let mut ep0 = control(URBStatus::Done);
    let data = ep0.control_read(18, get_descriptor()).unwrap();
    assert_eq!(
        data,
        vec![0, 1, 2, 3, 4, 5, 6, 7, 0, 1, 2, 3, 4, 5, 6, 7, 0, 1]
    );
    // setup, three data packets, one status packet
    assert_eq!(ep0.endpoint().hc().request_fired, 5);
}

#[test]
fn control_write_without_data() {
    let mut ep0 = control(URBStatus::Done);
    let req = ControlRequest {
        req_type: RequestKind::Standard,
        recipient: Recipient::Device,
        request: RequestByte::SetConfiguration,
        value: 1,
        index: 0,
    };
    ep0.control_write(req, &[]).unwrap();
    // setup and status only
    assert_eq!(ep0.endpoint().hc().request_fired, 2);
    ep0.control_write(req, &[1, 2, 3, 4, 5, 6, 7, 8, 9]).unwrap();
    assert_eq!(ep0.endpoint().hc().request_fired, 2 + 4);
}

#[test]
fn not_ready_is_retried_up_to_the_limit() {
    let mut ep0 = control(URBStatus::NotReady);
    assert_eq!(
        ep0.control_read(8, get_descriptor()),
        Err(TransactionError::Timeout)
    );
    // each attempt stops at its SETUP packet
    assert_eq!(ep0.endpoint().hc().request_fired, RETRY_LIMIT);
    assert_eq!(RETRY_LIMIT, 50);
    // 50 ms between attempts
    assert_eq!(ep0.endpoint().hc().slept_ms, 50 * 50);
}

#[test]
fn generic_error_is_retried() {
    let mut ep0 = control(URBStatus::Stall);
    assert_eq!(
        ep0.control_read(8, get_descriptor()),
        Err(TransactionError::Timeout)
    );
    assert_eq!(ep0.endpoint().hc().request_fired, 50);
}

#[test]
fn timeout_is_not_retried() {
    let mut ep0 = control(URBStatus::Idle);
    assert_eq!(
        ep0.control_read(8, get_descriptor()),
        Err(TransactionError::Timeout)
    );
    assert_eq!(ep0.endpoint().hc().request_fired, 1);
}

#[test]
fn single_attempt_is_not_retried() {
    let mut ep0 = control(URBStatus::NotReady);
    let mut buf = [0u8; 4];
    assert_eq!(
        ep0.control_transfer_(&mut buf, usb_rs::std_request::Direction::DeviceToHost, &get_descriptor()),
        Err(TransactionError::NotReady)
    );
    assert_eq!(ep0.endpoint().hc().request_fired, 1);
    assert_eq!(ep0.endpoint().hc().slept_ms, 0);
}
