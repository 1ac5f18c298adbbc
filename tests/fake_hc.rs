use usb_rs::fake_hc::FakeHC;
use usb_rs::hc::{
    wait_done, EPType, Transaction, TransactionDestination, TransactionError, TransactionToken,
    URBStatus, HC,
};

#[test]
fn test_fake_hc() {
    let dest = TransactionDestination { dev: 0, ep: 0 };
    let mut hc = FakeHC::new(dest, EPType::Control, 8);

    let mut transaction = Transaction {
        token: TransactionToken::Setup,
        toggle: 0,
        buffer: vec![0; 8],
        length: 8,
    };

    hc.submit_urb(&mut transaction).unwrap();

    assert_eq!(hc.request_fired, 1);
}

#[test]
fn wait_done_maps_statuses() {
    let dest = TransactionDestination { dev: 1, ep: 2 };
    let mut hc = FakeHC::new(dest, EPType::Bulk, 64);
    assert_eq!(wait_done(&mut hc).0, Ok(()));
    hc.status = URBStatus::NotReady;
    assert_eq!(wait_done(&mut hc).0, Err(TransactionError::NotReady));
    hc.status = URBStatus::Error;
    assert_eq!(wait_done(&mut hc).0, Err(TransactionError::Error));
    hc.status = URBStatus::Unknown;
    assert_eq!(wait_done(&mut hc).0, Err(TransactionError::Error));
    assert_eq!(hc.slept_ms, 0);
    hc.status = URBStatus::Idle;
    assert_eq!(wait_done(&mut hc).0, Err(TransactionError::Timeout));
    assert_eq!(hc.slept_ms, 52);
}

#[test]
fn status_completion() {
    assert_eq!(URBStatus::Idle.completion(), None);
    assert_eq!(URBStatus::Done.completion(), Some(Ok(())));
    assert_eq!(URBStatus::Stall.completion(), Some(Err(TransactionError::Error)));
}

#[test]
fn fake_in_transaction_fills_counting_bytes() {
    let mut hc = FakeHC::new(TransactionDestination { dev: 0, ep: 0x81 }, EPType::Interrupt, 8);
    let mut t = Transaction {
        token: TransactionToken::In,
        toggle: 1,
        buffer: vec![0xFF; 5],
        length: 3,
    };
    hc.submit_urb(&mut t).unwrap();
    assert_eq!(t.buffer, vec![0, 1, 2, 0xFF, 0xFF]);
    assert_eq!(hc.get_ep_type(), EPType::Interrupt);
}

#[test]
fn destination_direction_bits() {
    let d = TransactionDestination { dev: 3, ep: 0x02 };
    assert_eq!(d.to_in_ep(), TransactionDestination { dev: 3, ep: 0x82 });
    assert_eq!(d.to_in_ep().to_out_ep(), d);
}

#[test]
fn token_direction_and_colour() {
    assert!(TransactionToken::Setup.is_outgoing_token());
    assert!(TransactionToken::Out.is_outgoing_token());
    assert!(!TransactionToken::In.is_outgoing_token());
    assert_eq!(TransactionToken::Setup.get_color(), "\x1b[1;31m");
    assert_eq!(TransactionToken::In.get_color(), "\x1b[1;33m");
    assert_eq!(TransactionToken::Out.get_color(), "\x1b[1;34m");
    assert_eq!(EPType::Control.code(), 0);
    assert_eq!(EPType::Interrupt.code(), 3);
}
