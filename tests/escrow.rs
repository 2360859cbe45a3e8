use poba::escrow::{DeliveryStatus, Error, Event, Pallet};

const R1: u128 = 0x11;
const O1: u128 = 0x22;
const D: u64 = 7;
const P: u64 = 8;

#[test]
fn escrow_happy_path() {
    let mut e = Pallet::new(100);
    assert_eq!(e.create_escrow(1, 10, R1, O1, D, P, 1000), Ok(()));
    let id = e.request_to_escrow(R1).unwrap();
    assert_eq!(e.escrow(id).unwrap().deadline, 110);
    assert_eq!(e.mark_picked_up(D, id), Ok(()));
    assert_eq!(e.mark_delivered(D, id), Ok(()));
    assert_eq!(e.confirm_received(P, id), Ok(()));
    assert_eq!(e.escrow(id).unwrap().status, DeliveryStatus::ConfirmedByReceiver);
    assert!(e
        .events()
        .contains(&Event::PaymentReleased { escrow_id: id, amount: 1000 }));
    assert_eq!(e.mark_picked_up(D, id), Err(Error::EscrowAlreadyFinal));
    assert_eq!(e.mark_delivered(D, id), Err(Error::EscrowAlreadyFinal));
}

#[test]
fn escrow_authorization_and_order() {
    let mut e = Pallet::new(100);
    e.create_escrow(1, 10, R1, O1, D, P, 1000).unwrap();
    let id = e.request_to_escrow(R1).unwrap();
    assert_eq!(e.mark_picked_up(P, id), Err(Error::NotDriver));
    assert_eq!(e.mark_delivered(D, id), Err(Error::InvalidStatusTransition));
    assert_eq!(e.confirm_received(P, id), Err(Error::InvalidStatusTransition));
    e.mark_picked_up(D, id).unwrap();
    e.mark_delivered(D, id).unwrap();
    assert_eq!(e.confirm_received(D, id), Err(Error::NotPayer));
    assert_eq!(e.mark_picked_up(D, 99), Err(Error::EscrowNotFound));
    assert_eq!(e.escrow(id).unwrap().status, DeliveryStatus::DeliveredByCourier);
}

#[test]
fn escrow_creation_rules() {
    let mut e = Pallet::new(5);
    assert_eq!(e.create_escrow(1, 0, R1, O1, D, P, 0), Err(Error::ZeroAmountNotAllowed));
    e.create_escrow(1, 0, R1, O1, D, P, 1).unwrap();
    assert_eq!(e.create_escrow(1, 0, R1, O1, D, P, 1), Err(Error::RequestAlreadyAssigned));
    e.create_escrow(1, u64::MAX - 1, 0x33, O1, D, P, 1).unwrap();
    let id = e.request_to_escrow(0x33).unwrap();
    assert_eq!(id, 1);
    assert_eq!(e.escrow(id).unwrap().deadline, u64::MAX);
    assert_eq!(e.next_escrow_id(), 2);
}

#[test]
fn timeout_release() {
    let mut e = Pallet::new(100);
    e.create_escrow(1, 10, R1, O1, D, P, 500).unwrap();
    let id = e.request_to_escrow(R1).unwrap();
    assert_eq!(e.force_timeout_release(3, 109, id), Err(Error::TimeoutNotReached));
    assert_eq!(e.force_timeout_release(3, 110, id), Ok(()));
    assert_eq!(e.escrow(id).unwrap().status, DeliveryStatus::TimeoutReleased);
    assert_eq!(
        *e.events().last().unwrap(),
        Event::PaymentReleased { escrow_id: id, amount: 500 }
    );
    assert_eq!(e.force_timeout_release(3, 500, id), Err(Error::EscrowAlreadyFinal));
}

#[test]
fn release_by_request_and_offer() {
    let mut e = Pallet::new(100);
    e.create_escrow(1, 10, R1, O1, D, P, 500).unwrap();
    let id = e.request_to_escrow(R1).unwrap();
    assert_eq!(e.release_escrow(1, R1, 0x99), Err(Error::EscrowNotFound));
    assert_eq!(e.release_escrow(1, 0x98, O1), Err(Error::EscrowNotFound));
    assert_eq!(e.release_escrow(1, R1, O1), Ok(()));
    assert_eq!(e.escrow(id).unwrap().status, DeliveryStatus::ConfirmedByReceiver);
    let n = e.events().len();
    assert_eq!(e.events()[n - 2], Event::PaymentReleased { escrow_id: id, amount: 500 });
    assert_eq!(e.events()[n - 1], Event::ReceiverConfirmed { escrow_id: id });
    assert_eq!(e.release_escrow(1, R1, O1), Err(Error::EscrowAlreadyFinal));
}
