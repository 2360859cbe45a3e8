use poba::contract::{
    AssignmentInput, ContractError, Escrow, Transfer, STATUS_CANCELLED, STATUS_COMPLETED,
    STATUS_DELIVERED, STATUS_OPEN,
};

const SENDER: u64 = 1;
const DRIVER: u64 = 2;

#[test]
fn contract_confirm_pays_driver() {
    let mut c = Escrow::new();
    assert_eq!(c.open_and_deposit(SENDER, 500, 1000, 7, DRIVER, 60_000), Ok(()));
    assert_eq!(c.get_status(7), Some(STATUS_OPEN));
    assert_eq!(
        c.open_and_deposit(SENDER, 500, 1000, 7, DRIVER, 60_000),
        Err(ContractError::AlreadyExists)
    );
    assert_eq!(c.receiver_confirm(SENDER, 7), Err(ContractError::NotDelivered));
    assert_eq!(c.driver_mark_delivered(SENDER, 2000, 7), Err(ContractError::NotDriver));
    assert_eq!(c.driver_mark_delivered(DRIVER, 2000, 7), Ok(()));
    assert_eq!(c.get_status(7), Some(STATUS_DELIVERED));
    assert_eq!(c.receiver_confirm(DRIVER, 7), Err(ContractError::NotSender));
    assert_eq!(c.receiver_confirm(SENDER, 7), Ok(Transfer { to: DRIVER, amount: 500 }));
    assert_eq!(c.get_status(7), Some(STATUS_COMPLETED));
    assert_eq!(c.get_status(8), None);
}

#[test]
fn contract_timeout_release() {
    let mut c = Escrow::new();
    c.open_and_deposit(SENDER, 900, 1000, 3, DRIVER, 60_000).unwrap();
    assert_eq!(c.auto_release_if_timeout(100_000, 3), Err(ContractError::NotDelivered));
    c.driver_mark_delivered(DRIVER, 5000, 3).unwrap();
    assert_eq!(c.auto_release_if_timeout(64_999, 3), Err(ContractError::TooEarly));
    assert_eq!(c.auto_release_if_timeout(65_000, 3), Ok(Transfer { to: DRIVER, amount: 900 }));
    assert_eq!(c.auto_release_if_timeout(65_000, 3), Err(ContractError::NotDelivered));
    assert_eq!(c.auto_release_if_timeout(0, 4), Err(ContractError::NotFound));
}

#[test]
fn contract_delivery_at_time_zero_blocks_auto_release() {
    let mut c = Escrow::new();
    c.open_and_deposit(SENDER, 900, 0, 3, DRIVER, 0).unwrap();
    c.driver_mark_delivered(DRIVER, 0, 3).unwrap();
    assert_eq!(c.auto_release_if_timeout(u64::MAX, 3), Err(ContractError::DeliveredAtUnset));
}

#[test]
fn contract_cancel_refunds_sender() {
    let mut c = Escrow::new();
    c.open_and_deposit(SENDER, 250, 1000, 9, DRIVER, 10).unwrap();
    assert_eq!(c.cancel_before_delivered(DRIVER, 9), Err(ContractError::NotSender));
    assert_eq!(c.cancel_before_delivered(SENDER, 9), Ok(Transfer { to: SENDER, amount: 250 }));
    assert_eq!(c.get_status(9), Some(STATUS_CANCELLED));
    assert_eq!(c.cancel_before_delivered(SENDER, 9), Err(ContractError::NotOpen));
    assert_eq!(c.driver_mark_delivered(DRIVER, 5, 9), Err(ContractError::NotOpen));
}

fn input(request_id: u128, pair_score: u128) -> AssignmentInput {
    AssignmentInput { request_id, driver: DRIVER, pair_score }
}

#[test]
fn contract_winner_validation() {
    let c = Escrow::new();
    assert!(c.validate_winner(30, &vec![input(1, 10), input(2, 20)]));
    assert!(!c.validate_winner(31, &vec![input(1, 10), input(2, 20)]));
    assert!(!c.validate_winner(30, &vec![input(1, 10), input(1, 20)]));
    assert!(c.validate_winner(0, &vec![]));
    assert!(c.validate_winner(u128::MAX, &vec![input(1, u128::MAX), input(2, 5)]));
}
