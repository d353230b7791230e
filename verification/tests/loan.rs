use symbiosis::loan::{lend_decision, BorrowRefusal, LendDecision, Loans, ReturnRefusal};

#[test]
fn only_root_is_lent_access() {
    assert_eq!(lend_decision(0, false), LendDecision::Grant);
    assert_eq!(lend_decision(0, true), LendDecision::Grant);
    assert_eq!(lend_decision(1000, false), LendDecision::Deny { power_off: false });
    assert_eq!(lend_decision(1000, true), LendDecision::Deny { power_off: true });
}

#[test]
fn free_access_can_be_lent() {
    let mut loans = Loans::new();
    assert_eq!(loans.holder(), None);
    assert_eq!(loans.check_held(false), Ok(false));
    loans.lend(":1.7".to_string(), true);
    assert_eq!(loans.holder(), Some(":1.7"));
}

#[test]
fn held_loan_refuses_and_stays() {
    let mut loans = Loans::new();
    loans.lend(":1.7".to_string(), true);
    assert_eq!(loans.check_held(true), Err(BorrowRefusal::AlreadyBorrowed));
    assert_eq!(loans.holder(), Some(":1.7"));
}

#[test]
fn expired_loan_is_dropped_with_its_power_down() {
    let mut loans = Loans::new();
    loans.lend(":1.7".to_string(), true);
    assert_eq!(loans.check_held(false), Ok(true));
    assert_eq!(loans.holder(), None);
    loans.lend(":1.8".to_string(), false);
    assert_eq!(loans.check_held(false), Ok(false));
}

#[test]
fn only_borrower_returns_access() {
    let mut loans = Loans::new();
    loans.lend(":1.7".to_string(), true);
    assert_eq!(loans.give_back(Some(":1.9")), Err(ReturnRefusal::NoLoan));
    assert_eq!(loans.give_back(None), Err(ReturnRefusal::NoSender));
    assert_eq!(loans.holder(), Some(":1.7"));
    assert_eq!(loans.give_back(Some(":1.7")), Ok(true));
    assert_eq!(loans.holder(), None);
    assert_eq!(loans.give_back(Some(":1.7")), Err(ReturnRefusal::NoLoan));
}

#[test]
fn returned_loan_without_power_down_keeps_power() {
    let mut loans = Loans::new();
    loans.lend(":1.3".to_string(), false);
    assert_eq!(loans.give_back(Some(":1.3")), Ok(false));
}

#[test]
fn return_without_loan_or_sender() {
    let mut loans = Loans::new();
    assert_eq!(loans.give_back(None), Err(ReturnRefusal::NoLoan));
}
