use remitwise::insurance::Address;
use remitwise::mock_contracts::{
    MockBillPayments, MockFamilyWallet, MockInsurance, MockRemittanceSplit,
    MockSavingsGoals,
};

fn user() -> Address {
    Address::new("GUSER".to_string())
}

fn attacker() -> Address {
    Address::new("GATTACKER".to_string())
}

#[test]
fn remittance_split_shares() {
    assert_eq!(MockRemittanceSplit::calculate_split(10_000), vec![4_000, 3_000, 2_000, 1_000]);
    assert_eq!(MockRemittanceSplit::calculate_split(99), vec![39, 29, 19, 12]);
    assert_eq!(MockRemittanceSplit::calculate_split(-99), vec![-39, -29, -19, -12]);
    assert_eq!(MockRemittanceSplit::calculate_split(0), vec![0, 0, 0, 0]);
}

#[test]
fn family_wallet_owner_and_limit() {
    let mut wallet = MockFamilyWallet::new();
    wallet.set_owner(user());
    assert_eq!(wallet.get_owner(), user());
    assert!(MockFamilyWallet::check_spending_limit(&user(), 10_000));
    assert!(!MockFamilyWallet::check_spending_limit(&user(), 10_001));
}

#[test]
fn bill_payments_check_owner() {
    let mut bills = MockBillPayments::new();
    bills.set_bill_owner(1, user());
    assert_eq!(bills.payment_count(), 0);
    assert_eq!(bills.last_caller(), None);
    assert!(!bills.may_pay(&attacker(), 1));
    assert!(bills.may_pay(&user(), 1));
    assert!(bills.may_pay(&attacker(), 2));
    assert_eq!(bills.payment_count(), 0);
    bills.pay_bill(&user(), 1);
    bills.pay_bill(&attacker(), 2);
    assert_eq!(bills.payment_count(), 2);
    assert_eq!(bills.last_caller(), Some(attacker()));
}

#[test]
fn savings_and_insurance_accept() {
    assert_eq!(MockSavingsGoals::add_to_goal(&user(), 1, 250), 250);
    assert!(MockInsurance::pay_premium(&user(), 1));
}
