//! Stand-in contracts that an orchestrator of the family wallet, remittance split, savings,
//! bill payment and insurance contracts is exercised against.
//!
//! Each keeps its storage in a struct; the entry points are methods on it.
use vstd::prelude::*;
use std::collections::HashMap;
use crate::insurance::Address;

verus! {

broadcast use vstd::std_specs::hash::group_hash_axioms;

/// Largest amount the stand-in family wallet lets anyone spend.
pub const MOCK_SPENDING_LIMIT: i128 = 10_000;

/// Stand-in family wallet: remembers an owner and allows spending up to a fixed limit.
pub struct MockFamilyWallet {
    owner: Option<Address>,
}

impl View for MockFamilyWallet {
    type V = Option<Seq<char>>;

    closed spec fn view(&self) -> Option<Seq<char>> {
        match self.owner {
            Some(a) => Some(a@),
            None => None,
        }
    }
}

impl MockFamilyWallet {
    /// A wallet with no owner recorded.
    pub fn new() -> (w: MockFamilyWallet)
        ensures
            w@ is None,
    {
        MockFamilyWallet { owner: None }
    }

    /// Records the owner.
    pub fn set_owner(&mut self, owner: Address)
        ensures
            final(self)@ == Some(owner@),
    {
        self.owner = Some(owner);
    }

    /// The recorded owner; the wallet must have one.
    pub fn get_owner(&self) -> (a: Address)
        requires
            self@ is Some,
        ensures
            Some(a@) == self@,
    {
        match &self.owner {
            Some(a) => a.duplicate(),
            None => {
                proof {
                    assert(false);
                }
                Address { key: String::new() }
            },
        }
    }

    /// Whether `amount` is within the spending limit (the caller plays no part).
    pub fn check_spending_limit(_caller: &Address, amount: i128) -> (ok: bool)
        ensures
            ok == (amount <= MOCK_SPENDING_LIMIT),
    {
        amount <= MOCK_SPENDING_LIMIT
    }
}

/// `a / b` rounded toward zero, as integer division does in Rust.
pub open spec fn div_toward_zero(a: int, b: int) -> int {
    if a >= 0 {
        a / b
    } else {
        -((-a) / b)
    }
}

/// Stand-in remittance split: 40% spending, 30% savings, 20% bills, the rest insurance.
pub struct MockRemittanceSplit;

impl MockRemittanceSplit {
    /// The split of `total_amount` into spending, savings, bills and insurance; each share but
    /// the last rounds toward zero, and the last takes what is left, so the four add up to the
    /// total.
    pub fn calculate_split(total_amount: i128) -> (v: Vec<i128>)
        requires
            -(i128::MAX / 40) <= total_amount <= i128::MAX / 40,
        ensures
            v@.len() == 4,
            v@[0] == div_toward_zero(total_amount * 40, 100),
            v@[1] == div_toward_zero(total_amount * 30, 100),
            v@[2] == div_toward_zero(total_amount * 20, 100),
            v@[3] == total_amount - v@[0] - v@[1] - v@[2],
            v@[0] + v@[1] + v@[2] + v@[3] == total_amount,
    {
        let spending = (total_amount * 40) / 100;
        let savings = (total_amount * 30) / 100;
        let bills = (total_amount * 20) / 100;
        let insurance = total_amount - spending - savings - bills;
        let mut v: Vec<i128> = Vec::new();
        v.push(spending);
        v.push(savings);
        v.push(bills);
        v.push(insurance);
        v
    }
}

/// Stand-in savings goals contract: accepts every deposit.
pub struct MockSavingsGoals;

impl MockSavingsGoals {
    /// Answers the amount deposited.
    pub fn add_to_goal(_caller: &Address, _goal_id: u32, amount: i128) -> (r: i128)
        ensures
            r == amount,
    {
        amount
    }
}

/// Storage of the stand-in bill payments contract.
pub struct MockBillPaymentsView {
    pub owners: Map<u32, Seq<char>>,
    pub payment_count: u32,
    pub last_caller: Option<Seq<char>>,
}

/// Stand-in bill payments: bills may have a recorded owner; payments are counted.
pub struct MockBillPayments {
    owners: HashMap<u32, Address>,
    payment_count: u32,
    last_caller: Option<Address>,
}

impl View for MockBillPayments {
    type V = MockBillPaymentsView;

    closed spec fn view(&self) -> MockBillPaymentsView {
        MockBillPaymentsView {
            owners: self.owners@.map_values(|a: Address| a@),
            payment_count: self.payment_count,
            last_caller: match self.last_caller {
                Some(a) => Some(a@),
                None => None,
            },
        }
    }
}

impl MockBillPaymentsView {
    /// Whether `caller` may pay bill `bill_id`: anyone may pay a bill with no recorded owner.
    pub open spec fn may_pay(self, caller: Seq<char>, bill_id: u32) -> bool {
        !self.owners.contains_key(bill_id) || self.owners[bill_id] == caller
    }
}

impl MockBillPayments {
    /// No bills, no payments.
    pub fn new() -> (b: MockBillPayments)
        ensures
            b@.owners == Map::<u32, Seq<char>>::empty(),
            b@.payment_count == 0,
            b@.last_caller is None,
    {
        let b = MockBillPayments { owners: HashMap::new(), payment_count: 0, last_caller: None };
        proof {
            assert(b@.owners =~= Map::<u32, Seq<char>>::empty());
        }
        b
    }

    /// Records the owner of a bill.
    pub fn set_bill_owner(&mut self, bill_id: u32, owner: Address)
        ensures
            final(self)@ == (MockBillPaymentsView {
                owners: old(self)@.owners.insert(bill_id, owner@),
                ..old(self)@
            }),
    {
        let ghost o = owner@;
        self.owners.insert(bill_id, owner);
        proof {
            assert(self@.owners =~= old(self)@.owners.insert(bill_id, o));
        }
    }

    /// How many payments were made.
    pub fn payment_count(&self) -> (n: u32)
        ensures
            n == self@.payment_count,
    {
        self.payment_count
    }

    /// Who made the last payment.
    pub fn last_caller(&self) -> (a: Option<Address>)
        ensures
            match a {
                Some(x) => self@.last_caller == Some(x@),
                None => self@.last_caller is None,
            },
    {
        match &self.last_caller {
            Some(x) => Some(x.duplicate()),
            None => None,
        }
    }

    /// Whether `caller` may pay bill `bill_id`: the bill has no recorded owner, or `caller` is it.
    /// The contract aborts with "unauthorized bill payer" on any other payment, so `pay_bill`
    /// requires this.
    pub fn may_pay(&self, caller: &Address, bill_id: u32) -> (b: bool)
        ensures
            b == self@.may_pay(caller@, bill_id),
    {
        match self.owners.get(&bill_id) {
            Some(owner) => caller.same_as(owner),
            None => true,
        }
    }

    /// Pays a bill that `caller` may pay: the payment is counted and `caller` remembered.
    pub fn pay_bill(&mut self, caller: &Address, bill_id: u32)
        requires
            old(self)@.may_pay(caller@, bill_id),
            old(self)@.payment_count < u32::MAX,
        ensures
            final(self)@ == (MockBillPaymentsView {
                payment_count: (old(self)@.payment_count + 1) as u32,
                last_caller: Some(caller@),
                ..old(self)@
            }),
    {
        self.payment_count = self.payment_count + 1;
        self.last_caller = Some(caller.duplicate());
    }
}

/// Stand-in insurance contract: every premium payment succeeds.
pub struct MockInsurance;

impl MockInsurance {
    /// Always `true`.
    pub fn pay_premium(_caller: &Address, _policy_id: u32) -> (r: bool)
        ensures
            r,
    {
        true
    }
}

} // verus!
