//! Verified building blocks of the Remitwise contracts: the insurance policy registry, the data
//! migration snapshots and exports, and the small contracts that stand in for the family
//! wallet, remittance split, savings goals and bill payments.
pub mod assoc;
pub mod codec;
pub mod hex;
pub mod insurance;
pub mod migration;
pub mod mock_contracts;
pub mod text;
