//! Shared-expense escrow: a group owes a fixed fiat amount, each participant
//! pays a share in a native currency converted through an oracle quote, and
//! the organizer withdraws what was collected exactly once.
pub mod convert;
pub mod error;
pub mod ledger;
pub mod price;
pub mod validate;
