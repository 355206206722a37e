//! Stock keeping with first-in-first-out cost accounting.
//!
//! Every product accumulates purchase lots (a quantity bought at one unit
//! cost). Sales never touch the lots: what a sale cost is worked out on
//! demand, by matching the units sold against the lots in purchase order.
//!
//! Money is counted in whole minor units (the smallest amount the caller
//! accounts in), quantities in whole units.

pub mod ledger;
pub mod money;
pub mod transactions;
pub mod error;
pub mod catalog;
pub mod inventory;
pub mod attribution;
pub mod reports;
pub mod laws;
