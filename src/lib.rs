//! Accounting core of a mutual-credit currency: accounts, their exposure
//! limits, payment validation, password digests, and an in-memory ledger that
//! applies payments atomically while keeping the pool's balances summing to
//! zero.

pub mod account;
pub mod digest;
pub mod isqrt;
pub mod ledger;

pub use account::{check_payment, Outcome, Payment, User};
pub use digest::hash;
pub use ledger::{balance_sum, Ledger, BALANCE_BOUND};
