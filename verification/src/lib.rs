//! A personal finance ledger: income and expense transactions with a
//! running balance, persisted as a JSON array in the ledger's own
//! canonical encoding.
//!
//! Amounts are whole cents, so every sum is exact; the persisted form
//! carries two fraction digits. `ledger` holds the in-memory model and
//! its aggregate operations, `codec` the persisted form and the proof
//! that decoding undoes encoding, `numtext` and `strtext` the character-
//! level pieces both lean on, and `clock` the one call to the system
//! clock.

pub mod clock;
pub mod codec;
pub mod ledger;
pub mod numtext;
pub mod strtext;
