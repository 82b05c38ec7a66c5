//! Reconciles an exchange's transaction export with the postings that a
//! personal ledger holds against one asset account.
//!
//! The two sources disagree in layout, in the precision of their times and
//! in the sign of their amounts. The library brings both to a common
//! shape and pairs them:
//!
//! - [`record`] normalises the rows of the export into
//!   [`record::ExternalRecord`]s, oldest first, with the sign that each
//!   kind of transaction gives its amount;
//! - [`ledger`] extracts a [`ledger::LedgerRecord`] from each entry of the
//!   ledger that posts against the tracked account;
//! - [`reconcile`] pairs each external record with the first ledger record
//!   still available that has the same amount and a date inside a
//!   tolerance window, and takes that record out of the pool;
//! - [`totals`] keeps the running sums of what came in and what went out;
//! - [`report`] renders the trace of a run, the ledger records left
//!   unaccounted, and the totals;
//! - [`laws`] proves what holds of every run: no ledger record is made,
//!   lost or used twice, matched amounts are equal, the window is
//!   inclusive, and records that move nothing are passed over.
//!
//! Amounts are whole counts of hundred-millionths ([`amount`]), dates are
//! day counts of the proleptic Gregorian calendar ([`calendar`]). Decimal
//! texts are read by `rust_decimal`, timestamps and calendar days by
//! `chrono`. Every executable function carries a contract. Verus proves
//! them all but those of the three functions that make these outside
//! calls: the day count is stated as the calendar defines it, and what the
//! two readers return is given a name, of which the contracts around them
//! speak.

pub mod amount;
pub mod calendar;
pub mod laws;
pub mod ledger;
pub mod record;
pub mod reconcile;
pub mod report;
pub mod text;
pub mod totals;
