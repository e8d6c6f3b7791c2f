//! Attendance reconciliation: two spreadsheet extracts are merged into one
//! ledger keyed by date and employee, and the ledger is projected onto a
//! report template.
//!
//! - [`text`]: characters, decimal numbers, substring search, trimming.
//! - [`columns`]: column letters and row numbers as a user types them.
//! - [`dates`]: calendar dates, their textual forms and the date window.
//! - [`record`]: the attendance record, its stored form and its updates.
//! - [`keys`]: the keys of the ledger.
//! - [`store`]: the ledger itself, kept in a sled database.
//! - [`classify`]: the labels of attendance anomalies.
//! - [`config`]: the configuration and its stored form.
//! - [`form`]: the configuration as texts, parsed and rendered.
//! - [`import`]: the two import passes.
//! - [`report`]: the plan of a report.
//!
//! Reading and writing spreadsheets, the window and its dialogs are left to
//! the program around the library, which hands over rows as it read them
//! and carries out the steps of a report as they are planned.

pub mod text;
pub mod columns;
pub mod dates;
pub mod record;
pub mod keys;
pub mod store;
pub mod classify;
pub mod config;
pub mod form;
pub mod import;
pub mod report;
