//! Settings discovery for a rooftop runoff calculator.
//!
//! `settings` decides which of the candidate settings files supplies the
//! calculator's defaults. Reading files and parsing their contents happen
//! outside; what came of each candidate is handed in as a `Probe`.
//! `report` words the line that names the file in use.

pub mod report;
pub mod settings;
