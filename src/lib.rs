//! Per-client request counting for a small HTTP service: a table of request
//! counts per client address, drained as a whole at each report, behind one
//! lock shared by all request handlers and the reporter; the ranking of a
//! drained snapshot; and the text of a report.
pub mod address;
pub mod counter;
pub mod laws;
pub mod report;
pub mod service;
pub mod table;
