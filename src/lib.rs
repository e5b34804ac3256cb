//! Schedules of running groups read from spreadsheet rows: field parsers,
//! header-driven row decoding into meetups and groups, and the grouping and
//! ordering of meetups for display.
pub mod model;
pub mod schedule;
pub mod sheet;
pub mod table;
pub mod text;
