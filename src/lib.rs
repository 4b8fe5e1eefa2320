//! Turns a sheet of instructor training sessions into a monthly report of
//! hours per instructor, school, payment framework and day.
//!
//! The library holds the logic: coercion of raw cells, the row parser, the
//! aggregation of records into groups, the layout of the report and the
//! command's response. Reading and writing workbooks is left to the caller.

pub mod text;
pub mod cell;
pub mod parser;
pub mod aggregate;
pub mod report;
pub mod response;
