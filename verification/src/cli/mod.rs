//! The command line: what it asks for, and what is printed.
pub mod args;
pub mod generate;
pub mod laws;
pub mod report;
pub mod tables;
