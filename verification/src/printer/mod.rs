//! Printing types for diagnostics.
pub mod type_printer;
