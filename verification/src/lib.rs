//! The front end of the Rockr compiler, verified.
pub mod common;
pub mod token;
pub mod parse_tree;
pub mod parser;
pub mod mir;
pub mod mangle;
pub mod layout;
pub mod hir;
pub mod resolved;
pub mod ril;
pub mod printer;
pub mod lir;
pub mod thir;
pub mod lookup;
pub mod name_resolve;
