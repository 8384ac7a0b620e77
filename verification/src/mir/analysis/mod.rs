//! Data-flow analyses over MIR.
pub mod lattice;
pub mod init_tracking;
pub mod liveness;
pub mod loans;
