//! Transformations of MIR bodies.
use vstd::prelude::*;
use crate::mir::Mir;

pub mod dead_code_elimination;

verus! {

/// A transformation of MIR bodies.
pub trait MIRPass {
    /// The bodies the pass can be run on.
    spec fn accepts(&self, mir: Mir) -> bool;

    /// What the pass makes of `mir`.
    spec fn transforms(&self, mir: Mir, r: Mir) -> bool;

    /// Runs the pass on `mir`.
    fn run(&self, mir: &Mir) -> (r: Mir)
        requires
            self.accepts(*mir),
        ensures
            self.transforms(*mir, r),
    ;
}

} // verus!
