//! Items of the high-level representation that later stages share.
use vstd::prelude::*;

verus! {

/// Whether a reference or pointer allows writes through it.
#[derive(Debug, Clone, Copy, PartialEq, Eq, Hash, Structural)]
pub enum Mutability {
    Const,
    Mutable,
}

/// A local variable of a function, as name resolution numbered it.
#[derive(Debug, Clone, Copy, PartialEq, Eq, Hash, Structural)]
pub struct LocalId(pub usize);

} // verus!
