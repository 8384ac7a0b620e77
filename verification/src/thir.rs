//! Identifiers of the typed representation that MIR refers to.
use vstd::prelude::*;

verus! {

/// A function instance, as the interner of the typed representation
/// numbered it.
#[derive(Debug, Clone, Copy, PartialEq, Eq, Hash, Structural)]
pub struct FunctionRef {
    pub id: u32,
}

/// A local variable of a typed body.
#[derive(Debug, Clone, Copy, PartialEq, Eq, Hash, Structural)]
pub struct LocalId(pub usize);

} // verus!
