//! Fully instantiated types, as MIR refers to them.
use vstd::prelude::*;

verus! {

/// A type with every template parameter substituted, as the interner
/// numbered it.
#[derive(Debug, Clone, Copy, PartialEq, Eq, Hash, Structural)]
pub struct ConcreteTy {
    pub id: u32,
}

/// An instantiated struct.
#[derive(Debug, Clone, Copy, PartialEq, Eq, Hash, Structural)]
pub struct ConcreteStructRef {
    pub id: u32,
}

/// An instantiated enum.
#[derive(Debug, Clone, Copy, PartialEq, Eq, Hash, Structural)]
pub struct ConcreteEnumRef {
    pub id: u32,
}

} // verus!
