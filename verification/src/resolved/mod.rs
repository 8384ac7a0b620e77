//! Resolved types.
use vstd::prelude::*;
use crate::hir::Mutability;

verus! {

/// The two kinds of pointer-like builtin types.
#[derive(Debug, Clone, Copy, PartialEq, Eq, Hash, Structural)]
pub enum PtrKind {
    Ref(Mutability),
    RawPtr(Mutability),
}

impl PtrKind {
    /// The mutability of the pointee, whichever the kind.
    pub fn mutability(self) -> (m: Mutability)
        ensures
            m == match self {
                PtrKind::Ref(m) => m,
                PtrKind::RawPtr(m) => m,
            },
    {
        match self {
            PtrKind::Ref(m) | PtrKind::RawPtr(m) => m,
        }
    }
}

/// How a value takes part in a cast: as an integer, a thin pointer or a fat
/// pointer.
#[derive(Debug, Clone, Copy, PartialEq, Eq, Structural)]
pub enum CastClass {
    Int,
    ThinPtr(Mutability),
    FatPtr(Mutability),
}

} // verus!
