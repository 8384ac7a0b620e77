//! Sizes of the builtin scalar types.
use vstd::prelude::*;

verus! {

/// The width of a builtin integer type.
#[derive(Debug, Clone, Copy, PartialEq, Eq, Hash, Structural)]
pub enum IntWidth {
    I8,
    I16,
    I32,
    I64,
    I128,
}

/// The size in bytes of an integer of width `w`.
pub open spec fn width_bytes(w: IntWidth) -> nat {
    match w {
        IntWidth::I8 => 1,
        IntWidth::I16 => 2,
        IntWidth::I32 => 4,
        IntWidth::I64 => 8,
        IntWidth::I128 => 16,
    }
}

impl IntWidth {
    /// The size in bytes of an integer of this width.
    pub fn bytes(self) -> (r: usize)
        ensures
            r == width_bytes(self),
    {
        match self {
            IntWidth::I8 => 1,
            IntWidth::I16 => 2,
            IntWidth::I32 => 4,
            IntWidth::I64 => 8,
            IntWidth::I128 => 16,
        }
    }
}

/// The kind of a scalar value: an integer of some width, or a pointer.
#[derive(Debug, Clone, Copy, PartialEq, Eq, Hash, Structural)]
pub enum ScalarKind {
    Int(IntWidth),
    Ptr,
}

/// A type as the low-level representation sees it: the id of its layout,
/// as the layout interner handed it out.
#[derive(Debug, Clone, Copy, PartialEq, Eq, Hash, Structural)]
pub struct LIRTy {
    pub layout: u32,
}

} // verus!
