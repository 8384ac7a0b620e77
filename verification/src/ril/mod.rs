//! The Rockr intermediate language: identifiers of its entities.
use vstd::prelude::*;
use crate::hir::Mutability;
use crate::layout::IntWidth;
use crate::common::Symbol;

verus! {

/// The index of a template parameter of the enclosing item.
#[derive(Debug, Clone, Copy, PartialEq, Eq, Hash, Structural)]
pub struct TypeParamId(pub usize);

/// A local variable of a function body.
#[derive(Debug, Clone, Copy, PartialEq, Eq, Hash, Structural)]
pub struct LocalId(pub usize);

/// A type, as the type interner numbered it.
#[derive(Debug, Clone, Copy, PartialEq, Eq, Hash, Structural)]
pub struct TypeId {
    pub id: u32,
}

/// A type as a signature or a local refers to it.
#[derive(Debug, Clone, Copy, PartialEq, Eq, Hash, Structural)]
pub enum TypeRef {
    Concrete(TypeId),
    Param(TypeParamId),
    Associated(Symbol),
    Zelf,
    Error,
    Unknown,
}

/// The builtin type constructors.
#[derive(Debug, Clone, Copy, PartialEq, Eq, Hash, Structural)]
pub enum BuiltinTypeKind {
    Void,
    Never,
    Bool,
    Int { width: IntWidth, signed: bool },
    Ref { mutability: Mutability },
    Ptr { mutability: Mutability },
    Slice,
    Tuple,
}

/// The definition of a builtin type.
#[derive(Debug, Clone, Copy, PartialEq, Eq, Hash, Structural)]
pub struct BuiltinTypeDef {
    pub kind: BuiltinTypeKind,
}

/// The two kinds of pointer-like builtin types.
#[derive(Debug, Clone, Copy, PartialEq, Eq, Hash, Structural)]
pub enum PtrKind {
    Ref(Mutability),
    RawPtr(Mutability),
}

} // verus!
