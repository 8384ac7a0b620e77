//! Bodies once they are finished: ids are plain arena indices.
use vstd::prelude::*;
use crate::common::arena::Idx;
use crate::common::Symbol;
use crate::layout::LIRTy;
use super::{Finalized, LIRDef};

verus! {

/// The marker type of block indices: a block of a body is named by an
/// `Idx<Block>`, a type apart from `BlockData`, so that the terminators a
/// block holds name other blocks without naming the type they sit in.
pub struct Block;

/// A basic block: its parameters, instructions and terminator.
pub struct BlockData {
    pub name: Option<Symbol>,
    pub params: Vec<Idx<LIRDef>>,
    pub insts: Vec<super::inst::Instruction<Finalized>>,
    pub terminator: super::inst::Terminator<Finalized>,
}

/// A stack slot: the pointer value that addresses it, and the type stored.
pub struct StackSlot {
    pub value: Idx<LIRDef>,
    pub pointee_ty: LIRTy,
}

/// A finished function body; the arenas are append-only vectors.
pub struct FunctionBody {
    pub defs: Vec<LIRDef>,
    pub stack_slots: Vec<StackSlot>,
    pub blocks: Vec<BlockData>,
    pub entry: Idx<Block>,
}

} // verus!
