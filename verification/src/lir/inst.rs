//! Instructions and terminators, over the ids of a stage.
use vstd::prelude::*;
use crate::layout::{LIRTy, ScalarKind};
use super::{ArithBinop, CmpBinop, LIRFunctionId, Logic, Refs};

verus! {

/// An instruction: a call, an effect without a value, or the definition of
/// a value.
pub enum Instruction<R: Refs> {
    Call { dest: Option<R::Def>, id: LIRFunctionId, args: Vec<R::Val> },
    Void(VoidInstKind<R>),
    Value { def: R::Def, kind: ValueInstKind<R> },
}

/// A constant value.
pub enum ConstValue {
    Int { ty: LIRTy, value: u128 },
    NullPtr { pointee: LIRTy },
    Zeroed { ty: LIRTy },
    Strlit { contents: String, null_terminated: bool },
    FunctionAddr(LIRFunctionId),
}

/// Instructions that only have an effect.
pub enum VoidInstKind<R: Refs> {
    Store { ptr: R::Val, value: R::Val },
    MemCopy { src: R::Val, dst: R::Val, ty: LIRTy },
    SetDiscriminant { ptr: R::Val, ty: LIRTy, idx: u32 },
}

/// Instructions that define a value.
pub enum ValueInstKind<R: Refs> {
    Const(ConstValue),
    Load { ptr: R::Val, ty: LIRTy },
    FieldPtr { ptr: R::Val, ty: LIRTy, src_idx: u32 },
    UnionPayloadPtr { ptr: R::Val, ty: LIRTy, variant: u32 },
    GetDiscriminant { ptr: R::Val, ty: LIRTy },
    IndexPtr { ptr: R::Val, elem_ty: LIRTy, index: R::Val },
    MakeAggregate { ty: LIRTy, fields_in_src_order: Vec<R::Val> },
    ExtractField { value: R::Val, ty: LIRTy, src_idx: u32 },
    InsertField { value: R::Val, ty: LIRTy, src_idx: u32, field: R::Val },
    Arith { op: ArithBinop, lhs: R::Val, rhs: R::Val },
    Cmp { op: CmpBinop, lhs: R::Val, rhs: R::Val },
    Logic { op: Logic, lhs: R::Val, rhs: R::Val },
    Not { value: R::Val },
    Cast { kind: CastKind, value: R::Val, to: ScalarKind },
}

/// The ways a scalar is converted to another.
#[derive(Debug, Clone, Copy, PartialEq, Eq, Structural)]
pub enum CastKind {
    IntTruncate,
    IntExtend { signed: bool },
    IntToPtr,
    PtrToInt,
    /// Reinterpret a scalar as another of the same size.
    Bitcast,
}

/// A jump to a block, with the values for its parameters.
pub struct BlockTarget<R: Refs> {
    pub params: Vec<R::Val>,
    pub block: R::Block,
}

/// How a block ends.
pub enum Terminator<R: Refs> {
    Goto(BlockTarget<R>),
    Br { cond: R::Val, if_true: BlockTarget<R>, if_false: BlockTarget<R> },
    Switch { on: R::Val, branches: Vec<(u128, BlockTarget<R>)>, default: BlockTarget<R> },
    Return(Option<R::Val>),
    Diverge,
}

} // verus!
