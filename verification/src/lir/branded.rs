//! Bodies while they are built, with ids branded by their body.
use vstd::prelude::*;
use std::marker::PhantomData;
use crate::common::arena::Idx;
use super::{Branded, Finalized, LIRDef, ValueDef, ValueId};
use super::inst::{BlockTarget, Instruction, Terminator, ValueInstKind, VoidInstKind};
use super::finalized::BlockData;
use crate::common::Symbol;

verus! {

/// A handle on a block of the body branded `'ir`.
pub struct BrandedBlockId<'ir> {
    pub idx: Idx<super::finalized::Block>,
    _brand: PhantomData<&'ir ()>,
}

impl<'ir> Clone for BrandedBlockId<'ir> {
    fn clone(&self) -> (r: Self)
        ensures
            r == *self,
    {
        BrandedBlockId { idx: self.idx, _brand: PhantomData }
    }
}

impl<'ir> Copy for BrandedBlockId<'ir> {
}

impl<'ir> BrandedBlockId<'ir> {
    /// The position of the block in its body.
    pub closed spec fn index(self) -> nat {
        self.idx.index()
    }

    /// The handle on the block at `idx`.
    pub fn from_idx(idx: Idx<super::finalized::Block>) -> (r: Self)
        ensures
            r.index() == idx.index(),
    {
        BrandedBlockId { idx, _brand: PhantomData }
    }

    /// The block's index once the body is finished.
    pub fn finalize(self) -> (r: Idx<super::finalized::Block>)
        ensures
            r.index() == self.index(),
    {
        Idx::from_raw(self.idx.raw())
    }
}

/// `b` holds, in order, the indices of the values of `a`.
pub open spec fn vals_finalized<'ir>(a: Seq<ValueId<'ir>>, b: Seq<Idx<LIRDef>>) -> bool {
    &&& a.len() == b.len()
    &&& forall|i: int| 0 <= i < a.len() ==> #[trigger] b[i].index() == a[i].index()
}

/// A value of the finished body is the value of the branded one.
pub open spec fn val_finalized<'ir>(a: ValueId<'ir>, b: Idx<LIRDef>) -> bool {
    b.index() == a.index()
}

/// `b` is `a` with every branded value replaced by its index.
pub open spec fn value_inst_finalized<'ir>(
    a: ValueInstKind<Branded<'ir>>,
    b: ValueInstKind<Finalized>,
) -> bool {
    match (a, b) {
        (ValueInstKind::Const(c), ValueInstKind::Const(d)) => c == d,
        (ValueInstKind::Load { ptr, ty }, ValueInstKind::Load { ptr: p, ty: t }) => val_finalized(
            ptr,
            p,
        ) && t == ty,
        (
            ValueInstKind::FieldPtr { ptr, ty, src_idx },
            ValueInstKind::FieldPtr { ptr: p, ty: t, src_idx: s },
        ) => val_finalized(ptr, p) && t == ty && s == src_idx,
        (
            ValueInstKind::UnionPayloadPtr { ptr, ty, variant },
            ValueInstKind::UnionPayloadPtr { ptr: p, ty: t, variant: v },
        ) => val_finalized(ptr, p) && t == ty && v == variant,
        (
            ValueInstKind::GetDiscriminant { ptr, ty },
            ValueInstKind::GetDiscriminant { ptr: p, ty: t },
        ) => val_finalized(ptr, p) && t == ty,
        (
            ValueInstKind::IndexPtr { ptr, elem_ty, index },
            ValueInstKind::IndexPtr { ptr: p, elem_ty: t, index: i },
        ) => val_finalized(ptr, p) && t == elem_ty && val_finalized(index, i),
        (
            ValueInstKind::MakeAggregate { ty, fields_in_src_order },
            ValueInstKind::MakeAggregate { ty: t, fields_in_src_order: f },
        ) => t == ty && vals_finalized(fields_in_src_order@, f@),
        (
            ValueInstKind::ExtractField { value, ty, src_idx },
            ValueInstKind::ExtractField { value: v, ty: t, src_idx: s },
        ) => val_finalized(value, v) && t == ty && s == src_idx,
        (
            ValueInstKind::InsertField { value, ty, src_idx, field },
            ValueInstKind::InsertField { value: v, ty: t, src_idx: s, field: f },
        ) => val_finalized(value, v) && t == ty && s == src_idx && val_finalized(field, f),
        (
            ValueInstKind::Arith { op, lhs, rhs },
            ValueInstKind::Arith { op: o, lhs: l, rhs: r },
        ) => o == op && val_finalized(lhs, l) && val_finalized(rhs, r),
        (ValueInstKind::Cmp { op, lhs, rhs }, ValueInstKind::Cmp { op: o, lhs: l, rhs: r }) => o
            == op && val_finalized(lhs, l) && val_finalized(rhs, r),
        (
            ValueInstKind::Logic { op, lhs, rhs },
            ValueInstKind::Logic { op: o, lhs: l, rhs: r },
        ) => o == op && val_finalized(lhs, l) && val_finalized(rhs, r),
        (ValueInstKind::Not { value }, ValueInstKind::Not { value: v }) => val_finalized(value, v),
        (
            ValueInstKind::Cast { kind, value, to },
            ValueInstKind::Cast { kind: k, value: v, to: t },
        ) => k == kind && val_finalized(value, v) && t == to,
        _ => false,
    }
}

/// `b` is `a` with every branded value replaced by its index.
pub open spec fn void_inst_finalized<'ir>(
    a: VoidInstKind<Branded<'ir>>,
    b: VoidInstKind<Finalized>,
) -> bool {
    match (a, b) {
        (VoidInstKind::Store { ptr, value }, VoidInstKind::Store { ptr: p, value: v }) =>
            val_finalized(ptr, p) && val_finalized(value, v),
        (VoidInstKind::MemCopy { src, dst, ty }, VoidInstKind::MemCopy { src: s, dst: d, ty: t }) =>
            val_finalized(src, s) && val_finalized(dst, d) && t == ty,
        (
            VoidInstKind::SetDiscriminant { ptr, ty, idx },
            VoidInstKind::SetDiscriminant { ptr: p, ty: t, idx: i },
        ) => val_finalized(ptr, p) && t == ty && i == idx,
        _ => false,
    }
}

/// `b` is the target `a` with its block and values replaced by indices.
pub open spec fn target_finalized<'ir>(a: BlockTarget<Branded<'ir>>, b: BlockTarget<Finalized>) -> bool {
    vals_finalized(a.params@, b.params@) && b.block.index() == a.block.index()
}

/// `b` is the terminator `a` with its blocks and values replaced by indices.
pub open spec fn terminator_finalized<'ir>(a: Terminator<Branded<'ir>>, b: Terminator<Finalized>) -> bool {
    match (a, b) {
        (Terminator::Goto(t), Terminator::Goto(u)) => target_finalized(t, u),
        (
            Terminator::Br { cond, if_true, if_false },
            Terminator::Br { cond: c, if_true: t, if_false: f },
        ) => val_finalized(cond, c) && target_finalized(if_true, t) && target_finalized(
            if_false,
            f,
        ),
        (
            Terminator::Switch { on, branches, default },
            Terminator::Switch { on: o, branches: bs, default: d },
        ) => {
            &&& val_finalized(on, o)
            &&& target_finalized(default, d)
            &&& branches@.len() == bs@.len()
            &&& forall|i: int|
                0 <= i < branches@.len() ==> #[trigger] bs@[i].0 == branches@[i].0
                    && target_finalized(branches@[i].1, bs@[i].1)
        },
        (Terminator::Return(v), Terminator::Return(w)) => match (v, w) {
            (None, None) => true,
            (Some(x), Some(y)) => val_finalized(x, y),
            _ => false,
        },
        (Terminator::Diverge, Terminator::Diverge) => true,
        _ => false,
    }
}

/// The indices of a sequence of branded values.
fn finalize_vals<'ir>(vals: &Vec<ValueId<'ir>>) -> (r: Vec<Idx<LIRDef>>)
    ensures
        vals_finalized(vals@, r@),
{
    let mut r: Vec<Idx<LIRDef>> = Vec::new();
    let mut i: usize = 0;
    while i < vals.len()
        invariant
            i <= vals@.len(),
            vals_finalized(vals@.take(i as int), r@),
        decreases vals@.len() - i,
    {
        r.push(vals[i].finalize());
        i += 1;
    }
    assert(vals@.take(vals@.len() as int) =~= vals@);
    r
}

impl<'ir> ValueInstKind<Branded<'ir>> {
    /// The instruction with every branded value replaced by its index.
    pub fn finalize(self) -> (r: ValueInstKind<Finalized>)
        ensures
            value_inst_finalized(self, r),
    {
        match self {
            ValueInstKind::Const(cst) => ValueInstKind::Const(cst),
            ValueInstKind::Load { ptr, ty } => ValueInstKind::Load { ptr: ptr.finalize(), ty },
            ValueInstKind::FieldPtr { ptr, ty, src_idx } => {
                ValueInstKind::FieldPtr { ptr: ptr.finalize(), ty, src_idx }
            },
            ValueInstKind::UnionPayloadPtr { ptr, ty, variant } => {
                ValueInstKind::UnionPayloadPtr { ptr: ptr.finalize(), ty, variant }
            },
            ValueInstKind::GetDiscriminant { ptr, ty } => {
                ValueInstKind::GetDiscriminant { ptr: ptr.finalize(), ty }
            },
            ValueInstKind::IndexPtr { ptr, elem_ty, index } => {
                ValueInstKind::IndexPtr { ptr: ptr.finalize(), elem_ty, index: index.finalize() }
            },
            ValueInstKind::MakeAggregate { ty, fields_in_src_order } => {
                ValueInstKind::MakeAggregate {
                    ty,
                    fields_in_src_order: finalize_vals(&fields_in_src_order),
                }
            },
            ValueInstKind::ExtractField { value, ty, src_idx } => {
                ValueInstKind::ExtractField { value: value.finalize(), ty, src_idx }
            },
            ValueInstKind::InsertField { value, ty, src_idx, field } => {
                ValueInstKind::InsertField {
                    value: value.finalize(),
                    ty,
                    src_idx,
                    field: field.finalize(),
                }
            },
            ValueInstKind::Arith { op, lhs, rhs } => {
                ValueInstKind::Arith { op, lhs: lhs.finalize(), rhs: rhs.finalize() }
            },
            ValueInstKind::Cmp { op, lhs, rhs } => {
                ValueInstKind::Cmp { op, lhs: lhs.finalize(), rhs: rhs.finalize() }
            },
            ValueInstKind::Logic { op, lhs, rhs } => {
                ValueInstKind::Logic { op, lhs: lhs.finalize(), rhs: rhs.finalize() }
            },
            ValueInstKind::Not { value } => ValueInstKind::Not { value: value.finalize() },
            ValueInstKind::Cast { kind, value, to } => {
                ValueInstKind::Cast { kind, value: value.finalize(), to }
            },
        }
    }
}

impl<'ir> VoidInstKind<Branded<'ir>> {
    /// The instruction with every branded value replaced by its index.
    pub fn finalize(self) -> (r: VoidInstKind<Finalized>)
        ensures
            void_inst_finalized(self, r),
    {
        match self {
            VoidInstKind::Store { ptr, value } => {
                VoidInstKind::Store { ptr: ptr.finalize(), value: value.finalize() }
            },
            VoidInstKind::MemCopy { src, dst, ty } => {
                VoidInstKind::MemCopy { src: src.finalize(), dst: dst.finalize(), ty }
            },
            VoidInstKind::SetDiscriminant { ptr, ty, idx } => {
                VoidInstKind::SetDiscriminant { ptr: ptr.finalize(), ty, idx }
            },
        }
    }
}

/// `b` is the instruction `a` with every branded id replaced by its index.
pub open spec fn instruction_finalized<'ir>(a: Instruction<Branded<'ir>>, b: Instruction<Finalized>) -> bool {
    match (a, b) {
        (Instruction::Call { dest, id, args }, Instruction::Call { dest: d, id: i, args: r }) => {
            &&& i == id
            &&& vals_finalized(args@, r@)
            &&& match (dest, d) {
                (None, None) => true,
                (Some(x), Some(y)) => y.index() == x.index(),
                _ => false,
            }
        },
        (Instruction::Void(k), Instruction::Void(l)) => void_inst_finalized(k, l),
        (Instruction::Value { def, kind }, Instruction::Value { def: d, kind: k }) => d.index()
            == def.index() && value_inst_finalized(kind, k),
        _ => false,
    }
}

impl<'ir> Instruction<Branded<'ir>> {
    /// The instruction with every branded id replaced by its index.
    pub fn finalize(self) -> (r: Instruction<Finalized>)
        ensures
            instruction_finalized(self, r),
    {
        match self {
            Instruction::Call { dest, id, args } => {
                let d = match dest {
                    Some(def) => Some(def.finalize()),
                    None => None,
                };
                Instruction::Call { dest: d, id, args: finalize_vals(&args) }
            },
            Instruction::Void(kind) => Instruction::Void(kind.finalize()),
            Instruction::Value { def, kind } => Instruction::Value {
                def: def.finalize(),
                kind: kind.finalize(),
            },
        }
    }
}

impl<'ir> BlockTarget<Branded<'ir>> {
    /// The target with its block and values replaced by indices.
    pub fn finalize(self) -> (r: BlockTarget<Finalized>)
        ensures
            target_finalized(self, r),
    {
        BlockTarget { params: finalize_vals(&self.params), block: self.block.finalize() }
    }
}

impl<'ir> Terminator<Branded<'ir>> {
    /// The terminator with its blocks and values replaced by indices.
    pub fn finalize(self) -> (r: Terminator<Finalized>)
        ensures
            terminator_finalized(self, r),
    {
        match self {
            Terminator::Goto(block_target) => Terminator::Goto(block_target.finalize()),
            Terminator::Br { cond, if_true, if_false } => Terminator::Br {
                cond: cond.finalize(),
                if_true: if_true.finalize(),
                if_false: if_false.finalize(),
            },
            Terminator::Switch { on, branches, default } => {
                let ghost old_branches = branches@;
                let ghost n = old_branches.len();
                let mut branches = branches;
                let mut stack: Vec<(u128, BlockTarget<Branded<'ir>>)> = Vec::new();
                while branches.len() > 0
                    invariant
                        branches@ == old_branches.take(branches@.len() as int),
                        stack@.len() + branches@.len() == n,
                        n == old_branches.len(),
                        forall|j: int|
                            0 <= j < stack@.len() ==> #[trigger] stack@[j] == old_branches[n - 1
                                - j],
                    decreases branches@.len(),
                {
                    let b = branches.pop().unwrap();
                    stack.push(b);
                    proof {
                        assert(branches@ =~= old_branches.take(branches@.len() as int));
                    }
                }
                let ghost stack0 = stack@;
                let mut out: Vec<(u128, BlockTarget<Finalized>)> = Vec::new();
                while stack.len() > 0
                    invariant
                        stack@ == stack0.take(stack@.len() as int),
                        stack0.len() == n,
                        n == old_branches.len(),
                        forall|j: int| 0 <= j < n ==> #[trigger] stack0[j] == old_branches[n - 1 - j],
                        out@.len() + stack@.len() == n,
                        forall|i: int|
                            0 <= i < out@.len() ==> #[trigger] out@[i].0 == old_branches[i].0
                                && target_finalized(old_branches[i].1, out@[i].1),
                    decreases stack@.len(),
                {
                    let (value, target) = stack.pop().unwrap();
                    proof {
                        let k = out@.len() as int;
                        assert(stack0[stack@.len() as int] == old_branches[k]);
                        assert(stack@ =~= stack0.take(stack@.len() as int));
                    }
                    out.push((value, target.finalize()));
                }
                Terminator::Switch { on: on.finalize(), branches: out, default: default.finalize() }
            },
            Terminator::Return(val) => {
                let v = match val {
                    Some(v) => Some(v.finalize()),
                    None => None,
                };
                Terminator::Return(v)
            },
            Terminator::Diverge => Terminator::Diverge,
        }
    }
}

/// A block of a body being built; its terminator is set last.
pub struct BrandedBlockData<'ir> {
    pub name: Option<Symbol>,
    pub params: Vec<ValueDef<'ir>>,
    pub insts: Vec<Instruction<Branded<'ir>>>,
    pub terminator: Option<Terminator<Branded<'ir>>>,
}

impl<'ir> BrandedBlockData<'ir> {
    /// The finished block: the same name, and parameters, instructions and
    /// terminator with every branded id replaced by its index.
    pub fn finalize(self) -> (r: BlockData)
        requires
            self.terminator is Some,
        ensures
            r.name == self.name,
            r.params@.len() == self.params@.len(),
            forall|i: int|
                0 <= i < self.params@.len() ==> #[trigger] r.params@[i].index()
                    == self.params@[i].index(),
            r.insts@.len() == self.insts@.len(),
            forall|i: int|
                0 <= i < self.insts@.len() ==> instruction_finalized(
                    self.insts@[i],
                    #[trigger] r.insts@[i],
                ),
            terminator_finalized(self.terminator->0, r.terminator),
    {
        let BrandedBlockData { name, params, insts, terminator } = self;
        let mut ps: Vec<Idx<LIRDef>> = Vec::new();
        let mut i: usize = 0;
        while i < params.len()
            invariant
                i <= params@.len(),
                ps@.len() == i,
                forall|j: int| 0 <= j < i ==> #[trigger] ps@[j].index() == params@[j].index(),
            decreases params@.len() - i,
        {
            ps.push(params[i].finalize());
            i += 1;
        }
        let ghost old_insts = insts@;
        let ghost n = old_insts.len();
        let mut insts = insts;
        let mut stack: Vec<Instruction<Branded<'ir>>> = Vec::new();
        while insts.len() > 0
            invariant
                insts@ == old_insts.take(insts@.len() as int),
                stack@.len() + insts@.len() == n,
                n == old_insts.len(),
                forall|j: int| 0 <= j < stack@.len() ==> #[trigger] stack@[j] == old_insts[n - 1 - j],
            decreases insts@.len(),
        {
            let inst = insts.pop().unwrap();
            stack.push(inst);
            proof {
                assert(insts@ =~= old_insts.take(insts@.len() as int));
            }
        }
        let ghost stack0 = stack@;
        let mut out: Vec<Instruction<Finalized>> = Vec::new();
        while stack.len() > 0
            invariant
                stack@ == stack0.take(stack@.len() as int),
                stack0.len() == n,
                n == old_insts.len(),
                forall|j: int| 0 <= j < n ==> #[trigger] stack0[j] == old_insts[n - 1 - j],
                out@.len() + stack@.len() == n,
                forall|i: int|
                    0 <= i < out@.len() ==> instruction_finalized(old_insts[i], #[trigger] out@[i]),
            decreases stack@.len(),
        {
            let inst = stack.pop().unwrap();
            proof {
                let k = out@.len() as int;
                assert(stack0[stack@.len() as int] == old_insts[k]);
                assert(stack@ =~= stack0.take(stack@.len() as int));
            }
            out.push(inst.finalize());
        }
        let t = match terminator {
            Some(t) => t,
            None => {
                proof {
                    assert(false);
                }
                Terminator::Diverge
            },
        };
        BlockData { name, params: ps, insts: out, terminator: t.finalize() }
    }
}

} // verus!
