//! Dead code elimination: keeps the blocks reachable from the entry, merges
//! chains of blocks that jump only to each other, and renumbers the locals
//! in the order they are met.
use vstd::prelude::*;
use crate::common::join::{join_names, joined, names_view};
use crate::common::Symbol;
use crate::mir::basic_block::{MIRBasicBlock, MIRTerminator, Stmt};
use crate::mir::builder::MIRBuilder;
use crate::mir::passes::MIRPass;
use crate::mir::operand::{
    MIRConstructorArgs, MIROperand, MIRPlace, MIRProjection, MIRRValue, MIRRValueKind, bounded,
    cons_args_uses, fields_uses, operand_uses, operands_uses, place_uses, projection_uses,
    projections_uses, rvalue_uses,
};
use crate::mir::{BlockID, LocalID, MIRLocal, Mir, predecessors_of, terminator_targets};
use crate::common::bitset::BitSet;
use crate::mir::basic_block::{self, stmt_locals_within, terminator_uses, terminator_defs};

verus! {

/// `m2` keeps every entry that `m1` has.
pub open spec fn map_extends(m1: Seq<Option<LocalID>>, m2: Seq<Option<LocalID>>) -> bool {
    &&& m1.len() == m2.len()
    &&& forall|l: int| 0 <= l < m1.len() && (#[trigger] m1[l]) is Some ==> m2[l] == m1[l]
}

/// The old local `a` is renamed `b`.
pub open spec fn renamed(m: Seq<Option<LocalID>>, a: LocalID, b: LocalID) -> bool {
    (a.0 as int) < m.len() && m[a.0 as int] == Some(b)
}

/// `b` is the operand `a` with its locals renamed by `m`.
pub open spec fn operand_copied(a: MIROperand, b: MIROperand, m: Seq<Option<LocalID>>) -> bool
    decreases a,
{
    match (a, b) {
        (MIROperand::Constant(c, s), MIROperand::Constant(d, t)) => c == d && s == t,
        (MIROperand::Move(p), MIROperand::Move(q)) => place_copied(p, q, m),
        (MIROperand::Copy(p), MIROperand::Copy(q)) => place_copied(p, q, m),
        _ => false,
    }
}

/// `b` is the place `a` with its locals renamed by `m`.
pub open spec fn place_copied(a: MIRPlace, b: MIRPlace, m: Seq<Option<LocalID>>) -> bool
    decreases a,
{
    &&& renamed(m, a.local, b.local)
    &&& a.ty == b.ty
    &&& a.span == b.span
    &&& projs_copied(a.projections@, b.projections@, m)
}

pub open spec fn projs_copied(
    a: Seq<MIRProjection>,
    b: Seq<MIRProjection>,
    m: Seq<Option<LocalID>>,
) -> bool
    decreases a,
{
    &&& a.len() == b.len()
    &&& (a.len() > 0 ==> projs_copied(a.drop_last(), b.drop_last(), m) && proj_copied(
        a.last(),
        b.last(),
        m,
    ))
}

pub open spec fn proj_copied(a: MIRProjection, b: MIRProjection, m: Seq<Option<LocalID>>) -> bool
    decreases a,
{
    match (a, b) {
        (MIRProjection::Deref, MIRProjection::Deref) => true,
        (
            MIRProjection::Field { name, resulting_ty },
            MIRProjection::Field { name: n, resulting_ty: t },
        ) => n == name && t == resulting_ty,
        (
            MIRProjection::TupleField { index, resulting_ty },
            MIRProjection::TupleField { index: i, resulting_ty: t },
        ) => i == index && t == resulting_ty,
        (MIRProjection::Index { index }, MIRProjection::Index { index: j }) => operand_copied(
            index,
            j,
            m,
        ),
        (MIRProjection::Downcast { variant }, MIRProjection::Downcast { variant: v }) => v
            == variant,
        _ => false,
    }
}

pub open spec fn operands_copied(a: Seq<MIROperand>, b: Seq<MIROperand>, m: Seq<Option<LocalID>>) -> bool {
    &&& a.len() == b.len()
    &&& forall|i: int| 0 <= i < a.len() ==> operand_copied(#[trigger] a[i], b[i], m)
}

pub open spec fn fields_copied(
    a: Seq<(Symbol, MIROperand)>,
    b: Seq<(Symbol, MIROperand)>,
    m: Seq<Option<LocalID>>,
) -> bool {
    &&& a.len() == b.len()
    &&& forall|i: int| 0 <= i < a.len() ==> (#[trigger] a[i]).0 == b[i].0 && operand_copied(a[i].1, b[i].1, m)
}

pub open spec fn cons_args_copied(
    a: MIRConstructorArgs,
    b: MIRConstructorArgs,
    m: Seq<Option<LocalID>>,
) -> bool {
    match (a, b) {
        (MIRConstructorArgs::NoArgs, MIRConstructorArgs::NoArgs) => true,
        (MIRConstructorArgs::Tuple(x), MIRConstructorArgs::Tuple(y)) => operands_copied(x@, y@, m),
        (MIRConstructorArgs::Struct(x), MIRConstructorArgs::Struct(y)) => fields_copied(x@, y@, m),
        _ => false,
    }
}

/// `b` is the right-hand side `a` with its locals renamed by `m`.
pub open spec fn rvalue_copied(a: MIRRValue, b: MIRRValue, m: Seq<Option<LocalID>>) -> bool {
    &&& a.ty == b.ty
    &&& a.span == b.span
    &&& match (a.kind, b.kind) {
        (MIRRValueKind::Use(x), MIRRValueKind::Use(y)) => operand_copied(x, y, m),
        (MIRRValueKind::Ref(p, k), MIRRValueKind::Ref(q, l)) => place_copied(p, q, m) && k == l,
        (MIRRValueKind::AddressOf(p, k), MIRRValueKind::AddressOf(q, l)) => place_copied(p, q, m)
            && k == l,
        (MIRRValueKind::BinOp(o, x1, x2), MIRRValueKind::BinOp(p, y1, y2)) => o == p
            && operand_copied(x1, y1, m) && operand_copied(x2, y2, m),
        (MIRRValueKind::UnaryOp(o, x), MIRRValueKind::UnaryOp(p, y)) => o == p && operand_copied(
            x,
            y,
            m,
        ),
        (MIRRValueKind::Discriminant(p), MIRRValueKind::Discriminant(q)) => place_copied(p, q, m),
        (MIRRValueKind::Metadata(x), MIRRValueKind::Metadata(y)) => operand_copied(x, y, m),
        (MIRRValueKind::SizeOf(t), MIRRValueKind::SizeOf(u)) => t == u,
        (
            MIRRValueKind::Constructor { enum_ref, idx, args, span },
            MIRRValueKind::Constructor { enum_ref: e, idx: i, args: a2, span: s },
        ) => e == enum_ref && i == idx && s == span && cons_args_copied(args, a2, m),
        (
            MIRRValueKind::StructLit { struct_ref, fields, span },
            MIRRValueKind::StructLit { struct_ref: r, fields: f, span: s },
        ) => r == struct_ref && s == span && fields_copied(fields@, f@, m),
        (MIRRValueKind::Tuple(x, s), MIRRValueKind::Tuple(y, t)) => s == t && operands_copied(
            x@,
            y@,
            m,
        ),
        (MIRRValueKind::Cast(x, t), MIRRValueKind::Cast(y, u)) => t == u && operand_copied(x, y, m),
        _ => false,
    }
}

/// `b` is the statement `a` with its locals renamed by `m`.
pub open spec fn stmt_copied(a: Stmt, b: Stmt, m: Seq<Option<LocalID>>) -> bool {
    match (a, b) {
        (Stmt::Assign { dest, rvalue }, Stmt::Assign { dest: d, rvalue: r }) => place_copied(
            dest,
            d,
            m,
        ) && rvalue_copied(rvalue, r, m),
    }
}

/// Renamings stay valid when the map grows.
pub proof fn lemma_operand_copied_extends(
    a: MIROperand,
    b: MIROperand,
    m1: Seq<Option<LocalID>>,
    m2: Seq<Option<LocalID>>,
)
    requires
        operand_copied(a, b, m1),
        map_extends(m1, m2),
    ensures
        operand_copied(a, b, m2),
    decreases a,
{
    match (a, b) {
        (MIROperand::Move(p), MIROperand::Move(q)) => lemma_place_copied_extends(p, q, m1, m2),
        (MIROperand::Copy(p), MIROperand::Copy(q)) => lemma_place_copied_extends(p, q, m1, m2),
        _ => {},
    }
}

pub proof fn lemma_place_copied_extends(
    a: MIRPlace,
    b: MIRPlace,
    m1: Seq<Option<LocalID>>,
    m2: Seq<Option<LocalID>>,
)
    requires
        place_copied(a, b, m1),
        map_extends(m1, m2),
    ensures
        place_copied(a, b, m2),
    decreases a,
{
    assert(m1[a.local.0 as int] is Some);
    lemma_projs_copied_extends(a.projections@, b.projections@, m1, m2);
}

pub proof fn lemma_projs_copied_extends(
    a: Seq<MIRProjection>,
    b: Seq<MIRProjection>,
    m1: Seq<Option<LocalID>>,
    m2: Seq<Option<LocalID>>,
)
    requires
        projs_copied(a, b, m1),
        map_extends(m1, m2),
    ensures
        projs_copied(a, b, m2),
    decreases a,
{
    if a.len() > 0 {
        lemma_projs_copied_extends(a.drop_last(), b.drop_last(), m1, m2);
        lemma_proj_copied_extends(a.last(), b.last(), m1, m2);
    }
}

pub proof fn lemma_proj_copied_extends(
    a: MIRProjection,
    b: MIRProjection,
    m1: Seq<Option<LocalID>>,
    m2: Seq<Option<LocalID>>,
)
    requires
        proj_copied(a, b, m1),
        map_extends(m1, m2),
    ensures
        proj_copied(a, b, m2),
    decreases a,
{
    if let (MIRProjection::Index { index }, MIRProjection::Index { index: j }) = (a, b) {
        lemma_operand_copied_extends(index, j, m1, m2);
    }
}

pub proof fn lemma_operands_copied_extends(
    a: Seq<MIROperand>,
    b: Seq<MIROperand>,
    m1: Seq<Option<LocalID>>,
    m2: Seq<Option<LocalID>>,
)
    requires
        operands_copied(a, b, m1),
        map_extends(m1, m2),
    ensures
        operands_copied(a, b, m2),
{
    assert forall|i: int| 0 <= i < a.len() implies operand_copied(#[trigger] a[i], b[i], m2) by {
        lemma_operand_copied_extends(a[i], b[i], m1, m2);
    }
}

pub proof fn lemma_fields_copied_extends(
    a: Seq<(Symbol, MIROperand)>,
    b: Seq<(Symbol, MIROperand)>,
    m1: Seq<Option<LocalID>>,
    m2: Seq<Option<LocalID>>,
)
    requires
        fields_copied(a, b, m1),
        map_extends(m1, m2),
    ensures
        fields_copied(a, b, m2),
{
    assert forall|i: int| 0 <= i < a.len() implies (#[trigger] a[i]).0 == b[i].0 && operand_copied(
        a[i].1,
        b[i].1,
        m2,
    ) by {
        lemma_operand_copied_extends(a[i].1, b[i].1, m1, m2);
    }
}

pub proof fn lemma_rvalue_copied_extends(
    a: MIRRValue,
    b: MIRRValue,
    m1: Seq<Option<LocalID>>,
    m2: Seq<Option<LocalID>>,
)
    requires
        rvalue_copied(a, b, m1),
        map_extends(m1, m2),
    ensures
        rvalue_copied(a, b, m2),
{
    match (a.kind, b.kind) {
        (MIRRValueKind::Use(x), MIRRValueKind::Use(y)) => lemma_operand_copied_extends(x, y, m1, m2),
        (MIRRValueKind::Ref(p, _), MIRRValueKind::Ref(q, _)) => lemma_place_copied_extends(p, q, m1, m2),
        (MIRRValueKind::AddressOf(p, _), MIRRValueKind::AddressOf(q, _)) => lemma_place_copied_extends(
            p,
            q,
            m1,
            m2,
        ),
        (MIRRValueKind::BinOp(_, x1, x2), MIRRValueKind::BinOp(_, y1, y2)) => {
            lemma_operand_copied_extends(x1, y1, m1, m2);
            lemma_operand_copied_extends(x2, y2, m1, m2);
        },
        (MIRRValueKind::UnaryOp(_, x), MIRRValueKind::UnaryOp(_, y)) => lemma_operand_copied_extends(
            x,
            y,
            m1,
            m2,
        ),
        (MIRRValueKind::Discriminant(p), MIRRValueKind::Discriminant(q)) => lemma_place_copied_extends(
            p,
            q,
            m1,
            m2,
        ),
        (MIRRValueKind::Metadata(x), MIRRValueKind::Metadata(y)) => lemma_operand_copied_extends(
            x,
            y,
            m1,
            m2,
        ),
        (
            MIRRValueKind::Constructor { args, .. },
            MIRRValueKind::Constructor { args: a2, .. },
        ) => match (args, a2) {
            (MIRConstructorArgs::Tuple(x), MIRConstructorArgs::Tuple(y)) => lemma_operands_copied_extends(
                x@,
                y@,
                m1,
                m2,
            ),
            (MIRConstructorArgs::Struct(x), MIRConstructorArgs::Struct(y)) => lemma_fields_copied_extends(
                x@,
                y@,
                m1,
                m2,
            ),
            _ => {},
        },
        (MIRRValueKind::StructLit { fields, .. }, MIRRValueKind::StructLit { fields: f, .. }) => lemma_fields_copied_extends(
            fields@,
            f@,
            m1,
            m2,
        ),
        (MIRRValueKind::Tuple(x, _), MIRRValueKind::Tuple(y, _)) => lemma_operands_copied_extends(
            x@,
            y@,
            m1,
            m2,
        ),
        (MIRRValueKind::Cast(x, _), MIRRValueKind::Cast(y, _)) => lemma_operand_copied_extends(
            x,
            y,
            m1,
            m2,
        ),
        _ => {},
    }
}

pub proof fn lemma_stmt_copied_extends(
    a: Stmt,
    b: Stmt,
    m1: Seq<Option<LocalID>>,
    m2: Seq<Option<LocalID>>,
)
    requires
        stmt_copied(a, b, m1),
        map_extends(m1, m2),
    ensures
        stmt_copied(a, b, m2),
{
    match (a, b) {
        (Stmt::Assign { dest, rvalue }, Stmt::Assign { dest: d, rvalue: r }) => {
            lemma_place_copied_extends(dest, d, m1, m2);
            lemma_rvalue_copied_extends(rvalue, r, m1, m2);
        },
    }
}

/// Each statement of `b` is the one of `a` at the same place, renamed by `m`.
pub open spec fn stmts_copied(a: Seq<Stmt>, b: Seq<Stmt>, m: Seq<Option<LocalID>>) -> bool {
    &&& a.len() == b.len()
    &&& forall|i: int| 0 <= i < a.len() ==> stmt_copied(#[trigger] a[i], b[i], m)
}

pub proof fn lemma_stmts_copied_extends(
    a: Seq<Stmt>,
    b: Seq<Stmt>,
    m1: Seq<Option<LocalID>>,
    m2: Seq<Option<LocalID>>,
)
    requires
        stmts_copied(a, b, m1),
        map_extends(m1, m2),
    ensures
        stmts_copied(a, b, m2),
{
    assert forall|i: int| 0 <= i < a.len() implies stmt_copied(#[trigger] a[i], b[i], m2) by {
        lemma_stmt_copied_extends(a[i], b[i], m1, m2);
    }
}

/// The pass itself.
pub struct DeadCodeElimination;

/// Only the locals of the builder grew; its blocks are as they were.
pub open spec fn locals_only_grew(b1: MIRBuilder, b2: MIRBuilder) -> bool {
    &&& b2.wf()
    &&& b1.blocks_seq() == b2.blocks_seq()
    &&& b1.current() == b2.current()
    &&& b1.entry_id() == b2.entry_id()
    &&& b1.params() == b2.params()
    &&& b1.locals_seq().len() <= b2.locals_seq().len()
    &&& forall|i: int| 0 <= i < b1.locals_seq().len() ==> b2.locals_seq()[i] == b1.locals_seq()[i]
    &&& forall|i: int| 0 <= i < b1.blocks_seq().len() ==> b2.terminated(i) == b1.terminated(i)
}

/// No two old locals are renamed to the same new one.
pub open spec fn renaming_injective(m: Seq<Option<LocalID>>) -> bool {
    forall|l1: int, l2: int|
        0 <= l1 < m.len() && 0 <= l2 < m.len() && l1 != l2 && (#[trigger] m[l1]) is Some && (
        #[trigger] m[l2]) is Some ==> m[l1] != m[l2]
}

/// The new local `k` is the new name of some old local.
pub open spec fn has_origin(m: Seq<Option<LocalID>>, k: int) -> bool {
    exists|l: int| 0 <= l < m.len() && m[l] == Some(LocalID(k as usize))
}

/// What the pass works with: the old body, the new one being built, the
/// names the old locals got so far, and the reachable blocks with their
/// jumps among themselves.
pub struct DCECtx<'a> {
    mir: &'a Mir,
    b: MIRBuilder,
    local_map: Vec<Option<LocalID>>,
    reachable: Vec<usize>,
    predecessors: Vec<Vec<usize>>,
    successors: Vec<Vec<usize>>,
}

impl<'a> DCECtx<'a> {
    /// The names of the old locals are new locals with the same description.
    pub closed spec fn wf(&self) -> bool {
        &&& self.local_map@.len() == self.mir.locals@.len()
        &&& self.b.wf()
        &&& forall|l: int|
            0 <= l < self.local_map@.len() && (#[trigger] self.local_map@[l]) is Some ==> {
                let nl = self.local_map@[l]->0;
                &&& nl.0 < self.b.locals_seq().len()
                &&& self.b.locals_seq()[nl.0 as int] == self.mir.locals@[l]
            }
        &&& renaming_injective(self.local_map@)
        &&& forall|k: int| 0 <= k < self.b.locals_seq().len() ==> #[trigger] has_origin(self.local_map@, k)
    }

    /// The new name of `original`, made (as a copy of its description) the
    /// first time it is asked for.
    fn add_and_get_local_to_mapping(&mut self, original: LocalID) -> (r: LocalID)
        requires
            old(self).wf(),
            original.0 < old(self).mir.locals@.len(),
        ensures
            final(self).wf(),
            final(self).mir == old(self).mir,
            final(self).reachable == old(self).reachable,
            final(self).successors == old(self).successors,
            final(self).predecessors == old(self).predecessors,
            locals_only_grew(old(self).b, final(self).b),
            map_extends(old(self).local_map@, final(self).local_map@),
            renamed(final(self).local_map@, original, r),
            old(self).local_map@[original.0 as int] is Some ==> final(self).b == old(self).b,
    {
        if let Some(res) = self.local_map[original.0] {
            return res;
        }
        let description: MIRLocal = self.mir.locals[original.0];
        let ghost m0 = self.local_map@;
        let new_id = self.b.new_local(description);
        self.local_map.set(original.0, Some(new_id));
        proof {
            assert forall|l1: int, l2: int|
                0 <= l1 < self.local_map@.len() && 0 <= l2 < self.local_map@.len() && l1 != l2 && (
                #[trigger] self.local_map@[l1]) is Some && (#[trigger] self.local_map@[l2]) is Some implies self.local_map@[l1]
                != self.local_map@[l2] by {
                if l1 == original.0 as int {
                    assert(m0[l2] is Some);
                    assert((m0[l2]->0).0 < old(self).b.locals_seq().len());
                } else if l2 == original.0 as int {
                    assert(m0[l1] is Some);
                    assert((m0[l1]->0).0 < old(self).b.locals_seq().len());
                } else {
                    assert(m0[l1] is Some && m0[l2] is Some);
                }
            }
            assert forall|k: int| 0 <= k < self.b.locals_seq().len() implies #[trigger] has_origin(
                self.local_map@,
                k,
            ) by {
                if k == new_id.0 as int {
                    assert(self.local_map@[original.0 as int] == Some(LocalID(k as usize)));
                } else {
                    assert(has_origin(m0, k));
                    let l = choose|l: int| 0 <= l < m0.len() && m0[l] == Some(LocalID(k as usize));
                    assert(l != original.0 as int);
                    assert(self.local_map@[l] == Some(LocalID(k as usize)));
                }
            }
            assert forall|l: int|
                0 <= l < self.local_map@.len() && (#[trigger] self.local_map@[l]) is Some implies {
                let nl = self.local_map@[l]->0;
                &&& nl.0 < self.b.locals_seq().len()
                &&& self.b.locals_seq()[nl.0 as int] == self.mir.locals@[l]
            } by {
                if l != original.0 as int {
                    assert(old(self).local_map@[l] is Some);
                }
            }
        }
        new_id
    }

    fn copy_operand(&mut self, operand: &MIROperand) -> (r: MIROperand)
        requires
            old(self).wf(),
            bounded(operand_uses(*operand), old(self).mir.locals@.len()),
        ensures
            final(self).wf(),
            final(self).mir == old(self).mir,
            final(self).reachable == old(self).reachable,
            final(self).successors == old(self).successors,
            final(self).predecessors == old(self).predecessors,
            locals_only_grew(old(self).b, final(self).b),
            map_extends(old(self).local_map@, final(self).local_map@),
            operand_copied(*operand, r, final(self).local_map@),
        decreases operand,
    {
        match operand {
            MIROperand::Constant(cst, span) => MIROperand::Constant(cst.duplicate(), *span),
            MIROperand::Move(p) => MIROperand::Move(self.copy_place(p)),
            MIROperand::Copy(p) => MIROperand::Copy(self.copy_place(p)),
        }
    }

    fn copy_place(&mut self, place: &MIRPlace) -> (r: MIRPlace)
        requires
            old(self).wf(),
            bounded(place_uses(*place), old(self).mir.locals@.len()),
        ensures
            final(self).wf(),
            final(self).mir == old(self).mir,
            final(self).reachable == old(self).reachable,
            final(self).successors == old(self).successors,
            final(self).predecessors == old(self).predecessors,
            locals_only_grew(old(self).b, final(self).b),
            map_extends(old(self).local_map@, final(self).local_map@),
            place_copied(*place, r, final(self).local_map@),
        decreases place,
    {
        assert(place_uses(*place).contains(place.local.0 as nat));
        let local = self.add_and_get_local_to_mapping(place.local);
        let ghost m0 = self.local_map@;
        let mut projections: Vec<MIRProjection> = Vec::new();
        let mut i: usize = 0;
        while i < place.projections.len()
            invariant
                i <= place.projections@.len(),
                self.wf(),
                self.mir == old(self).mir,
                self.reachable == old(self).reachable,
                self.successors == old(self).successors,
                self.predecessors == old(self).predecessors,
                locals_only_grew(old(self).b, self.b),
                map_extends(old(self).local_map@, self.local_map@),
                map_extends(m0, self.local_map@),
                renamed(m0, place.local, local),
                bounded(place_uses(*place), self.mir.locals@.len()),
                projections@.len() == i,
                projs_copied(place.projections@.take(i as int), projections@, self.local_map@),
            decreases place.projections@.len() - i,
        {
            let ghost m1 = self.local_map@;
            let ghost pre = projections@;
            proof {
                assert(place.projections@.take(i + 1).drop_last() =~= place.projections@.take(
                    i as int,
                ));
                crate::mir::operand::lemma_projections_uses_prefix(place.projections@, i + 1);
                assert forall|l: nat| projection_uses(place.projections@[i as int]).contains(
                    l,
                ) implies l < self.mir.locals@.len() by {
                    assert(projections_uses(place.projections@.take(i + 1)).contains(l));
                    assert(projections_uses(place.projections@).contains(l));
                    assert(place_uses(*place).contains(l));
                }
                broadcast use vstd::std_specs::vec::axiom_vec_index_decreases;
                assert(decreases_to!(place.projections => place.projections[i as int]));
            }
            let p = self.copy_projection(&place.projections[i]);
            projections.push(p);
            proof {
                lemma_projs_copied_extends(
                    place.projections@.take(i as int),
                    pre,
                    m1,
                    self.local_map@,
                );
                assert(projections@.drop_last() =~= pre);
                assert(projs_copied(place.projections@.take(i + 1), projections@, self.local_map@));
            }
            i += 1;
        }
        proof {
            assert(place.projections@.take(place.projections@.len() as int) =~= place.projections@);
        }
        MIRPlace { local, projections, ty: place.ty, span: place.span }
    }

    fn copy_operands(&mut self, ops: &Vec<MIROperand>) -> (r: Vec<MIROperand>)
        requires
            old(self).wf(),
            bounded(operands_uses(ops@), old(self).mir.locals@.len()),
        ensures
            final(self).wf(),
            final(self).mir == old(self).mir,
            final(self).reachable == old(self).reachable,
            final(self).successors == old(self).successors,
            final(self).predecessors == old(self).predecessors,
            locals_only_grew(old(self).b, final(self).b),
            map_extends(old(self).local_map@, final(self).local_map@),
            operands_copied(ops@, r@, final(self).local_map@),
    {
        let mut out: Vec<MIROperand> = Vec::new();
        let mut i: usize = 0;
        while i < ops.len()
            invariant
                i <= ops@.len(),
                self.wf(),
                self.mir == old(self).mir,
                self.reachable == old(self).reachable,
                self.successors == old(self).successors,
                self.predecessors == old(self).predecessors,
                locals_only_grew(old(self).b, self.b),
                map_extends(old(self).local_map@, self.local_map@),
                bounded(operands_uses(ops@), self.mir.locals@.len()),
                out@.len() == i,
                operands_copied(ops@.take(i as int), out@, self.local_map@),
            decreases ops@.len() - i,
        {
            let ghost m1 = self.local_map@;
            let ghost pre = out@;
            proof {
                assert(ops@.take(i + 1).drop_last() =~= ops@.take(i as int));
                crate::mir::operand::lemma_operands_uses_prefix(ops@, i + 1);
                assert forall|l: nat| operand_uses(ops@[i as int]).contains(l) implies l
                    < self.mir.locals@.len() by {
                    assert(operands_uses(ops@.take(i + 1)).contains(l));
                }
            }
            let c = self.copy_operand(&ops[i]);
            out.push(c);
            proof {
                lemma_operands_copied_extends(ops@.take(i as int), pre, m1, self.local_map@);
                assert forall|j: int| 0 <= j < i + 1 implies operand_copied(
                    #[trigger] ops@.take(i + 1)[j],
                    out@[j],
                    self.local_map@,
                ) by {
                    if j < i {
                        assert(ops@.take(i + 1)[j] == ops@.take(i as int)[j]);
                        assert(out@[j] == pre[j]);
                    }
                }
            }
            i += 1;
        }
        proof {
            assert(ops@.take(ops@.len() as int) =~= ops@);
        }
        out
    }

    fn copy_fields(&mut self, fs: &Vec<(Symbol, MIROperand)>) -> (r: Vec<(Symbol, MIROperand)>)
        requires
            old(self).wf(),
            bounded(fields_uses(fs@), old(self).mir.locals@.len()),
        ensures
            final(self).wf(),
            final(self).mir == old(self).mir,
            final(self).reachable == old(self).reachable,
            final(self).successors == old(self).successors,
            final(self).predecessors == old(self).predecessors,
            locals_only_grew(old(self).b, final(self).b),
            map_extends(old(self).local_map@, final(self).local_map@),
            fields_copied(fs@, r@, final(self).local_map@),
    {
        let mut out: Vec<(Symbol, MIROperand)> = Vec::new();
        let mut i: usize = 0;
        while i < fs.len()
            invariant
                i <= fs@.len(),
                self.wf(),
                self.mir == old(self).mir,
                self.reachable == old(self).reachable,
                self.successors == old(self).successors,
                self.predecessors == old(self).predecessors,
                locals_only_grew(old(self).b, self.b),
                map_extends(old(self).local_map@, self.local_map@),
                bounded(fields_uses(fs@), self.mir.locals@.len()),
                out@.len() == i,
                fields_copied(fs@.take(i as int), out@, self.local_map@),
            decreases fs@.len() - i,
        {
            let ghost m1 = self.local_map@;
            let ghost pre = out@;
            proof {
                assert(fs@.take(i + 1).drop_last() =~= fs@.take(i as int));
                crate::mir::operand::lemma_fields_uses_prefix(fs@, i + 1);
                assert forall|l: nat| operand_uses(fs@[i as int].1).contains(l) implies l
                    < self.mir.locals@.len() by {
                    assert(fields_uses(fs@.take(i + 1)).contains(l));
                }
            }
            let c = self.copy_operand(&fs[i].1);
            out.push((fs[i].0, c));
            proof {
                lemma_fields_copied_extends(fs@.take(i as int), pre, m1, self.local_map@);
                assert forall|j: int| 0 <= j < i + 1 implies (#[trigger] fs@.take(i + 1)[j]).0
                    == out@[j].0 && operand_copied(fs@.take(i + 1)[j].1, out@[j].1, self.local_map@) by {
                    if j < i {
                        assert(fs@.take(i + 1)[j] == fs@.take(i as int)[j]);
                        assert(out@[j] == pre[j]);
                    }
                }
            }
            i += 1;
        }
        proof {
            assert(fs@.take(fs@.len() as int) =~= fs@);
        }
        out
    }

    fn copy_cons_args(&mut self, args: &MIRConstructorArgs) -> (r: MIRConstructorArgs)
        requires
            old(self).wf(),
            bounded(cons_args_uses(*args), old(self).mir.locals@.len()),
        ensures
            final(self).wf(),
            final(self).mir == old(self).mir,
            final(self).reachable == old(self).reachable,
            final(self).successors == old(self).successors,
            final(self).predecessors == old(self).predecessors,
            locals_only_grew(old(self).b, final(self).b),
            map_extends(old(self).local_map@, final(self).local_map@),
            cons_args_copied(*args, r, final(self).local_map@),
    {
        match args {
            MIRConstructorArgs::NoArgs => MIRConstructorArgs::NoArgs,
            MIRConstructorArgs::Tuple(ops) => MIRConstructorArgs::Tuple(self.copy_operands(ops)),
            MIRConstructorArgs::Struct(fields) => MIRConstructorArgs::Struct(self.copy_fields(fields)),
        }
    }

    /// The right-hand side with its locals renamed, new names being made as
    /// they are met.
    fn copy_rvalue(&mut self, rvalue: &MIRRValue) -> (r: MIRRValue)
        requires
            old(self).wf(),
            bounded(rvalue_uses(*rvalue), old(self).mir.locals@.len()),
        ensures
            final(self).wf(),
            final(self).mir == old(self).mir,
            final(self).reachable == old(self).reachable,
            final(self).successors == old(self).successors,
            final(self).predecessors == old(self).predecessors,
            locals_only_grew(old(self).b, final(self).b),
            map_extends(old(self).local_map@, final(self).local_map@),
            rvalue_copied(*rvalue, r, final(self).local_map@),
    {
        let kind = match &rvalue.kind {
            MIRRValueKind::Use(op) => MIRRValueKind::Use(self.copy_operand(op)),
            MIRRValueKind::Ref(p, m) => MIRRValueKind::Ref(self.copy_place(p), *m),
            MIRRValueKind::AddressOf(p, m) => MIRRValueKind::AddressOf(self.copy_place(p), *m),
            MIRRValueKind::BinOp(bop, l, r) => {
                proof {
                    assert forall|x: nat| operand_uses(*l).contains(x) implies x
                        < self.mir.locals@.len() by {
                        assert(rvalue_uses(*rvalue).contains(x));
                    }
                    assert forall|x: nat| operand_uses(*r).contains(x) implies x
                        < self.mir.locals@.len() by {
                        assert(rvalue_uses(*rvalue).contains(x));
                    }
                }
                let a = self.copy_operand(l);
                let ghost m1 = self.local_map@;
                let b = self.copy_operand(r);
                proof {
                    lemma_operand_copied_extends(*l, a, m1, self.local_map@);
                }
                MIRRValueKind::BinOp(*bop, a, b)
            },
            MIRRValueKind::UnaryOp(uop, op) => MIRRValueKind::UnaryOp(*uop, self.copy_operand(op)),
            MIRRValueKind::Discriminant(p) => MIRRValueKind::Discriminant(self.copy_place(p)),
            MIRRValueKind::Metadata(op) => MIRRValueKind::Metadata(self.copy_operand(op)),
            MIRRValueKind::SizeOf(t) => MIRRValueKind::SizeOf(*t),
            MIRRValueKind::Constructor { enum_ref, idx, args, span } => MIRRValueKind::Constructor {
                enum_ref: *enum_ref,
                idx: *idx,
                args: self.copy_cons_args(args),
                span: *span,
            },
            MIRRValueKind::StructLit { struct_ref, fields, span } => MIRRValueKind::StructLit {
                struct_ref: *struct_ref,
                fields: self.copy_fields(fields),
                span: *span,
            },
            MIRRValueKind::Tuple(ops, span) => MIRRValueKind::Tuple(self.copy_operands(ops), *span),
            MIRRValueKind::Cast(op, t) => MIRRValueKind::Cast(self.copy_operand(op), *t),
        };
        MIRRValue { kind, ty: rvalue.ty, span: rvalue.span }
    }

    /// The statement with its locals renamed.
    fn copy_stmt(&mut self, stmt: &Stmt) -> (r: Stmt)
        requires
            old(self).wf(),
            stmt_locals_within(*stmt, old(self).mir.locals@.len()),
        ensures
            final(self).wf(),
            final(self).mir == old(self).mir,
            final(self).reachable == old(self).reachable,
            final(self).successors == old(self).successors,
            final(self).predecessors == old(self).predecessors,
            locals_only_grew(old(self).b, final(self).b),
            map_extends(old(self).local_map@, final(self).local_map@),
            stmt_copied(*stmt, r, final(self).local_map@),
    {
        match stmt {
            Stmt::Assign { dest, rvalue } => {
                let d = self.copy_place(dest);
                let ghost m1 = self.local_map@;
                let r = self.copy_rvalue(rvalue);
                proof {
                    lemma_place_copied_extends(*dest, d, m1, self.local_map@);
                }
                Stmt::Assign { dest: d, rvalue: r }
            },
        }
    }

    fn copy_projection(&mut self, proj: &MIRProjection) -> (r: MIRProjection)
        requires
            old(self).wf(),
            bounded(projection_uses(*proj), old(self).mir.locals@.len()),
        ensures
            final(self).wf(),
            final(self).mir == old(self).mir,
            final(self).reachable == old(self).reachable,
            final(self).successors == old(self).successors,
            final(self).predecessors == old(self).predecessors,
            locals_only_grew(old(self).b, final(self).b),
            map_extends(old(self).local_map@, final(self).local_map@),
            proj_copied(*proj, r, final(self).local_map@),
        decreases proj,
    {
        match proj {
            MIRProjection::Deref => MIRProjection::Deref,
            MIRProjection::Field { name, resulting_ty } => MIRProjection::Field {
                name: *name,
                resulting_ty: *resulting_ty,
            },
            MIRProjection::TupleField { index, resulting_ty } => MIRProjection::TupleField {
                index: *index,
                resulting_ty: *resulting_ty,
            },
            MIRProjection::Index { index } => MIRProjection::Index { index: self.copy_operand(index) },
            MIRProjection::Downcast { variant } => MIRProjection::Downcast { variant: *variant },
        }
    }
}

/// The blocks reachable from the entry: those in every set that holds the
/// entry and every block that a block of it may jump to.
pub open spec fn reachable_set(mir: Mir) -> Set<nat> {
    Set::new(
        |x: nat|
            forall|s: Set<nat>|
                mir.closed_under_jumps(s) && s.contains(mir.entry.0 as nat) ==> #[trigger] s.contains(
                    x,
                ),
    )
}

/// The reachable blocks below `k`, in increasing order.
pub open spec fn reach_upto(mir: Mir, k: nat) -> Seq<usize>
    decreases k,
{
    if k == 0 {
        seq![]
    } else {
        let r = reach_upto(mir, (k - 1) as nat);
        if reachable_set(mir).contains((k - 1) as nat) {
            r.push((k - 1) as usize)
        } else {
            r
        }
    }
}

/// The reachable blocks, in increasing order.
pub open spec fn reach_order(mir: Mir) -> Seq<usize> {
    reach_upto(mir, mir.blocks@.len())
}

/// The blocks a reachable block may jump to; none for the others.
pub open spec fn succ_set(mir: Mir, x: usize) -> Set<usize> {
    if reachable_set(mir).contains(x as nat) {
        mir.targets(x as int)
    } else {
        Set::empty()
    }
}

/// The reachable blocks that may jump to `y`.
pub open spec fn pred_set(mir: Mir, y: usize) -> Set<usize> {
    Set::new(|x: usize| succ_set(mir, x).contains(y))
}

/// Block `x` goes on with block `y` and nothing else: it ends in a goto to
/// `y`, and it is the only reachable block that may jump to `y`.
pub open spec fn linked(mir: Mir, x: usize, y: usize) -> bool {
    &&& mir.blocks@[x as int].terminator matches MIRTerminator::Goto { next } && next.0 == y
    &&& succ_set(mir, x) == set![y]
    &&& pred_set(mir, y) == set![x]
}

/// The paths split the reachable blocks: each path is a non-empty chain of
/// linked blocks, and every reachable block stands in exactly one place of
/// one path.
pub open spec fn paths_partition(
    mir: Mir,
    paths: Seq<Seq<usize>>,
) -> bool {
    &&& forall|i: int| 0 <= i < paths.len() ==> (#[trigger] paths[i]).len() > 0
    &&& forall|i: int, k: int|
        0 <= i < paths.len() && 0 <= k < paths[i].len() ==> reachable_set(mir).contains(
            (#[trigger] paths[i][k]) as nat,
        )
    &&& forall|x: nat|
        #[trigger] reachable_set(mir).contains(x) ==> exists|i: int, k: int|
            0 <= i < paths.len() && 0 <= k < paths[i].len() && paths[i][k] == x
    &&& forall|i1: int, k1: int, i2: int, k2: int|
        0 <= i1 < paths.len() && 0 <= k1 < paths[i1].len() && 0 <= i2 < paths.len() && 0 <= k2
            < paths[i2].len() && #[trigger] paths[i1][k1] == #[trigger] paths[i2][k2] ==> i1 == i2
            && k1 == k2
    &&& forall|i: int, k: int|
        0 <= i < paths.len() && 0 <= k < paths[i].len() - 1 ==> linked(mir, #[trigger] paths[i][k], paths[i][k + 1])
}

/// The paths after the path at `drop` is appended to the one at `keep`.
pub open spec fn merged(paths: Seq<Seq<usize>>, keep: int, drop: int) -> Seq<Seq<usize>> {
    paths.update(keep, paths[keep] + paths[drop]).remove(drop)
}

/// Where an entry of the merged paths stood before the merge.
pub open spec fn origin(paths: Seq<Seq<usize>>, keep: int, drop: int, i: int, k: int) -> (int, int) {
    let oi = if i < drop {
        i
    } else {
        i + 1
    };
    if oi == keep && k >= paths[keep].len() {
        (drop, k - paths[keep].len())
    } else {
        (oi, k)
    }
}

/// An entry of the merged paths is the entry of the old paths at its origin.
proof fn lemma_origin(paths: Seq<Seq<usize>>, keep: int, drop: int, i: int, k: int)
    requires
        0 <= keep < paths.len(),
        0 <= drop < paths.len(),
        keep != drop,
        0 <= i < merged(paths, keep, drop).len(),
        0 <= k < merged(paths, keep, drop)[i].len(),
    ensures
        0 <= origin(paths, keep, drop, i, k).0 < paths.len(),
        0 <= origin(paths, keep, drop, i, k).1 < paths[origin(paths, keep, drop, i, k).0].len(),
        merged(paths, keep, drop)[i][k] == paths[origin(paths, keep, drop, i, k).0][origin(
            paths,
            keep,
            drop,
            i,
            k,
        ).1],
{
    let q = merged(paths, keep, drop);
    let oi = if i < drop {
        i
    } else {
        i + 1
    };
    assert(q[i] == paths.update(keep, paths[keep] + paths[drop])[oi]);
}

/// Merging two paths whose ends are linked keeps the paths a partition of
/// the reachable blocks.
pub proof fn lemma_merge_keeps_partition(
    mir: Mir,
    paths: Seq<Seq<usize>>,
    keep: int,
    drop: int,
)
    requires
        paths_partition(mir, paths),
        0 <= keep < paths.len(),
        0 <= drop < paths.len(),
        keep != drop,
        linked(mir, paths[keep].last(), paths[drop][0]),
    ensures
        paths_partition(mir, merged(paths, keep, drop)),
        merged(paths, keep, drop).len() == paths.len() - 1,
{
    let q = merged(paths, keep, drop);
    let lk = paths[keep].len() as int;
    assert forall|i: int| 0 <= i < q.len() implies (#[trigger] q[i]).len() > 0 by {
        let oi = if i < drop {
            i
        } else {
            i + 1
        };
        assert(q[i] == paths.update(keep, paths[keep] + paths[drop])[oi]);
        assert(paths[oi].len() > 0);
    }
    assert forall|i: int, k: int|
        0 <= i < q.len() && 0 <= k < q[i].len() implies reachable_set(mir).contains((#[trigger] q[i][k]) as nat) by {
        lemma_origin(paths, keep, drop, i, k);
    }
    assert forall|x: nat| #[trigger] reachable_set(mir).contains(x) implies exists|i: int, k: int|
        0 <= i < q.len() && 0 <= k < q[i].len() && q[i][k] == x by {
        let (oi, ok) = choose|oi: int, ok: int|
            0 <= oi < paths.len() && 0 <= ok < paths[oi].len() && paths[oi][ok] == x;
        let ni = if keep < drop {
            if oi == drop {
                keep
            } else if oi < drop {
                oi
            } else {
                oi - 1
            }
        } else {
            if oi == drop {
                keep - 1
            } else if oi < drop {
                oi
            } else {
                oi - 1
            }
        };
        let nk = if oi == drop {
            lk + ok
        } else {
            ok
        };
        assert(origin(paths, keep, drop, ni, nk) == (oi, ok));
        assert(0 <= ni < q.len());
        let oni = if ni < drop {
            ni
        } else {
            ni + 1
        };
        assert(q[ni] == paths.update(keep, paths[keep] + paths[drop])[oni]);
        assert(0 <= nk < q[ni].len());
        assert(q[ni][nk] == x);
    }
    assert forall|i1: int, k1: int, i2: int, k2: int|
        0 <= i1 < q.len() && 0 <= k1 < q[i1].len() && 0 <= i2 < q.len() && 0 <= k2 < q[i2].len()
            && #[trigger] q[i1][k1] == #[trigger] q[i2][k2] implies i1 == i2 && k1 == k2 by {
        lemma_origin(paths, keep, drop, i1, k1);
        lemma_origin(paths, keep, drop, i2, k2);
    }
    assert forall|i: int, k: int|
        0 <= i < q.len() && 0 <= k < q[i].len() - 1 implies linked(mir, #[trigger] q[i][k], q[i][k + 1]) by {
        lemma_origin(paths, keep, drop, i, k);
        lemma_origin(paths, keep, drop, i, k + 1);
        let (a1, b1) = origin(paths, keep, drop, i, k);
        let (a2, b2) = origin(paths, keep, drop, i, k + 1);
        if a1 == keep && a2 == drop {
            assert(b1 == lk - 1);
            assert(b2 == 0);
            assert(paths[keep].last() == paths[keep][lk - 1]);
        } else {
            assert(a1 == a2 && b2 == b1 + 1);
        }
    }
}

impl<'a> DCECtx<'a> {
    /// The reachable blocks, as a set.
    pub closed spec fn reach(&self) -> Set<nat> {
        Set::new(|x: nat| x <= usize::MAX && self.reachable@.contains(x as usize))
    }

    /// The reachable blocks are known, in increasing order, with their jumps
    /// among themselves in both directions.
    #[verifier::opaque]
    pub closed spec fn setup(&self) -> bool {
        let n = self.mir.blocks@.len();
        &&& self.wf()
        &&& self.mir.jumps_within()
        &&& self.mir.locals_within()
        &&& self.reachable@ == reach_order(*self.mir)
        &&& forall|i: int, j: int|
            0 <= i < j < self.reachable@.len() ==> self.reachable@[i] < self.reachable@[j]
        &&& forall|i: int| 0 <= i < self.reachable@.len() ==> self.reachable@[i] < n
        &&& self.reach() == reachable_set(*self.mir)
        &&& self.reach().contains(self.mir.entry.0 as nat)
        &&& self.mir.closed_under_jumps(self.reach())
        &&& self.successors@.len() == n
        &&& self.predecessors@.len() == n
        &&& forall|b: int| 0 <= b < n ==> (#[trigger] self.successors@[b])@.no_duplicates()
        &&& forall|b: int| 0 <= b < n ==> (#[trigger] self.predecessors@[b])@.no_duplicates()
        &&& forall|b: int, k: int|
            0 <= b < n && 0 <= k < self.successors@[b]@.len() ==> (
            #[trigger] self.successors@[b]@[k]) < n
        &&& forall|b: int, k: int|
            0 <= b < n && 0 <= k < self.predecessors@[b]@.len() ==> (
            #[trigger] self.predecessors@[b]@[k]) < n
        &&& forall|b: int|
            0 <= b < n ==> (#[trigger] self.successors@[b])@.to_set() == succ_set(*self.mir, b as usize)
        &&& forall|b: int|
            0 <= b < n ==> (#[trigger] self.predecessors@[b])@.to_set() == pred_set(
                *self.mir,
                b as usize,
            )
        &&& forall|b: int, p: int|
            #![trigger self.predecessors@[b]@.contains(p as usize)]
            #![trigger self.successors@[p]@.contains(b as usize)]
            0 <= b < n && 0 <= p < n ==> (self.predecessors@[b]@.contains(p as usize)
                <==> self.successors@[p]@.contains(b as usize))
    }

    /// The body the pass works on.
    pub closed spec fn body(&self) -> Mir {
        *self.mir
    }

    /// Nothing is done yet: no local is renamed, and the builder holds one
    /// empty entry block with the old entry's name.
    pub closed spec fn fresh_for(&self, mir: Mir) -> bool {
        &&& self.mir == mir
        &&& forall|l: int| 0 <= l < self.local_map@.len() ==> self.local_map@[l] is None
        &&& self.b.blocks_seq().len() == 1
        &&& self.b.blocks_seq()[0].stmts@.len() == 0
        &&& self.b.blocks_seq()[0].name == mir.blocks@[mir.entry.0 as int].name
        &&& self.b.locals_seq().len() == 0
        &&& self.b.entry_id().0 == 0
        &&& self.b.current() == 0
        &&& !self.b.terminated(0)
        &&& self.b.params() is None
    }

    /// The context for `mir`: a builder whose entry block has the old entry's
    /// name, and no local renamed yet.
    pub fn new(mir: &'a Mir) -> (r: Self)
        requires
            mir.jumps_within(),
            mir.locals_within(),
        ensures
            r.wf(),
            r.fresh_for(*mir),
            r.body() == *mir,
    {
        let entry_name = match &mir.blocks[mir.entry.0].name {
            Some(name) => Some(name.clone()),
            None => None,
        };
        let b = MIRBuilder::new(entry_name);
        let mut local_map: Vec<Option<LocalID>> = Vec::new();
        let mut i: usize = 0;
        while i < mir.locals.len()
            invariant
                i <= mir.locals@.len(),
                local_map@.len() == i,
                forall|l: int| 0 <= l < i ==> local_map@[l] is None,
            decreases mir.locals@.len() - i,
        {
            local_map.push(None);
            i += 1;
        }
        DCECtx {
            mir,
            b,
            local_map,
            reachable: Vec::new(),
            predecessors: Vec::new(),
            successors: Vec::new(),
        }
    }

    /// Renames the parameters first, in order, and hands them to the builder.
    fn add_parameters(&mut self)
        requires
            old(self).wf(),
            old(self).mir.locals_within(),
            old(self).b.params() is None,
        ensures
            final(self).wf(),
            final(self).mir == old(self).mir,
            final(self).reachable == old(self).reachable,
            final(self).successors == old(self).successors,
            final(self).predecessors == old(self).predecessors,
            map_extends(old(self).local_map@, final(self).local_map@),
            final(self).b.blocks_seq() == old(self).b.blocks_seq(),
            final(self).b.current() == old(self).b.current(),
            final(self).b.entry_id() == old(self).b.entry_id(),
            forall|i: int|
                0 <= i < old(self).b.blocks_seq().len() ==> final(self).b.terminated(i) == old(self).b.terminated(i),
            final(self).b.params() matches Some(ps) && ps@.len() == final(self).mir.parameters@.len()
                && forall|i: int|
                0 <= i < ps@.len() ==> renamed(
                    final(self).local_map@,
                    final(self).mir.parameters@[i],
                    #[trigger] ps@[i],
                ),
    {
        let mut new_params: Vec<LocalID> = Vec::new();
        let mut i: usize = 0;
        while i < self.mir.parameters.len()
            invariant
                i <= self.mir.parameters@.len(),
                self.wf(),
                self.mir == old(self).mir,
                self.mir.locals_within(),
                self.reachable == old(self).reachable,
                self.successors == old(self).successors,
                self.predecessors == old(self).predecessors,
                locals_only_grew(old(self).b, self.b),
                map_extends(old(self).local_map@, self.local_map@),
                self.b.params() is None,
                new_params@.len() == i,
                forall|j: int|
                    0 <= j < i ==> renamed(
                        self.local_map@,
                        self.mir.parameters@[j],
                        #[trigger] new_params@[j],
                    ),
            decreases self.mir.parameters@.len() - i,
        {
            let ghost m1 = self.local_map@;
            assert(self.mir.parameters@[i as int].0 < self.mir.locals@.len());
            let nl = self.add_and_get_local_to_mapping(self.mir.parameters[i]);
            new_params.push(nl);
            proof {
                assert forall|j: int| 0 <= j < i + 1 implies renamed(
                    self.local_map@,
                    self.mir.parameters@[j],
                    #[trigger] new_params@[j],
                ) by {
                    if j < i {
                        assert(renamed(m1, self.mir.parameters@[j], new_params@[j]));
                        assert(m1[self.mir.parameters@[j].0 as int] is Some);
                    }
                }
            }
            i += 1;
        }
        self.b.set_parameters(new_params);
    }

    /// The blocks reachable from the entry, in increasing order.
    fn compute_reachable(&mut self)
        requires
            old(self).wf(),
            old(self).mir.jumps_within(),
        ensures
            final(self).wf(),
            final(self).mir == old(self).mir,
            final(self).b == old(self).b,
            final(self).local_map == old(self).local_map,
            final(self).successors == old(self).successors,
            final(self).predecessors == old(self).predecessors,
            forall|i: int, j: int|
                0 <= i < j < final(self).reachable@.len() ==> final(self).reachable@[i] < final(self).reachable@[j],
            forall|i: int|
                0 <= i < final(self).reachable@.len() ==> final(self).reachable@[i] < final(self).mir.blocks@.len(),
            final(self).reach().contains(final(self).mir.entry.0 as nat),
            final(self).mir.closed_under_jumps(final(self).reach()),
            final(self).reach() == reachable_set(*final(self).mir),
            final(self).reachable@ == reach_order(*final(self).mir),
    {
        let set = self.mir.compute_reachable(self.mir.entry);
        let n = self.mir.blocks.len();
        proof {
            assert(set.members() =~= reachable_set(*self.mir)) by {
                assert forall|x: nat| set.members().contains(x) implies reachable_set(*self.mir).contains(x) by {
                    assert forall|s: Set<nat>|
                        self.mir.closed_under_jumps(s) && s.contains(self.mir.entry.0 as nat) implies #[trigger] s.contains(x) by {
                        assert(set.members().subset_of(s));
                    }
                }
            }
        }
        let mut reachable: Vec<usize> = Vec::new();
        let mut i: usize = 0;
        while i < n
            invariant
                i <= n,
                set.capacity() == n,
                forall|j: int, k: int| 0 <= j < k < reachable@.len() ==> reachable@[j] < reachable@[k],
                forall|j: int| 0 <= j < reachable@.len() ==> reachable@[j] < i,
                forall|x: usize| reachable@.contains(x) <==> x < i && set.members().contains(x as nat),
                set.members() == reachable_set(*self.mir),
                reachable@ == reach_upto(*self.mir, i as nat),
            decreases n - i,
        {
            if set.contains(i) {
                let ghost before = reachable@;
                reachable.push(i);
                proof {
                    assert forall|x: usize| reachable@.contains(x) <==> x < i + 1
                        && set.members().contains(x as nat) by {
                        if x == i {
                            assert(reachable@[before.len() as int] == x);
                        }
                        if reachable@.contains(x) && x != i {
                            let j = choose|j: int| 0 <= j < reachable@.len() && reachable@[j] == x;
                            assert(before[j] == x);
                        }
                        if x < i && set.members().contains(x as nat) {
                            let j = choose|j: int| 0 <= j < before.len() && before[j] == x;
                            assert(reachable@[j] == x);
                        }
                    }
                }
            }
            i += 1;
        }
        self.reachable = reachable;
        proof {
            assert(self.reach() =~= set.members()) by {
                assert forall|x: nat| self.reach().contains(x) <==> set.members().contains(x) by {
                    if set.members().contains(x) {
                        set.lemma_members_below_capacity(x);
                        assert(self.reachable@.contains(x as usize));
                    }
                }
            }
        }
    }

    /// For every reachable block, the reachable blocks it may jump to; and
    /// for every block, the reachable blocks that may jump to it.
    fn compute_edges(&mut self)
        requires
            old(self).wf(),
            old(self).mir.jumps_within(),
            old(self).mir.locals_within(),
            forall|i: int, j: int|
                0 <= i < j < old(self).reachable@.len() ==> old(self).reachable@[i] < old(self).reachable@[j],
            forall|i: int| 0 <= i < old(self).reachable@.len() ==> old(self).reachable@[i] < old(self).mir.blocks@.len(),
            old(self).reach().contains(old(self).mir.entry.0 as nat),
            old(self).mir.closed_under_jumps(old(self).reach()),
            old(self).reach() == reachable_set(*old(self).mir),
            old(self).reachable@ == reach_order(*old(self).mir),
        ensures
            final(self).setup(),
            final(self).mir == old(self).mir,
            final(self).b == old(self).b,
            final(self).local_map == old(self).local_map,
            final(self).reachable == old(self).reachable,
    {
        proof {
            reveal(DCECtx::setup);
        }
        let n = self.mir.blocks.len();
        let all = self.mir.successors();
        let mut rs = BitSet::new(n);
        let mut i: usize = 0;
        while i < self.reachable.len()
            invariant
                i <= self.reachable@.len(),
                rs.capacity() == n,
                n == self.mir.blocks@.len(),
                forall|j: int| 0 <= j < self.reachable@.len() ==> self.reachable@[j] < n,
                forall|x: nat| rs.members().contains(x) <==> exists|j: int| 0 <= j < i && self.reachable@[j] == x,
            decreases self.reachable@.len() - i,
        {
            rs.insert(self.reachable[i]);
            proof {
                assert forall|x: nat| rs.members().contains(x) <==> exists|j: int|
                    0 <= j < i + 1 && self.reachable@[j] == x by {
                    if x == self.reachable@[i as int] {
                        assert(self.reachable@[i as int] == x);
                    }
                }
            }
            i += 1;
        }
        proof {
            assert forall|x: nat| rs.members().contains(x) <==> self.reach().contains(x) by {
                if self.reach().contains(x) {
                    let j = choose|j: int| 0 <= j < self.reachable@.len() && self.reachable@[j] == x as usize;
                    assert(self.reachable@[j] == x);
                }
            }
        }
        let mut succs: Vec<Vec<usize>> = Vec::new();
        let mut b: usize = 0;
        while b < n
            invariant
                b <= n,
                n == self.mir.blocks@.len(),
                all@.len() == n,
                forall|c: int| 0 <= c < n ==> #[trigger] all@[c]@.to_set() == self.mir.targets(c),
                forall|c: int| 0 <= c < n ==> (#[trigger] all@[c])@.no_duplicates(),
                self.mir.jumps_within(),
                forall|x: nat| rs.members().contains(x) <==> self.reach().contains(x),
                rs.capacity() == n,
                succs@.len() == b,
                forall|c: int| 0 <= c < b ==> (#[trigger] succs@[c])@.no_duplicates(),
                forall|c: int, k: int| 0 <= c < b && 0 <= k < succs@[c]@.len() ==> (#[trigger] succs@[c]@[k]) < n,
                forall|c: int|
                    0 <= c < b && #[trigger] self.reach().contains(c as nat) ==> succs@[c]@.to_set()
                        == self.mir.targets(c).filter(|t: usize| self.reach().contains(t as nat)),
                forall|c: int| 0 <= c < b && !(#[trigger] self.reach().contains(c as nat)) ==> succs@[c]@.len() == 0,
            decreases n - b,
        {
            let mut kept: Vec<usize> = Vec::new();
            if rs.contains(b) {
                let list = &all[b];
                proof {
                    assert forall|j: int| 0 <= j < list@.len() implies (#[trigger] list@[j]) < n by {
                        assert(list@.to_set().contains(list@[j]));
                        assert(self.mir.targets(b as int).contains(list@[j]));
                    }
                }
                let mut k: usize = 0;
                while k < list.len()
                    invariant
                        k <= list@.len(),
                        list == all@[b as int],
                        list@.no_duplicates(),
                        kept@.no_duplicates(),
                        forall|j: int| 0 <= j < kept@.len() ==> (#[trigger] kept@[j]) < n,
                        forall|j: int| 0 <= j < list@.len() ==> (#[trigger] list@[j]) < n,
                        forall|x: usize| kept@.contains(x) <==> (list@.take(k as int).contains(x)
                            && rs.members().contains(x as nat)),
                    decreases list@.len() - k,
                {
                    let t = list[k];
                    let ghost before = kept@;
                    if rs.contains(t) {
                        proof {
                            assert(!before.contains(t)) by {
                                if before.contains(t) {
                                    assert(list@.take(k as int).contains(t));
                                    let j = choose|j: int| 0 <= j < k && list@.take(k as int)[j] == t;
                                    assert(list@[j] == list@[k as int]);
                                }
                            }
                        }
                        kept.push(t);
                    }
                    proof {
                        assert forall|x: usize| kept@.contains(x) <==> (list@.take(k + 1).contains(x)
                            && rs.members().contains(x as nat)) by {
                            let longer = list@.take(k + 1);
                            let shorter = list@.take(k as int);
                            if longer.contains(x) && x != t {
                                let j = choose|j: int| 0 <= j < longer.len() && #[trigger] longer[j] == x;
                                assert(shorter[j] == x);
                            }
                            if shorter.contains(x) {
                                let j = choose|j: int| 0 <= j < shorter.len() && #[trigger] shorter[j] == x;
                                assert(longer[j] == x);
                            }
                            if x == t {
                                assert(longer[k as int] == t);
                            }
                            if kept@.contains(x) && !before.contains(x) {
                                assert(x == t);
                            }
                            if before.contains(x) {
                                let j = choose|j: int| 0 <= j < before.len() && #[trigger] before[j] == x;
                                assert(kept@[j] == x);
                            }
                            if x == t && rs.members().contains(x as nat) {
                                assert(kept@[kept@.len() - 1] == t);
                            }
                        }
                        assert forall|j: int| 0 <= j < kept@.len() implies (#[trigger] kept@[j]) < n by {
                            if j < before.len() {
                                assert(kept@[j] == before[j]);
                            }
                        }
                    }
                    k += 1;
                }
                proof {
                    assert(list@.take(list@.len() as int) =~= list@);
                    assert(kept@.to_set() =~= self.mir.targets(b as int).filter(
                        |t: usize| self.reach().contains(t as nat),
                    )) by {
                        assert forall|x: usize| kept@.to_set().contains(x) <==> self.mir.targets(
                            b as int,
                        ).filter(|t: usize| self.reach().contains(t as nat)).contains(x) by {
                            assert(list@.to_set().contains(x) <==> list@.contains(x));
                        }
                    }
                }
            }
            succs.push(kept);
            b += 1;
        }
        proof {
            assert forall|c: int|
                0 <= c < n && #[trigger] self.reach().contains(c as nat) implies succs@[c]@.to_set()
                    == self.mir.targets(c) by {
                assert(self.mir.targets(c).filter(|t: usize| self.reach().contains(t as nat))
                    =~= self.mir.targets(c)) by {
                    assert forall|t: usize| #[trigger] self.mir.targets(c).contains(t) implies self.reach().contains(
                        t as nat,
                    ) by {
                        assert(self.reach().contains(c as nat));
                    }
                }
            }
        }
        let preds = predecessors_of(&succs);
        self.successors = succs;
        self.predecessors = preds;
        proof {
            let mir = *self.mir;
            assert forall|c: int| 0 <= c < n implies (#[trigger] self.successors@[c])@.to_set() == succ_set(
                mir,
                c as usize,
            ) by {
                if !self.reach().contains(c as nat) {
                    assert(self.successors@[c]@.to_set() =~= Set::empty());
                }
            }
            assert forall|c: int| 0 <= c < n implies (#[trigger] self.predecessors@[c])@.to_set() == pred_set(
                mir,
                c as usize,
            ) by {
                assert forall|x: usize| self.predecessors@[c]@.to_set().contains(x) <==> pred_set(
                    mir,
                    c as usize,
                ).contains(x) by {
                    if self.predecessors@[c]@.contains(x) {
                        let k = choose|k: int| 0 <= k < self.predecessors@[c]@.len() && self.predecessors@[c]@[k] == x;
                        assert(self.predecessors@[c]@[k] < n);
                        assert(self.successors@[x as int]@.contains(c as usize));
                        assert(self.successors@[x as int]@.to_set().contains(c as usize));
                    }
                    if pred_set(mir, c as usize).contains(x) {
                        assert(succ_set(mir, x).contains(c as usize));
                        assert(self.reach().contains(x as nat));
                        assert((x as int) < n);
                        assert(self.successors@[x as int]@.to_set().contains(c as usize));
                        assert(self.predecessors@[c]@.contains((x as int) as usize));
                    }
                }
                assert(self.predecessors@[c]@.to_set() =~= pred_set(mir, c as usize));
            }
        }
    }
}


/// Whether the path `p2` goes on with `p1` (`Some(true)`), `p1` with `p2`
/// (`Some(false)`), or neither (`None`). The direction is the one in which
/// the last block of `p2` may jump to the first of `p1`, if it may, and the
/// other one if not.
pub open spec fn merge_check(
    mir: Mir,
    p1: Seq<usize>,
    p2: Seq<usize>,
) -> Option<bool> {
    let rev = succ_set(mir, p2.last()).contains(p1[0]);
    let a = if rev {
        p2
    } else {
        p1
    };
    let b = if rev {
        p1
    } else {
        p2
    };
    if linked(mir, a.last(), b[0]) {
        Some(rev)
    } else {
        None
    }
}

/// No pair of paths before `(i, j)`, in the order in which pairs are tried,
/// can be merged.
pub open spec fn no_merge_before(
    mir: Mir,
    paths: Seq<Seq<usize>>,
    i: int,
    j: int,
) -> bool {
    forall|i2: int, j2: int|
        0 <= j2 < i2 < paths.len() && (i2 < i || (i2 == i && j2 < j)) ==> #[trigger] merge_check(mir, paths[i2], paths[j2]) is None
}

/// `(i, j)` is the first pair of paths, `j < i`, tried in increasing order
/// of `i` and then of `j`, that can be merged.
pub open spec fn first_merge_at(
    mir: Mir,
    paths: Seq<Seq<usize>>,
    i: int,
    j: int,
) -> bool {
    &&& 0 <= j < i < paths.len()
    &&& merge_check(mir, paths[i], paths[j]) is Some
    &&& no_merge_before(mir, paths, i, j)
}

/// The paths after the pair `(i, j)` is merged in the direction `rev`.
pub open spec fn after_merge(paths: Seq<Seq<usize>>, i: int, j: int, rev: bool) -> Seq<Seq<usize>> {
    if rev {
        merged(paths, j, i)
    } else {
        merged(paths, i, j)
    }
}

/// The paths once the first mergeable pair is merged, again and again,
/// until none is left.
pub open spec fn merge_all(
    mir: Mir,
    paths: Seq<Seq<usize>>,
) -> Seq<Seq<usize>>
    decreases paths.len(),
{
    if exists|i: int, j: int| first_merge_at(mir, paths, i, j) {
        let (i, j) = choose|i: int, j: int| first_merge_at(mir, paths, i, j);
        let rev = merge_check(mir, paths[i], paths[j])->0;
        merge_all(mir, after_merge(paths, i, j, rev))
    } else {
        paths
    }
}

/// One path of one block for each block of `r`.
pub open spec fn singletons(r: Seq<usize>) -> Seq<Seq<usize>> {
    r.map_values(|b: usize| seq![b])
}

/// The contents of a list of paths.
pub open spec fn paths_view(v: Seq<Vec<usize>>) -> Seq<Seq<usize>> {
    v.map_values(|p: Vec<usize>| p@)
}

/// There is at most one first mergeable pair.
proof fn lemma_first_merge_unique(
    mir: Mir,
    paths: Seq<Seq<usize>>,
    i1: int,
    j1: int,
    i2: int,
    j2: int,
)
    requires
        first_merge_at(mir, paths, i1, j1),
        first_merge_at(mir, paths, i2, j2),
    ensures
        i1 == i2 && j1 == j2,
{
    if i1 < i2 || (i1 == i2 && j1 < j2) {
        assert(merge_check(mir, paths[i1], paths[j1]) is None);
    }
    if i2 < i1 || (i2 == i1 && j2 < j1) {
        assert(merge_check(mir, paths[i2], paths[j2]) is None);
    }
}

/// Whether `v` holds `x`.
fn vec_contains(v: &Vec<usize>, x: usize) -> (r: bool)
    ensures
        r == v@.contains(x),
{
    let mut i: usize = 0;
    while i < v.len()
        invariant
            i <= v@.len(),
            forall|k: int| 0 <= k < i ==> v@[k] != x,
        decreases v@.len() - i,
    {
        if v[i] == x {
            assert(v@[i as int] == x);
            return true;
        }
        i += 1;
    }
    false
}

impl<'a> DCECtx<'a> {
    /// Whether `p2` goes on with `p1` (`Some(true)`), `p1` with `p2`
    /// (`Some(false)`), or neither (`None`).
    fn can_compress_paths(&self, p1: &Vec<usize>, p2: &Vec<usize>) -> (r: Option<bool>)
        requires
            self.setup(),
            p1@.len() > 0,
            p2@.len() > 0,
            forall|k: int| 0 <= k < p1@.len() ==> self.reach().contains((#[trigger] p1@[k]) as nat),
            forall|k: int| 0 <= k < p2@.len() ==> self.reach().contains((#[trigger] p2@[k]) as nat),
        ensures
            r == merge_check(*self.mir, p1@, p2@),
    {
        proof {
            reveal(DCECtx::setup);
        }
        let ghost n = self.mir.blocks@.len();
        let p1_fst = p1[0];
        let p2_last = p2[p2.len() - 1];
        proof {
            assert(self.reach().contains(p1@[0] as nat));
            assert(self.reach().contains(p2@[p2@.len() - 1] as nat));
            assert(p2@.last() == p2_last);
        }
        let reversed = vec_contains(&self.successors[p2_last], p1_fst);
        let (a, b) = if reversed {
            (p2, p1)
        } else {
            (p1, p2)
        };
        let a_last = a[a.len() - 1];
        let b_fst = b[0];
        proof {
            assert(self.reach().contains(a@[a@.len() - 1] as nat));
            assert(self.reach().contains(b@[0] as nat));
            assert(a@.last() == a_last);
        }
        let ghost succs = self.successors@;
        let ghost preds = self.predecessors@;
        let ghost mir = *self.mir;
        proof {
            assert(self.reach().contains(p2_last as nat));
            assert((p2_last as int) < n);
            assert(succs[p2_last as int]@.to_set() == succ_set(mir, p2_last));
            assert(succs[p2_last as int]@.to_set().contains(p1_fst) == succs[p2_last as int]@.contains(p1_fst));
            assert(reversed == succ_set(mir, p2_last).contains(p1_fst));
            assert(self.reach().contains(a_last as nat));
            assert(self.reach().contains(b_fst as nat));
            assert((a_last as int) < n);
            assert((b_fst as int) < n);
            assert(succs[a_last as int]@.to_set() == succ_set(mir, a_last));
            assert(preds[b_fst as int]@.to_set() == pred_set(mir, b_fst));
            lemma_single_element(succs[a_last as int]@, b_fst);
            lemma_single_element(preds[b_fst as int]@, a_last);
        }
        match &self.mir.blocks[a_last].terminator {
            MIRTerminator::Goto { .. } => {},
            _ => {
                return None;
            },
        }
        if self.successors[a_last].len() != 1 {
            return None;
        }
        if self.predecessors[b_fst].len() != 1 {
            return None;
        }
        let a_next = self.successors[a_last][0];
        if a_next != b_fst {
            return None;
        }
        proof {
            assert(succs[a_last as int]@ =~= seq![b_fst]);
            assert(succs[a_last as int]@.contains(b_fst)) by {
                assert(succs[a_last as int]@[0] == b_fst);
            }
            assert(preds[b_fst as int]@.contains(a_last));
            let k = choose|k: int| 0 <= k < preds[b_fst as int]@.len() && preds[b_fst as int]@[k] == a_last;
            assert(k == 0);
            assert(preds[b_fst as int]@ =~= seq![a_last]);
            assert(succ_set(mir, a_last) == mir.targets(a_last as int));
            assert(succ_set(mir, a_last).contains(b_fst));
            assert(linked(mir, a_last, b_fst));
        }
        Some(reversed)
    }
}

/// A list without repeats holds exactly `y` when it is `[y]`.
proof fn lemma_single_element(s: Seq<usize>, y: usize)
    requires
        s.no_duplicates(),
    ensures
        s.to_set() == set![y] <==> s == seq![y],
{
    if s == seq![y] {
        assert(s.to_set() =~= set![y]) by {
            assert forall|x: usize| s.to_set().contains(x) <==> set![y].contains(x) by {
                if x == y {
                    assert(s[0] == y);
                }
            }
        }
    }
    if s.to_set() == set![y] {
        s.unique_seq_to_set();
        assert(set![y].len() == 1) by {
            assert(set![y] =~= Set::<usize>::empty().insert(y));
        }
        assert(s.len() == 1);
        assert(s.to_set().contains(s[0]));
        assert(s =~= seq![y]);
    }
}

/// The first pair of paths that can be merged, and the direction.
struct PathCompressionRes {
    i: usize,
    j: usize,
    reversed: bool,
}

impl<'a> DCECtx<'a> {
    /// The first pair `(i, j)`, `j < i`, tried in increasing order of `i`
    /// and then of `j`, whose paths can be merged; `None` if there is none.
    fn find_next_path_compression(&self, paths: &Vec<Vec<usize>>) -> (r: Option<PathCompressionRes>)
        requires
            self.setup(),
            paths_partition(*self.mir, paths_view(paths@)),
        ensures
            r matches Some(res) ==> first_merge_at(*self.mir, paths_view(paths@), res.i as int, res.j as int) && merge_check(*self.mir, paths_view(paths@)[res.i as int], paths_view(paths@)[res.j as int]) == Some(res.reversed),
            r is None ==> !exists|i: int, j: int|
                first_merge_at(*self.mir, paths_view(paths@), i, j),
    {
        proof {
            reveal(DCECtx::setup);
        }
        let ghost pv = paths_view(paths@);
        let ghost mir = *self.mir;
        let ghost succs = self.successors@;
        let ghost preds = self.predecessors@;
        let mut i: usize = 0;
        while i < paths.len()
            invariant
                self.setup(),
                pv == paths_view(paths@),
                mir == *self.mir,
                succs == self.successors@,
                preds == self.predecessors@,
                paths_partition(mir, pv),
                i <= paths@.len(),
                no_merge_before(mir, pv, i as int, 0),
            decreases paths@.len() - i,
        {
            proof {
                reveal(DCECtx::setup);
            }
            let mut j: usize = 0;
            while j < i
                invariant
                    self.setup(),
                    pv == paths_view(paths@),
                    mir == *self.mir,
                    succs == self.successors@,
                    preds == self.predecessors@,
                    paths_partition(mir, pv),
                    i < paths@.len(),
                    j <= i,
                    no_merge_before(mir, pv, i as int, j as int),
                decreases i - j,
            {
                proof {
                    reveal(DCECtx::setup);
                }
                proof {
                    assert(pv[i as int] == paths@[i as int]@);
                    assert(pv[j as int] == paths@[j as int]@);
                    assert(pv[i as int].len() > 0);
                    assert(pv[j as int].len() > 0);
                    assert forall|k: int| 0 <= k < paths@[i as int]@.len() implies self.reach().contains(
                        (#[trigger] paths@[i as int]@[k]) as nat,
                    ) by {
                        assert(pv[i as int][k] == paths@[i as int]@[k]);
                    }
                    assert forall|k: int| 0 <= k < paths@[j as int]@.len() implies self.reach().contains(
                        (#[trigger] paths@[j as int]@[k]) as nat,
                    ) by {
                        assert(pv[j as int][k] == paths@[j as int]@[k]);
                    }
                }
                match self.can_compress_paths(&paths[i], &paths[j]) {
                    Some(reversed) => {
                        return Some(PathCompressionRes { i, j, reversed });
                    },
                    None => {},
                }
                proof {
                    assert forall|i2: int, j2: int|
                        0 <= j2 < i2 < pv.len() && (i2 < i || (i2 == i && j2 < j + 1)) implies #[trigger] merge_check(mir, pv[i2], pv[j2]) is None by {
                        if !(i2 < i || (i2 == i && j2 < j)) {
                            assert(i2 == i && j2 == j);
                        }
                    }
                }
                j += 1;
            }
            i += 1;
        }
        proof {
            assert forall|i: int, j: int| !first_merge_at(mir, pv, i, j) by {
                if 0 <= j < i < pv.len() {
                    assert(merge_check(mir, pv[i], pv[j]) is None);
                }
            }
        }
        None
    }
}

impl<'a> DCECtx<'a> {
    /// Merges the pair `(i, j)`: the path at `i` is appended to the one at
    /// `j` if `reversed`, the one at `j` to the one at `i` otherwise.
    fn compress_paths(&self, paths: &mut Vec<Vec<usize>>, i: usize, j: usize, reversed: bool)
        requires
            j < i < old(paths)@.len(),
        ensures
            paths_view(final(paths)@) == after_merge(
                paths_view(old(paths)@),
                i as int,
                j as int,
                reversed,
            ),
    {
        let ghost pv = paths_view(paths@);
        if reversed {
            let mut p2 = paths.remove(i);
            let mut pj: Vec<usize> = Vec::new();
            std::mem::swap(&mut pj, &mut paths[j]);
            pj.append(&mut p2);
            paths.set(j, pj);
            proof {
                let q = merged(pv, j as int, i as int);
                assert(paths_view(paths@) =~= q) by {
                    assert forall|k: int| 0 <= k < q.len() implies paths_view(paths@)[k] == q[k] by {
                        let u = pv.update(j as int, pv[j as int] + pv[i as int]);
                        if k < i {
                            assert(q[k] == u[k]);
                        } else {
                            assert(q[k] == u[k + 1]);
                        }
                    }
                }
            }
        } else {
            let mut p2 = paths.remove(j);
            let mut pi: Vec<usize> = Vec::new();
            std::mem::swap(&mut pi, &mut paths[i - 1]);
            pi.append(&mut p2);
            paths.set(i - 1, pi);
            proof {
                let q = merged(pv, i as int, j as int);
                assert(paths_view(paths@) =~= q) by {
                    assert forall|k: int| 0 <= k < q.len() implies paths_view(paths@)[k] == q[k] by {
                        let u = pv.update(i as int, pv[i as int] + pv[j as int]);
                        if k < j {
                            assert(q[k] == u[k]);
                        } else {
                            assert(q[k] == u[k + 1]);
                        }
                    }
                }
            }
        }
    }

    /// The reachable blocks, one path each, merged pair by pair until no
    /// pair can be merged.
    fn compute_paths(&self) -> (r: Vec<Vec<usize>>)
        requires
            self.setup(),
        ensures
            paths_view(r@) == merge_all(*self.mir, singletons(self.reachable@)),
            paths_partition(*self.mir, paths_view(r@)),
            !exists|i: int, j: int|
                first_merge_at(*self.mir, paths_view(r@), i, j),
    {
        proof {
            reveal(DCECtx::setup);
        }
        let ghost mir = *self.mir;
        let ghost succs = self.successors@;
        let ghost preds = self.predecessors@;
        let ghost init = singletons(self.reachable@);
        let mut paths: Vec<Vec<usize>> = Vec::new();
        let mut k: usize = 0;
        while k < self.reachable.len()
            invariant
                k <= self.reachable@.len(),
                paths_view(paths@) == singletons(self.reachable@.take(k as int)),
            decreases self.reachable@.len() - k,
        {
            proof {
                reveal(DCECtx::setup);
            }
            let blk = self.reachable[k];
            let mut single: Vec<usize> = Vec::new();
            single.push(blk);
            let ghost before = paths_view(paths@);
            let ghost oldv = paths@;
            paths.push(single);
            proof {
                assert(single@ =~= seq![blk]);
                assert(before.len() == k);
                assert(oldv.len() == k);
                assert(paths@ == oldv.push(single));
                let t = self.reachable@.take(k + 1);
                assert(t =~= self.reachable@.take(k as int).push(blk));
                assert forall|x: int| 0 <= x < t.len() implies paths_view(paths@)[x] == singletons(t)[x] by {
                    if x < k {
                        assert(paths@[x] == oldv[x]);
                        assert(paths_view(paths@)[x] == paths@[x]@);
                        assert(before[x] == oldv[x]@);
                    } else {
                        assert(paths@[x] == single);
                    }
                }
                assert(paths_view(paths@) =~= singletons(t));
            }
            k += 1;
        }
        proof {
            assert(self.reachable@.take(self.reachable@.len() as int) =~= self.reachable@);
            let pv = paths_view(paths@);
            assert(pv == init);
            assert forall|i1: int, k1: int, i2: int, k2: int|
                0 <= i1 < pv.len() && 0 <= k1 < pv[i1].len() && 0 <= i2 < pv.len() && 0 <= k2
                    < pv[i2].len() && #[trigger] pv[i1][k1] == #[trigger] pv[i2][k2] implies i1 == i2
                && k1 == k2 by {
                assert(pv[i1][k1] == self.reachable@[i1]);
                assert(pv[i2][k2] == self.reachable@[i2]);
                if i1 < i2 {
                    assert(self.reachable@[i1] < self.reachable@[i2]);
                }
                if i2 < i1 {
                    assert(self.reachable@[i2] < self.reachable@[i1]);
                }
            }
            assert forall|x: nat| #[trigger] self.reach().contains(x) implies exists|i: int, k: int|
                0 <= i < pv.len() && 0 <= k < pv[i].len() && pv[i][k] == x by {
                let i = choose|i: int| 0 <= i < self.reachable@.len() && self.reachable@[i] == x as usize;
                assert(pv[i][0] == x);
            }
            assert forall|i: int, k: int| 0 <= i < pv.len() && 0 <= k < pv[i].len() implies self.reach().contains(
                (#[trigger] pv[i][k]) as nat,
            ) by {
                assert(pv[i][k] == self.reachable@[i]);
                assert(self.reachable@.contains(self.reachable@[i]));
            }
            assert(paths_partition(mir, pv));
        }
        loop
            invariant
                self.setup(),
                mir == *self.mir,
                succs == self.successors@,
                preds == self.predecessors@,
                init == singletons(self.reachable@),
                paths_partition(mir, paths_view(paths@)),
                merge_all(mir, init) == merge_all(mir, paths_view(paths@)),
            ensures
                paths_partition(mir, paths_view(paths@)),
                merge_all(mir, init) == paths_view(paths@),
                !exists|i: int, j: int| first_merge_at(mir, paths_view(paths@), i, j),
            decreases paths@.len(),
        {
            proof {
                reveal(DCECtx::setup);
            }
            let ghost pv = paths_view(paths@);
            match self.find_next_path_compression(&paths) {
                Some(res) => {
                    proof {
                        let (i2, j2) = choose|i: int, j: int| first_merge_at(mir, pv, i, j);
                        lemma_first_merge_unique(mir, pv, i2, j2, res.i as int, res.j as int);
                        assert(merge_all(mir, pv) == merge_all(mir, after_merge(pv, res.i as int, res.j as int, res.reversed)));
                        if res.reversed {
                            lemma_merge_keeps_partition(mir, pv, res.j as int, res.i as int);
                        } else {
                            lemma_merge_keeps_partition(mir, pv, res.i as int, res.j as int);
                        }
                    }
                    self.compress_paths(&mut paths, res.i, res.j, res.reversed);
                },
                None => {
                    break;
                },
            }
        }
        paths
    }
}

/// The new block that the old block `x` became: the block made for the
/// path that `x` heads.
pub open spec fn new_block_of(heads: Seq<Option<usize>>, bbs: Seq<BlockID>, x: BlockID) -> BlockID {
    bbs[heads[x.0 as int]->0 as int]
}

/// Every block `t` may jump to heads a path that has a new block.
pub open spec fn targets_mapped(t: MIRTerminator, heads: Seq<Option<usize>>, bbs: Seq<BlockID>) -> bool {
    forall|x: usize|
        #[trigger] terminator_targets(t).contains(x) ==> x < heads.len() && heads[x as int] is Some
            && heads[x as int]->0 < bbs.len()
}

/// `b` is the terminator `a` with its locals renamed by `m` and its jumps
/// sent to the new blocks.
pub open spec fn terminator_copied(
    a: MIRTerminator,
    b: MIRTerminator,
    m: Seq<Option<LocalID>>,
    heads: Seq<Option<usize>>,
    bbs: Seq<BlockID>,
) -> bool {
    match (a, b) {
        (MIRTerminator::Diverge, MIRTerminator::Diverge) => true,
        (
            MIRTerminator::Call { callee, arguments, dest, next, span },
            MIRTerminator::Call { callee: c, arguments: args, dest: d, next: nx, span: s },
        ) => c == callee && operands_copied(arguments@, args@, m) && renamed(m, dest, d) && nx
            == new_block_of(heads, bbs, next) && s == span,
        (MIRTerminator::Return { value, span }, MIRTerminator::Return { value: v, span: s }) => s
            == span && match (value, v) {
            (None, None) => true,
            (Some(x), Some(y)) => operand_copied(x, y, m),
            _ => false,
        },
        (MIRTerminator::Goto { next }, MIRTerminator::Goto { next: nx }) => nx == new_block_of(
            heads,
            bbs,
            next,
        ),
        (
            MIRTerminator::Branch { cond, then, else_, span },
            MIRTerminator::Branch { cond: c, then: t, else_: e, span: s },
        ) => operand_copied(cond, c, m) && t == new_block_of(heads, bbs, then) && e
            == new_block_of(heads, bbs, else_) && s == span,
        (
            MIRTerminator::Switch { discriminant, branches, default, span },
            MIRTerminator::Switch { discriminant: d, branches: br, default: df, span: s },
        ) => {
            &&& operand_copied(discriminant, d, m)
            &&& br@.len() == branches@.len()
            &&& forall|i: int|
                0 <= i < branches@.len() ==> (#[trigger] br@[i]).0 == branches@[i].0 && br@[i].1
                    == new_block_of(heads, bbs, branches@[i].1)
            &&& df == new_block_of(heads, bbs, default)
            &&& s == span
        },
        _ => false,
    }
}

impl<'a> DCECtx<'a> {
    /// The new block of the path that `old` heads.
    fn get_bb(&self, old: BlockID, bbs: &Vec<BlockID>, path_heads: &Vec<Option<usize>>) -> (r: BlockID)
        requires
            old.0 < path_heads@.len(),
            path_heads@[old.0 as int] is Some,
            path_heads@[old.0 as int]->0 < bbs@.len(),
        ensures
            r == new_block_of(path_heads@, bbs@, old),
    {
        match path_heads[old.0] {
            Some(i) => bbs[i],
            None => bbs[0],
        }
    }

    /// The terminator with its locals renamed and its jumps sent to the new
    /// blocks.
    fn copy_terminator(
        &mut self,
        terminator: &MIRTerminator,
        bbs: &Vec<BlockID>,
        path_heads: &Vec<Option<usize>>,
    ) -> (r: MIRTerminator)
        requires
            old(self).wf(),
            bounded(terminator_uses(*terminator), old(self).mir.locals@.len()),
            bounded(terminator_defs(*terminator), old(self).mir.locals@.len()),
            targets_mapped(*terminator, path_heads@, bbs@),
        ensures
            final(self).wf(),
            final(self).mir == old(self).mir,
            final(self).reachable == old(self).reachable,
            final(self).successors == old(self).successors,
            final(self).predecessors == old(self).predecessors,
            locals_only_grew(old(self).b, final(self).b),
            map_extends(old(self).local_map@, final(self).local_map@),
            terminator_copied(*terminator, r, final(self).local_map@, path_heads@, bbs@),
    {
        match terminator {
            MIRTerminator::Diverge => MIRTerminator::Diverge,
            MIRTerminator::Call { callee, arguments, dest, next, span } => {
                assert(terminator_targets(*terminator).contains(next.0));
                let args = self.copy_operands(arguments);
                let ghost m1 = self.local_map@;
                assert(terminator_defs(*terminator).contains(dest.0 as nat));
                let d = self.add_and_get_local_to_mapping(*dest);
                proof {
                    lemma_operands_copied_extends(arguments@, args@, m1, self.local_map@);
                }
                MIRTerminator::Call {
                    callee: *callee,
                    arguments: args,
                    dest: d,
                    next: self.get_bb(*next, bbs, path_heads),
                    span: *span,
                }
            },
            MIRTerminator::Return { value, span } => {
                let v = match value {
                    Some(op) => Some(self.copy_operand(op)),
                    None => None,
                };
                MIRTerminator::Return { value: v, span: *span }
            },
            MIRTerminator::Goto { next } => {
                assert(terminator_targets(*terminator).contains(next.0));
                MIRTerminator::Goto { next: self.get_bb(*next, bbs, path_heads) }
            },
            MIRTerminator::Branch { cond, then, else_, span } => {
                assert(terminator_targets(*terminator).contains(then.0));
                assert(terminator_targets(*terminator).contains(else_.0));
                MIRTerminator::Branch {
                    cond: self.copy_operand(cond),
                    then: self.get_bb(*then, bbs, path_heads),
                    else_: self.get_bb(*else_, bbs, path_heads),
                    span: *span,
                }
            },
            MIRTerminator::Switch { discriminant, branches, default, span } => {
                let d = self.copy_operand(discriminant);
                let mut br: Vec<(u128, BlockID)> = Vec::new();
                let mut i: usize = 0;
                while i < branches.len()
                    invariant
                        i <= branches@.len(),
                        br@.len() == i,
                        targets_mapped(*terminator, path_heads@, bbs@),
                        *terminator == (MIRTerminator::Switch {
                            discriminant: *discriminant,
                            branches: *branches,
                            default: *default,
                            span: *span,
                        }),
                        forall|k: int|
                            0 <= k < i ==> (#[trigger] br@[k]).0 == branches@[k].0 && br@[k].1
                                == new_block_of(path_heads@, bbs@, branches@[k].1),
                    decreases branches@.len() - i,
                {
                    let (v, t) = branches[i];
                    assert(terminator_targets(*terminator).contains(t.0));
                    br.push((v, self.get_bb(t, bbs, path_heads)));
                    i += 1;
                }
                assert(terminator_targets(*terminator).contains(default.0));
                MIRTerminator::Switch {
                    discriminant: d,
                    branches: br,
                    default: self.get_bb(*default, bbs, path_heads),
                    span: *span,
                }
            },
        }
    }
}

/// Where each block heads a path: the index of that path, or `None` for a
/// block that heads none.
pub open spec fn heads_of_paths(paths: Seq<Seq<usize>>, n: nat) -> Seq<Option<usize>> {
    Seq::new(
        n,
        |b: int|
            if exists|i: int| 0 <= i < paths.len() && paths[i][0] == b {
                Some((choose|i: int| 0 <= i < paths.len() && paths[i][0] == b) as usize)
            } else {
                None
            },
    )
}

/// The names of the blocks of a path that have one, in order.
pub open spec fn path_names(mir: Mir, path: Seq<usize>) -> Seq<Seq<char>>
    decreases path.len(),
{
    if path.len() == 0 {
        seq![]
    } else {
        let r = path_names(mir, path.drop_last());
        match mir.blocks@[path.last() as int].name {
            Some(name) => r.push(name@),
            None => r,
        }
    }
}

/// The name of a merged block: none if none of its blocks had one, the one
/// name if one had, and `merged-` followed by the names joined by `-`
/// otherwise.
pub open spec fn salvaged_name(names: Seq<Seq<char>>) -> Option<Seq<char>> {
    if names.len() == 0 {
        None
    } else if names.len() == 1 {
        Some(names[0])
    } else {
        Some("merged-"@ + joined(names, "-"@))
    }
}

impl<'a> DCECtx<'a> {
    /// For each block, the index of the path it heads, if any.
    fn compute_path_heads(&self, paths: &Vec<Vec<usize>>) -> (r: Vec<Option<usize>>)
        requires
            self.setup(),
            paths_partition(*self.mir, paths_view(paths@)),
        ensures
            r@ == heads_of_paths(paths_view(paths@), self.mir.blocks@.len()),
    {
        proof {
            reveal(DCECtx::setup);
        }
        let ghost pv = paths_view(paths@);
        let ghost mir = *self.mir;
        let n = self.mir.blocks.len();
        let mut heads: Vec<Option<usize>> = Vec::new();
        let mut b: usize = 0;
        while b < n
            invariant
                b <= n,
                heads@.len() == b,
                forall|c: int| 0 <= c < b ==> heads@[c] is None,
            decreases n - b,
        {
            proof {
                reveal(DCECtx::setup);
            }
            heads.push(None);
            b += 1;
        }
        let mut i: usize = 0;
        while i < paths.len()
            invariant
                self.setup(),
                mir == *self.mir,
                n == mir.blocks@.len(),
                pv == paths_view(paths@),
                paths_partition(mir, pv),
                i <= paths@.len(),
                heads@.len() == n,
                forall|i2: int| 0 <= i2 < i ==> heads@[pv[i2][0] as int] == Some(i2 as usize),
                forall|c: int|
                    0 <= c < n && (#[trigger] heads@[c]) is Some ==> (heads@[c]->0 as int) < i
                        && pv[heads@[c]->0 as int][0] == c,
            decreases paths@.len() - i,
        {
            proof {
                reveal(DCECtx::setup);
            }
            proof {
                assert(pv[i as int] == paths@[i as int]@);
                assert(pv[i as int].len() > 0);
                assert(reachable_set(mir).contains(pv[i as int][0] as nat));
                assert(self.reach().contains(pv[i as int][0] as nat));
            }
            let h = paths[i][0];
            proof {
                assert(h == pv[i as int][0]);
                assert((h as int) < n);
            }
            let ghost before = heads@;
            heads.set(h, Some(i));
            proof {
                assert forall|i2: int| 0 <= i2 < i + 1 implies heads@[pv[i2][0] as int] == Some(i2 as usize) by {
                    if i2 < i {
                        assert(pv[i2][0] != h) by {
                            if pv[i2][0] == h {
                                assert(pv[i2][0] == pv[i as int][0]);
                            }
                        }
                    }
                }
            }
            i += 1;
        }
        proof {
            let ph = heads_of_paths(pv, n as nat);
            assert forall|c: int| 0 <= c < n implies heads@[c] == ph[c] by {
                if exists|i: int| 0 <= i < pv.len() && pv[i][0] == c {
                    let i = choose|i: int| 0 <= i < pv.len() && pv[i][0] == c;
                    assert(heads@[pv[i][0] as int] == Some(i as usize));
                } else {
                    if heads@[c] is Some {
                        assert(pv[heads@[c]->0 as int][0] == c);
                    }
                }
            }
            assert(heads@ =~= ph);
        }
        heads
    }

    /// The name the merged block of a path gets.
    fn salvage_path_name(&self, path: &Vec<usize>) -> (r: Option<String>)
        requires
            self.setup(),
            forall|k: int| 0 <= k < path@.len() ==> (#[trigger] path@[k]) < self.mir.blocks@.len(),
        ensures
            match r {
                None => salvaged_name(path_names(*self.mir, path@)) is None,
                Some(name) => salvaged_name(path_names(*self.mir, path@)) == Some(name@),
            },
    {
        let ghost mir = *self.mir;
        let mut names: Vec<String> = Vec::new();
        let mut k: usize = 0;
        while k < path.len()
            invariant
                mir == *self.mir,
                k <= path@.len(),
                forall|j: int| 0 <= j < path@.len() ==> (#[trigger] path@[j]) < mir.blocks@.len(),
                names_view(names@) == path_names(mir, path@.take(k as int)),
            decreases path@.len() - k,
        {
            let ghost before = names@;
            match &self.mir.blocks[path[k]].name {
                Some(name) => {
                    names.push(name.clone());
                },
                None => {},
            }
            proof {
                assert(path@.take(k + 1).drop_last() =~= path@.take(k as int));
                assert(path@.take(k + 1).last() == path@[k as int]);
                assert(names_view(names@) =~= path_names(mir, path@.take(k + 1)));
            }
            k += 1;
        }
        proof {
            assert(path@.take(path@.len() as int) =~= path@);
        }
        if names.len() == 0 {
            return None;
        }
        if names.len() == 1 {
            return Some(names[0].clone());
        }
        let mut r = String::new();
        r.append("merged-");
        let tail = join_names(&names, "-");
        r.append(tail.as_str());
        Some(r)
    }
}

pub proof fn lemma_terminator_copied_extends(
    a: MIRTerminator,
    b: MIRTerminator,
    m1: Seq<Option<LocalID>>,
    m2: Seq<Option<LocalID>>,
    heads: Seq<Option<usize>>,
    bbs: Seq<BlockID>,
)
    requires
        terminator_copied(a, b, m1, heads, bbs),
        map_extends(m1, m2),
    ensures
        terminator_copied(a, b, m2, heads, bbs),
{
    match (a, b) {
        (
            MIRTerminator::Call { arguments, dest, .. },
            MIRTerminator::Call { arguments: args, .. },
        ) => {
            lemma_operands_copied_extends(arguments@, args@, m1, m2);
            assert(m1[dest.0 as int] is Some);
        },
        (MIRTerminator::Return { value, .. }, MIRTerminator::Return { value: v, .. }) => match (
            value,
            v,
        ) {
            (Some(x), Some(y)) => lemma_operand_copied_extends(x, y, m1, m2),
            _ => {},
        },
        (MIRTerminator::Branch { cond, .. }, MIRTerminator::Branch { cond: c, .. }) => lemma_operand_copied_extends(
            cond,
            c,
            m1,
            m2,
        ),
        (
            MIRTerminator::Switch { discriminant, .. },
            MIRTerminator::Switch { discriminant: d, .. },
        ) => lemma_operand_copied_extends(discriminant, d, m1, m2),
        _ => {},
    }
}

/// The statements of the blocks of a path, one block after the other.
pub open spec fn path_stmts(mir: Mir, path: Seq<usize>) -> Seq<Stmt>
    decreases path.len(),
{
    if path.len() == 0 {
        seq![]
    } else {
        path_stmts(mir, path.drop_last()) + mir.blocks@[path.last() as int].stmts@
    }
}

/// The new block of the path at `i`: the entry block for the path that the
/// old entry heads, and for the others the blocks made after it, in order.
pub open spec fn path_block(paths: Seq<Seq<usize>>, entry: usize, i: int) -> BlockID {
    if paths[i][0] == entry {
        BlockID(0)
    } else if exists|e: int| 0 <= e < i && paths[e][0] == entry {
        BlockID(i as usize)
    } else {
        BlockID((i + 1) as usize)
    }
}

/// The new block of each path.
pub open spec fn path_blocks(paths: Seq<Seq<usize>>, entry: usize) -> Seq<BlockID> {
    Seq::new(paths.len(), |i: int| path_block(paths, entry, i))
}

/// The contents of an optional name.
pub open spec fn opt_view(o: Option<String>) -> Option<Seq<char>> {
    match o {
        Some(s) => Some(s@),
        None => None,
    }
}

/// The new block `blk` is the path `path` merged: its statements one after
/// the other and the terminator of its last block, renamed by `m` and with
/// the jumps sent to the new blocks, under the salvaged name.
pub open spec fn block_merged(
    mir: Mir,
    path: Seq<usize>,
    blk: MIRBasicBlock,
    m: Seq<Option<LocalID>>,
    heads: Seq<Option<usize>>,
    bbs: Seq<BlockID>,
) -> bool {
    &&& stmts_copied(path_stmts(mir, path), blk.stmts@, m)
    &&& terminator_copied(mir.blocks@[path.last() as int].terminator, blk.terminator, m, heads, bbs)
    &&& opt_view(blk.name) == salvaged_name(path_names(mir, path))
}

proof fn lemma_block_merged_extends(
    mir: Mir,
    path: Seq<usize>,
    blk: MIRBasicBlock,
    m1: Seq<Option<LocalID>>,
    m2: Seq<Option<LocalID>>,
    heads: Seq<Option<usize>>,
    bbs: Seq<BlockID>,
)
    requires
        block_merged(mir, path, blk, m1, heads, bbs),
        map_extends(m1, m2),
    ensures
        block_merged(mir, path, blk, m2, heads, bbs),
{
    lemma_stmts_copied_extends(path_stmts(mir, path), blk.stmts@, m1, m2);
    lemma_terminator_copied_extends(
        mir.blocks@[path.last() as int].terminator,
        blk.terminator,
        m1,
        m2,
        heads,
        bbs,
    );
}

/// A block that the last block of a path may jump to heads a path.
proof fn lemma_last_targets_head(mir: Mir, paths: Seq<Seq<usize>>, i: int, x: usize)
    requires
        paths_partition(mir, paths),
        mir.closed_under_jumps(reachable_set(mir)),
        0 <= i < paths.len(),
        mir.targets(paths[i].last() as int).contains(x),
    ensures
        exists|i2: int| 0 <= i2 < paths.len() && paths[i2][0] == x,
{
    let len = paths[i].len() as int;
    let last = paths[i].last();
    assert(paths[i][len - 1] == last);
    assert(reachable_set(mir).contains(last as nat));
    assert(reachable_set(mir).contains(x as nat));
    let (i2, k2) = choose|i2: int, k2: int|
        0 <= i2 < paths.len() && 0 <= k2 < paths[i2].len() && paths[i2][k2] == x;
    if k2 > 0 {
        assert(linked(mir, paths[i2][k2 - 1], paths[i2][k2 - 1 + 1]));
        assert(succ_set(mir, last).contains(x));
        assert(pred_set(mir, x).contains(last));
        assert(pred_set(mir, x) == set![paths[i2][k2 - 1]]);
        assert(last == paths[i2][k2 - 1]);
        assert(paths[i][len - 1] == paths[i2][k2 - 1]);
    }
    assert(paths[i2][0] == x);
}

/// Distinct paths get distinct new blocks, where the old entry heads at
/// most one path.
proof fn lemma_path_block_distinct(paths: Seq<Seq<usize>>, entry: usize, i1: int, i2: int)
    requires
        forall|a: int, b: int|
            0 <= a < b < paths.len() ==> !(#[trigger] paths[a][0] == entry && #[trigger] paths[b][0]
                == entry),
        0 <= i1 < i2 < paths.len(),
        paths.len() <= usize::MAX,
    ensures
        path_block(paths, entry, i1) != path_block(paths, entry, i2),
{
    let b1 = path_block(paths, entry, i1);
    let b2 = path_block(paths, entry, i2);
    if paths[i1][0] == entry {
        assert(paths[i2][0] != entry);
        assert(exists|e: int| 0 <= e < i2 && paths[e][0] == entry);
        assert(b2.0 == i2);
    } else if paths[i2][0] == entry {
        if exists|e: int| 0 <= e < i1 && paths[e][0] == entry {
            let e = choose|e: int| 0 <= e < i1 && paths[e][0] == entry;
            assert(b1.0 == i1 && i1 > 0);
        }
    } else {
        if exists|e: int| 0 <= e < i2 && paths[e][0] == entry {
            let e = choose|e: int| 0 <= e < i2 && paths[e][0] == entry;
            if e < i1 {
                assert(exists|e: int| 0 <= e < i1 && paths[e][0] == entry);
            } else {
                assert(e != i1);
            }
        }
    }
}


impl<'a> DCECtx<'a> {
    /// Fills the current block with the statements of the blocks of `path`,
    /// renamed, and ends it with the renamed terminator of its last block.
    fn fill_path_block(&mut self, path: &Vec<usize>, bbs: &Vec<BlockID>, path_heads: &Vec<Option<usize>>)
        requires
            old(self).setup(),
            path@.len() > 0,
            forall|k: int| 0 <= k < path@.len() ==> (#[trigger] path@[k]) < old(self).mir.blocks@.len(),
            targets_mapped(
                old(self).mir.blocks@[path@.last() as int].terminator,
                path_heads@,
                bbs@,
            ),
            old(self).b.current() < old(self).b.blocks_seq().len(),
            !old(self).b.terminated(old(self).b.current() as int),
            old(self).b.blocks_seq()[old(self).b.current() as int].stmts@.len() == 0,
        ensures
            final(self).setup(),
            final(self).mir == old(self).mir,
            final(self).reachable == old(self).reachable,
            final(self).successors == old(self).successors,
            final(self).predecessors == old(self).predecessors,
            map_extends(old(self).local_map@, final(self).local_map@),
            final(self).b.current() == old(self).b.current(),
            final(self).b.entry_id() == old(self).b.entry_id(),
            final(self).b.params() == old(self).b.params(),
            final(self).b.blocks_seq().len() == old(self).b.blocks_seq().len(),
            forall|c: int|
                0 <= c < old(self).b.blocks_seq().len() && c != old(self).b.current() ==> final(self).b.blocks_seq()[c]
                    == old(self).b.blocks_seq()[c] && final(self).b.terminated(c) == old(self).b.terminated(c),
            final(self).b.terminated(old(self).b.current() as int),
            stmts_copied(
                path_stmts(*old(self).mir, path@),
                final(self).b.blocks_seq()[old(self).b.current() as int].stmts@,
                final(self).local_map@,
            ),
            terminator_copied(
                old(self).mir.blocks@[path@.last() as int].terminator,
                final(self).b.blocks_seq()[old(self).b.current() as int].terminator,
                final(self).local_map@,
                path_heads@,
                bbs@,
            ),
            final(self).b.blocks_seq()[old(self).b.current() as int].name == old(self).b.blocks_seq()[old(
                self,
            ).b.current() as int].name,
    {
        proof {
            reveal(DCECtx::setup);
        }
        let mir: &'a Mir = self.mir;
        let ghost c = self.b.current() as int;
        let ghost nblocks = self.b.blocks_seq().len();
        let ghost old_blocks = self.b.blocks_seq();
        let ghost m0 = self.local_map@;
        proof {
            assert(path@.take(0) =~= seq![]);
            assert(path_stmts(*mir, path@.take(0)) =~= seq![]);
        }
        let mut k: usize = 0;
        while k < path.len()
            invariant
                self.setup(),
                self.mir == mir,
                self.reachable == old(self).reachable,
                self.successors == old(self).successors,
                self.predecessors == old(self).predecessors,
                mir == old(self).mir,
                k <= path@.len(),
                forall|j: int| 0 <= j < path@.len() ==> (#[trigger] path@[j]) < mir.blocks@.len(),
                map_extends(m0, self.local_map@),
                self.b.current() == c,
                self.b.entry_id() == old(self).b.entry_id(),
                self.b.params() == old(self).b.params(),
                self.b.blocks_seq().len() == nblocks,
                0 <= c < nblocks,
                !self.b.terminated(c),
                forall|d: int|
                    0 <= d < nblocks && d != c ==> self.b.blocks_seq()[d] == old_blocks[d]
                        && self.b.terminated(d) == old(self).b.terminated(d),
                self.b.blocks_seq()[c].name == old_blocks[c].name,
                stmts_copied(
                    path_stmts(*mir, path@.take(k as int)),
                    self.b.blocks_seq()[c].stmts@,
                    self.local_map@,
                ),
            decreases path@.len() - k,
        {
            proof {
                reveal(DCECtx::setup);
            }
            let blk = path[k];
            let stmts = &mir.blocks[blk].stmts;
            proof {
                assert(mir.locals_within());
                assert(basic_block::block_all_locals_within(mir.blocks@[blk as int], mir.locals@.len()));
            }
            let ghost before = path_stmts(*mir, path@.take(k as int));
            let mut si: usize = 0;
            while si < stmts.len()
                invariant
                    self.setup(),
                    self.mir == mir,
                    self.reachable == old(self).reachable,
                    self.successors == old(self).successors,
                    self.predecessors == old(self).predecessors,
                    *stmts == mir.blocks@[blk as int].stmts,
                    basic_block::block_all_locals_within(mir.blocks@[blk as int], mir.locals@.len()),
                    si <= stmts@.len(),
                    map_extends(m0, self.local_map@),
                    self.b.current() == c,
                    self.b.entry_id() == old(self).b.entry_id(),
                    self.b.params() == old(self).b.params(),
                    self.b.blocks_seq().len() == nblocks,
                    0 <= c < nblocks,
                    !self.b.terminated(c),
                    forall|d: int|
                        0 <= d < nblocks && d != c ==> self.b.blocks_seq()[d] == old_blocks[d]
                            && self.b.terminated(d) == old(self).b.terminated(d),
                    self.b.blocks_seq()[c].name == old_blocks[c].name,
                    stmts_copied(
                        before + stmts@.take(si as int),
                        self.b.blocks_seq()[c].stmts@,
                        self.local_map@,
                    ),
                decreases stmts@.len() - si,
            {
                proof {
                    reveal(DCECtx::setup);
                }
                let ghost m1 = self.local_map@;
                let ghost cur = self.b.blocks_seq()[c].stmts@;
                let ghost b0 = self.b;
                assert(stmt_locals_within(stmts@[si as int], mir.locals@.len()));
                let st = self.copy_stmt(&stmts[si]);
                proof {
                    lemma_stmts_copied_extends(before + stmts@.take(si as int), cur, m1, self.local_map@);
                }
                let ghost b1 = self.b;
                self.b.emit(st);
                proof {
                    assert forall|d: int|
                        0 <= d < nblocks && d != c implies self.b.blocks_seq()[d] == old_blocks[d]
                            && self.b.terminated(d) == old(self).b.terminated(d) by {
                        assert(self.b.blocks_seq()[d] == b1.blocks_seq()[d]);
                        assert(self.b.terminated(d) == b1.terminated(d));
                        assert(b1.blocks_seq() == b0.blocks_seq());
                        assert(b1.terminated(d) == b0.terminated(d));
                        assert(b0.blocks_seq()[d] == old_blocks[d]);
                    }
                    let lhs = before + stmts@.take(si + 1);
                    assert(lhs =~= (before + stmts@.take(si as int)).push(stmts@[si as int]));
                    let rhs = self.b.blocks_seq()[c].stmts@;
                    assert(rhs == cur.push(st));
                    assert forall|i: int| 0 <= i < lhs.len() implies stmt_copied(#[trigger] lhs[i], rhs[i], self.local_map@) by {
                        if i < cur.len() {
                            assert(lhs[i] == (before + stmts@.take(si as int))[i]);
                            assert(rhs[i] == cur[i]);
                        }
                    }
                }
                si += 1;
            }
            proof {
                assert(stmts@.take(stmts@.len() as int) =~= stmts@);
                assert(path@.take(k + 1).drop_last() =~= path@.take(k as int));
                assert(path@.take(k + 1).last() == blk);
                assert(path_stmts(*mir, path@.take(k + 1)) == before + stmts@);
            }
            k += 1;
        }
        proof {
            assert(path@.take(path@.len() as int) =~= path@);
            assert(path@.last() == path@[path@.len() - 1]);
            assert(basic_block::block_all_locals_within(
                mir.blocks@[path@.last() as int],
                mir.locals@.len(),
            ));
        }
        let ghost m2 = self.local_map@;
        let ghost cur = self.b.blocks_seq()[c].stmts@;
        let t = self.copy_terminator(&mir.blocks[path[path.len() - 1]].terminator, bbs, path_heads);
        proof {
            lemma_stmts_copied_extends(path_stmts(*mir, path@), cur, m2, self.local_map@);
        }
        let done = self.b.terminate(t);
    }
}

/// Some path is headed by the old entry.
pub open spec fn entry_path_before(paths: Seq<Seq<usize>>, entry: usize, i: int) -> bool {
    exists|e: int| 0 <= e < i && paths[e][0] == entry
}

impl<'a> DCECtx<'a> {
    /// Makes the new block of each path, named after its blocks: the entry
    /// block for the path the old entry heads, a fresh block for the others.
    fn make_path_blocks(&mut self, paths: &Vec<Vec<usize>>) -> (bbs: Vec<BlockID>)
        requires
            old(self).setup(),
            paths_partition(*old(self).mir, paths_view(paths@)),
            old(self).b.blocks_seq().len() == 1,
            old(self).b.blocks_seq()[0].stmts@.len() == 0,
            old(self).b.entry_id().0 == 0,
            !old(self).b.terminated(0),
        ensures
            final(self).setup(),
            final(self).mir == old(self).mir,
            final(self).reachable == old(self).reachable,
            final(self).successors == old(self).successors,
            final(self).predecessors == old(self).predecessors,
            final(self).local_map == old(self).local_map,
            final(self).b.entry_id() == old(self).b.entry_id(),
            final(self).b.params() == old(self).b.params(),
            bbs@ == path_blocks(paths_view(paths@), old(self).mir.entry.0),
            final(self).b.blocks_seq().len() == if entry_path_before(
                paths_view(paths@),
                old(self).mir.entry.0,
                paths@.len() as int,
            ) {
                paths@.len() as int
            } else {
                paths@.len() + 1int
            },
            forall|c: int|
                0 <= c < final(self).b.blocks_seq().len() ==> !final(self).b.terminated(c)
                    && final(self).b.blocks_seq()[c].stmts@.len() == 0,
            forall|i: int|
                0 <= i < paths@.len() ==> opt_view(
                    final(self).b.blocks_seq()[bbs@[i].0 as int].name,
                ) == salvaged_name(path_names(*old(self).mir, #[trigger] paths_view(paths@)[i])),
    {
        proof {
            reveal(DCECtx::setup);
        }
        let ghost pv = paths_view(paths@);
        let ghost mir = *self.mir;
        let ghost entry = mir.entry.0;
        let mut bbs: Vec<BlockID> = Vec::new();
        let mut i: usize = 0;
        while i < paths.len()
            invariant
                self.setup(),
                self.mir == old(self).mir,
                mir == *self.mir,
                entry == mir.entry.0,
                self.reachable == old(self).reachable,
                self.successors == old(self).successors,
                self.predecessors == old(self).predecessors,
                self.local_map == old(self).local_map,
                self.b.entry_id() == old(self).b.entry_id(),
                self.b.params() == old(self).b.params(),
                self.b.entry_id().0 == 0,
                pv == paths_view(paths@),
                paths_partition(mir, pv),
                i <= paths@.len(),
                bbs@ == path_blocks(pv, entry).take(i as int),
                self.b.blocks_seq().len() == if entry_path_before(pv, entry, i as int) {
                    i as int
                } else {
                    i + 1int
                },
                forall|c: int|
                    0 <= c < self.b.blocks_seq().len() ==> !self.b.terminated(c)
                        && self.b.blocks_seq()[c].stmts@.len() == 0,
                forall|i2: int|
                    0 <= i2 < i ==> opt_view(self.b.blocks_seq()[bbs@[i2].0 as int].name)
                        == salvaged_name(path_names(mir, #[trigger] pv[i2])),
            decreases paths@.len() - i,
        {
            proof {
                reveal(DCECtx::setup);
            }
            proof {
                assert(pv[i as int] == paths@[i as int]@);
                assert(pv[i as int].len() > 0);
                assert forall|k: int| 0 <= k < paths@[i as int]@.len() implies (#[trigger] paths@[i as int]@[k])
                    < mir.blocks@.len() by {
                    assert(pv[i as int][k] == paths@[i as int]@[k]);
                    assert(reachable_set(mir).contains(pv[i as int][k] as nat));
                    assert(self.reach().contains(pv[i as int][k] as nat));
                }
            }
            let name = self.salvage_path_name(&paths[i]);
            let ghost bs0 = self.b.blocks_seq();
            let ghost len0 = bs0.len();
            let ghost names_i = salvaged_name(path_names(mir, pv[i as int]));
            proof {
                assert(opt_view(name) == names_i);
            }
            if paths[i][0] == self.mir.entry.0 {
                proof {
                    assert(pv[i as int][0] == entry);
                    assert(!entry_path_before(pv, entry, i as int)) by {
                        if entry_path_before(pv, entry, i as int) {
                            let e = choose|e: int| 0 <= e < i && pv[e][0] == entry;
                            assert(pv[e][0] == pv[i as int][0]);
                        }
                    }
                    assert(entry_path_before(pv, entry, i + 1));
                }
                let e = self.b.entry_block();
                let ghost b0 = self.b;
                self.b.set_block_name(e, name);
                bbs.push(e);
                proof {
                    assert forall|c: int| 0 <= c < self.b.blocks_seq().len() implies !self.b.terminated(c)
                        && self.b.blocks_seq()[c].stmts@.len() == 0 by {
                        assert(!b0.terminated(c));
                        assert(b0.blocks_seq()[c].stmts@.len() == 0);
                    }
                }
                proof {
                    assert(path_block(pv, entry, i as int) == BlockID(0));
                    assert(e == BlockID(0));
                }
            } else {
                proof {
                    assert(entry_path_before(pv, entry, i + 1) == entry_path_before(pv, entry, i as int)) by {
                        if entry_path_before(pv, entry, i + 1) {
                            let e = choose|e: int| 0 <= e < i + 1 && pv[e][0] == entry;
                            assert(e != i);
                        }
                    }
                }
                let ghost b0 = self.b;
                let nb = self.b.new_block(name);
                bbs.push(nb);
                proof {
                    assert forall|c: int| 0 <= c < self.b.blocks_seq().len() implies !self.b.terminated(c)
                        && self.b.blocks_seq()[c].stmts@.len() == 0 by {
                        if c < b0.blocks_seq().len() {
                            assert(!b0.terminated(c));
                            assert(b0.blocks_seq()[c].stmts@.len() == 0);
                        }
                    }
                }
                proof {
                    assert(path_block(pv, entry, i as int) == nb);
                }
            }
            proof {
                assert(bbs@ =~= path_blocks(pv, entry).take(i + 1));
                assert forall|i2: int|
                    0 <= i2 < i + 1 implies opt_view(self.b.blocks_seq()[bbs@[i2].0 as int].name)
                    == salvaged_name(path_names(mir, #[trigger] pv[i2])) by {
                    if i2 < i {
                        assert(bbs@[i2] == path_block(pv, entry, i2));
                        if pv[i as int][0] == entry {
                            assert(pv[i2][0] != entry) by {
                                if pv[i2][0] == entry {
                                    assert(pv[i2][0] == pv[i as int][0]);
                                }
                            }
                            if !entry_path_before(pv, entry, i2) {
                                assert(bbs@[i2].0 == i2 + 1);
                            } else {
                                let e = choose|e: int| 0 <= e < i2 && pv[e][0] == entry;
                                assert(pv[e][0] == pv[i as int][0]);
                            }
                        }
                        assert(self.b.blocks_seq()[bbs@[i2].0 as int] == bs0[bbs@[i2].0 as int]);
                    }
                }
            }
            i += 1;
        }
        proof {
            assert(path_blocks(pv, entry).take(paths@.len() as int) =~= path_blocks(pv, entry));
        }
        bbs
    }
}

impl<'a> DCECtx<'a> {
    /// Makes the new block of each path and fills it: the statements of
    /// the path's blocks and the terminator of its last block, renamed.
    #[verifier::rlimit(50)]
    fn compute_path_bodies(&mut self, paths: Vec<Vec<usize>>)
        requires
            old(self).setup(),
            paths_partition(*old(self).mir, paths_view(paths@)),
            old(self).b.blocks_seq().len() == 1,
            old(self).b.blocks_seq()[0].stmts@.len() == 0,
            old(self).b.entry_id().0 == 0,
            !old(self).b.terminated(0),
        ensures
            final(self).setup(),
            final(self).mir == old(self).mir,
            map_extends(old(self).local_map@, final(self).local_map@),
            final(self).b.entry_id() == old(self).b.entry_id(),
            final(self).b.params() == old(self).b.params(),
            final(self).b.blocks_seq().len() == if entry_path_before(
                paths_view(paths@),
                old(self).mir.entry.0,
                paths@.len() as int,
            ) {
                paths@.len() as int
            } else {
                paths@.len() + 1int
            },
            entry_path_before(paths_view(paths@), old(self).mir.entry.0, paths@.len() as int)
                ==> forall|c: int| 0 <= c < final(self).b.blocks_seq().len() ==> final(self).b.terminated(c),
            !entry_path_before(paths_view(paths@), old(self).mir.entry.0, paths@.len() as int)
                ==> !final(self).b.terminated(0),
            forall|i: int|
                0 <= i < paths@.len() ==> block_merged(
                    *old(self).mir,
                    #[trigger] paths_view(paths@)[i],
                    final(self).b.blocks_seq()[path_block(paths_view(paths@), old(self).mir.entry.0, i).0 as int],
                    final(self).local_map@,
                    heads_of_paths(paths_view(paths@), old(self).mir.blocks@.len()),
                    path_blocks(paths_view(paths@), old(self).mir.entry.0),
                ),
    {
        let ghost pv = paths_view(paths@);
        let ghost mir = *self.mir;
        let ghost entry = mir.entry.0;
        let ghost n = mir.blocks@.len();
        let path_heads = self.compute_path_heads(&paths);
        let bbs = self.make_path_blocks(&paths);
        let ghost nb = self.b.blocks_seq().len();
        let ghost m0 = self.local_map@;
        let ghost heads = path_heads@;
        let plen: usize = paths.len();
        proof {
            assert forall|a: int, b: int|
                0 <= a < b < pv.len() implies !(#[trigger] pv[a][0] == entry && #[trigger] pv[b][0] == entry) by {
                if pv[a][0] == entry && pv[b][0] == entry {
                    assert(pv[a][0] == pv[b][0]);
                }
            }
            assert(pv.len() == paths@.len());
            assert(paths@.len() == plen);
            lemma_path_blocks_span(pv, entry);
            assert forall|i2: int| 0 <= i2 < pv.len() implies (#[trigger] bbs@[i2]).0 < nb by {
                assert(bbs@[i2] == path_block(pv, entry, i2));
            }
        }
        proof {
            assert forall|i2: int|
                0 <= i2 < pv.len() implies !self.b.terminated((#[trigger] bbs@[i2]).0 as int)
                    && self.b.blocks_seq()[bbs@[i2].0 as int].stmts@.len() == 0 && opt_view(
                    self.b.blocks_seq()[bbs@[i2].0 as int].name,
                ) == salvaged_name(path_names(mir, pv[i2])) by {
                assert(bbs@[i2].0 < nb);
                let c = bbs@[i2].0 as int;
                assert(0 <= c < self.b.blocks_seq().len());
                assert(!self.b.terminated(c));
                assert(self.b.blocks_seq()[c].stmts@.len() == 0);
                assert(pv[i2] == paths_view(paths@)[i2]);
                assert(opt_view(self.b.blocks_seq()[bbs@[i2].0 as int].name) == salvaged_name(
                    path_names(mir, paths_view(paths@)[i2]),
                ));
            }
        }
        let mut i: usize = 0;
        while i < paths.len()
            invariant
                self.setup(),
                self.mir == old(self).mir,
                mir == *self.mir,
                entry == mir.entry.0,
                n == mir.blocks@.len(),
                self.b.entry_id() == old(self).b.entry_id(),
                self.b.params() == old(self).b.params(),
                pv == paths_view(paths@),
                paths_partition(mir, pv),
                forall|a: int, b: int|
                    0 <= a < b < pv.len() ==> !(#[trigger] pv[a][0] == entry && #[trigger] pv[b][0]
                        == entry),
                heads == heads_of_paths(pv, n),
                heads == path_heads@,
                bbs@ == path_blocks(pv, entry),
                forall|i2: int| 0 <= i2 < pv.len() ==> (#[trigger] bbs@[i2]).0 < nb,
                i <= paths@.len(),
                self.b.blocks_seq().len() == nb,
                map_extends(m0, self.local_map@),
                forall|i2: int|
                    0 <= i2 < i ==> self.b.terminated((#[trigger] bbs@[i2]).0 as int) && block_merged(
                        mir,
                        pv[i2],
                        self.b.blocks_seq()[bbs@[i2].0 as int],
                        self.local_map@,
                        heads,
                        bbs@,
                    ),
                forall|i2: int|
                    i <= i2 < pv.len() ==> !self.b.terminated((#[trigger] bbs@[i2]).0 as int)
                        && self.b.blocks_seq()[bbs@[i2].0 as int].stmts@.len() == 0 && opt_view(
                        self.b.blocks_seq()[bbs@[i2].0 as int].name,
                    ) == salvaged_name(path_names(mir, pv[i2])),
                forall|c: int|
                    0 <= c < nb && (forall|i2: int| 0 <= i2 < pv.len() ==> (#[trigger] bbs@[i2]).0 != c)
                        ==> !self.b.terminated(c),
            decreases paths@.len() - i,
        {
            let ghost b0 = self.b;
            let ghost m1 = self.local_map@;
            let bb = bbs[i];
            proof {
                assert(self.b.wf()) by {
                    reveal(DCECtx::setup);
                }
            }
            let switched = self.b.switch_to_block(bb);
            proof {
                assert(pv[i as int] == paths@[i as int]@);
                assert(pv[i as int].len() > 0);
                assert forall|k: int| 0 <= k < paths@[i as int]@.len() implies (#[trigger] paths@[i as int]@[k])
                    < mir.blocks@.len() by {
                    assert(pv[i as int][k] == paths@[i as int]@[k]);
                    assert(reachable_set(mir).contains(pv[i as int][k] as nat));
                    assert(self.mir.closed_under_jumps(reachable_set(mir))) by {
                        reveal(DCECtx::setup);
                    }
                }
                assert(mir.closed_under_jumps(reachable_set(mir)) && mir.jumps_within()) by {
                    reveal(DCECtx::setup);
                }
                let last = paths@[i as int]@.last();
                assert(last == pv[i as int].last());
                assert forall|x: usize| #[trigger] terminator_targets(mir.blocks@[last as int].terminator).contains(x)
                    implies x < heads.len() && heads[x as int] is Some && heads[x as int]->0 < bbs@.len() by {
                    assert(mir.targets(last as int).contains(x));
                    lemma_last_targets_head(mir, pv, i as int, x);
                    assert((last as int) < n);
                    assert((x as int) < n);
                    let w = choose|i2: int| 0 <= i2 < pv.len() && pv[i2][0] == x;
                    assert(exists|i2: int| 0 <= i2 < pv.len() && pv[i2][0] == x as int);
                }
            }
            proof {
                assert(self.setup()) by {
                    reveal(DCECtx::setup);
                }
            }
            self.fill_path_block(&paths[i], &bbs, &path_heads);
            proof {
                let c = bb.0 as int;
                assert forall|i2: int|
                    0 <= i2 < i + 1 implies self.b.terminated((#[trigger] bbs@[i2]).0 as int) && block_merged(
                    mir,
                    pv[i2],
                    self.b.blocks_seq()[bbs@[i2].0 as int],
                    self.local_map@,
                    heads,
                    bbs@,
                ) by {
                    if i2 < i {
                        lemma_path_block_distinct(pv, entry, i2, i as int);
                        assert(bbs@[i2] != bbs@[i as int]);
                        assert(self.b.blocks_seq()[bbs@[i2].0 as int] == b0.blocks_seq()[bbs@[i2].0 as int]);
                        lemma_block_merged_extends(
                            mir,
                            pv[i2],
                            self.b.blocks_seq()[bbs@[i2].0 as int],
                            m1,
                            self.local_map@,
                            heads,
                            bbs@,
                        );
                    } else {
                        assert(i2 == i);
                        assert(paths@[i as int]@ == pv[i as int]);
                    }
                }
                assert forall|i2: int|
                    i + 1 <= i2 < pv.len() implies !self.b.terminated((#[trigger] bbs@[i2]).0 as int)
                    && self.b.blocks_seq()[bbs@[i2].0 as int].stmts@.len() == 0 && opt_view(
                    self.b.blocks_seq()[bbs@[i2].0 as int].name,
                ) == salvaged_name(path_names(mir, pv[i2])) by {
                    lemma_path_block_distinct(pv, entry, i as int, i2);
                    assert(bbs@[i2] != bbs@[i as int]);
                }
                assert forall|c2: int|
                    0 <= c2 < nb && (forall|i2: int| 0 <= i2 < pv.len() ==> (#[trigger] bbs@[i2]).0 != c2)
                        implies !self.b.terminated(c2) by {
                    assert(bbs@[i as int].0 != c2);
                }
            }
            i += 1;
        }
        proof {
            lemma_path_blocks_span(pv, entry);
            if entry_path_before(pv, entry, pv.len() as int) {
                assert forall|c: int| 0 <= c < nb implies self.b.terminated(c) by {
                    assert(block_covered(pv, entry, c));
                    let i2 = choose|i2: int| 0 <= i2 < pv.len() && path_block(pv, entry, i2).0 == c;
                    assert(bbs@[i2].0 == c);
                }
            }
            assert forall|i2: int| 0 <= i2 < pv.len() implies block_merged(
                mir,
                #[trigger] pv[i2],
                self.b.blocks_seq()[path_block(pv, entry, i2).0 as int],
                self.local_map@,
                heads_of_paths(pv, n),
                path_blocks(pv, entry),
            ) by {
                assert(bbs@[i2] == path_block(pv, entry, i2));
            }
        }
    }
}

/// The new block `c` is the new block of some path.
pub open spec fn block_covered(paths: Seq<Seq<usize>>, entry: usize, c: int) -> bool {
    exists|i: int| 0 <= i < paths.len() && path_block(paths, entry, i).0 == c
}

/// The new blocks of the paths: each below the number of new blocks, block
/// `0` among them exactly when the old entry heads a path, and every new
/// block one of them when it does.
proof fn lemma_path_blocks_span(paths: Seq<Seq<usize>>, entry: usize)
    requires
        forall|a: int, b: int|
            0 <= a < b < paths.len() ==> !(#[trigger] paths[a][0] == entry && #[trigger] paths[b][0]
                == entry),
        paths.len() <= usize::MAX,
    ensures
        forall|i: int|
            0 <= i < paths.len() ==> (#[trigger] path_block(paths, entry, i)).0 < if entry_path_before(
                paths,
                entry,
                paths.len() as int,
            ) {
                paths.len() as int
            } else {
                paths.len() + 1int
            },
        !entry_path_before(paths, entry, paths.len() as int) ==> forall|i: int|
            0 <= i < paths.len() ==> (#[trigger] path_block(paths, entry, i)).0 != 0,
        entry_path_before(paths, entry, paths.len() as int) ==> forall|c: int|
            0 <= c < paths.len() ==> #[trigger] block_covered(paths, entry, c),
{
    let len = paths.len() as int;
    assert forall|i: int| 0 <= i < len implies (#[trigger] path_block(paths, entry, i)).0 < if entry_path_before(
        paths,
        entry,
        len,
    ) {
        len
    } else {
        len + 1int
    } by {
        if entry_path_before(paths, entry, len) && paths[i][0] != entry && !entry_path_before(
            paths,
            entry,
            i,
        ) {
            let e = choose|e: int| 0 <= e < len && paths[e][0] == entry;
            if e < i {
                assert(entry_path_before(paths, entry, i));
            }
        }
        if !entry_path_before(paths, entry, len) && entry_path_before(paths, entry, i) {
            let e = choose|e: int| 0 <= e < i && paths[e][0] == entry;
            assert(entry_path_before(paths, entry, len));
        }
    }
    if !entry_path_before(paths, entry, len) {
        assert forall|i: int| 0 <= i < len implies (#[trigger] path_block(paths, entry, i)).0 != 0 by {
            assert(paths[i][0] != entry) by {
                if paths[i][0] == entry {
                    assert(entry_path_before(paths, entry, len));
                }
            }
            if entry_path_before(paths, entry, i) {
                let e = choose|e: int| 0 <= e < i && paths[e][0] == entry;
                assert(entry_path_before(paths, entry, len));
            }
        }
    } else {
        let e = choose|e: int| 0 <= e < len && paths[e][0] == entry;
        assert forall|c: int| 0 <= c < len implies #[trigger] block_covered(paths, entry, c) by {
            if c == 0 {
                assert(path_block(paths, entry, e).0 == 0);
            } else if c <= e {
                let i = c - 1;
                assert(paths[i][0] != entry) by {
                    if paths[i][0] == entry {
                        assert(i < e);
                    }
                }
                assert(!entry_path_before(paths, entry, i)) by {
                    if entry_path_before(paths, entry, i) {
                        let e2 = choose|e2: int| 0 <= e2 < i && paths[e2][0] == entry;
                        assert(e2 < e);
                    }
                }
                assert(path_block(paths, entry, i).0 == c);
            } else {
                let i = c;
                assert(paths[i][0] != entry) by {
                    if paths[i][0] == entry {
                        assert(e < i);
                    }
                }
                assert(entry_path_before(paths, entry, i));
                assert(path_block(paths, entry, i).0 == c);
            }
        }
    }
}

/// The paths the pass merges the reachable blocks into: one path per
/// reachable block, in increasing order, merged pair by pair.
pub open spec fn dce_paths(mir: Mir) -> Seq<Seq<usize>> {
    merge_all(mir, singletons(reach_order(mir)))
}

/// The old entry heads one of the merged paths, so that the new entry block
/// is one of the merged blocks.
pub open spec fn entry_heads_path(mir: Mir) -> bool {
    entry_path_before(dce_paths(mir), mir.entry.0, dce_paths(mir).len() as int)
}

/// The locals of `r` are those of `mir` renamed by `m`: no two old locals
/// get the same name, each new local keeps the description of the old one
/// it names, every new local names one, and the parameters are renamed in
/// order.
pub open spec fn locals_renamed(mir: Mir, r: Mir, m: Seq<Option<LocalID>>) -> bool {
    &&& m.len() == mir.locals@.len()
    &&& renaming_injective(m)
    &&& forall|l: int|
        0 <= l < m.len() && (#[trigger] m[l]) is Some ==> (m[l]->0).0 < r.locals@.len()
            && r.locals@[(m[l]->0).0 as int] == mir.locals@[l]
    &&& forall|k: int| 0 <= k < r.locals@.len() ==> #[trigger] has_origin(m, k)
    &&& r.parameters@.len() == mir.parameters@.len()
    &&& forall|i: int|
        0 <= i < mir.parameters@.len() ==> renamed(m, mir.parameters@[i], #[trigger] r.parameters@[i])
}

/// `r` is what dead code elimination makes of `mir`: one block per merged
/// path, the one the old entry heads first, each holding the statements of
/// its path and the terminator of its last block, with the locals renamed
/// and the jumps sent to the new blocks.
pub open spec fn eliminated(mir: Mir, r: Mir) -> bool {
    let paths = dce_paths(mir);
    let entry = mir.entry.0;
    &&& r.blocks@.len() == paths.len()
    &&& r.entry == BlockID(0)
    &&& exists|m: Seq<Option<LocalID>>|
        locals_renamed(mir, r, m) && forall|i: int|
            0 <= i < paths.len() ==> block_merged(
                mir,
                #[trigger] paths[i],
                r.blocks@[path_block(paths, entry, i).0 as int],
                m,
                heads_of_paths(paths, mir.blocks@.len()),
                path_blocks(paths, entry),
            )
}

impl<'a> DCECtx<'a> {
    /// Runs the pass: renames the parameters, finds the reachable blocks and
    /// their jumps, merges them into paths, and builds one block per path.
    pub fn run(self) -> (r: Mir)
        requires
            self.wf(),
            self.fresh_for(self.body()),
            self.body().jumps_within(),
            self.body().locals_within(),
            entry_heads_path(self.body()),
        ensures
            eliminated(self.body(), r),
            paths_partition(self.body(), dce_paths(self.body())),
            !exists|i: int, j: int| first_merge_at(self.body(), dce_paths(self.body()), i, j),
    {
        let mut ctx = self;
        let ghost mir = *ctx.mir;
        ctx.add_parameters();
        ctx.compute_reachable();
        ctx.compute_edges();
        let paths = ctx.compute_paths();
        let ghost pv = paths_view(paths@);
        let ghost ps = ctx.b.params();
        let ghost m0 = ctx.local_map@;
        proof {
            assert(pv == dce_paths(mir));
        }
        ctx.compute_path_bodies(paths);
        let ghost m = ctx.local_map@;
        proof {
            reveal(DCECtx::setup);
            assert(forall|c: int| 0 <= c < ctx.b.blocks_seq().len() ==> ctx.b.terminated(c));
        }
        let r = ctx.b.finalize();
        let r = r.unwrap();
        proof {
            assert(locals_renamed(mir, r, m)) by {
                let pr = ps->0;
                assert(r.parameters == pr);
                assert forall|i: int| 0 <= i < mir.parameters@.len() implies renamed(
                    m,
                    mir.parameters@[i],
                    #[trigger] r.parameters@[i],
                ) by {
                    assert(renamed(m0, mir.parameters@[i], pr@[i]));
                    assert(m0[mir.parameters@[i].0 as int] is Some);
                }
            }
        }
        r
    }
}

impl MIRPass for DeadCodeElimination {
    /// Every jump and every local of the body stays within it, and the old
    /// entry heads one of the merged paths.
    open spec fn accepts(&self, mir: Mir) -> bool {
        &&& mir.jumps_within()
        &&& mir.locals_within()
        &&& entry_heads_path(mir)
    }

    open spec fn transforms(&self, mir: Mir, r: Mir) -> bool {
        eliminated(mir, r)
    }

    fn run(&self, mir: &Mir) -> (r: Mir) {
        DCECtx::new(mir).run()
    }
}
} // verus!
