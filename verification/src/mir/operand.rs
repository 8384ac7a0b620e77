//! Operands, places and right-hand sides of MIR statements, and the locals
//! they read.
use vstd::prelude::*;
use crate::common::bitset::BitSet;
use crate::common::{Span, Symbol};
use crate::hir::Mutability;
use crate::parse_tree::expr::BinaryOperator;
use crate::thir::FunctionRef;
use super::concrete_ty::{ConcreteEnumRef, ConcreteStructRef, ConcreteTy};
use super::{LocalID, Mir};

verus! {

/// A value an instruction reads: a constant, or a place moved or copied.
#[derive(Debug)]
pub enum MIROperand {
    Constant(MIRConstant, Span),
    Move(MIRPlace),
    Copy(MIRPlace),
}

/// A constant.
#[derive(Debug)]
pub enum MIRConstant {
    Integer { value: u128, ty: ConcreteTy },
    Bool(bool),
    CString { contents: String, null_terminated: bool },
}

/// A local and a path into it.
#[derive(Debug)]
pub struct MIRPlace {
    pub local: LocalID,
    pub projections: Vec<MIRProjection>,
    pub ty: ConcreteTy,
    pub span: Span,
}

/// One step of a path into a place.
#[derive(Debug)]
pub enum MIRProjection {
    Deref,
    Field { name: Symbol, resulting_ty: ConcreteTy },
    TupleField { index: u32, resulting_ty: ConcreteTy },
    Index { index: MIROperand },
    Downcast { variant: usize },
}

/// The right-hand side of an assignment, with its type.
pub struct MIRRValue {
    pub kind: MIRRValueKind,
    pub ty: ConcreteTy,
    pub span: Span,
}

/// Unary operators.
#[derive(Debug, Clone, Copy, PartialEq, Eq, Structural)]
pub enum UnaryOperator {
    /// `-x`
    Neg,
    /// `!x`
    LNot,
}

/// What a call calls.
#[derive(Debug, Clone, Copy, PartialEq, Eq, Structural)]
pub enum MIRCallee {
    Direct(FunctionRef),
}

/// The kinds of right-hand side. The fields of a struct literal are kept in
/// the order of their names.
pub enum MIRRValueKind {
    Use(MIROperand),
    Ref(MIRPlace, Mutability),
    AddressOf(MIRPlace, Mutability),
    BinOp(BinaryOperator, MIROperand, MIROperand),
    UnaryOp(UnaryOperator, MIROperand),
    Discriminant(MIRPlace),
    Metadata(MIROperand),
    SizeOf(ConcreteTy),
    Constructor { enum_ref: ConcreteEnumRef, idx: usize, args: MIRConstructorArgs, span: Span },
    StructLit { struct_ref: ConcreteStructRef, fields: Vec<(Symbol, MIROperand)>, span: Span },
    Tuple(Vec<MIROperand>, Span),
    Cast(MIROperand, ConcreteTy),
}

/// The arguments of an enum constructor. The fields of a struct variant are
/// kept in the order of their names.
#[derive(Debug)]
pub enum MIRConstructorArgs {
    NoArgs,
    Tuple(Vec<MIROperand>),
    Struct(Vec<(Symbol, MIROperand)>),
}

/// Every member of `s` is below `n`.
pub open spec fn bounded(s: Set<nat>, n: nat) -> bool {
    forall|l: nat| s.contains(l) ==> l < n
}

/// The locals an operand reads.
pub open spec fn operand_uses(op: MIROperand) -> Set<nat>
    decreases op,
{
    match op {
        MIROperand::Constant(_, _) => Set::empty(),
        MIROperand::Move(p) => place_uses(p),
        MIROperand::Copy(p) => place_uses(p),
    }
}

/// The local of a place, and the locals its index projections read.
pub open spec fn place_uses(p: MIRPlace) -> Set<nat>
    decreases p,
{
    set![p.local.0 as nat].union(projections_uses(p.projections@))
}

pub open spec fn projections_uses(ps: Seq<MIRProjection>) -> Set<nat>
    decreases ps,
{
    if ps.len() == 0 {
        Set::empty()
    } else {
        projections_uses(ps.drop_last()).union(projection_uses(ps.last()))
    }
}

pub open spec fn projection_uses(pr: MIRProjection) -> Set<nat>
    decreases pr,
{
    match pr {
        MIRProjection::Index { index } => operand_uses(index),
        _ => Set::empty(),
    }
}

/// The locals a sequence of operands reads.
pub open spec fn operands_uses(ops: Seq<MIROperand>) -> Set<nat>
    decreases ops,
{
    if ops.len() == 0 {
        Set::empty()
    } else {
        operands_uses(ops.drop_last()).union(operand_uses(ops.last()))
    }
}

/// The locals the operands of named fields read.
pub open spec fn fields_uses(fs: Seq<(Symbol, MIROperand)>) -> Set<nat>
    decreases fs,
{
    if fs.len() == 0 {
        Set::empty()
    } else {
        fields_uses(fs.drop_last()).union(operand_uses(fs.last().1))
    }
}

pub open spec fn cons_args_uses(args: MIRConstructorArgs) -> Set<nat> {
    match args {
        MIRConstructorArgs::NoArgs => Set::empty(),
        MIRConstructorArgs::Tuple(ops) => operands_uses(ops@),
        MIRConstructorArgs::Struct(fs) => fields_uses(fs@),
    }
}

/// The locals a right-hand side reads.
pub open spec fn rvalue_uses(rv: MIRRValue) -> Set<nat> {
    match rv.kind {
        MIRRValueKind::Ref(p, _) => place_uses(p),
        MIRRValueKind::AddressOf(p, _) => place_uses(p),
        MIRRValueKind::Discriminant(p) => place_uses(p),
        MIRRValueKind::BinOp(_, l, r) => operand_uses(l).union(operand_uses(r)),
        MIRRValueKind::Cast(op, _) => operand_uses(op),
        MIRRValueKind::Use(op) => operand_uses(op),
        MIRRValueKind::UnaryOp(_, op) => operand_uses(op),
        MIRRValueKind::Metadata(op) => operand_uses(op),
        MIRRValueKind::SizeOf(_) => Set::empty(),
        MIRRValueKind::Constructor { args, .. } => cons_args_uses(args),
        MIRRValueKind::StructLit { fields, .. } => fields_uses(fields@),
        MIRRValueKind::Tuple(ops, _) => operands_uses(ops@),
    }
}

impl MIROperand {
    /// The locals this operand reads, as a set over the body's locals.
    pub fn bitset_uses(&self, mir: &Mir) -> (r: BitSet)
        requires
            bounded(operand_uses(*self), mir.locals@.len()),
        ensures
            r.members() == operand_uses(*self),
            r.capacity() == mir.locals@.len(),
        decreases self,
    {
        match self {
            MIROperand::Constant(_, _) => BitSet::new(mir.locals.len()),
            MIROperand::Move(p) | MIROperand::Copy(p) => p.bitset_uses(mir),
        }
    }

    /// Where the operand was written.
    pub fn span(&self) -> (r: Span)
        ensures
            r == match *self {
                MIROperand::Constant(_, s) => s,
                MIROperand::Move(p) => p.span,
                MIROperand::Copy(p) => p.span,
            },
    {
        match self {
            MIROperand::Constant(_, span) => *span,
            MIROperand::Move(p) | MIROperand::Copy(p) => p.span,
        }
    }
}

impl MIRPlace {
    /// The locals this place reads: its own, and those of its indices.
    pub fn bitset_uses(&self, mir: &Mir) -> (r: BitSet)
        requires
            bounded(place_uses(*self), mir.locals@.len()),
        ensures
            r.members() == place_uses(*self),
            r.capacity() == mir.locals@.len(),
        decreases self,
    {
        let mut res = BitSet::new(mir.locals.len());
        assert(place_uses(*self).contains(self.local.0 as nat));
        res.insert(self.local.0);
        let mut i: usize = 0;
        while i < self.projections.len()
            invariant
                i <= self.projections@.len(),
                bounded(place_uses(*self), mir.locals@.len()),
                res.capacity() == mir.locals@.len(),
                res.members() == set![self.local.0 as nat].union(
                    projections_uses(self.projections@.take(i as int)),
                ),
            decreases self.projections@.len() - i,
        {
            let ghost pre = self.projections@.take(i as int);
            proof {
                assert(self.projections@.take(i + 1).drop_last() =~= pre);
                assert(projections_uses(self.projections@.take(i + 1)) == projections_uses(
                    pre,
                ).union(projection_uses(self.projections@[i as int])));
                lemma_projections_uses_prefix(self.projections@, i + 1);
                assert forall|l: nat| projection_uses(self.projections@[i as int]).contains(
                    l,
                ) implies l < mir.locals@.len() by {
                    assert(projections_uses(self.projections@.take(i + 1)).contains(l));
                    assert(projections_uses(self.projections@).contains(l));
                    assert(place_uses(*self).contains(l));
                }
                broadcast use vstd::std_specs::vec::axiom_vec_index_decreases;
                assert(decreases_to!(self.projections => self.projections[i as int]));
            }
            let u = self.projections[i].bitset_uses(mir);
            res.union(&u);
            proof {
                assert(res.members() =~= set![self.local.0 as nat].union(
                    projections_uses(self.projections@.take(i + 1)),
                ));
            }
            i += 1;
        }
        proof {
            assert(self.projections@.take(self.projections@.len() as int) =~= self.projections@);
        }
        res
    }

    /// Reads the place by moving out of it.
    pub fn into_move(self) -> (r: MIROperand)
        ensures
            r == MIROperand::Move(self),
    {
        MIROperand::Move(self)
    }

    /// Reads the place by copying it.
    pub fn into_copy(self) -> (r: MIROperand)
        ensures
            r == MIROperand::Copy(self),
    {
        MIROperand::Copy(self)
    }
}

/// The locals of a prefix of the projections are among those of them all.
pub proof fn lemma_projections_uses_prefix(ps: Seq<MIRProjection>, k: int)
    requires
        0 <= k <= ps.len(),
    ensures
        projections_uses(ps.take(k)).subset_of(projections_uses(ps)),
    decreases ps.len(),
{
    if k < ps.len() {
        assert(ps.drop_last().take(k) =~= ps.take(k));
        lemma_projections_uses_prefix(ps.drop_last(), k);
    } else {
        assert(ps.take(k) =~= ps);
    }
}

impl MIRProjection {
    /// The locals the projection reads: those of an index, else none.
    pub fn bitset_uses(&self, mir: &Mir) -> (r: BitSet)
        requires
            bounded(projection_uses(*self), mir.locals@.len()),
        ensures
            r.members() == projection_uses(*self),
            r.capacity() == mir.locals@.len(),
        decreases self,
    {
        match self {
            MIRProjection::Index { index } => index.bitset_uses(mir),
            _ => BitSet::new(mir.locals.len()),
        }
    }
}

impl MIRConstant {
    /// A constant equal to this one.
    pub fn duplicate(&self) -> (r: MIRConstant)
        ensures
            r == *self,
    {
        match self {
            MIRConstant::Integer { value, ty } => MIRConstant::Integer { value: *value, ty: *ty },
            MIRConstant::Bool(b) => MIRConstant::Bool(*b),
            MIRConstant::CString { contents, null_terminated } => MIRConstant::CString {
                contents: contents.clone(),
                null_terminated: *null_terminated,
            },
        }
    }
}

impl From<FunctionRef> for MIRCallee {
    fn from(value: FunctionRef) -> (r: Self) {
        MIRCallee::Direct(value)
    }
}

impl vstd::std_specs::convert::FromSpecImpl<FunctionRef> for MIRCallee {
    open spec fn obeys_from_spec() -> bool {
        true
    }

    open spec fn from_spec(value: FunctionRef) -> Self {
        MIRCallee::Direct(value)
    }
}

/// The locals of a prefix of the operands are among those of them all.
pub proof fn lemma_operands_uses_prefix(ops: Seq<MIROperand>, k: int)
    requires
        0 <= k <= ops.len(),
    ensures
        operands_uses(ops.take(k)).subset_of(operands_uses(ops)),
    decreases ops.len(),
{
    if k < ops.len() {
        assert(ops.drop_last().take(k) =~= ops.take(k));
        lemma_operands_uses_prefix(ops.drop_last(), k);
    } else {
        assert(ops.take(k) =~= ops);
    }
}

/// The locals of a prefix of the fields are among those of them all.
pub proof fn lemma_fields_uses_prefix(fs: Seq<(Symbol, MIROperand)>, k: int)
    requires
        0 <= k <= fs.len(),
    ensures
        fields_uses(fs.take(k)).subset_of(fields_uses(fs)),
    decreases fs.len(),
{
    if k < fs.len() {
        assert(fs.drop_last().take(k) =~= fs.take(k));
        lemma_fields_uses_prefix(fs.drop_last(), k);
    } else {
        assert(fs.take(k) =~= fs);
    }
}

/// The locals read by a sequence of operands.
fn operands_bitset(ops: &Vec<MIROperand>, mir: &Mir) -> (r: BitSet)
    requires
        bounded(operands_uses(ops@), mir.locals@.len()),
    ensures
        r.members() == operands_uses(ops@),
        r.capacity() == mir.locals@.len(),
{
    let mut res = BitSet::new(mir.locals.len());
    let mut i: usize = 0;
    while i < ops.len()
        invariant
            i <= ops@.len(),
            bounded(operands_uses(ops@), mir.locals@.len()),
            res.capacity() == mir.locals@.len(),
            res.members() == operands_uses(ops@.take(i as int)),
        decreases ops@.len() - i,
    {
        proof {
            assert(ops@.take(i + 1).drop_last() =~= ops@.take(i as int));
            lemma_operands_uses_prefix(ops@, i + 1);
            assert forall|l: nat| operand_uses(ops@[i as int]).contains(l) implies l
                < mir.locals@.len() by {
                assert(operands_uses(ops@.take(i + 1)).contains(l));
            }
        }
        let u = ops[i].bitset_uses(mir);
        res.union(&u);
        i += 1;
    }
    proof {
        assert(ops@.take(ops@.len() as int) =~= ops@);
    }
    res
}

/// The locals read by the operands of named fields.
fn fields_bitset(fs: &Vec<(Symbol, MIROperand)>, mir: &Mir) -> (r: BitSet)
    requires
        bounded(fields_uses(fs@), mir.locals@.len()),
    ensures
        r.members() == fields_uses(fs@),
        r.capacity() == mir.locals@.len(),
{
    let mut res = BitSet::new(mir.locals.len());
    let mut i: usize = 0;
    while i < fs.len()
        invariant
            i <= fs@.len(),
            bounded(fields_uses(fs@), mir.locals@.len()),
            res.capacity() == mir.locals@.len(),
            res.members() == fields_uses(fs@.take(i as int)),
        decreases fs@.len() - i,
    {
        proof {
            assert(fs@.take(i + 1).drop_last() =~= fs@.take(i as int));
            lemma_fields_uses_prefix(fs@, i + 1);
            assert forall|l: nat| operand_uses(fs@[i as int].1).contains(l) implies l
                < mir.locals@.len() by {
                assert(fields_uses(fs@.take(i + 1)).contains(l));
            }
        }
        let u = fs[i].1.bitset_uses(mir);
        res.union(&u);
        i += 1;
    }
    proof {
        assert(fs@.take(fs@.len() as int) =~= fs@);
    }
    res
}

impl MIRConstructorArgs {
    /// The locals the arguments read.
    pub fn bitset_uses(&self, mir: &Mir) -> (r: BitSet)
        requires
            bounded(cons_args_uses(*self), mir.locals@.len()),
        ensures
            r.members() == cons_args_uses(*self),
            r.capacity() == mir.locals@.len(),
    {
        match self {
            MIRConstructorArgs::NoArgs => BitSet::new(mir.locals.len()),
            MIRConstructorArgs::Tuple(ops) => operands_bitset(ops, mir),
            MIRConstructorArgs::Struct(fields) => fields_bitset(fields, mir),
        }
    }
}

impl MIRRValue {
    /// The locals the right-hand side reads.
    pub fn bitset_uses(&self, mir: &Mir) -> (r: BitSet)
        requires
            bounded(rvalue_uses(*self), mir.locals@.len()),
        ensures
            r.members() == rvalue_uses(*self),
            r.capacity() == mir.locals@.len(),
    {
        match &self.kind {
            MIRRValueKind::Ref(p, _) | MIRRValueKind::AddressOf(p, _) | MIRRValueKind::Discriminant(
                p,
            ) => p.bitset_uses(mir),
            MIRRValueKind::BinOp(_, l, r) => {
                proof {
                    assert forall|x: nat| operand_uses(*l).contains(x) implies x
                        < mir.locals@.len() by {
                        assert(rvalue_uses(*self).contains(x));
                    }
                    assert forall|x: nat| operand_uses(*r).contains(x) implies x
                        < mir.locals@.len() by {
                        assert(rvalue_uses(*self).contains(x));
                    }
                }
                let mut res = l.bitset_uses(mir);
                let u = r.bitset_uses(mir);
                res.union(&u);
                res
            },
            MIRRValueKind::Cast(op, _) | MIRRValueKind::Use(op) | MIRRValueKind::UnaryOp(_, op)
            | MIRRValueKind::Metadata(op) => op.bitset_uses(mir),
            MIRRValueKind::SizeOf(_) => BitSet::new(mir.locals.len()),
            MIRRValueKind::Constructor { args, .. } => args.bitset_uses(mir),
            MIRRValueKind::StructLit { fields, .. } => fields_bitset(fields, mir),
            MIRRValueKind::Tuple(ops, _) => operands_bitset(ops, mir),
        }
    }
}


/// Two operands are the same value: the same constant, or the same place
/// moved or copied.
pub open spec fn operand_same(a: MIROperand, b: MIROperand) -> bool
    decreases a,
{
    match (a, b) {
        (MIROperand::Constant(c, s), MIROperand::Constant(d, t)) => c == d && s == t,
        (MIROperand::Move(p), MIROperand::Move(q)) => place_same(p, q),
        (MIROperand::Copy(p), MIROperand::Copy(q)) => place_same(p, q),
        _ => false,
    }
}

/// Two places are the same value: the same local, type and span, and the
/// same projections.
pub open spec fn place_same(a: MIRPlace, b: MIRPlace) -> bool
    decreases a,
{
    &&& a.local == b.local
    &&& a.ty == b.ty
    &&& a.span == b.span
    &&& projs_same(a.projections@, b.projections@)
}

pub open spec fn projs_same(a: Seq<MIRProjection>, b: Seq<MIRProjection>) -> bool
    decreases a,
{
    &&& a.len() == b.len()
    &&& (a.len() > 0 ==> projs_same(a.drop_last(), b.drop_last()) && proj_same(a.last(), b.last()))
}

pub open spec fn proj_same(a: MIRProjection, b: MIRProjection) -> bool
    decreases a,
{
    match (a, b) {
        (MIRProjection::Deref, MIRProjection::Deref) => true,
        (
            MIRProjection::Field { name, resulting_ty },
            MIRProjection::Field { name: n, resulting_ty: t },
        ) => n == name && t == resulting_ty,
        (
            MIRProjection::TupleField { index, resulting_ty },
            MIRProjection::TupleField { index: i, resulting_ty: t },
        ) => i == index && t == resulting_ty,
        (MIRProjection::Index { index }, MIRProjection::Index { index: j }) => operand_same(index, j),
        (MIRProjection::Downcast { variant }, MIRProjection::Downcast { variant: v }) => v == variant,
        _ => false,
    }
}

impl MIROperand {
    /// An operand that is the same value as this one.
    pub fn duplicate(&self) -> (r: MIROperand)
        ensures
            operand_same(*self, r),
        decreases self,
    {
        match self {
            MIROperand::Constant(c, span) => MIROperand::Constant(c.duplicate(), *span),
            MIROperand::Move(p) => MIROperand::Move(p.duplicate()),
            MIROperand::Copy(p) => MIROperand::Copy(p.duplicate()),
        }
    }
}

impl MIRPlace {
    /// A place that is the same value as this one.
    pub fn duplicate(&self) -> (r: MIRPlace)
        ensures
            place_same(*self, r),
        decreases self,
    {
        let mut projections: Vec<MIRProjection> = Vec::new();
        let mut i: usize = 0;
        while i < self.projections.len()
            invariant
                i <= self.projections@.len(),
                projs_same(self.projections@.take(i as int), projections@),
            decreases self.projections@.len() - i,
        {
            proof {
                broadcast use vstd::std_specs::vec::axiom_vec_index_decreases;
                assert(decreases_to!(self.projections => self.projections[i as int]));
            }
            let ghost before = projections@;
            let pr = self.projections[i].duplicate();
            projections.push(pr);
            proof {
                let t = self.projections@.take(i + 1);
                assert(t.drop_last() =~= self.projections@.take(i as int));
                assert(projections@.drop_last() =~= before);
                assert(t.last() == self.projections@[i as int]);
            }
            i += 1;
        }
        assert(self.projections@.take(self.projections@.len() as int) =~= self.projections@);
        MIRPlace { local: self.local, projections, ty: self.ty, span: self.span }
    }
}

impl MIRProjection {
    /// A projection that is the same value as this one.
    pub fn duplicate(&self) -> (r: MIRProjection)
        ensures
            proj_same(*self, r),
        decreases self,
    {
        match self {
            MIRProjection::Deref => MIRProjection::Deref,
            MIRProjection::Field { name, resulting_ty } => MIRProjection::Field {
                name: *name,
                resulting_ty: *resulting_ty,
            },
            MIRProjection::TupleField { index, resulting_ty } => MIRProjection::TupleField {
                index: *index,
                resulting_ty: *resulting_ty,
            },
            MIRProjection::Index { index } => MIRProjection::Index { index: index.duplicate() },
            MIRProjection::Downcast { variant } => MIRProjection::Downcast { variant: *variant },
        }
    }
}
} // verus!
