//! Type expressions as written in the source.
use vstd::prelude::*;
use crate::common::Symbol;
use crate::parse_tree::Spanned;
use crate::parser::ParseError;

verus! {

pub type AstTypeExpr = Spanned<AstTypeExprDesc>;

#[derive(Debug)]
pub enum AstTypeExprDesc {
    Named { name: Spanned<Symbol>, args: Vec<AstAnyTypeExpr> },
    NameResolved { from: Spanned<Symbol>, to: Box<AstTypeExpr> },
    Ref { mutable: bool, pointee: Box<AstTypeExpr> },
    Pointer { mutable: bool, pointee: Box<AstTypeExpr> },
    Slice { ty: Box<AstTypeExpr>, len: Option<usize> },
    Tuple(Vec<AstTypeExpr>),
    Error(ParseError),
}

pub type AstAnyTypeExpr = Spanned<AstAnyTypeExprDesc>;

/// A type expression that may be the placeholder `_`.
#[derive(Debug)]
pub enum AstAnyTypeExprDesc {
    Any,
    Known(AstTypeExprDesc),
}

/// Two type expressions are the same tree: the same span and the same
/// description.
pub open spec fn type_expr_same(a: AstTypeExpr, b: AstTypeExpr) -> bool
    decreases a,
{
    a.span == b.span && desc_same(a.data, b.data)
}

/// Two descriptions of type expressions are the same tree.
pub open spec fn desc_same(a: AstTypeExprDesc, b: AstTypeExprDesc) -> bool
    decreases a,
{
    match (a, b) {
        (AstTypeExprDesc::Named { name, args }, AstTypeExprDesc::Named { name: n, args: g }) => name == n
            && any_list_same(args@, g@),
        (AstTypeExprDesc::NameResolved { from, to }, AstTypeExprDesc::NameResolved { from: f, to: t }) => from
            == f && type_expr_same(*to, *t),
        (AstTypeExprDesc::Ref { mutable, pointee }, AstTypeExprDesc::Ref { mutable: m, pointee: p }) => mutable
            == m && type_expr_same(*pointee, *p),
        (AstTypeExprDesc::Pointer { mutable, pointee }, AstTypeExprDesc::Pointer { mutable: m, pointee: p }) => mutable
            == m && type_expr_same(*pointee, *p),
        (AstTypeExprDesc::Slice { ty, len }, AstTypeExprDesc::Slice { ty: t, len: l }) => len == l
            && type_expr_same(*ty, *t),
        (AstTypeExprDesc::Tuple(v), AstTypeExprDesc::Tuple(w)) => list_same(v@, w@),
        (AstTypeExprDesc::Error(e), AstTypeExprDesc::Error(f)) => e == f,
        _ => false,
    }
}

/// Two lists of type expressions are the same trees, in order.
pub open spec fn list_same(a: Seq<AstTypeExpr>, b: Seq<AstTypeExpr>) -> bool
    decreases a,
{
    &&& a.len() == b.len()
    &&& (a.len() > 0 ==> list_same(a.drop_last(), b.drop_last()) && type_expr_same(a.last(), b.last()))
}

/// Two possibly-placeholder type expressions are the same tree.
pub open spec fn any_same(a: AstAnyTypeExpr, b: AstAnyTypeExpr) -> bool
    decreases a,
{
    &&& a.span == b.span
    &&& match (a.data, b.data) {
        (AstAnyTypeExprDesc::Any, AstAnyTypeExprDesc::Any) => true,
        (AstAnyTypeExprDesc::Known(d), AstAnyTypeExprDesc::Known(e)) => desc_same(d, e),
        _ => false,
    }
}

/// Two lists of possibly-placeholder type expressions are the same trees,
/// in order.
pub open spec fn any_list_same(a: Seq<AstAnyTypeExpr>, b: Seq<AstAnyTypeExpr>) -> bool
    decreases a,
{
    &&& a.len() == b.len()
    &&& (a.len() > 0 ==> any_list_same(a.drop_last(), b.drop_last()) && any_same(a.last(), b.last()))
}

/// A copy of a type expression.
pub(crate) fn duplicate_type_expr(e: &AstTypeExpr) -> (r: AstTypeExpr)
    ensures
        type_expr_same(*e, r),
    decreases e,
{
    Spanned { data: duplicate_desc(&e.data), span: e.span }
}

/// A copy of a description of a type expression.
fn duplicate_desc(d: &AstTypeExprDesc) -> (r: AstTypeExprDesc)
    ensures
        desc_same(*d, r),
    decreases d,
{
    match d {
        AstTypeExprDesc::Named { name, args } => {
            let mut copied: Vec<AstAnyTypeExpr> = Vec::new();
            let mut i: usize = 0;
            while i < args.len()
                invariant
                    i <= args@.len(),
                    *d == (AstTypeExprDesc::Named { name: *name, args: *args }),
                    any_list_same(args@.take(i as int), copied@),
                decreases args@.len() - i,
            {
                proof {
                    broadcast use vstd::std_specs::vec::axiom_vec_index_decreases;
                    assert(*args == d->args);
                    assert(decreases_to!(*d => d->args));
                    assert(decreases_to!(args => args[i as int]));
                }
                let ghost before = copied@;
                let a = duplicate_any(&args[i]);
                copied.push(a);
                proof {
                    let t = args@.take(i + 1);
                    assert(t.drop_last() =~= args@.take(i as int));
                    assert(copied@.drop_last() =~= before);
                    assert(t.last() == args@[i as int]);
                }
                i += 1;
            }
            assert(args@.take(args@.len() as int) =~= args@);
            AstTypeExprDesc::Named { name: Spanned { data: name.data, span: name.span }, args: copied }
        },
        AstTypeExprDesc::NameResolved { from, to } => AstTypeExprDesc::NameResolved {
            from: Spanned { data: from.data, span: from.span },
            to: Box::new(duplicate_type_expr(to)),
        },
        AstTypeExprDesc::Ref { mutable, pointee } => AstTypeExprDesc::Ref {
            mutable: *mutable,
            pointee: Box::new(duplicate_type_expr(pointee)),
        },
        AstTypeExprDesc::Pointer { mutable, pointee } => AstTypeExprDesc::Pointer {
            mutable: *mutable,
            pointee: Box::new(duplicate_type_expr(pointee)),
        },
        AstTypeExprDesc::Slice { ty, len } => AstTypeExprDesc::Slice {
            ty: Box::new(duplicate_type_expr(ty)),
            len: *len,
        },
        AstTypeExprDesc::Tuple(v) => {
            let mut copied: Vec<AstTypeExpr> = Vec::new();
            let mut i: usize = 0;
            while i < v.len()
                invariant
                    i <= v@.len(),
                    *d == AstTypeExprDesc::Tuple(*v),
                    list_same(v@.take(i as int), copied@),
                decreases v@.len() - i,
            {
                proof {
                    broadcast use vstd::std_specs::vec::axiom_vec_index_decreases;
                    assert(*v == d->Tuple_0);
                    assert(decreases_to!(*d => d->Tuple_0));
                    assert(decreases_to!(v => v[i as int]));
                }
                let ghost before = copied@;
                let a = duplicate_type_expr(&v[i]);
                copied.push(a);
                proof {
                    let t = v@.take(i + 1);
                    assert(t.drop_last() =~= v@.take(i as int));
                    assert(copied@.drop_last() =~= before);
                    assert(t.last() == v@[i as int]);
                }
                i += 1;
            }
            assert(v@.take(v@.len() as int) =~= v@);
            AstTypeExprDesc::Tuple(copied)
        },
        AstTypeExprDesc::Error(e) => AstTypeExprDesc::Error(e.duplicate()),
    }
}

/// A copy of a possibly-placeholder type expression.
pub(crate) fn duplicate_any(e: &AstAnyTypeExpr) -> (r: AstAnyTypeExpr)
    ensures
        any_same(*e, r),
    decreases e,
{
    let data = match &e.data {
        AstAnyTypeExprDesc::Any => AstAnyTypeExprDesc::Any,
        AstAnyTypeExprDesc::Known(d) => AstAnyTypeExprDesc::Known(duplicate_desc(d)),
    };
    Spanned { data, span: e.span }
}

impl Spanned<AstAnyTypeExprDesc> {
    /// The type expression, unless it is the placeholder `_`.
    pub fn as_known(&self) -> (r: Option<AstTypeExpr>)
        ensures
            match self.data {
                AstAnyTypeExprDesc::Any => r is None,
                AstAnyTypeExprDesc::Known(d) => r matches Some(t) && t.span == self.span && desc_same(
                    d,
                    t.data,
                ),
            },
    {
        match &self.data {
            AstAnyTypeExprDesc::Known(ty) => Some(Spanned::new(duplicate_desc(ty), self.span)),
            AstAnyTypeExprDesc::Any => None,
        }
    }
}

} // verus!
