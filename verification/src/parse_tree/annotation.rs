//! Annotations: `@[flag, call(Type, ...)]` in front of items.
use vstd::prelude::*;
use crate::common::Symbol;
use crate::parse_tree::type_expr::AstTypeExpr;

verus! {

#[derive(Debug)]
pub struct AstAnnotation {
    pub items: Vec<AstAnnotationItem>,
}

#[derive(Debug)]
pub enum AstAnnotationItem {
    Flag(Symbol),
    Call { name: Symbol, args: Vec<AstAnnotationArg> },
}

#[derive(Debug)]
pub enum AstAnnotationArg {
    Type(AstTypeExpr),
}

impl AstAnnotationItem {
    pub fn name(&self) -> (r: Symbol)
        ensures
            r == (match self {
                AstAnnotationItem::Flag(n) => *n,
                AstAnnotationItem::Call { name, .. } => *name,
            }),
    {
        match self {
            AstAnnotationItem::Flag(name) => *name,
            AstAnnotationItem::Call { name, .. } => *name,
        }
    }

    pub fn args(&self) -> (r: &[AstAnnotationArg])
        ensures
            r@ == (match self {
                AstAnnotationItem::Flag(_) => Seq::<AstAnnotationArg>::empty(),
                AstAnnotationItem::Call { args, .. } => args@,
            }),
    {
        match self {
            AstAnnotationItem::Flag(_) => {
                let empty: &[AstAnnotationArg] = &[];
                empty
            },
            AstAnnotationItem::Call { args, .. } => args.as_slice(),
        }
    }
}

} // verus!
