//! Expressions.
use vstd::prelude::*;
use crate::common::{Span, StrLit, Symbol};
use crate::parse_tree::Spanned;
use crate::parse_tree::type_expr::{AstAnyTypeExpr, AstTypeExpr};

verus! {

pub type AstExpr = Spanned<AstExprDesc>;

#[derive(Debug)]
pub enum AstExprDesc {
    IntLit(i64),
    CharLit(char),
    StrLit(StrLit),
    CStrLit(StrLit),
    BoolLit(bool),
    Name(Symbol),
    NameResolved { from: Spanned<Symbol>, to: Box<AstExpr> },
    StaticCall { ty: AstTypeExpr, type_args: Vec<AstAnyTypeExpr>, method: Symbol, args: Vec<AstExpr> },
    QualifiedPath { ty: AstTypeExpr, name: Symbol },
    BinOp { lhs: Box<AstExpr>, op: BinaryOperator, rhs: Box<AstExpr> },
    Range { from: Box<AstExpr>, to: Box<AstExpr> },
    Neg(Box<AstExpr>),
    Not(Box<AstExpr>),
    AddressOf(Box<AstExpr>),
    PostfixDeref(Box<AstExpr>),
    PrefixDeref(Box<AstExpr>),
    FieldAccess { object: Box<AstExpr>, field: Symbol },
    TupleAccess { object: Box<AstExpr>, index: u32 },
    Call { callee: Box<AstExpr>, type_args: Vec<AstAnyTypeExpr>, args: Vec<AstExpr> },
    MethodCall { object: Box<AstExpr>, method: Symbol, type_args: Vec<AstAnyTypeExpr>, args: Vec<AstExpr> },
    Index { object: Box<AstExpr>, index: Box<AstExpr> },
    StructLit { ty: AstTypeExpr, variant: Option<Symbol>, fields: Vec<AstStructField> },
    Tuple(Vec<AstExpr>),
    SliceLit(Vec<AstExpr>),
    SizeOf(AstTypeExpr),
    TypeName(AstTypeExpr),
    /// `@metadata(<expr>)`: the metadata of the fat pointer `<expr>`.
    Metadata(Box<AstExpr>),
    Ref(bool, Box<AstExpr>),
    As { expr: Box<AstExpr>, ty: AstTypeExpr },
}

#[derive(Debug)]
pub struct AstStructField {
    pub name: Symbol,
    pub name_span: Span,
    pub value: AstExpr,
}

#[derive(Debug, Clone, Copy, PartialEq, Eq, Hash, Structural)]
pub enum BinaryOperator {
    Plus,
    Minus,
    Times,
    Div,
    Modulo,
    Eq,
    Diff,
    Lt,
    Leq,
    Gt,
    Geq,
    And,
    Or,
    BitAnd,
    BitOr,
    BitXor,
}

} // verus!
