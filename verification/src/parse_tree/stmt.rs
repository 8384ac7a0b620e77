//! Statements.
use vstd::prelude::*;
use crate::parse_tree::Spanned;
use crate::parse_tree::expr::{AstExpr, BinaryOperator};
use crate::parse_tree::pattern::AstPattern;
use crate::parse_tree::type_expr::AstAnyTypeExpr;
use crate::parser::ParseError;

verus! {

/// The operator of `a op= b`.
#[derive(Debug, Clone, Copy, PartialEq, Eq, Hash, Structural)]
pub enum CompoundAssignOp {
    Plus,
    Minus,
    Times,
    Div,
    Modulo,
}

impl CompoundAssignOp {
    /// The binary operator that `a op= b` applies.
    pub fn to_binop(self) -> (r: BinaryOperator)
        ensures
            r == (match self {
                CompoundAssignOp::Plus => BinaryOperator::Plus,
                CompoundAssignOp::Minus => BinaryOperator::Minus,
                CompoundAssignOp::Times => BinaryOperator::Times,
                CompoundAssignOp::Div => BinaryOperator::Div,
                CompoundAssignOp::Modulo => BinaryOperator::Modulo,
            }),
    {
        match self {
            CompoundAssignOp::Plus => BinaryOperator::Plus,
            CompoundAssignOp::Minus => BinaryOperator::Minus,
            CompoundAssignOp::Times => BinaryOperator::Times,
            CompoundAssignOp::Div => BinaryOperator::Div,
            CompoundAssignOp::Modulo => BinaryOperator::Modulo,
        }
    }
}

pub type AstStmt = Spanned<AstStmtDesc>;

#[derive(Debug)]
pub struct AstMatchBranch {
    pub pat: AstPattern,
    pub guard: Option<AstExpr>,
    pub body: Box<AstStmt>,
}

#[derive(Debug)]
pub enum AstStmtDesc {
    Return { value: Option<AstExpr> },
    If { cond: AstExpr, then: Box<AstStmt>, else_: Option<Box<AstStmt>> },
    While { cond: AstExpr, body: Box<AstStmt> },
    For { element: AstPattern, iterator: AstExpr, body: Box<AstStmt> },
    LetDecl { pat: AstPattern, type_constraint: Option<AstAnyTypeExpr>, value: AstExpr },
    Block { stmts: Vec<AstStmt> },
    Assign { lhs: AstExpr, rhs: AstExpr },
    CompoundAssign { lhs: AstExpr, op: CompoundAssignOp, rhs: AstExpr },
    Match { scrutinee: AstExpr, branches: Vec<AstMatchBranch> },
    Break,
    Expr(AstExpr),
    Defer(Box<AstStmt>),
    Error(ParseError),
}

} // verus!
