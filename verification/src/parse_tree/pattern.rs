//! Patterns, as in `let` bindings, `for` loops and `match` branches.
use vstd::prelude::*;
use crate::common::{Span, Symbol};
use crate::parse_tree::Spanned;

verus! {

pub type AstPattern = Spanned<AstPatternDesc>;

#[derive(Debug)]
pub enum StructFieldPattern {
    Rebind { name: Symbol, name_span: Span, pattern: AstPattern },
    Name(Symbol, Span),
}

#[derive(Debug)]
pub enum AstConstructFields {
    TupleFields(Vec<AstPattern>),
    StructFields(Vec<StructFieldPattern>),
    NoFields,
}

#[derive(Debug)]
pub enum AstNamedPattern {
    Mut { name: Spanned<Symbol> },
    Bare(Symbol),
    Constructor { name: Symbol, args: AstConstructFields },
    NameResolved { from: Spanned<Symbol>, to: Box<AstNamedPattern> },
    Tuple { fields: Vec<AstPattern> },
}

#[derive(Debug)]
pub enum AstPatternDesc {
    Named(AstNamedPattern),
    IntLiteral(i64),
    Any,
}

} // verus!
