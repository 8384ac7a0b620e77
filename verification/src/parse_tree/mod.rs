//! The syntax tree the parser builds.
use vstd::prelude::*;
use crate::common::Span;

pub mod annotation;
pub mod display;
pub mod expr;
pub mod pattern;
pub mod stmt;
pub mod top_level;
pub mod type_expr;

verus! {

/// A syntax node and the source range it was parsed from.
#[derive(Debug)]
pub struct Spanned<T> {
    pub data: T,
    pub span: Span,
}

impl<T> Spanned<T> {
    pub fn new(data: T, span: Span) -> (r: Spanned<T>)
        ensures
            r.data == data,
            r.span == span,
    {
        Spanned { data, span }
    }

    /// The same node, borrowed.
    pub fn as_ref(&self) -> (r: Spanned<&T>)
        ensures
            *r.data == self.data,
            r.span == self.span,
    {
        Spanned { data: &self.data, span: self.span }
    }
}

} // verus!
