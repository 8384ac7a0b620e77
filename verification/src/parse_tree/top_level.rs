//! Items: modules, functions, interfaces, impls, structs, enums, externs.
use vstd::prelude::*;
use crate::common::{Span, Symbol};
use crate::parse_tree::Spanned;
use crate::parse_tree::annotation::AstAnnotation;
use crate::parse_tree::pattern::AstPattern;
use crate::parse_tree::expr::AstExpr;
use crate::parse_tree::stmt::AstStmt;
use crate::parse_tree::type_expr::AstTypeExpr;
use crate::parser::ParseError;

verus! {

/// An item with the annotations written in front of it.
#[derive(Debug)]
pub struct Annotated<T> {
    pub data: T,
    pub annotations: Vec<AstAnnotation>,
    pub span: Span,
}

impl<T> Annotated<T> {
    pub fn new(data: T, annotations: Vec<AstAnnotation>, span: Span) -> (r: Annotated<T>)
        ensures
            r.data == data,
            r.annotations == annotations,
            r.span == span,
    {
        Annotated { data, annotations, span }
    }
}

pub type AstTopLevelItem = Annotated<AstTopLevelItemDesc>;

pub type AstAnyTopLevelItem = Annotated<AstAnyTopLevelItemDesc>;

#[derive(Debug)]
pub enum AstAnyTopLevelItemDesc {
    Include(AstIncludePath),
    Item(Box<AstTopLevelItemDesc>),
}

#[derive(Debug)]
pub enum AstTopLevelItemDesc {
    Module(AstModule),
    Fundef(AstFundef),
    Interface(AstInterface),
    Impl(AstImplBlock),
    StructDef(AstStructDef),
    EnumDef(AstEnumDef),
    /// An extern function; `true` means variadic.
    ExternDef(AstFunsig, bool),
    Error(ParseError),
}

pub type AstModule = Annotated<AstModuleDesc>;

#[derive(Debug)]
pub struct AstModuleDesc {
    pub name: Spanned<Symbol>,
    pub items: Vec<AstTopLevelItem>,
    pub includes: Vec<AstIncludePath>,
}

pub type AstFundef = Annotated<AstFundefDesc>;

#[derive(Debug)]
pub struct AstFundefDesc {
    pub name: Spanned<Symbol>,
    pub args: Vec<AstFundefArg>,
    pub template_args: Vec<AstTemplateArg>,
    pub return_type: AstTypeExpr,
    pub body_span: Span,
    pub body: Vec<AstStmt>,
}

pub type AstMethodDef = Annotated<AstMethodDefDesc>;

#[derive(Debug)]
pub struct AstMethodDefDesc {
    pub name: Spanned<Symbol>,
    pub receiver: AstReceiver,
    pub args: Vec<AstFundefArg>,
    pub template_args: Vec<AstTemplateArg>,
    pub return_type: AstTypeExpr,
    pub body_span: Span,
    pub body: Vec<AstStmt>,
}

/// How a method takes `self`.
#[derive(Debug, Clone, Copy, PartialEq, Eq, Hash, Structural)]
pub enum AstReceiver {
    /// No receiver: a static method.
    NoReceiver,
    Zelf(Span),
    MutZelf(Span),
    RefZelf(Span),
    MutRefZelf(Span),
    PtrZelf(Span),
    MutPtrZelf(Span),
}

impl AstReceiver {
    pub fn is_static(&self) -> (r: bool)
        ensures
            r <==> *self is NoReceiver,
    {
        match self {
            AstReceiver::NoReceiver => true,
            _ => false,
        }
    }
}

pub type AstFunsig = Annotated<AstFunsigDesc>;

#[derive(Debug)]
pub struct AstFunsigDesc {
    pub name: Spanned<Symbol>,
    pub args: Vec<AstFundefArg>,
    pub template_args: Vec<AstTemplateArg>,
    pub return_type: AstTypeExpr,
}

pub type AstMethodsig = Annotated<AstMethodsigDesc>;

#[derive(Debug)]
pub struct AstMethodsigDesc {
    pub name: Spanned<Symbol>,
    pub receiver: AstReceiver,
    pub args: Vec<AstFundefArg>,
    pub template_args: Vec<AstTemplateArg>,
    pub return_type: AstTypeExpr,
}

#[derive(Debug)]
pub struct AstTemplateArg {
    pub name: Symbol,
    pub name_span: Span,
    pub constraints: Vec<AstTypeExpr>,
    pub span: Span,
}

#[derive(Debug)]
pub struct AstFundefArg {
    pub name: Symbol,
    pub name_span: Span,
    pub ty: AstTypeExpr,
    pub span: Span,
}

#[derive(Debug)]
pub struct AstInterface {
    pub name: Spanned<Symbol>,
    pub supers: Vec<AstTypeExpr>,
    pub template_args: Vec<AstTemplateArg>,
    pub items: Vec<AstInterfaceItem>,
    pub span: Span,
}

#[derive(Debug)]
pub enum AstInterfaceItem {
    Type(AstTemplateArg),
    Sig(Box<AstMethodsig>),
}

#[derive(Debug)]
pub struct AstConstDecl {
    pub pat: AstPattern,
    pub ty: AstTypeExpr,
    pub value: AstExpr,
}

#[derive(Debug)]
pub struct AstImplBlock {
    pub template_args: Vec<AstTemplateArg>,
    /// The interface being implemented.
    pub interface: Option<AstTypeExpr>,
    /// The type it is implemented for.
    pub implemented: AstTypeExpr,
    pub items: Vec<AstImplItem>,
    pub span: Span,
}

#[derive(Debug)]
pub enum AstImplItem {
    Type { name: Symbol, name_span: Span, ty: AstTypeExpr },
    Fundef(Box<AstMethodDef>),
}

/// A parsed file: its items and its `@include`s.
#[derive(Debug)]
pub struct Ast {
    pub items: Vec<AstTopLevelItem>,
    pub includes: Vec<AstIncludePath>,
}

pub type AstIncludePath = Spanned<AstIncludePathDesc>;

#[derive(Debug)]
pub enum AstIncludePathDesc {
    Symbol(Symbol),
    NameResolved { from: Symbol, to: Box<AstIncludePath> },
    Error,
}

#[derive(Debug)]
pub struct AstStructDef {
    pub name: Spanned<Symbol>,
    pub template_args: Vec<AstTemplateArg>,
    pub fields: Vec<AstStructDefField>,
    pub span: Span,
}

#[derive(Debug)]
pub struct AstEnumDef {
    pub name: Spanned<Symbol>,
    pub template_args: Vec<AstTemplateArg>,
    pub variants: Vec<AstEnumVariant>,
    pub span: Span,
}

#[derive(Debug)]
pub struct AstEnumVariant {
    pub name: Symbol,
    pub kind: AstEnumVariantKind,
    pub span: Span,
}

#[derive(Debug)]
pub enum AstEnumVariantKind {
    Unit,
    StructLike(Vec<AstStructDefField>),
    TupleLike(Vec<AstTypeExpr>),
}

#[derive(Debug)]
pub struct AstStructDefField {
    pub name: Symbol,
    pub ty: AstTypeExpr,
    pub span: Span,
}

} // verus!
