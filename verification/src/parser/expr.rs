//! Expressions: precedence climbing over unary, postfix and primary forms.
use vstd::prelude::*;
use crate::common::{Location, SourceFile, Span, span_of};
use crate::parse_tree::Spanned;
use crate::parse_tree::expr::{AstExpr, AstExprDesc, AstStructField, BinaryOperator};
use crate::parse_tree::type_expr::{AstAnyTypeExpr, AstTypeExpr, AstTypeExprDesc};
use crate::parser::{KnownSymbols, ParseError, ParseErrorKind, Parser};
use crate::token::{Token, TokenKind};

verus! {

/// Associativity of an infix operator.
#[derive(Debug, Clone, Copy, PartialEq, Eq, Structural)]
pub enum Assoc {
    Left,
    Right,
}

/// Precedence levels of the infix operators, loosest first.
pub open spec fn infix_precedence(k: TokenKind) -> Option<u8> {
    match k {
        TokenKind::DotDot => Some(2u8),
        TokenKind::Or => Some(3u8),
        TokenKind::And => Some(4u8),
        TokenKind::BitOr => Some(5u8),
        TokenKind::BitXor => Some(6u8),
        TokenKind::BitAnd => Some(7u8),
        TokenKind::Diff | TokenKind::EqEq => Some(8u8),
        TokenKind::Lt | TokenKind::Leq | TokenKind::Gt | TokenKind::Geq => Some(9u8),
        TokenKind::Plus | TokenKind::Minus => Some(10u8),
        TokenKind::Mult | TokenKind::Div | TokenKind::Modulo => Some(11u8),
        TokenKind::As => Some(12u8),
        _ => None,
    }
}

/// The binary operator a token denotes, if any.
pub open spec fn spec_token_to_binop(k: TokenKind) -> Option<BinaryOperator> {
    match k {
        TokenKind::Plus => Some(BinaryOperator::Plus),
        TokenKind::Minus => Some(BinaryOperator::Minus),
        TokenKind::Mult => Some(BinaryOperator::Times),
        TokenKind::Div => Some(BinaryOperator::Div),
        TokenKind::Modulo => Some(BinaryOperator::Modulo),
        TokenKind::EqEq => Some(BinaryOperator::Eq),
        TokenKind::Diff => Some(BinaryOperator::Diff),
        TokenKind::Lt => Some(BinaryOperator::Lt),
        TokenKind::Leq => Some(BinaryOperator::Leq),
        TokenKind::Gt => Some(BinaryOperator::Gt),
        TokenKind::Geq => Some(BinaryOperator::Geq),
        TokenKind::And => Some(BinaryOperator::And),
        TokenKind::Or => Some(BinaryOperator::Or),
        TokenKind::BitAnd => Some(BinaryOperator::BitAnd),
        TokenKind::BitOr => Some(BinaryOperator::BitOr),
        TokenKind::BitXor => Some(BinaryOperator::BitXor),
        _ => None,
    }
}

/// Left and right binding power of an infix operator: twice its precedence
/// on both sides, as every operator is left-associative.
pub fn infix_binding_power(kind: &TokenKind) -> (r: Option<(u8, u8, Assoc)>)
    ensures
        match infix_precedence(*kind) {
            None => r is None,
            Some(p) => r == Some(((2 * p) as u8, (2 * p) as u8, Assoc::Left)),
        },
{
    let prec: u8 = match kind {
        TokenKind::DotDot => 2,
        TokenKind::Or => 3,
        TokenKind::And => 4,
        TokenKind::BitOr => 5,
        TokenKind::BitXor => 6,
        TokenKind::BitAnd => 7,
        TokenKind::Diff => 8,
        TokenKind::EqEq => 8,
        TokenKind::Lt | TokenKind::Leq | TokenKind::Gt | TokenKind::Geq => 9,
        TokenKind::Plus | TokenKind::Minus => 10,
        TokenKind::Mult | TokenKind::Div | TokenKind::Modulo => 11,
        TokenKind::As => 12,
        _ => return None,
    };
    Some((prec * 2, prec * 2, Assoc::Left))
}

pub fn token_to_binop(kind: &TokenKind) -> (r: Option<BinaryOperator>)
    ensures
        r == spec_token_to_binop(*kind),
{
    match kind {
        TokenKind::Plus => Some(BinaryOperator::Plus),
        TokenKind::Minus => Some(BinaryOperator::Minus),
        TokenKind::Mult => Some(BinaryOperator::Times),
        TokenKind::Div => Some(BinaryOperator::Div),
        TokenKind::Modulo => Some(BinaryOperator::Modulo),
        TokenKind::EqEq => Some(BinaryOperator::Eq),
        TokenKind::Diff => Some(BinaryOperator::Diff),
        TokenKind::Lt => Some(BinaryOperator::Lt),
        TokenKind::Leq => Some(BinaryOperator::Leq),
        TokenKind::Gt => Some(BinaryOperator::Gt),
        TokenKind::Geq => Some(BinaryOperator::Geq),
        TokenKind::And => Some(BinaryOperator::And),
        TokenKind::Or => Some(BinaryOperator::Or),
        TokenKind::BitAnd => Some(BinaryOperator::BitAnd),
        TokenKind::BitOr => Some(BinaryOperator::BitOr),
        TokenKind::BitXor => Some(BinaryOperator::BitXor),
        _ => None,
    }
}

/// The tokens a primary expression can start with.
pub open spec fn starts_primary(k: TokenKind, known: KnownSymbols) -> bool {
    match k {
        TokenKind::IntLit(_) | TokenKind::CharLit(_) | TokenKind::StrLit(_) | TokenKind::CStrLit(_)
        | TokenKind::True | TokenKind::False | TokenKind::OpenBra | TokenKind::OpenPar
        | TokenKind::Identifier(_) => true,
        TokenKind::Directive(d) => d == known.sizeof_dir || d == known.metadata_dir || d
            == known.typename_dir,
        _ => false,
    }
}

/// The tokens an expression can start with.
pub open spec fn starts_expr(k: TokenKind, known: KnownSymbols) -> bool {
    k is Minus || k is Not || k is BitAnd || k is Mult || starts_primary(k, known)
}

/// The shape of a primary expression, by the token it started with.
pub open spec fn primary_shape(first: TokenKind, known: KnownSymbols, e: AstExprDesc) -> bool {
    match first {
        TokenKind::IntLit(v) => e == AstExprDesc::IntLit(v),
        TokenKind::CharLit(c) => e == AstExprDesc::CharLit(c),
        TokenKind::StrLit(s) => e == AstExprDesc::StrLit(s),
        TokenKind::CStrLit(s) => e == AstExprDesc::CStrLit(s),
        TokenKind::True => e == AstExprDesc::BoolLit(true),
        TokenKind::False => e == AstExprDesc::BoolLit(false),
        TokenKind::OpenBra => e is SliceLit,
        TokenKind::OpenPar => e is Tuple,
        TokenKind::Directive(d) => if d == known.sizeof_dir {
            e is SizeOf
        } else if d == known.metadata_dir {
            e is Metadata
        } else {
            d == known.typename_dir && e is TypeName
        },
        TokenKind::Identifier(n) => e == AstExprDesc::Name(n) || (e matches AstExprDesc::NameResolved {
            from,
            ..
        } && from.data == n) || (e matches AstExprDesc::StructLit { ty, variant, .. } && variant is None
            && (ty.data matches AstTypeExprDesc::Named { name, .. } && name.data == n)),
        _ => false,
    }
}

/// The shape of a unary expression, by the token it started with.
pub open spec fn unary_shape(first: TokenKind, after: Option<TokenKind>, known: KnownSymbols, e: AstExprDesc) -> bool {
    match first {
        TokenKind::Minus => e is Neg,
        TokenKind::Not => e is Not,
        TokenKind::BitAnd => e matches AstExprDesc::Ref(m, _) && m == (after == Some(TokenKind::Mut)),
        TokenKind::Mult => e is PrefixDeref,
        _ => true,
    }
}

/// A name, or a `::`-path of names: what can be read back as a type name.
pub open spec fn is_path_expr(e: AstExprDesc) -> bool
    decreases e,
{
    match e {
        AstExprDesc::Name(_) => true,
        AstExprDesc::NameResolved { to, .. } => is_path_expr(to.data),
        _ => false,
    }
}

/// Whether `next` ends an expression made of the token `first` alone: no
/// postfix form and no infix operator follows, and after a name no `{`.
pub open spec fn ends_atom(first: TokenKind, next: Option<TokenKind>) -> bool {
    match next {
        None => true,
        Some(k) => !(k is AddressOf || k is Deref || k is Access || k is Dot || k is OpenSqr || k is OpenPar)
            && infix_precedence(k) is None && (first is Identifier ==> !(k is OpenBra)),
    }
}

/// The kind of token `i`, if there is one.
pub open spec fn tok_at(toks: Seq<Token>, i: int) -> Option<TokenKind> {
    if 0 <= i < toks.len() {
        Some(toks[i].kind)
    } else {
        None
    }
}

/// Token `i` is a literal or a name that a postfix form does not
/// continue: no `@`, `.*`, `::`, `.`, `[` or `(` follows, and after a name
/// no `{` or `<` either.
pub open spec fn operand_at(toks: Seq<Token>, i: int) -> bool {
    &&& 0 <= i < toks.len()
    &&& (toks[i].kind is IntLit || toks[i].kind is CharLit || toks[i].kind is StrLit || toks[i].kind is CStrLit
        || toks[i].kind is True || toks[i].kind is False || toks[i].kind is Identifier)
    &&& match tok_at(toks, i + 1) {
        None => true,
        Some(k) => !(k is AddressOf || k is Deref || k is Access || k is Dot || k is OpenSqr || k is OpenPar)
            && (toks[i].kind is Identifier ==> !(k is OpenBra) && !(k is Lt)),
    }
}

/// The expression the operand at token `i` is parsed into, with its span.
pub open spec fn operand_expr(toks: Seq<Token>, file: SourceFile, i: int) -> AstExpr {
    match toks[i].kind {
        TokenKind::Identifier(n) => Spanned {
            data: AstExprDesc::Name(n),
            span: Span {
                file,
                start_offset: toks[i].location.start_offset,
                end_offset: toks[i].location.end_offset,
            },
        },
        TokenKind::IntLit(v) => Spanned { data: AstExprDesc::IntLit(v), span: toks[i].location },
        TokenKind::CharLit(c) => Spanned { data: AstExprDesc::CharLit(c), span: toks[i].location },
        TokenKind::StrLit(v) => Spanned { data: AstExprDesc::StrLit(v), span: toks[i].location },
        TokenKind::CStrLit(v) => Spanned { data: AstExprDesc::CStrLit(v), span: toks[i].location },
        TokenKind::True => Spanned { data: AstExprDesc::BoolLit(true), span: toks[i].location },
        TokenKind::False => Spanned { data: AstExprDesc::BoolLit(false), span: toks[i].location },
        _ => Spanned { data: AstExprDesc::IntLit(0), span: toks[i].location },
    }
}

/// The prefix operators `-`, `!`, `*`, `&` and `&mut` before an operand,
/// from token `q`: the expression they build, each over the one after it,
/// and where it ends; `None` where no operand follows them.
pub open spec fn unary_operand(toks: Seq<Token>, file: SourceFile, q: int) -> Option<(AstExpr, int)>
    decreases toks.len() - q,
{
    if operand_at(toks, q) {
        Some((operand_expr(toks, file, q), q + 1))
    } else if 0 <= q < toks.len() && (toks[q].kind is Minus || toks[q].kind is Not || toks[q].kind is Mult
        || toks[q].kind is BitAnd) {
        let inner = if toks[q].kind is BitAnd && tok_at(toks, q + 1) == Some(TokenKind::Mut) {
            q + 2
        } else {
            q + 1
        };
        match unary_operand(toks, file, inner) {
            Some((t, e)) => if inner < e <= toks.len() {
                let span = Span {
                    file,
                    start_offset: toks[q].location.start_offset,
                    end_offset: toks[e - 1].location.end_offset,
                };
                let d = if toks[q].kind is Minus {
                    AstExprDesc::Neg(Box::new(t))
                } else if toks[q].kind is Not {
                    AstExprDesc::Not(Box::new(t))
                } else if toks[q].kind is Mult {
                    AstExprDesc::PrefixDeref(Box::new(t))
                } else {
                    AstExprDesc::Ref(inner == q + 2, Box::new(t))
                };
                Some((Spanned { data: d, span }, e))
            } else {
                None
            },
            None => None,
        }
    } else {
        None
    }
}

/// Precedence climbing from the operand at token `q`: the operand, then
/// every binary operator binding tighter than `min_bp` with its right side
/// parsed at that operator's binding power, so that operators of one
/// precedence associate to the left. The tree and where it ends; `None`
/// where the tokens are not operands joined by binary operators.
pub open spec fn climb(toks: Seq<Token>, file: SourceFile, q: int, min_bp: int) -> Option<(AstExpr, int)>
    decreases toks.len() - q,
{
    match unary_operand(toks, file, q) {
        Some((t, e)) => if q < e {
            climb_loop(toks, file, e, t, min_bp)
        } else {
            None
        },
        None => None,
    }
}

/// The rest of `climb` once `lhs` ends before token `pos`.
pub open spec fn climb_loop(toks: Seq<Token>, file: SourceFile, pos: int, lhs: AstExpr, min_bp: int) -> Option<
    (AstExpr, int),
>
    decreases toks.len() - pos,
{
    match tok_at(toks, pos) {
        None => Some((lhs, pos)),
        Some(k) => if k == TokenKind::DotDot {
            if 4 <= min_bp {
                Some((lhs, pos))
            } else {
                None
            }
        } else {
            match infix_precedence(k) {
                None => Some((lhs, pos)),
                Some(p) => if 2 * p <= min_bp {
                    Some((lhs, pos))
                } else {
                    match spec_token_to_binop(k) {
                        None => None,
                        Some(op) => match climb(toks, file, pos + 1, 2 * p) {
                            Some((rhs, e)) => if pos < e <= toks.len() {
                                climb_loop(
                                    toks,
                                    file,
                                    e,
                                    Spanned {
                                        data: AstExprDesc::BinOp { lhs: Box::new(lhs), op, rhs: Box::new(rhs) },
                                        span: Span {
                                            file: lhs.span.file,
                                            start_offset: lhs.span.start_offset,
                                            end_offset: toks[e - 1].location.end_offset,
                                        },
                                    },
                                    min_bp,
                                )
                            } else {
                                None
                            },
                            None => None,
                        },
                    }
                },
            }
        },
    }
}

/// Where the expression of operands and binary operators from token `i`
/// ends; -1 where none stands there.
pub open spec fn expr_end(toks: Seq<Token>, file: SourceFile, i: int) -> int {
    match climb(toks, file, i, 0) {
        Some((_, e)) => e,
        None => -1,
    }
}

/// The expression a lone integer literal or name stands for.
pub open spec fn atom_desc(k: TokenKind) -> AstExprDesc {
    match k {
        TokenKind::IntLit(v) => AstExprDesc::IntLit(v),
        TokenKind::Identifier(n) => AstExprDesc::Name(n),
        _ => AstExprDesc::IntLit(0),
    }
}

/// Drops the parse result, keeping only whether it failed and how.
pub open spec fn outcome<T>(r: Result<T, ParseError>) -> Result<(), ParseError> {
    match r {
        Ok(_) => Ok(()),
        Err(e) => Err(e),
    }
}

impl<'a> Parser<'a> {
    /// An expression of one token at token `i`: an integer literal or a
    /// name, with nothing after it that would continue the expression.
    pub open spec fn atom_at(&self, i: int) -> bool {
        &&& ((self.at(i) matches Some(TokenKind::IntLit(_))) || (self.at(i) matches Some(
            TokenKind::Identifier(_),
        )))
        &&& ends_atom(self.tokens@[i].kind, self.at(i + 1))
    }

    /// The expression a parse from here yields on a lone literal or name.
    pub open spec fn atom_here(&self) -> AstExprDesc {
        atom_desc(self.tokens@[self.position as int].kind)
    }

    /// How many arguments `a, b, ..., z )` from token `i` holds, each a lone
    /// literal or name, separated by commas and closed by `)`; 0 where the
    /// tokens do not have that form.
    pub open spec fn atom_args_len(&self, i: int) -> int
        decreases self.tokens@.len() - i,
    {
        if !(0 <= i < self.tokens@.len()) || !self.atom_at(i) {
            0
        } else if self.at(i + 1) == Some(TokenKind::ClosePar) {
            1
        } else if self.at(i + 1) == Some(TokenKind::Comma) && self.atom_args_len(i + 2) > 0 {
            1 + self.atom_args_len(i + 2)
        } else {
            0
        }
    }

    /// The count of an argument list of lone literals and names reads the
    /// tokens alone.
    pub proof fn lemma_atom_args_len_tokens(a: Parser<'a>, b: Parser<'a>, i: int)
        requires
            a.tokens@ == b.tokens@,
        ensures
            a.atom_args_len(i) == b.atom_args_len(i),
        decreases a.tokens@.len() - i,
    {
        if 0 <= i && i + 2 <= a.tokens@.len() {
            Self::lemma_atom_args_len_tokens(a, b, i + 2);
        }
    }

    /// `< > :: name ( )` from token `i`: an empty turbofish, a name and an
    /// empty argument list.
    pub open spec fn empty_call_after_turbofish(&self, i: int) -> bool {
        &&& self.empty_turbofish_path_at(i)
        &&& self.at(i + 4) == Some(TokenKind::OpenPar)
        &&& self.at(i + 5) == Some(TokenKind::ClosePar)
    }

    /// `.name: value` from token `i`, the value a lone literal or name.
    pub open spec fn atom_field_at(&self, i: int) -> bool {
        &&& self.at(i) == Some(TokenKind::Dot)
        &&& self.at(i + 1) matches Some(TokenKind::Identifier(_))
        &&& self.at(i + 2) == Some(TokenKind::Colon)
        &&& self.atom_at(i + 3)
    }

    /// How many fields `.name: value` (the value a lone literal or name) a
    /// list from token `i` holds, separated by commas and closed by `}`; 0
    /// where the tokens do not have that form.
    pub open spec fn atom_fields_len(&self, i: int) -> int
        decreases self.tokens@.len() - i,
    {
        if !(0 <= i < self.tokens@.len()) || !self.atom_field_at(i) {
            0
        } else if self.at(i + 4) == Some(TokenKind::CloseBra) {
            1
        } else if self.at(i + 4) == Some(TokenKind::Comma) && i + 5 < self.tokens@.len()
            && self.atom_fields_len(i + 5) > 0 {
            1 + self.atom_fields_len(i + 5)
        } else {
            0
        }
    }

    /// `< > :: name` from token `i`: an empty turbofish and the name after it.
    pub open spec fn empty_turbofish_path_at(&self, i: int) -> bool {
        &&& self.at(i) == Some(TokenKind::Lt)
        &&& self.at(i + 1) == Some(TokenKind::Gt)
        &&& self.at(i + 2) == Some(TokenKind::Access)
        &&& self.at(i + 3) matches Some(TokenKind::Identifier(_))
    }

    pub fn parse_expr(&mut self) -> (r: Result<AstExpr, ParseError>)
        requires
            old(self).wf(),
        ensures
            final(self).advanced_from(old(self)),
            old(self).fails_at_head(final(self), |k: TokenKind| starts_expr(k, old(self).known), outcome(r)),
            r is Ok ==> old(self).position < final(self).position,
            old(self).atom_at(old(self).position as int) ==> (r matches Ok(e) && e.data == old(self).atom_here()
                && final(self).position == old(self).position + 1),
            climb(old(self).tokens@, old(self).file, old(self).position as int, 0) matches Some((t, e))
                ==> r == Ok::<AstExpr, ParseError>(t) && final(self).position == e,
        decreases old(self).remaining(), 6nat,
    {
        self.parse_binop(0)
    }

    /// An expression parsed with struct literals allowed, whatever the context.
    pub fn parse_expr_unrestricted(&mut self) -> (r: Result<AstExpr, ParseError>)
        requires
            old(self).wf(),
        ensures
            final(self).advanced_from(old(self)),
            old(self).fails_at_head(final(self), |k: TokenKind| starts_expr(k, old(self).known), outcome(r)),
            r is Ok ==> old(self).position < final(self).position,
            old(self).atom_at(old(self).position as int) ==> (r matches Ok(e) && e.data == old(self).atom_here()
                && final(self).position == old(self).position + 1),
            climb(old(self).tokens@, old(self).file, old(self).position as int, 0) matches Some((t, e))
                ==> r == Ok::<AstExpr, ParseError>(t) && final(self).position == e,
        decreases old(self).remaining(), 7nat,
    {
        let saved = self.restrict_struct_lit;
        self.restrict_struct_lit = false;
        let result = self.parse_expr();
        self.restrict_struct_lit = saved;
        result
    }

    /// Operators binding tighter than `min_bp`, and their operands.
    pub fn parse_binop(&mut self, min_bp: u8) -> (r: Result<AstExpr, ParseError>)
        requires
            old(self).wf(),
        ensures
            final(self).advanced_from(old(self)),
            old(self).fails_at_head(final(self), |k: TokenKind| starts_expr(k, old(self).known), outcome(r)),
            r is Ok ==> old(self).position < final(self).position,
            old(self).atom_at(old(self).position as int) ==> (r matches Ok(e) && e.data == old(self).atom_here()
                && final(self).position == old(self).position + 1),
            climb(old(self).tokens@, old(self).file, old(self).position as int, min_bp as int) matches Some((t, e))
                ==> r == Ok::<AstExpr, ParseError>(t) && final(self).position == e,
        decreases old(self).remaining(), 5nat,
    {
        let ghost toks = old(self).tokens@;
        let ghost file = old(self).file;
        let ghost whole = climb(toks, file, old(self).position as int, min_bp as int);
        let mut lhs = self.parse_unary()?;
        loop
            invariant_except_break
                self.advanced_from(old(self)),
                old(self).position < self.position,
                old(self).next_kind() matches Some(k) && starts_expr(k, old(self).known),
                old(self).atom_at(old(self).position as int) ==> self.position == old(self).position + 1
                    && lhs.data == old(self).atom_here(),
                toks == old(self).tokens@ && file == old(self).file,
                whole == climb(toks, file, old(self).position as int, min_bp as int),
                whole is Some ==> climb_loop(toks, file, self.position as int, lhs, min_bp as int) == whole,
            ensures
                self.advanced_from(old(self)),
                old(self).position < self.position,
                old(self).atom_at(old(self).position as int) ==> self.position == old(self).position + 1
                    && lhs.data == old(self).atom_here(),
                whole matches Some((t, e)) ==> lhs == t && self.position == e,
            decreases self.remaining(),
        {
            let tok_kind = match self.peek_kind(0) {
                Some(k) => k,
                None => break,
            };
            if tok_kind == TokenKind::DotDot {
                let lbp: u8 = 4;
                let rbp: u8 = 4;
                if lbp <= min_bp {
                    break;
                }
                self.consume();
                let rhs = self.parse_binop(rbp)?;
                let span = lhs.span.start().span(self.get_end());
                lhs = Spanned::new(AstExprDesc::Range { from: Box::new(lhs), to: Box::new(rhs) }, span);
                continue;
            }
            if let Some((lbp, rbp, _)) = infix_binding_power(&tok_kind) {
                if lbp <= min_bp {
                    break;
                }
                let op_kind = tok_kind;
                self.consume();
                if let Some(op) = token_to_binop(&op_kind) {
                    let ghost lhs0 = lhs;
                    let rhs = self.parse_binop(rbp)?;
                    let span = lhs.span.start().span(self.get_end());
                    lhs = Spanned::new(
                        AstExprDesc::BinOp { lhs: Box::new(lhs), op, rhs: Box::new(rhs) },
                        span,
                    );
                }
                if op_kind == TokenKind::As {
                    let ty = self.parse_type_expr()?;
                    let span = lhs.span.start().span(self.get_end());
                    lhs = Spanned::new(AstExprDesc::As { expr: Box::new(lhs), ty }, span);
                }
                continue;
            }
            break;
        }
        Ok(lhs)
    }

    /// Prefix operators `-`, `!`, `&`, `&mut`, `*`, then a postfix expression.
    pub fn parse_unary(&mut self) -> (r: Result<AstExpr, ParseError>)
        requires
            old(self).wf(),
        ensures
            final(self).advanced_from(old(self)),
            old(self).fails_at_head(final(self), |k: TokenKind| starts_expr(k, old(self).known), outcome(r)),
            r matches Ok(e) ==> {
                &&& old(self).position < final(self).position
                &&& old(self).next_kind() matches Some(k) && unary_shape(
                    k,
                    old(self).at(old(self).position + 1),
                    old(self).known,
                    e.data,
                )
            },
            old(self).atom_at(old(self).position as int) ==> (r matches Ok(e) && e.data == old(self).atom_here()
                && final(self).position == old(self).position + 1),
            unary_operand(old(self).tokens@, old(self).file, old(self).position as int) matches Some((t, e))
                ==> r == Ok::<AstExpr, ParseError>(t) && final(self).position == e,
        decreases old(self).remaining(), 4nat,
    {
        let start = self.get_start();
        match self.current_token()?.kind {
            TokenKind::Minus => {
                self.consume();
                let operand = self.parse_unary()?;
                let end = self.get_end();
                Ok(Spanned::new(AstExprDesc::Neg(Box::new(operand)), start.span(end)))
            },
            TokenKind::Not => {
                self.consume();
                let operand = self.parse_unary()?;
                let end = self.get_end();
                Ok(Spanned::new(AstExprDesc::Not(Box::new(operand)), start.span(end)))
            },
            TokenKind::BitAnd => {
                self.consume();
                let mutable = if self.peek_kind(0) == Some(TokenKind::Mut) {
                    self.consume();
                    true
                } else {
                    false
                };
                let operand = self.parse_unary()?;
                let end = self.get_end();
                Ok(Spanned::new(AstExprDesc::Ref(mutable, Box::new(operand)), start.span(end)))
            },
            TokenKind::Mult => {
                self.consume();
                let operand = self.parse_unary()?;
                let end = self.get_end();
                Ok(Spanned::new(AstExprDesc::PrefixDeref(Box::new(operand)), start.span(end)))
            },
            _ => self.parse_postfix(),
        }
    }

    pub fn parse_postfix(&mut self) -> (r: Result<AstExpr, ParseError>)
        requires
            old(self).wf(),
        ensures
            final(self).advanced_from(old(self)),
            old(self).fails_at_head(final(self), |k: TokenKind| starts_primary(k, old(self).known), outcome(r)),
            r is Ok ==> old(self).position < final(self).position,
            old(self).atom_at(old(self).position as int) ==> (r matches Ok(e) && e.data == old(self).atom_here()
                && final(self).position == old(self).position + 1),
            operand_at(old(self).tokens@, old(self).position as int) ==> r == Ok::<AstExpr, ParseError>(
                operand_expr(old(self).tokens@, old(self).file, old(self).position as int),
            ) && final(self).position == old(self).position + 1,
        decreases old(self).remaining(), 3nat,
    {
        self.parse_postfix_inner(false)
    }

    /// Reads back a name or a `::`-path of names as a type name.
    pub fn reinterpret_expr_as_ty(&self, e: &AstExpr) -> (r: Result<AstTypeExpr, ParseError>)
        ensures
            r is Ok <==> is_path_expr(e.data),
            r matches Err(err) ==> err == self.error_here(ParseErrorKind::ExpectedTypeName),
            r matches Ok(t) ==> t.span == e.span && match e.data {
                AstExprDesc::Name(s) => t.data matches AstTypeExprDesc::Named { name, args }
                    && name.data == s && args@.len() == 0,
                AstExprDesc::NameResolved { from, .. } => t.data matches AstTypeExprDesc::NameResolved {
                    from: f,
                    ..
                } && f == from,
                _ => false,
            },
        decreases e.data,
    {
        match &e.data {
            AstExprDesc::Name(symbol) => Ok(
                Spanned::new(
                    AstTypeExprDesc::Named { name: Spanned::new(*symbol, e.span), args: Vec::new() },
                    e.span,
                ),
            ),
            AstExprDesc::NameResolved { from, to } => {
                let to_ty = self.reinterpret_expr_as_ty(to)?;
                Ok(
                    Spanned::new(
                        AstTypeExprDesc::NameResolved {
                            from: Spanned::new(from.data, from.span),
                            to: Box::new(to_ty),
                        },
                        e.span,
                    ),
                )
            },
            _ => Err(self.parse_error(ParseErrorKind::ExpectedTypeName)),
        }
    }

    /// Fills the arguments of a named type; other types are refused.
    pub fn apply_type_args(&self, base: AstTypeExpr, args: Vec<AstAnyTypeExpr>, span: Span) -> (r: Result<
        AstTypeExpr,
        ParseError,
    >)
        ensures
            r is Ok <==> base.data is Named,
            r matches Err(e) ==> e == self.error_here(ParseErrorKind::ExpectedTypeName),
            r matches Ok(t) ==> t.span == span && (t.data matches AstTypeExprDesc::Named { name, args: a }
                && base.data matches AstTypeExprDesc::Named { name: n0, .. } && name == n0 && a == args),
    {
        match base.data {
            AstTypeExprDesc::Named { name, args: _ } => Ok(
                Spanned::new(AstTypeExprDesc::Named { name, args }, span),
            ),
            _ => Err(self.parse_error(ParseErrorKind::ExpectedTypeName)),
        }
    }

    /// `<T, U>`, consumed with its brackets.
    pub fn parse_turbofish_args(&mut self) -> (r: Result<Vec<AstAnyTypeExpr>, ParseError>)
        requires
            old(self).wf(),
        ensures
            final(self).advanced_from(old(self)),
            old(self).next_kind() != Some(TokenKind::Lt) ==> r is Err && final(self).position == old(
                self,
            ).position,
            r is Ok ==> old(self).position + 2 <= final(self).position,
            old(self).next_kind() == Some(TokenKind::Lt) && old(self).at(old(self).position + 1) == Some(
                TokenKind::Gt,
            ) ==> (r matches Ok(args) && args@.len() == 0 && final(self).position == old(self).position
                + 2),
            old(self).next_kind() == Some(TokenKind::Lt) && old(self).simple_types_len(old(self).position + 1)
                > 0 ==> (r matches Ok(args) && args@.len() == old(self).simple_types_len(old(self).position + 1)
                && final(self).position == old(self).position + 2 * args@.len() + 1),
    {
        self.expect(TokenKind::Lt)?;
        self.consume();
        proof {
            Self::lemma_simple_types_len_tokens(*old(self), *self, old(self).position + 1);
        }
        let type_args = self.parse_any_type_args()?;
        self.expect(TokenKind::Gt)?;
        self.consume();
        Ok(type_args)
    }

    /// Comma-separated arguments, up to (not including) a `)`.
    pub fn parse_expr_args(&mut self) -> (r: Result<Vec<AstExpr>, ParseError>)
        requires
            old(self).wf(),
        ensures
            final(self).advanced_from(old(self)),
            r matches Ok(args) ==> (args@.len() == 0 <==> final(self).position == old(self).position),
            (old(self).next_kind() is None || old(self).next_kind() == Some(TokenKind::ClosePar)) ==> (r matches Ok(
                args,
            ) && args@.len() == 0 && final(self).position == old(self).position),
            old(self).atom_args_len(old(self).position as int) > 0 ==> (r matches Ok(args) && args@.len()
                == old(self).atom_args_len(old(self).position as int) && (forall|k: int|
                0 <= k < args@.len() ==> #[trigger] args@[k].data == atom_desc(
                old(self).tokens@[old(self).position + 2 * k].kind,
            )) && final(self).position == old(self).position + 2 * args@.len() - 1 && old(self).at(
                final(self).position as int,
            ) == Some(TokenKind::ClosePar)),
        decreases old(self).remaining(), 8nat,
    {
        let mut res: Vec<AstExpr> = Vec::new();
        loop
            invariant_except_break
                self.advanced_from(old(self)),
                res@.len() == 0 <==> self.position == old(self).position,
                (old(self).next_kind() is None || old(self).next_kind() == Some(TokenKind::ClosePar))
                    ==> self.position == old(self).position,
                old(self).atom_args_len(old(self).position as int) > 0 ==> {
                    &&& old(self).atom_args_len(self.position as int) > 0
                    &&& old(self).atom_args_len(self.position as int) + res@.len() == old(self).atom_args_len(
                        old(self).position as int,
                    )
                    &&& self.position == old(self).position + 2 * res@.len()
                    &&& forall|k: int| 0 <= k < res@.len() ==> #[trigger] res@[k].data == atom_desc(
                        old(self).tokens@[old(self).position + 2 * k].kind,
                    )
                },
            ensures
                self.advanced_from(old(self)),
                res@.len() == 0 <==> self.position == old(self).position,
                (old(self).next_kind() is None || old(self).next_kind() == Some(TokenKind::ClosePar))
                    ==> self.position == old(self).position,
                old(self).atom_args_len(old(self).position as int) > 0 ==> {
                    &&& res@.len() == old(self).atom_args_len(old(self).position as int)
                    &&& self.position == old(self).position + 2 * res@.len() - 1
                    &&& old(self).at(self.position as int) == Some(TokenKind::ClosePar)
                    &&& forall|k: int| 0 <= k < res@.len() ==> #[trigger] res@[k].data == atom_desc(
                        old(self).tokens@[old(self).position + 2 * k].kind,
                    )
                },
            decreases self.remaining(),
        {
            match self.peek_kind(0) {
                None | Some(TokenKind::ClosePar) => break,
                _ => {},
            }
            let ghost q = self.position as int;
            let ghost prev = res@;
            let e = self.parse_expr_unrestricted()?;
            res.push(e);
            proof {
                assert(res@.drop_last() == prev);
            }
            match self.peek_kind(0) {
                Some(TokenKind::Comma) => self.consume(),
                _ => break,
            }
        }
        Ok(res)
    }

    /// `.name: value` fields, comma-separated, up to (not including) a `}`.
    pub fn parse_struct_fields(&mut self) -> (r: Result<Vec<AstStructField>, ParseError>)
        requires
            old(self).wf(),
        ensures
            final(self).advanced_from(old(self)),
            r matches Ok(fs) ==> (fs@.len() == 0 <==> final(self).position == old(self).position),
            (old(self).next_kind() is None || old(self).next_kind() == Some(TokenKind::CloseBra)) ==> (r matches Ok(
                fs,
            ) && fs@.len() == 0 && final(self).position == old(self).position),
            old(self).atom_fields_len(old(self).position as int) > 0 ==> (r matches Ok(fs) && fs@.len()
                == old(self).atom_fields_len(old(self).position as int) && final(self).position == old(
                self,
            ).position + 5 * fs@.len() - 1 && (forall|k: int|
                    #![trigger fs@[k]]
                    0 <= k < fs@.len() ==> old(self).at(old(self).position + 5 * k + 1) == Some(
                        TokenKind::Identifier(fs@[k].name),
                    ) && fs@[k].value.data == atom_desc(old(self).tokens@[old(self).position + 5 * k + 3].kind))),
        decreases old(self).remaining(), 0nat,
    {
        let mut res: Vec<AstStructField> = Vec::new();
        loop
            invariant_except_break
                self.advanced_from(old(self)),
                res@.len() == 0 <==> self.position == old(self).position,
                (old(self).next_kind() is None || old(self).next_kind() == Some(TokenKind::CloseBra))
                    ==> self.position == old(self).position,
                old(self).atom_fields_len(old(self).position as int) > 0 ==> {
                    &&& old(self).atom_fields_len(self.position as int) > 0
                    &&& old(self).atom_fields_len(self.position as int) + res@.len() == old(self).atom_fields_len(
                        old(self).position as int,
                    )
                    &&& self.position == old(self).position + 5 * res@.len()
                    &&& forall|k: int|
                    #![trigger res@[k]]
                    0 <= k < res@.len() ==> old(self).at(old(self).position + 5 * k + 1) == Some(
                        TokenKind::Identifier(res@[k].name),
                    ) && res@[k].value.data == atom_desc(old(self).tokens@[old(self).position + 5 * k + 3].kind)
                },
            ensures
                self.advanced_from(old(self)),
                res@.len() == 0 <==> self.position == old(self).position,
                (old(self).next_kind() is None || old(self).next_kind() == Some(TokenKind::CloseBra))
                    ==> self.position == old(self).position,
                old(self).atom_fields_len(old(self).position as int) > 0 ==> {
                    &&& res@.len() == old(self).atom_fields_len(old(self).position as int)
                    &&& self.position == old(self).position + 5 * res@.len() - 1
                    &&& forall|k: int|
                    #![trigger res@[k]]
                    0 <= k < res@.len() ==> old(self).at(old(self).position + 5 * k + 1) == Some(
                        TokenKind::Identifier(res@[k].name),
                    ) && res@[k].value.data == atom_desc(old(self).tokens@[old(self).position + 5 * k + 3].kind)
                },
            decreases self.remaining(),
        {
            match self.peek_kind(0) {
                None | Some(TokenKind::CloseBra) => break,
                _ => {},
            }
            self.expect(TokenKind::Dot)?;
            self.consume();
            let name = self.parse_symbol()?;
            self.expect(TokenKind::Colon)?;
            self.consume();
            let value = self.parse_expr_unrestricted()?;
            let ghost prev = res@;
            res.push(AstStructField { name: name.data, name_span: name.span, value });
            proof {
                assert(res@.drop_last() == prev);
            }
            match self.peek_kind(0) {
                Some(TokenKind::Comma) => self.consume(),
                _ => break,
            }
        }
        Ok(res)
    }
}


impl<'a> Parser<'a> {
    /// A primary expression followed by any postfix forms: `.f`, `.0`,
    /// `.m::<T>(..)`, `[i]`, `(..)`, `::<T>(..)`, `<T>::m(..)`, `@`, a
    /// postfix dereference and struct literals `Ty { .f: v }`. In a path
    /// segment the forms that bind to the whole path are left to the caller.
    pub fn parse_postfix_inner(&mut self, path_segment: bool) -> (r: Result<AstExpr, ParseError>)
        requires
            old(self).wf(),
        ensures
            final(self).advanced_from(old(self)),
            old(self).fails_at_head(final(self), |k: TokenKind| starts_primary(k, old(self).known), outcome(r)),
            r is Ok ==> old(self).position < final(self).position,
            old(self).atom_at(old(self).position as int) ==> (r matches Ok(e) && e.data == old(self).atom_here()
                && final(self).position == old(self).position + 1),
            operand_at(old(self).tokens@, old(self).position as int) ==> r == Ok::<AstExpr, ParseError>(
                operand_expr(old(self).tokens@, old(self).file, old(self).position as int),
            ) && final(self).position == old(self).position + 1,
        decreases old(self).remaining(), 2nat,
    {
        let mut expr = self.parse_primary()?;
        loop
            invariant
                self.advanced_from(old(self)),
                old(self).position < self.position,
                old(self).next_kind() matches Some(k) && starts_primary(k, old(self).known),
                old(self).atom_at(old(self).position as int) ==> self.position == old(self).position + 1
                    && expr.data == old(self).atom_here(),
                operand_at(old(self).tokens@, old(self).position as int) ==> self.position == old(self).position + 1
                    && expr == operand_expr(old(self).tokens@, old(self).file, old(self).position as int),
            decreases self.remaining(),
        {
            let next = self.peek_kind(0);
            if path_segment {
                match next {
                    Some(TokenKind::Dot) | Some(TokenKind::OpenSqr) | Some(TokenKind::AddressOf)
                    | Some(TokenKind::Deref) | Some(TokenKind::OpenBra) => break,
                    _ => {},
                }
            }
            match next {
                Some(TokenKind::AddressOf) => {
                    self.consume();
                    let span = expr.span.start().span(self.get_end());
                    expr = Spanned::new(AstExprDesc::AddressOf(Box::new(expr)), span);
                },
                Some(TokenKind::Deref) => {
                    self.consume();
                    let span = expr.span.start().span(self.get_end());
                    expr = Spanned::new(AstExprDesc::PostfixDeref(Box::new(expr)), span);
                },
                Some(TokenKind::Access) => {
                    if self.peek_kind(1) != Some(TokenKind::Lt) {
                        break;
                    }
                    let start = expr.span.start();
                    self.consume();
                    let type_args = self.parse_turbofish_args()?;
                    match self.peek_kind(0) {
                        Some(TokenKind::OpenPar) => {
                            self.consume();
                            let args = self.parse_expr_args()?;
                            self.expect(TokenKind::ClosePar)?;
                            self.consume();
                            let span = start.span(self.get_end());
                            expr = Spanned::new(
                                AstExprDesc::Call { callee: Box::new(expr), args, type_args },
                                span,
                            );
                        },
                        Some(TokenKind::Access) => {
                            self.consume();
                            let lhs_ty = self.reinterpret_expr_as_ty(&expr)?;
                            let ty_span = start.span(self.get_end());
                            let ty = self.apply_type_args(lhs_ty, type_args, ty_span)?;
                            expr = self.finish_qualified_path(ty, start)?;
                        },
                        _ => {
                            return Err(
                                self.parse_error(
                                    ParseErrorKind::ExpectedSymbol(
                                        "`(` or `::` after turbofish type arguments".to_owned(),
                                    ),
                                ),
                            );
                        },
                    }
                },
                Some(TokenKind::Dot) => {
                    self.consume();
                    if let Some(TokenKind::IntLit(index)) = self.peek_kind(0) {
                        self.consume();
                        let span = expr.span.start().span(self.get_end());
                        expr = Spanned::new(
                            AstExprDesc::TupleAccess { object: Box::new(expr), index: #[verifier::truncate] (index as u32) },
                            span,
                        );
                        continue;
                    }
                    let field = self.parse_symbol()?;
                    let type_args = if self.peek_kind(0) == Some(TokenKind::Access) {
                        self.consume();
                        self.parse_turbofish_args()?
                    } else {
                        Vec::new()
                    };
                    if self.peek_kind(0) == Some(TokenKind::OpenPar) {
                        self.consume();
                        let args = self.parse_expr_args()?;
                        self.expect(TokenKind::ClosePar)?;
                        self.consume();
                        let span = expr.span.start().span(self.get_end());
                        expr = Spanned::new(
                            AstExprDesc::MethodCall {
                                object: Box::new(expr),
                                method: field.data,
                                args,
                                type_args,
                            },
                            span,
                        );
                    } else {
                        let span = expr.span.start().span(self.get_end());
                        expr = Spanned::new(
                            AstExprDesc::FieldAccess { object: Box::new(expr), field: field.data },
                            span,
                        );
                    }
                },
                Some(TokenKind::OpenSqr) => {
                    self.consume();
                    let index = self.parse_expr_unrestricted()?;
                    self.expect(TokenKind::CloseSqr)?;
                    self.consume();
                    let span = expr.span.start().span(self.get_end());
                    expr = Spanned::new(
                        AstExprDesc::Index { object: Box::new(expr), index: Box::new(index) },
                        span,
                    );
                },
                Some(TokenKind::OpenPar) => {
                    self.consume();
                    let args = self.parse_expr_args()?;
                    self.expect(TokenKind::ClosePar)?;
                    self.consume();
                    let span = expr.span.start().span(self.get_end());
                    expr = Spanned::new(
                        AstExprDesc::Call { callee: Box::new(expr), args, type_args: Vec::new() },
                        span,
                    );
                },
                Some(TokenKind::Lt) => {
                    // `path<T>::method(..)` or `path<T>::Variant`; otherwise `<` compares.
                    let start = expr.span.start();
                    match self.try_parse_static_call(&expr, start) {
                        Ok(static_call) => {
                            expr = static_call;
                        },
                        Err(_) => match self.try_parse_qualified_cons(&expr, start) {
                            Ok(qualified_cons) => {
                                expr = qualified_cons;
                            },
                            Err(_) => break,
                        },
                    }
                },
                Some(TokenKind::OpenBra) => {
                    // A struct literal only after a name or a path, and only when
                    // the braces hold field syntax, so that `match e { .. }` and
                    // other blocks stay blocks.
                    let is_type_like = match &expr.data {
                        AstExprDesc::Name(_) | AstExprDesc::NameResolved { .. }
                        | AstExprDesc::QualifiedPath { .. } => true,
                        _ => false,
                    };
                    let after = self.peek_kind(1);
                    let has_field_syntax = after == Some(TokenKind::Dot);
                    if !self.restrict_struct_lit && is_type_like && (has_field_syntax || after == Some(
                        TokenKind::CloseBra,
                    )) {
                        self.consume();
                        let fields = self.parse_struct_fields()?;
                        self.expect(TokenKind::CloseBra)?;
                        self.consume();
                        let span = expr.span.start().span(self.get_end());
                        let expr_span = expr.span;
                        let (ty, variant) = match expr.data {
                            AstExprDesc::QualifiedPath { ty, name } => (ty, Some(name)),
                            AstExprDesc::NameResolved { from, to } => {
                                let to = *to;
                                match to.data {
                                    AstExprDesc::Name(variant_name) => {
                                        let base_expr = Spanned::new(AstExprDesc::Name(from.data), expr_span);
                                        (self.reinterpret_expr_as_ty(&base_expr)?, Some(variant_name))
                                    },
                                    other => {
                                        let whole = Spanned::new(
                                            AstExprDesc::NameResolved {
                                                from,
                                                to: Box::new(Spanned::new(other, to.span)),
                                            },
                                            expr_span,
                                        );
                                        (self.reinterpret_expr_as_ty(&whole)?, None)
                                    },
                                }
                            },
                            other => {
                                let whole = Spanned::new(other, expr_span);
                                (self.reinterpret_expr_as_ty(&whole)?, None)
                            },
                        };
                        expr = Spanned::new(AstExprDesc::StructLit { ty, variant, fields }, span);
                    } else {
                        break;
                    }
                },
                _ => break,
            }
        }
        Ok(expr)
    }

    /// A literal, a parenthesized tuple, a slice literal, a directive, a name,
    /// a `::`-path or a struct literal `Name { .f: v }`.
    pub fn parse_primary(&mut self) -> (r: Result<AstExpr, ParseError>)
        requires
            old(self).wf(),
        ensures
            final(self).advanced_from(old(self)),
            old(self).fails_at_head(final(self), |k: TokenKind| starts_primary(k, old(self).known), outcome(r)),
            r matches Ok(e) ==> {
                &&& old(self).position < final(self).position
                &&& old(self).next_kind() matches Some(k) && primary_shape(k, old(self).known, e.data)
            },
            old(self).atom_at(old(self).position as int) ==> (r matches Ok(e) && e.data == old(self).atom_here()
                && final(self).position == old(self).position + 1),
            operand_at(old(self).tokens@, old(self).position as int) ==> r == Ok::<AstExpr, ParseError>(
                operand_expr(old(self).tokens@, old(self).file, old(self).position as int),
            ) && final(self).position == old(self).position + 1,
        decreases old(self).remaining(), 1nat,
    {
        let start = self.get_start();
        let tok = *self.current_token()?;
        match tok.kind {
            TokenKind::IntLit(v) => {
                self.consume();
                Ok(Spanned::new(AstExprDesc::IntLit(v), tok.location))
            },
            TokenKind::CharLit(c) => {
                self.consume();
                Ok(Spanned::new(AstExprDesc::CharLit(c), tok.location))
            },
            TokenKind::StrLit(s) => {
                self.consume();
                Ok(Spanned::new(AstExprDesc::StrLit(s), tok.location))
            },
            TokenKind::CStrLit(s) => {
                self.consume();
                Ok(Spanned::new(AstExprDesc::CStrLit(s), tok.location))
            },
            TokenKind::True => {
                self.consume();
                Ok(Spanned::new(AstExprDesc::BoolLit(true), tok.location))
            },
            TokenKind::False => {
                self.consume();
                Ok(Spanned::new(AstExprDesc::BoolLit(false), tok.location))
            },
            TokenKind::OpenBra => {
                self.consume();
                let mut exprs: Vec<AstExpr> = Vec::new();
                loop
                    invariant_except_break
                        self.advanced_from(old(self)),
                        old(self).position < self.position,
                        old(self).next_kind() == Some(TokenKind::OpenBra),
                    ensures
                        self.advanced_from(old(self)),
                        old(self).position < self.position,
                        old(self).next_kind() == Some(TokenKind::OpenBra),
                    decreases self.remaining(),
                {
                    match self.peek_kind(0) {
                        None | Some(TokenKind::CloseBra) => break,
                        _ => {},
                    }
                    exprs.push(self.parse_expr_unrestricted()?);
                    match self.peek_kind(0) {
                        Some(TokenKind::Comma) => self.consume(),
                        _ => break,
                    }
                }
                self.expect(TokenKind::CloseBra)?;
                self.consume();
                Ok(Spanned::new(AstExprDesc::SliceLit(exprs), tok.location))
            },
            TokenKind::OpenPar => {
                self.consume();
                let exprs = self.parse_expr_args()?;
                self.expect(TokenKind::ClosePar)?;
                self.consume();
                let end = self.get_end();
                Ok(Spanned::new(AstExprDesc::Tuple(exprs), start.span(end)))
            },
            TokenKind::Directive(dir) => {
                if dir == self.known.sizeof_dir {
                    self.consume();
                    self.expect(TokenKind::OpenPar)?;
                    self.consume();
                    let ty = self.parse_type_expr()?;
                    self.expect(TokenKind::ClosePar)?;
                    self.consume();
                    let end = self.get_end();
                    Ok(Spanned::new(AstExprDesc::SizeOf(ty), start.span(end)))
                } else if dir == self.known.metadata_dir {
                    self.consume();
                    self.expect(TokenKind::OpenPar)?;
                    self.consume();
                    let expr = self.parse_expr_unrestricted()?;
                    self.expect(TokenKind::ClosePar)?;
                    self.consume();
                    let end = self.get_end();
                    Ok(Spanned::new(AstExprDesc::Metadata(Box::new(expr)), start.span(end)))
                } else if dir == self.known.typename_dir {
                    self.consume();
                    self.expect(TokenKind::OpenPar)?;
                    self.consume();
                    let ty = self.parse_type_expr()?;
                    self.expect(TokenKind::ClosePar)?;
                    self.consume();
                    let end = self.get_end();
                    Ok(Spanned::new(AstExprDesc::TypeName(ty), start.span(end)))
                } else {
                    Err(self.parse_error(ParseErrorKind::ExpectedSymbol(tok.kind.display())))
                }
            },
            TokenKind::Identifier(name) => {
                self.consume();
                let next = self.peek_kind(0);
                let after = self.peek_kind(1);
                if next == Some(TokenKind::Access) && after != Some(TokenKind::Lt) {
                    self.consume();
                    let rhs = self.parse_postfix_inner(true)?;
                    let end = self.get_end();
                    Ok(
                        Spanned::new(
                            AstExprDesc::NameResolved {
                                from: Spanned::new(name, tok.location),
                                to: Box::new(rhs),
                            },
                            start.span(end),
                        ),
                    )
                } else if next == Some(TokenKind::OpenBra) && !self.restrict_struct_lit && after == Some(
                    TokenKind::Dot,
                ) {
                    self.consume();
                    let fields = self.parse_struct_fields()?;
                    self.expect(TokenKind::CloseBra)?;
                    self.consume();
                    let end = self.get_end();
                    let ty = Spanned::new(
                        AstTypeExprDesc::Named {
                            name: Spanned::new(name, tok.location),
                            args: Vec::new(),
                        },
                        start.span(start),
                    );
                    Ok(
                        Spanned::new(
                            AstExprDesc::StructLit { ty, variant: None, fields },
                            start.span(end),
                        ),
                    )
                } else {
                    let end = self.get_end();
                    Ok(Spanned::new(AstExprDesc::Name(name), start.span(end)))
                }
            },
            kind => Err(self.parse_error(ParseErrorKind::ExpectedSymbol(kind.display()))),
        }
    }

    /// `<T>::method(args)` after the path `lhs`.
    pub fn parse_static_call(&mut self, lhs: &AstExpr, start: Location) -> (r: Result<AstExpr, ParseError>)
        requires
            old(self).wf(),
        ensures
            final(self).advanced_from(old(self)),
            r matches Ok(e) ==> old(self).position < final(self).position && e.data is StaticCall,
            !is_path_expr(lhs.data) ==> r is Err,
            lhs.data is Name && old(self).empty_call_after_turbofish(old(self).position as int) ==> (r matches Ok(
                e,
            ) && (e.data matches AstExprDesc::StaticCall { method, args, .. } && old(self).at(
                old(self).position + 3,
            ) == Some(TokenKind::Identifier(method)) && args@.len() == 0) && final(self).position == old(
                self,
            ).position + 6),
            lhs.data is Name && old(self).empty_turbofish_path_at(old(self).position as int) && old(self).at(
                old(self).position + 4,
            ) == Some(TokenKind::OpenPar) && old(self).atom_args_len(old(self).position + 5) > 0 ==> (r matches Ok(
                e,
            ) && (e.data matches AstExprDesc::StaticCall { method, args, .. } && old(self).at(
                old(self).position + 3,
            ) == Some(TokenKind::Identifier(method)) && args@.len() == old(self).atom_args_len(
                old(self).position + 5,
            )) && final(self).position == old(self).position + 5 + 2 * old(self).atom_args_len(
                old(self).position + 5,
            )),
        decreases old(self).remaining(), 0nat,
    {
        let lhs_ty = self.reinterpret_expr_as_ty(lhs)?;
        let type_args = self.parse_turbofish_args()?;
        self.expect(TokenKind::Access)?;
        self.consume();
        let ty_span = start.span(self.get_end());
        let ty = self.apply_type_args(lhs_ty, type_args, ty_span)?;
        let method_sym = self.parse_symbol()?;
        self.expect(TokenKind::OpenPar)?;
        self.consume();
        proof {
            Self::lemma_atom_args_len_tokens(*old(self), *self, old(self).position + 5);
        }
        let args = self.parse_expr_args()?;
        self.expect(TokenKind::ClosePar)?;
        self.consume();
        let end = self.get_end();
        Ok(
            Spanned::new(
                AstExprDesc::StaticCall { ty, method: method_sym.data, args, type_args: Vec::new() },
                start.span(end),
            ),
        )
    }

    /// `parse_static_call`, undone when it fails.
    pub fn try_parse_static_call(&mut self, lhs: &AstExpr, start: Location) -> (r: Result<AstExpr, ParseError>)
        requires
            old(self).wf(),
        ensures
            final(self).advanced_from(old(self)),
            r matches Ok(e) ==> old(self).position < final(self).position && e.data is StaticCall,
            r is Err ==> final(self).position == old(self).position,
            !is_path_expr(lhs.data) ==> r is Err,
            lhs.data is Name && old(self).empty_call_after_turbofish(old(self).position as int) ==> (r matches Ok(
                e,
            ) && (e.data matches AstExprDesc::StaticCall { method, args, .. } && old(self).at(
                old(self).position + 3,
            ) == Some(TokenKind::Identifier(method)) && args@.len() == 0) && final(self).position == old(
                self,
            ).position + 6),
            lhs.data is Name && old(self).empty_turbofish_path_at(old(self).position as int) && old(self).at(
                old(self).position + 4,
            ) == Some(TokenKind::OpenPar) && old(self).atom_args_len(old(self).position + 5) > 0 ==> (r matches Ok(
                e,
            ) && (e.data matches AstExprDesc::StaticCall { method, args, .. } && old(self).at(
                old(self).position + 3,
            ) == Some(TokenKind::Identifier(method)) && args@.len() == old(self).atom_args_len(
                old(self).position + 5,
            )) && final(self).position == old(self).position + 5 + 2 * old(self).atom_args_len(
                old(self).position + 5,
            )),
        decreases old(self).remaining(), 1nat,
    {
        let saved = self.position;
        let res = self.parse_static_call(lhs, start);
        if res.is_err() {
            self.position = saved;
        }
        res
    }

    /// `<T>::Variant`, `<T>::Variant { .f: v }` or `<T>::Variant(args)` after the path `lhs`.
    pub fn parse_qualified_cons(&mut self, lhs: &AstExpr, start: Location) -> (r: Result<AstExpr, ParseError>)
        requires
            old(self).wf(),
        ensures
            final(self).advanced_from(old(self)),
            r matches Ok(e) ==> old(self).position < final(self).position && (e.data is StructLit
                || e.data is StaticCall || e.data is QualifiedPath),
            !is_path_expr(lhs.data) ==> r is Err,
            lhs.data is Name && old(self).empty_turbofish_path_at(old(self).position as int) && old(self).at(
                old(self).position + 4,
            ) != Some(TokenKind::OpenBra) && old(self).at(old(self).position + 4) != Some(TokenKind::OpenPar)
                ==> (r matches Ok(e) && (e.data matches AstExprDesc::QualifiedPath { name, .. } && old(
                self,
            ).at(old(self).position + 3) == Some(TokenKind::Identifier(name))) && final(self).position == old(
                self,
            ).position + 4),
        decreases old(self).remaining(), 0nat,
    {
        let lhs_ty = self.reinterpret_expr_as_ty(lhs)?;
        let type_args = self.parse_turbofish_args()?;
        self.expect(TokenKind::Access)?;
        self.consume();
        // The variant belongs to the path: `(Type<Args>::Variant) { .. }`.
        let variant_sym = self.parse_symbol()?;
        let ty_span = start.span(self.get_end());
        let ty = self.apply_type_args(lhs_ty, type_args, ty_span)?;
        if !self.restrict_struct_lit && self.peek_kind(0) == Some(TokenKind::OpenBra) {
            self.consume();
            let fields = self.parse_struct_fields()?;
            self.expect(TokenKind::CloseBra)?;
            self.consume();
            let end = self.get_end();
            Ok(
                Spanned::new(
                    AstExprDesc::StructLit { ty, variant: Some(variant_sym.data), fields },
                    start.span(end),
                ),
            )
        } else if self.peek_kind(0) == Some(TokenKind::OpenPar) {
            self.consume();
            let args = self.parse_expr_args()?;
            self.expect(TokenKind::ClosePar)?;
            self.consume();
            let end = self.get_end();
            Ok(
                Spanned::new(
                    AstExprDesc::StaticCall {
                        ty,
                        method: variant_sym.data,
                        args,
                        type_args: Vec::new(),
                    },
                    start.span(end),
                ),
            )
        } else {
            let end = self.get_end();
            Ok(
                Spanned::new(
                    AstExprDesc::QualifiedPath { ty, name: variant_sym.data },
                    start.span(end),
                ),
            )
        }
    }

    /// `parse_qualified_cons`, undone when it fails.
    pub fn try_parse_qualified_cons(&mut self, lhs: &AstExpr, start: Location) -> (r: Result<AstExpr, ParseError>)
        requires
            old(self).wf(),
        ensures
            final(self).advanced_from(old(self)),
            r matches Ok(e) ==> old(self).position < final(self).position && (e.data is StructLit
                || e.data is StaticCall || e.data is QualifiedPath),
            r is Err ==> final(self).position == old(self).position,
            !is_path_expr(lhs.data) ==> r is Err,
            lhs.data is Name && old(self).empty_turbofish_path_at(old(self).position as int) && old(self).at(
                old(self).position + 4,
            ) != Some(TokenKind::OpenBra) && old(self).at(old(self).position + 4) != Some(TokenKind::OpenPar)
                ==> (r matches Ok(e) && (e.data matches AstExprDesc::QualifiedPath { name, .. } && old(
                self,
            ).at(old(self).position + 3) == Some(TokenKind::Identifier(name))) && final(self).position == old(
                self,
            ).position + 4),
        decreases old(self).remaining(), 1nat,
    {
        let saved = self.position;
        let res = self.parse_qualified_cons(lhs, start);
        if res.is_err() {
            self.position = saved;
        }
        res
    }

    /// What follows `Type::<Args>::`: a name, then a struct literal, a call
    /// (with an optional method turbofish) or nothing.
    pub fn finish_qualified_path(&mut self, ty: AstTypeExpr, start: Location) -> (r: Result<AstExpr, ParseError>)
        requires
            old(self).wf(),
        ensures
            final(self).advanced_from(old(self)),
            r matches Ok(e) ==> old(self).position < final(self).position && (e.data is StructLit
                || e.data is StaticCall || e.data is QualifiedPath),
            !(old(self).next_kind() matches Some(TokenKind::Identifier(_))) ==> r is Err,
            old(self).next_kind() matches Some(TokenKind::Identifier(n)) ==> (old(self).at(
                old(self).position + 1,
            ) != Some(TokenKind::OpenBra) && old(self).at(old(self).position + 1) != Some(TokenKind::Access)
                && old(self).at(old(self).position + 1) != Some(TokenKind::OpenPar) ==> r == Ok::<
                AstExpr,
                ParseError,
            >(
                Spanned {
                    data: AstExprDesc::QualifiedPath { ty, name: n },
                    span: span_of(start, final(self).spec_end()),
                },
            ) && final(self).position == old(self).position + 1),
            old(self).next_kind() matches Some(TokenKind::Identifier(n)) ==> (old(self).at(
                old(self).position + 1,
            ) == Some(TokenKind::OpenPar) && old(self).at(old(self).position + 2) == Some(TokenKind::ClosePar)
                ==> (r matches Ok(e) && (e.data matches AstExprDesc::StaticCall { method, args, type_args, .. }
                && method == n && args@.len() == 0 && type_args@.len() == 0) && final(self).position == old(
                self,
            ).position + 3)),
        decreases old(self).remaining(), 0nat,
    {
        let name_sym = self.parse_symbol()?;
        // No backtracking here: only field syntax or empty braces make a
        // struct literal, so that a `match` block is never swallowed.
        let after = self.peek_kind(1);
        let is_struct_lit = !self.restrict_struct_lit && self.peek_kind(0) == Some(TokenKind::OpenBra)
            && (after == Some(TokenKind::Dot) || after == Some(TokenKind::CloseBra));
        if is_struct_lit {
            self.consume();
            let fields = self.parse_struct_fields()?;
            self.expect(TokenKind::CloseBra)?;
            self.consume();
            let end = self.get_end();
            Ok(
                Spanned::new(
                    AstExprDesc::StructLit { ty, variant: Some(name_sym.data), fields },
                    start.span(end),
                ),
            )
        } else {
            let type_args = if self.peek_kind(0) == Some(TokenKind::Access) && self.peek_kind(1) == Some(
                TokenKind::Lt,
            ) {
                self.consume();
                let ta = self.parse_turbofish_args()?;
                // A method turbofish only stands before a call.
                self.expect(TokenKind::OpenPar)?;
                ta
            } else {
                Vec::new()
            };
            if self.peek_kind(0) == Some(TokenKind::OpenPar) {
                self.consume();
                let args = self.parse_expr_args()?;
                self.expect(TokenKind::ClosePar)?;
                self.consume();
                let end = self.get_end();
                Ok(
                    Spanned::new(
                        AstExprDesc::StaticCall { ty, method: name_sym.data, args, type_args },
                        start.span(end),
                    ),
                )
            } else {
                let end = self.get_end();
                Ok(
                    Spanned::new(
                        AstExprDesc::QualifiedPath { ty, name: name_sym.data },
                        start.span(end),
                    ),
                )
            }
        }
    }
}

/// The binary operators from the loosest to the tightest: `..`; `||`;
/// `&&`; `|`; `^`; `&`; `==` and `!=`; `<`, `<=`, `>` and `>=`; `+` and
/// `-`; `*`, `/` and `%`; `as`. Operators of one group bind alike.
pub proof fn lemma_precedence_order()
    ensures
        infix_precedence(TokenKind::DotDot).unwrap() < infix_precedence(TokenKind::Or).unwrap(),
        infix_precedence(TokenKind::Or).unwrap() < infix_precedence(TokenKind::And).unwrap(),
        infix_precedence(TokenKind::And).unwrap() < infix_precedence(TokenKind::BitOr).unwrap(),
        infix_precedence(TokenKind::BitOr).unwrap() < infix_precedence(TokenKind::BitXor).unwrap(),
        infix_precedence(TokenKind::BitXor).unwrap() < infix_precedence(TokenKind::BitAnd).unwrap(),
        infix_precedence(TokenKind::BitAnd).unwrap() < infix_precedence(TokenKind::EqEq).unwrap(),
        infix_precedence(TokenKind::EqEq) == infix_precedence(TokenKind::Diff),
        infix_precedence(TokenKind::EqEq).unwrap() < infix_precedence(TokenKind::Lt).unwrap(),
        infix_precedence(TokenKind::Lt) == infix_precedence(TokenKind::Leq),
        infix_precedence(TokenKind::Lt) == infix_precedence(TokenKind::Gt),
        infix_precedence(TokenKind::Lt) == infix_precedence(TokenKind::Geq),
        infix_precedence(TokenKind::Lt).unwrap() < infix_precedence(TokenKind::Plus).unwrap(),
        infix_precedence(TokenKind::Plus) == infix_precedence(TokenKind::Minus),
        infix_precedence(TokenKind::Plus).unwrap() < infix_precedence(TokenKind::Mult).unwrap(),
        infix_precedence(TokenKind::Mult) == infix_precedence(TokenKind::Div),
        infix_precedence(TokenKind::Mult) == infix_precedence(TokenKind::Modulo),
        infix_precedence(TokenKind::Mult).unwrap() < infix_precedence(TokenKind::As).unwrap(),
        forall|k: TokenKind| #[trigger] spec_token_to_binop(k) is Some ==> infix_precedence(k) is Some,
{
}

/// The tree of `x op1 y op2 z`, three operands joined by two binary
/// operators: the second operator takes `y` and `z` when it binds tighter
/// than the first, else the first takes `x` and `y`.
pub proof fn lemma_two_operators(toks: Seq<Token>, file: SourceFile, i: int)
    requires
        operand_at(toks, i),
        spec_token_to_binop(toks[i + 1].kind) is Some,
        operand_at(toks, i + 2),
        spec_token_to_binop(toks[i + 3].kind) is Some,
        operand_at(toks, i + 4),
        toks.len() == i + 5,
    ensures
        climb(toks, file, i, 0) matches Some((t, e)) && e == i + 5 && (t.data matches AstExprDesc::BinOp {
            lhs,
            op,
            rhs,
        } && if infix_precedence(toks[i + 1].kind).unwrap() < infix_precedence(toks[i + 3].kind).unwrap() {
            &&& *lhs == operand_expr(toks, file, i)
            &&& Some(op) == spec_token_to_binop(toks[i + 1].kind)
            &&& rhs.data matches AstExprDesc::BinOp { lhs: y, op: o2, rhs: z }
            &&& *y == operand_expr(toks, file, i + 2)
            &&& Some(o2) == spec_token_to_binop(toks[i + 3].kind)
            &&& *z == operand_expr(toks, file, i + 4)
        } else {
            &&& lhs.data matches AstExprDesc::BinOp { lhs: x, op: o1, rhs: y }
            &&& *x == operand_expr(toks, file, i)
            &&& Some(o1) == spec_token_to_binop(toks[i + 1].kind)
            &&& *y == operand_expr(toks, file, i + 2)
            &&& Some(op) == spec_token_to_binop(toks[i + 3].kind)
            &&& *rhs == operand_expr(toks, file, i + 4)
        }),
{
    lemma_precedence_order();
    let k1 = toks[i + 1].kind;
    let k2 = toks[i + 3].kind;
    let p1 = infix_precedence(k1).unwrap() as int;
    let p2 = infix_precedence(k2).unwrap() as int;
    let x = operand_expr(toks, file, i);
    let y = operand_expr(toks, file, i + 2);
    let z = operand_expr(toks, file, i + 4);
    let op1 = spec_token_to_binop(k1).unwrap();
    let op2 = spec_token_to_binop(k2).unwrap();
    assert(unary_operand(toks, file, i) == Some((x, i + 1)));
    assert(unary_operand(toks, file, i + 2) == Some((y, i + 3)));
    assert(unary_operand(toks, file, i + 4) == Some((z, i + 5)));
    assert(tok_at(toks, i + 5) is None);
    assert(climb_loop(toks, file, i + 5, z, 2 * p2) == Some((z, i + 5)));
    assert(climb(toks, file, i + 4, 2 * p2) == Some((z, i + 5)));
    assert(tok_at(toks, i + 1) == Some(k1));
    assert(tok_at(toks, i + 3) == Some(k2));
    if p1 < p2 {
        let yz = Spanned {
            data: AstExprDesc::BinOp { lhs: Box::new(y), op: op2, rhs: Box::new(z) },
            span: Span { file: y.span.file, start_offset: y.span.start_offset, end_offset: toks[i + 4].location.end_offset },
        };
        assert(climb_loop(toks, file, i + 5, yz, 2 * p1) == Some((yz, i + 5)));
        assert(climb_loop(toks, file, i + 3, y, 2 * p1) == Some((yz, i + 5)));
        assert(climb(toks, file, i + 2, 2 * p1) == Some((yz, i + 5)));
        let xyz = Spanned {
            data: AstExprDesc::BinOp { lhs: Box::new(x), op: op1, rhs: Box::new(yz) },
            span: Span { file: x.span.file, start_offset: x.span.start_offset, end_offset: toks[i + 4].location.end_offset },
        };
        assert(climb_loop(toks, file, i + 5, xyz, 0) == Some((xyz, i + 5)));
        assert(climb_loop(toks, file, i + 1, x, 0) == Some((xyz, i + 5)));
    } else {
        assert(climb_loop(toks, file, i + 3, y, 2 * p1) == Some((y, i + 3)));
        assert(climb(toks, file, i + 2, 2 * p1) == Some((y, i + 3)));
        let xy = Spanned {
            data: AstExprDesc::BinOp { lhs: Box::new(x), op: op1, rhs: Box::new(y) },
            span: Span { file: x.span.file, start_offset: x.span.start_offset, end_offset: toks[i + 2].location.end_offset },
        };
        assert(climb_loop(toks, file, i + 1, x, 0) == climb_loop(toks, file, i + 3, xy, 0));
        let xyz = Spanned {
            data: AstExprDesc::BinOp { lhs: Box::new(xy), op: op2, rhs: Box::new(z) },
            span: Span { file: xy.span.file, start_offset: xy.span.start_offset, end_offset: toks[i + 4].location.end_offset },
        };
        assert(climb_loop(toks, file, i + 5, xyz, 0) == Some((xyz, i + 5)));
        assert(climb_loop(toks, file, i + 3, xy, 0) == Some((xyz, i + 5)));
    }
}

/// `&&` binds tighter than `||`: `x || y && z` is `x || (y && z)`, whatever
/// the operands.
pub proof fn lemma_and_binds_tighter_than_or(toks: Seq<Token>, file: SourceFile, i: int)
    requires
        operand_at(toks, i),
        toks[i + 1].kind == TokenKind::Or,
        operand_at(toks, i + 2),
        toks[i + 3].kind == TokenKind::And,
        operand_at(toks, i + 4),
        toks.len() == i + 5,
    ensures
        climb(toks, file, i, 0) matches Some((t, e)) && e == i + 5 && (t.data matches AstExprDesc::BinOp {
            lhs,
            op: BinaryOperator::Or,
            rhs,
        } && *lhs == operand_expr(toks, file, i) && (rhs.data matches AstExprDesc::BinOp {
            lhs: y,
            op: BinaryOperator::And,
            rhs: z,
        } && *y == operand_expr(toks, file, i + 2) && *z == operand_expr(toks, file, i + 4))),
{
    lemma_two_operators(toks, file, i);
}

/// Operators of one precedence group left to right: `x - y + z` is
/// `(x - y) + z`, whatever the operands.
pub proof fn lemma_minus_plus_to_the_left(toks: Seq<Token>, file: SourceFile, i: int)
    requires
        operand_at(toks, i),
        toks[i + 1].kind == TokenKind::Minus,
        operand_at(toks, i + 2),
        toks[i + 3].kind == TokenKind::Plus,
        operand_at(toks, i + 4),
        toks.len() == i + 5,
    ensures
        climb(toks, file, i, 0) matches Some((t, e)) && e == i + 5 && (t.data matches AstExprDesc::BinOp {
            lhs,
            op: BinaryOperator::Plus,
            rhs,
        } && *rhs == operand_expr(toks, file, i + 4) && (lhs.data matches AstExprDesc::BinOp {
            lhs: x,
            op: BinaryOperator::Minus,
            rhs: y,
        } && *x == operand_expr(toks, file, i) && *y == operand_expr(toks, file, i + 2))),
{
    lemma_two_operators(toks, file, i);
}

/// A prefix operator before an operand: `-x` negates `x`, `!x` is its
/// logical not, `*x` dereferences it, `&x` and `&mut x` take a shared and a
/// mutable reference to it; each takes the operator's tokens and the
/// operand's.
pub proof fn lemma_prefix_operators(toks: Seq<Token>, file: SourceFile, i: int)
    requires
        0 <= i < toks.len(),
    ensures
        toks[i].kind == TokenKind::Minus && operand_at(toks, i + 1) ==> (unary_operand(toks, file, i) matches Some(
            (t, e),
        ) && e == i + 2 && t.data == AstExprDesc::Neg(Box::new(operand_expr(toks, file, i + 1)))),
        toks[i].kind == TokenKind::Not && operand_at(toks, i + 1) ==> (unary_operand(toks, file, i) matches Some(
            (t, e),
        ) && e == i + 2 && t.data == AstExprDesc::Not(Box::new(operand_expr(toks, file, i + 1)))),
        toks[i].kind == TokenKind::Mult && operand_at(toks, i + 1) ==> (unary_operand(toks, file, i) matches Some(
            (t, e),
        ) && e == i + 2 && t.data == AstExprDesc::PrefixDeref(Box::new(operand_expr(toks, file, i + 1)))),
        toks[i].kind == TokenKind::BitAnd && operand_at(toks, i + 1) ==> (unary_operand(toks, file, i) matches Some(
            (t, e),
        ) && e == i + 2 && t.data == AstExprDesc::Ref(false, Box::new(operand_expr(toks, file, i + 1)))),
        toks[i].kind == TokenKind::BitAnd && i + 1 < toks.len() && toks[i + 1].kind == TokenKind::Mut
            && operand_at(toks, i + 2) ==> (unary_operand(toks, file, i) matches Some((t, e)) && e == i + 3
            && t.data == AstExprDesc::Ref(true, Box::new(operand_expr(toks, file, i + 2)))),
{
    if operand_at(toks, i + 1) {
        assert(unary_operand(toks, file, i + 1) == Some((operand_expr(toks, file, i + 1), i + 2)));
    }
    if operand_at(toks, i + 2) {
        assert(unary_operand(toks, file, i + 2) == Some((operand_expr(toks, file, i + 2), i + 3)));
    }
}

} // verus!
