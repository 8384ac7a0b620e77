//! Statements and blocks.
use vstd::prelude::*;
use crate::common::span_of;
use crate::parse_tree::Spanned;
use crate::parse_tree::stmt::{AstMatchBranch, AstStmt, AstStmtDesc, CompoundAssignOp};
use crate::parser::{ParseError, Parser};
use crate::parser::expr::{atom_desc, climb, expr_end, outcome};
use crate::token::TokenKind;

verus! {

/// The compound assignment a token denotes, if any.
pub open spec fn compound_assign_of(k: Option<TokenKind>) -> Option<CompoundAssignOp> {
    match k {
        Some(TokenKind::PlusEq) => Some(CompoundAssignOp::Plus),
        Some(TokenKind::MinusEq) => Some(CompoundAssignOp::Minus),
        Some(TokenKind::MultEq) => Some(CompoundAssignOp::Times),
        Some(TokenKind::DivEq) => Some(CompoundAssignOp::Div),
        Some(TokenKind::ModuloEq) => Some(CompoundAssignOp::Modulo),
        _ => None,
    }
}

/// The shape of a parsed statement, by the token it started with.
pub open spec fn stmt_shape(first: TokenKind, s: AstStmtDesc) -> bool {
    match first {
        TokenKind::OpenBra => s is Block,
        TokenKind::Return => s is Return,
        TokenKind::Let => s is LetDecl,
        TokenKind::If => s is If,
        TokenKind::For => s is For,
        TokenKind::While => s is While,
        TokenKind::Match => s is Match,
        TokenKind::Break => s is Break,
        TokenKind::Defer => s is Defer,
        _ => s is Assign || s is CompoundAssign || s is Expr,
    }
}

impl<'a> Parser<'a> {
    /// `{ }` from token `i`.
    pub open spec fn empty_block_at(&self, i: int) -> bool {
        self.at(i) == Some(TokenKind::OpenBra) && self.at(i + 1) == Some(TokenKind::CloseBra)
    }

    /// Where the expression of operands and binary operators from token `i`
    /// ends, -1 where none stands.
    pub open spec fn expr_end_at(&self, i: int) -> int {
        expr_end(self.tokens@, self.file, i)
    }

    /// An expression of operands and binary operators from token `i`, then
    /// a `;` closing it.
    pub open spec fn expr_semi_at(&self, i: int) -> bool {
        self.expr_end_at(i) > i && self.at(self.expr_end_at(i)) == Some(TokenKind::Semicolon)
    }

    /// How many tokens the simple statement at token `i` takes, 0 where none
    /// stands: `break ;` and `return ;`; `return E ;`, `E ;`, `E = F ;`,
    /// `E op= F ;` and `let P = E ;`; a block `{ .. }`, `while E { .. }` and
    /// `if E { .. }` with no `else`, their bodies made of simple statements.
    /// `E` and `F` are operands (integer literals and names) joined by binary
    /// operators and `P` a pattern of one token.
    pub open spec fn simple_stmt_len(&self, i: int) -> int
        decreases self.tokens@.len() - i, 0nat,
    {
        let c = self.expr_end_at(i + 1);
        if !(0 <= i < self.tokens@.len()) {
            0
        } else if self.at(i) == Some(TokenKind::OpenBra) && self.body_end(i + 1) >= 0 {
            self.body_end(i + 1) + 1 - i
        } else if (self.at(i) == Some(TokenKind::Break) || self.at(i) == Some(TokenKind::Return)) && self.at(
            i + 1,
        ) == Some(TokenKind::Semicolon) {
            2
        } else if self.at(i) == Some(TokenKind::Return) && self.expr_semi_at(i + 1) {
            self.expr_end_at(i + 1) + 1 - i
        } else if self.at(i) == Some(TokenKind::Let) && self.simple_pattern_at(i + 1) && self.at(i + 2) == Some(
            TokenKind::Eq,
        ) && self.expr_semi_at(i + 3) {
            self.expr_end_at(i + 3) + 1 - i
        } else if self.expr_semi_at(i) {
            self.expr_end_at(i) + 1 - i
        } else if self.expr_end_at(i) > i && (self.at(self.expr_end_at(i)) == Some(TokenKind::Eq)
            || compound_assign_of(self.at(self.expr_end_at(i))) is Some) && self.expr_semi_at(
            self.expr_end_at(i) + 1,
        ) {
            self.expr_end_at(self.expr_end_at(i) + 1) + 1 - i
        } else if (self.at(i) == Some(TokenKind::While) || self.at(i) == Some(TokenKind::If)) && c > i + 1
            && self.at(c) == Some(TokenKind::OpenBra) && self.body_end(c + 1) >= 0 && (self.at(i) == Some(
            TokenKind::If,
        ) ==> self.at(self.body_end(c + 1) + 1) != Some(TokenKind::Else)) {
            self.body_end(c + 1) + 1 - i
        } else {
            0
        }
    }

    /// Where the `}` closing a block body from token `i` stands, the body
    /// made of simple statements; -1 where the tokens do not have that form.
    pub open spec fn body_end(&self, i: int) -> int
        decreases self.tokens@.len() - i, 1nat,
    {
        if !(0 <= i < self.tokens@.len()) {
            -1
        } else if self.at(i) == Some(TokenKind::CloseBra) {
            i
        } else if self.simple_stmt_len(i) > 0 && i + self.simple_stmt_len(i) < self.tokens@.len() {
            self.body_end(i + self.simple_stmt_len(i))
        } else {
            -1
        }
    }

    /// How many simple statements a block body from token `i` holds before
    /// its `}`.
    pub open spec fn body_count(&self, i: int) -> int
        decreases self.tokens@.len() - i,
    {
        if !(0 <= i < self.tokens@.len()) || self.at(i) == Some(TokenKind::CloseBra) {
            0
        } else if self.simple_stmt_len(i) > 0 && i + self.simple_stmt_len(i) < self.tokens@.len() {
            1 + self.body_count(i + self.simple_stmt_len(i))
        } else {
            0
        }
    }

    /// The length of a simple statement reads the tokens, the file and the
    /// known names alone.
    pub proof fn lemma_stmt_tokens(a: Parser<'a>, b: Parser<'a>, i: int)
        requires
            a.tokens@ == b.tokens@,
            a.file == b.file,
            a.known == b.known,
        ensures
            a.simple_stmt_len(i) == b.simple_stmt_len(i),
        decreases a.tokens@.len() - i, 0nat,
    {
        if 0 <= i < a.tokens@.len() {
            if i + 1 <= a.tokens@.len() {
                Self::lemma_end_tokens(a, b, i + 1);
            }
            let c = a.expr_end_at(i + 1);
            if c > i + 1 && a.at(c) == Some(TokenKind::OpenBra) {
                Self::lemma_end_tokens(a, b, c + 1);
            }
        }
    }

    /// The end of a block body reads the tokens, the file and the known names
    /// alone.
    pub proof fn lemma_end_tokens(a: Parser<'a>, b: Parser<'a>, i: int)
        requires
            a.tokens@ == b.tokens@,
            a.file == b.file,
            a.known == b.known,
        ensures
            a.body_end(i) == b.body_end(i),
        decreases a.tokens@.len() - i, 1nat,
    {
        if 0 <= i < a.tokens@.len() {
            Self::lemma_stmt_tokens(a, b, i);
            if a.at(i) != Some(TokenKind::CloseBra) && a.simple_stmt_len(i) > 0 && i + a.simple_stmt_len(i)
                < a.tokens@.len() {
                Self::lemma_end_tokens(a, b, i + a.simple_stmt_len(i));
            }
        }
    }

    /// The end and the count of a block body read the tokens, the file and the
    /// known names alone.
    pub proof fn lemma_body_tokens(a: Parser<'a>, b: Parser<'a>, i: int)
        requires
            a.tokens@ == b.tokens@,
            a.file == b.file,
            a.known == b.known,
        ensures
            a.body_end(i) == b.body_end(i),
            a.body_count(i) == b.body_count(i),
        decreases a.tokens@.len() - i,
    {
        Self::lemma_end_tokens(a, b, i);
        if 0 <= i < a.tokens@.len() {
            Self::lemma_stmt_tokens(a, b, i);
            if a.at(i) != Some(TokenKind::CloseBra) && a.simple_stmt_len(i) > 0 && i + a.simple_stmt_len(i)
                < a.tokens@.len() {
                Self::lemma_body_tokens(a, b, i + a.simple_stmt_len(i));
            }
        }
    }

    /// `{ .. }` from token `i`, its body made of simple statements.
    pub open spec fn simple_block_at(&self, i: int) -> bool {
        self.at(i) == Some(TokenKind::OpenBra) && self.body_end(i + 1) >= 0
    }

    /// `s` is a block statement of `n` statements.
    pub open spec fn block_of_len(s: AstStmt, n: int) -> bool {
        s.data matches AstStmtDesc::Block { stmts } && stmts@.len() == n
    }

    /// The body of a block statement, if `s` is one.
    pub open spec fn block_is_empty(s: AstStmt) -> bool {
        s.data matches AstStmtDesc::Block { stmts } && stmts@.len() == 0
    }

    /// `{ stmt* }`, with its braces.
    pub fn parse_block(&mut self) -> (r: Result<Vec<AstStmt>, ParseError>)
        requires
            old(self).wf(),
        ensures
            final(self).advanced_from(old(self)),
            old(self).next_kind() != Some(TokenKind::OpenBra) ==> r is Err && final(self).position
                == old(self).position,
            r is Ok ==> old(self).position + 2 <= final(self).position,
            old(self).simple_block_at(old(self).position as int) ==> (r matches Ok(stmts) && stmts@.len()
                == old(self).body_count(old(self).position + 1) && final(self).position == old(self).body_end(
                old(self).position + 1,
            ) + 1),
        decreases old(self).remaining(), 1nat,
    {
        self.expect(TokenKind::OpenBra)?;
        self.consume();
        let mut res: Vec<AstStmt> = Vec::new();
        loop
            invariant_except_break
                self.advanced_from(old(self)),
                old(self).position < self.position,
                old(self).next_kind() == Some(TokenKind::OpenBra),
                old(self).body_end(old(self).position + 1) >= 0 ==> {
                    &&& old(self).body_end(self.position as int) == old(self).body_end(old(self).position + 1)
                    &&& old(self).body_count(self.position as int) + res@.len() == old(self).body_count(
                        old(self).position + 1,
                    )
                },
            ensures
                self.advanced_from(old(self)),
                old(self).position < self.position,
                old(self).next_kind() == Some(TokenKind::OpenBra),
                old(self).body_end(old(self).position + 1) >= 0 ==> {
                    &&& res@.len() == old(self).body_count(old(self).position + 1)
                    &&& self.position == old(self).body_end(old(self).position + 1)
                    &&& old(self).at(self.position as int) == Some(TokenKind::CloseBra)
                },
            decreases self.remaining(),
        {
            match self.peek_kind(0) {
                None | Some(TokenKind::CloseBra) => break,
                _ => {},
            }
            proof {
                Self::lemma_stmt_tokens(*old(self), *self, self.position as int);
            }
            res.push(self.parse_stmt()?);
        }
        self.expect(TokenKind::CloseBra)?;
        self.consume();
        Ok(res)
    }

    /// A block, as a statement.
    pub fn parse_block_as_stmt(&mut self) -> (r: Result<AstStmt, ParseError>)
        requires
            old(self).wf(),
        ensures
            final(self).advanced_from(old(self)),
            old(self).next_kind() != Some(TokenKind::OpenBra) ==> r is Err && final(self).position
                == old(self).position,
            r matches Ok(s) ==> old(self).position + 2 <= final(self).position && s.data is Block
                && s.span == span_of(old(self).spec_end(), final(self).spec_end()),
            old(self).empty_block_at(old(self).position as int) ==> (r matches Ok(s) && Self::block_is_empty(s)
                && final(self).position == old(self).position + 2),
            old(self).simple_block_at(old(self).position as int) ==> (r matches Ok(s) && Self::block_of_len(
                s,
                old(self).body_count(old(self).position + 1),
            ) && final(self).position == old(self).body_end(old(self).position + 1) + 1),
        decreases old(self).remaining(), 2nat,
    {
        let start = self.get_end();
        let stmts = self.parse_block()?;
        let end = self.get_end();
        Ok(Spanned::new(AstStmtDesc::Block { stmts }, start.span(end)))
    }

    /// `let pat (: type)? = expr;`
    pub fn parse_let_decl(&mut self) -> (r: Result<AstStmt, ParseError>)
        requires
            old(self).wf(),
        ensures
            final(self).advanced_from(old(self)),
            old(self).next_kind() != Some(TokenKind::Let) ==> r is Err && final(self).position
                == old(self).position,
            r matches Ok(s) ==> old(self).position < final(self).position && s.data is LetDecl,
            old(self).next_kind() == Some(TokenKind::Let) && old(self).simple_pattern_at(old(self).position + 1)
                && old(self).at(old(self).position + 2) == Some(TokenKind::Eq) && old(self).atom_at(
                old(self).position + 3,
            ) && old(self).at(old(self).position + 4) == Some(TokenKind::Semicolon) ==> (r matches Ok(s)
                && (s.data matches AstStmtDesc::LetDecl { type_constraint, value, .. } && type_constraint is None
                && value.data == atom_desc(old(self).tokens@[old(self).position + 3].kind))
                && final(self).position == old(self).position + 5),
            old(self).next_kind() == Some(TokenKind::Let) && old(self).simple_pattern_at(old(self).position + 1)
                && old(self).at(old(self).position + 2) == Some(TokenKind::Eq) ==> (climb(
                old(self).tokens@,
                old(self).file,
                old(self).position + 3,
                0,
            ) matches Some((t, e)) ==> (old(self).at(e) == Some(TokenKind::Semicolon) ==> (r matches Ok(s)
                && (s.data matches AstStmtDesc::LetDecl { type_constraint, value, .. } && type_constraint is None
                && value == t) && final(self).position == e + 1))),
        decreases old(self).remaining(), 1nat,
    {
        let start = self.get_start();
        self.expect(TokenKind::Let)?;
        self.consume();
        let pat = self.parse_pattern()?;
        let type_constraint = if self.peek_kind(0) == Some(TokenKind::Colon) {
            self.consume();
            Some(self.parse_any_type_expr()?)
        } else {
            None
        };
        self.expect(TokenKind::Eq)?;
        self.consume();
        let value = self.parse_expr()?;
        self.expect(TokenKind::Semicolon)?;
        self.consume();
        let end = self.get_end();
        Ok(Spanned::new(AstStmtDesc::LetDecl { pat, type_constraint, value }, start.span(end)))
    }

    /// `for pat in expr { .. }`
    pub fn parse_for_stmt(&mut self) -> (r: Result<AstStmt, ParseError>)
        requires
            old(self).wf(),
        ensures
            final(self).advanced_from(old(self)),
            old(self).next_kind() != Some(TokenKind::For) ==> r is Err && final(self).position
                == old(self).position,
            r matches Ok(s) ==> old(self).position < final(self).position && s.data is For,
            old(self).next_kind() == Some(TokenKind::For) && old(self).simple_pattern_at(old(self).position + 1)
                && old(self).at(old(self).position + 2) == Some(TokenKind::In) && old(self).atom_at(
                old(self).position + 3,
            ) && old(self).simple_block_at(old(self).position + 4) ==> (r matches Ok(s) && (s.data matches AstStmtDesc::For {
                iterator,
                body,
                ..
            } && iterator.data == atom_desc(old(self).tokens@[old(self).position + 3].kind)
                && Self::block_of_len(*body, old(self).body_count(old(self).position + 5)))
                && final(self).position == old(self).body_end(old(self).position + 5) + 1),
        decreases old(self).remaining(), 1nat,
    {
        let start = self.get_start();
        self.expect(TokenKind::For)?;
        self.consume();
        let element = self.parse_pattern()?;
        self.expect(TokenKind::In)?;
        self.consume();
        let iterator = self.parse_expr()?;
        proof {
            Self::lemma_body_tokens(*old(self), *self, old(self).position + 5);
        }
        let body = self.parse_block_as_stmt()?;
        let end = self.get_end();
        Ok(Spanned::new(AstStmtDesc::For { element, iterator, body: Box::new(body) }, start.span(end)))
    }

    /// `return expr?;`
    pub fn parse_return(&mut self) -> (r: Result<AstStmt, ParseError>)
        requires
            old(self).wf(),
        ensures
            final(self).advanced_from(old(self)),
            old(self).next_kind() != Some(TokenKind::Return) ==> r is Err && final(self).position
                == old(self).position,
            r matches Ok(s) ==> old(self).position < final(self).position && (s.data matches AstStmtDesc::Return {
                value,
            } && (value is None <==> old(self).at(old(self).position + 1) == Some(TokenKind::Semicolon))),
            old(self).next_kind() == Some(TokenKind::Return) && old(self).at(old(self).position + 1) == Some(
                TokenKind::Semicolon,
            ) ==> (r matches Ok(s) && s.data == (AstStmtDesc::Return { value: None })
                && final(self).position == old(self).position + 2),
            old(self).next_kind() == Some(TokenKind::Return) && old(self).atom_at(old(self).position + 1)
                && old(self).at(old(self).position + 2) == Some(TokenKind::Semicolon) ==> (r matches Ok(s)
                && (s.data matches AstStmtDesc::Return { value: Some(e) } && e.data == atom_desc(
                old(self).tokens@[old(self).position + 1].kind,
            )) && final(self).position == old(self).position + 3),
            old(self).next_kind() == Some(TokenKind::Return) ==> (climb(
                old(self).tokens@,
                old(self).file,
                old(self).position + 1,
                0,
            ) matches Some((t, e)) ==> (old(self).at(e) == Some(TokenKind::Semicolon) ==> (r matches Ok(s)
                && s.data == (AstStmtDesc::Return { value: Some(t) }) && final(self).position == e + 1))),
        decreases old(self).remaining(), 1nat,
    {
        let start = self.get_start();
        self.expect(TokenKind::Return)?;
        self.consume();
        let value = if self.peek_kind(0) == Some(TokenKind::Semicolon) {
            None
        } else {
            Some(self.parse_expr()?)
        };
        self.expect(TokenKind::Semicolon)?;
        self.consume();
        let end = self.get_end();
        Ok(Spanned::new(AstStmtDesc::Return { value }, start.span(end)))
    }

    /// `while expr { .. }`
    pub fn parse_while_stmt(&mut self) -> (r: Result<AstStmt, ParseError>)
        requires
            old(self).wf(),
        ensures
            final(self).advanced_from(old(self)),
            old(self).next_kind() != Some(TokenKind::While) ==> r is Err && final(self).position
                == old(self).position,
            r matches Ok(s) ==> old(self).position < final(self).position && s.data is While,
            old(self).next_kind() == Some(TokenKind::While) && old(self).atom_at(old(self).position + 1)
                && old(self).simple_block_at(old(self).position + 2) ==> (r matches Ok(s) && (s.data matches AstStmtDesc::While {
                cond,
                body,
            } && cond.data == atom_desc(old(self).tokens@[old(self).position + 1].kind) && Self::block_of_len(
                *body,
                old(self).body_count(old(self).position + 3),
            )) && final(self).position == old(self).body_end(old(self).position + 3) + 1),
            old(self).next_kind() == Some(TokenKind::While) && old(self).expr_end_at(old(self).position + 1) > old(self).position + 1 && old(
                self,
            ).simple_block_at(old(self).expr_end_at(old(self).position + 1)) ==> (r matches Ok(s) && (s.data matches AstStmtDesc::While {
                cond,
                body,
            } && climb(old(self).tokens@, old(self).file, old(self).position + 1, 0) == Some(
                (cond, old(self).expr_end_at(old(self).position + 1)),
            ) && Self::block_of_len(*body, old(self).body_count(old(self).expr_end_at(old(self).position + 1) + 1)))
                && final(self).position == old(self).body_end(old(self).expr_end_at(old(self).position + 1) + 1)
                + 1),
        decreases old(self).remaining(), 1nat,
    {
        let start = self.get_start();
        self.expect(TokenKind::While)?;
        self.consume();
        let cond = self.parse_expr()?;
        proof {
            Self::lemma_body_tokens(*old(self), *self, old(self).position + 3);
            Self::lemma_body_tokens(*old(self), *self, self.position + 1);
        }
        let body = self.parse_block_as_stmt()?;
        let end = self.get_end();
        Ok(Spanned::new(AstStmtDesc::While { cond, body: Box::new(body) }, start.span(end)))
    }

    /// `place = expr;` or `place op= expr;`; nothing is consumed when it is not one.
    pub fn try_parse_assign(&mut self) -> (r: Option<AstStmt>)
        requires
            old(self).wf(),
        ensures
            final(self).advanced_from(old(self)),
            r is None ==> final(self).position == old(self).position,
            r matches Some(s) ==> old(self).position < final(self).position && (s.data is Assign
                || s.data is CompoundAssign),
            old(self).atom_at(old(self).position as int) && old(self).at(old(self).position + 1) != Some(
                TokenKind::Eq,
            ) && compound_assign_of(old(self).at(old(self).position + 1)) is None ==> r is None,
            old(self).atom_at(old(self).position as int) && old(self).at(old(self).position + 1) == Some(
                TokenKind::Eq,
            ) && old(self).atom_at(old(self).position + 2) && old(self).at(old(self).position + 3) == Some(
                TokenKind::Semicolon,
            ) ==> (r matches Some(s) && (s.data matches AstStmtDesc::Assign { lhs, rhs } && lhs.data
                == old(self).atom_here() && rhs.data == atom_desc(old(self).tokens@[old(self).position + 2].kind))
                && final(self).position == old(self).position + 4),
            old(self).atom_at(old(self).position as int) && compound_assign_of(old(self).at(old(self).position + 1))
                is Some && old(self).atom_at(old(self).position + 2) && old(self).at(old(self).position + 3)
                == Some(TokenKind::Semicolon) ==> (r matches Some(s) && (s.data matches AstStmtDesc::CompoundAssign {
                lhs,
                op,
                rhs,
            } && Some(op) == compound_assign_of(old(self).at(old(self).position + 1)) && lhs.data == old(
                self,
            ).atom_here() && rhs.data == atom_desc(old(self).tokens@[old(self).position + 2].kind))
                && final(self).position == old(self).position + 4),
            r matches Some(s) ==> exists|m: int|
                #![trigger old(self).at(m)]
                old(self).position < m < final(self).position - 1 && (s.data is Assign <==> old(self).at(m)
                    == Some(TokenKind::Eq)) && (s.data matches AstStmtDesc::CompoundAssign { op, .. } ==> Some(op)
                    == compound_assign_of(old(self).at(m))) && old(self).at(final(self).position - 1) == Some(
                    TokenKind::Semicolon,
                ),
            climb(old(self).tokens@, old(self).file, old(self).position as int, 0) matches Some((t, e)) ==> (old(
                self,
            ).at(e) != Some(TokenKind::Eq) && compound_assign_of(old(self).at(e)) is None ==> r is None),
            climb(old(self).tokens@, old(self).file, old(self).position as int, 0) matches Some((t, e)) ==> ((
            old(self).at(e) == Some(TokenKind::Eq) || compound_assign_of(old(self).at(e)) is Some) ==> (climb(
                old(self).tokens@,
                old(self).file,
                e + 1,
                0,
            ) matches Some((u, f)) ==> (old(self).at(f) == Some(TokenKind::Semicolon) ==> (r matches Some(s) && (
            s.data == AstStmtDesc::Assign { lhs: t, rhs: u } || s.data == AstStmtDesc::CompoundAssign {
                lhs: t,
                op: compound_assign_of(old(self).at(e))->0,
                rhs: u,
            }) && (s.data is Assign <==> old(self).at(e) == Some(TokenKind::Eq)) && final(self).position == f
                + 1)))),
    {
        let saved_pos = self.position;
        let start = self.get_start();
        let lhs = match self.parse_expr() {
            Ok(e) => e,
            Err(_) => {
                self.position = saved_pos;
                return None;
            },
        };
        let ghost m = self.position as int;
        let next = self.peek_kind(0);
        let compound_op: Option<CompoundAssignOp> = match next {
            Some(TokenKind::PlusEq) => Some(CompoundAssignOp::Plus),
            Some(TokenKind::MinusEq) => Some(CompoundAssignOp::Minus),
            Some(TokenKind::MultEq) => Some(CompoundAssignOp::Times),
            Some(TokenKind::DivEq) => Some(CompoundAssignOp::Div),
            Some(TokenKind::ModuloEq) => Some(CompoundAssignOp::Modulo),
            _ => None,
        };
        let is_plain_assign = next == Some(TokenKind::Eq);
        if compound_op.is_none() && !is_plain_assign {
            self.position = saved_pos;
            return None;
        }
        self.consume();
        let rhs = match self.parse_expr() {
            Ok(e) => e,
            Err(_) => {
                self.position = saved_pos;
                return None;
            },
        };
        if self.expect(TokenKind::Semicolon).is_err() {
            self.position = saved_pos;
            return None;
        }
        self.consume();
        let end = self.get_end();
        let desc = match compound_op {
            Some(op) => AstStmtDesc::CompoundAssign { lhs, op, rhs },
            None => AstStmtDesc::Assign { lhs, rhs },
        };
        assert(old(self).at(m) == next);
        Some(Spanned::new(desc, start.span(end)))
    }

    /// `match expr { pat (if guard)? => { .. } ... }`
    pub fn parse_match_stmt(&mut self) -> (r: Result<AstStmt, ParseError>)
        requires
            old(self).wf(),
        ensures
            final(self).advanced_from(old(self)),
            old(self).next_kind() != Some(TokenKind::Match) ==> r is Err && final(self).position
                == old(self).position,
            r matches Ok(s) ==> old(self).position < final(self).position && s.data is Match,
            old(self).next_kind() == Some(TokenKind::Match) && old(self).atom_at(old(self).position + 1)
                && old(self).empty_block_at(old(self).position + 2) ==> (r matches Ok(s) && (s.data matches AstStmtDesc::Match {
                scrutinee,
                branches,
            } && scrutinee.data == atom_desc(old(self).tokens@[old(self).position + 1].kind)
                && branches@.len() == 0) && final(self).position == old(self).position + 4),
        decreases old(self).remaining(), 1nat,
    {
        let start = self.get_start();
        self.expect(TokenKind::Match)?;
        self.consume();
        let scrutinee = self.parse_expr()?;
        self.expect(TokenKind::OpenBra)?;
        self.consume();
        let mut branches: Vec<AstMatchBranch> = Vec::new();
        loop
            invariant_except_break
                self.advanced_from(old(self)),
                old(self).position < self.position,
                old(self).next_kind() == Some(TokenKind::Match),
                old(self).atom_at(old(self).position + 1) && old(self).empty_block_at(old(self).position + 2)
                    ==> self.position == old(self).position + 3 && branches@.len() == 0,
            ensures
                self.advanced_from(old(self)),
                old(self).position < self.position,
                old(self).next_kind() == Some(TokenKind::Match),
                old(self).atom_at(old(self).position + 1) && old(self).empty_block_at(old(self).position + 2)
                    ==> self.position == old(self).position + 3 && branches@.len() == 0,
            decreases self.remaining(),
        {
            match self.peek_kind(0) {
                None | Some(TokenKind::CloseBra) => break,
                _ => {},
            }
            let pat = self.parse_pattern()?;
            let guard = if self.peek_kind(0) == Some(TokenKind::If) {
                self.consume();
                Some(self.parse_expr()?)
            } else {
                None
            };
            self.expect(TokenKind::BigArrow)?;
            self.consume();
            let body = self.parse_block_as_stmt()?;
            branches.push(AstMatchBranch { pat, guard, body: Box::new(body) });
        }
        self.expect(TokenKind::CloseBra)?;
        self.consume();
        let end = self.get_end();
        Ok(Spanned::new(AstStmtDesc::Match { scrutinee, branches }, start.span(end)))
    }

    /// `if expr { .. } (else { .. })?`
    pub fn parse_if_stmt(&mut self) -> (r: Result<AstStmt, ParseError>)
        requires
            old(self).wf(),
        ensures
            final(self).advanced_from(old(self)),
            old(self).next_kind() != Some(TokenKind::If) ==> r is Err && final(self).position
                == old(self).position,
            r matches Ok(s) ==> old(self).position < final(self).position && s.data is If,
            old(self).next_kind() == Some(TokenKind::If) && old(self).atom_at(old(self).position + 1)
                && old(self).simple_block_at(old(self).position + 2) && old(self).at(
                old(self).body_end(old(self).position + 3) + 1,
            ) != Some(TokenKind::Else) ==> (r matches Ok(s) && (s.data matches AstStmtDesc::If {
                cond,
                then,
                else_,
            } && cond.data == atom_desc(old(self).tokens@[old(self).position + 1].kind) && Self::block_of_len(
                *then,
                old(self).body_count(old(self).position + 3),
            ) && else_ is None) && final(self).position == old(self).body_end(old(self).position + 3) + 1),
            old(self).next_kind() == Some(TokenKind::If) && old(self).atom_at(old(self).position + 1)
                && old(self).empty_block_at(old(self).position + 2) && old(self).at(old(self).position + 4)
                == Some(TokenKind::Else) && old(self).empty_block_at(old(self).position + 5) ==> (r matches Ok(
                s,
            ) && (s.data matches AstStmtDesc::If { else_: Some(e), .. } && Self::block_is_empty(*e))
                && final(self).position == old(self).position + 7),
            old(self).next_kind() == Some(TokenKind::If) && old(self).expr_end_at(old(self).position + 1) > old(self).position + 1 && old(
                self,
            ).simple_block_at(old(self).expr_end_at(old(self).position + 1)) && old(self).at(
                old(self).body_end(old(self).expr_end_at(old(self).position + 1) + 1) + 1,
            ) != Some(TokenKind::Else) ==> (r matches Ok(s) && (s.data matches AstStmtDesc::If {
                cond,
                then,
                else_,
            } && climb(old(self).tokens@, old(self).file, old(self).position + 1, 0) == Some(
                (cond, old(self).expr_end_at(old(self).position + 1)),
            ) && Self::block_of_len(*then, old(self).body_count(old(self).expr_end_at(old(self).position + 1) + 1))
                && else_ is None) && final(self).position == old(self).body_end(
                old(self).expr_end_at(old(self).position + 1) + 1,
            ) + 1),
        decreases old(self).remaining(), 1nat,
    {
        let start = self.get_start();
        self.expect(TokenKind::If)?;
        self.consume();
        let cond = self.parse_expr()?;
        proof {
            Self::lemma_body_tokens(*old(self), *self, old(self).position + 3);
            Self::lemma_body_tokens(*old(self), *self, self.position + 1);
        }
        let then = self.parse_block_as_stmt()?;
        let else_ = if self.peek_kind(0) == Some(TokenKind::Else) {
            self.consume();
            Some(Box::new(self.parse_block_as_stmt()?))
        } else {
            None
        };
        let end = self.get_end();
        Ok(Spanned::new(AstStmtDesc::If { cond, then: Box::new(then), else_ }, start.span(end)))
    }

    pub fn parse_stmt(&mut self) -> (r: Result<AstStmt, ParseError>)
        requires
            old(self).wf(),
        ensures
            final(self).advanced_from(old(self)),
            old(self).next_kind() is None ==> r is Err && final(self).position == old(self).position,
            r matches Ok(s) ==> {
                &&& old(self).position < final(self).position
                &&& old(self).next_kind() matches Some(k) && stmt_shape(k, s.data)
            },
            old(self).next_kind() == Some(TokenKind::Break) && old(self).at(old(self).position + 1) == Some(
                TokenKind::Semicolon,
            ) ==> (r matches Ok(s) && s.data == AstStmtDesc::Break && final(self).position == old(self).position
                + 2),
            old(self).next_kind() == Some(TokenKind::Return) && old(self).at(old(self).position + 1) == Some(
                TokenKind::Semicolon,
            ) ==> (r matches Ok(s) && s.data == (AstStmtDesc::Return { value: None })
                && final(self).position == old(self).position + 2),
            old(self).empty_block_at(old(self).position as int) ==> (r matches Ok(s) && Self::block_is_empty(s)
                && final(self).position == old(self).position + 2),
            old(self).atom_at(old(self).position as int) && old(self).at(old(self).position + 1) == Some(
                TokenKind::Semicolon,
            ) ==> (r matches Ok(s) && (s.data matches AstStmtDesc::Expr(e) && e.data == old(self).atom_here())
                && final(self).position == old(self).position + 2),
            old(self).atom_at(old(self).position as int) && old(self).at(old(self).position + 1) == Some(
                TokenKind::Eq,
            ) && old(self).atom_at(old(self).position + 2) && old(self).at(old(self).position + 3) == Some(
                TokenKind::Semicolon,
            ) ==> (r matches Ok(s) && s.data is Assign && final(self).position == old(self).position + 4),
            old(self).simple_stmt_len(old(self).position as int) > 0 ==> r is Ok && final(self).position == old(
                self,
            ).position + old(self).simple_stmt_len(old(self).position as int),
            climb(old(self).tokens@, old(self).file, old(self).position as int, 0) matches Some((t, e)) ==> (old(
                self,
            ).at(e) == Some(TokenKind::Semicolon) ==> (r matches Ok(s) && s.data == AstStmtDesc::Expr(t)
                && final(self).position == e + 1)),
        decreases old(self).remaining(), 3nat,
    {
        match self.current_token()?.kind {
            TokenKind::OpenBra => self.parse_block_as_stmt(),
            TokenKind::Return => self.parse_return(),
            TokenKind::Let => self.parse_let_decl(),
            TokenKind::If => self.parse_if_stmt(),
            TokenKind::For => self.parse_for_stmt(),
            TokenKind::While => self.parse_while_stmt(),
            TokenKind::Match => self.parse_match_stmt(),
            TokenKind::Break => {
                let start = self.get_start();
                self.consume();
                self.expect(TokenKind::Semicolon)?;
                self.consume();
                let span = start.span(self.get_end());
                Ok(Spanned::new(AstStmtDesc::Break, span))
            },
            TokenKind::Defer => {
                let start = self.get_start();
                self.consume();
                let stmt = self.parse_stmt()?;
                let span = start.span(stmt.span.end());
                Ok(Spanned::new(AstStmtDesc::Defer(Box::new(stmt)), span))
            },
            _ => {
                if let Some(assignment) = self.try_parse_assign() {
                    Ok(assignment)
                } else {
                    let expr = self.parse_expr()?;
                    self.expect(TokenKind::Semicolon)?;
                    self.consume();
                    let span = expr.span;
                    Ok(Spanned::new(AstStmtDesc::Expr(expr), span))
                }
            },
        }
    }
}

} // verus!
