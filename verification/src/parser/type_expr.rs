//! Type expressions: `*T`, `&mut T`, `&&T`, `[T; n]`, `(T, U)`, `a::B<T, _>`.
use vstd::prelude::*;
use crate::common::{span_of, Location, SourceFile, Span, Symbol};
use crate::parse_tree::Spanned;
use crate::parse_tree::type_expr::{AstAnyTypeExpr, AstAnyTypeExprDesc, AstTypeExpr, AstTypeExprDesc};
use crate::parser::{ParseError, ParseErrorKind, Parser, expected_symbol};
use crate::token::{Token, TokenKind};

verus! {

/// The tokens a type expression can start with.
pub open spec fn starts_type_expr(k: TokenKind) -> bool {
    k is Mult || k is BitAnd || k is And || k is OpenSqr || k is OpenPar || k is Identifier
}

/// The shape of a parsed type expression, by the token it started with.
pub open spec fn type_expr_shape(first: TokenKind, after: Option<TokenKind>, t: AstTypeExprDesc) -> bool {
    match first {
        TokenKind::Mult => t matches AstTypeExprDesc::Pointer { mutable, .. } && mutable == (after
            == Some(TokenKind::Mut)),
        TokenKind::BitAnd => t matches AstTypeExprDesc::Ref { mutable, .. } && mutable == (after
            == Some(TokenKind::Mut)),
        TokenKind::And => t matches AstTypeExprDesc::Ref { mutable, pointee } && !mutable
            && (pointee.data matches AstTypeExprDesc::Ref { mutable: inner, .. } && inner == (after
            == Some(TokenKind::Mut))),
        TokenKind::OpenSqr => t is Slice,
        TokenKind::OpenPar => t is Tuple,
        TokenKind::Identifier(s) => (t matches AstTypeExprDesc::Named { name, .. } && name.data == s)
            || (t matches AstTypeExprDesc::NameResolved { from, .. } && from.data == s),
        _ => false,
    }
}

/// The span from the start of token `i` to the end of token `j - 1`.
pub open spec fn tokens_span(toks: Seq<Token>, file: SourceFile, i: int, j: int) -> Span {
    Span { file, start_offset: toks[i].location.start_offset, end_offset: toks[j - 1].location.end_offset }
}

/// The offset one byte further, wrapping as the release build does.
pub open spec fn next_offset(o: usize) -> usize {
    if o + 1 > usize::MAX {
        0
    } else {
        (o + 1) as usize
    }
}

/// Tokens `i..j` spell the type expression `e`, and `e` spans them.
pub open spec fn spells_type(toks: Seq<Token>, file: SourceFile, us: Symbol, i: int, j: int, e: AstTypeExpr) -> bool
    decreases e, 0nat,
{
    &&& 0 <= i < j <= toks.len()
    &&& e.span == tokens_span(toks, file, i, j)
    &&& spells_desc(toks, file, us, i, j, e.data)
}

/// Tokens `i..j` spell `e`, after a `mut` when `mutable`.
pub open spec fn spells_pointee(toks: Seq<Token>, file: SourceFile, us: Symbol, i: int, j: int, mutable: bool, e: AstTypeExpr) -> bool
    decreases e, 1nat,
{
    if mutable {
        0 <= i < toks.len() && toks[i].kind == TokenKind::Mut && spells_type(toks, file, us, i + 1, j, e)
    } else {
        spells_type(toks, file, us, i, j, e)
    }
}

/// Tokens `i..j` spell the type expression described by `d`: `*` or `&`,
/// perhaps `mut`, and the pointee (`&&` being two references); `[`, the
/// element type, perhaps `;` and a length, and `]`; `(`, the element types
/// separated by commas with perhaps one after the last, and `)`; a name, then
/// perhaps `<`, the arguments separated by commas, and `>`; or a name, `::`
/// and the rest.
pub open spec fn spells_desc(toks: Seq<Token>, file: SourceFile, us: Symbol, i: int, j: int, d: AstTypeExprDesc) -> bool
    decreases d, 0nat,
{
    0 <= i < j <= toks.len() && match d {
        AstTypeExprDesc::Pointer { mutable, pointee } => toks[i].kind == TokenKind::Mult && spells_pointee(
            toks,
            file, us,
            i + 1,
            j,
            mutable,
            *pointee,
        ),
        AstTypeExprDesc::Ref { mutable, pointee } => (toks[i].kind == TokenKind::BitAnd && spells_pointee(
            toks,
            file, us,
            i + 1,
            j,
            mutable,
            *pointee,
        )) || (toks[i].kind == TokenKind::And && !mutable && pointee.span == Span {
            file,
            start_offset: next_offset(toks[i].location.start_offset),
            end_offset: toks[j - 1].location.end_offset,
        } && match pointee.data {
            AstTypeExprDesc::Ref { mutable: m, pointee: p } => spells_pointee(toks, file, us, i + 1, j, m, *p),
            _ => false,
        }),
        AstTypeExprDesc::Slice { ty, len } => toks[i].kind == TokenKind::OpenSqr && toks[j - 1].kind
            == TokenKind::CloseSqr && match len {
            None => spells_type(toks, file, us, i + 1, j - 1, *ty),
            Some(n) => i + 1 < j - 3 && toks[j - 3].kind == TokenKind::Semicolon && (toks[j
                - 2].kind matches TokenKind::IntLit(v) && v as usize == n) && spells_type(
                toks,
                file, us,
                i + 1,
                j - 3,
                *ty,
            ),
        },
        AstTypeExprDesc::Tuple(tys) => toks[i].kind == TokenKind::OpenPar && toks[j - 1].kind
            == TokenKind::ClosePar && spells_list(toks, file, us, i + 1, j - 1, tys@),
        AstTypeExprDesc::Named { name, args } => toks[i].kind == TokenKind::Identifier(name.data)
            && name.span == toks[i].location && ((args@.len() == 0 && j == i + 1) || (i + 2 <= j - 1
            && toks[i + 1].kind == TokenKind::Lt && toks[j - 1].kind == TokenKind::Gt && spells_any_list(
            toks,
            file, us,
            i + 2,
            j - 1,
            args@,
        ))),
        AstTypeExprDesc::NameResolved { from, to } => i + 2 < j && toks[i].kind == TokenKind::Identifier(
            from.data,
        ) && from.span == toks[i].location && toks[i + 1].kind == TokenKind::Access && spells_type(
            toks,
            file, us,
            i + 2,
            j,
            *to,
        ),
        AstTypeExprDesc::Error(_) => false,
    }
}

/// Tokens `i..j` spell the type expressions `tys`, each followed by a comma.
pub open spec fn spells_sep(toks: Seq<Token>, file: SourceFile, us: Symbol, i: int, j: int, tys: Seq<AstTypeExpr>) -> bool
    decreases tys, 0nat,
{
    if tys.len() == 0 {
        i == j
    } else {
        exists|m: int|
            #![trigger toks[m]]
            i <= m < j && spells_sep(toks, file, us, i, m, tys.drop_last()) && spells_type(
                toks,
                file, us,
                m,
                j - 1,
                tys.last(),
            ) && toks[j - 1].kind == TokenKind::Comma
    }
}

/// Tokens `i..j` spell the type expressions `tys`, separated by commas,
/// with perhaps a comma after the last.
pub open spec fn spells_list(toks: Seq<Token>, file: SourceFile, us: Symbol, i: int, j: int, tys: Seq<AstTypeExpr>) -> bool
    decreases tys, 1nat,
{
    ||| spells_sep(toks, file, us, i, j, tys)
    ||| tys.len() > 0 && exists|m: int|
        #![trigger toks[m]]
        i <= m < j && spells_sep(toks, file, us, i, m, tys.drop_last()) && spells_type(toks, file, us, m, j, tys.last())
}

/// Tokens `i..j` spell the possibly-placeholder type expression `e`: the
/// placeholder `us` alone, or a type expression.
pub open spec fn spells_any(toks: Seq<Token>, file: SourceFile, us: Symbol, i: int, j: int, e: AstAnyTypeExpr) -> bool
    decreases e, 0nat,
{
    &&& 0 <= i < j <= toks.len()
    &&& e.span == tokens_span(toks, file, i, j)
    &&& match e.data {
        AstAnyTypeExprDesc::Any => j == i + 1 && toks[i].kind == TokenKind::Identifier(us),
        AstAnyTypeExprDesc::Known(d) => toks[i].kind != TokenKind::Identifier(us) && spells_desc(toks, file, us, i, j, d),
    }
}

/// Tokens `i..j` spell the possibly-placeholder type expressions `args`,
/// each followed by a comma.
pub open spec fn spells_any_sep(toks: Seq<Token>, file: SourceFile, us: Symbol, i: int, j: int, args: Seq<AstAnyTypeExpr>) -> bool
    decreases args, 0nat,
{
    if args.len() == 0 {
        i == j
    } else {
        exists|m: int|
            #![trigger toks[m]]
            i <= m < j && spells_any_sep(toks, file, us, i, m, args.drop_last()) && spells_any(
                toks,
                file,
                us,
                m,
                j - 1,
                args.last(),
            ) && toks[j - 1].kind == TokenKind::Comma
    }
}

/// Tokens `i..j` spell the possibly-placeholder type expressions `args`,
/// separated by commas, with perhaps a comma after the last.
pub open spec fn spells_any_list(toks: Seq<Token>, file: SourceFile, us: Symbol, i: int, j: int, args: Seq<AstAnyTypeExpr>) -> bool
    decreases args, 1nat,
{
    ||| spells_any_sep(toks, file, us, i, j, args)
    ||| args.len() > 0 && exists|m: int|
        #![trigger toks[m]]
        i <= m < j && spells_any_sep(toks, file, us, i, m, args.drop_last()) && spells_any(
            toks,
            file,
            us,
            m,
            j,
            args.last(),
        )
}

impl<'a> Parser<'a> {
    /// What a parse that starts at the current token promises of an error:
    /// at the end of input it is `UnexpectedEOF`, before a token that cannot
    /// start the construct it names that token, and nothing is consumed.
    pub open spec fn fails_at_head(
        &self,
        fin: &Parser<'a>,
        can_start: spec_fn(TokenKind) -> bool,
        r: Result<(), ParseError>,
    ) -> bool {
        match self.next_kind() {
            None => r matches Err(e) && e == self.error_here(ParseErrorKind::UnexpectedEOF)
                && fin.position == self.position,
            Some(k) => !can_start(k) ==> (r matches Err(e) && e.file == self.file && expected_symbol(
                k,
                e.kind,
            ) && fin.position == self.position),
        }
    }

    /// A type of one name at token `i`: an identifier followed by neither
    /// `::` nor `<`.
    pub open spec fn simple_type_at(&self, i: int) -> bool {
        &&& self.at(i) matches Some(TokenKind::Identifier(_))
        &&& self.at(i + 1) != Some(TokenKind::Access)
        &&& self.at(i + 1) != Some(TokenKind::Lt)
    }

    /// How many types of one name a list from token `i` holds, separated by
    /// commas and closed by `>`; 0 where the tokens do not have that form.
    pub open spec fn simple_types_len(&self, i: int) -> int
        decreases self.tokens@.len() - i,
    {
        if !(0 <= i < self.tokens@.len()) || !self.simple_type_at(i) {
            0
        } else if self.at(i + 1) == Some(TokenKind::Gt) {
            1
        } else if self.at(i + 1) == Some(TokenKind::Comma) && i + 2 < self.tokens@.len()
            && self.simple_types_len(i + 2) > 0 {
            1 + self.simple_types_len(i + 2)
        } else {
            0
        }
    }

    /// The count of a list of one-name types reads the tokens alone.
    pub proof fn lemma_simple_types_len_tokens(a: Parser<'a>, b: Parser<'a>, i: int)
        requires
            a.tokens@ == b.tokens@,
        ensures
            a.simple_types_len(i) == b.simple_types_len(i),
        decreases a.tokens@.len() - i,
    {
        if 0 <= i < a.tokens@.len() && a.simple_type_at(i) && a.at(i + 1) == Some(TokenKind::Comma) && i + 2
            < a.tokens@.len() {
            Self::lemma_simple_types_len_tokens(a, b, i + 2);
        }
    }

    /// The post-state of any parse: same input, position only moves forward.
    pub open spec fn advanced_from(&self, old: &Parser<'a>) -> bool {
        &&& self.wf()
        &&& self.same_input(old)
        &&& old.position <= self.position
        &&& self.annotations == old.annotations
        &&& self.errors == old.errors
    }

    /// An integer literal, consumed.
    pub fn parse_int_lit(&mut self) -> (r: Result<Spanned<usize>, ParseError>)
        requires
            old(self).wf(),
        ensures
            final(self).advanced_from(old(self)),
            match old(self).next_kind() {
                Some(TokenKind::IntLit(v)) => r matches Ok(n) && n.data == v as usize
                    && n.span == old(self).tokens@[old(self).position as int].location
                    && final(self).position == old(self).position + 1,
                Some(k) => r matches Err(e) && e == old(self).error_here(
                    ParseErrorKind::ExpectedIntLit(k),
                ) && final(self).position == old(self).position,
                None => r matches Err(e) && e == old(self).error_here(ParseErrorKind::UnexpectedEOF)
                    && final(self).position == old(self).position,
            },
    {
        let tok = *self.current_token()?;
        match tok.kind {
            TokenKind::IntLit(v) => {
                self.consume();
                Ok(Spanned::new(v as usize, tok.location))
            },
            x => Err(self.parse_error(ParseErrorKind::ExpectedIntLit(x))),
        }
    }

    pub fn parse_type_expr(&mut self) -> (r: Result<AstTypeExpr, ParseError>)
        requires
            old(self).wf(),
        ensures
            final(self).advanced_from(old(self)),
            old(self).fails_at_head(
                final(self),
                |k: TokenKind| starts_type_expr(k),
                match r {
                    Ok(_) => Ok(()),
                    Err(e) => Err(e),
                },
            ),
            r matches Ok(t) ==> {
                &&& old(self).position < final(self).position
                &&& old(self).next_kind() matches Some(k) && type_expr_shape(
                    k,
                    old(self).at(old(self).position + 1),
                    t.data,
                )
                &&& t.span == span_of(old(self).spec_start(), final(self).spec_end())
                &&& spells_type(
                    old(self).tokens@,
                    old(self).file,
                    old(self).known.underscore,
                    old(self).position as int,
                    final(self).position as int,
                    t,
                )
            },
            old(self).simple_type_at(old(self).position as int) ==> r is Ok && final(self).position
                == old(self).position + 1,
        decreases old(self).remaining(), 0nat,
    {
        let ghost toks = old(self).tokens@;
        let ghost file = old(self).file;
        let ghost us = old(self).known.underscore;
        let ghost i0 = old(self).position as int;
        let start = self.get_start();
        let first = self.current_token()?.kind;
        assert(first == toks[i0].kind);
        assert(start == Location { file, offset: toks[i0].location.start_offset });
        match first {
            TokenKind::Mult | TokenKind::BitAnd | TokenKind::And => {
                let is_ptr = match first {
                    TokenKind::Mult => true,
                    _ => false,
                };
                let two = match first {
                    TokenKind::And => true,
                    _ => false,
                };
                self.consume();
                let mutable = match self.peek_kind(0) {
                    Some(TokenKind::Mut) => {
                        self.consume();
                        true
                    },
                    _ => false,
                };
                assert(mutable ==> toks[i0 + 1].kind == TokenKind::Mut);
                let ghost p1 = self.position as int;
                assert(p1 == if mutable { i0 + 2 } else { i0 + 1 });
                let inner = self.parse_type_expr()?;
                let ghost j = self.position as int;
                let ghost ig = inner;
                assert(spells_type(toks, file, us, p1, j, ig));
                assert(spells_pointee(toks, file, us, i0 + 1, j, mutable, ig));
                let end = self.get_end();
                assert(end == Location { file, offset: toks[j - 1].location.end_offset });
                if two {
                    let inner_span = start.advance(1).span(end);
                    let r = Spanned::new(
                        AstTypeExprDesc::Ref {
                            mutable: false,
                            pointee: Box::new(
                                Spanned::new(
                                    AstTypeExprDesc::Ref { mutable, pointee: Box::new(inner) },
                                    inner_span,
                                ),
                            ),
                        },
                        start.span(end),
                    );
                    assert(spells_desc(toks, file, us, i0, j, r.data));
                    Ok(r)
                } else if is_ptr {
                    let r = Spanned::new(
                        AstTypeExprDesc::Pointer { mutable, pointee: Box::new(inner) },
                        start.span(end),
                    );
                    assert(spells_desc(toks, file, us, i0, j, r.data));
                    Ok(r)
                } else {
                    let r = Spanned::new(
                        AstTypeExprDesc::Ref { mutable, pointee: Box::new(inner) },
                        start.span(end),
                    );
                    assert(spells_desc(toks, file, us, i0, j, r.data));
                    Ok(r)
                }
            },
            TokenKind::OpenSqr => {
                self.consume();
                let ty = self.parse_type_expr()?;
                let ghost m = self.position as int;
                let ghost tg = ty;
                assert(spells_type(toks, file, us, i0 + 1, m, tg));
                let len = if self.peek_kind(0) == Some(TokenKind::Semicolon) {
                    self.consume();
                    let n = self.parse_int_lit()?.data;
                    assert(toks[m].kind == TokenKind::Semicolon);
                    assert(toks[m + 1].kind matches TokenKind::IntLit(v) && v as usize == n);
                    Some(n)
                } else {
                    None
                };
                assert(len is None ==> self.position == m);
                assert(len is Some ==> self.position == m + 2);
                self.expect(TokenKind::CloseSqr)?;
                self.consume();
                let end = self.get_end();
                let r = Spanned::new(AstTypeExprDesc::Slice { ty: Box::new(ty), len }, start.span(end));
                assert(spells_desc(toks, file, us, i0, self.position as int, r.data));
                Ok(r)
            },
            TokenKind::OpenPar => {
                self.consume();
                let mut tys: Vec<AstTypeExpr> = Vec::new();
                loop
                    invariant_except_break
                        self.advanced_from(old(self)),
                        old(self).position < self.position,
                        old(self).next_kind() == Some(TokenKind::OpenPar),
                        start == old(self).spec_start(),
                        toks == old(self).tokens@ && file == old(self).file && us == old(self).known.underscore,
                        i0 == old(self).position,
                        spells_sep(toks, file, us, i0 + 1, self.position as int, tys@),
                    ensures
                        self.advanced_from(old(self)),
                        old(self).position < self.position,
                        spells_list(toks, file, us, i0 + 1, self.position as int, tys@),
                    decreases self.remaining(),
                {
                    match self.peek_kind(0) {
                        Some(TokenKind::ClosePar) => break,
                        None => break,
                        _ => {},
                    }
                    let ghost m = self.position as int;
                    let ghost prev = tys@;
                    let t_e = self.parse_type_expr()?;
                    let ghost e = self.position as int;
                    let ghost tg = t_e;
                    assert(spells_type(toks, file, us, m, e, tg));
                    tys.push(t_e);
                    proof {
                        assert(tys@.drop_last() =~= prev);
                        assert(tys@.last() == tg);
                        assert(toks[m] == toks[m]);
                    }
                    match self.peek_kind(0) {
                        Some(TokenKind::Comma) => {
                            self.consume();
                            assert(toks[e].kind == TokenKind::Comma);
                        },
                        _ => break,
                    }
                }
                self.expect(TokenKind::ClosePar)?;
                self.consume();
                let end = self.get_end();
                let r = Spanned::new(AstTypeExprDesc::Tuple(tys), start.span(end));
                assert(spells_desc(toks, file, us, i0, self.position as int, r.data));
                Ok(r)
            },
            TokenKind::Identifier(name) => {
                let name_loc = self.tokens[self.position].location;
                self.consume();
                match self.peek_kind(0) {
                    Some(TokenKind::Access) => {
                        self.consume();
                        let rhs = self.parse_type_expr()?;
                        let end = self.get_end();
                        let r = Spanned::new(
                            AstTypeExprDesc::NameResolved {
                                from: Spanned::new(name, name_loc),
                                to: Box::new(rhs),
                            },
                            start.span(end),
                        );
                        assert(spells_desc(toks, file, us, i0, self.position as int, r.data));
                        Ok(r)
                    },
                    Some(TokenKind::Lt) => {
                        self.consume();
                        let args = self.parse_any_type_args()?;
                        self.expect(TokenKind::Gt)?;
                        self.consume();
                        let end = self.get_end();
                        let r = Spanned::new(
                            AstTypeExprDesc::Named { name: Spanned::new(name, name_loc), args },
                            start.span(end),
                        );
                        assert(spells_desc(toks, file, us, i0, self.position as int, r.data));
                        Ok(r)
                    },
                    _ => {
                        let end = self.get_end();
                        let r = Spanned::new(
                            AstTypeExprDesc::Named {
                                name: Spanned::new(name, name_loc),
                                args: Vec::new(),
                            },
                            start.span(end),
                        );
                        assert(spells_desc(toks, file, us, i0, self.position as int, r.data));
                        Ok(r)
                    },
                }
            },
            kind => Err(self.parse_error(ParseErrorKind::ExpectedSymbol(kind.display()))),
        }
    }

    /// A type expression, or the placeholder `_`.
    pub fn parse_any_type_expr(&mut self) -> (r: Result<AstAnyTypeExpr, ParseError>)
        requires
            old(self).wf(),
        ensures
            final(self).advanced_from(old(self)),
            old(self).fails_at_head(
                final(self),
                |k: TokenKind| starts_type_expr(k),
                match r {
                    Ok(_) => Ok(()),
                    Err(e) => Err(e),
                },
            ),
            r matches Ok(t) ==> {
                &&& old(self).position < final(self).position
                &&& (t.data is Any <==> old(self).next_kind() == Some(
                    TokenKind::Identifier(old(self).known.underscore),
                ))
                &&& t.data matches AstAnyTypeExprDesc::Known(d) ==> old(self).next_kind() matches Some(
                    k,
                ) && type_expr_shape(k, old(self).at(old(self).position + 1), d)
                &&& t.span == span_of(old(self).spec_start(), final(self).spec_end())
                &&& spells_any(
                    old(self).tokens@,
                    old(self).file,
                    old(self).known.underscore,
                    old(self).position as int,
                    final(self).position as int,
                    t,
                )
            },
            old(self).simple_type_at(old(self).position as int) ==> r is Ok && final(self).position
                == old(self).position + 1,
        decreases old(self).remaining(), 1nat,
    {
        let start = self.get_start();
        if let TokenKind::Identifier(name) = self.current_token()?.kind {
            if name == self.known.underscore {
                self.consume();
                let end = self.get_end();
                return Ok(Spanned::new(AstAnyTypeExprDesc::Any, start.span(end)));
            }
        }
        let ty = self.parse_type_expr()?;
        let span = ty.span;
        Ok(Spanned::new(AstAnyTypeExprDesc::Known(ty.data), span))
    }

    /// Comma-separated type arguments, up to (not including) a `>`.
    pub fn parse_any_type_args(&mut self) -> (r: Result<Vec<AstAnyTypeExpr>, ParseError>)
        requires
            old(self).wf(),
        ensures
            final(self).advanced_from(old(self)),
            r matches Ok(args) ==> (args@.len() == 0 <==> final(self).position == old(self).position),
            (old(self).next_kind() is None || old(self).next_kind() == Some(TokenKind::Gt)) ==> (r matches Ok(
                args,
            ) && args@.len() == 0 && final(self).position == old(self).position),
            old(self).simple_types_len(old(self).position as int) > 0 ==> (r matches Ok(args) && args@.len()
                == old(self).simple_types_len(old(self).position as int) && final(self).position == old(
                self,
            ).position + 2 * args@.len() - 1 && old(self).at(final(self).position as int) == Some(TokenKind::Gt)),
            r matches Ok(args) ==> spells_any_list(
                old(self).tokens@,
                old(self).file,
                old(self).known.underscore,
                old(self).position as int,
                final(self).position as int,
                args@,
            ),
        decreases old(self).remaining(), 2nat,
    {
        let ghost toks = old(self).tokens@;
        let ghost file = old(self).file;
        let ghost us = old(self).known.underscore;
        let ghost i0 = old(self).position as int;
        let mut args: Vec<AstAnyTypeExpr> = Vec::new();
        loop
            invariant_except_break
                self.advanced_from(old(self)),
                args@.len() == 0 <==> self.position == old(self).position,
                toks == old(self).tokens@ && file == old(self).file && us == old(self).known.underscore,
                i0 == old(self).position,
                spells_any_sep(toks, file, us, i0, self.position as int, args@),
                (old(self).next_kind() is None || old(self).next_kind() == Some(TokenKind::Gt))
                    ==> self.position == i0,
                old(self).simple_types_len(i0) > 0 ==> {
                    &&& old(self).simple_types_len(self.position as int) > 0
                    &&& old(self).simple_types_len(self.position as int) + args@.len() == old(self).simple_types_len(i0)
                    &&& self.position == i0 + 2 * args@.len()
                },
            ensures
                self.advanced_from(old(self)),
                args@.len() == 0 <==> self.position == old(self).position,
                spells_any_list(toks, file, us, i0, self.position as int, args@),
                (old(self).next_kind() is None || old(self).next_kind() == Some(TokenKind::Gt))
                    ==> self.position == i0,
                old(self).simple_types_len(i0) > 0 ==> args@.len() == old(self).simple_types_len(i0)
                    && self.position == i0 + 2 * args@.len() - 1 && old(self).at(self.position as int) == Some(
                    TokenKind::Gt,
                ),
            decreases self.remaining(),
        {
            match self.peek_kind(0) {
                Some(TokenKind::Gt) => break,
                None => break,
                _ => {},
            }
            let ghost m = self.position as int;
            let ghost prev = args@;
            let a = self.parse_any_type_expr()?;
            let ghost e = self.position as int;
            let ghost ag = a;
            assert(spells_any(toks, file, us, m, e, ag));
            args.push(a);
            proof {
                assert(args@.drop_last() =~= prev);
                assert(args@.last() == ag);
                assert(spells_any_sep(toks, file, us, i0, m, args@.drop_last()));
            }
            match self.peek_kind(0) {
                Some(TokenKind::Comma) => {
                    self.consume();
                    proof {
                        assert(toks[e].kind == TokenKind::Comma);
                        assert(i0 <= m < e + 1);
                        assert(spells_any(toks, file, us, m, (e + 1) - 1, args@.last()));
                        assert(args@.len() > 0);
                        let aa = args@;
                        let jj = e + 1;
                        assert(spells_any_sep(toks, file, us, i0, m, aa.drop_last()));
                        assert(i0 <= m < jj && spells_any_sep(toks, file, us, i0, m, aa.drop_last()) && spells_any(
                            toks,
                            file,
                            us,
                            m,
                            jj - 1,
                            aa.last(),
                        ) && toks[jj - 1].kind == TokenKind::Comma);
                        assert(spells_any_sep(toks, file, us, i0, jj, aa)) by {
                            reveal_with_fuel(spells_any_sep, 2);
                        }
                    }
                },
                _ => {
                    proof {
                        assert(spells_any_list(toks, file, us, i0, e, args@));
                    }
                    break;
                },
            }
        }
        Ok(args)
    }
}


} // verus!
