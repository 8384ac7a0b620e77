//! Patterns: `_`, `mut x`, `3`, `(p, q)`, `a::B(p)`, `C { x, y: p }`.
use vstd::prelude::*;
use crate::common::{span_of, Location, SourceFile, Symbol};
use crate::parse_tree::Spanned;
use crate::parse_tree::pattern::{AstConstructFields, AstNamedPattern, AstPattern, AstPatternDesc, StructFieldPattern};
use crate::parser::{ParseError, ParseErrorKind, Parser};
use crate::parser::type_expr::tokens_span;
use crate::token::{Token, TokenKind};

verus! {

/// The tokens a pattern can start with.
pub open spec fn starts_pattern(k: TokenKind) -> bool {
    k is Mut || k is Identifier || k is OpenPar || k is IntLit
}

/// The first name of a named pattern.
pub open spec fn named_pattern_head(p: AstNamedPattern) -> Option<Symbol> {
    match p {
        AstNamedPattern::Mut { name } => Some(name.data),
        AstNamedPattern::Bare(s) => Some(s),
        AstNamedPattern::Constructor { name, .. } => Some(name),
        AstNamedPattern::NameResolved { from, .. } => Some(from.data),
        AstNamedPattern::Tuple { .. } => None,
    }
}

/// The shape of a parsed pattern, by the token it started with.
pub open spec fn pattern_shape(first: TokenKind, underscore: Symbol, p: AstPatternDesc) -> bool {
    match first {
        TokenKind::Mut => p matches AstPatternDesc::Named(AstNamedPattern::Mut { .. }),
        TokenKind::Identifier(s) => if s == underscore {
            p is Any
        } else {
            p matches AstPatternDesc::Named(n) && named_pattern_head(n) == Some(s)
        },
        TokenKind::OpenPar => p matches AstPatternDesc::Named(AstNamedPattern::Tuple { .. }),
        TokenKind::IntLit(x) => p == AstPatternDesc::IntLiteral(x),
        _ => false,
    }
}

/// Tokens `i..j` spell the pattern `p`, and `p` spans them: `mut` and a
/// name; the placeholder `us`; an integer literal; `(`, patterns separated
/// by commas with perhaps one after the last, and `)`; or a named pattern
/// whose first name is not the placeholder.
pub open spec fn spells_pattern(toks: Seq<Token>, file: SourceFile, us: Symbol, i: int, j: int, p: AstPattern) -> bool
    decreases p, 1nat,
{
    &&& 0 <= i < j <= toks.len()
    &&& p.span == tokens_span(toks, file, i, j)
    &&& match p.data {
        AstPatternDesc::Named(AstNamedPattern::Mut { name }) => j == i + 2 && toks[i].kind == TokenKind::Mut
            && toks[i + 1].kind == TokenKind::Identifier(name.data) && name.span == toks[i + 1].location,
        AstPatternDesc::Named(AstNamedPattern::Tuple { fields }) => toks[i].kind == TokenKind::OpenPar && toks[j
            - 1].kind == TokenKind::ClosePar && i + 1 <= j - 1 && spells_patterns(toks, file, us, i + 1, j - 1, fields@),
        AstPatternDesc::Named(n) => !(toks[i].kind == TokenKind::Identifier(us)) && spells_named(toks, file, us, i, j, n),
        AstPatternDesc::IntLiteral(x) => j == i + 1 && toks[i].kind == TokenKind::IntLit(x),
        AstPatternDesc::Any => j == i + 1 && toks[i].kind == TokenKind::Identifier(us),
    }
}

/// Tokens `i..j` spell the named pattern `n`: a name, `::` and the rest; a
/// name and `(`, patterns and `)`; a name and `{`, field patterns and `}`;
/// or a bare name.
pub open spec fn spells_named(toks: Seq<Token>, file: SourceFile, us: Symbol, i: int, j: int, n: AstNamedPattern) -> bool
    decreases n, 0nat,
{
    0 <= i < j <= toks.len() && match n {
        AstNamedPattern::NameResolved { from, to } => i + 2 < j && toks[i].kind == TokenKind::Identifier(from.data)
            && from.span == toks[i].location && toks[i + 1].kind == TokenKind::Access && spells_named(
            toks,
            file,
            us,
            i + 2,
            j,
            *to,
        ),
        AstNamedPattern::Constructor { name, args } => toks[i].kind == TokenKind::Identifier(name) && i + 2
            <= j - 1 && match args {
            AstConstructFields::TupleFields(ps) => toks[i + 1].kind == TokenKind::OpenPar && toks[j - 1].kind
                == TokenKind::ClosePar && spells_patterns(toks, file, us, i + 2, j - 1, ps@),
            AstConstructFields::StructFields(fs) => toks[i + 1].kind == TokenKind::OpenBra && toks[j - 1].kind
                == TokenKind::CloseBra && spells_fields(toks, file, us, i + 2, j - 1, fs@),
            AstConstructFields::NoFields => false,
        },
        AstNamedPattern::Bare(s) => j == i + 1 && toks[i].kind == TokenKind::Identifier(s),
        _ => false,
    }
}

/// Tokens `i..j` spell the field pattern `f`: a name, `:` and a pattern, or
/// a name alone.
pub open spec fn spells_field(toks: Seq<Token>, file: SourceFile, us: Symbol, i: int, j: int, f: StructFieldPattern) -> bool
    decreases f, 2nat,
{
    0 <= i < j <= toks.len() && match f {
        StructFieldPattern::Rebind { name, name_span, pattern } => toks[i].kind == TokenKind::Identifier(name)
            && name_span == toks[i].location && i + 1 < j && toks[i + 1].kind == TokenKind::Colon
            && spells_pattern(toks, file, us, i + 2, j, pattern),
        StructFieldPattern::Name(name, span) => j == i + 1 && toks[i].kind == TokenKind::Identifier(name) && span
            == toks[i].location,
    }
}

/// Tokens `i..j` spell the patterns `ps`, each followed by a comma.
pub open spec fn spells_pattern_sep(toks: Seq<Token>, file: SourceFile, us: Symbol, i: int, j: int, ps: Seq<AstPattern>) -> bool
    decreases ps, 0nat,
{
    if ps.len() == 0 {
        i == j
    } else {
        exists|m: int|
            #![trigger toks[m]]
            i <= m < j && spells_pattern_sep(toks, file, us, i, m, ps.drop_last()) && spells_pattern(
                toks,
                file,
                us,
                m,
                j - 1,
                ps.last(),
            ) && toks[j - 1].kind == TokenKind::Comma
    }
}

/// Tokens `i..j` spell the patterns `ps`, separated by commas, with perhaps
/// a comma after the last.
pub open spec fn spells_patterns(toks: Seq<Token>, file: SourceFile, us: Symbol, i: int, j: int, ps: Seq<AstPattern>) -> bool
    decreases ps, 1nat,
{
    ||| spells_pattern_sep(toks, file, us, i, j, ps)
    ||| ps.len() > 0 && exists|m: int|
        #![trigger toks[m]]
        i <= m < j && spells_pattern_sep(toks, file, us, i, m, ps.drop_last()) && spells_pattern(
            toks,
            file,
            us,
            m,
            j,
            ps.last(),
        )
}

/// Tokens `i..j` spell the field patterns `fs`, each followed by a comma.
pub open spec fn spells_field_sep(toks: Seq<Token>, file: SourceFile, us: Symbol, i: int, j: int, fs: Seq<StructFieldPattern>) -> bool
    decreases fs, 0nat,
{
    if fs.len() == 0 {
        i == j
    } else {
        exists|m: int|
            #![trigger toks[m]]
            i <= m < j && spells_field_sep(toks, file, us, i, m, fs.drop_last()) && spells_field(
                toks,
                file,
                us,
                m,
                j - 1,
                fs.last(),
            ) && toks[j - 1].kind == TokenKind::Comma
    }
}

/// Tokens `i..j` spell the field patterns `fs`, separated by commas, with
/// perhaps a comma after the last.
pub open spec fn spells_fields(toks: Seq<Token>, file: SourceFile, us: Symbol, i: int, j: int, fs: Seq<StructFieldPattern>) -> bool
    decreases fs, 1nat,
{
    ||| spells_field_sep(toks, file, us, i, j, fs)
    ||| fs.len() > 0 && exists|m: int|
        #![trigger toks[m]]
        i <= m < j && spells_field_sep(toks, file, us, i, m, fs.drop_last()) && spells_field(
            toks,
            file,
            us,
            m,
            j,
            fs.last(),
        )
}

impl<'a> Parser<'a> {
    /// A pattern of one token at token `i`: an integer literal, the
    /// placeholder, or a name followed by none of `::`, `(` and `{`.
    pub open spec fn simple_pattern_at(&self, i: int) -> bool {
        ||| self.at(i) matches Some(TokenKind::IntLit(_))
        ||| self.at(i) == Some(TokenKind::Identifier(self.known.underscore))
        ||| self.at(i) matches Some(TokenKind::Identifier(_)) && self.bare_name_follows(i + 1)
    }

    /// Token `i` does not continue a name into a path or a constructor.
    pub open spec fn bare_name_follows(&self, i: int) -> bool {
        &&& self.at(i) != Some(TokenKind::Access)
        &&& self.at(i) != Some(TokenKind::OpenPar)
        &&& self.at(i) != Some(TokenKind::OpenBra)
    }

    /// How many patterns of one token a list from token `i` holds, separated
    /// by commas and closed by `end_tok` (no pattern being `end_tok` itself,
    /// and `end_tok` no comma); 0 where the tokens do not have that form.
    pub open spec fn simple_patterns_len(&self, i: int, end_tok: TokenKind) -> int
        decreases self.tokens@.len() - i,
    {
        if end_tok == TokenKind::Comma || !(0 <= i < self.tokens@.len()) || !self.simple_pattern_at(i)
            || self.at(i) == Some(end_tok) {
            0
        } else if self.at(i + 1) == Some(end_tok) {
            1
        } else if self.at(i + 1) == Some(TokenKind::Comma) && i + 2 < self.tokens@.len()
            && self.simple_patterns_len(i + 2, end_tok) > 0 {
            1 + self.simple_patterns_len(i + 2, end_tok)
        } else {
            0
        }
    }

    /// The count of a list of one-token patterns reads the tokens and the
    /// known names alone.
    pub proof fn lemma_simple_patterns_len_tokens(a: Parser<'a>, b: Parser<'a>, i: int, end_tok: TokenKind)
        requires
            a.tokens@ == b.tokens@,
            a.known == b.known,
        ensures
            a.simple_patterns_len(i, end_tok) == b.simple_patterns_len(i, end_tok),
        decreases a.tokens@.len() - i,
    {
        if 0 <= i && i + 2 < a.tokens@.len() {
            Self::lemma_simple_patterns_len_tokens(a, b, i + 2, end_tok);
        }
    }

    pub fn parse_pattern(&mut self) -> (r: Result<AstPattern, ParseError>)
        requires
            old(self).wf(),
        ensures
            final(self).advanced_from(old(self)),
            old(self).fails_at_head(
                final(self),
                |k: TokenKind| starts_pattern(k),
                match r {
                    Ok(_) => Ok(()),
                    Err(e) => Err(e),
                },
            ),
            r matches Ok(p) ==> {
                &&& old(self).position < final(self).position
                &&& old(self).next_kind() matches Some(k) && pattern_shape(
                    k,
                    old(self).known.underscore,
                    p.data,
                )
                &&& p.span == span_of(old(self).spec_start(), final(self).spec_end())
                &&& spells_pattern(
                    old(self).tokens@,
                    old(self).file,
                    old(self).known.underscore,
                    old(self).position as int,
                    final(self).position as int,
                    p,
                )
            },
            old(self).simple_pattern_at(old(self).position as int) ==> r is Ok && final(self).position
                == old(self).position + 1,
        decreases old(self).remaining(), 1nat,
    {
        let ghost toks = old(self).tokens@;
        let ghost file = old(self).file;
        let ghost us = old(self).known.underscore;
        let ghost i0 = old(self).position as int;
        let start = self.get_start();
        assert(self.position < self.tokens@.len() ==> start == Location { file, offset: toks[i0].location.start_offset });
        match self.current_token()?.kind {
            TokenKind::Mut => {
                self.consume();
                let name = self.parse_symbol()?;
                let end = self.get_end();
                let r = Spanned::new(AstPatternDesc::Named(AstNamedPattern::Mut { name }), start.span(end));
                assert(spells_pattern(toks, file, us, i0, self.position as int, r));
                Ok(r)
            },
            TokenKind::Identifier(name) => {
                if name == self.known.underscore {
                    self.consume();
                    let end = self.get_end();
                    let r = Spanned::new(AstPatternDesc::Any, start.span(end));
                    assert(spells_pattern(toks, file, us, i0, self.position as int, r));
                    Ok(r)
                } else {
                    let named = self.parse_named_pattern()?;
                    let end = self.get_end();
                    let r = Spanned::new(AstPatternDesc::Named(named), start.span(end));
                    assert(spells_pattern(toks, file, us, i0, self.position as int, r));
                    Ok(r)
                }
            },
            TokenKind::OpenPar => {
                self.consume();
                let fields = self.parse_pattern_list(TokenKind::ClosePar)?;
                self.expect(TokenKind::ClosePar)?;
                self.consume();
                let end = self.get_end();
                let r = Spanned::new(AstPatternDesc::Named(AstNamedPattern::Tuple { fields }), start.span(end));
                assert(spells_pattern(toks, file, us, i0, self.position as int, r));
                Ok(r)
            },
            TokenKind::IntLit(x) => {
                self.consume();
                let end = self.get_end();
                let r = Spanned::new(AstPatternDesc::IntLiteral(x), start.span(end));
                assert(spells_pattern(toks, file, us, i0, self.position as int, r));
                Ok(r)
            },
            kind => Err(self.parse_error(ParseErrorKind::ExpectedSymbol(kind.display()))),
        }
    }

    /// `a::b::C`, `C(p, q)`, `C { x, y: p }` or a bare name.
    pub fn parse_named_pattern(&mut self) -> (r: Result<AstNamedPattern, ParseError>)
        requires
            old(self).wf(),
        ensures
            final(self).advanced_from(old(self)),
            r matches Ok(p) ==> {
                &&& old(self).position < final(self).position
                &&& old(self).next_kind() matches Some(TokenKind::Identifier(s))
                    && named_pattern_head(p) == Some(s)
            },
            !(old(self).next_kind() matches Some(TokenKind::Identifier(_))) ==> r is Err,
            old(self).next_kind() matches Some(TokenKind::Identifier(n)) ==> (old(self).bare_name_follows(
                old(self).position + 1,
            ) ==> r == Ok::<AstNamedPattern, ParseError>(AstNamedPattern::Bare(n)) && final(self).position
                == old(self).position + 1),
            old(self).next_kind() matches Some(TokenKind::Identifier(n)) ==> (old(self).at(old(self).position
                + 1) == Some(TokenKind::OpenPar) && old(self).at(old(self).position + 2) == Some(
                TokenKind::ClosePar,
            ) ==> (r matches Ok(AstNamedPattern::Constructor { name, args: AstConstructFields::TupleFields(ps) })
                && name == n && ps@.len() == 0 && final(self).position == old(self).position + 3)),
            old(self).next_kind() matches Some(TokenKind::Identifier(n)) ==> (old(self).at(old(self).position
                + 1) == Some(TokenKind::OpenPar) && old(self).simple_patterns_len(
                old(self).position + 2,
                TokenKind::ClosePar,
            ) > 0 ==> (r matches Ok(AstNamedPattern::Constructor { name, args: AstConstructFields::TupleFields(ps) })
                && name == n && ps@.len() == old(self).simple_patterns_len(
                old(self).position + 2,
                TokenKind::ClosePar,
            ) && final(self).position == old(self).position + 2 + 2 * ps@.len())),
            r matches Ok(p) ==> spells_named(
                old(self).tokens@,
                old(self).file,
                old(self).known.underscore,
                old(self).position as int,
                final(self).position as int,
                p,
            ),
        decreases old(self).remaining(), 0nat,
    {
        let ghost toks = old(self).tokens@;
        let ghost file = old(self).file;
        let ghost us = old(self).known.underscore;
        let ghost i0 = old(self).position as int;
        let name = self.parse_symbol()?;
        match self.peek_kind(0) {
            Some(TokenKind::Access) => {
                self.consume();
                let rhs = self.parse_named_pattern()?;
                let r = AstNamedPattern::NameResolved { from: name, to: Box::new(rhs) };
                assert(spells_named(toks, file, us, i0, self.position as int, r));
                Ok(r)
            },
            Some(TokenKind::OpenPar) => {
                self.consume();
                proof {
                    Self::lemma_simple_patterns_len_tokens(*old(self), *self, i0 + 2, TokenKind::ClosePar);
                }
                let args = AstConstructFields::TupleFields(
                    self.parse_pattern_list(TokenKind::ClosePar)?,
                );
                self.expect(TokenKind::ClosePar)?;
                self.consume();
                let r = AstNamedPattern::Constructor { name: name.data, args };
                assert(spells_named(toks, file, us, i0, self.position as int, r));
                Ok(r)
            },
            Some(TokenKind::OpenBra) => {
                self.consume();
                let mut fields: Vec<StructFieldPattern> = Vec::new();
                loop
                    invariant_except_break
                        self.advanced_from(old(self)),
                        old(self).position < self.position,
                        old(self).next_kind() == Some(TokenKind::Identifier(name.data)),
                        toks == old(self).tokens@ && file == old(self).file && us == old(self).known.underscore,
                        i0 == old(self).position,
                        old(self).at(i0 + 1) == Some(TokenKind::OpenBra),
                        self.position >= i0 + 2,
                        spells_field_sep(toks, file, us, i0 + 2, self.position as int, fields@),
                    ensures
                        self.advanced_from(old(self)),
                        old(self).position < self.position,
                        old(self).next_kind() == Some(TokenKind::Identifier(name.data)),
                        self.position >= i0 + 2,
                        spells_fields(toks, file, us, i0 + 2, self.position as int, fields@),
                    decreases self.remaining(),
                {
                    match self.peek_kind(0) {
                        Some(TokenKind::CloseBra) => break,
                        None => break,
                        _ => {},
                    }
                    let ghost m = self.position as int;
                    let ghost prev = fields@;
                    let f = self.parse_struct_field_pattern()?;
                    let ghost e = self.position as int;
                    let ghost fg = f;
                    assert(spells_field(toks, file, us, m, e, fg));
                    fields.push(f);
                    proof {
                        assert(fields@.drop_last() =~= prev);
                        assert(fields@.last() == fg);
                        assert(toks[m] == toks[m]);
                    }
                    match self.peek_kind(0) {
                        Some(TokenKind::Comma) => {
                            self.consume();
                            assert(toks[e].kind == TokenKind::Comma);
                        },
                        _ => break,
                    }
                }
                self.expect(TokenKind::CloseBra)?;
                self.consume();
                let args = AstConstructFields::StructFields(fields);
                let r = AstNamedPattern::Constructor { name: name.data, args };
                assert(spells_named(toks, file, us, i0, self.position as int, r));
                Ok(r)
            },
            _ => {
                let r = AstNamedPattern::Bare(name.data);
                assert(spells_named(toks, file, us, i0, self.position as int, r));
                Ok(r)
            },
        }
    }

    /// `x` or `x: p` inside a struct pattern.
    pub fn parse_struct_field_pattern(&mut self) -> (r: Result<StructFieldPattern, ParseError>)
        requires
            old(self).wf(),
        ensures
            final(self).advanced_from(old(self)),
            r matches Ok(f) ==> {
                &&& old(self).position < final(self).position
                &&& old(self).next_kind() matches Some(TokenKind::Identifier(s)) && match f {
                    StructFieldPattern::Rebind { name, .. } => name == s && old(self).at(
                        old(self).position + 1,
                    ) == Some(TokenKind::Colon),
                    StructFieldPattern::Name(name, _) => name == s && old(self).at(
                        old(self).position + 1,
                    ) != Some(TokenKind::Colon),
                }
            },
            !(old(self).next_kind() matches Some(TokenKind::Identifier(_))) ==> r is Err,
            old(self).next_kind() matches Some(TokenKind::Identifier(n)) ==> (old(self).at(
                old(self).position + 1,
            ) != Some(TokenKind::Colon) ==> r == Ok::<StructFieldPattern, ParseError>(
                StructFieldPattern::Name(n, old(self).tokens@[old(self).position as int].location),
            ) && final(self).position == old(self).position + 1),
            (old(self).next_kind() matches Some(TokenKind::Identifier(_))) && old(self).at(old(self).position + 1)
                == Some(TokenKind::Colon) && old(self).simple_pattern_at(old(self).position + 2) ==> (r matches Ok(
                f,
            ) && f is Rebind && final(self).position == old(self).position + 3),
            r matches Ok(f) ==> spells_field(
                old(self).tokens@,
                old(self).file,
                old(self).known.underscore,
                old(self).position as int,
                final(self).position as int,
                f,
            ),
        decreases old(self).remaining(), 0nat,
    {
        let ghost toks = old(self).tokens@;
        let ghost file = old(self).file;
        let ghost us = old(self).known.underscore;
        let ghost i0 = old(self).position as int;
        let name = self.parse_symbol()?;
        if self.peek_kind(0) == Some(TokenKind::Colon) {
            self.consume();
            let associated = self.parse_pattern()?;
            let r = StructFieldPattern::Rebind { name: name.data, name_span: name.span, pattern: associated };
            assert(spells_field(toks, file, us, i0, self.position as int, r));
            Ok(r)
        } else {
            let r = StructFieldPattern::Name(name.data, name.span);
            assert(spells_field(toks, file, us, i0, self.position as int, r));
            Ok(r)
        }
    }

    /// Comma-separated patterns, up to (not including) `end_tok`.
    pub fn parse_pattern_list(&mut self, end_tok: TokenKind) -> (r: Result<Vec<AstPattern>, ParseError>)
        requires
            old(self).wf(),
        ensures
            final(self).advanced_from(old(self)),
            r matches Ok(ps) ==> (ps@.len() == 0 <==> final(self).position == old(self).position),
            (old(self).next_kind() is None || old(self).next_kind() == Some(end_tok)) ==> (r matches Ok(ps)
                && ps@.len() == 0 && final(self).position == old(self).position),
            old(self).simple_patterns_len(old(self).position as int, end_tok) > 0 ==> (r matches Ok(ps)
                && ps@.len() == old(self).simple_patterns_len(old(self).position as int, end_tok)
                && final(self).position == old(self).position + 2 * ps@.len() - 1 && old(self).at(
                final(self).position as int,
            ) == Some(end_tok)),
            r matches Ok(ps) ==> spells_patterns(
                old(self).tokens@,
                old(self).file,
                old(self).known.underscore,
                old(self).position as int,
                final(self).position as int,
                ps@,
            ),
        decreases old(self).remaining(), 2nat,
    {
        let ghost toks = old(self).tokens@;
        let ghost file = old(self).file;
        let ghost us = old(self).known.underscore;
        let ghost i0 = old(self).position as int;
        let mut res: Vec<AstPattern> = Vec::new();
        loop
            invariant_except_break
                self.advanced_from(old(self)),
                res@.len() == 0 <==> self.position == old(self).position,
                toks == old(self).tokens@ && file == old(self).file && us == old(self).known.underscore,
                i0 == old(self).position,
                spells_pattern_sep(toks, file, us, i0, self.position as int, res@),
                (old(self).next_kind() is None || old(self).next_kind() == Some(end_tok)) ==> self.position
                    == i0,
                old(self).simple_patterns_len(i0, end_tok) > 0 ==> {
                    &&& old(self).simple_patterns_len(self.position as int, end_tok) > 0
                    &&& old(self).simple_patterns_len(self.position as int, end_tok) + res@.len()
                        == old(self).simple_patterns_len(i0, end_tok)
                    &&& self.position == i0 + 2 * res@.len()
                },
            ensures
                self.advanced_from(old(self)),
                res@.len() == 0 <==> self.position == old(self).position,
                spells_patterns(toks, file, us, i0, self.position as int, res@),
                (old(self).next_kind() is None || old(self).next_kind() == Some(end_tok)) ==> self.position
                    == i0,
                old(self).simple_patterns_len(i0, end_tok) > 0 ==> res@.len() == old(self).simple_patterns_len(
                    i0,
                    end_tok,
                ) && self.position == i0 + 2 * res@.len() - 1 && old(self).at(self.position as int) == Some(end_tok),
            decreases self.remaining(),
        {
            match self.peek_kind(0) {
                None => break,
                Some(k) => if k == end_tok {
                    break;
                },
            }
            let ghost m = self.position as int;
            let ghost prev = res@;
            let p = self.parse_pattern()?;
            let ghost e = self.position as int;
            let ghost pg = p;
            assert(spells_pattern(toks, file, us, m, e, pg));
            res.push(p);
            proof {
                assert(res@.drop_last() =~= prev);
                assert(res@.last() == pg);
                assert(toks[m] == toks[m]);
            }
            match self.peek_kind(0) {
                Some(TokenKind::Comma) => {
                    self.consume();
                    assert(toks[e].kind == TokenKind::Comma);
                },
                _ => break,
            }
        }
        Ok(res)
    }
}

} // verus!
