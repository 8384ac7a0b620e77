//! A recursive-descent parser from tokens to the syntax tree.
use vstd::prelude::*;
use crate::common::{Location, SourceFile, Span, Symbol};
use crate::parse_tree::Spanned;
use crate::parse_tree::annotation::AstAnnotation;
use crate::token::{LexError, Token, TokenKind, token_text};

pub mod expr;
pub mod pattern;
pub mod stmt;
pub mod top_level;
pub mod type_expr;

verus! {

/// The interned ids of the names the grammar gives a meaning to.
#[derive(Debug, Clone, Copy, PartialEq, Eq, Structural)]
pub struct KnownSymbols {
    /// `@sizeof`
    pub sizeof_dir: Symbol,
    /// `@metadata`
    pub metadata_dir: Symbol,
    /// the type-name directive
    pub typename_dir: Symbol,
    /// the include directive
    pub include_dir: Symbol,
    /// `@extern`
    pub extern_dir: Symbol,
    /// `_`
    pub underscore: Symbol,
    /// `self`
    pub zelf: Symbol,
}

pub struct Parser<'a> {
    pub file: SourceFile,
    pub position: usize,
    pub tokens: &'a [Token],
    pub known: KnownSymbols,
    pub restrict_struct_lit: bool,
    /// Annotations read but not yet attached to an item.
    pub annotations: Vec<AstAnnotation>,
    /// Errors recovered from; they are reported, parsing went on.
    pub errors: Vec<ParseError>,
}

#[derive(Debug, Clone)]
pub struct ParseError {
    pub kind: ParseErrorKind,
    pub file: SourceFile,
    pub start: usize,
    pub end: usize,
}

#[derive(Debug, Clone)]
pub enum ParseErrorKind {
    LexError(LexError),
    UnexpectedEOF,
    ExpectedSymbol(String),
    ExpectedToken { expected: TokenKind, found: TokenKind },
    ExpectedIntLit(TokenKind),
    ExpectedTypeName,
    NotATopLevelItem,
}

/// The error kind for a token that cannot start what was expected.
pub open spec fn expected_symbol(k: TokenKind, e: ParseErrorKind) -> bool {
    e matches ParseErrorKind::ExpectedSymbol(s) && s@ == token_text(k)
}

impl<'a> Parser<'a> {
    /// The position never runs past the tokens.
    pub open spec fn wf(&self) -> bool {
        self.position <= self.tokens@.len()
    }

    /// Everything but the position, the pending annotations and the errors is unchanged.
    pub open spec fn same_input(&self, other: &Parser<'a>) -> bool {
        &&& self.tokens@ == other.tokens@
        &&& self.file == other.file
        &&& self.known == other.known
        &&& self.restrict_struct_lit == other.restrict_struct_lit
    }

    /// How many tokens are left.
    pub open spec fn remaining(&self) -> nat {
        (self.tokens@.len() - self.position) as nat
    }

    /// Whether a token is left and what kind it is.
    pub open spec fn at(&self, i: int) -> Option<TokenKind> {
        if 0 <= i < self.tokens@.len() {
            Some(self.tokens@[i].kind)
        } else {
            None
        }
    }

    pub open spec fn next_kind(&self) -> Option<TokenKind> {
        self.at(self.position as int)
    }

    pub open spec fn spec_last_span(&self) -> Span {
        if self.tokens@.len() == 0 || self.position >= self.tokens@.len() {
            Span { file: self.file, start_offset: 0, end_offset: 0 }
        } else {
            Span {
                file: self.file,
                start_offset: self.tokens@[self.position as int].location.start_offset,
                end_offset: self.tokens@[self.position as int].location.end_offset,
            }
        }
    }

    /// The error `kind`, placed at token `i`.
    pub open spec fn error_at(&self, i: int, kind: ParseErrorKind) -> ParseError {
        ParseError {
            kind,
            file: self.file,
            start: self.tokens@[i].location.start_offset,
            end: self.tokens@[i].location.end_offset,
        }
    }

    /// The error `kind`, placed at the current token.
    pub open spec fn error_here(&self, kind: ParseErrorKind) -> ParseError {
        let s = self.spec_last_span();
        ParseError { kind, file: s.file, start: s.start_offset, end: s.end_offset }
    }

    pub open spec fn spec_start(&self) -> Location {
        Location {
            file: self.file,
            offset: if self.position < self.tokens@.len() {
                self.tokens@[self.position as int].location.start_offset
            } else if self.tokens@.len() > 0 {
                self.tokens@.last().location.start_offset
            } else {
                0
            },
        }
    }

    pub open spec fn spec_end(&self) -> Location {
        Location {
            file: self.file,
            offset: if 0 < self.position && self.position - 1 < self.tokens@.len() {
                self.tokens@[self.position - 1].location.end_offset
            } else if self.tokens@.len() > 0 {
                self.tokens@.last().location.end_offset
            } else {
                0
            },
        }
    }

    /// The post-state of a parse that may take the pending annotations:
    /// same input, position only moves forward, no error reported.
    pub open spec fn moved_from(&self, old: &Parser<'a>) -> bool {
        &&& self.wf()
        &&& self.same_input(old)
        &&& old.position <= self.position
        &&& self.errors == old.errors
    }

    /// The post-state of a parse that may report errors and handle annotations:
    /// same input, position only moves forward, errors are only added.
    pub open spec fn progressed_from(&self, old: &Parser<'a>) -> bool {
        &&& self.wf()
        &&& self.same_input(old)
        &&& old.position <= self.position
        &&& old.errors@.len() <= self.errors@.len()
        &&& forall|i: int| 0 <= i < old.errors@.len() ==> self.errors@[i] == old.errors@[i]
    }

    pub fn new(tokens: &'a [Token], file: SourceFile, known: KnownSymbols) -> (r: Parser<'a>)
        ensures
            r.wf(),
            r.position == 0,
            r.tokens@ == tokens@,
            r.file == file,
            r.known == known,
            !r.restrict_struct_lit,
            r.annotations@.len() == 0,
            r.errors@.len() == 0,
    {
        Parser {
            file,
            position: 0,
            tokens,
            known,
            restrict_struct_lit: false,
            annotations: Vec::new(),
            errors: Vec::new(),
        }
    }

    /// The span of the current token, or an empty span at offset 0 at the end.
    pub fn last_span(&self) -> (r: Span)
        ensures
            r == self.spec_last_span(),
    {
        if self.tokens.len() == 0 || self.position >= self.tokens.len() {
            Span::new(self.file, 0, 0)
        } else {
            let span = self.tokens[self.position].location;
            Span::new(self.file, span.start_offset, span.end_offset)
        }
    }

    pub fn current_token(&self) -> (r: Result<&Token, ParseError>)
        ensures
            self.position < self.tokens@.len() ==> (r matches Ok(t) && *t == self.tokens@[self.position as int]),
            self.position >= self.tokens@.len() ==> (r matches Err(e)
                && e == self.error_here(ParseErrorKind::UnexpectedEOF)),
    {
        if self.position >= self.tokens.len() {
            let last_span = self.last_span();
            Err(ParseError {
                kind: ParseErrorKind::UnexpectedEOF,
                file: last_span.file,
                start: last_span.start_offset,
                end: last_span.end_offset,
            })
        } else {
            Ok(&self.tokens[self.position])
        }
    }

    fn get_last_token(&self) -> (r: Option<&Token>)
        ensures
            self.tokens@.len() == 0 ==> r is None,
            self.tokens@.len() > 0 ==> (r matches Some(t) && *t == self.tokens@.last()),
    {
        if self.tokens.len() == 0 {
            None
        } else {
            Some(&self.tokens[self.tokens.len() - 1])
        }
    }

    /// Where the current token starts (the last token's start at the end).
    pub fn get_start(&self) -> (r: Location)
        ensures
            r == self.spec_start(),
    {
        let offset = if self.position < self.tokens.len() {
            self.tokens[self.position].location.start_offset
        } else {
            match self.get_last_token() {
                Some(tok) => tok.location.start_offset,
                None => 0,
            }
        };
        Location::new(self.file, offset)
    }

    /// Where the last consumed token ends (the last token's end if none was).
    pub fn get_end(&self) -> (r: Location)
        ensures
            r == self.spec_end(),
    {
        let offset = if 0 < self.position && self.position - 1 < self.tokens.len() {
            self.tokens[self.position - 1].location.end_offset
        } else {
            match self.get_last_token() {
                Some(tok) => tok.location.end_offset,
                None => 0,
            }
        };
        Location::new(self.file, offset)
    }

    /// Takes the annotations read so far, leaving none pending.
    pub fn annotations(&mut self) -> (r: Vec<AstAnnotation>)
        ensures
            r == old(self).annotations,
            final(self).annotations@.len() == 0,
            final(self).same_input(old(self)),
            final(self).position == old(self).position,
            final(self).errors == old(self).errors,
    {
        let mut taken: Vec<AstAnnotation> = Vec::new();
        std::mem::swap(&mut taken, &mut self.annotations);
        taken
    }

    pub fn consume(&mut self)
        requires
            old(self).position < old(self).tokens@.len(),
        ensures
            final(self).position == old(self).position + 1,
            final(self).same_input(old(self)),
            final(self).annotations == old(self).annotations,
            final(self).errors == old(self).errors,
    {
        let len = self.tokens.len();
        assert(self.position < len);
        self.position = self.position + 1;
    }

    pub fn parse_error(&self, kind: ParseErrorKind) -> (r: ParseError)
        ensures
            r == self.error_here(kind),
    {
        let s = self.last_span();
        ParseError { kind, file: s.file, start: s.start_offset, end: s.end_offset }
    }

    /// An identifier, consumed.
    pub fn parse_symbol(&mut self) -> (r: Result<Spanned<Symbol>, ParseError>)
        requires
            old(self).wf(),
        ensures
            final(self).wf(),
            final(self).same_input(old(self)),
            final(self).annotations == old(self).annotations,
            final(self).errors == old(self).errors,
            match old(self).next_kind() {
                Some(TokenKind::Identifier(s)) => r matches Ok(sym)
                    && sym.data == s
                    && sym.span == old(self).tokens@[old(self).position as int].location
                    && final(self).position == old(self).position + 1,
                Some(k) => r matches Err(e) && final(self).position == old(self).position
                    && e.file == old(self).file && expected_symbol(k, e.kind) && e == old(self).error_here(
                    e.kind,
                ),
                None => r matches Err(e) && final(self).position == old(self).position
                    && e == old(self).error_here(ParseErrorKind::UnexpectedEOF),
            },
    {
        let current = *self.current_token()?;
        match current.kind {
            TokenKind::Identifier(s) => {
                self.consume();
                Ok(Spanned::new(s, current.location))
            },
            kind => Err(self.parse_error(ParseErrorKind::ExpectedSymbol(kind.display()))),
        }
    }

    /// Checks that the current token is `kind`, without consuming it.
    pub fn expect(&self, kind: TokenKind) -> (r: Result<(), ParseError>)
        ensures
            r is Ok <==> self.next_kind() == Some(kind),
            match self.next_kind() {
                None => r matches Err(e) && e == self.error_here(ParseErrorKind::UnexpectedEOF),
                Some(found) => found != kind ==> (r matches Err(e) && e == self.error_here(
                    ParseErrorKind::ExpectedToken { expected: kind, found },
                )),
            },
    {
        let found = self.current_token()?.kind;
        if found != kind {
            Err(self.parse_error(ParseErrorKind::ExpectedToken { expected: kind, found }))
        } else {
            Ok(())
        }
    }

    /// The token `n` places ahead, if there is one.
    pub fn peek_n(&self, n: usize) -> (r: Option<&Token>)
        ensures
            self.position + n < self.tokens@.len() ==> (r matches Some(t)
                && *t == self.tokens@[self.position + n]),
            self.position + n >= self.tokens@.len() ==> r is None,
    {
        let len = self.tokens.len();
        match self.position.checked_add(n) {
            Some(i) => if i < len {
                Some(&self.tokens[i])
            } else {
                None
            },
            None => None,
        }
    }

    /// The kind of the token `n` places ahead, if there is one.
    pub fn peek_kind(&self, n: usize) -> (r: Option<TokenKind>)
        ensures
            r == self.at(self.position + n),
    {
        match self.peek_n(n) {
            Some(t) => Some(t.kind),
            None => None,
        }
    }

    /// Skips tokens up to the next item keyword outside any brackets, or to the end.
    pub fn synchronize(&mut self)
        requires
            old(self).wf(),
        ensures
            final(self).wf(),
            final(self).same_input(old(self)),
            final(self).annotations == old(self).annotations,
            final(self).errors == old(self).errors,
            old(self).position <= final(self).position,
            final(self).position == final(self).tokens@.len() || (final(self).next_kind() matches Some(
                k,
            ) && is_top_level_sync_kind(k)),
            final(self).position == sync_end(old(self).tokens@, old(self).position as int, 0),
    {
        let mut depth: usize = 0;
        while self.position < self.tokens.len()
            invariant
                self.wf(),
                self.same_input(old(self)),
                self.annotations == old(self).annotations,
                self.errors == old(self).errors,
                old(self).position <= self.position,
                depth <= self.position,
                sync_end(self.tokens@, self.position as int, depth as int) == sync_end(
                    old(self).tokens@,
                    old(self).position as int,
                    0,
                ),
            decreases self.tokens@.len() - self.position,
        {
            let k = self.tokens[self.position].kind;
            if depth == 0 && Self::is_top_level_sync_point(&k) {
                return;
            }
            match k {
                TokenKind::OpenBra | TokenKind::OpenPar | TokenKind::OpenSqr => depth = depth + 1,
                TokenKind::CloseBra | TokenKind::ClosePar | TokenKind::CloseSqr => {
                    if depth > 0 {
                        depth = depth - 1;
                    }
                },
                _ => {},
            }
            self.consume();
        }
    }

    /// Whether an item may start at a token of kind `k`: error recovery stops there.
    pub fn is_top_level_sync_point(k: &TokenKind) -> (r: bool)
        ensures
            r == is_top_level_sync_kind(*k),
    {
        match k {
            TokenKind::Fun | TokenKind::Module | TokenKind::Directive(_) | TokenKind::Type
            | TokenKind::Interface => true,
            _ => false,
        }
    }
}

impl ParseErrorKind {
    /// A copy of this error kind.
    pub fn duplicate(&self) -> (r: ParseErrorKind)
        ensures
            r == *self,
    {
        match self {
            ParseErrorKind::LexError(e) => ParseErrorKind::LexError(*e),
            ParseErrorKind::UnexpectedEOF => ParseErrorKind::UnexpectedEOF,
            ParseErrorKind::ExpectedSymbol(s) => ParseErrorKind::ExpectedSymbol(s.clone()),
            ParseErrorKind::ExpectedToken { expected, found } => ParseErrorKind::ExpectedToken {
                expected: *expected,
                found: *found,
            },
            ParseErrorKind::ExpectedIntLit(k) => ParseErrorKind::ExpectedIntLit(*k),
            ParseErrorKind::ExpectedTypeName => ParseErrorKind::ExpectedTypeName,
            ParseErrorKind::NotATopLevelItem => ParseErrorKind::NotATopLevelItem,
        }
    }
}

impl ParseError {
    /// A copy of this error.
    pub fn duplicate(&self) -> (r: ParseError)
        ensures
            r == *self,
    {
        ParseError { kind: self.kind.duplicate(), file: self.file, start: self.start, end: self.end }
    }
}

pub open spec fn is_top_level_sync_kind(k: TokenKind) -> bool {
    k is Fun || k is Module || k is Directive || k is Type || k is Interface
}

/// Where error recovery stops when it starts at token `i` with `depth`
/// brackets open: the first token outside any brackets at which an item may
/// start, or the end of the tokens.
pub open spec fn sync_end(toks: Seq<Token>, i: int, depth: int) -> int
    decreases toks.len() - i,
{
    if i >= toks.len() {
        toks.len() as int
    } else if depth == 0 && is_top_level_sync_kind(toks[i].kind) {
        i
    } else {
        let k = toks[i].kind;
        let d = if k is OpenBra || k is OpenPar || k is OpenSqr {
            depth + 1
        } else if (k is CloseBra || k is ClosePar || k is CloseSqr) && depth > 0 {
            depth - 1
        } else {
            depth
        };
        sync_end(toks, i + 1, d)
    }
}

} // verus!
