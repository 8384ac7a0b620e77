use rockr::common::{SourceFile, Span, Symbol};
use rockr::parse_tree::type_expr::{AstAnyTypeExprDesc, AstTypeExprDesc};
use rockr::parse_tree::Spanned;

fn span(start: usize, end: usize) -> Span {
    Span { file: SourceFile { id: 0 }, start_offset: start, end_offset: end }
}

#[test]
fn as_known_copies_a_known_type() {
    let inner = Spanned::new(
        AstTypeExprDesc::Named {
            name: Spanned::new(Symbol { id: 3 }, span(5, 8)),
            args: vec![Spanned::new(AstAnyTypeExprDesc::Any, span(9, 10))],
        },
        span(5, 11),
    );
    let any = Spanned::new(
        AstAnyTypeExprDesc::Known(AstTypeExprDesc::Ref { mutable: true, pointee: Box::new(inner) }),
        span(0, 11),
    );
    let known = any.as_known().expect("a known type");
    assert_eq!(known.span, span(0, 11));
    match known.data {
        AstTypeExprDesc::Ref { mutable, pointee } => {
            assert!(mutable);
            assert_eq!(pointee.span, span(5, 11));
            match pointee.data {
                AstTypeExprDesc::Named { name, args } => {
                    assert_eq!(name.data, Symbol { id: 3 });
                    assert_eq!(args.len(), 1);
                    assert!(matches!(args[0].data, AstAnyTypeExprDesc::Any));
                    assert_eq!(args[0].span, span(9, 10));
                }
                _ => panic!("expected a named type"),
            }
        }
        _ => panic!("expected a reference type"),
    }
}

#[test]
fn as_known_of_placeholder_is_none() {
    let any = Spanned::new(AstAnyTypeExprDesc::Any, span(0, 1));
    assert!(any.as_known().is_none());
}

use rockr::parse_tree::pattern::{AstConstructFields, AstNamedPattern, AstPatternDesc, StructFieldPattern};
use rockr::parser::{KnownSymbols, Parser};
use rockr::token::{Token, TokenKind};

const FILE: SourceFile = SourceFile { id: 0 };

fn known() -> KnownSymbols {
    KnownSymbols {
        sizeof_dir: Symbol { id: 100 },
        metadata_dir: Symbol { id: 101 },
        typename_dir: Symbol { id: 102 },
        include_dir: Symbol { id: 103 },
        extern_dir: Symbol { id: 104 },
        underscore: Symbol { id: 105 },
        zelf: Symbol { id: 106 },
    }
}

fn tokens(kinds: &[TokenKind]) -> Vec<Token> {
    kinds
        .iter()
        .enumerate()
        .map(|(i, k)| Token {
            kind: *k,
            location: Span { file: FILE, start_offset: i * 2, end_offset: i * 2 + 1 },
        })
        .collect()
}

fn ident(id: u32) -> TokenKind {
    TokenKind::Identifier(Symbol { id })
}

#[test]
fn tuple_type_with_trailing_comma_and_sized_slice() {
    // (a, [b; 3],)
    let toks = tokens(&[
        TokenKind::OpenPar,
        ident(1),
        TokenKind::Comma,
        TokenKind::OpenSqr,
        ident(2),
        TokenKind::Semicolon,
        TokenKind::IntLit(3),
        TokenKind::CloseSqr,
        TokenKind::Comma,
        TokenKind::ClosePar,
    ]);
    let mut p = Parser::new(&toks, FILE, known());
    let t = p.parse_type_expr().expect("a type");
    assert_eq!(p.position, 10);
    assert_eq!(t.span, span(0, 19));
    match t.data {
        AstTypeExprDesc::Tuple(tys) => {
            assert_eq!(tys.len(), 2);
            assert!(matches!(&tys[0].data, AstTypeExprDesc::Named { name, args } if name.data == Symbol { id: 1 } && args.is_empty()));
            assert_eq!(tys[1].span, span(6, 15));
            match &tys[1].data {
                AstTypeExprDesc::Slice { ty, len } => {
                    assert_eq!(*len, Some(3));
                    assert_eq!(ty.span, span(8, 9));
                }
                _ => panic!("expected a slice"),
            }
        }
        _ => panic!("expected a tuple"),
    }
}

#[test]
fn double_reference_splits_into_two() {
    // &&mut x
    let toks = tokens(&[TokenKind::And, TokenKind::Mut, ident(7)]);
    let mut p = Parser::new(&toks, FILE, known());
    let t = p.parse_type_expr().expect("a type");
    assert_eq!(t.span, span(0, 5));
    match t.data {
        AstTypeExprDesc::Ref { mutable: false, pointee } => {
            assert_eq!(pointee.span, span(1, 5));
            match pointee.data {
                AstTypeExprDesc::Ref { mutable: true, pointee: inner } => {
                    assert_eq!(inner.span, span(4, 5));
                }
                _ => panic!("expected an inner mutable reference"),
            }
        }
        _ => panic!("expected a shared reference"),
    }
}

#[test]
fn path_type_with_placeholder_argument() {
    // m::T<_, u>
    let toks = tokens(&[
        ident(1),
        TokenKind::Access,
        ident(2),
        TokenKind::Lt,
        ident(105),
        TokenKind::Comma,
        ident(3),
        TokenKind::Gt,
    ]);
    let mut p = Parser::new(&toks, FILE, known());
    let t = p.parse_type_expr().expect("a type");
    assert_eq!(p.position, 8);
    match t.data {
        AstTypeExprDesc::NameResolved { from, to } => {
            assert_eq!(from.data, Symbol { id: 1 });
            assert_eq!(to.span, span(4, 15));
            match to.data {
                AstTypeExprDesc::Named { name, args } => {
                    assert_eq!(name.data, Symbol { id: 2 });
                    assert_eq!(args.len(), 2);
                    assert!(matches!(args[0].data, AstAnyTypeExprDesc::Any));
                    assert!(matches!(&args[1].data, AstAnyTypeExprDesc::Known(AstTypeExprDesc::Named { name, .. }) if name.data == Symbol { id: 3 }));
                }
                _ => panic!("expected a named type"),
            }
        }
        _ => panic!("expected a path"),
    }
}

#[test]
fn struct_pattern_with_rebinding() {
    // C { x, y: (1, _) }
    let toks = tokens(&[
        ident(1),
        TokenKind::OpenBra,
        ident(2),
        TokenKind::Comma,
        ident(3),
        TokenKind::Colon,
        TokenKind::OpenPar,
        TokenKind::IntLit(1),
        TokenKind::Comma,
        ident(105),
        TokenKind::ClosePar,
        TokenKind::CloseBra,
    ]);
    let mut p = Parser::new(&toks, FILE, known());
    let pat = p.parse_pattern().expect("a pattern");
    assert_eq!(p.position, 12);
    assert_eq!(pat.span, span(0, 23));
    match pat.data {
        AstPatternDesc::Named(AstNamedPattern::Constructor { name, args: AstConstructFields::StructFields(fs) }) => {
            assert_eq!(name, Symbol { id: 1 });
            assert_eq!(fs.len(), 2);
            assert!(matches!(fs[0], StructFieldPattern::Name(n, s) if n == Symbol { id: 2 } && s == span(4, 5)));
            match &fs[1] {
                StructFieldPattern::Rebind { name, pattern, .. } => {
                    assert_eq!(*name, Symbol { id: 3 });
                    assert_eq!(pattern.span, span(12, 21));
                    match &pattern.data {
                        AstPatternDesc::Named(AstNamedPattern::Tuple { fields }) => {
                            assert_eq!(fields.len(), 2);
                            assert!(matches!(fields[0].data, AstPatternDesc::IntLiteral(1)));
                            assert!(matches!(fields[1].data, AstPatternDesc::Any));
                        }
                        _ => panic!("expected a tuple pattern"),
                    }
                }
                _ => panic!("expected a rebinding"),
            }
        }
        _ => panic!("expected a struct pattern"),
    }
}

use rockr::parse_tree::top_level::{AstFundefArg, AstReceiver};

fn syms() -> Vec<String> {
    vec!["m".to_string(), "T".to_string(), "u".to_string(), "a".to_string(), "b".to_string()]
}

#[test]
fn type_display_writes_source_form() {
    // m::T<_, [u; 3]>
    let toks = tokens(&[
        ident(0),
        TokenKind::Access,
        ident(1),
        TokenKind::Lt,
        ident(105),
        TokenKind::Comma,
        TokenKind::OpenSqr,
        ident(2),
        TokenKind::Semicolon,
        TokenKind::IntLit(3),
        TokenKind::CloseSqr,
        TokenKind::Gt,
    ]);
    let mut p = Parser::new(&toks, FILE, known());
    let t = p.parse_type_expr().expect("a type");
    assert_eq!(t.data.display(&syms()), "m::T<_, [u; 3]>");
}

#[test]
fn tuple_and_pointer_display() {
    // (&mut a, *b, [u])
    let toks = tokens(&[
        TokenKind::OpenPar,
        TokenKind::BitAnd,
        TokenKind::Mut,
        ident(3),
        TokenKind::Comma,
        TokenKind::Mult,
        ident(4),
        TokenKind::Comma,
        TokenKind::OpenSqr,
        ident(2),
        TokenKind::CloseSqr,
        TokenKind::ClosePar,
    ]);
    let mut p = Parser::new(&toks, FILE, known());
    let t = p.parse_type_expr().expect("a type");
    assert_eq!(t.data.display(&syms()), "(&mut a, *b, [u])");
}

#[test]
fn unknown_symbols_display_as_nothing() {
    let t = AstTypeExprDesc::Named { name: Spanned::new(Symbol { id: 42 }, span(0, 1)), args: vec![] };
    assert_eq!(t.display(&syms()), "");
}

#[test]
fn fundef_arg_and_receiver_text() {
    let arg = AstFundefArg {
        name: Symbol { id: 3 },
        name_span: span(0, 1),
        ty: Spanned::new(
            AstTypeExprDesc::Ref {
                mutable: false,
                pointee: Box::new(Spanned::new(
                    AstTypeExprDesc::Named { name: Spanned::new(Symbol { id: 1 }, span(4, 5)), args: vec![] },
                    span(4, 5),
                )),
            },
            span(3, 5),
        ),
        span: span(0, 5),
    };
    assert_eq!(arg.display(&syms()), "a: &T");
    assert_eq!(AstReceiver::MutRefZelf(span(0, 1)).text(), "&mut self");
    assert_eq!(AstReceiver::NoReceiver.text(), "");
    assert_eq!(AstReceiver::PtrZelf(span(0, 1)).text(), "*self");
}
