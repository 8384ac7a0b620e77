use rockr::common::{SourceFile, Span, Symbol};
use rockr::parse_tree::expr::AstExprDesc;
use rockr::parse_tree::stmt::AstStmtDesc;
use rockr::parse_tree::top_level::AstTopLevelItemDesc;
use rockr::parser::top_level::parse_file;
use rockr::parser::{KnownSymbols, ParseErrorKind, Parser};
use rockr::token::{LexError, Token, TokenKind};

const FILE: SourceFile = SourceFile { id: 0 };

fn known() -> KnownSymbols {
    KnownSymbols {
        sizeof_dir: Symbol { id: 100 },
        metadata_dir: Symbol { id: 101 },
        typename_dir: Symbol { id: 102 },
        include_dir: Symbol { id: 103 },
        extern_dir: Symbol { id: 104 },
        underscore: Symbol { id: 105 },
        zelf: Symbol { id: 106 },
    }
}

fn tokens(kinds: &[TokenKind]) -> Vec<Token> {
    kinds
        .iter()
        .enumerate()
        .map(|(i, k)| Token {
            kind: *k,
            location: Span { file: FILE, start_offset: i * 2, end_offset: i * 2 + 1 },
        })
        .collect()
}

fn ident(id: u32) -> TokenKind {
    TokenKind::Identifier(Symbol { id })
}

// fun main(): int { return 1; }
fn main_fn() -> Vec<TokenKind> {
    vec![
        TokenKind::Fun,
        ident(1),
        TokenKind::OpenPar,
        TokenKind::ClosePar,
        TokenKind::Colon,
        ident(2),
        TokenKind::OpenBra,
        TokenKind::Return,
        TokenKind::IntLit(1),
        TokenKind::Semicolon,
        TokenKind::CloseBra,
    ]
}

#[test]
fn parses_a_function() {
    let (ast, errors) = parse_file(Ok(tokens(&main_fn())), FILE, known());
    assert!(errors.is_empty(), "{:?}", errors);
    assert_eq!(ast.items.len(), 1);
    match &ast.items[0].data {
        AstTopLevelItemDesc::Fundef(f) => {
            assert_eq!(f.data.name.data, Symbol { id: 1 });
            assert!(f.data.args.is_empty());
            assert_eq!(f.data.body.len(), 1);
            match &f.data.body[0].data {
                AstStmtDesc::Return { value: Some(v) } => {
                    assert!(matches!(v.data, AstExprDesc::IntLit(1)));
                }
                other => panic!("unexpected statement {:?}", other),
            }
        }
        other => panic!("unexpected item {:?}", other),
    }
}

#[test]
fn lex_errors_are_reported() {
    let (ast, errors) = parse_file(Err(LexError { offset: 7 }), FILE, known());
    assert!(ast.items.is_empty());
    assert_eq!(errors.len(), 1);
    assert!(matches!(errors[0].kind, ParseErrorKind::LexError(LexError { offset: 7 })));
    assert_eq!(errors[0].start, 7);
    assert_eq!(errors[0].end, 8);
}

#[test]
fn empty_input_gives_empty_ast() {
    let (ast, errors) = parse_file(Ok(vec![]), FILE, known());
    assert!(ast.items.is_empty() && ast.includes.is_empty() && errors.is_empty());
}

#[test]
fn recovers_after_a_bad_item() {
    // `fun ;` is not a function; the following function still parses.
    let mut kinds = vec![TokenKind::Fun, TokenKind::Semicolon];
    kinds.extend(main_fn());
    let (ast, errors) = parse_file(Ok(tokens(&kinds)), FILE, known());
    assert!(!errors.is_empty());
    assert!(ast.items.iter().any(|it| matches!(&it.data, AstTopLevelItemDesc::Fundef(f) if f.data.name.data == Symbol { id: 1 })));
}

#[test]
fn expect_and_peek() {
    let toks = tokens(&[TokenKind::OpenPar, ident(4)]);
    let mut p = Parser::new(&toks, FILE, known());
    assert!(p.expect(TokenKind::OpenPar).is_ok());
    assert!(p.expect(TokenKind::ClosePar).is_err());
    assert_eq!(p.peek_n(1).map(|t| t.kind), Some(ident(4)));
    p.consume();
    let s = p.parse_symbol().unwrap();
    assert_eq!(s.data, Symbol { id: 4 });
    assert!(p.peek_n(0).is_none());
    assert!(matches!(p.current_token(), Err(e) if matches!(e.kind, ParseErrorKind::UnexpectedEOF)));
}

#[test]
fn unbalanced_brackets_swallow_the_rest() {
    // Recovery skips bracketed groups, so after `fun ( ;` nothing more is read.
    let mut kinds = vec![TokenKind::Fun, TokenKind::OpenPar, TokenKind::Semicolon];
    kinds.extend(main_fn());
    let (ast, errors) = parse_file(Ok(tokens(&kinds)), FILE, known());
    assert_eq!(errors.len(), 1);
    assert_eq!(ast.items.len(), 1);
    assert!(matches!(ast.items[0].data, AstTopLevelItemDesc::Error(_)));
}

#[test]
fn sync_points() {
    assert!(Parser::is_top_level_sync_point(&TokenKind::Fun));
    assert!(Parser::is_top_level_sync_point(&TokenKind::Interface));
    assert!(!Parser::is_top_level_sync_point(&TokenKind::Struct));
    assert!(!Parser::is_top_level_sync_point(&TokenKind::Plus));
}
