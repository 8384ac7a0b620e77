use rockr::common::{SourceFile, Span, Symbol};
use rockr::parse_tree::annotation::{AstAnnotationArg, AstAnnotationItem};
use rockr::parse_tree::type_expr::AstTypeExprDesc;
use rockr::parse_tree::expr::{AstExprDesc, BinaryOperator};
use rockr::parse_tree::stmt::{AstStmtDesc, CompoundAssignOp};
use rockr::parse_tree::top_level::AstTopLevelItemDesc;
use rockr::parser::top_level::parse_file;
use rockr::parser::{KnownSymbols, ParseErrorKind, Parser};
use rockr::token::{Token, TokenKind};

const FILE: SourceFile = SourceFile { id: 0 };

fn known() -> KnownSymbols {
    KnownSymbols {
        sizeof_dir: Symbol { id: 100 },
        metadata_dir: Symbol { id: 101 },
        typename_dir: Symbol { id: 102 },
        include_dir: Symbol { id: 103 },
        extern_dir: Symbol { id: 104 },
        underscore: Symbol { id: 105 },
        zelf: Symbol { id: 106 },
    }
}

fn tokens(kinds: &[TokenKind]) -> Vec<Token> {
    kinds
        .iter()
        .enumerate()
        .map(|(i, k)| Token {
            kind: *k,
            location: Span { file: FILE, start_offset: i * 2, end_offset: i * 2 + 1 },
        })
        .collect()
}

fn ident(id: u32) -> TokenKind {
    TokenKind::Identifier(Symbol { id })
}

fn name_of(e: &AstExprDesc) -> Option<u32> {
    match e {
        AstExprDesc::Name(s) => Some(s.id),
        _ => None,
    }
}

#[test]
fn binary_operators_by_precedence_and_to_the_left() {
    // a - b - c * d
    let toks = tokens(&[ident(1), TokenKind::Minus, ident(2), TokenKind::Minus, ident(3), TokenKind::Mult, ident(4)]);
    let mut p = Parser::new(&toks, FILE, known());
    let e = p.parse_binop(0).unwrap();
    assert_eq!(p.position, 7);
    match e.data {
        AstExprDesc::BinOp { lhs, op, rhs } => {
            assert_eq!(op, BinaryOperator::Minus);
            match lhs.data {
                AstExprDesc::BinOp { lhs: a, op: o, rhs: b } => {
                    assert_eq!(o, BinaryOperator::Minus);
                    assert_eq!(name_of(&a.data), Some(1));
                    assert_eq!(name_of(&b.data), Some(2));
                }
                other => panic!("unexpected left side {:?}", other),
            }
            match rhs.data {
                AstExprDesc::BinOp { lhs: c, op: o, rhs: d } => {
                    assert_eq!(o, BinaryOperator::Times);
                    assert_eq!(name_of(&c.data), Some(3));
                    assert_eq!(name_of(&d.data), Some(4));
                }
                other => panic!("unexpected right side {:?}", other),
            }
        }
        other => panic!("unexpected expression {:?}", other),
    }
    assert_eq!(e.span, Span { file: FILE, start_offset: 0, end_offset: 13 });
}

#[test]
fn comparison_of_a_literal_and_a_sum() {
    // 1 < 2 + 3
    let toks = tokens(&[TokenKind::IntLit(1), TokenKind::Lt, TokenKind::IntLit(2), TokenKind::Plus, TokenKind::IntLit(3)]);
    let mut p = Parser::new(&toks, FILE, known());
    match p.parse_expr().unwrap().data {
        AstExprDesc::BinOp { op, rhs, .. } => {
            assert_eq!(op, BinaryOperator::Lt);
            assert!(matches!(rhs.data, AstExprDesc::BinOp { op: BinaryOperator::Plus, .. }));
        }
        other => panic!("unexpected expression {:?}", other),
    }
    assert_eq!(p.position, 5);
}

#[test]
fn assignments_of_expressions() {
    // x -= a * 2 ;
    let toks = tokens(&[ident(1), TokenKind::MinusEq, ident(2), TokenKind::Mult, TokenKind::IntLit(2), TokenKind::Semicolon]);
    let mut p = Parser::new(&toks, FILE, known());
    match p.try_parse_assign().unwrap().data {
        AstStmtDesc::CompoundAssign { op, rhs, .. } => {
            assert_eq!(op, CompoundAssignOp::Minus);
            assert!(matches!(rhs.data, AstExprDesc::BinOp { op: BinaryOperator::Times, .. }));
        }
        other => panic!("unexpected statement {:?}", other),
    }
    assert_eq!(p.position, 6);

    // a + b ;  is no assignment
    let toks = tokens(&[ident(1), TokenKind::Plus, ident(2), TokenKind::Semicolon]);
    let mut p = Parser::new(&toks, FILE, known());
    assert!(p.try_parse_assign().is_none());
    assert_eq!(p.position, 0);
    assert!(matches!(p.parse_stmt().unwrap().data, AstStmtDesc::Expr(_)));
    assert_eq!(p.position, 4);
}

#[test]
fn annotation_calls_with_arguments() {
    let toks = tokens(&[ident(8), TokenKind::OpenPar, ident(1), TokenKind::Comma, ident(2), TokenKind::ClosePar]);
    let mut p = Parser::new(&toks, FILE, known());
    match p.parse_annotation_item().unwrap() {
        AstAnnotationItem::Call { name, args } => {
            assert_eq!(name, Symbol { id: 8 });
            assert_eq!(args.len(), 2);
        }
        other => panic!("unexpected item {:?}", other),
    }
    assert_eq!(p.position, 6);

    let toks = tokens(&[ident(8), TokenKind::OpenPar, ident(1), TokenKind::Semicolon]);
    let mut p = Parser::new(&toks, FILE, known());
    match p.parse_annotation_item() {
        Err(e) => assert!(matches!(
            e.kind,
            ParseErrorKind::ExpectedToken { expected: TokenKind::ClosePar, found: TokenKind::Semicolon }
        )),
        Ok(other) => panic!("unexpected item {:?}", other),
    }
}

#[test]
fn annotations_are_collected_in_order() {
    let toks = tokens(&[
        TokenKind::AddressOf, TokenKind::OpenSqr, ident(1), TokenKind::CloseSqr,
        TokenKind::AddressOf, TokenKind::OpenSqr, TokenKind::CloseSqr,
        TokenKind::AddressOf, TokenKind::OpenSqr, ident(2), TokenKind::Comma, ident(3), TokenKind::CloseSqr,
        TokenKind::Fun,
    ]);
    let mut p = Parser::new(&toks, FILE, known());
    p.collect_annotations().unwrap();
    assert_eq!(p.position, 13);
    let anns = p.annotations();
    assert_eq!(anns.len(), 3);
    assert_eq!(anns[0].items.len(), 1);
    assert!(anns[1].items.is_empty());
    assert!(matches!(anns[2].items[1], AstAnnotationItem::Flag(Symbol { id: 3 })));
}

#[test]
fn files_of_simple_items_and_failed_items() {
    let toks = tokens(&[
        TokenKind::Directive(Symbol { id: 103 }), ident(1),
        TokenKind::Struct, ident(2), TokenKind::OpenBra, TokenKind::CloseBra,
        TokenKind::Fun, ident(3), TokenKind::OpenPar, TokenKind::ClosePar, TokenKind::Colon, ident(4),
        TokenKind::OpenBra, TokenKind::CloseBra,
    ]);
    let (ast, errors) = parse_file(Ok(toks), FILE, known());
    assert!(errors.is_empty());
    assert_eq!(ast.includes.len(), 1);
    assert_eq!(ast.items.len(), 2);
    assert!(matches!(ast.items[0].data, AstTopLevelItemDesc::StructDef(_)));
    assert!(matches!(ast.items[1].data, AstTopLevelItemDesc::Fundef(_)));

    // A failed item is kept as an error item whose error is reported.
    let toks = tokens(&[TokenKind::Semicolon, TokenKind::Struct, ident(2), TokenKind::OpenBra, TokenKind::CloseBra]);
    let (ast, errors) = parse_file(Ok(toks), FILE, known());
    match &ast.items[0].data {
        AstTopLevelItemDesc::Error(e) => assert!(errors.iter().any(|x| x.start == e.start && x.end == e.end)),
        other => panic!("unexpected item {:?}", other),
    }
}

#[test]
fn a_failed_module_is_kept_as_an_error_item() {
    // module m { fun ; } : the inner error is reported and the module item recovers
    let toks = tokens(&[TokenKind::Module, ident(1), TokenKind::Semicolon]);
    let mut p = Parser::new(&toks, FILE, known());
    let item = p.parse_toplevel_item().unwrap();
    match item.data {
        AstTopLevelItemDesc::Error(e) => {
            let last = p.errors.last().unwrap();
            assert_eq!((last.start, last.end), (e.start, e.end));
            assert_eq!(p.errors.len(), 1);
            assert_eq!((e.start, e.end), (4, 5));
            assert!(matches!(
                e.kind,
                ParseErrorKind::ExpectedToken { expected: TokenKind::OpenBra, found: TokenKind::Semicolon }
            ));
        }
        other => panic!("unexpected item {:?}", other),
    }
}

#[test]
fn stray_tokens_become_error_items_and_parsing_goes_on() {
    // ; ( fun ) fun f ( ) : T { } ; type struct S { }
    // The first stray token skips up to the second `fun`: the one inside the
    // brackets is no place to resume. `;` skips to `type`, which may start an
    // item but cannot start one at the top level, so it is skipped alone.
    let toks = tokens(&[
        TokenKind::Semicolon, TokenKind::OpenPar, TokenKind::Fun, TokenKind::ClosePar,
        TokenKind::Fun, ident(3), TokenKind::OpenPar, TokenKind::ClosePar, TokenKind::Colon, ident(4),
        TokenKind::OpenBra, TokenKind::CloseBra,
        TokenKind::Semicolon, TokenKind::Type,
        TokenKind::Struct, ident(2), TokenKind::OpenBra, TokenKind::CloseBra,
    ]);
    let (ast, errors) = parse_file(Ok(toks), FILE, known());
    assert_eq!(errors.len(), 3);
    assert!(errors.iter().all(|e| matches!(e.kind, ParseErrorKind::NotATopLevelItem)));
    assert_eq!((errors[0].start, errors[0].end), (0, 1));
    assert_eq!((errors[1].start, errors[1].end), (24, 25));
    assert_eq!((errors[2].start, errors[2].end), (26, 27));
    assert_eq!(ast.items.len(), 5);
    assert!(matches!(ast.items[0].data, AstTopLevelItemDesc::Error(_)));
    assert!(matches!(ast.items[1].data, AstTopLevelItemDesc::Fundef(_)));
    assert!(matches!(ast.items[2].data, AstTopLevelItemDesc::Error(_)));
    assert!(matches!(ast.items[3].data, AstTopLevelItemDesc::Error(_)));
    assert!(matches!(ast.items[4].data, AstTopLevelItemDesc::StructDef(_)));
}

#[test]
fn prefix_operators_bind_tighter_than_binary_ones() {
    // -a * !b
    let toks = tokens(&[TokenKind::Minus, ident(1), TokenKind::Mult, TokenKind::Not, ident(2)]);
    let mut p = Parser::new(&toks, FILE, known());
    let e = p.parse_binop(0).unwrap();
    assert_eq!(p.position, 5);
    match e.data {
        AstExprDesc::BinOp { lhs, op, rhs } => {
            assert_eq!(op, BinaryOperator::Times);
            match lhs.data {
                AstExprDesc::Neg(a) => assert_eq!(name_of(&a.data), Some(1)),
                other => panic!("unexpected left side {:?}", other),
            }
            assert_eq!(lhs.span, Span { file: FILE, start_offset: 0, end_offset: 3 });
            match rhs.data {
                AstExprDesc::Not(b) => assert_eq!(name_of(&b.data), Some(2)),
                other => panic!("unexpected right side {:?}", other),
            }
        }
        other => panic!("unexpected expression {:?}", other),
    }

    // &mut x + *y
    let toks = tokens(&[TokenKind::BitAnd, TokenKind::Mut, ident(1), TokenKind::Plus, TokenKind::Mult, ident(2)]);
    let mut p = Parser::new(&toks, FILE, known());
    match p.parse_expr().unwrap().data {
        AstExprDesc::BinOp { lhs, op, rhs } => {
            assert_eq!(op, BinaryOperator::Plus);
            assert!(matches!(lhs.data, AstExprDesc::Ref(true, _)));
            assert!(matches!(rhs.data, AstExprDesc::PrefixDeref(_)));
        }
        other => panic!("unexpected expression {:?}", other),
    }
    assert_eq!(p.position, 6);
}

#[test]
fn literals_as_operands() {
    // true == false
    let toks = tokens(&[TokenKind::True, TokenKind::EqEq, TokenKind::False]);
    let mut p = Parser::new(&toks, FILE, known());
    match p.parse_expr().unwrap().data {
        AstExprDesc::BinOp { lhs, op, rhs } => {
            assert_eq!(op, BinaryOperator::Eq);
            assert!(matches!(lhs.data, AstExprDesc::BoolLit(true)));
            assert!(matches!(rhs.data, AstExprDesc::BoolLit(false)));
        }
        other => panic!("unexpected expression {:?}", other),
    }
    assert_eq!(p.position, 3);
}

#[test]
fn modules_in_a_file_and_a_failed_one() {
    // module a { } module b ; struct S { }
    // `module b` fails on `;`, which is then a stray token: recovery from it
    // finds no place to resume before the end.
    let toks = tokens(&[
        TokenKind::Module, ident(1), TokenKind::OpenBra, TokenKind::CloseBra,
        TokenKind::Module, ident(2), TokenKind::Semicolon,
        TokenKind::Struct, ident(3), TokenKind::OpenBra, TokenKind::CloseBra,
    ]);
    let (ast, errors) = parse_file(Ok(toks), FILE, known());
    assert_eq!(ast.items.len(), 3);
    assert!(matches!(ast.items[0].data, AstTopLevelItemDesc::Module(_)));
    match &ast.items[1].data {
        AstTopLevelItemDesc::Error(e) => {
            assert!(matches!(
                e.kind,
                ParseErrorKind::ExpectedToken { expected: TokenKind::OpenBra, found: TokenKind::Semicolon }
            ));
            assert_eq!((e.start, e.end), (12, 13));
        }
        other => panic!("unexpected item {:?}", other),
    }
    assert!(matches!(ast.items[2].data, AstTopLevelItemDesc::Error(_)));
    assert_eq!(errors.len(), 2);
    assert!(matches!(errors[0].kind, ParseErrorKind::ExpectedToken { .. }));
    assert!(matches!(errors[1].kind, ParseErrorKind::NotATopLevelItem));
    assert_eq!((errors[1].start, errors[1].end), (12, 13));
}

fn arg_name(a: &AstAnnotationArg) -> u32 {
    match a {
        AstAnnotationArg::Type(t) => match &t.data {
            AstTypeExprDesc::Named { name, .. } => name.data.id,
            other => panic!("unexpected type {:?}", other),
        },
    }
}

#[test]
fn annotation_arguments_keep_their_types_and_order() {
    // repr(A, B,)
    let toks = tokens(&[
        ident(8), TokenKind::OpenPar, ident(1), TokenKind::Comma, ident(2), TokenKind::Comma, TokenKind::ClosePar,
    ]);
    let mut p = Parser::new(&toks, FILE, known());
    match p.parse_annotation_item().unwrap() {
        AstAnnotationItem::Call { name, args } => {
            assert_eq!(name, Symbol { id: 8 });
            assert_eq!(args.iter().map(arg_name).collect::<Vec<_>>(), vec![1, 2]);
            match &args[1] {
                AstAnnotationArg::Type(t) => assert_eq!(t.span, Span { file: FILE, start_offset: 8, end_offset: 9 }),
            }
        }
        other => panic!("unexpected item {:?}", other),
    }
    assert_eq!(p.position, 7);
}

#[test]
fn annotations_with_calls_are_kept_on_the_item() {
    // @[inline, repr(A)] @[x] fun f ( ) : T { }
    let toks = tokens(&[
        TokenKind::AddressOf, TokenKind::OpenSqr, ident(1), TokenKind::Comma, ident(2), TokenKind::OpenPar, ident(3),
        TokenKind::ClosePar, TokenKind::CloseSqr,
        TokenKind::AddressOf, TokenKind::OpenSqr, ident(4), TokenKind::CloseSqr,
        TokenKind::Fun, ident(5), TokenKind::OpenPar, TokenKind::ClosePar, TokenKind::Colon, ident(6),
        TokenKind::OpenBra, TokenKind::CloseBra,
    ]);
    let mut p = Parser::new(&toks, FILE, known());
    let item = p.parse_toplevel_item().unwrap();
    assert!(matches!(item.data, AstTopLevelItemDesc::Fundef(_)));
    assert_eq!(item.annotations.len(), 2);
    assert!(matches!(item.annotations[0].items[0], AstAnnotationItem::Flag(Symbol { id: 1 })));
    match &item.annotations[0].items[1] {
        AstAnnotationItem::Call { name, args } => {
            assert_eq!(name.id, 2);
            assert_eq!(args.iter().map(arg_name).collect::<Vec<_>>(), vec![3]);
        }
        other => panic!("unexpected item {:?}", other),
    }
    assert!(matches!(item.annotations[1].items[0], AstAnnotationItem::Flag(Symbol { id: 4 })));
    assert_eq!(p.position, toks.len());
}

#[test]
fn a_module_without_a_name_is_an_error_item() {
    // module ;
    let toks = tokens(&[TokenKind::Module, TokenKind::Semicolon]);
    let mut p = Parser::new(&toks, FILE, known());
    match p.parse_toplevel_item().unwrap().data {
        AstTopLevelItemDesc::Error(e) => {
            assert!(matches!(e.kind, ParseErrorKind::ExpectedSymbol(_)));
            assert_eq!((e.start, e.end), (2, 3));
        }
        other => panic!("unexpected item {:?}", other),
    }
    assert_eq!(p.errors.len(), 1);
    assert_eq!(p.position, 1);
}

#[test]
fn struct_fields_keep_their_names_types_and_order() {
    // struct S { a: T; b: U; }
    let toks = tokens(&[
        TokenKind::Struct, ident(1), TokenKind::OpenBra,
        ident(2), TokenKind::Colon, ident(3), TokenKind::Semicolon,
        ident(4), TokenKind::Colon, ident(5), TokenKind::Semicolon,
        TokenKind::CloseBra,
    ]);
    let mut p = Parser::new(&toks, FILE, known());
    let item = p.parse_toplevel_item().unwrap();
    match item.data {
        AstTopLevelItemDesc::StructDef(s) => {
            assert_eq!(s.fields.len(), 2);
            assert_eq!(s.fields[0].name, Symbol { id: 2 });
            assert_eq!(s.fields[1].name, Symbol { id: 4 });
            assert!(matches!(&s.fields[1].ty.data, AstTypeExprDesc::Named { name, .. } if name.data.id == 5));
            assert_eq!(s.fields[0].span, Span { file: FILE, start_offset: 6, end_offset: 11 });
        }
        other => panic!("unexpected item {:?}", other),
    }
    assert_eq!(p.position, toks.len());
}
