use rockr::common::{Location, SourceFile, Span, Symbol};
use rockr::parse_tree::Spanned;
use rockr::parse_tree::annotation::AstAnnotationItem;
use rockr::parse_tree::expr::AstExprDesc;
use rockr::parse_tree::pattern::{AstNamedPattern, AstPatternDesc, StructFieldPattern};
use rockr::parse_tree::stmt::{AstStmtDesc, CompoundAssignOp};
use rockr::parse_tree::type_expr::AstTypeExprDesc;
use rockr::parse_tree::top_level::{
    AstAnyTopLevelItemDesc, AstEnumVariantKind, AstImplItem, AstIncludePathDesc, AstInterfaceItem, AstReceiver,
    AstTopLevelItemDesc,
};
use rockr::parser::{KnownSymbols, ParseErrorKind, Parser};
use rockr::token::{Token, TokenKind};

const FILE: SourceFile = SourceFile { id: 0 };

fn known() -> KnownSymbols {
    KnownSymbols {
        sizeof_dir: Symbol { id: 100 },
        metadata_dir: Symbol { id: 101 },
        typename_dir: Symbol { id: 102 },
        include_dir: Symbol { id: 103 },
        extern_dir: Symbol { id: 104 },
        underscore: Symbol { id: 105 },
        zelf: Symbol { id: 106 },
    }
}

fn tokens(kinds: &[TokenKind]) -> Vec<Token> {
    kinds
        .iter()
        .enumerate()
        .map(|(i, k)| Token {
            kind: *k,
            location: Span { file: FILE, start_offset: i * 2, end_offset: i * 2 + 1 },
        })
        .collect()
}

fn ident(id: u32) -> TokenKind {
    TokenKind::Identifier(Symbol { id })
}

fn zelf() -> TokenKind {
    ident(106)
}

#[test]
fn while_with_literal_condition_and_empty_body() {
    let toks = tokens(&[TokenKind::While, TokenKind::IntLit(1), TokenKind::OpenBra, TokenKind::CloseBra]);
    let mut p = Parser::new(&toks, FILE, known());
    let s = p.parse_while_stmt().unwrap();
    assert_eq!(p.position, 4);
    match s.data {
        AstStmtDesc::While { cond, body } => {
            assert!(matches!(cond.data, AstExprDesc::IntLit(1)));
            assert!(matches!(&body.data, AstStmtDesc::Block { stmts } if stmts.is_empty()));
        }
        other => panic!("unexpected statement {:?}", other),
    }
}

#[test]
fn if_with_and_without_else() {
    let toks = tokens(&[
        TokenKind::If, TokenKind::IntLit(0), TokenKind::OpenBra, TokenKind::CloseBra,
        TokenKind::Else, TokenKind::OpenBra, TokenKind::CloseBra,
    ]);
    let mut p = Parser::new(&toks, FILE, known());
    let s = p.parse_if_stmt().unwrap();
    assert_eq!(p.position, 7);
    assert!(matches!(s.data, AstStmtDesc::If { else_: Some(_), .. }));
    let toks = tokens(&[TokenKind::If, TokenKind::IntLit(0), TokenKind::OpenBra, TokenKind::CloseBra, TokenKind::Semicolon]);
    let mut p = Parser::new(&toks, FILE, known());
    let s = p.parse_if_stmt().unwrap();
    assert_eq!(p.position, 4);
    assert!(matches!(s.data, AstStmtDesc::If { else_: None, .. }));
}

#[test]
fn for_let_match_and_return() {
    let toks = tokens(&[
        TokenKind::For, ident(1), TokenKind::In, TokenKind::IntLit(3), TokenKind::OpenBra, TokenKind::CloseBra,
    ]);
    let mut p = Parser::new(&toks, FILE, known());
    assert!(matches!(p.parse_for_stmt().unwrap().data, AstStmtDesc::For { .. }));
    assert_eq!(p.position, 6);

    let toks = tokens(&[TokenKind::Let, ident(1), TokenKind::Eq, TokenKind::IntLit(5), TokenKind::Semicolon]);
    let mut p = Parser::new(&toks, FILE, known());
    match p.parse_let_decl().unwrap().data {
        AstStmtDesc::LetDecl { pat, type_constraint, value } => {
            assert!(matches!(pat.data, AstPatternDesc::Named(AstNamedPattern::Bare(Symbol { id: 1 }))));
            assert!(type_constraint.is_none());
            assert!(matches!(value.data, AstExprDesc::IntLit(5)));
        }
        other => panic!("unexpected statement {:?}", other),
    }
    assert_eq!(p.position, 5);

    let toks = tokens(&[TokenKind::Match, TokenKind::IntLit(2), TokenKind::OpenBra, TokenKind::CloseBra]);
    let mut p = Parser::new(&toks, FILE, known());
    assert!(matches!(p.parse_match_stmt().unwrap().data, AstStmtDesc::Match { branches, .. } if branches.is_empty()));
    assert_eq!(p.position, 4);

    let toks = tokens(&[TokenKind::Return, ident(7), TokenKind::Semicolon]);
    let mut p = Parser::new(&toks, FILE, known());
    match p.parse_return().unwrap().data {
        AstStmtDesc::Return { value: Some(v) } => assert!(matches!(v.data, AstExprDesc::Name(Symbol { id: 7 }))),
        other => panic!("unexpected statement {:?}", other),
    }
    assert_eq!(p.position, 3);
}

#[test]
fn assignments_and_expression_statements() {
    let toks = tokens(&[ident(1), TokenKind::PlusEq, TokenKind::IntLit(2), TokenKind::Semicolon]);
    let mut p = Parser::new(&toks, FILE, known());
    match p.try_parse_assign().unwrap().data {
        AstStmtDesc::CompoundAssign { op, .. } => assert_eq!(op, CompoundAssignOp::Plus),
        other => panic!("unexpected statement {:?}", other),
    }
    assert_eq!(p.position, 4);

    let toks = tokens(&[ident(1), TokenKind::Semicolon]);
    let mut p = Parser::new(&toks, FILE, known());
    assert!(p.try_parse_assign().is_none());
    assert_eq!(p.position, 0);
    assert!(matches!(p.parse_stmt().unwrap().data, AstStmtDesc::Expr(_)));
    assert_eq!(p.position, 2);

    let toks = tokens(&[TokenKind::Break, TokenKind::Semicolon]);
    let mut p = Parser::new(&toks, FILE, known());
    assert!(matches!(p.parse_stmt().unwrap().data, AstStmtDesc::Break));
    assert_eq!(p.position, 2);
}

#[test]
fn argument_lists_empty_and_single() {
    let toks = tokens(&[TokenKind::ClosePar]);
    let mut p = Parser::new(&toks, FILE, known());
    assert!(p.parse_expr_args().unwrap().is_empty());
    assert_eq!(p.position, 0);

    let toks = tokens(&[TokenKind::IntLit(9), TokenKind::ClosePar]);
    let mut p = Parser::new(&toks, FILE, known());
    let args = p.parse_expr_args().unwrap();
    assert_eq!(args.len(), 1);
    assert!(matches!(args[0].data, AstExprDesc::IntLit(9)));
    assert_eq!(p.position, 1);

    let toks = tokens(&[TokenKind::Dot, ident(3), TokenKind::Colon, TokenKind::IntLit(4), TokenKind::CloseBra]);
    let mut p = Parser::new(&toks, FILE, known());
    let fields = p.parse_struct_fields().unwrap();
    assert_eq!(fields.len(), 1);
    assert_eq!(fields[0].name, Symbol { id: 3 });
    assert_eq!(p.position, 4);

    let toks = tokens(&[TokenKind::Lt, ident(3), TokenKind::Gt]);
    let mut p = Parser::new(&toks, FILE, known());
    assert_eq!(p.parse_turbofish_args().unwrap().len(), 1);
    assert_eq!(p.position, 3);

    let toks = tokens(&[ident(3), TokenKind::Colon, ident(4), TokenKind::ClosePar]);
    let mut p = Parser::new(&toks, FILE, known());
    let args = p.parse_fundef_args().unwrap();
    assert_eq!(args.len(), 1);
    assert_eq!(args[0].name, Symbol { id: 3 });
    assert_eq!(p.position, 3);
}

#[test]
fn receivers() {
    let toks = tokens(&[TokenKind::BitAnd, TokenKind::Mut, zelf()]);
    let mut p = Parser::new(&toks, FILE, known());
    assert!(matches!(p.parse_receiver(), AstReceiver::MutRefZelf(_)));
    assert_eq!(p.position, 3);

    let toks = tokens(&[TokenKind::Mult, zelf()]);
    let mut p = Parser::new(&toks, FILE, known());
    assert!(matches!(p.parse_receiver(), AstReceiver::PtrZelf(_)));
    assert_eq!(p.position, 2);

    let toks = tokens(&[TokenKind::BitAnd, ident(3)]);
    let mut p = Parser::new(&toks, FILE, known());
    assert!(matches!(p.parse_receiver(), AstReceiver::NoReceiver));
    assert_eq!(p.position, 0);
    assert!(p.parse_receiver_aux().is_err());
}

#[test]
fn include_paths_and_annotations() {
    let toks = tokens(&[ident(1), TokenKind::Semicolon]);
    let mut p = Parser::new(&toks, FILE, known());
    let path = p.parse_include_path().unwrap();
    assert!(matches!(path.data, AstIncludePathDesc::Symbol(Symbol { id: 1 })));
    assert_eq!(p.position, 1);

    let toks = tokens(&[ident(1)]);
    let mut p = Parser::new(&toks, FILE, known());
    assert!(matches!(p.parse_include_path(), Err(e) if matches!(e.kind, ParseErrorKind::UnexpectedEOF)));

    let toks = tokens(&[TokenKind::AddressOf, TokenKind::OpenSqr, ident(8), TokenKind::CloseSqr]);
    let mut p = Parser::new(&toks, FILE, known());
    let a = p.parse_annotation().unwrap();
    assert_eq!(a.items.len(), 1);
    assert!(matches!(a.items[0], AstAnnotationItem::Flag(Symbol { id: 8 })));
    assert_eq!(p.position, 4);

    let toks = tokens(&[ident(8), TokenKind::OpenPar, TokenKind::ClosePar]);
    let mut p = Parser::new(&toks, FILE, known());
    assert!(matches!(p.parse_annotation_item().unwrap(), AstAnnotationItem::Call { args, .. } if args.is_empty()));
    assert_eq!(p.position, 3);
}

#[test]
fn patterns_of_one_name() {
    let toks = tokens(&[ident(2), TokenKind::Comma]);
    let mut p = Parser::new(&toks, FILE, known());
    assert!(matches!(p.parse_named_pattern().unwrap(), AstNamedPattern::Bare(Symbol { id: 2 })));
    assert_eq!(p.position, 1);

    let toks = tokens(&[ident(2), TokenKind::CloseBra]);
    let mut p = Parser::new(&toks, FILE, known());
    assert!(matches!(p.parse_struct_field_pattern().unwrap(), StructFieldPattern::Name(Symbol { id: 2 }, _)));
    assert_eq!(p.position, 1);

    let toks = tokens(&[TokenKind::IntLit(1), TokenKind::ClosePar]);
    let mut p = Parser::new(&toks, FILE, known());
    assert_eq!(p.parse_pattern_list(TokenKind::ClosePar).unwrap().len(), 1);
    assert_eq!(p.position, 1);
}

#[test]
fn items_of_few_tokens() {
    let toks = tokens(&[TokenKind::Enum, ident(1), TokenKind::OpenBra, ident(2), TokenKind::CloseBra]);
    let mut p = Parser::new(&toks, FILE, known());
    let e = p.parse_enum_def().unwrap();
    assert_eq!(e.variants.len(), 1);
    assert!(matches!(e.variants[0].kind, AstEnumVariantKind::Unit));
    assert_eq!(p.position, 5);

    let toks = tokens(&[
        TokenKind::Struct, ident(1), TokenKind::OpenBra, ident(2), TokenKind::Colon, ident(3), TokenKind::CloseBra,
    ]);
    let mut p = Parser::new(&toks, FILE, known());
    assert_eq!(p.parse_struct_def().unwrap().fields.len(), 1);
    assert_eq!(p.position, 7);

    let toks = tokens(&[TokenKind::Impl, ident(1), TokenKind::For, ident(2), TokenKind::OpenBra, TokenKind::CloseBra]);
    let mut p = Parser::new(&toks, FILE, known());
    let b = p.parse_impl_block().unwrap();
    assert!(b.interface.is_some() && b.items.is_empty());
    assert_eq!(p.position, 6);

    let toks = tokens(&[TokenKind::Type, ident(1), TokenKind::Eq, ident(2), TokenKind::Semicolon]);
    let mut p = Parser::new(&toks, FILE, known());
    assert!(matches!(p.parse_impl_item().unwrap(), AstImplItem::Type { .. }));
    assert_eq!(p.position, 5);

    let toks = tokens(&[
        TokenKind::Fun, ident(1), TokenKind::OpenPar, zelf(), TokenKind::ClosePar, TokenKind::Colon, ident(2),
        TokenKind::OpenBra, TokenKind::CloseBra,
    ]);
    let mut p = Parser::new(&toks, FILE, known());
    let m = p.parse_methoddef().unwrap();
    assert!(matches!(m.data.receiver, AstReceiver::Zelf(_)));
    assert_eq!(p.position, 9);

    let toks = tokens(&[TokenKind::Directive(Symbol { id: 103 }), ident(4), TokenKind::Semicolon]);
    let mut p = Parser::new(&toks, FILE, known());
    assert!(matches!(p.parse_any_toplevel_item().unwrap().data, AstAnyTopLevelItemDesc::Include(_)));
    assert_eq!(p.position, 2);

    let toks = tokens(&[TokenKind::Struct, ident(1), TokenKind::OpenBra, TokenKind::CloseBra]);
    let mut p = Parser::new(&toks, FILE, known());
    match p.parse_any_toplevel_item().unwrap().data {
        AstAnyTopLevelItemDesc::Item(d) => assert!(matches!(*d, AstTopLevelItemDesc::StructDef(_))),
        other => panic!("unexpected item {:?}", other),
    }
    assert_eq!(p.position, 4);
}

#[test]
fn paths_after_a_turbofish() {
    let lhs = Spanned::new(AstExprDesc::Name(Symbol { id: 1 }), Span { file: FILE, start_offset: 0, end_offset: 1 });
    let start = Location { file: FILE, offset: 0 };
    let toks = tokens(&[
        TokenKind::Lt, TokenKind::Gt, TokenKind::Access, ident(2), TokenKind::OpenPar, TokenKind::ClosePar,
    ]);
    let mut p = Parser::new(&toks, FILE, known());
    match p.try_parse_static_call(&lhs, start).unwrap().data {
        AstExprDesc::StaticCall { method, args, .. } => {
            assert_eq!(method, Symbol { id: 2 });
            assert!(args.is_empty());
        }
        other => panic!("unexpected expression {:?}", other),
    }
    assert_eq!(p.position, 6);

    let toks = tokens(&[TokenKind::Lt, TokenKind::Gt, TokenKind::Access, ident(2), TokenKind::Semicolon]);
    let mut p = Parser::new(&toks, FILE, known());
    assert!(matches!(
        p.try_parse_qualified_cons(&lhs, start).unwrap().data,
        AstExprDesc::QualifiedPath { name: Symbol { id: 2 }, .. }
    ));
    assert_eq!(p.position, 4);
}

#[test]
fn modules_interfaces_and_templates() {
    let toks = tokens(&[TokenKind::Module, ident(1), TokenKind::OpenBra, TokenKind::CloseBra]);
    let mut p = Parser::new(&toks, FILE, known());
    let m = p.parse_module().unwrap();
    assert!(m.data.items.is_empty() && m.data.includes.is_empty());
    assert_eq!(p.position, 4);

    let toks = tokens(&[TokenKind::Type, ident(1), TokenKind::Semicolon]);
    let mut p = Parser::new(&toks, FILE, known());
    assert!(matches!(p.parse_interface_item().unwrap(), AstInterfaceItem::Type(_)));
    assert_eq!(p.position, 3);

    let toks = tokens(&[TokenKind::Lt, ident(1), TokenKind::Gt]);
    let mut p = Parser::new(&toks, FILE, known());
    assert_eq!(p.parse_optional_template_args().unwrap().len(), 1);
    assert_eq!(p.position, 3);

    let toks = tokens(&[TokenKind::Lt, TokenKind::Gt]);
    let mut p = Parser::new(&toks, FILE, known());
    assert!(p.parse_optional_template_args().unwrap().is_empty());
    assert_eq!(p.position, 2);
}

#[test]
fn qualified_path_after_its_type() {
    let span = Span { file: FILE, start_offset: 0, end_offset: 1 };
    let ty = Spanned::new(
        AstTypeExprDesc::Named { name: Spanned::new(Symbol { id: 1 }, span), args: Vec::new() },
        span,
    );
    let toks = tokens(&[ident(2), TokenKind::Semicolon]);
    let mut p = Parser::new(&toks, FILE, known());
    let e = p.finish_qualified_path(ty, Location { file: FILE, offset: 0 }).unwrap();
    assert!(matches!(e.data, AstExprDesc::QualifiedPath { name: Symbol { id: 2 }, .. }));
    assert_eq!(e.span, Span { file: FILE, start_offset: 0, end_offset: 1 });
    assert_eq!(p.position, 1);
}

#[test]
fn lists_of_several_elements() {
    let toks = tokens(&[TokenKind::IntLit(1), TokenKind::Comma, ident(2), TokenKind::Comma, TokenKind::IntLit(3), TokenKind::ClosePar]);
    let mut p = Parser::new(&toks, FILE, known());
    let args = p.parse_expr_args().unwrap();
    assert_eq!(args.len(), 3);
    assert!(matches!(args[1].data, AstExprDesc::Name(Symbol { id: 2 })));
    assert!(matches!(args[2].data, AstExprDesc::IntLit(3)));
    assert_eq!(p.position, 5);

    let toks = tokens(&[TokenKind::Lt, ident(1), TokenKind::Comma, ident(105), TokenKind::Gt]);
    let mut p = Parser::new(&toks, FILE, known());
    assert_eq!(p.parse_turbofish_args().unwrap().len(), 2);
    assert_eq!(p.position, 5);

    let toks = tokens(&[ident(1), TokenKind::Comma, TokenKind::IntLit(0), TokenKind::ClosePar]);
    let mut p = Parser::new(&toks, FILE, known());
    assert_eq!(p.parse_pattern_list(TokenKind::ClosePar).unwrap().len(), 2);
    assert_eq!(p.position, 3);

    let toks = tokens(&[ident(1), TokenKind::Comma, ident(2), TokenKind::Comma, ident(3), TokenKind::CloseBra]);
    let mut p = Parser::new(&toks, FILE, known());
    let vs = p.parse_enum_variants().unwrap();
    assert_eq!(vs.len(), 3);
    assert_eq!(vs[2].name, Symbol { id: 3 });
    assert_eq!(p.position, 5);

    let toks = tokens(&[
        ident(1), TokenKind::Colon, ident(2), TokenKind::Semicolon, ident(3), TokenKind::Colon, ident(4),
        TokenKind::CloseBra,
    ]);
    let mut p = Parser::new(&toks, FILE, known());
    let fs = p.parse_struct_def_fields().unwrap();
    assert_eq!(fs.len(), 2);
    assert_eq!(fs[1].name, Symbol { id: 3 });
    assert_eq!(p.position, 7);

    let toks = tokens(&[ident(1), TokenKind::Comma, ident(2), TokenKind::Gt]);
    let mut p = Parser::new(&toks, FILE, known());
    let ts = p.parse_template_args().unwrap();
    assert_eq!(ts.len(), 2);
    assert_eq!(ts[0].name, Symbol { id: 1 });
    assert_eq!(p.position, 3);

    let toks = tokens(&[
        TokenKind::Dot, ident(1), TokenKind::Colon, TokenKind::IntLit(7), TokenKind::Comma,
        TokenKind::Dot, ident(2), TokenKind::Colon, ident(9), TokenKind::CloseBra,
    ]);
    let mut p = Parser::new(&toks, FILE, known());
    let fs = p.parse_struct_fields().unwrap();
    assert_eq!(fs.len(), 2);
    assert_eq!(fs[1].name, Symbol { id: 2 });
    assert!(matches!(fs[1].value.data, AstExprDesc::Name(Symbol { id: 9 })));
    assert_eq!(p.position, 9);
}

#[test]
fn bodies_of_short_statements() {
    let toks = tokens(&[
        TokenKind::While, ident(1), TokenKind::OpenBra, TokenKind::Break, TokenKind::Semicolon, ident(2),
        TokenKind::Semicolon, TokenKind::OpenBra, TokenKind::CloseBra, TokenKind::CloseBra,
    ]);
    let mut p = Parser::new(&toks, FILE, known());
    match p.parse_while_stmt().unwrap().data {
        AstStmtDesc::While { body, .. } => {
            assert!(matches!(&body.data, AstStmtDesc::Block { stmts } if stmts.len() == 3));
        }
        other => panic!("unexpected statement {:?}", other),
    }
    assert_eq!(p.position, 10);

    let toks = tokens(&[
        TokenKind::Fun, ident(1), TokenKind::OpenPar, TokenKind::ClosePar, TokenKind::Colon, ident(2),
        TokenKind::OpenBra, TokenKind::Return, TokenKind::Semicolon, TokenKind::IntLit(4), TokenKind::Semicolon,
        TokenKind::CloseBra,
    ]);
    let mut p = Parser::new(&toks, FILE, known());
    let f = p.parse_fundef().unwrap();
    assert_eq!(f.data.body.len(), 2);
    assert!(matches!(f.data.body[1].data, AstStmtDesc::Expr(_)));
    assert_eq!(p.position, 12);
}

#[test]
fn bodies_of_simple_statements() {
    // { let x = 1; x += 2; return x; }
    let toks = tokens(&[
        TokenKind::OpenBra, TokenKind::Let, ident(1), TokenKind::Eq, TokenKind::IntLit(1), TokenKind::Semicolon,
        ident(1), TokenKind::PlusEq, TokenKind::IntLit(2), TokenKind::Semicolon, TokenKind::Return, ident(1),
        TokenKind::Semicolon, TokenKind::CloseBra,
    ]);
    let mut p = Parser::new(&toks, FILE, known());
    let stmts = p.parse_block().unwrap();
    assert_eq!(stmts.len(), 3);
    assert!(matches!(stmts[0].data, AstStmtDesc::LetDecl { .. }));
    assert!(matches!(stmts[1].data, AstStmtDesc::CompoundAssign { .. }));
    assert!(matches!(stmts[2].data, AstStmtDesc::Return { value: Some(_) }));
    assert_eq!(p.position, 14);
}

#[test]
fn constructor_patterns_and_calls_after_a_path() {
    let toks = tokens(&[ident(3), TokenKind::OpenPar, ident(1), TokenKind::Comma, TokenKind::IntLit(2), TokenKind::ClosePar]);
    let mut p = Parser::new(&toks, FILE, known());
    match p.parse_named_pattern().unwrap() {
        AstNamedPattern::Constructor { name, .. } => assert_eq!(name, Symbol { id: 3 }),
        other => panic!("unexpected pattern {:?}", other),
    }
    assert_eq!(p.position, 6);

    let toks = tokens(&[ident(3), TokenKind::Colon, ident(105), TokenKind::CloseBra]);
    let mut p = Parser::new(&toks, FILE, known());
    assert!(matches!(p.parse_struct_field_pattern().unwrap(), StructFieldPattern::Rebind { .. }));
    assert_eq!(p.position, 3);

    let span = Span { file: FILE, start_offset: 0, end_offset: 1 };
    let ty = Spanned::new(
        AstTypeExprDesc::Named { name: Spanned::new(Symbol { id: 1 }, span), args: Vec::new() },
        span,
    );
    let toks = tokens(&[ident(2), TokenKind::OpenPar, TokenKind::ClosePar]);
    let mut p = Parser::new(&toks, FILE, known());
    let e = p.finish_qualified_path(ty, Location { file: FILE, offset: 0 }).unwrap();
    assert!(matches!(e.data, AstExprDesc::StaticCall { method: Symbol { id: 2 }, .. }));
    assert_eq!(p.position, 3);
}

#[test]
fn static_call_with_arguments() {
    let lhs = Spanned::new(AstExprDesc::Name(Symbol { id: 1 }), Span { file: FILE, start_offset: 0, end_offset: 1 });
    let toks = tokens(&[
        TokenKind::Lt, TokenKind::Gt, TokenKind::Access, ident(2), TokenKind::OpenPar, TokenKind::IntLit(1),
        TokenKind::Comma, ident(3), TokenKind::ClosePar,
    ]);
    let mut p = Parser::new(&toks, FILE, known());
    match p.parse_static_call(&lhs, Location { file: FILE, offset: 0 }).unwrap().data {
        AstExprDesc::StaticCall { args, .. } => {
            assert_eq!(args.len(), 2);
            assert!(matches!(args[1].data, AstExprDesc::Name(Symbol { id: 3 })));
        }
        other => panic!("unexpected expression {:?}", other),
    }
    assert_eq!(p.position, 9);
}

#[test]
fn annotation_of_several_flags() {
    let toks = tokens(&[
        TokenKind::AddressOf, TokenKind::OpenSqr, ident(8), TokenKind::Comma, ident(9), TokenKind::CloseSqr,
    ]);
    let mut p = Parser::new(&toks, FILE, known());
    let a = p.parse_annotation().unwrap();
    assert_eq!(a.items.len(), 2);
    assert!(matches!(a.items[1], AstAnnotationItem::Flag(Symbol { id: 9 })));
    assert_eq!(p.position, 6);
}
