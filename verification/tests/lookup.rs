use rockr::common::{Location, SourceFile, Span, Symbol};
use rockr::lookup::owner::{owner_steps_in, OwnerStep};
use rockr::lookup::path::{expr_path_candidates, PathTarget};
use rockr::parse_tree::top_level::{Annotated, AstModuleDesc, AstTopLevelItemDesc};
use rockr::parser::{ParseError, ParseErrorKind};
use rockr::lookup::ty::{expr_type_slots, TypeSlot};
use rockr::parse_tree::Spanned;
use rockr::parse_tree::expr::{AstExpr, AstExprDesc};
use rockr::parse_tree::type_expr::{AstTypeExpr, AstTypeExprDesc};

const FILE: SourceFile = SourceFile { id: 0 };

fn span(a: usize, b: usize) -> Span {
    Span { file: FILE, start_offset: a, end_offset: b }
}

fn named(id: u32, a: usize, b: usize) -> AstTypeExpr {
    Spanned::new(AstTypeExprDesc::Named { name: Spanned::new(Symbol { id }, span(a, b)), args: Vec::new() }, span(a, b))
}

fn name(id: u32, a: usize, b: usize) -> AstExpr {
    Spanned::new(AstExprDesc::Name(Symbol { id }), span(a, b))
}

fn slot_name(s: &TypeSlot) -> Option<u32> {
    match s {
        TypeSlot::Known(t) => match &t.data {
            AstTypeExprDesc::Named { name, .. } => Some(name.data.id),
            _ => None,
        },
        TypeSlot::Any(_) => None,
    }
}

#[test]
fn types_met_on_the_way_down_in_order() {
    // (@sizeof(A) + x) as B, spanning 0..20
    let sum = Spanned::new(
        AstExprDesc::BinOp {
            lhs: Box::new(Spanned::new(AstExprDesc::SizeOf(named(1, 8, 9)), span(1, 10))),
            op: rockr::parse_tree::expr::BinaryOperator::Plus,
            rhs: Box::new(name(7, 13, 14)),
        },
        span(1, 14),
    );
    let e = Spanned::new(AstExprDesc::As { expr: Box::new(sum), ty: named(2, 19, 20) }, span(0, 20));
    let mut out = Vec::new();
    expr_type_slots(&e, Location { file: FILE, offset: 9 }, &mut out);
    let names: Vec<Option<u32>> = out.iter().map(slot_name).collect();
    assert_eq!(names, vec![Some(1), Some(2)]);

    // A location outside the sizeof only meets the cast's type.
    let mut out = Vec::new();
    expr_type_slots(&e, Location { file: FILE, offset: 13 }, &mut out);
    let names: Vec<Option<u32>> = out.iter().map(slot_name).collect();
    assert_eq!(names, vec![Some(2)]);

    // Nothing outside the expression.
    let mut out = Vec::new();
    expr_type_slots(&e, Location { file: FILE, offset: 30 }, &mut out);
    assert!(out.is_empty());
}

#[test]
fn places_of_a_path_in_order() {
    // a::b::c + @sizeof(T), spanning 0..30; `a` 0..1, `b` 3..4, `c` 6..7
    let c = name(3, 6, 7);
    let bc = Spanned::new(
        AstExprDesc::NameResolved { from: Spanned::new(Symbol { id: 2 }, span(3, 4)), to: Box::new(c) },
        span(3, 7),
    );
    let abc = Spanned::new(
        AstExprDesc::NameResolved { from: Spanned::new(Symbol { id: 1 }, span(0, 1)), to: Box::new(bc) },
        span(0, 7),
    );
    let size = Spanned::new(AstExprDesc::SizeOf(named(9, 18, 19)), span(10, 20));
    let e = Spanned::new(
        AstExprDesc::BinOp { lhs: Box::new(abc), op: rockr::parse_tree::expr::BinaryOperator::Plus, rhs: Box::new(size) },
        span(0, 30),
    );

    // On `b`: go through `a`, then `b` is the answer.
    let mut out = Vec::new();
    expr_path_candidates(&e, Location { file: FILE, offset: 3 }, &Vec::new(), &mut out);
    assert_eq!(out.len(), 1);
    assert_eq!(out[0].modules.iter().map(|m| m.0.id).collect::<Vec<_>>(), vec![1]);
    assert!(matches!(out[0].target, PathTarget::Name(Symbol { id: 2 }, _)));

    // On `c`, a bare name at the end of the path: nothing to look up there.
    let mut out = Vec::new();
    expr_path_candidates(&e, Location { file: FILE, offset: 6 }, &Vec::new(), &mut out);
    assert!(out.is_empty());

    // In the sizeof: its type, in the module enclosing the location.
    let mut out = Vec::new();
    expr_path_candidates(&e, Location { file: FILE, offset: 18 }, &Vec::new(), &mut out);
    assert_eq!(out.len(), 1);
    assert!(out[0].modules.is_empty());
    match &out[0].target {
        PathTarget::Type(t) => assert!(matches!(&t.data, AstTypeExprDesc::Named { name, .. } if name.data.id == 9)),
        _ => panic!("expected a type"),
    }
}

#[test]
fn owner_search_steps_in_order() {
    let module = Annotated::new(
        AstModuleDesc { name: Spanned::new(Symbol { id: 1 }, span(17, 18)), items: Vec::new(), includes: Vec::new() },
        Vec::new(),
        span(10, 30),
    );
    let err = ParseError { kind: ParseErrorKind::NotATopLevelItem, file: FILE, start: 0, end: 1 };
    let items = vec![
        Annotated::new(AstTopLevelItemDesc::Module(module), Vec::new(), span(10, 30)),
        Annotated::new(AstTopLevelItemDesc::Error(err), Vec::new(), span(0, 40)),
    ];
    // Inside the module: look in it first, then the outer module owns it.
    assert_eq!(owner_steps_in(&items, Location { file: FILE, offset: 15 }), vec![OwnerStep::Nested(0), OwnerStep::Module]);
    assert_eq!(owner_steps_in(&items, Location { file: FILE, offset: 35 }), vec![OwnerStep::Module]);
    assert!(owner_steps_in(&items, Location { file: FILE, offset: 50 }).is_empty());
}
