use rockr::common::{SourceFile, Span, Symbol};
use rockr::hir::Mutability;
use rockr::mir::basic_block::{MIRBasicBlock, MIRTerminator, Stmt};
use rockr::mir::concrete_ty::{ConcreteEnumRef, ConcreteStructRef, ConcreteTy};
use rockr::mir::display::{
    fmt_binop, fmt_constructor_args, fmt_operand, fmt_place, fmt_rvalue, fmt_terminator, MIRNames,
};
use rockr::mir::operand::{
    MIRCallee, MIRConstant, MIRConstructorArgs, MIROperand, MIRPlace, MIRProjection, MIRRValue,
    MIRRValueKind, UnaryOperator,
};
use rockr::mir::{BlockID, LocalID, MIRLocal, Mir};
use rockr::parse_tree::expr::BinaryOperator;
use rockr::ril::TypeRef;
use rockr::thir::FunctionRef;

fn span() -> Span {
    Span { file: SourceFile { id: 0 }, start_offset: 0, end_offset: 0 }
}

fn ty() -> ConcreteTy {
    ConcreteTy { id: 0 }
}

fn names() -> MIRNames {
    MIRNames {
        symbols: vec!["x".to_string(), "y".to_string()],
        types: vec!["i32".to_string(), "bool".to_string()],
        enums: vec!["Opt".to_string()],
        structs: vec!["P".to_string()],
        functions: vec!["f::<i32>".to_string()],
        local_types: vec!["i32".to_string(), "&i32".to_string()],
    }
}

fn place(l: usize, projections: Vec<MIRProjection>) -> MIRPlace {
    MIRPlace { local: LocalID(l), projections, ty: ty(), span: span() }
}

fn copy(l: usize) -> MIROperand {
    MIROperand::Copy(place(l, vec![]))
}

fn rvalue(kind: MIRRValueKind) -> MIRRValue {
    MIRRValue { kind, ty: ty(), span: span() }
}

fn rvalue_text(kind: MIRRValueKind) -> String {
    let mut w = String::new();
    fmt_rvalue(&mut w, &names(), &rvalue(kind));
    w
}

#[test]
fn binops_print_their_symbols() {
    assert_eq!(fmt_binop(&BinaryOperator::Plus), "+");
    assert_eq!(fmt_binop(&BinaryOperator::Diff), "!=");
    assert_eq!(fmt_binop(&BinaryOperator::Leq), "<=");
    assert_eq!(fmt_binop(&BinaryOperator::Or), "||");
    assert_eq!(fmt_binop(&BinaryOperator::BitXor), "^");
}

#[test]
fn places_print_their_projections() {
    let p = place(
        3,
        vec![
            MIRProjection::Deref,
            MIRProjection::Field { name: Symbol { id: 1 }, resulting_ty: ty() },
            MIRProjection::TupleField { index: 2, resulting_ty: ty() },
            MIRProjection::Index { index: MIROperand::Move(place(12, vec![])) },
            MIRProjection::Downcast { variant: 4 },
        ],
    );
    let mut w = String::new();
    fmt_place(&mut w, &names(), &p);
    assert_eq!(w, "_3.*.y.2[move _12].downcast#4");
}

#[test]
fn constants_print_value_and_type() {
    let mut w = String::new();
    let c = MIROperand::Constant(MIRConstant::Integer { value: 340, ty: ConcreteTy { id: 1 } }, span());
    fmt_operand(&mut w, &names(), &c);
    assert_eq!(w, "340_bool");
    let mut w = String::new();
    fmt_operand(&mut w, &names(), &MIROperand::Constant(MIRConstant::Bool(false), span()));
    assert_eq!(w, "false");
    let mut w = String::new();
    let s = MIRConstant::CString { contents: "hi".to_string(), null_terminated: true };
    fmt_operand(&mut w, &names(), &MIROperand::Constant(s, span()));
    assert_eq!(w, "c\"hi\"");
    let mut w = String::new();
    let s = MIRConstant::CString { contents: "hi".to_string(), null_terminated: false };
    fmt_operand(&mut w, &names(), &MIROperand::Constant(s, span()));
    assert_eq!(w, "\"hi\"");
}

#[test]
fn rvalues_print_each_form() {
    assert_eq!(rvalue_text(MIRRValueKind::Ref(place(1, vec![]), Mutability::Mutable)), "&mut _1");
    assert_eq!(rvalue_text(MIRRValueKind::Ref(place(1, vec![]), Mutability::Const)), "&_1");
    assert_eq!(
        rvalue_text(MIRRValueKind::AddressOf(place(1, vec![]), Mutability::Mutable)),
        "addr_of_mut _1"
    );
    assert_eq!(
        rvalue_text(MIRRValueKind::AddressOf(place(1, vec![]), Mutability::Const)),
        "addr_of _1"
    );
    assert_eq!(
        rvalue_text(MIRRValueKind::BinOp(BinaryOperator::Times, copy(0), copy(1))),
        "copy _0 * copy _1"
    );
    assert_eq!(rvalue_text(MIRRValueKind::UnaryOp(UnaryOperator::Neg, copy(2))), "-copy _2");
    assert_eq!(rvalue_text(MIRRValueKind::UnaryOp(UnaryOperator::LNot, copy(2))), "!copy _2");
    assert_eq!(rvalue_text(MIRRValueKind::Discriminant(place(5, vec![]))), "discriminant(_5)");
    assert_eq!(rvalue_text(MIRRValueKind::Metadata(copy(5))), "@metadata(copy _5)");
    assert_eq!(rvalue_text(MIRRValueKind::SizeOf(ConcreteTy { id: 1 })), "@sizeof(bool)");
    assert_eq!(rvalue_text(MIRRValueKind::Cast(copy(0), ConcreteTy { id: 0 })), "cast copy _0 as i32");
    assert_eq!(rvalue_text(MIRRValueKind::Tuple(vec![copy(0), copy(1)], span())), "(copy _0, copy _1)");
    assert_eq!(rvalue_text(MIRRValueKind::Tuple(vec![], span())), "()");
    assert_eq!(
        rvalue_text(MIRRValueKind::StructLit {
            struct_ref: ConcreteStructRef { id: 0 },
            fields: vec![(Symbol { id: 0 }, copy(1)), (Symbol { id: 1 }, copy(2))],
            span: span(),
        }),
        "P {x: copy _1, y: copy _2}"
    );
    assert_eq!(
        rvalue_text(MIRRValueKind::Constructor {
            enum_ref: ConcreteEnumRef { id: 0 },
            idx: 1,
            args: MIRConstructorArgs::Tuple(vec![copy(3)]),
            span: span(),
        }),
        "Opt::#1(copy _3)"
    );
    assert_eq!(
        rvalue_text(MIRRValueKind::Constructor {
            enum_ref: ConcreteEnumRef { id: 0 },
            idx: 0,
            args: MIRConstructorArgs::NoArgs,
            span: span(),
        }),
        "Opt::#0()"
    );
}

#[test]
fn struct_constructor_args_name_their_fields() {
    let mut w = String::new();
    let args = MIRConstructorArgs::Struct(vec![(Symbol { id: 1 }, copy(4))]);
    fmt_constructor_args(&mut w, &names(), &args);
    assert_eq!(w, "y: copy _4");
}

#[test]
fn names_outside_the_tables_print_as_nothing() {
    assert_eq!(rvalue_text(MIRRValueKind::SizeOf(ConcreteTy { id: 9 })), "@sizeof()");
}

#[test]
fn terminators_print_their_targets() {
    let term = |t: MIRTerminator| {
        let mut w = String::new();
        fmt_terminator(&mut w, &names(), &t);
        w
    };
    assert_eq!(term(MIRTerminator::Diverge), "diverge");
    assert_eq!(term(MIRTerminator::Goto { next: BlockID(12) }), "goto bb12");
    assert_eq!(term(MIRTerminator::Return { value: None, span: span() }), "return");
    assert_eq!(term(MIRTerminator::Return { value: Some(copy(0)), span: span() }), "return copy _0");
    assert_eq!(
        term(MIRTerminator::Branch { cond: copy(1), then: BlockID(2), else_: BlockID(3), span: span() }),
        "branch copy _1 ? bb2 : bb3"
    );
    assert_eq!(
        term(MIRTerminator::Switch {
            discriminant: copy(1),
            branches: vec![(0, BlockID(0)), (7, BlockID(1))],
            default: BlockID(2),
            span: span(),
        }),
        "switch copy _1 { 0 => bb0, 7 => bb1, _ => bb2 }"
    );
    assert_eq!(
        term(MIRTerminator::Call {
            callee: MIRCallee::Direct(FunctionRef { id: 0 }),
            arguments: vec![MIROperand::Move(place(1, vec![])), copy(2)],
            dest: LocalID(0),
            next: BlockID(1),
            span: span(),
        }),
        "_0 = call f::<i32>(move _1, copy _2) -> bb1"
    );
}

#[test]
fn whole_body_prints_locals_params_entry_and_blocks() {
    let mir = Mir {
        blocks: vec![
            MIRBasicBlock {
                stmts: vec![Stmt::Assign {
                    dest: place(1, vec![]),
                    rvalue: rvalue(MIRRValueKind::Use(MIROperand::Copy(place(
                        0,
                        vec![MIRProjection::Deref],
                    )))),
                }],
                terminator: MIRTerminator::Call {
                    callee: MIRCallee::Direct(FunctionRef { id: 0 }),
                    arguments: vec![
                        MIROperand::Move(place(1, vec![])),
                        MIROperand::Constant(MIRConstant::Integer { value: 42, ty: ty() }, span()),
                    ],
                    dest: LocalID(0),
                    next: BlockID(1),
                    span: span(),
                },
                name: Some("start".to_string()),
            },
            MIRBasicBlock {
                stmts: vec![Stmt::Assign {
                    dest: place(0, vec![]),
                    rvalue: rvalue(MIRRValueKind::BinOp(
                        BinaryOperator::Plus,
                        copy(0),
                        MIROperand::Constant(MIRConstant::Bool(true), span()),
                    )),
                }],
                terminator: MIRTerminator::Switch {
                    discriminant: copy(1),
                    branches: vec![(0, BlockID(0)), (7, BlockID(1))],
                    default: BlockID(1),
                    span: span(),
                },
                name: None,
            },
        ],
        locals: vec![
            MIRLocal {
                ty: TypeRef::Zelf,
                mutability: Mutability::Mutable,
                span: span(),
                name: Some(Symbol { id: 0 }),
                thir_src: None,
                syn_src: None,
            },
            MIRLocal {
                ty: TypeRef::Zelf,
                mutability: Mutability::Const,
                span: span(),
                name: None,
                thir_src: None,
                syn_src: None,
            },
        ],
        parameters: vec![LocalID(0)],
        entry: BlockID(0),
    };
    let expected = "mir {\n  locals:\n    _0: mut x :i32\n    _1: &i32\n\n  params: [\n    _0,\n  ]\n\n  entry: bb0\n\n  bb0 (start):\n    _1 = copy _0.*\n    _0 = call f::<i32>(move _1, 42_i32) -> bb1\n\n  bb1:\n    _0 = copy _0 + true\n    switch copy _1 { 0 => bb0, 7 => bb1, _ => bb1 }\n}";
    assert_eq!(mir.display(&names()), expected);
}

#[test]
fn switch_values_must_increase() {
    let sw = |branches: Vec<(u128, BlockID)>| MIRTerminator::Switch {
        discriminant: copy(1),
        branches,
        default: BlockID(2),
        span: span(),
    };
    assert!(sw(vec![]).is_wf());
    assert!(sw(vec![(0, BlockID(0)), (7, BlockID(1))]).is_wf());
    assert!(!sw(vec![(7, BlockID(0)), (0, BlockID(1))]).is_wf());
    assert!(!sw(vec![(3, BlockID(0)), (3, BlockID(1))]).is_wf());
    assert!(MIRTerminator::Diverge.is_wf());
}
