use rockr::common::{SourceFile, Span};
use rockr::hir::Mutability;
use rockr::mir::basic_block::{MIRBasicBlock, MIRTerminator, Stmt};
use rockr::mir::concrete_ty::ConcreteTy;
use rockr::mir::display::MIRNames;
use rockr::mir::graphviz::{push_dot_escape, push_dot_escape_label};
use rockr::mir::operand::{MIROperand, MIRPlace, MIRRValue, MIRRValueKind};
use rockr::mir::{BlockID, LocalID, MIRLocal, Mir};
use rockr::ril::TypeRef;

fn span() -> Span {
    Span { file: SourceFile { id: 0 }, start_offset: 0, end_offset: 0 }
}

fn ty() -> ConcreteTy {
    ConcreteTy { id: 0 }
}

fn names() -> MIRNames {
    MIRNames {
        symbols: vec![],
        types: vec![],
        enums: vec![],
        structs: vec![],
        functions: vec![],
        local_types: vec![],
    }
}

fn copy(l: usize) -> MIROperand {
    MIROperand::Copy(MIRPlace { local: LocalID(l), projections: vec![], ty: ty(), span: span() })
}

fn local() -> MIRLocal {
    MIRLocal::new(TypeRef::Zelf, Mutability::Const, span())
}

#[test]
fn graph_names_lose_dashes_colons_and_spaces() {
    let mut w = String::new();
    push_dot_escape(&mut w, "a-b:c d_e");
    assert_eq!(w, "a_b_c_d_e");
}

#[test]
fn labels_escape_record_characters() {
    let mut w = String::from("x");
    push_dot_escape_label(&mut w, "{a|b} <\"c\\\">");
    assert_eq!(w, "x\\{a\\|b\\} \\<\\\"c\\\\\\\"\\>");
}

#[test]
fn dot_draws_nodes_and_edges() {
    let mir = Mir {
        blocks: vec![
            MIRBasicBlock {
                stmts: vec![Stmt::Assign {
                    dest: MIRPlace { local: LocalID(1), projections: vec![], ty: ty(), span: span() },
                    rvalue: MIRRValue { kind: MIRRValueKind::Use(copy(0)), ty: ty(), span: span() },
                }],
                terminator: MIRTerminator::Branch { cond: copy(1), then: BlockID(1), else_: BlockID(2), span: span() },
                name: Some("start".to_string()),
            },
            MIRBasicBlock {
                stmts: vec![],
                terminator: MIRTerminator::Return { value: None, span: span() },
                name: None,
            },
            MIRBasicBlock {
                stmts: vec![],
                terminator: MIRTerminator::Switch {
                    discriminant: copy(1),
                    branches: vec![(0, BlockID(0)), (7, BlockID(1))],
                    default: BlockID(1),
                    span: span(),
                },
                name: None,
            },
        ],
        locals: vec![local(), local()],
        parameters: vec![LocalID(0)],
        entry: BlockID(0),
    };
    let expected = [
        "digraph my_fn_x {\n",
        "  node [shape=record fontname=\"Courier New\" fontsize=10]\n",
        "  edge [fontname=\"Courier New\" fontsize=9]\n\n",
        "  bb0 [label=\"{bb0 (start)|_1 = copy _0\\l---\\lbranch copy _1 ? bb1 : bb2\\l}\" style=filled fillcolor=lightblue]\n",
        "  bb0 -> bb1 [label=\"true\"]\n",
        "  bb0 -> bb2 [label=\"false\"]\n",
        "  bb1 [label=\"{bb1|---\\lreturn\\l}\"]\n",
        "  bb2 [label=\"{bb2|---\\lswitch copy _1 \\{ 0 =\\> bb0, 7 =\\> bb1, _ =\\> bb1 \\}\\l}\"]\n",
        "  bb2 -> bb0 [label=\"0\"]\n",
        "  bb2 -> bb1 [label=\"7\"]\n",
        "  bb2 -> bb1 [label=\"_\"]\n",
        "}",
    ]
    .concat();
    assert_eq!(mir.dot(&names(), "my-fn:x"), expected);
}
