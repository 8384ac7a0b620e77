use rockr::common::bitset::BitSet;
use rockr::common::{SourceFile, Span};
use rockr::hir::Mutability;
use rockr::mir::analysis::liveness::MIRLivenessAnalysis;
use rockr::mir::analysis::loans::{by_holder, MIRLoanAnalysis};
use rockr::mir::basic_block::{MIRBasicBlock, MIRTerminator, Stmt};
use rockr::mir::concrete_ty::ConcreteTy;
use rockr::mir::display::MIRNames;
use rockr::mir::operand::{MIROperand, MIRPlace, MIRRValue, MIRRValueKind};
use rockr::mir::points::MIRStmtIndex;
use rockr::mir::{BlockID, LocalID, MIRLocal, Mir};
use rockr::ril::TypeRef;

fn span() -> Span {
    Span { file: SourceFile { id: 0 }, start_offset: 0, end_offset: 0 }
}

fn ty() -> ConcreteTy {
    ConcreteTy { id: 0 }
}

fn place(l: usize) -> MIRPlace {
    MIRPlace { local: LocalID(l), projections: vec![], ty: ty(), span: span() }
}

fn local() -> MIRLocal {
    MIRLocal::new(TypeRef::Zelf, Mutability::Const, span())
}

fn assign(dest: usize, kind: MIRRValueKind) -> Stmt {
    Stmt::Assign { dest: place(dest), rvalue: MIRRValue { kind, ty: ty(), span: span() } }
}

fn names() -> MIRNames {
    MIRNames {
        symbols: vec![],
        types: vec![],
        enums: vec![],
        structs: vec![],
        functions: vec![],
        local_types: vec![],
    }
}

fn members(s: &BitSet) -> Vec<usize> {
    (0..s.len()).filter(|&i| s.contains(i)).collect()
}

// bb0: `_1 = &_0; _2 = &mut _0; goto bb1`; bb1: `_3 = copy _1; return`.
fn borrow_mir() -> Mir {
    Mir {
        blocks: vec![
            MIRBasicBlock {
                stmts: vec![
                    assign(1, MIRRValueKind::Ref(place(0), Mutability::Const)),
                    assign(2, MIRRValueKind::Ref(place(0), Mutability::Mutable)),
                ],
                terminator: MIRTerminator::Goto { next: BlockID(1) },
                name: None,
            },
            MIRBasicBlock {
                stmts: vec![assign(3, MIRRValueKind::Use(MIROperand::Copy(place(1))))],
                terminator: MIRTerminator::Return { value: None, span: span() },
                name: None,
            },
        ],
        locals: vec![local(), local(), local(), local()],
        parameters: vec![LocalID(0)],
        entry: BlockID(0),
    }
}

#[test]
fn liveness_follows_uses_backward() {
    let mir = borrow_mir();
    let live = MIRLivenessAnalysis.run(&mir);
    assert_eq!(members(&live.live_in[0]), vec![0]);
    assert_eq!(members(&live.live_out[0]), vec![1]);
    assert_eq!(members(&live.live_in[1]), vec![1]);
    assert_eq!(members(&live.live_out[1]), Vec::<usize>::new());
}

#[test]
fn liveness_display_lists_each_block() {
    let mir = borrow_mir();
    let live = MIRLivenessAnalysis.run(&mir);
    assert_eq!(
        live.display(),
        "live-in:\n    bb0: {_0}\n    bb1: {_1}\nlive-out:\n    bb0: {_1}\n    bb1: {}\n"
    );
}

#[test]
fn liveness_keeps_a_local_live_around_a_loop() {
    // bb0: `goto bb1`; bb1: `_1 = copy _0; goto bb0`.
    let mir = Mir {
        blocks: vec![
            MIRBasicBlock { stmts: vec![], terminator: MIRTerminator::Goto { next: BlockID(1) }, name: None },
            MIRBasicBlock {
                stmts: vec![assign(1, MIRRValueKind::Use(MIROperand::Copy(place(0))))],
                terminator: MIRTerminator::Goto { next: BlockID(0) },
                name: None,
            },
        ],
        locals: vec![local(), local()],
        parameters: vec![LocalID(0)],
        entry: BlockID(0),
    };
    let live = MIRLivenessAnalysis.run(&mir);
    assert_eq!(members(&live.live_in[0]), vec![0]);
    assert_eq!(members(&live.live_out[0]), vec![0]);
    assert_eq!(members(&live.live_in[1]), vec![0]);
    assert_eq!(members(&live.live_out[1]), vec![0]);
}

#[test]
fn loans_are_collected_in_point_order() {
    let mir = borrow_mir();
    let loans = MIRLoanAnalysis::collect_loans(&mir);
    assert_eq!(loans.len(), 2);
    assert_eq!(loans[0].created_at, MIRStmtIndex(BlockID(0), 0));
    assert_eq!(loans[0].holder, LocalID(1));
    assert_eq!(loans[0].mutability, Mutability::Const);
    assert_eq!(loans[0].place.local, LocalID(0));
    assert_eq!(loans[1].created_at, MIRStmtIndex(BlockID(0), 1));
    assert_eq!(loans[1].holder, LocalID(2));
    assert_eq!(loans[1].mutability, Mutability::Mutable);
}

#[test]
fn address_of_makes_a_loan_too() {
    let mut mir = borrow_mir();
    mir.blocks[1].stmts.push(assign(2, MIRRValueKind::AddressOf(place(3), Mutability::Mutable)));
    let loans = MIRLoanAnalysis::collect_loans(&mir);
    assert_eq!(loans.len(), 3);
    assert_eq!(loans[2].created_at, MIRStmtIndex(BlockID(1), 1));
    assert_eq!(loans[2].place.local, LocalID(3));
}

#[test]
fn loans_grouped_by_holder() {
    let mut mir = borrow_mir();
    mir.blocks[1].stmts.push(assign(1, MIRRValueKind::Ref(place(3), Mutability::Const)));
    let loans = MIRLoanAnalysis::collect_loans(&mir);
    let groups = by_holder(&loans, 4);
    assert_eq!(groups, vec![vec![], vec![0, 2], vec![1], vec![]]);
}

#[test]
fn loans_live_where_their_holder_is() {
    let mir = borrow_mir();
    let out = MIRLoanAnalysis.run(&mir);
    assert_eq!(out.indices, vec![(MIRStmtIndex(BlockID(0), 0), 0), (MIRStmtIndex(BlockID(0), 1), 1)]);
    assert_eq!(members(&out.loans_live_in[0]), Vec::<usize>::new());
    assert_eq!(members(&out.loans_live_in[1]), vec![0]);
    assert_eq!(members(&out.loans_live_out[0]), vec![0]);
    assert_eq!(members(&out.loans_live_out[1]), Vec::<usize>::new());
}

#[test]
fn project_liveness_skips_locals_without_loans() {
    let mut live = BitSet::new(3);
    live.insert(0);
    live.insert(2);
    let groups = vec![vec![1], vec![0]];
    let r = MIRLoanAnalysis::project_liveness(&vec![live], &groups, 2);
    assert_eq!(members(&r[0]), vec![1]);
}

#[test]
fn loan_display_lists_loans_and_liveness() {
    let mir = borrow_mir();
    let out = MIRLoanAnalysis.run(&mir);
    assert_eq!(
        out.display(&names()),
        "loans:\n    L0: & _0 = 0_0..0 (holder: _1)\n    L1: &mut  _0 = 0_0..1 (holder: _2)\n\
         loans-live-in:\n    bb0: {}\n    bb1: {L0}\n\
         loans-live-out:\n    bb0: {L0}\n    bb1: {}\n"
    );
}
