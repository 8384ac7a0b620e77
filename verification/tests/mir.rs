use rockr::common::{SourceFile, Span};
use rockr::hir::Mutability;
use rockr::mir::analysis::lattice::{Direction, Flat};
use rockr::mir::basic_block::{MIRBasicBlock, MIRTerminator, Stmt};
use rockr::mir::builder::MIRBuilder;
use rockr::mir::concrete_ty::ConcreteTy;
use rockr::mir::operand::{MIROperand, MIRPlace, MIRRValue, MIRRValueKind};
use rockr::mir::passes::dead_code_elimination::{DCECtx, DeadCodeElimination};
use rockr::mir::passes::MIRPass;
use rockr::mir::points::MIRStmtIndex;
use rockr::mir::{BlockID, LocalID, MIRLocal, Mir};
use rockr::ril::TypeRef;

fn span() -> Span {
    Span { file: SourceFile { id: 0 }, start_offset: 0, end_offset: 0 }
}

fn local() -> MIRLocal {
    MIRLocal {
        ty: TypeRef::Zelf,
        mutability: Mutability::Const,
        span: span(),
        name: None,
        thir_src: None,
        syn_src: None,
    }
}

fn place(l: usize) -> MIRPlace {
    MIRPlace { local: LocalID(l), projections: vec![], ty: ConcreteTy { id: 0 }, span: span() }
}

// `dest = copy src`
fn copy_stmt(dest: usize, src: usize) -> Stmt {
    Stmt::Assign {
        dest: place(dest),
        rvalue: MIRRValue {
            kind: MIRRValueKind::Use(MIROperand::Copy(place(src))),
            ty: ConcreteTy { id: 0 },
            span: span(),
        },
    }
}

fn block(name: Option<&str>, stmts: Vec<Stmt>, terminator: MIRTerminator) -> MIRBasicBlock {
    MIRBasicBlock { stmts, terminator, name: name.map(|n| n.to_string()) }
}

fn goto(b: usize) -> MIRTerminator {
    MIRTerminator::Goto { next: BlockID(b) }
}

fn ret() -> MIRTerminator {
    MIRTerminator::Return { value: None, span: span() }
}

fn branch(cond: usize, then: usize, else_: usize) -> MIRTerminator {
    MIRTerminator::Branch {
        cond: MIROperand::Copy(place(cond)),
        then: BlockID(then),
        else_: BlockID(else_),
        span: span(),
    }
}

// entry -> body -> 2 (return); block 3 jumps to 2 but is never reached.
fn chain_mir() -> Mir {
    Mir {
        blocks: vec![
            block(Some("entry"), vec![copy_stmt(0, 1)], goto(1)),
            block(Some("body"), vec![copy_stmt(2, 0)], goto(2)),
            block(None, vec![], ret()),
            block(Some("dead"), vec![copy_stmt(3, 3)], goto(2)),
        ],
        locals: vec![local(), local(), local(), local()],
        parameters: vec![LocalID(1)],
        entry: BlockID(0),
    }
}

// 0 branches to 1 and 2, which both go to 3.
fn diamond_mir() -> Mir {
    Mir {
        blocks: vec![
            block(Some("start"), vec![], branch(0, 1, 2)),
            block(Some("left"), vec![copy_stmt(1, 0)], goto(3)),
            block(Some("right"), vec![], goto(3)),
            block(None, vec![], ret()),
        ],
        locals: vec![local(), local()],
        parameters: vec![LocalID(0)],
        entry: BlockID(0),
    }
}

fn copy_parts(s: &Stmt) -> (usize, usize) {
    match s {
        Stmt::Assign { dest, rvalue } => match &rvalue.kind {
            MIRRValueKind::Use(MIROperand::Copy(p)) => (dest.local.0, p.local.0),
            _ => panic!("not a copy"),
        },
    }
}

#[test]
fn successors_list_each_target_once() {
    let mir = diamond_mir();
    let succs = mir.successors();
    assert_eq!(succs.len(), 4);
    let mut s0 = succs[0].clone();
    s0.sort();
    assert_eq!(s0, vec![1, 2]);
    assert_eq!(succs[1], vec![3]);
    assert_eq!(succs[2], vec![3]);
    assert!(succs[3].is_empty());
}

#[test]
fn predecessors_mirror_successors() {
    let mir = diamond_mir();
    let preds = mir.predecessors();
    assert!(preds[0].is_empty());
    assert_eq!(preds[1], vec![0]);
    assert_eq!(preds[2], vec![0]);
    let mut p3 = preds[3].clone();
    p3.sort();
    assert_eq!(p3, vec![1, 2]);
}

#[test]
fn reachable_blocks_skip_dead_ones() {
    let mir = chain_mir();
    let r = mir.compute_reachable(BlockID(0));
    assert!(r.contains(0));
    assert!(r.contains(1));
    assert!(r.contains(2));
    assert!(!r.contains(3));
    let from_dead = mir.compute_reachable(BlockID(3));
    assert!(from_dead.contains(3));
    assert!(from_dead.contains(2));
    assert!(!from_dead.contains(0));
}

#[test]
fn fixed_point_on_body_reaches_join() {
    let mir = diamond_mir();
    let res = mir.fixed_point_iter(
        Direction::Forward,
        |b: usize, l: &Flat<u64>| match b {
            1 => Flat::Value(1),
            2 => Flat::Value(1),
            _ => *l,
        },
        None,
        None,
    );
    assert!(matches!(res.block_in[3], Flat::Value(1)));
    assert!(matches!(res.block_in[0], Flat::Bottom));
}

#[test]
fn fixed_point_on_body_backward() {
    let mir = diamond_mir();
    let res = mir.fixed_point_iter(
        Direction::Backward,
        |b: usize, l: &Flat<u64>| if b == 3 { Flat::Value(7) } else { *l },
        None,
        None,
    );
    assert!(matches!(res.block_out[1], Flat::Value(7)));
    assert!(matches!(res.block_out[0], Flat::Value(7)));
}

#[test]
fn builder_refuses_second_terminator() {
    let mut b = MIRBuilder::new(Some("entry".to_string()));
    let l = b.new_local(local());
    assert_eq!(l, LocalID(0));
    b.emit(copy_stmt(0, 0));
    assert!(b.terminate(ret()).is_some());
    assert!(b.terminate(ret()).is_none());
    assert!(b.is_terminated(BlockID(0)));
    let nb = b.new_block(None);
    assert_eq!(nb, BlockID(1));
    assert!(b.switch_to_block(BlockID(0)).is_none());
    assert!(b.switch_to_block(nb).is_some());
    assert_eq!(b.current_block(), nb);
    assert!(b.set_parameters(vec![l]).is_some());
    assert!(b.set_parameters(vec![]).is_none());
}

#[test]
fn builder_finalize_needs_every_block_terminated() {
    let mut b = MIRBuilder::new(None);
    assert!(b.set_parameters(vec![]).is_some());
    let nb = b.new_block(None);
    b.terminate(goto(1));
    let unfinished = b.finalize();
    assert!(unfinished.is_none());

    let mut b = MIRBuilder::new(None);
    assert!(b.set_parameters(vec![]).is_some());
    let nb2 = b.new_block(None);
    assert_eq!(nb, nb2);
    b.terminate(goto(1));
    b.switch_to_block(nb2);
    b.terminate(ret());
    let mir = b.finalize().expect("every block is terminated");
    assert_eq!(mir.blocks.len(), 2);
    assert_eq!(mir.entry, BlockID(0));
}

#[test]
fn dce_merges_chain_and_drops_dead_block() {
    let mir = chain_mir();
    let out = DeadCodeElimination.run(&mir);
    assert_eq!(out.blocks.len(), 1);
    assert_eq!(out.entry, BlockID(0));
    let b = &out.blocks[0];
    assert_eq!(b.name.as_deref(), Some("merged-entry-body"));
    assert_eq!(b.stmts.len(), 2);
    // The parameter is renamed first, then the locals in the order met.
    assert_eq!(out.parameters, vec![LocalID(0)]);
    assert_eq!(copy_parts(&b.stmts[0]), (1, 0));
    assert_eq!(copy_parts(&b.stmts[1]), (2, 1));
    assert_eq!(out.locals.len(), 3);
    assert!(matches!(b.terminator, MIRTerminator::Return { value: None, .. }));
}

#[test]
fn dce_keeps_blocks_with_several_predecessors() {
    let mir = diamond_mir();
    let out = DCECtx::new(&mir).run();
    assert_eq!(out.blocks.len(), 4);
    let names: Vec<Option<&str>> = out.blocks.iter().map(|b| b.name.as_deref()).collect();
    assert_eq!(names, vec![Some("start"), Some("left"), Some("right"), None]);
    assert!(matches!(
        out.blocks[0].terminator,
        MIRTerminator::Branch { then: BlockID(1), else_: BlockID(2), .. }
    ));
    assert!(matches!(out.blocks[1].terminator, MIRTerminator::Goto { next: BlockID(3) }));
    assert!(matches!(out.blocks[2].terminator, MIRTerminator::Goto { next: BlockID(3) }));
    assert_eq!(out.locals.len(), 2);
}

#[test]
fn dce_single_name_is_kept_and_unnamed_stays_unnamed() {
    // entry (named) -> 1 (unnamed): the merged block keeps the one name.
    let mir = Mir {
        blocks: vec![block(Some("only"), vec![], goto(1)), block(None, vec![], ret())],
        locals: vec![],
        parameters: vec![],
        entry: BlockID(0),
    };
    let out = DeadCodeElimination.run(&mir);
    assert_eq!(out.blocks.len(), 1);
    assert_eq!(out.blocks[0].name.as_deref(), Some("only"));
    let mir = Mir {
        blocks: vec![block(None, vec![], goto(1)), block(None, vec![], ret())],
        locals: vec![],
        parameters: vec![],
        entry: BlockID(0),
    };
    let out = DeadCodeElimination.run(&mir);
    assert_eq!(out.blocks.len(), 1);
    assert_eq!(out.blocks[0].name, None);
}

#[test]
fn dce_remaps_jumps_to_later_entry() {
    // The entry is block 2: new block 0 is its path, the others follow.
    let mir = Mir {
        blocks: vec![
            block(Some("a"), vec![], ret()),
            block(Some("b"), vec![], ret()),
            block(Some("e"), vec![], branch(0, 0, 1)),
        ],
        locals: vec![local()],
        parameters: vec![],
        entry: BlockID(2),
    };
    let out = DeadCodeElimination.run(&mir);
    assert_eq!(out.blocks.len(), 3);
    assert_eq!(out.blocks[0].name.as_deref(), Some("e"));
    assert_eq!(out.blocks[1].name.as_deref(), Some("a"));
    assert_eq!(out.blocks[2].name.as_deref(), Some("b"));
    assert!(matches!(
        out.blocks[0].terminator,
        MIRTerminator::Branch { then: BlockID(1), else_: BlockID(2), .. }
    ));
}

// Two statements then a jump, then a block that returns.
fn points_mir() -> Mir {
    Mir {
        blocks: vec![
            block(Some("a"), vec![copy_stmt(0, 1), copy_stmt(1, 0)], goto(1)),
            block(None, vec![], ret()),
        ],
        locals: vec![local(), local()],
        parameters: vec![],
        entry: BlockID(0),
    }
}

#[test]
fn points_list_each_statement_and_terminator() {
    let mir = points_mir();
    let pts = mir.stmt_index_iter();
    assert_eq!(
        pts,
        vec![
            MIRStmtIndex(BlockID(0), 0),
            MIRStmtIndex(BlockID(0), 1),
            MIRStmtIndex(BlockID(0), 2),
            MIRStmtIndex(BlockID(1), 0),
        ]
    );
}

#[test]
fn point_successors_follow_statements_and_jumps() {
    let mir = points_mir();
    let succs = mir.stmt_successors();
    assert_eq!(succs.len(), 4);
    assert_eq!(succs[0], vec![1]);
    // The last statement of a block is followed by no point.
    assert!(succs[1].is_empty());
    // The terminator is followed by the first point of the block it jumps to.
    assert_eq!(succs[2], vec![3]);
    assert!(succs[3].is_empty());
    let preds = mir.stmt_predecessors(&succs);
    assert!(preds[0].is_empty());
    assert_eq!(preds[1], vec![0]);
    assert!(preds[2].is_empty());
    assert_eq!(preds[3], vec![2]);
}

#[test]
fn fixed_point_over_points_carries_facts_along() {
    let mir = points_mir();
    let res = mir.fixed_point_iter_stmt(
        Direction::Forward,
        |p: MIRStmtIndex, l: &Flat<u64>| {
            if p == MIRStmtIndex(BlockID(0), 0) || p == MIRStmtIndex(BlockID(0), 2) {
                Flat::Value(3)
            } else {
                *l
            }
        },
        None,
        None,
    );
    assert!(matches!(res.block_in[1], Flat::Value(3)));
    assert!(matches!(res.block_out[1], Flat::Value(3)));
    assert!(matches!(res.block_in[2], Flat::Bottom));
    assert!(matches!(res.block_in[3], Flat::Value(3)));
}
