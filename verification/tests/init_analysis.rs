use rockr::common::{SourceFile, Span, Symbol};
use rockr::hir::Mutability;
use rockr::mir::analysis::init_tracking::{
    affected_masks, apply_ops, compute_block_ops, compute_move_key_set, find_key, IdInitMap,
    InitOp, InitState, MIRInitAnalysis, MoveKey, TrackedProjection,
};
use rockr::mir::basic_block::{MIRBasicBlock, MIRTerminator, Stmt};
use rockr::mir::concrete_ty::ConcreteTy;
use rockr::mir::operand::{MIROperand, MIRPlace, MIRProjection, MIRRValue, MIRRValueKind};
use rockr::mir::{BlockID, LocalID, MIRLocal, Mir};
use rockr::ril::TypeRef;

fn span() -> Span {
    Span { file: SourceFile { id: 0 }, start_offset: 0, end_offset: 0 }
}

fn ty() -> ConcreteTy {
    ConcreteTy { id: 0 }
}

fn place(l: usize, projections: Vec<MIRProjection>) -> MIRPlace {
    MIRPlace { local: LocalID(l), projections, ty: ty(), span: span() }
}

fn local() -> MIRLocal {
    MIRLocal::new(TypeRef::Zelf, Mutability::Const, span())
}

fn key(l: usize, projections: Vec<TrackedProjection>) -> MoveKey {
    MoveKey { base: LocalID(l), projections }
}

fn assign(dest: MIRPlace, op: MIROperand) -> Stmt {
    Stmt::Assign { dest, rvalue: MIRRValue { kind: MIRRValueKind::Use(op), ty: ty(), span: span() } }
}

// `_1 = move _0; goto bb1` then `return`, with `_0` the parameter.
fn move_mir() -> Mir {
    Mir {
        blocks: vec![
            MIRBasicBlock {
                stmts: vec![assign(place(1, vec![]), MIROperand::Move(place(0, vec![])))],
                terminator: MIRTerminator::Goto { next: BlockID(1) },
                name: None,
            },
            MIRBasicBlock {
                stmts: vec![],
                terminator: MIRTerminator::Return { value: None, span: span() },
                name: None,
            },
        ],
        locals: vec![local(), local()],
        parameters: vec![LocalID(0)],
        entry: BlockID(0),
    }
}

#[test]
fn move_key_stops_at_first_index() {
    let p = place(
        2,
        vec![
            MIRProjection::Field { name: Symbol { id: 7 }, resulting_ty: ty() },
            MIRProjection::Deref,
            MIRProjection::Index { index: MIROperand::Copy(place(0, vec![])) },
            MIRProjection::TupleField { index: 1, resulting_ty: ty() },
        ],
    );
    let k = p.as_move_key();
    assert_eq!(k.base, LocalID(2));
    assert_eq!(
        k.projections,
        vec![TrackedProjection::StructField(Symbol { id: 7 }), TrackedProjection::Deref]
    );
    assert!(k.same(&key(2, vec![TrackedProjection::StructField(Symbol { id: 7 }), TrackedProjection::Deref])));
    assert!(!k.same(&key(2, vec![])));
}

#[test]
fn masks_cover_places_inside() {
    let keys = vec![key(0, vec![]), key(0, vec![TrackedProjection::Deref]), key(1, vec![])];
    let masks = affected_masks(&keys);
    assert!(masks[0].contains(0) && masks[0].contains(1) && !masks[0].contains(2));
    assert!(!masks[1].contains(0) && masks[1].contains(1) && !masks[1].contains(2));
    assert!(!masks[2].contains(0) && !masks[2].contains(1) && masks[2].contains(2));
    assert_eq!(find_key(&keys, &key(1, vec![])), Some(2));
    assert_eq!(find_key(&keys, &key(3, vec![])), None);
}

#[test]
fn key_set_skips_copy_locals() {
    let mir = move_mir();
    let keys = compute_move_key_set(&mir, &vec![false, false]);
    assert_eq!(keys.len(), 2);
    assert!(find_key(&keys, &key(0, vec![])).is_some());
    assert!(find_key(&keys, &key(1, vec![])).is_some());
    let keys = compute_move_key_set(&mir, &vec![true, false]);
    assert_eq!(keys.len(), 1);
    assert!(find_key(&keys, &key(0, vec![])).is_none());
}

#[test]
fn block_ops_move_then_init() {
    let mir = move_mir();
    let keys = vec![key(0, vec![]), key(1, vec![])];
    let ops = compute_block_ops(&keys, &mir, BlockID(0));
    assert_eq!(ops, vec![InitOp::Uninit(0), InitOp::Init(1)]);
    let ops = compute_block_ops(&keys, &mir, BlockID(1));
    assert!(ops.is_empty());
}

#[test]
fn apply_ops_marks_masks_in_order() {
    let keys = vec![key(0, vec![]), key(1, vec![])];
    let masks = affected_masks(&keys);
    let start = IdInitMap::new(2);
    let after = apply_ops(&start, &vec![InitOp::Init(0), InitOp::Uninit(0), InitOp::Init(1)], &masks);
    let only = |i: usize| {
        let mut m = rockr::common::bitset::BitSet::new(2);
        m.insert(i);
        m
    };
    assert_eq!(after.query(Some(&only(0))), InitState::Uninit);
    assert_eq!(after.query(Some(&only(1))), InitState::Init);
}

#[test]
fn analysis_tracks_moves_across_blocks() {
    let mir = move_mir();
    let out = MIRInitAnalysis.run(&mir, &vec![false, false]);
    let at_entry = out.entry_state(BlockID(0));
    assert_eq!(out.query(&at_entry, &key(0, vec![])), InitState::Init);
    assert_eq!(out.query(&at_entry, &key(1, vec![])), InitState::Uninit);
    let after = out.entry_state(BlockID(1));
    assert_eq!(out.query(&after, &key(0, vec![])), InitState::Uninit);
    assert_eq!(out.query(&after, &key(1, vec![])), InitState::Init);
    // A place that is not tracked reads as initialized.
    assert_eq!(out.query(&after, &key(5, vec![])), InitState::Init);
    let mut state = out.entry_state(BlockID(1));
    out.mark_init(&mut state, &key(0, vec![]));
    assert_eq!(out.query(&state, &key(0, vec![])), InitState::Init);
    out.mark_uninit(&mut state, &key(1, vec![]));
    assert_eq!(out.query(&state, &key(1, vec![])), InitState::Uninit);
}
