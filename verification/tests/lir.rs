use rockr::common::arena::Idx;
use rockr::layout::{LIRTy, ScalarKind, IntWidth};
use rockr::lir::branded::{BrandedBlockData, BrandedBlockId};
use rockr::lir::inst::{BlockTarget, Instruction, Terminator, ValueInstKind, VoidInstKind};
use rockr::lir::{
    Aggregate, ArithBinop, Body, Building, DefinedLinkage, Int, Module, Ptr, Scalar, SigKind,
    Signature, ValueClass, ValueDef, ValueKind, ZST,
};

fn sig() -> Signature {
    Signature { params: vec![LIRTy { layout: 1 }], ret: LIRTy { layout: 2 } }
}

#[test]
fn declaring_hands_out_positions() {
    let mut m = Module::new();
    let a = m.declare_import("puts".to_string(), sig());
    let b = m.declare_defined("main".to_string(), sig(), DefinedLinkage::Export);
    assert_ne!(a, b);
    let (s, body) = m.get_fn(a);
    assert_eq!(s.name, "puts");
    assert!(matches!(s.kind, SigKind::Import));
    assert!(matches!(body, Body::Import));
    let (s, body) = m.get_fn(b);
    assert_eq!(s.name, "main");
    assert!(matches!(s.kind, SigKind::Defined(DefinedLinkage::Export)));
    assert!(matches!(body, Body::Defined(DefinedLinkage::Export, ())));
}

#[test]
fn finishing_declarations_leaves_bodies_empty() {
    let mut m = Module::new();
    let a = m.declare_defined("f".to_string(), sig(), DefinedLinkage::Local);
    let b = m.declare_import("g".to_string(), sig());
    let mut built: Module<Building> = m.finish_declarations();
    assert!(matches!(built.get_fn(a).1, Body::Defined(DefinedLinkage::Local, None)));
    assert!(matches!(built.get_fn(b).1, Body::Import));
    let (s, _) = built.get_fn_mut(a);
    assert_eq!(s.name, "f");
}

#[test]
fn value_kinds_match_classes() {
    assert!(<Scalar<Int> as ValueKind>::matches(ValueClass::Scalar(ScalarKind::Int(IntWidth::I32))));
    assert!(!<Scalar<Int> as ValueKind>::matches(ValueClass::Scalar(ScalarKind::Ptr)));
    assert!(<Ptr<Aggregate> as ValueKind>::matches(ValueClass::Scalar(ScalarKind::Ptr)));
    assert!(<Aggregate as ValueKind>::matches(ValueClass::Aggregate));
    assert!(<ZST as ValueKind>::matches(ValueClass::NoValue));
    assert!(!<ZST as ValueKind>::matches(ValueClass::Union));
}

fn val(i: usize) -> rockr::lir::ValueId<'static> {
    ValueDef::from_idx(Idx::from_raw(i)).id()
}

#[test]
fn finalizing_replaces_ids_by_indices() {
    let k: ValueInstKind<rockr::lir::Branded<'static>> =
        ValueInstKind::Arith { op: ArithBinop::SAdd, lhs: val(3), rhs: val(4) };
    match k.finalize() {
        ValueInstKind::Arith { op, lhs, rhs } => {
            assert_eq!(op, ArithBinop::SAdd);
            assert_eq!(lhs.into_raw(), 3);
            assert_eq!(rhs.into_raw(), 4);
        }
        _ => panic!("wrong instruction"),
    }
    let agg: ValueInstKind<rockr::lir::Branded<'static>> =
        ValueInstKind::MakeAggregate { ty: LIRTy { layout: 9 }, fields_in_src_order: vec![val(1), val(0)] };
    match agg.finalize() {
        ValueInstKind::MakeAggregate { ty, fields_in_src_order } => {
            assert_eq!(ty, LIRTy { layout: 9 });
            let raw: Vec<usize> = fields_in_src_order.iter().map(|i| i.into_raw()).collect();
            assert_eq!(raw, vec![1, 0]);
        }
        _ => panic!("wrong instruction"),
    }
}

#[test]
fn finalizing_a_block() {
    let target = |b: usize, ps: Vec<usize>| BlockTarget {
        params: ps.into_iter().map(val).collect(),
        block: BrandedBlockId::from_idx(Idx::from_raw(b)),
    };
    let block = BrandedBlockData {
        name: None,
        params: vec![ValueDef::from_idx(Idx::from_raw(0))],
        insts: vec![
            Instruction::Void(VoidInstKind::Store { ptr: val(0), value: val(1) }),
            Instruction::Value { def: ValueDef::from_idx(Idx::from_raw(2)), kind: ValueInstKind::Not { value: val(1) } },
        ],
        terminator: Some(Terminator::Switch {
            on: val(2),
            branches: vec![(1, target(1, vec![0])), (2, target(2, vec![]))],
            default: target(3, vec![1]),
        }),
    };
    let done = block.finalize();
    assert_eq!(done.params.iter().map(|p| p.into_raw()).collect::<Vec<_>>(), vec![0]);
    assert_eq!(done.insts.len(), 2);
    match &done.insts[1] {
        Instruction::Value { def, kind: ValueInstKind::Not { value } } => {
            assert_eq!(def.into_raw(), 2);
            assert_eq!(value.into_raw(), 1);
        }
        _ => panic!("wrong instruction"),
    }
    match &done.terminator {
        Terminator::Switch { on, branches, default } => {
            assert_eq!(on.into_raw(), 2);
            assert_eq!(branches.len(), 2);
            assert_eq!(branches[0].0, 1);
            assert_eq!(branches[0].1.block.into_raw(), 1);
            assert_eq!(branches[1].1.block.into_raw(), 2);
            assert_eq!(default.block.into_raw(), 3);
            assert_eq!(default.params[0].into_raw(), 1);
        }
        _ => panic!("wrong terminator"),
    }
}
