use rockr::common::bitset::BitSet;
use rockr::common::Symbol;
use rockr::mir::analysis::init_tracking::{IdInitMap, InitState, MoveKey, TrackedProjection};
use rockr::mir::analysis::lattice::LatticeChange;
use rockr::mir::LocalID;

fn set(cap: usize, members: &[usize]) -> BitSet {
    let mut s = BitSet::new(cap);
    for &m in members {
        s.insert(m);
    }
    s
}

#[test]
fn bitset_union_and_substract() {
    let mut a = set(8, &[1, 3]);
    let b = set(8, &[3, 5]);
    assert!(a.union(&b));
    assert!(a.contains(1) && a.contains(3) && a.contains(5));
    assert!(!a.contains(2));
    assert!(!a.union(&b));
    assert!(a.substract(&set(8, &[1])));
    assert!(!a.contains(1));
    assert!(!a.substract(&set(8, &[0])));
    assert!(!a.contains(100));
    assert_eq!(a.len(), 8);
}

#[test]
fn init_map_marks_and_queries() {
    let mut m = IdInitMap::new(4);
    let all = set(4, &[0, 1, 2, 3]);
    m.mark_uninit(&all);
    assert_eq!(m.query(Some(&set(4, &[0, 1]))), InitState::Uninit);
    m.mark_init(&set(4, &[1]));
    assert_eq!(m.query(Some(&set(4, &[1]))), InitState::Init);
    assert_eq!(m.query(Some(&set(4, &[0, 1]))), InitState::Maybe);
    assert_eq!(m.query(Some(&set(4, &[]))), InitState::Init);
    assert_eq!(m.query(None), InitState::Init);
}

#[test]
fn init_map_join() {
    let mut a = IdInitMap::new(2);
    a.mark_init(&set(2, &[0]));
    let mut b = IdInitMap::new(2);
    b.mark_uninit(&set(2, &[0]));
    let j = a.join(&b);
    assert_eq!(j.query(Some(&set(2, &[0]))), InitState::Maybe);
    assert_eq!(a.join_assign(&b), LatticeChange::Changed);
    assert_eq!(a.join_assign(&b), LatticeChange::Unchanged);
    assert_eq!(a.query(Some(&set(2, &[0]))), InitState::Maybe);
}

#[test]
fn move_key_prefixes() {
    let base = MoveKey { base: LocalID(1), projections: vec![] };
    let field = MoveKey {
        base: LocalID(1),
        projections: vec![TrackedProjection::StructField(Symbol { id: 3 })],
    };
    let deeper = MoveKey {
        base: LocalID(1),
        projections: vec![TrackedProjection::StructField(Symbol { id: 3 }), TrackedProjection::Deref],
    };
    let other = MoveKey { base: LocalID(2), projections: vec![TrackedProjection::Deref] };
    assert!(base.is_strict_prefix(&field));
    assert!(field.is_strict_prefix(&deeper));
    assert!(!field.is_strict_prefix(&field));
    assert!(!deeper.is_strict_prefix(&field));
    assert!(!base.is_strict_prefix(&other));
    let sibling = MoveKey { base: LocalID(1), projections: vec![TrackedProjection::TupleField(0), TrackedProjection::Deref] };
    assert!(!field.is_strict_prefix(&sibling));
}
