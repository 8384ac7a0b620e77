use rockr::mir::analysis::lattice::{Flat, Lattice, LatticeChange};
use rockr::mir::analysis::init_tracking::InitState;

#[test]
fn change_reports_changed() {
    assert!(LatticeChange::Changed.change());
    assert!(!LatticeChange::Unchanged.change());
}

#[test]
fn from_bool_round_trips() {
    assert_eq!(LatticeChange::from(true), LatticeChange::Changed);
    assert_eq!(LatticeChange::from(false), LatticeChange::Unchanged);
    assert!(LatticeChange::from(true).change());
}

#[test]
fn lattice_change_join_is_changed_unless_equal() {
    let u = LatticeChange::Unchanged;
    let c = LatticeChange::Changed;
    assert_eq!(u.join(&u), LatticeChange::Unchanged);
    assert_eq!(u.join(&c), LatticeChange::Changed);
    assert_eq!(c.join(&u), LatticeChange::Changed);
    assert_eq!(<LatticeChange as Lattice>::bottom(), LatticeChange::Changed);
}

#[test]
fn lattice_change_bottom_is_not_a_unit() {
    // Joining with the bottom value does not give back the other side.
    let bottom = <LatticeChange as Lattice>::bottom();
    assert_ne!(bottom.join(&LatticeChange::Unchanged), LatticeChange::Unchanged);
}

#[test]
fn lattice_change_join_assign_reports() {
    let mut a = LatticeChange::Unchanged;
    assert_eq!(a.join_assign(&LatticeChange::Unchanged), LatticeChange::Unchanged);
    assert_eq!(a.join_assign(&LatticeChange::Changed), LatticeChange::Changed);
    assert_eq!(a, LatticeChange::Changed);
    assert_eq!(a.join_assign(&LatticeChange::Unchanged), LatticeChange::Unchanged);
}

fn flat_eq(a: &Flat<u64>, b: &Flat<u64>) -> bool {
    match (a, b) {
        (Flat::Top, Flat::Top) | (Flat::Bottom, Flat::Bottom) => true,
        (Flat::Value(x), Flat::Value(y)) => x == y,
        _ => false,
    }
}

#[test]
fn flat_join_table() {
    let b: Flat<u64> = Flat::Bottom;
    let t: Flat<u64> = Flat::Top;
    let v1 = Flat::Value(1u64);
    let v2 = Flat::Value(2u64);
    assert!(flat_eq(&b.join(&b), &Flat::Bottom));
    assert!(flat_eq(&b.join(&v1), &Flat::Value(1)));
    assert!(flat_eq(&v1.join(&b), &Flat::Value(1)));
    assert!(flat_eq(&v1.join(&v1), &Flat::Value(1)));
    assert!(flat_eq(&v1.join(&v2), &Flat::Top));
    assert!(flat_eq(&t.join(&v1), &Flat::Top));
    assert!(flat_eq(&b.join(&t), &Flat::Top));
}

#[test]
fn flat_join_laws_on_values() {
    let vals = [Flat::Bottom, Flat::Value(3u64), Flat::Value(4u64), Flat::Top];
    for a in vals.iter() {
        assert!(flat_eq(&a.join(a), a));
        for b in vals.iter() {
            assert!(flat_eq(&a.join(b), &b.join(a)));
            for c in vals.iter() {
                assert!(flat_eq(&a.join(b).join(c), &a.join(&b.join(c))));
            }
        }
        assert!(flat_eq(&<Flat<u64> as Lattice>::bottom().join(a), a));
    }
}

#[test]
fn flat_value_only_for_values() {
    assert_eq!(Flat::Value(7u64).value(), Some(&7));
    assert_eq!(Flat::<u64>::Top.value(), None);
    assert_eq!(Flat::<u64>::Bottom.value(), None);
}

#[test]
fn flat_join_assign_reports() {
    let mut a: Flat<u64> = Flat::Bottom;
    assert_eq!(a.join_assign(&Flat::Value(5)), LatticeChange::Changed);
    assert_eq!(a.join_assign(&Flat::Value(5)), LatticeChange::Unchanged);
    assert_eq!(a.join_assign(&Flat::Value(6)), LatticeChange::Changed);
    assert!(flat_eq(&a, &Flat::Top));
    assert_eq!(a.join_assign(&Flat::Bottom), LatticeChange::Unchanged);
}

#[test]
fn option_lattice() {
    let none: Option<InitState> = None;
    assert_eq!(none.join(&Some(InitState::Init)), Some(InitState::Init));
    assert_eq!(Some(InitState::Init).join(&Some(InitState::Uninit)), Some(InitState::Maybe));
    assert_eq!(<Option<InitState> as Lattice>::bottom(), None);
    let mut a: Option<InitState> = None;
    assert_eq!(a.join_assign(&None), LatticeChange::Unchanged);
    assert_eq!(a.join_assign(&Some(InitState::Init)), LatticeChange::Changed);
    assert_eq!(a.join_assign(&Some(InitState::Init)), LatticeChange::Unchanged);
    assert_eq!(a.join_assign(&Some(InitState::Uninit)), LatticeChange::Changed);
    assert_eq!(a, Some(InitState::Maybe));
}

#[test]
fn init_state_join() {
    let (init, maybe, uninit) = (InitState::Init, InitState::Maybe, InitState::Uninit);
    assert_eq!(init.join(&init), init);
    assert_eq!(uninit.join(&uninit), uninit);
    assert_eq!(init.join(&uninit), maybe);
    assert_eq!(maybe.join(&init), maybe);
    assert_eq!(<InitState as Lattice>::bottom(), uninit);
    // The starting value is not a unit of the join.
    assert_eq!(uninit.join(&init), maybe);
}

#[test]
fn init_state_text() {
    assert_eq!(InitState::Init.to_string(), "init");
    assert_eq!(InitState::Maybe.to_string(), "?");
    assert_eq!(InitState::Uninit.to_string(), "uninit");
}
