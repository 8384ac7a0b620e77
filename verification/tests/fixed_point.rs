use rockr::mir::analysis::init_tracking::InitState;
use rockr::mir::analysis::lattice::{fixed_point_iter, Direction, Flat};

// 0 -> 1 -> 2, with a loop 1 -> 1 and a side edge 0 -> 2.
fn graph() -> (Vec<Vec<usize>>, Vec<Vec<usize>>) {
    let succs = vec![vec![1, 2], vec![1, 2], vec![]];
    let preds = vec![vec![], vec![0, 1], vec![0, 1]];
    (succs, preds)
}

fn flat_value(f: &Flat<u64>) -> Option<u64> {
    f.value().copied()
}

#[test]
fn forward_constant_reaches_every_block() {
    let (succs, preds) = graph();
    let res = fixed_point_iter(
        &succs,
        &preds,
        Direction::Forward,
        |b: usize, l: &Flat<u64>| if b == 0 { Flat::Value(5) } else { *l },
        None,
        None,
    );
    assert_eq!(res.block_in.len(), 3);
    assert!(matches!(res.block_in[0], Flat::Bottom));
    assert_eq!(flat_value(&res.block_out[0]), Some(5));
    assert_eq!(flat_value(&res.block_in[1]), Some(5));
    assert_eq!(flat_value(&res.block_out[1]), Some(5));
    assert_eq!(flat_value(&res.block_in[2]), Some(5));
}

#[test]
fn forward_conflicting_values_meet_at_top() {
    let (succs, preds) = graph();
    let res = fixed_point_iter(
        &succs,
        &preds,
        Direction::Forward,
        |b: usize, l: &Flat<u64>| match b {
            0 => Flat::Value(1),
            1 => Flat::Value(2),
            _ => *l,
        },
        None,
        None,
    );
    assert!(matches!(res.block_in[2], Flat::Top));
    assert!(matches!(res.block_in[1], Flat::Top));
}

#[test]
fn forward_seed_enters_the_entry_block() {
    let (succs, preds) = graph();
    let seed = vec![Some(InitState::Init), None, None];
    let res = fixed_point_iter(
        &succs,
        &preds,
        Direction::Forward,
        |_b: usize, l: &InitState| *l,
        Some(&seed),
        None,
    );
    // The starting value `Uninit` is joined with the seed, and it is no unit
    // of the join: the entry block reads `Maybe`.
    assert_eq!(res.block_in[0], InitState::Maybe);
    assert_eq!(res.block_in[1], InitState::Maybe);
}

#[test]
fn forward_option_seed_is_kept() {
    let (succs, preds) = graph();
    let seed = vec![Some(Some(InitState::Init)), None, None];
    let res = fixed_point_iter(
        &succs,
        &preds,
        Direction::Forward,
        |_b: usize, l: &Option<InitState>| *l,
        Some(&seed),
        None,
    );
    assert_eq!(res.block_in[0], Some(InitState::Init));
    assert_eq!(res.block_in[1], Some(InitState::Init));
    assert_eq!(res.block_out[2], Some(InitState::Init));
}

#[test]
fn backward_flows_against_the_edges() {
    let (succs, preds) = graph();
    let seed = vec![None, None, Some(Flat::Value(9u64))];
    let res = fixed_point_iter(
        &succs,
        &preds,
        Direction::Backward,
        |_b: usize, l: &Flat<u64>| *l,
        None,
        Some(&seed),
    );
    assert_eq!(flat_value(&res.block_out[2]), Some(9));
    assert_eq!(flat_value(&res.block_in[2]), Some(9));
    assert_eq!(flat_value(&res.block_out[1]), Some(9));
    assert_eq!(flat_value(&res.block_out[0]), Some(9));
    assert_eq!(flat_value(&res.block_in[0]), Some(9));
}
