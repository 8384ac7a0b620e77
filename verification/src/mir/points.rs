//! The points of a MIR body, one before each statement and one before each
//! terminator, and data-flow analyses over them.
use vstd::prelude::*;
use super::analysis::lattice::{
    below, bottoms, edges_mirror, edges_within, fixed_point_iter, seed_at, seed_view, settled, Direction,
    FixedPointIterRes, Lattice,
};
use super::{predecessors_of, BlockID, Mir};

verus! {

/// A point of a body: before statement `.1` of block `.0`, or before the
/// block's terminator when `.1` is its number of statements.
#[derive(Debug, Clone, Copy, PartialEq, Eq, Hash, Structural)]
pub struct MIRStmtIndex(pub BlockID, pub usize);

/// The points of the blocks below `b`, block after block.
pub open spec fn points_upto(mir: Mir, b: nat) -> Seq<MIRStmtIndex>
    decreases b,
{
    if b == 0 {
        seq![]
    } else {
        let c = (b - 1) as nat;
        points_upto(mir, c) + Seq::new(
            (mir.blocks@[c as int].stmts@.len() + 1) as nat,
            |i: int| MIRStmtIndex(BlockID(c as usize), i as usize),
        )
    }
}

impl Mir {
    /// Every point of the body, block after block, each block's points in
    /// order.
    pub open spec fn points(self) -> Seq<MIRStmtIndex> {
        points_upto(self, self.blocks@.len())
    }

    /// Where the points of block `b` start in [`Mir::points`].
    pub open spec fn point_offset(self, b: int) -> nat {
        points_upto(self, b as nat).len()
    }

    /// The points that follow point `k`: the next statement's, except from
    /// the block's last statement, which is followed by nothing; and from
    /// the terminator, the first point of every block it may jump to.
    pub open spec fn point_succs(self, k: int) -> Set<usize> {
        let p = self.points()[k];
        let b = p.0.0 as int;
        let len = self.blocks@[b].stmts@.len();
        if p.1 + 1 < len {
            set![(k + 1) as usize]
        } else if p.1 == len {
            Set::new(
                |x: usize|
                    exists|t: usize| #[trigger]
                        self.targets(b).contains(t) && x == self.point_offset(t as int),
            )
        } else {
            Set::empty()
        }
    }
}

/// The points of the blocks below `b`: those of each block start where
/// those of the blocks before it end, and each point stands at the start of
/// its block's points plus its statement number.
proof fn lemma_points_upto(mir: Mir, b: nat)
    requires
        b <= mir.blocks@.len(),
    ensures
        forall|c: int|
            0 <= c < b ==> #[trigger] mir.point_offset(c) + mir.blocks@[c].stmts@.len() + 1
                <= points_upto(mir, b).len(),
        forall|c1: int, c2: int|
            0 <= c1 < c2 <= b ==> #[trigger] mir.point_offset(c1) + mir.blocks@[c1].stmts@.len() + 1
                <= #[trigger] mir.point_offset(c2),
        forall|k: int|
            0 <= k < points_upto(mir, b).len() ==> {
                let p = #[trigger] points_upto(mir, b)[k];
                &&& 0 <= p.0.0 < b
                &&& p.1 <= mir.blocks@[p.0.0 as int].stmts@.len()
                &&& k == mir.point_offset(p.0.0 as int) + p.1
            },
    decreases b,
{
    if b > 0 {
        let c = (b - 1) as nat;
        lemma_points_upto(mir, c);
        let pre = points_upto(mir, c);
        let all = points_upto(mir, b);
        assert(mir.point_offset(c as int) == pre.len());
        assert forall|c1: int, c2: int|
            0 <= c1 < c2 <= b implies #[trigger] mir.point_offset(c1) + mir.blocks@[c1].stmts@.len()
            + 1 <= #[trigger] mir.point_offset(c2) by {
            if c2 == b {
                if c1 < c {
                    assert(mir.point_offset(c1) + mir.blocks@[c1].stmts@.len() + 1 <= pre.len());
                }
                assert(mir.point_offset(b as int) == all.len());
            }
        }
        assert(mir.blocks.len() == mir.blocks@.len());
        assert(mir.blocks@[c as int].stmts.len() == mir.blocks@[c as int].stmts@.len());
        assert forall|k: int| 0 <= k < all.len() implies {
            let p = #[trigger] all[k];
            &&& 0 <= p.0.0 < b
            &&& p.1 <= mir.blocks@[p.0.0 as int].stmts@.len()
            &&& k == mir.point_offset(p.0.0 as int) + p.1
        } by {
            if k < pre.len() {
                assert(all[k] == pre[k]);
            } else {
                assert(all[k] == MIRStmtIndex(BlockID(c as usize), (k - pre.len()) as usize));
            }
        }
    }
}

impl Mir {
    /// The bottom fact for each point, in the order of [`Mir::points`].
    pub fn get_stmt_bottoms<L: Lattice>(&self) -> (r: Vec<L>)
        ensures
            r@.len() == self.points().len(),
            forall|k: int| 0 <= k < r@.len() ==> #[trigger] r@[k] == L::spec_bottom(),
    {
        let points = self.stmt_index_iter();
        bottoms(points.len())
    }

    /// Every point of the body, block after block.
    pub fn stmt_index_iter(&self) -> (r: Vec<MIRStmtIndex>)
        ensures
            r@ == self.points(),
    {
        let mut r: Vec<MIRStmtIndex> = Vec::new();
        let mut b: usize = 0;
        while b < self.blocks.len()
            invariant
                b <= self.blocks@.len(),
                r@ == points_upto(*self, b as nat),
            decreases self.blocks@.len() - b,
        {
            let len = self.blocks[b].stmts.len();
            let ghost start = r@;
            let mut i: usize = 0;
            while i < len
                invariant
                    i <= len,
                    len == self.blocks@[b as int].stmts@.len(),
                    r@ == start + Seq::new(i as nat, |j: int| MIRStmtIndex(BlockID(b), j as usize)),
                decreases len - i,
            {
                r.push(MIRStmtIndex(BlockID(b), i));
                proof {
                    assert(r@ =~= start + Seq::new((i + 1) as nat, |j: int| MIRStmtIndex(BlockID(b), j as usize)));
                }
                i += 1;
            }
            r.push(MIRStmtIndex(BlockID(b), len));
            proof {
                assert(r@ =~= start + Seq::new(
                    (len + 1) as nat,
                    |j: int| MIRStmtIndex(BlockID(b), j as usize),
                ));
                assert(((b + 1) as nat - 1) as nat == b as nat);
                assert(r@ == points_upto(*self, (b + 1) as nat));
            }
            b += 1;
        }
        r
    }

    /// For every point, by its place in [`Mir::stmt_index_iter`], the
    /// points that follow it, each once.
    pub fn stmt_successors(&self) -> (r: Vec<Vec<usize>>)
        requires
            self.jumps_within(),
        ensures
            r@.len() == self.points().len(),
            forall|k: int| 0 <= k < r@.len() ==> (#[trigger] r@[k])@.no_duplicates(),
            forall|k: int| 0 <= k < r@.len() ==> (#[trigger] r@[k])@.to_set() == self.point_succs(k),
            edges_within(r@, self.points().len()),
    {
        let points = self.stmt_index_iter();
        let n = self.blocks.len();
        let total = points.len();
        proof {
            lemma_points_upto(*self, n as nat);
        }
        // Where the points of each block start.
        let mut offsets: Vec<usize> = Vec::new();
        let mut b: usize = 0;
        let mut pos: usize = 0;
        while b < n
            invariant
                b <= n,
                n == self.blocks@.len(),
                points@ == self.points(),
                offsets@.len() == b,
                pos == self.point_offset(b as int),
                total == points@.len(),
                forall|c: int| 0 <= c < b ==> offsets@[c] == self.point_offset(c),
                forall|c1: int, c2: int|
                    0 <= c1 < c2 <= n ==> #[trigger] self.point_offset(c1)
                        + self.blocks@[c1].stmts@.len() + 1 <= #[trigger] self.point_offset(c2),
                self.point_offset(n as int) == points@.len(),
            decreases n - b,
        {
            offsets.push(pos);
            let len = self.blocks[b].stmts.len();
            proof {
                assert(self.point_offset(b as int) + len + 1 <= self.point_offset(n as int));
                assert(self.point_offset(b + 1) == self.point_offset(b as int) + len + 1) by {
                    assert(((b + 1) as nat - 1) as nat == b as nat);
                }
            }
            pos = pos + len + 1;
            b += 1;
        }
        let succs = self.successors();
        let mut r: Vec<Vec<usize>> = Vec::new();
        let mut k: usize = 0;
        while k < points.len()
            invariant
                k <= points@.len(),
                n == self.blocks@.len(),
                points@ == self.points(),
                self.jumps_within(),
                offsets@.len() == n,
                forall|c: int| 0 <= c < n ==> offsets@[c] == self.point_offset(c),
                self.point_offset(n as int) == points@.len(),
                forall|c1: int, c2: int|
                    0 <= c1 < c2 <= n ==> #[trigger] self.point_offset(c1)
                        + self.blocks@[c1].stmts@.len() + 1 <= #[trigger] self.point_offset(c2),
                forall|j: int|
                    0 <= j < points@.len() ==> {
                        let p = #[trigger] points@[j];
                        &&& 0 <= p.0.0 < n
                        &&& p.1 <= self.blocks@[p.0.0 as int].stmts@.len()
                        &&& j == self.point_offset(p.0.0 as int) + p.1
                    },
                succs@.len() == n,
                forall|c: int| 0 <= c < n ==> #[trigger] succs@[c]@.to_set() == self.targets(c),
                forall|c: int| 0 <= c < n ==> (#[trigger] succs@[c])@.no_duplicates(),
                r@.len() == k,
                forall|j: int| 0 <= j < k ==> (#[trigger] r@[j])@.no_duplicates(),
                forall|j: int| 0 <= j < k ==> (#[trigger] r@[j])@.to_set() == self.point_succs(j),
                forall|j: int, i: int|
                    0 <= j < k && 0 <= i < r@[j]@.len() ==> (#[trigger] r@[j]@[i]) < points@.len(),
            decreases points@.len() - k,
        {
            let p = points[k];
            let blk = p.0.0;
            let i = p.1;
            let len = self.blocks[blk].stmts.len();
            let mut out: Vec<usize> = Vec::new();
            proof {
                assert(self.point_offset(blk as int) + len + 1 <= self.point_offset(n as int)) by {
                    if blk + 1 < n {
                        assert(self.point_offset(blk as int) + len + 1 <= self.point_offset(
                            (blk + 1) as int,
                        ));
                        assert(self.point_offset((blk + 1) as int) + self.blocks@[blk + 1].stmts@.len() + 1
                            <= self.point_offset(n as int));
                    } else {
                        assert(self.point_offset(blk as int) + len + 1 <= self.point_offset(
                            n as int,
                        ));
                    }
                }
            }
            proof {
                assert(points@[k as int] == p);
                assert(p.0.0 as int == blk);
                assert(self.blocks@[blk as int].stmts@.len() == len);
            }
            if i < len && i + 1 < len {
                out.push(k + 1);
                proof {
                    assert(self.point_succs(k as int) == set![(k + 1) as usize]);
                    assert(out@.to_set() =~= self.point_succs(k as int)) by {
                        assert(out@[0] == k + 1);
                    }
                }
            } else if i == len {
                let targets = &succs[blk];
                let mut t: usize = 0;
                while t < targets.len()
                    invariant
                        t <= targets@.len(),
                        succs@.len() == n,
                        *targets == succs@[blk as int],
                        targets@.no_duplicates(),
                        targets@.to_set() == self.targets(blk as int),
                        self.jumps_within(),
                        blk < n,
                        n == self.blocks@.len(),
                        offsets@.len() == n,
                        forall|c: int| 0 <= c < n ==> offsets@[c] == self.point_offset(c),
                        self.point_offset(n as int) == points@.len(),
                        forall|c1: int, c2: int|
                            0 <= c1 < c2 <= n ==> #[trigger] self.point_offset(c1)
                                + self.blocks@[c1].stmts@.len() + 1 <= #[trigger] self.point_offset(c2),
                        out@.len() == t,
                        forall|j: int|
                            0 <= j < t ==> out@[j] == self.point_offset(targets@[j] as int),
                        forall|j: int| 0 <= j < t ==> (#[trigger] out@[j]) < points@.len(),
                    decreases targets@.len() - t,
                {
                    let tb = targets[t];
                    proof {
                        assert(targets@.to_set().contains(tb));
                        assert(self.targets(blk as int).contains(tb));
                        assert(tb < n);
                        assert(self.point_offset(tb as int) + self.blocks@[tb as int].stmts@.len() + 1
                            <= self.point_offset(n as int)) by {
                            if tb + 1 < n {
                                assert(self.point_offset(tb as int) + self.blocks@[tb as int].stmts@.len() + 1
                                    <= self.point_offset((tb + 1) as int));
                                assert(self.point_offset((tb + 1) as int)
                                    + self.blocks@[tb + 1].stmts@.len() + 1
                                    <= self.point_offset(n as int));
                            } else {
                                assert(self.point_offset(tb as int) + self.blocks@[tb as int].stmts@.len() + 1
                                    <= self.point_offset(n as int));
                            }
                        }
                    }
                    out.push(offsets[tb]);
                    t += 1;
                }
                proof {
                    assert forall|x: usize| out@.to_set().contains(x) <==> self.point_succs(
                        k as int,
                    ).contains(x) by {
                        if out@.contains(x) {
                            let j = choose|j: int| 0 <= j < out@.len() && out@[j] == x;
                            assert(targets@.to_set().contains(targets@[j]));
                            assert(self.targets(blk as int).contains(targets@[j]));
                        }
                        if self.point_succs(k as int).contains(x) {
                            let tb = choose|tb: usize|
                                #[trigger] self.targets(blk as int).contains(tb) && x
                                    == self.point_offset(tb as int);
                            assert(targets@.to_set().contains(tb));
                            let j = choose|j: int| 0 <= j < targets@.len() && targets@[j] == tb;
                            assert(out@[j] == x);
                        }
                    }
                    assert(out@.to_set() =~= self.point_succs(k as int));
                    assert forall|j1: int, j2: int|
                        0 <= j1 < out@.len() && 0 <= j2 < out@.len() && j1 != j2 implies out@[j1]
                        != out@[j2] by {
                        let t1 = targets@[j1];
                        let t2 = targets@[j2];
                        assert(t1 != t2);
                        assert(targets@.to_set().contains(t1));
                        assert(targets@.to_set().contains(t2));
                        assert(t1 < n && t2 < n);
                        if t1 < t2 {
                            assert(self.point_offset(t1 as int) + self.blocks@[t1 as int].stmts@.len() + 1
                                <= self.point_offset(t2 as int));
                        } else {
                            assert(self.point_offset(t2 as int) + self.blocks@[t2 as int].stmts@.len() + 1
                                <= self.point_offset(t1 as int));
                        }
                    }
                }
            } else {
                proof {
                    assert(out@.to_set() =~= self.point_succs(k as int));
                }
            }
            r.push(out);
            proof {
                assert(r@[k as int] == out);
            }
            k += 1;
        }
        r
    }

    /// For every point, the points that it follows: the mirror of
    /// `successors`.
    pub fn stmt_predecessors(&self, successors: &Vec<Vec<usize>>) -> (r: Vec<Vec<usize>>)
        requires
            edges_within(successors@, successors@.len()),
        ensures
            r@.len() == successors@.len(),
            edges_within(r@, successors@.len()),
            edges_mirror(successors@, r@),
            forall|k: int| 0 <= k < r@.len() ==> (#[trigger] r@[k])@.no_duplicates(),
    {
        predecessors_of(successors)
    }
}

/// Forward facts settled at point `k`: its entry fact is above the exit
/// fact of every point it follows and above its seed, and its exit fact is
/// above what `transfer` gives for its entry fact at that point.
pub open spec fn point_settled_forward<L: Lattice, F: Fn(MIRStmtIndex, &L) -> L>(
    mir: Mir,
    k: int,
    seed: Option<Seq<Option<L>>>,
    entry: Seq<L>,
    exit: Seq<L>,
    transfer: F,
) -> bool {
    &&& forall|j: int|
        0 <= j < mir.points().len() && #[trigger] mir.point_succs(j).contains(k as usize) ==> below(
            exit[j],
            entry[k],
        )
    &&& (seed_at(seed, k) matches Some(v) ==> below(v, entry[k]))
    &&& exists|t: L| #[trigger] transfer.ensures((mir.points()[k], &entry[k]), t) && below(t, exit[k])
}

/// Backward facts settled at point `k`: its exit fact is above the entry
/// fact of every point that follows it and above its seed, and its entry
/// fact is above what `transfer` gives for its exit fact at that point.
pub open spec fn point_settled_backward<L: Lattice, F: Fn(MIRStmtIndex, &L) -> L>(
    mir: Mir,
    k: int,
    seed: Option<Seq<Option<L>>>,
    entry: Seq<L>,
    exit: Seq<L>,
    transfer: F,
) -> bool {
    &&& forall|s: usize| #[trigger] mir.point_succs(k).contains(s) ==> below(entry[s as int], exit[k])
    &&& (seed_at(seed, k) matches Some(v) ==> below(v, exit[k]))
    &&& exists|t: L| #[trigger] transfer.ensures((mir.points()[k], &exit[k]), t) && below(t, entry[k])
}

impl Mir {
    /// Runs a data-flow analysis over the points of the body to a fixed
    /// point, as [`fixed_point_iter`] does over a graph: the facts are
    /// indexed by the place of the point in [`Mir::stmt_index_iter`], and so
    /// are the seeds.
    #[verifier::spinoff_prover]
    #[verifier::rlimit(50)]
    pub fn fixed_point_iter_stmt<L: Lattice, F: Fn(MIRStmtIndex, &L) -> L>(
        &self,
        direction: Direction,
        transfer: F,
        in_seed: Option<&Vec<Option<L>>>,
        out_seed: Option<&Vec<Option<L>>>,
    ) -> (r: FixedPointIterRes<L>)
        requires
            self.jumps_within(),
            in_seed matches Some(s) ==> s@.len() == self.points().len(),
            out_seed matches Some(s) ==> s@.len() == self.points().len(),
            forall|k: int, l: &L| 0 <= k < self.points().len() ==> #[trigger] transfer.requires((self.points()[k], l)),
        ensures
            r.block_in@.len() == self.points().len(),
            r.block_out@.len() == self.points().len(),
            direction == Direction::Forward ==> forall|k: int|
                0 <= k < self.points().len() ==> #[trigger] point_settled_forward(
                    *self,
                    k,
                    seed_view(in_seed),
                    r.block_in@,
                    r.block_out@,
                    transfer,
                ),
            direction == Direction::Backward ==> forall|k: int|
                0 <= k < self.points().len() ==> #[trigger] point_settled_backward(
                    *self,
                    k,
                    seed_view(out_seed),
                    r.block_in@,
                    r.block_out@,
                    transfer,
                ),
    {
        let points = self.stmt_index_iter();
        let succs = self.stmt_successors();
        let preds = self.stmt_predecessors(&succs);
        let tr = &transfer;
        let t = |k: usize, l: &L| -> (res: L)
            requires
                k < points@.len(),
                tr.requires((points@[k as int], l)),
            ensures
                tr.ensures((points@[k as int], l), res),
            { tr(points[k], l) };
        let res = fixed_point_iter(&succs, &preds, direction, t, in_seed, out_seed);
        proof {
            let n = points@.len() as int;
            if direction == Direction::Forward {
                assert forall|k: int| 0 <= k < n implies #[trigger] point_settled_forward(
                    *self,
                    k,
                    seed_view(in_seed),
                    res.block_in@,
                    res.block_out@,
                    transfer,
                ) by {
                    assert(settled(k, preds@, seed_view(in_seed), res.block_in@, res.block_out@, t));
                    assert forall|j: int|
                        0 <= j < n && #[trigger] self.point_succs(j).contains(k as usize) implies below(
                        res.block_out@[j],
                        res.block_in@[k],
                    ) by {
                        assert(succs@[j]@.to_set().contains(k as usize));
                        assert(preds@[k]@.contains(j as usize));
                        let idx = choose|idx: int| 0 <= idx < preds@[k]@.len() && preds@[k]@[idx] == j as usize;
                        assert(below(res.block_out@[preds@[k]@[idx] as int], res.block_in@[k]));
                    }
                    let x = choose|x: L| #[trigger] t.ensures((k as usize, &res.block_in@[k]), x) && below(
                        x,
                        res.block_out@[k],
                    );
                    assert(tr.ensures((points@[k], &res.block_in@[k]), x));
                    assert(transfer.ensures((self.points()[k], &res.block_in@[k]), x));
                }
            } else {
                assert forall|k: int| 0 <= k < n implies #[trigger] point_settled_backward(
                    *self,
                    k,
                    seed_view(out_seed),
                    res.block_in@,
                    res.block_out@,
                    transfer,
                ) by {
                    assert(settled(k, succs@, seed_view(out_seed), res.block_out@, res.block_in@, t));
                    assert forall|s: usize| #[trigger] self.point_succs(k).contains(s) implies below(
                        res.block_in@[s as int],
                        res.block_out@[k],
                    ) by {
                        assert(succs@[k]@.to_set().contains(s));
                        let idx = choose|idx: int| 0 <= idx < succs@[k]@.len() && succs@[k]@[idx] == s;
                        assert(below(res.block_in@[succs@[k]@[idx] as int], res.block_out@[k]));
                    }
                    let x = choose|x: L| #[trigger] t.ensures((k as usize, &res.block_out@[k]), x) && below(
                        x,
                        res.block_in@[k],
                    );
                    assert(tr.ensures((points@[k], &res.block_out@[k]), x));
                    assert(transfer.ensures((self.points()[k], &res.block_out@[k]), x));
                }
            }
        }
        res
    }
}

} // verus!
