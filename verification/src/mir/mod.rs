//! The mid-level intermediate representation and its analyses.
use vstd::prelude::*;
use crate::common::{Span, Symbol};
use crate::hir::{self, Mutability};
use crate::ril::TypeRef;
use crate::thir;
use self::basic_block::{MIRBasicBlock, MIRTerminator};
use self::analysis::lattice::{bottoms, count_true, below, fixed_point_iter_with, lemma_below_transitive, settled, seed_at, seed_view, Direction, FixedPointIterRes, Lattice};
use crate::common::bitset::BitSet;

pub mod analysis;
pub mod basic_block;
pub mod builder;
pub mod concrete_ty;
pub mod display;
pub mod graphviz;
pub mod operand;
pub mod passes;
pub mod points;

verus! {

/// A local of a MIR body.
#[derive(Debug, Clone, Copy, PartialEq, Eq, Hash, Structural)]
pub struct LocalID(pub usize);

/// A basic block of a MIR body.
#[derive(Debug, Clone, Copy, PartialEq, Eq, Hash, Structural)]
pub struct BlockID(pub usize);

/// The blocks of a MIR body are numbered by [`BlockID`].
pub type MIRBlockID = BlockID;

/// The locals of a MIR body are numbered by [`LocalID`].
pub type MIRLocalID = LocalID;

/// Where in the source a local comes from.
#[derive(Debug, Clone, Copy, PartialEq, Eq, Structural)]
pub struct SyntacticSource {
    pub span: Span,
    pub id: hir::LocalId,
}

/// A local of a MIR body: its type and mutability, and where it comes from.
#[derive(Clone, Copy)]
pub struct MIRLocal {
    pub ty: TypeRef,
    pub mutability: Mutability,
    pub span: Span,
    pub name: Option<Symbol>,
    pub thir_src: Option<thir::LocalId>,
    pub syn_src: Option<SyntacticSource>,
}

impl MIRLocal {
    /// A local of the given type and mutability, with no name and no source.
    pub fn new(ty: TypeRef, mutability: Mutability, span: Span) -> (r: Self)
        ensures
            r == (MIRLocal { ty, mutability, span, name: None, thir_src: None, syn_src: None }),
    {
        MIRLocal { ty, mutability, span, name: None, thir_src: None, syn_src: None }
    }

    /// The same local, coming from `src` in the typed body.
    pub fn with_thir_src(self, src: thir::LocalId) -> (r: Self)
        ensures
            r == (MIRLocal { thir_src: Some(src), ..self }),
    {
        let mut this = self;
        this.thir_src = Some(src);
        this
    }

    /// The same local, named `name`.
    pub fn with_name(self, name: Symbol) -> (r: Self)
        ensures
            r == (MIRLocal { name: Some(name), ..self }),
    {
        let mut this = self;
        this.name = Some(name);
        this
    }

    /// The same local, written at `src` in the source.
    pub fn with_syn_src(self, src: SyntacticSource) -> (r: Self)
        ensures
            r == (MIRLocal { syn_src: Some(src), ..self }),
    {
        let mut this = self;
        this.syn_src = Some(src);
        this
    }
}

/// A MIR body: blocks and locals numbered by their position, the locals that
/// hold the parameters, and the entry block.
pub struct Mir {
    pub blocks: Vec<MIRBasicBlock>,
    pub locals: Vec<MIRLocal>,
    pub parameters: Vec<LocalID>,
    pub entry: BlockID,
}

/// The blocks a terminator may jump to.
pub open spec fn terminator_targets(t: MIRTerminator) -> Set<usize> {
    match t {
        MIRTerminator::Return { .. } => Set::empty(),
        MIRTerminator::Diverge => Set::empty(),
        MIRTerminator::Goto { next } => set![next.0],
        MIRTerminator::Call { next, .. } => set![next.0],
        MIRTerminator::Branch { then, else_, .. } => set![then.0, else_.0],
        MIRTerminator::Switch { branches, default, .. } => Set::new(
            |b: usize| exists|i: int| 0 <= i < branches@.len() && branches@[i].1.0 == b,
        ).insert(default.0),
    }
}

impl Mir {
    /// The blocks block `b` may jump to.
    pub open spec fn targets(self, b: int) -> Set<usize> {
        terminator_targets(self.blocks@[b].terminator)
    }

    /// Every switch keeps its branches in increasing order of their values.
    #[verifier::opaque]
    pub open spec fn switches_sorted(self) -> bool {
        forall|b: int| 0 <= b < self.blocks@.len() ==> (#[trigger] self.blocks@[b]).terminator.wf()
    }

    /// Whether every switch keeps its branches in increasing order of their
    /// values.
    pub fn has_sorted_switches(&self) -> (r: bool)
        ensures
            r == self.switches_sorted(),
    {
        let mut b: usize = 0;
        while b < self.blocks.len()
            invariant
                b <= self.blocks@.len(),
                forall|c: int| 0 <= c < b ==> (#[trigger] self.blocks@[c]).terminator.wf(),
            decreases self.blocks@.len() - b,
        {
            if !self.blocks[b].terminator.is_wf() {
                proof {
                    reveal(Mir::switches_sorted);
                }
                return false;
            }
            b += 1;
        }
        proof {
            reveal(Mir::switches_sorted);
        }
        true
    }

    /// Every jump and the entry name a block of the body.
    pub open spec fn jumps_within(self) -> bool {
        &&& self.entry.0 < self.blocks@.len()
        &&& forall|b: int, t: usize|
            0 <= b < self.blocks@.len() && #[trigger] self.targets(b).contains(t) ==> t
                < self.blocks@.len()
    }

    /// Every local the body mentions is one of its locals.
    pub open spec fn locals_within(self) -> bool {
        &&& forall|b: int|
            0 <= b < self.blocks@.len() ==> basic_block::block_all_locals_within(
                #[trigger] self.blocks@[b],
                self.locals@.len(),
            )
        &&& forall|i: int|
            0 <= i < self.parameters@.len() ==> (#[trigger] self.parameters@[i]).0
                < self.locals@.len()
    }

    /// `s` holds only blocks, and every block it holds jumps only into it.
    pub open spec fn closed_under_jumps(self, s: Set<nat>) -> bool {
        forall|b: nat|
            #[trigger] s.contains(b) ==> b < self.blocks@.len() && forall|t: usize|
                #[trigger] self.targets(b as int).contains(t) ==> s.contains(t as nat)
    }
}

/// The targets of a terminator, listed (possibly more than once).
fn targets_of(t: &MIRTerminator) -> (r: Vec<usize>)
    ensures
        r@.to_set() == terminator_targets(*t),
{
    let mut r: Vec<usize> = Vec::new();
    match t {
        MIRTerminator::Return { .. } | MIRTerminator::Diverge => {
            assert(r@.to_set() =~= terminator_targets(*t));
        },
        MIRTerminator::Goto { next } | MIRTerminator::Call { next, .. } => {
            r.push(next.0);
            proof {
                assert forall|b: usize| r@.to_set().contains(b) == terminator_targets(
                    *t,
                ).contains(b) by {
                    if b == next.0 {
                        assert(r@[0] == b);
                    }
                }
                assert(r@.to_set() =~= terminator_targets(*t));
            }
        },
        MIRTerminator::Branch { then, else_, .. } => {
            r.push(then.0);
            r.push(else_.0);
            proof {
                assert forall|b: usize| r@.to_set().contains(b) == terminator_targets(
                    *t,
                ).contains(b) by {
                    if b == then.0 {
                        assert(r@[0] == b);
                    }
                    if b == else_.0 {
                        assert(r@[1] == b);
                    }
                }
                assert(r@.to_set() =~= terminator_targets(*t));
            }
        },
        MIRTerminator::Switch { branches, default, .. } => {
            let mut i: usize = 0;
            while i < branches.len()
                invariant
                    i <= branches@.len(),
                    r@.len() == i,
                    forall|j: int| 0 <= j < i ==> r@[j] == branches@[j].1.0,
                decreases branches@.len() - i,
            {
                r.push(branches[i].1.0);
                i += 1;
            }
            r.push(default.0);
            proof {
                assert forall|b: usize| r@.to_set().contains(b) == terminator_targets(
                    *t,
                ).contains(b) by {
                    if r@.to_set().contains(b) {
                        let j = choose|j: int| 0 <= j < r@.len() && r@[j] == b;
                        if j < branches@.len() {
                            assert(branches@[j].1.0 == b);
                        }
                    }
                    if b != default.0 && terminator_targets(*t).contains(b) {
                        let j = choose|j: int| 0 <= j < branches@.len() && branches@[j].1.0 == b;
                        assert(r@[j] == b);
                    }
                    if b == default.0 {
                        assert(r@[r@.len() - 1] == b);
                    }
                }
                assert(r@.to_set() =~= terminator_targets(*t));
            }
        },
    }
    r
}

/// Adds `x` to a list without duplicates, unless it is there already.
fn push_unique(v: &mut Vec<usize>, x: usize)
    requires
        old(v)@.no_duplicates(),
    ensures
        final(v)@.no_duplicates(),
        final(v)@.to_set() == old(v)@.to_set().insert(x),
{
    let mut i: usize = 0;
    while i < v.len()
        invariant
            i <= v@.len(),
            v@ == old(v)@,
            v@.no_duplicates(),
            forall|j: int| 0 <= j < i ==> v@[j] != x,
        decreases v@.len() - i,
    {
        if v[i] == x {
            proof {
                assert(v@.to_set() =~= v@.to_set().insert(x));
            }
            return;
        }
        i += 1;
    }
    let ghost before = v@;
    v.push(x);
    proof {
        assert(v@.to_set() =~= before.to_set().insert(x)) by {
            assert forall|y: usize| v@.to_set().contains(y) implies before.to_set().insert(
                x,
            ).contains(y) by {
                let j = choose|j: int| 0 <= j < v@.len() && v@[j] == y;
                if j < before.len() {
                    assert(before[j] == y);
                }
            }
            assert forall|y: usize| before.to_set().insert(x).contains(y) implies v@.to_set().contains(
                y,
            ) by {
                if y == x {
                    assert(v@[before.len() as int] == x);
                } else {
                    let j = choose|j: int| 0 <= j < before.len() && before[j] == y;
                    assert(v@[j] == y);
                }
            }
        }
    }
}

impl Mir {
    /// For every block, the blocks it may jump to, each once.
    pub fn successors(&self) -> (r: Vec<Vec<usize>>)
        ensures
            r@.len() == self.blocks@.len(),
            forall|b: int| 0 <= b < r@.len() ==> #[trigger] r@[b]@.to_set() == self.targets(b),
            forall|b: int| 0 <= b < r@.len() ==> (#[trigger] r@[b])@.no_duplicates(),
    {
        let mut r: Vec<Vec<usize>> = Vec::new();
        let mut b: usize = 0;
        while b < self.blocks.len()
            invariant
                b <= self.blocks@.len(),
                r@.len() == b,
                forall|c: int| 0 <= c < b ==> #[trigger] r@[c]@.to_set() == self.targets(c),
                forall|c: int| 0 <= c < b ==> (#[trigger] r@[c])@.no_duplicates(),
            decreases self.blocks@.len() - b,
        {
            let all = targets_of(&self.blocks[b].terminator);
            let mut uniq: Vec<usize> = Vec::new();
            let mut i: usize = 0;
            while i < all.len()
                invariant
                    i <= all@.len(),
                    uniq@.no_duplicates(),
                    uniq@.to_set() == all@.take(i as int).to_set(),
                decreases all@.len() - i,
            {
                push_unique(&mut uniq, all[i]);
                proof {
                    assert(all@.take(i + 1) =~= all@.take(i as int).push(all@[i as int]));
                    all@.take(i as int).lemma_push_to_set_commute(all@[i as int]);
                }
                i += 1;
            }
            proof {
                assert(all@.take(all@.len() as int) =~= all@);
            }
            r.push(uniq);
            b += 1;
        }
        r
    }
}

/// Given the successors of every block, the predecessors of every block:
/// `p` is listed for `b` exactly when `b` is listed for `p`, each once.
pub fn predecessors_of(succs: &Vec<Vec<usize>>) -> (r: Vec<Vec<usize>>)
    requires
        forall|p: int, k: int|
            0 <= p < succs@.len() && 0 <= k < succs@[p]@.len() ==> (#[trigger] succs@[p]@[k])
                < succs@.len(),
    ensures
        r@.len() == succs@.len(),
        forall|b: int| 0 <= b < r@.len() ==> (#[trigger] r@[b])@.no_duplicates(),
        forall|b: int, k: int|
            0 <= b < r@.len() && 0 <= k < r@[b]@.len() ==> (#[trigger] r@[b]@[k]) < succs@.len(),
        forall|b: int, p: int|
            #![trigger r@[b]@.contains(p as usize)]
            #![trigger succs@[p]@.contains(b as usize)]
            0 <= b < r@.len() && 0 <= p < succs@.len() ==> (r@[b]@.contains(p as usize)
                <==> succs@[p]@.contains(b as usize)),
{
    let n = succs.len();
    let mut r: Vec<Vec<usize>> = Vec::new();
    let mut i: usize = 0;
    while i < n
        invariant
            i <= n,
            r@.len() == i,
            forall|b: int| 0 <= b < i ==> (#[trigger] r@[b])@.len() == 0,
        decreases n - i,
    {
        r.push(Vec::new());
        i += 1;
    }
    let mut p: usize = 0;
    while p < n
        invariant
            n == succs@.len(),
            p <= n,
            r@.len() == n,
            forall|q: int, k: int|
                0 <= q < n && 0 <= k < succs@[q]@.len() ==> (#[trigger] succs@[q]@[k]) < n,
            forall|b: int| 0 <= b < n ==> (#[trigger] r@[b])@.no_duplicates(),
            forall|b: int, j: int| 0 <= b < n && 0 <= j < r@[b]@.len() ==> (#[trigger] r@[b]@[j]) < n,
            forall|b: int, q: int|
                #![trigger r@[b]@.contains(q as usize)]
                0 <= b < n && 0 <= q < n ==> (r@[b]@.contains(q as usize) <==> (q < p
                    && succs@[q]@.contains(b as usize))),
        decreases n - p,
    {
        let ss = &succs[p];
        let mut k: usize = 0;
        while k < ss.len()
            invariant
                n == succs@.len(),
                p < n,
                ss == succs@[p as int],
                k <= ss@.len(),
                r@.len() == n,
                forall|q: int, j: int|
                    0 <= q < n && 0 <= j < succs@[q]@.len() ==> (#[trigger] succs@[q]@[j]) < n,
                forall|b: int| 0 <= b < n ==> (#[trigger] r@[b])@.no_duplicates(),
                forall|b: int, j: int| 0 <= b < n && 0 <= j < r@[b]@.len() ==> (#[trigger] r@[b]@[j]) < n,
                forall|b: int, q: int|
                    #![trigger r@[b]@.contains(q as usize)]
                    0 <= b < n && 0 <= q < n ==> (r@[b]@.contains(q as usize) <==> ((q < p
                        && succs@[q]@.contains(b as usize)) || (q == p && ss@.take(
                        k as int,
                    ).contains(b as usize)))),
            decreases ss@.len() - k,
        {
            let s = ss[k];
            assert(s < n);
            let ghost r0 = r@;
            let mut list: Vec<usize> = Vec::new();
            std::mem::swap(&mut list, &mut r[s]);
            proof {
                assert(list@ == r0[s as int]@);
            }
            push_unique(&mut list, p);
            proof {
                assert forall|j: int| 0 <= j < list@.len() implies (#[trigger] list@[j]) < n by {
                    assert(list@.to_set().contains(list@[j]));
                    if list@[j] != p {
                        assert(r0[s as int]@.to_set().contains(list@[j]));
                        let i = choose|i: int| 0 <= i < r0[s as int]@.len() && r0[s as int]@[i] == list@[j];
                        assert(r0[s as int]@[i] < n);
                    }
                }
            }
            r.set(s, list);
            proof {
                assert forall|b: int, q: int| 0 <= b < n && 0 <= q < n implies (
                #[trigger] r@[b]@.contains(q as usize) <==> ((q < p && succs@[q]@.contains(
                    b as usize,
                )) || (q == p && ss@.take(k + 1).contains(b as usize)))) by {
                    assert(ss@.take(k + 1) =~= ss@.take(k as int).push(s));
                    assert(ss@.take(k + 1)[k as int] == s);
                    let longer = ss@.take(k + 1);
                    let shorter = ss@.take(k as int);
                    assert(longer.contains(b as usize) <==> (shorter.contains(b as usize) || b
                        == s)) by {
                        if longer.contains(b as usize) && b != s {
                            let i = choose|i: int| 0 <= i < longer.len() && #[trigger] longer[i]
                                == b as usize;
                            assert(shorter[i] == b as usize);
                        }
                        if shorter.contains(b as usize) {
                            let i = choose|i: int| 0 <= i < shorter.len() && #[trigger] shorter[i]
                                == b as usize;
                            assert(longer[i] == b as usize);
                        }
                    }
                    assert(r0[b]@.contains(q as usize) <==> ((q < p && succs@[q]@.contains(
                        b as usize,
                    )) || (q == p && ss@.take(k as int).contains(b as usize))));
                    if b == s {
                        assert(r@[b]@.to_set() == r0[b]@.to_set().insert(p));
                        assert(r@[b]@.contains(q as usize) == r@[b]@.to_set().contains(
                            q as usize,
                        ));
                        assert(r0[b]@.contains(q as usize) == r0[b]@.to_set().contains(
                            q as usize,
                        ));
                    } else {
                        assert(r@[b] == r0[b]);
                    }
                }
            }
            k += 1;
        }
        proof {
            assert(ss@.take(ss@.len() as int) =~= ss@);
        }
        p += 1;
    }
    r
}

impl Mir {
    /// The blocks reachable from `from`, `from` included.
    pub fn compute_reachable(&self, from: BlockID) -> (r: BitSet)
        requires
            self.jumps_within(),
            from.0 < self.blocks@.len(),
        ensures
            r.capacity() == self.blocks@.len(),
            r.members().contains(from.0 as nat),
            self.closed_under_jumps(r.members()),
            forall|s: Set<nat>|
                self.closed_under_jumps(s) && s.contains(from.0 as nat) ==> r.members().subset_of(
                    s,
                ),
    {
        let n = self.blocks.len();
        let mut visited: Vec<bool> = Vec::new();
        let mut i: usize = 0;
        while i < n
            invariant
                i <= n,
                visited@.len() == i,
                forall|j: int| 0 <= j < i ==> !visited@[j],
            decreases n - i,
        {
            visited.push(false);
            i += 1;
        }
        proof {
            lemma_count_set(visited@, from.0 as int, true);
        }
        visited.set(from.0, true);
        let mut stack: Vec<usize> = Vec::new();
        stack.push(from.0);
        proof {
            lemma_count_bound(visited@);
            assert(stack@[0] == from.0);
            assert(stack@.contains(from.0));
            assert forall|v: int| 0 <= v < n && visited@[v] implies v == from.0 as int by {
            }
        }
        while stack.len() > 0
            invariant
                n == self.blocks@.len(),
                self.jumps_within(),
                visited@.len() == n,
                from.0 < n,
                visited@[from.0 as int],
                count_true(visited@) <= n,
                stack@.no_duplicates(),
                forall|j: int| 0 <= j < stack@.len() ==> (#[trigger] stack@[j]) < n && visited@[stack@[j] as int],
                forall|v: int, t: usize|
                    0 <= v < n && visited@[v] && !stack@.contains(v as usize) && #[trigger] self.targets(v).contains(t)
                        ==> visited@[t as int],
                forall|s: Set<nat>, v: int|
                    #![trigger self.closed_under_jumps(s), visited@[v]]
                    self.closed_under_jumps(s) && s.contains(from.0 as nat) && 0 <= v < n
                        && visited@[v] ==> s.contains(v as nat),
            decreases n - count_true(visited@), stack@.len(),
        {
            let ghost old_stack = stack@;
            let b = stack.pop().unwrap();
            let ghost popped_stack = stack@;
            let ghost count0 = count_true(visited@);
            proof {
                assert(old_stack == popped_stack.push(b));
                assert(old_stack[old_stack.len() - 1] == b);
                assert(!popped_stack.contains(b)) by {
                    if popped_stack.contains(b) {
                        let j = choose|j: int| 0 <= j < popped_stack.len() && popped_stack[j] == b;
                        assert(old_stack[j] == old_stack[old_stack.len() - 1]);
                    }
                }
                assert forall|v: int|
                    0 <= v < n && v != b && !(#[trigger] popped_stack.contains(v as usize))
                        implies !old_stack.contains(v as usize) by {
                    if old_stack.contains(v as usize) {
                        let j = choose|j: int| 0 <= j < old_stack.len() && old_stack[j] == v as usize;
                        if j < popped_stack.len() {
                            assert(popped_stack[j] == v as usize);
                        }
                    }
                }
            }
            let ts = targets_of(&self.blocks[b].terminator);
            proof {
                assert(b < n);
                assert forall|j: int| 0 <= j < ts@.len() implies (#[trigger] ts@[j]) < n by {
                    assert(ts@.to_set().contains(ts@[j]));
                    assert(self.targets(b as int).contains(ts@[j]));
                }
            }
            let mut k: usize = 0;
            while k < ts.len()
                invariant
                    n == self.blocks@.len(),
                    self.jumps_within(),
                    b < n,
                    visited@[b as int],
                    ts@.to_set() == self.targets(b as int),
                    forall|j: int| 0 <= j < ts@.len() ==> (#[trigger] ts@[j]) < n,
                    from.0 < n,
                    k <= ts@.len(),
                    visited@.len() == n,
                    visited@[from.0 as int],
                    count_true(visited@) <= n,
                    stack@.no_duplicates(),
                    !stack@.contains(b),
                    forall|j: int| 0 <= j < stack@.len() ==> (#[trigger] stack@[j]) < n && visited@[stack@[j] as int],
                    forall|j: int| 0 <= j < k ==> visited@[#[trigger] ts@[j] as int],
                    forall|v: int, t: usize|
                        0 <= v < n && v != b && visited@[v] && !stack@.contains(v as usize)
                            && #[trigger] self.targets(v).contains(t) ==> visited@[t as int],
                    forall|s: Set<nat>, v: int|
                        #![trigger self.closed_under_jumps(s), visited@[v]]
                        self.closed_under_jumps(s) && s.contains(from.0 as nat) && 0 <= v < n
                            && visited@[v] ==> s.contains(v as nat),
                    count_true(visited@) == count0 + (stack@.len() - popped_stack.len()),
                    stack@.len() >= popped_stack.len(),
                decreases ts@.len() - k,
            {
                let t = ts[k];
                proof {
                    assert(ts@.to_set().contains(t));
                    assert(self.targets(b as int).contains(t));
                }
                if !visited[t] {
                    proof {
                        lemma_count_set(visited@, t as int, true);
                        assert forall|s: Set<nat>|
                            self.closed_under_jumps(s) && s.contains(from.0 as nat) implies s.contains(
                            t as nat,
                        ) by {
                            assert(visited@[b as int]);
                            assert(s.contains(b as nat));
                        }
                    }
                    let ghost stack_before = stack@;
                    let ghost visited_before = visited@;
                    visited.set(t, true);
                    stack.push(t);
                    proof {
                        lemma_count_bound(visited@);
                        assert forall|v: int|
                            0 <= v < n && !(#[trigger] stack@.contains(v as usize)) implies !stack_before.contains(
                            v as usize,
                        ) by {
                            if stack_before.contains(v as usize) {
                                let j = choose|j: int|
                                    0 <= j < stack_before.len() && stack_before[j] == v as usize;
                                assert(stack@[j] == v as usize);
                            }
                        }
                        assert(stack@[stack@.len() - 1] == t);
                        assert(stack@.contains(t));
                    }
                }
                k += 1;
            }
            proof {
                assert forall|v: int, t: usize|
                    0 <= v < n && visited@[v] && !stack@.contains(v as usize)
                        && #[trigger] self.targets(v).contains(t) implies visited@[t as int] by {
                    if v == b as int {
                        let j = choose|j: int| 0 <= j < ts@.len() && ts@[j] == t;
                        assert(visited@[ts@[j] as int]);
                    }
                }
            }
        }
        let mut r = BitSet::new(n);
        let mut i: usize = 0;
        while i < n
            invariant
                i <= n,
                n == self.blocks@.len(),
                visited@.len() == n,
                r.capacity() == n,
                forall|v: nat| r.members().contains(v) <==> (v < i && visited@[v as int]),
            decreases n - i,
        {
            if visited[i] {
                r.insert(i);
            }
            i += 1;
        }
        proof {
            assert(r.members().contains(from.0 as nat));
            assert forall|v: nat| #[trigger] r.members().contains(v) implies v < n && forall|t: usize|
                #[trigger] self.targets(v as int).contains(t) ==> r.members().contains(t as nat) by {
                assert forall|t: usize| #[trigger] self.targets(v as int).contains(t) implies r.members().contains(
                    t as nat,
                ) by {
                    assert(!stack@.contains(v as usize));
                }
            }
            assert forall|s: Set<nat>|
                self.closed_under_jumps(s) && s.contains(from.0 as nat) implies r.members().subset_of(
                s,
            ) by {
                assert forall|v: nat| r.members().contains(v) implies s.contains(v) by {
                    assert(visited@[v as int]);
                }
            }
        }
        r
    }
}

/// Setting a flag raises the count of set flags by one if it was clear.
pub proof fn lemma_count_set(s: Seq<bool>, i: int, v: bool)
    requires
        0 <= i < s.len(),
    ensures
        count_true(s.update(i, v)) + (if s[i] { 1int } else { 0int }) == count_true(s) + (if v {
            1int
        } else {
            0int
        }),
        count_true(s) <= s.len(),
    decreases s.len(),
{
    let t = s.update(i, v);
    if i == s.len() - 1 {
        assert(t.drop_last() =~= s.drop_last());
        lemma_count_bound(s.drop_last());
    } else {
        assert(t.drop_last() =~= s.drop_last().update(i, v));
        lemma_count_set(s.drop_last(), i, v);
    }
}

/// At most every flag is set.
pub proof fn lemma_count_bound(s: Seq<bool>)
    ensures
        count_true(s) <= s.len(),
    decreases s.len(),
{
    if s.len() > 0 {
        lemma_count_bound(s.drop_last());
    }
}

/// Forward facts settled over the body: the entry fact of every block is
/// above the exit fact of every block that jumps to it and above its seed,
/// and its exit fact above what `transfer` gives for its entry fact.
pub open spec fn settled_forward<L: Lattice, F: Fn(usize, &L) -> L>(
    mir: Mir,
    b: int,
    seed: Option<Seq<Option<L>>>,
    block_in: Seq<L>,
    block_out: Seq<L>,
    transfer: F,
) -> bool {
    &&& forall|p: int|
        0 <= p < mir.blocks@.len() && #[trigger] mir.targets(p).contains(b as usize) ==> below(
            block_out[p],
            block_in[b],
        )
    &&& (seed_at(seed, b) matches Some(v) ==> below(v, block_in[b]))
    &&& exists|t: L| #[trigger] transfer.ensures((b as usize, &block_in[b]), t) && below(t, block_out[b])
}

/// Backward facts settled over the body: the exit fact of every block is
/// above the entry fact of every block it jumps to and above its seed, and
/// A property of the entry facts (`inv_in`) and of the exit facts
/// (`inv_out`) of a body's blocks that every step of the fixed-point
/// iteration keeps: bottom has it; joins keep it; forward, the exit fact of
/// a block passes it to the entry of every block it jumps to, the entry
/// seeds have it, and the transfer function takes it from entry to exit;
/// backward, the same with entry and exit exchanged.
pub open spec fn mir_keeps<L: Lattice, F: Fn(usize, &L) -> L>(
    mir: Mir,
    direction: Direction,
    transfer: F,
    in_seed: Option<Seq<Option<L>>>,
    out_seed: Option<Seq<Option<L>>>,
    inv_in: spec_fn(int, L) -> bool,
    inv_out: spec_fn(int, L) -> bool,
) -> bool {
    let n = mir.blocks@.len();
    &&& forall|b: int| 0 <= b < n ==> #[trigger] inv_in(b, L::spec_bottom())
    &&& forall|b: int| 0 <= b < n ==> #[trigger] inv_out(b, L::spec_bottom())
    &&& forall|b: int, x: L, y: L| 0 <= b < n && inv_in(b, x) && inv_in(b, y) ==> #[trigger] inv_in(b, x.spec_join(y))
    &&& forall|b: int, x: L, y: L|
        0 <= b < n && inv_out(b, x) && inv_out(b, y) ==> #[trigger] inv_out(b, x.spec_join(y))
    &&& direction == Direction::Forward ==> {
        &&& forall|p: int, b: usize, x: L|
            0 <= p < n && #[trigger] mir.targets(p).contains(b) && #[trigger] inv_out(p, x) ==> inv_in(b as int, x)
        &&& forall|b: int| 0 <= b < n ==> (#[trigger] seed_at(in_seed, b) matches Some(v) ==> inv_in(b, v))
        &&& forall|b: usize, x: L, t: L|
            b < n && inv_in(b as int, x) && #[trigger] transfer.ensures((b, &x), t) ==> inv_out(b as int, t)
    }
    &&& direction == Direction::Backward ==> {
        &&& forall|b: int, s: usize, x: L|
            0 <= b < n && #[trigger] mir.targets(b).contains(s) && #[trigger] inv_in(s as int, x) ==> inv_out(b, x)
        &&& forall|b: int| 0 <= b < n ==> (#[trigger] seed_at(out_seed, b) matches Some(v) ==> inv_out(b, v))
        &&& forall|b: usize, x: L, t: L|
            b < n && inv_out(b as int, x) && #[trigger] transfer.ensures((b, &x), t) ==> inv_in(b as int, t)
    }
}

/// its entry fact above what `transfer` gives for its exit fact.
pub open spec fn settled_backward<L: Lattice, F: Fn(usize, &L) -> L>(
    mir: Mir,
    b: int,
    seed: Option<Seq<Option<L>>>,
    block_in: Seq<L>,
    block_out: Seq<L>,
    transfer: F,
) -> bool {
    &&& forall|s: usize|
        #[trigger] mir.targets(b).contains(s) ==> below(block_in[s as int], block_out[b])
    &&& (seed_at(seed, b) matches Some(v) ==> below(v, block_out[b]))
    &&& exists|t: L| #[trigger] transfer.ensures((b as usize, &block_out[b]), t) && below(t, block_in[b])
}

/// Entry facts `si` and exit facts `so`, one per block, settled at every
/// block of the body in `direction`: a solution of the analysis.
pub open spec fn is_solution<L: Lattice, F: Fn(usize, &L) -> L>(
    mir: Mir,
    direction: Direction,
    transfer: F,
    in_seed: Option<Seq<Option<L>>>,
    out_seed: Option<Seq<Option<L>>>,
    si: Seq<L>,
    so: Seq<L>,
) -> bool {
    &&& si.len() == mir.blocks@.len()
    &&& so.len() == mir.blocks@.len()
    &&& direction == Direction::Forward ==> forall|b: int|
        0 <= b < mir.blocks@.len() ==> #[trigger] settled_forward(mir, b, in_seed, si, so, transfer)
    &&& direction == Direction::Backward ==> forall|b: int|
        0 <= b < mir.blocks@.len() ==> #[trigger] settled_backward(mir, b, out_seed, si, so, transfer)
}

/// `transfer` keeps the order of facts: from a fact below another it gives
/// a result below what it gives from the other.
pub open spec fn transfer_monotone<L: Lattice, F: Fn(usize, &L) -> L>(transfer: F, n: nat) -> bool {
    forall|b: usize, x: L, y: L, t: L, u: L|
        b < n && below(x, y) && #[trigger] transfer.ensures((b, &x), t) && #[trigger] transfer.ensures((b, &y), u)
            ==> below(t, u)
}

/// The bottom value is below every value.
pub open spec fn bottom_least<L: Lattice>() -> bool {
    forall|x: L| #[trigger] L::spec_bottom().spec_join(x) == x
}

/// When bottom is least and `transfer` keeps the order, `x` is below the
/// entry fact (`entry`) or the exit fact of block `b` in every solution.
pub open spec fn below_solutions<L: Lattice, F: Fn(usize, &L) -> L>(
    mir: Mir,
    direction: Direction,
    transfer: F,
    in_seed: Option<Seq<Option<L>>>,
    out_seed: Option<Seq<Option<L>>>,
    entry: bool,
    b: int,
    x: L,
) -> bool {
    bottom_least::<L>() && transfer_monotone::<L, F>(transfer, mir.blocks@.len()) ==> forall|si: Seq<L>, so: Seq<L>|
        #[trigger] is_solution(mir, direction, transfer, in_seed, out_seed, si, so) ==> below(
            x,
            if entry {
                si[b]
            } else {
                so[b]
            },
        )
}

/// Two values below a third have their join below it.
proof fn lemma_join_below<L: Lattice>(x: L, y: L, s: L)
    requires
        below(x, s),
        below(y, s),
    ensures
        below(x.spec_join(y), s),
{
    L::lemma_join_associative(x, y, s);
}

/// Being below every solution is kept by every step of the iteration.
proof fn lemma_below_solutions_kept<L: Lattice, F: Fn(usize, &L) -> L>(
    mir: Mir,
    direction: Direction,
    transfer: F,
    in_seed: Option<Seq<Option<L>>>,
    out_seed: Option<Seq<Option<L>>>,
)
    requires
        mir.jumps_within(),
    ensures
        mir_keeps(
            mir,
            direction,
            transfer,
            in_seed,
            out_seed,
            |b: int, x: L| below_solutions(mir, direction, transfer, in_seed, out_seed, true, b, x),
            |b: int, x: L| below_solutions(mir, direction, transfer, in_seed, out_seed, false, b, x),
        ),
{
    let n = mir.blocks@.len();
    let inv_in = |b: int, x: L| below_solutions(mir, direction, transfer, in_seed, out_seed, true, b, x);
    let inv_out = |b: int, x: L| below_solutions(mir, direction, transfer, in_seed, out_seed, false, b, x);
    let h = bottom_least::<L>() && transfer_monotone::<L, F>(transfer, n);
    assert forall|b: int, e: bool| 0 <= b < n implies #[trigger] below_solutions(
        mir,
        direction,
        transfer,
        in_seed,
        out_seed,
        e,
        b,
        L::spec_bottom(),
    ) by {
        if h {
            assert forall|si: Seq<L>, so: Seq<L>| #[trigger] is_solution(
                mir,
                direction,
                transfer,
                in_seed,
                out_seed,
                si,
                so,
            ) implies below(L::spec_bottom(), if e { si[b] } else { so[b] }) by {
                let v = if e { si[b] } else { so[b] };
                assert(L::spec_bottom().spec_join(v) == v);
            }
        }
    }
    assert(forall|b: int| 0 <= b < n ==> #[trigger] inv_in(b, L::spec_bottom())) by {
        assert forall|b: int| 0 <= b < n implies #[trigger] inv_in(b, L::spec_bottom()) by {
            assert(below_solutions(mir, direction, transfer, in_seed, out_seed, true, b, L::spec_bottom()));
        }
    }
    assert(forall|b: int| 0 <= b < n ==> #[trigger] inv_out(b, L::spec_bottom())) by {
        assert forall|b: int| 0 <= b < n implies #[trigger] inv_out(b, L::spec_bottom()) by {
            assert(below_solutions(mir, direction, transfer, in_seed, out_seed, false, b, L::spec_bottom()));
        }
    }
    assert forall|b: int, e: bool, x: L, y: L|
        0 <= b < n && below_solutions(mir, direction, transfer, in_seed, out_seed, e, b, x) && below_solutions(
            mir,
            direction,
            transfer,
            in_seed,
            out_seed,
            e,
            b,
            y,
        ) implies #[trigger] below_solutions(mir, direction, transfer, in_seed, out_seed, e, b, x.spec_join(y)) by {
        if h {
            assert forall|si: Seq<L>, so: Seq<L>| #[trigger] is_solution(
                mir,
                direction,
                transfer,
                in_seed,
                out_seed,
                si,
                so,
            ) implies below(x.spec_join(y), if e { si[b] } else { so[b] }) by {
                lemma_join_below(x, y, if e { si[b] } else { so[b] });
            }
        }
    }
    assert forall|b: int, x: L, y: L| 0 <= b < n && inv_in(b, x) && inv_in(b, y) implies #[trigger] inv_in(
        b,
        x.spec_join(y),
    ) by {
        assert(below_solutions(mir, direction, transfer, in_seed, out_seed, true, b, x.spec_join(y)));
    }
    assert forall|b: int, x: L, y: L| 0 <= b < n && inv_out(b, x) && inv_out(b, y) implies #[trigger] inv_out(
        b,
        x.spec_join(y),
    ) by {
        assert(below_solutions(mir, direction, transfer, in_seed, out_seed, false, b, x.spec_join(y)));
    }
    if direction == Direction::Forward {
        assert forall|p: int, b: usize, x: L|
            0 <= p < n && #[trigger] mir.targets(p).contains(b) && #[trigger] inv_out(p, x) implies inv_in(
            b as int,
            x,
        ) by {
            if h {
                assert forall|si: Seq<L>, so: Seq<L>| #[trigger] is_solution(
                    mir,
                    direction,
                    transfer,
                    in_seed,
                    out_seed,
                    si,
                    so,
                ) implies below(x, si[b as int]) by {
                    assert(below(x, so[p]));
                    assert(settled_forward(mir, b as int, in_seed, si, so, transfer));
                    lemma_below_transitive(x, so[p], si[b as int]);
                }
            }
        }
        assert forall|b: int| 0 <= b < n implies (#[trigger] seed_at(in_seed, b) matches Some(v) ==> inv_in(b, v)) by {
            if let Some(v) = seed_at(in_seed, b) {
                if h {
                    assert forall|si: Seq<L>, so: Seq<L>| #[trigger] is_solution(
                        mir,
                        direction,
                        transfer,
                        in_seed,
                        out_seed,
                        si,
                        so,
                    ) implies below(v, si[b]) by {
                        assert(settled_forward(mir, b, in_seed, si, so, transfer));
                    }
                }
            }
        }
        assert forall|b: usize, x: L, t: L|
            b < n && inv_in(b as int, x) && #[trigger] transfer.ensures((b, &x), t) implies inv_out(b as int, t) by {
            if h {
                assert forall|si: Seq<L>, so: Seq<L>| #[trigger] is_solution(
                    mir,
                    direction,
                    transfer,
                    in_seed,
                    out_seed,
                    si,
                    so,
                ) implies below(t, so[b as int]) by {
                    assert(below(x, si[b as int]));
                    assert(settled_forward(mir, b as int, in_seed, si, so, transfer));
                    let t0 = choose|t0: L| #[trigger] transfer.ensures((b, &si[b as int]), t0) && below(
                        t0,
                        so[b as int],
                    );
                    assert(below(t, t0));
                    lemma_below_transitive(t, t0, so[b as int]);
                }
            }
        }
    } else {
        assert forall|b: int, s: usize, x: L|
            0 <= b < n && #[trigger] mir.targets(b).contains(s) && #[trigger] inv_in(s as int, x) implies inv_out(
            b,
            x,
        ) by {
            if h {
                assert forall|si: Seq<L>, so: Seq<L>| #[trigger] is_solution(
                    mir,
                    direction,
                    transfer,
                    in_seed,
                    out_seed,
                    si,
                    so,
                ) implies below(x, so[b]) by {
                    assert(below(x, si[s as int]));
                    assert(settled_backward(mir, b, out_seed, si, so, transfer));
                    lemma_below_transitive(x, si[s as int], so[b]);
                }
            }
        }
        assert forall|b: int| 0 <= b < n implies (#[trigger] seed_at(out_seed, b) matches Some(v) ==> inv_out(b, v)) by {
            if let Some(v) = seed_at(out_seed, b) {
                if h {
                    assert forall|si: Seq<L>, so: Seq<L>| #[trigger] is_solution(
                        mir,
                        direction,
                        transfer,
                        in_seed,
                        out_seed,
                        si,
                        so,
                    ) implies below(v, so[b]) by {
                        assert(settled_backward(mir, b, out_seed, si, so, transfer));
                    }
                }
            }
        }
        assert forall|b: usize, x: L, t: L|
            b < n && inv_out(b as int, x) && #[trigger] transfer.ensures((b, &x), t) implies inv_in(b as int, t) by {
            if h {
                assert forall|si: Seq<L>, so: Seq<L>| #[trigger] is_solution(
                    mir,
                    direction,
                    transfer,
                    in_seed,
                    out_seed,
                    si,
                    so,
                ) implies below(t, si[b as int]) by {
                    assert(below(x, so[b as int]));
                    assert(settled_backward(mir, b as int, out_seed, si, so, transfer));
                    let t0 = choose|t0: L| #[trigger] transfer.ensures((b, &so[b as int]), t0) && below(
                        t0,
                        si[b as int],
                    );
                    assert(below(t, t0));
                    lemma_below_transitive(t, t0, si[b as int]);
                }
            }
        }
    }
}

impl Mir {
    /// For every block, the blocks that may jump to it, each once.
    pub fn predecessors(&self) -> (r: Vec<Vec<usize>>)
        requires
            self.jumps_within(),
        ensures
            r@.len() == self.blocks@.len(),
            forall|b: int, p: int|
                #![trigger r@[b]@.contains(p as usize)]
                0 <= b < r@.len() && 0 <= p < r@.len() ==> (r@[b]@.contains(p as usize)
                    <==> self.targets(p).contains(b as usize)),
    {
        let succs = self.successors();
        proof {
            assert forall|p: int, k: int|
                0 <= p < succs@.len() && 0 <= k < succs@[p]@.len() implies (
                #[trigger] succs@[p]@[k]) < succs@.len() by {
                assert(succs@[p]@.to_set().contains(succs@[p]@[k]));
                assert(self.targets(p).contains(succs@[p]@[k]));
            }
        }
        let r = predecessors_of(&succs);
        proof {
            assert forall|b: int, p: int| 0 <= b < r@.len() && 0 <= p < r@.len() implies (
            #[trigger] r@[b]@.contains(p as usize) <==> self.targets(p).contains(b as usize)) by {
                assert(succs@[p]@.contains(b as usize) <==> succs@[p]@.to_set().contains(
                    b as usize,
                ));
            }
        }
        r
    }

    /// The bottom fact for each block, in block order.
    pub fn get_block_bottoms<L: Lattice>(&self) -> (r: Vec<L>)
        ensures
            r@.len() == self.blocks@.len(),
            forall|b: int| 0 <= b < r@.len() ==> #[trigger] r@[b] == L::spec_bottom(),
    {
        bottoms(self.blocks.len())
    }

    /// Runs a data-flow analysis over the body to a fixed point, as
    /// [`fixed_point_iter`] does over the body's jumps.
    pub fn fixed_point_iter<L: Lattice, F: Fn(usize, &L) -> L>(
        &self,
        direction: Direction,
        transfer: F,
        in_seed: Option<&Vec<Option<L>>>,
        out_seed: Option<&Vec<Option<L>>>,
    ) -> (r: FixedPointIterRes<L>)
        requires
            self.jumps_within(),
            in_seed matches Some(s) ==> s@.len() == self.blocks@.len(),
            out_seed matches Some(s) ==> s@.len() == self.blocks@.len(),
            forall|b: usize, l: &L| b < self.blocks@.len() ==> #[trigger] transfer.requires((b, l)),
        ensures
            r.block_in@.len() == self.blocks@.len(),
            r.block_out@.len() == self.blocks@.len(),
            direction == Direction::Forward ==> forall|b: int|
                0 <= b < self.blocks@.len() ==> #[trigger] settled_forward(
                    *self,
                    b,
                    seed_view(in_seed),
                    r.block_in@,
                    r.block_out@,
                    transfer,
                ),
            direction == Direction::Backward ==> forall|b: int|
                0 <= b < self.blocks@.len() ==> #[trigger] settled_backward(
                    *self,
                    b,
                    seed_view(out_seed),
                    r.block_in@,
                    r.block_out@,
                    transfer,
                ),
            bottom_least::<L>() && transfer_monotone::<L, F>(transfer, self.blocks@.len()) ==> forall|
                si: Seq<L>,
                so: Seq<L>,
            |
                #[trigger] is_solution(*self, direction, transfer, seed_view(in_seed), seed_view(out_seed), si, so)
                    ==> forall|b: int|
                    0 <= b < self.blocks@.len() ==> below(#[trigger] r.block_in@[b], si[b]) && below(
                        r.block_out@[b],
                        so[b],
                    ),
    {
        let ghost inv_in = |b: int, x: L|
            below_solutions(*self, direction, transfer, seed_view(in_seed), seed_view(out_seed), true, b, x);
        let ghost inv_out = |b: int, x: L|
            below_solutions(*self, direction, transfer, seed_view(in_seed), seed_view(out_seed), false, b, x);
        proof {
            lemma_below_solutions_kept(*self, direction, transfer, seed_view(in_seed), seed_view(out_seed));
        }
        let r = self.fixed_point_iter_with(direction, transfer, in_seed, out_seed, Ghost(inv_in), Ghost(inv_out));
        proof {
            assert forall|b: int| 0 <= b < self.blocks@.len() implies below_solutions(
                *self,
                direction,
                transfer,
                seed_view(in_seed),
                seed_view(out_seed),
                true,
                b,
                r.block_in@[b],
            ) && below_solutions(
                *self,
                direction,
                transfer,
                seed_view(in_seed),
                seed_view(out_seed),
                false,
                b,
                r.block_out@[b],
            ) by {
                assert(inv_in(b, r.block_in@[b]));
                assert(inv_out(b, r.block_out@[b]));
            }
        }
        r
    }

    /// Runs a data-flow analysis over the body to a fixed point, as
    /// [`fixed_point_iter`] does over the body's jumps, keeping a property of
    /// the entry facts (`inv_in`) and of the exit facts (`inv_out`) that
    /// every step keeps.
    pub fn fixed_point_iter_with<L: Lattice, F: Fn(usize, &L) -> L>(
        &self,
        direction: Direction,
        transfer: F,
        in_seed: Option<&Vec<Option<L>>>,
        out_seed: Option<&Vec<Option<L>>>,
        Ghost(inv_in): Ghost<spec_fn(int, L) -> bool>,
        Ghost(inv_out): Ghost<spec_fn(int, L) -> bool>,
    ) -> (r: FixedPointIterRes<L>)
        requires
            self.jumps_within(),
            in_seed matches Some(s) ==> s@.len() == self.blocks@.len(),
            out_seed matches Some(s) ==> s@.len() == self.blocks@.len(),
            forall|b: usize, l: &L| b < self.blocks@.len() ==> #[trigger] transfer.requires((b, l)),
            mir_keeps(*self, direction, transfer, seed_view(in_seed), seed_view(out_seed), inv_in, inv_out),
        ensures
            r.block_in@.len() == self.blocks@.len(),
            r.block_out@.len() == self.blocks@.len(),
            direction == Direction::Forward ==> forall|b: int|
                0 <= b < self.blocks@.len() ==> #[trigger] settled_forward(
                    *self,
                    b,
                    seed_view(in_seed),
                    r.block_in@,
                    r.block_out@,
                    transfer,
                ),
            direction == Direction::Backward ==> forall|b: int|
                0 <= b < self.blocks@.len() ==> #[trigger] settled_backward(
                    *self,
                    b,
                    seed_view(out_seed),
                    r.block_in@,
                    r.block_out@,
                    transfer,
                ),
            forall|b: int| 0 <= b < self.blocks@.len() ==> #[trigger] inv_in(b, r.block_in@[b]),
            forall|b: int| 0 <= b < self.blocks@.len() ==> #[trigger] inv_out(b, r.block_out@[b]),
    {
        let n = self.blocks.len();
        let succs = self.successors();
        proof {
            assert forall|p: int, k: int|
                0 <= p < succs@.len() && 0 <= k < succs@[p]@.len() implies (
                #[trigger] succs@[p]@[k]) < succs@.len() by {
                assert(succs@[p]@.to_set().contains(succs@[p]@[k]));
                assert(self.targets(p).contains(succs@[p]@[k]));
            }
        }
        let preds = predecessors_of(&succs);
        proof {
            if direction == Direction::Forward {
                assert forall|b: int, k: int, x: L|
                    0 <= b < n && 0 <= k < preds@[b]@.len() && #[trigger] inv_out(
                        preds@[b]@[k] as int,
                        x,
                    ) implies inv_in(b, x) by {
                    let p = preds@[b]@[k];
                    assert(preds@[b]@.contains(p));
                    assert(succs@[p as int]@.contains(b as usize));
                    assert(succs@[p as int]@.to_set().contains(b as usize));
                    assert(self.targets(p as int).contains(b as usize));
                }
            } else {
                assert forall|b: int, k: int, x: L|
                    0 <= b < n && 0 <= k < succs@[b]@.len() && #[trigger] inv_in(
                        succs@[b]@[k] as int,
                        x,
                    ) implies inv_out(b, x) by {
                    let t = succs@[b]@[k];
                    assert(succs@[b]@.to_set().contains(t));
                    assert(self.targets(b).contains(t));
                }
            }
        }
        let r = fixed_point_iter_with(
            &succs,
            &preds,
            direction,
            transfer,
            in_seed,
            out_seed,
            Ghost(inv_in),
            Ghost(inv_out),
        );
        proof {
            if direction == Direction::Forward {
                assert forall|b: int| 0 <= b < n implies #[trigger] settled_forward(
                    *self,
                    b,
                    seed_view(in_seed),
                    r.block_in@,
                    r.block_out@,
                    transfer,
                ) by {
                    assert(settled(b, preds@, seed_view(in_seed), r.block_in@, r.block_out@, transfer));
                    assert forall|p: int|
                        0 <= p < n && #[trigger] self.targets(p).contains(b as usize) implies below(
                        r.block_out@[p],
                        r.block_in@[b],
                    ) by {
                        assert(succs@[p]@.to_set().contains(b as usize));
                        assert(succs@[p]@.contains(b as usize));
                        assert(preds@[b]@.contains(p as usize));
                        let k = choose|k: int| 0 <= k < preds@[b]@.len() && preds@[b]@[k] == p as usize;
                        assert(below(r.block_out@[preds@[b]@[k] as int], r.block_in@[b]));
                    }
                }
            } else {
                assert forall|b: int| 0 <= b < n implies #[trigger] settled_backward(
                    *self,
                    b,
                    seed_view(out_seed),
                    r.block_in@,
                    r.block_out@,
                    transfer,
                ) by {
                    assert(settled(b, succs@, seed_view(out_seed), r.block_out@, r.block_in@, transfer));
                    assert forall|t: usize| #[trigger] self.targets(b).contains(t) implies below(
                        r.block_in@[t as int],
                        r.block_out@[b],
                    ) by {
                        assert(succs@[b]@.to_set().contains(t));
                        let k = choose|k: int| 0 <= k < succs@[b]@.len() && succs@[b]@[k] == t;
                        assert(below(r.block_in@[succs@[b]@[k] as int], r.block_out@[b]));
                    }
                }
            }
        }
        r
    }
}

} // verus!
