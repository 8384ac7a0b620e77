//! Join semi-lattices for the data-flow analyses over MIR.
use vstd::prelude::*;
use crate::common::Symbol;

verus! {

/// Whether a join changed the value it was applied to.
#[derive(Debug, Clone, Copy, PartialEq, Eq, Structural)]
pub enum LatticeChange {
    Changed,
    Unchanged,
}

/// The change that `changed` stands for.
pub open spec fn change_of(changed: bool) -> LatticeChange {
    if changed {
        LatticeChange::Changed
    } else {
        LatticeChange::Unchanged
    }
}

impl LatticeChange {
    /// True for `Changed`.
    pub fn change(self) -> (b: bool)
        ensures
            b <==> self == LatticeChange::Changed,
    {
        match self {
            LatticeChange::Changed => true,
            LatticeChange::Unchanged => false,
        }
    }
}

impl From<bool> for LatticeChange {
    fn from(changed: bool) -> (r: Self) {
        if changed {
            LatticeChange::Changed
        } else {
            LatticeChange::Unchanged
        }
    }
}

impl vstd::std_specs::convert::FromSpecImpl<bool> for LatticeChange {
    open spec fn obeys_from_spec() -> bool {
        true
    }

    open spec fn from_spec(changed: bool) -> Self {
        change_of(changed)
    }
}

/// A join semi-lattice: a set with a commutative, associative and idempotent
/// join, and a distinguished starting value.
pub trait Lattice: Sized {
    /// The value an analysis starts every point with.
    spec fn spec_bottom() -> Self;

    /// The least upper bound of two values.
    spec fn spec_join(self, other: Self) -> Self;

    proof fn lemma_join_commutative(a: Self, b: Self)
        ensures
            a.spec_join(b) == b.spec_join(a),
    ;

    proof fn lemma_join_associative(a: Self, b: Self, c: Self)
        ensures
            a.spec_join(b).spec_join(c) == a.spec_join(b.spec_join(c)),
    ;

    proof fn lemma_join_idempotent(a: Self)
        ensures
            a.spec_join(a) == a,
    ;

    /// How far up the lattice a value stands; joins that change a value
    /// raise it, so a value can change only finitely often.
    spec fn height(self) -> nat;

    /// No value stands higher than this.
    spec fn max_height() -> nat;

    proof fn lemma_height(a: Self, b: Self)
        ensures
            a.height() <= Self::max_height(),
            a.height() <= a.spec_join(b).height(),
            a.spec_join(b) != a ==> a.height() < a.spec_join(b).height(),
    ;

    fn bottom() -> (r: Self)
        ensures
            r == Self::spec_bottom(),
    ;

    /// A value equal to this one.
    fn duplicate(&self) -> (r: Self)
        ensures
            r == *self,
    ;

    fn join(&self, other: &Self) -> (r: Self)
        ensures
            r == self.spec_join(*other),
    ;

    /// Replaces the value by its join with `other`, and says whether that
    /// changed it.
    fn join_assign(&mut self, other: &Self) -> (c: LatticeChange)
        ensures
            *final(self) == old(self).spec_join(*other),
            c == change_of(*final(self) != *old(self)),
    ;
}

// `LatticeChange` is itself a two-point lattice whose join is `Changed` as
// soon as one side is.
impl Lattice for LatticeChange {
    open spec fn spec_bottom() -> Self {
        LatticeChange::Changed
    }

    open spec fn spec_join(self, other: Self) -> Self {
        if self == other {
            self
        } else {
            LatticeChange::Changed
        }
    }

    proof fn lemma_join_commutative(a: Self, b: Self) {
    }

    proof fn lemma_join_associative(a: Self, b: Self, c: Self) {
    }

    proof fn lemma_join_idempotent(a: Self) {
    }

    open spec fn height(self) -> nat {
        match self {
            LatticeChange::Unchanged => 0,
            LatticeChange::Changed => 1,
        }
    }

    open spec fn max_height() -> nat {
        1
    }

    proof fn lemma_height(a: Self, b: Self) {
    }

    fn bottom() -> (r: Self) {
        LatticeChange::Changed
    }

    fn duplicate(&self) -> (r: Self) {
        *self
    }

    fn join(&self, other: &Self) -> (r: Self) {
        if *self == *other {
            *self
        } else {
            LatticeChange::Changed
        }
    }

    fn join_assign(&mut self, other: &Self) -> (c: LatticeChange) {
        let joined = self.join(other);
        let changed = joined != *self;
        *self = joined;
        LatticeChange::from(changed)
    }
}

/// Converting a flag to a change and asking whether it changed gives the
/// flag back.
pub proof fn lemma_change_of_round_trip(changed: bool)
    ensures
        (change_of(changed) == LatticeChange::Changed) == changed,
{
}

/// A value with an executable comparison that agrees with equality.
pub trait FlatValue: Copy {
    fn same(&self, other: &Self) -> (b: bool)
        ensures
            b <==> *self == *other,
    ;
}

impl FlatValue for u32 {
    fn same(&self, other: &Self) -> (b: bool) {
        *self == *other
    }
}

impl FlatValue for u64 {
    fn same(&self, other: &Self) -> (b: bool) {
        *self == *other
    }
}

impl FlatValue for i64 {
    fn same(&self, other: &Self) -> (b: bool) {
        *self == *other
    }
}

impl FlatValue for usize {
    fn same(&self, other: &Self) -> (b: bool) {
        *self == *other
    }
}

impl FlatValue for bool {
    fn same(&self, other: &Self) -> (b: bool) {
        *self == *other
    }
}

impl FlatValue for Symbol {
    fn same(&self, other: &Self) -> (b: bool) {
        self.id == other.id
    }
}

/// The flat lattice over `T`: nothing known, one known value, or conflicting
/// values.
#[derive(Debug, Clone, Copy)]
pub enum Flat<T> {
    Top,
    Value(T),
    Bottom,
}

impl<T> Flat<T> {
    /// The known value, if there is exactly one.
    pub fn value(&self) -> (r: Option<&T>)
        ensures
            r == (match *self {
                Flat::Value(v) => Some(&v),
                _ => None,
            }),
    {
        match self {
            Flat::Value(v) => Some(v),
            _ => None,
        }
    }
}

impl<T: FlatValue> Lattice for Flat<T> {
    open spec fn spec_bottom() -> Self {
        Flat::Bottom
    }

    open spec fn spec_join(self, other: Self) -> Self {
        match (self, other) {
            (Flat::Top, _) | (_, Flat::Top) => Flat::Top,
            (Flat::Value(a), Flat::Value(b)) => if a == b {
                Flat::Value(a)
            } else {
                Flat::Top
            },
            (Flat::Value(a), Flat::Bottom) | (Flat::Bottom, Flat::Value(a)) => Flat::Value(a),
            (Flat::Bottom, Flat::Bottom) => Flat::Bottom,
        }
    }

    proof fn lemma_join_commutative(a: Self, b: Self) {
    }

    proof fn lemma_join_associative(a: Self, b: Self, c: Self) {
    }

    proof fn lemma_join_idempotent(a: Self) {
    }

    open spec fn height(self) -> nat {
        match self {
            Flat::Bottom => 0,
            Flat::Value(_) => 1,
            Flat::Top => 2,
        }
    }

    open spec fn max_height() -> nat {
        2
    }

    proof fn lemma_height(a: Self, b: Self) {
    }

    fn bottom() -> (r: Self) {
        Flat::Bottom
    }

    fn duplicate(&self) -> (r: Self) {
        *self
    }

    fn join(&self, other: &Self) -> (r: Self) {
        match (self, other) {
            (Flat::Top, _) | (_, Flat::Top) => Flat::Top,
            (Flat::Value(a), Flat::Value(b)) => {
                if a.same(b) {
                    Flat::Value(*a)
                } else {
                    Flat::Top
                }
            },
            (Flat::Value(a), Flat::Bottom) | (Flat::Bottom, Flat::Value(a)) => Flat::Value(*a),
            (Flat::Bottom, Flat::Bottom) => Flat::Bottom,
        }
    }

    fn join_assign(&mut self, other: &Self) -> (c: LatticeChange) {
        let joined = self.join(other);
        let changed = match (&joined, &*self) {
            (Flat::Top, Flat::Top) | (Flat::Bottom, Flat::Bottom) => false,
            (Flat::Value(a), Flat::Value(b)) => !a.same(b),
            _ => true,
        };
        *self = joined;
        LatticeChange::from(changed)
    }
}

/// `None` below every `Some`, and `Some` values joined inside.
impl<L: Lattice> Lattice for Option<L> {
    open spec fn spec_bottom() -> Self {
        None
    }

    open spec fn spec_join(self, other: Self) -> Self {
        match (self, other) {
            (Some(a), Some(b)) => Some(a.spec_join(b)),
            (Some(a), None) => Some(a),
            (None, Some(b)) => Some(b),
            (None, None) => None,
        }
    }

    proof fn lemma_join_commutative(a: Self, b: Self) {
        if let (Some(x), Some(y)) = (a, b) {
            L::lemma_join_commutative(x, y);
        }
    }

    proof fn lemma_join_associative(a: Self, b: Self, c: Self) {
        if let (Some(x), Some(y), Some(z)) = (a, b, c) {
            L::lemma_join_associative(x, y, z);
        }
    }

    proof fn lemma_join_idempotent(a: Self) {
        if let Some(x) = a {
            L::lemma_join_idempotent(x);
        }
    }

    open spec fn height(self) -> nat {
        match self {
            None => 0,
            Some(a) => a.height() + 1,
        }
    }

    open spec fn max_height() -> nat {
        L::max_height() + 1
    }

    proof fn lemma_height(a: Self, b: Self) {
        match (a, b) {
            (Some(x), Some(y)) => L::lemma_height(x, y),
            (Some(x), None) => L::lemma_height(x, x),
            (None, Some(y)) => L::lemma_height(y, y),
            (None, None) => {},
        }
    }

    fn bottom() -> (r: Self) {
        None
    }

    fn duplicate(&self) -> (r: Self) {
        match self {
            Some(a) => Some(a.duplicate()),
            None => None,
        }
    }

    fn join(&self, other: &Self) -> (r: Self) {
        match (self, other) {
            (Some(a), Some(b)) => Some(a.join(b)),
            (Some(value), None) | (None, Some(value)) => Some(value.duplicate()),
            (None, None) => None,
        }
    }

    fn join_assign(&mut self, other: &Self) -> (c: LatticeChange) {
        match other {
            Some(b) => {
                let current = self.take();
                match current {
                    Some(mut a) => {
                        let c = a.join_assign(b);
                        *self = Some(a);
                        c
                    },
                    None => {
                        *self = Some(b.duplicate());
                        LatticeChange::Changed
                    },
                }
            },
            None => LatticeChange::Unchanged,
        }
    }
}

/// For the flat lattice, bottom is a unit of the join.
pub proof fn lemma_flat_bottom_is_unit<T: FlatValue>(a: Flat<T>)
    ensures
        Flat::<T>::spec_bottom().spec_join(a) == a,
        a.spec_join(Flat::<T>::spec_bottom()) == a,
{
}

/// For the option lattice, `None` is a unit of the join.
pub proof fn lemma_option_bottom_is_unit<L: Lattice>(a: Option<L>)
    ensures
        Option::<L>::spec_bottom().spec_join(a) == a,
        a.spec_join(Option::<L>::spec_bottom()) == a,
{
}

/// Joining can only move up: `a` is below `a ⊔ b`, in the order that the
/// join defines (`x` is below `y` when `x ⊔ y == y`).
pub proof fn lemma_join_upper_bound<L: Lattice>(a: L, b: L)
    ensures
        a.spec_join(a.spec_join(b)) == a.spec_join(b),
        b.spec_join(a.spec_join(b)) == a.spec_join(b),
{
    L::lemma_join_associative(a, a, b);
    L::lemma_join_idempotent(a);
    L::lemma_join_commutative(a, b);
    L::lemma_join_associative(b, b, a);
    L::lemma_join_idempotent(b);
}

/// The direction in which an analysis propagates facts along the edges.
#[derive(Debug, Clone, Copy, PartialEq, Eq, Structural)]
pub enum Direction {
    Forward,
    Backward,
}

/// `a` is below `b` in the order that the join defines.
pub open spec fn below<L: Lattice>(a: L, b: L) -> bool {
    a.spec_join(b) == b
}

/// The order that the join defines is transitive.
pub proof fn lemma_below_transitive<L: Lattice>(a: L, b: L, c: L)
    requires
        below(a, b),
        below(b, c),
    ensures
        below(a, c),
{
    L::lemma_join_associative(a, b, c);
}

/// The facts at the entry and at the exit of every block, by block index.
pub struct FixedPointIterRes<L> {
    pub block_in: Vec<L>,
    pub block_out: Vec<L>,
}

/// Every list names blocks below `n`, and there is one list per block.
pub open spec fn edges_within(adj: Seq<Vec<usize>>, n: nat) -> bool {
    &&& adj.len() == n
    &&& forall|b: int, k: int|
        0 <= b < n && 0 <= k < adj[b]@.len() ==> (#[trigger] adj[b]@[k]) < n
}

/// `preds` lists, for each block, exactly the blocks whose list in `succs`
/// names it.
pub open spec fn edges_mirror(succs: Seq<Vec<usize>>, preds: Seq<Vec<usize>>) -> bool {
    forall|b: int, p: int|
        #![trigger preds[b]@.contains(p as usize)]
        #![trigger succs[p]@.contains(b as usize)]
        0 <= b < preds.len() && 0 <= p < succs.len() ==> (preds[b]@.contains(p as usize)
            <==> succs[p]@.contains(b as usize))
}

/// The seed of a block, if there is one.
pub open spec fn seed_at<L>(seed: Option<Seq<Option<L>>>, b: int) -> Option<L> {
    match seed {
        Some(s) => s[b],
        None => None,
    }
}

/// What a seed argument holds.
pub open spec fn seed_view<L>(seed: Option<&Vec<Option<L>>>) -> Option<Seq<Option<L>>> {
    match seed {
        Some(v) => Some(v@),
        None => None,
    }
}

/// Block `b` is settled: its entry fact is above the exit fact of every
/// block it receives from and above its seed, and its exit fact is above
/// what the transfer function gives for its entry fact.
pub open spec fn settled<L: Lattice, F: Fn(usize, &L) -> L>(
    b: int,
    incoming: Seq<Vec<usize>>,
    seed: Option<Seq<Option<L>>>,
    entry: Seq<L>,
    exit: Seq<L>,
    transfer: F,
) -> bool {
    &&& forall|k: int|
        0 <= k < incoming[b]@.len() ==> below(exit[#[trigger] incoming[b]@[k] as int], entry[b])
    &&& (seed_at(seed, b) matches Some(v) ==> below(v, entry[b]))
    &&& exists|t: L| #[trigger] transfer.ensures((b as usize, &entry[b]), t) && below(t, exit[b])
}

/// The number of set flags.
pub open spec fn count_true(s: Seq<bool>) -> nat
    decreases s.len(),
{
    if s.len() == 0 {
        0
    } else {
        count_true(s.drop_last()) + if s.last() {
            1nat
        } else {
            0nat
        }
    }
}

proof fn lemma_count_update(s: Seq<bool>, i: int, v: bool)
    requires
        0 <= i < s.len(),
    ensures
        count_true(s.update(i, v)) + (if s[i] { 1int } else { 0int }) == count_true(s) + (if v {
            1int
        } else {
            0int
        }),
    decreases s.len(),
{
    let t = s.update(i, v);
    if i == s.len() - 1 {
        assert(t.drop_last() =~= s.drop_last());
    } else {
        assert(t.drop_last() =~= s.drop_last().update(i, v));
        lemma_count_update(s.drop_last(), i, v);
    }
}

/// How much room the facts still have to rise.
pub open spec fn slack<L: Lattice>(s: Seq<L>) -> nat
    decreases s.len(),
{
    if s.len() == 0 {
        0
    } else {
        slack(s.drop_last()) + (L::max_height() - s.last().height()) as nat
    }
}

proof fn lemma_slack_update<L: Lattice>(s: Seq<L>, i: int, v: L)
    requires
        0 <= i < s.len(),
    ensures
        slack(s.update(i, v)) + v.height() == slack(s) + s[i].height(),
    decreases s.len(),
{
    L::lemma_height(v, v);
    L::lemma_height(s[i], s[i]);
    let t = s.update(i, v);
    if i == s.len() - 1 {
        assert(t.drop_last() =~= s.drop_last());
    } else {
        assert(t.drop_last() =~= s.drop_last().update(i, v));
        lemma_slack_update(s.drop_last(), i, v);
        L::lemma_height(s.last(), s.last());
    }
}

/// The bottom fact, once for each of `n` places.
pub fn bottoms<L: Lattice>(n: usize) -> (r: Vec<L>)
    ensures
        r@.len() == n,
        forall|i: int| 0 <= i < n ==> #[trigger] r@[i] == L::spec_bottom(),
{
    let mut r: Vec<L> = Vec::new();
    let mut i: usize = 0;
    while i < n
        invariant
            i <= n,
            r@.len() == i,
            forall|j: int| 0 <= j < i ==> #[trigger] r@[j] == L::spec_bottom(),
        decreases n - i,
    {
        r.push(L::bottom());
        i += 1;
    }
    r
}

/// The highest queued block, if any.
fn last_queued(queued: &Vec<bool>) -> (r: Option<usize>)
    ensures
        r matches Some(b) ==> b < queued@.len() && queued@[b as int],
        r is None ==> forall|j: int| 0 <= j < queued@.len() ==> !queued@[j],
{
    let mut i = queued.len();
    while i > 0
        invariant
            i <= queued@.len(),
            forall|j: int| i <= j < queued@.len() ==> !queued@[j],
        decreases i,
    {
        if queued[i - 1] {
            return Some(i - 1);
        }
        i -= 1;
    }
    None
}

/// A property of the facts on the side by which they enter each block
/// (`ok_in`) and on the side by which they leave it (`ok_out`) that every
/// step of the worklist algorithm keeps: bottom has it on both sides; the
/// join of two facts that have it on one side has it there too; a fact
/// that has it where it leaves a block has it where it enters every block
/// that block feeds; the seed of a block has it where it enters; and what
/// the transfer function gives for a fact that has it where it enters a
/// block has it where it leaves.
pub open spec fn keeps<L: Lattice, F: Fn(usize, &L) -> L>(
    incoming: Seq<Vec<usize>>,
    seed: Option<Seq<Option<L>>>,
    transfer: F,
    ok_in: spec_fn(int, L) -> bool,
    ok_out: spec_fn(int, L) -> bool,
) -> bool {
    &&& forall|b: int| 0 <= b < incoming.len() ==> #[trigger] ok_in(b, L::spec_bottom())
    &&& forall|b: int| 0 <= b < incoming.len() ==> #[trigger] ok_out(b, L::spec_bottom())
    &&& forall|b: int, x: L, y: L|
        0 <= b < incoming.len() && ok_in(b, x) && ok_in(b, y) ==> #[trigger] ok_in(b, x.spec_join(y))
    &&& forall|b: int, x: L, y: L|
        0 <= b < incoming.len() && ok_out(b, x) && ok_out(b, y) ==> #[trigger] ok_out(b, x.spec_join(y))
    &&& forall|b: int, k: int, x: L|
        0 <= b < incoming.len() && 0 <= k < incoming[b]@.len() && #[trigger] ok_out(
            incoming[b]@[k] as int,
            x,
        ) ==> ok_in(b, x)
    &&& forall|b: int| 0 <= b < incoming.len() ==> (#[trigger] seed_at(seed, b) matches Some(v) ==> ok_in(b, v))
    &&& forall|b: usize, x: L, t: L|
        b < incoming.len() && ok_in(b as int, x) && #[trigger] transfer.ensures((b, &x), t) ==> ok_out(
            b as int,
            t,
        )
}

/// The worklist algorithm, in terms of the side facts enter by (`entry`)
/// and the side they leave by (`exit`).
fn solve<L: Lattice, F: Fn(usize, &L) -> L>(
    incoming: &Vec<Vec<usize>>,
    outgoing: &Vec<Vec<usize>>,
    transfer: F,
    seed: Option<&Vec<Option<L>>>,
    Ghost(ok_in): Ghost<spec_fn(int, L) -> bool>,
    Ghost(ok_out): Ghost<spec_fn(int, L) -> bool>,
) -> (r: (Vec<L>, Vec<L>))
    requires
        edges_within(incoming@, incoming@.len()),
        edges_within(outgoing@, incoming@.len()),
        edges_mirror(outgoing@, incoming@),
        seed matches Some(s) ==> s@.len() == incoming@.len(),
        forall|b: usize, l: &L| b < incoming@.len() ==> #[trigger] transfer.requires((b, l)),
        keeps(incoming@, seed_view(seed), transfer, ok_in, ok_out),
    ensures
        r.0@.len() == incoming@.len(),
        r.1@.len() == incoming@.len(),
        forall|b: int|
            0 <= b < incoming@.len() ==> #[trigger] settled(
                b,
                incoming@,
                seed_view(seed),
                r.0@,
                r.1@,
                transfer,
            ),
        forall|b: int| 0 <= b < incoming@.len() ==> #[trigger] ok_in(b, r.0@[b]),
        forall|b: int| 0 <= b < incoming@.len() ==> #[trigger] ok_out(b, r.1@[b]),
{
    let n = incoming.len();
    let ghost sv = seed_view(seed);
    let mut entry: Vec<L> = bottoms(n);
    let mut exit: Vec<L> = bottoms(n);
    let mut queued: Vec<bool> = Vec::new();
    let mut i: usize = 0;
    while i < n
        invariant
            i <= n,
            queued@.len() == i,
            forall|j: int| 0 <= j < i ==> queued@[j],
        decreases n - i,
    {
        queued.push(true);
        i += 1;
    }
    loop
        invariant
            n == incoming@.len(),
            edges_within(incoming@, n as nat),
            edges_within(outgoing@, n as nat),
            edges_mirror(outgoing@, incoming@),
            seed matches Some(s) ==> s@.len() == n,
            sv == seed_view(seed),
            forall|b: usize, l: &L| b < n ==> #[trigger] transfer.requires((b, l)),
            keeps(incoming@, sv, transfer, ok_in, ok_out),
            entry@.len() == n,
            exit@.len() == n,
            queued@.len() == n,
            forall|b: int| 0 <= b < n ==> #[trigger] ok_in(b, entry@[b]),
            forall|b: int| 0 <= b < n ==> #[trigger] ok_out(b, exit@[b]),
            forall|b: int|
                0 <= b < n && !queued@[b] ==> #[trigger] settled(
                    b,
                    incoming@,
                    sv,
                    entry@,
                    exit@,
                    transfer,
                ),
        ensures
            entry@.len() == n,
            exit@.len() == n,
            forall|b: int|
                0 <= b < n ==> #[trigger] settled(b, incoming@, sv, entry@, exit@, transfer),
            forall|b: int| 0 <= b < n ==> #[trigger] ok_in(b, entry@[b]),
            forall|b: int| 0 <= b < n ==> #[trigger] ok_out(b, exit@[b]),
        decreases slack(entry@) + slack(exit@), count_true(queued@),
    {
        let next = last_queued(&queued);
        let b = match next {
            None => {
                proof {
                    assert forall|b: int| 0 <= b < n implies #[trigger] settled(
                        b,
                        incoming@,
                        sv,
                        entry@,
                        exit@,
                        transfer,
                    ) by {
                        assert(!queued@[b]);
                    }
                }
                break ;
            },
            Some(b) => b,
        };
        let ghost entry0 = entry@;
        let ghost exit0 = exit@;
        let ghost queued0 = queued@;
        proof {
            lemma_count_update(queued@, b as int, false);
        }
        queued.set(b, false);
        // Join the exit facts of the blocks `b` receives from.
        let inc = &incoming[b];
        let mut acc = L::bottom();
        assert(ok_in(b as int, L::spec_bottom()));
        let mut k: usize = 0;
        while k < inc.len()
            invariant
                k <= inc@.len(),
                inc == incoming@[b as int],
                b < n,
                edges_within(incoming@, n as nat),
                exit@.len() == n,
                forall|j: int| 0 <= j < k ==> below(exit@[#[trigger] inc@[j] as int], acc),
                keeps(incoming@, sv, transfer, ok_in, ok_out),
                forall|c: int| 0 <= c < n ==> #[trigger] ok_in(c, entry@[c]),
                forall|c: int| 0 <= c < n ==> #[trigger] ok_out(c, exit@[c]),
                ok_in(b as int, acc),
            decreases inc@.len() - k,
        {
            let p = inc[k];
            assert(p < n);
            let ghost acc0 = acc;
            proof {
                assert(ok_out(p as int, exit@[p as int]));
                assert(ok_out(incoming@[b as int]@[k as int] as int, exit@[p as int]));
                assert(ok_in(b as int, exit@[p as int]));
                assert(ok_in(b as int, acc0.spec_join(exit@[p as int])));
            }
            proof {
                lemma_join_upper_bound(acc0, exit@[p as int]);
                assert forall|j: int| 0 <= j < k implies below(
                    exit@[#[trigger] inc@[j] as int],
                    acc0.spec_join(exit@[p as int]),
                ) by {
                    lemma_below_transitive(
                        exit@[inc@[j] as int],
                        acc0,
                        acc0.spec_join(exit@[p as int]),
                    );
                }
            }
            acc = acc.join(&exit[p]);
            k += 1;
        }
        // Add the seed.
        let new_in = match seed {
            Some(s) => match &s[b] {
                Some(v) => {
                    proof {
                        assert(seed_at(sv, b as int) == Some(*v));
                        assert(ok_in(b as int, acc.spec_join(*v)));
                        lemma_join_upper_bound(acc, *v);
                        assert forall|j: int| 0 <= j < inc@.len() implies below(
                            exit@[#[trigger] inc@[j] as int],
                            acc.spec_join(*v),
                        ) by {
                            lemma_below_transitive(exit@[inc@[j] as int], acc, acc.spec_join(*v));
                        }
                    }
                    acc.join(v)
                },
                None => acc,
            },
            None => acc,
        };
        // Raise the entry fact.
        let mut e = entry[b].duplicate();
        e.join_assign(&new_in);
        proof {
            assert(ok_in(b as int, new_in));
            assert(ok_in(b as int, entry0[b as int].spec_join(new_in)));
            lemma_join_upper_bound(entry0[b as int], new_in);
            assert forall|j: int| 0 <= j < inc@.len() implies below(
                exit@[#[trigger] inc@[j] as int],
                e,
            ) by {
                lemma_below_transitive(exit@[inc@[j] as int], new_in, e);
            }
            if let Some(v) = seed_at(sv, b as int) {
                lemma_below_transitive(v, new_in, e);
            }
            L::lemma_height(entry0[b as int], new_in);
            lemma_slack_update(entry0, b as int, e);
        }
        entry.set(b, e);
        // Raise the exit fact by what the transfer function gives.
        let t = transfer(b, &entry[b]);
        let mut x = exit[b].duplicate();
        let c = x.join_assign(&t);
        proof {
            assert(ok_in(b as int, entry@[b as int]));
            assert(ok_out(b as int, t));
            assert(ok_out(b as int, exit0[b as int].spec_join(t)));
            lemma_join_upper_bound(exit0[b as int], t);
            L::lemma_height(exit0[b as int], t);
            lemma_slack_update(exit0, b as int, x);
        }
        exit.set(b, x);
        let ghost queued1 = queued@;
        let changed = c.change();
        if changed {
            // The blocks fed by `b` must be looked at again.
            let out = &outgoing[b];
            let mut k: usize = 0;
            while k < out.len()
                invariant
                    k <= out@.len(),
                    out == outgoing@[b as int],
                    b < n,
                    edges_within(outgoing@, n as nat),
                    queued@.len() == n,
                    forall|j: int| 0 <= j < k ==> queued@[#[trigger] out@[j] as int],
                    forall|c: int| 0 <= c < n && queued1[c] ==> queued@[c],
                    forall|c: int|
                        0 <= c < n && queued@[c] && !queued1[c] ==> out@.contains(c as usize),
                decreases out@.len() - k,
            {
                let s = out[k];
                queued.set(s, true);
                proof {
                    assert(out@[k as int] == s);
                }
                k += 1;
            }
        }
        proof {
            assert(queued1 == queued0.update(b as int, false));
            assert(forall|c: int| 0 <= c < n && !queued@[c] ==> !queued1[c]);
            assert forall|c: int| 0 <= c < n && !queued@[c] implies #[trigger] settled(
                c,
                incoming@,
                sv,
                entry@,
                exit@,
                transfer,
            ) by {
                let out = outgoing@[b as int];
                if c == b {
                    assert(below(t, exit@[b as int]));
                    assert(transfer.ensures((b, &entry@[b as int]), t));
                    assert forall|k: int| 0 <= k < incoming@[c]@.len() implies below(
                        exit@[#[trigger] incoming@[c]@[k] as int],
                        entry@[c],
                    ) by {
                        let p = incoming@[c]@[k] as int;
                        if p == b && x != exit0[b as int] {
                            assert(incoming@[c]@.contains(b));
                            assert(out@.contains(c as usize));
                            let j = choose|j: int| 0 <= j < out@.len() && out@[j] == c as usize;
                            assert(queued@[out@[j] as int]);
                        }
                    }
                } else {
                    assert(!queued1[c]);
                    assert(queued1[c] == queued0[c]);
                    assert(settled(c, incoming@, sv, entry0, exit0, transfer));
                    assert(entry@[c] == entry0[c]);
                    assert(exit@[c] == exit0[c]);
                    assert forall|k: int| 0 <= k < incoming@[c]@.len() implies below(
                        exit@[#[trigger] incoming@[c]@[k] as int],
                        entry@[c],
                    ) by {
                        let p = incoming@[c]@[k] as int;
                        if p == b && x != exit0[b as int] {
                            assert(incoming@[c]@.contains(b));
                            assert(out@.contains(c as usize));
                            let j = choose|j: int| 0 <= j < out@.len() && out@[j] == c as usize;
                            assert(queued@[out@[j] as int]);
                        }
                    }
                    let w = choose|t: L| #[trigger] transfer.ensures((c as usize, &entry0[c]), t)
                        && below(t, exit0[c]);
                    assert(transfer.ensures((c as usize, &entry@[c]), w) && below(w, exit@[c]));
                }
            }
        }
    }
    (entry, exit)
}

/// Runs a data-flow analysis to a fixed point over the blocks `0..n` of a
/// control-flow graph given by the successors and predecessors of every
/// block, and returns the facts at the entry and exit of every block.
/// Forward, the entry fact of a block is raised by the exit facts of its
/// predecessors and its seed, and its exit fact by what `transfer` gives for
/// its entry fact; backward, the same with entry and exit, successors and
/// predecessors exchanged. Blocks are looked at again, highest first, while
/// the fact they pass on changes.
pub fn fixed_point_iter<L: Lattice, F: Fn(usize, &L) -> L>(
    succs: &Vec<Vec<usize>>,
    preds: &Vec<Vec<usize>>,
    direction: Direction,
    transfer: F,
    in_seed: Option<&Vec<Option<L>>>,
    out_seed: Option<&Vec<Option<L>>>,
) -> (r: FixedPointIterRes<L>)
    requires
        edges_within(succs@, preds@.len()),
        edges_within(preds@, preds@.len()),
        edges_mirror(succs@, preds@),
        in_seed matches Some(s) ==> s@.len() == preds@.len(),
        out_seed matches Some(s) ==> s@.len() == preds@.len(),
        forall|b: usize, l: &L| b < preds@.len() ==> #[trigger] transfer.requires((b, l)),
    ensures
        r.block_in@.len() == preds@.len(),
        r.block_out@.len() == preds@.len(),
        direction == Direction::Forward ==> forall|b: int|
            0 <= b < preds@.len() ==> #[trigger] settled(
                b,
                preds@,
                seed_view(in_seed),
                r.block_in@,
                r.block_out@,
                transfer,
            ),
        direction == Direction::Backward ==> forall|b: int|
            0 <= b < preds@.len() ==> #[trigger] settled(
                b,
                succs@,
                seed_view(out_seed),
                r.block_out@,
                r.block_in@,
                transfer,
            ),
{
    let ghost any = |b: int, x: L| true;
    fixed_point_iter_with(succs, preds, direction, transfer, in_seed, out_seed, Ghost(any), Ghost(any))
}

/// Runs a data-flow analysis to a fixed point over the blocks `0..n` of a
/// control-flow graph given by the successors and predecessors of every
/// block, and returns the facts at the entry and exit of every block.
/// Forward, the entry fact of a block is raised by the exit facts of its
/// predecessors and its seed, and its exit fact by what `transfer` gives for
/// its entry fact; backward, the same with entry and exit, successors and
/// predecessors exchanged. Blocks are looked at again, highest first, while
/// the fact they pass on changes. A property of the entry facts
/// (`inv_in`) and of the exit facts (`inv_out`) that every step keeps holds
/// of the facts returned.
pub fn fixed_point_iter_with<L: Lattice, F: Fn(usize, &L) -> L>(
    succs: &Vec<Vec<usize>>,
    preds: &Vec<Vec<usize>>,
    direction: Direction,
    transfer: F,
    in_seed: Option<&Vec<Option<L>>>,
    out_seed: Option<&Vec<Option<L>>>,
    Ghost(inv_in): Ghost<spec_fn(int, L) -> bool>,
    Ghost(inv_out): Ghost<spec_fn(int, L) -> bool>,
) -> (r: FixedPointIterRes<L>)
    requires
        edges_within(succs@, preds@.len()),
        edges_within(preds@, preds@.len()),
        edges_mirror(succs@, preds@),
        in_seed matches Some(s) ==> s@.len() == preds@.len(),
        out_seed matches Some(s) ==> s@.len() == preds@.len(),
        forall|b: usize, l: &L| b < preds@.len() ==> #[trigger] transfer.requires((b, l)),
        direction == Direction::Forward ==> keeps(preds@, seed_view(in_seed), transfer, inv_in, inv_out),
        direction == Direction::Backward ==> keeps(succs@, seed_view(out_seed), transfer, inv_out, inv_in),
    ensures
        r.block_in@.len() == preds@.len(),
        r.block_out@.len() == preds@.len(),
        direction == Direction::Forward ==> forall|b: int|
            0 <= b < preds@.len() ==> #[trigger] settled(
                b,
                preds@,
                seed_view(in_seed),
                r.block_in@,
                r.block_out@,
                transfer,
            ),
        direction == Direction::Backward ==> forall|b: int|
            0 <= b < preds@.len() ==> #[trigger] settled(
                b,
                succs@,
                seed_view(out_seed),
                r.block_out@,
                r.block_in@,
                transfer,
            ),
        forall|b: int| 0 <= b < preds@.len() ==> #[trigger] inv_in(b, r.block_in@[b]),
        forall|b: int| 0 <= b < preds@.len() ==> #[trigger] inv_out(b, r.block_out@[b]),
{
    match direction {
        Direction::Forward => {
            let (block_in, block_out) = solve(preds, succs, transfer, in_seed, Ghost(inv_in), Ghost(inv_out));
            FixedPointIterRes { block_in, block_out }
        },
        Direction::Backward => {
            proof {
                assert forall|b: int, p: int|
                    #![trigger succs@[b]@.contains(p as usize)]
                    #![trigger preds@[p]@.contains(b as usize)]
                    0 <= b < succs@.len() && 0 <= p < preds@.len() implies (succs@[b]@.contains(
                        p as usize,
                    ) <==> preds@[p]@.contains(b as usize)) by {
                    assert(preds@[p]@.contains(b as usize) <==> succs@[b]@.contains(p as usize));
                }
            }
            let (block_out, block_in) = solve(succs, preds, transfer, out_seed, Ghost(inv_out), Ghost(inv_in));
            FixedPointIterRes { block_in, block_out }
        },
    }
}

} // verus!
