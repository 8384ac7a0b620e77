//! Which places are initialized at each point of a MIR body.
use vstd::prelude::*;
use vstd::string::*;
use crate::common::Symbol;
use crate::common::bitset::BitSet;
use crate::mir::{LocalID, Mir};
use crate::mir::basic_block::{MIRTerminator, Stmt};
use crate::mir::operand::{
    MIRConstructorArgs, MIROperand, MIRPlace, MIRProjection, MIRRValue, MIRRValueKind, bounded,
    fields_uses, lemma_fields_uses_prefix, lemma_operands_uses_prefix,
    lemma_projections_uses_prefix, operand_uses, operands_uses, place_uses, projection_uses,
    projections_uses, rvalue_uses,
};
use crate::mir::basic_block::{block_all_locals_within, stmt_locals_within, terminator_uses};
use super::lattice::{Direction, Lattice, LatticeChange, change_of, seed_view, seed_at, below, lemma_below_transitive};
use crate::mir::{mir_keeps, BlockID, settled_forward};

verus! {

/// The analysis that tracks initialization of places.
pub struct MIRInitAnalysis;

/// Whether a place is initialized: on every path, on none, or on some.
#[derive(Debug, Clone, Copy, PartialEq, Eq, Hash, Structural)]
pub enum InitState {
    Init,
    Maybe,
    Uninit,
}

/// Two states agree or give `Maybe`.
impl Lattice for InitState {
    open spec fn spec_bottom() -> Self {
        InitState::Uninit
    }

    open spec fn spec_join(self, other: Self) -> Self {
        if self == other {
            self
        } else {
            InitState::Maybe
        }
    }

    proof fn lemma_join_commutative(a: Self, b: Self) {
    }

    proof fn lemma_join_associative(a: Self, b: Self, c: Self) {
    }

    proof fn lemma_join_idempotent(a: Self) {
    }

    open spec fn height(self) -> nat {
        match self {
            InitState::Maybe => 1,
            _ => 0,
        }
    }

    open spec fn max_height() -> nat {
        1
    }

    proof fn lemma_height(a: Self, b: Self) {
    }

    fn bottom() -> (r: Self) {
        InitState::Uninit
    }

    fn duplicate(&self) -> (r: Self) {
        *self
    }

    fn join(&self, other: &Self) -> (r: Self) {
        match (self, other) {
            (InitState::Uninit, InitState::Uninit) => InitState::Uninit,
            (InitState::Init, InitState::Init) => InitState::Init,
            _ => InitState::Maybe,
        }
    }

    fn join_assign(&mut self, other: &Self) -> (c: LatticeChange) {
        let joined = self.join(other);
        let changed = joined != *self;
        *self = joined;
        LatticeChange::from(changed)
    }
}

/// The text of a state: `init`, `?` or `uninit`.
pub open spec fn init_state_text(s: InitState) -> Seq<char> {
    match s {
        InitState::Init => seq!['i', 'n', 'i', 't'],
        InitState::Maybe => seq!['?'],
        InitState::Uninit => seq!['u', 'n', 'i', 'n', 'i', 't'],
    }
}

impl InitState {
    /// The state as it is shown in analysis dumps.
    pub fn to_string(self) -> (r: String)
        ensures
            r@ == init_state_text(self),
    {
        proof {
            reveal_strlit("init");
            reveal_strlit("?");
            reveal_strlit("uninit");
        }
        match self {
            InitState::Init => String::from_str("init"),
            InitState::Maybe => String::from_str("?"),
            InitState::Uninit => String::from_str("uninit"),
        }
    }
}

/// A step from a place into a part of it that is tracked separately.
#[derive(Debug, Clone, Copy, PartialEq, Eq, Hash, Structural)]
pub enum TrackedProjection {
    StructField(Symbol),
    TupleField(u32),
    Deref,
    Downcast(usize),
}

/// A place whose initialization is tracked: a local and a path into it.
#[derive(Debug, Clone)]
pub struct MoveKey {
    pub base: LocalID,
    pub projections: Vec<TrackedProjection>,
}

/// `a` is a strict prefix of `b`: `b` names a place strictly inside `a`.
pub open spec fn is_strict_prefix_spec(a: MoveKey, b: MoveKey) -> bool {
    &&& a.base == b.base
    &&& a.projections@.len() < b.projections@.len()
    &&& a.projections@ == b.projections@.take(a.projections@.len() as int)
}

impl MoveKey {
    /// Whether `other` is a place strictly inside this one.
    pub fn is_strict_prefix(&self, other: &Self) -> (r: bool)
        ensures
            r == is_strict_prefix_spec(*self, *other),
    {
        if self.base != other.base {
            return false;
        }
        if self.projections.len() >= other.projections.len() {
            return false;
        }
        let mut i: usize = 0;
        while i < self.projections.len()
            invariant
                i <= self.projections@.len() < other.projections@.len(),
                forall|j: int| 0 <= j < i ==> self.projections@[j] == other.projections@[j],
            decreases self.projections@.len() - i,
        {
            if self.projections[i] != other.projections[i] {
                assert(self.projections@[i as int] != other.projections@.take(
                    self.projections@.len() as int,
                )[i as int]);
                return false;
            }
            i += 1;
        }
        assert(self.projections@ =~= other.projections@.take(self.projections@.len() as int));
        true
    }
}

/// For each tracked place, whether it may be initialized and whether it may
/// be uninitialized.
pub struct IdInitMap {
    uninit: BitSet,
    init: BitSet,
}

impl IdInitMap {
    /// The places that may be initialized.
    pub closed spec fn may_init(&self) -> Set<nat> {
        self.init.members()
    }

    /// The places that may be uninitialized.
    pub closed spec fn may_uninit(&self) -> Set<nat> {
        self.uninit.members()
    }

    /// The number of tracked places.
    pub closed spec fn capacity(&self) -> nat {
        self.init.capacity()
    }

    pub closed spec fn wf(&self) -> bool {
        self.init.capacity() == self.uninit.capacity()
    }

    /// The map over `capacity` places where nothing is known yet.
    pub fn new(capacity: usize) -> (r: Self)
        ensures
            r.wf(),
            r.capacity() == capacity,
            r.may_init() == Set::<nat>::empty(),
            r.may_uninit() == Set::<nat>::empty(),
    {
        IdInitMap { uninit: BitSet::new(capacity), init: BitSet::new(capacity) }
    }

    /// The places of `mask` become initialized.
    pub fn mark_init(&mut self, mask: &BitSet)
        requires
            old(self).wf(),
            mask.capacity() == old(self).capacity(),
        ensures
            final(self).wf(),
            final(self).capacity() == old(self).capacity(),
            final(self).may_init() == old(self).may_init().union(mask.members()),
            final(self).may_uninit() == old(self).may_uninit().difference(mask.members()),
    {
        self.init.union(mask);
        self.uninit.substract(mask);
    }

    /// The places of `mask` become uninitialized.
    pub fn mark_uninit(&mut self, mask: &BitSet)
        requires
            old(self).wf(),
            mask.capacity() == old(self).capacity(),
        ensures
            final(self).wf(),
            final(self).capacity() == old(self).capacity(),
            final(self).may_uninit() == old(self).may_uninit().union(mask.members()),
            final(self).may_init() == old(self).may_init().difference(mask.members()),
    {
        self.uninit.union(mask);
        self.init.substract(mask);
    }

    /// Adds what `other` allows, and says whether that changed anything.
    pub fn join_assign(&mut self, other: &Self) -> (c: LatticeChange)
        requires
            old(self).wf(),
            other.wf(),
            other.capacity() == old(self).capacity(),
        ensures
            final(self).wf(),
            final(self).capacity() == old(self).capacity(),
            final(self).may_init() == old(self).may_init().union(other.may_init()),
            final(self).may_uninit() == old(self).may_uninit().union(other.may_uninit()),
            c == change_of(
                final(self).may_init() != old(self).may_init() || final(self).may_uninit() != old(
                    self,
                ).may_uninit(),
            ),
    {
        let mut changed = false;
        let a = self.init.union(&other.init);
        changed = changed || a;
        let b = self.uninit.union(&other.uninit);
        changed = changed || b;
        if changed {
            LatticeChange::Changed
        } else {
            LatticeChange::Unchanged
        }
    }

    /// The join of two maps.
    pub fn join(&self, other: &Self) -> (r: Self)
        requires
            self.wf(),
            other.wf(),
            other.capacity() == self.capacity(),
        ensures
            r.wf(),
            r.capacity() == self.capacity(),
            r.may_init() == self.may_init().union(other.may_init()),
            r.may_uninit() == self.may_uninit().union(other.may_uninit()),
    {
        let mut r = IdInitMap { uninit: self.uninit.duplicate(), init: self.init.duplicate() };
        r.join_assign(other);
        r
    }

    /// The state of a place whose parts are the members of `mask`:
    /// initialized when every part is surely initialized (so also when there
    /// are none, or when the place is not tracked), uninitialized when every
    /// part is surely uninitialized, and `Maybe` otherwise.
    pub fn query(&self, mask: Option<&BitSet>) -> (r: InitState)
        ensures
            r == match mask {
                None => InitState::Init,
                Some(m) => query_spec(*self, m.members()),
            },
    {
        let mask = match mask {
            None => {
                return InitState::Init;
            },
            Some(m) => m,
        };
        let mut init = false;
        let mut uninit = false;
        let mut maybe = false;
        let mut id: usize = 0;
        while id < mask.len()
            invariant
                id <= mask.capacity(),
                init <==> exists|j: nat| j < id && mask.members().contains(j) && surely_init(*self, j),
                uninit <==> exists|j: nat|
                    j < id && mask.members().contains(j) && surely_uninit(*self, j),
                maybe <==> exists|j: nat|
                    j < id && mask.members().contains(j) && !surely_init(*self, j)
                        && !surely_uninit(*self, j),
            decreases mask.capacity() - id,
        {
            let ghost k = id as nat;
            let ghost (init0, uninit0, maybe0) = (init, uninit, maybe);
            if mask.contains(id) {
                let i = self.init.contains(id);
                let u = self.uninit.contains(id);
                if i && !u {
                    init = true;
                } else if !i && u {
                    uninit = true;
                } else {
                    maybe = true;
                }
            }
            proof {
                if mask.members().contains(k) {
                    if surely_init(*self, k) {
                        assert(init);
                        assert(k < id + 1 && mask.members().contains(k) && surely_init(*self, k));
                    }
                    if surely_uninit(*self, k) {
                        assert(k < id + 1 && mask.members().contains(k) && surely_uninit(*self, k));
                    }
                    if !surely_init(*self, k) && !surely_uninit(*self, k) {
                        assert(k < id + 1 && mask.members().contains(k) && !surely_init(*self, k)
                            && !surely_uninit(*self, k));
                    }
                }
                assert(init == (init0 || (mask.members().contains(k) && surely_init(*self, k))));
                assert(maybe == (maybe0 || (mask.members().contains(k) && !surely_init(*self, k)
                    && !surely_uninit(*self, k))));
            }
            id += 1;
        }
        proof {
            assert forall|j: nat| mask.members().contains(j) implies j < mask.capacity() by {
                mask.lemma_members_below_capacity(j);
            }
        }
        if !uninit && !maybe {
            InitState::Init
        } else if !init && uninit && !maybe {
            InitState::Uninit
        } else {
            InitState::Maybe
        }
    }
}

/// Once the parts of a place are marked initialized, the place reads as
/// initialized.
pub proof fn lemma_query_after_mark_init(before: IdInitMap, after: IdInitMap, mask: Set<nat>)
    requires
        after.may_init() == before.may_init().union(mask),
        after.may_uninit() == before.may_uninit().difference(mask),
    ensures
        query_spec(after, mask) == InitState::Init,
{
}

/// Once the parts of a place are marked uninitialized, the place reads as
/// uninitialized, or as initialized when it has no parts.
pub proof fn lemma_query_after_mark_uninit(before: IdInitMap, after: IdInitMap, mask: Set<nat>)
    requires
        after.may_uninit() == before.may_uninit().union(mask),
        after.may_init() == before.may_init().difference(mask),
    ensures
        query_spec(after, mask) == if mask.is_empty() {
            InitState::Init
        } else {
            InitState::Uninit
        },
{
    if !mask.is_empty() {
        let id = mask.choose();
        assert(mask.contains(id as nat));
        assert(!surely_init(after, id));
    } else {
        assert forall|id: nat| mask.contains(id) implies surely_init(after, id) by {
            assert(!mask.contains(id));
        }
    }
}

/// The place is initialized on every path.
pub open spec fn surely_init(m: IdInitMap, id: nat) -> bool {
    m.may_init().contains(id) && !m.may_uninit().contains(id)
}

/// The place is uninitialized on every path.
pub open spec fn surely_uninit(m: IdInitMap, id: nat) -> bool {
    !m.may_init().contains(id) && m.may_uninit().contains(id)
}

/// The state of a place made of the parts `mask`.
pub open spec fn query_spec(m: IdInitMap, mask: Set<nat>) -> InitState {
    if forall|id: nat| mask.contains(id) ==> surely_init(m, id) {
        InitState::Init
    } else if forall|id: nat| mask.contains(id) ==> surely_uninit(m, id) {
        InitState::Uninit
    } else {
        InitState::Maybe
    }
}


/// The step a projection makes into a tracked part, if it makes one: an
/// index does not.
pub open spec fn tracked_of(p: MIRProjection) -> Option<TrackedProjection> {
    match p {
        MIRProjection::Deref => Some(TrackedProjection::Deref),
        MIRProjection::Field { name, .. } => Some(TrackedProjection::StructField(name)),
        MIRProjection::TupleField { index, .. } => Some(TrackedProjection::TupleField(index)),
        MIRProjection::Index { .. } => None,
        MIRProjection::Downcast { variant } => Some(TrackedProjection::Downcast(variant)),
    }
}

/// The tracked steps of a path, up to its first index.
pub open spec fn tracked_prefix(ps: Seq<MIRProjection>) -> Seq<TrackedProjection>
    decreases ps.len(),
{
    if ps.len() == 0 {
        seq![]
    } else {
        match tracked_of(ps[0]) {
            Some(t) => seq![t] + tracked_prefix(ps.drop_first()),
            None => seq![],
        }
    }
}

/// A move key as plain values: its local and its steps.
pub open spec fn key_view(k: MoveKey) -> (LocalID, Seq<TrackedProjection>) {
    (k.base, k.projections@)
}

/// The key of a place: its local and its tracked steps up to the first
/// index.
pub open spec fn place_key(p: MIRPlace) -> (LocalID, Seq<TrackedProjection>) {
    (p.local, tracked_prefix(p.projections@))
}

impl MIRProjection {
    /// The tracked step this projection makes, if any.
    pub fn as_tracked_projection(&self) -> (r: Option<TrackedProjection>)
        ensures
            r == tracked_of(*self),
    {
        match self {
            MIRProjection::Deref => Some(TrackedProjection::Deref),
            MIRProjection::Field { name, .. } => Some(TrackedProjection::StructField(*name)),
            MIRProjection::TupleField { index, .. } => Some(TrackedProjection::TupleField(*index)),
            MIRProjection::Index { .. } => None,
            MIRProjection::Downcast { variant } => Some(TrackedProjection::Downcast(*variant)),
        }
    }
}

impl MIRPlace {
    /// The tracked place this place lies in: its local and its steps up to
    /// the first index.
    pub fn as_move_key(&self) -> (r: MoveKey)
        ensures
            key_view(r) == place_key(*self),
    {
        let ps = &self.projections;
        let mut out: Vec<TrackedProjection> = Vec::new();
        proof {
            assert(ps@.skip(0) =~= ps@);
            assert(out@ + tracked_prefix(ps@) =~= tracked_prefix(ps@));
        }
        let mut i: usize = 0;
        let mut stopped = false;
        while i < ps.len() && !stopped
            invariant
                i <= ps@.len(),
                stopped ==> out@ == tracked_prefix(ps@),
                !stopped ==> out@ + tracked_prefix(ps@.skip(i as int)) == tracked_prefix(ps@),
            decreases ps@.len() - i, if stopped { 0int } else { 1int },
        {
            let step = ps[i].as_tracked_projection();
            proof {
                assert(ps@.skip(i as int)[0] == ps@[i as int]);
                assert(ps@.skip(i as int).drop_first() =~= ps@.skip(i + 1));
            }
            match step {
                Some(t) => {
                    out.push(t);
                    proof {
                        assert(out@ + tracked_prefix(ps@.skip(i + 1)) =~= out@.drop_last() + (seq![t]
                            + tracked_prefix(ps@.skip(i + 1))));
                    }
                    i += 1;
                },
                None => {
                    proof {
                        assert(tracked_prefix(ps@.skip(i as int)) =~= seq![]);
                        assert(out@ + tracked_prefix(ps@.skip(i as int)) =~= out@);
                    }
                    stopped = true;
                },
            }
        }
        proof {
            if !stopped {
                assert(ps@.skip(ps@.len() as int) =~= seq![]);
                assert(out@ + tracked_prefix(ps@.skip(i as int)) =~= out@);
            }
        }
        MoveKey { base: self.local, projections: out }
    }
}

impl MoveKey {
    /// Whether two keys name the same place.
    pub fn same(&self, other: &Self) -> (r: bool)
        ensures
            r == (key_view(*self) == key_view(*other)),
    {
        if self.base != other.base {
            return false;
        }
        if self.projections.len() != other.projections.len() {
            return false;
        }
        let mut i: usize = 0;
        while i < self.projections.len()
            invariant
                i <= self.projections@.len(),
                self.projections@.len() == other.projections@.len(),
                forall|j: int| 0 <= j < i ==> self.projections@[j] == other.projections@[j],
            decreases self.projections@.len() - i,
        {
            if self.projections[i] != other.projections[i] {
                return false;
            }
            i += 1;
        }
        assert(self.projections@ =~= other.projections@);
        true
    }
}

/// The keys as plain values.
pub open spec fn keys_view(keys: Seq<MoveKey>) -> Seq<(LocalID, Seq<TrackedProjection>)> {
    keys.map_values(|k: MoveKey| key_view(k))
}

/// The number of the key equal to `k`, if there is one: the first.
#[verifier::opaque]
pub open spec fn key_index(keys: Seq<(LocalID, Seq<TrackedProjection>)>, k: (LocalID, Seq<TrackedProjection>)) -> Option<usize> {
    if exists|i: int| 0 <= i < keys.len() && keys[i] == k {
        Some((choose|i: int| 0 <= i < keys.len() && keys[i] == k && forall|j: int| 0 <= j < i ==> keys[j] != k) as usize)
    } else {
        None
    }
}

/// The number of a key stands for that key.
pub proof fn lemma_key_index(keys: Seq<KeyView>, k: KeyView)
    requires
        keys.len() <= usize::MAX,
    ensures
        key_index(keys, k) matches Some(id) ==> id < keys.len() && keys[id as int] == k,
        key_index(keys, k) is None ==> !keys.contains(k),
{
    reveal(key_index);
    if exists|i: int| 0 <= i < keys.len() && keys[i] == k {
        let i = choose|i: int| 0 <= i < keys.len() && keys[i] == k;
        let c = choose|c: int| 0 <= c < keys.len() && keys[c] == k && forall|j: int| 0 <= j < c ==> keys[j] != k;
        assert(0 <= c < keys.len() && keys[c] == k && forall|j: int| 0 <= j < c ==> keys[j] != k) by {
            lemma_first_index(keys, k, i);
        }
    }
}

/// Where a key occurs, it has a first occurrence.
proof fn lemma_first_index(keys: Seq<KeyView>, k: KeyView, i: int)
    requires
        0 <= i < keys.len(),
        keys[i] == k,
    ensures
        exists|c: int| 0 <= c < keys.len() && keys[c] == k && forall|j: int| 0 <= j < c ==> keys[j] != k,
    decreases i,
{
    if exists|j: int| 0 <= j < i && keys[j] == k {
        let j = choose|j: int| 0 <= j < i && keys[j] == k;
        lemma_first_index(keys, k, j);
    } else {
        assert(0 <= i < keys.len() && keys[i] == k && forall|j: int| 0 <= j < i ==> keys[j] != k);
    }
}

/// Finds the number of the key equal to `key`, if there is one.
pub fn find_key(keys: &Vec<MoveKey>, key: &MoveKey) -> (r: Option<usize>)
    ensures
        r == key_index(keys_view(keys@), key_view(*key)),
        r matches Some(i) ==> i < keys@.len(),
{
    let ghost kv = keys_view(keys@);
    proof {
        reveal(key_index);
    }
    let mut i: usize = 0;
    while i < keys.len()
        invariant
            i <= keys@.len(),
            kv == keys_view(keys@),
            forall|j: int| 0 <= j < i ==> kv[j] != key_view(*key),
        decreases keys@.len() - i,
    {
        proof {
            reveal(key_index);
        }
        if keys[i].same(key) {
            proof {
                assert(kv[i as int] == key_view(*key));
                let c = choose|c: int| 0 <= c < kv.len() && kv[c] == key_view(*key) && forall|j: int| 0 <= j < c ==> kv[j] != key_view(*key);
                if c < i {
                } else if c > i {
                    assert(kv[i as int] != key_view(*key));
                }
            }
            return Some(i);
        }
        i += 1;
    }
    proof {
        assert(!exists|i: int| 0 <= i < kv.len() && kv[i] == key_view(*key));
    }
    None
}

/// Which keys a key's mask covers: itself, and every key strictly inside
/// it.
pub open spec fn affects(target: (LocalID, Seq<TrackedProjection>), k: (LocalID, Seq<TrackedProjection>)) -> bool {
    ||| k == target
    ||| (target.0 == k.0 && target.1.len() < k.1.len() && target.1 == k.1.take(target.1.len() as int))
}

/// For each key, the set of the keys it covers: itself and the places
/// inside it.
pub fn affected_masks(keys: &Vec<MoveKey>) -> (r: Vec<BitSet>)
    ensures
        r@.len() == keys@.len(),
        forall|t: int|
            0 <= t < r@.len() ==> (#[trigger] r@[t]).capacity() == keys@.len() && forall|id: nat|
                r@[t].members().contains(id) <==> id < keys@.len() && affects(
                    key_view(keys@[t]),
                    key_view(keys@[id as int]),
                ),
{
    let n = keys.len();
    let mut masks: Vec<BitSet> = Vec::new();
    let mut t: usize = 0;
    while t < n
        invariant
            t <= n,
            n == keys@.len(),
            masks@.len() == t,
            forall|t2: int|
                0 <= t2 < t ==> (#[trigger] masks@[t2]).capacity() == n && forall|id: nat|
                    masks@[t2].members().contains(id) <==> id < n && affects(
                        key_view(keys@[t2]),
                        key_view(keys@[id as int]),
                    ),
        decreases n - t,
    {
        let target = &keys[t];
        let mut mask = BitSet::new(n);
        let mut id: usize = 0;
        while id < n
            invariant
                id <= n,
                n == keys@.len(),
                *target == keys@[t as int],
                mask.capacity() == n,
                forall|j: nat|
                    mask.members().contains(j) <==> j < id && affects(
                        key_view(keys@[t as int]),
                        key_view(keys@[j as int]),
                    ),
            decreases n - id,
        {
            let k = &keys[id];
            if k.same(target) || target.is_strict_prefix(k) {
                mask.insert(id);
            }
            id += 1;
        }
        masks.push(mask);
        t += 1;
    }
    masks
}

/// A change of the initialization of a key: it becomes initialized, or
/// uninitialized.
#[derive(Debug, Clone, Copy, PartialEq, Eq, Structural)]
pub enum InitOp {
    Init(usize),
    Uninit(usize),
}

/// Every change names a key below `n`.
pub open spec fn ops_within(ops: Seq<InitOp>, n: nat) -> bool {
    forall|k: int| 0 <= k < ops.len() ==> match #[trigger] ops[k] {
        InitOp::Init(t) => t < n,
        InitOp::Uninit(t) => t < n,
    }
}

impl IdInitMap {
    /// The same map.
    pub fn duplicate(&self) -> (r: Self)
        ensures
            r.wf() == self.wf(),
            r.capacity() == self.capacity(),
            r.may_init() == self.may_init(),
            r.may_uninit() == self.may_uninit(),
    {
        IdInitMap { uninit: self.uninit.duplicate(), init: self.init.duplicate() }
    }
}

/// The sets of possibly initialized and possibly uninitialized keys after
/// the changes `ops`, one after the other: each change marks its key's mask.
pub open spec fn apply_spec(
    init: Set<nat>,
    uninit: Set<nat>,
    ops: Seq<InitOp>,
    masks: Seq<Set<nat>>,
) -> (Set<nat>, Set<nat>)
    decreases ops.len(),
{
    if ops.len() == 0 {
        (init, uninit)
    } else {
        let (i0, u0) = apply_spec(init, uninit, ops.drop_last(), masks);
        match ops.last() {
            InitOp::Init(id) => (i0.union(masks[id as int]), u0.difference(masks[id as int])),
            InitOp::Uninit(id) => (i0.difference(masks[id as int]), u0.union(masks[id as int])),
        }
    }
}

/// Applying changes keeps apart what may be initialized and what may be
/// uninitialized when they were apart; no change leaves the sets as they
/// were; after a last change `Init(id)` every place of mask `id` may be
/// initialized and none may be uninitialized, and after `Uninit(id)` the
/// other way round. This holds whatever the masks and the sets hold.
pub proof fn lemma_apply_spec_laws(init: Set<nat>, uninit: Set<nat>, ops: Seq<InitOp>, masks: Seq<Set<nat>>)
    requires
        init.disjoint(uninit),
    ensures
        apply_spec(init, uninit, ops, masks).0.disjoint(apply_spec(init, uninit, ops, masks).1),
        apply_spec(init, uninit, Seq::empty(), masks) == (init, uninit),
        ops.len() > 0 ==> match ops.last() {
            InitOp::Init(id) => masks[id as int].subset_of(apply_spec(init, uninit, ops, masks).0)
                && masks[id as int].disjoint(apply_spec(init, uninit, ops, masks).1),
            InitOp::Uninit(id) => masks[id as int].subset_of(apply_spec(init, uninit, ops, masks).1)
                && masks[id as int].disjoint(apply_spec(init, uninit, ops, masks).0),
        },
    decreases ops.len(),
{
    if ops.len() > 0 {
        lemma_apply_spec_laws(init, uninit, ops.drop_last(), masks);
    }
}

/// The members of each mask.
pub open spec fn masks_view(masks: Seq<BitSet>) -> Seq<Set<nat>> {
    masks.map_values(|m: BitSet| m.members())
}

/// The map after the changes `ops`, one after the other.
pub fn apply_ops(input: &IdInitMap, ops: &Vec<InitOp>, affected: &Vec<BitSet>) -> (r: IdInitMap)
    requires
        input.wf(),
        forall|k: int| 0 <= k < ops@.len() ==> match #[trigger] ops@[k] {
            InitOp::Init(id) => id < affected@.len(),
            InitOp::Uninit(id) => id < affected@.len(),
        },
        forall|t: int| 0 <= t < affected@.len() ==> (#[trigger] affected@[t]).capacity() == input.capacity(),
    ensures
        r.wf(),
        r.capacity() == input.capacity(),
        (r.may_init(), r.may_uninit()) == apply_spec(
            input.may_init(),
            input.may_uninit(),
            ops@,
            masks_view(affected@),
        ),
{
    let mut res = input.duplicate();
    let mut k: usize = 0;
    while k < ops.len()
        invariant
            k <= ops@.len(),
            res.wf(),
            res.capacity() == input.capacity(),
            forall|j: int| 0 <= j < ops@.len() ==> match #[trigger] ops@[j] {
                InitOp::Init(id) => id < affected@.len(),
                InitOp::Uninit(id) => id < affected@.len(),
            },
            forall|t: int| 0 <= t < affected@.len() ==> (#[trigger] affected@[t]).capacity() == input.capacity(),
            (res.may_init(), res.may_uninit()) == apply_spec(
                input.may_init(),
                input.may_uninit(),
                ops@.take(k as int),
                masks_view(affected@),
            ),
        decreases ops@.len() - k,
    {
        proof {
            assert(ops@.take(k + 1).drop_last() =~= ops@.take(k as int));
            assert(ops@.take(k + 1).last() == ops@[k as int]);
        }
        match ops[k] {
            InitOp::Init(id) => {
                assert(ops@[k as int] matches InitOp::Init(i) && i < affected@.len());
                res.mark_init(&affected[id]);
            },
            InitOp::Uninit(id) => {
                assert(ops@[k as int] matches InitOp::Uninit(i) && i < affected@.len());
                res.mark_uninit(&affected[id]);
            },
        }
        k += 1;
    }
    assert(ops@.take(ops@.len() as int) =~= ops@);
    res
}

/// A key as plain values: a local and a path of tracked steps.
pub type KeyView = (LocalID, Seq<TrackedProjection>);

/// The change that makes the key `k` initialized, if it is tracked.
pub open spec fn key_init(keys: Seq<KeyView>, k: KeyView) -> Seq<InitOp> {
    match key_index(keys, k) {
        Some(id) => seq![InitOp::Init(id)],
        None => seq![],
    }
}

/// The changes an operand makes, in order: a moved place that is tracked
/// becomes uninitialized, and then the operands inside it make theirs.
pub open spec fn operand_moves(keys: Seq<KeyView>, op: MIROperand) -> Seq<InitOp>
    decreases op,
{
    match op {
        MIROperand::Constant(_, _) => seq![],
        MIROperand::Move(p) => (match key_index(keys, place_key(p)) {
            Some(id) => seq![InitOp::Uninit(id)],
            None => seq![],
        }) + place_moves(keys, p),
        MIROperand::Copy(p) => place_moves(keys, p),
    }
}

/// The changes the index operands of a place make, in order.
pub open spec fn place_moves(keys: Seq<KeyView>, p: MIRPlace) -> Seq<InitOp>
    decreases p,
{
    projs_moves(keys, p.projections@)
}

pub open spec fn projs_moves(keys: Seq<KeyView>, ps: Seq<MIRProjection>) -> Seq<InitOp>
    decreases ps,
{
    if ps.len() == 0 {
        seq![]
    } else {
        projs_moves(keys, ps.drop_last()) + match ps.last() {
            MIRProjection::Index { index } => operand_moves(keys, index),
            _ => seq![],
        }
    }
}

pub open spec fn operands_moves(keys: Seq<KeyView>, ops: Seq<MIROperand>) -> Seq<InitOp>
    decreases ops,
{
    if ops.len() == 0 {
        seq![]
    } else {
        operands_moves(keys, ops.drop_last()) + operand_moves(keys, ops.last())
    }
}

pub open spec fn fields_moves(keys: Seq<KeyView>, fs: Seq<(crate::common::Symbol, MIROperand)>) -> Seq<InitOp>
    decreases fs,
{
    if fs.len() == 0 {
        seq![]
    } else {
        fields_moves(keys, fs.drop_last()) + operand_moves(keys, fs.last().1)
    }
}

/// The changes the operands of a right-hand side make, in order.
pub open spec fn rvalue_moves(keys: Seq<KeyView>, rv: MIRRValue) -> Seq<InitOp> {
    match rv.kind {
        MIRRValueKind::BinOp(_, a, b) => operand_moves(keys, a) + operand_moves(keys, b),
        MIRRValueKind::Ref(p, _) => place_moves(keys, p),
        MIRRValueKind::AddressOf(p, _) => place_moves(keys, p),
        MIRRValueKind::Discriminant(p) => place_moves(keys, p),
        MIRRValueKind::Cast(op, _) => operand_moves(keys, op),
        MIRRValueKind::Use(op) => operand_moves(keys, op),
        MIRRValueKind::UnaryOp(_, op) => operand_moves(keys, op),
        MIRRValueKind::Metadata(op) => operand_moves(keys, op),
        MIRRValueKind::SizeOf(_) => seq![],
        MIRRValueKind::Constructor { args, .. } => match args {
            MIRConstructorArgs::NoArgs => seq![],
            MIRConstructorArgs::Tuple(ops) => operands_moves(keys, ops@),
            MIRConstructorArgs::Struct(fs) => fields_moves(keys, fs@),
        },
        MIRRValueKind::StructLit { fields, .. } => fields_moves(keys, fields@),
        MIRRValueKind::Tuple(ops, _) => operands_moves(keys, ops@),
    }
}

/// The changes a statement makes: those of the operands inside its
/// destination and of its right-hand side, and then its destination becomes
/// initialized.
pub open spec fn stmt_ops(keys: Seq<KeyView>, s: Stmt) -> Seq<InitOp> {
    match s {
        Stmt::Assign { dest, rvalue } => place_moves(keys, dest) + rvalue_moves(keys, rvalue)
            + key_init(keys, place_key(dest)),
    }
}

pub open spec fn stmts_ops(keys: Seq<KeyView>, ss: Seq<Stmt>) -> Seq<InitOp>
    decreases ss.len(),
{
    if ss.len() == 0 {
        seq![]
    } else {
        stmts_ops(keys, ss.drop_last()) + stmt_ops(keys, ss.last())
    }
}

/// The changes a terminator makes: those of its operands, and a call's
/// destination becomes initialized.
pub open spec fn terminator_ops(keys: Seq<KeyView>, t: MIRTerminator) -> Seq<InitOp> {
    match t {
        MIRTerminator::Call { arguments, dest, .. } => operands_moves(keys, arguments@) + key_init(
            keys,
            (dest, seq![]),
        ),
        MIRTerminator::Branch { cond, .. } => operand_moves(keys, cond),
        MIRTerminator::Switch { discriminant, .. } => operand_moves(keys, discriminant),
        MIRTerminator::Return { value, .. } => match value {
            Some(v) => operand_moves(keys, v),
            None => seq![],
        },
        _ => seq![],
    }
}

/// The changes a block makes, in order.
pub open spec fn block_ops(keys: Seq<KeyView>, b: crate::mir::basic_block::MIRBasicBlock) -> Seq<InitOp> {
    stmts_ops(keys, b.stmts@) + terminator_ops(keys, b.terminator)
}

/// Appends the changes an operand makes.
fn push_operand_moves(keys: &Vec<MoveKey>, op: &MIROperand, ops: &mut Vec<InitOp>)
    requires
        ops_within(old(ops)@, keys@.len()),
    ensures
        ops_within(final(ops)@, keys@.len()),
        final(ops)@ == old(ops)@ + operand_moves(keys_view(keys@), *op),
    decreases op,
{
    match op {
        MIROperand::Constant(_, _) => {
            assert(final(ops)@ =~= old(ops)@ + operand_moves(keys_view(keys@), *op));
        },
        MIROperand::Move(p) => {
            let k = p.as_move_key();
            match find_key(keys, &k) {
                Some(id) => ops.push(InitOp::Uninit(id)),
                None => {},
            }
            push_place_moves(keys, p, ops);
            assert(final(ops)@ =~= old(ops)@ + operand_moves(keys_view(keys@), *op));
        },
        MIROperand::Copy(p) => push_place_moves(keys, p, ops),
    }
}

/// Appends the changes the index operands of a place make.
fn push_place_moves(keys: &Vec<MoveKey>, p: &MIRPlace, ops: &mut Vec<InitOp>)
    requires
        ops_within(old(ops)@, keys@.len()),
    ensures
        ops_within(final(ops)@, keys@.len()),
        final(ops)@ == old(ops)@ + place_moves(keys_view(keys@), *p),
    decreases p,
{
    let ghost kv = keys_view(keys@);
    let ghost start = ops@;
    let mut i: usize = 0;
    while i < p.projections.len()
        invariant
            i <= p.projections@.len(),
            kv == keys_view(keys@),
            ops_within(ops@, keys@.len()),
            ops@ == start + projs_moves(kv, p.projections@.take(i as int)),
        decreases p.projections@.len() - i,
    {
        proof {
            broadcast use vstd::std_specs::vec::axiom_vec_index_decreases;
            assert(decreases_to!(p.projections => p.projections[i as int]));
        }
        match &p.projections[i] {
            MIRProjection::Index { index } => push_operand_moves(keys, index, ops),
            _ => {},
        }
        proof {
            let t = p.projections@.take(i + 1);
            assert(t.drop_last() =~= p.projections@.take(i as int));
            assert(t.last() == p.projections@[i as int]);
            assert(ops@ =~= start + projs_moves(kv, t));
        }
        i += 1;
    }
    assert(p.projections@.take(p.projections@.len() as int) =~= p.projections@);
}

/// Appends the changes of a list of operands.
fn push_operands_moves(keys: &Vec<MoveKey>, v: &Vec<MIROperand>, ops: &mut Vec<InitOp>)
    requires
        ops_within(old(ops)@, keys@.len()),
    ensures
        ops_within(final(ops)@, keys@.len()),
        final(ops)@ == old(ops)@ + operands_moves(keys_view(keys@), v@),
{
    let ghost kv = keys_view(keys@);
    let ghost start = ops@;
    let mut i: usize = 0;
    while i < v.len()
        invariant
            i <= v@.len(),
            kv == keys_view(keys@),
            ops_within(ops@, keys@.len()),
            ops@ == start + operands_moves(kv, v@.take(i as int)),
        decreases v@.len() - i,
    {
        push_operand_moves(keys, &v[i], ops);
        proof {
            let t = v@.take(i + 1);
            assert(t.drop_last() =~= v@.take(i as int));
            assert(t.last() == v@[i as int]);
            assert(ops@ =~= start + operands_moves(kv, t));
        }
        i += 1;
    }
    assert(v@.take(v@.len() as int) =~= v@);
}

/// Appends the changes of the operands of named fields.
fn push_fields_moves(
    keys: &Vec<MoveKey>,
    v: &Vec<(crate::common::Symbol, MIROperand)>,
    ops: &mut Vec<InitOp>,
)
    requires
        ops_within(old(ops)@, keys@.len()),
    ensures
        ops_within(final(ops)@, keys@.len()),
        final(ops)@ == old(ops)@ + fields_moves(keys_view(keys@), v@),
{
    let ghost kv = keys_view(keys@);
    let ghost start = ops@;
    let mut i: usize = 0;
    while i < v.len()
        invariant
            i <= v@.len(),
            kv == keys_view(keys@),
            ops_within(ops@, keys@.len()),
            ops@ == start + fields_moves(kv, v@.take(i as int)),
        decreases v@.len() - i,
    {
        push_operand_moves(keys, &v[i].1, ops);
        proof {
            let t = v@.take(i + 1);
            assert(t.drop_last() =~= v@.take(i as int));
            assert(t.last() == v@[i as int]);
            assert(ops@ =~= start + fields_moves(kv, t));
        }
        i += 1;
    }
    assert(v@.take(v@.len() as int) =~= v@);
}

/// Appends the changes of the operands of a right-hand side.
fn push_rvalue_moves(keys: &Vec<MoveKey>, rv: &MIRRValue, ops: &mut Vec<InitOp>)
    requires
        ops_within(old(ops)@, keys@.len()),
    ensures
        ops_within(final(ops)@, keys@.len()),
        final(ops)@ == old(ops)@ + rvalue_moves(keys_view(keys@), *rv),
{
    match &rv.kind {
        MIRRValueKind::BinOp(_, a, b) => {
            push_operand_moves(keys, a, ops);
            push_operand_moves(keys, b, ops);
        },
        MIRRValueKind::Ref(p, _) => push_place_moves(keys, p, ops),
        MIRRValueKind::AddressOf(p, _) => push_place_moves(keys, p, ops),
        MIRRValueKind::Discriminant(p) => push_place_moves(keys, p, ops),
        MIRRValueKind::Cast(op, _) => push_operand_moves(keys, op, ops),
        MIRRValueKind::Use(op) => push_operand_moves(keys, op, ops),
        MIRRValueKind::UnaryOp(_, op) => push_operand_moves(keys, op, ops),
        MIRRValueKind::Metadata(op) => push_operand_moves(keys, op, ops),
        MIRRValueKind::SizeOf(_) => {},
        MIRRValueKind::Constructor { args, .. } => match args {
            MIRConstructorArgs::NoArgs => {},
            MIRConstructorArgs::Tuple(v) => push_operands_moves(keys, v, ops),
            MIRConstructorArgs::Struct(fs) => push_fields_moves(keys, fs, ops),
        },
        MIRRValueKind::StructLit { fields, .. } => push_fields_moves(keys, fields, ops),
        MIRRValueKind::Tuple(v, _) => push_operands_moves(keys, v, ops),
    }
    assert(final(ops)@ =~= old(ops)@ + rvalue_moves(keys_view(keys@), *rv));
}

/// Appends the change that makes a tracked key initialized.
fn push_key_init(keys: &Vec<MoveKey>, k: &MoveKey, ops: &mut Vec<InitOp>)
    requires
        ops_within(old(ops)@, keys@.len()),
    ensures
        ops_within(final(ops)@, keys@.len()),
        final(ops)@ == old(ops)@ + key_init(keys_view(keys@), key_view(*k)),
{
    match find_key(keys, k) {
        Some(id) => ops.push(InitOp::Init(id)),
        None => {},
    }
    assert(final(ops)@ =~= old(ops)@ + key_init(keys_view(keys@), key_view(*k)));
}

/// Appends the changes a statement makes.
fn push_stmt_ops(keys: &Vec<MoveKey>, stmt: &Stmt, ops: &mut Vec<InitOp>)
    requires
        ops_within(old(ops)@, keys@.len()),
    ensures
        ops_within(final(ops)@, keys@.len()),
        final(ops)@ == old(ops)@ + stmt_ops(keys_view(keys@), *stmt),
{
    match stmt {
        Stmt::Assign { dest, rvalue } => {
            push_place_moves(keys, dest, ops);
            push_rvalue_moves(keys, rvalue, ops);
            let k = dest.as_move_key();
            push_key_init(keys, &k, ops);
        },
    }
    assert(final(ops)@ =~= old(ops)@ + stmt_ops(keys_view(keys@), *stmt));
}

/// The changes block `blk` makes to which keys are initialized, in order.
#[verifier::rlimit(40)]
pub fn compute_block_ops(keys: &Vec<MoveKey>, mir: &Mir, blk: crate::mir::BlockID) -> (r: Vec<InitOp>)
    requires
        blk.0 < mir.blocks@.len(),
    ensures
        r@ == block_ops(keys_view(keys@), mir.blocks@[blk.0 as int]),
        ops_within(r@, keys@.len()),
{
    let ghost kv = keys_view(keys@);
    let mut ops: Vec<InitOp> = Vec::new();
    let data = &mir.blocks[blk.0];
    let mut i: usize = 0;
    while i < data.stmts.len()
        invariant
            i <= data.stmts@.len(),
            kv == keys_view(keys@),
            ops_within(ops@, keys@.len()),
            ops@ == stmts_ops(kv, data.stmts@.take(i as int)),
        decreases data.stmts@.len() - i,
    {
        push_stmt_ops(keys, &data.stmts[i], &mut ops);
        proof {
            let t = data.stmts@.take(i + 1);
            assert(t.drop_last() =~= data.stmts@.take(i as int));
            assert(t.last() == data.stmts@[i as int]);
            assert(ops@ =~= stmts_ops(kv, t));
        }
        i += 1;
    }
    assert(data.stmts@.take(data.stmts@.len() as int) =~= data.stmts@);
    push_terminator_ops(keys, &data.terminator, &mut ops);
    ops
}

/// Appends the changes a terminator makes.
fn push_terminator_ops(keys: &Vec<MoveKey>, t: &MIRTerminator, ops: &mut Vec<InitOp>)
    requires
        ops_within(old(ops)@, keys@.len()),
    ensures
        ops_within(final(ops)@, keys@.len()),
        final(ops)@ == old(ops)@ + terminator_ops(keys_view(keys@), *t),
{
    match t {
        MIRTerminator::Call { arguments, dest, .. } => {
            push_operands_moves(keys, arguments, ops);
            let k = MoveKey { base: *dest, projections: Vec::new() };
            assert(key_view(k) == (*dest, Seq::<TrackedProjection>::empty()));
            push_key_init(keys, &k, ops);
        },
        MIRTerminator::Branch { cond, .. } => push_operand_moves(keys, cond, ops),
        MIRTerminator::Switch { discriminant, .. } => push_operand_moves(keys, discriminant, ops),
        MIRTerminator::Return { value, .. } => match value {
            Some(v) => push_operand_moves(keys, v, ops),
            None => {},
        },
        _ => {},
    }
    assert(final(ops)@ =~= old(ops)@ + terminator_ops(keys_view(keys@), *t));
}

/// The keys a place brings: its own when its local's type is not `Copy`,
/// and those of the operands inside it.
pub open spec fn place_keys(cp: Seq<bool>, p: MIRPlace) -> Set<KeyView>
    decreases p,
{
    (if !cp[p.local.0 as int] {
        set![place_key(p)]
    } else {
        Set::empty()
    }).union(projs_keys(cp, p.projections@))
}

pub open spec fn projs_keys(cp: Seq<bool>, ps: Seq<MIRProjection>) -> Set<KeyView>
    decreases ps,
{
    if ps.len() == 0 {
        Set::empty()
    } else {
        projs_keys(cp, ps.drop_last()).union(
            match ps.last() {
                MIRProjection::Index { index } => operand_keys(cp, index),
                _ => Set::empty(),
            },
        )
    }
}

/// The keys an operand brings: those of its place, if it has one.
pub open spec fn operand_keys(cp: Seq<bool>, op: MIROperand) -> Set<KeyView>
    decreases op,
{
    match op {
        MIROperand::Constant(_, _) => Set::empty(),
        MIROperand::Move(p) => place_keys(cp, p),
        MIROperand::Copy(p) => place_keys(cp, p),
    }
}

pub open spec fn operands_keys(cp: Seq<bool>, ops: Seq<MIROperand>) -> Set<KeyView>
    decreases ops,
{
    if ops.len() == 0 {
        Set::empty()
    } else {
        operands_keys(cp, ops.drop_last()).union(operand_keys(cp, ops.last()))
    }
}

pub open spec fn fields_keys(cp: Seq<bool>, fs: Seq<(crate::common::Symbol, MIROperand)>) -> Set<KeyView>
    decreases fs,
{
    if fs.len() == 0 {
        Set::empty()
    } else {
        fields_keys(cp, fs.drop_last()).union(operand_keys(cp, fs.last().1))
    }
}

/// The keys a right-hand side brings: those of the place it borrows or
/// reads, and those of its operands.
pub open spec fn rvalue_keys(cp: Seq<bool>, rv: MIRRValue) -> Set<KeyView> {
    match rv.kind {
        MIRRValueKind::BinOp(_, a, b) => operand_keys(cp, a).union(operand_keys(cp, b)),
        MIRRValueKind::Ref(p, _) => place_keys(cp, p),
        MIRRValueKind::AddressOf(p, _) => place_keys(cp, p),
        MIRRValueKind::Discriminant(p) => place_keys(cp, p),
        MIRRValueKind::Cast(op, _) => operand_keys(cp, op),
        MIRRValueKind::Use(op) => operand_keys(cp, op),
        MIRRValueKind::UnaryOp(_, op) => operand_keys(cp, op),
        MIRRValueKind::Metadata(op) => operand_keys(cp, op),
        MIRRValueKind::SizeOf(_) => Set::empty(),
        MIRRValueKind::Constructor { args, .. } => match args {
            MIRConstructorArgs::NoArgs => Set::empty(),
            MIRConstructorArgs::Tuple(ops) => operands_keys(cp, ops@),
            MIRConstructorArgs::Struct(fs) => fields_keys(cp, fs@),
        },
        MIRRValueKind::StructLit { fields, .. } => fields_keys(cp, fields@),
        MIRRValueKind::Tuple(ops, _) => operands_keys(cp, ops@),
    }
}

/// The keys the statements and the terminator of the blocks bring.
pub open spec fn blocks_keys(cp: Seq<bool>, bs: Seq<crate::mir::basic_block::MIRBasicBlock>) -> Set<KeyView>
    decreases bs.len(),
{
    if bs.len() == 0 {
        Set::empty()
    } else {
        blocks_keys(cp, bs.drop_last()).union(stmts_keys(cp, bs.last().stmts@)).union(
            terminator_keys(cp, bs.last().terminator),
        )
    }
}

pub open spec fn stmts_keys(cp: Seq<bool>, ss: Seq<Stmt>) -> Set<KeyView>
    decreases ss.len(),
{
    if ss.len() == 0 {
        Set::empty()
    } else {
        stmts_keys(cp, ss.drop_last()).union(
            match ss.last() {
                Stmt::Assign { dest, rvalue } => place_keys(cp, dest).union(rvalue_keys(cp, rvalue)),
            },
        )
    }
}

/// The keys a terminator brings: those of its operands.
pub open spec fn terminator_keys(cp: Seq<bool>, t: MIRTerminator) -> Set<KeyView> {
    match t {
        MIRTerminator::Call { arguments, .. } => operands_keys(cp, arguments@),
        MIRTerminator::Branch { cond, .. } => operand_keys(cp, cond),
        MIRTerminator::Switch { discriminant, .. } => operand_keys(cp, discriminant),
        MIRTerminator::Return { value, .. } => match value {
            Some(v) => operand_keys(cp, v),
            None => Set::empty(),
        },
        _ => Set::empty(),
    }
}

/// The places whose initialization is tracked: every local whose type is
/// not `Copy`, and every place of such a local that the body mentions.
pub open spec fn mir_keys(mir: Mir, cp: Seq<bool>) -> Set<KeyView> {
    Set::new(|k: KeyView| k.1 == Seq::<TrackedProjection>::empty() && k.0.0 < cp.len() && !cp[k.0.0 as int]).union(
        blocks_keys(cp, mir.blocks@),
    )
}

/// Adds a key if it is not there yet.
fn insert_key(keys: &mut Vec<MoveKey>, k: MoveKey)
    requires
        keys_view(old(keys)@).no_duplicates(),
    ensures
        keys_view(final(keys)@).no_duplicates(),
        keys_view(final(keys)@).to_set() == keys_view(old(keys)@).to_set().insert(key_view(k)),
{
    let ghost kv = keys_view(keys@);
    let len = keys.len();
    proof {
        assert(kv.len() == len);
        lemma_key_index(kv, key_view(k));
    }
    match find_key(keys, &k) {
        Some(_) => {
            proof {
                let i = choose|i: int| 0 <= i < kv.len() && kv[i] == key_view(k);
                assert(kv.to_set().contains(key_view(k)));
                assert(kv.to_set().insert(key_view(k)) =~= kv.to_set());
            }
        },
        None => {
            let ghost kk = key_view(k);
            keys.push(k);
            proof {
                let nv = keys_view(keys@);
                assert(nv =~= kv.push(kk));
                assert(!kv.contains(kk));
                assert(nv.to_set() =~= kv.to_set().insert(kk)) by {
                    assert forall|x: KeyView| nv.to_set().contains(x) <==> kv.to_set().insert(kk).contains(x) by {
                        if nv.contains(x) && x != kk {
                            let i = choose|i: int| 0 <= i < nv.len() && nv[i] == x;
                            assert(kv[i] == x);
                        }
                        if kv.contains(x) {
                            let i = choose|i: int| 0 <= i < kv.len() && kv[i] == x;
                            assert(nv[i] == x);
                        }
                        if x == kk {
                            assert(nv[kv.len() as int] == kk);
                        }
                    }
                }
            }
        },
    }
}

/// Adds the keys a place brings.
fn record_place(cp: &Vec<bool>, place: &MIRPlace, out: &mut Vec<MoveKey>)
    requires
        keys_view(old(out)@).no_duplicates(),
        bounded(place_uses(*place), cp@.len()),
    ensures
        keys_view(final(out)@).no_duplicates(),
        keys_view(final(out)@).to_set() == keys_view(old(out)@).to_set().union(place_keys(cp@, *place)),
    decreases place,
{
    let ghost start = keys_view(out@).to_set();
    assert(place_uses(*place).contains(place.local.0 as nat));
    if !cp[place.local.0] {
        insert_key(out, place.as_move_key());
    }
    let ghost own = if !cp@[place.local.0 as int] {
        set![place_key(*place)]
    } else {
        Set::<KeyView>::empty()
    };
    assert(keys_view(out@).to_set() =~= start.union(own));
    let mut i: usize = 0;
    while i < place.projections.len()
        invariant
            i <= place.projections@.len(),
            bounded(place_uses(*place), cp@.len()),
            keys_view(out@).no_duplicates(),
            keys_view(out@).to_set() == start.union(own).union(
                projs_keys(cp@, place.projections@.take(i as int)),
            ),
        decreases place.projections@.len() - i,
    {
        proof {
            broadcast use vstd::std_specs::vec::axiom_vec_index_decreases;
            assert(decreases_to!(place.projections => place.projections[i as int]));
            lemma_projections_uses_prefix(place.projections@, i + 1);
            let t = place.projections@.take(i + 1);
            assert(t.drop_last() =~= place.projections@.take(i as int));
            assert(t.last() == place.projections@[i as int]);
            assert forall|l: nat| projection_uses(place.projections@[i as int]).contains(l) implies l
                < cp@.len() by {
                assert(projections_uses(t).contains(l));
                assert(projections_uses(place.projections@).contains(l));
                assert(place_uses(*place).contains(l));
            }
        }
        match &place.projections[i] {
            MIRProjection::Index { index } => {
                assert(projection_uses(place.projections@[i as int]) == operand_uses(*index));
                record_operand(cp, index, out);
            },
            _ => {},
        }
        proof {
            let t = place.projections@.take(i + 1);
            assert(keys_view(out@).to_set() =~= start.union(own).union(projs_keys(cp@, t)));
        }
        i += 1;
    }
    assert(place.projections@.take(place.projections@.len() as int) =~= place.projections@);
    assert(keys_view(out@).to_set() =~= start.union(place_keys(cp@, *place)));
}

/// Adds the keys an operand brings.
fn record_operand(cp: &Vec<bool>, op: &MIROperand, out: &mut Vec<MoveKey>)
    requires
        keys_view(old(out)@).no_duplicates(),
        bounded(operand_uses(*op), cp@.len()),
    ensures
        keys_view(final(out)@).no_duplicates(),
        keys_view(final(out)@).to_set() == keys_view(old(out)@).to_set().union(operand_keys(cp@, *op)),
    decreases op,
{
    match op {
        MIROperand::Move(p) => record_place(cp, p, out),
        MIROperand::Copy(p) => record_place(cp, p, out),
        MIROperand::Constant(_, _) => {
            assert(keys_view(out@).to_set() =~= keys_view(old(out)@).to_set().union(operand_keys(cp@, *op)));
        },
    }
}

/// Adds the keys a list of operands brings.
fn record_operands(cp: &Vec<bool>, ops: &Vec<MIROperand>, out: &mut Vec<MoveKey>)
    requires
        keys_view(old(out)@).no_duplicates(),
        bounded(operands_uses(ops@), cp@.len()),
    ensures
        keys_view(final(out)@).no_duplicates(),
        keys_view(final(out)@).to_set() == keys_view(old(out)@).to_set().union(operands_keys(cp@, ops@)),
{
    let ghost start = keys_view(out@).to_set();
    let mut i: usize = 0;
    while i < ops.len()
        invariant
            i <= ops@.len(),
            bounded(operands_uses(ops@), cp@.len()),
            keys_view(out@).no_duplicates(),
            keys_view(out@).to_set() == start.union(operands_keys(cp@, ops@.take(i as int))),
        decreases ops@.len() - i,
    {
        proof {
            lemma_operands_uses_prefix(ops@, i + 1);
            let t = ops@.take(i + 1);
            assert(t.drop_last() =~= ops@.take(i as int));
            assert(t.last() == ops@[i as int]);
            assert forall|l: nat| operand_uses(ops@[i as int]).contains(l) implies l < cp@.len() by {
                assert(operands_uses(t).contains(l));
                assert(operands_uses(ops@).contains(l));
            }
        }
        record_operand(cp, &ops[i], out);
        proof {
            let t = ops@.take(i + 1);
            assert(keys_view(out@).to_set() =~= start.union(operands_keys(cp@, t)));
        }
        i += 1;
    }
    assert(ops@.take(ops@.len() as int) =~= ops@);
}

/// Adds the keys the operands of named fields bring.
fn record_fields(cp: &Vec<bool>, fs: &Vec<(crate::common::Symbol, MIROperand)>, out: &mut Vec<MoveKey>)
    requires
        keys_view(old(out)@).no_duplicates(),
        bounded(fields_uses(fs@), cp@.len()),
    ensures
        keys_view(final(out)@).no_duplicates(),
        keys_view(final(out)@).to_set() == keys_view(old(out)@).to_set().union(fields_keys(cp@, fs@)),
{
    let ghost start = keys_view(out@).to_set();
    let mut i: usize = 0;
    while i < fs.len()
        invariant
            i <= fs@.len(),
            bounded(fields_uses(fs@), cp@.len()),
            keys_view(out@).no_duplicates(),
            keys_view(out@).to_set() == start.union(fields_keys(cp@, fs@.take(i as int))),
        decreases fs@.len() - i,
    {
        proof {
            lemma_fields_uses_prefix(fs@, i + 1);
            let t = fs@.take(i + 1);
            assert(t.drop_last() =~= fs@.take(i as int));
            assert(t.last() == fs@[i as int]);
            assert forall|l: nat| operand_uses(fs@[i as int].1).contains(l) implies l < cp@.len() by {
                assert(fields_uses(t).contains(l));
                assert(fields_uses(fs@).contains(l));
            }
        }
        record_operand(cp, &fs[i].1, out);
        proof {
            let t = fs@.take(i + 1);
            assert(keys_view(out@).to_set() =~= start.union(fields_keys(cp@, t)));
        }
        i += 1;
    }
    assert(fs@.take(fs@.len() as int) =~= fs@);
}

/// Adds the keys a right-hand side brings.
fn record_rvalue(cp: &Vec<bool>, rv: &MIRRValue, out: &mut Vec<MoveKey>)
    requires
        keys_view(old(out)@).no_duplicates(),
        bounded(rvalue_uses(*rv), cp@.len()),
    ensures
        keys_view(final(out)@).no_duplicates(),
        keys_view(final(out)@).to_set() == keys_view(old(out)@).to_set().union(rvalue_keys(cp@, *rv)),
{
    match &rv.kind {
        MIRRValueKind::BinOp(_, a, b) => {
            assert(rvalue_uses(*rv) == operand_uses(*a).union(operand_uses(*b)));
            assert forall|l: nat| operand_uses(*a).contains(l) implies l < cp@.len() by {
                assert(rvalue_uses(*rv).contains(l));
            }
            assert forall|l: nat| operand_uses(*b).contains(l) implies l < cp@.len() by {
                assert(rvalue_uses(*rv).contains(l));
            }
            record_operand(cp, a, out);
            record_operand(cp, b, out);
        },
        MIRRValueKind::Ref(p, _) => record_place(cp, p, out),
        MIRRValueKind::AddressOf(p, _) => record_place(cp, p, out),
        MIRRValueKind::Discriminant(p) => record_place(cp, p, out),
        MIRRValueKind::Cast(op, _) => record_operand(cp, op, out),
        MIRRValueKind::Use(op) => record_operand(cp, op, out),
        MIRRValueKind::UnaryOp(_, op) => record_operand(cp, op, out),
        MIRRValueKind::Metadata(op) => record_operand(cp, op, out),
        MIRRValueKind::SizeOf(_) => {},
        MIRRValueKind::Constructor { args, .. } => match args {
            MIRConstructorArgs::NoArgs => {},
            MIRConstructorArgs::Tuple(v) => record_operands(cp, v, out),
            MIRConstructorArgs::Struct(fs) => record_fields(cp, fs, out),
        },
        MIRRValueKind::StructLit { fields, .. } => record_fields(cp, fields, out),
        MIRRValueKind::Tuple(v, _) => record_operands(cp, v, out),
    }
    assert(keys_view(out@).to_set() =~= keys_view(old(out)@).to_set().union(rvalue_keys(cp@, *rv)));
}

/// Adds the keys a terminator brings.
fn record_terminator(cp: &Vec<bool>, t: &MIRTerminator, out: &mut Vec<MoveKey>)
    requires
        keys_view(old(out)@).no_duplicates(),
        bounded(terminator_uses(*t), cp@.len()),
    ensures
        keys_view(final(out)@).no_duplicates(),
        keys_view(final(out)@).to_set() == keys_view(old(out)@).to_set().union(terminator_keys(cp@, *t)),
{
    match t {
        MIRTerminator::Call { arguments, .. } => record_operands(cp, arguments, out),
        MIRTerminator::Branch { cond, .. } => record_operand(cp, cond, out),
        MIRTerminator::Switch { discriminant, .. } => record_operand(cp, discriminant, out),
        MIRTerminator::Return { value, .. } => match value {
            Some(v) => record_operand(cp, v, out),
            None => {},
        },
        _ => {},
    }
    assert(keys_view(out@).to_set() =~= keys_view(old(out)@).to_set().union(terminator_keys(cp@, *t)));
}

/// The places whose initialization is tracked, each once: every local
/// whose type is not `Copy` (as `copy_locals` says of each local), and
/// every place of such a local that the body mentions, up to its first
/// index.
pub fn compute_move_key_set(mir: &Mir, copy_locals: &Vec<bool>) -> (r: Vec<MoveKey>)
    requires
        copy_locals@.len() == mir.locals@.len(),
        mir.locals_within(),
    ensures
        keys_view(r@).no_duplicates(),
        keys_view(r@).to_set() == mir_keys(*mir, copy_locals@),
{
    let cp = copy_locals;
    let ghost n = cp@.len();
    let mut set: Vec<MoveKey> = Vec::new();
    let ghost locals = Set::new(|k: KeyView| k.1 == Seq::<TrackedProjection>::empty() && k.0.0 < n && !cp@[k.0.0 as int]);
    assert(keys_view(set@) =~= Seq::<KeyView>::empty());
    let mut l: usize = 0;
    while l < mir.locals.len()
        invariant
            l <= n,
            n == cp@.len(),
            n == mir.locals@.len(),
            keys_view(set@).no_duplicates(),
            keys_view(set@).to_set() == Set::new(
                |k: KeyView| k.1 == Seq::<TrackedProjection>::empty() && k.0.0 < l && !cp@[k.0.0 as int],
            ),
        decreases n - l,
    {
        let ghost before = keys_view(set@).to_set();
        if !cp[l] {
            let k = MoveKey { base: LocalID(l), projections: Vec::new() };
            insert_key(&mut set, k);
        }
        proof {
            assert(keys_view(set@).to_set() =~= Set::new(
                |k: KeyView| k.1 == Seq::<TrackedProjection>::empty() && k.0.0 < l + 1 && !cp@[k.0.0 as int],
            ));
        }
        l += 1;
    }
    assert(keys_view(set@).to_set() =~= locals);
    let mut b: usize = 0;
    while b < mir.blocks.len()
        invariant
            b <= mir.blocks@.len(),
            n == cp@.len(),
            n == mir.locals@.len(),
            mir.locals_within(),
            keys_view(set@).no_duplicates(),
            keys_view(set@).to_set() == locals.union(blocks_keys(cp@, mir.blocks@.take(b as int))),
        decreases mir.blocks@.len() - b,
    {
        let data = &mir.blocks[b];
        proof {
            assert(block_all_locals_within(mir.blocks@[b as int], n));
        }
        let ghost s0 = keys_view(set@).to_set();
        let mut i: usize = 0;
        while i < data.stmts.len()
            invariant
                i <= data.stmts@.len(),
                n == cp@.len(),
                *data == mir.blocks@[b as int],
                block_all_locals_within(*data, n),
                keys_view(set@).no_duplicates(),
                keys_view(set@).to_set() == s0.union(stmts_keys(cp@, data.stmts@.take(i as int))),
            decreases data.stmts@.len() - i,
        {
            assert(stmt_locals_within(data.stmts@[i as int], n));
            match &data.stmts[i] {
                Stmt::Assign { dest, rvalue } => {
                    record_place(cp, dest, &mut set);
                    record_rvalue(cp, rvalue, &mut set);
                },
            }
            proof {
                let t = data.stmts@.take(i + 1);
                assert(t.drop_last() =~= data.stmts@.take(i as int));
                assert(t.last() == data.stmts@[i as int]);
                assert(keys_view(set@).to_set() =~= s0.union(stmts_keys(cp@, t)));
            }
            i += 1;
        }
        assert(data.stmts@.take(data.stmts@.len() as int) =~= data.stmts@);
        record_terminator(cp, &data.terminator, &mut set);
        proof {
            let t = mir.blocks@.take(b + 1);
            assert(t.drop_last() =~= mir.blocks@.take(b as int));
            assert(t.last() == mir.blocks@[b as int]);
            assert(keys_view(set@).to_set() =~= locals.union(blocks_keys(cp@, t)));
        }
        b += 1;
    }
    assert(mir.blocks@.take(mir.blocks@.len() as int) =~= mir.blocks@);
    set
}

/// What is known of one key at a point: whether it may be initialized and
/// whether it may be uninitialized there. Joining adds both.
#[derive(Debug, Clone, Copy, PartialEq, Eq, Structural)]
pub struct KeyFacts {
    pub may_init: bool,
    pub may_uninit: bool,
}

impl Lattice for KeyFacts {
    open spec fn spec_bottom() -> Self {
        KeyFacts { may_init: false, may_uninit: false }
    }

    open spec fn spec_join(self, other: Self) -> Self {
        KeyFacts {
            may_init: self.may_init || other.may_init,
            may_uninit: self.may_uninit || other.may_uninit,
        }
    }

    proof fn lemma_join_commutative(a: Self, b: Self) {
    }

    proof fn lemma_join_associative(a: Self, b: Self, c: Self) {
    }

    proof fn lemma_join_idempotent(a: Self) {
    }

    open spec fn height(self) -> nat {
        (if self.may_init {
            1nat
        } else {
            0nat
        }) + (if self.may_uninit {
            1nat
        } else {
            0nat
        })
    }

    open spec fn max_height() -> nat {
        2
    }

    proof fn lemma_height(a: Self, b: Self) {
    }

    fn bottom() -> (r: Self) {
        KeyFacts { may_init: false, may_uninit: false }
    }

    fn duplicate(&self) -> (r: Self) {
        *self
    }

    fn join(&self, other: &Self) -> (r: Self) {
        KeyFacts {
            may_init: self.may_init || other.may_init,
            may_uninit: self.may_uninit || other.may_uninit,
        }
    }

    fn join_assign(&mut self, other: &Self) -> (c: LatticeChange) {
        let joined = self.join(other);
        let changed = joined != *self;
        *self = joined;
        LatticeChange::from(changed)
    }
}

/// What is known of key `id` after the changes `ops`: a change whose mask
/// covers `id` makes it surely initialized or surely uninitialized; the
/// others leave it as it was.
pub open spec fn key_apply(ops: Seq<InitOp>, masks: Seq<Set<nat>>, id: nat, f: KeyFacts) -> KeyFacts
    decreases ops.len(),
{
    if ops.len() == 0 {
        f
    } else {
        let g = key_apply(ops.drop_last(), masks, id, f);
        match ops.last() {
            InitOp::Init(t) => if masks[t as int].contains(id) {
                KeyFacts { may_init: true, may_uninit: false }
            } else {
                g
            },
            InitOp::Uninit(t) => if masks[t as int].contains(id) {
                KeyFacts { may_init: false, may_uninit: true }
            } else {
                g
            },
        }
    }
}

/// What a map says of key `id`.
pub open spec fn facts_of(m: IdInitMap, id: nat) -> KeyFacts {
    KeyFacts { may_init: m.may_init().contains(id), may_uninit: m.may_uninit().contains(id) }
}

/// The changes act on each key on its own: what the map says of a key
/// after the changes is what the changes do to what it said before.
pub proof fn lemma_apply_per_key(
    init: Set<nat>,
    uninit: Set<nat>,
    ops: Seq<InitOp>,
    masks: Seq<Set<nat>>,
    id: nat,
)
    ensures
        ({
            let (i, u) = apply_spec(init, uninit, ops, masks);
            KeyFacts { may_init: i.contains(id), may_uninit: u.contains(id) }
        }) == key_apply(ops, masks, id, KeyFacts { may_init: init.contains(id), may_uninit: uninit.contains(id) }),
    decreases ops.len(),
{
    if ops.len() > 0 {
        lemma_apply_per_key(init, uninit, ops.drop_last(), masks, id);
    }
}

/// What the changes `ops` do to the facts of key `id`.
fn key_transfer(ops: &Vec<InitOp>, affected: &Vec<BitSet>, id: usize, f: KeyFacts) -> (r: KeyFacts)
    requires
        forall|k: int| 0 <= k < ops@.len() ==> match #[trigger] ops@[k] {
            InitOp::Init(t) => t < affected@.len(),
            InitOp::Uninit(t) => t < affected@.len(),
        },
    ensures
        r == key_apply(ops@, masks_view(affected@), id as nat, f),
{
    let mut g = f;
    let mut k: usize = 0;
    while k < ops.len()
        invariant
            k <= ops@.len(),
            forall|j: int| 0 <= j < ops@.len() ==> match #[trigger] ops@[j] {
                InitOp::Init(t) => t < affected@.len(),
                InitOp::Uninit(t) => t < affected@.len(),
            },
            g == key_apply(ops@.take(k as int), masks_view(affected@), id as nat, f),
        decreases ops@.len() - k,
    {
        proof {
            assert(ops@.take(k + 1).drop_last() =~= ops@.take(k as int));
            assert(ops@.take(k + 1).last() == ops@[k as int]);
        }
        match ops[k] {
            InitOp::Init(t) => {
                assert(ops@[k as int] matches InitOp::Init(x) && x < affected@.len());
                if affected[t].contains(id) {
                    g = KeyFacts { may_init: true, may_uninit: false };
                }
            },
            InitOp::Uninit(t) => {
                assert(ops@[k as int] matches InitOp::Uninit(x) && x < affected@.len());
                if affected[t].contains(id) {
                    g = KeyFacts { may_init: false, may_uninit: true };
                }
            },
        }
        k += 1;
    }
    assert(ops@.take(ops@.len() as int) =~= ops@);
    g
}

/// The outcome of the initialization analysis: the tracked keys, the mask
/// of each, and what is known at the entry of each block.
pub struct MIRInitOut {
    keys: Vec<MoveKey>,
    affected: Vec<BitSet>,
    init_in: Vec<IdInitMap>,
}

impl MIRInitOut {
    /// The tracked keys, as plain values.
    pub closed spec fn keys(&self) -> Seq<KeyView> {
        keys_view(self.keys@)
    }

    /// The mask of each key.
    pub closed spec fn masks(&self) -> Seq<Set<nat>> {
        masks_view(self.affected@)
    }

    /// What is known at the entry of each block.
    pub closed spec fn entry_states(&self) -> Seq<IdInitMap> {
        self.init_in@
    }

    /// The masks and the states all range over the keys.
    pub closed spec fn wf(&self) -> bool {
        let n = self.keys@.len();
        &&& self.affected@.len() == n
        &&& forall|t: int| 0 <= t < n ==> (#[trigger] self.affected@[t]).capacity() == n
        &&& forall|b: int| 0 <= b < self.init_in@.len() ==> (#[trigger] self.init_in@[b]).wf()
            && self.init_in@[b].capacity() == n
    }

    /// The mask of the key equal to `key`, if it is tracked.
    fn mask(&self, key: &MoveKey) -> (r: Option<&BitSet>)
        requires
            self.wf(),
        ensures
            match key_index(self.keys(), key_view(*key)) {
                Some(id) => r == Some(&self.affected@[id as int]) && id < self.keys().len(),
                None => r is None,
            },
    {
        let len = self.keys.len();
        match find_key(&self.keys, key) {
            Some(id) => {
                proof {
                    assert(keys_view(self.keys@).len() == len);
                    lemma_key_index(keys_view(self.keys@), key_view(*key));
                }
                Some(&self.affected[id])
            },
            None => None,
        }
    }

    /// What is known at the entry of block `blk`.
    pub fn entry_state(&self, blk: BlockID) -> (r: IdInitMap)
        requires
            self.wf(),
            blk.0 < self.entry_states().len(),
        ensures
            r.wf(),
            r.capacity() == self.entry_states()[blk.0 as int].capacity(),
            r.may_init() == self.entry_states()[blk.0 as int].may_init(),
            r.may_uninit() == self.entry_states()[blk.0 as int].may_uninit(),
    {
        self.init_in[blk.0].duplicate()
    }

    /// Marks the place `key` and every place inside it initialized in
    /// `state`; nothing changes for a place that is not tracked.
    pub fn mark_init(&self, state: &mut IdInitMap, key: &MoveKey)
        requires
            self.wf(),
            old(state).wf(),
            old(state).capacity() == self.keys().len(),
        ensures
            final(state).wf(),
            final(state).capacity() == old(state).capacity(),
            match key_index(self.keys(), key_view(*key)) {
                Some(id) => final(state).may_init() == old(state).may_init().union(self.masks()[id as int])
                    && final(state).may_uninit() == old(state).may_uninit().difference(self.masks()[id as int]),
                None => final(state).may_init() == old(state).may_init() && final(state).may_uninit()
                    == old(state).may_uninit(),
            },
    {
        match self.mask(key) {
            Some(mask) => state.mark_init(mask),
            None => {},
        }
    }

    /// Marks the place `key` and every place inside it uninitialized in
    /// `state`; nothing changes for a place that is not tracked.
    pub fn mark_uninit(&self, state: &mut IdInitMap, key: &MoveKey)
        requires
            self.wf(),
            old(state).wf(),
            old(state).capacity() == self.keys().len(),
        ensures
            final(state).wf(),
            final(state).capacity() == old(state).capacity(),
            match key_index(self.keys(), key_view(*key)) {
                Some(id) => final(state).may_uninit() == old(state).may_uninit().union(self.masks()[id as int])
                    && final(state).may_init() == old(state).may_init().difference(self.masks()[id as int]),
                None => final(state).may_init() == old(state).may_init() && final(state).may_uninit()
                    == old(state).may_uninit(),
            },
    {
        match self.mask(key) {
            Some(mask) => state.mark_uninit(mask),
            None => {},
        }
    }

    /// The state of the place `key` in `state`: initialized when it is not
    /// tracked.
    pub fn query(&self, state: &IdInitMap, key: &MoveKey) -> (r: InitState)
        requires
            self.wf(),
        ensures
            r == self.query_of(*state, key_view(*key)),
    {
        state.query(self.mask(key))
    }

    /// What `query` answers for the place `key` in `state`.
    pub open spec fn query_of(&self, state: IdInitMap, key: KeyView) -> InitState {
        match key_index(self.keys(), key) {
            Some(id) => query_spec(state, self.masks()[id as int]),
            None => InitState::Init,
        }
    }
}

/// A query of a tracked place answers `Init` after the place was marked
/// initialized and `Uninit` after it was marked uninitialized (whatever was
/// known before), and a place that is not tracked is initialized in every
/// state. Each key's mask holds the key itself, as `run` computes them.
pub proof fn lemma_query_after_mark(out: MIRInitOut, key: KeyView, s: IdInitMap, s_init: IdInitMap, s_uninit: IdInitMap)
    requires
        out.keys().len() <= usize::MAX,
        forall|t: int| 0 <= t < out.keys().len() ==> (#[trigger] out.masks()[t]).contains(t as nat),
        out.masks().len() == out.keys().len(),
        key_index(out.keys(), key) matches Some(id) ==> {
            &&& s_init.may_init() == s.may_init().union(out.masks()[id as int])
            &&& s_init.may_uninit() == s.may_uninit().difference(out.masks()[id as int])
            &&& s_uninit.may_uninit() == s.may_uninit().union(out.masks()[id as int])
            &&& s_uninit.may_init() == s.may_init().difference(out.masks()[id as int])
        },
    ensures
        key_index(out.keys(), key) is Some ==> out.query_of(s_init, key) == InitState::Init && out.query_of(
            s_uninit,
            key,
        ) == InitState::Uninit,
        key_index(out.keys(), key) is None ==> out.query_of(s, key) == InitState::Init,
{
    if let Some(id) = key_index(out.keys(), key) {
        lemma_key_index(out.keys(), key);
        let mask = out.masks()[id as int];
        assert(mask.contains(id as nat));
        assert(!surely_init(s_uninit, id as nat));
        assert(forall|j: nat| mask.contains(j) ==> surely_init(s_init, j));
        assert(forall|j: nat| mask.contains(j) ==> surely_uninit(s_uninit, j));
    }
}

/// The changes that make each parameter initialized, in order.
pub open spec fn params_ops(keys: Seq<KeyView>, ps: Seq<LocalID>) -> Seq<InitOp>
    decreases ps.len(),
{
    if ps.len() == 0 {
        seq![]
    } else {
        params_ops(keys, ps.drop_last()) + key_init(keys, (ps.last(), seq![]))
    }
}

/// What is known of key `id` on entry to the body: it may be
/// uninitialized, unless it is a parameter or lies inside one, in which
/// case it is surely initialized.
pub open spec fn entry_facts(keys: Seq<KeyView>, masks: Seq<Set<nat>>, ps: Seq<LocalID>, id: nat) -> KeyFacts {
    key_apply(params_ops(keys, ps), masks, id, KeyFacts { may_init: false, may_uninit: true })
}

/// The facts at the entry of block `b` are settled for key `id`: above the
/// entry facts for the entry block, and above what the changes of every
/// block that may jump to `b` make of the facts at that block's entry.
pub open spec fn init_settled(
    mir: Mir,
    keys: Seq<KeyView>,
    masks: Seq<Set<nat>>,
    states: Seq<IdInitMap>,
    b: int,
    id: nat,
) -> bool {
    &&& (b == mir.entry.0 ==> below(entry_facts(keys, masks, mir.parameters@, id), facts_of(states[b], id)))
    &&& forall|p: int|
        0 <= p < mir.blocks@.len() && #[trigger] mir.targets(p).contains(b as usize) ==> below(
            key_apply(block_ops(keys, mir.blocks@[p]), masks, id, facts_of(states[p], id)),
            facts_of(states[b], id),
        )
}

/// The facts of key `id`, block by block, are settled at block `b`.
pub open spec fn key_settled(
    mir: Mir,
    keys: Seq<KeyView>,
    masks: Seq<Set<nat>>,
    facts: Seq<KeyFacts>,
    b: int,
    id: nat,
) -> bool {
    &&& (b == mir.entry.0 ==> below(entry_facts(keys, masks, mir.parameters@, id), facts[b]))
    &&& forall|p: int|
        0 <= p < mir.blocks@.len() && #[trigger] mir.targets(p).contains(b as usize) ==> below(
            key_apply(block_ops(keys, mir.blocks@[p]), masks, id, facts[p]),
            facts[b],
        )
}

/// The change touches key `id`: its mask holds it.
pub open spec fn op_touches(op: InitOp, masks: Seq<Set<nat>>, id: nat) -> bool {
    match op {
        InitOp::Init(t) => masks[t as int].contains(id),
        InitOp::Uninit(t) => masks[t as int].contains(id),
    }
}

/// No change of `ops` touches key `id`.
pub open spec fn passes(ops: Seq<InitOp>, masks: Seq<Set<nat>>, id: nat) -> bool {
    forall|k: int| 0 <= k < ops.len() ==> !#[trigger] op_touches(ops[k], masks, id)
}

/// Changes that do not touch a key leave its facts as they are; changes
/// that touch it set its facts whatever they were.
pub proof fn lemma_key_apply_cases(ops: Seq<InitOp>, masks: Seq<Set<nat>>, id: nat, g: KeyFacts, h: KeyFacts)
    ensures
        passes(ops, masks, id) ==> key_apply(ops, masks, id, g) == g,
        !passes(ops, masks, id) ==> key_apply(ops, masks, id, g) == key_apply(ops, masks, id, h),
    decreases ops.len(),
{
    if ops.len() > 0 {
        let d = ops.drop_last();
        lemma_key_apply_cases(d, masks, id, g, h);
        if passes(ops, masks, id) {
            assert forall|k: int| 0 <= k < d.len() implies !#[trigger] op_touches(d[k], masks, id) by {
                assert(d[k] == ops[k]);
            }
            assert(!op_touches(ops[ops.len() - 1], masks, id));
        } else if !op_touches(ops.last(), masks, id) {
            let k = choose|k: int| 0 <= k < ops.len() && #[trigger] op_touches(ops[k], masks, id);
            assert(k != ops.len() - 1);
            assert(d[k] == ops[k]);
        }
    }
}

/// Changes keep the order of facts: from facts below others, they make
/// facts below what they make of the others.
pub proof fn lemma_key_apply_monotone(ops: Seq<InitOp>, masks: Seq<Set<nat>>, id: nat, g: KeyFacts, h: KeyFacts)
    requires
        below(g, h),
    ensures
        below(key_apply(ops, masks, id, g), key_apply(ops, masks, id, h)),
{
    lemma_key_apply_cases(ops, masks, id, g, h);
    lemma_key_apply_cases(ops, masks, id, h, g);
    let x = key_apply(ops, masks, id, g);
    let y = key_apply(ops, masks, id, h);
    if passes(ops, masks, id) {
        assert(x == g && y == h);
    } else {
        assert(x == y);
        assert(x.spec_join(y) =~= y);
    }
}

/// What key `id` may be at the entry of block `b` along the paths of at
/// most `k` jumps from the entry of the body: the facts on entry to the
/// body at its entry block, and what the changes of each block that may
/// jump to `b` make of what the key may be at that block's entry.
pub open spec fn init_reach(mir: Mir, keys: Seq<KeyView>, masks: Seq<Set<nat>>, id: nat, b: int, k: nat) -> KeyFacts
    decreases k,
{
    let base = if b == mir.entry.0 {
        entry_facts(keys, masks, mir.parameters@, id)
    } else {
        KeyFacts { may_init: false, may_uninit: false }
    };
    if k == 0 {
        base
    } else {
        KeyFacts {
            may_init: base.may_init || exists|p: int|
                0 <= p < mir.blocks@.len() && #[trigger] mir.targets(p).contains(b as usize) && key_apply(
                    block_ops(keys, mir.blocks@[p]),
                    masks,
                    id,
                    init_reach(mir, keys, masks, id, p, (k - 1) as nat),
                ).may_init,
            may_uninit: base.may_uninit || exists|p: int|
                0 <= p < mir.blocks@.len() && #[trigger] mir.targets(p).contains(b as usize) && key_apply(
                    block_ops(keys, mir.blocks@[p]),
                    masks,
                    id,
                    init_reach(mir, keys, masks, id, p, (k - 1) as nat),
                ).may_uninit,
        }
    }
}

/// What key `id` may be at the entry of block `b`: initialized if some path
/// from the entry of the body gets it there initialized, and uninitialized
/// if some path gets it there uninitialized.
pub open spec fn init_at_entry(mir: Mir, keys: Seq<KeyView>, masks: Seq<Set<nat>>, id: nat, b: int) -> KeyFacts {
    KeyFacts {
        may_init: exists|k: nat| #[trigger] init_reach(mir, keys, masks, id, b, k).may_init,
        may_uninit: exists|k: nat| #[trigger] init_reach(mir, keys, masks, id, b, k).may_uninit,
    }
}

/// Along a jump from `p` to `b`, what the changes of `p` make of what the
/// key may be at the entry of `p` is something it may be at the entry of
/// `b`.
proof fn lemma_init_edge(mir: Mir, keys: Seq<KeyView>, masks: Seq<Set<nat>>, id: nat, p: int, b: usize)
    requires
        0 <= p < mir.blocks@.len(),
        mir.targets(p).contains(b),
    ensures
        below(
            key_apply(block_ops(keys, mir.blocks@[p]), masks, id, init_at_entry(mir, keys, masks, id, p)),
            init_at_entry(mir, keys, masks, id, b as int),
        ),
{
    let ops = block_ops(keys, mir.blocks@[p]);
    assert(mir.targets(p).contains((b as int) as usize));
    let rp = init_at_entry(mir, keys, masks, id, p);
    let out = key_apply(ops, masks, id, rp);
    let rb = init_at_entry(mir, keys, masks, id, b as int);
    if !passes(ops, masks, id) {
        let r0 = init_reach(mir, keys, masks, id, p, 0);
        lemma_key_apply_cases(ops, masks, id, rp, r0);
        let r1 = init_reach(mir, keys, masks, id, b as int, 1);
        if out.may_init {
            assert(r1.may_init);
        }
        if out.may_uninit {
            assert(r1.may_uninit);
        }
    } else {
        lemma_key_apply_cases(ops, masks, id, rp, rp);
        if out.may_init {
            let k = choose|k: nat| #[trigger] init_reach(mir, keys, masks, id, p, k).may_init;
            lemma_key_apply_cases(ops, masks, id, init_reach(mir, keys, masks, id, p, k), rp);
            assert(init_reach(mir, keys, masks, id, b as int, k + 1).may_init);
        }
        if out.may_uninit {
            let k = choose|k: nat| #[trigger] init_reach(mir, keys, masks, id, p, k).may_uninit;
            lemma_key_apply_cases(ops, masks, id, init_reach(mir, keys, masks, id, p, k), rp);
            assert(init_reach(mir, keys, masks, id, b as int, k + 1).may_uninit);
        }
    }
}

/// Where the facts of key `id` are settled at every block, they are above
/// what the key may be along every path.
proof fn lemma_init_reach_settled(
    mir: Mir,
    keys: Seq<KeyView>,
    masks: Seq<Set<nat>>,
    facts: Seq<KeyFacts>,
    id: nat,
    b: int,
    k: nat,
)
    requires
        mir.jumps_within(),
        facts.len() == mir.blocks@.len(),
        forall|c: int| 0 <= c < mir.blocks@.len() ==> #[trigger] key_settled(mir, keys, masks, facts, c, id),
        0 <= b < mir.blocks@.len(),
    ensures
        below(init_reach(mir, keys, masks, id, b, k), facts[b]),
    decreases k,
{
    assert(key_settled(mir, keys, masks, facts, b, id));
    if k > 0 {
        let r = init_reach(mir, keys, masks, id, b, k);
        if r.may_init && !(b == mir.entry.0 && entry_facts(keys, masks, mir.parameters@, id).may_init) {
            let p = choose|p: int|
                0 <= p < mir.blocks@.len() && #[trigger] mir.targets(p).contains(b as usize) && key_apply(
                    block_ops(keys, mir.blocks@[p]),
                    masks,
                    id,
                    init_reach(mir, keys, masks, id, p, (k - 1) as nat),
                ).may_init;
            lemma_init_reach_settled(mir, keys, masks, facts, id, p, (k - 1) as nat);
            lemma_key_apply_monotone(
                block_ops(keys, mir.blocks@[p]),
                masks,
                id,
                init_reach(mir, keys, masks, id, p, (k - 1) as nat),
                facts[p],
            );
        }
        if r.may_uninit && !(b == mir.entry.0 && entry_facts(keys, masks, mir.parameters@, id).may_uninit) {
            let p = choose|p: int|
                0 <= p < mir.blocks@.len() && #[trigger] mir.targets(p).contains(b as usize) && key_apply(
                    block_ops(keys, mir.blocks@[p]),
                    masks,
                    id,
                    init_reach(mir, keys, masks, id, p, (k - 1) as nat),
                ).may_uninit;
            lemma_init_reach_settled(mir, keys, masks, facts, id, p, (k - 1) as nat);
            lemma_key_apply_monotone(
                block_ops(keys, mir.blocks@[p]),
                masks,
                id,
                init_reach(mir, keys, masks, id, p, (k - 1) as nat),
                facts[p],
            );
        }
    }
}

impl MIRInitAnalysis {
    /// Runs the analysis: the tracked keys (every local whose type is not
    /// `Copy`, as `copy_locals` says, and every place of one that the body
    /// mentions), the mask of each, and for each block what is known of each
    /// key at its entry, settled over the body's jumps.
    pub fn run(&self, mir: &Mir, copy_locals: &Vec<bool>) -> (r: MIRInitOut)
        requires
            mir.jumps_within(),
            mir.locals_within(),
            copy_locals@.len() == mir.locals@.len(),
        ensures
            r.wf(),
            r.keys().no_duplicates(),
            r.keys().to_set() == mir_keys(*mir, copy_locals@),
            r.masks().len() == r.keys().len(),
            forall|t: int, id: nat|
                0 <= t < r.keys().len() ==> (#[trigger] r.masks()[t].contains(id) <==> id < r.keys().len()
                    && affects(r.keys()[t], r.keys()[id as int])),
            r.entry_states().len() == mir.blocks@.len(),
            forall|b: int, id: nat|
                0 <= b < mir.blocks@.len() && id < r.keys().len() ==> #[trigger] init_settled(
                    *mir,
                    r.keys(),
                    r.masks(),
                    r.entry_states(),
                    b,
                    id,
                ),
            forall|b: int, id: nat|
                0 <= b < mir.blocks@.len() && id < r.keys().len() ==> #[trigger] facts_of(
                    r.entry_states()[b],
                    id,
                ) == init_at_entry(*mir, r.keys(), r.masks(), id, b),
    {
        let keys = compute_move_key_set(mir, copy_locals);
        let n = keys.len();
        let affected = affected_masks(&keys);
        let ghost kv = keys_view(keys@);
        let ghost masks = masks_view(affected@);
        let nb = mir.blocks.len();
        let mut all_ops: Vec<Vec<InitOp>> = Vec::new();
        let mut b: usize = 0;
        while b < nb
            invariant
                b <= nb,
                nb == mir.blocks@.len(),
                n == keys@.len(),
                kv == keys_view(keys@),
                all_ops@.len() == b,
                forall|c: int| 0 <= c < b ==> (#[trigger] all_ops@[c])@ == block_ops(kv, mir.blocks@[c]),
                forall|c: int| 0 <= c < b ==> ops_within((#[trigger] all_ops@[c])@, n as nat),
            decreases nb - b,
        {
            all_ops.push(compute_block_ops(&keys, mir, BlockID(b)));
            b += 1;
        }
        let mut pops: Vec<InitOp> = Vec::new();
        let mut i: usize = 0;
        while i < mir.parameters.len()
            invariant
                i <= mir.parameters@.len(),
                n == keys@.len(),
                kv == keys_view(keys@),
                pops@ == params_ops(kv, mir.parameters@.take(i as int)),
                ops_within(pops@, n as nat),
            decreases mir.parameters@.len() - i,
        {
            let k = MoveKey { base: mir.parameters[i], projections: Vec::new() };
            assert(key_view(k) == (mir.parameters@[i as int], Seq::<TrackedProjection>::empty()));
            push_key_init(&keys, &k, &mut pops);
            proof {
                let t = mir.parameters@.take(i + 1);
                assert(t.drop_last() =~= mir.parameters@.take(i as int));
                assert(t.last() == mir.parameters@[i as int]);
            }
            i += 1;
        }
        assert(mir.parameters@.take(mir.parameters@.len() as int) =~= mir.parameters@);
        let entry = mir.entry.0;
        let mut per_key: Vec<Vec<KeyFacts>> = Vec::new();
        let mut id: usize = 0;
        while id < n
            invariant
                id <= n,
                n == keys@.len(),
                nb == mir.blocks@.len(),
                mir.jumps_within(),
                entry == mir.entry.0,
                kv == keys_view(keys@),
                masks == masks_view(affected@),
                affected@.len() == n,
                pops@ == params_ops(kv, mir.parameters@),
                ops_within(pops@, n as nat),
                all_ops@.len() == nb,
                forall|c: int| 0 <= c < nb ==> (#[trigger] all_ops@[c])@ == block_ops(kv, mir.blocks@[c]),
                forall|c: int| 0 <= c < nb ==> ops_within((#[trigger] all_ops@[c])@, n as nat),
                per_key@.len() == id,
                forall|j: int| 0 <= j < id ==> (#[trigger] per_key@[j])@.len() == nb,
                forall|j: nat, c: int|
                    j < id && 0 <= c < nb ==> #[trigger] key_settled(*mir, kv, masks, per_key@[j as int]@, c, j),
                forall|j: nat, c: int|
                    j < id && 0 <= c < nb ==> #[trigger] per_key@[j as int]@[c] == init_at_entry(
                        *mir,
                        kv,
                        masks,
                        j,
                        c,
                    ),
            decreases n - id,
        {
            let start = key_transfer(&pops, &affected, id, KeyFacts { may_init: false, may_uninit: true });
            let mut seed: Vec<Option<KeyFacts>> = Vec::new();
            let mut c: usize = 0;
            while c < nb
                invariant
                    c <= nb,
                    seed@.len() == c,
                    forall|d: int| 0 <= d < c ==> seed@[d] == if d == entry {
                        Some(start)
                    } else {
                        None
                    },
                decreases nb - c,
            {
                if c == entry {
                    seed.push(Some(start));
                } else {
                    seed.push(None);
                }
                c += 1;
            }
            let ops_ref = &all_ops;
            let aff_ref = &affected;
            let transfer = |blk: usize, l: &KeyFacts| -> (res: KeyFacts)
                requires
                    blk < ops_ref@.len(),
                    ops_within(ops_ref@[blk as int]@, aff_ref@.len() as nat),
                ensures
                    res == key_apply(ops_ref@[blk as int]@, masks_view(aff_ref@), id as nat, *l),
                { key_transfer(&ops_ref[blk], aff_ref, id, *l) };
            let ghost j = id as nat;
            let ghost inv_in = |c: int, f: KeyFacts| below(f, init_at_entry(*mir, kv, masks, j, c));
            let ghost inv_out = |c: int, f: KeyFacts|
                below(f, key_apply(block_ops(kv, mir.blocks@[c]), masks, j, init_at_entry(*mir, kv, masks, j, c)));
            proof {
                assert forall|p: int, b2: usize, x: KeyFacts|
                    0 <= p < nb && #[trigger] mir.targets(p).contains(b2) && #[trigger] inv_out(p, x) implies inv_in(
                    b2 as int,
                    x,
                ) by {
                    lemma_init_edge(*mir, kv, masks, j, p, b2);
                    lemma_below_transitive(
                        x,
                        key_apply(block_ops(kv, mir.blocks@[p]), masks, j, init_at_entry(*mir, kv, masks, j, p)),
                        init_at_entry(*mir, kv, masks, j, b2 as int),
                    );
                }
                assert forall|c2: int| 0 <= c2 < nb implies (#[trigger] seed_at(seed_view(Some(&seed)), c2) matches Some(
                    v,
                ) ==> inv_in(c2, v)) by {
                    if c2 == entry {
                        assert(start == entry_facts(kv, masks, mir.parameters@, j));
                        assert(init_reach(*mir, kv, masks, j, c2, 0) == entry_facts(kv, masks, mir.parameters@, j));
                    }
                }
                assert forall|c2: usize, x: KeyFacts, t: KeyFacts|
                    c2 < nb && inv_in(c2 as int, x) && #[trigger] transfer.ensures((c2, &x), t) implies inv_out(
                    c2 as int,
                    t,
                ) by {
                    lemma_key_apply_monotone(
                        block_ops(kv, mir.blocks@[c2 as int]),
                        masks,
                        j,
                        x,
                        init_at_entry(*mir, kv, masks, j, c2 as int),
                    );
                }
                assert(mir_keeps(
                    *mir,
                    Direction::Forward,
                    transfer,
                    seed_view(Some(&seed)),
                    seed_view(None::<&Vec<Option<KeyFacts>>>),
                    inv_in,
                    inv_out,
                ));
            }
            let res = mir.fixed_point_iter_with(
                Direction::Forward,
                transfer,
                Some(&seed),
                None,
                Ghost(inv_in),
                Ghost(inv_out),
            );
            proof {
                assert forall|c2: int| 0 <= c2 < nb implies #[trigger] key_settled(*mir, kv, masks, res.block_in@, c2, j) by {
                    assert(settled_forward(*mir, c2, seed_view(Some(&seed)), res.block_in@, res.block_out@, transfer));
                    if c2 == entry {
                        assert(seed_at(seed_view(Some(&seed)), c2) == Some(start));
                    }
                    assert forall|p: int|
                        0 <= p < nb && #[trigger] mir.targets(p).contains(c2 as usize) implies below(
                        key_apply(block_ops(kv, mir.blocks@[p]), masks, j, res.block_in@[p]),
                        res.block_in@[c2],
                    ) by {
                        assert(settled_forward(*mir, p, seed_view(Some(&seed)), res.block_in@, res.block_out@, transfer));
                        let t = choose|t: KeyFacts| #[trigger] transfer.ensures((p as usize, &res.block_in@[p]), t)
                            && below(t, res.block_out@[p]);
                        assert(t == key_apply(block_ops(kv, mir.blocks@[p]), masks, j, res.block_in@[p]));
                        lemma_below_transitive(t, res.block_out@[p], res.block_in@[c2]);
                    }
                }
            }
            proof {
                assert forall|c2: int| 0 <= c2 < nb implies #[trigger] res.block_in@[c2] == init_at_entry(
                    *mir,
                    kv,
                    masks,
                    j,
                    c2,
                ) by {
                    let f = res.block_in@[c2];
                    let r = init_at_entry(*mir, kv, masks, j, c2);
                    assert(inv_in(c2, f));
                    if r.may_init {
                        let k = choose|k: nat| #[trigger] init_reach(*mir, kv, masks, j, c2, k).may_init;
                        lemma_init_reach_settled(*mir, kv, masks, res.block_in@, j, c2, k);
                    }
                    if r.may_uninit {
                        let k = choose|k: nat| #[trigger] init_reach(*mir, kv, masks, j, c2, k).may_uninit;
                        lemma_init_reach_settled(*mir, kv, masks, res.block_in@, j, c2, k);
                    }
                }
            }
            let ghost pk0 = per_key@;
            let ghost rin = res.block_in@;
            per_key.push(res.block_in);
            proof {
                assert forall|j2: nat, c2: int|
                    j2 < id + 1 && 0 <= c2 < nb implies #[trigger] per_key@[j2 as int]@[c2] == init_at_entry(
                    *mir,
                    kv,
                    masks,
                    j2,
                    c2,
                ) by {
                    if j2 == id {
                        assert(per_key@[j2 as int]@ == rin);
                    } else {
                        assert(per_key@[j2 as int] == pk0[j2 as int]);
                    }
                }
            }
            id += 1;
        }
        let mut init_in: Vec<IdInitMap> = Vec::new();
        let mut c: usize = 0;
        while c < nb
            invariant
                c <= nb,
                n == keys@.len(),
                nb == mir.blocks@.len(),
                per_key@.len() == n,
                forall|j: int| 0 <= j < n ==> (#[trigger] per_key@[j])@.len() == nb,
                init_in@.len() == c,
                forall|d: int| 0 <= d < c ==> (#[trigger] init_in@[d]).wf() && init_in@[d].capacity() == n,
                forall|d: int, j: nat|
                    0 <= d < c && j < n ==> #[trigger] facts_of(init_in@[d], j) == per_key@[j as int]@[d],
            decreases nb - c,
        {
            let mut mi = BitSet::new(n);
            let mut mu = BitSet::new(n);
            let mut j: usize = 0;
            while j < n
                invariant
                    j <= n,
                    n == keys@.len(),
                    c < nb,
                    per_key@.len() == n,
                    forall|j2: int| 0 <= j2 < n ==> (#[trigger] per_key@[j2])@.len() == nb,
                    mi.capacity() == n,
                    mu.capacity() == n,
                    forall|j2: nat| j2 < j ==> (#[trigger] mi.members().contains(j2)) == per_key@[j2 as int]@[c as int].may_init,
                    forall|j2: nat| j2 < j ==> (#[trigger] mu.members().contains(j2)) == per_key@[j2 as int]@[c as int].may_uninit,
                    forall|j2: nat| j2 >= j ==> !mi.members().contains(j2) && !mu.members().contains(j2),
                decreases n - j,
            {
                let f = per_key[j][c];
                if f.may_init {
                    mi.insert(j);
                }
                if f.may_uninit {
                    mu.insert(j);
                }
                j += 1;
            }
            let m = IdInitMap { uninit: mu, init: mi };
            proof {
                assert forall|j2: nat| j2 < n implies #[trigger] facts_of(m, j2) == per_key@[j2 as int]@[c as int] by {
                    assert(mi.members().contains(j2) == per_key@[j2 as int]@[c as int].may_init);
                    assert(mu.members().contains(j2) == per_key@[j2 as int]@[c as int].may_uninit);
                }
            }
            init_in.push(m);
            c += 1;
        }
        let r = MIRInitOut { keys, affected, init_in };
        proof {
            assert forall|b2: int, j: nat|
                0 <= b2 < nb && j < n implies #[trigger] init_settled(*mir, r.keys(), r.masks(), r.entry_states(), b2, j) by {
                assert(facts_of(r.init_in@[b2], j) == per_key@[j as int]@[b2]);
                assert(key_settled(*mir, kv, masks, per_key@[j as int]@, b2, j));
                assert forall|p: int|
                    0 <= p < nb && #[trigger] mir.targets(p).contains(b2 as usize) implies below(
                    key_apply(block_ops(kv, mir.blocks@[p]), masks, j, facts_of(r.init_in@[p], j)),
                    facts_of(r.init_in@[b2], j),
                ) by {
                    assert(facts_of(r.init_in@[p], j) == per_key@[j as int]@[p]);
                }
            }
            assert forall|b2: int, j: nat| 0 <= b2 < nb && j < n implies #[trigger] facts_of(
                r.entry_states()[b2],
                j,
            ) == init_at_entry(*mir, r.keys(), r.masks(), j, b2) by {
                assert(facts_of(r.init_in@[b2], j) == per_key@[j as int]@[b2]);
            }
        }
        r
    }
}
impl Mir {
    /// The initialization analysis of the body, with `copy_locals` saying
    /// which locals have a type that is copied rather than moved.
    pub fn init_tracking(&self, copy_locals: &Vec<bool>) -> (r: MIRInitOut)
        requires
            self.jumps_within(),
            self.locals_within(),
            copy_locals@.len() == self.locals@.len(),
        ensures
            r.wf(),
            r.keys().no_duplicates(),
            r.keys().to_set() == mir_keys(*self, copy_locals@),
            r.masks().len() == r.keys().len(),
            forall|t: int, id: nat|
                0 <= t < r.keys().len() ==> (#[trigger] r.masks()[t].contains(id) <==> id < r.keys().len()
                    && affects(r.keys()[t], r.keys()[id as int])),
            r.entry_states().len() == self.blocks@.len(),
            forall|b: int, id: nat|
                0 <= b < self.blocks@.len() && id < r.keys().len() ==> #[trigger] init_settled(
                    *self,
                    r.keys(),
                    r.masks(),
                    r.entry_states(),
                    b,
                    id,
                ),
            forall|b: int, id: nat|
                0 <= b < self.blocks@.len() && id < r.keys().len() ==> #[trigger] facts_of(
                    r.entry_states()[b],
                    id,
                ) == init_at_entry(*self, r.keys(), r.masks(), id, b),
    {
        MIRInitAnalysis.run(self, copy_locals)
    }
}

/// A block that ends in a call whose destination, as a whole, is a tracked
/// key makes that key initialized last: its last change is `Init` of that
/// key. So, however the changes are applied, the key is initialized and not
/// uninitialized at the exit of the block, where the call returns.
pub proof fn lemma_call_initializes_dest(
    keys: Seq<KeyView>,
    b: crate::mir::basic_block::MIRBasicBlock,
    init: Set<nat>,
    uninit: Set<nat>,
    masks: Seq<Set<nat>>,
)
    requires
        keys.len() <= usize::MAX,
        b.terminator is Call,
        keys.contains((b.terminator->Call_dest, Seq::<TrackedProjection>::empty())),
    ensures
        block_ops(keys, b).len() > 0,
        block_ops(keys, b).last() matches InitOp::Init(id) && id < keys.len() && keys[id as int] == (
            b.terminator->Call_dest,
            Seq::<TrackedProjection>::empty(),
        ),
        forall|id: usize|
            block_ops(keys, b).last() == InitOp::Init(id) && init.disjoint(uninit) && #[trigger] masks[id as int].contains(
                id as nat,
            ) ==> apply_spec(init, uninit, block_ops(keys, b), masks).0.contains(id as nat) && !apply_spec(
                init,
                uninit,
                block_ops(keys, b),
                masks,
            ).1.contains(id as nat),
{
    let k: KeyView = (b.terminator->Call_dest, Seq::<TrackedProjection>::empty());
    lemma_key_index(keys, k);
    let id = key_index(keys, k).unwrap();
    let t = terminator_ops(keys, b.terminator);
    assert(key_init(keys, k) == seq![InitOp::Init(id)]);
    assert(t.last() == InitOp::Init(id));
    let ops = block_ops(keys, b);
    assert(ops.last() == t.last());
    if init.disjoint(uninit) {
        lemma_apply_spec_laws(init, uninit, ops, masks);
    }
}

/// A statement whose destination is a tracked key makes that key
/// initialized last, after the moves of the operands it reads.
pub proof fn lemma_assign_initializes_dest(keys: Seq<KeyView>, s: Stmt)
    requires
        keys.len() <= usize::MAX,
        keys.contains(place_key(s->Assign_dest)),
    ensures
        stmt_ops(keys, s).len() > 0,
        stmt_ops(keys, s).last() matches InitOp::Init(id) && id < keys.len() && keys[id as int] == place_key(
            s->Assign_dest,
        ),
{
    lemma_key_index(keys, place_key(s->Assign_dest));
    let id = key_index(keys, place_key(s->Assign_dest)).unwrap();
    assert(key_init(keys, place_key(s->Assign_dest)) == seq![InitOp::Init(id)]);
}

/// Moving a place whose key is tracked makes that key uninitialized first;
/// copying a place, or a constant, makes no key uninitialized but those
/// moved in its index operands.
pub proof fn lemma_move_uninitializes(keys: Seq<KeyView>, p: MIRPlace)
    requires
        keys.len() <= usize::MAX,
    ensures
        keys.contains(place_key(p)) ==> operand_moves(keys, MIROperand::Move(p)).len() > 0,
        keys.contains(place_key(p)) ==> (operand_moves(keys, MIROperand::Move(p))[0] matches InitOp::Uninit(id)
            && id < keys.len() && keys[id as int] == place_key(p)),
        !keys.contains(place_key(p)) ==> operand_moves(keys, MIROperand::Move(p)) == operand_moves(
            keys,
            MIROperand::Copy(p),
        ),
        operand_moves(keys, MIROperand::Copy(p)) == place_moves(keys, p),
{
    lemma_key_index(keys, place_key(p));
    if keys.contains(place_key(p)) {
        let id = key_index(keys, place_key(p)).unwrap();
        assert((seq![InitOp::Uninit(id)] + place_moves(keys, p))[0] == InitOp::Uninit(id));
    } else {
        assert(seq![] + place_moves(keys, p) =~= place_moves(keys, p));
    }
}

} // verus!
