//! Basic blocks of MIR: statements and a terminator.
use vstd::prelude::*;
use crate::common::Span;
use crate::common::bitset::BitSet;
use super::operand::{
    MIRCallee, MIROperand, MIRPlace, MIRRValue, bounded, operand_uses, operands_uses,
    rvalue_uses, lemma_operands_uses_prefix, place_uses,
};
use super::{BlockID, LocalID, Mir};

verus! {

/// How a block ends.
pub enum MIRTerminator {
    /// This point cannot be reached; calling a function that never returns
    /// ends a block so.
    Diverge,
    Call { callee: MIRCallee, arguments: Vec<MIROperand>, dest: LocalID, next: BlockID, span: Span },
    Return { value: Option<MIROperand>, span: Span },
    Goto { next: BlockID },
    Branch { cond: MIROperand, then: BlockID, else_: BlockID, span: Span },
    /// The branches are kept in increasing order of their values, each value
    /// once.
    Switch {
        discriminant: MIROperand,
        branches: Vec<(u128, BlockID)>,
        default: BlockID,
        span: Span,
    },
}

/// The values of a switch's branches increase strictly, so that each
/// stands once.
pub open spec fn switch_keys_sorted(branches: Seq<(u128, BlockID)>) -> bool {
    forall|i: int, j: int| 0 <= i < j < branches.len() ==> #[trigger] branches[i].0 < #[trigger] branches[j].0
}

impl MIRTerminator {
    /// A switch keeps its branches in increasing order of their values.
    pub open spec fn wf(&self) -> bool {
        match self {
            MIRTerminator::Switch { branches, .. } => switch_keys_sorted(branches@),
            _ => true,
        }
    }

    /// Whether this terminator is well formed: a switch's values increase.
    pub fn is_wf(&self) -> (r: bool)
        ensures
            r == self.wf(),
    {
        match self {
            MIRTerminator::Switch { branches, .. } => {
                assert(self.wf() == switch_keys_sorted(branches@));
                let mut k: usize = 1;
                if branches.len() == 0 {
                    return true;
                }
                while k < branches.len()
                    invariant
                        1 <= k <= branches@.len(),
                        self.wf() == switch_keys_sorted(branches@),
                        forall|i: int, j: int| 0 <= i < j < k ==> #[trigger] branches@[i].0 < #[trigger] branches@[j].0,
                    decreases branches@.len() - k,
                {
                    if branches[k - 1].0 >= branches[k].0 {
                        let ghost a = (k - 1) as int;
                        let ghost c = k as int;
                        assert(0 <= a < c < branches@.len());
                        assert(!(branches@[a].0 < branches@[c].0));
                        assert(!switch_keys_sorted(branches@));
                        return false;
                    }
                    proof {
                        assert forall|i: int, j: int| 0 <= i < j < k + 1 implies #[trigger] branches@[i].0
                            < #[trigger] branches@[j].0 by {
                            if j == k && i < k - 1 {
                                assert(branches@[i].0 < branches@[k - 1].0);
                            }
                        }
                    }
                    k += 1;
                }
                true
            },
            _ => true,
        }
    }
}

/// A basic block.
pub struct MIRBasicBlock {
    pub stmts: Vec<Stmt>,
    pub terminator: MIRTerminator,
    pub name: Option<String>,
}

/// A statement.
pub enum Stmt {
    Assign { dest: MIRPlace, rvalue: MIRRValue },
}

impl MIRBasicBlock {
    /// An empty block that diverges.
    pub fn empty(name: Option<String>) -> (r: Self)
        ensures
            r.stmts@.len() == 0,
            r.terminator is Diverge,
            r.name == name,
    {
        Self::empty_with_terminator(name, MIRTerminator::Diverge)
    }

    /// An empty block with the given terminator.
    pub fn empty_with_terminator(name: Option<String>, terminator: MIRTerminator) -> (r: Self)
        ensures
            r.stmts@.len() == 0,
            r.terminator == terminator,
            r.name == name,
    {
        MIRBasicBlock { stmts: Vec::new(), terminator, name }
    }
}

/// The locals a terminator reads.
pub open spec fn terminator_uses(t: MIRTerminator) -> Set<nat> {
    match t {
        MIRTerminator::Goto { .. } => Set::empty(),
        MIRTerminator::Diverge => Set::empty(),
        MIRTerminator::Call { arguments, .. } => operands_uses(arguments@),
        MIRTerminator::Return { value, .. } => match value {
            Some(op) => operand_uses(op),
            None => Set::empty(),
        },
        MIRTerminator::Switch { discriminant, .. } => operand_uses(discriminant),
        MIRTerminator::Branch { cond, .. } => operand_uses(cond),
    }
}

/// The locals a terminator writes: the destination of a call.
pub open spec fn terminator_defs(t: MIRTerminator) -> Set<nat> {
    match t {
        MIRTerminator::Call { dest, .. } => set![dest.0 as nat],
        _ => Set::empty(),
    }
}

/// The local a statement writes.
pub open spec fn stmt_dest(s: Stmt) -> nat {
    match s {
        Stmt::Assign { dest, .. } => dest.local.0 as nat,
    }
}

/// The right-hand side of a statement.
pub open spec fn stmt_rvalue(s: Stmt) -> MIRRValue {
    match s {
        Stmt::Assign { rvalue, .. } => rvalue,
    }
}

/// The locals the statements write.
pub open spec fn stmts_defs(stmts: Seq<Stmt>) -> Set<nat>
    decreases stmts.len(),
{
    if stmts.len() == 0 {
        Set::empty()
    } else {
        stmts_defs(stmts.drop_last()).insert(stmt_dest(stmts.last()))
    }
}

/// The locals the statements read before writing them.
pub open spec fn stmts_exposed(stmts: Seq<Stmt>) -> Set<nat>
    decreases stmts.len(),
{
    if stmts.len() == 0 {
        Set::empty()
    } else {
        stmts_exposed(stmts.drop_last()).union(
            rvalue_uses(stmt_rvalue(stmts.last())).difference(stmts_defs(stmts.drop_last())),
        )
    }
}

/// The locals a block writes.
pub open spec fn block_defs(b: MIRBasicBlock) -> Set<nat> {
    terminator_defs(b.terminator).union(stmts_defs(b.stmts@))
}

/// The locals a block reads before writing them.
pub open spec fn block_uses(b: MIRBasicBlock) -> Set<nat> {
    stmts_exposed(b.stmts@).union(terminator_uses(b.terminator).difference(stmts_defs(b.stmts@)))
}

/// A local is among the writes of some statements exactly when one of them
/// writes it.
pub proof fn lemma_stmts_defs(stmts: Seq<Stmt>, l: nat)
    ensures
        stmts_defs(stmts).contains(l) <==> exists|k: int| 0 <= k < stmts.len() && stmt_dest(#[trigger] stmts[k]) == l,
    decreases stmts.len(),
{
    if stmts.len() > 0 {
        let init = stmts.drop_last();
        lemma_stmts_defs(init, l);
        if stmts_defs(stmts).contains(l) {
            if stmt_dest(stmts.last()) == l {
                assert(stmt_dest(stmts[stmts.len() - 1]) == l);
            } else {
                let k = choose|k: int| 0 <= k < init.len() && stmt_dest(#[trigger] init[k]) == l;
                assert(stmts[k] == init[k]);
            }
        }
        if exists|k: int| 0 <= k < stmts.len() && stmt_dest(#[trigger] stmts[k]) == l {
            let k = choose|k: int| 0 <= k < stmts.len() && stmt_dest(#[trigger] stmts[k]) == l;
            if k < init.len() {
                assert(init[k] == stmts[k]);
            }
        }
    }
}

/// A local is read by some statements before they write it exactly when
/// one of them reads it and no statement before that one writes it.
pub proof fn lemma_stmts_exposed(stmts: Seq<Stmt>, l: nat)
    ensures
        stmts_exposed(stmts).contains(l) <==> exists|j: int|
            0 <= j < stmts.len() && rvalue_uses(stmt_rvalue(#[trigger] stmts[j])).contains(l) && forall|k: int|
                0 <= k < j ==> stmt_dest(stmts[k]) != l,
    decreases stmts.len(),
{
    if stmts.len() > 0 {
        let init = stmts.drop_last();
        let n = stmts.len() - 1;
        lemma_stmts_exposed(init, l);
        lemma_stmts_defs(init, l);
        if stmts_exposed(stmts).contains(l) {
            if stmts_exposed(init).contains(l) {
                let j = choose|j: int|
                    0 <= j < init.len() && rvalue_uses(stmt_rvalue(#[trigger] init[j])).contains(l) && forall|k: int|
                        0 <= k < j ==> stmt_dest(init[k]) != l;
                assert(stmts[j] == init[j]);
                assert forall|k: int| 0 <= k < j implies stmt_dest(stmts[k]) != l by {
                    assert(stmts[k] == init[k]);
                }
            } else {
                assert(rvalue_uses(stmt_rvalue(stmts[n])).contains(l));
                assert forall|k: int| 0 <= k < n implies stmt_dest(stmts[k]) != l by {
                    assert(stmts[k] == init[k]);
                }
            }
        }
        if exists|j: int|
            0 <= j < stmts.len() && rvalue_uses(stmt_rvalue(#[trigger] stmts[j])).contains(l) && forall|k: int|
                0 <= k < j ==> stmt_dest(stmts[k]) != l {
            let j = choose|j: int|
                0 <= j < stmts.len() && rvalue_uses(stmt_rvalue(#[trigger] stmts[j])).contains(l) && forall|k: int|
                    0 <= k < j ==> stmt_dest(stmts[k]) != l;
            if j < n {
                assert(init[j] == stmts[j]);
                assert forall|k: int| 0 <= k < j implies stmt_dest(init[k]) != l by {
                    assert(stmts[k] == init[k]);
                }
            } else {
                assert(stmts.last() == stmts[j]);
                if stmts_defs(init).contains(l) {
                    let k = choose|k: int| 0 <= k < init.len() && stmt_dest(#[trigger] init[k]) == l;
                    assert(init[k] == stmts[k]);
                }
            }
        }
    }
}

/// What a block reads before writing it, stated on its statements in
/// order: a local that one of its statements reads with no earlier
/// statement writing it, or that its terminator reads and no statement
/// writes. A local a statement writes before any read of it is not read
/// first, even when the terminator reads it.
pub proof fn lemma_block_uses(b: MIRBasicBlock, l: nat)
    ensures
        block_uses(b).contains(l) <==> (exists|j: int|
            0 <= j < b.stmts@.len() && rvalue_uses(stmt_rvalue(#[trigger] b.stmts@[j])).contains(l) && forall|k: int|
                0 <= k < j ==> stmt_dest(b.stmts@[k]) != l) || (terminator_uses(b.terminator).contains(l) && forall|
            k: int,
        | 0 <= k < b.stmts@.len() ==> stmt_dest(#[trigger] b.stmts@[k]) != l),
{
    lemma_stmts_exposed(b.stmts@, l);
    lemma_stmts_defs(b.stmts@, l);
}

/// What a block writes: the destinations of its statements and, when it
/// ends in a call, the call's destination.
pub proof fn lemma_block_defs(b: MIRBasicBlock, l: nat)
    ensures
        block_defs(b).contains(l) <==> (exists|k: int| 0 <= k < b.stmts@.len() && stmt_dest(#[trigger] b.stmts@[k]) == l)
            || (b.terminator matches MIRTerminator::Call { dest, .. } && dest.0 == l),
{
    lemma_stmts_defs(b.stmts@, l);
}

/// A local that a statement of the block writes, with no statement up to
/// that one reading it, is not read first by the block.
pub proof fn lemma_written_first_not_used(b: MIRBasicBlock, l: nat, i: int)
    requires
        0 <= i < b.stmts@.len(),
        stmt_dest(b.stmts@[i]) == l,
        forall|j: int| 0 <= j <= i ==> !rvalue_uses(stmt_rvalue(#[trigger] b.stmts@[j])).contains(l),
    ensures
        !block_uses(b).contains(l),
        block_defs(b).contains(l),
{
    lemma_block_uses(b, l);
    lemma_stmts_defs(b.stmts@, l);
    if exists|j: int|
        0 <= j < b.stmts@.len() && rvalue_uses(stmt_rvalue(#[trigger] b.stmts@[j])).contains(l) && forall|k: int|
            0 <= k < j ==> stmt_dest(b.stmts@[k]) != l {
        let j = choose|j: int|
            0 <= j < b.stmts@.len() && rvalue_uses(stmt_rvalue(#[trigger] b.stmts@[j])).contains(l) && forall|k: int|
                0 <= k < j ==> stmt_dest(b.stmts@[k]) != l;
        if j <= i {
            assert(!rvalue_uses(stmt_rvalue(b.stmts@[j])).contains(l));
        } else {
            assert(stmt_dest(b.stmts@[i]) != l);
        }
    }
    assert(stmt_dest(b.stmts@[i]) == l);
}

/// Every local a statement mentions is below `n`.
pub open spec fn stmt_locals_within(s: Stmt, n: nat) -> bool {
    match s {
        Stmt::Assign { dest, rvalue } => bounded(place_uses(dest), n) && bounded(
            rvalue_uses(rvalue),
            n,
        ),
    }
}

/// Every local the block mentions is below `n`.
pub open spec fn block_all_locals_within(b: MIRBasicBlock, n: nat) -> bool {
    &&& bounded(terminator_uses(b.terminator), n)
    &&& bounded(terminator_defs(b.terminator), n)
    &&& forall|i: int| 0 <= i < b.stmts@.len() ==> stmt_locals_within(#[trigger] b.stmts@[i], n)
}

/// Every local the block reads or writes is below `n`.
pub open spec fn block_locals_within(b: MIRBasicBlock, n: nat) -> bool {
    &&& bounded(terminator_uses(b.terminator), n)
    &&& bounded(terminator_defs(b.terminator), n)
    &&& forall|i: int|
        0 <= i < b.stmts@.len() ==> stmt_dest(#[trigger] b.stmts@[i]) < n && bounded(
            rvalue_uses(stmt_rvalue(b.stmts@[i])),
            n,
        )
}

impl MIRTerminator {
    /// The locals the terminator writes.
    pub fn defs(&self, mir: &Mir) -> (r: BitSet)
        requires
            bounded(terminator_defs(*self), mir.locals@.len()),
        ensures
            r.members() == terminator_defs(*self),
            r.capacity() == mir.locals@.len(),
    {
        let mut r = BitSet::new(mir.locals.len());
        match self {
            MIRTerminator::Call { dest, .. } => {
                assert(terminator_defs(*self).contains(dest.0 as nat));
                r.insert(dest.0);
                assert(r.members() =~= terminator_defs(*self));
            },
            _ => {},
        }
        r
    }

    /// The locals the terminator reads.
    pub fn uses(&self, mir: &Mir) -> (r: BitSet)
        requires
            bounded(terminator_uses(*self), mir.locals@.len()),
        ensures
            r.members() == terminator_uses(*self),
            r.capacity() == mir.locals@.len(),
    {
        match self {
            MIRTerminator::Goto { .. } | MIRTerminator::Diverge => BitSet::new(mir.locals.len()),
            MIRTerminator::Call { arguments, .. } => {
                let mut res = BitSet::new(mir.locals.len());
                let mut i: usize = 0;
                while i < arguments.len()
                    invariant
                        i <= arguments@.len(),
                        bounded(operands_uses(arguments@), mir.locals@.len()),
                        res.capacity() == mir.locals@.len(),
                        res.members() == operands_uses(arguments@.take(i as int)),
                    decreases arguments@.len() - i,
                {
                    proof {
                        assert(arguments@.take(i + 1).drop_last() =~= arguments@.take(i as int));
                        lemma_operands_uses_prefix(arguments@, i + 1);
                        assert forall|l: nat| operand_uses(arguments@[i as int]).contains(l) implies l
                            < mir.locals@.len() by {
                            assert(operands_uses(arguments@.take(i + 1)).contains(l));
                        }
                    }
                    let u = arguments[i].bitset_uses(mir);
                    res.union(&u);
                    i += 1;
                }
                proof {
                    assert(arguments@.take(arguments@.len() as int) =~= arguments@);
                }
                res
            },
            MIRTerminator::Return { value, .. } => match value {
                Some(op) => op.bitset_uses(mir),
                None => BitSet::new(mir.locals.len()),
            },
            MIRTerminator::Switch { discriminant: op, .. } | MIRTerminator::Branch {
                cond: op,
                ..
            } => op.bitset_uses(mir),
        }
    }
}

impl MIRBasicBlock {
    /// The locals the block writes.
    pub fn defs(&self, mir: &Mir) -> (r: BitSet)
        requires
            block_locals_within(*self, mir.locals@.len()),
        ensures
            r.members() == block_defs(*self),
            r.capacity() == mir.locals@.len(),
    {
        let mut res = self.terminator.defs(mir);
        let mut i: usize = 0;
        while i < self.stmts.len()
            invariant
                i <= self.stmts@.len(),
                block_locals_within(*self, mir.locals@.len()),
                res.capacity() == mir.locals@.len(),
                res.members() == terminator_defs(self.terminator).union(
                    stmts_defs(self.stmts@.take(i as int)),
                ),
            decreases self.stmts@.len() - i,
        {
            proof {
                assert(self.stmts@.take(i + 1).drop_last() =~= self.stmts@.take(i as int));
                assert(stmt_dest(self.stmts@[i as int]) < mir.locals@.len());
            }
            match &self.stmts[i] {
                Stmt::Assign { dest, .. } => {
                    res.insert(dest.local.0);
                },
            }
            proof {
                assert(res.members() =~= terminator_defs(self.terminator).union(
                    stmts_defs(self.stmts@.take(i + 1)),
                ));
            }
            i += 1;
        }
        proof {
            assert(self.stmts@.take(self.stmts@.len() as int) =~= self.stmts@);
        }
        res
    }

    /// The locals the block reads before it writes them: those the
    /// right-hand side of a statement reads and no earlier statement writes,
    /// and those the terminator reads and no statement writes.
    pub fn uses(&self, mir: &Mir) -> (r: BitSet)
        requires
            block_locals_within(*self, mir.locals@.len()),
        ensures
            r.members() == block_uses(*self),
            r.capacity() == mir.locals@.len(),
    {
        let mut uses = BitSet::new(mir.locals.len());
        let mut defined = BitSet::new(mir.locals.len());
        let mut i: usize = 0;
        while i < self.stmts.len()
            invariant
                i <= self.stmts@.len(),
                block_locals_within(*self, mir.locals@.len()),
                uses.capacity() == mir.locals@.len(),
                defined.capacity() == mir.locals@.len(),
                uses.members() == stmts_exposed(self.stmts@.take(i as int)),
                defined.members() == stmts_defs(self.stmts@.take(i as int)),
            decreases self.stmts@.len() - i,
        {
            proof {
                assert(self.stmts@.take(i + 1).drop_last() =~= self.stmts@.take(i as int));
                assert(stmt_dest(self.stmts@[i as int]) < mir.locals@.len());
            }
            match &self.stmts[i] {
                Stmt::Assign { dest, rvalue } => {
                    let mut u = rvalue.bitset_uses(mir);
                    u.substract(&defined);
                    uses.union(&u);
                    defined.insert(dest.local.0);
                },
            }
            i += 1;
        }
        proof {
            assert(self.stmts@.take(self.stmts@.len() as int) =~= self.stmts@);
        }
        let mut t = self.terminator.uses(mir);
        t.substract(&defined);
        uses.union(&t);
        uses
    }
}

} // verus!
