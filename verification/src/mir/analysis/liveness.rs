//! Which locals are live at the entry and exit of each block of a MIR body.
use vstd::prelude::*;
use crate::common::bitset::BitSet;
use crate::common::join::{join_names, joined, names_view};
use crate::mangle::{decimal, push_decimal};
use crate::mir::basic_block::{
    block_all_locals_within, block_defs, block_locals_within, block_uses, stmt_dest, stmt_locals_within,
    stmt_rvalue, lemma_written_first_not_used,
};
use crate::mir::operand::rvalue_uses;
use crate::mir::operand::{bounded, place_uses};
use crate::mir::basic_block::Stmt;
use crate::mir::{mir_keeps, settled_backward, Mir};
use super::lattice::{below, lemma_below_transitive, Direction, Lattice, LatticeChange};

verus! {

/// The analysis that finds the live locals.
pub struct MIRLivenessAnalysis;

/// For each block, the locals live at its entry and at its exit.
pub struct MIRLivenessResult {
    pub live_in: Vec<BitSet>,
    pub live_out: Vec<BitSet>,
}

/// Whether one local is live. Joining keeps it live if either side is.
#[derive(Debug, Clone, Copy, PartialEq, Eq, Structural)]
pub struct LiveFact {
    pub live: bool,
}

impl Lattice for LiveFact {
    open spec fn spec_bottom() -> Self {
        LiveFact { live: false }
    }

    open spec fn spec_join(self, other: Self) -> Self {
        LiveFact { live: self.live || other.live }
    }

    proof fn lemma_join_commutative(a: Self, b: Self) {
    }

    proof fn lemma_join_associative(a: Self, b: Self, c: Self) {
    }

    proof fn lemma_join_idempotent(a: Self) {
    }

    open spec fn height(self) -> nat {
        if self.live {
            1
        } else {
            0
        }
    }

    open spec fn max_height() -> nat {
        1
    }

    proof fn lemma_height(a: Self, b: Self) {
    }

    fn bottom() -> (r: Self) {
        LiveFact { live: false }
    }

    fn duplicate(&self) -> (r: Self) {
        *self
    }

    fn join(&self, other: &Self) -> (r: Self) {
        LiveFact { live: self.live || other.live }
    }

    fn join_assign(&mut self, other: &Self) -> (c: LatticeChange) {
        let joined = self.join(other);
        let changed = joined != *self;
        *self = joined;
        LatticeChange::from(changed)
    }
}

/// A block whose every mentioned local is below `n` reads and writes only
/// locals below `n`.
pub(crate) proof fn lemma_block_locals(b: crate::mir::basic_block::MIRBasicBlock, n: nat)
    requires
        block_all_locals_within(b, n),
    ensures
        block_locals_within(b, n),
{
    assert forall|i: int| 0 <= i < b.stmts@.len() implies stmt_dest(#[trigger] b.stmts@[i]) < n
        && bounded(crate::mir::operand::rvalue_uses(stmt_rvalue(b.stmts@[i])), n) by {
        assert(stmt_locals_within(b.stmts@[i], n));
        match b.stmts@[i] {
            Stmt::Assign { dest, rvalue } => {
                assert(place_uses(dest).contains(dest.local.0 as nat));
            },
        }
    }
}

/// The live facts of one local are settled at block `b`: live at the exit
/// if live at the entry of a block it may jump to, and live at the entry if
/// the block reads it before writing it, or if it is live at the exit and
/// the block does not write it.
pub open spec fn live_settled(mir: Mir, live_in: Seq<BitSet>, live_out: Seq<BitSet>, b: int, l: nat) -> bool {
    &&& forall|s: usize|
        #[trigger] mir.targets(b).contains(s) ==> (live_in[s as int].members().contains(l)
            ==> live_out[b].members().contains(l))
    &&& (block_uses(mir.blocks@[b]).contains(l) || (live_out[b].members().contains(l)
        && !block_defs(mir.blocks@[b]).contains(l))) ==> live_in[b].members().contains(l)
}

/// Local `l` is read before any write to it along some path of at most `k`
/// jumps from the entry of block `b`.
pub open spec fn live_within(mir: Mir, b: int, l: nat, k: nat) -> bool
    decreases k,
{
    ||| block_uses(mir.blocks@[b]).contains(l)
    ||| k > 0 && !block_defs(mir.blocks@[b]).contains(l) && exists|s: usize|
        #[trigger] mir.targets(b).contains(s) && live_within(mir, s as int, l, (k - 1) as nat)
}

/// Local `l` is live at the entry of block `b`: some path from there reads
/// it before writing it.
pub open spec fn live_at_entry(mir: Mir, b: int, l: nat) -> bool {
    exists|k: nat| #[trigger] live_within(mir, b, l, k)
}

/// Local `l` is live at the exit of block `b`: it is live at the entry of
/// some block that `b` may jump to.
pub open spec fn live_at_exit(mir: Mir, b: int, l: nat) -> bool {
    exists|s: usize| #[trigger] mir.targets(b).contains(s) && live_at_entry(mir, s as int, l)
}

/// Where the facts of local `l` are settled at every block, a block from
/// which a path reads `l` before writing it has `l` live at its entry.
proof fn lemma_live_within_settled(mir: Mir, fin: Seq<LiveFact>, fout: Seq<LiveFact>, l: nat, b: int, k: nat)
    requires
        mir.jumps_within(),
        fin.len() == mir.blocks@.len(),
        fout.len() == mir.blocks@.len(),
        forall|c: int| 0 <= c < mir.blocks@.len() ==> #[trigger] local_settled(mir, fin, fout, c, l),
        0 <= b < mir.blocks@.len(),
        live_within(mir, b, l, k),
    ensures
        fin[b].live,
    decreases k,
{
    assert(local_settled(mir, fin, fout, b, l));
    if !block_uses(mir.blocks@[b]).contains(l) {
        let s = choose|s: usize| #[trigger] mir.targets(b).contains(s) && live_within(mir, s as int, l, (k - 1) as nat);
        assert(s < mir.blocks@.len());
        lemma_live_within_settled(mir, fin, fout, l, s as int, (k - 1) as nat);
    }
}

impl MIRLivenessAnalysis {
    /// Runs the analysis: for every block and every local, the facts are
    /// settled over the body's jumps, backward.
    pub fn run(&self, mir: &Mir) -> (r: MIRLivenessResult)
        requires
            mir.jumps_within(),
            mir.locals_within(),
        ensures
            r.live_in@.len() == mir.blocks@.len(),
            r.live_out@.len() == mir.blocks@.len(),
            forall|b: int|
                0 <= b < mir.blocks@.len() ==> (#[trigger] r.live_in@[b]).capacity() == mir.locals@.len()
                    && r.live_out@[b].capacity() == mir.locals@.len(),
            forall|b: int, l: nat|
                0 <= b < mir.blocks@.len() && l < mir.locals@.len() ==> #[trigger] live_settled(
                    *mir,
                    r.live_in@,
                    r.live_out@,
                    b,
                    l,
                ),
            forall|b: int, l: nat|
                0 <= b < mir.blocks@.len() ==> (#[trigger] r.live_in@[b].members().contains(l) <==> l
                    < mir.locals@.len() && live_at_entry(*mir, b, l)),
            forall|b: int, l: nat|
                0 <= b < mir.blocks@.len() ==> (#[trigger] r.live_out@[b].members().contains(l) <==> l
                    < mir.locals@.len() && live_at_exit(*mir, b, l)),
    {
        let n = mir.locals.len();
        let nb = mir.blocks.len();
        let mut uses: Vec<BitSet> = Vec::new();
        let mut defs: Vec<BitSet> = Vec::new();
        let mut b: usize = 0;
        while b < nb
            invariant
                b <= nb,
                nb == mir.blocks@.len(),
                n == mir.locals@.len(),
                mir.locals_within(),
                uses@.len() == b,
                defs@.len() == b,
                forall|c: int| 0 <= c < b ==> (#[trigger] uses@[c]).members() == block_uses(mir.blocks@[c])
                    && uses@[c].capacity() == n,
                forall|c: int| 0 <= c < b ==> (#[trigger] defs@[c]).members() == block_defs(mir.blocks@[c])
                    && defs@[c].capacity() == n,
            decreases nb - b,
        {
            proof {
                lemma_block_locals(mir.blocks@[b as int], n as nat);
            }
            uses.push(mir.blocks[b].uses(mir));
            defs.push(mir.blocks[b].defs(mir));
            b += 1;
        }
        let mut per_local: Vec<Vec<LiveFact>> = Vec::new();
        let mut per_local_out: Vec<Vec<LiveFact>> = Vec::new();
        let mut l: usize = 0;
        while l < n
            invariant
                l <= n,
                nb == mir.blocks@.len(),
                n == mir.locals@.len(),
                mir.jumps_within(),
                uses@.len() == nb,
                defs@.len() == nb,
                forall|c: int| 0 <= c < nb ==> (#[trigger] uses@[c]).members() == block_uses(mir.blocks@[c]),
                forall|c: int| 0 <= c < nb ==> (#[trigger] defs@[c]).members() == block_defs(mir.blocks@[c]),
                per_local@.len() == l,
                per_local_out@.len() == l,
                forall|j: int| 0 <= j < l ==> (#[trigger] per_local@[j])@.len() == nb,
                forall|j: int| 0 <= j < l ==> (#[trigger] per_local_out@[j])@.len() == nb,
                forall|j: nat, c: int|
                    j < l && 0 <= c < nb ==> #[trigger] local_settled(
                        *mir,
                        per_local@[j as int]@,
                        per_local_out@[j as int]@,
                        c,
                        j,
                    ),
                forall|j: nat, c: int|
                    j < l && 0 <= c < nb && (#[trigger] per_local@[j as int]@[c]).live ==> live_at_entry(
                        *mir,
                        c,
                        j,
                    ),
                forall|j: nat, c: int|
                    j < l && 0 <= c < nb && (#[trigger] per_local_out@[j as int]@[c]).live ==> live_at_exit(
                        *mir,
                        c,
                        j,
                    ),
            decreases n - l,
        {
            let uses_ref = &uses;
            let defs_ref = &defs;
            let transfer = |blk: usize, out: &LiveFact| -> (res: LiveFact)
                requires
                    blk < uses_ref@.len(),
                    blk < defs_ref@.len(),
                ensures
                    res.live == (uses_ref@[blk as int].members().contains(l as nat) || (out.live
                        && !defs_ref@[blk as int].members().contains(l as nat))),
                {
                    LiveFact {
                        live: uses_ref[blk].contains(l) || (out.live && !defs_ref[blk].contains(l)),
                    }
                };
            let ghost inv_in = |c: int, f: LiveFact| f.live ==> live_at_entry(*mir, c, l as nat);
            let ghost inv_out = |c: int, f: LiveFact| f.live ==> live_at_exit(*mir, c, l as nat);
            proof {
                assert forall|c: int, s: usize, x: LiveFact|
                    0 <= c < nb && #[trigger] mir.targets(c).contains(s) && #[trigger] inv_in(
                        s as int,
                        x,
                    ) implies inv_out(c, x) by {
                    if x.live {
                        assert(live_at_entry(*mir, s as int, l as nat));
                    }
                }
                assert forall|c: usize, x: LiveFact, t: LiveFact|
                    c < nb && inv_out(c as int, x) && #[trigger] transfer.ensures((c, &x), t) implies inv_in(
                        c as int,
                        t,
                    ) by {
                    assert(uses@[c as int].members() == block_uses(mir.blocks@[c as int]));
                    assert(defs@[c as int].members() == block_defs(mir.blocks@[c as int]));
                    if t.live {
                        if block_uses(mir.blocks@[c as int]).contains(l as nat) {
                            assert(live_within(*mir, c as int, l as nat, 0));
                        } else {
                            assert(x.live && !block_defs(mir.blocks@[c as int]).contains(l as nat));
                            let s = choose|s: usize| #[trigger] mir.targets(c as int).contains(s)
                                && live_at_entry(*mir, s as int, l as nat);
                            let k = choose|k: nat| #[trigger] live_within(*mir, s as int, l as nat, k);
                            assert(live_within(*mir, c as int, l as nat, k + 1));
                        }
                    }
                }
                assert(mir_keeps(*mir, Direction::Backward, transfer, None, None, inv_in, inv_out));
            }
            let res = mir.fixed_point_iter_with(Direction::Backward, transfer, None, None, Ghost(inv_in), Ghost(inv_out));
            proof {
                assert forall|c: int| 0 <= c < nb implies #[trigger] local_settled(
                    *mir,
                    res.block_in@,
                    res.block_out@,
                    c,
                    l as nat,
                ) by {
                    assert(settled_backward(*mir, c, None, res.block_in@, res.block_out@, transfer));
                    let t = choose|t: LiveFact| #[trigger] transfer.ensures((c as usize, &res.block_out@[c]), t)
                        && below(t, res.block_in@[c]);
                }
            }
            let ghost rin = res.block_in@;
            let ghost rout = res.block_out@;
            let ghost pl0 = per_local@;
            let ghost plo0 = per_local_out@;
            per_local.push(res.block_in);
            per_local_out.push(res.block_out);
            proof {
                assert forall|j: nat, c: int|
                    j < l + 1 && 0 <= c < nb && (#[trigger] per_local@[j as int]@[c]).live implies live_at_entry(
                    *mir,
                    c,
                    j,
                ) by {
                    if j == l {
                        assert(per_local@[j as int]@ == rin);
                        assert(inv_in(c, rin[c]));
                    } else {
                        assert(per_local@[j as int] == pl0[j as int]);
                    }
                }
                assert forall|j: nat, c: int|
                    j < l + 1 && 0 <= c < nb && (#[trigger] per_local_out@[j as int]@[c]).live implies live_at_exit(
                    *mir,
                    c,
                    j,
                ) by {
                    if j == l {
                        assert(per_local_out@[j as int]@ == rout);
                        assert(inv_out(c, rout[c]));
                    } else {
                        assert(per_local_out@[j as int] == plo0[j as int]);
                    }
                }
            }
            l += 1;
        }
        let live_in = gather(&per_local, nb, n);
        let live_out = gather(&per_local_out, nb, n);
        proof {
            assert forall|b2: int, l2: nat|
                0 <= b2 < nb && l2 < n implies #[trigger] live_settled(*mir, live_in@, live_out@, b2, l2) by {
                assert(local_settled(*mir, per_local@[l2 as int]@, per_local_out@[l2 as int]@, b2, l2));
                assert forall|s: usize| #[trigger] mir.targets(b2).contains(s) implies (
                live_in@[s as int].members().contains(l2) ==> live_out@[b2].members().contains(l2)) by {
                    assert(s < nb);
                }
            }
        }
        proof {
            assert forall|b2: int, l2: nat| 0 <= b2 < nb implies (#[trigger] live_in@[b2].members().contains(l2)
                <==> l2 < n && live_at_entry(*mir, b2, l2)) by {
                if l2 < n && live_at_entry(*mir, b2, l2) {
                    let k = choose|k: nat| #[trigger] live_within(*mir, b2, l2, k);
                    lemma_live_within_settled(
                        *mir,
                        per_local@[l2 as int]@,
                        per_local_out@[l2 as int]@,
                        l2,
                        b2,
                        k,
                    );
                }
            }
            assert forall|b2: int, l2: nat| 0 <= b2 < nb implies (#[trigger] live_out@[b2].members().contains(l2)
                <==> l2 < n && live_at_exit(*mir, b2, l2)) by {
                if l2 < n && live_at_exit(*mir, b2, l2) {
                    let s = choose|s: usize| #[trigger] mir.targets(b2).contains(s) && live_at_entry(
                        *mir,
                        s as int,
                        l2,
                    );
                    assert(s < nb);
                    let k = choose|k: nat| #[trigger] live_within(*mir, s as int, l2, k);
                    lemma_live_within_settled(
                        *mir,
                        per_local@[l2 as int]@,
                        per_local_out@[l2 as int]@,
                        l2,
                        s as int,
                        k,
                    );
                    assert(local_settled(*mir, per_local@[l2 as int]@, per_local_out@[l2 as int]@, b2, l2));
                }
            }
        }
        MIRLivenessResult { live_in, live_out }
    }
}

/// The facts of one local, block by block, are settled at block `b`.
pub open spec fn local_settled(mir: Mir, fin: Seq<LiveFact>, fout: Seq<LiveFact>, b: int, l: nat) -> bool {
    &&& forall|s: usize| #[trigger] mir.targets(b).contains(s) ==> (fin[s as int].live ==> fout[b].live)
    &&& (block_uses(mir.blocks@[b]).contains(l) || (fout[b].live && !block_defs(mir.blocks@[b]).contains(l)))
        ==> fin[b].live
}

/// For each block, the set of the locals whose fact there is live.
fn gather(per_local: &Vec<Vec<LiveFact>>, nb: usize, n: usize) -> (r: Vec<BitSet>)
    requires
        per_local@.len() == n,
        forall|j: int| 0 <= j < n ==> (#[trigger] per_local@[j])@.len() == nb,
    ensures
        r@.len() == nb,
        forall|c: int| 0 <= c < nb ==> (#[trigger] r@[c]).capacity() == n,
        forall|c: int, j: nat| 0 <= c < nb ==> (#[trigger] r@[c].members().contains(j) <==> j < n && per_local@[j as int]@[c].live),
{
    let mut r: Vec<BitSet> = Vec::new();
    let mut c: usize = 0;
    while c < nb
        invariant
            c <= nb,
            per_local@.len() == n,
            forall|j: int| 0 <= j < n ==> (#[trigger] per_local@[j])@.len() == nb,
            r@.len() == c,
            forall|d: int| 0 <= d < c ==> (#[trigger] r@[d]).capacity() == n,
            forall|d: int, j: nat| 0 <= d < c ==> (#[trigger] r@[d].members().contains(j) <==> j < n && per_local@[j as int]@[d].live),
        decreases nb - c,
    {
        let mut set = BitSet::new(n);
        let mut j: usize = 0;
        while j < n
            invariant
                j <= n,
                c < nb,
                per_local@.len() == n,
                forall|j2: int| 0 <= j2 < n ==> (#[trigger] per_local@[j2])@.len() == nb,
                set.capacity() == n,
                forall|j2: nat| #[trigger] set.members().contains(j2) <==> j2 < j && per_local@[j2 as int]@[c as int].live,
            decreases n - j,
        {
            if per_local[j][c].live {
                set.insert(j);
            }
            j += 1;
        }
        r.push(set);
        c += 1;
    }
    r
}

/// The labels of the members of `s` below `k`, in increasing order: each
/// member's number after `prefix`.
pub open spec fn member_labels(s: BitSet, prefix: Seq<char>, k: nat) -> Seq<Seq<char>>
    decreases k,
{
    if k == 0 {
        seq![]
    } else {
        let prev = member_labels(s, prefix, (k - 1) as nat);
        if s.members().contains((k - 1) as nat) {
            prev.push(prefix + decimal((k - 1) as nat))
        } else {
            prev
        }
    }
}

/// One line for each block, in order: `bb` and its number, then the labels
/// of the members of its set, between braces and separated by commas.
pub open spec fn block_sets_text(sets: Seq<BitSet>, prefix: Seq<char>) -> Seq<char>
    decreases sets.len(),
{
    if sets.len() == 0 {
        seq![]
    } else {
        let last = sets.last();
        block_sets_text(sets.drop_last(), prefix) + "    bb"@ + decimal((sets.len() - 1) as nat) + ": {"@
            + joined(member_labels(last, prefix, last.capacity()), ", "@) + "}\n"@
    }
}

/// Writes one line for each block's set.
pub(crate) fn fmt_block_sets(w: &mut String, sets: &Vec<BitSet>, prefix: &str)
    ensures
        final(w)@ == old(w)@ + block_sets_text(sets@, prefix@),
{
    let ghost start = w@;
    let mut b: usize = 0;
    while b < sets.len()
        invariant
            b <= sets@.len(),
            w@ == start + block_sets_text(sets@.take(b as int), prefix@),
        decreases sets@.len() - b,
    {
        let set = &sets[b];
        let mut labels: Vec<String> = Vec::new();
        let mut k: usize = 0;
        while k < set.len()
            invariant
                k <= set.capacity(),
                names_view(labels@) == member_labels(*set, prefix@, k as nat),
            decreases set.capacity() - k,
        {
            if set.contains(k) {
                let mut label = String::new();
                label.append(prefix);
                push_decimal(&mut label, k);
                let ghost before = labels@;
                labels.push(label);
                proof {
                    assert(names_view(labels@) =~= names_view(before).push(prefix@ + decimal(k as nat)));
                }
            }
            k += 1;
        }
        w.append("    bb");
        push_decimal(w, b);
        w.append(": {");
        let joined_labels = join_names(&labels, ", ");
        w.append(joined_labels.as_str());
        w.append("}\n");
        proof {
            let t = sets@.take(b + 1);
            assert(t.drop_last() =~= sets@.take(b as int));
            assert(t.last() == sets@[b as int]);
            assert(w@ =~= start + block_sets_text(t, prefix@));
        }
        b += 1;
    }
    assert(sets@.take(sets@.len() as int) =~= sets@);
}

impl MIRLivenessResult {
    /// The text of the result: for each block, the live locals at its
    /// entry, then for each block those at its exit.
    pub fn display(&self) -> (r: String)
        ensures
            r@ == "live-in:\n"@ + block_sets_text(self.live_in@, "_"@) + "live-out:\n"@ + block_sets_text(
                self.live_out@,
                "_"@,
            ),
    {
        let mut w = String::new();
        w.append("live-in:\n");
        fmt_block_sets(&mut w, &self.live_in, "_");
        w.append("live-out:\n");
        fmt_block_sets(&mut w, &self.live_out, "_");
        w
    }
}

impl Mir {
    /// The liveness analysis of the body.
    pub fn liveness(&self) -> (r: MIRLivenessResult)
        requires
            self.jumps_within(),
            self.locals_within(),
        ensures
            r.live_in@.len() == self.blocks@.len(),
            r.live_out@.len() == self.blocks@.len(),
            forall|b: int|
                0 <= b < self.blocks@.len() ==> (#[trigger] r.live_in@[b]).capacity() == self.locals@.len()
                    && r.live_out@[b].capacity() == self.locals@.len(),
            forall|b: int, l: nat|
                0 <= b < self.blocks@.len() && l < self.locals@.len() ==> #[trigger] live_settled(
                    *self,
                    r.live_in@,
                    r.live_out@,
                    b,
                    l,
                ),
            forall|b: int, l: nat|
                0 <= b < self.blocks@.len() ==> (#[trigger] r.live_in@[b].members().contains(l) <==> l
                    < self.locals@.len() && live_at_entry(*self, b, l)),
            forall|b: int, l: nat|
                0 <= b < self.blocks@.len() ==> (#[trigger] r.live_out@[b].members().contains(l) <==> l
                    < self.locals@.len() && live_at_exit(*self, b, l)),
    {
        let r = MIRLivenessAnalysis.run(self);
        assert forall|b: int| 0 <= b < self.blocks@.len() implies (#[trigger] r.live_in@[b]).capacity()
            == self.locals@.len() && r.live_out@[b].capacity() == self.locals@.len() by {
            assert(r.live_in@[b].capacity() == self.locals@.len());
        }
        r
    }
}

/// A local that a statement of block `b` writes, with no statement of `b`
/// up to that one reading it, is not live at the entry of `b`, whatever
/// the terminator of `b` and the blocks after it read.
pub proof fn lemma_written_first_not_live(mir: Mir, b: int, l: nat, i: int)
    requires
        0 <= b < mir.blocks@.len(),
        0 <= i < mir.blocks@[b].stmts@.len(),
        stmt_dest(mir.blocks@[b].stmts@[i]) == l,
        forall|j: int|
            0 <= j <= i ==> !rvalue_uses(stmt_rvalue(#[trigger] mir.blocks@[b].stmts@[j])).contains(l),
    ensures
        !live_at_entry(mir, b, l),
{
    lemma_written_first_not_used(mir.blocks@[b], l, i);
    assert forall|k: nat| !#[trigger] live_within(mir, b, l, k) by {}
}

} // verus!
