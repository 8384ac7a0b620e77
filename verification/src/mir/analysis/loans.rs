//! The loans of a MIR body: each reference or address taken of a place, and
//! at the entry and exit of each block, the loans whose holder is live.
use vstd::prelude::*;
use crate::common::bitset::BitSet;
use crate::hir::Mutability;
use crate::mir::basic_block::Stmt;
use crate::mir::operand::{place_same, MIRPlace, MIRRValueKind};
use crate::mir::points::MIRStmtIndex;
use crate::mir::{BlockID, LocalID, Mir};
use crate::mangle::{decimal, push_decimal};
use crate::mir::display::{fmt_place, place_text, MIRNames};
use super::liveness::{
    block_sets_text, fmt_block_sets, lemma_block_locals, live_at_entry, live_at_exit, MIRLivenessAnalysis,
};

verus! {

/// The analysis that collects the loans and where they are live.
pub struct MIRLoanAnalysis;

/// A borrow of a place: the place, whether the reference allows writes,
/// the statement that takes it, and the local the reference is stored in.
pub struct Loan {
    pub place: MIRPlace,
    pub mutability: Mutability,
    pub created_at: MIRStmtIndex,
    pub holder: LocalID,
}

/// What a statement borrows, if it takes a reference or an address: the
/// place, the mutability and the local it stores the reference in.
pub open spec fn stmt_borrow(s: Stmt) -> Option<(MIRPlace, Mutability, LocalID)> {
    match s {
        Stmt::Assign { dest, rvalue } => match rvalue.kind {
            MIRRValueKind::Ref(p, m) => Some((p, m, dest.local)),
            MIRRValueKind::AddressOf(p, m) => Some((p, m, dest.local)),
            _ => None,
        },
    }
}

/// The points of the borrowing statements among the first `i` statements
/// of block `c`, in order.
pub open spec fn block_loan_points(mir: Mir, c: nat, i: nat) -> Seq<MIRStmtIndex>
    decreases i,
{
    if i == 0 {
        seq![]
    } else {
        let prev = block_loan_points(mir, c, (i - 1) as nat);
        if stmt_borrow(mir.blocks@[c as int].stmts@[i - 1]) is Some {
            prev.push(MIRStmtIndex(BlockID(c as usize), (i - 1) as usize))
        } else {
            prev
        }
    }
}

/// The points of the borrowing statements of the blocks below `b`, block
/// after block.
pub open spec fn loan_points_upto(mir: Mir, b: nat) -> Seq<MIRStmtIndex>
    decreases b,
{
    if b == 0 {
        seq![]
    } else {
        let c = (b - 1) as nat;
        loan_points_upto(mir, c) + block_loan_points(mir, c, mir.blocks@[c as int].stmts@.len())
    }
}

/// The points of every borrowing statement of the body, in the order of
/// [`Mir::points`].
pub open spec fn loan_points(mir: Mir) -> Seq<MIRStmtIndex> {
    loan_points_upto(mir, mir.blocks@.len())
}

/// The loan is the one the statement at its point makes.
pub open spec fn loan_made_at(mir: Mir, l: Loan) -> bool {
    let b = l.created_at.0.0 as int;
    let i = l.created_at.1 as int;
    &&& b < mir.blocks@.len()
    &&& i < mir.blocks@[b].stmts@.len()
    &&& match stmt_borrow(mir.blocks@[b].stmts@[i]) {
        Some((p, m, h)) => place_same(p, l.place) && m == l.mutability && h == l.holder,
        None => false,
    }
}

/// The loans are those of the body, one for each borrowing statement, in
/// the order of the body's points.
pub open spec fn loans_of(mir: Mir, loans: Seq<Loan>) -> bool {
    &&& loans.len() == loan_points(mir).len()
    &&& forall|k: int|
        0 <= k < loans.len() ==> (#[trigger] loans[k]).created_at == loan_points(mir)[k]
            && loan_made_at(mir, loans[k])
}

impl MIRLoanAnalysis {
    /// One loan for each statement that takes a reference or an address,
    /// in the order of the body's points.
    pub fn collect_loans(mir: &Mir) -> (r: Vec<Loan>)
        ensures
            loans_of(*mir, r@),
    {
        let mut loans: Vec<Loan> = Vec::new();
        let mut b: usize = 0;
        while b < mir.blocks.len()
            invariant
                b <= mir.blocks@.len(),
                loans@.len() == loan_points_upto(*mir, b as nat).len(),
                forall|k: int|
                    0 <= k < loans@.len() ==> (#[trigger] loans@[k]).created_at == loan_points_upto(
                        *mir,
                        b as nat,
                    )[k] && loan_made_at(*mir, loans@[k]),
            decreases mir.blocks@.len() - b,
        {
            let block = &mir.blocks[b];
            let mut i: usize = 0;
            let ghost pre = loan_points_upto(*mir, b as nat);
            while i < block.stmts.len()
                invariant
                    b < mir.blocks@.len(),
                    *block == mir.blocks@[b as int],
                    i <= block.stmts@.len(),
                    pre == loan_points_upto(*mir, b as nat),
                    loans@.len() == pre.len() + block_loan_points(*mir, b as nat, i as nat).len(),
                    forall|k: int|
                        0 <= k < loans@.len() ==> (#[trigger] loans@[k]).created_at == (pre
                            + block_loan_points(*mir, b as nat, i as nat))[k] && loan_made_at(
                            *mir,
                            loans@[k],
                        ),
                decreases block.stmts@.len() - i,
            {
                let ghost before = pre + block_loan_points(*mir, b as nat, i as nat);
                match &block.stmts[i] {
                    Stmt::Assign { dest, rvalue } => {
                        match &rvalue.kind {
                            MIRRValueKind::Ref(place, mutability)
                            | MIRRValueKind::AddressOf(place, mutability) => {
                                let loan = Loan {
                                    place: place.duplicate(),
                                    mutability: *mutability,
                                    created_at: MIRStmtIndex(BlockID(b), i),
                                    holder: dest.local,
                                };
                                loans.push(loan);
                                proof {
                                    assert(pre + block_loan_points(*mir, b as nat, (i + 1) as nat)
                                        =~= before.push(MIRStmtIndex(BlockID(b), i)));
                                }
                            },
                            _ => {
                                assert(pre + block_loan_points(*mir, b as nat, (i + 1) as nat)
                                    =~= before);
                            },
                        }
                    },
                }
                i += 1;
            }
            proof {
                assert(loan_points_upto(*mir, (b + 1) as nat) == pre + block_loan_points(
                    *mir,
                    b as nat,
                    block.stmts@.len(),
                ));
            }
            b += 1;
        }
        loans
    }
}

/// The numbers of the loans among the first `k` that local `l` holds, in
/// increasing order.
pub open spec fn held_by(loans: Seq<Loan>, l: nat, k: nat) -> Seq<usize>
    decreases k,
{
    if k == 0 {
        seq![]
    } else {
        let prev = held_by(loans, l, (k - 1) as nat);
        if loans[k - 1].holder.0 == l {
            prev.push((k - 1) as usize)
        } else {
            prev
        }
    }
}

/// A number is among those of the loans that `l` holds if and only if it
/// numbers one of the first `k` loans and that loan's holder is `l`.
pub proof fn lemma_held_by(loans: Seq<Loan>, l: nat, k: nat)
    requires
        k <= loans.len(),
        loans.len() <= usize::MAX,
    ensures
        forall|x: usize| #[trigger] held_by(loans, l, k).contains(x) <==> x < k && loans[x as int].holder.0 == l,
    decreases k,
{
    if k > 0 {
        lemma_held_by(loans, l, (k - 1) as nat);
        let prev = held_by(loans, l, (k - 1) as nat);
        if loans[k - 1].holder.0 == l {
            assert forall|x: usize| #[trigger] held_by(loans, l, k).contains(x) <==> x < k
                && loans[x as int].holder.0 == l by {
                let all = held_by(loans, l, k);
                assert(all == prev.push((k - 1) as usize));
                if x == k - 1 {
                    assert(all[prev.len() as int] == x);
                }
                if x < k - 1 && loans[x as int].holder.0 == l {
                    assert(prev.contains(x));
                    let i = choose|i: int| 0 <= i < prev.len() && prev[i] == x;
                    assert(all[i] == x);
                }
                if all.contains(x) && x != k - 1 {
                    let i = choose|i: int| 0 <= i < all.len() && all[i] == x;
                    assert(i != prev.len());
                    assert(prev[i] == x);
                    assert(prev.contains(x));
                    assert(x < k - 1 && loans[x as int].holder.0 == l);
                }
                assert(all.contains(x) ==> x < k && loans[x as int].holder.0 == l);
                assert(x < k && loans[x as int].holder.0 == l ==> all.contains(x));
            }
        }
    }
}

/// For each local below `local_count`, the numbers of the loans it holds,
/// in increasing order.
pub fn by_holder(loans: &Vec<Loan>, local_count: usize) -> (r: Vec<Vec<usize>>)
    requires
        forall|k: int| 0 <= k < loans@.len() ==> (#[trigger] loans@[k]).holder.0 < local_count,
    ensures
        r@.len() == local_count,
        forall|l: int| 0 <= l < local_count ==> (#[trigger] r@[l])@ == held_by(loans@, l as nat, loans@.len()),
{
    let mut r: Vec<Vec<usize>> = Vec::new();
    let mut l: usize = 0;
    while l < local_count
        invariant
            l <= local_count,
            r@.len() == l,
            forall|j: int| 0 <= j < l ==> (#[trigger] r@[j])@ == held_by(loans@, j as nat, 0),
        decreases local_count - l,
    {
        r.push(Vec::new());
        l += 1;
    }
    let mut k: usize = 0;
    while k < loans.len()
        invariant
            k <= loans@.len(),
            r@.len() == local_count,
            forall|j: int| 0 <= j < loans@.len() ==> (#[trigger] loans@[j]).holder.0 < local_count,
            forall|j: int| 0 <= j < local_count ==> (#[trigger] r@[j])@ == held_by(loans@, j as nat, k as nat),
        decreases loans@.len() - k,
    {
        let h = loans[k].holder.0;
        let ghost r0 = r@;
        let mut list: Vec<usize> = Vec::new();
        std::mem::swap(&mut list, &mut r[h]);
        proof {
            assert(list@ == r0[h as int]@);
        }
        list.push(k);
        r.set(h, list);
        proof {
            assert forall|j: int| 0 <= j < local_count implies (#[trigger] r@[j])@ == held_by(
                loans@,
                j as nat,
                (k + 1) as nat,
            ) by {
                if j != h {
                    assert(r@[j] == r0[j]);
                }
            }
        }
        k += 1;
    }
    r
}

/// Some local that `live` holds is below the number of holders and holds
/// loan `k`.
pub open spec fn holder_live(live: BitSet, holders: Seq<Vec<usize>>, k: usize) -> bool {
    exists|l: nat| l < holders.len() && #[trigger] live.members().contains(l) && holders[l as int]@.contains(k)
}

impl MIRLoanAnalysis {
    /// For each set of live locals, the set of the loans that some live
    /// local holds, with room for `loan_count` loans.
    pub fn project_liveness(liveness: &Vec<BitSet>, by_holder: &Vec<Vec<usize>>, loan_count: usize) -> (r: Vec<
        BitSet,
    >)
        requires
            forall|l: int, j: int|
                0 <= l < by_holder@.len() && 0 <= j < by_holder@[l]@.len() ==> (#[trigger] by_holder@[l]@[j])
                    < loan_count,
        ensures
            r@.len() == liveness@.len(),
            forall|b: int| 0 <= b < r@.len() ==> (#[trigger] r@[b]).capacity() == loan_count,
            forall|b: int, k: nat|
                0 <= b < r@.len() ==> (#[trigger] r@[b].members().contains(k) <==> k < loan_count && holder_live(
                    liveness@[b],
                    by_holder@,
                    k as usize,
                )),
    {
        let mut r: Vec<BitSet> = Vec::new();
        let mut b: usize = 0;
        while b < liveness.len()
            invariant
                b <= liveness@.len(),
                r@.len() == b,
                forall|l: int, j: int|
                    0 <= l < by_holder@.len() && 0 <= j < by_holder@[l]@.len() ==> (#[trigger] by_holder@[l]@[j])
                        < loan_count,
                forall|c: int| 0 <= c < b ==> (#[trigger] r@[c]).capacity() == loan_count,
                forall|c: int, k: nat|
                    0 <= c < b ==> (#[trigger] r@[c].members().contains(k) <==> k < loan_count && holder_live(
                        liveness@[c],
                        by_holder@,
                        k as usize,
                    )),
            decreases liveness@.len() - b,
        {
            let live = &liveness[b];
            let mut res = BitSet::new(loan_count);
            let mut l: usize = 0;
            while l < live.len()
                invariant
                    *live == liveness@[b as int],
                    l <= live.capacity(),
                    res.capacity() == loan_count,
                    forall|l2: int, j: int|
                        0 <= l2 < by_holder@.len() && 0 <= j < by_holder@[l2]@.len() ==> (#[trigger] by_holder@[l2]@[j])
                            < loan_count,
                    forall|k: nat|
                        #[trigger] res.members().contains(k) <==> k < loan_count && exists|l2: nat|
                            l2 < l && l2 < by_holder@.len() && #[trigger] live.members().contains(l2)
                                && by_holder@[l2 as int]@.contains(k as usize),
                decreases live.capacity() - l,
            {
                if live.contains(l) && l < by_holder.len() {
                    let locals = &by_holder[l];
                    let ghost before = res.members();
                    let mut j: usize = 0;
                    while j < locals.len()
                        invariant
                            *locals == by_holder@[l as int],
                            l < by_holder@.len(),
                            j <= locals@.len(),
                            res.capacity() == loan_count,
                            forall|j2: int| 0 <= j2 < locals@.len() ==> (#[trigger] locals@[j2]) < loan_count,
                            forall|k: nat| #[trigger] before.contains(k) ==> k < loan_count,
                            forall|k: nat|
                                #[trigger] res.members().contains(k) <==> before.contains(k) || (k
                                    < loan_count && locals@.take(j as int).contains(k as usize)),
                        decreases locals@.len() - j,
                    {
                        res.insert(locals[j]);
                        proof {
                            let t = locals@.take(j + 1);
                            assert(t =~= locals@.take(j as int).push(locals@[j as int]));
                            assert forall|k: nat| #[trigger] res.members().contains(k) <==> before.contains(k)
                                || (k < loan_count && t.contains(k as usize)) by {
                                if k < loan_count && t.contains(k as usize) && !locals@.take(j as int).contains(
                                    k as usize,
                                ) {
                                    let i = choose|i: int| 0 <= i < t.len() && t[i] == k as usize;
                                    if i < j {
                                        assert(locals@.take(j as int)[i] == k as usize);
                                    }
                                }
                                if k == locals@[j as int] as nat {
                                    assert(t[j as int] == k as usize);
                                }
                            }
                        }
                        j += 1;
                    }
                    proof {
                        assert(locals@.take(locals@.len() as int) =~= locals@);
                        assert forall|k: nat| #[trigger] res.members().contains(k) <==> k < loan_count
                            && exists|l2: nat|
                            l2 < l + 1 && l2 < by_holder@.len() && #[trigger] live.members().contains(l2)
                                && by_holder@[l2 as int]@.contains(k as usize) by {
                            if locals@.contains(k as usize) {
                                let i = choose|i: int| 0 <= i < locals@.len() && locals@[i] == k as usize;
                                assert(live.members().contains(l as nat));
                            }
                        }
                    }
                } else {
                    proof {
                        assert forall|k: nat| #[trigger] res.members().contains(k) <==> k < loan_count
                            && exists|l2: nat|
                            l2 < l + 1 && l2 < by_holder@.len() && #[trigger] live.members().contains(l2)
                                && by_holder@[l2 as int]@.contains(k as usize) by {
                            if exists|l2: nat|
                                l2 < l + 1 && l2 < by_holder@.len() && #[trigger] live.members().contains(l2)
                                    && by_holder@[l2 as int]@.contains(k as usize) {
                                let l2 = choose|l2: nat|
                                    l2 < l + 1 && l2 < by_holder@.len() && #[trigger] live.members().contains(l2)
                                        && by_holder@[l2 as int]@.contains(k as usize);
                                if l2 == l {
                                    assert(false);
                                }
                            }
                        }
                    }
                }
                l += 1;
            }
            proof {
                assert forall|k: nat| #[trigger] res.members().contains(k) <==> k < loan_count && holder_live(
                    *live,
                    by_holder@,
                    k as usize,
                ) by {
                    if holder_live(*live, by_holder@, k as usize) {
                        let l2 = choose|l2: nat| l2 < by_holder@.len() && #[trigger] live.members().contains(l2)
                            && by_holder@[l2 as int]@.contains(k as usize);
                        live.lemma_members_below_capacity(l2);
                    }
                }
            }
            r.push(res);
            b += 1;
        }
        r
    }
}

/// The output of the loan analysis: the loans, the number of each loan
/// beside its point, and for each block the loans live at its entry and at
/// its exit.
pub struct MIRLoanOut {
    pub loans: Vec<Loan>,
    pub indices: Vec<(MIRStmtIndex, usize)>,
    pub loans_live_in: Vec<BitSet>,
    pub loans_live_out: Vec<BitSet>,
}

/// For each block, the loans live at its entry are those whose holder is
/// live there, and the same at its exit; each set has room for every loan.
pub open spec fn loans_live(mir: Mir, loans: Seq<Loan>, live_in: Seq<BitSet>, live_out: Seq<BitSet>) -> bool {
    &&& live_in.len() == mir.blocks@.len()
    &&& live_out.len() == mir.blocks@.len()
    &&& forall|b: int|
        0 <= b < mir.blocks@.len() ==> (#[trigger] live_in[b]).capacity() == loans.len()
            && live_out[b].capacity() == loans.len()
    &&& forall|b: int, k: nat|
        0 <= b < mir.blocks@.len() ==> (#[trigger] live_in[b].members().contains(k) <==> k < loans.len()
            && live_at_entry(mir, b, loans[k as int].holder.0 as nat))
    &&& forall|b: int, k: nat|
        0 <= b < mir.blocks@.len() ==> (#[trigger] live_out[b].members().contains(k) <==> k < loans.len()
            && live_at_exit(mir, b, loans[k as int].holder.0 as nat))
}

/// For each block, the loans live there are those whose holder is live
/// there.
pub open spec fn loans_projected(loans: Seq<Loan>, live: Seq<BitSet>, proj: Seq<BitSet>) -> bool {
    &&& proj.len() == live.len()
    &&& forall|b: int| 0 <= b < proj.len() ==> (#[trigger] proj[b]).capacity() == loans.len()
    &&& forall|b: int, k: nat|
        0 <= b < proj.len() ==> (#[trigger] proj[b].members().contains(k) <==> k < loans.len()
            && live[b].members().contains(loans[k as int].holder.0 as nat))
}

/// Every borrowing statement of a body whose locals are numbered within it
/// stores its reference in a local of the body.
proof fn lemma_holders_within(mir: Mir, loans: Seq<Loan>)
    requires
        mir.locals_within(),
        loans_of(mir, loans),
    ensures
        forall|k: int| 0 <= k < loans.len() ==> (#[trigger] loans[k]).holder.0 < mir.locals@.len(),
{
    assert forall|k: int| 0 <= k < loans.len() implies (#[trigger] loans[k]).holder.0 < mir.locals@.len() by {
        let p = loans[k].created_at;
        let blk = mir.blocks@[p.0.0 as int];
        lemma_block_locals(blk, mir.locals@.len());
        assert(crate::mir::basic_block::stmt_dest(blk.stmts@[p.1 as int]) < mir.locals@.len());
    }
}

impl MIRLoanAnalysis {
    /// Runs the analysis: collects the loans, numbers them by their point,
    /// and takes as live at each block's entry and exit the loans whose
    /// holder the liveness analysis finds live there.
    pub fn run(&self, mir: &Mir) -> (r: MIRLoanOut)
        requires
            mir.jumps_within(),
            mir.locals_within(),
        ensures
            loans_of(*mir, r.loans@),
            r.indices@.len() == r.loans@.len(),
            forall|k: int|
                0 <= k < r.indices@.len() ==> #[trigger] r.indices@[k] == (r.loans@[k].created_at, k as usize),
            loans_live(*mir, r.loans@, r.loans_live_in@, r.loans_live_out@),
    {
        let loans = Self::collect_loans(mir);
        let loan_count = loans.len();
        proof {
            lemma_holders_within(*mir, loans@);
        }
        let holders = by_holder(&loans, mir.locals.len());
        let liveness = MIRLivenessAnalysis.run(mir);
        proof {
            assert forall|l: int, j: int|
                0 <= l < holders@.len() && 0 <= j < holders@[l]@.len() implies (#[trigger] holders@[l]@[j])
                < loan_count by {
                lemma_held_by(loans@, l as nat, loans@.len());
                assert(held_by(loans@, l as nat, loans@.len()).contains(holders@[l]@[j]));
            }
        }
        let loans_live_in = Self::project_liveness(&liveness.live_in, &holders, loan_count);
        let loans_live_out = Self::project_liveness(&liveness.live_out, &holders, loan_count);
        proof {
            lemma_projection(*mir, loans@, holders@, liveness.live_in@, loans_live_in@);
            lemma_projection(*mir, loans@, holders@, liveness.live_out@, loans_live_out@);
            assert forall|b: int, k: nat| 0 <= b < mir.blocks@.len() implies (
            #[trigger] loans_live_in@[b].members().contains(k) <==> k < loans@.len() && live_at_entry(
                *mir,
                b,
                loans@[k as int].holder.0 as nat,
            )) by {
                if k < loans@.len() {
                    assert(liveness.live_in@[b].members().contains(loans@[k as int].holder.0 as nat)
                        <==> live_at_entry(*mir, b, loans@[k as int].holder.0 as nat));
                }
            }
            assert forall|b: int, k: nat| 0 <= b < mir.blocks@.len() implies (
            #[trigger] loans_live_out@[b].members().contains(k) <==> k < loans@.len() && live_at_exit(
                *mir,
                b,
                loans@[k as int].holder.0 as nat,
            )) by {
                if k < loans@.len() {
                    assert(liveness.live_out@[b].members().contains(loans@[k as int].holder.0 as nat)
                        <==> live_at_exit(*mir, b, loans@[k as int].holder.0 as nat));
                }
            }
        }
        let mut indices: Vec<(MIRStmtIndex, usize)> = Vec::new();
        let mut k: usize = 0;
        while k < loans.len()
            invariant
                k <= loans@.len(),
                indices@.len() == k,
                forall|j: int| 0 <= j < k ==> #[trigger] indices@[j] == (loans@[j].created_at, j as usize),
            decreases loans@.len() - k,
        {
            indices.push((loans[k].created_at, k));
            k += 1;
        }
        MIRLoanOut { loans, indices, loans_live_in, loans_live_out }
    }
}

/// Taking, for each set of live locals, the loans that some live local
/// holds gives the loans whose holder is live.
proof fn lemma_projection(mir: Mir, loans: Seq<Loan>, holders: Seq<Vec<usize>>, live: Seq<BitSet>, proj: Seq<BitSet>)
    requires
        loans.len() <= usize::MAX,
        holders.len() == mir.locals@.len(),
        forall|k: int| 0 <= k < loans.len() ==> (#[trigger] loans[k]).holder.0 < mir.locals@.len(),
        forall|l: int| 0 <= l < holders.len() ==> (#[trigger] holders[l])@ == held_by(loans, l as nat, loans.len()),
        proj.len() == live.len(),
        forall|b: int| 0 <= b < proj.len() ==> (#[trigger] proj[b]).capacity() == loans.len(),
        forall|b: int, k: nat|
            0 <= b < proj.len() ==> (#[trigger] proj[b].members().contains(k) <==> k < loans.len() && holder_live(
                live[b],
                holders,
                k as usize,
            )),
    ensures
        loans_projected(loans, live, proj),
{
    assert forall|b: int, k: nat| 0 <= b < proj.len() implies (#[trigger] proj[b].members().contains(k) <==> k
        < loans.len() && live[b].members().contains(loans[k as int].holder.0 as nat)) by {
        if k < loans.len() {
            let h = loans[k as int].holder.0 as nat;
            lemma_held_by(loans, h, loans.len());
            assert(holders[h as int]@.contains(k as usize));
            if holder_live(live[b], holders, k as usize) {
                let l = choose|l: nat| l < holders.len() && #[trigger] live[b].members().contains(l)
                    && holders[l as int]@.contains(k as usize);
                lemma_held_by(loans, l, loans.len());
            }
            if live[b].members().contains(h) {
                assert(holder_live(live[b], holders, k as usize));
            }
        }
    }
}

/// The label of loan `k`: `L` and its number.
pub open spec fn loan_label(k: nat) -> Seq<char> {
    "L"@ + decimal(k)
}

/// The line of loan `id`: its label, its kind of reference, its place, its
/// point and its holder.
pub open spec fn loan_text(n: MIRNames, id: nat, l: Loan) -> Seq<char> {
    "    "@ + loan_label(id) + ": "@ + (if l.mutability == Mutability::Mutable {
        "&mut "@
    } else {
        "&"@
    }) + " "@ + place_text(n, l.place) + " = "@ + decimal(l.created_at.0.0 as nat) + "_0.."@ + decimal(
        l.created_at.1 as nat,
    ) + " (holder: _"@ + decimal(l.holder.0 as nat) + ")\n"@
}

/// The lines of the loans, in order.
pub open spec fn loans_text(n: MIRNames, ls: Seq<Loan>) -> Seq<char>
    decreases ls.len(),
{
    if ls.len() == 0 {
        seq![]
    } else {
        loans_text(n, ls.drop_last()) + loan_text(n, (ls.len() - 1) as nat, ls.last())
    }
}

/// The text of the output: the loans, then the loans live at each block's
/// entry, then those live at each block's exit.
pub open spec fn loan_out_text(n: MIRNames, out: MIRLoanOut) -> Seq<char> {
    "loans:\n"@ + loans_text(n, out.loans@) + "loans-live-in:\n"@ + block_sets_text(out.loans_live_in@, "L"@)
        + "loans-live-out:\n"@ + block_sets_text(out.loans_live_out@, "L"@)
}

/// Writes the line of loan `id`.
fn fmt_loan(w: &mut String, names: &MIRNames, id: usize, loan: &Loan)
    ensures
        final(w)@ == old(w)@ + loan_text(*names, id as nat, *loan),
{
    let ghost start = w@;
    w.append("    ");
    w.append("L");
    push_decimal(w, id);
    w.append(": ");
    match loan.mutability {
        Mutability::Mutable => w.append("&mut "),
        Mutability::Const => w.append("&"),
    }
    w.append(" ");
    fmt_place(w, names, &loan.place);
    w.append(" = ");
    push_decimal(w, loan.created_at.0.0);
    w.append("_0..");
    push_decimal(w, loan.created_at.1);
    w.append(" (holder: _");
    push_decimal(w, loan.holder.0);
    w.append(")\n");
    assert(w@ =~= start + loan_text(*names, id as nat, *loan));
}

impl MIRLoanOut {
    /// The text of the output: the loans, then the loans live at each
    /// block's entry, then those live at each block's exit.
    pub fn display(&self, names: &MIRNames) -> (r: String)
        ensures
            r@ == loan_out_text(*names, *self),
    {
        let mut w = String::new();
        w.append("loans:\n");
        let ghost s1 = w@;
        let mut k: usize = 0;
        while k < self.loans.len()
            invariant
                k <= self.loans@.len(),
                w@ == s1 + loans_text(*names, self.loans@.take(k as int)),
            decreases self.loans@.len() - k,
        {
            fmt_loan(&mut w, names, k, &self.loans[k]);
            proof {
                let t = self.loans@.take(k + 1);
                assert(t.drop_last() =~= self.loans@.take(k as int));
                assert(t.last() == self.loans@[k as int]);
                assert(w@ =~= s1 + loans_text(*names, t));
            }
            k += 1;
        }
        assert(self.loans@.take(self.loans@.len() as int) =~= self.loans@);
        w.append("loans-live-in:\n");
        fmt_block_sets(&mut w, &self.loans_live_in, "L");
        w.append("loans-live-out:\n");
        fmt_block_sets(&mut w, &self.loans_live_out, "L");
        assert(w@ =~= loan_out_text(*names, *self));
        w
    }
}

impl Mir {
    /// The loan analysis of the body.
    pub fn loans(&self) -> (r: MIRLoanOut)
        requires
            self.jumps_within(),
            self.locals_within(),
        ensures
            loans_of(*self, r.loans@),
            r.indices@.len() == r.loans@.len(),
            forall|k: int|
                0 <= k < r.indices@.len() ==> #[trigger] r.indices@[k] == (r.loans@[k].created_at, k as usize),
            loans_live(*self, r.loans@, r.loans_live_in@, r.loans_live_out@),
    {
        MIRLoanAnalysis.run(self)
    }
}

} // verus!
