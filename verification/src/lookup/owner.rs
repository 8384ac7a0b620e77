//! Which item of a module holds a location, on the way to the scope that
//! owns it: the module itself, an interface, an impl block, or a nested
//! module to look into.
use vstd::prelude::*;
use crate::common::Location;
use crate::lookup::ty::span_holds;
use crate::parse_tree::top_level::{AstTopLevelItem, AstTopLevelItemDesc};

verus! {

/// What an item holding the location makes of the search for its owner.
#[derive(Debug, Clone, Copy, PartialEq, Eq, Structural)]
pub enum OwnerStep {
    /// The item at this index is a module: the owner is searched in it, and
    /// the search goes on after it when none is found there.
    Nested(usize),
    /// The item at this index is an interface: it owns the location.
    Interface(usize),
    /// The item at this index is an impl block: it owns the location when
    /// it is known as one of the module's impls, else the search goes on.
    Impl(usize),
    /// Any other item: the module itself owns the location.
    Module,
}

/// The step an item at index `i` holding the location stands for.
pub open spec fn item_step(item: AstTopLevelItem, i: int) -> OwnerStep {
    match item.data {
        AstTopLevelItemDesc::Module(_) => OwnerStep::Nested(i as usize),
        AstTopLevelItemDesc::Interface(_) => OwnerStep::Interface(i as usize),
        AstTopLevelItemDesc::Impl(_) => OwnerStep::Impl(i as usize),
        _ => OwnerStep::Module,
    }
}

/// A step that ends the search.
pub open spec fn final_step(s: OwnerStep) -> bool {
    s is Interface || s is Module
}

/// The steps the search for the owner of `loc` tries among the first `n`
/// items, in order: one for each item whose span holds the location, up to
/// and including the first that ends the search.
pub open spec fn owner_steps(items: Seq<AstTopLevelItem>, loc: Location, n: int) -> Seq<OwnerStep>
    decreases n,
{
    if n <= 0 {
        seq![]
    } else {
        let before = owner_steps(items, loc, n - 1);
        if (before.len() > 0 && final_step(before.last())) || !span_holds(items[n - 1].span, loc) {
            before
        } else {
            before.push(item_step(items[n - 1], n - 1))
        }
    }
}

/// The steps of the search for the owner of `loc` among the items of a
/// module, in the order it tries them.
pub fn owner_steps_in(items: &Vec<AstTopLevelItem>, loc: Location) -> (r: Vec<OwnerStep>)
    ensures
        r@ == owner_steps(items@, loc, items@.len() as int),
{
    let mut r: Vec<OwnerStep> = Vec::new();
    let mut i: usize = 0;
    while i < items.len()
        invariant
            i <= items@.len(),
            r@ == owner_steps(items@, loc, i as int),
        decreases items@.len() - i,
    {
        let done = r.len() > 0 && match r[r.len() - 1] {
            OwnerStep::Interface(_) | OwnerStep::Module => true,
            _ => false,
        };
        if !done && items[i].span.encloses(loc) {
            let step = match &items[i].data {
                AstTopLevelItemDesc::Module(_) => OwnerStep::Nested(i),
                AstTopLevelItemDesc::Interface(_) => OwnerStep::Interface(i),
                AstTopLevelItemDesc::Impl(_) => OwnerStep::Impl(i),
                _ => OwnerStep::Module,
            };
            r.push(step);
        }
        i += 1;
    }
    r
}

/// The item a step names, if it names one.
pub open spec fn step_item(s: OwnerStep) -> Option<int> {
    match s {
        OwnerStep::Nested(i) => Some(i as int),
        OwnerStep::Interface(i) => Some(i as int),
        OwnerStep::Impl(i) => Some(i as int),
        OwnerStep::Module => None,
    }
}

/// The steps of the search among the first `n` items: each step names an
/// item that holds the location, a module for `Nested`, an interface for
/// `Interface` and an impl block for `Impl`; the items come in their order;
/// only the last step may end the search; and while no step ends it, every
/// item that holds the location has its step.
pub proof fn lemma_owner_steps(items: Seq<AstTopLevelItem>, loc: Location, n: int)
    requires
        0 <= n <= items.len(),
        items.len() <= usize::MAX,
    ensures
        forall|k: int|
            0 <= k < owner_steps(items, loc, n).len() ==> match #[trigger] owner_steps(items, loc, n)[k] {
                OwnerStep::Nested(i) => i < n && span_holds(items[i as int].span, loc) && items[i as int].data is Module,
                OwnerStep::Interface(i) => i < n && span_holds(items[i as int].span, loc)
                    && items[i as int].data is Interface,
                OwnerStep::Impl(i) => i < n && span_holds(items[i as int].span, loc) && items[i as int].data is Impl,
                OwnerStep::Module => true,
            },
        forall|k: int|
            0 <= k < owner_steps(items, loc, n).len() - 1 ==> !final_step(#[trigger] owner_steps(items, loc, n)[k]),
        forall|k1: int, k2: int|
            0 <= k1 < k2 < owner_steps(items, loc, n).len() && step_item(#[trigger] owner_steps(items, loc, n)[k1])
                is Some && step_item(#[trigger] owner_steps(items, loc, n)[k2]) is Some ==> step_item(
                owner_steps(items, loc, n)[k1],
            ).unwrap() < step_item(owner_steps(items, loc, n)[k2]).unwrap(),
        forall|j: int|
            0 <= j < n && span_holds(#[trigger] items[j].span, loc) && !(owner_steps(items, loc, n).len() > 0
                && final_step(owner_steps(items, loc, n).last())) ==> owner_steps(items, loc, n).contains(
                item_step(items[j], j),
            ),
    decreases n,
{
    if n > 0 {
        lemma_owner_steps(items, loc, n - 1);
        let before = owner_steps(items, loc, n - 1);
        let after = owner_steps(items, loc, n);
        if !((before.len() > 0 && final_step(before.last())) || !span_holds(items[n - 1].span, loc)) {
            assert(after == before.push(item_step(items[n - 1], n - 1)));
            assert forall|k: int| 0 <= k < before.len() implies after[k] == before[k] by {}
            assert forall|k1: int, k2: int|
                0 <= k1 < k2 < after.len() && step_item(#[trigger] after[k1]) is Some && step_item(
                    #[trigger] after[k2],
                ) is Some implies step_item(after[k1]).unwrap() < step_item(after[k2]).unwrap() by {
                if k2 == before.len() {
                    assert(after[k1] == before[k1]);
                } else {
                    assert(after[k1] == before[k1]);
                    assert(after[k2] == before[k2]);
                }
            }
            assert forall|j: int|
                0 <= j < n && span_holds(#[trigger] items[j].span, loc) && !(after.len() > 0 && final_step(
                    after.last(),
                )) implies after.contains(item_step(items[j], j)) by {
                if j == n - 1 {
                    assert(after[before.len() as int] == item_step(items[j], j));
                } else {
                    let k = choose|k: int| 0 <= k < before.len() && before[k] == item_step(items[j], j);
                    assert(after[k] == before[k]);
                }
            }
        }
    }
}

} // verus!
