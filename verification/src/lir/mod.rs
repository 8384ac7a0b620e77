//! The low-level representation: functions made of typed values and blocks,
//! and the module that declares and then builds them.
use vstd::prelude::*;
use std::marker::PhantomData;
use crate::common::arena::Idx;
use crate::layout::{LIRTy, ScalarKind};
use self::branded::BrandedBlockId;
use self::finalized::{Block, FunctionBody};

pub mod branded;
pub mod finalized;
pub mod inst;

verus! {

/// The definition of a value: its type.
#[derive(Debug, Clone, Copy)]
pub struct LIRDef {
    pub ty: LIRTy,
}

/// The class of a value's type.
#[derive(Debug, Clone, Copy, PartialEq, Eq, Hash, Structural)]
pub enum ValueClass {
    Scalar(ScalarKind),
    Aggregate,
    Union,
    NoValue,
}

/// A kind of value, checked against the class of a value's type.
pub trait ValueKind: Copy {
    spec fn spec_matches(class: ValueClass) -> bool;

    fn matches(class: ValueClass) -> (r: bool)
        ensures
            r == Self::spec_matches(class),
    ;
}

/// A kind of scalar.
pub trait ScalarMarker: Copy {

}

/// Scalars of the marked kind.
pub struct Scalar<S: ScalarMarker>(PhantomData<S>);

impl<S: ScalarMarker> Clone for Scalar<S> {
    fn clone(&self) -> (r: Self)
        ensures
            r == *self,
    {
        Scalar(PhantomData)
    }
}

impl<S: ScalarMarker> Copy for Scalar<S> {
}

/// Integers.
#[derive(Clone, Copy)]
pub struct Int;

/// Pointers to values of the kind `P`.
pub struct Ptr<P: ValueKind>(PhantomData<P>);

impl<P: ValueKind> Clone for Ptr<P> {
    fn clone(&self) -> (r: Self)
        ensures
            r == *self,
    {
        Ptr(PhantomData)
    }
}

impl<P: ValueKind> Copy for Ptr<P> {
}

/// Structs and tuples.
#[derive(Clone, Copy)]
pub struct Aggregate;

/// Enums laid out as a tag and a payload.
#[derive(Clone, Copy)]
pub struct Union;

/// Values of size zero.
#[derive(Clone, Copy)]
pub struct ZST;

impl ScalarMarker for Int {

}

impl<P: ValueKind> ScalarMarker for Ptr<P> {

}

impl<S: ScalarMarker> ValueKind for Scalar<S> {
    open spec fn spec_matches(class: ValueClass) -> bool {
        class matches ValueClass::Scalar(ScalarKind::Int(_))
    }

    fn matches(class: ValueClass) -> (r: bool) {
        match class {
            ValueClass::Scalar(ScalarKind::Int(_)) => true,
            _ => false,
        }
    }
}

impl<P: ValueKind> ValueKind for Ptr<P> {
    open spec fn spec_matches(class: ValueClass) -> bool {
        class == ValueClass::Scalar(ScalarKind::Ptr)
    }

    fn matches(class: ValueClass) -> (r: bool) {
        match class {
            ValueClass::Scalar(ScalarKind::Ptr) => true,
            _ => false,
        }
    }
}

impl ValueKind for Aggregate {
    open spec fn spec_matches(class: ValueClass) -> bool {
        class == ValueClass::Aggregate
    }

    fn matches(class: ValueClass) -> (r: bool) {
        match class {
            ValueClass::Aggregate => true,
            _ => false,
        }
    }
}

impl ValueKind for Union {
    open spec fn spec_matches(class: ValueClass) -> bool {
        class == ValueClass::Union
    }

    fn matches(class: ValueClass) -> (r: bool) {
        match class {
            ValueClass::Union => true,
            _ => false,
        }
    }
}

impl ValueKind for ZST {
    open spec fn spec_matches(class: ValueClass) -> bool {
        class == ValueClass::NoValue
    }

    fn matches(class: ValueClass) -> (r: bool) {
        class == ValueClass::NoValue
    }
}

/// The brand that ties ids to the body that made them.
pub struct Brand<'ir>(PhantomData<&'ir mut &'ir ()>);

/// A use of a value of the body branded `'ir`.
pub struct ValueId<'ir> {
    pub idx: Idx<LIRDef>,
    _brand: PhantomData<&'ir ()>,
}

impl<'ir> ValueId<'ir> {
    /// The position of the value's definition in its body.
    pub closed spec fn index(self) -> nat {
        self.idx.index()
    }

    /// The value's index once the body is finished.
    pub fn finalize(self) -> (r: Idx<LIRDef>)
        ensures
            r.index() == self.index(),
    {
        self.idx
    }
}

impl<'ir> Clone for ValueId<'ir> {
    fn clone(&self) -> (r: Self)
        ensures
            r == *self,
    {
        ValueId { idx: self.idx, _brand: PhantomData }
    }
}

impl<'ir> Copy for ValueId<'ir> {
}

/// The definition of a value of the body branded `'ir`.
pub struct ValueDef<'ir> {
    pub idx: Idx<LIRDef>,
    _brand: PhantomData<&'ir ()>,
}

impl<'ir> ValueDef<'ir> {
    /// The position of the definition in its body.
    pub closed spec fn index(self) -> nat {
        self.idx.index()
    }

    /// The definition made from an arena index.
    pub fn from_idx(idx: Idx<LIRDef>) -> (r: Self)
        ensures
            r.index() == idx.index(),
    {
        ValueDef { idx, _brand: PhantomData }
    }

    /// The definition's index once the body is finished.
    pub fn finalize(&self) -> (r: Idx<LIRDef>)
        ensures
            r.index() == self.index(),
    {
        self.idx
    }

    /// The use of the value this defines.
    pub fn id(&self) -> (r: ValueId<'ir>)
        ensures
            r.index() == self.index(),
    {
        ValueId { idx: self.idx, _brand: PhantomData }
    }
}

/// A value known to be of kind `K`, with its type.
pub struct Typed<'ir, K: ValueKind> {
    id: ValueId<'ir>,
    ty: LIRTy,
    _k: PhantomData<K>,
}

impl<'ir, K: ValueKind> Typed<'ir, K> {
    /// The value it stands for.
    pub closed spec fn value(self) -> ValueId<'ir> {
        self.id
    }

    /// Forgets the kind and the type.
    pub fn erase(self) -> (r: ValueId<'ir>)
        ensures
            r == self.value(),
    {
        self.id
    }
}

/// A pointer value known to point to a value of kind `K` and type `pointee`.
pub struct TypedPtr<'ir, K: ValueKind> {
    raw: ValueId<'ir>,
    pointee: LIRTy,
    _k: PhantomData<K>,
}

/// What ids stand for at a stage of a body's life.
pub trait Refs {
    /// A use of a value.
    type Val: Copy;
    /// A definition of a value.
    type Def;
    /// A use of a block.
    type Block: Copy;
}

/// While a body is built: ids branded by the body.
pub struct Branded<'ir>(PhantomData<&'ir ()>);

impl<'ir> Refs for Branded<'ir> {
    type Val = ValueId<'ir>;
    type Def = ValueDef<'ir>;
    type Block = BrandedBlockId<'ir>;
}

/// Once a body is finished: plain arena indices.
pub struct Finalized;

impl Refs for Finalized {
    type Val = Idx<LIRDef>;
    type Def = Idx<LIRDef>;
    type Block = Idx<Block>;
}

/// Functions are being declared.
pub struct Declaring;

/// Bodies are being built.
pub struct Building;

/// Every body is built.
pub struct Complete;

/// A stage of a module's life, and what a defined function has as its body
/// then.
pub trait ModulePhase {
    type FnBody;
}

impl ModulePhase for Declaring {
    type FnBody = ();
}

impl ModulePhase for Building {
    type FnBody = Option<FunctionBody>;
}

impl ModulePhase for Complete {
    type FnBody = FunctionBody;
}

/// The linkage of a function defined in the module.
#[derive(Debug, Clone, Copy, PartialEq, Eq, Hash, Structural)]
pub enum DefinedLinkage {
    Export,
    Local,
    Weak,
}

/// Integer arithmetic, unsigned and signed.
#[derive(Debug, Clone, Copy, PartialEq, Eq, Hash, Structural)]
pub enum ArithBinop {
    UAdd,
    USub,
    UMul,
    UDiv,
    UMod,
    SAdd,
    SSub,
    SMul,
    SDiv,
    SMod,
}

/// Integer comparisons.
#[derive(Debug, Clone, Copy, PartialEq, Eq, Hash, Structural)]
pub enum CmpBinop {
    SLessThan,
    ULessThan,
    Eq,
}

/// Boolean connectives.
#[derive(Debug, Clone, Copy, PartialEq, Eq, Hash, Structural)]
pub enum Logic {
    Or,
    And,
}

/// The body of a function at a stage of the module: imported, or defined
/// with a linkage and what the stage has for it.
pub enum Body<S: ModulePhase> {
    Import,
    Defined(DefinedLinkage, S::FnBody),
}

/// A function of the module, by its position.
#[derive(Debug, Clone, Copy, PartialEq, Eq, Hash, Structural)]
pub struct LIRFunctionId(usize);

impl LIRFunctionId {
    /// The position of the function in the module.
    pub closed spec fn index(self) -> nat {
        self.0 as nat
    }
}

/// Parameter and return types.
pub struct Signature {
    pub params: Vec<LIRTy>,
    pub ret: LIRTy,
}

/// A declared function: its name, signature and kind.
pub struct FunctionSig {
    pub name: String,
    pub signature: Signature,
    pub kind: SigKind,
}

/// Whether a function is imported or defined, and with which linkage.
pub enum SigKind {
    Import,
    Defined(DefinedLinkage),
}

/// The functions of a compilation unit at stage `S`: their signatures and
/// their bodies, side by side.
pub struct Module<S: ModulePhase> {
    sigs: Vec<FunctionSig>,
    bodies: Vec<Body<S>>,
}

/// A body agrees with the kind its signature declares.
pub open spec fn body_agrees<S: ModulePhase>(kind: SigKind, body: Body<S>) -> bool {
    match (kind, body) {
        (SigKind::Import, Body::Import) => true,
        (SigKind::Defined(l), Body::Defined(m, _)) => l == m,
        _ => false,
    }
}

impl<S: ModulePhase> Module<S> {
    /// The declared signatures, in order.
    pub closed spec fn sigs(self) -> Seq<FunctionSig> {
        self.sigs@
    }

    /// The bodies, in the order of the signatures.
    pub closed spec fn bodies(self) -> Seq<Body<S>> {
        self.bodies@
    }

    /// Every function has one body, which agrees with its signature.
    pub open spec fn wf(self) -> bool {
        &&& self.sigs().len() == self.bodies().len()
        &&& forall|i: int|
            0 <= i < self.sigs().len() ==> body_agrees(
                #[trigger] self.sigs()[i].kind,
                self.bodies()[i],
            )
    }

    /// The signature and body of a declared function.
    pub fn get_fn(&self, id: LIRFunctionId) -> (r: (&FunctionSig, &Body<S>))
        requires
            self.wf(),
            id.index() < self.sigs().len(),
        ensures
            *r.0 == self.sigs()[id.index() as int],
            *r.1 == self.bodies()[id.index() as int],
    {
        (&self.sigs[id.0], &self.bodies[id.0])
    }

    /// The signature and, for change, the body of a declared function.
    pub fn get_fn_mut(&mut self, id: LIRFunctionId) -> (r: (&FunctionSig, &mut Body<S>))
        requires
            old(self).wf(),
            id.index() < old(self).sigs().len(),
        ensures
            *r.0 == old(self).sigs()[id.index() as int],
            *r.1 == old(self).bodies()[id.index() as int],
            final(self).sigs() == old(self).sigs(),
            final(self).bodies() == old(self).bodies().update(id.index() as int, *final(r.1)),
    {
        (&self.sigs[id.0], &mut self.bodies[id.0])
    }
}

impl Module<Declaring> {
    /// A module with no function.
    pub fn new() -> (r: Self)
        ensures
            r.wf(),
            r.sigs().len() == 0,
    {
        Module { sigs: Vec::new(), bodies: Vec::new() }
    }

    /// Declares a function that is imported; its id is its position.
    pub fn declare_import(&mut self, name: String, sig: Signature) -> (id: LIRFunctionId)
        requires
            old(self).wf(),
        ensures
            final(self).wf(),
            id.index() == old(self).sigs().len(),
            final(self).sigs() == old(self).sigs().push(
                FunctionSig { name, signature: sig, kind: SigKind::Import },
            ),
            final(self).bodies() == old(self).bodies().push(Body::Import),
    {
        let id = LIRFunctionId(self.sigs.len());
        self.bodies.push(Body::Import);
        self.sigs.push(FunctionSig { name, signature: sig, kind: SigKind::Import });
        proof {
            assert forall|i: int| 0 <= i < self.sigs().len() implies body_agrees(
                #[trigger] self.sigs()[i].kind,
                self.bodies()[i],
            ) by {
                if i < old(self).sigs().len() {
                    assert(self.sigs()[i] == old(self).sigs()[i]);
                    assert(self.bodies()[i] == old(self).bodies()[i]);
                }
            }
        }
        id
    }

    /// Declares a function defined in the module, with its linkage; its id
    /// is its position.
    pub fn declare_defined(&mut self, name: String, sig: Signature, linkage: DefinedLinkage) -> (id:
        LIRFunctionId)
        requires
            old(self).wf(),
        ensures
            final(self).wf(),
            id.index() == old(self).sigs().len(),
            final(self).sigs() == old(self).sigs().push(
                FunctionSig { name, signature: sig, kind: SigKind::Defined(linkage) },
            ),
            final(self).bodies() == old(self).bodies().push(Body::Defined(linkage, ())),
    {
        let id = LIRFunctionId(self.sigs.len());
        self.bodies.push(Body::Defined(linkage, ()));
        self.sigs.push(FunctionSig { name, signature: sig, kind: SigKind::Defined(linkage) });
        proof {
            assert forall|i: int| 0 <= i < self.sigs().len() implies body_agrees(
                #[trigger] self.sigs()[i].kind,
                self.bodies()[i],
            ) by {
                if i < old(self).sigs().len() {
                    assert(self.sigs()[i] == old(self).sigs()[i]);
                    assert(self.bodies()[i] == old(self).bodies()[i]);
                }
            }
        }
        id
    }

    /// Ends the declarations: every defined function now waits for its body.
    pub fn finish_declarations(self) -> (r: Module<Building>)
        requires
            self.wf(),
        ensures
            r.wf(),
            r.sigs() == self.sigs(),
            forall|i: int|
                0 <= i < r.bodies().len() ==> #[trigger] r.bodies()[i] == match self.bodies()[i] {
                    Body::Import => Body::<Building>::Import,
                    Body::Defined(l, _) => Body::<Building>::Defined(l, None),
                },
    {
        let Module { sigs, bodies } = self;
        let ghost old_bodies = bodies@;
        let ghost n = old_bodies.len();
        let mut bodies = bodies;
        let mut stack: Vec<Body<Declaring>> = Vec::new();
        while bodies.len() > 0
            invariant
                bodies@ == old_bodies.take(bodies@.len() as int),
                stack@.len() + bodies@.len() == n,
                n == old_bodies.len(),
                forall|j: int| 0 <= j < stack@.len() ==> #[trigger] stack@[j] == old_bodies[n - 1 - j],
            decreases bodies@.len(),
        {
            let body = bodies.pop().unwrap();
            stack.push(body);
            proof {
                assert(bodies@ =~= old_bodies.take(bodies@.len() as int));
            }
        }
        let ghost stack0 = stack@;
        let mut new_bodies: Vec<Body<Building>> = Vec::new();
        while stack.len() > 0
            invariant
                stack@ == stack0.take(stack@.len() as int),
                stack0.len() == n,
                n == old_bodies.len(),
                forall|j: int| 0 <= j < n ==> #[trigger] stack0[j] == old_bodies[n - 1 - j],
                new_bodies@.len() + stack@.len() == n,
                forall|i: int|
                    0 <= i < new_bodies@.len() ==> #[trigger] new_bodies@[i] == match old_bodies[i] {
                        Body::Import => Body::<Building>::Import,
                        Body::Defined(l, _) => Body::<Building>::Defined(l, None),
                    },
            decreases stack@.len(),
        {
            let body = stack.pop().unwrap();
            proof {
                let k = new_bodies@.len() as int;
                assert(body == stack0[stack@.len() as int]);
                assert(stack0[stack@.len() as int] == old_bodies[k]);
                assert(stack@ =~= stack0.take(stack@.len() as int));
            }
            let mapped = body.map(|_unit: ()| -> (r: Option<FunctionBody>)
                ensures
                    r is None,
                { None });
            new_bodies.push(mapped);
        }
        let r = Module { sigs, bodies: new_bodies };
        proof {
            assert forall|i: int| 0 <= i < r.sigs().len() implies body_agrees(
                #[trigger] r.sigs()[i].kind,
                r.bodies()[i],
            ) by {
                assert(body_agrees(self.sigs()[i].kind, old_bodies[i]));
            }
        }
        r
    }
}

impl<S: ModulePhase> Body<S> {
    /// The same body, with what the stage has for a defined function passed
    /// through `f`.
    pub fn map<NewPhase: ModulePhase, F: FnOnce(S::FnBody) -> NewPhase::FnBody>(self, f: F) -> (r:
        Body<NewPhase>)
        requires
            self matches Body::Defined(_, val) ==> f.requires((val,)),
        ensures
            match self {
                Body::Import => r is Import,
                Body::Defined(l, val) => r matches Body::Defined(m, out) && m == l && f.ensures(
                    (val,),
                    out,
                ),
            },
    {
        match self {
            Body::Import => Body::Import,
            Body::Defined(defined_linkage, val) => Body::Defined(defined_linkage, f(val)),
        }
    }
}

} // verus!
