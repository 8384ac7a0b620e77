//! Typed indices into append-only arenas.
use vstd::prelude::*;
use std::marker::PhantomData;

verus! {

/// The index of a `T` in an arena of `T`s.
pub struct Idx<T> {
    raw: usize,
    _ty: PhantomData<T>,
}

impl<T> Clone for Idx<T> {
    fn clone(&self) -> (r: Self)
        ensures
            r == *self,
    {
        Idx { raw: self.raw, _ty: PhantomData }
    }
}

impl<T> Copy for Idx<T> {
}

impl<T> Idx<T> {
    /// The position in the arena.
    pub closed spec fn index(self) -> nat {
        self.raw as nat
    }

    /// The index of position `raw`.
    pub fn from_raw(raw: usize) -> (r: Self)
        ensures
            r.index() == raw,
    {
        Idx { raw, _ty: PhantomData }
    }

    /// The position in the arena.
    pub fn into_raw(self) -> (r: usize)
        ensures
            r == self.index(),
    {
        self.raw
    }

    /// The position in the arena.
    pub fn raw(&self) -> (r: usize)
        ensures
            r == self.index(),
    {
        self.raw
    }

    /// Indices are equal exactly when their positions are.
    pub proof fn lemma_index_injective(a: Self, b: Self)
        ensures
            a.index() == b.index() ==> a == b,
    {
    }
}

} // verus!
