//! Joining texts with a separator.
use vstd::prelude::*;
use itertools::Itertools;

verus! {

/// The parts with `sep` between each two.
pub open spec fn joined(parts: Seq<Seq<char>>, sep: Seq<char>) -> Seq<char>
    decreases parts.len(),
{
    if parts.len() == 0 {
        seq![]
    } else if parts.len() == 1 {
        parts[0]
    } else {
        joined(parts.drop_last(), sep) + sep + parts.last()
    }
}

/// The contents of a list of names.
pub open spec fn names_view(v: Seq<String>) -> Seq<Seq<char>> {
    v.map_values(|n: String| n@)
}

/// `Itertools::join` over the names: each name written out in turn, with
/// `sep` between each two, and the empty string for no name.
#[verifier::external_body]
pub(crate) fn join_names(names: &Vec<String>, sep: &str) -> (r: String)
    ensures
        r@ == joined(names_view(names@), sep@),
{
    names.iter().join(sep)
}

} // verus!
