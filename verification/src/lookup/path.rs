//! The places where the definition named at a location of an expression is
//! looked for, in the order the lookup tries them: the first place where
//! something is found gives the answer.
use vstd::prelude::*;
use crate::common::{Location, Span, Symbol};
use crate::lookup::ty::span_holds;
use crate::parse_tree::expr::{AstExpr, AstExprDesc, AstStructField};
use crate::parse_tree::type_expr::{
    any_same, duplicate_any, duplicate_type_expr, type_expr_same, AstAnyTypeExpr, AstTypeExpr,
};

verus! {

/// What a place holds once the module it is in has been reached.
#[derive(Debug)]
pub enum PathTarget {
    /// A name: the answer is the definition it resolves to.
    Name(Symbol, Span),
    /// A type: the answer is found in its path at the location.
    Type(AstTypeExpr),
    /// A type argument, possibly a placeholder.
    Any(AstAnyTypeExpr),
}

/// A place to look: the names to go through from the module enclosing the
/// location, each of which must resolve to a module, then what to look at
/// in the module reached.
#[derive(Debug)]
pub struct PathCandidate {
    pub modules: Vec<(Symbol, Span)>,
    pub target: PathTarget,
}

/// A place of the lookup, as values.
pub type PathPlace = (Seq<(Symbol, Span)>, PathTarget);

/// Two targets hold copies of the same thing.
pub open spec fn target_same(a: PathTarget, b: PathTarget) -> bool {
    match (a, b) {
        (PathTarget::Name(x, s), PathTarget::Name(y, t)) => x == y && s == t,
        (PathTarget::Type(x), PathTarget::Type(y)) => type_expr_same(x, y),
        (PathTarget::Any(x), PathTarget::Any(y)) => any_same(x, y),
        _ => false,
    }
}

/// A candidate holds a copy of the place `p`.
pub open spec fn place_same(p: PathPlace, c: PathCandidate) -> bool {
    p.0 == c.modules@ && target_same(p.1, c.target)
}

/// The candidates hold copies of the places, in order.
pub open spec fn places_same(ps: Seq<PathPlace>, cs: Seq<PathCandidate>) -> bool {
    &&& ps.len() == cs.len()
    &&& forall|i: int| 0 <= i < ps.len() ==> #[trigger] place_same(ps[i], cs[i])
}

/// The places the lookup tries in `e` for `loc`, with `pre` the names gone
/// through so far: none where `e` does not hold `loc`. A `::`-path goes
/// through its first name when the location lies further on, and is the
/// answer when the location lies on that name. Types are looked at in the
/// module reached, type arguments, call arguments, field values, `sizeof`,
/// `typename` and casts in the module enclosing the location.
pub open spec fn expr_places(e: AstExpr, loc: Location, pre: Seq<(Symbol, Span)>) -> Seq<PathPlace>
    decreases e, 1nat,
{
    if !span_holds(e.span, loc) {
        seq![]
    } else {
        match e.data {
            AstExprDesc::NameResolved { from, to } => if span_holds(from.span, loc) {
                seq![(pre, PathTarget::Name(from.data, from.span))]
            } else {
                expr_places(*to, loc, pre.push((from.data, from.span)))
            },
            AstExprDesc::StaticCall { ty, type_args, args, .. } => seq![(pre, PathTarget::Type(ty))] + any_places(
                type_args@,
            ) + exprs_places(args@, loc, seq![]),
            AstExprDesc::QualifiedPath { ty, .. } => seq![(pre, PathTarget::Type(ty))],
            AstExprDesc::BinOp { lhs, rhs, .. } => expr_places(*lhs, loc, pre) + expr_places(*rhs, loc, pre),
            AstExprDesc::Range { from, to } => expr_places(*from, loc, pre) + expr_places(*to, loc, pre),
            AstExprDesc::Index { object, index } => expr_places(*object, loc, pre) + expr_places(*index, loc, pre),
            AstExprDesc::Neg(x) => expr_places(*x, loc, pre),
            AstExprDesc::Not(x) => expr_places(*x, loc, pre),
            AstExprDesc::AddressOf(x) => expr_places(*x, loc, pre),
            AstExprDesc::PostfixDeref(x) => expr_places(*x, loc, pre),
            AstExprDesc::PrefixDeref(x) => expr_places(*x, loc, pre),
            AstExprDesc::Metadata(x) => expr_places(*x, loc, pre),
            AstExprDesc::Ref(_, x) => expr_places(*x, loc, pre),
            AstExprDesc::FieldAccess { object, .. } => expr_places(*object, loc, pre),
            AstExprDesc::TupleAccess { object, .. } => expr_places(*object, loc, pre),
            AstExprDesc::Call { callee, type_args, args } => expr_places(*callee, loc, pre) + any_places(type_args@)
                + exprs_places(args@, loc, seq![]),
            AstExprDesc::MethodCall { object, type_args, args, .. } => expr_places(*object, loc, pre) + any_places(
                type_args@,
            ) + exprs_places(args@, loc, seq![]),
            AstExprDesc::StructLit { ty, fields, .. } => seq![(pre, PathTarget::Type(ty))] + fields_places(
                fields@,
                loc,
            ),
            AstExprDesc::Tuple(items) => exprs_places(items@, loc, pre),
            AstExprDesc::SliceLit(items) => exprs_places(items@, loc, pre),
            AstExprDesc::SizeOf(ty) => seq![(seq![], PathTarget::Type(ty))],
            AstExprDesc::TypeName(ty) => seq![(seq![], PathTarget::Type(ty))],
            AstExprDesc::As { expr, ty } => expr_places(*expr, loc, seq![]) + seq![(seq![], PathTarget::Type(ty))],
            _ => seq![],
        }
    }
}

/// The places of expressions one after the other.
pub open spec fn exprs_places(es: Seq<AstExpr>, loc: Location, pre: Seq<(Symbol, Span)>) -> Seq<PathPlace>
    decreases es, 0nat,
{
    if es.len() == 0 {
        seq![]
    } else {
        exprs_places(es.drop_last(), loc, pre) + expr_places(es.last(), loc, pre)
    }
}

/// The places of the values of struct-literal fields one after the other,
/// in the module enclosing the location.
pub open spec fn fields_places(fs: Seq<AstStructField>, loc: Location) -> Seq<PathPlace>
    decreases fs, 0nat,
{
    if fs.len() == 0 {
        seq![]
    } else {
        fields_places(fs.drop_last(), loc) + expr_places(fs.last().value, loc, seq![])
    }
}

/// Type arguments as places in the module enclosing the location, in order.
pub open spec fn any_places(args: Seq<AstAnyTypeExpr>) -> Seq<PathPlace> {
    args.map_values(|a: AstAnyTypeExpr| (Seq::<(Symbol, Span)>::empty(), PathTarget::Any(a)))
}

/// `new` is `old` with candidates for the places `x` added after it.
pub open spec fn appended(old: Seq<PathCandidate>, new: Seq<PathCandidate>, x: Seq<PathPlace>) -> bool {
    &&& new.len() >= old.len()
    &&& new.take(old.len() as int) == old
    &&& places_same(x, new.skip(old.len() as int))
}

/// Adding `x` and then `y` adds `x` followed by `y`.
proof fn lemma_appended_trans(
    a: Seq<PathCandidate>,
    b: Seq<PathCandidate>,
    c: Seq<PathCandidate>,
    x: Seq<PathPlace>,
    y: Seq<PathPlace>,
)
    requires
        appended(a, b, x),
        appended(b, c, y),
    ensures
        appended(a, c, x + y),
{
    assert(c.take(a.len() as int) =~= b.take(a.len() as int)) by {
        assert forall|i: int| 0 <= i < a.len() implies c.take(a.len() as int)[i] == b.take(a.len() as int)[i] by {
            assert(c.take(b.len() as int)[i] == c[i]);
        }
    }
    assert(c.skip(a.len() as int) =~= b.skip(a.len() as int) + c.skip(b.len() as int)) by {
        assert forall|i: int| 0 <= i < c.skip(a.len() as int).len() implies c.skip(a.len() as int)[i] == (b.skip(
            a.len() as int,
        ) + c.skip(b.len() as int))[i] by {
            if i < b.len() - a.len() {
                assert(c.take(b.len() as int)[a.len() + i] == c[a.len() + i]);
            }
        }
    }
    let p = b.skip(a.len() as int);
    let q = c.skip(b.len() as int);
    assert forall|i: int| 0 <= i < (x + y).len() implies #[trigger] place_same((x + y)[i], (p + q)[i]) by {
        if i < x.len() {
            assert(place_same(x[i], p[i]));
        } else {
            assert(place_same(y[i - x.len()], q[i - x.len()]));
        }
    }
}

/// Nothing added adds no places.
proof fn lemma_appended_none(a: Seq<PathCandidate>)
    ensures
        appended(a, a, seq![]),
{
    assert(a.take(a.len() as int) =~= a);
    assert(a.skip(a.len() as int) =~= Seq::<PathCandidate>::empty());
}

/// A copy of the names gone through.
fn copy_names(v: &Vec<(Symbol, Span)>) -> (r: Vec<(Symbol, Span)>)
    ensures
        r@ == v@,
{
    let mut r: Vec<(Symbol, Span)> = Vec::new();
    let mut i: usize = 0;
    while i < v.len()
        invariant
            i <= v@.len(),
            r@ == v@.take(i as int),
        decreases v@.len() - i,
    {
        r.push(v[i]);
        i += 1;
        assert(r@ =~= v@.take(i as int));
    }
    assert(v@.take(v@.len() as int) =~= v@);
    r
}

/// Adds a candidate for the place `(pre, target)`, the target a copy.
fn push_place(pre: &Vec<(Symbol, Span)>, target: PathTarget, out: &mut Vec<PathCandidate>, Ghost(p): Ghost<PathPlace>)
    requires
        p.0 == pre@,
        target_same(p.1, target),
    ensures
        appended(old(out)@, final(out)@, seq![p]),
{
    let ghost start = out@;
    let modules = copy_names(pre);
    out.push(PathCandidate { modules, target });
    assert(out@.take(start.len() as int) =~= start);
    assert(place_same(seq![p][0], out@.skip(start.len() as int)[0]));
}

/// Adds a candidate for a type, with a copy of it.
fn push_type(pre: &Vec<(Symbol, Span)>, ty: &AstTypeExpr, out: &mut Vec<PathCandidate>)
    ensures
        appended(old(out)@, final(out)@, seq![(pre@, PathTarget::Type(*ty))]),
{
    push_place(pre, PathTarget::Type(duplicate_type_expr(ty)), out, Ghost((pre@, PathTarget::Type(*ty))));
}

/// Adds a candidate for each type argument, in order.
fn push_anys(args: &Vec<AstAnyTypeExpr>, out: &mut Vec<PathCandidate>)
    ensures
        appended(old(out)@, final(out)@, any_places(args@)),
{
    let ghost start = out@;
    proof {
        lemma_appended_none(start);
    }
    let none: Vec<(Symbol, Span)> = Vec::new();
    let mut i: usize = 0;
    while i < args.len()
        invariant
            i <= args@.len(),
            none@ == Seq::<(Symbol, Span)>::empty(),
            appended(start, out@, any_places(args@.take(i as int))),
        decreases args@.len() - i,
    {
        let ghost b = out@;
        let ghost p: PathPlace = (Seq::<(Symbol, Span)>::empty(), PathTarget::Any(args@[i as int]));
        push_place(&none, PathTarget::Any(duplicate_any(&args[i])), out, Ghost(p));
        proof {
            lemma_appended_trans(start, b, out@, any_places(args@.take(i as int)), seq![p]);
            assert(any_places(args@.take(i + 1)) =~= any_places(args@.take(i as int)) + seq![p]);
        }
        i += 1;
    }
    assert(args@.take(args@.len() as int) =~= args@);
}

/// Adds the places of each expression of `items` in turn.
fn push_exprs(items: &Vec<AstExpr>, loc: Location, pre: &Vec<(Symbol, Span)>, out: &mut Vec<PathCandidate>)
    ensures
        appended(old(out)@, final(out)@, exprs_places(items@, loc, pre@)),
    decreases items@, 0nat,
{
    let ghost start = out@;
    proof {
        lemma_appended_none(start);
    }
    let mut i: usize = 0;
    while i < items.len()
        invariant
            i <= items@.len(),
            appended(start, out@, exprs_places(items@.take(i as int), loc, pre@)),
        decreases items@.len() - i,
    {
        proof {
            broadcast use vstd::std_specs::vec::axiom_vec_index_decreases;
            assert(decreases_to!(items => items[i as int]));
        }
        let ghost b = out@;
        expr_path_candidates(&items[i], loc, pre, out);
        proof {
            lemma_appended_trans(
                start,
                b,
                out@,
                exprs_places(items@.take(i as int), loc, pre@),
                expr_places(items@[i as int], loc, pre@),
            );
            assert(items@.take(i + 1).drop_last() =~= items@.take(i as int));
        }
        i += 1;
    }
    assert(items@.take(items@.len() as int) =~= items@);
}

/// Adds the places of the values of struct-literal fields in turn.
fn push_fields(fields: &Vec<AstStructField>, loc: Location, out: &mut Vec<PathCandidate>)
    ensures
        appended(old(out)@, final(out)@, fields_places(fields@, loc)),
    decreases fields@, 0nat,
{
    let ghost start = out@;
    proof {
        lemma_appended_none(start);
    }
    let none: Vec<(Symbol, Span)> = Vec::new();
    let mut i: usize = 0;
    while i < fields.len()
        invariant
            i <= fields@.len(),
            none@ == Seq::<(Symbol, Span)>::empty(),
            appended(start, out@, fields_places(fields@.take(i as int), loc)),
        decreases fields@.len() - i,
    {
        proof {
            broadcast use vstd::std_specs::vec::axiom_vec_index_decreases;
            assert(decreases_to!(fields => fields[i as int]));
            assert(decreases_to!(fields[i as int] => fields[i as int].value));
        }
        let ghost b = out@;
        expr_path_candidates(&fields[i].value, loc, &none, out);
        proof {
            lemma_appended_trans(
                start,
                b,
                out@,
                fields_places(fields@.take(i as int), loc),
                expr_places(fields@[i as int].value, loc, seq![]),
            );
            assert(fields@.take(i + 1).drop_last() =~= fields@.take(i as int));
        }
        i += 1;
    }
    assert(fields@.take(fields@.len() as int) =~= fields@);
}

/// Adds to `out` a candidate for each place where the definition named at
/// `loc` in `e` is looked for, in the order the lookup tries them, `pre`
/// being the names gone through so far.
pub fn expr_path_candidates(e: &AstExpr, loc: Location, pre: &Vec<(Symbol, Span)>, out: &mut Vec<PathCandidate>)
    ensures
        appended(old(out)@, final(out)@, expr_places(*e, loc, pre@)),
    decreases e, 1nat,
{
    let ghost start = out@;
    proof {
        lemma_appended_none(start);
    }
    if !e.span.encloses(loc) {
        return;
    }
    let none: Vec<(Symbol, Span)> = Vec::new();
    assert(none@ =~= Seq::<(Symbol, Span)>::empty());
    match &e.data {
        AstExprDesc::NameResolved { from, to } => {
            if from.span.encloses(loc) {
                let ghost p: PathPlace = (pre@, PathTarget::Name(from.data, from.span));
                push_place(pre, PathTarget::Name(from.data, from.span), out, Ghost(p));
            } else {
                let mut deeper = copy_names(pre);
                deeper.push((from.data, from.span));
                expr_path_candidates(to, loc, &deeper, out);
            }
        },
        AstExprDesc::StaticCall { ty, type_args, args, .. } => {
            push_type(pre, ty, out);
            let ghost m1 = out@;
            push_anys(type_args, out);
            let ghost m2 = out@;
            proof {
                assert(decreases_to!(*e => e.data));
                assert(decreases_to!(e.data => e.data->StaticCall_args));
            }
            push_exprs(args, loc, &none, out);
            proof {
                lemma_appended_trans(start, m1, m2, seq![(pre@, PathTarget::Type(*ty))], any_places(type_args@));
                lemma_appended_trans(
                    start,
                    m2,
                    out@,
                    seq![(pre@, PathTarget::Type(*ty))] + any_places(type_args@),
                    exprs_places(args@, loc, seq![]),
                );
            }
        },
        AstExprDesc::QualifiedPath { ty, .. } => push_type(pre, ty, out),
        AstExprDesc::BinOp { lhs, rhs, .. } => {
            expr_path_candidates(lhs, loc, pre, out);
            let ghost m1 = out@;
            expr_path_candidates(rhs, loc, pre, out);
            proof {
                lemma_appended_trans(start, m1, out@, expr_places(**lhs, loc, pre@), expr_places(**rhs, loc, pre@));
            }
        },
        AstExprDesc::Range { from, to } => {
            expr_path_candidates(from, loc, pre, out);
            let ghost m1 = out@;
            expr_path_candidates(to, loc, pre, out);
            proof {
                lemma_appended_trans(start, m1, out@, expr_places(**from, loc, pre@), expr_places(**to, loc, pre@));
            }
        },
        AstExprDesc::Index { object, index } => {
            expr_path_candidates(object, loc, pre, out);
            let ghost m1 = out@;
            expr_path_candidates(index, loc, pre, out);
            proof {
                lemma_appended_trans(
                    start,
                    m1,
                    out@,
                    expr_places(**object, loc, pre@),
                    expr_places(**index, loc, pre@),
                );
            }
        },
        AstExprDesc::Neg(x) => expr_path_candidates(x, loc, pre, out),
        AstExprDesc::Not(x) => expr_path_candidates(x, loc, pre, out),
        AstExprDesc::AddressOf(x) => expr_path_candidates(x, loc, pre, out),
        AstExprDesc::PostfixDeref(x) => expr_path_candidates(x, loc, pre, out),
        AstExprDesc::PrefixDeref(x) => expr_path_candidates(x, loc, pre, out),
        AstExprDesc::Metadata(x) => expr_path_candidates(x, loc, pre, out),
        AstExprDesc::Ref(_, x) => expr_path_candidates(x, loc, pre, out),
        AstExprDesc::FieldAccess { object, .. } => expr_path_candidates(object, loc, pre, out),
        AstExprDesc::TupleAccess { object, .. } => expr_path_candidates(object, loc, pre, out),
        AstExprDesc::Call { callee, type_args, args } => {
            expr_path_candidates(callee, loc, pre, out);
            let ghost m1 = out@;
            push_anys(type_args, out);
            let ghost m2 = out@;
            proof {
                assert(decreases_to!(*e => e.data));
                assert(decreases_to!(e.data => e.data->Call_args));
            }
            push_exprs(args, loc, &none, out);
            proof {
                lemma_appended_trans(start, m1, m2, expr_places(**callee, loc, pre@), any_places(type_args@));
                lemma_appended_trans(
                    start,
                    m2,
                    out@,
                    expr_places(**callee, loc, pre@) + any_places(type_args@),
                    exprs_places(args@, loc, seq![]),
                );
            }
        },
        AstExprDesc::MethodCall { object, type_args, args, .. } => {
            expr_path_candidates(object, loc, pre, out);
            let ghost m1 = out@;
            push_anys(type_args, out);
            let ghost m2 = out@;
            proof {
                assert(decreases_to!(*e => e.data));
                assert(decreases_to!(e.data => e.data->MethodCall_args));
            }
            push_exprs(args, loc, &none, out);
            proof {
                lemma_appended_trans(start, m1, m2, expr_places(**object, loc, pre@), any_places(type_args@));
                lemma_appended_trans(
                    start,
                    m2,
                    out@,
                    expr_places(**object, loc, pre@) + any_places(type_args@),
                    exprs_places(args@, loc, seq![]),
                );
            }
        },
        AstExprDesc::StructLit { ty, fields, .. } => {
            push_type(pre, ty, out);
            let ghost m2 = out@;
            proof {
                assert(decreases_to!(*e => e.data));
                assert(decreases_to!(e.data => e.data->StructLit_fields));
            }
            push_fields(fields, loc, out);
            proof {
                lemma_appended_trans(start, m2, out@, seq![(pre@, PathTarget::Type(*ty))], fields_places(fields@, loc));
            }
        },
        AstExprDesc::Tuple(items) => {
            proof {
                assert(decreases_to!(*e => e.data));
                assert(decreases_to!(e.data => e.data->Tuple_0));
            }
            push_exprs(items, loc, pre, out);
        },
        AstExprDesc::SliceLit(items) => {
            proof {
                assert(decreases_to!(*e => e.data));
                assert(decreases_to!(e.data => e.data->SliceLit_0));
            }
            push_exprs(items, loc, pre, out);
        },
        AstExprDesc::SizeOf(ty) => push_type(&none, ty, out),
        AstExprDesc::TypeName(ty) => push_type(&none, ty, out),
        AstExprDesc::As { expr, ty } => {
            expr_path_candidates(expr, loc, &none, out);
            let ghost m1 = out@;
            push_type(&none, ty, out);
            proof {
                lemma_appended_trans(
                    start,
                    m1,
                    out@,
                    expr_places(**expr, loc, seq![]),
                    seq![(Seq::<(Symbol, Span)>::empty(), PathTarget::Type(*ty))],
                );
            }
        },
        _ => {},
    }
}

/// Every place of `small` is a place of `big`.
pub open spec fn among(small: Seq<PathPlace>, big: Seq<PathPlace>) -> bool {
    forall|p: PathPlace| small.contains(p) ==> big.contains(p)
}

/// The places of a list stay among those of a longer list around it.
proof fn lemma_among_concat(small: Seq<PathPlace>, a: Seq<PathPlace>, b: Seq<PathPlace>)
    requires
        among(small, a) || among(small, b),
    ensures
        among(small, a + b),
{
    assert forall|p: PathPlace| small.contains(p) implies (a + b).contains(p) by {
        if among(small, a) {
            let i = choose|i: int| 0 <= i < a.len() && a[i] == p;
            assert((a + b)[i] == p);
        } else {
            let i = choose|i: int| 0 <= i < b.len() && b[i] == p;
            assert((a + b)[a.len() + i] == p);
        }
    }
}

/// The places of one of several expressions are among those of all of them.
proof fn lemma_exprs_places_among(es: Seq<AstExpr>, loc: Location, pre: Seq<(Symbol, Span)>, k: int)
    requires
        0 <= k < es.len(),
    ensures
        among(expr_places(es[k], loc, pre), exprs_places(es, loc, pre)),
    decreases es.len(),
{
    let init = es.drop_last();
    if k < init.len() {
        lemma_exprs_places_among(init, loc, pre, k);
        assert(init[k] == es[k]);
        lemma_among_concat(expr_places(es[k], loc, pre), exprs_places(init, loc, pre), expr_places(es.last(), loc, pre));
    } else {
        assert(among(expr_places(es[k], loc, pre), expr_places(es.last(), loc, pre)));
        lemma_among_concat(expr_places(es[k], loc, pre), exprs_places(init, loc, pre), expr_places(es.last(), loc, pre));
    }
}

/// The places of the value of one of several fields are among those of all
/// of them.
proof fn lemma_fields_places_among(fs: Seq<AstStructField>, loc: Location, k: int)
    requires
        0 <= k < fs.len(),
    ensures
        among(expr_places(fs[k].value, loc, seq![]), fields_places(fs, loc)),
    decreases fs.len(),
{
    let init = fs.drop_last();
    if k < init.len() {
        lemma_fields_places_among(init, loc, k);
        assert(init[k] == fs[k]);
        lemma_among_concat(
            expr_places(fs[k].value, loc, seq![]),
            fields_places(init, loc),
            expr_places(fs.last().value, loc, seq![]),
        );
    } else {
        assert(among(expr_places(fs[k].value, loc, seq![]), expr_places(fs.last().value, loc, seq![])));
        lemma_among_concat(
            expr_places(fs[k].value, loc, seq![]),
            fields_places(init, loc),
            expr_places(fs.last().value, loc, seq![]),
        );
    }
}

/// The lookup searches every part of an expression that holds the
/// location: every place it finds in a part is among the places it finds
/// in the whole. Operands, objects, callees, unary operands and tuple or
/// slice items are searched in the module of the whole; the arguments of a
/// call, a method call or a static call, the field values of a struct
/// literal and the operand of a cast in the module enclosing the location;
/// the rest of a `::`-path, when the location is not on its first name,
/// through that name.
pub proof fn lemma_parts_places(e: AstExpr, loc: Location, pre: Seq<(Symbol, Span)>)
    requires
        span_holds(e.span, loc),
    ensures
        e.data matches AstExprDesc::MethodCall { object, args, .. } ==> among(expr_places(*object, loc, pre), expr_places(e, loc, pre))
            && forall|k: int| 0 <= k < args@.len() ==> among(expr_places(#[trigger] args@[k], loc, seq![]), expr_places(e, loc, pre)),
        e.data matches AstExprDesc::Call { callee, args, .. } ==> among(expr_places(*callee, loc, pre), expr_places(e, loc, pre))
            && forall|k: int| 0 <= k < args@.len() ==> among(expr_places(#[trigger] args@[k], loc, seq![]), expr_places(e, loc, pre)),
        e.data matches AstExprDesc::StaticCall { args, .. } ==> forall|k: int|
            0 <= k < args@.len() ==> among(expr_places(#[trigger] args@[k], loc, seq![]), expr_places(e, loc, pre)),
        e.data matches AstExprDesc::BinOp { lhs, rhs, .. } ==> among(expr_places(*lhs, loc, pre), expr_places(e, loc, pre))
            && among(expr_places(*rhs, loc, pre), expr_places(e, loc, pre)),
        e.data matches AstExprDesc::Index { object, index } ==> among(expr_places(*object, loc, pre), expr_places(e, loc, pre))
            && among(expr_places(*index, loc, pre), expr_places(e, loc, pre)),
        e.data matches AstExprDesc::Range { from, to } ==> among(expr_places(*from, loc, pre), expr_places(e, loc, pre))
            && among(expr_places(*to, loc, pre), expr_places(e, loc, pre)),
        e.data matches AstExprDesc::Tuple(items) ==> forall|k: int|
            0 <= k < items@.len() ==> among(expr_places(#[trigger] items@[k], loc, pre), expr_places(e, loc, pre)),
        e.data matches AstExprDesc::SliceLit(items) ==> forall|k: int|
            0 <= k < items@.len() ==> among(expr_places(#[trigger] items@[k], loc, pre), expr_places(e, loc, pre)),
        e.data matches AstExprDesc::StructLit { fields, .. } ==> forall|k: int|
            0 <= k < fields@.len() ==> among(expr_places((#[trigger] fields@[k]).value, loc, seq![]), expr_places(e, loc, pre)),
        e.data matches AstExprDesc::As { expr, .. } ==> among(expr_places(*expr, loc, seq![]), expr_places(e, loc, pre)),
        e.data matches AstExprDesc::Neg(x) ==> among(expr_places(*x, loc, pre), expr_places(e, loc, pre)),
        e.data matches AstExprDesc::Not(x) ==> among(expr_places(*x, loc, pre), expr_places(e, loc, pre)),
        e.data matches AstExprDesc::AddressOf(x) ==> among(expr_places(*x, loc, pre), expr_places(e, loc, pre)),
        e.data matches AstExprDesc::PostfixDeref(x) ==> among(expr_places(*x, loc, pre), expr_places(e, loc, pre)),
        e.data matches AstExprDesc::PrefixDeref(x) ==> among(expr_places(*x, loc, pre), expr_places(e, loc, pre)),
        e.data matches AstExprDesc::Metadata(x) ==> among(expr_places(*x, loc, pre), expr_places(e, loc, pre)),
        e.data matches AstExprDesc::Ref(_, x) ==> among(expr_places(*x, loc, pre), expr_places(e, loc, pre)),
        e.data matches AstExprDesc::FieldAccess { object, .. } ==> among(expr_places(*object, loc, pre), expr_places(e, loc, pre)),
        e.data matches AstExprDesc::TupleAccess { object, .. } ==> among(expr_places(*object, loc, pre), expr_places(e, loc, pre)),
        e.data matches AstExprDesc::NameResolved { from, to } ==> (!span_holds(from.span, loc) ==> among(
            expr_places(*to, loc, pre.push((from.data, from.span))),
            expr_places(e, loc, pre),
        )),
{
    let whole = expr_places(e, loc, pre);
    match e.data {
        AstExprDesc::MethodCall { object, type_args, args, .. } => {
            let a = expr_places(*object, loc, pre);
            let b = any_places(type_args@);
            let c = exprs_places(args@, loc, seq![]);
            assert(whole == a + b + c);
            lemma_among_concat(a, a, b);
            lemma_among_concat(a, a + b, c);
            assert forall|k: int| 0 <= k < args@.len() implies among(expr_places(#[trigger] args@[k], loc, seq![]), whole) by {
                lemma_exprs_places_among(args@, loc, seq![], k);
                lemma_among_concat(expr_places(args@[k], loc, seq![]), a + b, c);
            }
        },
        AstExprDesc::Call { callee, type_args, args } => {
            let a = expr_places(*callee, loc, pre);
            let b = any_places(type_args@);
            let c = exprs_places(args@, loc, seq![]);
            assert(whole == a + b + c);
            lemma_among_concat(a, a, b);
            lemma_among_concat(a, a + b, c);
            assert forall|k: int| 0 <= k < args@.len() implies among(expr_places(#[trigger] args@[k], loc, seq![]), whole) by {
                lemma_exprs_places_among(args@, loc, seq![], k);
                lemma_among_concat(expr_places(args@[k], loc, seq![]), a + b, c);
            }
        },
        AstExprDesc::StaticCall { ty, type_args, args, .. } => {
            let a = seq![(pre, PathTarget::Type(ty))] + any_places(type_args@);
            let c = exprs_places(args@, loc, seq![]);
            assert(whole == a + c);
            assert forall|k: int| 0 <= k < args@.len() implies among(expr_places(#[trigger] args@[k], loc, seq![]), whole) by {
                lemma_exprs_places_among(args@, loc, seq![], k);
                lemma_among_concat(expr_places(args@[k], loc, seq![]), a, c);
            }
        },
        AstExprDesc::BinOp { lhs, rhs, .. } => {
            let a = expr_places(*lhs, loc, pre);
            let b = expr_places(*rhs, loc, pre);
            lemma_among_concat(a, a, b);
            lemma_among_concat(b, a, b);
        },
        AstExprDesc::Index { object, index } => {
            let a = expr_places(*object, loc, pre);
            let b = expr_places(*index, loc, pre);
            lemma_among_concat(a, a, b);
            lemma_among_concat(b, a, b);
        },
        AstExprDesc::Range { from, to } => {
            let a = expr_places(*from, loc, pre);
            let b = expr_places(*to, loc, pre);
            lemma_among_concat(a, a, b);
            lemma_among_concat(b, a, b);
        },
        AstExprDesc::Tuple(items) => {
            assert forall|k: int| 0 <= k < items@.len() implies among(expr_places(#[trigger] items@[k], loc, pre), whole) by {
                lemma_exprs_places_among(items@, loc, pre, k);
            }
        },
        AstExprDesc::SliceLit(items) => {
            assert forall|k: int| 0 <= k < items@.len() implies among(expr_places(#[trigger] items@[k], loc, pre), whole) by {
                lemma_exprs_places_among(items@, loc, pre, k);
            }
        },
        AstExprDesc::StructLit { ty, fields, .. } => {
            let a = seq![(pre, PathTarget::Type(ty))];
            let c = fields_places(fields@, loc);
            assert(whole == a + c);
            assert forall|k: int| 0 <= k < fields@.len() implies among(expr_places((#[trigger] fields@[k]).value, loc, seq![]), whole) by {
                lemma_fields_places_among(fields@, loc, k);
                lemma_among_concat(expr_places(fields@[k].value, loc, seq![]), a, c);
            }
        },
        AstExprDesc::As { expr, ty } => {
            let a = expr_places(*expr, loc, seq![]);
            let b = seq![(Seq::<(Symbol, Span)>::empty(), PathTarget::Type(ty))];
            lemma_among_concat(a, a, b);
        },
        _ => {},
    }
}

/// Every name among the places stands at the location.
pub open spec fn names_at(ps: Seq<PathPlace>, loc: Location) -> bool {
    forall|i: int| 0 <= i < ps.len() ==> ((#[trigger] ps[i]).1 matches PathTarget::Name(_, sp) ==> span_holds(sp, loc))
}

proof fn lemma_names_at_concat(a: Seq<PathPlace>, b: Seq<PathPlace>, loc: Location)
    requires
        names_at(a, loc),
        names_at(b, loc),
    ensures
        names_at(a + b, loc),
{
    assert forall|i: int| 0 <= i < (a + b).len() implies ((#[trigger] (a + b)[i]).1 matches PathTarget::Name(_, sp)
        ==> span_holds(sp, loc)) by {
        if i < a.len() {
            assert((a + b)[i] == a[i]);
        } else {
            assert((a + b)[i] == b[i - a.len()]);
        }
    }
}

/// A name the lookup would answer with lies on the location: the lookup
/// answers with the name under the cursor, never with another name of the
/// expression.
pub proof fn lemma_names_at_location(e: AstExpr, loc: Location, pre: Seq<(Symbol, Span)>)
    ensures
        names_at(expr_places(e, loc, pre), loc),
    decreases e, 1nat,
{
    if span_holds(e.span, loc) {
        match e.data {
            AstExprDesc::NameResolved { from, to } => {
                if !span_holds(from.span, loc) {
                    lemma_names_at_location(*to, loc, pre.push((from.data, from.span)));
                }
            },
            AstExprDesc::StaticCall { ty, type_args, args, .. } => {
                lemma_names_at_list(args@, loc, seq![]);
                lemma_names_at_concat(seq![(pre, PathTarget::Type(ty))], any_places(type_args@), loc);
                lemma_names_at_concat(
                    seq![(pre, PathTarget::Type(ty))] + any_places(type_args@),
                    exprs_places(args@, loc, seq![]),
                    loc,
                );
            },
            AstExprDesc::BinOp { lhs, rhs, .. } => {
                lemma_names_at_location(*lhs, loc, pre);
                lemma_names_at_location(*rhs, loc, pre);
                lemma_names_at_concat(expr_places(*lhs, loc, pre), expr_places(*rhs, loc, pre), loc);
            },
            AstExprDesc::Range { from, to } => {
                lemma_names_at_location(*from, loc, pre);
                lemma_names_at_location(*to, loc, pre);
                lemma_names_at_concat(expr_places(*from, loc, pre), expr_places(*to, loc, pre), loc);
            },
            AstExprDesc::Index { object, index } => {
                lemma_names_at_location(*object, loc, pre);
                lemma_names_at_location(*index, loc, pre);
                lemma_names_at_concat(expr_places(*object, loc, pre), expr_places(*index, loc, pre), loc);
            },
            AstExprDesc::Neg(x) => lemma_names_at_location(*x, loc, pre),
            AstExprDesc::Not(x) => lemma_names_at_location(*x, loc, pre),
            AstExprDesc::AddressOf(x) => lemma_names_at_location(*x, loc, pre),
            AstExprDesc::PostfixDeref(x) => lemma_names_at_location(*x, loc, pre),
            AstExprDesc::PrefixDeref(x) => lemma_names_at_location(*x, loc, pre),
            AstExprDesc::Metadata(x) => lemma_names_at_location(*x, loc, pre),
            AstExprDesc::Ref(_, x) => lemma_names_at_location(*x, loc, pre),
            AstExprDesc::FieldAccess { object, .. } => lemma_names_at_location(*object, loc, pre),
            AstExprDesc::TupleAccess { object, .. } => lemma_names_at_location(*object, loc, pre),
            AstExprDesc::Call { callee, type_args, args } => {
                lemma_names_at_location(*callee, loc, pre);
                lemma_names_at_list(args@, loc, seq![]);
                lemma_names_at_concat(expr_places(*callee, loc, pre), any_places(type_args@), loc);
                lemma_names_at_concat(
                    expr_places(*callee, loc, pre) + any_places(type_args@),
                    exprs_places(args@, loc, seq![]),
                    loc,
                );
            },
            AstExprDesc::MethodCall { object, type_args, args, .. } => {
                lemma_names_at_location(*object, loc, pre);
                lemma_names_at_list(args@, loc, seq![]);
                lemma_names_at_concat(expr_places(*object, loc, pre), any_places(type_args@), loc);
                lemma_names_at_concat(
                    expr_places(*object, loc, pre) + any_places(type_args@),
                    exprs_places(args@, loc, seq![]),
                    loc,
                );
            },
            AstExprDesc::StructLit { ty, fields, .. } => {
                lemma_names_at_fields(fields@, loc);
                lemma_names_at_concat(seq![(pre, PathTarget::Type(ty))], fields_places(fields@, loc), loc);
            },
            AstExprDesc::Tuple(items) => lemma_names_at_list(items@, loc, pre),
            AstExprDesc::SliceLit(items) => lemma_names_at_list(items@, loc, pre),
            AstExprDesc::As { expr, ty } => {
                lemma_names_at_location(*expr, loc, seq![]);
                lemma_names_at_concat(
                    expr_places(*expr, loc, seq![]),
                    seq![(Seq::<(Symbol, Span)>::empty(), PathTarget::Type(ty))],
                    loc,
                );
            },
            _ => {},
        }
    }
}

proof fn lemma_names_at_list(es: Seq<AstExpr>, loc: Location, pre: Seq<(Symbol, Span)>)
    ensures
        names_at(exprs_places(es, loc, pre), loc),
    decreases es, 0nat,
{
    if es.len() > 0 {
        lemma_names_at_list(es.drop_last(), loc, pre);
        lemma_names_at_location(es.last(), loc, pre);
        lemma_names_at_concat(exprs_places(es.drop_last(), loc, pre), expr_places(es.last(), loc, pre), loc);
    }
}

proof fn lemma_names_at_fields(fs: Seq<AstStructField>, loc: Location)
    ensures
        names_at(fields_places(fs, loc), loc),
    decreases fs, 0nat,
{
    if fs.len() > 0 {
        lemma_names_at_fields(fs.drop_last(), loc);
        lemma_names_at_location(fs.last().value, loc, seq![]);
        lemma_names_at_concat(fields_places(fs.drop_last(), loc), expr_places(fs.last().value, loc, seq![]), loc);
    }
}

} // verus!
