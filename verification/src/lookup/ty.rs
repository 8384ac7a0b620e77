//! The type expressions met on the way down an expression to a location:
//! the lookup of the type at that location tries them in this order.
use vstd::prelude::*;
use crate::common::{Location, Span};
use crate::parse_tree::expr::{AstExpr, AstExprDesc, AstStructField};
use crate::parse_tree::type_expr::{
    any_same, duplicate_any, duplicate_type_expr, type_expr_same, AstAnyTypeExpr, AstTypeExpr,
};

verus! {

/// A type expression met on the way down: a type, or a possibly-placeholder
/// type argument.
#[derive(Debug)]
pub enum TypeSlot {
    Known(AstTypeExpr),
    Any(AstAnyTypeExpr),
}

/// Two slots hold copies of the same type expression.
pub open spec fn slot_same(a: TypeSlot, b: TypeSlot) -> bool {
    match (a, b) {
        (TypeSlot::Known(x), TypeSlot::Known(y)) => type_expr_same(x, y),
        (TypeSlot::Any(x), TypeSlot::Any(y)) => any_same(x, y),
        _ => false,
    }
}

/// Two lists of slots hold copies of the same type expressions, in order.
pub open spec fn slots_same(a: Seq<TypeSlot>, b: Seq<TypeSlot>) -> bool {
    &&& a.len() == b.len()
    &&& forall|i: int| 0 <= i < a.len() ==> #[trigger] slot_same(a[i], b[i])
}

/// Whether `loc` lies in `s`, ends included.
pub open spec fn span_holds(s: Span, loc: Location) -> bool {
    loc.file == s.file && s.start_offset <= loc.offset && loc.offset <= s.end_offset
}

/// The type expressions met in `e` on the way down to `loc`, in the order
/// the lookup tries them: none where `e` does not hold `loc`; else those of
/// the parts of `e` from left to right, a part that is itself a type counting
/// as met.
pub open spec fn expr_slots(e: AstExpr, loc: Location) -> Seq<TypeSlot>
    decreases e, 1nat,
{
    if !span_holds(e.span, loc) {
        seq![]
    } else {
        match e.data {
            AstExprDesc::NameResolved { to, .. } => expr_slots(*to, loc),
            AstExprDesc::StaticCall { ty, type_args, args, .. } => seq![TypeSlot::Known(ty)] + any_slots(
                type_args@,
            ) + exprs_slots(args@, loc),
            AstExprDesc::QualifiedPath { ty, .. } => seq![TypeSlot::Known(ty)],
            AstExprDesc::BinOp { lhs, rhs, .. } => expr_slots(*lhs, loc) + expr_slots(*rhs, loc),
            AstExprDesc::Range { from, to } => expr_slots(*from, loc) + expr_slots(*to, loc),
            AstExprDesc::Neg(x) => expr_slots(*x, loc),
            AstExprDesc::Not(x) => expr_slots(*x, loc),
            AstExprDesc::AddressOf(x) => expr_slots(*x, loc),
            AstExprDesc::PostfixDeref(x) => expr_slots(*x, loc),
            AstExprDesc::PrefixDeref(x) => expr_slots(*x, loc),
            AstExprDesc::Metadata(x) => expr_slots(*x, loc),
            AstExprDesc::Ref(_, x) => expr_slots(*x, loc),
            AstExprDesc::FieldAccess { object, .. } => expr_slots(*object, loc),
            AstExprDesc::TupleAccess { object, .. } => expr_slots(*object, loc),
            AstExprDesc::Call { callee, type_args, args } => expr_slots(*callee, loc) + any_slots(type_args@)
                + exprs_slots(args@, loc),
            AstExprDesc::MethodCall { object, type_args, args, .. } => expr_slots(*object, loc) + any_slots(
                type_args@,
            ) + exprs_slots(args@, loc),
            AstExprDesc::Index { object, index } => expr_slots(*object, loc) + expr_slots(*index, loc),
            AstExprDesc::StructLit { ty, fields, .. } => seq![TypeSlot::Known(ty)] + fields_slots(fields@, loc),
            AstExprDesc::Tuple(items) => exprs_slots(items@, loc),
            AstExprDesc::SliceLit(items) => exprs_slots(items@, loc),
            AstExprDesc::SizeOf(ty) => seq![TypeSlot::Known(ty)],
            AstExprDesc::TypeName(ty) => seq![TypeSlot::Known(ty)],
            AstExprDesc::As { expr, ty } => expr_slots(*expr, loc) + seq![TypeSlot::Known(ty)],
            _ => seq![],
        }
    }
}

/// The slots of expressions one after the other.
pub open spec fn exprs_slots(es: Seq<AstExpr>, loc: Location) -> Seq<TypeSlot>
    decreases es, 0nat,
{
    if es.len() == 0 {
        seq![]
    } else {
        exprs_slots(es.drop_last(), loc) + expr_slots(es.last(), loc)
    }
}

/// The slots of the values of struct-literal fields one after the other.
pub open spec fn fields_slots(fs: Seq<AstStructField>, loc: Location) -> Seq<TypeSlot>
    decreases fs, 0nat,
{
    if fs.len() == 0 {
        seq![]
    } else {
        fields_slots(fs.drop_last(), loc) + expr_slots(fs.last().value, loc)
    }
}

/// Type arguments as slots, in order.
pub open spec fn any_slots(args: Seq<AstAnyTypeExpr>) -> Seq<TypeSlot> {
    args.map_values(|a: AstAnyTypeExpr| TypeSlot::Any(a))
}

/// `new` is `old` with copies of the slots `x` added after it.
pub open spec fn appended(old: Seq<TypeSlot>, new: Seq<TypeSlot>, x: Seq<TypeSlot>) -> bool {
    &&& new.len() >= old.len()
    &&& new.take(old.len() as int) == old
    &&& slots_same(x, new.skip(old.len() as int))
}

/// Adding `x` and then `y` adds `x` followed by `y`.
proof fn lemma_appended_trans(a: Seq<TypeSlot>, b: Seq<TypeSlot>, c: Seq<TypeSlot>, x: Seq<TypeSlot>, y: Seq<TypeSlot>)
    requires
        appended(a, b, x),
        appended(b, c, y),
    ensures
        appended(a, c, x + y),
{
    assert(c.take(a.len() as int) =~= b.take(a.len() as int)) by {
        assert forall|i: int| 0 <= i < a.len() implies c.take(a.len() as int)[i] == b.take(a.len() as int)[i] by {
            assert(c.take(b.len() as int)[i] == c[i]);
        }
    }
    assert(c.skip(a.len() as int) =~= b.skip(a.len() as int) + c.skip(b.len() as int)) by {
        assert forall|i: int| 0 <= i < c.skip(a.len() as int).len() implies c.skip(a.len() as int)[i] == (b.skip(
            a.len() as int,
        ) + c.skip(b.len() as int))[i] by {
            if i < b.len() - a.len() {
                assert(c.take(b.len() as int)[a.len() + i] == c[a.len() + i]);
            }
        }
    }
    let p = b.skip(a.len() as int);
    let q = c.skip(b.len() as int);
    assert forall|i: int| 0 <= i < (x + y).len() implies #[trigger] slot_same((x + y)[i], (p + q)[i]) by {
        if i < x.len() {
            assert(slot_same(x[i], p[i]));
        } else {
            assert(slot_same(y[i - x.len()], q[i - x.len()]));
        }
    }
}

/// Nothing added adds no slots.
proof fn lemma_appended_none(a: Seq<TypeSlot>)
    ensures
        appended(a, a, seq![]),
{
    assert(a.take(a.len() as int) =~= a);
    assert(a.skip(a.len() as int) =~= Seq::<TypeSlot>::empty());
}

/// Adds a copy of the type `ty`.
fn push_known(ty: &AstTypeExpr, out: &mut Vec<TypeSlot>)
    ensures
        appended(old(out)@, final(out)@, seq![TypeSlot::Known(*ty)]),
{
    let ghost start = out@;
    out.push(TypeSlot::Known(duplicate_type_expr(ty)));
    assert(out@.take(start.len() as int) =~= start);
    assert(slot_same(seq![TypeSlot::Known(*ty)][0], out@.skip(start.len() as int)[0]));
}

/// Adds a copy of each type argument, in order.
fn push_anys(args: &Vec<AstAnyTypeExpr>, out: &mut Vec<TypeSlot>)
    ensures
        appended(old(out)@, final(out)@, any_slots(args@)),
{
    let ghost start = out@;
    proof {
        lemma_appended_none(start);
    }
    let mut i: usize = 0;
    while i < args.len()
        invariant
            i <= args@.len(),
            appended(start, out@, any_slots(args@.take(i as int))),
        decreases args@.len() - i,
    {
        let ghost b = out@;
        out.push(TypeSlot::Any(duplicate_any(&args[i])));
        proof {
            assert(out@.take(b.len() as int) =~= b);
            assert(slot_same(seq![TypeSlot::Any(args@[i as int])][0], out@.skip(b.len() as int)[0]));
            lemma_appended_trans(start, b, out@, any_slots(args@.take(i as int)), seq![TypeSlot::Any(args@[i as int])]);
            assert(any_slots(args@.take(i + 1)) =~= any_slots(args@.take(i as int)) + seq![TypeSlot::Any(args@[i as int])]);
        }
        i += 1;
    }
    assert(args@.take(args@.len() as int) =~= args@);
}

/// Adds to `out` a copy of each type expression met in `e` on the way down
/// to `loc`, in the order the lookup of the type at `loc` tries them.
pub fn expr_type_slots(e: &AstExpr, loc: Location, out: &mut Vec<TypeSlot>)
    ensures
        appended(old(out)@, final(out)@, expr_slots(*e, loc)),
    decreases e,
{
    let ghost start = out@;
    proof {
        lemma_appended_none(start);
    }
    if !e.span.encloses(loc) {
        return;
    }
    match &e.data {
        AstExprDesc::NameResolved { to, .. } => expr_type_slots(to, loc, out),
        AstExprDesc::StaticCall { ty, type_args, args, .. } => {
            push_known(ty, out);
            let ghost m1 = out@;
            push_anys(type_args, out);
            let ghost m2 = out@;
            proof {
                lemma_appended_none(m2);
            }
            let mut i: usize = 0;
            while i < args.len()
                invariant
                    i <= args@.len(),
                    e.data is StaticCall,
                    e.data->StaticCall_args == *args,
                    appended(m2, out@, exprs_slots(args@.take(i as int), loc)),
                decreases args@.len() - i,
            {
                proof {
                    broadcast use vstd::std_specs::vec::axiom_vec_index_decreases;
                    assert(decreases_to!(*e => e.data));
                    assert(decreases_to!(e.data => e.data->StaticCall_args));
                    assert(decreases_to!(args => args[i as int]));
                }
                let ghost b = out@;
                expr_type_slots(&args[i], loc, out);
                proof {
                    lemma_appended_trans(m2, b, out@, exprs_slots(args@.take(i as int), loc), expr_slots(args@[i as int], loc));
                    assert(args@.take(i + 1).drop_last() =~= args@.take(i as int));
                }
                i += 1;
            }
            assert(args@.take(args@.len() as int) =~= args@);
            proof {
                lemma_appended_trans(start, m1, m2, seq![TypeSlot::Known(*ty)], any_slots(type_args@));
                lemma_appended_trans(start, m2, out@, seq![TypeSlot::Known(*ty)] + any_slots(type_args@), exprs_slots(args@, loc));
            }
        },
        AstExprDesc::QualifiedPath { ty, .. } => push_known(ty, out),
        AstExprDesc::BinOp { lhs, rhs, .. } => {
            expr_type_slots(lhs, loc, out);
            let ghost m1 = out@;
            expr_type_slots(rhs, loc, out);
            proof {
                lemma_appended_trans(start, m1, out@, expr_slots(**lhs, loc), expr_slots(**rhs, loc));
            }
        },
        AstExprDesc::Range { from, to } => {
            expr_type_slots(from, loc, out);
            let ghost m1 = out@;
            expr_type_slots(to, loc, out);
            proof {
                lemma_appended_trans(start, m1, out@, expr_slots(**from, loc), expr_slots(**to, loc));
            }
        },
        AstExprDesc::Neg(x) => expr_type_slots(x, loc, out),
        AstExprDesc::Not(x) => expr_type_slots(x, loc, out),
        AstExprDesc::AddressOf(x) => expr_type_slots(x, loc, out),
        AstExprDesc::PostfixDeref(x) => expr_type_slots(x, loc, out),
        AstExprDesc::PrefixDeref(x) => expr_type_slots(x, loc, out),
        AstExprDesc::Metadata(x) => expr_type_slots(x, loc, out),
        AstExprDesc::Ref(_, x) => expr_type_slots(x, loc, out),
        AstExprDesc::FieldAccess { object, .. } => expr_type_slots(object, loc, out),
        AstExprDesc::TupleAccess { object, .. } => expr_type_slots(object, loc, out),
        AstExprDesc::Call { callee, type_args, args } => {
            expr_type_slots(callee, loc, out);
            let ghost m1 = out@;
            push_anys(type_args, out);
            let ghost m2 = out@;
            proof {
                lemma_appended_none(m2);
            }
            let mut i: usize = 0;
            while i < args.len()
                invariant
                    i <= args@.len(),
                    e.data is Call,
                    e.data->Call_args == *args,
                    appended(m2, out@, exprs_slots(args@.take(i as int), loc)),
                decreases args@.len() - i,
            {
                proof {
                    broadcast use vstd::std_specs::vec::axiom_vec_index_decreases;
                    assert(decreases_to!(*e => e.data));
                    assert(decreases_to!(e.data => e.data->Call_args));
                    assert(decreases_to!(args => args[i as int]));
                }
                let ghost b = out@;
                expr_type_slots(&args[i], loc, out);
                proof {
                    lemma_appended_trans(m2, b, out@, exprs_slots(args@.take(i as int), loc), expr_slots(args@[i as int], loc));
                    assert(args@.take(i + 1).drop_last() =~= args@.take(i as int));
                }
                i += 1;
            }
            assert(args@.take(args@.len() as int) =~= args@);
            proof {
                lemma_appended_trans(start, m1, m2, expr_slots(**callee, loc), any_slots(type_args@));
                lemma_appended_trans(start, m2, out@, expr_slots(**callee, loc) + any_slots(type_args@), exprs_slots(args@, loc));
            }
        },
        AstExprDesc::MethodCall { object, type_args, args, .. } => {
            expr_type_slots(object, loc, out);
            let ghost m1 = out@;
            push_anys(type_args, out);
            let ghost m2 = out@;
            proof {
                lemma_appended_none(m2);
            }
            let mut i: usize = 0;
            while i < args.len()
                invariant
                    i <= args@.len(),
                    e.data is MethodCall,
                    e.data->MethodCall_args == *args,
                    appended(m2, out@, exprs_slots(args@.take(i as int), loc)),
                decreases args@.len() - i,
            {
                proof {
                    broadcast use vstd::std_specs::vec::axiom_vec_index_decreases;
                    assert(decreases_to!(*e => e.data));
                    assert(decreases_to!(e.data => e.data->MethodCall_args));
                    assert(decreases_to!(args => args[i as int]));
                }
                let ghost b = out@;
                expr_type_slots(&args[i], loc, out);
                proof {
                    lemma_appended_trans(m2, b, out@, exprs_slots(args@.take(i as int), loc), expr_slots(args@[i as int], loc));
                    assert(args@.take(i + 1).drop_last() =~= args@.take(i as int));
                }
                i += 1;
            }
            assert(args@.take(args@.len() as int) =~= args@);
            proof {
                lemma_appended_trans(start, m1, m2, expr_slots(**object, loc), any_slots(type_args@));
                lemma_appended_trans(start, m2, out@, expr_slots(**object, loc) + any_slots(type_args@), exprs_slots(args@, loc));
            }
        },
        AstExprDesc::Index { object, index } => {
            expr_type_slots(object, loc, out);
            let ghost m1 = out@;
            expr_type_slots(index, loc, out);
            proof {
                lemma_appended_trans(start, m1, out@, expr_slots(**object, loc), expr_slots(**index, loc));
            }
        },
        AstExprDesc::StructLit { ty, fields, .. } => {
            push_known(ty, out);
            let ghost m2 = out@;
            proof {
                lemma_appended_none(m2);
            }
            let mut i: usize = 0;
            while i < fields.len()
                invariant
                    i <= fields@.len(),
                    e.data is StructLit,
                    e.data->StructLit_fields == *fields,
                    appended(m2, out@, fields_slots(fields@.take(i as int), loc)),
                decreases fields@.len() - i,
            {
                proof {
                    broadcast use vstd::std_specs::vec::axiom_vec_index_decreases;
                    assert(decreases_to!(*e => e.data));
                    assert(decreases_to!(e.data => e.data->StructLit_fields));
                    assert(decreases_to!(fields => fields[i as int]));
                    assert(decreases_to!(fields[i as int] => fields[i as int].value));
                }
                let ghost b = out@;
                expr_type_slots(&fields[i].value, loc, out);
                proof {
                    lemma_appended_trans(m2, b, out@, fields_slots(fields@.take(i as int), loc), expr_slots(fields@[i as int].value, loc));
                    assert(fields@.take(i + 1).drop_last() =~= fields@.take(i as int));
                }
                i += 1;
            }
            assert(fields@.take(fields@.len() as int) =~= fields@);
            proof {
                lemma_appended_trans(start, m2, out@, seq![TypeSlot::Known(*ty)], fields_slots(fields@, loc));
            }
        },
        AstExprDesc::Tuple(items) => {
            let ghost m2 = out@;
            proof {
                lemma_appended_none(m2);
            }
            let mut i: usize = 0;
            while i < items.len()
                invariant
                    i <= items@.len(),
                    e.data is Tuple,
                    e.data->Tuple_0 == *items,
                    appended(m2, out@, exprs_slots(items@.take(i as int), loc)),
                decreases items@.len() - i,
            {
                proof {
                    broadcast use vstd::std_specs::vec::axiom_vec_index_decreases;
                    assert(decreases_to!(*e => e.data));
                    assert(decreases_to!(e.data => e.data->Tuple_0));
                    assert(decreases_to!(items => items[i as int]));
                }
                let ghost b = out@;
                expr_type_slots(&items[i], loc, out);
                proof {
                    lemma_appended_trans(m2, b, out@, exprs_slots(items@.take(i as int), loc), expr_slots(items@[i as int], loc));
                    assert(items@.take(i + 1).drop_last() =~= items@.take(i as int));
                }
                i += 1;
            }
            assert(items@.take(items@.len() as int) =~= items@);
        },
        AstExprDesc::SliceLit(items) => {
            let ghost m2 = out@;
            proof {
                lemma_appended_none(m2);
            }
            let mut i: usize = 0;
            while i < items.len()
                invariant
                    i <= items@.len(),
                    e.data is SliceLit,
                    e.data->SliceLit_0 == *items,
                    appended(m2, out@, exprs_slots(items@.take(i as int), loc)),
                decreases items@.len() - i,
            {
                proof {
                    broadcast use vstd::std_specs::vec::axiom_vec_index_decreases;
                    assert(decreases_to!(*e => e.data));
                    assert(decreases_to!(e.data => e.data->SliceLit_0));
                    assert(decreases_to!(items => items[i as int]));
                }
                let ghost b = out@;
                expr_type_slots(&items[i], loc, out);
                proof {
                    lemma_appended_trans(m2, b, out@, exprs_slots(items@.take(i as int), loc), expr_slots(items@[i as int], loc));
                    assert(items@.take(i + 1).drop_last() =~= items@.take(i as int));
                }
                i += 1;
            }
            assert(items@.take(items@.len() as int) =~= items@);
        },
        AstExprDesc::SizeOf(ty) => push_known(ty, out),
        AstExprDesc::TypeName(ty) => push_known(ty, out),
        AstExprDesc::As { expr, ty } => {
            expr_type_slots(expr, loc, out);
            let ghost m1 = out@;
            push_known(ty, out);
            proof {
                lemma_appended_trans(start, m1, out@, expr_slots(**expr, loc), seq![TypeSlot::Known(*ty)]);
            }
        },
        _ => {},
    }
}

/// Every slot of `small` is a slot of `big`.
pub open spec fn slots_among(small: Seq<TypeSlot>, big: Seq<TypeSlot>) -> bool {
    forall|p: TypeSlot| small.contains(p) ==> big.contains(p)
}

/// The slots of a list stay among those of a longer list around it.
proof fn lemma_slots_among_concat(small: Seq<TypeSlot>, a: Seq<TypeSlot>, b: Seq<TypeSlot>)
    requires
        slots_among(small, a) || slots_among(small, b),
    ensures
        slots_among(small, a + b),
{
    assert forall|p: TypeSlot| small.contains(p) implies (a + b).contains(p) by {
        if slots_among(small, a) {
            let i = choose|i: int| 0 <= i < a.len() && a[i] == p;
            assert((a + b)[i] == p);
        } else {
            let i = choose|i: int| 0 <= i < b.len() && b[i] == p;
            assert((a + b)[a.len() + i] == p);
        }
    }
}

/// The slots of one of several expressions are among those of all of them.
proof fn lemma_exprs_slots_among(es: Seq<AstExpr>, loc: Location, k: int)
    requires
        0 <= k < es.len(),
    ensures
        slots_among(expr_slots(es[k], loc), exprs_slots(es, loc)),
    decreases es.len(),
{
    let init = es.drop_last();
    if k < init.len() {
        lemma_exprs_slots_among(init, loc, k);
        assert(init[k] == es[k]);
        lemma_slots_among_concat(expr_slots(es[k], loc), exprs_slots(init, loc), expr_slots(es.last(), loc));
    } else {
        assert(slots_among(expr_slots(es[k], loc), expr_slots(es.last(), loc)));
        lemma_slots_among_concat(expr_slots(es[k], loc), exprs_slots(init, loc), expr_slots(es.last(), loc));
    }
}

/// The slots of the value of one of several fields are among those of all
/// of them.
proof fn lemma_fields_slots_among(fs: Seq<AstStructField>, loc: Location, k: int)
    requires
        0 <= k < fs.len(),
    ensures
        slots_among(expr_slots(fs[k].value, loc), fields_slots(fs, loc)),
    decreases fs.len(),
{
    let init = fs.drop_last();
    if k < init.len() {
        lemma_fields_slots_among(init, loc, k);
        assert(init[k] == fs[k]);
        lemma_slots_among_concat(
            expr_slots(fs[k].value, loc),
            fields_slots(init, loc),
            expr_slots(fs.last().value, loc),
        );
    } else {
        assert(slots_among(expr_slots(fs[k].value, loc), expr_slots(fs.last().value, loc)));
        lemma_slots_among_concat(
            expr_slots(fs[k].value, loc),
            fields_slots(init, loc),
            expr_slots(fs.last().value, loc),
        );
    }
}

/// The lookup of a type meets every type expression met in each part of an
/// expression that holds the location: operands, objects, callees,
/// arguments, field values, items, cast operands and the rest of a
/// `::`-path.
pub proof fn lemma_parts_slots(e: AstExpr, loc: Location)
    requires
        span_holds(e.span, loc),
    ensures
        e.data matches AstExprDesc::MethodCall { object, args, .. } ==> slots_among(expr_slots(*object, loc), expr_slots(e, loc))
            && forall|k: int| 0 <= k < args@.len() ==> slots_among(expr_slots(#[trigger] args@[k], loc), expr_slots(e, loc)),
        e.data matches AstExprDesc::Call { callee, args, .. } ==> slots_among(expr_slots(*callee, loc), expr_slots(e, loc))
            && forall|k: int| 0 <= k < args@.len() ==> slots_among(expr_slots(#[trigger] args@[k], loc), expr_slots(e, loc)),
        e.data matches AstExprDesc::StaticCall { args, .. } ==> forall|k: int|
            0 <= k < args@.len() ==> slots_among(expr_slots(#[trigger] args@[k], loc), expr_slots(e, loc)),
        e.data matches AstExprDesc::BinOp { lhs, rhs, .. } ==> slots_among(expr_slots(*lhs, loc), expr_slots(e, loc))
            && slots_among(expr_slots(*rhs, loc), expr_slots(e, loc)),
        e.data matches AstExprDesc::Index { object, index } ==> slots_among(expr_slots(*object, loc), expr_slots(e, loc))
            && slots_among(expr_slots(*index, loc), expr_slots(e, loc)),
        e.data matches AstExprDesc::Range { from, to } ==> slots_among(expr_slots(*from, loc), expr_slots(e, loc))
            && slots_among(expr_slots(*to, loc), expr_slots(e, loc)),
        e.data matches AstExprDesc::Tuple(items) ==> forall|k: int|
            0 <= k < items@.len() ==> slots_among(expr_slots(#[trigger] items@[k], loc), expr_slots(e, loc)),
        e.data matches AstExprDesc::SliceLit(items) ==> forall|k: int|
            0 <= k < items@.len() ==> slots_among(expr_slots(#[trigger] items@[k], loc), expr_slots(e, loc)),
        e.data matches AstExprDesc::StructLit { fields, .. } ==> forall|k: int|
            0 <= k < fields@.len() ==> slots_among(expr_slots((#[trigger] fields@[k]).value, loc), expr_slots(e, loc)),
        e.data matches AstExprDesc::As { expr, .. } ==> slots_among(expr_slots(*expr, loc), expr_slots(e, loc)),
        e.data matches AstExprDesc::Neg(x) ==> slots_among(expr_slots(*x, loc), expr_slots(e, loc)),
        e.data matches AstExprDesc::Not(x) ==> slots_among(expr_slots(*x, loc), expr_slots(e, loc)),
        e.data matches AstExprDesc::AddressOf(x) ==> slots_among(expr_slots(*x, loc), expr_slots(e, loc)),
        e.data matches AstExprDesc::PostfixDeref(x) ==> slots_among(expr_slots(*x, loc), expr_slots(e, loc)),
        e.data matches AstExprDesc::PrefixDeref(x) ==> slots_among(expr_slots(*x, loc), expr_slots(e, loc)),
        e.data matches AstExprDesc::Metadata(x) ==> slots_among(expr_slots(*x, loc), expr_slots(e, loc)),
        e.data matches AstExprDesc::Ref(_, x) ==> slots_among(expr_slots(*x, loc), expr_slots(e, loc)),
        e.data matches AstExprDesc::FieldAccess { object, .. } ==> slots_among(expr_slots(*object, loc), expr_slots(e, loc)),
        e.data matches AstExprDesc::TupleAccess { object, .. } ==> slots_among(expr_slots(*object, loc), expr_slots(e, loc)),
        e.data matches AstExprDesc::NameResolved { to, .. } ==> slots_among(expr_slots(*to, loc), expr_slots(e, loc)),
{
    let whole = expr_slots(e, loc);
    match e.data {
        AstExprDesc::MethodCall { object, type_args, args, .. } => {
            let a = expr_slots(*object, loc);
            let b = any_slots(type_args@);
            let c = exprs_slots(args@, loc);
            assert(whole == a + b + c);
            lemma_slots_among_concat(a, a, b);
            lemma_slots_among_concat(a, a + b, c);
            assert forall|k: int| 0 <= k < args@.len() implies slots_among(expr_slots(#[trigger] args@[k], loc), whole) by {
                lemma_exprs_slots_among(args@, loc, k);
                lemma_slots_among_concat(expr_slots(args@[k], loc), a + b, c);
            }
        },
        AstExprDesc::Call { callee, type_args, args } => {
            let a = expr_slots(*callee, loc);
            let b = any_slots(type_args@);
            let c = exprs_slots(args@, loc);
            assert(whole == a + b + c);
            lemma_slots_among_concat(a, a, b);
            lemma_slots_among_concat(a, a + b, c);
            assert forall|k: int| 0 <= k < args@.len() implies slots_among(expr_slots(#[trigger] args@[k], loc), whole) by {
                lemma_exprs_slots_among(args@, loc, k);
                lemma_slots_among_concat(expr_slots(args@[k], loc), a + b, c);
            }
        },
        AstExprDesc::StaticCall { ty, type_args, args, .. } => {
            let a = seq![TypeSlot::Known(ty)] + any_slots(type_args@);
            let c = exprs_slots(args@, loc);
            assert(whole == a + c);
            assert forall|k: int| 0 <= k < args@.len() implies slots_among(expr_slots(#[trigger] args@[k], loc), whole) by {
                lemma_exprs_slots_among(args@, loc, k);
                lemma_slots_among_concat(expr_slots(args@[k], loc), a, c);
            }
        },
        AstExprDesc::BinOp { lhs, rhs, .. } => {
            let a = expr_slots(*lhs, loc);
            let b = expr_slots(*rhs, loc);
            lemma_slots_among_concat(a, a, b);
            lemma_slots_among_concat(b, a, b);
        },
        AstExprDesc::Index { object, index } => {
            let a = expr_slots(*object, loc);
            let b = expr_slots(*index, loc);
            lemma_slots_among_concat(a, a, b);
            lemma_slots_among_concat(b, a, b);
        },
        AstExprDesc::Range { from, to } => {
            let a = expr_slots(*from, loc);
            let b = expr_slots(*to, loc);
            lemma_slots_among_concat(a, a, b);
            lemma_slots_among_concat(b, a, b);
        },
        AstExprDesc::Tuple(items) => {
            assert forall|k: int| 0 <= k < items@.len() implies slots_among(expr_slots(#[trigger] items@[k], loc), whole) by {
                lemma_exprs_slots_among(items@, loc, k);
            }
        },
        AstExprDesc::SliceLit(items) => {
            assert forall|k: int| 0 <= k < items@.len() implies slots_among(expr_slots(#[trigger] items@[k], loc), whole) by {
                lemma_exprs_slots_among(items@, loc, k);
            }
        },
        AstExprDesc::StructLit { ty, fields, .. } => {
            let a = seq![TypeSlot::Known(ty)];
            let c = fields_slots(fields@, loc);
            assert(whole == a + c);
            assert forall|k: int| 0 <= k < fields@.len() implies slots_among(expr_slots((#[trigger] fields@[k]).value, loc), whole) by {
                lemma_fields_slots_among(fields@, loc, k);
                lemma_slots_among_concat(expr_slots(fields@[k].value, loc), a, c);
            }
        },
        AstExprDesc::As { expr, ty } => {
            let a = expr_slots(*expr, loc);
            let b = seq![TypeSlot::Known(ty)];
            lemma_slots_among_concat(a, a, b);
        },
        _ => {},
    }
}

} // verus!
