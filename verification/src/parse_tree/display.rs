//! The text of type expressions, function arguments and receivers as they
//! are written in the source, with each symbol's text taken from a table.
use vstd::prelude::*;
use crate::common::join::{join_names, joined, names_view};
use crate::mangle::{decimal, push_decimal};
use crate::mir::display::{name_at, push_name};
use crate::parse_tree::top_level::{AstFundefArg, AstReceiver};
use crate::parse_tree::type_expr::{AstAnyTypeExpr, AstAnyTypeExprDesc, AstTypeExpr, AstTypeExprDesc};

verus! {

/// The text of a receiver: nothing for a static method, else how `self` is
/// taken.
pub open spec fn receiver_text(r: AstReceiver) -> Seq<char> {
    match r {
        AstReceiver::NoReceiver => seq![],
        AstReceiver::Zelf(_) => "self"@,
        AstReceiver::MutZelf(_) => "mut self"@,
        AstReceiver::RefZelf(_) => "&self"@,
        AstReceiver::MutRefZelf(_) => "&mut self"@,
        AstReceiver::PtrZelf(_) => "*self"@,
        AstReceiver::MutPtrZelf(_) => "*mut self"@,
    }
}

/// `mut ` when `mutable`, nothing otherwise.
pub open spec fn mut_text(mutable: bool) -> Seq<char> {
    if mutable {
        "mut "@
    } else {
        seq![]
    }
}

/// The text of a type expression: a name and its arguments between `<` and
/// `>`, a path `a::T`, `&` or `*` with perhaps `mut ` before the pointee, a
/// slice `[T]` or `[T; n]`, or a tuple `(T, U)`. An erroneous type has no
/// text.
pub open spec fn type_text(syms: Seq<String>, d: AstTypeExprDesc) -> Seq<char>
    decreases d, 1nat,
{
    match d {
        AstTypeExprDesc::Named { name, args } => name_at(syms, name.data.id as int) + if args@.len() == 0 {
            seq![]
        } else {
            "<"@ + joined(any_texts(syms, args@), ", "@) + ">"@
        },
        AstTypeExprDesc::NameResolved { from, to } => name_at(syms, from.data.id as int) + "::"@ + type_text(
            syms,
            to.data,
        ),
        AstTypeExprDesc::Ref { mutable, pointee } => "&"@ + mut_text(mutable) + type_text(syms, pointee.data),
        AstTypeExprDesc::Pointer { mutable, pointee } => "*"@ + mut_text(mutable) + type_text(syms, pointee.data),
        AstTypeExprDesc::Slice { ty, len } => "["@ + type_text(syms, ty.data) + match len {
            Some(n) => "; "@ + decimal(n as nat),
            None => seq![],
        } + "]"@,
        AstTypeExprDesc::Tuple(tys) => "("@ + joined(type_texts(syms, tys@), ", "@) + ")"@,
        AstTypeExprDesc::Error(_) => seq![],
    }
}

/// The texts of type expressions, in order.
pub open spec fn type_texts(syms: Seq<String>, tys: Seq<AstTypeExpr>) -> Seq<Seq<char>>
    decreases tys, 0nat,
{
    if tys.len() == 0 {
        seq![]
    } else {
        type_texts(syms, tys.drop_last()).push(type_text(syms, tys.last().data))
    }
}

/// The text of a possibly-placeholder type expression: `_` for the
/// placeholder.
pub open spec fn any_text(syms: Seq<String>, a: AstAnyTypeExpr) -> Seq<char>
    decreases a, 0nat,
{
    match a.data {
        AstAnyTypeExprDesc::Any => "_"@,
        AstAnyTypeExprDesc::Known(d) => type_text(syms, d),
    }
}

/// The texts of possibly-placeholder type expressions, in order.
pub open spec fn any_texts(syms: Seq<String>, args: Seq<AstAnyTypeExpr>) -> Seq<Seq<char>>
    decreases args, 1nat,
{
    if args.len() == 0 {
        seq![]
    } else {
        any_texts(syms, args.drop_last()).push(any_text(syms, args.last()))
    }
}

impl AstReceiver {
    /// How `self` is taken, as written; nothing for a static method.
    pub fn text(&self) -> (r: &'static str)
        ensures
            r@ == receiver_text(*self),
    {
        match self {
            AstReceiver::NoReceiver => {
                proof {
                    reveal_strlit("");
                }
                ""
            },
            AstReceiver::Zelf(_) => "self",
            AstReceiver::MutZelf(_) => "mut self",
            AstReceiver::RefZelf(_) => "&self",
            AstReceiver::MutRefZelf(_) => "&mut self",
            AstReceiver::PtrZelf(_) => "*self",
            AstReceiver::MutPtrZelf(_) => "*mut self",
        }
    }
}

/// Writes the text of a type expression.
fn push_type(w: &mut String, syms: &Vec<String>, d: &AstTypeExprDesc)
    ensures
        final(w)@ == old(w)@ + type_text(syms@, *d),
    decreases d,
{
    let ghost start = w@;
    match d {
        AstTypeExprDesc::Named { name, args } => {
            push_name(w, syms, name.data.id as usize);
            if args.len() > 0 {
                let mut parts: Vec<String> = Vec::new();
                let mut i: usize = 0;
                while i < args.len()
                    invariant
                        i <= args@.len(),
                        *d == (AstTypeExprDesc::Named { name: *name, args: *args }),
                        names_view(parts@) == any_texts(syms@, args@.take(i as int)),
                    decreases args@.len() - i,
                {
                    proof {
                        broadcast use vstd::std_specs::vec::axiom_vec_index_decreases;
                        assert(*args == d->args);
                        assert(decreases_to!(*d => d->args));
                        assert(decreases_to!(args => args[i as int]));
                    }
                    let mut part = String::new();
                    push_any(&mut part, syms, &args[i]);
                    let ghost before = parts@;
                    parts.push(part);
                    proof {
                        let t = args@.take(i + 1);
                        assert(t.drop_last() =~= args@.take(i as int));
                        assert(t.last() == args@[i as int]);
                        assert(names_view(parts@) =~= names_view(before).push(any_text(syms@, args@[i as int])));
                    }
                    i += 1;
                }
                assert(args@.take(args@.len() as int) =~= args@);
                w.append("<");
                let joined_parts = join_names(&parts, ", ");
                w.append(joined_parts.as_str());
                w.append(">");
            } else {
                assert(w@ =~= start + type_text(syms@, *d));
            }
        },
        AstTypeExprDesc::NameResolved { from, to } => {
            push_name(w, syms, from.data.id as usize);
            w.append("::");
            push_type(w, syms, &to.data);
        },
        AstTypeExprDesc::Ref { mutable, pointee } => {
            w.append("&");
            if *mutable {
                w.append("mut ");
            }
            push_type(w, syms, &pointee.data);
        },
        AstTypeExprDesc::Pointer { mutable, pointee } => {
            w.append("*");
            if *mutable {
                w.append("mut ");
            }
            push_type(w, syms, &pointee.data);
        },
        AstTypeExprDesc::Slice { ty, len } => {
            w.append("[");
            push_type(w, syms, &ty.data);
            match len {
                Some(n) => {
                    w.append("; ");
                    push_decimal(w, *n);
                },
                None => {},
            }
            w.append("]");
        },
        AstTypeExprDesc::Tuple(tys) => {
            let mut parts: Vec<String> = Vec::new();
            let mut i: usize = 0;
            while i < tys.len()
                invariant
                    i <= tys@.len(),
                    *d == AstTypeExprDesc::Tuple(*tys),
                    names_view(parts@) == type_texts(syms@, tys@.take(i as int)),
                decreases tys@.len() - i,
            {
                proof {
                    broadcast use vstd::std_specs::vec::axiom_vec_index_decreases;
                    assert(*tys == d->Tuple_0);
                    assert(decreases_to!(*d => d->Tuple_0));
                    assert(decreases_to!(tys => tys[i as int]));
                }
                let mut part = String::new();
                push_type(&mut part, syms, &tys[i].data);
                let ghost before = parts@;
                parts.push(part);
                proof {
                    let t = tys@.take(i + 1);
                    assert(t.drop_last() =~= tys@.take(i as int));
                    assert(t.last() == tys@[i as int]);
                    assert(names_view(parts@) =~= names_view(before).push(type_text(syms@, tys@[i as int].data)));
                }
                i += 1;
            }
            assert(tys@.take(tys@.len() as int) =~= tys@);
            w.append("(");
            let joined_parts = join_names(&parts, ", ");
            w.append(joined_parts.as_str());
            w.append(")");
        },
        AstTypeExprDesc::Error(_) => {
            assert(w@ =~= start + type_text(syms@, *d));
        },
    }
    assert(w@ =~= start + type_text(syms@, *d));
}

/// Writes the text of a possibly-placeholder type expression.
fn push_any(w: &mut String, syms: &Vec<String>, a: &AstAnyTypeExpr)
    ensures
        final(w)@ == old(w)@ + any_text(syms@, *a),
    decreases a,
{
    match &a.data {
        AstAnyTypeExprDesc::Any => w.append("_"),
        AstAnyTypeExprDesc::Known(d) => push_type(w, syms, d),
    }
}

impl AstTypeExprDesc {
    /// The text of the type expression, with each symbol's text taken from
    /// `symbols` by its id (nothing for an id outside the table).
    pub fn display(&self, symbols: &Vec<String>) -> (r: String)
        ensures
            r@ == type_text(symbols@, *self),
    {
        let mut w = String::new();
        push_type(&mut w, symbols, self);
        w
    }
}

impl AstFundefArg {
    /// `name: type`, with each symbol's text taken from `symbols`.
    pub fn display(&self, symbols: &Vec<String>) -> (r: String)
        ensures
            r@ == name_at(symbols@, self.name.id as int) + ": "@ + type_text(symbols@, self.ty.data),
    {
        let mut w = String::new();
        push_name(&mut w, symbols, self.name.id as usize);
        w.append(": ");
        push_type(&mut w, symbols, &self.ty.data);
        w
    }
}

} // verus!
