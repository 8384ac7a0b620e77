//! The text form of MIR bodies, as printed for debugging.
use vstd::prelude::*;
use vstd::string::*;
use crate::common::Symbol;
use crate::hir::Mutability;
use crate::mangle::{decimal, push_decimal, push_decimal_wide};
use crate::parse_tree::expr::BinaryOperator;
use crate::parser::expr::spec_token_to_binop;
use crate::token::{token_text, TokenKind};
use super::basic_block::{MIRBasicBlock, MIRTerminator, Stmt};
use super::operand::{
    MIRCallee, MIRConstant, MIRConstructorArgs, MIROperand, MIRPlace, MIRProjection, MIRRValue,
    MIRRValueKind, UnaryOperator,
};
use super::{BlockID, LocalID, MIRLocal, Mir};

verus! {

/// The names the text form shows for the interned ids of a body: the text
/// of each symbol, of each concrete type, of each enum and struct, of each
/// function as it is called (with its template arguments), and the type of
/// each local of the body. An id outside its table shows as nothing.
pub struct MIRNames {
    pub symbols: Vec<String>,
    pub types: Vec<String>,
    pub enums: Vec<String>,
    pub structs: Vec<String>,
    pub functions: Vec<String>,
    pub local_types: Vec<String>,
}

/// The entry of a table, or nothing outside it.
pub open spec fn name_at(v: Seq<String>, i: int) -> Seq<char> {
    if 0 <= i < v.len() {
        v[i]@
    } else {
        seq![]
    }
}

/// Appends the entry `i` of a table, if there is one.
pub(crate) fn push_name(out: &mut String, v: &Vec<String>, i: usize)
    ensures
        final(out)@ == old(out)@ + name_at(v@, i as int),
{
    if i < v.len() {
        out.append(v[i].as_str());
    } else {
        assert(old(out)@ + name_at(v@, i as int) =~= old(out)@);
    }
}

/// `_` and the number of a local.
pub open spec fn local_id_text(id: LocalID) -> Seq<char> {
    "_"@ + decimal(id.0 as nat)
}

/// `bb` and the number of a block.
pub open spec fn block_id_text(b: BlockID) -> Seq<char> {
    "bb"@ + decimal(b.0 as nat)
}

/// The symbol of a binary operator.
pub open spec fn binop_text(op: BinaryOperator) -> Seq<char> {
    match op {
        BinaryOperator::Plus => "+"@,
        BinaryOperator::Minus => "-"@,
        BinaryOperator::Times => "*"@,
        BinaryOperator::Div => "/"@,
        BinaryOperator::Modulo => "%"@,
        BinaryOperator::Eq => "=="@,
        BinaryOperator::Diff => "!="@,
        BinaryOperator::Lt => "<"@,
        BinaryOperator::Leq => "<="@,
        BinaryOperator::Gt => ">"@,
        BinaryOperator::Geq => ">="@,
        BinaryOperator::And => "&&"@,
        BinaryOperator::Or => "||"@,
        BinaryOperator::BitAnd => "&"@,
        BinaryOperator::BitOr => "|"@,
        BinaryOperator::BitXor => "^"@,
    }
}

/// The text of a constant: an integer followed by `_` and its type, a
/// boolean, or a string between quotes, prefixed by `c` when it ends in a
/// NUL byte.
pub open spec fn constant_text(n: MIRNames, c: MIRConstant) -> Seq<char> {
    match c {
        MIRConstant::Integer { value, ty } => decimal(value as nat) + "_"@ + name_at(
            n.types@,
            ty.id as int,
        ),
        MIRConstant::Bool(b) => if b {
            "true"@
        } else {
            "false"@
        },
        MIRConstant::CString { contents, null_terminated } => if null_terminated {
            "c\""@ + contents@ + "\""@
        } else {
            "\""@ + contents@ + "\""@
        },
    }
}

/// The text of an operand: a constant, or `move` or `copy` and a place.
pub open spec fn operand_text(n: MIRNames, op: MIROperand) -> Seq<char>
    decreases op,
{
    match op {
        MIROperand::Constant(c, _) => constant_text(n, c),
        MIROperand::Move(p) => "move "@ + place_text(n, p),
        MIROperand::Copy(p) => "copy "@ + place_text(n, p),
    }
}

/// The text of a place: its local and then each projection.
pub open spec fn place_text(n: MIRNames, p: MIRPlace) -> Seq<char>
    decreases p,
{
    local_id_text(p.local) + projections_text(n, p.projections@)
}

pub open spec fn projections_text(n: MIRNames, ps: Seq<MIRProjection>) -> Seq<char>
    decreases ps,
{
    if ps.len() == 0 {
        seq![]
    } else {
        projections_text(n, ps.drop_last()) + projection_text(n, ps.last())
    }
}

/// The text of a projection: `.*`, `.` and a field name or tuple index,
/// an index operand between brackets, or `.downcast#` and a variant.
pub open spec fn projection_text(n: MIRNames, pr: MIRProjection) -> Seq<char>
    decreases pr,
{
    match pr {
        MIRProjection::Deref => ".*"@,
        MIRProjection::Field { name, .. } => "."@ + name_at(n.symbols@, name.id as int),
        MIRProjection::TupleField { index, .. } => "."@ + decimal(index as nat),
        MIRProjection::Index { index } => "["@ + operand_text(n, index) + "]"@,
        MIRProjection::Downcast { variant } => ".downcast#"@ + decimal(variant as nat),
    }
}

/// Operands separated by `, `.
pub open spec fn operands_text(n: MIRNames, ops: Seq<MIROperand>) -> Seq<char>
    decreases ops,
{
    if ops.len() == 0 {
        seq![]
    } else {
        operands_text(n, ops.drop_last()) + (if ops.len() > 1 {
            ", "@
        } else {
            seq![]
        }) + operand_text(n, ops.last())
    }
}

/// Named fields, each `name: operand`, separated by `, `.
pub open spec fn fields_text(n: MIRNames, fs: Seq<(Symbol, MIROperand)>) -> Seq<char>
    decreases fs,
{
    if fs.len() == 0 {
        seq![]
    } else {
        fields_text(n, fs.drop_last()) + (if fs.len() > 1 {
            ", "@
        } else {
            seq![]
        }) + name_at(n.symbols@, fs.last().0.id as int) + ": "@ + operand_text(n, fs.last().1)
    }
}

/// The arguments of a constructor: nothing, operands, or named fields.
pub open spec fn cons_args_text(n: MIRNames, args: MIRConstructorArgs) -> Seq<char> {
    match args {
        MIRConstructorArgs::NoArgs => seq![],
        MIRConstructorArgs::Tuple(ops) => operands_text(n, ops@),
        MIRConstructorArgs::Struct(fs) => fields_text(n, fs@),
    }
}

/// The text of a right-hand side.
pub open spec fn rvalue_text(n: MIRNames, rv: MIRRValue) -> Seq<char> {
    match rv.kind {
        MIRRValueKind::Use(op) => operand_text(n, op),
        MIRRValueKind::Ref(p, m) => (if m == Mutability::Mutable {
            "&mut "@
        } else {
            "&"@
        }) + place_text(n, p),
        MIRRValueKind::AddressOf(p, m) => (if m == Mutability::Mutable {
            "addr_of_mut "@
        } else {
            "addr_of "@
        }) + place_text(n, p),
        MIRRValueKind::BinOp(op, l, r) => operand_text(n, l) + " "@ + binop_text(op) + " "@
            + operand_text(n, r),
        MIRRValueKind::UnaryOp(op, x) => (match op {
            UnaryOperator::Neg => "-"@,
            UnaryOperator::LNot => "!"@,
        }) + operand_text(n, x),
        MIRRValueKind::Discriminant(p) => "discriminant("@ + place_text(n, p) + ")"@,
        MIRRValueKind::Metadata(x) => "@metadata("@ + operand_text(n, x) + ")"@,
        MIRRValueKind::SizeOf(t) => "@sizeof("@ + name_at(n.types@, t.id as int) + ")"@,
        MIRRValueKind::Constructor { enum_ref, idx, args, .. } => name_at(
            n.enums@,
            enum_ref.id as int,
        ) + "::#"@ + decimal(idx as nat) + "("@ + cons_args_text(n, args) + ")"@,
        MIRRValueKind::StructLit { struct_ref, fields, .. } => name_at(
            n.structs@,
            struct_ref.id as int,
        ) + " {"@ + fields_text(n, fields@) + "}"@,
        MIRRValueKind::Tuple(ops, _) => "("@ + operands_text(n, ops@) + ")"@,
        MIRRValueKind::Cast(x, t) => "cast "@ + operand_text(n, x) + " as "@ + name_at(
            n.types@,
            t.id as int,
        ),
    }
}

/// The text of a callee: the function as it is called.
pub open spec fn callee_text(n: MIRNames, c: MIRCallee) -> Seq<char> {
    match c {
        MIRCallee::Direct(f) => name_at(n.functions@, f.id as int),
    }
}

/// The arms of a switch, each ` value => block,`.
pub open spec fn branches_text(bs: Seq<(u128, BlockID)>) -> Seq<char>
    decreases bs.len(),
{
    if bs.len() == 0 {
        seq![]
    } else {
        branches_text(bs.drop_last()) + " "@ + decimal(bs.last().0 as nat) + " => "@
            + block_id_text(bs.last().1) + ","@
    }
}

/// The text of a terminator.
pub open spec fn terminator_text(n: MIRNames, t: MIRTerminator) -> Seq<char> {
    match t {
        MIRTerminator::Diverge => "diverge"@,
        MIRTerminator::Goto { next } => "goto "@ + block_id_text(next),
        MIRTerminator::Return { value, .. } => match value {
            Some(op) => "return "@ + operand_text(n, op),
            None => "return"@,
        },
        MIRTerminator::Branch { cond, then, else_, .. } => "branch "@ + operand_text(n, cond)
            + " ? "@ + block_id_text(then) + " : "@ + block_id_text(else_),
        MIRTerminator::Switch { discriminant, branches, default, .. } => "switch "@
            + operand_text(n, discriminant) + " {"@ + branches_text(branches@) + " _ => "@
            + block_id_text(default) + " }"@,
        MIRTerminator::Call { callee, arguments, dest, next, .. } => local_id_text(dest)
            + " = call "@ + callee_text(n, callee) + "("@ + operands_text(n, arguments@)
            + ") -> "@ + block_id_text(next),
    }
}

/// The text of a statement: `place = rvalue`.
pub open spec fn stmt_text(n: MIRNames, s: Stmt) -> Seq<char> {
    match s {
        Stmt::Assign { dest, rvalue } => place_text(n, dest) + " = "@ + rvalue_text(n, rvalue),
    }
}

/// Statements, each on its own indented line.
pub open spec fn stmts_text(n: MIRNames, ss: Seq<Stmt>) -> Seq<char>
    decreases ss.len(),
{
    if ss.len() == 0 {
        seq![]
    } else {
        stmts_text(n, ss.drop_last()) + "    "@ + stmt_text(n, ss.last()) + "\n"@
    }
}

/// The text of a block: its statements, then its terminator, each on its
/// own indented line.
pub open spec fn block_text(n: MIRNames, b: MIRBasicBlock) -> Seq<char> {
    stmts_text(n, b.stmts@) + "    "@ + terminator_text(n, b.terminator) + "\n"@
}

/// The text of local `id`: `mut ` when it is mutable, its name and ` :`
/// when it has one, and its type.
pub open spec fn local_text(n: MIRNames, l: MIRLocal, id: int) -> Seq<char> {
    (if l.mutability == Mutability::Mutable {
        "mut "@
    } else {
        seq![]
    }) + (match l.name {
        Some(s) => name_at(n.symbols@, s.id as int) + " :"@,
        None => seq![],
    }) + name_at(n.local_types@, id)
}

/// The lines of the locals.
pub open spec fn locals_text(n: MIRNames, ls: Seq<MIRLocal>) -> Seq<char>
    decreases ls.len(),
{
    if ls.len() == 0 {
        seq![]
    } else {
        let i = ls.len() - 1;
        locals_text(n, ls.drop_last()) + "    "@ + local_id_text(LocalID(i as usize)) + ": "@
            + local_text(n, ls.last(), i) + "\n"@
    }
}

/// The lines of the parameters.
pub open spec fn params_text(ps: Seq<LocalID>) -> Seq<char>
    decreases ps.len(),
{
    if ps.len() == 0 {
        seq![]
    } else {
        params_text(ps.drop_last()) + "    "@ + local_id_text(ps.last()) + ",\n"@
    }
}

/// The blocks, each after an empty line, with its number and its name.
pub open spec fn blocks_text(n: MIRNames, bs: Seq<MIRBasicBlock>) -> Seq<char>
    decreases bs.len(),
{
    if bs.len() == 0 {
        seq![]
    } else {
        let i = bs.len() - 1;
        blocks_text(n, bs.drop_last()) + "\n  bb"@ + decimal(i as nat) + (match bs.last().name {
            Some(s) => " ("@ + s@ + ")"@,
            None => seq![],
        }) + ":\n"@ + block_text(n, bs.last())
    }
}

/// The text of a body.
pub open spec fn mir_text(n: MIRNames, m: Mir) -> Seq<char> {
    "mir {\n"@ + "  locals:\n"@ + locals_text(n, m.locals@) + "\n  params: [\n"@ + params_text(
        m.parameters@,
    ) + "  ]\n"@ + "\n  entry: "@ + block_id_text(m.entry) + "\n"@ + blocks_text(n, m.blocks@)
        + "}"@
}


/// The symbol of a binary operator.
pub fn fmt_binop(op: &BinaryOperator) -> (r: &'static str)
    ensures
        r@ == binop_text(*op),
{
    match op {
        BinaryOperator::Plus => "+",
        BinaryOperator::Minus => "-",
        BinaryOperator::Times => "*",
        BinaryOperator::Div => "/",
        BinaryOperator::Modulo => "%",
        BinaryOperator::Eq => "==",
        BinaryOperator::Diff => "!=",
        BinaryOperator::Lt => "<",
        BinaryOperator::Leq => "<=",
        BinaryOperator::Gt => ">",
        BinaryOperator::Geq => ">=",
        BinaryOperator::And => "&&",
        BinaryOperator::Or => "||",
        BinaryOperator::BitAnd => "&",
        BinaryOperator::BitOr => "|",
        BinaryOperator::BitXor => "^",
    }
}

/// Writes `_` and the number of a local.
pub fn fmt_local_id(w: &mut String, id: LocalID)
    ensures
        final(w)@ == old(w)@ + local_id_text(id),
{
    w.append("_");
    push_decimal(w, id.0);
    assert(final(w)@ =~= old(w)@ + local_id_text(id));
}

/// Writes `bb` and the number of a block.
fn fmt_block_id(w: &mut String, b: BlockID)
    ensures
        final(w)@ == old(w)@ + block_id_text(b),
{
    w.append("bb");
    push_decimal(w, b.0);
    assert(final(w)@ =~= old(w)@ + block_id_text(b));
}

/// Writes a place: its local and then each projection.
pub fn fmt_place(w: &mut String, names: &MIRNames, place: &MIRPlace)
    ensures
        final(w)@ == old(w)@ + place_text(*names, *place),
    decreases place,
{
    let ghost start = w@;
    fmt_local_id(w, place.local);
    let mut i: usize = 0;
    while i < place.projections.len()
        invariant
            i <= place.projections@.len(),
            w@ == start + local_id_text(place.local) + projections_text(
                *names,
                place.projections@.take(i as int),
            ),
        decreases place.projections@.len() - i,
    {
        proof {
            broadcast use vstd::std_specs::vec::axiom_vec_index_decreases;
            assert(decreases_to!(place.projections => place.projections[i as int]));
        }
        fmt_projection(w, names, &place.projections[i]);
        proof {
            let t = place.projections@.take(i + 1);
            assert(t.drop_last() =~= place.projections@.take(i as int));
            assert(t.last() == place.projections@[i as int]);
            assert(w@ =~= start + local_id_text(place.local) + projections_text(*names, t));
        }
        i += 1;
    }
    assert(place.projections@.take(place.projections@.len() as int) =~= place.projections@);
}

/// Writes a projection.
pub fn fmt_projection(w: &mut String, names: &MIRNames, proj: &MIRProjection)
    ensures
        final(w)@ == old(w)@ + projection_text(*names, *proj),
    decreases proj,
{
    match proj {
        MIRProjection::Deref => {
            w.append(".*");
        },
        MIRProjection::Field { name, .. } => {
            w.append(".");
            push_name(w, &names.symbols, name.id as usize);
        },
        MIRProjection::TupleField { index, .. } => {
            w.append(".");
            push_decimal(w, *index as usize);
        },
        MIRProjection::Index { index } => {
            w.append("[");
            fmt_operand(w, names, index);
            w.append("]");
        },
        MIRProjection::Downcast { variant } => {
            w.append(".downcast#");
            push_decimal(w, *variant);
        },
    }
    assert(final(w)@ =~= old(w)@ + projection_text(*names, *proj));
}

/// Writes an operand.
pub fn fmt_operand(w: &mut String, names: &MIRNames, operand: &MIROperand)
    ensures
        final(w)@ == old(w)@ + operand_text(*names, *operand),
    decreases operand,
{
    match operand {
        MIROperand::Constant(c, _) => fmt_constant(w, names, c),
        MIROperand::Move(place) => {
            w.append("move ");
            fmt_place(w, names, place);
        },
        MIROperand::Copy(place) => {
            w.append("copy ");
            fmt_place(w, names, place);
        },
    }
    assert(final(w)@ =~= old(w)@ + operand_text(*names, *operand));
}

/// Writes a constant.
pub fn fmt_constant(w: &mut String, names: &MIRNames, constant: &MIRConstant)
    ensures
        final(w)@ == old(w)@ + constant_text(*names, *constant),
{
    match constant {
        MIRConstant::Integer { value, ty } => {
            push_decimal_wide(w, *value);
            w.append("_");
            push_name(w, &names.types, ty.id as usize);
        },
        MIRConstant::Bool(b) => {
            if *b {
                w.append("true");
            } else {
                w.append("false");
            }
        },
        MIRConstant::CString { contents, null_terminated } => {
            if *null_terminated {
                w.append("c\"");
            } else {
                w.append("\"");
            }
            w.append(contents.as_str());
            w.append("\"");
        },
    }
    assert(final(w)@ =~= old(w)@ + constant_text(*names, *constant));
}

/// Writes operands separated by `, `.
fn fmt_operands(w: &mut String, names: &MIRNames, ops: &Vec<MIROperand>)
    ensures
        final(w)@ == old(w)@ + operands_text(*names, ops@),
{
    let ghost start = w@;
    let mut i: usize = 0;
    while i < ops.len()
        invariant
            i <= ops@.len(),
            w@ == start + operands_text(*names, ops@.take(i as int)),
        decreases ops@.len() - i,
    {
        if i > 0 {
            w.append(", ");
        }
        fmt_operand(w, names, &ops[i]);
        proof {
            let t = ops@.take(i + 1);
            assert(t.drop_last() =~= ops@.take(i as int));
            assert(t.last() == ops@[i as int]);
            assert(w@ =~= start + operands_text(*names, t));
        }
        i += 1;
    }
    assert(ops@.take(ops@.len() as int) =~= ops@);
}

/// Writes named fields, each `name: operand`, separated by `, `.
fn fmt_fields(w: &mut String, names: &MIRNames, fields: &Vec<(Symbol, MIROperand)>)
    ensures
        final(w)@ == old(w)@ + fields_text(*names, fields@),
{
    let ghost start = w@;
    let mut i: usize = 0;
    while i < fields.len()
        invariant
            i <= fields@.len(),
            w@ == start + fields_text(*names, fields@.take(i as int)),
        decreases fields@.len() - i,
    {
        if i > 0 {
            w.append(", ");
        }
        let (name, op) = &fields[i];
        push_name(w, &names.symbols, name.id as usize);
        w.append(": ");
        fmt_operand(w, names, op);
        proof {
            let t = fields@.take(i + 1);
            assert(t.drop_last() =~= fields@.take(i as int));
            assert(t.last() == fields@[i as int]);
            assert(w@ =~= start + fields_text(*names, t));
        }
        i += 1;
    }
    assert(fields@.take(fields@.len() as int) =~= fields@);
}

/// Writes a right-hand side.
pub fn fmt_rvalue(w: &mut String, names: &MIRNames, rvalue: &MIRRValue)
    ensures
        final(w)@ == old(w)@ + rvalue_text(*names, *rvalue),
{
    match &rvalue.kind {
        MIRRValueKind::Use(operand) => fmt_operand(w, names, operand),
        MIRRValueKind::Ref(place, mutability) => {
            match mutability {
                Mutability::Mutable => w.append("&mut "),
                Mutability::Const => w.append("&"),
            }
            fmt_place(w, names, place);
        },
        MIRRValueKind::AddressOf(place, mutability) => {
            match mutability {
                Mutability::Mutable => w.append("addr_of_mut "),
                Mutability::Const => w.append("addr_of "),
            }
            fmt_place(w, names, place);
        },
        MIRRValueKind::BinOp(op, lhs, rhs) => {
            fmt_operand(w, names, lhs);
            w.append(" ");
            w.append(fmt_binop(op));
            w.append(" ");
            fmt_operand(w, names, rhs);
        },
        MIRRValueKind::UnaryOp(op, operand) => {
            match op {
                UnaryOperator::Neg => w.append("-"),
                UnaryOperator::LNot => w.append("!"),
            }
            fmt_operand(w, names, operand);
        },
        MIRRValueKind::Discriminant(place) => {
            w.append("discriminant(");
            fmt_place(w, names, place);
            w.append(")");
        },
        MIRRValueKind::Metadata(operand) => {
            w.append("@metadata(");
            fmt_operand(w, names, operand);
            w.append(")");
        },
        MIRRValueKind::SizeOf(ty) => {
            w.append("@sizeof(");
            push_name(w, &names.types, ty.id as usize);
            w.append(")");
        },
        MIRRValueKind::Constructor { enum_ref, idx, args, .. } => {
            push_name(w, &names.enums, enum_ref.id as usize);
            w.append("::#");
            push_decimal(w, *idx);
            w.append("(");
            fmt_constructor_args(w, names, args);
            w.append(")");
        },
        MIRRValueKind::StructLit { struct_ref, fields, .. } => {
            push_name(w, &names.structs, struct_ref.id as usize);
            w.append(" {");
            fmt_fields(w, names, fields);
            w.append("}");
        },
        MIRRValueKind::Tuple(operands, _) => {
            w.append("(");
            fmt_operands(w, names, operands);
            w.append(")");
        },
        MIRRValueKind::Cast(operand, ty) => {
            w.append("cast ");
            fmt_operand(w, names, operand);
            w.append(" as ");
            push_name(w, &names.types, ty.id as usize);
        },
    }
    assert(final(w)@ =~= old(w)@ + rvalue_text(*names, *rvalue));
}

/// Writes the arguments of a constructor.
pub fn fmt_constructor_args(w: &mut String, names: &MIRNames, args: &MIRConstructorArgs)
    ensures
        final(w)@ == old(w)@ + cons_args_text(*names, *args),
{
    match args {
        MIRConstructorArgs::NoArgs => {
            assert(final(w)@ =~= old(w)@ + cons_args_text(*names, *args));
        },
        MIRConstructorArgs::Tuple(operands) => fmt_operands(w, names, operands),
        MIRConstructorArgs::Struct(fields) => fmt_fields(w, names, fields),
    }
}

/// Writes a callee: the function as it is called.
pub fn fmt_callee(w: &mut String, names: &MIRNames, callee: &MIRCallee)
    ensures
        final(w)@ == old(w)@ + callee_text(*names, *callee),
{
    match callee {
        MIRCallee::Direct(fref) => push_name(w, &names.functions, fref.id as usize),
    }
}

/// Writes a terminator.
pub fn fmt_terminator(w: &mut String, names: &MIRNames, terminator: &MIRTerminator)
    requires
        terminator.wf(),
    ensures
        final(w)@ == old(w)@ + terminator_text(*names, *terminator),
{
    match terminator {
        MIRTerminator::Diverge => {
            w.append("diverge");
        },
        MIRTerminator::Goto { next } => {
            w.append("goto ");
            fmt_block_id(w, *next);
        },
        MIRTerminator::Return { value, .. } => match value {
            Some(operand) => {
                w.append("return ");
                fmt_operand(w, names, operand);
            },
            None => {
                w.append("return");
            },
        },
        MIRTerminator::Branch { cond, then, else_, .. } => {
            w.append("branch ");
            fmt_operand(w, names, cond);
            w.append(" ? ");
            fmt_block_id(w, *then);
            w.append(" : ");
            fmt_block_id(w, *else_);
        },
        MIRTerminator::Switch { discriminant, branches, default, .. } => {
            w.append("switch ");
            fmt_operand(w, names, discriminant);
            w.append(" {");
            let ghost mid = w@;
            let mut i: usize = 0;
            while i < branches.len()
                invariant
                    i <= branches@.len(),
                    w@ == mid + branches_text(branches@.take(i as int)),
                decreases branches@.len() - i,
            {
                let (value, block) = branches[i];
                w.append(" ");
                push_decimal_wide(w, value);
                w.append(" => ");
                fmt_block_id(w, block);
                w.append(",");
                proof {
                    let t = branches@.take(i + 1);
                    assert(t.drop_last() =~= branches@.take(i as int));
                    assert(t.last() == branches@[i as int]);
                    assert(w@ =~= mid + branches_text(t));
                }
                i += 1;
            }
            assert(branches@.take(branches@.len() as int) =~= branches@);
            w.append(" _ => ");
            fmt_block_id(w, *default);
            w.append(" }");
        },
        MIRTerminator::Call { callee, arguments, dest, next, .. } => {
            fmt_local_id(w, *dest);
            w.append(" = call ");
            fmt_callee(w, names, callee);
            w.append("(");
            fmt_operands(w, names, arguments);
            w.append(") -> ");
            fmt_block_id(w, *next);
        },
    }
    assert(final(w)@ =~= old(w)@ + terminator_text(*names, *terminator));
}

/// Writes a statement: `place = rvalue`.
pub fn fmt_stmt(w: &mut String, names: &MIRNames, stmt: &Stmt)
    ensures
        final(w)@ == old(w)@ + stmt_text(*names, *stmt),
{
    match stmt {
        Stmt::Assign { dest, rvalue } => {
            fmt_place(w, names, dest);
            w.append(" = ");
            fmt_rvalue(w, names, rvalue);
        },
    }
    assert(final(w)@ =~= old(w)@ + stmt_text(*names, *stmt));
}

/// Writes a block: each statement, then the terminator, on indented lines.
pub fn fmt_block(w: &mut String, names: &MIRNames, block: &MIRBasicBlock)
    requires
        block.terminator.wf(),
    ensures
        final(w)@ == old(w)@ + block_text(*names, *block),
{
    let ghost start = w@;
    let mut i: usize = 0;
    while i < block.stmts.len()
        invariant
            i <= block.stmts@.len(),
            w@ == start + stmts_text(*names, block.stmts@.take(i as int)),
        decreases block.stmts@.len() - i,
    {
        w.append("    ");
        fmt_stmt(w, names, &block.stmts[i]);
        w.append("\n");
        proof {
            let t = block.stmts@.take(i + 1);
            assert(t.drop_last() =~= block.stmts@.take(i as int));
            assert(t.last() == block.stmts@[i as int]);
            assert(w@ =~= start + stmts_text(*names, t));
        }
        i += 1;
    }
    assert(block.stmts@.take(block.stmts@.len() as int) =~= block.stmts@);
    w.append("    ");
    fmt_terminator(w, names, &block.terminator);
    w.append("\n");
    assert(final(w)@ =~= old(w)@ + block_text(*names, *block));
}

/// Writes local `id`: `mut ` when it is mutable, its name and ` :` when it
/// has one, and its type.
fn fmt_local(w: &mut String, names: &MIRNames, local: &MIRLocal, id: usize)
    ensures
        final(w)@ == old(w)@ + local_text(*names, *local, id as int),
{
    if local.mutability == Mutability::Mutable {
        w.append("mut ");
    }
    match local.name {
        Some(name) => {
            push_name(w, &names.symbols, name.id as usize);
            w.append(" :");
        },
        None => {},
    }
    push_name(w, &names.local_types, id);
    assert(final(w)@ =~= old(w)@ + local_text(*names, *local, id as int));
}

impl Mir {
    /// The text of the body: its locals, its parameters, its entry, and
    /// each block with its number and name.
    #[verifier::rlimit(40)]
    pub fn display(&self, names: &MIRNames) -> (r: String)
        requires
            self.switches_sorted(),
        ensures
            r@ == mir_text(*names, *self),
    {
        let mut w = String::new();
        w.append("mir {\n");
        w.append("  locals:\n");
        let ghost s1 = w@;
        let mut i: usize = 0;
        while i < self.locals.len()
            invariant
                i <= self.locals@.len(),
                w@ == s1 + locals_text(*names, self.locals@.take(i as int)),
            decreases self.locals@.len() - i,
        {
            w.append("    ");
            fmt_local_id(&mut w, LocalID(i));
            w.append(": ");
            fmt_local(&mut w, names, &self.locals[i], i);
            w.append("\n");
            proof {
                let t = self.locals@.take(i + 1);
                assert(t.drop_last() =~= self.locals@.take(i as int));
                assert(t.last() == self.locals@[i as int]);
                assert(w@ =~= s1 + locals_text(*names, t));
            }
            i += 1;
        }
        assert(self.locals@.take(self.locals@.len() as int) =~= self.locals@);
        w.append("\n  params: [\n");
        let ghost s2 = w@;
        let mut i: usize = 0;
        while i < self.parameters.len()
            invariant
                i <= self.parameters@.len(),
                w@ == s2 + params_text(self.parameters@.take(i as int)),
            decreases self.parameters@.len() - i,
        {
            w.append("    ");
            fmt_local_id(&mut w, self.parameters[i]);
            w.append(",\n");
            proof {
                let t = self.parameters@.take(i + 1);
                assert(t.drop_last() =~= self.parameters@.take(i as int));
                assert(t.last() == self.parameters@[i as int]);
                assert(w@ =~= s2 + params_text(t));
            }
            i += 1;
        }
        assert(self.parameters@.take(self.parameters@.len() as int) =~= self.parameters@);
        w.append("  ]\n");
        w.append("\n  entry: ");
        fmt_block_id(&mut w, self.entry);
        w.append("\n");
        let ghost s3 = w@;
        let mut i: usize = 0;
        while i < self.blocks.len()
            invariant
                i <= self.blocks@.len(),
                w@ == s3 + blocks_text(*names, self.blocks@.take(i as int)),
                self.switches_sorted(),
            decreases self.blocks@.len() - i,
        {
            let block = &self.blocks[i];
            w.append("\n  bb");
            push_decimal(&mut w, i);
            match &block.name {
                Some(name) => {
                    w.append(" (");
                    w.append(name.as_str());
                    w.append(")");
                },
                None => {},
            }
            w.append(":\n");
            assert(self.blocks@[i as int].terminator.wf()) by {
                reveal(Mir::switches_sorted);
            }
            fmt_block(&mut w, names, block);
            proof {
                let t = self.blocks@.take(i + 1);
                assert(t.drop_last() =~= self.blocks@.take(i as int));
                assert(t.last() == self.blocks@[i as int]);
                assert(w@ =~= s3 + blocks_text(*names, t));
            }
            i += 1;
        }
        assert(self.blocks@.take(self.blocks@.len() as int) =~= self.blocks@);
        w.append("}");
        assert(w@ =~= mir_text(*names, *self));
        w
    }
}
/// Every binary operator prints as the token it is written with in the
/// source: for each token that denotes an operator, the operator's text is
/// that token's spelling.
pub proof fn lemma_binop_text_is_its_token(k: TokenKind)
    ensures
        spec_token_to_binop(k) matches Some(op) ==> binop_text(op) == token_text(k),
{
}

/// Distinct binary operators print differently, so the text of an operator
/// gives the operator back.
pub proof fn lemma_binop_text_injective(a: BinaryOperator, b: BinaryOperator)
    ensures
        binop_text(a) == binop_text(b) ==> a == b,
{
    reveal_strlit("+");
    reveal_strlit("-");
    reveal_strlit("*");
    reveal_strlit("/");
    reveal_strlit("%");
    reveal_strlit("==");
    reveal_strlit("!=");
    reveal_strlit("<");
    reveal_strlit("<=");
    reveal_strlit(">");
    reveal_strlit(">=");
    reveal_strlit("&&");
    reveal_strlit("||");
    reveal_strlit("&");
    reveal_strlit("|");
    reveal_strlit("^");
    if binop_text(a) == binop_text(b) {
        assert(binop_text(a).len() == binop_text(b).len());
        if binop_text(a).len() > 0 {
            assert(binop_text(a)[0] == binop_text(b)[0]);
        }
        if binop_text(a).len() > 1 {
            assert(binop_text(a)[1] == binop_text(b)[1]);
        }
    }
}

/// An operation prints as it is written in the source: a binary one as its
/// left operand, the token of its operator and its right operand; a unary
/// one as the token of its operator before its operand.
pub proof fn lemma_operation_text(n: MIRNames, rv: MIRRValue, k: TokenKind)
    ensures
        rv.kind matches MIRRValueKind::BinOp(op, l, r) ==> (spec_token_to_binop(k) == Some(op) ==> rvalue_text(
            n,
            rv,
        ) == operand_text(n, l) + " "@ + token_text(k) + " "@ + operand_text(n, r)),
        rv.kind matches MIRRValueKind::UnaryOp(UnaryOperator::Neg, x) ==> rvalue_text(n, rv) == token_text(
            TokenKind::Minus,
        ) + operand_text(n, x),
        rv.kind matches MIRRValueKind::UnaryOp(UnaryOperator::LNot, x) ==> rvalue_text(n, rv) == token_text(
            TokenKind::Not,
        ) + operand_text(n, x),
{
    lemma_binop_text_is_its_token(k);
}

} // verus!
