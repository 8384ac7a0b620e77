//! Symbol mangling: how types and functions are spelled in object files.
use vstd::prelude::*;
use vstd::string::*;
use vstd::utf8::encode_utf8;
use crate::layout::{IntWidth, width_bytes};

pub mod laws;

verus! {

/// The character of a decimal digit.
pub open spec fn digit_char(d: nat) -> char {
    if d == 0 {
        '0'
    } else if d == 1 {
        '1'
    } else if d == 2 {
        '2'
    } else if d == 3 {
        '3'
    } else if d == 4 {
        '4'
    } else if d == 5 {
        '5'
    } else if d == 6 {
        '6'
    } else if d == 7 {
        '7'
    } else if d == 8 {
        '8'
    } else {
        '9'
    }
}

/// Whether `c` is one of the ten decimal digits.
pub open spec fn is_digit(c: char) -> bool {
    '0' <= c <= '9'
}

/// The decimal spelling of `n`, without leading zeros.
pub open spec fn decimal(n: nat) -> Seq<char>
    decreases n,
{
    if n < 10 {
        seq![digit_char(n)]
    } else {
        decimal(n / 10).push(digit_char(n % 10))
    }
}

/// The one-character string of a digit.
fn digit_str(d: usize) -> (r: &'static str)
    requires
        d < 10,
    ensures
        r@ == seq![digit_char(d as nat)],
{
    proof {
        reveal_strlit("0");
        reveal_strlit("1");
        reveal_strlit("2");
        reveal_strlit("3");
        reveal_strlit("4");
        reveal_strlit("5");
        reveal_strlit("6");
        reveal_strlit("7");
        reveal_strlit("8");
        reveal_strlit("9");
    }
    if d == 0 {
        "0"
    } else if d == 1 {
        "1"
    } else if d == 2 {
        "2"
    } else if d == 3 {
        "3"
    } else if d == 4 {
        "4"
    } else if d == 5 {
        "5"
    } else if d == 6 {
        "6"
    } else if d == 7 {
        "7"
    } else if d == 8 {
        "8"
    } else {
        "9"
    }
}

/// Appends the decimal spelling of `n`.
pub(crate) fn push_decimal(out: &mut String, n: usize)
    ensures
        final(out)@ == old(out)@ + decimal(n as nat),
    decreases n,
{
    if n >= 10 {
        push_decimal(out, n / 10);
    }
    out.append(digit_str(n % 10));
    proof {
        assert(decimal(n as nat) == if n < 10 {
            seq![digit_char(n as nat)]
        } else {
            decimal((n / 10) as nat).push(digit_char((n % 10) as nat))
        });
    }
}

/// Appends the decimal spelling of a wide `n`.
pub(crate) fn push_decimal_wide(out: &mut String, n: u128)
    ensures
        final(out)@ == old(out)@ + decimal(n as nat),
    decreases n,
{
    if n >= 10 {
        push_decimal_wide(out, n / 10);
    }
    let d = (n % 10) as usize;
    out.append(digit_str(d));
    proof {
        assert(decimal(n as nat) == if n < 10 {
            seq![digit_char(n as nat)]
        } else {
            decimal((n / 10) as nat).push(digit_char((n % 10) as nat))
        });
    }
}

/// The mangled form of an identifier: its length in bytes, in decimal,
/// followed by the identifier itself.
pub open spec fn ident_mangled(s: Seq<char>) -> Seq<char> {
    decimal(encode_utf8(s).len()) + s
}

/// Mangles an identifier as its byte length followed by its text.
pub fn mangle_ident(s: &str) -> (r: String)
    ensures
        r@ == ident_mangled(s@),
{
    let mut r = String::new();
    push_ident(&mut r, s);
    r
}

/// Appends the mangled form of an identifier.
fn push_ident(out: &mut String, s: &str)
    ensures
        final(out)@ == old(out)@ + ident_mangled(s@),
{
    let bytes = s.as_bytes();
    push_decimal(out, bytes.len());
    out.append(s);
    proof {
        assert(old(out)@ + decimal(encode_utf8(s@).len()) + s@ =~= old(out)@ + ident_mangled(s@));
    }
}

/// An integer type: its width and signedness.
#[derive(Debug, Clone, Copy, PartialEq, Eq, Hash, Structural)]
pub struct IntKind {
    pub width: IntWidth,
    pub signed: bool,
}

/// A type as it appears in a mangled name.
#[derive(Debug)]
pub enum MangleType {
    Ptr(Box<MangleType>),
    Tuple(Vec<MangleType>),
    Array(Box<MangleType>),
    Bool,
    Int(IntKind),
    Adt { path: Vec<String>, name: String, parameters: Vec<MangleType> },
    Never,
    Error,
}

/// The mathematical value of a [`MangleType`]: strings as character
/// sequences, vectors as sequences.
pub enum MangleTypeView {
    Ptr(Box<MangleTypeView>),
    Tuple(Seq<MangleTypeView>),
    Array(Box<MangleTypeView>),
    Bool,
    Int(IntKind),
    Adt { path: Seq<Seq<char>>, name: Seq<char>, parameters: Seq<MangleTypeView> },
    Never,
    Error,
}

/// The characters of each string.
pub open spec fn strings_view(ss: Seq<String>) -> Seq<Seq<char>> {
    ss.map_values(|s: String| s@)
}

pub open spec fn type_view(t: MangleType) -> MangleTypeView
    decreases t,
{
    match t {
        MangleType::Ptr(inner) => MangleTypeView::Ptr(Box::new(type_view(*inner))),
        MangleType::Tuple(ts) => MangleTypeView::Tuple(types_view(ts@)),
        MangleType::Array(inner) => MangleTypeView::Array(Box::new(type_view(*inner))),
        MangleType::Bool => MangleTypeView::Bool,
        MangleType::Int(k) => MangleTypeView::Int(k),
        MangleType::Adt { path, name, parameters } => MangleTypeView::Adt {
            path: strings_view(path@),
            name: name@,
            parameters: types_view(parameters@),
        },
        MangleType::Never => MangleTypeView::Never,
        MangleType::Error => MangleTypeView::Error,
    }
}

pub open spec fn types_view(ts: Seq<MangleType>) -> Seq<MangleTypeView>
    decreases ts,
{
    if ts.len() == 0 {
        seq![]
    } else {
        types_view(ts.drop_last()).push(type_view(ts.last()))
    }
}

impl View for MangleType {
    type V = MangleTypeView;

    open spec fn view(&self) -> MangleTypeView {
        type_view(*self)
    }
}

/// `i` or `u` followed by the size in bytes.
pub open spec fn int_mangled(k: IntKind) -> Seq<char> {
    seq![if k.signed { 'i' } else { 'u' }] + decimal(width_bytes(k.width))
}

/// The mangled form of each identifier, one after the other.
pub open spec fn idents_mangled(ids: Seq<Seq<char>>) -> Seq<char>
    decreases ids.len(),
{
    if ids.len() == 0 {
        seq![]
    } else {
        ident_mangled(ids[0]) + idents_mangled(ids.drop_first())
    }
}

/// The mangled form of a type.
pub open spec fn type_mangled(t: MangleTypeView) -> Seq<char>
    decreases t,
{
    match t {
        MangleTypeView::Ptr(inner) => seq!['P'] + type_mangled(*inner),
        MangleTypeView::Array(inner) => seq!['A'] + type_mangled(*inner),
        MangleTypeView::Tuple(ts) => seq!['T'] + types_mangled(ts) + seq!['E'],
        MangleTypeView::Int(k) => int_mangled(k),
        MangleTypeView::Adt { path, name, parameters } => seq!['N'] + idents_mangled(path)
            + ident_mangled(name) + seq!['E'] + types_mangled(parameters) + seq!['E'],
        MangleTypeView::Never => seq!['z'],
        MangleTypeView::Error => seq!['X'],
        MangleTypeView::Bool => seq!['b'],
    }
}

/// The mangled form of each type, one after the other.
pub open spec fn types_mangled(ts: Seq<MangleTypeView>) -> Seq<char>
    decreases ts,
{
    if ts.len() == 0 {
        seq![]
    } else {
        type_mangled(ts[0]) + types_mangled(ts.drop_first())
    }
}

/// Appending a type to a list appends its mangled form.
pub proof fn lemma_types_mangled_push(ts: Seq<MangleTypeView>, t: MangleTypeView)
    ensures
        types_mangled(ts.push(t)) == types_mangled(ts) + type_mangled(t),
    decreases ts.len(),
{
    if ts.len() == 0 {
        assert(ts.push(t).drop_first() =~= seq![]);
        assert(types_mangled(seq![]) == Seq::<char>::empty());
        assert(types_mangled(ts.push(t)) =~= types_mangled(ts) + type_mangled(t));
    } else {
        lemma_types_mangled_push(ts.drop_first(), t);
        assert(ts.push(t).drop_first() =~= ts.drop_first().push(t));
        assert(types_mangled(ts.push(t)) =~= types_mangled(ts) + type_mangled(t));
    }
}

/// Appending an identifier to a list appends its mangled form.
pub proof fn lemma_idents_mangled_push(ids: Seq<Seq<char>>, id: Seq<char>)
    ensures
        idents_mangled(ids.push(id)) == idents_mangled(ids) + ident_mangled(id),
    decreases ids.len(),
{
    if ids.len() == 0 {
        assert(ids.push(id).drop_first() =~= seq![]);
        assert(idents_mangled(ids.push(id).drop_first()) == Seq::<char>::empty());
        assert(idents_mangled(ids.push(id)) =~= idents_mangled(ids) + ident_mangled(id));
    } else {
        lemma_idents_mangled_push(ids.drop_first(), id);
        assert(ids.push(id).drop_first() =~= ids.drop_first().push(id));
        assert(idents_mangled(ids.push(id)) =~= idents_mangled(ids) + ident_mangled(id));
    }
}

/// Appends the mangled form of an integer type.
fn push_int(out: &mut String, k: IntKind)
    ensures
        final(out)@ == old(out)@ + int_mangled(k),
{
    proof {
        reveal_strlit("i");
        reveal_strlit("u");
    }
    if k.signed {
        out.append("i");
    } else {
        out.append("u");
    }
    push_decimal(out, k.width.bytes());
    proof {
        assert(final(out)@ =~= old(out)@ + int_mangled(k)) by {
            assert(int_mangled(k) =~= seq![if k.signed { 'i' } else { 'u' }] + decimal(
                width_bytes(k.width),
            ));
        }
    }
}

impl IntKind {
    /// `i` or `u` followed by the size in bytes.
    pub fn mangle(self) -> (r: String)
        ensures
            r@ == int_mangled(self),
    {
        let mut r = String::new();
        push_int(&mut r, self);
        r
    }
}

/// Appends one character, given as a one-character literal.
fn push_str(out: &mut String, lit: &str)
    ensures
        final(out)@ == old(out)@ + lit@,
{
    out.append(lit);
}

/// Appends the mangled form of each type of `ts`.
fn push_types(out: &mut String, ts: &Vec<MangleType>)
    ensures
        final(out)@ == old(out)@ + types_mangled(types_view(ts@)),
    decreases ts,
{
    let ghost start = out@;
    let mut i: usize = 0;
    while i < ts.len()
        invariant
            i <= ts.len(),
            out@ == start + types_mangled(types_view(ts@.take(i as int))),
        decreases ts.len() - i,
    {
        proof {
            broadcast use vstd::std_specs::vec::axiom_vec_index_decreases;
            assert(decreases_to!(ts => ts[i as int]));
        }
        ts[i].push_mangled(out);
        proof {
            let pre = ts@.take(i as int);
            assert(ts@.take(i + 1).drop_last() =~= pre);
            assert(types_view(ts@.take(i + 1)) == types_view(pre).push(type_view(ts@[i as int])));
            lemma_types_mangled_push(types_view(pre), type_view(ts@[i as int]));
        }
        i += 1;
    }
    proof {
        assert(ts@.take(ts.len() as int) =~= ts@);
    }
}

/// Appends the mangled form of each identifier of `ids`.
fn push_idents(out: &mut String, ids: &Vec<String>)
    ensures
        final(out)@ == old(out)@ + idents_mangled(strings_view(ids@)),
{
    let ghost start = out@;
    let mut i: usize = 0;
    while i < ids.len()
        invariant
            i <= ids.len(),
            out@ == start + idents_mangled(strings_view(ids@.take(i as int))),
        decreases ids.len() - i,
    {
        push_ident(out, ids[i].as_str());
        proof {
            let pre = ids@.take(i as int);
            assert(strings_view(ids@.take(i + 1)) =~= strings_view(pre).push(ids@[i as int]@));
            lemma_idents_mangled_push(strings_view(pre), ids@[i as int]@);
        }
        i += 1;
    }
    proof {
        assert(ids@.take(ids.len() as int) =~= ids@);
    }
}

impl MangleType {
    /// The mangled form of this type.
    pub fn mangle(&self) -> (r: String)
        ensures
            r@ == type_mangled(self@),
    {
        let mut r = String::new();
        self.push_mangled(&mut r);
        r
    }

    fn push_mangled(&self, out: &mut String)
        ensures
            final(out)@ == old(out)@ + type_mangled(self@),
        decreases self,
    {
        let ghost start = out@;
        proof {
            reveal_strlit("P");
            reveal_strlit("A");
            reveal_strlit("T");
            reveal_strlit("E");
            reveal_strlit("N");
            reveal_strlit("z");
            reveal_strlit("X");
            reveal_strlit("b");
        }
        match self {
            MangleType::Ptr(t) => {
                push_str(out, "P");
                t.push_mangled(out);
                assert(out@ =~= start + type_mangled(self@));
            },
            MangleType::Array(t) => {
                push_str(out, "A");
                t.push_mangled(out);
                assert(out@ =~= start + type_mangled(self@));
            },
            MangleType::Tuple(ts) => {
                push_str(out, "T");
                push_types(out, ts);
                push_str(out, "E");
                assert(out@ =~= start + type_mangled(self@));
            },
            MangleType::Int(k) => {
                push_int(out, *k);
            },
            MangleType::Adt { path, name, parameters } => {
                push_str(out, "N");
                push_idents(out, path);
                push_ident(out, name.as_str());
                push_str(out, "E");
                push_types(out, parameters);
                push_str(out, "E");
                assert(out@ =~= start + type_mangled(self@));
            },
            MangleType::Never => {
                push_str(out, "z");
            },
            MangleType::Error => {
                push_str(out, "X");
            },
            MangleType::Bool => {
                push_str(out, "b");
            },
        }
    }
}

/// The signature part of a mangled function name.
#[derive(Debug)]
pub struct MangleSig {
    pub name: String,
    pub parameters: Vec<MangleType>,
    pub ret: MangleType,
}

/// The mathematical value of a [`MangleSig`].
pub struct MangleSigView {
    pub name: Seq<char>,
    pub parameters: Seq<MangleTypeView>,
    pub ret: MangleTypeView,
}

impl View for MangleSig {
    type V = MangleSigView;

    open spec fn view(&self) -> MangleSigView {
        MangleSigView {
            name: self.name@,
            parameters: types_view(self.parameters@),
            ret: self.ret@,
        }
    }
}

/// `<name> <parameter types> E <return type>`.
pub open spec fn sig_mangled(sig: MangleSigView) -> Seq<char> {
    ident_mangled(sig.name) + types_mangled(sig.parameters) + seq!['E'] + type_mangled(sig.ret)
}

impl MangleSig {
    /// The mangled form of this signature.
    pub fn mangle(&self) -> (r: String)
        ensures
            r@ == sig_mangled(self@),
    {
        let mut r = String::new();
        self.push_mangled(&mut r);
        r
    }

    fn push_mangled(&self, out: &mut String)
        ensures
            final(out)@ == old(out)@ + sig_mangled(self@),
    {
        let ghost start = out@;
        proof {
            reveal_strlit("E");
        }
        push_ident(out, self.name.as_str());
        push_types(out, &self.parameters);
        push_str(out, "E");
        self.ret.push_mangled(out);
        assert(out@ =~= start + sig_mangled(self@));
    }
}

/// A function as it is named in object files.
#[derive(Debug)]
pub enum MangleFun {
    /// A function defined outside, whose name is kept as it is.
    Extern(String),
    Method { is_static: bool, ty: MangleType, sig: MangleSig, templates: Vec<MangleType> },
    Function { path: Vec<String>, sig: MangleSig, templates: Vec<MangleType> },
}

/// The mathematical value of a [`MangleFun`].
pub enum MangleFunView {
    Extern(Seq<char>),
    Method {
        is_static: bool,
        ty: MangleTypeView,
        sig: MangleSigView,
        templates: Seq<MangleTypeView>,
    },
    Function { path: Seq<Seq<char>>, sig: MangleSigView, templates: Seq<MangleTypeView> },
}

impl View for MangleFun {
    type V = MangleFunView;

    open spec fn view(&self) -> MangleFunView {
        match self {
            MangleFun::Extern(name) => MangleFunView::Extern(name@),
            MangleFun::Method { is_static, ty, sig, templates } => MangleFunView::Method {
                is_static: *is_static,
                ty: ty@,
                sig: sig@,
                templates: types_view(templates@),
            },
            MangleFun::Function { path, sig, templates } => MangleFunView::Function {
                path: strings_view(path@),
                sig: sig@,
                templates: types_view(templates@),
            },
        }
    }
}

/// What kind of function an instance is, as far as its symbol goes: an
/// extern function, a function of a module, or a method, static or with a
/// receiver, of the type `zelf`.
pub enum FunctionKind {
    Extern,
    Function,
    Method { is_static: bool, zelf: MangleType },
}

/// The symbol form of a function instance, from its kind, the path of the
/// module that owns it, its name, the types of its parameters and result,
/// and its template arguments: an extern function keeps only its name.
pub fn fun_mangle(
    kind: FunctionKind,
    path: Vec<String>,
    name: String,
    parameters: Vec<MangleType>,
    ret: MangleType,
    templates: Vec<MangleType>,
) -> (r: MangleFun)
    ensures
        r@ == (match kind {
            FunctionKind::Extern => MangleFunView::Extern(name@),
            FunctionKind::Function => MangleFunView::Function {
                path: strings_view(path@),
                sig: MangleSigView { name: name@, parameters: types_view(parameters@), ret: ret@ },
                templates: types_view(templates@),
            },
            FunctionKind::Method { is_static, zelf } => MangleFunView::Method {
                is_static,
                ty: zelf@,
                sig: MangleSigView { name: name@, parameters: types_view(parameters@), ret: ret@ },
                templates: types_view(templates@),
            },
        }),
{
    match kind {
        FunctionKind::Extern => MangleFun::Extern(name),
        FunctionKind::Function => MangleFun::Function {
            path,
            sig: MangleSig { name, parameters, ret },
            templates,
        },
        FunctionKind::Method { is_static, zelf } => MangleFun::Method {
            is_static,
            ty: zelf,
            sig: MangleSig { name, parameters, ret },
            templates,
        },
    }
}

/// An external function keeps its name; a method is
/// `_ZM <s|m> <self type> <signature> G <templates> E`, and a function
/// `_ZF <module path> E <signature> G <templates> E`.
pub open spec fn fun_mangled(f: MangleFunView) -> Seq<char> {
    match f {
        MangleFunView::Extern(name) => name,
        MangleFunView::Method { is_static, ty, sig, templates } => seq!['_', 'Z', 'M']
            + seq![if is_static { 's' } else { 'm' }] + type_mangled(ty) + sig_mangled(sig)
            + seq!['G'] + types_mangled(templates) + seq!['E'],
        MangleFunView::Function { path, sig, templates } => seq!['_', 'Z', 'F']
            + idents_mangled(path) + seq!['E'] + sig_mangled(sig) + seq!['G'] + types_mangled(
            templates,
        ) + seq!['E'],
    }
}

impl MangleFun {
    /// The symbol name of this function.
    pub fn mangle(&self) -> (r: String)
        ensures
            r@ == fun_mangled(self@),
    {
        proof {
            reveal_strlit("_ZM");
            reveal_strlit("_ZF");
            reveal_strlit("s");
            reveal_strlit("m");
            reveal_strlit("G");
            reveal_strlit("E");
        }
        match self {
            MangleFun::Extern(name) => name.clone(),
            MangleFun::Method { is_static, ty, sig, templates } => {
                let mut r = String::new();
                push_str(&mut r, "_ZM");
                if *is_static {
                    push_str(&mut r, "s");
                } else {
                    push_str(&mut r, "m");
                }
                ty.push_mangled(&mut r);
                sig.push_mangled(&mut r);
                push_str(&mut r, "G");
                push_types(&mut r, templates);
                push_str(&mut r, "E");
                assert(r@ =~= fun_mangled(self@));
                r
            },
            MangleFun::Function { path, sig, templates } => {
                let mut r = String::new();
                push_str(&mut r, "_ZF");
                push_idents(&mut r, path);
                push_str(&mut r, "E");
                sig.push_mangled(&mut r);
                push_str(&mut r, "G");
                push_types(&mut r, templates);
                push_str(&mut r, "E");
                assert(r@ =~= fun_mangled(self@));
                r
            },
        }
    }
}

} // verus!
