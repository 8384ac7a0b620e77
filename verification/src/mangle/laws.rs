//! Mangled names can be read back: distinct types, signatures and functions
//! get distinct names, as long as their identifiers are plain.
use vstd::prelude::*;
use vstd::utf8::encode_utf8;
use crate::layout::width_bytes;
use super::IntKind;
use super::{
    decimal, digit_char, is_digit, ident_mangled, idents_mangled, int_mangled, type_mangled,
    types_mangled, sig_mangled, fun_mangled, lemma_idents_mangled_push, MangleTypeView,
    MangleSigView, MangleFunView,
};

verus! {

/// Every character of `s` is a decimal digit.
pub open spec fn all_digits(s: Seq<char>) -> bool {
    forall|i: int| 0 <= i < s.len() ==> #[trigger] is_digit(s[i])
}

/// `s` is empty or does not begin with a digit.
pub open spec fn non_digit_start(s: Seq<char>) -> bool {
    s.len() > 0 ==> !is_digit(s[0])
}

/// An identifier as the language writes them: not beginning with a digit.
pub open spec fn plain_ident(s: Seq<char>) -> bool {
    non_digit_start(s)
}

/// The UTF-8 encoding of a string followed by another is the encoding of the
/// first followed by that of the second.
proof fn lemma_encode_utf8_concat(p: Seq<char>, q: Seq<char>)
    ensures
        encode_utf8(p + q) == encode_utf8(p) + encode_utf8(q),
    decreases p.len(),
{
    if p.len() > 0 {
        assert((p + q).drop_first() =~= p.drop_first() + q);
        assert((p + q)[0] == p[0]);
        lemma_encode_utf8_concat(p.drop_first(), q);
        assert(encode_utf8(p + q) =~= encode_utf8(p) + encode_utf8(q));
    }
}

/// Every character takes at least one byte.
proof fn lemma_encode_utf8_len(p: Seq<char>)
    ensures
        encode_utf8(p).len() >= p.len(),
    decreases p.len(),
{
    if p.len() > 0 {
        lemma_encode_utf8_len(p.drop_first());
    }
}

/// Two strings that begin the same text and take the same number of bytes
/// are the same length.
proof fn lemma_same_bytes_same_len(a: Seq<char>, x: Seq<char>, b: Seq<char>, y: Seq<char>)
    requires
        a + x == b + y,
        encode_utf8(a).len() == encode_utf8(b).len(),
    ensures
        a.len() == b.len(),
{
    if a.len() < b.len() {
        let r = b.subrange(a.len() as int, b.len() as int);
        assert(b =~= a + r) by {
            assert forall|i: int| 0 <= i < a.len() implies b[i] == a[i] by {
                assert((a + x)[i] == a[i]);
                assert((b + y)[i] == b[i]);
                assert((a + x)[i] == (b + y)[i]);
            }
        }
        lemma_encode_utf8_concat(a, r);
        lemma_encode_utf8_len(r);
    } else if b.len() < a.len() {
        let r = a.subrange(b.len() as int, a.len() as int);
        assert(a =~= b + r) by {
            assert forall|i: int| 0 <= i < b.len() implies a[i] == b[i] by {
                assert((a + x)[i] == a[i]);
                assert((b + y)[i] == b[i]);
                assert((a + x)[i] == (b + y)[i]);
            }
        }
        lemma_encode_utf8_concat(b, r);
        lemma_encode_utf8_len(r);
    }
}

pub open spec fn plain_idents(ids: Seq<Seq<char>>) -> bool {
    forall|i: int| 0 <= i < ids.len() ==> #[trigger] plain_ident(ids[i])
}

/// All identifiers inside the type are plain.
pub open spec fn plain_type(t: MangleTypeView) -> bool
    decreases t,
{
    match t {
        MangleTypeView::Ptr(inner) => plain_type(*inner),
        MangleTypeView::Array(inner) => plain_type(*inner),
        MangleTypeView::Tuple(ts) => plain_types(ts),
        MangleTypeView::Adt { path, name, parameters } => plain_idents(path) && plain_ident(name)
            && plain_types(parameters),
        _ => true,
    }
}

pub open spec fn plain_types(ts: Seq<MangleTypeView>) -> bool
    decreases ts,
{
    ts.len() > 0 ==> plain_type(ts[0]) && plain_types(ts.drop_first())
}

/// The value of a digit character.
pub open spec fn digit_value(c: char) -> int {
    c as int - '0' as int
}

/// The number that a string of digits spells.
pub open spec fn digits_value(s: Seq<char>) -> int
    decreases s.len(),
{
    if s.len() == 0 {
        0
    } else {
        digits_value(s.drop_last()) * 10 + digit_value(s.last())
    }
}

proof fn lemma_split<A>(s1: Seq<A>, s2: Seq<A>, t1: Seq<A>, t2: Seq<A>)
    requires
        s1 + s2 == t1 + t2,
        s1.len() == t1.len(),
    ensures
        s1 == t1,
        s2 == t2,
{
    assert(s1 =~= (s1 + s2).subrange(0, s1.len() as int));
    assert(t1 =~= (t1 + t2).subrange(0, t1.len() as int));
    assert(s2 =~= (s1 + s2).subrange(s1.len() as int, (s1 + s2).len() as int));
    assert(t2 =~= (t1 + t2).subrange(t1.len() as int, (t1 + t2).len() as int));
}

proof fn lemma_decimal_shape(n: nat)
    ensures
        all_digits(decimal(n)),
        decimal(n).len() >= 1,
        decimal(n)[0] == '0' <==> n == 0,
    decreases n,
{
    if n >= 10 {
        lemma_decimal_shape(n / 10);
        assert(decimal(n) == decimal(n / 10).push(digit_char(n % 10)));
    }
}

proof fn lemma_decimal_value(n: nat)
    ensures
        digits_value(decimal(n)) == n,
    decreases n,
{
    if n >= 10 {
        lemma_decimal_value(n / 10);
        let d = decimal(n);
        assert(d == decimal(n / 10).push(digit_char(n % 10)));
        assert(d.drop_last() =~= decimal(n / 10));
        assert(digit_value(digit_char(n % 10)) == n % 10);
        assert((n / 10) * 10 + n % 10 == n);
        assert(digits_value(d) == digits_value(d.drop_last()) * 10 + digit_value(d.last()));
    } else {
        let d = decimal(n);
        assert(d.drop_last() =~= Seq::<char>::empty());
        assert(digits_value(d.drop_last()) == 0);
        assert(digit_value(digit_char(n)) == n);
        assert(digits_value(d) == digits_value(d.drop_last()) * 10 + digit_value(d.last()));
    }
}

/// Distinct numbers have distinct decimal spellings.
pub proof fn lemma_decimal_injective(n: nat, m: nat)
    requires
        decimal(n) == decimal(m),
    ensures
        n == m,
{
    lemma_decimal_value(n);
    lemma_decimal_value(m);
}

/// A run of digits followed by a non-digit is read back unambiguously.
proof fn lemma_digit_run(p: Seq<char>, x: Seq<char>, q: Seq<char>, y: Seq<char>)
    requires
        all_digits(p),
        all_digits(q),
        non_digit_start(x),
        non_digit_start(y),
        p + x == q + y,
    ensures
        p == q,
        x == y,
{
    if p.len() < q.len() {
        assert((q + y)[p.len() as int] == q[p.len() as int]);
        assert(is_digit(q[p.len() as int]));
        if x.len() == 0 {
            assert((p + x).len() < (q + y).len());
        } else {
            assert((p + x)[p.len() as int] == x[0]);
        }
    } else if q.len() < p.len() {
        assert((p + x)[q.len() as int] == p[q.len() as int]);
        assert(is_digit(p[q.len() as int]));
        if y.len() == 0 {
            assert((q + y).len() < (p + x).len());
        } else {
            assert((q + y)[q.len() as int] == y[0]);
        }
    } else {
        lemma_split(p, x, q, y);
    }
}

/// The mangled form of a plain identifier can be split off the front of any
/// string: the identifier and what follows it are both determined.
pub proof fn lemma_mangle_ident_prefix_free(a: Seq<char>, x: Seq<char>, b: Seq<char>, y: Seq<char>)
    requires
        plain_ident(a),
        plain_ident(b),
        ident_mangled(a) + x == ident_mangled(b) + y,
    ensures
        a == b,
        x == y,
{
    lemma_encode_utf8_len(a);
    lemma_encode_utf8_len(b);
    let la = encode_utf8(a).len();
    let lb = encode_utf8(b).len();
    lemma_decimal_shape(la);
    lemma_decimal_shape(lb);
    let s = ident_mangled(a) + x;
    assert(s =~= decimal(la) + (a + x));
    assert(ident_mangled(b) + y =~= decimal(lb) + (b + y));
    if la == 0 && lb == 0 {
        assert(a.len() == 0 && b.len() == 0);
        assert(a =~= b);
        lemma_split(decimal(la) + a, x, decimal(lb) + b, y);
    } else if la == 0 {
        assert(s[0] == decimal(la)[0]);
        assert((ident_mangled(b) + y)[0] == decimal(lb)[0]);
    } else if lb == 0 {
        assert(s[0] == decimal(la)[0]);
        assert((ident_mangled(b) + y)[0] == decimal(lb)[0]);
    } else {
        assert((a + x)[0] == a[0]);
        assert((b + y)[0] == b[0]);
        lemma_digit_run(decimal(la), a + x, decimal(lb), b + y);
        lemma_decimal_injective(la, lb);
        lemma_same_bytes_same_len(a, x, b, y);
        lemma_split(a, x, b, y);
    }
}

/// A list of plain identifiers closed by `E` is read back unambiguously.
pub proof fn lemma_mangle_idents_prefix_free(
    a: Seq<Seq<char>>,
    x: Seq<char>,
    b: Seq<Seq<char>>,
    y: Seq<char>,
)
    requires
        plain_idents(a),
        plain_idents(b),
        idents_mangled(a) + seq!['E'] + x == idents_mangled(b) + seq!['E'] + y,
    ensures
        a == b,
        x == y,
    decreases a.len(),
{
    let s = idents_mangled(a) + seq!['E'] + x;
    let t = idents_mangled(b) + seq!['E'] + y;
    if a.len() == 0 && b.len() == 0 {
        assert(idents_mangled(a) =~= Seq::<char>::empty());
        assert(idents_mangled(b) =~= Seq::<char>::empty());
        lemma_split(idents_mangled(a) + seq!['E'], x, idents_mangled(b) + seq!['E'], y);
        assert(a =~= b);
    } else if a.len() == 0 {
        let d = decimal(encode_utf8(b[0]).len());
        lemma_decimal_shape(encode_utf8(b[0]).len());
        assert(is_digit(d[0]));
        assert(idents_mangled(a) =~= Seq::<char>::empty());
        assert(s[0] == 'E');
        assert(t =~= d + (b[0] + idents_mangled(b.drop_first()) + seq!['E'] + y));
        assert(t[0] == d[0]);
    } else if b.len() == 0 {
        let d = decimal(encode_utf8(a[0]).len());
        lemma_decimal_shape(encode_utf8(a[0]).len());
        assert(is_digit(d[0]));
        assert(idents_mangled(b) =~= Seq::<char>::empty());
        assert(t[0] == 'E');
        assert(s =~= d + (a[0] + idents_mangled(a.drop_first()) + seq!['E'] + x));
        assert(s[0] == d[0]);
    } else {
        assert(plain_ident(a[0]));
        assert(plain_ident(b[0]));
        let ra = idents_mangled(a.drop_first()) + seq!['E'] + x;
        let rb = idents_mangled(b.drop_first()) + seq!['E'] + y;
        assert(s =~= ident_mangled(a[0]) + ra);
        assert(t =~= ident_mangled(b[0]) + rb);
        lemma_mangle_ident_prefix_free(a[0], ra, b[0], rb);
        assert(plain_idents(a.drop_first()));
        assert(plain_idents(b.drop_first()));
        lemma_mangle_idents_prefix_free(a.drop_first(), x, b.drop_first(), y);
        assert(a =~= seq![a[0]] + a.drop_first());
        assert(b =~= seq![b[0]] + b.drop_first());
    }
}

/// A mangled type never begins with a digit or with `E`.
proof fn lemma_type_first_char(t: MangleTypeView)
    ensures
        type_mangled(t).len() > 0,
        !is_digit(type_mangled(t)[0]),
        type_mangled(t)[0] != 'E',
        type_mangled(t)[0] == match t {
            MangleTypeView::Ptr(_) => 'P',
            MangleTypeView::Array(_) => 'A',
            MangleTypeView::Tuple(_) => 'T',
            MangleTypeView::Int(k) => if k.signed {
                'i'
            } else {
                'u'
            },
            MangleTypeView::Adt { .. } => 'N',
            MangleTypeView::Never => 'z',
            MangleTypeView::Error => 'X',
            MangleTypeView::Bool => 'b',
        },
{
}

/// Two types whose mangled forms begin alike are of the same kind.
proof fn lemma_same_kind(a: MangleTypeView, x: Seq<char>, b: MangleTypeView, y: Seq<char>)
    requires
        type_mangled(a) + x == type_mangled(b) + y,
    ensures
        a is Ptr <==> b is Ptr,
        a is Array <==> b is Array,
        a is Tuple <==> b is Tuple,
        a is Int <==> b is Int,
        a is Adt <==> b is Adt,
        a is Never <==> b is Never,
        a is Error <==> b is Error,
        a is Bool <==> b is Bool,
{
    lemma_type_first_char(a);
    lemma_type_first_char(b);
    assert((type_mangled(a) + x)[0] == type_mangled(a)[0]);
    assert((type_mangled(b) + y)[0] == type_mangled(b)[0]);
}

proof fn lemma_strip_ptr(ia: MangleTypeView, x: Seq<char>, ib: MangleTypeView, y: Seq<char>)
    requires
        type_mangled(MangleTypeView::Ptr(Box::new(ia))) + x == type_mangled(
            MangleTypeView::Ptr(Box::new(ib)),
        ) + y,
    ensures
        type_mangled(ia) + x == type_mangled(ib) + y,
{
    assert(type_mangled(MangleTypeView::Ptr(Box::new(ia))) + x =~= seq!['P'] + (type_mangled(ia)
        + x));
    assert(type_mangled(MangleTypeView::Ptr(Box::new(ib))) + y =~= seq!['P'] + (type_mangled(ib)
        + y));
    lemma_split(seq!['P'], type_mangled(ia) + x, seq!['P'], type_mangled(ib) + y);
}

proof fn lemma_strip_array(ia: MangleTypeView, x: Seq<char>, ib: MangleTypeView, y: Seq<char>)
    requires
        type_mangled(MangleTypeView::Array(Box::new(ia))) + x == type_mangled(
            MangleTypeView::Array(Box::new(ib)),
        ) + y,
    ensures
        type_mangled(ia) + x == type_mangled(ib) + y,
{
    assert(type_mangled(MangleTypeView::Array(Box::new(ia))) + x =~= seq!['A'] + (type_mangled(
        ia,
    ) + x));
    assert(type_mangled(MangleTypeView::Array(Box::new(ib))) + y =~= seq!['A'] + (type_mangled(
        ib,
    ) + y));
    lemma_split(seq!['A'], type_mangled(ia) + x, seq!['A'], type_mangled(ib) + y);
}

proof fn lemma_strip_tuple(ta: Seq<MangleTypeView>, x: Seq<char>, tb: Seq<MangleTypeView>, y: Seq<char>)
    requires
        type_mangled(MangleTypeView::Tuple(ta)) + x == type_mangled(MangleTypeView::Tuple(tb)) + y,
    ensures
        types_mangled(ta) + seq!['E'] + x == types_mangled(tb) + seq!['E'] + y,
{
    assert(type_mangled(MangleTypeView::Tuple(ta)) + x =~= seq!['T'] + (types_mangled(ta) + seq![
        'E',
    ] + x));
    assert(type_mangled(MangleTypeView::Tuple(tb)) + y =~= seq!['T'] + (types_mangled(tb) + seq![
        'E',
    ] + y));
    lemma_split(
        seq!['T'],
        types_mangled(ta) + seq!['E'] + x,
        seq!['T'],
        types_mangled(tb) + seq!['E'] + y,
    );
}

proof fn lemma_int_case(ka: IntKind, x: Seq<char>, kb: IntKind, y: Seq<char>)
    requires
        non_digit_start(x),
        non_digit_start(y),
        int_mangled(ka) + x == int_mangled(kb) + y,
    ensures
        ka == kb,
        x == y,
{
    let da = decimal(width_bytes(ka.width));
    let db = decimal(width_bytes(kb.width));
    lemma_decimal_shape(width_bytes(ka.width));
    lemma_decimal_shape(width_bytes(kb.width));
    let ca = seq![if ka.signed { 'i' } else { 'u' }];
    let cb = seq![if kb.signed { 'i' } else { 'u' }];
    assert(int_mangled(ka) + x =~= ca + (da + x));
    assert(int_mangled(kb) + y =~= cb + (db + y));
    lemma_split(ca, da + x, cb, db + y);
    assert(ca[0] == cb[0]);
    lemma_digit_run(da, x, db, y);
    lemma_decimal_injective(width_bytes(ka.width), width_bytes(kb.width));
}

proof fn lemma_strip_adt(
    pa: Seq<Seq<char>>,
    na: Seq<char>,
    qa: Seq<MangleTypeView>,
    x: Seq<char>,
    pb: Seq<Seq<char>>,
    nb: Seq<char>,
    qb: Seq<MangleTypeView>,
    y: Seq<char>,
)
    requires
        plain_idents(pa),
        plain_ident(na),
        plain_idents(pb),
        plain_ident(nb),
        type_mangled(MangleTypeView::Adt { path: pa, name: na, parameters: qa }) + x
            == type_mangled(MangleTypeView::Adt { path: pb, name: nb, parameters: qb }) + y,
    ensures
        pa == pb,
        na == nb,
        types_mangled(qa) + seq!['E'] + x == types_mangled(qb) + seq!['E'] + y,
{
    lemma_idents_mangled_push(pa, na);
    lemma_idents_mangled_push(pb, nb);
    let ra = types_mangled(qa) + seq!['E'] + x;
    let rb = types_mangled(qb) + seq!['E'] + y;
    assert(type_mangled(MangleTypeView::Adt { path: pa, name: na, parameters: qa }) + x =~= seq![
        'N',
    ] + (idents_mangled(pa.push(na)) + seq!['E'] + ra));
    assert(type_mangled(MangleTypeView::Adt { path: pb, name: nb, parameters: qb }) + y =~= seq![
        'N',
    ] + (idents_mangled(pb.push(nb)) + seq!['E'] + rb));
    lemma_split(
        seq!['N'],
        idents_mangled(pa.push(na)) + seq!['E'] + ra,
        seq!['N'],
        idents_mangled(pb.push(nb)) + seq!['E'] + rb,
    );
    assert(plain_idents(pa.push(na)));
    assert(plain_idents(pb.push(nb)));
    lemma_mangle_idents_prefix_free(pa.push(na), ra, pb.push(nb), rb);
    assert(pa =~= pa.push(na).drop_last());
    assert(pb =~= pb.push(nb).drop_last());
    assert(na == pa.push(na).last());
    assert(nb == pb.push(nb).last());
}

/// The mangled form of a type with plain identifiers can be split off the
/// front of any string that goes on with something other than a digit: the
/// type and what follows it are both determined.
pub proof fn lemma_mangle_type_prefix_free(
    a: MangleTypeView,
    x: Seq<char>,
    b: MangleTypeView,
    y: Seq<char>,
)
    requires
        plain_type(a),
        plain_type(b),
        non_digit_start(x),
        non_digit_start(y),
        type_mangled(a) + x == type_mangled(b) + y,
    ensures
        a == b,
        x == y,
    decreases a,
{
    lemma_same_kind(a, x, b, y);
    match a {
        MangleTypeView::Ptr(ia) => {
            let ib = b->Ptr_0;
            lemma_strip_ptr(*ia, x, *ib, y);
            lemma_mangle_type_prefix_free(*ia, x, *ib, y);
        },
        MangleTypeView::Array(ia) => {
            let ib = b->Array_0;
            lemma_strip_array(*ia, x, *ib, y);
            lemma_mangle_type_prefix_free(*ia, x, *ib, y);
        },
        MangleTypeView::Tuple(ta) => {
            let tb = b->Tuple_0;
            lemma_strip_tuple(ta, x, tb, y);
            lemma_mangle_types_prefix_free(ta, x, tb, y);
        },
        MangleTypeView::Int(ka) => {
            lemma_int_case(ka, x, b->Int_0, y);
        },
        MangleTypeView::Adt { path: pa, name: na, parameters: qa } => {
            let qb = b->parameters;
            lemma_strip_adt(pa, na, qa, x, b->path, b->name, qb, y);
            lemma_mangle_types_prefix_free(qa, x, qb, y);
        },
        _ => {
            lemma_split(type_mangled(a), x, type_mangled(b), y);
        },
    }
}

/// A list of types with plain identifiers, closed by `E`, is read back
/// unambiguously.
pub proof fn lemma_mangle_types_prefix_free(
    a: Seq<MangleTypeView>,
    x: Seq<char>,
    b: Seq<MangleTypeView>,
    y: Seq<char>,
)
    requires
        plain_types(a),
        plain_types(b),
        types_mangled(a) + seq!['E'] + x == types_mangled(b) + seq!['E'] + y,
    ensures
        a == b,
        x == y,
    decreases a,
{
    let s = types_mangled(a) + seq!['E'] + x;
    let t = types_mangled(b) + seq!['E'] + y;
    if a.len() == 0 && b.len() == 0 {
        lemma_split(types_mangled(a) + seq!['E'], x, types_mangled(b) + seq!['E'], y);
        assert(a =~= b);
    } else if a.len() == 0 {
        lemma_type_first_char(b[0]);
        assert(t =~= type_mangled(b[0]) + (types_mangled(b.drop_first()) + seq!['E'] + y));
        assert(t[0] == type_mangled(b[0])[0]);
        assert(s[0] == 'E');
    } else if b.len() == 0 {
        lemma_type_first_char(a[0]);
        assert(s =~= type_mangled(a[0]) + (types_mangled(a.drop_first()) + seq!['E'] + x));
        assert(s[0] == type_mangled(a[0])[0]);
        assert(t[0] == 'E');
    } else {
        let ra = types_mangled(a.drop_first()) + seq!['E'] + x;
        let rb = types_mangled(b.drop_first()) + seq!['E'] + y;
        assert(s =~= type_mangled(a[0]) + ra);
        assert(t =~= type_mangled(b[0]) + rb);
        if a.len() > 1 {
            lemma_type_first_char(a[1]);
            assert(types_mangled(a.drop_first()) =~= type_mangled(a.drop_first()[0]) + types_mangled(
                a.drop_first().drop_first(),
            ));
            assert(ra[0] == type_mangled(a[1])[0]);
        } else {
            assert(ra[0] == 'E');
        }
        if b.len() > 1 {
            lemma_type_first_char(b[1]);
            assert(types_mangled(b.drop_first()) =~= type_mangled(b.drop_first()[0]) + types_mangled(
                b.drop_first().drop_first(),
            ));
            assert(rb[0] == type_mangled(b[1])[0]);
        } else {
            assert(rb[0] == 'E');
        }
        lemma_mangle_type_prefix_free(a[0], ra, b[0], rb);
        lemma_mangle_types_prefix_free(a.drop_first(), x, b.drop_first(), y);
        assert(a =~= seq![a[0]] + a.drop_first());
        assert(b =~= seq![b[0]] + b.drop_first());
    }
}

/// Distinct types with plain identifiers get distinct mangled names.
pub proof fn lemma_mangle_type_injective(a: MangleTypeView, b: MangleTypeView)
    requires
        plain_type(a),
        plain_type(b),
        type_mangled(a) == type_mangled(b),
    ensures
        a == b,
{
    let e = Seq::<char>::empty();
    assert(type_mangled(a) + e =~= type_mangled(a));
    assert(type_mangled(b) + e =~= type_mangled(b));
    lemma_mangle_type_prefix_free(a, e, b, e);
}

/// A type whose mangled form ends with the digits of an integer size.
pub open spec fn int_terminated(t: MangleTypeView) -> bool
    decreases t,
{
    match t {
        MangleTypeView::Int(_) => true,
        MangleTypeView::Ptr(inner) => int_terminated(*inner),
        MangleTypeView::Array(inner) => int_terminated(*inner),
        _ => false,
    }
}

/// Like [`lemma_mangle_type_prefix_free`], for any continuation, when
/// neither type ends with an integer size.
proof fn lemma_mangle_type_prefix_free_any(
    a: MangleTypeView,
    x: Seq<char>,
    b: MangleTypeView,
    y: Seq<char>,
)
    requires
        plain_type(a),
        plain_type(b),
        !int_terminated(a),
        !int_terminated(b),
        type_mangled(a) + x == type_mangled(b) + y,
    ensures
        a == b,
        x == y,
    decreases a,
{
    lemma_same_kind(a, x, b, y);
    match a {
        MangleTypeView::Ptr(ia) => {
            let ib = b->Ptr_0;
            lemma_strip_ptr(*ia, x, *ib, y);
            lemma_mangle_type_prefix_free_any(*ia, x, *ib, y);
        },
        MangleTypeView::Array(ia) => {
            let ib = b->Array_0;
            lemma_strip_array(*ia, x, *ib, y);
            lemma_mangle_type_prefix_free_any(*ia, x, *ib, y);
        },
        MangleTypeView::Tuple(ta) => {
            let tb = b->Tuple_0;
            lemma_strip_tuple(ta, x, tb, y);
            lemma_mangle_types_prefix_free(ta, x, tb, y);
        },
        MangleTypeView::Adt { path: pa, name: na, parameters: qa } => {
            let qb = b->parameters;
            lemma_strip_adt(pa, na, qa, x, b->path, b->name, qb, y);
            lemma_mangle_types_prefix_free(qa, x, qb, y);
        },
        _ => {
            lemma_split(type_mangled(a), x, type_mangled(b), y);
        },
    }
}

/// All identifiers of the signature are plain.
pub open spec fn plain_sig(sig: MangleSigView) -> bool {
    plain_ident(sig.name) && plain_types(sig.parameters) && plain_type(sig.ret)
}

/// The mangled form of a signature with plain identifiers can be split off
/// the front of any string that goes on with something other than a digit.
pub proof fn lemma_mangle_sig_prefix_free(
    a: MangleSigView,
    x: Seq<char>,
    b: MangleSigView,
    y: Seq<char>,
)
    requires
        plain_sig(a),
        plain_sig(b),
        non_digit_start(x),
        non_digit_start(y),
        sig_mangled(a) + x == sig_mangled(b) + y,
    ensures
        a == b,
        x == y,
{
    let ra = type_mangled(a.ret) + x;
    let rb = type_mangled(b.ret) + y;
    assert(sig_mangled(a) + x =~= ident_mangled(a.name) + (types_mangled(a.parameters) + seq![
        'E',
    ] + ra));
    assert(sig_mangled(b) + y =~= ident_mangled(b.name) + (types_mangled(b.parameters) + seq![
        'E',
    ] + rb));
    lemma_mangle_ident_prefix_free(
        a.name,
        types_mangled(a.parameters) + seq!['E'] + ra,
        b.name,
        types_mangled(b.parameters) + seq!['E'] + rb,
    );
    lemma_mangle_types_prefix_free(a.parameters, ra, b.parameters, rb);
    lemma_mangle_type_prefix_free(a.ret, x, b.ret, y);
}

/// Distinct signatures with plain identifiers get distinct mangled names.
pub proof fn lemma_mangle_sig_injective(a: MangleSigView, b: MangleSigView)
    requires
        plain_sig(a),
        plain_sig(b),
        sig_mangled(a) == sig_mangled(b),
    ensures
        a == b,
{
    let e = Seq::<char>::empty();
    assert(sig_mangled(a) + e =~= sig_mangled(a));
    assert(sig_mangled(b) + e =~= sig_mangled(b));
    lemma_mangle_sig_prefix_free(a, e, b, e);
}

/// Distinct free functions with plain identifiers get distinct symbol names.
pub proof fn lemma_mangle_function_injective(f: MangleFunView, g: MangleFunView)
    requires
        f matches MangleFunView::Function { path, sig, templates } && plain_idents(path)
            && plain_sig(sig) && plain_types(templates),
        g matches MangleFunView::Function { path, sig, templates } && plain_idents(path)
            && plain_sig(sig) && plain_types(templates),
        fun_mangled(f) == fun_mangled(g),
    ensures
        f == g,
{
    let pf = f->Function_path;
    let sf = f->Function_sig;
    let tf = f->Function_templates;
    let pg = g->Function_path;
    let sg = g->Function_sig;
    let tg = g->Function_templates;
    let head = seq!['_', 'Z', 'F'];
    let ra = sig_mangled(sf) + (seq!['G'] + types_mangled(tf) + seq!['E']);
    let rb = sig_mangled(sg) + (seq!['G'] + types_mangled(tg) + seq!['E']);
    assert(fun_mangled(f) =~= head + (idents_mangled(pf) + seq!['E'] + ra));
    assert(fun_mangled(g) =~= head + (idents_mangled(pg) + seq!['E'] + rb));
    lemma_split(head, idents_mangled(pf) + seq!['E'] + ra, head, idents_mangled(pg) + seq!['E'] + rb);
    lemma_mangle_idents_prefix_free(pf, ra, pg, rb);
    lemma_sig_templates_tail(sf, tf, sg, tg);
}

/// The part after the module path or the receiver type:
/// `<signature> G <templates> E`.
proof fn lemma_sig_templates_tail(
    sf: MangleSigView,
    tf: Seq<MangleTypeView>,
    sg: MangleSigView,
    tg: Seq<MangleTypeView>,
)
    requires
        plain_sig(sf),
        plain_sig(sg),
        plain_types(tf),
        plain_types(tg),
        sig_mangled(sf) + (seq!['G'] + types_mangled(tf) + seq!['E']) == sig_mangled(sg) + (seq![
            'G',
        ] + types_mangled(tg) + seq!['E']),
    ensures
        sf == sg,
        tf == tg,
{
    let e = Seq::<char>::empty();
    lemma_mangle_sig_prefix_free(
        sf,
        seq!['G'] + types_mangled(tf) + seq!['E'],
        sg,
        seq!['G'] + types_mangled(tg) + seq!['E'],
    );
    assert(seq!['G'] + types_mangled(tf) + seq!['E'] =~= seq!['G'] + (types_mangled(tf) + seq![
        'E',
    ] + e));
    assert(seq!['G'] + types_mangled(tg) + seq!['E'] =~= seq!['G'] + (types_mangled(tg) + seq![
        'E',
    ] + e));
    lemma_split(seq!['G'], types_mangled(tf) + seq!['E'] + e, seq!['G'], types_mangled(tg) + seq![
        'E',
    ] + e);
    lemma_mangle_types_prefix_free(tf, e, tg, e);
}

/// Distinct methods with plain identifiers get distinct symbol names, when
/// neither receiver type ends with an integer size.
#[verifier::spinoff_prover]
#[verifier::rlimit(50)]
pub proof fn lemma_mangle_method_injective(f: MangleFunView, g: MangleFunView)
    requires
        f matches MangleFunView::Method { is_static, ty, sig, templates } && plain_type(ty)
            && !int_terminated(ty) && plain_sig(sig) && plain_types(templates),
        g matches MangleFunView::Method { is_static, ty, sig, templates } && plain_type(ty)
            && !int_terminated(ty) && plain_sig(sig) && plain_types(templates),
        fun_mangled(f) == fun_mangled(g),
    ensures
        f == g,
{
    let kf = f->is_static;
    let yf = f->ty;
    let sf = f->Method_sig;
    let tf = f->Method_templates;
    let kg = g->is_static;
    let yg = g->ty;
    let sg = g->Method_sig;
    let tg = g->Method_templates;
    let hf = seq!['_', 'Z', 'M', if kf { 's' } else { 'm' }];
    let hg = seq!['_', 'Z', 'M', if kg { 's' } else { 'm' }];
    let rf = sig_mangled(sf) + (seq!['G'] + types_mangled(tf) + seq!['E']);
    let rg = sig_mangled(sg) + (seq!['G'] + types_mangled(tg) + seq!['E']);
    assert(fun_mangled(f) =~= hf + (type_mangled(yf) + rf));
    assert(fun_mangled(g) =~= hg + (type_mangled(yg) + rg));
    lemma_split(hf, type_mangled(yf) + rf, hg, type_mangled(yg) + rg);
    assert(hf[3] == hg[3]);
    lemma_mangle_type_prefix_free_any(yf, rf, yg, rg);
    lemma_sig_templates_tail(sf, tf, sg, tg);
}

} // verus!
