//! Items: modules, functions, methods, interfaces, impls, structs, enums,
//! extern declarations, annotations and `@include` paths.
use vstd::prelude::*;
use nonempty::NonEmpty;
use crate::common::{SourceFile, Symbol, span_of};
use crate::parse_tree::Spanned;
use crate::parse_tree::annotation::{AstAnnotation, AstAnnotationArg, AstAnnotationItem};
use crate::parse_tree::top_level::{
    Annotated, Ast, AstAnyTopLevelItem, AstAnyTopLevelItemDesc, AstEnumDef, AstEnumVariant,
    AstEnumVariantKind, AstFundef, AstFundefArg, AstFundefDesc, AstFunsig, AstFunsigDesc,
    AstImplBlock, AstImplItem, AstIncludePath, AstIncludePathDesc, AstInterface, AstInterfaceItem,
    AstMethodDef, AstMethodDefDesc, AstMethodsig, AstMethodsigDesc, AstModule, AstModuleDesc,
    AstReceiver, AstStructDef, AstStructDefField, AstTemplateArg, AstTopLevelItem,
    AstTopLevelItemDesc,
};
use crate::parse_tree::type_expr::AstTypeExpr;
use crate::parser::{KnownSymbols, ParseError, ParseErrorKind, Parser, expected_symbol, sync_end};
use crate::parser::expr::tok_at;
use crate::parser::type_expr::{spells_type, tokens_span};
use crate::token::{LexError, Token, TokenKind};

verus! {

#[verifier::external_type_specification]
#[verifier::external_body]
#[verifier::reject_recursive_types(T)]
pub struct ExNonEmpty<T>(NonEmpty<T>);

/// The names a non-empty list of path segments holds, in order.
pub uninterp spec fn path_segments(ne: NonEmpty<Spanned<Symbol>>) -> Seq<Spanned<Symbol>>;

/// `NonEmpty::new`: a list of the one element `head`.
#[verifier::external_body]
fn segments_new(head: Spanned<Symbol>) -> (r: NonEmpty<Spanned<Symbol>>)
    ensures
        path_segments(r) == seq![head],
{
    NonEmpty::new(head)
}

/// `NonEmpty::push`: appends `e` at the end.
#[verifier::external_body]
fn segments_push(ne: &mut NonEmpty<Spanned<Symbol>>, e: Spanned<Symbol>)
    ensures
        path_segments(*final(ne)) == path_segments(*old(ne)).push(e),
{
    ne.push(e)
}

/// `From<NonEmpty<T>> for Vec<T>`: the elements, head first.
#[verifier::external_body]
fn segments_into_vec(ne: NonEmpty<Spanned<Symbol>>) -> (r: Vec<Spanned<Symbol>>)
    ensures
        r@ == path_segments(ne),
        r@.len() >= 1,
{
    Vec::from(ne)
}

/// The names an include path goes through, outermost first.
pub open spec fn include_path_names(p: AstIncludePathDesc) -> Seq<Symbol>
    decreases p,
{
    match p {
        AstIncludePathDesc::Symbol(s) => seq![s],
        AstIncludePathDesc::NameResolved { from, to } => seq![from] + include_path_names(to.data),
        AstIncludePathDesc::Error => Seq::empty(),
    }
}

/// The include path `a::b::c` for the segments `[a, b, c]`: a chain of
/// `NameResolved` nodes ending in the last name.
pub fn include_path_from_symbols(value: NonEmpty<Spanned<Symbol>>) -> (r: AstIncludePath)
    ensures
        include_path_names(r.data) == path_segments(value).map_values(|s: Spanned<Symbol>| s.data),
{
    let mut symbols = segments_into_vec(value);
    let ghost all = symbols@;
    let last = symbols.pop().unwrap();
    let start_loc = last.span.start();
    let mut acc: AstIncludePath = Spanned::new(AstIncludePathDesc::Symbol(last.data), last.span);
    let mut i = symbols.len();
    assert(all.subrange(i as int, all.len() as int).map_values(|s: Spanned<Symbol>| s.data) =~= seq![last.data]);
    while i > 0
        invariant
            i <= symbols@.len(),
            symbols@ == all.drop_last(),
            all.len() >= 1,
            include_path_names(acc.data) == all.subrange(i as int, all.len() as int).map_values(
                |s: Spanned<Symbol>| s.data,
            ),
        decreases i,
    {
        i = i - 1;
        let symb = &symbols[i];
        let total_span = start_loc.span(symb.span.end());
        acc = Spanned::new(
            AstIncludePathDesc::NameResolved { from: symb.data, to: Box::new(acc) },
            total_span,
        );
        assert(all.subrange(i as int, all.len() as int).map_values(|s: Spanned<Symbol>| s.data)
            =~= seq![symb.data] + all.subrange(i + 1, all.len() as int).map_values(
            |s: Spanned<Symbol>| s.data,
        ));
    }
    assert(all.subrange(0, all.len() as int) =~= all);
    acc
}

/// The receiver read from tokens starting with `first` and `after`.
pub open spec fn receiver_shape(first: TokenKind, after: Option<TokenKind>, rcv: AstReceiver) -> bool {
    match first {
        TokenKind::Mut => rcv is MutZelf,
        TokenKind::BitAnd => if after == Some(TokenKind::Mut) {
            rcv is MutRefZelf
        } else {
            rcv is RefZelf
        },
        TokenKind::Mult => if after == Some(TokenKind::Mut) {
            rcv is MutPtrZelf
        } else {
            rcv is PtrZelf
        },
        TokenKind::Identifier(_) => rcv is Zelf,
        _ => false,
    }
}

/// The tokens an item can start with, once its annotations are read.
pub open spec fn starts_item(k: TokenKind, extern_dir: Symbol) -> bool {
    k is Module || k is Fun || k is Impl || k is Struct || k is Enum || k is Interface || k
        == TokenKind::Directive(extern_dir)
}

impl<'a> Parser<'a> {
    /// `name: Type` from token `i`, the type a single name.
    pub open spec fn typed_name_at(&self, i: int) -> bool {
        &&& self.at(i) matches Some(TokenKind::Identifier(_))
        &&& self.at(i + 1) == Some(TokenKind::Colon)
        &&& self.simple_type_at(i + 2)
    }

    /// How many tokens the receiver at token `i` takes: `self` one; `mut
    /// self`, `&self` and `*self` two; `&mut self` and `*mut self` three. It
    /// is 0 where no receiver stands.
    pub open spec fn receiver_len(&self, i: int) -> int {
        let zelf = Some(TokenKind::Identifier(self.known.zelf));
        match self.at(i) {
            Some(TokenKind::Identifier(s)) => if s == self.known.zelf {
                1
            } else {
                0
            },
            Some(TokenKind::Mut) => if self.at(i + 1) == zelf {
                2
            } else {
                0
            },
            Some(TokenKind::BitAnd) | Some(TokenKind::Mult) => if self.at(i + 1) == Some(TokenKind::Mut) {
                if self.at(i + 2) == zelf {
                    3
                } else {
                    0
                }
            } else if self.at(i + 1) == zelf {
                2
            } else {
                0
            },
            _ => 0,
        }
    }

    /// `name ( ) : Type` from token `i`, or with `accept_receiver`
    /// `name ( self ) : Type`: no templates, no arguments, a one-name type.
    pub open spec fn simple_sig_at(&self, i: int, accept_receiver: bool) -> bool {
        let k: int = if accept_receiver {
            1
        } else {
            0
        };
        &&& self.at(i) matches Some(TokenKind::Identifier(_))
        &&& self.at(i + 1) == Some(TokenKind::OpenPar)
        &&& accept_receiver ==> self.at(i + 2) == Some(TokenKind::Identifier(self.known.zelf))
        &&& self.at(i + 2 + k) == Some(TokenKind::ClosePar)
        &&& self.at(i + 3 + k) == Some(TokenKind::Colon)
        &&& self.simple_type_at(i + 4 + k)
    }

    /// `fun name ( ) : Type { .. }` from token `i`, the body made of
    /// simple statements.
    pub open spec fn simple_fundef_at(&self, i: int) -> bool {
        &&& self.at(i) == Some(TokenKind::Fun)
        &&& self.simple_sig_at(i + 1, false)
        &&& self.at(i + 6) == Some(TokenKind::OpenBra)
        &&& self.body_end(i + 7) >= 0
    }

    /// `fun name ( self ) : Type { .. }` from token `i`, the body made of
    /// simple statements.
    pub open spec fn simple_methoddef_at(&self, i: int) -> bool {
        &&& self.at(i) == Some(TokenKind::Fun)
        &&& self.simple_sig_at(i + 1, true)
        &&& self.at(i + 7) == Some(TokenKind::OpenBra)
        &&& self.body_end(i + 8) >= 0
    }

    /// `struct Name { }` from token `i`.
    pub open spec fn empty_struct_at(&self, i: int) -> bool {
        &&& self.at(i) == Some(TokenKind::Struct)
        &&& self.at(i + 1) matches Some(TokenKind::Identifier(_))
        &&& self.at(i + 2) == Some(TokenKind::OpenBra)
        &&& self.at(i + 3) == Some(TokenKind::CloseBra)
    }

    /// How many of the arguments `name: Type` (the type a single name) a list from token `i`
    /// holds, separated by commas and closed by `)`; 0 where the tokens do not
    /// have that form.
    pub open spec fn fundef_args_len(&self, i: int) -> int
        decreases self.tokens@.len() - i,
    {
        if !(0 <= i < self.tokens@.len()) || !(self.typed_name_at(i)) {
            0
        } else if self.at(i + 3) == Some(TokenKind::ClosePar) {
            1
        } else if self.at(i + 3) == Some(TokenKind::Comma) && i + 4 < self.tokens@.len()
            && self.fundef_args_len(i + 4) > 0 {
            1 + self.fundef_args_len(i + 4)
        } else {
            0
        }
    }

    /// How many of the template arguments of one name a list from token `i` holds, separated
    /// by commas and closed by `>`; 0 where the tokens do not have that form.
    pub open spec fn template_args_len(&self, i: int) -> int
        decreases self.tokens@.len() - i,
    {
        if !(0 <= i < self.tokens@.len()) || !(self.at(i) matches Some(TokenKind::Identifier(_))) {
            0
        } else if self.at(i + 1) == Some(TokenKind::Gt) {
            1
        } else if self.at(i + 1) == Some(TokenKind::Comma) && i + 2 < self.tokens@.len()
            && self.template_args_len(i + 2) > 0 {
            1 + self.template_args_len(i + 2)
        } else {
            0
        }
    }

    /// How many of the fields `name: Type` (the type a single name) a list from token `i`
    /// holds, separated by `;` and closed by `}`; 0 where the tokens do not
    /// have that form.
    pub open spec fn struct_def_fields_len(&self, i: int) -> int
        decreases self.tokens@.len() - i,
    {
        if !(0 <= i < self.tokens@.len()) || !(self.typed_name_at(i)) {
            0
        } else if self.at(i + 3) == Some(TokenKind::CloseBra) {
            1
        } else if self.at(i + 3) == Some(TokenKind::Semicolon) && i + 4 < self.tokens@.len()
            && self.struct_def_fields_len(i + 4) > 0 {
            1 + self.struct_def_fields_len(i + 4)
        } else {
            0
        }
    }

    /// How many of the variants of one name a list from token `i` holds, separated by commas
    /// and closed by `}`; 0 where the tokens do not have that form.
    pub open spec fn unit_variants_len(&self, i: int) -> int
        decreases self.tokens@.len() - i,
    {
        if !(0 <= i < self.tokens@.len()) || !(self.at(i) matches Some(TokenKind::Identifier(_))) {
            0
        } else if self.at(i + 1) == Some(TokenKind::CloseBra) {
            1
        } else if self.at(i + 1) == Some(TokenKind::Comma) && i + 2 < self.tokens@.len()
            && self.unit_variants_len(i + 2) > 0 {
            1 + self.unit_variants_len(i + 2)
        } else {
            0
        }
    }

    /// The count of a field list reads the tokens alone.
    pub proof fn lemma_struct_def_fields_len_tokens(a: Parser<'a>, b: Parser<'a>, i: int)
        requires
            a.tokens@ == b.tokens@,
        ensures
            a.struct_def_fields_len(i) == b.struct_def_fields_len(i),
        decreases a.tokens@.len() - i,
    {
        if 0 <= i && i + 4 < a.tokens@.len() {
            Self::lemma_struct_def_fields_len_tokens(a, b, i + 4);
        }
    }

    /// The count of a variant list reads the tokens alone.
    pub proof fn lemma_unit_variants_len_tokens(a: Parser<'a>, b: Parser<'a>, i: int)
        requires
            a.tokens@ == b.tokens@,
        ensures
            a.unit_variants_len(i) == b.unit_variants_len(i),
        decreases a.tokens@.len() - i,
    {
        if 0 <= i && i + 2 < a.tokens@.len() {
            Self::lemma_unit_variants_len_tokens(a, b, i + 2);
        }
    }

    /// How many flags `name, ..., name ]` a list from token `i` holds; 0 where
    /// the tokens do not have that form.
    pub open spec fn flags_len(&self, i: int) -> int
        decreases self.tokens@.len() - i,
    {
        if !(0 <= i < self.tokens@.len()) || !(self.at(i) matches Some(TokenKind::Identifier(_))) {
            0
        } else if self.at(i + 1) == Some(TokenKind::CloseSqr) {
            1
        } else if self.at(i + 1) == Some(TokenKind::Comma) && i + 2 < self.tokens@.len() && self.flags_len(i + 2)
            > 0 {
            1 + self.flags_len(i + 2)
        } else {
            0
        }
    }

    /// How many one-name types a list `T, ..., U )` from token `i` holds; 0
    /// where the tokens do not have that form.
    pub open spec fn paren_types_len(&self, i: int) -> int
        decreases self.tokens@.len() - i,
    {
        if !(0 <= i < self.tokens@.len()) || !self.simple_type_at(i) {
            0
        } else if self.at(i + 1) == Some(TokenKind::ClosePar) {
            1
        } else if self.at(i + 1) == Some(TokenKind::Comma) && i + 2 < self.tokens@.len()
            && self.paren_types_len(i + 2) > 0 {
            1 + self.paren_types_len(i + 2)
        } else {
            0
        }
    }

    /// The token standing where `,` or `)` is owed after a list of one-name
    /// types separated by commas from token `i`, when it is neither.
    pub open spec fn after_types_bad(&self, i: int) -> Option<TokenKind>
        decreases self.tokens@.len() - i,
    {
        if !(0 <= i < self.tokens@.len()) || !self.simple_type_at(i) {
            None
        } else {
            match self.at(i + 1) {
                Some(TokenKind::Comma) => if i + 2 < self.tokens@.len() {
                    self.after_types_bad(i + 2)
                } else {
                    None
                },
                Some(TokenKind::ClosePar) => None,
                Some(k) => Some(k),
                None => None,
            }
        }
    }

    /// The count of a flag list reads the tokens alone.
    pub proof fn lemma_flags_len_tokens(a: Parser<'a>, b: Parser<'a>, i: int)
        requires
            a.tokens@ == b.tokens@,
        ensures
            a.flags_len(i) == b.flags_len(i),
        decreases a.tokens@.len() - i,
    {
        if 0 <= i && i + 2 <= a.tokens@.len() {
            Self::lemma_flags_len_tokens(a, b, i + 2);
        }
    }

    /// How many tokens the annotation at token `i` takes when it holds only
    /// flags: `@[ ]` three, `@[a, ..., z]` two and two a flag; 0 otherwise.
    pub open spec fn flag_group_len(&self, i: int) -> int {
        if self.at(i) == Some(TokenKind::AddressOf) && self.at(i + 1) == Some(TokenKind::OpenSqr) {
            if self.at(i + 2) == Some(TokenKind::CloseSqr) {
                3
            } else if self.flags_len(i + 2) > 0 {
                2 + 2 * self.flags_len(i + 2)
            } else {
                0
            }
        } else {
            0
        }
    }

    /// How many annotations of flags stand one after another from token `i`
    /// before a token that is no `@`; -1 where an annotation there is not of
    /// that form.
    pub open spec fn flag_groups(&self, i: int) -> int
        decreases self.tokens@.len() - i,
    {
        if self.at(i) != Some(TokenKind::AddressOf) {
            0
        } else if self.flag_group_len(i) > 0 && i + self.flag_group_len(i) <= self.tokens@.len()
            && self.flag_groups(i + self.flag_group_len(i)) >= 0 {
            1 + self.flag_groups(i + self.flag_group_len(i))
        } else {
            -1
        }
    }

    /// Where the `k`-th of the annotations from token `i` starts.
    pub open spec fn flag_group_start(&self, i: int, k: nat) -> int
        decreases k,
    {
        if k == 0 {
            i
        } else {
            self.flag_group_start(i, (k - 1) as nat) + self.flag_group_len(
                self.flag_group_start(i, (k - 1) as nat),
            )
        }
    }

    /// `items` are the flags of the annotation at token `g`, in order.
    pub open spec fn flags_of(&self, g: int, items: Seq<AstAnnotationItem>) -> bool {
        &&& items.len() == (if self.at(g + 2) == Some(TokenKind::CloseSqr) {
            0
        } else {
            self.flags_len(g + 2)
        })
        &&& forall|j: int|
            0 <= j < items.len() ==> (self.at(g + 2 + 2 * j) matches Some(TokenKind::Identifier(n))
                && #[trigger] items[j] == AstAnnotationItem::Flag(n))
    }

    /// `a::b::c` after an `@include`.
    pub fn parse_include_path(&mut self) -> (r: Result<AstIncludePath, ParseError>)
        requires
            old(self).wf(),
        ensures
            final(self).advanced_from(old(self)),
            r matches Ok(p) ==> old(self).position < final(self).position && include_path_names(
                p.data,
            ).len() >= 1 && old(self).next_kind() == Some(
                TokenKind::Identifier(include_path_names(p.data)[0]),
            ),
            !(old(self).next_kind() matches Some(TokenKind::Identifier(_))) ==> r is Err,
            old(self).next_kind() matches Some(TokenKind::Identifier(n)) ==> (old(self).at(old(self).position
                + 1) is Some && old(self).at(old(self).position + 1) != Some(TokenKind::Access)
                    ==> (r matches Ok(
                path,
            ) && include_path_names(path.data) == seq![n] && final(self).position == old(self).position
                + 1)),
            (old(self).next_kind() matches Some(TokenKind::Identifier(_))) && old(self).at(old(self).position
                + 1) is None ==> (r matches Err(e) && e.kind == ParseErrorKind::UnexpectedEOF),
    {
        let first = self.parse_symbol()?;
        let ghost first_sp = first;
        let mut symbols = segments_new(first);
        let ghost first_sym = first.data;
        loop
            invariant_except_break
                self.advanced_from(old(self)),
                old(self).position < self.position,
                path_segments(symbols).len() >= 1,
                path_segments(symbols)[0].data == first_sym,
                old(self).next_kind() == Some(TokenKind::Identifier(first_sym)),
                first_sp.data == first_sym,
                self.position == old(self).position + 1 ==> path_segments(symbols) == seq![first_sp],
                old(self).at(old(self).position + 1) is Some && old(self).at(old(self).position + 1) != Some(
                    TokenKind::Access,
                ) ==> self.position == old(self).position + 1,
                old(self).at(old(self).position + 1) is None ==> self.position == old(self).position + 1,
            ensures
                self.advanced_from(old(self)),
                old(self).position < self.position,
                path_segments(symbols).len() >= 1,
                path_segments(symbols)[0].data == first_sym,
                old(self).next_kind() == Some(TokenKind::Identifier(first_sym)),
                first_sp.data == first_sym,
                self.position == old(self).position + 1 ==> path_segments(symbols) == seq![first_sp],
                old(self).at(old(self).position + 1) is Some && old(self).at(old(self).position + 1) != Some(
                    TokenKind::Access,
                ) ==> self.position == old(self).position + 1,
                old(self).at(old(self).position + 1) is None ==> self.position == old(self).position + 1,
                self.position < self.tokens@.len(),
            decreases self.remaining(),
        {
            if self.current_token()?.kind != TokenKind::Access {
                break;
            }
            self.consume();
            let next = self.parse_symbol()?;
            segments_push(&mut symbols, next);
        }
        proof {
            if self.position == old(self).position + 1 {
                assert(seq![first_sp].map_values(|s: Spanned<Symbol>| s.data) =~= seq![first_sym]);
            }
        }
        let path = include_path_from_symbols(symbols);
        Ok(path)
    }
}


/// Tokens `i..j` spell the field `f` of a struct: its name, `:` and its
/// type, and `f` spans them.
pub open spec fn spells_field(toks: Seq<Token>, file: SourceFile, us: Symbol, i: int, j: int, f: AstStructDefField) -> bool {
    &&& tok_at(toks, i) == Some(TokenKind::Identifier(f.name))
    &&& tok_at(toks, i + 1) == Some(TokenKind::Colon)
    &&& spells_type(toks, file, us, i + 2, j, f.ty)
    &&& f.span == tokens_span(toks, file, i, j)
}

/// The fields `fields` stand between the marks `bs`: field `k` is spelled
/// by tokens `bs[k]` up to the separator at `bs[k + 1] - 1`, each separator
/// but the last a `;`; the list stops at `j`, right after the last field
/// or after a `;` following it.
pub open spec fn fields_between(toks: Seq<Token>, file: SourceFile, us: Symbol, bs: Seq<int>, j: int, fields: Seq<
    AstStructDefField,
>) -> bool {
    let n = fields.len() as int;
    &&& bs.len() == n + 1
    &&& forall|k: int|
        #![trigger fields[k]]
        0 <= k < n ==> spells_field(toks, file, us, bs[k], bs[k + 1] - 1, fields[k]) && (k < n - 1 ==> tok_at(
            toks,
            bs[k + 1] - 1,
        ) == Some(TokenKind::Semicolon))
    &&& {
        ||| n > 0 && j == bs[n] - 1
        ||| (n == 0 || tok_at(toks, bs[n] - 1) == Some(TokenKind::Semicolon)) && j == bs[n]
    }
}

/// Tokens from `i` on spell the fields `fields` of a struct, separated by
/// `;`, perhaps with one after the last, the list stopping at `j`.
pub open spec fn spells_fields(toks: Seq<Token>, file: SourceFile, us: Symbol, i: int, j: int, fields: Seq<
    AstStructDefField,
>) -> bool {
    exists|bs: Seq<int>| bs.len() > 0 && bs[0] == i && #[trigger] fields_between(toks, file, us, bs, j, fields)
}

/// Tokens `i..j` spell the annotation argument `a`.
pub open spec fn spells_arg(toks: Seq<Token>, file: SourceFile, us: Symbol, i: int, j: int, a: AstAnnotationArg) -> bool {
    match a {
        AstAnnotationArg::Type(t) => spells_type(toks, file, us, i, j, t),
    }
}

/// The arguments `args` stand between the marks `bs`: argument `k` is
/// spelled by tokens `bs[k]` up to the separator at `bs[k + 1] - 1`, each
/// separator but the last a `,`; the list ends at `j`, after its `)`: the
/// last separator is that `)`, or is a `,` (or there are no arguments) and
/// the `)` comes next.
pub open spec fn args_between(toks: Seq<Token>, file: SourceFile, us: Symbol, bs: Seq<int>, j: int, args: Seq<
    AstAnnotationArg,
>) -> bool {
    let n = args.len() as int;
    &&& bs.len() == n + 1
    &&& forall|k: int|
        #![trigger args[k]]
        0 <= k < n ==> spells_arg(toks, file, us, bs[k], bs[k + 1] - 1, args[k]) && (k < n - 1 ==> tok_at(
            toks,
            bs[k + 1] - 1,
        ) == Some(TokenKind::Comma))
    &&& {
        ||| n > 0 && tok_at(toks, bs[n] - 1) == Some(TokenKind::ClosePar) && j == bs[n]
        ||| (n == 0 || tok_at(toks, bs[n] - 1) == Some(TokenKind::Comma)) && tok_at(toks, bs[n]) == Some(
            TokenKind::ClosePar,
        ) && j == bs[n] + 1
    }
}

/// Tokens `i..j` spell the arguments `args` separated by commas, perhaps
/// with one after the last, and the `)` closing them.
pub open spec fn spells_args(toks: Seq<Token>, file: SourceFile, us: Symbol, i: int, j: int, args: Seq<
    AstAnnotationArg,
>) -> bool {
    exists|bs: Seq<int>| bs.len() > 0 && bs[0] == i && #[trigger] args_between(toks, file, us, bs, j, args)
}

/// Tokens `i..j` spell the annotation item `item`: a name not followed by
/// `(`, or a name, `(`, its type arguments and `)`.
pub open spec fn spells_ann_item(toks: Seq<Token>, file: SourceFile, us: Symbol, i: int, j: int, item: AstAnnotationItem) -> bool {
    match item {
        AstAnnotationItem::Flag(n) => tok_at(toks, i) == Some(TokenKind::Identifier(n)) && tok_at(toks, i + 1)
            != Some(TokenKind::OpenPar) && j == i + 1,
        AstAnnotationItem::Call { name, args } => tok_at(toks, i) == Some(TokenKind::Identifier(name)) && tok_at(
            toks,
            i + 1,
        ) == Some(TokenKind::OpenPar) && spells_args(toks, file, us, i + 2, j, args@),
    }
}

/// The items `items` stand between the marks `bs`, as arguments do in
/// `args_between`, the list closed by `]`.
pub open spec fn items_between(toks: Seq<Token>, file: SourceFile, us: Symbol, bs: Seq<int>, j: int, items: Seq<
    AstAnnotationItem,
>) -> bool {
    let n = items.len() as int;
    &&& bs.len() == n + 1
    &&& forall|k: int|
        #![trigger items[k]]
        0 <= k < n ==> spells_ann_item(toks, file, us, bs[k], bs[k + 1] - 1, items[k]) && (k < n - 1 ==> tok_at(
            toks,
            bs[k + 1] - 1,
        ) == Some(TokenKind::Comma))
    &&& {
        ||| n > 0 && tok_at(toks, bs[n] - 1) == Some(TokenKind::CloseSqr) && j == bs[n]
        ||| (n == 0 || tok_at(toks, bs[n] - 1) == Some(TokenKind::Comma)) && tok_at(toks, bs[n]) == Some(
            TokenKind::CloseSqr,
        ) && j == bs[n] + 1
    }
}

/// Tokens `i..j` spell the annotation `a`: `@`, `[`, its items separated by
/// commas, perhaps with one after the last, and `]`.
pub open spec fn spells_annotation(toks: Seq<Token>, file: SourceFile, us: Symbol, i: int, j: int, a: AstAnnotation) -> bool {
    &&& tok_at(toks, i) == Some(TokenKind::AddressOf)
    &&& tok_at(toks, i + 1) == Some(TokenKind::OpenSqr)
    &&& exists|bs: Seq<int>| bs.len() > 0 && bs[0] == i + 2 && #[trigger] items_between(toks, file, us, bs, j, a.items@)
}

/// The annotations `anns` stand one after the other between the marks `bs`,
/// annotation `k` spelled by tokens `bs[k]..bs[k + 1]`.
pub open spec fn annotations_between(toks: Seq<Token>, file: SourceFile, us: Symbol, bs: Seq<int>, anns: Seq<
    AstAnnotation,
>) -> bool {
    &&& bs.len() == anns.len() + 1
    &&& forall|k: int| #![trigger anns[k]] 0 <= k < anns.len() ==> spells_annotation(toks, file, us, bs[k], bs[k + 1], anns[k])
}

/// Tokens `i..j` spell the annotations `anns`, one after the other.
pub open spec fn spells_annotations(toks: Seq<Token>, file: SourceFile, us: Symbol, i: int, j: int, anns: Seq<
    AstAnnotation,
>) -> bool {
    exists|bs: Seq<int>|
        bs.len() > 0 && bs[0] == i && bs.last() == j && #[trigger] annotations_between(toks, file, us, bs, anns)
}

impl<'a> Parser<'a> {
    /// `name` or `name(Type, ...)` inside an annotation.
    pub fn parse_annotation_item(&mut self) -> (r: Result<AstAnnotationItem, ParseError>)
        requires
            old(self).wf(),
        ensures
            final(self).advanced_from(old(self)),
            !(old(self).next_kind() matches Some(TokenKind::Identifier(_))) ==> r is Err,
            r matches Ok(item) ==> {
                &&& old(self).position < final(self).position
                &&& old(self).next_kind() matches Some(TokenKind::Identifier(s)) && match item {
                    AstAnnotationItem::Flag(n) => n == s && old(self).at(old(self).position + 1)
                        != Some(TokenKind::OpenPar),
                    AstAnnotationItem::Call { name, .. } => name == s && old(self).at(
                        old(self).position + 1,
                    ) == Some(TokenKind::OpenPar),
                }
            },
            old(self).next_kind() matches Some(TokenKind::Identifier(n)) ==> (old(self).at(old(self).position
                + 1) != Some(TokenKind::OpenPar) ==> r == Ok::<AstAnnotationItem, ParseError>(
                AstAnnotationItem::Flag(n),
            ) && final(self).position == old(self).position + 1),
            old(self).next_kind() matches Some(TokenKind::Identifier(n)) ==> (old(self).at(old(self).position
                + 1) == Some(TokenKind::OpenPar) && old(self).at(old(self).position + 2) == Some(
                TokenKind::ClosePar,
            ) ==> (r matches Ok(AstAnnotationItem::Call { name, args }) && name == n && args@.len() == 0
                && final(self).position == old(self).position + 3)),
            old(self).next_kind() matches Some(TokenKind::Identifier(n)) ==> (old(self).at(old(self).position
                + 1) == Some(TokenKind::OpenPar) && old(self).paren_types_len(old(self).position + 2) > 0 ==> (
            r matches Ok(AstAnnotationItem::Call { name, args }) && name == n && args@.len() == old(
                self,
            ).paren_types_len(old(self).position + 2) && (forall|k: int|
                0 <= k < args@.len() ==> #[trigger] args@[k] is Type) && final(self).position == old(
                self,
            ).position + 2 + 2 * args@.len())),
            (old(self).next_kind() matches Some(TokenKind::Identifier(_))) && old(self).at(old(self).position + 1)
                == Some(TokenKind::OpenPar) ==> (old(self).after_types_bad(old(self).position + 2) matches Some(k)
                ==> (r matches Err(e) && e.kind == ParseErrorKind::ExpectedToken {
                expected: TokenKind::ClosePar,
                found: k,
            })),
            r matches Ok(item) ==> spells_ann_item(
                old(self).tokens@,
                old(self).file,
                old(self).known.underscore,
                old(self).position as int,
                final(self).position as int,
                item,
            ),
    {
        let ghost toks = old(self).tokens@;
        let ghost file = old(self).file;
        let ghost us = old(self).known.underscore;
        let ghost p0 = old(self).position as int;
        let name = self.parse_symbol()?.data;
        if self.peek_kind(0) != Some(TokenKind::OpenPar) {
            return Ok(AstAnnotationItem::Flag(name));
        }
        self.consume();
        let mut args: Vec<AstAnnotationArg> = Vec::new();
        let ghost mut bs: Seq<int> = seq![p0 + 2];
        let ghost mut tight: bool = false;
        loop
            invariant_except_break
                self.advanced_from(old(self)),
                old(self).position + 1 < self.position,
                old(self).next_kind() == Some(TokenKind::Identifier(name)),
                old(self).at(old(self).position + 1) == Some(TokenKind::OpenPar),
                old(self).at(old(self).position + 2) == Some(TokenKind::ClosePar) ==> self.position == old(
                    self,
                ).position + 2 && args@.len() == 0,
                old(self).paren_types_len(old(self).position + 2) > 0 ==> {
                    &&& old(self).paren_types_len(self.position as int) > 0
                    &&& old(self).paren_types_len(self.position as int) + args@.len() == old(self).paren_types_len(
                        old(self).position + 2,
                    )
                    &&& self.position == old(self).position + 2 + 2 * args@.len()
                    &&& forall|k: int| 0 <= k < args@.len() ==> #[trigger] args@[k] is Type
                },
                old(self).after_types_bad(old(self).position + 2) is Some ==> old(self).after_types_bad(
                    self.position as int,
                ) == old(self).after_types_bad(old(self).position + 2),
                toks == old(self).tokens@ && file == old(self).file && us == old(self).known.underscore,
                p0 == old(self).position,
                bs.len() == args@.len() + 1 && bs[0] == p0 + 2 && bs.last() == self.position,
                forall|k: int|
                    #![trigger args@[k]]
                    0 <= k < args@.len() ==> spells_arg(toks, file, us, bs[k], bs[k + 1] - 1, args@[k]) && tok_at(
                        toks,
                        bs[k + 1] - 1,
                    ) == Some(TokenKind::Comma),
                !tight,
            ensures
                self.advanced_from(old(self)),
                old(self).position + 1 < self.position,
                old(self).next_kind() == Some(TokenKind::Identifier(name)),
                old(self).at(old(self).position + 1) == Some(TokenKind::OpenPar),
                old(self).at(old(self).position + 2) == Some(TokenKind::ClosePar) ==> self.position == old(
                    self,
                ).position + 2 && args@.len() == 0,
                old(self).paren_types_len(old(self).position + 2) > 0 ==> {
                    &&& args@.len() == old(self).paren_types_len(old(self).position + 2)
                    &&& self.position == old(self).position + 1 + 2 * args@.len()
                    &&& old(self).at(self.position as int) == Some(TokenKind::ClosePar)
                    &&& forall|k: int| 0 <= k < args@.len() ==> #[trigger] args@[k] is Type
                },
                old(self).after_types_bad(old(self).position + 2) is Some ==> old(self).at(self.position as int)
                    == old(self).after_types_bad(old(self).position + 2) && old(self).at(self.position as int)
                    != Some(TokenKind::ClosePar),
                toks == old(self).tokens@ && file == old(self).file && us == old(self).known.underscore,
                p0 == old(self).position,
                bs.len() == args@.len() + 1 && bs[0] == p0 + 2,
                forall|k: int|
                    #![trigger args@[k]]
                    0 <= k < args@.len() ==> spells_arg(toks, file, us, bs[k], bs[k + 1] - 1, args@[k]) && (k
                        < args@.len() - 1 ==> tok_at(toks, bs[k + 1] - 1) == Some(TokenKind::Comma)),
                tight ==> args@.len() > 0 && bs.last() - 1 == self.position,
                !tight ==> bs.last() == self.position && (args@.len() == 0 || tok_at(toks, bs.last() - 1) == Some(
                    TokenKind::Comma,
                )),
            decreases self.remaining(),
        {
            proof {
                if args@.len() > 0 {
                    let last = args@.len() - 1;
                    assert(args@[last] == args@[last]);
                    assert(0 <= last < args@.len());
                    assert(spells_arg(toks, file, us, bs[last], bs[last + 1] - 1, args@[last]));
                    assert(tok_at(toks, bs[last + 1] - 1) == Some(TokenKind::Comma));
                    assert(bs[last + 1] == bs.last());
                    assert(tok_at(toks, bs.last() - 1) == Some(TokenKind::Comma));
                }
            }
            match self.peek_kind(0) {
                None | Some(TokenKind::ClosePar) => break,
                _ => {},
            }
            let ghost m0 = self.position as int;
            let ty = self.parse_type_expr()?;
            let ghost prev = args@;
            let ghost bs0 = bs;
            args.push(AstAnnotationArg::Type(ty));
            proof {
                bs = bs.push(self.position + 1);
                assert(spells_type(toks, file, us, m0, self.position as int, ty));
                assert(bs0.last() == m0);
                assert forall|k: int| 0 <= k < prev.len() implies #[trigger] args@[k] == prev[k] && bs[k] == bs0[k]
                    && bs[k + 1] == bs0[k + 1] by {}
            }
            match self.peek_kind(0) {
                Some(TokenKind::Comma) => {
                    self.consume();
                },
                _ => {
                    proof {
                        tight = true;
                    }
                    break;
                },
            }
        }
        self.expect(TokenKind::ClosePar)?;
        self.consume();
        proof {
            assert(args_between(toks, file, us, bs, self.position as int, args@));
        }
        Ok(AstAnnotationItem::Call { name, args })
    }

    /// `@[item, ...]`
    pub fn parse_annotation(&mut self) -> (r: Result<AstAnnotation, ParseError>)
        requires
            old(self).wf(),
        ensures
            final(self).advanced_from(old(self)),
            old(self).next_kind() != Some(TokenKind::AddressOf) ==> r is Err && final(self).position
                == old(self).position,
            r is Ok ==> old(self).position + 3 <= final(self).position,
            old(self).next_kind() == Some(TokenKind::AddressOf) && old(self).at(old(self).position + 1) == Some(
                TokenKind::OpenSqr,
            ) && old(self).at(old(self).position + 2) == Some(TokenKind::CloseSqr) ==> (r matches Ok(a)
                && a.items@.len() == 0 && final(self).position == old(self).position + 3),
            old(self).next_kind() == Some(TokenKind::AddressOf) && old(self).at(old(self).position + 1) == Some(
                TokenKind::OpenSqr,
            ) && old(self).flags_len(old(self).position + 2) > 0 ==> (r matches Ok(a) && a.items@.len()
                == old(self).flags_len(old(self).position + 2) && (forall|k: int|
                    #![trigger a.items@[k]]
                    0 <= k < a.items@.len() ==> (old(self).at(old(self).position + 2 + 2 * k) matches Some(
                        TokenKind::Identifier(n),
                    ) && a.items@[k] == AstAnnotationItem::Flag(n))) && final(self).position == old(
                self,
            ).position + 2 + 2 * a.items@.len()),
            r matches Ok(a) ==> spells_annotation(
                old(self).tokens@,
                old(self).file,
                old(self).known.underscore,
                old(self).position as int,
                final(self).position as int,
                a,
            ),
    {
        let ghost toks = old(self).tokens@;
        let ghost file = old(self).file;
        let ghost us = old(self).known.underscore;
        let ghost p0 = old(self).position as int;
        self.expect(TokenKind::AddressOf)?;
        self.consume();
        self.expect(TokenKind::OpenSqr)?;
        self.consume();
        let mut items: Vec<AstAnnotationItem> = Vec::new();
        let ghost mut bs: Seq<int> = seq![p0 + 2];
        let ghost mut tight: bool = false;
        loop
            invariant_except_break
                self.advanced_from(old(self)),
                old(self).position + 2 <= self.position,
                old(self).next_kind() == Some(TokenKind::AddressOf),
                old(self).at(old(self).position + 1) == Some(TokenKind::OpenSqr) && old(self).at(
                    old(self).position + 2,
                ) == Some(TokenKind::CloseSqr) ==> self.position == old(self).position + 2 && items@.len() == 0,
                old(self).at(old(self).position + 1) == Some(TokenKind::OpenSqr) && old(self).flags_len(
                    old(self).position + 2,
                ) > 0 ==> {
                    &&& old(self).flags_len(self.position as int) > 0
                    &&& old(self).flags_len(self.position as int) + items@.len() == old(self).flags_len(
                        old(self).position + 2,
                    )
                    &&& self.position == old(self).position + 2 + 2 * items@.len()
                    &&& forall|k: int|
                    #![trigger items@[k]]
                    0 <= k < items@.len() ==> (old(self).at(old(self).position + 2 + 2 * k) matches Some(
                        TokenKind::Identifier(n),
                    ) && items@[k] == AstAnnotationItem::Flag(n))
                },
                toks == old(self).tokens@ && file == old(self).file && us == old(self).known.underscore,
                p0 == old(self).position,
                bs.len() == items@.len() + 1 && bs[0] == p0 + 2 && bs.last() == self.position,
                forall|k: int|
                    #![trigger items@[k]]
                    0 <= k < items@.len() ==> spells_ann_item(toks, file, us, bs[k], bs[k + 1] - 1, items@[k])
                        && tok_at(toks, bs[k + 1] - 1) == Some(TokenKind::Comma),
                !tight,
            ensures
                self.advanced_from(old(self)),
                old(self).position + 2 <= self.position,
                old(self).next_kind() == Some(TokenKind::AddressOf),
                old(self).at(old(self).position + 1) == Some(TokenKind::OpenSqr) && old(self).at(
                    old(self).position + 2,
                ) == Some(TokenKind::CloseSqr) ==> self.position == old(self).position + 2 && items@.len()
                    == 0,
                old(self).at(old(self).position + 1) == Some(TokenKind::OpenSqr) && old(self).flags_len(
                    old(self).position + 2,
                ) > 0 ==> {
                    &&& items@.len() == old(self).flags_len(old(self).position + 2)
                    &&& self.position == old(self).position + 1 + 2 * items@.len()
                    &&& old(self).at(self.position as int) == Some(TokenKind::CloseSqr)
                    &&& forall|k: int|
                    #![trigger items@[k]]
                    0 <= k < items@.len() ==> (old(self).at(old(self).position + 2 + 2 * k) matches Some(
                        TokenKind::Identifier(n),
                    ) && items@[k] == AstAnnotationItem::Flag(n))
                },
                toks == old(self).tokens@ && file == old(self).file && us == old(self).known.underscore,
                p0 == old(self).position,
                bs.len() == items@.len() + 1 && bs[0] == p0 + 2,
                forall|k: int|
                    #![trigger items@[k]]
                    0 <= k < items@.len() ==> spells_ann_item(toks, file, us, bs[k], bs[k + 1] - 1, items@[k])
                        && (k < items@.len() - 1 ==> tok_at(toks, bs[k + 1] - 1) == Some(TokenKind::Comma)),
                tight ==> items@.len() > 0 && bs.last() - 1 == self.position,
                !tight ==> bs.last() == self.position && (items@.len() == 0 || tok_at(toks, bs.last() - 1) == Some(
                    TokenKind::Comma,
                )),
            decreases self.remaining(),
        {
            proof {
                if items@.len() > 0 {
                    let last = items@.len() - 1;
                    assert(0 <= last < items@.len());
                    assert(spells_ann_item(toks, file, us, bs[last], bs[last + 1] - 1, items@[last]));
                    assert(tok_at(toks, bs[last + 1] - 1) == Some(TokenKind::Comma));
                    assert(bs[last + 1] == bs.last());
                }
            }
            match self.peek_kind(0) {
                None | Some(TokenKind::CloseSqr) => break,
                _ => {},
            }
            let ghost prev = items@;
            let ghost m0 = self.position as int;
            let ghost bs0 = bs;
            let item = self.parse_annotation_item()?;
            items.push(item);
            proof {
                assert(items@.drop_last() == prev);
                bs = bs.push(self.position + 1);
                assert(spells_ann_item(toks, file, us, m0, self.position as int, item));
                assert(bs0.last() == m0);
                assert forall|k: int| 0 <= k < prev.len() implies #[trigger] items@[k] == prev[k] && bs[k] == bs0[k]
                    && bs[k + 1] == bs0[k + 1] by {}
            }
            match self.peek_kind(0) {
                Some(TokenKind::Comma) => self.consume(),
                _ => {
                    proof {
                        tight = true;
                    }
                    break;
                },
            }
        }
        self.expect(TokenKind::CloseSqr)?;
        self.consume();
        proof {
            assert(items_between(toks, file, us, bs, self.position as int, items@));
        }
        Ok(AstAnnotation { items })
    }

    /// Reads the annotations in front of an item and keeps them pending.
    pub fn collect_annotations(&mut self) -> (r: Result<(), ParseError>)
        requires
            old(self).wf(),
            old(self).annotations@.len() == 0,
        ensures
            final(self).wf(),
            final(self).same_input(old(self)),
            final(self).errors == old(self).errors,
            old(self).position <= final(self).position,
            r is Ok ==> final(self).next_kind() != Some(TokenKind::AddressOf),
            old(self).next_kind() != Some(TokenKind::AddressOf) ==> r is Ok && final(self).position
                == old(self).position,
            r is Ok ==> (final(self).annotations@.len() == 0 <==> final(self).position == old(
                self,
            ).position),
            old(self).flag_groups(old(self).position as int) >= 0 ==> {
                &&& r is Ok
                &&& final(self).annotations@.len() == old(self).flag_groups(old(self).position as int)
                &&& final(self).position == old(self).flag_group_start(
                    old(self).position as int,
                    final(self).annotations@.len(),
                )
                &&& forall|k: int|
                    0 <= k < final(self).annotations@.len() ==> old(self).flags_of(
                        old(self).flag_group_start(old(self).position as int, k as nat),
                        (#[trigger] final(self).annotations@[k]).items@,
                    )
            },
            r is Ok ==> spells_annotations(
                old(self).tokens@,
                old(self).file,
                old(self).known.underscore,
                old(self).position as int,
                final(self).position as int,
                final(self).annotations@,
            ),
    {
        let ghost toks = old(self).tokens@;
        let ghost file = old(self).file;
        let ghost us = old(self).known.underscore;
        let ghost mut bs: Seq<int> = seq![old(self).position as int];
        loop
            invariant_except_break
                toks == old(self).tokens@ && file == old(self).file && us == old(self).known.underscore,
                bs.len() == self.annotations@.len() + 1 && bs[0] == old(self).position && bs.last() == self.position,
                forall|k: int|
                    #![trigger self.annotations@[k]]
                    0 <= k < self.annotations@.len() ==> spells_annotation(toks, file, us, bs[k], bs[k + 1], self.annotations@[k]),
                self.wf(),
                self.same_input(old(self)),
                self.errors == old(self).errors,
                old(self).position <= self.position,
                self.annotations@.len() == 0 <==> self.position == old(self).position,
                old(self).next_kind() != Some(TokenKind::AddressOf) ==> self.position == old(
                    self,
                ).position,
                old(self).flag_groups(old(self).position as int) >= 0 ==> {
                    &&& old(self).flag_groups(self.position as int) >= 0
                    &&& old(self).flag_groups(self.position as int) + self.annotations@.len() == old(
                        self,
                    ).flag_groups(old(self).position as int)
                    &&& self.position == old(self).flag_group_start(
                        old(self).position as int,
                        self.annotations@.len(),
                    )
                    &&& forall|k: int|
                        0 <= k < self.annotations@.len() ==> old(self).flags_of(
                            old(self).flag_group_start(old(self).position as int, k as nat),
                            (#[trigger] self.annotations@[k]).items@,
                        )
                },
            ensures
                toks == old(self).tokens@ && file == old(self).file && us == old(self).known.underscore,
                bs.len() == self.annotations@.len() + 1 && bs[0] == old(self).position && bs.last() == self.position,
                forall|k: int|
                    #![trigger self.annotations@[k]]
                    0 <= k < self.annotations@.len() ==> spells_annotation(toks, file, us, bs[k], bs[k + 1], self.annotations@[k]),
                self.wf(),
                self.same_input(old(self)),
                self.errors == old(self).errors,
                old(self).position <= self.position,
                self.annotations@.len() == 0 <==> self.position == old(self).position,
                self.next_kind() != Some(TokenKind::AddressOf),
                old(self).next_kind() != Some(TokenKind::AddressOf) ==> self.position == old(
                    self,
                ).position,
                old(self).flag_groups(old(self).position as int) >= 0 ==> {
                    &&& old(self).flag_groups(self.position as int) >= 0
                    &&& old(self).flag_groups(self.position as int) + self.annotations@.len() == old(
                        self,
                    ).flag_groups(old(self).position as int)
                    &&& self.position == old(self).flag_group_start(
                        old(self).position as int,
                        self.annotations@.len(),
                    )
                    &&& forall|k: int|
                        0 <= k < self.annotations@.len() ==> old(self).flags_of(
                            old(self).flag_group_start(old(self).position as int, k as nat),
                            (#[trigger] self.annotations@[k]).items@,
                        )
                },
            decreases self.remaining(),
        {
            if self.peek_kind(0) != Some(TokenKind::AddressOf) {
                break;
            }
            proof {
                Self::lemma_flags_len_tokens(*old(self), *self, self.position + 2);
            }
            let ghost q = self.position as int;
            let ghost prev = self.annotations@;
            let ghost bs0 = bs;
            let annotation = self.parse_annotation()?;
            self.annotations.push(annotation);
            proof {
                bs = bs.push(self.position as int);
                assert(spells_annotation(toks, file, us, q, self.position as int, annotation));
                assert forall|k: int| 0 <= k < prev.len() implies #[trigger] self.annotations@[k] == prev[k]
                    && bs[k] == bs0[k] && bs[k + 1] == bs0[k + 1] by {}
            }
            proof {
                assert(self.annotations@.drop_last() == prev);
                if old(self).flag_groups(old(self).position as int) >= 0 {
                    assert(old(self).flag_group_start(old(self).position as int, (prev.len() + 1) as nat) == q
                        + old(self).flag_group_len(q));
                    assert(old(self).flags_of(q, self.annotations@[prev.len() as int].items@));
                    assert(old(self).flag_groups(q) == 1 + old(self).flag_groups(self.position as int));
                    assert(self.position == old(self).flag_group_start(
                        old(self).position as int,
                        self.annotations@.len(),
                    ));
                    assert forall|k: int| 0 <= k < self.annotations@.len() implies old(self).flags_of(
                        old(self).flag_group_start(old(self).position as int, k as nat),
                        (#[trigger] self.annotations@[k]).items@,
                    ) by {
                        if k < prev.len() {
                            assert(self.annotations@[k] == prev[k]);
                        }
                    }
                }
            }
        }
        proof {
            assert(annotations_between(toks, file, us, bs, self.annotations@));
        }
        Ok(())
    }

    /// `name: Type`
    pub fn parse_fundef_arg(&mut self) -> (r: Result<AstFundefArg, ParseError>)
        requires
            old(self).wf(),
        ensures
            final(self).advanced_from(old(self)),
            !(old(self).next_kind() matches Some(TokenKind::Identifier(_))) ==> r is Err,
            r matches Ok(a) ==> old(self).position < final(self).position && old(self).next_kind()
                == Some(TokenKind::Identifier(a.name)) && a.span == span_of(
                old(self).spec_start(),
                final(self).spec_end(),
            ),
            old(self).next_kind() matches Some(TokenKind::Identifier(n)) ==> (old(self).typed_name_at(
                old(self).position as int,
            ) ==> (r matches Ok(a) && a.name == n && final(self).position == old(self).position + 3)),
    {
        let start = self.get_start();
        let name = self.parse_symbol()?;
        self.expect(TokenKind::Colon)?;
        self.consume();
        let ty = self.parse_type_expr()?;
        let end = self.get_end();
        Ok(AstFundefArg { name: name.data, name_span: name.span, ty, span: start.span(end) })
    }

    /// Comma-separated arguments, up to a `)` or the `+` of a variadic.
    pub fn parse_fundef_args(&mut self) -> (r: Result<Vec<AstFundefArg>, ParseError>)
        requires
            old(self).wf(),
        ensures
            final(self).advanced_from(old(self)),
            r matches Ok(args) ==> (args@.len() == 0 <==> final(self).position == old(self).position),
            (old(self).next_kind() is None || old(self).next_kind() == Some(TokenKind::ClosePar)
                || old(self).next_kind() == Some(TokenKind::Plus)) ==> (r matches Ok(args)
                    && args@.len() == 0 && final(self).position == old(self).position),
            old(self).fundef_args_len(old(self).position as int) > 0 ==> (r matches Ok(args) && args@.len()
                == old(self).fundef_args_len(old(self).position as int)
                && (forall|k: int| #![trigger args@[k]] 0 <= k < args@.len()
                    ==> old(self).at(old(self).position + 4 * k) == Some(TokenKind::Identifier(args@[k].name)))
                && final(self).position == old(self).position + 4 * args@.len() - 1),
    {
        let mut res: Vec<AstFundefArg> = Vec::new();
        loop
            invariant_except_break
                self.advanced_from(old(self)),
                res@.len() == 0 <==> self.position == old(self).position,
                (old(self).next_kind() is None || old(self).next_kind() == Some(TokenKind::ClosePar)
                || old(self).next_kind() == Some(TokenKind::Plus)) ==> self.position == old(self).position,
                old(self).fundef_args_len(old(self).position as int) > 0 ==> {
                    &&& old(self).fundef_args_len(self.position as int) > 0
                    &&& old(self).fundef_args_len(self.position as int) + res@.len()
                        == old(self).fundef_args_len(old(self).position as int)
                    &&& self.position == old(self).position + 4 * res@.len()
                    &&& (forall|k: int| #![trigger res@[k]] 0 <= k < res@.len()
                        ==> old(self).at(old(self).position + 4 * k)
                            == Some(TokenKind::Identifier(res@[k].name)))
                },
            ensures
                self.advanced_from(old(self)),
                res@.len() == 0 <==> self.position == old(self).position,
                (old(self).next_kind() is None || old(self).next_kind() == Some(TokenKind::ClosePar)
                || old(self).next_kind() == Some(TokenKind::Plus)) ==> self.position == old(self).position,
                old(self).fundef_args_len(old(self).position as int) > 0 ==> {
                    &&& res@.len() == old(self).fundef_args_len(old(self).position as int)
                    &&& self.position == old(self).position + 4 * res@.len() - 1
                    &&& (forall|k: int| #![trigger res@[k]] 0 <= k < res@.len()
                        ==> old(self).at(old(self).position + 4 * k)
                            == Some(TokenKind::Identifier(res@[k].name)))
                },
            decreases self.remaining(),
        {
            match self.peek_kind(0) {
                None | Some(TokenKind::ClosePar) | Some(TokenKind::Plus) => break,
                _ => {},
            }
            let ghost prev = res@;
            let x = self.parse_fundef_arg()?;
            res.push(x);
            proof {
                assert(res@.drop_last() == prev);
            }
            match self.peek_kind(0) {
                Some(TokenKind::Comma) => self.consume(),
                _ => break,
            }
        }
        Ok(res)
    }

    /// `T` or `T: A + B` in a template argument list.
    pub fn parse_template_arg(&mut self) -> (r: Result<AstTemplateArg, ParseError>)
        requires
            old(self).wf(),
        ensures
            final(self).advanced_from(old(self)),
            !(old(self).next_kind() matches Some(TokenKind::Identifier(_))) ==> r is Err,
            r matches Ok(a) ==> old(self).position < final(self).position && old(self).next_kind()
                == Some(TokenKind::Identifier(a.name)) && (a.constraints@.len() > 0 <==> old(self).at(
                old(self).position + 1,
            ) == Some(TokenKind::Colon)),
            (old(self).next_kind() matches Some(TokenKind::Identifier(_)))
                && old(self).at(old(self).position + 1)
                != Some(TokenKind::Colon) ==> (r matches Ok(a) && a.constraints@.len() == 0
                    && final(self).position
                == old(self).position + 1),
            (old(self).next_kind() matches Some(TokenKind::Identifier(_)))
                && old(self).at(old(self).position + 1)
                == Some(TokenKind::Colon) && old(self).simple_type_at(old(self).position + 2) && old(self).at(
                old(self).position + 3,
            ) != Some(TokenKind::Plus) ==> (r matches Ok(a) && a.constraints@.len() == 1 && final(self).position
                == old(self).position + 3),
    {
        let start = self.get_start();
        let name = self.parse_symbol()?;
        let constraints = if self.peek_kind(0) == Some(TokenKind::Colon) {
            self.consume();
            let mut args: Vec<AstTypeExpr> = Vec::new();
            loop
                invariant_except_break
                    self.advanced_from(old(self)),
                    old(self).position + 2 <= self.position,
                    old(self).simple_type_at(old(self).position + 2) && old(self).at(old(self).position + 3)
                        != Some(TokenKind::Plus) ==> self.position == old(self).position + 2
                            && args@.len() == 0,
                    old(self).at(old(self).position + 1) == Some(TokenKind::Colon),
                ensures
                    self.advanced_from(old(self)),
                    old(self).position + 2 <= self.position,
                    old(self).simple_type_at(old(self).position + 2) && old(self).at(old(self).position + 3)
                        != Some(TokenKind::Plus) ==> self.position == old(self).position + 3
                            && args@.len() == 1,
                decreases self.remaining(),
            {
                match self.peek_kind(0) {
                    None | Some(TokenKind::Comma) => break,
                    _ => {},
                }
                args.push(self.parse_type_expr()?);
                match self.peek_kind(0) {
                    Some(TokenKind::Plus) => self.consume(),
                    _ => break,
                }
            }
            if args.len() == 0 {
                // A `:` with no constraint after it: report what stands there.
                let bad = self.parse_type_expr()?;
                args.push(bad);
            }
            args
        } else {
            Vec::new()
        };
        let end = self.get_end();
        Ok(
            AstTemplateArg {
                name: name.data,
                name_span: name.span,
                constraints,
                span: start.span(end),
            },
        )
    }

    /// Comma-separated template arguments, up to (not including) a `>`.
    pub fn parse_template_args(&mut self) -> (r: Result<Vec<AstTemplateArg>, ParseError>)
        requires
            old(self).wf(),
        ensures
            final(self).advanced_from(old(self)),
            r matches Ok(args) ==> (args@.len() == 0 <==> final(self).position == old(self).position),
            (old(self).next_kind() is None || old(self).next_kind() == Some(TokenKind::Gt))
                ==> (r matches Ok(args) && args@.len() == 0 && final(self).position == old(self).position),
            old(self).template_args_len(old(self).position as int) > 0 ==> (r matches Ok(args) && args@.len()
                == old(self).template_args_len(old(self).position as int)
                && (forall|k: int| #![trigger args@[k]] 0 <= k < args@.len()
                    ==> old(self).at(old(self).position + 2 * k)
                        == Some(TokenKind::Identifier(args@[k].name)) && args@[k].constraints@.len() == 0)
                && final(self).position == old(self).position + 2 * args@.len() - 1),
    {
        let mut res: Vec<AstTemplateArg> = Vec::new();
        loop
            invariant_except_break
                self.advanced_from(old(self)),
                res@.len() == 0 <==> self.position == old(self).position,
                (old(self).next_kind() is None || old(self).next_kind() == Some(TokenKind::Gt))
                    ==> self.position == old(self).position,
                old(self).template_args_len(old(self).position as int) > 0 ==> {
                    &&& old(self).template_args_len(self.position as int) > 0
                    &&& old(self).template_args_len(self.position as int) + res@.len()
                        == old(self).template_args_len(old(self).position as int)
                    &&& self.position == old(self).position + 2 * res@.len()
                    &&& (forall|k: int| #![trigger res@[k]] 0 <= k < res@.len()
                        ==> old(self).at(old(self).position + 2 * k)
                            == Some(TokenKind::Identifier(res@[k].name)) && res@[k].constraints@.len() == 0)
                },
            ensures
                self.advanced_from(old(self)),
                res@.len() == 0 <==> self.position == old(self).position,
                (old(self).next_kind() is None || old(self).next_kind() == Some(TokenKind::Gt))
                    ==> self.position == old(self).position,
                old(self).template_args_len(old(self).position as int) > 0 ==> {
                    &&& res@.len() == old(self).template_args_len(old(self).position as int)
                    &&& self.position == old(self).position + 2 * res@.len() - 1
                    &&& (forall|k: int| #![trigger res@[k]] 0 <= k < res@.len()
                        ==> old(self).at(old(self).position + 2 * k)
                            == Some(TokenKind::Identifier(res@[k].name)) && res@[k].constraints@.len() == 0)
                },
            decreases self.remaining(),
        {
            match self.peek_kind(0) {
                None | Some(TokenKind::Gt) => break,
                _ => {},
            }
            let ghost prev = res@;
            let x = self.parse_template_arg()?;
            res.push(x);
            proof {
                assert(res@.drop_last() == prev);
            }
            match self.peek_kind(0) {
                Some(TokenKind::Comma) => self.consume(),
                _ => break,
            }
        }
        Ok(res)
    }

    /// `<template args>` if a `<` follows, else none.
    pub fn parse_optional_template_args(&mut self) -> (r: Result<Vec<AstTemplateArg>, ParseError>)
        requires
            old(self).wf(),
        ensures
            final(self).advanced_from(old(self)),
            old(self).next_kind() != Some(TokenKind::Lt) ==> (r matches Ok(args) && args@.len() == 0
                && final(self).position == old(self).position),
            old(self).next_kind() == Some(TokenKind::Lt) ==> (r is Ok ==> old(self).position + 2
                <= final(self).position),
            old(self).next_kind() == Some(TokenKind::Lt) && old(self).at(old(self).position + 1) == Some(
                TokenKind::Gt,
            ) ==> (r matches Ok(args) && args@.len() == 0 && final(self).position == old(self).position + 2),
            old(self).next_kind() == Some(TokenKind::Lt) && (old(self).at(old(self).position + 1) matches Some(
                TokenKind::Identifier(_),
            )) && old(self).at(old(self).position + 2) == Some(TokenKind::Gt) ==> (r matches Ok(args)
                && args@.len() == 1 && final(self).position == old(self).position + 3),
    {
        if self.peek_kind(0) == Some(TokenKind::Lt) {
            self.consume();
            let args = self.parse_template_args()?;
            self.expect(TokenKind::Gt)?;
            self.consume();
            Ok(args)
        } else {
            Ok(Vec::new())
        }
    }

    /// The identifier `self`, consumed.
    pub fn expect_self(&mut self) -> (r: Result<(), ParseError>)
        requires
            old(self).wf(),
        ensures
            final(self).advanced_from(old(self)),
            r is Ok <==> old(self).next_kind() == Some(TokenKind::Identifier(old(self).known.zelf)),
            r is Ok ==> final(self).position == old(self).position + 1,
            r is Err ==> final(self).position == old(self).position,
            r matches Err(e) ==> match old(self).next_kind() {
                None => e == old(self).error_here(ParseErrorKind::UnexpectedEOF),
                Some(found) => e == old(self).error_here(
                    ParseErrorKind::ExpectedToken {
                        expected: TokenKind::Identifier(old(self).known.zelf),
                        found,
                    },
                ),
            },
    {
        let zelf = self.known.zelf;
        let t = match self.peek_kind(0) {
            Some(k) => k,
            None => return Err(self.parse_error(ParseErrorKind::UnexpectedEOF)),
        };
        if t != TokenKind::Identifier(zelf) {
            return Err(
                self.parse_error(
                    ParseErrorKind::ExpectedToken { expected: TokenKind::Identifier(zelf), found: t },
                ),
            );
        }
        self.consume();
        Ok(())
    }

    /// `self`, `mut self`, `&self`, `&mut self`, `*self` or `*mut self`.
    pub fn parse_receiver_aux(&mut self) -> (r: Result<AstReceiver, ParseError>)
        requires
            old(self).wf(),
        ensures
            final(self).advanced_from(old(self)),
            r matches Ok(rcv) ==> old(self).position < final(self).position && match old(
                self,
            ).next_kind() {
                Some(TokenKind::Mut) => rcv is MutZelf,
                Some(TokenKind::BitAnd) => rcv is RefZelf || rcv is MutRefZelf,
                Some(TokenKind::Mult) => rcv is PtrZelf || rcv is MutPtrZelf,
                Some(TokenKind::Identifier(s)) => s == old(self).known.zelf && rcv is Zelf,
                _ => false,
            },
            r is Ok <==> old(self).receiver_len(old(self).position as int) > 0,
            r matches Ok(rcv) ==> final(self).position == old(self).position + old(self).receiver_len(
                old(self).position as int,
            ) && receiver_shape(
                old(self).tokens@[old(self).position as int].kind,
                old(self).at(old(self).position + 1),
                rcv,
            ),
    {
        let start = self.get_start();
        let zelf = self.known.zelf;
        let t = match self.peek_kind(0) {
            Some(k) => k,
            None => return Err(self.parse_error(ParseErrorKind::UnexpectedEOF)),
        };
        match t {
            TokenKind::Mut => {
                self.consume();
                self.expect_self()?;
                Ok(AstReceiver::MutZelf(start.span(self.get_end())))
            },
            TokenKind::BitAnd => {
                self.consume();
                if self.peek_kind(0) == Some(TokenKind::Mut) {
                    self.consume();
                    self.expect_self()?;
                    Ok(AstReceiver::MutRefZelf(start.span(self.get_end())))
                } else {
                    self.expect_self()?;
                    Ok(AstReceiver::RefZelf(start.span(self.get_end())))
                }
            },
            TokenKind::Mult => {
                self.consume();
                if self.peek_kind(0) == Some(TokenKind::Mut) {
                    self.consume();
                    self.expect_self()?;
                    Ok(AstReceiver::MutPtrZelf(start.span(self.get_end())))
                } else {
                    self.expect_self()?;
                    Ok(AstReceiver::PtrZelf(start.span(self.get_end())))
                }
            },
            _ => {
                if t == TokenKind::Identifier(zelf) {
                    self.consume();
                    Ok(AstReceiver::Zelf(start.span(self.get_end())))
                } else {
                    Err(
                        self.parse_error(
                            ParseErrorKind::ExpectedToken {
                                expected: TokenKind::Identifier(zelf),
                                found: t,
                            },
                        ),
                    )
                }
            },
        }
    }

    /// A receiver if one stands here; otherwise nothing is consumed and the
    /// method is static.
    pub fn parse_receiver(&mut self) -> (r: AstReceiver)
        requires
            old(self).wf(),
        ensures
            final(self).advanced_from(old(self)),
            r is NoReceiver ==> final(self).position == old(self).position,
            !(r is NoReceiver) ==> old(self).position < final(self).position,
            old(self).receiver_len(old(self).position as int) == 0 ==> r is NoReceiver,
            old(self).receiver_len(old(self).position as int) > 0 ==> final(self).position == old(self).position
                + old(self).receiver_len(old(self).position as int) && receiver_shape(
                old(self).tokens@[old(self).position as int].kind,
                old(self).at(old(self).position + 1),
                r,
            ),
    {
        let saved = self.position;
        match self.parse_receiver_aux() {
            Ok(rcv) => rcv,
            Err(_) => {
                self.position = saved;
                AstReceiver::NoReceiver
            },
        }
    }
}


impl<'a> Parser<'a> {
    /// `name<templates>(receiver?, args, +?): Type`. The pending annotations
    /// are taken and given to the signature.
    pub fn parse_any_funsig(&mut self, accept_receiver: bool, can_be_variadic: bool) -> (r: Result<
        (AstFunsig, Option<AstReceiver>, bool),
        ParseError,
    >)
        requires
            old(self).wf(),
            !(accept_receiver && can_be_variadic),
        ensures
            final(self).moved_from(old(self)),
            final(self).annotations@.len() == 0,
            !(old(self).next_kind() matches Some(TokenKind::Identifier(_))) ==> r is Err,
            r matches Ok((sig, rcv, variadic)) ==> {
                &&& old(self).position < final(self).position
                &&& old(self).next_kind() == Some(TokenKind::Identifier(sig.data.name.data))
                &&& sig.annotations == old(self).annotations
                &&& (rcv is Some <==> accept_receiver)
                &&& (variadic ==> can_be_variadic)
            },
            old(self).simple_sig_at(old(self).position as int, accept_receiver) ==> (r matches Ok(
                (sig, rcv, variadic),
            ) && !variadic && sig.data.args@.len() == 0 && sig.data.template_args@.len() == 0
                && (accept_receiver ==> (rcv matches Some(x) && x is Zelf))
                    && final(self).position == old(self).position + 5 + (if accept_receiver {
                1int
            } else {
                0int
            })),
    {
        let annotations = self.annotations();
        let start = self.get_start();
        let name = self.parse_symbol()?;
        let template_args = if self.peek_kind(0) == Some(TokenKind::Lt) {
            self.consume();
            let templates = self.parse_template_args()?;
            self.expect(TokenKind::Gt)?;
            self.consume();
            templates
        } else {
            Vec::new()
        };
        self.expect(TokenKind::OpenPar)?;
        self.consume();
        let mut has_args = true;
        let receiver = if accept_receiver {
            let rcv = self.parse_receiver();
            if self.peek_kind(0) == Some(TokenKind::Comma) {
                self.consume();
            } else if !rcv.is_static() {
                has_args = false;
            }
            Some(rcv)
        } else {
            None
        };
        let args = if has_args {
            self.parse_fundef_args()?
        } else {
            Vec::new()
        };
        let variadic = if can_be_variadic && self.peek_kind(0) == Some(TokenKind::Plus) {
            self.consume();
            true
        } else {
            false
        };
        self.expect(TokenKind::ClosePar)?;
        self.consume();
        self.expect(TokenKind::Colon)?;
        self.consume();
        let return_type = self.parse_type_expr()?;
        let end = self.get_end();
        Ok(
            (
                Annotated::new(
                    AstFunsigDesc { name, args, template_args, return_type },
                    annotations,
                    start.span(end),
                ),
                receiver,
                variadic,
            ),
        )
    }

    /// A function signature, possibly variadic.
    pub fn parse_funsig(&mut self, can_be_variadic: bool) -> (r: Result<(AstFunsig, bool), ParseError>)
        requires
            old(self).wf(),
        ensures
            final(self).moved_from(old(self)),
            final(self).annotations@.len() == 0,
            !(old(self).next_kind() matches Some(TokenKind::Identifier(_))) ==> r is Err,
            r matches Ok((sig, variadic)) ==> {
                &&& old(self).position < final(self).position
                &&& old(self).next_kind() == Some(TokenKind::Identifier(sig.data.name.data))
                &&& sig.annotations == old(self).annotations
                &&& (variadic ==> can_be_variadic)
            },
            old(self).simple_sig_at(old(self).position as int, false) ==> (r matches Ok((sig, variadic))
                && !variadic && sig.data.args@.len() == 0 && final(self).position == old(self).position + 5),
    {
        let (sig, _, var) = self.parse_any_funsig(false, can_be_variadic)?;
        Ok((sig, var))
    }

    /// A method signature: a function signature with a receiver.
    pub fn parse_methodsig(&mut self) -> (r: Result<AstMethodsig, ParseError>)
        requires
            old(self).wf(),
        ensures
            final(self).moved_from(old(self)),
            final(self).annotations@.len() == 0,
            !(old(self).next_kind() matches Some(TokenKind::Identifier(_))) ==> r is Err,
            r matches Ok(sig) ==> {
                &&& old(self).position < final(self).position
                &&& old(self).next_kind() == Some(TokenKind::Identifier(sig.data.name.data))
                &&& sig.annotations == old(self).annotations
            },
            old(self).simple_sig_at(old(self).position as int, true) ==> (r matches Ok(sig)
                && sig.data.args@.len()
                == 0 && sig.data.receiver is Zelf && final(self).position == old(self).position + 6),
    {
        let (sig, receiver, _) = self.parse_any_funsig(true, false)?;
        let receiver = receiver.unwrap();
        let Annotated { data, annotations, span } = sig;
        let AstFunsigDesc { name, args, template_args, return_type } = data;
        Ok(
            Annotated::new(
                AstMethodsigDesc { name, receiver, args, template_args, return_type },
                annotations,
                span,
            ),
        )
    }

    /// `fun name(receiver, args): Type { body }`
    pub fn parse_methoddef(&mut self) -> (r: Result<AstMethodDef, ParseError>)
        requires
            old(self).wf(),
        ensures
            final(self).moved_from(old(self)),
            old(self).annotations@.len() == 0 ==> final(self).annotations@.len() == 0,
            old(self).next_kind() != Some(TokenKind::Fun) ==> r is Err && final(self).position
                == old(self).position,
            r matches Ok(m) ==> old(self).position < final(self).position && final(self).annotations@.len()
                == 0 && m.annotations == old(self).annotations,
            old(self).simple_methoddef_at(old(self).position as int) ==> (r matches Ok(m)
                && m.data.receiver is Zelf
                && m.data.args@.len() == 0 && m.data.body@.len() == old(self).body_count(old(self).position + 8)
                && final(self).position == old(self).body_end(old(self).position + 8) + 1),
    {
        let start = self.get_start();
        self.expect(TokenKind::Fun)?;
        self.consume();
        let sig = self.parse_methodsig()?;
        let Annotated { data, annotations, span: _ } = sig;
        let AstMethodsigDesc { name, receiver, args, template_args, return_type } = data;
        let body_start = self.get_start();
        proof {
            Self::lemma_body_tokens(*old(self), *self, old(self).position + 8);
        }
        let body = self.parse_block()?;
        let end = self.get_end();
        let body_span = body_start.span(end);
        let span = start.span(end);
        Ok(
            Annotated::new(
                AstMethodDefDesc { name, receiver, args, template_args, return_type, body_span, body },
                annotations,
                span,
            ),
        )
    }

    /// `fun name(args): Type { body }`
    pub fn parse_fundef(&mut self) -> (r: Result<AstFundef, ParseError>)
        requires
            old(self).wf(),
        ensures
            final(self).moved_from(old(self)),
            old(self).annotations@.len() == 0 ==> final(self).annotations@.len() == 0,
            old(self).next_kind() != Some(TokenKind::Fun) ==> r is Err && final(self).position
                == old(self).position,
            r matches Ok(f) ==> old(self).position < final(self).position && final(self).annotations@.len()
                == 0 && f.annotations == old(self).annotations,
            old(self).simple_fundef_at(old(self).position as int) ==> (r matches Ok(f)
                && f.data.args@.len() == 0
                && f.data.body@.len() == old(self).body_count(old(self).position + 7)
                && final(self).position == old(self).body_end(old(self).position + 7) + 1),
    {
        let start = self.get_start();
        self.expect(TokenKind::Fun)?;
        self.consume();
        let (sig, _) = self.parse_funsig(false)?;
        let Annotated { data, annotations, span: _ } = sig;
        let AstFunsigDesc { name, args, template_args, return_type } = data;
        let body_start = self.get_start();
        proof {
            Self::lemma_body_tokens(*old(self), *self, old(self).position + 7);
        }
        let body = self.parse_block()?;
        let end = self.get_end();
        let body_span = body_start.span(end);
        let span = start.span(end);
        Ok(
            Annotated::new(
                AstFundefDesc { name, args, template_args, return_type, body_span, body },
                annotations,
                span,
            ),
        )
    }

    /// `type Name = Type;` or a method, with its annotations, inside an impl.
    pub fn parse_impl_item(&mut self) -> (r: Result<AstImplItem, ParseError>)
        requires
            old(self).wf(),
            old(self).annotations@.len() == 0,
        ensures
            final(self).moved_from(old(self)),
            r is Ok ==> old(self).position < final(self).position && final(self).annotations@.len() == 0,
            old(self).next_kind() == Some(TokenKind::Type)
                && (old(self).at(old(self).position + 1) matches Some(
                TokenKind::Identifier(_),
            )) && old(self).at(old(self).position + 2) == Some(TokenKind::Eq) && old(self).simple_type_at(
                old(self).position + 3,
            ) && old(self).at(old(self).position + 4) == Some(TokenKind::Semicolon) ==> (r matches Ok(item)
                && item is Type && final(self).position == old(self).position + 5),
            old(self).simple_methoddef_at(old(self).position as int) ==> (r matches Ok(item) && item is Fundef
                && final(self).position == old(self).body_end(old(self).position + 8) + 1),
    {
        self.collect_annotations()?;
        let annotations = self.annotations();
        let tok = *self.current_token()?;
        match tok.kind {
            TokenKind::Type => {
                self.consume();
                let name = self.parse_symbol()?;
                self.expect(TokenKind::Eq)?;
                self.consume();
                let ty = self.parse_type_expr()?;
                self.expect(TokenKind::Semicolon)?;
                self.consume();
                Ok(AstImplItem::Type { name: name.data, name_span: name.span, ty })
            },
            TokenKind::Fun => {
                proof {
                    Self::lemma_body_tokens(*old(self), *self, old(self).position + 8);
                }
                let mut fdef = self.parse_methoddef()?;
                fdef.annotations = annotations;
                Ok(AstImplItem::Fundef(Box::new(fdef)))
            },
            found => Err(
                self.parse_error(ParseErrorKind::ExpectedToken { expected: TokenKind::Fun, found }),
            ),
        }
    }

    /// `impl<templates> Interface for Type { items }` or `impl<templates> Type { items }`.
    pub fn parse_impl_block(&mut self) -> (r: Result<AstImplBlock, ParseError>)
        requires
            old(self).wf(),
            old(self).annotations@.len() == 0,
        ensures
            final(self).moved_from(old(self)),
            old(self).next_kind() != Some(TokenKind::Impl) ==> r is Err && final(self).position
                == old(self).position,
            r is Ok ==> old(self).position < final(self).position && final(self).annotations@.len() == 0,
            old(self).next_kind() == Some(TokenKind::Impl) && old(self).simple_type_at(old(self).position + 1)
                && old(self).empty_block_at(old(self).position + 2) ==> (r matches Ok(b) && b.interface is None
                && b.template_args@.len() == 0 && b.items@.len() == 0
                    && final(self).position == old(self).position
                + 4),
            old(self).next_kind() == Some(TokenKind::Impl) && old(self).simple_type_at(old(self).position + 1)
                && old(self).at(old(self).position + 2) == Some(TokenKind::For) && old(self).simple_type_at(
                old(self).position + 3,
            ) && old(self).empty_block_at(old(self).position + 4) ==> (r matches Ok(b) && b.interface is Some
                && b.items@.len() == 0 && final(self).position == old(self).position + 6),
    {
        let start = self.get_start();
        self.expect(TokenKind::Impl)?;
        self.consume();
        let template_args = self.parse_optional_template_args()?;
        let first_ty = self.parse_type_expr()?;
        let (interface, implemented) = if self.peek_kind(0) == Some(TokenKind::For) {
            self.consume();
            let implemented = self.parse_type_expr()?;
            (Some(first_ty), implemented)
        } else {
            (None, first_ty)
        };
        self.expect(TokenKind::OpenBra)?;
        self.consume();
        let mut items: Vec<AstImplItem> = Vec::new();
        loop
            invariant_except_break
                self.moved_from(old(self)),
                old(self).position < self.position,
                self.annotations@.len() == 0,
                old(self).next_kind() == Some(TokenKind::Impl),
                old(self).simple_type_at(old(self).position + 1)
                    && old(self).empty_block_at(old(self).position + 2)
                    ==> self.position == old(self).position + 3 && items@.len() == 0,
                old(self).simple_type_at(old(self).position + 1)
                    && old(self).at(old(self).position + 2) == Some(
                    TokenKind::For,
                ) && old(self).simple_type_at(old(self).position + 3) && old(self).empty_block_at(
                    old(self).position + 4,
                ) ==> self.position == old(self).position + 5 && items@.len() == 0,
            ensures
                self.moved_from(old(self)),
                old(self).position < self.position,
                self.annotations@.len() == 0,
                old(self).next_kind() == Some(TokenKind::Impl),
                old(self).simple_type_at(old(self).position + 1)
                    && old(self).empty_block_at(old(self).position + 2)
                    ==> self.position == old(self).position + 3 && items@.len() == 0,
                old(self).simple_type_at(old(self).position + 1)
                    && old(self).at(old(self).position + 2) == Some(
                    TokenKind::For,
                ) && old(self).simple_type_at(old(self).position + 3) && old(self).empty_block_at(
                    old(self).position + 4,
                ) ==> self.position == old(self).position + 5 && items@.len() == 0,
            decreases self.remaining(),
        {
            match self.peek_kind(0) {
                None | Some(TokenKind::CloseBra) => break,
                _ => {},
            }
            items.push(self.parse_impl_item()?);
        }
        self.expect(TokenKind::CloseBra)?;
        self.consume();
        let span = start.span(self.get_end());
        Ok(AstImplBlock { template_args, interface, implemented, items, span })
    }

    /// `name: Type` inside a struct or a struct-like variant.
    pub fn parse_struct_def_field(&mut self) -> (r: Result<AstStructDefField, ParseError>)
        requires
            old(self).wf(),
        ensures
            final(self).advanced_from(old(self)),
            !(old(self).next_kind() matches Some(TokenKind::Identifier(_))) ==> r is Err,
            r matches Ok(f) ==> old(self).position < final(self).position && old(self).next_kind()
                == Some(TokenKind::Identifier(f.name)),
            old(self).next_kind() matches Some(TokenKind::Identifier(n)) ==> (old(self).typed_name_at(
                old(self).position as int,
            ) ==> (r matches Ok(f) && f.name == n && final(self).position == old(self).position + 3)),
            r matches Ok(f) ==> spells_field(
                old(self).tokens@,
                old(self).file,
                old(self).known.underscore,
                old(self).position as int,
                final(self).position as int,
                f,
            ),
    {
        let start = self.get_start();
        let name = self.parse_symbol()?.data;
        self.expect(TokenKind::Colon)?;
        self.consume();
        let ty = self.parse_type_expr()?;
        let end = self.get_end();
        Ok(AstStructDefField { name, ty, span: start.span(end) })
    }

    /// `;`-separated fields, up to (not including) a `}`.
    pub fn parse_struct_def_fields(&mut self) -> (r: Result<Vec<AstStructDefField>, ParseError>)
        requires
            old(self).wf(),
        ensures
            final(self).advanced_from(old(self)),
            r matches Ok(fs) ==> (fs@.len() == 0 <==> final(self).position == old(self).position),
            (old(self).next_kind() is None || old(self).next_kind() == Some(TokenKind::CloseBra))
                ==> (r matches Ok(fs) && fs@.len() == 0 && final(self).position == old(self).position),
            old(self).struct_def_fields_len(old(self).position as int) > 0 ==> (r matches Ok(fs) && fs@.len()
                == old(self).struct_def_fields_len(old(self).position as int)
                && (forall|k: int| #![trigger fs@[k]] 0 <= k < fs@.len()
                    ==> old(self).at(old(self).position + 4 * k) == Some(TokenKind::Identifier(fs@[k].name)))
                && final(self).position == old(self).position + 4 * fs@.len() - 1
                && old(self).at(final(self).position as int) == Some(TokenKind::CloseBra)),
            r matches Ok(fs) ==> spells_fields(
                old(self).tokens@,
                old(self).file,
                old(self).known.underscore,
                old(self).position as int,
                final(self).position as int,
                fs@,
            ),
    {
        let ghost toks = old(self).tokens@;
        let ghost file = old(self).file;
        let ghost us = old(self).known.underscore;
        let ghost p0 = old(self).position as int;
        let ghost mut bs: Seq<int> = seq![p0];
        let ghost mut tight: bool = false;
        let mut res: Vec<AstStructDefField> = Vec::new();
        loop
            invariant_except_break
                self.advanced_from(old(self)),
                res@.len() == 0 <==> self.position == old(self).position,
                (old(self).next_kind() is None || old(self).next_kind() == Some(TokenKind::CloseBra))
                    ==> self.position == old(self).position,
                old(self).struct_def_fields_len(old(self).position as int) > 0 ==> {
                    &&& old(self).struct_def_fields_len(self.position as int) > 0
                    &&& old(self).struct_def_fields_len(self.position as int) + res@.len()
                        == old(self).struct_def_fields_len(old(self).position as int)
                    &&& self.position == old(self).position + 4 * res@.len()
                    &&& (forall|k: int| #![trigger res@[k]] 0 <= k < res@.len()
                        ==> old(self).at(old(self).position + 4 * k)
                            == Some(TokenKind::Identifier(res@[k].name)))
                },
                toks == old(self).tokens@ && file == old(self).file && us == old(self).known.underscore,
                p0 == old(self).position,
                bs.len() == res@.len() + 1 && bs[0] == p0 && bs.last() == self.position,
                forall|k: int|
                    #![trigger res@[k]]
                    0 <= k < res@.len() ==> spells_field(toks, file, us, bs[k], bs[k + 1] - 1, res@[k]) && tok_at(
                        toks,
                        bs[k + 1] - 1,
                    ) == Some(TokenKind::Semicolon),
                !tight,
            ensures
                self.advanced_from(old(self)),
                res@.len() == 0 <==> self.position == old(self).position,
                (old(self).next_kind() is None || old(self).next_kind() == Some(TokenKind::CloseBra))
                    ==> self.position == old(self).position,
                old(self).struct_def_fields_len(old(self).position as int) > 0 ==> {
                    &&& res@.len() == old(self).struct_def_fields_len(old(self).position as int)
                    &&& self.position == old(self).position + 4 * res@.len() - 1
                    &&& old(self).at(self.position as int) == Some(TokenKind::CloseBra)
                    &&& (forall|k: int| #![trigger res@[k]] 0 <= k < res@.len()
                        ==> old(self).at(old(self).position + 4 * k)
                            == Some(TokenKind::Identifier(res@[k].name)))
                },
                toks == old(self).tokens@ && file == old(self).file && us == old(self).known.underscore,
                p0 == old(self).position,
                bs.len() == res@.len() + 1 && bs[0] == p0,
                forall|k: int|
                    #![trigger res@[k]]
                    0 <= k < res@.len() ==> spells_field(toks, file, us, bs[k], bs[k + 1] - 1, res@[k]) && (k
                        < res@.len() - 1 ==> tok_at(toks, bs[k + 1] - 1) == Some(TokenKind::Semicolon)),
                tight ==> res@.len() > 0 && bs.last() - 1 == self.position,
                !tight ==> bs.last() == self.position && (res@.len() == 0 || tok_at(toks, bs.last() - 1) == Some(
                    TokenKind::Semicolon,
                )),
            decreases self.remaining(),
        {
            proof {
                if res@.len() > 0 {
                    let last = res@.len() - 1;
                    assert(0 <= last < res@.len());
                    assert(spells_field(toks, file, us, bs[last], bs[last + 1] - 1, res@[last]));
                    assert(tok_at(toks, bs[last + 1] - 1) == Some(TokenKind::Semicolon));
                    assert(bs[last + 1] == bs.last());
                }
            }
            match self.peek_kind(0) {
                None | Some(TokenKind::CloseBra) => break,
                _ => {},
            }
            let ghost prev = res@;
            let ghost m0 = self.position as int;
            let ghost bs0 = bs;
            let x = self.parse_struct_def_field()?;
            res.push(x);
            proof {
                assert(res@.drop_last() == prev);
                bs = bs.push(self.position + 1);
                assert(spells_field(toks, file, us, m0, self.position as int, x));
                assert(bs0.last() == m0);
                assert forall|k: int| 0 <= k < prev.len() implies #[trigger] res@[k] == prev[k] && bs[k] == bs0[k]
                    && bs[k + 1] == bs0[k + 1] by {}
            }
            match self.peek_kind(0) {
                Some(TokenKind::Semicolon) => self.consume(),
                _ => {
                    proof {
                        tight = true;
                    }
                    break;
                },
            }
        }
        proof {
            let n = res@.len() as int;
            assert(bs[n] == bs.last());
            assert forall|k: int| 0 <= k < n implies #[trigger] spells_field(toks, file, us, bs[k], bs[k + 1] - 1, res@[k])
                && (k < n - 1 ==> tok_at(toks, bs[k + 1] - 1) == Some(TokenKind::Semicolon)) by {
                assert(res@[k] == res@[k]);
            }
            assert(fields_between(toks, file, us, bs, self.position as int, res@));
            assert(spells_fields(toks, file, us, p0, self.position as int, res@));
        }
        Ok(res)
    }

    /// `Name`, `Name { fields }` or `Name(types)`.
    pub fn parse_enum_variant(&mut self) -> (r: Result<AstEnumVariant, ParseError>)
        requires
            old(self).wf(),
        ensures
            final(self).advanced_from(old(self)),
            !(old(self).next_kind() matches Some(TokenKind::Identifier(_))) ==> r is Err,
            r matches Ok(v) ==> {
                &&& old(self).position < final(self).position
                &&& old(self).next_kind() == Some(TokenKind::Identifier(v.name))
                &&& match old(self).at(old(self).position + 1) {
                    Some(TokenKind::OpenBra) => v.kind is StructLike,
                    Some(TokenKind::OpenPar) => v.kind is TupleLike,
                    _ => v.kind is Unit,
                }
            },
            (old(self).next_kind() matches Some(TokenKind::Identifier(_)))
                && old(self).at(old(self).position + 1)
                != Some(TokenKind::OpenBra) && old(self).at(old(self).position + 1) != Some(TokenKind::OpenPar)
                ==> (r matches Ok(v) && v.kind is Unit && final(self).position == old(self).position + 1),
            (old(self).next_kind() matches Some(TokenKind::Identifier(_)))
                && old(self).at(old(self).position + 1)
                == Some(TokenKind::OpenBra) && old(self).at(old(self).position + 2) == Some(TokenKind::CloseBra)
                ==> (r matches Ok(v) && (v.kind matches AstEnumVariantKind::StructLike(fs) && fs@.len() == 0)
                && final(self).position == old(self).position + 3),
            (old(self).next_kind() matches Some(TokenKind::Identifier(_)))
                && old(self).at(old(self).position + 1)
                == Some(TokenKind::OpenPar) && old(self).at(old(self).position + 2) == Some(TokenKind::ClosePar)
                ==> (r matches Ok(v) && (v.kind matches AstEnumVariantKind::TupleLike(ts) && ts@.len() == 0)
                && final(self).position == old(self).position + 3),
    {
        let start = self.get_start();
        let name = self.parse_symbol()?.data;
        let kind = match self.peek_kind(0) {
            Some(TokenKind::OpenBra) => {
                self.consume();
                let fields = self.parse_struct_def_fields()?;
                self.expect(TokenKind::CloseBra)?;
                self.consume();
                AstEnumVariantKind::StructLike(fields)
            },
            Some(TokenKind::OpenPar) => {
                self.consume();
                let mut fields: Vec<AstTypeExpr> = Vec::new();
                loop
                    invariant_except_break
                        self.advanced_from(old(self)),
                        old(self).position + 2 <= self.position,
                        old(self).next_kind() == Some(TokenKind::Identifier(name)),
                        old(self).at(old(self).position + 1) == Some(TokenKind::OpenPar),
                        old(self).at(old(self).position + 2) == Some(TokenKind::ClosePar)
                            ==> self.position == old(
                            self,
                        ).position + 2 && fields@.len() == 0,
                    ensures
                        self.advanced_from(old(self)),
                        old(self).position + 2 <= self.position,
                        old(self).next_kind() == Some(TokenKind::Identifier(name)),
                        old(self).at(old(self).position + 1) == Some(TokenKind::OpenPar),
                        old(self).at(old(self).position + 2) == Some(TokenKind::ClosePar)
                            ==> self.position == old(
                            self,
                        ).position + 2 && fields@.len() == 0,
                    decreases self.remaining(),
                {
                    match self.peek_kind(0) {
                        None | Some(TokenKind::ClosePar) => break,
                        _ => {},
                    }
                    fields.push(self.parse_type_expr()?);
                    match self.peek_kind(0) {
                        Some(TokenKind::Comma) => self.consume(),
                        _ => break,
                    }
                }
                self.expect(TokenKind::ClosePar)?;
                self.consume();
                AstEnumVariantKind::TupleLike(fields)
            },
            _ => AstEnumVariantKind::Unit,
        };
        let end = self.get_end();
        Ok(AstEnumVariant { name, kind, span: start.span(end) })
    }

    /// Comma-separated variants, up to (not including) a `}`.
    pub fn parse_enum_variants(&mut self) -> (r: Result<Vec<AstEnumVariant>, ParseError>)
        requires
            old(self).wf(),
        ensures
            final(self).advanced_from(old(self)),
            r matches Ok(vs) ==> (vs@.len() == 0 <==> final(self).position == old(self).position),
            (old(self).next_kind() is None || old(self).next_kind() == Some(TokenKind::CloseBra))
                ==> (r matches Ok(vs) && vs@.len() == 0 && final(self).position == old(self).position),
            old(self).unit_variants_len(old(self).position as int) > 0 ==> (r matches Ok(vs) && vs@.len()
                == old(self).unit_variants_len(old(self).position as int)
                && (forall|k: int| #![trigger vs@[k]] 0 <= k < vs@.len()
                    ==> old(self).at(old(self).position + 2 * k)
                        == Some(TokenKind::Identifier(vs@[k].name)) && vs@[k].kind is Unit)
                && final(self).position == old(self).position + 2 * vs@.len() - 1
                && old(self).at(final(self).position as int) == Some(TokenKind::CloseBra)),
    {
        let mut res: Vec<AstEnumVariant> = Vec::new();
        loop
            invariant_except_break
                self.advanced_from(old(self)),
                res@.len() == 0 <==> self.position == old(self).position,
                (old(self).next_kind() is None || old(self).next_kind() == Some(TokenKind::CloseBra))
                    ==> self.position == old(self).position,
                old(self).unit_variants_len(old(self).position as int) > 0 ==> {
                    &&& old(self).unit_variants_len(self.position as int) > 0
                    &&& old(self).unit_variants_len(self.position as int) + res@.len()
                        == old(self).unit_variants_len(old(self).position as int)
                    &&& self.position == old(self).position + 2 * res@.len()
                    &&& (forall|k: int| #![trigger res@[k]] 0 <= k < res@.len()
                        ==> old(self).at(old(self).position + 2 * k)
                            == Some(TokenKind::Identifier(res@[k].name)) && res@[k].kind is Unit)
                },
            ensures
                self.advanced_from(old(self)),
                res@.len() == 0 <==> self.position == old(self).position,
                (old(self).next_kind() is None || old(self).next_kind() == Some(TokenKind::CloseBra))
                    ==> self.position == old(self).position,
                old(self).unit_variants_len(old(self).position as int) > 0 ==> {
                    &&& res@.len() == old(self).unit_variants_len(old(self).position as int)
                    &&& self.position == old(self).position + 2 * res@.len() - 1
                    &&& old(self).at(self.position as int) == Some(TokenKind::CloseBra)
                    &&& (forall|k: int| #![trigger res@[k]] 0 <= k < res@.len()
                        ==> old(self).at(old(self).position + 2 * k)
                            == Some(TokenKind::Identifier(res@[k].name)) && res@[k].kind is Unit)
                },
            decreases self.remaining(),
        {
            match self.peek_kind(0) {
                None | Some(TokenKind::CloseBra) => break,
                _ => {},
            }
            let ghost prev = res@;
            let x = self.parse_enum_variant()?;
            res.push(x);
            proof {
                assert(res@.drop_last() == prev);
            }
            match self.peek_kind(0) {
                Some(TokenKind::Comma) => self.consume(),
                _ => break,
            }
        }
        Ok(res)
    }

    /// `enum Name<templates> { variants }`
    pub fn parse_enum_def(&mut self) -> (r: Result<AstEnumDef, ParseError>)
        requires
            old(self).wf(),
        ensures
            final(self).advanced_from(old(self)),
            old(self).next_kind() != Some(TokenKind::Enum) ==> r is Err && final(self).position
                == old(self).position,
            r matches Ok(e) ==> old(self).position < final(self).position && old(self).at(
                old(self).position + 1,
            ) == Some(TokenKind::Identifier(e.name.data)),
            old(self).next_kind() == Some(TokenKind::Enum)
                && (old(self).at(old(self).position + 1) matches Some(
                TokenKind::Identifier(_),
            )) && old(self).at(old(self).position + 2) == Some(TokenKind::OpenBra) && old(self).at(
                old(self).position + 3,
            ) == Some(TokenKind::CloseBra) ==> (r matches Ok(e) && e.template_args@.len() == 0
                && e.variants@.len() == 0 && final(self).position == old(self).position + 4),
            old(self).next_kind() == Some(TokenKind::Enum)
                && (old(self).at(old(self).position + 1) matches Some(
                TokenKind::Identifier(_),
            )) && old(self).at(old(self).position + 2) == Some(TokenKind::OpenBra) && old(self).unit_variants_len(
                old(self).position + 3,
            ) > 0 ==> (r matches Ok(e) && e.variants@.len() == old(self).unit_variants_len(old(self).position + 3)
                && final(self).position == old(self).position + 3 + 2 * e.variants@.len()),
    {
        let start = self.get_start();
        self.expect(TokenKind::Enum)?;
        self.consume();
        let name = self.parse_symbol()?;
        let template_args = self.parse_optional_template_args()?;
        self.expect(TokenKind::OpenBra)?;
        self.consume();
        proof {
            Self::lemma_unit_variants_len_tokens(*old(self), *self, old(self).position + 3);
        }
        let variants = self.parse_enum_variants()?;
        self.expect(TokenKind::CloseBra)?;
        self.consume();
        let end = self.get_end();
        Ok(AstEnumDef { name, template_args, variants, span: start.span(end) })
    }

    /// `struct Name<templates> { fields }`
    pub fn parse_struct_def(&mut self) -> (r: Result<AstStructDef, ParseError>)
        requires
            old(self).wf(),
        ensures
            final(self).advanced_from(old(self)),
            old(self).next_kind() != Some(TokenKind::Struct) ==> r is Err && final(self).position
                == old(self).position,
            r matches Ok(s) ==> old(self).position < final(self).position && old(self).at(
                old(self).position + 1,
            ) == Some(TokenKind::Identifier(s.name.data)),
            old(self).next_kind() == Some(TokenKind::Struct)
                && (old(self).at(old(self).position + 1) matches Some(
                TokenKind::Identifier(_),
            )) && old(self).at(old(self).position + 2) == Some(TokenKind::OpenBra) && old(self).at(
                old(self).position + 3,
            ) == Some(TokenKind::CloseBra) ==> (r matches Ok(s) && s.template_args@.len() == 0
                && s.fields@.len() == 0 && final(self).position == old(self).position + 4),
            old(self).next_kind() == Some(TokenKind::Struct)
                && (old(self).at(old(self).position + 1) matches Some(
                TokenKind::Identifier(_),
            )) && old(self).at(old(self).position + 2) == Some(TokenKind::OpenBra)
                && old(self).struct_def_fields_len(old(self).position + 3) > 0 ==> (r matches Ok(s)
                && s.fields@.len() == old(self).struct_def_fields_len(old(self).position + 3)
                && final(self).position == old(self).position + 3 + 4 * s.fields@.len()),
            r matches Ok(s) ==> old(self).at(old(self).position + 2) == Some(TokenKind::OpenBra) ==> (
            s.template_args@.len() == 0 && spells_fields(
                old(self).tokens@,
                old(self).file,
                old(self).known.underscore,
                old(self).position + 3,
                final(self).position - 1,
                s.fields@,
            ) && old(self).at(final(self).position - 1) == Some(TokenKind::CloseBra)),
    {
        let start = self.get_start();
        self.expect(TokenKind::Struct)?;
        self.consume();
        let name = self.parse_symbol()?;
        let template_args = self.parse_optional_template_args()?;
        self.expect(TokenKind::OpenBra)?;
        self.consume();
        proof {
            Self::lemma_struct_def_fields_len_tokens(*old(self), *self, old(self).position + 3);
        }
        let fields = self.parse_struct_def_fields()?;
        self.expect(TokenKind::CloseBra)?;
        self.consume();
        let end = self.get_end();
        Ok(AstStructDef { name, template_args, fields, span: start.span(end) })
    }

    /// `type T: Bounds;` or `fun method(..): Type;` inside an interface.
    pub fn parse_interface_item(&mut self) -> (r: Result<AstInterfaceItem, ParseError>)
        requires
            old(self).wf(),
        ensures
            final(self).moved_from(old(self)),
            old(self).annotations@.len() == 0 ==> final(self).annotations@.len() == 0,
            r matches Ok(item) ==> old(self).position < final(self).position && match item {
                AstInterfaceItem::Type(_) => old(self).next_kind() == Some(TokenKind::Type),
                AstInterfaceItem::Sig(_) => old(self).next_kind() == Some(TokenKind::Fun),
            },
            match old(self).next_kind() {
                Some(k) => !(k is Type) && !(k is Fun) ==> (r matches Err(e) && e == old(self).error_here(
                    ParseErrorKind::ExpectedToken { expected: TokenKind::Fun, found: k },
                )),
                None => r is Err,
            },
            old(self).next_kind() == Some(TokenKind::Type)
                && (old(self).at(old(self).position + 1) matches Some(
                TokenKind::Identifier(_),
            )) && old(self).at(old(self).position + 2) == Some(TokenKind::Semicolon) ==> (r matches Ok(item)
                && item is Type && final(self).position == old(self).position + 3),
            old(self).next_kind() == Some(TokenKind::Fun)
                && old(self).simple_sig_at(old(self).position + 1, true)
                && old(self).at(old(self).position + 7) == Some(TokenKind::Semicolon) ==> (r matches Ok(item)
                && item is Sig && final(self).position == old(self).position + 8),
    {
        let tok = *self.current_token()?;
        match tok.kind {
            TokenKind::Type => {
                self.consume();
                let arg = self.parse_template_arg()?;
                self.expect(TokenKind::Semicolon)?;
                self.consume();
                Ok(AstInterfaceItem::Type(arg))
            },
            TokenKind::Fun => {
                self.consume();
                let sig = self.parse_methodsig()?;
                self.expect(TokenKind::Semicolon)?;
                self.consume();
                Ok(AstInterfaceItem::Sig(Box::new(sig)))
            },
            x => Err(
                ParseError {
                    kind: ParseErrorKind::ExpectedToken { expected: TokenKind::Fun, found: x },
                    file: self.file,
                    start: tok.location.start_offset,
                    end: tok.location.end_offset,
                },
            ),
        }
    }
}


/// The kind of item parsed, by the token it started with.
pub open spec fn item_shape(first: TokenKind, item: AstTopLevelItemDesc) -> bool {
    match first {
        TokenKind::Module => item is Module || item is Error,
        TokenKind::Fun => item is Fundef,
        TokenKind::Impl => item is Impl,
        TokenKind::Struct => item is StructDef,
        TokenKind::Enum => item is EnumDef,
        TokenKind::Interface => item is Interface,
        TokenKind::Directive(_) => item is ExternDef,
        _ => false,
    }
}

/// Where parsing goes on after an item that started at token `start` failed
/// with the parser at token `pos`: where error recovery from `pos` stops, or
/// the token after `start` when recovery would not move past it.
pub open spec fn recovery_end(toks: Seq<Token>, start: int, pos: int) -> int {
    if sync_end(toks, pos, 0) == start {
        start + 1
    } else {
        sync_end(toks, pos, 0)
    }
}

impl<'a> Parser<'a> {
    /// Drops the pending annotations of an item that failed to parse, and
    /// makes sure a failed item did not leave the parser where it started:
    /// when error recovery could not move past the token the item failed
    /// on, that token is skipped.
    fn recover_after_item(&mut self, item_start: usize)
        requires
            old(self).wf(),
            item_start <= old(self).position,
            item_start < old(self).tokens@.len(),
        ensures
            final(self).wf(),
            final(self).same_input(old(self)),
            final(self).errors == old(self).errors,
            final(self).annotations@.len() == 0,
            item_start < final(self).position,
            old(self).position <= final(self).position,
            final(self).position == recovery_end(old(self).tokens@, item_start as int, old(self).position as int),
    {
        let _ = self.annotations();
        self.synchronize();
        if self.position == item_start {
            self.consume();
        }
    }

    /// An item, after its annotations: a module, a function, an impl, a
    /// struct, an enum, an interface or an `@extern { fun ...; }` block.
    /// A module that fails to parse is reported and kept as an error item.
    pub fn parse_toplevel_item(&mut self) -> (r: Result<AstTopLevelItem, ParseError>)
        requires
            old(self).wf(),
            old(self).annotations@.len() == 0,
        ensures
            final(self).progressed_from(old(self)),
            r is Ok ==> old(self).position < final(self).position && final(self).annotations@.len() == 0,
            match old(self).next_kind() {
                Some(k) => k != TokenKind::AddressOf ==> {
                    &&& !starts_item(k, old(self).known.extern_dir) ==> (r matches Err(e) && e
                        == old(self).error_here(ParseErrorKind::NotATopLevelItem) && final(self).position
                        == old(self).position && final(self).errors == old(self).errors)
                    &&& r matches Ok(item) ==> item_shape(k, item.data)
                },
                None => r is Err,
            },
            old(self).empty_struct_at(old(self).position as int) ==> (r matches Ok(item)
                && item.data is StructDef && final(self).errors == old(self).errors
                && final(self).position == old(self).position + 4),
            old(self).simple_fundef_at(old(self).position as int) ==> (r matches Ok(item) && item.data is Fundef
                && final(self).errors == old(self).errors
                && final(self).position == old(self).body_end(old(self).position + 7) + 1),
            old(self).next_kind() == Some(TokenKind::Module) ==> r is Ok,
            old(self).next_kind() == Some(TokenKind::Module) && (old(self).at(old(self).position + 1) matches Some(
                TokenKind::Identifier(_),
            )) ==> (old(self).at(old(self).position + 2) matches Some(k) ==> k != TokenKind::OpenBra ==> ({
                let e = old(self).error_at(
                    old(self).position + 2,
                    ParseErrorKind::ExpectedToken { expected: TokenKind::OpenBra, found: k },
                );
                r matches Ok(item) && item.data == AstTopLevelItemDesc::Error(e) && final(self).errors@
                    == old(self).errors@.push(e) && final(self).position == old(self).position + 2
            })),
            old(self).next_kind() == Some(TokenKind::Module) && (old(self).at(old(self).position + 1) matches Some(
                TokenKind::Identifier(_),
            )) && old(self).empty_block_at(old(self).position + 2) ==> (r matches Ok(item) && item.data is Module
                && final(self).errors == old(self).errors && final(self).position == old(self).position + 4),
            old(self).next_kind() == Some(TokenKind::Module) ==> (old(self).at(old(self).position + 1) matches Some(k)
                ==> (!(k is Identifier) ==> (r matches Ok(item) && (item.data matches AstTopLevelItemDesc::Error(e)
                && e == old(self).error_at(old(self).position + 1, e.kind) && expected_symbol(k, e.kind)
                && final(self).errors@ == old(self).errors@.push(e)) && final(self).position == old(self).position
                + 1))),
            old(self).next_kind() == Some(TokenKind::Module) && (old(self).at(old(self).position + 1) is None || ((old(
                self,
            ).at(old(self).position + 1) matches Some(TokenKind::Identifier(_))) && old(self).at(old(self).position
                + 2) is None)) ==> (r matches Ok(item) && (item.data matches AstTopLevelItemDesc::Error(e) && e.kind
                == ParseErrorKind::UnexpectedEOF && final(self).errors@ == old(self).errors@.push(e))),
            r matches Ok(item) ==> (item.data matches AstTopLevelItemDesc::Error(e) ==> final(self).errors@.len()
                > old(self).errors@.len() && final(self).errors@.last() == e),
            r matches Ok(item) ==> (item.data is Impl || item.data is Interface || item.data is ExternDef
                ==> item.annotations@.len() == 0),
            r matches Ok(item) ==> (!(item.data is Impl || item.data is Interface || item.data is ExternDef)
                ==> exists|q: int|
                #[trigger] spells_annotations(
                    old(self).tokens@,
                    old(self).file,
                    old(self).known.underscore,
                    old(self).position as int,
                    q,
                    item.annotations@,
                ) && tok_at(old(self).tokens@, q) != Some(TokenKind::AddressOf) && (item.data matches AstTopLevelItemDesc::StructDef(
                    sd,
                ) ==> (tok_at(old(self).tokens@, q + 2) == Some(TokenKind::OpenBra) ==> sd.template_args@.len() == 0
                    && spells_fields(
                    old(self).tokens@,
                    old(self).file,
                    old(self).known.underscore,
                    q + 3,
                    final(self).position - 1,
                    sd.fields@,
                )))),
        decreases old(self).remaining(), 1nat,
    {
        self.collect_annotations()?;
        let annotations = self.annotations();
        let ghost qa = self.position as int;
        assert(spells_annotations(
            old(self).tokens@,
            old(self).file,
            old(self).known.underscore,
            old(self).position as int,
            qa,
            annotations@,
        ));
        let start = self.get_start();
        let kind = self.current_token()?.kind;
        match kind {
            TokenKind::Module => match self.parse_module() {
                Ok(module) => {
                    let span = module.span;
                    Ok(Annotated::new(AstTopLevelItemDesc::Module(module), annotations, span))
                },
                Err(err) => {
                    let _ = self.annotations();
                    self.errors.push(err.duplicate());
                    Ok(
                        Annotated::new(
                            AstTopLevelItemDesc::Error(err),
                            annotations,
                            start.span(self.get_end()),
                        ),
                    )
                },
            },
            TokenKind::Fun => {
                proof {
                    Self::lemma_body_tokens(*old(self), *self, old(self).position + 7);
                }
                let fdef = self.parse_fundef()?;
                let span = fdef.span;
                Ok(Annotated::new(AstTopLevelItemDesc::Fundef(fdef), annotations, span))
            },
            TokenKind::Impl => {
                self.collect_annotations()?;
                let impl_annotations = self.annotations();
                let start = self.get_start();
                let impl_block = self.parse_impl_block()?;
                let end = self.get_end();
                Ok(
                    Annotated::new(
                        AstTopLevelItemDesc::Impl(impl_block),
                        impl_annotations,
                        start.span(end),
                    ),
                )
            },
            TokenKind::Struct => {
                let struct_def = self.parse_struct_def()?;
                let end = self.get_end();
                Ok(
                    Annotated::new(
                        AstTopLevelItemDesc::StructDef(struct_def),
                        annotations,
                        start.span(end),
                    ),
                )
            },
            TokenKind::Enum => {
                let enum_def = self.parse_enum_def()?;
                let end = self.get_end();
                Ok(
                    Annotated::new(
                        AstTopLevelItemDesc::EnumDef(enum_def),
                        annotations,
                        start.span(end),
                    ),
                )
            },
            TokenKind::Interface => {
                self.consume();
                let name = self.parse_symbol()?;
                let template_args = self.parse_optional_template_args()?;
                let mut supers: Vec<AstTypeExpr> = Vec::new();
                if self.peek_kind(0) == Some(TokenKind::Colon) {
                    self.consume();
                    supers.push(self.parse_type_expr()?);
                    loop
                        invariant_except_break
                            self.moved_from(old(self)),
                            old(self).position < self.position,
                            self.annotations@.len() == 0,
                            old(self).next_kind() != Some(TokenKind::AddressOf)
                                ==> old(self).next_kind() == Some(TokenKind::Interface),
                        ensures
                            self.moved_from(old(self)),
                            old(self).position < self.position,
                            self.annotations@.len() == 0,
                            old(self).next_kind() != Some(TokenKind::AddressOf)
                                ==> old(self).next_kind() == Some(TokenKind::Interface),
                        decreases self.remaining(),
                    {
                        if self.peek_kind(0) != Some(TokenKind::Plus) {
                            break;
                        }
                        self.consume();
                        supers.push(self.parse_type_expr()?);
                    }
                }
                self.expect(TokenKind::OpenBra)?;
                self.consume();
                let mut items: Vec<AstInterfaceItem> = Vec::new();
                loop
                    invariant_except_break
                        self.moved_from(old(self)),
                        old(self).position < self.position,
                        self.annotations@.len() == 0,
                        old(self).next_kind() != Some(TokenKind::AddressOf)
                            ==> old(self).next_kind() == Some(TokenKind::Interface),
                    ensures
                        self.moved_from(old(self)),
                        old(self).position < self.position,
                        self.annotations@.len() == 0,
                        old(self).next_kind() != Some(TokenKind::AddressOf)
                            ==> old(self).next_kind() == Some(TokenKind::Interface),
                    decreases self.remaining(),
                {
                    match self.peek_kind(0) {
                        None | Some(TokenKind::CloseBra) => break,
                        _ => {},
                    }
                    let item = self.parse_interface_item()?;
                    items.push(item);
                }
                self.expect(TokenKind::CloseBra)?;
                self.consume();
                let span = start.span(self.get_end());
                Ok(
                    Annotated::new(
                        AstTopLevelItemDesc::Interface(
                            AstInterface { name, supers, template_args, items, span },
                        ),
                        Vec::new(),
                        span,
                    ),
                )
            },
            TokenKind::Directive(s) => {
                if s != self.known.extern_dir {
                    return Err(self.parse_error(ParseErrorKind::NotATopLevelItem));
                }
                self.consume();
                self.expect(TokenKind::OpenBra)?;
                self.consume();
                self.collect_annotations()?;
                let fun_start = self.get_start();
                self.expect(TokenKind::Fun)?;
                self.consume();
                let (mut funsig, variadic) = self.parse_funsig(true)?;
                funsig.span.start_offset = fun_start.offset;
                self.expect(TokenKind::Semicolon)?;
                self.consume();
                self.expect(TokenKind::CloseBra)?;
                self.consume();
                let end = self.get_end();
                Ok(
                    Annotated::new(
                        AstTopLevelItemDesc::ExternDef(funsig, variadic),
                        Vec::new(),
                        start.span(end),
                    ),
                )
            },
            _ => Err(self.parse_error(ParseErrorKind::NotATopLevelItem)),
        }
    }

    /// `module name { (item | @include path)* }`. Items and includes that
    /// fail to parse are reported, kept as error nodes, and parsing goes on
    /// after them.
    pub fn parse_module(&mut self) -> (r: Result<AstModule, ParseError>)
        requires
            old(self).wf(),
        ensures
            final(self).progressed_from(old(self)),
            old(self).next_kind() != Some(TokenKind::Module) ==> r is Err && final(self).position
                == old(self).position,
            old(self).next_kind() == Some(TokenKind::Module) ==> old(self).position < final(self).position,
            r matches Ok(m) ==> old(self).position < final(self).position && final(self).annotations@.len()
                == 0 && m.annotations == old(self).annotations && old(self).at(old(self).position + 1)
                == Some(TokenKind::Identifier(m.data.name.data)),
            old(self).next_kind() == Some(TokenKind::Module)
                && (old(self).at(old(self).position + 1) matches Some(
                TokenKind::Identifier(_),
            )) && old(self).empty_block_at(old(self).position + 2) ==> (r matches Ok(m) && m.data.items@.len()
                == 0 && m.data.includes@.len() == 0 && final(self).position == old(self).position + 4
                && final(self).errors == old(self).errors),
            old(self).next_kind() == Some(TokenKind::Module) && (old(self).at(old(self).position + 1) matches Some(
                TokenKind::Identifier(_),
            )) ==> (old(self).at(old(self).position + 2) matches Some(k) ==> k != TokenKind::OpenBra ==> (r
                matches Err(e) && e == old(self).error_at(
                old(self).position + 2,
                ParseErrorKind::ExpectedToken { expected: TokenKind::OpenBra, found: k },
            ) && final(self).errors == old(self).errors && final(self).position == old(self).position + 2)),
            old(self).next_kind() == Some(TokenKind::Module) ==> (old(self).at(old(self).position + 1) matches Some(k)
                ==> (!(k is Identifier) ==> (r matches Err(e) && e == old(self).error_at(old(self).position + 1, e.kind)
                && expected_symbol(k, e.kind) && final(self).errors == old(self).errors && final(self).position
                == old(self).position + 1))),
            old(self).next_kind() == Some(TokenKind::Module) && old(self).at(old(self).position + 1) is None ==> (r
                matches Err(e) && e.kind == ParseErrorKind::UnexpectedEOF && final(self).errors == old(self).errors
                && final(self).position == old(self).position + 1),
            old(self).next_kind() == Some(TokenKind::Module) && (old(self).at(old(self).position + 1) matches Some(
                TokenKind::Identifier(_),
            )) && old(self).at(old(self).position + 2) is None ==> (r matches Err(e) && e.kind
                == ParseErrorKind::UnexpectedEOF && final(self).errors == old(self).errors && final(self).position
                == old(self).position + 2),
        decreases old(self).remaining(), 0nat,
    {
        let annotations = self.annotations();
        let start = self.get_start();
        self.expect(TokenKind::Module)?;
        self.consume();
        let name = match self.parse_symbol() {
            Ok(n) => n,
            Err(e) => return Err(e),
        };
        match self.expect(TokenKind::OpenBra) {
            Ok(()) => {},
            Err(e) => return Err(e),
        }
        self.consume();
        let mut items: Vec<AstTopLevelItem> = Vec::new();
        let mut includes: Vec<AstIncludePath> = Vec::new();
        loop
            invariant_except_break
                self.progressed_from(old(self)),
                old(self).position < self.position,
                self.annotations@.len() == 0,
                old(self).at(old(self).position + 1) == Some(TokenKind::Identifier(name.data)),
                old(self).at(old(self).position + 2) == Some(TokenKind::OpenBra),
                old(self).next_kind() == Some(TokenKind::Module),
                old(self).empty_block_at(old(self).position + 2) ==> self.position == old(self).position + 3
                    && items@.len() == 0 && includes@.len() == 0 && self.errors == old(self).errors,
            ensures
                self.progressed_from(old(self)),
                old(self).position < self.position,
                self.annotations@.len() == 0,
                old(self).at(old(self).position + 1) == Some(TokenKind::Identifier(name.data)),
                old(self).at(old(self).position + 2) == Some(TokenKind::OpenBra),
                old(self).next_kind() == Some(TokenKind::Module),
                old(self).empty_block_at(old(self).position + 2) ==> self.position == old(self).position + 3
                    && items@.len() == 0 && includes@.len() == 0 && self.errors == old(self).errors,
            decreases self.remaining(),
        {
            let kind = self.current_token()?.kind;
            if kind == TokenKind::CloseBra {
                break;
            }
            let item_pos = self.position;
            let is_include = match kind {
                TokenKind::Directive(s) => s == self.known.include_dir,
                _ => false,
            };
            if is_include {
                self.consume();
                let inc_start = self.get_start();
                match self.parse_include_path() {
                    Ok(inc_path) => includes.push(inc_path),
                    Err(err) => {
                        self.synchronize();
                        self.errors.push(err);
                        includes.push(
                            Spanned::new(AstIncludePathDesc::Error, inc_start.span(self.get_end())),
                        );
                    },
                }
            } else {
                match self.parse_toplevel_item() {
                    Ok(item) => items.push(item),
                    Err(err) => {
                        self.recover_after_item(item_pos);
                        self.errors.push(err.duplicate());
                        items.push(
                            Annotated::new(
                                AstTopLevelItemDesc::Error(err),
                                Vec::new(),
                                start.span(self.get_end()),
                            ),
                        );
                    },
                }
            }
        }
        self.expect(TokenKind::CloseBra)?;
        self.consume();
        let end = self.get_end();
        Ok(Annotated::new(AstModuleDesc { name, items, includes }, annotations, start.span(end)))
    }

    /// An `@include path` or an item.
    pub fn parse_any_toplevel_item(&mut self) -> (r: Result<AstAnyTopLevelItem, ParseError>)
        requires
            old(self).wf(),
            old(self).annotations@.len() == 0,
        ensures
            final(self).progressed_from(old(self)),
            r is Ok ==> old(self).position < final(self).position && final(self).annotations@.len() == 0,
            r matches Ok(item) ==> (item.data is Include <==> old(self).next_kind() == Some(
                TokenKind::Directive(old(self).known.include_dir),
            )),
            old(self).next_kind() == Some(TokenKind::Directive(old(self).known.include_dir)) ==> (old(self).at(
                old(self).position + 1,
            ) matches Some(TokenKind::Identifier(n)) ==> (old(self).at(old(self).position + 2) is Some && old(
                self,
            ).at(old(self).position + 2) != Some(TokenKind::Access) ==> (r matches Ok(item)
                && (item.data matches AstAnyTopLevelItemDesc::Include(
                path,
            ) && include_path_names(path.data) == seq![n]) && final(self).position == old(self).position + 2))),
            old(self).empty_struct_at(old(self).position as int) ==> (r matches Ok(item)
                && (item.data matches AstAnyTopLevelItemDesc::Item(
                d,
            ) && *d is StructDef) && final(self).errors == old(self).errors && final(self).position == old(
                self,
            ).position + 4),
            old(self).simple_fundef_at(old(self).position as int) ==> (r matches Ok(item)
                && (item.data matches AstAnyTopLevelItemDesc::Item(
                d,
            ) && *d is Fundef) && final(self).errors == old(self).errors && final(self).position == old(
                self,
            ).body_end(old(self).position + 7) + 1),
            old(self).next_kind() == Some(TokenKind::Directive(old(self).known.include_dir)) ==> (r is Ok
                ==> final(self).errors == old(self).errors),
            old(self).next_kind() == Some(TokenKind::Module) ==> r is Ok,
            old(self).next_kind() == Some(TokenKind::Module) && (old(self).at(old(self).position + 1) matches Some(
                TokenKind::Identifier(_),
            )) ==> (old(self).at(old(self).position + 2) matches Some(k) ==> k != TokenKind::OpenBra ==> ({
                let e = old(self).error_at(
                    old(self).position + 2,
                    ParseErrorKind::ExpectedToken { expected: TokenKind::OpenBra, found: k },
                );
                r matches Ok(item) && (item.data matches AstAnyTopLevelItemDesc::Item(d) && *d
                    == AstTopLevelItemDesc::Error(e)) && final(self).errors@ == old(self).errors@.push(e)
                    && final(self).position == old(self).position + 2
            })),
            old(self).next_kind() == Some(TokenKind::Module) && (old(self).at(old(self).position + 1) matches Some(
                TokenKind::Identifier(_),
            )) && old(self).empty_block_at(old(self).position + 2) ==> (r matches Ok(item) && (item.data matches AstAnyTopLevelItemDesc::Item(
                d,
            ) && *d is Module) && final(self).errors == old(self).errors && final(self).position == old(
                self,
            ).position + 4),
            stray_at(old(self).tokens@, old(self).known, old(self).position as int) ==> (r matches Err(e) && e
                == old(self).error_here(ParseErrorKind::NotATopLevelItem) && final(self).position == old(
                self,
            ).position && final(self).errors == old(self).errors),
            r matches Ok(item) ==> (item.data matches AstAnyTopLevelItemDesc::Item(d) ==> (*d matches AstTopLevelItemDesc::Error(
                e,
            ) ==> final(self).errors@.len() > old(self).errors@.len() && final(self).errors@.last() == e)),
            r matches Ok(item) ==> (item.data matches AstAnyTopLevelItemDesc::Item(d) ==> ((*d is Impl || *d is Interface
                || *d is ExternDef) ==> item.annotations@.len() == 0)),
            r matches Ok(item) ==> (item.data matches AstAnyTopLevelItemDesc::Item(d) ==> (!(*d is Impl || *d is Interface
                || *d is ExternDef) ==> exists|q: int|
                #[trigger] spells_annotations(
                    old(self).tokens@,
                    old(self).file,
                    old(self).known.underscore,
                    old(self).position as int,
                    q,
                    item.annotations@,
                ) && tok_at(old(self).tokens@, q) != Some(TokenKind::AddressOf))),
            r matches Ok(item) ==> (item.data is Include ==> item.annotations@.len() == 0),
    {
        let start = self.get_start();
        let kind = self.current_token()?.kind;
        let is_include = match kind {
            TokenKind::Directive(s) => s == self.known.include_dir,
            _ => false,
        };
        if is_include {
            self.consume();
            let include_path = self.parse_include_path()?;
            let end = self.get_end();
            Ok(Annotated::new(AstAnyTopLevelItemDesc::Include(include_path), Vec::new(), start.span(end)))
        } else {
            let item = match self.parse_toplevel_item() {
                Ok(item) => item,
                Err(e) => return Err(e),
            };
            let Annotated { data, annotations, span } = item;
            Ok(Annotated::new(AstAnyTopLevelItemDesc::Item(Box::new(data)), annotations, span))
        }
    }
}

/// How many tokens the item at token `i` takes when it is one of the simple
/// items `@include name` (with a token after it, not `::`), `struct S { }`
/// and `fun f ( ) : T { }`; 0 otherwise.
pub open spec fn simple_item_len(toks: Seq<Token>, known: KnownSymbols, i: int) -> int {
    if tok_at(toks, i) == Some(TokenKind::Directive(known.include_dir)) && (tok_at(toks, i + 1) matches Some(
        TokenKind::Identifier(_),
    )) && tok_at(toks, i + 2) is Some && tok_at(toks, i + 2) != Some(TokenKind::Access) {
        2
    } else if tok_at(toks, i) == Some(TokenKind::Struct) && (tok_at(toks, i + 1) matches Some(
        TokenKind::Identifier(_),
    )) && tok_at(toks, i + 2) == Some(TokenKind::OpenBra) && tok_at(toks, i + 3) == Some(TokenKind::CloseBra) {
        4
    } else if tok_at(toks, i) == Some(TokenKind::Fun) && (tok_at(toks, i + 1) matches Some(
        TokenKind::Identifier(_),
    )) && tok_at(toks, i + 2) == Some(TokenKind::OpenPar) && tok_at(toks, i + 3) == Some(TokenKind::ClosePar)
        && tok_at(toks, i + 4) == Some(TokenKind::Colon) && (tok_at(toks, i + 5) matches Some(
        TokenKind::Identifier(_),
    )) && tok_at(toks, i + 6) == Some(TokenKind::OpenBra) && tok_at(toks, i + 7) == Some(TokenKind::CloseBra) {
        8
    } else {
        0
    }
}

/// A token at which no item can start: no `@include`, no annotation and no
/// item keyword.
pub open spec fn stray_at(toks: Seq<Token>, known: KnownSymbols, i: int) -> bool {
    tok_at(toks, i) matches Some(k) && k != TokenKind::AddressOf && !starts_item(k, known.extern_dir) && k
        != TokenKind::Directive(known.include_dir)
}

/// The error reported for the stray token `i`.
pub open spec fn stray_error(toks: Seq<Token>, file: SourceFile, i: int) -> ParseError {
    ParseError {
        kind: ParseErrorKind::NotATopLevelItem,
        file,
        start: toks[i].location.start_offset,
        end: toks[i].location.end_offset,
    }
}

/// How many tokens a module item at token `i` takes when it is `module m
/// { }` (4) or fails on the token after its name (2, that token being no
/// `{`); 0 otherwise.
pub open spec fn module_item_len(toks: Seq<Token>, i: int) -> int {
    if tok_at(toks, i) == Some(TokenKind::Module) && (tok_at(toks, i + 1) matches Some(TokenKind::Identifier(_))) {
        if tok_at(toks, i + 2) == Some(TokenKind::OpenBra) && tok_at(toks, i + 3) == Some(TokenKind::CloseBra) {
            4
        } else if tok_at(toks, i + 2) is Some && tok_at(toks, i + 2) != Some(TokenKind::OpenBra) {
            2
        } else {
            0
        }
    } else {
        0
    }
}

/// The error reported for a module item at token `i` whose name is not
/// followed by `{`.
pub open spec fn module_error(toks: Seq<Token>, file: SourceFile, i: int) -> ParseError {
    ParseError {
        kind: ParseErrorKind::ExpectedToken { expected: TokenKind::OpenBra, found: toks[i + 2].kind },
        file,
        start: toks[i + 2].location.start_offset,
        end: toks[i + 2].location.end_offset,
    }
}

/// The error of an error item of an outline: that of a stray token, or of
/// a module that failed.
pub open spec fn outline_error(toks: Seq<Token>, file: SourceFile, e: (int, int)) -> ParseError {
    if e.0 == 3 {
        stray_error(toks, file, e.1)
    } else {
        module_error(toks, file, e.1)
    }
}

/// Error recovery never moves back, and stops within the tokens.
pub proof fn lemma_sync_end_bounds(toks: Seq<Token>, i: int, depth: int)
    requires
        i <= toks.len(),
    ensures
        i <= sync_end(toks, i, depth) <= toks.len(),
    decreases toks.len() - i,
{
    if i < toks.len() {
        let k = toks[i].kind;
        let d = if k is OpenBra || k is OpenPar || k is OpenSqr {
            depth + 1
        } else if (k is CloseBra || k is ClosePar || k is CloseSqr) && depth > 0 {
            depth - 1
        } else {
            depth
        };
        lemma_sync_end_bounds(toks, i + 1, d);
    }
}

/// When the tokens from `i` to the end are simple items (`@include name`,
/// `struct S { }`, `fun f ( ) : T { }`, `module m { }`), modules that fail
/// after their name, and stray tokens: the items in order, each with its
/// kind (1 a struct, 2 a function, 3 the error item of a stray token, 4 a
/// module, 5 the error item of a failed module) and the token it starts at,
/// and how many includes there are.
pub open spec fn file_outline(toks: Seq<Token>, known: KnownSymbols, i: int) -> Option<(Seq<(int, int)>, int)>
    decreases toks.len() - i,
{
    if i >= toks.len() {
        Some((Seq::empty(), 0))
    } else if 0 <= i && simple_item_len(toks, known, i) > 0 {
        match file_outline(toks, known, i + simple_item_len(toks, known, i)) {
            Some((es, m)) => if simple_item_len(toks, known, i) == 2 {
                Some((es, m + 1))
            } else if simple_item_len(toks, known, i) == 4 {
                Some((seq![(1int, i)] + es, m))
            } else {
                Some((seq![(2int, i)] + es, m))
            },
            None => None,
        }
    } else if 0 <= i && module_item_len(toks, i) > 0 {
        match file_outline(toks, known, i + module_item_len(toks, i)) {
            Some((es, m)) => Some(
                (seq![(if module_item_len(toks, i) == 4 {
                    4int
                } else {
                    5int
                }, i)] + es, m),
            ),
            None => None,
        }
    } else if 0 <= i && stray_at(toks, known, i) {
        proof {
            lemma_sync_end_bounds(toks, i, 0);
        }
        match file_outline(toks, known, recovery_end(toks, i, i)) {
            Some((es, m)) => Some((seq![(3int, i)] + es, m)),
            None => None,
        }
    } else {
        None
    }
}

/// One step along an outline: the item at `k` is `e` and the rest follow.
proof fn lemma_outline_step(es: Seq<(int, int)>, k: int, e: (int, int), rest: Seq<(int, int)>)
    requires
        0 <= k <= es.len(),
        es.subrange(k, es.len() as int) == seq![e] + rest,
    ensures
        k < es.len(),
        es[k] == e,
        es.subrange(k + 1, es.len() as int) == rest,
{
    let s = es.subrange(k, es.len() as int);
    assert(s.len() == 1 + rest.len());
    assert(s[0] == e);
    assert forall|j: int| 0 <= j < rest.len() implies es.subrange(k + 1, es.len() as int)[j] == rest[j] by {
        assert(s[j + 1] == rest[j]);
    }
    assert(es.subrange(k + 1, es.len() as int) =~= rest);
}

/// The errors of one more item of an outline.
proof fn lemma_outline_errors_take(toks: Seq<Token>, file: SourceFile, es: Seq<(int, int)>, k: int)
    requires
        0 <= k < es.len(),
    ensures
        outline_errors(toks, file, es.take(k + 1)) == if es[k].0 == 3 || es[k].0 == 5 {
            outline_errors(toks, file, es.take(k)).push(outline_error(toks, file, es[k]))
        } else {
            outline_errors(toks, file, es.take(k))
        },
{
    assert(es.take(k + 1).drop_last() =~= es.take(k));
    assert(es.take(k + 1).last() == es[k]);
}

/// What an item of the outline stands for.
pub open spec fn outline_item(toks: Seq<Token>, file: SourceFile, e: (int, int), item: AstTopLevelItem) -> bool {
    &&& e.0 == 1 ==> item.data is StructDef
    &&& e.0 == 2 ==> item.data is Fundef
    &&& e.0 == 3 ==> item.data == AstTopLevelItemDesc::Error(stray_error(toks, file, e.1))
    &&& e.0 == 4 ==> item.data is Module
    &&& e.0 == 5 ==> item.data == AstTopLevelItemDesc::Error(module_error(toks, file, e.1))
}

/// The errors of the error items of an outline, in order.
pub open spec fn outline_errors(toks: Seq<Token>, file: SourceFile, es: Seq<(int, int)>) -> Seq<ParseError>
    decreases es.len(),
{
    if es.len() == 0 {
        Seq::empty()
    } else if es.last().0 == 3 || es.last().0 == 5 {
        outline_errors(toks, file, es.drop_last()).push(outline_error(toks, file, es.last()))
    } else {
        outline_errors(toks, file, es.drop_last())
    }
}

/// Every error item of `items` carries an error listed in `errs`.
pub open spec fn error_items_listed(items: Seq<AstTopLevelItem>, errs: Seq<ParseError>) -> bool {
    forall|k: int|
        0 <= k < items.len() ==> ((#[trigger] items[k]).data matches AstTopLevelItemDesc::Error(e) ==> exists|
            j: int,
        | 0 <= j < errs.len() && errs[j] == e)
}

/// Error items stay listed when errors are added after the listed ones,
/// and when an item is added whose error, if it is one, is the last error.
proof fn lemma_error_items_listed(
    items: Seq<AstTopLevelItem>,
    errs: Seq<ParseError>,
    errs2: Seq<ParseError>,
    added: Option<AstTopLevelItem>,
)
    requires
        error_items_listed(items, errs),
        errs.len() <= errs2.len(),
        forall|i: int| 0 <= i < errs.len() ==> errs2[i] == errs[i],
        added matches Some(item) ==> (item.data matches AstTopLevelItemDesc::Error(e) ==> errs2.len() > 0
            && errs2.last() == e),
    ensures
        error_items_listed(items, errs2),
        added matches Some(item) ==> error_items_listed(items.push(item), errs2),
{
    assert forall|k: int| 0 <= k < items.len() implies ((#[trigger] items[k]).data matches AstTopLevelItemDesc::Error(
        e,
    ) ==> exists|j: int| 0 <= j < errs2.len() && errs2[j] == e) by {
        if let AstTopLevelItemDesc::Error(e) = items[k].data {
            let j = choose|j: int| 0 <= j < errs.len() && errs[j] == e;
            assert(errs2[j] == e);
        }
    }
    if let Some(item) = added {
        lemma_error_items_push(items, errs2, item);
    }
}

/// An added item keeps the error items listed when its error, if it is one,
/// is the last error.
proof fn lemma_error_items_push(items: Seq<AstTopLevelItem>, errs2: Seq<ParseError>, item: AstTopLevelItem)
    requires
        error_items_listed(items, errs2),
        item.data matches AstTopLevelItemDesc::Error(e) ==> errs2.len() > 0 && errs2.last() == e,
    ensures
        error_items_listed(items.push(item), errs2),
{
    assert forall|k: int| 0 <= k < items.push(item).len() implies ((#[trigger] items.push(item)[k]).data matches AstTopLevelItemDesc::Error(
        e,
    ) ==> exists|j: int| 0 <= j < errs2.len() && errs2[j] == e) by {
        if k < items.len() {
            assert(items.push(item)[k] == items[k]);
            if let AstTopLevelItemDesc::Error(e) = items[k].data {
                let j = choose|j: int| 0 <= j < errs2.len() && errs2[j] == e;
                assert(errs2[j] == e);
            }
        } else {
            if let AstTopLevelItemDesc::Error(e) = item.data {
                assert(errs2[errs2.len() - 1] == e);
            }
        }
    }
}

/// Parses a whole file. A lexing error is reported and leaves no tokens;
/// items that fail to parse are reported, kept as error items, and parsing
/// goes on after them. Every token is read.
pub fn parse_file(lexed: Result<Vec<Token>, LexError>, file: SourceFile, known: KnownSymbols) -> (r: (
    Ast,
    Vec<ParseError>,
))
    ensures
        lexed matches Err(e) ==> r.1@.len() >= 1 && r.1@[0] == (ParseError {
            kind: ParseErrorKind::LexError(e),
            file,
            start: e.offset,
            end: (if e.offset == usize::MAX { 0 } else { e.offset + 1 }) as usize,
        }) && r.0.items@.len() == 0 && r.0.includes@.len() == 0,
        lexed matches Ok(toks) && toks@.len() == 0 ==> r.0.items@.len() == 0 && r.0.includes@.len()
            == 0 && r.1@.len() == 0,
        lexed matches Ok(toks) ==> (file_outline(toks@, known, 0) matches Some((es, m)) ==> {
            &&& r.1@ == outline_errors(toks@, file, es)
            &&& r.0.items@.len() == es.len()
            &&& r.0.includes@.len() == m
            &&& forall|k: int| 0 <= k < es.len() ==> outline_item(toks@, file, es[k], #[trigger] r.0.items@[k])
        }),
        error_items_listed(r.0.items@, r.1@),
{
    let mut errors: Vec<ParseError> = Vec::new();
    let tokens = match lexed {
        Ok(tokens) => tokens,
        Err(lex_error) => {
            let offset = lex_error.offset;
            errors.push(
                ParseError {
                    kind: ParseErrorKind::LexError(lex_error),
                    file,
                    start: offset,
                    end: if offset == usize::MAX {
                        0
                    } else {
                        offset + 1
                    },
                },
            );
            Vec::new()
        },
    };
    let mut parser = Parser::new(tokens.as_slice(), file, known);
    parser.errors = errors;
    let mut items: Vec<AstTopLevelItem> = Vec::new();
    let mut includes: Vec<AstIncludePath> = Vec::new();
    let ghost first_errors = parser.errors@;
    let ghost so = file_outline(tokens@, known, 0);
    while parser.position < tokens.len()
        invariant
            parser.wf(),
            parser.known == known && parser.file == file,
            so == file_outline(tokens@, known, 0),
            so matches Some((es, m)) ==> {
                &&& file_outline(tokens@, known, parser.position as int) matches Some((es2, m2))
                    && items@.len() + es2.len() == es.len() && es2 == es.subrange(
                    items@.len() as int,
                    es.len() as int,
                ) && includes@.len() + m2 == m
                &&& parser.errors@ == first_errors + outline_errors(tokens@, file, es.take(items@.len() as int))
                &&& forall|k: int| 0 <= k < items@.len() ==> outline_item(tokens@, file, es[k], #[trigger] items@[k])
            },
            error_items_listed(items@, parser.errors@),
            parser.tokens@ == tokens@,
            parser.annotations@.len() == 0,
            parser.errors@.len() >= first_errors.len(),
            forall|i: int| 0 <= i < first_errors.len() ==> parser.errors@[i] == first_errors[i],
            tokens@.len() == 0 ==> items@.len() == 0 && includes@.len() == 0 && parser.errors@
                == first_errors,
        decreases parser.remaining(),
    {
        let item_pos = parser.position;
        let start = parser.get_start();
        let ghost items0 = items@;
        let ghost errs0 = parser.errors@;
        let ghost k = items@.len() as int;
        proof {
            if let Some((es, m)) = so {
                let (es2, m2) = file_outline(tokens@, known, item_pos as int)->0;
                lemma_sync_end_bounds(tokens@, item_pos as int, 0);
                if simple_item_len(tokens@, known, item_pos as int) != 2 {
                    let (es3, m3) = file_outline(
                        tokens@,
                        known,
                        if simple_item_len(tokens@, known, item_pos as int) > 0 {
                            item_pos + simple_item_len(tokens@, known, item_pos as int)
                        } else if module_item_len(tokens@, item_pos as int) > 0 {
                            item_pos + module_item_len(tokens@, item_pos as int)
                        } else {
                            recovery_end(tokens@, item_pos as int, item_pos as int)
                        },
                    )->0;
                    lemma_outline_step(es, k, es2[0], es3);
                    lemma_outline_errors_take(tokens@, file, es, k);
                }
            }
        }
        match parser.parse_any_toplevel_item() {
            Ok(item) => {
                let Annotated { data, annotations, span } = item;
                match data {
                    AstAnyTopLevelItemDesc::Include(inc_path) => {
                        includes.push(inc_path);
                        proof {
                            lemma_error_items_listed(items0, errs0, parser.errors@, None);
                        }
                    },
                    AstAnyTopLevelItemDesc::Item(x) => {
                        let it = Annotated::new(*x, annotations, span);
                        proof {
                            lemma_error_items_listed(items0, errs0, parser.errors@, Some(it));
                        }
                        items.push(it);
                        proof {
                            assert(items@.take(k) =~= items0);
                        }
                    },
                }
            },
            Err(err) => {
                parser.recover_after_item(item_pos);
                parser.errors.push(err.duplicate());
                let it = Annotated::new(AstTopLevelItemDesc::Error(err), Vec::new(), start.span(parser.get_end()));
                proof {
                    lemma_error_items_listed(items0, errs0, parser.errors@, Some(it));
                }
                items.push(it);
            },
        }
    }
    proof {
        if let Some((es, m)) = so {
            assert(es.take(es.len() as int) =~= es);
            assert(first_errors.len() == 0 ==> first_errors + outline_errors(tokens@, file, es) =~= outline_errors(
                tokens@,
                file,
                es,
            ));
        }
    }
    let errors = parser.errors;
    (Ast { items, includes }, errors)
}

} // verus!
