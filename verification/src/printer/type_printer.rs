//! Options that control how types are printed, and the printer that holds
//! them.
use vstd::prelude::*;
use vstd::string::*;
use crate::mangle::{decimal, push_decimal};
use crate::common::join::{join_names, joined, names_view};
use crate::ril::{TypeParamId, TypeRef};
use crate::hir::Mutability;
use crate::resolved::PtrKind;

verus! {

/// One switch of the type printer.
#[derive(Debug, Clone, Copy, PartialEq, Eq, Hash, Structural)]
pub enum TypePrinterOption {
    /// Print as a fully-qualified path from the outermost scope to the
    /// innermost, as in `core::io::str`.
    PrintPath,
    /// Print the `@builtin` outer scope when printing a path.
    PrintBuiltin,
    /// Print inference variables by their number rather than as `_`.
    DebugInferenceVars,
    /// Print builtin types such as tuples and references in their own syntax.
    PrettyPrintBuiltinADTs,
}

/// A set of printer options.
#[derive(Debug, Clone, Copy, PartialEq, Eq, Structural)]
pub struct TypePrinterOptionSet {
    print_path: bool,
    print_builtin: bool,
    debug_inference_vars: bool,
    pretty_print_builtin_adts: bool,
}

impl View for TypePrinterOptionSet {
    type V = Set<TypePrinterOption>;

    closed spec fn view(&self) -> Set<TypePrinterOption> {
        Set::new(
            |o: TypePrinterOption|
                match o {
                    TypePrinterOption::PrintPath => self.print_path,
                    TypePrinterOption::PrintBuiltin => self.print_builtin,
                    TypePrinterOption::DebugInferenceVars => self.debug_inference_vars,
                    TypePrinterOption::PrettyPrintBuiltinADTs => self.pretty_print_builtin_adts,
                },
        )
    }
}

/// The options a printer starts with: pretty builtin types and full paths.
pub open spec fn default_options() -> Set<TypePrinterOption> {
    set![TypePrinterOption::PrettyPrintBuiltinADTs, TypePrinterOption::PrintPath]
}

impl TypePrinterOptionSet {
    /// Whether `opt` is set.
    pub fn has(&self, opt: TypePrinterOption) -> (r: bool)
        ensures
            r == self@.contains(opt),
    {
        match opt {
            TypePrinterOption::PrintPath => self.print_path,
            TypePrinterOption::PrintBuiltin => self.print_builtin,
            TypePrinterOption::DebugInferenceVars => self.debug_inference_vars,
            TypePrinterOption::PrettyPrintBuiltinADTs => self.pretty_print_builtin_adts,
        }
    }

    /// The set holding exactly the given options.
    pub fn with_options(opts: Vec<TypePrinterOption>) -> (r: Self)
        ensures
            r@ == opts@.to_set(),
    {
        let mut r = TypePrinterOptionSet {
            print_path: false,
            print_builtin: false,
            debug_inference_vars: false,
            pretty_print_builtin_adts: false,
        };
        let mut i: usize = 0;
        while i < opts.len()
            invariant
                i <= opts.len(),
                r@ == opts@.take(i as int).to_set(),
            decreases opts.len() - i,
        {
            r = r.with(opts[i]);
            proof {
                assert(opts@.take(i + 1) =~= opts@.take(i as int).push(opts@[i as int]));
                opts@.take(i as int).lemma_push_to_set_commute(opts@[i as int]);
            }
            i += 1;
        }
        proof {
            assert(opts@.take(opts.len() as int) =~= opts@);
        }
        r
    }

    /// This set with `opt` added.
    pub fn with(self, opt: TypePrinterOption) -> (r: Self)
        ensures
            r@ == self@.insert(opt),
    {
        let mut this = self;
        match opt {
            TypePrinterOption::PrintPath => this.print_path = true,
            TypePrinterOption::PrintBuiltin => this.print_builtin = true,
            TypePrinterOption::DebugInferenceVars => this.debug_inference_vars = true,
            TypePrinterOption::PrettyPrintBuiltinADTs => this.pretty_print_builtin_adts = true,
        }
        assert(this@ =~= self@.insert(opt));
        this
    }
}

impl Default for TypePrinterOptionSet {
    fn default() -> (r: Self)
        ensures
            r@ == default_options(),
    {
        let r = TypePrinterOptionSet {
            print_path: true,
            print_builtin: false,
            debug_inference_vars: false,
            pretty_print_builtin_adts: true,
        };
        assert(r@ =~= default_options());
        r
    }
}

/// `name` after `prefix`, with `::` between them unless `prefix` is empty.
pub open spec fn qualified(prefix: Seq<char>, name: Seq<char>) -> Seq<char> {
    if prefix.len() == 0 {
        name
    } else {
        prefix + "::"@ + name
    }
}

/// The names of a path written one after the other, each after `::` unless
/// nothing was written before it.
pub open spec fn path_text(names: Seq<Seq<char>>) -> Seq<char>
    decreases names.len(),
{
    if names.len() == 0 {
        seq![]
    } else {
        qualified(path_text(names.drop_last()), names.last())
    }
}

/// The names of a module path that are printed: the builtin outer module is
/// left out unless the options ask for it.
pub open spec fn shown_modules(opts: Set<TypePrinterOption>, names: Seq<Seq<char>>, root_is_builtin: bool) -> Seq<
    Seq<char>,
> {
    if root_is_builtin && !opts.contains(TypePrinterOption::PrintBuiltin) && names.len() > 0 {
        names.drop_first()
    } else {
        names
    }
}

/// A named type with the texts of its arguments: in its own syntax when it
/// is a builtin that has one and the options ask for it, bare without
/// arguments, else with the arguments between `<` and `>`.
pub open spec fn type_id_text(
    opts: Set<TypePrinterOption>,
    def: Seq<char>,
    pretty: Option<(Seq<char>, Seq<char>)>,
    fields: Seq<Seq<char>>,
) -> Seq<char> {
    if opts.contains(TypePrinterOption::PrettyPrintBuiltinADTs) && pretty is Some {
        match pretty {
            Some((prefix, suffix)) => prefix + joined(fields, ", "@) + suffix,
            None => seq![],
        }
    } else if fields.len() == 0 {
        def
    } else {
        def + "<"@ + joined(fields, ", "@) + ">"@
    }
}

/// What a builtin type definition is, as far as printing goes: a reference
/// or raw pointer, the slice, the tuple, or another builtin.
#[derive(Debug, Clone, Copy, PartialEq, Eq, Structural)]
pub enum BuiltinShape {
    Pointer(PtrKind),
    Slice,
    Tuple,
    Plain,
}

/// The prefix and suffix of a builtin's own syntax: `&`, `&mut `, `*` or
/// `*mut ` before a pointee; `[` and `]` round a slice's element; `(` and
/// `)` round a tuple's elements; none for other builtins.
pub open spec fn builtin_syntax(b: BuiltinShape) -> Option<(Seq<char>, Seq<char>)> {
    match b {
        BuiltinShape::Pointer(k) => {
            let (sigil, m) = match k {
                PtrKind::Ref(m) => ("&"@, m),
                PtrKind::RawPtr(m) => ("*"@, m),
            };
            Some((sigil + (if m == Mutability::Mutable {
                "mut "@
            } else {
                seq![]
            }), seq![]))
        },
        BuiltinShape::Slice => Some(("["@, "]"@)),
        BuiltinShape::Tuple => Some(("("@, ")"@)),
        BuiltinShape::Plain => None,
    }
}

/// The prefix and suffix of a builtin's own syntax, if it has one.
pub fn is_builtin_pretty_print(b: BuiltinShape) -> (r: Option<(String, String)>)
    ensures
        match r {
            Some(p) => builtin_syntax(b) == Some((p.0@, p.1@)),
            None => builtin_syntax(b) is None,
        },
{
    proof {
        reveal_strlit("&");
        reveal_strlit("*");
        reveal_strlit("mut ");
        reveal_strlit("[");
        reveal_strlit("]");
        reveal_strlit("(");
        reveal_strlit(")");
        reveal_strlit("");
    }
    match b {
        BuiltinShape::Pointer(k) => {
            let (sigil, m) = match k {
                PtrKind::Ref(m) => ("&", m),
                PtrKind::RawPtr(m) => ("*", m),
            };
            let mut prefix = String::from_str(sigil);
            match m {
                Mutability::Mutable => prefix.append("mut "),
                Mutability::Const => {},
            }
            Some((prefix, String::from_str("")))
        },
        BuiltinShape::Slice => Some((String::from_str("["), String::from_str("]"))),
        BuiltinShape::Tuple => Some((String::from_str("("), String::from_str(")"))),
        BuiltinShape::Plain => None,
    }
}

/// Prints types, module paths and signatures for diagnostics.
pub struct TypePrinter {
    pub options: TypePrinterOptionSet,
}

/// The spelling of a template parameter: `T` and its index.
pub open spec fn type_param_text(id: TypeParamId) -> Seq<char> {
    seq!['T'] + decimal(id.0 as nat)
}

/// The texts of the bounds of each template parameter.
pub open spec fn bounds_view(b: Seq<Vec<String>>) -> Seq<Seq<Seq<char>>> {
    b.map_values(|v: Vec<String>| names_view(v@))
}

/// Template parameter `i` with its bounds: `T` and the index, then `: ` and
/// the bounds joined by ` + ` when it has any.
pub open spec fn template_text(i: nat, bounds: Seq<Seq<char>>) -> Seq<char> {
    seq!['T'] + decimal(i) + (if bounds.len() == 0 {
        seq![]
    } else {
        ": "@ + joined(bounds, " + "@)
    })
}

/// The template parameters, numbered from 0, joined by `, `.
pub open spec fn templates_text(bounds: Seq<Seq<Seq<char>>>) -> Seq<char> {
    joined(Seq::new(bounds.len(), |i: int| template_text(i as nat, bounds[i])), ", "@)
}

/// The template parameters between `<` and `>`, or nothing when there are none.
pub open spec fn template_list_text(bounds: Seq<Seq<Seq<char>>>) -> Seq<char> {
    if bounds.len() == 0 {
        seq![]
    } else {
        "<"@ + templates_text(bounds) + ">"@
    }
}

/// An impl block after the text of its module: its template parameters and
/// the interface it implements, between backquotes.
pub open spec fn impl_text(module: Seq<char>, bounds: Seq<Seq<Seq<char>>>, interface: Option<Seq<char>>) -> Seq<
    char,
> {
    qualified(
        module,
        "`impl "@ + template_list_text(bounds) + (match interface {
            Some(t) => t + " "@,
            None => seq![],
        }) + "`"@,
    )
}

/// A signature: the name, the template parameters, the receiver and the
/// arguments `name: type` between brackets, `: ` and the return type.
pub open spec fn function_sig_text(
    name: Seq<char>,
    bounds: Seq<Seq<Seq<char>>>,
    zelf: Option<Seq<char>>,
    args: Seq<(Seq<char>, Seq<char>)>,
    ret: Seq<char>,
) -> Seq<char> {
    name + template_list_text(bounds) + "("@ + (match zelf {
        Some(z) => z + (if args.len() > 0 {
            ", "@
        } else {
            seq![]
        }),
        None => seq![],
    }) + joined(args.map_values(|a: (Seq<char>, Seq<char>)| a.0 + ": "@ + a.1), ", "@) + "): "@ + ret
}

impl TypePrinter {
    /// A printer with the default options.
    pub fn new() -> (r: Self)
        ensures
            r.options@ == default_options(),
    {
        TypePrinter { options: TypePrinterOptionSet::default() }
    }

    /// A printer with exactly the given options.
    pub fn with_options(opts: Vec<TypePrinterOption>) -> (r: Self)
        ensures
            r.options@ == opts@.to_set(),
    {
        TypePrinter { options: TypePrinterOptionSet::with_options(opts) }
    }

    /// `T` followed by the parameter's index.
    pub fn type_param_id_to_string(&self, id: TypeParamId) -> (r: String)
        ensures
            r@ == type_param_text(id),
    {
        proof {
            reveal_strlit("T");
        }
        let mut r = String::from_str("T");
        push_decimal(&mut r, id.0);
        r
    }
}

impl TypePrinter {
    /// The path of a module given the names from the outermost module down to
    /// it: the builtin outer module is printed only with `PrintBuiltin`.
    pub fn module_to_string(&self, names: &Vec<String>, root_is_builtin: bool) -> (r: String)
        ensures
            r@ == path_text(shown_modules(self.options@, names_view(names@), root_is_builtin)),
    {
        let skip: usize = if root_is_builtin && !self.options.has(TypePrinterOption::PrintBuiltin)
            && names.len() > 0 {
            1
        } else {
            0
        };
        let ghost shown = shown_modules(self.options@, names_view(names@), root_is_builtin);
        assert(shown =~= names_view(names@).subrange(skip as int, names@.len() as int));
        let mut r = String::new();
        let mut i = skip;
        while i < names.len()
            invariant
                skip <= i <= names@.len(),
                shown =~= names_view(names@).subrange(skip as int, names@.len() as int),
                r@ == path_text(shown.take(i - skip)),
            decreases names@.len() - i,
        {
            proof {
                assert(shown.take(i + 1 - skip).drop_last() =~= shown.take(i - skip));
                reveal_strlit("::");
            }
            if r.as_str().unicode_len() > 0 {
                r.append("::");
            }
            r.append(names[i].as_str());
            i += 1;
        }
        assert(shown.take(names@.len() - skip) =~= shown);
        r
    }

    /// A type definition after the text of its module: with the module only
    /// under `PrintPath`.
    pub fn type_def_id_to_string(&self, module: &String, name: &String) -> (r: String)
        ensures
            r@ == (if self.options@.contains(TypePrinterOption::PrintPath) {
                qualified(module@, name@)
            } else {
                name@
            }),
    {
        if self.options.has(TypePrinterOption::PrintPath) {
            self.qualify(module, name)
        } else {
            name.clone()
        }
    }

    /// An interface after the text of its module.
    pub fn interface_id_to_string(&self, module: &String, name: &String) -> (r: String)
        ensures
            r@ == qualified(module@, name@),
    {
        self.qualify(module, name)
    }

    /// `name` after `prefix` and `::`, or alone when `prefix` is empty.
    fn qualify(&self, prefix: &String, name: &String) -> (r: String)
        ensures
            r@ == qualified(prefix@, name@),
    {
        proof {
            reveal_strlit("::");
        }
        let mut r = prefix.clone();
        if r.as_str().unicode_len() > 0 {
            r.append("::");
        }
        r.append(name.as_str());
        r
    }

    /// A named type from the text of its definition, what it is when it is a
    /// builtin, and the texts of its arguments.
    pub fn type_id_to_string(&self, def: &String, builtin: Option<BuiltinShape>, fields: &Vec<String>) -> (r:
        String)
        ensures
            r@ == type_id_text(
                self.options@,
                def@,
                match builtin {
                    Some(b) => builtin_syntax(b),
                    None => None,
                },
                names_view(fields@),
            ),
    {
        let pretty = match builtin {
            Some(b) => is_builtin_pretty_print(b),
            None => None,
        };
        proof {
            reveal_strlit("<");
            reveal_strlit(">");
            reveal_strlit(", ");
        }
        let fields_str = join_names(fields, ", ");
        if self.options.has(TypePrinterOption::PrettyPrintBuiltinADTs) && pretty.is_some() {
            let p = pretty.as_ref().unwrap();
            let mut r = p.0.clone();
            r.append(fields_str.as_str());
            r.append(p.1.as_str());
            r
        } else if fields.len() == 0 {
            def.clone()
        } else {
            let mut r = def.clone();
            r.append("<");
            r.append(fields_str.as_str());
            r.append(">");
            r
        }
    }

    /// An interface applied to arguments: the interface's text, then the
    /// arguments' texts between `<` and `>` when there are any.
    pub fn interface_ref_to_string(&self, interface: &String, args: &Vec<String>) -> (r: String)
        ensures
            r@ == (if args@.len() == 0 {
                interface@
            } else {
                interface@ + "<"@ + joined(names_view(args@), ", "@) + ">"@
            }),
    {
        proof {
            reveal_strlit("<");
            reveal_strlit(">");
            reveal_strlit(", ");
        }
        let mut r = interface.clone();
        if args.len() > 0 {
            let args_str = join_names(args, ", ");
            r.append("<");
            r.append(args_str.as_str());
            r.append(">");
        }
        r
    }

    /// A type reference, given the text of the type it names when it is
    /// concrete and the name when it is an associated type.
    pub fn type_ref_to_string(&self, type_ref: TypeRef, concrete: &String, associated: &String) -> (r: String)
        ensures
            r@ == match type_ref {
                TypeRef::Concrete(_) => concrete@,
                TypeRef::Associated(_) => "Self::"@ + associated@,
                TypeRef::Param(p) => type_param_text(p),
                TypeRef::Zelf => "Self"@,
                TypeRef::Error => "<ERROR>"@,
                TypeRef::Unknown => "<???>"@,
            },
    {
        proof {
            reveal_strlit("Self::");
            reveal_strlit("Self");
            reveal_strlit("<ERROR>");
            reveal_strlit("<???>");
        }
        match type_ref {
            TypeRef::Concrete(_) => concrete.clone(),
            TypeRef::Associated(_) => {
                let mut r = String::from_str("Self::");
                r.append(associated.as_str());
                r
            },
            TypeRef::Param(p) => self.type_param_id_to_string(p),
            TypeRef::Zelf => String::from_str("Self"),
            TypeRef::Error => String::from_str("<ERROR>"),
            TypeRef::Unknown => String::from_str("<???>"),
        }
    }

    /// The template parameters, numbered from 0, each with its bounds.
    fn templates_to_string(&self, bounds: &Vec<Vec<String>>) -> (r: String)
        ensures
            r@ == templates_text(bounds_view(bounds@)),
    {
        proof {
            reveal_strlit("T");
            reveal_strlit(": ");
            reveal_strlit(" + ");
            reveal_strlit(", ");
        }
        let ghost bv = bounds_view(bounds@);
        let mut parts: Vec<String> = Vec::new();
        let mut i: usize = 0;
        while i < bounds.len()
            invariant
                i <= bounds@.len(),
                bv == bounds_view(bounds@),
                parts@.len() == i,
                forall|j: int| 0 <= j < i ==> (#[trigger] parts@[j])@ == template_text(j as nat, bv[j]),
            decreases bounds@.len() - i,
        {
            proof {
                reveal_strlit("T");
                reveal_strlit(": ");
                reveal_strlit(" + ");
            }
            let ghost bi = bv[i as int];
            assert(bi == names_view(bounds@[i as int]@));
            assert(bi.len() == bounds@[i as int]@.len());
            let mut t = String::from_str("T");
            assert(t@ =~= seq!['T']);
            push_decimal(&mut t, i);
            let ghost t0 = t@;
            assert(t0 =~= seq!['T'] + decimal(i as nat));
            if bounds[i].len() > 0 {
                t.append(": ");
                let b = join_names(&bounds[i], " + ");
                assert(b@ == joined(bi, " + "@));
                t.append(b.as_str());
                assert(t@ =~= t0 + (": "@ + joined(bi, " + "@)));
            } else {
                assert(t@ =~= t0 + seq![]);
            }
            assert(t@ =~= template_text(i as nat, bi));
            parts.push(t);
            i += 1;
        }
        assert(names_view(parts@) =~= Seq::new(bv.len(), |j: int| template_text(j as nat, bv[j])));
        join_names(&parts, ", ")
    }

    /// An impl block from the text of its module, the bounds of its template
    /// parameters and the text of the interface it implements, if any.
    pub fn impl_id_to_string(&self, module: &String, bounds: &Vec<Vec<String>>, interface: &Option<String>) -> (r:
        String)
        ensures
            r@ == impl_text(
                module@,
                bounds_view(bounds@),
                match interface {
                    Some(t) => Some(t@),
                    None => None,
                },
            ),
    {
        proof {
            reveal_strlit("`impl ");
            reveal_strlit("<");
            reveal_strlit(">");
            reveal_strlit(" ");
            reveal_strlit("`");
        }
        let mut rest = String::from_str("`impl ");
        if bounds.len() > 0 {
            rest.append("<");
            let t = self.templates_to_string(bounds);
            rest.append(t.as_str());
            rest.append(">");
        }
        match interface {
            Some(t) => {
                rest.append(t.as_str());
                rest.append(" ");
            },
            None => {},
        }
        rest.append("`");
        self.qualify(module, &rest)
    }

    /// A signature from the texts of its parts: the name, the bounds of its
    /// template parameters, the receiver, the arguments' names and types and
    /// the return type.
    pub fn function_sig_to_string(
        &self,
        name: &String,
        bounds: &Vec<Vec<String>>,
        zelf: &Option<String>,
        args: &Vec<(String, String)>,
        ret: &String,
    ) -> (r: String)
        ensures
            r@ == function_sig_text(
                name@,
                bounds_view(bounds@),
                match zelf {
                    Some(z) => Some(z@),
                    None => None,
                },
                args@.map_values(|a: (String, String)| (a.0@, a.1@)),
                ret@,
            ),
    {
        proof {
            reveal_strlit("<");
            reveal_strlit(">");
            reveal_strlit("(");
            reveal_strlit(", ");
            reveal_strlit(": ");
            reveal_strlit("): ");
        }
        let ghost av = args@.map_values(|a: (String, String)| (a.0@, a.1@));
        let mut r = name.clone();
        if bounds.len() > 0 {
            r.append("<");
            let t = self.templates_to_string(bounds);
            r.append(t.as_str());
            r.append(">");
        }
        r.append("(");
        match zelf {
            Some(z) => {
                r.append(z.as_str());
                if args.len() > 0 {
                    r.append(", ");
                }
            },
            None => {},
        }
        let mut parts: Vec<String> = Vec::new();
        let mut i: usize = 0;
        while i < args.len()
            invariant
                i <= args@.len(),
                av == args@.map_values(|a: (String, String)| (a.0@, a.1@)),
                parts@.len() == i,
                forall|j: int| 0 <= j < i ==> (#[trigger] parts@[j])@ == av[j].0 + ": "@ + av[j].1,
            decreases args@.len() - i,
        {
            proof {
                reveal_strlit(": ");
            }
            let mut t = args[i].0.clone();
            t.append(": ");
            t.append(args[i].1.as_str());
            parts.push(t);
            i += 1;
        }
        assert(names_view(parts@) =~= av.map_values(|a: (Seq<char>, Seq<char>)| a.0 + ": "@ + a.1));
        let joined_args = join_names(&parts, ", ");
        r.append(joined_args.as_str());
        r.append("): ");
        r.append(ret.as_str());
        r
    }

    /// A function called through its owner: the owner's text, `::` and the
    /// function's name.
    pub fn called_function_to_string(&self, owner: &String, name: &String) -> (r: String)
        ensures
            r@ == owner@ + "::"@ + name@,
    {
        proof {
            reveal_strlit("::");
        }
        let mut r = owner.clone();
        r.append("::");
        r.append(name.as_str());
        r
    }
}

} // verus!
