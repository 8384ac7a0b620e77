use rockr::hir::Mutability;
use rockr::printer::type_printer::{
    is_builtin_pretty_print, BuiltinShape, TypePrinter, TypePrinterOption, TypePrinterOptionSet,
};
use rockr::resolved::PtrKind;
use rockr::ril::{TypeId, TypeParamId, TypeRef};
use rockr::common::Symbol;

#[test]
fn default_options() {
    let s = TypePrinterOptionSet::default();
    assert!(s.has(TypePrinterOption::PrintPath));
    assert!(s.has(TypePrinterOption::PrettyPrintBuiltinADTs));
    assert!(!s.has(TypePrinterOption::PrintBuiltin));
    assert!(!s.has(TypePrinterOption::DebugInferenceVars));
    let p = TypePrinter::new();
    assert_eq!(p.options, s);
}

#[test]
fn with_adds_one_option() {
    let s = TypePrinterOptionSet::with_options(vec![]);
    assert!(!s.has(TypePrinterOption::PrintPath));
    let s = s.with(TypePrinterOption::DebugInferenceVars);
    assert!(s.has(TypePrinterOption::DebugInferenceVars));
    assert!(!s.has(TypePrinterOption::PrintPath));
    assert!(!s.has(TypePrinterOption::PrintBuiltin));
    let again = s.with(TypePrinterOption::DebugInferenceVars);
    assert_eq!(again, s);
}

#[test]
fn with_options_sets_exactly_those() {
    let s = TypePrinterOptionSet::with_options(vec![
        TypePrinterOption::PrintBuiltin,
        TypePrinterOption::PrintBuiltin,
        TypePrinterOption::PrintPath,
    ]);
    assert!(s.has(TypePrinterOption::PrintBuiltin));
    assert!(s.has(TypePrinterOption::PrintPath));
    assert!(!s.has(TypePrinterOption::DebugInferenceVars));
    assert!(!s.has(TypePrinterOption::PrettyPrintBuiltinADTs));
    let p = TypePrinter::with_options(vec![TypePrinterOption::PrintPath]);
    assert!(p.options.has(TypePrinterOption::PrintPath));
    assert!(!p.options.has(TypePrinterOption::PrettyPrintBuiltinADTs));
}

#[test]
fn type_params_print_as_t_and_index() {
    let p = TypePrinter::new();
    assert_eq!(p.type_param_id_to_string(TypeParamId(0)), "T0");
    assert_eq!(p.type_param_id_to_string(TypeParamId(42)), "T42");
    assert_eq!(p.type_param_id_to_string(TypeParamId(1000)), "T1000");
}

#[test]
fn pointer_mutability() {
    assert_eq!(PtrKind::Ref(Mutability::Mutable).mutability(), Mutability::Mutable);
    assert_eq!(PtrKind::RawPtr(Mutability::Const).mutability(), Mutability::Const);
}

fn strings(v: &[&str]) -> Vec<String> {
    v.iter().map(|s| s.to_string()).collect()
}

#[test]
fn module_paths_leave_out_the_builtin_root() {
    let p = TypePrinter::new();
    assert_eq!(p.module_to_string(&strings(&["@builtin", "core", "io"]), true), "core::io");
    assert_eq!(p.module_to_string(&strings(&["@builtin"]), true), "");
    assert_eq!(p.module_to_string(&strings(&["main", "util"]), false), "main::util");
    let q = TypePrinter::with_options(vec![TypePrinterOption::PrintBuiltin]);
    assert_eq!(q.module_to_string(&strings(&["@builtin", "core"]), true), "@builtin::core");
}

#[test]
fn type_definitions_and_interfaces() {
    let p = TypePrinter::new();
    assert_eq!(p.type_def_id_to_string(&"core::io".to_string(), &"str".to_string()), "core::io::str");
    assert_eq!(p.type_def_id_to_string(&String::new(), &"int".to_string()), "int");
    let bare = TypePrinter::with_options(vec![]);
    assert_eq!(bare.type_def_id_to_string(&"core".to_string(), &"Vec".to_string()), "Vec");
    assert_eq!(bare.interface_id_to_string(&"core".to_string(), &"Eq".to_string()), "core::Eq");
    assert_eq!(p.interface_ref_to_string(&"Into".to_string(), &strings(&["int", "str"])), "Into<int, str>");
    assert_eq!(p.interface_ref_to_string(&"Eq".to_string(), &vec![]), "Eq");
}

#[test]
fn type_ids_with_and_without_their_own_syntax() {
    let p = TypePrinter::with_options(vec![TypePrinterOption::PrettyPrintBuiltinADTs]);
    let tuple = Some(BuiltinShape::Tuple);
    assert_eq!(p.type_id_to_string(&"tuple".to_string(), tuple, &strings(&["bool", "bool"])), "(bool, bool)");
    let mut_ref = Some(BuiltinShape::Pointer(PtrKind::Ref(Mutability::Mutable)));
    assert_eq!(p.type_id_to_string(&"mut_ref".to_string(), mut_ref, &strings(&["bool"])), "&mut bool");
    let ptr = Some(BuiltinShape::Pointer(PtrKind::RawPtr(Mutability::Const)));
    assert_eq!(p.type_id_to_string(&"ptr".to_string(), ptr, &strings(&["u8"])), "*u8");
    assert_eq!(p.type_id_to_string(&"slice".to_string(), Some(BuiltinShape::Slice), &strings(&["u8"])), "[u8]");
    assert_eq!(p.type_id_to_string(&"bool".to_string(), Some(BuiltinShape::Plain), &vec![]), "bool");
    assert_eq!(p.type_id_to_string(&"Vec".to_string(), None, &strings(&["int"])), "Vec<int>");
    assert_eq!(p.type_id_to_string(&"int".to_string(), None, &vec![]), "int");
    let q = TypePrinter::with_options(vec![]);
    assert_eq!(q.type_id_to_string(&"()".to_string(), tuple, &strings(&["bool", "bool"])), "()<bool, bool>");
    assert_eq!(is_builtin_pretty_print(BuiltinShape::Plain), None);
}

#[test]
fn type_refs_and_called_functions() {
    let p = TypePrinter::new();
    let e = String::new();
    assert_eq!(p.type_ref_to_string(TypeRef::Concrete(TypeId { id: 3 }), &"int".to_string(), &e), "int");
    assert_eq!(p.type_ref_to_string(TypeRef::Associated(Symbol { id: 1 }), &e, &"Item".to_string()), "Self::Item");
    assert_eq!(p.type_ref_to_string(TypeRef::Param(TypeParamId(2)), &e, &e), "T2");
    assert_eq!(p.type_ref_to_string(TypeRef::Zelf, &e, &e), "Self");
    assert_eq!(p.type_ref_to_string(TypeRef::Error, &e, &e), "<ERROR>");
    assert_eq!(p.type_ref_to_string(TypeRef::Unknown, &e, &e), "<???>");
    assert_eq!(p.called_function_to_string(&"core::io".to_string(), &"print".to_string()), "core::io::print");
}

#[test]
fn impl_blocks_and_signatures() {
    let p = TypePrinter::new();
    let bounds = vec![strings(&[]), strings(&["Eq", "Hash<T0>"])];
    assert_eq!(
        p.impl_id_to_string(&"core::map".to_string(), &bounds, &Some("Display".to_string())),
        "core::map::`impl <T0, T1: Eq + Hash<T0>>Display `"
    );
    assert_eq!(p.impl_id_to_string(&String::new(), &vec![], &None), "`impl `");
    let args = vec![("a".to_string(), "i32".to_string()), ("b".to_string(), "T0".to_string())];
    assert_eq!(
        p.function_sig_to_string(&"f".to_string(), &vec![strings(&["Ord"])], &Some("&self".to_string()), &args, &"bool".to_string()),
        "f<T0: Ord>(&self, a: i32, b: T0): bool"
    );
    assert_eq!(
        p.function_sig_to_string(&"g".to_string(), &vec![], &Some("self".to_string()), &vec![], &"()".to_string()),
        "g(self): ()"
    );
    assert_eq!(p.function_sig_to_string(&"h".to_string(), &vec![], &None, &vec![], &"i8".to_string()), "h(): i8");
}
