use rockr::layout::IntWidth;
use rockr::mangle::{fun_mangle, mangle_ident, FunctionKind, IntKind, MangleFun, MangleSig, MangleType};

fn adt(path: &[&str], name: &str, parameters: Vec<MangleType>) -> MangleType {
    MangleType::Adt {
        path: path.iter().map(|s| s.to_string()).collect(),
        name: name.to_string(),
        parameters,
    }
}

#[test]
fn ident_is_length_prefixed() {
    assert_eq!(mangle_ident("foo"), "3foo");
    assert_eq!(mangle_ident(""), "0");
    assert_eq!(mangle_ident("abcdefghijkl"), "12abcdefghijkl");
    // The length is counted in bytes.
    assert_eq!(mangle_ident("é"), "2é");
}

#[test]
fn int_kinds() {
    assert_eq!(IntKind { width: IntWidth::I8, signed: true }.mangle(), "i1");
    assert_eq!(IntKind { width: IntWidth::I32, signed: false }.mangle(), "u4");
    assert_eq!(IntKind { width: IntWidth::I128, signed: true }.mangle(), "i16");
}

#[test]
fn simple_types() {
    assert_eq!(MangleType::Bool.mangle(), "b");
    assert_eq!(MangleType::Never.mangle(), "z");
    assert_eq!(MangleType::Error.mangle(), "X");
    assert_eq!(MangleType::Ptr(Box::new(MangleType::Bool)).mangle(), "Pb");
    assert_eq!(MangleType::Array(Box::new(MangleType::Never)).mangle(), "Az");
    assert_eq!(MangleType::Tuple(vec![]).mangle(), "TE");
    assert_eq!(
        MangleType::Tuple(vec![MangleType::Bool, MangleType::Int(IntKind { width: IntWidth::I64, signed: true })])
            .mangle(),
        "Tbi8E"
    );
}

#[test]
fn adt_types() {
    let t = adt(&["core", "vec"], "Vec", vec![MangleType::Bool]);
    assert_eq!(t.mangle(), "N4core3vec3VecEbE");
    assert_eq!(adt(&[], "S", vec![]).mangle(), "N1SEE");
}

#[test]
fn signatures() {
    let sig = MangleSig {
        name: "add".to_string(),
        parameters: vec![
            MangleType::Int(IntKind { width: IntWidth::I32, signed: true }),
            MangleType::Int(IntKind { width: IntWidth::I32, signed: true }),
        ],
        ret: MangleType::Int(IntKind { width: IntWidth::I32, signed: true }),
    };
    assert_eq!(sig.mangle(), "3addi4i4Ei4");
}

#[test]
fn functions() {
    let f = MangleFun::Function {
        path: vec!["main".to_string()],
        sig: MangleSig { name: "f".to_string(), parameters: vec![], ret: MangleType::Tuple(vec![]) },
        templates: vec![MangleType::Bool],
    };
    assert_eq!(f.mangle(), "_ZF4mainE1fETEGbE");
    let m = MangleFun::Method {
        is_static: false,
        ty: adt(&[], "S", vec![]),
        sig: MangleSig { name: "get".to_string(), parameters: vec![], ret: MangleType::Bool },
        templates: vec![],
    };
    assert_eq!(m.mangle(), "_ZMmN1SEE3getEbGE");
    assert_eq!(MangleFun::Extern("printf".to_string()).mangle(), "printf");
}

#[test]
fn distinct_types_get_distinct_names() {
    let a = adt(&["a"], "b", vec![]);
    let b = adt(&[], "ab", vec![]);
    assert_ne!(a.mangle(), b.mangle());
    let c = MangleType::Tuple(vec![MangleType::Tuple(vec![]), MangleType::Bool]);
    let d = MangleType::Tuple(vec![MangleType::Tuple(vec![MangleType::Bool])]);
    assert_ne!(c.mangle(), d.mangle());
}

#[test]
fn methods_on_integers_can_collide() {
    // The receiver's size digits run into the length of the method name.
    let long_name = format!("xEN60x{}", "a".repeat(55));
    let w = format!("x{}EN1q", "a".repeat(55));
    let a = MangleFun::Method {
        is_static: true,
        ty: MangleType::Int(IntKind { width: IntWidth::I8, signed: true }),
        sig: MangleSig { name: long_name, parameters: vec![], ret: adt(&[], "q", vec![]) },
        templates: vec![],
    };
    let b = MangleFun::Method {
        is_static: true,
        ty: MangleType::Int(IntKind { width: IntWidth::I128, signed: true }),
        sig: MangleSig { name: "x".to_string(), parameters: vec![], ret: adt(&[], &w, vec![]) },
        templates: vec![],
    };
    assert_eq!(a.mangle(), b.mangle());
}

#[test]
fn function_instances_to_symbols() {
    let f = fun_mangle(
        FunctionKind::Function,
        vec!["main".to_string()],
        "f".to_string(),
        vec![],
        MangleType::Tuple(vec![]),
        vec![MangleType::Bool],
    );
    assert_eq!(f.mangle(), "_ZF4mainE1fETEGbE");
    let m = fun_mangle(
        FunctionKind::Method { is_static: false, zelf: adt(&[], "S", vec![]) },
        vec!["main".to_string()],
        "get".to_string(),
        vec![],
        MangleType::Bool,
        vec![],
    );
    assert_eq!(m.mangle(), "_ZMmN1SEE3getEbGE");
    let e = fun_mangle(FunctionKind::Extern, vec!["main".to_string()], "printf".to_string(), vec![], MangleType::Bool, vec![]);
    assert_eq!(e.mangle(), "printf");
}
