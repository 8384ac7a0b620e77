use rockr::common::Symbol;
use rockr::name_resolve::{lookup_in, Definition, ModuleEntry, ModuleTable};

fn sym(id: u32) -> Symbol {
    Symbol { id }
}

// 0: root { fun f (1); module a (2) }
// 1: a, inside root { type T (5); @include c }
// 2: c, inside root { fun g (7) }
fn table() -> ModuleTable {
    ModuleTable {
        modules: vec![
            ModuleEntry {
                parent: None,
                defs: vec![(sym(1), Definition::Function(0)), (sym(2), Definition::Module(1))],
                includes: vec![],
            },
            ModuleEntry {
                parent: Some(0),
                defs: vec![(sym(5), Definition::Type(0))],
                includes: vec![None, Some(2)],
            },
            ModuleEntry { parent: Some(0), defs: vec![(sym(7), Definition::Function(1))], includes: vec![] },
        ],
    }
}

#[test]
fn names_resolve_from_the_module_its_includes_then_its_parents() {
    let t = table();
    assert_eq!(t.resolve_in_module(sym(5), 1), Some(Definition::Type(0)));
    assert_eq!(t.resolve_in_module(sym(7), 1), Some(Definition::Function(1)));
    assert_eq!(t.resolve_in_module(sym(1), 1), Some(Definition::Function(0)));
    assert_eq!(t.resolve_in_module(sym(5), 0), None);
    assert_eq!(t.resolve_in_module(sym(9), 2), None);
    assert_eq!(t.resolve_in_module(sym(1), 3), None);
    assert_eq!(lookup_in(&t.modules[0].defs, sym(2)), Some(Definition::Module(1)));
}

#[test]
fn paths_go_through_modules() {
    let t = table();
    assert_eq!(t.resolve_path(&vec![sym(2), sym(5)], 0), Some(Definition::Type(0)));
    assert_eq!(t.resolve_path(&vec![sym(2), sym(1)], 0), Some(Definition::Function(0)));
    assert_eq!(t.resolve_path(&vec![sym(1), sym(5)], 0), None);
    assert_eq!(t.resolve_path(&vec![], 0), None);
}
