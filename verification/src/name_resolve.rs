//! Resolving a name from a module: the module's own definitions, then those
//! of the modules it includes, then the same from its parent, up to the
//! outermost module.
use vstd::prelude::*;
use crate::common::Symbol;

verus! {

/// What a name may stand for: a function, an interface, a module or a type,
/// each by its index.
#[derive(Debug, Clone, Copy, PartialEq, Eq, Structural)]
pub enum Definition {
    Function(usize),
    Interface(usize),
    Module(usize),
    Type(usize),
}

/// One module: the module it is nested in, the names it defines, and the
/// modules its `@include`s name (`None` for one that names no module).
pub struct ModuleEntry {
    pub parent: Option<usize>,
    pub defs: Vec<(Symbol, Definition)>,
    pub includes: Vec<Option<usize>>,
}

/// The modules of a program, by index.
pub struct ModuleTable {
    pub modules: Vec<ModuleEntry>,
}

/// What `name` is defined as among `defs`, if anything.
pub open spec fn lookup(defs: Seq<(Symbol, Definition)>, name: Symbol) -> Option<Definition>
    decreases defs.len(),
{
    if defs.len() == 0 {
        None
    } else if defs[0].0 == name {
        Some(defs[0].1)
    } else {
        lookup(defs.drop_first(), name)
    }
}

impl ModuleTable {
    /// Modules are numbered so that a module comes after the module it is
    /// nested in; includes name modules of the table; a module defines each
    /// name once.
    pub open spec fn wf(&self) -> bool {
        &&& forall|m: int|
            0 <= m < self.modules@.len() ==> ((#[trigger] self.modules@[m]).parent matches Some(p) ==> p < m)
        &&& forall|m: int, k: int|
            0 <= m < self.modules@.len() && 0 <= k < self.modules@[m].includes@.len() ==> (
            #[trigger] self.modules@[m].includes@[k] matches Some(i) ==> i < self.modules@.len())
        &&& forall|m: int, a: int, b: int|
            0 <= m < self.modules@.len() && 0 <= a < b < self.modules@[m].defs@.len() ==> #[trigger] self.modules@[m].defs@[a].0
                != #[trigger] self.modules@[m].defs@[b].0
    }

    /// What `name` is defined as by the first of the `includes` whose module
    /// defines it.
    pub open spec fn included(&self, includes: Seq<Option<usize>>, name: Symbol) -> Option<Definition>
        decreases includes.len(),
    {
        if includes.len() == 0 {
            None
        } else {
            match includes[0] {
                Some(i) if 0 <= i < self.modules@.len() && lookup(self.modules@[i as int].defs@, name) is Some => lookup(
                    self.modules@[i as int].defs@,
                    name,
                ),
                _ => self.included(includes.drop_first(), name),
            }
        }
    }

    /// What `name` resolves to from module `m`: a definition of `m`, else of
    /// a module that `m` includes, else what it resolves to from the parent
    /// of `m`; nothing from the outermost module.
    pub open spec fn resolved(&self, name: Symbol, m: int) -> Option<Definition>
        decreases m,
    {
        if !(0 <= m < self.modules@.len()) {
            None
        } else if lookup(self.modules@[m].defs@, name) is Some {
            lookup(self.modules@[m].defs@, name)
        } else if self.included(self.modules@[m].includes@, name) is Some {
            self.included(self.modules@[m].includes@, name)
        } else {
            match self.modules@[m].parent {
                Some(p) => if p < m {
                    self.resolved(name, p as int)
                } else {
                    None
                },
                None => None,
            }
        }
    }

    /// What a path of names resolves to from module `m`: its first name as
    /// `resolved` gives it, then each next name from the module the previous
    /// one named; nothing once a name before the last names no module.
    pub open spec fn path_resolved(&self, names: Seq<Symbol>, m: int) -> Option<Definition>
        decreases names.len(),
    {
        if names.len() == 0 {
            None
        } else if names.len() == 1 {
            self.resolved(names[0], m)
        } else {
            match self.path_resolved(names.drop_last(), m) {
                Some(Definition::Module(n)) => self.resolved(names.last(), n as int),
                _ => None,
            }
        }
    }
}

/// What `name` is defined as among `defs`, if anything.
pub fn lookup_in(defs: &Vec<(Symbol, Definition)>, name: Symbol) -> (r: Option<Definition>)
    ensures
        r == lookup(defs@, name),
{
    let mut i: usize = 0;
    assert(defs@.skip(0) =~= defs@);
    while i < defs.len()
        invariant
            i <= defs@.len(),
            lookup(defs@, name) == lookup(defs@.skip(i as int), name),
        decreases defs@.len() - i,
    {
        assert(defs@.skip(i as int).drop_first() =~= defs@.skip(i + 1));
        assert(defs@.skip(i as int)[0] == defs@[i as int]);
        if defs[i].0 == name {
            return Some(defs[i].1);
        }
        i += 1;
    }
    assert(defs@.skip(i as int).len() == 0);
    None
}

impl ModuleTable {
    /// What `name` resolves to from module `module`.
    pub fn resolve_in_module(&self, name: Symbol, module: usize) -> (r: Option<Definition>)
        requires
            self.wf(),
        ensures
            r == self.resolved(name, module as int),
        decreases module,
    {
        if module >= self.modules.len() {
            return None;
        }
        let entry = &self.modules[module];
        if let Some(d) = lookup_in(&entry.defs, name) {
            return Some(d);
        }
        let mut k: usize = 0;
        assert(entry.includes@.skip(0) =~= entry.includes@);
        while k < entry.includes.len()
            invariant
                k <= entry.includes@.len(),
                module < self.modules@.len(),
                *entry == self.modules@[module as int],
                lookup(entry.defs@, name) is None,
                self.included(entry.includes@, name) == self.included(entry.includes@.skip(k as int), name),
            decreases entry.includes@.len() - k,
        {
            assert(entry.includes@.skip(k as int).drop_first() =~= entry.includes@.skip(k + 1));
            assert(entry.includes@.skip(k as int)[0] == entry.includes@[k as int]);
            if let Some(i) = entry.includes[k] {
                if i < self.modules.len() {
                    if let Some(d) = lookup_in(&self.modules[i].defs, name) {
                        return Some(d);
                    }
                }
            }
            k += 1;
        }
        assert(entry.includes@.skip(k as int).len() == 0);
        match entry.parent {
            Some(p) => if p < module {
                self.resolve_in_module(name, p)
            } else {
                None
            },
            None => None,
        }
    }

    /// What the path `names` resolves to from module `module`.
    pub fn resolve_path(&self, names: &Vec<Symbol>, module: usize) -> (r: Option<Definition>)
        requires
            self.wf(),
        ensures
            r == self.path_resolved(names@, module as int),
    {
        if names.len() == 0 {
            return None;
        }
        let mut acc = self.resolve_in_module(names[0], module);
        let mut i: usize = 1;
        assert(names@.take(1).drop_last() =~= Seq::<Symbol>::empty());
        while i < names.len()
            invariant
                1 <= i <= names@.len(),
                self.wf(),
                acc == self.path_resolved(names@.take(i as int), module as int),
            decreases names@.len() - i,
        {
            let ghost prev = names@.take(i as int);
            assert(names@.take(i + 1).drop_last() =~= prev);
            assert(names@.take(i + 1).last() == names@[i as int]);
            acc = match acc {
                Some(Definition::Module(n)) => self.resolve_in_module(names[i], n),
                _ => None,
            };
            i += 1;
        }
        assert(names@.take(names@.len() as int) =~= names@);
        acc
    }
}

/// A name is defined among `defs` as the definition of its first entry,
/// and not at all when no entry has it.
pub proof fn lemma_lookup(defs: Seq<(Symbol, Definition)>, name: Symbol)
    ensures
        lookup(defs, name) is None <==> forall|k: int| 0 <= k < defs.len() ==> (#[trigger] defs[k]).0 != name,
        lookup(defs, name) matches Some(d) ==> exists|k: int|
            0 <= k < defs.len() && #[trigger] defs[k] == (name, d) && forall|j: int| 0 <= j < k ==> defs[j].0 != name,
    decreases defs.len(),
{
    if defs.len() > 0 {
        let rest = defs.drop_first();
        lemma_lookup(rest, name);
        if defs[0].0 == name {
            assert(defs[0] == (name, defs[0].1));
        } else {
            assert forall|k: int| 0 <= k < rest.len() implies rest[k] == defs[k + 1] by {}
            if let Some(d) = lookup(defs, name) {
                let k = choose|k: int|
                    0 <= k < rest.len() && #[trigger] rest[k] == (name, d) && forall|j: int| 0 <= j < k ==> rest[j].0 != name;
                assert(defs[k + 1] == (name, d));
                assert forall|j: int| 0 <= j < k + 1 implies defs[j].0 != name by {
                    if j > 0 {
                        assert(defs[j] == rest[j - 1]);
                    }
                }
            }
            if lookup(defs, name) is None {
                assert forall|k: int| 0 <= k < defs.len() implies (#[trigger] defs[k]).0 != name by {
                    if k > 0 {
                        assert(defs[k] == rest[k - 1]);
                    }
                }
            }
            if forall|k: int| 0 <= k < defs.len() ==> (#[trigger] defs[k]).0 != name {
                assert forall|k: int| 0 <= k < rest.len() implies (#[trigger] rest[k]).0 != name by {
                    assert(rest[k] == defs[k + 1]);
                }
            }
        }
    }
}

/// What a name resolves to from a module is defined by that module, by a
/// module it includes, or by one of its outer modules, and a name no module
/// of the table defines resolves to nothing.
pub proof fn lemma_resolved_defined(t: ModuleTable, name: Symbol, m: int)
    ensures
        t.resolved(name, m) matches Some(d) ==> exists|m2: int|
            0 <= m2 < t.modules@.len() && #[trigger] lookup(t.modules@[m2].defs@, name) == Some(d),
    decreases m,
{
    if 0 <= m < t.modules@.len() {
        if lookup(t.modules@[m].defs@, name) is Some {
        } else if t.included(t.modules@[m].includes@, name) is Some {
            lemma_included_defined(t, t.modules@[m].includes@, name);
        } else {
            match t.modules@[m].parent {
                Some(p) => if p < m {
                    lemma_resolved_defined(t, name, p as int);
                },
                None => {},
            }
        }
    }
}

proof fn lemma_included_defined(t: ModuleTable, includes: Seq<Option<usize>>, name: Symbol)
    ensures
        t.included(includes, name) matches Some(d) ==> exists|m2: int|
            0 <= m2 < t.modules@.len() && #[trigger] lookup(t.modules@[m2].defs@, name) == Some(d),
    decreases includes.len(),
{
    if includes.len() > 0 {
        match includes[0] {
            Some(i) => if 0 <= i < t.modules@.len() && lookup(t.modules@[i as int].defs@, name) is Some {
                assert(lookup(t.modules@[i as int].defs@, name) == t.included(includes, name));
            } else {
                lemma_included_defined(t, includes.drop_first(), name);
            },
            None => lemma_included_defined(t, includes.drop_first(), name),
        }
    }
}

} // verus!
