//! The module import index and the import diagnostics.
use vstd::prelude::*;

use crate::diagnostic::{diagnostics_sorted, sort_diagnostics, Diagnostic};
use crate::parsed::{
    AssignmentTarget, ContentList, DivertTarget, Expression, Flow, Module, Object, QualifiedName,
    Story, TypeName,
};
use crate::source::SourceSpan;
use crate::text::{concat3, owned, str_eq};
use crate::analysis::modules::symbols::{declares_module, ModuleSymbolIndex};

verus! {

/// Whether module `m` of `modules` has an import from `source` that names
/// `symbol`.
pub open spec fn story_allows(modules: Seq<Module>, m: Seq<char>, source: Seq<char>, symbol: Seq<char>) -> bool {
    exists|i: int, k: int, j: int|
        0 <= i < modules.len() && (#[trigger] modules[i]).name@ == m && 0 <= k < modules[i].imports@.len()
            && (#[trigger] modules[i].imports@[k]).source_module@ == source && 0 <= j
            < modules[i].imports@[k].imported_names@.len()
            && (#[trigger] modules[i].imports@[k].imported_names@[j]).name@ == symbol
}

/// Whether module `m` of `modules` imports at least one name from `source`.
pub open spec fn story_imports_names_from(modules: Seq<Module>, m: Seq<char>, source: Seq<char>) -> bool {
    exists|symbol: Seq<char>| story_allows(modules, m, source, symbol)
}

/// The names imported from one source module.
#[derive(Debug, Clone, PartialEq, Eq)]
pub struct ImportSourceEntry {
    pub source: String,
    pub symbols: Vec<String>,
}

/// The imports of one module.
#[derive(Debug, Clone, PartialEq, Eq)]
pub struct ImportModuleEntry {
    pub module: String,
    pub sources: Vec<ImportSourceEntry>,
}

/// For every module, the symbols it may access from each source module:
/// exactly the names its `FROM ... IMPORT ...` lines list.
#[derive(Debug, Clone, PartialEq, Eq)]
pub struct ModuleImportIndex {
    pub modules: Vec<ImportModuleEntry>,
}

impl Default for ModuleImportIndex {
    /// The imports of no module.
    fn default() -> (r: Self)
        ensures
            r.modules@.len() == 0,
    {
        ModuleImportIndex { modules: Vec::new() }
    }
}

pub open spec fn unique_symbols(symbols: Seq<String>) -> bool {
    forall|a: int, b: int| 0 <= a < b < symbols.len() ==> symbols[a]@ != symbols[b]@
}

pub open spec fn unique_sources(sources: Seq<ImportSourceEntry>) -> bool {
    &&& forall|a: int, b: int| 0 <= a < b < sources.len() ==> sources[a].source@ != sources[b].source@
    &&& forall|a: int| 0 <= a < sources.len() ==> unique_symbols(#[trigger] sources[a].symbols@)
}

pub open spec fn symbols_contain(symbols: Seq<String>, symbol: Seq<char>) -> bool {
    exists|k: int| 0 <= k < symbols.len() && (#[trigger] symbols[k])@ == symbol
}

impl ModuleImportIndex {
    pub open spec fn wf(&self) -> bool {
        &&& forall|a: int, b: int| 0 <= a < b < self.modules@.len() ==> self.modules@[a].module@ != self.modules@[b].module@
        &&& forall|a: int| 0 <= a < self.modules@.len() ==> unique_sources(#[trigger] self.modules@[a].sources@)
    }

    pub open spec fn has_module(&self, m: Seq<char>) -> bool {
        exists|i: int| 0 <= i < self.modules@.len() && (#[trigger] self.modules@[i]).module@ == m
    }

    /// Whether module `m` has an entry for source module `s`.
    pub open spec fn has_source(&self, m: Seq<char>, s: Seq<char>) -> bool {
        exists|i: int, j: int| 0 <= i < self.modules@.len() && (#[trigger] self.modules@[i]).module@ == m
            && 0 <= j < self.modules@[i].sources@.len() && (#[trigger] self.modules@[i].sources@[j]).source@ == s
    }

    /// Whether module `m` may access `symbol` from module `s`.
    pub open spec fn allowed(&self, m: Seq<char>, s: Seq<char>, symbol: Seq<char>) -> bool {
        exists|i: int, j: int| 0 <= i < self.modules@.len() && (#[trigger] self.modules@[i]).module@ == m
            && 0 <= j < self.modules@[i].sources@.len() && (#[trigger] self.modules@[i].sources@[j]).source@ == s
            && symbols_contain(self.modules@[i].sources@[j].symbols@, symbol)
    }

    fn find_module(&self, module: &str) -> (r: Option<usize>)
        ensures
            r matches Some(i) ==> i < self.modules@.len() && self.modules@[i as int].module@ == module@,
            r is None ==> !self.has_module(module@),
    {
        let mut i: usize = 0;
        while i < self.modules.len()
            invariant
                i <= self.modules@.len(),
                forall|k: int| 0 <= k < i ==> (#[trigger] self.modules@[k]).module@ != module@,
            decreases self.modules.len() - i,
        {
            if str_eq(self.modules[i].module.as_str(), module) {
                return Some(i);
            }
            i = i + 1;
        }
        None
    }

    /// Makes sure `module` has an entry.
    fn ensure_module(&mut self, module: &str)
        requires
            old(self).wf(),
        ensures
            final(self).wf(),
            forall|m: Seq<char>| #[trigger] final(self).has_module(m) <==> old(self).has_module(m) || m == module@,
            forall|m: Seq<char>, s: Seq<char>, n: Seq<char>| #[trigger] final(self).allowed(m, s, n) == old(self).allowed(m, s, n),
            forall|m: Seq<char>, s: Seq<char>| #[trigger] final(self).has_source(m, s) == old(self).has_source(m, s),
            old(self).sources_nonempty() ==> final(self).sources_nonempty(),
    {
        match self.find_module(module) {
            Some(_) => {},
            None => {
                let ghost old_modules = self.modules@;
                self.modules.push(ImportModuleEntry { module: owned(module), sources: Vec::new() });
                proof {
                    assert forall|a: int, b: int| 0 <= a < b < self.modules@.len() implies self.modules@[a].module@ != self.modules@[b].module@ by {
                        assert(self.modules@[a] == old_modules[a]);
                        if b < old_modules.len() {
                            assert(self.modules@[b] == old_modules[b]);
                        } else {
                            assert(old_modules[a].module@ != module@);
                        }
                    }
                    assert(self.modules@[old_modules.len() as int].sources@.len() == 0);
                    assert forall|a: int| 0 <= a < self.modules@.len() implies unique_sources(#[trigger] self.modules@[a].sources@) by {
                        if a < old_modules.len() {
                            assert(self.modules@[a] == old_modules[a]);
                            assert(old(self).modules@[a] == old_modules[a]);
                            assert(unique_sources(old(self).modules@[a].sources@));
                        } else {
                            assert(self.modules@[a].sources@.len() == 0);
                        }
                    }
                    if old(self).sources_nonempty() {
                        assert forall|a: int, b: int| 0 <= a < self.modules@.len() && 0 <= b < self.modules@[a].sources@.len() implies (#[trigger] self.modules@[a].sources@[b]).symbols@.len() > 0 by {
                            assert(self.modules@[a] == old_modules[a]);
                        }
                    }
                    assert forall|m: Seq<char>| #[trigger] self.has_module(m) <==> old(self).has_module(m) || m == module@ by {
                        if old(self).has_module(m) {
                            let i = choose|i: int| 0 <= i < old_modules.len() && (#[trigger] old_modules[i]).module@ == m;
                            assert(self.modules@[i] == old_modules[i]);
                        }
                        if m == module@ {
                            assert(self.modules@[old_modules.len() as int].module@ == m);
                        }
                        if self.has_module(m) && m != module@ {
                            let i = choose|i: int| 0 <= i < self.modules@.len() && (#[trigger] self.modules@[i]).module@ == m;
                            assert(self.modules@[i] == old_modules[i]);
                        }
                    }
                    assert forall|m: Seq<char>, s: Seq<char>, n: Seq<char>| #[trigger] self.allowed(m, s, n) == old(self).allowed(m, s, n) by {
                        if self.allowed(m, s, n) {
                            let (i, j) = choose|i: int, j: int| 0 <= i < self.modules@.len() && (#[trigger] self.modules@[i]).module@ == m
                                && 0 <= j < self.modules@[i].sources@.len() && (#[trigger] self.modules@[i].sources@[j]).source@ == s
                                && symbols_contain(self.modules@[i].sources@[j].symbols@, n);
                            if i == old_modules.len() {
                                assert(self.modules@[i].sources@.len() == 0);
                            }
                            assert(self.modules@[i] == old_modules[i]);
                        }
                        if old(self).allowed(m, s, n) {
                            let (i, j) = choose|i: int, j: int| 0 <= i < old_modules.len() && (#[trigger] old_modules[i]).module@ == m
                                && 0 <= j < old_modules[i].sources@.len() && (#[trigger] old_modules[i].sources@[j]).source@ == s
                                && symbols_contain(old_modules[i].sources@[j].symbols@, n);
                            assert(self.modules@[i] == old_modules[i]);
                        }
                    }
                    assert forall|m: Seq<char>, s: Seq<char>| #[trigger] self.has_source(m, s) == old(self).has_source(m, s) by {
                        if self.has_source(m, s) {
                            let (i, j) = choose|i: int, j: int| 0 <= i < self.modules@.len() && (#[trigger] self.modules@[i]).module@ == m
                                && 0 <= j < self.modules@[i].sources@.len() && (#[trigger] self.modules@[i].sources@[j]).source@ == s;
                            if i == old_modules.len() {
                                assert(self.modules@[i].sources@.len() == 0);
                            }
                            assert(self.modules@[i] == old_modules[i]);
                        }
                        if old(self).has_source(m, s) {
                            let (i, j) = choose|i: int, j: int| 0 <= i < old_modules.len() && (#[trigger] old_modules[i]).module@ == m
                                && 0 <= j < old_modules[i].sources@.len() && (#[trigger] old_modules[i].sources@[j]).source@ == s;
                            assert(self.modules@[i] == old_modules[i]);
                        }
                    }
                }
            },
        }
    }
}

/// Where `source` stands among `sources`.
fn find_source(sources: &Vec<ImportSourceEntry>, source: &str) -> (r: Option<usize>)
    ensures
        r matches Some(j) ==> j < sources@.len() && sources@[j as int].source@ == source@,
        r is None ==> forall|j: int| 0 <= j < sources@.len() ==> (#[trigger] sources@[j]).source@ != source@,
{
    let mut j: usize = 0;
    while j < sources.len()
        invariant
            j <= sources@.len(),
            forall|k: int| 0 <= k < j ==> (#[trigger] sources@[k]).source@ != source@,
        decreases sources.len() - j,
    {
        if str_eq(sources[j].source.as_str(), source) {
            return Some(j);
        }
        j = j + 1;
    }
    None
}

/// Whether `symbol` is among `symbols`.
fn contains_symbol(symbols: &Vec<String>, symbol: &str) -> (r: bool)
    ensures
        r == symbols_contain(symbols@, symbol@),
{
    let mut k: usize = 0;
    while k < symbols.len()
        invariant
            k <= symbols@.len(),
            forall|x: int| 0 <= x < k ==> (#[trigger] symbols@[x])@ != symbol@,
        decreases symbols.len() - k,
    {
        if str_eq(symbols[k].as_str(), symbol) {
            return true;
        }
        k = k + 1;
    }
    false
}

/// Adds `symbol` to the names imported from `source`.
fn insert_into_sources(sources: &mut Vec<ImportSourceEntry>, source: &str, symbol: &str)
    requires
        unique_sources(old(sources)@),
    ensures
        unique_sources(final(sources)@),
        exists|j: int| 0 <= j < final(sources)@.len() && (#[trigger] final(sources)@[j]).source@ == source@,
        forall|s: Seq<char>| s != source@ ==> (#[trigger] sources_have(final(sources)@, s) <==> sources_have(old(sources)@, s)),
        forall|s: Seq<char>, n: Seq<char>| #[trigger] sources_allow(final(sources)@, s, n) == (sources_allow(old(sources)@, s, n) || (s == source@ && n == symbol@)),
        (forall|b: int| 0 <= b < old(sources)@.len() ==> (#[trigger] old(sources)@[b]).symbols@.len() > 0) ==> (forall|b: int| 0 <= b < final(sources)@.len() ==> (#[trigger] final(sources)@[b]).symbols@.len() > 0),
{
    let ghost old_sources = sources@;
    match find_source(sources, source) {
        Some(j) => {
            let mut entry = sources.remove(j);
            let ghost old_symbols = entry.symbols@;
            if !contains_symbol(&entry.symbols, symbol) {
                entry.symbols.push(owned(symbol));
                proof {
                    assert forall|a: int, b: int| 0 <= a < b < entry.symbols@.len() implies entry.symbols@[a]@ != entry.symbols@[b]@ by {
                        if b == old_symbols.len() {
                            assert(entry.symbols@[a] == old_symbols[a]);
                        } else {
                            assert(entry.symbols@[a] == old_symbols[a]);
                            assert(entry.symbols@[b] == old_symbols[b]);
                        }
                    }
                    assert forall|n: Seq<char>| symbols_contain(entry.symbols@, n) == (symbols_contain(old_symbols, n) || n == symbol@) by {
                        if symbols_contain(old_symbols, n) {
                            let k = choose|k: int| 0 <= k < old_symbols.len() && (#[trigger] old_symbols[k])@ == n;
                            assert(entry.symbols@[k] == old_symbols[k]);
                        }
                        if n == symbol@ {
                            assert(entry.symbols@[old_symbols.len() as int]@ == n);
                        }
                        if symbols_contain(entry.symbols@, n) && n != symbol@ {
                            let k = choose|k: int| 0 <= k < entry.symbols@.len() && (#[trigger] entry.symbols@[k])@ == n;
                            assert(entry.symbols@[k] == old_symbols[k]);
                        }
                    }
                }
            }
            sources.insert(j, entry);
            proof {
                let new_sources = sources@;
                assert(new_sources =~= old_sources.update(j as int, new_sources[j as int]));
                assert forall|s: Seq<char>, n: Seq<char>| #[trigger] sources_allow(new_sources, s, n) == (sources_allow(old_sources, s, n) || (s == source@ && n == symbol@)) by {
                    if sources_allow(new_sources, s, n) {
                        let x = choose|x: int| 0 <= x < new_sources.len() && (#[trigger] new_sources[x]).source@ == s && symbols_contain(new_sources[x].symbols@, n);
                        if x != j {
                            assert(new_sources[x] == old_sources[x]);
                        }
                    }
                    if sources_allow(old_sources, s, n) {
                        let x = choose|x: int| 0 <= x < old_sources.len() && (#[trigger] old_sources[x]).source@ == s && symbols_contain(old_sources[x].symbols@, n);
                        if x != j {
                            assert(new_sources[x] == old_sources[x]);
                        } else {
                            assert(new_sources[x].source@ == s);
                        }
                    }
                    if s == source@ && n == symbol@ {
                        assert(new_sources[j as int].source@ == s);
                    }
                }
                assert forall|a: int| 0 <= a < new_sources.len() implies unique_symbols(#[trigger] new_sources[a].symbols@) by {
                    if a != j {
                        assert(new_sources[a] == old_sources[a]);
                    }
                }
                assert forall|s: Seq<char>| s != source@ implies (#[trigger] sources_have(new_sources, s) <==> sources_have(old_sources, s)) by {
                    if exists|x: int| 0 <= x < new_sources.len() && (#[trigger] new_sources[x]).source@ == s {
                        let x = choose|x: int| 0 <= x < new_sources.len() && (#[trigger] new_sources[x]).source@ == s;
                        assert(old_sources[x].source@ == s);
                    }
                    if exists|x: int| 0 <= x < old_sources.len() && (#[trigger] old_sources[x]).source@ == s {
                        let x = choose|x: int| 0 <= x < old_sources.len() && (#[trigger] old_sources[x]).source@ == s;
                        assert(new_sources[x].source@ == s);
                    }
                }
                assert(new_sources[j as int].source@ == source@);
                assert forall|b: int| 0 <= b < new_sources.len() && b != j implies (#[trigger] new_sources[b]) == old_sources[b] by {}
            }
        },
        None => {
            let mut symbols: Vec<String> = Vec::new();
            symbols.push(owned(symbol));
            sources.push(ImportSourceEntry { source: owned(source), symbols });
            proof {
                let new_sources = sources@;
                let last = old_sources.len() as int;
                assert(new_sources[last].symbols@[0]@ == symbol@);
                assert(symbols_contain(new_sources[last].symbols@, symbol@));
                assert forall|n: Seq<char>| symbols_contain(new_sources[last].symbols@, n) implies n == symbol@ by {
                    let k = choose|k: int| 0 <= k < new_sources[last].symbols@.len() && (#[trigger] new_sources[last].symbols@[k])@ == n;
                    assert(k == 0);
                }
                assert forall|s: Seq<char>, n: Seq<char>| #[trigger] sources_allow(new_sources, s, n) == (sources_allow(old_sources, s, n) || (s == source@ && n == symbol@)) by {
                    if sources_allow(new_sources, s, n) {
                        let x = choose|x: int| 0 <= x < new_sources.len() && (#[trigger] new_sources[x]).source@ == s && symbols_contain(new_sources[x].symbols@, n);
                        if x != last {
                            assert(new_sources[x] == old_sources[x]);
                        }
                    }
                    if sources_allow(old_sources, s, n) {
                        let x = choose|x: int| 0 <= x < old_sources.len() && (#[trigger] old_sources[x]).source@ == s && symbols_contain(old_sources[x].symbols@, n);
                        assert(new_sources[x] == old_sources[x]);
                    }
                    if s == source@ && n == symbol@ {
                        assert(new_sources[last].source@ == s);
                    }
                }
                assert forall|a: int| 0 <= a < new_sources.len() implies unique_symbols(#[trigger] new_sources[a].symbols@) by {
                    if a != last {
                        assert(new_sources[a] == old_sources[a]);
                    }
                }
                assert forall|s: Seq<char>| s != source@ implies (#[trigger] sources_have(new_sources, s) <==> sources_have(old_sources, s)) by {
                    if exists|x: int| 0 <= x < new_sources.len() && (#[trigger] new_sources[x]).source@ == s {
                        let x = choose|x: int| 0 <= x < new_sources.len() && (#[trigger] new_sources[x]).source@ == s;
                        assert(old_sources[x].source@ == s);
                    }
                    if exists|x: int| 0 <= x < old_sources.len() && (#[trigger] old_sources[x]).source@ == s {
                        let x = choose|x: int| 0 <= x < old_sources.len() && (#[trigger] old_sources[x]).source@ == s;
                        assert(new_sources[x].source@ == s);
                    }
                }
                assert(new_sources[last].source@ == source@);
                assert forall|b: int| 0 <= b < old_sources.len() implies (#[trigger] new_sources[b]) == old_sources[b] by {}
            }
        },
    }
}

/// Whether `sources` has an entry for `s`.
pub open spec fn sources_have(sources: Seq<ImportSourceEntry>, s: Seq<char>) -> bool {
    exists|x: int| 0 <= x < sources.len() && (#[trigger] sources[x]).source@ == s
}

/// Whether some entry of `sources` for `s` lists `n`.
pub open spec fn sources_allow(sources: Seq<ImportSourceEntry>, s: Seq<char>, n: Seq<char>) -> bool {
    exists|x: int| 0 <= x < sources.len() && (#[trigger] sources[x]).source@ == s && symbols_contain(sources[x].symbols@, n)
}


impl ModuleImportIndex {
    proof fn lemma_entry(&self, i: int, m: Seq<char>)
        requires
            self.wf(),
            0 <= i < self.modules@.len(),
            self.modules@[i].module@ == m,
        ensures
            forall|s: Seq<char>, n: Seq<char>| #[trigger] self.allowed(m, s, n) == sources_allow(self.modules@[i].sources@, s, n),
            forall|s: Seq<char>| #[trigger] self.has_source(m, s) == sources_have(self.modules@[i].sources@, s),
            self.has_module(m),
    {
        assert forall|s: Seq<char>, n: Seq<char>| #[trigger] self.allowed(m, s, n) == sources_allow(self.modules@[i].sources@, s, n) by {
            if self.allowed(m, s, n) {
                let (a, j) = choose|a: int, j: int| 0 <= a < self.modules@.len() && (#[trigger] self.modules@[a]).module@ == m
                    && 0 <= j < self.modules@[a].sources@.len() && (#[trigger] self.modules@[a].sources@[j]).source@ == s
                    && symbols_contain(self.modules@[a].sources@[j].symbols@, n);
                if a < i {
                    assert(self.modules@[a].module@ != self.modules@[i].module@);
                } else if a > i {
                    assert(self.modules@[i].module@ != self.modules@[a].module@);
                }
            }
            if sources_allow(self.modules@[i].sources@, s, n) {
                let x = choose|x: int| 0 <= x < self.modules@[i].sources@.len() && (#[trigger] self.modules@[i].sources@[x]).source@ == s && symbols_contain(self.modules@[i].sources@[x].symbols@, n);
                assert(self.modules@[i].sources@[x].source@ == s);
            }
        }
        assert forall|s: Seq<char>| #[trigger] self.has_source(m, s) == sources_have(self.modules@[i].sources@, s) by {
            if self.has_source(m, s) {
                let (a, j) = choose|a: int, j: int| 0 <= a < self.modules@.len() && (#[trigger] self.modules@[a]).module@ == m
                    && 0 <= j < self.modules@[a].sources@.len() && (#[trigger] self.modules@[a].sources@[j]).source@ == s;
                if a < i {
                    assert(self.modules@[a].module@ != self.modules@[i].module@);
                } else if a > i {
                    assert(self.modules@[i].module@ != self.modules@[a].module@);
                }
            }
            if sources_have(self.modules@[i].sources@, s) {
                let x = choose|x: int| 0 <= x < self.modules@[i].sources@.len() && (#[trigger] self.modules@[i].sources@[x]).source@ == s;
                assert(self.modules@[i].sources@[x].source@ == s);
            }
        }
    }

    proof fn lemma_other_module(&self, other: ModuleImportIndex, i: int, m: Seq<char>)
        requires
            self.wf(),
            other.wf(),
            0 <= i < self.modules@.len(),
            self.modules@.len() == other.modules@.len(),
            forall|a: int| 0 <= a < self.modules@.len() && a != i ==> self.modules@[a] == other.modules@[a],
            self.modules@[i].module@ == other.modules@[i].module@,
            self.modules@[i].module@ != m,
        ensures
            forall|s: Seq<char>, n: Seq<char>| #[trigger] self.allowed(m, s, n) == other.allowed(m, s, n),
            forall|s: Seq<char>| #[trigger] self.has_source(m, s) == other.has_source(m, s),
            self.has_module(m) == other.has_module(m),
    {
        if self.has_module(m) {
            let a = choose|a: int| 0 <= a < self.modules@.len() && (#[trigger] self.modules@[a]).module@ == m;
            self.lemma_entry(a, m);
            other.lemma_entry(a, m);
        } else if other.has_module(m) {
            let a = choose|a: int| 0 <= a < other.modules@.len() && (#[trigger] other.modules@[a]).module@ == m;
            assert(self.modules@[a].module@ == m);
        } else {
            assert forall|s: Seq<char>, n: Seq<char>| #[trigger] self.allowed(m, s, n) == other.allowed(m, s, n) by {}
            assert forall|s: Seq<char>| #[trigger] self.has_source(m, s) == other.has_source(m, s) by {}
        }
    }

    /// Lets `importing_module` access `symbol` from `source_module`.
    fn insert_allowed_symbol(&mut self, importing_module: &str, source_module: &str, symbol: &str)
        requires
            old(self).wf(),
        ensures
            final(self).wf(),
            forall|m: Seq<char>| #[trigger] final(self).has_module(m) <==> old(self).has_module(m) || m == importing_module@,
            forall|m: Seq<char>, s: Seq<char>, n: Seq<char>| #[trigger] final(self).allowed(m, s, n) == (old(self).allowed(m, s, n) || (m == importing_module@ && s == source_module@ && n == symbol@)),
            forall|m: Seq<char>, s: Seq<char>| #[trigger] final(self).has_source(m, s) == (old(self).has_source(m, s) || (m == importing_module@ && s == source_module@)),
            old(self).sources_nonempty() ==> final(self).sources_nonempty(),
    {
        self.ensure_module(importing_module);
        let ghost mid = *self;
        match self.find_module(importing_module) {
            Some(i) => {
                let mut entry = self.modules.remove(i);
                let ghost old_sources = entry.sources@;
                proof {
                    assert(old_sources == mid.modules@[i as int].sources@);
                    assert(unique_sources(old_sources));
                }
                insert_into_sources(&mut entry.sources, source_module, symbol);
                let ghost new_sources = entry.sources@;
                self.modules.insert(i, entry);
                proof {
                    assert(self.modules@[i as int].sources@ == new_sources);
                    if mid.sources_nonempty() {
                        assert(forall|b: int| 0 <= b < old_sources.len() ==> (#[trigger] old_sources[b]).symbols@.len() > 0);
                        assert forall|a: int, b: int| 0 <= a < self.modules@.len() && 0 <= b < self.modules@[a].sources@.len() implies (#[trigger] self.modules@[a].sources@[b]).symbols@.len() > 0 by {
                            if a != i {
                                assert(self.modules@[a] == mid.modules@[a]);
                            } else {
                                assert(self.modules@[a].sources@[b] == new_sources[b]);
                            }
                        }
                    }
                    assert(self.modules@ =~= mid.modules@.update(i as int, self.modules@[i as int]));
                    assert forall|a: int, b: int| 0 <= a < b < self.modules@.len() implies self.modules@[a].module@ != self.modules@[b].module@ by {
                        assert(self.modules@[a].module@ == mid.modules@[a].module@);
                        assert(self.modules@[b].module@ == mid.modules@[b].module@);
                    }
                    assert forall|a: int| 0 <= a < self.modules@.len() implies unique_sources(#[trigger] self.modules@[a].sources@) by {
                        if a != i {
                            assert(self.modules@[a] == mid.modules@[a]);
                        }
                    }
                    self.lemma_entry(i as int, importing_module@);
                    mid.lemma_entry(i as int, importing_module@);
                    assert forall|m: Seq<char>| #[trigger] self.has_module(m) <==> mid.has_module(m) by {
                        if m != importing_module@ {
                            self.lemma_other_module(mid, i as int, m);
                        }
                    }
                    assert forall|m: Seq<char>, s: Seq<char>, n: Seq<char>| #[trigger] self.allowed(m, s, n) == (mid.allowed(m, s, n) || (m == importing_module@ && s == source_module@ && n == symbol@)) by {
                        if m != importing_module@ {
                            self.lemma_other_module(mid, i as int, m);
                        }
                    }
                    assert forall|m: Seq<char>, s: Seq<char>| #[trigger] self.has_source(m, s) == (mid.has_source(m, s) || (m == importing_module@ && s == source_module@)) by {
                        if m != importing_module@ {
                            self.lemma_other_module(mid, i as int, m);
                        } else {
                            if s != source_module@ {
                                assert(sources_have(new_sources, s) == sources_have(old_sources, s));
                            }
                        }
                    }
                }
            },
            None => {},
        }
    }

    /// Whether `importing_module` may access `symbol` from `source_module`.
    pub fn allows(&self, importing_module: &str, source_module: &str, symbol: &str) -> (r: bool)
        requires
            self.wf(),
        ensures
            r == self.allowed(importing_module@, source_module@, symbol@),
    {
        match self.imports_from(importing_module, source_module) {
            Some(symbols) => contains_symbol(symbols, symbol),
            None => false,
        }
    }

    /// The names `importing_module` imports from `source_module`, when it
    /// imports any.
    pub fn imports_from(&self, importing_module: &str, source_module: &str) -> (r: Option<&Vec<String>>)
        requires
            self.wf(),
        ensures
            r is Some <==> self.has_source(importing_module@, source_module@),
            r matches Some(v) ==> unique_symbols(v@) && forall|n: Seq<char>| #[trigger] symbols_contain(v@, n) == self.allowed(importing_module@, source_module@, n),
            r is None ==> forall|n: Seq<char>| !self.allowed(importing_module@, source_module@, n),
    {
        match self.find_module(importing_module) {
            Some(i) => {
                proof { self.lemma_entry(i as int, importing_module@); }
                let sources = &self.modules[i].sources;
                match find_source(sources, source_module) {
                    Some(j) => {
                        proof {
                            assert(sources_have(sources@, source_module@));
                            assert forall|n: Seq<char>| #[trigger] symbols_contain(sources@[j as int].symbols@, n) == sources_allow(sources@, source_module@, n) by {
                                if sources_allow(sources@, source_module@, n) {
                                    let x = choose|x: int| 0 <= x < sources@.len() && (#[trigger] sources@[x]).source@ == source_module@ && symbols_contain(sources@[x].symbols@, n);
                                    if x < j {
                                        assert(sources@[x].source@ != sources@[j as int].source@);
                                    } else if x > j {
                                        assert(sources@[j as int].source@ != sources@[x].source@);
                                    }
                                }
                            }
                            assert(unique_symbols(sources@[j as int].symbols@));
                        }
                        Some(&sources[j].symbols)
                    },
                    None => {
                        proof {
                            assert(!sources_have(sources@, source_module@));
                        }
                        None
                    },
                }
            },
            None => None,
        }
    }
}

/// The import index of `story`: every module is present, and module `m`
/// may access `symbol` from `source` exactly when one of its
/// `FROM source IMPORT ...` lines lists `symbol`. A bare `FROM source` line
/// gives access to nothing.
pub fn build_module_import_index(story: &Story) -> (index: ModuleImportIndex)
    ensures
        index.wf(),
        forall|m: Seq<char>| #[trigger] index.has_module(m) <==> declares_module(story.modules@, m),
        forall|m: Seq<char>, s: Seq<char>, n: Seq<char>| #[trigger] index.allowed(m, s, n) <==> story_allows(story.modules@, m, s, n),
        forall|m: Seq<char>, s: Seq<char>| #[trigger] index.has_source(m, s) <==> story_imports_names_from(story.modules@, m, s),
{
    let mut index = ModuleImportIndex { modules: Vec::new() };
    let ghost modules = story.modules@;
    let mut i: usize = 0;
    while i < story.modules.len()
        invariant
            modules == story.modules@,
            i <= modules.len(),
            index.wf(),
            forall|m: Seq<char>| #[trigger] index.has_module(m) <==> declares_module(modules.take(i as int), m),
            forall|m: Seq<char>, s: Seq<char>, n: Seq<char>| #[trigger] index.allowed(m, s, n) <==> story_allows(modules.take(i as int), m, s, n),
            index.sources_nonempty(),
        decreases story.modules.len() - i,
    {
        let module = &story.modules[i];
        index.ensure_module(module.name.as_str());
        proof {
            lemma_story_allows_step(modules, i as int);
            lemma_declares_step(modules, i as int);
            assert(module.imports@.take(0) =~= Seq::<crate::parsed::Import>::empty());
        }
        let mut k: usize = 0;
        while k < module.imports.len()
            invariant
                modules == story.modules@,
                i < modules.len(),
                *module == modules[i as int],
                k <= module.imports@.len(),
                index.wf(),
                index.sources_nonempty(),
                forall|m: Seq<char>| #[trigger] index.has_module(m) <==> declares_module(modules.take(i + 1), m),
                declares_module(modules.take(i + 1), module.name@),
                forall|m: Seq<char>, s: Seq<char>, n: Seq<char>| #[trigger] index.allowed(m, s, n) <==> (story_allows(modules.take(i as int), m, s, n) || (m == module.name@ && imports_list_allows(module.imports@.take(k as int), s, n))),
            decreases module.imports.len() - k,
        {
            let import = &module.imports[k];
            let mut j: usize = 0;
            while j < import.imported_names.len()
                invariant
                    modules == story.modules@,
                    i < modules.len(),
                    *module == modules[i as int],
                    k < module.imports@.len(),
                    *import == module.imports@[k as int],
                    j <= import.imported_names@.len(),
                    index.wf(),
                    index.sources_nonempty(),
                    declares_module(modules.take(i + 1), module.name@),
                    forall|m: Seq<char>| #[trigger] index.has_module(m) <==> declares_module(modules.take(i + 1), m),
                    forall|m: Seq<char>, s: Seq<char>, n: Seq<char>| #[trigger] index.allowed(m, s, n) <==> (story_allows(modules.take(i as int), m, s, n) || (m == module.name@ && (imports_list_allows(module.imports@.take(k as int), s, n) || (s == import.source_module@ && names_list_has(import.imported_names@.take(j as int), n))))),
                decreases import.imported_names.len() - j,
            {
                index.insert_allowed_symbol(module.name.as_str(), import.source_module.as_str(), import.imported_names[j].name.as_str());
                proof {
                    assert(import.imported_names@.take(j + 1) =~= import.imported_names@.take(j as int).push(import.imported_names@[j as int]));
                    assert forall|n: Seq<char>| #[trigger] names_list_has(import.imported_names@.take(j + 1), n) == (names_list_has(import.imported_names@.take(j as int), n) || n == import.imported_names@[j as int].name@) by {
                        let t1 = import.imported_names@.take(j + 1);
                        let t0 = import.imported_names@.take(j as int);
                        if names_list_has(t1, n) {
                            let x = choose|x: int| 0 <= x < t1.len() && (#[trigger] t1[x]).name@ == n;
                            if x < j {
                                assert(t0[x] == t1[x]);
                            }
                        }
                        if names_list_has(t0, n) {
                            let x = choose|x: int| 0 <= x < t0.len() && (#[trigger] t0[x]).name@ == n;
                            assert(t1[x] == t0[x]);
                        }
                        if n == import.imported_names@[j as int].name@ {
                            assert(t1[j as int].name@ == n);
                        }
                    }
                }
                j = j + 1;
            }
            proof {
                assert(import.imported_names@.take(import.imported_names@.len() as int) =~= import.imported_names@);
                lemma_imports_list_step(module.imports@, k as int);
            }
            k = k + 1;
        }
        proof {
            assert(module.imports@.take(module.imports@.len() as int) =~= module.imports@);
        }
        i = i + 1;
    }
    proof {
        assert(modules.take(modules.len() as int) =~= modules);
        assert forall|m: Seq<char>, s: Seq<char>| #[trigger] index.has_source(m, s) <==> story_imports_names_from(modules, m, s) by {
            index.lemma_has_source_iff(m, s);
            if index.has_source(m, s) {
                let n = choose|n: Seq<char>| index.allowed(m, s, n);
                assert(story_allows(modules, m, s, n));
            }
            if story_imports_names_from(modules, m, s) {
                let n = choose|n: Seq<char>| story_allows(modules, m, s, n);
                assert(index.allowed(m, s, n));
            }
        }
    }
    index
}

/// Whether some import of `imports` from `s` names `n`.
pub open spec fn imports_list_allows(imports: Seq<crate::parsed::Import>, s: Seq<char>, n: Seq<char>) -> bool {
    exists|k: int, j: int| 0 <= k < imports.len() && (#[trigger] imports[k]).source_module@ == s && 0 <= j < imports[k].imported_names@.len() && (#[trigger] imports[k].imported_names@[j]).name@ == n
}

/// Whether `names` lists `n`.
pub open spec fn names_list_has(names: Seq<crate::parsed::ImportedName>, n: Seq<char>) -> bool {
    exists|x: int| 0 <= x < names.len() && (#[trigger] names[x]).name@ == n
}

proof fn lemma_imports_list_step(imports: Seq<crate::parsed::Import>, k: int)
    requires
        0 <= k < imports.len(),
    ensures
        forall|s: Seq<char>, n: Seq<char>| #[trigger] imports_list_allows(imports.take(k + 1), s, n) == (imports_list_allows(imports.take(k), s, n) || (s == imports[k].source_module@ && names_list_has(imports[k].imported_names@, n))),
{
    assert forall|s: Seq<char>, n: Seq<char>| #[trigger] imports_list_allows(imports.take(k + 1), s, n) == (imports_list_allows(imports.take(k), s, n) || (s == imports[k].source_module@ && names_list_has(imports[k].imported_names@, n))) by {
        let t1 = imports.take(k + 1);
        let t0 = imports.take(k);
        if imports_list_allows(t1, s, n) {
            let (a, b) = choose|a: int, b: int| 0 <= a < t1.len() && (#[trigger] t1[a]).source_module@ == s && 0 <= b < t1[a].imported_names@.len() && (#[trigger] t1[a].imported_names@[b]).name@ == n;
            if a < k {
                assert(t0[a] == t1[a]);
            } else {
                assert(imports[k].imported_names@[b].name@ == n);
            }
        }
        if imports_list_allows(t0, s, n) {
            let (a, b) = choose|a: int, b: int| 0 <= a < t0.len() && (#[trigger] t0[a]).source_module@ == s && 0 <= b < t0[a].imported_names@.len() && (#[trigger] t0[a].imported_names@[b]).name@ == n;
            assert(t1[a] == t0[a]);
        }
        if s == imports[k].source_module@ && names_list_has(imports[k].imported_names@, n) {
            let b = choose|b: int| 0 <= b < imports[k].imported_names@.len() && (#[trigger] imports[k].imported_names@[b]).name@ == n;
            assert(t1[k] == imports[k]);
            assert(t1[k].imported_names@[b].name@ == n);
        }
    }
}

proof fn lemma_story_allows_step(modules: Seq<Module>, i: int)
    requires
        0 <= i < modules.len(),
    ensures
        forall|m: Seq<char>, s: Seq<char>, n: Seq<char>| #[trigger] story_allows(modules.take(i + 1), m, s, n) == (story_allows(modules.take(i), m, s, n) || (m == modules[i].name@ && imports_list_allows(modules[i].imports@, s, n))),
{
    assert forall|m: Seq<char>, s: Seq<char>, n: Seq<char>| #[trigger] story_allows(modules.take(i + 1), m, s, n) == (story_allows(modules.take(i), m, s, n) || (m == modules[i].name@ && imports_list_allows(modules[i].imports@, s, n))) by {
        let t1 = modules.take(i + 1);
        let t0 = modules.take(i);
        if story_allows(t1, m, s, n) {
            let (a, k, j) = choose|a: int, k: int, j: int|
                0 <= a < t1.len() && (#[trigger] t1[a]).name@ == m && 0 <= k < t1[a].imports@.len()
                    && (#[trigger] t1[a].imports@[k]).source_module@ == s && 0 <= j < t1[a].imports@[k].imported_names@.len()
                    && (#[trigger] t1[a].imports@[k].imported_names@[j]).name@ == n;
            if a < i {
                assert(t0[a] == t1[a]);
            } else {
                assert(modules[i].imports@[k].imported_names@[j].name@ == n);
            }
        }
        if story_allows(t0, m, s, n) {
            let (a, k, j) = choose|a: int, k: int, j: int|
                0 <= a < t0.len() && (#[trigger] t0[a]).name@ == m && 0 <= k < t0[a].imports@.len()
                    && (#[trigger] t0[a].imports@[k]).source_module@ == s && 0 <= j < t0[a].imports@[k].imported_names@.len()
                    && (#[trigger] t0[a].imports@[k].imported_names@[j]).name@ == n;
            assert(t1[a] == t0[a]);
        }
        if m == modules[i].name@ && imports_list_allows(modules[i].imports@, s, n) {
            let (k, j) = choose|k: int, j: int| 0 <= k < modules[i].imports@.len() && (#[trigger] modules[i].imports@[k]).source_module@ == s && 0 <= j < modules[i].imports@[k].imported_names@.len() && (#[trigger] modules[i].imports@[k].imported_names@[j]).name@ == n;
            assert(t1[i] == modules[i]);
            assert(t1[i].imports@[k].imported_names@[j].name@ == n);
        }
    }
}

pub proof fn lemma_declares_step_public(modules: Seq<Module>, i: int)
    requires
        0 <= i < modules.len(),
    ensures
        forall|m: Seq<char>| #[trigger] declares_module(modules.take(i + 1), m) == (declares_module(modules.take(i), m) || m == modules[i].name@),
{
    lemma_declares_step(modules, i);
}

proof fn lemma_declares_step(modules: Seq<Module>, i: int)
    requires
        0 <= i < modules.len(),
    ensures
        forall|m: Seq<char>| #[trigger] declares_module(modules.take(i + 1), m) == (declares_module(modules.take(i), m) || m == modules[i].name@),
{
    assert forall|m: Seq<char>| #[trigger] declares_module(modules.take(i + 1), m) == (declares_module(modules.take(i), m) || m == modules[i].name@) by {
        let t1 = modules.take(i + 1);
        let t0 = modules.take(i);
        if declares_module(t1, m) {
            let a = choose|a: int| 0 <= a < t1.len() && (#[trigger] t1[a]).name@ == m;
            if a < i {
                assert(t0[a] == t1[a]);
            }
        }
        if declares_module(t0, m) {
            let a = choose|a: int| 0 <= a < t0.len() && (#[trigger] t0[a]).name@ == m;
            assert(t1[a] == t0[a]);
        }
        if m == modules[i].name@ {
            assert(t1[i] == modules[i]);
        }
    }
}

impl ModuleImportIndex {
    /// Every source entry lists at least one name.
    pub open spec fn sources_nonempty(&self) -> bool {
        forall|a: int, b: int| 0 <= a < self.modules@.len() && 0 <= b < self.modules@[a].sources@.len() ==> (#[trigger] self.modules@[a].sources@[b]).symbols@.len() > 0
    }

    proof fn lemma_has_source_iff(&self, m: Seq<char>, s: Seq<char>)
        requires
            self.wf(),
            self.sources_nonempty(),
        ensures
            self.has_source(m, s) <==> exists|n: Seq<char>| self.allowed(m, s, n),
    {
        if self.has_source(m, s) {
            let (a, b) = choose|a: int, b: int| 0 <= a < self.modules@.len() && (#[trigger] self.modules@[a]).module@ == m
                && 0 <= b < self.modules@[a].sources@.len() && (#[trigger] self.modules@[a].sources@[b]).source@ == s;
            let n = self.modules@[a].sources@[b].symbols@[0]@;
            assert(symbols_contain(self.modules@[a].sources@[b].symbols@, n));
            assert(self.allowed(m, s, n));
        }
    }
}

} // verus!
