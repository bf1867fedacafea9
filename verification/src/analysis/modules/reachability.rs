//! Which modules can be reached from the entry point by following imports.
use vstd::prelude::*;

use crate::analysis::modules::dependencies::{names_contain, strictly_sorted, ModuleDependencyGraph};
use crate::analysis::modules::entry_point::ModuleEntryPoint;
use crate::analysis::modules::symbols::lemma_char_order_total;
use crate::diagnostic::{
    diagnostics_sorted, lemma_same_elements, lemma_seq_char_less_irreflexive,
    lemma_seq_char_less_transitive, sort_diagnostics, sorted_from, Diagnostic, DiagnosticSeverity,
};
use crate::parsed::{Flow, Module, Story};
use crate::analysis::modules::dependencies::DependencyEntry;
use crate::text::{concat5, owned, seq_char_less, str_eq, str_less};

verus! {

/// Whether one of `flows` is declared `INTERNAL`.
pub open spec fn has_internal_flow(flows: Seq<Flow>) -> bool {
    exists|j: int| 0 <= j < flows.len() && (#[trigger] flows[j]).is_internal
}

/// Whether a module named `m` declares an `INTERNAL` knot. The host calls
/// such knots directly, so these modules are roots beside the entry module.
pub open spec fn is_internal_root(modules: Seq<Module>, m: Seq<char>) -> bool {
    exists|i: int| 0 <= i < modules.len() && (#[trigger] modules[i]).name@ == m && has_internal_flow(modules[i].flows@)
}

/// The roots of the search: the entry module and the modules with an
/// `INTERNAL` knot.
pub open spec fn is_root(modules: Seq<Module>, entry: Seq<char>, m: Seq<char>) -> bool {
    m == entry || is_internal_root(modules, m)
}

/// `p` is a walk along imports: each step goes from a module to one of
/// its direct dependencies.
pub open spec fn is_import_path(graph: ModuleDependencyGraph, p: Seq<Seq<char>>) -> bool {
    &&& p.len() >= 1
    &&& forall|i: int| 0 <= i < p.len() - 1 ==> names_contain(graph.deps(#[trigger] p[i]), p[i + 1])
}

/// Whether `m` is at the end of a walk along imports that starts at a root.
pub open spec fn reaches(graph: ModuleDependencyGraph, modules: Seq<Module>, entry: Seq<char>, m: Seq<char>) -> bool {
    exists|p: Seq<Seq<char>>| #[trigger] is_import_path(graph, p) && is_root(modules, entry, p[0]) && p.last() == m
}

/// Every direct dependency of `m` is among `names`.
pub open spec fn deps_included(graph: ModuleDependencyGraph, names: Seq<String>, m: Seq<char>) -> bool {
    forall|d: Seq<char>| #[trigger] names_contain(graph.deps(m), d) ==> names_contain(names, d)
}

/// The modules reached from the entry point, sorted by name.
#[derive(Debug, Clone, PartialEq, Eq)]
pub struct ModuleReachability {
    pub entry_module: Option<String>,
    pub reachable: Vec<String>,
}

impl Default for ModuleReachability {
    /// No entry point, and no module reached.
    fn default() -> (r: Self)
        ensures
            r.entry_module is None,
            r.reachable@.len() == 0,
    {
        ModuleReachability { entry_module: None, reachable: Vec::new() }
    }
}

impl ModuleReachability {
    pub open spec fn wf(&self) -> bool {
        strictly_sorted(self.reachable@)
    }

    /// The module of the entry point, if there is one.
    pub fn entry_module(&self) -> (r: Option<&str>)
        ensures
            r is Some <==> self.entry_module is Some,
            r matches Some(m) ==> m@ == self.entry_module->0@,
    {
        match &self.entry_module {
            Some(m) => Some(m.as_str()),
            None => None,
        }
    }

    /// Whether `module` is reached from the entry point.
    pub fn is_reachable(&self, module: &str) -> (r: bool)
        ensures
            r == names_contain(self.reachable@, module@),
    {
        let mut i: usize = 0;
        while i < self.reachable.len()
            invariant
                i <= self.reachable@.len(),
                forall|k: int| 0 <= k < i ==> (#[trigger] self.reachable@[k])@ != module@,
            decreases self.reachable.len() - i,
        {
            if str_eq(self.reachable[i].as_str(), module) {
                assert(self.reachable@[i as int]@ == module@);
                return true;
            }
            i = i + 1;
        }
        false
    }

    /// The reached modules, sorted by name.
    pub fn reachable_modules(&self) -> (r: Vec<&str>)
        ensures
            r@.len() == self.reachable@.len(),
            forall|i: int| 0 <= i < r@.len() ==> (#[trigger] r@[i])@ == self.reachable@[i]@,
    {
        let mut out: Vec<&str> = Vec::new();
        let mut i: usize = 0;
        while i < self.reachable.len()
            invariant
                i <= self.reachable@.len(),
                out@.len() == i,
                forall|k: int| 0 <= k < i ==> (#[trigger] out@[k])@ == self.reachable@[k]@,
            decreases self.reachable.len() - i,
        {
            out.push(self.reachable[i].as_str());
            i = i + 1;
        }
        out
    }
}


/// Adds `name` to the sorted list `names`; tells whether it was new.
fn insert_name(names: &mut Vec<String>, name: &str) -> (added: bool)
    requires
        strictly_sorted(old(names)@),
    ensures
        strictly_sorted(final(names)@),
        forall|s: Seq<char>| #[trigger] names_contain(final(names)@, s) <==> names_contain(old(names)@, s) || s == name@,
        added <==> !names_contain(old(names)@, name@),
        final(names)@.len() == old(names)@.len() + if added { 1int } else { 0int },
{
    let ghost old_names = names@;
    let mut pos: usize = 0;
    while pos < names.len()
        invariant
            names@ == old_names,
            strictly_sorted(old_names),
            pos <= old_names.len(),
            forall|k: int| 0 <= k < pos ==> seq_char_less(#[trigger] old_names[k]@, name@),
        ensures
            names@ == old_names,
            pos <= old_names.len(),
            forall|k: int| 0 <= k < pos ==> seq_char_less(#[trigger] old_names[k]@, name@),
            pos < old_names.len() ==> seq_char_less(name@, old_names[pos as int]@),
        decreases names.len() - pos,
    {
        if str_eq(names[pos].as_str(), name) {
            assert(names@[pos as int]@ == name@);
            return false;
        }
        if str_less(name, names[pos].as_str()) {
            break;
        }
        proof { lemma_char_order_total(name@, old_names[pos as int]@); }
        pos = pos + 1;
    }
    proof {
        assert forall|k: int| pos <= k < old_names.len() implies seq_char_less(name@, #[trigger] old_names[k]@) by {
            if k > pos {
                lemma_seq_char_less_transitive(name@, old_names[pos as int]@, old_names[k]@);
            }
        }
        assert(!names_contain(old_names, name@)) by {
            if names_contain(old_names, name@) {
                let y = choose|y: int| 0 <= y < old_names.len() && (#[trigger] old_names[y])@ == name@;
                lemma_seq_char_less_irreflexive(name@);
                if y < pos {
                    assert(seq_char_less(old_names[y]@, name@));
                } else {
                    assert(seq_char_less(name@, old_names[y]@));
                }
            }
        }
    }
    names.insert(pos, owned(name));
    proof {
        let new_names = names@;
        assert forall|a: int, b: int| 0 <= a < b < new_names.len() implies seq_char_less(new_names[a]@, new_names[b]@) by {
            if a < pos && b > pos {
                lemma_seq_char_less_transitive(new_names[a]@, name@, new_names[b]@);
            }
            if a != pos as int && b != pos as int {
                let oa = if a < pos { a } else { a - 1 };
                let ob = if b < pos { b } else { b - 1 };
                assert(new_names[a] == old_names[oa]);
                assert(new_names[b] == old_names[ob]);
            }
        }
        assert forall|s: Seq<char>| #[trigger] names_contain(new_names, s) <==> names_contain(old_names, s) || s == name@ by {
            if names_contain(old_names, s) {
                let y = choose|y: int| 0 <= y < old_names.len() && (#[trigger] old_names[y])@ == s;
                let ny = if y < pos { y } else { y + 1 };
                assert(new_names[ny] == old_names[y]);
            }
            if s == name@ {
                assert(new_names[pos as int]@ == s);
            }
            if names_contain(new_names, s) && s != name@ {
                let y = choose|y: int| 0 <= y < new_names.len() && (#[trigger] new_names[y])@ == s;
                let oy = if y < pos { y } else { y - 1 };
                assert(old_names[oy]@ == s);
            }
        }
    }
    true
}

/// Whether one of `flows` is declared `INTERNAL`.
fn declares_internal_flow(flows: &Vec<Flow>) -> (r: bool)
    ensures
        r == has_internal_flow(flows@),
{
    let mut j: usize = 0;
    while j < flows.len()
        invariant
            j <= flows@.len(),
            forall|k: int| 0 <= k < j ==> !(#[trigger] flows@[k]).is_internal,
        decreases flows.len() - j,
    {
        if flows[j].is_internal {
            return true;
        }
        j = j + 1;
    }
    false
}

/// Every module name that the search can meet: the entry module, the
/// story's modules and every dependency in the graph.
pub open spec fn dependency_names(entries: Seq<DependencyEntry>) -> Seq<Seq<char>>
    decreases entries.len(),
{
    if entries.len() == 0 {
        Seq::empty()
    } else {
        dependency_names(entries.drop_last()) + entries.last().dependencies@.map_values(|s: String| s@)
    }
}

pub open spec fn search_universe(graph: ModuleDependencyGraph, modules: Seq<Module>, entry: Seq<char>) -> Seq<Seq<char>> {
    seq![entry] + modules.map_values(|m: Module| m.name@) + dependency_names(graph.entries@)
}

proof fn lemma_dependency_names(entries: Seq<DependencyEntry>, i: int, x: int)
    requires
        0 <= i < entries.len(),
        0 <= x < entries[i].dependencies@.len(),
    ensures
        dependency_names(entries).contains(entries[i].dependencies@[x]@),
    decreases entries.len(),
{
    let rest = dependency_names(entries.drop_last());
    let last = entries.last().dependencies@.map_values(|s: String| s@);
    if i == entries.len() - 1 {
        assert((rest + last)[rest.len() + x] == entries[i].dependencies@[x]@);
    } else {
        lemma_dependency_names(entries.drop_last(), i, x);
        let k = choose|k: int| 0 <= k < rest.len() && rest[k] == entries[i].dependencies@[x]@;
        assert((rest + last)[k] == rest[k]);
    }
}

/// A dependency of a module in the graph belongs to the search universe.
proof fn lemma_dependency_in_universe(graph: ModuleDependencyGraph, modules: Seq<Module>, entry: Seq<char>, m: Seq<char>, d: Seq<char>)
    requires
        names_contain(graph.deps(m), d),
    ensures
        search_universe(graph, modules, entry).contains(d),
{
    let deps = graph.deps(m);
    let x = choose|x: int| 0 <= x < deps.len() && (#[trigger] deps[x])@ == d;
    if graph.has(m) {
        let i = graph.pos(m);
        lemma_dependency_names(graph.entries@, i, x);
        let names = dependency_names(graph.entries@);
        let k = choose|k: int| 0 <= k < names.len() && names[k] == d;
        let front = seq![entry] + modules.map_values(|md: Module| md.name@);
        assert((front + names)[front.len() + k] == d);
    }
}

/// A root belongs to the search universe.
proof fn lemma_root_in_universe(graph: ModuleDependencyGraph, modules: Seq<Module>, entry: Seq<char>, m: Seq<char>)
    requires
        is_root(modules, entry, m),
    ensures
        search_universe(graph, modules, entry).contains(m),
{
    let names = modules.map_values(|md: Module| md.name@);
    let front = seq![entry] + names;
    let u = front + dependency_names(graph.entries@);
    if m == entry {
        assert(u[0] == m);
    } else {
        let i = choose|i: int| 0 <= i < modules.len() && (#[trigger] modules[i]).name@ == m && has_internal_flow(modules[i].flows@);
        assert(front[1 + i] == names[i]);
        assert(u[1 + i] == m);
    }
}

/// A sorted list of names drawn from `universe` is no longer than it.
proof fn lemma_names_bound(names: Seq<String>, universe: Seq<Seq<char>>)
    requires
        strictly_sorted(names),
        forall|s: Seq<char>| names_contain(names, s) ==> #[trigger] universe.contains(s),
    ensures
        names.len() <= universe.len(),
{
    broadcast use vstd::seq_lib::seq_to_set_is_finite;
    let v = names.map_values(|x: String| x@);
    assert forall|a: int, b: int| 0 <= a < v.len() && 0 <= b < v.len() && a != b implies v[a] != v[b] by {
        lemma_seq_char_less_irreflexive(v[a]);
        if a < b {
            assert(seq_char_less(names[a]@, names[b]@));
        } else {
            assert(seq_char_less(names[b]@, names[a]@));
        }
    }
    assert(v.no_duplicates());
    v.unique_seq_to_set();
    universe.lemma_cardinality_of_set();
    assert forall|s: Seq<char>| v.to_set().contains(s) implies universe.to_set().contains(s) by {
        let k = choose|k: int| 0 <= k < v.len() && v[k] == s;
        assert(names[k]@ == s);
        assert(names_contain(names, s));
    }
    vstd::set_lib::lemma_len_subset(v.to_set(), universe.to_set());
}

/// A set of names that holds every root and every dependency of its
/// members holds the end of every walk from a root.
proof fn lemma_closed_holds_walks(graph: ModuleDependencyGraph, modules: Seq<Module>, entry: Seq<char>, names: Seq<String>, p: Seq<Seq<char>>)
    requires
        forall|s: Seq<char>| #[trigger] is_root(modules, entry, s) ==> names_contain(names, s),
        forall|s: Seq<char>| #[trigger] names_contain(names, s) ==> deps_included(graph, names, s),
        is_import_path(graph, p),
        is_root(modules, entry, p[0]),
    ensures
        names_contain(names, p.last()),
    decreases p.len(),
{
    if p.len() > 1 {
        let q = p.drop_last();
        assert forall|i: int| 0 <= i < q.len() - 1 implies names_contain(graph.deps(#[trigger] q[i]), q[i + 1]) by {
            assert(q[i] == p[i] && q[i + 1] == p[i + 1]);
        }
        lemma_closed_holds_walks(graph, modules, entry, names, q);
        assert(q.last() == p[p.len() - 2]);
        assert(names_contain(graph.deps(p[p.len() - 2]), p[p.len() - 1]));
        assert(deps_included(graph, names, q.last()));
    }
}

/// Extending a walk to a root by one dependency gives a walk to a root.
proof fn lemma_extend_walk(graph: ModuleDependencyGraph, modules: Seq<Module>, entry: Seq<char>, m: Seq<char>, d: Seq<char>)
    requires
        reaches(graph, modules, entry, m),
        names_contain(graph.deps(m), d),
    ensures
        reaches(graph, modules, entry, d),
{
    let p = choose|p: Seq<Seq<char>>| #[trigger] is_import_path(graph, p) && is_root(modules, entry, p[0]) && p.last() == m;
    let q = p.push(d);
    assert forall|i: int| 0 <= i < q.len() - 1 implies names_contain(graph.deps(#[trigger] q[i]), q[i + 1]) by {
        if i < p.len() - 1 {
            assert(q[i] == p[i] && q[i + 1] == p[i + 1]);
        } else {
            assert(q[i] == m && q[i + 1] == d);
        }
    }
    assert(is_import_path(graph, q));
    assert(q[0] == p[0]);
}

/// A root reaches itself.
proof fn lemma_root_reaches(graph: ModuleDependencyGraph, modules: Seq<Module>, entry: Seq<char>, m: Seq<char>)
    requires
        is_root(modules, entry, m),
    ensures
        reaches(graph, modules, entry, m),
{
    let p = seq![m];
    assert(is_import_path(graph, p));
}

/// Adds the direct dependencies of `current` to `visited`, and the new
/// ones to `worklist` as well.
fn expand_module(
    story: &Story,
    graph: &ModuleDependencyGraph,
    ep: &ModuleEntryPoint,
    current: &str,
    visited: &mut Vec<String>,
    worklist: &mut Vec<String>,
)
    requires
        graph.wf(),
        strictly_sorted(old(visited)@),
        names_contain(old(visited)@, current@),
        forall|s: Seq<char>| #[trigger] names_contain(old(visited)@, s) ==> reaches(*graph, story.modules@, ep.module@, s) && search_universe(*graph, story.modules@, ep.module@).contains(s),
        forall|s: Seq<char>| #[trigger] is_root(story.modules@, ep.module@, s) ==> names_contain(old(visited)@, s),
        forall|k: int| 0 <= k < old(worklist)@.len() ==> names_contain(old(visited)@, #[trigger] old(worklist)@[k]@),
        forall|s: Seq<char>| #[trigger] names_contain(old(visited)@, s) && s != current@ ==> names_contain(old(worklist)@, s) || deps_included(*graph, old(visited)@, s),
    ensures
        strictly_sorted(final(visited)@),
        final(visited)@.len() - old(visited)@.len() == final(worklist)@.len() - old(worklist)@.len(),
        final(visited)@.len() >= old(visited)@.len(),
        forall|s: Seq<char>| #[trigger] names_contain(final(visited)@, s) ==> reaches(*graph, story.modules@, ep.module@, s) && search_universe(*graph, story.modules@, ep.module@).contains(s),
        forall|s: Seq<char>| #[trigger] is_root(story.modules@, ep.module@, s) ==> names_contain(final(visited)@, s),
        forall|k: int| 0 <= k < final(worklist)@.len() ==> names_contain(final(visited)@, #[trigger] final(worklist)@[k]@),
        forall|s: Seq<char>| #[trigger] names_contain(final(visited)@, s) ==> names_contain(final(worklist)@, s) || deps_included(*graph, final(visited)@, s),
{
    let ghost modules = story.modules@;
    let ghost entry = ep.module@;
    let ghost universe = search_universe(*graph, modules, entry);
    let deps = graph.dependencies_for(current);
    let ghost v0 = visited@;
    let ghost w0 = worklist@;
    let mut j: usize = 0;
    while j < deps.len()
        invariant
            graph.wf(),
            modules == story.modules@,
            entry == ep.module@,
            universe == search_universe(*graph, modules, entry),
            deps@ == graph.deps(current@),
            j <= deps@.len(),
            strictly_sorted(visited@),
            names_contain(visited@, current@),
            forall|s: Seq<char>| #[trigger] names_contain(v0, s) ==> names_contain(visited@, s),
            forall|s: Seq<char>| #[trigger] names_contain(w0, s) ==> names_contain(worklist@, s),
            visited@.len() - v0.len() == worklist@.len() - w0.len(),
            visited@.len() >= v0.len(),
            forall|k: int| 0 <= k < j ==> names_contain(visited@, (#[trigger] deps@[k])@),
            forall|s: Seq<char>| #[trigger] names_contain(visited@, s) ==> reaches(*graph, modules, entry, s) && universe.contains(s),
            forall|s: Seq<char>| #[trigger] is_root(modules, entry, s) ==> names_contain(visited@, s),
            forall|k: int| 0 <= k < worklist@.len() ==> names_contain(visited@, #[trigger] worklist@[k]@),
            forall|s: Seq<char>| #[trigger] names_contain(visited@, s) && s != current@ ==> names_contain(worklist@, s) || deps_included(*graph, visited@, s),
        decreases deps.len() - j,
    {
        let ghost vb = visited@;
        let ghost wb = worklist@;
        let d = &deps[j];
        proof {
            assert(names_contain(graph.deps(current@), d@)) by { assert(deps@[j as int] == *d); }
            lemma_extend_walk(*graph, modules, entry, current@, d@);
            lemma_dependency_in_universe(*graph, modules, entry, current@, d@);
        }
        let added = insert_name(visited, d.as_str());
        if added {
            worklist.push(d.clone());
        }
        proof {
            assert forall|s: Seq<char>| #[trigger] names_contain(wb, s) implies names_contain(worklist@, s) by {
                let k = choose|k: int| 0 <= k < wb.len() && (#[trigger] wb[k])@ == s;
                assert(worklist@[k] == wb[k]);
            }
            assert forall|k: int| 0 <= k < worklist@.len() implies names_contain(visited@, #[trigger] worklist@[k]@) by {
                if k < wb.len() {
                    assert(worklist@[k] == wb[k]);
                }
            }
            assert forall|s: Seq<char>| #[trigger] names_contain(visited@, s) && s != current@ implies names_contain(worklist@, s) || deps_included(*graph, visited@, s) by {
                if names_contain(vb, s) {
                    if !names_contain(wb, s) {
                        assert(deps_included(*graph, vb, s));
                        assert forall|x: Seq<char>| #[trigger] names_contain(graph.deps(s), x) implies names_contain(visited@, x) by {
                            assert(names_contain(vb, x));
                        }
                    }
                } else {
                    assert(worklist@[worklist@.len() - 1]@ == s);
                }
            }
            assert(names_contain(visited@, deps@[j as int]@));
        }
        j = j + 1;
    }
    proof {
        assert(deps_included(*graph, visited@, current@)) by {
            assert forall|x: Seq<char>| #[trigger] names_contain(graph.deps(current@), x) implies names_contain(visited@, x) by {
                let k = choose|k: int| 0 <= k < deps@.len() && (#[trigger] deps@[k])@ == x;
            }
        }
    }
}

/// The modules reached from the entry point: the entry module, the modules
/// with an `INTERNAL` knot, and whatever they import, directly or through
/// other modules. Without an entry point nothing is reached.
pub fn build_module_reachability(
    story: &Story,
    graph: &ModuleDependencyGraph,
    entry_point: Option<&ModuleEntryPoint>,
) -> (r: ModuleReachability)
    requires
        graph.wf(),
    ensures
        r.wf(),
        entry_point is None ==> r.entry_module is None && r.reachable@.len() == 0,
        entry_point matches Some(e) ==> r.entry_module == Some(e.module),
        entry_point matches Some(e) ==> forall|m: Seq<char>|
            #[trigger] names_contain(r.reachable@, m) <==> reaches(*graph, story.modules@, e.module@, m),
{
    let ep = match entry_point {
        None => {
            return ModuleReachability { entry_module: None, reachable: Vec::new() };
        },
        Some(ep) => ep,
    };
    let ghost modules = story.modules@;
    let ghost entry = ep.module@;
    let ghost universe = search_universe(*graph, modules, entry);
    let mut visited: Vec<String> = Vec::new();
    let mut worklist: Vec<String> = Vec::new();
    insert_name(&mut visited, ep.module.as_str());
    worklist.push(ep.module.clone());
    proof {
        assert(names_contain(worklist@, entry)) by { assert(worklist@[0]@ == entry); }
        lemma_root_reaches(*graph, modules, entry, entry);
    }
    let mut i: usize = 0;
    while i < story.modules.len()
        invariant
            modules == story.modules@,
            entry == ep.module@,
            i <= modules.len(),
            strictly_sorted(visited@),
            forall|s: Seq<char>| #[trigger] names_contain(visited@, s) <==> s == entry || is_internal_root(modules.take(i as int), s),
            forall|s: Seq<char>| #[trigger] names_contain(visited@, s) ==> names_contain(worklist@, s),
            forall|k: int| 0 <= k < worklist@.len() ==> names_contain(visited@, #[trigger] worklist@[k]@),
        decreases story.modules.len() - i,
    {
        let module = &story.modules[i];
        let internal = declares_internal_flow(&module.flows);
        let ghost before_v = visited@;
        let ghost before_w = worklist@;
        if internal {
            let added = insert_name(&mut visited, module.name.as_str());
            if added {
                worklist.push(module.name.clone());
            }
        }
        proof {
            let t1 = modules.take(i + 1);
            let t0 = modules.take(i as int);
            assert forall|s: Seq<char>| #[trigger] is_internal_root(t1, s) <==> is_internal_root(t0, s) || (internal && s == module.name@) by {
                if is_internal_root(t1, s) {
                    let x = choose|x: int| 0 <= x < t1.len() && (#[trigger] t1[x]).name@ == s && has_internal_flow(t1[x].flows@);
                    if x < i {
                        assert(t0[x] == t1[x]);
                    }
                }
                if is_internal_root(t0, s) {
                    let x = choose|x: int| 0 <= x < t0.len() && (#[trigger] t0[x]).name@ == s && has_internal_flow(t0[x].flows@);
                    assert(t1[x] == t0[x]);
                }
                if internal && s == module.name@ {
                    assert(t1[i as int] == *module);
                }
            }
            assert forall|s: Seq<char>| #[trigger] names_contain(visited@, s) implies names_contain(worklist@, s) by {
                if names_contain(before_v, s) {
                    let k = choose|k: int| 0 <= k < before_w.len() && (#[trigger] before_w[k])@ == s;
                    assert(worklist@[k] == before_w[k]);
                } else {
                    assert(worklist@[worklist@.len() - 1]@ == s);
                }
            }
            assert forall|k: int| 0 <= k < worklist@.len() implies names_contain(visited@, #[trigger] worklist@[k]@) by {
                if k < before_w.len() {
                    assert(worklist@[k] == before_w[k]);
                }
            }
        }
        i = i + 1;
    }
    proof {
        assert(modules.take(modules.len() as int) =~= modules);
        assert forall|s: Seq<char>| #[trigger] names_contain(visited@, s) implies reaches(*graph, modules, entry, s) && universe.contains(s) by {
            lemma_root_reaches(*graph, modules, entry, s);
            lemma_root_in_universe(*graph, modules, entry, s);
        }
        lemma_names_bound(visited@, universe);
    }
    while worklist.len() > 0
        invariant
            graph.wf(),
            modules == story.modules@,
            entry == ep.module@,
            universe == search_universe(*graph, modules, entry),
            strictly_sorted(visited@),
            visited@.len() <= universe.len(),
            forall|s: Seq<char>| #[trigger] names_contain(visited@, s) ==> reaches(*graph, modules, entry, s) && universe.contains(s),
            forall|s: Seq<char>| #[trigger] is_root(modules, entry, s) ==> names_contain(visited@, s),
            forall|k: int| 0 <= k < worklist@.len() ==> names_contain(visited@, #[trigger] worklist@[k]@),
            forall|s: Seq<char>| #[trigger] names_contain(visited@, s) ==> names_contain(worklist@, s) || deps_included(*graph, visited@, s),
        decreases 2 * (universe.len() - visited@.len()) + worklist@.len(),
    {
        let ghost full_w = worklist@;
        let current = match worklist.pop() {
            Some(c) => c,
            None => { return ModuleReachability { entry_module: None, reachable: Vec::new() }; },
        };
        assert(current == full_w.last());
        assert(names_contain(visited@, current@));
        let ghost v0 = visited@;
        let ghost w0 = worklist@;
        proof {
            assert(w0 =~= full_w.drop_last());
            assert forall|s: Seq<char>| #[trigger] names_contain(visited@, s) && s != current@ implies names_contain(worklist@, s) || deps_included(*graph, visited@, s) by {
                if names_contain(full_w, s) {
                    let k = choose|k: int| 0 <= k < full_w.len() && (#[trigger] full_w[k])@ == s;
                    if k < full_w.len() - 1 {
                        assert(w0[k] == full_w[k]);
                    }
                }
            }
        }
        expand_module(story, graph, ep, current.as_str(), &mut visited, &mut worklist);
        proof {
            assert forall|s: Seq<char>| #[trigger] names_contain(visited@, s) implies names_contain(worklist@, s) || deps_included(*graph, visited@, s) by {
                if s != current@ {
                }
            }
            lemma_names_bound(visited@, universe);
            assert(w0.len() + 1 == full_w.len());
            assert(visited@.len() - v0.len() == worklist@.len() - w0.len());
            assert(2 * (universe.len() - visited@.len()) + worklist@.len() < 2 * (universe.len() - v0.len()) + full_w.len());
        }
    }
    proof {
        assert forall|s: Seq<char>| #[trigger] names_contain(visited@, s) implies deps_included(*graph, visited@, s) by {
            if names_contain(worklist@, s) {
                let k = choose|k: int| 0 <= k < worklist@.len() && (#[trigger] worklist@[k])@ == s;
            }
        }
        assert forall|m: Seq<char>| #[trigger] reaches(*graph, modules, entry, m) implies names_contain(visited@, m) by {
            let p = choose|p: Seq<Seq<char>>| #[trigger] is_import_path(*graph, p) && is_root(modules, entry, p[0]) && p.last() == m;
            lemma_closed_holds_walks(*graph, modules, entry, visited@, p);
        }
    }
    ModuleReachability { entry_module: Some(ep.module.clone()), reachable: visited }
}

/// `d` is the warning that module `m` cannot be reached from `entry::main`.
#[verifier::opaque]
pub open spec fn is_unreachable_warning(d: Diagnostic, m: Module, entry: Seq<char>) -> bool {
    &&& d.severity == DiagnosticSeverity::Warning
    &&& d.span_view() == m.name_span
    &&& d.message@ == "Module '"@ + m.name@ + "' is not reachable from entry point '"@ + entry + "::main'"@
}

/// How many of `modules` are not reached.
pub open spec fn count_unreachable(modules: Seq<Module>, reachable: Seq<String>) -> nat
    decreases modules.len(),
{
    if modules.len() == 0 {
        0
    } else {
        count_unreachable(modules.drop_last(), reachable) + if names_contain(reachable, modules.last().name@) {
            0nat
        } else {
            1nat
        }
    }
}

/// The modules of `modules` that are not reached, in order.
pub open spec fn unreached_modules(modules: Seq<Module>, reachable: Seq<String>) -> Seq<Module>
    decreases modules.len(),
{
    if modules.len() == 0 {
        Seq::empty()
    } else {
        unreached_modules(modules.drop_last(), reachable) + if names_contain(reachable, modules.last().name@) {
            Seq::empty()
        } else {
            seq![modules.last()]
        }
    }
}

/// `u[k]` is the warning for the unreached module number `k` of `modules`.
pub open spec fn warnings_in_order(u: Seq<Diagnostic>, modules: Seq<Module>, reachable: Seq<String>, entry: Seq<char>) -> bool {
    &&& u.len() == unreached_modules(modules, reachable).len()
    &&& forall|k: int| 0 <= k < u.len() ==> is_unreachable_warning(#[trigger] u[k], unreached_modules(modules, reachable)[k], entry)
}

/// `d` warns of one unreached module of `modules`.
pub open spec fn warns_of_unreached(d: Diagnostic, modules: Seq<Module>, reachable: Seq<String>, entry: Seq<char>) -> bool {
    exists|i: int| 0 <= i < modules.len() && !names_contain(reachable, (#[trigger] modules[i]).name@)
        && is_unreachable_warning(d, modules[i], entry)
}

/// Some diagnostic of `r` warns that `m` is not reached.
pub open spec fn has_warning_for(r: Seq<Diagnostic>, m: Module, entry: Seq<char>) -> bool {
    exists|k: int| 0 <= k < r.len() && is_unreachable_warning(#[trigger] r[k], m, entry)
}

/// Each diagnostic of `r` warns of one unreached module of `modules`.
pub open spec fn warns_only_unreached(r: Seq<Diagnostic>, modules: Seq<Module>, reachable: Seq<String>, entry: Seq<char>) -> bool {
    forall|k: int| 0 <= k < r.len() ==> warns_of_unreached(#[trigger] r[k], modules, reachable, entry)
}

/// Each unreached module of `modules` has its warning in `r`.
pub open spec fn warns_every_unreached(r: Seq<Diagnostic>, modules: Seq<Module>, reachable: Seq<String>, entry: Seq<char>) -> bool {
    forall|i: int| 0 <= i < modules.len() && !names_contain(reachable, (#[trigger] modules[i]).name@) ==> has_warning_for(r, modules[i], entry)
}

/// Sorting keeps which modules the warnings speak of.
proof fn lemma_sorted_warnings(out: Seq<Diagnostic>, unsorted: Seq<Diagnostic>, modules: Seq<Module>, reach: Seq<String>, entry: Seq<char>)
    requires
        out.to_multiset() == unsorted.to_multiset(),
        warns_only_unreached(unsorted, modules, reach, entry),
        warns_every_unreached(unsorted, modules, reach, entry),
    ensures
        warns_only_unreached(out, modules, reach, entry),
        warns_every_unreached(out, modules, reach, entry),
{
    lemma_same_elements(out, unsorted);
    assert forall|k: int| 0 <= k < out.len() implies warns_of_unreached(#[trigger] out[k], modules, reach, entry) by {
        assert(out.contains(out[k]));
        assert(unsorted.contains(out[k]));
        let j = choose|j: int| 0 <= j < unsorted.len() && unsorted[j] == out[k];
        assert(warns_of_unreached(unsorted[j], modules, reach, entry));
    }
    assert forall|x: int| 0 <= x < modules.len() && !names_contain(reach, (#[trigger] modules[x]).name@) implies has_warning_for(out, modules[x], entry) by {
        let j = choose|j: int| 0 <= j < unsorted.len() && is_unreachable_warning(#[trigger] unsorted[j], modules[x], entry);
        assert(unsorted.contains(unsorted[j]));
        assert(out.contains(unsorted[j]));
        let k = choose|k: int| 0 <= k < out.len() && out[k] == unsorted[j];
        assert(is_unreachable_warning(out[k], modules[x], entry));
    }
}

/// One warning, at the module's name, for each module that the entry point
/// does not reach, sorted; none when there is no entry point.
#[verifier::rlimit(50)]
pub fn unreachable_module_diagnostics(story: &Story, reachability: &ModuleReachability) -> (r: Vec<Diagnostic>)
    ensures
        reachability.entry_module is None ==> r@.len() == 0,
        reachability.entry_module matches Some(e) ==> {
            &&& diagnostics_sorted(r@)
            &&& r@.len() == count_unreachable(story.modules@, reachability.reachable@)
            &&& warns_only_unreached(r@, story.modules@, reachability.reachable@, e@)
            &&& warns_every_unreached(r@, story.modules@, reachability.reachable@, e@)
            &&& exists|u: Seq<Diagnostic>, p: Seq<int>| #[trigger] sorted_from(u, r@, p) && warnings_in_order(
                u,
                story.modules@,
                reachability.reachable@,
                e@,
            )
        },
{
    let mut out: Vec<Diagnostic> = Vec::new();
    let entry = match &reachability.entry_module {
        None => {
            return out;
        },
        Some(e) => e,
    };
    let ghost modules = story.modules@;
    let ghost reach = reachability.reachable@;
    let mut i: usize = 0;
    while i < story.modules.len()
        invariant
            modules == story.modules@,
            reach == reachability.reachable@,
            i <= modules.len(),
            out@.len() == count_unreachable(modules.take(i as int), reach),
            warns_only_unreached(out@, modules, reach, entry@),
            warns_every_unreached(out@, modules.take(i as int), reach, entry@),
            warnings_in_order(out@, modules.take(i as int), reach, entry@),
        decreases story.modules.len() - i,
    {
        let module = &story.modules[i];
        let ghost before = out@;
        proof {
            assert(modules.take(i + 1).drop_last() =~= modules.take(i as int));
            assert(modules.take(i + 1).last() == *module);
        }
        if !reachability.is_reachable(module.name.as_str()) {
            let message = concat5("Module '", module.name.as_str(), "' is not reachable from entry point '", entry.as_str(), "::main'");
            out.push(Diagnostic::warning(module.name_span.duplicate(), message));
            proof {
                reveal(is_unreachable_warning);
                assert(is_unreachable_warning(out@[out@.len() - 1], modules[i as int], entry@));
                assert forall|k: int| 0 <= k < out@.len() implies warns_of_unreached(#[trigger] out@[k], modules, reach, entry@) by {
                    if k < before.len() {
                        assert(out@[k] == before[k]);
                    } else {
                        assert(modules[i as int] == *module);
                    }
                }
            }
        }
        proof {
            let t1 = modules.take(i + 1);
            let prev = unreached_modules(modules.take(i as int), reach);
            assert(t1.drop_last() =~= modules.take(i as int));
            assert forall|k: int| 0 <= k < out@.len() implies is_unreachable_warning(#[trigger] out@[k], unreached_modules(t1, reach)[k], entry@) by {
                if k < before.len() {
                    assert(out@[k] == before[k]);
                    assert(unreached_modules(t1, reach)[k] == prev[k]);
                }
            }
            assert forall|x: int| 0 <= x < t1.len() && !names_contain(reach, (#[trigger] t1[x]).name@) implies has_warning_for(out@, t1[x], entry@) by {
                if x < i {
                    assert(t1[x] == modules.take(i as int)[x]);
                    let k = choose|k: int| 0 <= k < before.len() && is_unreachable_warning(#[trigger] before[k], t1[x], entry@);
                    assert(out@[k] == before[k]);
                } else {
                    assert(is_unreachable_warning(out@[out@.len() - 1], t1[x], entry@));
                }
            }
        }
        i = i + 1;
    }
    assert(modules.take(modules.len() as int) =~= modules);
    let ghost unsorted = out@;
    sort_diagnostics(&mut out);
    proof {
        lemma_sorted_warnings(out@, unsorted, modules, reach, entry@);
        let p = choose|p: Seq<int>| #[trigger] sorted_from(unsorted, out@, p);
        assert(sorted_from(unsorted, out@, p) && warnings_in_order(unsorted, modules, reach, entry@));
    }
    out
}

} // verus!
