//! The module dependency graph built from imports, reachability from the
//! entry point, and import cycle diagnostics.
use vstd::prelude::*;

use crate::analysis::modules::entry_point::ModuleEntryPoint;
use crate::analysis::modules::symbols::{declares_module, lemma_char_order_total};
use crate::diagnostic::{
    sorted_from, diagnostic_less,
    diagnostics_sorted, lemma_same_elements, lemma_seq_char_less_irreflexive,
    lemma_seq_char_less_transitive, sort_diagnostics, Diagnostic,
};
use crate::parsed::{Import, Module, Story};
use crate::source::SourceSpan;
use crate::text::{concat2, concat3, owned, seq_char_less, str_eq, str_less};

verus! {

/// Whether some import of `imports` comes from module `s`.
pub open spec fn imports_from_module(imports: Seq<Import>, s: Seq<char>) -> bool {
    exists|k: int| 0 <= k < imports.len() && (#[trigger] imports[k]).source_module@ == s
}

/// The span of the first import of `imports` from module `s`.
pub open spec fn first_import_span(imports: Seq<Import>, s: Seq<char>) -> SourceSpan
    decreases imports.len(),
{
    if imports.len() == 0 {
        SourceSpan { source_filename: None, line: 1, column: 1 }
    } else if imports_from_module(imports.drop_last(), s) {
        first_import_span(imports.drop_last(), s)
    } else {
        imports.last().source_module_span
    }
}

/// Names in strictly increasing order.
pub open spec fn strictly_sorted(names: Seq<String>) -> bool {
    forall|a: int, b: int| 0 <= a < b < names.len() ==> seq_char_less(names[a]@, names[b]@)
}

pub open spec fn names_contain(names: Seq<String>, s: Seq<char>) -> bool {
    exists|x: int| 0 <= x < names.len() && (#[trigger] names[x])@ == s
}

/// The direct dependencies of one module, sorted, each with the span of
/// the first import that names it.
#[derive(Debug, Clone, PartialEq, Eq)]
pub struct DependencyEntry {
    pub module: String,
    pub dependencies: Vec<String>,
    pub spans: Vec<SourceSpan>,
}

/// Which modules each module imports from, keyed by module name.
#[derive(Debug, Clone, PartialEq, Eq)]
pub struct ModuleDependencyGraph {
    pub entries: Vec<DependencyEntry>,
}

impl Default for ModuleDependencyGraph {
    /// The graph of no module.
    fn default() -> (r: Self)
        ensures
            r.entries@.len() == 0,
    {
        ModuleDependencyGraph { entries: Vec::new() }
    }
}

pub open spec fn entry_wf(e: DependencyEntry) -> bool {
    strictly_sorted(e.dependencies@) && e.spans@.len() == e.dependencies@.len()
}

/// `e` lists exactly the modules that `imports` come from, each with the
/// span of its first import.
pub open spec fn entry_matches(e: DependencyEntry, imports: Seq<Import>) -> bool {
    &&& entry_wf(e)
    &&& forall|s: Seq<char>| #[trigger] names_contain(e.dependencies@, s) <==> imports_from_module(imports, s)
    &&& forall|x: int| 0 <= x < e.dependencies@.len() ==> e.spans@[x] == first_import_span(imports, #[trigger] e.dependencies@[x]@)
}

impl ModuleDependencyGraph {
    pub open spec fn wf(&self) -> bool {
        &&& forall|a: int, b: int| 0 <= a < b < self.entries@.len() ==> seq_char_less(self.entries@[a].module@, self.entries@[b].module@)
        &&& forall|a: int| 0 <= a < self.entries@.len() ==> entry_wf(#[trigger] self.entries@[a])
    }

    pub open spec fn has(&self, m: Seq<char>) -> bool {
        exists|i: int| 0 <= i < self.entries@.len() && (#[trigger] self.entries@[i]).module@ == m
    }

    pub open spec fn pos(&self, m: Seq<char>) -> int {
        choose|i: int| 0 <= i < self.entries@.len() && (#[trigger] self.entries@[i]).module@ == m
    }

    /// The direct dependencies of `m`, sorted; empty when `m` has no entry.
    pub open spec fn deps(&self, m: Seq<char>) -> Seq<String> {
        if self.has(m) {
            self.entries@[self.pos(m)].dependencies@
        } else {
            Seq::empty()
        }
    }

    pub proof fn lemma_pos(&self, m: Seq<char>, i: int)
        requires
            self.wf(),
            0 <= i < self.entries@.len(),
            self.entries@[i].module@ == m,
        ensures
            self.has(m),
            self.pos(m) == i,
    {
        assert(self.entries@[i].module@ == m);
        let p = self.pos(m);
        lemma_seq_char_less_irreflexive(m);
        if p < i {
            assert(seq_char_less(self.entries@[p].module@, self.entries@[i].module@));
        } else if p > i {
            assert(seq_char_less(self.entries@[i].module@, self.entries@[p].module@));
        }
    }

    /// Where `module` stands, or where it would be inserted.
    fn find(&self, module: &str) -> (r: (bool, usize))
        requires
            self.wf(),
        ensures
            r.1 <= self.entries@.len(),
            r.0 ==> r.1 < self.entries@.len() && self.entries@[r.1 as int].module@ == module@,
            !r.0 ==> forall|k: int| 0 <= k < r.1 ==> seq_char_less(#[trigger] self.entries@[k].module@, module@),
            !r.0 ==> forall|k: int| r.1 <= k < self.entries@.len() ==> seq_char_less(module@, #[trigger] self.entries@[k].module@),
            !r.0 ==> !self.has(module@),
    {
        let mut pos: usize = 0;
        while pos < self.entries.len()
            invariant
                self.wf(),
                pos <= self.entries@.len(),
                forall|k: int| 0 <= k < pos ==> seq_char_less(#[trigger] self.entries@[k].module@, module@),
            decreases self.entries.len() - pos,
        {
            if str_less(module, self.entries[pos].module.as_str()) {
                proof {
                    assert forall|k: int| pos <= k < self.entries@.len() implies seq_char_less(module@, #[trigger] self.entries@[k].module@) by {
                        if k > pos {
                            lemma_seq_char_less_transitive(module@, self.entries@[pos as int].module@, self.entries@[k].module@);
                        }
                    }
                    if self.has(module@) {
                        let i = choose|i: int| 0 <= i < self.entries@.len() && (#[trigger] self.entries@[i]).module@ == module@;
                        lemma_seq_char_less_irreflexive(module@);
                        if i < pos {
                            assert(seq_char_less(self.entries@[i].module@, module@));
                        } else {
                            assert(seq_char_less(module@, self.entries@[i].module@));
                        }
                    }
                }
                return (false, pos);
            }
            if str_eq(module, self.entries[pos].module.as_str()) {
                return (true, pos);
            }
            proof { lemma_char_order_total(module@, self.entries@[pos as int].module@); }
            pos = pos + 1;
        }
        proof {
            if self.has(module@) {
                let i = choose|i: int| 0 <= i < self.entries@.len() && (#[trigger] self.entries@[i]).module@ == module@;
                lemma_seq_char_less_irreflexive(module@);
                assert(seq_char_less(self.entries@[i].module@, module@));
            }
        }
        (false, pos)
    }

    /// Sets the entry of `entry.module`, replacing any earlier one.
    fn put(&mut self, entry: DependencyEntry)
        requires
            old(self).wf(),
            entry_wf(entry),
        ensures
            final(self).wf(),
            forall|m: Seq<char>| #[trigger] final(self).has(m) <==> old(self).has(m) || m == entry.module@,
            final(self).has(entry.module@) && final(self).entries@[final(self).pos(entry.module@)] == entry,
            forall|m: Seq<char>| m != entry.module@ && old(self).has(m) ==> #[trigger] final(self).entries@[final(self).pos(m)] == old(self).entries@[old(self).pos(m)],
    {
        let ghost old_entries = self.entries@;
        let ghost name = entry.module@;
        let (found, pos) = self.find(entry.module.as_str());
        if found {
            let _ = self.entries.remove(pos);
            self.entries.insert(pos, entry);
            proof {
                let new_entries = self.entries@;
                assert(new_entries =~= old_entries.update(pos as int, entry));
                assert forall|a: int, b: int| 0 <= a < b < new_entries.len() implies seq_char_less(new_entries[a].module@, new_entries[b].module@) by {
                    assert(new_entries[a].module@ == old_entries[a].module@);
                    assert(new_entries[b].module@ == old_entries[b].module@);
                }
                assert forall|a: int| 0 <= a < new_entries.len() implies entry_wf(#[trigger] new_entries[a]) by {
                    if a != pos {
                        assert(new_entries[a] == old_entries[a]);
                    }
                }
                self.lemma_pos(name, pos as int);
                assert forall|m: Seq<char>| #[trigger] self.has(m) <==> old(self).has(m) || m == name by {
                    if old(self).has(m) {
                        let i = old(self).pos(m);
                        assert(new_entries[i].module@ == m);
                    }
                    if self.has(m) {
                        let i = self.pos(m);
                        assert(old_entries[i].module@ == m);
                    }
                }
                assert forall|m: Seq<char>| m != name && old(self).has(m) implies #[trigger] self.entries@[self.pos(m)] == old(self).entries@[old(self).pos(m)] by {
                    let i = old(self).pos(m);
                    old(self).lemma_pos(m, i);
                    assert(new_entries[i] == old_entries[i]);
                    self.lemma_pos(m, i);
                }
            }
        } else {
            self.entries.insert(pos, entry);
            proof {
                let new_entries = self.entries@;
                assert forall|a: int, b: int| 0 <= a < b < new_entries.len() implies seq_char_less(new_entries[a].module@, new_entries[b].module@) by {
                    if a < pos && b > pos {
                        lemma_seq_char_less_transitive(new_entries[a].module@, name, new_entries[b].module@);
                    }
                    if a != pos as int && b != pos as int {
                        let oa = if a < pos { a } else { a - 1 };
                        let ob = if b < pos { b } else { b - 1 };
                        assert(new_entries[a] == old_entries[oa]);
                        assert(new_entries[b] == old_entries[ob]);
                    }
                }
                assert forall|a: int| 0 <= a < new_entries.len() implies entry_wf(#[trigger] new_entries[a]) by {
                    if a != pos {
                        let oa = if a < pos { a } else { a - 1 };
                        assert(new_entries[a] == old_entries[oa]);
                    }
                }
                self.lemma_pos(name, pos as int);
                assert forall|m: Seq<char>| #[trigger] self.has(m) <==> old(self).has(m) || m == name by {
                    if old(self).has(m) {
                        let i = old(self).pos(m);
                        let ni = if i < pos { i } else { i + 1 };
                        assert(new_entries[ni] == old_entries[i]);
                    }
                    if self.has(m) && m != name {
                        let i = self.pos(m);
                        let oi = if i < pos { i } else { i - 1 };
                        assert(old_entries[oi].module@ == m);
                    }
                }
                assert forall|m: Seq<char>| m != name && old(self).has(m) implies #[trigger] self.entries@[self.pos(m)] == old(self).entries@[old(self).pos(m)] by {
                    let i = old(self).pos(m);
                    old(self).lemma_pos(m, i);
                    let ni = if i < pos { i } else { i + 1 };
                    assert(new_entries[ni] == old_entries[i]);
                    self.lemma_pos(m, ni);
                }
            }
        }
    }
}

/// Adds `name` (first seen at `span`) to the sorted list `names`.
fn add_dependency(names: &mut Vec<String>, spans: &mut Vec<SourceSpan>, name: &str, span: &SourceSpan)
    requires
        strictly_sorted(old(names)@),
        old(spans)@.len() == old(names)@.len(),
    ensures
        strictly_sorted(final(names)@),
        final(spans)@.len() == final(names)@.len(),
        forall|s: Seq<char>| #[trigger] names_contain(final(names)@, s) <==> names_contain(old(names)@, s) || s == name@,
        forall|x: int| 0 <= x < final(names)@.len() ==> span_kept(old(names)@, old(spans)@, #[trigger] final(names)@[x]@, final(spans)@[x], name@, *span),
{
    let ghost old_names = names@;
    let ghost old_spans = spans@;
    let mut pos: usize = 0;
    while pos < names.len()
        invariant
            names@ == old_names,
            spans@ == old_spans,
            old_spans.len() == old_names.len(),
            strictly_sorted(old_names),
            pos <= old_names.len(),
            forall|k: int| 0 <= k < pos ==> seq_char_less(#[trigger] old_names[k]@, name@),
        ensures
            names@ == old_names,
            spans@ == old_spans,
            pos <= old_names.len(),
            forall|k: int| 0 <= k < pos ==> seq_char_less(#[trigger] old_names[k]@, name@),
            pos < old_names.len() ==> seq_char_less(name@, old_names[pos as int]@),
        decreases names.len() - pos,
    {
        if str_eq(names[pos].as_str(), name) {
            proof {
                assert(names@[pos as int]@ == name@);
                assert(names_contain(old_names, name@));
                assert forall|x: int| 0 <= x < old_names.len() implies span_kept(old_names, old_spans, #[trigger] old_names[x]@, old_spans[x], name@, *span) by {
                    assert(old_names[x]@ == old_names[x]@);
                }
            }
            return ;
        }
        if str_less(name, names[pos].as_str()) {
            break;
        }
        proof { lemma_char_order_total(name@, old_names[pos as int]@); }
        pos = pos + 1;
    }
    proof {
        assert forall|k: int| pos <= k < old_names.len() implies seq_char_less(name@, #[trigger] old_names[k]@) by {
            if k > pos {
                lemma_seq_char_less_transitive(name@, old_names[pos as int]@, old_names[k]@);
            }
        }
        assert(!names_contain(old_names, name@)) by {
            if names_contain(old_names, name@) {
                let y = choose|y: int| 0 <= y < old_names.len() && (#[trigger] old_names[y])@ == name@;
                lemma_seq_char_less_irreflexive(name@);
                if y < pos {
                    assert(seq_char_less(old_names[y]@, name@));
                } else {
                    assert(seq_char_less(name@, old_names[y]@));
                }
            }
        }
    }
    names.insert(pos, owned(name));
    spans.insert(pos, span.duplicate());
    proof {
        let new_names = names@;
        assert forall|a: int, b: int| 0 <= a < b < new_names.len() implies seq_char_less(new_names[a]@, new_names[b]@) by {
            if a < pos && b > pos {
                lemma_seq_char_less_transitive(new_names[a]@, name@, new_names[b]@);
            }
            if a != pos as int && b != pos as int {
                let oa = if a < pos { a } else { a - 1 };
                let ob = if b < pos { b } else { b - 1 };
                assert(new_names[a] == old_names[oa]);
                assert(new_names[b] == old_names[ob]);
            }
        }
        assert forall|s: Seq<char>| #[trigger] names_contain(new_names, s) <==> names_contain(old_names, s) || s == name@ by {
            if names_contain(old_names, s) {
                let y = choose|y: int| 0 <= y < old_names.len() && (#[trigger] old_names[y])@ == s;
                let ny = if y < pos { y } else { y + 1 };
                assert(new_names[ny] == old_names[y]);
            }
            if s == name@ {
                assert(new_names[pos as int]@ == s);
            }
            if names_contain(new_names, s) && s != name@ {
                let y = choose|y: int| 0 <= y < new_names.len() && (#[trigger] new_names[y])@ == s;
                let oy = if y < pos { y } else { y - 1 };
                assert(old_names[oy]@ == s);
            }
        }
        assert forall|x: int| 0 <= x < new_names.len() implies span_kept(old_names, old_spans, #[trigger] new_names[x]@, spans@[x], name@, *span) by {
            if x == pos {
                assert(new_names[x]@ == name@);
            } else {
                let ox = if x < pos { x } else { x - 1 };
                assert(new_names[x] == old_names[ox]);
                assert(spans@[x] == old_spans[ox]);
            }
        }
    }
}

/// The span of `s` after adding `name` at `span`: an existing name keeps
/// its span, the new name gets `span`.
pub open spec fn span_kept(old_names: Seq<String>, old_spans: Seq<SourceSpan>, s: Seq<char>, result: SourceSpan, name: Seq<char>, span: SourceSpan) -> bool {
    ||| exists|y: int| 0 <= y < old_names.len() && (#[trigger] old_names[y])@ == s && old_spans[y] == result
    ||| s == name && !names_contain(old_names, name) && result == span
}

/// In a strictly sorted list, the chosen position of a present name is its
/// position.
proof fn lemma_sorted_choose(names: Seq<String>, spans: Seq<SourceSpan>)
    requires
        strictly_sorted(names),
    ensures
        forall|x: int| 0 <= x < names.len() ==> (choose|y: int| 0 <= y < names.len() && (#[trigger] names[y])@ == (#[trigger] names[x])@) == x,
{
    assert forall|x: int| 0 <= x < names.len() implies (choose|y: int| 0 <= y < names.len() && (#[trigger] names[y])@ == (#[trigger] names[x])@) == x by {
        assert(names[x]@ == names[x]@);
        let y = choose|y: int| 0 <= y < names.len() && (#[trigger] names[y])@ == names[x]@;
        lemma_seq_char_less_irreflexive(names[x]@);
        if y < x {
            assert(seq_char_less(names[y]@, names[x]@));
        } else if y > x {
            assert(seq_char_less(names[x]@, names[y]@));
        }
    }
}

/// The dependency entry of `module`: the modules it imports from, sorted,
/// each with the span of its first import.
fn collect_module_dependencies(module: &Module) -> (e: DependencyEntry)
    ensures
        e.module@ == module.name@,
        entry_matches(e, module.imports@),
{
    let mut names: Vec<String> = Vec::new();
    let mut spans: Vec<SourceSpan> = Vec::new();
    let imports = &module.imports;
    let mut k: usize = 0;
    while k < imports.len()
        invariant
            k <= imports@.len(),
            strictly_sorted(names@),
            spans@.len() == names@.len(),
            forall|s: Seq<char>| #[trigger] names_contain(names@, s) <==> imports_from_module(imports@.take(k as int), s),
            forall|x: int| 0 <= x < names@.len() ==> spans@[x] == first_import_span(imports@.take(k as int), #[trigger] names@[x]@),
        decreases imports.len() - k,
    {
        let ghost old_names = names@;
        let ghost old_spans = spans@;
        let import = &imports[k];
        add_dependency(&mut names, &mut spans, import.source_module.as_str(), &import.source_module_span);
        proof {
            let t1 = imports@.take(k + 1);
            let t0 = imports@.take(k as int);
            assert(t1.drop_last() =~= t0);
            assert(t1.last() == *import);
            assert forall|s: Seq<char>| #[trigger] imports_from_module(t1, s) <==> imports_from_module(t0, s) || s == import.source_module@ by {
                if imports_from_module(t1, s) {
                    let x = choose|x: int| 0 <= x < t1.len() && (#[trigger] t1[x]).source_module@ == s;
                    if x < k {
                        assert(t0[x] == t1[x]);
                    }
                }
                if imports_from_module(t0, s) {
                    let x = choose|x: int| 0 <= x < t0.len() && (#[trigger] t0[x]).source_module@ == s;
                    assert(t1[x] == t0[x]);
                }
                if s == import.source_module@ {
                    assert(t1[k as int].source_module@ == s);
                }
            }
            assert forall|x: int| 0 <= x < names@.len() implies spans@[x] == first_import_span(t1, #[trigger] names@[x]@) by {
                let s = names@[x]@;
                assert(span_kept(old_names, old_spans, s, spans@[x], import.source_module@, import.source_module_span));
                if exists|y: int| 0 <= y < old_names.len() && (#[trigger] old_names[y])@ == s && old_spans[y] == spans@[x] {
                    let y = choose|y: int| 0 <= y < old_names.len() && (#[trigger] old_names[y])@ == s && old_spans[y] == spans@[x];
                    assert(names_contain(old_names, s));
                    assert(imports_from_module(t0, s));
                } else {
                    assert(!names_contain(old_names, s));
                    assert(!imports_from_module(t0, s));
                }
            }
        }
        k = k + 1;
    }
    assert(imports@.take(imports@.len() as int) =~= imports@);
    DependencyEntry { module: module.name.clone(), dependencies: names, spans }
}

/// Whether `modules[i]` is the last module with its name.
pub open spec fn is_last_of_name(modules: Seq<Module>, i: int) -> bool {
    forall|k: int| i < k < modules.len() ==> (#[trigger] modules[k]).name@ != modules[i].name@
}

/// The dependency graph of `story`: every module is present and lists the
/// modules its imports come from (bare imports included), sorted, each with
/// the span of its first import. When two modules share a name, the later
/// one's imports are the ones recorded.
pub fn build_module_dependency_graph(story: &Story) -> (graph: ModuleDependencyGraph)
    ensures
        is_graph_of(graph, story.modules@),
{
    let mut graph = ModuleDependencyGraph { entries: Vec::new() };
    let ghost modules = story.modules@;
    let mut i: usize = 0;
    while i < story.modules.len()
        invariant
            modules == story.modules@,
            i <= modules.len(),
            graph.wf(),
            forall|m: Seq<char>| #[trigger] graph.has(m) <==> declares_module(modules.take(i as int), m),
            forall|j: int| 0 <= j < i && #[trigger] is_last_of_name(modules.take(i as int), j) ==> entry_matches(
                graph.entries@[graph.pos(modules[j].name@)],
                modules[j].imports@,
            ),
        decreases story.modules.len() - i,
    {
        let entry = collect_module_dependencies(&story.modules[i]);
        let ghost before = graph;
        graph.put(entry);
        proof {
            crate::analysis::modules::imports::lemma_declares_step_public(modules, i as int);
            let t1 = modules.take(i + 1);
            let t0 = modules.take(i as int);
            assert forall|j: int| 0 <= j < i + 1 && #[trigger] is_last_of_name(t1, j) implies entry_matches(
                graph.entries@[graph.pos(modules[j].name@)],
                modules[j].imports@,
            ) by {
                if j == i {
                } else {
                    assert(t1[i as int].name@ != t1[j].name@);
                    assert(modules[j].name@ != modules[i as int].name@);
                    assert forall|k: int| j < k < t0.len() implies (#[trigger] t0[k]).name@ != t0[j].name@ by {
                        assert(t1[k] == t0[k]);
                    }
                    assert(is_last_of_name(t0, j));
                    assert(before.has(modules[j].name@)) by {
                        assert(t0[j].name@ == modules[j].name@);
                        assert(declares_module(t0, modules[j].name@));
                    }
                }
            }
        }
        i = i + 1;
    }
    proof {
        assert(modules.take(modules.len() as int) =~= modules);
    }
    graph
}

impl ModuleDependencyGraph {
    /// Every module with an entry, sorted.
    pub fn modules(&self) -> (r: Vec<&str>)
        ensures
            r@.len() == self.entries@.len(),
            forall|i: int| 0 <= i < r@.len() ==> (#[trigger] r@[i])@ == self.entries@[i].module@,
    {
        let mut out: Vec<&str> = Vec::new();
        let mut i: usize = 0;
        while i < self.entries.len()
            invariant
                i <= self.entries@.len(),
                out@.len() == i,
                forall|k: int| 0 <= k < i ==> (#[trigger] out@[k])@ == self.entries@[k].module@,
            decreases self.entries.len() - i,
        {
            out.push(self.entries[i].module.as_str());
            i = i + 1;
        }
        out
    }

    /// The direct dependencies of `module`, sorted; empty when the graph
    /// has no such module.
    pub fn dependencies_for(&self, module: &str) -> (r: Vec<String>)
        requires
            self.wf(),
        ensures
            r@ == self.deps(module@),
    {
        let (found, pos) = self.find(module);
        if found {
            proof { self.lemma_pos(module@, pos as int); }
            self.entries[pos].dependencies.clone()
        } else {
            Vec::new()
        }
    }

    /// Whether `module` imports from `dependency`.
    pub fn contains_dependency(&self, module: &str, dependency: &str) -> (r: bool)
        requires
            self.wf(),
        ensures
            r == names_contain(self.deps(module@), dependency@),
    {
        let deps = self.dependencies_for(module);
        let mut i: usize = 0;
        while i < deps.len()
            invariant
                i <= deps@.len(),
                deps@ == self.deps(module@),
                forall|k: int| 0 <= k < i ==> (#[trigger] deps@[k])@ != dependency@,
            decreases deps.len() - i,
        {
            if str_eq(deps[i].as_str(), dependency) {
                assert(deps@[i as int]@ == dependency@);
                return true;
            }
            i = i + 1;
        }
        false
    }
}

/// `c` is a cycle of imports: it starts and ends at the same module and
/// each step goes from a module to one of its direct dependencies.
pub open spec fn is_import_cycle(graph: ModuleDependencyGraph, c: Seq<Seq<char>>) -> bool {
    &&& c.len() >= 2
    &&& c[0] == c.last()
    &&& forall|i: int| 0 <= i < c.len() - 1 ==> names_contain(graph.deps(#[trigger] c[i]), c[i + 1])
}

/// The modules of `p` joined by ` -> `.
pub open spec fn join_arrows(p: Seq<Seq<char>>) -> Seq<char>
    decreases p.len(),
{
    if p.len() == 0 {
        Seq::empty()
    } else if p.len() == 1 {
        p[0]
    } else {
        join_arrows(p.drop_last()) + " -> "@ + p.last()
    }
}

/// The span of the first import of `d` by module `m`.
pub open spec fn edge_span(graph: ModuleDependencyGraph, m: Seq<char>, d: Seq<char>) -> SourceSpan {
    let e = graph.entries@[graph.pos(m)];
    e.spans@[choose|x: int| 0 <= x < e.dependencies@.len() && (#[trigger] e.dependencies@[x])@ == d]
}

/// `d` is the error for the import cycle `c`, placed at the import that
/// closes it.
pub open spec fn is_cycle_error(graph: ModuleDependencyGraph, d: Diagnostic, c: Seq<Seq<char>>) -> bool {
    &&& is_import_cycle(graph, c)
    &&& d.is_error()
    &&& d.message@ == "Cyclic module import detected: "@ + join_arrows(c)
    &&& d.span_view() == edge_span(graph, c[c.len() - 2], c.last())
}

/// `d` reports some import cycle of `graph`.
pub open spec fn reports_cycle(graph: ModuleDependencyGraph, d: Diagnostic) -> bool {
    exists|c: Seq<Seq<char>>| #[trigger] is_import_cycle(graph, c) && is_cycle_error(graph, d, c)
}

/// The graph holds an import cycle.
pub open spec fn has_import_cycle(graph: ModuleDependencyGraph) -> bool {
    exists|c: Seq<Seq<char>>| #[trigger] is_import_cycle(graph, c)
}

/// `w` is a walk along imports, possibly of no step at all.
pub open spec fn is_walk(graph: ModuleDependencyGraph, w: Seq<Seq<char>>) -> bool {
    &&& w.len() >= 1
    &&& forall|i: int| 0 <= i < w.len() - 1 ==> names_contain(graph.deps(#[trigger] w[i]), w[i + 1])
}

/// Following imports from `d` leads to one of `targets`.
pub open spec fn leads_into(graph: ModuleDependencyGraph, d: Seq<char>, targets: Seq<Seq<char>>) -> bool {
    exists|w: Seq<Seq<char>>| #[trigger] is_walk(graph, w) && w[0] == d && targets.contains(w.last())
}

pub open spec fn path_views(p: Seq<String>) -> Seq<Seq<char>> {
    p.map_values(|s: String| s@)
}

/// A walk from `d`, which is not among `targets`, into `targets` goes on
/// through one of the modules that `d` imports.
proof fn lemma_step_in(graph: ModuleDependencyGraph, d: Seq<char>, targets: Seq<Seq<char>>) -> (next: Seq<char>)
    requires
        leads_into(graph, d, targets),
        !targets.contains(d),
    ensures
        names_contain(graph.deps(d), next),
        leads_into(graph, next, targets.push(d)),
{
    let w = choose|w: Seq<Seq<char>>| #[trigger] is_walk(graph, w) && w[0] == d && targets.contains(w.last());
    assert(w.len() >= 2);
    let v = w.drop_first();
    assert forall|i: int| 0 <= i < v.len() - 1 implies names_contain(graph.deps(#[trigger] v[i]), v[i + 1]) by {
        assert(v[i] == w[i + 1] && v[i + 1] == w[i + 2]);
    }
    assert(is_walk(graph, v));
    assert(names_contain(graph.deps(w[0]), w[1]));
    let k = choose|k: int| 0 <= k < targets.len() && targets[k] == w.last();
    assert(targets.push(d)[k] == v.last());
    w[1]
}

/// Nothing leads from a module without an entry to modules with one.
proof fn lemma_unknown_leads_nowhere(graph: ModuleDependencyGraph, d: Seq<char>, targets: Seq<Seq<char>>)
    requires
        !graph.has(d),
        forall|x: Seq<char>| #[trigger] targets.contains(x) ==> graph.has(x),
    ensures
        !leads_into(graph, d, targets),
{
    if leads_into(graph, d, targets) {
        let w = choose|w: Seq<Seq<char>>| #[trigger] is_walk(graph, w) && w[0] == d && targets.contains(w.last());
        if w.len() >= 2 {
            assert(names_contain(graph.deps(w[0]), w[1]));
        }
    }
}

/// An import cycle leads from the second module back to the first.
proof fn lemma_cycle_leads_back(graph: ModuleDependencyGraph, c: Seq<Seq<char>>)
    requires
        is_import_cycle(graph, c),
    ensures
        graph.has(c[0]),
        names_contain(graph.deps(c[0]), c[1]),
        leads_into(graph, c[1], seq![c[0]]),
{
    assert(names_contain(graph.deps(c[0]), c[1]));
    let v = c.drop_first();
    assert forall|i: int| 0 <= i < v.len() - 1 implies names_contain(graph.deps(#[trigger] v[i]), v[i + 1]) by {
        assert(v[i] == c[i + 1] && v[i + 1] == c[i + 2]);
    }
    assert(is_walk(graph, v));
    assert(seq![c[0]][0] == v.last());
}

/// `c` is an import cycle that meets no module twice before it closes.
pub open spec fn is_simple_cycle(graph: ModuleDependencyGraph, c: Seq<Seq<char>>) -> bool {
    &&& is_import_cycle(graph, c)
    &&& c.drop_last().no_duplicates()
}

/// `b` is the ring `a` read from position `s` on, wrapping around.
pub open spec fn ring_shift(a: Seq<Seq<char>>, b: Seq<Seq<char>>, s: int) -> bool {
    forall|i: int| 0 <= i < a.len() ==> #[trigger] b[i] == a[if s + i < a.len() { s + i } else { s + i - a.len() }]
}

/// `b` is the ring `a` read from some starting point.
pub open spec fn is_ring_rotation(a: Seq<Seq<char>>, b: Seq<Seq<char>>) -> bool {
    &&& a.len() == b.len()
    &&& exists|s: int| 0 <= s < a.len() && #[trigger] ring_shift(a, b, s)
}

/// Some ring of `reported` is `ring` read from some starting point.
pub open spec fn ring_covered(reported: Seq<Vec<String>>, ring: Seq<Seq<char>>) -> bool {
    exists|x: int| 0 <= x < reported.len() && is_ring_rotation(path_views(#[trigger] reported[x]@), ring)
}

/// `q` lists the first modules of the cycle `c`, in order.
pub open spec fn starts_ring(q: Seq<Seq<char>>, c: Seq<Seq<char>>) -> bool {
    &&& q.len() <= c.len() - 1
    &&& forall|t: int| 0 <= t < q.len() ==> #[trigger] q[t] == c[t]
}

/// The cycle that the ring `r` closes: its modules and the first again.
pub open spec fn ring_cycle(r: Seq<String>) -> Seq<Seq<char>> {
    path_views(r).push(r[0]@)
}

/// `d` is the error for the cycle `c`, read from some starting point.
pub open spec fn reports_ring_of(graph: ModuleDependencyGraph, d: Diagnostic, c: Seq<Seq<char>>) -> bool {
    exists|q: Seq<Seq<char>>| #[trigger] is_ring_rotation(q, c.drop_last()) && q.len() > 0 && is_cycle_error(graph, d, q.push(q[0]))
}

/// Some error of `r` reports the cycle `c`, read from some starting point.
pub open spec fn cycle_reported(graph: ModuleDependencyGraph, r: Seq<Diagnostic>, c: Seq<Seq<char>>) -> bool {
    exists|d: int| 0 <= d < r.len() && #[trigger] reports_ring_of(graph, r[d], c)
}

/// Every simple cycle that continues `path` with `dep` is covered by `r`.
pub open spec fn covers_through(graph: ModuleDependencyGraph, path: Seq<String>, dep: Seq<char>, r: Seq<Vec<String>>) -> bool {
    forall|c: Seq<Seq<char>>| #[trigger] is_simple_cycle(graph, c) && starts_ring(path_views(path), c) && c[path.len() as int] == dep
        ==> ring_covered(r, c.drop_last())
}

/// `r2` keeps the rings of `r1` and may add more after them.
pub open spec fn extends_rings(r1: Seq<Vec<String>>, r2: Seq<Vec<String>>) -> bool {
    &&& r1.len() <= r2.len()
    &&& forall|x: int| 0 <= x < r1.len() ==> #[trigger] r2[x] == r1[x]
}

/// When `dep` closes the path at `path[start]`, the ring found there covers
/// every simple cycle that continues `path` with `dep`.
proof fn lemma_closing_covered(graph: ModuleDependencyGraph, path: Seq<String>, start: int, dep: Seq<char>, r: Seq<Vec<String>>, k: int)
    requires
        path_ok(graph, path),
        0 <= start < path.len(),
        path[start]@ == dep,
        0 <= k < r.len(),
        is_rotation(r[k]@, path.subrange(start, path.len() as int)) || r[k]@ == path.subrange(start, path.len() as int),
    ensures
        covers_through(graph, path, dep, r),
{
    assert forall|c: Seq<Seq<char>>| #[trigger] is_simple_cycle(graph, c) && starts_ring(path_views(path), c) && c[path.len() as int] == dep
        implies ring_covered(r, c.drop_last()) by {
        let n = path.len() as int;
        let pv = path_views(path);
        let ring_c = c.drop_last();
        if n < ring_c.len() {
            assert(pv[start] == c[start]);
            assert(ring_c[start] == ring_c[n]);
        }
        assert(c[n] == c[0]);
        assert(pv[0] == c[0]);
        if start > 0 {
            assert(path[0]@ == path[start]@);
        }
        assert(path.subrange(0, n) =~= path);
        assert(path_views(path) =~= ring_c);
        if r[k]@ == path.subrange(start, n) {
            lemma_ring_rotation_self(ring_c);
            assert(is_ring_rotation(path_views(r[k]@), ring_c));
        } else {
            lemma_rotation_views(r[k]@, path.subrange(0, n));
        }
    }
}

/// A dependency that is not on the path continues a cycle only through the
/// search that starts from it.
proof fn lemma_recursion_covered(graph: ModuleDependencyGraph, path: Seq<String>, dep: Seq<char>, r: Seq<Vec<String>>)
    requires
        path.len() > 0,
        !names_contain(path, dep),
        forall|c: Seq<Seq<char>>| #[trigger] is_simple_cycle(graph, c) && starts_ring(path_views(path).push(dep), c)
            ==> ring_covered(r, c.drop_last()),
    ensures
        covers_through(graph, path, dep, r),
{
    let pv = path_views(path);
    assert forall|c: Seq<Seq<char>>| #[trigger] is_simple_cycle(graph, c) && starts_ring(pv, c) && c[path.len() as int] == dep
        implies ring_covered(r, c.drop_last()) by {
        let n = path.len() as int;
        if n == c.len() - 1 {
            assert(c[n] == c[0]);
            assert(pv[0] == c[0]);
            assert(path[0]@ == dep);
        }
        assert forall|t: int| 0 <= t < pv.push(dep).len() implies #[trigger] pv.push(dep)[t] == c[t] by {
            if t < pv.len() {
                assert(pv.push(dep)[t] == pv[t]);
            }
        }
    }
}

/// A module without an entry continues no simple cycle along the path.
proof fn lemma_unknown_continues_nothing(graph: ModuleDependencyGraph, path: Seq<String>, dep: Seq<char>, r: Seq<Vec<String>>)
    requires
        path_ok(graph, path),
        path.len() > 0,
        !graph.has(dep),
    ensures
        covers_through(graph, path, dep, r),
{
    let pv = path_views(path);
    assert forall|c: Seq<Seq<char>>| #[trigger] is_simple_cycle(graph, c) && starts_ring(pv, c) && c[path.len() as int] == dep
        implies ring_covered(r, c.drop_last()) by {
        let n = path.len() as int;
        if n < c.len() - 1 {
            lemma_cycle_step_known(graph, c, n);
        } else {
            assert(c[n] == c[0]);
            assert(pv[0] == c[0]);
            assert(graph.has(path[0]@));
        }
    }
}

/// Coverage through a dependency survives adding rings.
proof fn lemma_covers_grow(graph: ModuleDependencyGraph, path: Seq<String>, dep: Seq<char>, r1: Seq<Vec<String>>, r2: Seq<Vec<String>>)
    requires
        covers_through(graph, path, dep, r1),
        extends_rings(r1, r2),
    ensures
        covers_through(graph, path, dep, r2),
{
    assert forall|c: Seq<Seq<char>>| #[trigger] is_simple_cycle(graph, c) && starts_ring(path_views(path), c) && c[path.len() as int] == dep
        implies ring_covered(r2, c.drop_last()) by {
        lemma_covered_grows(r1, r2, c.drop_last());
    }
}

proof fn lemma_rotation_views(a: Seq<String>, b: Seq<String>)
    requires
        is_rotation(a, b),
    ensures
        is_ring_rotation(path_views(a), path_views(b)),
{
    let s = choose|s: int| 0 <= s < a.len() && #[trigger] rotated_by(a, b, s);
    assert(ring_shift(path_views(a), path_views(b), s));
}

proof fn lemma_ring_rotation_self(a: Seq<Seq<char>>)
    requires
        a.len() > 0,
    ensures
        is_ring_rotation(a, a),
{
    assert(ring_shift(a, a, 0));
}

/// Coverage survives adding rings at the end.
proof fn lemma_covered_grows(r1: Seq<Vec<String>>, r2: Seq<Vec<String>>, ring: Seq<Seq<char>>)
    requires
        ring_covered(r1, ring),
        r1.len() <= r2.len(),
        forall|x: int| 0 <= x < r1.len() ==> r2[x] == r1[x],
    ensures
        ring_covered(r2, ring),
{
    let x = choose|x: int| 0 <= x < r1.len() && is_ring_rotation(path_views(#[trigger] r1[x]@), ring);
    assert(r2[x] == r1[x]);
}

/// A module of a simple cycle, other than where it closes, has an entry.
proof fn lemma_cycle_step_known(graph: ModuleDependencyGraph, c: Seq<Seq<char>>, n: int)
    requires
        is_import_cycle(graph, c),
        0 <= n < c.len() - 1,
    ensures
        graph.has(c[n]),
        names_contain(graph.deps(c[n]), c[n + 1]),
{
    assert(names_contain(graph.deps(c[n]), c[n + 1]));
}

/// The search path: distinct modules of the graph, each importing the next.
pub open spec fn path_ok(graph: ModuleDependencyGraph, p: Seq<String>) -> bool {
    &&& forall|a: int, b: int| 0 <= a < b < p.len() ==> p[a]@ != p[b]@
    &&& forall|a: int| 0 <= a < p.len() ==> graph.has(#[trigger] p[a]@)
    &&& forall|i: int| 0 <= i < p.len() - 1 ==> names_contain(graph.deps(#[trigger] p[i]@), p[i + 1]@)
}

/// A list of distinct names drawn from `universe` is no longer than it.
proof fn lemma_distinct_bound(names: Seq<String>, universe: Seq<Seq<char>>)
    requires
        forall|a: int, b: int| 0 <= a < b < names.len() ==> names[a]@ != names[b]@,
        forall|a: int| 0 <= a < names.len() ==> universe.contains(#[trigger] names[a]@),
    ensures
        names.len() <= universe.len(),
{
    broadcast use vstd::seq_lib::seq_to_set_is_finite;
    let v = names.map_values(|x: String| x@);
    assert forall|a: int, b: int| 0 <= a < v.len() && 0 <= b < v.len() && a != b implies v[a] != v[b] by {
        if a < b {
            assert(names[a]@ != names[b]@);
        } else {
            assert(names[b]@ != names[a]@);
        }
    }
    assert(v.no_duplicates());
    v.unique_seq_to_set();
    universe.lemma_cardinality_of_set();
    assert forall|s: Seq<char>| v.to_set().contains(s) implies universe.to_set().contains(s) by {
        let k = choose|k: int| 0 <= k < v.len() && v[k] == s;
        assert(universe.contains(names[k]@));
    }
    vstd::set_lib::lemma_len_subset(v.to_set(), universe.to_set());
}

/// A search path is no longer than the graph has modules.
proof fn lemma_path_bound(graph: ModuleDependencyGraph, p: Seq<String>)
    requires
        path_ok(graph, p),
    ensures
        p.len() <= graph.entries@.len(),
{
    let universe = graph.entries@.map_values(|e: DependencyEntry| e.module@);
    assert forall|a: int| 0 <= a < p.len() implies universe.contains(#[trigger] p[a]@) by {
        assert(graph.has(p[a]@));
        let i = graph.pos(p[a]@);
        assert(universe[i] == p[a]@);
    }
    lemma_distinct_bound(p, universe);
}

/// Whether `b` is `a` rotated by some shift.
pub open spec fn is_rotation(a: Seq<String>, b: Seq<String>) -> bool {
    &&& a.len() == b.len()
    &&& exists|s: int| 0 <= s < a.len() && #[trigger] rotated_by(a, b, s)
}

pub open spec fn rotated_by(a: Seq<String>, b: Seq<String>, s: int) -> bool {
    forall|i: int| 0 <= i < a.len() ==> (#[trigger] b[i])@ == a[if s + i < a.len() { s + i } else { s + i - a.len() }]@
}

/// Each ring of `reported` meets no module twice, and no two rings of it
/// are the same ring read from different starting points.
pub open spec fn rings_distinct(reported: Seq<Vec<String>>) -> bool {
    &&& forall|y: int| 0 <= y < reported.len() ==> path_views(#[trigger] reported[y]@).no_duplicates()
    &&& forall|x: int, y: int| 0 <= x < y < reported.len() ==> !is_rotation(#[trigger] reported[x]@, #[trigger] reported[y]@)
}

/// `rings[k]` is the ring that error `k` of `r` reports: every ring is a
/// simple cycle of imports, and no two errors report the same ring, read
/// from any starting point.
pub open spec fn ring_errors(graph: ModuleDependencyGraph, r: Seq<Diagnostic>, rings: Seq<Seq<Seq<char>>>) -> bool {
    &&& rings.len() == r.len()
    &&& forall|k: int| 0 <= k < r.len() ==> (#[trigger] rings[k]).len() > 0 && rings[k].no_duplicates() && is_cycle_error(
        graph,
        r[k],
        rings[k].push(rings[k][0]),
    )
    &&& forall|x: int, y: int| 0 <= x < r.len() && 0 <= y < r.len() && x != y ==> !is_ring_rotation(
        #[trigger] rings[x],
        #[trigger] rings[y],
    )
}

/// Each error of `r` reports a different simple import cycle, up to the
/// module it is read from.
pub open spec fn reported_once(graph: ModuleDependencyGraph, r: Seq<Diagnostic>) -> bool {
    exists|rings: Seq<Seq<Seq<char>>>| #[trigger] ring_errors(graph, r, rings)
}

/// A rotation of the names is a rotation of the rings they write.
proof fn lemma_views_rotation(a: Seq<String>, b: Seq<String>)
    requires
        is_ring_rotation(path_views(a), path_views(b)),
    ensures
        is_rotation(a, b),
{
    let s = choose|s: int| 0 <= s < path_views(a).len() && #[trigger] ring_shift(path_views(a), path_views(b), s);
    assert forall|i: int| 0 <= i < a.len() implies (#[trigger] b[i])@ == a[if s + i < a.len() { s + i } else { s + i - a.len() }]@ by {
        assert(path_views(b)[i] == b[i]@);
        let j = if s + i < a.len() { s + i } else { s + i - a.len() };
        assert(path_views(a)[j] == a[j]@);
    }
    assert(rotated_by(a, b, s));
}

/// Reading a ring from another starting point can be undone.
proof fn lemma_ring_rotation_symmetric(a: Seq<Seq<char>>, b: Seq<Seq<char>>)
    requires
        is_ring_rotation(a, b),
    ensures
        is_ring_rotation(b, a),
{
    let n = a.len();
    let s = choose|s: int| 0 <= s < n && #[trigger] ring_shift(a, b, s);
    let t = if s == 0 { 0 } else { n - s };
    assert forall|i: int| 0 <= i < b.len() implies #[trigger] a[i] == b[if t + i < b.len() { t + i } else { t + i - b.len() }] by {
        let j = if t + i < n { t + i } else { t + i - n };
        assert(b[j] == a[if s + j < n { s + j } else { s + j - n }]);
    }
    assert(ring_shift(b, a, t));
}

/// Whether `b` is `a` read from some starting point, wrapping around.
fn same_ring(a: &Vec<String>, b: &Vec<String>) -> (r: bool)
    ensures
        r == is_rotation(a@, b@),
{
    let n = a.len();
    if n != b.len() {
        return false;
    }
    let mut s: usize = 0;
    while s < n
        invariant
            n == a@.len(),
            n == b@.len(),
            s <= n,
            forall|t: int| 0 <= t < s ==> !#[trigger] rotated_by(a@, b@, t),
        decreases n - s,
    {
        let mut i: usize = 0;
        let mut ok = true;
        while i < n
            invariant
                n == a@.len(),
                n == b@.len(),
                s < n,
                i <= n,
                ok ==> forall|k: int| 0 <= k < i ==> (#[trigger] b@[k])@ == a@[if s + k < n { s + k } else { s + k - n }]@,
                !ok ==> !rotated_by(a@, b@, s as int),
            decreases n - i,
        {
            let j: usize = if i < n - s { s + i } else { i - (n - s) };
            if !str_eq(a[j].as_str(), b[i].as_str()) {
                assert(b@[i as int]@ != a@[if s + i < n { s + i } else { s + i - n }]@);
                ok = false;
            }
            i = i + 1;
        }
        if ok {
            assert(rotated_by(a@, b@, s as int));
            return true;
        }
        s = s + 1;
    }
    false
}

/// The modules `path[start..]` followed by `last`, joined by ` -> `.
fn join_cycle(path: &Vec<String>, start: usize, last: &str) -> (r: String)
    requires
        start < path@.len(),
    ensures
        r@ == join_arrows(path@.subrange(start as int, path@.len() as int).map_values(|x: String| x@).push(last@)),
{
    let mut out = path[start].clone();
    let n: usize = path.len();
    let mut i: usize = start + 1;
    proof {
        let q = path@.subrange(start as int, i as int).map_values(|x: String| x@);
        assert(q.len() == 1 && q[0] == path@[start as int]@);
    }
    while i < path.len()
        invariant
            start < i <= path@.len(),
            out@ == join_arrows(path@.subrange(start as int, i as int).map_values(|x: String| x@)),
        decreases path.len() - i,
    {
        proof {
            let q0 = path@.subrange(start as int, i as int).map_values(|x: String| x@);
            let q1 = path@.subrange(start as int, i + 1).map_values(|x: String| x@);
            assert(q1.drop_last() =~= q0);
            assert(q1.last() == path@[i as int]@);
        }
        out.append(" -> ");
        out.append(path[i].as_str());
        i = i + 1;
    }
    proof {
        let q0 = path@.subrange(start as int, path@.len() as int).map_values(|x: String| x@);
        assert(q0.push(last@).drop_last() =~= q0);
    }
    out.append(" -> ");
    out.append(last);
    out
}

/// Where `name` first stands in `path`, if anywhere.
fn position_in_path(path: &Vec<String>, name: &str) -> (r: Option<usize>)
    ensures
        r matches Some(p) ==> p < path@.len() && path@[p as int]@ == name@,
        r is None ==> !names_contain(path@, name@),
{
    let mut i: usize = 0;
    while i < path.len()
        invariant
            i <= path@.len(),
            forall|k: int| 0 <= k < i ==> (#[trigger] path@[k])@ != name@,
        decreases path.len() - i,
    {
        if str_eq(path[i].as_str(), name) {
            return Some(i);
        }
        i = i + 1;
    }
    None
}

/// The modules `path[start..]`, copied.
fn ring_from(path: &Vec<String>, start: usize) -> (r: Vec<String>)
    requires
        start <= path@.len(),
    ensures
        r@ == path@.subrange(start as int, path@.len() as int),
{
    let mut out: Vec<String> = Vec::new();
    let mut i: usize = start;
    while i < path.len()
        invariant
            start <= i <= path@.len(),
            out@ == path@.subrange(start as int, i as int),
        decreases path.len() - i,
    {
        out.push(path[i].clone());
        assert(out@ =~= path@.subrange(start as int, i + 1));
        i = i + 1;
    }
    out
}

/// Whether `ring` is a rotation of one of `reported`.
fn ring_reported(reported: &Vec<Vec<String>>, ring: &Vec<String>) -> (r: bool)
    ensures
        r == exists|k: int| 0 <= k < reported@.len() && is_rotation(#[trigger] reported@[k]@, ring@),
{
    let mut k: usize = 0;
    while k < reported.len()
        invariant
            k <= reported@.len(),
            forall|x: int| 0 <= x < k ==> !is_rotation(#[trigger] reported@[x]@, ring@),
        decreases reported.len() - k,
    {
        if same_ring(&reported[k], ring) {
            return true;
        }
        k = k + 1;
    }
    false
}

pub open spec fn rings_views(r: Seq<Vec<String>>) -> Seq<Seq<Seq<char>>> {
    r.map_values(|x: Vec<String>| path_views(x@))
}

/// The position of the first `d` in `p`.
pub open spec fn index_in(p: Seq<Seq<char>>, d: Seq<char>) -> int
    decreases p.len(),
{
    if p.len() == 0 || p[0] == d {
        0
    } else {
        1 + index_in(p.drop_first(), d)
    }
}

/// Some ring of `found` is `ring` read from some starting point.
pub open spec fn ring_among(found: Seq<Seq<Seq<char>>>, ring: Seq<Seq<char>>) -> bool {
    exists|k: int| 0 <= k < found.len() && is_ring_rotation(#[trigger] found[k], ring)
}

/// The rings `found`, followed by the new rings that the search finds from
/// module `m`, reached along `path`: it follows the imports of `m` in order;
/// an import of a module without an entry is skipped; an import of a module
/// on the path closes the ring from that module to `m`, which is kept
/// unless a ring already found is the same ring read from another module;
/// any other import is searched in turn.
pub open spec fn search(g: ModuleDependencyGraph, path: Seq<Seq<char>>, m: Seq<char>, found: Seq<Seq<Seq<char>>>) -> Seq<Seq<Seq<char>>>
    decreases g.entries@.len() - path.len(), 1int, 0int,
{
    if path.len() >= g.entries@.len() || !g.has(m) {
        found
    } else {
        search_deps(g, path.push(m), m, 0, found)
    }
}

/// The search of the imports of `m` from number `x` on, with `p` the path
/// that ends at `m`.
pub open spec fn search_deps(g: ModuleDependencyGraph, p: Seq<Seq<char>>, m: Seq<char>, x: int, found: Seq<Seq<Seq<char>>>) -> Seq<
    Seq<Seq<char>>,
>
    decreases g.entries@.len() - p.len() + 1, 0int, g.deps(m).len() - x,
{
    if x < 0 || x >= g.deps(m).len() || p.len() > g.entries@.len() {
        found
    } else {
        let dep = g.deps(m)[x]@;
        let next = if !g.has(dep) {
            found
        } else if p.contains(dep) {
            let ring = p.subrange(index_in(p, dep), p.len() as int);
            if ring_among(found, ring) {
                found
            } else {
                found.push(ring)
            }
        } else {
            search(g, p, dep, found)
        };
        search_deps(g, p, m, x + 1, next)
    }
}

/// The rings `found`, followed by those that the searches from the modules
/// of the entries from number `i` on find, in order.
pub open spec fn search_from(g: ModuleDependencyGraph, i: int, found: Seq<Seq<Seq<char>>>) -> Seq<Seq<Seq<char>>>
    decreases g.entries@.len() - i,
{
    if i < 0 || i >= g.entries@.len() {
        found
    } else {
        search_from(g, i + 1, search(g, Seq::empty(), g.entries@[i].module@, found))
    }
}

/// `r` holds one error for each ring that the searches from every module,
/// in the order of the entries, find, at the import that closes it; `p`
/// takes each error to its ring, and errors that neither is reported before
/// the other keep the order in which their rings were found.
pub open spec fn errors_of_search(g: ModuleDependencyGraph, r: Seq<Diagnostic>, p: Seq<int>) -> bool {
    let f = search_from(g, 0, Seq::empty());
    &&& p.len() == r.len()
    &&& r.len() == f.len()
    &&& forall|k: int| 0 <= k < p.len() ==> 0 <= #[trigger] p[k] < f.len() && is_cycle_error(g, r[k], f[p[k]].push(f[p[k]][0]))
    &&& forall|a: int, b: int| 0 <= a < p.len() && 0 <= b < p.len() && a != b ==> #[trigger] p[a] != #[trigger] p[b]
    &&& forall|a: int, b: int| 0 <= a < b < p.len() && !diagnostic_less(#[trigger] r[a], #[trigger] r[b]) ==> p[a] < p[b]
}

/// Among distinct names, `index_in` finds the one position of `d`.
proof fn lemma_index_in(p: Seq<Seq<char>>, d: Seq<char>, k: int)
    requires
        0 <= k < p.len(),
        p[k] == d,
        forall|a: int, b: int| 0 <= a < b < p.len() ==> p[a] != p[b],
    ensures
        index_in(p, d) == k,
    decreases k,
{
    if k > 0 {
        assert(p[0] != p[k]);
        let q = p.drop_first();
        assert forall|a: int, b: int| 0 <= a < b < q.len() implies q[a] != q[b] by {
            assert(q[a] == p[a + 1] && q[b] == p[b + 1]);
        }
        lemma_index_in(q, d, k - 1);
    }
}

/// A ring of names is among the reported rings exactly when a rotation of
/// it is.
proof fn lemma_ring_among(reported: Seq<Vec<String>>, ring: Seq<String>)
    ensures
        ring_among(rings_views(reported), path_views(ring)) == exists|k: int| 0 <= k < reported.len() && is_rotation(#[trigger] reported[k]@, ring),
{
    let rv = rings_views(reported);
    if ring_among(rv, path_views(ring)) {
        let k = choose|k: int| 0 <= k < rv.len() && is_ring_rotation(#[trigger] rv[k], path_views(ring));
        assert(rv[k] == path_views(reported[k]@));
        lemma_views_rotation(reported[k]@, ring);
    }
    if exists|k: int| 0 <= k < reported.len() && is_rotation(#[trigger] reported[k]@, ring) {
        let k = choose|k: int| 0 <= k < reported.len() && is_rotation(#[trigger] reported[k]@, ring);
        lemma_rotation_views(reported[k]@, ring);
        assert(rv[k] == path_views(reported[k]@));
    }
}

/// The cycle error found when `path` (ending at module `idx`) meets the
/// dependency number `x` of that module again at `path[start]`.
proof fn lemma_cycle_found(graph: ModuleDependencyGraph, path: Seq<String>, idx: int, x: int, start: int)
    requires
        graph.wf(),
        0 <= idx < graph.entries@.len(),
        path_ok(graph, path),
        path.len() > 0,
        path.last()@ == graph.entries@[idx].module@,
        0 <= x < graph.entries@[idx].dependencies@.len(),
        0 <= start < path.len(),
        path[start]@ == graph.entries@[idx].dependencies@[x]@,
    ensures
        is_import_cycle(graph, path.subrange(start, path.len() as int).map_values(|s: String| s@).push(graph.entries@[idx].dependencies@[x]@)),
        edge_span(graph, graph.entries@[idx].module@, graph.entries@[idx].dependencies@[x]@) == graph.entries@[idx].spans@[x],
{
    let e = graph.entries@[idx];
    let d = e.dependencies@[x]@;
    graph.lemma_pos(e.module@, idx);
    let c = path.subrange(start, path.len() as int).map_values(|s: String| s@).push(d);
    assert(graph.deps(e.module@) == e.dependencies@);
    assert(names_contain(e.dependencies@, d));
    assert forall|i: int| 0 <= i < c.len() - 1 implies names_contain(graph.deps(#[trigger] c[i]), c[i + 1]) by {
        if i < c.len() - 2 {
            assert(c[i] == path[start + i]@);
            assert(c[i + 1] == path[start + i + 1]@);
            assert(names_contain(graph.deps(path[start + i]@), path[start + i + 1]@));
        } else {
            assert(c[i] == path[path.len() - 1]@);
        }
    }
    assert(c[0] == path[start]@);
    lemma_sorted_choose(e.dependencies@, e.spans@);
    assert(e.dependencies@[x]@ == d);
}

/// Walks every import path from module `idx` that does not repeat a module,
/// reporting each cycle it closes, once up to rotation.
#[verifier::rlimit(100)]
fn collect_cycles_from_module(
    graph: &ModuleDependencyGraph,
    idx: usize,
    path: &mut Vec<String>,
    reported: &mut Vec<Vec<String>>,
    diagnostics: &mut Vec<Diagnostic>,
)
    requires
        graph.wf(),
        idx < graph.entries@.len(),
        path_ok(*graph, old(path)@),
        !names_contain(old(path)@, graph.entries@[idx as int].module@),
        old(path)@.len() > 0 ==> names_contain(graph.deps(old(path)@.last()@), graph.entries@[idx as int].module@),
        forall|k: int| 0 <= k < old(diagnostics)@.len() ==> reports_cycle(*graph, #[trigger] old(diagnostics)@[k]),
        old(reported)@.len() == old(diagnostics)@.len(),
        rings_distinct(old(reported)@),
        forall|x: int| 0 <= x < old(reported)@.len() ==> (#[trigger] old(reported)@[x])@.len() > 0 && is_cycle_error(
            *graph,
            old(diagnostics)@[x],
            ring_cycle(old(reported)@[x]@),
        ),
    ensures
        final(path)@ == old(path)@,
        rings_distinct(final(reported)@),
        rings_views(final(reported)@) == search(
            *graph,
            path_views(old(path)@),
            graph.entries@[idx as int].module@,
            rings_views(old(reported)@),
        ),
        forall|x: int| 0 <= x < final(reported)@.len() ==> (#[trigger] final(reported)@[x])@.len() > 0 && is_cycle_error(
            *graph,
            final(diagnostics)@[x],
            ring_cycle(final(reported)@[x]@),
        ),
        forall|x: int| 0 <= x < old(reported)@.len() ==> #[trigger] final(reported)@[x] == old(reported)@[x],
        forall|c: Seq<Seq<char>>| #[trigger] is_simple_cycle(*graph, c) && starts_ring(
            path_views(old(path)@).push(graph.entries@[idx as int].module@),
            c,
        ) ==> ring_covered(final(reported)@, c.drop_last()),
        forall|k: int| 0 <= k < final(diagnostics)@.len() ==> reports_cycle(*graph, #[trigger] final(diagnostics)@[k]),
        final(reported)@.len() == final(diagnostics)@.len(),
        final(reported)@.len() >= old(reported)@.len(),
        forall|d: Seq<char>| #[trigger] names_contain(graph.deps(graph.entries@[idx as int].module@), d) && leads_into(
            *graph,
            d,
            path_views(old(path)@).push(graph.entries@[idx as int].module@),
        ) ==> final(reported)@.len() > 0,
    decreases graph.entries@.len() - old(path)@.len(),
{
    let ghost p0 = path@;
    let ghost r0 = reported@.len();
    let ghost rs0 = reported@;
    let entry = &graph.entries[idx];
    path.push(entry.module.clone());
    proof {
        let p1 = path@;
        graph.lemma_pos(entry.module@, idx as int);
        assert forall|a: int, b: int| 0 <= a < b < p1.len() implies p1[a]@ != p1[b]@ by {
            if b == p1.len() - 1 {
                assert(p1[a] == p0[a]);
                if p1[a]@ == p1[b]@ {
                    assert(names_contain(p0, entry.module@));
                }
            } else {
                assert(p1[a] == p0[a] && p1[b] == p0[b]);
            }
        }
        assert forall|a: int| 0 <= a < p1.len() implies graph.has(#[trigger] p1[a]@) by {
            if a < p0.len() {
                assert(p1[a] == p0[a]);
            }
        }
        assert forall|i: int| 0 <= i < p1.len() - 1 implies names_contain(graph.deps(#[trigger] p1[i]@), p1[i + 1]@) by {
            assert(p1[i] == p0[i]);
            if i + 1 < p0.len() {
                assert(p1[i + 1] == p0[i + 1]);
            }
        }
        lemma_path_bound(*graph, p1);
        assert(path_views(path@) =~= path_views(p0).push(entry.module@));
        assert(search(*graph, path_views(p0), entry.module@, rings_views(rs0)) == search_deps(
            *graph,
            path_views(path@),
            entry.module@,
            0,
            rings_views(rs0),
        ));
    }
    let mut x: usize = 0;
    while x < entry.dependencies.len()
        invariant
            search(*graph, path_views(p0), entry.module@, rings_views(rs0)) == search_deps(
                *graph,
                path_views(path@),
                entry.module@,
                x as int,
                rings_views(reported@),
            ),
            graph.wf(),
            idx < graph.entries@.len(),
            *entry == graph.entries@[idx as int],
            entry_wf(*entry),
            path@ == p0.push(entry.module),
            p0 == old(path)@,
            path_ok(*graph, path@),
            path@.len() <= graph.entries@.len(),
            x <= entry.dependencies@.len(),
            forall|k: int| 0 <= k < diagnostics@.len() ==> reports_cycle(*graph, #[trigger] diagnostics@[k]),
            reported@.len() == diagnostics@.len(),
            reported@.len() >= r0,
            forall|k: int| 0 <= k < x && leads_into(*graph, (#[trigger] entry.dependencies@[k])@, path_views(path@)) ==> reported@.len() > 0,
            rs0.len() == r0,
            rings_distinct(reported@),
            forall|y: int| 0 <= y < rs0.len() ==> #[trigger] reported@[y] == rs0[y],
            forall|y: int| 0 <= y < reported@.len() ==> (#[trigger] reported@[y])@.len() > 0 && is_cycle_error(
                *graph,
                diagnostics@[y],
                ring_cycle(reported@[y]@),
            ),
            forall|k: int| 0 <= k < x ==> covers_through(*graph, path@, (#[trigger] entry.dependencies@[k])@, reported@),
        decreases entry.dependencies.len() - x,
    {
        let ghost pv = path_views(path@);
        let ghost rx = reported@;
        let dep = &entry.dependencies[x];
        proof {
            graph.lemma_pos(entry.module@, idx as int);
            assert(graph.deps(entry.module@) == entry.dependencies@);
            assert(graph.deps(entry.module@)[x as int]@ == dep@);
            assert forall|a: int, b: int| 0 <= a < b < pv.len() implies pv[a] != pv[b] by {
                assert(pv[a] == path@[a]@ && pv[b] == path@[b]@);
            }
        }
        let (known, dep_idx) = graph.find(dep.as_str());
        if known {
            match position_in_path(path, dep.as_str()) {
                Some(start) => {
                    let ring = ring_from(path, start);
                    proof {
                        assert(pv[start as int] == dep@);
                        lemma_index_in(pv, dep@, start as int);
                        assert(pv.subrange(start as int, pv.len() as int) =~= path_views(ring@));
                        lemma_ring_among(rx, ring@);
                    }
                    if !ring_reported(reported, &ring) {
                        let text = join_cycle(path, start, dep.as_str());
                        let message = concat2("Cyclic module import detected: ", text.as_str());
                        let d = Diagnostic::error(entry.spans[x].duplicate(), message);
                        proof {
                            lemma_cycle_found(*graph, path@, idx as int, x as int, start as int);
                            let c = path@.subrange(start as int, path@.len() as int).map_values(|s: String| s@).push(dep@);
                            assert(c[c.len() - 2] == path@[path@.len() - 1]@);
                            assert(is_cycle_error(*graph, d, c));
                        }
                        let ghost ring_seq = ring@;
                        let ghost dprev = diagnostics@;
                        let ghost rprev = reported@;
                        diagnostics.push(d);
                        reported.push(ring);
                        proof {
                            assert(ring_seq.len() > 0);
                            assert forall|a: int, b: int| 0 <= a < path_views(ring_seq).len() && 0 <= b < path_views(ring_seq).len() && a != b
                                implies path_views(ring_seq)[a] != path_views(ring_seq)[b] by {
                                assert(path_views(ring_seq)[a] == path@[start + a]@);
                                assert(path_views(ring_seq)[b] == path@[start + b]@);
                                if a < b {
                                    assert(path@[start + a]@ != path@[start + b]@);
                                } else {
                                    assert(path@[start + b]@ != path@[start + a]@);
                                }
                            }
                            assert(path_views(ring_seq).no_duplicates());
                            assert forall|y: int| 0 <= y < reported@.len() implies path_views(#[trigger] reported@[y]@).no_duplicates() by {
                                if y < rprev.len() {
                                    assert(reported@[y] == rprev[y]);
                                }
                            }
                            assert forall|a: int, b: int| 0 <= a < b < reported@.len() implies !is_rotation(#[trigger] reported@[a]@, #[trigger] reported@[b]@) by {
                                assert(reported@[a] == rprev[a]);
                                if b < rprev.len() {
                                    assert(reported@[b] == rprev[b]);
                                } else {
                                    assert(!is_rotation(rprev[a]@, ring_seq));
                                }
                            }
                            assert(rings_views(reported@) =~= rings_views(rprev).push(path_views(ring_seq)));
                            assert(ring_cycle(ring_seq) =~= path@.subrange(start as int, path@.len() as int).map_values(|s: String| s@).push(dep@));
                            assert forall|y: int| 0 <= y < reported@.len() implies (#[trigger] reported@[y])@.len() > 0 && is_cycle_error(
                                *graph,
                                diagnostics@[y],
                                ring_cycle(reported@[y]@),
                            ) by {
                                if y < rprev.len() {
                                    assert(reported@[y] == rprev[y]);
                                    assert(diagnostics@[y] == dprev[y]);
                                }
                            }
                        }
                    }
                    assert(reported@.len() > 0);
                    proof {
                        let rr = path@.subrange(start as int, path@.len() as int);
                        if rx.len() < reported@.len() {
                            lemma_closing_covered(*graph, path@, start as int, dep@, reported@, reported@.len() - 1);
                        } else {
                            let k = choose|k: int| 0 <= k < reported@.len() && is_rotation(#[trigger] reported@[k]@, rr);
                            lemma_closing_covered(*graph, path@, start as int, dep@, reported@, k);
                        }
                    }
                },
                None => {
                    proof {
                        graph.lemma_pos(entry.module@, idx as int);
                        assert(names_contain(graph.deps(path@.last()@), dep@)) by {
                            assert(entry.dependencies@[x as int] == *dep);
                        }
                    }
                    assert(0 <= graph.entries@.len() - path@.len() < graph.entries@.len() - p0.len());
                    collect_cycles_from_module(graph, dep_idx, path, reported, diagnostics);
                    proof {
                        assert(path_views(path@).push(graph.entries@[dep_idx as int].module@) == path_views(path@).push(dep@));
                        lemma_recursion_covered(*graph, path@, dep@, reported@);
                        if leads_into(*graph, dep@, pv) {
                            assert(!pv.contains(dep@)) by {
                                if pv.contains(dep@) {
                                    let k = choose|k: int| 0 <= k < pv.len() && pv[k] == dep@;
                                    assert(path@[k]@ == dep@);
                                }
                            }
                            let next = lemma_step_in(*graph, dep@, pv);
                            assert(names_contain(graph.deps(graph.entries@[dep_idx as int].module@), next));
                        }
                    }
                },
            }
        } else {
            proof {
                assert forall|y: Seq<char>| #[trigger] pv.contains(y) implies graph.has(y) by {
                    let k = choose|k: int| 0 <= k < pv.len() && pv[k] == y;
                    assert(graph.has(path@[k]@));
                }
                lemma_unknown_leads_nowhere(*graph, dep@, pv);
                lemma_unknown_continues_nothing(*graph, path@, dep@, reported@);
            }
        }
        proof {
            assert(extends_rings(rx, reported@));
            assert forall|k: int| 0 <= k < x + 1 implies covers_through(*graph, path@, (#[trigger] entry.dependencies@[k])@, reported@) by {
                if k < x {
                    lemma_covers_grow(*graph, path@, entry.dependencies@[k]@, rx, reported@);
                }
            }
            assert forall|y: int| 0 <= y < rs0.len() implies #[trigger] reported@[y] == rs0[y] by {
                assert(reported@[y] == rx[y]);
            }
        }
        x = x + 1;
    }
    proof {
        graph.lemma_pos(entry.module@, idx as int);
        assert(path_views(path@) =~= path_views(p0).push(entry.module@));
        assert forall|d: Seq<char>| #[trigger] names_contain(graph.deps(entry.module@), d) && leads_into(
            *graph,
            d,
            path_views(p0).push(entry.module@),
        ) implies reported@.len() > 0 by {
            let k = choose|k: int| 0 <= k < entry.dependencies@.len() && (#[trigger] entry.dependencies@[k])@ == d;
        }
        assert forall|c: Seq<Seq<char>>| #[trigger] is_simple_cycle(*graph, c) && starts_ring(path_views(p0).push(entry.module@), c)
            implies ring_covered(reported@, c.drop_last()) by {
            let n = path@.len() as int;
            assert(path_views(path@)[n - 1] == c[n - 1]);
            assert(names_contain(graph.deps(c[n - 1]), c[n]));
            assert(graph.deps(entry.module@) == entry.dependencies@);
            let k = choose|k: int| 0 <= k < entry.dependencies@.len() && (#[trigger] entry.dependencies@[k])@ == c[n];
            assert(covers_through(*graph, path@, entry.dependencies@[k]@, reported@));
        }
    }
    path.pop();
    assert(path@ =~= p0);
}

/// An error for each import cycle, at the import that closes it, sorted.
/// The cycles are those that a search from each module, in name order,
/// finds along its imports (`search_from`): each is simple, and a cycle
/// that is the same ring as one found before, read from another module, is
/// not reported again. Only imports of modules that exist take part.
pub fn module_dependency_diagnostics(graph: &ModuleDependencyGraph) -> (r: Vec<Diagnostic>)
    requires
        graph.wf(),
    ensures
        diagnostics_sorted(r@),
        forall|k: int| 0 <= k < r@.len() ==> reports_cycle(*graph, #[trigger] r@[k]),
        r@.len() > 0 <==> has_import_cycle(*graph),
        forall|c: Seq<Seq<char>>| #[trigger] is_simple_cycle(*graph, c) ==> cycle_reported(*graph, r@, c),
        reported_once(*graph, r@),
        exists|p: Seq<int>| #[trigger] errors_of_search(*graph, r@, p),
{
    let mut diagnostics: Vec<Diagnostic> = Vec::new();
    let mut reported: Vec<Vec<String>> = Vec::new();
    let mut path: Vec<String> = Vec::new();
    let mut idx: usize = 0;
    assert(rings_views(reported@) =~= Seq::<Seq<Seq<char>>>::empty());
    while idx < graph.entries.len()
        invariant
            search_from(*graph, 0, Seq::empty()) == search_from(*graph, idx as int, rings_views(reported@)),
            graph.wf(),
            path@.len() == 0,
            idx <= graph.entries@.len(),
            forall|k: int| 0 <= k < diagnostics@.len() ==> reports_cycle(*graph, #[trigger] diagnostics@[k]),
            reported@.len() == diagnostics@.len(),
            rings_distinct(reported@),
            forall|j: int, d: Seq<char>| 0 <= j < idx && #[trigger] names_contain(graph.deps(graph.entries@[j].module@), d)
                && leads_into(*graph, d, seq![graph.entries@[j].module@]) ==> reported@.len() > 0,
            forall|y: int| 0 <= y < reported@.len() ==> (#[trigger] reported@[y])@.len() > 0 && is_cycle_error(
                *graph,
                diagnostics@[y],
                ring_cycle(reported@[y]@),
            ),
            forall|j: int, c: Seq<Seq<char>>| 0 <= j < idx && #[trigger] is_simple_cycle(*graph, c) && c[0] == (#[trigger] graph.entries@[j]).module@
                ==> ring_covered(reported@, c.drop_last()),
        decreases graph.entries.len() - idx,
    {
        let ghost p_before = path@;
        let ghost r_before = reported@;
        collect_cycles_from_module(graph, idx, &mut path, &mut reported, &mut diagnostics);
        proof {
            assert(path_views(p_before) =~= Seq::<Seq<char>>::empty());
            let m = graph.entries@[idx as int].module@;
            assert(path_views(p_before).push(m) =~= seq![m]);
            assert forall|j: int, d: Seq<char>| 0 <= j < idx + 1 && #[trigger] names_contain(graph.deps(graph.entries@[j].module@), d)
                && leads_into(*graph, d, seq![graph.entries@[j].module@]) implies reported@.len() > 0 by {
                if j == idx {
                    assert(names_contain(graph.deps(m), d) && leads_into(*graph, d, path_views(p_before).push(m)));
                }
            }
            assert forall|j: int, c: Seq<Seq<char>>| 0 <= j < idx + 1 && #[trigger] is_simple_cycle(*graph, c) && c[0] == (#[trigger] graph.entries@[j]).module@
                implies ring_covered(reported@, c.drop_last()) by {
                if j < idx {
                    lemma_covered_grows(r_before, reported@, c.drop_last());
                } else {
                    assert(starts_ring(path_views(p_before).push(m), c));
                }
            }
        }
        idx = idx + 1;
    }
    proof {
        if has_import_cycle(*graph) {
            let c = choose|c: Seq<Seq<char>>| #[trigger] is_import_cycle(*graph, c);
            lemma_cycle_leads_back(*graph, c);
            let j = choose|j: int| 0 <= j < graph.entries@.len() && (#[trigger] graph.entries@[j]).module@ == c[0];
            assert(names_contain(graph.deps(graph.entries@[j].module@), c[1]));
            assert(diagnostics@.len() > 0);
        }
        if diagnostics@.len() > 0 {
            assert(reports_cycle(*graph, diagnostics@[0]));
        }
        assert forall|c: Seq<Seq<char>>| #[trigger] is_simple_cycle(*graph, c) implies cycle_reported(*graph, diagnostics@, c) by {
            lemma_cycle_leads_back(*graph, c);
            let j = choose|j: int| 0 <= j < graph.entries@.len() && (#[trigger] graph.entries@[j]).module@ == c[0];
            assert(ring_covered(reported@, c.drop_last()));
            let x = choose|x: int| 0 <= x < reported@.len() && is_ring_rotation(path_views(#[trigger] reported@[x]@), c.drop_last());
            let q = path_views(reported@[x]@);
            assert(ring_cycle(reported@[x]@) == q.push(q[0]));
            assert(is_cycle_error(*graph, diagnostics@[x], q.push(q[0])));
            assert(reports_ring_of(*graph, diagnostics@[x], c));
        }
    }
    let ghost rings0 = reported@.map_values(|x: Vec<String>| path_views(x@));
    proof {
        assert forall|k: int| 0 <= k < diagnostics@.len() implies (#[trigger] rings0[k]).len() > 0 && rings0[k].no_duplicates()
            && is_cycle_error(*graph, diagnostics@[k], rings0[k].push(rings0[k][0])) by {
            assert(rings0[k] == path_views(reported@[k]@));
            assert(ring_cycle(reported@[k]@) == rings0[k].push(rings0[k][0]));
        }
        assert forall|x: int, y: int| 0 <= x < diagnostics@.len() && 0 <= y < diagnostics@.len() && x != y
            implies !is_ring_rotation(#[trigger] rings0[x], #[trigger] rings0[y]) by {
            if is_ring_rotation(rings0[x], rings0[y]) {
                if x < y {
                    lemma_views_rotation(reported@[x]@, reported@[y]@);
                } else {
                    lemma_ring_rotation_symmetric(rings0[x], rings0[y]);
                    lemma_views_rotation(reported@[y]@, reported@[x]@);
                }
            }
        }
        assert(ring_errors(*graph, diagnostics@, rings0));
    }
    let ghost unsorted = diagnostics@;
    sort_diagnostics(&mut diagnostics);
    proof {
        let p = choose|p: Seq<int>| #[trigger] sorted_from(unsorted, diagnostics@, p);
        let rings1 = Seq::new(diagnostics@.len(), |k: int| rings0[p[k]]);
        assert forall|k: int| 0 <= k < diagnostics@.len() implies (#[trigger] rings1[k]).len() > 0 && rings1[k].no_duplicates()
            && is_cycle_error(*graph, diagnostics@[k], rings1[k].push(rings1[k][0])) by {
            assert(0 <= p[k] < unsorted.len() && diagnostics@[k] == unsorted[p[k]]);
        }
        assert forall|x: int, y: int| 0 <= x < diagnostics@.len() && 0 <= y < diagnostics@.len() && x != y
            implies !is_ring_rotation(#[trigger] rings1[x], #[trigger] rings1[y]) by {
            assert(p[x] != p[y]);
            assert(0 <= p[x] < unsorted.len() && 0 <= p[y] < unsorted.len());
        }
        assert(ring_errors(*graph, diagnostics@, rings1));
        assert(search_from(*graph, 0, Seq::empty()) == rings0);
        assert forall|k: int| 0 <= k < p.len() implies 0 <= #[trigger] p[k] < rings0.len() && is_cycle_error(
            *graph,
            diagnostics@[k],
            rings0[p[k]].push(rings0[p[k]][0]),
        ) by {
            assert(0 <= p[k] < unsorted.len() && diagnostics@[k] == unsorted[p[k]]);
        }
        assert(errors_of_search(*graph, diagnostics@, p));
        lemma_same_elements(diagnostics@, unsorted);
        assert forall|k: int| 0 <= k < diagnostics@.len() implies reports_cycle(*graph, #[trigger] diagnostics@[k]) by {
            assert(diagnostics@.contains(diagnostics@[k]));
            let j = choose|j: int| 0 <= j < unsorted.len() && unsorted[j] == diagnostics@[k];
            assert(reports_cycle(*graph, unsorted[j]));
        }
        assert forall|c: Seq<Seq<char>>| #[trigger] is_simple_cycle(*graph, c) implies cycle_reported(*graph, diagnostics@, c) by {
            assert(cycle_reported(*graph, unsorted, c));
            let d = choose|d: int| 0 <= d < unsorted.len() && #[trigger] reports_ring_of(*graph, unsorted[d], c);
            assert(unsorted.contains(unsorted[d]));
            assert(diagnostics@.contains(unsorted[d]));
            let y = choose|y: int| 0 <= y < diagnostics@.len() && diagnostics@[y] == unsorted[d];
            assert(reports_ring_of(*graph, diagnostics@[y], c));
        }
    }
    diagnostics
}

/// `graph` is the dependency graph of `modules`: one sorted entry per
/// module name, listing what the last module of that name imports.
pub open spec fn is_graph_of(graph: ModuleDependencyGraph, modules: Seq<Module>) -> bool {
    &&& graph.wf()
    &&& forall|m: Seq<char>| #[trigger] graph.has(m) <==> declares_module(modules, m)
    &&& forall|i: int| 0 <= i < modules.len() && #[trigger] is_last_of_name(modules, i) ==> entry_matches(
        graph.entries@[graph.pos(modules[i].name@)],
        modules[i].imports@,
    )
}

pub type EntryView = (Seq<char>, Seq<Seq<char>>, Seq<SourceSpan>);

pub open spec fn entry_view(e: DependencyEntry) -> EntryView {
    (e.module@, e.dependencies@.map_values(|d: String| d@), e.spans@)
}

/// What a graph holds, as plain values.
pub open spec fn graph_view(g: ModuleDependencyGraph) -> Seq<EntryView> {
    g.entries@.map_values(|e: DependencyEntry| entry_view(e))
}

pub open spec fn names_distinct(modules: Seq<Module>) -> bool {
    forall|i: int, j: int| 0 <= i < j < modules.len() ==> modules[i].name@ != modules[j].name@
}

pub open spec fn sorted_names(a: Seq<Seq<char>>) -> bool {
    forall|x: int, y: int| 0 <= x < y < a.len() ==> seq_char_less(a[x], a[y])
}

/// Two strictly sorted lists of names with the same members are equal.
pub proof fn lemma_sorted_same_members(a: Seq<Seq<char>>, b: Seq<Seq<char>>)
    requires
        sorted_names(a),
        sorted_names(b),
        forall|s: Seq<char>| a.contains(s) <==> b.contains(s),
    ensures
        a == b,
    decreases a.len(),
{
    if a.len() == 0 {
        if b.len() > 0 {
            assert(b.contains(b[0]));
        }
        assert(a =~= b);
    } else {
        assert(a.contains(a[0]));
        assert(b.len() > 0);
        assert(b.contains(b[0]));
        lemma_char_order_total(a[0], b[0]);
        lemma_seq_char_less_irreflexive(a[0]);
        lemma_seq_char_less_irreflexive(b[0]);
        if seq_char_less(a[0], b[0]) {
            let k = choose|k: int| 0 <= k < b.len() && b[k] == a[0];
            if k > 0 {
                lemma_seq_char_less_transitive(b[0], b[k], b[0]);
            }
        }
        if seq_char_less(b[0], a[0]) {
            let k = choose|k: int| 0 <= k < a.len() && a[k] == b[0];
            if k > 0 {
                lemma_seq_char_less_transitive(a[0], a[k], a[0]);
            }
        }
        assert(a[0] == b[0]);
        let ra = a.drop_first();
        let rb = b.drop_first();
        assert forall|s: Seq<char>| ra.contains(s) <==> rb.contains(s) by {
            if ra.contains(s) {
                let k = choose|k: int| 0 <= k < ra.len() && ra[k] == s;
                assert(a[k + 1] == s);
                assert(seq_char_less(a[0], a[k + 1]));
                assert(b.contains(s));
                let j = choose|j: int| 0 <= j < b.len() && b[j] == s;
                if j == 0 {
                    assert(seq_char_less(s, s));
                }
                assert(rb[j - 1] == s);
            }
            if rb.contains(s) {
                let k = choose|k: int| 0 <= k < rb.len() && rb[k] == s;
                assert(b[k + 1] == s);
                assert(seq_char_less(b[0], b[k + 1]));
                assert(a.contains(s));
                let j = choose|j: int| 0 <= j < a.len() && a[j] == s;
                if j == 0 {
                    assert(seq_char_less(s, s));
                }
                assert(ra[j - 1] == s);
            }
        }
        assert(sorted_names(ra)) by {
            assert forall|x: int, y: int| 0 <= x < y < ra.len() implies seq_char_less(ra[x], ra[y]) by {
                assert(ra[x] == a[x + 1] && ra[y] == a[y + 1]);
            }
        }
        assert(sorted_names(rb)) by {
            assert forall|x: int, y: int| 0 <= x < y < rb.len() implies seq_char_less(rb[x], rb[y]) by {
                assert(rb[x] == b[x + 1] && rb[y] == b[y + 1]);
            }
        }
        lemma_sorted_same_members(ra, rb);
        assert(a =~= seq![a[0]] + ra);
        assert(b =~= seq![b[0]] + rb);
    }
}

/// Two entries that list exactly the modules some imports come from are
/// the same as plain values.
proof fn lemma_entries_agree(e1: DependencyEntry, e2: DependencyEntry, imports: Seq<Import>)
    requires
        entry_matches(e1, imports),
        entry_matches(e2, imports),
        e1.module@ == e2.module@,
    ensures
        entry_view(e1) == entry_view(e2),
{
    let d1 = e1.dependencies@.map_values(|d: String| d@);
    let d2 = e2.dependencies@.map_values(|d: String| d@);
    assert(sorted_names(d1)) by {
        assert forall|x: int, y: int| 0 <= x < y < d1.len() implies seq_char_less(d1[x], d1[y]) by {
            assert(d1[x] == e1.dependencies@[x]@ && d1[y] == e1.dependencies@[y]@);
        }
    }
    assert(sorted_names(d2)) by {
        assert forall|x: int, y: int| 0 <= x < y < d2.len() implies seq_char_less(d2[x], d2[y]) by {
            assert(d2[x] == e2.dependencies@[x]@ && d2[y] == e2.dependencies@[y]@);
        }
    }
    assert forall|s: Seq<char>| d1.contains(s) <==> d2.contains(s) by {
        if d1.contains(s) {
            let k = choose|k: int| 0 <= k < d1.len() && d1[k] == s;
            assert(names_contain(e1.dependencies@, s)) by { assert(e1.dependencies@[k]@ == s); }
            assert(imports_from_module(imports, s));
            assert(names_contain(e2.dependencies@, s));
            let j = choose|j: int| 0 <= j < e2.dependencies@.len() && (#[trigger] e2.dependencies@[j])@ == s;
            assert(d2[j] == s);
        }
        if d2.contains(s) {
            let k = choose|k: int| 0 <= k < d2.len() && d2[k] == s;
            assert(names_contain(e2.dependencies@, s)) by { assert(e2.dependencies@[k]@ == s); }
            assert(imports_from_module(imports, s));
            assert(names_contain(e1.dependencies@, s));
            let j = choose|j: int| 0 <= j < e1.dependencies@.len() && (#[trigger] e1.dependencies@[j])@ == s;
            assert(d1[j] == s);
        }
    }
    lemma_sorted_same_members(d1, d2);
    assert(e1.spans@ =~= e2.spans@) by {
        assert forall|x: int| 0 <= x < e1.spans@.len() implies e1.spans@[x] == e2.spans@[x] by {
            assert(d1[x] == d2[x]);
            assert(e1.dependencies@[x]@ == e2.dependencies@[x]@);
        }
    }
}

/// The dependency graph does not depend on the order of the modules: two
/// stories with the same modules in another order, each name used once,
/// have graphs that hold the same entries.
pub proof fn law_dependency_graph_order_independent(m1: Seq<Module>, m2: Seq<Module>, g1: ModuleDependencyGraph, g2: ModuleDependencyGraph)
    requires
        m1.to_multiset() == m2.to_multiset(),
        names_distinct(m1),
        names_distinct(m2),
        is_graph_of(g1, m1),
        is_graph_of(g2, m2),
    ensures
        graph_view(g1) == graph_view(g2),
{
    assert forall|x: Module| #[trigger] m1.contains(x) <==> m2.contains(x) by {
        vstd::seq_lib::to_multiset_contains(m1, x);
        vstd::seq_lib::to_multiset_contains(m2, x);
    }
    let k1 = g1.entries@.map_values(|e: DependencyEntry| e.module@);
    let k2 = g2.entries@.map_values(|e: DependencyEntry| e.module@);
    assert forall|s: Seq<char>| k1.contains(s) <==> k2.contains(s) by {
        if k1.contains(s) {
            let k = choose|k: int| 0 <= k < k1.len() && k1[k] == s;
            assert(g1.has(s)) by { assert(g1.entries@[k].module@ == s); }
            assert(declares_module(m1, s));
            let i = choose|i: int| 0 <= i < m1.len() && (#[trigger] m1[i]).name@ == s;
            assert(m1.contains(m1[i]));
            let j = choose|j: int| 0 <= j < m2.len() && m2[j] == m1[i];
            assert(m2[j].name@ == s);
            assert(declares_module(m2, s));
            assert(g2.has(s));
            let q = choose|q: int| 0 <= q < g2.entries@.len() && (#[trigger] g2.entries@[q]).module@ == s;
            assert(k2[q] == s);
        }
        if k2.contains(s) {
            let k = choose|k: int| 0 <= k < k2.len() && k2[k] == s;
            assert(g2.has(s)) by { assert(g2.entries@[k].module@ == s); }
            assert(declares_module(m2, s));
            let i = choose|i: int| 0 <= i < m2.len() && (#[trigger] m2[i]).name@ == s;
            assert(m2.contains(m2[i]));
            assert(m1.contains(m2[i]));
            let j = choose|j: int| 0 <= j < m1.len() && m1[j] == m2[i];
            assert(m1[j].name@ == s);
            assert(declares_module(m1, s));
            assert(g1.has(s));
            let q = choose|q: int| 0 <= q < g1.entries@.len() && (#[trigger] g1.entries@[q]).module@ == s;
            assert(k1[q] == s);
        }
    }
    assert(sorted_names(k1)) by {
        assert forall|x: int, y: int| 0 <= x < y < k1.len() implies seq_char_less(k1[x], k1[y]) by {
            assert(k1[x] == g1.entries@[x].module@ && k1[y] == g1.entries@[y].module@);
        }
    }
    assert(sorted_names(k2)) by {
        assert forall|x: int, y: int| 0 <= x < y < k2.len() implies seq_char_less(k2[x], k2[y]) by {
            assert(k2[x] == g2.entries@[x].module@ && k2[y] == g2.entries@[y].module@);
        }
    }
    lemma_sorted_same_members(k1, k2);
    let v1 = graph_view(g1);
    let v2 = graph_view(g2);
    assert(v1.len() == v2.len());
    assert forall|k: int| 0 <= k < v1.len() implies v1[k] == v2[k] by {
        let s = g1.entries@[k].module@;
        assert(k1[k] == s && k2[k] == s);
        assert(g2.entries@[k].module@ == s);
        assert(g1.has(s));
        assert(declares_module(m1, s));
        let i = choose|i: int| 0 <= i < m1.len() && (#[trigger] m1[i]).name@ == s;
        assert(is_last_of_name(m1, i)) by {
            assert forall|q: int| i < q < m1.len() implies (#[trigger] m1[q]).name@ != m1[i].name@ by {}
        }
        assert(m1.contains(m1[i]));
        let j = choose|j: int| 0 <= j < m2.len() && m2[j] == m1[i];
        assert(is_last_of_name(m2, j)) by {
            assert forall|q: int| j < q < m2.len() implies (#[trigger] m2[q]).name@ != m2[j].name@ by {}
        }
        g1.lemma_pos(s, k);
        g2.lemma_pos(s, k);
        assert(entry_matches(g1.entries@[k], m1[i].imports@));
        assert(entry_matches(g2.entries@[k], m2[j].imports@));
        lemma_entries_agree(g1.entries@[k], g2.entries@[k], m1[i].imports@);
    }
    assert(v1 =~= v2);
}

} // verus!
