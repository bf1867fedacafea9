//! Explicit modules: their symbols, imports, dependency graph, entry point
//! and reachability, and the diagnostics about them.
pub mod dependencies;
pub mod entry_point;
pub mod import_checks;
pub mod imports;
pub mod reachability;
pub mod symbols;
pub mod uses;

use vstd::prelude::*;

use crate::analysis::modules::dependencies::{
    build_module_dependency_graph, cycle_reported, has_import_cycle, is_graph_of, is_simple_cycle,
    module_dependency_diagnostics, names_contain, errors_of_search, reported_once,
    reports_cycle, ModuleDependencyGraph,
};
use crate::analysis::modules::entry_point::{
    build_module_entry_point_analysis, mixed_root_module_diagnostics,
    module_entry_point_diagnostics, story_mains, ModuleEntryPoint, ModuleEntryPointAnalysis,
};
use crate::analysis::modules::import_checks::{module_import_diagnostics, story_import_diags};
use crate::analysis::modules::imports::{
    build_module_import_index, story_allows, story_imports_names_from, ModuleImportIndex,
};
use crate::analysis::modules::reachability::{
    build_module_reachability, count_unreachable, reaches, unreachable_module_diagnostics,
    warns_every_unreached, warns_only_unreached, warnings_in_order, ModuleReachability,
};
use crate::analysis::modules::symbols::{
    build_module_symbol_index, collisions_reported, declares_module, duplicates_reported,
    is_namespace_diagnostic, module_symbol_diagnostics, namespace_views, select_named, story_declarations,
    ModuleSymbolIndex,
};
use crate::analysis::span::object_span_spec;
use crate::diagnostic::{diag_views, diagnostics_sorted, sorted_from, Diagnostic};
use crate::parsed::Story;

verus! {

/// Everything the module passes learn about a story.
pub struct ModuleAnalysis {
    pub entry_points: ModuleEntryPointAnalysis,
    pub symbols: ModuleSymbolIndex,
    pub dependencies: ModuleDependencyGraph,
    pub imports: ModuleImportIndex,
    pub reachability: ModuleReachability,
}

impl ModuleAnalysis {
    pub open spec fn wf(&self) -> bool {
        &&& self.symbols.wf()
        &&& self.dependencies.wf()
        &&& self.imports.wf()
        &&& self.reachability.wf()
    }

    /// Builds the entry point, symbol index, dependency graph, import index
    /// and reachability of `story`.
    pub fn build(story: &Story) -> (r: Self)
        ensures
            is_analysis_of(r, *story),
    {
        let entry_points = build_module_entry_point_analysis(story);
        let symbols = build_module_symbol_index(story);
        let dependencies = build_module_dependency_graph(story);
        let imports = build_module_import_index(story);
        let reachability = build_module_reachability(story, &dependencies, entry_points.entry_point());
        ModuleAnalysis { entry_points, symbols, dependencies, imports, reachability }
    }
}

/// `a` holds what the module passes learn of `story`: its `main` knots and
/// entry point, symbols, dependency graph, imports, and the modules reached
/// from the entry point.
pub open spec fn is_analysis_of(a: ModuleAnalysis, story: Story) -> bool {
    let modules = story.modules@;
    &&& a.wf()
    &&& a.entry_points.mains_view() == story_mains(modules)
    &&& (a.entry_points.entry_point is Some <==> story_mains(modules).len() == 1)
    &&& (a.entry_points.entry_point matches Some(e) ==> e.module@ == story_mains(modules)[0].0 && e.knot@ == "main"@)
    &&& forall|m: Seq<char>| #[trigger] a.symbols.has_module(m) <==> declares_module(modules, m)
    &&& forall|m: Seq<char>, n: Seq<char>| #[trigger] a.symbols.named(m, n) == select_named(story_declarations(modules), m, n)
    &&& is_graph_of(a.dependencies, modules)
    &&& forall|m: Seq<char>| #[trigger] a.imports.has_module(m) <==> declares_module(modules, m)
    &&& forall|m: Seq<char>, src: Seq<char>, n: Seq<char>| #[trigger] a.imports.allowed(m, src, n) <==> story_allows(modules, m, src, n)
    &&& forall|m: Seq<char>, src: Seq<char>| #[trigger] a.imports.has_source(m, src) <==> story_imports_names_from(modules, m, src)
    &&& (a.entry_points.entry_point is None ==> a.reachability.entry_module is None && a.reachability.reachable@.len() == 0)
    &&& (a.entry_points.entry_point matches Some(e) ==> a.reachability.entry_module == Some(e.module) && forall|m: Seq<char>|
        #[trigger] names_contain(a.reachability.reachable@, m) <==> reaches(a.dependencies, modules, e.module@, m))
}

pub open spec fn mixed_root_message() -> Seq<char> {
    "Explicit module compilation cannot be mixed with root story content or top-level flows"@
}

/// `r` is the report on root content beside explicit modules.
pub open spec fn mixed_root_report(story: Story, r: Seq<Diagnostic>) -> bool {
    &&& story.modules@.len() == 0 || (story.root_weave.content@.len() == 0 && story.flows@.len() == 0) ==> r.len() == 0
    &&& story.modules@.len() > 0 && story.root_weave.content@.len() > 0 ==> r.len() == 1 && r[0].is_error()
        && r[0].span_view() == object_span_spec(story.root_weave.content@[0]) && r[0].message@ == mixed_root_message()
    &&& story.modules@.len() > 0 && story.root_weave.content@.len() == 0 && story.flows@.len() > 0 ==> r.len() == 1
        && r[0].is_error() && r[0].span_view() == story.flows@[0].span && r[0].message@ == mixed_root_message()
}

/// `r` is the report on the `main` knots of explicit modules.
pub open spec fn entry_report(story: Story, a: ModuleEntryPointAnalysis, r: Seq<Diagnostic>) -> bool {
    &&& story.modules@.len() == 0 ==> r.len() == 0
    &&& story.modules@.len() > 0 && a.main_knots@.len() == 0 ==> r.len() == 1
        && r[0].message@ == "Explicit module compilation requires exactly one module to define a knot named 'main'"@
        && r[0].is_error() && r[0].span_view() == story.modules@[0].span
    &&& story.modules@.len() > 0 && a.main_knots@.len() > 0 ==> r.len() == a.main_knots@.len() - 1 && forall|k: int|
        0 <= k < r.len() ==> (#[trigger] r[k]).is_error() && r[k].message@
            == "Multiple 'main' knots are declared; runnable entry point must be unique"@ && r[k].span_view()
            == a.main_knots@[k + 1].span
}

/// `r` is the report on module namespaces: the errors for repeated modules
/// and for reused names, sorted.
pub open spec fn symbols_report(story: Story, index: ModuleSymbolIndex, r: Seq<Diagnostic>) -> bool {
    &&& diagnostics_sorted(r)
    &&& forall|d: int| 0 <= d < r.len() ==> is_namespace_diagnostic(#[trigger] r[d], story, index)
    &&& duplicates_reported(story.modules@, story.modules@.len() as int, r)
    &&& collisions_reported(index, r)
    &&& exists|u: Seq<Diagnostic>| #[trigger] diag_views(u) == namespace_views(story, index) && r.to_multiset() == u.to_multiset()
    &&& exists|u: Seq<Diagnostic>, p: Seq<int>| #[trigger] sorted_from(u, r, p) && diag_views(u) == namespace_views(story, index)
}

/// `r` is the report on imports: the import errors of each module, sorted.
pub open spec fn imports_report(story: Story, symbols: ModuleSymbolIndex, imports: ModuleImportIndex, r: Seq<Diagnostic>) -> bool {
    &&& diagnostics_sorted(r)
    &&& exists|u: Seq<Diagnostic>| #[trigger] diag_views(u) == story_import_diags(story.modules@, symbols, imports, story.modules@.len() as int)
        && r.to_multiset() == u.to_multiset()
    &&& exists|u: Seq<Diagnostic>, p: Seq<int>| #[trigger] sorted_from(u, r, p) && diag_views(u) == story_import_diags(
        story.modules@,
        symbols,
        imports,
        story.modules@.len() as int,
    )
}

/// `r` is the report on import cycles: sorted, each a cycle of the graph,
/// every cycle that meets no module twice among them, and empty only when
/// the graph has no cycle.
pub open spec fn cycles_report(graph: ModuleDependencyGraph, r: Seq<Diagnostic>) -> bool {
    &&& diagnostics_sorted(r)
    &&& forall|k: int| 0 <= k < r.len() ==> reports_cycle(graph, #[trigger] r[k])
    &&& forall|c: Seq<Seq<char>>| #[trigger] is_simple_cycle(graph, c) ==> cycle_reported(graph, r, c)
    &&& (r.len() > 0 <==> has_import_cycle(graph))
    &&& reported_once(graph, r)
    &&& exists|p: Seq<int>| #[trigger] errors_of_search(graph, r, p)
}

/// `r` is the report on modules the entry point does not reach: one sorted
/// warning for each of them.
pub open spec fn unreachable_report(story: Story, reach: ModuleReachability, r: Seq<Diagnostic>) -> bool {
    &&& reach.entry_module is None ==> r.len() == 0
    &&& reach.entry_module matches Some(e) ==> {
        &&& diagnostics_sorted(r)
        &&& r.len() == count_unreachable(story.modules@, reach.reachable@)
        &&& warns_only_unreached(r, story.modules@, reach.reachable@, e@)
        &&& warns_every_unreached(r, story.modules@, reach.reachable@, e@)
        &&& exists|u: Seq<Diagnostic>, p: Seq<int>| #[trigger] sorted_from(u, r, p) && warnings_in_order(u, story.modules@, reach.reachable@, e@)
    }
}

pub type ModuleReportParts = (Seq<Diagnostic>, Seq<Diagnostic>, Seq<Diagnostic>, Seq<Diagnostic>, Seq<Diagnostic>, Seq<Diagnostic>);

/// The six parts of the module report, each what its pass reports.
pub open spec fn module_parts(story: Story, a: ModuleAnalysis, p: ModuleReportParts) -> bool {
    &&& mixed_root_report(story, p.0)
    &&& entry_report(story, a.entry_points, p.1)
    &&& symbols_report(story, a.symbols, p.2)
    &&& imports_report(story, a.symbols, a.imports, p.3)
    &&& cycles_report(a.dependencies, p.4)
    &&& unreachable_report(story, a.reachability, p.5)
}

/// `r` is the module report of `story`: root content, entry point,
/// symbols, imports, import cycles and unreachable modules, in that order.
pub open spec fn module_report(story: Story, a: ModuleAnalysis, r: Seq<Diagnostic>) -> bool {
    exists|p: ModuleReportParts| #[trigger] module_parts(story, a, p) && r == p.0 + p.1 + p.2 + p.3 + p.4 + p.5
}

/// All module diagnostics of `story`: mixed root content, the entry
/// point, symbols, imports, import cycles and unreachable modules.
pub fn module_diagnostics(story: &Story, analysis: &ModuleAnalysis) -> (r: Vec<Diagnostic>)
    requires
        analysis.wf(),
    ensures
        module_report(*story, *analysis, r@),
{
    let mut out = mixed_root_module_diagnostics(story);
    let ghost p0 = out@;
    let mut more = module_entry_point_diagnostics(story, &analysis.entry_points);
    let ghost p1 = more@;
    out.append(&mut more);
    let mut more = module_symbol_diagnostics(story, &analysis.symbols);
    let ghost p2 = more@;
    out.append(&mut more);
    let mut more = module_import_diagnostics(story, &analysis.symbols, &analysis.imports);
    let ghost p3 = more@;
    out.append(&mut more);
    let mut more = module_dependency_diagnostics(&analysis.dependencies);
    let ghost p4 = more@;
    out.append(&mut more);
    let mut more = unreachable_module_diagnostics(story, &analysis.reachability);
    let ghost p5 = more@;
    out.append(&mut more);
    proof {
        let p = (p0, p1, p2, p3, p4, p5);
        assert(module_parts(*story, *analysis, p));
        assert(out@ =~= p.0 + p.1 + p.2 + p.3 + p.4 + p.5);
    }
    out
}

} // verus!
