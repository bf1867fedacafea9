//! The checks that run on a parsed story before it is compiled further.
pub mod access;
pub mod assignments;
pub mod choice_replay;
pub mod constants;
pub mod flow;
pub mod inference;
pub mod initializers;
pub mod literals;
pub mod messages;
pub mod modules;
pub mod names;
pub mod sites;
pub mod span;
pub mod structs;
pub mod targets;
pub mod type_index;
pub mod types;

use vstd::prelude::*;

use crate::analysis::access::{access_diagnostics_with_index, access_sites};
use crate::analysis::assignments::{assignment_checks, assignment_diagnostics_with_index};
use crate::analysis::choice_replay::{choice_replay_diagnostics, replay_checks};
use crate::analysis::constants::{constant_checks, constant_redefinition_diagnostics};
use crate::analysis::flow::{flow_diagnostics_with_index, flow_story_checks};
use crate::analysis::initializers::{initializer_checks, initializer_diagnostics_with_index};
use crate::analysis::literals::{literal_checks, literal_diagnostics_with_index, LiteralMode};
use crate::analysis::modules::dependencies::ModuleDependencyGraph;
use crate::analysis::modules::entry_point::ModuleEntryPoint;
use crate::analysis::modules::imports::ModuleImportIndex;
use crate::analysis::modules::reachability::ModuleReachability;
use crate::analysis::modules::symbols::ModuleSymbolIndex;
use crate::analysis::modules::{is_analysis_of, module_diagnostics, module_report, ModuleAnalysis};
use crate::analysis::names::{naming_checks, naming_diagnostics};
use crate::analysis::sites::{story_flows, story_sites};
use crate::analysis::structs::{
    build_type_index, enum_type_diagnostics, is_index_of, struct_checks, struct_type_diagnostics,
};
use crate::analysis::targets::{call_target_diagnostics_with_index, target_checks};
use crate::analysis::type_index::sites_enum_diags;
use crate::analysis::types::TypeIndex;
use crate::compiler::StageOutput;
use crate::diagnostic::{append_diagnostics, diag_views, DiagView, Diagnostic};
use crate::parsed::Story;

verus! {

/// A story that went through analysis, with what the module passes learnt.
pub struct CheckedStory {
    pub parsed: Story,
    pub entry_point: Option<ModuleEntryPoint>,
    pub module_symbols: ModuleSymbolIndex,
    pub module_dependencies: ModuleDependencyGraph,
    pub module_imports: ModuleImportIndex,
    pub module_reachability: ModuleReachability,
}

/// The diagnostics of the passes that look at the story as a whole, in
/// order: constants, struct and enum declarations, names, control flow,
/// replay-safe choices, call targets, initializers, assignments, struct,
/// array and `Dict` literals, field reads and element reads.
pub open spec fn story_checks(story: Story, idx: TypeIndex) -> Seq<DiagView> {
    let sites = story_sites(story);
    constant_checks(sites) + struct_checks(sites) + sites_enum_diags(sites) + naming_checks(story) + flow_story_checks(idx, story)
        + replay_checks(sites) + target_checks(idx, story_flows(story), sites) + initializer_checks(sites, idx)
        + assignment_checks(sites, idx) + literal_checks(idx, LiteralMode::Structs, sites) + literal_checks(
        idx,
        LiteralMode::Arrays,
        sites,
    ) + literal_checks(idx, LiteralMode::Dicts, sites) + access_sites(sites, true, idx) + access_sites(sites, false, idx)
}

/// `r` is every analysis diagnostic of `story`: those of the story passes,
/// read against its type index, then the module report.
pub open spec fn passes_report(story: Story, modules: ModuleAnalysis, r: Seq<DiagView>) -> bool {
    exists|idx: TypeIndex, mods: Seq<Diagnostic>|
        #![trigger is_index_of(idx, story), module_report(story, modules, mods)]
        is_index_of(idx, story) && module_report(story, modules, mods) && r == story_checks(story, idx) + diag_views(mods)
}

/// Every analysis diagnostic of `story`, pass by pass: constants, struct
/// and enum declarations, names, control flow, replay-safe choices, call
/// targets, initializers, assignments, struct, array and Dict literals,
/// field and element reads, then the module passes.
pub fn run_passes_with_modules(story: &Story, modules: &ModuleAnalysis) -> (r: Vec<Diagnostic>)
    requires
        modules.wf(),
    ensures
        passes_report(*story, *modules, diag_views(r@)),
{
    let idx = build_type_index(story);
    let mut out = constant_redefinition_diagnostics(story);
    append_diagnostics(&mut out, struct_type_diagnostics(story));
    append_diagnostics(&mut out, enum_type_diagnostics(story));
    append_diagnostics(&mut out, naming_diagnostics(story));
    append_diagnostics(&mut out, flow_diagnostics_with_index(story, &idx));
    append_diagnostics(&mut out, choice_replay_diagnostics(story));
    append_diagnostics(&mut out, call_target_diagnostics_with_index(story, &idx));
    append_diagnostics(&mut out, initializer_diagnostics_with_index(story, &idx));
    append_diagnostics(&mut out, assignment_diagnostics_with_index(story, &idx));
    append_diagnostics(&mut out, literal_diagnostics_with_index(story, &idx, LiteralMode::Structs));
    append_diagnostics(&mut out, literal_diagnostics_with_index(story, &idx, LiteralMode::Arrays));
    append_diagnostics(&mut out, literal_diagnostics_with_index(story, &idx, LiteralMode::Dicts));
    append_diagnostics(&mut out, access_diagnostics_with_index(story, true, &idx));
    append_diagnostics(&mut out, access_diagnostics_with_index(story, false, &idx));
    let ghost story_part = out@;
    let mods = module_diagnostics(story, modules);
    let ghost mods_view = mods@;
    append_diagnostics(&mut out, mods);
    proof {
        assert(diag_views(story_part) =~= story_checks(*story, idx));
        assert(is_index_of(idx, *story));
        assert(module_report(*story, *modules, mods_view));
    }
    out
}

/// Every analysis diagnostic of `story`.
pub fn run_analysis_passes(story: &Story) -> (r: Vec<Diagnostic>)
    ensures
        exists|a: ModuleAnalysis| #[trigger] is_analysis_of(a, *story) && passes_report(*story, a, diag_views(r@)),
{
    let modules = ModuleAnalysis::build(story);
    run_passes_with_modules(story, &modules)
}

/// Runs the analysis passes on `parsed`. The checked story is always
/// produced; errors among the diagnostics mark it as unusable.
pub fn analyze(parsed: Story) -> (r: StageOutput<CheckedStory>)
    ensures
        r.artifact is Some,
        exists|a: ModuleAnalysis| #[trigger] is_analysis_of(a, parsed) && passes_report(parsed, a, diag_views(r.diagnostics@)) && ({
            let c = r.artifact->0;
            &&& c.parsed == parsed
            &&& c.entry_point == a.entry_points.entry_point
            &&& c.module_symbols == a.symbols
            &&& c.module_dependencies == a.dependencies
            &&& c.module_imports == a.imports
            &&& c.module_reachability == a.reachability
        }),
{
    let modules = ModuleAnalysis::build(&parsed);
    let diagnostics = run_passes_with_modules(&parsed, &modules);
    let ModuleAnalysis { entry_points, symbols, dependencies, imports, reachability } = modules;
    let checked = CheckedStory {
        parsed,
        entry_point: entry_points.into_entry_point(),
        module_symbols: symbols,
        module_dependencies: dependencies,
        module_imports: imports,
        module_reachability: reachability,
    };
    StageOutput { artifact: Some(checked), diagnostics }
}

} // verus!
