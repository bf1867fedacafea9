//! The runnable entry point of an explicit module compilation: the unique
//! knot named `main`.
use vstd::prelude::*;

use crate::analysis::span::{object_span, object_span_spec};
use crate::diagnostic::Diagnostic;
use crate::parsed::{Flow, Module, Story};
use crate::source::SourceSpan;
use crate::text::{concat3, owned, str_eq};

verus! {

/// `module::knot`, the knot a story starts at.
#[derive(Debug, PartialEq, Eq)]
pub struct ModuleEntryPoint {
    pub module: String,
    pub knot: String,
}

impl ModuleEntryPoint {
    pub fn new(module: String, knot: &str) -> (r: Self)
        ensures
            r.module == module,
            r.knot@ == knot@,
    {
        ModuleEntryPoint { module, knot: owned(knot) }
    }

    /// `module::knot`.
    pub fn qualified_name(&self) -> (r: String)
        ensures
            r@ == self.module@ + "::"@ + self.knot@,
    {
        concat3(self.module.as_str(), "::", self.knot.as_str())
    }
}

/// A knot named `main` and the module that declares it.
#[derive(Debug, PartialEq, Eq)]
pub struct ModuleMainKnot {
    pub module: String,
    pub span: SourceSpan,
}

/// Whether `flow` is a knot (not a function) named `main`.
pub open spec fn is_main_knot(flow: Flow) -> bool {
    !flow.is_function && flow.name@ == "main"@
}

pub open spec fn main_view(module: Module, flow: Flow) -> (Seq<char>, SourceSpan) {
    (module.name@, flow.span)
}

/// The `main` knots among `flows` of `module`, in order.
pub open spec fn module_mains(module: Module, flows: Seq<Flow>) -> Seq<(Seq<char>, SourceSpan)>
    decreases flows.len(),
{
    if flows.len() == 0 {
        Seq::empty()
    } else {
        let earlier = module_mains(module, flows.drop_last());
        if is_main_knot(flows.last()) {
            earlier.push(main_view(module, flows.last()))
        } else {
            earlier
        }
    }
}

/// The `main` knots of all modules, in story order.
pub open spec fn story_mains(modules: Seq<Module>) -> Seq<(Seq<char>, SourceSpan)>
    decreases modules.len(),
{
    if modules.len() == 0 {
        Seq::empty()
    } else {
        story_mains(modules.drop_last()) + module_mains(modules.last(), modules.last().flows@)
    }
}

/// The `main` knots of the story and, when there is exactly one, the entry
/// point it defines.
#[derive(Debug, PartialEq, Eq)]
pub struct ModuleEntryPointAnalysis {
    pub main_knots: Vec<ModuleMainKnot>,
    pub entry_point: Option<ModuleEntryPoint>,
}

impl ModuleEntryPointAnalysis {
    pub open spec fn mains_view(&self) -> Seq<(Seq<char>, SourceSpan)> {
        self.main_knots@.map_values(|k: ModuleMainKnot| (k.module@, k.span))
    }

    pub fn entry_point(&self) -> (r: Option<&ModuleEntryPoint>)
        ensures
            r matches Some(e) ==> self.entry_point == Some(*e),
            r is None ==> self.entry_point is None,
    {
        self.entry_point.as_ref()
    }

    pub fn into_entry_point(self) -> (r: Option<ModuleEntryPoint>)
        ensures
            r == self.entry_point,
    {
        self.entry_point
    }
}

/// Finds the `main` knots; the entry point is `module::main` exactly when
/// one module declares a knot named `main` and no other knot has that name.
pub fn build_module_entry_point_analysis(story: &Story) -> (r: ModuleEntryPointAnalysis)
    ensures
        r.mains_view() == story_mains(story.modules@),
        r.entry_point is Some <==> story_mains(story.modules@).len() == 1,
        r.entry_point matches Some(e) ==> e.module@ == story_mains(story.modules@)[0].0 && e.knot@
            == "main"@,
{
    let mut main_knots: Vec<ModuleMainKnot> = Vec::new();
    let mut i: usize = 0;
    while i < story.modules.len()
        invariant
            i <= story.modules@.len(),
            main_knots@.map_values(|k: ModuleMainKnot| (k.module@, k.span)) =~= story_mains(story.modules@.take(i as int)),
        decreases story.modules.len() - i,
    {
        let module = &story.modules[i];
        let ghost before = main_knots@.map_values(|k: ModuleMainKnot| (k.module@, k.span));
        let mut j: usize = 0;
        while j < module.flows.len()
            invariant
                i < story.modules@.len(),
                *module == story.modules@[i as int],
                j <= module.flows@.len(),
                main_knots@.map_values(|k: ModuleMainKnot| (k.module@, k.span)) =~= before + module_mains(*module, module.flows@.take(j as int)),
            decreases module.flows.len() - j,
        {
            let flow = &module.flows[j];
            assert(module.flows@.take(j + 1).drop_last() =~= module.flows@.take(j as int));
            let ghost prev = main_knots@;
            if !flow.is_function && str_eq(flow.name.as_str(), "main") {
                main_knots.push(ModuleMainKnot { module: module.name.clone(), span: flow.span.duplicate() });
                assert(main_knots@.map_values(|k: ModuleMainKnot| (k.module@, k.span)) =~= prev.map_values(|k: ModuleMainKnot| (k.module@, k.span)).push(main_view(*module, *flow)));
            }
            j = j + 1;
        }
        assert(module.flows@.take(module.flows@.len() as int) =~= module.flows@);
        assert(story.modules@.take(i + 1).drop_last() =~= story.modules@.take(i as int));
        i = i + 1;
    }
    assert(story.modules@.take(story.modules@.len() as int) =~= story.modules@);
    let entry_point = if main_knots.len() == 1 {
        assert(main_knots@.map_values(|k: ModuleMainKnot| (k.module@, k.span))[0] == (main_knots@[0].module@, main_knots@[0].span));
        Some(ModuleEntryPoint::new(main_knots[0].module.clone(), "main"))
    } else {
        None
    };
    ModuleEntryPointAnalysis { main_knots, entry_point }
}

/// Explicit module compilation needs exactly one `main` knot: with none,
/// one error at the first module; with several, one error at each `main`
/// after the first. A story without modules gets no diagnostics.
pub fn module_entry_point_diagnostics(story: &Story, analysis: &ModuleEntryPointAnalysis) -> (r: Vec<Diagnostic>)
    ensures
        story.modules@.len() == 0 ==> r@.len() == 0,
        story.modules@.len() > 0 && analysis.main_knots@.len() == 0 ==> r@.len() == 1
            && r@[0].message@ == "Explicit module compilation requires exactly one module to define a knot named 'main'"@
            && r@[0].is_error() && r@[0].span_view() == story.modules@[0].span,
        story.modules@.len() > 0 && analysis.main_knots@.len() > 0 ==> r@.len() == analysis.main_knots@.len() - 1
            && forall|k: int| 0 <= k < r@.len() ==> (#[trigger] r@[k]).is_error()
                && r@[k].message@ == "Multiple 'main' knots are declared; runnable entry point must be unique"@
                && r@[k].span_view() == analysis.main_knots@[k + 1].span,
{
    let mut out: Vec<Diagnostic> = Vec::new();
    if story.modules.len() == 0 {
        return out;
    }
    if analysis.main_knots.len() == 0 {
        out.push(Diagnostic::error(story.modules[0].span.duplicate(), owned("Explicit module compilation requires exactly one module to define a knot named 'main'")));
        return out;
    }
    let mut k: usize = 1;
    while k < analysis.main_knots.len()
        invariant
            1 <= k <= analysis.main_knots@.len(),
            out@.len() == k - 1,
            forall|x: int| 0 <= x < out@.len() ==> (#[trigger] out@[x]).is_error()
                && out@[x].message@ == "Multiple 'main' knots are declared; runnable entry point must be unique"@
                && out@[x].span_view() == analysis.main_knots@[x + 1].span,
        decreases analysis.main_knots.len() - k,
    {
        out.push(Diagnostic::error(analysis.main_knots[k].span.duplicate(), owned("Multiple 'main' knots are declared; runnable entry point must be unique")));
        k = k + 1;
    }
    out
}

/// A module compilation cannot also have root content or root flows: one
/// error at the first root object, or else at the first root flow.
pub fn mixed_root_module_diagnostics(story: &Story) -> (r: Vec<Diagnostic>)
    ensures
        story.modules@.len() == 0 || (story.root_weave.content@.len() == 0 && story.flows@.len() == 0) ==> r@.len() == 0,
        story.modules@.len() > 0 && story.root_weave.content@.len() > 0 ==> r@.len() == 1 && r@[0].is_error()
            && r@[0].span_view() == object_span_spec(story.root_weave.content@[0])
            && r@[0].message@ == "Explicit module compilation cannot be mixed with root story content or top-level flows"@,
        story.modules@.len() > 0 && story.root_weave.content@.len() == 0 && story.flows@.len() > 0 ==> r@.len() == 1 && r@[0].is_error()
            && r@[0].span_view() == story.flows@[0].span
            && r@[0].message@ == "Explicit module compilation cannot be mixed with root story content or top-level flows"@,
{
    let mut out: Vec<Diagnostic> = Vec::new();
    if story.modules.len() == 0 {
        return out;
    }
    if story.root_weave.content.len() > 0 {
        out.push(Diagnostic::error(object_span(&story.root_weave.content[0]), owned("Explicit module compilation cannot be mixed with root story content or top-level flows")));
        return out;
    }
    if story.flows.len() > 0 {
        out.push(Diagnostic::error(story.flows[0].span.duplicate(), owned("Explicit module compilation cannot be mixed with root story content or top-level flows")));
    }
    out
}

} // verus!
