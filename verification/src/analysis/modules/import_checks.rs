//! Checks of imports and qualified references: imported modules and
//! symbols exist, stitches are not imported, imports are used, and a
//! qualified reference to another module has a direct import.
use vstd::prelude::*;

use crate::analysis::modules::imports::ModuleImportIndex;
use crate::analysis::modules::symbols::ModuleSymbolIndex;
use crate::analysis::modules::uses::{collect_module_uses, module_uses, use_view, uses_view, QualifiedUse, UseView};
use crate::diagnostic::{diag_view, diag_views, diagnostics_sorted, sort_diagnostics, sorted_from, DiagView, Diagnostic, DiagnosticSeverity};
use crate::parsed::{Flow, Import, ImportedName, Module, Story};
use crate::source::SourceSpan;
use crate::text::{owned, str_eq};

verus! {

pub open spec fn missing_symbol_message(module: Seq<char>, symbol: Seq<char>) -> Seq<char> {
    "Module '"@ + module + "' does not define importable symbol '"@ + symbol + "'"@
}

pub open spec fn unknown_module_message(source: Seq<char>, symbol: Seq<char>) -> Seq<char> {
    "Qualified reference '"@ + source + "::"@ + symbol + "' uses unknown module '"@ + source + "'"@
}

pub open spec fn direct_import_message(source: Seq<char>, symbol: Seq<char>, current: Seq<char>) -> Seq<char> {
    "Qualified reference '"@ + source + "::"@ + symbol + "' requires a direct import in module '"@ + current
        + "': FROM "@ + source + " IMPORT "@ + symbol
}

pub open spec fn missing_module_message(source: Seq<char>) -> Seq<char> {
    "Imported module '"@ + source + "' does not exist"@
}

pub open spec fn unused_import_message(source: Seq<char>, symbol: Seq<char>) -> Seq<char> {
    "Imported symbol '"@ + source + "::"@ + symbol + "' is never used"@
}

pub open spec fn stitch_import_message(symbol: Seq<char>, source: Seq<char>) -> Seq<char> {
    "Cannot import stitch '"@ + symbol + "' from module '"@ + source + "'; stitches are scoped to their parent knot"@
}

/// Whether `uses` names `source::symbol`.
pub open spec fn uses_pair(uses: Seq<UseView>, source: Seq<char>, symbol: Seq<char>) -> bool {
    exists|k: int| 0 <= k < uses.len() && (#[trigger] uses[k]).0 == source && uses[k].1 == symbol
}

/// The qualified uses of every module named `name`, in story order.
pub open spec fn name_uses(modules: Seq<Module>, name: Seq<char>) -> Seq<UseView>
    decreases modules.len(),
{
    if modules.len() == 0 {
        Seq::empty()
    } else if modules.last().name@ == name {
        name_uses(modules.drop_last(), name) + module_uses(modules.last())
    } else {
        name_uses(modules.drop_last(), name)
    }
}

/// Whether some knot of `m` has a stitch named `stitch`.
pub open spec fn module_has_stitch(m: Module, stitch: Seq<char>) -> bool {
    exists|i: int, j: int| 0 <= i < m.flows@.len() && 0 <= j < m.flows@[i].child_flows@.len()
        && (#[trigger] m.flows@[i].child_flows@[j]).name@ == stitch
}

/// Whether the first module named `module` has a stitch named `stitch`.
pub open spec fn first_module_has_stitch(modules: Seq<Module>, module: Seq<char>, stitch: Seq<char>) -> bool
    decreases modules.len(),
{
    if modules.len() == 0 {
        false
    } else if modules[0].name@ == module {
        module_has_stitch(modules[0], stitch)
    } else {
        first_module_has_stitch(modules.drop_first(), module, stitch)
    }
}

/// The diagnostic for the first use of `source::symbol` in module `current`.
pub open spec fn one_use_diag(current: Seq<char>, u: UseView, symbols: ModuleSymbolIndex, imports: ModuleImportIndex) -> Seq<DiagView> {
    if u.0 == current {
        if symbols.named(current, u.1).len() == 0 {
            seq![(DiagnosticSeverity::Error, missing_symbol_message(current, u.1), u.2)]
        } else {
            Seq::empty()
        }
    } else if !symbols.has_module(u.0) {
        seq![(DiagnosticSeverity::Error, unknown_module_message(u.0, u.1), u.2)]
    } else if !imports.allowed(current, u.0, u.1) {
        seq![(DiagnosticSeverity::Error, direct_import_message(u.0, u.1, current), u.2)]
    } else {
        Seq::empty()
    }
}

/// The diagnostics for the qualified uses of module `current`: one check
/// per distinct `source::symbol`, at its first use.
pub open spec fn use_diags(current: Seq<char>, uses: Seq<UseView>, symbols: ModuleSymbolIndex, imports: ModuleImportIndex) -> Seq<DiagView>
    decreases uses.len(),
{
    if uses.len() == 0 {
        Seq::empty()
    } else {
        let earlier = use_diags(current, uses.drop_last(), symbols, imports);
        let u = uses.last();
        if uses_pair(uses.drop_last(), u.0, u.1) {
            earlier
        } else {
            earlier + one_use_diag(current, u, symbols, imports)
        }
    }
}

/// The diagnostic for one imported name of an import from `source`.
pub open spec fn imported_name_diag(modules: Seq<Module>, symbols: ModuleSymbolIndex, uses: Seq<UseView>, source: Seq<char>, n: ImportedName) -> Seq<DiagView> {
    if symbols.named(source, n.name@).len() > 0 {
        if uses_pair(uses, source, n.name@) {
            Seq::empty()
        } else {
            seq![(DiagnosticSeverity::Warning, unused_import_message(source, n.name@), n.span)]
        }
    } else if first_module_has_stitch(modules, source, n.name@) {
        seq![(DiagnosticSeverity::Error, stitch_import_message(n.name@, source), n.span)]
    } else {
        seq![(DiagnosticSeverity::Error, missing_symbol_message(source, n.name@), n.span)]
    }
}

pub open spec fn imported_names_diags(modules: Seq<Module>, symbols: ModuleSymbolIndex, uses: Seq<UseView>, source: Seq<char>, names: Seq<ImportedName>) -> Seq<DiagView>
    decreases names.len(),
{
    if names.len() == 0 {
        Seq::empty()
    } else {
        imported_names_diags(modules, symbols, uses, source, names.drop_last()) + imported_name_diag(modules, symbols, uses, source, names.last())
    }
}

/// The diagnostics for one import: its module is missing, or one per
/// imported name.
pub open spec fn import_diags(modules: Seq<Module>, symbols: ModuleSymbolIndex, uses: Seq<UseView>, i: Import) -> Seq<DiagView> {
    if !symbols.has_module(i.source_module@) {
        seq![(DiagnosticSeverity::Error, missing_module_message(i.source_module@), i.source_module_span)]
    } else {
        imported_names_diags(modules, symbols, uses, i.source_module@, i.imported_names@)
    }
}

pub open spec fn imports_diags(modules: Seq<Module>, symbols: ModuleSymbolIndex, uses: Seq<UseView>, imports: Seq<Import>) -> Seq<DiagView>
    decreases imports.len(),
{
    if imports.len() == 0 {
        Seq::empty()
    } else {
        imports_diags(modules, symbols, uses, imports.drop_last()) + import_diags(modules, symbols, uses, imports.last())
    }
}

/// The diagnostics of module `m`: its qualified uses, then its imports.
pub open spec fn module_diags(modules: Seq<Module>, symbols: ModuleSymbolIndex, imports: ModuleImportIndex, m: Module) -> Seq<DiagView> {
    let uses = name_uses(modules, m.name@);
    use_diags(m.name@, uses, symbols, imports) + imports_diags(modules, symbols, uses, m.imports@)
}

/// The diagnostics of the first `n` modules, in order, before sorting.
pub open spec fn story_import_diags(modules: Seq<Module>, symbols: ModuleSymbolIndex, imports: ModuleImportIndex, n: int) -> Seq<DiagView>
    decreases n,
{
    if n <= 0 {
        Seq::empty()
    } else {
        story_import_diags(modules, symbols, imports, n - 1) + module_diags(modules, symbols, imports, modules[n - 1])
    }
}

pub open spec fn option_views(d: Option<Diagnostic>) -> Seq<DiagView> {
    match d {
        Some(d) => seq![diag_view(d)],
        None => Seq::empty(),
    }
}

/// Whether `uses[..end]` names `source::symbol`.
fn uses_pair_before(uses: &Vec<QualifiedUse>, end: usize, source: &str, symbol: &str) -> (r: bool)
    requires
        end <= uses@.len(),
    ensures
        r == uses_pair(uses_view(uses@).take(end as int), source@, symbol@),
{
    let ghost v = uses_view(uses@).take(end as int);
    let mut k: usize = 0;
    while k < end
        invariant
            end <= uses@.len(),
            v == uses_view(uses@).take(end as int),
            k <= end,
            forall|x: int| 0 <= x < k ==> !((#[trigger] v[x]).0 == source@ && v[x].1 == symbol@),
        decreases end - k,
    {
        if str_eq(uses[k].source_module.as_str(), source) && str_eq(uses[k].symbol.as_str(), symbol) {
            assert(v[k as int] == use_view(uses@[k as int]));
            return true;
        }
        assert(v[k as int] == use_view(uses@[k as int]));
        k = k + 1;
    }
    false
}

/// The qualified uses of every module named `name`, in story order, given
/// the uses of each module.
fn uses_for_name(story: &Story, per_module: &Vec<Vec<QualifiedUse>>, name: &str) -> (r: Vec<QualifiedUse>)
    requires
        per_module@.len() == story.modules@.len(),
        forall|i: int| 0 <= i < per_module@.len() ==> uses_view(#[trigger] per_module@[i]@) == module_uses(story.modules@[i]),
    ensures
        uses_view(r@) == name_uses(story.modules@, name@),
{
    let mut out: Vec<QualifiedUse> = Vec::new();
    let mut i: usize = 0;
    assert(uses_view(out@) =~= name_uses(story.modules@.take(0), name@));
    while i < story.modules.len()
        invariant
            i <= story.modules@.len(),
            per_module@.len() == story.modules@.len(),
            forall|i: int| 0 <= i < per_module@.len() ==> uses_view(#[trigger] per_module@[i]@) == module_uses(story.modules@[i]),
            uses_view(out@) == name_uses(story.modules@.take(i as int), name@),
        decreases story.modules.len() - i,
    {
        let ghost before = uses_view(out@);
        assert(story.modules@.take(i + 1).drop_last() =~= story.modules@.take(i as int));
        if str_eq(story.modules[i].name.as_str(), name) {
            let list = &per_module[i];
            let mut k: usize = 0;
            while k < list.len()
                invariant
                    k <= list@.len(),
                    uses_view(out@) == before + uses_view(list@).take(k as int),
                decreases list.len() - k,
            {
                let ghost prev = out@;
                let u = list[k].duplicate();
                out.push(u);
                assert(uses_view(out@) =~= uses_view(prev).push(use_view(u)));
                assert(uses_view(list@).take(k + 1) =~= uses_view(list@).take(k as int).push(use_view(list@[k as int])));
                assert(uses_view(out@) =~= before + uses_view(list@).take(k + 1));
                k = k + 1;
            }
            assert(uses_view(list@).take(list@.len() as int) =~= uses_view(list@));
            assert(uses_view(out@) =~= name_uses(story.modules@.take(i + 1), name@));
        }
        i = i + 1;
    }
    assert(story.modules@.take(story.modules@.len() as int) =~= story.modules@);
    out
}

/// Whether some knot of `m` has a stitch named `stitch`.
fn has_stitch(m: &Module, stitch: &str) -> (r: bool)
    ensures
        r == module_has_stitch(*m, stitch@),
{
    let mut i: usize = 0;
    while i < m.flows.len()
        invariant
            i <= m.flows@.len(),
            forall|a: int, b: int| 0 <= a < i && 0 <= b < m.flows@[a].child_flows@.len() ==> (#[trigger] m.flows@[a].child_flows@[b]).name@ != stitch@,
        decreases m.flows.len() - i,
    {
        let children = &m.flows[i].child_flows;
        let mut j: usize = 0;
        while j < children.len()
            invariant
                i < m.flows@.len(),
                *children == m.flows@[i as int].child_flows,
                j <= children@.len(),
                forall|a: int, b: int| 0 <= a < i && 0 <= b < m.flows@[a].child_flows@.len() ==> (#[trigger] m.flows@[a].child_flows@[b]).name@ != stitch@,
                forall|b: int| 0 <= b < j ==> (#[trigger] children@[b]).name@ != stitch@,
            decreases children.len() - j,
        {
            if str_eq(children[j].name.as_str(), stitch) {
                assert(m.flows@[i as int].child_flows@[j as int].name@ == stitch@);
                return true;
            }
            j = j + 1;
        }
        i = i + 1;
    }
    false
}

/// Whether the first module named `module` has a stitch named `stitch`.
fn first_has_stitch(modules: &Vec<Module>, module: &str, stitch: &str) -> (r: bool)
    ensures
        r == first_module_has_stitch(modules@, module@, stitch@),
{
    let mut i: usize = 0;
    assert(modules@.skip(0) =~= modules@);
    while i < modules.len()
        invariant
            i <= modules@.len(),
            first_module_has_stitch(modules@, module@, stitch@) == first_module_has_stitch(modules@.skip(i as int), module@, stitch@),
        decreases modules.len() - i,
    {
        assert(modules@.skip(i as int)[0] == modules@[i as int]);
        if str_eq(modules[i].name.as_str(), module) {
            return has_stitch(&modules[i], stitch);
        }
        assert(modules@.skip(i as int).drop_first() =~= modules@.skip(i + 1));
        i = i + 1;
    }
    false
}

fn missing_symbol_text(module: &str, symbol: &str) -> (r: String)
    ensures
        r@ == missing_symbol_message(module@, symbol@),
{
    let mut m = owned("Module '");
    m.append(module);
    m.append("' does not define importable symbol '");
    m.append(symbol);
    m.append("'");
    m
}

fn unknown_module_text(source: &str, symbol: &str) -> (r: String)
    ensures
        r@ == unknown_module_message(source@, symbol@),
{
    let mut m = owned("Qualified reference '");
    m.append(source);
    m.append("::");
    m.append(symbol);
    m.append("' uses unknown module '");
    m.append(source);
    m.append("'");
    m
}

fn direct_import_text(source: &str, symbol: &str, current: &str) -> (r: String)
    ensures
        r@ == direct_import_message(source@, symbol@, current@),
{
    let mut m = owned("Qualified reference '");
    m.append(source);
    m.append("::");
    m.append(symbol);
    m.append("' requires a direct import in module '");
    m.append(current);
    m.append("': FROM ");
    m.append(source);
    m.append(" IMPORT ");
    m.append(symbol);
    m
}

fn missing_module_text(source: &str) -> (r: String)
    ensures
        r@ == missing_module_message(source@),
{
    let mut m = owned("Imported module '");
    m.append(source);
    m.append("' does not exist");
    m
}

fn unused_import_text(source: &str, symbol: &str) -> (r: String)
    ensures
        r@ == unused_import_message(source@, symbol@),
{
    let mut m = owned("Imported symbol '");
    m.append(source);
    m.append("::");
    m.append(symbol);
    m.append("' is never used");
    m
}

fn stitch_import_text(symbol: &str, source: &str) -> (r: String)
    ensures
        r@ == stitch_import_message(symbol@, source@),
{
    let mut m = owned("Cannot import stitch '");
    m.append(symbol);
    m.append("' from module '");
    m.append(source);
    m.append("'; stitches are scoped to their parent knot");
    m
}

/// The check of the first use of `u.source_module::u.symbol` in module
/// `current`.
fn one_use_diagnostic(current: &str, u: &QualifiedUse, symbols: &ModuleSymbolIndex, imports: &ModuleImportIndex) -> (r: Option<Diagnostic>)
    requires
        symbols.wf(),
        imports.wf(),
    ensures
        option_views(r) == one_use_diag(current@, use_view(*u), *symbols, *imports),
{
    let source = u.source_module.as_str();
    let symbol = u.symbol.as_str();
    if str_eq(source, current) {
        if symbols.get(current, symbol).is_none() {
            let d = Diagnostic::error(u.span.duplicate(), missing_symbol_text(current, symbol));
            assert(option_views(Some(d)) =~= one_use_diag(current@, use_view(*u), *symbols, *imports));
            return Some(d);
        }
        return None;
    }
    if symbols.symbols_for_module(source).is_none() {
        let d = Diagnostic::error(u.span.duplicate(), unknown_module_text(source, symbol));
        assert(option_views(Some(d)) =~= one_use_diag(current@, use_view(*u), *symbols, *imports));
        return Some(d);
    }
    if !imports.allows(current, source, symbol) {
        let d = Diagnostic::error(u.span.duplicate(), direct_import_text(source, symbol, current));
        assert(option_views(Some(d)) =~= one_use_diag(current@, use_view(*u), *symbols, *imports));
        return Some(d);
    }
    None
}

/// The diagnostic for one imported name of an import from `source`, if
/// any: unused, a stitch, or not defined.
fn imported_name_diagnostic(story: &Story, symbols: &ModuleSymbolIndex, uses: &Vec<QualifiedUse>, source: &str, n: &ImportedName) -> (r: Option<Diagnostic>)
    requires
        symbols.wf(),
    ensures
        option_views(r) == imported_name_diag(story.modules@, *symbols, uses_view(uses@), source@, *n),
{
    let name = n.name.as_str();
    if symbols.get(source, name).is_some() {
        let used = uses_pair_before(uses, uses.len(), source, name);
        assert(uses_view(uses@).take(uses@.len() as int) =~= uses_view(uses@));
        if used {
            return None;
        }
        let d = Diagnostic::warning(n.span.duplicate(), unused_import_text(source, name));
        assert(option_views(Some(d)) =~= imported_name_diag(story.modules@, *symbols, uses_view(uses@), source@, *n));
        return Some(d);
    }
    let d = if first_has_stitch(&story.modules, source, name) {
        Diagnostic::error(n.span.duplicate(), stitch_import_text(name, source))
    } else {
        Diagnostic::error(n.span.duplicate(), missing_symbol_text(source, name))
    };
    assert(option_views(Some(d)) =~= imported_name_diag(story.modules@, *symbols, uses_view(uses@), source@, *n));
    Some(d)
}

fn push_optional(out: &mut Vec<Diagnostic>, d: Option<Diagnostic>)
    ensures
        diag_views(final(out)@) == diag_views(old(out)@) + option_views(d),
{
    let ghost before = out@;
    match d {
        Some(d) => {
            out.push(d);
            assert(diag_views(out@) =~= diag_views(before) + option_views(Some(d)));
        },
        None => {
            assert(diag_views(out@) =~= diag_views(before) + option_views(None));
        },
    }
}

/// Appends the checks of the qualified uses of module `current`.
fn push_use_diagnostics(current: &str, uses: &Vec<QualifiedUse>, symbols: &ModuleSymbolIndex, imports: &ModuleImportIndex, out: &mut Vec<Diagnostic>)
    requires
        symbols.wf(),
        imports.wf(),
    ensures
        diag_views(final(out)@) == diag_views(old(out)@) + use_diags(current@, uses_view(uses@), *symbols, *imports),
{
    let ghost before = diag_views(out@);
    let ghost v = uses_view(uses@);
    let mut j: usize = 0;
    assert(diag_views(out@) =~= before + use_diags(current@, v.take(0), *symbols, *imports));
    while j < uses.len()
        invariant
            symbols.wf(),
            imports.wf(),
            v == uses_view(uses@),
            j <= uses@.len(),
            diag_views(out@) == before + use_diags(current@, v.take(j as int), *symbols, *imports),
        decreases uses.len() - j,
    {
        proof {
            assert(v.take(j + 1).drop_last() =~= v.take(j as int));
            assert(v.take(j + 1).last() == use_view(uses@[j as int]));
        }
        let u = &uses[j];
        if !uses_pair_before(uses, j, u.source_module.as_str(), u.symbol.as_str()) {
            let d = one_use_diagnostic(current, u, symbols, imports);
            push_optional(out, d);
        }
        assert(diag_views(out@) =~= before + use_diags(current@, v.take(j + 1), *symbols, *imports));
        j = j + 1;
    }
    assert(v.take(v.len() as int) =~= v);
}

/// Appends the checks of one import.
fn push_import_diagnostics(story: &Story, symbols: &ModuleSymbolIndex, uses: &Vec<QualifiedUse>, import: &Import, out: &mut Vec<Diagnostic>)
    requires
        symbols.wf(),
    ensures
        diag_views(final(out)@) == diag_views(old(out)@) + import_diags(story.modules@, *symbols, uses_view(uses@), *import),
{
    let ghost before = diag_views(out@);
    let source = import.source_module.as_str();
    if symbols.symbols_for_module(source).is_none() {
        let d = Diagnostic::error(import.source_module_span.duplicate(), missing_module_text(source));
        out.push(d);
        assert(diag_views(out@) =~= before + import_diags(story.modules@, *symbols, uses_view(uses@), *import));
        return;
    }
    let names = &import.imported_names;
    let mut k: usize = 0;
    assert(diag_views(out@) =~= before + imported_names_diags(story.modules@, *symbols, uses_view(uses@), source@, names@.take(0)));
    while k < names.len()
        invariant
            symbols.wf(),
            k <= names@.len(),
            diag_views(out@) == before + imported_names_diags(story.modules@, *symbols, uses_view(uses@), source@, names@.take(k as int)),
        decreases names.len() - k,
    {
        assert(names@.take(k + 1).drop_last() =~= names@.take(k as int));
        let d = imported_name_diagnostic(story, symbols, uses, source, &names[k]);
        push_optional(out, d);
        assert(diag_views(out@) =~= before + imported_names_diags(story.modules@, *symbols, uses_view(uses@), source@, names@.take(k + 1)));
        k = k + 1;
    }
    assert(names@.take(names@.len() as int) =~= names@);
}

/// Appends the checks of module `m`: its qualified uses, then its imports.
fn push_module_diagnostics(story: &Story, symbols: &ModuleSymbolIndex, imports: &ModuleImportIndex, m: &Module, uses: &Vec<QualifiedUse>, out: &mut Vec<Diagnostic>)
    requires
        symbols.wf(),
        imports.wf(),
        uses_view(uses@) == name_uses(story.modules@, m.name@),
    ensures
        diag_views(final(out)@) == diag_views(old(out)@) + module_diags(story.modules@, *symbols, *imports, *m),
{
    let ghost before = diag_views(out@);
    push_use_diagnostics(m.name.as_str(), uses, symbols, imports, out);
    let ghost mid = diag_views(out@);
    let mut k: usize = 0;
    assert(diag_views(out@) =~= mid + imports_diags(story.modules@, *symbols, uses_view(uses@), m.imports@.take(0)));
    while k < m.imports.len()
        invariant
            symbols.wf(),
            k <= m.imports@.len(),
            diag_views(out@) == mid + imports_diags(story.modules@, *symbols, uses_view(uses@), m.imports@.take(k as int)),
        decreases m.imports.len() - k,
    {
        assert(m.imports@.take(k + 1).drop_last() =~= m.imports@.take(k as int));
        push_import_diagnostics(story, symbols, uses, &m.imports[k], out);
        assert(diag_views(out@) =~= mid + imports_diags(story.modules@, *symbols, uses_view(uses@), m.imports@.take(k + 1)));
        k = k + 1;
    }
    assert(m.imports@.take(m.imports@.len() as int) =~= m.imports@);
    assert(diag_views(out@) =~= before + module_diags(story.modules@, *symbols, *imports, *m));
}

/// The import and qualified-reference diagnostics of every module, sorted.
/// For each module, in story order: each distinct `module::symbol` that
/// its code names is checked at its first use (against the module itself,
/// then the existence of the other module, then a direct import); then
/// each import is checked (its module exists; each imported name is used,
/// or else is a stitch, or else is not defined).
pub fn module_import_diagnostics(story: &Story, symbols: &ModuleSymbolIndex, imports: &ModuleImportIndex) -> (r: Vec<Diagnostic>)
    requires
        symbols.wf(),
        imports.wf(),
    ensures
        diagnostics_sorted(r@),
        exists|u: Seq<Diagnostic>| #[trigger] diag_views(u) == story_import_diags(story.modules@, *symbols, *imports, story.modules@.len() as int)
            && r@.to_multiset() == u.to_multiset(),
        exists|u: Seq<Diagnostic>, p: Seq<int>| #[trigger] sorted_from(u, r@, p) && diag_views(u) == story_import_diags(
            story.modules@,
            *symbols,
            *imports,
            story.modules@.len() as int,
        ),
{
    let mut per_module: Vec<Vec<QualifiedUse>> = Vec::new();
    let mut i: usize = 0;
    while i < story.modules.len()
        invariant
            i <= story.modules@.len(),
            per_module@.len() == i,
            forall|x: int| 0 <= x < i ==> uses_view(#[trigger] per_module@[x]@) == module_uses(story.modules@[x]),
        decreases story.modules.len() - i,
    {
        per_module.push(collect_module_uses(&story.modules[i]));
        i = i + 1;
    }
    let mut out: Vec<Diagnostic> = Vec::new();
    let mut i: usize = 0;
    assert(diag_views(out@) =~= story_import_diags(story.modules@, *symbols, *imports, 0));
    while i < story.modules.len()
        invariant
            symbols.wf(),
            imports.wf(),
            i <= story.modules@.len(),
            per_module@.len() == story.modules@.len(),
            forall|x: int| 0 <= x < per_module@.len() ==> uses_view(#[trigger] per_module@[x]@) == module_uses(story.modules@[x]),
            diag_views(out@) == story_import_diags(story.modules@, *symbols, *imports, i as int),
        decreases story.modules.len() - i,
    {
        let m = &story.modules[i];
        let uses = uses_for_name(story, &per_module, m.name.as_str());
        push_module_diagnostics(story, symbols, imports, m, &uses, &mut out);
        i = i + 1;
    }
    let ghost unsorted = out@;
    sort_diagnostics(&mut out);
    assert(diag_views(unsorted) == story_import_diags(story.modules@, *symbols, *imports, story.modules@.len() as int));
    out
}

} // verus!
