//! Building the type index of a story: its variables, struct and enum
//! types, and call targets.
use vstd::prelude::*;

use crate::analysis::sites::{
    collect_flows, collect_sites, flow_site_view, flow_sites_view, opt_str_view, opt_string_view,
    site_view, sites_view, story_flows, story_sites, FlowSite, FlowSiteView, Site, SiteView,
};
use crate::analysis::types::{
    first_enum, first_struct, first_target, opt_view, scoped, scoped_name, EnumSymbol,
    FieldSymbol, ParameterSymbol, StructSymbol, TargetSymbol, TypeIndex, VariableKind,
    VariableSymbol,
};
use crate::parsed::{AssignmentKind, FlowArgument, Object, Story, TypeName};
use crate::diagnostic::{diag_view, diag_views, DiagView, Diagnostic, DiagnosticSeverity};
use crate::text::{concat3, str_eq};

verus! {

pub type VarView = (Option<Seq<char>>, Option<Seq<char>>, Seq<char>, Option<TypeName>, VariableKind);

pub open spec fn var_view(v: VariableSymbol) -> VarView {
    (opt_view(v.module), opt_view(v.scope), v.name@, v.declared_type, v.kind)
}

pub open spec fn vars_view(vs: Seq<VariableSymbol>) -> Seq<VarView> {
    vs.map_values(|v: VariableSymbol| var_view(v))
}

/// The arguments of the flow at `path` as locals of it.
pub open spec fn argument_vars(m: Option<Seq<char>>, path: Seq<char>, args: Seq<FlowArgument>) -> Seq<VarView>
    decreases args.len(),
{
    if args.len() == 0 {
        Seq::empty()
    } else {
        argument_vars(m, path, args.drop_last()) + seq![(m, Some(path), args.last().name@, args.last().declared_type, VariableKind::Local)]
    }
}

pub open spec fn flows_argument_vars(fs: Seq<FlowSiteView>) -> Seq<VarView>
    decreases fs.len(),
{
    if fs.len() == 0 {
        Seq::empty()
    } else {
        let s = fs.last();
        flows_argument_vars(fs.drop_last()) + argument_vars(s.0, s.1, s.3.arguments@)
    }
}

/// The variables a site declares: a global `VAR`, a `CONST`, or a `temp`
/// of its flow.
pub open spec fn site_vars(s: SiteView) -> Seq<VarView> {
    match s.2 {
        Object::VariableAssignment(a) => if a.kind == AssignmentKind::Global {
            seq![(s.0, None, a.name@, a.declared_type, VariableKind::GlobalVariable)]
        } else if a.kind == AssignmentKind::Temporary && s.1 is Some {
            seq![(s.0, s.1, a.name@, a.declared_type, VariableKind::Local)]
        } else {
            Seq::empty()
        },
        Object::ConstantDeclaration(d) => seq![(s.0, None, d.name@, Some(d.declared_type), VariableKind::Constant)],
        _ => Seq::empty(),
    }
}

pub open spec fn sites_vars(ss: Seq<SiteView>) -> Seq<VarView>
    decreases ss.len(),
{
    if ss.len() == 0 {
        Seq::empty()
    } else {
        sites_vars(ss.drop_last()) + site_vars(ss.last())
    }
}

/// Every variable of the story: flow arguments first, then declarations
/// in reading order.
pub open spec fn story_vars(story: Story) -> Seq<VarView> {
    flows_argument_vars(story_flows(story)) + sites_vars(story_sites(story))
}

fn copy_type(t: &Option<TypeName>) -> (r: Option<TypeName>)
    ensures
        r == *t,
{
    match t {
        Some(t) => Some(t.duplicate()),
        None => None,
    }
}

fn module_copy(m: Option<&str>) -> (r: Option<String>)
    ensures
        opt_view(r) == opt_str_view(m),
{
    match m {
        Some(m) => Some(String::from_str(m)),
        None => None,
    }
}

fn push_argument_vars(fl: &FlowSite, out: &mut Vec<VariableSymbol>)
    ensures
        vars_view(final(out)@) == vars_view(old(out)@) + argument_vars(opt_str_view(fl.module), fl.path@, fl.flow.arguments@),
{
    let ghost before = vars_view(out@);
    let args = &fl.flow.arguments;
    let mut i: usize = 0;
    assert(vars_view(out@) =~= before + argument_vars(opt_str_view(fl.module), fl.path@, args@.take(0)));
    while i < args.len()
        invariant
            i <= args@.len(),
            *args == fl.flow.arguments,
            vars_view(out@) == before + argument_vars(opt_str_view(fl.module), fl.path@, args@.take(i as int)),
        decreases args.len() - i,
    {
        let ghost prev = out@;
        out.push(VariableSymbol {
            module: module_copy(fl.module),
            scope: Some(fl.path.clone()),
            name: args[i].name.clone(),
            declared_type: copy_type(&args[i].declared_type),
            kind: VariableKind::Local,
        });
        assert(args@.take(i + 1).drop_last() =~= args@.take(i as int));
        assert(vars_view(out@) =~= vars_view(prev).push(var_view(out@.last())));
        assert(vars_view(out@) =~= before + argument_vars(opt_str_view(fl.module), fl.path@, args@.take(i + 1)));
        i = i + 1;
    }
    assert(args@.take(args@.len() as int) =~= args@);
}

fn push_site_vars(s: &Site, out: &mut Vec<VariableSymbol>)
    ensures
        vars_view(final(out)@) == vars_view(old(out)@) + site_vars(site_view(*s)),
{
    let ghost before = out@;
    match s.object {
        Object::VariableAssignment(a) => {
            if a.kind == AssignmentKind::Global {
                out.push(VariableSymbol {
                    module: module_copy(s.module),
                    scope: None,
                    name: a.name.clone(),
                    declared_type: copy_type(&a.declared_type),
                    kind: VariableKind::GlobalVariable,
                });
                assert(vars_view(out@) =~= vars_view(before) + site_vars(site_view(*s)));
            } else if a.kind == AssignmentKind::Temporary {
                match &s.flow {
                    Some(path) => {
                        out.push(VariableSymbol {
                            module: module_copy(s.module),
                            scope: Some(path.clone()),
                            name: a.name.clone(),
                            declared_type: copy_type(&a.declared_type),
                            kind: VariableKind::Local,
                        });
                        assert(vars_view(out@) =~= vars_view(before) + site_vars(site_view(*s)));
                    },
                    None => {
                        assert(vars_view(out@) =~= vars_view(before) + site_vars(site_view(*s)));
                    },
                }
            } else {
                assert(vars_view(out@) =~= vars_view(before) + site_vars(site_view(*s)));
            }
        },
        Object::ConstantDeclaration(d) => {
            out.push(VariableSymbol {
                module: module_copy(s.module),
                scope: None,
                name: d.name.clone(),
                declared_type: Some(d.declared_type.duplicate()),
                kind: VariableKind::Constant,
            });
            assert(vars_view(out@) =~= vars_view(before) + site_vars(site_view(*s)));
        },
        _ => {
            assert(vars_view(out@) =~= vars_view(before) + site_vars(site_view(*s)));
        },
    }
}

/// Every variable of `story`: flow arguments, then declarations.
pub fn build_variables(story: &Story) -> (r: Vec<VariableSymbol>)
    ensures
        vars_view(r@) == story_vars(*story),
{
    let flows = collect_flows(story);
    let ghost fv = flow_sites_view(flows@);
    let mut out: Vec<VariableSymbol> = Vec::new();
    let mut i: usize = 0;
    assert(vars_view(out@) =~= flows_argument_vars(fv.take(0)));
    while i < flows.len()
        invariant
            i <= flows@.len(),
            fv == flow_sites_view(flows@),
            vars_view(out@) == flows_argument_vars(fv.take(i as int)),
        decreases flows.len() - i,
    {
        assert(fv.take(i + 1).drop_last() =~= fv.take(i as int));
        assert(fv.take(i + 1).last() == flow_site_view(flows@[i as int]));
        push_argument_vars(&flows[i], &mut out);
        i = i + 1;
    }
    assert(fv.take(fv.len() as int) =~= fv);
    let ghost args = vars_view(out@);
    let sites = collect_sites(story);
    let ghost sv = sites_view(sites@);
    let mut k: usize = 0;
    assert(vars_view(out@) =~= args + sites_vars(sv.take(0)));
    while k < sites.len()
        invariant
            k <= sites@.len(),
            sv == sites_view(sites@),
            vars_view(out@) == args + sites_vars(sv.take(k as int)),
        decreases sites.len() - k,
    {
        assert(sv.take(k + 1).drop_last() =~= sv.take(k as int));
        assert(sv.take(k + 1).last() == site_view(sites@[k as int]));
        push_site_vars(&sites[k], &mut out);
        assert(vars_view(out@) =~= args + sites_vars(sv.take(k + 1)));
        k = k + 1;
    }
    assert(sv.take(sv.len() as int) =~= sv);
    out
}

pub type FieldView = (Seq<char>, TypeName);

pub type StructView = (Seq<char>, Seq<FieldView>);

pub open spec fn field_view(f: FieldSymbol) -> FieldView {
    (f.name@, f.field_type)
}

pub open spec fn struct_view(s: StructSymbol) -> StructView {
    (s.key@, s.fields@.map_values(|f: FieldSymbol| field_view(f)))
}

pub open spec fn structs_view(ss: Seq<StructSymbol>) -> Seq<StructView> {
    ss.map_values(|s: StructSymbol| struct_view(s))
}

pub open spec fn has_field(fs: Seq<FieldView>, name: Seq<char>) -> bool {
    exists|k: int| 0 <= k < fs.len() && (#[trigger] fs[k]).0 == name
}

/// The fields of a declaration, each name kept at its first occurrence.
pub open spec fn unique_fields(fs: Seq<crate::parsed::StructField>) -> Seq<FieldView>
    decreases fs.len(),
{
    if fs.len() == 0 {
        Seq::empty()
    } else {
        let earlier = unique_fields(fs.drop_last());
        if has_field(earlier, fs.last().name@) {
            earlier
        } else {
            earlier.push((fs.last().name@, fs.last().field_type))
        }
    }
}

pub open spec fn has_struct_key(ss: Seq<StructView>, key: Seq<char>) -> bool {
    exists|k: int| 0 <= k < ss.len() && (#[trigger] ss[k]).0 == key
}

/// The struct types declared by `sites`: the first declaration of each
/// scoped name, with its distinct fields.
pub open spec fn sites_structs(sites: Seq<SiteView>) -> Seq<StructView>
    decreases sites.len(),
{
    if sites.len() == 0 {
        Seq::empty()
    } else {
        let earlier = sites_structs(sites.drop_last());
        let s = sites.last();
        match s.2 {
            Object::StructDeclaration(d) => if has_struct_key(earlier, scoped(s.0, d.name@)) {
                earlier
            } else {
                earlier.push((scoped(s.0, d.name@), unique_fields(d.fields@)))
            },
            _ => earlier,
        }
    }
}

/// The errors for the repeated fields of a declaration named `struct_name`.
pub open spec fn field_diags(fs: Seq<crate::parsed::StructField>, struct_name: Seq<char>) -> Seq<DiagView>
    decreases fs.len(),
{
    if fs.len() == 0 {
        Seq::empty()
    } else {
        field_diags(fs.drop_last(), struct_name) + if has_field(unique_fields(fs.drop_last()), fs.last().name@) {
            seq![(DiagnosticSeverity::Error, "Duplicate field '"@ + fs.last().name@ + "' in struct '"@ + struct_name + "'"@, fs.last().span)]
        } else {
            Seq::empty()
        }
    }
}

/// The errors in the struct declarations of `sites`: a declaration whose
/// scoped name was declared before, else its repeated fields.
pub open spec fn sites_struct_diags(sites: Seq<SiteView>) -> Seq<DiagView>
    decreases sites.len(),
{
    if sites.len() == 0 {
        Seq::empty()
    } else {
        let earlier = sites_structs(sites.drop_last());
        let s = sites.last();
        sites_struct_diags(sites.drop_last()) + match s.2 {
            Object::StructDeclaration(d) => if has_struct_key(earlier, scoped(s.0, d.name@)) {
                seq![(DiagnosticSeverity::Error, "Duplicate struct declaration '"@ + d.name@ + "'"@, d.span)]
            } else {
                field_diags(d.fields@, d.name@)
            },
            _ => Seq::empty(),
        }
    }
}

pub fn find_struct_key(ss: &Vec<StructSymbol>, key: &str) -> (r: bool)
    ensures
        r == has_struct_key(structs_view(ss@), key@),
{
    let ghost v = structs_view(ss@);
    let mut i: usize = 0;
    while i < ss.len()
        invariant
            i <= ss@.len(),
            v == structs_view(ss@),
            forall|k: int| 0 <= k < i ==> (#[trigger] v[k]).0 != key@,
        decreases ss.len() - i,
    {
        assert(v[i as int] == struct_view(ss@[i as int]));
        if str_eq(ss[i].key.as_str(), key) {
            return true;
        }
        i = i + 1;
    }
    false
}

fn has_field_named(fs: &Vec<FieldSymbol>, name: &str) -> (r: bool)
    ensures
        r == has_field(fs@.map_values(|f: FieldSymbol| field_view(f)), name@),
{
    let ghost v = fs@.map_values(|f: FieldSymbol| field_view(f));
    let mut i: usize = 0;
    while i < fs.len()
        invariant
            i <= fs@.len(),
            v == fs@.map_values(|f: FieldSymbol| field_view(f)),
            forall|k: int| 0 <= k < i ==> (#[trigger] v[k]).0 != name@,
        decreases fs.len() - i,
    {
        assert(v[i as int] == field_view(fs@[i as int]));
        if str_eq(fs[i].name.as_str(), name) {
            return true;
        }
        i = i + 1;
    }
    false
}

/// The distinct fields of a declaration, with an error for each repeated
/// field name.
fn declaration_fields(d: &crate::parsed::StructDeclaration, diagnostics: &mut Vec<crate::diagnostic::Diagnostic>) -> (r: Vec<FieldSymbol>)
    ensures
        r@.map_values(|f: FieldSymbol| field_view(f)) == unique_fields(d.fields@),
        diag_views(final(diagnostics)@) == diag_views(old(diagnostics)@) + field_diags(d.fields@, d.name@),
{
    let ghost before = diag_views(diagnostics@);
    let mut out: Vec<FieldSymbol> = Vec::new();
    let mut i: usize = 0;
    assert(out@.map_values(|f: FieldSymbol| field_view(f)) =~= unique_fields(d.fields@.take(0)));
    while i < d.fields.len()
        invariant
            i <= d.fields@.len(),
            out@.map_values(|f: FieldSymbol| field_view(f)) == unique_fields(d.fields@.take(i as int)),
            diag_views(diagnostics@) == before + field_diags(d.fields@.take(i as int), d.name@),
        decreases d.fields.len() - i,
    {
        let field = &d.fields[i];
        assert(d.fields@.take(i + 1).drop_last() =~= d.fields@.take(i as int));
        assert(d.fields@.take(i + 1).last() == *field);
        if has_field_named(&out, field.name.as_str()) {
            let mut message = concat3("Duplicate field '", field.name.as_str(), "' in struct '");
            message.append(d.name.as_str());
            message.append("'");
            let ghost prev = diagnostics@;
            diagnostics.push(crate::diagnostic::Diagnostic::error(field.span.duplicate(), message));
            proof { assert(diag_views(diagnostics@) =~= diag_views(prev).push(diag_view(diagnostics@.last()))); }
        } else {
            let ghost prev = out@;
            out.push(FieldSymbol { name: field.name.clone(), field_type: field.field_type.duplicate() });
            assert(out@.map_values(|f: FieldSymbol| field_view(f)) =~= prev.map_values(|f: FieldSymbol| field_view(f)).push(
                (field.name@, field.field_type),
            ));
        }
        assert(diag_views(diagnostics@) =~= before + field_diags(d.fields@.take(i + 1), d.name@));
        i = i + 1;
    }
    assert(d.fields@.take(d.fields@.len() as int) =~= d.fields@);
    out
}

/// The struct types of `story`, and an error for each repeated struct
/// declaration and repeated field.
pub fn build_struct_index(story: &Story) -> (r: (Vec<StructSymbol>, Vec<crate::diagnostic::Diagnostic>))
    ensures
        structs_view(r.0@) == sites_structs(story_sites(*story)),
        diag_views(r.1@) == sites_struct_diags(story_sites(*story)),
{
    let sites = collect_sites(story);
    let ghost sv = sites_view(sites@);
    let mut out: Vec<StructSymbol> = Vec::new();
    let mut diagnostics: Vec<crate::diagnostic::Diagnostic> = Vec::new();
    let mut k: usize = 0;
    assert(structs_view(out@) =~= sites_structs(sv.take(0)));
    assert(diag_views(diagnostics@) =~= sites_struct_diags(sv.take(0)));
    while k < sites.len()
        invariant
            k <= sites@.len(),
            sv == sites_view(sites@),
            structs_view(out@) == sites_structs(sv.take(k as int)),
            diag_views(diagnostics@) == sites_struct_diags(sv.take(k as int)),
        decreases sites.len() - k,
    {
        let site = &sites[k];
        assert(sv.take(k + 1).drop_last() =~= sv.take(k as int));
        assert(sv.take(k + 1).last() == site_view(*site));
        match site.object {
            Object::StructDeclaration(d) => {
                let key = scoped_name(site.module, d.name.as_str());
                if find_struct_key(&out, key.as_str()) {
                    let message = concat3("Duplicate struct declaration '", d.name.as_str(), "'");
                    let ghost prev = diagnostics@;
                    diagnostics.push(crate::diagnostic::Diagnostic::error(d.span.duplicate(), message));
                    proof { assert(diag_views(diagnostics@) =~= diag_views(prev).push(diag_view(diagnostics@.last()))); }
                } else {
                    let fields = declaration_fields(d, &mut diagnostics);
                    let ghost prev = out@;
                    out.push(StructSymbol { key, fields });
                    assert(structs_view(out@) =~= structs_view(prev).push(struct_view(out@.last())));
                }
            },
            _ => {},
        }
        assert(diag_views(diagnostics@) =~= sites_struct_diags(sv.take(k + 1)));
        k = k + 1;
    }
    assert(sv.take(sv.len() as int) =~= sv);
    (out, diagnostics)
}

pub type EnumView = (Seq<char>, Seq<Seq<char>>);

pub open spec fn enum_view(e: EnumSymbol) -> EnumView {
    (e.key@, e.members@.map_values(|m: String| m@))
}

pub open spec fn enums_view(es: Seq<EnumSymbol>) -> Seq<EnumView> {
    es.map_values(|e: EnumSymbol| enum_view(e))
}

/// The members of a declaration, each name kept at its first occurrence.
pub open spec fn unique_members(ms: Seq<crate::parsed::EnumMember>) -> Seq<Seq<char>>
    decreases ms.len(),
{
    if ms.len() == 0 {
        Seq::empty()
    } else {
        let earlier = unique_members(ms.drop_last());
        if earlier.contains(ms.last().name@) {
            earlier
        } else {
            earlier.push(ms.last().name@)
        }
    }
}

pub open spec fn has_enum_key(es: Seq<EnumView>, key: Seq<char>) -> bool {
    exists|k: int| 0 <= k < es.len() && (#[trigger] es[k]).0 == key
}

/// The enum types declared by `sites`: the first declaration of each
/// scoped name, with its distinct members.
pub open spec fn sites_enums(sites: Seq<SiteView>) -> Seq<EnumView>
    decreases sites.len(),
{
    if sites.len() == 0 {
        Seq::empty()
    } else {
        let earlier = sites_enums(sites.drop_last());
        let s = sites.last();
        match s.2 {
            Object::EnumDeclaration(d) => if has_enum_key(earlier, scoped(s.0, d.name@)) {
                earlier
            } else {
                earlier.push((scoped(s.0, d.name@), unique_members(d.members@)))
            },
            _ => earlier,
        }
    }
}

/// The errors for the repeated members of a declaration named `enum_name`.
pub open spec fn member_diags(ms: Seq<crate::parsed::EnumMember>, enum_name: Seq<char>) -> Seq<DiagView>
    decreases ms.len(),
{
    if ms.len() == 0 {
        Seq::empty()
    } else {
        member_diags(ms.drop_last(), enum_name) + if unique_members(ms.drop_last()).contains(ms.last().name@) {
            seq![(DiagnosticSeverity::Error, "Duplicate member '"@ + ms.last().name@ + "' in enum '"@ + enum_name + "'"@, ms.last().span)]
        } else {
            Seq::empty()
        }
    }
}

/// The errors of one enum declaration: no members, or repeated members.
pub open spec fn declaration_member_diags(d: crate::parsed::EnumDeclaration) -> Seq<DiagView> {
    (if d.members@.len() == 0 {
        seq![(DiagnosticSeverity::Error, "Enum '"@ + d.name@ + "' must declare at least one member"@, d.span)]
    } else {
        Seq::empty()
    }) + member_diags(d.members@, d.name@)
}

/// The errors in the enum declarations of `sites`: a declaration whose
/// scoped name was declared before, else its own errors.
pub open spec fn sites_enum_diags(sites: Seq<SiteView>) -> Seq<DiagView>
    decreases sites.len(),
{
    if sites.len() == 0 {
        Seq::empty()
    } else {
        let earlier = sites_enums(sites.drop_last());
        let s = sites.last();
        sites_enum_diags(sites.drop_last()) + match s.2 {
            Object::EnumDeclaration(d) => if has_enum_key(earlier, scoped(s.0, d.name@)) {
                seq![(DiagnosticSeverity::Error, "Duplicate enum declaration '"@ + d.name@ + "'"@, d.span)]
            } else {
                declaration_member_diags(d)
            },
            _ => Seq::empty(),
        }
    }
}

/// No two enum types of `sites` have the same scoped name.
pub proof fn lemma_enum_keys_distinct(sites: Seq<SiteView>)
    ensures
        forall|a: int, b: int| 0 <= a < b < sites_enums(sites).len() ==> (#[trigger] sites_enums(sites)[a]).0 != (#[trigger] sites_enums(sites)[b]).0,
    decreases sites.len(),
{
    if sites.len() > 0 {
        lemma_enum_keys_distinct(sites.drop_last());
        let earlier = sites_enums(sites.drop_last());
        let now = sites_enums(sites);
        assert forall|a: int, b: int| 0 <= a < b < now.len() implies (#[trigger] now[a]).0 != (#[trigger] now[b]).0 by {
            if b == earlier.len() {
                assert(now[a] == earlier[a]);
                if now[a].0 == now[b].0 {
                    assert(has_enum_key(earlier, now[b].0));
                }
            } else {
                assert(now[a] == earlier[a] && now[b] == earlier[b]);
            }
        }
    }
}

/// The enum types of a prefix of `sites` begin those of `sites`.
pub proof fn lemma_enums_prefix(sites: Seq<SiteView>, n: int)
    requires
        0 <= n <= sites.len(),
    ensures
        sites_enums(sites.take(n)).len() <= sites_enums(sites).len(),
        forall|k: int| 0 <= k < sites_enums(sites.take(n)).len() ==> #[trigger] sites_enums(sites)[k] == sites_enums(sites.take(n))[k],
    decreases sites.len() - n,
{
    if n == sites.len() {
        assert(sites.take(n) =~= sites);
    } else {
        lemma_enums_prefix(sites, n + 1);
        assert(sites.take(n + 1).drop_last() =~= sites.take(n));
    }
}

/// An enum declaration whose scoped name was not declared before is kept,
/// as the one type of that name, with its members in order and their
/// repeats dropped, and reports only its own errors; a later declaration of
/// the same name reports `Duplicate enum declaration` and changes nothing.
pub proof fn law_first_enum_declaration_wins(sites: Seq<SiteView>, j: int)
    requires
        0 <= j < sites.len(),
        sites[j].2 is EnumDeclaration,
    ensures
        ({
            let d = sites[j].2->EnumDeclaration_0;
            let key = scoped(sites[j].0, d.name@);
            let before = sites_enums(sites.take(j));
            &&& sites_enum_diags(sites.take(j + 1)) == sites_enum_diags(sites.take(j)) + if has_enum_key(before, key) {
                seq![(DiagnosticSeverity::Error, "Duplicate enum declaration '"@ + d.name@ + "'"@, d.span)]
            } else {
                declaration_member_diags(d)
            }
            &&& !has_enum_key(before, key) ==> forall|k: int| 0 <= k < sites_enums(sites).len() && (#[trigger] sites_enums(sites)[k]).0 == key
                ==> sites_enums(sites)[k] == (key, unique_members(d.members@))
            &&& has_enum_key(sites_enums(sites), key)
        }),
{
    let d = sites[j].2->EnumDeclaration_0;
    let key = scoped(sites[j].0, d.name@);
    let before = sites_enums(sites.take(j));
    assert(sites.take(j + 1).drop_last() =~= sites.take(j));
    assert(sites.take(j + 1).last() == sites[j]);
    lemma_enums_prefix(sites, j + 1);
    lemma_enum_keys_distinct(sites);
    let mid = sites_enums(sites.take(j + 1));
    if !has_enum_key(before, key) {
        assert(mid[before.len() as int] == (key, unique_members(d.members@)));
        assert(sites_enums(sites)[before.len() as int] == (key, unique_members(d.members@)));
        assert forall|k: int| 0 <= k < sites_enums(sites).len() && (#[trigger] sites_enums(sites)[k]).0 == key implies sites_enums(
            sites,
        )[k] == (key, unique_members(d.members@)) by {
            let b = before.len() as int;
            if k < b {
                assert(sites_enums(sites)[k].0 != sites_enums(sites)[b].0);
            } else if k > b {
                assert(sites_enums(sites)[b].0 != sites_enums(sites)[k].0);
            }
        }
        assert(has_enum_key(sites_enums(sites), key));
    } else {
        let k = choose|k: int| 0 <= k < before.len() && (#[trigger] before[k]).0 == key;
        lemma_enums_prefix(sites, j);
        assert(sites_enums(sites)[k] == before[k]);
        assert(has_enum_key(sites_enums(sites), key));
    }
}

/// The member names kept are those of the members, once each, and the
/// `Duplicate member` errors are one for each member whose name an earlier
/// member has.
proof fn lemma_member_repeats(ms: Seq<crate::parsed::EnumMember>, enum_name: Seq<char>)
    ensures
        member_diags(ms, enum_name).len() + unique_members(ms).len() == ms.len(),
        unique_members(ms).no_duplicates(),
        forall|n: Seq<char>| #[trigger] unique_members(ms).contains(n) <==> exists|j: int| 0 <= j < ms.len() && (#[trigger] ms[j]).name@ == n,
    decreases ms.len(),
{
    if ms.len() > 0 {
        let e = ms.drop_last();
        lemma_member_repeats(e, enum_name);
        let prev = unique_members(e);
        let last = ms.last();
        let now = unique_members(ms);
        assert forall|n: Seq<char>| #[trigger] now.contains(n) <==> exists|j: int| 0 <= j < ms.len() && (#[trigger] ms[j]).name@ == n by {
            if now.contains(n) {
                let i = choose|i: int| 0 <= i < now.len() && now[i] == n;
                if i < prev.len() {
                    assert(prev.contains(n));
                    let j = choose|j: int| 0 <= j < e.len() && (#[trigger] e[j]).name@ == n;
                    assert(ms[j] == e[j]);
                } else {
                    assert(ms[ms.len() - 1] == last);
                }
            }
            if exists|j: int| 0 <= j < ms.len() && (#[trigger] ms[j]).name@ == n {
                let j = choose|j: int| 0 <= j < ms.len() && (#[trigger] ms[j]).name@ == n;
                if j < ms.len() - 1 {
                    assert(e[j] == ms[j]);
                    assert(prev.contains(n));
                    let i = choose|i: int| 0 <= i < prev.len() && prev[i] == n;
                    assert(now[i] == n);
                } else if !prev.contains(n) {
                    assert(now[prev.len() as int] == n);
                }
            }
        }
        if !prev.contains(last.name@) {
            assert forall|x: int, y: int| 0 <= x < now.len() && 0 <= y < now.len() && x != y implies now[x] != now[y] by {
                if x < prev.len() && y < prev.len() {
                } else if x < prev.len() {
                    assert(prev.contains(now[x]));
                } else {
                    assert(prev.contains(now[y]));
                }
            }
        }
    }
}

/// The errors of one enum declaration: one when it declares no member, and
/// one `Duplicate member` for each member whose name an earlier member of it
/// has, in order; so as many of these as members less distinct names.
pub proof fn law_enum_declaration_errors(d: crate::parsed::EnumDeclaration)
    ensures
        declaration_member_diags(d).len() == (if d.members@.len() == 0 { 1int } else { 0int }) + d.members@.len()
            - unique_members(d.members@).len(),
        unique_members(d.members@).no_duplicates(),
        forall|i: int| 0 <= i < d.members@.len() ==> member_diags(#[trigger] d.members@.take(i + 1), d.name@) == member_diags(
            d.members@.take(i),
            d.name@,
        ) + if exists|j: int| 0 <= j < i && (#[trigger] d.members@[j]).name@ == d.members@[i].name@ {
            seq![(DiagnosticSeverity::Error, "Duplicate member '"@ + d.members@[i].name@ + "' in enum '"@ + d.name@ + "'"@, d.members@[i].span)]
        } else {
            Seq::empty()
        },
{
    lemma_member_repeats(d.members@, d.name@);
    let ms = d.members@;
    assert forall|i: int| 0 <= i < ms.len() implies member_diags(#[trigger] ms.take(i + 1), d.name@) == member_diags(ms.take(i), d.name@)
        + if exists|j: int| 0 <= j < i && (#[trigger] ms[j]).name@ == ms[i].name@ {
        seq![(DiagnosticSeverity::Error, "Duplicate member '"@ + ms[i].name@ + "' in enum '"@ + d.name@ + "'"@, ms[i].span)]
    } else {
        Seq::empty()
    } by {
        assert(ms.take(i + 1).drop_last() =~= ms.take(i));
        assert(ms.take(i + 1).last() == ms[i]);
        lemma_member_repeats(ms.take(i), d.name@);
        if exists|j: int| 0 <= j < i && (#[trigger] ms[j]).name@ == ms[i].name@ {
            let j = choose|j: int| 0 <= j < i && (#[trigger] ms[j]).name@ == ms[i].name@;
            assert(ms.take(i)[j] == ms[j]);
        }
        if unique_members(ms.take(i)).contains(ms[i].name@) {
            let j = choose|j: int| 0 <= j < ms.take(i).len() && (#[trigger] ms.take(i)[j]).name@ == ms[i].name@;
            assert(ms.take(i)[j] == ms[j]);
        }
    }
}

pub fn find_enum_key(es: &Vec<EnumSymbol>, key: &str) -> (r: bool)
    ensures
        r == has_enum_key(enums_view(es@), key@),
{
    let ghost v = enums_view(es@);
    let mut i: usize = 0;
    while i < es.len()
        invariant
            i <= es@.len(),
            v == enums_view(es@),
            forall|k: int| 0 <= k < i ==> (#[trigger] v[k]).0 != key@,
        decreases es.len() - i,
    {
        assert(v[i as int] == enum_view(es@[i as int]));
        if str_eq(es[i].key.as_str(), key) {
            return true;
        }
        i = i + 1;
    }
    false
}

fn has_member_named(ms: &Vec<String>, name: &str) -> (r: bool)
    ensures
        r == ms@.map_values(|m: String| m@).contains(name@),
{
    let ghost v = ms@.map_values(|m: String| m@);
    let mut i: usize = 0;
    while i < ms.len()
        invariant
            i <= ms@.len(),
            v == ms@.map_values(|m: String| m@),
            forall|k: int| 0 <= k < i ==> v[k] != name@,
        decreases ms.len() - i,
    {
        if str_eq(ms[i].as_str(), name) {
            assert(v[i as int] == name@);
            return true;
        }
        i = i + 1;
    }
    false
}

/// The distinct members of a declaration, with an error for each repeated
/// member and for a declaration without members.
fn declaration_members(d: &crate::parsed::EnumDeclaration, diagnostics: &mut Vec<crate::diagnostic::Diagnostic>) -> (r: Vec<String>)
    ensures
        r@.map_values(|m: String| m@) == unique_members(d.members@),
        diag_views(final(diagnostics)@) == diag_views(old(diagnostics)@) + declaration_member_diags(*d),
{
    let ghost start = diag_views(diagnostics@);
    if d.members.len() == 0 {
        let message = concat3("Enum '", d.name.as_str(), "' must declare at least one member");
        let ghost prev = diagnostics@;
        diagnostics.push(crate::diagnostic::Diagnostic::error(d.span.duplicate(), message));
        proof { assert(diag_views(diagnostics@) =~= diag_views(prev).push(diag_view(diagnostics@.last()))); }
    }
    let ghost before = diag_views(diagnostics@);
    let mut out: Vec<String> = Vec::new();
    let mut i: usize = 0;
    assert(out@.map_values(|m: String| m@) =~= unique_members(d.members@.take(0)));
    while i < d.members.len()
        invariant
            i <= d.members@.len(),
            out@.map_values(|m: String| m@) == unique_members(d.members@.take(i as int)),
            diag_views(diagnostics@) == before + member_diags(d.members@.take(i as int), d.name@),
        decreases d.members.len() - i,
    {
        let member = &d.members[i];
        assert(d.members@.take(i + 1).drop_last() =~= d.members@.take(i as int));
        assert(d.members@.take(i + 1).last() == *member);
        if has_member_named(&out, member.name.as_str()) {
            let mut message = concat3("Duplicate member '", member.name.as_str(), "' in enum '");
            message.append(d.name.as_str());
            message.append("'");
            let ghost prev = diagnostics@;
            diagnostics.push(crate::diagnostic::Diagnostic::error(member.span.duplicate(), message));
            proof { assert(diag_views(diagnostics@) =~= diag_views(prev).push(diag_view(diagnostics@.last()))); }
        } else {
            let ghost prev = out@;
            out.push(member.name.clone());
            assert(out@.map_values(|m: String| m@) =~= prev.map_values(|m: String| m@).push(member.name@));
        }
        assert(diag_views(diagnostics@) =~= before + member_diags(d.members@.take(i + 1), d.name@));
        i = i + 1;
    }
    assert(d.members@.take(d.members@.len() as int) =~= d.members@);
    assert(diag_views(diagnostics@) =~= start + declaration_member_diags(*d));
    out
}

/// The enum types of `story`, and an error for each repeated enum
/// declaration, repeated member and enum without members.
pub fn build_enum_index(story: &Story) -> (r: (Vec<EnumSymbol>, Vec<crate::diagnostic::Diagnostic>))
    ensures
        enums_view(r.0@) == sites_enums(story_sites(*story)),
        diag_views(r.1@) == sites_enum_diags(story_sites(*story)),
{
    let sites = collect_sites(story);
    let ghost sv = sites_view(sites@);
    let mut out: Vec<EnumSymbol> = Vec::new();
    let mut diagnostics: Vec<crate::diagnostic::Diagnostic> = Vec::new();
    let mut k: usize = 0;
    assert(enums_view(out@) =~= sites_enums(sv.take(0)));
    assert(diag_views(diagnostics@) =~= sites_enum_diags(sv.take(0)));
    while k < sites.len()
        invariant
            k <= sites@.len(),
            sv == sites_view(sites@),
            enums_view(out@) == sites_enums(sv.take(k as int)),
            diag_views(diagnostics@) == sites_enum_diags(sv.take(k as int)),
        decreases sites.len() - k,
    {
        let site = &sites[k];
        assert(sv.take(k + 1).drop_last() =~= sv.take(k as int));
        assert(sv.take(k + 1).last() == site_view(*site));
        match site.object {
            Object::EnumDeclaration(d) => {
                let key = scoped_name(site.module, d.name.as_str());
                if find_enum_key(&out, key.as_str()) {
                    let message = concat3("Duplicate enum declaration '", d.name.as_str(), "'");
                    let ghost prev = diagnostics@;
                    diagnostics.push(crate::diagnostic::Diagnostic::error(d.span.duplicate(), message));
                    proof { assert(diag_views(diagnostics@) =~= diag_views(prev).push(diag_view(diagnostics@.last()))); }
                } else {
                    let members = declaration_members(d, &mut diagnostics);
                    let ghost prev = out@;
                    out.push(EnumSymbol { key, members });
                    assert(enums_view(out@) =~= enums_view(prev).push(enum_view(out@.last())));
                }
            },
            _ => {},
        }
        assert(diag_views(diagnostics@) =~= sites_enum_diags(sv.take(k + 1)));
        k = k + 1;
    }
    assert(sv.take(sv.len() as int) =~= sv);
    (out, diagnostics)
}

pub type ParamView = (Seq<char>, Option<TypeName>);

pub type TargetView = (Seq<char>, bool, Seq<ParamView>, TypeName, bool);

pub open spec fn param_view(p: ParameterSymbol) -> ParamView {
    (p.name@, p.declared_type)
}

pub open spec fn target_view(t: TargetSymbol) -> TargetView {
    (t.key@, t.is_function, t.parameters@.map_values(|p: ParameterSymbol| param_view(p)), t.return_type, t.has_typed_signature)
}

pub open spec fn targets_view(ts: Seq<TargetSymbol>) -> Seq<TargetView> {
    ts.map_values(|t: TargetSymbol| target_view(t))
}

pub open spec fn has_target_key(ts: Seq<TargetView>, key: Seq<char>) -> bool {
    exists|k: int| 0 <= k < ts.len() && (#[trigger] ts[k]).0 == key
}

/// Adds `t` unless its key is already taken.
pub open spec fn insert_target(ts: Seq<TargetView>, t: TargetView) -> Seq<TargetView> {
    if has_target_key(ts, t.0) {
        ts
    } else {
        ts.push(t)
    }
}

pub open spec fn flow_params(args: Seq<FlowArgument>) -> Seq<ParamView> {
    args.map_values(|a: FlowArgument| (a.name@, a.declared_type))
}

/// The target of the flow at a flow site.
pub open spec fn flow_target(s: FlowSiteView) -> TargetView {
    (scoped(s.0, s.1), s.3.is_function, flow_params(s.3.arguments@), s.3.return_type, s.3.has_typed_signature)
}

pub open spec fn flows_targets(fs: Seq<FlowSiteView>) -> Seq<TargetView>
    decreases fs.len(),
{
    if fs.len() == 0 {
        Seq::empty()
    } else {
        insert_target(flows_targets(fs.drop_last()), flow_target(fs.last()))
    }
}

pub open spec fn external_params(names: Seq<String>, types: Seq<TypeName>) -> Seq<ParamView> {
    Seq::new(if names.len() < types.len() { names.len() } else { types.len() }, |i: int| (names[i]@, Some(types[i])))
}

pub open spec fn label_target(key: Seq<char>) -> TargetView {
    (key, false, Seq::empty(), TypeName::Void, false)
}

/// The labels a site declares: a named choice or gather, under its own
/// name and under its flow's path.
pub open spec fn site_label_targets(ts: Seq<TargetView>, s: SiteView) -> Seq<TargetView> {
    let id = match s.2 {
        Object::Choice(c) => c.identifier,
        Object::Gather(g) => g.identifier,
        _ => None,
    };
    match id {
        Some(id) => {
            let first = insert_target(ts, label_target(scoped(s.0, id@)));
            match s.1 {
                Some(p) => insert_target(first, label_target(scoped(s.0, p + "."@ + id@))),
                None => first,
            }
        },
        None => ts,
    }
}

pub open spec fn site_external_targets(ts: Seq<TargetView>, s: SiteView) -> Seq<TargetView> {
    match s.2 {
        Object::ExternalDeclaration(e) => insert_target(
            ts,
            (scoped(s.0, e.name@), true, external_params(e.argument_names@, e.argument_types@), e.return_type, true),
        ),
        _ => ts,
    }
}

pub open spec fn sites_external_targets(ts: Seq<TargetView>, ss: Seq<SiteView>) -> Seq<TargetView>
    decreases ss.len(),
{
    if ss.len() == 0 {
        ts
    } else {
        site_external_targets(sites_external_targets(ts, ss.drop_last()), ss.last())
    }
}

pub open spec fn sites_label_targets(ts: Seq<TargetView>, ss: Seq<SiteView>) -> Seq<TargetView>
    decreases ss.len(),
{
    if ss.len() == 0 {
        ts
    } else {
        site_label_targets(sites_label_targets(ts, ss.drop_last()), ss.last())
    }
}

/// Every call target of the story: flows, then external functions, then
/// labels; the first of each key is kept.
pub open spec fn story_targets(story: Story) -> Seq<TargetView> {
    sites_label_targets(sites_external_targets(flows_targets(story_flows(story)), story_sites(story)), story_sites(story))
}

fn find_target_key(ts: &Vec<TargetSymbol>, key: &str) -> (r: bool)
    ensures
        r == has_target_key(targets_view(ts@), key@),
{
    let ghost v = targets_view(ts@);
    let mut i: usize = 0;
    while i < ts.len()
        invariant
            i <= ts@.len(),
            v == targets_view(ts@),
            forall|k: int| 0 <= k < i ==> (#[trigger] v[k]).0 != key@,
        decreases ts.len() - i,
    {
        assert(v[i as int] == target_view(ts@[i as int]));
        if str_eq(ts[i].key.as_str(), key) {
            return true;
        }
        i = i + 1;
    }
    false
}

fn add_target(ts: &mut Vec<TargetSymbol>, t: TargetSymbol)
    ensures
        targets_view(final(ts)@) == insert_target(targets_view(old(ts)@), target_view(t)),
{
    if !find_target_key(ts, t.key.as_str()) {
        let ghost prev = ts@;
        ts.push(t);
        assert(targets_view(ts@) =~= targets_view(prev).push(target_view(t)));
    }
}

fn flow_parameters(args: &Vec<FlowArgument>) -> (r: Vec<ParameterSymbol>)
    ensures
        r@.map_values(|p: ParameterSymbol| param_view(p)) == flow_params(args@),
{
    let mut out: Vec<ParameterSymbol> = Vec::new();
    let mut i: usize = 0;
    while i < args.len()
        invariant
            i <= args@.len(),
            out@.len() == i,
            out@.map_values(|p: ParameterSymbol| param_view(p)) == flow_params(args@.take(i as int)),
        decreases args.len() - i,
    {
        let ghost prev = out@;
        out.push(ParameterSymbol { name: args[i].name.clone(), declared_type: copy_type(&args[i].declared_type) });
        proof {
            let a = out@.map_values(|p: ParameterSymbol| param_view(p));
            let b = flow_params(args@.take(i + 1));
            let c = flow_params(args@.take(i as int));
            assert(a.len() == b.len());
            assert forall|x: int| 0 <= x < a.len() implies a[x] == b[x] by {
                if x < i {
                    assert(out@[x] == prev[x]);
                    assert(a[x] == prev.map_values(|p: ParameterSymbol| param_view(p))[x]);
                    assert(c[x] == b[x]);
                } else {
                    assert(args@.take(i + 1)[x] == args@[i as int]);
                }
            }
            assert(a =~= b);
        }
        i = i + 1;
    }
    assert(args@.take(args@.len() as int) =~= args@);
    out
}

fn external_parameters(names: &Vec<String>, types: &Vec<TypeName>) -> (r: Vec<ParameterSymbol>)
    ensures
        r@.map_values(|p: ParameterSymbol| param_view(p)) == external_params(names@, types@),
{
    let n: usize = if names.len() < types.len() { names.len() } else { types.len() };
    let mut out: Vec<ParameterSymbol> = Vec::new();
    let mut i: usize = 0;
    while i < n
        invariant
            i <= n,
            n <= names@.len(),
            n <= types@.len(),
            n == (if names@.len() < types@.len() { names@.len() } else { types@.len() }),
            out@.len() == i,
            out@.map_values(|p: ParameterSymbol| param_view(p)) == external_params(names@, types@).take(i as int),
        decreases n - i,
    {
        let ghost prev = out@;
        out.push(ParameterSymbol { name: names[i].clone(), declared_type: Some(types[i].duplicate()) });
        proof {
            let a = out@.map_values(|p: ParameterSymbol| param_view(p));
            let b = external_params(names@, types@).take(i + 1);
            let c = external_params(names@, types@).take(i as int);
            assert(a.len() == b.len());
            assert forall|x: int| 0 <= x < a.len() implies a[x] == b[x] by {
                if x < i {
                    assert(out@[x] == prev[x]);
                    assert(a[x] == prev.map_values(|p: ParameterSymbol| param_view(p))[x]);
                    assert(c[x] == b[x]);
                }
            }
            assert(a =~= b);
        }
        i = i + 1;
    }
    assert(external_params(names@, types@).take(n as int) =~= external_params(names@, types@));
    out
}

fn label_symbol(key: String) -> (r: TargetSymbol)
    ensures
        target_view(r) == label_target(key@),
{
    let r = TargetSymbol { key, is_function: false, parameters: Vec::new(), return_type: TypeName::Void, has_typed_signature: false };
    assert(r.parameters@.map_values(|p: ParameterSymbol| param_view(p)) =~= Seq::<ParamView>::empty());
    r
}

/// Every call target of `story`.
pub fn build_target_index(story: &Story) -> (r: Vec<TargetSymbol>)
    ensures
        targets_view(r@) == story_targets(*story),
{
    let flows = collect_flows(story);
    let ghost fv = flow_sites_view(flows@);
    let mut out: Vec<TargetSymbol> = Vec::new();
    let mut i: usize = 0;
    assert(targets_view(out@) =~= flows_targets(fv.take(0)));
    while i < flows.len()
        invariant
            i <= flows@.len(),
            fv == flow_sites_view(flows@),
            targets_view(out@) == flows_targets(fv.take(i as int)),
        decreases flows.len() - i,
    {
        let fl = &flows[i];
        assert(fv.take(i + 1).drop_last() =~= fv.take(i as int));
        assert(fv.take(i + 1).last() == flow_site_view(*fl));
        let key = scoped_name(fl.module, fl.path.as_str());
        let t = TargetSymbol {
            key,
            is_function: fl.flow.is_function,
            parameters: flow_parameters(&fl.flow.arguments),
            return_type: fl.flow.return_type.duplicate(),
            has_typed_signature: fl.flow.has_typed_signature,
        };
        add_target(&mut out, t);
        i = i + 1;
    }
    assert(fv.take(fv.len() as int) =~= fv);
    let ghost after_flows = targets_view(out@);
    let sites = collect_sites(story);
    let ghost sv = sites_view(sites@);
    let mut k: usize = 0;
    while k < sites.len()
        invariant
            k <= sites@.len(),
            sv == sites_view(sites@),
            targets_view(out@) == sites_external_targets(after_flows, sv.take(k as int)),
        decreases sites.len() - k,
    {
        let site = &sites[k];
        assert(sv.take(k + 1).drop_last() =~= sv.take(k as int));
        assert(sv.take(k + 1).last() == site_view(*site));
        match site.object {
            Object::ExternalDeclaration(e) => {
                let t = TargetSymbol {
                    key: scoped_name(site.module, e.name.as_str()),
                    is_function: true,
                    parameters: external_parameters(&e.argument_names, &e.argument_types),
                    return_type: e.return_type.duplicate(),
                    has_typed_signature: true,
                };
                add_target(&mut out, t);
            },
            _ => {},
        }
        k = k + 1;
    }
    assert(sv.take(sv.len() as int) =~= sv);
    let ghost after_externals = targets_view(out@);
    let mut k: usize = 0;
    while k < sites.len()
        invariant
            k <= sites@.len(),
            sv == sites_view(sites@),
            targets_view(out@) == sites_label_targets(after_externals, sv.take(k as int)),
        decreases sites.len() - k,
    {
        let site = &sites[k];
        assert(sv.take(k + 1).drop_last() =~= sv.take(k as int));
        assert(sv.take(k + 1).last() == site_view(*site));
        let id = match site.object {
            Object::Choice(c) => &c.identifier,
            Object::Gather(g) => &g.identifier,
            _ => &None,
        };
        match id {
            Some(id) => {
                add_target(&mut out, label_symbol(scoped_name(site.module, id.as_str())));
                match &site.flow {
                    Some(p) => {
                        let path = concat3(p.as_str(), ".", id.as_str());
                        add_target(&mut out, label_symbol(scoped_name(site.module, path.as_str())));
                    },
                    None => {},
                }
            },
            None => {},
        }
        k = k + 1;
    }
    assert(sv.take(sv.len() as int) =~= sv);
    out
}

} // verus!
