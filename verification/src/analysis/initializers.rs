//! Initializers of variables and constants have their declared types.
use vstd::prelude::*;

use crate::analysis::inference::{display, infer, infer_expression_type, result_matches, view_display, TypeError};
use crate::analysis::sites::{collect_sites, opt_str_view, opt_string_view, site_view, sites_view, story_sites, Site, SiteView};
use crate::analysis::structs::{build_type_index, is_index_of};
use crate::analysis::types::{find_enum, first_enum, has_double_colon, scoped, scoped_name, TypeIndex};
use crate::diagnostic::{diag_views, DiagView, Diagnostic, DiagnosticSeverity};
use crate::parsed::{AssignmentKind, Object, PrimitiveType, Story, TypeName, TypeView};
use crate::text::concat3;

verus! {

/// Whether a declared type names an enum of the index, read in module `m`.
pub open spec fn names_enum(t: TypeName, idx: TypeIndex, m: Option<Seq<char>>) -> bool {
    match t {
        TypeName::Struct(n) => first_enum(idx.enums@, scoped(m, n@)) is Some,
        TypeName::QualifiedStruct(q) => first_enum(idx.enums@, q.module@ + "::"@ + q.symbol@) is Some,
        _ => false,
    }
}

pub fn is_enum_type(t: &TypeName, idx: &TypeIndex, m: Option<&str>) -> (r: bool)
    ensures
        r == names_enum(*t, *idx, opt_str_view(m)),
{
    match t {
        TypeName::Struct(n) => {
            let key = scoped_name(m, n.as_str());
            find_enum(&idx.enums, key.as_str()).is_some()
        },
        TypeName::QualifiedStruct(q) => {
            let key = concat3(q.module.as_str(), "::", q.symbol.as_str());
            find_enum(&idx.enums, key.as_str()).is_some()
        },
        _ => false,
    }
}

/// Whether a value of the type exists without an initializer: every type
/// but a divert target and `void`.
pub open spec fn has_default(t: TypeView) -> bool {
    t != TypeView::Primitive(PrimitiveType::DivertTarget) && t != TypeView::Void
}

pub open spec fn is_primitive_view(t: TypeView) -> bool {
    t is Primitive
}

/// The error for a declaration of `what` (`variable` or `constant`) named
/// `name` with type `declared` whose initializer infers to `inferred`.
pub open spec fn initializer_error(
    what: Seq<char>,
    name: Seq<char>,
    declared: TypeName,
    inferred: Result<TypeView, Seq<char>>,
    idx: TypeIndex,
    m: Option<Seq<char>>,
) -> Option<Seq<char>> {
    match inferred {
        Ok(actual) => if actual == declared.type_view() {
            None
        } else {
            Some(
                "Initializer for "@ + what + " '"@ + name + "' has type "@ + view_display(actual) + " but declared type is "@
                    + view_display(declared.type_view()),
            )
        },
        Err(x) => if is_primitive_view(declared.type_view()) || names_enum(declared, idx, m) {
            Some("Cannot type-check initializer for "@ + what + " '"@ + name + "': "@ + x)
        } else {
            None
        },
    }
}

/// The errors of one site: a typed `VAR` or `temp` with a wrong
/// initializer or without one where its type has no default, or a `CONST`
/// with a wrong initializer.
pub open spec fn initializer_check(s: SiteView, idx: TypeIndex) -> Seq<DiagView> {
    match s.2 {
        Object::VariableAssignment(a) => if a.kind == AssignmentKind::Assign {
            Seq::empty()
        } else {
            match a.declared_type {
                None => Seq::empty(),
                Some(t) => match a.expression {
                    None => if has_default(t.type_view()) {
                        Seq::empty()
                    } else {
                        seq![
                            (DiagnosticSeverity::Error, "Variable '"@ + a.name@ + "' of type "@ + view_display(t.type_view())
                                + " cannot be default-initialized"@, a.span),
                        ]
                    },
                    Some(e) => match initializer_error("variable"@, a.name@, t, infer(e, idx, s.0, s.1), idx, s.0) {
                        Some(msg) => seq![(DiagnosticSeverity::Error, msg, a.span)],
                        None => Seq::empty(),
                    },
                },
            }
        },
        Object::ConstantDeclaration(d) => match initializer_error(
            "constant"@,
            d.name@,
            d.declared_type,
            infer(d.expression, idx, s.0, s.1),
            idx,
            s.0,
        ) {
            Some(msg) => seq![(DiagnosticSeverity::Error, msg, d.span)],
            None => Seq::empty(),
        },
        _ => Seq::empty(),
    }
}

pub open spec fn initializer_checks(ss: Seq<SiteView>, idx: TypeIndex) -> Seq<DiagView>
    decreases ss.len(),
{
    if ss.len() == 0 {
        Seq::empty()
    } else {
        initializer_checks(ss.drop_last(), idx) + initializer_check(ss.last(), idx)
    }
}

fn initializer_message(what: &str, name: &str, declared: &TypeName, inferred: Result<TypeName, TypeError>, idx: &TypeIndex, m: Option<&str>) -> (r: Option<String>)
    requires
        inferred is Ok || inferred is Err,
    ensures
        forall|s: Result<TypeView, Seq<char>>| #[trigger] result_matches(inferred, s) ==> match r {
            Some(x) => initializer_error(what@, name@, *declared, s, *idx, opt_str_view(m)) == Some(x@),
            None => initializer_error(what@, name@, *declared, s, *idx, opt_str_view(m)) is None,
        },
{
    match inferred {
        Ok(actual) => {
            if actual.same_as(declared) {
                None
            } else {
                let mut msg = concat3("Initializer for ", what, " '");
                msg.append(name);
                msg.append("' has type ");
                let a = display(&actual);
                msg.append(a.as_str());
                msg.append(" but declared type is ");
                let d = display(declared);
                msg.append(d.as_str());
                Some(msg)
            }
        },
        Err(x) => {
            let primitive = match declared {
                TypeName::Primitive(_) => true,
                _ => false,
            };
            if primitive || is_enum_type(declared, idx, m) {
                let mut msg = concat3("Cannot type-check initializer for ", what, " '");
                msg.append(name);
                msg.append("': ");
                msg.append(x.message.as_str());
                Some(msg)
            } else {
                None
            }
        },
    }
}

pub fn check_site(s: &Site, idx: &TypeIndex, out: &mut Vec<Diagnostic>)
    ensures
        diag_views(final(out)@) == diag_views(old(out)@) + initializer_check(site_view(*s), *idx),
{
    let ghost before = out@;
    let m = s.module;
    let f: Option<&str> = match &s.flow {
        Some(p) => Some(p.as_str()),
        None => None,
    };
    assert(opt_str_view(f) == opt_string_view(s.flow));
    match s.object {
        Object::VariableAssignment(a) => {
            if a.kind == AssignmentKind::Assign {
                assert(diag_views(out@) =~= diag_views(before) + initializer_check(site_view(*s), *idx));
                return;
            }
            match &a.declared_type {
                None => {
                    assert(diag_views(out@) =~= diag_views(before) + initializer_check(site_view(*s), *idx));
                },
                Some(t) => match &a.expression {
                    None => {
                        let defaultable = match t {
                            TypeName::Primitive(PrimitiveType::DivertTarget) => false,
                            TypeName::Void => false,
                            _ => true,
                        };
                        if !defaultable {
                            let mut msg = concat3("Variable '", a.name.as_str(), "' of type ");
                            let d = display(t);
                            msg.append(d.as_str());
                            msg.append(" cannot be default-initialized");
                            out.push(Diagnostic::error(a.span.duplicate(), msg));
                        }
                        assert(diag_views(out@) =~= diag_views(before) + initializer_check(site_view(*s), *idx));
                    },
                    Some(e) => {
                        let inferred = infer_expression_type(e, idx, m, f);
                        let ghost spec_result = infer(*e, *idx, opt_str_view(m), opt_str_view(f));
                        assert(result_matches(inferred, spec_result));
                        match initializer_message("variable", a.name.as_str(), t, inferred, idx, m) {
                            Some(msg) => {
                                proof { reveal_strlit("variable"); }
                                out.push(Diagnostic::error(a.span.duplicate(), msg));
                            },
                            None => {
                                proof { reveal_strlit("variable"); }
                            },
                        }
                        assert(diag_views(out@) =~= diag_views(before) + initializer_check(site_view(*s), *idx));
                    },
                },
            }
        },
        Object::ConstantDeclaration(d) => {
            let inferred = infer_expression_type(&d.expression, idx, m, f);
            let ghost spec_result = infer(d.expression, *idx, opt_str_view(m), opt_str_view(f));
            assert(result_matches(inferred, spec_result));
            match initializer_message("constant", d.name.as_str(), &d.declared_type, inferred, idx, m) {
                Some(msg) => {
                    proof { reveal_strlit("constant"); }
                    out.push(Diagnostic::error(d.span.duplicate(), msg));
                },
                None => {
                    proof { reveal_strlit("constant"); }
                },
            }
            assert(diag_views(out@) =~= diag_views(before) + initializer_check(site_view(*s), *idx));
        },
        _ => {
            assert(diag_views(out@) =~= diag_views(before) + initializer_check(site_view(*s), *idx));
        },
    }
}

/// The initializer errors of `story` against the index `idx`, in reading
/// order.
pub fn initializer_diagnostics_with_index(story: &Story, idx: &TypeIndex) -> (r: Vec<Diagnostic>)
    ensures
        diag_views(r@) == initializer_checks(story_sites(*story), *idx),
{
    let sites = collect_sites(story);
    let ghost sv = sites_view(sites@);
    let mut out: Vec<Diagnostic> = Vec::new();
    let mut k: usize = 0;
    assert(diag_views(out@) =~= initializer_checks(sv.take(0), *idx));
    while k < sites.len()
        invariant
            k <= sites@.len(),
            sv == sites_view(sites@),
            diag_views(out@) == initializer_checks(sv.take(k as int), *idx),
        decreases sites.len() - k,
    {
        assert(sv.take(k + 1).drop_last() =~= sv.take(k as int));
        assert(sv.take(k + 1).last() == site_view(sites@[k as int]));
        check_site(&sites[k], idx, &mut out);
        k = k + 1;
    }
    assert(sv.take(sv.len() as int) =~= sv);
    out
}

/// The initializer errors of `story`.
pub fn variable_initializer_diagnostics(story: &Story) -> (r: Vec<Diagnostic>)
    ensures
        exists|idx: TypeIndex| #[trigger] is_index_of(idx, *story) && diag_views(r@) == initializer_checks(story_sites(*story), idx),
{
    let idx = build_type_index(story);
    initializer_diagnostics_with_index(story, &idx)
}

/// The value a declaration without an initializer starts with.
#[derive(Debug, PartialEq, Eq)]
pub enum DefaultValue {
    Int(i64),
    Float,
    Bool(bool),
    String,
    EmptyArray,
    EmptyDict,
    Struct,
}

/// The starting value of a typed declaration without an initializer:
/// zero, `false`, the empty string or array, or the fields' defaults; none
/// for a divert target or `void`.
pub open spec fn default_value(t: TypeView) -> Option<DefaultValue> {
    match t {
        TypeView::Primitive(PrimitiveType::Int) => Some(DefaultValue::Int(0)),
        TypeView::Primitive(PrimitiveType::Float) => Some(DefaultValue::Float),
        TypeView::Primitive(PrimitiveType::Bool) => Some(DefaultValue::Bool(false)),
        TypeView::Primitive(PrimitiveType::String) => Some(DefaultValue::String),
        TypeView::Primitive(PrimitiveType::DivertTarget) => None,
        TypeView::Array(_) => Some(DefaultValue::EmptyArray),
        TypeView::Dict(_, _) => Some(DefaultValue::EmptyDict),
        TypeView::Struct(_) | TypeView::QualifiedStruct(_, _) => Some(DefaultValue::Struct),
        TypeView::Void => None,
    }
}

/// The starting value of `assignment` when it is typed and has no
/// initializer.
pub fn default_initializer_metadata(assignment: &crate::parsed::VariableAssignment) -> (r: Option<DefaultValue>)
    ensures
        r == match assignment.expression {
            Some(_) => None,
            None => match assignment.declared_type {
                Some(t) => default_value(t.type_view()),
                None => None,
            },
        },
{
    if assignment.expression.is_some() {
        return None;
    }
    match &assignment.declared_type {
        None => None,
        Some(t) => match t {
            TypeName::Primitive(PrimitiveType::Int) => Some(DefaultValue::Int(0)),
            TypeName::Primitive(PrimitiveType::Float) => Some(DefaultValue::Float),
            TypeName::Primitive(PrimitiveType::Bool) => Some(DefaultValue::Bool(false)),
            TypeName::Primitive(PrimitiveType::String) => Some(DefaultValue::String),
            TypeName::Primitive(PrimitiveType::DivertTarget) => None,
            TypeName::Array(_) => Some(DefaultValue::EmptyArray),
            TypeName::Dict { .. } => Some(DefaultValue::EmptyDict),
            TypeName::Struct(_) | TypeName::QualifiedStruct(_) => Some(DefaultValue::Struct),
            TypeName::Void => None,
        },
    }
}

/// The default of a type exists exactly when the type has a default.
pub proof fn lemma_default_exists(t: TypeView)
    ensures
        default_value(t) is Some <==> has_default(t),
{
}

/// A typed global `VAR` or `temp` whose initializer has a type other than
/// the declared one gets exactly the error that says both types, at the
/// declaration; one whose initializer has the declared type gets none.
pub proof fn law_initializer_type_mismatch(s: SiteView, idx: TypeIndex, e: crate::parsed::Expression, actual: TypeView)
    requires
        s.2 is VariableAssignment,
        s.2->VariableAssignment_0.kind != AssignmentKind::Assign,
        s.2->VariableAssignment_0.declared_type is Some,
        s.2->VariableAssignment_0.expression == Some(e),
        infer(e, idx, s.0, s.1) == Ok::<TypeView, Seq<char>>(actual),
    ensures
        ({
            let a = s.2->VariableAssignment_0;
            let d = a.declared_type->0.type_view();
            initializer_check(s, idx) == if actual == d {
                Seq::empty()
            } else {
                seq![
                    (DiagnosticSeverity::Error, "Initializer for "@ + "variable"@ + " '"@ + a.name@ + "' has type "@ + view_display(actual)
                        + " but declared type is "@ + view_display(d), a.span),
                ]
            }
        }),
{
}

/// A typed global `VAR` or `temp` without an initializer is reported, with
/// its name and type, exactly when its type has no default value, and is
/// otherwise accepted.
pub proof fn law_missing_initializer(s: SiteView, idx: TypeIndex)
    requires
        s.2 is VariableAssignment,
        s.2->VariableAssignment_0.kind != AssignmentKind::Assign,
        s.2->VariableAssignment_0.declared_type is Some,
        s.2->VariableAssignment_0.expression is None,
    ensures
        ({
            let a = s.2->VariableAssignment_0;
            let t = a.declared_type->0.type_view();
            initializer_check(s, idx) == if default_value(t) is None {
                seq![(DiagnosticSeverity::Error, "Variable '"@ + a.name@ + "' of type "@ + view_display(t) + " cannot be default-initialized"@, a.span)]
            } else {
                Seq::empty()
            }
        }),
{
    let a = s.2->VariableAssignment_0;
    lemma_default_exists(a.declared_type->0.type_view());
}

} // verus!
