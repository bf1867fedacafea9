//! Assignments and compound assignments (`+=`, `-=`) to declared variables,
//! fields and elements.
use vstd::prelude::*;

use crate::analysis::inference::{
    display, infer, infer_expression_type, int_v, float_v, string_v, is_primitive, result_matches,
    view_display,
};
use crate::analysis::initializers::is_primitive_view;
use crate::analysis::sites::{collect_sites, opt_str_view, opt_string_view, site_view, sites_view, story_sites, Site, SiteView};
use crate::analysis::structs::{build_type_index, is_index_of};
use crate::analysis::types::{
    contains_dot, contains_double_colon, find_field, find_last_variable, find_struct, first_field,
    first_struct, has_dot, has_double_colon, last_variable, scoped, scoped_name, visible_variable,
    TypeIndex, VariableKind,
};
use crate::diagnostic::{diag_views, DiagView, Diagnostic, DiagnosticSeverity};
use crate::parsed::{AssignmentKind, AssignmentTarget, Expression, Object, PrimitiveType, Story, TypeName, TypeView};
use crate::text::concat3;

verus! {

/// How an assignment target is written in messages.
pub open spec fn target_text(t: AssignmentTarget) -> Seq<char>
    decreases t,
{
    match t {
        AssignmentTarget::Variable(n) => n@,
        AssignmentTarget::QualifiedVariable(q) => q.module@ + "::"@ + q.symbol@,
        AssignmentTarget::FieldAccess { base, field } => target_text(*base) + "."@ + field@,
        AssignmentTarget::IndexAccess { base, index: _ } => target_text(*base) + "[]"@,
    }
}

/// The declared type of what an assignment writes: `Ok(None)` when it has
/// no declared type, an error when it cannot be written.
pub open spec fn target_type(t: AssignmentTarget, idx: TypeIndex, m: Option<Seq<char>>, f: Option<Seq<char>>, shown: Seq<char>) -> Result<Option<TypeView>, Seq<char>>
    decreases t,
{
    match t {
        AssignmentTarget::Variable(n) => match visible_variable(idx.variables@, m, f, n@) {
            Some(v) => Ok(
                match v.declared_type {
                    Some(d) => Some(d.type_view()),
                    None => None,
                },
            ),
            None => Err("Cannot assign to undeclared variable '"@ + n@ + "'"@),
        },
        AssignmentTarget::QualifiedVariable(q) => {
            let full = q.module@ + "::"@ + q.symbol@;
            let found = if q.module@.len() == 0 || q.symbol@.len() == 0 || has_double_colon(q.symbol@) || has_dot(q.symbol@) {
                None
            } else {
                last_variable(idx.variables@, Some(q.module@), None, q.symbol@)
            };
            match found {
                Some(v) => if v.kind == VariableKind::GlobalVariable {
                    Ok(
                        match v.declared_type {
                            Some(d) => Some(d.type_view()),
                            None => None,
                        },
                    )
                } else if v.kind == VariableKind::Constant {
                    Err("Cannot assign to constant '"@ + full + "'"@)
                } else {
                    Err("Cannot assign to undeclared variable '"@ + full + "'"@)
                },
                None => Err("Cannot assign to undeclared variable '"@ + full + "'"@),
            }
        },
        AssignmentTarget::FieldAccess { base, field } => match target_type(*base, idx, m, f, shown) {
            Err(x) => Err(x),
            Ok(None) => Ok(None),
            Ok(Some(b)) => {
                let name = match b {
                    TypeView::Struct(n) => Some(n),
                    TypeView::QualifiedStruct(mo, s) => Some(mo + "::"@ + s),
                    _ => None,
                };
                match name {
                    None => Err("Cannot access field '"@ + field@ + "' on non-struct assignment target type "@ + view_display(b)),
                    Some(n) => {
                        let key = if has_double_colon(n) {
                            n
                        } else {
                            scoped(m, n)
                        };
                        match first_struct(idx.structs@, key) {
                            None => Err("Unknown struct type '"@ + n + "' for assignment target"@),
                            Some(s) => match first_field(s.fields@, field@) {
                                None => Err("Unknown field '"@ + field@ + "' on assignment target struct '"@ + n + "'"@),
                                Some(fl) => Ok(Some(fl.field_type.type_view())),
                            },
                        }
                    },
                }
            },
        },
        AssignmentTarget::IndexAccess { base, index } => match target_type(*base, idx, m, f, shown) {
            Err(x) => Err(x),
            Ok(None) => Ok(None),
            Ok(Some(b)) => match infer(index, idx, m, f) {
                Err(x) => Err("Cannot type-check index for assignment target '"@ + shown + "': "@ + x),
                Ok(i) => if i != int_v() {
                    Err("Index for assignment target '"@ + shown + "' has type "@ + view_display(i) + " but expected int"@)
                } else {
                    match b {
                        TypeView::Array(e) => Ok(Some(*e)),
                        _ => Err("Cannot index non-array assignment target type "@ + view_display(b)),
                    }
                },
            },
        },
    }
}

/// An element target `base[index]` whose base has a declared type is
/// written with an `int` index only: an index of any other type gives the
/// target no type and the error `Index for assignment target ... but
/// expected int`; with an `int` index into an array, the target has the
/// array's element type.
pub proof fn law_element_target_index(base: AssignmentTarget, index: Expression, b: TypeView, i: TypeView, idx: TypeIndex, m: Option<Seq<char>>, f: Option<Seq<char>>, shown: Seq<char>)
    requires
        target_type(base, idx, m, f, shown) == Ok::<Option<TypeView>, Seq<char>>(Some(b)),
        infer(index, idx, m, f) == Ok::<TypeView, Seq<char>>(i),
    ensures
        i != TypeView::Primitive(PrimitiveType::Int) ==> target_type(
            AssignmentTarget::IndexAccess { base: Box::new(base), index },
            idx,
            m,
            f,
            shown,
        ) == Err::<Option<TypeView>, Seq<char>>(
            "Index for assignment target '"@ + shown + "' has type "@ + view_display(i) + " but expected int"@,
        ),
        i == TypeView::Primitive(PrimitiveType::Int) ==> match b {
            TypeView::Array(e) => target_type(AssignmentTarget::IndexAccess { base: Box::new(base), index }, idx, m, f, shown)
                == Ok::<Option<TypeView>, Seq<char>>(Some(*e)),
            _ => target_type(AssignmentTarget::IndexAccess { base: Box::new(base), index }, idx, m, f, shown) is Err,
        },
{
}

/// An assignment `target = value` whose target cannot be written reports
/// exactly the reason, at the assignment, and nothing about the value.
pub proof fn law_unwritable_target_reported(s: SiteView, idx: TypeIndex, x: Seq<char>)
    requires
        s.2 is VariableAssignment,
        s.2->VariableAssignment_0.kind == AssignmentKind::Assign,
        s.2->VariableAssignment_0.expression is Some,
        target_type(s.2->VariableAssignment_0.target, idx, s.0, s.1, s.2->VariableAssignment_0.name@) == Err::<
            Option<TypeView>,
            Seq<char>,
        >(x),
    ensures
        assignment_check(s, idx) == seq![(DiagnosticSeverity::Error, x, s.2->VariableAssignment_0.span)],
{
}

/// The checks of `name = value` where the target has type `declared`.
pub open spec fn simple_assignment_error(name: Seq<char>, declared: TypeView, inferred: Result<TypeView, Seq<char>>) -> Option<Seq<char>> {
    match inferred {
        Ok(actual) => if actual == declared {
            None
        } else {
            Some(
                "Assignment to variable '"@ + name + "' has type "@ + view_display(actual) + " but declared type is "@
                    + view_display(declared),
            )
        },
        Err(x) => if is_primitive_view(declared) {
            Some("Cannot type-check assignment to variable '"@ + name + "': "@ + x)
        } else {
            None
        },
    }
}

/// Whether `declared op= value` is defined: numbers with their own type,
/// and `+=` on strings.
pub open spec fn compound_valid(declared: TypeView, value: TypeView, increment: bool) -> bool {
    declared == value && (declared == int_v() || declared == float_v() || (increment && declared == string_v()))
}

/// The checks of `name += value` or `name -= value`.
pub open spec fn compound_assignment_error(name: Seq<char>, declared: TypeView, inferred: Result<TypeView, Seq<char>>, increment: bool) -> Option<Seq<char>> {
    match inferred {
        Ok(v) => if compound_valid(declared, v, increment) {
            None
        } else {
            Some(
                "Operator '"@ + (if increment { "+="@ } else { "-="@ }) + "' is not defined for variable '"@ + name
                    + "' of type "@ + view_display(declared) + " and value type "@ + view_display(v),
            )
        },
        Err(x) => if is_primitive_view(declared) {
            Some("Cannot type-check compound assignment to variable '"@ + name + "': "@ + x)
        } else {
            None
        },
    }
}

/// The errors of one site: an assignment or compound assignment whose
/// target cannot be written or whose value has the wrong type.
pub open spec fn assignment_check(s: SiteView, idx: TypeIndex) -> Seq<DiagView> {
    match s.2 {
        Object::VariableAssignment(a) => if a.kind != AssignmentKind::Assign {
            Seq::empty()
        } else {
            match a.expression {
                None => Seq::empty(),
                Some(e) => match target_type(a.target, idx, s.0, s.1, a.name@) {
                    Err(x) => seq![(DiagnosticSeverity::Error, x, a.span)],
                    Ok(None) => Seq::empty(),
                    Ok(Some(d)) => match simple_assignment_error(a.name@, d, infer(e, idx, s.0, s.1)) {
                        Some(x) => seq![(DiagnosticSeverity::Error, x, a.span)],
                        None => Seq::empty(),
                    },
                },
            }
        },
        Object::IncDec(c) => match target_type(c.target, idx, s.0, s.1, c.name@) {
            Err(x) => seq![(DiagnosticSeverity::Error, x, c.span)],
            Ok(None) => Seq::empty(),
            Ok(Some(d)) => match compound_assignment_error(c.name@, d, infer(c.expression, idx, s.0, s.1), c.is_increment) {
                Some(x) => seq![(DiagnosticSeverity::Error, x, c.span)],
                None => Seq::empty(),
            },
        },
        _ => Seq::empty(),
    }
}

pub open spec fn assignment_checks(ss: Seq<SiteView>, idx: TypeIndex) -> Seq<DiagView>
    decreases ss.len(),
{
    if ss.len() == 0 {
        Seq::empty()
    } else {
        assignment_checks(ss.drop_last(), idx) + assignment_check(ss.last(), idx)
    }
}

fn copy_optional_type(t: &Option<TypeName>) -> (r: Option<TypeName>)
    ensures
        r == *t,
{
    match t {
        Some(t) => Some(t.duplicate()),
        None => None,
    }
}

pub open spec fn target_result_matches(r: Result<Option<TypeName>, String>, s: Result<Option<TypeView>, Seq<char>>) -> bool {
    match r {
        Ok(Some(t)) => s == Ok::<Option<TypeView>, Seq<char>>(Some(t.type_view())),
        Ok(None) => s == Ok::<Option<TypeView>, Seq<char>>(None),
        Err(x) => s == Err::<Option<TypeView>, Seq<char>>(x@),
    }
}

/// The declared type of what `t` writes, read from flow `f` of module `m`.
pub fn assignment_target_type(t: &AssignmentTarget, idx: &TypeIndex, m: Option<&str>, f: Option<&str>, shown: &str) -> (r: Result<Option<TypeName>, String>)
    ensures
        target_result_matches(r, target_type(*t, *idx, opt_str_view(m), opt_str_view(f), shown@)),
    decreases t,
{
    match t {
        AssignmentTarget::Variable(n) => {
            let local = match f {
                Some(p) => find_last_variable(&idx.variables, m, Some(p), n.as_str()),
                None => None,
            };
            let found = match local {
                Some(v) => Some(v),
                None => find_last_variable(&idx.variables, m, None, n.as_str()),
            };
            match found {
                Some(v) => Ok(copy_optional_type(&v.declared_type)),
                None => Err(concat3("Cannot assign to undeclared variable '", n.as_str(), "'")),
            }
        },
        AssignmentTarget::QualifiedVariable(q) => {
            let full = concat3(q.module.as_str(), "::", q.symbol.as_str());
            let found = if q.module.unicode_len() == 0 || q.symbol.unicode_len() == 0 || contains_double_colon(q.symbol.as_str())
                || contains_dot(q.symbol.as_str()) {
                None
            } else {
                find_last_variable(&idx.variables, Some(q.module.as_str()), None, q.symbol.as_str())
            };
            match found {
                Some(v) => if v.kind == VariableKind::GlobalVariable {
                    Ok(copy_optional_type(&v.declared_type))
                } else if v.kind == VariableKind::Constant {
                    Err(concat3("Cannot assign to constant '", full.as_str(), "'"))
                } else {
                    Err(concat3("Cannot assign to undeclared variable '", full.as_str(), "'"))
                },
                None => Err(concat3("Cannot assign to undeclared variable '", full.as_str(), "'")),
            }
        },
        AssignmentTarget::FieldAccess { base, field } => match assignment_target_type(base, idx, m, f, shown) {
            Err(x) => Err(x),
            Ok(None) => Ok(None),
            Ok(Some(b)) => {
                let name = match &b {
                    TypeName::Struct(n) => n.clone(),
                    TypeName::QualifiedStruct(q) => concat3(q.module.as_str(), "::", q.symbol.as_str()),
                    _ => {
                        let mut msg = concat3("Cannot access field '", field.as_str(), "' on non-struct assignment target type ");
                        let d = display(&b);
                        msg.append(d.as_str());
                        return Err(msg);
                    },
                };
                let key = if contains_double_colon(name.as_str()) {
                    name.clone()
                } else {
                    scoped_name(m, name.as_str())
                };
                match find_struct(&idx.structs, key.as_str()) {
                    None => Err(concat3("Unknown struct type '", name.as_str(), "' for assignment target")),
                    Some(s) => match find_field(&s.fields, field.as_str()) {
                        None => {
                            let mut msg = concat3("Unknown field '", field.as_str(), "' on assignment target struct '");
                            msg.append(name.as_str());
                            msg.append("'");
                            Err(msg)
                        },
                        Some(fl) => Ok(Some(fl.field_type.duplicate())),
                    },
                }
            },
        },
        AssignmentTarget::IndexAccess { base, index } => match assignment_target_type(base, idx, m, f, shown) {
            Err(x) => Err(x),
            Ok(None) => Ok(None),
            Ok(Some(b)) => match infer_expression_type(index, idx, m, f) {
                Err(x) => {
                    let mut msg = concat3("Cannot type-check index for assignment target '", shown, "': ");
                    msg.append(x.message.as_str());
                    Err(msg)
                },
                Ok(i) => if !is_primitive(&i, PrimitiveType::Int) {
                    let mut msg = concat3("Index for assignment target '", shown, "' has type ");
                    let d = display(&i);
                    msg.append(d.as_str());
                    msg.append(" but expected int");
                    Err(msg)
                } else {
                    match b {
                        TypeName::Array(e) => Ok(Some(*e)),
                        _ => {
                            let mut msg = String::from_str("Cannot index non-array assignment target type ");
                            let d = display(&b);
                            msg.append(d.as_str());
                            Err(msg)
                        },
                    }
                },
            },
        },
    }
}

fn check_site(s: &Site, idx: &TypeIndex, out: &mut Vec<Diagnostic>)
    ensures
        diag_views(final(out)@) == diag_views(old(out)@) + assignment_check(site_view(*s), *idx),
{
    let ghost before = out@;
    let m = s.module;
    let f: Option<&str> = match &s.flow {
        Some(p) => Some(p.as_str()),
        None => None,
    };
    assert(opt_str_view(f) == opt_string_view(s.flow));
    match s.object {
        Object::VariableAssignment(a) => {
            if a.kind != AssignmentKind::Assign {
                assert(diag_views(out@) =~= diag_views(before) + assignment_check(site_view(*s), *idx));
                return;
            }
            match &a.expression {
                None => {
                    assert(diag_views(out@) =~= diag_views(before) + assignment_check(site_view(*s), *idx));
                },
                Some(e) => {
                    match assignment_target_type(&a.target, idx, m, f, a.name.as_str()) {
                        Err(x) => {
                            out.push(Diagnostic::error(a.span.duplicate(), x));
                        },
                        Ok(None) => {},
                        Ok(Some(declared)) => {
                            let inferred = infer_expression_type(e, idx, m, f);
                            let message = match inferred {
                                Ok(actual) => if actual.same_as(&declared) {
                                    None
                                } else {
                                    let mut msg = concat3("Assignment to variable '", a.name.as_str(), "' has type ");
                                    let da = display(&actual);
                                    msg.append(da.as_str());
                                    msg.append(" but declared type is ");
                                    let dd = display(&declared);
                                    msg.append(dd.as_str());
                                    Some(msg)
                                },
                                Err(x) => if is_primitive_type(&declared) {
                                    let mut msg = concat3("Cannot type-check assignment to variable '", a.name.as_str(), "': ");
                                    msg.append(x.message.as_str());
                                    Some(msg)
                                } else {
                                    None
                                },
                            };
                            match message {
                                Some(msg) => out.push(Diagnostic::error(a.span.duplicate(), msg)),
                                None => {},
                            }
                        },
                    }
                    assert(diag_views(out@) =~= diag_views(before) + assignment_check(site_view(*s), *idx));
                },
            }
        },
        Object::IncDec(c) => {
            match assignment_target_type(&c.target, idx, m, f, c.name.as_str()) {
                Err(x) => {
                    out.push(Diagnostic::error(c.span.duplicate(), x));
                },
                Ok(None) => {},
                Ok(Some(declared)) => {
                    let inferred = infer_expression_type(&c.expression, idx, m, f);
                    let message = match inferred {
                        Ok(v) => {
                            let valid = declared.same_as(&v) && (is_primitive(&declared, PrimitiveType::Int) || is_primitive(
                                &declared,
                                PrimitiveType::Float,
                            ) || (c.is_increment && is_primitive(&declared, PrimitiveType::String)));
                            if valid {
                                None
                            } else {
                                let op = if c.is_increment { "+=" } else { "-=" };
                                let mut msg = concat3("Operator '", op, "' is not defined for variable '");
                                msg.append(c.name.as_str());
                                msg.append("' of type ");
                                let dd = display(&declared);
                                msg.append(dd.as_str());
                                msg.append(" and value type ");
                                let dv = display(&v);
                                msg.append(dv.as_str());
                                Some(msg)
                            }
                        },
                        Err(x) => if is_primitive_type(&declared) {
                            let mut msg = concat3("Cannot type-check compound assignment to variable '", c.name.as_str(), "': ");
                            msg.append(x.message.as_str());
                            Some(msg)
                        } else {
                            None
                        },
                    };
                    match message {
                        Some(msg) => out.push(Diagnostic::error(c.span.duplicate(), msg)),
                        None => {},
                    }
                },
            }
            assert(diag_views(out@) =~= diag_views(before) + assignment_check(site_view(*s), *idx));
        },
        _ => {
            assert(diag_views(out@) =~= diag_views(before) + assignment_check(site_view(*s), *idx));
        },
    }
}

fn is_primitive_type(t: &TypeName) -> (r: bool)
    ensures
        r == is_primitive_view(t.type_view()),
{
    match t {
        TypeName::Primitive(_) => true,
        _ => false,
    }
}

/// The assignment errors of `story` against the index `idx`, in reading
/// order.
pub fn assignment_diagnostics_with_index(story: &Story, idx: &TypeIndex) -> (r: Vec<Diagnostic>)
    ensures
        diag_views(r@) == assignment_checks(story_sites(*story), *idx),
{
    let sites = collect_sites(story);
    let ghost sv = sites_view(sites@);
    let mut out: Vec<Diagnostic> = Vec::new();
    let mut k: usize = 0;
    assert(diag_views(out@) =~= assignment_checks(sv.take(0), *idx));
    while k < sites.len()
        invariant
            k <= sites@.len(),
            sv == sites_view(sites@),
            diag_views(out@) == assignment_checks(sv.take(k as int), *idx),
        decreases sites.len() - k,
    {
        assert(sv.take(k + 1).drop_last() =~= sv.take(k as int));
        assert(sv.take(k + 1).last() == site_view(sites@[k as int]));
        check_site(&sites[k], idx, &mut out);
        k = k + 1;
    }
    assert(sv.take(sv.len() as int) =~= sv);
    out
}

/// The assignment errors of `story`.
pub fn variable_assignment_diagnostics(story: &Story) -> (r: Vec<Diagnostic>)
    ensures
        exists|idx: TypeIndex| #[trigger] is_index_of(idx, *story) && diag_views(r@) == assignment_checks(story_sites(*story), idx),
{
    let idx = build_type_index(story);
    assignment_diagnostics_with_index(story, &idx)
}

} // verus!
