//! Field reads (`value.field`) and element reads (`value[index]`) outside
//! typed assignments must have a type.
use vstd::prelude::*;

use crate::analysis::inference::{infer, infer_expression_type, result_matches};
use crate::analysis::sites::{collect_sites, opt_str_view, opt_string_view, site_view, sites_view, story_sites, Site, SiteView};
use crate::analysis::span::{default_span, default_span_spec};
use crate::analysis::structs::{build_type_index, is_index_of};
use crate::analysis::types::{find_last_variable, last_variable, TypeIndex};
use crate::diagnostic::{diag_view, diag_views, DiagView, Diagnostic, DiagnosticSeverity};
use crate::parsed::{
    AssignmentKind, AssignmentTarget, ConditionalBranch, DictLiteralEntry, Expression, Object, Story,
    StructLiteralField,
};
use crate::text::chars_of;

verus! {

/// Whether an inference error is about an unknown variable, which the
/// target checks report.
pub open spec fn is_unknown_variable_message(m: Seq<char>) -> bool {
    m.len() >= 18 && m.take(18) == "Unknown variable '"@
}

pub fn unknown_variable_message(m: &str) -> (r: bool)
    ensures
        r == is_unknown_variable_message(m@),
{
    let chars = chars_of(m);
    let prefix = chars_of("Unknown variable '");
    proof { reveal_strlit("Unknown variable '"); }
    if chars.len() < 18 || prefix.len() != 18 {
        return false;
    }
    let mut i: usize = 0;
    while i < 18
        invariant
            i <= 18,
            chars@ == m@,
            chars@.len() >= 18,
            prefix@ == "Unknown variable '"@,
            prefix@.len() == 18,
            forall|k: int| 0 <= k < i ==> chars@[k] == prefix@[k],
        decreases 18 - i,
    {
        if chars[i] != prefix[i] {
            assert(m@.take(18)[i as int] != "Unknown variable '"@[i as int]);
            return false;
        }
        i = i + 1;
    }
    assert(m@.take(18) =~= "Unknown variable '"@);
    true
}

// ---------------------------------------------------------------------------
// Reads in one expression.

/// The error for `e` when its type cannot be inferred, unless the reason is
/// an unknown variable.
pub open spec fn failure_diag(e: Expression, idx: TypeIndex, m: Option<Seq<char>>, f: Option<Seq<char>>) -> Seq<DiagView> {
    match infer(e, idx, m, f) {
        Err(x) => if is_unknown_variable_message(x) {
            Seq::empty()
        } else {
            seq![(DiagnosticSeverity::Error, x, default_span_spec())]
        },
        Ok(_) => Seq::empty(),
    }
}

/// The errors for the reads in `e`: every field read when `fields`, else
/// every element read that is not inside another one; none inside a
/// `covered` tree.
pub open spec fn access_checks(e: Expression, fields: bool, covered: bool, idx: TypeIndex, m: Option<Seq<char>>, f: Option<Seq<char>>) -> Seq<DiagView>
    decreases e, 0nat,
{
    let own = if covered { Seq::empty() } else { failure_diag(e, idx, m, f) };
    match e {
        Expression::FieldAccess { base, field: _ } => if fields {
            own + access_checks(*base, fields, covered, idx, m, f)
        } else {
            access_checks(*base, fields, covered, idx, m, f)
        },
        Expression::IndexAccess { base, index } => if fields {
            access_checks(*base, fields, covered, idx, m, f) + access_checks(*index, fields, covered, idx, m, f)
        } else {
            own
        },
        Expression::Binary { operator: _, left, right } => access_checks(*left, fields, covered, idx, m, f) + access_checks(
            *right,
            fields,
            covered,
            idx,
            m,
            f,
        ),
        Expression::Unary { operator: _, expression } => access_checks(*expression, fields, covered, idx, m, f),
        Expression::FunctionCall { name: _, args } => access_list(args@, fields, covered, idx, m, f),
        Expression::QualifiedFunctionCall { name: _, args } => access_list(args@, fields, covered, idx, m, f),
        Expression::ArrayLiteral(args) => access_list(args@, fields, covered, idx, m, f),
        Expression::MultipleCondition(args) => access_list(args@, fields, covered, idx, m, f),
        Expression::StructLiteral(fs) => access_literal(fs@, fields, covered, idx, m, f),
        Expression::TypedStructLiteral { literal_type: _, fields: fs } => access_literal(fs@, fields, covered, idx, m, f),
        Expression::DictLiteral(entries) => access_entries(entries@, fields, covered, idx, m, f),
        _ => Seq::empty(),
    }
}

/// A field read `n.field` of a variable is accepted exactly when it has a
/// type; otherwise it gets exactly one error, which gives the reason,
/// unless the reason is that the variable is unknown (which the target
/// checks report).
pub proof fn law_field_read_of_variable(n: String, field: String, idx: TypeIndex, m: Option<Seq<char>>, f: Option<Seq<char>>)
    ensures
        ({
            let e = Expression::FieldAccess { base: Box::new(Expression::VariableReference(n)), field };
            access_checks(e, true, false, idx, m, f) == match infer(e, idx, m, f) {
                Ok(_) => Seq::<DiagView>::empty(),
                Err(x) => if x.len() >= 18 && x.take(18) == "Unknown variable '"@ {
                    Seq::<DiagView>::empty()
                } else {
                    seq![(DiagnosticSeverity::Error, x, default_span_spec())]
                },
            }
        }),
{
    let e = Expression::FieldAccess { base: Box::new(Expression::VariableReference(n)), field };
    assert(access_checks(Expression::VariableReference(n), true, false, idx, m, f) == Seq::<DiagView>::empty());
    assert(failure_diag(e, idx, m, f) + Seq::<DiagView>::empty() =~= failure_diag(e, idx, m, f));
}

pub open spec fn access_list(es: Seq<Expression>, fields: bool, covered: bool, idx: TypeIndex, m: Option<Seq<char>>, f: Option<Seq<char>>) -> Seq<DiagView>
    decreases es, 1nat,
{
    if es.len() == 0 {
        Seq::empty()
    } else {
        access_list(es.drop_last(), fields, covered, idx, m, f) + access_checks(es.last(), fields, covered, idx, m, f)
    }
}

pub open spec fn access_literal(fs: Seq<StructLiteralField>, fields: bool, covered: bool, idx: TypeIndex, m: Option<Seq<char>>, f: Option<Seq<char>>) -> Seq<DiagView>
    decreases fs, 1nat,
{
    if fs.len() == 0 {
        Seq::empty()
    } else {
        access_literal(fs.drop_last(), fields, covered, idx, m, f) + access_checks(fs.last().expression, fields, covered, idx, m, f)
    }
}

pub open spec fn access_entries(es: Seq<DictLiteralEntry>, fields: bool, covered: bool, idx: TypeIndex, m: Option<Seq<char>>, f: Option<Seq<char>>) -> Seq<DiagView>
    decreases es, 1nat,
{
    if es.len() == 0 {
        Seq::empty()
    } else {
        access_entries(es.drop_last(), fields, covered, idx, m, f) + access_checks(es.last().value, fields, covered, idx, m, f)
    }
}

/// Reports `e` when its type cannot be inferred for a reason other than an
/// unknown variable.
fn report_failure(e: &Expression, idx: &TypeIndex, m: Option<&str>, f: Option<&str>, out: &mut Vec<Diagnostic>)
    ensures
        diag_views(final(out)@) == diag_views(old(out)@) + failure_diag(*e, *idx, opt_str_view(m), opt_str_view(f)),
{
    let ghost prev = out@;
    match infer_expression_type(e, idx, m, f) {
        Err(x) => {
            if !unknown_variable_message(x.message.as_str()) {
                out.push(Diagnostic::error(default_span(), x.message));
                proof { assert(diag_views(out@) =~= diag_views(prev).push(diag_view(out@.last()))); }
            } else {
                assert(diag_views(out@) =~= diag_views(prev) + failure_diag(*e, *idx, opt_str_view(m), opt_str_view(f)));
            }
        },
        Ok(_) => {
            assert(diag_views(out@) =~= diag_views(prev) + failure_diag(*e, *idx, opt_str_view(m), opt_str_view(f)));
        },
    }
}

fn check_access(e: &Expression, fields: bool, covered: bool, idx: &TypeIndex, m: Option<&str>, f: Option<&str>, out: &mut Vec<Diagnostic>)
    ensures
        diag_views(final(out)@) == diag_views(old(out)@) + access_checks(*e, fields, covered, *idx, opt_str_view(m), opt_str_view(f)),
    decreases *e, 0nat,
{
    let ghost before = diag_views(out@);
    let ghost mv = opt_str_view(m);
    let ghost fv = opt_str_view(f);
    match e {
        Expression::FieldAccess { base, field: _ } => {
            if fields && !covered {
                report_failure(e, idx, m, f, out);
            }
            check_access(base, fields, covered, idx, m, f, out);
        },
        Expression::IndexAccess { base, index } => {
            if fields {
                check_access(base, fields, covered, idx, m, f, out);
                check_access(index, fields, covered, idx, m, f, out);
            } else if !covered {
                report_failure(e, idx, m, f, out);
            }
        },
        Expression::Binary { operator: _, left, right } => {
            check_access(left, fields, covered, idx, m, f, out);
            check_access(right, fields, covered, idx, m, f, out);
        },
        Expression::Unary { operator: _, expression } => check_access(expression, fields, covered, idx, m, f, out),
        Expression::FunctionCall { name: _, args } => check_access_list(args, fields, covered, idx, m, f, out),
        Expression::QualifiedFunctionCall { name: _, args } => check_access_list(args, fields, covered, idx, m, f, out),
        Expression::ArrayLiteral(args) => check_access_list(args, fields, covered, idx, m, f, out),
        Expression::MultipleCondition(args) => check_access_list(args, fields, covered, idx, m, f, out),
        Expression::StructLiteral(fs) => check_access_literal(fs, fields, covered, idx, m, f, out),
        Expression::TypedStructLiteral { literal_type: _, fields: fs } => check_access_literal(fs, fields, covered, idx, m, f, out),
        Expression::DictLiteral(entries) => check_access_entries(entries, fields, covered, idx, m, f, out),
        _ => {},
    }
    assert(diag_views(out@) =~= before + access_checks(*e, fields, covered, *idx, mv, fv));
}

fn check_access_list(es: &Vec<Expression>, fields: bool, covered: bool, idx: &TypeIndex, m: Option<&str>, f: Option<&str>, out: &mut Vec<Diagnostic>)
    ensures
        diag_views(final(out)@) == diag_views(old(out)@) + access_list(es@, fields, covered, *idx, opt_str_view(m), opt_str_view(f)),
    decreases es@, 1nat,
{
    let ghost before = diag_views(out@);
    let mut i: usize = 0;
    assert(diag_views(out@) =~= before + access_list(es@.take(0), fields, covered, *idx, opt_str_view(m), opt_str_view(f)));
    while i < es.len()
        invariant
            i <= es@.len(),
            diag_views(out@) == before + access_list(es@.take(i as int), fields, covered, *idx, opt_str_view(m), opt_str_view(f)),
        decreases es.len() - i,
    {
        proof {
            assert(decreases_to!(es@ => es@[i as int]));
            assert(es@.take(i + 1).drop_last() =~= es@.take(i as int));
        }
        check_access(&es[i], fields, covered, idx, m, f, out);
        assert(diag_views(out@) =~= before + access_list(es@.take(i + 1), fields, covered, *idx, opt_str_view(m), opt_str_view(f)));
        i = i + 1;
    }
    assert(es@.take(es@.len() as int) =~= es@);
}

fn check_access_literal(fs: &Vec<StructLiteralField>, fields: bool, covered: bool, idx: &TypeIndex, m: Option<&str>, f: Option<&str>, out: &mut Vec<Diagnostic>)
    ensures
        diag_views(final(out)@) == diag_views(old(out)@) + access_literal(fs@, fields, covered, *idx, opt_str_view(m), opt_str_view(f)),
    decreases fs@, 1nat,
{
    let ghost before = diag_views(out@);
    let mut i: usize = 0;
    assert(diag_views(out@) =~= before + access_literal(fs@.take(0), fields, covered, *idx, opt_str_view(m), opt_str_view(f)));
    while i < fs.len()
        invariant
            i <= fs@.len(),
            diag_views(out@) == before + access_literal(fs@.take(i as int), fields, covered, *idx, opt_str_view(m), opt_str_view(f)),
        decreases fs.len() - i,
    {
        proof {
            assert(decreases_to!(fs@ => fs@[i as int]));
            assert(decreases_to!(fs@[i as int] => fs@[i as int].expression));
            assert(fs@.take(i + 1).drop_last() =~= fs@.take(i as int));
        }
        check_access(&fs[i].expression, fields, covered, idx, m, f, out);
        assert(diag_views(out@) =~= before + access_literal(fs@.take(i + 1), fields, covered, *idx, opt_str_view(m), opt_str_view(f)));
        i = i + 1;
    }
    assert(fs@.take(fs@.len() as int) =~= fs@);
}

fn check_access_entries(es: &Vec<DictLiteralEntry>, fields: bool, covered: bool, idx: &TypeIndex, m: Option<&str>, f: Option<&str>, out: &mut Vec<Diagnostic>)
    ensures
        diag_views(final(out)@) == diag_views(old(out)@) + access_entries(es@, fields, covered, *idx, opt_str_view(m), opt_str_view(f)),
    decreases es@, 1nat,
{
    let ghost before = diag_views(out@);
    let mut i: usize = 0;
    assert(diag_views(out@) =~= before + access_entries(es@.take(0), fields, covered, *idx, opt_str_view(m), opt_str_view(f)));
    while i < es.len()
        invariant
            i <= es@.len(),
            diag_views(out@) == before + access_entries(es@.take(i as int), fields, covered, *idx, opt_str_view(m), opt_str_view(f)),
        decreases es.len() - i,
    {
        proof {
            assert(decreases_to!(es@ => es@[i as int]));
            assert(decreases_to!(es@[i as int] => es@[i as int].value));
            assert(es@.take(i + 1).drop_last() =~= es@.take(i as int));
        }
        check_access(&es[i].value, fields, covered, idx, m, f, out);
        assert(diag_views(out@) =~= before + access_entries(es@.take(i + 1), fields, covered, *idx, opt_str_view(m), opt_str_view(f)));
        i = i + 1;
    }
    assert(es@.take(es@.len() as int) =~= es@);
}

// ---------------------------------------------------------------------------
// The expressions of an object.

/// The expressions inside an assignment target: element positions.
pub open spec fn target_exprs(t: AssignmentTarget) -> Seq<(Expression, bool)>
    decreases t,
{
    match t {
        AssignmentTarget::FieldAccess { base, field: _ } => target_exprs(*base),
        AssignmentTarget::IndexAccess { base, index } => target_exprs(*base).push((index, false)),
        _ => Seq::empty(),
    }
}

pub open spec fn opt_expr(e: Option<Expression>, is_value: bool) -> Seq<(Expression, bool)> {
    match e {
        Some(x) => seq![(x, is_value)],
        None => Seq::empty(),
    }
}

pub open spec fn branch_conditions(bs: Seq<ConditionalBranch>) -> Seq<(Expression, bool)>
    decreases bs.len(),
{
    if bs.len() == 0 {
        Seq::empty()
    } else {
        branch_conditions(bs.drop_last()) + opt_expr(bs.last().own_condition, false)
    }
}

/// The expressions an object holds directly (nested objects are sites of
/// their own), each marked when it is the value of an assignment.
pub open spec fn object_exprs(o: Object) -> Seq<(Expression, bool)> {
    match o {
        Object::Expression(e) => seq![(e, false)],
        Object::LogicLine(e) => seq![(e, false)],
        Object::VariableAssignment(a) => target_exprs(a.target) + opt_expr(a.expression, true),
        Object::IncDec(c) => target_exprs(c.target).push((c.expression, false)),
        Object::ConstantDeclaration(d) => seq![(d.expression, false)],
        Object::Return(r) => opt_expr(r.expression, false),
        Object::Divert(d) => d.arguments@.map_values(|e: Expression| (e, false)),
        Object::TunnelOnwards(t) => t.arguments@.map_values(|e: Expression| (e, false)),
        Object::Choice(c) => opt_expr(c.condition, false),
        Object::Conditional(c) => opt_expr(c.initial_condition, false) + branch_conditions(c.branches@),
        _ => Seq::empty(),
    }
}

pub open spec fn exprs_view(v: Seq<(&Expression, bool)>) -> Seq<(Expression, bool)> {
    v.map_values(|p: (&Expression, bool)| (*p.0, p.1))
}

proof fn lemma_exprs_push(v: Seq<(&Expression, bool)>, x: (&Expression, bool))
    ensures
        exprs_view(v.push(x)) == exprs_view(v).push((*x.0, x.1)),
{
    assert(exprs_view(v.push(x)) =~= exprs_view(v).push((*x.0, x.1)));
}

fn optional_expression<'a>(e: &'a Option<Expression>, is_value: bool, out: &mut Vec<(&'a Expression, bool)>)
    ensures
        exprs_view(final(out)@) == exprs_view(old(out)@) + opt_expr(*e, is_value),
{
    let ghost prev = out@;
    match e {
        Some(x) => {
            out.push((x, is_value));
            proof { lemma_exprs_push(prev, (x, is_value)); }
        },
        None => {},
    }
    assert(exprs_view(out@) =~= exprs_view(prev) + opt_expr(*e, is_value));
}

fn object_expressions<'a>(o: &'a Object) -> (r: Vec<(&'a Expression, bool)>)
    ensures
        exprs_view(r@) == object_exprs(*o),
{
    let mut out: Vec<(&'a Expression, bool)> = Vec::new();
    assert(exprs_view(out@) =~= Seq::<(Expression, bool)>::empty());
    match o {
        Object::Expression(e) => {
            out.push((e, false));
            assert(exprs_view(out@) =~= object_exprs(*o));
        },
        Object::LogicLine(e) => {
            out.push((e, false));
            assert(exprs_view(out@) =~= object_exprs(*o));
        },
        Object::VariableAssignment(a) => {
            target_expressions(&a.target, &mut out);
            optional_expression(&a.expression, true, &mut out);
        },
        Object::IncDec(c) => {
            target_expressions(&c.target, &mut out);
            let ghost prev = out@;
            out.push((&c.expression, false));
            proof { lemma_exprs_push(prev, (&c.expression, false)); }
        },
        Object::ConstantDeclaration(d) => {
            out.push((&d.expression, false));
            assert(exprs_view(out@) =~= object_exprs(*o));
        },
        Object::Return(r) => optional_expression(&r.expression, false, &mut out),
        Object::Divert(d) => argument_expressions(&d.arguments, &mut out),
        Object::TunnelOnwards(t) => argument_expressions(&t.arguments, &mut out),
        Object::Choice(c) => optional_expression(&c.condition, false, &mut out),
        Object::Conditional(c) => {
            optional_expression(&c.initial_condition, false, &mut out);
            let ghost after_initial = exprs_view(out@);
            let mut i: usize = 0;
            assert(exprs_view(out@) =~= after_initial + branch_conditions(c.branches@.take(0)));
            while i < c.branches.len()
                invariant
                    i <= c.branches@.len(),
                    exprs_view(out@) == after_initial + branch_conditions(c.branches@.take(i as int)),
                decreases c.branches.len() - i,
            {
                proof { assert(c.branches@.take(i + 1).drop_last() =~= c.branches@.take(i as int)); }
                optional_expression(&c.branches[i].own_condition, false, &mut out);
                assert(exprs_view(out@) =~= after_initial + branch_conditions(c.branches@.take(i + 1)));
                i = i + 1;
            }
            assert(c.branches@.take(c.branches@.len() as int) =~= c.branches@);
        },
        _ => {},
    }
    out
}

fn argument_expressions<'a>(args: &'a Vec<Expression>, out: &mut Vec<(&'a Expression, bool)>)
    requires
        old(out)@.len() == 0,
    ensures
        exprs_view(final(out)@) == args@.map_values(|e: Expression| (e, false)),
{
    let mut i: usize = 0;
    assert(exprs_view(out@) =~= args@.take(0).map_values(|e: Expression| (e, false)));
    while i < args.len()
        invariant
            i <= args@.len(),
            exprs_view(out@) == args@.take(i as int).map_values(|e: Expression| (e, false)),
        decreases args.len() - i,
    {
        let ghost prev = out@;
        out.push((&args[i], false));
        proof {
            lemma_exprs_push(prev, (&args[i as int], false));
            assert(args@.take(i + 1).map_values(|e: Expression| (e, false)) =~= args@.take(i as int).map_values(
                |e: Expression| (e, false),
            ).push((args@[i as int], false)));
        }
        i = i + 1;
    }
    assert(args@.take(args@.len() as int) =~= args@);
}

fn target_expressions<'a>(t: &'a AssignmentTarget, out: &mut Vec<(&'a Expression, bool)>)
    ensures
        exprs_view(final(out)@) == exprs_view(old(out)@) + target_exprs(*t),
    decreases t,
{
    let ghost prev = exprs_view(out@);
    match t {
        AssignmentTarget::FieldAccess { base, field: _ } => target_expressions(base, out),
        AssignmentTarget::IndexAccess { base, index } => {
            target_expressions(base, out);
            let ghost mid = out@;
            out.push((index, false));
            proof { lemma_exprs_push(mid, (index, false)); }
            assert(exprs_view(out@) =~= prev + target_exprs(*t));
        },
        _ => {
            assert(exprs_view(out@) =~= prev + target_exprs(*t));
        },
    }
}

/// Whether the value of an assignment is checked against a declared type
/// by the initializer or assignment checks: a `VAR` or `temp` with a
/// declared type, or an assignment to a visible variable that has one.
pub open spec fn expected_typed(o: Object, idx: TypeIndex, m: Option<Seq<char>>, f: Option<Seq<char>>) -> bool {
    match o {
        Object::VariableAssignment(a) => if a.kind == AssignmentKind::Global || a.kind == AssignmentKind::Temporary {
            a.declared_type is Some
        } else {
            match a.target {
                AssignmentTarget::Variable(n) => {
                    let local = match f {
                        Some(p) => last_variable(idx.variables@, m, Some(p), n@),
                        None => None,
                    };
                    let found = match local {
                        Some(v) => Some(v),
                        None => last_variable(idx.variables@, m, None, n@),
                    };
                    match found {
                        Some(v) => v.declared_type is Some,
                        None => false,
                    }
                },
                _ => false,
            }
        },
        _ => false,
    }
}

fn assignment_has_expected_type(o: &Object, idx: &TypeIndex, m: Option<&str>, f: Option<&str>) -> (r: bool)
    ensures
        r == expected_typed(*o, *idx, opt_str_view(m), opt_str_view(f)),
{
    match o {
        Object::VariableAssignment(a) => {
            if a.kind == AssignmentKind::Global || a.kind == AssignmentKind::Temporary {
                a.declared_type.is_some()
            } else {
                match &a.target {
                    AssignmentTarget::Variable(n) => {
                        let local = match f {
                            Some(p) => find_last_variable(&idx.variables, m, Some(p), n.as_str()),
                            None => None,
                        };
                        let found = match local {
                            Some(v) => Some(v),
                            None => find_last_variable(&idx.variables, m, None, n.as_str()),
                        };
                        match found {
                            Some(v) => v.declared_type.is_some(),
                            None => false,
                        }
                    },
                    _ => false,
                }
            }
        },
        _ => false,
    }
}

// ---------------------------------------------------------------------------
// The whole story.

/// The read errors of the expressions `es` of one site.
pub open spec fn exprs_checks(es: Seq<(Expression, bool)>, fields: bool, typed: bool, idx: TypeIndex, m: Option<Seq<char>>, f: Option<Seq<char>>) -> Seq<DiagView>
    decreases es.len(),
{
    if es.len() == 0 {
        Seq::empty()
    } else {
        exprs_checks(es.drop_last(), fields, typed, idx, m, f) + access_checks(es.last().0, fields, typed && es.last().1, idx, m, f)
    }
}

/// The read errors of every site: field reads when `fields`, else element
/// reads.
pub open spec fn access_sites(sites: Seq<SiteView>, fields: bool, idx: TypeIndex) -> Seq<DiagView>
    decreases sites.len(),
{
    if sites.len() == 0 {
        Seq::empty()
    } else {
        let s = sites.last();
        access_sites(sites.drop_last(), fields, idx) + exprs_checks(object_exprs(s.2), fields, expected_typed(s.2, idx, s.0, s.1), idx, s.0, s.1)
    }
}

/// Runs the field (when `fields`) or element read checks over every
/// expression of the story.
pub fn access_diagnostics_with_index(story: &Story, fields: bool, idx: &TypeIndex) -> (r: Vec<Diagnostic>)
    ensures
        diag_views(r@) == access_sites(story_sites(*story), fields, *idx),
{
    let sites = collect_sites(story);
    let ghost sv = sites_view(sites@);
    let mut out: Vec<Diagnostic> = Vec::new();
    let mut k: usize = 0;
    assert(diag_views(out@) =~= access_sites(sv.take(0), fields, *idx));
    while k < sites.len()
        invariant
            k <= sites@.len(),
            sv == sites_view(sites@),
            diag_views(out@) == access_sites(sv.take(k as int), fields, *idx),
        decreases sites.len() - k,
    {
        proof {
            assert(sv.take(k + 1).drop_last() =~= sv.take(k as int));
            assert(sv.take(k + 1).last() == site_view(sites@[k as int]));
        }
        let site = &sites[k];
        let m = site.module;
        let f: Option<&str> = match &site.flow {
            Some(p) => Some(p.as_str()),
            None => None,
        };
        assert(opt_str_view(f) == opt_string_view(site.flow));
        let typed_value = assignment_has_expected_type(site.object, idx, m, f);
        let exprs = object_expressions(site.object);
        let ghost ev = exprs_view(exprs@);
        let ghost before = diag_views(out@);
        let mut i: usize = 0;
        assert(diag_views(out@) =~= before + exprs_checks(ev.take(0), fields, typed_value, *idx, opt_str_view(m), opt_str_view(f)));
        while i < exprs.len()
            invariant
                i <= exprs@.len(),
                ev == exprs_view(exprs@),
                diag_views(out@) == before + exprs_checks(ev.take(i as int), fields, typed_value, *idx, opt_str_view(m), opt_str_view(f)),
            decreases exprs.len() - i,
        {
            proof {
                assert(ev.take(i + 1).drop_last() =~= ev.take(i as int));
                assert(ev.take(i + 1).last() == (*exprs@[i as int].0, exprs@[i as int].1));
            }
            let (e, is_value) = exprs[i];
            let covered = typed_value && is_value;
            check_access(e, fields, covered, idx, m, f, &mut out);
            assert(diag_views(out@) =~= before + exprs_checks(ev.take(i + 1), fields, typed_value, *idx, opt_str_view(m), opt_str_view(f)));
            i = i + 1;
        }
        assert(ev.take(ev.len() as int) =~= ev);
        assert(diag_views(out@) =~= access_sites(sv.take(k + 1), fields, *idx));
        k = k + 1;
    }
    assert(sv.take(sv.len() as int) =~= sv);
    out
}

/// Errors for field reads whose type cannot be inferred, except those
/// about unknown variables and those inside values of typed assignments.
pub fn field_access_diagnostics(story: &Story) -> (r: Vec<Diagnostic>)
    ensures
        exists|idx: TypeIndex| #[trigger] is_index_of(idx, *story) && diag_views(r@) == access_sites(story_sites(*story), true, idx),
{
    let idx = build_type_index(story);
    access_diagnostics_with_index(story, true, &idx)
}

/// Errors for element reads whose type cannot be inferred, except those
/// about unknown variables and those inside values of typed assignments;
/// an element read inside another one is left to it.
pub fn index_access_diagnostics(story: &Story) -> (r: Vec<Diagnostic>)
    ensures
        exists|idx: TypeIndex| #[trigger] is_index_of(idx, *story) && diag_views(r@) == access_sites(story_sites(*story), false, idx),
{
    let idx = build_type_index(story);
    access_diagnostics_with_index(story, false, &idx)
}

} // verus!
