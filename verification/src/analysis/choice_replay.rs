//! What is evaluated while choices are generated (their conditions and
//! their text) must be safe to evaluate again: no calls with effects and
//! no statements.
use vstd::prelude::*;

use crate::analysis::sites::{collect_sites, site_view, sites_view, story_sites, SiteView};
use crate::diagnostic::{diag_views, DiagView, Diagnostic, DiagnosticSeverity};
use crate::parsed::{Choice, ConditionalBranch, DictLiteralEntry, Expression, Object, Story, StructLiteralField};
use crate::source::SourceSpan;
use crate::text::{concat3, str_eq};

verus! {

/// Built-in functions without effects.
pub open spec fn is_replay_safe_builtin(name: Seq<char>) -> bool {
    name == "MIN"@ || name == "MAX"@ || name == "POW"@ || name == "FLOOR"@ || name == "CEILING"@ || name == "INT"@
        || name == "FLOAT"@ || name == "LEN"@ || name == "DICT_HAS"@ || name == "DICT_SIZE"@ || name == "DICT_KEYS"@
        || name == "to_str"@
}

fn replay_safe_builtin(name: &str) -> (r: bool)
    ensures
        r == is_replay_safe_builtin(name@),
{
    proof {
        reveal_strlit("MIN");
        reveal_strlit("MAX");
        reveal_strlit("POW");
        reveal_strlit("FLOOR");
        reveal_strlit("CEILING");
        reveal_strlit("INT");
        reveal_strlit("FLOAT");
        reveal_strlit("LEN");
        reveal_strlit("DICT_HAS");
        reveal_strlit("DICT_SIZE");
        reveal_strlit("DICT_KEYS");
        reveal_strlit("to_str");
    }
    str_eq(name, "MIN") || str_eq(name, "MAX") || str_eq(name, "POW") || str_eq(name, "FLOOR") || str_eq(name, "CEILING")
        || str_eq(name, "INT") || str_eq(name, "FLOAT") || str_eq(name, "LEN") || str_eq(name, "DICT_HAS")
        || str_eq(name, "DICT_SIZE") || str_eq(name, "DICT_KEYS") || str_eq(name, "to_str")
}

/// The reasons, in order, that an expression evaluated during choice
/// generation is not safe to evaluate again.
pub open spec fn expr_reasons(e: Expression) -> Seq<Seq<char>>
    decreases e, 0nat,
{
    match e {
        Expression::FunctionCall { name, args } => if is_replay_safe_builtin(name@) {
            exprs_reasons(args@)
        } else if name@ == "RANDOM"@ || name@ == "SEED_RANDOM"@ {
            seq!["builtin '"@ + name@ + "' is not allowed during choice generation"@]
        } else {
            seq!["function call '"@ + name@ + "' is not allowed during choice generation"@]
        },
        Expression::QualifiedFunctionCall { name, args } => seq![
            "function call '"@ + name.module@ + "::"@ + name.symbol@ + "' is not allowed during choice generation"@,
        ] + exprs_reasons(args@),
        Expression::ArrayLiteral(es) => exprs_reasons(es@),
        Expression::MultipleCondition(es) => exprs_reasons(es@),
        Expression::StructLiteral(fields) => fields_reasons(fields@),
        Expression::DictLiteral(entries) => entries_reasons(entries@),
        Expression::TypedStructLiteral { literal_type: _, fields } => fields_reasons(fields@),
        Expression::FieldAccess { base, field: _ } => expr_reasons(*base),
        Expression::IndexAccess { base, index } => expr_reasons(*base) + expr_reasons(*index),
        Expression::Binary { operator: _, left, right } => expr_reasons(*left) + expr_reasons(*right),
        Expression::Unary { operator: _, expression } => expr_reasons(*expression),
        _ => Seq::empty(),
    }
}

pub open spec fn exprs_reasons(es: Seq<Expression>) -> Seq<Seq<char>>
    decreases es, 1nat,
{
    if es.len() == 0 {
        Seq::empty()
    } else {
        exprs_reasons(es.drop_last()) + expr_reasons(es.last())
    }
}

pub open spec fn fields_reasons(fs: Seq<StructLiteralField>) -> Seq<Seq<char>>
    decreases fs, 1nat,
{
    if fs.len() == 0 {
        Seq::empty()
    } else {
        fields_reasons(fs.drop_last()) + expr_reasons(fs.last().expression)
    }
}

pub open spec fn entries_reasons(es: Seq<DictLiteralEntry>) -> Seq<Seq<char>>
    decreases es, 1nat,
{
    if es.len() == 0 {
        Seq::empty()
    } else {
        entries_reasons(es.drop_last()) + expr_reasons(es.last().value)
    }
}

pub open spec fn opt_reasons(e: Option<Expression>) -> Seq<Seq<char>> {
    match e {
        Some(e) => expr_reasons(e),
        None => Seq::empty(),
    }
}

pub const SIDE_EFFECT_REASON: &'static str = "statements with side effects are not allowed during choice generation";

/// The reasons an object of choice text is not safe to evaluate again:
/// statements, and unsafe expressions in it.
pub open spec fn object_reasons(o: Object) -> Seq<Seq<char>>
    decreases o, 0nat,
{
    match o {
        Object::ContentList(c) => objects_reasons(c.objects@),
        Object::Expression(e) => expr_reasons(e),
        Object::LogicLine(e) => expr_reasons(e),
        Object::Conditional(c) => opt_reasons(c.initial_condition) + branches_reasons(c.branches@),
        Object::VariableAssignment(_) | Object::IncDec(_) | Object::Divert(_) | Object::TunnelOnwards(_) | Object::Return(_) => seq![
            "statements with side effects are not allowed during choice generation"@,
        ],
        _ => Seq::empty(),
    }
}

pub open spec fn objects_reasons(os: Seq<Object>) -> Seq<Seq<char>>
    decreases os, 1nat,
{
    if os.len() == 0 {
        Seq::empty()
    } else {
        objects_reasons(os.drop_last()) + object_reasons(os.last())
    }
}

pub open spec fn branches_reasons(bs: Seq<ConditionalBranch>) -> Seq<Seq<char>>
    decreases bs, 1nat,
{
    if bs.len() == 0 {
        Seq::empty()
    } else {
        branches_reasons(bs.drop_last()) + opt_reasons(bs.last().own_condition) + objects_reasons(bs.last().content.content@)
    }
}

/// `label must be replay-safe; reason` for each reason, at the choice.
pub open spec fn labelled(label: Seq<char>, reasons: Seq<Seq<char>>, span: SourceSpan) -> Seq<DiagView> {
    reasons.map_values(|r: Seq<char>| (DiagnosticSeverity::Error, label + " must be replay-safe; "@ + r, span))
}

/// The errors of one choice: its condition, then its start text.
pub open spec fn choice_reasons(c: Choice) -> Seq<DiagView> {
    labelled("Choice condition"@, opt_reasons(c.condition), c.span) + labelled(
        "Choice text"@,
        match c.start_content {
            Some(sc) => objects_reasons(sc.objects@),
            None => Seq::empty(),
        },
        c.span,
    )
}

pub open spec fn replay_checks(ss: Seq<SiteView>) -> Seq<DiagView>
    decreases ss.len(),
{
    if ss.len() == 0 {
        Seq::empty()
    } else {
        replay_checks(ss.drop_last()) + match ss.last().2 {
            Object::Choice(c) => choice_reasons(c),
            _ => Seq::empty(),
        }
    }
}

/// A choice whose condition calls a function that is not one of the
/// built-ins without effects (`MIN`, `MAX`, `POW`, `FLOOR`, `CEILING`, `INT`,
/// `FLOAT`, `LEN`, `DICT_HAS`, `DICT_SIZE`, `DICT_KEYS`, `to_str`) nor
/// `RANDOM` or `SEED_RANDOM` gets exactly one error, for that call; a call
/// of `RANDOM` or `SEED_RANDOM` gets exactly one error for the built-in; a
/// call of a built-in without effects whose arguments need nothing gets
/// none.
pub proof fn law_calls_in_choice_conditions(c: Choice, name: String, args: Vec<Expression>)
    requires
        c.condition == Some(Expression::FunctionCall { name, args }),
        c.start_content is None,
    ensures
        (name@ != "MIN"@ && name@ != "MAX"@ && name@ != "POW"@ && name@ != "FLOOR"@ && name@ != "CEILING"@ && name@ != "INT"@
            && name@ != "FLOAT"@ && name@ != "LEN"@ && name@ != "DICT_HAS"@ && name@ != "DICT_SIZE"@ && name@ != "DICT_KEYS"@
            && name@ != "to_str"@ && name@ != "RANDOM"@ && name@ != "SEED_RANDOM"@) ==> choice_reasons(c) == seq![
            (
                DiagnosticSeverity::Error,
                "Choice condition"@ + " must be replay-safe; "@ + ("function call '"@ + name@ + "' is not allowed during choice generation"@),
                c.span,
            ),
        ],
        (name@ == "RANDOM"@ || name@ == "SEED_RANDOM"@) ==> choice_reasons(c) == seq![
            (
                DiagnosticSeverity::Error,
                "Choice condition"@ + " must be replay-safe; "@ + ("builtin '"@ + name@ + "' is not allowed during choice generation"@),
                c.span,
            ),
        ],
        (name@ == "MIN"@ || name@ == "MAX"@ || name@ == "POW"@ || name@ == "FLOOR"@ || name@ == "CEILING"@ || name@ == "INT"@
            || name@ == "FLOAT"@ || name@ == "LEN"@ || name@ == "DICT_HAS"@ || name@ == "DICT_SIZE"@ || name@ == "DICT_KEYS"@
            || name@ == "to_str"@) && args@.len() == 0 ==> choice_reasons(c) == Seq::<DiagView>::empty(),
{
    let e = Expression::FunctionCall { name, args };
    if name@ == "RANDOM"@ || name@ == "SEED_RANDOM"@ {
        reveal_strlit("RANDOM");
        reveal_strlit("SEED_RANDOM");
        reveal_strlit("MIN");
        reveal_strlit("MAX");
        reveal_strlit("POW");
        reveal_strlit("FLOOR");
        reveal_strlit("CEILING");
        reveal_strlit("INT");
        reveal_strlit("FLOAT");
        reveal_strlit("LEN");
        reveal_strlit("DICT_HAS");
        reveal_strlit("DICT_SIZE");
        reveal_strlit("DICT_KEYS");
        reveal_strlit("to_str");
        assert(name@[0] == 'R' || name@[0] == 'S');
        assert(!is_replay_safe_builtin(name@));
    }
    assert(labelled("Choice text"@, Seq::empty(), c.span) =~= Seq::empty());
    let rs = opt_reasons(c.condition);
    assert(rs == expr_reasons(e));
    if args@.len() == 0 {
        assert(exprs_reasons(args@) =~= Seq::empty());
    }
    assert(labelled("Choice condition"@, rs, c.span) =~= rs.map_values(
        |r: Seq<char>| (DiagnosticSeverity::Error, "Choice condition"@ + " must be replay-safe; "@ + r, c.span),
    ));
    if rs.len() == 1 {
        assert(labelled("Choice condition"@, rs, c.span) =~= seq![
            (DiagnosticSeverity::Error, "Choice condition"@ + " must be replay-safe; "@ + rs[0], c.span),
        ]);
    }
}

/// A choice without a condition whose start text shows the value of a call
/// of a function that is not one of the built-ins without effects, nor
/// `RANDOM` or `SEED_RANDOM`, gets exactly one error, for that call.
pub proof fn law_calls_in_choice_text(c: Choice, name: String, args: Vec<Expression>)
    requires
        c.condition is None,
        c.start_content matches Some(sc) && sc.objects@ == seq![Object::Expression(Expression::FunctionCall { name, args })],
        name@ != "MIN"@ && name@ != "MAX"@ && name@ != "POW"@ && name@ != "FLOOR"@ && name@ != "CEILING"@ && name@ != "INT"@
            && name@ != "FLOAT"@ && name@ != "LEN"@ && name@ != "DICT_HAS"@ && name@ != "DICT_SIZE"@ && name@ != "DICT_KEYS"@
            && name@ != "to_str"@ && name@ != "RANDOM"@ && name@ != "SEED_RANDOM"@,
    ensures
        choice_reasons(c) == seq![
            (
                DiagnosticSeverity::Error,
                "Choice text"@ + " must be replay-safe; "@ + ("function call '"@ + name@ + "' is not allowed during choice generation"@),
                c.span,
            ),
        ],
{
    let e = Expression::FunctionCall { name, args };
    let sc = c.start_content->0;
    assert(sc.objects@.drop_last() =~= Seq::<Object>::empty());
    let rs = objects_reasons(sc.objects@);
    assert(sc.objects@.last() == Object::Expression(e));
    assert(objects_reasons(sc.objects@.drop_last()) =~= Seq::<Seq<char>>::empty());
    assert(rs =~= object_reasons(Object::Expression(e)));
    assert(labelled("Choice condition"@, Seq::empty(), c.span) =~= Seq::empty());
    assert(labelled("Choice text"@, rs, c.span) =~= seq![
        (DiagnosticSeverity::Error, "Choice text"@ + " must be replay-safe; "@ + rs[0], c.span),
    ]);
}

fn push_reason(reasons: &mut Vec<String>, r: String)
    ensures
        final(reasons)@.map_values(|s: String| s@) == old(reasons)@.map_values(|s: String| s@).push(r@),
{
    let ghost before = reasons@;
    reasons.push(r);
    assert(reasons@.map_values(|s: String| s@) =~= before.map_values(|s: String| s@).push(r@));
}

pub open spec fn reasons_view(rs: Seq<String>) -> Seq<Seq<char>> {
    rs.map_values(|s: String| s@)
}

fn collect_expr(e: &Expression, out: &mut Vec<String>)
    ensures
        reasons_view(final(out)@) == reasons_view(old(out)@) + expr_reasons(*e),
    decreases *e, 0nat,
{
    let ghost before = reasons_view(out@);
    match e {
        Expression::FunctionCall { name, args } => {
            proof {
                reveal_strlit("RANDOM");
                reveal_strlit("SEED_RANDOM");
            }
            if replay_safe_builtin(name.as_str()) {
                proof {
                    assert(decreases_to!(*e => (*e)->FunctionCall_args));
                    assert(decreases_to!((*e)->FunctionCall_args => args@));
                }
                collect_exprs(args, out);
            } else if str_eq(name.as_str(), "RANDOM") || str_eq(name.as_str(), "SEED_RANDOM") {
                push_reason(out, concat3("builtin '", name.as_str(), "' is not allowed during choice generation"));
                assert(reasons_view(out@) =~= before + expr_reasons(*e));
            } else {
                push_reason(out, concat3("function call '", name.as_str(), "' is not allowed during choice generation"));
                assert(reasons_view(out@) =~= before + expr_reasons(*e));
            }
        },
        Expression::QualifiedFunctionCall { name, args } => {
            let mut msg = concat3("function call '", name.module.as_str(), "::");
            msg.append(name.symbol.as_str());
            msg.append("' is not allowed during choice generation");
            push_reason(out, msg);
            proof {
                assert(decreases_to!(*e => (*e)->QualifiedFunctionCall_args));
                assert(decreases_to!((*e)->QualifiedFunctionCall_args => args@));
            }
            collect_exprs(args, out);
            assert(reasons_view(out@) =~= before + expr_reasons(*e));
        },
        Expression::ArrayLiteral(es) => {
            proof {
                assert(decreases_to!(*e => (*e)->ArrayLiteral_0));
                assert(decreases_to!((*e)->ArrayLiteral_0 => es@));
            }
            collect_exprs(es, out);
        },
        Expression::MultipleCondition(es) => {
            proof {
                assert(decreases_to!(*e => (*e)->MultipleCondition_0));
                assert(decreases_to!((*e)->MultipleCondition_0 => es@));
            }
            collect_exprs(es, out);
        },
        Expression::StructLiteral(fields) => {
            proof {
                assert(decreases_to!(*e => (*e)->StructLiteral_0));
                assert(decreases_to!((*e)->StructLiteral_0 => fields@));
            }
            collect_fields(fields, out);
        },
        Expression::DictLiteral(entries) => {
            proof {
                assert(decreases_to!(*e => (*e)->DictLiteral_0));
                assert(decreases_to!((*e)->DictLiteral_0 => entries@));
            }
            collect_entries(entries, out);
        },
        Expression::TypedStructLiteral { literal_type: _, fields } => {
            proof {
                assert(decreases_to!(*e => (*e)->TypedStructLiteral_fields));
                assert(decreases_to!((*e)->TypedStructLiteral_fields => fields@));
            }
            collect_fields(fields, out);
        },
        Expression::FieldAccess { base, field: _ } => collect_expr(base, out),
        Expression::IndexAccess { base, index } => {
            collect_expr(base, out);
            collect_expr(index, out);
            assert(reasons_view(out@) =~= before + expr_reasons(*e));
        },
        Expression::Binary { operator: _, left, right } => {
            collect_expr(left, out);
            collect_expr(right, out);
            assert(reasons_view(out@) =~= before + expr_reasons(*e));
        },
        Expression::Unary { operator: _, expression } => collect_expr(expression, out),
        _ => {
            assert(reasons_view(out@) =~= before + expr_reasons(*e));
        },
    }
}

fn collect_exprs(es: &Vec<Expression>, out: &mut Vec<String>)
    ensures
        reasons_view(final(out)@) == reasons_view(old(out)@) + exprs_reasons(es@),
    decreases es@, 1nat,
{
    let ghost before = reasons_view(out@);
    let mut i: usize = 0;
    assert(reasons_view(out@) =~= before + exprs_reasons(es@.take(0)));
    while i < es.len()
        invariant
            i <= es@.len(),
            reasons_view(out@) == before + exprs_reasons(es@.take(i as int)),
        decreases es.len() - i,
    {
        proof {
            assert(decreases_to!(es@ => es@[i as int]));
            assert(es@.take(i + 1).drop_last() =~= es@.take(i as int));
        }
        collect_expr(&es[i], out);
        assert(reasons_view(out@) =~= before + exprs_reasons(es@.take(i + 1)));
        i = i + 1;
    }
    assert(es@.take(es@.len() as int) =~= es@);
}

fn collect_entries(es: &Vec<DictLiteralEntry>, out: &mut Vec<String>)
    ensures
        reasons_view(final(out)@) == reasons_view(old(out)@) + entries_reasons(es@),
    decreases es@, 1nat,
{
    let ghost before = reasons_view(out@);
    let mut i: usize = 0;
    assert(reasons_view(out@) =~= before + entries_reasons(es@.take(0)));
    while i < es.len()
        invariant
            i <= es@.len(),
            reasons_view(out@) == before + entries_reasons(es@.take(i as int)),
        decreases es.len() - i,
    {
        proof {
            assert(decreases_to!(es@ => es@[i as int]));
            assert(decreases_to!(es@[i as int] => es@[i as int].value));
            assert(es@.take(i + 1).drop_last() =~= es@.take(i as int));
        }
        collect_expr(&es[i].value, out);
        assert(reasons_view(out@) =~= before + entries_reasons(es@.take(i + 1)));
        i = i + 1;
    }
    assert(es@.take(es@.len() as int) =~= es@);
}

fn collect_fields(fs: &Vec<StructLiteralField>, out: &mut Vec<String>)
    ensures
        reasons_view(final(out)@) == reasons_view(old(out)@) + fields_reasons(fs@),
    decreases fs@, 1nat,
{
    let ghost before = reasons_view(out@);
    let mut i: usize = 0;
    assert(reasons_view(out@) =~= before + fields_reasons(fs@.take(0)));
    while i < fs.len()
        invariant
            i <= fs@.len(),
            reasons_view(out@) == before + fields_reasons(fs@.take(i as int)),
        decreases fs.len() - i,
    {
        proof {
            assert(decreases_to!(fs@ => fs@[i as int]));
            assert(decreases_to!(fs@[i as int] => fs@[i as int].expression));
            assert(fs@.take(i + 1).drop_last() =~= fs@.take(i as int));
        }
        collect_expr(&fs[i].expression, out);
        assert(reasons_view(out@) =~= before + fields_reasons(fs@.take(i + 1)));
        i = i + 1;
    }
    assert(fs@.take(fs@.len() as int) =~= fs@);
}

fn collect_opt(e: &Option<Expression>, out: &mut Vec<String>)
    ensures
        reasons_view(final(out)@) == reasons_view(old(out)@) + opt_reasons(*e),
{
    match e {
        Some(e) => collect_expr(e, out),
        None => {
            assert(reasons_view(out@) =~= reasons_view(out@) + opt_reasons(None));
        },
    }
}

fn collect_object(o: &Object, out: &mut Vec<String>)
    ensures
        reasons_view(final(out)@) == reasons_view(old(out)@) + object_reasons(*o),
    decreases *o, 0nat,
{
    let ghost before = reasons_view(out@);
    match o {
        Object::ContentList(c) => {
            proof {
                assert(decreases_to!(*o => (*o)->ContentList_0));
                assert(decreases_to!((*o)->ContentList_0 => c.objects));
                assert(decreases_to!(c.objects => c.objects@));
            }
            collect_objects(&c.objects, out);
        },
        Object::Expression(e) => collect_expr(e, out),
        Object::LogicLine(e) => collect_expr(e, out),
        Object::Conditional(c) => {
            collect_opt(&c.initial_condition, out);
            proof {
                assert(decreases_to!(*o => (*o)->Conditional_0));
                assert(decreases_to!((*o)->Conditional_0 => c.branches));
                assert(decreases_to!(c.branches => c.branches@));
            }
            collect_branches(&c.branches, out);
            assert(reasons_view(out@) =~= before + object_reasons(*o));
        },
        Object::VariableAssignment(_) | Object::IncDec(_) | Object::Divert(_) | Object::TunnelOnwards(_) | Object::Return(_) => {
            push_reason(out, String::from_str(SIDE_EFFECT_REASON));
            proof { reveal_strlit("statements with side effects are not allowed during choice generation"); }
            assert(reasons_view(out@) =~= before + object_reasons(*o));
        },
        _ => {
            assert(reasons_view(out@) =~= before + object_reasons(*o));
        },
    }
}

fn collect_objects(os: &Vec<Object>, out: &mut Vec<String>)
    ensures
        reasons_view(final(out)@) == reasons_view(old(out)@) + objects_reasons(os@),
    decreases os@, 1nat,
{
    let ghost before = reasons_view(out@);
    let mut i: usize = 0;
    assert(reasons_view(out@) =~= before + objects_reasons(os@.take(0)));
    while i < os.len()
        invariant
            i <= os@.len(),
            reasons_view(out@) == before + objects_reasons(os@.take(i as int)),
        decreases os.len() - i,
    {
        proof {
            assert(decreases_to!(os@ => os@[i as int]));
            assert(os@.take(i + 1).drop_last() =~= os@.take(i as int));
        }
        collect_object(&os[i], out);
        assert(reasons_view(out@) =~= before + objects_reasons(os@.take(i + 1)));
        i = i + 1;
    }
    assert(os@.take(os@.len() as int) =~= os@);
}

fn collect_branches(bs: &Vec<ConditionalBranch>, out: &mut Vec<String>)
    ensures
        reasons_view(final(out)@) == reasons_view(old(out)@) + branches_reasons(bs@),
    decreases bs@, 1nat,
{
    let ghost before = reasons_view(out@);
    let mut i: usize = 0;
    assert(reasons_view(out@) =~= before + branches_reasons(bs@.take(0)));
    while i < bs.len()
        invariant
            i <= bs@.len(),
            reasons_view(out@) == before + branches_reasons(bs@.take(i as int)),
        decreases bs.len() - i,
    {
        proof {
            assert(decreases_to!(bs@ => bs@[i as int]));
            assert(decreases_to!(bs@[i as int] => bs@[i as int].content));
            assert(decreases_to!(bs@[i as int].content => bs@[i as int].content.content));
            assert(decreases_to!(bs@[i as int].content.content => bs@[i as int].content.content@));
            assert(bs@.take(i + 1).drop_last() =~= bs@.take(i as int));
        }
        collect_opt(&bs[i].own_condition, out);
        collect_objects(&bs[i].content.content, out);
        assert(reasons_view(out@) =~= before + branches_reasons(bs@.take(i + 1)));
        i = i + 1;
    }
    assert(bs@.take(bs@.len() as int) =~= bs@);
}

/// Appends `label must be replay-safe; reason` for each reason.
fn push_labelled(label: &str, reasons: &Vec<String>, span: &SourceSpan, out: &mut Vec<Diagnostic>)
    ensures
        diag_views(final(out)@) == diag_views(old(out)@) + labelled(label@, reasons_view(reasons@), *span),
{
    let ghost before = diag_views(out@);
    let ghost rv = reasons_view(reasons@);
    let mut i: usize = 0;
    assert(diag_views(out@) =~= before + labelled(label@, rv.take(0), *span));
    while i < reasons.len()
        invariant
            i <= reasons@.len(),
            rv == reasons_view(reasons@),
            diag_views(out@) == before + labelled(label@, rv.take(i as int), *span),
        decreases reasons.len() - i,
    {
        let mut msg = String::from_str(label);
        msg.append(" must be replay-safe; ");
        msg.append(reasons[i].as_str());
        let ghost prev = out@;
        out.push(Diagnostic::error(span.duplicate(), msg));
        proof {
            reveal_strlit(" must be replay-safe; ");
            assert(diag_views(out@) =~= diag_views(prev).push(diag_view_of(out@.last())));
            assert(labelled(label@, rv.take(i + 1), *span) =~= labelled(label@, rv.take(i as int), *span).push(
                (DiagnosticSeverity::Error, label@ + " must be replay-safe; "@ + rv[i as int], *span),
            ));
        }
        i = i + 1;
    }
    assert(rv.take(rv.len() as int) =~= rv);
}

pub open spec fn diag_view_of(d: Diagnostic) -> DiagView {
    crate::diagnostic::diag_view(d)
}

/// The replay errors of one choice.
fn check_choice(c: &Choice, out: &mut Vec<Diagnostic>)
    ensures
        diag_views(final(out)@) == diag_views(old(out)@) + choice_reasons(*c),
{
    let ghost before = diag_views(out@);
    let mut condition: Vec<String> = Vec::new();
    assert(reasons_view(condition@) =~= Seq::<Seq<char>>::empty());
    collect_opt(&c.condition, &mut condition);
    assert(reasons_view(condition@) =~= opt_reasons(c.condition));
    proof { reveal_strlit("Choice condition"); }
    push_labelled("Choice condition", &condition, &c.span, out);
    let mut text: Vec<String> = Vec::new();
    assert(reasons_view(text@) =~= Seq::<Seq<char>>::empty());
    match &c.start_content {
        Some(sc) => collect_objects(&sc.objects, &mut text),
        None => {},
    }
    assert(reasons_view(text@) =~= match c.start_content {
        Some(sc) => objects_reasons(sc.objects@),
        None => Seq::empty(),
    });
    proof { reveal_strlit("Choice text"); }
    push_labelled("Choice text", &text, &c.span, out);
    assert(diag_views(out@) =~= before + choice_reasons(*c));
}

/// The replay errors of every choice of `story`, in reading order: unsafe
/// calls in its condition, and statements or unsafe calls in its text.
pub fn choice_replay_diagnostics(story: &Story) -> (r: Vec<Diagnostic>)
    ensures
        diag_views(r@) == replay_checks(story_sites(*story)),
{
    let sites = collect_sites(story);
    let ghost sv = sites_view(sites@);
    let mut out: Vec<Diagnostic> = Vec::new();
    let mut k: usize = 0;
    assert(diag_views(out@) =~= replay_checks(sv.take(0)));
    while k < sites.len()
        invariant
            k <= sites@.len(),
            sv == sites_view(sites@),
            diag_views(out@) == replay_checks(sv.take(k as int)),
        decreases sites.len() - k,
    {
        assert(sv.take(k + 1).drop_last() =~= sv.take(k as int));
        assert(sv.take(k + 1).last() == site_view(sites@[k as int]));
        match sites[k].object {
            Object::Choice(c) => check_choice(c, &mut out),
            _ => {},
        }
        assert(diag_views(out@) =~= replay_checks(sv.take(k + 1)));
        k = k + 1;
    }
    assert(sv.take(sv.len() as int) =~= sv);
    out
}

} // verus!
