//! Call and divert targets: what a call or divert names must exist and be
//! of the right kind, and calls must match their signatures.
use vstd::prelude::*;

use crate::analysis::inference::{
    builtin_return_type, builtin_type, cross_module_stitch, display, divert_v, infer,
    infer_expression_type, int_v, is_cross_module_stitch, is_primitive, qualify_type, qualify_view,
    resolve_target, resolve_target_symbol, result_matches, view_display,
};
use crate::analysis::messages::{errors_at, messages_view, push_errors, push_message};
use crate::analysis::modules::uses::{dot_from, dot_index, double_colon_from, double_colon_index};
use crate::analysis::sites::{
    collect_flows, collect_sites, flow_site_view, flow_sites_view, opt_str_view, opt_string_view,
    site_view, sites_view, story_flows, story_sites, FlowSite, FlowSiteView, SiteView,
};
use crate::analysis::span::{object_span, object_span_spec};
use crate::analysis::structs::{build_type_index, is_index_of};
use crate::analysis::types::{
    contains_dot, contains_double_colon, find_enum, find_last_variable, first_enum, has_dot,
    has_double_colon, last_variable, scoped, scoped_name, visible_variable, ParameterSymbol,
    TargetSymbol, TypeIndex, VariableKind,
};
use crate::diagnostic::{diag_views, DiagView, Diagnostic};
use crate::parsed::{
    ConditionalBranch, DictLiteralEntry, DivertTarget, Expression, Flow, FlowArgument, Object,
    PrimitiveType, Story, StructLiteralField, TypeName, TypeView,
};
use crate::text::{chars_of, concat2, concat3, decimal, decimal_text, str_eq, string_from_chars};

verus! {

/// Where the checks of one object stand: the index, the module and flow,
/// and the arguments of the flow and whether it is a function.
pub struct TargetContext<'a> {
    pub idx: &'a TypeIndex,
    pub module: Option<&'a str>,
    pub flow: Option<&'a str>,
    pub flow_arguments: Option<&'a Vec<FlowArgument>>,
    pub in_function: bool,
}

/// The plain values a context stands for.
pub struct ContextView {
    pub idx: TypeIndex,
    pub module: Option<Seq<char>>,
    pub flow: Option<Seq<char>>,
    pub arguments: Option<Seq<FlowArgument>>,
    pub in_function: bool,
}

pub open spec fn context_view(ctx: TargetContext) -> ContextView {
    ContextView {
        idx: *ctx.idx,
        module: opt_str_view(ctx.module),
        flow: opt_str_view(ctx.flow),
        arguments: match ctx.flow_arguments {
            Some(a) => Some(a@),
            None => None,
        },
        in_function: ctx.in_function,
    }
}

pub open spec fn is_visible(c: ContextView, name: Seq<char>) -> bool {
    visible_variable(c.idx.variables@, c.module, c.flow, name) is Some
}

/// `s` holds neither `.` nor `:`.
pub open spec fn plain_name(s: Seq<char>) -> bool {
    forall|i: int| 0 <= i < s.len() ==> #[trigger] s[i] != '.' && s[i] != ':'
}

proof fn lemma_plain_name(s: Seq<char>, i: int)
    requires
        plain_name(s),
        0 <= i,
    ensures
        dot_from(s, i) == s.len(),
        double_colon_from(s, i) < 0,
    decreases s.len() - i,
{
    if i < s.len() {
        lemma_plain_name(s, i + 1);
    }
}

proof fn lemma_declared_variable(vs: Seq<crate::analysis::types::VariableSymbol>, m: Option<Seq<char>>, scope: Option<Seq<char>>, name: Seq<char>)
    ensures
        last_variable(vs, m, scope, name) is Some <==> exists|k: int| 0 <= k < vs.len() && crate::analysis::types::variable_matches(
            #[trigger] vs[k],
            m,
            scope,
            name,
        ),
    decreases vs.len(),
{
    if vs.len() > 0 {
        lemma_declared_variable(vs.drop_last(), m, scope, name);
        if exists|k: int| 0 <= k < vs.len() && crate::analysis::types::variable_matches(#[trigger] vs[k], m, scope, name) {
            let k = choose|k: int| 0 <= k < vs.len() && crate::analysis::types::variable_matches(#[trigger] vs[k], m, scope, name);
            if k < vs.len() - 1 {
                assert(vs.drop_last()[k] == vs[k]);
            }
        }
        if exists|k: int| 0 <= k < vs.len() - 1 && crate::analysis::types::variable_matches(#[trigger] vs.drop_last()[k], m, scope, name) {
            let k = choose|k: int| 0 <= k < vs.len() - 1 && crate::analysis::types::variable_matches(#[trigger] vs.drop_last()[k], m, scope, name);
            assert(vs[k] == vs.drop_last()[k]);
        }
    }
}

/// A plain name (no `.`, no `::`) read as a variable is accepted exactly
/// when a variable or constant of that name is declared in the current
/// module, either as a global or as a local of the current flow; otherwise
/// it gets exactly the error `Unresolved variable: name`.
pub proof fn law_unresolved_plain_variable(c: ContextView, name: Seq<char>)
    requires
        plain_name(name),
    ensures
        ({
            let vs = c.idx.variables@;
            let declared = (exists|k: int| 0 <= k < vs.len() && crate::analysis::types::variable_matches(#[trigger] vs[k], c.module, None, name))
                || (c.flow is Some && exists|k: int| 0 <= k < vs.len() && crate::analysis::types::variable_matches(
                #[trigger] vs[k],
                c.module,
                c.flow,
                name,
            ));
            reference_messages(c, name) == if declared {
                Seq::<Seq<char>>::empty()
            } else {
                seq!["Unresolved variable: "@ + name]
            }
        }),
{
    lemma_plain_name(name, 0);
    lemma_declared_variable(c.idx.variables@, c.module, None, name);
    match c.flow {
        Some(p) => lemma_declared_variable(c.idx.variables@, c.module, Some(p), name),
        None => {},
    }
    reveal_strlit("");
    assert("Unresolved variable: "@ + name + ""@ =~= "Unresolved variable: "@ + name);
}

/// A variable read `n` in an expression, with `n` a plain name, is checked
/// as that law says: no error when a global of the module or a local of the
/// flow has that name, else exactly `Unresolved variable: n`.
pub proof fn law_unresolved_variable_read(c: ContextView, n: String)
    requires
        plain_name(n@),
    ensures
        ({
            let vs = c.idx.variables@;
            let declared = (exists|k: int| 0 <= k < vs.len() && crate::analysis::types::variable_matches(#[trigger] vs[k], c.module, None, n@))
                || (c.flow is Some && exists|k: int| 0 <= k < vs.len() && crate::analysis::types::variable_matches(
                #[trigger] vs[k],
                c.module,
                c.flow,
                n@,
            ));
            expr_messages(c, Expression::VariableReference(n)) == if declared {
                Seq::<Seq<char>>::empty()
            } else {
                seq!["Unresolved variable: "@ + n@]
            }
        }),
{
    law_unresolved_plain_variable(c, n@);
}

/// A call of a name that is neither a built-in nor a knot, stitch or
/// function the call can reach gets first the error that the function is
/// not declared; a call of a function with another number of arguments than
/// it declares parameters gets first the error that says both numbers; a
/// call of a knot that is not a function gets first the error that it is
/// not marked as one. The arguments' own checks follow.
pub proof fn law_call_targets(c: ContextView, name: Seq<char>, args: Seq<Expression>)
    requires
        !is_cross_module_stitch(name, c.module),
        builtin_type(name) is None,
        name != "RANDOM"@ && name != "SEED_RANDOM"@ && name != "MIN"@ && name != "MAX"@ && name != "POW"@ && name != "FLOOR"@
            && name != "CEILING"@ && name != "INT"@ && name != "FLOAT"@,
    ensures
        resolve_target(c.idx.targets@, name, c.module, c.flow) is None ==> call_messages(c, name, args) == seq![
            "Function '"@ + name + "' is not declared"@,
        ] + list_messages(c, args),
        (resolve_target(c.idx.targets@, name, c.module, c.flow) is Some && !resolve_target(c.idx.targets@, name, c.module, c.flow)->0.is_function)
            ==> call_messages(c, name, args) == seq![
            name + " hasn't been marked as a function, but it's being called as one. Do you need to declare the knot as '== function "@
                + name + " =='?"@,
        ] + list_messages(c, args),
        ({
            let t = resolve_target(c.idx.targets@, name, c.module, c.flow);
            t is Some && t->0.is_function && t->0.parameters@.len() != args.len() ==> call_messages(c, name, args) == seq![
                "Function '"@ + name + "' expects "@ + decimal(t->0.parameters@.len()) + " arguments but got "@ + decimal(args.len()),
            ] + list_messages(c, args)
        }),
{
}

/// The part of a path before its first `.`.
pub open spec fn root_of(s: Seq<char>) -> Seq<char> {
    s.take(dot_from(s, 0))
}

/// Whether `module::name` is a global variable or constant.
pub open spec fn qualified_exists(c: ContextView, full: Seq<char>) -> bool {
    let i = double_colon_from(full, 0);
    let module = full.take(i);
    let name = full.skip(i + 2);
    &&& i >= 0
    &&& !(module.len() == 0 || name.len() == 0 || has_double_colon(name) || has_dot(name))
    &&& last_variable(c.idx.variables@, Some(module), None, name) matches Some(v) && v.kind != VariableKind::Local
}

pub open spec fn cross_message(t: Seq<char>) -> Seq<char> {
    "Cross-module direct stitch access is not allowed: '"@ + t + "'"@ + ". Import and reference the parent knot instead."@
}

pub open spec fn reference_messages(c: ContextView, name: Seq<char>) -> Seq<Seq<char>> {
    if has_double_colon(name) && qualified_exists(c, name) {
        Seq::empty()
    } else if has_dot(name) {
        Seq::empty()
    } else if is_visible(c, name) {
        Seq::empty()
    } else {
        seq!["Unresolved variable: "@ + name + ""@]
    }
}

/// Whether `e` is `Enum.member` for an enum of the index.
pub open spec fn is_enum_member(c: ContextView, e: Expression) -> bool {
    match e {
        Expression::FieldAccess { base, field: _ } => match *base {
            Expression::VariableReference(n) => first_enum(c.idx.enums@, scoped(c.module, n@)) is Some,
            Expression::QualifiedReference(q) => first_enum(c.idx.enums@, q.module@ + "::"@ + q.symbol@) is Some,
            _ => false,
        },
        _ => false,
    }
}

pub open spec fn is_runtime_builtin_name(name: Seq<char>) -> bool {
    name == "RANDOM"@ || name == "SEED_RANDOM"@ || name == "MIN"@ || name == "MAX"@ || name == "POW"@ || name == "FLOOR"@
        || name == "CEILING"@ || name == "INT"@ || name == "FLOAT"@
}

pub open spec fn is_lvalue(e: Expression) -> bool
    decreases e,
{
    match e {
        Expression::VariableReference(_) | Expression::QualifiedReference(_) => true,
        Expression::FieldAccess { base, field: _ } => is_lvalue(*base),
        Expression::IndexAccess { base, index: _ } => is_lvalue(*base),
        _ => false,
    }
}

/// The checks of the arguments of `LEN(..)` and `ARRAY_REMOVE(..)`.
pub open spec fn builtin_messages(c: ContextView, name: Seq<char>, args: Seq<Expression>) -> Seq<Seq<char>> {
    if name == "LEN"@ {
        if args.len() != 1 {
            seq!["Builtin 'LEN' expects 1 argument but got "@ + decimal(args.len()) + ""@]
        } else {
            match infer(args[0], c.idx, c.module, c.flow) {
                Ok(t) => if t is Array {
                    Seq::empty()
                } else {
                    seq!["Argument for builtin 'LEN' has type "@ + view_display(t) + " but expected array"@]
                },
                Err(x) => seq!["Cannot type-check argument for builtin 'LEN': "@ + x + ""@],
            }
        }
    } else if name == "ARRAY_REMOVE"@ {
        if args.len() != 2 {
            seq!["Builtin 'ARRAY_REMOVE' expects 2 arguments but got "@ + decimal(args.len()) + ""@]
        } else {
            (if is_lvalue(args[0]) {
                Seq::empty()
            } else {
                seq!["First argument for builtin 'ARRAY_REMOVE' must be a mutable lvalue"@]
            }) + match infer(args[0], c.idx, c.module, c.flow) {
                Ok(t) => if t is Array {
                    Seq::empty()
                } else {
                    seq!["First argument for builtin 'ARRAY_REMOVE' has type "@ + view_display(t) + " but expected array"@]
                },
                Err(x) => seq!["Cannot type-check first argument for builtin 'ARRAY_REMOVE': "@ + x + ""@],
            } + match infer(args[1], c.idx, c.module, c.flow) {
                Ok(t) => if t == int_v() {
                    Seq::empty()
                } else {
                    seq!["Second argument for builtin 'ARRAY_REMOVE' has type "@ + view_display(t) + " but expected int"@]
                },
                Err(x) => seq!["Cannot type-check second argument for builtin 'ARRAY_REMOVE': "@ + x + ""@],
            }
        }
    } else {
        Seq::empty()
    }
}

pub open spec fn is_composite(e: Expression) -> bool {
    e is ArrayLiteral || e is StructLiteral || e is TypedStructLiteral || e is DictLiteral
}

/// The module a qualified call names, if it is one.
pub open spec fn call_module(name: Seq<char>) -> Option<Seq<char>> {
    if double_colon_from(name, 0) >= 0 {
        Some(name.take(double_colon_from(name, 0)))
    } else {
        None
    }
}

/// The messages of the target checks of an expression: calls, variable
/// references and divert-target values in it.
pub open spec fn expr_messages(c: ContextView, e: Expression) -> Seq<Seq<char>>
    decreases e, 4nat,
{
    match e {
        Expression::FunctionCall { name, args } => call_messages(c, name@, args@),
        Expression::QualifiedFunctionCall { name, args } => call_messages(c, name.module@ + "::"@ + name.symbol@, args@),
        Expression::ArrayLiteral(es) => list_messages(c, es@),
        Expression::MultipleCondition(es) => list_messages(c, es@),
        Expression::StructLiteral(fs) => fields_messages(c, fs@),
        Expression::TypedStructLiteral { literal_type: _, fields } => fields_messages(c, fields@),
        Expression::DictLiteral(es) => entries_messages(c, es@),
        Expression::FieldAccess { base, field: _ } => if is_enum_member(c, e) {
            Seq::empty()
        } else {
            expr_messages(c, *base)
        },
        Expression::IndexAccess { base, index } => expr_messages(c, *base) + expr_messages(c, *index),
        Expression::Binary { operator: _, left, right } => expr_messages(c, *left) + expr_messages(c, *right),
        Expression::Unary { operator: _, expression } => expr_messages(c, *expression),
        Expression::DivertTarget(t) => if is_cross_module_stitch(t@, c.module) {
            seq![cross_message(t@)]
        } else if is_visible(c, root_of(t@)) {
            seq!["Since '"@ + root_of(t@) + "' is a variable, it shouldn't be preceded by '->' here."@]
        } else {
            Seq::empty()
        },
        Expression::VariableReference(n) => reference_messages(c, n@),
        Expression::QualifiedReference(q) => reference_messages(c, q.module@ + "::"@ + q.symbol@),
        _ => Seq::empty(),
    }
}

pub open spec fn list_messages(c: ContextView, es: Seq<Expression>) -> Seq<Seq<char>>
    decreases es, 0nat,
{
    if es.len() == 0 {
        Seq::empty()
    } else {
        list_messages(c, es.drop_last()) + expr_messages(c, es.last())
    }
}

pub open spec fn fields_messages(c: ContextView, fs: Seq<StructLiteralField>) -> Seq<Seq<char>>
    decreases fs, 0nat,
{
    if fs.len() == 0 {
        Seq::empty()
    } else {
        fields_messages(c, fs.drop_last()) + expr_messages(c, fs.last().expression)
    }
}

pub open spec fn entries_messages(c: ContextView, es: Seq<DictLiteralEntry>) -> Seq<Seq<char>>
    decreases es, 0nat,
{
    if es.len() == 0 {
        Seq::empty()
    } else {
        entries_messages(c, es.drop_last()) + expr_messages(c, es.last().value)
    }
}

/// The messages of a call of `name`: a cross-module stitch, a built-in, a
/// knot that is not a function, an unknown function, or the signature.
pub open spec fn call_messages(c: ContextView, name: Seq<char>, args: Seq<Expression>) -> Seq<Seq<char>>
    decreases args, 3nat,
{
    if is_cross_module_stitch(name, c.module) {
        seq![cross_message(name)] + list_messages(c, args)
    } else if builtin_type(name) is Some {
        builtin_messages(c, name, args) + list_messages(c, args)
    } else if is_runtime_builtin_name(name) {
        list_messages(c, args)
    } else {
        match resolve_target(c.idx.targets@, name, c.module, c.flow) {
            Some(symbol) => if !symbol.is_function {
                seq![
                    name + " hasn't been marked as a function, but it's being called as one. Do you need to declare the knot as '== function "@
                        + name + " =='?"@,
                ] + list_messages(c, args)
            } else {
                signature_messages(c, name, args, symbol.parameters@)
            },
            None => seq!["Function '"@ + name + "' is not declared"@] + list_messages(c, args),
        }
    }
}

pub open spec fn signature_messages(c: ContextView, name: Seq<char>, args: Seq<Expression>, params: Seq<ParameterSymbol>) -> Seq<Seq<char>>
    decreases args, 2nat,
{
    if args.len() != params.len() {
        seq![
            "Function '"@ + name + "' expects "@ + decimal(params.len()) + " arguments but got "@ + decimal(args.len()),
        ] + list_messages(c, args)
    } else {
        pairs_messages(c, name, args, params)
    }
}

pub open spec fn pairs_messages(c: ContextView, name: Seq<char>, args: Seq<Expression>, params: Seq<ParameterSymbol>) -> Seq<Seq<char>>
    decreases args, 1nat,
{
    if args.len() == 0 || params.len() == 0 {
        Seq::empty()
    } else {
        pairs_messages(c, name, args.drop_last(), params.drop_last()) + argument_messages(c, name, args.last(), params.last())
    }
}

/// The checks of one argument against its parameter.
pub open spec fn argument_messages(c: ContextView, name: Seq<char>, arg: Expression, param: ParameterSymbol) -> Seq<Seq<char>>
    decreases arg, 5nat,
{
    match param.declared_type {
        None => expr_messages(c, arg),
        Some(d) => {
            let expected = match call_module(name) {
                Some(m) => qualify_view(d.type_view(), m),
                None => d.type_view(),
            };
            if is_composite(arg) {
                expr_messages(c, arg)
            } else {
                match infer(arg, c.idx, c.module, c.flow) {
                    Ok(a) => (if a == expected {
                        Seq::empty()
                    } else {
                        seq![
                            "Argument '"@ + param.name@ + "' for function '"@ + name + "' has type "@ + view_display(a)
                                + " but expected "@ + view_display(expected),
                        ]
                    }) + expr_messages(c, arg),
                    Err(x) => seq!["Cannot type-check argument '"@ + param.name@ + "' for function '"@ + name + "': "@ + x],
                }
            }
        },
    }
}

/// The first argument of the current flow named `name`.
pub open spec fn flow_argument(args: Seq<FlowArgument>, name: Seq<char>) -> Option<FlowArgument>
    decreases args.len(),
{
    if args.len() == 0 {
        None
    } else if args[0].name@ == name {
        Some(args[0])
    } else {
        flow_argument(args.drop_first(), name)
    }
}

/// The checks of a divert to a knot or stitch path.
pub open spec fn plain_divert_messages(c: ContextView, target: Seq<char>, is_path: bool) -> Seq<Seq<char>> {
    if is_path && is_visible(c, root_of(target)) {
        seq![
            "Static divert targets must be knot or stitch paths. Use `-> {"@ + target + "}`"@ + " for a divert-target expression."@,
        ]
    } else if is_cross_module_stitch(target, c.module) {
        seq![cross_message(target)]
    } else {
        match resolve_target(c.idx.targets@, target, c.module, c.flow) {
            Some(symbol) => if symbol.is_function {
                seq![
                    target + " can't be diverted to. It can only be called as a function since it's been marked as such: '"@ + target
                        + "(...)'"@,
                ]
            } else {
                Seq::empty()
            },
            None => match (match c.arguments {
                Some(args) => flow_argument(args, root_of(target)),
                None => None,
            }) {
                Some(a) => if (a.declared_type matches Some(t) && t.type_view() == divert_v()) {
                    Seq::empty()
                } else {
                    seq![
                        "Since '"@ + a.name@ + "' is used as a variable divert target, it should be marked as: -> "@ + a.name@,
                    ]
                },
                None => seq!["target not found: '"@ + target + "'"@],
            },
        }
    }
}

/// The error for a path into a stitch of another module.
pub open spec fn cross_messages(c: ContextView, target: Seq<char>) -> Seq<Seq<char>> {
    if is_cross_module_stitch(target, c.module) {
        seq![cross_message(target)]
    } else {
        Seq::empty()
    }
}

/// The checks of `->->` with another target: a dynamic target is checked
/// as for a divert; a path may not lead into a stitch of another module.
pub open spec fn onwards_target_messages(c: ContextView, t: Option<DivertTarget>) -> Seq<Seq<char>> {
    match t {
        Some(DivertTarget::Dynamic(e)) => dynamic_divert_messages(c, e),
        Some(DivertTarget::Path(p)) => cross_messages(c, p@),
        Some(DivertTarget::QualifiedPath(q)) => cross_messages(c, q.module@ + "::"@ + q.symbol@),
        _ => Seq::empty(),
    }
}

/// The checks of `-> {expression}`.
pub open spec fn dynamic_divert_messages(c: ContextView, e: Expression) -> Seq<Seq<char>> {
    expr_messages(c, e) + match infer(e, c.idx, c.module, c.flow) {
        Ok(t) => if t == divert_v() {
            Seq::empty()
        } else {
            seq!["Dynamic divert target has type "@ + view_display(t) + " but expected ->"@]
        },
        Err(x) => seq!["Cannot type-check dynamic divert target: "@ + x + ""@],
    }
}

pub open spec fn opt_messages(c: ContextView, e: Option<Expression>) -> Seq<Seq<char>> {
    match e {
        Some(e) => expr_messages(c, e),
        None => Seq::empty(),
    }
}

pub open spec fn branch_condition_messages(c: ContextView, bs: Seq<ConditionalBranch>) -> Seq<Seq<char>>
    decreases bs.len(),
{
    if bs.len() == 0 {
        Seq::empty()
    } else {
        branch_condition_messages(c, bs.drop_last()) + opt_messages(c, bs.last().own_condition)
    }
}

/// The target errors of one object.
pub open spec fn object_target_checks(c: ContextView, o: Object) -> Seq<DiagView> {
    match o {
        Object::Divert(d) => errors_at(
            (match d.target {
                DivertTarget::Dynamic(e) => dynamic_divert_messages(c, e),
                DivertTarget::Path(p) => if c.in_function {
                    Seq::empty()
                } else {
                    plain_divert_messages(c, p@, true)
                },
                DivertTarget::QualifiedPath(q) => if c.in_function {
                    Seq::empty()
                } else {
                    plain_divert_messages(c, q.module@ + "::"@ + q.symbol@, false)
                },
                _ => Seq::empty(),
            }) + list_messages(c, d.arguments@),
            d.span,
        ),
        Object::TunnelOnwards(t) => errors_at(onwards_target_messages(c, t.override_target) + list_messages(c, t.arguments@), t.span),
        Object::ConstantDeclaration(k) => errors_at(expr_messages(c, k.expression), k.span),
        Object::Expression(e) => errors_at(expr_messages(c, e), object_span_spec(o)),
        Object::LogicLine(e) => errors_at(expr_messages(c, e), object_span_spec(o)),
        Object::VariableAssignment(a) => errors_at(opt_messages(c, a.expression), a.span),
        Object::IncDec(k) => errors_at(expr_messages(c, k.expression), k.span),
        Object::Return(r) => errors_at(opt_messages(c, r.expression), r.span),
        Object::Conditional(k) => errors_at(
            opt_messages(c, k.initial_condition) + branch_condition_messages(c, k.branches@),
            object_span_spec(o),
        ),
        Object::Choice(k) => errors_at(opt_messages(c, k.condition), k.span),
        _ => Seq::empty(),
    }
}

/// The first flow of `flows` at `path` in module `m`.
pub open spec fn flow_at(flows: Seq<FlowSiteView>, m: Option<Seq<char>>, path: Seq<char>) -> Option<Flow>
    decreases flows.len(),
{
    if flows.len() == 0 {
        None
    } else if flows[0].0 == m && flows[0].1 == path {
        Some(flows[0].3)
    } else {
        flow_at(flows.drop_first(), m, path)
    }
}

/// The context of a site: its module and flow, and that flow's arguments
/// and kind.
pub open spec fn site_context(idx: TypeIndex, flows: Seq<FlowSiteView>, s: SiteView) -> ContextView {
    let fl = match s.1 {
        Some(p) => flow_at(flows, s.0, p),
        None => None,
    };
    ContextView {
        idx,
        module: s.0,
        flow: s.1,
        arguments: match fl {
            Some(f) => Some(f.arguments@),
            None => None,
        },
        in_function: match fl {
            Some(f) => f.is_function,
            None => false,
        },
    }
}

pub open spec fn target_checks(idx: TypeIndex, flows: Seq<FlowSiteView>, ss: Seq<SiteView>) -> Seq<DiagView>
    decreases ss.len(),
{
    if ss.len() == 0 {
        Seq::empty()
    } else {
        target_checks(idx, flows, ss.drop_last()) + object_target_checks(site_context(idx, flows, ss.last()), ss.last().2)
    }
}

fn visible(name: &str, ctx: &TargetContext) -> (r: bool)
    ensures
        r == is_visible(context_view(*ctx), name@),
{
    let local = match ctx.flow {
        Some(p) => find_last_variable(&ctx.idx.variables, ctx.module, Some(p), name),
        None => None,
    };
    match local {
        Some(_) => true,
        None => find_last_variable(&ctx.idx.variables, ctx.module, None, name).is_some(),
    }
}

fn path_root(path: &str) -> (r: String)
    ensures
        r@ == root_of(path@),
{
    let chars = chars_of(path);
    let dot = dot_index(&chars);
    let r = string_from_chars(&chars, 0, dot);
    assert(r@ =~= path@.take(dot as int));
    r
}

fn qualified_global_exists(full: &str, ctx: &TargetContext) -> (r: bool)
    ensures
        r == qualified_exists(context_view(*ctx), full@),
{
    let chars = chars_of(full);
    match double_colon_index(&chars) {
        Some(i) => {
            let module = string_from_chars(&chars, 0, i);
            let name = string_from_chars(&chars, i + 2, chars.len());
            assert(module@ =~= full@.take(i as int));
            assert(name@ =~= full@.skip(i + 2));
            if module.unicode_len() == 0 || name.unicode_len() == 0 || contains_double_colon(name.as_str()) || contains_dot(name.as_str()) {
                return false;
            }
            match find_last_variable(&ctx.idx.variables, Some(module.as_str()), None, name.as_str()) {
                Some(v) => v.kind != VariableKind::Local,
                None => false,
            }
        },
        None => false,
    }
}

fn cross_text(target: &str) -> (r: String)
    ensures
        r@ == cross_message(target@),
{
    let mut msg = concat3("Cross-module direct stitch access is not allowed: '", target, "'");
    msg.append(". Import and reference the parent knot instead.");
    msg
}

fn check_variable_reference(name: &str, ctx: &TargetContext, msgs: &mut Vec<String>)
    ensures
        messages_view(final(msgs)@) == messages_view(old(msgs)@) + reference_messages(context_view(*ctx), name@),
{
    let ghost before = messages_view(msgs@);
    if (contains_double_colon(name) && qualified_global_exists(name, ctx)) || contains_dot(name) || visible(name, ctx) {
        assert(messages_view(msgs@) =~= before + reference_messages(context_view(*ctx), name@));
        return;
    }
    push_message(msgs, concat3("Unresolved variable: ", name, ""));
    assert(messages_view(msgs@) =~= before + reference_messages(context_view(*ctx), name@));
}

fn is_enum_member_reference(e: &Expression, ctx: &TargetContext) -> (r: bool)
    ensures
        r == is_enum_member(context_view(*ctx), *e),
{
    match e {
        Expression::FieldAccess { base, field: _ } => match &**base {
            Expression::VariableReference(n) => {
                let key = scoped_name(ctx.module, n.as_str());
                find_enum(&ctx.idx.enums, key.as_str()).is_some()
            },
            Expression::QualifiedReference(q) => {
                let key = concat3(q.module.as_str(), "::", q.symbol.as_str());
                find_enum(&ctx.idx.enums, key.as_str()).is_some()
            },
            _ => false,
        },
        _ => false,
    }
}

fn is_runtime_builtin(name: &str) -> (r: bool)
    ensures
        r == is_runtime_builtin_name(name@),
{
    proof {
        reveal_strlit("RANDOM");
        reveal_strlit("SEED_RANDOM");
        reveal_strlit("MIN");
        reveal_strlit("MAX");
        reveal_strlit("POW");
        reveal_strlit("FLOOR");
        reveal_strlit("CEILING");
        reveal_strlit("INT");
        reveal_strlit("FLOAT");
    }
    str_eq(name, "RANDOM") || str_eq(name, "SEED_RANDOM") || str_eq(name, "MIN") || str_eq(name, "MAX")
        || str_eq(name, "POW") || str_eq(name, "FLOOR") || str_eq(name, "CEILING") || str_eq(name, "INT")
        || str_eq(name, "FLOAT")
}

fn is_mutable_lvalue(e: &Expression) -> (r: bool)
    ensures
        r == is_lvalue(*e),
    decreases e,
{
    match e {
        Expression::VariableReference(_) | Expression::QualifiedReference(_) => true,
        Expression::FieldAccess { base, field: _ } => is_mutable_lvalue(base),
        Expression::IndexAccess { base, index: _ } => is_mutable_lvalue(base),
        _ => false,
    }
}

fn is_array(t: &TypeName) -> (r: bool)
    ensures
        r == (t.type_view() is Array),
{
    match t {
        TypeName::Array(_) => true,
        _ => false,
    }
}

fn check_typed_builtin(name: &str, args: &Vec<Expression>, ctx: &TargetContext, msgs: &mut Vec<String>)
    ensures
        messages_view(final(msgs)@) == messages_view(old(msgs)@) + builtin_messages(context_view(*ctx), name@, args@),
{
    let ghost before = messages_view(msgs@);
    let ghost c = context_view(*ctx);
    proof {
        reveal_strlit("LEN");
        reveal_strlit("ARRAY_REMOVE");
    }
    if str_eq(name, "LEN") {
        if args.len() != 1 {
            let count = decimal_text(args.len() as u64);
            push_message(msgs, concat3("Builtin 'LEN' expects 1 argument but got ", count.as_str(), ""));
            assert(messages_view(msgs@) =~= before + builtin_messages(c, name@, args@));
            return;
        }
        match infer_expression_type(&args[0], ctx.idx, ctx.module, ctx.flow) {
            Ok(t) => {
                if !is_array(&t) {
                    let d = display(&t);
                    push_message(msgs, concat3("Argument for builtin 'LEN' has type ", d.as_str(), " but expected array"));
                }
            },
            Err(x) => push_message(msgs, concat3("Cannot type-check argument for builtin 'LEN': ", x.message.as_str(), "")),
        }
        assert(messages_view(msgs@) =~= before + builtin_messages(c, name@, args@));
    } else if str_eq(name, "ARRAY_REMOVE") {
        if args.len() != 2 {
            let count = decimal_text(args.len() as u64);
            push_message(msgs, concat3("Builtin 'ARRAY_REMOVE' expects 2 arguments but got ", count.as_str(), ""));
            assert(messages_view(msgs@) =~= before + builtin_messages(c, name@, args@));
            return;
        }
        if !is_mutable_lvalue(&args[0]) {
            push_message(msgs, String::from_str("First argument for builtin 'ARRAY_REMOVE' must be a mutable lvalue"));
        }
        match infer_expression_type(&args[0], ctx.idx, ctx.module, ctx.flow) {
            Ok(t) => {
                if !is_array(&t) {
                    let d = display(&t);
                    push_message(msgs, concat3("First argument for builtin 'ARRAY_REMOVE' has type ", d.as_str(), " but expected array"));
                }
            },
            Err(x) => push_message(msgs, concat3("Cannot type-check first argument for builtin 'ARRAY_REMOVE': ", x.message.as_str(), "")),
        }
        match infer_expression_type(&args[1], ctx.idx, ctx.module, ctx.flow) {
            Ok(t) => {
                if !is_primitive(&t, PrimitiveType::Int) {
                    let d = display(&t);
                    push_message(msgs, concat3("Second argument for builtin 'ARRAY_REMOVE' has type ", d.as_str(), " but expected int"));
                }
            },
            Err(x) => push_message(msgs, concat3("Cannot type-check second argument for builtin 'ARRAY_REMOVE': ", x.message.as_str(), "")),
        }
        assert(messages_view(msgs@) =~= before + builtin_messages(c, name@, args@));
    } else {
        assert(messages_view(msgs@) =~= before + builtin_messages(c, name@, args@));
    }
}

fn check_list(es: &Vec<Expression>, ctx: &TargetContext, msgs: &mut Vec<String>)
    ensures
        messages_view(final(msgs)@) == messages_view(old(msgs)@) + list_messages(context_view(*ctx), es@),
    decreases es@, 0nat,
{
    let ghost before = messages_view(msgs@);
    let ghost c = context_view(*ctx);
    let mut i: usize = 0;
    assert(messages_view(msgs@) =~= before + list_messages(c, es@.take(0)));
    while i < es.len()
        invariant
            i <= es@.len(),
            c == context_view(*ctx),
            messages_view(msgs@) == before + list_messages(c, es@.take(i as int)),
        decreases es.len() - i,
    {
        proof {
            assert(decreases_to!(es@ => es@[i as int]));
            assert(es@.take(i + 1).drop_last() =~= es@.take(i as int));
        }
        check_expression(&es[i], ctx, msgs);
        assert(messages_view(msgs@) =~= before + list_messages(c, es@.take(i + 1)));
        i = i + 1;
    }
    assert(es@.take(es@.len() as int) =~= es@);
}

fn check_fields(fs: &Vec<StructLiteralField>, ctx: &TargetContext, msgs: &mut Vec<String>)
    ensures
        messages_view(final(msgs)@) == messages_view(old(msgs)@) + fields_messages(context_view(*ctx), fs@),
    decreases fs@, 0nat,
{
    let ghost before = messages_view(msgs@);
    let ghost c = context_view(*ctx);
    let mut i: usize = 0;
    assert(messages_view(msgs@) =~= before + fields_messages(c, fs@.take(0)));
    while i < fs.len()
        invariant
            i <= fs@.len(),
            c == context_view(*ctx),
            messages_view(msgs@) == before + fields_messages(c, fs@.take(i as int)),
        decreases fs.len() - i,
    {
        proof {
            assert(decreases_to!(fs@ => fs@[i as int]));
            assert(decreases_to!(fs@[i as int] => fs@[i as int].expression));
            assert(fs@.take(i + 1).drop_last() =~= fs@.take(i as int));
        }
        check_expression(&fs[i].expression, ctx, msgs);
        assert(messages_view(msgs@) =~= before + fields_messages(c, fs@.take(i + 1)));
        i = i + 1;
    }
    assert(fs@.take(fs@.len() as int) =~= fs@);
}

fn check_entries(es: &Vec<DictLiteralEntry>, ctx: &TargetContext, msgs: &mut Vec<String>)
    ensures
        messages_view(final(msgs)@) == messages_view(old(msgs)@) + entries_messages(context_view(*ctx), es@),
    decreases es@, 0nat,
{
    let ghost before = messages_view(msgs@);
    let ghost c = context_view(*ctx);
    let mut i: usize = 0;
    assert(messages_view(msgs@) =~= before + entries_messages(c, es@.take(0)));
    while i < es.len()
        invariant
            i <= es@.len(),
            c == context_view(*ctx),
            messages_view(msgs@) == before + entries_messages(c, es@.take(i as int)),
        decreases es.len() - i,
    {
        proof {
            assert(decreases_to!(es@ => es@[i as int]));
            assert(decreases_to!(es@[i as int] => es@[i as int].value));
            assert(es@.take(i + 1).drop_last() =~= es@.take(i as int));
        }
        check_expression(&es[i].value, ctx, msgs);
        assert(messages_view(msgs@) =~= before + entries_messages(c, es@.take(i + 1)));
        i = i + 1;
    }
    assert(es@.take(es@.len() as int) =~= es@);
}

/// The target checks of an expression.
fn check_expression(e: &Expression, ctx: &TargetContext, msgs: &mut Vec<String>)
    ensures
        messages_view(final(msgs)@) == messages_view(old(msgs)@) + expr_messages(context_view(*ctx), *e),
    decreases *e, 4nat,
{
    let ghost before = messages_view(msgs@);
    let ghost c = context_view(*ctx);
    match e {
        Expression::FunctionCall { name, args } => {
            proof {
                assert(decreases_to!(*e => (*e)->FunctionCall_args));
                assert(decreases_to!((*e)->FunctionCall_args => args@));
            }
            check_call(name.as_str(), args, ctx, msgs);
        },
        Expression::QualifiedFunctionCall { name, args } => {
            let full = concat3(name.module.as_str(), "::", name.symbol.as_str());
            proof {
                assert(decreases_to!(*e => (*e)->QualifiedFunctionCall_args));
                assert(decreases_to!((*e)->QualifiedFunctionCall_args => args@));
            }
            check_call(full.as_str(), args, ctx, msgs);
        },
        Expression::ArrayLiteral(es) => {
            proof {
                assert(decreases_to!(*e => (*e)->ArrayLiteral_0));
                assert(decreases_to!((*e)->ArrayLiteral_0 => es@));
            }
            check_list(es, ctx, msgs);
        },
        Expression::MultipleCondition(es) => {
            proof {
                assert(decreases_to!(*e => (*e)->MultipleCondition_0));
                assert(decreases_to!((*e)->MultipleCondition_0 => es@));
            }
            check_list(es, ctx, msgs);
        },
        Expression::StructLiteral(fs) => {
            proof {
                assert(decreases_to!(*e => (*e)->StructLiteral_0));
                assert(decreases_to!((*e)->StructLiteral_0 => fs@));
            }
            check_fields(fs, ctx, msgs);
        },
        Expression::TypedStructLiteral { literal_type: _, fields } => {
            proof {
                assert(decreases_to!(*e => (*e)->TypedStructLiteral_fields));
                assert(decreases_to!((*e)->TypedStructLiteral_fields => fields@));
            }
            check_fields(fields, ctx, msgs);
        },
        Expression::DictLiteral(es) => {
            proof {
                assert(decreases_to!(*e => (*e)->DictLiteral_0));
                assert(decreases_to!((*e)->DictLiteral_0 => es@));
            }
            check_entries(es, ctx, msgs);
        },
        Expression::FieldAccess { base, field: _ } => {
            if !is_enum_member_reference(e, ctx) {
                check_expression(base, ctx, msgs);
            } else {
                assert(messages_view(msgs@) =~= before + expr_messages(c, *e));
            }
        },
        Expression::IndexAccess { base, index } => {
            check_expression(base, ctx, msgs);
            check_expression(index, ctx, msgs);
            assert(messages_view(msgs@) =~= before + expr_messages(c, *e));
        },
        Expression::Binary { operator: _, left, right } => {
            check_expression(left, ctx, msgs);
            check_expression(right, ctx, msgs);
            assert(messages_view(msgs@) =~= before + expr_messages(c, *e));
        },
        Expression::Unary { operator: _, expression } => check_expression(expression, ctx, msgs),
        Expression::DivertTarget(t) => {
            if cross_module_stitch(t.as_str(), ctx.module) {
                push_message(msgs, cross_text(t.as_str()));
            } else {
                let root = path_root(t.as_str());
                if visible(root.as_str(), ctx) {
                    push_message(msgs, concat3("Since '", root.as_str(), "' is a variable, it shouldn't be preceded by '->' here."));
                }
            }
            assert(messages_view(msgs@) =~= before + expr_messages(c, *e));
        },
        Expression::VariableReference(n) => check_variable_reference(n.as_str(), ctx, msgs),
        Expression::QualifiedReference(q) => {
            let full = concat3(q.module.as_str(), "::", q.symbol.as_str());
            check_variable_reference(full.as_str(), ctx, msgs);
        },
        _ => {
            assert(messages_view(msgs@) =~= before + expr_messages(c, *e));
        },
    }
}

/// The checks of a call of `name` with `args`.
fn check_call(name: &str, args: &Vec<Expression>, ctx: &TargetContext, msgs: &mut Vec<String>)
    ensures
        messages_view(final(msgs)@) == messages_view(old(msgs)@) + call_messages(context_view(*ctx), name@, args@),
    decreases args@, 3nat,
{
    let ghost before = messages_view(msgs@);
    let ghost c = context_view(*ctx);
    if cross_module_stitch(name, ctx.module) {
        push_message(msgs, cross_text(name));
        check_list(args, ctx, msgs);
        assert(messages_view(msgs@) =~= before + call_messages(c, name@, args@));
        return;
    }
    if builtin_return_type(name).is_some() {
        check_typed_builtin(name, args, ctx, msgs);
        check_list(args, ctx, msgs);
        assert(messages_view(msgs@) =~= before + call_messages(c, name@, args@));
        return;
    }
    if is_runtime_builtin(name) {
        check_list(args, ctx, msgs);
        return;
    }
    match resolve_target_symbol(&ctx.idx.targets, name, ctx.module, ctx.flow) {
        Some(symbol) => {
            if !symbol.is_function {
                let mut msg = concat3(name, " hasn't been marked as a function, but it's being called as one. Do you need to declare the knot as '== function ", name);
                msg.append(" =='?");
                push_message(msgs, msg);
                check_list(args, ctx, msgs);
                assert(messages_view(msgs@) =~= before + call_messages(c, name@, args@));
            } else {
                check_signature(name, args, &symbol.parameters, ctx, msgs);
            }
        },
        None => {
            push_message(msgs, concat3("Function '", name, "' is not declared"));
            check_list(args, ctx, msgs);
            assert(messages_view(msgs@) =~= before + call_messages(c, name@, args@));
        },
    }
}

fn is_composite_literal(e: &Expression) -> (r: bool)
    ensures
        r == is_composite(*e),
{
    match e {
        Expression::ArrayLiteral(_) | Expression::StructLiteral(_) | Expression::TypedStructLiteral { .. }
        | Expression::DictLiteral(_) => true,
        _ => false,
    }
}

fn module_of_call(name: &str) -> (r: Option<String>)
    ensures
        match r {
            Some(m) => call_module(name@) == Some(m@),
            None => call_module(name@) is None,
        },
{
    let chars = chars_of(name);
    match double_colon_index(&chars) {
        Some(i) => {
            let m = string_from_chars(&chars, 0, i);
            assert(m@ =~= name@.take(i as int));
            Some(m)
        },
        None => None,
    }
}

/// The checks of one argument against its parameter.
fn check_argument(name: &str, module: &Option<String>, arg: &Expression, param: &ParameterSymbol, ctx: &TargetContext, msgs: &mut Vec<String>)
    requires
        match *module {
            Some(m) => call_module(name@) == Some(m@),
            None => call_module(name@) is None,
        },
    ensures
        messages_view(final(msgs)@) == messages_view(old(msgs)@) + argument_messages(context_view(*ctx), name@, *arg, *param),
    decreases *arg, 5nat,
{
    let ghost before = messages_view(msgs@);
    let ghost c = context_view(*ctx);
    match &param.declared_type {
        None => check_expression(arg, ctx, msgs),
        Some(declared) => {
            let expected = match module {
                Some(m) => qualify_type(declared, m.as_str()),
                None => declared.duplicate(),
            };
            if is_composite_literal(arg) {
                check_expression(arg, ctx, msgs);
            } else {
                match infer_expression_type(arg, ctx.idx, ctx.module, ctx.flow) {
                    Ok(actual) => {
                        if !actual.same_as(&expected) {
                            let mut msg = concat3("Argument '", param.name.as_str(), "' for function '");
                            msg.append(name);
                            msg.append("' has type ");
                            let a = display(&actual);
                            msg.append(a.as_str());
                            msg.append(" but expected ");
                            let d = display(&expected);
                            msg.append(d.as_str());
                            push_message(msgs, msg);
                        }
                        check_expression(arg, ctx, msgs);
                        assert(messages_view(msgs@) =~= before + argument_messages(c, name@, *arg, *param));
                    },
                    Err(x) => {
                        let mut msg = concat3("Cannot type-check argument '", param.name.as_str(), "' for function '");
                        msg.append(name);
                        msg.append("': ");
                        msg.append(x.message.as_str());
                        push_message(msgs, msg);
                        assert(messages_view(msgs@) =~= before + argument_messages(c, name@, *arg, *param));
                    },
                }
            }
        },
    }
}

/// The checks of a call's arguments against `params`.
fn check_signature(name: &str, args: &Vec<Expression>, params: &Vec<ParameterSymbol>, ctx: &TargetContext, msgs: &mut Vec<String>)
    ensures
        messages_view(final(msgs)@) == messages_view(old(msgs)@) + signature_messages(context_view(*ctx), name@, args@, params@),
    decreases args@, 2nat,
{
    let ghost before = messages_view(msgs@);
    let ghost c = context_view(*ctx);
    if args.len() != params.len() {
        let mut msg = concat3("Function '", name, "' expects ");
        let expected = decimal_text(params.len() as u64);
        msg.append(expected.as_str());
        msg.append(" arguments but got ");
        let got = decimal_text(args.len() as u64);
        msg.append(got.as_str());
        push_message(msgs, msg);
        check_list(args, ctx, msgs);
        assert(messages_view(msgs@) =~= before + signature_messages(c, name@, args@, params@));
        return;
    }
    let module = module_of_call(name);
    let mut i: usize = 0;
    assert(messages_view(msgs@) =~= before + pairs_messages(c, name@, args@.take(0), params@.take(0)));
    while i < args.len()
        invariant
            i <= args@.len(),
            args@.len() == params@.len(),
            c == context_view(*ctx),
            match module {
                Some(m) => call_module(name@) == Some(m@),
                None => call_module(name@) is None,
            },
            messages_view(msgs@) == before + pairs_messages(c, name@, args@.take(i as int), params@.take(i as int)),
        decreases args.len() - i,
    {
        proof {
            assert(decreases_to!(args@ => args@[i as int]));
            assert(args@.take(i + 1).drop_last() =~= args@.take(i as int));
            assert(params@.take(i + 1).drop_last() =~= params@.take(i as int));
        }
        check_argument(name, &module, &args[i], &params[i], ctx, msgs);
        assert(messages_view(msgs@) =~= before + pairs_messages(c, name@, args@.take(i + 1), params@.take(i + 1)));
        i = i + 1;
    }
    assert(args@.take(args@.len() as int) =~= args@);
    assert(params@.take(params@.len() as int) =~= params@);
}

fn current_flow_argument<'a>(target: &str, ctx: &TargetContext<'a>) -> (r: Option<&'a FlowArgument>)
    ensures
        match r {
            Some(a) => (match context_view(*ctx).arguments {
                Some(args) => flow_argument(args, root_of(target@)),
                None => None,
            }) == Some(*a),
            None => (match context_view(*ctx).arguments {
                Some(args) => flow_argument(args, root_of(target@)),
                None => None,
            }) is None,
        },
{
    let root = path_root(target);
    match ctx.flow_arguments {
        Some(args) => {
            let mut i: usize = 0;
            assert(args@.skip(0) =~= args@);
            while i < args.len()
                invariant
                    i <= args@.len(),
                    ctx.flow_arguments == Some(args),
                    root@ == root_of(target@),
                    flow_argument(args@, root@) == flow_argument(args@.skip(i as int), root@),
                decreases args.len() - i,
            {
                assert(args@.skip(i as int)[0] == args@[i as int]);
                assert(args@.skip(i as int).drop_first() =~= args@.skip(i + 1));
                if str_eq(args[i].name.as_str(), root.as_str()) {
                    return Some(&args[i]);
                }
                i = i + 1;
            }
            None
        },
        None => None,
    }
}

/// The checks of a divert to a knot or stitch path.
fn check_plain_divert(target: &str, is_path: bool, ctx: &TargetContext, msgs: &mut Vec<String>)
    ensures
        messages_view(final(msgs)@) == messages_view(old(msgs)@) + plain_divert_messages(context_view(*ctx), target@, is_path),
{
    let ghost before = messages_view(msgs@);
    let ghost c = context_view(*ctx);
    if is_path {
        let root = path_root(target);
        if visible(root.as_str(), ctx) {
            let mut msg = concat3("Static divert targets must be knot or stitch paths. Use `-> {", target, "}`");
            msg.append(" for a divert-target expression.");
            push_message(msgs, msg);
            assert(messages_view(msgs@) =~= before + plain_divert_messages(c, target@, is_path));
            return;
        }
    }
    if cross_module_stitch(target, ctx.module) {
        push_message(msgs, cross_text(target));
        assert(messages_view(msgs@) =~= before + plain_divert_messages(c, target@, is_path));
        return;
    }
    match resolve_target_symbol(&ctx.idx.targets, target, ctx.module, ctx.flow) {
        Some(symbol) => {
            if symbol.is_function {
                let mut msg = concat3(target, " can't be diverted to. It can only be called as a function since it's been marked as such: '", target);
                msg.append("(...)'");
                push_message(msgs, msg);
            }
            assert(messages_view(msgs@) =~= before + plain_divert_messages(c, target@, is_path));
        },
        None => {
            match current_flow_argument(target, ctx) {
                Some(argument) => {
                    let is_divert = match &argument.declared_type {
                        Some(t) => is_primitive(t, PrimitiveType::DivertTarget),
                        None => false,
                    };
                    if !is_divert {
                        let mut msg = concat3("Since '", argument.name.as_str(), "' is used as a variable divert target, it should be marked as: -> ");
                        msg.append(argument.name.as_str());
                        push_message(msgs, msg);
                    }
                },
                None => push_message(msgs, concat3("target not found: '", target, "'")),
            }
            assert(messages_view(msgs@) =~= before + plain_divert_messages(c, target@, is_path));
        },
    }
}

fn check_onwards_target(t: &Option<DivertTarget>, ctx: &TargetContext, msgs: &mut Vec<String>)
    ensures
        messages_view(final(msgs)@) == messages_view(old(msgs)@) + onwards_target_messages(context_view(*ctx), *t),
{
    let ghost before = messages_view(msgs@);
    match t {
        Some(DivertTarget::Dynamic(e)) => check_dynamic_divert(e, ctx, msgs),
        Some(DivertTarget::Path(p)) => {
            if cross_module_stitch(p.as_str(), ctx.module) {
                push_message(msgs, cross_text(p.as_str()));
            }
        },
        Some(DivertTarget::QualifiedPath(q)) => {
            let full = concat3(q.module.as_str(), "::", q.symbol.as_str());
            if cross_module_stitch(full.as_str(), ctx.module) {
                push_message(msgs, cross_text(full.as_str()));
            }
        },
        _ => {},
    }
    assert(messages_view(msgs@) =~= before + onwards_target_messages(context_view(*ctx), *t));
}

/// The checks of `-> {expression}`.
fn check_dynamic_divert(e: &Expression, ctx: &TargetContext, msgs: &mut Vec<String>)
    ensures
        messages_view(final(msgs)@) == messages_view(old(msgs)@) + dynamic_divert_messages(context_view(*ctx), *e),
{
    let ghost before = messages_view(msgs@);
    check_expression(e, ctx, msgs);
    match infer_expression_type(e, ctx.idx, ctx.module, ctx.flow) {
        Ok(t) => {
            if !is_primitive(&t, PrimitiveType::DivertTarget) {
                let d = display(&t);
                push_message(msgs, concat3("Dynamic divert target has type ", d.as_str(), " but expected ->"));
            }
        },
        Err(x) => push_message(msgs, concat3("Cannot type-check dynamic divert target: ", x.message.as_str(), "")),
    }
    assert(messages_view(msgs@) =~= before + dynamic_divert_messages(context_view(*ctx), *e));
}

fn check_optional(e: &Option<Expression>, ctx: &TargetContext, msgs: &mut Vec<String>)
    ensures
        messages_view(final(msgs)@) == messages_view(old(msgs)@) + opt_messages(context_view(*ctx), *e),
{
    match e {
        Some(e) => check_expression(e, ctx, msgs),
        None => {
            assert(messages_view(msgs@) =~= messages_view(msgs@) + opt_messages(context_view(*ctx), None));
        },
    }
}

/// The target checks of one object.
fn check_object(o: &Object, ctx: &TargetContext, out: &mut Vec<Diagnostic>)
    ensures
        diag_views(final(out)@) == diag_views(old(out)@) + object_target_checks(context_view(*ctx), *o),
{
    let ghost c = context_view(*ctx);
    let mut msgs: Vec<String> = Vec::new();
    assert(messages_view(msgs@) =~= Seq::<Seq<char>>::empty());
    match o {
        Object::Divert(d) => {
            match &d.target {
                DivertTarget::Dynamic(e) => check_dynamic_divert(e, ctx, &mut msgs),
                DivertTarget::Path(p) => {
                    if !ctx.in_function {
                        check_plain_divert(p.as_str(), true, ctx, &mut msgs);
                    }
                },
                DivertTarget::QualifiedPath(q) => {
                    if !ctx.in_function {
                        let full = concat3(q.module.as_str(), "::", q.symbol.as_str());
                        check_plain_divert(full.as_str(), false, ctx, &mut msgs);
                    }
                },
                _ => {},
            }
            let ghost first = messages_view(msgs@);
            check_list(&d.arguments, ctx, &mut msgs);
            push_errors(&msgs, &d.span, out);
        },
        Object::TunnelOnwards(t) => {
            check_onwards_target(&t.override_target, ctx, &mut msgs);
            check_list(&t.arguments, ctx, &mut msgs);
            push_errors(&msgs, &t.span, out);
        },
        Object::ConstantDeclaration(k) => {
            check_expression(&k.expression, ctx, &mut msgs);
            push_errors(&msgs, &k.span, out);
        },
        Object::Expression(e) | Object::LogicLine(e) => {
            check_expression(e, ctx, &mut msgs);
            let span = object_span(o);
            push_errors(&msgs, &span, out);
        },
        Object::VariableAssignment(a) => {
            check_optional(&a.expression, ctx, &mut msgs);
            push_errors(&msgs, &a.span, out);
        },
        Object::IncDec(k) => {
            check_expression(&k.expression, ctx, &mut msgs);
            push_errors(&msgs, &k.span, out);
        },
        Object::Return(r) => {
            check_optional(&r.expression, ctx, &mut msgs);
            push_errors(&msgs, &r.span, out);
        },
        Object::Conditional(k) => {
            check_optional(&k.initial_condition, ctx, &mut msgs);
            let ghost first = messages_view(msgs@);
            let ghost bs = k.branches@;
            let mut b: usize = 0;
            assert(messages_view(msgs@) =~= first + branch_condition_messages(c, bs.take(0)));
            while b < k.branches.len()
                invariant
                    b <= bs.len(),
                    bs == k.branches@,
                    c == context_view(*ctx),
                    messages_view(msgs@) == first + branch_condition_messages(c, bs.take(b as int)),
                decreases k.branches.len() - b,
            {
                assert(bs.take(b + 1).drop_last() =~= bs.take(b as int));
                check_optional(&k.branches[b].own_condition, ctx, &mut msgs);
                assert(messages_view(msgs@) =~= first + branch_condition_messages(c, bs.take(b + 1)));
                b = b + 1;
            }
            assert(bs.take(bs.len() as int) =~= bs);
            let span = object_span(o);
            push_errors(&msgs, &span, out);
        },
        Object::Choice(k) => {
            check_optional(&k.condition, ctx, &mut msgs);
            push_errors(&msgs, &k.span, out);
        },
        _ => {
            assert(diag_views(out@) =~= diag_views(out@) + object_target_checks(c, *o));
        },
    }
}

/// The first flow of `flows` at `path` in module `m`.
fn find_flow<'a>(flows: &Vec<FlowSite<'a>>, m: Option<&str>, path: &str) -> (r: Option<&'a Flow>)
    ensures
        match r {
            Some(f) => flow_at(flow_sites_view(flows@), opt_str_view(m), path@) == Some(*f),
            None => flow_at(flow_sites_view(flows@), opt_str_view(m), path@) is None,
        },
{
    let ghost fv = flow_sites_view(flows@);
    let mut i: usize = 0;
    assert(fv.skip(0) =~= fv);
    while i < flows.len()
        invariant
            i <= flows@.len(),
            fv == flow_sites_view(flows@),
            flow_at(fv, opt_str_view(m), path@) == flow_at(fv.skip(i as int), opt_str_view(m), path@),
        decreases flows.len() - i,
    {
        assert(fv.skip(i as int)[0] == flow_site_view(flows@[i as int]));
        assert(fv.skip(i as int).drop_first() =~= fv.skip(i + 1));
        let same_module = match (flows[i].module, m) {
            (Some(a), Some(b)) => str_eq(a, b),
            (None, None) => true,
            _ => false,
        };
        assert(same_module == (opt_str_view(flows@[i as int].module) == opt_str_view(m)));
        if same_module && str_eq(flows[i].path.as_str(), path) {
            return Some(flows[i].flow);
        }
        i = i + 1;
    }
    None
}

/// The call and divert target errors of `story` against the index `idx`,
/// object by object in reading order.
pub fn call_target_diagnostics_with_index(story: &Story, idx: &TypeIndex) -> (r: Vec<Diagnostic>)
    ensures
        diag_views(r@) == target_checks(*idx, story_flows(*story), story_sites(*story)),
{
    let flows = collect_flows(story);
    let sites = collect_sites(story);
    let ghost fv = flow_sites_view(flows@);
    let ghost sv = sites_view(sites@);
    let mut out: Vec<Diagnostic> = Vec::new();
    let mut k: usize = 0;
    assert(diag_views(out@) =~= target_checks(*idx, fv, sv.take(0)));
    while k < sites.len()
        invariant
            k <= sites@.len(),
            fv == flow_sites_view(flows@),
            fv == story_flows(*story),
            sv == sites_view(sites@),
            diag_views(out@) == target_checks(*idx, fv, sv.take(k as int)),
        decreases sites.len() - k,
    {
        let site = &sites[k];
        assert(sv.take(k + 1).drop_last() =~= sv.take(k as int));
        assert(sv.take(k + 1).last() == site_view(*site));
        let f: Option<&str> = match &site.flow {
            Some(p) => Some(p.as_str()),
            None => None,
        };
        assert(opt_str_view(f) == opt_string_view(site.flow));
        let flow = match f {
            Some(p) => find_flow(&flows, site.module, p),
            None => None,
        };
        let ctx = TargetContext {
            idx,
            module: site.module,
            flow: f,
            flow_arguments: match flow {
                Some(fl) => Some(&fl.arguments),
                None => None,
            },
            in_function: match flow {
                Some(fl) => fl.is_function,
                None => false,
            },
        };
        assert(context_view(ctx) == site_context(*idx, fv, site_view(*site)));
        check_object(site.object, &ctx, &mut out);
        k = k + 1;
    }
    assert(sv.take(sv.len() as int) =~= sv);
    out
}

/// The call and divert target errors of `story`.
pub fn call_target_diagnostics(story: &Story) -> (r: Vec<Diagnostic>)
    ensures
        exists|idx: TypeIndex| #[trigger] is_index_of(idx, *story) && diag_views(r@) == target_checks(idx, story_flows(*story), story_sites(*story)),
{
    let idx = build_type_index(story);
    call_target_diagnostics_with_index(story, &idx)
}

} // verus!
