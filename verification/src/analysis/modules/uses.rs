//! The qualified references (`module::symbol`) that a module's code makes:
//! in expressions, assignment targets, divert targets and type names.
use vstd::prelude::*;

use crate::analysis::span::{default_span, default_span_spec};
use crate::parsed::{
    AssignmentTarget, ConditionalBranch, DictLiteralEntry, DivertTarget, Expression, Flow, FlowArgument, Module,
    Object, QualifiedName, StructField, StructLiteralField, TypeName,
};
use crate::source::SourceSpan;
use crate::text::{chars_of, string_from_chars};

verus! {

/// One qualified reference: the module and symbol it names, and where.
#[derive(Debug, PartialEq, Eq)]
pub struct QualifiedUse {
    pub source_module: String,
    pub symbol: String,
    pub span: SourceSpan,
}

pub type UseView = (Seq<char>, Seq<char>, SourceSpan);

impl QualifiedUse {
    /// A copy of this use.
    pub fn duplicate(&self) -> (r: Self)
        ensures
            use_view(r) == use_view(*self),
    {
        QualifiedUse { source_module: self.source_module.clone(), symbol: self.symbol.clone(), span: self.span.duplicate() }
    }
}

pub open spec fn use_view(u: QualifiedUse) -> UseView {
    (u.source_module@, u.symbol@, u.span)
}

pub open spec fn uses_view(s: Seq<QualifiedUse>) -> Seq<UseView> {
    s.map_values(|u: QualifiedUse| use_view(u))
}

/// The first `::` in `s` at or after `i`, or -1.
pub open spec fn double_colon_from(s: Seq<char>, i: int) -> int
    decreases s.len() - i,
{
    if i < 0 || i + 1 >= s.len() {
        -1
    } else if s[i] == ':' && s[i + 1] == ':' {
        i
    } else {
        double_colon_from(s, i + 1)
    }
}

/// The first `.` in `s` at or after `i`, or the length of `s`.
pub open spec fn dot_from(s: Seq<char>, i: int) -> int
    decreases s.len() - i,
{
    if i < 0 || i >= s.len() {
        s.len() as int
    } else if s[i] == '.' {
        i
    } else {
        dot_from(s, i + 1)
    }
}

/// A use of `module::symbol` when both parts are present and the symbol
/// holds no further `::`.
pub open spec fn parts_use(module: Seq<char>, symbol: Seq<char>, span: SourceSpan) -> Seq<UseView> {
    if module.len() == 0 || symbol.len() == 0 || double_colon_from(symbol, 0) >= 0 {
        Seq::empty()
    } else {
        seq![(module, symbol, span)]
    }
}

pub open spec fn name_use(n: QualifiedName) -> Seq<UseView> {
    parts_use(n.module@, n.symbol@, n.module_span)
}

/// The use that a path written as text makes: `module::symbol`, where a
/// `.` in the symbol starts a stitch or field that is not part of it.
pub open spec fn text_use(s: Seq<char>, span: SourceSpan) -> Seq<UseView> {
    let i = double_colon_from(s, 0);
    if i < 0 {
        Seq::empty()
    } else {
        let module = s.take(i);
        let rest = s.skip(i + 2);
        if module.len() == 0 || rest.len() == 0 || double_colon_from(rest, 0) >= 0 {
            Seq::empty()
        } else {
            parts_use(module, rest.take(dot_from(rest, 0)), span)
        }
    }
}

pub open spec fn expr_uses(e: Expression) -> Seq<UseView>
    decreases e, 0nat,
{
    match e {
        Expression::VariableReference(n) => text_use(n@, default_span_spec()),
        Expression::DivertTarget(n) => text_use(n@, default_span_spec()),
        Expression::QualifiedReference(q) => name_use(q),
        Expression::FunctionCall { name, args } => text_use(name@, default_span_spec()) + exprs_uses(args@),
        Expression::QualifiedFunctionCall { name, args } => name_use(name) + exprs_uses(args@),
        Expression::ArrayLiteral(es) => exprs_uses(es@),
        Expression::MultipleCondition(es) => exprs_uses(es@),
        Expression::StructLiteral(fields) => literal_fields_uses(fields@),
        Expression::DictLiteral(entries) => entries_uses(entries@),
        Expression::TypedStructLiteral { literal_type, fields } => type_uses(literal_type) + literal_fields_uses(fields@),
        Expression::FieldAccess { base, field: _ } => expr_uses(*base),
        Expression::IndexAccess { base, index } => expr_uses(*base) + expr_uses(*index),
        Expression::Binary { operator: _, left, right } => expr_uses(*left) + expr_uses(*right),
        Expression::Unary { operator: _, expression } => expr_uses(*expression),
        _ => Seq::empty(),
    }
}

pub open spec fn exprs_uses(es: Seq<Expression>) -> Seq<UseView>
    decreases es, 1nat,
{
    if es.len() == 0 {
        Seq::empty()
    } else {
        exprs_uses(es.drop_last()) + expr_uses(es.last())
    }
}

pub open spec fn literal_fields_uses(fs: Seq<StructLiteralField>) -> Seq<UseView>
    decreases fs, 1nat,
{
    if fs.len() == 0 {
        Seq::empty()
    } else {
        literal_fields_uses(fs.drop_last()) + expr_uses(fs.last().expression)
    }
}

pub open spec fn entries_uses(es: Seq<DictLiteralEntry>) -> Seq<UseView>
    decreases es, 1nat,
{
    if es.len() == 0 {
        Seq::empty()
    } else {
        entries_uses(es.drop_last()) + expr_uses(es.last().value)
    }
}

pub open spec fn opt_expr_uses(e: Option<Expression>) -> Seq<UseView> {
    match e {
        Some(e) => expr_uses(e),
        None => Seq::empty(),
    }
}

pub open spec fn type_uses(t: TypeName) -> Seq<UseView>
    decreases t,
{
    match t {
        TypeName::QualifiedStruct(q) => name_use(q),
        TypeName::Array(inner) => type_uses(*inner),
        TypeName::Dict { key_type: _, value_type } => type_uses(*value_type),
        _ => Seq::empty(),
    }
}

pub open spec fn opt_type_uses(t: Option<TypeName>) -> Seq<UseView> {
    match t {
        Some(t) => type_uses(t),
        None => Seq::empty(),
    }
}

pub open spec fn types_uses(ts: Seq<TypeName>) -> Seq<UseView>
    decreases ts.len(),
{
    if ts.len() == 0 {
        Seq::empty()
    } else {
        types_uses(ts.drop_last()) + type_uses(ts.last())
    }
}

pub open spec fn struct_fields_uses(fs: Seq<StructField>) -> Seq<UseView>
    decreases fs.len(),
{
    if fs.len() == 0 {
        Seq::empty()
    } else {
        struct_fields_uses(fs.drop_last()) + type_uses(fs.last().field_type)
    }
}

pub open spec fn target_uses(t: AssignmentTarget) -> Seq<UseView>
    decreases t,
{
    match t {
        AssignmentTarget::Variable(n) => text_use(n@, default_span_spec()),
        AssignmentTarget::QualifiedVariable(q) => name_use(q),
        AssignmentTarget::FieldAccess { base, field: _ } => target_uses(*base),
        AssignmentTarget::IndexAccess { base, index } => target_uses(*base) + expr_uses(index),
    }
}

pub open spec fn divert_target_uses(t: DivertTarget, span: SourceSpan) -> Seq<UseView> {
    match t {
        DivertTarget::Path(p) => text_use(p@, span),
        DivertTarget::QualifiedPath(q) => name_use(q),
        DivertTarget::Dynamic(e) => expr_uses(e),
        _ => Seq::empty(),
    }
}

pub open spec fn object_uses(o: Object) -> Seq<UseView>
    decreases o, 0nat,
{
    match o {
        Object::Expression(e) => expr_uses(e),
        Object::LogicLine(e) => expr_uses(e),
        Object::ConstantDeclaration(d) => type_uses(d.declared_type) + expr_uses(d.expression),
        Object::ContentList(c) => objects_uses(c.objects@),
        Object::Conditional(c) => opt_expr_uses(c.initial_condition) + branches_uses(c.branches@),
        Object::Choice(c) => opt_expr_uses(c.condition) + match c.start_content {
            Some(sc) => objects_uses(sc.objects@),
            None => Seq::empty(),
        } + objects_uses(c.inner_content.objects@),
        Object::Divert(d) => divert_target_uses(d.target, d.span) + exprs_uses(d.arguments@),
        Object::TunnelOnwards(t) => (match t.override_target {
            Some(target) => divert_target_uses(target, t.span),
            None => Seq::empty(),
        }) + exprs_uses(t.arguments@),
        Object::VariableAssignment(a) => opt_type_uses(a.declared_type) + target_uses(a.target) + opt_expr_uses(a.expression),
        Object::IncDec(a) => target_uses(a.target) + expr_uses(a.expression),
        Object::Return(r) => opt_expr_uses(r.expression),
        Object::ExternalDeclaration(e) => types_uses(e.argument_types@) + type_uses(e.return_type),
        Object::StructDeclaration(d) => struct_fields_uses(d.fields@),
        Object::Weave(w) => objects_uses(w.content@),
        _ => Seq::empty(),
    }
}

pub open spec fn objects_uses(os: Seq<Object>) -> Seq<UseView>
    decreases os, 1nat,
{
    if os.len() == 0 {
        Seq::empty()
    } else {
        objects_uses(os.drop_last()) + object_uses(os.last())
    }
}

pub open spec fn branches_uses(bs: Seq<ConditionalBranch>) -> Seq<UseView>
    decreases bs, 1nat,
{
    if bs.len() == 0 {
        Seq::empty()
    } else {
        branches_uses(bs.drop_last()) + opt_expr_uses(bs.last().own_condition) + objects_uses(bs.last().content.content@)
    }
}

pub open spec fn arguments_uses(args: Seq<FlowArgument>) -> Seq<UseView>
    decreases args.len(),
{
    if args.len() == 0 {
        Seq::empty()
    } else {
        arguments_uses(args.drop_last()) + opt_type_uses(args.last().declared_type)
    }
}

pub open spec fn flow_uses(f: Flow) -> Seq<UseView>
    decreases f, 0nat,
{
    arguments_uses(f.arguments@) + type_uses(f.return_type) + objects_uses(f.weave.content@) + flows_uses(f.child_flows@)
}

pub open spec fn flows_uses(fs: Seq<Flow>) -> Seq<UseView>
    decreases fs, 1nat,
{
    if fs.len() == 0 {
        Seq::empty()
    } else {
        flows_uses(fs.drop_last()) + flow_uses(fs.last())
    }
}

/// Every qualified use that the code of module `m` makes, in order.
pub open spec fn module_uses(m: Module) -> Seq<UseView> {
    objects_uses(m.weave.content@) + flows_uses(m.flows@)
}

/// Where the first `::` of `chars` stands, if anywhere.
pub fn double_colon_index(chars: &Vec<char>) -> (r: Option<usize>)
    ensures
        r is None ==> double_colon_from(chars@, 0) < 0,
        r matches Some(i) ==> double_colon_from(chars@, 0) == i && i + 1 < chars@.len(),
{
    let n: usize = chars.len();
    if n < 2 {
        return None;
    }
    let mut k: usize = 0;
    while k < n - 1
        invariant
            n == chars@.len(),
            n >= 2,
            k <= chars@.len(),
            double_colon_from(chars@, 0) == double_colon_from(chars@, k as int),
        decreases chars.len() - k,
    {
        if chars[k] == ':' && chars[k + 1] == ':' {
            return Some(k);
        }
        k = k + 1;
    }
    None
}

/// Where the first `.` of `chars` stands, or its length.
pub fn dot_index(chars: &Vec<char>) -> (r: usize)
    ensures
        r == dot_from(chars@, 0),
        r <= chars@.len(),
{
    let mut k: usize = 0;
    while k < chars.len()
        invariant
            k <= chars@.len(),
            dot_from(chars@, 0) == dot_from(chars@, k as int),
        decreases chars.len() - k,
    {
        if chars[k] == '.' {
            return k;
        }
        k = k + 1;
    }
    k
}

/// Records `module::symbol` at `span` when both parts are present and the
/// symbol holds no further `::`.
fn record_parts(module: &str, symbol: &str, span: &SourceSpan, uses: &mut Vec<QualifiedUse>)
    ensures
        uses_view(final(uses)@) == uses_view(old(uses)@) + parts_use(module@, symbol@, *span),
{
    let symbol_chars = chars_of(symbol);
    let module_len = module.unicode_len();
    if module_len == 0 || symbol_chars.len() == 0 {
        assert(uses_view(uses@) =~= uses_view(uses@) + parts_use(module@, symbol@, *span));
        return;
    }
    match double_colon_index(&symbol_chars) {
        Some(_) => {
            assert(uses_view(uses@) =~= uses_view(uses@) + parts_use(module@, symbol@, *span));
        },
        None => {
            let ghost before = uses@;
            uses.push(QualifiedUse { source_module: String::from_str(module), symbol: String::from_str(symbol), span: span.duplicate() });
            assert(uses_view(uses@) =~= uses_view(before) + parts_use(module@, symbol@, *span));
        },
    }
}

/// Records the use of a qualified name.
fn record_name(name: &QualifiedName, uses: &mut Vec<QualifiedUse>)
    ensures
        uses_view(final(uses)@) == uses_view(old(uses)@) + name_use(*name),
{
    record_parts(name.module.as_str(), name.symbol.as_str(), &name.module_span, uses);
}

/// Records the use that a path written as text makes, if any.
fn record_text(text: &str, span: &SourceSpan, uses: &mut Vec<QualifiedUse>)
    ensures
        uses_view(final(uses)@) == uses_view(old(uses)@) + text_use(text@, *span),
{
    let chars = chars_of(text);
    let i = match double_colon_index(&chars) {
        None => {
            assert(uses_view(uses@) =~= uses_view(uses@) + text_use(text@, *span));
            return;
        },
        Some(i) => i,
    };
    let module = string_from_chars(&chars, 0, i);
    let rest = string_from_chars(&chars, i + 2, chars.len());
    let rest_chars = chars_of(rest.as_str());
    assert(module@ =~= text@.take(i as int));
    assert(rest_chars@ =~= text@.skip(i + 2));
    if module.unicode_len() == 0 || rest_chars.len() == 0 {
        assert(uses_view(uses@) =~= uses_view(uses@) + text_use(text@, *span));
        return;
    }
    if double_colon_index(&rest_chars).is_some() {
        assert(uses_view(uses@) =~= uses_view(uses@) + text_use(text@, *span));
        return;
    }
    let dot = dot_index(&rest_chars);
    let symbol = string_from_chars(&rest_chars, 0, dot);
    assert(symbol@ =~= rest_chars@.take(dot as int));
    record_parts(module.as_str(), symbol.as_str(), span, uses);
}

/// Appends to `uses` the qualified uses of expression `e`.
fn collect_in_expression(e: &Expression, uses: &mut Vec<QualifiedUse>)
    ensures
        uses_view(final(uses)@) == uses_view(old(uses)@) + expr_uses(*e),
    decreases *e, 0nat,
{
    let ghost before = uses_view(uses@);
    match e {
        Expression::VariableReference(n) => {
            record_text(n.as_str(), &default_span(), uses);
        },
        Expression::DivertTarget(n) => {
            record_text(n.as_str(), &default_span(), uses);
        },
        Expression::QualifiedReference(q) => {
            record_name(q, uses);
        },
        Expression::FunctionCall { name, args } => {
            record_text(name.as_str(), &default_span(), uses);
            proof {
                assert(decreases_to!(*e => (*e)->FunctionCall_args));
                assert(decreases_to!((*e)->FunctionCall_args => args@));
            }
            collect_in_expressions(args, uses);
            assert(uses_view(uses@) =~= before + expr_uses(*e));
        },
        Expression::QualifiedFunctionCall { name, args } => {
            record_name(name, uses);
            proof {
                assert(decreases_to!(*e => (*e)->QualifiedFunctionCall_args));
                assert(decreases_to!((*e)->QualifiedFunctionCall_args => args@));
            }
            collect_in_expressions(args, uses);
            assert(uses_view(uses@) =~= before + expr_uses(*e));
        },
        Expression::ArrayLiteral(es) => {
            proof {
                assert(decreases_to!(*e => (*e)->ArrayLiteral_0));
                assert(decreases_to!((*e)->ArrayLiteral_0 => es@));
            }
            collect_in_expressions(es, uses);
        },
        Expression::MultipleCondition(es) => {
            proof {
                assert(decreases_to!(*e => (*e)->MultipleCondition_0));
                assert(decreases_to!((*e)->MultipleCondition_0 => es@));
            }
            collect_in_expressions(es, uses);
        },
        Expression::StructLiteral(fields) => {
            proof {
                assert(decreases_to!(*e => (*e)->StructLiteral_0));
                assert(decreases_to!((*e)->StructLiteral_0 => fields@));
            }
            collect_in_literal_fields(fields, uses);
        },
        Expression::DictLiteral(entries) => {
            proof {
                assert(decreases_to!(*e => (*e)->DictLiteral_0));
                assert(decreases_to!((*e)->DictLiteral_0 => entries@));
            }
            collect_in_entries(entries, uses);
        },
        Expression::TypedStructLiteral { literal_type, fields } => {
            collect_in_type(literal_type, uses);
            proof {
                assert(decreases_to!(*e => (*e)->TypedStructLiteral_fields));
                assert(decreases_to!((*e)->TypedStructLiteral_fields => fields@));
            }
            collect_in_literal_fields(fields, uses);
            assert(uses_view(uses@) =~= before + expr_uses(*e));
        },
        Expression::FieldAccess { base, field: _ } => {
            collect_in_expression(base, uses);
        },
        Expression::IndexAccess { base, index } => {
            collect_in_expression(base, uses);
            collect_in_expression(index, uses);
            assert(uses_view(uses@) =~= before + expr_uses(*e));
        },
        Expression::Binary { operator: _, left, right } => {
            collect_in_expression(left, uses);
            collect_in_expression(right, uses);
            assert(uses_view(uses@) =~= before + expr_uses(*e));
        },
        Expression::Unary { operator: _, expression } => {
            collect_in_expression(expression, uses);
        },
        _ => {
            assert(uses_view(uses@) =~= before + expr_uses(*e));
        },
    }
}

fn collect_in_expressions(es: &Vec<Expression>, uses: &mut Vec<QualifiedUse>)
    ensures
        uses_view(final(uses)@) == uses_view(old(uses)@) + exprs_uses(es@),
    decreases es@, 1nat,
{
    let ghost before = uses_view(uses@);
    let mut i: usize = 0;
    assert(exprs_uses(es@.take(0)) =~= Seq::<UseView>::empty());
    assert(uses_view(uses@) =~= before + exprs_uses(es@.take(0)));
    while i < es.len()
        invariant
            i <= es@.len(),
            uses_view(uses@) == before + exprs_uses(es@.take(i as int)),
        decreases es.len() - i,
    {
        proof {
            assert(decreases_to!(es@ => es@[i as int]));
            assert(es@.take(i + 1).drop_last() =~= es@.take(i as int));
        }
        collect_in_expression(&es[i], uses);
        assert(uses_view(uses@) =~= before + exprs_uses(es@.take(i + 1)));
        i = i + 1;
    }
    assert(es@.take(es@.len() as int) =~= es@);
}

fn collect_in_entries(es: &Vec<DictLiteralEntry>, uses: &mut Vec<QualifiedUse>)
    ensures
        uses_view(final(uses)@) == uses_view(old(uses)@) + entries_uses(es@),
    decreases es@, 1nat,
{
    let ghost before = uses_view(uses@);
    let mut i: usize = 0;
    assert(uses_view(uses@) =~= before + entries_uses(es@.take(0)));
    while i < es.len()
        invariant
            i <= es@.len(),
            uses_view(uses@) == before + entries_uses(es@.take(i as int)),
        decreases es.len() - i,
    {
        proof {
            assert(decreases_to!(es@ => es@[i as int]));
            assert(decreases_to!(es@[i as int] => es@[i as int].value));
            assert(es@.take(i + 1).drop_last() =~= es@.take(i as int));
        }
        collect_in_expression(&es[i].value, uses);
        assert(uses_view(uses@) =~= before + entries_uses(es@.take(i + 1)));
        i = i + 1;
    }
    assert(es@.take(es@.len() as int) =~= es@);
}

fn collect_in_literal_fields(fs: &Vec<StructLiteralField>, uses: &mut Vec<QualifiedUse>)
    ensures
        uses_view(final(uses)@) == uses_view(old(uses)@) + literal_fields_uses(fs@),
    decreases fs@, 1nat,
{
    let ghost before = uses_view(uses@);
    let mut i: usize = 0;
    assert(uses_view(uses@) =~= before + literal_fields_uses(fs@.take(0)));
    while i < fs.len()
        invariant
            i <= fs@.len(),
            uses_view(uses@) == before + literal_fields_uses(fs@.take(i as int)),
        decreases fs.len() - i,
    {
        proof {
            assert(decreases_to!(fs@ => fs@[i as int]));
            assert(decreases_to!(fs@[i as int] => fs@[i as int].expression));
            assert(fs@.take(i + 1).drop_last() =~= fs@.take(i as int));
        }
        collect_in_expression(&fs[i].expression, uses);
        assert(uses_view(uses@) =~= before + literal_fields_uses(fs@.take(i + 1)));
        i = i + 1;
    }
    assert(fs@.take(fs@.len() as int) =~= fs@);
}

fn collect_in_type(t: &TypeName, uses: &mut Vec<QualifiedUse>)
    ensures
        uses_view(final(uses)@) == uses_view(old(uses)@) + type_uses(*t),
    decreases *t,
{
    match t {
        TypeName::QualifiedStruct(q) => {
            record_name(q, uses);
        },
        TypeName::Array(inner) => {
            collect_in_type(inner, uses);
        },
        TypeName::Dict { key_type: _, value_type } => {
            collect_in_type(value_type, uses);
        },
        _ => {
            assert(uses_view(uses@) =~= uses_view(uses@) + type_uses(*t));
        },
    }
}

fn collect_in_opt_type(t: &Option<TypeName>, uses: &mut Vec<QualifiedUse>)
    ensures
        uses_view(final(uses)@) == uses_view(old(uses)@) + opt_type_uses(*t),
{
    match t {
        Some(t) => collect_in_type(t, uses),
        None => {
            assert(uses_view(uses@) =~= uses_view(uses@) + opt_type_uses(None));
        },
    }
}

fn collect_in_opt_expression(e: &Option<Expression>, uses: &mut Vec<QualifiedUse>)
    ensures
        uses_view(final(uses)@) == uses_view(old(uses)@) + opt_expr_uses(*e),
{
    match e {
        Some(e) => collect_in_expression(e, uses),
        None => {
            assert(uses_view(uses@) =~= uses_view(uses@) + opt_expr_uses(None));
        },
    }
}

fn collect_in_types(ts: &Vec<TypeName>, uses: &mut Vec<QualifiedUse>)
    ensures
        uses_view(final(uses)@) == uses_view(old(uses)@) + types_uses(ts@),
{
    let ghost before = uses_view(uses@);
    let mut i: usize = 0;
    assert(uses_view(uses@) =~= before + types_uses(ts@.take(0)));
    while i < ts.len()
        invariant
            i <= ts@.len(),
            uses_view(uses@) == before + types_uses(ts@.take(i as int)),
        decreases ts.len() - i,
    {
        assert(ts@.take(i + 1).drop_last() =~= ts@.take(i as int));
        collect_in_type(&ts[i], uses);
        assert(uses_view(uses@) =~= before + types_uses(ts@.take(i + 1)));
        i = i + 1;
    }
    assert(ts@.take(ts@.len() as int) =~= ts@);
}

fn collect_in_struct_fields(fs: &Vec<StructField>, uses: &mut Vec<QualifiedUse>)
    ensures
        uses_view(final(uses)@) == uses_view(old(uses)@) + struct_fields_uses(fs@),
{
    let ghost before = uses_view(uses@);
    let mut i: usize = 0;
    assert(uses_view(uses@) =~= before + struct_fields_uses(fs@.take(0)));
    while i < fs.len()
        invariant
            i <= fs@.len(),
            uses_view(uses@) == before + struct_fields_uses(fs@.take(i as int)),
        decreases fs.len() - i,
    {
        assert(fs@.take(i + 1).drop_last() =~= fs@.take(i as int));
        collect_in_type(&fs[i].field_type, uses);
        assert(uses_view(uses@) =~= before + struct_fields_uses(fs@.take(i + 1)));
        i = i + 1;
    }
    assert(fs@.take(fs@.len() as int) =~= fs@);
}

fn collect_in_arguments(args: &Vec<FlowArgument>, uses: &mut Vec<QualifiedUse>)
    ensures
        uses_view(final(uses)@) == uses_view(old(uses)@) + arguments_uses(args@),
{
    let ghost before = uses_view(uses@);
    let mut i: usize = 0;
    assert(uses_view(uses@) =~= before + arguments_uses(args@.take(0)));
    while i < args.len()
        invariant
            i <= args@.len(),
            uses_view(uses@) == before + arguments_uses(args@.take(i as int)),
        decreases args.len() - i,
    {
        assert(args@.take(i + 1).drop_last() =~= args@.take(i as int));
        collect_in_opt_type(&args[i].declared_type, uses);
        assert(uses_view(uses@) =~= before + arguments_uses(args@.take(i + 1)));
        i = i + 1;
    }
    assert(args@.take(args@.len() as int) =~= args@);
}

fn collect_in_target(t: &AssignmentTarget, uses: &mut Vec<QualifiedUse>)
    ensures
        uses_view(final(uses)@) == uses_view(old(uses)@) + target_uses(*t),
    decreases *t,
{
    let ghost before = uses_view(uses@);
    match t {
        AssignmentTarget::Variable(n) => {
            record_text(n.as_str(), &default_span(), uses);
        },
        AssignmentTarget::QualifiedVariable(q) => {
            record_name(q, uses);
        },
        AssignmentTarget::FieldAccess { base, field: _ } => {
            collect_in_target(base, uses);
        },
        AssignmentTarget::IndexAccess { base, index } => {
            collect_in_target(base, uses);
            collect_in_expression(index, uses);
            assert(uses_view(uses@) =~= before + target_uses(*t));
        },
    }
}

fn collect_in_divert_target(t: &DivertTarget, span: &SourceSpan, uses: &mut Vec<QualifiedUse>)
    ensures
        uses_view(final(uses)@) == uses_view(old(uses)@) + divert_target_uses(*t, *span),
{
    match t {
        DivertTarget::Path(p) => {
            record_text(p.as_str(), span, uses);
        },
        DivertTarget::QualifiedPath(q) => {
            record_name(q, uses);
        },
        DivertTarget::Dynamic(e) => {
            collect_in_expression(e, uses);
        },
        _ => {
            assert(uses_view(uses@) =~= uses_view(uses@) + divert_target_uses(*t, *span));
        },
    }
}

fn collect_in_object(o: &Object, uses: &mut Vec<QualifiedUse>)
    ensures
        uses_view(final(uses)@) == uses_view(old(uses)@) + object_uses(*o),
    decreases *o, 0nat,
{
    let ghost before = uses_view(uses@);
    match o {
        Object::Expression(e) => collect_in_expression(e, uses),
        Object::LogicLine(e) => collect_in_expression(e, uses),
        Object::ConstantDeclaration(d) => {
            collect_in_type(&d.declared_type, uses);
            collect_in_expression(&d.expression, uses);
            assert(uses_view(uses@) =~= before + object_uses(*o));
        },
        Object::ContentList(c) => {
            proof {
                assert(decreases_to!(*o => (*o)->ContentList_0));
                assert(decreases_to!((*o)->ContentList_0 => c.objects));
                assert(decreases_to!(c.objects => c.objects@));
            }
            collect_in_objects(&c.objects, uses);
        },
        Object::Conditional(c) => {
            collect_in_opt_expression(&c.initial_condition, uses);
            proof {
                assert(decreases_to!(*o => (*o)->Conditional_0));
                assert(decreases_to!((*o)->Conditional_0 => c.branches));
                assert(decreases_to!(c.branches => c.branches@));
            }
            collect_in_branches(&c.branches, uses);
            assert(uses_view(uses@) =~= before + object_uses(*o));
        },
        Object::Choice(c) => {
            collect_in_opt_expression(&c.condition, uses);
            match &c.start_content {
                Some(sc) => {
                    proof {
                        assert(decreases_to!(*o => (*o)->Choice_0));
                        assert(decreases_to!((*o)->Choice_0 => c.start_content));
                        assert(decreases_to!(c.start_content => sc));
                        assert(decreases_to!(sc => sc.objects));
                        assert(decreases_to!(sc.objects => sc.objects@));
                    }
                    collect_in_objects(&sc.objects, uses);
                },
                None => {},
            }
            proof {
                assert(decreases_to!(*o => (*o)->Choice_0));
                assert(decreases_to!((*o)->Choice_0 => c.inner_content));
                assert(decreases_to!(c.inner_content => c.inner_content.objects));
                assert(decreases_to!(c.inner_content.objects => c.inner_content.objects@));
            }
            collect_in_objects(&c.inner_content.objects, uses);
            assert(uses_view(uses@) =~= before + object_uses(*o));
        },
        Object::Divert(d) => {
            collect_in_divert_target(&d.target, &d.span, uses);
            collect_in_expressions(&d.arguments, uses);
            assert(uses_view(uses@) =~= before + object_uses(*o));
        },
        Object::TunnelOnwards(t) => {
            match &t.override_target {
                Some(target) => collect_in_divert_target(target, &t.span, uses),
                None => {},
            }
            collect_in_expressions(&t.arguments, uses);
            assert(uses_view(uses@) =~= before + object_uses(*o));
        },
        Object::VariableAssignment(a) => {
            collect_in_opt_type(&a.declared_type, uses);
            collect_in_target(&a.target, uses);
            collect_in_opt_expression(&a.expression, uses);
            assert(uses_view(uses@) =~= before + object_uses(*o));
        },
        Object::IncDec(a) => {
            collect_in_target(&a.target, uses);
            collect_in_expression(&a.expression, uses);
            assert(uses_view(uses@) =~= before + object_uses(*o));
        },
        Object::Return(r) => collect_in_opt_expression(&r.expression, uses),
        Object::ExternalDeclaration(e) => {
            collect_in_types(&e.argument_types, uses);
            collect_in_type(&e.return_type, uses);
            assert(uses_view(uses@) =~= before + object_uses(*o));
        },
        Object::StructDeclaration(d) => collect_in_struct_fields(&d.fields, uses),
        Object::Weave(w) => {
            proof {
                assert(decreases_to!(*o => (*o)->Weave_0));
                assert(decreases_to!((*o)->Weave_0 => w.content));
                assert(decreases_to!(w.content => w.content@));
            }
            collect_in_objects(&w.content, uses);
        },
        _ => {
            assert(uses_view(uses@) =~= before + object_uses(*o));
        },
    }
}

fn collect_in_objects(os: &Vec<Object>, uses: &mut Vec<QualifiedUse>)
    ensures
        uses_view(final(uses)@) == uses_view(old(uses)@) + objects_uses(os@),
    decreases os@, 1nat,
{
    let ghost before = uses_view(uses@);
    let mut i: usize = 0;
    assert(uses_view(uses@) =~= before + objects_uses(os@.take(0)));
    while i < os.len()
        invariant
            i <= os@.len(),
            uses_view(uses@) == before + objects_uses(os@.take(i as int)),
        decreases os.len() - i,
    {
        proof {
            assert(decreases_to!(os@ => os@[i as int]));
            assert(os@.take(i + 1).drop_last() =~= os@.take(i as int));
        }
        collect_in_object(&os[i], uses);
        assert(uses_view(uses@) =~= before + objects_uses(os@.take(i + 1)));
        i = i + 1;
    }
    assert(os@.take(os@.len() as int) =~= os@);
}

fn collect_in_branches(bs: &Vec<ConditionalBranch>, uses: &mut Vec<QualifiedUse>)
    ensures
        uses_view(final(uses)@) == uses_view(old(uses)@) + branches_uses(bs@),
    decreases bs@, 1nat,
{
    let ghost before = uses_view(uses@);
    let mut i: usize = 0;
    assert(uses_view(uses@) =~= before + branches_uses(bs@.take(0)));
    while i < bs.len()
        invariant
            i <= bs@.len(),
            uses_view(uses@) == before + branches_uses(bs@.take(i as int)),
        decreases bs.len() - i,
    {
        proof {
            assert(decreases_to!(bs@ => bs@[i as int]));
            assert(decreases_to!(bs@[i as int] => bs@[i as int].content));
            assert(decreases_to!(bs@[i as int].content => bs@[i as int].content.content));
            assert(decreases_to!(bs@[i as int].content.content => bs@[i as int].content.content@));
            assert(bs@.take(i + 1).drop_last() =~= bs@.take(i as int));
        }
        collect_in_opt_expression(&bs[i].own_condition, uses);
        collect_in_objects(&bs[i].content.content, uses);
        assert(uses_view(uses@) =~= before + branches_uses(bs@.take(i + 1)));
        i = i + 1;
    }
    assert(bs@.take(bs@.len() as int) =~= bs@);
}

fn collect_in_flow(f: &Flow, uses: &mut Vec<QualifiedUse>)
    ensures
        uses_view(final(uses)@) == uses_view(old(uses)@) + flow_uses(*f),
    decreases *f, 0nat,
{
    let ghost before = uses_view(uses@);
    collect_in_arguments(&f.arguments, uses);
    collect_in_type(&f.return_type, uses);
    collect_in_objects(&f.weave.content, uses);
    proof {
        assert(decreases_to!(*f => f.child_flows));
        assert(decreases_to!(f.child_flows => f.child_flows@));
    }
    collect_in_flows(&f.child_flows, uses);
    assert(uses_view(uses@) =~= before + flow_uses(*f));
}

fn collect_in_flows(fs: &Vec<Flow>, uses: &mut Vec<QualifiedUse>)
    ensures
        uses_view(final(uses)@) == uses_view(old(uses)@) + flows_uses(fs@),
    decreases fs@, 1nat,
{
    let ghost before = uses_view(uses@);
    let mut i: usize = 0;
    assert(uses_view(uses@) =~= before + flows_uses(fs@.take(0)));
    while i < fs.len()
        invariant
            i <= fs@.len(),
            uses_view(uses@) == before + flows_uses(fs@.take(i as int)),
        decreases fs.len() - i,
    {
        proof {
            assert(decreases_to!(fs@ => fs@[i as int]));
            assert(fs@.take(i + 1).drop_last() =~= fs@.take(i as int));
        }
        collect_in_flow(&fs[i], uses);
        assert(uses_view(uses@) =~= before + flows_uses(fs@.take(i + 1)));
        i = i + 1;
    }
    assert(fs@.take(fs@.len() as int) =~= fs@);
}

/// The qualified uses that the code of `module` makes, in order.
pub fn collect_module_uses(module: &Module) -> (r: Vec<QualifiedUse>)
    ensures
        uses_view(r@) == module_uses(*module),
{
    let mut uses: Vec<QualifiedUse> = Vec::new();
    assert(uses_view(uses@) =~= Seq::<UseView>::empty());
    collect_in_objects(&module.weave.content, &mut uses);
    collect_in_flows(&module.flows, &mut uses);
    assert(uses_view(uses@) =~= module_uses(*module));
    uses
}

} // verus!
