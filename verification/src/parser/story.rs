//! The line-oriented part of the parser: story structure, declarations and
//! statements.
use vstd::prelude::*;

use crate::diagnostic::Diagnostic;
use crate::source::SourceSpan;
use crate::parsed::{
    expr_view, exprs_view, ExprView,
    AssignmentKind, AssignmentTarget, Choice, Conditional, ConditionalBranch, ConstantDeclaration,
    ContentList, Divert, DivertTarget, EnumDeclaration, EnumMember, Expression,
    ExternalDeclaration, Flow, FlowArgument, FlowLevel, Gather, Import, ImportedName, IncDec, Module,
    Object, QualifiedName, Return, Story, StructDeclaration, StructField, Tag, Text, TunnelOnwards, TypeName, TypeView,
    VariableAssignment, Weave,
};
use crate::parser::expressions::{
    column_at, ident_at, ident_of, ident_items, is_sym, is_word, parse_expression, parse_path_text, parse_type_name,
    sym_at, at_column, type_at, p_expr, column_of, path_rest, list_items, LineContext,
};
use crate::parser::lexer::{is_space, is_space_spec, lex, tokenize, tokens_view, Symbol, Token, TokenView};
use crate::text::{concat2, owned, string_from_chars};

verus! {

/// The story under construction, with the containers that are still open.
pub struct StoryBuilder {
    pub root_weave: Vec<Object>,
    pub root_flows: Vec<Flow>,
    pub modules: Vec<Module>,
    pub module: Option<Module>,
    pub knot: Option<Flow>,
    pub stitch: Option<Flow>,
    pub conditionals: Vec<Conditional>,
    pub struct_block: Option<StructDeclaration>,
    pub enum_block: Option<EnumDeclaration>,
    pub diagnostics: Vec<Diagnostic>,
}

/// `b` is `a` with `o` added at the end.
pub open spec fn weave_pushed(a: Weave, b: Weave, o: Object) -> bool {
    b.content@ == a.content@.push(o)
}

/// `b` is the flow `a` with `o` added at the end of its own content.
pub open spec fn flow_pushed(a: Flow, b: Flow, o: Object) -> bool {
    &&& weave_pushed(a.weave, b.weave, o)
    &&& b.name == a.name
    &&& b.span == a.span
    &&& b.level == a.level
    &&& b.is_function == a.is_function
    &&& b.is_internal == a.is_internal
    &&& b.arguments == a.arguments
    &&& b.return_type == a.return_type
    &&& b.has_typed_signature == a.has_typed_signature
    &&& b.child_flows == a.child_flows
}

/// `b` is the flow `a` with `child` added at the end of its child flows.
pub open spec fn flow_child_pushed(a: Flow, b: Flow, child: Flow) -> bool {
    &&& b.child_flows@ == a.child_flows@.push(child)
    &&& b.name == a.name
    &&& b.span == a.span
    &&& b.level == a.level
    &&& b.is_function == a.is_function
    &&& b.is_internal == a.is_internal
    &&& b.arguments == a.arguments
    &&& b.return_type == a.return_type
    &&& b.has_typed_signature == a.has_typed_signature
    &&& b.weave == a.weave
}

/// `b` is the module `a` with `o` added at the end of its root content.
pub open spec fn module_pushed(a: Module, b: Module, o: Object) -> bool {
    &&& weave_pushed(a.weave, b.weave, o)
    &&& b.name == a.name
    &&& b.name_span == a.name_span
    &&& b.span == a.span
    &&& b.imports == a.imports
    &&& b.flows == a.flows
}

/// `b` is the module `a` with `f` added at the end of its flows.
pub open spec fn module_flow_pushed(a: Module, b: Module, f: Flow) -> bool {
    &&& b.flows@ == a.flows@.push(f)
    &&& b.name == a.name
    &&& b.name_span == a.name_span
    &&& b.span == a.span
    &&& b.imports == a.imports
    &&& b.weave == a.weave
}

/// `b` is the conditional `a` with `o` added at the end of its last branch
/// (of a new branch without condition, where it has none).
pub open spec fn conditional_pushed(a: Conditional, b: Conditional, o: Object) -> bool {
    &&& b.initial_condition == a.initial_condition
    &&& b.span == a.span
    &&& if a.branches@.len() > 0 {
        &&& b.branches@.len() == a.branches@.len()
        &&& b.branches@.drop_last() == a.branches@.drop_last()
        &&& b.branches@.last().own_condition == a.branches@.last().own_condition
        &&& weave_pushed(a.branches@.last().content, b.branches@.last().content, o)
    } else {
        &&& b.branches@.len() == 1
        &&& b.branches@[0].own_condition is None
        &&& b.branches@[0].content.content@ == seq![o]
    }
}

/// What stays of the builder when a flow or an object is added.
pub open spec fn same_outside(a: StoryBuilder, b: StoryBuilder) -> bool {
    &&& b.modules == a.modules
    &&& b.struct_block == a.struct_block
    &&& b.enum_block == a.enum_block
    &&& b.diagnostics == a.diagnostics
}

/// `b` is the builder `a` with `o` added to the innermost open container:
/// the last open conditional, else the open stitch, else the open knot,
/// else the open module, else the root content.
pub open spec fn object_pushed(a: StoryBuilder, b: StoryBuilder, o: Object) -> bool {
    &&& same_outside(a, b)
    &&& b.root_flows == a.root_flows
    &&& if a.conditionals@.len() > 0 {
        &&& b.conditionals@.len() == a.conditionals@.len()
        &&& b.conditionals@.drop_last() == a.conditionals@.drop_last()
        &&& conditional_pushed(a.conditionals@.last(), b.conditionals@.last(), o)
        &&& b.stitch == a.stitch && b.knot == a.knot && b.module == a.module && b.root_weave == a.root_weave
    } else if a.stitch is Some {
        &&& b.stitch is Some && flow_pushed(a.stitch->0, b.stitch->0, o)
        &&& b.conditionals == a.conditionals && b.knot == a.knot && b.module == a.module && b.root_weave == a.root_weave
    } else if a.knot is Some {
        &&& b.knot is Some && flow_pushed(a.knot->0, b.knot->0, o)
        &&& b.conditionals == a.conditionals && b.stitch == a.stitch && b.module == a.module && b.root_weave == a.root_weave
    } else if a.module is Some {
        &&& b.module is Some && module_pushed(a.module->0, b.module->0, o)
        &&& b.conditionals == a.conditionals && b.stitch == a.stitch && b.knot == a.knot && b.root_weave == a.root_weave
    } else {
        &&& b.root_weave@ == a.root_weave@.push(o)
        &&& b.conditionals == a.conditionals && b.stitch == a.stitch && b.knot == a.knot && b.module == a.module
    }
}

/// `b` is the builder `a` with the flow `f` added to the open module, or to
/// the root flows where no module is open.
pub open spec fn flow_added(a: StoryBuilder, b: StoryBuilder, f: Flow) -> bool {
    &&& same_outside(a, b)
    &&& b.conditionals == a.conditionals && b.stitch == a.stitch && b.knot == a.knot && b.root_weave == a.root_weave
    &&& if a.module is Some {
        &&& b.module is Some && module_flow_pushed(a.module->0, b.module->0, f)
        &&& b.root_flows == a.root_flows
    } else {
        &&& b.module is None
        &&& b.root_flows@ == a.root_flows@.push(f)
    }
}

/// The open flow `b` is the open flow `a` (or none is open in either),
/// whatever content was added to it.
pub open spec fn flow_kept(a: Option<Flow>, b: Option<Flow>) -> bool {
    match a {
        None => b is None,
        Some(f) => b is Some && b->0.name == f.name && b->0.span == f.span && b->0.child_flows == f.child_flows,
    }
}

/// The open module `b` is the open module `a` (or none is open in either),
/// whatever content was added to it.
pub open spec fn module_kept(a: Option<Module>, b: Option<Module>) -> bool {
    match a {
        None => b is None,
        Some(m) => b is Some && b->0.name == m.name && b->0.imports == m.imports && b->0.flows == m.flows,
    }
}

/// Content was added to the open containers of `a`, and nothing else changed.
pub open spec fn containers_kept(a: StoryBuilder, b: StoryBuilder) -> bool {
    &&& b.modules == a.modules
    &&& b.diagnostics == a.diagnostics
    &&& b.root_flows == a.root_flows
    &&& flow_kept(a.stitch, b.stitch)
    &&& flow_kept(a.knot, b.knot)
    &&& module_kept(a.module, b.module)
}

/// `b` is `a` with one more error at column 1 of the line of `ctx`, whose
/// message is `message`.
pub open spec fn reported(a: StoryBuilder, b: StoryBuilder, ctx: LineContext, message: Seq<char>) -> bool {
    &&& b.diagnostics@.len() == a.diagnostics@.len() + 1
    &&& b.diagnostics@.drop_last() == a.diagnostics@
    &&& b.diagnostics@.last().severity == crate::diagnostic::DiagnosticSeverity::Error
    &&& b.diagnostics@.last().message@ == message
    &&& b.diagnostics@.last().source_filename == ctx.source_filename
    &&& b.diagnostics@.last().line == ctx.line
    &&& b.diagnostics@.last().column == 1
    &&& b == (StoryBuilder { diagnostics: b.diagnostics, ..a })
}

pub open spec fn imported_names_view(ns: Seq<ImportedName>) -> Seq<(Seq<char>, SourceSpan)> {
    ns.map_values(|n: ImportedName| (n.name@, n.span))
}

/// `b` is the builder `a` whose open module has one more import, from
/// `source`, of the names `names`.
pub open spec fn import_added(a: StoryBuilder, b: StoryBuilder, source: Seq<char>, source_span: SourceSpan, names: Seq<(Seq<char>, SourceSpan)>) -> bool {
    &&& a.module is Some && b.module is Some
    &&& b == (StoryBuilder { module: b.module, ..a })
    &&& {
        let (m1, m2) = (a.module->0, b.module->0);
        &&& m2.name == m1.name && m2.name_span == m1.name_span && m2.span == m1.span
        &&& m2.weave == m1.weave && m2.flows == m1.flows
        &&& m2.imports@.len() == m1.imports@.len() + 1
        &&& m2.imports@.drop_last() == m1.imports@
        &&& m2.imports@.last().source_module@ == source
        &&& m2.imports@.last().source_module_span == source_span
        &&& imported_names_view(m2.imports@.last().imported_names@) == names
    }
}

pub open spec fn members_view(ms: Seq<EnumMember>) -> Seq<(Seq<char>, SourceSpan)> {
    ms.map_values(|m: EnumMember| (m.name@, m.span))
}

/// The index of the first identifier `word` among tokens `from..` of `ts`.
pub open spec fn first_word(ts: Seq<(TokenView, int)>, from: int, word: Seq<char>) -> Option<int>
    decreases ts.len() - from,
{
    if from < 0 || from >= ts.len() {
        None
    } else if ident_of(ts, from) == Some(word) {
        Some(from)
    } else {
        first_word(ts, from + 1, word)
    }
}

/// The index of the first `}` among tokens `from..` of `ts`, if any.
pub open spec fn first_rbrace(ts: Seq<(TokenView, int)>, from: int) -> Option<int>
    decreases ts.len() - from,
{
    if from < 0 || from >= ts.len() {
        None
    } else if sym_at(ts, from, Symbol::RBrace) {
        Some(from)
    } else {
        first_rbrace(ts, from + 1)
    }
}

/// `b` is `a` with an `ENUM` declaration named `name`, with the members
/// `members`, added to the innermost open container.
pub open spec fn enum_pushed(a: StoryBuilder, b: StoryBuilder, name: Seq<char>, members: Seq<(Seq<char>, SourceSpan)>, span: SourceSpan) -> bool {
    exists|d: EnumDeclaration|
        d.name@ == name && members_view(d.members@) == members && d.span == span && #[trigger] object_pushed(
            a,
            b,
            Object::EnumDeclaration(d),
        )
}

/// `b` is `a` whose open `STRUCT` declaration, if any, has one more field,
/// named `name`, of the type `t`.
pub open spec fn field_added(a: StoryBuilder, b: StoryBuilder, name: Seq<char>, t: TypeView, span: SourceSpan) -> bool {
    match a.struct_block {
        None => b == a,
        Some(d) => {
            &&& b == (StoryBuilder { struct_block: b.struct_block, ..a })
            &&& b.struct_block matches Some(d2) && d2.name == d.name && d2.span == d.span
                && d2.fields@.len() == d.fields@.len() + 1 && d2.fields@.drop_last() == d.fields@
                && d2.fields@.last().name@ == name && d2.fields@.last().field_type.type_view() == t
                && d2.fields@.last().span == span
        },
    }
}

/// `b` is `a` with a text object holding `text`, at `span`, added to the
/// innermost open container.
pub open spec fn text_pushed(a: StoryBuilder, b: StoryBuilder, text: Seq<char>, span: SourceSpan) -> bool {
    exists|t: Text| t.text@ == text && t.span == span && #[trigger] object_pushed(a, b, Object::Text(t))
}

/// The divert that the tokens `v` write from their first to their last:
/// its target, its arguments and its place.
pub open spec fn divert_of(v: Seq<(TokenView, int)>, ctx: LineContext) -> Option<(TargetView, Seq<ExprView>, SourceSpan)> {
    if sym_at(v, 0, Symbol::Arrow) {
        match divert_target_at(v, 1, ctx) {
            Some((t, args, n)) => if n == v.len() {
                Some((t, args, at_column(ctx, column_of(v, 0) as usize)))
            } else {
                None
            },
            None => None,
        }
    } else {
        None
    }
}

/// `b` is `a` with the divert written by `line[start..end]` added to the
/// innermost open container, or with an error where it cannot be read.
pub open spec fn divert_step(a: StoryBuilder, b: StoryBuilder, line: Seq<char>, start: int, end: int, ctx: LineContext) -> bool {
    match lex(line, start, end) {
        None => reported(a, b, ctx, "Could not read divert"@),
        Some(v) => match divert_of(v, ctx) {
            None => reported(a, b, ctx, "Could not read divert"@),
            Some((t, args, span)) => exists|d: Divert|
                target_view(d.target) == t && exprs_view(d.arguments@) == args && !d.is_tunnel && d.span == span
                    && #[trigger] object_pushed(a, b, Object::Divert(d)),
        },
    }
}

/// The text part of the text line `line[first..end]` takes `a` to `mid`,
/// and its divert part takes `mid` to `b`.
pub open spec fn text_then_divert(a: StoryBuilder, mid: StoryBuilder, b: StoryBuilder, line: Seq<char>, first: int, end: int, ctx: LineContext) -> bool {
    let arrow = first_arrow(line, first, end, first);
    let text_end = match arrow {
        Some(x) => trimmed(line, first, x),
        None => end,
    };
    &&& if text_end > first {
        text_pushed(a, mid, line.subrange(first, text_end), at_column(ctx, (first + 1) as usize))
    } else {
        mid == a
    }
    &&& match arrow {
        None => b == mid,
        Some(x) => divert_step(mid, b, line, x, end, ctx),
    }
}

/// `b` is `a` after the text line `line[first..end]`: its text up to the
/// first `->` outside a string (without the blanks before it), then the
/// divert from there to the end.
pub open spec fn text_line_step(a: StoryBuilder, b: StoryBuilder, line: Seq<char>, first: int, end: int, ctx: LineContext) -> bool {
    exists|mid: StoryBuilder| #[trigger] text_then_divert(a, mid, b, line, first, end, ctx)
}

/// The expression that `line[start..end]` writes as a whole, if it is one.
pub open spec fn whole_expr(line: Seq<char>, start: int, end: int, ctx: LineContext) -> Option<ExprView> {
    match lex(line, start, end) {
        Some(v) => match p_expr(v, 0, ctx) {
            Some((x, n)) => if n == v.len() {
                Some(x)
            } else {
                None
            },
            None => None,
        },
        None => None,
    }
}

/// `b` is `a` with one more open conditional, whose condition is `cond`,
/// with one empty branch without a condition of its own.
pub open spec fn conditional_opened(a: StoryBuilder, b: StoryBuilder, cond: Option<ExprView>, span: SourceSpan) -> bool {
    &&& b == (StoryBuilder { conditionals: b.conditionals, ..a })
    &&& b.conditionals@.len() == a.conditionals@.len() + 1
    &&& b.conditionals@.drop_last() == a.conditionals@
    &&& opt_expr_view(b.conditionals@.last().initial_condition) == cond
    &&& b.conditionals@.last().span == span
    &&& b.conditionals@.last().branches@.len() == 1
    &&& b.conditionals@.last().branches@[0].own_condition is None
    &&& b.conditionals@.last().branches@[0].content.content@.len() == 0
}

/// The condition `{condition:` (or a lone `{`) at `line[first..end]`
/// takes `a` to `mid` (an error where the condition cannot be read) and
/// opens a conditional, which takes `mid` to `b`.
pub open spec fn brace_open_via(a: StoryBuilder, mid: StoryBuilder, b: StoryBuilder, line: Seq<char>, first: int, end: int, ctx: LineContext) -> bool {
    let condition_end = if line[end - 1] == ':' { end - 1 } else { end };
    let cond = if condition_end > first + 1 { whole_expr(line, first + 1, condition_end, ctx) } else { None };
    &&& if condition_end > first + 1 && cond is None {
        reported(a, mid, ctx, "Could not read condition"@)
    } else {
        mid == a
    }
    &&& conditional_opened(mid, b, cond, at_column(ctx, (first + 1) as usize))
}

/// `b` is `a` after the line `line[first..end]` that starts with `{`: a
/// conditional that opens (`{condition:` or `{`), an inline expression
/// (`{expression}`), or else text.
pub open spec fn brace_line_step(a: StoryBuilder, b: StoryBuilder, line: Seq<char>, first: int, end: int, ctx: LineContext) -> bool {
    let last = line[end - 1];
    if last == ':' || end == first + 1 {
        exists|mid: StoryBuilder| #[trigger] brace_open_via(a, mid, b, line, first, end, ctx)
    } else if last == '}' && end >= first + 2 {
        match whole_expr(line, first + 1, end - 1, ctx) {
            Some(e) => exists|x: Expression| expr_view(x) == e && #[trigger] object_pushed(a, b, Object::Expression(x)),
            None => reported(a, b, ctx, "Could not read inline expression"@),
        }
    } else {
        text_line_step(a, b, line, first, end, ctx)
    }
}

/// The end of the run of `-` and blanks of `s` from `i`.
pub open spec fn dash_end(s: Seq<char>, i: int, end: int) -> int
    decreases end - i,
{
    if i < end && (s[i] == '-' || is_space_spec(s[i])) {
        dash_end(s, i + 1, end)
    } else {
        i
    }
}

/// The first position of `c` in `s[k..end]`.
pub open spec fn first_char(s: Seq<char>, k: int, end: int, c: char) -> Option<int>
    decreases end - k,
{
    if k >= end {
        None
    } else if s[k] == c {
        Some(k)
    } else {
        first_char(s, k + 1, end, c)
    }
}

/// The end of the run of blanks of `s` from `i`.
pub open spec fn space_end(s: Seq<char>, i: int, end: int) -> int
    decreases end - i,
{
    if i < end && is_space_spec(s[i]) {
        space_end(s, i + 1, end)
    } else {
        i
    }
}

/// The condition of a branch `- condition:` written by `line[start..end]`:
/// none for `else` or where it cannot be read.
pub open spec fn branch_condition(line: Seq<char>, start: int, end: int, ctx: LineContext) -> Option<ExprView> {
    match lex(line, start, end) {
        Some(v) => if ident_of(v, 0) == Some("else"@) && v.len() == 1 {
            None
        } else {
            match p_expr(v, 0, ctx) {
                Some((e, n)) => if n == v.len() {
                    Some(e)
                } else {
                    None
                },
                None => None,
            }
        },
        None => None,
    }
}

/// `b` is `a` whose last open conditional has a new, empty branch with the
/// condition `cond`; an empty first branch of a conditional without
/// condition of its own makes way for it.
pub open spec fn branch_opened(a: StoryBuilder, b: StoryBuilder, cond: Option<ExprView>) -> bool {
    let c = a.conditionals@.last();
    let keep = c.branches@.len() == 1 && c.branches@[0].content.content@.len() == 0 && c.initial_condition is None;
    let kept = if keep { Seq::empty() } else { c.branches@ };
    &&& b == (StoryBuilder { conditionals: b.conditionals, ..a })
    &&& b.conditionals@.len() == a.conditionals@.len()
    &&& b.conditionals@.drop_last() == a.conditionals@.drop_last()
    &&& b.conditionals@.last().initial_condition == c.initial_condition
    &&& b.conditionals@.last().span == c.span
    &&& b.conditionals@.last().branches@.len() == kept.len() + 1
    &&& b.conditionals@.last().branches@.drop_last() == kept
    &&& opt_expr_view(b.conditionals@.last().branches@.last().own_condition) == cond
    &&& b.conditionals@.last().branches@.last().content.content@.len() == 0
}

/// `b` is `a` with a gather labelled `identifier`, at `span`, added to the
/// innermost open container.
pub open spec fn gather_pushed(a: StoryBuilder, b: StoryBuilder, identifier: Option<Seq<char>>, span: SourceSpan) -> bool {
    exists|g: Gather|
        match g.identifier {
            Some(x) => identifier == Some(x@),
            None => identifier is None,
        } && g.span == span && #[trigger] object_pushed(a, b, Object::Gather(g))
}

/// The gather of the line `line[first..end]` takes `a` to `mid`, and the
/// text after it takes `mid` to `b`.
pub open spec fn gather_via(a: StoryBuilder, mid: StoryBuilder, b: StoryBuilder, line: Seq<char>, first: int, end: int, ctx: LineContext) -> bool {
    let i = dash_end(line, first, end);
    let close = if i < end && line[i] == '(' { first_char(line, i + 1, end, ')') } else { None };
    let identifier = match close {
        Some(c) => Some(line.subrange(i + 1, c)),
        None => None,
    };
    let j = match close {
        Some(c) => space_end(line, c + 1, end),
        None => i,
    };
    &&& gather_pushed(a, mid, identifier, at_column(ctx, (first + 1) as usize))
    &&& if j < end { text_line_step(mid, b, line, j, end, ctx) } else { b == mid }
}

/// `b` is `a` after the line `line[first..end]` that starts with `-`: a
/// new branch `- condition:` or `- else:` of the open conditional, or a
/// gather `- (label) text`.
pub open spec fn gather_line_step(a: StoryBuilder, b: StoryBuilder, line: Seq<char>, first: int, end: int, ctx: LineContext) -> bool {
    let i = dash_end(line, first, end);
    if a.conditionals@.len() > 0 && line[end - 1] == ':' && i < end {
        branch_opened(a, b, branch_condition(line, i, end - 1, ctx))
    } else {
        exists|mid: StoryBuilder| #[trigger] gather_via(a, mid, b, line, first, end, ctx)
    }
}

/// `b` is `a` with an assignment to `target` (shown as `name`) of the kind
/// `kind`, with the declared type `t` and the value `e`, at `span`, added
/// to the innermost open container.
pub open spec fn assignment_pushed(
    a: StoryBuilder,
    b: StoryBuilder,
    name: Seq<char>,
    target: AssignView,
    kind: AssignmentKind,
    t: Option<TypeView>,
    e: Option<ExprView>,
    span: SourceSpan,
) -> bool {
    exists|x: VariableAssignment|
        x.name@ == name && assign_view(x.target) == target && x.kind == kind && opt_type_view(x.declared_type) == t
            && opt_expr_view(x.expression) == e && x.span == span && #[trigger] object_pushed(a, b, Object::VariableAssignment(x))
}

/// The expression that the tokens of `v` from `pos` to the end write.
pub open spec fn rest_expr(v: Seq<(TokenView, int)>, pos: int, ctx: LineContext) -> Option<ExprView> {
    match p_expr(v, pos, ctx) {
        Some((e, n)) => if n == v.len() {
            Some(e)
        } else {
            None
        },
        None => None,
    }
}

/// `b` is `a` after the logic line `~ ...` whose tokens are `v`: a
/// `return`, a `temp` declaration, a compound assignment, an assignment,
/// or an expression.
pub open spec fn logic_line_step(a: StoryBuilder, b: StoryBuilder, v: Seq<(TokenView, int)>, ctx: LineContext) -> bool {
    let span = at_column(ctx, 1);
    if ident_of(v, 0) == Some("return"@) {
        if v.len() == 1 {
            exists|r: Return| r.expression is None && r.span == span && #[trigger] object_pushed(a, b, Object::Return(r))
        } else {
            match rest_expr(v, 1, ctx) {
                Some(e) => exists|r: Return|
                    opt_expr_view(r.expression) == Some(e) && r.span == span && #[trigger] object_pushed(a, b, Object::Return(r)),
                None => reported(a, b, ctx, "Could not read return value"@),
            }
        }
    } else if ident_of(v, 0) == Some("temp"@) {
        match declaration_tail(v, 1, ctx) {
            Some((name, t, e)) => assignment_pushed(a, b, name, AssignView::Variable(name), AssignmentKind::Temporary, t, e, span),
            None => reported(a, b, ctx, "Could not read temp declaration"@),
        }
    } else {
        let target = assignment_target_at(v, 0, ctx);
        let n = match target {
            Some((_, _, n)) => n,
            None => 0,
        };
        if target is Some && (sym_at(v, n, Symbol::PlusAssign) || sym_at(v, n, Symbol::MinusAssign)) {
            let (t, text, _) = target->0;
            match rest_expr(v, n + 1, ctx) {
                Some(e) => exists|x: IncDec|
                    x.name@ == text && assign_view(x.target) == t && expr_view(x.expression) == e && x.is_increment
                        == sym_at(v, n, Symbol::PlusAssign) && x.span == span && #[trigger] object_pushed(a, b, Object::IncDec(x)),
                None => reported(a, b, ctx, "Could not read compound assignment"@),
            }
        } else if target is Some && sym_at(v, n, Symbol::Assign) {
            let (t, text, _) = target->0;
            match rest_expr(v, n + 1, ctx) {
                Some(e) => assignment_pushed(a, b, text, t, AssignmentKind::Assign, None, Some(e), span),
                None => reported(a, b, ctx, "Could not read assignment"@),
            }
        } else {
            match rest_expr(v, 0, ctx) {
                Some(e) => exists|x: Expression| expr_view(x) == e && #[trigger] object_pushed(a, b, Object::LogicLine(x)),
                None => reported(a, b, ctx, "Could not read logic line"@),
            }
        }
    }
}

pub open spec fn strings_view(s: Seq<String>) -> Seq<Seq<char>> {
    s.map_values(|x: String| x@)
}

pub open spec fn type_views(s: Seq<TypeName>) -> Seq<TypeView> {
    s.map_values(|t: TypeName| t.type_view())
}

pub open spec fn names_of_arguments(av: Seq<(Seq<char>, Option<TypeView>, SourceSpan)>) -> Seq<Seq<char>> {
    av.map_values(|x: (Seq<char>, Option<TypeView>, SourceSpan)| x.0)
}

/// The declared types of arguments, `void` where none is declared.
pub open spec fn types_of_arguments(av: Seq<(Seq<char>, Option<TypeView>, SourceSpan)>) -> Seq<TypeView> {
    av.map_values(
        |x: (Seq<char>, Option<TypeView>, SourceSpan)|
            match x.1 {
                Some(t) => t,
                None => TypeView::Void,
            },
    )
}

/// `b` is `a` after the line `EXTERNAL name(arguments) [=> type]` whose
/// tokens are `v`.
pub open spec fn external_step(a: StoryBuilder, b: StoryBuilder, v: Seq<(TokenView, int)>, ctx: LineContext) -> bool {
    match ident_of(v, 1) {
        None => reported(a, b, ctx, "EXTERNAL needs a name"@),
        Some(name) => match arguments_at(v, 2, ctx) {
            None => reported(a, b, ctx, "Could not read EXTERNAL arguments"@),
            Some((args, n)) => {
                let arrow = sym_at(v, n, Symbol::FatArrow);
                if arrow && type_at(v, n + 1) is None {
                    reported(a, b, ctx, "Could not read EXTERNAL return type"@)
                } else {
                    let return_type = match type_at(v, n + 1) {
                        Some((t, _)) => if arrow { t } else { TypeView::Void },
                        None => TypeView::Void,
                    };
                    exists|x: ExternalDeclaration|
                        x.name@ == name && strings_view(x.argument_names@) == names_of_arguments(args) && type_views(
                            x.argument_types@,
                        ) == types_of_arguments(args) && x.return_type.type_view() == return_type && x.span == at_column(ctx, 1)
                            && #[trigger] object_pushed(a, b, Object::ExternalDeclaration(x))
                }
            },
        },
    }
}

/// The end of the run of `*`, `+` and blanks of `s` from `i`.
pub open spec fn choice_mark_end(s: Seq<char>, i: int, end: int) -> int
    decreases end - i,
{
    if i < end && (s[i] == '*' || s[i] == '+' || is_space_spec(s[i])) {
        choice_mark_end(s, i + 1, end)
    } else {
        i
    }
}

/// Where the part of a choice line from `i` that a `(label)` may open
/// ends, and the label.
pub open spec fn label_part(line: Seq<char>, i: int, end: int) -> (Option<Seq<char>>, int) {
    let close = if i < end && line[i] == '(' { first_char(line, i + 1, end, ')') } else { None };
    match close {
        Some(c) => (Some(line.subrange(i + 1, c)), space_end(line, c + 1, end)),
        None => (None, i),
    }
}

/// The `{condition}` of a choice line at `i`: whether one stands there,
/// what it reads as, and where the rest of the line starts.
pub open spec fn condition_part(line: Seq<char>, i: int, end: int, ctx: LineContext) -> (bool, Option<ExprView>, int) {
    let close = if i < end && line[i] == '{' { first_char(line, i + 1, end, '}') } else { None };
    match close {
        Some(c) => (true, whole_expr(line, i + 1, c, ctx), space_end(line, c + 1, end)),
        None => (false, None, i),
    }
}

/// The divert that `line[x..end]` writes, if it reads as one.
pub open spec fn divert_at(line: Seq<char>, x: int, end: int, ctx: LineContext) -> Option<(TargetView, Seq<ExprView>, SourceSpan)> {
    match lex(line, x, end) {
        Some(v) => divert_of(v, ctx),
        None => None,
    }
}

/// `inner` is the content of a choice whose text starts at `i`: the text
/// up to the first `->` outside a string, then the divert, each where there
/// is one.
pub open spec fn choice_inner(inner: Seq<Object>, line: Seq<char>, i: int, end: int, ctx: LineContext) -> bool {
    let arrow = first_arrow(line, i, end, i);
    let text_end = match arrow {
        Some(x) => trimmed(line, i, x),
        None => end,
    };
    let texts: int = if text_end > i { 1 } else { 0 };
    let dv = match arrow {
        Some(x) => divert_at(line, x, end, ctx),
        None => None,
    };
    &&& inner.len() == texts + if dv is Some { 1int } else { 0int }
    &&& text_end > i ==> inner[0] is Text && inner[0]->Text_0.text@ == line.subrange(i, text_end)
        && inner[0]->Text_0.span == at_column(ctx, (i + 1) as usize)
    &&& match dv {
        Some((dt, dargs, dspan)) => inner.last() is Divert && target_view(inner.last()->Divert_0.target) == dt
            && exprs_view(inner.last()->Divert_0.arguments@) == dargs && !inner.last()->Divert_0.is_tunnel
            && inner.last()->Divert_0.span == dspan,
        None => true,
    }
}

/// The choice line `line[first..end]` reports on its condition (`a` to
/// `m1`) and on its divert (`m1` to `m2`), and adds the choice (`m2` to
/// `b`).
pub open spec fn choice_via(a: StoryBuilder, m1: StoryBuilder, m2: StoryBuilder, b: StoryBuilder, line: Seq<char>, first: int, end: int, ctx: LineContext) -> bool {
    let i0 = choice_mark_end(line, first, end);
    let (label, i1) = label_part(line, i0, end);
    let (has_condition, condition, i2) = condition_part(line, i1, end, ctx);
    let arrow = first_arrow(line, i2, end, i2);
    &&& if has_condition && condition is None {
        reported(a, m1, ctx, "Could not read choice condition"@)
    } else {
        m1 == a
    }
    &&& if arrow is Some && divert_at(line, arrow->0, end, ctx) is None {
        reported(m1, m2, ctx, "Could not read divert"@)
    } else {
        m2 == m1
    }
    &&& exists|c: Choice|
        (match c.identifier {
            Some(x) => label == Some(x@),
            None => label is None,
        }) && opt_expr_view(c.condition) == condition && c.start_content is None && choice_inner(
            c.inner_content.objects@,
            line,
            i2,
            end,
            ctx,
        ) && c.span == at_column(ctx, (first + 1) as usize) && #[trigger] object_pushed(m2, b, Object::Choice(c))
}

/// `b` is `a` after the choice line `line[first..end]`:
/// `* (label) {condition} text -> divert`.
pub open spec fn choice_line_step(a: StoryBuilder, b: StoryBuilder, line: Seq<char>, first: int, end: int, ctx: LineContext) -> bool {
    exists|m1: StoryBuilder, m2: StoryBuilder| #[trigger] choice_via(a, m1, m2, b, line, first, end, ctx)
}

/// `b` is `a` with its open conditionals closed, from the last: each joins
/// the last branch of the one before it, and the first joins the innermost
/// open container.
pub open spec fn conditionals_closed(a: StoryBuilder, b: StoryBuilder) -> bool
    decreases a.conditionals@.len(),
{
    let cs = a.conditionals@;
    if cs.len() == 0 {
        b == a
    } else if cs.len() == 1 {
        exists|m: StoryBuilder|
            m == (StoryBuilder { conditionals: m.conditionals, ..a }) && m.conditionals@.len() == 0
                && #[trigger] object_pushed(m, b, Object::Conditional(cs[0]))
    } else {
        exists|m: StoryBuilder| #[trigger] closing_step(a, m) && conditionals_closed(m, b)
    }
}

/// `m` is `a` with its last open conditional closed into the last branch
/// of the one before it.
pub open spec fn closing_step(a: StoryBuilder, m: StoryBuilder) -> bool {
    let cs = a.conditionals@;
    &&& cs.len() >= 2
    &&& m == (StoryBuilder { conditionals: m.conditionals, ..a })
    &&& m.conditionals@.len() == cs.len() - 1
    &&& m.conditionals@.drop_last() == cs.subrange(0, cs.len() - 2)
    &&& conditional_pushed(cs[cs.len() - 2], m.conditionals@.last(), Object::Conditional(cs.last()))
}

/// `b` is `a` with its open `STRUCT` declaration, then its open `ENUM`
/// declaration, added to the innermost open container, and then its open
/// conditionals closed.
pub open spec fn blocks_closed_via(a: StoryBuilder, m1: StoryBuilder, m2: StoryBuilder, b: StoryBuilder) -> bool {
    &&& match a.struct_block {
        None => m1 == a,
        Some(d) => object_pushed(StoryBuilder { struct_block: None, ..a }, m1, Object::StructDeclaration(d)),
    }
    &&& match m1.enum_block {
        None => m2 == m1,
        Some(e) => object_pushed(StoryBuilder { enum_block: None, ..m1 }, m2, Object::EnumDeclaration(e)),
    }
    &&& conditionals_closed(m2, b)
}

/// `b` is `a` with its open `STRUCT` or `ENUM` declaration and its open
/// conditionals closed, their content joining the open containers.
pub open spec fn blocks_closed(a: StoryBuilder, b: StoryBuilder) -> bool {
    &&& exists|m1: StoryBuilder, m2: StoryBuilder| #[trigger] blocks_closed_via(a, m1, m2, b)
    &&& b.struct_block is None
    &&& b.enum_block is None
    &&& b.conditionals@.len() == 0
    &&& containers_kept(a, b)
    &&& a.struct_block is None && a.enum_block is None && a.conditionals@.len() == 0 ==> b == a
}

/// `b` is `a` with its open stitch closed: it joins the open knot as a
/// child flow, or, where no knot is open, the open module or the root
/// flows.
pub open spec fn stitch_finished(a: StoryBuilder, b: StoryBuilder) -> bool {
    &&& b.stitch is None
    &&& match a.stitch {
        None => b == a,
        Some(st) => match a.knot {
            Some(k) => {
                &&& b.knot is Some && flow_child_pushed(k, b.knot->0, st)
                &&& same_outside(a, b)
                &&& b.conditionals == a.conditionals
                &&& b.module == a.module
                &&& b.root_flows == a.root_flows
                &&& b.root_weave == a.root_weave
            },
            None => flow_added(StoryBuilder { stitch: None, ..a }, b, st),
        },
    }
}

/// The blocks of `a` close (`a` to `m1`), its stitch closes (`m1` to `m2`),
/// and its knot joins the open module or the root flows (`m2` to `b`).
pub open spec fn knot_finished_via(a: StoryBuilder, m1: StoryBuilder, m2: StoryBuilder, b: StoryBuilder) -> bool {
    &&& blocks_closed(a, m1)
    &&& stitch_finished(m1, m2)
    &&& match m2.knot {
        Some(k) => flow_added(StoryBuilder { knot: None, ..m2 }, b, k),
        None => b == m2,
    }
}

/// Everything of `a` up to its module closes (`a` to `m`), and the open
/// module, if any, joins the modules (`m` to `b`).
pub open spec fn module_finished_via(a: StoryBuilder, m: StoryBuilder, b: StoryBuilder) -> bool {
    &&& knot_finished(a, m)
    &&& match m.module {
        Some(md) => b == (StoryBuilder { module: None, modules: b.modules, ..m }) && b.modules@ == m.modules@.push(md),
        None => b == m,
    }
}

/// `b` is `a` with its open knot, its open stitch and its blocks closed;
/// the knot joins the open module or the root flows.
pub open spec fn knot_finished(a: StoryBuilder, b: StoryBuilder) -> bool {
    &&& exists|m1: StoryBuilder, m2: StoryBuilder| #[trigger] knot_finished_via(a, m1, m2, b)
    &&& b.struct_block is None
    &&& b.enum_block is None
    &&& b.conditionals@.len() == 0
    &&& b.stitch is None
    &&& b.knot is None
    &&& b.modules == a.modules
    &&& b.diagnostics == a.diagnostics
    &&& a.module is Some <==> b.module is Some
    &&& a.module is Some ==> b.module->0.name == a.module->0.name && b.module->0.imports == a.module->0.imports
    &&& a.module is Some ==> b.root_flows == a.root_flows
    &&& a.knot is Some && a.module is Some ==> b.module->0.flows@.len() == a.module->0.flows@.len() + 1
    &&& a.knot is Some && a.module is None ==> b.root_flows@.len() == a.root_flows@.len() + 1
}

/// `b` is `a` with everything closed; the open module joins the modules.
pub open spec fn module_finished(a: StoryBuilder, b: StoryBuilder) -> bool {
    &&& exists|m: StoryBuilder| #[trigger] module_finished_via(a, m, b)
    &&& b.struct_block is None
    &&& b.enum_block is None
    &&& b.conditionals@.len() == 0
    &&& b.stitch is None
    &&& b.knot is None
    &&& b.module is None
    &&& b.diagnostics == a.diagnostics
    &&& match a.module {
        None => b.modules == a.modules,
        Some(m) => {
            &&& b.modules@.len() == a.modules@.len() + 1
            &&& b.modules@.drop_last() == a.modules@
            &&& b.modules@.last().name == m.name
            &&& b.modules@.last().imports == m.imports
        },
    }
}

/// The end of the run of `=` of `s` from `i`.
pub open spec fn equals_end(s: Seq<char>, i: int, end: int) -> int
    decreases end - i,
{
    if i < end && s[i] == '=' {
        equals_end(s, i + 1, end)
    } else {
        i
    }
}

/// The end of `s[start..end]` without the trailing `=` and blanks.
pub open spec fn header_stop(s: Seq<char>, start: int, end: int) -> int
    decreases end - start,
{
    if end > start && (s[end - 1] == '=' || is_space_spec(s[end - 1])) {
        header_stop(s, start, end - 1)
    } else {
        end
    }
}

/// The module header closes all of `a` (`a` to `mid`) and opens the module
/// `name` (`mid` to `b`).
pub open spec fn module_opened_via(a: StoryBuilder, mid: StoryBuilder, b: StoryBuilder, name: Seq<char>, name_span: SourceSpan, span: SourceSpan) -> bool {
    &&& module_finished(a, mid)
    &&& b == (StoryBuilder { module: b.module, ..mid })
    &&& b.module matches Some(m) && m.name@ == name && m.name_span == name_span && m.span == span
        && m.imports@.len() == 0 && m.weave.content@.len() == 0 && m.flows@.len() == 0
}

/// The stitch header closes the blocks and the stitch of `a` (`a` to `m1`
/// to `m2`) and opens the stitch `name` (`m2` to `b`).
pub open spec fn stitch_opened_via(a: StoryBuilder, m1: StoryBuilder, m2: StoryBuilder, b: StoryBuilder, name: Seq<char>, span: SourceSpan) -> bool {
    &&& blocks_closed(a, m1)
    &&& m2.stitch is None
    &&& m2.modules == m1.modules && m2.diagnostics == m1.diagnostics && m2.struct_block == m1.struct_block
        && m2.enum_block == m1.enum_block && m2.conditionals == m1.conditionals
    &&& b == (StoryBuilder { stitch: b.stitch, ..m2 })
    &&& b.stitch matches Some(f) && f.name@ == name && f.span == span && f.level == FlowLevel::Stitch && !f.is_function
        && !f.is_internal && f.arguments@.len() == 0 && f.return_type.type_view() == TypeView::Void && !f.has_typed_signature
        && f.weave.content@.len() == 0 && f.child_flows@.len() == 0
}

/// The knot header closes the knot of `a` (`a` to `mid`) and opens the knot
/// that `header` describes (`mid` to `b`).
pub open spec fn knot_opened_via(
    a: StoryBuilder,
    mid: StoryBuilder,
    b: StoryBuilder,
    header: (Seq<char>, bool, bool, Seq<(Seq<char>, Option<TypeView>, SourceSpan)>, TypeView, bool),
    span: SourceSpan,
) -> bool {
    &&& knot_finished(a, mid)
    &&& b == (StoryBuilder { knot: b.knot, ..mid })
    &&& b.knot matches Some(f) && (f.name@, f.is_function, f.is_internal, arguments_view(f.arguments@), f.return_type.type_view(), f.has_typed_signature)
        == header && f.level == FlowLevel::Knot && f.span == span && f.weave.content@.len() == 0 && f.child_flows@.len() == 0
}

/// `b` is `a` after the header line `line[first..end]`: `=== module name
/// ===` (three or more `=`), `= stitch` (one `=`), or a knot header.
pub open spec fn header_line_step(a: StoryBuilder, b: StoryBuilder, line: Seq<char>, first: int, end: int, ctx: LineContext) -> bool {
    let start = equals_end(line, first, end);
    let equals = start - first;
    let stop = header_stop(line, start, end);
    let span = at_column(ctx, (first + 1) as usize);
    match lex(line, start, stop) {
        None => reported(a, b, ctx, "Could not read header"@),
        Some(v) => if equals >= 3 && ident_of(v, 0) == Some("module"@) {
            match ident_of(v, 1) {
                None => reported(a, b, ctx, "Module header needs a name"@),
                Some(name) => if v.len() > 2 {
                    reported(a, b, ctx, "Module header has unexpected text after the module name"@)
                } else {
                    exists|mid: StoryBuilder| #[trigger] module_opened_via(a, mid, b, name, at_column(ctx, column_of(v, 1) as usize), span)
                },
            }
        } else if equals == 1 {
            match ident_of(v, 0) {
                None => reported(a, b, ctx, "Stitch header needs a name"@),
                Some(name) => exists|m1: StoryBuilder, m2: StoryBuilder| #[trigger] stitch_opened_via(a, m1, m2, b, name, span),
            }
        } else {
            match flow_header(v, ctx) {
                None => reported(a, b, ctx, "Could not read knot header"@),
                Some(h) => exists|mid: StoryBuilder| #[trigger] knot_opened_via(a, mid, b, h, span),
            }
        }
    }
}

/// `b` is `a` after the line `line[first..end]` inside a `STRUCT`
/// declaration: a field `name: type`, or `}`, which closes it.
pub open spec fn struct_field_step(a: StoryBuilder, b: StoryBuilder, line: Seq<char>, first: int, end: int, ctx: LineContext) -> bool {
    &&& (line[first] == '}' ==> match a.struct_block {
            None => b == a,
            Some(d) => object_pushed(StoryBuilder { struct_block: None, ..a }, b, Object::StructDeclaration(d)),
        })
    &&& (line[first] != '}' ==> match lex(line, first, end) {
            None => reported(a, b, ctx, "Could not read struct field"@),
            Some(v) => match ident_of(v, 0) {
                None => reported(a, b, ctx, "Struct field needs a name"@),
                Some(name) => if !sym_at(v, 1, Symbol::Colon) {
                    reported(a, b, ctx, "Struct field needs a type"@)
                } else {
                    match type_at(v, 2) {
                        None => reported(a, b, ctx, "Could not read struct field type"@),
                        Some((t, _)) => field_added(a, b, name, t, at_column(ctx, (first + 1) as usize)),
                    }
                },
            },
        })
}

/// `b` is `a` after the line `line[first..end]` inside an `ENUM`
/// declaration: members, up to a `}` that closes it.
pub open spec fn enum_member_step(a: StoryBuilder, b: StoryBuilder, line: Seq<char>, first: int, end: int, ctx: LineContext) -> bool {
    match lex(line, first, end) {
            None => reported(a, b, ctx, "Could not read enum members"@),
            Some(v) => {
                let close = first_rbrace(v, 0);
                let names = ident_items(v, 0, match close { Some(c) => c, None => v.len() as int }, ctx);
                match a.enum_block {
                    None => b == a,
                    Some(d) => match close {
                        None => {
                            &&& b == (StoryBuilder { enum_block: b.enum_block, ..a })
                            &&& b.enum_block matches Some(d2) && d2.name == d.name && d2.span == d.span
                                && members_view(d2.members@) == members_view(d.members@) + names
                        },
                        Some(_) => enum_pushed(StoryBuilder { enum_block: None, ..a }, b, d.name@,
                            members_view(d.members@) + names, d.span),
                    },
                }
            },
        }
}

/// `b` is `a` after the line `FROM source [IMPORT names]` whose tokens are `v`.
pub open spec fn import_step(a: StoryBuilder, b: StoryBuilder, v: Seq<(TokenView, int)>, ctx: LineContext) -> bool {
    match ident_of(v, 1) {
            None => reported(a, b, ctx, "FROM needs a module name"@),
            Some(source) => if a.module is None {
                reported(a, b, ctx, "FROM imports are only allowed inside modules"@)
            } else {
                import_added(a, b, source, at_column(ctx, column_of(v, 1) as usize), if ident_of(v, 2) == Some("IMPORT"@) {
                    ident_items(v, 3, v.len() as int, ctx)
                } else {
                    Seq::empty()
                })
            },
        }
}

/// `b` is `a` after the line `IMPORT names FROM source` whose tokens are `v`.
pub open spec fn reversed_import_step(a: StoryBuilder, b: StoryBuilder, v: Seq<(TokenView, int)>, ctx: LineContext) -> bool {
    &&& (v.len() == 0 ==> b == a)
    &&& (v.len() > 0 ==> match first_word(v, 1, "FROM"@) {
            None => reported(a, b, ctx, "IMPORT needs FROM and a module name"@),
            Some(at) => match ident_of(v, at + 1) {
                None => reported(a, b, ctx, "IMPORT needs FROM and a module name"@),
                Some(source) => if a.module is None {
                    reported(a, b, ctx, "IMPORT is only allowed inside modules"@)
                } else {
                    import_added(a, b, source, at_column(ctx, column_of(v, at + 1) as usize), ident_items(v, 1, at, ctx))
                },
            },
        })
}

/// `b` is `a` after the line `CONST ...` or `VAR ...` whose tokens are `v`.
pub open spec fn declaration_step(a: StoryBuilder, b: StoryBuilder, v: Seq<(TokenView, int)>, ctx: LineContext) -> bool {
    &&& (v.len() == 0 ==> b == a)
    &&& (v.len() > 0 ==> match declaration_tail(v, 1, ctx) {
            None => reported(a, b, ctx, "Could not read declaration"@),
            Some((name, t, e)) => if ident_of(v, 0) == Some("CONST"@) {
                if t is Some && e is Some {
                    exists|c: ConstantDeclaration|
                        c.name@ == name && c.declared_type.type_view() == t->0 && expr_view(c.expression) == e->0
                            && c.span == at_column(ctx, 1) && #[trigger] object_pushed(
                            a,
                            b,
                            Object::ConstantDeclaration(c),
                        )
                } else {
                    reported(a, b, ctx, "CONST needs a type and a value"@)
                }
            } else {
                exists|x: VariableAssignment|
                    x.name@ == name && x.target is Variable && x.target->Variable_0@ == name && x.kind
                        == AssignmentKind::Global && opt_type_view(x.declared_type) == t && opt_expr_view(x.expression)
                        == e && x.span == at_column(ctx, 1) && #[trigger] object_pushed(
                        a,
                        b,
                        Object::VariableAssignment(x),
                    )
            },
        })
}

/// `b` is `a` after the line `STRUCT Name {` whose tokens are `v`.
pub open spec fn struct_header_step(a: StoryBuilder, b: StoryBuilder, v: Seq<(TokenView, int)>, ctx: LineContext) -> bool {
    match ident_of(v, 1) {
            None => reported(a, b, ctx, "STRUCT needs a name"@),
            Some(name) => if sym_at(v, 2, Symbol::LBrace) {
                &&& b == (StoryBuilder { struct_block: b.struct_block, ..a })
                &&& b.struct_block matches Some(d) && d.name@ == name && d.fields@.len() == 0
                    && d.span == at_column(ctx, 1)
            } else {
                reported(a, b, ctx, "STRUCT needs '{'"@)
            },
        }
}

/// `b` is `a` after the line `ENUM Name { members [}]` whose tokens are `v`.
pub open spec fn enum_header_step(a: StoryBuilder, b: StoryBuilder, v: Seq<(TokenView, int)>, ctx: LineContext) -> bool {
    match ident_of(v, 1) {
            None => reported(a, b, ctx, "ENUM needs a name"@),
            Some(name) => if !sym_at(v, 2, Symbol::LBrace) {
                reported(a, b, ctx, "ENUM needs '{'"@)
            } else {
                match first_rbrace(v, 3) {
                    Some(close) => enum_pushed(a, b, name, ident_items(v, 3, close, ctx), at_column(ctx, 1)),
                    None => {
                        &&& b == (StoryBuilder { enum_block: b.enum_block, ..a })
                        &&& b.enum_block matches Some(d) && d.name@ == name
                            && members_view(d.members@) == ident_items(v, 3, v.len() as int, ctx)
                            && d.span == at_column(ctx, 1)
                    },
                }
            },
        }
}

/// `b` is `a` with the objects `os` added, in order, each to the innermost
/// open container.
pub open spec fn objects_pushed(a: StoryBuilder, b: StoryBuilder, os: Seq<Object>) -> bool
    decreases os.len(),
{
    if os.len() == 0 {
        b == a
    } else {
        exists|mid: StoryBuilder| objects_pushed(a, mid, os.drop_last()) && #[trigger] object_pushed(mid, b, os.last())
    }
}

/// `b` is `a` after the line of diverts `line[first..end]`.
pub open spec fn divert_line_step(a: StoryBuilder, b: StoryBuilder, line: Seq<char>, first: int, end: int, ctx: LineContext) -> bool {
    match lex(line, first, end) {
        Some(v) => match divert_line(v, 0, Seq::empty(), ctx) {
            Some(items) => exists|os: Seq<Object>| divert_items(os) == items && #[trigger] objects_pushed(a, b, os),
            None => reported(a, b, ctx, "Could not read divert"@),
        },
        None => reported(a, b, ctx, "Could not read divert"@),
    }
}

/// `b` is `a` after the line `line[first..end]` that holds no more than
/// words, when the first word is no keyword: text.
pub open spec fn keyword_line_step(a: StoryBuilder, b: StoryBuilder, line: Seq<char>, first: int, end: int, ctx: LineContext) -> bool {
    match lex(line, first, end) {
        Some(v) => if ident_of(v, 0) == Some("FROM"@) {
            import_step(a, b, v, ctx)
        } else if ident_of(v, 0) == Some("IMPORT"@) {
            reversed_import_step(a, b, v, ctx)
        } else if ident_of(v, 0) == Some("CONST"@) || ident_of(v, 0) == Some("VAR"@) {
            declaration_step(a, b, v, ctx)
        } else if ident_of(v, 0) == Some("STRUCT"@) {
            struct_header_step(a, b, v, ctx)
        } else if ident_of(v, 0) == Some("ENUM"@) {
            enum_header_step(a, b, v, ctx)
        } else if ident_of(v, 0) == Some("EXTERNAL"@) {
            external_step(a, b, v, ctx)
        } else {
            text_line_step(a, b, line, first, end, ctx)
        },
        None => text_line_step(a, b, line, first, end, ctx),
    }
}

/// `b` is `a` after the source line `line[first..end]`, by what it starts
/// with: a comment `//`; a line inside an open `STRUCT` or `ENUM`
/// declaration; a header `=`; a logic line `~`; a choice `*` or `+`; diverts
/// `->`; a gather or branch `-`; `{`; `}`, which closes the last open
/// conditional; a tag `#`; a declaration or import keyword; else text.
pub open spec fn line_step(a: StoryBuilder, b: StoryBuilder, line: Seq<char>, first: int, end: int, ctx: LineContext) -> bool {
    let c = line[first];
    if c == '/' && first + 1 < end && line[first + 1] == '/' {
        b == a
    } else if a.struct_block is Some {
        struct_field_step(a, b, line, first, end, ctx)
    } else if a.enum_block is Some {
        enum_member_step(a, b, line, first, end, ctx)
    } else if c == '=' {
        header_line_step(a, b, line, first, end, ctx)
    } else if c == '~' {
        match lex(line, first + 1, end) {
            Some(v) => logic_line_step(a, b, v, ctx),
            None => reported(a, b, ctx, "Could not read logic line"@),
        }
    } else if c == '*' || c == '+' {
        choice_line_step(a, b, line, first, end, ctx)
    } else if c == '-' && first + 1 < end && line[first + 1] == '>' {
        divert_line_step(a, b, line, first, end, ctx)
    } else if c == '-' {
        gather_line_step(a, b, line, first, end, ctx)
    } else if c == '{' {
        brace_line_step(a, b, line, first, end, ctx)
    } else if c == '}' {
        if a.conditionals@.len() > 0 {
            exists|m: StoryBuilder|
                m == (StoryBuilder { conditionals: m.conditionals, ..a }) && m.conditionals@ == a.conditionals@.drop_last()
                    && #[trigger] object_pushed(m, b, Object::Conditional(a.conditionals@.last()))
        } else {
            reported(a, b, ctx, "Unexpected '}'"@)
        }
    } else if c == '#' {
        exists|t: Tag|
            t.text@ == line.subrange(first + 1, end) && t.span == at_column(ctx, (first + 1) as usize) && #[trigger] object_pushed(
                a,
                b,
                Object::Tag(t),
            )
    } else {
        keyword_line_step(a, b, line, first, end, ctx)
    }
}

impl StoryBuilder {
    pub fn new() -> (r: Self)
        ensures
            r.root_weave@ == Seq::<Object>::empty(),
            r.root_flows@ == Seq::<Flow>::empty(),
            r.modules@ == Seq::<Module>::empty(),
            r.module is None,
            r.knot is None,
            r.stitch is None,
            r.conditionals@ == Seq::<Conditional>::empty(),
            r.struct_block is None,
            r.enum_block is None,
            r.diagnostics@ == Seq::<Diagnostic>::empty(),
    {
        StoryBuilder {
            root_weave: Vec::new(),
            root_flows: Vec::new(),
            modules: Vec::new(),
            module: None,
            knot: None,
            stitch: None,
            conditionals: Vec::new(),
            struct_block: None,
            enum_block: None,
            diagnostics: Vec::new(),
        }
    }

    /// Adds `object` to the innermost open container.
    pub fn push_object(&mut self, object: Object)
        ensures
            final(self).conditionals@.len() == old(self).conditionals@.len(),
            object_pushed(*old(self), *final(self), object),
    {
        if self.conditionals.len() > 0 {
            let ghost a = *self;
            let mut conditional = self.conditionals.pop().unwrap();
            let ghost c0 = conditional;
            let mut branch = match conditional.branches.pop() {
                Some(branch) => branch,
                None => ConditionalBranch {
                    own_condition: None,
                    content: Weave { content: Vec::new() },
                },
            };
            branch.content.content.push(object);
            conditional.branches.push(branch);
            proof {
                if c0.branches@.len() > 0 {
                    assert(conditional.branches@.drop_last() =~= c0.branches@.drop_last());
                } else {
                    assert(branch.content.content@ =~= seq![object]);
                }
            }
            self.conditionals.push(conditional);
            assert(self.conditionals@.drop_last() =~= a.conditionals@.drop_last());
            return ;
        }
        let stitch = self.stitch.take();
        match stitch {
            Some(mut flow) => {
                flow.weave.content.push(object);
                self.stitch = Some(flow);
                return ;
            },
            None => {},
        }
        let knot = self.knot.take();
        match knot {
            Some(mut flow) => {
                flow.weave.content.push(object);
                self.knot = Some(flow);
                return ;
            },
            None => {},
        }
        let module = self.module.take();
        match module {
            Some(mut m) => {
                m.weave.content.push(object);
                self.module = Some(m);
            },
            None => {
                self.root_weave.push(object);
            },
        }
    }

    /// Closes every open conditional.
    fn close_conditionals(&mut self)
        ensures
            conditionals_closed(*old(self), *final(self)),
            final(self).conditionals@.len() == 0,
            containers_kept(*old(self), *final(self)),
            final(self).struct_block == old(self).struct_block,
            final(self).enum_block == old(self).enum_block,
            old(self).conditionals@.len() == 0 ==> *final(self) == *old(self),
    {
        let ghost a = *self;
        while self.conditionals.len() > 0
            invariant
                containers_kept(a, *self),
                self.struct_block == a.struct_block,
                self.enum_block == a.enum_block,
                a.conditionals@.len() == 0 ==> *self == a,
                forall|b: StoryBuilder| #[trigger] conditionals_closed(*self, b) ==> conditionals_closed(a, b),
            decreases self.conditionals.len(),
        {
            let ghost before = *self;
            let conditional = self.conditionals.pop().unwrap();
            if self.conditionals.len() > 0 {
                let mut outer = self.conditionals.pop().unwrap();
                let ghost outer0 = outer;
                let mut branch = match outer.branches.pop() {
                    Some(branch) => branch,
                    None => ConditionalBranch {
                        own_condition: None,
                        content: Weave { content: Vec::new() },
                    },
                };
                branch.content.content.push(Object::Conditional(conditional));
                outer.branches.push(branch);
                proof {
                    if outer0.branches@.len() > 0 {
                        assert(outer.branches@.drop_last() =~= outer0.branches@.drop_last());
                    } else {
                        assert(branch.content.content@ =~= seq![Object::Conditional(conditional)]);
                    }
                }
                let ghost rest = self.conditionals@;
                self.conditionals.push(outer);
                assert(self.conditionals@.drop_last() =~= rest);
                assert(rest =~= before.conditionals@.subrange(0, before.conditionals@.len() - 2));
                assert(*self == (StoryBuilder { conditionals: self.conditionals, ..before }));
                assert(self.conditionals@.len() == before.conditionals@.len() - 1);
                assert(self.conditionals@.drop_last() == before.conditionals@.subrange(0, before.conditionals@.len() - 2));
                assert(before.conditionals@.len() >= 2);
                assert(closing_step(before, *self));
                assert forall|b: StoryBuilder| #[trigger] conditionals_closed(*self, b) implies conditionals_closed(before, b) by {
                    assert(closing_step(before, *self));
                }
            } else {
                let ghost m = *self;
                self.push_object(Object::Conditional(conditional));
                assert(object_pushed(m, *self, Object::Conditional(before.conditionals@[0])));
                assert(conditionals_closed(before, *self));
            }
        }
        assert(conditionals_closed(*self, *self));
    }

    /// Closes the open `STRUCT` or `ENUM` declaration, which joins the
    /// innermost open container, and every open conditional.
    fn close_blocks(&mut self)
        ensures
            blocks_closed(*old(self), *final(self)),
    {
        let declaration = self.struct_block.take();
        match declaration {
            Some(declaration) => self.push_object(Object::StructDeclaration(declaration)),
            None => {},
        }
        let ghost m1 = *self;
        let declaration = self.enum_block.take();
        match declaration {
            Some(declaration) => self.push_object(Object::EnumDeclaration(declaration)),
            None => {},
        }
        let ghost m2 = *self;
        self.close_conditionals();
        assert(blocks_closed_via(*old(self), m1, m2, *self));
    }

    fn finish_stitch(&mut self)
        ensures
            stitch_finished(*old(self), *final(self)),
    {
        let stitch = self.stitch.take();
        match stitch {
            Some(stitch) => {
                let knot = self.knot.take();
                match knot {
                    Some(mut knot) => {
                        knot.child_flows.push(stitch);
                        self.knot = Some(knot);
                    },
                    None => {
                        self.push_flow(stitch);
                    },
                }
            },
            None => {},
        }
    }

    fn push_flow(&mut self, flow: Flow)
        ensures
            flow_added(*old(self), *final(self), flow),
    {
        let module = self.module.take();
        match module {
            Some(mut m) => {
                m.flows.push(flow);
                self.module = Some(m);
            },
            None => {
                self.root_flows.push(flow);
            },
        }
    }

    /// Closes the open knot, with its open stitch and blocks, and adds it to
    /// the open module or to the root flows.
    fn finish_knot(&mut self)
        ensures
            knot_finished(*old(self), *final(self)),
    {
        self.close_blocks();
        let ghost m1 = *self;
        self.finish_stitch();
        let ghost m2 = *self;
        let knot = self.knot.take();
        match knot {
            Some(knot) => self.push_flow(knot),
            None => {},
        }
        assert(knot_finished_via(*old(self), m1, m2, *self));
    }

    /// Closes everything that is open and adds the open module, if any, to
    /// the modules.
    fn finish_module(&mut self)
        ensures
            module_finished(*old(self), *final(self)),
    {
        self.finish_knot();
        let ghost m = *self;
        let module = self.module.take();
        match module {
            Some(md) => {
                let ghost before = self.modules@;
                self.modules.push(md);
                assert(self.modules@.drop_last() =~= before);
            },
            None => {},
        }
        assert(module_finished_via(*old(self), m, *self));
    }

    /// Closes everything that is open; call at the end of each source.
    pub fn finish_source(&mut self)
        ensures
            module_finished(*old(self), *final(self)),
    {
        self.finish_module();
    }

    /// The finished story.
    pub fn into_story(self) -> (r: Story)
        ensures
            r.root_weave.content == self.root_weave,
            r.flows == self.root_flows,
            r.modules == self.modules,
    {
        Story {
            root_weave: Weave { content: self.root_weave },
            flows: self.root_flows,
            modules: self.modules,
        }
    }

    fn report(&mut self, ctx: &LineContext, message: &str)
        ensures
            reported(*old(self), *final(self), *ctx, message@),
    {
        let ghost a = *self;
        self.diagnostics.push(Diagnostic::error(ctx.span_at(1), owned(message)));
        assert(self.diagnostics@.drop_last() =~= a.diagnostics@);
    }

    /// Parses one source line `line[first..end]`, where `first` is its first
    /// non-blank character and `end` follows its last one.
    pub fn parse_line(&mut self, line: &Vec<char>, first: usize, end: usize, ctx: &LineContext)
        requires
            first < end <= line.len(),
        ensures
            line_step(*old(self), *final(self), line@, first as int, end as int, *ctx),
    {
        let c = line[first];
        if c == '/' && first + 1 < end && line[first + 1] == '/' {
            return ;
        }
        if self.struct_block.is_some() {
            self.parse_struct_field_line(line, first, end, ctx);
            return ;
        }
        if self.enum_block.is_some() {
            self.parse_enum_member_line(line, first, end, ctx);
            return ;
        }
        if c == '=' {
            self.parse_header_line(line, first, end, ctx);
            return ;
        }
        if c == '~' {
            match tokenize(line, first + 1, end) {
                Some(tokens) => self.parse_logic_line(&tokens, ctx),
                None => self.report(ctx, "Could not read logic line"),
            }
            return ;
        }
        if c == '*' || c == '+' {
            self.parse_choice_line(line, first, end, ctx);
            return ;
        }
        if c == '-' && first + 1 < end && line[first + 1] == '>' {
            match tokenize(line, first, end) {
                Some(tokens) => match parse_divert_line(&tokens, ctx) {
                    Some(objects) => {
                        let mut objects = objects;
                        let ghost all = objects@;
                        let mut rest: Vec<Object> = Vec::new();
                        while objects.len() > 0
                            invariant
                                objects.len() + rest.len() == all.len(),
                                objects@ == all.subrange(0, objects.len() as int),
                                forall|k: int| 0 <= k < rest.len() ==> rest@[k] == all[all.len() - 1 - k],
                            decreases objects.len(),
                        {
                            match objects.pop() {
                                Some(o) => rest.push(o),
                                None => {},
                            }
                        }
                        let ghost a = *self;
                        assert(objects_pushed(a, *self, all.subrange(0, 0)));
                        while rest.len() > 0
                            invariant
                                rest.len() <= all.len(),
                                forall|k: int| 0 <= k < rest.len() ==> rest@[k] == all[all.len() - 1 - k],
                                objects_pushed(a, *self, all.subrange(0, all.len() - rest.len())),
                            decreases rest.len(),
                        {
                            let ghost j = all.len() - rest.len();
                            let ghost before = *self;
                            assert(rest@[rest.len() - 1] == all[j]);
                            match rest.pop() {
                                Some(o) => {
                                    self.push_object(o);
                                    assert(all.subrange(0, j + 1).drop_last() =~= all.subrange(0, j));
                                    assert(all.subrange(0, j + 1).last() == o);
                                    assert(object_pushed(before, *self, all.subrange(0, j + 1).last()));
                                    assert(objects_pushed(a, *self, all.subrange(0, j + 1)));
                                },
                                None => {},
                            }
                        }
                        assert(all.subrange(0, all.len() as int) =~= all);
                        assert(divert_items(all) == divert_line(tokens_view(tokens@), 0, Seq::empty(), *ctx)->0);
                        assert(divert_line_step(*old(self), *self, line@, first as int, end as int, *ctx));
                    },
                    None => self.report(ctx, "Could not read divert"),
                },
                None => self.report(ctx, "Could not read divert"),
            }
            return ;
        }
        if c == '-' {
            self.parse_gather_line(line, first, end, ctx);
            return ;
        }
        if c == '{' {
            self.parse_brace_line(line, first, end, ctx);
            return ;
        }
        if c == '}' {
            if self.conditionals.len() > 0 {
                let conditional = self.conditionals.pop().unwrap();
                let ghost m = *self;
                assert(self.conditionals@ =~= old(self).conditionals@.drop_last());
                self.push_object(Object::Conditional(conditional));
                assert(object_pushed(m, *self, Object::Conditional(old(self).conditionals@.last())));
            } else {
                self.report(ctx, "Unexpected '}'");
            }
            return ;
        }
        if c == '#' {
            let text = string_from_chars(line, first + 1, end);
            let t = Tag { text, span: ctx.span_at(first + 1) };
            let ghost gt = t;
            self.push_object(Object::Tag(t));
            assert(object_pushed(*old(self), *self, Object::Tag(gt)));
            return ;
        }
        match tokenize(line, first, end) {
            Some(tokens) => {
                if is_word(&tokens, 0, "FROM") {
                    self.parse_import(&tokens, ctx);
                    return ;
                }
                if is_word(&tokens, 0, "IMPORT") {
                    self.parse_reversed_import(&tokens, ctx);
                    return ;
                }
                if is_word(&tokens, 0, "CONST") || is_word(&tokens, 0, "VAR") {
                    self.parse_variable_declaration(&tokens, ctx);
                    return ;
                }
                if is_word(&tokens, 0, "STRUCT") {
                    self.parse_struct_header(&tokens, ctx);
                    return ;
                }
                if is_word(&tokens, 0, "ENUM") {
                    self.parse_enum_header(&tokens, ctx);
                    return ;
                }
                if is_word(&tokens, 0, "EXTERNAL") {
                    self.parse_external(&tokens, ctx);
                    return ;
                }
            },
            None => {},
        }
        self.parse_text_line(line, first, end, ctx);
    }

    /// Text, possibly ending in a divert.
    fn parse_text_line(&mut self, line: &Vec<char>, first: usize, end: usize, ctx: &LineContext)
        requires
            first <= end <= line.len(),
        ensures
            text_line_step(*old(self), *final(self), line@, first as int, end as int, *ctx),
    {
        let arrow = find_arrow(line, first, end);
        let text_end = match arrow {
            Some(a) => trim_end(line, first, a),
            None => end,
        };
        if text_end > first {
            let text = string_from_chars(line, first, text_end);
            let t = Text { text, span: ctx.span_at(first + 1) };
            let ghost gt = t;
            self.push_object(Object::Text(t));
            assert(text_pushed(*old(self), *self, line@.subrange(first as int, text_end as int), at_column(*ctx, (first + 1) as usize)));
        }
        let ghost mid = *self;
        match arrow {
            Some(a) => match tokenize(line, a, end) {
                Some(tokens) => match parse_divert(&tokens, 0, ctx) {
                    Some(divert) => {
                        let ghost d = divert;
                        self.push_object(Object::Divert(divert));
                        assert(object_pushed(mid, *self, Object::Divert(d)));
                        assert(divert_step(mid, *self, line@, a as int, end as int, *ctx));
                    },
                    None => {
                        self.report(ctx, "Could not read divert");
                        assert(divert_step(mid, *self, line@, a as int, end as int, *ctx));
                    },
                },
                None => {
                    self.report(ctx, "Could not read divert");
                    assert(divert_step(mid, *self, line@, a as int, end as int, *ctx));
                },
            },
            None => {},
        }
        assert(text_then_divert(*old(self), mid, *self, line@, first as int, end as int, *ctx));
    }

    fn parse_header_line(&mut self, line: &Vec<char>, first: usize, end: usize, ctx: &LineContext)
        requires
            first < end <= line.len(),
        ensures
            header_line_step(*old(self), *final(self), line@, first as int, end as int, *ctx),
    {
        let mut start = first;
        while start < end && line[start] == '='
            invariant
                first <= start <= end,
                end <= line.len(),
                equals_end(line@, start as int, end as int) == equals_end(line@, first as int, end as int),
            decreases end - start,
        {
            start = start + 1;
        }
        let equals = start - first;
        let mut stop = end;
        while stop > start && (line[stop - 1] == '=' || is_space(line[stop - 1]))
            invariant
                start <= stop <= end,
                end <= line.len(),
                header_stop(line@, start as int, stop as int) == header_stop(line@, start as int, end as int),
            decreases stop,
        {
            stop = stop - 1;
        }
        let tokens = match tokenize(line, start, stop) {
            Some(tokens) => tokens,
            None => {
                self.report(ctx, "Could not read header");
                return ;
            },
        };
        if equals >= 3 && is_word(&tokens, 0, "module") {
            match ident_at(&tokens, 1) {
                Some(_) if tokens.len() > 2 => self.report(ctx, "Module header has unexpected text after the module name"),
                Some(name) => {
                    self.finish_module();
                    let ghost mid = *self;
                    self.module = Some(
                        Module {
                            name,
                            name_span: ctx.span_at(column_at(&tokens, 1)),
                            span: ctx.span_at(first + 1),
                            imports: Vec::new(),
                            weave: Weave { content: Vec::new() },
                            flows: Vec::new(),
                        },
                    );
                    assert(module_opened_via(*old(self), mid, *self, ident_of(tokens_view(tokens@), 1)->0, at_column(*ctx, column_of(tokens_view(tokens@), 1) as usize), at_column(*ctx, (first + 1) as usize)));
                },
                None => self.report(ctx, "Module header needs a name"),
            }
            return ;
        }
        if equals == 1 {
            match ident_at(&tokens, 0) {
                Some(name) => {
                    self.close_blocks();
                    let ghost m1 = *self;
                    self.finish_stitch();
                    let ghost m2 = *self;
                    self.stitch = Some(
                        Flow {
                            name,
                            span: ctx.span_at(first + 1),
                            level: FlowLevel::Stitch,
                            is_function: false,
                            is_internal: false,
                            arguments: Vec::new(),
                            return_type: TypeName::Void,
                            has_typed_signature: false,
                            weave: Weave { content: Vec::new() },
                            child_flows: Vec::new(),
                        },
                    );
                    assert(stitch_opened_via(*old(self), m1, m2, *self, ident_of(tokens_view(tokens@), 0)->0, at_column(*ctx, (first + 1) as usize)));
                },
                None => self.report(ctx, "Stitch header needs a name"),
            }
            return ;
        }
        match parse_flow_header(&tokens, ctx, first + 1) {
            Some(flow) => {
                self.finish_knot();
                let ghost mid = *self;
                self.knot = Some(flow);
                assert(knot_opened_via(*old(self), mid, *self, flow_header(tokens_view(tokens@), *ctx)->0, at_column(*ctx, (first + 1) as usize)));
            },
            None => self.report(ctx, "Could not read knot header"),
        }
    }

    fn parse_logic_line(&mut self, tokens: &Vec<Token>, ctx: &LineContext)
        ensures
            logic_line_step(*old(self), *final(self), tokens_view(tokens@), *ctx),
    {
        let span = ctx.span_at(1);
        if is_word(tokens, 0, "return") {
            if tokens.len() == 1 {
                let r = Return { expression: None, span };
                let ghost gr = r;
                self.push_object(Object::Return(r));
                assert(object_pushed(*old(self), *self, Object::Return(gr)));
                return ;
            }
            match parse_expression(tokens, 1, ctx) {
                Some((expression, next)) if next == tokens.len() => {
                    let r = Return { expression: Some(expression), span };
                    let ghost gr = r;
                    self.push_object(Object::Return(r));
                    assert(object_pushed(*old(self), *self, Object::Return(gr)));
                },
                _ => self.report(ctx, "Could not read return value"),
            }
            return ;
        }
        if is_word(tokens, 0, "temp") {
            match parse_declaration_tail(tokens, 1, ctx) {
                Some((name, declared_type, expression)) => {
                    let target = AssignmentTarget::Variable(name.clone());
                    let x = VariableAssignment {
                        name,
                        target,
                        kind: AssignmentKind::Temporary,
                        declared_type,
                        expression,
                        span,
                    };
                    let ghost gx = x;
                    self.push_object(Object::VariableAssignment(x));
                    assert(object_pushed(*old(self), *self, Object::VariableAssignment(gx)));
                },
                None => self.report(ctx, "Could not read temp declaration"),
            }
            return ;
        }
        match parse_assignment_target(tokens, 0, ctx) {
            Some((target, name, next)) => {
                if is_sym(tokens, next, Symbol::PlusAssign) || is_sym(tokens, next, Symbol::MinusAssign) {
                    let is_increment = is_sym(tokens, next, Symbol::PlusAssign);
                    match parse_expression(tokens, next + 1, ctx) {
                        Some((expression, after)) if after == tokens.len() => {
                            let x = IncDec { name, target, expression, is_increment, span };
                            let ghost gx = x;
                            self.push_object(Object::IncDec(x));
                            assert(object_pushed(*old(self), *self, Object::IncDec(gx)));
                        },
                        _ => self.report(ctx, "Could not read compound assignment"),
                    }
                    return ;
                }
                if is_sym(tokens, next, Symbol::Assign) {
                    match parse_expression(tokens, next + 1, ctx) {
                        Some((expression, after)) if after == tokens.len() => {
                            let x = VariableAssignment {
                                name,
                                target,
                                kind: AssignmentKind::Assign,
                                declared_type: None,
                                expression: Some(expression),
                                span,
                            };
                            let ghost gx = x;
                            self.push_object(Object::VariableAssignment(x));
                            assert(object_pushed(*old(self), *self, Object::VariableAssignment(gx)));
                        },
                        _ => self.report(ctx, "Could not read assignment"),
                    }
                    return ;
                }
            },
            None => {},
        }
        match parse_expression(tokens, 0, ctx) {
            Some((expression, next)) if next == tokens.len() => {
                let ghost gx = expression;
                self.push_object(Object::LogicLine(expression));
                assert(object_pushed(*old(self), *self, Object::LogicLine(gx)));
            },
            _ => self.report(ctx, "Could not read logic line"),
        }
    }

    fn parse_choice_line(&mut self, line: &Vec<char>, first: usize, end: usize, ctx: &LineContext)
        requires
            first < end <= line.len(),
        ensures
            choice_line_step(*old(self), *final(self), line@, first as int, end as int, *ctx),
    {
        let mut i = first;
        while i < end && (line[i] == '*' || line[i] == '+' || is_space(line[i]))
            invariant
                first <= i <= end,
                end <= line.len(),
                choice_mark_end(line@, i as int, end as int) == choice_mark_end(line@, first as int, end as int),
            decreases end - i,
        {
            i = i + 1;
        }
        let ghost i0 = i;
        let mut identifier: Option<String> = None;
        if i < end && line[i] == '(' {
            let close = find_char(line, i + 1, end, ')');
            match close {
                Some(close) => {
                    identifier = Some(string_from_chars(line, i + 1, close));
                    i = skip_spaces(line, close + 1, end);
                },
                None => {},
            }
        }
        assert(label_part(line@, i0 as int, end as int).1 == i as int);
        let ghost i1 = i;
        let mut condition: Option<Expression> = None;
        if i < end && line[i] == '{' {
            let close = find_char(line, i + 1, end, '}');
            match close {
                Some(close) => {
                    match tokenize(line, i + 1, close) {
                        Some(tokens) => match parse_expression(&tokens, 0, ctx) {
                            Some((expression, next)) if next == tokens.len() => {
                                condition = Some(expression);
                            },
                            _ => self.report(ctx, "Could not read choice condition"),
                        },
                        None => self.report(ctx, "Could not read choice condition"),
                    }
                    i = skip_spaces(line, close + 1, end);
                },
                None => {},
            }
        }
        let ghost m1 = *self;
        assert(condition_part(line@, i1 as int, end as int, *ctx).2 == i as int);
        assert(opt_expr_view(condition) == condition_part(line@, i1 as int, end as int, *ctx).1);
        let mut inner: Vec<Object> = Vec::new();
        let arrow = find_arrow(line, i, end);
        let text_end = match arrow {
            Some(a) => trim_end(line, i, a),
            None => end,
        };
        if text_end > i {
            inner.push(
                Object::Text(
                    Text { text: string_from_chars(line, i, text_end), span: ctx.span_at(i + 1) },
                ),
            );
        }
        let ghost texts = inner@;
        match arrow {
            Some(a) => match tokenize(line, a, end) {
                Some(tokens) => match parse_divert(&tokens, 0, ctx) {
                    Some(divert) => {
                        inner.push(Object::Divert(divert));
                        assert(inner@.drop_last() == texts);
                    },
                    None => self.report(ctx, "Could not read divert"),
                },
                None => self.report(ctx, "Could not read divert"),
            },
            None => {},
        }
        let ghost m2 = *self;
        let c = Choice {
            identifier,
            condition,
            start_content: None,
            inner_content: ContentList { objects: inner },
            span: ctx.span_at(first + 1),
        };
        let ghost gc = c;
        assert(choice_inner(gc.inner_content.objects@, line@, i as int, end as int, *ctx));
        self.push_object(Object::Choice(c));
        assert(object_pushed(m2, *self, Object::Choice(gc)));
        assert(choice_via(*old(self), m1, m2, *self, line@, first as int, end as int, *ctx));
    }

    fn parse_gather_line(&mut self, line: &Vec<char>, first: usize, end: usize, ctx: &LineContext)
        requires
            first < end <= line.len(),
        ensures
            gather_line_step(*old(self), *final(self), line@, first as int, end as int, *ctx),
    {
        let mut i = first;
        while i < end && (line[i] == '-' || is_space(line[i]))
            invariant
                first <= i <= end,
                end <= line.len(),
                dash_end(line@, i as int, end as int) == dash_end(line@, first as int, end as int),
            decreases end - i,
        {
            i = i + 1;
        }
        if self.conditionals.len() > 0 && line[end - 1] == ':' && i < end {
            // `- else:` or `- condition:` opens another branch.
            let own_condition = match tokenize(line, i, end - 1) {
                Some(tokens) => {
                    if is_word(&tokens, 0, "else") && tokens.len() == 1 {
                        None
                    } else {
                        match parse_expression(&tokens, 0, ctx) {
                            Some((expression, next)) if next == tokens.len() => Some(expression),
                            _ => None,
                        }
                    }
                },
                None => None,
            };
            assert(opt_expr_view(own_condition) == branch_condition(line@, i as int, end - 1, *ctx));
            let ghost a = *self;
            let mut conditional = self.conditionals.pop().unwrap();
            let keep_first = conditional.branches.len() == 1 && conditional.branches[0].content.content.len() == 0 && conditional.initial_condition.is_none();
            if keep_first {
                let _ = conditional.branches.pop();
            }
            let ghost kept = conditional.branches@;
            conditional.branches.push(
                ConditionalBranch { own_condition, content: Weave { content: Vec::new() } },
            );
            assert(conditional.branches@.drop_last() =~= kept);
            proof {
                if keep_first {
                    assert(kept =~= Seq::<ConditionalBranch>::empty());
                }
            }
            self.conditionals.push(conditional);
            assert(self.conditionals@.drop_last() =~= a.conditionals@.drop_last());
            return ;
        }
        let mut identifier: Option<String> = None;
        if i < end && line[i] == '(' {
            let close = find_char(line, i + 1, end, ')');
            match close {
                Some(close) => {
                    identifier = Some(string_from_chars(line, i + 1, close));
                    i = skip_spaces(line, close + 1, end);
                },
                None => {},
            }
        }
        let g = Gather { identifier, span: ctx.span_at(first + 1) };
        let ghost gg = g;
        self.push_object(Object::Gather(g));
        assert(gather_pushed(*old(self), *self, match gg.identifier { Some(x) => Some(x@), None => None }, at_column(*ctx, (first + 1) as usize)));
        let ghost mid = *self;
        if i < end {
            self.parse_text_line(line, i, end, ctx);
        }
        assert(gather_via(*old(self), mid, *self, line@, first as int, end as int, *ctx));
    }

    fn parse_brace_line(&mut self, line: &Vec<char>, first: usize, end: usize, ctx: &LineContext)
        requires
            first < end <= line.len(),
        ensures
            brace_line_step(*old(self), *final(self), line@, first as int, end as int, *ctx),
    {
        let last = line[end - 1];
        if last == ':' || end == first + 1 {
            let condition_end = if last == ':' {
                end - 1
            } else {
                end
            };
            let initial_condition = if condition_end > first + 1 {
                match tokenize(line, first + 1, condition_end) {
                    Some(tokens) => match parse_expression(&tokens, 0, ctx) {
                        Some((expression, next)) if next == tokens.len() => Some(expression),
                        _ => {
                            self.report(ctx, "Could not read condition");
                            None
                        },
                    },
                    None => {
                        self.report(ctx, "Could not read condition");
                        None
                    },
                }
            } else {
                None
            };
            let ghost mid = *self;
            let mut branches: Vec<ConditionalBranch> = Vec::new();
            branches.push(ConditionalBranch { own_condition: None, content: Weave { content: Vec::new() } });
            self.conditionals.push(
                Conditional { initial_condition, branches, span: ctx.span_at(first + 1) },
            );
            assert(self.conditionals@.drop_last() =~= mid.conditionals@);
            assert(brace_open_via(*old(self), mid, *self, line@, first as int, end as int, *ctx));
            return ;
        }
        if last == '}' && end >= first + 2 {
            match tokenize(line, first + 1, end - 1) {
                Some(tokens) => match parse_expression(&tokens, 0, ctx) {
                    Some((expression, next)) if next == tokens.len() => {
                        let ghost x = expression;
                        self.push_object(Object::Expression(expression));
                        assert(object_pushed(*old(self), *self, Object::Expression(x)));
                    },
                    _ => self.report(ctx, "Could not read inline expression"),
                },
                None => self.report(ctx, "Could not read inline expression"),
            }
            return ;
        }
        self.parse_text_line(line, first, end, ctx);
    }

    /// `FROM source` or `FROM source IMPORT a, b`, added to the open module.
    fn parse_import(&mut self, tokens: &Vec<Token>, ctx: &LineContext)
        ensures
            import_step(*old(self), *final(self), tokens_view(tokens@), *ctx),
    {
        let source_module = match ident_at(tokens, 1) {
            Some(name) => name,
            None => {
                self.report(ctx, "FROM needs a module name");
                return ;
            },
        };
        let mut imported_names: Vec<ImportedName> = Vec::new();
        if is_word(tokens, 2, "IMPORT") {
            let mut next: usize = 3;
            assert(imported_names_view(imported_names@) =~= ident_items(tokens_view(tokens@), 3, 3, *ctx));
            while next < tokens.len()
                invariant
                    3 <= next <= tokens.len() || (next == 3 && tokens.len() < 3),
                    imported_names_view(imported_names@) == ident_items(tokens_view(tokens@), 3, next as int, *ctx),
                decreases tokens.len() - next,
            {
                let ghost before = imported_names@;
                match ident_at(tokens, next) {
                    Some(name) => {
                        imported_names.push(
                            ImportedName { name, span: ctx.span_at(column_at(tokens, next)) },
                        );
                        assert(imported_names_view(imported_names@) =~= imported_names_view(before) + seq![(name@, at_column(*ctx, column_of(tokens_view(tokens@), next as int) as usize))]);
                    },
                    None => {
                        assert(imported_names_view(imported_names@) =~= imported_names_view(before) + Seq::empty());
                    },
                }
                next = next + 1;
            }
            assert(imported_names_view(imported_names@) == ident_items(tokens_view(tokens@), 3, tokens.len() as int, *ctx)) by {
                if tokens.len() < 3 {
                    assert(ident_items(tokens_view(tokens@), 3, tokens.len() as int, *ctx) =~= Seq::empty());
                }
            }
        } else {
            assert(imported_names_view(imported_names@) =~= Seq::empty());
        }
        let import = Import {
            source_module,
            source_module_span: ctx.span_at(column_at(tokens, 1)),
            imported_names,
        };
        let ghost a = *old(self);
        let module = self.module.take();
        match module {
            Some(mut m) => {
                m.imports.push(import);
                assert(m.imports@.drop_last() =~= a.module->0.imports@);
                self.module = Some(m);
            },
            None => self.report(ctx, "FROM imports are only allowed inside modules"),
        }
    }

    /// `IMPORT a, b FROM source`, added to the open module.
    fn parse_reversed_import(&mut self, tokens: &Vec<Token>, ctx: &LineContext)
        ensures
            reversed_import_step(*old(self), *final(self), tokens_view(tokens@), *ctx),
    {
        let mut imported_names: Vec<ImportedName> = Vec::new();
        if tokens.len() == 0 {
            return ;
        }
        let mut next: usize = 1;
        assert(imported_names_view(imported_names@) =~= ident_items(tokens_view(tokens@), 1, 1, *ctx));
        while next < tokens.len() && !is_word(tokens, next, "FROM")
            invariant
                1 <= next <= tokens.len(),
                imported_names_view(imported_names@) == ident_items(tokens_view(tokens@), 1, next as int, *ctx),
                first_word(tokens_view(tokens@), 1, "FROM"@) == first_word(tokens_view(tokens@), next as int, "FROM"@),
            decreases tokens.len() - next,
        {
            let ghost before = imported_names@;
            match ident_at(tokens, next) {
                Some(name) => {
                    imported_names.push(ImportedName { name, span: ctx.span_at(column_at(tokens, next)) });
                    assert(imported_names_view(imported_names@) =~= imported_names_view(before) + seq![(name@, at_column(*ctx, column_of(tokens_view(tokens@), next as int) as usize))]);
                },
                None => {
                    assert(imported_names_view(imported_names@) =~= imported_names_view(before) + Seq::empty());
                },
            }
            next = next + 1;
        }
        if next >= tokens.len() {
            self.report(ctx, "IMPORT needs FROM and a module name");
            return ;
        }
        let source_module = match ident_at(tokens, next + 1) {
            Some(name) => name,
            None => {
                self.report(ctx, "IMPORT needs FROM and a module name");
                return ;
            },
        };
        let import = Import {
            source_module,
            source_module_span: ctx.span_at(column_at(tokens, next + 1)),
            imported_names,
        };
        let ghost a = *old(self);
        let module = self.module.take();
        match module {
            Some(mut m) => {
                m.imports.push(import);
                assert(m.imports@.drop_last() =~= a.module->0.imports@);
                self.module = Some(m);
            },
            None => self.report(ctx, "IMPORT is only allowed inside modules"),
        }
    }

    /// `CONST name: type = value` or `VAR name [: type] [= value]`, added to
    /// the innermost open container.
    fn parse_variable_declaration(&mut self, tokens: &Vec<Token>, ctx: &LineContext)
        ensures
            declaration_step(*old(self), *final(self), tokens_view(tokens@), *ctx),
    {
        let span = ctx.span_at(1);
        if tokens.len() == 0 {
            return ;
        }
        let is_constant = is_word(tokens, 0, "CONST");
        match parse_declaration_tail(tokens, 1, ctx) {
            Some((name, declared_type, expression)) => {
                if is_constant {
                    match (declared_type, expression) {
                        (Some(declared_type), Some(expression)) => {
                            let c = ConstantDeclaration { name, declared_type, expression, span };
                            let ghost gc = c;
                            self.push_object(Object::ConstantDeclaration(c));
                            assert(object_pushed(*old(self), *self, Object::ConstantDeclaration(gc)));
                        },
                        _ => self.report(ctx, "CONST needs a type and a value"),
                    }
                } else {
                    let target = AssignmentTarget::Variable(name.clone());
                    let a = VariableAssignment {
                        name,
                        target,
                        kind: AssignmentKind::Global,
                        declared_type,
                        expression,
                        span,
                    };
                    let ghost ga = a;
                    self.push_object(Object::VariableAssignment(a));
                    assert(object_pushed(*old(self), *self, Object::VariableAssignment(ga)));
                }
            },
            None => self.report(ctx, "Could not read declaration"),
        }
    }

    /// `STRUCT Name {`: opens the declaration whose fields follow.
    fn parse_struct_header(&mut self, tokens: &Vec<Token>, ctx: &LineContext)
        ensures
            struct_header_step(*old(self), *final(self), tokens_view(tokens@), *ctx),
    {
        match ident_at(tokens, 1) {
            Some(name) => {
                if is_sym(tokens, 2, Symbol::LBrace) {
                    self.struct_block = Some(
                        StructDeclaration { name, fields: Vec::new(), span: ctx.span_at(1) },
                    );
                } else {
                    self.report(ctx, "STRUCT needs '{'");
                }
            },
            None => self.report(ctx, "STRUCT needs a name"),
        }
    }

    /// A line inside a `STRUCT` declaration: `name: type`, or `}`, which
    /// closes it.
    fn parse_struct_field_line(&mut self, line: &Vec<char>, first: usize, end: usize, ctx: &LineContext)
        requires
            first < end <= line.len(),
        ensures
            struct_field_step(*old(self), *final(self), line@, first as int, end as int, *ctx),
    {
        if line[first] == '}' {
            let declaration = self.struct_block.take();
            match declaration {
                Some(declaration) => self.push_object(Object::StructDeclaration(declaration)),
                None => {},
            }
            return ;
        }
        let tokens = match tokenize(line, first, end) {
            Some(tokens) => tokens,
            None => {
                self.report(ctx, "Could not read struct field");
                return ;
            },
        };
        let name = match ident_at(&tokens, 0) {
            Some(name) => name,
            None => {
                self.report(ctx, "Struct field needs a name");
                return ;
            },
        };
        if !is_sym(&tokens, 1, Symbol::Colon) {
            self.report(ctx, "Struct field needs a type");
            return ;
        }
        match parse_type_name(&tokens, 2, ctx) {
            Some((field_type, _)) => {
                let block = self.struct_block.take();
                match block {
                    Some(mut declaration) => {
                        let ghost d0 = declaration;
                        declaration.fields.push(
                            StructField { name, field_type, span: ctx.span_at(first + 1) },
                        );
                        assert(declaration.fields@.drop_last() =~= d0.fields@);
                        self.struct_block = Some(declaration);
                    },
                    None => {},
                }
            },
            None => self.report(ctx, "Could not read struct field type"),
        }
    }

    /// `ENUM Name {` with members, closed by `}` on this line or on a later
    /// one.
    fn parse_enum_header(&mut self, tokens: &Vec<Token>, ctx: &LineContext)
        ensures
            enum_header_step(*old(self), *final(self), tokens_view(tokens@), *ctx),
    {
        let name = match ident_at(tokens, 1) {
            Some(name) => name,
            None => {
                self.report(ctx, "ENUM needs a name");
                return ;
            },
        };
        if !is_sym(tokens, 2, Symbol::LBrace) {
            self.report(ctx, "ENUM needs '{'");
            return ;
        }
        let mut declaration = EnumDeclaration { name, members: Vec::new(), span: ctx.span_at(1) };
        let mut next: usize = 3;
        let ghost a = *old(self);
        assert(members_view(declaration.members@) =~= ident_items(tokens_view(tokens@), 3, 3, *ctx));
        while next < tokens.len()
            invariant
                3 <= next,
                next <= tokens.len() || tokens.len() < 3,
                *self == a,
                a == *old(self),
                ident_of(tokens_view(tokens@), 1) is Some,
                sym_at(tokens_view(tokens@), 2, Symbol::LBrace),
                declaration.name@ == ident_of(tokens_view(tokens@), 1)->0,
                declaration.span == at_column(*ctx, 1),
                members_view(declaration.members@) == ident_items(tokens_view(tokens@), 3, next as int, *ctx),
                first_rbrace(tokens_view(tokens@), 3) == first_rbrace(tokens_view(tokens@), next as int),
            decreases tokens.len() - next,
        {
            if is_sym(tokens, next, Symbol::RBrace) {
                let ghost d = declaration;
                self.push_object(Object::EnumDeclaration(declaration));
                assert(object_pushed(a, *self, Object::EnumDeclaration(d)));
                assert(first_rbrace(tokens_view(tokens@), 3) == Some(next as int));
                assert(enum_pushed(a, *self, ident_of(tokens_view(tokens@), 1)->0, ident_items(tokens_view(tokens@), 3, next as int, *ctx), at_column(*ctx, 1)));
                return ;
            }
            let ghost before = declaration.members@;
            match ident_at(tokens, next) {
                Some(member) => {
                    declaration.members.push(
                        EnumMember { name: member, span: ctx.span_at(column_at(tokens, next)) },
                    );
                    assert(members_view(declaration.members@) =~= members_view(before) + seq![(member@, at_column(*ctx, column_of(tokens_view(tokens@), next as int) as usize))]);
                },
                None => {
                    assert(members_view(declaration.members@) =~= members_view(before) + Seq::empty());
                },
            }
            next = next + 1;
        }
        proof {
            if tokens.len() < 3 {
                assert(ident_items(tokens_view(tokens@), 3, tokens.len() as int, *ctx) =~= Seq::empty());
                assert(ident_items(tokens_view(tokens@), 3, 3, *ctx) =~= Seq::empty());
            }
        }
        self.enum_block = Some(declaration);
    }

    /// A line inside an `ENUM` declaration: members, up to a `}` that
    /// closes it.
    fn parse_enum_member_line(&mut self, line: &Vec<char>, first: usize, end: usize, ctx: &LineContext)
        requires
            first < end <= line.len(),
        ensures
            enum_member_step(*old(self), *final(self), line@, first as int, end as int, *ctx),
    {
        let tokens = match tokenize(line, first, end) {
            Some(tokens) => tokens,
            None => {
                self.report(ctx, "Could not read enum members");
                return ;
            },
        };
        let mut next: usize = 0;
        let ghost a = *old(self);
        let ghost v = tokens_view(tokens@);
        assert(ident_items(v, 0, 0, *ctx) =~= Seq::empty());
        assert(members_view(a.enum_block->0.members@) + ident_items(v, 0, 0, *ctx) =~= members_view(a.enum_block->0.members@));
        while next < tokens.len()
            invariant
                a == *old(self),
                v == tokens_view(tokens@),
                lex(line@, first as int, end as int) == Some(v),
                next <= tokens.len(),
                first_rbrace(v, 0) == first_rbrace(v, next as int),
                *self == (StoryBuilder { enum_block: self.enum_block, ..a }),
                a.enum_block is None <==> self.enum_block is None,
                a.enum_block is Some ==> self.enum_block->0.name == a.enum_block->0.name && self.enum_block->0.span
                    == a.enum_block->0.span && members_view(self.enum_block->0.members@) == members_view(
                    a.enum_block->0.members@,
                ) + ident_items(v, 0, next as int, *ctx),
            decreases tokens.len() - next,
        {
            if is_sym(&tokens, next, Symbol::RBrace) {
                let declaration = self.enum_block.take();
                match declaration {
                    Some(declaration) => {
                        let ghost d = declaration;
                        let ghost b = *self;
                        self.push_object(Object::EnumDeclaration(declaration));
                        assert(b == StoryBuilder { enum_block: None, ..a });
                        assert(object_pushed(b, *self, Object::EnumDeclaration(d)));
                    },
                    None => {},
                }
                return ;
            }
            match ident_at(&tokens, next) {
                Some(member) => {
                    let block = self.enum_block.take();
                    match block {
                        Some(mut declaration) => {
                            let ghost before = declaration.members@;
                            declaration.members.push(
                                EnumMember { name: member, span: ctx.span_at(column_at(&tokens, next)) },
                            );
                            assert(members_view(declaration.members@) =~= members_view(before) + seq![(member@, at_column(*ctx, column_of(tokens_view(tokens@), next as int) as usize))]);
                            assert(members_view(a.enum_block->0.members@) + ident_items(v, 0, next + 1, *ctx) =~= members_view(a.enum_block->0.members@) + ident_items(v, 0, next as int, *ctx) + seq![(member@, at_column(*ctx, column_of(v, next as int) as usize))]);
                            self.enum_block = Some(declaration);
                        },
                        None => {},
                    }
                },
                None => {
                    assert(ident_items(v, 0, next + 1, *ctx) =~= ident_items(v, 0, next as int, *ctx));
                },
            }
            next = next + 1;
        }
    }

    /// `EXTERNAL name(arguments) [=> type]`, added to the innermost open
    /// container.
    fn parse_external(&mut self, tokens: &Vec<Token>, ctx: &LineContext)
        ensures
            external_step(*old(self), *final(self), tokens_view(tokens@), *ctx),
    {
        let name = match ident_at(tokens, 1) {
            Some(name) => name,
            None => {
                self.report(ctx, "EXTERNAL needs a name");
                return ;
            },
        };
        let (arguments, mut next) = match parse_arguments(tokens, 2, ctx) {
            Some(v) => v,
            None => {
                self.report(ctx, "Could not read EXTERNAL arguments");
                return ;
            },
        };
        let mut argument_names: Vec<String> = Vec::new();
        let mut argument_types: Vec<TypeName> = Vec::new();
        let mut arguments = arguments;
        let ghost av = arguments_view(arguments@);
        assert(strings_view(argument_names@) =~= names_of_arguments(av.subrange(0, 0)));
        assert(type_views(argument_types@) =~= types_of_arguments(av.subrange(0, 0)));
        assert(arguments_view(arguments@) =~= av.subrange(0, av.len() as int));
        while arguments.len() > 0
            invariant
                arguments.len() <= av.len(),
                arguments_view(arguments@) == av.subrange(av.len() - arguments.len(), av.len() as int),
                strings_view(argument_names@) == names_of_arguments(av.subrange(0, av.len() - arguments.len())),
                type_views(argument_types@) == types_of_arguments(av.subrange(0, av.len() - arguments.len())),
            decreases arguments.len(),
        {
            let ghost k = av.len() - arguments.len();
            let ghost names0 = argument_names@;
            let ghost types0 = argument_types@;
            let ghost rest = arguments@;
            let argument = arguments.remove(0);
            assert(arguments_view(rest)[0] == av[k]);
            assert(arguments_view(arguments@) =~= arguments_view(rest).subrange(1, rest.len() as int));
            argument_names.push(argument.name);
            match argument.declared_type {
                Some(t) => argument_types.push(t),
                None => argument_types.push(TypeName::Void),
            }
            assert(av.subrange(0, k + 1) =~= av.subrange(0, k).push(av[k]));
            assert(strings_view(argument_names@) =~= strings_view(names0).push(av[k].0));
            assert(type_views(argument_types@) =~= type_views(types0).push(types_of_arguments(av.subrange(0, k + 1)).last()));
            assert(strings_view(argument_names@) =~= names_of_arguments(av.subrange(0, k + 1)));
            assert(type_views(argument_types@) =~= types_of_arguments(av.subrange(0, k + 1)));
        }
        assert(av.subrange(0, av.len() as int) =~= av);
        let mut return_type = TypeName::Void;
        if is_sym(tokens, next, Symbol::FatArrow) {
            match parse_type_name(tokens, next + 1, ctx) {
                Some((t, after)) => {
                    return_type = t;
                    next = after;
                },
                None => {
                    self.report(ctx, "Could not read EXTERNAL return type");
                    return ;
                },
            }
        }
        let x = ExternalDeclaration { name, argument_names, argument_types, return_type, span: ctx.span_at(1) };
        let ghost gx = x;
        self.push_object(Object::ExternalDeclaration(x));
        assert(object_pushed(*old(self), *self, Object::ExternalDeclaration(gx)));
    }
}

/// The position just after the blanks from `i`.
fn skip_spaces(line: &Vec<char>, i: usize, end: usize) -> (r: usize)
    requires
        end <= line.len(),
    ensures
        r >= i,
        i <= end ==> r <= end,
        i >= end ==> r == i,
        r as int == space_end(line@, i as int, end as int),
        forall|k: int| i <= k < r ==> is_space_spec(#[trigger] line@[k]),
        r < end ==> !is_space_spec(line@[r as int]),
{
    let mut j = i;
    while j < end && is_space(line[j])
        invariant
            i <= j,
            i <= end ==> j <= end,
            i >= end ==> j == i,
            end <= line.len(),
            forall|k: int| i <= k < j ==> is_space_spec(#[trigger] line@[k]),
            space_end(line@, j as int, end as int) == space_end(line@, i as int, end as int),
        decreases end - j,
    {
        j = j + 1;
    }
    j
}

/// The end of `s[start..end]` without trailing blanks.
pub open spec fn trimmed(s: Seq<char>, start: int, end: int) -> int
    decreases end - start,
{
    if end > start && is_space_spec(s[end - 1]) {
        trimmed(s, start, end - 1)
    } else {
        end
    }
}

/// The first `->` outside a string literal in `s[start..end]`, searched
/// from `k` on.
pub open spec fn first_arrow(s: Seq<char>, start: int, end: int, k: int) -> Option<int>
    decreases end - k,
{
    if k >= end {
        None
    } else if arrow_at(s, start, end, k) {
        Some(k)
    } else {
        first_arrow(s, start, end, k + 1)
    }
}

/// The end of `line[start..end]` without trailing blanks.
fn trim_end(line: &Vec<char>, start: usize, end: usize) -> (r: usize)
    requires
        start <= end <= line.len(),
    ensures
        r as int == trimmed(line@, start as int, end as int),
        start <= r <= end,
        forall|k: int| r <= k < end ==> is_space_spec(#[trigger] line@[k]),
        r > start ==> !is_space_spec(line@[r - 1]),
{
    let mut stop = end;
    while stop > start && is_space(line[stop - 1])
        invariant
            start <= stop <= end,
            end <= line.len(),
            forall|k: int| stop <= k < end ==> is_space_spec(#[trigger] line@[k]),
            trimmed(line@, start as int, stop as int) == trimmed(line@, start as int, end as int),
        decreases stop,
    {
        stop = stop - 1;
    }
    stop
}

/// The first position of `c` in `line[start..end]`.
fn find_char(line: &Vec<char>, start: usize, end: usize, c: char) -> (r: Option<usize>)
    requires
        end <= line.len(),
    ensures
        opt_usize(r) == first_char(line@, start as int, end as int, c),
        match r {
            Some(i) => start <= i < end && line@[i as int] == c && forall|k: int| start <= k < i ==> line@[k] != c,
            None => forall|k: int| start <= k < end ==> line@[k] != c,
        },
{
    let mut i = start;
    while i < end
        invariant
            start <= i,
            end <= line.len(),
            forall|k: int| start <= k < i ==> line@[k] != c,
            first_char(line@, start as int, end as int, c) == first_char(line@, i as int, end as int, c),
        decreases end - i,
    {
        if line[i] == c {
            return Some(i);
        }
        i = i + 1;
    }
    None
}

pub open spec fn opt_usize(o: Option<usize>) -> Option<int> {
    match o {
        Some(i) => Some(i as int),
        None => None,
    }
}

/// Whether position `i` of `s` stands inside a string literal that opened
/// at or after `start`: an odd number of `"` stand in `s[start..i]`.
pub open spec fn inside_string(s: Seq<char>, start: int, i: int) -> bool
    decreases i - start,
{
    if i <= start {
        false
    } else if s[i - 1] == '"' {
        !inside_string(s, start, i - 1)
    } else {
        inside_string(s, start, i - 1)
    }
}

/// Whether an `->` outside a string literal starts at `i` in `s[start..end]`.
pub open spec fn arrow_at(s: Seq<char>, start: int, end: int, i: int) -> bool {
    !inside_string(s, start, i) && s[i] == '-' && i + 1 < end && s[i + 1] == '>'
}

/// The first `->` in `line[start..end]` outside a string literal.
fn find_arrow(line: &Vec<char>, start: usize, end: usize) -> (r: Option<usize>)
    requires
        end <= line.len(),
    ensures
        r matches Some(i) ==> start <= i && i + 1 < end,
        opt_usize(r) == first_arrow(line@, start as int, end as int, start as int),
        match r {
            Some(i) => arrow_at(line@, start as int, end as int, i as int) && forall|k: int|
                start <= k < i ==> !arrow_at(line@, start as int, end as int, k),
            None => forall|k: int| start <= k < end ==> !arrow_at(line@, start as int, end as int, k),
        },
{
    let mut i = start;
    let mut in_string = false;
    while i < end
        invariant
            start <= i,
            end <= line.len(),
            in_string == inside_string(line@, start as int, i as int),
            first_arrow(line@, start as int, end as int, start as int) == first_arrow(line@, start as int, end as int, i as int),
            forall|k: int| start <= k < i ==> !arrow_at(line@, start as int, end as int, k),
        decreases end - i,
    {
        if line[i] == '"' {
            in_string = !in_string;
        } else if !in_string && line[i] == '-' && i + 1 < end && line[i + 1] == '>' {
            return Some(i);
        }
        i = i + 1;
    }
    None
}

pub open spec fn opt_type_view(t: Option<TypeName>) -> Option<TypeView> {
    match t {
        Some(t) => Some(t.type_view()),
        None => None,
    }
}

pub open spec fn opt_expr_view(e: Option<Expression>) -> Option<ExprView> {
    match e {
        Some(e) => Some(expr_view(e)),
        None => None,
    }
}

/// `name [: type] [= value]` written from token `pos` of `v` to its end:
/// the name, the type and the value.
pub open spec fn declaration_tail(v: Seq<(TokenView, int)>, pos: int, ctx: LineContext) -> Option<
    (Seq<char>, Option<TypeView>, Option<ExprView>),
> {
    match ident_of(v, pos) {
        None => None,
        Some(name) => {
            let typed = sym_at(v, pos + 1, Symbol::Colon);
            if typed && type_at(v, pos + 2) is None {
                None
            } else {
                let (t, after) = match type_at(v, pos + 2) {
                    Some(found) => found,
                    None => (TypeView::Void, pos + 1),
                };
                let next = if typed { after } else { pos + 1 };
                let declared = if typed { Some(t) } else { None };
                if next == v.len() {
                    Some((name, declared, None))
                } else if !sym_at(v, next, Symbol::Assign) {
                    None
                } else {
                    match p_expr(v, next + 1, ctx) {
                        Some((e, after)) => if after == v.len() {
                            Some((name, declared, Some(e)))
                        } else {
                            None
                        },
                        None => None,
                    }
                }
            }
        },
    }
}

/// `name [: type] [= value]` from token `pos`.
fn parse_declaration_tail(tokens: &Vec<Token>, pos: usize, ctx: &LineContext) -> (r: Option<
    (String, Option<TypeName>, Option<Expression>),
>)
    requires
        pos <= tokens.len(),
    ensures
        match r {
            Some((n, t, e)) => declaration_tail(tokens_view(tokens@), pos as int, *ctx) == Some(
                (n@, opt_type_view(t), opt_expr_view(e)),
            ),
            None => declaration_tail(tokens_view(tokens@), pos as int, *ctx) is None,
        },
{
    let name = match ident_at(tokens, pos) {
        Some(name) => name,
        None => {
            return None;
        },
    };
    let mut next = pos + 1;
    let mut declared_type: Option<TypeName> = None;
    if is_sym(tokens, next, Symbol::Colon) {
        match parse_type_name(tokens, next + 1, ctx) {
            Some((t, after)) => {
                declared_type = Some(t);
                next = after;
            },
            None => {
                return None;
            },
        }
    }
    if next == tokens.len() {
        return Some((name, declared_type, None));
    }
    if !is_sym(tokens, next, Symbol::Assign) {
        return None;
    }
    match parse_expression(tokens, next + 1, ctx) {
        Some((expression, after)) if after == tokens.len() => Some(
            (name, declared_type, Some(expression)),
        ),
        _ => None,
    }
}

/// How an index expression is shown in the text of an assignment target:
/// `Number(n)` for an integer literal, the name for a variable.
fn index_text(index: &Expression) -> (r: String)
    ensures
        r@ == match *index {
            Expression::NumberInt(n) => "Number("@ + crate::text::signed_decimal(n as int) + ")"@,
            Expression::VariableReference(name) => name@,
            _ => Seq::empty(),
        },
{
    match index {
        Expression::NumberInt(n) => {
            let mut s = String::from_str("Number(");
            let digits = crate::text::signed_decimal_text(*n);
            s.append(digits.as_str());
            s.append(")");
            s
        },
        Expression::VariableReference(name) => name.clone(),
        _ => String::new(),
    }
}

/// The place an assignment writes, as plain values.
pub enum AssignView {
    Variable(Seq<char>),
    QualifiedVariable(Seq<char>, Seq<char>, SourceSpan),
    FieldAccess(Box<AssignView>, Seq<char>),
    IndexAccess(Box<AssignView>, ExprView),
}

pub open spec fn assign_view(t: AssignmentTarget) -> AssignView
    decreases t,
{
    match t {
        AssignmentTarget::Variable(n) => AssignView::Variable(n@),
        AssignmentTarget::QualifiedVariable(q) => AssignView::QualifiedVariable(q.module@, q.symbol@, q.module_span),
        AssignmentTarget::FieldAccess { base, field } => AssignView::FieldAccess(Box::new(assign_view(*base)), field@),
        AssignmentTarget::IndexAccess { base, index } => AssignView::IndexAccess(Box::new(assign_view(*base)), expr_view(index)),
    }
}

/// How an index is shown in the text of an assignment target.
pub open spec fn index_shown(i: ExprView) -> Seq<char> {
    match i {
        ExprView::NumberInt(n) => "Number("@ + crate::text::signed_decimal(n as int) + ")"@,
        ExprView::VariableReference(name) => name,
        _ => Seq::empty(),
    }
}

/// `t`, shown as `text`, followed by the `.field` and `[index]` parts from
/// token `next`.
pub open spec fn assign_tail(v: Seq<(TokenView, int)>, t: AssignView, text: Seq<char>, next: int, ctx: LineContext) -> Option<
    (AssignView, Seq<char>, int),
>
    decreases v.len() - next,
{
    if 0 <= next < v.len() && sym_at(v, next, Symbol::Dot) {
        match ident_of(v, next + 1) {
            Some(f) => assign_tail(v, AssignView::FieldAccess(Box::new(t), f), text + "."@ + f, next + 2, ctx),
            None => None,
        }
    } else if 0 <= next < v.len() && sym_at(v, next, Symbol::LBracket) {
        match p_expr(v, next + 1, ctx) {
            Some((i, after)) => if !sym_at(v, after, Symbol::RBracket) {
                None
            } else if next + 1 < after <= v.len() {
                assign_tail(v, AssignView::IndexAccess(Box::new(t), i), text + "["@ + index_shown(i) + "]"@, after + 1, ctx)
            } else {
                None
            },
            None => None,
        }
    } else {
        Some((t, text, next))
    }
}

/// The assignment target written from token `pos` of `v`, its text and the
/// position after it.
pub open spec fn assignment_target_at(v: Seq<(TokenView, int)>, pos: int, ctx: LineContext) -> Option<
    (AssignView, Seq<char>, int),
> {
    match ident_of(v, pos) {
        None => None,
        Some(name) => if sym_at(v, pos + 1, Symbol::DoubleColon) {
            match ident_of(v, pos + 2) {
                Some(sy) => assign_tail(
                    v,
                    AssignView::QualifiedVariable(name, sy, at_column(ctx, column_of(v, pos) as usize)),
                    name + "::"@ + sy,
                    pos + 3,
                    ctx,
                ),
                None => None,
            }
        } else {
            assign_tail(v, AssignView::Variable(name), name, pos + 1, ctx)
        },
    }
}

/// An assignment target from token `pos`: `name`, `module::name`, followed
/// by `.field` and `[index]` parts. Also returns the text of the target
/// and the position after it.
fn parse_assignment_target(tokens: &Vec<Token>, pos: usize, ctx: &LineContext) -> (r: Option<
    (AssignmentTarget, String, usize),
>)
    requires
        pos <= tokens.len(),
    ensures
        r matches Some((_, _, next)) ==> pos < next <= tokens.len(),
        match r {
            Some((t, text, n)) => assignment_target_at(tokens_view(tokens@), pos as int, *ctx) == Some(
                (assign_view(t), text@, n as int),
            ),
            None => assignment_target_at(tokens_view(tokens@), pos as int, *ctx) is None,
        },
{
    let ghost v = tokens_view(tokens@);
    let name = match ident_at(tokens, pos) {
        Some(name) => name,
        None => {
            return None;
        },
    };
    let (mut target, mut text, mut next) = if is_sym(tokens, pos + 1, Symbol::DoubleColon) {
        match ident_at(tokens, pos + 2) {
            Some(symbol) => {
                let text = crate::text::concat3(name.as_str(), "::", symbol.as_str());
                (
                    AssignmentTarget::QualifiedVariable(
                        QualifiedName {
                            module: name,
                            symbol,
                            module_span: ctx.span_at(column_at(tokens, pos)),
                        },
                    ),
                    text,
                    pos + 3,
                )
            },
            None => {
                return None;
            },
        }
    } else {
        let text = name.clone();
        (AssignmentTarget::Variable(name), text, pos + 1)
    };
    let ghost start = (assign_view(target), text@, next as int);
    assert(assignment_target_at(v, pos as int, *ctx) == assign_tail(v, start.0, start.1, start.2, *ctx));
    while next < tokens.len()
        invariant
            pos < next <= tokens.len(),
            v == tokens_view(tokens@),
            assignment_target_at(v, pos as int, *ctx) == assign_tail(v, assign_view(target), text@, next as int, *ctx),
        ensures
            pos < next <= tokens.len(),
            assignment_target_at(v, pos as int, *ctx) == assign_tail(v, assign_view(target), text@, next as int, *ctx),
            assign_tail(v, assign_view(target), text@, next as int, *ctx) == Some((assign_view(target), text@, next as int)),
        decreases tokens.len() - next,
    {
        if is_sym(tokens, next, Symbol::Dot) {
            match ident_at(tokens, next + 1) {
                Some(field) => {
                    text.append(".");
                    text.append(field.as_str());
                    target = AssignmentTarget::FieldAccess { base: Box::new(target), field };
                    next = next + 2;
                },
                None => {
                    return None;
                },
            }
        } else if is_sym(tokens, next, Symbol::LBracket) {
            match parse_expression(tokens, next + 1, ctx) {
                Some((index, after)) => {
                    if !is_sym(tokens, after, Symbol::RBracket) {
                        return None;
                    }
                    text.append("[");
                    let shown = index_text(&index);
                    assert(shown@ == index_shown(expr_view(index)));
                    text.append(shown.as_str());
                    text.append("]");
                    target = AssignmentTarget::IndexAccess { base: Box::new(target), index };
                    next = after + 1;
                },
                None => {
                    return None;
                },
            }
        } else {
            break;
        }
    }
    Some((target, text, next))
}

/// A flow argument as plain values: its name, its declared type and its
/// place.
pub open spec fn arguments_view(s: Seq<FlowArgument>) -> Seq<(Seq<char>, Option<TypeView>, SourceSpan)> {
    s.map_values(|a: FlowArgument| (a.name@, opt_type_view(a.declared_type), a.span))
}

/// The arguments written from token `pos` of `v` (none where no `(` stands
/// there), with the position after them.
pub open spec fn arguments_at(v: Seq<(TokenView, int)>, pos: int, ctx: LineContext) -> Option<
    (Seq<(Seq<char>, Option<TypeView>, SourceSpan)>, int),
> {
    if !sym_at(v, pos, Symbol::LParen) {
        Some((Seq::empty(), pos))
    } else if sym_at(v, pos + 1, Symbol::RParen) {
        Some((Seq::empty(), pos + 2))
    } else {
        argument_items(v, pos + 1, Seq::empty(), ctx)
    }
}

/// The arguments `acc` followed by `[ref] name [: type]` items from `next`
/// up to `)`.
pub open spec fn argument_items(
    v: Seq<(TokenView, int)>,
    next: int,
    acc: Seq<(Seq<char>, Option<TypeView>, SourceSpan)>,
    ctx: LineContext,
) -> Option<(Seq<(Seq<char>, Option<TypeView>, SourceSpan)>, int)>
    decreases v.len() - next,
{
    if !(0 <= next <= v.len()) {
        None
    } else {
        let start = if ident_of(v, next) == Some("ref"@) { next + 1 } else { next };
        let column = column_of(v, start);
        match ident_of(v, start) {
            None => None,
            Some(name) => {
                let typed = sym_at(v, start + 1, Symbol::Colon);
                let (t, after) = match type_at(v, start + 2) {
                    Some(found) => found,
                    None => (TypeView::Void, start + 1),
                };
                if typed && type_at(v, start + 2) is None {
                    None
                } else {
                    let n = if typed { after } else { start + 1 };
                    let item = (name, if typed { Some(t) } else { None }, at_column(ctx, column as usize));
                    if sym_at(v, n, Symbol::Comma) {
                        if next < n + 1 <= v.len() {
                            argument_items(v, n + 1, acc.push(item), ctx)
                        } else {
                            None
                        }
                    } else if sym_at(v, n, Symbol::RParen) {
                        Some((acc.push(item), n + 1))
                    } else {
                        None
                    }
                }
            },
        }
    }
}

/// `(name [: type], ...)` from token `pos`, or nothing when there is no
/// `(`; with the position after it.
fn parse_arguments(tokens: &Vec<Token>, pos: usize, ctx: &LineContext) -> (r: Option<
    (Vec<FlowArgument>, usize),
>)
    requires
        pos <= tokens.len(),
    ensures
        r matches Some((_, next)) ==> pos <= next <= tokens.len(),
        match r {
            Some((args, n)) => arguments_at(tokens_view(tokens@), pos as int, *ctx) == Some((arguments_view(args@), n as int)),
            None => arguments_at(tokens_view(tokens@), pos as int, *ctx) is None,
        },
{
    let ghost v = tokens_view(tokens@);
    let mut arguments: Vec<FlowArgument> = Vec::new();
    assert(arguments_view(arguments@) =~= Seq::empty());
    if !is_sym(tokens, pos, Symbol::LParen) {
        return Some((arguments, pos));
    }
    let mut next = pos + 1;
    if is_sym(tokens, next, Symbol::RParen) {
        return Some((arguments, next + 1));
    }
    loop
        invariant
            pos < next <= tokens.len(),
            v == tokens_view(tokens@),
            arguments_at(v, pos as int, *ctx) == argument_items(v, next as int, arguments_view(arguments@), *ctx),
        decreases tokens.len() - next,
    {
        let ghost item_start = next;
        if is_word(tokens, next, "ref") {
            next = next + 1;
        }
        let column = column_at(tokens, next);
        let name = match ident_at(tokens, next) {
            Some(name) => name,
            None => {
                return None;
            },
        };
        next = next + 1;
        let mut declared_type: Option<TypeName> = None;
        if is_sym(tokens, next, Symbol::Colon) {
            match parse_type_name(tokens, next + 1, ctx) {
                Some((t, after)) => {
                    declared_type = Some(t);
                    next = after;
                },
                None => {
                    return None;
                },
            }
        }
        let ghost before = arguments@;
        arguments.push(FlowArgument { name, declared_type, span: ctx.span_at(column) });
        assert(arguments_view(arguments@) =~= arguments_view(before).push(arguments_view(arguments@).last()));
        if is_sym(tokens, next, Symbol::Comma) {
            next = next + 1;
        } else if is_sym(tokens, next, Symbol::RParen) {
            return Some((arguments, next + 1));
        } else {
            return None;
        }
    }
}

/// Whether every argument has a declared type.
pub open spec fn all_typed(args: Seq<(Seq<char>, Option<TypeView>, SourceSpan)>) -> bool {
    forall|k: int| 0 <= k < args.len() ==> (#[trigger] args[k]).1 is Some
}

/// The knot header `[function|INTERNAL] name [(arguments)] [=> type]`
/// written by all of `v`: its name, whether it is a function, whether it is
/// internal, its arguments, its return type and whether its signature is
/// typed (a return type, or at least one argument and all typed).
pub open spec fn flow_header(v: Seq<(TokenView, int)>, ctx: LineContext) -> Option<
    (Seq<char>, bool, bool, Seq<(Seq<char>, Option<TypeView>, SourceSpan)>, TypeView, bool),
> {
    let (start, is_function, is_internal) = if ident_of(v, 0) == Some("function"@) {
        (1int, true, false)
    } else if ident_of(v, 0) == Some("INTERNAL"@) {
        (1int, true, true)
    } else {
        (0int, false, false)
    };
    match ident_of(v, start) {
        None => None,
        Some(name) => match arguments_at(v, start + 1, ctx) {
            None => None,
            Some((args, after)) => {
                let arrow = sym_at(v, after, Symbol::FatArrow);
                if arrow && type_at(v, after + 1) is None {
                    None
                } else {
                    let (return_type, end) = if arrow {
                        type_at(v, after + 1)->0
                    } else {
                        (TypeView::Void, after)
                    };
                    if end != v.len() {
                        None
                    } else {
                        Some((name, is_function, is_internal, args, return_type, arrow || (args.len() > 0 && all_typed(args))))
                    }
                }
            },
        },
    }
}

/// `[function|INTERNAL] name [(arguments)] [=> type]`.
fn parse_flow_header(tokens: &Vec<Token>, ctx: &LineContext, column: usize) -> (r: Option<Flow>)
    ensures
        match r {
            Some(fl) => {
                &&& flow_header(tokens_view(tokens@), *ctx) == Some(
                    (
                        fl.name@,
                        fl.is_function,
                        fl.is_internal,
                        arguments_view(fl.arguments@),
                        fl.return_type.type_view(),
                        fl.has_typed_signature,
                    ),
                )
                &&& fl.level == FlowLevel::Knot && fl.span == at_column(*ctx, column)
                &&& fl.weave.content@.len() == 0 && fl.child_flows@.len() == 0
            },
            None => flow_header(tokens_view(tokens@), *ctx) is None,
        },
{
    let ghost v = tokens_view(tokens@);
    let mut next: usize = 0;
    let mut is_function = false;
    let mut is_internal = false;
    if is_word(tokens, 0, "function") {
        is_function = true;
        next = 1;
    } else if is_word(tokens, 0, "INTERNAL") {
        is_function = true;
        is_internal = true;
        next = 1;
    }
    let name = match ident_at(tokens, next) {
        Some(name) => name,
        None => {
            return None;
        },
    };
    let (arguments, after) = match parse_arguments(tokens, next + 1, ctx) {
        Some(v) => v,
        None => {
            return None;
        },
    };
    next = after;
    let mut return_type = TypeName::Void;
    let mut has_return_type = false;
    if is_sym(tokens, next, Symbol::FatArrow) {
        match parse_type_name(tokens, next + 1, ctx) {
            Some((t, after)) => {
                return_type = t;
                has_return_type = true;
                next = after;
            },
            None => {
                return None;
            },
        }
    }
    if next != tokens.len() {
        return None;
    }
    let mut all_typed = arguments.len() > 0;
    let mut i: usize = 0;
    let ghost av = arguments_view(arguments@);
    while i < arguments.len()
        invariant
            i <= arguments.len(),
            av == arguments_view(arguments@),
            all_typed == (arguments.len() > 0 && forall|k: int| 0 <= k < i ==> (#[trigger] av[k]).1 is Some),
        decreases arguments.len() - i,
    {
        assert(av[i as int].1 == opt_type_view(arguments@[i as int].declared_type));
        if arguments[i].declared_type.is_none() {
            all_typed = false;
        }
        i = i + 1;
    }
    Some(
        Flow {
            name,
            span: ctx.span_at(column),
            level: FlowLevel::Knot,
            is_function,
            is_internal,
            arguments,
            return_type,
            has_typed_signature: has_return_type || all_typed,
            weave: Weave { content: Vec::new() },
            child_flows: Vec::new(),
        },
    )
}

/// Where a divert goes, as plain values.
pub enum TargetView {
    Done,
    End,
    Path(Seq<char>),
    QualifiedPath(Seq<char>, Seq<char>, SourceSpan),
    Dynamic(ExprView),
}

pub open spec fn target_view(t: DivertTarget) -> TargetView {
    match t {
        DivertTarget::Done => TargetView::Done,
        DivertTarget::End => TargetView::End,
        DivertTarget::Path(p) => TargetView::Path(p@),
        DivertTarget::QualifiedPath(q) => TargetView::QualifiedPath(q.module@, q.symbol@, q.module_span),
        DivertTarget::Dynamic(e) => TargetView::Dynamic(expr_view(e)),
    }
}

/// The target written at token `tp` of `v`, with the position after it:
/// `{expression}`, `DONE`, `END`, `module::name`, or a path.
pub open spec fn target_at(v: Seq<(TokenView, int)>, tp: int, ctx: LineContext) -> Option<(TargetView, int)> {
    if sym_at(v, tp, Symbol::LBrace) {
        match p_expr(v, tp + 1, ctx) {
            Some((e, after)) => if sym_at(v, after, Symbol::RBrace) {
                Some((TargetView::Dynamic(e), after + 1))
            } else {
                None
            },
            None => None,
        }
    } else if ident_of(v, tp) == Some("DONE"@) {
        Some((TargetView::Done, tp + 1))
    } else if ident_of(v, tp) == Some("END"@) {
        Some((TargetView::End, tp + 1))
    } else if 0 <= tp < v.len() && sym_at(v, tp + 1, Symbol::DoubleColon) && tp + 2 < v.len() && !sym_at(
        v,
        tp + 3,
        Symbol::Dot,
    ) {
        match (ident_of(v, tp), ident_of(v, tp + 2)) {
            (Some(m), Some(sy)) => Some((TargetView::QualifiedPath(m, sy, at_column(ctx, column_of(v, tp) as usize)), tp + 3)),
            _ => None,
        }
    } else {
        match ident_of(v, tp) {
            Some(first) => {
                let (path, n) = path_rest(v, tp + 1, first);
                Some((TargetView::Path(path), n))
            },
            None => None,
        }
    }
}

/// The target written at token `tp` of `v` and the arguments in
/// parentheses after it, if any, with the position after them.
pub open spec fn divert_target_at(v: Seq<(TokenView, int)>, tp: int, ctx: LineContext) -> Option<
    (TargetView, Seq<ExprView>, int),
> {
    match target_at(v, tp, ctx) {
        None => None,
        Some((t, next)) => if !sym_at(v, next, Symbol::LParen) {
            Some((t, Seq::empty(), next))
        } else if sym_at(v, next + 1, Symbol::RParen) {
            Some((t, Seq::empty(), next + 2))
        } else {
            match list_items(v, next + 1, Symbol::RParen, Seq::empty(), ctx) {
                Some((args, after)) => Some((t, args, after)),
                None => None,
            }
        },
    }
}

/// The target of a divert at token `target_pos` and its arguments, with the
/// position after them.
fn parse_divert_target(tokens: &Vec<Token>, target_pos: usize, ctx: &LineContext) -> (r: Option<
    (DivertTarget, Vec<Expression>, usize),
>)
    requires
        target_pos <= tokens.len(),
    ensures
        r matches Some((_, _, next)) ==> target_pos < next <= tokens.len(),
        match r {
            Some((t, args, n)) => divert_target_at(tokens_view(tokens@), target_pos as int, *ctx) == Some(
                (target_view(t), exprs_view(args@), n as int),
            ),
            None => divert_target_at(tokens_view(tokens@), target_pos as int, *ctx) is None,
        },
{
    let ghost v = tokens_view(tokens@);
    let (target, next) = if is_sym(tokens, target_pos, Symbol::LBrace) {
        match parse_expression(tokens, target_pos + 1, ctx) {
            Some((expression, after)) => {
                if !is_sym(tokens, after, Symbol::RBrace) {
                    return None;
                }
                (DivertTarget::Dynamic(expression), after + 1)
            },
            None => {
                return None;
            },
        }
    } else if is_word(tokens, target_pos, "DONE") {
        (DivertTarget::Done, target_pos + 1)
    } else if is_word(tokens, target_pos, "END") {
        (DivertTarget::End, target_pos + 1)
    } else if target_pos < tokens.len() && is_sym(tokens, target_pos + 1, Symbol::DoubleColon)
        && target_pos + 2 < tokens.len() && !is_sym(tokens, target_pos + 3, Symbol::Dot) {
        match (ident_at(tokens, target_pos), ident_at(tokens, target_pos + 2)) {
            (Some(module), Some(symbol)) => (
                DivertTarget::QualifiedPath(
                    QualifiedName {
                        module,
                        symbol,
                        module_span: ctx.span_at(column_at(tokens, target_pos)),
                    },
                ),
                target_pos + 3,
            ),
            _ => {
                return None;
            },
        }
    } else {
        match parse_path_text(tokens, target_pos) {
            Some((path, after)) => (DivertTarget::Path(path), after),
            None => {
                return None;
            },
        }
    };
    let ghost base = (target_view(target), next as int);
    assert(target_at(v, target_pos as int, *ctx) == Some(base));
    let mut arguments: Vec<Expression> = Vec::new();
    assert(exprs_view(arguments@) =~= Seq::empty());
    let mut after = next;
    if is_sym(tokens, next, Symbol::LParen) {
        let mut p = next + 1;
        if is_sym(tokens, p, Symbol::RParen) {
            after = p + 1;
        } else {
            loop
                invariant_except_break
                    list_items(v, next + 1, Symbol::RParen, Seq::empty(), *ctx) == list_items(
                        v,
                        p as int,
                        Symbol::RParen,
                        exprs_view(arguments@),
                        *ctx,
                    ),
                invariant
                    target_pos < next < p <= tokens.len(),
                    target_pos < after <= tokens.len(),
                    v == tokens_view(tokens@),
                    target_at(v, target_pos as int, *ctx) == Some(base),
                    base.1 == next,
                    sym_at(v, next as int, Symbol::LParen),
                    !sym_at(v, next + 1, Symbol::RParen),
                ensures
                    target_pos < after <= tokens.len(),
                    list_items(v, next + 1, Symbol::RParen, Seq::empty(), *ctx) == Some((exprs_view(arguments@), after as int)),
                    target_at(v, target_pos as int, *ctx) == Some(base),
                    sym_at(v, next as int, Symbol::LParen),
                    !sym_at(v, next + 1, Symbol::RParen),
                decreases tokens.len() - p,
            {
                match parse_expression(tokens, p, ctx) {
                    Some((argument, q)) => {
                        let ghost before = arguments@;
                        arguments.push(argument);
                        assert(arguments@.drop_last() =~= before);
                        if is_sym(tokens, q, Symbol::Comma) {
                            p = q + 1;
                        } else if is_sym(tokens, q, Symbol::RParen) {
                            after = q + 1;
                            break;
                        } else {
                            return None;
                        }
                    },
                    None => {
                        return None;
                    },
                }
            }
        }
    }
    Some((target, arguments, after))
}

/// A divert or a return from a tunnel, as plain values.
pub enum DivertItem {
    Divert(TargetView, Seq<ExprView>, bool, SourceSpan),
    Onwards(Option<TargetView>, Seq<ExprView>, SourceSpan),
    Other,
}

pub open spec fn divert_item(o: Object) -> DivertItem {
    match o {
        Object::Divert(d) => DivertItem::Divert(target_view(d.target), exprs_view(d.arguments@), d.is_tunnel, d.span),
        Object::TunnelOnwards(t) => DivertItem::Onwards(
            match t.override_target {
                Some(target) => Some(target_view(target)),
                None => None,
            },
            exprs_view(t.arguments@),
            t.span,
        ),
        _ => DivertItem::Other,
    }
}

/// The diverts `acc` followed by those written from token `pos` of `v` to
/// its end: tunnels `-> target ->`, then a plain divert, a tunnel that
/// ends the line, or a return `->->` (possibly to another target).
pub open spec fn divert_line(v: Seq<(TokenView, int)>, pos: int, acc: Seq<DivertItem>, ctx: LineContext) -> Option<Seq<DivertItem>>
    decreases v.len() - pos,
{
    if !(0 <= pos <= v.len()) || !sym_at(v, pos, Symbol::Arrow) {
        None
    } else {
        let span = at_column(ctx, column_of(v, pos) as usize);
        if sym_at(v, pos + 1, Symbol::Arrow) {
            if pos + 2 == v.len() {
                Some(acc.push(DivertItem::Onwards(None, Seq::empty(), span)))
            } else {
                match divert_target_at(v, pos + 2, ctx) {
                    Some((t, args, n)) => if n == v.len() {
                        Some(acc.push(DivertItem::Onwards(Some(t), args, span)))
                    } else {
                        None
                    },
                    None => None,
                }
            }
        } else {
            match divert_target_at(v, pos + 1, ctx) {
                Some((t, args, n)) => if n == v.len() {
                    Some(acc.push(DivertItem::Divert(t, args, false, span)))
                } else if !sym_at(v, n, Symbol::Arrow) {
                    None
                } else if n + 1 == v.len() {
                    Some(acc.push(DivertItem::Divert(t, args, true, span)))
                } else if pos < n {
                    divert_line(v, n, acc.push(DivertItem::Divert(t, args, true, span)), ctx)
                } else {
                    None
                },
                None => None,
            }
        }
    }
}

pub open spec fn divert_items(os: Seq<Object>) -> Seq<DivertItem> {
    os.map_values(|o: Object| divert_item(o))
}

/// A divert that takes up the rest of the line from token `pos`.
fn parse_divert(tokens: &Vec<Token>, pos: usize, ctx: &LineContext) -> (r: Option<Divert>)
    requires
        pos <= tokens.len(),
    ensures
        match r {
            Some(d) => {
                &&& sym_at(tokens_view(tokens@), pos as int, Symbol::Arrow)
                &&& divert_target_at(tokens_view(tokens@), pos + 1, *ctx) == Some(
                    (target_view(d.target), exprs_view(d.arguments@), tokens.len() as int),
                )
                &&& !d.is_tunnel
                &&& d.span == at_column(*ctx, column_of(tokens_view(tokens@), pos as int) as usize)
            },
            None => !sym_at(tokens_view(tokens@), pos as int, Symbol::Arrow) || !(divert_target_at(
                tokens_view(tokens@),
                pos + 1,
                *ctx,
            ) matches Some((_, _, n)) && n == tokens.len()),
        },
{
    if !is_sym(tokens, pos, Symbol::Arrow) {
        return None;
    }
    let span = ctx.span_at(column_at(tokens, pos));
    match parse_divert_target(tokens, pos + 1, ctx) {
        Some((target, arguments, next)) => {
            if next != tokens.len() {
                return None;
            }
            Some(Divert { target, arguments, is_tunnel: false, span })
        },
        None => None,
    }
}

/// A line of diverts: tunnels (`-> target ->`), then a plain divert or a
/// return from a tunnel (`->->`, possibly with another target).
fn parse_divert_line(tokens: &Vec<Token>, ctx: &LineContext) -> (r: Option<Vec<Object>>)
    ensures
        match r {
            Some(os) => divert_line(tokens_view(tokens@), 0, Seq::empty(), *ctx) == Some(divert_items(os@)),
            None => divert_line(tokens_view(tokens@), 0, Seq::empty(), *ctx) is None,
        },
{
    let ghost v = tokens_view(tokens@);
    let mut objects: Vec<Object> = Vec::new();
    let mut pos: usize = 0;
    assert(divert_items(objects@) =~= Seq::empty());
    loop
        invariant
            pos <= tokens.len(),
            v == tokens_view(tokens@),
            divert_line(v, 0, Seq::empty(), *ctx) == divert_line(v, pos as int, divert_items(objects@), *ctx),
        decreases tokens.len() - pos,
    {
        let ghost before = objects@;
        if !is_sym(tokens, pos, Symbol::Arrow) {
            return None;
        }
        let span = ctx.span_at(column_at(tokens, pos));
        if is_sym(tokens, pos + 1, Symbol::Arrow) {
            if pos + 2 == tokens.len() {
                let arguments: Vec<Expression> = Vec::new();
                assert(exprs_view(arguments@) =~= Seq::empty());
                objects.push(Object::TunnelOnwards(TunnelOnwards { override_target: None, arguments, span }));
                assert(divert_items(objects@) =~= divert_items(before).push(divert_items(objects@).last()));
                return Some(objects);
            }
            match parse_divert_target(tokens, pos + 2, ctx) {
                Some((target, arguments, next)) => {
                    if next != tokens.len() {
                        return None;
                    }
                    objects.push(Object::TunnelOnwards(TunnelOnwards { override_target: Some(target), arguments, span }));
                    assert(divert_items(objects@) =~= divert_items(before).push(divert_items(objects@).last()));
                    return Some(objects);
                },
                None => {
                    return None;
                },
            }
        }
        match parse_divert_target(tokens, pos + 1, ctx) {
            Some((target, arguments, next)) => {
                if next == tokens.len() {
                    objects.push(Object::Divert(Divert { target, arguments, is_tunnel: false, span }));
                    assert(divert_items(objects@) =~= divert_items(before).push(divert_items(objects@).last()));
                    return Some(objects);
                }
                if !is_sym(tokens, next, Symbol::Arrow) {
                    return None;
                }
                objects.push(Object::Divert(Divert { target, arguments, is_tunnel: true, span }));
                assert(divert_items(objects@) =~= divert_items(before).push(divert_items(objects@).last()));
                if next + 1 == tokens.len() {
                    return Some(objects);
                }
                pos = next;
            },
            None => {
                return None;
            },
        }
    }
}

/// The end of the line of `s` that starts at `i`: its `\n`, or the end of
/// `s`.
pub open spec fn line_end_of(s: Seq<char>, i: int) -> int
    decreases s.len() - i,
{
    if 0 <= i < s.len() && s[i] != '\n' {
        line_end_of(s, i + 1)
    } else {
        i
    }
}

pub proof fn lemma_line_end(s: Seq<char>, i: int)
    requires
        0 <= i <= s.len(),
    ensures
        i <= line_end_of(s, i) <= s.len(),
    decreases s.len() - i,
{
    if 0 <= i < s.len() && s[i] != '\n' {
        lemma_line_end(s, i + 1);
    }
}

/// The line of `s` that starts at `start`, numbered `number`, takes `a` to
/// `mid`; a line of blanks changes nothing.
pub open spec fn line_part(a: StoryBuilder, mid: StoryBuilder, s: Seq<char>, start: int, number: usize, source_filename: Option<String>) -> bool {
    let le = line_end_of(s, start);
    let first = space_end(s, start, le);
    let stop = trimmed(s, first, le);
    let ctx = LineContext { source_filename, line: number };
    if first < stop {
        line_step(a, mid, s.subrange(start, stop), first - start, stop - start, ctx)
    } else {
        mid == a
    }
}

/// `b` is `a` after the lines of `s` from `start` on, the first numbered
/// `number`.
pub open spec fn lines_step(a: StoryBuilder, b: StoryBuilder, s: Seq<char>, start: int, number: usize, source_filename: Option<String>) -> bool
    decreases s.len() - start,
{
    if 0 <= start <= s.len() {
        let le = line_end_of(s, start);
        proof {
            lemma_line_end(s, start);
        }
        exists|mid: StoryBuilder|
            #[trigger] line_part(a, mid, s, start, number, source_filename) && if le >= s.len() {
                b == mid
            } else {
                lines_step(mid, b, s, le + 1, if number < usize::MAX { (number + 1) as usize } else { number }, source_filename)
            }
    } else {
        false
    }
}

/// Reads every line of `text`, adding its content to `builder`.
pub fn parse_source_text(builder: &mut StoryBuilder, text: &str, source_filename: &Option<String>)
    ensures
        exists|m: StoryBuilder|
            lines_step(*old(builder), m, text@, 0, 1, *source_filename) && #[trigger] module_finished(m, *final(builder)),
{
    let chars = crate::text::chars_of(text);
    let mut line_start: usize = 0;
    let mut line_number: usize = 1;
    let ghost s = chars@;
    let ghost orig = *builder;
    assert forall|b: StoryBuilder| lines_step(*builder, b, s, 0, 1, *source_filename) implies lines_step(
        orig,
        b,
        s,
        0,
        1,
        *source_filename,
    ) by {}
    loop
        invariant_except_break
            forall|b: StoryBuilder| #[trigger] lines_step(*builder, b, s, line_start as int, line_number, *source_filename) ==> lines_step(
                orig,
                b,
                s,
                0,
                1,
                *source_filename,
            ),
        invariant
            line_start <= chars.len(),
            line_number >= 1,
            s == chars@,
            s == text@,
        ensures
            lines_step(orig, *builder, s, 0, 1, *source_filename),
        decreases chars.len() - line_start,
    {
        let ghost before = *builder;
        let mut line_end = line_start;
        while line_end < chars.len() && chars[line_end] != '\n'
            invariant
                line_start <= line_end <= chars.len(),
                s == chars@,
                line_end_of(s, line_end as int) == line_end_of(s, line_start as int),
            decreases chars.len() - line_end,
        {
            line_end = line_end + 1;
        }
        let mut first = line_start;
        while first < line_end && is_space(chars[first])
            invariant
                line_start <= first <= line_end <= chars.len(),
                s == chars@,
                space_end(s, first as int, line_end as int) == space_end(s, line_start as int, line_end as int),
            decreases line_end - first,
        {
            first = first + 1;
        }
        let stop = trim_end(&chars, first, line_end);
        let ctx = LineContext {
            source_filename: match source_filename {
                Some(name) => Some(name.clone()),
                None => None,
            },
            line: line_number,
        };
        if first < stop {
            let line: Vec<char> = slice_line(&chars, line_start, stop);
            builder.parse_line(&line, first - line_start, stop - line_start, &ctx);
        }
        let ghost mid = *builder;
        assert(line_end_of(s, line_start as int) == line_end as int);
        assert(space_end(s, line_start as int, line_end as int) == first as int);
        assert(ctx == LineContext { source_filename: *source_filename, line: line_number });
        assert(first < stop ==> line_step(before, mid, s.subrange(line_start as int, stop as int), first - line_start, stop - line_start, ctx));
        if line_end >= chars.len() {
            assert(line_part(before, mid, s, line_start as int, line_number, *source_filename));
            assert(lines_step(before, *builder, s, line_start as int, line_number, *source_filename));
            break;
        }
        let ghost next_number: usize = if line_number < usize::MAX { (line_number + 1) as usize } else { line_number };
        assert forall|b: StoryBuilder| #[trigger] lines_step(*builder, b, s, line_end + 1, next_number, *source_filename) implies lines_step(
            orig,
            b,
            s,
            0,
            1,
            *source_filename,
        ) by {
            assert(line_part(before, mid, s, line_start as int, line_number, *source_filename));
            assert(lines_step(before, b, s, line_start as int, line_number, *source_filename));
        }
        line_start = line_end + 1;
        if line_number < usize::MAX {
            line_number = line_number + 1;
        }
    }
    let ghost m = *builder;
    builder.finish_source();
    assert(module_finished(m, *builder));
}

/// `chars[start..end]` as its own vector.
fn slice_line(chars: &Vec<char>, start: usize, end: usize) -> (r: Vec<char>)
    requires
        start <= end <= chars.len(),
    ensures
        r@ == chars@.subrange(start as int, end as int),
{
    let mut r: Vec<char> = Vec::new();
    let mut i = start;
    while i < end
        invariant
            start <= i <= end <= chars.len(),
            r@ == chars@.subrange(start as int, i as int),
        decreases end - i,
    {
        r.push(chars[i]);
        assert(chars@.subrange(start as int, i + 1) =~= chars@.subrange(start as int, i as int).push(chars@[i as int]));
        i = i + 1;
    }
    r
}

} // verus!
