//! Names that clash: arguments with flows, globals or each other, labels
//! and stitches with globals, repeated labels, temporaries with arguments.
use vstd::prelude::*;

use crate::analysis::span::first_span_in_weave;
use crate::analysis::span::first_span_spec;
use crate::diagnostic::{diag_views, DiagView, Diagnostic, DiagnosticSeverity};
use crate::parsed::{AssignmentKind, ConditionalBranch, Flow, FlowArgument, Module, Object, Story, Weave};
use crate::source::SourceSpan;
use crate::text::{concat3, owned, str_eq};

verus! {

/// What a name is already used for.
#[derive(Debug, Clone, Copy, PartialEq, Eq, Structural)]
pub enum NameKind {
    Function,
    Knot,
    Var,
}

impl NameKind {
    pub fn display_name(self) -> (r: &'static str)
        ensures
            r@ == match self {
                NameKind::Function => "function"@,
                NameKind::Knot => "knot"@,
                NameKind::Var => "var"@,
            },
    {
        match self {
            NameKind::Function => "function",
            NameKind::Knot => "knot",
            NameKind::Var => "var",
        }
    }
}

/// `symbol 'name': name has already been used for a kind`.
pub open spec fn conflict_message(symbol: Seq<char>, name: Seq<char>, kind: Seq<char>) -> Seq<char> {
    symbol + " '"@ + name + "': name has already been used for a "@ + kind
}

pub fn name_conflict_diagnostic(symbol: &str, name: &str, kind: NameKind, span: SourceSpan) -> (r: Diagnostic)
    ensures
        r.is_error(),
        r.span_view() == span,
        r.message@ == conflict_message(symbol@, name@, kind.display_name_spec()),
{
    let mut msg = concat3(symbol, " '", name);
    msg.append("': name has already been used for a ");
    msg.append(kind.display_name());
    Diagnostic::error(span, msg)
}

impl NameKind {
    pub open spec fn display_name_spec(self) -> Seq<char> {
        match self {
            NameKind::Function => "function"@,
            NameKind::Knot => "knot"@,
            NameKind::Var => "var"@,
        }
    }
}

/// The characters of each name.
pub open spec fn name_views(s: Seq<String>) -> Seq<Seq<char>> {
    s.map_values(|x: String| x@)
}

pub proof fn lemma_name_views_push(s: Seq<String>, x: String)
    ensures
        name_views(s.push(x)) == name_views(s).push(x@),
{
    assert(name_views(s.push(x)) =~= name_views(s).push(x@));
}

pub fn list_has(names: &Vec<String>, name: &str) -> (r: bool)
    ensures
        r == name_views(names@).contains(name@),
{
    let mut i: usize = 0;
    while i < names.len()
        invariant
            i <= names@.len(),
            forall|k: int| 0 <= k < i ==> (#[trigger] names@[k])@ != name@,
        decreases names.len() - i,
    {
        if str_eq(names[i].as_str(), name) {
            assert(name_views(names@)[i as int] == name@);
            return true;
        }
        i = i + 1;
    }
    proof {
        if name_views(names@).contains(name@) {
            let k = choose|k: int| 0 <= k < name_views(names@).len() && name_views(names@)[k] == name@;
            assert(names@[k]@ == name@);
        }
    }
    false
}

// ---------------------------------------------------------------------------
// Top-level flows.

pub open spec fn flow_kind(f: Flow) -> NameKind {
    if f.is_function { NameKind::Function } else { NameKind::Knot }
}

/// The kind of the last flow of `fs` named `name`, if any.
pub open spec fn top_kind(fs: Seq<Flow>, name: Seq<char>) -> Option<NameKind>
    decreases fs.len(),
{
    if fs.len() == 0 {
        None
    } else if fs.last().name@ == name {
        Some(flow_kind(fs.last()))
    } else {
        top_kind(fs.drop_last(), name)
    }
}

fn top_level_kind(flows: &Vec<Flow>, name: &str) -> (r: Option<NameKind>)
    ensures
        r == top_kind(flows@, name@),
{
    let mut found: Option<NameKind> = None;
    let mut i: usize = 0;
    while i < flows.len()
        invariant
            i <= flows@.len(),
            found == top_kind(flows@.take(i as int), name@),
        decreases flows.len() - i,
    {
        proof {
            assert(flows@.take(i + 1).drop_last() =~= flows@.take(i as int));
        }
        if str_eq(flows[i].name.as_str(), name) {
            found = Some(if flows[i].is_function { NameKind::Function } else { NameKind::Knot });
        }
        i = i + 1;
    }
    assert(flows@.take(flows@.len() as int) =~= flows@);
    found
}

// ---------------------------------------------------------------------------
// Global names: variables declared with VAR and constants, anywhere in a
// scope's weave and flows.

pub open spec fn globals_prefix(os: Seq<Object>, n: int) -> Seq<Seq<char>>
    decreases os, 1nat, n,
{
    if n <= 0 || n > os.len() {
        Seq::empty()
    } else {
        globals_prefix(os, n - 1) + globals_object(os, n - 1)
    }
}

pub open spec fn globals_object(os: Seq<Object>, i: int) -> Seq<Seq<char>>
    decreases os[i], 0nat, 0int,
{
    if 0 <= i < os.len() {
        match os[i] {
            Object::VariableAssignment(a) => if a.kind == AssignmentKind::Global {
                seq![a.name@]
            } else {
                Seq::empty()
            },
            Object::ConstantDeclaration(d) => seq![d.name@],
            Object::ContentList(c) => globals_prefix(c.objects@, c.objects@.len() as int),
            Object::Conditional(c) => globals_branches(c.branches@, c.branches@.len() as int),
            Object::Weave(w) => globals_prefix(w.content@, w.content@.len() as int),
            _ => Seq::empty(),
        }
    } else {
        Seq::empty()
    }
}

pub open spec fn globals_branches(bs: Seq<ConditionalBranch>, n: int) -> Seq<Seq<char>>
    decreases bs, 1nat, n,
{
    if n <= 0 || n > bs.len() {
        Seq::empty()
    } else {
        globals_branches(bs, n - 1) + globals_prefix(bs[n - 1].content.content@, bs[n - 1].content.content@.len() as int)
    }
}

pub open spec fn globals_in_objects(os: Seq<Object>) -> Seq<Seq<char>> {
    globals_prefix(os, os.len() as int)
}

pub open spec fn globals_in_flow(f: Flow) -> Seq<Seq<char>>
    decreases f, 0nat,
{
    globals_in_objects(f.weave.content@) + globals_in_flows(f.child_flows@)
}

pub open spec fn globals_in_flows(fs: Seq<Flow>) -> Seq<Seq<char>>
    decreases fs, 1nat,
{
    if fs.len() == 0 {
        Seq::empty()
    } else {
        globals_in_flows(fs.drop_last()) + globals_in_flow(fs.last())
    }
}

/// The global names of one scope: a weave and its flows.
pub open spec fn scope_globals(w: Weave, fs: Seq<Flow>) -> Seq<Seq<char>> {
    globals_in_objects(w.content@) + globals_in_flows(fs)
}

fn collect_globals_in_objects(os: &Vec<Object>, out: &mut Vec<String>)
    ensures
        name_views(final(out)@) == name_views(old(out)@) + globals_in_objects(os@),
    decreases os@, 1nat, os@.len(),
{
    let ghost before = name_views(out@);
    let mut i: usize = 0;
    assert(name_views(out@) =~= before + globals_prefix(os@, 0));
    while i < os.len()
        invariant
            i <= os@.len(),
            name_views(out@) == before + globals_prefix(os@, i as int),
        decreases os.len() - i,
    {
        proof { assert(decreases_to!(os@ => os@[i as int])); }
        collect_globals_in_object(os, i, out);
        i = i + 1;
    }
}

fn collect_globals_in_object(os: &Vec<Object>, i: usize, out: &mut Vec<String>)
    requires
        i < os@.len(),
    ensures
        name_views(final(out)@) == name_views(old(out)@) + globals_object(os@, i as int),
    decreases os@[i as int], 0nat, 0int,
{
    let ghost before = name_views(out@);
    let o = &os[i];
    match o {
        Object::VariableAssignment(a) => {
            if a.kind == AssignmentKind::Global {
                let ghost prev = out@;
                out.push(owned(a.name.as_str()));
                proof { lemma_name_views_push(prev, out@.last()); }
            }
            assert(name_views(out@) =~= before + globals_object(os@, i as int));
        },
        Object::ConstantDeclaration(d) => {
            let ghost prev = out@;
            out.push(owned(d.name.as_str()));
            proof { lemma_name_views_push(prev, out@.last()); }
            assert(name_views(out@) =~= before + globals_object(os@, i as int));
        },
        Object::ContentList(c) => {
            proof {
                assert(decreases_to!(*o => (*o)->ContentList_0));
                assert(decreases_to!((*o)->ContentList_0 => c.objects));
                assert(decreases_to!(c.objects => c.objects@));
            }
            collect_globals_in_objects(&c.objects, out);
        },
        Object::Conditional(c) => {
            let ghost bs = c.branches@;
            let mut b: usize = 0;
            assert(name_views(out@) =~= before + globals_branches(bs, 0));
            while b < c.branches.len()
                invariant
                    i < os@.len(),
                    *o == os@[i as int],
                    os@[i as int] is Conditional,
                    (os@[i as int])->Conditional_0 == *c,
                    bs == c.branches@,
                    b <= bs.len(),
                    name_views(out@) == before + globals_branches(bs, b as int),
                decreases c.branches.len() - b,
            {
                proof {
                    assert(decreases_to!(os@[i as int] => (os@[i as int])->Conditional_0));
                    assert(decreases_to!((os@[i as int])->Conditional_0 => c.branches));
                    assert(decreases_to!(c.branches => c.branches@));
                    assert(decreases_to!(c.branches@ => c.branches@[b as int]));
                    assert(decreases_to!(c.branches@[b as int] => c.branches@[b as int].content));
                    assert(decreases_to!(c.branches@[b as int].content => c.branches@[b as int].content.content));
                    assert(decreases_to!(c.branches@[b as int].content.content => c.branches@[b as int].content.content@));
                }
                collect_globals_in_objects(&c.branches[b].content.content, out);
                b = b + 1;
            }
        },
        Object::Weave(w) => {
            proof {
                assert(decreases_to!(*o => (*o)->Weave_0));
                assert(decreases_to!((*o)->Weave_0 => w.content));
                assert(decreases_to!(w.content => w.content@));
            }
            collect_globals_in_objects(&w.content, out);
        },
        _ => {
            assert(name_views(out@) =~= before + globals_object(os@, i as int));
        },
    }
}

fn collect_globals_in_flow(f: &Flow, out: &mut Vec<String>)
    ensures
        name_views(final(out)@) == name_views(old(out)@) + globals_in_flow(*f),
    decreases *f, 0nat,
{
    let ghost before = name_views(out@);
    collect_globals_in_objects(&f.weave.content, out);
    proof {
        assert(decreases_to!(*f => f.child_flows));
        assert(decreases_to!(f.child_flows => f.child_flows@));
    }
    collect_globals_in_flows(&f.child_flows, out);
    assert(name_views(out@) =~= before + globals_in_flow(*f));
}

fn collect_globals_in_flows(fs: &Vec<Flow>, out: &mut Vec<String>)
    ensures
        name_views(final(out)@) == name_views(old(out)@) + globals_in_flows(fs@),
    decreases fs@, 1nat,
{
    let ghost before = name_views(out@);
    let mut i: usize = 0;
    assert(name_views(out@) =~= before + globals_in_flows(fs@.take(0)));
    while i < fs.len()
        invariant
            i <= fs@.len(),
            name_views(out@) == before + globals_in_flows(fs@.take(i as int)),
        decreases fs.len() - i,
    {
        proof {
            assert(decreases_to!(fs@ => fs@[i as int]));
            assert(fs@.take(i + 1).drop_last() =~= fs@.take(i as int));
        }
        collect_globals_in_flow(&fs[i], out);
        assert(name_views(out@) =~= before + globals_in_flows(fs@.take(i + 1)));
        i = i + 1;
    }
    assert(fs@.take(fs@.len() as int) =~= fs@);
}

/// The global names of one scope: a weave and its flows.
fn scoped_globals(weave: &Weave, flows: &Vec<Flow>) -> (r: Vec<String>)
    ensures
        name_views(r@) == scope_globals(*weave, flows@),
{
    let mut out: Vec<String> = Vec::new();
    assert(name_views(out@) =~= Seq::<Seq<char>>::empty());
    collect_globals_in_objects(&weave.content, &mut out);
    collect_globals_in_flows(flows, &mut out);
    assert(name_views(out@) =~= scope_globals(*weave, flows@));
    out
}

// ---------------------------------------------------------------------------
// Labels of choices and gathers.

/// What checking the label `name` of a choice or gather does: an error when
/// it is a global name or already a label of the same weave, else the
/// label joins the weave's labels.
pub open spec fn point_name_check(
    symbol: Seq<char>,
    name: Seq<char>,
    span: SourceSpan,
    local: Seq<Seq<char>>,
    globals: Seq<Seq<char>>,
) -> (Seq<DiagView>, Seq<Seq<char>>) {
    if globals.contains(name) {
        (seq![(DiagnosticSeverity::Error, conflict_message(symbol, name, "var"@), span)], local)
    } else if local.contains(name) {
        (seq![(DiagnosticSeverity::Error, symbol + " with the same label '"@ + name + "' already exists in this context"@, span)], local)
    } else {
        (Seq::empty(), local.push(name))
    }
}

/// The label errors among the first `n` objects of `os`, and the labels
/// seen so far. Outside a weave (`is_weave` false) choices and gathers are
/// not looked at.
pub open spec fn points_prefix(os: Seq<Object>, n: int, globals: Seq<Seq<char>>, is_weave: bool) -> (Seq<DiagView>, Seq<Seq<char>>)
    decreases os, 1nat, n,
{
    if n <= 0 || n > os.len() {
        (Seq::empty(), Seq::empty())
    } else {
        let prev = points_prefix(os, n - 1, globals, is_weave);
        let step = points_object(os, n - 1, globals, is_weave, prev.1);
        (prev.0 + step.0, step.1)
    }
}

pub open spec fn points_object(os: Seq<Object>, i: int, globals: Seq<Seq<char>>, is_weave: bool, local: Seq<Seq<char>>) -> (Seq<DiagView>, Seq<Seq<char>>)
    decreases os[i], 0nat, 0int,
{
    if 0 <= i < os.len() {
        match os[i] {
            Object::Choice(c) => if is_weave {
                let named = match c.identifier {
                    Some(name) => point_name_check("choice"@, name@, c.span, local, globals),
                    None => (Seq::empty(), local),
                };
                (named.0 + (match c.start_content {
                    Some(sc) => points_prefix(sc.objects@, sc.objects@.len() as int, globals, false).0,
                    None => Seq::empty(),
                }) + points_prefix(c.inner_content.objects@, c.inner_content.objects@.len() as int, globals, false).0, named.1)
            } else {
                (Seq::empty(), local)
            },
            Object::Gather(g) => if is_weave {
                match g.identifier {
                    Some(name) => point_name_check("gather"@, name@, g.span, local, globals),
                    None => (Seq::empty(), local),
                }
            } else {
                (Seq::empty(), local)
            },
            Object::Conditional(c) => (points_branches(c.branches@, c.branches@.len() as int, globals), local),
            Object::ContentList(c) => (points_prefix(c.objects@, c.objects@.len() as int, globals, false).0, local),
            Object::Weave(w) => (points_prefix(w.content@, w.content@.len() as int, globals, true).0, local),
            _ => (Seq::empty(), local),
        }
    } else {
        (Seq::empty(), local)
    }
}

pub open spec fn points_branches(bs: Seq<ConditionalBranch>, n: int, globals: Seq<Seq<char>>) -> Seq<DiagView>
    decreases bs, 1nat, n,
{
    if n <= 0 || n > bs.len() {
        Seq::empty()
    } else {
        points_branches(bs, n - 1, globals) + points_prefix(bs[n - 1].content.content@, bs[n - 1].content.content@.len() as int, globals, true).0
    }
}

/// The label errors of the objects `os`.
pub open spec fn points_all(os: Seq<Object>, globals: Seq<Seq<char>>, is_weave: bool) -> Seq<DiagView> {
    points_prefix(os, os.len() as int, globals, is_weave).0
}

fn check_weave_points(os: &Vec<Object>, globals: &Vec<String>, is_weave: bool, out: &mut Vec<Diagnostic>)
    ensures
        diag_views(final(out)@) == diag_views(old(out)@) + points_all(os@, name_views(globals@), is_weave),
    decreases os@, 1nat, os@.len(),
{
    let ghost before = diag_views(out@);
    let ghost g = name_views(globals@);
    let mut local: Vec<String> = Vec::new();
    let mut i: usize = 0;
    assert(name_views(local@) =~= points_prefix(os@, 0, g, is_weave).1);
    assert(diag_views(out@) =~= before + points_prefix(os@, 0, g, is_weave).0);
    while i < os.len()
        invariant
            i <= os@.len(),
            g == name_views(globals@),
            diag_views(out@) == before + points_prefix(os@, i as int, g, is_weave).0,
            name_views(local@) == points_prefix(os@, i as int, g, is_weave).1,
        decreases os.len() - i,
    {
        proof { assert(decreases_to!(os@ => os@[i as int])); }
        check_weave_point_object(os, i, globals, is_weave, &mut local, out);
        assert(diag_views(out@) =~= before + points_prefix(os@, i + 1, g, is_weave).0);
        i = i + 1;
    }
}

fn check_weave_point_object(
    os: &Vec<Object>,
    i: usize,
    globals: &Vec<String>,
    is_weave: bool,
    local: &mut Vec<String>,
    out: &mut Vec<Diagnostic>,
)
    requires
        i < os@.len(),
    ensures
        diag_views(final(out)@) == diag_views(old(out)@) + points_object(os@, i as int, name_views(globals@), is_weave, name_views(old(local)@)).0,
        name_views(final(local)@) == points_object(os@, i as int, name_views(globals@), is_weave, name_views(old(local)@)).1,
    decreases os@[i as int], 0nat, 0int,
{
    let ghost before = diag_views(out@);
    let ghost g = name_views(globals@);
    let o = &os[i];
    match o {
        Object::Choice(c) => {
            if is_weave {
                match &c.identifier {
                    Some(name) => check_point_name("choice", name.as_str(), &c.span, local, globals, out),
                    None => {},
                }
                match &c.start_content {
                    Some(sc) => {
                        proof {
                            assert(decreases_to!(*o => (*o)->Choice_0));
                            assert(decreases_to!((*o)->Choice_0 => c.start_content));
                            assert(decreases_to!(c.start_content => sc));
                            assert(decreases_to!(sc => sc.objects));
                            assert(decreases_to!(sc.objects => sc.objects@));
                        }
                        check_weave_points(&sc.objects, globals, false, out);
                    },
                    None => {},
                }
                proof {
                    assert(decreases_to!(*o => (*o)->Choice_0));
                    assert(decreases_to!((*o)->Choice_0 => c.inner_content));
                    assert(decreases_to!(c.inner_content => c.inner_content.objects));
                    assert(decreases_to!(c.inner_content.objects => c.inner_content.objects@));
                }
                check_weave_points(&c.inner_content.objects, globals, false, out);
            }
            assert(diag_views(out@) =~= before + points_object(os@, i as int, g, is_weave, name_views(old(local)@)).0);
        },
        Object::Gather(gather) => {
            if is_weave {
                match &gather.identifier {
                    Some(name) => check_point_name("gather", name.as_str(), &gather.span, local, globals, out),
                    None => {},
                }
            }
            assert(diag_views(out@) =~= before + points_object(os@, i as int, g, is_weave, name_views(old(local)@)).0);
        },
        Object::Conditional(c) => {
            let ghost bs = c.branches@;
            let mut b: usize = 0;
            assert(diag_views(out@) =~= before + points_branches(bs, 0, g));
            while b < c.branches.len()
                invariant
                    i < os@.len(),
                    *o == os@[i as int],
                    os@[i as int] is Conditional,
                    (os@[i as int])->Conditional_0 == *c,
                    bs == c.branches@,
                    b <= bs.len(),
                    g == name_views(globals@),
                    diag_views(out@) == before + points_branches(bs, b as int, g),
                decreases c.branches.len() - b,
            {
                proof {
                    assert(decreases_to!(os@[i as int] => (os@[i as int])->Conditional_0));
                    assert(decreases_to!((os@[i as int])->Conditional_0 => c.branches));
                    assert(decreases_to!(c.branches => c.branches@));
                    assert(decreases_to!(c.branches@ => c.branches@[b as int]));
                    assert(decreases_to!(c.branches@[b as int] => c.branches@[b as int].content));
                    assert(decreases_to!(c.branches@[b as int].content => c.branches@[b as int].content.content));
                    assert(decreases_to!(c.branches@[b as int].content.content => c.branches@[b as int].content.content@));
                }
                check_weave_points(&c.branches[b].content.content, globals, true, out);
                b = b + 1;
            }
        },
        Object::ContentList(c) => {
            proof {
                assert(decreases_to!(*o => (*o)->ContentList_0));
                assert(decreases_to!((*o)->ContentList_0 => c.objects));
                assert(decreases_to!(c.objects => c.objects@));
            }
            check_weave_points(&c.objects, globals, false, out);
        },
        Object::Weave(w) => {
            proof {
                assert(decreases_to!(*o => (*o)->Weave_0));
                assert(decreases_to!((*o)->Weave_0 => w.content));
                assert(decreases_to!(w.content => w.content@));
            }
            check_weave_points(&w.content, globals, true, out);
        },
        _ => {
            assert(diag_views(out@) =~= before + points_object(os@, i as int, g, is_weave, name_views(old(local)@)).0);
        },
    }
}

fn check_point_name(symbol: &str, name: &str, span: &SourceSpan, local: &mut Vec<String>, globals: &Vec<String>, out: &mut Vec<Diagnostic>)
    ensures
        diag_views(final(out)@) == diag_views(old(out)@) + point_name_check(symbol@, name@, *span, name_views(old(local)@), name_views(globals@)).0,
        name_views(final(local)@) == point_name_check(symbol@, name@, *span, name_views(old(local)@), name_views(globals@)).1,
{
    let ghost prev = out@;
    if list_has(globals, name) {
        out.push(name_conflict_diagnostic(symbol, name, NameKind::Var, span.duplicate()));
        proof { assert(diag_views(out@) =~= diag_views(prev).push(crate::diagnostic::diag_view(out@.last()))); }
    } else if list_has(local, name) {
        let mut msg = concat3(symbol, " with the same label '", name);
        msg.append("' already exists in this context");
        out.push(Diagnostic::error(span.duplicate(), msg));
        proof { assert(diag_views(out@) =~= diag_views(prev).push(crate::diagnostic::diag_view(out@.last()))); }
    } else {
        let ghost prev_local = local@;
        local.push(String::from_str(name));
        proof { lemma_name_views_push(prev_local, local@.last()); }
        assert(diag_views(out@) =~= diag_views(prev));
    }
}

// ---------------------------------------------------------------------------
// Stitches and labels of a flow.

/// The error for a stitch named like a global.
pub open spec fn stitch_check(child: Flow, globals: Seq<Seq<char>>) -> Seq<DiagView> {
    if globals.contains(child.name@) {
        seq![(DiagnosticSeverity::Error, conflict_message("stitch"@, child.name@, "var"@), first_span_spec(child.weave.content@))]
    } else {
        Seq::empty()
    }
}

/// The label errors of a flow and its stitches, and the stitches named like
/// a global.
pub open spec fn subflow_names(f: Flow, globals: Seq<Seq<char>>) -> Seq<DiagView>
    decreases f, 0nat,
{
    points_all(f.weave.content@, globals, true) + subflow_children(f.child_flows@, globals)
}

pub open spec fn subflow_children(fs: Seq<Flow>, globals: Seq<Seq<char>>) -> Seq<DiagView>
    decreases fs, 1nat,
{
    if fs.len() == 0 {
        Seq::empty()
    } else {
        subflow_children(fs.drop_last(), globals) + stitch_check(fs.last(), globals) + subflow_names(fs.last(), globals)
    }
}

fn check_subflow_names(f: &Flow, globals: &Vec<String>, out: &mut Vec<Diagnostic>)
    ensures
        diag_views(final(out)@) == diag_views(old(out)@) + subflow_names(*f, name_views(globals@)),
    decreases *f, 0nat,
{
    let ghost g = name_views(globals@);
    check_weave_points(&f.weave.content, globals, true, out);
    let ghost after_points = diag_views(out@);
    let ghost cs = f.child_flows@;
    let mut i: usize = 0;
    assert(diag_views(out@) =~= after_points + subflow_children(cs.take(0), g));
    while i < f.child_flows.len()
        invariant
            i <= cs.len(),
            cs == f.child_flows@,
            g == name_views(globals@),
            diag_views(out@) == after_points + subflow_children(cs.take(i as int), g),
        decreases f.child_flows.len() - i,
    {
        proof {
            assert(decreases_to!(*f => f.child_flows));
            assert(decreases_to!(f.child_flows => f.child_flows@));
            assert(decreases_to!(f.child_flows@ => f.child_flows@[i as int]));
            assert(cs.take(i + 1).drop_last() =~= cs.take(i as int));
        }
        let child = &f.child_flows[i];
        let ghost mid = diag_views(out@);
        if list_has(globals, child.name.as_str()) {
            let ghost prev = out@;
            out.push(name_conflict_diagnostic("stitch", child.name.as_str(), NameKind::Var, first_span_in_weave(&child.weave)));
            proof { assert(diag_views(out@) =~= diag_views(prev).push(crate::diagnostic::diag_view(out@.last()))); }
        }
        assert(diag_views(out@) =~= mid + stitch_check(*child, g));
        check_subflow_names(child, globals, out);
        assert(diag_views(out@) =~= after_points + subflow_children(cs.take(i + 1), g));
        i = i + 1;
    }
    assert(cs.take(cs.len() as int) =~= cs);
}

// ---------------------------------------------------------------------------
// Arguments.

/// The errors for the `n`-th argument on: a clash with a top-level flow, or
/// else with a global, and a repeated name; with the names seen so far.
pub open spec fn arguments_prefix(args: Seq<FlowArgument>, n: int, top: Seq<Flow>, globals: Seq<Seq<char>>) -> (Seq<DiagView>, Seq<Seq<char>>)
    decreases n,
{
    if n <= 0 || n > args.len() {
        (Seq::empty(), Seq::empty())
    } else {
        let prev = arguments_prefix(args, n - 1, top, globals);
        let a = args[n - 1];
        let clash = match top_kind(top, a.name@) {
            Some(k) => seq![(DiagnosticSeverity::Error, conflict_message("argument"@, a.name@, k.display_name_spec()), a.span)],
            None => if globals.contains(a.name@) {
                seq![(DiagnosticSeverity::Error, conflict_message("argument"@, a.name@, "var"@), a.span)]
            } else {
                Seq::empty()
            },
        };
        if prev.1.contains(a.name@) {
            (prev.0 + clash + seq![(DiagnosticSeverity::Error, "Multiple arguments with the same name: '"@ + a.name@ + "'"@, a.span)], prev.1)
        } else {
            (prev.0 + clash, prev.1.push(a.name@))
        }
    }
}

/// The argument errors of a flow and its stitches.
pub open spec fn arguments_check(f: Flow, top: Seq<Flow>, globals: Seq<Seq<char>>) -> Seq<DiagView>
    decreases f, 0nat,
{
    arguments_prefix(f.arguments@, f.arguments@.len() as int, top, globals).0 + arguments_children(f.child_flows@, top, globals)
}

pub open spec fn arguments_children(fs: Seq<Flow>, top: Seq<Flow>, globals: Seq<Seq<char>>) -> Seq<DiagView>
    decreases fs, 1nat,
{
    if fs.len() == 0 {
        Seq::empty()
    } else {
        arguments_children(fs.drop_last(), top, globals) + arguments_check(fs.last(), top, globals)
    }
}

fn check_flow_arguments(f: &Flow, top_level: &Vec<Flow>, globals: &Vec<String>, out: &mut Vec<Diagnostic>)
    ensures
        diag_views(final(out)@) == diag_views(old(out)@) + arguments_check(*f, top_level@, name_views(globals@)),
    decreases *f, 0nat,
{
    let ghost before = diag_views(out@);
    let ghost g = name_views(globals@);
    let ghost args = f.arguments@;
    let mut seen: Vec<String> = Vec::new();
    let mut i: usize = 0;
    assert(name_views(seen@) =~= arguments_prefix(args, 0, top_level@, g).1);
    assert(diag_views(out@) =~= before + arguments_prefix(args, 0, top_level@, g).0);
    while i < f.arguments.len()
        invariant
            i <= args.len(),
            args == f.arguments@,
            g == name_views(globals@),
            diag_views(out@) == before + arguments_prefix(args, i as int, top_level@, g).0,
            name_views(seen@) == arguments_prefix(args, i as int, top_level@, g).1,
        decreases f.arguments.len() - i,
    {
        let argument = &f.arguments[i];
        let ghost prev = out@;
        match top_level_kind(top_level, argument.name.as_str()) {
            Some(kind) => {
                out.push(name_conflict_diagnostic("argument", argument.name.as_str(), kind, argument.span.duplicate()));
                proof { assert(diag_views(out@) =~= diag_views(prev).push(crate::diagnostic::diag_view(out@.last()))); }
            },
            None => {
                if list_has(globals, argument.name.as_str()) {
                    out.push(name_conflict_diagnostic("argument", argument.name.as_str(), NameKind::Var, argument.span.duplicate()));
                    proof { assert(diag_views(out@) =~= diag_views(prev).push(crate::diagnostic::diag_view(out@.last()))); }
                }
            },
        }
        let ghost after_clash = out@;
        if list_has(&seen, argument.name.as_str()) {
            let msg = concat3("Multiple arguments with the same name: '", argument.name.as_str(), "'");
            out.push(Diagnostic::error(argument.span.duplicate(), msg));
            proof { assert(diag_views(out@) =~= diag_views(after_clash).push(crate::diagnostic::diag_view(out@.last()))); }
        } else {
            let ghost prev_seen = seen@;
            seen.push(owned(argument.name.as_str()));
            proof { lemma_name_views_push(prev_seen, seen@.last()); }
        }
        assert(diag_views(out@) =~= before + arguments_prefix(args, i + 1, top_level@, g).0);
        i = i + 1;
    }
    let ghost after_own = diag_views(out@);
    let ghost cs = f.child_flows@;
    let mut i: usize = 0;
    assert(diag_views(out@) =~= after_own + arguments_children(cs.take(0), top_level@, g));
    while i < f.child_flows.len()
        invariant
            i <= cs.len(),
            cs == f.child_flows@,
            g == name_views(globals@),
            diag_views(out@) == after_own + arguments_children(cs.take(i as int), top_level@, g),
        decreases f.child_flows.len() - i,
    {
        proof {
            assert(decreases_to!(*f => f.child_flows));
            assert(decreases_to!(f.child_flows => f.child_flows@));
            assert(decreases_to!(f.child_flows@ => f.child_flows@[i as int]));
            assert(cs.take(i + 1).drop_last() =~= cs.take(i as int));
        }
        check_flow_arguments(&f.child_flows[i], top_level, globals, out);
        assert(diag_views(out@) =~= after_own + arguments_children(cs.take(i + 1), top_level@, g));
        i = i + 1;
    }
    assert(cs.take(cs.len() as int) =~= cs);
    assert(diag_views(out@) =~= before + arguments_check(*f, top_level@, g));
}

// ---------------------------------------------------------------------------
// Temporaries named like an argument.

pub open spec fn argument_names(args: Seq<FlowArgument>) -> Seq<Seq<char>> {
    args.map_values(|a: FlowArgument| a.name@)
}

pub open spec fn temps_prefix(os: Seq<Object>, n: int, flow_name: Seq<char>, args: Seq<Seq<char>>) -> Seq<DiagView>
    decreases os, 1nat, n,
{
    if n <= 0 || n > os.len() {
        Seq::empty()
    } else {
        temps_prefix(os, n - 1, flow_name, args) + temps_object(os, n - 1, flow_name, args)
    }
}

pub open spec fn temps_object(os: Seq<Object>, i: int, flow_name: Seq<char>, args: Seq<Seq<char>>) -> Seq<DiagView>
    decreases os[i], 0nat, 0int,
{
    if 0 <= i < os.len() {
        match os[i] {
            Object::VariableAssignment(a) => if a.kind == AssignmentKind::Temporary && args.contains(a.name@) {
                seq![(DiagnosticSeverity::Error, "temp '"@ + a.name@ + "': name has already been used for an argument to "@ + flow_name, a.span)]
            } else {
                Seq::empty()
            },
            Object::Choice(c) => (match c.start_content {
                Some(sc) => temps_prefix(sc.objects@, sc.objects@.len() as int, flow_name, args),
                None => Seq::empty(),
            }) + temps_prefix(c.inner_content.objects@, c.inner_content.objects@.len() as int, flow_name, args),
            Object::Conditional(c) => temps_branches(c.branches@, c.branches@.len() as int, flow_name, args),
            Object::ContentList(c) => temps_prefix(c.objects@, c.objects@.len() as int, flow_name, args),
            Object::Weave(w) => temps_prefix(w.content@, w.content@.len() as int, flow_name, args),
            _ => Seq::empty(),
        }
    } else {
        Seq::empty()
    }
}

pub open spec fn temps_branches(bs: Seq<ConditionalBranch>, n: int, flow_name: Seq<char>, args: Seq<Seq<char>>) -> Seq<DiagView>
    decreases bs, 1nat, n,
{
    if n <= 0 || n > bs.len() {
        Seq::empty()
    } else {
        temps_branches(bs, n - 1, flow_name, args) + temps_prefix(bs[n - 1].content.content@, bs[n - 1].content.content@.len() as int, flow_name, args)
    }
}

/// The `temp` declarations named like an argument, in a flow with arguments
/// and in each of its stitches.
pub open spec fn temporaries_check(f: Flow) -> Seq<DiagView>
    decreases f, 0nat,
{
    (if f.arguments@.len() > 0 {
        temps_prefix(f.weave.content@, f.weave.content@.len() as int, f.name@, argument_names(f.arguments@))
    } else {
        Seq::empty()
    }) + temporaries_children(f.child_flows@)
}

pub open spec fn temporaries_children(fs: Seq<Flow>) -> Seq<DiagView>
    decreases fs, 1nat,
{
    if fs.len() == 0 {
        Seq::empty()
    } else {
        temporaries_children(fs.drop_last()) + temporaries_check(fs.last())
    }
}

fn check_temporaries_in_objects(os: &Vec<Object>, flow_name: &str, arguments: &Vec<String>, out: &mut Vec<Diagnostic>)
    ensures
        diag_views(final(out)@) == diag_views(old(out)@) + temps_prefix(os@, os@.len() as int, flow_name@, name_views(arguments@)),
    decreases os@, 1nat, os@.len(),
{
    let ghost before = diag_views(out@);
    let mut i: usize = 0;
    assert(diag_views(out@) =~= before + temps_prefix(os@, 0, flow_name@, name_views(arguments@)));
    while i < os.len()
        invariant
            i <= os@.len(),
            diag_views(out@) == before + temps_prefix(os@, i as int, flow_name@, name_views(arguments@)),
        decreases os.len() - i,
    {
        proof { assert(decreases_to!(os@ => os@[i as int])); }
        check_temporaries_in_object(os, i, flow_name, arguments, out);
        i = i + 1;
    }
}

fn check_temporaries_in_object(os: &Vec<Object>, i: usize, flow_name: &str, arguments: &Vec<String>, out: &mut Vec<Diagnostic>)
    requires
        i < os@.len(),
    ensures
        diag_views(final(out)@) == diag_views(old(out)@) + temps_object(os@, i as int, flow_name@, name_views(arguments@)),
    decreases os@[i as int], 0nat, 0int,
{
    let ghost before = diag_views(out@);
    let ghost args = name_views(arguments@);
    let o = &os[i];
    match o {
        Object::VariableAssignment(a) => {
            if a.kind == AssignmentKind::Temporary && list_has(arguments, a.name.as_str()) {
                let mut msg = concat3("temp '", a.name.as_str(), "': name has already been used for an argument to ");
                msg.append(flow_name);
                let ghost prev = out@;
                out.push(Diagnostic::error(a.span.duplicate(), msg));
                proof { assert(diag_views(out@) =~= diag_views(prev).push(crate::diagnostic::diag_view(out@.last()))); }
            }
            assert(diag_views(out@) =~= before + temps_object(os@, i as int, flow_name@, args));
        },
        Object::Choice(c) => {
            match &c.start_content {
                Some(sc) => {
                    proof {
                        assert(decreases_to!(*o => (*o)->Choice_0));
                        assert(decreases_to!((*o)->Choice_0 => c.start_content));
                        assert(decreases_to!(c.start_content => sc));
                        assert(decreases_to!(sc => sc.objects));
                        assert(decreases_to!(sc.objects => sc.objects@));
                    }
                    check_temporaries_in_objects(&sc.objects, flow_name, arguments, out);
                },
                None => {},
            }
            proof {
                assert(decreases_to!(*o => (*o)->Choice_0));
                assert(decreases_to!((*o)->Choice_0 => c.inner_content));
                assert(decreases_to!(c.inner_content => c.inner_content.objects));
                assert(decreases_to!(c.inner_content.objects => c.inner_content.objects@));
            }
            check_temporaries_in_objects(&c.inner_content.objects, flow_name, arguments, out);
            assert(diag_views(out@) =~= before + temps_object(os@, i as int, flow_name@, args));
        },
        Object::Conditional(c) => {
            let ghost bs = c.branches@;
            let mut b: usize = 0;
            assert(diag_views(out@) =~= before + temps_branches(bs, 0, flow_name@, args));
            while b < c.branches.len()
                invariant
                    i < os@.len(),
                    *o == os@[i as int],
                    os@[i as int] is Conditional,
                    (os@[i as int])->Conditional_0 == *c,
                    bs == c.branches@,
                    b <= bs.len(),
                    args == name_views(arguments@),
                    diag_views(out@) == before + temps_branches(bs, b as int, flow_name@, args),
                decreases c.branches.len() - b,
            {
                proof {
                    assert(decreases_to!(os@[i as int] => (os@[i as int])->Conditional_0));
                    assert(decreases_to!((os@[i as int])->Conditional_0 => c.branches));
                    assert(decreases_to!(c.branches => c.branches@));
                    assert(decreases_to!(c.branches@ => c.branches@[b as int]));
                    assert(decreases_to!(c.branches@[b as int] => c.branches@[b as int].content));
                    assert(decreases_to!(c.branches@[b as int].content => c.branches@[b as int].content.content));
                    assert(decreases_to!(c.branches@[b as int].content.content => c.branches@[b as int].content.content@));
                }
                check_temporaries_in_objects(&c.branches[b].content.content, flow_name, arguments, out);
                b = b + 1;
            }
        },
        Object::ContentList(c) => {
            proof {
                assert(decreases_to!(*o => (*o)->ContentList_0));
                assert(decreases_to!((*o)->ContentList_0 => c.objects));
                assert(decreases_to!(c.objects => c.objects@));
            }
            check_temporaries_in_objects(&c.objects, flow_name, arguments, out);
        },
        Object::Weave(w) => {
            proof {
                assert(decreases_to!(*o => (*o)->Weave_0));
                assert(decreases_to!((*o)->Weave_0 => w.content));
                assert(decreases_to!(w.content => w.content@));
            }
            check_temporaries_in_objects(&w.content, flow_name, arguments, out);
        },
        _ => {
            assert(diag_views(out@) =~= before + temps_object(os@, i as int, flow_name@, args));
        },
    }
}

fn check_temporaries(f: &Flow, out: &mut Vec<Diagnostic>)
    ensures
        diag_views(final(out)@) == diag_views(old(out)@) + temporaries_check(*f),
    decreases *f, 0nat,
{
    let ghost before = diag_views(out@);
    let mut arguments: Vec<String> = Vec::new();
    let mut i: usize = 0;
    while i < f.arguments.len()
        invariant
            i <= f.arguments@.len(),
            name_views(arguments@) == argument_names(f.arguments@.take(i as int)),
        decreases f.arguments.len() - i,
    {
        let ghost prev = arguments@;
        arguments.push(owned(f.arguments[i].name.as_str()));
        proof {
            lemma_name_views_push(prev, arguments@.last());
            assert(argument_names(f.arguments@.take(i + 1)) =~= argument_names(f.arguments@.take(i as int)).push(f.arguments@[i as int].name@));
        }
        i = i + 1;
    }
    assert(f.arguments@.take(f.arguments@.len() as int) =~= f.arguments@);
    if arguments.len() > 0 {
        check_temporaries_in_objects(&f.weave.content, f.name.as_str(), &arguments, out);
    }
    let ghost after_own = diag_views(out@);
    assert(after_own =~= before + (if f.arguments@.len() > 0 {
        temps_prefix(f.weave.content@, f.weave.content@.len() as int, f.name@, argument_names(f.arguments@))
    } else {
        Seq::empty()
    }));
    let ghost cs = f.child_flows@;
    let mut i: usize = 0;
    assert(diag_views(out@) =~= after_own + temporaries_children(cs.take(0)));
    while i < f.child_flows.len()
        invariant
            i <= cs.len(),
            cs == f.child_flows@,
            diag_views(out@) == after_own + temporaries_children(cs.take(i as int)),
        decreases f.child_flows.len() - i,
    {
        proof {
            assert(decreases_to!(*f => f.child_flows));
            assert(decreases_to!(f.child_flows => f.child_flows@));
            assert(decreases_to!(f.child_flows@ => f.child_flows@[i as int]));
            assert(cs.take(i + 1).drop_last() =~= cs.take(i as int));
        }
        check_temporaries(&f.child_flows[i], out);
        assert(diag_views(out@) =~= after_own + temporaries_children(cs.take(i + 1)));
        i = i + 1;
    }
    assert(cs.take(cs.len() as int) =~= cs);
}

// ---------------------------------------------------------------------------
// Scopes.

/// The checks of each of the first flows `fs` of a scope whose top-level
/// flows are `top`.
pub open spec fn scope_flows(fs: Seq<Flow>, top: Seq<Flow>, globals: Seq<Seq<char>>) -> Seq<DiagView>
    decreases fs.len(),
{
    if fs.len() == 0 {
        Seq::empty()
    } else {
        scope_flows(fs.drop_last(), top, globals) + subflow_names(fs.last(), globals) + arguments_check(fs.last(), top, globals)
            + temporaries_check(fs.last())
    }
}

/// The name checks of one scope: its weave's labels, then each flow's.
pub open spec fn scope_check(w: Weave, fs: Seq<Flow>) -> Seq<DiagView> {
    let g = scope_globals(w, fs);
    points_all(w.content@, g, true) + scope_flows(fs, fs, g)
}

/// The name checks of the modules `ms`, one after the other.
pub open spec fn modules_naming(ms: Seq<Module>) -> Seq<DiagView>
    decreases ms.len(),
{
    if ms.len() == 0 {
        Seq::empty()
    } else {
        modules_naming(ms.drop_last()) + scope_check(ms.last().weave, ms.last().flows@)
    }
}

/// The name checks of a story: the root scope, then each module.
pub open spec fn naming_checks(story: Story) -> Seq<DiagView> {
    scope_check(story.root_weave, story.flows@) + modules_naming(story.modules@)
}

/// The name checks of one scope: the root story or one module.
fn check_scope(weave: &Weave, flows: &Vec<Flow>, out: &mut Vec<Diagnostic>)
    ensures
        diag_views(final(out)@) == diag_views(old(out)@) + scope_check(*weave, flows@),
{
    let ghost before = diag_views(out@);
    let globals = scoped_globals(weave, flows);
    let ghost g = name_views(globals@);
    check_weave_points(&weave.content, &globals, true, out);
    let ghost after_points = diag_views(out@);
    let mut i: usize = 0;
    assert(diag_views(out@) =~= after_points + scope_flows(flows@.take(0), flows@, g));
    while i < flows.len()
        invariant
            i <= flows@.len(),
            g == name_views(globals@),
            diag_views(out@) == after_points + scope_flows(flows@.take(i as int), flows@, g),
        decreases flows.len() - i,
    {
        proof { assert(flows@.take(i + 1).drop_last() =~= flows@.take(i as int)); }
        check_subflow_names(&flows[i], &globals, out);
        check_flow_arguments(&flows[i], flows, &globals, out);
        check_temporaries(&flows[i], out);
        assert(diag_views(out@) =~= after_points + scope_flows(flows@.take(i + 1), flows@, g));
        i = i + 1;
    }
    assert(flows@.take(flows@.len() as int) =~= flows@);
    assert(diag_views(out@) =~= before + scope_check(*weave, flows@));
}

/// The name clashes of `story`, scope by scope: the root story, then each
/// module.
pub fn naming_diagnostics(story: &Story) -> (r: Vec<Diagnostic>)
    ensures
        diag_views(r@) == naming_checks(*story),
{
    let mut out: Vec<Diagnostic> = Vec::new();
    assert(diag_views(out@) =~= Seq::<DiagView>::empty());
    check_scope(&story.root_weave, &story.flows, &mut out);
    let ghost after_root = diag_views(out@);
    let ghost ms = story.modules@;
    let mut i: usize = 0;
    assert(diag_views(out@) =~= after_root + modules_naming(ms.take(0)));
    while i < story.modules.len()
        invariant
            i <= ms.len(),
            ms == story.modules@,
            diag_views(out@) == after_root + modules_naming(ms.take(i as int)),
        decreases story.modules.len() - i,
    {
        proof { assert(ms.take(i + 1).drop_last() =~= ms.take(i as int)); }
        check_scope(&story.modules[i].weave, &story.modules[i].flows, &mut out);
        assert(diag_views(out@) =~= after_root + modules_naming(ms.take(i + 1)));
        i = i + 1;
    }
    assert(ms.take(ms.len() as int) =~= ms);
    assert(diag_views(out@) =~= naming_checks(*story));
    out
}

} // verus!
