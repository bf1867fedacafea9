//! Control flow of knots, stitches and functions: loose ends, returns,
//! what functions may contain, conditions, and where global variables and
//! nested choices may stand.
use vstd::prelude::*;

use crate::analysis::inference::{bool_v, builtin_type, display, infer, infer_expression_type, is_primitive, resolve_target, resolve_target_symbol, view_display};
use crate::analysis::sites::{collect_sites, opt_str_view, opt_string_view, site_view, sites_view, story_sites, Site, SiteView};
use crate::analysis::span::{first_span_in_weave, object_span, object_span_spec};
use crate::analysis::structs::{build_type_index, is_index_of};
use crate::analysis::types::{find_last_variable, last_variable, visible_variable, TypeIndex, VariableKind};
use crate::diagnostic::{diag_views, DiagView, Diagnostic, DiagnosticSeverity};
use crate::parsed::{
    AssignmentKind, Choice, ContentList, DivertTarget, Expression, Flow, FlowLevel, Object,
    PrimitiveType, Return, Story, TypeName, TypeView, Weave,
};
use crate::source::SourceSpan;
use crate::text::{chars_of, concat3, owned};

verus! {

/// Whether `s` is empty or holds only whitespace.
pub open spec fn is_blank(s: Seq<char>) -> bool {
    forall|i: int| 0 <= i < s.len() ==> (s[i] == ' ' || s[i] == '\t' || s[i] == '\n' || s[i] == '\r')
}

fn blank_text(s: &str) -> (r: bool)
    ensures
        r == is_blank(s@),
{
    let chars = chars_of(s);
    let mut i: usize = 0;
    while i < chars.len()
        invariant
            chars@ == s@,
            i <= chars@.len(),
            forall|k: int| 0 <= k < i ==> (chars@[k] == ' ' || chars@[k] == '\t' || chars@[k] == '\n' || chars@[k] == '\r'),
        decreases chars.len() - i,
    {
        let c = chars[i];
        if !(c == ' ' || c == '\t' || c == '\n' || c == '\r') {
            return false;
        }
        i = i + 1;
    }
    true
}

/// Objects that do not decide whether a flow ends: blank text and
/// declarations.
pub open spec fn is_ignored(o: Object) -> bool {
    match o {
        Object::Text(t) => is_blank(t.text@),
        Object::ConstantDeclaration(_) => true,
        Object::ExternalDeclaration(_) => true,
        Object::StructDeclaration(_) => true,
        Object::VariableAssignment(a) => a.kind == AssignmentKind::Global,
        _ => false,
    }
}

fn ignored(o: &Object) -> (r: bool)
    ensures
        r == is_ignored(*o),
{
    match o {
        Object::Text(t) => blank_text(t.text.as_str()),
        Object::ConstantDeclaration(_) => true,
        Object::ExternalDeclaration(_) => true,
        Object::StructDeclaration(_) => true,
        Object::VariableAssignment(a) => a.kind == AssignmentKind::Global,
        _ => false,
    }
}

/// The position of the last object of `os` that is not ignored, or -1.
pub open spec fn last_significant(os: Seq<Object>) -> int
    decreases os.len(),
{
    if os.len() == 0 {
        -1
    } else if !is_ignored(os.last()) {
        os.len() - 1
    } else {
        last_significant(os.drop_last())
    }
}

proof fn lemma_last_significant_bound(os: Seq<Object>)
    ensures
        -1 <= last_significant(os) < os.len(),
    decreases os.len(),
{
    if os.len() > 0 && is_ignored(os.last()) {
        lemma_last_significant_bound(os.drop_last());
    }
}

fn last_significant_index(os: &Vec<Object>) -> (r: Option<usize>)
    ensures
        match r {
            Some(i) => last_significant(os@) == i && i < os@.len(),
            None => last_significant(os@) == -1,
        },
{
    let mut n: usize = os.len();
    assert(os@.take(n as int) =~= os@);
    while n > 0
        invariant
            n <= os@.len(),
            last_significant(os@) == last_significant(os@.take(n as int)),
        decreases n,
    {
        assert(os@.take(n as int).drop_last() =~= os@.take(n - 1));
        assert(os@.take(n as int).last() == os@[n - 1]);
        if !ignored(&os[n - 1]) {
            return Some(n - 1);
        }
        n = n - 1;
    }
    None
}

/// Whether the flow cannot run past `o`: a divert that is no tunnel, a
/// return from a tunnel, a choice, a return, or a container whose last significant object (in every branch of a
/// conditional with an `else`) does so.
pub open spec fn terminates(o: Object) -> bool
    decreases o, 0nat,
{
    match o {
        Object::Divert(d) => !d.is_tunnel,
        Object::TunnelOnwards(_) | Object::Choice(_) | Object::Return(_) => true,
        Object::ContentList(c) => list_terminates(c.objects@),
        Object::Weave(w) => list_terminates(w.content@),
        Object::Conditional(c) => c.branches@.len() > 0 && c.branches@.last().own_condition is None && (c.branches@.len() >= 2
            || c.initial_condition is None) && branches_terminate(c.branches@),
        _ => false,
    }
}

pub open spec fn list_terminates(os: Seq<Object>) -> bool
    decreases os, 1nat,
{
    let i = last_significant(os);
    0 <= i < os.len() && terminates(os[i])
}

pub open spec fn branches_terminate(bs: Seq<crate::parsed::ConditionalBranch>) -> bool
    decreases bs, 1nat,
{
    if bs.len() == 0 {
        true
    } else {
        branches_terminate(bs.drop_last()) && list_terminates(bs.last().content.content@)
    }
}

fn object_terminates(o: &Object) -> (r: bool)
    ensures
        r == terminates(*o),
    decreases *o, 0nat,
{
    match o {
        Object::Divert(d) => !d.is_tunnel,
        Object::TunnelOnwards(_) | Object::Choice(_) | Object::Return(_) => true,
        Object::ContentList(c) => {
            proof {
                assert(decreases_to!(*o => (*o)->ContentList_0));
                assert(decreases_to!((*o)->ContentList_0 => c.objects));
                assert(decreases_to!(c.objects => c.objects@));
            }
            objects_terminate(&c.objects)
        },
        Object::Weave(w) => {
            proof {
                assert(decreases_to!(*o => (*o)->Weave_0));
                assert(decreases_to!((*o)->Weave_0 => w.content));
                assert(decreases_to!(w.content => w.content@));
            }
            objects_terminate(&w.content)
        },
        Object::Conditional(c) => {
            if c.branches.len() == 0 || c.branches[c.branches.len() - 1].own_condition.is_some() || (c.branches.len() < 2
                && c.initial_condition.is_some()) {
                return false;
            }
            let ghost bs = c.branches@;
            let mut i: usize = 0;
            assert(branches_terminate(bs.take(0)));
            while i < c.branches.len()
                invariant
                    i <= bs.len(),
                    bs == c.branches@,
                    *o is Conditional,
                    (*o)->Conditional_0 == *c,
                    branches_terminate(bs.take(i as int)),
                decreases c.branches.len() - i,
            {
                proof {
                    assert(decreases_to!(*o => (*o)->Conditional_0));
                    assert(decreases_to!((*o)->Conditional_0 => c.branches));
                    assert(decreases_to!(c.branches => c.branches@));
                    assert(decreases_to!(c.branches@ => c.branches@[i as int]));
                    assert(decreases_to!(c.branches@[i as int] => c.branches@[i as int].content));
                    assert(decreases_to!(c.branches@[i as int].content => c.branches@[i as int].content.content));
                    assert(decreases_to!(c.branches@[i as int].content.content => c.branches@[i as int].content.content@));
                    assert(bs.take(i + 1).drop_last() =~= bs.take(i as int));
                }
                if !objects_terminate(&c.branches[i].content.content) {
                    proof { lemma_branches_prefix(bs, i + 1); }
                    return false;
                }
                i = i + 1;
            }
            assert(bs.take(bs.len() as int) =~= bs);
            true
        },
        _ => false,
    }
}

proof fn lemma_branches_prefix(bs: Seq<crate::parsed::ConditionalBranch>, n: int)
    requires
        0 <= n <= bs.len(),
        !branches_terminate(bs.take(n)),
    ensures
        !branches_terminate(bs),
    decreases bs.len(),
{
    if n < bs.len() {
        assert(bs.drop_last().take(n) =~= bs.take(n));
        lemma_branches_prefix(bs.drop_last(), n);
    } else {
        assert(bs.take(n) =~= bs);
    }
}

fn objects_terminate(os: &Vec<Object>) -> (r: bool)
    ensures
        r == list_terminates(os@),
    decreases os@, 1nat,
{
    match last_significant_index(os) {
        Some(i) => {
            proof { assert(decreases_to!(os@ => os@[i as int])); }
            object_terminates(&os[i])
        },
        None => false,
    }
}

/// Where a flow whose content is `os` runs out without ending, if it does.
pub open spec fn loose_end(os: Seq<Object>) -> Option<SourceSpan> {
    let i = last_significant(os);
    if 0 <= i < os.len() && !terminates(os[i]) {
        Some(object_span_spec(os[i]))
    } else {
        None
    }
}

pub fn loose_end_span(w: &Weave) -> (r: Option<SourceSpan>)
    ensures
        r == loose_end(w.content@),
{
    match last_significant_index(&w.content) {
        Some(i) => if object_terminates(&w.content[i]) {
            None
        } else {
            Some(object_span(&w.content[i]))
        },
        None => None,
    }
}

// ---------------------------------------------------------------------------
// Returns.

/// The first `return` in `os`, nested content included.
pub open spec fn return_in_objects(os: Seq<Object>) -> Option<Return>
    decreases os, 1nat,
{
    if os.len() == 0 {
        None
    } else {
        match return_in_object(os[0]) {
            Some(r) => Some(r),
            None => return_in_objects(os.drop_first()),
        }
    }
}

pub open spec fn return_in_object(o: Object) -> Option<Return>
    decreases o, 0nat,
{
    match o {
        Object::Return(r) => Some(r),
        Object::ContentList(c) => return_in_objects(c.objects@),
        Object::Weave(w) => return_in_objects(w.content@),
        Object::Conditional(c) => return_in_branches(c.branches@),
        Object::Choice(c) => match (match c.start_content {
            Some(sc) => return_in_objects(sc.objects@),
            None => None,
        }) {
            Some(r) => Some(r),
            None => return_in_objects(c.inner_content.objects@),
        },
        _ => None,
    }
}

pub open spec fn return_in_branches(bs: Seq<crate::parsed::ConditionalBranch>) -> Option<Return>
    decreases bs, 1nat,
{
    if bs.len() == 0 {
        None
    } else {
        match return_in_objects(bs[0].content.content@) {
            Some(r) => Some(r),
            None => return_in_branches(bs.drop_first()),
        }
    }
}

pub open spec fn return_in_flow(f: Flow) -> Option<Return>
    decreases f, 0nat,
{
    match return_in_objects(f.weave.content@) {
        Some(r) => Some(r),
        None => return_in_flows(f.child_flows@),
    }
}

pub open spec fn return_in_flows(fs: Seq<Flow>) -> Option<Return>
    decreases fs, 1nat,
{
    if fs.len() == 0 {
        None
    } else {
        match return_in_flow(fs[0]) {
            Some(r) => Some(r),
            None => return_in_flows(fs.drop_first()),
        }
    }
}

fn find_return_in_objects(os: &Vec<Object>) -> (r: Option<&Return>)
    ensures
        match r {
            Some(x) => return_in_objects(os@) == Some(*x),
            None => return_in_objects(os@) is None,
        },
    decreases os@, 1nat,
{
    let mut i: usize = 0;
    assert(os@.skip(0) =~= os@);
    while i < os.len()
        invariant
            i <= os@.len(),
            return_in_objects(os@) == return_in_objects(os@.skip(i as int)),
        decreases os.len() - i,
    {
        proof {
            assert(decreases_to!(os@ => os@[i as int]));
            assert(os@.skip(i as int)[0] == os@[i as int]);
            assert(os@.skip(i as int).drop_first() =~= os@.skip(i + 1));
        }
        match find_return_in_object(&os[i]) {
            Some(r) => {
                return Some(r);
            },
            None => {},
        }
        i = i + 1;
    }
    None
}

fn find_return_in_branches(bs: &Vec<crate::parsed::ConditionalBranch>) -> (r: Option<&Return>)
    ensures
        match r {
            Some(x) => return_in_branches(bs@) == Some(*x),
            None => return_in_branches(bs@) is None,
        },
    decreases bs@, 1nat,
{
    let mut i: usize = 0;
    assert(bs@.skip(0) =~= bs@);
    while i < bs.len()
        invariant
            i <= bs@.len(),
            return_in_branches(bs@) == return_in_branches(bs@.skip(i as int)),
        decreases bs.len() - i,
    {
        proof {
            assert(decreases_to!(bs@ => bs@[i as int]));
            assert(decreases_to!(bs@[i as int] => bs@[i as int].content));
            assert(decreases_to!(bs@[i as int].content => bs@[i as int].content.content));
            assert(decreases_to!(bs@[i as int].content.content => bs@[i as int].content.content@));
            assert(bs@.skip(i as int)[0] == bs@[i as int]);
            assert(bs@.skip(i as int).drop_first() =~= bs@.skip(i + 1));
        }
        match find_return_in_objects(&bs[i].content.content) {
            Some(r) => {
                return Some(r);
            },
            None => {},
        }
        i = i + 1;
    }
    None
}

fn find_return_in_object(o: &Object) -> (r: Option<&Return>)
    ensures
        match r {
            Some(x) => return_in_object(*o) == Some(*x),
            None => return_in_object(*o) is None,
        },
    decreases *o, 0nat,
{
    match o {
        Object::Return(r) => Some(r),
        Object::ContentList(c) => {
            proof {
                assert(decreases_to!(*o => (*o)->ContentList_0));
                assert(decreases_to!((*o)->ContentList_0 => c.objects));
                assert(decreases_to!(c.objects => c.objects@));
            }
            find_return_in_objects(&c.objects)
        },
        Object::Weave(w) => {
            proof {
                assert(decreases_to!(*o => (*o)->Weave_0));
                assert(decreases_to!((*o)->Weave_0 => w.content));
                assert(decreases_to!(w.content => w.content@));
            }
            find_return_in_objects(&w.content)
        },
        Object::Conditional(c) => {
            proof {
                assert(decreases_to!(*o => (*o)->Conditional_0));
                assert(decreases_to!((*o)->Conditional_0 => c.branches));
                assert(decreases_to!(c.branches => c.branches@));
            }
            find_return_in_branches(&c.branches)
        },
        Object::Choice(c) => {
            match &c.start_content {
                Some(sc) => {
                    proof {
                        assert(decreases_to!(*o => (*o)->Choice_0));
                        assert(decreases_to!((*o)->Choice_0 => c.start_content));
                        assert(decreases_to!(c.start_content => sc));
                        assert(decreases_to!(sc => sc.objects));
                        assert(decreases_to!(sc.objects => sc.objects@));
                    }
                    match find_return_in_objects(&sc.objects) {
                        Some(r) => {
                            return Some(r);
                        },
                        None => {},
                    }
                },
                None => {},
            }
            proof {
                assert(decreases_to!(*o => (*o)->Choice_0));
                assert(decreases_to!((*o)->Choice_0 => c.inner_content));
                assert(decreases_to!(c.inner_content => c.inner_content.objects));
                assert(decreases_to!(c.inner_content.objects => c.inner_content.objects@));
            }
            find_return_in_objects(&c.inner_content.objects)
        },
        _ => None,
    }
}

fn find_return_in_flows(fs: &Vec<Flow>) -> (r: Option<&Return>)
    ensures
        match r {
            Some(x) => return_in_flows(fs@) == Some(*x),
            None => return_in_flows(fs@) is None,
        },
    decreases fs@, 1nat,
{
    let mut i: usize = 0;
    assert(fs@.skip(0) =~= fs@);
    while i < fs.len()
        invariant
            i <= fs@.len(),
            return_in_flows(fs@) == return_in_flows(fs@.skip(i as int)),
        decreases fs.len() - i,
    {
        proof {
            assert(decreases_to!(fs@ => fs@[i as int]));
            assert(fs@.skip(i as int)[0] == fs@[i as int]);
            assert(fs@.skip(i as int).drop_first() =~= fs@.skip(i + 1));
        }
        match find_return_in_flow(&fs[i]) {
            Some(r) => {
                return Some(r);
            },
            None => {},
        }
        i = i + 1;
    }
    None
}

fn find_return_in_flow(f: &Flow) -> (r: Option<&Return>)
    ensures
        match r {
            Some(x) => return_in_flow(*f) == Some(*x),
            None => return_in_flow(*f) is None,
        },
    decreases *f, 0nat,
{
    match find_return_in_objects(&f.weave.content) {
        Some(r) => {
            return Some(r);
        },
        None => {},
    }
    proof {
        assert(decreases_to!(*f => f.child_flows));
        assert(decreases_to!(f.child_flows => f.child_flows@));
    }
    find_return_in_flows(&f.child_flows)
}

// ---------------------------------------------------------------------------
// Global variables away from the top level.

pub const NESTED_GLOBAL_MESSAGE: &'static str = "Global VAR declarations must appear at the story top level, outside knots, stitches, functions, choices, and conditionals.";

pub open spec fn nested_global_message() -> Seq<char> {
    "Global VAR declarations must appear at the story top level, outside knots, stitches, functions, choices, and conditionals."@
}

/// The errors for global `VAR`s in `o`, which stands at the top level when
/// `top`; nested content never does.
pub open spec fn scope_object(o: Object, top: bool) -> Seq<DiagView>
    decreases o, 0nat,
{
    match o {
        Object::VariableAssignment(a) => if a.kind == AssignmentKind::Global && !top {
            seq![(DiagnosticSeverity::Error, nested_global_message(), a.span)]
        } else {
            Seq::empty()
        },
        Object::Choice(c) => (match c.start_content {
            Some(sc) => scope_objects(sc.objects@, false),
            None => Seq::empty(),
        }) + scope_objects(c.inner_content.objects@, false),
        Object::ContentList(c) => scope_objects(c.objects@, false),
        Object::Conditional(c) => scope_branches(c.branches@),
        Object::Weave(w) => scope_objects(w.content@, false),
        _ => Seq::empty(),
    }
}

pub open spec fn scope_objects(os: Seq<Object>, top: bool) -> Seq<DiagView>
    decreases os, 1nat,
{
    if os.len() == 0 {
        Seq::empty()
    } else {
        scope_objects(os.drop_last(), top) + scope_object(os.last(), top)
    }
}

pub open spec fn scope_branches(bs: Seq<crate::parsed::ConditionalBranch>) -> Seq<DiagView>
    decreases bs, 1nat,
{
    if bs.len() == 0 {
        Seq::empty()
    } else {
        scope_branches(bs.drop_last()) + scope_objects(bs.last().content.content@, false)
    }
}

pub open spec fn scope_flow(f: Flow) -> Seq<DiagView>
    decreases f, 0nat,
{
    scope_objects(f.weave.content@, false) + scope_flows(f.child_flows@)
}

pub open spec fn scope_flows(fs: Seq<Flow>) -> Seq<DiagView>
    decreases fs, 1nat,
{
    if fs.len() == 0 {
        Seq::empty()
    } else {
        scope_flows(fs.drop_last()) + scope_flow(fs.last())
    }
}

pub open spec fn scope_modules(ms: Seq<crate::parsed::Module>) -> Seq<DiagView>
    decreases ms.len(),
{
    if ms.len() == 0 {
        Seq::empty()
    } else {
        scope_modules(ms.drop_last()) + scope_objects(ms.last().weave.content@, true) + scope_flows(ms.last().flows@)
    }
}

fn check_scope_objects(os: &Vec<Object>, top: bool, out: &mut Vec<Diagnostic>)
    ensures
        diag_views(final(out)@) == diag_views(old(out)@) + scope_objects(os@, top),
    decreases os@, 1nat,
{
    let ghost before = diag_views(out@);
    let mut i: usize = 0;
    assert(diag_views(out@) =~= before + scope_objects(os@.take(0), top));
    while i < os.len()
        invariant
            i <= os@.len(),
            diag_views(out@) == before + scope_objects(os@.take(i as int), top),
        decreases os.len() - i,
    {
        proof {
            assert(decreases_to!(os@ => os@[i as int]));
            assert(os@.take(i + 1).drop_last() =~= os@.take(i as int));
        }
        check_scope_object(&os[i], top, out);
        assert(diag_views(out@) =~= before + scope_objects(os@.take(i + 1), top));
        i = i + 1;
    }
    assert(os@.take(os@.len() as int) =~= os@);
}

fn check_scope_branches(bs: &Vec<crate::parsed::ConditionalBranch>, out: &mut Vec<Diagnostic>)
    ensures
        diag_views(final(out)@) == diag_views(old(out)@) + scope_branches(bs@),
    decreases bs@, 1nat,
{
    let ghost before = diag_views(out@);
    let mut i: usize = 0;
    assert(diag_views(out@) =~= before + scope_branches(bs@.take(0)));
    while i < bs.len()
        invariant
            i <= bs@.len(),
            diag_views(out@) == before + scope_branches(bs@.take(i as int)),
        decreases bs.len() - i,
    {
        proof {
            assert(decreases_to!(bs@ => bs@[i as int]));
            assert(decreases_to!(bs@[i as int] => bs@[i as int].content));
            assert(decreases_to!(bs@[i as int].content => bs@[i as int].content.content));
            assert(decreases_to!(bs@[i as int].content.content => bs@[i as int].content.content@));
            assert(bs@.take(i + 1).drop_last() =~= bs@.take(i as int));
        }
        check_scope_objects(&bs[i].content.content, false, out);
        assert(diag_views(out@) =~= before + scope_branches(bs@.take(i + 1)));
        i = i + 1;
    }
    assert(bs@.take(bs@.len() as int) =~= bs@);
}

fn check_scope_object(o: &Object, top: bool, out: &mut Vec<Diagnostic>)
    ensures
        diag_views(final(out)@) == diag_views(old(out)@) + scope_object(*o, top),
    decreases *o, 0nat,
{
    let ghost before = diag_views(out@);
    match o {
        Object::VariableAssignment(a) => {
            if a.kind == AssignmentKind::Global && !top {
                out.push(Diagnostic::error(a.span.duplicate(), owned(NESTED_GLOBAL_MESSAGE)));
            }
            assert(diag_views(out@) =~= before + scope_object(*o, top));
        },
        Object::Choice(c) => {
            match &c.start_content {
                Some(sc) => {
                    proof {
                        assert(decreases_to!(*o => (*o)->Choice_0));
                        assert(decreases_to!((*o)->Choice_0 => c.start_content));
                        assert(decreases_to!(c.start_content => sc));
                        assert(decreases_to!(sc => sc.objects));
                        assert(decreases_to!(sc.objects => sc.objects@));
                    }
                    check_scope_objects(&sc.objects, false, out);
                },
                None => {},
            }
            proof {
                assert(decreases_to!(*o => (*o)->Choice_0));
                assert(decreases_to!((*o)->Choice_0 => c.inner_content));
                assert(decreases_to!(c.inner_content => c.inner_content.objects));
                assert(decreases_to!(c.inner_content.objects => c.inner_content.objects@));
            }
            check_scope_objects(&c.inner_content.objects, false, out);
            assert(diag_views(out@) =~= before + scope_object(*o, top));
        },
        Object::ContentList(c) => {
            proof {
                assert(decreases_to!(*o => (*o)->ContentList_0));
                assert(decreases_to!((*o)->ContentList_0 => c.objects));
                assert(decreases_to!(c.objects => c.objects@));
            }
            check_scope_objects(&c.objects, false, out);
        },
        Object::Conditional(c) => {
            proof {
                assert(decreases_to!(*o => (*o)->Conditional_0));
                assert(decreases_to!((*o)->Conditional_0 => c.branches));
                assert(decreases_to!(c.branches => c.branches@));
            }
            check_scope_branches(&c.branches, out);
        },
        Object::Weave(w) => {
            proof {
                assert(decreases_to!(*o => (*o)->Weave_0));
                assert(decreases_to!((*o)->Weave_0 => w.content));
                assert(decreases_to!(w.content => w.content@));
            }
            check_scope_objects(&w.content, false, out);
        },
        _ => {
            assert(diag_views(out@) =~= before + scope_object(*o, top));
        },
    }
}

fn check_scope_flows(fs: &Vec<Flow>, out: &mut Vec<Diagnostic>)
    ensures
        diag_views(final(out)@) == diag_views(old(out)@) + scope_flows(fs@),
    decreases fs@, 1nat,
{
    let ghost before = diag_views(out@);
    let mut i: usize = 0;
    assert(diag_views(out@) =~= before + scope_flows(fs@.take(0)));
    while i < fs.len()
        invariant
            i <= fs@.len(),
            diag_views(out@) == before + scope_flows(fs@.take(i as int)),
        decreases fs.len() - i,
    {
        proof {
            assert(decreases_to!(fs@ => fs@[i as int]));
            assert(fs@.take(i + 1).drop_last() =~= fs@.take(i as int));
        }
        check_scope_flow(&fs[i], out);
        assert(diag_views(out@) =~= before + scope_flows(fs@.take(i + 1)));
        i = i + 1;
    }
    assert(fs@.take(fs@.len() as int) =~= fs@);
}

fn check_scope_flow(f: &Flow, out: &mut Vec<Diagnostic>)
    ensures
        diag_views(final(out)@) == diag_views(old(out)@) + scope_flow(*f),
    decreases *f, 0nat,
{
    let ghost before = diag_views(out@);
    check_scope_objects(&f.weave.content, false, out);
    proof {
        assert(decreases_to!(*f => f.child_flows));
        assert(decreases_to!(f.child_flows => f.child_flows@));
    }
    check_scope_flows(&f.child_flows, out);
    assert(diag_views(out@) =~= before + scope_flow(*f));
}

// ---------------------------------------------------------------------------
// Choices inside conditionals.

pub open spec fn nested_choice_message() -> Seq<char> {
    "Choices nested in conditionals need to explicitly divert afterwards."@
}

/// The last significant object of a choice's own content, if any.
pub open spec fn choice_last(c: Choice) -> Option<Object> {
    let os = c.inner_content.objects@;
    let j = last_significant(os);
    if 0 <= j < os.len() {
        Some(os[j])
    } else {
        None
    }
}

/// The object that decides whether the flow ends after a choice: the last
/// significant one among its content and what follows it, up to the next
/// choice, gather or weave.
pub open spec fn following_last(os: Seq<Object>, k: int, current: Option<Object>) -> Option<Object>
    decreases os.len() - k,
{
    if k < 0 || k >= os.len() {
        current
    } else if os[k] is Choice || os[k] is Gather || os[k] is Weave {
        current
    } else {
        following_last(os, k + 1, if !is_ignored(os[k]) { Some(os[k]) } else { current })
    }
}

/// Whether the choice at position `i` of `os` ends the flow.
pub open spec fn choice_ends_flow(c: Choice, os: Seq<Object>, i: int) -> bool {
    match following_last(os, i + 1, choice_last(c)) {
        Some(o) => terminates(o),
        None => false,
    }
}

/// The errors for choices inside conditionals that do not end the flow,
/// among the first `n` objects of `os`.
pub open spec fn termination_prefix(os: Seq<Object>, n: int, sealed: bool, is_weave: bool) -> Seq<DiagView>
    decreases os, 1nat, n,
{
    if n <= 0 || n > os.len() {
        Seq::empty()
    } else {
        termination_prefix(os, n - 1, sealed, is_weave) + termination_object(os, n - 1, sealed, is_weave)
    }
}

pub open spec fn termination_object(os: Seq<Object>, i: int, sealed: bool, is_weave: bool) -> Seq<DiagView>
    decreases os[i], 0nat, 0int,
{
    if 0 <= i < os.len() {
        match os[i] {
            Object::Choice(c) => if is_weave {
                (if sealed && !choice_ends_flow(c, os, i) {
                    seq![(DiagnosticSeverity::Error, nested_choice_message(), c.span)]
                } else {
                    Seq::empty()
                }) + (match c.start_content {
                    Some(sc) => termination_prefix(sc.objects@, sc.objects@.len() as int, sealed, false),
                    None => Seq::empty(),
                }) + termination_prefix(c.inner_content.objects@, c.inner_content.objects@.len() as int, sealed, false)
            } else {
                Seq::empty()
            },
            Object::ContentList(c) => termination_prefix(c.objects@, c.objects@.len() as int, sealed, false),
            Object::Conditional(c) => termination_branches(c.branches@, c.branches@.len() as int),
            Object::Weave(w) => termination_prefix(w.content@, w.content@.len() as int, sealed, true),
            _ => Seq::empty(),
        }
    } else {
        Seq::empty()
    }
}

pub open spec fn termination_branches(bs: Seq<crate::parsed::ConditionalBranch>, n: int) -> Seq<DiagView>
    decreases bs, 1nat, n,
{
    if n <= 0 || n > bs.len() {
        Seq::empty()
    } else {
        termination_branches(bs, n - 1) + termination_prefix(
            bs[n - 1].content.content@,
            bs[n - 1].content.content@.len() as int,
            true,
            true,
        )
    }
}

pub open spec fn termination_all(os: Seq<Object>, sealed: bool, is_weave: bool) -> Seq<DiagView> {
    termination_prefix(os, os.len() as int, sealed, is_weave)
}

fn choice_terminates(c: &Choice, os: &Vec<Object>, index: usize) -> (r: bool)
    requires
        index < os@.len(),
    ensures
        r == choice_ends_flow(*c, os@, index as int),
{
    let mut terminating: Option<&Object> = match last_significant_index(&c.inner_content.objects) {
        Some(i) => Some(&c.inner_content.objects[i]),
        None => None,
    };
    let n: usize = os.len();
    let mut k: usize = index + 1;
    proof { lemma_last_significant_bound(c.inner_content.objects@); }
    while k < n
        invariant
            n == os@.len(),
            index < k <= n,
            following_last(os@, index + 1, choice_last(*c)) == following_last(
                os@,
                k as int,
                match terminating {
                    Some(o) => Some(*o),
                    None => None,
                },
            ),
        ensures
            following_last(os@, index + 1, choice_last(*c)) == match terminating {
                Some(o) => Some(*o),
                None => None,
            },
        decreases n - k,
    {
        match &os[k] {
            Object::Choice(_) | Object::Gather(_) | Object::Weave(_) => {
                break;
            },
            _ => {},
        }
        if !ignored(&os[k]) {
            terminating = Some(&os[k]);
        }
        k = k + 1;
    }
    match terminating {
        Some(o) => object_terminates(o),
        None => false,
    }
}

fn check_termination(os: &Vec<Object>, sealed: bool, is_weave: bool, out: &mut Vec<Diagnostic>)
    ensures
        diag_views(final(out)@) == diag_views(old(out)@) + termination_all(os@, sealed, is_weave),
    decreases os@, 1nat, os@.len(),
{
    let ghost before = diag_views(out@);
    let mut i: usize = 0;
    assert(diag_views(out@) =~= before + termination_prefix(os@, 0, sealed, is_weave));
    while i < os.len()
        invariant
            i <= os@.len(),
            diag_views(out@) == before + termination_prefix(os@, i as int, sealed, is_weave),
        decreases os.len() - i,
    {
        proof { assert(decreases_to!(os@ => os@[i as int])); }
        check_termination_object(os, i, sealed, is_weave, out);
        i = i + 1;
    }
}

fn check_termination_object(os: &Vec<Object>, i: usize, sealed: bool, is_weave: bool, out: &mut Vec<Diagnostic>)
    requires
        i < os@.len(),
    ensures
        diag_views(final(out)@) == diag_views(old(out)@) + termination_object(os@, i as int, sealed, is_weave),
    decreases os@[i as int], 0nat, 0int,
{
    let ghost before = diag_views(out@);
    let o = &os[i];
    match o {
        Object::Choice(c) => {
            if is_weave {
                if sealed && !choice_terminates(c, os, i) {
                    out.push(Diagnostic::error(c.span.duplicate(), owned("Choices nested in conditionals need to explicitly divert afterwards.")));
                }
                match &c.start_content {
                    Some(sc) => {
                        proof {
                            assert(decreases_to!(*o => (*o)->Choice_0));
                            assert(decreases_to!((*o)->Choice_0 => c.start_content));
                            assert(decreases_to!(c.start_content => sc));
                            assert(decreases_to!(sc => sc.objects));
                            assert(decreases_to!(sc.objects => sc.objects@));
                        }
                        check_termination(&sc.objects, sealed, false, out);
                    },
                    None => {},
                }
                proof {
                    assert(decreases_to!(*o => (*o)->Choice_0));
                    assert(decreases_to!((*o)->Choice_0 => c.inner_content));
                    assert(decreases_to!(c.inner_content => c.inner_content.objects));
                    assert(decreases_to!(c.inner_content.objects => c.inner_content.objects@));
                }
                check_termination(&c.inner_content.objects, sealed, false, out);
            }
            assert(diag_views(out@) =~= before + termination_object(os@, i as int, sealed, is_weave));
        },
        Object::ContentList(c) => {
            proof {
                assert(decreases_to!(*o => (*o)->ContentList_0));
                assert(decreases_to!((*o)->ContentList_0 => c.objects));
                assert(decreases_to!(c.objects => c.objects@));
            }
            check_termination(&c.objects, sealed, false, out);
        },
        Object::Conditional(c) => {
            let ghost bs = c.branches@;
            let mut b: usize = 0;
            assert(diag_views(out@) =~= before + termination_branches(bs, 0));
            while b < c.branches.len()
                invariant
                    i < os@.len(),
                    *o == os@[i as int],
                    os@[i as int] is Conditional,
                    (os@[i as int])->Conditional_0 == *c,
                    bs == c.branches@,
                    b <= bs.len(),
                    diag_views(out@) == before + termination_branches(bs, b as int),
                decreases c.branches.len() - b,
            {
                proof {
                    assert(decreases_to!(os@[i as int] => (os@[i as int])->Conditional_0));
                    assert(decreases_to!((os@[i as int])->Conditional_0 => c.branches));
                    assert(decreases_to!(c.branches => c.branches@));
                    assert(decreases_to!(c.branches@ => c.branches@[b as int]));
                    assert(decreases_to!(c.branches@[b as int] => c.branches@[b as int].content));
                    assert(decreases_to!(c.branches@[b as int].content => c.branches@[b as int].content.content));
                    assert(decreases_to!(c.branches@[b as int].content.content => c.branches@[b as int].content.content@));
                }
                check_termination(&c.branches[b].content.content, true, true, out);
                b = b + 1;
            }
        },
        Object::Weave(w) => {
            proof {
                assert(decreases_to!(*o => (*o)->Weave_0));
                assert(decreases_to!((*o)->Weave_0 => w.content));
                assert(decreases_to!(w.content => w.content@));
            }
            check_termination(&w.content, sealed, true, out);
        },
        _ => {
            assert(diag_views(out@) =~= before + termination_object(os@, i as int, sealed, is_weave));
        },
    }
}

// ---------------------------------------------------------------------------
// Conditions.

pub open spec fn combine(l: Option<bool>, r: Option<bool>) -> Option<bool> {
    if l == Some(true) || r == Some(true) {
        Some(true)
    } else if l == Some(false) && r == Some(false) {
        Some(false)
    } else {
        None
    }
}

/// Whether a condition carries type information: `Some(true)` for a typed
/// variable, a typed call, or an operator over something typed;
/// `Some(false)` for literals alone; `None` when nothing is known.
pub open spec fn signal(idx: TypeIndex, m: Option<Seq<char>>, f: Option<Seq<char>>, e: Expression) -> Option<bool>
    decreases e, 0nat,
{
    match e {
        Expression::String(_) | Expression::NumberInt(_) | Expression::NumberFloat(_) | Expression::NumberBool(_)
        | Expression::ArrayLiteral(_) | Expression::StructLiteral(_) | Expression::DictLiteral(_)
        | Expression::TypedStructLiteral { .. } => Some(false),
        Expression::VariableReference(n) => match visible_variable(idx.variables@, m, f, n@) {
            Some(v) => if v.declared_type is Some {
                Some(true)
            } else {
                None
            },
            None => None,
        },
        Expression::QualifiedReference(q) => match last_variable(idx.variables@, Some(q.module@), None, q.symbol@) {
            Some(v) => if v.declared_type is Some && v.kind != VariableKind::Local {
                Some(true)
            } else {
                None
            },
            None => None,
        },
        Expression::FunctionCall { name, args: _ } => if builtin_type(name@) is Some {
            Some(true)
        } else {
            match resolve_target(idx.targets@, name@, m, f) {
                Some(t) => if t.is_function && t.has_typed_signature {
                    Some(true)
                } else {
                    None
                },
                None => None,
            }
        },
        Expression::QualifiedFunctionCall { name, args: _ } => match resolve_target(
            idx.targets@,
            name.module@ + "::"@ + name.symbol@,
            m,
            f,
        ) {
            Some(t) => if t.is_function && t.has_typed_signature {
                Some(true)
            } else {
                None
            },
            None => None,
        },
        Expression::FieldAccess { base, field: _ } => if signal(idx, m, f, *base) == Some(true) {
            Some(true)
        } else {
            None
        },
        Expression::IndexAccess { base, index: _ } => if signal(idx, m, f, *base) == Some(true) {
            Some(true)
        } else {
            None
        },
        Expression::Unary { operator: _, expression } => signal(idx, m, f, *expression),
        Expression::Binary { operator: _, left, right } => combine(signal(idx, m, f, *left), signal(idx, m, f, *right)),
        Expression::MultipleCondition(es) => signals(idx, m, f, es@),
        Expression::DivertTarget(_) => None,
    }
}

/// The signals of `es` combined from the first on; `None` for no
/// expressions.
pub open spec fn signals(idx: TypeIndex, m: Option<Seq<char>>, f: Option<Seq<char>>, es: Seq<Expression>) -> Option<bool>
    decreases es, 1nat,
{
    if es.len() == 0 {
        None
    } else if es.len() == 1 {
        signal(idx, m, f, es[0])
    } else {
        combine(signals(idx, m, f, es.drop_last()), signal(idx, m, f, es.last()))
    }
}

fn condition_signal(e: &Expression, idx: &TypeIndex, m: Option<&str>, f: Option<&str>) -> (r: Option<bool>)
    ensures
        r == signal(*idx, opt_str_view(m), opt_str_view(f), *e),
    decreases *e, 0nat,
{
    match e {
        Expression::String(_) | Expression::NumberInt(_) | Expression::NumberFloat(_) | Expression::NumberBool(_)
        | Expression::ArrayLiteral(_) | Expression::StructLiteral(_) | Expression::DictLiteral(_)
        | Expression::TypedStructLiteral { .. } => Some(false),
        Expression::VariableReference(n) => {
            let local = match f {
                Some(p) => find_last_variable(&idx.variables, m, Some(p), n.as_str()),
                None => None,
            };
            let found = match local {
                Some(v) => Some(v),
                None => find_last_variable(&idx.variables, m, None, n.as_str()),
            };
            match found {
                Some(v) => if v.declared_type.is_some() { Some(true) } else { None },
                None => None,
            }
        },
        Expression::QualifiedReference(q) => {
            match find_last_variable(&idx.variables, Some(q.module.as_str()), None, q.symbol.as_str()) {
                Some(v) => if v.declared_type.is_some() && v.kind != VariableKind::Local { Some(true) } else { None },
                None => None,
            }
        },
        Expression::FunctionCall { name, args: _ } => {
            if crate::analysis::inference::builtin_return_type(name.as_str()).is_some() {
                return Some(true);
            }
            match resolve_target_symbol(&idx.targets, name.as_str(), m, f) {
                Some(t) => if t.is_function && t.has_typed_signature { Some(true) } else { None },
                None => None,
            }
        },
        Expression::QualifiedFunctionCall { name, args: _ } => {
            let full = concat3(name.module.as_str(), "::", name.symbol.as_str());
            match resolve_target_symbol(&idx.targets, full.as_str(), m, f) {
                Some(t) => if t.is_function && t.has_typed_signature { Some(true) } else { None },
                None => None,
            }
        },
        Expression::FieldAccess { base, field: _ } => match condition_signal(base, idx, m, f) {
            Some(true) => Some(true),
            _ => None,
        },
        Expression::IndexAccess { base, index: _ } => match condition_signal(base, idx, m, f) {
            Some(true) => Some(true),
            _ => None,
        },
        Expression::Unary { operator: _, expression } => condition_signal(expression, idx, m, f),
        Expression::Binary { operator: _, left, right } => {
            let l = condition_signal(left, idx, m, f);
            let r = condition_signal(right, idx, m, f);
            combine_signals(l, r)
        },
        Expression::MultipleCondition(es) => {
            proof {
                assert(decreases_to!(*e => (*e)->MultipleCondition_0));
                assert(decreases_to!((*e)->MultipleCondition_0 => es@));
            }
            combined_signals(es, idx, m, f)
        },
        Expression::DivertTarget(_) => None,
    }
}

fn combined_signals(es: &Vec<Expression>, idx: &TypeIndex, m: Option<&str>, f: Option<&str>) -> (r: Option<bool>)
    ensures
        r == signals(*idx, opt_str_view(m), opt_str_view(f), es@),
    decreases es@, 1nat,
{
    if es.len() == 0 {
        return None;
    }
    proof { assert(decreases_to!(es@ => es@[0])); }
    let mut acc = condition_signal(&es[0], idx, m, f);
    assert(es@.take(1) =~= seq![es@[0]]);
    let mut i: usize = 1;
    while i < es.len()
        invariant
            1 <= i <= es@.len(),
            acc == signals(*idx, opt_str_view(m), opt_str_view(f), es@.take(i as int)),
        decreases es.len() - i,
    {
        proof {
            assert(decreases_to!(es@ => es@[i as int]));
            assert(es@.take(i + 1).drop_last() =~= es@.take(i as int));
        }
        let next = condition_signal(&es[i], idx, m, f);
        acc = combine_signals(acc, next);
        i = i + 1;
    }
    assert(es@.take(es@.len() as int) =~= es@);
    acc
}

fn combine_signals(l: Option<bool>, r: Option<bool>) -> (res: Option<bool>)
    ensures
        res == combine(l, r),
{
    if l == Some(true) || r == Some(true) {
        Some(true)
    } else if l == Some(false) && r == Some(false) {
        Some(false)
    } else {
        None
    }
}

/// The error for a typed condition that is not a `bool`.
pub open spec fn condition_check(idx: TypeIndex, m: Option<Seq<char>>, f: Option<Seq<char>>, label: Seq<char>, e: Expression, span: SourceSpan) -> Seq<DiagView> {
    let typed = signal(idx, m, f, e) == Some(true);
    match infer(e, idx, m, f) {
        Ok(t) => if t != bool_v() && typed {
            seq![(DiagnosticSeverity::Error, label + " condition has type "@ + view_display(t) + " but expected bool"@, span)]
        } else {
            Seq::empty()
        },
        Err(x) => if typed {
            seq![(DiagnosticSeverity::Error, "Cannot type-check "@ + label + " condition: "@ + x, span)]
        } else {
            Seq::empty()
        },
    }
}

pub open spec fn opt_condition_check(idx: TypeIndex, m: Option<Seq<char>>, f: Option<Seq<char>>, label: Seq<char>, e: Option<Expression>, span: SourceSpan) -> Seq<DiagView> {
    match e {
        Some(e) => condition_check(idx, m, f, label, e, span),
        None => Seq::empty(),
    }
}

pub open spec fn branch_condition_checks(idx: TypeIndex, m: Option<Seq<char>>, f: Option<Seq<char>>, bs: Seq<crate::parsed::ConditionalBranch>, span: SourceSpan) -> Seq<DiagView>
    decreases bs.len(),
{
    if bs.len() == 0 {
        Seq::empty()
    } else {
        branch_condition_checks(idx, m, f, bs.drop_last(), span) + opt_condition_check(
            idx,
            m,
            f,
            "Conditional"@,
            bs.last().own_condition,
            span,
        )
    }
}

/// The condition errors of one site: a choice's condition, or the
/// conditions of a conditional.
pub open spec fn site_condition_checks(idx: TypeIndex, s: SiteView) -> Seq<DiagView> {
    match s.2 {
        Object::Choice(c) => opt_condition_check(idx, s.0, s.1, "Choice"@, c.condition, c.span),
        Object::Conditional(c) => opt_condition_check(idx, s.0, s.1, "Conditional"@, c.initial_condition, object_span_spec(s.2))
            + branch_condition_checks(idx, s.0, s.1, c.branches@, object_span_spec(s.2)),
        _ => Seq::empty(),
    }
}

pub open spec fn condition_checks(idx: TypeIndex, ss: Seq<SiteView>) -> Seq<DiagView>
    decreases ss.len(),
{
    if ss.len() == 0 {
        Seq::empty()
    } else {
        condition_checks(idx, ss.drop_last()) + site_condition_checks(idx, ss.last())
    }
}

/// Adds to `out` the error of the condition `condition` labelled `label`,
/// if any: where the condition is typed, an error unless it has type
/// `bool`, or the reason it cannot be typed.
pub fn check_condition(label: &str, condition: &Expression, span: &SourceSpan, idx: &TypeIndex, m: Option<&str>, f: Option<&str>, out: &mut Vec<Diagnostic>)
    ensures
        diag_views(final(out)@) == diag_views(old(out)@) + condition_check(*idx, opt_str_view(m), opt_str_view(f), label@, *condition, *span),
{
    let ghost before = diag_views(out@);
    let typed = condition_signal(condition, idx, m, f) == Some(true);
    match infer_expression_type(condition, idx, m, f) {
        Ok(t) => {
            if !is_primitive(&t, PrimitiveType::Bool) && typed {
                let mut msg = owned(label);
                msg.append(" condition has type ");
                let d = display(&t);
                msg.append(d.as_str());
                msg.append(" but expected bool");
                out.push(Diagnostic::error(span.duplicate(), msg));
            }
        },
        Err(x) => {
            if typed {
                let mut msg = concat3("Cannot type-check ", label, " condition: ");
                msg.append(x.message.as_str());
                out.push(Diagnostic::error(span.duplicate(), msg));
            }
        },
    }
    assert(diag_views(out@) =~= before + condition_check(*idx, opt_str_view(m), opt_str_view(f), label@, *condition, *span));
}

fn check_optional_condition(label: &str, condition: &Option<Expression>, span: &SourceSpan, idx: &TypeIndex, m: Option<&str>, f: Option<&str>, out: &mut Vec<Diagnostic>)
    ensures
        diag_views(final(out)@) == diag_views(old(out)@) + opt_condition_check(*idx, opt_str_view(m), opt_str_view(f), label@, *condition, *span),
{
    match condition {
        Some(e) => check_condition(label, e, span, idx, m, f, out),
        None => {
            assert(diag_views(out@) =~= diag_views(out@) + opt_condition_check(*idx, opt_str_view(m), opt_str_view(f), label@, None, *span));
        },
    }
}

fn check_site_conditions(site: &Site, idx: &TypeIndex, out: &mut Vec<Diagnostic>)
    ensures
        diag_views(final(out)@) == diag_views(old(out)@) + site_condition_checks(*idx, site_view(*site)),
{
    let ghost before = diag_views(out@);
    let m = site.module;
    let f: Option<&str> = match &site.flow {
        Some(p) => Some(p.as_str()),
        None => None,
    };
    assert(opt_str_view(f) == opt_string_view(site.flow));
    proof {
        reveal_strlit("Choice");
        reveal_strlit("Conditional");
    }
    match site.object {
        Object::Choice(c) => check_optional_condition("Choice", &c.condition, &c.span, idx, m, f, out),
        Object::Conditional(c) => {
            let span = object_span(site.object);
            check_optional_condition("Conditional", &c.initial_condition, &span, idx, m, f, out);
            let ghost first = diag_views(out@);
            let ghost bs = c.branches@;
            let mut b: usize = 0;
            assert(diag_views(out@) =~= first + branch_condition_checks(*idx, opt_str_view(m), opt_str_view(f), bs.take(0), span));
            while b < c.branches.len()
                invariant
                    b <= bs.len(),
                    bs == c.branches@,
                    diag_views(out@) == first + branch_condition_checks(*idx, opt_str_view(m), opt_str_view(f), bs.take(b as int), span),
                decreases c.branches.len() - b,
            {
                assert(bs.take(b + 1).drop_last() =~= bs.take(b as int));
                check_optional_condition("Conditional", &c.branches[b].own_condition, &span, idx, m, f, out);
                assert(diag_views(out@) =~= first + branch_condition_checks(*idx, opt_str_view(m), opt_str_view(f), bs.take(b + 1), span));
                b = b + 1;
            }
            assert(bs.take(bs.len() as int) =~= bs);
            assert(diag_views(out@) =~= before + site_condition_checks(*idx, site_view(*site)));
        },
        _ => {
            assert(diag_views(out@) =~= before + site_condition_checks(*idx, site_view(*site)));
        },
    }
}

// ---------------------------------------------------------------------------
// Functions, returns and loose ends.

/// How a divert target is written in messages.
pub open spec fn target_text(t: DivertTarget) -> Seq<char> {
    match t {
        DivertTarget::Done => "DONE"@,
        DivertTarget::End => "END"@,
        DivertTarget::Path(p) => p@,
        DivertTarget::QualifiedPath(q) => q.module@ + "::"@ + q.symbol@,
        DivertTarget::Dynamic(_) => "{...}"@,
    }
}

fn divert_target_text(t: &DivertTarget) -> (r: String)
    ensures
        r@ == target_text(*t),
{
    match t {
        DivertTarget::Done => owned("DONE"),
        DivertTarget::End => owned("END"),
        DivertTarget::Path(p) => p.clone(),
        DivertTarget::QualifiedPath(q) => concat3(q.module.as_str(), "::", q.symbol.as_str()),
        DivertTarget::Dynamic(_) => owned("{...}"),
    }
}

/// The check of a `return` of a typed function against its return type.
pub open spec fn return_check(r: Return, fl: Flow, idx: TypeIndex, m: Option<Seq<char>>, path: Seq<char>) -> Seq<DiagView> {
    let ret = fl.return_type.type_view();
    match r.expression {
        None => if ret != TypeView::Void {
            seq![
                (DiagnosticSeverity::Error, "Function '"@ + fl.name@ + "' must return "@ + view_display(ret) + " but return has no value"@, r.span),
            ]
        } else {
            Seq::empty()
        },
        Some(e) => if ret == TypeView::Void {
            seq![(DiagnosticSeverity::Error, "Function '"@ + fl.name@ + "' returns void but return has a value"@, r.span)]
        } else {
            match infer(e, idx, m, Some(path)) {
                Ok(a) => if a == ret {
                    Seq::empty()
                } else {
                    seq![
                        (DiagnosticSeverity::Error, "Function '"@ + fl.name@ + "' returns "@ + view_display(a)
                            + " but declared return type is "@ + view_display(ret), r.span),
                    ]
                },
                Err(x) => seq![
                    (DiagnosticSeverity::Error, "Cannot type-check return value for function '"@ + fl.name@ + "': "@ + x, r.span),
                ],
            }
        },
    }
}

/// The errors for what a function body may not contain (diverts and
/// choices outside choice content), and its returns when typed.
pub open spec fn function_object(o: Object, fl: Flow, idx: TypeIndex, m: Option<Seq<char>>, path: Seq<char>) -> Seq<DiagView>
    decreases o, 0nat,
{
    match o {
        Object::Divert(d) => seq![
            (DiagnosticSeverity::Error, "Functions may not contain diverts, but saw '-> "@ + target_text(d.target) + "'"@, d.span),
        ],
        Object::Choice(c) => seq![(DiagnosticSeverity::Error, "Functions may not contain choices"@, c.span)],
        Object::Return(r) => if fl.has_typed_signature {
            return_check(r, fl, idx, m, path)
        } else {
            Seq::empty()
        },
        Object::ContentList(c) => function_objects(c.objects@, fl, idx, m, path),
        Object::Weave(w) => function_objects(w.content@, fl, idx, m, path),
        Object::Conditional(c) => function_branches(c.branches@, fl, idx, m, path),
        _ => Seq::empty(),
    }
}

pub open spec fn function_objects(os: Seq<Object>, fl: Flow, idx: TypeIndex, m: Option<Seq<char>>, path: Seq<char>) -> Seq<DiagView>
    decreases os, 1nat,
{
    if os.len() == 0 {
        Seq::empty()
    } else {
        function_objects(os.drop_last(), fl, idx, m, path) + function_object(os.last(), fl, idx, m, path)
    }
}

pub open spec fn function_branches(bs: Seq<crate::parsed::ConditionalBranch>, fl: Flow, idx: TypeIndex, m: Option<Seq<char>>, path: Seq<char>) -> Seq<DiagView>
    decreases bs, 1nat,
{
    if bs.len() == 0 {
        Seq::empty()
    } else {
        function_branches(bs.drop_last(), fl, idx, m, path) + function_objects(bs.last().content.content@, fl, idx, m, path)
    }
}

fn check_return(r: &Return, function: &Flow, idx: &TypeIndex, m: Option<&str>, path: &str, out: &mut Vec<Diagnostic>)
    ensures
        diag_views(final(out)@) == diag_views(old(out)@) + return_check(*r, *function, *idx, opt_str_view(m), path@),
{
    let ghost before = diag_views(out@);
    let void = function.return_type.is_void();
    match &r.expression {
        None => {
            if !void {
                let mut msg = concat3("Function '", function.name.as_str(), "' must return ");
                let d = display(&function.return_type);
                msg.append(d.as_str());
                msg.append(" but return has no value");
                out.push(Diagnostic::error(r.span.duplicate(), msg));
            }
        },
        Some(e) => {
            if void {
                let msg = concat3("Function '", function.name.as_str(), "' returns void but return has a value");
                out.push(Diagnostic::error(r.span.duplicate(), msg));
            } else {
                match infer_expression_type(e, idx, m, Some(path)) {
                    Ok(actual) => {
                        if !actual.same_as(&function.return_type) {
                            let mut msg = concat3("Function '", function.name.as_str(), "' returns ");
                            let a = display(&actual);
                            msg.append(a.as_str());
                            msg.append(" but declared return type is ");
                            let d = display(&function.return_type);
                            msg.append(d.as_str());
                            out.push(Diagnostic::error(r.span.duplicate(), msg));
                        }
                    },
                    Err(x) => {
                        let mut msg = concat3("Cannot type-check return value for function '", function.name.as_str(), "': ");
                        msg.append(x.message.as_str());
                        out.push(Diagnostic::error(r.span.duplicate(), msg));
                    },
                }
            }
        },
    }
    assert(diag_views(out@) =~= before + return_check(*r, *function, *idx, opt_str_view(m), path@));
}

fn check_function_objects(os: &Vec<Object>, function: &Flow, idx: &TypeIndex, m: Option<&str>, path: &str, out: &mut Vec<Diagnostic>)
    ensures
        diag_views(final(out)@) == diag_views(old(out)@) + function_objects(os@, *function, *idx, opt_str_view(m), path@),
    decreases os@, 1nat,
{
    let ghost before = diag_views(out@);
    let ghost mv = opt_str_view(m);
    let mut i: usize = 0;
    assert(diag_views(out@) =~= before + function_objects(os@.take(0), *function, *idx, mv, path@));
    while i < os.len()
        invariant
            i <= os@.len(),
            mv == opt_str_view(m),
            diag_views(out@) == before + function_objects(os@.take(i as int), *function, *idx, mv, path@),
        decreases os.len() - i,
    {
        proof {
            assert(decreases_to!(os@ => os@[i as int]));
            assert(os@.take(i + 1).drop_last() =~= os@.take(i as int));
        }
        check_function_object(&os[i], function, idx, m, path, out);
        assert(diag_views(out@) =~= before + function_objects(os@.take(i + 1), *function, *idx, mv, path@));
        i = i + 1;
    }
    assert(os@.take(os@.len() as int) =~= os@);
}

fn check_function_branches(bs: &Vec<crate::parsed::ConditionalBranch>, function: &Flow, idx: &TypeIndex, m: Option<&str>, path: &str, out: &mut Vec<Diagnostic>)
    ensures
        diag_views(final(out)@) == diag_views(old(out)@) + function_branches(bs@, *function, *idx, opt_str_view(m), path@),
    decreases bs@, 1nat,
{
    let ghost before = diag_views(out@);
    let ghost mv = opt_str_view(m);
    let mut i: usize = 0;
    assert(diag_views(out@) =~= before + function_branches(bs@.take(0), *function, *idx, mv, path@));
    while i < bs.len()
        invariant
            i <= bs@.len(),
            mv == opt_str_view(m),
            diag_views(out@) == before + function_branches(bs@.take(i as int), *function, *idx, mv, path@),
        decreases bs.len() - i,
    {
        proof {
            assert(decreases_to!(bs@ => bs@[i as int]));
            assert(decreases_to!(bs@[i as int] => bs@[i as int].content));
            assert(decreases_to!(bs@[i as int].content => bs@[i as int].content.content));
            assert(decreases_to!(bs@[i as int].content.content => bs@[i as int].content.content@));
            assert(bs@.take(i + 1).drop_last() =~= bs@.take(i as int));
        }
        check_function_objects(&bs[i].content.content, function, idx, m, path, out);
        assert(diag_views(out@) =~= before + function_branches(bs@.take(i + 1), *function, *idx, mv, path@));
        i = i + 1;
    }
    assert(bs@.take(bs@.len() as int) =~= bs@);
}

fn check_function_object(o: &Object, function: &Flow, idx: &TypeIndex, m: Option<&str>, path: &str, out: &mut Vec<Diagnostic>)
    ensures
        diag_views(final(out)@) == diag_views(old(out)@) + function_object(*o, *function, *idx, opt_str_view(m), path@),
    decreases *o, 0nat,
{
    let ghost before = diag_views(out@);
    match o {
        Object::Divert(d) => {
            let text = divert_target_text(&d.target);
            let msg = concat3("Functions may not contain diverts, but saw '-> ", text.as_str(), "'");
            out.push(Diagnostic::error(d.span.duplicate(), msg));
            assert(diag_views(out@) =~= before + function_object(*o, *function, *idx, opt_str_view(m), path@));
        },
        Object::Choice(c) => {
            out.push(Diagnostic::error(c.span.duplicate(), owned("Functions may not contain choices")));
            assert(diag_views(out@) =~= before + function_object(*o, *function, *idx, opt_str_view(m), path@));
        },
        Object::Return(r) => {
            if function.has_typed_signature {
                check_return(r, function, idx, m, path, out);
            } else {
                assert(diag_views(out@) =~= before + function_object(*o, *function, *idx, opt_str_view(m), path@));
            }
        },
        Object::ContentList(c) => {
            proof {
                assert(decreases_to!(*o => (*o)->ContentList_0));
                assert(decreases_to!((*o)->ContentList_0 => c.objects));
                assert(decreases_to!(c.objects => c.objects@));
            }
            check_function_objects(&c.objects, function, idx, m, path, out);
        },
        Object::Weave(w) => {
            proof {
                assert(decreases_to!(*o => (*o)->Weave_0));
                assert(decreases_to!((*o)->Weave_0 => w.content));
                assert(decreases_to!(w.content => w.content@));
            }
            check_function_objects(&w.content, function, idx, m, path, out);
        },
        Object::Conditional(c) => {
            proof {
                assert(decreases_to!(*o => (*o)->Conditional_0));
                assert(decreases_to!((*o)->Conditional_0 => c.branches));
                assert(decreases_to!(c.branches => c.branches@));
            }
            check_function_branches(&c.branches, function, idx, m, path, out);
        },
        _ => {
            assert(diag_views(out@) =~= before + function_object(*o, *function, *idx, opt_str_view(m), path@));
        },
    }
}

/// A condition that reads a variable declared with a type is accepted
/// exactly when that type is `bool`; otherwise it gets exactly the error
/// `label condition has type T but expected bool`.
pub proof fn law_typed_variable_condition(idx: TypeIndex, m: Option<Seq<char>>, f: Option<Seq<char>>, label: Seq<char>, n: String, span: SourceSpan, t: TypeName)
    requires
        visible_variable(idx.variables@, m, f, n@) matches Some(v) && v.declared_type == Some(t),
    ensures
        condition_check(idx, m, f, label, Expression::VariableReference(n), span) == if t.type_view() == TypeView::Primitive(
            PrimitiveType::Bool,
        ) {
            Seq::<DiagView>::empty()
        } else {
            seq![(DiagnosticSeverity::Error, label + " condition has type "@ + view_display(t.type_view()) + " but expected bool"@, span)]
        },
{
}

/// A knot or stitch that is no function, has no `return`, and whose last
/// significant object is a divert that is no tunnel, a choice, or a return
/// from a tunnel, gets no error of its own; one that is no function but
/// holds a `return` gets exactly the error that returns belong in
/// functions, at that `return`.
pub proof fn law_flow_endings(idx: TypeIndex, m: Option<Seq<char>>, fl: Flow, path: Seq<char>)
    requires
        !fl.is_function,
    ensures
        ({
            let os = fl.weave.content@;
            let i = last_significant(os);
            return_in_flow(fl) is None && 0 <= i && ((os[i] is Divert && !os[i]->Divert_0.is_tunnel) || os[i] is Choice
                || os[i] is TunnelOnwards) ==> flow_own_check(idx, m, fl, path) == Seq::<DiagView>::empty()
        }),
        return_in_flow(fl) matches Some(r) ==> flow_own_check(idx, m, fl, path) == seq![
            (
                DiagnosticSeverity::Error,
                "Return statements can only be used in knots that are declared as functions: == function "@ + fl.name@ + " =="@,
                r.span,
            ),
        ],
{
    lemma_last_significant_bound(fl.weave.content@);
}

/// A conditional without an `else` (its last branch has a condition of its
/// own, or it is `{condition: ...}` with one branch, or it has no branch)
/// never ends the flow, whatever its branches do: when no condition holds
/// the flow runs on past it. So a knot or stitch that is no function and
/// has no `return`, and whose last significant object is such a
/// conditional, gets the loose-end warning there.
pub proof fn law_conditional_without_else_falls_through(c: crate::parsed::Conditional, fl: Flow, idx: TypeIndex, m: Option<Seq<char>>, path: Seq<char>)
    requires
        c.branches@.len() == 0 || c.branches@.last().own_condition is Some || (c.branches@.len() == 1 && c.initial_condition is Some),
    ensures
        !terminates(Object::Conditional(c)),
        !fl.is_function && return_in_flow(fl) is None && 0 <= last_significant(fl.weave.content@) && fl.weave.content@[last_significant(
            fl.weave.content@,
        )] == Object::Conditional(c) ==> flow_own_check(idx, m, fl, path) == seq![
            (
                DiagnosticSeverity::Warning,
                "Apparent loose end exists where the flow runs out. Do you need a '-> DONE' statement, choice or divert?"@,
                object_span_spec(Object::Conditional(c)),
            ),
        ],
{
    lemma_last_significant_bound(fl.weave.content@);
}

/// Every branch of `bs` ends (its last significant object) in a divert
/// that is no tunnel.
pub open spec fn branches_end_in_diverts(bs: Seq<crate::parsed::ConditionalBranch>) -> bool {
    forall|k: int| 0 <= k < bs.len() ==> {
        let os = (#[trigger] bs[k]).content.content@;
        0 <= last_significant(os) && os[last_significant(os)] is Divert && !os[last_significant(os)]->Divert_0.is_tunnel
    }
}

proof fn lemma_diverting_branches_terminate(bs: Seq<crate::parsed::ConditionalBranch>)
    requires
        branches_end_in_diverts(bs),
    ensures
        branches_terminate(bs),
    decreases bs.len(),
{
    if bs.len() > 0 {
        let e = bs.drop_last();
        assert forall|k: int| 0 <= k < e.len() implies {
            let os = (#[trigger] e[k]).content.content@;
            0 <= last_significant(os) && os[last_significant(os)] is Divert && !os[last_significant(os)]->Divert_0.is_tunnel
        } by {
            assert(e[k] == bs[k]);
        }
        lemma_diverting_branches_terminate(e);
        let os = bs[bs.len() - 1].content.content@;
        lemma_last_significant_bound(os);
        assert(bs.last() == bs[bs.len() - 1]);
        let i = last_significant(os);
        assert(0 <= i && os[i] is Divert && !os[i]->Divert_0.is_tunnel);
        assert(terminates(os[i]));
        assert(list_terminates(os));
    }
}

/// A conditional with an `else` (its last branch has no condition of its
/// own, and it is not a one-branch `{condition: ...}`) whose every branch
/// ends in a divert that is no tunnel ends the flow.
pub proof fn law_conditional_with_else_ends_flow(c: crate::parsed::Conditional)
    requires
        c.branches@.len() > 0,
        c.branches@.last().own_condition is None,
        c.branches@.len() >= 2 || c.initial_condition is None,
        branches_end_in_diverts(c.branches@),
    ensures
        terminates(Object::Conditional(c)),
{
    lemma_diverting_branches_terminate(c.branches@);
}

pub const LOOSE_END_MESSAGE: &'static str = "Apparent loose end exists where the flow runs out. Do you need a '-> DONE' statement, choice or divert?";

pub open spec fn loose_end_message() -> Seq<char> {
    "Apparent loose end exists where the flow runs out. Do you need a '-> DONE' statement, choice or divert?"@
}

pub open spec fn function_stitch_message() -> Seq<char> {
    "Functions cannot be stitches - i.e. they should be defined as '== function myFunc ==' rather than public to another knot."@
}

/// The errors for stitches inside a function.
pub open spec fn function_children(cs: Seq<Flow>, name: Seq<char>) -> Seq<DiagView>
    decreases cs.len(),
{
    if cs.len() == 0 {
        Seq::empty()
    } else {
        function_children(cs.drop_last(), name) + seq![
            (DiagnosticSeverity::Error, "Functions may not contain stitches, but saw '"@ + cs.last().name@ + "' within the function '"@
                + name + "'"@, crate::analysis::span::first_span_spec(cs.last().weave.content@)),
        ]
    }
}

/// The checks of one flow at `path` and of its stitches: choices in
/// conditionals, then what a function may not contain, or a `return`
/// outside a function, or a loose end.
pub open spec fn flow_check(idx: TypeIndex, m: Option<Seq<char>>, fl: Flow, path: Seq<char>) -> Seq<DiagView>
    decreases fl, 0nat,
{
    termination_all(fl.weave.content@, false, true) + flow_own_check(idx, m, fl, path) + flows_check(idx, m, fl.child_flows@, path)
}

/// What a function may not contain, or else a `return` outside a function
/// or a loose end: the checks of one flow that do not look into its stitches'
/// own content.
pub open spec fn flow_own_check(idx: TypeIndex, m: Option<Seq<char>>, fl: Flow, path: Seq<char>) -> Seq<DiagView> {
    if fl.is_function {
        (if fl.level != FlowLevel::Knot {
            seq![(DiagnosticSeverity::Error, function_stitch_message(), crate::analysis::span::first_span_spec(fl.weave.content@))]
        } else {
            Seq::empty()
        }) + function_children(fl.child_flows@, fl.name@) + function_objects(fl.weave.content@, fl, idx, m, path)
    } else {
        match return_in_flow(fl) {
            Some(r) => seq![
                (DiagnosticSeverity::Error, "Return statements can only be used in knots that are declared as functions: == function "@
                    + fl.name@ + " =="@, r.span),
            ],
            None => match loose_end(fl.weave.content@) {
                Some(span) => seq![(DiagnosticSeverity::Warning, loose_end_message(), span)],
                None => Seq::empty(),
            },
        }
    }
}

pub open spec fn flows_check(idx: TypeIndex, m: Option<Seq<char>>, fs: Seq<Flow>, parent: Seq<char>) -> Seq<DiagView>
    decreases fs, 1nat,
{
    if fs.len() == 0 {
        Seq::empty()
    } else {
        flows_check(idx, m, fs.drop_last(), parent) + flow_check(idx, m, fs.last(), parent + "."@ + fs.last().name@)
    }
}

fn check_children(f: &Flow, out: &mut Vec<Diagnostic>)
    ensures
        diag_views(final(out)@) == diag_views(old(out)@) + function_children(f.child_flows@, f.name@),
{
    let ghost before = diag_views(out@);
    let ghost cs = f.child_flows@;
    let mut i: usize = 0;
    assert(diag_views(out@) =~= before + function_children(cs.take(0), f.name@));
    while i < f.child_flows.len()
        invariant
            i <= cs.len(),
            cs == f.child_flows@,
            diag_views(out@) == before + function_children(cs.take(i as int), f.name@),
        decreases f.child_flows.len() - i,
    {
        let child = &f.child_flows[i];
        let mut msg = concat3("Functions may not contain stitches, but saw '", child.name.as_str(), "' within the function '");
        msg.append(f.name.as_str());
        msg.append("'");
        let ghost prev = out@;
        out.push(Diagnostic::error(first_span_in_weave(&child.weave), msg));
        proof {
            assert(cs.take(i + 1).drop_last() =~= cs.take(i as int));
            assert(cs.take(i + 1).last() == *child);
            assert(diag_views(out@) =~= diag_views(prev).push(crate::diagnostic::diag_view(out@.last())));
        }
        assert(diag_views(out@) =~= before + function_children(cs.take(i + 1), f.name@));
        i = i + 1;
    }
    assert(cs.take(cs.len() as int) =~= cs);
}

/// The checks of one flow and its stitches.
fn check_flow(m: Option<&str>, f: &Flow, path: &str, idx: &TypeIndex, out: &mut Vec<Diagnostic>)
    ensures
        diag_views(final(out)@) == diag_views(old(out)@) + flow_check(*idx, opt_str_view(m), *f, path@),
    decreases *f, 0nat,
{
    let ghost before = diag_views(out@);
    check_termination(&f.weave.content, false, true, out);
    let ghost after_termination = diag_views(out@);
    let ghost mv = opt_str_view(m);
    if f.is_function {
        if f.level != FlowLevel::Knot {
            let ghost prev = out@;
            out.push(Diagnostic::error(first_span_in_weave(&f.weave), owned("Functions cannot be stitches - i.e. they should be defined as '== function myFunc ==' rather than public to another knot.")));
            proof {
                assert(diag_views(out@) =~= diag_views(prev).push(crate::diagnostic::diag_view(out@.last())));
            }
        }
        check_children(f, out);
        check_function_objects(&f.weave.content, f, idx, m, path, out);
        assert(diag_views(out@) =~= after_termination + flow_own_check(*idx, mv, *f, path@));
    } else {
        match find_return_in_flow(f) {
            Some(r) => {
                let mut msg = owned("Return statements can only be used in knots that are declared as functions: == function ");
                msg.append(f.name.as_str());
                msg.append(" ==");
                let ghost prev = out@;
                out.push(Diagnostic::error(r.span.duplicate(), msg));
                proof {
                    assert(diag_views(out@) =~= diag_views(prev).push(crate::diagnostic::diag_view(out@.last())));
                }
            },
            None => match loose_end_span(&f.weave) {
                Some(span) => {
                    let ghost prev = out@;
                    out.push(Diagnostic::warning(span, owned(LOOSE_END_MESSAGE)));
                    proof {
                        assert(diag_views(out@) =~= diag_views(prev).push(crate::diagnostic::diag_view(out@.last())));
                    }
                },
                None => {},
            },
        }
        assert(diag_views(out@) =~= after_termination + flow_own_check(*idx, mv, *f, path@));
    }
    proof {
        assert(decreases_to!(*f => f.child_flows));
        assert(decreases_to!(f.child_flows => f.child_flows@));
    }
    check_child_flows(m, &f.child_flows, path, idx, out);
    assert(diag_views(out@) =~= before + flow_check(*idx, opt_str_view(m), *f, path@));
}

fn check_child_flows(m: Option<&str>, fs: &Vec<Flow>, parent: &str, idx: &TypeIndex, out: &mut Vec<Diagnostic>)
    ensures
        diag_views(final(out)@) == diag_views(old(out)@) + flows_check(*idx, opt_str_view(m), fs@, parent@),
    decreases fs@, 1nat,
{
    let ghost before = diag_views(out@);
    let ghost mv = opt_str_view(m);
    let mut i: usize = 0;
    assert(diag_views(out@) =~= before + flows_check(*idx, mv, fs@.take(0), parent@));
    while i < fs.len()
        invariant
            i <= fs@.len(),
            mv == opt_str_view(m),
            diag_views(out@) == before + flows_check(*idx, mv, fs@.take(i as int), parent@),
        decreases fs.len() - i,
    {
        proof {
            assert(decreases_to!(fs@ => fs@[i as int]));
            assert(fs@.take(i + 1).drop_last() =~= fs@.take(i as int));
        }
        let child = &fs[i];
        let child_path = concat3(parent, ".", child.name.as_str());
        check_flow(m, child, child_path.as_str(), idx, out);
        assert(diag_views(out@) =~= before + flows_check(*idx, mv, fs@.take(i + 1), parent@));
        i = i + 1;
    }
    assert(fs@.take(fs@.len() as int) =~= fs@);
}

/// The checks of top-level flows, each at its own name.
pub open spec fn top_flows_check(idx: TypeIndex, m: Option<Seq<char>>, fs: Seq<Flow>) -> Seq<DiagView>
    decreases fs.len(),
{
    if fs.len() == 0 {
        Seq::empty()
    } else {
        top_flows_check(idx, m, fs.drop_last()) + flow_check(idx, m, fs.last(), fs.last().name@)
    }
}

pub open spec fn modules_flows_check(idx: TypeIndex, ms: Seq<crate::parsed::Module>) -> Seq<DiagView>
    decreases ms.len(),
{
    if ms.len() == 0 {
        Seq::empty()
    } else {
        modules_flows_check(idx, ms.drop_last()) + top_flows_check(idx, Some(ms.last().name@), ms.last().flows@)
    }
}

pub open spec fn modules_termination(ms: Seq<crate::parsed::Module>) -> Seq<DiagView>
    decreases ms.len(),
{
    if ms.len() == 0 {
        Seq::empty()
    } else {
        modules_termination(ms.drop_last()) + termination_all(ms.last().weave.content@, false, true)
    }
}

/// Every control-flow error and warning of `story`, in order: global
/// `VAR`s away from the top level, choices in conditionals that do not
/// divert, typed conditions that are not `bool`, then the checks of each
/// flow.
pub open spec fn flow_story_checks(idx: TypeIndex, story: Story) -> Seq<DiagView> {
    scope_objects(story.root_weave.content@, true) + scope_flows(story.flows@) + scope_modules(story.modules@)
        + termination_all(story.root_weave.content@, false, true) + modules_termination(story.modules@)
        + condition_checks(idx, story_sites(story)) + top_flows_check(idx, None, story.flows@) + modules_flows_check(
        idx,
        story.modules@,
    )
}

fn check_top_flows(m: Option<&str>, fs: &Vec<Flow>, idx: &TypeIndex, out: &mut Vec<Diagnostic>)
    ensures
        diag_views(final(out)@) == diag_views(old(out)@) + top_flows_check(*idx, opt_str_view(m), fs@),
{
    let ghost before = diag_views(out@);
    let ghost mv = opt_str_view(m);
    let mut i: usize = 0;
    assert(diag_views(out@) =~= before + top_flows_check(*idx, mv, fs@.take(0)));
    while i < fs.len()
        invariant
            i <= fs@.len(),
            mv == opt_str_view(m),
            diag_views(out@) == before + top_flows_check(*idx, mv, fs@.take(i as int)),
        decreases fs.len() - i,
    {
        assert(fs@.take(i + 1).drop_last() =~= fs@.take(i as int));
        let f = &fs[i];
        check_flow(m, f, f.name.as_str(), idx, out);
        assert(diag_views(out@) =~= before + top_flows_check(*idx, mv, fs@.take(i + 1)));
        i = i + 1;
    }
    assert(fs@.take(fs@.len() as int) =~= fs@);
}

/// The control-flow errors and warnings of `story` against the index
/// `idx`.
pub fn flow_diagnostics_with_index(story: &Story, idx: &TypeIndex) -> (r: Vec<Diagnostic>)
    ensures
        diag_views(r@) == flow_story_checks(*idx, *story),
{
    let mut out: Vec<Diagnostic> = Vec::new();
    assert(diag_views(out@) =~= Seq::<DiagView>::empty());
    check_scope_objects(&story.root_weave.content, true, &mut out);
    check_scope_flows(&story.flows, &mut out);
    let ghost s1 = diag_views(out@);
    let ghost ms = story.modules@;
    let mut i: usize = 0;
    assert(diag_views(out@) =~= s1 + scope_modules(ms.take(0)));
    while i < story.modules.len()
        invariant
            i <= ms.len(),
            ms == story.modules@,
            diag_views(out@) == s1 + scope_modules(ms.take(i as int)),
        decreases story.modules.len() - i,
    {
        assert(ms.take(i + 1).drop_last() =~= ms.take(i as int));
        check_scope_objects(&story.modules[i].weave.content, true, &mut out);
        check_scope_flows(&story.modules[i].flows, &mut out);
        assert(diag_views(out@) =~= s1 + scope_modules(ms.take(i + 1)));
        i = i + 1;
    }
    assert(ms.take(ms.len() as int) =~= ms);
    check_termination(&story.root_weave.content, false, true, &mut out);
    let ghost s2 = diag_views(out@);
    let mut i: usize = 0;
    assert(diag_views(out@) =~= s2 + modules_termination(ms.take(0)));
    while i < story.modules.len()
        invariant
            i <= ms.len(),
            ms == story.modules@,
            diag_views(out@) == s2 + modules_termination(ms.take(i as int)),
        decreases story.modules.len() - i,
    {
        assert(ms.take(i + 1).drop_last() =~= ms.take(i as int));
        check_termination(&story.modules[i].weave.content, false, true, &mut out);
        assert(diag_views(out@) =~= s2 + modules_termination(ms.take(i + 1)));
        i = i + 1;
    }
    let ghost s3 = diag_views(out@);
    let sites = collect_sites(story);
    let ghost sv = sites_view(sites@);
    let mut k: usize = 0;
    assert(diag_views(out@) =~= s3 + condition_checks(*idx, sv.take(0)));
    while k < sites.len()
        invariant
            k <= sites@.len(),
            sv == sites_view(sites@),
            diag_views(out@) == s3 + condition_checks(*idx, sv.take(k as int)),
        decreases sites.len() - k,
    {
        assert(sv.take(k + 1).drop_last() =~= sv.take(k as int));
        assert(sv.take(k + 1).last() == site_view(sites@[k as int]));
        check_site_conditions(&sites[k], idx, &mut out);
        assert(diag_views(out@) =~= s3 + condition_checks(*idx, sv.take(k + 1)));
        k = k + 1;
    }
    assert(sv.take(sv.len() as int) =~= sv);
    check_top_flows(None, &story.flows, idx, &mut out);
    let ghost s4 = diag_views(out@);
    let mut i: usize = 0;
    assert(diag_views(out@) =~= s4 + modules_flows_check(*idx, ms.take(0)));
    while i < story.modules.len()
        invariant
            i <= ms.len(),
            ms == story.modules@,
            diag_views(out@) == s4 + modules_flows_check(*idx, ms.take(i as int)),
        decreases story.modules.len() - i,
    {
        assert(ms.take(i + 1).drop_last() =~= ms.take(i as int));
        let module = &story.modules[i];
        check_top_flows(Some(module.name.as_str()), &module.flows, idx, &mut out);
        assert(diag_views(out@) =~= s4 + modules_flows_check(*idx, ms.take(i + 1)));
        i = i + 1;
    }
    assert(diag_views(out@) =~= flow_story_checks(*idx, *story));
    out
}

/// The control-flow errors and warnings of `story`: global `VAR`s away
/// from the top level, choices in conditionals that do not divert, typed
/// conditions that are not `bool`, returns outside functions, what
/// functions may not contain, wrong returns, and loose ends.
pub fn flow_diagnostics(story: &Story) -> (r: Vec<Diagnostic>)
    ensures
        exists|idx: TypeIndex| #[trigger] is_index_of(idx, *story) && diag_views(r@) == flow_story_checks(idx, *story),
{
    let idx = build_type_index(story);
    flow_diagnostics_with_index(story, &idx)
}

} // verus!
