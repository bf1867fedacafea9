//! Where an object starts, for diagnostics that point at whole objects.
use vstd::prelude::*;

use crate::parsed::{ConditionalBranch, Object, Weave};
use crate::source::SourceSpan;

verus! {

/// The span used when an object has no position of its own: line 1,
/// column 1 of an unnamed source.
pub open spec fn default_span_spec() -> SourceSpan {
    SourceSpan { source_filename: None, line: 1, column: 1 }
}

pub fn default_span() -> (r: SourceSpan)
    ensures
        r == default_span_spec(),
{
    SourceSpan::new(None, 1, 1)
}

/// The span of the first object of `objects`, or the default span.
pub open spec fn first_span_spec(objects: Seq<Object>) -> SourceSpan
    decreases objects, 1nat,
{
    if objects.len() == 0 {
        default_span_spec()
    } else {
        object_span_spec(objects[0])
    }
}

/// The span of the first object in the first branch that has any.
pub open spec fn branches_first_span(branches: Seq<ConditionalBranch>) -> SourceSpan
    decreases branches, 2nat,
{
    if branches.len() == 0 {
        default_span_spec()
    } else if branches[0].content.content@.len() > 0 {
        object_span_spec(branches[0].content.content@[0])
    } else {
        branches_first_span(branches.drop_first())
    }
}

/// An object's span: its own for objects that have one, the first nested
/// object's for containers, and the default span for the rest.
pub open spec fn object_span_spec(object: Object) -> SourceSpan
    decreases object, 0nat,
{
    match object {
        Object::Choice(c) => c.span,
        Object::ConstantDeclaration(d) => d.span,
        Object::Divert(d) => d.span,
        Object::ExternalDeclaration(e) => e.span,
        Object::EnumDeclaration(e) => e.span,
        Object::Gather(g) => g.span,
        Object::Return(r) => r.span,
        Object::TunnelOnwards(t) => t.span,
        Object::StructDeclaration(d) => d.span,
        Object::Text(t) => t.span,
        Object::VariableAssignment(a) => a.span,
        Object::IncDec(a) => a.span,
        Object::Conditional(c) => branches_first_span(c.branches@),
        Object::ContentList(c) => first_span_spec(c.objects@),
        Object::Weave(w) => first_span_spec(w.content@),
        Object::Tag(_) | Object::Glue(_) | Object::LogicLine(_) | Object::Expression(_) => default_span_spec(),
    }
}

/// The span of the first object of `weave`, or the default span.
pub fn first_span_in_weave(weave: &Weave) -> (r: SourceSpan)
    ensures
        r == first_span_spec(weave.content@),
{
    first_span_in_objects(&weave.content)
}

pub fn first_span_in_objects(objects: &Vec<Object>) -> (r: SourceSpan)
    ensures
        r == first_span_spec(objects@),
    decreases objects@, 1nat,
{
    if objects.len() == 0 {
        default_span()
    } else {
        proof {
            assert(decreases_to!(objects@ => objects@[0]));
        }
        object_span(&objects[0])
    }
}

/// The span of `object`.
pub fn object_span(object: &Object) -> (r: SourceSpan)
    ensures
        r == object_span_spec(*object),
    decreases *object, 0nat,
{
    match object {
        Object::Choice(c) => c.span.duplicate(),
        Object::ConstantDeclaration(d) => d.span.duplicate(),
        Object::Divert(d) => d.span.duplicate(),
        Object::ExternalDeclaration(e) => e.span.duplicate(),
        Object::EnumDeclaration(e) => e.span.duplicate(),
        Object::Gather(g) => g.span.duplicate(),
        Object::Return(r) => r.span.duplicate(),
        Object::TunnelOnwards(t) => t.span.duplicate(),
        Object::StructDeclaration(d) => d.span.duplicate(),
        Object::Text(t) => t.span.duplicate(),
        Object::VariableAssignment(a) => a.span.duplicate(),
        Object::IncDec(a) => a.span.duplicate(),
        Object::Conditional(c) => {
            let mut i: usize = 0;
            assert(c.branches@.skip(0) =~= c.branches@);
            while i < c.branches.len()
                invariant
                    i <= c.branches@.len(),
                    *object is Conditional,
                    (*object)->Conditional_0 == *c,
                    branches_first_span(c.branches@) == branches_first_span(c.branches@.skip(i as int)),
                decreases c.branches.len() - i,
            {
                assert(c.branches@.skip(i as int)[0] == c.branches@[i as int]);
                if c.branches[i].content.content.len() > 0 {
                    proof {
                        assert(decreases_to!(*object => (*object)->Conditional_0));
                        assert(decreases_to!((*object)->Conditional_0 => c.branches));
                        assert(decreases_to!(c.branches => c.branches@));
                        assert(decreases_to!(c.branches@ => c.branches@[i as int]));
                        assert(decreases_to!(c.branches@[i as int] => c.branches@[i as int].content));
                        assert(decreases_to!(c.branches@[i as int].content => c.branches@[i as int].content.content));
                        assert(decreases_to!(c.branches@[i as int].content.content => c.branches@[i as int].content.content@));
                        assert(decreases_to!(c.branches@[i as int].content.content@ => c.branches@[i as int].content.content@[0]));
                    }
                    return object_span(&c.branches[i].content.content[0]);
                }
                assert(c.branches@.skip(i as int).drop_first() =~= c.branches@.skip(i + 1));
                i = i + 1;
            }
            default_span()
        },
        Object::ContentList(c) => {
            proof {
                assert(decreases_to!(*object => (*object)->ContentList_0));
                assert(decreases_to!((*object)->ContentList_0 => c.objects));
                assert(decreases_to!(c.objects => c.objects@));
            }
            first_span_in_objects(&c.objects)
        },
        Object::Weave(w) => {
            proof {
                assert(decreases_to!(*object => (*object)->Weave_0));
                assert(decreases_to!((*object)->Weave_0 => w.content));
                assert(decreases_to!(w.content => w.content@));
            }
            first_span_in_objects(&w.content)
        },
        Object::Tag(_) | Object::Glue(_) | Object::LogicLine(_) | Object::Expression(_) => default_span(),
    }
}

} // verus!
