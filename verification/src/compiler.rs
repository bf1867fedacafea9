//! Stage results and the entry points that turn source text into a story.
use vstd::prelude::*;

use crate::diagnostic::{contains_error, has_error, Diagnostic};
use crate::parsed::Story;
use crate::parser::story::{lines_step, module_finished, parse_source_text, StoryBuilder};
use crate::text::owned;

verus! {

/// What a compiler stage produced, with the diagnostics it reported.
pub struct StageOutput<T> {
    pub artifact: Option<T>,
    pub diagnostics: Vec<Diagnostic>,
}

impl<T> StageOutput<T> {
    /// Whether any reported diagnostic is an error.
    pub fn has_errors(&self) -> (r: bool)
        ensures
            r == has_error(self.diagnostics@),
    {
        contains_error(&self.diagnostics)
    }
}

/// Source text, optionally named after the file it came from.
#[derive(Debug)]
pub struct SourceInput {
    pub text: String,
    pub source_filename: Option<String>,
}

impl SourceInput {
    pub fn new(text: &str) -> (r: Self)
        ensures
            r.text@ == text@,
            r.source_filename is None,
    {
        SourceInput { text: owned(text), source_filename: None }
    }

    pub fn named(text: &str, source_filename: &str) -> (r: Self)
        ensures
            r.text@ == text@,
            r.source_filename matches Some(name) && name@ == source_filename@,
    {
        SourceInput { text: owned(text), source_filename: Some(owned(source_filename)) }
    }
}

impl Clone for SourceInput {
    fn clone(&self) -> (r: Self)
        ensures
            r == *self,
    {
        SourceInput {
            text: self.text.clone(),
            source_filename: match &self.source_filename {
                Some(name) => Some(name.clone()),
                None => None,
            },
        }
    }
}

/// A builder that holds nothing yet.
pub open spec fn empty_builder(a: StoryBuilder) -> bool {
    &&& a.root_weave@.len() == 0
    &&& a.root_flows@.len() == 0
    &&& a.modules@.len() == 0
    &&& a.module is None
    &&& a.knot is None
    &&& a.stitch is None
    &&& a.conditionals@.len() == 0
    &&& a.struct_block is None
    &&& a.enum_block is None
    &&& a.diagnostics@.len() == 0
}

/// `b` is `a` after every line of the source `text` named `source_filename`,
/// with everything closed at its end.
pub open spec fn source_step(a: StoryBuilder, b: StoryBuilder, text: Seq<char>, source_filename: Option<String>) -> bool {
    exists|m: StoryBuilder| lines_step(a, m, text, 0, 1, source_filename) && #[trigger] module_finished(m, b)
}

/// `b` is `a` after each source of `inputs`, in order.
pub open spec fn sources_step(a: StoryBuilder, b: StoryBuilder, inputs: Seq<SourceInput>) -> bool
    decreases inputs.len(),
{
    if inputs.len() == 0 {
        b == a
    } else {
        exists|m: StoryBuilder|
            sources_step(a, m, inputs.drop_last()) && #[trigger] source_step(
                m,
                b,
                inputs.last().text@,
                inputs.last().source_filename,
            )
    }
}

/// `story` holds what the builder `b` holds.
pub open spec fn story_of(story: Story, b: StoryBuilder) -> bool {
    &&& story.root_weave.content == b.root_weave
    &&& story.flows == b.root_flows
    &&& story.modules == b.modules
}

/// The front end: parses sources into one story.
pub struct Compiler {}

impl Compiler {
    pub fn new() -> Self {
        Compiler {  }
    }

    /// Parses every input, in order, into one story. Modules of all inputs
    /// are listed in input order; the story is produced even when a line
    /// could not be read, and each such line is reported as an error.
    pub fn parse_sources(&self, inputs: Vec<SourceInput>) -> (r: StageOutput<Story>)
        ensures
            r.artifact is Some,
            exists|a: StoryBuilder, b: StoryBuilder|
                empty_builder(a) && #[trigger] sources_step(a, b, inputs@) && story_of(r.artifact->0, b) && r.diagnostics == b.diagnostics,
    {
        let mut builder = StoryBuilder::new();
        let ghost a = builder;
        let mut i: usize = 0;
        assert(inputs@.subrange(0, 0) =~= Seq::<SourceInput>::empty());
        while i < inputs.len()
            invariant
                i <= inputs.len(),
                empty_builder(a),
                sources_step(a, builder, inputs@.subrange(0, i as int)),
            decreases inputs.len() - i,
        {
            let ghost before = builder;
            parse_source_text(&mut builder, inputs[i].text.as_str(), &inputs[i].source_filename);
            assert(source_step(before, builder, inputs@[i as int].text@, inputs@[i as int].source_filename));
            assert(inputs@.subrange(0, i + 1).drop_last() =~= inputs@.subrange(0, i as int));
            i = i + 1;
        }
        assert(inputs@.subrange(0, inputs.len() as int) =~= inputs@);
        let ghost b = builder;
        let diagnostics = builder.diagnostics;
        let builder = StoryBuilder { diagnostics: Vec::new(), ..builder };
        let r = StageOutput { artifact: Some(builder.into_story()), diagnostics };
        assert(story_of(r.artifact->0, b));
        r
    }
}

impl Default for Compiler {
    fn default() -> Self {
        Compiler {  }
    }
}

/// Parses one unnamed source.
pub fn parse_source(text: &str) -> (r: StageOutput<Story>)
    ensures
        r.artifact is Some,
        exists|a: StoryBuilder, b: StoryBuilder|
            empty_builder(a) && #[trigger] source_step(a, b, text@, None) && story_of(r.artifact->0, b) && r.diagnostics == b.diagnostics,
{
    let mut inputs: Vec<SourceInput> = Vec::new();
    inputs.push(SourceInput::new(text));
    let ghost one = inputs@;
    let r = Compiler::new().parse_sources(inputs);
    assert forall|a: StoryBuilder, b: StoryBuilder| #[trigger] sources_step(a, b, one) implies source_step(a, b, text@, None) by {
        reveal_with_fuel(sources_step, 2);
        assert(one.drop_last() =~= Seq::<SourceInput>::empty());
        let m = choose|m: StoryBuilder|
            sources_step(a, m, one.drop_last()) && #[trigger] source_step(m, b, one.last().text@, one.last().source_filename);
        assert(m == a);
        assert(one.last().text@ == text@);
    }
    r
}

} // verus!
