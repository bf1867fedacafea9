//! Lists of messages, and turning them into errors at one place.
use vstd::prelude::*;

use crate::diagnostic::{diag_view, diag_views, DiagView, Diagnostic, DiagnosticSeverity};
use crate::source::SourceSpan;

verus! {

pub open spec fn messages_view(ms: Seq<String>) -> Seq<Seq<char>> {
    ms.map_values(|s: String| s@)
}

/// Appends one message.
pub fn push_message(ms: &mut Vec<String>, m: String)
    ensures
        messages_view(final(ms)@) == messages_view(old(ms)@).push(m@),
{
    let ghost before = ms@;
    ms.push(m);
    assert(messages_view(ms@) =~= messages_view(before).push(m@));
}

/// Each message as an error at `span`.
pub open spec fn errors_at(ms: Seq<Seq<char>>, span: SourceSpan) -> Seq<DiagView> {
    ms.map_values(|m: Seq<char>| (DiagnosticSeverity::Error, m, span))
}

/// Appends each message as an error at `span`.
pub fn push_errors(ms: &Vec<String>, span: &SourceSpan, out: &mut Vec<Diagnostic>)
    ensures
        diag_views(final(out)@) == diag_views(old(out)@) + errors_at(messages_view(ms@), *span),
{
    let ghost before = diag_views(out@);
    let ghost mv = messages_view(ms@);
    let mut i: usize = 0;
    assert(diag_views(out@) =~= before + errors_at(mv.take(0), *span));
    while i < ms.len()
        invariant
            i <= ms@.len(),
            mv == messages_view(ms@),
            diag_views(out@) == before + errors_at(mv.take(i as int), *span),
        decreases ms.len() - i,
    {
        let ghost prev = out@;
        out.push(Diagnostic::error(span.duplicate(), ms[i].clone()));
        proof {
            assert(diag_views(out@) =~= diag_views(prev).push(diag_view(out@.last())));
            assert(errors_at(mv.take(i + 1), *span) =~= errors_at(mv.take(i as int), *span).push(
                (DiagnosticSeverity::Error, mv[i as int], *span),
            ));
        }
        i = i + 1;
    }
    assert(mv.take(mv.len() as int) =~= mv);
}

} // verus!
