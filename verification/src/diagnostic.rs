//! Diagnostics reported by the analysis passes.
use vstd::prelude::*;

use crate::source::SourceSpan;
use crate::text::{seq_char_less, str_less};

verus! {

#[derive(Debug, Clone, Copy, PartialEq, Eq, Structural)]
pub enum DiagnosticSeverity {
    Error,
    Warning,
}

/// What a diagnostic says: its severity, message and span.
pub type DiagView = (DiagnosticSeverity, Seq<char>, SourceSpan);

pub open spec fn diag_view(d: Diagnostic) -> DiagView {
    (d.severity, d.message@, d.span_view())
}

pub open spec fn diag_views(s: Seq<Diagnostic>) -> Seq<DiagView> {
    s.map_values(|d: Diagnostic| diag_view(d))
}

/// A message tied to a source position.
#[derive(Debug, PartialEq, Eq)]
pub struct Diagnostic {
    pub severity: DiagnosticSeverity,
    pub message: String,
    pub source_filename: Option<String>,
    pub line: usize,
    pub column: usize,
}

impl Diagnostic {
    /// An error at `span`.
    pub fn error(span: SourceSpan, message: String) -> (r: Self)
        ensures
            r.severity == DiagnosticSeverity::Error,
            r.message@ == message@,
            r.source_filename == span.source_filename,
            r.line == span.line,
            r.column == span.column,
    {
        Diagnostic {
            severity: DiagnosticSeverity::Error,
            message,
            source_filename: span.source_filename,
            line: span.line,
            column: span.column,
        }
    }

    /// A warning at `span`.
    pub fn warning(span: SourceSpan, message: String) -> (r: Self)
        ensures
            r.severity == DiagnosticSeverity::Warning,
            r.message@ == message@,
            r.source_filename == span.source_filename,
            r.line == span.line,
            r.column == span.column,
    {
        Diagnostic {
            severity: DiagnosticSeverity::Warning,
            message,
            source_filename: span.source_filename,
            line: span.line,
            column: span.column,
        }
    }

    pub open spec fn is_error(&self) -> bool {
        self.severity == DiagnosticSeverity::Error
    }

    /// The span the diagnostic points at.
    pub open spec fn span_view(&self) -> SourceSpan {
        SourceSpan { source_filename: self.source_filename, line: self.line, column: self.column }
    }
}

impl Clone for Diagnostic {
    fn clone(&self) -> (r: Self)
        ensures
            r == *self,
    {
        Diagnostic {
            severity: self.severity,
            message: self.message.clone(),
            source_filename: match &self.source_filename {
                Some(name) => Some(name.clone()),
                None => None,
            },
            line: self.line,
            column: self.column,
        }
    }
}

pub proof fn lemma_diag_views_add(a: Seq<Diagnostic>, b: Seq<Diagnostic>)
    ensures
        diag_views(a + b) == diag_views(a) + diag_views(b),
{
    assert(diag_views(a + b) =~= diag_views(a) + diag_views(b));
}

/// Moves the diagnostics of `more` to the end of `out`.
pub fn append_diagnostics(out: &mut Vec<Diagnostic>, more: Vec<Diagnostic>)
    ensures
        final(out)@ == old(out)@ + more@,
        diag_views(final(out)@) == diag_views(old(out)@) + diag_views(more@),
{
    let mut more = more;
    proof { lemma_diag_views_add(out@, more@); }
    out.append(&mut more);
}

/// Whether any diagnostic in `diagnostics` is an error.
pub open spec fn has_error(diagnostics: Seq<Diagnostic>) -> bool {
    exists|i: int| 0 <= i < diagnostics.len() && #[trigger] diagnostics[i].is_error()
}

/// Whether any of `diagnostics` is an error.
pub fn contains_error(diagnostics: &Vec<Diagnostic>) -> (r: bool)
    ensures
        r == has_error(diagnostics@),
{
    let mut i: usize = 0;
    while i < diagnostics.len()
        invariant
            i <= diagnostics.len(),
            forall|k: int| 0 <= k < i ==> !(#[trigger] diagnostics@[k]).is_error(),
        decreases diagnostics.len() - i,
    {
        match diagnostics[i].severity {
            DiagnosticSeverity::Error => {
                assert(diagnostics@[i as int].is_error());
                return true;
            },
            DiagnosticSeverity::Warning => {},
        }
        i = i + 1;
    }
    false
}

// ---------------------------------------------------------------------------
// The order in which diagnostics are reported: by file name (unnamed first),
// then line, column and message.

pub open spec fn option_name_less(a: Option<String>, b: Option<String>) -> bool {
    match (a, b) {
        (None, Some(_)) => true,
        (Some(x), Some(y)) => seq_char_less(x@, y@),
        _ => false,
    }
}

pub open spec fn option_name_same(a: Option<String>, b: Option<String>) -> bool {
    match (a, b) {
        (None, None) => true,
        (Some(x), Some(y)) => x@ == y@,
        _ => false,
    }
}

/// `a` is reported strictly before `b`.
pub open spec fn diagnostic_less(a: Diagnostic, b: Diagnostic) -> bool {
    ||| option_name_less(a.source_filename, b.source_filename)
    ||| option_name_same(a.source_filename, b.source_filename) && a.line < b.line
    ||| option_name_same(a.source_filename, b.source_filename) && a.line == b.line && a.column
        < b.column
    ||| option_name_same(a.source_filename, b.source_filename) && a.line == b.line && a.column
        == b.column && seq_char_less(a.message@, b.message@)
}

/// No diagnostic comes strictly before one that precedes it.
pub open spec fn diagnostics_sorted(s: Seq<Diagnostic>) -> bool {
    forall|i: int, j: int| 0 <= i < j < s.len() ==> !diagnostic_less(s[j], s[i])
}

pub proof fn lemma_seq_char_less_transitive(a: Seq<char>, b: Seq<char>, c: Seq<char>)
    requires
        seq_char_less(a, b),
        seq_char_less(b, c),
    ensures
        seq_char_less(a, c),
    decreases a.len(),
{
    if a.len() > 0 && b.len() > 0 && c.len() > 0 && a[0] == b[0] && b[0] == c[0] {
        lemma_seq_char_less_transitive(a.drop_first(), b.drop_first(), c.drop_first());
    }
}

pub proof fn lemma_seq_char_less_irreflexive(a: Seq<char>)
    ensures
        !seq_char_less(a, a),
    decreases a.len(),
{
    if a.len() > 0 {
        lemma_seq_char_less_irreflexive(a.drop_first());
    }
}

proof fn lemma_option_name_less_transitive(a: Option<String>, b: Option<String>, c: Option<String>)
    requires
        option_name_less(a, b) || option_name_same(a, b),
        option_name_less(b, c) || option_name_same(b, c),
    ensures
        option_name_less(a, c) || option_name_same(a, c),
        option_name_less(a, b) || option_name_less(b, c) ==> option_name_less(a, c),
{
    match (a, b, c) {
        (Some(x), Some(y), Some(z)) => {
            if seq_char_less(x@, y@) && seq_char_less(y@, z@) {
                lemma_seq_char_less_transitive(x@, y@, z@);
            }
        },
        _ => {},
    }
}

pub proof fn lemma_diagnostic_less_irreflexive(a: Diagnostic)
    ensures
        !diagnostic_less(a, a),
{
    lemma_seq_char_less_irreflexive(a.message@);
    match a.source_filename {
        Some(x) => lemma_seq_char_less_irreflexive(x@),
        None => {},
    }
}

pub proof fn lemma_diagnostic_less_transitive(a: Diagnostic, b: Diagnostic, c: Diagnostic)
    requires
        diagnostic_less(a, b),
        diagnostic_less(b, c),
    ensures
        diagnostic_less(a, c),
{
    lemma_option_name_less_transitive(a.source_filename, b.source_filename, c.source_filename);
    if seq_char_less(a.message@, b.message@) && seq_char_less(b.message@, c.message@) {
        lemma_seq_char_less_transitive(a.message@, b.message@, c.message@);
    }
}

fn option_name_compare(a: &Option<String>, b: &Option<String>) -> (r: (bool, bool))
    ensures
        r.0 == option_name_less(*a, *b),
        r.1 == option_name_same(*a, *b),
{
    match (a, b) {
        (None, None) => (false, true),
        (None, Some(_)) => (true, false),
        (Some(_), None) => (false, false),
        (Some(x), Some(y)) => (str_less(x.as_str(), y.as_str()), *x == *y),
    }
}

/// Two character sequences are equal or one comes before the other.
pub proof fn lemma_seq_char_less_total(a: Seq<char>, b: Seq<char>)
    ensures
        a == b || seq_char_less(a, b) || seq_char_less(b, a),
    decreases a.len(),
{
    if a.len() == 0 && b.len() == 0 {
        assert(a =~= b);
    } else if a.len() > 0 && b.len() > 0 && a[0] == b[0] {
        lemma_seq_char_less_total(a.drop_first(), b.drop_first());
        if a.drop_first() == b.drop_first() {
            assert(a.drop_first().len() == b.drop_first().len());
            assert(a.len() == b.len());
            assert forall|i: int| 0 <= i < a.len() implies a[i] == b[i] by {
                if i > 0 {
                    assert(a[i] == a.drop_first()[i - 1]);
                    assert(b[i] == b.drop_first()[i - 1]);
                }
            }
            assert(a =~= b);
        }
    }
}

/// `a` and `b` are reported at the same place with the same message.
pub open spec fn diagnostic_same_place(a: Diagnostic, b: Diagnostic) -> bool {
    &&& option_name_same(a.source_filename, b.source_filename)
    &&& a.line == b.line
    &&& a.column == b.column
    &&& a.message@ == b.message@
}

pub proof fn lemma_diagnostic_less_total(a: Diagnostic, b: Diagnostic)
    ensures
        diagnostic_less(a, b) || diagnostic_less(b, a) || diagnostic_same_place(a, b),
{
    lemma_seq_char_less_total(a.message@, b.message@);
    match (a.source_filename, b.source_filename) {
        (Some(x), Some(y)) => lemma_seq_char_less_total(x@, y@),
        _ => {},
    }
}

/// Where `a` comes before `c`, any `b` comes after `a` or before `c`.
pub proof fn lemma_diagnostic_less_split(a: Diagnostic, b: Diagnostic, c: Diagnostic)
    requires
        diagnostic_less(a, c),
    ensures
        diagnostic_less(a, b) || diagnostic_less(b, c),
{
    lemma_diagnostic_less_total(a, b);
    if diagnostic_less(b, a) {
        lemma_diagnostic_less_transitive(b, a, c);
    }
}

/// `p` takes each position of `sorted` to the position of `input` that
/// its element came from: `sorted` is `input` reordered, and elements
/// that neither comes before the other keep their order of `input`.
pub open spec fn sorted_from(input: Seq<Diagnostic>, sorted: Seq<Diagnostic>, p: Seq<int>) -> bool {
    &&& p.len() == sorted.len()
    &&& sorted.len() == input.len()
    &&& forall|k: int| 0 <= k < p.len() ==> 0 <= #[trigger] p[k] < input.len() && sorted[k] == input[p[k]]
    &&& forall|a: int, b: int| 0 <= a < p.len() && 0 <= b < p.len() && a != b ==> #[trigger] p[a] != #[trigger] p[b]
    &&& forall|a: int, b: int| 0 <= a < b < p.len() && !diagnostic_less(#[trigger] sorted[a], #[trigger] sorted[b]) ==> p[a] < p[b]
}

/// Whether `a` is reported strictly before `b`.
pub fn diagnostic_before(a: &Diagnostic, b: &Diagnostic) -> (r: bool)
    ensures
        r == diagnostic_less(*a, *b),
{
    let (less, same) = option_name_compare(&a.source_filename, &b.source_filename);
    if less {
        return true;
    }
    if !same {
        return false;
    }
    if a.line != b.line {
        return a.line < b.line;
    }
    if a.column != b.column {
        return a.column < b.column;
    }
    str_less(a.message.as_str(), b.message.as_str())
}

/// Puts `diagnostics` in report order, keeping the order of equal ones.
pub fn sort_diagnostics(diagnostics: &mut Vec<Diagnostic>)
    ensures
        diagnostics_sorted(final(diagnostics)@),
        final(diagnostics)@.to_multiset() == old(diagnostics)@.to_multiset(),
        final(diagnostics)@.len() == old(diagnostics)@.len(),
        exists|p: Seq<int>| #[trigger] sorted_from(old(diagnostics)@, final(diagnostics)@, p),
{
    broadcast use vstd::seq_lib::to_multiset_insert, vstd::seq_lib::to_multiset_len;

    let mut input: Vec<Diagnostic> = Vec::new();
    std::mem::swap(&mut input, diagnostics);
    let mut sorted: Vec<Diagnostic> = Vec::new();
    let mut i: usize = 0;
    let ghost mut perm: Seq<int> = Seq::empty();
    assert(input@.take(0) =~= sorted@);
    while i < input.len()
        invariant
            i <= input.len(),
            diagnostics_sorted(sorted@),
            sorted@.to_multiset() == input@.take(i as int).to_multiset(),
            sorted@.len() == i,
            sorted_from(input@.take(i as int), sorted@, perm),
        decreases input.len() - i,
    {
        let item = input[i].clone();
        let mut pos: usize = 0;
        while pos < sorted.len() && !diagnostic_before(&item, &sorted[pos])
            invariant
                pos <= sorted.len(),
                forall|k: int| 0 <= k < pos ==> !diagnostic_less(item, #[trigger] sorted@[k]),
            decreases sorted.len() - pos,
        {
            pos = pos + 1;
        }
        let ghost old_sorted = sorted@;
        let ghost old_perm = perm;
        sorted.insert(pos, item);
        proof {
            perm = old_perm.insert(pos as int, i as int);
            let inp = input@.take(i + 1);
            assert(item == input@[i as int]);
            assert forall|k: int| 0 <= k < perm.len() implies 0 <= #[trigger] perm[k] < inp.len() && sorted@[k] == inp[perm[k]] by {
                if k < pos {
                    assert(sorted@[k] == old_sorted[k] && perm[k] == old_perm[k]);
                } else if k > pos {
                    assert(sorted@[k] == old_sorted[k - 1] && perm[k] == old_perm[k - 1]);
                }
            }
            assert forall|a: int, b: int| 0 <= a < perm.len() && 0 <= b < perm.len() && a != b implies #[trigger] perm[a] != #[trigger] perm[b] by {
                let oa = if a < pos { a } else { a - 1 };
                let ob = if b < pos { b } else { b - 1 };
                if a != pos && b != pos {
                    assert(perm[a] == old_perm[oa] && perm[b] == old_perm[ob]);
                } else if a == pos {
                    assert(perm[b] == old_perm[ob]);
                } else {
                    assert(perm[a] == old_perm[oa]);
                }
            }
            assert forall|a: int, b: int| 0 <= a < b < perm.len() && !diagnostic_less(#[trigger] sorted@[a], #[trigger] sorted@[b])
                implies perm[a] < perm[b] by {
                if b == pos {
                    assert(perm[a] == old_perm[a]);
                } else if a == pos {
                    assert(sorted@[b] == old_sorted[b - 1]);
                    assert(diagnostic_less(item, old_sorted[pos as int]));
                    if b - 1 > pos {
                        assert(!diagnostic_less(old_sorted[b - 1], old_sorted[pos as int]));
                    }
                    lemma_diagnostic_less_split(item, old_sorted[b - 1], old_sorted[pos as int]);
                } else {
                    let oa = if a < pos { a } else { a - 1 };
                    let ob = if b < pos { b } else { b - 1 };
                    assert(sorted@[a] == old_sorted[oa] && perm[a] == old_perm[oa]);
                    assert(sorted@[b] == old_sorted[ob] && perm[b] == old_perm[ob]);
                }
            }
            assert forall|a: int, b: int| 0 <= a < b < sorted@.len() implies !diagnostic_less(
                sorted@[b],
                sorted@[a],
            ) by {
                if b == pos {
                    assert(sorted@[a] == old_sorted[a]);
                } else if a == pos {
                    assert(sorted@[b] == old_sorted[b - 1]);
                    if diagnostic_less(sorted@[b], item) {
                        lemma_diagnostic_less_transitive(sorted@[b], item, old_sorted[pos as int]);
                        if b - 1 == pos {
                            lemma_diagnostic_less_irreflexive(old_sorted[pos as int]);
                        }
                    }
                } else {
                    let oa = if a < pos { a } else { a - 1 };
                    let ob = if b < pos { b } else { b - 1 };
                    assert(sorted@[a] == old_sorted[oa]);
                    assert(sorted@[b] == old_sorted[ob]);
                }
            }
            vstd::seq_lib::to_multiset_insert(old_sorted, pos as int, item);
            assert(input@.take(i + 1) =~= input@.take(i as int).push(item));
            vstd::seq_lib::to_multiset_build(input@.take(i as int), item);
        }
        i = i + 1;
    }
    assert(input@.take(input@.len() as int) =~= input@);
    assert(sorted_from(input@, sorted@, perm));
    *diagnostics = sorted;
}

/// Two sequences with the same multiset hold the same elements.
pub proof fn lemma_same_elements(a: Seq<Diagnostic>, b: Seq<Diagnostic>)
    requires
        a.to_multiset() == b.to_multiset(),
    ensures
        forall|x: Diagnostic| #[trigger] a.contains(x) <==> b.contains(x),
{
    assert forall|x: Diagnostic| #[trigger] a.contains(x) <==> b.contains(x) by {
        vstd::seq_lib::to_multiset_contains(a, x);
        vstd::seq_lib::to_multiset_contains(b, x);
    }
}

} // verus!
