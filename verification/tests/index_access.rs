use ink_compiler::compiler::parse_source;
use ink_compiler::diagnostic::{Diagnostic, DiagnosticSeverity};
use ink_compiler::parsed::Story;
use ink_compiler::analysis::access::index_access_diagnostics;
use ink_compiler::analysis::run_analysis_passes;

fn parse_story(source: &str) -> Story {
    let parsed = parse_source(source);
    assert!(!parsed.has_errors(), "{:#?}", parsed.diagnostics);
    parsed.artifact.expect("parsed story")
}

#[allow(dead_code)]
fn assert_single_diagnostic(diagnostics: &[Diagnostic], severity: DiagnosticSeverity, message: &str) {
    assert_eq!(diagnostics.len(), 1, "{diagnostics:#?}");
    assert_eq!(diagnostics[0].severity, severity);
    assert_eq!(diagnostics[0].message, message);
}

#[test]
fn resolves_array_index_type_in_typed_initializer_context() {
    let story = parse_story(
        "VAR items: int[] = [1]\n\
         VAR first: int = items[0]\n\
         -> DONE",
    );

    assert_eq!(run_analysis_passes(&story), []);
}

#[test]
fn resolves_nested_array_index_type() {
    let story = parse_story(
        "VAR matrix: int[][] = [[1]]\n\
         VAR first: int = matrix[0][0]\n\
         -> DONE",
    );

    assert_eq!(index_access_diagnostics(&story), []);
}

#[test]
fn reports_non_int_index_expression() {
    let story = parse_story(
        "VAR items: int[] = [1]\n\
         {items[true]}\n\
         -> DONE",
    );

    let diagnostics = index_access_diagnostics(&story);

    assert_single_diagnostic(
        &diagnostics,
        DiagnosticSeverity::Error,
        "Index expression has type bool but expected int",
    );
}

#[test]
fn reports_indexing_non_array_values() {
    let story = parse_story(
        "VAR score: int = 1\n\
         {score[0]}\n\
         -> DONE",
    );

    let diagnostics = index_access_diagnostics(&story);

    assert_single_diagnostic(
        &diagnostics,
        DiagnosticSeverity::Error,
        "Cannot index non-array type int",
    );
}

#[test]
fn does_not_allow_string_indexing() {
    let story = parse_story(
        "VAR label: string = \"abc\"\n\
         {label[0]}\n\
         -> DONE",
    );

    let diagnostics = index_access_diagnostics(&story);

    assert_single_diagnostic(
        &diagnostics,
        DiagnosticSeverity::Error,
        "Cannot index non-array type string",
    );
}
