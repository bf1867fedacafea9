use ink_compiler::compiler::parse_source;
use ink_compiler::diagnostic::{Diagnostic, DiagnosticSeverity};
use ink_compiler::parsed::Story;
use ink_compiler::analysis::literals::array_literal_diagnostics;
use ink_compiler::analysis::run_analysis_passes;

fn parse_story(source: &str) -> Story {
    let parsed = parse_source(source);
    assert!(!parsed.has_errors(), "{:#?}", parsed.diagnostics);
    parsed.artifact.expect("parsed story")
}

#[allow(dead_code)]
fn assert_single_diagnostic(diagnostics: &[Diagnostic], severity: DiagnosticSeverity, message: &str) {
    assert_eq!(diagnostics.len(), 1, "{diagnostics:#?}");
    assert_eq!(diagnostics[0].severity, severity);
    assert_eq!(diagnostics[0].message, message);
}

#[test]
fn accepts_primitive_array_literals() {
    let story = parse_story(
        "CONST default_scores: int[] = [1, 2, 3]\n\
         VAR scores: int[] = [1, 2, 3]\n\
         -> DONE",
    );

    assert_eq!(array_literal_diagnostics(&story), []);
}

#[test]
fn accepts_empty_array_literals_with_expected_type() {
    let story = parse_story(
        "VAR scores: int[] = []\n\
         -> DONE",
    );

    assert_eq!(array_literal_diagnostics(&story), []);
}

#[test]
fn accepts_nested_array_literals() {
    let story = parse_story(
        "VAR matrix: int[][] = [[1, 2], []]\n\
         -> DONE",
    );

    assert_eq!(array_literal_diagnostics(&story), []);
}

#[test]
fn accepts_array_literals_in_typed_divert_arguments() {
    let story = parse_story(
        "=== module game ===\n\
         == main ==\n\
         -> start([1, 2, 3])\n\
         == start(ids: int[]) ==\n\
         -> END",
    );

    assert_eq!(run_analysis_passes(&story), []);
}

#[test]
fn accepts_array_literals_in_typed_function_arguments() {
    let story = parse_story(
        "=== module game ===\n\
         == main ==\n\
         ~ temp values: int[] = identity([1, 2, 3])\n\
         {values[0]}\n\
         -> END\n\
         == function identity(values: int[]) => int[] ==\n\
         ~ return values",
    );

    assert_eq!(run_analysis_passes(&story), []);
}

#[test]
fn accepts_struct_array_literals_in_typed_divert_arguments() {
    let story = parse_story(
        "=== module game ===\n\
         STRUCT Player {\n\
         hp: int\n\
         }\n\
         == main ==\n\
         -> start([%Player{ hp: 10 }])\n\
         == start(players: Player[]) ==\n\
         -> END",
    );

    assert_eq!(run_analysis_passes(&story), []);
}

#[test]
fn reports_array_literal_argument_element_type_mismatch() {
    let story = parse_story(
        "=== module game ===\n\
         == main ==\n\
         -> start([1, \"two\"])\n\
         == start(ids: int[]) ==\n\
         -> END",
    );

    let diagnostics = array_literal_diagnostics(&story);

    assert_single_diagnostic(
        &diagnostics,
        DiagnosticSeverity::Error,
        "Value for 'ids[1]' has type string but expected int",
    );
}

#[test]
fn reports_function_call_array_argument_errors_at_containing_object_span() {
    let story = parse_story(
        "=== module game ===\n\
         == main ==\n\
         ~ temp value: int = collect([\"bad\"])\n\
         -> END\n\
         == function collect(values: int[]) => int ==\n\
         ~ return values[0]",
    );

    let diagnostics = array_literal_diagnostics(&story);

    assert_single_diagnostic(
        &diagnostics,
        DiagnosticSeverity::Error,
        "Value for 'values[0]' has type string but expected int",
    );
    assert_eq!(diagnostics[0].line, 3);
    assert_eq!(diagnostics[0].column, 1);
}

#[test]
fn accepts_struct_array_literals() {
    let story = parse_story(
        "STRUCT Player {\n\
         hp: int\n\
         }\n\
         VAR party: Player[] = [%Player{ hp: 10 }, %Player{}]\n\
         -> DONE",
    );

    assert_eq!(array_literal_diagnostics(&story), []);
}

#[test]
fn accepts_array_literal_fields_inside_struct_literals() {
    let story = parse_story(
        "STRUCT Player {\n\
         scores: int[]\n\
         }\n\
         VAR player: Player = %Player{ scores: [1, 2] }\n\
         -> DONE",
    );

    assert_eq!(array_literal_diagnostics(&story), []);
}

#[test]
fn reports_mixed_array_element_type() {
    let story = parse_story(
        "VAR scores: int[] = [1, \"two\"]\n\
         -> DONE",
    );

    let diagnostics = array_literal_diagnostics(&story);

    assert_single_diagnostic(
        &diagnostics,
        DiagnosticSeverity::Error,
        "Value for 'scores[1]' has type string but expected int",
    );
}

#[test]
fn reports_array_literal_without_expected_type() {
    let story = parse_story(
        "{[]}\n\
         -> DONE",
    );

    let diagnostics = array_literal_diagnostics(&story);

    assert_single_diagnostic(
        &diagnostics,
        DiagnosticSeverity::Error,
        "Array literal requires an expected array type",
    );
}
