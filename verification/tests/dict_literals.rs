use ink_compiler::compiler::parse_source;
use ink_compiler::diagnostic::{Diagnostic, DiagnosticSeverity};
use ink_compiler::parsed::Story;
use ink_compiler::analysis::literals::dict_literal_diagnostics;
use ink_compiler::analysis::run_analysis_passes;

fn parse_story(source: &str) -> Story {
    let parsed = parse_source(source);
    assert!(!parsed.has_errors(), "{:#?}", parsed.diagnostics);
    parsed.artifact.expect("parsed story")
}

#[allow(dead_code)]
fn assert_single_diagnostic(diagnostics: &[Diagnostic], severity: DiagnosticSeverity, message: &str) {
    assert_eq!(diagnostics.len(), 1, "{diagnostics:#?}");
    assert_eq!(diagnostics[0].severity, severity);
    assert_eq!(diagnostics[0].message, message);
}

#[test]
fn reports_wrong_dict_literal_key_type() {
    let story = parse_story(
        "VAR scores: Dict<int, int> = {\"ada\": 1}\n\
         -> DONE",
    );

    let diagnostics = dict_literal_diagnostics(&story);

    assert_single_diagnostic(
        &diagnostics,
        DiagnosticSeverity::Error,
        "Dict literal key for 'scores' has type string but expected int",
    );
}

#[test]
fn reports_wrong_dict_literal_value_type() {
    let story = parse_story(
        "VAR scores: Dict<string, int> = {\"ada\": \"high\"}\n\
         -> DONE",
    );

    let diagnostics = dict_literal_diagnostics(&story);

    assert_single_diagnostic(
        &diagnostics,
        DiagnosticSeverity::Error,
        "Value for 'scores[\"ada\"]' has type string but expected int",
    );
}

#[test]
fn reports_wrong_nested_dict_literal_value_type() {
    let story = parse_story(
        "VAR table: Dict<string, Dict<int, string>> = {\"row\": {1: 7}}\n\
         -> DONE",
    );

    let diagnostics = dict_literal_diagnostics(&story);

    assert_single_diagnostic(
        &diagnostics,
        DiagnosticSeverity::Error,
        "Value for 'table[\"row\"][1]' has type int but expected string",
    );
}

#[test]
fn reports_duplicate_string_dict_literal_keys() {
    let story = parse_story(
        "VAR scores: Dict<string, int> = {\"ada\": 10, \"ada\": 12}\n\
         -> DONE",
    );

    let diagnostics = dict_literal_diagnostics(&story);

    assert_single_diagnostic(
        &diagnostics,
        DiagnosticSeverity::Error,
        "Duplicate key \"ada\" in Dict literal for 'scores'",
    );
}

#[test]
fn reports_duplicate_int_dict_literal_keys() {
    let story = parse_story(
        "VAR names: Dict<int, string> = {1: \"one\", 1: \"uno\"}\n\
         -> DONE",
    );

    let diagnostics = dict_literal_diagnostics(&story);

    assert_single_diagnostic(
        &diagnostics,
        DiagnosticSeverity::Error,
        "Duplicate key 1 in Dict literal for 'names'",
    );
}

#[test]
fn reports_duplicate_nested_dict_literal_keys_with_context() {
    let story = parse_story(
        "VAR table: Dict<string, Dict<int, string>> = {\"row\": {1: \"one\", 1: \"uno\"}}\n\
         -> DONE",
    );

    let diagnostics = dict_literal_diagnostics(&story);

    assert_single_diagnostic(
        &diagnostics,
        DiagnosticSeverity::Error,
        "Duplicate key 1 in Dict literal for 'table[\"row\"]'",
    );
}

#[test]
fn rejects_dict_literal_without_expected_type() {
    let story = parse_story(
        "~ {\"ada\": 1}\n\
         -> DONE",
    );

    let diagnostics = dict_literal_diagnostics(&story);

    assert_single_diagnostic(
        &diagnostics,
        DiagnosticSeverity::Error,
        "Dict literal requires an expected Dict type",
    );
}

#[test]
fn checks_dict_fields_inside_struct_literals() {
    let story = parse_story(
        "STRUCT Bag {\n\
         scores: Dict<string, int>\n\
         }\n\
         VAR bag: Bag = { scores: { wrong: 1 } }\n\
         -> DONE",
    );

    let diagnostics = dict_literal_diagnostics(&story);

    assert_single_diagnostic(
        &diagnostics,
        DiagnosticSeverity::Error,
        "Value for 'Bag.scores' is a struct literal but expected Dict<string, int>",
    );
}

#[test]
fn accepts_dict_literals_with_nested_value_types() {
    let story = parse_story(
        "=== module game ===\n\
         FROM left\n\
         ENUM State { Idle Busy }\n\
         STRUCT Player {\n\
         hp: int\n\
         }\n\
         STRUCT Bag {\n\
         scores: Dict<string, int>\n\
         }\n\
         VAR players: Dict<string, Player> = {\"ada\": { hp: 10 }}\n\
         VAR nested: Dict<int, Dict<string, int[]>> = {1: {\"scores\": [1, 2]}}\n\
         VAR states: Dict<string, State> = {\"current\": State.Idle}\n\
         VAR empty: Dict<string, int> = {}\n\
         VAR emptyBag: Bag = { scores: {} }\n\
         == main ==\n\
         -> END\n\
         === module left ===\n\
         == target ==\n\
         -> END",
    );

    assert_eq!(run_analysis_passes(&story), []);
}

#[test]
fn repeated_and_wrongly_typed_keys_still_have_their_values_checked() {
    let story = parse_story(
        "VAR scores: Dict<string, int> = {\"ada\": 1, \"ada\": \"x\", 2: \"y\"}\n\
         -> DONE",
    );

    let messages: Vec<String> = dict_literal_diagnostics(&story).into_iter().map(|d| d.message).collect();

    assert_eq!(
        messages,
        vec![
            "Duplicate key \"ada\" in Dict literal for 'scores'".to_string(),
            "Value for 'scores[\"ada\"]' has type string but expected int".to_string(),
            "Dict literal key for 'scores' has type int but expected string".to_string(),
            "Value for 'scores[2]' has type string but expected int".to_string(),
        ]
    );
}
