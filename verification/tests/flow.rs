use ink_compiler::compiler::parse_source;
use ink_compiler::diagnostic::{Diagnostic, DiagnosticSeverity};
use ink_compiler::parsed::Story;
use ink_compiler::analysis::flow::flow_diagnostics;

fn parse_story(source: &str) -> Story {
    let parsed = parse_source(source);
    assert!(!parsed.has_errors(), "{:#?}", parsed.diagnostics);
    parsed.artifact.expect("parsed story")
}

#[allow(dead_code)]
fn assert_single_diagnostic(diagnostics: &[Diagnostic], severity: DiagnosticSeverity, message: &str) {
    assert_eq!(diagnostics.len(), 1, "{diagnostics:#?}");
    assert_eq!(diagnostics[0].severity, severity);
    assert_eq!(diagnostics[0].message, message);
}

#[test]
fn reports_loose_end_warnings_for_unterminated_knots() {
    let story = parse_story("== knot ==\nLine.");
    let diagnostics = flow_diagnostics(&story);

    assert_single_diagnostic(
        &diagnostics,
        DiagnosticSeverity::Warning,
        "Apparent loose end exists where the flow runs out. Do you need a '-> DONE' statement, choice or divert?",
    );
}

#[test]
fn accepts_bool_conditions() {
    let story = parse_story(
        "VAR ready: bool = true\n\
         { ready:\n\
           Conditional text.\n\
         }\n\
         * { ready } Choice text\n\
         -> DONE",
    );

    assert_eq!(flow_diagnostics(&story), []);
}

#[test]
fn reports_global_var_declarations_outside_story_top_level() {
    let cases = ["{ true:\n\
           VAR score: int = 0\n\
         }\n\
         -> DONE"];

    for source in cases {
        let story = parse_story(source);
        let diagnostics = flow_diagnostics(&story);

        assert_single_diagnostic(
            &diagnostics,
            DiagnosticSeverity::Error,
            "Global VAR declarations must appear at the story top level, outside knots, stitches, functions, choices, and conditionals.",
        );
    }
}

#[test]
fn reports_non_bool_typed_conditions() {
    let cases = [
        (
            "VAR value: int = 1\n\
             { value:\n\
               Text.\n\
             }",
            "Conditional condition has type int but expected bool",
        ),
        (
            "VAR value: float = 1.0\n\
             { value:\n\
               Text.\n\
             }",
            "Conditional condition has type float but expected bool",
        ),
        (
            "VAR label: string = \"yes\"\n\
             * { label } Choice text",
            "Choice condition has type string but expected bool",
        ),
        (
            "VAR values: int[] = [1]\n\
             { values:\n\
               Text.\n\
             }",
            "Conditional condition has type int[] but expected bool",
        ),
        (
            "STRUCT Player {\n\
             hp: int\n\
             }\n\
             VAR player: Player = { hp: 10 }\n\
             { player:\n\
               Text.\n\
             }",
            "Conditional condition has type Player but expected bool",
        ),
    ];

    for (source, expected_message) in cases {
        let story = parse_story(source);
        let diagnostics = flow_diagnostics(&story);

        assert_single_diagnostic(&diagnostics, DiagnosticSeverity::Error, expected_message);
    }
}

#[test]
fn accepts_valid_primitive_and_composite_function_returns() {
    let story = parse_story(
        "STRUCT Player {\n\
         hp: int\n\
         }\n\
         VAR default_player: Player = { hp: 10 }\n\
         VAR default_scores: int[] = [1]\n\
         == function add(a: int, b: int) => int ==\n\
         ~ return a + b\n\
         == function make_player() => Player ==\n\
         ~ return default_player\n\
         == function scores() => int[] ==\n\
         ~ return default_scores",
    );

    assert_eq!(flow_diagnostics(&story), []);
}

#[test]
fn module_functions_reject_diverts() {
    let story = parse_story(
        "=== module game ===\n\
         == main ==\n\
         ~ helper()\n\
         -> DONE\n\
         == function helper() => void ==\n\
         -> DONE",
    );
    let diagnostics = flow_diagnostics(&story);

    assert_single_diagnostic(
        &diagnostics,
        DiagnosticSeverity::Error,
        "Functions may not contain diverts, but saw '-> DONE'",
    );
}

#[test]
fn module_flows_report_loose_end_warnings() {
    let story = parse_story(
        "=== module game ===\n\
         == main ==\n\
         Line.",
    );
    let diagnostics = flow_diagnostics(&story);

    assert_single_diagnostic(
        &diagnostics,
        DiagnosticSeverity::Warning,
        "Apparent loose end exists where the flow runs out. Do you need a '-> DONE' statement, choice or divert?",
    );
}

#[test]
fn module_function_return_types_use_module_scope() {
    let story = parse_story(
        "=== module game ===\n\
         VAR score: int = 1\n\
         == main ==\n\
         -> DONE\n\
         == function current_score() => int ==\n\
         ~ return score",
    );

    assert_eq!(flow_diagnostics(&story), []);
}

#[test]
fn accepts_bare_return_in_void_function() {
    let story = parse_story(
        "== function log(message: string) => void ==\n\
         ~ return",
    );

    assert_eq!(flow_diagnostics(&story), []);
}

#[test]
fn reports_missing_return_value_in_non_void_function() {
    let story = parse_story(
        "== function score() => int ==\n\
         ~ return",
    );

    let diagnostics = flow_diagnostics(&story);

    assert_single_diagnostic(
        &diagnostics,
        DiagnosticSeverity::Error,
        "Function 'score' must return int but return has no value",
    );
}

#[test]
fn reports_value_return_in_void_function() {
    let story = parse_story(
        "== function log() => void ==\n\
         ~ return \"ok\"",
    );

    let diagnostics = flow_diagnostics(&story);

    assert_single_diagnostic(
        &diagnostics,
        DiagnosticSeverity::Error,
        "Function 'log' returns void but return has a value",
    );
}

#[test]
fn reports_wrong_return_type() {
    let story = parse_story(
        "== function score(label: string) => int ==\n\
         ~ return label",
    );

    let diagnostics = flow_diagnostics(&story);

    assert_single_diagnostic(
        &diagnostics,
        DiagnosticSeverity::Error,
        "Function 'score' returns string but declared return type is int",
    );
}

#[test]
fn reports_wrong_composite_return_type() {
    let story = parse_story(
        "STRUCT Player {\n\
         hp: int\n\
         }\n\
         VAR scores: int[] = [1]\n\
         == function make_player() => Player ==\n\
         ~ return scores",
    );

    let diagnostics = flow_diagnostics(&story);

    assert_single_diagnostic(
        &diagnostics,
        DiagnosticSeverity::Error,
        "Function 'make_player' returns int[] but declared return type is Player",
    );
}
