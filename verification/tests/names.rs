use ink_compiler::compiler::parse_source;
use ink_compiler::diagnostic::{Diagnostic, DiagnosticSeverity};
use ink_compiler::parsed::Story;
use ink_compiler::analysis::names::naming_diagnostics;

fn parse_story(source: &str) -> Story {
    let parsed = parse_source(source);
    assert!(!parsed.has_errors(), "{:#?}", parsed.diagnostics);
    parsed.artifact.expect("parsed story")
}

#[allow(dead_code)]
fn assert_single_diagnostic(diagnostics: &[Diagnostic], severity: DiagnosticSeverity, message: &str) {
    assert_eq!(diagnostics.len(), 1, "{diagnostics:#?}");
    assert_eq!(diagnostics[0].severity, severity);
    assert_eq!(diagnostics[0].message, message);
}

#[test]
fn reports_duplicate_flow_arguments() {
    let story = parse_story("== knot(a, a) ==\n-> DONE");
    let diagnostics = naming_diagnostics(&story);

    assert_single_diagnostic(
        &diagnostics,
        DiagnosticSeverity::Error,
        "Multiple arguments with the same name: 'a'",
    );
}

#[test]
fn reports_module_temporary_names_conflicting_with_arguments() {
    let story = parse_story(
        "=== module game ===\n\
         == main(arg: int) ==\n\
         ~ temp arg: int = 0\n\
         -> DONE",
    );
    let diagnostics = naming_diagnostics(&story);

    assert_single_diagnostic(
        &diagnostics,
        DiagnosticSeverity::Error,
        "temp 'arg': name has already been used for an argument to main",
    );
}

#[test]
fn reports_module_argument_names_conflicting_with_module_globals() {
    let story = parse_story(
        "=== module game ===\n\
         VAR score: int = 0\n\
         == main(score: int) ==\n\
         -> DONE",
    );
    let diagnostics = naming_diagnostics(&story);

    assert_single_diagnostic(
        &diagnostics,
        DiagnosticSeverity::Error,
        "argument 'score': name has already been used for a var",
    );
}
