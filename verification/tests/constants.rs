use ink_compiler::compiler::parse_source;
use ink_compiler::diagnostic::{Diagnostic, DiagnosticSeverity};
use ink_compiler::parsed::Story;
use ink_compiler::analysis::constants::constant_redefinition_diagnostics;

fn parse_story(source: &str) -> Story {
    let parsed = parse_source(source);
    assert!(!parsed.has_errors(), "{:#?}", parsed.diagnostics);
    parsed.artifact.expect("parsed story")
}

#[allow(dead_code)]
fn assert_single_diagnostic(diagnostics: &[Diagnostic], severity: DiagnosticSeverity, message: &str) {
    assert_eq!(diagnostics.len(), 1, "{diagnostics:#?}");
    assert_eq!(diagnostics[0].severity, severity);
    assert_eq!(diagnostics[0].message, message);
}

#[test]
fn reports_changed_constant_redefinition() {
    let story = parse_story("CONST score: int = 1\nCONST score: int = 2");
    let diagnostics = constant_redefinition_diagnostics(&story);

    assert_single_diagnostic(
        &diagnostics,
        DiagnosticSeverity::Error,
        "CONST 'score' has been redefined with a different type or value",
    );
}

#[test]
fn allows_same_value_constant_redefinition() {
    let story = parse_story("CONST score: int = 1\nCONST score: int = 1");

    assert!(constant_redefinition_diagnostics(&story).is_empty());
}

#[test]
fn reports_changed_constant_redefinition_type() {
    let story = parse_story("CONST score: int = 1\nCONST score: string = \"1\"");
    let diagnostics = constant_redefinition_diagnostics(&story);

    assert_single_diagnostic(
        &diagnostics,
        DiagnosticSeverity::Error,
        "CONST 'score' has been redefined with a different type or value",
    );
}

#[test]
fn leaves_module_constants_to_module_namespace_analysis() {
    let story = parse_story(
        "=== module first ===\n\
         CONST score: int = 1\n\
         === module second ===\n\
         CONST score: string = \"1\"",
    );

    assert!(constant_redefinition_diagnostics(&story).is_empty());
}
