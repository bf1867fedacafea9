use ink_compiler::compiler::parse_source;
use ink_compiler::diagnostic::{Diagnostic, DiagnosticSeverity};
use ink_compiler::parsed::Story;
use ink_compiler::analysis::structs::{build_enum_type_index, enum_type_diagnostics, resolve_enum_symbol};

fn parse_story(source: &str) -> Story {
    let parsed = parse_source(source);
    assert!(!parsed.has_errors(), "{:#?}", parsed.diagnostics);
    parsed.artifact.expect("parsed story")
}

#[allow(dead_code)]
fn assert_single_diagnostic(diagnostics: &[Diagnostic], severity: DiagnosticSeverity, message: &str) {
    assert_eq!(diagnostics.len(), 1, "{diagnostics:#?}");
    assert_eq!(diagnostics[0].severity, severity);
    assert_eq!(diagnostics[0].message, message);
}

#[test]
fn indexes_root_and_module_enums() {
    let root_story = parse_story("ENUM RootState { Idle Busy }\n-> DONE");
    let root_index = build_enum_type_index(&root_story);

    assert_eq!(
        root_index.get("RootState").map(|symbol| symbol.members().as_slice()),
        Some(&["Idle".to_string(), "Busy".to_string()][..])
    );

    let module_story = parse_story(
        "=== module game ===\n\
         ENUM State {\n\
         Ready\n\
         Done\n\
         }\n\
         == main ==\n\
         -> END",
    );
    let module_index = build_enum_type_index(&module_story);

    assert!(module_index
        .get("game::State")
        .is_some_and(|symbol| symbol.contains_member("Ready")));
}

#[test]
fn reports_empty_enums() {
    let story = parse_story("ENUM State {}");

    let diagnostics = enum_type_diagnostics(&story);

    assert_single_diagnostic(
        &diagnostics,
        DiagnosticSeverity::Error,
        "Enum 'State' must declare at least one member",
    );
}

#[test]
fn reports_duplicate_enum_members() {
    let story = parse_story("ENUM State { Idle Idle }");

    let diagnostics = enum_type_diagnostics(&story);

    assert_single_diagnostic(
        &diagnostics,
        DiagnosticSeverity::Error,
        "Duplicate member 'Idle' in enum 'State'",
    );
}

#[test]
fn reports_duplicate_enum_names_inside_same_scope() {
    let story = parse_story("ENUM State { Idle }\nENUM State { Busy }");

    let diagnostics = enum_type_diagnostics(&story);

    assert_single_diagnostic(
        &diagnostics,
        DiagnosticSeverity::Error,
        "Duplicate enum declaration 'State'",
    );
}

#[test]
fn resolves_enum_symbols_by_current_module() {
    let story = parse_story(
        "=== module game ===\n\
         ENUM State { Ready }\n\
         == main ==\n\
         -> END",
    );
    let index = build_enum_type_index(&story);

    assert!(resolve_enum_symbol(&index, "State", Some("game")).is_some());
    assert!(resolve_enum_symbol(&index, "game::State", None).is_some());
    assert!(resolve_enum_symbol(&index, "State", None).is_none());
}
