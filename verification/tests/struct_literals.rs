use ink_compiler::compiler::parse_source;
use ink_compiler::diagnostic::{Diagnostic, DiagnosticSeverity};
use ink_compiler::parsed::Story;
use ink_compiler::analysis::literals::struct_literal_diagnostics;
use ink_compiler::analysis::run_analysis_passes;

fn parse_story(source: &str) -> Story {
    let parsed = parse_source(source);
    assert!(!parsed.has_errors(), "{:#?}", parsed.diagnostics);
    parsed.artifact.expect("parsed story")
}

#[allow(dead_code)]
fn assert_single_diagnostic(diagnostics: &[Diagnostic], severity: DiagnosticSeverity, message: &str) {
    assert_eq!(diagnostics.len(), 1, "{diagnostics:#?}");
    assert_eq!(diagnostics[0].severity, severity);
    assert_eq!(diagnostics[0].message, message);
}

#[test]
fn accepts_full_struct_literal_initializers() {
    let story = parse_story(
        "STRUCT Player {\n\
         hp: int\n\
         name: string\n\
         }\n\
         CONST default_player: Player = %Player{ hp: 5, name: \"Lin\" }\n\
         VAR player: Player = %Player{ hp: 10, name: \"Ada\" }\n\
         -> DONE",
    );

    assert_eq!(struct_literal_diagnostics(&story), []);
}

#[test]
fn resolves_struct_literals_against_current_module_structs() {
    let story = parse_story(
        "=== module game ===\n\
         STRUCT Item {\n\
         hp: int\n\
         }\n\
         VAR item: Item = %Item{ hp: 1 }\n\
         == main ==\n\
         -> DONE\n\
         === module items ===\n\
         STRUCT Item {\n\
         label: string\n\
         }\n\
         VAR item: Item = %Item{ label: \"sword\" }\n\
         == helper ==\n\
         -> DONE",
    );

    assert_eq!(struct_literal_diagnostics(&story), []);
}

#[test]
fn accepts_imported_qualified_struct_literals() {
    let story = parse_story(
        "=== module game ===\n\
         FROM items IMPORT Item\n\
         VAR item: items::Item = %items::Item{ hp: 1 }\n\
         == main ==\n\
         -> DONE\n\
         === module items ===\n\
         STRUCT Item {\n\
         hp: int\n\
         }\n\
         == helper ==\n\
         -> DONE",
    );

    assert_eq!(run_analysis_passes(&story), []);
}

#[test]
fn reports_wrong_type_for_imported_qualified_struct_literals() {
    let story = parse_story(
        "=== module game ===\n\
         FROM items IMPORT Item\n\
         VAR item: items::Item = %items::Item{ hp: \"full\" }\n\
         == main ==\n\
         -> DONE\n\
         === module items ===\n\
         STRUCT Item {\n\
         hp: int\n\
         }\n\
         == helper ==\n\
         -> DONE",
    );

    let diagnostics = struct_literal_diagnostics(&story);

    assert_single_diagnostic(
        &diagnostics,
        DiagnosticSeverity::Error,
        "Value for 'items::Item.hp' has type string but expected int",
    );
}

#[test]
fn accepts_partial_struct_literal_with_defaulted_array_field() {
    let story = parse_story(
        "STRUCT Player {\n\
         hp: int\n\
         inventory: int[]\n\
         }\n\
         VAR player: Player = %Player{ hp: 10 }\n\
         -> DONE",
    );

    assert_eq!(struct_literal_diagnostics(&story), []);
}

#[test]
fn rejects_missing_divert_target_struct_field() {
    let story = parse_story(
        "STRUCT Route {\n\
         next: ->\n\
         visits: int\n\
         }\n\
         VAR route: Route = %Route{ visits: 1 }\n\
         -> DONE",
    );

    let diagnostics = struct_literal_diagnostics(&story);

    assert_single_diagnostic(
        &diagnostics,
        DiagnosticSeverity::Error,
        "Missing field 'next' in struct literal for 'Route' cannot be default-initialized",
    );
}

#[test]
fn reports_unknown_struct_literal_field() {
    let story = parse_story(
        "STRUCT Player {\n\
         hp: int\n\
         }\n\
         VAR player: Player = %Player{ hp: 10, mp: 5 }\n\
         -> DONE",
    );

    let diagnostics = struct_literal_diagnostics(&story);

    assert_single_diagnostic(
        &diagnostics,
        DiagnosticSeverity::Error,
        "Unknown field 'mp' in struct literal for 'Player'",
    );
}

#[test]
fn reports_duplicate_struct_literal_field() {
    let story = parse_story(
        "STRUCT Player {\n\
         hp: int\n\
         }\n\
         VAR player: Player = %Player{ hp: 10, hp: 11 }\n\
         -> DONE",
    );

    let diagnostics = struct_literal_diagnostics(&story);

    assert_single_diagnostic(
        &diagnostics,
        DiagnosticSeverity::Error,
        "Duplicate field 'hp' in struct literal for 'Player'",
    );
}

#[test]
fn reports_wrong_struct_literal_field_type() {
    let story = parse_story(
        "STRUCT Player {\n\
         hp: int\n\
         }\n\
         VAR player: Player = %Player{ hp: \"full\" }\n\
         -> DONE",
    );

    let diagnostics = struct_literal_diagnostics(&story);

    assert_single_diagnostic(
        &diagnostics,
        DiagnosticSeverity::Error,
        "Value for 'Player.hp' has type string but expected int",
    );
}

#[test]
fn checks_nested_struct_literals() {
    let story = parse_story(
        "STRUCT Stats {\n\
         hp: int\n\
         }\n\
         STRUCT Player {\n\
         stats: Stats\n\
         name: string\n\
         }\n\
         VAR player: Player = %Player{ stats: %Stats{ hp: 10 }, name: \"Ada\" }\n\
         -> DONE",
    );

    assert_eq!(struct_literal_diagnostics(&story), []);
}

#[test]
fn checks_reassignment_struct_literals_against_variable_type() {
    let story = parse_story(
        "STRUCT Player {\n\
         hp: int\n\
         }\n\
         VAR player: Player = %Player{}\n\
         ~ player = %Player{ hp: \"full\" }\n\
         -> DONE",
    );

    let diagnostics = struct_literal_diagnostics(&story);

    assert_single_diagnostic(
        &diagnostics,
        DiagnosticSeverity::Error,
        "Value for 'Player.hp' has type string but expected int",
    );
}

#[test]
fn checks_standalone_struct_literals_against_explicit_type() {
    let story = parse_story(
        "STRUCT Player {\n\
         hp: int\n\
         }\n\
         { %Player{ hp: \"dynamic\" } }\n\
         -> DONE",
    );

    let diagnostics = struct_literal_diagnostics(&story);

    assert_single_diagnostic(
        &diagnostics,
        DiagnosticSeverity::Error,
        "Value for 'Player.hp' has type string but expected int",
    );
}

#[test]
fn missing_struct_fields_are_reported_in_name_order() {
    let story = parse_story(
        "STRUCT Route {\n\
         zeta: ->\n\
         visits: int\n\
         alpha: ->\n\
         }\n\
         VAR route: Route = %Route{ visits: 1 }\n\
         -> DONE",
    );

    let messages: Vec<String> = struct_literal_diagnostics(&story).into_iter().map(|d| d.message).collect();

    assert_eq!(
        messages,
        vec![
            "Missing field 'alpha' in struct literal for 'Route' cannot be default-initialized".to_string(),
            "Missing field 'zeta' in struct literal for 'Route' cannot be default-initialized".to_string(),
        ]
    );
}
