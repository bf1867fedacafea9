use ink_compiler::compiler::parse_source;
use ink_compiler::diagnostic::{Diagnostic, DiagnosticSeverity};
use ink_compiler::parsed::Story;
use ink_compiler::analysis::structs::{build_struct_type_index, struct_type_diagnostics};
use ink_compiler::parsed::TypeName;

fn parse_story(source: &str) -> Story {
    let parsed = parse_source(source);
    assert!(!parsed.has_errors(), "{:#?}", parsed.diagnostics);
    parsed.artifact.expect("parsed story")
}

#[allow(dead_code)]
fn assert_single_diagnostic(diagnostics: &[Diagnostic], severity: DiagnosticSeverity, message: &str) {
    assert_eq!(diagnostics.len(), 1, "{diagnostics:#?}");
    assert_eq!(diagnostics[0].severity, severity);
    assert_eq!(diagnostics[0].message, message);
}

#[test]
fn indexes_valid_nested_structures() {
    let story = parse_story(
        "STRUCT Item {\n\
         id: int\n\
         }\n\
         STRUCT Player {\n\
         inventory: Item[][]\n\
         hp: int\n\
         }\n\
         -> DONE",
    );

    let index = build_struct_type_index(&story);

    assert_eq!(
        index
            .get("Player")
            .and_then(|symbol| symbol.field("inventory")),
        Some(&TypeName::array(TypeName::array(TypeName::struct_type(
            "Item"
        ))))
    );
    assert_eq!(
        index
            .get("Player")
            .and_then(|symbol| symbol.field("hp")),
        Some(&TypeName::int_type())
    );
}

#[test]
fn indexes_module_structs_by_module_scope() {
    let story = parse_story(
        "=== module game ===\n\
         STRUCT Item {\n\
         hp: int\n\
         }\n\
         == main ==\n\
         -> DONE\n\
         === module items ===\n\
         STRUCT Item {\n\
         label: string\n\
         }\n\
         == helper ==\n\
         -> DONE",
    );

    let index = build_struct_type_index(&story);

    assert_eq!(
        index
            .get("game::Item")
            .and_then(|symbol| symbol.field("hp")),
        Some(&TypeName::int_type())
    );
    assert_eq!(
        index
            .get("items::Item")
            .and_then(|symbol| symbol.field("label")),
        Some(&TypeName::string())
    );
    assert!(struct_type_diagnostics(&story).is_empty());
}

#[test]
fn reports_duplicate_struct_names() {
    let story = parse_story(
        "STRUCT Player {\n\
         hp: int\n\
         }\n\
         STRUCT Player {\n\
         name: string\n\
         }\n\
         -> DONE",
    );

    let diagnostics = struct_type_diagnostics(&story);

    assert_single_diagnostic(
        &diagnostics,
        DiagnosticSeverity::Error,
        "Duplicate struct declaration 'Player'",
    );
}

#[test]
fn reports_duplicate_struct_names_only_inside_one_module() {
    let story = parse_story(
        "=== module game ===\n\
         STRUCT Item {\n\
         hp: int\n\
         }\n\
         STRUCT Item {\n\
         label: string\n\
         }\n\
         == main ==\n\
         -> DONE\n\
         === module items ===\n\
         STRUCT Item {\n\
         label: string\n\
         }\n\
         == helper ==\n\
         -> DONE",
    );

    let diagnostics = struct_type_diagnostics(&story);

    assert_single_diagnostic(
        &diagnostics,
        DiagnosticSeverity::Error,
        "Duplicate struct declaration 'Item'",
    );
}

#[test]
fn reports_duplicate_fields() {
    let story = parse_story(
        "STRUCT Player {\n\
         hp: int\n\
         hp: string\n\
         }\n\
         -> DONE",
    );

    let diagnostics = struct_type_diagnostics(&story);

    assert_single_diagnostic(
        &diagnostics,
        DiagnosticSeverity::Error,
        "Duplicate field 'hp' in struct 'Player'",
    );
}

#[test]
fn reports_unknown_field_types_inside_nested_arrays() {
    let story = parse_story(
        "STRUCT Player {\n\
         inventory: Item[][]\n\
         }\n\
         -> DONE",
    );

    let diagnostics = struct_type_diagnostics(&story);

    assert_single_diagnostic(
        &diagnostics,
        DiagnosticSeverity::Error,
        "Unknown named type 'Item' for field 'inventory' in struct 'Player'",
    );
}

#[test]
fn resolves_unqualified_field_types_only_inside_current_module() {
    let story = parse_story(
        "=== module game ===\n\
         STRUCT Box {\n\
         item: Item\n\
         }\n\
         == main ==\n\
         -> DONE\n\
         === module items ===\n\
         STRUCT Item {\n\
         label: string\n\
         }\n\
         == helper ==\n\
         -> DONE",
    );

    let diagnostics = struct_type_diagnostics(&story);

    assert_single_diagnostic(
        &diagnostics,
        DiagnosticSeverity::Error,
        "Unknown named type 'Item' for field 'item' in struct 'Box'",
    );
}

#[test]
fn resolves_unqualified_field_types_inside_same_module() {
    let story = parse_story(
        "=== module game ===\n\
         STRUCT Item {\n\
         hp: int\n\
         }\n\
         STRUCT Box {\n\
         item: Item\n\
         }\n\
         == main ==\n\
         -> DONE",
    );

    assert!(struct_type_diagnostics(&story).is_empty());
}

#[test]
fn accepts_enum_field_types_in_same_scope() {
    let story = parse_story(
        "ENUM State { Idle Busy }\n\
         STRUCT Actor {\n\
         state: State\n\
         }\n\
         -> DONE",
    );

    assert!(struct_type_diagnostics(&story).is_empty());
}

#[test]
fn accepts_qualified_enum_field_types() {
    let story = parse_story(
        "=== module game ===\n\
         STRUCT Actor {\n\
         state: items::State\n\
         }\n\
         == main ==\n\
         -> END\n\
         === module items ===\n\
         ENUM State { Idle Busy }\n\
         == helper ==\n\
         -> END",
    );

    assert!(struct_type_diagnostics(&story).is_empty());
}

#[test]
fn reports_recursive_struct_references() {
    let story = parse_story(
        "STRUCT Node {\n\
         next: Node\n\
         }\n\
         -> DONE",
    );

    let diagnostics = struct_type_diagnostics(&story);

    assert_single_diagnostic(
        &diagnostics,
        DiagnosticSeverity::Error,
        "Recursive struct type 'Node' is not supported",
    );
}
