use ink_compiler::compiler::parse_source;
use ink_compiler::diagnostic::{Diagnostic, DiagnosticSeverity};
use ink_compiler::parsed::Story;
use ink_compiler::analysis::initializers::{default_initializer_metadata, variable_initializer_diagnostics, DefaultValue};
use ink_compiler::analysis::run_analysis_passes;
use ink_compiler::parsed::{Object, TypeName};

fn parse_story(source: &str) -> Story {
    let parsed = parse_source(source);
    assert!(!parsed.has_errors(), "{:#?}", parsed.diagnostics);
    parsed.artifact.expect("parsed story")
}

#[allow(dead_code)]
fn assert_single_diagnostic(diagnostics: &[Diagnostic], severity: DiagnosticSeverity, message: &str) {
    assert_eq!(diagnostics.len(), 1, "{diagnostics:#?}");
    assert_eq!(diagnostics[0].severity, severity);
    assert_eq!(diagnostics[0].message, message);
}

#[test]
fn accepts_valid_primitive_initializers() {
    let story = parse_story(
        "CONST max_score: int = 10\n\
         VAR score: int = max_score\n\
         VAR ratio: float = 1.5\n\
         VAR ready: bool = true\n\
         VAR label: string = \"start\"\n\
         == knot ==\n\
         ~ temp next: int = score + 1\n\
         -> DONE",
    );

    assert_eq!(variable_initializer_diagnostics(&story), []);
}

#[test]
fn accepts_dict_constants_and_array_values() {
    let story = parse_story(
        "CONST default_scores: Dict<string, int> = %{\"ada\": 10}\n\
         VAR score_tables: Dict<string, int>[] = [default_scores]\n\
         VAR empty_by_id: Dict<int, string>\n\
         -> DONE",
    );

    assert_eq!(run_analysis_passes(&story), []);
}

#[test]
fn accepts_imported_qualified_constant_initializers() {
    let story = parse_story(
        "=== module game ===\n\
         FROM items IMPORT MAX_SCORE\n\
         VAR score: int = items::MAX_SCORE\n\
         == main ==\n\
         -> DONE\n\
         === module items ===\n\
         CONST MAX_SCORE: int = 10\n\
         == helper ==\n\
         -> DONE",
    );

    assert_eq!(run_analysis_passes(&story), []);
}

#[test]
fn accepts_default_initializers_for_imported_qualified_struct_types() {
    let story = parse_story(
        "=== module game ===\n\
         FROM items IMPORT Item\n\
         VAR item: items::Item\n\
         == main ==\n\
         -> DONE\n\
         === module items ===\n\
         STRUCT Item {\n\
         hp: int\n\
         }\n\
         == helper ==\n\
         -> DONE",
    );

    assert_eq!(variable_initializer_diagnostics(&story), []);
}

#[test]
fn reports_wrong_type_for_imported_qualified_constant_initializers() {
    let story = parse_story(
        "=== module game ===\n\
         FROM items IMPORT MAX_SCORE\n\
         VAR score: string = items::MAX_SCORE\n\
         == main ==\n\
         -> DONE\n\
         === module items ===\n\
         CONST MAX_SCORE: int = 10\n\
         == helper ==\n\
         -> DONE",
    );

    let diagnostics = variable_initializer_diagnostics(&story);

    assert_single_diagnostic(
        &diagnostics,
        DiagnosticSeverity::Error,
        "Initializer for variable 'score' has type int but declared type is string",
    );
}

#[test]
fn reports_invalid_constant_initializer_type() {
    let story = parse_story("CONST score: int = \"high\"\n-> DONE");

    let diagnostics = variable_initializer_diagnostics(&story);

    assert_single_diagnostic(
        &diagnostics,
        DiagnosticSeverity::Error,
        "Initializer for constant 'score' has type string but declared type is int",
    );
}

#[test]
fn reports_invalid_primitive_initializer_type() {
    let story = parse_story("VAR score: int = \"high\"\n-> DONE");

    let diagnostics = variable_initializer_diagnostics(&story);

    assert_single_diagnostic(
        &diagnostics,
        DiagnosticSeverity::Error,
        "Initializer for variable 'score' has type string but declared type is int",
    );
}

#[test]
fn rejects_implicit_numeric_conversion_in_initializers() {
    let story = parse_story("VAR ratio: float = 1\n-> DONE");

    let diagnostics = variable_initializer_diagnostics(&story);

    assert_single_diagnostic(
        &diagnostics,
        DiagnosticSeverity::Error,
        "Initializer for variable 'ratio' has type int but declared type is float",
    );
}

#[test]
fn rejects_operator_errors_in_primitive_initializers() {
    let story = parse_story("VAR valid: bool = 1 && true\n-> DONE");

    let diagnostics = variable_initializer_diagnostics(&story);

    assert_single_diagnostic(
        &diagnostics,
        DiagnosticSeverity::Error,
        "Cannot type-check initializer for variable 'valid': Operator '&&' is not defined for types int and bool",
    );
}

#[test]
fn accepts_divert_target_initializers_and_rejects_missing_defaults() {
    let story = parse_story(
        "CONST fallback: -> = -> knot\n\
         VAR next: -> = fallback\n\
         VAR route: ->[] = [-> knot, next]\n\
         -> DONE\n\
         == knot ==\n\
         -> DONE",
    );

    assert_eq!(run_analysis_passes(&story), []);

    let missing = parse_story("VAR next: ->\n-> DONE");
    let diagnostics = variable_initializer_diagnostics(&missing);

    assert_single_diagnostic(
        &diagnostics,
        DiagnosticSeverity::Error,
        "Variable 'next' of type -> cannot be default-initialized",
    );
}

#[test]
fn accepts_enum_initializers_and_defaults() {
    let story = parse_story(
        "ENUM State { Idle Busy }\n\
         CONST DEFAULT_STATE: State = State.Busy\n\
         VAR state: State = State.Idle\n\
         VAR default_state: State\n\
         -> DONE",
    );

    assert_eq!(variable_initializer_diagnostics(&story), []);
}

#[test]
fn reports_unknown_enum_member_initializers() {
    let story = parse_story(
        "ENUM State { Idle Busy }\n\
         VAR state: State = State.Missing\n\
         -> DONE",
    );

    let diagnostics = variable_initializer_diagnostics(&story);

    assert_single_diagnostic(
        &diagnostics,
        DiagnosticSeverity::Error,
        "Cannot type-check initializer for variable 'state': Unknown member 'Missing' in enum 'State'",
    );
}

#[test]
fn rejects_string_initializers_for_enum_types() {
    let story = parse_story(
        "ENUM State { Idle Busy }\n\
         VAR state: State = \"State.Idle\"\n\
         -> DONE",
    );

    let diagnostics = variable_initializer_diagnostics(&story);

    assert_single_diagnostic(
        &diagnostics,
        DiagnosticSeverity::Error,
        "Initializer for variable 'state' has type string but declared type is State",
    );
}

#[test]
fn rejects_non_target_initializer_for_divert_target_type() {
    let story = parse_story("VAR next: -> = 1\n-> DONE");

    let diagnostics = variable_initializer_diagnostics(&story);

    assert_single_diagnostic(
        &diagnostics,
        DiagnosticSeverity::Error,
        "Initializer for variable 'next' has type int but declared type is ->",
    );
}

#[test]
fn records_default_metadata_for_omitted_typed_temp_initializers() {
    let story = parse_story(
        "== knot ==\n\
         ~ temp hp: int\n\
         -> DONE",
    );
    let assignment = story.flows[0]
        .weave
        .content
        .iter()
        .find_map(|object| match object {
            Object::VariableAssignment(assignment) if assignment.name == "hp" => {
                Some(assignment)
            }
            _ => None,
        })
        .expect("typed temp should parse as a variable assignment");

    assert_eq!(variable_initializer_diagnostics(&story), []);
    assert_eq!(
        default_initializer_metadata(assignment),
        Some(DefaultValue::Int(0))
    );
    assert_eq!(assignment.declared_type.as_ref(), Some(&TypeName::int_type()));
}

#[test]
fn has_and_hasnt_operators_are_not_defined_for_values() {
    let story = parse_story(
        "VAR found: bool = 1 ? 2\n\
         VAR missing: bool = \"a\" !? \"b\"\n\
         -> DONE",
    );

    let messages: Vec<String> = variable_initializer_diagnostics(&story).into_iter().map(|d| d.message).collect();

    assert_eq!(
        messages,
        vec![
            "Cannot type-check initializer for variable 'found': Operator '?' is not defined for types int and int".to_string(),
            "Cannot type-check initializer for variable 'missing': Operator '!?' is not defined for types string and string"
                .to_string(),
        ]
    );
}
