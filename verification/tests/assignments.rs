use ink_compiler::compiler::parse_source;
use ink_compiler::diagnostic::{Diagnostic, DiagnosticSeverity};
use ink_compiler::parsed::Story;
use ink_compiler::analysis::assignments::variable_assignment_diagnostics;

fn parse_story(source: &str) -> Story {
    let parsed = parse_source(source);
    assert!(!parsed.has_errors(), "{:#?}", parsed.diagnostics);
    parsed.artifact.expect("parsed story")
}

#[allow(dead_code)]
fn assert_single_diagnostic(diagnostics: &[Diagnostic], severity: DiagnosticSeverity, message: &str) {
    assert_eq!(diagnostics.len(), 1, "{diagnostics:#?}");
    assert_eq!(diagnostics[0].severity, severity);
    assert_eq!(diagnostics[0].message, message);
}

#[test]
fn accepts_valid_simple_assignments() {
    let story = parse_story(
        "VAR score: int = 0\n\
         VAR label: string = \"a\"\n\
         == knot ==\n\
         ~ temp ready: bool = true\n\
         ~ score = score + 1\n\
         ~ ready = false\n\
         ~ label = \"b\"\n\
         -> DONE",
    );

    assert_eq!(variable_assignment_diagnostics(&story), []);
}

#[test]
fn reports_invalid_simple_assignment_type() {
    let story = parse_story(
        "VAR score: int = 0\n\
         ~ score = 1.5\n\
         -> DONE",
    );

    let diagnostics = variable_assignment_diagnostics(&story);

    assert_single_diagnostic(
        &diagnostics,
        DiagnosticSeverity::Error,
        "Assignment to variable 'score' has type float but declared type is int",
    );
}

#[test]
fn rejects_implicit_numeric_conversion_in_assignment() {
    let story = parse_story(
        "VAR ratio: float = 0.0\n\
         ~ ratio = 1\n\
         -> DONE",
    );

    let diagnostics = variable_assignment_diagnostics(&story);

    assert_single_diagnostic(
        &diagnostics,
        DiagnosticSeverity::Error,
        "Assignment to variable 'ratio' has type int but declared type is float",
    );
}

#[test]
fn reports_assignment_to_undeclared_variable() {
    let story = parse_story("~ missing = 1\n-> DONE");

    let diagnostics = variable_assignment_diagnostics(&story);

    assert_single_diagnostic(
        &diagnostics,
        DiagnosticSeverity::Error,
        "Cannot assign to undeclared variable 'missing'",
    );
}

#[test]
fn accepts_valid_numeric_and_string_compound_assignments() {
    let story = parse_story(
        "VAR score: int = 0\n\
         VAR ratio: float = 0.0\n\
         VAR label: string = \"a\"\n\
         ~ score += 1\n\
         ~ score -= 1\n\
         ~ ratio += 1.0\n\
         ~ label += \"b\"\n\
         -> DONE",
    );

    assert_eq!(variable_assignment_diagnostics(&story), []);
}

#[test]
fn rejects_invalid_compound_assignment_type() {
    let story = parse_story(
        "VAR score: int = 0\n\
         ~ score += 1.0\n\
         -> DONE",
    );

    let diagnostics = variable_assignment_diagnostics(&story);

    assert_single_diagnostic(
        &diagnostics,
        DiagnosticSeverity::Error,
        "Operator '+=' is not defined for variable 'score' of type int and value type float",
    );
}

#[test]
fn rejects_string_subtract_assignment() {
    let story = parse_story(
        "VAR label: string = \"a\"\n\
         ~ label -= \"b\"\n\
         -> DONE",
    );

    let diagnostics = variable_assignment_diagnostics(&story);

    assert_single_diagnostic(
        &diagnostics,
        DiagnosticSeverity::Error,
        "Operator '-=' is not defined for variable 'label' of type string and value type string",
    );
}

#[test]
fn accepts_valid_field_and_index_assignments() {
    let story = parse_story(
        "STRUCT Player {\n\
         hp: int\n\
         name: string\n\
         }\n\
         VAR player: Player = { hp: 10, name: \"Ada\" }\n\
         VAR scores: int[] = [1]\n\
         ~ player.hp = 11\n\
         ~ player.name = \"Grace\"\n\
         ~ scores[0] = 2\n\
         -> DONE",
    );

    assert_eq!(variable_assignment_diagnostics(&story), []);
}

#[test]
fn reports_invalid_field_assignment_type() {
    let story = parse_story(
        "STRUCT Player {\n\
         hp: int\n\
         }\n\
         VAR player: Player = { hp: 10 }\n\
         ~ player.hp = \"high\"\n\
         -> DONE",
    );

    let diagnostics = variable_assignment_diagnostics(&story);

    assert_single_diagnostic(
        &diagnostics,
        DiagnosticSeverity::Error,
        "Assignment to variable 'player.hp' has type string but declared type is int",
    );
}

#[test]
fn reports_invalid_index_assignment_type() {
    let story = parse_story(
        "VAR scores: int[] = [1]\n\
         ~ scores[0] = \"two\"\n\
         -> DONE",
    );

    let diagnostics = variable_assignment_diagnostics(&story);

    assert_single_diagnostic(
        &diagnostics,
        DiagnosticSeverity::Error,
        "Assignment to variable 'scores[Number(0)]' has type string but declared type is int",
    );
}

#[test]
fn accepts_nested_lvalue_assignment_and_compound_assignment() {
    let story = parse_story(
        "STRUCT Player {\n\
         hp: int\n\
         }\n\
         VAR party: Player[] = [{ hp: 10 }]\n\
         ~ party[0].hp = 11\n\
         ~ party[0].hp += 1\n\
         -> DONE",
    );

    assert_eq!(variable_assignment_diagnostics(&story), []);
}

#[test]
fn reports_invalid_nested_lvalue_assignment_type() {
    let story = parse_story(
        "STRUCT Player {\n\
         hp: int\n\
         }\n\
         VAR party: Player[] = [{ hp: 10 }]\n\
         ~ party[0].hp = \"low\"\n\
         -> DONE",
    );

    let diagnostics = variable_assignment_diagnostics(&story);

    assert_single_diagnostic(
        &diagnostics,
        DiagnosticSeverity::Error,
        "Assignment to variable 'party[Number(0)].hp' has type string but declared type is int",
    );
}

#[test]
fn rejects_invalid_field_compound_assignment_type() {
    let story = parse_story(
        "STRUCT Player {\n\
         hp: int\n\
         }\n\
         VAR player: Player = { hp: 10 }\n\
         ~ player.hp += 1.0\n\
         -> DONE",
    );

    let diagnostics = variable_assignment_diagnostics(&story);

    assert_single_diagnostic(
        &diagnostics,
        DiagnosticSeverity::Error,
        "Operator '+=' is not defined for variable 'player.hp' of type int and value type float",
    );
}

#[test]
fn module_assignment_lookup_uses_current_module_only() {
    let story = parse_story(
        "=== module game ===\n\
         == main ==\n\
         ~ value = 1\n\
         -> DONE\n\
         === module items ===\n\
         VAR value: int = 0\n\
         == helper ==\n\
         -> DONE",
    );

    let diagnostics = variable_assignment_diagnostics(&story);

    assert_single_diagnostic(
        &diagnostics,
        DiagnosticSeverity::Error,
        "Cannot assign to undeclared variable 'value'",
    );
}

#[test]
fn module_assignment_lookup_accepts_same_module_globals() {
    let story = parse_story(
        "=== module game ===\n\
         VAR value: int = 0\n\
         == main ==\n\
         ~ value = 1\n\
         -> DONE\n\
         === module items ===\n\
         VAR value: string = \"item\"\n\
         == helper ==\n\
         -> DONE",
    );

    assert_eq!(variable_assignment_diagnostics(&story), []);
}

#[test]
fn accepts_qualified_imported_global_assignments() {
    let story = parse_story(
        "=== module game ===\n\
         IMPORT score FROM state\n\
         == main ==\n\
         ~ state::score = 1\n\
         ~ state::score += 2\n\
         ~ state::score -= 1\n\
         -> END\n\
         === module state ===\n\
         VAR score: int = 0\n\
         == helper ==\n\
         -> END",
    );

    assert_eq!(variable_assignment_diagnostics(&story), []);
}

#[test]
fn rejects_assignment_to_qualified_constant() {
    let story = parse_story(
        "=== module game ===\n\
         IMPORT LIMIT FROM state\n\
         == main ==\n\
         ~ state::LIMIT = 1\n\
         -> END\n\
         === module state ===\n\
         CONST LIMIT: int = 0\n\
         == helper ==\n\
         -> END",
    );

    let diagnostics = variable_assignment_diagnostics(&story);

    assert_single_diagnostic(
        &diagnostics,
        DiagnosticSeverity::Error,
        "Cannot assign to constant 'state::LIMIT'",
    );
}

#[test]
fn rejects_invalid_qualified_global_assignment_type() {
    let story = parse_story(
        "=== module game ===\n\
         IMPORT score FROM state\n\
         == main ==\n\
         ~ state::score = \"high\"\n\
         -> END\n\
         === module state ===\n\
         VAR score: int = 0\n\
         == helper ==\n\
         -> END",
    );

    let diagnostics = variable_assignment_diagnostics(&story);

    assert_single_diagnostic(
        &diagnostics,
        DiagnosticSeverity::Error,
        "Assignment to variable 'state::score' has type string but declared type is int",
    );
}

#[test]
fn rejects_invalid_qualified_global_compound_assignment_type() {
    let story = parse_story(
        "=== module game ===\n\
         IMPORT score FROM state\n\
         == main ==\n\
         ~ state::score += 1.5\n\
         -> END\n\
         === module state ===\n\
         VAR score: int = 0\n\
         == helper ==\n\
         -> END",
    );

    let diagnostics = variable_assignment_diagnostics(&story);

    assert_single_diagnostic(
        &diagnostics,
        DiagnosticSeverity::Error,
        "Operator '+=' is not defined for variable 'state::score' of type int and value type float",
    );
}

#[test]
fn rejects_assignment_to_missing_qualified_global() {
    let story = parse_story(
        "=== module game ===\n\
         == main ==\n\
         ~ state::missing = 1\n\
         -> END\n\
         === module state ===\n\
         VAR score: int = 0\n\
         == helper ==\n\
         -> END",
    );

    let diagnostics = variable_assignment_diagnostics(&story);

    assert_single_diagnostic(
        &diagnostics,
        DiagnosticSeverity::Error,
        "Cannot assign to undeclared variable 'state::missing'",
    );
}
