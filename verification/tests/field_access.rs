use ink_compiler::compiler::parse_source;
use ink_compiler::diagnostic::{Diagnostic, DiagnosticSeverity};
use ink_compiler::parsed::Story;
use ink_compiler::analysis::access::field_access_diagnostics;
use ink_compiler::analysis::run_analysis_passes;

fn parse_story(source: &str) -> Story {
    let parsed = parse_source(source);
    assert!(!parsed.has_errors(), "{:#?}", parsed.diagnostics);
    parsed.artifact.expect("parsed story")
}

#[allow(dead_code)]
fn assert_single_diagnostic(diagnostics: &[Diagnostic], severity: DiagnosticSeverity, message: &str) {
    assert_eq!(diagnostics.len(), 1, "{diagnostics:#?}");
    assert_eq!(diagnostics[0].severity, severity);
    assert_eq!(diagnostics[0].message, message);
}

#[test]
fn resolves_field_read_type_in_typed_initializer_context() {
    let story = parse_story(
        "STRUCT Player {\n\
         hp: int\n\
         }\n\
         VAR player: Player = { hp: 10 }\n\
         VAR hp: int = player.hp\n\
         -> DONE",
    );

    assert_eq!(run_analysis_passes(&story), []);
}

#[test]
fn resolves_nested_field_reads() {
    let story = parse_story(
        "STRUCT Stats {\n\
         hp: int\n\
         }\n\
         STRUCT Player {\n\
         stats: Stats\n\
         }\n\
         VAR player: Player = { stats: { hp: 10 } }\n\
         VAR hp: int = player.stats.hp\n\
         -> DONE",
    );

    assert_eq!(field_access_diagnostics(&story), []);
}

#[test]
fn reports_unknown_field_reads() {
    let story = parse_story(
        "STRUCT Player {\n\
         hp: int\n\
         }\n\
         VAR player: Player = { hp: 10 }\n\
         {player.mp}\n\
         -> DONE",
    );

    let diagnostics = field_access_diagnostics(&story);

    assert_single_diagnostic(
        &diagnostics,
        DiagnosticSeverity::Error,
        "Unknown field 'mp' on struct 'Player'",
    );
}

#[test]
fn reports_field_access_on_non_struct_values() {
    let story = parse_story(
        "VAR score: int = 0\n\
         {score.hp}\n\
         -> DONE",
    );

    let diagnostics = field_access_diagnostics(&story);

    assert_single_diagnostic(
        &diagnostics,
        DiagnosticSeverity::Error,
        "Cannot access field 'hp' on non-struct type int",
    );
}

#[test]
fn dotted_divert_paths_are_not_struct_field_accesses() {
    let story = parse_story(
        "-> knot.stitch\n\
         == knot ==\n\
         = stitch\n\
         -> DONE",
    );

    assert_eq!(field_access_diagnostics(&story), []);
}

#[test]
fn dotted_weave_paths_in_conditions_are_not_struct_field_accesses() {
    let story = parse_story(
        "-> knot\n\
         == knot ==\n\
         = stitch_one\n\
         - (gatherpoint) Some content.\n\
         -> knot.stitch_two\n\
         = stitch_two\n\
         * {knot.stitch_one.gatherpoint} Found gatherpoint\n\
         -> DONE",
    );

    assert_eq!(field_access_diagnostics(&story), []);
}
