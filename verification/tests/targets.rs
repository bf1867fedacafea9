use ink_compiler::compiler::parse_source;
use ink_compiler::diagnostic::{Diagnostic, DiagnosticSeverity};
use ink_compiler::parsed::Story;
use ink_compiler::analysis::targets::call_target_diagnostics;
use ink_compiler::analysis::run_analysis_passes;

fn parse_story(source: &str) -> Story {
    let parsed = parse_source(source);
    assert!(!parsed.has_errors(), "{:#?}", parsed.diagnostics);
    parsed.artifact.expect("parsed story")
}

#[allow(dead_code)]
fn assert_single_diagnostic(diagnostics: &[Diagnostic], severity: DiagnosticSeverity, message: &str) {
    assert_eq!(diagnostics.len(), 1, "{diagnostics:#?}");
    assert_eq!(diagnostics[0].severity, severity);
    assert_eq!(diagnostics[0].message, message);
}

#[test]
fn reports_missing_divert_targets() {
    let story = parse_story("-> missing");
    let diagnostics = call_target_diagnostics(&story);

    assert_single_diagnostic(
        &diagnostics,
        DiagnosticSeverity::Error,
        "target not found: 'missing'",
    );
}

#[test]
fn reports_non_function_call_targets() {
    let story = parse_story("~ knot()\n== knot ==\n-> DONE");
    let diagnostics = call_target_diagnostics(&story);

    assert_single_diagnostic(
        &diagnostics,
        DiagnosticSeverity::Error,
        "knot hasn't been marked as a function, but it's being called as one. Do you need to declare the knot as '== function knot =='?",
    );
}

#[test]
fn accepts_typed_function_calls_and_return_type_use() {
    let story = parse_story(
        "STRUCT Player {\n\
         hp: int\n\
         }\n\
         VAR source_player: Player = %Player{ hp: 10 }\n\
         VAR source_scores: int[] = [1]\n\
         VAR source_lookup: Dict<string, int> = %{\"ada\": 10}\n\
         VAR source_lookup_list: Dict<string, int>[] = [source_lookup]\n\
         VAR result: int = add(1, 2)\n\
         VAR copied_player: Player = echo_player(source_player)\n\
         VAR copied_scores: int[] = echo_scores(source_scores)\n\
         VAR copied_lookup: Dict<string, int> = echo_lookup(source_lookup)\n\
         VAR copied_lookup_list: Dict<string, int>[] = echo_lookup_list(source_lookup_list)\n\
         -> DONE\n\
         == function add(a: int, b: int) => int ==\n\
         ~ return a + b\n\
         == function echo_player(player: Player) => Player ==\n\
         ~ return player\n\
         == function echo_scores(values: int[]) => int[] ==\n\
         ~ return values\n\
         == function echo_lookup(values: Dict<string, int>) => Dict<string, int> ==\n\
         ~ return values\n\
         == function echo_lookup_list(values: Dict<string, int>[]) => Dict<string, int>[] ==\n\
         ~ return values",
    );

    assert_eq!(run_analysis_passes(&story), []);
}

#[test]
fn accepts_typed_external_calls_and_return_type_use() {
    let story = parse_story(
        "STRUCT Player {\n\
         hp: int\n\
         }\n\
         EXTERNAL external_score(value: int) => int\n\
         EXTERNAL describe(player: Player, scores: int[]) => string\n\
         EXTERNAL copy_scores(scores: Dict<string, int>) => Dict<string, int>\n\
         VAR score: int = 1\n\
         VAR source_player: Player = %Player{ hp: 10 }\n\
         VAR scores: int[] = [score]\n\
         VAR score_lookup: Dict<string, int> = %{\"ada\": 10}\n\
         VAR adjusted_score: int = external_score(score) + LEN(scores)\n\
         VAR description: string = describe(source_player, scores)\n\
         VAR copied_scores: Dict<string, int> = copy_scores(score_lookup)\n\
         -> DONE",
    );

    assert_eq!(run_analysis_passes(&story), []);
}

#[test]
fn reports_typed_external_call_argument_count_mismatch() {
    let story = parse_story(
        "EXTERNAL external_score(value: int) => int\n\
         ~ external_score()\n\
         -> DONE",
    );

    let diagnostics = call_target_diagnostics(&story);

    assert_single_diagnostic(
        &diagnostics,
        DiagnosticSeverity::Error,
        "Function 'external_score' expects 1 arguments but got 0",
    );
}

#[test]
fn reports_typed_external_call_argument_type_mismatch() {
    let story = parse_story(
        "EXTERNAL external_score(value: int) => int\n\
         VAR label: string = \"x\"\n\
         ~ external_score(label)\n\
         -> DONE",
    );

    let diagnostics = call_target_diagnostics(&story);

    assert_single_diagnostic(
        &diagnostics,
        DiagnosticSeverity::Error,
        "Argument 'value' for function 'external_score' has type string but expected int",
    );
}

#[test]
fn external_return_type_participates_in_expression_type_checks() {
    let story = parse_story(
        "EXTERNAL external_label() => string\n\
         VAR score: int = external_label()\n\
         -> DONE",
    );

    let diagnostics = run_analysis_passes(&story);

    assert!(
        diagnostics.iter().any(|diagnostic| {
            diagnostic.severity == DiagnosticSeverity::Error
                && diagnostic.message
                    == "Initializer for variable 'score' has type string but declared type is int"
        }),
        "{diagnostics:#?}"
    );
}

#[test]
fn accepts_len_builtin_for_array_types() {
    let story = parse_story(
        "STRUCT Player {\n\
         hp: int\n\
         }\n\
         VAR score: int = 1\n\
         VAR source_player: Player = %Player{ hp: 10 }\n\
         VAR scores: int[] = [score]\n\
         VAR players: Player[] = [source_player]\n\
         VAR nested_scores: int[][] = [scores]\n\
         VAR score_count: int = LEN(scores)\n\
         VAR player_count: int = LEN(players)\n\
         VAR row_count: int = LEN(nested_scores)\n\
         -> DONE",
    );

    assert_eq!(run_analysis_passes(&story), []);
}

#[test]
fn reports_len_builtin_non_array_arguments() {
    let cases = [
        (
            "VAR value: int = 1\n\
             VAR count: int = LEN(value)\n\
             -> DONE",
            "Argument for builtin 'LEN' has type int but expected array",
        ),
        (
            "VAR label: string = \"text\"\n\
             VAR count: int = LEN(label)\n\
             -> DONE",
            "Argument for builtin 'LEN' has type string but expected array",
        ),
        (
            "STRUCT Player {\n\
             hp: int\n\
             }\n\
             VAR player: Player = %Player{ hp: 10 }\n\
             VAR count: int = LEN(player)\n\
             -> DONE",
            "Argument for builtin 'LEN' has type Player but expected array",
        ),
    ];

    for (source, expected_message) in cases {
        let story = parse_story(source);
        let diagnostics = call_target_diagnostics(&story);

        assert_single_diagnostic(&diagnostics, DiagnosticSeverity::Error, expected_message);
    }
}

#[test]
fn reports_len_builtin_argument_count_mismatch() {
    let cases = [
        (
            "VAR values: int[] = [1]\n\
             VAR count: int = LEN()\n\
             -> DONE",
            "Builtin 'LEN' expects 1 argument but got 0",
        ),
        (
            "VAR values: int[] = [1]\n\
             VAR count: int = LEN(values, values)\n\
             -> DONE",
            "Builtin 'LEN' expects 1 argument but got 2",
        ),
    ];

    for (source, expected_message) in cases {
        let story = parse_story(source);
        let diagnostics = call_target_diagnostics(&story);

        assert_single_diagnostic(&diagnostics, DiagnosticSeverity::Error, expected_message);
    }
}

#[test]
fn accepts_array_remove_builtin_for_array_types() {
    let story = parse_story(
        "STRUCT Player {\n\
         hp: int\n\
         }\n\
         VAR score: int = 1\n\
         VAR source_player: Player = %Player{ hp: 10 }\n\
         VAR scores: int[] = [score]\n\
         VAR players: Player[] = [source_player]\n\
         VAR nested_scores: int[][] = [scores]\n\
         ~ ARRAY_REMOVE(scores, 0)\n\
         ~ ARRAY_REMOVE(players, 0)\n\
         ~ ARRAY_REMOVE(nested_scores, 0)\n\
         -> DONE",
    );

    assert_eq!(run_analysis_passes(&story), []);
}

#[test]
fn reports_array_remove_builtin_invalid_arguments() {
    let cases = [
        (
            "VAR value: int = 1\n\
             ~ ARRAY_REMOVE(value, 0)\n\
             -> DONE",
            "First argument for builtin 'ARRAY_REMOVE' has type int but expected array",
        ),
        (
            "VAR values: int[] = [1]\n\
             VAR index: string = \"0\"\n\
             ~ ARRAY_REMOVE(values, index)\n\
             -> DONE",
            "Second argument for builtin 'ARRAY_REMOVE' has type string but expected int",
        ),
        (
            "VAR values: int[] = [1]\n\
             ~ ARRAY_REMOVE(values)\n\
             -> DONE",
            "Builtin 'ARRAY_REMOVE' expects 2 arguments but got 1",
        ),
        (
            "VAR values: int[] = [1]\n\
             ~ ARRAY_REMOVE(values, 0, 1)\n\
             -> DONE",
            "Builtin 'ARRAY_REMOVE' expects 2 arguments but got 3",
        ),
        (
            "VAR values: int[] = [1]\n\
             ~ ARRAY_REMOVE(copy_values(), 0)\n\
             -> DONE\n\
             == function copy_values() => int[] ==\n\
             ~ return values",
            "First argument for builtin 'ARRAY_REMOVE' must be a mutable lvalue",
        ),
    ];

    for (source, expected_message) in cases {
        let story = parse_story(source);
        let diagnostics = call_target_diagnostics(&story);

        assert_single_diagnostic(&diagnostics, DiagnosticSeverity::Error, expected_message);
    }
}

#[test]
fn reports_function_call_argument_count_mismatch() {
    let story = parse_story(
        "~ add(1)\n\
         -> DONE\n\
         == function add(a: int, b: int) => int ==\n\
         ~ return a",
    );

    let diagnostics = call_target_diagnostics(&story);

    assert_single_diagnostic(
        &diagnostics,
        DiagnosticSeverity::Error,
        "Function 'add' expects 2 arguments but got 1",
    );
}

#[test]
fn reports_function_call_argument_type_mismatch() {
    let story = parse_story(
        "~ add(1, \"two\")\n\
         -> DONE\n\
         == function add(a: int, b: int) => int ==\n\
         ~ return a",
    );

    let diagnostics = call_target_diagnostics(&story);

    assert_single_diagnostic(
        &diagnostics,
        DiagnosticSeverity::Error,
        "Argument 'b' for function 'add' has type string but expected int",
    );
}

#[test]
fn reports_composite_function_call_argument_type_mismatch() {
    let story = parse_story(
        "STRUCT Player {\n\
         hp: int\n\
         }\n\
         VAR scores: int[] = [1]\n\
         ~ use_player(scores)\n\
         -> DONE\n\
         == function use_player(player: Player) => void ==\n\
         ~ return",
    );

    let diagnostics = call_target_diagnostics(&story);

    assert_single_diagnostic(
        &diagnostics,
        DiagnosticSeverity::Error,
        "Argument 'player' for function 'use_player' has type int[] but expected Player",
    );
}

#[test]
fn function_return_type_participates_in_expression_type_checks() {
    let story = parse_story(
        "VAR score: int = label()\n\
         -> DONE\n\
         == function label() => string ==\n\
         ~ return \"ok\"",
    );

    let diagnostics = run_analysis_passes(&story);

    assert!(
        diagnostics.iter().any(|diagnostic| {
            diagnostic.severity == DiagnosticSeverity::Error
            && diagnostic.message
                == "Initializer for variable 'score' has type string but declared type is int"
        }),
        "{diagnostics:#?}"
    );
}

#[test]
fn module_function_lookup_uses_current_module_only() {
    let story = parse_story(
        "=== module game ===\n\
         == main ==\n\
         ~ helper()\n\
         -> DONE\n\
         === module items ===\n\
         == function helper() => void ==\n\
         ~ return",
    );

    let diagnostics = call_target_diagnostics(&story);

    assert_single_diagnostic(
        &diagnostics,
        DiagnosticSeverity::Error,
        "Function 'helper' is not declared",
    );
}

#[test]
fn module_function_lookup_accepts_same_module_functions() {
    let story = parse_story(
        "=== module game ===\n\
         == main ==\n\
         ~ helper()\n\
         -> DONE\n\
         == function helper() => void ==\n\
         ~ return\n\
         === module items ===\n\
         == function helper() => void ==\n\
         ~ return",
    );

    assert_eq!(call_target_diagnostics(&story), []);
}

#[test]
fn qualified_module_function_calls_are_type_checked() {
    let story = parse_story(
        "=== module game ===\n\
         FROM math IMPORT add\n\
         == main ==\n\
         ~ temp total: int = math::add(1, 2)\n\
         -> END\n\
         === module math ===\n\
         == function add(left: int, right: int) => int ==\n\
         ~ return left + right",
    );

    assert_eq!(call_target_diagnostics(&story), []);
}

#[test]
fn qualified_module_function_calls_use_declaring_module_named_types() {
    let story = parse_story(
        "=== module game ===\n\
         FROM data IMPORT State, echo, DEFAULT_STATE\n\
         == main ==\n\
         ~ temp state: data::State = data::echo(data::DEFAULT_STATE)\n\
         -> END\n\
         === module data ===\n\
         ENUM State { Idle Busy }\n\
         CONST DEFAULT_STATE: State = State.Idle\n\
         == function echo(value: State) => State ==\n\
         ~ return value",
    );

    assert_eq!(call_target_diagnostics(&story), []);
}

#[test]
fn qualified_module_function_calls_report_argument_type_errors() {
    let story = parse_story(
        "=== module game ===\n\
         FROM math IMPORT add\n\
         == main ==\n\
         ~ temp total: int = math::add(1, \"two\")\n\
         -> END\n\
         === module math ===\n\
         == function add(left: int, right: int) => int ==\n\
         ~ return left + right",
    );

    let diagnostics = call_target_diagnostics(&story);

    assert_single_diagnostic(
        &diagnostics,
        DiagnosticSeverity::Error,
        "Argument 'right' for function 'math::add' has type string but expected int",
    );
}

#[test]
fn qualified_external_calls_are_type_checked() {
    let story = parse_story(
        "=== module game ===\n\
         FROM audio IMPORT play\n\
         == main ==\n\
         ~ temp code: int = audio::play(\"intro\")\n\
         -> END\n\
         === module audio ===\n\
         EXTERNAL play(name: string) => int\n\
         == helper ==\n\
         -> END",
    );

    assert_eq!(call_target_diagnostics(&story), []);
}

#[test]
fn module_diverts_accept_same_module_knot_stitch_paths() {
    let story = parse_story(
        "=== module game ===\n\
         == main ==\n\
         -> scene.intro\n\
         == scene ==\n\
         = intro\n\
         -> END",
    );

    assert_eq!(call_target_diagnostics(&story), []);
}

#[test]
fn module_diverts_accept_relative_stitch_shorthand() {
    let story = parse_story(
        "=== module game ===\n\
         == main ==\n\
         -> intro\n\
         = intro\n\
         -> END",
    );

    assert_eq!(call_target_diagnostics(&story), []);
}

#[test]
fn module_diverts_accept_same_module_self_qualified_stitches() {
    let story = parse_story(
        "=== module game ===\n\
         == main ==\n\
         -> game::scene.intro\n\
         == scene ==\n\
         = intro\n\
         -> END",
    );

    assert_eq!(call_target_diagnostics(&story), []);
}

#[test]
fn module_diverts_reject_cross_module_direct_stitch_paths() {
    let story = parse_story(
        "=== module game ===\n\
         FROM items IMPORT scene\n\
         == main ==\n\
         -> items::scene.intro\n\
         === module items ===\n\
         == scene ==\n\
         = intro\n\
         -> END",
    );

    let diagnostics = call_target_diagnostics(&story);

    assert_single_diagnostic(
        &diagnostics,
        DiagnosticSeverity::Error,
        "Cross-module direct stitch access is not allowed: 'items::scene.intro'. Import and reference the parent knot instead.",
    );
}

#[test]
fn module_diverts_accept_cross_module_parent_knots_for_target_resolution() {
    let story = parse_story(
        "=== module game ===\n\
         FROM items IMPORT scene\n\
         == main ==\n\
         -> items::scene\n\
         === module items ===\n\
         == scene ==\n\
         = intro\n\
         -> END",
    );

    assert_eq!(call_target_diagnostics(&story), []);
}

#[test]
fn module_tunnel_onwards_reject_cross_module_direct_stitch_paths() {
    let story = parse_story(
        "=== module game ===\n\
         FROM items IMPORT scene\n\
         == main ==\n\
         -> tunnel ->-> items::scene.intro\n\
         == tunnel ==\n\
         ->->\n\
         === module items ===\n\
         == scene ==\n\
         = intro\n\
         -> END",
    );

    let diagnostics = call_target_diagnostics(&story);

    assert_single_diagnostic(
        &diagnostics,
        DiagnosticSeverity::Error,
        "Cross-module direct stitch access is not allowed: 'items::scene.intro'. Import and reference the parent knot instead.",
    );
}

#[test]
fn keeps_plain_dynamic_divert_targets_unchanged() {
    let story = parse_story(
        "VAR next: -> = -> done\n\
         -> {next}\n\
         == done ==\n\
         -> END",
    );

    assert_eq!(call_target_diagnostics(&story), []);
}

#[test]
fn checks_plain_dynamic_divert_arguments() {
    let story = parse_story(
        "VAR next: -> = -> done\n\
         -> {next}(missing())\n\
         == done ==\n\
         -> END",
    );
    let diagnostics = call_target_diagnostics(&story);

    assert_single_diagnostic(
        &diagnostics,
        DiagnosticSeverity::Error,
        "Function 'missing' is not declared",
    );
}
