use ink_compiler::analysis::modules::dependencies::ModuleDependencyGraph;
use ink_compiler::analysis::modules::imports::ModuleImportIndex;
use ink_compiler::analysis::modules::reachability::ModuleReachability;
use ink_compiler::analysis::modules::symbols::ModuleSymbolIndex;
use ink_compiler::analysis::access::{field_access_diagnostics, index_access_diagnostics};
use ink_compiler::analysis::flow::flow_diagnostics;
use ink_compiler::analysis::modules::dependencies::{build_module_dependency_graph, module_dependency_diagnostics};
use ink_compiler::analysis::names::naming_diagnostics;
use ink_compiler::analysis::run_analysis_passes;
use ink_compiler::analysis::structs::{enum_type_diagnostics, struct_type_diagnostics};
use ink_compiler::compiler::parse_source;
use ink_compiler::diagnostic::{Diagnostic, DiagnosticSeverity};
use ink_compiler::parsed::Story;

fn parse_story(source: &str) -> Story {
    let parsed = parse_source(source);
    assert!(!parsed.has_errors(), "{:#?}", parsed.diagnostics);
    parsed.artifact.expect("parsed story")
}

fn messages(diagnostics: &[Diagnostic]) -> Vec<String> {
    diagnostics.iter().map(|d| d.message.clone()).collect()
}

fn dependency_diagnostics(story: &Story) -> Vec<Diagnostic> {
    let graph = build_module_dependency_graph(story);
    module_dependency_diagnostics(&graph)
}

#[test]
fn repeated_choice_label_in_one_weave_is_reported_once() {
    let story = parse_story("* (pick) One\n* (pick) Two\n- (pick) Three\n-> DONE");
    let diagnostics = naming_diagnostics(&story);
    assert_eq!(
        messages(&diagnostics),
        vec![
            "choice with the same label 'pick' already exists in this context".to_string(),
            "gather with the same label 'pick' already exists in this context".to_string(),
        ]
    );
    assert!(diagnostics.iter().all(|d| d.severity == DiagnosticSeverity::Error));
}

#[test]
fn choice_label_named_like_a_global_is_reported() {
    let story = parse_story("VAR gold = 1\n* (gold) Take it\n-> DONE");
    let diagnostics = naming_diagnostics(&story);
    assert_eq!(messages(&diagnostics), vec!["choice 'gold': name has already been used for a var".to_string()]);
}

#[test]
fn stitch_named_like_a_global_is_reported() {
    let story = parse_story("VAR intro = 1\n== knot ==\n= intro\nHello\n-> DONE");
    let diagnostics = naming_diagnostics(&story);
    assert_eq!(messages(&diagnostics), vec!["stitch 'intro': name has already been used for a var".to_string()]);
}

#[test]
fn argument_named_like_a_knot_or_function_is_reported() {
    let story = parse_story("== other ==\n-> DONE\n== function helper ==\n~ return 1\n== knot(other, helper) ==\n-> DONE");
    let diagnostics = naming_diagnostics(&story);
    assert_eq!(
        messages(&diagnostics),
        vec![
            "argument 'other': name has already been used for a knot".to_string(),
            "argument 'helper': name has already been used for a function".to_string(),
        ]
    );
}

#[test]
fn clean_story_has_no_name_clashes() {
    let story = parse_story("VAR gold = 1\n== knot(amount) ==\n* (pick) Take\n- (after) Done\n-> DONE");
    assert!(naming_diagnostics(&story).is_empty());
}

#[test]
fn struct_reaching_itself_through_another_struct_is_reported_for_both() {
    let story = parse_story("STRUCT A {\n b: B\n }\nSTRUCT B {\n a: A[]\n }\n-> DONE");
    let diagnostics = struct_type_diagnostics(&story);
    assert_eq!(
        messages(&diagnostics),
        vec![
            "Recursive struct type 'A' is not supported".to_string(),
            "Recursive struct type 'B' is not supported".to_string(),
        ]
    );
}

#[test]
fn struct_chain_without_cycle_is_accepted() {
    let story = parse_story("STRUCT A {\n b: B\n }\nSTRUCT B {\n c: C[]\n }\nSTRUCT C {\n n: int\n }\n-> DONE");
    assert!(struct_type_diagnostics(&story).is_empty());
}

#[test]
fn unknown_dict_value_type_in_a_field_is_reported() {
    let story = parse_story("STRUCT Bag {\n items: Dict<string, Thing>\n }\n-> DONE");
    let diagnostics = struct_type_diagnostics(&story);
    assert_eq!(
        messages(&diagnostics),
        vec!["Unknown named type 'Thing' for field 'items' in struct 'Bag'".to_string()]
    );
}

#[test]
fn empty_enum_and_repeated_member_are_reported() {
    let story = parse_story("ENUM Empty {}\nENUM Mood { Calm Calm }\n-> DONE");
    let diagnostics = enum_type_diagnostics(&story);
    assert_eq!(
        messages(&diagnostics),
        vec![
            "Enum 'Empty' must declare at least one member".to_string(),
            "Duplicate member 'Calm' in enum 'Mood'".to_string(),
        ]
    );
}

#[test]
fn two_modules_importing_each_other_form_one_reported_cycle() {
    let story = parse_story(
        "=== module a ===\n\
         IMPORT y FROM b\n\
         VAR x: int = 1\n\
         === module b ===\n\
         IMPORT x FROM a\n\
         VAR y: int = 1",
    );
    let diagnostics = dependency_diagnostics(&story);
    assert_eq!(diagnostics.len(), 1, "{diagnostics:#?}");
    assert_eq!(diagnostics[0].message, "Cyclic module import detected: a -> b -> a");
}

#[test]
fn imports_without_a_cycle_report_nothing() {
    let story = parse_story(
        "=== module a ===\n\
         IMPORT y FROM b\n\
         === module b ===\n\
         VAR y: int = 1",
    );
    assert!(dependency_diagnostics(&story).is_empty());
}

#[test]
fn unknown_field_read_inside_a_dict_literal_is_reported() {
    let story = parse_story("VAR n = 1\n~ temp d = {\"k\": n.size}\n-> DONE");
    let diagnostics = field_access_diagnostics(&story);
    assert_eq!(diagnostics.len(), 1, "{diagnostics:#?}");
    assert_eq!(diagnostics[0].severity, DiagnosticSeverity::Error);
}

#[test]
fn element_read_of_a_number_is_reported_once() {
    let story = parse_story("VAR n = 1\n~ temp x = n[0]\n-> DONE");
    let diagnostics = index_access_diagnostics(&story);
    assert_eq!(diagnostics.len(), 1, "{diagnostics:#?}");
    assert_eq!(diagnostics[0].line, 1);
    assert_eq!(diagnostics[0].column, 1);
}

#[test]
fn knot_without_ending_gets_a_loose_end_warning() {
    let story = parse_story("== knot ==\nHello");
    let diagnostics = flow_diagnostics(&story);
    assert_eq!(diagnostics.len(), 1, "{diagnostics:#?}");
    assert_eq!(diagnostics[0].severity, DiagnosticSeverity::Warning);
}

#[test]
fn return_outside_a_function_is_an_error() {
    let story = parse_story("== knot ==\n~ return 1");
    let diagnostics = flow_diagnostics(&story);
    assert_eq!(
        messages(&diagnostics),
        vec!["Return statements can only be used in knots that are declared as functions: == function knot ==".to_string()]
    );
}

#[test]
fn analysis_passes_report_story_checks_before_module_checks() {
    let story = parse_story(
        "=== module a ===\n\
         IMPORT y FROM b\n\
         STRUCT Node {\n next: Node\n }\n\
         === module b ===\n\
         IMPORT x FROM a\n\
         VAR y: int = 1",
    );
    let all = messages(&run_analysis_passes(&story));
    let recursive = all.iter().position(|m| m == "Recursive struct type 'Node' is not supported");
    let cycle = all.iter().position(|m| m.starts_with("Cyclic module import detected"));
    assert!(recursive.is_some() && cycle.is_some(), "{all:#?}");
    assert!(recursive < cycle);
}

#[test]
fn tunnel_divert_does_not_end_the_flow() {
    let story = parse_story("== knot ==\n-> other ->\n== other ==\n->->");
    let diagnostics = flow_diagnostics(&story);
    assert_eq!(diagnostics.len(), 1, "{diagnostics:#?}");
    assert_eq!(diagnostics[0].severity, DiagnosticSeverity::Warning);
    assert_eq!(diagnostics[0].line, 2);
}

#[test]
fn return_from_a_tunnel_ends_the_flow() {
    let story = parse_story("== knot ==\n-> other -> DONE\n== other ==\nHello\n->->");
    assert!(flow_diagnostics(&story).is_empty(), "{:#?}", flow_diagnostics(&story));
}

#[test]
fn three_module_cycle_is_reported_once_whatever_module_it_is_entered_from() {
    let story = parse_story(
        "=== module a ===\n\
         IMPORT y FROM b\n\
         VAR x: int = 1\n\
         === module b ===\n\
         IMPORT z FROM c\n\
         VAR y: int = 1\n\
         === module c ===\n\
         IMPORT x FROM a\n\
         VAR z: int = 1",
    );
    let diagnostics = dependency_diagnostics(&story);
    assert_eq!(messages(&diagnostics), vec!["Cyclic module import detected: a -> b -> c -> a".to_string()]);
}

#[test]
fn repeated_module_name_is_reported() {
    let story = parse_story("=== module a ===\nVAR x: int = 1\n=== module a ===\nVAR y: int = 1");
    let all = messages(&run_analysis_passes(&story));
    assert!(all.iter().any(|m| m == "Module 'a' is already declared in this compilation"), "{all:#?}");
}

#[test]
fn module_header_with_trailing_words_is_rejected() {
    let parsed = parse_source("=== module left implements IRoute ===\n== target ==\n-> END");
    assert_eq!(
        messages(&parsed.diagnostics),
        vec!["Module header has unexpected text after the module name".to_string()]
    );
}

#[test]
fn default_graph_and_indexes_are_empty_and_clones_are_equal() {
    assert!(ModuleDependencyGraph::default().entries.is_empty());
    assert!(ModuleImportIndex::default().modules.is_empty());
    let reach = ModuleReachability::default();
    assert!(reach.entry_module.is_none() && reach.reachable.is_empty());
    assert!(ModuleSymbolIndex::default().modules.is_empty());

    let story = parse_story("=== module game ===\nFROM items IMPORT sword\n== main ==\n-> END\n=== module items ===\n== sword ==\n-> END");
    let graph = build_module_dependency_graph(&story);
    assert_eq!(graph.clone(), graph);
}

#[test]
fn for_loop_lines_are_reported_as_unreadable() {
    let parsed = parse_source("VAR values: int[] = [1]\n{ for value in values:\n{value}\n}\n-> DONE");
    assert!(parsed.has_errors());
}
