use ink_compiler::analysis::inference::{infer_expression_type, infer_primitive_expression_type};
use ink_compiler::analysis::structs::build_type_index;
use ink_compiler::analysis::types::TypeIndex;
use ink_compiler::compiler::parse_source;
use ink_compiler::parsed::{BinaryOperator, Expression, QualifiedName, Story, TypeName, UnaryOperator};
use ink_compiler::source::SourceSpan;

fn parse_story(source: &str) -> Story {
    let parsed = parse_source(source);
    assert!(!parsed.has_errors(), "{:#?}", parsed.diagnostics);
    parsed.artifact.expect("parsed story")
}

fn empty_scopes() -> TypeIndex {
    TypeIndex::empty()
}

fn binary(operator: BinaryOperator, left: Expression, right: Expression) -> Expression {
    Expression::Binary {
        operator,
        left: Box::new(left),
        right: Box::new(right),
    }
}

fn unary(operator: UnaryOperator, expression: Expression) -> Expression {
    Expression::Unary {
        operator,
        expression: Box::new(expression),
    }
}

fn variable(name: &str) -> Expression {
    Expression::VariableReference(name.to_string())
}

fn qualified_name(module: &str, symbol: &str) -> QualifiedName {
    QualifiedName {
        module: module.to_string(),
        symbol: symbol.to_string(),
        module_span: SourceSpan::new(None, 1, 1),
    }
}

fn qualified_reference(module: &str, symbol: &str) -> Expression {
    Expression::QualifiedReference(qualified_name(module, symbol))
}

fn qualified_type(module: &str, symbol: &str) -> TypeName {
    TypeName::QualifiedStruct(qualified_name(module, symbol))
}

#[test]
fn infers_literal_and_variable_primitive_types() {
    let story = parse_story(
        "VAR score: int = 0\n\
         == knot(flag: bool) ==\n\
         -> DONE",
    );
    let scopes = build_type_index(&story);

    assert_eq!(
        infer_primitive_expression_type(
            &Expression::VariableReference("score".to_string()),
            &scopes,
            None,
            Some("knot")
        ),
        Ok(TypeName::int_type())
    );
    assert_eq!(
        infer_primitive_expression_type(
            &Expression::VariableReference("flag".to_string()),
            &scopes,
            None,
            Some("knot")
        ),
        Ok(TypeName::bool())
    );
    assert_eq!(
        infer_primitive_expression_type(
            &Expression::String("text".to_string()),
            &scopes,
            None,
            None
        ),
        Ok(TypeName::string())
    );
}

#[test]
fn infers_qualified_constant_and_variable_types() {
    let story = parse_story(
        "=== module game ===\n\
         == main ==\n\
         -> DONE\n\
         === module items ===\n\
         CONST MAX_SCORE: int = 3\n\
         VAR score: int = 0\n\
         == helper ==\n\
         -> DONE",
    );
    let scopes = build_type_index(&story);

    assert_eq!(
        infer_primitive_expression_type(
            &qualified_reference("items", "MAX_SCORE"),
            &scopes,
            Some("game"),
            Some("main")
        ),
        Ok(TypeName::int_type())
    );
    assert_eq!(
        infer_primitive_expression_type(
            &qualified_reference("items", "score"),
            &scopes,
            Some("game"),
            Some("main")
        ),
        Ok(TypeName::int_type())
    );
}

#[test]
fn infers_qualified_global_named_types_in_declaring_module_scope() {
    let story = parse_story(
        "=== module game ===\n\
         FROM data IMPORT actor, DEFAULT_STATE, State\n\
         == main ==\n\
         -> DONE\n\
         === module data ===\n\
         ENUM State { Idle Busy }\n\
         STRUCT Actor {\n\
         state: State\n\
         history: State[]\n\
         }\n\
         VAR actor: Actor\n\
         CONST DEFAULT_STATE: State = State.Idle\n\
         == helper ==\n\
         -> DONE",
    );
    let scopes = build_type_index(&story);
    let actor_state = Expression::FieldAccess {
        base: Box::new(qualified_reference("data", "actor")),
        field: "state".to_string(),
    };
    let actor_history = Expression::FieldAccess {
        base: Box::new(qualified_reference("data", "actor")),
        field: "history".to_string(),
    };

    assert_eq!(
        infer_expression_type(
            &qualified_reference("data", "actor"),
            &scopes,
            Some("game"),
            Some("main")
        ),
        Ok(qualified_type("data", "Actor"))
    );
    assert_eq!(
        infer_expression_type(
            &actor_state,
            &scopes,
            Some("game"),
            Some("main")
        ),
        Ok(qualified_type("data", "State"))
    );
    assert_eq!(
        infer_expression_type(
            &actor_history,
            &scopes,
            Some("game"),
            Some("main")
        ),
        Ok(TypeName::array(qualified_type("data", "State")))
    );
    assert_eq!(
        infer_expression_type(
            &qualified_reference("data", "DEFAULT_STATE"),
            &scopes,
            Some("game"),
            Some("main")
        ),
        Ok(qualified_type("data", "State"))
    );
}

#[test]
fn infers_numeric_and_unary_operator_types_without_widening() {
    let scopes = empty_scopes();
    let int_add = binary(
        BinaryOperator::Add,
        Expression::NumberInt(1),
        Expression::NumberInt(2),
    );
    let float_negate = unary(
        UnaryOperator::Negate,
        Expression::NumberFloat("2.0".to_string()),
    );

    assert_eq!(
        infer_primitive_expression_type(&int_add, &scopes, None, None),
        Ok(TypeName::int_type())
    );
    assert_eq!(
        infer_primitive_expression_type(&float_negate, &scopes, None, None),
        Ok(TypeName::float())
    );
}

#[test]
fn rejects_implicit_numeric_conversion() {
    let scopes = empty_scopes();
    let mixed_add = binary(
        BinaryOperator::Add,
        Expression::NumberInt(1),
        Expression::NumberFloat("2.0".to_string()),
    );

    let error = infer_primitive_expression_type(&mixed_add, &scopes, None, None).unwrap_err();

    assert_eq!(
        error.message(),
        "Operator '+' is not defined for types int and float"
    );
}

#[test]
fn infers_string_concatenation_and_rejects_mixed_string_addition() {
    let scopes = empty_scopes();
    let concat = binary(
        BinaryOperator::Add,
        Expression::String("a".to_string()),
        Expression::String("b".to_string()),
    );
    let mixed = binary(
        BinaryOperator::Add,
        Expression::String("a".to_string()),
        Expression::NumberInt(1),
    );

    assert_eq!(
        infer_primitive_expression_type(&concat, &scopes, None, None),
        Ok(TypeName::string())
    );
    assert_eq!(
        infer_primitive_expression_type(&mixed, &scopes, None, None)
            .unwrap_err()
            .message(),
        "Operator '+' is not defined for types string and int"
    );
}

#[test]
fn infers_boolean_operator_types() {
    let scopes = empty_scopes();
    let and_expression = binary(
        BinaryOperator::AndSymbol,
        Expression::NumberBool(true),
        Expression::NumberBool(false),
    );
    let not_expression = unary(UnaryOperator::Not, Expression::NumberBool(true));

    assert_eq!(
        infer_primitive_expression_type(&and_expression, &scopes, None, None),
        Ok(TypeName::bool())
    );
    assert_eq!(
        infer_primitive_expression_type(&not_expression, &scopes, None, None),
        Ok(TypeName::bool())
    );
}

#[test]
fn rejects_boolean_operators_for_divert_targets() {
    let story = parse_story(
        "VAR next: -> = -> knot\n\
         -> DONE\n\
         == knot ==\n\
         -> DONE",
    );
    let scopes = build_type_index(&story);
    let cases = [
        (
            unary(UnaryOperator::Not, variable("next")),
            "Operator 'not' is not defined for type ->",
        ),
        (
            binary(
                BinaryOperator::AndSymbol,
                variable("next"),
                Expression::NumberBool(true),
            ),
            "Operator '&&' is not defined for types -> and bool",
        ),
    ];

    for (expression, expected_message) in cases {
        let error = infer_expression_type(
            &expression,
            &scopes,
            None,
            None,
        )
        .unwrap_err();

        assert_eq!(error.message(), expected_message);
    }
}

#[test]
fn infers_equality_for_primitive_array_struct_and_nested_types() {
    let story = parse_story(
        "STRUCT Player {\n\
         hp: int\n\
         }\n\
         VAR score: int = 1\n\
         VAR other_score: int = 2\n\
         VAR first_target: -> = -> knot\n\
         VAR second_target: -> = -> other\n\
         VAR source_player: Player = %Player{ hp: 10 }\n\
         VAR other_player: Player = %Player{ hp: 20 }\n\
         VAR scores: int[] = [score]\n\
         VAR other_scores: int[] = [other_score]\n\
         VAR nested_scores: int[][] = [scores]\n\
         VAR other_nested_scores: int[][] = [other_scores]\n\
         -> DONE\n\
         == knot ==\n\
         -> DONE\n\
         == other ==\n\
         -> DONE",
    );
    let scopes = build_type_index(&story);
    let expressions = [
        binary(
            BinaryOperator::Equals,
            variable("score"),
            variable("other_score"),
        ),
        binary(
            BinaryOperator::Equals,
            variable("first_target"),
            variable("second_target"),
        ),
        binary(
            BinaryOperator::NotEquals,
            variable("first_target"),
            variable("second_target"),
        ),
        binary(
            BinaryOperator::Equals,
            variable("scores"),
            variable("other_scores"),
        ),
        binary(
            BinaryOperator::NotEquals,
            variable("scores"),
            variable("other_scores"),
        ),
        binary(
            BinaryOperator::Equals,
            variable("source_player"),
            variable("other_player"),
        ),
        binary(
            BinaryOperator::Equals,
            variable("nested_scores"),
            variable("other_nested_scores"),
        ),
    ];

    for expression in expressions {
        assert_eq!(
            infer_expression_type(
                &expression,
                &scopes,
                None,
                None,
            ),
            Ok(TypeName::bool())
        );
    }
}

#[test]
fn infers_enum_member_and_equality_types() {
    let story = parse_story(
        "ENUM State { Idle Busy }\n\
         VAR state: State = State.Idle\n\
         -> DONE",
    );
    let scopes = build_type_index(&story);
    let idle = Expression::FieldAccess {
        base: Box::new(variable("State")),
        field: "Idle".to_string(),
    };
    let busy = Expression::FieldAccess {
        base: Box::new(variable("State")),
        field: "Busy".to_string(),
    };

    assert_eq!(
        infer_expression_type(
            &idle,
            &scopes,
            None,
            None,
        ),
        Ok(TypeName::struct_type("State"))
    );
    assert_eq!(
        infer_expression_type(
            &binary(BinaryOperator::Equals, idle, busy),
            &scopes,
            None,
            None
        ),
        Ok(TypeName::bool())
    );
}

#[test]
fn rejects_unknown_enum_members() {
    let story = parse_story("ENUM State { Idle Busy }\n-> DONE");
    let scopes = build_type_index(&story);
    let missing = Expression::FieldAccess {
        base: Box::new(variable("State")),
        field: "Missing".to_string(),
    };

    let error = infer_expression_type(
        &missing,
        &scopes,
        None,
        None,
    )
    .unwrap_err();

    assert_eq!(error.message(), "Unknown member 'Missing' in enum 'State'");
}

#[test]
fn rejects_equality_between_unrelated_types() {
    let story = parse_story(
        "STRUCT Player {\n\
         hp: int\n\
         }\n\
         VAR score: int = 1\n\
         VAR ratio: float = 1.0\n\
         VAR source_player: Player = %Player{ hp: 10 }\n\
         VAR scores: int[] = [score]\n\
         -> DONE",
    );
    let scopes = build_type_index(&story);
    let cases = [
        (
            binary(
                BinaryOperator::Equals,
                variable("scores"),
                variable("source_player"),
            ),
            "Operator '==' is not defined for types int[] and Player",
        ),
        (
            binary(
                BinaryOperator::NotEquals,
                variable("score"),
                variable("ratio"),
            ),
            "Operator '!=' is not defined for types int and float",
        ),
    ];

    for (expression, expected_message) in cases {
        let error = infer_expression_type(
            &expression,
            &scopes,
            None,
            None,
        )
        .unwrap_err();

        assert_eq!(error.message(), expected_message);
    }
}

#[test]
fn rejects_ordered_comparisons_for_non_numeric_types() {
    let story = parse_story(
        "STRUCT Player {\n\
         hp: int\n\
         }\n\
         ENUM State { Idle Busy }\n\
         VAR score: int = 1\n\
         VAR source_player: Player = %Player{ hp: 10 }\n\
         VAR other_player: Player = %Player{ hp: 20 }\n\
         VAR first_target: -> = -> knot\n\
         VAR second_target: -> = -> other\n\
         VAR scores: int[] = [score]\n\
         VAR other_scores: int[] = [score]\n\
         -> DONE\n\
         == knot ==\n\
         -> DONE\n\
         == other ==\n\
         -> DONE",
    );
    let scopes = build_type_index(&story);
    let cases = [
        (
            binary(
                BinaryOperator::GreaterThan,
                variable("scores"),
                variable("other_scores"),
            ),
            "Operator '>' is not defined for types int[] and int[]",
        ),
        (
            binary(
                BinaryOperator::LessThan,
                variable("source_player"),
                variable("other_player"),
            ),
            "Operator '<' is not defined for types Player and Player",
        ),
        (
            binary(
                BinaryOperator::GreaterThan,
                variable("first_target"),
                variable("second_target"),
            ),
            "Operator '>' is not defined for types -> and ->",
        ),
        (
            binary(
                BinaryOperator::GreaterThan,
                Expression::FieldAccess {
                    base: Box::new(variable("State")),
                    field: "Idle".to_string(),
                },
                Expression::FieldAccess {
                    base: Box::new(variable("State")),
                    field: "Busy".to_string(),
                },
            ),
            "Operator '>' is not defined for types State and State",
        ),
        (
            binary(
                BinaryOperator::GreaterThan,
                Expression::String("a".to_string()),
                Expression::String("b".to_string()),
            ),
            "Operator '>' is not defined for types string and string",
        ),
    ];

    for (expression, expected_message) in cases {
        let error = infer_expression_type(
            &expression,
            &scopes,
            None,
            None,
        )
        .unwrap_err();

        assert_eq!(error.message(), expected_message);
    }
}
