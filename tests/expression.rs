use lakesql::create_sample_row;
use lakesql::create_session_context;
use lakesql::ExpressionEvaluator;
use lakesql::LakeError;
use lakesql::RowFilter;

fn filter(e: &str) -> RowFilter {
    RowFilter { expression: e.to_string(), session_context: None }
}

#[test]
fn test_simple_equality() {
    let mut evaluator = ExpressionEvaluator::new();

    evaluator.set_row_data(create_sample_row(vec![("region", "west"), ("department", "sales")]));

    let filter = RowFilter { expression: "region = 'west'".to_string(), session_context: None };

    let result = evaluator.evaluate_filter(&filter).unwrap();
    assert!(result);
}

#[test]
fn test_session_context() {
    let mut evaluator = ExpressionEvaluator::new();

    evaluator.set_session_context(create_session_context(vec![
        ("user_region", "west"),
        ("user_department", "engineering"),
    ]));

    evaluator.set_row_data(create_sample_row(vec![("region", "west"), ("department", "engineering")]));

    let filter = RowFilter {
        expression: "region = SESSION_CONTEXT('user_region')".to_string(),
        session_context: None,
    };

    let result = evaluator.evaluate_filter(&filter).unwrap();
    assert!(result);
}

#[test]
fn test_logical_and() {
    let mut evaluator = ExpressionEvaluator::new();

    evaluator.set_session_context(create_session_context(vec![
        ("user_region", "west"),
        ("user_department", "engineering"),
    ]));

    evaluator.set_row_data(create_sample_row(vec![("region", "west"), ("department", "engineering")]));

    let filter = RowFilter {
        expression: "region = SESSION_CONTEXT('user_region') AND department = SESSION_CONTEXT('user_department')"
            .to_string(),
        session_context: None,
    };

    let result = evaluator.evaluate_filter(&filter).unwrap();
    assert!(result);
}

#[test]
fn test_access_denied() {
    let mut evaluator = ExpressionEvaluator::new();

    evaluator.set_session_context(create_session_context(vec![("user_region", "east")]));

    evaluator.set_row_data(create_sample_row(vec![("region", "west")]));

    let filter = RowFilter {
        expression: "region = SESSION_CONTEXT('user_region')".to_string(),
        session_context: None,
    };

    let result = evaluator.evaluate_filter(&filter).unwrap();
    assert!(!result);
}

#[test]
fn test_inequality() {
    let mut evaluator = ExpressionEvaluator::new();

    evaluator.set_row_data(create_sample_row(vec![("status", "active")]));

    let filter = RowFilter { expression: "status != 'inactive'".to_string(), session_context: None };

    let result = evaluator.evaluate_filter(&filter).unwrap();
    assert!(result);
}

#[test]
fn where_prefix_and_boolean_literals() {
    let e = ExpressionEvaluator::new();
    assert!(e.evaluate_filter(&filter("WHERE TRUE")).unwrap());
    assert!(e.evaluate_filter(&filter("  where true  ")).unwrap());
    assert!(!e.evaluate_filter(&filter("False")).unwrap());
}

#[test]
fn or_is_true_when_any_part_is() {
    let mut e = ExpressionEvaluator::new();
    e.set_row_data(create_sample_row(vec![("region", "west")]));
    assert!(e.evaluate_filter(&filter("region = 'east' OR region = 'west'")).unwrap());
    assert!(!e.evaluate_filter(&filter("region = 'east' OR region = 'north'")).unwrap());
}

#[test]
fn and_stops_at_the_first_false_part() {
    let e = ExpressionEvaluator::new();
    // the second part would fail, but the first is already false
    assert!(!e.evaluate_filter(&filter("FALSE AND a = SESSION_CONTEXT('nope')")).unwrap());
}

#[test]
fn missing_context_key_is_an_error() {
    let e = ExpressionEvaluator::new();
    match e.evaluate_filter(&filter("region = SESSION_CONTEXT('user_region')")) {
        Err(LakeError::MissingSessionContextKey(k)) => assert_eq!(k, "user_region"),
        other => panic!("unexpected {:?}", other),
    }
}

#[test]
fn unknown_text_is_an_evaluation_error() {
    let e = ExpressionEvaluator::new();
    match e.evaluate_filter(&filter("maybe")) {
        Err(LakeError::EvaluationError(t)) => assert_eq!(t, "maybe"),
        other => panic!("unexpected {:?}", other),
    }
}

#[test]
fn operands_resolve_to_literals_columns_and_text() {
    let mut e = ExpressionEvaluator::new();
    e.set_row_data(create_sample_row(vec![("amount", "1000.00")]));
    assert!(e.evaluate_filter(&filter("amount = 1000.00")).unwrap());
    assert!(e.evaluate_filter(&filter("\"x\" = 'x'")).unwrap());
    assert!(e.evaluate_filter(&filter("unknown = unknown")).unwrap());
    assert!(!e.evaluate_filter(&filter("amount = 1000")).unwrap());
}

#[test]
fn later_pairs_replace_earlier_ones() {
    let mut e = ExpressionEvaluator::new();
    e.set_session_context(create_session_context(vec![("k", "a"), ("k", "b")]));
    assert!(e.evaluate_filter(&filter("'b' = SESSION_CONTEXT(\"k\")")).unwrap());
    assert_eq!(create_session_context(vec![("k", "a"), ("k", "b")]).len(), 1);
}

#[test]
fn unicode_blanks_are_trimmed() {
    let e = ExpressionEvaluator::new();
    assert!(e.evaluate_filter(&filter("TRUE\u{a0}")).unwrap());
    assert!(e.evaluate_filter(&filter("\u{3000}where false\u{2003}")).unwrap() == false);
    let mut e2 = ExpressionEvaluator::new();
    e2.set_row_data(create_sample_row(vec![("region", "west")]));
    assert!(e2.evaluate_filter(&filter("region =\u{a0}'west'")).unwrap());
}

#[test]
fn dotless_i_and_long_s_fold_like_upper_case() {
    let e = ExpressionEvaluator::new();
    assert!(!e.evaluate_filter(&filter("fal\u{17f}e")).unwrap());
    assert!(e.evaluate_filter(&filter("true")).unwrap());
}
