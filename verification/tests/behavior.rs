use metrics_evaluation::{
    evaluate, evaluate_with_policy, parse_tree, solve_tree, ComparisonPolicy, Entity, EvalError,
    MapResolver, Value,
};

fn resolver_of(pairs: Vec<(&str, Value)>) -> MapResolver {
    let mut entries: Vec<(String, Value)> = Vec::new();
    for (name, value) in pairs {
        entries.push((name.to_string(), value));
    }
    MapResolver::from(entries)
}

#[test]
fn test_round_trip() {
    let tree = parse_tree("a == 1").unwrap();
    let hit = resolver_of(vec![("a", Value::numeric(1))]);
    let miss = resolver_of(vec![("a", Value::numeric(2))]);
    assert_eq!(solve_tree(&tree, &hit).unwrap(), true);
    assert_eq!(solve_tree(&tree, &miss).unwrap(), false);
}

#[test]
fn test_left_to_right_fold() {
    // no precedence between || and &&: the fold runs strictly left to right,
    // so the trailing `&& c == 1` turns the accumulated true into false
    let values = resolver_of(vec![
        ("a", Value::numeric(1)),
        ("b", Value::numeric(0)),
        ("c", Value::numeric(0)),
    ]);
    assert_eq!(evaluate("a == 1 || b == 1 && c == 1", &values).unwrap(), false);
}

#[test]
fn test_nested_grouping() {
    let tree = parse_tree("(a == 1 && b == 2)").unwrap();
    assert_eq!(tree.items.len(), 1);
    match &tree.items[0] {
        Entity::Child(sub, logic) => {
            assert!(logic.is_none());
            assert_eq!(sub.items.len(), 2);
        },
        Entity::Comparison(_, _) => panic!("expected a nested child"),
    }
    let hit = resolver_of(vec![("a", Value::numeric(1)), ("b", Value::numeric(2))]);
    let miss = resolver_of(vec![("a", Value::numeric(1)), ("b", Value::numeric(3))]);
    assert_eq!(solve_tree(&tree, &hit).unwrap(), true);
    assert_eq!(solve_tree(&tree, &miss).unwrap(), false);
}

#[test]
fn test_arithmetic_chains() {
    let values = resolver_of(vec![("a", Value::numeric(1)), ("b", Value::numeric(3))]);
    assert_eq!(evaluate("a + 2 == b", &values).unwrap(), true);
    let values = resolver_of(vec![("a", Value::numeric(5)), ("c", Value::numeric(4))]);
    assert_eq!(evaluate("a - 1 == c", &values).unwrap(), true);
}

#[test]
fn test_duration_time_literals() {
    let values = resolver_of(vec![("working", Value::duration_from_secs(2 * 3600))]);
    assert_eq!(evaluate(r#"working > "1h 5min""#, &values).unwrap(), true);
    let values = resolver_of(vec![("now", Value::time_hms(6, 0, 0))]);
    assert_eq!(evaluate(r#"now <= "05:00:00""#, &values).unwrap(), false);
}

#[test]
fn test_unresolved_variable_error() {
    let empty = resolver_of(vec![]);
    let res = evaluate("x > 1", &empty);
    assert!(matches!(res, Err(EvalError::UnresolvedVariable(name)) if name == "x"));
}

#[test]
fn test_malformed_input() {
    let res = parse_tree("a >> 1");
    match res {
        Err(EvalError::Syntax(remainder)) => {
            assert!(remainder.contains(">> 1"));
        },
        _ => panic!("expected a syntax error"),
    }
}

#[test]
fn test_error_message() {
    let res = parse_tree("a >> 1");
    match res {
        Err(err) => {
            let text = err.message();
            assert!(text.contains("syntax error near"));
            assert!(text.contains(">> 1"));
        },
        Ok(_) => panic!("expected a syntax error"),
    }
}

#[test]
fn test_idempotence() {
    let tree = parse_tree("a == 1 && (b > 2 || c < 3)").unwrap();
    let values = resolver_of(vec![
        ("a", Value::numeric(1)),
        ("b", Value::numeric(5)),
        ("c", Value::numeric(9)),
    ]);
    let first = solve_tree(&tree, &values).unwrap();
    let second = solve_tree(&tree, &values).unwrap();
    assert_eq!(first, second);
    assert_eq!(first, true);
}

#[test]
fn test_empty_input() {
    // an empty expression parses to an empty sequence, whose fold is the seed
    let empty = resolver_of(vec![]);
    assert_eq!(evaluate("", &empty).unwrap(), true);
}

#[test]
fn test_configured_depth() {
    let tree = parse_tree("((a == 1))").unwrap();
    let values = resolver_of(vec![("a", Value::numeric(1))]);
    assert_eq!(
        metrics_evaluation::solver::solve_tree_with_depth(&tree, &values, 2).unwrap(),
        true
    );
    let res = metrics_evaluation::solver::solve_tree_with_depth(&tree, &values, 1);
    assert!(matches!(res, Err(EvalError::DepthExceeded)));
}

#[test]
fn test_type_mismatch_error() {
    let values = resolver_of(vec![("a", Value::numeric(1))]);
    let res = evaluate(r#"a == "2h""#, &values);
    assert!(matches!(res, Err(EvalError::TypeMismatch(_, _, _))));
}

#[test]
fn test_incompatible_types_error() {
    let values = resolver_of(vec![("a", Value::Bool(true)), ("b", Value::Bool(false))]);
    let res = evaluate("a + b == 1", &values);
    assert!(matches!(res, Err(EvalError::IncompatibleTypes(_, _, _))));
}

#[test]
fn test_division_by_zero_error() {
    let values = resolver_of(vec![("a", Value::numeric(4))]);
    let res = evaluate("a / 0 == 1", &values);
    assert!(matches!(res, Err(EvalError::DivisionByZero)));
}

#[test]
fn test_depth_exceeded_error() {
    let mut text = String::new();
    for _ in 0..70 {
        text.push('(');
    }
    text.push_str("a == 1");
    for _ in 0..70 {
        text.push(')');
    }
    let tree = parse_tree(&text).unwrap();
    let values = resolver_of(vec![("a", Value::numeric(1))]);
    let res = solve_tree(&tree, &values);
    assert!(matches!(res, Err(EvalError::DepthExceeded)));
}

#[test]
fn test_duration_literal_value() {
    // fails if the duration reader handed the text back unchanged
    let values = resolver_of(vec![("d", Value::duration_from_secs(7200))]);
    assert_eq!(evaluate(r#"d == "2h""#, &values).unwrap(), true);
    assert_eq!(evaluate(r#"d == "1h""#, &values).unwrap(), false);
}

#[test]
fn test_time_literal_value() {
    // fails if the time reader handed the text back unchanged
    let values = resolver_of(vec![("t", Value::time_hms(1, 2, 3))]);
    assert_eq!(evaluate(r#"t == "01:02:03""#, &values).unwrap(), true);
    assert_eq!(evaluate(r#"t == "03:02:01""#, &values).unwrap(), false);
}

#[test]
fn test_string_number_rendering() {
    // a number appended to text renders after a space, fractions trimmed
    let values = resolver_of(vec![("a", Value::String("x".to_string()))]);
    assert_eq!(evaluate(r#"a + 1.5 == "x 1.5""#, &values).unwrap(), true);
    assert_eq!(evaluate(r#"a + 2 == "x 2""#, &values).unwrap(), true);
}

#[test]
fn test_string_concatenation() {
    let values = resolver_of(vec![("a", Value::String("ab".to_string()))]);
    assert_eq!(evaluate(r#"a + "cd" == "abcd""#, &values).unwrap(), true);
}

#[test]
fn test_time_wraps_around_midnight() {
    let values = resolver_of(vec![("t", Value::time_hms(23, 0, 0))]);
    assert_eq!(evaluate(r#"t + "2h" == "01:00:00""#, &values).unwrap(), true);
    let values = resolver_of(vec![("t", Value::time_hms(1, 0, 0))]);
    assert_eq!(evaluate(r#"t - "2h" == "23:00:00""#, &values).unwrap(), true);
}

#[test]
fn test_duration_scaling() {
    let values = resolver_of(vec![("d", Value::duration_from_secs(60))]);
    assert_eq!(evaluate(r#"d * 2 == "2min""#, &values).unwrap(), true);
    assert_eq!(evaluate(r#"d / 2 == "30sec""#, &values).unwrap(), true);
    // the multiplier rounds to the nearest whole number
    assert_eq!(evaluate(r#"d * 2.5 == "3min""#, &values).unwrap(), true);
}

#[test]
fn test_extreme_duration_literal_is_text() {
    // a quoted span within a factor of ten of the largest representable
    // seconds count is read as plain text, never as a duration
    let text = "18446744073709551615s 1000000000ns";
    let values = resolver_of(vec![("x", Value::String(text.to_string()))]);
    let query = format!("x == \"{}\"", text);
    assert_eq!(evaluate(&query, &values).unwrap(), true);
}

#[test]
fn test_logic_words_bind_whole_words() {
    // `or` and `and` count only at word boundaries
    let values = resolver_of(vec![
        ("orange", Value::numeric(1)),
        ("andy", Value::numeric(2)),
    ]);
    assert_eq!(evaluate("orange == 1 and andy == 2", &values).unwrap(), true);
    assert_eq!(evaluate("andy == 2 or orange == 2", &values).unwrap(), true);
}

#[test]
fn test_lax_policy_solve() {
    let values = resolver_of(vec![("a", Value::Bool(true))]);
    let strict = evaluate("a == 1", &values);
    assert!(matches!(strict, Err(EvalError::TypeMismatch(_, _, _))));
    assert_eq!(
        evaluate_with_policy("a == 1", &values, ComparisonPolicy::Lax).unwrap(),
        true
    );
    assert_eq!(
        evaluate_with_policy("a != 0", &values, ComparisonPolicy::Lax).unwrap(),
        true
    );
    // the lax policy still rejects truly incompatible pairs
    let r = evaluate_with_policy(r#"a == "2h""#, &values, ComparisonPolicy::Lax);
    assert!(matches!(r, Err(EvalError::TypeMismatch(_, _, _))));
}

#[test]
fn test_exponent_literals() {
    let values = resolver_of(vec![("a", Value::numeric(100_000))]);
    assert_eq!(evaluate("a == 1e5", &values).unwrap(), true);
    assert_eq!(evaluate("a == 1e4", &values).unwrap(), false);
    let values = resolver_of(vec![("a", Value::Numeric(2_500_000_000))]);
    assert_eq!(evaluate("a == 2.5e3", &values).unwrap(), true);
    assert_eq!(evaluate("a == 25E2", &values).unwrap(), true);
}
