use metrics_evaluation::{Arithmetic, Calculateable, Compareable, EvalError, Operator, Value};

#[test]
fn test_numeric_arithmetic() {
    let r = Value::numeric(1).calculate(&Value::numeric(2), Arithmetic::Add).unwrap();
    assert_eq!(r, Value::numeric(3));
    let r = Value::numeric(4).calculate(&Value::numeric(3), Arithmetic::Sub).unwrap();
    assert_eq!(r, Value::numeric(1));
    let r = Value::numeric(4).calculate(&Value::numeric(2), Arithmetic::Mul).unwrap();
    assert_eq!(r, Value::numeric(8));
    let r = Value::numeric(4).calculate(&Value::numeric(2), Arithmetic::Div).unwrap();
    assert_eq!(r, Value::numeric(2));
    // fixed-point fractions stay exact here: 3 / 2 is one and a half
    let r = Value::numeric(3).calculate(&Value::numeric(2), Arithmetic::Div).unwrap();
    assert_eq!(r, Value::Numeric(1_500_000));
}

#[test]
fn test_duration_arithmetic() {
    let minute = Value::duration_from_secs(60);
    let r = minute.clone().calculate(&Value::duration_from_secs(30), Arithmetic::Add).unwrap();
    assert_eq!(r, Value::duration_from_secs(90));
    let r = minute.clone().calculate(&Value::duration_from_secs(15), Arithmetic::Sub).unwrap();
    assert_eq!(r, Value::duration_from_secs(45));
    // subtraction stops at zero instead of failing
    let r = minute.clone().calculate(&Value::duration_from_secs(90), Arithmetic::Sub).unwrap();
    assert_eq!(r, Value::duration_from_secs(0));
    let r = minute.calculate(&Value::numeric(3), Arithmetic::Mul).unwrap();
    assert_eq!(r, Value::duration_from_secs(180));
}

#[test]
fn test_time_arithmetic() {
    let r = Value::time_hms(23, 0, 0)
        .calculate(&Value::duration_from_secs(7200), Arithmetic::Add)
        .unwrap();
    assert_eq!(r, Value::time_hms(1, 0, 0));
    let r = Value::time_hms(0, 30, 0)
        .calculate(&Value::duration_from_secs(3600), Arithmetic::Sub)
        .unwrap();
    assert_eq!(r, Value::time_hms(23, 30, 0));
}

#[test]
fn test_incompatible_arithmetic() {
    let r = Value::Bool(true).calculate(&Value::numeric(1), Arithmetic::Add);
    assert!(matches!(r, Err(EvalError::IncompatibleTypes(_, _, _))));
    let r = Value::duration_from_secs(1).calculate(&Value::time_hms(1, 0, 0), Arithmetic::Add);
    assert!(matches!(r, Err(EvalError::IncompatibleTypes(_, _, _))));
}

#[test]
fn test_strict_comparison() {
    assert_eq!(
        Value::numeric(2).compare(&Value::numeric(2), Operator::Equal),
        Ok(true)
    );
    assert_eq!(
        Value::String("abc".to_string()).compare(&Value::String("abd".to_string()), Operator::Less),
        Ok(true)
    );
    assert_eq!(Value::Bool(false).compare(&Value::Bool(true), Operator::Less), Ok(true));
    // different kinds never compare under the strict policy
    let r = Value::numeric(1).compare(&Value::Bool(true), Operator::Equal);
    assert!(matches!(r, Err(EvalError::TypeMismatch(_, _, _))));
}

#[test]
fn test_lax_comparison() {
    let one = Value::numeric(1);
    let zero = Value::numeric(0);
    assert_eq!(one.compare_lax(&Value::Bool(true), Operator::Equal), Ok(true));
    assert_eq!(zero.compare_lax(&Value::Bool(false), Operator::Equal), Ok(true));
    assert_eq!(one.compare_lax(&Value::Bool(false), Operator::Equal), Ok(false));
    assert_eq!(
        Value::String("42".to_string()).compare_lax(&Value::numeric(42), Operator::Equal),
        Ok(true)
    );
    assert_eq!(
        Value::String("4.5".to_string()).compare_lax(&Value::Numeric(4_500_000), Operator::Equal),
        Ok(true)
    );
    assert_eq!(
        Value::String("foo".to_string()).compare_lax(&Value::numeric(123), Operator::Equal),
        Ok(false)
    );
    assert_eq!(
        Value::String("true".to_string()).compare_lax(&Value::Bool(true), Operator::Equal),
        Ok(true)
    );
    assert_eq!(
        Value::String("false".to_string()).compare_lax(&Value::Bool(true), Operator::NotEqual),
        Ok(true)
    );
    // truly incompatible pairs still fail, never a silent false
    let r = Value::String("1h".to_string())
        .compare_lax(&Value::duration_from_secs(3600), Operator::Equal);
    assert!(matches!(r, Err(EvalError::TypeMismatch(_, _, _))));
    // lax coercion does not extend to ordering operators
    let r = Value::numeric(1).compare_lax(&Value::Bool(false), Operator::Greater);
    assert!(matches!(r, Err(EvalError::TypeMismatch(_, _, _))));
}

#[test]
fn test_numeric_saturation() {
    let max = Value::Numeric(i64::MAX);
    let r = max.clone().calculate(&max, Arithmetic::Add).unwrap();
    assert_eq!(r, Value::Numeric(i64::MAX));
}
