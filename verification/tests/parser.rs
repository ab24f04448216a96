use metrics_evaluation::{
    match_block, match_comparisons, parse_tree, Arithmetic, Calculation, Comparison,
    ComparisonType, Logic, Operator, Value,
};

#[test]
fn test_match_block_nesting() {
    let (block, rest, logic) = match_block(
        "(hey > 2 and (foo < 1) or ((bar == 2 and foo == 3) or (baz != 42)) or bam == 99)",
    )
    .unwrap();
    assert_eq!(
        block,
        "hey > 2 and (foo < 1) or ((bar == 2 and foo == 3) or (baz != 42)) or bam == 99"
    );
    assert_eq!(rest, "");
    assert_eq!(logic, None);

    let (block, rest, logic) =
        match_block("and (foo < 1) or ((bar == 2 and foo == 3) or (baz != 42)) or bam == 99")
            .unwrap();
    assert_eq!(block, "foo < 1");
    assert_eq!(logic, Some(Logic::And));
    assert_eq!(rest, " or ((bar == 2 and foo == 3) or (baz != 42)) or bam == 99");

    let (block, rest, logic) = match_block(rest).unwrap();
    assert_eq!(block, "(bar == 2 and foo == 3) or (baz != 42)");
    assert_eq!(logic, Some(Logic::Or));
    assert_eq!(rest, " or bam == 99");

    let (block, rest, logic) = match_block(block).unwrap();
    assert_eq!(block, "bar == 2 and foo == 3");
    assert_eq!(logic, None);
    assert_eq!(rest, " or (baz != 42)");
}

#[test]
fn test_match_block_whitespace() {
    let (block, rest, logic) = match_block("(hello > 1 && (foo == 2 || foo == 3) )").unwrap();
    assert_eq!(block, "hello > 1 && (foo == 2 || foo == 3) ");
    assert_eq!(logic, None);
    assert_eq!(rest, "");

    let (block, _, logic) = match_block("&& (foo == 2 || foo == 3) ").unwrap();
    assert_eq!(block, "foo == 2 || foo == 3");
    assert_eq!(logic, Some(Logic::And));
}

#[test]
fn test_match_comparisons_chain() {
    let (cmp, _, logic) = match_comparisons("hello > 1 + 2 - foo").unwrap();
    let expected = Comparison {
        what: ComparisonType::Variable("hello".to_string(), vec![]),
        operator: Operator::Greater,
        against: ComparisonType::Value(
            Value::numeric(1),
            vec![
                Calculation::Value(Value::numeric(2), Arithmetic::Add),
                Calculation::Variable("foo".to_string(), Arithmetic::Sub),
            ],
        ),
    };
    assert_eq!(cmp, expected);
    assert_eq!(logic, None);
}

#[test]
fn test_match_comparisons_sequence() {
    let (cmp, rest, logic) = match_comparisons("hello > 1 and foo < 2").unwrap();
    assert_eq!(
        cmp,
        Comparison {
            what: ComparisonType::Variable("hello".to_string(), vec![]),
            operator: Operator::Greater,
            against: ComparisonType::Value(Value::numeric(1), vec![]),
        }
    );
    assert_eq!(rest, " and foo < 2");
    assert_eq!(logic, None);

    let (cmp, _, logic) = match_comparisons(rest).unwrap();
    assert_eq!(
        cmp,
        Comparison {
            what: ComparisonType::Variable("foo".to_string(), vec![]),
            operator: Operator::Less,
            against: ComparisonType::Value(Value::numeric(2), vec![]),
        }
    );
    assert_eq!(logic, Some(Logic::And));
}

#[test]
fn test_match_comparisons_string_literal() {
    let (cmp, _, logic) = match_comparisons(r#"foo == "bar""#).unwrap();
    assert_eq!(
        cmp,
        Comparison {
            what: ComparisonType::Variable("foo".to_string(), vec![]),
            operator: Operator::Equal,
            against: ComparisonType::Value(Value::String("bar".to_string()), vec![]),
        }
    );
    assert_eq!(logic, None);
}

#[test]
fn test_match_comparisons_variables() {
    let (cmp, rest, logic) = match_comparisons("hello > foo or bar == foo").unwrap();
    assert_eq!(
        cmp,
        Comparison {
            what: ComparisonType::Variable("hello".to_string(), vec![]),
            operator: Operator::Greater,
            against: ComparisonType::Variable("foo".to_string(), vec![]),
        }
    );
    assert_eq!(rest, " or bar == foo");
    assert_eq!(logic, None);

    let (cmp, _, logic) = match_comparisons(rest).unwrap();
    assert_eq!(
        cmp,
        Comparison {
            what: ComparisonType::Variable("bar".to_string(), vec![]),
            operator: Operator::Equal,
            against: ComparisonType::Variable("foo".to_string(), vec![]),
        }
    );
    assert_eq!(logic, Some(Logic::Or));
}

#[test]
fn test_parse_tree_whitespace() {
    assert!(parse_tree("hello > 1 && ( foo == 2 || foo == 3)").is_ok());
    assert!(parse_tree("hello > 1 && (foo == 2 || foo == 3 )").is_ok());
    assert!(parse_tree("hello > 1 && (foo == 2 || foo == 3 ) ").is_ok());
}

#[test]
fn test_parse_unbalanced_group() {
    assert!(parse_tree("(a == 1").is_err());
    assert!(parse_tree("a == 1)").is_err());
}

#[test]
fn test_parse_literal_kinds() {
    let tree = parse_tree(r#"a == true && b == 4.5 && c == "plain text""#).unwrap();
    assert_eq!(tree.items.len(), 3);
    let tree = parse_tree("a == false").unwrap();
    assert_eq!(tree.items.len(), 1);
}
