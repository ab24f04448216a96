use metrics_evaluation::{evaluate, EvalError, MapResolver, Value};

fn resolver_of(pairs: Vec<(&str, Value)>) -> MapResolver {
    let mut entries: Vec<(String, Value)> = Vec::new();
    for (name, value) in pairs {
        entries.push((name.to_string(), value));
    }
    MapResolver::from(entries)
}

#[test]
fn test_solve_variable() -> Result<(), EvalError> {
    let values = resolver_of(vec![
        ("a", Value::numeric(1)),
        ("b", Value::numeric(2)),
        ("foo.bar", Value::numeric(3)),
        ("bar_baz", Value::numeric(4)),
    ]);

    assert_eq!(evaluate(r#"a == b - 1"#, &values)?, true);
    assert_eq!(evaluate(r#"b == a + a"#, &values)?, true);
    assert_eq!(evaluate(r#"a < b"#, &values)?, true);
    assert_eq!(evaluate(r#"a + 2 == b + 1"#, &values)?, true);
    assert_eq!(evaluate(r#"a >= b"#, &values)?, false);
    assert_eq!(evaluate(r#"b == a"#, &values)?, false);
    assert_eq!(evaluate(r#"b > a"#, &values)?, true);
    assert_eq!(evaluate(r#"foo.bar < bar_baz"#, &values)?, true);
    assert_eq!(evaluate(r#"bar_baz > b"#, &values)?, true);

    Ok(())
}

#[test]
fn test_solve_duration() -> Result<(), EvalError> {
    let values = resolver_of(vec![("a", Value::duration_from_secs(86400))]);

    assert_eq!(evaluate(r#"a < "1 d 1h""#, &values)?, true);
    assert_eq!(evaluate(r#"a > "2h 5min""#, &values)?, true);
    assert_eq!(evaluate(r#"a <= "5h 12min 42sec""#, &values)?, false);

    Ok(())
}

#[test]
fn test_complex() -> Result<(), EvalError> {
    // Assertion is: Window is open between 09:00 and 22:00 AND
    //   - the window is open for more than 10 minutes AND the room temperature has droppped below 20 degrees
    //   OR
    //   - the window is open for more than 30 minutes
    //   OR
    //   - the temperature has dropped below 10 degreesd
    const QUERY: &str = r#"window.contact.value == false && compute.time.now > "09:00:00" && compute.time.now < "22:00:00" &&
                    ((window.contact.since > "10min" && room.temperature.value < 20) || window.contact.since > "30min" || room.temperature.value < 10)"#;

    struct Test {
        pub description: &'static str,
        pub open: bool,
        pub open_since_minutes: u64,
        pub room_tempereature: i64,
        pub current_time: (u32, u32, u32),
        pub expected_to_trigger: bool,
    }

    let tests = [
        Test {
            description: "Inside timeframe: window open, but warm enough -> do not trigger",
            open: true,
            open_since_minutes: 10,
            room_tempereature: 21,
            current_time: (21, 1, 0),
            expected_to_trigger: false,
        },
        Test {
            description:
                "Inside timeframe: window open, warm enough, but open for too long -> trigger",
            open: true,
            open_since_minutes: 60,
            room_tempereature: 21,
            current_time: (21, 1, 0),
            expected_to_trigger: true,
        },
        Test {
            description: "Inside timeframe: window open, open short enough but too cold -> trigger",
            open: true,
            open_since_minutes: 10,
            room_tempereature: 9,
            current_time: (21, 1, 0),
            expected_to_trigger: true,
        },
        Test {
            description:
                "OUTSIDE timeframe: window open, open short enough but too cold -> do not trigger",
            open: true,
            open_since_minutes: 10,
            room_tempereature: 9,
            current_time: (23, 1, 0),
            expected_to_trigger: false,
        },
        Test {
            description:
                "OUTSIDE timeframe: window open, open too long and too cold -> do not trigger",
            open: true,
            open_since_minutes: 120,
            room_tempereature: 1,
            current_time: (1, 1, 0),
            expected_to_trigger: false,
        },
        Test {
            description:
                "INSIDE timeframe: window open, open too long and too cold -> trigger (same as last one but inside timeframe)",
            open: true,
            open_since_minutes: 120,
            room_tempereature: 1,
            current_time: (10, 1, 0),
            expected_to_trigger: true,
        },
        Test {
            description:
                "INSIDE timeframe: window CLOSED, open too long and too cold -> do not trigger",
            open: false,
            open_since_minutes: 120,
            room_tempereature: 1,
            current_time: (10, 1, 0),
            expected_to_trigger: false,
        },
        Test {
            description:
                "OUTSIDE timeframe: window open, open short enough and warm enough -> do not trigger",
            open: true,
            open_since_minutes: 10,
            room_tempereature: 30,
            current_time: (10, 1, 0),
            expected_to_trigger: false,
        },
    ];

    for test in tests {
        println!("Complex test: {}", test.description);
        let (hour, minute, second) = test.current_time;
        let values = resolver_of(vec![
            ("window.contact.value", Value::Bool(!test.open)),
            (
                "window.contact.since",
                Value::duration_from_secs(test.open_since_minutes * 60),
            ),
            ("room.temperature.value", Value::numeric(test.room_tempereature)),
            ("compute.time.now", Value::time_hms(hour, minute, second)),
        ]);

        assert_eq!(evaluate(QUERY, &values)?, test.expected_to_trigger);
    }

    Ok(())
}

#[test]
fn test_solve_time() -> Result<(), EvalError> {
    let values = resolver_of(vec![
        ("start", Value::time_hms(5, 0, 0)),
        ("now", Value::time_hms(15, 0, 0)),
        ("end", Value::time_hms(22, 0, 0)),
    ]);

    assert_eq!(evaluate(r#"start <= "15:00:00""#, &values)?, true);
    assert_eq!(evaluate(r#"end >= "15:00:00""#, &values)?, true);
    assert_eq!(evaluate(r#"now >= "22:00:00""#, &values)?, false);
    assert_eq!(evaluate(r#"now <= "05:00:00""#, &values)?, false);
    assert_eq!(evaluate(r#"now >= "22:00:00" || now <= "05:00:00""#, &values)?, false);
    assert_eq!(evaluate(r#"now >= start && now <= end"#, &values)?, true);

    Ok(())
}

#[test]
fn test_solve_numeric() -> Result<(), EvalError> {
    let values = resolver_of(vec![
        ("a", Value::numeric(1)),
        ("b", Value::numeric(2)),
        ("c", Value::numeric(3)),
        ("d", Value::numeric(4)),
    ]);

    assert_eq!(evaluate("a < 99", &values)?, true);
    assert_eq!(evaluate("a > 2", &values)?, false);
    assert_eq!(evaluate("b <= 2", &values)?, true);
    assert_eq!(evaluate("c >= 3", &values)?, true);
    assert_eq!(evaluate("a != 99 && (b == 2 || c == 99)", &values)?, true);
    assert_eq!(
        evaluate("a == 42 || ((b == 2 || b == 3) && (c == 3 || c == 4))", &values)?,
        true
    );
    assert_eq!(
        evaluate("a == 4711 || ((b == 42 || b == 2) && (c == 3 && c == 4))", &values)?,
        false
    );

    assert_eq!(evaluate("((a == 1) && (b == 2))", &values)?, true);
    assert_eq!(evaluate("((((a == 1))))", &values)?, true);
    assert_eq!(evaluate("((((a == 1)))) && b == 2", &values)?, true);
    assert_eq!(evaluate("(a == 1) && b == 3", &values)?, false);
    assert_eq!(evaluate("b == 2 && (a == 1)", &values)?, true);
    assert_eq!(evaluate("(b == 2) && (a == 1)", &values)?, true);

    Ok(())
}
