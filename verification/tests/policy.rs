use deckr_mirabox_manager::policy::{
    eval_ast, eval_expression, is_whole_match, parse_expression, CompareOp, Expr, PolicyError, Value,
};
use deckr_mirabox_manager::text_map::TextMap;

fn context(entries: Vec<(&str, Value)>) -> TextMap<Value> {
    let mut names = TextMap::new();
    for (name, value) in entries {
        names.insert(name.to_string(), value);
    }
    names
}

#[test]
fn parses_current_layout_candidate_expression() {
    parse_expression("usage_page == 65440 or (vendor_id == 2816 and product_id == 4097)")
        .expect("candidate should parse");
}

#[test]
fn evaluates_search_and_missing_usage_page() {
    let context = context(vec![
        ("vendor_id", Value::Int(2816)),
        ("product_id", Value::Int(4097)),
    ]);
    let matched = eval_expression(
        "usage_page == 65440 or (vendor_id == 2816 and product_id == 4097)",
        &context,
    )
    .expect("expression should evaluate");
    assert!(matched);
}

#[test]
fn evaluates_match_expression() {
    let context = context(vec![(
        "firmware",
        Value::Str("V25.MSD_TWO.01.005".to_string()),
    )]);
    let matched = eval_expression("search(\"V25\\\\.MSD_TWO|MSD_TWO\", firmware)", &context)
        .expect("expression should evaluate");
    assert!(matched);
}

#[test]
fn and_binds_tighter_than_or() {
    let expr = parse_expression("a or b and c == 1").expect("expression should parse");
    match expr {
        Expr::Or(left, right) => {
            assert!(matches!(*left, Expr::Identifier(ref name) if name == "a"));
            match *right {
                Expr::And(left, right) => {
                    assert!(matches!(*left, Expr::Identifier(ref name) if name == "b"));
                    assert!(matches!(
                        *right,
                        Expr::Compare {
                            op: CompareOp::Eq,
                            ..
                        }
                    ));
                }
                other => panic!("unexpected right side {other:?}"),
            }
        }
        other => panic!("unexpected expression {other:?}"),
    }
}

#[test]
fn operators_of_one_kind_group_to_the_left() {
    match parse_expression("a or b or c").expect("expression should parse") {
        Expr::Or(left, right) => {
            assert!(matches!(*left, Expr::Or(_, _)));
            assert!(matches!(*right, Expr::Identifier(ref name) if name == "c"));
        }
        other => panic!("unexpected expression {other:?}"),
    }
}

#[test]
fn expressions_that_cannot_be_read_are_refused() {
    let cases = vec![
        ("a = 1", PolicyError::ExpectedEq),
        ("a ! 1", PolicyError::ExpectedNe),
        ("\"ends in \\", PolicyError::UnterminatedEscape),
        ("a == 1-2", PolicyError::InvalidNumber),
        ("a == 9223372036854775808", PolicyError::InvalidNumber),
        ("a # b", PolicyError::UnexpectedCharacter('#')),
        ("== 1", PolicyError::UnexpectedToken),
        ("a ==", PolicyError::UnexpectedEnd),
        ("", PolicyError::UnexpectedEnd),
        ("(a == 1", PolicyError::ExpectedCloseParen),
        ("search(\"x\" firmware)", PolicyError::ExpectedComma),
        ("a b", PolicyError::TrailingTokens),
    ];
    for (input, error) in cases {
        assert_eq!(parse_expression(input).err(), Some(error), "{}", input);
    }
}

#[test]
fn values_that_do_not_fit_are_refused() {
    let names = context(vec![
        ("flag", Value::Bool(true)),
        ("number", Value::Int(1)),
        ("text", Value::Str("x".to_string())),
    ]);
    let cases = vec![
        ("number", PolicyError::ExpectedBoolean),
        ("number and flag", PolicyError::ExpectedBoolean),
        ("search(\"(\", text)", PolicyError::InvalidPattern),
        ("search(text)", PolicyError::UnsupportedCall),
        ("find(\"x\", text)", PolicyError::UnsupportedCall),
        ("flag < flag", PolicyError::UnsupportedBooleanComparison),
        ("number == text", PolicyError::UnsupportedComparison),
    ];
    for (input, error) in cases {
        assert_eq!(eval_expression(input, &names), Err(error), "{}", input);
    }
}

#[test]
fn comparisons_of_numbers_and_texts() {
    let names = context(vec![]);
    let yes = vec![
        "1 == 1", "1 != 2", "1 < 2", "2 > 1", "1 <= 1", "1 >= 1", "-2 < -1",
        "\"a\" < \"b\"", "\"a\" < \"aa\"", "\"b\" > \"aa\"", "\"a\" <= \"a\"", "\"a\" != \"b\"",
    ];
    for input in yes {
        assert_eq!(eval_expression(input, &names), Ok(true), "{}", input);
    }
    let no = vec!["1 == 2", "1 != 1", "2 < 1", "1 > 2", "\"b\" < \"a\"", "\"aa\" < \"a\""];
    for input in no {
        assert_eq!(eval_expression(input, &names), Ok(false), "{}", input);
    }
}

#[test]
fn a_missing_name_differs_from_every_value() {
    let names = context(vec![]);
    assert_eq!(eval_expression("usage_page != 65440", &names), Ok(true));
    for op in ["==", "<", "<=", ">", ">="] {
        let input = format!("usage_page {op} 65440");
        assert_eq!(eval_expression(&input, &names), Ok(false));
    }
    assert_eq!(eval_expression("usage_page == usage", &names), Ok(true));
}

#[test]
fn the_first_operand_can_decide() {
    let names = context(vec![
        ("yes", Value::Bool(true)),
        ("no", Value::Bool(false)),
    ]);
    assert_eq!(eval_expression("yes or 1", &names), Ok(true));
    assert_eq!(eval_expression("no and 1", &names), Ok(false));
    assert_eq!(
        eval_expression("no or 1", &names),
        Err(PolicyError::ExpectedBoolean)
    );
}

#[test]
fn match_takes_the_whole_text_and_search_a_part() {
    let names = context(vec![("firmware", Value::Str("V25.X".to_string()))]);
    assert_eq!(eval_expression("match(\"V25\", firmware)", &names), Ok(false));
    assert_eq!(eval_expression("match(\"V25.*\", firmware)", &names), Ok(true));
    assert_eq!(eval_expression("search(\"25\", firmware)", &names), Ok(true));
    assert_eq!(eval_expression("search(\"26\", firmware)", &names), Ok(false));
    assert!(is_whole_match(&Some("ab".to_string()), "ab"));
    assert!(!is_whole_match(&Some("a".to_string()), "ab"));
    assert!(!is_whole_match(&None, ""));
}

#[test]
fn patterns_are_held_to_the_text_of_any_value() {
    let names = context(vec![
        ("number", Value::Int(-12)),
        ("flag", Value::Bool(true)),
    ]);
    assert_eq!(eval_expression("match(\"-12\", number)", &names), Ok(true));
    assert_eq!(eval_expression("match(\"true\", flag)", &names), Ok(true));
    assert_eq!(eval_expression("match(\"\", nothing)", &names), Ok(true));
}

#[test]
fn expressions_have_values() {
    let expr = parse_expression("\"a\\\"b\"").expect("expression should parse");
    match eval_ast(&expr, &context(vec![])).expect("expression should evaluate") {
        Value::Str(text) => assert_eq!(text, "a\"b"),
        other => panic!("unexpected value {other:?}"),
    }
}

#[test]
fn parentheses_and_blanks_around_do_not_count() {
    for input in [
        "1",
        "a",
        "a or b and c",
        "vendor_id == -2816",
        "search(\"a)\", b)",
        "x >= \"(\\\"\"",
        "f()",
    ] {
        let plain = format!("{:?}", parse_expression(input).unwrap());
        for around in [
            format!("({})", input),
            format!("(({}))", input),
            format!(" \t\r\n{}\n ", input),
            format!(" ( {}\t) ", input),
        ] {
            assert_eq!(format!("{:?}", parse_expression(&around).unwrap()), plain);
        }
    }
    for input in ["", "a b", "--", "a =", "(a"] {
        let around = format!("\n {} \t", input);
        assert_eq!(
            format!("{:?}", parse_expression(&around)),
            format!("{:?}", parse_expression(input))
        );
    }
}

#[test]
fn a_literal_without_its_quote_takes_what_follows() {
    assert!(matches!(
        parse_expression("\"open").unwrap(),
        Expr::Value(Value::Str(text)) if text == "open"
    ));
    assert!(matches!(
        parse_expression("\"open ").unwrap(),
        Expr::Value(Value::Str(text)) if text == "open "
    ));
    assert!(parse_expression("(\"open)").is_err());
}

#[test]
fn comparisons_can_be_turned_round() {
    let names = context(vec![("yes", Value::Bool(true)), ("no", Value::Bool(false))]);
    let turned = [("==", "=="), ("!=", "!="), (">", "<"), (">=", "<="), ("<", ">"), ("<=", ">=")];
    let values = ["1", "2", "\"a\"", "\"b\"", "yes", "no", "missing"];
    for left in values {
        for right in values {
            for (op, other) in turned {
                assert_eq!(
                    eval_expression(&format!("{} {} {}", left, op, right), &names),
                    eval_expression(&format!("{} {} {}", right, other, left), &names),
                    "{} {} {}",
                    left,
                    op,
                    right
                );
            }
            let equal = eval_expression(&format!("{} == {}", left, right), &names);
            let differ = eval_expression(&format!("{} != {}", left, right), &names);
            assert_eq!(differ, equal.map(|equal| !equal));
        }
    }
}
