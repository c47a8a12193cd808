use deltactl::{column_name, filter_condition, filter_field, filter_operator, FilterError};

#[test]
fn test_column_name() {
    let (_, got) = column_name("my_column").unwrap();
    assert_eq!(got, "my_column");
}

#[test]
fn test_operator_isolated() {
    let operators = ["=", "!=", ">=", ">", "<=", "<", "in", "not in"];
    for op in operators {
        let (_, got) = filter_operator(op).unwrap();
        assert_eq!(got, op);
    }
}

#[test]
fn test_operator_spaced() {
    let ops_isolated = ["=", "!=", ">=", ">", "<=", "<", "in", "not in"];
    let ops_input = [" =", "!=  ", " >= ", " >", "<=  ", "<", " in ", " not in "];
    for (i, op) in ops_input.into_iter().enumerate() {
        let (_, got) = filter_operator(op).unwrap();
        assert_eq!(got, ops_isolated[i]);
    }
}

#[test]
fn test_filter_field_isolated() {
    let fields = ["1.42", "123", "'some_string'", "'2024-02-21'"];
    for field in fields {
        let (_, got) = filter_field(field).unwrap();
        assert_eq!(got, field);
    }
}

#[test]
fn test_filter_condition() {
    let inputs = ["id > 200"];
    let expected = [("id", ">", "200")];
    for (i, input) in inputs.into_iter().enumerate() {
        let got = filter_condition(input).unwrap();
        assert_eq!(got, expected[i]);
    }
}

fn invalid(input: &str) -> Result<(&str, &str, &str), FilterError> {
    Err(FilterError::InvalidFilterSyntax(input.to_string()))
}

#[test]
fn condition_greater_equal() {
    assert_eq!(filter_condition("id >= 200"), Ok(("id", ">=", "200")));
}

#[test]
fn condition_irregular_spacing() {
    assert_eq!(filter_condition(" id  >   200"), Ok(("id", ">", "200")));
}

#[test]
fn condition_missing_literal() {
    assert_eq!(filter_condition("status in"), invalid("status in"));
}

#[test]
fn condition_column_starting_with_digit() {
    assert_eq!(filter_condition("1col > 5"), invalid("1col > 5"));
}

#[test]
fn condition_float_literal() {
    assert_eq!(filter_condition("price <= 19.99"), Ok(("price", "<=", "19.99")));
}

#[test]
fn condition_without_spaces() {
    assert_eq!(filter_condition("id>200"), Ok(("id", ">", "200")));
    assert_eq!(filter_condition("a!='x-y.z'"), Ok(("a", "!=", "'x-y.z'")));
}

#[test]
fn condition_tabs_are_spaces() {
    assert_eq!(filter_condition("\tid\t=\t7"), Ok(("id", "=", "7")));
}

#[test]
fn condition_each_operator() {
    let ops = ["=", "!=", ">=", ">", "<=", "<", "in", "not in", "IN", "Not In"];
    for op in ops {
        let input = format!("col {} 1", op);
        assert_eq!(filter_condition(&input), Ok(("col", op, "1")));
    }
}

#[test]
fn condition_rejects_other_operators() {
    for input in ["a == 1", "a <> 1", "a ~ 1", "a like 'x'", "a =< 1", "a ! 1", "a not  in 1", "a 1"] {
        assert_eq!(filter_condition(input), invalid(input));
    }
}

#[test]
fn condition_keyword_needs_space_after_column() {
    assert_eq!(filter_condition("ain 5"), invalid("ain 5"));
    assert_eq!(filter_condition("a in 5"), Ok(("a", "in", "5")));
    assert_eq!(filter_condition("a in5"), Ok(("a", "in", "5")));
}

#[test]
fn condition_quoted_literal_keeps_quotes() {
    assert_eq!(
        filter_condition("region = 'us-east'"),
        Ok(("region", "=", "'us-east'"))
    );
    assert_eq!(filter_condition("d = '2024-02-21'"), Ok(("d", "=", "'2024-02-21'")));
}

#[test]
fn condition_rejects_bad_quoted_literals() {
    for input in ["a = ''", "a = 'x", "a = 'x y'", "a = 'é'", "a = x"] {
        assert_eq!(filter_condition(input), invalid(input));
    }
}

#[test]
fn condition_trailing_text_is_ignored() {
    assert_eq!(filter_condition("id > 200 and more"), Ok(("id", ">", "200")));
    assert_eq!(filter_condition("id > 200é"), Ok(("id", ">", "200")));
    assert_eq!(filter_condition("x = 'a'b"), Ok(("x", "=", "'a'")));
}

#[test]
fn condition_number_shapes() {
    let cases = [
        ("x = 1.", "1."),
        ("x = .5", ".5"),
        ("x = -5", "-5"),
        ("x = +.5e-3", "+.5e-3"),
        ("x = 12E+7", "12E+7"),
        ("x = 1.5.5", "1.5"),
        ("x = 007", "007"),
    ];
    for (input, lit) in cases {
        assert_eq!(filter_condition(input), Ok(("x", "=", lit)));
    }
}

#[test]
fn condition_exponent_without_digits_fails() {
    for input in ["x = 1e", "x = 5east", "x = 2E+", "x = -", "x = .", "x = +x"] {
        assert_eq!(filter_condition(input), invalid(input));
    }
}

#[test]
fn condition_empty_and_blank_input() {
    assert_eq!(filter_condition(""), invalid(""));
    assert_eq!(filter_condition("   "), invalid("   "));
}

#[test]
fn condition_underscore_column() {
    assert_eq!(filter_condition("_c9 < 3"), Ok(("_c9", "<", "3")));
}

#[test]
fn condition_non_ascii_column_fails() {
    assert_eq!(filter_condition("é = 1"), invalid("é = 1"));
}

#[test]
fn float_literal_is_not_cut_at_the_dot() {
    assert_eq!(filter_field("1.42"), Some(("", "1.42")));
    assert_eq!(filter_field("1.42 rest"), Some((" rest", "1.42")));
}

#[test]
fn reformatted_condition_reads_the_same() {
    for input in ["id>200", " price\t<=19.99", "a NOT IN'b'", "z in -1e5 tail"] {
        let (c, o, l) = filter_condition(input).unwrap();
        let again = format!("{} {} {}", c, o, l);
        assert_eq!(filter_condition(&again), Ok((c, o, l)));
    }
}

#[test]
fn error_message_repeats_input() {
    let err = filter_condition("status in").unwrap_err();
    assert_eq!(err.message(), "invalid partition filter: status in");
}

#[test]
fn sub_matchers_return_rest() {
    assert_eq!(column_name("ab1_ c"), Some((" c", "ab1_")));
    assert_eq!(column_name(" ab"), None);
    assert_eq!(filter_operator("  >=  5"), Some(("5", ">=")));
    assert_eq!(filter_operator("x"), None);
    assert_eq!(filter_field("'a_b' x"), Some((" x", "'a_b'")));
    assert_eq!(filter_field(" 1"), None);
    assert_eq!(filter_field("1e"), None);
}
