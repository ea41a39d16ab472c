use xjasper::expression::{parse_expression, Expression, ExpressionError};

#[test]
fn test_parse_field_ref() {
    let expr = "$F{customerName}";
    let result = parse_expression(expr).unwrap();
    assert_eq!(result, Expression::FieldRef("customerName".to_string()));
}

#[test]
fn test_parse_variable_ref() {
    let expr = "$V{total}";
    let result = parse_expression(expr).unwrap();
    assert_eq!(result, Expression::VariableRef("total".to_string()));
}

#[test]
fn test_parse_literal() {
    let expr = "Hello World";
    let result = parse_expression(expr).unwrap();
    assert_eq!(result, Expression::Literal("Hello World".to_string()));
}

#[test]
fn surrounding_white_space_is_ignored() {
    let spaced = parse_expression(" \t$F{amount}\n ").unwrap();
    let plain = parse_expression("$F{amount}").unwrap();
    assert_eq!(spaced, plain);
    assert_eq!(spaced, Expression::FieldRef("amount".to_string()));
    assert_eq!(
        parse_expression("  Total:  ").unwrap(),
        Expression::Literal("Total:".to_string())
    );
    // U+3000 IDEOGRAPHIC SPACE carries the White_Space property too.
    assert_eq!(
        parse_expression("\u{3000}$V{sum}\u{3000}").unwrap(),
        Expression::VariableRef("sum".to_string())
    );
}

#[test]
fn empty_reference_names_are_kept() {
    assert_eq!(parse_expression("$F{}").unwrap(), Expression::FieldRef(String::new()));
    assert_eq!(parse_expression("$V{}").unwrap(), Expression::VariableRef(String::new()));
}

#[test]
fn incomplete_references_are_literals() {
    assert_eq!(parse_expression("$F{name").unwrap(), Expression::Literal("$F{name".to_string()));
    assert_eq!(parse_expression("$F}").unwrap(), Expression::Literal("$F}".to_string()));
    assert_eq!(parse_expression("$X{name}").unwrap(), Expression::Literal("$X{name}".to_string()));
    assert_eq!(parse_expression("F{name}").unwrap(), Expression::Literal("F{name}".to_string()));
    assert_eq!(parse_expression("").unwrap(), Expression::Literal(String::new()));
}

#[test]
fn names_may_hold_any_characters() {
    assert_eq!(
        parse_expression("$F{客户 名}").unwrap(),
        Expression::FieldRef("客户 名".to_string())
    );
    assert_eq!(
        parse_expression("$F{a}b}").unwrap(),
        Expression::FieldRef("a}b".to_string())
    );
}

#[test]
fn syntax_error_message() {
    let e = ExpressionError::SyntaxError("bad".to_string());
    assert_eq!(e.message(), "Invalid expression syntax: bad");
}
