use std::str::FromStr;
use xjasper::variables::{CalculationType, VariableCalculator, VariableError};

#[test]
fn test_sum() {
    let mut calc = VariableCalculator::new("total".to_string(), CalculationType::Sum);

    calc.update("100.50").unwrap();
    calc.update("200.75").unwrap();
    calc.update("150.25").unwrap();

    assert_eq!(calc.get_value(), "451.50");
}

#[test]
fn test_count() {
    let mut calc = VariableCalculator::new("count".to_string(), CalculationType::Count);

    calc.update("100").unwrap();
    calc.update("200").unwrap();

    assert_eq!(calc.get_value(), "2");
}

#[test]
fn test_average() {
    let mut calc = VariableCalculator::new("avg".to_string(), CalculationType::Average);

    calc.update("100").unwrap();
    calc.update("200").unwrap();
    calc.update("300").unwrap();

    assert_eq!(calc.get_value(), "200");
}

#[test]
fn sums_are_exact_decimals() {
    let mut calc = VariableCalculator::new("total".to_string(), CalculationType::Sum);
    calc.update("0.1").unwrap();
    calc.update("0.2").unwrap();
    assert_eq!(calc.get_value(), "0.3");

    let mut many = VariableCalculator::new("cents".to_string(), CalculationType::Sum);
    for _ in 0..1000 {
        many.update("0.01").unwrap();
    }
    assert_eq!(many.get_value(), "10.00");
}

#[test]
fn sum_keeps_the_larger_scale_and_signs() {
    let mut calc = VariableCalculator::new("total".to_string(), CalculationType::Sum);
    assert_eq!(calc.get_value(), "0");
    calc.update("1.5").unwrap();
    calc.update("-3.25").unwrap();
    assert_eq!(calc.get_value(), "-1.75");
    calc.update("2").unwrap();
    assert_eq!(calc.get_value(), "0.25");
}

#[test]
fn min_max_and_first() {
    let values = ["3.5", "-1", "10.25", "2"];
    let mut min = VariableCalculator::new("min".to_string(), CalculationType::Min);
    let mut max = VariableCalculator::new("max".to_string(), CalculationType::Max);
    let mut first = VariableCalculator::new("first".to_string(), CalculationType::First);
    for v in values {
        min.update(v).unwrap();
        max.update(v).unwrap();
        first.update(v).unwrap();
    }
    assert_eq!(min.get_value(), "-1");
    assert_eq!(max.get_value(), "10.25");
    assert_eq!(first.get_value(), "3.5");
}

#[test]
fn min_compares_numbers_not_texts() {
    let mut min = VariableCalculator::new("min".to_string(), CalculationType::Min);
    min.update("0.50").unwrap();
    min.update("0.5").unwrap();
    // equal numbers keep the first one
    assert_eq!(min.get_value(), "0.50");
    min.update("0.499").unwrap();
    assert_eq!(min.get_value(), "0.499");
}

#[test]
fn average_without_values_is_zero() {
    let calc = VariableCalculator::new("avg".to_string(), CalculationType::Average);
    assert_eq!(calc.get_value(), "0");
}

#[test]
fn average_rounds_by_decimal_division() {
    let mut calc = VariableCalculator::new("avg".to_string(), CalculationType::Average);
    calc.update("1").unwrap();
    calc.update("2").unwrap();
    assert_eq!(calc.get_value(), "1.50");
}

#[test]
fn count_ignores_the_values() {
    let mut calc = VariableCalculator::new("count".to_string(), CalculationType::Count);
    assert_eq!(calc.get_value(), "0");
    calc.update("-7.125").unwrap();
    assert_eq!(calc.get_value(), "1");
}

#[test]
fn invalid_decimal_is_an_error_and_changes_nothing() {
    let mut calc = VariableCalculator::new("total".to_string(), CalculationType::Sum);
    calc.update("5").unwrap();
    match calc.update("12x") {
        Err(VariableError::DecimalError(m)) => {
            let detail = rust_decimal::Decimal::from_str("12x").unwrap_err().to_string();
            assert_eq!(m, format!("12x: {}", detail));
            assert!(VariableError::DecimalError(m.clone()).message().starts_with("Invalid decimal value: 12x: "));
        }
        other => panic!("unexpected {:?}", other),
    }
    assert_eq!(calc.get_value(), "5");
    // a failed update is not counted either
    let mut count = VariableCalculator::new("count".to_string(), CalculationType::Count);
    assert!(count.update("abc").is_err());
    assert_eq!(count.get_value(), "0");
}

#[test]
fn reset_returns_to_a_fresh_variable() {
    let mut calc = VariableCalculator::new("avg".to_string(), CalculationType::Average);
    calc.update("10").unwrap();
    calc.update("20").unwrap();
    calc.reset();
    assert_eq!(calc.get_value(), "0");
    calc.update("4").unwrap();
    assert_eq!(calc.get_value(), "4");
    assert_eq!(calc.name(), "avg");
}

#[test]
fn overflowing_sum_is_refused_by_try_update() {
    let mut calc = VariableCalculator::new("total".to_string(), CalculationType::Sum);
    let max = "79228162514264337593543950335";
    assert_eq!(calc.try_update(max).unwrap().unwrap(), ());
    assert!(calc.try_update(max).is_none());
    assert_eq!(calc.get_value(), max);
    assert!(calc.try_update("1.5e").unwrap().is_err());
}

#[test]
fn calculation_names() {
    assert_eq!(CalculationType::from_str("Sum").unwrap(), CalculationType::Sum);
    assert_eq!(CalculationType::from_str("Count").unwrap(), CalculationType::Count);
    assert_eq!(CalculationType::from_str("Average").unwrap(), CalculationType::Average);
    assert_eq!(CalculationType::from_str("Min").unwrap(), CalculationType::Min);
    assert_eq!(CalculationType::from_str("Max").unwrap(), CalculationType::Max);
    assert_eq!(CalculationType::from_str("First").unwrap(), CalculationType::First);
    match CalculationType::parse("sum") {
        Err(VariableError::Other(m)) => assert_eq!(m, "Unknown calculation type: sum"),
        other => panic!("unexpected {:?}", other),
    }
    assert_eq!(
        VariableError::Other("x".to_string()).message(),
        "Variable error: x"
    );
}

#[test]
fn sum_may_reach_the_largest_decimal() {
    let mut calc = VariableCalculator::new("total".to_string(), CalculationType::Sum);
    calc.update("79228162514264337593543950334").unwrap();
    assert_eq!(calc.try_update("1").unwrap().unwrap(), ());
    assert_eq!(calc.get_value(), "79228162514264337593543950335");
    let mut low = VariableCalculator::new("low".to_string(), CalculationType::Sum);
    low.update("-79228162514264337593543950334").unwrap();
    low.update("-1").unwrap();
    assert_eq!(low.get_value(), "-79228162514264337593543950335");
}
