use rpn_calc::{InputError, RpnCalculator};

#[test]
fn test_ok() {
    let calc = RpnCalculator::new(false);
    assert_eq!(calc.eval("5").unwrap(), 5);
    assert_eq!(calc.eval("-5").unwrap(), -5);

    assert_eq!(calc.eval("2 3 +").unwrap(), 5);
    assert_eq!(calc.eval("2 3 -").unwrap(), -1);
    assert_eq!(calc.eval("2 3 *").unwrap(), 6);
    assert_eq!(calc.eval("4 2 /").unwrap(), 2);
}

#[test]
fn empty_line_is_a_syntax_error() {
    let calc = RpnCalculator::new(false);
    match calc.eval("") {
        Err(InputError::SyntaxError(m)) => assert_eq!(m, "Value remains on the stack"),
        other => panic!("unexpected result: {:?}", other),
    }
}

#[test]
fn leftover_operand_is_a_syntax_error() {
    let calc = RpnCalculator::new(false);
    match calc.eval("2 3 4 +") {
        Err(InputError::SyntaxError(m)) => assert_eq!(m, "Value remains on the stack"),
        other => panic!("unexpected result: {:?}", other),
    }
}

#[test]
fn unknown_operator_names_the_token() {
    let calc = RpnCalculator::new(false);
    match calc.eval("2 &") {
        Err(InputError::UnknownOperator(t)) => {
            assert_eq!(t, "&");
        }
        other => panic!("unexpected result: {:?}", other),
    }
    match calc.eval("2 3 foo") {
        Err(InputError::UnknownOperator(t)) => assert_eq!(t, "foo"),
        other => panic!("unexpected result: {:?}", other),
    }
}

#[test]
fn operator_without_operands_is_a_syntax_error() {
    let calc = RpnCalculator::new(false);
    match calc.eval("+") {
        Err(InputError::SyntaxError(m)) => assert_eq!(m, "Cannot fetch next number"),
        other => panic!("unexpected result: {:?}", other),
    }
    match calc.eval("1 +") {
        Err(InputError::SyntaxError(m)) => assert_eq!(m, "Cannot fetch next number"),
        other => panic!("unexpected result: {:?}", other),
    }
}

#[test]
fn division_by_zero_is_its_own_error() {
    let calc = RpnCalculator::new(false);
    assert!(matches!(calc.eval("1 0 /"), Err(InputError::DivisionByZero)));
}

#[test]
fn division_truncates_toward_zero() {
    let calc = RpnCalculator::new(false);
    assert_eq!(calc.eval("7 2 /").unwrap(), 3);
    assert_eq!(calc.eval("-7 2 /").unwrap(), -3);
    assert_eq!(calc.eval("7 -2 /").unwrap(), -3);
    assert_eq!(calc.eval("-7 -2 /").unwrap(), 3);
}

#[test]
fn overflow_is_its_own_error() {
    let calc = RpnCalculator::new(false);
    assert!(matches!(calc.eval("2147483647 1 +"), Err(InputError::Overflow)));
    assert!(matches!(calc.eval("-2147483648 1 -"), Err(InputError::Overflow)));
    assert!(matches!(calc.eval("65536 65536 *"), Err(InputError::Overflow)));
    assert!(matches!(calc.eval("-2147483648 -1 *"), Err(InputError::Overflow)));
    assert!(matches!(calc.eval("-2147483648 -1 /"), Err(InputError::Overflow)));
}

#[test]
fn results_at_the_i32_bounds_are_exact() {
    let calc = RpnCalculator::new(false);
    assert_eq!(calc.eval("2147483646 1 +").unwrap(), i32::MAX);
    assert_eq!(calc.eval("-2147483647 1 -").unwrap(), i32::MIN);
    assert_eq!(calc.eval("-2147483648 1 /").unwrap(), i32::MIN);
    assert_eq!(calc.eval("-2147483648 2 /").unwrap(), -1073741824);
}

#[test]
fn longer_expressions_use_the_stack() {
    let calc = RpnCalculator::new(false);
    assert_eq!(calc.eval("1 2 + 3 4 + *").unwrap(), 21);
    assert_eq!(calc.eval("10 2 8 * + 3 -").unwrap(), 23);
}

#[test]
fn extra_whitespace_between_tokens_is_ignored() {
    let calc = RpnCalculator::new(false);
    assert_eq!(calc.eval("  2\t3   +  ").unwrap(), 5);
}

#[test]
fn unparsable_number_is_an_unknown_operator() {
    let calc = RpnCalculator::new(false);
    assert!(matches!(
        calc.eval("2147483648"),
        Err(InputError::UnknownOperator(t)) if t == "2147483648"
    ));
    assert!(matches!(
        calc.eval("3.5"),
        Err(InputError::UnknownOperator(t)) if t == "3.5"
    ));
}

#[test]
fn verbose_mode_reports_the_same_results() {
    let calc = RpnCalculator::new(true);
    assert_eq!(calc.eval("2 3 +").unwrap(), 5);
    assert!(matches!(calc.eval("+"), Err(InputError::SyntaxError(_))));
}

#[test]
fn error_messages() {
    let calc = RpnCalculator::new(false);
    let e = calc.eval("2 &").unwrap_err();
    assert_eq!(e.message(), "Unknown operator: &");
    let e = calc.eval("+").unwrap_err();
    assert_eq!(e.message(), "Invalid syntax: Cannot fetch next number");
    let e = calc.eval("1 2 3").unwrap_err();
    assert_eq!(e.message(), "Invalid syntax: Value remains on the stack");
    let e = calc.eval("1 0 /").unwrap_err();
    assert_eq!(e.message(), "Division by zero");
    let e = calc.eval("2000000000 2000000000 +").unwrap_err();
    assert_eq!(e.message(), "Arithmetic overflow");
}
