use calc_core::calculator;
use calc_core::error::AppError;
use calc_core::evaluator::evaluate;

// Identity on single numbers.
#[test]
fn single_number_round_trips() {
    for s in ["0", "7", "100", "2.143", "0.007", "100.00", "-3.343", "123456789"] {
        assert_eq!(evaluate(s).unwrap(), Some(s.to_string()));
    }
}

// One operator applied to two operands.
#[test]
fn binary_operations_compute() {
    assert_eq!(evaluate("102-2000").unwrap(), Some("-1898".to_string()));
    assert_eq!(evaluate("2000*1000").unwrap(), Some("2000000".to_string()));
    assert_eq!(evaluate("4000\u{d7}2000").unwrap(), Some("8000000".to_string()));
    assert_eq!(evaluate("1.5+2.25").unwrap(), Some("3.75".to_string()));
    assert_eq!(evaluate("0.3-0.1").unwrap(), Some("0.2".to_string()));
    assert_eq!(evaluate("1.5*1.5").unwrap(), Some("2.25".to_string()));
}

// Precedence: multiplication binds before addition.
#[test]
fn multiplication_binds_before_addition() {
    assert_eq!(evaluate("100+200*500").unwrap(), Some("100100".to_string()));
}

// Mixed-precedence chains resolve left to right within a tier.
#[test]
fn division_binds_before_addition() {
    assert_eq!(evaluate("100+3/100").unwrap(), Some("100.03".to_string()));
}

#[test]
fn same_tier_folds_left_to_right() {
    assert_eq!(evaluate("100*2*3").unwrap(), Some("600".to_string()));
    assert_eq!(evaluate("100-20-30").unwrap(), Some("50".to_string()));
}

// Leading sign.
#[test]
fn leading_sign_is_part_of_the_number() {
    assert_eq!(evaluate("+100").unwrap(), Some("100".to_string()));
    assert_eq!(evaluate("-102").unwrap(), Some("-102".to_string()));
}

// Percent.
#[test]
fn percent_divides_by_one_hundred() {
    assert_eq!(evaluate("4000%").unwrap(), Some("40".to_string()));
}

#[test]
fn percent_chains() {
    assert_eq!(evaluate("4000%%").unwrap(), Some("0.4".to_string()));
}

#[test]
fn percent_followed_by_digits_fails() {
    assert_eq!(evaluate("4000%20").unwrap_err(), AppError::InvalidExpression);
}

#[test]
fn percent_without_number_fails() {
    assert_eq!(evaluate("%").unwrap_err(), AppError::InvalidPercent);
    assert_eq!(evaluate("100+%").unwrap_err(), AppError::InvalidPercent);
}

// Empty input.
#[test]
fn empty_input_is_no_result() {
    assert_eq!(evaluate("").unwrap(), None);
    assert_eq!(evaluate("   ").unwrap(), None);
}

// Invalid character: first offender reported, scan halts there.
#[test]
fn invalid_char_reports_first_offender() {
    assert_eq!(evaluate("abc").unwrap_err(), AppError::InvalidChar('a'));
    assert_eq!(evaluate("12x3+zzz").unwrap_err(), AppError::InvalidChar('x'));
}

// Malformed trailing operators.
#[test]
fn trailing_operators_fail() {
    assert_eq!(evaluate("100+++").unwrap_err(), AppError::InvalidExpression);
    assert_eq!(evaluate("100+").unwrap_err(), AppError::InvalidExpression);
}

// Leading multiplicative operator.
#[test]
fn leading_multiplicative_operator_fails() {
    assert_eq!(evaluate("*100").unwrap_err(), AppError::InvalidExpression);
    assert_eq!(evaluate("/100").unwrap_err(), AppError::InvalidExpression);
}

// Whitespace is insignificant.
#[test]
fn whitespace_is_insignificant() {
    assert_eq!(evaluate("400 + 23").unwrap(), evaluate("400+23").unwrap());
    assert_eq!(evaluate(" 4 0 0 %").unwrap(), evaluate("400%").unwrap());
}

// Idempotence of re-evaluation.
#[test]
fn re_evaluation_is_idempotent() {
    for s in ["", "100+3/100", "abc", "4000%%", "1/3"] {
        let first = evaluate(s);
        let second = evaluate(s);
        assert_eq!(first, second);
    }
}

// The malformed-literal error carries the buffered text.
#[test]
fn malformed_literal_reports_the_buffer() {
    assert_eq!(
        evaluate("1.2.3").unwrap_err(),
        AppError::InvalidString(String::from("1.2.3"))
    );
    assert_eq!(
        evaluate("-").unwrap_err(),
        AppError::InvalidString(String::from("-"))
    );
}

// A space does not flush the buffer: digits on both sides of it join.
#[test]
fn space_does_not_split_a_number() {
    assert_eq!(evaluate("1 2").unwrap(), Some("12".to_string()));
}

// Exact long-division behavior: one hundred significant digits, rounded
// half-up.
#[test]
fn division_produces_one_hundred_digits() {
    let expected = format!("0.{}", "3".repeat(100));
    assert_eq!(evaluate("1/3").unwrap(), Some(expected));
    let expected = format!("0.{}7", "6".repeat(99));
    assert_eq!(evaluate("2/3").unwrap(), Some(expected));
}

// Division shortcuts observed through the public entry point.
#[test]
fn division_shortcuts() {
    assert_eq!(evaluate("7/7").unwrap(), Some("1".to_string()));
    assert_eq!(evaluate("0.5/5").unwrap(), Some("0.1".to_string()));
    assert_eq!(evaluate("0/5").unwrap(), Some("0".to_string()));
    assert_eq!(evaluate("2.50/1").unwrap(), Some("2.50".to_string()));
}

// Multiplication by one hands back the other operand in normal form.
#[test]
fn multiplication_by_one_normalizes() {
    assert_eq!(evaluate("1*2.50").unwrap(), Some("2.5".to_string()));
    assert_eq!(evaluate("2.50*1").unwrap(), Some("2.5".to_string()));
}

// Adding a zero extends the scale toward the zero's.
#[test]
fn adding_zero_keeps_the_finer_scale() {
    assert_eq!(evaluate("5+0.00").unwrap(), Some("5.00".to_string()));
}

// Rendering switches to scientific notation for small values.
#[test]
fn tiny_values_render_scientifically() {
    assert_eq!(evaluate("0.0000001").unwrap(), Some("1E-7".to_string()));
    assert_eq!(evaluate("0.00000012").unwrap(), Some("1.2E-7".to_string()));
    assert_eq!(evaluate("-0.0000001").unwrap(), Some("-1E-7".to_string()));
    assert_eq!(
        evaluate("1/0.0000000000000000005").unwrap(),
        Some("2e+18".to_string())
    );
}

// Trailing and leading dots in literals.
#[test]
fn bare_dot_positions() {
    assert_eq!(evaluate("5.").unwrap(), Some("5".to_string()));
    assert_eq!(evaluate(".5").unwrap(), Some("0.5".to_string()));
}

// The stricter calculator entry point.
#[test]
fn calculator_computes() {
    assert_eq!(calculator::calculate("100+200").unwrap(), "300".to_string());
    assert_eq!(calculator::calculate("4000%").unwrap(), "40".to_string());
}

#[test]
fn calculator_rejects_blank_input() {
    assert_eq!(
        calculator::calculate("").unwrap_err(),
        AppError::InvalidExpression
    );
}

#[test]
fn calculator_propagates_errors() {
    assert_eq!(
        calculator::calculate("abc").unwrap_err(),
        AppError::InvalidChar('a')
    );
}

// The display shell hands the display back unchanged.
#[test]
fn calc_shell_echoes_the_display() {
    assert_eq!(calc_core::calc::calculate("123+4").unwrap(), "123+4".to_string());
    assert_eq!(calc_core::calc::calculate("").unwrap(), "".to_string());
}
