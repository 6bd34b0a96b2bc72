use std::str::FromStr;

use bigdecimal::BigDecimal;
use calc_core::error::AppError;
use calc_core::evaluator::{evaluate, operate_expression};
use calc_core::parser::{Operator, Symbol};

fn dec(s: &str) -> Symbol {
    Symbol::Decimal(BigDecimal::from_str(s).unwrap())
}

fn sym_eq(a: &Symbol, b: &Symbol) -> bool {
    match (a, b) {
        (Symbol::Decimal(x), Symbol::Decimal(y)) => x == y,
        (Symbol::Operator(x), Symbol::Operator(y)) => x == y,
        _ => false,
    }
}

fn assert_pass(input: Vec<Symbol>, op: Operator, expected: Vec<Symbol>) {
    let got = operate_expression(input, op).unwrap();
    assert_eq!(got.len(), expected.len());
    for (g, e) in got.iter().zip(expected.iter()) {
        assert!(sym_eq(g, e));
    }
}

#[test]
fn operate_expression_works_single_vs_multiplication() {
    assert_pass(vec![dec("100")], Operator::Multiplication, vec![dec("100")]);
}

#[test]
fn operate_expression_works_plus_untouched_by_multiplication() {
    assert_pass(
        vec![dec("200"), Symbol::Operator(Operator::Plus), dec("100")],
        Operator::Multiplication,
        vec![dec("200"), Symbol::Operator(Operator::Plus), dec("100")],
    );
}

#[test]
fn operate_expression_works_multiplication_folds() {
    assert_pass(
        vec![
            dec("200"),
            Symbol::Operator(Operator::Multiplication),
            dec("100"),
        ],
        Operator::Multiplication,
        vec![dec("20000")],
    );
}

#[test]
fn operate_expression_works_single_vs_plus() {
    assert_pass(vec![dec("100")], Operator::Plus, vec![dec("100")]);
}

#[test]
fn operate_expression_works_minus_untouched_by_plus() {
    assert_pass(
        vec![dec("200"), Symbol::Operator(Operator::Minus), dec("100")],
        Operator::Plus,
        vec![dec("200"), Symbol::Operator(Operator::Minus), dec("100")],
    );
}

#[test]
fn operate_expression_works_plus_folds() {
    assert_pass(
        vec![dec("200"), Symbol::Operator(Operator::Plus), dec("100")],
        Operator::Plus,
        vec![dec("300")],
    );
}

#[test]
fn operate_expression_works_single_vs_minus() {
    assert_pass(vec![dec("100")], Operator::Minus, vec![dec("100")]);
}

#[test]
fn operate_expression_works_plus_untouched_by_minus() {
    assert_pass(
        vec![dec("200"), Symbol::Operator(Operator::Plus), dec("100")],
        Operator::Minus,
        vec![dec("200"), Symbol::Operator(Operator::Plus), dec("100")],
    );
}

#[test]
fn operate_expression_works_minus_folds() {
    assert_pass(
        vec![dec("200"), Symbol::Operator(Operator::Minus), dec("100")],
        Operator::Minus,
        vec![dec("100")],
    );
}

#[test]
fn operate_expression_works_single_vs_division() {
    assert_pass(vec![dec("100")], Operator::Division, vec![dec("100")]);
}

#[test]
fn operate_expression_works_plus_untouched_by_division() {
    assert_pass(
        vec![dec("200"), Symbol::Operator(Operator::Plus), dec("100")],
        Operator::Division,
        vec![dec("200"), Symbol::Operator(Operator::Plus), dec("100")],
    );
}

#[test]
fn operate_expression_works_division_folds() {
    assert_pass(
        vec![dec("200"), Symbol::Operator(Operator::Division), dec("100")],
        Operator::Division,
        vec![dec("2")],
    );
}

#[test]
fn evaluate_works_empty() {
    assert_eq!(evaluate("").unwrap(), None);
}

#[test]
fn evaluate_works_single_number() {
    assert_eq!(evaluate("100").unwrap(), Some("100".to_string()));
}

#[test]
fn evaluate_works_addition() {
    assert_eq!(evaluate("100+ 200").unwrap(), Some("300".to_string()));
}

#[test]
fn evaluate_works_precedence() {
    assert_eq!(
        evaluate("100+ 200 * 500").unwrap(),
        Some("100100".to_string())
    );
}

#[test]
fn evaluate_works_division_precedence() {
    assert_eq!(evaluate("100+ 3 / 100").unwrap(), Some("100.03".to_string()));
}

#[test]
fn evaluate_works_invalid_char() {
    assert_eq!(evaluate("abc").unwrap_err(), AppError::InvalidChar('a'));
}

#[test]
fn evaluate_works_trailing_operators() {
    assert_eq!(evaluate("100+++").unwrap_err(), AppError::InvalidExpression);
}

#[test]
fn evaluate_works_first_multiplication_operator() {
    assert_eq!(evaluate("*100").unwrap_err(), AppError::InvalidExpression);
}

#[test]
fn evaluate_works_first_division_operator() {
    assert_eq!(evaluate("/100").unwrap_err(), AppError::InvalidExpression);
}

#[test]
fn evaluate_works_first_plus_operator() {
    assert_eq!(evaluate("+100").unwrap(), Some("100".to_string()));
}
