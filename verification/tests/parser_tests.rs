use std::str::FromStr;

use bigdecimal::BigDecimal;
use calc_core::error::AppError;
use calc_core::parser::{parse, Operator, Symbol};

fn dec(s: &str) -> Symbol {
    Symbol::Decimal(BigDecimal::from_str(s).unwrap())
}

fn sym_eq(a: &Symbol, b: &Symbol) -> bool {
    match (a, b) {
        (Symbol::Decimal(x), Symbol::Decimal(y)) => x == y,
        (Symbol::Operator(x), Symbol::Operator(y)) => x == y,
        _ => false,
    }
}

fn assert_parses(input: &str, expected: Vec<Symbol>) {
    let got = parse(input).unwrap();
    assert_eq!(got.len(), expected.len(), "length for {:?}", input);
    for (g, e) in got.iter().zip(expected.iter()) {
        assert!(sym_eq(g, e), "symbol mismatch for {:?}", input);
    }
}

#[test]
fn parse_works_leading_plus() {
    assert_parses("+100", vec![dec("100")]);
}

#[test]
fn parse_works_plain_number() {
    assert_parses("101", vec![dec("101")]);
}

#[test]
fn parse_works_leading_minus() {
    assert_parses("-102", vec![dec("-102")]);
}

#[test]
fn parse_works_subtraction() {
    assert_parses(
        "102-2000",
        vec![dec("102"), Symbol::Operator(Operator::Minus), dec("2000")],
    );
}

#[test]
fn parse_works_multiplication() {
    assert_parses(
        "2000*1000",
        vec![
            dec("2000"),
            Symbol::Operator(Operator::Multiplication),
            dec("1000"),
        ],
    );
}

#[test]
fn parse_works_multiplication_glyph() {
    assert_parses(
        "4000\u{d7}2000",
        vec![
            dec("4000"),
            Symbol::Operator(Operator::Multiplication),
            dec("2000"),
        ],
    );
}

#[test]
fn parse_works_percent() {
    assert_parses("4000%", vec![dec("40")]);
}

#[test]
fn parse_works_percent_chained() {
    assert_parses("4000%%", vec![dec("0.4")]);
}

#[test]
fn parse_works_fraction() {
    assert_parses("2.143", vec![dec("2.143")]);
}

#[test]
fn parse_works_negative_fraction() {
    assert_parses("-3.343", vec![dec("-3.343")]);
}

#[test]
fn parse_works_invalid_char() {
    assert_eq!(parse("-a3.343").unwrap_err(), AppError::InvalidChar('a'));
}

#[test]
fn parse_works_percent_then_digits() {
    assert_eq!(parse("4000%20").unwrap_err(), AppError::InvalidExpression);
}

#[test]
fn parse_works_parenthesis_rejected() {
    assert_eq!(
        parse("\u{0028}400+20\u{0029}*20").unwrap_err(),
        AppError::InvalidChar('\u{0028}')
    );
}

#[test]
fn parse_works_spaces() {
    assert_parses(
        "400 + 23",
        vec![dec("400"), Symbol::Operator(Operator::Plus), dec("23")],
    );
}

#[test]
fn parse_empty_gives_no_symbols() {
    assert_parses("", vec![]);
}

#[test]
fn parse_percent_first_is_invalid_percent() {
    assert_eq!(parse("%").unwrap_err(), AppError::InvalidPercent);
}

#[test]
fn parse_percent_after_operator_is_invalid_percent() {
    assert_eq!(parse("100+%").unwrap_err(), AppError::InvalidPercent);
}

#[test]
fn parse_two_dots_is_invalid_string() {
    assert_eq!(
        parse("1.2.3").unwrap_err(),
        AppError::InvalidString(String::from("1.2.3"))
    );
}

#[test]
fn parse_bare_sign_is_invalid_string() {
    assert_eq!(
        parse("-").unwrap_err(),
        AppError::InvalidString(String::from("-"))
    );
}

#[test]
fn parse_trailing_dot_reads_as_integer() {
    assert_parses("5.", vec![dec("5")]);
}

#[test]
fn parse_leading_dot_reads_as_fraction() {
    assert_parses(".5", vec![dec("0.5")]);
}

#[test]
fn operate_works_plus() {
    let r = Operator::Plus.operate(
        &BigDecimal::from_str("100").unwrap(),
        &BigDecimal::from_str("300").unwrap(),
    );
    assert_eq!(r, BigDecimal::from_str("400").unwrap());
}

#[test]
fn operate_works_minus() {
    let r = Operator::Minus.operate(
        &BigDecimal::from_str("300").unwrap(),
        &BigDecimal::from_str("500").unwrap(),
    );
    assert_eq!(r, BigDecimal::from_str("-200").unwrap());
}

#[test]
fn operate_works_multiplication() {
    let r = Operator::Multiplication.operate(
        &BigDecimal::from_str("300").unwrap(),
        &BigDecimal::from_str("500").unwrap(),
    );
    assert_eq!(r, BigDecimal::from_str("150000").unwrap());
}

#[test]
fn operate_works_division() {
    let r = Operator::Division.operate(
        &BigDecimal::from_str("500").unwrap(),
        &BigDecimal::from_str("100").unwrap(),
    );
    assert_eq!(r, BigDecimal::from_str("5").unwrap());
}
