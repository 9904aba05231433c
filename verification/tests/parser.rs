//! Tests of the expression parser and evaluator.

use tower_field::parser::{ParseError, Parser};

fn eval(input: &str, prev: Option<Vec<bool>>) -> Result<Vec<bool>, ParseError> {
    let mut p = Parser::new(input, prev);
    p.parse_expression()
}

#[test]
fn test_parse_literal() {
    assert_eq!(eval("10", None).unwrap(), vec![true, false]);
    assert_eq!(eval("0110", None).unwrap(), vec![false, true, true, false]);
}

#[test]
fn test_parse_addition() {
    assert_eq!(eval("10+01", None).unwrap(), vec![true, true]);
    assert_eq!(eval(" 10 + 01 ", None).unwrap(), vec![true, true]);
}

#[test]
fn test_parse_multiplication() {
    // X_0 . (1 + X_0) = 1 in GF(4)
    assert_eq!(eval("01*11", None).unwrap(), vec![true, false]);
}

#[test]
fn test_parse_division() {
    // (1 + X_0) / (1 + X_0) = 1
    assert_eq!(eval("11/11", None).unwrap(), vec![true, false]);
}

#[test]
fn test_parse_precedence_and_parens() {
    // '*' binds tighter than '+': 10 + 01*11 = 1 + 1 = 0
    assert_eq!(eval("10+01*11", None).unwrap(), vec![false, false]);
    // parentheses override: (10+01)*11 = (1+X0)(1+X0) = X0
    assert_eq!(eval("(10+01)*11", None).unwrap(), vec![false, true]);
}

#[test]
fn test_parse_padding_to_common_length() {
    // the short operand is padded with trailing zero bits
    assert_eq!(
        eval("1+0000", None).unwrap(),
        vec![true, false, false, false]
    );
}

#[test]
fn test_parse_previous_result() {
    let prev = vec![false, true];
    // _ * _ = X_0 . X_0 = 1 + X_0 in GF(4)
    assert_eq!(eval("_*_", Some(prev)).unwrap(), vec![true, true]);
    assert_eq!(eval("_", None), Err(ParseError::NoPreviousResult));
}

#[test]
fn test_parse_error_unexpected_end() {
    assert_eq!(eval("", None), Err(ParseError::UnexpectedEnd));
    assert_eq!(eval("10+", None), Err(ParseError::UnexpectedEnd));
}

#[test]
fn test_parse_error_unclosed_paren() {
    assert_eq!(eval("(10", None), Err(ParseError::ExpectedCloseParen));
}

#[test]
fn test_parse_error_unexpected_character() {
    assert_eq!(eval("2", None), Err(ParseError::UnexpectedChar('2')));
}

#[test]
fn test_parse_error_bad_lengths() {
    assert_eq!(
        eval("101+1", None),
        Err(ParseError::LhsLengthNotPowerOfTwo(3))
    );
    assert_eq!(
        eval("1+101", None),
        Err(ParseError::RhsLengthNotPowerOfTwo(3))
    );
}

#[test]
fn test_parse_error_division_by_zero() {
    assert_eq!(eval("10/00", None), Err(ParseError::NotInvertible));
}

#[test]
fn test_parse_trailing_input_position() {
    // the parser stops at input it cannot use; the caller sees where
    let mut p = Parser::new("10)", None);
    let value = p.parse_expression().unwrap();
    assert_eq!(value, vec![true, false]);
    p.skip_whitespace();
    assert!(p.pos < p.chars.len());
    assert_eq!(p.chars[p.pos], ')');
}
