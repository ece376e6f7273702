use lisp_machine::core_types::{EvalError, Expression};
use lisp_machine::reader::{is_number, parse, tokenize};

fn sym(s: &str) -> Expression {
    Expression::Symbol(s.to_string())
}

#[test]
fn tokenize_separates_parentheses() {
    assert_eq!(vec!["(", "hello", ")"], tokenize("(hello)"));
    assert_eq!(vec!["(", "+", "1", "(", "f", ")", ")"], tokenize(" (+ 1\n(f))\t"));
}

#[test]
fn numbers_are_all_digits() {
    assert!(is_number("0123"));
    assert!(!is_number("12a"));
    assert!(!is_number("-1"));
}

#[test]
fn parse_literals() {
    assert_eq!(Ok(vec![Expression::True]), parse("true"));
    assert_eq!(Ok(vec![Expression::False]), parse("false"));
    assert_eq!(Ok(vec![sym("potato")]), parse("potato"));
    assert_eq!(Ok(vec![Expression::Number(1)]), parse("1"));
    assert_eq!(Ok(vec![sym("-1")]), parse("-1"));
}

#[test]
fn parse_lists() {
    assert_eq!(
        Ok(vec![Expression::List(vec![sym("+"), Expression::Number(1), Expression::Number(2)])]),
        parse("(+ 1 2)")
    );
    assert_eq!(
        Ok(vec![Expression::List(vec![
            sym("+"),
            Expression::Number(1),
            Expression::Number(2),
            Expression::List(vec![sym("+"), Expression::Number(3), Expression::Number(4)]),
        ])]),
        parse("(+ 1 2 (+ 3 4))")
    );
}

#[test]
fn parse_unbalanced() {
    assert_eq!(Err(EvalError::SyntaxError), parse("(a (b)"));
    assert_eq!(Err(EvalError::SyntaxError), parse("a)"));
}

#[test]
fn every_whitespace_character_separates_tokens() {
    assert_eq!(vec!["a", "b"], tokenize("a\u{c}b"));
    assert_eq!(vec!["a", "b"], tokenize("a\u{b}b"));
    assert_eq!(vec!["a", "b", "c"], tokenize("a\u{a0}b\u{3000}c"));
    assert_eq!(vec!["(", "x", ")"], tokenize("(\u{2028}x\u{85})"));
}
