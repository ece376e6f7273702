use lisp_machine::core_types::{BuiltinFunction, Expression};
use lisp_machine::machine::eval_once_off;
use lisp_machine::printer::{int_to_text, join, render, render_expression};
use lisp_machine::reader::{parse, tokenize};

#[test]
fn numbers_as_text() {
    assert_eq!("0", int_to_text(0));
    assert_eq!("42", int_to_text(42));
    assert_eq!("-42", int_to_text(-42));
    assert_eq!("2147483647", int_to_text(i32::MAX));
    assert_eq!("-2147483648", int_to_text(i32::MIN));
}

#[test]
fn join_spaces_tokens() {
    assert_eq!("(a b (c)) d", join(&tokenize("( a   b(c ) )\nd")));
    assert_eq!("", join(&Vec::new()));
}

#[test]
fn render_a_program() {
    let program = parse("(+ 1 (f x))\n  (quote ())  true 007").unwrap();
    assert_eq!("(+ 1 (f x)) (quote ()) true 7", render(&program));
}

#[test]
fn render_then_parse_gives_the_same_expressions() {
    let sources = [
        "(def count-down (lambda (n) (if (= n 0) (quote done) (count-down (- n 1)))))",
        "((()) (a) b) 0 -1 false",
        "(call/cc (lambda (k) (k 5)))",
    ];
    for src in sources.iter() {
        let first = parse(src).unwrap();
        let again = parse(&render(&first)).unwrap();
        assert_eq!(first, again);
    }
}

#[test]
fn render_values_without_source_form() {
    assert_eq!("+", render_expression(&Expression::Function(BuiltinFunction::Plus)));
    assert_eq!("println", render_expression(&Expression::Function(BuiltinFunction::Println)));
    let closure = eval_once_off("(lambda (x) x)", 100).unwrap();
    assert_eq!("<lambda>", render_expression(&closure));
    let k = eval_once_off("(call/cc (lambda (k) k))", 100).unwrap();
    assert_eq!("<continuation>", render_expression(&k));
}
