use lisp_machine::core_types::{BuiltinFunction, EvalError, Expression};
use lisp_machine::machine::{eval_expressions, eval_once_off, Machine};

const STEPS: u64 = 100_000_000;

fn eval(code: &str) -> Result<Expression, EvalError> {
    eval_once_off(code, STEPS)
}

fn sym(s: &str) -> Expression {
    Expression::Symbol(s.to_string())
}

#[test]
fn literals_evaluate_to_themselves() {
    assert_eq!(Ok(Expression::True), eval("true"));
    assert_eq!(Ok(Expression::False), eval("false"));
    assert_eq!(Ok(Expression::Number(42)), eval("42"));
    assert_eq!(Ok(Expression::Number(1)), eval("1"));
}

#[test]
fn last_form_is_the_result() {
    assert_eq!(Ok(Expression::False), eval("true false"));
}

#[test]
fn if_takes_one_branch() {
    assert_eq!(Ok(Expression::Number(1)), eval("(if true 1 2)"));
    assert_eq!(Ok(Expression::Number(2)), eval("(if false 1 2)"));
}

#[test]
fn if_runs_only_the_taken_branch() {
    let mut m = eval_expressions("(if true (println 1) (println 2))", STEPS).unwrap();
    assert_eq!(vec![Expression::Number(1)], m.take_output());
    let mut m = eval_expressions("(if false (println 1) (println 2))", STEPS).unwrap();
    assert_eq!(vec![Expression::Number(2)], m.take_output());
}

#[test]
fn builtin_arithmetic() {
    assert_eq!(Ok(Expression::Number(3)), eval("(+ 1 2)"));
    assert_eq!(Ok(Expression::Number(2)), eval("(- 5 3)"));
    assert_eq!(Ok(Expression::Number(12)), eval("(* 3 4)"));
    assert_eq!(Ok(Expression::Number(i32::MIN)), eval("(+ 2147483647 1)"));
}

#[test]
fn equality_is_structural() {
    assert_eq!(Ok(Expression::True), eval("(= 3 3)"));
    assert_eq!(Ok(Expression::False), eval("(= 3 4)"));
    assert_eq!(Ok(Expression::True), eval("(= (quote (1 (a))) (quote (1 (a))))"));
    assert_eq!(Ok(Expression::False), eval("(= (quote (1 (a))) (quote (1 (b))))"));
}

#[test]
fn first_of_a_quoted_list() {
    assert_eq!(Ok(Expression::Number(1)), eval("(first (quote (1 2 3)))"));
}

#[test]
fn first_of_an_empty_list_fails() {
    assert_eq!(Err(EvalError::ArgumentError), eval("(first (quote ()))"));
}

#[test]
fn println_returns_and_records_its_argument() {
    assert_eq!(Ok(sym("foo")), eval("(println (quote foo))"));
    let mut m = eval_expressions("(println (quote foo)) (println 7)", STEPS).unwrap();
    assert_eq!(vec![sym("foo"), Expression::Number(7)], m.take_output());
    assert_eq!(Vec::<Expression>::new(), m.take_output());
}

#[test]
fn lambda_application() {
    assert_eq!(Ok(Expression::Number(9)), eval("((lambda (n) (* n n)) 3)"));
    assert_eq!(Ok(Expression::Number(6)), eval("((lambda (x y) (- x y)) 10 4)"));
}

#[test]
fn def_is_visible_to_later_forms() {
    assert_eq!(Ok(Expression::Number(4)), eval("(def a 4) a"));
    assert_eq!(Ok(Expression::Number(9)), eval("(def square (lambda (n) (* n n))) (square 3)"));
}

#[test]
fn named_function_calls_itself() {
    let program = "
(def repeat-once
  (lambda (should-repeat?)
    (if should-repeat?
      (repeat-once false)
      (quote done))))

(repeat-once true)
";
    assert_eq!(Ok(sym("done")), eval(program));
}

#[test]
fn deep_recursion_runs_in_bounded_native_stack() {
    let program = "
(def count-down
  (lambda (n)
    (if (= n 0)
      (quote done)
      (count-down (- n 1)))))
(count-down 100000)
";
    assert_eq!(Ok(sym("done")), eval(program));
}

#[test]
fn continuation_abandons_the_rest_of_its_expression() {
    assert_eq!(Ok(Expression::Number(6)), eval("(+ 1 (call/cc (lambda (k) (+ 10 (k 5)))))"));
    assert_eq!(Ok(Expression::Number(11)), eval("(+ 1 (call/cc (lambda (k) 10)))"));
}

#[test]
fn continuation_resumes_more_than_once() {
    let program = "
(def mk (lambda (c n) (lambda (sel) (if sel c n))))
(def st (call/cc (lambda (c) (mk c 0))))
(println (st false))
(if (= (st false) 0)
  ((st true) (mk (st true) 1))
  (if (= (st false) 1)
    ((st true) (mk (st true) 2))
    (st false)))
";
    let mut m = eval_expressions(program, STEPS).unwrap();
    assert_eq!(
        vec![Expression::Number(0), Expression::Number(1), Expression::Number(2)],
        m.take_output()
    );
    let (_, v) = m.into_result();
    assert_eq!(Expression::Number(2), v);
}

#[test]
fn continuation_without_argument_is_an_arity_error() {
    assert_eq!(Err(EvalError::ArityError), eval("(call/cc (lambda (k) (k)))"));
}

#[test]
fn closure_arity_mismatch() {
    assert_eq!(Err(EvalError::ArityError), eval("((lambda (x) x) 1 2)"));
    assert_eq!(Err(EvalError::ArityError), eval("((lambda (x y) x) 1)"));
}

#[test]
fn applying_a_non_function() {
    assert_eq!(Err(EvalError::NotCallableError), eval("(1 2)"));
    assert_eq!(Err(EvalError::NotCallableError), eval("((quote (1)) 2)"));
}

#[test]
fn non_boolean_condition() {
    assert_eq!(Err(EvalError::NotBooleanError), eval("(if 1 2 3)"));
}

#[test]
fn unbound_symbol() {
    assert_eq!(Err(EvalError::UnboundSymbol), eval("nothing-here"));
}

#[test]
fn builtin_argument_errors() {
    assert_eq!(Err(EvalError::ArgumentError), eval("(+ 1 true)"));
    assert_eq!(Err(EvalError::ArgumentError), eval("(+ 1)"));
    assert_eq!(Err(EvalError::ArgumentError), eval("(first 3)"));
    assert_eq!(Err(EvalError::ArgumentError), eval("(println 1 2)"));
}

#[test]
fn syntax_errors() {
    assert_eq!(Err(EvalError::SyntaxError), eval("(+ 1 2"));
    assert_eq!(Err(EvalError::SyntaxError), eval("(+ 1 2))"));
    assert_eq!(Err(EvalError::SyntaxError), eval("()"));
    assert_eq!(Err(EvalError::SyntaxError), eval("(def 1 2)"));
    assert_eq!(Err(EvalError::SyntaxError), eval("(if true 1)"));
    assert_eq!(Err(EvalError::SyntaxError), eval("(lambda (1) 2)"));
    assert_eq!(Err(EvalError::SyntaxError), eval("(quote)"));
    assert_eq!(Err(EvalError::SyntaxError), eval("(call/cc)"));
    assert_eq!(Err(EvalError::SyntaxError), eval(""));
    assert_eq!(Err(EvalError::SyntaxError), eval("99999999999"));
}

#[test]
fn step_limit() {
    assert_eq!(Err(EvalError::StepLimit), eval_once_off("(+ 1 2)", 3));
    assert_eq!(Ok(Expression::Number(3)), eval_once_off("(+ 1 2)", 100));
}

#[test]
fn builtin_as_expression_is_a_type_error() {
    let mut m = Machine::new(vec![Expression::Function(BuiltinFunction::Plus)]);
    assert_eq!(Err(EvalError::TypeError), m.eval_stepper(10));
}

#[test]
fn empty_stack_is_an_internal_error() {
    let mut m = Machine::new(vec![]);
    assert_eq!(Err(EvalError::InternalError), m.eval_stepper(10));
}

#[test]
fn stepping_one_frame_at_a_time() {
    let mut m = Machine::new(vec![Expression::Number(5)]);
    assert!(!m.is_done());
    assert_eq!(Ok(()), m.eval_frame());
    assert!(m.is_done());
    assert_eq!((0, Expression::Number(5)), m.into_result());
}
