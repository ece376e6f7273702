//! The builtin primitives and the environment that a program starts in.
use crate::core_types::{copy_expr, expr_eq, BuiltinFunction, EvalError, ExprModel, Expression, exprs_model};
use crate::env::{Binding, EnvNode, EnvNodeModel};
use vstd::prelude::*;

verus! {

broadcast use vstd::std_specs::vec::group_vec_axioms, vstd::seq::group_seq_axioms, vstd::string::group_string_axioms;

/// The two numbers of a pair of number arguments.
pub open spec fn number_pair(args: Seq<ExprModel>) -> Option<(i32, i32)> {
    if args.len() == 2 {
        match (args[0], args[1]) {
            (ExprModel::Number(a), ExprModel::Number(b)) => Some((a, b)),
            _ => None,
        }
    } else {
        None
    }
}

/// What a builtin returns for its arguments. Arithmetic is on 32-bit integers
/// and wraps on overflow.
pub open spec fn builtin_spec(f: BuiltinFunction, args: Seq<ExprModel>) -> Result<ExprModel, EvalError> {
    match f {
        BuiltinFunction::Equals => if args.len() == 2 {
            Ok(if args[0] == args[1] { ExprModel::True } else { ExprModel::False })
        } else {
            Err(EvalError::ArgumentError)
        },
        BuiltinFunction::Plus => match number_pair(args) {
            Some((a, b)) => Ok(ExprModel::Number(a.wrapping_add(b))),
            None => Err(EvalError::ArgumentError),
        },
        BuiltinFunction::Minus => match number_pair(args) {
            Some((a, b)) => Ok(ExprModel::Number(a.wrapping_sub(b))),
            None => Err(EvalError::ArgumentError),
        },
        BuiltinFunction::Times => match number_pair(args) {
            Some((a, b)) => Ok(ExprModel::Number(a.wrapping_mul(b))),
            None => Err(EvalError::ArgumentError),
        },
        BuiltinFunction::First => if args.len() == 1 {
            match args[0] {
                ExprModel::List(items) => if items.len() > 0 {
                    Ok(items[0])
                } else {
                    Err(EvalError::ArgumentError)
                },
                _ => Err(EvalError::ArgumentError),
            }
        } else {
            Err(EvalError::ArgumentError)
        },
        BuiltinFunction::Println => if args.len() == 1 {
            Ok(args[0])
        } else {
            Err(EvalError::ArgumentError)
        },
    }
}

/// Applies a builtin to its evaluated arguments. `println` returns its argument;
/// the machine records it as output.
pub fn builtin_apply(func: BuiltinFunction, args: Vec<Expression>) -> (r: Result<Expression, EvalError>)
    ensures
        match builtin_spec(func, exprs_model(args@)) {
            Ok(v) => r matches Ok(e) && e@ == v,
            Err(err) => r == Err::<Expression, EvalError>(err),
        },
{
    let ghost a = exprs_model(args@);
    let n = args.len();
    assert(forall|i: int| 0 <= i < n ==> #[trigger] a[i] == args@[i]@);
    match func {
        BuiltinFunction::Equals => {
            if n == 2 {
                if expr_eq(&args[0], &args[1]) {
                    Ok(Expression::True)
                } else {
                    Ok(Expression::False)
                }
            } else {
                Err(EvalError::ArgumentError)
            }
        },
        BuiltinFunction::Plus | BuiltinFunction::Minus | BuiltinFunction::Times => {
            if n != 2 {
                return Err(EvalError::ArgumentError);
            }
            assert(a[0] == args@[0]@ && a[1] == args@[1]@);
            match (&args[0], &args[1]) {
                (Expression::Number(x), Expression::Number(y)) => {
                    if func == BuiltinFunction::Plus {
                        Ok(Expression::Number(x.wrapping_add(*y)))
                    } else if func == BuiltinFunction::Minus {
                        Ok(Expression::Number(x.wrapping_sub(*y)))
                    } else {
                        Ok(Expression::Number(x.wrapping_mul(*y)))
                    }
                },
                _ => Err(EvalError::ArgumentError),
            }
        },
        BuiltinFunction::First => {
            if n != 1 {
                return Err(EvalError::ArgumentError);
            }
            assert(a[0] == args@[0]@);
            match &args[0] {
                Expression::List(items) => {
                    if items.len() > 0 {
                        assert(exprs_model(items@)[0] == items@[0]@);
                        Ok(copy_expr(&items[0]))
                    } else {
                        assert(exprs_model(items@).len() == 0);
                        Err(EvalError::ArgumentError)
                    }
                },
                _ => {
                    assert(!(a[0] is List));
                    Err(EvalError::ArgumentError)
                },
            }
        },
        BuiltinFunction::Println => {
            if n == 1 {
                Ok(copy_expr(&args[0]))
            } else {
                Err(EvalError::ArgumentError)
            }
        },
    }
}

/// The bindings that every program starts with.
pub open spec fn initial_env_model() -> EnvNodeModel {
    EnvNodeModel {
        parent: None,
        bindings: seq![
            ("true"@, ExprModel::True),
            ("false"@, ExprModel::False),
            ("="@, ExprModel::Function(BuiltinFunction::Equals)),
            ("+"@, ExprModel::Function(BuiltinFunction::Plus)),
            ("-"@, ExprModel::Function(BuiltinFunction::Minus)),
            ("*"@, ExprModel::Function(BuiltinFunction::Times)),
            ("first"@, ExprModel::Function(BuiltinFunction::First)),
            ("println"@, ExprModel::Function(BuiltinFunction::Println)),
        ],
    }
}

/// The root environment: the two booleans and the six builtins.
pub fn environment() -> (r: EnvNode)
    ensures
        r@ == initial_env_model(),
{
    let mut bindings: Vec<Binding> = Vec::new();
    bindings.push(Binding { name: "true".to_string(), value: Expression::True });
    bindings.push(Binding { name: "false".to_string(), value: Expression::False });
    bindings.push(Binding { name: "=".to_string(), value: Expression::Function(BuiltinFunction::Equals) });
    bindings.push(Binding { name: "+".to_string(), value: Expression::Function(BuiltinFunction::Plus) });
    bindings.push(Binding { name: "-".to_string(), value: Expression::Function(BuiltinFunction::Minus) });
    bindings.push(Binding { name: "*".to_string(), value: Expression::Function(BuiltinFunction::Times) });
    bindings.push(Binding { name: "first".to_string(), value: Expression::Function(BuiltinFunction::First) });
    bindings.push(Binding { name: "println".to_string(), value: Expression::Function(BuiltinFunction::Println) });
    let r = EnvNode { parent: None, bindings };
    assert(r@.bindings =~= initial_env_model().bindings);
    r
}

} // verus!
