//! The abstract machine: one transition of the control stack, and the driver
//! that repeats it.
use crate::core_types::{
    BuiltinFunction, copy_expr, copy_frames, is_named, EvalError, ExprModel, Expression, Frame, FrameModel,
    exprs_model, frames_model, strings_model, group_model_lemmas,
};
use crate::env::{group_env_lemmas, binding_model, envs_model, lookup, lookup_spec, Binding, EnvNode, EnvNodeModel};
use crate::standard_library::{builtin_apply, builtin_spec, environment, initial_env_model};
use crate::reader::{parse, parse_spec};
use vstd::prelude::*;

verus! {

broadcast use {
    vstd::std_specs::vec::group_vec_axioms,
    vstd::seq::group_seq_axioms,
    group_model_lemmas,
    group_env_lemmas,
};

/// The state of an evaluation: the control stack (top last), the environment
/// arena, and the values printed so far.
#[derive(Debug)]
pub struct Machine {
    pub stack: Vec<Frame>,
    pub envs: Vec<EnvNode>,
    pub output: Vec<Expression>,
}

/// The model of a `Machine`.
pub struct MachineModel {
    pub stack: Seq<FrameModel>,
    pub envs: Seq<EnvNodeModel>,
    pub output: Seq<ExprModel>,
}

impl View for Machine {
    type V = MachineModel;

    open spec fn view(&self) -> MachineModel {
        MachineModel {
            stack: frames_model(self.stack@),
            envs: envs_model(self.envs@),
            output: exprs_model(self.output@),
        }
    }
}

pub open spec fn with_stack(m: MachineModel, stack: Seq<FrameModel>) -> MachineModel {
    MachineModel { stack, envs: m.envs, output: m.output }
}

pub open spec fn keyword(word: &str) -> ExprModel {
    ExprModel::Symbol(word@)
}

/// The words that open a special form.
pub open spec fn is_special_form(e: ExprModel) -> bool {
    ||| e == keyword("def")
    ||| e == keyword("if")
    ||| e == keyword("quote")
    ||| e == keyword("lambda")
    ||| e == keyword("call/cc")
}

/// The names of a parameter list, if every element is a symbol.
pub open spec fn param_names(ps: Seq<ExprModel>) -> Option<Seq<Seq<char>>> {
    if forall|i: int| 0 <= i < ps.len() ==> #[trigger] ps[i] is Symbol {
        Some(Seq::new(ps.len(), |i: int| ps[i]->Symbol_0))
    } else {
        None
    }
}

/// The bindings of a call: each parameter to the argument in its place.
pub open spec fn zip_bindings(names: Seq<Seq<char>>, values: Seq<ExprModel>) -> Seq<(Seq<char>, ExprModel)> {
    Seq::new(names.len(), |i: int| (names[i], values[i]))
}

pub open spec fn new_node(parent: usize, bindings: Seq<(Seq<char>, ExprModel)>) -> EnvNodeModel {
    EnvNodeModel { parent: Some(parent), bindings }
}

/// Beginning the evaluation of a list `es` in environment `k`; `m.stack` is
/// what lies beneath.
pub open spec fn list_spec(m: MachineModel, k: usize, es: Seq<ExprModel>) -> Result<MachineModel, EvalError> {
    let rest = m.stack;
    if es.len() == 0 {
        Err(EvalError::SyntaxError)
    } else if es[0] == keyword("quote") {
        if es.len() == 2 {
            Ok(with_stack(m, rest.push(FrameModel::Stop(k, es[1]))))
        } else {
            Err(EvalError::SyntaxError)
        }
    } else if es[0] == keyword("lambda") {
        if es.len() == 3 && es[1] is List && param_names(es[1]->List_0) is Some {
            let n = m.envs.len() as usize;
            let closure = ExprModel::Lambda(n, param_names(es[1]->List_0)->Some_0, Box::new(es[2]));
            Ok(
                MachineModel {
                    stack: rest.push(FrameModel::Stop(k, closure)),
                    envs: m.envs.push(new_node(k, Seq::empty())),
                    output: m.output,
                },
            )
        } else {
            Err(EvalError::SyntaxError)
        }
    } else if es[0] == keyword("def") {
        if es.len() == 3 && es[1] is Symbol {
            Ok(
                with_stack(
                    m,
                    rest.push(FrameModel::AddToEnv(k, es[1]->Symbol_0)).push(
                        FrameModel::Start(k, es[2]),
                    ),
                ),
            )
        } else {
            Err(EvalError::SyntaxError)
        }
    } else if es[0] == keyword("if") {
        if es.len() == 4 {
            Ok(
                with_stack(
                    m,
                    rest.push(FrameModel::PushBranch(k, es[2], es[3])).push(
                        FrameModel::Start(k, es[1]),
                    ),
                ),
            )
        } else {
            Err(EvalError::SyntaxError)
        }
    } else if es[0] == keyword("call/cc") {
        if es.len() == 2 {
            let captured = ExprModel::Continuation(rest);
            Ok(
                with_stack(
                    m,
                    rest.push(FrameModel::EvalFn(k, seq![captured])).push(
                        FrameModel::Start(k, es[1]),
                    ),
                ),
            )
        } else {
            Err(EvalError::SyntaxError)
        }
    } else {
        Ok(
            with_stack(
                m,
                rest.push(FrameModel::EvalFn(k, es.drop_first())).push(
                    FrameModel::Start(k, es[0]),
                ),
            ),
        )
    }
}

/// Beginning the evaluation of `e` in environment `k`.
pub open spec fn start_spec(m: MachineModel, k: usize, e: ExprModel) -> Result<MachineModel, EvalError> {
    match e {
        ExprModel::Symbol(s) => match lookup_spec(m.envs, k, s) {
            Some(v) => Ok(with_stack(m, m.stack.push(FrameModel::Stop(k, v)))),
            None => Err(EvalError::UnboundSymbol),
        },
        ExprModel::List(es) => list_spec(m, k, es),
        ExprModel::Function(_) => Err(EvalError::TypeError),
        ExprModel::Lambda(_, _, _) => Err(EvalError::TypeError),
        _ => Ok(with_stack(m, m.stack.push(FrameModel::Stop(k, e)))),
    }
}

/// Binding `name` to `v` in environment `k2`. A closure also gets the binding
/// in its own environment, so that it can call itself by that name.
pub open spec fn add_to_env_spec(m: MachineModel, k2: usize, name: Seq<char>, v: ExprModel) -> Result<MachineModel, EvalError> {
    let envs = match v {
        ExprModel::Lambda(c, _, _) => if c < m.envs.len() {
            Some(m.envs.update(c as int, EnvNodeModel {
                parent: m.envs[c as int].parent,
                bindings: m.envs[c as int].bindings.push((name, v)),
            }))
        } else {
            None
        },
        _ => Some(m.envs),
    };
    match envs {
        Some(envs) => Ok(
            MachineModel {
                stack: m.stack.push(FrameModel::Stop(envs.len() as usize, v)),
                envs: envs.push(new_node(k2, seq![(name, v)])),
                output: m.output,
            },
        ),
        None => Err(EvalError::InternalError),
    }
}

/// Handing the value `v`, produced in environment `k`, to the frame `next`
/// beneath it; `m.stack` is what lies beneath `next`.
pub open spec fn stop_spec(m: MachineModel, k: usize, v: ExprModel, next: FrameModel) -> Result<MachineModel, EvalError> {
    let below = m.stack;
    match next {
        FrameModel::PushBranch(k2, then_expr, else_expr) => match v {
            ExprModel::True => Ok(with_stack(m, below.push(FrameModel::Start(k2, then_expr)))),
            ExprModel::False => Ok(with_stack(m, below.push(FrameModel::Start(k2, else_expr)))),
            _ => Err(EvalError::NotBooleanError),
        },
        FrameModel::AddToEnv(k2, name) => add_to_env_spec(m, k2, name, v),
        FrameModel::EvalFn(k2, args) => Ok(
            with_stack(m, below.push(FrameModel::EvalArgs(k2, v, Seq::empty(), args))),
        ),
        FrameModel::EvalArgs(k2, f, done, todo) => Ok(
            with_stack(m, below.push(FrameModel::EvalArgs(k2, f, done.push(v), todo))),
        ),
        FrameModel::Start(_, e) => Ok(with_stack(m, below.push(FrameModel::Start(k, e)))),
        FrameModel::Stop(_, _) => Err(EvalError::InternalError),
    }
}

/// Calling `f` on `args` from environment `k`; `m.stack` is what lies beneath.
pub open spec fn apply_spec(m: MachineModel, k: usize, f: ExprModel, args: Seq<ExprModel>) -> Result<MachineModel, EvalError> {
    match f {
        ExprModel::Function(b) => match builtin_spec(b, args) {
            Ok(r) => Ok(
                MachineModel {
                    stack: m.stack.push(FrameModel::Stop(k, r)),
                    envs: m.envs,
                    output: if b == crate::core_types::BuiltinFunction::Println {
                        m.output.push(r)
                    } else {
                        m.output
                    },
                },
            ),
            Err(e) => Err(e),
        },
        ExprModel::Lambda(c, names, body) => if names.len() == args.len() {
            Ok(
                MachineModel {
                    stack: m.stack.push(FrameModel::Start(m.envs.len() as usize, *body)),
                    envs: m.envs.push(new_node(c, zip_bindings(names, args))),
                    output: m.output,
                },
            )
        } else {
            Err(EvalError::ArityError)
        },
        ExprModel::Continuation(st) => if args.len() > 0 {
            Ok(with_stack(m, st.push(FrameModel::Stop(k, args[0]))))
        } else {
            Err(EvalError::ArityError)
        },
        _ => Err(EvalError::NotCallableError),
    }
}

/// One transition of the machine.
pub open spec fn step_spec(m: MachineModel) -> Result<MachineModel, EvalError> {
    if m.stack.len() == 0 {
        Err(EvalError::InternalError)
    } else {
        let rest = m.stack.drop_last();
        match m.stack.last() {
            FrameModel::Start(k, e) => start_spec(with_stack(m, rest), k, e),
            FrameModel::Stop(k, v) => if rest.len() == 0 {
                Err(EvalError::InternalError)
            } else {
                stop_spec(with_stack(m, rest.drop_last()), k, v, rest.last())
            },
            FrameModel::EvalArgs(k, f, done, todo) => if todo.len() > 0 {
                Ok(
                    with_stack(
                        m,
                        rest.push(FrameModel::EvalArgs(k, f, done, todo.drop_first())).push(
                            FrameModel::Start(k, todo[0]),
                        ),
                    ),
                )
            } else {
                apply_spec(with_stack(m, rest), k, f, done)
            },
            _ => Err(EvalError::InternalError),
        }
    }
}

/// The machine about to evaluate a program: one `Start` frame per form, the
/// first form on top, all in the root environment.
pub open spec fn load_spec(prog: Seq<ExprModel>) -> MachineModel {
    MachineModel {
        stack: Seq::new(prog.len(), |i: int| FrameModel::Start(0, prog[prog.len() - 1 - i])),
        envs: seq![initial_env_model()],
        output: Seq::empty(),
    }
}

/// The value of a machine in its terminal state.
pub open spec fn final_value(m: MachineModel) -> ExprModel {
    m.stack[0]->Stop_1
}

/// Evaluating a program text: parse it, then run its forms in order for at most
/// `n` transitions. The result is the terminal machine.
pub open spec fn evaluate_spec(src: Seq<char>, n: nat) -> Result<MachineModel, EvalError> {
    match parse_spec(src) {
        Err(e) => Err(e),
        Ok(prog) => if prog.len() == 0 {
            Err(EvalError::SyntaxError)
        } else {
            match run_spec(load_spec(prog), n) {
                Ok(m) => if is_final(m) {
                    Ok(m)
                } else {
                    Err(EvalError::StepLimit)
                },
                Err(e) => Err(e),
            }
        },
    }
}

/// The terminal state: one frame, holding a finished value.
pub open spec fn is_final(m: MachineModel) -> bool {
    m.stack.len() == 1 && m.stack[0] is Stop
}

/// Up to `n` transitions, stopping early at the terminal state or an error.
pub open spec fn run_spec(m: MachineModel, n: nat) -> Result<MachineModel, EvalError>
    decreases n,
{
    if is_final(m) || n == 0 {
        Ok(m)
    } else {
        match step_spec(m) {
            Ok(m2) => run_spec(m2, (n - 1) as nat),
            Err(e) => Err(e),
        }
    }
}


/// Whether `word` is not one of the words that open a special form.
pub fn not_special_form(word: &Expression) -> (r: bool)
    ensures
        r == !is_special_form(word@),
{
    !(is_named(word, "def") || is_named(word, "if") || is_named(word, "quote") || is_named(
        word,
        "lambda",
    ) || is_named(word, "call/cc"))
}

/// The names of a parameter list, or `None` if an element is not a symbol.
pub fn args_to_strings(params: &Vec<Expression>) -> (r: Option<Vec<String>>)
    ensures
        match param_names(exprs_model(params@)) {
            Some(names) => r matches Some(v) && strings_model(v@) == names,
            None => r is None,
        },
{
    let ghost ps = exprs_model(params@);
    let mut names: Vec<String> = Vec::new();
    let mut i: usize = 0;
    while i < params.len()
        invariant
            i <= params@.len(),
            ps == exprs_model(params@),
            names@.len() == i,
            forall|j: int| 0 <= j < i ==> #[trigger] ps[j] is Symbol && ps[j]->Symbol_0 == names@[j]@,
        decreases params@.len() - i,
    {
        match &params[i] {
            Expression::Symbol(s) => names.push(s.clone()),
            _ => {
                assert(!(ps[i as int] is Symbol));
                return None;
            },
        }
        i = i + 1;
    }
    assert(strings_model(names@) =~= param_names(ps)->Some_0);
    Some(names)
}

/// The environment of a call: each parameter bound to its argument, above the
/// closure's own environment `parent`.
pub fn args_to_env(parent: usize, names: &Vec<String>, values: &Vec<Expression>) -> (r: EnvNode)
    requires
        names@.len() == values@.len(),
    ensures
        r@ == new_node(parent, zip_bindings(strings_model(names@), exprs_model(values@))),
{
    let mut bindings: Vec<Binding> = Vec::new();
    let mut i: usize = 0;
    while i < names.len()
        invariant
            i <= names@.len(),
            names@.len() == values@.len(),
            bindings@.len() == i,
            forall|j: int| 0 <= j < i ==> #[trigger] binding_model(bindings@[j]) == (names@[j]@, values@[j]@),
        decreases names@.len() - i,
    {
        bindings.push(Binding { name: names[i].clone(), value: copy_expr(&values[i]) });
        i = i + 1;
    }
    let r = EnvNode { parent: Some(parent), bindings };
    assert(r@.bindings =~= zip_bindings(strings_model(names@), exprs_model(values@)));
    r
}

impl Machine {
    /// Begins evaluating the list `es` in environment `env`.
    fn eval_list(&mut self, env: usize, es: Vec<Expression>) -> (r: Result<(), EvalError>)
        ensures
            match list_spec(old(self)@, env, exprs_model(es@)) {
                Ok(m2) => r is Ok && final(self)@ == m2,
                Err(e) => r == Err::<(), EvalError>(e),
            },
    {
        let ghost s = exprs_model(es@);
        let n = es.len();
        if n == 0 {
            return Err(EvalError::SyntaxError);
        }
        let ghost es0 = es@;
        let mut es = es;
        if not_special_form(&es[0]) {
            let first = es.remove(0);
            assert(es@ =~= es0.subrange(1, n as int)) by {
                assert(es0.remove(0) =~= es0.subrange(1, n as int));
            }
            assert(exprs_model(es@) =~= s.drop_first());
            self.stack.push(Frame::EvalFn(env, es));
            self.stack.push(Frame::Start(env, first));
            Ok(())
        } else if is_named(&es[0], "quote") {
            if n == 2 {
                let v = es.pop().unwrap();
                self.stack.push(Frame::Stop(env, v));
            Ok(())
            } else {
                Err(EvalError::SyntaxError)
            }
        } else if is_named(&es[0], "lambda") {
            if n != 3 {
                return Err(EvalError::SyntaxError);
            }
            let names = match &es[1] {
                Expression::List(ps) => args_to_strings(ps),
                _ => None,
            };
            match names {
                Some(names) => {
                    let body = es.pop().unwrap();
                    let k = self.envs.len();
                    self.envs.push(EnvNode { parent: Some(env), bindings: Vec::new() });
                    self.stack.push(Frame::Stop(env, Expression::Lambda(k, names, Box::new(body))));
                    assert(self@.envs[k as int].bindings =~= Seq::empty());
            Ok(())
                },
                None => Err(EvalError::SyntaxError),
            }
        } else if is_named(&es[0], "def") {
            if n != 3 {
                return Err(EvalError::SyntaxError);
            }
            let value_expr = es.pop().unwrap();
            let name_expr = es.pop().unwrap();
            match name_expr {
                Expression::Symbol(name) => {
                    self.stack.push(Frame::AddToEnv(env, name));
                    self.stack.push(Frame::Start(env, value_expr));
            Ok(())
                },
                _ => Err(EvalError::SyntaxError),
            }
        } else if is_named(&es[0], "if") {
            if n != 4 {
                return Err(EvalError::SyntaxError);
            }
            let else_expr = es.pop().unwrap();
            let then_expr = es.pop().unwrap();
            let cond_expr = es.pop().unwrap();
            self.stack.push(Frame::PushBranch(env, then_expr, else_expr));
            self.stack.push(Frame::Start(env, cond_expr));
            Ok(())
        } else {
            if n != 2 {
                return Err(EvalError::SyntaxError);
            }
            let func = es.pop().unwrap();
            let captured = copy_frames(&self.stack);
            let mut args: Vec<Expression> = Vec::new();
            args.push(Expression::Continuation(captured));
            assert(exprs_model(args@) =~= seq![ExprModel::Continuation(old(self)@.stack)]);
            self.stack.push(Frame::EvalFn(env, args));
            self.stack.push(Frame::Start(env, func));
            Ok(())
        }
    }

    /// Begins evaluating `expr` in environment `env`, above the current stack.
    pub fn eval_start(&mut self, env: usize, expr: Expression) -> (r: Result<(), EvalError>)
        ensures
            match start_spec(old(self)@, env, expr@) {
                Ok(m2) => r is Ok && final(self)@ == m2,
                Err(e) => r == Err::<(), EvalError>(e),
            },
    {
        match expr {
            Expression::Symbol(s) => match lookup(&self.envs, env, &s) {
                Some(v) => {
                    self.stack.push(Frame::Stop(env, v));
                    Ok(())
                },
                None => Err(EvalError::UnboundSymbol),
            },
            Expression::List(es) => self.eval_list(env, es),
            Expression::Function(_) => Err(EvalError::TypeError),
            Expression::Lambda(_, _, _) => Err(EvalError::TypeError),
            other => {
                self.stack.push(Frame::Stop(env, other));
                Ok(())
            },
        }
    }

    /// Binds `name` to `value` in a new environment above `env`; a closure also
    /// gets the binding in its own environment, in place.
    fn add_to_env(&mut self, env: usize, name: String, value: Expression) -> (r: Result<(), EvalError>)
        ensures
            match add_to_env_spec(old(self)@, env, name@, value@) {
                Ok(m2) => r is Ok && final(self)@ == m2,
                Err(e) => r == Err::<(), EvalError>(e),
            },
    {
        match &value {
            Expression::Lambda(c, _, _) => {
                let c = *c;
                if c >= self.envs.len() {
                    return Err(EvalError::InternalError);
                }
                let b = Binding { name: name.clone(), value: copy_expr(&value) };
                let ghost node0 = self.envs@[c as int];
                self.envs[c].bindings.push(b);
                assert(self.envs@[c as int]@.bindings =~= node0@.bindings.push((name@, value@)));
            },
            _ => {},
        }
        let k = self.envs.len();
        let mut bindings: Vec<Binding> = Vec::new();
        bindings.push(Binding { name, value: copy_expr(&value) });
        self.envs.push(EnvNode { parent: Some(env), bindings });
        assert(self.envs@[k as int]@.bindings =~= seq![(name@, value@)]);
        self.stack.push(Frame::Stop(k, value));
        Ok(())
    }

    /// Hands `value`, produced in environment `env`, to the frame `next`.
    fn eval_stop(&mut self, env: usize, value: Expression, next: Frame) -> (r: Result<(), EvalError>)
        ensures
            match stop_spec(old(self)@, env, value@, next@) {
                Ok(m2) => r is Ok && final(self)@ == m2,
                Err(e) => r == Err::<(), EvalError>(e),
            },
    {
        match next {
            Frame::PushBranch(k2, then_expr, else_expr) => match value {
                Expression::True => {
                    self.stack.push(Frame::Start(k2, then_expr));
                        Ok(())
                },
                Expression::False => {
                    self.stack.push(Frame::Start(k2, else_expr));
                        Ok(())
                },
                _ => Err(EvalError::NotBooleanError),
            },
            Frame::AddToEnv(k2, name) => self.add_to_env(k2, name, value),
            Frame::EvalFn(k2, args) => {
                let done: Vec<Expression> = Vec::new();
                assert(exprs_model(done@) =~= Seq::empty());
                self.stack.push(Frame::EvalArgs(k2, value, done, args));
                Ok(())
            },
            Frame::EvalArgs(k2, f, done, todo) => {
                let ghost done0 = done@;
                let mut done = done;
                done.push(value);
                assert(exprs_model(done@) == exprs_model(done0).push(value@));
                self.stack.push(Frame::EvalArgs(k2, f, done, todo));
                Ok(())
            },
            Frame::Start(_, e) => {
                self.stack.push(Frame::Start(env, e));
                Ok(())
            },
            Frame::Stop(_, _) => Err(EvalError::InternalError),
        }
    }

    /// Calls `fun` on the evaluated `args`, from environment `env`.
    pub fn apply(&mut self, env: usize, fun: Expression, args: Vec<Expression>) -> (r: Result<(), EvalError>)
        ensures
            match apply_spec(old(self)@, env, fun@, exprs_model(args@)) {
                Ok(m2) => r is Ok && final(self)@ == m2,
                Err(e) => r == Err::<(), EvalError>(e),
            },
    {
        match fun {
            Expression::Function(b) => match builtin_apply(b, args) {
                Ok(v) => {
                    if b == BuiltinFunction::Println {
                        self.output.push(copy_expr(&v));
                    }
                    self.stack.push(Frame::Stop(env, v));
                    Ok(())
                },
                Err(e) => Err(e),
            },
            Expression::Lambda(c, names, body) => {
                if names.len() != args.len() {
                    return Err(EvalError::ArityError);
                }
                let node = args_to_env(c, &names, &args);
                let k = self.envs.len();
                self.envs.push(node);
                self.stack.push(Frame::Start(k, *body));
                Ok(())
            },
            Expression::Continuation(captured) => {
                if args.len() == 0 {
                    return Err(EvalError::ArityError);
                }
                let mut args = args;
                let first = args.swap_remove(0);
                let mut stack = captured;
                stack.push(Frame::Stop(env, first));
                self.stack = stack;
                Ok(())
            },
            _ => Err(EvalError::NotCallableError),
        }
    }

    /// One transition: pops the top frame and dispatches on it. Errors are
    /// fatal: after one, the machine is not to be stepped again.
    pub fn eval_frame(&mut self) -> (r: Result<(), EvalError>)
        ensures
            match step_spec(old(self)@) {
                Ok(m2) => r is Ok && final(self)@ == m2,
                Err(e) => r == Err::<(), EvalError>(e),
            },
    {
        let ghost m0 = self@;
        match self.stack.pop() {
            None => Err(EvalError::InternalError),
            Some(Frame::Start(k, e)) => {
                assert(self@ == with_stack(m0, m0.stack.drop_last()));
                self.eval_start(k, e)
            },
            Some(Frame::Stop(k, v)) => {
                let ghost m1 = self@;
                match self.stack.pop() {
                    None => Err(EvalError::InternalError),
                    Some(next) => {
                        assert(m1.stack =~= m0.stack.drop_last());
                        assert(self@ == with_stack(m0, m1.stack.drop_last()));
                        self.eval_stop(k, v, next)
                    },
                }
            },
            Some(Frame::EvalArgs(k, f, done, todo)) => {
                assert(self@ == with_stack(m0, m0.stack.drop_last()));
                if todo.len() > 0 {
                    let ghost todo0 = todo@;
                    let mut todo = todo;
                    let first = todo.remove(0);
                    assert(todo@ =~= todo0.subrange(1, todo0.len() as int)) by {
                        assert(todo0.remove(0) =~= todo0.subrange(1, todo0.len() as int));
                    }
                    assert(exprs_model(todo@) =~= exprs_model(todo0).drop_first());
                    self.stack.push(Frame::EvalArgs(k, f, done, todo));
                    self.stack.push(Frame::Start(k, first));
                    Ok(())
                } else {
                    self.apply(k, f, done)
                }
            },
            Some(_) => Err(EvalError::InternalError),
        }
    }

    /// Whether the machine has reached its terminal state.
    pub fn is_done(&self) -> (r: bool)
        ensures
            r == is_final(self@),
    {
        self.stack.len() == 1 && match &self.stack[0] {
            Frame::Stop(_, _) => true,
            _ => false,
        }
    }

    /// The trampoline: repeats the transition until the terminal state, an
    /// error, or `max_steps` transitions. Returns whether it finished.
    pub fn eval_stepper(&mut self, max_steps: u64) -> (r: Result<bool, EvalError>)
        ensures
            match run_spec(old(self)@, max_steps as nat) {
                Ok(m2) => r == Ok::<bool, EvalError>(is_final(m2)) && final(self)@ == m2,
                Err(e) => r == Err::<bool, EvalError>(e),
            },
    {
        let mut i: u64 = 0;
        loop
            invariant
                i <= max_steps,
                run_spec(self@, (max_steps - i) as nat) == run_spec(old(self)@, max_steps as nat),
            decreases max_steps - i,
        {
            if self.is_done() {
                return Ok(true);
            }
            if i == max_steps {
                return Ok(false);
            }
            match self.eval_frame() {
                Ok(()) => {},
                Err(e) => {
                    return Err(e);
                },
            }
            i = i + 1;
        }
    }

    /// A machine about to evaluate `program`, form by form, from the root
    /// environment.
    pub fn new(program: Vec<Expression>) -> (r: Machine)
        ensures
            r@ == load_spec(exprs_model(program@)),
    {
        let ghost prog = exprs_model(program@);
        let n = program.len();
        let mut program = program;
        let mut stack: Vec<Frame> = Vec::new();
        let mut i: usize = 0;
        while i < n
            invariant
                i <= n,
                n == prog.len(),
                program@.len() == n - i,
                exprs_model(program@) == prog.take(n - i),
                stack@.len() == i,
                forall|j: int| 0 <= j < i ==> #[trigger] frames_model(stack@)[j] == FrameModel::Start(0, prog[n - 1 - j]),
            decreases n - i,
        {
            let ghost p0 = program@;
            let e = program.pop().unwrap();
            assert(exprs_model(program@) =~= prog.take(n - i - 1)) by {
                assert(program@ =~= p0.subrange(0, n - i - 1));
            }
            assert(e@ == prog.take(n - i)[n - i - 1]);
            stack.push(Frame::Start(0, e));
            i = i + 1;
        }
        let mut envs: Vec<EnvNode> = Vec::new();
        envs.push(environment());
        let output: Vec<Expression> = Vec::new();
        let r = Machine { stack, envs, output };
        assert(r@.stack =~= load_spec(prog).stack);
        assert(r@.envs =~= load_spec(prog).envs);
        assert(r@.output =~= load_spec(prog).output);
        r
    }

    /// The environment and value of a finished evaluation.
    pub fn into_result(self) -> (r: (usize, Expression))
        requires
            is_final(self@),
        ensures
            self@.stack[0] == FrameModel::Stop(r.0, r.1@),
    {
        let mut stack = self.stack;
        match stack.pop().unwrap() {
            Frame::Stop(k, v) => (k, v),
            _ => (0, Expression::True),
        }
    }

    /// Takes the values printed since the last call.
    pub fn take_output(&mut self) -> (r: Vec<Expression>)
        ensures
            exprs_model(r@) == old(self)@.output,
            final(self)@ == (MachineModel { output: Seq::empty(), ..old(self)@ }),
    {
        let mut r: Vec<Expression> = Vec::new();
        r.append(&mut self.output);
        assert(exprs_model(self.output@) =~= Seq::empty());
        r
    }
}

} // verus!

verus! {

/// Evaluates every form of a program text in order, each in the environment
/// the previous one produced, within `max_steps` transitions. Returns the
/// finished machine.
pub fn eval_expressions(code: &str, max_steps: u64) -> (r: Result<Machine, EvalError>)
    ensures
        match evaluate_spec(code@, max_steps as nat) {
            Ok(m) => r matches Ok(mc) && mc@ == m,
            Err(e) => r is Err && r->Err_0 == e,
        },
{
    let program = match parse(code) {
        Ok(p) => p,
        Err(e) => {
            return Err(e);
        },
    };
    if program.len() == 0 {
        return Err(EvalError::SyntaxError);
    }
    let mut m = Machine::new(program);
    match m.eval_stepper(max_steps) {
        Ok(true) => Ok(m),
        Ok(false) => Err(EvalError::StepLimit),
        Err(e) => Err(e),
    }
}

/// The value of the last form of a program text, evaluated within `max_steps`
/// transitions.
pub fn eval_once_off(code: &str, max_steps: u64) -> (r: Result<Expression, EvalError>)
    ensures
        match evaluate_spec(code@, max_steps as nat) {
            Ok(m) => r matches Ok(v) && v@ == final_value(m),
            Err(e) => r == Err::<Expression, EvalError>(e),
        },
{
    match eval_expressions(code, max_steps) {
        Ok(m) => {
            let (_, v) = m.into_result();
            Ok(v)
        },
        Err(e) => Err(e),
    }
}

} // verus!
