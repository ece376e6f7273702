//! Properties of the machine that relate several transitions or hold of every state.
use crate::core_types::{EvalError, ExprModel, FrameModel};
use crate::env::EnvNodeModel;
use crate::env::{find_binding, lookup_spec};
use crate::machine::{
    add_to_env_spec, apply_spec, evaluate_spec, final_value, is_final, list_spec, load_spec,
    new_node, run_spec, start_spec, step_spec, stop_spec, with_stack, zip_bindings, MachineModel,
};
use crate::printer::{lemma_lex_tokens, lemma_read_wf, wf_all, wf_literal};
use crate::reader::{lex, parse_spec};
use crate::standard_library::{builtin_spec, initial_env_model};
use vstd::prelude::*;

verus! {

/// A boolean or a number, evaluated as a whole program, is its own value: the
/// machine finishes after one transition, whatever the step budget beyond it.
pub proof fn lemma_literal_evaluates_to_itself(e: ExprModel, n: nat)
    requires
        e is True || e is False || e is Number,
        n >= 1,
    ensures
        run_spec(load_spec(seq![e]), n) is Ok,
        is_final(run_spec(load_spec(seq![e]), n)->Ok_0),
        final_value(run_spec(load_spec(seq![e]), n)->Ok_0) == e,
{
    let m = load_spec(seq![e]);
    assert(m.stack =~= seq![FrameModel::Start(0, e)]);
    let m1 = step_spec(m)->Ok_0;
    assert(m.stack.drop_last() =~= Seq::<FrameModel>::empty());
    assert(m1.stack =~= seq![FrameModel::Stop(0, e)]);
    assert(is_final(m1));
    assert(run_spec(m1, (n - 1) as nat) == Ok::<MachineModel, EvalError>(m1));
}

/// A boolean handed to a pending `if` starts exactly the branch it selects, in
/// the `if`'s environment; nothing else runs and nothing is printed.
pub proof fn lemma_branch_selection(
    m: MachineModel,
    k: usize,
    b: ExprModel,
    k2: usize,
    then_expr: ExprModel,
    else_expr: ExprModel,
)
    requires
        b is True || b is False,
        m.stack.len() >= 2,
        m.stack.last() == FrameModel::Stop(k, b),
        m.stack[m.stack.len() - 2] == FrameModel::PushBranch(k2, then_expr, else_expr),
    ensures
        step_spec(m) == Ok::<MachineModel, EvalError>(
            with_stack(
                m,
                m.stack.subrange(0, m.stack.len() - 2).push(
                    FrameModel::Start(k2, if b is True { then_expr } else { else_expr }),
                ),
            ),
        ),
{
    assert(m.stack.drop_last().drop_last() =~= m.stack.subrange(0, m.stack.len() - 2));
    assert(m.stack.drop_last().last() == m.stack[m.stack.len() - 2]);
}

/// Calling a continuation discards the current stack: the next state is the
/// captured stack with the first argument as its value, the same whatever the
/// stacks of the two calling states hold. A continuation can thus be resumed any
/// number of times, each time from the same captured state.
pub proof fn lemma_continuation_resume(
    m1: MachineModel,
    m2: MachineModel,
    k: usize,
    captured: Seq<FrameModel>,
    args: Seq<ExprModel>,
)
    requires
        args.len() > 0,
        m1.envs == m2.envs,
        m1.output == m2.output,
    ensures
        apply_spec(m1, k, ExprModel::Continuation(captured), args) == Ok::<MachineModel, EvalError>(
            with_stack(m1, captured.push(FrameModel::Stop(k, args[0]))),
        ),
        apply_spec(m1, k, ExprModel::Continuation(captured), args) == apply_spec(
            m2,
            k,
            ExprModel::Continuation(captured),
            args,
        ),
{
}

/// Each misuse fails with its own kind: a closure called with the wrong number
/// of arguments, a call of a value that is not a function, and an `if` whose
/// condition is not a boolean.
pub proof fn lemma_error_kinds(m: MachineModel, k: usize, f: ExprModel, args: Seq<ExprModel>, v: ExprModel)
    ensures
        f matches ExprModel::Lambda(_, names, _) && names.len() != args.len() ==> apply_spec(m, k, f, args)
            == Err::<MachineModel, EvalError>(EvalError::ArityError),
        (f is True || f is False || f is Number || f is Symbol || f is List) ==> apply_spec(m, k, f, args)
            == Err::<MachineModel, EvalError>(EvalError::NotCallableError),
        !(v is True || v is False) && m.stack.len() >= 2 && m.stack.last() == FrameModel::Stop(k, v)
            && m.stack[m.stack.len() - 2] is PushBranch ==> step_spec(m) == Err::<MachineModel, EvalError>(
            EvalError::NotBooleanError,
        ),
{
    if !(v is True || v is False) && m.stack.len() >= 2 && m.stack.last() == FrameModel::Stop(k, v)
        && m.stack[m.stack.len() - 2] is PushBranch {
        assert(m.stack.drop_last().last() == m.stack[m.stack.len() - 2]);
    }
}

/// Calling a closure replaces the finished call frame with the start of the
/// body: the control stack keeps its depth, so calls in tail position, such as
/// a self-recursive call in a branch of an `if`, run in constant stack space.
pub proof fn lemma_call_keeps_stack_depth(
    m: MachineModel,
    k: usize,
    c: usize,
    names: Seq<Seq<char>>,
    body: ExprModel,
    args: Seq<ExprModel>,
)
    requires
        m.stack.len() >= 1,
        m.stack.last() == FrameModel::EvalArgs(
            k,
            ExprModel::Lambda(c, names, Box::new(body)),
            args,
            Seq::empty(),
        ),
        names.len() == args.len(),
    ensures
        step_spec(m) is Ok,
        step_spec(m)->Ok_0.stack == m.stack.drop_last().push(FrameModel::Start(m.envs.len() as usize, body)),
        step_spec(m)->Ok_0.stack.len() == m.stack.len(),
{
}

/// Every environment index in `e` names one of the first `n` nodes of the
/// arena, and every continuation in it holds a stack with no finished value.
pub open spec fn expr_ok(e: ExprModel, n: nat) -> bool
    decreases e,
{
    match e {
        ExprModel::List(es) => forall|i: int| 0 <= i < es.len() ==> expr_ok(#[trigger] es[i], n),
        ExprModel::Lambda(c, _, body) => c < n && expr_ok(*body, n),
        ExprModel::Continuation(st) => forall|i: int|
            0 <= i < st.len() ==> frame_ok(#[trigger] st[i], n) && !(st[i] is Stop),
        _ => true,
    }
}

/// `expr_ok` for every index and value that a frame holds.
pub open spec fn frame_ok(f: FrameModel, n: nat) -> bool
    decreases f,
{
    match f {
        FrameModel::Start(k, e) => k < n && expr_ok(e, n),
        FrameModel::AddToEnv(k, _) => k < n,
        FrameModel::PushBranch(k, t, e) => k < n && expr_ok(t, n) && expr_ok(e, n),
        FrameModel::EvalFn(k, args) => k < n && forall|i: int|
            0 <= i < args.len() ==> expr_ok(#[trigger] args[i], n),
        FrameModel::EvalArgs(k, fun, done, todo) => {
            &&& k < n
            &&& expr_ok(fun, n)
            &&& forall|i: int| 0 <= i < done.len() ==> expr_ok(#[trigger] done[i], n)
            &&& forall|i: int| 0 <= i < todo.len() ==> expr_ok(#[trigger] todo[i], n)
        },
        FrameModel::Stop(k, v) => k < n && expr_ok(v, n),
    }
}

pub open spec fn all_ok(es: Seq<ExprModel>, n: nat) -> bool {
    forall|i: int| 0 <= i < es.len() ==> expr_ok(#[trigger] es[i], n)
}

/// Each node's parent precedes it, and every bound value is `expr_ok`.
pub open spec fn envs_ok(envs: Seq<EnvNodeModel>) -> bool {
    &&& forall|j: int| 0 <= j < envs.len() && (#[trigger] envs[j]).parent is Some ==> envs[j].parent->Some_0 < j
    &&& forall|j: int, b: int|
        0 <= j < envs.len() && 0 <= b < envs[j].bindings.len() ==> expr_ok(
            #[trigger] envs[j].bindings[b].1,
            envs.len() as nat,
        )
}

/// A stack of pending frames below the one being dispatched: every frame
/// `frame_ok`, and none a finished value.
pub open spec fn pending_ok(st: Seq<FrameModel>, n: nat) -> bool {
    forall|i: int| 0 <= i < st.len() ==> frame_ok(#[trigger] st[i], n) && !(st[i] is Stop)
}

/// The invariant of evaluation: the stack is not empty; only its top frame may
/// be a finished value; the top is a frame that the machine dispatches on
/// (`Start`, `Stop` or `EvalArgs`, never `PushBranch`, `AddToEnv` or `EvalFn`);
/// and every environment index, in frames, values and closures, names a node
/// of the arena.
pub open spec fn wf(m: MachineModel) -> bool {
    let n = m.envs.len() as nat;
    &&& m.stack.len() >= 1
    &&& envs_ok(m.envs)
    &&& pending_ok(m.stack.drop_last(), n)
    &&& frame_ok(m.stack.last(), n)
    &&& (m.stack.last() is Start || m.stack.last() is Stop || m.stack.last() is EvalArgs)
}

proof fn lemma_expr_ok_mono(e: ExprModel, n: nat, n2: nat)
    requires
        expr_ok(e, n),
        n <= n2,
    ensures
        expr_ok(e, n2),
    decreases e,
{
    match e {
        ExprModel::List(es) => {
            assert forall|i: int| 0 <= i < es.len() implies expr_ok(#[trigger] es[i], n2) by {
                lemma_expr_ok_mono(es[i], n, n2);
            }
        },
        ExprModel::Lambda(c, _, body) => {
            lemma_expr_ok_mono(*body, n, n2);
        },
        ExprModel::Continuation(st) => {
            assert forall|i: int| 0 <= i < st.len() implies frame_ok(#[trigger] st[i], n2) by {
                lemma_frame_ok_mono(st[i], n, n2);
            }
        },
        _ => {},
    }
}

proof fn lemma_frame_ok_mono(f: FrameModel, n: nat, n2: nat)
    requires
        frame_ok(f, n),
        n <= n2,
    ensures
        frame_ok(f, n2),
    decreases f,
{
    match f {
        FrameModel::Start(k, e) => lemma_expr_ok_mono(e, n, n2),
        FrameModel::AddToEnv(k, _) => {},
        FrameModel::PushBranch(k, t, e) => {
            lemma_expr_ok_mono(t, n, n2);
            lemma_expr_ok_mono(e, n, n2);
        },
        FrameModel::EvalFn(k, args) => {
            assert forall|i: int| 0 <= i < args.len() implies expr_ok(#[trigger] args[i], n2) by {
                lemma_expr_ok_mono(args[i], n, n2);
            }
        },
        FrameModel::EvalArgs(k, fun, done, todo) => {
            lemma_expr_ok_mono(fun, n, n2);
            assert forall|i: int| 0 <= i < done.len() implies expr_ok(#[trigger] done[i], n2) by {
                lemma_expr_ok_mono(done[i], n, n2);
            }
            assert forall|i: int| 0 <= i < todo.len() implies expr_ok(#[trigger] todo[i], n2) by {
                lemma_expr_ok_mono(todo[i], n, n2);
            }
        },
        FrameModel::Stop(k, v) => lemma_expr_ok_mono(v, n, n2),
    }
}

proof fn lemma_all_ok_mono(es: Seq<ExprModel>, n: nat, n2: nat)
    requires
        all_ok(es, n),
        n <= n2,
    ensures
        all_ok(es, n2),
{
    assert forall|i: int| 0 <= i < es.len() implies expr_ok(#[trigger] es[i], n2) by {
        lemma_expr_ok_mono(es[i], n, n2);
    }
}

proof fn lemma_pending_mono(st: Seq<FrameModel>, n: nat, n2: nat)
    requires
        pending_ok(st, n),
        n <= n2,
    ensures
        pending_ok(st, n2),
{
    assert forall|i: int| 0 <= i < st.len() implies frame_ok(#[trigger] st[i], n2) && !(st[i] is Stop) by {
        lemma_frame_ok_mono(st[i], n, n2);
    }
}

proof fn lemma_envs_push(envs: Seq<EnvNodeModel>, node: EnvNodeModel)
    requires
        envs_ok(envs),
        node.parent is Some ==> node.parent->Some_0 < envs.len(),
        forall|b: int| 0 <= b < node.bindings.len() ==> expr_ok(#[trigger] node.bindings[b].1, (envs.len() + 1) as nat),
    ensures
        envs_ok(envs.push(node)),
{
    let e2 = envs.push(node);
    let n2 = (envs.len() + 1) as nat;
    assert forall|j: int, b: int| 0 <= j < e2.len() && 0 <= b < e2[j].bindings.len() implies expr_ok(
        #[trigger] e2[j].bindings[b].1,
        e2.len() as nat,
    ) by {
        if j < envs.len() {
            lemma_expr_ok_mono(envs[j].bindings[b].1, envs.len() as nat, n2);
        }
    }
}

proof fn lemma_envs_bind(envs: Seq<EnvNodeModel>, c: int, name: Seq<char>, v: ExprModel)
    requires
        envs_ok(envs),
        0 <= c < envs.len(),
        expr_ok(v, envs.len() as nat),
    ensures
        envs_ok(
            envs.update(
                c,
                EnvNodeModel { parent: envs[c].parent, bindings: envs[c].bindings.push((name, v)) },
            ),
        ),
{
    let e2 = envs.update(c, EnvNodeModel { parent: envs[c].parent, bindings: envs[c].bindings.push((name, v)) });
    assert forall|j: int| 0 <= j < e2.len() && (#[trigger] e2[j]).parent is Some implies e2[j].parent->Some_0 < j by {
        assert(e2[j].parent == envs[j].parent);
    }
    assert forall|j: int, b: int| 0 <= j < e2.len() && 0 <= b < e2[j].bindings.len() implies expr_ok(
        #[trigger] e2[j].bindings[b].1,
        e2.len() as nat,
    ) by {
        if j != c || b < envs[c].bindings.len() {
            assert(e2[j].bindings[b] == envs[j].bindings[b]);
        }
    }
}

proof fn lemma_find_ok(bs: Seq<(Seq<char>, ExprModel)>, name: Seq<char>, n: nat)
    requires
        forall|b: int| 0 <= b < bs.len() ==> expr_ok(#[trigger] bs[b].1, n),
    ensures
        find_binding(bs, name) matches Some(v) ==> expr_ok(v, n),
    decreases bs.len(),
{
    if bs.len() > 0 {
        lemma_find_ok(bs.drop_last(), name, n);
    }
}

proof fn lemma_lookup_ok(envs: Seq<EnvNodeModel>, k: usize, name: Seq<char>)
    requires
        envs_ok(envs),
    ensures
        lookup_spec(envs, k, name) matches Some(v) ==> expr_ok(v, envs.len() as nat),
    decreases k,
{
    if k < envs.len() {
        lemma_find_ok(envs[k as int].bindings, name, envs.len() as nat);
        match envs[k as int].parent {
            Some(p) => if p < k {
                lemma_lookup_ok(envs, p, name);
            },
            None => {},
        }
    }
}

/// The state after pushing `frames` on a stack of pending frames.
proof fn lemma_push_wf(m: MachineModel, pending: Seq<FrameModel>, top: FrameModel)
    requires
        envs_ok(m.envs),
        pending_ok(pending, m.envs.len() as nat),
        frame_ok(top, m.envs.len() as nat),
        top is Start || top is Stop || top is EvalArgs,
    ensures
        wf(with_stack(m, pending.push(top))),
{
    assert(pending.push(top).drop_last() =~= pending);
}

proof fn lemma_list_wf(m: MachineModel, k: usize, es: Seq<ExprModel>)
    requires
        envs_ok(m.envs),
        pending_ok(m.stack, m.envs.len() as nat),
        k < m.envs.len(),
        all_ok(es, m.envs.len() as nat),
    ensures
        list_spec(m, k, es) != Err::<MachineModel, EvalError>(EvalError::InternalError),
        list_spec(m, k, es) is Ok ==> wf(list_spec(m, k, es)->Ok_0),
{
    let n = m.envs.len() as nat;
    let rest = m.stack;
    if es.len() == 0 {
    } else if es[0] == crate::machine::keyword("quote") {
        if es.len() == 2 {
            lemma_push_wf(m, rest, FrameModel::Stop(k, es[1]));
        }
    } else if es[0] == crate::machine::keyword("lambda") {
        if list_spec(m, k, es) is Ok {
            let r = list_spec(m, k, es)->Ok_0;
            let node = new_node(k, Seq::empty());
            lemma_envs_push(m.envs, node);
            lemma_pending_mono(rest, n, n + 1);
            lemma_expr_ok_mono(es[2], n, n + 1);
            lemma_push_wf(r, rest, r.stack.last());
            assert(rest.push(r.stack.last()) =~= r.stack);
        }
    } else if es[0] == crate::machine::keyword("def") {
        if es.len() == 3 && es[1] is Symbol {
            let p = rest.push(FrameModel::AddToEnv(k, es[1]->Symbol_0));
            assert(pending_ok(p, n));
            lemma_push_wf(m, p, FrameModel::Start(k, es[2]));
        }
    } else if es[0] == crate::machine::keyword("if") {
        if es.len() == 4 {
            let p = rest.push(FrameModel::PushBranch(k, es[2], es[3]));
            assert(pending_ok(p, n));
            lemma_push_wf(m, p, FrameModel::Start(k, es[1]));
        }
    } else if es[0] == crate::machine::keyword("call/cc") {
        if es.len() == 2 {
            let captured = ExprModel::Continuation(rest);
            assert(expr_ok(captured, n));
            let args = seq![captured];
            assert(frame_ok(FrameModel::EvalFn(k, args), n));
            let p = rest.push(FrameModel::EvalFn(k, args));
            assert(pending_ok(p, n));
            lemma_push_wf(m, p, FrameModel::Start(k, es[1]));
        }
    } else {
        let tail = es.drop_first();
        assert(frame_ok(FrameModel::EvalFn(k, tail), n)) by {
            assert forall|i: int| 0 <= i < tail.len() implies expr_ok(#[trigger] tail[i], n) by {
                assert(tail[i] == es[i + 1]);
            }
        }
        let p = rest.push(FrameModel::EvalFn(k, tail));
        assert(pending_ok(p, n));
        lemma_push_wf(m, p, FrameModel::Start(k, es[0]));
    }
}

proof fn lemma_start_wf(m: MachineModel, k: usize, e: ExprModel)
    requires
        envs_ok(m.envs),
        pending_ok(m.stack, m.envs.len() as nat),
        frame_ok(FrameModel::Start(k, e), m.envs.len() as nat),
    ensures
        start_spec(m, k, e) != Err::<MachineModel, EvalError>(EvalError::InternalError),
        start_spec(m, k, e) is Ok ==> wf(start_spec(m, k, e)->Ok_0),
{
    match e {
        ExprModel::Symbol(s) => {
            lemma_lookup_ok(m.envs, k, s);
            if let Some(v) = lookup_spec(m.envs, k, s) {
                lemma_push_wf(m, m.stack, FrameModel::Stop(k, v));
            }
        },
        ExprModel::List(es) => lemma_list_wf(m, k, es),
        ExprModel::Function(_) => {},
        ExprModel::Lambda(_, _, _) => {},
        _ => lemma_push_wf(m, m.stack, FrameModel::Stop(k, e)),
    }
}

proof fn lemma_stop_wf(m: MachineModel, k: usize, v: ExprModel, next: FrameModel)
    requires
        envs_ok(m.envs),
        pending_ok(m.stack, m.envs.len() as nat),
        frame_ok(FrameModel::Stop(k, v), m.envs.len() as nat),
        frame_ok(next, m.envs.len() as nat),
        !(next is Stop),
    ensures
        stop_spec(m, k, v, next) != Err::<MachineModel, EvalError>(EvalError::InternalError),
        stop_spec(m, k, v, next) is Ok ==> wf(stop_spec(m, k, v, next)->Ok_0),
{
    let n = m.envs.len() as nat;
    let below = m.stack;
    match next {
        FrameModel::PushBranch(k2, t, e) => {
            lemma_push_wf(m, below, FrameModel::Start(k2, t));
            lemma_push_wf(m, below, FrameModel::Start(k2, e));
        },
        FrameModel::AddToEnv(k2, name) => {
            let envs1 = match v {
                ExprModel::Lambda(c, _, _) => {
                    lemma_envs_bind(m.envs, c as int, name, v);
                    m.envs.update(c as int, EnvNodeModel {
                        parent: m.envs[c as int].parent,
                        bindings: m.envs[c as int].bindings.push((name, v)),
                    })
                },
                _ => m.envs,
            };
            assert(envs_ok(envs1));
            lemma_expr_ok_mono(v, n, n + 1);
            let node = new_node(k2, seq![(name, v)]);
            lemma_envs_push(envs1, node);
            lemma_pending_mono(below, n, n + 1);
            let r = add_to_env_spec(m, k2, name, v)->Ok_0;
            assert(r.envs == envs1.push(node));
            lemma_push_wf(r, below, FrameModel::Stop(n as usize, v));
            assert(r.stack == below.push(FrameModel::Stop(n as usize, v)));
        },
        FrameModel::EvalFn(k2, args) => {
            lemma_push_wf(m, below, FrameModel::EvalArgs(k2, v, Seq::empty(), args));
        },
        FrameModel::EvalArgs(k2, f, done, todo) => {
            let d2 = done.push(v);
            assert(frame_ok(FrameModel::EvalArgs(k2, f, d2, todo), n)) by {
                assert forall|i: int| 0 <= i < d2.len() implies expr_ok(#[trigger] d2[i], n) by {
                    if i < done.len() {
                        assert(d2[i] == done[i]);
                    }
                }
            }
            lemma_push_wf(m, below, FrameModel::EvalArgs(k2, f, d2, todo));
        },
        FrameModel::Start(_, e) => {
            lemma_push_wf(m, below, FrameModel::Start(k, e));
        },
        FrameModel::Stop(_, _) => {},
    }
}

proof fn lemma_builtin_ok(b: crate::core_types::BuiltinFunction, args: Seq<ExprModel>, n: nat)
    requires
        all_ok(args, n),
    ensures
        builtin_spec(b, args) matches Ok(r) ==> expr_ok(r, n),
{
    if args.len() > 0 {
        assert(expr_ok(args[0], n));
    }
}

proof fn lemma_apply_wf(m: MachineModel, k: usize, f: ExprModel, args: Seq<ExprModel>)
    requires
        envs_ok(m.envs),
        pending_ok(m.stack, m.envs.len() as nat),
        k < m.envs.len(),
        expr_ok(f, m.envs.len() as nat),
        all_ok(args, m.envs.len() as nat),
    ensures
        apply_spec(m, k, f, args) != Err::<MachineModel, EvalError>(EvalError::InternalError),
        apply_spec(m, k, f, args) is Ok ==> wf(apply_spec(m, k, f, args)->Ok_0),
{
    let n = m.envs.len() as nat;
    match f {
        ExprModel::Function(b) => {
            lemma_builtin_ok(b, args, n);
            if let Ok(r) = builtin_spec(b, args) {
                let m2 = apply_spec(m, k, f, args)->Ok_0;
                lemma_push_wf(m2, m.stack, FrameModel::Stop(k, r));
            }
        },
        ExprModel::Lambda(c, names, body) => {
            if names.len() == args.len() {
                let zs = zip_bindings(names, args);
                lemma_all_ok_mono(args, n, n + 1);
                assert forall|b: int| 0 <= b < zs.len() implies expr_ok(#[trigger] zs[b].1, n + 1) by {
                    assert(zs[b].1 == args[b]);
                }
                lemma_envs_push(m.envs, new_node(c, zs));
                lemma_pending_mono(m.stack, n, n + 1);
                lemma_expr_ok_mono(*body, n, n + 1);
                let m2 = apply_spec(m, k, f, args)->Ok_0;
                lemma_push_wf(m2, m.stack, FrameModel::Start(n as usize, *body));
            }
        },
        ExprModel::Continuation(st) => {
            if args.len() > 0 {
                assert(pending_ok(st, n));
                lemma_push_wf(m, st, FrameModel::Stop(k, args[0]));
            }
        },
        _ => {},
    }
}

/// From a well-formed state that is not finished, a transition never fails
/// with `InternalError`, and the state it reaches is well-formed.
pub proof fn lemma_step_keeps_wf(m: MachineModel)
    requires
        wf(m),
        !is_final(m),
    ensures
        step_spec(m) != Err::<MachineModel, EvalError>(EvalError::InternalError),
        step_spec(m) is Ok ==> wf(step_spec(m)->Ok_0),
{
    let n = m.envs.len() as nat;
    let rest = m.stack.drop_last();
    match m.stack.last() {
        FrameModel::Start(k, e) => {
            lemma_start_wf(with_stack(m, rest), k, e);
        },
        FrameModel::Stop(k, v) => {
            assert(rest.len() >= 1);
            let next = rest.last();
            assert(frame_ok(next, n) && !(next is Stop));
            let below = rest.drop_last();
            assert(pending_ok(below, n)) by {
                assert forall|i: int| 0 <= i < below.len() implies frame_ok(#[trigger] below[i], n) && !(below[i] is Stop) by {
                    assert(below[i] == rest[i]);
                }
            }
            lemma_stop_wf(with_stack(m, below), k, v, next);
        },
        FrameModel::EvalArgs(k, f, done, todo) => {
            if todo.len() > 0 {
                let tail = todo.drop_first();
                let pend = FrameModel::EvalArgs(k, f, done, tail);
                assert(frame_ok(pend, n)) by {
                    assert forall|i: int| 0 <= i < tail.len() implies expr_ok(#[trigger] tail[i], n) by {
                        assert(tail[i] == todo[i + 1]);
                    }
                }
                let p = rest.push(pend);
                assert(pending_ok(p, n));
                lemma_push_wf(m, p, FrameModel::Start(k, todo[0]));
            } else {
                lemma_apply_wf(with_stack(m, rest), k, f, done);
            }
        },
        _ => {},
    }
}

/// Running from a well-formed state never fails with `InternalError`, and
/// stops in a well-formed state.
pub proof fn lemma_run_keeps_wf(m: MachineModel, n: nat)
    requires
        wf(m),
    ensures
        run_spec(m, n) != Err::<MachineModel, EvalError>(EvalError::InternalError),
        run_spec(m, n) is Ok ==> wf(run_spec(m, n)->Ok_0),
    decreases n,
{
    if !is_final(m) && n > 0 {
        lemma_step_keeps_wf(m);
        if let Ok(m2) = step_spec(m) {
            lemma_run_keeps_wf(m2, (n - 1) as nat);
        }
    }
}

/// A program whose expressions are `expr_ok` loads into a well-formed machine.
pub proof fn lemma_load_wf(prog: Seq<ExprModel>)
    requires
        prog.len() > 0,
        all_ok(prog, 1),
    ensures
        wf(load_spec(prog)),
{
    let m = load_spec(prog);
    let bs = initial_env_model().bindings;
    assert forall|b: int| 0 <= b < bs.len() implies expr_ok(#[trigger] bs[b].1, 1) by {
        assert(bs[b].1 is True || bs[b].1 is False || bs[b].1 is Function);
    }
    assert(envs_ok(m.envs));
    let rest = m.stack.drop_last();
    assert forall|i: int| 0 <= i < rest.len() implies frame_ok(#[trigger] rest[i], 1) && !(rest[i] is Stop) by {
        assert(rest[i] == FrameModel::Start(0, prog[prog.len() - 1 - i]));
        assert(expr_ok(prog[prog.len() - 1 - i], 1));
    }
    assert(expr_ok(prog[0], 1));
}

proof fn lemma_literal_ok(e: ExprModel, n: nat)
    requires
        wf_literal(e),
    ensures
        expr_ok(e, n),
    decreases e,
{
    if let ExprModel::List(es) = e {
        lemma_literals_ok(es, n);
    }
}

proof fn lemma_literals_ok(es: Seq<ExprModel>, n: nat)
    requires
        wf_all(es),
    ensures
        all_ok(es, n),
    decreases es,
{
    if es.len() > 0 {
        lemma_literal_ok(es[0], n);
        lemma_literals_ok(es.drop_first(), n);
        assert forall|i: int| 0 <= i < es.len() implies expr_ok(#[trigger] es[i], n) by {
            if i > 0 {
                assert(es[i] == es.drop_first()[i - 1]);
            }
        }
    }
}

/// No program text drives the machine into an internal error: every failure
/// of an evaluation is one of the language's own error kinds (or the step
/// limit).
pub proof fn lemma_no_internal_error(src: Seq<char>, n: nat)
    ensures
        evaluate_spec(src, n) != Err::<MachineModel, EvalError>(EvalError::InternalError),
{
    if let Ok(prog) = parse_spec(src) {
        if prog.len() > 0 {
            lemma_lex_tokens(src);
            lemma_read_wf(lex(src));
            lemma_literals_ok(prog, 1);
            lemma_load_wf(prog);
            lemma_run_keeps_wf(load_spec(prog), n);
        }
    }
}

/// Binding a closure with `def` makes it refer to itself: after the binding,
/// the name resolves to the closure both from the closure's own environment
/// and from the environment that the definition produces.
pub proof fn lemma_self_binding(m: MachineModel, k2: usize, name: Seq<char>, v: ExprModel)
    requires
        v is Lambda,
        v->Lambda_0 < m.envs.len(),
        m.envs.len() < usize::MAX,
    ensures
        add_to_env_spec(m, k2, name, v) is Ok,
        lookup_spec(add_to_env_spec(m, k2, name, v)->Ok_0.envs, v->Lambda_0, name) == Some(v),
        add_to_env_spec(m, k2, name, v)->Ok_0.stack.last() matches FrameModel::Stop(k, w) && w == v
            && lookup_spec(add_to_env_spec(m, k2, name, v)->Ok_0.envs, k, name) == Some(v),
{
    let c = v->Lambda_0;
    let r = add_to_env_spec(m, k2, name, v)->Ok_0;
    let n = m.envs.len();
    assert(r.envs[c as int].bindings.last() == (name, v));
    assert(r.envs[n as int].bindings == seq![(name, v)]);
    assert(seq![(name, v)].last() == (name, v));
    assert(find_binding(seq![(name, v)], name) == Some(v));
    assert(r.envs.len() == n + 1);
    assert(r.stack.last() == FrameModel::Stop(n as usize, v));
    assert(lookup_spec(r.envs, n as usize, name) == Some(v));
}

} // verus!
