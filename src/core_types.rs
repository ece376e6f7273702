//! The data of the language and of the machine, with their mathematical models.
use vstd::prelude::*;
use vstd::string::StrSliceExecFns;

verus! {

broadcast use vstd::std_specs::vec::group_vec_axioms, vstd::seq::group_seq_axioms;

/// The primitive operations of the language.
#[derive(PartialEq, Eq, Structural, Clone, Copy, Debug)]
pub enum BuiltinFunction {
    Equals,
    Plus,
    Minus,
    Times,
    First,
    Println,
}

/// An expression: both the syntax tree of a program and a value at run time.
#[derive(Debug)]
pub enum Expression {
    True,
    False,
    Number(i32),
    Symbol(String),
    List(Vec<Expression>),
    Function(BuiltinFunction),
    /// A closure: the index of its own environment, its parameter names and its body.
    Lambda(usize, Vec<String>, Box<Expression>),
    /// A snapshot of the control stack, taken by `call/cc`.
    Continuation(Vec<Frame>),
}

/// One pending step of the machine; each environment is an index into the arena.
#[derive(Debug)]
pub enum Frame {
    Start(usize, Expression),
    AddToEnv(usize, String),
    PushBranch(usize, Expression, Expression),
    EvalFn(usize, Vec<Expression>),
    EvalArgs(usize, Expression, Vec<Expression>, Vec<Expression>),
    Stop(usize, Expression),
}

/// What reading a run of tokens stopped at: the end of the tokens, or a closing
/// parenthesis (with the position of the token after it).
#[derive(Debug)]
pub enum ReadResult {
    EndOfTokens(Vec<Expression>),
    EndOfExpression(Vec<Expression>, usize),
}

/// Why an evaluation failed. All failures are fatal to the program being run.
#[derive(PartialEq, Eq, Structural, Clone, Copy, Debug)]
pub enum EvalError {
    /// Unbalanced parentheses, a malformed special form, or an empty list to evaluate.
    SyntaxError,
    /// A symbol with no binding in the environment.
    UnboundSymbol,
    /// The operator of an application is not a function.
    NotCallableError,
    /// A closure or continuation called with the wrong number of arguments.
    ArityError,
    /// The condition of an `if` is neither `true` nor `false`.
    NotBooleanError,
    /// A builtin called with the wrong number or kinds of arguments.
    ArgumentError,
    /// A builtin or closure value reached the machine as an expression to evaluate.
    TypeError,
    /// The machine was in a state that evaluation never produces.
    InternalError,
    /// The evaluation did not finish within the number of steps allowed.
    StepLimit,
}

/// The model of an `Expression`.
pub enum ExprModel {
    True,
    False,
    Number(i32),
    Symbol(Seq<char>),
    List(Seq<ExprModel>),
    Function(BuiltinFunction),
    Lambda(usize, Seq<Seq<char>>, Box<ExprModel>),
    Continuation(Seq<FrameModel>),
}

/// The model of a `Frame`.
pub enum FrameModel {
    Start(usize, ExprModel),
    AddToEnv(usize, Seq<char>),
    PushBranch(usize, ExprModel, ExprModel),
    EvalFn(usize, Seq<ExprModel>),
    EvalArgs(usize, ExprModel, Seq<ExprModel>, Seq<ExprModel>),
    Stop(usize, ExprModel),
}

pub open spec fn strings_model(v: Seq<String>) -> Seq<Seq<char>> {
    v.map_values(|s: String| s@)
}

pub open spec fn expr_model(e: Expression) -> ExprModel
    decreases e,
{
    match e {
        Expression::True => ExprModel::True,
        Expression::False => ExprModel::False,
        Expression::Number(n) => ExprModel::Number(n),
        Expression::Symbol(s) => ExprModel::Symbol(s@),
        Expression::List(v) => ExprModel::List(exprs_model(v@)),
        Expression::Function(f) => ExprModel::Function(f),
        Expression::Lambda(k, ps, body) => ExprModel::Lambda(
            k,
            strings_model(ps@),
            Box::new(expr_model(*body)),
        ),
        Expression::Continuation(st) => ExprModel::Continuation(frames_model(st@)),
    }
}

pub open spec fn exprs_model(s: Seq<Expression>) -> Seq<ExprModel>
    decreases s,
{
    Seq::new(
        s.len(),
        |i: int|
            if 0 <= i < s.len() {
                expr_model(s[i])
            } else {
                ExprModel::True
            },
    )
}

pub open spec fn frame_model(f: Frame) -> FrameModel
    decreases f,
{
    match f {
        Frame::Start(k, e) => FrameModel::Start(k, expr_model(e)),
        Frame::AddToEnv(k, s) => FrameModel::AddToEnv(k, s@),
        Frame::PushBranch(k, t, e) => FrameModel::PushBranch(k, expr_model(t), expr_model(e)),
        Frame::EvalFn(k, v) => FrameModel::EvalFn(k, exprs_model(v@)),
        Frame::EvalArgs(k, f, d, r) => FrameModel::EvalArgs(
            k,
            expr_model(f),
            exprs_model(d@),
            exprs_model(r@),
        ),
        Frame::Stop(k, e) => FrameModel::Stop(k, expr_model(e)),
    }
}

pub open spec fn frames_model(s: Seq<Frame>) -> Seq<FrameModel>
    decreases s,
{
    Seq::new(
        s.len(),
        |i: int|
            if 0 <= i < s.len() {
                frame_model(s[i])
            } else {
                FrameModel::Stop(0, ExprModel::True)
            },
    )
}

pub broadcast proof fn lemma_exprs_model_len(s: Seq<Expression>)
    ensures
        #[trigger] exprs_model(s).len() == s.len(),
{
}

pub broadcast proof fn lemma_exprs_model_index(s: Seq<Expression>, i: int)
    requires
        0 <= i < s.len(),
    ensures
        #[trigger] exprs_model(s)[i] == expr_model(s[i]),
{
}

pub broadcast proof fn lemma_exprs_model_push(s: Seq<Expression>, e: Expression)
    ensures
        #[trigger] exprs_model(s.push(e)) == exprs_model(s).push(expr_model(e)),
{
    assert(exprs_model(s.push(e)) =~= exprs_model(s).push(expr_model(e)));
}

pub broadcast proof fn lemma_exprs_model_subrange(s: Seq<Expression>, i: int, j: int)
    requires
        0 <= i <= j <= s.len(),
    ensures
        #[trigger] exprs_model(s.subrange(i, j)) == exprs_model(s).subrange(i, j),
{
    assert(exprs_model(s.subrange(i, j)) =~= exprs_model(s).subrange(i, j));
}

pub broadcast proof fn lemma_frames_model_len(s: Seq<Frame>)
    ensures
        #[trigger] frames_model(s).len() == s.len(),
{
}

pub broadcast proof fn lemma_frames_model_index(s: Seq<Frame>, i: int)
    requires
        0 <= i < s.len(),
    ensures
        #[trigger] frames_model(s)[i] == frame_model(s[i]),
{
}

pub broadcast proof fn lemma_frames_model_push(s: Seq<Frame>, f: Frame)
    ensures
        #[trigger] frames_model(s.push(f)) == frames_model(s).push(frame_model(f)),
{
    assert(frames_model(s.push(f)) =~= frames_model(s).push(frame_model(f)));
}

pub broadcast proof fn lemma_frames_model_subrange(s: Seq<Frame>, i: int, j: int)
    requires
        0 <= i <= j <= s.len(),
    ensures
        #[trigger] frames_model(s.subrange(i, j)) == frames_model(s).subrange(i, j),
{
    assert(frames_model(s.subrange(i, j)) =~= frames_model(s).subrange(i, j));
}

pub broadcast group group_model_lemmas {
    lemma_exprs_model_len,
    lemma_exprs_model_index,
    lemma_exprs_model_push,
    lemma_exprs_model_subrange,
    lemma_frames_model_len,
    lemma_frames_model_index,
    lemma_frames_model_push,
    lemma_frames_model_subrange,
}

impl View for Expression {
    type V = ExprModel;

    open spec fn view(&self) -> ExprModel {
        expr_model(*self)
    }
}

impl View for Frame {
    type V = FrameModel;

    open spec fn view(&self) -> FrameModel {
        frame_model(*self)
    }
}

/// A copy of a list of names.
pub fn copy_strings(v: &Vec<String>) -> (r: Vec<String>)
    ensures
        strings_model(r@) == strings_model(v@),
{
    let mut r: Vec<String> = Vec::new();
    let mut i: usize = 0;
    while i < v.len()
        invariant
            i <= v@.len(),
            r@.len() == i,
            forall|j: int| 0 <= j < i ==> #[trigger] r@[j]@ == v@[j]@,
        decreases v@.len() - i,
    {
        r.push(v[i].clone());
        i = i + 1;
    }
    assert(strings_model(r@) =~= strings_model(v@));
    r
}

/// A deep copy of an expression, sharing nothing with it.
pub fn copy_expr(e: &Expression) -> (r: Expression)
    ensures
        r@ == e@,
    decreases e,
{
    match e {
        Expression::True => Expression::True,
        Expression::False => Expression::False,
        Expression::Number(n) => Expression::Number(*n),
        Expression::Symbol(s) => Expression::Symbol(s.clone()),
        Expression::List(v) => Expression::List(copy_exprs(v)),
        Expression::Function(f) => Expression::Function(*f),
        Expression::Lambda(k, ps, body) => {
            let b = copy_expr(&**body);
            Expression::Lambda(*k, copy_strings(ps), Box::new(b))
        },
        Expression::Continuation(st) => Expression::Continuation(copy_frames(st)),
    }
}

/// A deep copy of a list of expressions.
pub fn copy_exprs(v: &Vec<Expression>) -> (r: Vec<Expression>)
    ensures
        exprs_model(r@) == exprs_model(v@),
    decreases v,
{
    let mut r: Vec<Expression> = Vec::new();
    let mut i: usize = 0;
    while i < v.len()
        invariant
            i <= v@.len(),
            r@.len() == i,
            forall|j: int| 0 <= j < i ==> #[trigger] expr_model(r@[j]) == expr_model(v@[j]),
        decreases v@.len() - i,
    {
        proof {
            vstd::std_specs::vec::axiom_vec_index_decreases(*v, i as int);
        }
        r.push(copy_expr(&v[i]));
        i = i + 1;
    }
    assert(forall|j: int| 0 <= j < r@.len() ==> #[trigger] exprs_model(r@)[j] == expr_model(r@[j]));
    assert(exprs_model(r@) =~= exprs_model(v@));
    r
}

/// A deep copy of a frame.
pub fn copy_frame(f: &Frame) -> (r: Frame)
    ensures
        r@ == f@,
    decreases f,
{
    match f {
        Frame::Start(k, e) => Frame::Start(*k, copy_expr(e)),
        Frame::AddToEnv(k, s) => Frame::AddToEnv(*k, s.clone()),
        Frame::PushBranch(k, t, e) => {
            let t2 = copy_expr(t);
            Frame::PushBranch(*k, t2, copy_expr(e))
        },
        Frame::EvalFn(k, v) => Frame::EvalFn(*k, copy_exprs(v)),
        Frame::EvalArgs(k, fun, d, r) => {
            let fun2 = copy_expr(fun);
            let d2 = copy_exprs(d);
            Frame::EvalArgs(*k, fun2, d2, copy_exprs(r))
        },
        Frame::Stop(k, e) => Frame::Stop(*k, copy_expr(e)),
    }
}

/// A deep copy of a stack of frames: capturing a continuation copies, so that
/// resuming it twice shares nothing.
pub fn copy_frames(v: &Vec<Frame>) -> (r: Vec<Frame>)
    ensures
        frames_model(r@) == frames_model(v@),
    decreases v,
{
    let mut r: Vec<Frame> = Vec::new();
    let mut i: usize = 0;
    while i < v.len()
        invariant
            i <= v@.len(),
            r@.len() == i,
            forall|j: int| 0 <= j < i ==> #[trigger] frame_model(r@[j]) == frame_model(v@[j]),
        decreases v@.len() - i,
    {
        proof {
            vstd::std_specs::vec::axiom_vec_index_decreases(*v, i as int);
        }
        r.push(copy_frame(&v[i]));
        i = i + 1;
    }
    assert(forall|j: int| 0 <= j < r@.len() ==> #[trigger] frames_model(r@)[j] == frame_model(r@[j]));
    assert(frames_model(r@) =~= frames_model(v@));
    r
}

/// Whether two lists of names are equal.
pub fn strings_eq(a: &Vec<String>, b: &Vec<String>) -> (r: bool)
    ensures
        r == (strings_model(a@) == strings_model(b@)),
{
    if a.len() != b.len() {
        assert(strings_model(a@).len() != strings_model(b@).len());
        return false;
    }
    let mut i: usize = 0;
    while i < a.len()
        invariant
            i <= a@.len(),
            a@.len() == b@.len(),
            forall|j: int| 0 <= j < i ==> #[trigger] a@[j]@ == b@[j]@,
        decreases a@.len() - i,
    {
        if a[i] != b[i] {
            assert(strings_model(a@)[i as int] != strings_model(b@)[i as int]);
            return false;
        }
        i = i + 1;
    }
    assert(strings_model(a@) =~= strings_model(b@));
    true
}

/// Structural equality of two expressions.
pub fn expr_eq(a: &Expression, b: &Expression) -> (r: bool)
    ensures
        r == (a@ == b@),
    decreases a,
{
    match (a, b) {
        (Expression::True, Expression::True) => true,
        (Expression::False, Expression::False) => true,
        (Expression::Number(x), Expression::Number(y)) => *x == *y,
        (Expression::Symbol(s), Expression::Symbol(t)) => *s == *t,
        (Expression::List(v), Expression::List(w)) => exprs_eq(v, w),
        (Expression::Function(f), Expression::Function(g)) => *f == *g,
        (Expression::Lambda(k, ps, body), Expression::Lambda(k2, ps2, body2)) => {
            *k == *k2 && strings_eq(ps, ps2) && expr_eq(&**body, &**body2)
        },
        (Expression::Continuation(s), Expression::Continuation(t)) => frames_eq(s, t),
        _ => false,
    }
}

/// Structural equality of two lists of expressions.
pub fn exprs_eq(a: &Vec<Expression>, b: &Vec<Expression>) -> (r: bool)
    ensures
        r == (exprs_model(a@) == exprs_model(b@)),
    decreases a,
{
    if a.len() != b.len() {
        assert(exprs_model(a@).len() != exprs_model(b@).len());
        return false;
    }
    let mut i: usize = 0;
    while i < a.len()
        invariant
            i <= a@.len(),
            a@.len() == b@.len(),
            forall|j: int| 0 <= j < i ==> #[trigger] expr_model(a@[j]) == expr_model(b@[j]),
        decreases a@.len() - i,
    {
        proof {
            vstd::std_specs::vec::axiom_vec_index_decreases(*a, i as int);
        }
        if !expr_eq(&a[i], &b[i]) {
            assert(exprs_model(a@)[i as int] != exprs_model(b@)[i as int]);
            return false;
        }
        i = i + 1;
    }
    assert(forall|j: int| 0 <= j < a@.len() ==> #[trigger] exprs_model(a@)[j] == expr_model(a@[j]));
    assert(forall|j: int| 0 <= j < b@.len() ==> #[trigger] exprs_model(b@)[j] == expr_model(b@[j]));
    assert(exprs_model(a@) =~= exprs_model(b@));
    true
}

/// Structural equality of two frames.
pub fn frame_eq(a: &Frame, b: &Frame) -> (r: bool)
    ensures
        r == (a@ == b@),
    decreases a,
{
    match (a, b) {
        (Frame::Start(k, e), Frame::Start(k2, e2)) => *k == *k2 && expr_eq(e, e2),
        (Frame::AddToEnv(k, s), Frame::AddToEnv(k2, s2)) => *k == *k2 && *s == *s2,
        (Frame::PushBranch(k, t, e), Frame::PushBranch(k2, t2, e2)) => {
            *k == *k2 && expr_eq(t, t2) && expr_eq(e, e2)
        },
        (Frame::EvalFn(k, v), Frame::EvalFn(k2, v2)) => *k == *k2 && exprs_eq(v, v2),
        (Frame::EvalArgs(k, f, d, r), Frame::EvalArgs(k2, f2, d2, r2)) => {
            *k == *k2 && expr_eq(f, f2) && exprs_eq(d, d2) && exprs_eq(r, r2)
        },
        (Frame::Stop(k, e), Frame::Stop(k2, e2)) => *k == *k2 && expr_eq(e, e2),
        _ => false,
    }
}

/// Structural equality of two stacks.
pub fn frames_eq(a: &Vec<Frame>, b: &Vec<Frame>) -> (r: bool)
    ensures
        r == (frames_model(a@) == frames_model(b@)),
    decreases a,
{
    if a.len() != b.len() {
        assert(frames_model(a@).len() != frames_model(b@).len());
        return false;
    }
    let mut i: usize = 0;
    while i < a.len()
        invariant
            i <= a@.len(),
            a@.len() == b@.len(),
            forall|j: int| 0 <= j < i ==> #[trigger] frame_model(a@[j]) == frame_model(b@[j]),
        decreases a@.len() - i,
    {
        proof {
            vstd::std_specs::vec::axiom_vec_index_decreases(*a, i as int);
        }
        if !frame_eq(&a[i], &b[i]) {
            assert(frames_model(a@)[i as int] != frames_model(b@)[i as int]);
            return false;
        }
        i = i + 1;
    }
    assert(forall|j: int| 0 <= j < a@.len() ==> #[trigger] frames_model(a@)[j] == frame_model(a@[j]));
    assert(forall|j: int| 0 <= j < b@.len() ==> #[trigger] frames_model(b@)[j] == frame_model(b@[j]));
    assert(frames_model(a@) =~= frames_model(b@));
    true
}

impl PartialEq for Expression {
    fn eq(&self, other: &Expression) -> (r: bool) {
        expr_eq(self, other)
    }
}

impl vstd::std_specs::cmp::PartialEqSpecImpl for Expression {
    open spec fn obeys_eq_spec() -> bool {
        true
    }

    open spec fn eq_spec(&self, other: &Expression) -> bool {
        self@ == other@
    }
}

/// Whether a string holds exactly the characters of `word`.
pub fn text_is(s: &str, word: &str) -> (r: bool)
    ensures
        r == (s@ == word@),
{
    let n = s.unicode_len();
    if n != word.unicode_len() {
        return false;
    }
    let mut i: usize = 0;
    while i < n
        invariant
            i <= n,
            n == s@.len(),
            n == word@.len(),
            forall|j: int| 0 <= j < i ==> s@[j] == word@[j],
        decreases n - i,
    {
        if s.get_char(i) != word.get_char(i) {
            return false;
        }
        i = i + 1;
    }
    assert(s@ =~= word@);
    true
}

/// Whether an expression is the symbol `word`.
pub fn is_named(e: &Expression, word: &str) -> (r: bool)
    ensures
        r == (e@ == ExprModel::Symbol(word@)),
{
    match e {
        Expression::Symbol(s) => text_is(s.as_str(), word),
        _ => false,
    }
}

} // verus!
