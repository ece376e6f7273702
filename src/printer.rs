//! Expressions back to source text.
use crate::reader::{
    all_digits, atom_spec, digits_value, is_digit, is_paren, is_space, is_word_char, lex,
    parse_spec, prepend, read_items, word_len, lemma_digits_value_nonneg, lemma_prepend_prepend,
    lemma_word_len,
};
use crate::core_types::{
    BuiltinFunction, ExprModel, Expression, exprs_model, strings_model, text_is, group_model_lemmas,
};
use vstd::prelude::*;
use vstd::string::{StrSliceExecFns, StringExecFns};

verus! {

broadcast use {
    vstd::std_specs::vec::group_vec_axioms,
    vstd::seq::group_seq_axioms,
    vstd::string::group_string_axioms,
    group_model_lemmas,
};

pub open spec fn digit_char(d: nat) -> char {
    seq!['0', '1', '2', '3', '4', '5', '6', '7', '8', '9'][d as int]
}

proof fn lemma_digit_char(d: nat)
    requires
        d < 10,
    ensures
        is_digit(digit_char(d)),
        (digit_char(d) as u32) - 48 == d,
{
    let ds = seq!['0', '1', '2', '3', '4', '5', '6', '7', '8', '9'];
    assert(ds[0] == '0' && ds[1] == '1' && ds[2] == '2' && ds[3] == '3' && ds[4] == '4');
    assert(ds[5] == '5' && ds[6] == '6' && ds[7] == '7' && ds[8] == '8' && ds[9] == '9');
}

/// The decimal digits of a natural number.
pub open spec fn nat_text(n: nat) -> Seq<char>
    decreases n,
{
    if n < 10 {
        seq![digit_char(n)]
    } else {
        nat_text(n / 10).push(digit_char(n % 10))
    }
}

/// The decimal text of an integer, with a leading `-` when negative.
pub open spec fn int_text(n: i32) -> Seq<char> {
    if n < 0 {
        seq!['-'] + nat_text((-n) as nat)
    } else {
        nat_text(n as nat)
    }
}

/// The name under which the root environment binds a builtin.
pub open spec fn builtin_name(b: BuiltinFunction) -> Seq<char> {
    match b {
        BuiltinFunction::Equals => "="@,
        BuiltinFunction::Plus => "+"@,
        BuiltinFunction::Minus => "-"@,
        BuiltinFunction::Times => "*"@,
        BuiltinFunction::First => "first"@,
        BuiltinFunction::Println => "println"@,
    }
}

/// The tokens that write an expression. Closures and continuations have no
/// source form and are written as a placeholder word.
pub open spec fn expr_tokens(e: ExprModel) -> Seq<Seq<char>>
    decreases e,
{
    match e {
        ExprModel::True => seq!["true"@],
        ExprModel::False => seq!["false"@],
        ExprModel::Number(n) => seq![int_text(n)],
        ExprModel::Symbol(s) => seq![s],
        ExprModel::List(es) => seq!["("@] + exprs_tokens(es) + seq![")"@],
        ExprModel::Function(b) => seq![builtin_name(b)],
        ExprModel::Lambda(_, _, _) => seq!["<lambda>"@],
        ExprModel::Continuation(_) => seq!["<continuation>"@],
    }
}

pub open spec fn exprs_tokens(es: Seq<ExprModel>) -> Seq<Seq<char>>
    decreases es,
{
    if es.len() == 0 {
        Seq::empty()
    } else {
        expr_tokens(es[0]) + exprs_tokens(es.drop_first())
    }
}

/// What separates two adjacent tokens: nothing after an opening or before a
/// closing parenthesis, one space otherwise.
pub open spec fn gap(a: Seq<char>, b: Seq<char>) -> Seq<char> {
    if a == "("@ || b == ")"@ {
        Seq::empty()
    } else {
        seq![' ']
    }
}

pub open spec fn join_tokens(ts: Seq<Seq<char>>) -> Seq<char>
    decreases ts.len(),
{
    if ts.len() == 0 {
        Seq::empty()
    } else if ts.len() == 1 {
        ts[0]
    } else {
        join_tokens(ts.drop_last()) + gap(ts[ts.len() - 2], ts.last()) + ts.last()
    }
}

/// The text of a sequence of expressions.
pub open spec fn render_spec(es: Seq<ExprModel>) -> Seq<char> {
    join_tokens(exprs_tokens(es))
}

proof fn lemma_exprs_tokens_append(a: Seq<ExprModel>, b: Seq<ExprModel>)
    ensures
        exprs_tokens(a + b) == exprs_tokens(a) + exprs_tokens(b),
    decreases a.len(),
{
    if a.len() == 0 {
        assert(a + b =~= b);
        assert(exprs_tokens(a) + exprs_tokens(b) =~= exprs_tokens(b));
    } else {
        lemma_exprs_tokens_append(a.drop_first(), b);
        assert((a + b).drop_first() =~= a.drop_first() + b);
        assert(exprs_tokens(a) + exprs_tokens(b) =~= expr_tokens(a[0]) + (exprs_tokens(a.drop_first()) + exprs_tokens(b)));
    }
}

proof fn lemma_exprs_tokens_snoc(s: Seq<ExprModel>, i: int)
    requires
        0 <= i < s.len(),
    ensures
        exprs_tokens(s.take(i + 1)) == exprs_tokens(s.take(i)) + expr_tokens(s[i]),
{
    lemma_exprs_tokens_append(s.take(i), seq![s[i]]);
    assert(s.take(i + 1) =~= s.take(i) + seq![s[i]]);
    assert(exprs_tokens(seq![s[i]]) =~= expr_tokens(s[i])) by {
        assert(seq![s[i]].drop_first() =~= Seq::<ExprModel>::empty());
        assert(exprs_tokens(Seq::<ExprModel>::empty()) =~= Seq::<Seq<char>>::empty());
        assert(expr_tokens(s[i]) + Seq::<Seq<char>>::empty() =~= expr_tokens(s[i]));
    }
}

fn digit_text(d: u32) -> (r: String)
    requires
        d < 10,
    ensures
        r@ == seq![digit_char(d as nat)],
{
    let digits = "0123456789";
    proof {
        reveal_strlit("0123456789");
    }
    let r = digits.substring_char(d as usize, d as usize + 1).to_string();
    assert(r@ =~= seq![digit_char(d as nat)]);
    r
}

fn nat_to_text(n: u32) -> (r: String)
    ensures
        r@ == nat_text(n as nat),
    decreases n,
{
    if n < 10 {
        digit_text(n)
    } else {
        let mut s = nat_to_text(n / 10);
        let d = digit_text(n % 10);
        s.append(d.as_str());
        s
    }
}

/// The decimal text of a number.
pub fn int_to_text(n: i32) -> (r: String)
    ensures
        r@ == int_text(n),
{
    if n < 0 {
        let m: u32 = (-(n as i64)) as u32;
        let mut s = "-".to_string();
        proof {
            reveal_strlit("-");
        }
        let digits = nat_to_text(m);
        s.append(digits.as_str());
        assert(s@ =~= int_text(n));
        s
    } else {
        nat_to_text(n as u32)
    }
}

fn push_token(out: &mut Vec<String>, tok: String)
    ensures
        strings_model(final(out)@) == strings_model(old(out)@).push(tok@),
{
    out.push(tok);
    assert(strings_model(out@) =~= strings_model(old(out)@).push(tok@));
}

/// Appends the tokens of `e` to `out`.
pub fn expr_to_tokens(e: &Expression, out: &mut Vec<String>)
    ensures
        strings_model(final(out)@) == strings_model(old(out)@) + expr_tokens(e@),
    decreases e,
{
    match e {
        Expression::True => push_token(out, "true".to_string()),
        Expression::False => push_token(out, "false".to_string()),
        Expression::Number(n) => push_token(out, int_to_text(*n)),
        Expression::Symbol(s) => push_token(out, s.clone()),
        Expression::List(items) => {
            push_token(out, "(".to_string());
            exprs_to_tokens(items, out);
            push_token(out, ")".to_string());
            assert(strings_model(out@) =~= strings_model(old(out)@) + expr_tokens(e@));
        },
        Expression::Function(b) => {
            let name = match b {
                BuiltinFunction::Equals => "=",
                BuiltinFunction::Plus => "+",
                BuiltinFunction::Minus => "-",
                BuiltinFunction::Times => "*",
                BuiltinFunction::First => "first",
                BuiltinFunction::Println => "println",
            };
            push_token(out, name.to_string())
        },
        Expression::Lambda(_, _, _) => push_token(out, "<lambda>".to_string()),
        Expression::Continuation(_) => push_token(out, "<continuation>".to_string()),
    }
}

/// Appends the tokens of each of `items` to `out`.
pub fn exprs_to_tokens(items: &Vec<Expression>, out: &mut Vec<String>)
    ensures
        strings_model(final(out)@) == strings_model(old(out)@) + exprs_tokens(exprs_model(items@)),
    decreases items,
{
    let ghost s = exprs_model(items@);
    let ghost start = strings_model(out@);
    let mut i: usize = 0;
    assert(s.take(0) =~= Seq::<ExprModel>::empty());
    assert(start + exprs_tokens(s.take(0)) =~= start);
    while i < items.len()
        invariant
            i <= items@.len(),
            s == exprs_model(items@),
            strings_model(out@) == start + exprs_tokens(s.take(i as int)),
        decreases items@.len() - i,
    {
        proof {
            vstd::std_specs::vec::axiom_vec_index_decreases(*items, i as int);
            lemma_exprs_tokens_snoc(s, i as int);
        }
        expr_to_tokens(&items[i], out);
        assert(strings_model(out@) =~= start + exprs_tokens(s.take(i + 1)));
        i = i + 1;
    }
    assert(s.take(items@.len() as int) =~= s);
}

/// Joins tokens into text, with the spacing of `gap`.
pub fn join(tokens: &Vec<String>) -> (r: String)
    ensures
        r@ == join_tokens(strings_model(tokens@)),
{
    let ghost ts = strings_model(tokens@);
    let n = tokens.len();
    if n == 0 {
        return String::new();
    }
    let mut out = tokens[0].clone();
    let mut i: usize = 1;
    assert(ts.take(1).drop_last() =~= Seq::<Seq<char>>::empty());
    while i < n
        invariant
            1 <= i <= n,
            n == tokens@.len(),
            ts == strings_model(tokens@),
            out@ == join_tokens(ts.take(i as int)),
        decreases n - i,
    {
        assert(ts.take(i + 1).drop_last() =~= ts.take(i as int));
        if !text_is(tokens[i - 1].as_str(), "(") && !text_is(tokens[i].as_str(), ")") {
            out.append(" ");
            proof {
                reveal_strlit(" ");
            }
        }
        out.append(tokens[i].as_str());
        assert(out@ =~= join_tokens(ts.take(i + 1)));
        i = i + 1;
    }
    assert(ts.take(n as int) =~= ts);
    out
}

/// The text of one expression.
pub fn render_expression(e: &Expression) -> (r: String)
    ensures
        r@ == join_tokens(expr_tokens(e@)),
{
    let mut tokens: Vec<String> = Vec::new();
    expr_to_tokens(e, &mut tokens);
    assert(strings_model(Seq::<String>::empty()) + expr_tokens(e@) =~= expr_tokens(e@));
    join(&tokens)
}

/// The text of a sequence of expressions, such as a program.
pub fn render(es: &Vec<Expression>) -> (r: String)
    ensures
        r@ == render_spec(exprs_model(es@)),
{
    let mut tokens: Vec<String> = Vec::new();
    exprs_to_tokens(es, &mut tokens);
    assert(strings_model(Seq::<String>::empty()) + exprs_tokens(exprs_model(es@)) =~= exprs_tokens(exprs_model(es@)));
    join(&tokens)
}


/// A token that the tokenizer can produce: a parenthesis, or a non-empty run
/// of word characters.
pub open spec fn is_word(t: Seq<char>) -> bool {
    t.len() > 0 && forall|i: int| 0 <= i < t.len() ==> is_word_char(#[trigger] t[i])
}

pub open spec fn is_token(t: Seq<char>) -> bool {
    t == "("@ || t == ")"@ || is_word(t)
}

pub open spec fn all_tokens(ts: Seq<Seq<char>>) -> bool {
    forall|i: int| 0 <= i < ts.len() ==> is_token(#[trigger] ts[i])
}

/// An expression made of literals only, each written as the reader reads it:
/// booleans, numbers that are not negative, symbols that read as symbols, and
/// lists of these.
pub open spec fn wf_literal(e: ExprModel) -> bool
    decreases e,
{
    match e {
        ExprModel::True => true,
        ExprModel::False => true,
        ExprModel::Number(n) => n >= 0,
        ExprModel::Symbol(s) => is_word(s) && atom_spec(s) == Some(ExprModel::Symbol(s)),
        ExprModel::List(es) => wf_all(es),
        _ => false,
    }
}

pub open spec fn wf_all(es: Seq<ExprModel>) -> bool
    decreases es,
{
    if es.len() == 0 {
        true
    } else {
        wf_literal(es[0]) && wf_all(es.drop_first())
    }
}

proof fn lemma_strlits()
    ensures
        "("@ == seq!['('],
        ")"@ == seq![')'],
        "true"@ == seq!['t', 'r', 'u', 'e'],
        "false"@ == seq!['f', 'a', 'l', 's', 'e'],
{
    reveal_strlit("(");
    reveal_strlit(")");
    reveal_strlit("true");
    reveal_strlit("false");
    assert("("@ =~= seq!['(']);
    assert(")"@ =~= seq![')']);
    assert("true"@ =~= seq!['t', 'r', 'u', 'e']);
    assert("false"@ =~= seq!['f', 'a', 'l', 's', 'e']);
}

proof fn lemma_nat_text(n: nat)
    ensures
        nat_text(n).len() > 0,
        all_digits(nat_text(n)),
        digits_value(nat_text(n)) == n,
    decreases n,
{
    if n < 10 {
        lemma_digit_char(n);
        assert(seq![digit_char(n)].drop_last() =~= Seq::<char>::empty());
        assert(digits_value(Seq::<char>::empty()) == 0);
    } else {
        assert(n == (n / 10) * 10 + n % 10) by (nonlinear_arith);
        lemma_nat_text(n / 10);
        lemma_digit_char(n % 10);
        let t = nat_text(n);
        assert(t.drop_last() =~= nat_text(n / 10));
        assert(t.last() == digit_char(n % 10));
        assert forall|i: int| 0 <= i < t.len() implies is_digit(#[trigger] t[i]) by {
            if i < t.len() - 1 {
                assert(t[i] == nat_text(n / 10)[i]);
            }
        }
    }
}

proof fn lemma_digit_is_word(c: char)
    requires
        is_digit(c),
    ensures
        is_word_char(c),
{
}

proof fn lemma_tokens_append(a: Seq<Seq<char>>, b: Seq<Seq<char>>)
    requires
        all_tokens(a),
        all_tokens(b),
    ensures
        all_tokens(a + b),
{
    assert forall|i: int| 0 <= i < (a + b).len() implies is_token(#[trigger] (a + b)[i]) by {
        if i < a.len() {
            assert((a + b)[i] == a[i]);
        } else {
            assert((a + b)[i] == b[i - a.len()]);
        }
    }
}

/// The tokens that write well-formed literals are all tokens the tokenizer makes.
proof fn lemma_literal_tokens(es: Seq<ExprModel>)
    requires
        wf_all(es),
    ensures
        all_tokens(exprs_tokens(es)),
    decreases es,
{
    lemma_strlits();
    if es.len() > 0 {
        let e = es[0];
        assert(wf_literal(e));
        lemma_literal_tokens(es.drop_first());
        match e {
            ExprModel::List(inner) => {
                assert(wf_all(inner));
                lemma_literal_tokens(inner);
                lemma_tokens_append(seq!["("@], exprs_tokens(inner));
                lemma_tokens_append(seq!["("@] + exprs_tokens(inner), seq![")"@]);
            },
            ExprModel::Number(n) => {
                assert(n >= 0);
                lemma_nat_text(n as nat);
                let t = nat_text(n as nat);
                assert forall|i: int| 0 <= i < t.len() implies is_word_char(#[trigger] t[i]) by {
                    lemma_digit_is_word(t[i]);
                }
                assert(int_text(n) == t);
                assert(is_word(t));
                assert(expr_tokens(e) == seq![t]);
                assert(is_token(expr_tokens(e)[0]));
            },
            ExprModel::True => {
                assert(is_token(expr_tokens(e)[0]));
            },
            ExprModel::False => {
                assert(is_token(expr_tokens(e)[0]));
            },
            _ => {},
        }
        lemma_tokens_append(expr_tokens(e), exprs_tokens(es.drop_first()));
    }
}

proof fn lemma_join_front(ts: Seq<Seq<char>>)
    requires
        ts.len() >= 2,
    ensures
        join_tokens(ts) == ts[0] + gap(ts[0], ts[1]) + join_tokens(ts.drop_first()),
    decreases ts.len(),
{
    let n = ts.len();
    if n == 2 {
        assert(ts.drop_last() =~= seq![ts[0]]);
        assert(ts.drop_first() =~= seq![ts[1]]);
        assert(join_tokens(ts.drop_last()) == ts[0]);
        assert(join_tokens(ts.drop_first()) == ts[1]);
        assert(join_tokens(ts) == join_tokens(ts.drop_last()) + gap(ts[0], ts[1]) + ts[1]);
    } else {
        let d = ts.drop_last();
        let f = ts.drop_first();
        lemma_join_front(d);
        assert(d.drop_first() =~= f.drop_last());
        assert(d[0] == ts[0] && d[1] == ts[1]);
        assert(join_tokens(ts) == join_tokens(d) + gap(ts[n - 2], ts[n - 1]) + ts[n - 1]);
        assert(f[f.len() - 2] == ts[n - 2] && f.last() == ts[n - 1]);
        assert(join_tokens(f) == join_tokens(f.drop_last()) + gap(ts[n - 2], ts[n - 1]) + ts[n - 1]);
        assert(join_tokens(ts) =~= ts[0] + gap(ts[0], ts[1]) + join_tokens(f));
    }
}

proof fn lemma_join_first_char(ts: Seq<Seq<char>>)
    requires
        ts.len() >= 1,
        ts[0].len() > 0,
    ensures
        join_tokens(ts).len() > 0,
        join_tokens(ts)[0] == ts[0][0],
{
    if ts.len() >= 2 {
        lemma_join_front(ts);
    }
}

proof fn lemma_lex_after_gap(g: Seq<char>, j: Seq<char>)
    requires
        g == Seq::<char>::empty() || g == seq![' '],
    ensures
        lex(g + j) == lex(j),
{
    if g.len() == 0 {
        assert(g + j =~= j);
    } else {
        assert((g + j).drop_first() =~= j);
    }
}

proof fn lemma_lex_word(t: Seq<char>, rest: Seq<char>)
    requires
        is_word(t),
        rest.len() == 0 || !is_word_char(rest[0]),
    ensures
        lex(t + rest) == seq![t] + lex(rest),
{
    let s = t + rest;
    lemma_word_len(s, t.len());
    assert(s.take(t.len() as int) =~= t);
    assert(s.skip(t.len() as int) =~= rest);
}

/// Tokens joined into text are the tokens of that text.
proof fn lemma_lex_join(ts: Seq<Seq<char>>)
    requires
        all_tokens(ts),
    ensures
        lex(join_tokens(ts)) == ts,
    decreases ts.len(),
{
    lemma_strlits();
    if ts.len() == 0 {
        assert(lex(Seq::<char>::empty()) =~= Seq::<Seq<char>>::empty());
    } else {
        let t = ts[0];
        assert(is_token(t));
        if ts.len() == 1 {
            assert(join_tokens(ts) == t);
            assert(lex(Seq::<char>::empty()) =~= Seq::<Seq<char>>::empty());
            if is_word(t) {
                lemma_lex_word(t, Seq::empty());
                assert(t + Seq::<char>::empty() =~= t);
            } else {
                assert(t.drop_first() =~= Seq::<char>::empty());
                assert(seq![t[0]] =~= t);
            }
            assert(lex(join_tokens(ts)) =~= ts);
        } else {
            let rest = ts.drop_first();
            assert(all_tokens(rest)) by {
                assert forall|i: int| 0 <= i < rest.len() implies is_token(#[trigger] rest[i]) by {
                    assert(rest[i] == ts[i + 1]);
                }
            }
            lemma_lex_join(rest);
            lemma_join_front(ts);
            let g = gap(t, ts[1]);
            let j = join_tokens(rest);
            assert(is_token(ts[1]));
            assert(ts[1].len() > 0);
            lemma_join_first_char(rest);
            lemma_lex_after_gap(g, j);
            if is_word(t) {
                assert(t != "("@) by {
                    assert(!is_word_char(("("@)[0]));
                }
                if g.len() == 0 {
                    assert(ts[1] == ")"@);
                    assert(j[0] == ')');
                }
                lemma_lex_word(t, g + j);
                assert(t + g + j =~= t + (g + j));
            } else {
                let s = t + g + j;
                assert(s[0] == t[0]);
                assert(s.drop_first() =~= g + j);
                assert(seq![s[0]] =~= t);
            }
            assert(lex(join_tokens(ts)) =~= ts);
        }
    }
}

proof fn lemma_atom_of_literal(e: ExprModel)
    requires
        wf_literal(e),
        !(e is List),
    ensures
        is_word(expr_tokens(e)[0]),
        atom_spec(expr_tokens(e)[0]) == Some(e),
{
    lemma_strlits();
    match e {
        ExprModel::Number(n) => {
            lemma_nat_text(n as nat);
            let t = nat_text(n as nat);
            assert forall|i: int| 0 <= i < t.len() implies is_word_char(#[trigger] t[i]) by {
                lemma_digit_is_word(t[i]);
            }
            assert(t != "true"@) by {
                assert(!is_digit(("true"@)[0]));
            }
            assert(t != "false"@) by {
                assert(!is_digit(("false"@)[0]));
            }
        },
        _ => {},
    }
}

/// Reading the tokens of well-formed literals gives them back, whatever follows.
proof fn lemma_read_literals(es: Seq<ExprModel>, r: Seq<Seq<char>>)
    requires
        wf_all(es),
    ensures
        read_items(exprs_tokens(es) + r) == prepend(es, read_items(r)),
    decreases es,
{
    lemma_strlits();
    if es.len() == 0 {
        assert(exprs_tokens(es) + r =~= r);
        match read_items(r) {
            Some((a, b, c)) => {
                assert(es + a =~= a);
            },
            None => {},
        }
    } else {
        let e = es[0];
        let more = es.drop_first();
        let x = exprs_tokens(more) + r;
        assert(wf_literal(e));
        lemma_read_literals(more, r);
        assert(es =~= seq![e] + more);
        assert(exprs_tokens(es) == expr_tokens(e) + exprs_tokens(more));
        match e {
            ExprModel::List(inner) => {
                assert(wf_all(inner));
                assert(expr_tokens(e) == seq!["("@] + exprs_tokens(inner) + seq![")"@]);
                let close = seq![")"@] + x;
                lemma_read_literals(inner, close);
                let ts = exprs_tokens(es) + r;
                assert(ts =~= seq!["("@] + (exprs_tokens(inner) + close));
                assert(ts.drop_first() =~= exprs_tokens(inner) + close);
                assert(close.drop_first() =~= x);
                assert(inner + Seq::<ExprModel>::empty() =~= inner);
                lemma_prepend_prepend(seq![e], more, read_items(r));
            },
            _ => {
                lemma_atom_of_literal(e);
                let tok = expr_tokens(e)[0];
                let ts = exprs_tokens(es) + r;
                assert(expr_tokens(e) =~= seq![tok]);
                assert(ts =~= seq![tok] + x);
                assert(ts.drop_first() =~= x);
                assert(tok != "("@ && tok != ")"@) by {
                    assert(is_word_char(tok[0]));
                }
                lemma_prepend_prepend(seq![e], more, read_items(r));
            },
        }
    }
}

proof fn lemma_word_len_chars(s: Seq<char>)
    ensures
        word_len(s) <= s.len(),
        forall|k: int| 0 <= k < word_len(s) ==> is_word_char(#[trigger] s[k]),
    decreases s.len(),
{
    if s.len() > 0 && is_word_char(s[0]) {
        lemma_word_len_chars(s.drop_first());
        assert forall|k: int| 0 <= k < word_len(s) implies is_word_char(#[trigger] s[k]) by {
            if k > 0 {
                assert(s[k] == s.drop_first()[k - 1]);
            }
        }
    }
}

/// The tokenizer makes only tokens.
pub proof fn lemma_lex_tokens(s: Seq<char>)
    ensures
        all_tokens(lex(s)),
    decreases s.len(),
{
    lemma_strlits();
    if s.len() > 0 {
        if is_space(s[0]) {
            lemma_lex_tokens(s.drop_first());
        } else if is_paren(s[0]) {
            lemma_lex_tokens(s.drop_first());
            assert(is_token(seq![s[0]])) by {
                if s[0] == '(' {
                    assert(seq![s[0]] =~= "("@);
                } else {
                    assert(seq![s[0]] =~= ")"@);
                }
            }
            lemma_tokens_append(seq![seq![s[0]]], lex(s.drop_first()));
        } else {
            let n = word_len(s);
            lemma_word_len_chars(s);
            if 0 < n <= s.len() {
                lemma_lex_tokens(s.skip(n as int));
                assert(is_word(s.take(n as int)));
                lemma_tokens_append(seq![s.take(n as int)], lex(s.skip(n as int)));
            }
        }
    }
}

/// What the reader makes of tokens is well-formed, and what it leaves is tokens.
pub proof fn lemma_read_wf(ts: Seq<Seq<char>>)
    requires
        all_tokens(ts),
        read_items(ts) is Some,
    ensures
        wf_all(read_items(ts)->Some_0.0),
        all_tokens(read_items(ts)->Some_0.1),
    decreases ts.len(),
{
    lemma_strlits();
    if ts.len() > 0 {
        let d = ts.drop_first();
        assert(all_tokens(d)) by {
            assert forall|i: int| 0 <= i < d.len() implies is_token(#[trigger] d[i]) by {
                assert(d[i] == ts[i + 1]);
            }
        }
        if ts[0] == ")"@ {
        } else if ts[0] == "("@ {
            lemma_read_wf(d);
            let (inner, rest, closed) = read_items(d)->Some_0;
            lemma_read_wf(rest);
            let (more, rest2, c2) = read_items(rest)->Some_0;
            let all = seq![ExprModel::List(inner)] + more;
            assert(all.drop_first() =~= more);
            assert(wf_literal(all[0]));
            assert(read_items(ts)->Some_0 == (all, rest2, c2));
            assert(wf_all(all));
        } else {
            let a = atom_spec(ts[0])->Some_0;
            lemma_read_wf(d);
            let (more, rest2, c2) = read_items(d)->Some_0;
            let all = seq![a] + more;
            assert(all.drop_first() =~= more);
            assert(is_word(ts[0]));
            match a {
                ExprModel::Number(v) => {
                    lemma_digits_value_nonneg(ts[0]);
                },
                _ => {},
            }
            assert(wf_literal(all[0]));
            assert(read_items(ts)->Some_0 == (all, rest2, c2));
            assert(wf_all(all));
        }
    }
}

/// Reading back the text of well-formed literals gives the same expressions.
pub proof fn lemma_render_parse(es: Seq<ExprModel>)
    requires
        wf_all(es),
    ensures
        parse_spec(render_spec(es)) == Ok::<Seq<ExprModel>, crate::core_types::EvalError>(es),
{
    lemma_literal_tokens(es);
    lemma_lex_join(exprs_tokens(es));
    lemma_read_literals(es, Seq::empty());
    assert(exprs_tokens(es) + Seq::<Seq<char>>::empty() =~= exprs_tokens(es));
    assert(es + Seq::<ExprModel>::empty() =~= es);
}

/// Rendering what a program text reads as, and reading that text again, gives
/// the same expressions.
pub proof fn lemma_round_trip(src: Seq<char>)
    requires
        parse_spec(src) is Ok,
    ensures
        parse_spec(render_spec(parse_spec(src)->Ok_0)) == parse_spec(src),
{
    lemma_lex_tokens(src);
    lemma_read_wf(lex(src));
    lemma_render_parse(parse_spec(src)->Ok_0);
}

} // verus!
