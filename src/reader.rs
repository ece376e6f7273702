//! Source text to expressions: the tokenizer and the recursive-descent reader.
use crate::core_types::{
    text_is, EvalError, ExprModel, Expression, ReadResult, exprs_model, strings_model,
    group_model_lemmas,
};
use vstd::prelude::*;
use vstd::string::StrSliceExecFns;

verus! {

broadcast use {
    vstd::std_specs::vec::group_vec_axioms,
    vstd::seq::group_seq_axioms,
    vstd::string::group_string_axioms,
    group_model_lemmas,
};

/// Characters that separate tokens: the Unicode White_Space set.
pub open spec fn is_space(c: char) -> bool {
    let u = c as u32;
    ||| 0x09 <= u <= 0x0d
    ||| u == 0x20
    ||| u == 0x85
    ||| u == 0xa0
    ||| u == 0x1680
    ||| 0x2000 <= u <= 0x200a
    ||| u == 0x2028
    ||| u == 0x2029
    ||| u == 0x202f
    ||| u == 0x205f
    ||| u == 0x3000
}

pub open spec fn is_paren(c: char) -> bool {
    c == '(' || c == ')'
}

/// Characters that make up words: symbols and literals.
pub open spec fn is_word_char(c: char) -> bool {
    !is_space(c) && !is_paren(c)
}

/// The length of the word at the front of `s`.
pub open spec fn word_len(s: Seq<char>) -> nat
    decreases s.len(),
{
    if s.len() > 0 && is_word_char(s[0]) {
        1 + word_len(s.drop_first())
    } else {
        0
    }
}

/// The tokens of a text: each parenthesis alone, and each maximal run of word
/// characters; spaces only separate.
pub open spec fn lex(s: Seq<char>) -> Seq<Seq<char>>
    decreases s.len(),
{
    if s.len() == 0 {
        Seq::empty()
    } else if is_space(s[0]) {
        lex(s.drop_first())
    } else if is_paren(s[0]) {
        seq![seq![s[0]]] + lex(s.drop_first())
    } else {
        let n = word_len(s);
        if 0 < n <= s.len() {
            seq![s.take(n as int)] + lex(s.skip(n as int))
        } else {
            Seq::empty()
        }
    }
}

pub open spec fn is_digit(c: char) -> bool {
    48 <= (c as u32) <= 57
}

pub open spec fn all_digits(s: Seq<char>) -> bool {
    forall|i: int| 0 <= i < s.len() ==> is_digit(#[trigger] s[i])
}

/// The number that a string of decimal digits denotes.
pub open spec fn digits_value(s: Seq<char>) -> int
    decreases s.len(),
{
    if s.len() == 0 {
        0
    } else {
        digits_value(s.drop_last()) * 10 + ((s.last() as u32) - 48)
    }
}

/// The expression that a word token stands for; `None` for a number too large
/// for 32 bits.
pub open spec fn atom_spec(tok: Seq<char>) -> Option<ExprModel> {
    if tok == "true"@ {
        Some(ExprModel::True)
    } else if tok == "false"@ {
        Some(ExprModel::False)
    } else if all_digits(tok) {
        if digits_value(tok) <= i32::MAX {
            Some(ExprModel::Number(digits_value(tok) as i32))
        } else {
            None
        }
    } else {
        Some(ExprModel::Symbol(tok))
    }
}

pub open spec fn prepend(
    acc: Seq<ExprModel>,
    r: Option<(Seq<ExprModel>, Seq<Seq<char>>, bool)>,
) -> Option<(Seq<ExprModel>, Seq<Seq<char>>, bool)> {
    match r {
        Some((es, rest, closed)) => Some((acc + es, rest, closed)),
        None => None,
    }
}

/// Reads expressions from the front of `ts` up to a closing parenthesis or the
/// end. Gives the expressions, the tokens after that parenthesis, and whether
/// there was one; `None` for an unclosed list or a bad number.
pub open spec fn read_items(ts: Seq<Seq<char>>) -> Option<(Seq<ExprModel>, Seq<Seq<char>>, bool)>
    decreases ts.len(),
{
    if ts.len() == 0 {
        Some((Seq::empty(), Seq::empty(), false))
    } else if ts[0] == ")"@ {
        Some((Seq::empty(), ts.drop_first(), true))
    } else if ts[0] == "("@ {
        match read_items(ts.drop_first()) {
            Some((inner, rest, true)) => if rest.len() < ts.len() {
                prepend(seq![ExprModel::List(inner)], read_items(rest))
            } else {
                None
            },
            _ => None,
        }
    } else {
        match atom_spec(ts[0]) {
            Some(a) => prepend(seq![a], read_items(ts.drop_first())),
            None => None,
        }
    }
}

/// The expressions of a program text.
pub open spec fn parse_spec(s: Seq<char>) -> Result<Seq<ExprModel>, EvalError> {
    match read_items(lex(s)) {
        Some((es, _, false)) => Ok(es),
        _ => Err(EvalError::SyntaxError),
    }
}

pub proof fn lemma_word_len(s: Seq<char>, m: nat)
    requires
        m <= s.len(),
        forall|k: int| 0 <= k < m ==> is_word_char(#[trigger] s[k]),
        m == s.len() || !is_word_char(s[m as int]),
    ensures
        word_len(s) == m,
    decreases m,
{
    if m > 0 {
        lemma_word_len(s.drop_first(), (m - 1) as nat);
    }
}

fn is_space_char(c: char) -> (r: bool)
    ensures
        r == is_space(c),
{
    let u = c as u32;
    (0x09 <= u && u <= 0x0d) || u == 0x20 || u == 0x85 || u == 0xa0 || u == 0x1680 || (0x2000 <= u
        && u <= 0x200a) || u == 0x2028 || u == 0x2029 || u == 0x202f || u == 0x205f || u == 0x3000
}

fn is_paren_char(c: char) -> (r: bool)
    ensures
        r == is_paren(c),
{
    c == '(' || c == ')'
}

/// Splits a program text into tokens.
pub fn tokenize(code: &str) -> (r: Vec<String>)
    ensures
        strings_model(r@) == lex(code@),
{
    let n = code.unicode_len();
    let ghost s = code@;
    let mut toks: Vec<String> = Vec::new();
    let mut i: usize = 0;
    assert(s.subrange(0, n as int) =~= s);
    while i < n
        invariant
            i <= n,
            n == s.len(),
            s == code@,
            lex(s) == strings_model(toks@) + lex(s.subrange(i as int, n as int)),
        decreases n - i,
    {
        let ghost t = s.subrange(i as int, n as int);
        let c = code.get_char(i);
        if is_space_char(c) {
            assert(t.drop_first() =~= s.subrange(i + 1, n as int));
            i = i + 1;
        } else if is_paren_char(c) {
            let tok = code.substring_char(i, i + 1).to_string();
            assert(tok@ =~= seq![t[0]]);
            assert(t.drop_first() =~= s.subrange(i + 1, n as int));
            assert(strings_model(toks@.push(tok)) =~= strings_model(toks@).push(tok@));
            toks.push(tok);
            i = i + 1;
        } else {
            let mut j: usize = i + 1;
            while j < n && !is_space_char(code.get_char(j)) && !is_paren_char(code.get_char(j))
                invariant
                    i < j <= n,
                    n == s.len(),
                    s == code@,
                    forall|k: int| i <= k < j ==> is_word_char(#[trigger] s[k]),
                decreases n - j,
            {
                j = j + 1;
            }
            proof {
                lemma_word_len(t, (j - i) as nat);
                assert(t.take((j - i) as int) =~= s.subrange(i as int, j as int));
                assert(t.skip((j - i) as int) =~= s.subrange(j as int, n as int));
            }
            let tok = code.substring_char(i, j).to_string();
            assert(strings_model(toks@.push(tok)) =~= strings_model(toks@).push(tok@));
            toks.push(tok);
            i = j;
        }
    }
    assert(lex(s.subrange(n as int, n as int)) =~= Seq::empty());
    assert(strings_model(toks@) + Seq::<Seq<char>>::empty() =~= strings_model(toks@));
    toks
}

/// Whether a token is made of decimal digits only.
pub fn is_number(tok: &str) -> (r: bool)
    ensures
        r == all_digits(tok@),
{
    let n = tok.unicode_len();
    let mut i: usize = 0;
    while i < n
        invariant
            i <= n,
            n == tok@.len(),
            forall|k: int| 0 <= k < i ==> is_digit(#[trigger] tok@[k]),
        decreases n - i,
    {
        let c = tok.get_char(i);
        if !('0' <= c && c <= '9') {
            return false;
        }
        i = i + 1;
    }
    true
}

proof fn lemma_digits_value_prefix(s: Seq<char>, k: int)
    requires
        0 <= k <= s.len(),
        all_digits(s),
    ensures
        0 <= digits_value(s.take(k)) <= digits_value(s),
    decreases s.len(),
{
    if k < s.len() {
        lemma_digits_value_prefix(s.drop_last(), k);
        assert(s.drop_last().take(k) =~= s.take(k));
        assert(all_digits(s.drop_last()));
    } else {
        assert(s.take(k) =~= s);
        lemma_digits_value_nonneg(s);
    }
}

pub proof fn lemma_digits_value_nonneg(s: Seq<char>)
    requires
        all_digits(s),
    ensures
        digits_value(s) >= 0,
    decreases s.len(),
{
    if s.len() > 0 {
        assert(all_digits(s.drop_last()));
        lemma_digits_value_nonneg(s.drop_last());
    }
}

/// The expression that a word token stands for.
pub fn atom(tok: String) -> (r: Option<Expression>)
    ensures
        match atom_spec(tok@) {
            Some(a) => r matches Some(e) && e@ == a,
            None => r is None,
        },
{
    if text_is(tok.as_str(), "true") {
        return Some(Expression::True);
    }
    if text_is(tok.as_str(), "false") {
        return Some(Expression::False);
    }
    if !is_number(tok.as_str()) {
        return Some(Expression::Symbol(tok));
    }
    let ghost t = tok@;
    let n = tok.as_str().unicode_len();
    let mut acc: u64 = 0;
    let mut i: usize = 0;
    assert(t.take(0) =~= Seq::<char>::empty());
    while i < n
        invariant
            i <= n,
            n == t.len(),
            t == tok@,
            t != "true"@,
            t != "false"@,
            all_digits(t),
            acc == digits_value(t.take(i as int)),
            acc <= i32::MAX,
        decreases n - i,
    {
        let c = tok.as_str().get_char(i);
        assert(is_digit(t[i as int]));
        let d = (c as u32 - 48) as u64;
        assert(t.take(i + 1).drop_last() =~= t.take(i as int));
        assert(t.take(i + 1).last() == c);
        acc = acc * 10 + d;
        i = i + 1;
        assert(acc == digits_value(t.take(i as int)));
        if acc > 0x7fff_ffff {
            proof {
                lemma_digits_value_prefix(t, i as int);
            }
            return None;
        }
    }
    assert(t.take(n as int) =~= t);
    Some(Expression::Number(acc as i32))
}

pub proof fn lemma_prepend_prepend(
    a: Seq<ExprModel>,
    b: Seq<ExprModel>,
    r: Option<(Seq<ExprModel>, Seq<Seq<char>>, bool)>,
)
    ensures
        prepend(a, prepend(b, r)) == prepend(a + b, r),
{
    match r {
        Some((es, rest, c)) => {
            assert(a + (b + es) =~= (a + b) + es);
        },
        None => {},
    }
}

/// Reads expressions from token `pos` up to a closing parenthesis or the end of
/// the tokens.
pub fn read(tokens: &Vec<String>, pos: usize) -> (r: Result<ReadResult, EvalError>)
    requires
        pos <= tokens@.len(),
    ensures
        match read_items(strings_model(tokens@).subrange(pos as int, tokens@.len() as int)) {
            Some((es, rest, false)) => r matches Ok(ReadResult::EndOfTokens(v)) && exprs_model(v@) == es,
            Some((es, rest, true)) => r matches Ok(ReadResult::EndOfExpression(v, p)) && exprs_model(v@) == es
                && pos < p <= tokens@.len()
                && rest == strings_model(tokens@).subrange(p as int, tokens@.len() as int),
            None => r == Err::<ReadResult, EvalError>(EvalError::SyntaxError),
        },
    decreases tokens@.len() - pos,
{
    let ghost ts = strings_model(tokens@);
    let n = tokens.len();
    let mut items: Vec<Expression> = Vec::new();
    let mut i: usize = pos;
    proof {
        match read_items(ts.subrange(pos as int, n as int)) {
            Some((es, rest, c)) => {
                assert(Seq::<ExprModel>::empty() + es =~= es);
            },
            None => {},
        }
    }
    loop
        invariant
            pos <= i <= n,
            n == tokens@.len(),
            ts == strings_model(tokens@),
            read_items(ts.subrange(pos as int, n as int)) == prepend(
                exprs_model(items@),
                read_items(ts.subrange(i as int, n as int)),
            ),
        decreases n - i,
    {
        let ghost t = ts.subrange(i as int, n as int);
        if i == n {
            assert(t =~= Seq::<Seq<char>>::empty());
            assert(exprs_model(items@) + Seq::<ExprModel>::empty() =~= exprs_model(items@));
            return Ok(ReadResult::EndOfTokens(items));
        }
        assert(t.drop_first() =~= ts.subrange(i + 1, n as int));
        if text_is(tokens[i].as_str(), ")") {
            assert(exprs_model(items@) + Seq::<ExprModel>::empty() =~= exprs_model(items@));
            return Ok(ReadResult::EndOfExpression(items, i + 1));
        }
        if text_is(tokens[i].as_str(), "(") {
            match read(tokens, i + 1) {
                Ok(ReadResult::EndOfExpression(inner, p)) => {
                    proof {
                        lemma_prepend_prepend(exprs_model(items@), seq![ExprModel::List(exprs_model(inner@))], read_items(ts.subrange(p as int, n as int)));
                    }
                    let ghost items0 = exprs_model(items@);
                    items.push(Expression::List(inner));
                    assert(exprs_model(items@) =~= items0 + seq![ExprModel::List(exprs_model(inner@))]);
                    i = p;
                },
                _ => {
                    return Err(EvalError::SyntaxError);
                },
            }
        } else {
            let tok = tokens[i].clone();
            match atom(tok) {
                Some(a) => {
                    proof {
                        lemma_prepend_prepend(exprs_model(items@), seq![a@], read_items(ts.subrange(i + 1, n as int)));
                    }
                    let ghost items0 = exprs_model(items@);
                    items.push(a);
                    assert(exprs_model(items@) =~= items0 + seq![a@]);
                    i = i + 1;
                },
                None => {
                    return Err(EvalError::SyntaxError);
                },
            }
        }
    }
}

/// Reads a whole sequence of tokens; an unmatched parenthesis is an error.
pub fn read_tokens(tokens: &Vec<String>) -> (r: Result<Vec<Expression>, EvalError>)
    ensures
        match read_items(strings_model(tokens@)) {
            Some((es, _, false)) => r matches Ok(v) && exprs_model(v@) == es,
            _ => r == Err::<Vec<Expression>, EvalError>(EvalError::SyntaxError),
        },
{
    assert(strings_model(tokens@).subrange(0, tokens@.len() as int) =~= strings_model(tokens@));
    match read(tokens, 0) {
        Ok(ReadResult::EndOfTokens(v)) => Ok(v),
        _ => Err(EvalError::SyntaxError),
    }
}

/// The expressions of a program text.
pub fn parse(code: &str) -> (r: Result<Vec<Expression>, EvalError>)
    ensures
        match parse_spec(code@) {
            Ok(es) => r matches Ok(v) && exprs_model(v@) == es,
            Err(e) => r == Err::<Vec<Expression>, EvalError>(e),
        },
{
    let tokens = tokenize(code);
    read_tokens(&tokens)
}

} // verus!
