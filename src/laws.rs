//! Properties that relate the lexer, the parser and the evaluator, stated
//! over their specifications and proved.
use vstd::prelude::*;
use crate::lexer::{
    Token, TokenType, digits_end, find_from, is_digit, lex, lex_from, tok, word_end,
};
use crate::parser::{
    ArithmeticOp, BinaryOp, Expr, ParseError, parse_expr_at, parse_list_at,
    parse_paren_at, parse_params_at, text_at,
};
use crate::interpreter::{State, Value, eval, eval_args, RuntimeError};
use crate::parser::{parse_program, parse_program_at};
use crate::text::{digit_char, nat_digits};

verus! {

/// A token's span lies in a source of `len` characters: `start <= end < len`,
/// but for an empty string literal, whose span is `(k + 1, k)` (between its
/// quotes).
pub open spec fn span_fits(t: Token, len: int) -> bool {
    &&& t.span.1 < len
    &&& (t.span.0 <= t.span.1 || (t._type == TokenType::String && t.span.0 == t.span.1 + 1))
}

proof fn lemma_cons_spans(t: Token, rest: Seq<Token>, len: int)
    requires
        span_fits(t, len),
        forall|k: int| 0 <= k < rest.len() ==> span_fits(#[trigger] rest[k], len),
    ensures
        forall|k: int| 0 <= k < (seq![t] + rest).len() ==> span_fits(#[trigger] (seq![t] + rest)[k], len),
{
    assert forall|k: int| 0 <= k < (seq![t] + rest).len() implies span_fits(
        #[trigger] (seq![t] + rest)[k],
        len,
    ) by {
        if k > 0 {
            assert((seq![t] + rest)[k] == rest[k - 1]);
        }
    }
}

proof fn lemma_lex_from_spans(cs: Seq<char>, i: int)
    requires
        0 <= i,
        cs.len() <= usize::MAX,
    ensures
        forall|k: int|
            0 <= k < lex_from(cs, i).len() ==> span_fits(#[trigger] lex_from(cs, i)[k], cs.len() as int),
    decreases cs.len() - i,
{
    if i < cs.len() {
        let c = cs[i];
        if crate::lexer::is_space(c) {
            lemma_lex_from_spans(cs, i + 1);
        } else if c == ';' {
            crate::lexer::lemma_find_from_bounds(cs, i, '\n');
            let e = find_from(cs, i, '\n');
            if i < e <= cs.len() {
                lemma_lex_from_spans(cs, e);
                assert(lex_from(cs, i) == lex_from(cs, e));
            }
        } else if is_digit(c) {
            crate::lexer::lemma_digits_end_bounds(cs, i);
            let e = digits_end(cs, i);
            if i < e <= cs.len() {
                lemma_lex_from_spans(cs, e);
                lemma_cons_spans(tok(TokenType::Integer, i, e - 1), lex_from(cs, e), cs.len() as int);
            }
        } else if c == '"' {
            crate::lexer::lemma_find_from_bounds(cs, i + 1, '"');
            let e = find_from(cs, i + 1, '"');
            if i < e < cs.len() {
                lemma_lex_from_spans(cs, e + 1);
                lemma_cons_spans(tok(TokenType::String, i + 1, e - 1), lex_from(cs, e + 1), cs.len() as int);
            } else if e == cs.len() {
                let t = tok(TokenType::String, i + 1, e - 1);
                lemma_cons_spans(t, Seq::<Token>::empty(), cs.len() as int);
                assert(seq![t] + Seq::<Token>::empty() =~= seq![t]);
            }
        } else if crate::lexer::is_ident_start(c) {
            crate::lexer::lemma_word_end_bounds(cs, i);
            let e = word_end(cs, i);
            if i < e <= cs.len() {
                lemma_lex_from_spans(cs, e);
                lemma_cons_spans(
                    tok(crate::lexer::word_type(cs.subrange(i, e)), i, e - 1),
                    lex_from(cs, e),
                    cs.len() as int,
                );
            }
        } else {
            lemma_lex_from_spans(cs, i + 1);
            lemma_cons_spans(tok(crate::lexer::symbol_type(c), i, i), lex_from(cs, i + 1), cs.len() as int);
        }
    }
}

/// The lexer accepts every text, and every token that it produces lies
/// within the source: `start <= end < len`, but for an empty string literal,
/// whose span is empty.
pub proof fn lemma_tokens_within_source(cs: Seq<char>)
    requires
        cs.len() <= usize::MAX,
    ensures
        forall|k: int| 0 <= k < lex(cs).len() ==> span_fits(#[trigger] lex(cs)[k], cs.len() as int),
{
    lemma_lex_from_spans(cs, 0);
}

proof fn lemma_nat_digits_are_digits(n: nat)
    ensures
        nat_digits(n).len() > 0,
        forall|k: int| 0 <= k < nat_digits(n).len() ==> is_digit(#[trigger] nat_digits(n)[k]),
    decreases n,
{
    if n >= 10 {
        lemma_nat_digits_are_digits(n / 10);
        let d = (n % 10) as int;
        assert(is_digit(digit_char(d)));
    } else {
        assert(is_digit(digit_char(n as int)));
    }
}

proof fn lemma_digits_run_to_end(cs: Seq<char>, i: int)
    requires
        0 <= i <= cs.len(),
        forall|k: int| 0 <= k < cs.len() ==> is_digit(#[trigger] cs[k]),
    ensures
        digits_end(cs, i) == cs.len(),
    decreases cs.len() - i,
{
    if i < cs.len() {
        lemma_digits_run_to_end(cs, i + 1);
    }
}

/// The decimal text of a non-negative 64-bit integer lexes as one integer
/// token, and the source under its span is that text again.
pub proof fn lemma_integer_literal_round_trip(n: int)
    requires
        0 <= n <= i64::MAX,
    ensures
        lex(nat_digits(n as nat)).len() == 1,
        lex(nat_digits(n as nat))[0]._type == TokenType::Integer,
        nat_digits(n as nat).subrange(
            lex(nat_digits(n as nat))[0].span.0 as int,
            lex(nat_digits(n as nat))[0].span.1 + 1,
        ) == nat_digits(n as nat),
{
    let cs = nat_digits(n as nat);
    lemma_nat_digits_are_digits(n as nat);
    lemma_digits_run_to_end(cs, 0);
    crate::text::lemma_nat_digits_len_bound(n as nat);
    assert(lex_from(cs, cs.len() as int) == Seq::<Token>::empty());
    assert(lex(cs) == seq![tok(TokenType::Integer, 0, cs.len() - 1)]);
    assert(cs.subrange(0, cs.len() as int) =~= cs);
}

pub open spec fn is_comparison(t: TokenType) -> bool {
    t == TokenType::Lt || t == TokenType::Gt || t == TokenType::Eq
}

/// A comparison takes exactly two operands: one whose operand list holds any
/// other number of expressions is rejected with `Arity`.
pub proof fn lemma_comparison_arity(toks: Seq<Token>, src: Seq<char>, i: int)
    requires
        0 <= i < toks.len(),
        is_comparison(toks[i]._type),
    ensures
        match parse_list_at(toks, src, i + 1, seq![]) {
            Ok((es, _)) => es.len() != 2 ==> parse_expr_at(toks, src, i) == Err::<(Expr, int), ParseError>(
                ParseError::Arity {
                    found: es.len() as usize,
                    start: toks[i].span.0,
                    end: toks[i].span.1,
                },
            ),
            Err(x) => parse_expr_at(toks, src, i) == Err::<(Expr, int), ParseError>(x),
        },
{
}

/// An `if` closed by `)` before its third parenthesised branch is rejected.
pub proof fn lemma_if_needs_three_branches(toks: Seq<Token>, src: Seq<char>, i: int)
    requires
        0 <= i < toks.len(),
        toks[i]._type == TokenType::If,
        ({
            let n = toks.len() as int;
            ||| i + 1 < n && toks[i + 1]._type == TokenType::RParen
            ||| match parse_paren_at(toks, src, i + 1) {
                Ok((_, k1)) => {
                    ||| (0 <= k1 < n && toks[k1]._type == TokenType::RParen)
                    ||| match parse_paren_at(toks, src, k1) {
                        Ok((_, k2)) => 0 <= k2 < n && toks[k2]._type == TokenType::RParen,
                        Err(_) => false,
                    }
                },
                Err(_) => false,
            }
        }),
    ensures
        parse_expr_at(toks, src, i) is Err,
{
    let n = toks.len() as int;
    if i + 1 < n && toks[i + 1]._type == TokenType::RParen {
        assert(parse_paren_at(toks, src, i + 1) is Err);
    } else {
        let (_, k1) = parse_paren_at(toks, src, i + 1)->Ok_0;
        if 0 <= k1 < n && toks[k1]._type == TokenType::RParen {
            assert(parse_paren_at(toks, src, k1) is Err);
        } else {
            let (_, k2) = parse_paren_at(toks, src, k1)->Ok_0;
            assert(parse_paren_at(toks, src, k2) is Err);
        }
    }
}

/// Inside parentheses an expression must be followed by `)`: so an `if`
/// with a fourth branch, or any form with a surplus operand, is rejected.
pub proof fn lemma_paren_rejects_surplus(toks: Seq<Token>, src: Seq<char>, p: int)
    requires
        0 <= p < toks.len(),
        toks[p]._type == TokenType::LParen,
        match parse_expr_at(toks, src, p + 1) {
            Ok((_, k)) => 0 <= k < toks.len() && toks[k]._type != TokenType::RParen,
            Err(_) => true,
        },
    ensures
        parse_paren_at(toks, src, p) is Err,
{
}

proof fn lemma_params_reject(toks: Seq<Token>, src: Seq<char>, j: int, m: int, acc: Seq<Seq<char>>)
    requires
        0 <= j <= m < toks.len(),
        toks[m]._type != TokenType::Identifier,
        toks[m]._type != TokenType::RParen,
        forall|q: int| j <= q < m ==> (#[trigger] toks[q])._type == TokenType::Identifier,
    ensures
        parse_params_at(toks, src, j, acc) is Err,
    decreases m - j,
{
    if j < m {
        match text_at(toks, src, j) {
            Ok(name) => {
                if !acc.contains(name) {
                    lemma_params_reject(toks, src, j + 1, m, acc.push(name));
                }
            },
            Err(_) => {},
        }
    }
}

/// A lambda whose parameter list holds a token other than an identifier
/// before its `)` is rejected.
pub proof fn lemma_lambda_params_are_identifiers(toks: Seq<Token>, src: Seq<char>, i: int, m: int)
    requires
        0 <= i,
        i + 1 < m < toks.len(),
        toks[i]._type == TokenType::Lambda,
        toks[i + 1]._type == TokenType::LParen,
        toks[m]._type != TokenType::Identifier,
        toks[m]._type != TokenType::RParen,
        forall|q: int| i + 1 < q < m ==> (#[trigger] toks[q])._type == TokenType::Identifier,
    ensures
        parse_expr_at(toks, src, i) is Err,
{
    lemma_params_reject(toks, src, i + 2, m, seq![]);
}

pub open spec fn number(n: i64) -> Expr {
    Expr::Number(n)
}

pub open spec fn sum_expr(es: Seq<Expr>) -> Expr {
    Expr::Arithmetic(ArithmeticOp::Plus, es)
}

/// `(+ a b)` and `(+ b a)` both evaluate to `a + b` when the sum does not
/// overflow, and leave the state as it was.
pub proof fn lemma_addition_commutes(fuel: nat, input: Seq<Seq<char>>, st: State, a: i64, b: i64)
    requires
        i64::MIN <= a + b <= i64::MAX,
    ensures
        eval(fuel, input, st, sum_expr(seq![number(a), number(b)])) == (
            st,
            Ok::<Value, RuntimeError>(Value::Number((a + b) as i64)),
        ),
        eval(fuel, input, st, sum_expr(seq![number(a), number(b)])) == eval(
            fuel,
            input,
            st,
            sum_expr(seq![number(b), number(a)]),
        ),
{
    lemma_sum_of_two(fuel, input, st, a, b);
    lemma_sum_of_two(fuel, input, st, b, a);
}

proof fn lemma_sum_of_two(fuel: nat, input: Seq<Seq<char>>, st: State, a: i64, b: i64)
    requires
        i64::MIN <= a + b <= i64::MAX,
    ensures
        eval(fuel, input, st, sum_expr(seq![number(a), number(b)])) == (
            st,
            Ok::<Value, RuntimeError>(Value::Number((a + b) as i64)),
        ),
{
    let es = seq![number(a), number(b)];
    let rest = es.subrange(1, 2);
    assert(rest =~= seq![number(b)]);
    assert(rest.subrange(1, 1) =~= Seq::<Expr>::empty());
    assert(eval(fuel, input, st, es[0]) == (st, Ok::<Value, RuntimeError>(Value::Number(a))));
    assert(eval(fuel, input, st, rest[0]) == (st, Ok::<Value, RuntimeError>(Value::Number(b))));
    let ns = seq![a, b];
    assert(seq![a].push(b) =~= ns);
    assert(crate::interpreter::eval_operands(fuel, input, st, rest.subrange(1, 1), ns) == (
        st,
        Ok::<Seq<i64>, RuntimeError>(ns),
    ));
    assert(crate::interpreter::eval_operands(fuel, input, st, rest, seq![a]) == (
        st,
        Ok::<Seq<i64>, RuntimeError>(ns),
    ));
    assert(Seq::<i64>::empty().push(a) =~= seq![a]);
    assert(crate::interpreter::eval_operands(fuel, input, st, es, seq![]) == (
        st,
        Ok::<Seq<i64>, RuntimeError>(ns),
    ));
    lemma_sum_of_one(a);
    assert(ns.drop_last() =~= seq![a]);
    assert(ns.last() == b);
    assert(crate::interpreter::sum_of(ns) == a.wrapping_add(b));
    assert(crate::interpreter::sum_of(ns) == (a + b) as i64);
}

/// `(+ a)` evaluates to `a`.
pub proof fn lemma_unary_plus(fuel: nat, input: Seq<Seq<char>>, st: State, a: i64)
    ensures
        eval(fuel, input, st, sum_expr(seq![number(a)])) == eval(fuel, input, st, number(a)),
{
    let es = seq![number(a)];
    assert(es.subrange(1, 1) =~= Seq::<Expr>::empty());
    assert(eval(fuel, input, st, es[0]) == (st, Ok::<Value, RuntimeError>(Value::Number(a))));
    assert(Seq::<i64>::empty().push(a) =~= seq![a]);
    assert(crate::interpreter::eval_operands(fuel, input, st, es.subrange(1, 1), seq![a]) == (
        st,
        Ok::<Seq<i64>, RuntimeError>(seq![a]),
    ));
    assert(crate::interpreter::eval_operands(fuel, input, st, es, seq![]) == (
        st,
        Ok::<Seq<i64>, RuntimeError>(seq![a]),
    ));
    lemma_sum_of_one(a);
}

proof fn lemma_sum_of_one(a: i64)
    ensures
        crate::interpreter::sum_of(seq![a]) == a,
{
    assert(seq![a].drop_last() =~= Seq::<i64>::empty());
    assert(crate::interpreter::sum_of(Seq::<i64>::empty()) == 0);
    assert(crate::interpreter::sum_of(seq![a]) == 0i64.wrapping_add(a));
}

pub open spec fn equals_expr(a: i64, b: i64) -> Expr {
    Expr::Binary(BinaryOp::Eq, Box::new(number(a)), Box::new(number(b)))
}

pub open spec fn if_expr(c: Expr, t: Expr, f: Expr) -> Expr {
    Expr::If(Box::new(c), Box::new(t), Box::new(f))
}

/// An `if` whose condition evaluates to a boolean evaluates only the chosen
/// branch, from the state that the condition left.
pub proof fn lemma_if_evaluates_one_branch(
    fuel: nat,
    input: Seq<Seq<char>>,
    st: State,
    c: Expr,
    t: Expr,
    f: Expr,
)
    requires
        eval(fuel, input, st, c).1 is Ok,
        eval(fuel, input, st, c).1->Ok_0 is Boolean,
    ensures
        eval(fuel, input, st, if_expr(c, t, f)) == (if eval(fuel, input, st, c).1->Ok_0->Boolean_0 {
            eval(fuel, input, eval(fuel, input, st, c).0, t)
        } else {
            eval(fuel, input, eval(fuel, input, st, c).0, f)
        }),
{
}

/// In `(if (= a a) (e1) (e2))`, such as `(if (= 1 1) (e1) (e2))`, only `e1`
/// is evaluated: the whole has exactly the effects and the value of `e1`
/// alone.
pub proof fn lemma_if_true_skips_else(
    fuel: nat,
    input: Seq<Seq<char>>,
    st: State,
    a: i64,
    e1: Expr,
    e2: Expr,
)
    ensures
        eval(fuel, input, st, if_expr(equals_expr(a, a), e1, e2)) == eval(fuel, input, st, e1),
{
    assert(eval(fuel, input, st, number(a)) == (st, Ok::<Value, RuntimeError>(Value::Number(a))));
    assert(eval(fuel, input, st, equals_expr(a, a)) == (
        st,
        Ok::<Value, RuntimeError>(Value::Boolean(true)),
    ));
}

/// In `(if (= a b) (e1) (e2))` with `a != b`, such as `(if (= 1 2) (e1)
/// (e2))`, only `e2` is evaluated: the whole has exactly the effects and the
/// value of `e2` alone.
pub proof fn lemma_if_false_skips_then(
    fuel: nat,
    input: Seq<Seq<char>>,
    st: State,
    a: i64,
    b: i64,
    e1: Expr,
    e2: Expr,
)
    requires
        a != b,
    ensures
        eval(fuel, input, st, if_expr(equals_expr(a, b), e1, e2)) == eval(fuel, input, st, e2),
{
    assert(eval(fuel, input, st, number(a)) == (st, Ok::<Value, RuntimeError>(Value::Number(a))));
    assert(eval(fuel, input, st, number(b)) == (st, Ok::<Value, RuntimeError>(Value::Number(b))));
    assert(eval(fuel, input, st, equals_expr(a, b)) == (
        st,
        Ok::<Value, RuntimeError>(Value::Boolean(false)),
    ));
}

/// After `(define x (n))`, which yields `_void`, evaluating `x` yields `n`.
pub proof fn lemma_define_then_recall(
    fuel: nat,
    input: Seq<Seq<char>>,
    st: State,
    x: Seq<char>,
    n: i64,
)
    ensures
        eval(fuel, input, st, Expr::Define(x, Box::new(number(n)))).1 == Ok::<Value, RuntimeError>(
            Value::Void,
        ),
        eval(
            fuel,
            input,
            eval(fuel, input, st, Expr::Define(x, Box::new(number(n)))).0,
            Expr::Identifier(x),
        ) == (
            eval(fuel, input, st, Expr::Define(x, Box::new(number(n)))).0,
            Ok::<Value, RuntimeError>(Value::Number(n)),
        ),
{
    assert(eval(fuel, input, st, number(n)) == (st, Ok::<Value, RuntimeError>(Value::Number(n))));
}

pub open spec fn names_distinct(ps: Seq<Seq<char>>) -> bool {
    forall|i: int, j: int| 0 <= i < j < ps.len() ==> ps[i] != ps[j]
}

/// The invariants of an expression tree: `+` and `-` have operands, a
/// lambda names each parameter once, and so on through every sub-expression.
/// (A comparison has two operands and an `if` three branches by its shape.)
pub open spec fn well_formed(e: Expr) -> bool
    decreases e,
{
    match e {
        Expr::Arithmetic(_, es) => es.len() > 0 && all_well_formed(es),
        Expr::Binary(_, l, r) => well_formed(*l) && well_formed(*r),
        Expr::If(c, t, f) => well_formed(*c) && well_formed(*t) && well_formed(*f),
        Expr::Define(_, x) => well_formed(*x),
        Expr::Lambda(ps, body) => names_distinct(ps) && well_formed(*body),
        Expr::FunCall(_, args) => all_well_formed(args),
        Expr::Print(x) => well_formed(*x),
        _ => true,
    }
}

pub open spec fn all_well_formed(es: Seq<Expr>) -> bool
    decreases es,
{
    if es.len() == 0 {
        true
    } else {
        well_formed(es[0]) && all_well_formed(es.subrange(1, es.len() as int))
    }
}

proof fn lemma_all_well_formed(es: Seq<Expr>)
    ensures
        all_well_formed(es) <==> forall|i: int| 0 <= i < es.len() ==> well_formed(#[trigger] es[i]),
    decreases es.len(),
{
    if es.len() > 0 {
        let rest = es.subrange(1, es.len() as int);
        lemma_all_well_formed(rest);
        if forall|i: int| 0 <= i < es.len() ==> well_formed(#[trigger] es[i]) {
            assert forall|i: int| 0 <= i < rest.len() implies well_formed(#[trigger] rest[i]) by {
                assert(rest[i] == es[i + 1]);
            }
        }
        if all_well_formed(es) {
            assert forall|i: int| 0 <= i < es.len() implies well_formed(#[trigger] es[i]) by {
                if i > 0 {
                    assert(es[i] == rest[i - 1]);
                }
            }
        }
    }
}

proof fn lemma_all_well_formed_push(es: Seq<Expr>, e: Expr)
    requires
        all_well_formed(es),
        well_formed(e),
    ensures
        all_well_formed(es.push(e)),
{
    lemma_all_well_formed(es);
    lemma_all_well_formed(es.push(e));
    assert forall|i: int| 0 <= i < es.push(e).len() implies well_formed(#[trigger] es.push(e)[i]) by {
        if i < es.len() {
            assert(es.push(e)[i] == es[i]);
        }
    }
}

proof fn lemma_params_distinct(toks: Seq<Token>, src: Seq<char>, i: int, acc: Seq<Seq<char>>)
    requires
        names_distinct(acc),
    ensures
        match parse_params_at(toks, src, i, acc) {
            Ok((ps, _)) => names_distinct(ps),
            Err(_) => true,
        },
    decreases toks.len() - i,
{
    if 0 <= i < toks.len() && toks[i]._type == TokenType::Identifier {
        match text_at(toks, src, i) {
            Ok(name) => {
                if !acc.contains(name) {
                    let next = acc.push(name);
                    assert forall|a: int, b: int| 0 <= a < b < next.len() implies next[a] != next[b] by {
                        if b == acc.len() {
                            assert(next[a] == acc[a]);
                        }
                    }
                    lemma_params_distinct(toks, src, i + 1, next);
                }
            },
            Err(_) => {},
        }
    }
}

proof fn lemma_paren_well_formed(toks: Seq<Token>, src: Seq<char>, i: int)
    ensures
        match parse_paren_at(toks, src, i) {
            Ok((e, _)) => well_formed(e),
            Err(_) => true,
        },
    decreases toks.len() - i, 1int,
{
    if 0 <= i < toks.len() && toks[i]._type == TokenType::LParen {
        lemma_expr_well_formed(toks, src, i + 1);
    }
}

proof fn lemma_list_well_formed(toks: Seq<Token>, src: Seq<char>, i: int, acc: Seq<Expr>)
    requires
        all_well_formed(acc),
    ensures
        match parse_list_at(toks, src, i, acc) {
            Ok((es, _)) => all_well_formed(es),
            Err(_) => true,
        },
    decreases toks.len() - i, 1int,
{
    if 0 <= i < toks.len() && toks[i]._type != TokenType::RParen {
        lemma_expr_well_formed(toks, src, i);
        match parse_expr_at(toks, src, i) {
            Ok((e, k)) => {
                if i < k <= toks.len() {
                    lemma_all_well_formed_push(acc, e);
                    lemma_list_well_formed(toks, src, k, acc.push(e));
                }
            },
            Err(_) => {},
        }
    }
}

proof fn lemma_expr_well_formed(toks: Seq<Token>, src: Seq<char>, i: int)
    ensures
        match parse_expr_at(toks, src, i) {
            Ok((e, _)) => well_formed(e),
            Err(_) => true,
        },
    decreases toks.len() - i, 0int,
{
    if 0 <= i < toks.len() {
        let n = toks.len() as int;
        let t = toks[i]._type;
        if t == TokenType::LParen {
            lemma_expr_well_formed(toks, src, i + 1);
        } else if t == TokenType::If {
            lemma_paren_well_formed(toks, src, i + 1);
            match parse_paren_at(toks, src, i + 1) {
                Ok((_, k1)) => if i < k1 <= n {
                    lemma_paren_well_formed(toks, src, k1);
                    match parse_paren_at(toks, src, k1) {
                        Ok((_, k2)) => if i < k2 <= n {
                            lemma_paren_well_formed(toks, src, k2);
                        },
                        Err(_) => {},
                    }
                },
                Err(_) => {},
            }
        } else if t == TokenType::Print {
            lemma_paren_well_formed(toks, src, i + 1);
        } else if t == TokenType::Plus || t == TokenType::Minus || is_comparison(t)
            || t == TokenType::Quote {
            let j = if t == TokenType::Quote { i + 3 } else { i + 1 };
            if j <= n {
                lemma_list_well_formed(toks, src, j, seq![]);
                match parse_list_at(toks, src, j, seq![]) {
                    Ok((es, _)) => {
                        lemma_all_well_formed(es);
                    },
                    Err(_) => {},
                }
            }
        } else if t == TokenType::Define {
            if i + 2 <= n {
                lemma_paren_well_formed(toks, src, i + 2);
            }
        } else if t == TokenType::Lambda {
            lemma_params_distinct(toks, src, i + 2, seq![]);
            match parse_params_at(toks, src, i + 2, seq![]) {
                Ok((_, k)) => if i < k <= n {
                    lemma_paren_well_formed(toks, src, k);
                },
                Err(_) => {},
            }
        }
    }
}

proof fn lemma_program_well_formed(toks: Seq<Token>, src: Seq<char>, i: int, acc: Seq<Expr>)
    requires
        all_well_formed(acc),
    ensures
        match parse_program_at(toks, src, i, acc) {
            Ok(es) => all_well_formed(es),
            Err(_) => true,
        },
    decreases toks.len() - i,
{
    if 0 <= i < toks.len() {
        lemma_paren_well_formed(toks, src, i);
        match parse_paren_at(toks, src, i) {
            Ok((e, k)) => if i < k <= toks.len() {
                lemma_all_well_formed_push(acc, e);
                lemma_program_well_formed(toks, src, k, acc.push(e));
            },
            Err(_) => {},
        }
    }
}

/// Every program that parses is well formed: each of its expressions, down
/// to the innermost, satisfies the invariants of the expression tree.
pub proof fn lemma_parsed_programs_well_formed(toks: Seq<Token>, src: Seq<char>)
    ensures
        parse_program(toks, src) is Ok ==> forall|i: int|
            0 <= i < parse_program(toks, src)->Ok_0.len() ==> well_formed(
                #[trigger] parse_program(toks, src)->Ok_0[i],
            ),
{
    lemma_program_well_formed(toks, src, 0, seq![]);
    if parse_program(toks, src) is Ok {
        lemma_all_well_formed(parse_program(toks, src)->Ok_0);
    }
}

/// A function call leaves the environment as its arguments left it: what
/// the body defines, and the parameters it binds, are gone after the call,
/// whether the body succeeded or failed. A call that stops before its
/// arguments (unbound name, no function, wrong number of arguments) changes
/// nothing.
pub proof fn lemma_call_restores_environment(
    fuel: nat,
    input: Seq<Seq<char>>,
    st: State,
    name: Seq<char>,
    args: Seq<Expr>,
)
    ensures
        eval(fuel, input, st, Expr::FunCall(name, args)).0.env == (if st.env.contains_key(name)
            && st.env[name] is Function && st.env[name]->Function_0.len() == args.len() {
            eval_args(fuel, input, st, args, seq![]).0.env
        } else {
            st.env
        }),
{
}

/// The parser reaches position `i` with the forms `acc` read before it.
pub open spec fn reaches(toks: Seq<Token>, src: Seq<char>, i: int, acc: Seq<Expr>) -> bool {
    parse_program(toks, src) == parse_program_at(toks, src, i, acc)
}

/// A program whose parse reaches a top-level form `(e)` at `i` and fails on
/// `e` is rejected as a whole.
pub proof fn lemma_program_rejects_bad_form(toks: Seq<Token>, src: Seq<char>, i: int, acc: Seq<Expr>)
    requires
        reaches(toks, src, i, acc),
        0 <= i < toks.len(),
        toks[i]._type == TokenType::LParen,
        parse_expr_at(toks, src, i + 1) is Err,
    ensures
        parse_program(toks, src) is Err,
{
}

/// A program with a top-level comparison of other than two operands is
/// rejected as a whole.
pub proof fn lemma_program_rejects_comparison_arity(
    toks: Seq<Token>,
    src: Seq<char>,
    i: int,
    acc: Seq<Expr>,
)
    requires
        reaches(toks, src, i, acc),
        0 <= i,
        i + 1 < toks.len(),
        toks[i]._type == TokenType::LParen,
        is_comparison(toks[i + 1]._type),
        match parse_list_at(toks, src, i + 2, seq![]) {
            Ok((es, _)) => es.len() != 2,
            Err(_) => true,
        },
    ensures
        parse_program(toks, src) is Err,
{
    lemma_comparison_arity(toks, src, i + 1);
    lemma_program_rejects_bad_form(toks, src, i, acc);
}

/// A program with a top-level `if` closed before its third branch is
/// rejected as a whole.
pub proof fn lemma_program_rejects_short_if(toks: Seq<Token>, src: Seq<char>, i: int, acc: Seq<Expr>)
    requires
        reaches(toks, src, i, acc),
        0 <= i,
        i + 1 < toks.len(),
        toks[i]._type == TokenType::LParen,
        toks[i + 1]._type == TokenType::If,
        ({
            let n = toks.len() as int;
            ||| i + 2 < n && toks[i + 2]._type == TokenType::RParen
            ||| match parse_paren_at(toks, src, i + 2) {
                Ok((_, k1)) => {
                    ||| (0 <= k1 < n && toks[k1]._type == TokenType::RParen)
                    ||| match parse_paren_at(toks, src, k1) {
                        Ok((_, k2)) => 0 <= k2 < n && toks[k2]._type == TokenType::RParen,
                        Err(_) => false,
                    }
                },
                Err(_) => false,
            }
        }),
    ensures
        parse_program(toks, src) is Err,
{
    lemma_if_needs_three_branches(toks, src, i + 1);
    lemma_program_rejects_bad_form(toks, src, i, acc);
}

/// A program with a top-level `if` followed by a fourth parenthesised branch
/// is rejected as a whole.
pub proof fn lemma_program_rejects_long_if(toks: Seq<Token>, src: Seq<char>, i: int, acc: Seq<Expr>)
    requires
        reaches(toks, src, i, acc),
        0 <= i,
        i + 1 < toks.len(),
        toks[i]._type == TokenType::LParen,
        toks[i + 1]._type == TokenType::If,
        match parse_expr_at(toks, src, i + 1) {
            Ok((_, k)) => 0 <= k < toks.len() && toks[k]._type == TokenType::LParen,
            Err(_) => true,
        },
    ensures
        parse_program(toks, src) is Err,
{
    lemma_paren_rejects_surplus(toks, src, i);
}

/// A program with a top-level lambda whose parameter list holds a token
/// other than an identifier is rejected as a whole.
pub proof fn lemma_program_rejects_bad_lambda(
    toks: Seq<Token>,
    src: Seq<char>,
    i: int,
    m: int,
    acc: Seq<Expr>,
)
    requires
        reaches(toks, src, i, acc),
        0 <= i,
        i + 2 < m < toks.len(),
        toks[i]._type == TokenType::LParen,
        toks[i + 1]._type == TokenType::Lambda,
        toks[i + 2]._type == TokenType::LParen,
        toks[m]._type != TokenType::Identifier,
        toks[m]._type != TokenType::RParen,
        forall|q: int| i + 2 < q < m ==> (#[trigger] toks[q])._type == TokenType::Identifier,
    ensures
        parse_program(toks, src) is Err,
{
    lemma_lambda_params_are_identifiers(toks, src, i + 1, m);
    lemma_program_rejects_bad_form(toks, src, i, acc);
}

/// The parser starts at the first token with no form read.
pub proof fn lemma_reaches_start(toks: Seq<Token>, src: Seq<char>)
    ensures
        reaches(toks, src, 0, seq![]),
{
}

/// After a form that parses, the parser reaches the token after its `)`.
pub proof fn lemma_reaches_next(toks: Seq<Token>, src: Seq<char>, i: int, acc: Seq<Expr>)
    requires
        reaches(toks, src, i, acc),
        0 <= i < toks.len(),
        parse_paren_at(toks, src, i) is Ok,
    ensures
        ({
            let (e, k) = parse_paren_at(toks, src, i)->Ok_0;
            i < k <= toks.len() ==> reaches(toks, src, k, acc.push(e))
        }),
{
}

} // verus!
