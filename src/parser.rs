//! The parser: a recursive-descent reader, one token of lookahead, from the
//! lexer's tokens to a list of top-level expressions. It stops at the first
//! token that does not fit the grammar and reports it.
use vstd::prelude::*;
use crate::lexer::{Token, TokenType};
use crate::text::{i64_value, parse_i64};
use vstd::string::StrSliceExecFns;

verus! {

#[derive(Debug, Clone, Copy, PartialEq, Eq, Structural)]
pub enum ArithmeticOp {
    Plus,
    Minus,
}

#[derive(Debug, Clone, Copy, PartialEq, Eq, Structural)]
pub enum BinaryOp {
    Lt,
    Gt,
    Eq,
}

#[derive(Debug, Clone, Copy, PartialEq, Eq, Structural)]
pub enum InputType {
    String,
    Number,
}

/// An expression of the language.
#[derive(Debug, PartialEq)]
pub enum AST {
    Binary(BinaryOp, Box<AST>, Box<AST>),
    Arithmetic(ArithmeticOp, Vec<AST>),
    If(Box<AST>, Box<AST>, Box<AST>),
    Define(String, Box<AST>),
    Identifier(String),
    Input(InputType),
    Number(i64),
    String(String),
    Boolean(bool),
    Print(Box<AST>),
    Lambda(Vec<String>, Box<AST>),
    FunCall(String, Vec<AST>),
}

/// The mathematical form of an expression: strings as character sequences,
/// lists as sequences.
pub enum Expr {
    Binary(BinaryOp, Box<Expr>, Box<Expr>),
    Arithmetic(ArithmeticOp, Seq<Expr>),
    If(Box<Expr>, Box<Expr>, Box<Expr>),
    Define(Seq<char>, Box<Expr>),
    Identifier(Seq<char>),
    Input(InputType),
    Number(i64),
    Str(Seq<char>),
    Boolean(bool),
    Print(Box<Expr>),
    Lambda(Seq<Seq<char>>, Box<Expr>),
    FunCall(Seq<char>, Seq<Expr>),
}

pub open spec fn names_view(v: Seq<String>) -> Seq<Seq<char>> {
    v.map_values(|s: String| s@)
}

pub open spec fn ast_view(a: AST) -> Expr
    decreases a,
{
    match a {
        AST::Binary(op, l, r) => Expr::Binary(op, Box::new(ast_view(*l)), Box::new(ast_view(*r))),
        AST::Arithmetic(op, v) => Expr::Arithmetic(op, asts_view(v@)),
        AST::If(c, t, f) => Expr::If(
            Box::new(ast_view(*c)),
            Box::new(ast_view(*t)),
            Box::new(ast_view(*f)),
        ),
        AST::Define(n, e) => Expr::Define(n@, Box::new(ast_view(*e))),
        AST::Identifier(n) => Expr::Identifier(n@),
        AST::Input(k) => Expr::Input(k),
        AST::Number(n) => Expr::Number(n),
        AST::String(s) => Expr::Str(s@),
        AST::Boolean(b) => Expr::Boolean(b),
        AST::Print(e) => Expr::Print(Box::new(ast_view(*e))),
        AST::Lambda(ps, body) => Expr::Lambda(names_view(ps@), Box::new(ast_view(*body))),
        AST::FunCall(n, args) => Expr::FunCall(n@, asts_view(args@)),
    }
}

pub open spec fn asts_view(s: Seq<AST>) -> Seq<Expr>
    decreases s,
{
    if s.len() == 0 {
        seq![]
    } else {
        seq![ast_view(s[0])] + asts_view(s.subrange(1, s.len() as int))
    }
}

impl View for AST {
    type V = Expr;

    open spec fn view(&self) -> Expr {
        ast_view(*self)
    }
}

/// Why parsing stopped.
#[derive(Debug, Clone, Copy, PartialEq, Eq, Structural)]
pub enum ParseError {
    /// The tokens ended where an expression was needed.
    UnexpectedEof,
    /// The tokens ended where a token of kind `expected` was needed.
    MissingToken { expected: TokenType },
    /// A token of kind `expected` was needed; `found` stands at `start..=end`.
    Expected { expected: TokenType, found: TokenType, start: usize, end: usize },
    /// A token that starts no expression.
    Unexpected { found: TokenType, start: usize, end: usize },
    /// A comparison with other than two operands.
    Arity { found: usize, start: usize, end: usize },
    /// `+` or `-` without operands.
    NoOperands { start: usize, end: usize },
    /// An integer literal that is no signed 64-bit value.
    BadInteger { start: usize, end: usize },
    /// A lambda that names one parameter twice.
    DuplicateParameter { start: usize, end: usize },
    /// A token whose span lies outside the source.
    BadSpan { start: usize, end: usize },
}

pub open spec fn expected_at(toks: Seq<Token>, i: int, t: TokenType) -> ParseError {
    ParseError::Expected {
        expected: t,
        found: toks[i]._type,
        start: toks[i].span.0,
        end: toks[i].span.1,
    }
}

/// The position after the token at `i`, when it is of kind `t`.
pub open spec fn expect_at(toks: Seq<Token>, i: int, t: TokenType) -> Result<int, ParseError> {
    if i < 0 || i >= toks.len() {
        Err(ParseError::MissingToken { expected: t })
    } else if toks[i]._type != t {
        Err(expected_at(toks, i, t))
    } else {
        Ok(i + 1)
    }
}

/// The source text that the token at `i` covers.
pub open spec fn text_at(toks: Seq<Token>, src: Seq<char>, i: int) -> Result<Seq<char>, ParseError>
    recommends
        0 <= i < toks.len(),
{
    let (s, e) = toks[i].span;
    if e < src.len() && s <= e + 1 {
        Ok(src.subrange(s as int, e + 1))
    } else {
        Err(ParseError::BadSpan { start: s, end: e })
    }
}

pub open spec fn advanced(k: int, i: int, n: int) -> bool {
    i < k <= n
}

/// `'(' expr ')'` at `i`: the expression and the position after the `)`.
pub open spec fn parse_paren_at(toks: Seq<Token>, src: Seq<char>, i: int) -> Result<
    (Expr, int),
    ParseError,
>
    decreases toks.len() - i, 1int,
{
    match expect_at(toks, i, TokenType::LParen) {
        Err(err) => Err(err),
        Ok(j) => match parse_expr_at(toks, src, j) {
            Err(err) => Err(err),
            Ok((e, k)) => match expect_at(toks, k, TokenType::RParen) {
                Err(err) => Err(err),
                Ok(m) => Ok((e, m)),
            },
        },
    }
}

/// Expressions up to the next `)` (not consumed) or the end of the tokens,
/// after those already in `acc`.
pub open spec fn parse_list_at(toks: Seq<Token>, src: Seq<char>, i: int, acc: Seq<Expr>) -> Result<
    (Seq<Expr>, int),
    ParseError,
>
    decreases toks.len() - i, 1int,
{
    if i < 0 || i >= toks.len() || toks[i]._type == TokenType::RParen {
        Ok((acc, i))
    } else {
        match parse_expr_at(toks, src, i) {
            Err(err) => Err(err),
            Ok((e, k)) => if advanced(k, i, toks.len() as int) {
                parse_list_at(toks, src, k, acc.push(e))
            } else {
                Err(ParseError::UnexpectedEof)
            },
        }
    }
}

/// Parameter names up to and including the closing `)`, after those in `acc`.
pub open spec fn parse_params_at(
    toks: Seq<Token>,
    src: Seq<char>,
    i: int,
    acc: Seq<Seq<char>>,
) -> Result<(Seq<Seq<char>>, int), ParseError>
    decreases toks.len() - i,
{
    if i < 0 || i >= toks.len() {
        Err(ParseError::MissingToken { expected: TokenType::RParen })
    } else if toks[i]._type == TokenType::RParen {
        Ok((acc, i + 1))
    } else if toks[i]._type != TokenType::Identifier {
        Err(expected_at(toks, i, TokenType::Identifier))
    } else {
        match text_at(toks, src, i) {
            Err(err) => Err(err),
            Ok(name) => if acc.contains(name) {
                Err(ParseError::DuplicateParameter { start: toks[i].span.0, end: toks[i].span.1 })
            } else {
                parse_params_at(toks, src, i + 1, acc.push(name))
            },
        }
    }
}

/// One expression at `i`: the expression and the position after it.
pub open spec fn parse_expr_at(toks: Seq<Token>, src: Seq<char>, i: int) -> Result<
    (Expr, int),
    ParseError,
>
    decreases toks.len() - i, 0int,
{
    if i < 0 || i >= toks.len() {
        Err(ParseError::UnexpectedEof)
    } else {
        let t = toks[i];
        let n = toks.len() as int;
        match t._type {
            TokenType::True => Ok((Expr::Boolean(true), i + 1)),
            TokenType::False => Ok((Expr::Boolean(false), i + 1)),
            TokenType::ReadN => Ok((Expr::Input(InputType::Number), i + 1)),
            TokenType::ReadS => Ok((Expr::Input(InputType::String), i + 1)),
            TokenType::Integer => match text_at(toks, src, i) {
                Err(err) => Err(err),
                Ok(txt) => match i64_value(txt) {
                    Some(v) => Ok((Expr::Number(v), i + 1)),
                    None => Err(ParseError::BadInteger { start: t.span.0, end: t.span.1 }),
                },
            },
            TokenType::String => match text_at(toks, src, i) {
                Err(err) => Err(err),
                Ok(txt) => Ok((Expr::Str(txt), i + 1)),
            },
            TokenType::Identifier => match text_at(toks, src, i) {
                Err(err) => Err(err),
                Ok(txt) => Ok((Expr::Identifier(txt), i + 1)),
            },
            TokenType::LParen => match parse_expr_at(toks, src, i + 1) {
                Err(err) => Err(err),
                Ok((e, k)) => match expect_at(toks, k, TokenType::RParen) {
                    Err(err) => Err(err),
                    Ok(m) => Ok((e, m)),
                },
            },
            TokenType::If => match parse_paren_at(toks, src, i + 1) {
                Err(err) => Err(err),
                Ok((c, k1)) => if !advanced(k1, i, n) {
                    Err(ParseError::UnexpectedEof)
                } else {
                    match parse_paren_at(toks, src, k1) {
                        Err(err) => Err(err),
                        Ok((a, k2)) => if !advanced(k2, i, n) {
                            Err(ParseError::UnexpectedEof)
                        } else {
                            match parse_paren_at(toks, src, k2) {
                                Err(err) => Err(err),
                                Ok((b, k3)) => Ok(
                                    (Expr::If(Box::new(c), Box::new(a), Box::new(b)), k3),
                                ),
                            }
                        },
                    }
                },
            },
            TokenType::Print => match parse_paren_at(toks, src, i + 1) {
                Err(err) => Err(err),
                Ok((e, k)) => Ok((Expr::Print(Box::new(e)), k)),
            },
            TokenType::Plus | TokenType::Minus => match parse_list_at(toks, src, i + 1, seq![]) {
                Err(err) => Err(err),
                Ok((es, k)) => if es.len() == 0 {
                    Err(ParseError::NoOperands { start: t.span.0, end: t.span.1 })
                } else {
                    let op = if t._type == TokenType::Plus {
                        ArithmeticOp::Plus
                    } else {
                        ArithmeticOp::Minus
                    };
                    Ok((Expr::Arithmetic(op, es), k))
                },
            },
            TokenType::Lt | TokenType::Gt | TokenType::Eq => match parse_list_at(
                toks,
                src,
                i + 1,
                seq![],
            ) {
                Err(err) => Err(err),
                Ok((es, k)) => if es.len() != 2 {
                    Err(ParseError::Arity { found: es.len() as usize, start: t.span.0, end: t.span.1 })
                } else {
                    let op = if t._type == TokenType::Lt {
                        BinaryOp::Lt
                    } else if t._type == TokenType::Gt {
                        BinaryOp::Gt
                    } else {
                        BinaryOp::Eq
                    };
                    Ok((Expr::Binary(op, Box::new(es[0]), Box::new(es[1])), k))
                },
            },
            TokenType::Define => match expect_at(toks, i + 1, TokenType::Identifier) {
                Err(err) => Err(err),
                Ok(j) => match text_at(toks, src, i + 1) {
                    Err(err) => Err(err),
                    Ok(name) => match parse_paren_at(toks, src, j) {
                        Err(err) => Err(err),
                        Ok((e, k)) => Ok((Expr::Define(name, Box::new(e)), k)),
                    },
                },
            },
            TokenType::Lambda => match expect_at(toks, i + 1, TokenType::LParen) {
                Err(err) => Err(err),
                Ok(j) => match parse_params_at(toks, src, j, seq![]) {
                    Err(err) => Err(err),
                    Ok((ps, k)) => if !advanced(k, i, n) {
                        Err(ParseError::UnexpectedEof)
                    } else {
                        match parse_paren_at(toks, src, k) {
                            Err(err) => Err(err),
                            Ok((body, m)) => Ok((Expr::Lambda(ps, Box::new(body)), m)),
                        }
                    },
                },
            },
            TokenType::Quote => match expect_at(toks, i + 1, TokenType::Identifier) {
                Err(err) => Err(err),
                Ok(j) => match text_at(toks, src, i + 1) {
                    Err(err) => Err(err),
                    Ok(name) => match expect_at(toks, j, TokenType::LParen) {
                        Err(err) => Err(err),
                        Ok(j2) => match parse_list_at(toks, src, j2, seq![]) {
                            Err(err) => Err(err),
                            Ok((args, k)) => match expect_at(toks, k, TokenType::RParen) {
                                Err(err) => Err(err),
                                Ok(m) => Ok((Expr::FunCall(name, args), m)),
                            },
                        },
                    },
                },
            },
            _ => Err(ParseError::Unexpected { found: t._type, start: t.span.0, end: t.span.1 }),
        }
    }
}

/// Top-level forms `'(' expr ')'` from `i` to the end, after those in `acc`.
pub open spec fn parse_program_at(toks: Seq<Token>, src: Seq<char>, i: int, acc: Seq<Expr>) -> Result<
    Seq<Expr>,
    ParseError,
>
    decreases toks.len() - i,
{
    if i < 0 || i >= toks.len() {
        Ok(acc)
    } else {
        match parse_paren_at(toks, src, i) {
            Err(err) => Err(err),
            Ok((e, k)) => if advanced(k, i, toks.len() as int) {
                parse_program_at(toks, src, k, acc.push(e))
            } else {
                Err(ParseError::UnexpectedEof)
            },
        }
    }
}

/// The top-level expressions of a whole token sequence.
pub open spec fn parse_program(toks: Seq<Token>, src: Seq<char>) -> Result<Seq<Expr>, ParseError> {
    parse_program_at(toks, src, 0, seq![])
}


pub proof fn lemma_asts_view(s: Seq<AST>)
    ensures
        asts_view(s).len() == s.len(),
        forall|i: int| 0 <= i < s.len() ==> #[trigger] asts_view(s)[i] == ast_view(s[i]),
    decreases s.len(),
{
    if s.len() > 0 {
        lemma_asts_view(s.subrange(1, s.len() as int));
    }
}

pub proof fn lemma_asts_view_push(s: Seq<AST>, a: AST)
    ensures
        asts_view(s.push(a)) == asts_view(s).push(ast_view(a)),
{
    lemma_asts_view(s);
    lemma_asts_view(s.push(a));
    assert(asts_view(s.push(a)) =~= asts_view(s).push(ast_view(a)));
}

pub proof fn lemma_asts_view_empty()
    ensures
        asts_view(Seq::<AST>::empty()) == Seq::<Expr>::empty(),
{
}

/// `r` is what the grammar gives for one expression, `pos` the position after it.
pub open spec fn expr_outcome(r: Result<AST, ParseError>, s: Result<(Expr, int), ParseError>, pos: int) -> bool {
    match r {
        Ok(a) => match s {
            Ok((e, k)) => a@ == e && pos == k,
            Err(_) => false,
        },
        Err(x) => s == Err::<(Expr, int), ParseError>(x),
    }
}

pub open spec fn list_outcome(
    r: Result<Vec<AST>, ParseError>,
    s: Result<(Seq<Expr>, int), ParseError>,
    pos: int,
) -> bool {
    match r {
        Ok(v) => match s {
            Ok((es, k)) => asts_view(v@) == es && pos == k,
            Err(_) => false,
        },
        Err(x) => s == Err::<(Seq<Expr>, int), ParseError>(x),
    }
}

fn contains_name(names: &Vec<String>, name: &String) -> (r: bool)
    ensures
        r == names_view(names@).contains(name@),
{
    let mut j: usize = 0;
    while j < names.len()
        invariant
            j <= names@.len(),
            forall|q: int| 0 <= q < j ==> names@[q]@ != name@,
        decreases names@.len() - j,
    {
        if names[j].eq(name) {
            assert(names_view(names@)[j as int] == name@);
            return true;
        }
        j += 1;
    }
    assert(!names_view(names@).contains(name@)) by {
        if names_view(names@).contains(name@) {
            let q = choose|q: int|
                0 <= q < names_view(names@).len() && names_view(names@)[q] == name@;
            assert(names@[q]@ == name@);
        }
    }
    false
}

/// A parser over a token sequence and the source text that its spans refer to.
pub struct Parser {
    tokens: Vec<Token>,
    src: String,
    src_len: usize,
    current: usize,
    length: usize,
}

impl Parser {
    /// The tokens being parsed.
    pub closed spec fn tokens_seq(&self) -> Seq<Token> {
        self.tokens@
    }

    /// The source text that the tokens' spans refer to.
    pub closed spec fn source(&self) -> Seq<char> {
        self.src@
    }

    /// The position of the next token to read.
    pub closed spec fn position(&self) -> int {
        self.current as int
    }

    pub closed spec fn wf(&self) -> bool {
        &&& self.length == self.tokens@.len()
        &&& self.current <= self.length
        &&& self.src_len == self.src@.len()
    }

    closed spec fn same_input(&self, o: &Parser) -> bool {
        &&& self.tokens@ == o.tokens@
        &&& self.src@ == o.src@
        &&& self.src_len == o.src_len
        &&& self.length == o.length
    }

    /// Reads the current token, which must be of kind `t`.
    fn consume(&mut self, t: TokenType) -> (r: Result<(), ParseError>)
        requires
            old(self).wf(),
        ensures
            final(self).wf(),
            final(self).same_input(old(self)),
            match expect_at(old(self).tokens@, old(self).current as int, t) {
                Ok(j) => r is Ok && final(self).current == j,
                Err(x) => r == Err::<(), ParseError>(x),
            },
    {
        if self.current >= self.length {
            return Err(ParseError::MissingToken { expected: t });
        }
        let tok = self.tokens[self.current];
        if tok._type != t {
            return Err(
                ParseError::Expected {
                    expected: t,
                    found: tok._type,
                    start: tok.span.0,
                    end: tok.span.1,
                },
            );
        }
        self.current += 1;
        Ok(())
    }

    /// The source text under the current token.
    fn get_span_content(&self) -> (r: Result<String, ParseError>)
        requires
            self.wf(),
            self.current < self.length,
        ensures
            match text_at(self.tokens@, self.src@, self.current as int) {
                Ok(t) => r is Ok && r->Ok_0@ == t,
                Err(x) => r == Err::<String, ParseError>(x),
            },
    {
        let (s, e) = self.tokens[self.current].span;
        if e < self.src_len && s <= e + 1 {
            let piece = self.src.as_str().substring_char(s, e + 1);
            Ok(piece.to_owned())
        } else {
            Err(ParseError::BadSpan { start: s, end: e })
        }
    }

    fn parse_paren(&mut self) -> (r: Result<AST, ParseError>)
        requires
            old(self).wf(),
        ensures
            final(self).wf(),
            final(self).same_input(old(self)),
            expr_outcome(
                r,
                parse_paren_at(old(self).tokens@, old(self).src@, old(self).current as int),
                final(self).current as int,
            ),
            r is Ok ==> old(self).current < final(self).current,
        decreases old(self).length - old(self).current, 0int,
    {
        match self.consume(TokenType::LParen) {
            Err(x) => return Err(x),
            Ok(()) => {},
        }
        let e = match self.parse_expr() {
            Err(x) => return Err(x),
            Ok(e) => e,
        };
        match self.consume(TokenType::RParen) {
            Err(x) => Err(x),
            Ok(()) => Ok(e),
        }
    }

    /// Expressions up to the next `)`, which stays unread.
    fn consume_list(&mut self) -> (r: Result<Vec<AST>, ParseError>)
        requires
            old(self).wf(),
        ensures
            final(self).wf(),
            final(self).same_input(old(self)),
            list_outcome(
                r,
                parse_list_at(old(self).tokens@, old(self).src@, old(self).current as int, seq![]),
                final(self).current as int,
            ),
            r is Ok ==> old(self).current <= final(self).current,
        decreases old(self).length - old(self).current, 2int,
    {
        let ghost toks = self.tokens@;
        let ghost src = self.src@;
        let ghost i0 = self.current as int;
        let mut list: Vec<AST> = Vec::new();
        proof { lemma_asts_view_empty(); }
        while self.current < self.length && self.tokens[self.current]._type != TokenType::RParen
            invariant
                self.wf(),
                toks == self.tokens@,
                src == self.src@,
                toks == old(self).tokens@,
                src == old(self).src@,
                i0 == old(self).current,
                i0 <= self.current,
                self.same_input(old(self)),
                parse_list_at(toks, src, i0, seq![]) == parse_list_at(
                    toks,
                    src,
                    self.current as int,
                    asts_view(list@),
                ),
            decreases self.length - self.current,
        {
            let ghost before = self.current as int;
            match self.parse_expr() {
                Err(x) => {
                    return Err(x);
                },
                Ok(e) => {
                    proof { lemma_asts_view_push(list@, e); }
                    list.push(e);
                },
            }
            assert(advanced(self.current as int, before, toks.len() as int));
        }
        Ok(list)
    }

    /// Parameter names up to and including the closing `)`.
    fn parse_params(&mut self) -> (r: Result<Vec<String>, ParseError>)
        requires
            old(self).wf(),
        ensures
            final(self).wf(),
            final(self).same_input(old(self)),
            match parse_params_at(old(self).tokens@, old(self).src@, old(self).current as int, seq![]) {
                Ok((ps, k)) => r is Ok && names_view(r->Ok_0@) == ps && final(self).current == k,
                Err(x) => r == Err::<Vec<String>, ParseError>(x),
            },
            r is Ok ==> old(self).current < final(self).current,
    {
        let ghost toks = self.tokens@;
        let ghost src = self.src@;
        let ghost i0 = self.current as int;
        let mut names: Vec<String> = Vec::new();
        assert(names_view(names@) =~= seq![]);
        loop
            invariant
                self.wf(),
                toks == self.tokens@,
                src == self.src@,
                toks == old(self).tokens@,
                src == old(self).src@,
                i0 == old(self).current,
                i0 <= self.current,
                self.same_input(old(self)),
                parse_params_at(toks, src, i0, seq![]) == parse_params_at(
                    toks,
                    src,
                    self.current as int,
                    names_view(names@),
                ),
            decreases self.length - self.current,
        {
            if self.current >= self.length {
                return Err(ParseError::MissingToken { expected: TokenType::RParen });
            }
            let tok = self.tokens[self.current];
            if tok._type == TokenType::RParen {
                self.current += 1;
                return Ok(names);
            }
            if tok._type != TokenType::Identifier {
                return Err(
                    ParseError::Expected {
                        expected: TokenType::Identifier,
                        found: tok._type,
                        start: tok.span.0,
                        end: tok.span.1,
                    },
                );
            }
            let name = match self.get_span_content() {
                Err(x) => return Err(x),
                Ok(name) => name,
            };
            if contains_name(&names, &name) {
                return Err(ParseError::DuplicateParameter { start: tok.span.0, end: tok.span.1 });
            }
            assert(names_view(names@.push(name)) =~= names_view(names@).push(name@));
            names.push(name);
            self.current += 1;
        }
    }

    fn parse_expr(&mut self) -> (r: Result<AST, ParseError>)
        requires
            old(self).wf(),
        ensures
            final(self).wf(),
            final(self).same_input(old(self)),
            expr_outcome(
                r,
                parse_expr_at(old(self).tokens@, old(self).src@, old(self).current as int),
                final(self).current as int,
            ),
            r is Ok ==> old(self).current < final(self).current,
        decreases old(self).length - old(self).current, 1int,
    {
        if self.current >= self.length {
            return Err(ParseError::UnexpectedEof);
        }
        let ghost n = self.length as int;
        let tok = self.tokens[self.current];
        match tok._type {
            TokenType::True => {
                self.current += 1;
                Ok(AST::Boolean(true))
            },
            TokenType::False => {
                self.current += 1;
                Ok(AST::Boolean(false))
            },
            TokenType::ReadN => {
                self.current += 1;
                Ok(AST::Input(InputType::Number))
            },
            TokenType::ReadS => {
                self.current += 1;
                Ok(AST::Input(InputType::String))
            },
            TokenType::Integer => {
                let txt = match self.get_span_content() {
                    Err(x) => return Err(x),
                    Ok(t) => t,
                };
                match parse_i64(txt.as_str()) {
                    Some(v) => {
                        self.current += 1;
                        Ok(AST::Number(v))
                    },
                    None => Err(ParseError::BadInteger { start: tok.span.0, end: tok.span.1 }),
                }
            },
            TokenType::String => {
                let txt = match self.get_span_content() {
                    Err(x) => return Err(x),
                    Ok(t) => t,
                };
                self.current += 1;
                Ok(AST::String(txt))
            },
            TokenType::Identifier => {
                let txt = match self.get_span_content() {
                    Err(x) => return Err(x),
                    Ok(t) => t,
                };
                self.current += 1;
                Ok(AST::Identifier(txt))
            },
            TokenType::LParen => {
                self.current += 1;
                let e = match self.parse_expr() {
                    Err(x) => return Err(x),
                    Ok(e) => e,
                };
                match self.consume(TokenType::RParen) {
                    Err(x) => Err(x),
                    Ok(()) => Ok(e),
                }
            },
            TokenType::If => self.parse_if(),
            TokenType::Print => self.parse_print(),
            TokenType::Plus => self.parse_arithmetic_op(ArithmeticOp::Plus),
            TokenType::Minus => self.parse_arithmetic_op(ArithmeticOp::Minus),
            TokenType::Lt => self.parse_binary_op(BinaryOp::Lt),
            TokenType::Gt => self.parse_binary_op(BinaryOp::Gt),
            TokenType::Eq => self.parse_binary_op(BinaryOp::Eq),
            TokenType::Define => self.parse_define(),
            TokenType::Lambda => self.parse_lambda(),
            TokenType::Quote => self.parse_call(),
            _ => Err(ParseError::Unexpected { found: tok._type, start: tok.span.0, end: tok.span.1 }),
        }
    }

    fn parse_if(&mut self) -> (r: Result<AST, ParseError>)
        requires
            old(self).wf(),
            old(self).current < old(self).length,
            old(self).tokens@[old(self).current as int]._type == TokenType::If,
        ensures
            final(self).wf(),
            final(self).same_input(old(self)),
            expr_outcome(
                r,
                parse_expr_at(old(self).tokens@, old(self).src@, old(self).current as int),
                final(self).current as int,
            ),
            r is Ok ==> old(self).current < final(self).current,
        decreases old(self).length - old(self).current, 0int,
    {
        self.current += 1;
        let condition = match self.parse_paren() {
            Err(x) => return Err(x),
            Ok(e) => e,
        };
        let lside = match self.parse_paren() {
            Err(x) => return Err(x),
            Ok(e) => e,
        };
        let rside = match self.parse_paren() {
            Err(x) => return Err(x),
            Ok(e) => e,
        };
        Ok(AST::If(Box::new(condition), Box::new(lside), Box::new(rside)))
    }

    fn parse_print(&mut self) -> (r: Result<AST, ParseError>)
        requires
            old(self).wf(),
            old(self).current < old(self).length,
            old(self).tokens@[old(self).current as int]._type == TokenType::Print,
        ensures
            final(self).wf(),
            final(self).same_input(old(self)),
            expr_outcome(
                r,
                parse_expr_at(old(self).tokens@, old(self).src@, old(self).current as int),
                final(self).current as int,
            ),
            r is Ok ==> old(self).current < final(self).current,
        decreases old(self).length - old(self).current, 0int,
    {
        self.current += 1;
        match self.parse_paren() {
            Err(x) => Err(x),
            Ok(e) => Ok(AST::Print(Box::new(e))),
        }
    }

    fn parse_arithmetic_op(&mut self, op: ArithmeticOp) -> (r: Result<AST, ParseError>)
        requires
            old(self).wf(),
            old(self).current < old(self).length,
            old(self).tokens@[old(self).current as int]._type == (match op {
                ArithmeticOp::Plus => TokenType::Plus,
                ArithmeticOp::Minus => TokenType::Minus,
            }),
        ensures
            final(self).wf(),
            final(self).same_input(old(self)),
            expr_outcome(
                r,
                parse_expr_at(old(self).tokens@, old(self).src@, old(self).current as int),
                final(self).current as int,
            ),
            r is Ok ==> old(self).current < final(self).current,
        decreases old(self).length - old(self).current, 0int,
    {
        let tok = self.tokens[self.current];
        self.current += 1;
        let children = match self.consume_list() {
            Err(x) => return Err(x),
            Ok(v) => v,
        };
        if children.len() == 0 {
            proof { lemma_asts_view(children@); }
            return Err(ParseError::NoOperands { start: tok.span.0, end: tok.span.1 });
        }
        proof { lemma_asts_view(children@); }
        Ok(AST::Arithmetic(op, children))
    }

    fn parse_binary_op(&mut self, op: BinaryOp) -> (r: Result<AST, ParseError>)
        requires
            old(self).wf(),
            old(self).current < old(self).length,
            old(self).tokens@[old(self).current as int]._type == (match op {
                BinaryOp::Lt => TokenType::Lt,
                BinaryOp::Gt => TokenType::Gt,
                BinaryOp::Eq => TokenType::Eq,
            }),
        ensures
            final(self).wf(),
            final(self).same_input(old(self)),
            expr_outcome(
                r,
                parse_expr_at(old(self).tokens@, old(self).src@, old(self).current as int),
                final(self).current as int,
            ),
            r is Ok ==> old(self).current < final(self).current,
        decreases old(self).length - old(self).current, 0int,
    {
        let tok = self.tokens[self.current];
        self.current += 1;
        let mut children = match self.consume_list() {
            Err(x) => return Err(x),
            Ok(v) => v,
        };
        proof { lemma_asts_view(children@); }
        if children.len() != 2 {
            return Err(
                ParseError::Arity { found: children.len(), start: tok.span.0, end: tok.span.1 },
            );
        }
        let ghost both = children@;
        let right = children.pop().unwrap();
        let left = children.pop().unwrap();
        assert(left == both[0] && right == both[1]);
        Ok(AST::Binary(op, Box::new(left), Box::new(right)))
    }

    fn parse_define(&mut self) -> (r: Result<AST, ParseError>)
        requires
            old(self).wf(),
            old(self).current < old(self).length,
            old(self).tokens@[old(self).current as int]._type == TokenType::Define,
        ensures
            final(self).wf(),
            final(self).same_input(old(self)),
            expr_outcome(
                r,
                parse_expr_at(old(self).tokens@, old(self).src@, old(self).current as int),
                final(self).current as int,
            ),
            r is Ok ==> old(self).current < final(self).current,
        decreases old(self).length - old(self).current, 0int,
    {
        self.current += 1;
        if self.current >= self.length {
            return Err(ParseError::MissingToken { expected: TokenType::Identifier });
        }
        let tok = self.tokens[self.current];
        if tok._type != TokenType::Identifier {
            return Err(
                ParseError::Expected {
                    expected: TokenType::Identifier,
                    found: tok._type,
                    start: tok.span.0,
                    end: tok.span.1,
                },
            );
        }
        let name = match self.get_span_content() {
            Err(x) => return Err(x),
            Ok(t) => t,
        };
        self.current += 1;
        match self.parse_paren() {
            Err(x) => Err(x),
            Ok(e) => Ok(AST::Define(name, Box::new(e))),
        }
    }

    fn parse_lambda(&mut self) -> (r: Result<AST, ParseError>)
        requires
            old(self).wf(),
            old(self).current < old(self).length,
            old(self).tokens@[old(self).current as int]._type == TokenType::Lambda,
        ensures
            final(self).wf(),
            final(self).same_input(old(self)),
            expr_outcome(
                r,
                parse_expr_at(old(self).tokens@, old(self).src@, old(self).current as int),
                final(self).current as int,
            ),
            r is Ok ==> old(self).current < final(self).current,
        decreases old(self).length - old(self).current, 0int,
    {
        self.current += 1;
        match self.consume(TokenType::LParen) {
            Err(x) => return Err(x),
            Ok(()) => {},
        }
        let params = match self.parse_params() {
            Err(x) => return Err(x),
            Ok(ps) => ps,
        };
        match self.parse_paren() {
            Err(x) => Err(x),
            Ok(body) => Ok(AST::Lambda(params, Box::new(body))),
        }
    }

    fn parse_call(&mut self) -> (r: Result<AST, ParseError>)
        requires
            old(self).wf(),
            old(self).current < old(self).length,
            old(self).tokens@[old(self).current as int]._type == TokenType::Quote,
        ensures
            final(self).wf(),
            final(self).same_input(old(self)),
            expr_outcome(
                r,
                parse_expr_at(old(self).tokens@, old(self).src@, old(self).current as int),
                final(self).current as int,
            ),
            r is Ok ==> old(self).current < final(self).current,
        decreases old(self).length - old(self).current, 0int,
    {
        self.current += 1;
        if self.current >= self.length {
            return Err(ParseError::MissingToken { expected: TokenType::Identifier });
        }
        let tok = self.tokens[self.current];
        if tok._type != TokenType::Identifier {
            return Err(
                ParseError::Expected {
                    expected: TokenType::Identifier,
                    found: tok._type,
                    start: tok.span.0,
                    end: tok.span.1,
                },
            );
        }
        let name = match self.get_span_content() {
            Err(x) => return Err(x),
            Ok(t) => t,
        };
        self.current += 1;
        match self.consume(TokenType::LParen) {
            Err(x) => return Err(x),
            Ok(()) => {},
        }
        let args = match self.consume_list() {
            Err(x) => return Err(x),
            Ok(v) => v,
        };
        match self.consume(TokenType::RParen) {
            Err(x) => Err(x),
            Ok(()) => Ok(AST::FunCall(name, args)),
        }
    }

    /// Parses top-level forms `'(' expr ')'` from the current position to
    /// the end of the tokens.
    pub fn parse(&mut self) -> (r: Result<Vec<AST>, ParseError>)
        requires
            old(self).wf(),
        ensures
            final(self).wf(),
            match parse_program_at(old(self).tokens_seq(), old(self).source(), old(self).position(), seq![]) {
                Ok(es) => r is Ok && asts_view(r->Ok_0@) == es,
                Err(x) => r == Err::<Vec<AST>, ParseError>(x),
            },
    {
        let ghost toks = self.tokens@;
        let ghost src = self.src@;
        let ghost i0 = self.current as int;
        let mut main_ast: Vec<AST> = Vec::new();
        proof { lemma_asts_view_empty(); }
        while self.current < self.length
            invariant
                self.wf(),
                toks == self.tokens@,
                src == self.src@,
                toks == old(self).tokens@,
                src == old(self).src@,
                i0 == old(self).current,
                parse_program_at(toks, src, i0, seq![]) == parse_program_at(
                    toks,
                    src,
                    self.current as int,
                    asts_view(main_ast@),
                ),
            decreases self.length - self.current,
        {
            let ghost before = self.current as int;
            match self.parse_paren() {
                Err(x) => return Err(x),
                Ok(e) => {
                    proof { lemma_asts_view_push(main_ast@, e); }
                    main_ast.push(e);
                },
            }
            assert(advanced(self.current as int, before, toks.len() as int));
        }
        Ok(main_ast)
    }

    /// A parser at the first of `tokens`, whose spans refer to `src`.
    pub fn new(tokens: Vec<Token>, src: &str) -> (r: Parser)
        ensures
            r.wf(),
            r.tokens_seq() == tokens@,
            r.source() == src@,
            r.position() == 0,
    {
        let length = tokens.len();
        let src_len = src.unicode_len();
        Parser { length, tokens, src: src.to_owned(), src_len, current: 0 }
    }
} // impl Parser

} // verus!
