//! The lexer: turns source text into tokens that refer back to the source by
//! inclusive character spans. It never fails: a character that starts no
//! token becomes an `Error` token of its own.
use vstd::prelude::*;
use crate::text::chars_of;

verus! {

/// The kind of a token.
#[derive(Debug, PartialEq, Eq, Structural, Clone, Copy)]
pub enum TokenType {
    True,
    False,
    Integer,
    String,
    LParen,
    RParen,
    Plus,
    Minus,
    Gt,
    Lt,
    Eq,
    Identifier,
    Define,
    Lambda,
    Print,
    If,
    ReadN,
    ReadS,
    /// The quote that marks the head of a function call: `('f (1 2))`.
    Quote,
    /// A character that starts no token; the parser rejects it.
    Error,
}

/// A token: its kind and the inclusive span `(start, end)` of character
/// positions that it covers in the source.
#[derive(Debug, PartialEq, Eq, Clone, Copy)]
pub struct Token {
    pub _type: TokenType,
    pub span: (usize, usize),
}

pub open spec fn is_digit(c: char) -> bool {
    '0' <= c && c <= '9'
}

/// What `char::is_alphanumeric` accepts: the Unicode `Alphabetic` and
/// `Numeric` characters.
pub uninterp spec fn alphanumeric(c: char) -> bool;

/// Relies on `char::is_alphanumeric`: whether `c` is alphabetic or numeric in
/// Unicode; on ASCII exactly the letters and the digits.
#[verifier::external_body]
fn is_alphanumeric(c: char) -> (r: bool)
    ensures
        r == alphanumeric(c),
        (c as u32) < 128 ==> (r == (('a' <= c && c <= 'z') || ('A' <= c && c <= 'Z') || ('0' <= c
            && c <= '9'))),
{
    c.is_alphanumeric()
}

/// Identifiers start with an ASCII letter or `_` and go on with what is
/// alphanumeric (in Unicode) or `_`.
pub open spec fn is_ident_start(c: char) -> bool {
    ('a' <= c && c <= 'z') || ('A' <= c && c <= 'Z') || c == '_'
}

pub open spec fn is_ident_char(c: char) -> bool {
    alphanumeric(c) || c == '_'
}

/// The characters skipped between tokens.
pub open spec fn is_space(c: char) -> bool {
    c == ' ' || c == '\n' || c == '\t'
}

/// The end (exclusive) of the run of digits that starts at `i`.
pub open spec fn digits_end(cs: Seq<char>, i: int) -> int
    decreases cs.len() - i,
{
    if 0 <= i < cs.len() && is_digit(cs[i]) {
        digits_end(cs, i + 1)
    } else {
        i
    }
}

/// The end (exclusive) of the run of identifier characters that starts at `i`.
pub open spec fn word_end(cs: Seq<char>, i: int) -> int
    decreases cs.len() - i,
{
    if 0 <= i < cs.len() && is_ident_char(cs[i]) {
        word_end(cs, i + 1)
    } else {
        i
    }
}

/// The position of the first `c` at or after `i`, or the length of `cs`.
pub open spec fn find_from(cs: Seq<char>, i: int, c: char) -> int
    decreases cs.len() - i,
{
    if 0 <= i < cs.len() && cs[i] != c {
        find_from(cs, i + 1, c)
    } else {
        i
    }
}

/// The kind of a word: a keyword's own kind, else `Identifier`.
pub open spec fn word_type(w: Seq<char>) -> TokenType {
    if w == "define"@ {
        TokenType::Define
    } else if w == "lambda"@ {
        TokenType::Lambda
    } else if w == "print"@ {
        TokenType::Print
    } else if w == "if"@ {
        TokenType::If
    } else if w == "true"@ {
        TokenType::True
    } else if w == "false"@ {
        TokenType::False
    } else if w == "readn"@ {
        TokenType::ReadN
    } else if w == "reads"@ {
        TokenType::ReadS
    } else {
        TokenType::Identifier
    }
}

/// The kind of a token of one character.
pub open spec fn symbol_type(c: char) -> TokenType {
    if c == '(' {
        TokenType::LParen
    } else if c == ')' {
        TokenType::RParen
    } else if c == '+' {
        TokenType::Plus
    } else if c == '-' {
        TokenType::Minus
    } else if c == '>' {
        TokenType::Gt
    } else if c == '<' {
        TokenType::Lt
    } else if c == '=' {
        TokenType::Eq
    } else if c == '\'' {
        TokenType::Quote
    } else {
        TokenType::Error
    }
}

pub open spec fn tok(t: TokenType, start: int, end: int) -> Token {
    Token { _type: t, span: (start as usize, end as usize) }
}

/// The tokens of `cs` from position `i` on.
pub open spec fn lex_from(cs: Seq<char>, i: int) -> Seq<Token>
    decreases cs.len() - i,
{
    if i < 0 || i >= cs.len() {
        seq![]
    } else {
        let c = cs[i];
        if is_space(c) {
            lex_from(cs, i + 1)
        } else if c == ';' {
            let e = find_from(cs, i, '\n');
            if i < e <= cs.len() {
                lex_from(cs, e)
            } else {
                seq![]
            }
        } else if is_digit(c) {
            let e = digits_end(cs, i);
            if i < e <= cs.len() {
                seq![tok(TokenType::Integer, i, e - 1)] + lex_from(cs, e)
            } else {
                seq![]
            }
        } else if c == '"' {
            let e = find_from(cs, i + 1, '"');
            if i < e < cs.len() {
                seq![tok(TokenType::String, i + 1, e - 1)] + lex_from(cs, e + 1)
            } else if e == cs.len() {
                seq![tok(TokenType::String, i + 1, e - 1)]
            } else {
                seq![]
            }
        } else if is_ident_start(c) {
            let e = word_end(cs, i);
            if i < e <= cs.len() {
                seq![tok(word_type(cs.subrange(i, e)), i, e - 1)] + lex_from(cs, e)
            } else {
                seq![]
            }
        } else {
            seq![tok(symbol_type(c), i, i)] + lex_from(cs, i + 1)
        }
    }
}

/// The tokens of a whole source text.
pub open spec fn lex(cs: Seq<char>) -> Seq<Token> {
    lex_from(cs, 0)
}

pub proof fn lemma_digits_end_bounds(cs: Seq<char>, i: int)
    requires
        0 <= i <= cs.len(),
    ensures
        i <= digits_end(cs, i) <= cs.len(),
        forall|k: int| i <= k < digits_end(cs, i) ==> is_digit(#[trigger] cs[k]),
        digits_end(cs, i) < cs.len() ==> !is_digit(cs[digits_end(cs, i)]),
    decreases cs.len() - i,
{
    if i < cs.len() && is_digit(cs[i]) {
        lemma_digits_end_bounds(cs, i + 1);
    }
}

pub proof fn lemma_word_end_bounds(cs: Seq<char>, i: int)
    requires
        0 <= i <= cs.len(),
    ensures
        i <= word_end(cs, i) <= cs.len(),
    decreases cs.len() - i,
{
    if i < cs.len() && is_ident_char(cs[i]) {
        lemma_word_end_bounds(cs, i + 1);
    }
}

pub proof fn lemma_find_from_bounds(cs: Seq<char>, i: int, c: char)
    requires
        0 <= i <= cs.len(),
    ensures
        i <= find_from(cs, i, c) <= cs.len(),
        find_from(cs, i, c) < cs.len() ==> cs[find_from(cs, i, c)] == c,
    decreases cs.len() - i,
{
    if i < cs.len() && cs[i] != c {
        lemma_find_from_bounds(cs, i + 1, c);
    }
}

/// Whether `cs[start..end]` spells `w`.
fn region_is(cs: &Vec<char>, start: usize, end: usize, w: &str) -> (r: bool)
    requires
        start <= end <= cs@.len(),
    ensures
        r == (cs@.subrange(start as int, end as int) == w@),
{
    let wc = chars_of(w);
    if end - start != wc.len() {
        return false;
    }
    let mut k: usize = 0;
    while k < wc.len()
        invariant
            start <= end <= cs@.len(),
            end - start == wc@.len(),
            wc@ == w@,
            k <= wc@.len(),
            forall|j: int| 0 <= j < k ==> cs@[start + j] == wc@[j],
        decreases wc@.len() - k,
    {
        if cs[start + k] != wc[k] {
            assert(cs@.subrange(start as int, end as int)[k as int] != w@[k as int]);
            return false;
        }
        k += 1;
    }
    assert(cs@.subrange(start as int, end as int) =~= w@);
    true
}

fn word_token_type(cs: &Vec<char>, start: usize, end: usize) -> (r: TokenType)
    requires
        start <= end <= cs@.len(),
    ensures
        r == word_type(cs@.subrange(start as int, end as int)),
{
    if region_is(cs, start, end, "define") {
        TokenType::Define
    } else if region_is(cs, start, end, "lambda") {
        TokenType::Lambda
    } else if region_is(cs, start, end, "print") {
        TokenType::Print
    } else if region_is(cs, start, end, "if") {
        TokenType::If
    } else if region_is(cs, start, end, "true") {
        TokenType::True
    } else if region_is(cs, start, end, "false") {
        TokenType::False
    } else if region_is(cs, start, end, "readn") {
        TokenType::ReadN
    } else if region_is(cs, start, end, "reads") {
        TokenType::ReadS
    } else {
        TokenType::Identifier
    }
}

fn symbol_token_type(c: char) -> (r: TokenType)
    ensures
        r == symbol_type(c),
{
    match c {
        '(' => TokenType::LParen,
        ')' => TokenType::RParen,
        '+' => TokenType::Plus,
        '-' => TokenType::Minus,
        '>' => TokenType::Gt,
        '<' => TokenType::Lt,
        '=' => TokenType::Eq,
        '\'' => TokenType::Quote,
        _ => TokenType::Error,
    }
}

/// Splits `string` into tokens. Whitespace and comments (from `;` to the end
/// of the line) produce none. An integer is a maximal run of digits; a string
/// literal's span covers what stands between its quotes (an unterminated one
/// runs to the end of the input); a word is a keyword or an identifier.
pub fn tokenize(string: &str) -> (r: Vec<Token>)
    ensures
        r@ == lex(string@),
{
    let cs = chars_of(string);
    let n = cs.len();
    let mut current: usize = 0;
    let mut tokens: Vec<Token> = Vec::new();
    while current < n
        invariant
            n == cs@.len(),
            cs@ == string@,
            current <= n,
            tokens@ + lex_from(cs@, current as int) == lex(cs@),
        decreases n - current,
    {
        let ghost before = tokens@;
        let ghost pos0 = current as int;
        let c = cs[current];
        if c == ' ' || c == '\n' || c == '\t' {
            current += 1;
        } else if c == ';' {
            proof { lemma_find_from_bounds(cs@, current as int, '\n'); }
            while current < n && cs[current] != '\n'
                invariant
                    n == cs@.len(),
                    current <= n,
                    pos0 <= current,
                    find_from(cs@, current as int, '\n') == find_from(cs@, pos0, '\n'),
                decreases n - current,
            {
                current += 1;
            }
        } else if '0' <= c && c <= '9' {
            let start = current;
            proof { lemma_digits_end_bounds(cs@, current as int); }
            while current < n && '0' <= cs[current] && cs[current] <= '9'
                invariant
                    n == cs@.len(),
                    start <= current <= n,
                    digits_end(cs@, current as int) == digits_end(cs@, start as int),
                decreases n - current,
            {
                current += 1;
            }
            tokens.push(Token { _type: TokenType::Integer, span: (start, current - 1) });
        } else if c == '"' {
            let start = current + 1;
            current += 1;
            proof { lemma_find_from_bounds(cs@, current as int, '"'); }
            while current < n && cs[current] != '"'
                invariant
                    n == cs@.len(),
                    start <= current <= n,
                    find_from(cs@, current as int, '"') == find_from(cs@, start as int, '"'),
                decreases n - current,
            {
                current += 1;
            }
            tokens.push(Token { _type: TokenType::String, span: (start, current - 1) });
            if current < n {
                current += 1;
            }
        } else if ('a' <= c && c <= 'z') || ('A' <= c && c <= 'Z') || c == '_' {
            let start = current;
            proof { lemma_word_end_bounds(cs@, current as int); }
            while current < n && (cs[current] == '_' || is_alphanumeric(cs[current]))
                invariant
                    n == cs@.len(),
                    start <= current <= n,
                    word_end(cs@, current as int) == word_end(cs@, start as int),
                decreases n - current,
            {
                current += 1;
            }
            let t = word_token_type(&cs, start, current);
            tokens.push(Token { _type: t, span: (start, current - 1) });
        } else {
            let t = symbol_token_type(c);
            tokens.push(Token { _type: t, span: (current, current) });
            current += 1;
        }
        assert(tokens@ + lex_from(cs@, current as int) =~= before + lex_from(cs@, pos0));
    }
    tokens
}

/// Whether the tokens of a source of `len` characters end in a string
/// literal that no closing quote ends.
pub fn ends_in_open_string(tokens: &Vec<Token>, len: usize) -> (r: bool)
    ensures
        r == (tokens@.len() > 0 && tokens@.last()._type == TokenType::String
            && tokens@.last().span.1 + 1 == len),
{
    if tokens.len() == 0 {
        return false;
    }
    let last = tokens[tokens.len() - 1];
    last._type == TokenType::String && last.span.1 as u128 + 1 == len as u128
}

} // verus!
