use lisp_interp::interpreter::{Interpreter, Object, Outcome, RuntimeError, Scope};
use lisp_interp::lexer::{tokenize, TokenType};
use lisp_interp::parser::{ParseError, Parser, AST};

fn parse(src: &str) -> Result<Vec<AST>, ParseError> {
    let tokens = tokenize(src);
    let mut parser = Parser::new(tokens, src);
    parser.parse()
}

fn run_with(src: &str, input: &[&str]) -> Outcome {
    let asts = parse(src).expect("program parses");
    let lines: Vec<String> = input.iter().map(|l| l.to_string()).collect();
    Interpreter::interpret(asts, lines)
}

fn run(src: &str) -> Outcome {
    run_with(src, &[])
}

fn printed(src: &str) -> Vec<String> {
    let out = run(src);
    assert_eq!(out.error, None);
    out.output
}

#[test]
fn print_sum() {
    assert_eq!(printed("(print (+ 1 2))"), vec!["→ 3".to_string()]);
}

#[test]
fn print_difference_of_three() {
    assert_eq!(printed("(print (- 10 3 2))"), vec!["→ 5".to_string()]);
}

#[test]
fn print_if_true_branch() {
    assert_eq!(printed("(print (if (< 3 4) (23) (0)))"), vec!["→ 23".to_string()]);
}

#[test]
fn define_then_add() {
    assert_eq!(printed("(define x (7)) (print (+ x 1))"), vec!["→ 8".to_string()]);
}

#[test]
fn lambda_call() {
    assert_eq!(
        printed("(define f (lambda (a b) (+ a b))) (print ('f (4 6)))"),
        vec!["→ 10".to_string()]
    );
}

#[test]
fn print_string() {
    assert_eq!(printed("(print (\"hello\"))"), vec!["→ hello".to_string()]);
}

#[test]
fn spans_lie_within_source() {
    for src in ["(print (+ 1 2))", "\"open", "\"\"", "a_b1 42 ; note\n(x)", "@ é \t\n", ""] {
        let n = src.chars().count();
        for t in tokenize(src) {
            assert!(t.span.0 <= t.span.1 + 1 && t.span.1 + 1 <= n);
            if t._type != TokenType::String {
                assert!(t.span.1 < n);
            }
        }
    }
}

#[test]
fn integer_literal_round_trip() {
    for text in ["0", "7", "42", "9223372036854775807"] {
        let tokens = tokenize(text);
        assert_eq!(tokens.len(), 1);
        assert_eq!(tokens[0]._type, TokenType::Integer);
        let (s, e) = tokens[0].span;
        let cs: Vec<char> = text.chars().collect();
        let back: String = cs[s..e + 1].iter().collect();
        assert_eq!(back, text);
    }
}

#[test]
fn lexer_kinds() {
    let kinds: Vec<TokenType> = tokenize("(define x 12) 'f \"s\" - + < > = true false if print lambda readn reads y @")
        .iter()
        .map(|t| t._type)
        .collect();
    assert_eq!(
        kinds,
        vec![
            TokenType::LParen,
            TokenType::Define,
            TokenType::Identifier,
            TokenType::Integer,
            TokenType::RParen,
            TokenType::Quote,
            TokenType::Identifier,
            TokenType::String,
            TokenType::Minus,
            TokenType::Plus,
            TokenType::Lt,
            TokenType::Gt,
            TokenType::Eq,
            TokenType::True,
            TokenType::False,
            TokenType::If,
            TokenType::Print,
            TokenType::Lambda,
            TokenType::ReadN,
            TokenType::ReadS,
            TokenType::Identifier,
            TokenType::Error,
        ]
    );
}

#[test]
fn lexer_spans_and_comments() {
    let tokens = tokenize("; a comment\n(\"ab\" 305)");
    let spans: Vec<(usize, usize)> = tokens.iter().map(|t| t.span).collect();
    assert_eq!(spans, vec![(12, 12), (14, 15), (18, 20), (21, 21)]);
    assert_eq!(tokenize("-5")[0]._type, TokenType::Minus);
    assert_eq!(tokenize("Define")[0]._type, TokenType::Identifier);
}

#[test]
fn unterminated_string_runs_to_end() {
    let tokens = tokenize("\"abc");
    assert_eq!(tokens.len(), 1);
    assert_eq!(tokens[0]._type, TokenType::String);
    assert_eq!(tokens[0].span, (1, 3));
}

#[test]
fn empty_string_literal() {
    assert_eq!(printed("(print (\"\"))"), vec!["→ ".to_string()]);
}

#[test]
fn comparison_needs_two_operands() {
    assert_eq!(
        parse("(< 1)"),
        Err(ParseError::Arity { found: 1, start: 1, end: 1 })
    );
    assert_eq!(
        parse("(= 1 2 3)"),
        Err(ParseError::Arity { found: 3, start: 1, end: 1 })
    );
}

#[test]
fn if_needs_three_branches() {
    assert_eq!(
        parse("(if (true) (1))"),
        Err(ParseError::Expected {
            expected: TokenType::LParen,
            found: TokenType::RParen,
            start: 14,
            end: 14
        })
    );
    assert_eq!(
        parse("(if (true) (1) (2) (3))"),
        Err(ParseError::Expected {
            expected: TokenType::RParen,
            found: TokenType::LParen,
            start: 19,
            end: 19
        })
    );
}

#[test]
fn lambda_parameters_are_identifiers() {
    assert_eq!(
        parse("(lambda (a 1) (a))"),
        Err(ParseError::Expected {
            expected: TokenType::Identifier,
            found: TokenType::Integer,
            start: 11,
            end: 11
        })
    );
    assert_eq!(
        parse("(lambda (a a) (a))"),
        Err(ParseError::DuplicateParameter { start: 11, end: 11 })
    );
}

#[test]
fn parse_errors() {
    assert_eq!(
        parse("(print (1)"),
        Err(ParseError::MissingToken { expected: TokenType::RParen })
    );
    assert_eq!(
        parse("(+ 1 2"),
        Err(ParseError::MissingToken { expected: TokenType::RParen })
    );
    assert_eq!(
        parse("(define"),
        Err(ParseError::MissingToken { expected: TokenType::Identifier })
    );
    assert_eq!(parse("(print (1) (+"), Err(ParseError::Expected {
        expected: TokenType::RParen,
        found: TokenType::LParen,
        start: 11,
        end: 11
    }));
    assert_eq!(parse("("), Err(ParseError::UnexpectedEof));
    assert_eq!(
        parse("(@)"),
        Err(ParseError::Unexpected { found: TokenType::Error, start: 1, end: 1 })
    );
    assert_eq!(parse("(+)"), Err(ParseError::NoOperands { start: 1, end: 1 }));
    assert_eq!(
        parse("(9223372036854775808)"),
        Err(ParseError::BadInteger { start: 1, end: 19 })
    );
    assert_eq!(parse(""), Ok(vec![]));
}

#[test]
fn parse_shapes() {
    assert_eq!(
        parse("(define x (42))"),
        Ok(vec![AST::Define("x".to_string(), Box::new(AST::Number(42)))])
    );
    assert_eq!(
        parse("('f (1 y))"),
        Ok(vec![AST::FunCall(
            "f".to_string(),
            vec![AST::Number(1), AST::Identifier("y".to_string())]
        )])
    );
}

#[test]
fn addition_commutes() {
    assert_eq!(printed("(print (+ 2 5))"), printed("(print (+ 5 2))"));
    assert_eq!(printed("(print (+ 2 5))"), vec!["→ 7".to_string()]);
}

#[test]
fn unary_plus_is_identity() {
    assert_eq!(printed("(print (+ 9))"), vec!["→ 9".to_string()]);
}

#[test]
fn unary_minus_negates() {
    assert_eq!(printed("(print (- 9))"), vec!["→ -9".to_string()]);
}

#[test]
fn addition_wraps() {
    assert_eq!(
        printed("(print (+ 9223372036854775807 1))"),
        vec!["→ -9223372036854775808".to_string()]
    );
}

#[test]
fn if_true_skips_else() {
    assert_eq!(
        printed("(if (= 1 1) (print (1)) (print (2)))"),
        vec!["→ 1".to_string()]
    );
}

#[test]
fn if_false_skips_then() {
    assert_eq!(
        printed("(if (= 1 2) (print (1)) (print (2)))"),
        vec!["→ 2".to_string()]
    );
}

#[test]
fn define_and_recall() {
    let out = run("(define x (42)) (print (x))");
    assert_eq!(out.error, None);
    assert_eq!(out.output, vec!["→ 42".to_string()]);
    assert_eq!(out.scope.get(&"x".to_string()), Some(Object::Number(42)));
}

#[test]
fn print_renders_each_kind() {
    assert_eq!(
        printed("(print (true)) (print (> 1 2)) (print (print (1))) (print (lambda (a) (a)))"),
        vec![
            "→ true".to_string(),
            "→ false".to_string(),
            "→ 1".to_string(),
            "→ _void".to_string(),
            "→ lambda-function".to_string()
        ]
    );
}

#[test]
fn call_restores_environment() {
    let out = run("(define a (1)) (define f (lambda (a) (define b (a)))) ('f (5)) (print (a))");
    assert_eq!(out.error, None);
    assert_eq!(out.output, vec!["→ 1".to_string()]);
    assert_eq!(out.scope.get(&"b".to_string()), None);
}

#[test]
fn recursion_through_environment() {
    let src = "(define f (lambda (n) (if (= n 0) (0) (+ n ('f ((- n 1))))))) (print ('f (10)))";
    assert_eq!(printed(src), vec!["→ 55".to_string()]);
}

#[test]
fn runtime_errors() {
    assert_eq!(run("(print (y))").error, Some(RuntimeError::UndefinedVariable));
    assert_eq!(run("(+ 1 (true))").error, Some(RuntimeError::NotANumber));
    assert_eq!(run("(if (1) (1) (2))").error, Some(RuntimeError::NotABoolean));
    assert_eq!(run("(define g (1)) ('g ())").error, Some(RuntimeError::NotAFunction));
    assert_eq!(
        run("(define f (lambda (a b) (a))) ('f (1))").error,
        Some(RuntimeError::ArityMismatch { expected: 2, found: 1 })
    );
    assert_eq!(run("(readn)").error, Some(RuntimeError::InputExhausted));
}

#[test]
fn call_depth_is_bounded() {
    let asts = parse("(define f (lambda () ('f ()))) ('f ())").unwrap();
    let mut interp = Interpreter::new(vec![]);
    interp.set_call_depth(50);
    assert_eq!(interp.run(&asts[0]), Ok(Object::Void));
    assert_eq!(interp.run(&asts[1]), Err(RuntimeError::DepthExceeded));
    let deep = "(define f (lambda (n) (if (= n 0) (0) (+ 1 ('f ((- n 1))))))) (print ('f (40)))";
    let asts = parse(deep).unwrap();
    let mut interp = Interpreter::new(vec![]);
    interp.set_call_depth(41);
    assert_eq!(interp.run(&asts[0]), Ok(Object::Void));
    assert_eq!(interp.run(&asts[1]), Ok(Object::Void));
    assert_eq!(interp.take_printed(), vec!["→ 40".to_string()]);
    interp.set_call_depth(40);
    assert_eq!(interp.run(&asts[1]), Err(RuntimeError::DepthExceeded));
}

#[test]
fn unicode_identifiers_continue() {
    let tokens = tokenize("a\u{e9}b_2 \u{e9}");
    let kinds: Vec<TokenType> = tokens.iter().map(|t| t._type).collect();
    assert_eq!(kinds, vec![TokenType::Identifier, TokenType::Error]);
    assert_eq!(tokens[0].span, (0, 4));
    assert_eq!(
        printed("(define caf\u{e9} (3)) (print (caf\u{e9}))"),
        vec!["→ 3".to_string()]
    );
}

#[test]
fn readn_trims_unicode_white_space() {
    let out = run_with("(print (readn))", &["\u{3000}\t12\u{a0}\u{2003}"]);
    assert_eq!(out.error, None);
    assert_eq!(out.output, vec!["→ 12".to_string()]);
}

#[test]
fn output_before_missing_input_is_kept() {
    let asts = parse("(define f (lambda (a b) (b))) (print ('f ((print (7)) (readn))))").unwrap();
    let mut interp = Interpreter::new(vec![]);
    assert_eq!(interp.run(&asts[0]), Ok(Object::Void));
    assert_eq!(interp.run(&asts[1]), Err(RuntimeError::InputExhausted));
    assert_eq!(interp.take_printed(), vec!["→ 7".to_string()]);
    interp.add_input("9".to_string());
    assert_eq!(interp.run(&asts[1]), Ok(Object::Void));
    assert_eq!(interp.take_printed(), vec!["→ 7".to_string(), "→ 9".to_string()]);
}

#[test]
fn evaluate_addition_identities() {
    let mut interp = Interpreter::new(vec![]);
    let ab = AST::Arithmetic(
        lisp_interp::parser::ArithmeticOp::Plus,
        vec![AST::Number(20), AST::Number(-3)],
    );
    let ba = AST::Arithmetic(
        lisp_interp::parser::ArithmeticOp::Plus,
        vec![AST::Number(-3), AST::Number(20)],
    );
    let one = AST::Arithmetic(lisp_interp::parser::ArithmeticOp::Plus, vec![AST::Number(5)]);
    assert_eq!(interp.evaluate(&ab, 10), Ok(Object::Number(17)));
    assert_eq!(interp.evaluate(&ba, 10), Ok(Object::Number(17)));
    assert_eq!(interp.evaluate(&one, 10), Ok(Object::Number(5)));
    assert!(interp.take_printed().is_empty());
}

#[test]
fn output_before_error_is_kept() {
    let out = run("(print (1)) (print (z)) (print (2))");
    assert_eq!(out.output, vec!["→ 1".to_string()]);
    assert_eq!(out.error, Some(RuntimeError::UndefinedVariable));
}

#[test]
fn no_operands_at_runtime() {
    let asts = vec![AST::Arithmetic(lisp_interp::parser::ArithmeticOp::Plus, vec![])];
    let out = Interpreter::interpret(asts, vec![]);
    assert_eq!(out.error, Some(RuntimeError::NoOperands));
}

#[test]
fn reads_input_lines() {
    let out = run_with("(define n (readn)) (define s (reads)) (print (+ n 1)) (print (s))", &["  41 ", "hi there"]);
    assert_eq!(out.error, None);
    assert_eq!(out.consumed, 2);
    assert_eq!(out.output, vec!["→ 42".to_string(), "→ hi there".to_string()]);
    assert_eq!(run_with("(print (readn))", &["-7"]).output, vec!["→ -7".to_string()]);
    assert_eq!(run_with("(readn)", &["4x"]).error, Some(RuntimeError::InvalidNumber));
}

#[test]
fn repl_keeps_scope() {
    let first = Interpreter::interpret_repl(parse("(define x (3))").unwrap(), Scope::new(), vec![]);
    assert_eq!(first.error, None);
    let second = Interpreter::interpret_repl(parse("(print (+ x 4))").unwrap(), first.scope, vec![]);
    assert_eq!(second.error, None);
    assert_eq!(second.output, vec!["→ 7".to_string()]);
}

#[test]
fn run_waits_for_input() {
    let asts = parse("(print (1)) (print (readn))").unwrap();
    let mut interp = Interpreter::new(vec![]);
    assert_eq!(interp.run(&asts[0]), Ok(Object::Void));
    assert_eq!(interp.run(&asts[1]), Err(RuntimeError::InputExhausted));
    assert_eq!(interp.take_printed(), vec!["→ 1".to_string()]);
    interp.add_input("5".to_string());
    assert_eq!(interp.run(&asts[1]), Ok(Object::Void));
    assert_eq!(interp.take_printed(), vec!["→ 5".to_string()]);
}
