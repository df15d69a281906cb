use stack_lang::ast::AstNode;
use stack_lang::compiler::Compiler;
use stack_lang::error::ParseError;
use stack_lang::interpreter::{Interpreter, Outcome};
use stack_lang::lexer::Lexer;
use stack_lang::location::Location;
use stack_lang::parser::Parser;
use stack_lang::resolver::Resolver;
use stack_lang::token::{Token, TokenKind};
use stack_lang::value::Value;

fn kinds(source: &str) -> Vec<TokenKind> {
    Lexer::new(source).lex().into_iter().map(|t| t.kind).collect()
}

fn ident(s: &str) -> TokenKind {
    TokenKind::Identifier(s.to_string())
}

#[test]
fn lexes_punctuation_and_pairs() {
    assert_eq!(
        kinds("( ) [ ] { } , ; + * / % ^ . .. : :: ! != = == > >= < <= - ->"),
        vec![
            TokenKind::OpenParen,
            TokenKind::CloseParen,
            TokenKind::OpenBracket,
            TokenKind::CloseBracket,
            TokenKind::OpenCurly,
            TokenKind::CloseCurly,
            TokenKind::Comma,
            TokenKind::Semicolon,
            TokenKind::Plus,
            TokenKind::Star,
            TokenKind::Slash,
            TokenKind::Percent,
            TokenKind::Caret,
            TokenKind::Dot,
            TokenKind::DotDot,
            TokenKind::Colon,
            TokenKind::ColonColon,
            TokenKind::Bang,
            TokenKind::BangEqual,
            TokenKind::Equal,
            TokenKind::EqualEqual,
            TokenKind::Greater,
            TokenKind::GreaterEqual,
            TokenKind::Less,
            TokenKind::LessEqual,
            TokenKind::Minus,
            TokenKind::Arrow,
            TokenKind::EOF,
        ]
    );
}

#[test]
fn lexes_keywords_and_identifiers() {
    assert_eq!(
        kinds("if else elif end then while do in let fun and or not true false call dup x1"),
        vec![
            TokenKind::If,
            TokenKind::Else,
            TokenKind::Elif,
            TokenKind::End,
            TokenKind::Then,
            TokenKind::While,
            TokenKind::Do,
            TokenKind::In,
            TokenKind::Let,
            TokenKind::Fun,
            TokenKind::And,
            TokenKind::Or,
            TokenKind::Not,
            TokenKind::True,
            TokenKind::False,
            TokenKind::Call,
            ident("dup"),
            ident("x1"),
            TokenKind::EOF,
        ]
    );
}

#[test]
fn lexes_numbers() {
    assert_eq!(
        kinds("42 -7 3.25 9223372036854775807 -9223372036854775808 9223372036854775808"),
        vec![
            TokenKind::Integer(42),
            TokenKind::Integer(-7),
            TokenKind::FloatText("3.25".to_string()),
            TokenKind::Integer(i64::MAX),
            TokenKind::Integer(i64::MIN),
            TokenKind::Error,
            TokenKind::EOF,
        ]
    );
    assert_eq!(kinds("99999999999999999999999"), vec![TokenKind::Error, TokenKind::EOF]);
}

#[test]
fn lexes_strings() {
    assert_eq!(
        kinds("\"hello world\" \"\""),
        vec![TokenKind::String("hello world".to_string()), TokenKind::String(String::new()), TokenKind::EOF]
    );
    assert_eq!(kinds("\"open"), vec![TokenKind::Error, TokenKind::EOF]);
}

#[test]
fn tracks_locations() {
    let tokens = Lexer::new("ab\n  cd").lex();
    assert_eq!(tokens[0].location, Location::new(1, 1));
    assert_eq!(tokens[1].location, Location::new(2, 3));
}

#[test]
fn empty_source_is_only_eof() {
    assert_eq!(kinds("  \n\t "), vec![TokenKind::EOF]);
}

fn parse(source: &str) -> Result<Vec<AstNode>, ParseError> {
    Parser::new(Lexer::new(source).lex()).parse()
}

#[test]
fn parses_declarations_and_control_flow() {
    let ast = parse("fun main do 1 if true 2 else 3 end while false do end end").unwrap();
    assert_eq!(ast.len(), 1);
    match &ast[0] {
        AstNode::FunctionDeclaration { name, body, .. } => {
            assert_eq!(name, "main");
            assert_eq!(body.nodes.len(), 3);
            assert!(matches!(body.nodes[1], AstNode::IfExpression { else_branch: Some(_), .. }));
            assert!(matches!(body.nodes[2], AstNode::WhileExpression { .. }));
        }
        other => panic!("unexpected {:?}", other),
    }
}

#[test]
fn parses_operators_and_calls() {
    let ast = parse("1 2 + call f").unwrap();
    assert_eq!(ast.len(), 4);
    match &ast[2] {
        AstNode::FunctionCall { name, .. } => assert_eq!(name, "__plus"),
        other => panic!("unexpected {:?}", other),
    }
    match &ast[3] {
        AstNode::FunctionCall { name, .. } => assert_eq!(name, "f"),
        other => panic!("unexpected {:?}", other),
    }
}

#[test]
fn reports_parse_errors() {
    assert_eq!(parse("fun do end").unwrap_err(), ParseError::UnexpectedToken(1));
    assert_eq!(parse("fun f 1 end").unwrap_err(), ParseError::UnexpectedToken(2));
    assert_eq!(parse("if true 1").unwrap_err(), ParseError::UnexpectedToken(3));
    assert_eq!(parse("( 1").unwrap_err(), ParseError::UnexpectedToken(0));
    assert_eq!(Parser::new(vec![Token::new(TokenKind::Fun, Location::new(1, 1))]).parse().unwrap_err(), ParseError::UnexpectedToken(1));
}

fn run_source(source: &str) -> (Value, Vec<Value>) {
    let tokens: Vec<Token> = Lexer::new(source)
        .lex()
        .into_iter()
        .map(|t| match t.kind {
            TokenKind::FloatText(text) => Token::new(TokenKind::Float(text.parse::<f64>().unwrap().to_bits()), t.location),
            _ => t,
        })
        .collect();
    let ast = Parser::new(tokens).parse().unwrap();
    let program = Resolver::new().resolve(&ast).unwrap();
    let program = Compiler::new(program).compile(ast).unwrap();
    let mut interpreter = Interpreter::new(program);
    let mut printed = Vec::new();
    loop {
        match interpreter.interpret(10_000).unwrap() {
            Outcome::Finished(v) => return (v, printed),
            Outcome::Print(v) => printed.push(v),
            Outcome::Float(q) => {
                let a = match q.left {
                    Value::I64(i) => i as f64,
                    Value::F64(b) => f64::from_bits(b),
                    _ => panic!(),
                };
                let b = match q.right {
                    Value::I64(i) => i as f64,
                    Value::F64(b) => f64::from_bits(b),
                    _ => panic!(),
                };
                interpreter.complete_float(Value::F64((a * b).to_bits()));
            }
            Outcome::Paused => {}
        }
    }
}

#[test]
fn runs_a_source_program() {
    let (v, printed) = run_source(
        "fun square do dup * end fun main do \"go\" print 0 3 while dup 0 > do swap 1 + swap 1 - end drop square end",
    );
    assert_eq!(printed, vec![Value::RawString("go".to_string())]);
    assert_eq!(v, Value::I64(9));
}

#[test]
fn runs_a_float_program() {
    let (v, _) = run_source("1.5 4 *");
    assert_eq!(v, Value::F64(6.0f64.to_bits()));
}

#[test]
fn token_after_newline_starts_a_line() {
    let mut lexer = Lexer::new("\n  x");
    let token = lexer.next();
    assert_eq!(token.kind, ident("x"));
    assert_eq!(token.location, Location::new(2, 3));
    let tokens = Lexer::new("a \"p\nq\" b").lex();
    assert_eq!(tokens[1].location, Location::new(1, 3));
    assert_eq!(tokens[2].location, Location::new(1, 9));
}

#[test]
fn parsed_nodes_carry_token_locations() {
    let ast = parse("1\n  call f\n +").unwrap();
    assert_eq!(*ast[0].location(), Location::new(1, 1));
    assert_eq!(*ast[1].location(), Location::new(2, 3));
    assert_eq!(*ast[2].location(), Location::new(3, 2));
    let ast = parse("  fun f do\n1 end").unwrap();
    assert_eq!(*ast[0].location(), Location::new(1, 1));
}
