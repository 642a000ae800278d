use uta::ast::{Expression, RuntimeValue, Statement};
use uta::lexer::{LexError, Lexer, Token};
use uta::parser::{ParseError, Parser};

const SCRIPT2: &str = r#"const port = 8080;
const file_descriptor = "index.html";
const is_project = false;

start_server(port: port, file_descriptor: file_descriptor, is_project: is_project);
"#;

#[test]
fn tokenize_start_server_call() {
    let src = r#"start_server(port: 8080, file_descriptor: "index.html", is_project: false);"#;
    let tokens = Lexer::new(src).tokenize().unwrap();
    assert!(matches!(tokens[0], Token::Identifier(_)));
    assert!(matches!(tokens[2], Token::Identifier(_)));
    assert!(matches!(tokens[3], Token::Symbol(':')));
}

#[test]
fn parse_script2() {
    Parser::parse(SCRIPT2).expect("script2.web should parse");
}

#[test]
fn parse_minimal_server_call() {
    let src = r#"start_server(port: 8080);"#;
    match Parser::parse(src) {
        Ok(_) => {}
        Err(e) => panic!("parse failed: {:?}", e),
    }
}

#[test]
fn tokens_of_a_declaration() {
    let tokens = Lexer::new("const port = 8080;").tokenize().unwrap();
    assert_eq!(
        tokens,
        vec![
            Token::KwConst,
            Token::Identifier("port".to_string()),
            Token::Symbol('='),
            Token::Number("8080".to_string()),
            Token::Symbol(';'),
            Token::Eof,
        ]
    );
}

#[test]
fn tokens_end_with_a_single_eof() {
    let tokens = Lexer::new("").tokenize().unwrap();
    assert_eq!(tokens, vec![Token::Eof]);
    let tokens = Lexer::new("  // only a comment\n  ").tokenize().unwrap();
    assert_eq!(tokens, vec![Token::Eof]);
}

#[test]
fn numbers_are_held_in_canonical_form() {
    let cases = [
        ("8080", "8080"),
        ("007.50", "7.5"),
        ("3.", "3"),
        ("0.000", "0"),
        ("10.25", "10.25"),
        ("1.2.3", "0"),
    ];
    for (src, text) in cases {
        let tokens = Lexer::new(src).tokenize().unwrap();
        assert_eq!(tokens[0], Token::Number(text.to_string()), "source {}", src);
    }
}

#[test]
fn operators_keywords_and_strings() {
    let tokens = Lexer::new("-> == != True False if do end return let \"a\\\"b\"").tokenize().unwrap();
    assert_eq!(
        tokens,
        vec![
            Token::Arrow,
            Token::EqEq,
            Token::NotEq,
            Token::KwTrue,
            Token::KwFalse,
            Token::KwIf,
            Token::KwDo,
            Token::KwEnd,
            Token::KwReturn,
            Token::KwLet,
            Token::String("a\"b".to_string()),
            Token::Eof,
        ]
    );
}

#[test]
fn identifiers_keep_their_text() {
    let tokens = Lexer::new("_page2 h1").tokenize().unwrap();
    assert_eq!(tokens[0], Token::Identifier("_page2".to_string()));
    assert_eq!(tokens[1], Token::Identifier("h1".to_string()));
}

#[test]
fn unexpected_character_is_reported_with_its_position() {
    let err = Lexer::new("let x = @;").tokenize().unwrap_err();
    assert_eq!(err, LexError::UnexpectedCharacter { ch: '@', position: 8 });
}

#[test]
fn unterminated_string_is_reported() {
    let err = Lexer::new("\"open").tokenize().unwrap_err();
    assert_eq!(err, LexError::UnterminatedString);
}

#[test]
fn script2_parses_to_its_declarations_and_call() {
    let program = Parser::parse(SCRIPT2).unwrap();
    assert_eq!(program.len(), 4);
    assert_eq!(
        program[0],
        Statement::VarDeclaration {
            immutable: true,
            name: "port".to_string(),
            value: Expression::Literal(RuntimeValue::Number("8080".to_string())),
        }
    );
    assert_eq!(
        program[2],
        Statement::VarDeclaration {
            immutable: true,
            name: "is_project".to_string(),
            value: Expression::Literal(RuntimeValue::Boolean(false)),
        }
    );
    match &program[3] {
        Statement::Expression(Expression::FunctionCall { name, args }) => {
            assert_eq!(name, "start_server");
            assert_eq!(args.len(), 3);
            assert_eq!(args[1].0, Some("file_descriptor".to_string()));
            assert_eq!(args[1].1, Expression::Variable("file_descriptor".to_string()));
        }
        other => panic!("unexpected statement {:?}", other),
    }
}

#[test]
fn parse_function_if_and_comparison() {
    let src = "let page(a, b) -> script do if a != b do return h1(a); end; end;";
    let program = Parser::parse(src).unwrap();
    assert_eq!(
        program,
        vec![Statement::FuncDeclaration {
            name: "page".to_string(),
            params: vec!["a".to_string(), "b".to_string()],
            return_type: Some("script".to_string()),
            body: vec![Statement::IfStatement {
                condition: Expression::BinaryOp {
                    left: Box::new(Expression::Variable("a".to_string())),
                    op: "!=".to_string(),
                    right: Box::new(Expression::Variable("b".to_string())),
                },
                then_branch: vec![Statement::Return(Expression::FunctionCall {
                    name: "h1".to_string(),
                    args: vec![(None, Expression::Variable("a".to_string()))],
                })],
            }],
        }]
    );
}

#[test]
fn let_without_parentheses_is_a_variable() {
    let program = Parser::parse("let x = \"hi\";").unwrap();
    assert_eq!(
        program,
        vec![Statement::VarDeclaration {
            immutable: false,
            name: "x".to_string(),
            value: Expression::Literal(RuntimeValue::String("hi".to_string())),
        }]
    );
}

#[test]
fn lexer_errors_reach_the_parser() {
    let err = Parser::parse("x = #;").unwrap_err();
    assert_eq!(err, ParseError::Lex(LexError::UnexpectedCharacter { ch: '#', position: 4 }));
}

#[test]
fn missing_semicolon_is_a_syntax_error() {
    let err = Parser::parse("h1(\"x\")").unwrap_err();
    assert_eq!(err, ParseError::ExpectedSymbol { symbol: ';', found: Token::Eof });
}

#[test]
fn declaration_needs_a_name() {
    let err = Parser::parse("const = 1;").unwrap_err();
    assert_eq!(err, ParseError::ExpectedIdentifier { found: Token::Symbol('=') });
}

#[test]
fn block_needs_end() {
    let err = Parser::parse("if true do h1();").unwrap_err();
    assert_eq!(err, ParseError::ExpectedKeyword { keyword: Token::KwEnd, found: Token::Eof });
}

#[test]
fn if_needs_do() {
    let err = Parser::parse("if true h1(); end;").unwrap_err();
    assert_eq!(
        err,
        ParseError::ExpectedKeyword {
            keyword: Token::KwDo,
            found: Token::Identifier("h1".to_string())
        }
    );
}

#[test]
fn a_stray_bracket_is_an_unexpected_token() {
    let err = Parser::parse("x = 1;").unwrap_err();
    assert_eq!(err, ParseError::ExpectedSymbol { symbol: ';', found: Token::Symbol('=') });
    let err = Parser::parse(");").unwrap_err();
    assert_eq!(err, ParseError::UnexpectedToken { found: Token::Symbol(')') });
}

#[test]
fn parameters_need_commas() {
    let err = Parser::parse("let f(a b) do end;").unwrap_err();
    assert_eq!(
        err,
        ParseError::ExpectedSymbol { symbol: ')', found: Token::Identifier("b".to_string()) }
    );
}

#[test]
fn arguments_need_closing_bracket() {
    let err = Parser::parse("h1(\"a\" \"b\");").unwrap_err();
    assert_eq!(
        err,
        ParseError::ExpectedSymbol { symbol: ')', found: Token::String("b".to_string()) }
    );
}

#[test]
fn next_token_moves_forward_and_stays_at_the_end() {
    let mut lexer = Lexer::new("  let // note\n x");
    assert_eq!(lexer.next_token(), Ok(Token::KwLet));
    assert_eq!(lexer.next_token(), Ok(Token::Identifier("x".to_string())));
    assert_eq!(lexer.next_token(), Ok(Token::Eof));
    assert_eq!(lexer.next_token(), Ok(Token::Eof));
}

#[test]
fn skipping_trivia_stops_at_the_next_token() {
    let mut lexer = Lexer::new(" \t// comment\n\n  ab");
    lexer.skip_whitespace_and_comments();
    assert_eq!(lexer.peek_char(0), 'a');
    assert_eq!(lexer.peek_char(1), 'b');
    assert_eq!(lexer.peek_char(2), '\0');
}

#[test]
fn peek_char_past_the_end_is_null() {
    let lexer = Lexer::new("ab");
    assert_eq!(lexer.peek_char(1), 'b');
    assert_eq!(lexer.peek_char(2), '\0');
}

#[test]
fn number_characters() {
    let lexer = Lexer::new("");
    assert!(lexer.is_number_char('7'));
    assert!(lexer.is_number_char('.'));
    assert!(!lexer.is_number_char('e'));
    assert!(!lexer.is_number_char('-'));
    assert!(!lexer.is_number_char('_'));
    assert!(!lexer.is_number_char('٣'));
}

#[test]
fn token_texts() {
    assert_eq!(Token::Number("5".to_string()).text(), "Number(5.0)");
    assert_eq!(Token::Number("2.5".to_string()).text(), "Number(2.5)");
    assert_eq!(Token::Number("0".to_string()).text(), "Number(0.0)");
    assert_eq!(Token::Number("10000000000000000".to_string()).text(), "Number(1e16)");
    assert_eq!(Token::Number("25000000000000000".to_string()).text(), "Number(2.5e16)");
    assert_eq!(Token::Number("1000000000000000".to_string()).text(), "Number(1000000000000000.0)");
    assert_eq!(Token::Number("0.00001".to_string()).text(), "Number(1e-5)");
    assert_eq!(Token::Number("0.000012".to_string()).text(), "Number(1.2e-5)");
    assert_eq!(Token::Number("0.0001".to_string()).text(), "Number(0.0001)");
    assert_eq!(Token::Symbol(';').text(), "Symbol(';')");
    assert_eq!(Token::Symbol('\'').text(), "Symbol('\\'')");
    assert_eq!(Token::Identifier("h1".to_string()).text(), "Identifier(\"h1\")");
    assert_eq!(Token::String("a\"b\\c\n".to_string()).text(), "String(\"a\\\"b\\\\c\\n\")");
    assert_eq!(Token::KwEnd.text(), "KwEnd");
    assert_eq!(Token::Eof.text(), "Eof");
}

#[test]
fn parse_error_messages() {
    assert_eq!(
        Parser::parse(";").unwrap_err().message(),
        "Unexpected token in expression: Symbol(';')"
    );
    assert_eq!(
        Parser::parse("const = 1;").unwrap_err().message(),
        "Expected identifier, found Symbol('=')"
    );
    assert_eq!(
        Parser::parse("h1(5").unwrap_err().message(),
        "Expected symbol ')', found Eof"
    );
    assert_eq!(
        Parser::parse("if true h1(); end;").unwrap_err().message(),
        "Expected KwDo, found Identifier(\"h1\")"
    );
    assert_eq!(
        Parser::parse("x = 5 5;").unwrap_err().message(),
        "Expected symbol ';', found Symbol('=')"
    );
    assert_eq!(
        Parser::parse("10000000000000000 5;").unwrap_err().message(),
        "Expected symbol ';', found Number(5.0)"
    );
    assert_eq!(
        Parser::parse("x 10000000000000000;").unwrap_err().message(),
        "Expected symbol ';', found Number(1e16)"
    );
    assert_eq!(
        Parser::parse("let x = @;").unwrap_err().message(),
        "Unexpected character '@' at position 8"
    );
}
