use gi_html::action::{get_argument, ActionKind};
use gi_html::lexer::{KeywordKind, OperatorKind, ParsingErrorKind, SeparatorKind, Token, TokenKind};
use gi_html::parser::Parser;

fn id(s: &str) -> TokenKind {
    TokenKind::Identifier(s.to_string())
}

fn text(s: &str) -> TokenKind {
    TokenKind::StringConst(s.to_string())
}

#[test]
fn parse_string_consts() {
    let tokens = vec![Token::new(text("hello world"), 0, 0)];

    let mut parser = Parser::new(&tokens);

    let res = parser.parse_unit().unwrap();

    match res.unwrap() {
        ActionKind::ConstString(_) => {},
        _ => panic!("Wrong value"),
    }
}

#[test]
fn parse_empty_call() {
    let tokens = vec![
        Token::new(id("Body"), 0, 0),
        Token::new(TokenKind::Separator(SeparatorKind::BracketOpen), 1, 0),
        Token::new(TokenKind::Separator(SeparatorKind::BracketClose), 2, 0),
        Token::new(TokenKind::Separator(SeparatorKind::BlockOpen), 3, 0),
        Token::new(TokenKind::Separator(SeparatorKind::BlockClose), 4, 0),
    ];

    let mut parser = Parser::new(&tokens);

    let res = parser.parse_call().unwrap();

    match res {
        ActionKind::Function { .. } => {},
        _ => panic!("Wrong value"),
    }
}

#[test]
fn parse_empty_call_with_one_statement() {
    let tokens = vec![
        Token::new(id("Body"), 0, 0),
        Token::new(TokenKind::Separator(SeparatorKind::BracketOpen), 1, 0),
        Token::new(TokenKind::Separator(SeparatorKind::BracketClose), 2, 0),
        Token::new(TokenKind::Separator(SeparatorKind::BlockOpen), 3, 0),
        Token::new(text("hello world"), 0, 0),
        Token::new(TokenKind::Separator(SeparatorKind::Semicolon), 3, 0),
        Token::new(TokenKind::Separator(SeparatorKind::BlockClose), 4, 0),
    ];

    let mut parser = Parser::new(&tokens);

    let res = parser.parse_call().unwrap();

    match res {
        ActionKind::Function { body, .. } => match *body.unwrap() {
            ActionKind::Sequence(b) => assert_eq!(b.len(), 1),
            _ => panic!("Invalid function contents "),
        },
        _ => panic!("Wrong value"),
    }
}

#[test]
fn parse_expression() {
    let tokens = vec![
        Token::new(text("hello world"), 0, 0),
        Token::new(TokenKind::Operator(OperatorKind::StringConcat), 0, 0),
        Token::new(text("hello world"), 0, 0),
    ];
    let mut parser = Parser::new(&tokens);
    let res = parser.parse_expression().unwrap().unwrap();
    match res {
        ActionKind::BinaryOperation { .. } => {},
        _ => panic!(""),
    }
}

#[test]
fn parse_expression_multiple() {
    let tokens = vec![
        Token::new(text("hello"), 0, 0),
        Token::new(TokenKind::Operator(OperatorKind::StringConcat), 0, 0),
        Token::new(text("world"), 0, 0),
        Token::new(TokenKind::Operator(OperatorKind::StringConcat), 0, 0),
        Token::new(text("!"), 0, 0),
    ];
    let mut parser = Parser::new(&tokens);
    let res = parser.parse_expression().unwrap().unwrap();
    let s = res.to_string();
    match res {
        ActionKind::BinaryOperation { left, .. } => match *left {
            ActionKind::BinaryOperation { .. } => {},
            _ => panic!("expected nested expr: {s}"),
        },
        _ => panic!("expected expr: {s}"),
    }
}

#[test]
fn parse_function_declaration() {
    let tokens = vec![
        Token::new(TokenKind::Keyword(KeywordKind::Function), 0, 1),
        Token::new(id("f"), 1, 0),
        Token::new(TokenKind::Separator(SeparatorKind::BracketOpen), 2, 0),
        Token::new(id("arg1"), 3, 0),
        Token::new(TokenKind::Separator(SeparatorKind::BracketClose), 4, 0),
        Token::new(TokenKind::Separator(SeparatorKind::BlockOpen), 5, 0),
        Token::new(text("world"), 5, 0),
        Token::new(TokenKind::Separator(SeparatorKind::Semicolon), 6, 0),
        Token::new(TokenKind::Separator(SeparatorKind::BlockClose), 7, 0),
    ];

    let mut parser = Parser::new(&tokens);

    let res = parser.parse_function_definition().unwrap().unwrap();
    match res {
        ActionKind::UserFunctionDeclaration { function_name, .. } => assert_eq!(function_name, "f"),
        _ => panic!("Expected function got {}", res.to_string()),
    }
}

#[test]
fn parse_function_declaration_with_statement() {
    let tokens = vec![
        Token::new(TokenKind::Keyword(KeywordKind::Function), 0, 1),
        Token::new(id("f"), 1, 0),
        Token::new(TokenKind::Separator(SeparatorKind::BracketOpen), 2, 0),
        Token::new(id("arg1"), 3, 0),
        Token::new(TokenKind::Separator(SeparatorKind::BracketClose), 4, 0),
        Token::new(TokenKind::Separator(SeparatorKind::BlockOpen), 5, 0),
        Token::new(TokenKind::Separator(SeparatorKind::BlockClose), 6, 0),
    ];

    let mut parser = Parser::new(&tokens);

    let res = parser.parse_function_definition().unwrap().unwrap();
    match res {
        ActionKind::UserFunctionDeclaration { function_name, .. } => assert_eq!(function_name, "f"),
        _ => panic!("Expected function got {}", res.to_string()),
    }
}

#[test]
fn parse_empty_with_one_argument() {
    let tokens = vec![
        Token::new(id("Body"), 0, 0),
        Token::new(TokenKind::Separator(SeparatorKind::BracketOpen), 1, 0),
        Token::new(id("arg1"), 0, 0),
        Token::new(TokenKind::Operator(OperatorKind::Assign), 0, 0),
        Token::new(text("hello world"), 0, 0),
        Token::new(TokenKind::Separator(SeparatorKind::BracketClose), 2, 0),
        Token::new(TokenKind::Separator(SeparatorKind::BlockOpen), 3, 0),
        Token::new(TokenKind::Separator(SeparatorKind::BlockClose), 4, 0),
    ];

    let mut parser = Parser::new(&tokens);

    let res = parser.parse_call().unwrap();

    match res {
        ActionKind::Function { arguments, .. } => {
            assert!(matches!(
                get_argument(&arguments, "arg1").unwrap(),
                ActionKind::ConstString(_)
            ));
        },
        _ => panic!("Wrong value"),
    }
}

#[test]
fn parse_call_missing_bracket_reports_position() {
    let tokens = vec![
        Token::new(id("p"), 2, 5),
        Token::new(TokenKind::Separator(SeparatorKind::BlockOpen), 2, 6),
    ];
    let mut parser = Parser::new(&tokens);
    let err = parser.parse_call().unwrap_err();
    assert_eq!(err.kind(), ParsingErrorKind::UnexpectedCharacter);
    assert_eq!((err.row(), err.column()), (2, 6));
    assert_eq!(err.to_string(), "UnexpectedCharacter: Expected '(' Row: 2 Column:6 ");
}

#[test]
fn parse_unit_at_end_is_an_error() {
    let tokens: Vec<Token> = Vec::new();
    let mut parser = Parser::new(&tokens);
    assert!(parser.parse_unit().is_err());
}

#[test]
fn parse_body_needs_semicolon() {
    let tokens = vec![Token::new(text("a"), 0, 0), Token::new(text("b"), 0, 4)];
    let mut parser = Parser::new(&tokens);
    let err = parser.parse_body().unwrap_err();
    assert_eq!((err.row(), err.column()), (0, 4));
}

#[test]
fn parser_next_records_position() {
    let tokens = vec![Token::new(text("a"), 3, 7)];
    let mut parser = Parser::new(&tokens);
    assert_eq!(parser.get_binary_operation_priority(), -1);
    assert!(parser.next().is_some());
    assert!(parser.next().is_none());
    assert_eq!((parser.get_row(), parser.get_column()), (3, 7));
}
