use gi_html::lexer::{Lexer, OperatorKind, ParsingErrorKind, SeparatorKind, TokenKind};

#[test]
fn test_advance_by() {
    let code = "main()";
    let mut lexer = Lexer::new(code);
    lexer.skip_char_while(char::is_whitespace);
    lexer.advance_by("main".len());
    assert_eq!(lexer.peek_char().unwrap(), '(');
}

#[test]
fn test_dont_skip_char() {
    let code = "main()";
    let mut lexer = Lexer::new(code);
    assert!(lexer.tokenize_id().is_some());
    lexer.skip_char_while(char::is_whitespace);
    assert_eq!(lexer.peek_char().unwrap(), '(');

    let res = lexer.tokenize_separator();
    assert!(matches!(
        res.unwrap().get_kind(),
        TokenKind::Separator(SeparatorKind::BracketOpen)
    ));
}

#[test]
fn test_id_advance() {
    let code = "main()";
    let mut lexer = Lexer::new(code);
    lexer.skip_char_while(char::is_whitespace);
    let res = lexer.tokenize_id();
    assert!(res.is_some());
    assert_eq!(lexer.peek_char().unwrap(), '(');
}

fn identifier_text(kind: TokenKind) -> Option<String> {
    match kind {
        TokenKind::Identifier(s) => Some(s),
        _ => None,
    }
}

#[test]
fn test_id() {
    let code = "var1";
    let mut lexer = Lexer::new(code);
    let res = lexer.tokenize_id();
    assert!(res.is_some());
    assert_eq!(identifier_text(res.unwrap().get_kind()), Some("var1".to_string()));
}

#[test]
fn test_id_extra() {
    let code = "var1=";
    let mut lexer = Lexer::new(code);
    let res = lexer.tokenize_id();
    assert!(res.is_some());
    assert_eq!(identifier_text(res.unwrap().get_kind()), Some("var1".to_string()));
}

#[test]
fn test_id_extra2() {
    let code = " main(";
    let mut lexer = Lexer::new(code);
    lexer.skip_char_while(char::is_whitespace);
    let res = lexer.tokenize_id();
    assert!(res.is_some());
    assert_eq!(identifier_text(res.unwrap().get_kind()), Some("main".to_string()));
}

#[test]
fn test_id_boundary() {
    let code = "va_r1()";
    let mut lexer = Lexer::new(code);
    let res = lexer.tokenize_id();
    assert!(res.is_some());
    assert_eq!(identifier_text(res.unwrap().get_kind()), Some("va_r1".to_string()));
}

#[test]
fn test_string_full() {
    let code = r#""inner""#;
    let mut lexer = Lexer::new(code);
    let res = lexer.tokenize_string();
    assert!(res.is_some());
    match res.unwrap().get_kind() {
        TokenKind::StringConst(s) => assert_eq!(s, "inner".to_owned()),
        _ => panic!(),
    }
}

#[test]
fn test_string_with_special() {
    let code = r#""in\"n\"er""#;
    let mut lexer = Lexer::new(code);
    let res = lexer.tokenize_string();
    assert!(res.is_some());
    match res.unwrap().get_kind() {
        TokenKind::StringConst(s) => assert_eq!(s, "in\"n\"er".to_owned()),
        _ => panic!(),
    }
}

#[test]
fn test_string_incomplete() {
    let code = r#""inner"#;
    let mut lexer = Lexer::new(code);
    let res = lexer.tokenize_string();
    assert!(res.is_none());
}

#[test]
fn string_moves_past_closing_quote() {
    let mut lexer = Lexer::new(r#""ab";"#);
    assert!(lexer.tokenize_string().is_some());
    assert_eq!(lexer.peek_char(), Some(';'));
}

#[test]
fn string_resolves_every_escape() {
    let mut lexer = Lexer::new(r#""a\nb\tc\\d\'e""#);
    match lexer.tokenize_string().unwrap().get_kind() {
        TokenKind::StringConst(s) => assert_eq!(s, "a\nb\tc\\d'e"),
        _ => panic!(),
    }
}

#[test]
fn convert_special_pairs() {
    assert_eq!(Lexer::convert_special("\\n"), Some('\n'));
    assert_eq!(Lexer::convert_special("\\\""), Some('"'));
    assert_eq!(Lexer::convert_special("\\'"), Some('\''));
    assert_eq!(Lexer::convert_special("\\t"), Some('\t'));
    assert_eq!(Lexer::convert_special("\\\\"), Some('\\'));
    assert_eq!(Lexer::convert_special("\\x"), None);
    assert_eq!(Lexer::convert_special("ab"), None);
    assert_eq!(Lexer::convert_special("\\"), None);
}

#[test]
fn separator_chars_round_trip() {
    for ch in ['(', ')', '{', '}', ',', ';'] {
        assert_eq!(SeparatorKind::from_char(ch).unwrap().to_char(), ch);
    }
    assert_eq!(SeparatorKind::from_char('x'), None);
    assert_eq!(SeparatorKind::Semicolon.to_char(), ';');
}

#[test]
fn operator_chars_round_trip() {
    assert_eq!(OperatorKind::from_char('='), Some(OperatorKind::Assign));
    assert_eq!(OperatorKind::from_char('@'), Some(OperatorKind::StringConcat));
    assert_eq!(OperatorKind::from_char('+'), None);
    assert_eq!(OperatorKind::StringConcat.to_char(), '@');
    assert_eq!(OperatorKind::Assign.to_char(), '=');
}

#[test]
fn is_string_needs_word_boundary() {
    let lexer = Lexer::new("def f");
    assert!(lexer.is_string("def"));
    let lexer = Lexer::new("define");
    assert!(!lexer.is_string("def"));
    let lexer = Lexer::new("de");
    assert!(!lexer.is_string("def"));
}

#[test]
fn tokenize_whole_program() {
    let mut lexer = Lexer::new("def f(a){ $a @ \"x\"; }; %f(a = \"1\");");
    lexer.tokenize().unwrap();
    let tokens = lexer.get_tokens();
    assert_eq!(tokens.len(), 19);
    assert!(matches!(tokens[0].get_kind(), TokenKind::Keyword(_)));
    assert!(matches!(tokens[5].get_kind(), TokenKind::Separator(SeparatorKind::BlockOpen)));
    match tokens[6].get_kind() {
        TokenKind::Variable(v) => assert_eq!(v, "a"),
        _ => panic!(),
    }
    assert!(matches!(tokens[7].get_kind(), TokenKind::Operator(OperatorKind::StringConcat)));
    match tokens[12].get_kind() {
        TokenKind::Function(v) => assert_eq!(v, "f"),
        _ => panic!(),
    }
}

#[test]
fn tokenize_counts_rows_and_columns() {
    let mut lexer = Lexer::new("(\n  )");
    lexer.tokenize().unwrap();
    let tokens = lexer.get_tokens();
    assert_eq!(tokens.len(), 2);
    assert_eq!((tokens[0].get_row(), tokens[0].get_column()), (0, 0));
    assert_eq!((tokens[1].get_row(), tokens[1].get_column()), (1, 2));
}

#[test]
fn tokenize_unknown_character() {
    let mut lexer = Lexer::new("( #");
    let err = lexer.tokenize().unwrap_err();
    assert_eq!(err.kind(), ParsingErrorKind::UnknownCharacter);
    assert_eq!((err.row(), err.column()), (0, 2));
    assert_eq!(lexer.get_tokens().len(), 1);
    assert_eq!(err.to_string(), "UnknownCharacter:  Row: 0 Column:2 ");
}

#[test]
fn tokenize_unterminated_string() {
    let mut lexer = Lexer::new("\"abc");
    assert!(lexer.tokenize().is_err());
}

#[test]
fn identifier_is_cut_by_its_character_count_in_bytes() {
    let mut lexer = Lexer::new("é1 x");
    lexer.tokenize().unwrap();
    let tokens = lexer.get_tokens();
    assert_eq!(tokens.len(), 2);
    assert!(matches!(tokens[0].get_kind(), TokenKind::Identifier(n) if n == "é"));
    assert!(matches!(tokens[1].get_kind(), TokenKind::Identifier(n) if n == "x"));
}

#[test]
fn tokenize_id_moves_past_whole_name() {
    let mut lexer = Lexer::new("é1(");
    let tok = lexer.tokenize_id().unwrap();
    assert!(matches!(tok.get_kind(), TokenKind::Identifier(n) if n == "é"));
    assert_eq!(lexer.peek_char(), Some('('));
}

#[test]
fn ascii_identifier_is_whole() {
    let mut lexer = Lexer::new("va_r1()");
    let tok = lexer.tokenize_id().unwrap();
    assert!(matches!(tok.get_kind(), TokenKind::Identifier(n) if n == "va_r1"));
    assert_eq!(lexer.peek_char(), Some('('));
}

#[test]
fn try_tokenize_reports_name_cut_inside_character() {
    let mut lexer = Lexer::new("aé");
    assert!(lexer.try_tokenize().is_none());
}

#[test]
fn try_tokenize_reports_string_cut_inside_character() {
    let mut lexer = Lexer::new("\"aé\"");
    assert!(lexer.try_tokenize().is_none());
    let mut two_byte = Lexer::new("\"é\"");
    assert_eq!(two_byte.try_tokenize().unwrap().is_ok(), true);
    assert!(matches!(two_byte.get_tokens()[0].get_kind(), TokenKind::StringConst(s) if s == "é"));
}
