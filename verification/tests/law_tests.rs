use std::rc::Rc;

use gi_html::action::{insert_argument, ActionKind};
use gi_html::lexer::{KeywordKind, Lexer, OperatorKind, SeparatorKind, TokenKind};
use gi_html::parser::Parser;
use gi_html::state::State;

fn concat(a: ActionKind, b: ActionKind) -> ActionKind {
    ActionKind::BinaryOperation { op: OperatorKind::StringConcat, left: Box::new(a), right: Box::new(b) }
}

fn constant(s: &str) -> ActionKind {
    ActionKind::ConstString(s.to_owned())
}

#[test]
fn lexer_reads_whole_text_on_success() {
    let mut lexer = Lexer::new("  p ( ) { \"x\" ; }  \n ");
    lexer.tokenize().unwrap();
    assert_eq!(lexer.peek_char(), None);
    assert_eq!(lexer.get_tokens().len(), 7);
}

#[test]
fn lexer_keeps_earlier_tokens() {
    let mut lexer = Lexer::new("( ) ?");
    assert!(lexer.tokenize().is_err());
    assert_eq!(lexer.get_tokens().len(), 2);
    assert_eq!(lexer.peek_char(), Some('?'));
}

#[test]
fn separator_and_operator_characters_round_trip() {
    for s in [
        SeparatorKind::BlockOpen,
        SeparatorKind::BlockClose,
        SeparatorKind::BracketOpen,
        SeparatorKind::BracketClose,
        SeparatorKind::Comma,
        SeparatorKind::Semicolon,
    ] {
        assert_eq!(SeparatorKind::from_char(s.to_char()), Some(s));
    }
    for o in [OperatorKind::Assign, OperatorKind::StringConcat] {
        assert_eq!(OperatorKind::from_char(o.to_char()), Some(o));
    }
}

#[test]
fn concatenation_nesting_does_not_change_output() {
    let mut state = State::default();
    let left = concat(concat(constant("a"), constant("b")), constant("c"));
    let right = concat(constant("a"), concat(constant("b"), constant("c")));
    let l = left.generate(&mut state).unwrap();
    let r = right.generate(&mut state).unwrap();
    assert_eq!(l, r);
    assert_eq!(l, Some("abc".to_owned()));
}

#[test]
fn running_keeps_scopes_and_functions() {
    let mut state = State::default();
    state.create_new_variable_scope(vec![("x".to_owned(), "outer".to_owned())]);
    let decl = ActionKind::UserFunctionDeclaration {
        function_name: "f".to_owned(),
        arguments: Vec::new(),
        body: Rc::new(ActionKind::GetVariable("x".to_owned())),
    };
    decl.generate(&mut state).unwrap();
    let mut args: Vec<(String, ActionKind)> = Vec::new();
    insert_argument(&mut args, "x".to_owned(), constant("inner"));
    let call = ActionKind::UserFunctionCall { function_name: "f".to_owned(), arguments: args };
    assert_eq!(call.generate(&mut state).unwrap(), Some("inner".to_owned()));
    assert_eq!(state.get_variable_value("x"), Some("outer".to_owned()));
    assert!(state.get_user_function("f").is_some());
}

#[test]
fn declaring_again_replaces_function() {
    let mut state = State::default();
    state.add_user_function("f".to_owned(), Vec::new(), Rc::new(constant("one")));
    state.add_user_function("f".to_owned(), vec!["a".to_owned()], Rc::new(constant("two")));
    assert_eq!(state.get_user_function("f").unwrap().arguments().len(), 1);
    assert_eq!(state.execute_user_function("f", Vec::new()).unwrap(), Some("two".to_owned()));
}

#[test]
fn running_twice_gives_same_output() {
    let mut state = State::default();
    let body = state.load_module("def f(){ \"x\" @ \"y\"; }; p(){ %f(); };").unwrap();
    assert!(state.get_user_function("f").is_some());
    let first = body.generate(&mut state).unwrap();
    let second = body.generate(&mut state).unwrap();
    assert_eq!(first, second);
    assert_eq!(first, Some("<p >xy</p>".to_owned()));
}

#[test]
fn execute_function_removes_its_scope() {
    let mut state = State::default();
    let out = state
        .execute_function(&ActionKind::GetVariable("v".to_owned()), vec![("v".to_owned(), "1".to_owned())])
        .unwrap();
    assert_eq!(out, Some("1".to_owned()));
    assert_eq!(state.get_variable_value("v"), None);
}

#[test]
fn parser_moves_forward_to_the_end() {
    let mut lexer = Lexer::new("\"x\"; p(){ \"y\"; };");
    lexer.tokenize().unwrap();
    let tokens = lexer.get_tokens();
    let mut parser = Parser::new(&tokens);
    let mut state = State::default();
    let body = parser.parse_body().unwrap();
    assert!(parser.next().is_none());
    assert_eq!(body.generate(&mut state).unwrap(), Some("x<p >y</p>".to_owned()));
}

fn declaration(name: &str, text: &str) -> ActionKind {
    ActionKind::UserFunctionDeclaration {
        function_name: name.to_owned(),
        arguments: Vec::new(),
        body: Rc::new(ActionKind::Sequence(vec![constant(text)])),
    }
}

#[test]
fn joined_sequence_runs_parts_in_turn() {
    let mut joined = State::default();
    let whole = ActionKind::Sequence(vec![
        declaration("f", "one"),
        constant("a"),
        ActionKind::UserFunctionCall { function_name: "f".to_owned(), arguments: Vec::new() },
        constant("b"),
    ]);
    let out = whole.generate(&mut joined).unwrap();

    let mut parts = State::default();
    let first = ActionKind::Sequence(vec![declaration("f", "one"), constant("a")]);
    let second = ActionKind::Sequence(vec![
        ActionKind::UserFunctionCall { function_name: "f".to_owned(), arguments: Vec::new() },
        constant("b"),
    ]);
    let a = first.generate(&mut parts).unwrap().unwrap();
    let b = second.generate(&mut parts).unwrap().unwrap();
    assert_eq!(out, Some(a + &b));
    assert_eq!(out, Some("aoneb".to_owned()));
}

#[test]
fn joined_sequence_stops_at_first_error() {
    let mut state = State::default();
    let whole = ActionKind::Sequence(vec![
        constant("a"),
        ActionKind::UserFunctionCall { function_name: "missing".to_owned(), arguments: Vec::new() },
        declaration("later", "x"),
    ]);
    assert!(whole.generate(&mut state).is_err());
    assert!(state.get_user_function("later").is_none());
}

#[test]
fn empty_sequence_writes_empty_text() {
    let mut state = State::default();
    assert_eq!(ActionKind::Sequence(Vec::new()).generate(&mut state).unwrap(), Some(String::new()));
}

#[test]
fn run_changes_only_declared_functions() {
    let mut state = State::default();
    state.add_user_function("keep".to_owned(), vec!["x".to_owned()], Rc::new(constant("kept")));
    let program = ActionKind::Sequence(vec![declaration("made", "new"), constant("z")]);
    program.generate(&mut state).unwrap();
    assert!(state.get_user_function("made").is_some());
    assert_eq!(state.get_user_function("keep").unwrap().arguments().len(), 1);
    assert_eq!(state.execute_user_function("keep", Vec::new()).unwrap(), Some("kept".to_owned()));
    assert!(state.get_user_function("other").is_none());
}

#[test]
fn body_of_statements_parses_in_order() {
    let mut lexer = Lexer::new("\"a\"; $b; p(){ \"c\"; }; }");
    lexer.tokenize().unwrap();
    let tokens = lexer.get_tokens();
    let mut parser = Parser::new(&tokens);
    match parser.parse_body().unwrap() {
        ActionKind::Sequence(items) => {
            assert_eq!(items.len(), 3);
            assert!(matches!(&items[0], ActionKind::ConstString(s) if s == "a"));
            assert!(matches!(&items[1], ActionKind::GetVariable(s) if s == "b"));
            assert!(matches!(&items[2], ActionKind::Function { tag_name, .. } if tag_name == "p"));
        },
        other => panic!("expected a sequence, got {:?}", other),
    }
    assert!(matches!(parser.next().unwrap().get_kind(), TokenKind::Separator(SeparatorKind::BlockClose)));
}

#[test]
fn empty_body_leaves_closing_brace() {
    let mut lexer = Lexer::new("}");
    lexer.tokenize().unwrap();
    let tokens = lexer.get_tokens();
    let mut parser = Parser::new(&tokens);
    match parser.parse_body().unwrap() {
        ActionKind::Sequence(items) => assert!(items.is_empty()),
        other => panic!("expected a sequence, got {:?}", other),
    }
    assert!(parser.next().is_some());
}

#[test]
fn second_load_of_module_is_duplicate() {
    let mut state = State::default();
    let code = "def f(){ \"x\"; }; p(){ %f(); };";
    assert!(state.load_module(code).is_ok());
    assert!(matches!(state.load_module(code), Err(gi_html::state::LoadError::DuplicateFunction(n)) if n == "f"));
}

#[test]
fn try_parse_body_reports_missing_argument_value() {
    let mut lexer = Lexer::new("p(x = ;){};");
    lexer.tokenize().unwrap();
    let tokens = lexer.get_tokens();
    let mut parser = Parser::new(&tokens);
    assert!(parser.try_parse_body().is_none());
    let mut state = State::default();
    assert!(state.load_module_within("p(x = ;){};", 10).is_none());
    assert!(state.load_module_within("p(x = \"1\"){};", 10).unwrap().is_ok());
}

#[test]
fn load_within_stops_at_depth() {
    let mut state = State::default();
    assert!(state.load_module_within("def f(){ %f(); }; %f();", 3).is_none());
    let mut other = State::default();
    assert!(other.load_module_within("def g(){ \"g\"; }; %g();", 1).unwrap().is_ok());
}

#[test]
fn ascii_whitespace_separates_tokens() {
    let mut lexer = Lexer::new("p\t(\r\n)\x0b{\x0c}");
    lexer.tokenize().unwrap();
    assert_eq!(lexer.get_tokens().len(), 5);
}

#[test]
fn written_tree_is_read_back() {
    let mut lexer = Lexer::new("def f(x){ $x @ \"!\" @ $x; }; p(a = \"1\"){ %f(x = \"y\"); \"z\"; };");
    lexer.tokenize().unwrap();
    let tokens = lexer.get_tokens();
    let mut parser = Parser::new(&tokens);
    let body = parser.parse_body().unwrap();
    assert!(parser.next().is_none());
    let items = match body {
        ActionKind::Sequence(items) => items,
        other => panic!("expected a sequence, got {:?}", other),
    };
    assert_eq!(items.len(), 2);
    match &items[0] {
        ActionKind::UserFunctionDeclaration { function_name, arguments, body } => {
            assert_eq!(function_name, "f");
            assert_eq!(arguments, &vec!["x".to_owned()]);
            match &**body {
                ActionKind::Sequence(stmts) => match &stmts[0] {
                    ActionKind::BinaryOperation { left, right, .. } => {
                        assert!(matches!(&**right, ActionKind::GetVariable(v) if v == "x"));
                        assert!(matches!(&**left, ActionKind::BinaryOperation { .. }));
                    },
                    other => panic!("expected a chain, got {:?}", other),
                },
                other => panic!("expected a sequence, got {:?}", other),
            }
        },
        other => panic!("expected a declaration, got {:?}", other),
    }
    match &items[1] {
        ActionKind::Function { tag_name, arguments, body } => {
            assert_eq!(tag_name, "p");
            assert_eq!(arguments.len(), 1);
            assert_eq!(arguments[0].0, "a");
            assert!(matches!(body, Some(b) if matches!(&**b, ActionKind::Sequence(s) if s.len() == 2)));
        },
        other => panic!("expected a tag, got {:?}", other),
    }
}

#[test]
fn written_tokens_are_read_back() {
    let mut lexer = Lexer::new(" def f ( x ) { $x @ \"!\" ; } ; p ( a = \"1\" ) { %f ( x = \"y\" ) ; } ;");
    lexer.tokenize().unwrap();
    let tokens = lexer.get_tokens();
    assert_eq!(tokens.len(), 28);
    assert!(matches!(tokens[0].get_kind(), TokenKind::Keyword(KeywordKind::Function)));
    assert!(matches!(tokens[1].get_kind(), TokenKind::Identifier(n) if n == "f"));
    assert!(matches!(tokens[6].get_kind(), TokenKind::Variable(n) if n == "x"));
    assert!(matches!(tokens[7].get_kind(), TokenKind::Operator(OperatorKind::StringConcat)));
    assert!(matches!(tokens[8].get_kind(), TokenKind::StringConst(s) if s == "!"));
    assert!(matches!(tokens[19].get_kind(), TokenKind::Function(n) if n == "f"));
}

#[test]
fn def_followed_by_underscore_is_the_keyword() {
    let mut lexer = Lexer::new("def_x define");
    lexer.tokenize().unwrap();
    let tokens = lexer.get_tokens();
    assert_eq!(tokens.len(), 3);
    assert!(matches!(tokens[0].get_kind(), TokenKind::Keyword(KeywordKind::Function)));
    assert!(matches!(tokens[1].get_kind(), TokenKind::Identifier(n) if n == "_x"));
    assert!(matches!(tokens[2].get_kind(), TokenKind::Identifier(n) if n == "define"));
}
