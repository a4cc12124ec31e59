use gi_html::lexer::Lexer;
use gi_html::parser::Parser;
use gi_html::action::ActionKind;
use gi_html::state::{LoadError, State};

fn run_body(code: &str) -> String {
    let mut lexer = Lexer::new(code);
    lexer.tokenize().unwrap();
    let tokens = lexer.get_tokens();
    let mut parser = Parser::new(&tokens);
    let mut state = State::default();
    parser.parse_body().unwrap().generate(&mut state).unwrap().unwrap()
}

#[test]
fn test_full_gen_simple() {
    let mut lexer = Lexer::new("\"hello world\";");
    lexer.tokenize().unwrap();
    let tokens = lexer.get_tokens();
    assert_eq!(2, tokens.len());
    let mut parser = Parser::new(&tokens);
    let mut state = State::default();
    assert_eq!(
        parser.parse_body().unwrap().generate(&mut state).unwrap().unwrap(),
        "hello world".to_owned()
    );
}

#[test]
fn test_full_gen_tag() {
    assert_eq!(
        run_body("p(class = \"bla\"){\"hello world\";};"),
        "<p class=\"bla\">hello world</p>".to_owned()
    );
}

#[test]
fn test_full_gen_tag_multiple() {
    assert_eq!(
        run_body("p(class = \"bla\"){\"hello world\";}; p(class = \"bla\"){\"hello world\";};"),
        "<p class=\"bla\">hello world</p><p class=\"bla\">hello world</p>".to_owned()
    );
}

#[test]
fn test_full_gen_tag_multiple_statements() {
    let mut lexer = Lexer::new("p(class = \"bla\"){\"hello world\"; \"hehe\";}");
    lexer.tokenize().unwrap();
    let tokens = lexer.get_tokens();
    let mut parser = Parser::new(&tokens);
    let mut state = State::default();
    assert_eq!(
        parser.parse_unit().unwrap().unwrap().generate(&mut state).unwrap().unwrap(),
        "<p class=\"bla\">hello worldhehe</p>".to_owned()
    );
}

#[test]
fn test_full_gen_concat_no_func() {
    let mut lexer = Lexer::new("\"hello world\" @ \"k\";");
    lexer.tokenize().unwrap();
    let tokens = lexer.get_tokens();
    let mut parser = Parser::new(&tokens);
    let mut state = State::default();
    assert_eq!(
        parser.parse_expression().unwrap().unwrap().generate(&mut state).unwrap().unwrap(),
        "hello worldk".to_owned()
    );
}

#[test]
fn test_full_gen_concat() {
    let mut lexer = Lexer::new("p(){\"hello world\" @ \"k\" @ \"hehe\";}");
    lexer.tokenize().unwrap();
    let tokens = lexer.get_tokens();
    let mut parser = Parser::new(&tokens);
    let mut state = State::default();
    assert_eq!(
        parser.parse_unit().unwrap().unwrap().generate(&mut state).unwrap().unwrap(),
        "<p >hello worldkhehe</p>".to_owned()
    );
}

#[test]
fn test_full_user_function() {
    assert_eq!(
        run_body(
            r#"
		def bla(){ "bla";};
		%bla();
		%bla();
		"#
        ),
        "blabla".to_owned()
    );
}

#[test]
fn test_full_user_function_with_argument() {
    assert_eq!(
        run_body(
            r#"
		def bla(a){ $a;};
		%bla(a = "1");
		%bla(a = "2");
		"#
        ),
        "12".to_owned()
    );
}

#[test]
fn test_full_user_function_multiple() {
    assert_eq!(
        run_body(
            r#"
		def bla(){ "bla";};
		def f1(){ p(){"f1";};};
		%bla();
		%f1();
		"#
        ),
        "bla<p >f1</p>".to_owned()
    );
}

#[test]
fn test_full_user_function_decl() {
    let mut lexer = Lexer::new(r#"def bla(){ "bla";}"#);
    lexer.tokenize().unwrap();
    let tokens = lexer.get_tokens();
    let mut parser = Parser::new(&tokens);
    let mut state = State::default();
    assert!(
        parser
            .parse_function_definition()
            .unwrap()
            .unwrap()
            .generate(&mut state)
            .unwrap()
            .is_none()
    );

    assert!(state.get_user_function("bla").is_some());
}

#[test]
fn test_full_user_function_decl_with_arg() {
    let mut lexer = Lexer::new(r#"def bla(a){ $a;}"#);
    lexer.tokenize().unwrap();
    let tokens = lexer.get_tokens();
    let mut parser = Parser::new(&tokens);
    let mut state = State::default();
    assert!(
        parser
            .parse_function_definition()
            .unwrap()
            .unwrap()
            .generate(&mut state)
            .unwrap()
            .is_none()
    );

    assert!(state.get_user_function("bla").is_some());
    assert_eq!(state.get_user_function("bla").unwrap().arguments().len(), 1);
}

#[test]
fn load_module_runs_and_registers_functions() {
    let mut state = State::default();
    let body = state.load_module("def f(){ \"x\"; }; %f();").unwrap();
    assert!(matches!(body, ActionKind::Sequence(ref items) if items.len() == 2));
    assert!(state.get_user_function("f").is_some());
    assert_eq!(state.execute_user_function("f", Vec::new()).unwrap(), Some("x".to_owned()));
}

#[test]
fn load_module_twice_reports_duplicate() {
    let mut state = State::default();
    let code = "p(){ \"Hello world\"; }; def bla(){ \"secret\"; };";
    assert!(state.load_module(code).is_ok());
    match state.load_module(code) {
        Err(LoadError::DuplicateFunction(name)) => assert_eq!(name, "bla"),
        other => panic!("expected a duplicate function, got {:?}", other),
    }
    assert_eq!(state.execute_user_function("bla", Vec::new()).unwrap(), Some("secret".to_owned()));
}

#[test]
fn load_module_declaring_twice_reports_duplicate() {
    let mut state = State::default();
    match state.load_module("def a(){ \"1\"; }; def a(){ \"2\"; };") {
        Err(LoadError::DuplicateFunction(name)) => assert_eq!(name, "a"),
        other => panic!("expected a duplicate function, got {:?}", other),
    }
    assert!(state.get_user_function("a").is_none());
}

#[test]
fn load_module_without_functions_loads_again() {
    let mut state = State::default();
    assert!(state.load_module("p(){ \"x\"; };").is_ok());
    assert!(state.load_module("p(){ \"x\"; };").is_ok());
}

#[test]
fn load_module_reports_run_error() {
    let mut state = State::default();
    match state.load_module("%missing();") {
        Err(LoadError::Execution(e)) => assert_eq!(e.to_string(), "UnknownFunction"),
        other => panic!("expected an execution error, got {:?}", other),
    }
}

#[test]
fn load_module_reports_lexer_error() {
    let mut state = State::default();
    match state.load_module("p(){ # }") {
        Err(LoadError::Parsing(e)) => assert_eq!(e.to_string(), "UnknownCharacter:  Row: 0 Column:4 "),
        other => panic!("expected a parsing error, got {:?}", other),
    }
}

#[test]
fn scopes_and_user_function_calls() {
    let mut state = State::default();
    state.create_new_variable_scope(vec![("a".to_owned(), "outer".to_owned())]);
    state.create_new_variable_scope(vec![("b".to_owned(), "inner".to_owned())]);
    assert_eq!(state.get_variable_value("a"), Some("outer".to_owned()));
    assert_eq!(state.get_variable_value("b"), Some("inner".to_owned()));
    state.create_new_variable_scope(vec![("a".to_owned(), "shadow".to_owned())]);
    assert_eq!(state.get_variable_value("a"), Some("shadow".to_owned()));
    state.pop_variable_scope();
    assert_eq!(state.get_variable_value("a"), Some("outer".to_owned()));
    state.pop_variable_scope();
    state.pop_variable_scope();
    state.pop_variable_scope();
    assert_eq!(state.get_variable_value("a"), None);
}

#[test]
fn execute_user_function_directly() {
    let mut state = State::default();
    state.load_module("def greet(){ \"hi \" @ $who; };").unwrap();
    let out = state
        .execute_user_function("greet", vec![("who".to_owned(), "bob".to_owned())])
        .unwrap();
    assert_eq!(out, Some("hi bob".to_owned()));
    assert!(state.execute_user_function("nobody", Vec::new()).is_err());
}

#[test]
fn card_example() {
    assert_eq!(
        run_body("def card(title){ h2(){ $title @ \"!\"; }; };\ndiv(class = \"box\"){ %card(title = \"Hello\"); };"),
        "<div class=\"box\"><h2 >Hello!</h2></div>"
    );
}

#[test]
fn second_argument_is_not_taken() {
    let mut lexer = Lexer::new("p(a = \"1\", b = \"2\"){};");
    lexer.tokenize().unwrap();
    let tokens = lexer.get_tokens();
    let mut parser = Parser::new(&tokens);
    let err = parser.parse_body().unwrap_err();
    assert_eq!(err.to_string(), "UnexpectedCharacter: Expected ')' Row: 0 Column:4 ");
}

#[test]
fn load_within_reports_text_that_cannot_be_read() {
    let mut state = State::default();
    assert!(state.load_module_within("aé(){};", 10).is_none());
    assert!(state.load_module_within("\"é\";", 10).unwrap().is_ok());
}
