use std::rc::Rc;

use gi_html::action::{get_argument, insert_argument, ActionKind};
use gi_html::lexer::OperatorKind;
use gi_html::state::{ExecutionErrorKind, State};

#[test]
fn action_test_string_generation() {
    let act = ActionKind::ConstString("hello world".to_owned());
    let mut state: State = State::default();
    assert_eq!(
        act.generate(&mut state).unwrap().unwrap(),
        "hello world".to_owned()
    );
}

#[test]
fn action_test_tag_generation() {
    let act = ActionKind::Function {
        tag_name: "div".to_owned(),
        arguments: Vec::new(),
        body: None,
    };
    let mut state: State = State::default();
    assert_eq!(
        act.generate(&mut state).unwrap().unwrap(),
        "<div ></div>".to_owned()
    );
}

#[test]
fn action_test_tag_generation_with_arguments() {
    let mut args: Vec<(String, ActionKind)> = Vec::new();
    insert_argument(&mut args, "class".to_owned(), ActionKind::ConstString("amazing".to_owned()));
    let act = ActionKind::Function {
        tag_name: "div".to_owned(),
        arguments: args,
        body: None,
    };

    let mut state: State = State::default();
    assert_eq!(
        act.generate(&mut state).unwrap().unwrap(),
        "<div class=\"amazing\"></div>".to_owned()
    );
}

#[test]
fn action_test_tag_generation_body_p() {
    let act = ActionKind::Sequence(vec![ActionKind::ConstString("hello world".to_owned())]);
    let mut state: State = State::default();
    assert_eq!(
        act.generate(&mut state).unwrap().unwrap(),
        "hello world".to_owned()
    );
}

#[test]
fn tag_with_body_and_two_attributes() {
    let mut args: Vec<(String, ActionKind)> = Vec::new();
    insert_argument(&mut args, "a".to_owned(), ActionKind::ConstString("1".to_owned()));
    insert_argument(&mut args, "b".to_owned(), ActionKind::ConstString("2".to_owned()));
    let act = ActionKind::Function {
        tag_name: "p".to_owned(),
        arguments: args,
        body: Some(Box::new(ActionKind::ConstString("x".to_owned()))),
    };
    let mut state = State::default();
    assert_eq!(act.generate(&mut state).unwrap().unwrap(), "<p a=\"1\"b=\"2\">x</p>");
}

#[test]
fn insert_argument_replaces_value() {
    let mut args: Vec<(String, ActionKind)> = Vec::new();
    insert_argument(&mut args, "a".to_owned(), ActionKind::ConstString("1".to_owned()));
    insert_argument(&mut args, "a".to_owned(), ActionKind::ConstString("2".to_owned()));
    assert_eq!(args.len(), 1);
    assert!(matches!(get_argument(&args, "a"), Some(ActionKind::ConstString(s)) if s == "2"));
    assert!(get_argument(&args, "b").is_none());
}

#[test]
fn concatenation() {
    let act = ActionKind::BinaryOperation {
        op: OperatorKind::StringConcat,
        left: Box::new(ActionKind::ConstString("ab".to_owned())),
        right: Box::new(ActionKind::GetVariable("missing".to_owned())),
    };
    let mut state = State::default();
    assert_eq!(act.generate(&mut state).unwrap().unwrap(), "ab");
}

#[test]
fn unknown_user_function_is_an_error() {
    let act = ActionKind::UserFunctionCall { function_name: "nope".to_owned(), arguments: Vec::new() };
    let mut state = State::default();
    let err = act.generate(&mut state).unwrap_err();
    assert_eq!(err.kind(), ExecutionErrorKind::UnknownFunction);
    assert_eq!(err.to_string(), "UnknownFunction");
}

#[test]
fn declared_function_runs_in_its_own_scope() {
    let mut state = State::default();
    let decl = ActionKind::UserFunctionDeclaration {
        function_name: "f".to_owned(),
        arguments: vec!["x".to_owned()],
        body: Rc::new(ActionKind::GetVariable("x".to_owned())),
    };
    assert!(decl.generate(&mut state).unwrap().is_none());
    assert!(state.get_user_function("f").is_some());
    let mut args: Vec<(String, ActionKind)> = Vec::new();
    insert_argument(&mut args, "x".to_owned(), ActionKind::ConstString("v".to_owned()));
    let call = ActionKind::UserFunctionCall { function_name: "f".to_owned(), arguments: args };
    assert_eq!(call.generate(&mut state).unwrap().unwrap(), "v");
    assert_eq!(state.get_variable_value("x"), None);
}

#[test]
fn to_string_shows_tree() {
    let mut args: Vec<(String, ActionKind)> = Vec::new();
    insert_argument(&mut args, "k".to_owned(), ActionKind::GetVariable("v".to_owned()));
    let act = ActionKind::Sequence(vec![
        ActionKind::Function {
            tag_name: "p".to_owned(),
            arguments: args,
            body: None,
        },
        ActionKind::BinaryOperation {
            op: OperatorKind::StringConcat,
            left: Box::new(ActionKind::ConstString("a".to_owned())),
            right: Box::new(ActionKind::ConstString("b".to_owned())),
        },
    ]);
    assert_eq!(
        act.to_string(),
        "SEQ(FUNCTION(tag: p, arguments: k=VAR(v), body : none);OPERATION(op: StringConcat, left: CONST(a), right: CONST(b)))"
    );
    let decl = ActionKind::UserFunctionDeclaration {
        function_name: "f".to_owned(),
        arguments: vec!["a".to_owned(), "b".to_owned()],
        body: Rc::new(ActionKind::Sequence(Vec::new())),
    };
    assert_eq!(decl.to_string(), "DECLARATION(name : f, args : a,b, body : SEQ()");
    let call = ActionKind::UserFunctionCall { function_name: "f".to_owned(), arguments: Vec::new() };
    assert_eq!(call.to_string(), "FUNC_CALL(name : f, args : \"\")");
}
