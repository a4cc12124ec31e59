use gi_html::execution::ActionKind;
use gi_html::state::State;

#[test]
fn execution_test_string_generation() {
    let act = ActionKind::ConstString("hello world".to_owned());
    let mut state: State = State::default();
    assert_eq!(act.generate(&mut state), "hello world".to_owned());
}

#[test]
fn execution_test_tag_generation() {
    let act = ActionKind::Function {
        tag_name: "div".to_owned(),
        arguments: Vec::new(),
        body: None,
    };
    let mut state: State = State::default();
    assert_eq!(act.generate(&mut state), "<div ></div>".to_owned());
}

#[test]
fn execution_test_tag_generation_with_arguments() {
    let mut args: Vec<(String, ActionKind)> = Vec::new();
    args.push(("class".to_owned(), ActionKind::ConstString("amazing".to_owned())));
    let act = ActionKind::Function {
        tag_name: "div".to_owned(),
        arguments: args,
        body: None,
    };

    let mut state: State = State::default();
    assert_eq!(
        act.generate(&mut state),
        "<div class=\"amazing\"></div>".to_owned()
    );
}

#[test]
fn execution_test_tag_generation_body_p() {
    let act = ActionKind::FunctionSequence {
        tag_name: "p".to_owned(),
        arguments: Vec::new(),
        body: vec![ActionKind::ConstString("hello world".to_owned())],
    };
    let mut state: State = State::default();
    assert_eq!(act.generate(&mut state), "<p >hello world</p>".to_owned());
}

#[test]
fn execution_nested_tags() {
    let act = ActionKind::Function {
        tag_name: "div".to_owned(),
        arguments: Vec::new(),
        body: Some(Box::new(ActionKind::FunctionSequence {
            tag_name: "p".to_owned(),
            arguments: vec![("id".to_owned(), ActionKind::ConstString("x".to_owned()))],
            body: vec![
                ActionKind::ConstString("a".to_owned()),
                ActionKind::ConstString("b".to_owned()),
            ],
        })),
    };
    let mut state = State::default();
    assert_eq!(act.generate(&mut state), "<div ><p id=\"x\">ab</p></div>");
}
