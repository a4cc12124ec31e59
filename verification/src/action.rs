//! Syntax trees and their execution, which writes HTML.

use std::rc::Rc;

use vstd::prelude::*;

use crate::assoc::{assoc_get, assoc_insert, assoc_insert_spec, key_index};
use crate::lexer::{operator_name, OperatorKind};
use crate::laws::law_run_is_any_fuel;
use crate::model::{
    declared_in_args, declared_in_seq, declared_names, eval, eval_attrs, eval_call_args, eval_seq, max_depth, run, runs_within, Act, Outcome, Output,
};
use crate::state::{
    lemma_scope_empty, lemma_scope_insert, scope_view, strings_view, ExecutionError, State,
};

verus! {

/// A node of a program.
#[derive(Debug)]
pub enum ActionKind {
    /// Final unit of code that represents a constant string.
    ConstString(String),
    /// A function that generates an HTML tag with attributes and an optional body.
    Function { tag_name: String, arguments: Vec<(String, ActionKind)>, body: Option<Box<ActionKind>> },
    /// Statements whose outputs are joined, such as the body of a tag.
    Sequence(Vec<ActionKind>),
    GetVariable(String),
    BinaryOperation { op: OperatorKind, left: Box<ActionKind>, right: Box<ActionKind> },
    UserFunctionCall { function_name: String, arguments: Vec<(String, ActionKind)> },
    UserFunctionDeclaration { function_name: String, arguments: Vec<String>, body: Rc<ActionKind> },
}

/// The tree that a node stands for.
pub open spec fn act_of(a: ActionKind) -> Act
    decreases a, 0int,
{
    match a {
        ActionKind::ConstString(s) => Act::ConstString(s@),
        ActionKind::Function { tag_name, arguments, body } => Act::Function {
            tag_name: tag_name@,
            arguments: args_of(arguments@),
            body: match body {
                Some(b) => Some(Box::new(act_of(*b))),
                None => None,
            },
        },
        ActionKind::Sequence(v) => Act::Sequence(acts_of(v@)),
        ActionKind::GetVariable(s) => Act::GetVariable(s@),
        ActionKind::BinaryOperation { op, left, right } => Act::BinaryOperation {
            op,
            left: Box::new(act_of(*left)),
            right: Box::new(act_of(*right)),
        },
        ActionKind::UserFunctionCall { function_name, arguments } => Act::UserFunctionCall {
            function_name: function_name@,
            arguments: args_of(arguments@),
        },
        ActionKind::UserFunctionDeclaration { function_name, arguments, body } => Act::UserFunctionDeclaration {
            function_name: function_name@,
            arguments: strings_view(arguments@),
            body: Box::new(act_of(*body)),
        },
    }
}

/// The trees of a list of nodes.
pub open spec fn acts_of(s: Seq<ActionKind>) -> Seq<Act>
    decreases s, 1int,
{
    if s.len() == 0 {
        Seq::empty()
    } else {
        acts_of(s.drop_last()).push(act_of(s.last()))
    }
}

/// The named trees of a list of named nodes.
pub open spec fn args_of(s: Seq<(String, ActionKind)>) -> Seq<(Seq<char>, Act)>
    decreases s, 1int,
{
    if s.len() == 0 {
        Seq::empty()
    } else {
        args_of(s.drop_last()).push((s.last().0@, act_of(s.last().1)))
    }
}

impl View for ActionKind {
    type V = Act;

    open spec fn view(&self) -> Act {
        act_of(*self)
    }
}

/// A result of a bounded run agrees with an evaluation: nothing where the evaluation is
/// stuck, else its output, with `st` the state it ends in.
pub open spec fn ran(o: Outcome<Output>, r: Option<Result<Option<String>, ExecutionError>>, st: crate::model::Env) -> bool {
    match o {
        Outcome::Done(out, e) => r matches Some(x) && result_view(x) == out && st == e,
        Outcome::Stuck => r is None,
    }
}

/// What an execution result stands for.
pub open spec fn result_view(r: Result<Option<String>, ExecutionError>) -> Output {
    match r {
        Ok(Some(s)) => Ok(Some(s@)),
        Ok(None) => Ok(None),
        Err(e) => Err(e@),
    }
}

/// The text of an optional string; nothing stands for the empty text.
pub open spec fn output_text(o: Option<String>) -> Seq<char> {
    match o {
        Some(s) => s@,
        None => Seq::empty(),
    }
}

/// The trees of a list of nodes, index by index.
pub proof fn lemma_acts_of(s: Seq<ActionKind>)
    ensures
        acts_of(s).len() == s.len(),
        forall|i: int| 0 <= i < s.len() ==> #[trigger] acts_of(s)[i] == act_of(s[i]),
    decreases s.len(),
{
    if s.len() > 0 {
        lemma_acts_of(s.drop_last());
    }
}

/// The named trees of a list of named nodes, index by index.
pub proof fn lemma_args_of(s: Seq<(String, ActionKind)>)
    ensures
        args_of(s).len() == s.len(),
        forall|i: int| 0 <= i < s.len() ==> #[trigger] args_of(s)[i] == (s[i].0@, act_of(s[i].1)),
    decreases s.len(),
{
    if s.len() > 0 {
        lemma_args_of(s.drop_last());
    }
}

/// Once the attributes of a prefix fail to give text, the whole list gives what the prefix gave.
pub proof fn lemma_attrs_prefix(s: Seq<(Seq<char>, Act)>, k: int, env: crate::model::Env, fuel: nat)
    requires
        0 <= k <= s.len(),
        !(eval_attrs(s.take(k), env, fuel) matches Outcome::Done(Ok(_), _)),
    ensures
        eval_attrs(s, env, fuel) == eval_attrs(s.take(k), env, fuel),
    decreases s.len() - k,
{
    if k < s.len() {
        assert(s.take(k + 1).drop_last() =~= s.take(k));
        lemma_attrs_prefix(s, k + 1, env, fuel);
    } else {
        assert(s.take(k) =~= s);
    }
}

/// Once the statements of a prefix fail to give text, the whole list gives what the prefix gave.
pub proof fn lemma_seq_prefix(s: Seq<Act>, k: int, env: crate::model::Env, fuel: nat)
    requires
        0 <= k <= s.len(),
        !(eval_seq(s.take(k), env, fuel) matches Outcome::Done(Ok(_), _)),
    ensures
        eval_seq(s, env, fuel) == eval_seq(s.take(k), env, fuel),
    decreases s.len() - k,
{
    if k < s.len() {
        assert(s.take(k + 1).drop_last() =~= s.take(k));
        lemma_seq_prefix(s, k + 1, env, fuel);
    } else {
        assert(s.take(k) =~= s);
    }
}

/// Once the arguments of a prefix fail to give a scope, the whole list gives what the prefix gave.
pub proof fn lemma_call_args_prefix(s: Seq<(Seq<char>, Act)>, k: int, env: crate::model::Env, fuel: nat)
    requires
        0 <= k <= s.len(),
        !(eval_call_args(s.take(k), env, fuel) matches Outcome::Done(Ok(_), _)),
    ensures
        eval_call_args(s, env, fuel) == eval_call_args(s.take(k), env, fuel),
    decreases s.len() - k,
{
    if k < s.len() {
        assert(s.take(k + 1).drop_last() =~= s.take(k));
        lemma_call_args_prefix(s, k + 1, env, fuel);
    } else {
        assert(s.take(k) =~= s);
    }
}

/// The value of the named argument `name`: that of its first entry.
pub fn get_argument<'b>(arguments: &'b Vec<(String, ActionKind)>, name: &str) -> (r: Option<&'b ActionKind>)
    ensures
        match r {
            Some(v) => key_index(arguments@, name@) >= 0 && *v == arguments@[key_index(arguments@, name@)].1,
            None => key_index(arguments@, name@) == -1,
        },
{
    let key = name.to_owned();
    assoc_get(arguments, &key)
}

/// Adds the named argument `name` with `value`, replacing the value of a present name.
pub fn insert_argument(arguments: &mut Vec<(String, ActionKind)>, name: String, value: ActionKind)
    ensures
        final(arguments)@ == assoc_insert_spec(old(arguments)@, name, value),
{
    assoc_insert(arguments, name, value);
}

fn clone_strings(v: &Vec<String>) -> (r: Vec<String>)
    ensures
        r@ == v@,
{
    let mut r: Vec<String> = Vec::new();
    let mut i: usize = 0;
    while i < v.len()
        invariant
            i <= v.len(),
            r@ == v@.take(i as int),
        decreases v.len() - i,
    {
        r.push(v[i].clone());
        i += 1;
        assert(r@ =~= v@.take(i as int));
    }
    assert(v@.take(i as int) =~= v@);
    r
}

impl ActionKind {
    /// Appends to `names` the names of the user functions that a run of the node declares, in
    /// the order in which it declares them.
    #[verifier::loop_isolation(false)]
    pub fn collect_declared_names(&self, names: &mut Vec<String>)
        ensures
            strings_view(final(names)@) == strings_view(old(names)@) + declared_names(self@),
        decreases self,
    {
        let ghost start = strings_view(names@);
        match self {
            ActionKind::Function { tag_name, arguments, body } => {
                let ghost attrs = args_of(arguments@);
                proof {
                    lemma_args_of(arguments@);
                }
                let mut i: usize = 0;
                assert(attrs.take(0) =~= Seq::<(Seq<char>, Act)>::empty());
                assert(start + Seq::<Seq<char>>::empty() =~= start);
                while i < arguments.len()
                    invariant
                        i <= arguments.len(),
                        strings_view(names@) == start + declared_in_args(attrs.take(i as int)),
                    decreases arguments.len() - i,
                {
                    assert(attrs.take(i + 1).drop_last() =~= attrs.take(i as int));
                    assert(attrs.take(i + 1).last() == attrs[i as int]);
                    arguments[i].1.collect_declared_names(names);
                    i += 1;
                    assert(strings_view(names@) =~= start + declared_in_args(attrs.take(i as int)));
                }
                assert(attrs.take(i as int) =~= attrs);
                match body {
                    Some(b) => {
                        b.collect_declared_names(names);
                    },
                    None => {},
                }
                assert(strings_view(names@) =~= start + declared_names(self@));
            },
            ActionKind::Sequence(items) => {
                let ghost acts = acts_of(items@);
                proof {
                    lemma_acts_of(items@);
                }
                let mut i: usize = 0;
                assert(acts.take(0) =~= Seq::<Act>::empty());
                assert(start + Seq::<Seq<char>>::empty() =~= start);
                while i < items.len()
                    invariant
                        i <= items.len(),
                        strings_view(names@) == start + declared_in_seq(acts.take(i as int)),
                    decreases items.len() - i,
                {
                    assert(acts.take(i + 1).drop_last() =~= acts.take(i as int));
                    assert(acts.take(i + 1).last() == acts[i as int]);
                    items[i].collect_declared_names(names);
                    i += 1;
                    assert(strings_view(names@) =~= start + declared_in_seq(acts.take(i as int)));
                }
                assert(acts.take(i as int) =~= acts);
            },
            ActionKind::BinaryOperation { op, left, right } => {
                left.collect_declared_names(names);
                right.collect_declared_names(names);
                assert(strings_view(names@) =~= start + declared_names(self@));
            },
            ActionKind::UserFunctionCall { function_name, arguments } => {
                let ghost attrs = args_of(arguments@);
                proof {
                    lemma_args_of(arguments@);
                }
                let mut i: usize = 0;
                assert(attrs.take(0) =~= Seq::<(Seq<char>, Act)>::empty());
                assert(start + Seq::<Seq<char>>::empty() =~= start);
                while i < arguments.len()
                    invariant
                        i <= arguments.len(),
                        strings_view(names@) == start + declared_in_args(attrs.take(i as int)),
                    decreases arguments.len() - i,
                {
                    assert(attrs.take(i + 1).drop_last() =~= attrs.take(i as int));
                    assert(attrs.take(i + 1).last() == attrs[i as int]);
                    arguments[i].1.collect_declared_names(names);
                    i += 1;
                    assert(strings_view(names@) =~= start + declared_in_args(attrs.take(i as int)));
                }
                assert(attrs.take(i as int) =~= attrs);
            },
            ActionKind::UserFunctionDeclaration { function_name, arguments, body } => {
                names.push(function_name.clone());
                assert(strings_view(names@) =~= start + declared_names(self@));
            },
            _ => {
                assert(strings_view(names@) =~= start + declared_names(self@));
            },
        }
    }

    /// Runs the node and returns the HTML it writes, if any. Declarations add user functions
    /// to `state`; calls of user functions run their bodies in a new variable scope.
    ///
    /// The run must end, nesting fewer than 2^64 calls of user functions (a deeper nesting
    /// cannot fit in a machine's memory); `generate_within` makes no such demand.
    pub fn generate(&self, state: &mut State) -> (r: Result<Option<String>, ExecutionError>)
        requires
            runs_within(self@, old(state)@),
        ensures
            run(self@, old(state)@) == Outcome::Done(result_view(r), final(state)@),
    {
        proof {
            law_run_is_any_fuel(self@, state@, max_depth());
        }
        match self.generate_within(state, 0xffff_ffff_ffff_ffffu64) {
            Some(r) => r,
            None => unreached(),
        }
    }

    /// Runs the node, nesting at most `max_depth` calls of user functions. Gives nothing when
    /// the run would nest deeper or reaches an assignment (which has no meaning); the state
    /// is then left part way.
    #[verifier::loop_isolation(false)]
    #[verifier::rlimit(40)]
    #[verifier::spinoff_prover]
    pub fn generate_within(&self, state: &mut State, max_depth: u64)
        -> (r: Option<Result<Option<String>, ExecutionError>>)
        ensures
            ran(eval(self@, old(state)@, max_depth as nat), r, final(state)@),
        decreases max_depth, 1int, self,
    {
        let ghost fuel = max_depth as nat;
        let ghost env0 = state@;
        match self {
            ActionKind::ConstString(s) => Some(Ok(Some(s.clone()))),
            ActionKind::Function { tag_name, arguments, body } => {
                let ghost attrs = args_of(arguments@);
                proof {
                    lemma_args_of(arguments@);
                }
                let mut result = String::new();
                result.append("<");
                result.append(tag_name.as_str());
                result.append(" ");
                let ghost head0 = result@;
                let ghost mut t: Seq<char> = Seq::empty();
                let mut i: usize = 0;
                assert(attrs.take(0) =~= Seq::<(Seq<char>, Act)>::empty());
                while i < arguments.len()
                    invariant
                        i <= arguments.len(),
                        result@ == head0 + t,
                        eval_attrs(attrs.take(i as int), env0, fuel) == Outcome::Done(
                            Ok::<Seq<char>, crate::state::ExecutionErrorKind>(t),
                            state@,
                        ),
                    decreases arguments.len() - i,
                {
                    let pair = &arguments[i];
                    assert(attrs.take(i + 1).drop_last() =~= attrs.take(i as int));
                    assert(attrs.take(i + 1).last() == attrs[i as int]);
                    let v = pair.1.generate_within(state, max_depth);
                    match v {
                        None => {
                            proof {
                                lemma_attrs_prefix(attrs, i + 1, env0, fuel);
                            }
                            return None;
                        },
                        Some(Err(e)) => {
                            proof {
                                lemma_attrs_prefix(attrs, i + 1, env0, fuel);
                            }
                            return Some(Err(e));
                        },
                        Some(Ok(v)) => {
                            let ghost vt = output_text(v);
                            result.append(pair.0.as_str());
                            result.append("=\"");
                            match v {
                                Some(s) => {
                                    result.append(s.as_str());
                                },
                                None => {},
                            }
                            result.append("\"");
                            proof {
                                t = t + pair.0@ + "=\""@ + vt + "\""@;
                                assert(result@ =~= head0 + t);
                            }
                        },
                    }
                    i += 1;
                }
                assert(attrs.take(i as int) =~= attrs);
                result.append(">");
                let ghost head = head0 + t + ">"@;
                assert(result@ =~= head);
                match body {
                    None => {
                        result.append("</");
                        result.append(tag_name.as_str());
                        result.append(">");
                        Some(Ok(Some(result)))
                    },
                    Some(b) => {
                        let br = b.generate_within(state, max_depth);
                        match br {
                            None => None,
                            Some(Err(e)) => Some(Err(e)),
                            Some(Ok(v)) => {
                                let ghost vt = output_text(v);
                                match v {
                                    Some(s) => {
                                        result.append(s.as_str());
                                    },
                                    None => {},
                                }
                                result.append("</");
                                result.append(tag_name.as_str());
                                result.append(">");
                                assert(result@ =~= head + vt + "</"@ + tag_name@ + ">"@);
                                Some(Ok(Some(result)))
                            },
                        }
                    },
                }
            },
            ActionKind::Sequence(items) => {
                let ghost acts = acts_of(items@);
                proof {
                    lemma_acts_of(items@);
                }
                let mut result = String::new();
                let ghost mut t: Seq<char> = Seq::empty();
                let mut i: usize = 0;
                assert(acts.take(0) =~= Seq::<Act>::empty());
                while i < items.len()
                    invariant
                        i <= items.len(),
                        result@ == t,
                        eval_seq(acts.take(i as int), env0, fuel) == Outcome::Done(
                            Ok::<Seq<char>, crate::state::ExecutionErrorKind>(t),
                            state@,
                        ),
                    decreases items.len() - i,
                {
                    assert(acts.take(i + 1).drop_last() =~= acts.take(i as int));
                    assert(acts.take(i + 1).last() == acts[i as int]);
                    let v = items[i].generate_within(state, max_depth);
                    match v {
                        None => {
                            proof {
                                lemma_seq_prefix(acts, i + 1, env0, fuel);
                            }
                            return None;
                        },
                        Some(Err(e)) => {
                            proof {
                                lemma_seq_prefix(acts, i + 1, env0, fuel);
                            }
                            return Some(Err(e));
                        },
                        Some(Ok(v)) => {
                            let ghost vt = output_text(v);
                            match v {
                                Some(s) => {
                                    result.append(s.as_str());
                                },
                                None => {},
                            }
                            proof {
                                t = t + vt;
                                assert(result@ =~= t);
                            }
                        },
                    }
                    i += 1;
                }
                assert(acts.take(i as int) =~= acts);
                Some(Ok(Some(result)))
            },
            ActionKind::GetVariable(name) => Some(Ok(state.get_variable_value(name.as_str()))),
            ActionKind::BinaryOperation { op, left, right } => match op {
                OperatorKind::Assign => None,
                OperatorKind::StringConcat => {
                    let l = match left.generate_within(state, max_depth) {
                        None => return None,
                        Some(Err(e)) => return Some(Err(e)),
                        Some(Ok(l)) => l,
                    };
                    let r = match right.generate_within(state, max_depth) {
                        None => return None,
                        Some(Err(e)) => return Some(Err(e)),
                        Some(Ok(r)) => r,
                    };
                    let mut result = String::new();
                    match l {
                        Some(s) => {
                            result.append(s.as_str());
                        },
                        None => {},
                    }
                    match r {
                        Some(s) => {
                            result.append(s.as_str());
                        },
                        None => {},
                    }
                    Some(Ok(Some(result)))
                },
            },
            ActionKind::UserFunctionCall { function_name, arguments } => {
                let ghost args = args_of(arguments@);
                proof {
                    lemma_args_of(arguments@);
                    lemma_scope_empty();
                }
                let mut vars: Vec<(String, String)> = Vec::new();
                let mut i: usize = 0;
                assert(args.take(0) =~= Seq::<(Seq<char>, Act)>::empty());
                while i < arguments.len()
                    invariant
                        i <= arguments.len(),
                        eval_call_args(args.take(i as int), env0, fuel) == Outcome::Done(
                            Ok::<Map<Seq<char>, Seq<char>>, crate::state::ExecutionErrorKind>(scope_view(vars@)),
                            state@,
                        ),
                    decreases arguments.len() - i,
                {
                    let pair = &arguments[i];
                    assert(args.take(i + 1).drop_last() =~= args.take(i as int));
                    assert(args.take(i + 1).last() == args[i as int]);
                    let v = pair.1.generate_within(state, max_depth);
                    match v {
                        None => {
                            proof {
                                lemma_call_args_prefix(args, i + 1, env0, fuel);
                            }
                            return None;
                        },
                        Some(Err(e)) => {
                            proof {
                                lemma_call_args_prefix(args, i + 1, env0, fuel);
                            }
                            return Some(Err(e));
                        },
                        Some(Ok(v)) => {
                            let value = match v {
                                Some(s) => s,
                                None => String::new(),
                            };
                            let ghost old_vars = vars@;
                            assoc_insert(&mut vars, pair.0.clone(), value);
                            proof {
                                lemma_scope_insert(old_vars, pair.0, value);
                            }
                        },
                    }
                    i += 1;
                }
                assert(args.take(i as int) =~= args);
                state.call_user_within(function_name.as_str(), vars, max_depth)
            },
            ActionKind::UserFunctionDeclaration { function_name, arguments, body } => {
                state.add_user_function(function_name.clone(), clone_strings(arguments), body.clone());
                Some(Ok(None))
            },
        }
    }
}

/// How a tree is shown for inspection.
pub open spec fn show(a: Act) -> Seq<char>
    decreases a, 0int,
{
    match a {
        Act::ConstString(s) => "CONST("@ + s + ")"@,
        Act::Function { tag_name, arguments, body } => "FUNCTION(tag: "@ + tag_name + ", arguments: "@
            + show_args(arguments) + ", body : "@ + match body {
            Some(b) => show(*b),
            None => "none"@,
        } + ")"@,
        Act::Sequence(items) => "SEQ("@ + show_items(items) + ")"@,
        Act::GetVariable(s) => "VAR("@ + s + ")"@,
        Act::BinaryOperation { op, left, right } => "OPERATION(op: "@ + operator_name(op) + ", left: "@
            + show(*left) + ", right: "@ + show(*right) + ")"@,
        Act::UserFunctionCall { function_name, arguments } => "FUNC_CALL(name : "@ + function_name
            + ", args : \""@ + show_args(arguments) + "\")"@,
        Act::UserFunctionDeclaration { function_name, arguments, body } => "DECLARATION(name : "@
            + function_name + ", args : "@ + join_names(arguments) + ", body : "@ + show(*body),
    }
}

/// Named trees shown as `name=tree`, separated by commas.
pub open spec fn show_args(s: Seq<(Seq<char>, Act)>) -> Seq<char>
    decreases s, 1int,
{
    if s.len() == 0 {
        Seq::empty()
    } else if s.len() == 1 {
        s[0].0 + "="@ + show(s[0].1)
    } else {
        show_args(s.drop_last()) + ","@ + s.last().0 + "="@ + show(s.last().1)
    }
}

/// Trees shown one after another, separated by semicolons.
pub open spec fn show_items(s: Seq<Act>) -> Seq<char>
    decreases s, 1int,
{
    if s.len() == 0 {
        Seq::empty()
    } else if s.len() == 1 {
        show(s[0])
    } else {
        show_items(s.drop_last()) + ";"@ + show(s.last())
    }
}

/// Names separated by commas.
pub open spec fn join_names(s: Seq<Seq<char>>) -> Seq<char>
    decreases s.len(),
{
    if s.len() == 0 {
        Seq::empty()
    } else if s.len() == 1 {
        s[0]
    } else {
        join_names(s.drop_last()) + ","@ + s.last()
    }
}

impl ActionKind {
    /// The text that shows the node and its children, for inspection.
    #[verifier::loop_isolation(false)]
    pub fn to_string(&self) -> (r: String)
        ensures
            r@ == show(self@),
        decreases self, 1int,
    {
        let mut r = String::new();
        match self {
            ActionKind::ConstString(s) => {
                r.append("CONST(");
                r.append(s.as_str());
                r.append(")");
            },
            ActionKind::Function { tag_name, arguments, body } => {
                r.append("FUNCTION(tag: ");
                r.append(tag_name.as_str());
                r.append(", arguments: ");
                let a = show_arguments(arguments);
                r.append(a.as_str());
                r.append(", body : ");
                match body {
                    Some(b) => {
                        let t = b.to_string();
                        r.append(t.as_str());
                    },
                    None => {
                        r.append("none");
                    },
                }
                r.append(")");
            },
            ActionKind::Sequence(items) => {
                r.append("SEQ(");
                proof {
                    lemma_acts_of(items@);
                }
                let mut i: usize = 0;
                let ghost acts = acts_of(items@);
                while i < items.len()
                    invariant
                        i <= items.len(),
                        acts.len() == items.len(),
                        r@ == "SEQ("@ + show_items(acts.take(i as int)),
                    decreases items.len() - i,
                {
                    if i > 0 {
                        r.append(";");
                    }
                    let t = items[i].to_string();
                    r.append(t.as_str());
                    proof {
                        assert(acts.take(i + 1).drop_last() =~= acts.take(i as int));
                        assert(acts.take(i + 1).last() == acts[i as int]);
                        if i == 0 {
                            assert(show_items(acts.take(i + 1)) == show(acts[0]));
                            assert(r@ =~= "SEQ("@ + show_items(acts.take(i + 1)));
                        } else {
                            assert(r@ =~= "SEQ("@ + show_items(acts.take(i + 1)));
                        }
                    }
                    i += 1;
                }
                assert(acts.take(i as int) =~= acts);
                r.append(")");
            },
            ActionKind::GetVariable(s) => {
                r.append("VAR(");
                r.append(s.as_str());
                r.append(")");
            },
            ActionKind::BinaryOperation { op, left, right } => {
                r.append("OPERATION(op: ");
                r.append(op.name());
                r.append(", left: ");
                let l = left.to_string();
                r.append(l.as_str());
                r.append(", right: ");
                let t = right.to_string();
                r.append(t.as_str());
                r.append(")");
            },
            ActionKind::UserFunctionCall { function_name, arguments } => {
                r.append("FUNC_CALL(name : ");
                r.append(function_name.as_str());
                r.append(", args : \"");
                let a = show_arguments(arguments);
                r.append(a.as_str());
                r.append("\")");
            },
            ActionKind::UserFunctionDeclaration { function_name, arguments, body } => {
                r.append("DECLARATION(name : ");
                r.append(function_name.as_str());
                r.append(", args : ");
                let mut i: usize = 0;
                let ghost names = strings_view(arguments@);
                while i < arguments.len()
                    invariant
                        i <= arguments.len(),
                        names == strings_view(arguments@),
                        r@ == "DECLARATION(name : "@ + function_name@ + ", args : "@ + join_names(names.take(i as int)),
                    decreases arguments.len() - i,
                {
                    if i > 0 {
                        r.append(",");
                    }
                    r.append(arguments[i].as_str());
                    proof {
                        assert(names.take(i + 1).drop_last() =~= names.take(i as int));
                        assert(r@ =~= "DECLARATION(name : "@ + function_name@ + ", args : "@ + join_names(names.take(i + 1)));
                    }
                    i += 1;
                }
                assert(names.take(i as int) =~= names);
                r.append(", body : ");
                let t = body.to_string();
                r.append(t.as_str());
            },
        }
        proof {
            assert(r@ =~= show(self@));
        }
        r
    }
}

/// Shows named nodes as `name=node`, separated by commas.
fn show_arguments(arguments: &Vec<(String, ActionKind)>) -> (r: String)
    ensures
        r@ == show_args(args_of(arguments@)),
    decreases arguments@, 0int,
{
    let mut r = String::new();
    proof {
        lemma_args_of(arguments@);
    }
    let ghost args = args_of(arguments@);
    let mut i: usize = 0;
    while i < arguments.len()
        invariant
            i <= arguments.len(),
            args.len() == arguments.len(),
            forall|j: int| 0 <= j < arguments.len() ==> #[trigger] args[j] == (arguments@[j].0@, act_of(arguments@[j].1)),
            r@ == show_args(args.take(i as int)),
        decreases arguments.len() - i,
    {
        if i > 0 {
            r.append(",");
        }
        r.append(arguments[i].0.as_str());
        r.append("=");
        let t = arguments[i].1.to_string();
        r.append(t.as_str());
        proof {
            assert(args.take(i + 1).drop_last() =~= args.take(i as int));
            assert(r@ =~= show_args(args.take(i + 1)));
        }
        i += 1;
    }
    assert(args.take(i as int) =~= args);
    r
}

} // verus!
