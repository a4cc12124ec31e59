//! The meaning of programs: syntax trees as plain values, the interpreter's state, and
//! evaluation. A user function may call itself without end, so evaluation is given a fuel:
//! the number of nested user function calls it may make. `Outcome::Stuck` means that the
//! fuel ran out or that the program reaches an operation that has no meaning (assignment).

use vstd::prelude::*;

use crate::lexer::OperatorKind;
use crate::state::ExecutionErrorKind;

verus! {

/// A syntax tree as a plain value.
pub enum Act {
    /// A constant string.
    ConstString(Seq<char>),
    /// An HTML tag with its attributes and an optional body.
    Function { tag_name: Seq<char>, arguments: Seq<(Seq<char>, Act)>, body: Option<Box<Act>> },
    /// Statements whose outputs are joined.
    Sequence(Seq<Act>),
    /// The value of a variable.
    GetVariable(Seq<char>),
    /// An operator applied to two operands.
    BinaryOperation { op: OperatorKind, left: Box<Act>, right: Box<Act> },
    /// A call of a user function with named arguments.
    UserFunctionCall { function_name: Seq<char>, arguments: Seq<(Seq<char>, Act)> },
    /// The declaration of a user function.
    UserFunctionDeclaration { function_name: Seq<char>, arguments: Seq<Seq<char>>, body: Box<Act> },
}

/// A user function: its declared parameter names and its body.
pub struct FunctionDef {
    pub arguments: Seq<Seq<char>>,
    pub body: Act,
}

/// The interpreter's state: a stack of variable scopes and the declared user functions.
pub struct Env {
    pub scopes: Seq<Map<Seq<char>, Seq<char>>>,
    pub functions: Map<Seq<char>, FunctionDef>,
}

/// How an evaluation ends: with a value and the state after it, or not at all.
pub enum Outcome<T> {
    Done(T, Env),
    Stuck,
}

/// What evaluating a tree gives: its output, if it has one, or an error.
pub type Output = Result<Option<Seq<char>>, ExecutionErrorKind>;

/// The text of an output; nothing stands for the empty text.
pub open spec fn text_of(r: Option<Seq<char>>) -> Seq<char> {
    match r {
        Some(s) => s,
        None => Seq::empty(),
    }
}

/// The value of a variable: that of the innermost scope that holds it.
pub open spec fn lookup(scopes: Seq<Map<Seq<char>, Seq<char>>>, name: Seq<char>) -> Option<Seq<char>>
    decreases scopes.len(),
{
    if scopes.len() == 0 {
        None
    } else if scopes.last().contains_key(name) {
        Some(scopes.last()[name])
    } else {
        lookup(scopes.drop_last(), name)
    }
}

/// The state with a new innermost scope.
pub open spec fn push_scope(env: Env, scope: Map<Seq<char>, Seq<char>>) -> Env {
    Env { scopes: env.scopes.push(scope), ..env }
}

/// The state without its innermost scope; with no scope, the state as it is.
pub open spec fn pop_scope(env: Env) -> Env {
    if env.scopes.len() > 0 {
        Env { scopes: env.scopes.drop_last(), ..env }
    } else {
        env
    }
}

/// The state with a user function declared (or declared anew).
pub open spec fn declare(env: Env, name: Seq<char>, def: FunctionDef) -> Env {
    Env { functions: env.functions.insert(name, def), ..env }
}

/// Calling the user function `name` with the scope of its arguments: its body is evaluated in
/// a new innermost scope, which is removed afterwards. An unknown name is an error.
pub open spec fn call_user(name: Seq<char>, scope: Map<Seq<char>, Seq<char>>, env: Env, fuel: nat) -> Outcome<Output>
    decreases fuel, 0int, name,
{
    if env.functions.contains_key(name) {
        if fuel == 0 {
            Outcome::Stuck
        } else {
            match eval(env.functions[name].body, push_scope(env, scope), (fuel - 1) as nat) {
                Outcome::Stuck => Outcome::Stuck,
                Outcome::Done(r, e) => Outcome::Done(r, pop_scope(e)),
            }
        }
    } else {
        Outcome::Done(Err(ExecutionErrorKind::UnknownFunction), env)
    }
}

/// The attributes of a tag, in order: each is written `name="value"`.
pub open spec fn eval_attrs(s: Seq<(Seq<char>, Act)>, env: Env, fuel: nat) -> Outcome<Result<Seq<char>, ExecutionErrorKind>>
    decreases fuel, 1int, s,
{
    if s.len() == 0 {
        Outcome::Done(Ok(Seq::empty()), env)
    } else {
        match eval_attrs(s.drop_last(), env, fuel) {
            Outcome::Stuck => Outcome::Stuck,
            Outcome::Done(Err(e), e1) => Outcome::Done(Err(e), e1),
            Outcome::Done(Ok(t), e1) => match eval(s.last().1, e1, fuel) {
                Outcome::Stuck => Outcome::Stuck,
                Outcome::Done(Err(e), e2) => Outcome::Done(Err(e), e2),
                Outcome::Done(Ok(v), e2) => Outcome::Done(
                    Ok(t + s.last().0 + "=\""@ + text_of(v) + "\""@),
                    e2,
                ),
            },
        }
    }
}

/// The statements of a sequence, in order, with their outputs joined.
pub open spec fn eval_seq(s: Seq<Act>, env: Env, fuel: nat) -> Outcome<Result<Seq<char>, ExecutionErrorKind>>
    decreases fuel, 1int, s,
{
    if s.len() == 0 {
        Outcome::Done(Ok(Seq::empty()), env)
    } else {
        match eval_seq(s.drop_last(), env, fuel) {
            Outcome::Stuck => Outcome::Stuck,
            Outcome::Done(Err(e), e1) => Outcome::Done(Err(e), e1),
            Outcome::Done(Ok(t), e1) => match eval(s.last(), e1, fuel) {
                Outcome::Stuck => Outcome::Stuck,
                Outcome::Done(Err(e), e2) => Outcome::Done(Err(e), e2),
                Outcome::Done(Ok(v), e2) => Outcome::Done(Ok(t + text_of(v)), e2),
            },
        }
    }
}

/// The arguments of a call, in order, gathered into a scope; a later value for a name
/// replaces an earlier one.
pub open spec fn eval_call_args(s: Seq<(Seq<char>, Act)>, env: Env, fuel: nat) -> Outcome<Result<Map<Seq<char>, Seq<char>>, ExecutionErrorKind>>
    decreases fuel, 1int, s,
{
    if s.len() == 0 {
        Outcome::Done(Ok(Map::empty()), env)
    } else {
        match eval_call_args(s.drop_last(), env, fuel) {
            Outcome::Stuck => Outcome::Stuck,
            Outcome::Done(Err(e), e1) => Outcome::Done(Err(e), e1),
            Outcome::Done(Ok(m), e1) => match eval(s.last().1, e1, fuel) {
                Outcome::Stuck => Outcome::Stuck,
                Outcome::Done(Err(e), e2) => Outcome::Done(Err(e), e2),
                Outcome::Done(Ok(v), e2) => Outcome::Done(Ok(m.insert(s.last().0, text_of(v))), e2),
            },
        }
    }
}

/// Evaluating a tree in a state with the given fuel.
pub open spec fn eval(a: Act, env: Env, fuel: nat) -> Outcome<Output>
    decreases fuel, 1int, a,
{
    match a {
        Act::ConstString(s) => Outcome::Done(Ok(Some(s)), env),
        Act::Function { tag_name, arguments, body } => match eval_attrs(arguments, env, fuel) {
            Outcome::Stuck => Outcome::Stuck,
            Outcome::Done(Err(e), e1) => Outcome::Done(Err(e), e1),
            Outcome::Done(Ok(t), e1) => {
                let head = "<"@ + tag_name + " "@ + t + ">"@;
                match body {
                    None => Outcome::Done(Ok(Some(head + "</"@ + tag_name + ">"@)), e1),
                    Some(b) => match eval(*b, e1, fuel) {
                        Outcome::Stuck => Outcome::Stuck,
                        Outcome::Done(Err(e), e2) => Outcome::Done(Err(e), e2),
                        Outcome::Done(Ok(r), e2) => Outcome::Done(
                            Ok(Some(head + text_of(r) + "</"@ + tag_name + ">"@)),
                            e2,
                        ),
                    },
                }
            },
        },
        Act::Sequence(s) => match eval_seq(s, env, fuel) {
            Outcome::Stuck => Outcome::Stuck,
            Outcome::Done(Err(e), e1) => Outcome::Done(Err(e), e1),
            Outcome::Done(Ok(t), e1) => Outcome::Done(Ok(Some(t)), e1),
        },
        Act::GetVariable(name) => Outcome::Done(Ok(lookup(env.scopes, name)), env),
        Act::BinaryOperation { op, left, right } => match op {
            OperatorKind::Assign => Outcome::Stuck,
            OperatorKind::StringConcat => match eval(*left, env, fuel) {
                Outcome::Stuck => Outcome::Stuck,
                Outcome::Done(Err(e), e1) => Outcome::Done(Err(e), e1),
                Outcome::Done(Ok(l), e1) => match eval(*right, e1, fuel) {
                    Outcome::Stuck => Outcome::Stuck,
                    Outcome::Done(Err(e), e2) => Outcome::Done(Err(e), e2),
                    Outcome::Done(Ok(r), e2) => Outcome::Done(Ok(Some(text_of(l) + text_of(r))), e2),
                },
            },
        },
        Act::UserFunctionCall { function_name, arguments } => match eval_call_args(arguments, env, fuel) {
            Outcome::Stuck => Outcome::Stuck,
            Outcome::Done(Err(e), e1) => Outcome::Done(Err(e), e1),
            Outcome::Done(Ok(m), e1) => call_user(function_name, m, e1, fuel),
        },
        Act::UserFunctionDeclaration { function_name, arguments, body } => Outcome::Done(
            Ok(None),
            declare(env, function_name, FunctionDef { arguments, body: *body }),
        ),
    }
}

/// Evaluation ends with some fuel: no user call recurses without end and no assignment is
/// reached.
pub open spec fn terminates(a: Act, env: Env) -> bool {
    exists|fuel: nat| #[trigger] eval(a, env, fuel) is Done
}

/// A fuel with which evaluation ends, where there is one.
pub open spec fn enough_fuel(a: Act, env: Env) -> nat {
    choose|fuel: nat| #[trigger] eval(a, env, fuel) is Done
}

/// The deepest nesting of user function calls that a run is given: 2^64 - 1.
pub open spec fn max_depth() -> nat {
    0xffff_ffff_ffff_ffff
}

/// Evaluation ends within `max_depth()` nested calls of user functions.
pub open spec fn runs_within(a: Act, env: Env) -> bool {
    eval(a, env, max_depth()) is Done
}

/// What evaluating a tree that terminates gives.
pub open spec fn run(a: Act, env: Env) -> Outcome<Output> {
    eval(a, env, enough_fuel(a, env))
}

/// The names of the user functions that a run of the tree declares on its way: every
/// declaration in it, but not those inside the body of a declaration, which run only when that
/// function is called.
pub open spec fn declared_names(a: Act) -> Seq<Seq<char>>
    decreases a, 0int,
{
    match a {
        Act::Function { tag_name, arguments, body } => declared_in_args(arguments) + match body {
            Some(b) => declared_names(*b),
            None => Seq::empty(),
        },
        Act::Sequence(s) => declared_in_seq(s),
        Act::BinaryOperation { op, left, right } => declared_names(*left) + declared_names(*right),
        Act::UserFunctionCall { function_name, arguments } => declared_in_args(arguments),
        Act::UserFunctionDeclaration { function_name, arguments, body } => seq![function_name],
        _ => Seq::empty(),
    }
}

/// The names declared by a list of trees, in order.
pub open spec fn declared_in_seq(s: Seq<Act>) -> Seq<Seq<char>>
    decreases s, 1int,
{
    if s.len() == 0 {
        Seq::empty()
    } else {
        declared_in_seq(s.drop_last()) + declared_names(s.last())
    }
}

/// The names declared by a list of named trees, in order.
pub open spec fn declared_in_args(s: Seq<(Seq<char>, Act)>) -> Seq<Seq<char>>
    decreases s, 1int,
{
    if s.len() == 0 {
        Seq::empty()
    } else {
        declared_in_args(s.drop_last()) + declared_names(s.last().1)
    }
}

/// The first name, in order, that is already a declared function or occurs earlier in the
/// list, if any.
pub open spec fn first_duplicate(names: Seq<Seq<char>>, functions: Map<Seq<char>, FunctionDef>) -> Option<Seq<char>>
    decreases names.len(),
{
    if names.len() == 0 {
        None
    } else {
        match first_duplicate(names.drop_last(), functions) {
            Some(n) => Some(n),
            None => if functions.contains_key(names.last()) || names.drop_last().contains(names.last()) {
                Some(names.last())
            } else {
                None
            },
        }
    }
}

/// Once a prefix holds a duplicate, the whole list has that first duplicate.
pub proof fn lemma_first_duplicate_prefix(names: Seq<Seq<char>>, k: int, functions: Map<Seq<char>, FunctionDef>)
    requires
        0 <= k <= names.len(),
        first_duplicate(names.take(k), functions) is Some,
    ensures
        first_duplicate(names, functions) == first_duplicate(names.take(k), functions),
    decreases names.len() - k,
{
    if k < names.len() {
        assert(names.take(k + 1).drop_last() =~= names.take(k));
        lemma_first_duplicate_prefix(names, k + 1, functions);
    } else {
        assert(names.take(k) =~= names);
    }
}

} // verus!
