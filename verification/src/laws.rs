//! Properties of the language that hold across its operations.

use vstd::prelude::*;

use crate::lexer::{
    lemma_span_bound, lemma_steps, lemma_string_scan, lex_name, lex_prefixed, lex_run, lex_token,
    name_span, operator_char, operator_of, separator_char, separator_of, skip_ws, ws_span, KeywordKind,
    LexModel, OperatorKind, SeparatorKind, Tok, TokenModel,
};
use crate::model::{
    call_user, declare, eval, eval_attrs, eval_call_args, eval_seq, lookup, pop_scope, push_scope, run,
    terminates, text_of, Act, Env, FunctionDef, Outcome, Output,
};
use crate::parser::{
    advance, argument_spec, at_kind, skip, binary_right_spec, body_items_spec, body_spec, call_args_spec, call_spec,
    cur_tok, decl_args, definition_spec, expect, expression_spec, sequence_unit_spec, unit_spec,
    user_call_spec, PState, Step,
};
use crate::action::{show, show_args, ActionKind};
use crate::execution::{render, render_attrs, render_items};
use crate::lexer::{lex_string, special_pair, string_scan};
use crate::model::{first_duplicate, lemma_first_duplicate_prefix};
use crate::state::{loadable, module_body, module_loaded, LoadError};
use crate::text::char_whitespace;

verus! {

/// A separator's character stands for that separator.
pub proof fn law_separator_round_trip(s: SeparatorKind)
    ensures
        separator_of(separator_char(s)) == Some(s),
{
}

/// A character that stands for a separator is that separator's character.
pub proof fn law_separator_char_of(c: char)
    ensures
        separator_of(c) matches Some(s) ==> separator_char(s) == c,
{
}

/// An operator's character stands for that operator.
pub proof fn law_operator_round_trip(o: OperatorKind)
    ensures
        operator_of(operator_char(o)) == Some(o),
{
}

/// A character that stands for an operator is that operator's character.
pub proof fn law_operator_char_of(c: char)
    ensures
        operator_of(c) matches Some(o) ==> operator_char(o) == c,
{
}

proof fn lemma_lex_token(l: LexModel)
    requires
        0 <= l.pos < l.code.len(),
        0 <= l.row,
        0 <= l.column,
    ensures
        lex_token(l) matches Some((t, l2)) ==> l.pos < l2.pos <= l.code.len() && l2.code == l.code
            && l2.tokens == l.tokens && 0 <= l2.row && 0 <= l2.column,
{
    if lex_name(l) is Some {
        assert(name_span(l.code, l.pos) >= 1);
    }
    if lex_prefixed(l, '$') is Some || lex_prefixed(l, '%') is Some {
        assert(name_span(l.code, l.pos + 1) >= 1);
    }
    lemma_string_scan(l.code, l.pos + 1, Seq::empty());
}

/// Reading text to its end: when no error stops the lexer, it has read the whole text. The
/// text stays as it was, and the tokens read before are kept in front of the new ones.
pub proof fn law_lex_reads_whole_text(l: LexModel)
    requires
        0 <= l.pos <= l.code.len(),
        0 <= l.row,
        0 <= l.column,
    ensures
        lex_run(l).0.code == l.code,
        lex_run(l).1 is None ==> lex_run(l).0.pos == l.code.len(),
        l.tokens.len() <= lex_run(l).0.tokens.len(),
        lex_run(l).0.tokens.subrange(0, l.tokens.len() as int) == l.tokens,
    decreases l.code.len() - l.pos,
{
    let n = ws_span(l.code, l.pos);
    lemma_span_bound(l.code, l.pos, |c: char| char_whitespace(c));
    lemma_steps(l, n);
    let l1 = skip_ws(l);
    if 0 <= l1.pos < l1.code.len() {
        lemma_lex_token(l1);
        match lex_token(l1) {
            None => {
                assert(l1.tokens.subrange(0, l.tokens.len() as int) =~= l.tokens);
            },
            Some((t, l2)) => {
                let l3 = LexModel { tokens: l2.tokens.push(t), ..l2 };
                law_lex_reads_whole_text(l3);
                let r = lex_run(l3).0.tokens;
                assert(r.subrange(0, l.tokens.len() as int) =~= r.subrange(0, l3.tokens.len() as int).subrange(
                    0,
                    l.tokens.len() as int,
                ));
                assert(l3.tokens.subrange(0, l.tokens.len() as int) =~= l.tokens);
            },
        }
    } else {
        assert(l1.tokens.subrange(0, l.tokens.len() as int) =~= l.tokens);
    }
}

/// More fuel does not change an evaluation that ends.
pub proof fn lemma_eval_fuel(a: Act, env: Env, f1: nat, f2: nat)
    requires
        f1 <= f2,
        eval(a, env, f1) is Done,
    ensures
        eval(a, env, f2) == eval(a, env, f1),
    decreases f1, 1int, a,
{
    match a {
        Act::Function { tag_name, arguments, body } => {
            lemma_attrs_fuel(arguments, env, f1, f2);
            if let Outcome::Done(Ok(t), e1) = eval_attrs(arguments, env, f1) {
                if let Some(b) = body {
                    lemma_eval_fuel(*b, e1, f1, f2);
                }
            }
        },
        Act::Sequence(s) => {
            lemma_seq_fuel(s, env, f1, f2);
        },
        Act::BinaryOperation { op, left, right } => {
            if op == OperatorKind::StringConcat {
                lemma_eval_fuel(*left, env, f1, f2);
                if let Outcome::Done(Ok(l), e1) = eval(*left, env, f1) {
                    lemma_eval_fuel(*right, e1, f1, f2);
                }
            }
        },
        Act::UserFunctionCall { function_name, arguments } => {
            lemma_call_args_fuel(arguments, env, f1, f2);
            if let Outcome::Done(Ok(m), e1) = eval_call_args(arguments, env, f1) {
                lemma_call_user_fuel(function_name, m, e1, f1, f2);
            }
        },
        _ => {},
    }
}

proof fn lemma_call_user_fuel(name: Seq<char>, scope: Map<Seq<char>, Seq<char>>, env: Env, f1: nat, f2: nat)
    requires
        f1 <= f2,
        call_user(name, scope, env, f1) is Done,
    ensures
        call_user(name, scope, env, f2) == call_user(name, scope, env, f1),
    decreases f1, 0int, name,
{
    if env.functions.contains_key(name) {
        lemma_eval_fuel(env.functions[name].body, push_scope(env, scope), (f1 - 1) as nat, (f2 - 1) as nat);
    }
}

proof fn lemma_attrs_fuel(s: Seq<(Seq<char>, Act)>, env: Env, f1: nat, f2: nat)
    requires
        f1 <= f2,
        eval_attrs(s, env, f1) is Done,
    ensures
        eval_attrs(s, env, f2) == eval_attrs(s, env, f1),
    decreases f1, 1int, s,
{
    if s.len() > 0 {
        lemma_attrs_fuel(s.drop_last(), env, f1, f2);
        if let Outcome::Done(Ok(t), e1) = eval_attrs(s.drop_last(), env, f1) {
            lemma_eval_fuel(s.last().1, e1, f1, f2);
        }
    }
}

proof fn lemma_seq_fuel(s: Seq<Act>, env: Env, f1: nat, f2: nat)
    requires
        f1 <= f2,
        eval_seq(s, env, f1) is Done,
    ensures
        eval_seq(s, env, f2) == eval_seq(s, env, f1),
    decreases f1, 1int, s,
{
    if s.len() > 0 {
        lemma_seq_fuel(s.drop_last(), env, f1, f2);
        if let Outcome::Done(Ok(t), e1) = eval_seq(s.drop_last(), env, f1) {
            lemma_eval_fuel(s.last(), e1, f1, f2);
        }
    }
}

proof fn lemma_call_args_fuel(s: Seq<(Seq<char>, Act)>, env: Env, f1: nat, f2: nat)
    requires
        f1 <= f2,
        eval_call_args(s, env, f1) is Done,
    ensures
        eval_call_args(s, env, f2) == eval_call_args(s, env, f1),
    decreases f1, 1int, s,
{
    if s.len() > 0 {
        lemma_call_args_fuel(s.drop_last(), env, f1, f2);
        if let Outcome::Done(Ok(m), e1) = eval_call_args(s.drop_last(), env, f1) {
            lemma_eval_fuel(s.last().1, e1, f1, f2);
        }
    }
}

/// Running a program does not depend on the fuel: any fuel with which it ends gives the
/// same output and state.
pub proof fn law_run_is_any_fuel(a: Act, env: Env, fuel: nat)
    requires
        eval(a, env, fuel) is Done,
    ensures
        terminates(a, env),
        run(a, env) == eval(a, env, fuel),
{
    let e = crate::model::enough_fuel(a, env);
    assert(eval(a, env, fuel) is Done);
    if e <= fuel {
        lemma_eval_fuel(a, env, e, fuel);
    } else {
        lemma_eval_fuel(a, env, fuel, e);
    }
}

/// The effect of an evaluation on the state: scopes are as before and no declared function is
/// forgotten.
pub open spec fn keeps_scopes_and_functions(before: Env, after: Env) -> bool {
    &&& after.scopes == before.scopes
    &&& forall|k: Seq<char>| before.functions.contains_key(k) ==> #[trigger] after.functions.contains_key(k)
}

proof fn lemma_eval_frame(a: Act, env: Env, f: nat)
    ensures
        eval(a, env, f) matches Outcome::Done(_, e2) ==> keeps_scopes_and_functions(env, e2),
    decreases f, 1int, a,
{
    match a {
        Act::Function { tag_name, arguments, body } => {
            lemma_attrs_frame(arguments, env, f);
            if let Outcome::Done(Ok(t), e1) = eval_attrs(arguments, env, f) {
                if let Some(b) = body {
                    lemma_eval_frame(*b, e1, f);
                }
            }
        },
        Act::Sequence(s) => {
            lemma_seq_frame(s, env, f);
        },
        Act::BinaryOperation { op, left, right } => {
            lemma_eval_frame(*left, env, f);
            if let Outcome::Done(Ok(l), e1) = eval(*left, env, f) {
                lemma_eval_frame(*right, e1, f);
            }
        },
        Act::UserFunctionCall { function_name, arguments } => {
            lemma_call_args_frame(arguments, env, f);
            if let Outcome::Done(Ok(m), e1) = eval_call_args(arguments, env, f) {
                lemma_call_user_frame(function_name, m, e1, f);
            }
        },
        _ => {},
    }
}

proof fn lemma_call_user_frame(name: Seq<char>, scope: Map<Seq<char>, Seq<char>>, env: Env, f: nat)
    ensures
        call_user(name, scope, env, f) matches Outcome::Done(_, e2) ==> keeps_scopes_and_functions(env, e2),
    decreases f, 0int, name,
{
    if env.functions.contains_key(name) && f > 0 {
        let inner = push_scope(env, scope);
        lemma_eval_frame(env.functions[name].body, inner, (f - 1) as nat);
        if let Outcome::Done(_, e3) = eval(env.functions[name].body, inner, (f - 1) as nat) {
            assert(e3.scopes.drop_last() =~= env.scopes);
        }
    }
}

proof fn lemma_attrs_frame(s: Seq<(Seq<char>, Act)>, env: Env, f: nat)
    ensures
        eval_attrs(s, env, f) matches Outcome::Done(_, e2) ==> keeps_scopes_and_functions(env, e2),
    decreases f, 1int, s,
{
    if s.len() > 0 {
        lemma_attrs_frame(s.drop_last(), env, f);
        if let Outcome::Done(Ok(t), e1) = eval_attrs(s.drop_last(), env, f) {
            lemma_eval_frame(s.last().1, e1, f);
        }
    }
}

proof fn lemma_seq_frame(s: Seq<Act>, env: Env, f: nat)
    ensures
        eval_seq(s, env, f) matches Outcome::Done(_, e2) ==> keeps_scopes_and_functions(env, e2),
    decreases f, 1int, s,
{
    if s.len() > 0 {
        lemma_seq_frame(s.drop_last(), env, f);
        if let Outcome::Done(Ok(t), e1) = eval_seq(s.drop_last(), env, f) {
            lemma_eval_frame(s.last(), e1, f);
        }
    }
}

proof fn lemma_call_args_frame(s: Seq<(Seq<char>, Act)>, env: Env, f: nat)
    ensures
        eval_call_args(s, env, f) matches Outcome::Done(_, e2) ==> keeps_scopes_and_functions(env, e2),
    decreases f, 1int, s,
{
    if s.len() > 0 {
        lemma_call_args_frame(s.drop_last(), env, f);
        if let Outcome::Done(Ok(m), e1) = eval_call_args(s.drop_last(), env, f) {
            lemma_eval_frame(s.last().1, e1, f);
        }
    }
}

/// Running a program leaves the variable scopes as they were (every call of a user function
/// removes the scope it added) and forgets no declared user function.
pub proof fn law_run_keeps_scopes(a: Act, env: Env)
    requires
        terminates(a, env),
    ensures
        run(a, env) matches Outcome::Done(_, e2) && keeps_scopes_and_functions(env, e2),
{
    lemma_eval_frame(a, env, crate::model::enough_fuel(a, env));
}

/// Removing the innermost scope undoes adding it.
pub proof fn law_pop_undoes_push(env: Env, scope: Map<Seq<char>, Seq<char>>)
    ensures
        pop_scope(push_scope(env, scope)) == env,
{
    assert(env.scopes.push(scope).drop_last() =~= env.scopes);
}

/// A variable is read from the innermost scope that holds it.
pub proof fn law_lookup_after_push(env: Env, scope: Map<Seq<char>, Seq<char>>, name: Seq<char>)
    ensures
        lookup(push_scope(env, scope).scopes, name) == if scope.contains_key(name) {
            Some(scope[name])
        } else {
            lookup(env.scopes, name)
        },
{
    assert(env.scopes.push(scope).drop_last() =~= env.scopes);
}

/// A declared user function is found under its name, and declaring it again replaces it.
pub proof fn law_declare_then_find(env: Env, name: Seq<char>, def: FunctionDef, other: Seq<char>)
    ensures
        declare(env, name, def).functions.contains_key(name),
        declare(env, name, def).functions[name] == def,
        other != name ==> declare(env, name, def).functions.contains_key(other) == env.functions.contains_key(other),
        other != name && env.functions.contains_key(other) ==> declare(env, name, def).functions[other] == env.functions[other],
        declare(env, name, def).scopes == env.scopes,
{
}

/// `l @ r` runs `l`, then `r` in the state that `l` left, and joins their texts (an
/// operand with no output adds nothing); the first error, or a run without end, decides.
pub proof fn law_concat_runs_left_then_right(l: Act, r: Act, env: Env, fuel: nat)
    ensures
        eval(concat(l, r), env, fuel) == match eval(l, env, fuel) {
            Outcome::Stuck => Outcome::Stuck,
            Outcome::Done(Err(e), e1) => Outcome::Done(Err(e), e1),
            Outcome::Done(Ok(x), e1) => match eval(r, e1, fuel) {
                Outcome::Stuck => Outcome::Stuck,
                Outcome::Done(Err(e), e2) => Outcome::Done(Err(e), e2),
                Outcome::Done(Ok(y), e2) => Outcome::Done(Ok(Some(text_of(x) + text_of(y))), e2),
            },
        },
{
}

/// Concatenation is associative: `(a @ b) @ c` and `a @ (b @ c)` evaluate their operands in
/// the same order and give the same output and state, so how a chain of `@` is nested does not
/// change what it writes.
pub proof fn law_concat_associative(a: Act, b: Act, c: Act, env: Env, fuel: nat)
    ensures
        eval(concat(concat(a, b), c), env, fuel) == eval(concat(a, concat(b, c)), env, fuel),
{
    law_concat_runs_left_then_right(concat(a, b), c, env, fuel);
    law_concat_runs_left_then_right(a, b, env, fuel);
    law_concat_runs_left_then_right(a, concat(b, c), env, fuel);
    match eval(a, env, fuel) {
        Outcome::Done(Ok(x), e1) => {
            law_concat_runs_left_then_right(b, c, e1, fuel);
            match eval(b, e1, fuel) {
                Outcome::Done(Ok(y), e2) => match eval(c, e2, fuel) {
                    Outcome::Done(Ok(z), e3) => {
                        assert(text_of(Some(text_of(x) + text_of(y))) + text_of(z) =~= text_of(x) + text_of(
                            Some(text_of(y) + text_of(z)),
                        ));
                    },
                    _ => {},
                },
                _ => {},
            }
        },
        _ => {},
    }
}

/// What running the statements `b` after an outcome of a sequence gives: a stuck or failed
/// first part decides; else `b` runs in the state the first part left, and the texts are
/// joined.
pub open spec fn then_seq(first: Outcome<Output>, b: Seq<Act>, fuel: nat) -> Outcome<Output> {
    match first {
        Outcome::Stuck => Outcome::Stuck,
        Outcome::Done(Err(e), e1) => Outcome::Done(Err(e), e1),
        Outcome::Done(Ok(t1), e1) => match eval(Act::Sequence(b), e1, fuel) {
            Outcome::Stuck => Outcome::Stuck,
            Outcome::Done(Err(e), e2) => Outcome::Done(Err(e), e2),
            Outcome::Done(Ok(t2), e2) => Outcome::Done(Ok(Some(text_of(t1) + text_of(t2))), e2),
        },
    }
}

proof fn lemma_seq_join(a: Seq<Act>, b: Seq<Act>, env: Env, fuel: nat)
    ensures
        eval_seq(a + b, env, fuel) == match eval_seq(a, env, fuel) {
            Outcome::Stuck => Outcome::Stuck,
            Outcome::Done(Err(e), e1) => Outcome::Done(Err(e), e1),
            Outcome::Done(Ok(t1), e1) => match eval_seq(b, e1, fuel) {
                Outcome::Stuck => Outcome::Stuck,
                Outcome::Done(Err(e), e2) => Outcome::Done(Err(e), e2),
                Outcome::Done(Ok(t2), e2) => Outcome::Done(Ok(t1 + t2), e2),
            },
        },
    decreases b.len(),
{
    if b.len() == 0 {
        assert(a + b =~= a);
        if let Outcome::Done(Ok(t1), e1) = eval_seq(a, env, fuel) {
            assert(t1 + Seq::<char>::empty() =~= t1);
        }
    } else {
        assert((a + b).drop_last() =~= a + b.drop_last());
        assert((a + b).last() == b.last());
        lemma_seq_join(a, b.drop_last(), env, fuel);
        if let Outcome::Done(Ok(t1), e1) = eval_seq(a, env, fuel) {
            if let Outcome::Done(Ok(t2), e2) = eval_seq(b.drop_last(), e1, fuel) {
                if let Outcome::Done(Ok(v), e3) = eval(b.last(), e2, fuel) {
                    assert(t1 + t2 + text_of(v) =~= t1 + (t2 + text_of(v)));
                }
            }
        }
    }
}

/// Running the statements `a` followed by `b` is running `a`, then `b` in the state that `a`
/// left, with the texts joined; the first error, or a run without end, decides.
pub proof fn law_sequence_join(a: Seq<Act>, b: Seq<Act>, env: Env, fuel: nat)
    ensures
        eval(Act::Sequence(a + b), env, fuel) == then_seq(eval(Act::Sequence(a), env, fuel), b, fuel),
{
    lemma_seq_join(a, b, env, fuel);
}

/// An empty sequence writes the empty text and changes nothing.
pub proof fn law_empty_sequence(env: Env, fuel: nat)
    ensures
        eval(Act::Sequence(Seq::empty()), env, fuel) == Outcome::<Output>::Done(Ok(Some(Seq::empty())), env),
{
    assert(eval_seq(Seq::<Act>::empty(), env, fuel) == Outcome::<Result<Seq<char>, crate::state::ExecutionErrorKind>>::Done(
        Ok(Seq::empty()),
        env,
    ));
}

/// The joining of sequences, for runs that end: the run of `a` followed by `b` is the run of
/// `a`, then the run of `b` from where `a` left the state.
pub proof fn law_run_sequence_join(a: Seq<Act>, b: Seq<Act>, env: Env)
    requires
        terminates(Act::Sequence(a + b), env),
    ensures
        run(Act::Sequence(a + b), env) == match run(Act::Sequence(a), env) {
            Outcome::Stuck => Outcome::Stuck,
            Outcome::Done(Err(e), e1) => Outcome::Done(Err(e), e1),
            Outcome::Done(Ok(t1), e1) => match run(Act::Sequence(b), e1) {
                Outcome::Stuck => Outcome::Stuck,
                Outcome::Done(Err(e), e2) => Outcome::Done(Err(e), e2),
                Outcome::Done(Ok(t2), e2) => Outcome::Done(Ok(Some(text_of(t1) + text_of(t2))), e2),
            },
        },
{
    let f = crate::model::enough_fuel(Act::Sequence(a + b), env);
    law_sequence_join(a, b, env, f);
    law_run_is_any_fuel(Act::Sequence(a), env, f);
    if let Outcome::Done(Ok(t1), e1) = eval(Act::Sequence(a), env, f) {
        law_run_is_any_fuel(Act::Sequence(b), e1, f);
    }
}

/// The tree declares a user function named `n` somewhere in it, also inside the body of a
/// declaration, which runs when that function is called.
pub open spec fn declares(a: Act, n: Seq<char>) -> bool
    decreases a, 0int,
{
    match a {
        Act::Function { tag_name, arguments, body } => declares_in_args(arguments, n) || match body {
            Some(b) => declares(*b, n),
            None => false,
        },
        Act::Sequence(s) => declares_in_seq(s, n),
        Act::BinaryOperation { op, left, right } => declares(*left, n) || declares(*right, n),
        Act::UserFunctionCall { function_name, arguments } => declares_in_args(arguments, n),
        Act::UserFunctionDeclaration { function_name, arguments, body } => function_name == n || declares(*body, n),
        _ => false,
    }
}

/// One of the trees declares a user function named `n`.
pub open spec fn declares_in_seq(s: Seq<Act>, n: Seq<char>) -> bool
    decreases s, 1int,
{
    s.len() > 0 && (declares_in_seq(s.drop_last(), n) || declares(s.last(), n))
}

/// One of the named trees declares a user function named `n`.
pub open spec fn declares_in_args(s: Seq<(Seq<char>, Act)>, n: Seq<char>) -> bool
    decreases s, 1int,
{
    s.len() > 0 && (declares_in_args(s.drop_last(), n) || declares(s.last().1, n))
}

/// No user function of the state declares a function named `n` in its body.
pub open spec fn no_body_declares(env: Env, n: Seq<char>) -> bool {
    forall|k: Seq<char>| #[trigger] env.functions.contains_key(k) ==> !declares(env.functions[k].body, n)
}

/// Two states agree on the user function named `n`: both lack it, or both have the same one.
pub open spec fn same_function(before: Env, after: Env, n: Seq<char>) -> bool {
    &&& after.functions.contains_key(n) == before.functions.contains_key(n)
    &&& before.functions.contains_key(n) ==> after.functions[n] == before.functions[n]
}

/// What the name-wise frame of a run keeps: the function named `n` and the absence of
/// declarations of `n` in function bodies.
pub open spec fn keeps_name(before: Env, after: Env, n: Seq<char>) -> bool {
    same_function(before, after, n) && no_body_declares(after, n)
}

proof fn lemma_eval_names(a: Act, env: Env, f: nat, n: Seq<char>)
    requires
        !declares(a, n),
        no_body_declares(env, n),
    ensures
        eval(a, env, f) matches Outcome::Done(_, e2) ==> keeps_name(env, e2, n),
    decreases f, 1int, a,
{
    match a {
        Act::Function { tag_name, arguments, body } => {
            lemma_attrs_names(arguments, env, f, n);
            if let Outcome::Done(Ok(t), e1) = eval_attrs(arguments, env, f) {
                if let Some(b) = body {
                    lemma_eval_names(*b, e1, f, n);
                }
            }
        },
        Act::Sequence(s) => {
            lemma_seq_names(s, env, f, n);
        },
        Act::BinaryOperation { op, left, right } => {
            lemma_eval_names(*left, env, f, n);
            if let Outcome::Done(Ok(l), e1) = eval(*left, env, f) {
                lemma_eval_names(*right, e1, f, n);
            }
        },
        Act::UserFunctionCall { function_name, arguments } => {
            lemma_call_args_names(arguments, env, f, n);
            if let Outcome::Done(Ok(m), e1) = eval_call_args(arguments, env, f) {
                lemma_call_user_names(function_name, m, e1, f, n);
            }
        },
        Act::UserFunctionDeclaration { function_name, arguments, body } => {
            let e2 = declare(env, function_name, FunctionDef { arguments, body: *body });
            assert forall|k: Seq<char>| #[trigger] e2.functions.contains_key(k) implies !declares(e2.functions[k].body, n) by {
                if k != function_name {
                    assert(env.functions.contains_key(k));
                }
            }
        },
        _ => {},
    }
}

proof fn lemma_call_user_names(name: Seq<char>, scope: Map<Seq<char>, Seq<char>>, env: Env, f: nat, n: Seq<char>)
    requires
        no_body_declares(env, n),
    ensures
        call_user(name, scope, env, f) matches Outcome::Done(_, e2) ==> keeps_name(env, e2, n),
    decreases f, 0int, name,
{
    if env.functions.contains_key(name) && f > 0 {
        let inner = push_scope(env, scope);
        assert(inner.functions == env.functions);
        lemma_eval_names(env.functions[name].body, inner, (f - 1) as nat, n);
    }
}

proof fn lemma_attrs_names(s: Seq<(Seq<char>, Act)>, env: Env, f: nat, n: Seq<char>)
    requires
        !declares_in_args(s, n),
        no_body_declares(env, n),
    ensures
        eval_attrs(s, env, f) matches Outcome::Done(_, e2) ==> keeps_name(env, e2, n),
    decreases f, 1int, s,
{
    if s.len() > 0 {
        lemma_attrs_names(s.drop_last(), env, f, n);
        if let Outcome::Done(Ok(t), e1) = eval_attrs(s.drop_last(), env, f) {
            lemma_eval_names(s.last().1, e1, f, n);
        }
    }
}

proof fn lemma_seq_names(s: Seq<Act>, env: Env, f: nat, n: Seq<char>)
    requires
        !declares_in_seq(s, n),
        no_body_declares(env, n),
    ensures
        eval_seq(s, env, f) matches Outcome::Done(_, e2) ==> keeps_name(env, e2, n),
    decreases f, 1int, s,
{
    if s.len() > 0 {
        lemma_seq_names(s.drop_last(), env, f, n);
        if let Outcome::Done(Ok(t), e1) = eval_seq(s.drop_last(), env, f) {
            lemma_eval_names(s.last(), e1, f, n);
        }
    }
}

proof fn lemma_call_args_names(s: Seq<(Seq<char>, Act)>, env: Env, f: nat, n: Seq<char>)
    requires
        !declares_in_args(s, n),
        no_body_declares(env, n),
    ensures
        eval_call_args(s, env, f) matches Outcome::Done(_, e2) ==> keeps_name(env, e2, n),
    decreases f, 1int, s,
{
    if s.len() > 0 {
        lemma_call_args_names(s.drop_last(), env, f, n);
        if let Outcome::Done(Ok(m), e1) = eval_call_args(s.drop_last(), env, f) {
            lemma_eval_names(s.last().1, e1, f, n);
        }
    }
}

/// A run changes the user functions only at names that it declares: where neither the tree
/// nor the body of any function of the state declares a function named `n`, the function
/// named `n` (or its absence) is the same after the run, whether the run succeeds or fails.
pub proof fn law_run_changes_only_declared(a: Act, env: Env, n: Seq<char>)
    requires
        terminates(a, env),
        !declares(a, n),
        no_body_declares(env, n),
    ensures
        run(a, env) matches Outcome::Done(_, e2) && same_function(env, e2, n),
{
    lemma_eval_names(a, env, crate::model::enough_fuel(a, env), n);
}

/// Every name in `names` is a user function of the state.
pub open spec fn all_declared(names: Seq<Seq<char>>, env: Env) -> bool {
    forall|i: int| 0 <= i < names.len() ==> env.functions.contains_key(#[trigger] names[i])
}

proof fn lemma_all_declared_join(x: Seq<Seq<char>>, y: Seq<Seq<char>>, env: Env)
    requires
        all_declared(x, env),
        all_declared(y, env),
    ensures
        all_declared(x + y, env),
{
    assert forall|i: int| 0 <= i < (x + y).len() implies env.functions.contains_key(#[trigger] (x + y)[i]) by {
        if i < x.len() {
            assert((x + y)[i] == x[i]);
        } else {
            assert((x + y)[i] == y[i - x.len()]);
        }
    }
}

proof fn lemma_all_declared_kept(x: Seq<Seq<char>>, e1: Env, e2: Env)
    requires
        all_declared(x, e1),
        keeps_scopes_and_functions(e1, e2),
    ensures
        all_declared(x, e2),
{
    assert forall|i: int| 0 <= i < x.len() implies e2.functions.contains_key(#[trigger] x[i]) by {
        assert(e1.functions.contains_key(x[i]));
    }
}

proof fn lemma_eval_declares(a: Act, env: Env, f: nat)
    ensures
        eval(a, env, f) matches Outcome::Done(Ok(_), e2) ==> all_declared(crate::model::declared_names(a), e2),
    decreases f, 1int, a,
{
    match a {
        Act::Function { tag_name, arguments, body } => {
            lemma_attrs_declares(arguments, env, f);
            if let Outcome::Done(Ok(t), e1) = eval_attrs(arguments, env, f) {
                match body {
                    Some(b) => {
                        lemma_eval_declares(*b, e1, f);
                        lemma_eval_frame(*b, e1, f);
                        if let Outcome::Done(Ok(r), e2) = eval(*b, e1, f) {
                            lemma_all_declared_kept(crate::model::declared_in_args(arguments), e1, e2);
                            lemma_all_declared_join(crate::model::declared_in_args(arguments), crate::model::declared_names(*b), e2);
                        }
                    },
                    None => {
                        assert(crate::model::declared_in_args(arguments) + Seq::<Seq<char>>::empty() =~= crate::model::declared_in_args(arguments));
                    },
                }
            }
        },
        Act::Sequence(s) => {
            lemma_seq_declares(s, env, f);
        },
        Act::BinaryOperation { op, left, right } => {
            lemma_eval_declares(*left, env, f);
            if let Outcome::Done(Ok(l), e1) = eval(*left, env, f) {
                lemma_eval_declares(*right, e1, f);
                lemma_eval_frame(*right, e1, f);
                if let Outcome::Done(Ok(r), e2) = eval(*right, e1, f) {
                    lemma_all_declared_kept(crate::model::declared_names(*left), e1, e2);
                    lemma_all_declared_join(crate::model::declared_names(*left), crate::model::declared_names(*right), e2);
                }
            }
        },
        Act::UserFunctionCall { function_name, arguments } => {
            lemma_call_args_declares(arguments, env, f);
            if let Outcome::Done(Ok(m), e1) = eval_call_args(arguments, env, f) {
                lemma_call_user_frame(function_name, m, e1, f);
                if let Outcome::Done(Ok(r), e2) = call_user(function_name, m, e1, f) {
                    lemma_all_declared_kept(crate::model::declared_in_args(arguments), e1, e2);
                }
            }
        },
        _ => {},
    }
}

proof fn lemma_attrs_declares(s: Seq<(Seq<char>, Act)>, env: Env, f: nat)
    ensures
        eval_attrs(s, env, f) matches Outcome::Done(Ok(_), e2) ==> all_declared(crate::model::declared_in_args(s), e2),
    decreases f, 1int, s,
{
    if s.len() > 0 {
        lemma_attrs_declares(s.drop_last(), env, f);
        if let Outcome::Done(Ok(t), e1) = eval_attrs(s.drop_last(), env, f) {
            lemma_eval_declares(s.last().1, e1, f);
            lemma_eval_frame(s.last().1, e1, f);
            if let Outcome::Done(Ok(v), e2) = eval(s.last().1, e1, f) {
                lemma_all_declared_kept(crate::model::declared_in_args(s.drop_last()), e1, e2);
                lemma_all_declared_join(crate::model::declared_in_args(s.drop_last()), crate::model::declared_names(s.last().1), e2);
            }
        }
    }
}

proof fn lemma_seq_declares(s: Seq<Act>, env: Env, f: nat)
    ensures
        eval_seq(s, env, f) matches Outcome::Done(Ok(_), e2) ==> all_declared(crate::model::declared_in_seq(s), e2),
    decreases f, 1int, s,
{
    if s.len() > 0 {
        lemma_seq_declares(s.drop_last(), env, f);
        if let Outcome::Done(Ok(t), e1) = eval_seq(s.drop_last(), env, f) {
            lemma_eval_declares(s.last(), e1, f);
            lemma_eval_frame(s.last(), e1, f);
            if let Outcome::Done(Ok(v), e2) = eval(s.last(), e1, f) {
                lemma_all_declared_kept(crate::model::declared_in_seq(s.drop_last()), e1, e2);
                lemma_all_declared_join(crate::model::declared_in_seq(s.drop_last()), crate::model::declared_names(s.last()), e2);
            }
        }
    }
}

proof fn lemma_call_args_declares(s: Seq<(Seq<char>, Act)>, env: Env, f: nat)
    ensures
        eval_call_args(s, env, f) matches Outcome::Done(Ok(_), e2) ==> all_declared(crate::model::declared_in_args(s), e2),
    decreases f, 1int, s,
{
    if s.len() > 0 {
        lemma_call_args_declares(s.drop_last(), env, f);
        if let Outcome::Done(Ok(m), e1) = eval_call_args(s.drop_last(), env, f) {
            lemma_eval_declares(s.last().1, e1, f);
            lemma_eval_frame(s.last().1, e1, f);
            if let Outcome::Done(Ok(v), e2) = eval(s.last().1, e1, f) {
                lemma_all_declared_kept(crate::model::declared_in_args(s.drop_last()), e1, e2);
                lemma_all_declared_join(crate::model::declared_in_args(s.drop_last()), crate::model::declared_names(s.last().1), e2);
            }
        }
    }
}

/// A module that loaded and declares a function cannot be loaded again into the state it
/// left: the second load reports a duplicate function and changes nothing.
pub proof fn law_second_load_is_duplicate(
    code: Seq<char>,
    env: Env,
    r: Result<ActionKind, LoadError>,
    st: Env,
    r2: Result<ActionKind, LoadError>,
    st2: Env,
)
    requires
        module_loaded(code, env, r, st),
        r is Ok,
        module_body(code) matches Step::Done(a, _) && crate::model::declared_names(a).len() > 0,
        module_loaded(code, st, r2, st2),
    ensures
        loadable(code, st),
        r2 matches Err(LoadError::DuplicateFunction(_)),
        st2 == st,
{
    if let Step::Done(a, _) = module_body(code) {
        let names = crate::model::declared_names(a);
        let f = crate::model::enough_fuel(a, env);
        lemma_eval_declares(a, env, f);
        assert(env.functions.contains_key(names[0]) || st.functions.contains_key(names[0]));
        assert(names.take(1).drop_last() =~= Seq::<Seq<char>>::empty());
        assert(names.take(1).last() == names[0]);
        assert(first_duplicate(names.take(1), st.functions) is Some);
        lemma_first_duplicate_prefix(names, 1, st.functions);
    }
}

/// The tree `a @ b`.
pub open spec fn concat(a: Act, b: Act) -> Act {
    Act::BinaryOperation { op: OperatorKind::StringConcat, left: Box::new(a), right: Box::new(b) }
}

/// A parsing step ends, with a value or an error, at or after where it started and within
/// the tokens.
pub open spec fn forward<T>(toks: Seq<TokenModel>, st: PState, s: Step<T>) -> bool {
    match s {
        Step::Done(_, s2) => st.pos <= s2.pos <= toks.len(),
        Step::Fail(_, s2) => st.pos <= s2.pos <= toks.len(),
        Step::Panic => true,
    }
}

/// The state within the tokens.
pub open spec fn within(toks: Seq<TokenModel>, st: PState) -> bool {
    0 <= st.pos <= toks.len()
}

proof fn lemma_expect(toks: Seq<TokenModel>, st: PState, kind: Tok, msg: Seq<char>)
    requires
        within(toks, st),
    ensures
        expect(toks, st, kind, msg) matches Ok(s2) ==> s2.pos == st.pos + 1 && s2.pos <= toks.len(),
        cur_tok(toks, st) is Some ==> advance(toks, st).pos == st.pos + 1 && advance(toks, st).pos <= toks.len(),
{
}

proof fn lemma_decl_args_forward(toks: Seq<TokenModel>, st: PState, acc: Seq<Seq<char>>)
    requires
        within(toks, st),
    ensures
        st.pos <= decl_args(toks, st, acc).1.pos <= toks.len(),
    decreases crate::parser::remaining(toks, st),
{
    if let Some(t) = cur_tok(toks, st) {
        if let Tok::Identifier(a) = t.kind {
            lemma_decl_args_forward(toks, advance(toks, st), acc.push(a));
        }
    }
}

/// A unit ends at or after where it started.
pub proof fn law_unit_forward(toks: Seq<TokenModel>, st: PState)
    requires
        within(toks, st),
    ensures
        forward(toks, st, unit_spec(toks, st)),
    decreases crate::parser::remaining(toks, st), 5int,
{
    if let Some(t) = cur_tok(toks, st) {
        match t.kind {
            Tok::Identifier(_) => law_call_forward(toks, st),
            Tok::Function(_) => law_user_call_forward(toks, st),
            _ => {},
        }
    }
}

proof fn law_argument_forward(toks: Seq<TokenModel>, st: PState)
    requires
        within(toks, st),
    ensures
        forward(toks, st, argument_spec(toks, st)),
    decreases crate::parser::remaining(toks, st), 1int,
{
    if let Some(t) = cur_tok(toks, st) {
        if let Tok::Identifier(name) = t.kind {
            let s1 = advance(toks, st);
            lemma_expect(toks, st, Tok::Operator(OperatorKind::Assign), Seq::empty());
            lemma_expect(toks, s1, Tok::Operator(OperatorKind::Assign), "Expected '='"@);
            if let Ok(s2) = expect(toks, s1, Tok::Operator(OperatorKind::Assign), "Expected '='"@) {
                law_unit_forward(toks, s2);
            }
        }
    }
}

proof fn law_call_args_forward(toks: Seq<TokenModel>, st: PState, acc: Seq<(Seq<char>, Act)>)
    requires
        within(toks, st),
    ensures
        forward(toks, st, call_args_spec(toks, st, acc)),
    decreases crate::parser::remaining(toks, st), 2int,
{
    law_argument_forward(toks, st);
    if let Step::Done(Some((k, v)), s1) = argument_spec(toks, st) {
        if crate::parser::remaining(toks, s1) < crate::parser::remaining(toks, st) {
            law_call_args_forward(toks, s1, crate::parser::insert_arg(acc, k, v));
        }
    }
}

proof fn law_call_forward(toks: Seq<TokenModel>, st: PState)
    requires
        within(toks, st),
    ensures
        forward(toks, st, call_spec(toks, st)),
    decreases crate::parser::remaining(toks, st), 3int,
{
    if let Some(t) = cur_tok(toks, st) {
        if let Tok::Identifier(id) = t.kind {
            let s1 = advance(toks, st);
            lemma_expect(toks, st, Tok::Separator(SeparatorKind::BracketOpen), Seq::empty());
            lemma_expect(toks, s1, Tok::Separator(SeparatorKind::BracketOpen), "Expected '('"@);
            if let Ok(s2) = expect(toks, s1, Tok::Separator(SeparatorKind::BracketOpen), "Expected '('"@) {
                law_call_args_forward(toks, s2, Seq::empty());
                if let Step::Done(args, s3) = call_args_spec(toks, s2, Seq::empty()) {
                    lemma_expect(toks, s3, Tok::Separator(SeparatorKind::BracketClose), "Expected ')'"@);
                    if let Ok(s4) = expect(toks, s3, Tok::Separator(SeparatorKind::BracketClose), "Expected ')'"@) {
                        lemma_expect(toks, s4, Tok::Separator(SeparatorKind::BlockOpen), "Expected '{'"@);
                        if let Ok(s5) = expect(toks, s4, Tok::Separator(SeparatorKind::BlockOpen), "Expected '{'"@) {
                            law_body_forward(toks, s5);
                            if let Step::Done(body, s6) = body_spec(toks, s5) {
                                lemma_expect(toks, s6, Tok::Separator(SeparatorKind::BlockClose), "Expected '}'"@);
                            }
                        }
                    }
                }
            }
        }
    }
}

proof fn law_user_call_forward(toks: Seq<TokenModel>, st: PState)
    requires
        within(toks, st),
    ensures
        forward(toks, st, user_call_spec(toks, st)),
    decreases crate::parser::remaining(toks, st), 3int,
{
    if let Some(t) = cur_tok(toks, st) {
        if let Tok::Function(name) = t.kind {
            let s1 = advance(toks, st);
            lemma_expect(toks, st, Tok::Separator(SeparatorKind::BracketOpen), Seq::empty());
            lemma_expect(toks, s1, Tok::Separator(SeparatorKind::BracketOpen), "Expected '('"@);
            if let Ok(s2) = expect(toks, s1, Tok::Separator(SeparatorKind::BracketOpen), "Expected '('"@) {
                law_call_args_forward(toks, s2, Seq::empty());
                if let Step::Done(args, s3) = call_args_spec(toks, s2, Seq::empty()) {
                    lemma_expect(toks, s3, Tok::Separator(SeparatorKind::BracketClose), "Expected ')'"@);
                }
            }
        }
    }
}

proof fn law_binary_right_forward(toks: Seq<TokenModel>, st: PState, prio: int, left: Act)
    requires
        within(toks, st),
    ensures
        forward(toks, st, binary_right_spec(toks, st, prio, left)),
    decreases crate::parser::remaining(toks, st), 4int,
{
    let tp = crate::parser::priority_at(toks, st);
    if tp >= prio {
        if let Some(t) = cur_tok(toks, st) {
            if let Tok::Operator(op) = t.kind {
                let s1 = advance(toks, st);
                lemma_expect(toks, st, Tok::Operator(op), Seq::empty());
                law_unit_forward(toks, s1);
                if let Step::Done(Some(right), s2) = unit_spec(toks, s1) {
                    if tp < crate::parser::priority_at(toks, s2) {
                        law_binary_right_forward(toks, s2, tp + 1, right);
                        if let Step::Done(Some(r2), s3) = binary_right_spec(toks, s2, tp + 1, right) {
                            if crate::parser::remaining(toks, s3) < crate::parser::remaining(toks, st) {
                                law_binary_right_forward(
                                    toks,
                                    s3,
                                    prio,
                                    Act::BinaryOperation { op, left: Box::new(left), right: Box::new(r2) },
                                );
                            }
                        }
                    } else if crate::parser::remaining(toks, s2) < crate::parser::remaining(toks, st) {
                        law_binary_right_forward(
                            toks,
                            s2,
                            prio,
                            Act::BinaryOperation { op, left: Box::new(left), right: Box::new(right) },
                        );
                    }
                }
            }
        }
    }
}

proof fn law_expression_forward(toks: Seq<TokenModel>, st: PState)
    requires
        within(toks, st),
    ensures
        forward(toks, st, expression_spec(toks, st)),
    decreases crate::parser::remaining(toks, st), 6int,
{
    law_unit_forward(toks, st);
    if let Step::Done(Some(l), s1) = unit_spec(toks, st) {
        law_binary_right_forward(toks, s1, 0, l);
    }
}

proof fn law_definition_forward(toks: Seq<TokenModel>, st: PState)
    requires
        within(toks, st),
    ensures
        forward(toks, st, definition_spec(toks, st)),
    decreases crate::parser::remaining(toks, st), 6int,
{
    if crate::parser::at_kind(toks, st, Tok::Keyword(KeywordKind::Function)) {
        let s1 = advance(toks, st);
        lemma_expect(toks, st, Tok::Keyword(KeywordKind::Function), Seq::empty());
        if let Some(t) = cur_tok(toks, s1) {
            if let Tok::Identifier(name) = t.kind {
                let s2 = advance(toks, s1);
                lemma_expect(toks, s1, Tok::Keyword(KeywordKind::Function), Seq::empty());
                let m1 = "Expected '(' for argument declaration"@;
                lemma_expect(toks, s2, Tok::Separator(SeparatorKind::BracketOpen), m1);
                if let Ok(s3) = expect(toks, s2, Tok::Separator(SeparatorKind::BracketOpen), m1) {
                    lemma_decl_args_forward(toks, s3, Seq::empty());
                    let s4 = decl_args(toks, s3, Seq::empty()).1;
                    let m2 = "Expected ')' for argument declaration"@;
                    lemma_expect(toks, s4, Tok::Separator(SeparatorKind::BracketClose), m2);
                    if let Ok(s5) = expect(toks, s4, Tok::Separator(SeparatorKind::BracketClose), m2) {
                        lemma_expect(toks, s5, Tok::Separator(SeparatorKind::BlockOpen), "Expected '{'"@);
                        if let Ok(s6) = expect(toks, s5, Tok::Separator(SeparatorKind::BlockOpen), "Expected '{'"@) {
                            law_body_forward(toks, s6);
                            if let Step::Done(body, s7) = body_spec(toks, s6) {
                                lemma_expect(toks, s7, Tok::Separator(SeparatorKind::BlockClose), "Expected '}'"@);
                            }
                        }
                    }
                }
            }
        }
    }
}

proof fn law_sequence_unit_forward(toks: Seq<TokenModel>, st: PState)
    requires
        within(toks, st),
    ensures
        forward(toks, st, sequence_unit_spec(toks, st)),
    decreases crate::parser::remaining(toks, st), 7int,
{
    law_expression_forward(toks, st);
    if let Step::Done(None, s1) = expression_spec(toks, st) {
        law_definition_forward(toks, s1);
    }
}

proof fn law_body_items_forward(toks: Seq<TokenModel>, st: PState, acc: Seq<Act>)
    requires
        within(toks, st),
    ensures
        forward(toks, st, body_items_spec(toks, st, acc)),
    decreases crate::parser::remaining(toks, st), 8int,
{
    law_sequence_unit_forward(toks, st);
    if let Step::Done(Some(a), s1) = sequence_unit_spec(toks, st) {
        let m = "Expected ';' after the end of the expression"@;
        lemma_expect(toks, s1, Tok::Separator(SeparatorKind::Semicolon), m);
        if let Ok(s2) = expect(toks, s1, Tok::Separator(SeparatorKind::Semicolon), m) {
            if crate::parser::remaining(toks, s2) < crate::parser::remaining(toks, st) {
                law_body_items_forward(toks, s2, acc.push(a));
            }
        }
    }
}

/// Parsing a body ends at or after where it started and within the tokens; so do all the
/// parsing steps it is made of, and none of them ever reaches the branches that would move
/// backwards.
pub proof fn law_body_forward(toks: Seq<TokenModel>, st: PState)
    requires
        within(toks, st),
    ensures
        forward(toks, st, body_spec(toks, st)),
    decreases crate::parser::remaining(toks, st), 9int,
{
    law_body_items_forward(toks, st, Seq::empty());
}


/// The statements that a body is made of: statement `i` starts at `starts[i]` and parses to
/// `items[i]`, ending at `ends[i]` on a `;`, and the next one starts after that `;`. Every
/// statement but the last is followed by more tokens, none a `}`; the last is followed by a
/// `}` or by the end of the tokens.
pub open spec fn statements(toks: Seq<TokenModel>, starts: Seq<PState>, ends: Seq<PState>, items: Seq<Act>) -> bool {
    let k = items.len() as int;
    &&& k >= 1
    &&& starts.len() == k + 1
    &&& ends.len() == k
    &&& within(toks, starts[0])
    &&& forall|i: int| 0 <= i < k ==> #[trigger] sequence_unit_spec(toks, starts[i]) == Step::Done(Some(items[i]), ends[i])
    &&& forall|i: int| 0 <= i < k ==> at_kind(toks, #[trigger] ends[i], Tok::Separator(SeparatorKind::Semicolon))
    &&& forall|i: int| 0 <= i < k ==> starts[i + 1] == skip(toks, #[trigger] ends[i])
    &&& forall|i: int| 0 < i < k ==> !at_kind(toks, #[trigger] starts[i], Tok::Separator(SeparatorKind::BlockClose))
        && cur_tok(toks, starts[i]) is Some
    &&& at_kind(toks, starts[k], Tok::Separator(SeparatorKind::BlockClose)) || cur_tok(toks, starts[k]) is None
}

proof fn lemma_body_items(toks: Seq<TokenModel>, starts: Seq<PState>, ends: Seq<PState>, items: Seq<Act>, i: int)
    requires
        statements(toks, starts, ends, items),
        0 <= i < items.len(),
        within(toks, starts[i]),
    ensures
        body_items_spec(toks, starts[i], items.take(i)) == Step::Done(items, starts[items.len() as int]),
    decreases items.len() - i,
{
    let k = items.len() as int;
    law_sequence_unit_forward(toks, starts[i]);
    assert(sequence_unit_spec(toks, starts[i]) == Step::Done(Some(items[i]), ends[i]));
    assert(at_kind(toks, ends[i], Tok::Separator(SeparatorKind::Semicolon)));
    assert(starts[i + 1] == skip(toks, ends[i]));
    assert(items.take(i).push(items[i]) =~= items.take(i + 1));
    if i + 1 < k {
        assert(!at_kind(toks, starts[i + 1], Tok::Separator(SeparatorKind::BlockClose)) && cur_tok(toks, starts[i + 1]) is Some);
        lemma_body_items(toks, starts, ends, items, i + 1);
    } else {
        assert(items.take(i + 1) =~= items);
    }
}

/// A body made of statements parses to the sequence of those statements, in order, and stops
/// before the `}` that follows them (or at the end of the tokens).
pub proof fn law_body_of_statements(toks: Seq<TokenModel>, starts: Seq<PState>, ends: Seq<PState>, items: Seq<Act>)
    requires
        statements(toks, starts, ends, items),
    ensures
        body_spec(toks, starts[0]) == Step::Done(Act::Sequence(items), starts[items.len() as int]),
{
    assert(items.take(0) =~= Seq::<Act>::empty());
    lemma_body_items(toks, starts, ends, items, 0);
}

/// A body that starts at a `}` is empty, and the `}` is left for the caller.
pub proof fn law_empty_body(toks: Seq<TokenModel>, st: PState)
    requires
        at_kind(toks, st, Tok::Separator(SeparatorKind::BlockClose)),
    ensures
        body_spec(toks, st) == Step::Done(Act::Sequence(Seq::empty()), st),
{
    assert(unit_spec(toks, st) == Step::<Option<Act>>::Done(None, st));
    assert(expression_spec(toks, st) == Step::<Option<Act>>::Done(None, st));
    assert(definition_spec(toks, st) == Step::<Option<Act>>::Done(None, st));
    assert(sequence_unit_spec(toks, st) == Step::<Option<Act>>::Done(None, st));
    assert(body_items_spec(toks, st, Seq::empty()) == Step::Done(Seq::<Act>::empty(), st));
}


/// Every name that is already a function counts as a duplicate, wherever it stands among the
/// names: the search for a duplicate finds one as soon as any name is declared already.
pub proof fn law_declared_name_is_duplicate(names: Seq<Seq<char>>, functions: Map<Seq<char>, FunctionDef>, i: int)
    requires
        0 <= i < names.len(),
        functions.contains_key(names[i]),
    ensures
        first_duplicate(names, functions) is Some,
    decreases names.len(),
{
    if i < names.len() - 1 {
        assert(names.drop_last()[i] == names[i]);
        law_declared_name_is_duplicate(names.drop_last(), functions, i);
    }
}

/// A reported duplicate is one of the names, and it is declared already or occurs twice.
pub proof fn law_duplicate_is_real(names: Seq<Seq<char>>, functions: Map<Seq<char>, FunctionDef>)
    ensures
        first_duplicate(names, functions) matches Some(n) ==> names.contains(n) && (functions.contains_key(n)
            || exists|i: int, j: int| 0 <= i < j < names.len() && names[i] == n && names[j] == n),
    decreases names.len(),
{
    if names.len() > 0 {
        let d = names.drop_last();
        law_duplicate_is_real(d, functions);
        if let Some(n) = first_duplicate(names, functions) {
            if let Some(m) = first_duplicate(d, functions) {
                let w = choose|k: int| 0 <= k < d.len() && d[k] == n;
                assert(names[w] == n);
                if !functions.contains_key(n) {
                    let (i, j) = choose|i: int, j: int| 0 <= i < j < d.len() && d[i] == n && d[j] == n;
                    assert(names[i] == n && names[j] == n);
                }
            } else {
                assert(names[names.len() - 1] == n);
                if !functions.contains_key(n) {
                    let w = choose|k: int| 0 <= k < d.len() && d[k] == n;
                    assert(names[w] == n);
                    assert(names[names.len() - 1] == n);
                }
            }
        }
    }
}

/// Loading a module that declares, anywhere in it, a function the state has already is
/// refused as a duplicate, and the state is left as it was.
pub proof fn law_load_refuses_declared_function(
    code: Seq<char>,
    env: Env,
    r: Result<ActionKind, LoadError>,
    st: Env,
    i: int,
)
    requires
        module_loaded(code, env, r, st),
        module_body(code) matches Step::Done(a, _) && 0 <= i < crate::model::declared_names(a).len()
            && env.functions.contains_key(crate::model::declared_names(a)[i]),
    ensures
        r matches Err(LoadError::DuplicateFunction(_)),
        st == env,
{
    if let Step::Done(a, _) = module_body(code) {
        law_declared_name_is_duplicate(crate::model::declared_names(a), env.functions, i);
    }
}

/// Adding an attribute `k = v` to a tag's attributes writes, after the text of the others,
/// `k="` and the text of evaluating `v` (whatever kind of tree `v` is) and `"`, with `v`
/// evaluated in the state the others left.
pub proof fn law_attribute_appended(s: Seq<(Seq<char>, Act)>, k: Seq<char>, v: Act, env: Env, fuel: nat)
    requires
        eval_attrs(s, env, fuel) is Done,
    ensures
        eval_attrs(s, env, fuel) matches Outcome::Done(Ok(t), e1) ==> eval_attrs(s.push((k, v)), env, fuel) == match eval(v, e1, fuel) {
            Outcome::Done(Ok(x), e2) => Outcome::Done(Ok(t + k + "=\""@ + text_of(x) + "\""@), e2),
            Outcome::Done(Err(e), e2) => Outcome::Done(Err(e), e2),
            Outcome::Stuck => Outcome::Stuck,
        },
{
    assert(s.push((k, v)).drop_last() =~= s);
}

/// A tag with one attribute `k = v` and no body writes `<tag k="x"></tag>`, where `x` is the
/// text that evaluating `v` gives, whatever kind of tree `v` is.
pub proof fn law_tag_with_attribute(tag: Seq<char>, k: Seq<char>, v: Act, env: Env, fuel: nat)
    requires
        eval(v, env, fuel) matches Outcome::Done(Ok(_), _),
    ensures
        eval(v, env, fuel) matches Outcome::Done(Ok(x), e1) && eval(
            Act::Function { tag_name: tag, arguments: seq![(k, v)], body: None },
            env,
            fuel,
        ) == Outcome::<Output>::Done(
            Ok(Some("<"@ + tag + " "@ + k + "=\""@ + text_of(x) + "\""@ + ">"@ + "</"@ + tag + ">"@)),
            e1,
        ),
{
    let s = seq![(k, v)];
    assert(s.drop_last() =~= Seq::<(Seq<char>, Act)>::empty());
    assert(eval_attrs(Seq::<(Seq<char>, Act)>::empty(), env, fuel) == Outcome::<Result<Seq<char>, crate::state::ExecutionErrorKind>>::Done(
        Ok(Seq::empty()),
        env,
    ));
    if let Outcome::Done(Ok(x), e1) = eval(v, env, fuel) {
        let t = Seq::<char>::empty() + k + "=\""@ + text_of(x) + "\""@;
        assert(eval_attrs(s, env, fuel) == Outcome::<Result<Seq<char>, crate::state::ExecutionErrorKind>>::Done(Ok(t), e1));
        assert("<"@ + tag + " "@ + t + ">"@ + "</"@ + tag + ">"@ =~= "<"@ + tag + " "@ + k + "=\""@ + text_of(x) + "\""@
            + ">"@ + "</"@ + tag + ">"@);
    }
}

proof fn lemma_scan_kept(code: Seq<char>, k: int, m: int, acc: Seq<char>)
    requires
        0 <= k,
        0 <= m,
        k + m < code.len(),
        forall|i: int| k <= i < k + m ==> #[trigger] code[i] != '"' && special_pair(code[i], code[i + 1]) is None,
        code[k + m] == '"',
    ensures
        string_scan(code, k, acc) == Some((acc + code.subrange(k, k + m), k + m)),
    decreases m,
{
    if m == 0 {
        assert(acc + code.subrange(k, k) =~= acc);
    } else {
        assert(code[k] != '"' && special_pair(code[k], code[k + 1]) is None);
        lemma_scan_kept(code, k + 1, m - 1, acc.push(code[k]));
        assert(acc.push(code[k]) + code.subrange(k + 1, k + m) =~= acc + code.subrange(k, k + m));
    }
}

/// A string constant keeps every character that starts no escape, a backslash among them:
/// where no character inside the quotes is a quote or starts an escape with the next one, the
/// constant holds exactly the characters between the quotes, and the lexer moves past the
/// closing quote.
pub proof fn law_string_keeps_plain_characters(l: LexModel, m: int)
    requires
        0 <= l.pos,
        0 <= m,
        l.pos + 1 + m < l.code.len(),
        l.code[l.pos] == '"',
        forall|i: int| l.pos + 1 <= i < l.pos + 1 + m ==> #[trigger] l.code[i] != '"' && special_pair(l.code[i], l.code[i + 1]) is None,
        l.code[l.pos + 1 + m] == '"',
    ensures
        lex_string(l) matches Some((t, l2)) && t.kind == Tok::StringConst(l.code.subrange(l.pos + 1, l.pos + 1 + m))
            && l2.pos == l.pos + m + 2,
{
    lemma_scan_kept(l.code, l.pos + 1, m, Seq::empty());
    assert(Seq::<char>::empty() + l.code.subrange(l.pos + 1, l.pos + 1 + m) =~= l.code.subrange(l.pos + 1, l.pos + 1 + m));
}

/// Attributes of the first form of trees write as the texts of their parts joined: the
/// attributes of `s` followed by those of `t` write the text of `s` and then that of `t`, and
/// nothing where either part cannot be written.
pub proof fn law_render_attrs_join(s: Seq<(String, crate::execution::ActionKind)>, t: Seq<(String, crate::execution::ActionKind)>)
    ensures
        render_attrs(s + t) == match (render_attrs(s), render_attrs(t)) {
            (Some(x), Some(y)) => Some(x + y),
            _ => None,
        },
    decreases t.len(),
{
    if t.len() == 0 {
        assert(s + t =~= s);
        if let Some(x) = render_attrs(s) {
            assert(x + Seq::<char>::empty() =~= x);
        }
    } else {
        assert((s + t).drop_last() =~= s + t.drop_last());
        assert((s + t).last() == t.last());
        law_render_attrs_join(s, t.drop_last());
        if let (Some(x), Some(y)) = (render_attrs(s), render_attrs(t.drop_last())) {
            if let Some(v) = render(t.last().1) {
                assert(x + y + t.last().0@ + "=\""@ + v + "\""@ =~= x + (y + t.last().0@ + "=\""@ + v + "\""@));
            }
        }
    }
}

/// One attribute of the first form of trees writes `name="value"`.
pub proof fn law_render_one_attr(p: (String, crate::execution::ActionKind))
    ensures
        render_attrs(seq![p]) == match render(p.1) {
            Some(v) => Some(p.0@ + "=\""@ + v + "\""@),
            None => None,
        },
{
    assert(seq![p].drop_last() =~= Seq::<(String, crate::execution::ActionKind)>::empty());
    assert(render_attrs(Seq::<(String, crate::execution::ActionKind)>::empty()) == Some(Seq::<char>::empty()));
    assert(seq![p].last() == p);
    if let Some(v) = render(p.1) {
        assert(Seq::<char>::empty() + p.0@ + "=\""@ + v + "\""@ =~= p.0@ + "=\""@ + v + "\""@);
    }
}

/// A tag shown with a body is shown as the same tag without one, with the body's text in
/// place of `none`.
pub proof fn law_show_tag_body(tag: Seq<char>, args: Seq<(Seq<char>, Act)>, b: Act)
    ensures
        ({
            let bare = show(Act::Function { tag_name: tag, arguments: args, body: None });
            show(Act::Function { tag_name: tag, arguments: args, body: Some(Box::new(b)) }) == bare.subrange(
                0,
                bare.len() - 5,
            ) + show(b) + ")"@
        }),
{
    let pre = "FUNCTION(tag: "@ + tag + ", arguments: "@ + show_args(args) + ", body : "@;
    let bare = show(Act::Function { tag_name: tag, arguments: args, body: None });
    assert(bare == pre + "none"@ + ")"@);
    assert(("none"@ + ")"@).len() == 5) by {
        reveal_strlit("none");
        reveal_strlit(")");
    }
    assert(bare.subrange(0, bare.len() - 5) =~= pre);
}


/// Children of a tag of the first form write as their texts joined: the children `s`
/// followed by `t` write the text of `s` and then that of `t`, and nothing where either part
/// cannot be written.
pub proof fn law_render_items_join(s: Seq<crate::execution::ActionKind>, t: Seq<crate::execution::ActionKind>)
    ensures
        render_items(s + t) == match (render_items(s), render_items(t)) {
            (Some(x), Some(y)) => Some(x + y),
            _ => None,
        },
    decreases t.len(),
{
    if t.len() == 0 {
        assert(s + t =~= s);
        if let Some(x) = render_items(s) {
            assert(x + Seq::<char>::empty() =~= x);
        }
    } else {
        assert((s + t).drop_last() =~= s + t.drop_last());
        assert((s + t).last() == t.last());
        law_render_items_join(s, t.drop_last());
        if let (Some(x), Some(y)) = (render_items(s), render_items(t.drop_last())) {
            if let Some(v) = render(t.last()) {
                assert(x + y + v =~= x + (y + v));
            }
        }
    }
}

} // verus!
