//! Turning tokens into syntax trees.
//!
//! The grammar: a body is a list of statements, each followed by `;`, up to a `}` or the end
//! of the tokens. A statement is an expression or a declaration `def name(arg) { body }`. An
//! expression is a unit followed by operators and units, where operators of higher priority
//! bind first. A unit is a tag `name(arg = unit) { body }`, a variable `$name`, a string
//! constant or a call of a user function `%name(arg = unit)`.
//!
//! The steps are given as functions from tokens and a parser state to a `Step`. Where a step
//! goes on from the state in which an earlier one ended, it first asks that the parser has
//! moved on, so that the functions are well founded; `laws::law_body_forward` shows that it
//! always has, so the `Panic` in those branches is never reached. The one reachable panic is
//! an argument with no unit after its `=`; the `try_*` functions give nothing there, and the
//! public ones ask that it is not reached. `syntax::law_printed_body_parses` states the
//! grammar the other way round: the tokens that write a tree are read back as that tree.

use std::rc::Rc;

use vstd::prelude::*;

use crate::action::{act_of, acts_of, args_of, lemma_args_of, ActionKind};
use crate::assoc::{assoc_insert, assoc_insert_spec, key_index, lemma_key_index};
use crate::lexer::{
    token_priority, tokens_view, ErrorModel, KeywordKind, OperatorKind, ParsingError, ParsingErrorKind,
    SeparatorKind, Tok, Token, TokenKind, TokenModel,
};
use crate::model::Act;
use crate::state::strings_view;

verus! {

/// Where a parser stands: the index of its next token, and the row and column of the last
/// token it took with `next`.
pub struct PState {
    pub pos: int,
    pub last_row: int,
    pub last_column: int,
}

/// How a parsing step ends: with a value and the new state, with an error and the state it
/// was found in, or with a panic of the parser.
pub enum Step<T> {
    Done(T, PState),
    Fail(ErrorModel, PState),
    Panic,
}

/// The token at the parser's position, if any is left.
pub open spec fn cur_tok(toks: Seq<TokenModel>, st: PState) -> Option<TokenModel> {
    if 0 <= st.pos < toks.len() {
        Some(toks[st.pos])
    } else {
        None
    }
}

/// Taking the current token and recording its position; at the end nothing changes.
pub open spec fn advance(toks: Seq<TokenModel>, st: PState) -> PState {
    match cur_tok(toks, st) {
        Some(t) => PState { pos: st.pos + 1, last_row: t.row, last_column: t.column },
        None => st,
    }
}

/// Taking the current token without recording its position.
pub open spec fn skip(toks: Seq<TokenModel>, st: PState) -> PState {
    match cur_tok(toks, st) {
        Some(t) => PState { pos: st.pos + 1, ..st },
        None => st,
    }
}

/// The row reported for an error: that of the current token, or of the last one taken.
pub open spec fn row_at(toks: Seq<TokenModel>, st: PState) -> int {
    match cur_tok(toks, st) {
        Some(t) => t.row,
        None => st.last_row,
    }
}

/// The column reported for an error.
pub open spec fn column_at(toks: Seq<TokenModel>, st: PState) -> int {
    match cur_tok(toks, st) {
        Some(t) => t.column,
        None => st.last_column,
    }
}

/// The error for an unexpected token, with its message.
pub open spec fn unexpected(toks: Seq<TokenModel>, st: PState, msg: Seq<char>) -> ErrorModel {
    ErrorModel {
        kind: ParsingErrorKind::UnexpectedCharacter,
        message: Some(msg),
        row: row_at(toks, st),
        column: column_at(toks, st),
    }
}

/// The current token is of the given kind.
pub open spec fn at_kind(toks: Seq<TokenModel>, st: PState, kind: Tok) -> bool {
    cur_tok(toks, st) matches Some(t) && t.kind == kind
}

/// Taking a token of the given kind, or the error with `msg`.
pub open spec fn expect(toks: Seq<TokenModel>, st: PState, kind: Tok, msg: Seq<char>) -> Result<PState, ErrorModel> {
    if at_kind(toks, st, kind) {
        Ok(skip(toks, st))
    } else {
        Err(unexpected(toks, st, msg))
    }
}

/// The number of tokens left.
pub open spec fn remaining(toks: Seq<TokenModel>, st: PState) -> nat {
    if 0 <= st.pos <= toks.len() {
        (toks.len() - st.pos) as nat
    } else {
        0
    }
}

/// The priority of the current token, -1 at the end.
pub open spec fn priority_at(toks: Seq<TokenModel>, st: PState) -> int {
    match cur_tok(toks, st) {
        Some(t) => token_priority(t.kind),
        None => -1,
    }
}

/// The index of the first pair with key `k`, or -1.
pub open spec fn first_key(s: Seq<(Seq<char>, Act)>, k: Seq<char>) -> int
    decreases s.len(),
{
    if s.len() == 0 {
        -1
    } else {
        let p = first_key(s.drop_last(), k);
        if p >= 0 {
            p
        } else if s.last().0 == k {
            s.len() - 1
        } else {
            -1
        }
    }
}

/// Adding a named argument: a present name gets the new value, a new one is appended.
pub open spec fn insert_arg(s: Seq<(Seq<char>, Act)>, k: Seq<char>, v: Act) -> Seq<(Seq<char>, Act)> {
    let i = first_key(s, k);
    if i >= 0 {
        s.update(i, (k, v))
    } else {
        s.push((k, v))
    }
}

/// The parameter names of a declaration: names separated by commas.
pub open spec fn decl_args(toks: Seq<TokenModel>, st: PState, acc: Seq<Seq<char>>) -> (Seq<Seq<char>>, PState)
    decreases remaining(toks, st),
{
    match cur_tok(toks, st) {
        Some(t) => match t.kind {
            Tok::Identifier(a) => {
                let s1 = advance(toks, st);
                if at_kind(toks, s1, Tok::Separator(SeparatorKind::Comma)) && remaining(toks, s1) < remaining(toks, st) {
                    decl_args(toks, s1, acc.push(a))
                } else {
                    (acc.push(a), s1)
                }
            },
            _ => (acc, st),
        },
        None => (acc, st),
    }
}

/// A unit: a tag, a variable, a string constant or a user function call. Any other token
/// gives nothing; the end of the tokens is an error.
pub open spec fn unit_spec(toks: Seq<TokenModel>, st: PState) -> Step<Option<Act>>
    decreases remaining(toks, st), 5int,
{
    match cur_tok(toks, st) {
        None => Step::Fail(unexpected(toks, st, "Expected an expression"@), st),
        Some(t) => match t.kind {
            Tok::Identifier(_) => match call_spec(toks, st) {
                Step::Done(a, s1) => Step::Done(Some(a), s1),
                Step::Fail(e, s1) => Step::Fail(e, s1),
                Step::Panic => Step::Panic,
            },
            Tok::Variable(name) => Step::Done(Some(Act::GetVariable(name)), advance(toks, st)),
            Tok::StringConst(s) => Step::Done(Some(Act::ConstString(s)), advance(toks, st)),
            Tok::Function(_) => user_call_spec(toks, st),
            _ => Step::Done(None, st),
        },
    }
}

/// A named argument `name = unit`; anything but a name gives nothing. A missing unit after
/// `=` makes the parser panic.
pub open spec fn argument_spec(toks: Seq<TokenModel>, st: PState) -> Step<Option<(Seq<char>, Act)>>
    decreases remaining(toks, st), 1int,
{
    match cur_tok(toks, st) {
        Some(t) => match t.kind {
            Tok::Identifier(name) => {
                let s1 = advance(toks, st);
                match expect(toks, s1, Tok::Operator(OperatorKind::Assign), "Expected '='"@) {
                    Err(e) => Step::Fail(e, s1),
                    Ok(s2) => if remaining(toks, s2) < remaining(toks, st) {
                        match unit_spec(toks, s2) {
                            Step::Done(Some(a), s3) => Step::Done(Some((name, a)), s3),
                            Step::Done(None, _) => Step::Panic,
                            Step::Fail(e, s3) => Step::Fail(e, s3),
                            Step::Panic => Step::Panic,
                        }
                    } else {
                        Step::Panic
                    },
                }
            },
            _ => Step::Done(None, st),
        },
        None => Step::Done(None, st),
    }
}

/// The arguments of a call, added to `acc`: one argument after another while each is
/// followed by a comma (which is not taken).
pub open spec fn call_args_spec(toks: Seq<TokenModel>, st: PState, acc: Seq<(Seq<char>, Act)>) -> Step<Seq<(Seq<char>, Act)>>
    decreases remaining(toks, st), 2int,
{
    match argument_spec(toks, st) {
        Step::Panic => Step::Panic,
        Step::Fail(e, s1) => Step::Fail(e, s1),
        Step::Done(None, s1) => Step::Done(acc, s1),
        Step::Done(Some((k, v)), s1) => {
            let acc2 = insert_arg(acc, k, v);
            if at_kind(toks, s1, Tok::Separator(SeparatorKind::Comma)) {
                if remaining(toks, s1) < remaining(toks, st) {
                    call_args_spec(toks, s1, acc2)
                } else {
                    Step::Panic
                }
            } else {
                Step::Done(acc2, s1)
            }
        },
    }
}

/// A tag: `name ( arguments ) { body }`.
pub open spec fn call_spec(toks: Seq<TokenModel>, st: PState) -> Step<Act>
    decreases remaining(toks, st), 3int,
{
    match cur_tok(toks, st) {
        Some(t) => match t.kind {
            Tok::Identifier(id) => {
                let s1 = advance(toks, st);
                match expect(toks, s1, Tok::Separator(SeparatorKind::BracketOpen), "Expected '('"@) {
                    Err(e) => Step::Fail(e, s1),
                    Ok(s2) => if remaining(toks, s2) < remaining(toks, st) {
                        match call_args_spec(toks, s2, Seq::empty()) {
                            Step::Panic => Step::Panic,
                            Step::Fail(e, s3) => Step::Fail(e, s3),
                            Step::Done(args, s3) => match expect(toks, s3, Tok::Separator(SeparatorKind::BracketClose), "Expected ')'"@) {
                                Err(e) => Step::Fail(e, s3),
                                Ok(s4) => match expect(toks, s4, Tok::Separator(SeparatorKind::BlockOpen), "Expected '{'"@) {
                                    Err(e) => Step::Fail(e, s4),
                                    Ok(s5) => if remaining(toks, s5) < remaining(toks, st) {
                                        match body_spec(toks, s5) {
                                            Step::Panic => Step::Panic,
                                            Step::Fail(e, s6) => Step::Fail(e, s6),
                                            Step::Done(body, s6) => match expect(toks, s6, Tok::Separator(SeparatorKind::BlockClose), "Expected '}'"@) {
                                                Err(e) => Step::Fail(e, s6),
                                                Ok(s7) => Step::Done(
                                                    Act::Function { tag_name: id, arguments: args, body: Some(Box::new(body)) },
                                                    s7,
                                                ),
                                            },
                                        }
                                    } else {
                                        Step::Panic
                                    },
                                },
                            },
                        }
                    } else {
                        Step::Panic
                    },
                }
            },
            _ => Step::Fail(unexpected(toks, st, "Expected function name"@), st),
        },
        None => Step::Fail(unexpected(toks, st, "Expected function name"@), st),
    }
}

/// A call of a user function: `%name ( arguments )`; any other token gives nothing.
pub open spec fn user_call_spec(toks: Seq<TokenModel>, st: PState) -> Step<Option<Act>>
    decreases remaining(toks, st), 3int,
{
    match cur_tok(toks, st) {
        Some(t) => match t.kind {
            Tok::Function(name) => {
                let s1 = advance(toks, st);
                match expect(toks, s1, Tok::Separator(SeparatorKind::BracketOpen), "Expected '('"@) {
                    Err(e) => Step::Fail(e, s1),
                    Ok(s2) => if remaining(toks, s2) < remaining(toks, st) {
                        match call_args_spec(toks, s2, Seq::empty()) {
                            Step::Panic => Step::Panic,
                            Step::Fail(e, s3) => Step::Fail(e, s3),
                            Step::Done(args, s3) => match expect(toks, s3, Tok::Separator(SeparatorKind::BracketClose), "Expected ')'"@) {
                                Err(e) => Step::Fail(e, s3),
                                Ok(s4) => Step::Done(Some(Act::UserFunctionCall { function_name: name, arguments: args }), s4),
                            },
                        }
                    } else {
                        Step::Panic
                    },
                }
            },
            _ => Step::Done(None, st),
        },
        None => Step::Done(None, st),
    }
}

/// The rest of a binary expression whose left operand is `left`: while the current operator
/// has at least priority `prio`, take it and its right operand, first taking into the right
/// operand the operators that bind tighter. A missing right operand gives nothing.
pub open spec fn binary_right_spec(toks: Seq<TokenModel>, st: PState, prio: int, left: Act) -> Step<Option<Act>>
    decreases remaining(toks, st), 4int,
{
    let tp = priority_at(toks, st);
    if tp < prio {
        Step::Done(Some(left), st)
    } else {
        match cur_tok(toks, st) {
            Some(t) => match t.kind {
                Tok::Operator(op) => {
                    let s1 = advance(toks, st);
                    if remaining(toks, s1) < remaining(toks, st) {
                        match unit_spec(toks, s1) {
                            Step::Panic => Step::Panic,
                            Step::Fail(e, s2) => Step::Fail(e, s2),
                            Step::Done(None, s2) => Step::Done(None, s2),
                            Step::Done(Some(right), s2) => if remaining(toks, s2) < remaining(toks, st) {
                                if tp < priority_at(toks, s2) {
                                    match binary_right_spec(toks, s2, tp + 1, right) {
                                        Step::Panic => Step::Panic,
                                        Step::Fail(e, s3) => Step::Fail(e, s3),
                                        Step::Done(None, s3) => Step::Done(None, s3),
                                        Step::Done(Some(r2), s3) => if remaining(toks, s3) < remaining(toks, st) {
                                            binary_right_spec(
                                                toks,
                                                s3,
                                                prio,
                                                Act::BinaryOperation { op, left: Box::new(left), right: Box::new(r2) },
                                            )
                                        } else {
                                            Step::Panic
                                        },
                                    }
                                } else {
                                    binary_right_spec(
                                        toks,
                                        s2,
                                        prio,
                                        Act::BinaryOperation { op, left: Box::new(left), right: Box::new(right) },
                                    )
                                }
                            } else {
                                Step::Panic
                            },
                        }
                    } else {
                        Step::Panic
                    }
                },
                _ => Step::Fail(unexpected(toks, st, "Expected an operator"@), st),
            },
            None => Step::Fail(unexpected(toks, st, "Expected an operator"@), st),
        }
    }
}

/// An expression: a unit and the operators that follow it.
pub open spec fn expression_spec(toks: Seq<TokenModel>, st: PState) -> Step<Option<Act>>
    decreases remaining(toks, st), 6int,
{
    match unit_spec(toks, st) {
        Step::Panic => Step::Panic,
        Step::Fail(e, s1) => Step::Fail(e, s1),
        Step::Done(None, s1) => Step::Done(None, s1),
        Step::Done(Some(l), s1) => if remaining(toks, s1) <= remaining(toks, st) {
            binary_right_spec(toks, s1, 0, l)
        } else {
            Step::Panic
        },
    }
}

/// A declaration: `def name ( parameters ) { body }`; any other token gives nothing.
pub open spec fn definition_spec(toks: Seq<TokenModel>, st: PState) -> Step<Option<Act>>
    decreases remaining(toks, st), 6int,
{
    if !at_kind(toks, st, Tok::Keyword(KeywordKind::Function)) {
        Step::Done(None, st)
    } else {
        let s1 = advance(toks, st);
        match cur_tok(toks, s1) {
            Some(t) => match t.kind {
                Tok::Identifier(name) => {
                    let s2 = advance(toks, s1);
                    match expect(toks, s2, Tok::Separator(SeparatorKind::BracketOpen), "Expected '(' for argument declaration"@) {
                        Err(e) => Step::Fail(e, s2),
                        Ok(s3) => {
                            let (args, s4) = decl_args(toks, s3, Seq::empty());
                            match expect(toks, s4, Tok::Separator(SeparatorKind::BracketClose), "Expected ')' for argument declaration"@) {
                                Err(e) => Step::Fail(e, s4),
                                Ok(s5) => match expect(toks, s5, Tok::Separator(SeparatorKind::BlockOpen), "Expected '{'"@) {
                                    Err(e) => Step::Fail(e, s5),
                                    Ok(s6) => if remaining(toks, s6) < remaining(toks, st) {
                                        match body_spec(toks, s6) {
                                            Step::Panic => Step::Panic,
                                            Step::Fail(e, s7) => Step::Fail(e, s7),
                                            Step::Done(body, s7) => match expect(toks, s7, Tok::Separator(SeparatorKind::BlockClose), "Expected '}'"@) {
                                                Err(e) => Step::Fail(e, s7),
                                                Ok(s8) => Step::Done(
                                                    Some(Act::UserFunctionDeclaration {
                                                        function_name: name,
                                                        arguments: args,
                                                        body: Box::new(body),
                                                    }),
                                                    s8,
                                                ),
                                            },
                                        }
                                    } else {
                                        Step::Panic
                                    },
                                },
                            }
                        },
                    }
                },
                _ => Step::Fail(unexpected(toks, s1, "Expected function name"@), s1),
            },
            None => Step::Fail(unexpected(toks, s1, "Expected function name"@), s1),
        }
    }
}

/// A statement: an expression, else a declaration.
pub open spec fn sequence_unit_spec(toks: Seq<TokenModel>, st: PState) -> Step<Option<Act>>
    decreases remaining(toks, st), 7int,
{
    match expression_spec(toks, st) {
        Step::Panic => Step::Panic,
        Step::Fail(e, s1) => Step::Fail(e, s1),
        Step::Done(Some(a), s1) => Step::Done(Some(a), s1),
        Step::Done(None, s1) => if remaining(toks, s1) <= remaining(toks, st) {
            definition_spec(toks, s1)
        } else {
            Step::Panic
        },
    }
}

/// Statements, each followed by `;`, added to `acc`, up to a `}`, the end of the tokens, or
/// a token that starts no statement.
pub open spec fn body_items_spec(toks: Seq<TokenModel>, st: PState, acc: Seq<Act>) -> Step<Seq<Act>>
    decreases remaining(toks, st), 8int,
{
    match sequence_unit_spec(toks, st) {
        Step::Panic => Step::Panic,
        Step::Fail(e, s1) => Step::Fail(e, s1),
        Step::Done(None, s1) => Step::Done(acc, s1),
        Step::Done(Some(a), s1) => match expect(toks, s1, Tok::Separator(SeparatorKind::Semicolon), "Expected ';' after the end of the expression"@) {
            Err(e) => Step::Fail(e, s1),
            Ok(s2) => {
                let acc2 = acc.push(a);
                if at_kind(toks, s2, Tok::Separator(SeparatorKind::BlockClose)) || cur_tok(toks, s2) is None {
                    Step::Done(acc2, s2)
                } else if remaining(toks, s2) < remaining(toks, st) {
                    body_items_spec(toks, s2, acc2)
                } else {
                    Step::Panic
                }
            },
        },
    }
}

/// A body: its statements as a sequence.
pub open spec fn body_spec(toks: Seq<TokenModel>, st: PState) -> Step<Act>
    decreases remaining(toks, st), 9int,
{
    match body_items_spec(toks, st, Seq::empty()) {
        Step::Panic => Step::Panic,
        Step::Fail(e, s1) => Step::Fail(e, s1),
        Step::Done(items, s1) => Step::Done(Act::Sequence(items), s1),
    }
}

/// The tree of an optional node.
pub open spec fn opt_act(o: Option<ActionKind>) -> Option<Act> {
    match o {
        Some(a) => Some(act_of(a)),
        None => None,
    }
}

/// The named tree of an optional named node.
pub open spec fn opt_arg(o: Option<(String, ActionKind)>) -> Option<(Seq<char>, Act)> {
    match o {
        Some((k, a)) => Some((k@, act_of(a))),
        None => None,
    }
}

/// A result and a final state agree with a parsing step that gives an optional tree.
pub open spec fn parsed_opt(s: Step<Option<Act>>, r: Result<Option<ActionKind>, ParsingError>, st: PState) -> bool {
    match s {
        Step::Done(v, s2) => r is Ok && opt_act(r->Ok_0) == v && s2 == st,
        Step::Fail(e, s2) => r is Err && r->Err_0@ == e && s2 == st,
        Step::Panic => false,
    }
}

/// A result and a final state agree with a parsing step that gives a tree.
pub open spec fn parsed_act(s: Step<Act>, r: Result<ActionKind, ParsingError>, st: PState) -> bool {
    match s {
        Step::Done(v, s2) => r is Ok && act_of(r->Ok_0) == v && s2 == st,
        Step::Fail(e, s2) => r is Err && r->Err_0@ == e && s2 == st,
        Step::Panic => false,
    }
}

/// A result and a final state agree with a parsing step that gives an optional argument.
pub open spec fn parsed_arg(
    s: Step<Option<(Seq<char>, Act)>>,
    r: Result<Option<(String, ActionKind)>, ParsingError>,
    st: PState,
) -> bool {
    match s {
        Step::Done(v, s2) => r is Ok && opt_arg(r->Ok_0) == v && s2 == st,
        Step::Fail(e, s2) => r is Err && r->Err_0@ == e && s2 == st,
        Step::Panic => false,
    }
}

/// A result and a final state agree with a parsing step that gives arguments.
pub open spec fn parsed_args(
    s: Step<Seq<(Seq<char>, Act)>>,
    r: Result<Vec<(String, ActionKind)>, ParsingError>,
    st: PState,
) -> bool {
    match s {
        Step::Done(v, s2) => r is Ok && args_of(r->Ok_0@) == v && s2 == st,
        Step::Fail(e, s2) => r is Err && r->Err_0@ == e && s2 == st,
        Step::Panic => false,
    }
}

/// A result of a parse that may give nothing agrees with a parsing step: nothing exactly
/// where the step panics.
pub open spec fn tried_opt(s: Step<Option<Act>>, r: Option<Result<Option<ActionKind>, ParsingError>>, st: PState) -> bool {
    match s {
        Step::Panic => r is None,
        _ => r matches Some(x) && parsed_opt(s, x, st),
    }
}

/// As `tried_opt`, for a step that gives a tree.
pub open spec fn tried_act(s: Step<Act>, r: Option<Result<ActionKind, ParsingError>>, st: PState) -> bool {
    match s {
        Step::Panic => r is None,
        _ => r matches Some(x) && parsed_act(s, x, st),
    }
}

/// As `tried_opt`, for a step that gives an optional argument.
pub open spec fn tried_arg(
    s: Step<Option<(Seq<char>, Act)>>,
    r: Option<Result<Option<(String, ActionKind)>, ParsingError>>,
    st: PState,
) -> bool {
    match s {
        Step::Panic => r is None,
        _ => r matches Some(x) && parsed_arg(s, x, st),
    }
}

/// As `tried_opt`, for a step that gives arguments.
pub open spec fn tried_args(
    s: Step<Seq<(Seq<char>, Act)>>,
    r: Option<Result<Vec<(String, ActionKind)>, ParsingError>>,
    st: PState,
) -> bool {
    match s {
        Step::Panic => r is None,
        _ => r matches Some(x) && parsed_args(s, x, st),
    }
}

proof fn lemma_first_key(s: Seq<(String, ActionKind)>, k: Seq<char>)
    ensures
        key_index(s, k) == first_key(args_of(s), k),
    decreases s.len(),
{
    if s.len() > 0 {
        lemma_first_key(s.drop_last(), k);
        lemma_args_of(s);
        assert(args_of(s).drop_last() =~= args_of(s.drop_last()));
        assert(args_of(s).last() == (s.last().0@, act_of(s.last().1)));
    }
}

proof fn lemma_insert_arg(s: Seq<(String, ActionKind)>, k: String, v: ActionKind)
    ensures
        args_of(assoc_insert_spec(s, k, v)) == insert_arg(args_of(s), k@, act_of(v)),
{
    lemma_first_key(s, k@);
    lemma_key_index(s, k@);
    let t = assoc_insert_spec(s, k, v);
    lemma_args_of(s);
    lemma_args_of(t);
    assert(args_of(t) =~= insert_arg(args_of(s), k@, act_of(v)));
}

/// Reads tokens into syntax trees.
pub struct Parser<'a> {
    input: &'a [Token],
    pos: usize,
    last_row: usize,
    last_column: usize,
}

impl<'a> View for Parser<'a> {
    type V = PState;

    closed spec fn view(&self) -> PState {
        PState { pos: self.pos as int, last_row: self.last_row as int, last_column: self.last_column as int }
    }
}

impl<'a> Parser<'a> {
    /// The tokens being read.
    pub closed spec fn toks(&self) -> Seq<TokenModel> {
        tokens_view(self.input@)
    }

    /// The position lies within the tokens.
    pub closed spec fn wf(&self) -> bool {
        self.pos <= self.input.len()
    }

    pub fn new(input: &'a [Token]) -> (r: Self)
        ensures
            r.wf(),
            r.toks() == tokens_view(input@),
            r@ == (PState { pos: 0, last_row: 0, last_column: 0 }),
    {
        Parser { input, pos: 0, last_row: 0, last_column: 0 }
    }

    fn peek(&self) -> (r: Option<&'a Token>)
        requires
            self.wf(),
        ensures
            match cur_tok(self.toks(), self@) {
                Some(t) => r matches Some(x) && x@ == t,
                None => r is None,
            },
    {
        if self.pos < self.input.len() {
            let input: &'a [Token] = self.input;
            Some(&input[self.pos])
        } else {
            None
        }
    }

    /// The name of the current token, if it is an identifier.
    pub fn try_get_as_token_id(&self) -> (r: Option<&'a String>)
        requires
            self.wf(),
        ensures
            match cur_tok(self.toks(), self@) {
                Some(t) => match t.kind {
                    Tok::Identifier(n) => r matches Some(s) && s@ == n,
                    _ => r is None,
                },
                None => r is None,
            },
    {
        match self.peek() {
            Some(t) => match t.kind() {
                TokenKind::Identifier(s) => Some(s),
                _ => None,
            },
            None => None,
        }
    }

    /// Takes the current token and records its position.
    pub fn next(&mut self) -> (r: Option<&'a Token>)
        requires
            old(self).wf(),
        ensures
            final(self).wf(),
            final(self).toks() == old(self).toks(),
            final(self)@ == advance(old(self).toks(), old(self)@),
            match cur_tok(old(self).toks(), old(self)@) {
                Some(t) => r matches Some(x) && x@ == t,
                None => r is None,
            },
    {
        match self.peek() {
            Some(t) => {
                self.last_row = t.get_row();
                self.last_column = t.get_column();
                self.pos = self.pos + 1;
                Some(t)
            },
            None => None,
        }
    }

    fn skip_token(&mut self)
        requires
            old(self).wf(),
        ensures
            final(self).wf(),
            final(self).toks() == old(self).toks(),
            final(self)@ == skip(old(self).toks(), old(self)@),
    {
        if self.pos < self.input.len() {
            self.pos = self.pos + 1;
        }
    }

    pub fn get_column(&self) -> (r: usize)
        requires
            self.wf(),
        ensures
            r as int == column_at(self.toks(), self@),
    {
        match self.peek() {
            Some(t) => t.get_column(),
            None => self.last_column,
        }
    }

    pub fn get_row(&self) -> (r: usize)
        requires
            self.wf(),
        ensures
            r as int == row_at(self.toks(), self@),
    {
        match self.peek() {
            Some(t) => t.get_row(),
            None => self.last_row,
        }
    }

    fn unexpected(&self, msg: &str) -> (r: ParsingError)
        requires
            self.wf(),
        ensures
            r@ == unexpected(self.toks(), self@, msg@),
    {
        ParsingError::new_with_message(ParsingErrorKind::UnexpectedCharacter, msg.to_owned(), self.get_row(), self.get_column())
    }

    fn at_separator(&self, sep: SeparatorKind) -> (r: bool)
        requires
            self.wf(),
        ensures
            r == at_kind(self.toks(), self@, Tok::Separator(sep)),
    {
        match self.peek() {
            Some(t) => match t.kind() {
                TokenKind::Separator(s) => *s == sep,
                _ => false,
            },
            None => false,
        }
    }

    fn consume_separator(&mut self, sep: SeparatorKind, msg: &str) -> (r: Result<(), ParsingError>)
        requires
            old(self).wf(),
        ensures
            final(self).wf(),
            final(self).toks() == old(self).toks(),
            match expect(old(self).toks(), old(self)@, Tok::Separator(sep), msg@) {
                Ok(s2) => r is Ok && final(self)@ == s2,
                Err(e) => r matches Err(x) && x@ == e && final(self)@ == old(self)@,
            },
    {
        if self.at_separator(sep) {
            self.skip_token();
            Ok(())
        } else {
            Err(self.unexpected(msg))
        }
    }

    fn consume_assign(&mut self, msg: &str) -> (r: Result<(), ParsingError>)
        requires
            old(self).wf(),
        ensures
            final(self).wf(),
            final(self).toks() == old(self).toks(),
            match expect(old(self).toks(), old(self)@, Tok::Operator(OperatorKind::Assign), msg@) {
                Ok(s2) => r is Ok && final(self)@ == s2,
                Err(e) => r matches Err(x) && x@ == e && final(self)@ == old(self)@,
            },
    {
        let ok = match self.peek() {
            Some(t) => match t.kind() {
                TokenKind::Operator(o) => *o == OperatorKind::Assign,
                _ => false,
            },
            None => false,
        };
        if ok {
            self.skip_token();
            Ok(())
        } else {
            Err(self.unexpected(msg))
        }
    }

    /// Parses a unit: the smallest expression, such as a tag or a constant string.
    pub fn parse_unit(&mut self) -> (r: Result<Option<ActionKind>, ParsingError>)
        requires
            old(self).wf(),
            !(unit_spec(old(self).toks(), old(self)@) is Panic),
        ensures
            final(self).wf(),
            final(self).toks() == old(self).toks(),
            old(self)@.pos <= final(self)@.pos,
            parsed_opt(unit_spec(old(self).toks(), old(self)@), r, final(self)@),
    {
        match self.try_parse_unit() {
            Some(r) => r,
            None => unreached(),
        }
    }

    /// As `parse_unit`, but nothing where the parser would panic.
    fn try_parse_unit(&mut self) -> (r: Option<Result<Option<ActionKind>, ParsingError>>)
        requires
            old(self).wf(),
        ensures
            final(self).wf(),
            final(self).toks() == old(self).toks(),
            old(self)@.pos <= final(self)@.pos,
            tried_opt(unit_spec(old(self).toks(), old(self)@), r, final(self)@),
        decreases remaining(old(self).toks(), old(self)@), 5int,
    {
        let t = match self.peek() {
            None => return Some(Err(self.unexpected("Expected an expression"))),
            Some(t) => t,
        };
        match t.kind() {
            TokenKind::Identifier(_) => match self.try_parse_call() {
                None => None,
                Some(Ok(a)) => Some(Ok(Some(a))),
                Some(Err(e)) => Some(Err(e)),
            },
            TokenKind::Variable(name) => {
                let n = name.clone();
                self.next();
                Some(Ok(Some(ActionKind::GetVariable(n))))
            },
            TokenKind::StringConst(s) => {
                let c = s.clone();
                self.next();
                Some(Ok(Some(ActionKind::ConstString(c))))
            },
            TokenKind::Function(_) => self.try_parse_user_function_call(),
            _ => Some(Ok(None)),
        }
    }

    /// Parses a named argument `name = unit`.
    pub fn parse_argument(&mut self) -> (r: Result<Option<(String, ActionKind)>, ParsingError>)
        requires
            old(self).wf(),
            !(argument_spec(old(self).toks(), old(self)@) is Panic),
        ensures
            final(self).wf(),
            final(self).toks() == old(self).toks(),
            old(self)@.pos <= final(self)@.pos,
            parsed_arg(argument_spec(old(self).toks(), old(self)@), r, final(self)@),
    {
        match self.try_parse_argument() {
            Some(r) => r,
            None => unreached(),
        }
    }

    /// Parses a named argument; nothing where a unit is missing after `=`.
    fn try_parse_argument(&mut self) -> (r: Option<Result<Option<(String, ActionKind)>, ParsingError>>)
        requires
            old(self).wf(),
        ensures
            final(self).wf(),
            final(self).toks() == old(self).toks(),
            old(self)@.pos <= final(self)@.pos,
            r matches Some(Ok(Some(_))) ==> old(self)@.pos < final(self)@.pos,
            tried_arg(argument_spec(old(self).toks(), old(self)@), r, final(self)@),
        decreases remaining(old(self).toks(), old(self)@), 1int,
    {
        let arg_name = match self.try_get_as_token_id() {
            Some(n) => n.clone(),
            None => return Some(Ok(None)),
        };
        self.next();
        match self.consume_assign("Expected '='") {
            Err(e) => return Some(Err(e)),
            Ok(()) => {},
        }
        match self.try_parse_unit() {
            None => None,
            Some(Err(e)) => Some(Err(e)),
            Some(Ok(Some(a))) => Some(Ok(Some((arg_name, a)))),
            Some(Ok(None)) => None,
        }
    }

    pub fn get_binary_operation_priority(&self) -> (r: i32)
        requires
            self.wf(),
        ensures
            r as int == priority_at(self.toks(), self@),
    {
        match self.peek() {
            Some(t) => t.get_priority(),
            None => -1,
        }
    }

    /// Parses the operators and right operands that follow `left`, as long as the operators
    /// have at least the given priority.
    pub fn parse_binary_right_side(&mut self, priority: i32, left: ActionKind) -> (r: Result<Option<ActionKind>, ParsingError>)
        requires
            old(self).wf(),
            !(binary_right_spec(old(self).toks(), old(self)@, priority as int, act_of(left)) is Panic),
        ensures
            final(self).wf(),
            final(self).toks() == old(self).toks(),
            old(self)@.pos <= final(self)@.pos,
            parsed_opt(binary_right_spec(old(self).toks(), old(self)@, priority as int, act_of(left)), r, final(self)@),
    {
        match self.try_parse_binary_right_side(priority, left) {
            Some(r) => r,
            None => unreached(),
        }
    }

    /// As `parse_binary_right_side`, but nothing where the parser would panic.
    fn try_parse_binary_right_side(&mut self, priority: i32, left: ActionKind) -> (r: Option<Result<Option<ActionKind>, ParsingError>>)
        requires
            old(self).wf(),
        ensures
            final(self).wf(),
            final(self).toks() == old(self).toks(),
            old(self)@.pos <= final(self)@.pos,
            tried_opt(binary_right_spec(old(self).toks(), old(self)@, priority as int, act_of(left)), r, final(self)@),
        decreases remaining(old(self).toks(), old(self)@), 4int,
    {
        let ghost toks = self.toks();
        let ghost st0 = self@;
        let ghost goal = binary_right_spec(toks, st0, priority as int, act_of(left));
        let mut acc = left;
        loop
            invariant
                self.wf(),
                self.toks() == toks,
                st0.pos <= self@.pos,
                goal == binary_right_spec(toks, self@, priority as int, act_of(acc)),
                st0 == old(self)@,
                toks == old(self).toks(),
                goal == binary_right_spec(old(self).toks(), old(self)@, priority as int, act_of(left)),
            decreases remaining(toks, self@),
        {
            let ghost st = self@;
            let tok_priority = self.get_binary_operation_priority();
            if tok_priority < priority {
                return Some(Ok(Some(acc)));
            }
            let op = match self.peek() {
                Some(t) => match t.kind() {
                    TokenKind::Operator(o) => *o,
                    _ => return Some(Err(self.unexpected("Expected an operator"))),
                },
                None => return Some(Err(self.unexpected("Expected an operator"))),
            };
            self.next();
            let right_val = match self.try_parse_unit() {
                None => return None,
                Some(Err(e)) => return Some(Err(e)),
                Some(Ok(None)) => return Some(Ok(None)),
                Some(Ok(Some(rv))) => rv,
            };
            let next_priority = self.get_binary_operation_priority();
            let right_final = if tok_priority < next_priority {
                match self.try_parse_binary_right_side(tok_priority + 1, right_val) {
                    None => return None,
                    Some(Err(e)) => return Some(Err(e)),
                    Some(Ok(None)) => return Some(Ok(None)),
                    Some(Ok(Some(rn))) => rn,
                }
            } else {
                right_val
            };
            acc = ActionKind::BinaryOperation { op, left: Box::new(acc), right: Box::new(right_final) };
        }
    }

    /// Parses an expression: a unit and the operators that follow it.
    pub fn parse_expression(&mut self) -> (r: Result<Option<ActionKind>, ParsingError>)
        requires
            old(self).wf(),
            !(expression_spec(old(self).toks(), old(self)@) is Panic),
        ensures
            final(self).wf(),
            final(self).toks() == old(self).toks(),
            old(self)@.pos <= final(self)@.pos,
            parsed_opt(expression_spec(old(self).toks(), old(self)@), r, final(self)@),
    {
        match self.try_parse_expression() {
            Some(r) => r,
            None => unreached(),
        }
    }

    /// As `parse_expression`, but nothing where the parser would panic.
    fn try_parse_expression(&mut self) -> (r: Option<Result<Option<ActionKind>, ParsingError>>)
        requires
            old(self).wf(),
        ensures
            final(self).wf(),
            final(self).toks() == old(self).toks(),
            old(self)@.pos <= final(self)@.pos,
            tried_opt(expression_spec(old(self).toks(), old(self)@), r, final(self)@),
        decreases remaining(old(self).toks(), old(self)@), 6int,
    {
        match self.try_parse_unit() {
            None => None,
            Some(Err(e)) => Some(Err(e)),
            Some(Ok(None)) => Some(Ok(None)),
            Some(Ok(Some(left))) => self.try_parse_binary_right_side(0, left),
        }
    }

    /// Parses arguments of a call, each followed by a comma but the last; nothing where the
    /// parser would panic.
    fn try_parse_call_arguments(&mut self) -> (r: Option<Result<Vec<(String, ActionKind)>, ParsingError>>)
        requires
            old(self).wf(),
        ensures
            final(self).wf(),
            final(self).toks() == old(self).toks(),
            old(self)@.pos <= final(self)@.pos,
            tried_args(call_args_spec(old(self).toks(), old(self)@, Seq::empty()), r, final(self)@),
        decreases remaining(old(self).toks(), old(self)@), 2int,
    {
        let ghost toks = self.toks();
        let ghost st0 = self@;
        let ghost goal = call_args_spec(toks, st0, Seq::empty());
        let mut arguments: Vec<(String, ActionKind)> = Vec::new();
        assert(args_of(arguments@) =~= Seq::<(Seq<char>, Act)>::empty());
        loop
            invariant
                self.wf(),
                self.toks() == toks,
                st0.pos <= self@.pos,
                goal == call_args_spec(toks, self@, args_of(arguments@)),
                st0 == old(self)@,
                toks == old(self).toks(),
                goal == call_args_spec(old(self).toks(), old(self)@, Seq::empty()),
            decreases remaining(toks, self@),
        {
            match self.try_parse_argument() {
                None => return None,
                Some(Err(e)) => return Some(Err(e)),
                Some(Ok(None)) => return Some(Ok(arguments)),
                Some(Ok(Some((arg, act)))) => {
                    let ghost before = arguments@;
                    proof {
                        lemma_insert_arg(before, arg, act);
                    }
                    assoc_insert(&mut arguments, arg, act);
                    if !self.at_separator(SeparatorKind::Comma) {
                        return Some(Ok(arguments));
                    }
                },
            }
        }
    }

    /// Parses a call of a user function `%name(arguments)`.
    pub fn parse_user_function_call(&mut self) -> (r: Result<Option<ActionKind>, ParsingError>)
        requires
            old(self).wf(),
            !(user_call_spec(old(self).toks(), old(self)@) is Panic),
        ensures
            final(self).wf(),
            final(self).toks() == old(self).toks(),
            old(self)@.pos <= final(self)@.pos,
            parsed_opt(user_call_spec(old(self).toks(), old(self)@), r, final(self)@),
    {
        match self.try_parse_user_function_call() {
            Some(r) => r,
            None => unreached(),
        }
    }

    /// As `parse_user_function_call`, but nothing where the parser would panic.
    fn try_parse_user_function_call(&mut self) -> (r: Option<Result<Option<ActionKind>, ParsingError>>)
        requires
            old(self).wf(),
        ensures
            final(self).wf(),
            final(self).toks() == old(self).toks(),
            old(self)@.pos <= final(self)@.pos,
            tried_opt(user_call_spec(old(self).toks(), old(self)@), r, final(self)@),
        decreases remaining(old(self).toks(), old(self)@), 3int,
    {
        let name = match self.peek() {
            Some(t) => match t.kind() {
                TokenKind::Function(n) => n.clone(),
                _ => return Some(Ok(None)),
            },
            None => return Some(Ok(None)),
        };
        self.next();
        match self.consume_separator(SeparatorKind::BracketOpen, "Expected '('") {
            Err(e) => return Some(Err(e)),
            Ok(()) => {},
        }
        let arguments = match self.try_parse_call_arguments() {
            None => return None,
            Some(Err(e)) => return Some(Err(e)),
            Some(Ok(a)) => a,
        };
        match self.consume_separator(SeparatorKind::BracketClose, "Expected ')'") {
            Err(e) => return Some(Err(e)),
            Ok(()) => {},
        }
        Some(Ok(Some(ActionKind::UserFunctionCall { function_name: name, arguments })))
    }

    /// Parses a declaration of a user function `def name(parameters) { body }`.
    pub fn parse_function_definition(&mut self) -> (r: Result<Option<ActionKind>, ParsingError>)
        requires
            old(self).wf(),
            !(definition_spec(old(self).toks(), old(self)@) is Panic),
        ensures
            final(self).wf(),
            final(self).toks() == old(self).toks(),
            old(self)@.pos <= final(self)@.pos,
            parsed_opt(definition_spec(old(self).toks(), old(self)@), r, final(self)@),
    {
        match self.try_parse_function_definition() {
            Some(r) => r,
            None => unreached(),
        }
    }

    /// As `parse_function_definition`, but nothing where the parser would panic.
    fn try_parse_function_definition(&mut self) -> (r: Option<Result<Option<ActionKind>, ParsingError>>)
        requires
            old(self).wf(),
        ensures
            final(self).wf(),
            final(self).toks() == old(self).toks(),
            old(self)@.pos <= final(self)@.pos,
            tried_opt(definition_spec(old(self).toks(), old(self)@), r, final(self)@),
        decreases remaining(old(self).toks(), old(self)@), 6int,
    {
        let is_def = match self.peek() {
            Some(t) => match t.kind() {
                TokenKind::Keyword(k) => *k == KeywordKind::Function,
                _ => false,
            },
            None => false,
        };
        if !is_def {
            return Some(Ok(None));
        }
        self.next();
        let name = match self.try_get_as_token_id() {
            Some(n) => n.clone(),
            None => return Some(Err(self.unexpected("Expected function name"))),
        };
        self.next();
        match self.consume_separator(SeparatorKind::BracketOpen, "Expected '(' for argument declaration") {
            Err(e) => return Some(Err(e)),
            Ok(()) => {},
        }
        let ghost toks = self.toks();
        let ghost s3 = self@;
        let mut args: Vec<String> = Vec::new();
        assert(strings_view(args@) =~= Seq::<Seq<char>>::empty());
        loop
            invariant_except_break
                decl_args(toks, s3, Seq::empty()) == decl_args(toks, self@, strings_view(args@)),
            invariant
                self.wf(),
                self.toks() == toks,
                s3.pos <= self@.pos,
            ensures
                self.wf(),
                self.toks() == toks,
                s3.pos <= self@.pos,
                decl_args(toks, s3, Seq::empty()) == (strings_view(args@), self@),
            decreases remaining(toks, self@),
        {
            let a = match self.try_get_as_token_id() {
                Some(a) => a.clone(),
                None => break,
            };
            let ghost before = args@;
            args.push(a);
            assert(strings_view(args@) =~= strings_view(before).push(a@));
            self.next();
            if !self.at_separator(SeparatorKind::Comma) {
                break;
            }
        }
        match self.consume_separator(SeparatorKind::BracketClose, "Expected ')' for argument declaration") {
            Err(e) => return Some(Err(e)),
            Ok(()) => {},
        }
        match self.consume_separator(SeparatorKind::BlockOpen, "Expected '{'") {
            Err(e) => return Some(Err(e)),
            Ok(()) => {},
        }
        let body = match self.try_parse_body() {
            None => return None,
            Some(Err(e)) => return Some(Err(e)),
            Some(Ok(b)) => b,
        };
        match self.consume_separator(SeparatorKind::BlockClose, "Expected '}'") {
            Err(e) => return Some(Err(e)),
            Ok(()) => {},
        }
        Some(Ok(Some(ActionKind::UserFunctionDeclaration { function_name: name, arguments: args, body: Rc::new(body) })))
    }

    /// Parses a statement that can stand in a body: an expression or a declaration.
    pub fn parse_sequence_unit(&mut self) -> (r: Result<Option<ActionKind>, ParsingError>)
        requires
            old(self).wf(),
            !(sequence_unit_spec(old(self).toks(), old(self)@) is Panic),
        ensures
            final(self).wf(),
            final(self).toks() == old(self).toks(),
            old(self)@.pos <= final(self)@.pos,
            parsed_opt(sequence_unit_spec(old(self).toks(), old(self)@), r, final(self)@),
    {
        match self.try_parse_sequence_unit() {
            Some(r) => r,
            None => unreached(),
        }
    }

    /// As `parse_sequence_unit`, but nothing where the parser would panic.
    fn try_parse_sequence_unit(&mut self) -> (r: Option<Result<Option<ActionKind>, ParsingError>>)
        requires
            old(self).wf(),
        ensures
            final(self).wf(),
            final(self).toks() == old(self).toks(),
            old(self)@.pos <= final(self)@.pos,
            tried_opt(sequence_unit_spec(old(self).toks(), old(self)@), r, final(self)@),
        decreases remaining(old(self).toks(), old(self)@), 7int,
    {
        match self.try_parse_expression() {
            None => None,
            Some(Err(e)) => Some(Err(e)),
            Some(Ok(Some(act))) => Some(Ok(Some(act))),
            Some(Ok(None)) => self.try_parse_function_definition(),
        }
    }

    /// Parses statements, each followed by `;`, up to a `}` or the end of the tokens.
    pub fn parse_body(&mut self) -> (r: Result<ActionKind, ParsingError>)
        requires
            old(self).wf(),
            !(body_spec(old(self).toks(), old(self)@) is Panic),
        ensures
            final(self).wf(),
            final(self).toks() == old(self).toks(),
            old(self)@.pos <= final(self)@.pos,
            parsed_act(body_spec(old(self).toks(), old(self)@), r, final(self)@),
    {
        match self.try_parse_body() {
            Some(r) => r,
            None => unreached(),
        }
    }

    /// Parses a body as `parse_body` does, but gives nothing, in place of the panic of the
    /// parser, where an argument has no unit after its `=`.
    pub fn try_parse_body(&mut self) -> (r: Option<Result<ActionKind, ParsingError>>)
        requires
            old(self).wf(),
        ensures
            final(self).wf(),
            final(self).toks() == old(self).toks(),
            old(self)@.pos <= final(self)@.pos,
            tried_act(body_spec(old(self).toks(), old(self)@), r, final(self)@),
        decreases remaining(old(self).toks(), old(self)@), 9int,
    {
        let ghost toks = self.toks();
        let ghost st0 = self@;
        let ghost goal = body_items_spec(toks, st0, Seq::empty());
        let mut sequence: Vec<ActionKind> = Vec::new();
        assert(acts_of(sequence@) =~= Seq::<Act>::empty());
        loop
            invariant
                self.wf(),
                self.toks() == toks,
                st0.pos <= self@.pos,
                goal == body_items_spec(toks, self@, acts_of(sequence@)),
                st0 == old(self)@,
                toks == old(self).toks(),
                goal == body_items_spec(old(self).toks(), old(self)@, Seq::empty()),
            decreases remaining(toks, self@),
        {
            let act = match self.try_parse_sequence_unit() {
                None => return None,
                Some(Err(e)) => return Some(Err(e)),
                Some(Ok(None)) => return Some(Ok(ActionKind::Sequence(sequence))),
                Some(Ok(Some(a))) => a,
            };
            match self.consume_separator(SeparatorKind::Semicolon, "Expected ';' after the end of the expression") {
                Err(e) => return Some(Err(e)),
                Ok(()) => {},
            }
            let ghost before = sequence@;
            sequence.push(act);
            assert(sequence@.drop_last() =~= before);
            if self.at_separator(SeparatorKind::BlockClose) || self.peek().is_none() {
                return Some(Ok(ActionKind::Sequence(sequence)));
            }
        }
    }

    /// Parses a tag `name(argument) { body }`.
    pub fn parse_call(&mut self) -> (r: Result<ActionKind, ParsingError>)
        requires
            old(self).wf(),
            !(call_spec(old(self).toks(), old(self)@) is Panic),
        ensures
            final(self).wf(),
            final(self).toks() == old(self).toks(),
            old(self)@.pos <= final(self)@.pos,
            parsed_act(call_spec(old(self).toks(), old(self)@), r, final(self)@),
    {
        match self.try_parse_call() {
            Some(r) => r,
            None => unreached(),
        }
    }

    /// As `parse_call`, but nothing where the parser would panic.
    fn try_parse_call(&mut self) -> (r: Option<Result<ActionKind, ParsingError>>)
        requires
            old(self).wf(),
        ensures
            final(self).wf(),
            final(self).toks() == old(self).toks(),
            old(self)@.pos <= final(self)@.pos,
            tried_act(call_spec(old(self).toks(), old(self)@), r, final(self)@),
        decreases remaining(old(self).toks(), old(self)@), 3int,
    {
        let id = match self.try_get_as_token_id() {
            Some(n) => n.clone(),
            None => return Some(Err(self.unexpected("Expected function name"))),
        };
        self.next();
        match self.consume_separator(SeparatorKind::BracketOpen, "Expected '('") {
            Err(e) => return Some(Err(e)),
            Ok(()) => {},
        }
        let arguments = match self.try_parse_call_arguments() {
            None => return None,
            Some(Err(e)) => return Some(Err(e)),
            Some(Ok(a)) => a,
        };
        match self.consume_separator(SeparatorKind::BracketClose, "Expected ')'") {
            Err(e) => return Some(Err(e)),
            Ok(()) => {},
        }
        match self.consume_separator(SeparatorKind::BlockOpen, "Expected '{'") {
            Err(e) => return Some(Err(e)),
            Ok(()) => {},
        }
        let body = match self.try_parse_body() {
            None => return None,
            Some(Err(e)) => return Some(Err(e)),
            Some(Ok(b)) => b,
        };
        match self.consume_separator(SeparatorKind::BlockClose, "Expected '}'") {
            Err(e) => return Some(Err(e)),
            Ok(()) => {},
        }
        Some(Ok(ActionKind::Function { tag_name: id, arguments, body: Some(Box::new(body)) }))
    }
}

} // verus!
