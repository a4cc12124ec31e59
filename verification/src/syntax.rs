//! The tokens that write a syntax tree, and the law that the parser reads them back.
//!
//! Not every tree can be written so that the parser reads it back: a call or a declaration
//! takes at most one argument (the parser stops at the comma after the first one), an
//! operator chain is a left-nested chain of `@`, and a tag always has a body. The `*_form`
//! predicates describe the trees that can.

use vstd::prelude::*;

use crate::lexer::{KeywordKind, OperatorKind, SeparatorKind, Tok, TokenModel};
use crate::model::Act;
use crate::parser::{
    advance, argument_spec, at_kind, binary_right_spec, body_items_spec, body_spec, call_args_spec,
    call_spec, cur_tok, decl_args, definition_spec, expect, expression_spec, first_key, insert_arg,
    priority_at, remaining, sequence_unit_spec, skip, unit_spec, user_call_spec, PState, Step,
};

verus! {

/// The token of a separator.
pub open spec fn sep(s: SeparatorKind) -> Tok {
    Tok::Separator(s)
}

/// The kinds of the tokens that write a tree.
pub open spec fn tokens_of(a: Act) -> Seq<Tok>
    decreases a, 0int,
{
    match a {
        Act::ConstString(s) => seq![Tok::StringConst(s)],
        Act::GetVariable(n) => seq![Tok::Variable(n)],
        Act::Function { tag_name, arguments, body } => seq![Tok::Identifier(tag_name), sep(SeparatorKind::BracketOpen)]
            + args_tokens(arguments) + seq![sep(SeparatorKind::BracketClose), sep(SeparatorKind::BlockOpen)]
            + match body {
                Some(b) => tokens_of(*b),
                None => Seq::empty(),
            } + seq![sep(SeparatorKind::BlockClose)],
        Act::UserFunctionCall { function_name, arguments } => seq![Tok::Function(function_name), sep(SeparatorKind::BracketOpen)]
            + args_tokens(arguments) + seq![sep(SeparatorKind::BracketClose)],
        Act::BinaryOperation { op, left, right } => tokens_of(*left) + seq![Tok::Operator(op)] + tokens_of(*right),
        Act::UserFunctionDeclaration { function_name, arguments, body } => seq![
            Tok::Keyword(KeywordKind::Function),
            Tok::Identifier(function_name),
            sep(SeparatorKind::BracketOpen),
        ] + params_tokens(arguments) + seq![sep(SeparatorKind::BracketClose), sep(SeparatorKind::BlockOpen)]
            + tokens_of(*body) + seq![sep(SeparatorKind::BlockClose)],
        Act::Sequence(items) => items_tokens(items),
    }
}

/// The tokens of named arguments `name = value`, separated by commas.
pub open spec fn args_tokens(s: Seq<(Seq<char>, Act)>) -> Seq<Tok>
    decreases s, 1int,
{
    if s.len() == 0 {
        Seq::empty()
    } else if s.len() == 1 {
        seq![Tok::Identifier(s[0].0), Tok::Operator(OperatorKind::Assign)] + tokens_of(s[0].1)
    } else {
        seq![Tok::Identifier(s[0].0), Tok::Operator(OperatorKind::Assign)] + tokens_of(s[0].1) + seq![
            sep(SeparatorKind::Comma),
        ] + args_tokens(s.subrange(1, s.len() as int))
    }
}

/// The tokens of parameter names, separated by commas.
pub open spec fn params_tokens(s: Seq<Seq<char>>) -> Seq<Tok>
    decreases s.len(),
{
    if s.len() == 0 {
        Seq::empty()
    } else if s.len() == 1 {
        seq![Tok::Identifier(s[0])]
    } else {
        seq![Tok::Identifier(s[0]), sep(SeparatorKind::Comma)] + params_tokens(s.subrange(1, s.len() as int))
    }
}

/// The tokens of statements, each followed by `;`.
pub open spec fn items_tokens(s: Seq<Act>) -> Seq<Tok>
    decreases s, 1int,
{
    if s.len() == 0 {
        Seq::empty()
    } else {
        tokens_of(s[0]) + seq![sep(SeparatorKind::Semicolon)] + items_tokens(s.subrange(1, s.len() as int))
    }
}

/// A unit that can be read back: a string, a variable, a tag with a body, or a call of a
/// user function, with at most one argument whose value is such a unit.
pub open spec fn unit_form(a: Act) -> bool
    decreases a, 0int,
{
    match a {
        Act::ConstString(_) => true,
        Act::GetVariable(_) => true,
        Act::Function { tag_name, arguments, body } => args_form(arguments) && match body {
            Some(b) => body_form(*b),
            None => false,
        },
        Act::UserFunctionCall { function_name, arguments } => args_form(arguments),
        _ => false,
    }
}

/// At most one argument, whose value is a unit that can be read back.
pub open spec fn args_form(s: Seq<(Seq<char>, Act)>) -> bool
    decreases s, 0int,
{
    s.len() == 0 || (s.len() == 1 && unit_form(s[0].1))
}

/// An expression that can be read back: a unit, or a chain of `@` nested to the left.
pub open spec fn expr_form(a: Act) -> bool
    decreases a, 1int,
{
    unit_form(a) || match a {
        Act::BinaryOperation { op, left, right } => op == OperatorKind::StringConcat && expr_form(*left)
            && unit_form(*right),
        _ => false,
    }
}

/// A statement that can be read back: such an expression, or a declaration with at most one
/// parameter and such a body.
pub open spec fn stmt_form(a: Act) -> bool
    decreases a, 2int,
{
    expr_form(a) || match a {
        Act::UserFunctionDeclaration { function_name, arguments, body } => arguments.len() <= 1 && body_form(*body),
        _ => false,
    }
}

/// A body that can be read back: a sequence of such statements.
pub open spec fn body_form(a: Act) -> bool
    decreases a, 0int,
{
    match a {
        Act::Sequence(items) => items_form(items),
        _ => false,
    }
}

/// Statements that can be read back.
pub open spec fn items_form(s: Seq<Act>) -> bool
    decreases s, 0int,
{
    s.len() == 0 || (stmt_form(s[0]) && items_form(s.subrange(1, s.len() as int)))
}

/// The tokens from position `p` on have the kinds `ts`.
pub open spec fn matches_at(toks: Seq<TokenModel>, p: int, ts: Seq<Tok>) -> bool {
    &&& 0 <= p
    &&& p + ts.len() <= toks.len()
    &&& forall|i: int| 0 <= i < ts.len() ==> toks[p + i].kind == #[trigger] ts[i]
}

/// The first operand of a chain of operators.
pub open spec fn leftmost(a: Act) -> Act
    decreases a,
{
    match a {
        Act::BinaryOperation { op, left, right } => leftmost(*left),
        _ => a,
    }
}

proof fn lemma_split(toks: Seq<TokenModel>, p: int, x: Seq<Tok>, y: Seq<Tok>)
    requires
        matches_at(toks, p, x + y),
    ensures
        matches_at(toks, p, x),
        matches_at(toks, p + x.len(), y),
{
    assert forall|i: int| 0 <= i < x.len() implies toks[p + i].kind == #[trigger] x[i] by {
        assert((x + y)[i] == x[i]);
    }
    assert forall|i: int| 0 <= i < y.len() implies toks[p + x.len() + i].kind == #[trigger] y[i] by {
        assert((x + y)[x.len() + i] == y[i]);
    }
}

proof fn lemma_first(toks: Seq<TokenModel>, st: PState, ts: Seq<Tok>)
    requires
        matches_at(toks, st.pos, ts),
        ts.len() > 0,
    ensures
        cur_tok(toks, st) == Some(toks[st.pos]),
        toks[st.pos].kind == ts[0],
{
    assert(toks[st.pos + 0].kind == ts[0]);
}

/// A statement is written with at least one token, and the first is not a `}`.
proof fn lemma_stmt_first(a: Act)
    requires
        stmt_form(a),
    ensures
        tokens_of(a).len() > 0,
        tokens_of(a)[0] != sep(SeparatorKind::BlockClose),
    decreases a,
{
    if let Act::BinaryOperation { op, left, right } = a {
        if !unit_form(a) {
            lemma_stmt_first(*left);
            assert(tokens_of(a)[0] == tokens_of(*left)[0]);
        }
    }
}

proof fn lemma_unit(a: Act, toks: Seq<TokenModel>, st: PState) -> (s2: PState)
    requires
        unit_form(a),
        matches_at(toks, st.pos, tokens_of(a)),
    ensures
        unit_spec(toks, st) == Step::Done(Some(a), s2),
        s2.pos == st.pos + tokens_of(a).len(),
    decreases a, 5int,
{
    lemma_first(toks, st, tokens_of(a));
    match a {
        Act::Function { tag_name, arguments, body } => lemma_call(a, toks, st),
        Act::UserFunctionCall { function_name, arguments } => lemma_user_call(a, toks, st),
        _ => advance(toks, st),
    }
}

proof fn lemma_call_args(args: Seq<(Seq<char>, Act)>, toks: Seq<TokenModel>, st: PState) -> (s: PState)
    requires
        args_form(args),
        matches_at(toks, st.pos, args_tokens(args) + seq![sep(SeparatorKind::BracketClose)]),
    ensures
        call_args_spec(toks, st, Seq::empty()) == Step::Done(args, s),
        s.pos == st.pos + args_tokens(args).len(),
    decreases args, 3int,
{
    let ts = args_tokens(args);
    lemma_split(toks, st.pos, ts, seq![sep(SeparatorKind::BracketClose)]);
    let close = PState { pos: st.pos + ts.len(), ..st };
    lemma_first(toks, close, seq![sep(SeparatorKind::BracketClose)]);
    if args.len() == 0 {
        lemma_first(toks, st, ts + seq![sep(SeparatorKind::BracketClose)]);
        assert((ts + seq![sep(SeparatorKind::BracketClose)])[0] == sep(SeparatorKind::BracketClose));
        assert(args =~= Seq::<(Seq<char>, Act)>::empty());
        st
    } else {
        let k = args[0].0;
        let v = args[0].1;
        let head = seq![Tok::Identifier(k), Tok::Operator(OperatorKind::Assign)];
        assert(ts == head + tokens_of(v));
        lemma_split(toks, st.pos, head, tokens_of(v));
        lemma_first(toks, st, head);
        let s1 = advance(toks, st);
        assert(toks[st.pos + 1].kind == head[1]);
        let s2 = skip(toks, s1);
        assert(expect(toks, s1, Tok::Operator(OperatorKind::Assign), "Expected '='"@) == Ok::<PState, crate::lexer::ErrorModel>(s2));
        let s3 = lemma_unit(v, toks, s2);
        assert(argument_spec(toks, st) == Step::Done(Some((k, v)), s3));
        assert(s3.pos == close.pos);
        assert(!at_kind(toks, s3, Tok::Separator(SeparatorKind::Comma)));
        assert(first_key(Seq::<(Seq<char>, Act)>::empty(), k) == -1);
        assert(insert_arg(Seq::empty(), k, v) =~= args);
        s3
    }
}

proof fn lemma_call(a: Act, toks: Seq<TokenModel>, st: PState) -> (s7: PState)
    requires
        unit_form(a),
        a is Function,
        matches_at(toks, st.pos, tokens_of(a)),
    ensures
        call_spec(toks, st) == Step::Done(a, s7),
        s7.pos == st.pos + tokens_of(a).len(),
    decreases a, 4int,
{
    if let Act::Function { tag_name, arguments, body } = a {
        let b = *body.unwrap();
        let open_ = seq![Tok::Identifier(tag_name), sep(SeparatorKind::BracketOpen)];
        let at = args_tokens(arguments);
        let mid = seq![sep(SeparatorKind::BracketClose), sep(SeparatorKind::BlockOpen)];
        let bt = tokens_of(b);
        let end = seq![sep(SeparatorKind::BlockClose)];
        assert(tokens_of(a) == open_ + at + mid + bt + end);
        let p = st.pos;
        lemma_split(toks, p, open_ + at + mid + bt, end);
        lemma_split(toks, p, open_ + at + mid, bt);
        lemma_split(toks, p, open_ + at, mid);
        lemma_split(toks, p, open_, at);
        lemma_first(toks, st, open_);
        let s1 = advance(toks, st);
        assert(toks[p + 1].kind == open_[1]);
        let s2 = skip(toks, s1);
        assert(matches_at(toks, s2.pos, at + seq![sep(SeparatorKind::BracketClose)])) by {
            assert forall|i: int| 0 <= i < (at + seq![sep(SeparatorKind::BracketClose)]).len() implies toks[s2.pos + i].kind
                == #[trigger] (at + seq![sep(SeparatorKind::BracketClose)])[i] by {
                if i < at.len() {
                    assert(at[i] == (at + seq![sep(SeparatorKind::BracketClose)])[i]);
                } else {
                    assert(mid[0] == (at + seq![sep(SeparatorKind::BracketClose)])[i]);
                }
            }
        }
        let s3 = lemma_call_args(arguments, toks, s2);
        lemma_first(toks, s3, mid);
        let s4 = skip(toks, s3);
        assert(toks[s3.pos + 1].kind == mid[1]);
        let s5 = skip(toks, s4);
        assert(matches_at(toks, s5.pos, bt + end)) by {
            assert forall|i: int| 0 <= i < (bt + end).len() implies toks[s5.pos + i].kind == #[trigger] (bt + end)[i] by {
                if i < bt.len() {
                    assert(bt[i] == (bt + end)[i]);
                } else {
                    assert(end[0] == (bt + end)[i]);
                }
            }
        }
        let s6 = lemma_body(b, toks, s5);
        lemma_first(toks, s6, end);
        let s7 = skip(toks, s6);
        assert(Some(Box::new(b)) == body);
        s7
    } else {
        st
    }
}

proof fn lemma_user_call(a: Act, toks: Seq<TokenModel>, st: PState) -> (s4: PState)
    requires
        unit_form(a),
        a is UserFunctionCall,
        matches_at(toks, st.pos, tokens_of(a)),
    ensures
        user_call_spec(toks, st) == Step::Done(Some(a), s4),
        s4.pos == st.pos + tokens_of(a).len(),
    decreases a, 4int,
{
    if let Act::UserFunctionCall { function_name, arguments } = a {
        let open_ = seq![Tok::Function(function_name), sep(SeparatorKind::BracketOpen)];
        let at = args_tokens(arguments);
        let end = seq![sep(SeparatorKind::BracketClose)];
        assert(tokens_of(a) == open_ + at + end);
        let p = st.pos;
        lemma_split(toks, p, open_ + at, end);
        assert(open_ + at + end == open_ + (at + end));
        lemma_split(toks, p, open_, at + end);
        lemma_first(toks, st, open_);
        let s1 = advance(toks, st);
        assert(toks[p + 1].kind == open_[1]);
        let s2 = skip(toks, s1);
        let s3 = lemma_call_args(arguments, toks, s2);
        lemma_first(toks, s3, end);
        skip(toks, s3)
    } else {
        st
    }
}

/// Reading an expression from its first unit on folds the rest of its operators into it.
proof fn lemma_expr_fold(a: Act, toks: Seq<TokenModel>, st: PState) -> (r: (PState, PState))
    requires
        expr_form(a),
        matches_at(toks, st.pos, tokens_of(a)),
    ensures
        unit_spec(toks, st) == Step::Done(Some(leftmost(a)), r.0),
        st.pos < r.0.pos <= r.1.pos,
        r.1.pos == st.pos + tokens_of(a).len(),
        binary_right_spec(toks, r.0, 0, leftmost(a)) == binary_right_spec(toks, r.1, 0, a),
    decreases a, 6int,
{
    if unit_form(a) {
        lemma_first(toks, st, tokens_of(a));
        let s = lemma_unit(a, toks, st);
        assert(leftmost(a) == a);
        (s, s)
    } else {
        if let Act::BinaryOperation { op, left, right } = a {
            let lt = tokens_of(*left);
            let rt = tokens_of(*right);
            let mid = seq![Tok::Operator(op)];
            assert(tokens_of(a) == lt + mid + rt);
            lemma_split(toks, st.pos, lt + mid, rt);
            lemma_split(toks, st.pos, lt, mid);
            let (s1, sl) = lemma_expr_fold(*left, toks, st);
            lemma_first(toks, sl, mid);
            let s2 = advance(toks, sl);
            let sr = lemma_unit(*right, toks, s2);
            assert(priority_at(toks, sl) == 1);
            assert(priority_at(toks, sr) <= 1);
            assert(binary_right_spec(toks, sl, 0, *left) == binary_right_spec(toks, sr, 0, a));
            (s1, sr)
        } else {
            (st, st)
        }
    }
}

proof fn lemma_expression(a: Act, toks: Seq<TokenModel>, st: PState) -> (s: PState)
    requires
        expr_form(a),
        matches_at(toks, st.pos, tokens_of(a) + seq![sep(SeparatorKind::Semicolon)]),
    ensures
        expression_spec(toks, st) == Step::Done(Some(a), s),
        s.pos == st.pos + tokens_of(a).len(),
    decreases a, 7int,
{
    lemma_split(toks, st.pos, tokens_of(a), seq![sep(SeparatorKind::Semicolon)]);
    let (s1, sa) = lemma_expr_fold(a, toks, st);
    lemma_first(toks, sa, seq![sep(SeparatorKind::Semicolon)]);
    assert(priority_at(toks, sa) == -1);
    sa
}

proof fn lemma_definition(a: Act, toks: Seq<TokenModel>, st: PState) -> (s8: PState)
    requires
        stmt_form(a),
        a is UserFunctionDeclaration,
        matches_at(toks, st.pos, tokens_of(a)),
    ensures
        definition_spec(toks, st) == Step::Done(Some(a), s8),
        s8.pos == st.pos + tokens_of(a).len(),
    decreases a, 4int,
{
    if let Act::UserFunctionDeclaration { function_name, arguments, body } = a {
        let b = *body;
        let open_ = seq![Tok::Keyword(KeywordKind::Function), Tok::Identifier(function_name), sep(SeparatorKind::BracketOpen)];
        let pt = params_tokens(arguments);
        let mid = seq![sep(SeparatorKind::BracketClose), sep(SeparatorKind::BlockOpen)];
        let bt = tokens_of(b);
        let end = seq![sep(SeparatorKind::BlockClose)];
        assert(tokens_of(a) == open_ + pt + mid + bt + end);
        let p = st.pos;
        lemma_split(toks, p, open_ + pt + mid + bt, end);
        lemma_split(toks, p, open_ + pt + mid, bt);
        lemma_split(toks, p, open_ + pt, mid);
        lemma_split(toks, p, open_, pt);
        lemma_first(toks, st, open_);
        let s1 = advance(toks, st);
        assert(toks[p + 1].kind == open_[1]);
        let s2 = advance(toks, s1);
        assert(toks[p + 2].kind == open_[2]);
        let s3 = skip(toks, s2);
        let s4 = PState { pos: s3.pos + pt.len(), ..s3 };
        lemma_first(toks, s4, mid);
        if arguments.len() == 0 {
            assert(decl_args(toks, s3, Seq::empty()) == (arguments, s3)) by {
                assert(arguments =~= Seq::<Seq<char>>::empty());
            }
        } else {
            lemma_first(toks, s3, pt);
            let s3a = advance(toks, s3);
            assert(!at_kind(toks, s3a, Tok::Separator(SeparatorKind::Comma)));
            assert(Seq::<Seq<char>>::empty().push(arguments[0]) =~= arguments);
            assert(decl_args(toks, s3, Seq::empty()) == (arguments, s3a));
        }
        let s4b = decl_args(toks, s3, Seq::empty()).1;
        assert(s4b.pos == s4.pos);
        lemma_first(toks, s4b, mid);
        let s5 = skip(toks, s4b);
        assert(toks[s4b.pos + 1].kind == mid[1]);
        let s6 = skip(toks, s5);
        assert(matches_at(toks, s6.pos, bt + end)) by {
            assert forall|i: int| 0 <= i < (bt + end).len() implies toks[s6.pos + i].kind == #[trigger] (bt + end)[i] by {
                if i < bt.len() {
                    assert(bt[i] == (bt + end)[i]);
                } else {
                    assert(end[0] == (bt + end)[i]);
                }
            }
        }
        let s7 = lemma_body(b, toks, s6);
        lemma_first(toks, s7, end);
        skip(toks, s7)
    } else {
        st
    }
}

proof fn lemma_stmt(a: Act, toks: Seq<TokenModel>, st: PState) -> (s: PState)
    requires
        stmt_form(a),
        matches_at(toks, st.pos, tokens_of(a) + seq![sep(SeparatorKind::Semicolon)]),
    ensures
        sequence_unit_spec(toks, st) == Step::Done(Some(a), s),
        s.pos == st.pos + tokens_of(a).len(),
    decreases a, 8int,
{
    if expr_form(a) {
        lemma_expression(a, toks, st)
    } else {
        lemma_split(toks, st.pos, tokens_of(a), seq![sep(SeparatorKind::Semicolon)]);
        lemma_first(toks, st, tokens_of(a));
        assert(unit_spec(toks, st) == Step::<Option<Act>>::Done(None, st));
        assert(expression_spec(toks, st) == Step::<Option<Act>>::Done(None, st));
        lemma_definition(a, toks, st)
    }
}

proof fn lemma_items(items: Seq<Act>, toks: Seq<TokenModel>, st: PState, acc: Seq<Act>) -> (s: PState)
    requires
        items_form(items),
        items.len() >= 1,
        matches_at(toks, st.pos, items_tokens(items)),
        st.pos + items_tokens(items).len() == toks.len() || toks[st.pos + items_tokens(items).len()].kind == sep(
            SeparatorKind::BlockClose,
        ),
    ensures
        body_items_spec(toks, st, acc) == Step::Done(acc + items, s),
        s.pos == st.pos + items_tokens(items).len(),
    decreases items, 9int,
{
    let first = tokens_of(items[0]);
    let semi = seq![sep(SeparatorKind::Semicolon)];
    let rest = items.subrange(1, items.len() as int);
    assert(items_tokens(items) == first + semi + items_tokens(rest));
    lemma_split(toks, st.pos, first + semi, items_tokens(rest));
    let s1 = lemma_stmt(items[0], toks, st);
    lemma_split(toks, st.pos, first, semi);
    lemma_first(toks, s1, semi);
    let s2 = skip(toks, s1);
    assert(expect(toks, s1, Tok::Separator(SeparatorKind::Semicolon), "Expected ';' after the end of the expression"@)
        == Ok::<PState, crate::lexer::ErrorModel>(s2));
    if items.len() == 1 {
        assert(acc.push(items[0]) =~= acc + items);
        assert(items_tokens(rest) =~= Seq::<Tok>::empty());
        s2
    } else {
        assert(items_form(rest));
        assert(stmt_form(rest[0]));
        lemma_stmt_first(rest[0]);
        assert(items_tokens(rest) == tokens_of(rest[0]) + semi + items_tokens(rest.subrange(1, rest.len() as int)));
        assert(items_tokens(rest)[0] == tokens_of(rest[0])[0]);
        lemma_first(toks, s2, items_tokens(rest));
        let s = lemma_items(rest, toks, s2, acc.push(items[0]));
        assert(acc.push(items[0]) + rest =~= acc + items);
        s
    }
}

proof fn lemma_body(b: Act, toks: Seq<TokenModel>, st: PState) -> (s: PState)
    requires
        body_form(b),
        matches_at(toks, st.pos, tokens_of(b) + seq![sep(SeparatorKind::BlockClose)]),
    ensures
        body_spec(toks, st) == Step::Done(b, s),
        s.pos == st.pos + tokens_of(b).len(),
    decreases b, 10int,
{
    if let Act::Sequence(items) = b {
        lemma_split(toks, st.pos, tokens_of(b), seq![sep(SeparatorKind::BlockClose)]);
        let close = PState { pos: st.pos + tokens_of(b).len(), ..st };
        lemma_first(toks, close, seq![sep(SeparatorKind::BlockClose)]);
        if items.len() == 0 {
            assert(items =~= Seq::<Act>::empty());
            assert(items_tokens(items) =~= Seq::<Tok>::empty());
            assert(tokens_of(b).len() == 0);
            lemma_first(toks, st, seq![sep(SeparatorKind::BlockClose)]);
            assert(unit_spec(toks, st) == Step::<Option<Act>>::Done(None, st));
            assert(expression_spec(toks, st) == Step::<Option<Act>>::Done(None, st));
            assert(definition_spec(toks, st) == Step::<Option<Act>>::Done(None, st));
            assert(sequence_unit_spec(toks, st) == Step::<Option<Act>>::Done(None, st));
            st
        } else {
            let s = lemma_items(items, toks, st, Seq::empty());
            assert(Seq::<Act>::empty() + items =~= items);
            s
        }
    } else {
        st
    }
}

/// The parser reads back the tokens that write a body: where the tokens from `st` on are
/// those of a body that can be read back, followed by the end of the tokens (the body then
/// has a statement) or by a `}`, parsing a body there gives that body and stops right after
/// its tokens.
pub proof fn law_printed_body_parses(b: Act, toks: Seq<TokenModel>, st: PState)
    requires
        body_form(b),
        matches_at(toks, st.pos, tokens_of(b)),
        (st.pos + tokens_of(b).len() == toks.len() && b->Sequence_0.len() > 0) || (st.pos + tokens_of(b).len()
            < toks.len() && toks[st.pos + tokens_of(b).len()].kind == sep(SeparatorKind::BlockClose)),
    ensures
        body_spec(toks, st) matches Step::Done(x, s) && x == b && s.pos == st.pos + tokens_of(b).len(),
{
    if st.pos + tokens_of(b).len() < toks.len() {
        assert(matches_at(toks, st.pos, tokens_of(b) + seq![sep(SeparatorKind::BlockClose)])) by {
            let t = tokens_of(b) + seq![sep(SeparatorKind::BlockClose)];
            assert forall|i: int| 0 <= i < t.len() implies toks[st.pos + i].kind == #[trigger] t[i] by {
                if i < tokens_of(b).len() {
                    assert(tokens_of(b)[i] == t[i]);
                }
            }
        }
        lemma_body(b, toks, st);
    } else {
        if let Act::Sequence(items) = b {
            let s = lemma_items(items, toks, st, Seq::empty());
            assert(Seq::<Act>::empty() + items =~= items);
        }
    }
}

} // verus!
