//! Tokens written as text, and the law that the lexer reads them back.
//!
//! A token is written by its text, after a space. Not every token can be read back: names are
//! ASCII names, an identifier must not be read as the keyword `def` (which the lexer takes
//! from the start of a name such as `def_x`), and a string constant holds no quote and no
//! backslash.

use vstd::prelude::*;

use crate::laws::{law_operator_round_trip, law_separator_round_trip};
use crate::lexer::{
    chars_in_bytes, cut_ok, def_word, is_word, lemma_span, lex, lex_panics, lex_start, scan_panics, token_panics, lex_function, lex_keyword, lex_name, lex_operator, lex_prefixed,
    lex_run, lex_separator, lex_string, lex_token, lex_variable, name_span, operator_char, operator_of,
    separator_char, separator_of, skip_ws, special_pair, step, steps, string_scan, ws_span, LexModel,
    Tok,
};
use crate::model::Act;
use crate::parser::Step;
use crate::state::{module_body, start_state};
use crate::syntax::{body_form, law_printed_body_parses, matches_at, tokens_of};
use crate::text::{ascii_digit, ascii_letter, char_alphanumeric, char_whitespace, is_name_char, is_name_start};

verus! {

/// A name of ASCII letters, digits and underscores that does not start with a digit.
pub open spec fn ascii_name(n: Seq<char>) -> bool {
    &&& n.len() > 0
    &&& ascii_letter(n[0]) || n[0] == '_'
    &&& forall|i: int| 0 <= i < n.len() ==> ascii_letter(#[trigger] n[i]) || ascii_digit(n[i]) || n[i] == '_'
}

/// The name starts with the word `def` standing alone, which the lexer reads as the keyword.
pub open spec fn starts_with_def(n: Seq<char>) -> bool {
    &&& n.len() >= 3
    &&& n[0] == 'd' && n[1] == 'e' && n[2] == 'f'
    &&& n.len() == 3 || !(ascii_letter(n[3]) || ascii_digit(n[3]))
}

/// A token that can be written as text and read back.
pub open spec fn writable(t: Tok) -> bool {
    match t {
        Tok::Identifier(n) => ascii_name(n) && !starts_with_def(n),
        Tok::Variable(n) => ascii_name(n),
        Tok::Function(n) => ascii_name(n),
        Tok::StringConst(s) => forall|i: int| 0 <= i < s.len() ==> (#[trigger] s[i] as u32) < 0x80 && s[i] != '"' && s[i] != '\\',
        _ => true,
    }
}

/// The text of a token.
pub open spec fn token_text(t: Tok) -> Seq<char> {
    match t {
        Tok::Identifier(n) => n,
        Tok::Variable(n) => seq!['$'] + n,
        Tok::Function(n) => seq!['%'] + n,
        Tok::StringConst(s) => seq!['"'] + s + seq!['"'],
        Tok::Separator(s) => seq![separator_char(s)],
        Tok::Operator(o) => seq![operator_char(o)],
        Tok::Keyword(_) => def_word(),
    }
}

/// Tokens written as text, each after a space.
pub open spec fn text_of_tokens(ts: Seq<Tok>) -> Seq<char>
    decreases ts.len(),
{
    if ts.len() == 0 {
        Seq::empty()
    } else {
        text_of_tokens(ts.drop_last()) + seq![' '] + token_text(ts.last())
    }
}

/// The text from position `p` on is `w`.
pub open spec fn text_at(code: Seq<char>, p: int, w: Seq<char>) -> bool {
    &&& 0 <= p
    &&& p + w.len() <= code.len()
    &&& forall|i: int| 0 <= i < w.len() ==> code[p + i] == #[trigger] w[i]
}

/// Where the text of token `j` starts, after its space.
pub open spec fn start_of(ts: Seq<Tok>, j: int) -> int {
    text_of_tokens(ts.take(j)).len() as int
}

proof fn lemma_text_prefix(ts: Seq<Tok>, k: int)
    requires
        0 <= k <= ts.len(),
    ensures
        text_of_tokens(ts.take(k)).len() <= text_of_tokens(ts).len(),
        forall|i: int| 0 <= i < text_of_tokens(ts.take(k)).len() ==> #[trigger] text_of_tokens(ts)[i] == text_of_tokens(ts.take(k))[i],
    decreases ts.len(),
{
    if k == ts.len() {
        assert(ts.take(k) =~= ts);
    } else {
        let d = ts.drop_last();
        assert(d.take(k) =~= ts.take(k));
        lemma_text_prefix(d, k);
        let t = text_of_tokens(ts);
        assert forall|i: int| 0 <= i < text_of_tokens(ts.take(k)).len() implies #[trigger] t[i] == text_of_tokens(ts.take(k))[i] by {
            assert(t[i] == text_of_tokens(d)[i]);
        }
    }
}

/// The text of token `j`: a space at its start, then the token's text, then the next token.
proof fn lemma_chunk(ts: Seq<Tok>, j: int)
    requires
        0 <= j < ts.len(),
    ensures
        start_of(ts, j + 1) == start_of(ts, j) + 1 + token_text(ts[j]).len(),
        start_of(ts, j + 1) <= text_of_tokens(ts).len(),
        text_of_tokens(ts)[start_of(ts, j)] == ' ',
        text_at(text_of_tokens(ts), start_of(ts, j) + 1, token_text(ts[j])),
{
    let code = text_of_tokens(ts);
    let w = token_text(ts[j]);
    assert(ts.take(j + 1).drop_last() =~= ts.take(j));
    assert(ts.take(j + 1).last() == ts[j]);
    let pre = text_of_tokens(ts.take(j));
    let t1 = text_of_tokens(ts.take(j + 1));
    assert(t1 == pre + seq![' '] + w);
    lemma_text_prefix(ts, j + 1);
    assert(code[pre.len() as int] == t1[pre.len() as int]);
    assert forall|i: int| 0 <= i < w.len() implies code[pre.len() + 1 + i] == #[trigger] w[i] by {
        assert(code[pre.len() + 1 + i] == t1[pre.len() + 1 + i]);
    }
}

proof fn lemma_start_end(ts: Seq<Tok>)
    ensures
        start_of(ts, ts.len() as int) == text_of_tokens(ts).len(),
{
    assert(ts.take(ts.len() as int) =~= ts);
}

proof fn lemma_scan_plain(code: Seq<char>, k: int, m: int, acc: Seq<char>)
    requires
        0 <= k,
        0 <= m,
        k + m < code.len(),
        forall|i: int| k <= i < k + m ==> (#[trigger] code[i] as u32) < 0x80 && code[i] != '"' && code[i] != '\\',
        code[k + m] == '"',
    ensures
        string_scan(code, k, acc) == Some((acc + code.subrange(k, k + m), k + m)),
        !scan_panics(code, k),
    decreases m,
{
    if m == 0 {
        assert(acc + code.subrange(k, k) =~= acc);
    } else {
        assert((code[k] as u32) < 0x80 && code[k] != '"' && code[k] != '\\');
        assert(special_pair(code[k], code[k + 1]) is None);
        if m > 1 {
            assert((code[k + 1] as u32) < 0x80);
        }
        assert(cut_ok(code[k], code[k + 1]));
        lemma_scan_plain(code, k + 1, m - 1, acc.push(code[k]));
        assert(acc.push(code[k]) + code.subrange(k + 1, k + m) =~= acc + code.subrange(k, k + m));
    }
}

/// ASCII characters take one byte each.
proof fn lemma_ascii_bytes(code: Seq<char>, p: int, m: int)
    requires
        0 <= p,
        0 <= m,
        p + m <= code.len(),
        forall|i: int| p <= i < p + m ==> (#[trigger] code[i] as u32) < 0x80,
    ensures
        chars_in_bytes(code, p, m) == Some(m),
    decreases m,
{
    if m > 0 {
        assert((code[p] as u32) < 0x80);
        lemma_ascii_bytes(code, p + 1, m - 1);
    }
}

/// A name read at `p`: its characters are name characters and the one after it is not.
proof fn lemma_name_at(code: Seq<char>, p: int, n: Seq<char>)
    requires
        ascii_name(n),
        text_at(code, p, n),
        p + n.len() == code.len() || code[p + n.len()] == ' ',
    ensures
        name_span(code, p) == n.len(),
        code.subrange(p, p + n.len()) == n,
        is_name_start(code[p]) && is_name_char(code[p]),
        chars_in_bytes(code, p, n.len() as int) == Some(n.len() as int),
{
    assert forall|k: int| p <= k < p + n.len() implies (|c: char| is_name_char(c))(#[trigger] code[k]) by {
        assert(code[p + (k - p)] == n[k - p]);
        assert(ascii_letter(n[k - p]) || ascii_digit(n[k - p]) || n[k - p] == '_');
    }
    assert(code[p + 0] == n[0]);
    lemma_span(code, p, |c: char| is_name_char(c), n.len());
    assert(code.subrange(p, p + n.len()) =~= n);
    assert forall|i: int| p <= i < p + n.len() implies (#[trigger] code[i] as u32) < 0x80 by {
        assert(code[p + (i - p)] == n[i - p]);
        assert(ascii_letter(n[i - p]) || ascii_digit(n[i - p]) || n[i - p] == '_');
    }
    lemma_ascii_bytes(code, p, n.len() as int);
}

/// The token written at the lexer's position, followed by a space or the end, is read as
/// that token, and the lexer stops right after its text.
proof fn lemma_lex_token(t: Tok, l: LexModel)
    requires
        writable(t),
        text_at(l.code, l.pos, token_text(t)),
        l.pos + token_text(t).len() == l.code.len() || l.code[l.pos + token_text(t).len()] == ' ',
    ensures
        lex_token(l) matches Some((tok, l2)) && tok.kind == t && l2.pos == l.pos + token_text(t).len()
            && l2.code == l.code && l2.tokens == l.tokens,
        !token_panics(l),
{
    let w = token_text(t);
    let p = l.pos;
    assert(l.code[p + 0] == w[0]);
    let c = l.code[p];
    match t {
        Tok::Separator(s) => {
            law_separator_round_trip(s);
        },
        Tok::Operator(o) => {
            law_operator_round_trip(o);
            assert(separator_of(c) is None);
        },
        Tok::Keyword(k) => {
            assert(separator_of(c) is None);
            assert(operator_of(c) is None);
            assert(l.code[p + 1] == w[1]);
            assert(l.code[p + 2] == w[2]);
            assert(l.code.subrange(p, p + 3) =~= def_word());
            assert(is_word(l.code, p, def_word()));
        },
        Tok::Variable(n) => {
            assert(separator_of(c) is None);
            assert(operator_of(c) is None);
            assert(!is_word(l.code, p, def_word())) by {
                if p + 3 <= l.code.len() {
                    assert(l.code.subrange(p, p + 3)[0] == c);
                }
            }
            assert(text_at(l.code, p + 1, n)) by {
                assert forall|i: int| 0 <= i < n.len() implies l.code[p + 1 + i] == #[trigger] n[i] by {
                    assert(w[1 + i] == n[i]);
                }
            }
            lemma_name_at(l.code, p + 1, n);
            assert(lex_prefixed(l, '$') is Some);
        },
        Tok::Function(n) => {
            assert(separator_of(c) is None);
            assert(operator_of(c) is None);
            assert(!is_word(l.code, p, def_word())) by {
                if p + 3 <= l.code.len() {
                    assert(l.code.subrange(p, p + 3)[0] == c);
                }
            }
            assert(text_at(l.code, p + 1, n)) by {
                assert forall|i: int| 0 <= i < n.len() implies l.code[p + 1 + i] == #[trigger] n[i] by {
                    assert(w[1 + i] == n[i]);
                }
            }
            lemma_name_at(l.code, p + 1, n);
            assert(lex_variable(l) is None);
            assert(lex_prefixed(l, '%') is Some);
        },
        Tok::Identifier(n) => {
            assert(ascii_letter(n[0]) || n[0] == '_');
            assert(separator_of(c) is None);
            assert(operator_of(c) is None);
            assert(!is_word(l.code, p, def_word())) by {
                if is_word(l.code, p, def_word()) {
                    let sub = l.code.subrange(p, p + 3);
                    assert(sub[0] == 'd' && sub[1] == 'e' && sub[2] == 'f');
                    if n.len() < 3 {
                        assert(l.code[p + n.len()] == ' ');
                        assert(sub[n.len() as int] == l.code[p + n.len()]);
                    } else {
                        assert(l.code[p + 0] == n[0]);
                        assert(l.code[p + 1] == n[1]);
                        assert(l.code[p + 2] == n[2]);
                        if n.len() > 3 {
                            assert(l.code[p + 3] == n[3]);
                            assert(ascii_letter(n[3]) || ascii_digit(n[3]));
                        }
                    }
                }
            }
            lemma_name_at(l.code, p, n);
            assert(lex_variable(l) is None);
            assert(lex_function(l) is None);
        },
        Tok::StringConst(s) => {
            assert(separator_of(c) is None);
            assert(operator_of(c) is None);
            assert(!is_word(l.code, p, def_word())) by {
                if p + 3 <= l.code.len() {
                    assert(l.code.subrange(p, p + 3)[0] == c);
                }
            }
            assert(lex_variable(l) is None);
            assert(lex_function(l) is None);
            assert(lex_name(l) is None);
            assert forall|i: int| p + 1 <= i < p + 1 + s.len() implies (#[trigger] l.code[i] as u32) < 0x80 && l.code[i] != '"' && l.code[i] != '\\' by {
                assert(w[i - p] == s[i - p - 1]);
                assert(l.code[p + (i - p)] == w[i - p]);
            }
            assert(l.code[p + (s.len() + 1)] == w[s.len() + 1 as int]);
            lemma_scan_plain(l.code, p + 1, s.len() as int, Seq::empty());
            assert(Seq::<char>::empty() + l.code.subrange(p + 1, p + 1 + s.len()) =~= s) by {
                assert forall|i: int| 0 <= i < s.len() implies l.code.subrange(p + 1, p + 1 + s.len())[i] == s[i] by {
                    assert(l.code[p + (i + 1)] == w[i + 1]);
                }
            }
            assert(lex_string(l) is Some);
        },
    }
}

proof fn lemma_lex_from(ts: Seq<Tok>, l: LexModel, j: int)
    requires
        forall|i: int| 0 <= i < ts.len() ==> writable(#[trigger] ts[i]),
        l.code == text_of_tokens(ts),
        0 <= j <= ts.len(),
        l.pos == start_of(ts, j),
        l.tokens.len() == j,
        forall|i: int| 0 <= i < j ==> (#[trigger] l.tokens[i]).kind == ts[i],
    ensures
        lex_run(l).1 is None,
        !lex_panics(l),
        lex_run(l).0.tokens.len() == ts.len(),
        forall|i: int| 0 <= i < ts.len() ==> (#[trigger] lex_run(l).0.tokens[i]).kind == ts[i],
    decreases ts.len() - j,
{
    let code = l.code;
    if j == ts.len() {
        lemma_start_end(ts);
        assert(ws_span(code, l.pos) == 0);
        assert(skip_ws(l) == l);
    } else {
        lemma_chunk(ts, j);
        let w = token_text(ts[j]);
        let next = start_of(ts, j + 1);
        if j + 1 < ts.len() {
            lemma_chunk(ts, j + 1);
        } else {
            lemma_start_end(ts);
        }
        assert(code[l.pos + 1 + 0] == w[0]);
        assert(!char_whitespace(code[l.pos + 1])) by {
            let c = code[l.pos + 1];
            match ts[j] {
                Tok::Identifier(n) => {
                    assert(ascii_letter(n[0]) || n[0] == '_');
                },
                Tok::Separator(s) => {},
                Tok::Operator(o) => {},
                _ => {},
            }
        }
        lemma_span(code, l.pos, |c: char| char_whitespace(c), 1);
        let l1 = skip_ws(l);
        assert(steps(l, 0) == l);
        assert(l1 == step(l));
        assert(l1.pos == l.pos + 1);
        lemma_lex_token(ts[j], l1);
        let (tok, l2) = lex_token(l1)->0;
        let l3 = LexModel { tokens: l2.tokens.push(tok), ..l2 };
        assert(l3.pos == next);
        lemma_lex_from(ts, l3, j + 1);
    }
}

/// The lexer reads back written tokens: the text of tokens that can be read back, each after
/// a space, lexes without error into tokens of the same kinds, in order.
pub proof fn law_written_tokens_lex(ts: Seq<Tok>)
    requires
        forall|i: int| 0 <= i < ts.len() ==> writable(#[trigger] ts[i]),
    ensures
        lex(text_of_tokens(ts)) matches Ok(toks) && toks.len() == ts.len() && forall|i: int|
            0 <= i < ts.len() ==> (#[trigger] toks[i]).kind == ts[i],
        !lex_panics(lex_start(text_of_tokens(ts))),
{
    assert(ts.take(0) =~= Seq::<Tok>::empty());
    let l = LexModel { code: text_of_tokens(ts), pos: 0, row: 0, column: 0, tokens: Seq::empty() };
    lemma_lex_from(ts, l, 0);
}


/// A module written as text is read back as the tree that was written: where a body can be
/// read back from tokens, has a statement, and its tokens can be written, the text of its
/// tokens lexes and parses to that body.
pub proof fn law_written_module_reads_back(b: Act)
    requires
        body_form(b),
        b->Sequence_0.len() > 0,
        forall|i: int| 0 <= i < tokens_of(b).len() ==> writable(#[trigger] tokens_of(b)[i]),
    ensures
        module_body(text_of_tokens(tokens_of(b))) matches Step::Done(x, _) && x == b,
{
    let ts = tokens_of(b);
    law_written_tokens_lex(ts);
    if let Ok(toks) = lex(text_of_tokens(ts)) {
        assert(matches_at(toks, 0, ts)) by {
            assert forall|i: int| 0 <= i < ts.len() implies toks[0 + i].kind == #[trigger] ts[i] by {
                assert(toks[i].kind == ts[i]);
            }
        }
        law_printed_body_parses(b, toks, start_state());
    }
}

} // verus!
