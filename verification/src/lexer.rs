//! Turning source text into tokens.

use vstd::prelude::*;

use crate::text::{
    char_alphanumeric, char_utf8_len, char_whitespace, decimal, is_alphabetic, is_alphanumeric, is_name_char,
    is_name_start, is_whitespace, push_char, push_decimal, str_chars, string_of, utf8_len,
};

verus! {

/// The kinds of error that reading source text can report.
#[derive(Debug, Clone, Copy, PartialEq, Eq, Structural)]
pub enum ParsingErrorKind {
    UnknownCharacter,
    InvalidIntegerConstant,
    InvalidNumberConstant,
    UnexpectedCharacter,
}

/// What a `ParsingError` holds, as plain values.
pub struct ErrorModel {
    pub kind: ParsingErrorKind,
    pub message: Option<Seq<char>>,
    pub row: int,
    pub column: int,
}

/// An error of the lexer or the parser, with the place where it was found.
#[derive(Debug)]
pub struct ParsingError {
    error_type: ParsingErrorKind,
    message: Option<String>,
    row: usize,
    column: usize,
}

impl View for ParsingError {
    type V = ErrorModel;

    closed spec fn view(&self) -> ErrorModel {
        ErrorModel {
            kind: self.error_type,
            message: match self.message {
                Some(m) => Some(m@),
                None => None,
            },
            row: self.row as int,
            column: self.column as int,
        }
    }
}

/// The name under which an error kind is shown.
pub open spec fn error_kind_name(k: ParsingErrorKind) -> Seq<char> {
    match k {
        ParsingErrorKind::UnknownCharacter => "UnknownCharacter"@,
        ParsingErrorKind::InvalidIntegerConstant => "InvalidIntegerConstant"@,
        ParsingErrorKind::InvalidNumberConstant => "InvalidNumberConstant"@,
        ParsingErrorKind::UnexpectedCharacter => "UnexpectedCharacter"@,
    }
}

/// How an error is shown: `kind: message Row: row Column:column `.
pub open spec fn describe_error(e: ErrorModel) -> Seq<char> {
    error_kind_name(e.kind) + ": "@ + match e.message {
        Some(m) => m,
        None => Seq::empty(),
    } + " Row: "@ + decimal(e.row as nat) + " Column:"@ + decimal(e.column as nat) + " "@
}

impl ParsingErrorKind {
    /// The name under which the kind is shown.
    pub fn name(&self) -> (r: &'static str)
        ensures
            r@ == error_kind_name(*self),
    {
        match self {
            ParsingErrorKind::UnknownCharacter => "UnknownCharacter",
            ParsingErrorKind::InvalidIntegerConstant => "InvalidIntegerConstant",
            ParsingErrorKind::InvalidNumberConstant => "InvalidNumberConstant",
            ParsingErrorKind::UnexpectedCharacter => "UnexpectedCharacter",
        }
    }
}

impl ParsingError {
    pub fn kind(&self) -> (r: ParsingErrorKind)
        ensures
            r == self@.kind,
    {
        self.error_type
    }

    pub fn row(&self) -> (r: usize)
        ensures
            r as int == self@.row,
    {
        self.row
    }

    pub fn column(&self) -> (r: usize)
        ensures
            r as int == self@.column,
    {
        self.column
    }

    /// The text that describes the error.
    pub fn to_string(&self) -> (r: String)
        ensures
            r@ == describe_error(self@),
    {
        let mut r = String::new();
        r.append(self.error_type.name());
        r.append(": ");
        match &self.message {
            Some(m) => {
                r.append(m.as_str());
            },
            None => {},
        }
        r.append(" Row: ");
        push_decimal(&mut r, self.row);
        r.append(" Column:");
        push_decimal(&mut r, self.column);
        r.append(" ");
        assert(r@ =~= describe_error(self@));
        r
    }

    pub fn new(error_type: ParsingErrorKind, row: usize, column: usize) -> (r: Self)
        ensures
            r@ == (ErrorModel { kind: error_type, message: None, row: row as int, column: column as int }),
    {
        Self { error_type, message: None, row, column }
    }

    pub fn new_with_message(error_type: ParsingErrorKind, message: String, row: usize, column: usize) -> (r: Self)
        ensures
            r@ == (ErrorModel { kind: error_type, message: Some(message@), row: row as int, column: column as int }),
    {
        Self { error_type, message: Some(message), row, column }
    }
}

/// Punctuation of the language.
#[derive(Debug, Clone, Copy, PartialEq, Eq, Structural)]
pub enum SeparatorKind {
    BlockOpen,
    BlockClose,
    BracketOpen,
    BracketClose,
    Comma,
    Semicolon,
}

/// The separator that a character stands for, if any.
pub open spec fn separator_of(ch: char) -> Option<SeparatorKind> {
    if ch == '(' {
        Some(SeparatorKind::BracketOpen)
    } else if ch == ')' {
        Some(SeparatorKind::BracketClose)
    } else if ch == '{' {
        Some(SeparatorKind::BlockOpen)
    } else if ch == '}' {
        Some(SeparatorKind::BlockClose)
    } else if ch == ',' {
        Some(SeparatorKind::Comma)
    } else if ch == ';' {
        Some(SeparatorKind::Semicolon)
    } else {
        None
    }
}

/// The character of a separator.
pub open spec fn separator_char(s: SeparatorKind) -> char {
    match s {
        SeparatorKind::BlockOpen => '{',
        SeparatorKind::BlockClose => '}',
        SeparatorKind::BracketOpen => '(',
        SeparatorKind::BracketClose => ')',
        SeparatorKind::Comma => ',',
        SeparatorKind::Semicolon => ';',
    }
}

impl SeparatorKind {
    pub fn from_char(ch: char) -> (r: Option<Self>)
        ensures
            r == separator_of(ch),
    {
        match ch {
            '(' => Some(SeparatorKind::BracketOpen),
            ')' => Some(SeparatorKind::BracketClose),
            '{' => Some(SeparatorKind::BlockOpen),
            '}' => Some(SeparatorKind::BlockClose),
            ',' => Some(SeparatorKind::Comma),
            ';' => Some(SeparatorKind::Semicolon),
            _ => None,
        }
    }

    pub fn to_char(&self) -> (r: char)
        ensures
            r == separator_char(*self),
    {
        match self {
            SeparatorKind::BlockOpen => '{',
            SeparatorKind::BlockClose => '}',
            SeparatorKind::BracketOpen => '(',
            SeparatorKind::BracketClose => ')',
            SeparatorKind::Comma => ',',
            SeparatorKind::Semicolon => ';',
        }
    }
}

/// Operators of the language.
#[derive(Debug, Clone, Copy, PartialEq, Eq, Structural)]
pub enum OperatorKind {
    Assign,
    StringConcat,
}

/// The operator that a character stands for, if any.
pub open spec fn operator_of(ch: char) -> Option<OperatorKind> {
    if ch == '=' {
        Some(OperatorKind::Assign)
    } else if ch == '@' {
        Some(OperatorKind::StringConcat)
    } else {
        None
    }
}

/// The character of an operator.
pub open spec fn operator_char(o: OperatorKind) -> char {
    match o {
        OperatorKind::Assign => '=',
        OperatorKind::StringConcat => '@',
    }
}

/// How tightly an operator binds: a higher number binds tighter.
pub open spec fn operator_priority(o: OperatorKind) -> int {
    match o {
        OperatorKind::Assign => 0,
        OperatorKind::StringConcat => 1,
    }
}

impl OperatorKind {
    pub fn from_char(ch: char) -> (r: Option<Self>)
        ensures
            r == operator_of(ch),
    {
        match ch {
            '=' => Some(OperatorKind::Assign),
            '@' => Some(OperatorKind::StringConcat),
            _ => None,
        }
    }

    pub fn to_char(&self) -> (r: char)
        ensures
            r == operator_char(*self),
    {
        match self {
            OperatorKind::Assign => '=',
            OperatorKind::StringConcat => '@',
        }
    }

    pub fn priority(&self) -> (r: i32)
        ensures
            r as int == operator_priority(*self),
    {
        match self {
            OperatorKind::Assign => 0,
            OperatorKind::StringConcat => 1,
        }
    }

    /// The name under which the operator is shown.
    pub fn name(&self) -> (r: &'static str)
        ensures
            r@ == operator_name(*self),
    {
        match self {
            OperatorKind::Assign => "Assign",
            OperatorKind::StringConcat => "StringConcat",
        }
    }
}

/// The name under which an operator is shown.
pub open spec fn operator_name(o: OperatorKind) -> Seq<char> {
    match o {
        OperatorKind::Assign => "Assign"@,
        OperatorKind::StringConcat => "StringConcat"@,
    }
}

/// Reserved words.
#[derive(Debug, Clone, Copy, PartialEq, Eq, Structural)]
pub enum KeywordKind {
    /// `def`, which declares a user function.
    Function,
}

/// What a token is, as plain values.
pub enum Tok {
    Identifier(Seq<char>),
    Variable(Seq<char>),
    StringConst(Seq<char>),
    Separator(SeparatorKind),
    Operator(OperatorKind),
    Keyword(KeywordKind),
    Function(Seq<char>),
}

#[derive(Debug)]
pub enum TokenKind {
    /// Any text that isn't enclosed in quotes, such as tag names or argument names.
    Identifier(String),
    /// `$name`: a variable.
    Variable(String),
    /// Any quote-enclosed string, with its escapes resolved.
    StringConst(String),
    Separator(SeparatorKind),
    Operator(OperatorKind),
    Keyword(KeywordKind),
    /// `%name`: a call of a user function.
    Function(String),
}

impl View for TokenKind {
    type V = Tok;

    open spec fn view(&self) -> Tok {
        match self {
            TokenKind::Identifier(s) => Tok::Identifier(s@),
            TokenKind::Variable(s) => Tok::Variable(s@),
            TokenKind::StringConst(s) => Tok::StringConst(s@),
            TokenKind::Separator(s) => Tok::Separator(*s),
            TokenKind::Operator(o) => Tok::Operator(*o),
            TokenKind::Keyword(k) => Tok::Keyword(*k),
            TokenKind::Function(s) => Tok::Function(s@),
        }
    }
}

impl Clone for TokenKind {
    fn clone(&self) -> (r: Self)
        ensures
            r == *self,
    {
        match self {
            TokenKind::Identifier(s) => TokenKind::Identifier(s.clone()),
            TokenKind::Variable(s) => TokenKind::Variable(s.clone()),
            TokenKind::StringConst(s) => TokenKind::StringConst(s.clone()),
            TokenKind::Separator(s) => TokenKind::Separator(*s),
            TokenKind::Operator(o) => TokenKind::Operator(*o),
            TokenKind::Keyword(k) => TokenKind::Keyword(*k),
            TokenKind::Function(s) => TokenKind::Function(s.clone()),
        }
    }
}

/// The binding strength that the parser gives a token: that of its operator, -1 for others.
pub open spec fn token_priority(k: Tok) -> int {
    match k {
        Tok::Operator(o) => operator_priority(o),
        _ => -1,
    }
}

/// A token with the row and column where the lexer was when it read it.
pub struct TokenModel {
    pub kind: Tok,
    pub row: int,
    pub column: int,
}

#[derive(Debug)]
pub struct Token {
    kind: TokenKind,
    row: usize,
    column: usize,
}

impl View for Token {
    type V = TokenModel;

    closed spec fn view(&self) -> TokenModel {
        TokenModel { kind: self.kind@, row: self.row as int, column: self.column as int }
    }
}

impl Clone for Token {
    fn clone(&self) -> (r: Self)
        ensures
            r == *self,
    {
        Token { kind: self.kind.clone(), row: self.row, column: self.column }
    }
}

impl Token {
    pub fn new(kind: TokenKind, row: usize, column: usize) -> (r: Self)
        ensures
            r@ == (TokenModel { kind: kind@, row: row as int, column: column as int }),
    {
        Self { kind, row, column }
    }

    pub fn get_kind(&self) -> (r: TokenKind)
        ensures
            r@ == self@.kind,
    {
        self.kind.clone()
    }

    /// The kind, borrowed.
    pub fn kind(&self) -> (r: &TokenKind)
        ensures
            r@ == self@.kind,
    {
        &self.kind
    }

    pub fn get_row(&self) -> (r: usize)
        ensures
            r as int == self@.row,
    {
        self.row
    }

    pub fn get_column(&self) -> (r: usize)
        ensures
            r as int == self@.column,
    {
        self.column
    }

    pub fn get_priority(&self) -> (r: i32)
        ensures
            r as int == token_priority(self@.kind),
    {
        match &self.kind {
            TokenKind::Operator(o) => o.priority(),
            _ => -1,
        }
    }
}

/// The views of a list of tokens.
pub open spec fn tokens_view(ts: Seq<Token>) -> Seq<TokenModel> {
    ts.map_values(|t: Token| t@)
}

/// The state of a lexer, as plain values.
pub struct LexModel {
    pub code: Seq<char>,
    pub pos: int,
    pub row: int,
    pub column: int,
    pub tokens: Seq<TokenModel>,
}

/// The character the lexer is at, if any is left.
pub open spec fn cur(l: LexModel) -> Option<char> {
    if 0 <= l.pos < l.code.len() {
        Some(l.code[l.pos])
    } else {
        None
    }
}

/// Reading one character: a newline moves to the start of the next row, any other
/// character to the next column. At the end of the text nothing changes.
pub open spec fn step(l: LexModel) -> LexModel {
    if 0 <= l.pos < l.code.len() {
        if l.code[l.pos] == '\n' {
            LexModel { pos: l.pos + 1, row: l.row + 1, column: 0, ..l }
        } else {
            LexModel { pos: l.pos + 1, column: l.column + 1, ..l }
        }
    } else {
        l
    }
}

/// Reading `n` characters one by one.
pub open spec fn steps(l: LexModel, n: nat) -> LexModel
    decreases n,
{
    if n == 0 {
        l
    } else {
        step(steps(l, (n - 1) as nat))
    }
}

/// Moving `n` characters ahead without counting rows or columns, stopping at the end.
pub open spec fn skip_by(l: LexModel, n: int) -> LexModel {
    LexModel { pos: if l.pos + n <= l.code.len() { l.pos + n } else { l.code.len() as int }, ..l }
}

/// The number of characters from `p` on that satisfy `pred`, up to the first that does not.
pub open spec fn span(code: Seq<char>, p: int, pred: spec_fn(char) -> bool) -> nat
    decreases code.len() - p,
{
    if 0 <= p < code.len() && pred(code[p]) {
        1 + span(code, p + 1, pred)
    } else {
        0
    }
}

/// The length of the run of whitespace at `p`.
pub open spec fn ws_span(code: Seq<char>, p: int) -> nat {
    span(code, p, |c: char| char_whitespace(c))
}

/// The length of the run of name characters at `p`.
pub open spec fn name_span(code: Seq<char>, p: int) -> nat {
    span(code, p, |c: char| is_name_char(c))
}

/// Reading past the whitespace at the current position.
pub open spec fn skip_ws(l: LexModel) -> LexModel {
    steps(l, ws_span(l.code, l.pos))
}

/// A token made at the lexer's current row and column.
pub open spec fn token_here(l: LexModel, kind: Tok) -> TokenModel {
    TokenModel { kind, row: l.row, column: l.column }
}

/// A separator character becomes a token, read as one character.
pub open spec fn lex_separator(l: LexModel) -> Option<(TokenModel, LexModel)> {
    match cur(l) {
        Some(c) => match separator_of(c) {
            Some(s) => Some((token_here(l, Tok::Separator(s)), step(l))),
            None => None,
        },
        None => None,
    }
}

/// An operator character becomes a token, read as one character.
pub open spec fn lex_operator(l: LexModel) -> Option<(TokenModel, LexModel)> {
    match cur(l) {
        Some(c) => match operator_of(c) {
            Some(o) => Some((token_here(l, Tok::Operator(o)), step(l))),
            None => None,
        },
        None => None,
    }
}

/// The text at `p` is the word `w`, not followed by an alphanumeric character.
pub open spec fn is_word(code: Seq<char>, p: int, w: Seq<char>) -> bool {
    &&& 0 <= p
    &&& p + w.len() <= code.len()
    &&& code.subrange(p, p + w.len()) == w
    &&& !(p + w.len() < code.len() && char_alphanumeric(code[p + w.len()]))
}

/// The keyword that declares a user function.
pub open spec fn def_word() -> Seq<char> {
    seq!['d', 'e', 'f']
}

/// The word `def` becomes a keyword token.
pub open spec fn lex_keyword(l: LexModel) -> Option<(TokenModel, LexModel)> {
    if is_word(l.code, l.pos, def_word()) {
        Some((token_here(l, Tok::Keyword(KeywordKind::Function)), skip_by(l, 3)))
    } else {
        None
    }
}

/// The number of characters from `p` on whose UTF-8 form takes exactly `n` bytes; nothing
/// where the `n`-th byte falls inside a character.
pub open spec fn chars_in_bytes(code: Seq<char>, p: int, n: int) -> Option<int>
    decreases n,
{
    if n <= 0 {
        if n == 0 {
            Some(0)
        } else {
            None
        }
    } else if 0 <= p < code.len() && utf8_len(code[p]) <= n {
        match chars_in_bytes(code, p + 1, n - utf8_len(code[p])) {
            Some(k) => Some(k + 1),
            None => None,
        }
    } else {
        None
    }
}

/// The lexer is at a name start (every alphabetic character is also alphanumeric, so the
/// start is a name character too).
pub open spec fn at_name(l: LexModel) -> bool {
    cur(l) matches Some(c) && is_name_start(c) && is_name_char(c)
}

/// A name: a name start followed by name characters, `n` of them. The identifier's text is
/// cut from the text's UTF-8 form by that count: it is the first `n` bytes from the name on,
/// which is the whole name only where every character of it is ASCII. The lexer moves past
/// all `n` characters.
pub open spec fn lex_name(l: LexModel) -> Option<(TokenModel, LexModel)> {
    if at_name(l) {
        let n = name_span(l.code, l.pos);
        match chars_in_bytes(l.code, l.pos, n as int) {
            Some(k) => Some((token_here(l, Tok::Identifier(l.code.subrange(l.pos, l.pos + k))), skip_by(l, n as int))),
            None => None,
        }
    } else {
        None
    }
}

/// Reading a name panics: its first `n` bytes, for `n` its number of characters, end inside
/// a character.
pub open spec fn name_panics(l: LexModel) -> bool {
    at_name(l) && chars_in_bytes(l.code, l.pos, name_span(l.code, l.pos) as int) is None
}

/// A name right behind the character `prefix`.
pub open spec fn lex_prefixed(l: LexModel, prefix: char) -> Option<(Seq<char>, LexModel)> {
    if cur(l) == Some(prefix) && l.pos + 1 < l.code.len() && is_name_start(l.code[l.pos + 1])
        && is_name_char(l.code[l.pos + 1]) {
        let n = name_span(l.code, l.pos + 1);
        Some((l.code.subrange(l.pos + 1, l.pos + 1 + n), skip_by(l, n + 1 as int)))
    } else {
        None
    }
}

/// `$name` becomes a variable token.
pub open spec fn lex_variable(l: LexModel) -> Option<(TokenModel, LexModel)> {
    match lex_prefixed(l, '$') {
        Some((name, l2)) => Some((token_here(l, Tok::Variable(name)), l2)),
        None => None,
    }
}

/// `%name` becomes a token for a call of a user function.
pub open spec fn lex_function(l: LexModel) -> Option<(TokenModel, LexModel)> {
    match lex_prefixed(l, '%') {
        Some((name, l2)) => Some((token_here(l, Tok::Function(name)), l2)),
        None => None,
    }
}

/// The character that a backslash escape stands for.
pub open spec fn special_pair(a: char, b: char) -> Option<char> {
    if a == '\\' {
        if b == 'n' {
            Some('\n')
        } else if b == '"' {
            Some('"')
        } else if b == '\'' {
            Some('\'')
        } else if b == 't' {
            Some('\t')
        } else if b == '\\' {
            Some('\\')
        } else {
            None
        }
    } else {
        None
    }
}

/// The character that a two-character escape sequence stands for.
pub open spec fn special_of(s: Seq<char>) -> Option<char> {
    if s.len() == 2 {
        special_pair(s[0], s[1])
    } else {
        None
    }
}

/// The contents of a string constant from `k` on, with escapes resolved, appended to `acc`,
/// and the index of the closing quote; `None` when the text ends first.
pub open spec fn string_scan(code: Seq<char>, k: int, acc: Seq<char>) -> Option<(Seq<char>, int)>
    decreases code.len() - k,
{
    if k < 0 || k >= code.len() {
        None
    } else if code[k] == '"' {
        Some((acc, k))
    } else if k + 1 < code.len() && special_pair(code[k], code[k + 1]) is Some {
        string_scan(code, k + 2, acc.push(special_pair(code[k], code[k + 1])->0))
    } else {
        string_scan(code, k + 1, acc.push(code[k]))
    }
}

/// A quoted string becomes a string constant token; the lexer moves past the closing quote.
pub open spec fn lex_string(l: LexModel) -> Option<(TokenModel, LexModel)> {
    if cur(l) == Some('"') {
        match string_scan(l.code, l.pos + 1, Seq::empty()) {
            Some((s, end)) => Some((token_here(l, Tok::StringConst(s)), skip_by(l, end + 1 - l.pos))),
            None => None,
        }
    } else {
        None
    }
}

/// An escape is looked for by cutting two bytes from the UTF-8 form at the character `a`,
/// which `b` follows: the cut ends between characters where `a` takes two bytes, or where
/// both take one.
pub open spec fn cut_ok(a: char, b: char) -> bool {
    utf8_len(a) == 2 || (utf8_len(a) == 1 && utf8_len(b) == 1)
}

/// Scanning a string constant from `k` on panics: before its closing quote the scan reaches
/// a character, followed by another, where the two-byte cut ends inside a character.
pub open spec fn scan_panics(code: Seq<char>, k: int) -> bool
    decreases code.len() - k,
{
    if k < 0 || k >= code.len() {
        false
    } else if code[k] == '"' {
        false
    } else if k + 1 < code.len() && !cut_ok(code[k], code[k + 1]) {
        true
    } else if k + 1 < code.len() && special_pair(code[k], code[k + 1]) is Some {
        scan_panics(code, k + 2)
    } else {
        scan_panics(code, k + 1)
    }
}

/// Reading a string constant at the current position panics.
pub open spec fn string_panics(l: LexModel) -> bool {
    cur(l) == Some('"') && scan_panics(l.code, l.pos + 1)
}

/// Reading the token at the current position panics: no earlier kind of token matches and
/// the name or the string constant there cannot be cut.
pub open spec fn token_panics(l: LexModel) -> bool {
    &&& lex_separator(l) is None
    &&& lex_operator(l) is None
    &&& lex_keyword(l) is None
    &&& lex_variable(l) is None
    &&& lex_function(l) is None
    &&& name_panics(l) || string_panics(l)
}

/// The token at the current position, trying each kind in turn.
pub open spec fn lex_token(l: LexModel) -> Option<(TokenModel, LexModel)> {
    if lex_separator(l) is Some {
        lex_separator(l)
    } else if lex_operator(l) is Some {
        lex_operator(l)
    } else if lex_keyword(l) is Some {
        lex_keyword(l)
    } else if lex_variable(l) is Some {
        lex_variable(l)
    } else if lex_function(l) is Some {
        lex_function(l)
    } else if lex_name(l) is Some {
        lex_name(l)
    } else {
        lex_string(l)
    }
}

/// The error for text that starts no token.
pub open spec fn unknown_character(l: LexModel) -> ErrorModel {
    ErrorModel { kind: ParsingErrorKind::UnknownCharacter, message: None, row: l.row, column: l.column }
}

/// Reading the rest of the text: skip whitespace, read a token, and so on to the end. The
/// result is the final state, and the error that stopped it if one did.
pub open spec fn lex_run(l: LexModel) -> (LexModel, Option<ErrorModel>)
    decreases l.code.len() - l.pos,
{
    let l1 = skip_ws(l);
    if !(0 <= l1.pos < l1.code.len()) {
        (l1, None)
    } else {
        match lex_token(l1) {
            None => (l1, Some(unknown_character(l1))),
            Some((t, l2)) => {
                let l3 = LexModel { tokens: l2.tokens.push(t), ..l2 };
                if l.pos < l3.pos <= l3.code.len() && l3.code == l.code {
                    lex_run(l3)
                } else {
                    (l3, None)
                }
            },
        }
    }
}

/// Reading the rest of the text panics: as `lex_run` goes, a token is reached whose reading
/// panics.
pub open spec fn lex_panics(l: LexModel) -> bool
    decreases l.code.len() - l.pos,
{
    let l1 = skip_ws(l);
    if !(0 <= l1.pos < l1.code.len()) {
        false
    } else if token_panics(l1) {
        true
    } else {
        match lex_token(l1) {
            None => false,
            Some((t, l2)) => {
                let l3 = LexModel { tokens: l2.tokens.push(t), ..l2 };
                if l.pos < l3.pos <= l3.code.len() && l3.code == l.code {
                    lex_panics(l3)
                } else {
                    false
                }
            },
        }
    }
}

/// The state of a lexer at the start of a text.
pub open spec fn lex_start(code: Seq<char>) -> LexModel {
    LexModel { code, pos: 0, row: 0, column: 0, tokens: Seq::empty() }
}

/// The tokens of a text, or the error that stops reading it.
pub open spec fn lex(code: Seq<char>) -> Result<Seq<TokenModel>, ErrorModel> {
    let r = lex_run(lex_start(code));
    match r.1 {
        Some(e) => Err(e),
        None => Ok(r.0.tokens),
    }
}

pub proof fn lemma_steps(l: LexModel, n: nat)
    requires
        0 <= l.pos,
        0 <= l.row,
        0 <= l.column,
        l.pos + n <= l.code.len(),
    ensures
        steps(l, n).pos == l.pos + n,
        steps(l, n).code == l.code,
        steps(l, n).tokens == l.tokens,
        steps(l, n).row >= l.row,
        steps(l, n).row <= l.row + n,
        steps(l, n).column <= l.column + n,
        steps(l, n).column >= 0,
    decreases n,
{
    if n > 0 {
        lemma_steps(l, (n - 1) as nat);
    }
}

pub proof fn lemma_span(code: Seq<char>, p: int, pred: spec_fn(char) -> bool, n: nat)
    requires
        0 <= p,
        p + n <= code.len(),
        forall|k: int| p <= k < p + n ==> pred(#[trigger] code[k]),
        p + n == code.len() || !pred(code[p + n]),
    ensures
        span(code, p, pred) == n,
    decreases n,
{
    if n > 0 {
        lemma_span(code, p + 1, pred, (n - 1) as nat);
    }
}

pub proof fn lemma_span_bound(code: Seq<char>, p: int, pred: spec_fn(char) -> bool)
    requires
        0 <= p <= code.len(),
    ensures
        p + span(code, p, pred) <= code.len(),
    decreases code.len() - p,
{
    if p < code.len() && pred(code[p]) {
        lemma_span_bound(code, p + 1, pred);
    }
}

pub proof fn lemma_string_scan(code: Seq<char>, k: int, acc: Seq<char>)
    ensures
        string_scan(code, k, acc) matches Some((_, end)) ==> k <= end < code.len() && code[end] == '"',
    decreases code.len() - k,
{
    if 0 <= k < code.len() && code[k] != '"' {
        if k + 1 < code.len() && special_pair(code[k], code[k + 1]) is Some {
            lemma_string_scan(code, k + 2, acc.push(special_pair(code[k], code[k + 1])->0));
        } else {
            lemma_string_scan(code, k + 1, acc.push(code[k]));
        }
    }
}

/// Reads source text into tokens.
pub struct Lexer {
    code: Vec<char>,
    tokens: Vec<Token>,
    pos: usize,
    column: usize,
    row: usize,
}

impl View for Lexer {
    type V = LexModel;

    closed spec fn view(&self) -> LexModel {
        LexModel {
            code: self.code@,
            pos: self.pos as int,
            row: self.row as int,
            column: self.column as int,
            tokens: tokens_view(self.tokens@),
        }
    }
}

impl Lexer {
    /// The lexer's position lies within the text, and rows and columns never outrun it.
    pub closed spec fn wf(&self) -> bool {
        &&& self.pos <= self.code.len()
        &&& self.row <= self.pos
        &&& self.column <= self.pos
    }

    pub fn new(code: &str) -> (r: Self)
        ensures
            r.wf(),
            r@ == (LexModel { code: code@, pos: 0, row: 0, column: 0, tokens: Seq::empty() }),
    {
        let r = Self { code: str_chars(code), tokens: Vec::new(), pos: 0, row: 0, column: 0 };
        assert(tokens_view(r.tokens@) =~= Seq::empty());
        r
    }

    /// The tokens read so far.
    pub fn get_tokens(&self) -> (r: Vec<Token>)
        ensures
            tokens_view(r@) == self@.tokens,
    {
        let mut r: Vec<Token> = Vec::new();
        let mut i: usize = 0;
        while i < self.tokens.len()
            invariant
                i <= self.tokens.len(),
                r@ == self.tokens@.take(i as int),
            decreases self.tokens.len() - i,
        {
            r.push(self.tokens[i].clone());
            i += 1;
            assert(r@ =~= self.tokens@.take(i as int));
        }
        assert(self.tokens@.take(i as int) =~= self.tokens@);
        r
    }

    /// Advance by one character and return it, counting rows and columns.
    /// At the end of the text, returns None.
    pub fn next_char(&mut self) -> (r: Option<char>)
        requires
            old(self).wf(),
        ensures
            final(self).wf(),
            r == cur(old(self)@),
            final(self)@ == step(old(self)@),
    {
        if self.pos < self.code.len() {
            let ch = self.code[self.pos];
            self.pos = self.pos + 1;
            if ch == '\n' {
                self.row = self.row + 1;
                self.column = 0;
            } else {
                self.column = self.column + 1;
            }
            Some(ch)
        } else {
            None
        }
    }

    pub fn peek_char(&self) -> (r: Option<char>)
        ensures
            r == cur(self@),
    {
        if self.pos < self.code.len() {
            Some(self.code[self.pos])
        } else {
            None
        }
    }

    fn next_char_if<F: Fn(char) -> bool>(&mut self, func: &F) -> (r: Option<char>)
        requires
            old(self).wf(),
            forall|c: char| call_requires(*func, (c,)),
        ensures
            final(self).wf(),
            r is Some ==> cur(old(self)@) is Some && r == cur(old(self)@)
                && call_ensures(*func, (cur(old(self)@)->0,), true) && final(self)@ == step(old(self)@),
            r is None ==> final(self)@ == old(self)@ && (cur(old(self)@) is Some
                ==> call_ensures(*func, (cur(old(self)@)->0,), false)),
    {
        match self.peek_char() {
            Some(c) => {
                if func(c) {
                    self.next_char()
                } else {
                    None
                }
            },
            None => None,
        }
    }

    /// Reads characters while `f` holds of them.
    pub fn skip_char_while<F: Fn(char) -> bool>(&mut self, f: F)
        requires
            old(self).wf(),
            forall|c: char| call_requires(f, (c,)),
        ensures
            final(self).wf(),
            old(self)@.pos <= final(self)@.pos,
            final(self)@.code == old(self)@.code,
            final(self)@ == steps(old(self)@, (final(self)@.pos - old(self)@.pos) as nat),
            forall|k: int| old(self)@.pos <= k < final(self)@.pos ==> call_ensures(f, (#[trigger] old(self)@.code[k],), true),
            final(self)@.pos < final(self)@.code.len() ==> call_ensures(f, (final(self)@.code[final(self)@.pos],), false),
    {
        let ghost start = self@;
        loop
            invariant
                self.wf(),
                forall|c: char| call_requires(f, (c,)),
                start.pos <= self@.pos,
                self@.code == start.code,
                self@ == steps(start, (self@.pos - start.pos) as nat),
                forall|k: int| start.pos <= k < self@.pos ==> call_ensures(f, (#[trigger] start.code[k],), true),
            ensures
                self.wf(),
                start.pos <= self@.pos,
                self@.code == start.code,
                self@ == steps(start, (self@.pos - start.pos) as nat),
                forall|k: int| start.pos <= k < self@.pos ==> call_ensures(f, (#[trigger] start.code[k],), true),
                self@.pos < self@.code.len() ==> call_ensures(f, (self@.code[self@.pos],), false),
            decreases self@.code.len() - self@.pos,
        {
            match self.next_char_if(&f) {
                Some(_) => {
                    assert(self@ == steps(start, (self@.pos - start.pos) as nat));
                },
                None => {
                    break;
                },
            }
        }
    }

    /// Reads past the whitespace at the current position.
    fn skip_whitespace(&mut self)
        requires
            old(self).wf(),
        ensures
            final(self).wf(),
            final(self)@ == skip_ws(old(self)@),
            final(self)@.code == old(self)@.code,
            final(self)@.tokens == old(self)@.tokens,
            final(self)@.pos >= old(self)@.pos,
    {
        let ghost start = self@;
        let is_ws = |c: char| -> (r: bool)
            ensures
                r == char_whitespace(c),
            { is_whitespace(c) };
        self.skip_char_while(is_ws);
        proof {
            let n = (self@.pos - start.pos) as nat;
            lemma_steps(start, n);
            assert forall|k: int| start.pos <= k < start.pos + n implies (|c: char| char_whitespace(c))(#[trigger] start.code[k]) by {
                assert(call_ensures(is_ws, (start.code[k],), true));
            }
            if start.pos + n < start.code.len() {
                assert(call_ensures(is_ws, (self@.code[self@.pos],), false));
            }
            lemma_span(start.code, start.pos, |c: char| char_whitespace(c), n);
        }
    }

    /// Advance by the given number of characters, or to the end of the text. Rows and
    /// columns are left as they are.
    pub fn advance_by(&mut self, amount: usize)
        requires
            old(self).wf(),
        ensures
            final(self).wf(),
            final(self)@ == skip_by(old(self)@, amount as int),
    {
        if amount <= self.code.len() - self.pos {
            self.pos = self.pos + amount;
        } else {
            self.pos = self.code.len();
        }
    }

    /// Whether the text ahead is the word `value`, not followed by an alphanumeric character.
    /// The lexer does not move.
    pub fn is_string(&self, value: &str) -> (r: bool)
        requires
            self.wf(),
        ensures
            r == is_word(self@.code, self@.pos, value@),
    {
        let w = str_chars(value);
        let n = w.len();
        if n > self.code.len() - self.pos {
            return false;
        }
        let mut i: usize = 0;
        while i < n
            invariant
                n == w@.len(),
                w@ == value@,
                n <= self.code.len() - self.pos,
                self.pos <= self.code.len(),
                i <= n,
                forall|j: int| 0 <= j < i ==> self.code@[self.pos + j] == #[trigger] w@[j],
            decreases n - i,
        {
            if self.code[self.pos + i] != w[i] {
                assert(self.code@.subrange(self.pos as int, self.pos + n)[i as int] != w@[i as int]);
                assert(self.code@.subrange(self.pos as int, self.pos + n) != w@);
                return false;
            }
            i += 1;
        }
        assert(self.code@.subrange(self.pos as int, self.pos + n) =~= w@);
        let end = self.pos + n;
        if end < self.code.len() && is_alphanumeric(self.code[end]) {
            false
        } else {
            true
        }
    }

    /// The end of the run of name characters that starts at `from`.
    fn name_end(&self, from: usize) -> (r: usize)
        requires
            self.wf(),
            from <= self.code.len(),
        ensures
            r == from + name_span(self@.code, from as int),
            r <= self.code.len(),
            from < self.code.len() && is_name_start(self@.code[from as int]) ==> r > from,
            forall|k: int| from <= k < r ==> is_name_char(#[trigger] self@.code[k]),
    {
        let mut end = from;
        loop
            invariant
                from <= end <= self.code.len(),
                forall|k: int| from <= k < end ==> is_name_char(#[trigger] self.code@[k]),
            ensures
                from <= end <= self.code.len(),
                forall|k: int| from <= k < end ==> is_name_char(#[trigger] self.code@[k]),
                end == self.code.len() || !is_name_char(self.code@[end as int]),
                from < self.code.len() && is_name_start(self@.code[from as int]) ==> end > from,
            decreases self.code.len() - end,
        {
            if end >= self.code.len() {
                break;
            }
            let c = self.code[end];
            let ok = is_alphanumeric(c) || c == '_';
            if !ok {
                break;
            }
            end += 1;
        }
        proof {
            lemma_span(self@.code, from as int, |c: char| is_name_char(c), (end - from) as nat);
        }
        end
    }

    pub fn tokenize_id(&mut self) -> (r: Option<Token>)
        requires
            old(self).wf(),
            !name_panics(old(self)@),
        ensures
            final(self).wf(),
            match lex_name(old(self)@) {
                Some((t, l2)) => r matches Some(tok) && tok@ == t && final(self)@ == l2,
                None => r is None && final(self)@ == old(self)@,
            },
            r is Some ==> final(self)@.pos > old(self)@.pos,
    {
        match self.try_tokenize_id() {
            Some(r) => r,
            None => unreached(),
        }
    }

    /// Reads an identifier as `tokenize_id` does, but gives nothing where reading it panics.
    #[verifier::loop_isolation(false)]
    fn try_tokenize_id(&mut self) -> (r: Option<Option<Token>>)
        requires
            old(self).wf(),
        ensures
            final(self).wf(),
            name_panics(old(self)@) ==> r is None && final(self)@ == old(self)@,
            !name_panics(old(self)@) ==> (r matches Some(x) && match lex_name(old(self)@) {
                Some((t, l2)) => x matches Some(tok) && tok@ == t && final(self)@ == l2,
                None => x is None && final(self)@ == old(self)@,
            }),
            r matches Some(Some(_)) ==> final(self)@.pos > old(self)@.pos,
    {
        let c = match self.peek_char() {
            Some(c) => c,
            None => return Some(None),
        };
        let start_ok = is_alphabetic(c) || c == '_';
        if !start_ok {
            return Some(None);
        }
        let start = self.pos;
        let end = self.name_end(start);
        let n = end - start;
        let ghost code = self@.code;
        let mut j = start;
        let mut bytes: usize = 0;
        while bytes < n
            invariant
                self.wf(),
                self@ == old(self)@,
                code == self@.code,
                start == self.pos,
                end <= self.code.len(),
                n == end - start,
                start <= j,
                j - start <= bytes <= n,
                chars_in_bytes(code, start as int, n as int) == match chars_in_bytes(code, j as int, n - bytes) {
                    Some(k) => Some(k + (j - start)),
                    None => None::<int>,
                },
            decreases n - bytes,
        {
            let len = char_utf8_len(self.code[j]);
            if len > n - bytes {
                assert(chars_in_bytes(code, j as int, n - bytes) is None);
                assert(is_name_char(code[start as int]));
                return None;
            }
            bytes = bytes + len;
            j = j + 1;
        }
        let tok = Token::new(TokenKind::Identifier(string_of(&self.code, start, j)), self.row, self.column);
        self.advance_by(n);
        Some(Some(tok))
    }

    /// Reads a name right behind `prefix`.
    fn tokenize_prefixed(&mut self, prefix: char) -> (r: Option<String>)
        requires
            old(self).wf(),
        ensures
            final(self).wf(),
            match lex_prefixed(old(self)@, prefix) {
                Some((name, l2)) => r matches Some(s) && s@ == name && final(self)@ == l2,
                None => r is None && final(self)@ == old(self)@,
            },
            r is Some ==> final(self)@.pos > old(self)@.pos,
    {
        if self.pos < self.code.len() && self.code.len() - self.pos > 1 && self.code[self.pos] == prefix {
            let c = self.code[self.pos + 1];
            let start_ok = is_alphabetic(c) || c == '_';
            if !start_ok {
                return None;
            }
            let start = self.pos + 1;
            let end = self.name_end(start);
            let name = string_of(&self.code, start, end);
            self.advance_by(end - self.pos);
            Some(name)
        } else {
            None
        }
    }

    pub fn tokenize_variable(&mut self) -> (r: Option<Token>)
        requires
            old(self).wf(),
        ensures
            final(self).wf(),
            match lex_variable(old(self)@) {
                Some((t, l2)) => r matches Some(tok) && tok@ == t && final(self)@ == l2,
                None => r is None && final(self)@ == old(self)@,
            },
            r is Some ==> final(self)@.pos > old(self)@.pos,
    {
        match self.tokenize_prefixed('$') {
            Some(name) => Some(Token::new(TokenKind::Variable(name), self.row, self.column)),
            None => None,
        }
    }

    pub fn tokenize_function(&mut self) -> (r: Option<Token>)
        requires
            old(self).wf(),
        ensures
            final(self).wf(),
            match lex_function(old(self)@) {
                Some((t, l2)) => r matches Some(tok) && tok@ == t && final(self)@ == l2,
                None => r is None && final(self)@ == old(self)@,
            },
            r is Some ==> final(self)@.pos > old(self)@.pos,
    {
        match self.tokenize_prefixed('%') {
            Some(name) => Some(Token::new(TokenKind::Function(name), self.row, self.column)),
            None => None,
        }
    }

    pub fn tokenize_keyword(&mut self) -> (r: Option<Token>)
        requires
            old(self).wf(),
        ensures
            final(self).wf(),
            match lex_keyword(old(self)@) {
                Some((t, l2)) => r matches Some(tok) && tok@ == t && final(self)@ == l2,
                None => r is None && final(self)@ == old(self)@,
            },
            r is Some ==> final(self)@.pos > old(self)@.pos,
    {
        proof {
            reveal_strlit("def");
            assert("def"@ =~= def_word());
        }
        if self.is_string("def") {
            let tok = Token::new(TokenKind::Keyword(KeywordKind::Function), self.row, self.column);
            self.advance_by(3);
            Some(tok)
        } else {
            None
        }
    }

    pub fn tokenize_string(&mut self) -> (r: Option<Token>)
        requires
            old(self).wf(),
            !string_panics(old(self)@),
        ensures
            final(self).wf(),
            match lex_string(old(self)@) {
                Some((t, l2)) => r matches Some(tok) && tok@ == t && final(self)@ == l2,
                None => r is None && final(self)@ == old(self)@,
            },
            r is Some ==> final(self)@.pos > old(self)@.pos,
    {
        match self.try_tokenize_string() {
            Some(r) => r,
            None => unreached(),
        }
    }

    /// Reads a string constant as `tokenize_string` does, but gives nothing where reading it
    /// panics.
    #[verifier::loop_isolation(false)]
    fn try_tokenize_string(&mut self) -> (r: Option<Option<Token>>)
        requires
            old(self).wf(),
        ensures
            final(self).wf(),
            string_panics(old(self)@) ==> r is None && final(self)@ == old(self)@,
            !string_panics(old(self)@) ==> (r matches Some(x) && match lex_string(old(self)@) {
                Some((t, l2)) => x matches Some(tok) && tok@ == t && final(self)@ == l2,
                None => x is None && final(self)@ == old(self)@,
            }),
            r matches Some(Some(_)) ==> final(self)@.pos > old(self)@.pos,
    {
        if self.peek_char() != Some('"') {
            return Some(None);
        }
        let mut k = self.pos + 1;
        let mut s = String::new();
        while k < self.code.len() && self.code[k] != '"'
            invariant
                self.wf(),
                self@ == old(self)@,
                self.pos < k <= self.code.len(),
                string_scan(self@.code, self@.pos + 1, Seq::empty()) == string_scan(self@.code, k as int, s@),
                scan_panics(self@.code, self@.pos + 1) == scan_panics(self@.code, k as int),
            decreases self.code.len() - k,
        {
            let mut special: Option<char> = None;
            if k + 1 < self.code.len() {
                let a = char_utf8_len(self.code[k]);
                let b = char_utf8_len(self.code[k + 1]);
                if !(a == 2 || (a == 1 && b == 1)) {
                    assert(scan_panics(self@.code, k as int));
                    return None;
                }
                special = special_char(self.code[k], self.code[k + 1]);
            }
            match special {
                Some(sp) => {
                    push_char(&mut s, sp);
                    k = k + 2;
                },
                None => {
                    push_char(&mut s, self.code[k]);
                    k = k + 1;
                },
            }
        }
        if k >= self.code.len() {
            return Some(None);
        }
        let tok = Token::new(TokenKind::StringConst(s), self.row, self.column);
        self.advance_by(k + 1 - self.pos);
        Some(Some(tok))
    }

    pub fn tokenize_separator(&mut self) -> (r: Option<Token>)
        requires
            old(self).wf(),
        ensures
            final(self).wf(),
            match lex_separator(old(self)@) {
                Some((t, l2)) => r matches Some(tok) && tok@ == t && final(self)@ == l2,
                None => r is None && final(self)@ == old(self)@,
            },
            r is Some ==> final(self)@.pos > old(self)@.pos,
    {
        match self.peek_char() {
            Some(ch) => match SeparatorKind::from_char(ch) {
                Some(sep) => {
                    let tok = Token::new(TokenKind::Separator(sep), self.row, self.column);
                    self.next_char();
                    Some(tok)
                },
                None => None,
            },
            None => None,
        }
    }

    pub fn tokenize_operator(&mut self) -> (r: Option<Token>)
        requires
            old(self).wf(),
        ensures
            final(self).wf(),
            match lex_operator(old(self)@) {
                Some((t, l2)) => r matches Some(tok) && tok@ == t && final(self)@ == l2,
                None => r is None && final(self)@ == old(self)@,
            },
            r is Some ==> final(self)@.pos > old(self)@.pos,
    {
        match self.peek_char() {
            Some(ch) => match OperatorKind::from_char(ch) {
                Some(op) => {
                    let tok = Token::new(TokenKind::Operator(op), self.row, self.column);
                    self.next_char();
                    Some(tok)
                },
                None => None,
            },
            None => None,
        }
    }

    /// Reads the whole remaining text into tokens. On an error the tokens read before it
    /// are kept and the lexer stays where the error was found.
    pub fn tokenize(&mut self) -> (r: Result<(), ParsingError>)
        requires
            old(self).wf(),
            !lex_panics(old(self)@),
        ensures
            final(self).wf(),
            final(self)@ == lex_run(old(self)@).0,
            match r {
                Ok(()) => lex_run(old(self)@).1 is None,
                Err(e) => lex_run(old(self)@).1 == Some(e@),
            },
    {
        match self.try_tokenize() {
            Some(r) => r,
            None => unreached(),
        }
    }

    /// Reads the whole remaining text as `tokenize` does, but gives nothing where reading a
    /// name or a string constant panics.
    pub fn try_tokenize(&mut self) -> (r: Option<Result<(), ParsingError>>)
        requires
            old(self).wf(),
        ensures
            final(self).wf(),
            r is None <==> lex_panics(old(self)@),
            r matches Some(x) ==> final(self)@ == lex_run(old(self)@).0 && match x {
                Ok(()) => lex_run(old(self)@).1 is None,
                Err(e) => lex_run(old(self)@).1 == Some(e@),
            },
    {
        let ghost start = self@;
        loop
            invariant
                self.wf(),
                start == old(self)@,
                lex_run(self@) == lex_run(start),
                lex_panics(self@) == lex_panics(start),
            decreases self@.code.len() - self@.pos,
        {
            let ghost before = self@;
            self.skip_whitespace();
            if self.pos >= self.code.len() {
                assert(lex_run(before) == (self@, None::<ErrorModel>));
                return Some(Ok(()));
            }
            let ghost l1 = self@;
            let tok = if let Some(t) = self.tokenize_separator() {
                t
            } else if let Some(t) = self.tokenize_operator() {
                t
            } else if let Some(t) = self.tokenize_keyword() {
                t
            } else if let Some(t) = self.tokenize_variable() {
                t
            } else if let Some(t) = self.tokenize_function() {
                t
            } else {
                match self.try_tokenize_id() {
                    None => return None,
                    Some(Some(t)) => {
                        assert(!string_panics(l1));
                        t
                    },
                    Some(None) => match self.try_tokenize_string() {
                        None => return None,
                        Some(Some(t)) => t,
                        Some(None) => {
                            return Some(Err(ParsingError::new(ParsingErrorKind::UnknownCharacter, self.row, self.column)));
                        },
                    },
                }
            };
            let ghost l2 = self@;
            self.tokens.push(tok);
            proof {
                assert(tokens_view(self.tokens@) =~= l2.tokens.push(tok@));
                assert(lex_token(l1) == Some((tok@, l2)));
                assert(!token_panics(l1));
            }
        }
    }

    pub fn convert_special(ch: &str) -> (r: Option<char>)
        ensures
            r == special_of(ch@),
    {
        let cs = str_chars(ch);
        if cs.len() == 2 {
            special_char(cs[0], cs[1])
        } else {
            None
        }
    }
}

/// The character that the escape of `a` followed by `b` stands for.
pub fn special_char(a: char, b: char) -> (r: Option<char>)
    ensures
        r == special_pair(a, b),
{
    if a == '\\' {
        if b == 'n' {
            Some('\n')
        } else if b == '"' {
            Some('"')
        } else if b == '\'' {
            Some('\'')
        } else if b == 't' {
            Some('\t')
        } else if b == '\\' {
            Some('\\')
        } else {
            None
        }
    } else {
        None
    }
}

} // verus!
