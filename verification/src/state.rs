//! The interpreter's state: variable scopes and user functions.

use std::rc::Rc;

use vstd::prelude::*;

use crate::action::{act_of, ran, result_view, ActionKind};
use crate::laws::law_run_is_any_fuel;
use crate::assoc::{
    assoc_get, assoc_insert, assoc_insert_spec, assoc_map, lemma_assoc_insert, lemma_assoc_map,
};
use crate::lexer::{lex, lex_panics, lex_start, Lexer, ParsingError};
use crate::parser::{body_spec, PState, Parser, Step};
use crate::model::{
    call_user, declare, declared_names, eval, first_duplicate, lemma_first_duplicate_prefix, lookup, max_depth, pop_scope, push_scope, run, runs_within, Env, FunctionDef,
    Act, Outcome,
};

verus! {

/// The kinds of error that running a program can report.
#[derive(Debug, Clone, Copy, PartialEq, Eq, Structural)]
pub enum ExecutionErrorKind {
    UnknownFunction,
    UnknownVariable,
}

/// The name under which an execution error kind is shown.
pub open spec fn execution_error_name(k: ExecutionErrorKind) -> Seq<char> {
    match k {
        ExecutionErrorKind::UnknownFunction => "UnknownFunction"@,
        ExecutionErrorKind::UnknownVariable => "UnknownVariable"@,
    }
}

#[derive(Debug)]
pub struct ExecutionError {
    kind: ExecutionErrorKind,
}

impl View for ExecutionError {
    type V = ExecutionErrorKind;

    closed spec fn view(&self) -> ExecutionErrorKind {
        self.kind
    }
}

impl ExecutionError {
    pub fn new(kind: ExecutionErrorKind) -> (r: Self)
        ensures
            r@ == kind,
    {
        Self { kind }
    }

    pub fn kind(&self) -> (r: ExecutionErrorKind)
        ensures
            r == self@,
    {
        self.kind
    }

    /// The text that describes the error: the name of its kind.
    pub fn to_string(&self) -> (r: String)
        ensures
            r@ == execution_error_name(self@),
    {
        let mut r = String::new();
        match self.kind {
            ExecutionErrorKind::UnknownFunction => r.append("UnknownFunction"),
            ExecutionErrorKind::UnknownVariable => r.append("UnknownVariable"),
        }
        r
    }
}

/// The views of a list of strings.
pub open spec fn strings_view(s: Seq<String>) -> Seq<Seq<char>> {
    s.map_values(|x: String| x@)
}

/// A declared user function.
pub struct UserFunction {
    arguments: Vec<String>,
    body: Rc<ActionKind>,
}

impl UserFunction {
    pub closed spec fn def(&self) -> FunctionDef {
        FunctionDef { arguments: strings_view(self.arguments@), body: act_of(*self.body) }
    }

    pub fn new(arguments: Vec<String>, body: Rc<ActionKind>) -> (r: Self)
        ensures
            r.def() == (FunctionDef { arguments: strings_view(arguments@), body: act_of(*body) }),
    {
        Self { arguments, body }
    }

    pub fn arguments(&self) -> (r: &Vec<String>)
        ensures
            strings_view(r@) == self.def().arguments,
    {
        &self.arguments
    }

    pub fn body(&self) -> (r: &Rc<ActionKind>)
        ensures
            act_of(**r) == self.def().body,
    {
        &self.body
    }
}

/// A loaded module: its body and the functions it declares.
pub struct Module {
    pub body: ActionKind,
    pub functions: Vec<(String, UserFunction)>,
}

/// The map of names to values that a list of string pairs stands for.
pub open spec fn scope_view(s: Seq<(String, String)>) -> Map<Seq<char>, Seq<char>> {
    assoc_map(s).map_values(|v: String| v@)
}

/// The map of names to user functions that a list stands for.
pub open spec fn functions_view(s: Seq<(String, UserFunction)>) -> Map<Seq<char>, FunctionDef> {
    assoc_map(s).map_values(|u: UserFunction| u.def())
}

/// Inserting a pair into a list of string pairs inserts into the map it stands for.
pub proof fn lemma_scope_insert(s: Seq<(String, String)>, k: String, v: String)
    ensures
        scope_view(assoc_insert_spec(s, k, v)) == scope_view(s).insert(k@, v@),
{
    lemma_assoc_insert(s, k, v);
    assert(scope_view(assoc_insert_spec(s, k, v)) =~= scope_view(s).insert(k@, v@));
}

/// The empty list stands for the empty map.
pub proof fn lemma_scope_empty()
    ensures
        scope_view(Seq::<(String, String)>::empty()) == Map::<Seq<char>, Seq<char>>::empty(),
{
    assert(scope_view(Seq::<(String, String)>::empty()) =~= Map::<Seq<char>, Seq<char>>::empty());
}

/// The position where parsing starts.
pub open spec fn start_state() -> PState {
    PState { pos: 0, last_row: 0, last_column: 0 }
}

/// Why loading a module failed.
#[derive(Debug)]
pub enum LoadError {
    /// The text is not a body of statements.
    Parsing(ParsingError),
    /// The module declares a function that is declared already, by the state or earlier in
    /// the module.
    DuplicateFunction(String),
    /// Running the module failed.
    Execution(ExecutionError),
}

/// The body that a text stands for, where it lexes and parses; a panic where reading the
/// text or parsing it panics.
pub open spec fn module_body(code: Seq<char>) -> Step<Act> {
    if lex_panics(lex_start(code)) {
        Step::Panic
    } else {
        match lex(code) {
            Err(e) => Step::Fail(e, start_state()),
            Ok(toks) => body_spec(toks, start_state()),
        }
    }
}

/// Loading the text in `env` neither makes the parser panic nor runs without end: a body
/// that declares no function twice runs within `max_depth()` nested calls.
pub open spec fn loadable(code: Seq<char>, env: Env) -> bool {
    match module_body(code) {
        Step::Panic => false,
        Step::Fail(_, _) => true,
        Step::Done(a, _) => first_duplicate(declared_names(a), env.functions) is None ==> runs_within(a, env),
    }
}

/// A result and a final state agree with loading the text in `env`: a text that does not
/// parse gives its error; a module that declares a function twice gives the first such name;
/// else the body is run, and gives its error or the body itself. Only a run changes the state.
pub open spec fn module_loaded(code: Seq<char>, env: Env, r: Result<ActionKind, LoadError>, st: Env) -> bool {
    match module_body(code) {
        Step::Panic => false,
        Step::Fail(e, _) => r matches Err(LoadError::Parsing(x)) && x@ == e && st == env,
        Step::Done(a, _) => match first_duplicate(declared_names(a), env.functions) {
            Some(n) => r matches Err(LoadError::DuplicateFunction(x)) && x@ == n && st == env,
            None => match run(a, env) {
                Outcome::Done(Ok(_), e2) => r matches Ok(x) && act_of(x) == a && st == e2,
                Outcome::Done(Err(k), e2) => r matches Err(LoadError::Execution(x)) && x@ == k && st == e2,
                Outcome::Stuck => false,
            },
        },
    }
}

/// A result of a bounded load and a final state agree with loading the text in `env`, the
/// run given `fuel` nested calls: as `module_loaded`, and nothing where the parser panics or
/// the run does not end within the fuel.
pub open spec fn module_loaded_within(
    code: Seq<char>,
    env: Env,
    fuel: nat,
    r: Option<Result<ActionKind, LoadError>>,
    st: Env,
) -> bool {
    match module_body(code) {
        Step::Panic => r is None && st == env,
        Step::Fail(e, _) => r matches Some(Err(LoadError::Parsing(x))) && x@ == e && st == env,
        Step::Done(a, _) => match first_duplicate(declared_names(a), env.functions) {
            Some(n) => r matches Some(Err(LoadError::DuplicateFunction(x))) && x@ == n && st == env,
            None => match eval(a, env, fuel) {
                Outcome::Done(Ok(_), e2) => r matches Some(Ok(x)) && act_of(x) == a && st == e2,
                Outcome::Done(Err(k), e2) => r matches Some(Err(LoadError::Execution(x))) && x@ == k && st == e2,
                Outcome::Stuck => r is None,
            },
        },
    }
}

/// The interpreter's state.
pub struct State {
    variables: Vec<Vec<(String, String)>>,
    functions: Vec<(String, UserFunction)>,
}

impl View for State {
    type V = Env;

    closed spec fn view(&self) -> Env {
        Env {
            scopes: self.variables@.map_values(|sc: Vec<(String, String)>| scope_view(sc@)),
            functions: functions_view(self.functions@),
        }
    }
}

impl Default for State {
    fn default() -> (r: Self)
        ensures
            r@ == (Env { scopes: Seq::empty(), functions: Map::empty() }),
    {
        let r = State { variables: Vec::new(), functions: Vec::new() };
        assert(r@.scopes =~= Seq::empty());
        assert(r@.functions =~= Map::empty());
        r
    }
}

impl State {
    pub fn create_new_variable_scope(&mut self, vars: Vec<(String, String)>)
        ensures
            final(self)@ == push_scope(old(self)@, scope_view(vars@)),
    {
        let ghost v = vars@;
        self.variables.push(vars);
        assert(self@.scopes =~= old(self)@.scopes.push(scope_view(v)));
    }

    pub fn pop_variable_scope(&mut self)
        ensures
            final(self)@ == pop_scope(old(self)@),
    {
        if self.variables.len() > 0 {
            self.variables.pop();
            assert(self@.scopes =~= old(self)@.scopes.drop_last());
        }
    }

    pub fn get_variable_value(&self, name: &str) -> (r: Option<String>)
        ensures
            match r {
                Some(v) => lookup(self@.scopes, name@) == Some(v@),
                None => lookup(self@.scopes, name@) is None,
            },
    {
        let key = name.to_owned();
        let ghost scopes = self@.scopes;
        let mut i = self.variables.len();
        assert(scopes.take(i as int) =~= scopes);
        while i > 0
            invariant
                i <= self.variables.len(),
                key@ == name@,
                scopes == self@.scopes,
                lookup(scopes, key@) == lookup(scopes.take(i as int), key@),
            decreases i,
        {
            i -= 1;
            let ghost sc = self.variables@[i as int]@;
            assert(scopes.take(i + 1).drop_last() =~= scopes.take(i as int));
            assert(scopes[i as int] == scope_view(sc));
            proof {
                lemma_assoc_map(sc, key@);
            }
            match assoc_get(&self.variables[i], &key) {
                Some(v) => {
                    return Some(v.clone());
                },
                None => {},
            }
        }
        assert(scopes.take(0) =~= Seq::<Map<Seq<char>, Seq<char>>>::empty());
        None
    }

    pub fn add_user_function(&mut self, name: String, args: Vec<String>, body: Rc<ActionKind>)
        ensures
            final(self)@ == declare(
                old(self)@,
                name@,
                FunctionDef { arguments: strings_view(args@), body: act_of(*body) },
            ),
    {
        let ghost k = name;
        let f = UserFunction::new(args, body);
        let ghost fd = f;
        assoc_insert(&mut self.functions, name, f);
        proof {
            lemma_assoc_insert(old(self).functions@, k, fd);
        }
        assert(self@.functions =~= old(self)@.functions.insert(k@, fd.def()));
        assert(self@.scopes =~= old(self)@.scopes);
    }

    pub fn get_user_function(&self, name: &str) -> (r: Option<&UserFunction>)
        ensures
            match r {
                Some(f) => self@.functions.contains_key(name@) && f.def() == self@.functions[name@],
                None => !self@.functions.contains_key(name@),
            },
    {
        let key = name.to_owned();
        proof {
            lemma_assoc_map(self.functions@, key@);
        }
        assoc_get(&self.functions, &key)
    }

    /// The first of `names` that is a declared function or occurs earlier among them.
    fn first_duplicate_of(&self, names: &Vec<String>) -> (r: Option<String>)
        ensures
            match first_duplicate(strings_view(names@), self@.functions) {
                Some(n) => r matches Some(x) && x@ == n,
                None => r is None,
            },
    {
        let ghost sv = strings_view(names@);
        let ghost fns = self@.functions;
        let mut i: usize = 0;
        assert(sv.take(0) =~= Seq::<Seq<char>>::empty());
        while i < names.len()
            invariant
                i <= names.len(),
                sv == strings_view(names@),
                fns == self@.functions,
                first_duplicate(sv.take(i as int), fns) is None,
            decreases names.len() - i,
        {
            let ghost pre = sv.take(i as int);
            assert(sv.take(i + 1).drop_last() =~= pre);
            assert(sv.take(i + 1).last() == names@[i as int]@);
            let mut found = self.get_user_function(names[i].as_str()).is_some();
            let mut j: usize = 0;
            while j < i && !found
                invariant
                    j <= i < names.len(),
                    pre == sv.take(i as int),
                    sv == strings_view(names@),
                    found ==> (fns.contains_key(names@[i as int]@) || pre.contains(names@[i as int]@)),
                    !found ==> !fns.contains_key(names@[i as int]@),
                    !found ==> forall|k: int| 0 <= k < j ==> #[trigger] pre[k] != names@[i as int]@,
                    fns == self@.functions,
                decreases i - j,
            {
                if names[j] == names[i] {
                    assert(pre[j as int] == names@[i as int]@);
                    found = true;
                }
                j += 1;
            }
            if found {
                proof {
                    lemma_first_duplicate_prefix(sv, i + 1, fns);
                }
                return Some(names[i].clone());
            }
            assert(!pre.contains(names@[i as int]@));
            i += 1;
        }
        assert(sv.take(i as int) =~= sv);
        None
    }

    /// Loads a module from its text and runs it, which adds the functions it declares to the
    /// state; the body is returned. Loading a module whose functions are declared already, as
    /// a second load of the same module is, gives `LoadError::DuplicateFunction` and changes
    /// nothing.
    pub fn load_module(&mut self, code: &str) -> (r: Result<ActionKind, LoadError>)
        requires
            loadable(code@, old(self)@),
        ensures
            module_loaded(code@, old(self)@, r, final(self)@),
    {
        proof {
            if let Step::Done(a, _) = module_body(code@) {
                if first_duplicate(declared_names(a), self@.functions) is None {
                    law_run_is_any_fuel(a, self@, max_depth());
                }
            }
        }
        match self.load_module_within(code, 0xffff_ffff_ffff_ffffu64) {
            Some(r) => r,
            None => unreached(),
        }
    }

    /// Loads a module as `load_module` does, with no demand on the text: gives nothing where
    /// reading the text would panic (a name or a string constant cut inside a character),
    /// where the parser would panic (an argument with no value after its `=`), and where the run
    /// would nest more than `max_depth` calls of user functions or reaches an assignment;
    /// the state is then left part way.
    pub fn load_module_within(&mut self, code: &str, max_depth: u64) -> (r: Option<Result<ActionKind, LoadError>>)
        ensures
            module_loaded_within(code@, old(self)@, max_depth as nat, r, final(self)@),
    {
        let mut lexer = Lexer::new(code);
        match lexer.try_tokenize() {
            None => return None,
            Some(Err(e)) => return Some(Err(LoadError::Parsing(e))),
            Some(Ok(())) => {},
        }
        let tokens = lexer.get_tokens();
        let mut parser = Parser::new(tokens.as_slice());
        let body = match parser.try_parse_body() {
            None => return None,
            Some(Err(e)) => return Some(Err(LoadError::Parsing(e))),
            Some(Ok(b)) => b,
        };
        let mut names: Vec<String> = Vec::new();
        body.collect_declared_names(&mut names);
        assert(strings_view(names@) =~= declared_names(body@));
        match self.first_duplicate_of(&names) {
            Some(n) => return Some(Err(LoadError::DuplicateFunction(n))),
            None => {},
        }
        match body.generate_within(self, max_depth) {
            None => None,
            Some(Ok(_)) => Some(Ok(body)),
            Some(Err(e)) => Some(Err(LoadError::Execution(e))),
        }
    }

    /// Calls a user function, nesting at most `max_depth` calls of user functions.
    pub(crate) fn call_user_within(&mut self, name: &str, args: Vec<(String, String)>, max_depth: u64)
        -> (r: Option<Result<Option<String>, ExecutionError>>)
        ensures
            ran(call_user(name@, scope_view(args@), old(self)@, max_depth as nat), r, final(self)@),
        decreases max_depth, 0int, args@,
    {
        let body = match self.get_user_function(name) {
            Some(f) => f.body().clone(),
            None => return Some(Err(ExecutionError::new(ExecutionErrorKind::UnknownFunction))),
        };
        if max_depth == 0 {
            return None;
        }
        self.create_new_variable_scope(args);
        let res = body.generate_within(self, max_depth - 1);
        match res {
            None => None,
            Some(res) => {
                self.pop_variable_scope();
                Some(res)
            },
        }
    }

    /// Runs `body` in a new innermost scope holding `args`; the scope is removed afterwards.
    pub fn execute_function(&mut self, body: &ActionKind, args: Vec<(String, String)>)
        -> (r: Result<Option<String>, ExecutionError>)
        requires
            runs_within(body@, push_scope(old(self)@, scope_view(args@))),
        ensures
            run(body@, push_scope(old(self)@, scope_view(args@))) matches Outcome::Done(out, e)
                && out == result_view(r) && final(self)@ == pop_scope(e),
    {
        let ghost inner = push_scope(self@, scope_view(args@));
        proof {
            law_run_is_any_fuel(body@, inner, max_depth());
        }
        self.create_new_variable_scope(args);
        let res = body.generate(self);
        self.pop_variable_scope();
        res
    }

    /// Calls the user function `name` with the arguments `args`.
    pub fn execute_user_function(&mut self, name: &str, args: Vec<(String, String)>)
        -> (r: Result<Option<String>, ExecutionError>)
        requires
            call_user(name@, scope_view(args@), old(self)@, max_depth()) is Done,
        ensures
            call_user(name@, scope_view(args@), old(self)@, max_depth()) == Outcome::Done(
                result_view(r),
                final(self)@,
            ),
    {
        match self.call_user_within(name, args, 0xffff_ffff_ffff_ffffu64) {
            Some(r) => r,
            None => unreached(),
        }
    }
}

} // verus!
