# gi_html

A small template language that writes HTML, with its lexer, parser and interpreter
verified in Verus.

A program is a list of statements ending in `;`:

    def card(title){ h2(){ $title @ "!"; }; };
    div(class = "box"){ %card(title = "Hello"); };

writes `<div class="box"><h2 >Hello!</h2></div>`.

- `src/lexer.rs`: text to tokens (`Lexer`), with the meaning of each step as spec functions.
- `src/parser.rs`: tokens to syntax trees (`Parser`).
- `src/model.rs`: syntax trees as plain values and their evaluation.
- `src/action.rs`: executable syntax trees (`ActionKind`) and `generate`.
- `src/state.rs`: variable scopes and user functions (`State`), and loading a module: it is
  parsed and run, its functions are added to the state, and loading a module whose functions
  are declared already reports the duplicate.
- `src/execution.rs`: a first, simpler form of syntax trees.
- `src/assoc.rs`, `src/text.rs`: maps of names and character helpers.
- `src/laws.rs`: properties that hold across operations.
- `src/syntax.rs`: the tokens that write a syntax tree, and the law that the parser reads
  them back.
- `src/writing.rs`: tokens written as text, and the laws that the lexer reads them back and
  that a written module is read back as the tree that was written.
- `app/main.rs`: reading a module from a file.
