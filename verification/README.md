# kaleidoscope

An interpreter for the untyped lambda calculus. A program is a list of
lines: assignments `name := body` and statements. Statements have the
program's bindings put in and are then reduced step by step until a step
changes nothing (or a step limit is reached).

`src/` is the library, written in Verus: its functions carry contracts and
are proved against them. The exceptions are the small wrappers marked
`#[verifier::external_body]` (in `text` and `opts`), each of which makes one
call into the standard library or `serde_json` (character classes, case
mapping, `Debug` text, JSON reading and writing): their contracts are
trusted, not proved, and their doc comments say what each one claims.
Positions are counted as the reading counts them: the positions of parts
of a text (from matching parentheses or braces, or a span's length) count
characters, and the text is then cut at those positions taken as byte
offsets, as slicing a `str` does (`char_at_byte` says where such a cut
lands). An error span that covers a whole text ends at its length in
UTF-8 bytes. On ASCII text characters and bytes agree.

- `types/`: expressions (variables, abstractions, applications), spans and
  errors; `parse` reads expressions, `reduce` does substitution and one
  reduction step, `rewrite` replaces or collects the parts a caller picks;
  `laws` states what reading and writing promise of each other.
- `nodes`: variables named by one character, and abstractions read by
  `AbstractionNode::from_str`.
- `parsing`: program text to lines, lines to assignments and statements.
- `assignments`: the table of bindings.
- `interpreter`: runs a program and writes what it does, frame by frame.
- `runner`: runs a whole program file at once (three sections of output).
- `repl`: the interactive session, one line at a time, with its commands.
- `opts`: interpreter options, kept as JSON text.
- `invocations`: `name!(args)` calls and `include!` directives.
- `modules`: what a program file declares for other files.
- `wasm`: the values the browser build hands to scripts.
- `text`, `utils`: character-level helpers.

`app/` is the command-line program around the library: argument handling,
the terminal, files, error rendering and JSON output.
