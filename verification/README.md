# shell

A small interactive Unix-like shell whose logic is proved with Verus.

- `src/` is the verified library: the tokenizer and parser of command lines
  (`tokenizer`, `parser`, `check_quotes`), the decisions of the built-in
  commands (`executor`, `commands`, `pwd_state`), the `ls` option parsing,
  ordering and long-format layout (`ls_args`, `ls_order`, `ls_format`), and
  the line editor of the prompt (`repl`). Each public function states what
  it returns in its `ensures`; the proof functions named `law_*` state
  properties that relate several calls.
- `app/` is the program around it: the terminal loop, the file system
  queries and the printing.
- `tests/` runs the library on concrete inputs, and compares a few of its
  functions with what the standard library computes.
