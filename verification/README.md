# uta

An interpreter for `.web` scripts: a small language of constants, functions,
`if` blocks, comparisons, HTML tags written as calls (`h1("hi")`), and
built-ins that wait, serve a file over HTTP, and run coroutines.

The library (`src/`) is verified with Verus:

- `lexer` splits source text into tokens; its result is the lexical grammar
  `lex` applied to the text, errors included. Numbers are held as canonical
  decimal text.
- `grammar` gives the concrete syntax as the token sequence that prints each
  well-formed program; `parser` succeeds exactly on the texts whose tokens are
  such a printing and returns that program. `descent` says which error it
  reports otherwise.
- `semantics` defines what running a program means: the actions it asks of
  the outside world, the value of its `return`, its variables afterwards.
  `eval` runs programs and is proved to follow that meaning; `env` holds the
  variables as a stack of scopes.
- `numbers`, `http`, `text` and `error` hold what the program around the
  library needs computed: ports and milliseconds from numbers, the head of an
  HTTP answer, decimal text, and error messages.

The command (`app/main.rs`) reads the script, runs it with the library, and
then carries out the recorded actions in order: printing, sleeping, serving
files (with `socket2`), and running coroutines on threads.
