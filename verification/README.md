# clank

The verified core of clank, an AI-native shell built on the `brush`
interpreter. The library (`src/`) holds the shell's own decisions, each with a
Verus contract over a mathematical model:

- `scope` — execution scopes and the command manifest registry.
- `transcript` — the session transcript (commands, outputs, AI responses) and
  the cell through which `ask` hands its response to the recorder.
- `record` — what a finished statement adds to the transcript, with
  declared-secret flag values scrubbed (`redact`).
- `context`, `ask`, `outcome` — the decisions of the `context` and `ask`
  builtins and how a model provider's answer becomes their output.
- `session` — splitting a script into statements and the control flow of the
  script runner and the interactive loop; the shell's creation options.
- `http` — HTTP responses and errors.
- `text` — character-level primitives (trimming, words, lines, joining).

`app/` is the executable around it: the interpreter, its builtin
registrations, process-wide state, terminal and network I/O.
