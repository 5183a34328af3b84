# razel-host

The host layer of the razel build tool, with its decisions verified in Verus.

A build runs on a demand graph. The host composes the graph's engine, finds the workspace root and
the rust compiler, reads the module file, runs actions in local processes and writes what was built
to disk. All of it is fail-closed: what is missing is a typed error, never a default.

- `src/` is the library. It performs no I/O. Whatever alternates questions to the outside with
  decisions is a state machine with three methods: `request` says what to ask next, `resume` takes
  the answer, `outcome` gives the result. Its contract says, for every state and every answer, what
  the next state is; the `law_` proof functions say what holds of whole runs.
- `tests/` runs the machines against in-memory hosts.
- `app/` joins the library to the engine, the operating system and the Starlark evaluator, which
  are the other crates of the razel workspace.

Two functions of the standard library are taken on trust, both in `src/text.rs`: the decoding of
UTF-8 and the debug rendering of a list of strings.
