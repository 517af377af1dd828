# dspy-core

Programs that work with language models, as a library whose behaviour is stated in
contracts and proved by Verus.

- `src/` is the library. A signature says which fields a task has; an adapter turns a
  signature and an example into messages and reads the reply; predictors, chains of
  thought, agents and comparisons are built on that. Caching, history, usage,
  settings, streaming, evaluation, embeddings and data sets stand beside them.
- `app/` is ordinary Rust around it: the traits that models and adapters implement,
  files, child processes and tasks. It drives the library, which says at each step
  what is to be done next and takes what came of it.
- `tests/` holds the tests.

## How the library is written

A value that the library works on has a view: a mathematical value that says what it
holds (`SigSpec`, `ExampleSpec`, `ValueSpec`, `JsonSpec` and so on). Contracts are
stated over views. Work that needs the world, such as a call of a model or a run of a
program, is split into steps: a function takes the state and what happened, and gives
the next state and what to do. So `ReAct`, `CodeAct`, `ProgramOfThought` and `RLM` have
runs with `begin`, `next` and `on_..` functions, and so have calls of models that go
through the cache (`CallContext`), batches (`ParallelBatch`, `EmbedRun`) and command line
models (`CliCall`).

Numbers with a fraction are held as the text that JSON prints for them (`JsonFloat`).
Maps with text keys keep the order in which keys were put in (`StrMap`).

Laws, that is properties of several functions together, are proof functions whose names
begin with `law_`.

## What is believed without proof

The contracts of functions of other crates and of the standard library, each stated
above the function that calls it: JSON by `serde_json`, base64, SHA-256, patterns by
`regex`, the ordered map of `indexmap`, random numbers, and case, `Debug` forms and
classes of characters by the standard library.
