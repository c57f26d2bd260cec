# soa

The decision logic of a staged coding agent, written in Verus.

`soa` runs a task through configured stages. Each stage asks a model, lets it
call tools, and ends with an answer or by handing control to another stage.
The rules of that stand in `src/` as functions with contracts, proved by
Verus: which configuration is valid, what a prompt says, which tools a stage
is offered and which calls need approval, how an interrupted conversation is
replayed, when a request is retried or handed to a fallback, what a provider's
bytes mean, how a file edit changes a file, in what order files are searched,
which proposals are kept.

- `src/` — the library. It computes on plain values and does no input or
  output.
- `tests/` — its tests.
- `app/` — the program: arguments, files, processes, HTTP and MCP connections,
  the words for what a process or a page gave back, the serde forms of what is
  stored, and the few comparisons of fractions and amounts of money.

Laws that relate several functions are public proof functions whose names
begin with `law_`.
