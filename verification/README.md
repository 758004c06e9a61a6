# event_game_lang

A tiny language for a collaborative game. Each node of the game world runs a short
program once per tick; programs have no functions and no loops, so every run ends.
Nodes talk by messages: what a node sends during a tick waits in the target's mailbox
and schedules the target for the next tick; what nobody reads is dropped.

The library is written in Verus, and its behaviour is stated as contracts:

- `src/lexer.rs`, `src/parser.rs`: tokens and the grammar, each as a spec function on
  the source bytes that the executable code is proved to compute.
- `src/eval.rs`: the interpreter; `src/tick.rs`: a tick, whose nodes run in parallel.
- `src/engine.rs`: the world and the queue of updates that is applied right before the
  next tick; every update is checked against the world with the queue applied.
- `src/session.rs`, `src/api.rs`: session ids and cookies, the admin token, and the
  error answers of the HTTP interface.
- `src/properties.rs`: properties that span several operations.
- `src/strmap.rs`, `src/text.rs`: string-keyed maps and text helpers.

`app/` holds the HTTP server (axum and tokio) around the library; `tests/` its tests.
