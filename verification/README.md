# aetheris

A Windows service that gives the machine to a running game. While a process
that the configuration names as a game runs, the configured background
processes are suspended, lowered in priority, pinned to cores, capped or
trimmed; when the game ends, each is taken back to the state it had.

* `src/`: the library, verified with Verus. Every rule stands here: what a
  configuration may hold, which process a rule means, what entering and leaving
  a boost does, how trace events are decoded, what the service answers, how the
  editor turns its controls into a configuration.
* `app/`: the program round it: threads, the named pipe, the registry, the
  event trace, windows. The parts that call Windows are built there only; on
  other systems `elsewhere.rs` stands in for them with errors.
* `tests/`: tests of the library.

What the library promises beyond the contracts of single functions is stated in
`pub proof fn` items: most of them in `src/laws.rs` (protection, boosts) and
`src/restore_laws.rs` (that what was changed is taken back) and
`src/start_laws.rs` (that the order of starts does not matter), the others beside
the functions that they speak of.

The engine acts on the system through the traits `ProcessBackend` and
`QosLifecycle`. Their contracts say that each call is noted with its answer in a
log, and the contracts of the engine speak of that log. The backend in `app/`
is not verified against them.

What is believed without proof is marked `external_body`,
`assume_specification` or `uninterp`, with a comment on the claim: the searcher
of `aho_corasick` (`src/rules.rs`), `bincode` (`src/network.rs`), and two
functions of std (`src/text.rs`, `src/etw.rs`).
