# nightshift-core

The engine behind the `nightshift` command line: headless state machines and
their driver, the blueprint workflow interpreter and its scheduler, the key
store, state-machine audits, GitHub pull-request checks and the text and JSON
views of all of these.

- `src/` is the library, written in Verus: its functions carry contracts
  and are proved against them (the few calls into the clock, the cron and
  chrono crates, serde_json's error text and the signal channel are trusted
  wrappers whose contracts say what those calls promise), and the laws that
  tie functions together (for
  example that entering a sub-workflow and returning from it restores the
  caller, or that a validated state machine only names states it declares)
  are proof functions.
- `app/` is the host side: files, processes (`git`, `gh`, `docker`), YAML and
  JSON decoding, signals, the terminal and the orchestrator's loops. It hands
  the library plain values and acts on what the library decides.
- `tests/` runs the library on concrete inputs.
