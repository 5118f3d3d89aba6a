# mf-kernel

The kernel of a headless core service, verified with [Verus](https://github.com/verus-lang/verus).

The kernel takes commands from clients, carries each out at most once in the store of its
project, and tells every client what changed, in order and without a gap. Everything it
decides is a verified function over plain values; databases, key rings, files and
connections are read and written around it.

## Layout

- `src/` – the verified library.
  - `text`, `json`, `digest`, `table`, `moment`, `secret` – texts, JSON values and their one
    printed form, digests, keyed tables, points in time, secrets in memory.
  - `handles`, `command`, `canonical`, `lease`, `authority` – who may command what; what a
    command means; one meaning, one digest.
  - `dispatch`, `operation`, `reconcile`, `workflow_start` – a command and its receipt,
    operations over several stores, and what a restart makes of either.
  - `projection`, `journal`, `publication`, `snapshot` – events, the journal that clients
    follow, and what they are shown.
  - `run_command`, `project_rows`, `run_scope`, `run_effects`, `run_actions`,
    `undelivered`, `run_dispatch`, `run_control`, `cancel_recovery`, `workflow_effects` –
    workflows and their runs.
  - `project_registry`, `core_lifecycle`, `handoff`, `feature_gate`, `limits`, `shutdown` –
    the life of the service.
  - `kernel`, `facade`, `legacy_client`, `client_scope`, `legacy_transport`, `problem` – the
    kernel itself and the ways in.
- `tests/` – tests of the library.
- `app/` – the program around it: SQLite, the key ring, files, the connection.

Functions named `law_…` are proofs of what holds of the library as a whole.
